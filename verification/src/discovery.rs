//! The discovery expander: turns a configuration into discovery groups.
//!
//! Expansion groups targets by tag. Walking the targets in stored order,
//! and each target's tags in stored order, every (tag, URL) occurrence is
//! appended to the tag's bucket — duplicates included. Tags are emitted in
//! first-seen order. For every endpoint, in stored order, and then for
//! every distinct tag, one group is emitted: the tag's URL bucket, and
//! four reserved labels naming the endpoint's address, name and geohash
//! and the tag itself.

use vstd::prelude::*;

use crate::config::{Config, ConfigView, Endpoint, EndpointView, TargetView};
use crate::model::{spec_label_lookup, FileConfig, FileConfigView};

verus! {

/// The reserved label key bound to the endpoint's address.
pub open spec fn spec_endpoint_url_key() -> Seq<char> {
    "__endpoint__url"@
}

/// The reserved label key bound to the endpoint's name.
pub open spec fn spec_endpoint_name_key() -> Seq<char> {
    "__endpoint__name"@
}

/// The reserved label key bound to the endpoint's geohash.
pub open spec fn spec_endpoint_geohash_key() -> Seq<char> {
    "__endpoint__geohash"@
}

/// The reserved label key bound to the group's tag.
pub open spec fn spec_tag_key() -> Seq<char> {
    "__tag"@
}

/// The labels of one group: exactly the four reserved keys, bound to the
/// endpoint's fields and to the tag, in a fixed order.
pub open spec fn spec_group_labels(e: EndpointView, tag: Seq<char>) -> Seq<(Seq<char>, Seq<char>)> {
    seq![
        (spec_endpoint_url_key(), e.address),
        (spec_endpoint_name_key(), e.name),
        (spec_endpoint_geohash_key(), e.geohash),
        (spec_tag_key(), tag),
    ]
}

/// The (tag, URL) pairs one target contributes, one per tag occurrence,
/// in tag order.
pub open spec fn target_pairs(t: TargetView) -> Seq<(Seq<char>, Seq<char>)> {
    Seq::new(t.tags.len(), |i: int| (t.tags[i], t.url))
}

/// All (tag, URL) pairs of a target list, in stored order.
pub open spec fn config_pairs(ts: Seq<TargetView>) -> Seq<(Seq<char>, Seq<char>)>
    decreases ts.len(),
{
    if ts.len() == 0 {
        Seq::empty()
    } else {
        config_pairs(ts.drop_last()) + target_pairs(ts.last())
    }
}

/// The distinct tags of a pair sequence, in first-seen order.
pub open spec fn first_seen_tags(ps: Seq<(Seq<char>, Seq<char>)>) -> Seq<Seq<char>>
    decreases ps.len(),
{
    if ps.len() == 0 {
        Seq::empty()
    } else {
        let rest = first_seen_tags(ps.drop_last());
        if rest.contains(ps.last().0) {
            rest
        } else {
            rest.push(ps.last().0)
        }
    }
}

/// The URLs grouped under a tag, in contribution order, duplicates kept.
pub open spec fn tag_bucket(ps: Seq<(Seq<char>, Seq<char>)>, tag: Seq<char>) -> Seq<Seq<char>>
    decreases ps.len(),
{
    if ps.len() == 0 {
        Seq::empty()
    } else {
        tag_bucket(ps.drop_last(), tag) + if ps.last().0 == tag {
            seq![ps.last().1]
        } else {
            Seq::empty()
        }
    }
}

/// The group emitted for one endpoint and one tag.
pub open spec fn spec_group(e: EndpointView, tag: Seq<char>, ps: Seq<(Seq<char>, Seq<char>)>) -> FileConfigView {
    FileConfigView { targets: tag_bucket(ps, tag), labels: spec_group_labels(e, tag) }
}

/// The groups of one endpoint: one per distinct tag, in first-seen order.
pub open spec fn endpoint_groups(e: EndpointView, ps: Seq<(Seq<char>, Seq<char>)>) -> Seq<
    FileConfigView,
> {
    Seq::new(first_seen_tags(ps).len(), |j: int| spec_group(e, first_seen_tags(ps)[j], ps))
}

/// The groups of an endpoint list, endpoint-major.
pub open spec fn groups_of_endpoints(
    es: Seq<EndpointView>,
    ps: Seq<(Seq<char>, Seq<char>)>,
) -> Seq<FileConfigView>
    decreases es.len(),
{
    if es.len() == 0 {
        Seq::empty()
    } else {
        groups_of_endpoints(es.drop_last(), ps) + endpoint_groups(es.last(), ps)
    }
}

/// The distinct tags a configuration's targets carry, in first-seen order.
pub open spec fn distinct_tags(c: ConfigView) -> Seq<Seq<char>> {
    first_seen_tags(config_pairs(c.target))
}

/// The full expansion of a configuration.
pub open spec fn spec_expand(c: ConfigView) -> Seq<FileConfigView> {
    groups_of_endpoints(c.endpoint, config_pairs(c.target))
}

/// The reserved label key bound to the endpoint's address.
pub fn endpoint_url_key() -> (r: &'static str)
    ensures
        r@ == spec_endpoint_url_key(),
{
    "__endpoint__url"
}

/// The reserved label key bound to the endpoint's name.
pub fn endpoint_name_key() -> (r: &'static str)
    ensures
        r@ == spec_endpoint_name_key(),
{
    "__endpoint__name"
}

/// The reserved label key bound to the endpoint's geohash.
pub fn endpoint_geohash_key() -> (r: &'static str)
    ensures
        r@ == spec_endpoint_geohash_key(),
{
    "__endpoint__geohash"
}

/// The reserved label key bound to the group's tag.
pub fn tag_key() -> (r: &'static str)
    ensures
        r@ == spec_tag_key(),
{
    "__tag"
}

/// Builds the label list of one group.
fn group_labels(e: &Endpoint, tag: &String) -> (r: Vec<(String, String)>)
    ensures
        r.deep_view() == spec_group_labels(e@, tag@),
{
    let mut v: Vec<(String, String)> = Vec::new();
    v.push((endpoint_url_key().to_owned(), e.address.clone()));
    v.push((endpoint_name_key().to_owned(), e.name.clone()));
    v.push((endpoint_geohash_key().to_owned(), e.geohash.clone()));
    v.push((tag_key().to_owned(), tag.clone()));
    proof {
        assert(v.deep_view() =~= spec_group_labels(e@, tag@));
    }
    v
}

/// Copies a URL list.
fn clone_string_vec(v: &Vec<String>) -> (r: Vec<String>)
    ensures
        r.deep_view() == v.deep_view(),
{
    let mut out: Vec<String> = Vec::new();
    let mut i: usize = 0;
    while i < v.len()
        invariant
            i <= v.len(),
            out.deep_view() == v.deep_view().take(i as int),
        decreases v.len() - i,
    {
        let ghost prev = out.deep_view();
        out.push(v[i].clone());
        proof {
            assert(out.deep_view() =~= prev.push(v.deep_view()[i as int]));
            assert(v.deep_view().take(i as int + 1) =~= v.deep_view().take(i as int).push(
                v.deep_view()[i as int],
            ));
        }
        i = i + 1;
    }
    proof {
        assert(v.deep_view().take(v@.len() as int) =~= v.deep_view());
    }
    out
}

/// Whether a tag is already listed.
fn contains_string(v: &Vec<String>, s: &String) -> (r: bool)
    ensures
        r == v.deep_view().contains(s@),
{
    let mut i: usize = 0;
    while i < v.len()
        invariant
            i <= v.len(),
            forall|m: int| 0 <= m < i ==> v.deep_view()[m] != s@,
        decreases v.len() - i,
    {
        let eq: bool = v[i] == *s;
        if eq {
            proof {
                assert(v.deep_view()[i as int] == s@);
            }
            return true;
        }
        i = i + 1;
    }
    false
}

/// The URLs grouped under `key`, in contribution order.
fn bucket_for(pairs: &Vec<(String, String)>, key: &String) -> (r: Vec<String>)
    ensures
        r.deep_view() == tag_bucket(pairs.deep_view(), key@),
{
    let ghost pv = pairs.deep_view();
    let mut out: Vec<String> = Vec::new();
    let mut i: usize = 0;
    proof {
        assert(pv.take(0) =~= Seq::<(Seq<char>, Seq<char>)>::empty());
    }
    while i < pairs.len()
        invariant
            i <= pairs.len(),
            pv == pairs.deep_view(),
            out.deep_view() == tag_bucket(pv.take(i as int), key@),
        decreases pairs.len() - i,
    {
        proof {
            assert(pv.take(i as int + 1).drop_last() =~= pv.take(i as int));
            assert(pv.take(i as int + 1).last() == pv[i as int]);
            assert(pv[i as int] == (pairs@[i as int].0@, pairs@[i as int].1@));
        }
        let eq: bool = pairs[i].0 == *key;
        if eq {
            let ghost prev = out.deep_view();
            out.push(pairs[i].1.clone());
            proof {
                assert(out.deep_view() =~= prev.push(pv[i as int].1));
                assert(out.deep_view() =~= tag_bucket(pv.take(i as int + 1), key@));
            }
        } else {
            proof {
                assert(out.deep_view() =~= tag_bucket(pv.take(i as int + 1), key@));
            }
        }
        i = i + 1;
    }
    proof {
        assert(pv.take(pairs@.len() as int) =~= pv);
    }
    out
}

/// Expands a configuration into its discovery document: one group per
/// endpoint and per distinct tag, in endpoint-major, first-seen-tag
/// order. Pure: the result is a function of the configuration alone.
pub fn expand(config: &Config) -> (r: Vec<FileConfig>)
    ensures
        r.deep_view() == spec_expand(config.deep_view()),
{
    let ghost cv = config.deep_view();

    // The (tag, URL) contribution pairs, in stored order.
    let mut pairs: Vec<(String, String)> = Vec::new();
    let mut i: usize = 0;
    proof {
        assert(cv.target.take(0) =~= Seq::<TargetView>::empty());
        assert(pairs.deep_view() =~= config_pairs(cv.target.take(0)));
    }
    while i < config.target.len()
        invariant
            i <= config.target.len(),
            cv == config.deep_view(),
            pairs.deep_view() == config_pairs(cv.target.take(i as int)),
        decreases config.target.len() - i,
    {
        let ghost tv = cv.target[i as int];
        let mut j: usize = 0;
        proof {
            assert(tv == config.target@[i as int].deep_view());
            assert(target_pairs(tv).take(0) =~= Seq::<(Seq<char>, Seq<char>)>::empty());
            assert(pairs.deep_view() =~= config_pairs(cv.target.take(i as int)) + target_pairs(
                tv,
            ).take(0));
        }
        while j < config.target[i].tags.len()
            invariant
                i < config.target.len(),
                j <= config.target[i as int].tags.len(),
                cv == config.deep_view(),
                tv == cv.target[i as int],
                pairs.deep_view() == config_pairs(cv.target.take(i as int)) + target_pairs(
                    tv,
                ).take(j as int),
            decreases config.target[i as int].tags.len() - j,
        {
            let ghost prev = pairs.deep_view();
            pairs.push((config.target[i].tags[j].clone(), config.target[i].url.clone()));
            proof {
                assert(tv.tags[j as int] == config.target@[i as int].tags@[j as int]@);
                assert(tv.url == config.target@[i as int].url@);
                assert(pairs.deep_view() =~= prev.push((tv.tags[j as int], tv.url)));
                assert(target_pairs(tv).take(j as int + 1) =~= target_pairs(tv).take(
                    j as int,
                ).push((tv.tags[j as int], tv.url)));
                assert(pairs.deep_view() =~= config_pairs(cv.target.take(i as int))
                    + target_pairs(tv).take(j as int + 1));
            }
            j = j + 1;
        }
        proof {
            assert(target_pairs(tv).take(config.target@[i as int].tags@.len() as int)
                =~= target_pairs(tv));
            assert(cv.target.take(i as int + 1).drop_last() =~= cv.target.take(i as int));
            assert(cv.target.take(i as int + 1).last() == cv.target[i as int]);
            assert(pairs.deep_view() =~= config_pairs(cv.target.take(i as int + 1)));
        }
        i = i + 1;
    }
    proof {
        assert(cv.target.take(cv.target.len() as int) =~= cv.target);
    }
    let ghost pv = config_pairs(cv.target);

    // The distinct tags, in first-seen order.
    let mut keys: Vec<String> = Vec::new();
    let mut k: usize = 0;
    proof {
        assert(pv.take(0) =~= Seq::<(Seq<char>, Seq<char>)>::empty());
        assert(keys.deep_view() =~= first_seen_tags(pv.take(0)));
    }
    while k < pairs.len()
        invariant
            k <= pairs.len(),
            pairs.deep_view() == pv,
            keys.deep_view() == first_seen_tags(pv.take(k as int)),
        decreases pairs.len() - k,
    {
        proof {
            assert(pv.take(k as int + 1).drop_last() =~= pv.take(k as int));
            assert(pv.take(k as int + 1).last() == pv[k as int]);
            assert(pv[k as int] == (pairs@[k as int].0@, pairs@[k as int].1@));
        }
        let present = contains_string(&keys, &pairs[k].0);
        if !present {
            let ghost prevk = keys.deep_view();
            keys.push(pairs[k].0.clone());
            proof {
                assert(keys.deep_view() =~= prevk.push(pv[k as int].0));
            }
        }
        proof {
            assert(keys.deep_view() =~= first_seen_tags(pv.take(k as int + 1)));
        }
        k = k + 1;
    }
    proof {
        assert(pv.take(pairs@.len() as int) =~= pv);
        assert(keys.deep_view() == first_seen_tags(pv));
    }

    // The URL bucket of each distinct tag, built once.
    let mut buckets: Vec<Vec<String>> = Vec::new();
    let mut b: usize = 0;
    while b < keys.len()
        invariant
            b <= keys.len(),
            buckets@.len() == b,
            pairs.deep_view() == pv,
            keys.deep_view() == first_seen_tags(pv),
            forall|m: int| 0 <= m < b ==> buckets.deep_view()[m] == tag_bucket(
                pv,
                keys.deep_view()[m],
            ),
        decreases keys.len() - b,
    {
        let bucket = bucket_for(&pairs, &keys[b]);
        let ghost prevb = buckets.deep_view();
        let ghost bv = bucket.deep_view();
        buckets.push(bucket);
        proof {
            assert(keys.deep_view()[b as int] == keys@[b as int]@);
            assert(buckets.deep_view() =~= prevb.push(bv));
        }
        b = b + 1;
    }

    // One group per endpoint and per distinct tag.
    let mut out: Vec<FileConfig> = Vec::new();
    let mut e: usize = 0;
    proof {
        assert(cv.endpoint.take(0) =~= Seq::<EndpointView>::empty());
        assert(out.deep_view() =~= groups_of_endpoints(cv.endpoint.take(0), pv));
    }
    while e < config.endpoint.len()
        invariant
            e <= config.endpoint.len(),
            cv == config.deep_view(),
            pairs.deep_view() == pv,
            keys.deep_view() == first_seen_tags(pv),
            buckets@.len() == keys@.len(),
            forall|m: int| 0 <= m < buckets@.len() ==> buckets.deep_view()[m] == tag_bucket(
                pv,
                keys.deep_view()[m],
            ),
            out.deep_view() == groups_of_endpoints(cv.endpoint.take(e as int), pv),
        decreases config.endpoint.len() - e,
    {
        let ghost ev = cv.endpoint[e as int];
        let mut g: usize = 0;
        proof {
            assert(ev == config.endpoint@[e as int].deep_view());
            assert(endpoint_groups(ev, pv).take(0) =~= Seq::<FileConfigView>::empty());
            assert(out.deep_view() =~= groups_of_endpoints(cv.endpoint.take(e as int), pv)
                + endpoint_groups(ev, pv).take(0));
        }
        while g < keys.len()
            invariant
                e < config.endpoint.len(),
                g <= keys.len(),
                cv == config.deep_view(),
                ev == cv.endpoint[e as int],
                pairs.deep_view() == pv,
                keys.deep_view() == first_seen_tags(pv),
                buckets@.len() == keys@.len(),
                forall|m: int| 0 <= m < buckets@.len() ==> buckets.deep_view()[m] == tag_bucket(
                    pv,
                    keys.deep_view()[m],
                ),
                out.deep_view() == groups_of_endpoints(cv.endpoint.take(e as int), pv)
                    + endpoint_groups(ev, pv).take(g as int),
            decreases keys.len() - g,
        {
            let targets = clone_string_vec(&buckets[g]);
            let labels = group_labels(&config.endpoint[e], &keys[g]);
            let ghost prevo = out.deep_view();
            let ghost fcv = FileConfigView { targets: targets.deep_view(), labels: labels.deep_view() };
            out.push(FileConfig { targets, labels });
            proof {
                assert(keys.deep_view()[g as int] == keys@[g as int]@);
                assert(buckets.deep_view()[g as int] == buckets@[g as int].deep_view());
                assert(ev == config.endpoint@[e as int]@);
                assert(fcv.targets == tag_bucket(pv, first_seen_tags(pv)[g as int]));
                assert(fcv.labels == spec_group_labels(ev, first_seen_tags(pv)[g as int]));
                assert(fcv == spec_group(ev, first_seen_tags(pv)[g as int], pv));
                assert(out.deep_view() =~= prevo.push(
                    spec_group(ev, first_seen_tags(pv)[g as int], pv),
                ));
                assert(endpoint_groups(ev, pv).take(g as int + 1) =~= endpoint_groups(
                    ev,
                    pv,
                ).take(g as int).push(spec_group(ev, first_seen_tags(pv)[g as int], pv)));
                assert(out.deep_view() =~= groups_of_endpoints(cv.endpoint.take(e as int), pv)
                    + endpoint_groups(ev, pv).take(g as int + 1));
            }
            g = g + 1;
        }
        proof {
            assert(endpoint_groups(ev, pv).take(keys@.len() as int) =~= endpoint_groups(ev, pv));
            assert(cv.endpoint.take(e as int + 1).drop_last() =~= cv.endpoint.take(e as int));
            assert(cv.endpoint.take(e as int + 1).last() == cv.endpoint[e as int]);
            assert(out.deep_view() =~= groups_of_endpoints(cv.endpoint.take(e as int + 1), pv));
        }
        e = e + 1;
    }
    proof {
        assert(cv.endpoint.take(cv.endpoint.len() as int) =~= cv.endpoint);
    }
    out
}

/// Whether some target of the list carries the tag `t`.
pub open spec fn carries_tag(ts: Seq<TargetView>, t: Seq<char>) -> bool {
    exists|i: int, j: int|
        0 <= i < ts.len() && 0 <= j < ts[i].tags.len() && ts[i].tags[j] == t
}

/// Whether some pair of the sequence has the tag `t`.
pub open spec fn pair_has_tag(ps: Seq<(Seq<char>, Seq<char>)>, t: Seq<char>) -> bool {
    exists|k: int| 0 <= k < ps.len() && ps[k].0 == t
}

proof fn lemma_config_pairs_tags(ts: Seq<TargetView>, t: Seq<char>)
    ensures
        pair_has_tag(config_pairs(ts), t) <==> carries_tag(ts, t),
    decreases ts.len(),
{
    if ts.len() == 0 {
    } else {
        lemma_config_pairs_tags(ts.drop_last(), t);
        let front = config_pairs(ts.drop_last());
        let back = target_pairs(ts.last());
        let all = config_pairs(ts);
        if pair_has_tag(all, t) {
            let k = choose|k: int| 0 <= k < all.len() && all[k].0 == t;
            if k < front.len() {
                assert(front[k].0 == t);
                assert(pair_has_tag(front, t));
                let (i, j) = choose|i: int, j: int|
                    0 <= i < ts.drop_last().len() && 0 <= j < ts.drop_last()[i].tags.len()
                        && ts.drop_last()[i].tags[j] == t;
                assert(ts[i].tags[j] == t);
                assert(carries_tag(ts, t));
            } else {
                let j = k - front.len();
                assert(back[j].0 == ts.last().tags[j]);
                assert(ts[ts.len() - 1].tags[j] == t);
                assert(carries_tag(ts, t));
            }
        }
        if carries_tag(ts, t) {
            let (i, j) = choose|i: int, j: int|
                0 <= i < ts.len() && 0 <= j < ts[i].tags.len() && ts[i].tags[j] == t;
            if i < ts.len() - 1 {
                assert(ts.drop_last()[i].tags[j] == t);
                assert(carries_tag(ts.drop_last(), t));
                let k = choose|k: int| 0 <= k < front.len() && front[k].0 == t;
                assert(all[k].0 == t);
                assert(pair_has_tag(all, t));
            } else {
                assert(back[j].0 == t);
                assert(all[front.len() + j].0 == t);
                assert(pair_has_tag(all, t));
            }
        }
    }
}

proof fn lemma_first_seen_tags(ps: Seq<(Seq<char>, Seq<char>)>)
    ensures
        first_seen_tags(ps).no_duplicates(),
        forall|t: Seq<char>| #[trigger] first_seen_tags(ps).contains(t) <==> pair_has_tag(ps, t),
    decreases ps.len(),
{
    if ps.len() == 0 {
        assert(forall|t: Seq<char>| !pair_has_tag(ps, t));
    } else {
        lemma_first_seen_tags(ps.drop_last());
        let rest = first_seen_tags(ps.drop_last());
        let all = first_seen_tags(ps);
        let lastt = ps.last().0;
        if !rest.contains(lastt) {
            assert(all == rest.push(lastt));
            assert forall|a: int, b: int|
                0 <= a < all.len() && 0 <= b < all.len() && a != b implies all[a] != all[b] by {
                if a < rest.len() && b < rest.len() {
                } else if a < rest.len() {
                    assert(rest.contains(rest[a]));
                } else {
                    assert(rest.contains(rest[b]));
                }
            }
        }
        assert forall|t: Seq<char>| #[trigger] all.contains(t) implies pair_has_tag(ps, t) by {
            if rest.contains(t) {
                let k = choose|k: int| 0 <= k < ps.drop_last().len() && ps.drop_last()[k].0 == t;
                assert(ps[k].0 == t);
            } else {
                let a = choose|a: int| 0 <= a < all.len() && all[a] == t;
                assert(t == lastt);
                assert(ps[ps.len() - 1].0 == t);
            }
        }
        assert forall|t: Seq<char>| pair_has_tag(ps, t) implies #[trigger] all.contains(t) by {
            let k = choose|k: int| 0 <= k < ps.len() && ps[k].0 == t;
            if k < ps.len() - 1 {
                assert(ps.drop_last()[k].0 == t);
                assert(pair_has_tag(ps.drop_last(), t));
                assert(rest.contains(t));
                let a = choose|a: int| 0 <= a < rest.len() && rest[a] == t;
                assert(all[a] == t);
            } else {
                if rest.contains(lastt) {
                    let a = choose|a: int| 0 <= a < rest.len() && rest[a] == lastt;
                    assert(all[a] == t);
                } else {
                    assert(all[all.len() - 1] == t);
                }
            }
        }
    }
}

/// The distinct-tag list of a configuration names each tag its targets
/// carry, once each, and nothing else.
pub proof fn lemma_distinct_tags(c: ConfigView)
    ensures
        distinct_tags(c).no_duplicates(),
        forall|t: Seq<char>| #[trigger] distinct_tags(c).contains(t) <==> carries_tag(
            c.target,
            t,
        ),
{
    lemma_first_seen_tags(config_pairs(c.target));
    assert forall|t: Seq<char>| #[trigger] distinct_tags(c).contains(t) <==> carries_tag(
        c.target,
        t,
    ) by {
        lemma_config_pairs_tags(c.target, t);
    }
}

proof fn lemma_groups_len(es: Seq<EndpointView>, ps: Seq<(Seq<char>, Seq<char>)>)
    ensures
        groups_of_endpoints(es, ps).len() == es.len() * first_seen_tags(ps).len(),
    decreases es.len(),
{
    if es.len() == 0 {
    } else {
        lemma_groups_len(es.drop_last(), ps);
        let k = first_seen_tags(ps).len();
        assert((es.len() - 1) * k + k == es.len() * k) by (nonlinear_arith);
    }
}

/// The expansion emits one group per endpoint and per distinct tag.
pub proof fn lemma_expand_len(c: ConfigView)
    ensures
        spec_expand(c).len() == c.endpoint.len() * distinct_tags(c).len(),
{
    lemma_groups_len(c.endpoint, config_pairs(c.target));
}

/// A configuration with no targets or no endpoints expands to nothing —
/// in particular, with no endpoints the target list is never consulted.
pub proof fn lemma_expand_trivial(c: ConfigView)
    requires
        c.target.len() == 0 || c.endpoint.len() == 0,
    ensures
        spec_expand(c) == Seq::<FileConfigView>::empty(),
{
    lemma_expand_len(c);
    if c.target.len() == 0 {
        assert(distinct_tags(c).len() == 0);
        assert(c.endpoint.len() * 0 == 0) by (nonlinear_arith);
    } else {
        assert(0 * distinct_tags(c).len() == 0) by (nonlinear_arith);
    }
    assert(spec_expand(c).len() == 0);
    assert(spec_expand(c) =~= Seq::<FileConfigView>::empty());
}

/// Group `i` of the expansion arises from endpoint `ei` and distinct tag
/// `tj`: its targets are that tag's URL bucket and its labels are the
/// reserved keys bound to that endpoint and tag.
pub open spec fn group_source(c: ConfigView, i: int, ei: int, tj: int) -> bool {
    &&& 0 <= ei < c.endpoint.len()
    &&& 0 <= tj < distinct_tags(c).len()
    &&& spec_expand(c)[i] == spec_group(c.endpoint[ei], distinct_tags(c)[tj], config_pairs(c.target))
}

proof fn lemma_groups_index(es: Seq<EndpointView>, ps: Seq<(Seq<char>, Seq<char>)>, i: int)
    requires
        0 <= i < groups_of_endpoints(es, ps).len(),
    ensures
        exists|ei: int, tj: int|
            0 <= ei < es.len() && 0 <= tj < first_seen_tags(ps).len()
                && #[trigger] groups_of_endpoints(es, ps)[i] == spec_group(
                es[ei],
                first_seen_tags(ps)[tj],
                ps,
            ),
    decreases es.len(),
{
    let front = groups_of_endpoints(es.drop_last(), ps);
    let back = endpoint_groups(es.last(), ps);
    if i < front.len() {
        lemma_groups_index(es.drop_last(), ps, i);
        let (ei, tj) = choose|ei: int, tj: int|
            0 <= ei < es.drop_last().len() && 0 <= tj < first_seen_tags(ps).len()
                && front[i] == spec_group(es.drop_last()[ei], first_seen_tags(ps)[tj], ps);
        assert(es.drop_last()[ei] == es[ei]);
        assert(groups_of_endpoints(es, ps)[i] == spec_group(es[ei], first_seen_tags(ps)[tj], ps));
    } else {
        let tj = i - front.len();
        assert(groups_of_endpoints(es, ps)[i] == back[tj]);
        assert(groups_of_endpoints(es, ps)[i] == spec_group(
            es[es.len() - 1],
            first_seen_tags(ps)[tj],
            ps,
        ));
    }
}

/// Every emitted group is the group of one endpoint and one distinct tag.
pub proof fn lemma_expand_sources(c: ConfigView, i: int)
    requires
        0 <= i < spec_expand(c).len(),
    ensures
        exists|ei: int, tj: int| #[trigger] group_source(c, i, ei, tj),
{
    lemma_groups_index(c.endpoint, config_pairs(c.target), i);
    let (ei, tj) = choose|ei: int, tj: int|
        0 <= ei < c.endpoint.len() && 0 <= tj < first_seen_tags(config_pairs(c.target)).len()
            && spec_expand(c)[i] == spec_group(
            c.endpoint[ei],
            first_seen_tags(config_pairs(c.target))[tj],
            config_pairs(c.target),
        );
    assert(group_source(c, i, ei, tj));
}

/// A group's labels hold exactly the four reserved keys, each bound
/// verbatim to the endpoint's address, name and geohash and to the tag.
pub proof fn lemma_group_labels_exact(e: EndpointView, tag: Seq<char>)
    ensures
        spec_group_labels(e, tag).len() == 4,
        spec_label_lookup(spec_group_labels(e, tag), spec_endpoint_url_key()) == Some(e.address),
        spec_label_lookup(spec_group_labels(e, tag), spec_endpoint_name_key()) == Some(e.name),
        spec_label_lookup(spec_group_labels(e, tag), spec_endpoint_geohash_key()) == Some(
            e.geohash,
        ),
        spec_label_lookup(spec_group_labels(e, tag), spec_tag_key()) == Some(tag),
        forall|k: Seq<char>|
            (#[trigger] spec_label_lookup(spec_group_labels(e, tag), k)) is Some <==> (k
                == spec_endpoint_url_key() || k == spec_endpoint_name_key() || k
                == spec_endpoint_geohash_key() || k == spec_tag_key()),
{
    reveal_strlit("__endpoint__url");
    reveal_strlit("__endpoint__name");
    reveal_strlit("__endpoint__geohash");
    reveal_strlit("__tag");
    assert(spec_endpoint_url_key().len() == 15);
    assert(spec_endpoint_name_key().len() == 16);
    assert(spec_endpoint_geohash_key().len() == 19);
    assert(spec_tag_key().len() == 5);
    let ls = spec_group_labels(e, tag);
    let l1 = seq![
        (spec_endpoint_name_key(), e.name),
        (spec_endpoint_geohash_key(), e.geohash),
        (spec_tag_key(), tag),
    ];
    let l2 = seq![(spec_endpoint_geohash_key(), e.geohash), (spec_tag_key(), tag)];
    let l3 = seq![(spec_tag_key(), tag)];
    let l4 = Seq::<(Seq<char>, Seq<char>)>::empty();
    assert(ls.drop_first() =~= l1);
    assert(l1.drop_first() =~= l2);
    assert(l2.drop_first() =~= l3);
    assert(l3.drop_first() =~= l4);
    assert forall|k: Seq<char>| true implies #[trigger] spec_label_lookup(ls, k) == (if k
        == spec_endpoint_url_key() {
        Some(e.address)
    } else if k == spec_endpoint_name_key() {
        Some(e.name)
    } else if k == spec_endpoint_geohash_key() {
        Some(e.geohash)
    } else if k == spec_tag_key() {
        Some(tag)
    } else {
        None
    }) by {
        assert(spec_label_lookup(l3, k) == if k == spec_tag_key() {
            Some(tag)
        } else {
            spec_label_lookup(l4, k)
        });
        assert(spec_label_lookup(l2, k) == if k == spec_endpoint_geohash_key() {
            Some(e.geohash)
        } else {
            spec_label_lookup(l3, k)
        });
        assert(spec_label_lookup(l1, k) == if k == spec_endpoint_name_key() {
            Some(e.name)
        } else {
            spec_label_lookup(l2, k)
        });
        assert(spec_label_lookup(ls, k) == if k == spec_endpoint_url_key() {
            Some(e.address)
        } else {
            spec_label_lookup(l1, k)
        });
    }
}

/// How often a tag occurs in a tag sequence.
pub open spec fn tag_count(tags: Seq<Seq<char>>, tag: Seq<char>) -> nat
    decreases tags.len(),
{
    if tags.len() == 0 {
        0
    } else {
        tag_count(tags.drop_last(), tag) + if tags.last() == tag {
            1nat
        } else {
            0nat
        }
    }
}

proof fn lemma_bucket_repeat(tags: Seq<Seq<char>>, url: Seq<char>, tag: Seq<char>)
    ensures
        tag_bucket(Seq::new(tags.len(), |i: int| (tags[i], url)), tag) == Seq::new(
            tag_count(tags, tag),
            |i: int| url,
        ),
    decreases tags.len(),
{
    let ps = Seq::new(tags.len(), |i: int| (tags[i], url));
    let reps = Seq::new(tag_count(tags, tag), |i: int| url);
    if tags.len() == 0 {
        assert(ps =~= Seq::<(Seq<char>, Seq<char>)>::empty());
        assert(reps =~= Seq::<Seq<char>>::empty());
    } else {
        lemma_bucket_repeat(tags.drop_last(), url, tag);
        let frontt = tags.drop_last();
        let frontp = Seq::new(frontt.len(), |i: int| (frontt[i], url));
        let frontr = Seq::new(tag_count(frontt, tag), |i: int| url);
        assert(ps.drop_last() =~= frontp);
        assert(ps.last() == (tags.last(), url));
        if tags.last() == tag {
            assert(reps =~= frontr + seq![url]);
        } else {
            assert(reps =~= frontr + Seq::<Seq<char>>::empty());
        }
    }
}

/// One target's contribution to a tag's bucket is its URL once per
/// occurrence of the tag in its tag sequence, duplicates included.
pub proof fn lemma_target_bucket(t: TargetView, tag: Seq<char>)
    ensures
        tag_bucket(target_pairs(t), tag) == Seq::new(tag_count(t.tags, tag), |i: int| t.url),
{
    lemma_bucket_repeat(t.tags, t.url, tag);
    assert(target_pairs(t) =~= Seq::new(t.tags.len(), |i: int| (t.tags[i], t.url)));
    assert(Seq::new(tag_count(t.tags, tag), |i: int| t.url) =~= tag_bucket(
        target_pairs(t),
        tag,
    ));
}

} // verus!

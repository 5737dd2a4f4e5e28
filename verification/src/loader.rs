//! The configuration loader: reads a [`Config`] out of configuration text.
//!
//! The schema is a mapping with a `target` sequence and an `endpoint`
//! sequence. A target carries the required string fields `module` and `url`
//! and an optional `tags` sequence of strings, which defaults to
//! `["default"]` when absent — and only then: an explicitly empty sequence
//! is preserved. An endpoint carries the required string fields `address`,
//! `geohash` and `name`. Anything else is rejected as a parse error.

use vstd::prelude::*;

use crate::config::{Args, Config, ConfigView, Endpoint, EndpointView, Target, TargetView};
use crate::yaml::{parse_yaml_text, yaml_doc, Yaml};

verus! {

/// Why loading a configuration failed.
#[derive(Debug)]
pub enum LoadError {
    /// The configuration file could not be opened or read.
    Io(String),
    /// The configuration text does not conform to the expected document
    /// schema, or is not well-formed YAML.
    Parse(String),
}

impl LoadError {
    /// The human-readable diagnostic.
    pub fn message(&self) -> (m: &String)
        ensures
            self matches LoadError::Io(s) ==> m@ == s@,
            self matches LoadError::Parse(s) ==> m@ == s@,
    {
        match self {
            LoadError::Io(m) => m,
            LoadError::Parse(m) => m,
        }
    }
}

/// The value under the string key `key` in a document mapping: the first
/// entry whose key is that string, if any.
pub open spec fn map_lookup(entries: Seq<(Yaml, Yaml)>, key: Seq<char>) -> Option<Yaml>
    decreases entries.len(),
{
    if entries.len() == 0 {
        None
    } else if entries[0].0 matches Yaml::Str(s) && s@ == key {
        Some(entries[0].1)
    } else {
        map_lookup(entries.drop_first(), key)
    }
}

/// The tag sequence of a target that names none: the single tag
/// `"default"`.
pub open spec fn spec_default_tags() -> Seq<Seq<char>> {
    seq!["default"@]
}

/// The strings a document sequence holds, if every item is a string.
pub open spec fn parse_string_items(items: Seq<Yaml>) -> Option<Seq<Seq<char>>>
    decreases items.len(),
{
    if items.len() == 0 {
        Some(Seq::empty())
    } else {
        match (parse_string_items(items.drop_last()), items.last()) {
            (Some(rest), Yaml::Str(s)) => Some(rest.push(s@)),
            _ => None,
        }
    }
}

/// The target a document node describes: a mapping with required string
/// fields `module` and `url`, and an optional `tags` sequence of strings
/// that defaults to `["default"]` when the entry is absent.
pub open spec fn parse_target(y: Yaml) -> Option<TargetView> {
    match y {
        Yaml::Mapping(entries) => match (
            map_lookup(entries@, "module"@),
            map_lookup(entries@, "url"@),
        ) {
            (Some(Yaml::Str(m)), Some(Yaml::Str(u))) => match map_lookup(entries@, "tags"@) {
                None => Some(TargetView { module: m@, url: u@, tags: spec_default_tags() }),
                Some(Yaml::Sequence(items)) => match parse_string_items(items@) {
                    Some(tags) => Some(TargetView { module: m@, url: u@, tags }),
                    None => None,
                },
                Some(_) => None,
            },
            _ => None,
        },
        _ => None,
    }
}

/// The endpoint a document node describes: a mapping with required string
/// fields `address`, `geohash` and `name`.
pub open spec fn parse_endpoint(y: Yaml) -> Option<EndpointView> {
    match y {
        Yaml::Mapping(entries) => match (
            map_lookup(entries@, "address"@),
            map_lookup(entries@, "geohash"@),
            map_lookup(entries@, "name"@),
        ) {
            (Some(Yaml::Str(a)), Some(Yaml::Str(g)), Some(Yaml::Str(n))) => Some(
                EndpointView { address: a@, geohash: g@, name: n@ },
            ),
            _ => None,
        },
        _ => None,
    }
}

/// The targets a document sequence describes, if every item conforms.
pub open spec fn parse_targets(items: Seq<Yaml>) -> Option<Seq<TargetView>>
    decreases items.len(),
{
    if items.len() == 0 {
        Some(Seq::empty())
    } else {
        match (parse_targets(items.drop_last()), parse_target(items.last())) {
            (Some(rest), Some(t)) => Some(rest.push(t)),
            _ => None,
        }
    }
}

/// The endpoints a document sequence describes, if every item conforms.
pub open spec fn parse_endpoints(items: Seq<Yaml>) -> Option<Seq<EndpointView>>
    decreases items.len(),
{
    if items.len() == 0 {
        Some(Seq::empty())
    } else {
        match (parse_endpoints(items.drop_last()), parse_endpoint(items.last())) {
            (Some(rest), Some(e)) => Some(rest.push(e)),
            _ => None,
        }
    }
}

/// The configuration a document describes: a mapping whose `target` and
/// `endpoint` entries are sequences of conforming items.
pub open spec fn parse_config(y: Yaml) -> Option<ConfigView> {
    match y {
        Yaml::Mapping(entries) => match (
            map_lookup(entries@, "target"@),
            map_lookup(entries@, "endpoint"@),
        ) {
            (Some(Yaml::Sequence(ts)), Some(Yaml::Sequence(es))) => match (
                parse_targets(ts@),
                parse_endpoints(es@),
            ) {
                (Some(t), Some(e)) => Some(ConfigView { target: t, endpoint: e }),
                _ => None,
            },
            _ => None,
        },
        _ => None,
    }
}

/// Relies on `str`'s `PartialEq`: two string slices are equal exactly when
/// their character sequences are.
#[verifier::external_body]
fn str_eq(a: &str, b: &str) -> (r: bool)
    ensures
        r == (a@ == b@),
{
    a == b
}

/// Scans a document mapping for the first entry under the string key
/// `key`.
fn yaml_map_get<'a>(entries: &'a Vec<(Yaml, Yaml)>, key: &str) -> (r: Option<&'a Yaml>)
    ensures
        match r {
            Some(v) => map_lookup(entries@, key@) == Some(*v),
            None => map_lookup(entries@, key@) is None,
        },
{
    let ghost es = entries@;
    let mut i: usize = 0;
    proof {
        assert(es.skip(0) =~= es);
    }
    while i < entries.len()
        invariant
            i <= entries.len(),
            es == entries@,
            map_lookup(es, key@) == map_lookup(es.skip(i as int), key@),
        decreases entries.len() - i,
    {
        proof {
            assert(es.skip(i as int)[0] == es[i as int]);
            assert(es.skip(i as int).drop_first() =~= es.skip(i as int + 1));
        }
        match &entries[i].0 {
            Yaml::Str(s) => {
                if str_eq(s.as_str(), key) {
                    return Some(&entries[i].1);
                }
            },
            _ => {},
        }
        i = i + 1;
    }
    proof {
        assert(es.skip(i as int) =~= Seq::<(Yaml, Yaml)>::empty());
    }
    None
}

/// The tags of a target that names none: the single tag `"default"`.
pub fn default_tags() -> (r: Vec<String>)
    ensures
        r.deep_view() == spec_default_tags(),
{
    let mut v: Vec<String> = Vec::new();
    v.push("default".to_owned());
    proof {
        assert(v.deep_view() =~= spec_default_tags());
    }
    v
}

/// A sequence with a non-conforming item describes no string list.
proof fn lemma_parse_string_items_bad(items: Seq<Yaml>, k: int)
    requires
        0 <= k < items.len(),
        !(items[k] matches Yaml::Str(_)),
    ensures
        parse_string_items(items) is None,
    decreases items.len(),
{
    if k == items.len() - 1 {
        assert(items.last() == items[k]);
    } else {
        assert(items.drop_last()[k] == items[k]);
        lemma_parse_string_items_bad(items.drop_last(), k);
    }
}

/// Collects the strings of a document sequence, if every item is one.
fn string_items(items: &Vec<Yaml>) -> (r: Option<Vec<String>>)
    ensures
        match r {
            Some(v) => parse_string_items(items@) == Some(v.deep_view()),
            None => parse_string_items(items@) is None,
        },
{
    let mut out: Vec<String> = Vec::new();
    let mut i: usize = 0;
    proof {
        assert(items@.take(0) =~= Seq::<Yaml>::empty());
    }
    while i < items.len()
        invariant
            i <= items.len(),
            parse_string_items(items@.take(i as int)) == Some(out.deep_view()),
        decreases items.len() - i,
    {
        proof {
            assert(items@.take(i as int + 1).drop_last() =~= items@.take(i as int));
            assert(items@.take(i as int + 1).last() == items@[i as int]);
        }
        match &items[i] {
            Yaml::Str(s) => {
                let ghost prev = out.deep_view();
                out.push(s.clone());
                proof {
                    assert(out.deep_view() =~= prev.push(s@));
                }
            },
            _ => {
                proof {
                    lemma_parse_string_items_bad(items@, i as int);
                }
                return None;
            },
        }
        i = i + 1;
    }
    proof {
        assert(items@.take(items@.len() as int) =~= items@);
    }
    Some(out)
}

/// Reads one target out of a document node.
fn target_from_yaml(y: &Yaml) -> (r: Option<Target>)
    ensures
        match r {
            Some(t) => parse_target(*y) == Some(t.deep_view()),
            None => parse_target(*y) is None,
        },
{
    let entries = match y {
        Yaml::Mapping(entries) => entries,
        _ => {
            return None;
        },
    };
    let module: String = match yaml_map_get(entries, "module") {
        Some(Yaml::Str(m)) => m.clone(),
        _ => {
            return None;
        },
    };
    let url: String = match yaml_map_get(entries, "url") {
        Some(Yaml::Str(u)) => u.clone(),
        _ => {
            return None;
        },
    };
    let tags: Vec<String> = match yaml_map_get(entries, "tags") {
        None => default_tags(),
        Some(Yaml::Sequence(items)) => match string_items(items) {
            Some(v) => v,
            None => {
                return None;
            },
        },
        Some(_) => {
            return None;
        },
    };
    Some(Target { module, url, tags })
}

/// Reads one endpoint out of a document node.
fn endpoint_from_yaml(y: &Yaml) -> (r: Option<Endpoint>)
    ensures
        match r {
            Some(e) => parse_endpoint(*y) == Some(e.deep_view()),
            None => parse_endpoint(*y) is None,
        },
{
    let entries = match y {
        Yaml::Mapping(entries) => entries,
        _ => {
            return None;
        },
    };
    let address: String = match yaml_map_get(entries, "address") {
        Some(Yaml::Str(a)) => a.clone(),
        _ => {
            return None;
        },
    };
    let geohash: String = match yaml_map_get(entries, "geohash") {
        Some(Yaml::Str(g)) => g.clone(),
        _ => {
            return None;
        },
    };
    let name: String = match yaml_map_get(entries, "name") {
        Some(Yaml::Str(n)) => n.clone(),
        _ => {
            return None;
        },
    };
    Some(Endpoint { address, geohash, name })
}

/// A sequence with a non-conforming item describes no target list.
proof fn lemma_parse_targets_bad(items: Seq<Yaml>, k: int)
    requires
        0 <= k < items.len(),
        parse_target(items[k]) is None,
    ensures
        parse_targets(items) is None,
    decreases items.len(),
{
    if k == items.len() - 1 {
        assert(items.last() == items[k]);
    } else {
        assert(items.drop_last()[k] == items[k]);
        lemma_parse_targets_bad(items.drop_last(), k);
    }
}

/// A sequence with a non-conforming item describes no endpoint list.
proof fn lemma_parse_endpoints_bad(items: Seq<Yaml>, k: int)
    requires
        0 <= k < items.len(),
        parse_endpoint(items[k]) is None,
    ensures
        parse_endpoints(items) is None,
    decreases items.len(),
{
    if k == items.len() - 1 {
        assert(items.last() == items[k]);
    } else {
        assert(items.drop_last()[k] == items[k]);
        lemma_parse_endpoints_bad(items.drop_last(), k);
    }
}

/// Collects the targets of a document sequence, if every item conforms.
fn targets_from_yaml(items: &Vec<Yaml>) -> (r: Option<Vec<Target>>)
    ensures
        match r {
            Some(v) => parse_targets(items@) == Some(v.deep_view()),
            None => parse_targets(items@) is None,
        },
{
    let mut out: Vec<Target> = Vec::new();
    let mut i: usize = 0;
    proof {
        assert(items@.take(0) =~= Seq::<Yaml>::empty());
    }
    while i < items.len()
        invariant
            i <= items.len(),
            parse_targets(items@.take(i as int)) == Some(out.deep_view()),
        decreases items.len() - i,
    {
        proof {
            assert(items@.take(i as int + 1).drop_last() =~= items@.take(i as int));
            assert(items@.take(i as int + 1).last() == items@[i as int]);
        }
        match target_from_yaml(&items[i]) {
            Some(t) => {
                let ghost prev = out.deep_view();
                let ghost tv = t.deep_view();
                out.push(t);
                proof {
                    assert(out.deep_view() =~= prev.push(tv));
                }
            },
            None => {
                proof {
                    lemma_parse_targets_bad(items@, i as int);
                }
                return None;
            },
        }
        i = i + 1;
    }
    proof {
        assert(items@.take(items@.len() as int) =~= items@);
    }
    Some(out)
}

/// Collects the endpoints of a document sequence, if every item conforms.
fn endpoints_from_yaml(items: &Vec<Yaml>) -> (r: Option<Vec<Endpoint>>)
    ensures
        match r {
            Some(v) => parse_endpoints(items@) == Some(v.deep_view()),
            None => parse_endpoints(items@) is None,
        },
{
    let mut out: Vec<Endpoint> = Vec::new();
    let mut i: usize = 0;
    proof {
        assert(items@.take(0) =~= Seq::<Yaml>::empty());
    }
    while i < items.len()
        invariant
            i <= items.len(),
            parse_endpoints(items@.take(i as int)) == Some(out.deep_view()),
        decreases items.len() - i,
    {
        proof {
            assert(items@.take(i as int + 1).drop_last() =~= items@.take(i as int));
            assert(items@.take(i as int + 1).last() == items@[i as int]);
        }
        match endpoint_from_yaml(&items[i]) {
            Some(e) => {
                let ghost prev = out.deep_view();
                let ghost ev = e.deep_view();
                out.push(e);
                proof {
                    assert(out.deep_view() =~= prev.push(ev));
                }
            },
            None => {
                proof {
                    lemma_parse_endpoints_bad(items@, i as int);
                }
                return None;
            },
        }
        i = i + 1;
    }
    proof {
        assert(items@.take(items@.len() as int) =~= items@);
    }
    Some(out)
}

/// A parse failure with the given diagnostic.
fn parse_error(msg: &str) -> (e: LoadError)
    ensures
        e matches LoadError::Parse(m) && m@ == msg@,
{
    LoadError::Parse(msg.to_owned())
}

/// Reads a configuration out of a parsed document, checking the schema
/// and applying the tag default.
pub fn config_from_yaml(y: &Yaml) -> (r: Result<Config, LoadError>)
    ensures
        match parse_config(*y) {
            Some(c) => r matches Ok(cfg) && cfg.deep_view() == c,
            None => r matches Err(e) && e is Parse,
        },
{
    let entries = match y {
        Yaml::Mapping(entries) => entries,
        _ => {
            return Err(parse_error("the configuration document is not a mapping"));
        },
    };
    let target: Vec<Target> = match yaml_map_get(entries, "target") {
        Some(Yaml::Sequence(items)) => match targets_from_yaml(items) {
            Some(v) => v,
            None => {
                return Err(parse_error("a target is malformed"));
            },
        },
        _ => {
            return Err(parse_error("the `target` list is missing or malformed"));
        },
    };
    let endpoint: Vec<Endpoint> = match yaml_map_get(entries, "endpoint") {
        Some(Yaml::Sequence(items)) => match endpoints_from_yaml(items) {
            Some(v) => v,
            None => {
                return Err(parse_error("an endpoint is malformed"));
            },
        },
        _ => {
            return Err(parse_error("the `endpoint` list is missing or malformed"));
        },
    };
    Ok(Config { target, endpoint })
}

/// Turns the outcome of reading the configuration file into a loaded
/// configuration: a failed read becomes `LoadError::Io` with the reader's
/// diagnostic; text that is not well-formed YAML, or whose document does
/// not conform to the schema, becomes `LoadError::Parse`; and a conforming
/// document becomes exactly the configuration it describes.
pub fn load(read: Result<String, String>) -> (r: Result<Config, LoadError>)
    ensures
        read matches Err(m) ==> r matches Err(LoadError::Io(d)) && d@ == m@,
        read matches Ok(s) ==> match yaml_doc(s@) {
            Some(y) => match parse_config(y) {
                Some(c) => r matches Ok(cfg) && cfg.deep_view() == c,
                None => r matches Err(e) && e is Parse,
            },
            None => r matches Err(e) && e is Parse,
        },
{
    match read {
        Err(m) => Err(LoadError::Io(m)),
        Ok(s) => match parse_yaml_text(s.as_str()) {
            Ok(y) => config_from_yaml(&y),
            Err(msg) => Err(LoadError::Parse(msg)),
        },
    }
}

proof fn lemma_map_lookup_push(entries: Seq<(Yaml, Yaml)>, entry: (Yaml, Yaml), key: Seq<char>)
    ensures
        map_lookup(entries.push(entry), key) == if map_lookup(entries, key) is Some {
            map_lookup(entries, key)
        } else if entry.0 matches Yaml::Str(s) && s@ == key {
            Some(entry.1)
        } else {
            None
        },
    decreases entries.len(),
{
    let pushed = entries.push(entry);
    if entries.len() == 0 {
        assert(pushed[0] == entry);
        assert(pushed.drop_first() =~= Seq::<(Yaml, Yaml)>::empty());
        assert(map_lookup(entries, key) is None);
        assert(map_lookup(pushed.drop_first(), key) is None);
        if entry.0 matches Yaml::Str(s) && s@ == key {
            assert(map_lookup(pushed, key) == Some(entry.1));
        } else {
            assert(map_lookup(pushed, key) == map_lookup(pushed.drop_first(), key));
        }
    } else {
        assert(pushed[0] == entries[0]);
        assert(pushed.drop_first() =~= entries.drop_first().push(entry));
        lemma_map_lookup_push(entries.drop_first(), entry, key);
        if entries[0].0 matches Yaml::Str(s) && s@ == key {
            assert(map_lookup(entries, key) == Some(entries[0].1));
            assert(map_lookup(pushed, key) == Some(entries[0].1));
        } else {
            assert(map_lookup(entries, key) == map_lookup(entries.drop_first(), key));
            assert(map_lookup(pushed, key) == map_lookup(entries.drop_first().push(entry), key));
        }
    }
}

/// Defaulting is invisible at the document level: a target mapping with
/// no `tags` entry is read exactly as the same mapping extended with
/// `tags: ["default"]`.
pub proof fn lemma_tags_default(
    plain: Vec<(Yaml, Yaml)>,
    tagged: Vec<(Yaml, Yaml)>,
    key: String,
    item: String,
    items: Vec<Yaml>,
)
    requires
        map_lookup(plain@, "tags"@) is None,
        key@ == "tags"@,
        item@ == "default"@,
        items@ == seq![Yaml::Str(item)],
        tagged@ == plain@.push((Yaml::Str(key), Yaml::Sequence(items))),
    ensures
        parse_target(Yaml::Mapping(tagged)) == parse_target(Yaml::Mapping(plain)),
{
    let entry = (Yaml::Str(key), Yaml::Sequence(items));
    reveal_strlit("module");
    reveal_strlit("url");
    reveal_strlit("tags");
    assert("module"@.len() == 6);
    assert("url"@.len() == 3);
    assert("tags"@.len() == 4);
    lemma_map_lookup_push(plain@, entry, "module"@);
    lemma_map_lookup_push(plain@, entry, "url"@);
    lemma_map_lookup_push(plain@, entry, "tags"@);
    assert(map_lookup(tagged@, "tags"@) == Some(Yaml::Sequence(items)));
    assert(items@.drop_last() =~= Seq::<Yaml>::empty());
    assert(items@.last() == Yaml::Str(item));
    assert(parse_string_items(Seq::<Yaml>::empty()) == Some(Seq::<Seq<char>>::empty()));
    assert(parse_string_items(items@) == Some(Seq::<Seq<char>>::empty().push(item@)));
    assert(Seq::<Seq<char>>::empty().push(item@) =~= spec_default_tags());
}

impl Args {
    /// Loads the configuration from the outcome of reading the file at
    /// [`Args::config_path`]; performing the read is the caller's concern,
    /// and a failed read is reported as `LoadError::Io`.
    pub fn load_config(&self, read: Result<String, String>) -> (r: Result<Config, LoadError>)
        ensures
            read matches Err(m) ==> r matches Err(LoadError::Io(d)) && d@ == m@,
            read matches Ok(s) ==> match yaml_doc(s@) {
                Some(y) => match parse_config(y) {
                    Some(c) => r matches Ok(cfg) && cfg.deep_view() == c,
                    None => r matches Err(e) && e is Parse,
                },
                None => r matches Err(e) && e is Parse,
            },
    {
        load(read)
    }
}

} // verus!

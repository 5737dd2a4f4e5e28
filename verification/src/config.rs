//! The configuration data model: targets, endpoints and their aggregate.

use vstd::prelude::*;
use vstd::string::StringExecFns;

verus! {

/// Mathematical model of a [`Target`].
pub ghost struct TargetView {
    pub module: Seq<char>,
    pub url: Seq<char>,
    pub tags: Seq<Seq<char>>,
}

/// Mathematical model of an [`Endpoint`].
pub ghost struct EndpointView {
    pub address: Seq<char>,
    pub geohash: Seq<char>,
    pub name: Seq<char>,
}

/// Mathematical model of a [`Config`].
pub ghost struct ConfigView {
    pub target: Seq<TargetView>,
    pub endpoint: Seq<EndpointView>,
}

/// One probe unit: the probing module to use, the URL to probe, and the
/// tags under which the URL is grouped.
#[derive(Debug, Clone)]
pub struct Target {
    pub module: String,
    pub url: String,
    pub tags: Vec<String>,
}

/// One probing agent: its network address, the geohash of its location,
/// and a human-readable name.
#[derive(Debug, Clone)]
pub struct Endpoint {
    pub address: String,
    pub geohash: String,
    pub name: String,
}

/// The root aggregate: the ordered target list and the ordered endpoint
/// list. Immutable once loaded.
#[derive(Debug, Clone)]
pub struct Config {
    pub target: Vec<Target>,
    pub endpoint: Vec<Endpoint>,
}

impl View for Target {
    type V = TargetView;

    open spec fn view(&self) -> TargetView {
        TargetView { module: self.module@, url: self.url@, tags: self.tags.deep_view() }
    }
}

impl DeepView for Target {
    type V = TargetView;

    open spec fn deep_view(&self) -> TargetView {
        self.view()
    }
}

impl View for Endpoint {
    type V = EndpointView;

    open spec fn view(&self) -> EndpointView {
        EndpointView { address: self.address@, geohash: self.geohash@, name: self.name@ }
    }
}

impl DeepView for Endpoint {
    type V = EndpointView;

    open spec fn deep_view(&self) -> EndpointView {
        self.view()
    }
}

impl View for Config {
    type V = ConfigView;

    open spec fn view(&self) -> ConfigView {
        ConfigView { target: self.target.deep_view(), endpoint: self.endpoint.deep_view() }
    }
}

impl DeepView for Config {
    type V = ConfigView;

    open spec fn deep_view(&self) -> ConfigView {
        self.view()
    }
}

/// The process arguments: the path of the configuration file.
#[derive(Debug, Clone)]
pub struct Args {
    config: String,
}

impl View for Args {
    type V = Seq<char>;

    closed spec fn view(&self) -> Seq<char> {
        self.config@
    }
}

impl Args {
    /// Arguments naming the configuration file at `config`.
    pub fn new(config: String) -> (a: Args)
        ensures
            a@ == config@,
    {
        Args { config }
    }

    /// The path of the configuration file.
    pub fn config_path(&self) -> (p: &String)
        ensures
            p@ == self@,
    {
        &self.config
    }
}

/// A tag list joined with commas.
pub open spec fn spec_join_tags(tags: Seq<Seq<char>>) -> Seq<char>
    decreases tags.len(),
{
    if tags.len() == 0 {
        Seq::empty()
    } else if tags.len() == 1 {
        tags[0]
    } else {
        spec_join_tags(tags.drop_last()) + ", "@ + tags.last()
    }
}

/// The description line of one target.
pub open spec fn spec_describe_target(t: TargetView) -> Seq<char> {
    "  Module: "@ + t.module + ", URL: "@ + t.url + ", Tags: "@ + spec_join_tags(t.tags) + "\n"@
}

/// The description line of one endpoint.
pub open spec fn spec_describe_endpoint(e: EndpointView) -> Seq<char> {
    "  Name: "@ + e.name + ", Address: "@ + e.address + ", Geohash: "@ + e.geohash + "\n"@
}

/// The description lines of a target list, in order.
pub open spec fn spec_describe_targets(ts: Seq<TargetView>) -> Seq<char>
    decreases ts.len(),
{
    if ts.len() == 0 {
        Seq::empty()
    } else {
        spec_describe_targets(ts.drop_last()) + spec_describe_target(ts.last())
    }
}

/// The description lines of an endpoint list, in order.
pub open spec fn spec_describe_endpoints(es: Seq<EndpointView>) -> Seq<char>
    decreases es.len(),
{
    if es.len() == 0 {
        Seq::empty()
    } else {
        spec_describe_endpoints(es.drop_last()) + spec_describe_endpoint(es.last())
    }
}

/// The full description of a configuration: a `Targets:` section and an
/// `Endpoints:` section, one line per entry.
pub open spec fn spec_describe(c: ConfigView) -> Seq<char> {
    "Targets:\n"@ + spec_describe_targets(c.target) + "Endpoints:\n"@ + spec_describe_endpoints(
        c.endpoint,
    )
}

/// Joins a tag list with commas.
fn join_tags(tags: &Vec<String>) -> (r: String)
    ensures
        r@ == spec_join_tags(tags.deep_view()),
{
    let ghost tv = tags.deep_view();
    let mut s = String::new();
    let mut j: usize = 0;
    proof {
        assert(tv.take(0) =~= Seq::<Seq<char>>::empty());
        assert(s@ =~= spec_join_tags(tv.take(0)));
    }
    while j < tags.len()
        invariant
            j <= tags.len(),
            tv == tags.deep_view(),
            s@ == spec_join_tags(tv.take(j as int)),
        decreases tags.len() - j,
    {
        if j > 0 {
            s.append(", ");
        }
        s.append(tags[j].as_str());
        proof {
            assert(tv[j as int] == tags@[j as int]@);
            assert(tv.take(j as int + 1).drop_last() =~= tv.take(j as int));
            assert(tv.take(j as int + 1).last() == tv[j as int]);
            if j == 0 {
                assert(s@ =~= spec_join_tags(tv.take(1)));
            } else {
                assert(s@ =~= spec_join_tags(tv.take(j as int + 1)));
            }
        }
        j = j + 1;
    }
    proof {
        assert(tv.take(tags@.len() as int) =~= tv);
    }
    s
}

/// Writes the description line of one target.
fn describe_target(t: &Target) -> (r: String)
    ensures
        r@ == spec_describe_target(t@),
{
    let mut s = String::from_str("  Module: ");
    s.append(t.module.as_str());
    s.append(", URL: ");
    s.append(t.url.as_str());
    s.append(", Tags: ");
    let tags = join_tags(&t.tags);
    s.append(tags.as_str());
    s.append("\n");
    s
}

/// Writes the description line of one endpoint.
fn describe_endpoint(e: &Endpoint) -> (r: String)
    ensures
        r@ == spec_describe_endpoint(e@),
{
    let mut s = String::from_str("  Name: ");
    s.append(e.name.as_str());
    s.append(", Address: ");
    s.append(e.address.as_str());
    s.append(", Geohash: ");
    s.append(e.geohash.as_str());
    s.append("\n");
    s
}

impl Config {
    /// A human-readable description of the configuration: a `Targets:`
    /// section and an `Endpoints:` section, one line per entry.
    pub fn describe(&self) -> (r: String)
        ensures
            r@ == spec_describe(self@),
    {
        let ghost cv = self@;
        let mut s = String::from_str("Targets:\n");
        let mut i: usize = 0;
        proof {
            assert(cv.target.take(0) =~= Seq::<TargetView>::empty());
            assert(s@ =~= "Targets:\n"@ + spec_describe_targets(cv.target.take(0)));
        }
        while i < self.target.len()
            invariant
                i <= self.target.len(),
                cv == self@,
                s@ == "Targets:\n"@ + spec_describe_targets(cv.target.take(i as int)),
            decreases self.target.len() - i,
        {
            let line = describe_target(&self.target[i]);
            s.append(line.as_str());
            proof {
                assert(cv.target[i as int] == self.target@[i as int]@);
                assert(cv.target.take(i as int + 1).drop_last() =~= cv.target.take(i as int));
                assert(cv.target.take(i as int + 1).last() == cv.target[i as int]);
                assert(s@ =~= "Targets:\n"@ + spec_describe_targets(cv.target.take(i as int + 1)));
            }
            i = i + 1;
        }
        proof {
            assert(cv.target.take(self.target@.len() as int) =~= cv.target);
        }
        s.append("Endpoints:\n");
        let ghost prefix = "Targets:\n"@ + spec_describe_targets(cv.target) + "Endpoints:\n"@;
        let mut k: usize = 0;
        proof {
            assert(cv.endpoint.take(0) =~= Seq::<EndpointView>::empty());
            assert(s@ =~= prefix + spec_describe_endpoints(cv.endpoint.take(0)));
        }
        while k < self.endpoint.len()
            invariant
                k <= self.endpoint.len(),
                cv == self@,
                prefix == "Targets:\n"@ + spec_describe_targets(cv.target) + "Endpoints:\n"@,
                s@ == prefix + spec_describe_endpoints(cv.endpoint.take(k as int)),
            decreases self.endpoint.len() - k,
        {
            let line = describe_endpoint(&self.endpoint[k]);
            s.append(line.as_str());
            proof {
                assert(cv.endpoint[k as int] == self.endpoint@[k as int]@);
                assert(cv.endpoint.take(k as int + 1).drop_last() =~= cv.endpoint.take(k as int));
                assert(cv.endpoint.take(k as int + 1).last() == cv.endpoint[k as int]);
                assert(s@ =~= prefix + spec_describe_endpoints(cv.endpoint.take(k as int + 1)));
            }
            k = k + 1;
        }
        proof {
            assert(cv.endpoint.take(self.endpoint@.len() as int) =~= cv.endpoint);
            assert(s@ =~= spec_describe(cv));
        }
        s
    }
}

} // verus!

//! Data-source resolution: an agent declares the named sources it needs,
//! and the aggregator materializes them from the current run state into a
//! bundle. A missing required source blocks the agent; a missing optional
//! source is silently omitted.

use vstd::prelude::*;
use vstd::string::*;

use crate::scan::csq;

verus! {

/// A producible named artifact an agent may require or optionally use.
#[derive(Clone, Copy, PartialEq, Eq, Structural, Debug)]
pub enum DataSource {
    ProjectStructure,
    CodeInsights,
    ReadmeContent,
    ConfluencePages,
}

/// The display label of a data source.
pub open spec fn label_of(s: DataSource) -> Seq<char> {
    match s {
        DataSource::ProjectStructure => csq("PROJECT_STRUCTURE"),
        DataSource::CodeInsights => csq("CODE_INSIGHTS"),
        DataSource::ReadmeContent => csq("README_CONTENT"),
        DataSource::ConfluencePages => csq("CONFLUENCE_PAGES"),
    }
}

/// The display label of a data source, executable form.
pub fn source_label(s: DataSource) -> (r: &'static str)
    ensures
        r@ == label_of(s),
{
    match s {
        DataSource::ProjectStructure => "PROJECT_STRUCTURE",
        DataSource::CodeInsights => "CODE_INSIGHTS",
        DataSource::ReadmeContent => "README_CONTENT",
        DataSource::ConfluencePages => "CONFLUENCE_PAGES",
    }
}

/// An agent's input contract: the sources it cannot run without, and the
/// sources it can use when they happen to be available.
pub struct AgentDataConfig {
    pub required_sources: Vec<DataSource>,
    pub optional_sources: Vec<DataSource>,
}

/// What the current run can produce, one slot per source. A `None` slot is
/// an unresolvable source.
pub struct SourceStore {
    pub project_structure: Option<String>,
    pub code_insights: Option<String>,
    pub readme_content: Option<String>,
    pub confluence_pages: Option<String>,
}

/// The value a store resolves a source to, if any.
pub open spec fn lookup(st: SourceStore, s: DataSource) -> Option<Seq<char>> {
    let slot = match s {
        DataSource::ProjectStructure => st.project_structure,
        DataSource::CodeInsights => st.code_insights,
        DataSource::ReadmeContent => st.readme_content,
        DataSource::ConfluencePages => st.confluence_pages,
    };
    match slot {
        Some(v) => Some(v@),
        None => None,
    }
}

impl SourceStore {
    /// A store with nothing resolvable.
    pub fn empty() -> (r: SourceStore)
        ensures
            forall|s: DataSource| lookup(r, s) is None,
    {
        SourceStore {
            project_structure: None,
            code_insights: None,
            readme_content: None,
            confluence_pages: None,
        }
    }

    /// The resolved value of one source.
    pub fn get(&self, s: DataSource) -> (r: Option<String>)
        ensures
            match r {
                Some(v) => lookup(*self, s) == Some(v@),
                None => lookup(*self, s) is None,
            },
    {
        let slot = match s {
            DataSource::ProjectStructure => &self.project_structure,
            DataSource::CodeInsights => &self.code_insights,
            DataSource::ReadmeContent => &self.readme_content,
            DataSource::ConfluencePages => &self.confluence_pages,
        };
        match slot {
            Some(v) => Some(String::from_str(v.as_str())),
            None => None,
        }
    }
}

/// The declared sources the store cannot resolve, in declaration order.
pub open spec fn unresolved_from(req: Seq<DataSource>, st: SourceStore, i: int) -> Seq<
    DataSource,
>
    decreases req.len() - i,
{
    if i < 0 || i >= req.len() {
        Seq::empty()
    } else {
        (if lookup(st, req[i]) is None {
            seq![req[i]]
        } else {
            Seq::empty()
        }) + unresolved_from(req, st, i + 1)
    }
}

/// The resolvable part of a source list, as labelled values in declaration
/// order.
pub open spec fn bundle_from(srcs: Seq<DataSource>, st: SourceStore, i: int) -> Seq<
    (DataSource, Seq<char>),
>
    decreases srcs.len() - i,
{
    if i < 0 || i >= srcs.len() {
        Seq::empty()
    } else {
        (match lookup(st, srcs[i]) {
            Some(v) => seq![(srcs[i], v)],
            None => Seq::<(DataSource, Seq<char>)>::empty(),
        }) + bundle_from(srcs, st, i + 1)
    }
}

/// The view of a resolved bundle.
pub open spec fn bundle_view(v: Seq<(DataSource, String)>) -> Seq<(DataSource, Seq<char>)> {
    v.map_values(|p: (DataSource, String)| (p.0, p.1@))
}

/// The outcome of resolving an agent's declared sources.
pub enum ResolveOutcome {
    /// A required source was unresolvable; the agent cannot run. Carries
    /// every unresolvable required source.
    Blocked(Vec<DataSource>),
    /// Every required source resolved. The bundle holds the required
    /// sources followed by the resolvable optional ones.
    Resolved(Vec<(DataSource, String)>),
}

fn collect_unresolved(req: &Vec<DataSource>, st: &SourceStore) -> (r: Vec<DataSource>)
    ensures
        r@ == unresolved_from(req@, *st, 0),
{
    let mut r: Vec<DataSource> = Vec::new();
    let mut i: usize = 0;
    while i < req.len()
        invariant
            0 <= i <= req@.len(),
            unresolved_from(req@, *st, 0) =~= r@ + unresolved_from(req@, *st, i as int),
        decreases req@.len() - i,
    {
        let ghost pre = r@;
        match st.get(req[i]) {
            Some(_) => {},
            None => {
                r.push(req[i]);
                proof {
                    assert(r@ =~= pre.push(req@[i as int]));
                }
            },
        }
        proof {
            assert(r@ =~= pre + (if lookup(*st, req@[i as int]) is None {
                seq![req@[i as int]]
            } else {
                Seq::<DataSource>::empty()
            }));
        }
        i = i + 1;
    }
    proof {
        assert(unresolved_from(req@, *st, 0) =~= r@);
    }
    r
}

fn collect_bundle(srcs: &Vec<DataSource>, st: &SourceStore, out: &mut Vec<(DataSource, String)>)
    ensures
        bundle_view(final(out)@) == bundle_view(old(out)@) + bundle_from(srcs@, *st, 0),
{
    let mut i: usize = 0;
    let ghost acc0 = bundle_view(out@);
    while i < srcs.len()
        invariant
            0 <= i <= srcs@.len(),
            acc0 + bundle_from(srcs@, *st, 0) =~= bundle_view(out@) + bundle_from(
                srcs@,
                *st,
                i as int,
            ),
        decreases srcs@.len() - i,
    {
        let ghost pre = bundle_view(out@);
        match st.get(srcs[i]) {
            Some(v) => {
                out.push((srcs[i], v));
                proof {
                    assert(bundle_view(out@) =~= pre.push(
                        (srcs@[i as int], lookup(*st, srcs@[i as int])->0),
                    ));
                }
            },
            None => {},
        }
        proof {
            assert(bundle_view(out@) =~= pre + (match lookup(*st, srcs@[i as int]) {
                Some(v) => seq![(srcs@[i as int], v)],
                None => Seq::<(DataSource, Seq<char>)>::empty(),
            }));
        }
        i = i + 1;
    }
    proof {
        assert(bundle_view(out@) =~= acc0 + bundle_from(srcs@, *st, 0));
    }
}

/// Resolve an agent's declared sources against the run state. Blocked if
/// and only if some required source is unresolvable; otherwise the bundle
/// holds every required source and exactly the resolvable optional ones,
/// each as its resolved value.
pub fn resolve(cfg: &AgentDataConfig, st: &SourceStore) -> (r: ResolveOutcome)
    ensures
        match r {
            ResolveOutcome::Blocked(missing) => unresolved_from(cfg.required_sources@, *st, 0)
                .len() > 0 && missing@ == unresolved_from(cfg.required_sources@, *st, 0),
            ResolveOutcome::Resolved(bundle) => unresolved_from(cfg.required_sources@, *st, 0)
                .len() == 0 && bundle_view(bundle@) == bundle_from(cfg.required_sources@, *st, 0)
                + bundle_from(cfg.optional_sources@, *st, 0),
        },
{
    let missing = collect_unresolved(&cfg.required_sources, st);
    if missing.len() > 0 {
        ResolveOutcome::Blocked(missing)
    } else {
        let mut bundle: Vec<(DataSource, String)> = Vec::new();
        collect_bundle(&cfg.required_sources, st, &mut bundle);
        collect_bundle(&cfg.optional_sources, st, &mut bundle);
        proof {
            assert(bundle_view(Seq::<(DataSource, String)>::empty()) =~= Seq::<
                (DataSource, Seq<char>),
            >::empty());
        }
        ResolveOutcome::Resolved(bundle)
    }
}

} // verus!

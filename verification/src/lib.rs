//! Audits the dependency closure of a workspace for crates that need the
//! standard library.

use vstd::prelude::*;

pub mod closure;
pub mod fixpoint;
pub mod graph;
pub mod manifest;
pub mod meta;
pub mod names;
pub mod source;
pub mod syntax;

pub use crate::graph::{DependencySummary, ResolvedGraph};
pub use crate::meta::find_all_root_libs;
pub use crate::source::{explore, Exploration, ParseFailure, SourceFile};

use crate::closure::{regular_closure, summaries};
use crate::graph::SummaryView;
use crate::source::{exploration, SourceFileView};
use crate::syntax::ParsedAttribute;

verus! {

/// Result of the dependency check.
#[derive(Debug, Clone, Copy, PartialEq, Eq, Structural)]
pub enum DependencyCheckResult {
    /// Dependency is fine.
    Compatible,
    /// Dependency is not fine and cannot be (is std).
    IsPurelyStd,
    /// Dependency is not fine, but can be (if the std feature is deactivated).
    IsConditionallyNoStdButStdIsActivated,
    /// The entry file could not be classified.
    Unknown,
}

impl DependencyCheckResult {
    /// Whether the verdict makes a run fail: the two verdicts that report a
    /// dependency on the standard library do, `Unknown` does not.
    pub open spec fn fails(self) -> bool {
        self == DependencyCheckResult::IsPurelyStd || self
            == DependencyCheckResult::IsConditionallyNoStdButStdIsActivated
    }

    /// Whether the verdict makes a run fail.
    pub fn is_failure(&self) -> (r: bool)
        ensures
            r == self.fails(),
    {
        match self {
            DependencyCheckResult::IsPurelyStd => true,
            DependencyCheckResult::IsConditionallyNoStdButStdIsActivated => true,
            DependencyCheckResult::Compatible => false,
            DependencyCheckResult::Unknown => false,
        }
    }
}

/// The verdict that a classification and the std-activation flag give.
pub open spec fn verdict_of(
    classification: Result<Exploration, ParseFailure>,
    std_activated: bool,
) -> DependencyCheckResult {
    match classification {
        Ok(Exploration::NoStd) => DependencyCheckResult::Compatible,
        Ok(Exploration::Conditional) => if std_activated {
            DependencyCheckResult::IsConditionallyNoStdButStdIsActivated
        } else {
            DependencyCheckResult::Compatible
        },
        Ok(Exploration::Std) => DependencyCheckResult::IsPurelyStd,
        Err(_) => DependencyCheckResult::Unknown,
    }
}

/// Maps the classification of an entry file, together with the flag that
/// says whether the resolver activated the package's `std` feature, to the
/// verdict on the package.
pub fn verdict(classification: Result<Exploration, ParseFailure>, std_activated: bool) -> (r:
    DependencyCheckResult)
    ensures
        r == verdict_of(classification, std_activated),
{
    match classification {
        Ok(Exploration::NoStd) => DependencyCheckResult::Compatible,
        Ok(Exploration::Conditional) => if std_activated {
            DependencyCheckResult::IsConditionallyNoStdButStdIsActivated
        } else {
            DependencyCheckResult::Compatible
        },
        Ok(Exploration::Std) => DependencyCheckResult::IsPurelyStd,
        Err(_) => DependencyCheckResult::Unknown,
    }
}

/// Check of a particular dependency package.
#[derive(Debug, Clone, PartialEq, Eq)]
pub struct DependencyCheckSummary {
    /// Package id checked.
    pub package_id: String,
    /// Result of the check.
    pub result: DependencyCheckResult,
}

/// A check as contracts see it.
pub struct CheckSummaryView {
    pub package_id: Seq<char>,
    pub result: DependencyCheckResult,
}

impl View for DependencyCheckSummary {
    type V = CheckSummaryView;

    open spec fn view(&self) -> CheckSummaryView {
        CheckSummaryView { package_id: self.package_id@, result: self.result }
    }
}

/// What the first of the files that has the path holds; a file that is not
/// there counts as one that could not be read.
pub open spec fn source_parsed(sources: Seq<SourceFileView>, path: Seq<char>) -> Result<
    Seq<ParsedAttribute>,
    ParseFailure,
>
    decreases sources.len(),
{
    if sources.len() == 0 {
        Err(ParseFailure::SourceRead)
    } else if sources[0].path == path {
        sources[0].parsed
    } else {
        source_parsed(sources.skip(1), path)
    }
}

/// The check of one library target: its entry file is classified, and the
/// classification mapped to a verdict with the target's std-activation flag.
pub open spec fn check_of(dep: SummaryView, sources: Seq<SourceFileView>) -> CheckSummaryView {
    CheckSummaryView {
        package_id: dep.package_id,
        result: verdict_of(exploration(source_parsed(sources, dep.lib_path)), dep.std_activated),
    }
}

/// The checks of the targets, in order.
pub open spec fn checks_of(deps: Seq<SummaryView>, sources: Seq<SourceFileView>) -> Seq<
    CheckSummaryView,
> {
    deps.map_values(|dep: SummaryView| check_of(dep, sources))
}

/// The first of the files that has the path.
fn find_source<'a>(sources: &'a [SourceFile], path: &String) -> (r: Option<&'a SourceFile>)
    ensures
        match r {
            Some(file) => source_parsed(sources@.map_values(|f: SourceFile| f@), path@)
                == file@.parsed,
            None => source_parsed(sources@.map_values(|f: SourceFile| f@), path@) == Err::<
                Seq<ParsedAttribute>,
                ParseFailure,
            >(ParseFailure::SourceRead),
        },
{
    let ghost all = sources@.map_values(|f: SourceFile| f@);
    let mut i: usize = 0;
    assert(all.skip(0) =~= all);
    while i < sources.len()
        invariant
            i <= sources.len(),
            all == sources@.map_values(|f: SourceFile| f@),
            source_parsed(all, path@) == source_parsed(all.skip(i as int), path@),
        decreases sources.len() - i,
    {
        proof {
            assert(all.skip(i as int)[0] == sources[i as int]@);
            assert(all.skip(i as int).skip(1) =~= all.skip(i + 1));
        }
        if sources[i].path == *path {
            return Some(&sources[i]);
        }
        i += 1;
    }
    None
}

/// Checks some dependencies (they can be queried by `find_all_root_libs`).
/// The entry file of each is looked up by its path among `sources`; a file
/// that is not there counts as one that could not be read.
pub fn check_dependencies(deps: &[DependencySummary], sources: &[SourceFile]) -> (result: Vec<
    DependencyCheckSummary,
>)
    ensures
        result@.map_values(|c: DependencyCheckSummary| c@) == checks_of(
            deps@.map_values(|d: DependencySummary| d@),
            sources@.map_values(|f: SourceFile| f@),
        ),
{
    let mut result: Vec<DependencyCheckSummary> = Vec::new();
    let ghost files = sources@.map_values(|f: SourceFile| f@);
    let mut i: usize = 0;
    while i < deps.len()
        invariant
            i <= deps.len(),
            files == sources@.map_values(|f: SourceFile| f@),
            result.len() == i,
            forall|k: int| 0 <= k < i ==> (#[trigger] result[k])@ == check_of(deps[k]@, files),
        decreases deps.len() - i,
    {
        let dep = &deps[i];
        let classification = match find_source(sources, &dep.lib_path) {
            Some(file) => explore(file),
            None => Err(ParseFailure::SourceRead),
        };
        let summary = DependencyCheckSummary {
            package_id: dep.package_id.clone(),
            result: verdict(classification, dep.std_activated),
        };
        assert(summary@ == check_of(dep@, files));
        result.push(summary);
        i += 1;
    }
    assert(result@.map_values(|c: DependencyCheckSummary| c@) =~= checks_of(
        deps@.map_values(|d: DependencySummary| d@),
        files,
    ));
    result
}

/// Checks a workspace: the library targets of its regular-dependency
/// closure are found, and each is checked against its entry file among
/// `sources`.
pub fn check(graph: &ResolvedGraph, sources: &[SourceFile]) -> (result: Vec<DependencyCheckSummary>)
    ensures
        result@.map_values(|c: DependencyCheckSummary| c@) == checks_of(
            summaries(graph@.packages, regular_closure(graph@)),
            sources@.map_values(|f: SourceFile| f@),
        ),
{
    let deps = find_all_root_libs(graph);
    check_dependencies(deps.as_slice(), sources)
}

/// Whether a run with these checks fails: it does where one of the verdicts
/// makes it fail.
pub fn has_failure(checks: &[DependencyCheckSummary]) -> (r: bool)
    ensures
        r == exists|i: int| 0 <= i < checks.len() && (#[trigger] checks[i]).result.fails(),
{
    let mut i: usize = 0;
    while i < checks.len()
        invariant
            i <= checks.len(),
            forall|k: int| 0 <= k < i ==> !(#[trigger] checks[k]).result.fails(),
        decreases checks.len() - i,
    {
        if checks[i].result.is_failure() {
            return true;
        }
        i += 1;
    }
    false
}

} // verus!

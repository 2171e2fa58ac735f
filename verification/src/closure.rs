//! What the regular-dependency closure of a resolved graph is.
//!
//! A dependency entry of a manifest is skipped when it is optional, bans the
//! name it resolves to when the manifest's `std` feature gates that name, is
//! pruned when the name is that of a proc-macro package, and admits the name
//! otherwise. The seeds are the names of the workspace members and what their
//! manifests admit; a name is reachable when a number of expansion steps leads
//! to it from the seeds; the closure is what is reachable and not banned.

use crate::graph::{DependencyView, GraphView, ManifestView, PackageView, SummaryView};
use crate::names::Name;
use vstd::prelude::*;

verus! {

/// The name of the feature that marks a dependency as standard-library only.
pub open spec fn std_feature() -> Name {
    "std"@
}

/// The names that are banned whatever the manifests say.
pub open spec fn exempt() -> Set<Name> {
    set!["serde"@, "log"@, "nodrop"@]
}

/// The name that a dependency entry resolves to.
pub open spec fn effective_name(d: DependencyView) -> Name {
    match d.package {
        Some(p) => p,
        None => d.key,
    }
}

/// Whether the manifest has a feature named `std` that gates `name`.
pub open spec fn std_gated(m: ManifestView, name: Name) -> bool {
    exists|i: int|
        0 <= i < m.features.len() && (#[trigger] m.features[i]).name == std_feature()
            && m.features[i].gated.contains(name)
}

/// Whether entry `i` of the dependency table bans the name it resolves to.
pub open spec fn bans_at(m: ManifestView, i: int) -> bool {
    &&& 0 <= i < m.dependencies.len()
    &&& !m.dependencies[i].optional
    &&& std_gated(m, effective_name(m.dependencies[i]))
}

/// Whether entry `i` of the dependency table admits the name it resolves to.
pub open spec fn admits_at(m: ManifestView, proc_macro: Set<Name>, i: int) -> bool {
    &&& 0 <= i < m.dependencies.len()
    &&& !m.dependencies[i].optional
    &&& !std_gated(m, effective_name(m.dependencies[i]))
    &&& !proc_macro.contains(effective_name(m.dependencies[i]))
}

/// The names that one of the first `n` entries of the dependency table admits.
pub open spec fn admitted_by(m: ManifestView, proc_macro: Set<Name>, n: int) -> Set<Name> {
    Set::new(
        |name: Name|
            exists|i: int|
                0 <= i < n && #[trigger] admits_at(m, proc_macro, i) && effective_name(
                    m.dependencies[i],
                ) == name,
    )
}

/// The names that one of the first `n` entries of the dependency table bans.
pub open spec fn banned_by(m: ManifestView, n: int) -> Set<Name> {
    Set::new(
        |name: Name|
            exists|i: int|
                0 <= i < n && #[trigger] bans_at(m, i) && effective_name(m.dependencies[i])
                    == name,
    )
}

/// The names that a scan of the manifest adds to the regular set.
pub open spec fn admitted(m: ManifestView, proc_macro: Set<Name>) -> Set<Name> {
    admitted_by(m, proc_macro, m.dependencies.len() as int)
}

/// The names that a scan of the manifest adds to the ban list.
pub open spec fn banned(m: ManifestView) -> Set<Name> {
    banned_by(m, m.dependencies.len() as int)
}

/// The names of those of the packages whose library is a proc-macro.
pub open spec fn proc_macro_among(packages: Seq<PackageView>) -> Set<Name> {
    Set::new(
        |name: Name|
            exists|i: int|
                0 <= i < packages.len() && (#[trigger] packages[i]).manifest.proc_macro
                    && packages[i].name == name,
    )
}

/// The names of the packages of the graph whose library is a proc-macro.
pub open spec fn proc_macro_names(g: GraphView) -> Set<Name> {
    proc_macro_among(g.packages)
}

/// The name of each of the members, and what the manifest of each admits.
pub open spec fn seeds_of(members: Seq<PackageView>, proc_macro: Set<Name>) -> Set<Name> {
    Set::new(
        |name: Name|
            exists|i: int|
                0 <= i < members.len() && ((#[trigger] members[i]).name == name || admitted(
                    members[i].manifest,
                    proc_macro,
                ).contains(name)),
    )
}

/// What the manifest of one of the packages bans.
pub open spec fn bans_of(packages: Seq<PackageView>) -> Set<Name> {
    Set::new(
        |name: Name|
            exists|i: int|
                0 <= i < packages.len() && banned((#[trigger] packages[i]).manifest).contains(
                    name,
                ),
    )
}

/// The names that the closure starts from: each member's name, and what each
/// member's manifest admits.
pub open spec fn seeds(g: GraphView) -> Set<Name> {
    seeds_of(g.members, proc_macro_names(g))
}

/// `names`, and what the manifests of the packages named in `names` admit.
pub open spec fn expand(g: GraphView, names: Set<Name>) -> Set<Name> {
    Set::new(
        |name: Name|
            names.contains(name) || exists|i: int|
                0 <= i < g.packages.len() && names.contains((#[trigger] g.packages[i]).name)
                    && admitted(g.packages[i].manifest, proc_macro_names(g)).contains(name),
    )
}

/// The names reached from the seeds in at most `steps` expansions.
pub open spec fn reach(g: GraphView, steps: nat) -> Set<Name>
    decreases steps,
{
    if steps == 0 {
        seeds(g)
    } else {
        expand(g, reach(g, (steps - 1) as nat))
    }
}

/// The names reached from the seeds in any number of expansions.
pub open spec fn reachable(g: GraphView) -> Set<Name> {
    Set::new(|name: Name| exists|steps: nat| #[trigger] reach(g, steps).contains(name))
}

/// The ban list: the exempt names, what the members' manifests ban, and what
/// the manifests of the packages with a reachable name ban.
pub open spec fn banned_names(g: GraphView) -> Set<Name> {
    Set::new(
        |name: Name|
            exempt().contains(name) || bans_of(g.members).contains(name) || (exists|i: int|
                0 <= i < g.packages.len() && reachable(g).contains(
                    (#[trigger] g.packages[i]).name,
                ) && banned(g.packages[i].manifest).contains(name)),
    )
}

/// The regular-dependency closure: what is reachable and not banned.
pub open spec fn regular_closure(g: GraphView) -> Set<Name> {
    reachable(g).difference(banned_names(g))
}

/// Whether the resolver activated the package's `std` feature.
pub open spec fn std_activated(p: PackageView) -> bool {
    p.features.contains(std_feature())
}

/// One summary for each library target of the package, in order.
pub open spec fn package_summaries(p: PackageView) -> Seq<SummaryView> {
    Seq::new(
        p.lib_paths.len(),
        |i: int|
            SummaryView {
                package_id: p.package_id,
                lib_path: p.lib_paths[i],
                std_activated: std_activated(p),
            },
    )
}

/// The summaries of the packages whose name is in `names`, in the order of
/// the packages.
pub open spec fn summaries(packages: Seq<PackageView>, names: Set<Name>) -> Seq<SummaryView>
    decreases packages.len(),
{
    if packages.len() == 0 {
        Seq::empty()
    } else {
        let rest = summaries(packages.drop_last(), names);
        if names.contains(packages.last().name) {
            rest + package_summaries(packages.last())
        } else {
            rest
        }
    }
}

/// What one more package adds to the proc-macro names.
pub proof fn lemma_proc_macro_among_push(packages: Seq<PackageView>, p: PackageView)
    ensures
        proc_macro_among(packages.push(p)) == if p.manifest.proc_macro {
            proc_macro_among(packages).insert(p.name)
        } else {
            proc_macro_among(packages)
        },
{
    let longer = packages.push(p);
    let expected = if p.manifest.proc_macro {
        proc_macro_among(packages).insert(p.name)
    } else {
        proc_macro_among(packages)
    };
    assert forall|name: Name| proc_macro_among(longer).contains(name) implies expected.contains(
        name,
    ) by {
        let i = choose|i: int|
            0 <= i < longer.len() && (#[trigger] longer[i]).manifest.proc_macro && longer[i].name
                == name;
        if i < packages.len() {
            assert(packages[i] == longer[i]);
        }
    }
    assert forall|name: Name| expected.contains(name) implies proc_macro_among(longer).contains(
        name,
    ) by {
        if proc_macro_among(packages).contains(name) {
            let i = choose|i: int|
                0 <= i < packages.len() && (#[trigger] packages[i]).manifest.proc_macro
                    && packages[i].name == name;
            assert(longer[i] == packages[i]);
        } else {
            assert(longer[packages.len() as int] == p);
        }
    }
    assert(proc_macro_among(longer) =~= expected);
}

/// What one more member adds to the seeds.
pub proof fn lemma_seeds_of_push(members: Seq<PackageView>, proc_macro: Set<Name>, p: PackageView)
    ensures
        seeds_of(members.push(p), proc_macro) == seeds_of(members, proc_macro).insert(
            p.name,
        ).union(admitted(p.manifest, proc_macro)),
{
    let longer = members.push(p);
    let expected = seeds_of(members, proc_macro).insert(p.name).union(
        admitted(p.manifest, proc_macro),
    );
    assert forall|name: Name| seeds_of(longer, proc_macro).contains(name) implies expected.contains(
        name,
    ) by {
        let i = choose|i: int|
            0 <= i < longer.len() && ((#[trigger] longer[i]).name == name || admitted(
                longer[i].manifest,
                proc_macro,
            ).contains(name));
        if i < members.len() {
            assert(members[i] == longer[i]);
        }
    }
    assert forall|name: Name| expected.contains(name) implies seeds_of(longer, proc_macro).contains(
        name,
    ) by {
        if seeds_of(members, proc_macro).contains(name) {
            let i = choose|i: int|
                0 <= i < members.len() && ((#[trigger] members[i]).name == name || admitted(
                    members[i].manifest,
                    proc_macro,
                ).contains(name));
            assert(longer[i] == members[i]);
        } else {
            assert(longer[members.len() as int] == p);
        }
    }
    assert(seeds_of(longer, proc_macro) =~= expected);
}

/// What one more package adds to the bans.
pub proof fn lemma_bans_of_push(packages: Seq<PackageView>, p: PackageView)
    ensures
        bans_of(packages.push(p)) == bans_of(packages).union(banned(p.manifest)),
{
    let longer = packages.push(p);
    let expected = bans_of(packages).union(banned(p.manifest));
    assert forall|name: Name| bans_of(longer).contains(name) implies expected.contains(name) by {
        let i = choose|i: int|
            0 <= i < longer.len() && banned((#[trigger] longer[i]).manifest).contains(name);
        if i < packages.len() {
            assert(packages[i] == longer[i]);
        }
    }
    assert forall|name: Name| expected.contains(name) implies bans_of(longer).contains(name) by {
        if bans_of(packages).contains(name) {
            let i = choose|i: int|
                0 <= i < packages.len() && banned((#[trigger] packages[i]).manifest).contains(
                    name,
                );
            assert(longer[i] == packages[i]);
        } else {
            assert(longer[packages.len() as int] == p);
        }
    }
    assert(bans_of(longer) =~= expected);
}

} // verus!

//! One pass of the fixpoint loop as a fold over the packages, the measure
//! by which the loop ends, and what a pass that changes nothing shows.

use crate::closure::{
    admits_at, admitted, banned, banned_names, bans_at, bans_of, effective_name, exempt, expand,
    proc_macro_among, proc_macro_names, reach, reachable, regular_closure, seeds, seeds_of,
};
use crate::graph::{DependencyView, GraphView, ManifestView, PackageView};
use crate::names::Name;
use vstd::prelude::*;

verus! {

/// The regular set after a pass over `packages` that started from `regular`:
/// each package in turn, where its name is in the set by then, adds what its
/// manifest admits.
pub open spec fn scan_regular(
    packages: Seq<PackageView>,
    proc_macro: Set<Name>,
    regular: Set<Name>,
) -> Set<Name>
    decreases packages.len(),
{
    if packages.len() == 0 {
        regular
    } else {
        let before = scan_regular(packages.drop_last(), proc_macro, regular);
        if before.contains(packages.last().name) {
            before.union(admitted(packages.last().manifest, proc_macro))
        } else {
            before
        }
    }
}

/// The ban list after the same pass: each package that is scanned adds what
/// its manifest bans.
pub open spec fn scan_banned(
    packages: Seq<PackageView>,
    proc_macro: Set<Name>,
    regular: Set<Name>,
    ban_list: Set<Name>,
) -> Set<Name>
    decreases packages.len(),
{
    if packages.len() == 0 {
        ban_list
    } else {
        let before = scan_banned(packages.drop_last(), proc_macro, regular, ban_list);
        if scan_regular(packages.drop_last(), proc_macro, regular).contains(packages.last().name) {
            before.union(banned(packages.last().manifest))
        } else {
            before
        }
    }
}

/// A pass removes no name from the regular set.
pub proof fn lemma_scan_grows(packages: Seq<PackageView>, proc_macro: Set<Name>, regular: Set<Name>)
    ensures
        regular.subset_of(scan_regular(packages, proc_macro, regular)),
    decreases packages.len(),
{
    if packages.len() > 0 {
        lemma_scan_grows(packages.drop_last(), proc_macro, regular);
    }
}

/// A pass removes no name from the ban list.
pub proof fn lemma_scan_banned_grows(
    packages: Seq<PackageView>,
    proc_macro: Set<Name>,
    regular: Set<Name>,
    ban_list: Set<Name>,
)
    ensures
        ban_list.subset_of(scan_banned(packages, proc_macro, regular, ban_list)),
    decreases packages.len(),
{
    if packages.len() > 0 {
        lemma_scan_banned_grows(packages.drop_last(), proc_macro, regular, ban_list);
    }
}

/// A pass adds what the manifest of each package admits whose name was in the
/// regular set when the pass began, and bans what that manifest bans.
pub proof fn lemma_scan_covers(
    packages: Seq<PackageView>,
    proc_macro: Set<Name>,
    regular: Set<Name>,
    ban_list: Set<Name>,
    i: int,
)
    requires
        0 <= i < packages.len(),
        regular.contains(packages[i].name),
    ensures
        admitted(packages[i].manifest, proc_macro).subset_of(
            scan_regular(packages, proc_macro, regular),
        ),
        banned(packages[i].manifest).subset_of(
            scan_banned(packages, proc_macro, regular, ban_list),
        ),
    decreases packages.len(),
{
    let shorter = packages.drop_last();
    lemma_scan_grows(shorter, proc_macro, regular);
    if i < packages.len() - 1 {
        assert(shorter[i] == packages[i]);
        lemma_scan_covers(shorter, proc_macro, regular, ban_list, i);
    }
}

/// A pass stays inside every set that holds the regular set and what the
/// manifest of each package named in it admits.
pub proof fn lemma_scan_within(
    packages: Seq<PackageView>,
    proc_macro: Set<Name>,
    regular: Set<Name>,
    closed: Set<Name>,
)
    requires
        regular.subset_of(closed),
        forall|i: int|
            0 <= i < packages.len() && closed.contains((#[trigger] packages[i]).name) ==> admitted(
                packages[i].manifest,
                proc_macro,
            ).subset_of(closed),
    ensures
        scan_regular(packages, proc_macro, regular).subset_of(closed),
    decreases packages.len(),
{
    if packages.len() > 0 {
        let shorter = packages.drop_last();
        assert forall|i: int|
            0 <= i < shorter.len() && closed.contains((#[trigger] shorter[i]).name) implies admitted(
            shorter[i].manifest,
            proc_macro,
        ).subset_of(closed) by {
            assert(shorter[i] == packages[i]);
        }
        lemma_scan_within(shorter, proc_macro, regular, closed);
        assert(packages.last() == packages[packages.len() - 1]);
    }
}

/// The bans of a pass stay inside every set that holds the ban list and what
/// the manifest of each package bans whose name the pass ends with.
pub proof fn lemma_scan_banned_within(
    packages: Seq<PackageView>,
    proc_macro: Set<Name>,
    regular: Set<Name>,
    ban_list: Set<Name>,
    bound: Set<Name>,
)
    requires
        ban_list.subset_of(bound),
        forall|i: int|
            0 <= i < packages.len() && scan_regular(packages, proc_macro, regular).contains(
                (#[trigger] packages[i]).name,
            ) ==> banned(packages[i].manifest).subset_of(bound),
    ensures
        scan_banned(packages, proc_macro, regular, ban_list).subset_of(bound),
    decreases packages.len(),
{
    if packages.len() > 0 {
        let shorter = packages.drop_last();
        assert forall|i: int|
            0 <= i < shorter.len() && scan_regular(shorter, proc_macro, regular).contains(
                (#[trigger] shorter[i]).name,
            ) implies banned(shorter[i].manifest).subset_of(bound) by {
            assert(shorter[i] == packages[i]);
        }
        lemma_scan_banned_within(shorter, proc_macro, regular, ban_list, bound);
        assert(packages.last() == packages[packages.len() - 1]);
    }
}

/// Whether `name` is what some dependency entry of some package resolves to.
pub open spec fn is_dependency_name(packages: Seq<PackageView>, name: Name) -> bool {
    exists|i: int, k: int|
        0 <= i < packages.len() && 0 <= k < packages[i].manifest.dependencies.len()
            && effective_name(#[trigger] packages[i].manifest.dependencies[k]) == name
}

/// A pass adds only names that dependency entries resolve to.
pub proof fn lemma_scan_adds_dependency_names(
    packages: Seq<PackageView>,
    proc_macro: Set<Name>,
    regular: Set<Name>,
    name: Name,
)
    requires
        scan_regular(packages, proc_macro, regular).contains(name),
        !regular.contains(name),
    ensures
        is_dependency_name(packages, name),
    decreases packages.len(),
{
    if packages.len() > 0 {
        let shorter = packages.drop_last();
        let last = packages.len() - 1;
        if scan_regular(shorter, proc_macro, regular).contains(name) {
            lemma_scan_adds_dependency_names(shorter, proc_macro, regular, name);
            let (i, k) = choose|i: int, k: int|
                0 <= i < shorter.len() && 0 <= k < shorter[i].manifest.dependencies.len()
                    && effective_name(#[trigger] shorter[i].manifest.dependencies[k]) == name;
            assert(shorter[i] == packages[i]);
            assert(effective_name(packages[i].manifest.dependencies[k]) == name);
        } else {
            let m = packages[last].manifest;
            assert(admitted(m, proc_macro).contains(name));
            let k = choose|k: int|
                0 <= k < m.dependencies.len() && #[trigger] admits_at(
                    m,
                    proc_macro,
                    k,
                ) && effective_name(m.dependencies[k]) == name;
            assert(effective_name(packages[last].manifest.dependencies[k]) == name);
        }
    }
}

/// How many of the entries resolve to a name that is not in `names`.
pub open spec fn missing_entries(dependencies: Seq<DependencyView>, names: Set<Name>) -> nat
    decreases dependencies.len(),
{
    if dependencies.len() == 0 {
        0
    } else {
        missing_entries(dependencies.drop_last(), names) + if names.contains(
            effective_name(dependencies.last()),
        ) {
            0nat
        } else {
            1nat
        }
    }
}

/// How many dependency entries of the packages resolve to a name that is not
/// in `names`: what a pass that adds a name makes smaller.
pub open spec fn missing(packages: Seq<PackageView>, names: Set<Name>) -> nat
    decreases packages.len(),
{
    if packages.len() == 0 {
        0
    } else {
        missing(packages.drop_last(), names) + missing_entries(
            packages.last().manifest.dependencies,
            names,
        )
    }
}

proof fn lemma_missing_entries_shrinks(
    dependencies: Seq<DependencyView>,
    fewer: Set<Name>,
    more: Set<Name>,
)
    requires
        fewer.subset_of(more),
    ensures
        missing_entries(dependencies, more) <= missing_entries(dependencies, fewer),
        forall|k: int|
            0 <= k < dependencies.len() && more.contains(
                effective_name(#[trigger] dependencies[k]),
            ) && !fewer.contains(effective_name(dependencies[k])) ==> missing_entries(
                dependencies,
                more,
            ) < missing_entries(dependencies, fewer),
    decreases dependencies.len(),
{
    if dependencies.len() > 0 {
        let shorter = dependencies.drop_last();
        lemma_missing_entries_shrinks(shorter, fewer, more);
        assert forall|k: int|
            0 <= k < dependencies.len() && more.contains(
                effective_name(#[trigger] dependencies[k]),
            ) && !fewer.contains(effective_name(dependencies[k])) implies missing_entries(
            dependencies,
            more,
        ) < missing_entries(dependencies, fewer) by {
            if k < shorter.len() {
                assert(shorter[k] == dependencies[k]);
            }
        }
    }
}

/// A larger set misses no more entries, and fewer where it holds a name
/// that an entry resolves to and the smaller set lacks.
pub proof fn lemma_missing_shrinks(packages: Seq<PackageView>, fewer: Set<Name>, more: Set<Name>)
    requires
        fewer.subset_of(more),
    ensures
        missing(packages, more) <= missing(packages, fewer),
        forall|name: Name|
            more.contains(name) && !fewer.contains(name) && #[trigger] is_dependency_name(
                packages,
                name,
            ) ==> missing(packages, more) < missing(packages, fewer),
    decreases packages.len(),
{
    if packages.len() > 0 {
        let shorter = packages.drop_last();
        let last = packages.len() - 1;
        lemma_missing_shrinks(shorter, fewer, more);
        lemma_missing_entries_shrinks(packages[last].manifest.dependencies, fewer, more);
        assert forall|name: Name|
            more.contains(name) && !fewer.contains(name) && #[trigger] is_dependency_name(
                packages,
                name,
            ) implies missing(packages, more) < missing(packages, fewer) by {
            let (i, k) = choose|i: int, k: int|
                0 <= i < packages.len() && 0 <= k < packages[i].manifest.dependencies.len()
                    && effective_name(#[trigger] packages[i].manifest.dependencies[k]) == name;
            if i < last {
                assert(shorter[i] == packages[i]);
                assert(effective_name(shorter[i].manifest.dependencies[k]) == name);
                assert(is_dependency_name(shorter, name));
            } else {
                assert(effective_name(packages[last].manifest.dependencies[k]) == name);
            }
        }
    } else {
        assert forall|name: Name|
            more.contains(name) && !fewer.contains(name) && #[trigger] is_dependency_name(
                packages,
                name,
            ) implies missing(packages, more) < missing(packages, fewer) by {
            assert(false);
        }
    }
}

/// What can be reached in fewer steps can be reached in more.
pub proof fn lemma_reach_grows(g: GraphView, fewer: nat, more: nat)
    requires
        fewer <= more,
    ensures
        reach(g, fewer).subset_of(reach(g, more)),
    decreases more,
{
    if fewer < more {
        lemma_reach_grows(g, fewer, (more - 1) as nat);
    }
}

/// What a package with a reachable name admits is reachable.
pub proof fn lemma_reachable_is_expanded(g: GraphView, i: int)
    requires
        0 <= i < g.packages.len(),
        reachable(g).contains(g.packages[i].name),
    ensures
        admitted(g.packages[i].manifest, proc_macro_names(g)).subset_of(reachable(g)),
{
    let steps = choose|steps: nat| #[trigger] reach(g, steps).contains(g.packages[i].name);
    assert forall|name: Name|
        admitted(g.packages[i].manifest, proc_macro_names(g)).contains(name) implies reachable(
        g,
    ).contains(name) by {
        assert(reach(g, steps + 1).contains(name));
    }
}

/// A set that holds the seeds and what the manifest of each package named in
/// it admits holds every reachable name.
pub proof fn lemma_reachable_is_least(g: GraphView, closed: Set<Name>)
    requires
        seeds(g).subset_of(closed),
        expand(g, closed).subset_of(closed),
    ensures
        reachable(g).subset_of(closed),
{
    assert forall|name: Name| reachable(g).contains(name) implies closed.contains(name) by {
        let steps = choose|steps: nat| #[trigger] reach(g, steps).contains(name);
        lemma_reach_within(g, closed, steps);
    }
}

proof fn lemma_reach_within(g: GraphView, closed: Set<Name>, steps: nat)
    requires
        seeds(g).subset_of(closed),
        expand(g, closed).subset_of(closed),
    ensures
        reach(g, steps).subset_of(closed),
    decreases steps,
{
    if steps > 0 {
        lemma_reach_within(g, closed, (steps - 1) as nat);
        let before = reach(g, (steps - 1) as nat);
        assert forall|name: Name| expand(g, before).contains(name) implies closed.contains(
            name,
        ) by {
            assert(expand(g, closed).contains(name));
        }
    }
}

/// The reachable names are a fixpoint: one more pass over the packages adds
/// nothing to them.
pub proof fn lemma_reachable_is_fixpoint(g: GraphView)
    ensures
        scan_regular(g.packages, proc_macro_names(g), reachable(g)) == reachable(g),
{
    let pm = proc_macro_names(g);
    assert forall|i: int|
        0 <= i < g.packages.len() && reachable(g).contains(
            (#[trigger] g.packages[i]).name,
        ) implies admitted(g.packages[i].manifest, pm).subset_of(reachable(g)) by {
        lemma_reachable_is_expanded(g, i);
    }
    lemma_scan_within(g.packages, pm, reachable(g), reachable(g));
    lemma_scan_grows(g.packages, pm, reachable(g));
    assert(scan_regular(g.packages, pm, reachable(g)) =~= reachable(g));
}

/// Names leave only by the ban list: the closure lies within the reachable
/// names, and a reachable name that the closure lacks is banned.
pub proof fn lemma_only_bans_remove(g: GraphView, name: Name)
    requires
        reachable(g).contains(name),
    ensures
        regular_closure(g).subset_of(reachable(g)),
        !regular_closure(g).contains(name) ==> banned_names(g).contains(name),
{
}

/// An exempt name is not in the closure, member of the workspace or not.
pub proof fn lemma_exempt_is_excluded(g: GraphView, name: Name)
    requires
        exempt().contains(name),
    ensures
        !regular_closure(g).contains(name),
{
}

/// Whether every entry of the dependency table that resolves to `name` is
/// optional.
pub open spec fn only_optional(m: ManifestView, name: Name) -> bool {
    forall|i: int|
        0 <= i < m.dependencies.len() && effective_name(#[trigger] m.dependencies[i]) == name
            ==> m.dependencies[i].optional
}

/// A manifest whose entries for `name` are all optional neither admits nor
/// bans `name`.
pub proof fn lemma_optional_adds_nothing(m: ManifestView, proc_macro: Set<Name>, name: Name)
    requires
        only_optional(m, name),
    ensures
        !admitted(m, proc_macro).contains(name),
        !banned(m).contains(name),
{
    if admitted(m, proc_macro).contains(name) {
        let i = choose|i: int|
            0 <= i < m.dependencies.len() && #[trigger] admits_at(m, proc_macro, i)
                && effective_name(m.dependencies[i]) == name;
        assert(m.dependencies[i].optional);
    }
    if banned(m).contains(name) {
        let i = choose|i: int|
            0 <= i < m.dependencies.len() && #[trigger] bans_at(m, i) && effective_name(
                m.dependencies[i],
            ) == name;
        assert(m.dependencies[i].optional);
    }
}

/// A name that is no member's, and to which only optional entries lead, in
/// the members' manifests and in those of the packages, is not reachable:
/// it is not in the closure.
pub proof fn lemma_optional_only_is_excluded(g: GraphView, name: Name)
    requires
        forall|i: int| 0 <= i < g.members.len() ==> (#[trigger] g.members[i]).name != name,
        forall|i: int| 0 <= i < g.members.len() ==> only_optional((#[trigger] g.members[i]).manifest, name),
        forall|i: int|
            0 <= i < g.packages.len() ==> only_optional((#[trigger] g.packages[i]).manifest, name),
    ensures
        !reachable(g).contains(name),
        !regular_closure(g).contains(name),
{
    if reachable(g).contains(name) {
        let steps = choose|steps: nat| #[trigger] reach(g, steps).contains(name);
        lemma_optional_only_unreached(g, name, steps);
    }
}

proof fn lemma_optional_only_unreached(g: GraphView, name: Name, steps: nat)
    requires
        forall|i: int| 0 <= i < g.members.len() ==> (#[trigger] g.members[i]).name != name,
        forall|i: int| 0 <= i < g.members.len() ==> only_optional((#[trigger] g.members[i]).manifest, name),
        forall|i: int|
            0 <= i < g.packages.len() ==> only_optional((#[trigger] g.packages[i]).manifest, name),
    ensures
        !reach(g, steps).contains(name),
    decreases steps,
{
    let pm = proc_macro_names(g);
    if steps == 0 {
        if seeds(g).contains(name) {
            let i = choose|i: int|
                0 <= i < g.members.len() && ((#[trigger] g.members[i]).name == name || admitted(
                    g.members[i].manifest,
                    pm,
                ).contains(name));
            lemma_optional_adds_nothing(g.members[i].manifest, pm, name);
        }
    } else {
        let before = reach(g, (steps - 1) as nat);
        lemma_optional_only_unreached(g, name, (steps - 1) as nat);
        if expand(g, before).contains(name) {
            let i = choose|i: int|
                0 <= i < g.packages.len() && before.contains((#[trigger] g.packages[i]).name)
                    && admitted(g.packages[i].manifest, pm).contains(name);
            lemma_optional_adds_nothing(g.packages[i].manifest, pm, name);
        }
    }
}

/// Whether every package of `first` is one of `second`.
pub open spec fn all_among(first: Seq<PackageView>, second: Seq<PackageView>) -> bool {
    forall|i: int| 0 <= i < first.len() ==> second.contains(#[trigger] first[i])
}

/// Whether two graphs have the same members and the same packages, in
/// whatever order and however often each is listed.
pub open spec fn same_packages(first: GraphView, second: GraphView) -> bool {
    &&& all_among(first.members, second.members)
    &&& all_among(second.members, first.members)
    &&& all_among(first.packages, second.packages)
    &&& all_among(second.packages, first.packages)
}

proof fn lemma_among_grows(first: Seq<PackageView>, second: Seq<PackageView>, proc_macro: Set<Name>)
    requires
        all_among(first, second),
    ensures
        proc_macro_among(first).subset_of(proc_macro_among(second)),
        seeds_of(first, proc_macro).subset_of(seeds_of(second, proc_macro)),
        bans_of(first).subset_of(bans_of(second)),
{
    assert forall|name: Name| proc_macro_among(first).contains(name) implies proc_macro_among(
        second,
    ).contains(name) by {
        let i = choose|i: int|
            0 <= i < first.len() && (#[trigger] first[i]).manifest.proc_macro && first[i].name
                == name;
        let j = choose|j: int| 0 <= j < second.len() && second[j] == first[i];
        assert(second[j].manifest.proc_macro);
    }
    assert forall|name: Name| seeds_of(first, proc_macro).contains(name) implies seeds_of(
        second,
        proc_macro,
    ).contains(name) by {
        let i = choose|i: int|
            0 <= i < first.len() && ((#[trigger] first[i]).name == name || admitted(
                first[i].manifest,
                proc_macro,
            ).contains(name));
        let j = choose|j: int| 0 <= j < second.len() && second[j] == first[i];
        assert(second[j].name == first[i].name);
    }
    assert forall|name: Name| bans_of(first).contains(name) implies bans_of(second).contains(
        name,
    ) by {
        let i = choose|i: int|
            0 <= i < first.len() && banned((#[trigger] first[i]).manifest).contains(name);
        let j = choose|j: int| 0 <= j < second.len() && second[j] == first[i];
        assert(second[j].manifest == first[i].manifest);
    }
}

proof fn lemma_reach_ignores_order(first: GraphView, second: GraphView, steps: nat)
    requires
        same_packages(first, second),
    ensures
        proc_macro_names(first) == proc_macro_names(second),
        reach(first, steps).subset_of(reach(second, steps)),
    decreases steps,
{
    lemma_among_grows(first.packages, second.packages, proc_macro_names(first));
    lemma_among_grows(second.packages, first.packages, proc_macro_names(first));
    assert(proc_macro_names(first) =~= proc_macro_names(second));
    if steps == 0 {
        lemma_among_grows(first.members, second.members, proc_macro_names(first));
    } else {
        lemma_reach_ignores_order(first, second, (steps - 1) as nat);
        let before = reach(first, (steps - 1) as nat);
        assert forall|name: Name| expand(first, before).contains(name) implies reach(
            second,
            steps,
        ).contains(name) by {
            if !before.contains(name) {
                let i = choose|i: int|
                    0 <= i < first.packages.len() && before.contains(
                        (#[trigger] first.packages[i]).name,
                    ) && admitted(first.packages[i].manifest, proc_macro_names(first)).contains(
                        name,
                    );
                let j = choose|j: int|
                    0 <= j < second.packages.len() && second.packages[j] == first.packages[i];
                assert(second.packages[j].name == first.packages[i].name);
            }
        }
    }
}

proof fn lemma_closure_within(first: GraphView, second: GraphView)
    requires
        same_packages(first, second),
    ensures
        reachable(first).subset_of(reachable(second)),
        banned_names(first).subset_of(banned_names(second)),
{
    assert forall|name: Name| reachable(first).contains(name) implies reachable(second).contains(
        name,
    ) by {
        let steps = choose|steps: nat| #[trigger] reach(first, steps).contains(name);
        lemma_reach_ignores_order(first, second, steps);
    }
    lemma_among_grows(first.members, second.members, proc_macro_names(first));
    assert forall|name: Name| banned_names(first).contains(name) implies banned_names(
        second,
    ).contains(name) by {
        if !exempt().contains(name) && !bans_of(first.members).contains(name) {
            let i = choose|i: int|
                0 <= i < first.packages.len() && reachable(first).contains(
                    (#[trigger] first.packages[i]).name,
                ) && banned(first.packages[i].manifest).contains(name);
            let j = choose|j: int|
                0 <= j < second.packages.len() && second.packages[j] == first.packages[i];
            assert(reachable(second).contains(second.packages[j].name));
        }
    }
}

/// The closure does not depend on the order in which the members and the
/// packages of the graph are listed.
pub proof fn lemma_closure_ignores_order(first: GraphView, second: GraphView)
    requires
        same_packages(first, second),
    ensures
        regular_closure(first) == regular_closure(second),
{
    lemma_closure_within(first, second);
    lemma_closure_within(second, first);
    assert(reachable(first) =~= reachable(second));
    assert(banned_names(first) =~= banned_names(second));
}

} // verus!

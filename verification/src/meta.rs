//! The dependency closure builder.

use crate::closure::{
    admits_at, admitted, admitted_by, banned, banned_by, banned_names, bans_at, bans_of,
    effective_name, exempt, expand, lemma_bans_of_push, lemma_proc_macro_among_push,
    lemma_seeds_of_push, package_summaries, proc_macro_among, proc_macro_names, reachable,
    regular_closure, seeds, seeds_of, std_activated, std_feature, std_gated, summaries,
};
use crate::fixpoint::{
    lemma_missing_shrinks, lemma_reachable_is_expanded,
    lemma_reachable_is_least, lemma_scan_adds_dependency_names, lemma_scan_banned_grows,
    lemma_scan_banned_within, lemma_scan_covers, lemma_scan_within, missing,
    scan_banned, scan_regular,
};
use crate::graph::{Dependency, DependencySummary, Manifest, PackageNode, ResolvedGraph};
use crate::names::{views, Name, NameSet};
pub use crate::manifest::{is_proc_macro, toml_from_file};
use vstd::prelude::*;

verus! {

/// Whether `name` is one of `names`.
pub fn list_contains(names: &Vec<String>, name: &String) -> (r: bool)
    ensures
        r == views(names@).contains(name@),
{
    let mut i: usize = 0;
    while i < names.len()
        invariant
            i <= names.len(),
            forall|k: int| 0 <= k < i ==> views(names@)[k] != name@,
        decreases names.len() - i,
    {
        if names[i] == *name {
            assert(views(names@)[i as int] == name@);
            return true;
        }
        i += 1;
    }
    false
}

/// Whether the manifest's feature table has a feature `std` that gates `name`.
pub fn is_std_gated(manifest: &Manifest, name: &String) -> (r: bool)
    ensures
        r == std_gated(manifest@, name@),
{
    let std_name = "std".to_owned();
    let mut i: usize = 0;
    while i < manifest.features.len()
        invariant
            i <= manifest.features.len(),
            std_name@ == std_feature(),
            forall|k: int|
                0 <= k < i ==> !((#[trigger] manifest@.features[k]).name == std_feature()
                    && manifest@.features[k].gated.contains(name@)),
        decreases manifest.features.len() - i,
    {
        let feature = &manifest.features[i];
        assert(manifest@.features[i as int] == feature@);
        if feature.name == std_name && list_contains(&feature.gated, name) {
            return true;
        }
        i += 1;
    }
    false
}

/// The name that a dependency entry resolves to: the package it renames, or
/// else its key.
pub fn resolved_name(dep: &Dependency) -> (r: String)
    ensures
        r@ == effective_name(dep@),
{
    match &dep.package {
        Some(p) => p.clone(),
        None => dep.key.clone(),
    }
}

/// Scans the dependency table of `manifest` once. An optional entry is
/// skipped. The name of any other entry goes to `ban_list` where the
/// manifest's `std` feature gates it; else it is left out where it is in
/// `proc_macro_set`; else it goes to `data`. Returns how many names were new
/// to `data`.
pub fn push_reg_deps(
    data: &mut NameSet,
    proc_macro_set: &NameSet,
    ban_list: &mut NameSet,
    manifest: &Manifest,
) -> (found: usize)
    ensures
        final(data)@ == old(data)@.union(admitted(manifest@, proc_macro_set@)),
        final(ban_list)@ == old(ban_list)@.union(banned(manifest@)),
        old(data)@.subset_of(final(data)@),
        final(data)@.finite(),
        found == final(data)@.difference(old(data)@).len(),
{
    let mut found: usize = 0;
    let mut i: usize = 0;
    proof {
        data.lemma_finite();
        assert(data@ =~= data@.union(admitted_by(manifest@, proc_macro_set@, 0)));
        assert(ban_list@ =~= ban_list@.union(banned_by(manifest@, 0)));
        assert(data@.difference(data@) =~= Set::<Name>::empty());
    }
    while i < manifest.dependencies.len()
        invariant
            i <= manifest.dependencies.len(),
            found <= i,
            data@ == old(data)@.union(admitted_by(manifest@, proc_macro_set@, i as int)),
            ban_list@ == old(ban_list)@.union(banned_by(manifest@, i as int)),
            data@.finite(),
            found == data@.difference(old(data)@).len(),
        decreases manifest.dependencies.len() - i,
    {
        let dep = &manifest.dependencies[i];
        let ghost m = manifest@;
        let ghost pm = proc_macro_set@;
        let ghost before = data@;
        assert(m.dependencies[i as int] == dep@);
        let name = resolved_name(dep);
        let ghost n = name@;
        let mut admits = false;
        let mut bans = false;
        if !dep.optional {
            if is_std_gated(manifest, &name) {
                bans = true;
                ban_list.insert(name);
            } else if !proc_macro_set.contains(&name) {
                admits = true;
                if data.insert(name) {
                    found += 1;
                }
            }
        }
        proof {
            assert(admits == admits_at(m, pm, i as int));
            assert(bans == bans_at(m, i as int));
            let grown = if admits {
                admitted_by(m, pm, i as int).insert(n)
            } else {
                admitted_by(m, pm, i as int)
            };
            assert(admitted_by(m, pm, i + 1) =~= grown) by {
                assert forall|x: Name| admitted_by(m, pm, i + 1).contains(x) implies grown.contains(
                    x,
                ) by {
                    let k = choose|k: int|
                        0 <= k < i + 1 && #[trigger] admits_at(m, pm, k) && effective_name(
                            m.dependencies[k],
                        ) == x;
                    if k < i {
                        assert(admitted_by(m, pm, i as int).contains(x));
                    }
                }
                assert forall|x: Name| grown.contains(x) implies admitted_by(m, pm, i + 1).contains(
                    x,
                ) by {
                    if admitted_by(m, pm, i as int).contains(x) {
                        let k = choose|k: int|
                            0 <= k < i && #[trigger] admits_at(m, pm, k) && effective_name(
                                m.dependencies[k],
                            ) == x;
                        assert(0 <= k < i + 1 && admits_at(m, pm, k));
                    } else {
                        assert(admits_at(m, pm, i as int));
                    }
                }
            }
            let banned_grown = if bans {
                banned_by(m, i as int).insert(n)
            } else {
                banned_by(m, i as int)
            };
            assert(banned_by(m, i + 1) =~= banned_grown) by {
                assert forall|x: Name| banned_by(m, i + 1).contains(x) implies banned_grown.contains(
                    x,
                ) by {
                    let k = choose|k: int|
                        0 <= k < i + 1 && #[trigger] bans_at(m, k) && effective_name(
                            m.dependencies[k],
                        ) == x;
                    if k < i {
                        assert(banned_by(m, i as int).contains(x));
                    }
                }
                assert forall|x: Name| banned_grown.contains(x) implies banned_by(m, i + 1).contains(
                    x,
                ) by {
                    if banned_by(m, i as int).contains(x) {
                        let k = choose|k: int|
                            0 <= k < i && #[trigger] bans_at(m, k) && effective_name(
                                m.dependencies[k],
                            ) == x;
                        assert(0 <= k < i + 1 && bans_at(m, k));
                    } else {
                        assert(bans_at(m, i as int));
                    }
                }
            }
            assert(data@ =~= old(data)@.union(admitted_by(m, pm, i + 1)));
            assert(ban_list@ =~= old(ban_list)@.union(banned_by(m, i + 1)));
            if admits && !before.contains(n) {
                assert(data@.difference(old(data)@) =~= before.difference(old(data)@).insert(n));
            } else {
                assert(data@.difference(old(data)@) =~= before.difference(old(data)@));
            }
        }
        i += 1;
    }
    found
}

/// The names of the packages of the graph whose library target is declared
/// a proc-macro.
pub fn proc_macro_set(graph: &ResolvedGraph) -> (r: NameSet)
    ensures
        r@ == proc_macro_names(graph@),
{
    let mut set = NameSet::new();
    let mut i: usize = 0;
    assert(set@ =~= proc_macro_among(graph@.packages.take(0)));
    while i < graph.packages.len()
        invariant
            i <= graph.packages.len(),
            set@ == proc_macro_among(graph@.packages.take(i as int)),
        decreases graph.packages.len() - i,
    {
        let package = &graph.packages[i];
        proof {
            let all = graph@.packages;
            assert(all[i as int] == package@);
            assert(all.take(i + 1) =~= all.take(i as int).push(package@));
            lemma_proc_macro_among_push(all.take(i as int), package@);
        }
        if package.manifest.proc_macro {
            set.insert(package.name.clone());
        }
        i += 1;
    }
    assert(graph@.packages.take(i as int) =~= graph@.packages);
    set
}

/// One pass of the fixpoint loop: scans the manifest of each package of the
/// graph, in order, whose name is in `regular` when its turn comes. Returns
/// whether the pass added a name to `regular`.
pub fn scan_packages(
    graph: &ResolvedGraph,
    regular: &mut NameSet,
    proc_macro_set: &NameSet,
    ban_list: &mut NameSet,
) -> (changed: bool)
    ensures
        final(regular)@ == scan_regular(graph@.packages, proc_macro_set@, old(regular)@),
        final(ban_list)@ == scan_banned(
            graph@.packages,
            proc_macro_set@,
            old(regular)@,
            old(ban_list)@,
        ),
        old(regular)@.subset_of(final(regular)@),
        changed == (final(regular)@ != old(regular)@),
{
    let mut changed = false;
    let mut i: usize = 0;
    while i < graph.packages.len()
        invariant
            i <= graph.packages.len(),
            regular@ == scan_regular(
                graph@.packages.take(i as int),
                proc_macro_set@,
                old(regular)@,
            ),
            ban_list@ == scan_banned(
                graph@.packages.take(i as int),
                proc_macro_set@,
                old(regular)@,
                old(ban_list)@,
            ),
            old(regular)@.subset_of(regular@),
            changed == (regular@ != old(regular)@),
        decreases graph.packages.len() - i,
    {
        let package = &graph.packages[i];
        let ghost before = regular@;
        proof {
            let all = graph@.packages;
            assert(all[i as int] == package@);
            assert(all.take(i + 1).drop_last() =~= all.take(i as int));
            assert(all.take(i + 1).last() == package@);
        }
        if regular.contains(&package.name) {
            let found = push_reg_deps(regular, proc_macro_set, ban_list, &package.manifest);
            if found > 0 {
                changed = true;
            }
            proof {
                let added = regular@.difference(before);
                if found == 0 {
                    assert(added.finite());
                    assert(added.len() == 0);
                    assert(added =~= Set::<Name>::empty());
                    assert forall|name: Name| regular@.contains(name) implies before.contains(
                        name,
                    ) by {
                        if !before.contains(name) {
                            assert(added.contains(name));
                        }
                    }
                    assert(regular@ =~= before);
                } else {
                    assert(added.len() > 0);
                    assert(!(added =~= Set::<Name>::empty()));
                    let name = choose|name: Name| added.contains(name);
                    assert(regular@.contains(name) && !old(regular)@.contains(name));
                }
            }
        }
        i += 1;
    }
    assert(graph@.packages.take(i as int) =~= graph@.packages);
    changed
}

/// The regular-dependency closure of the graph. The proc-macro packages are
/// marked first. Each member's name is added and its manifest scanned; passes
/// over the packages follow until one adds nothing; then the ban list, with
/// the exempt names added, is taken away.
pub fn regular_dependencies(graph: &ResolvedGraph) -> (r: NameSet)
    ensures
        r@ == regular_closure(graph@),
{
    let ghost g = graph@;
    let proc_macro = proc_macro_set(graph);
    let mut regular = NameSet::new();
    let mut ban_list = NameSet::new();
    let mut i: usize = 0;
    proof {
        assert(regular@ =~= seeds_of(g.members.take(0), proc_macro@));
        assert(ban_list@ =~= bans_of(g.members.take(0)));
    }
    while i < graph.members.len()
        invariant
            i <= graph.members.len(),
            g == graph@,
            regular@ == seeds_of(g.members.take(i as int), proc_macro@),
            ban_list@ == bans_of(g.members.take(i as int)),
        decreases graph.members.len() - i,
    {
        let member = &graph.members[i];
        proof {
            assert(g.members[i as int] == member@);
            assert(g.members.take(i + 1) =~= g.members.take(i as int).push(member@));
            lemma_seeds_of_push(g.members.take(i as int), proc_macro@, member@);
            lemma_bans_of_push(g.members.take(i as int), member@);
        }
        regular.insert(member.name.clone());
        push_reg_deps(&mut regular, &proc_macro, &mut ban_list, &member.manifest);
        i += 1;
    }
    proof {
        assert(g.members.take(i as int) =~= g.members);
        assert forall|name: Name| seeds(g).contains(name) implies reachable(g).contains(name) by {
            assert(crate::closure::reach(g, 0).contains(name));
        }
    }
    loop
        invariant
            g == graph@,
            proc_macro@ == proc_macro_names(g),
            seeds(g).subset_of(regular@),
            regular@.subset_of(reachable(g)),
            bans_of(g.members).subset_of(ban_list@),
            ban_list@.subset_of(banned_names(g)),
        ensures
            expand(g, regular@).subset_of(regular@),
            forall|k: int|
                0 <= k < g.packages.len() && regular@.contains((#[trigger] g.packages[k]).name)
                    ==> banned(g.packages[k].manifest).subset_of(ban_list@),
        decreases missing(g.packages, regular@),
    {
        let ghost before = regular@;
        let ghost banned_before = ban_list@;
        let changed = scan_packages(graph, &mut regular, &proc_macro, &mut ban_list);
        proof {
            let pm = proc_macro@;
            assert forall|k: int|
                0 <= k < g.packages.len() && reachable(g).contains(
                    (#[trigger] g.packages[k]).name,
                ) implies admitted(g.packages[k].manifest, pm).subset_of(reachable(g)) by {
                lemma_reachable_is_expanded(g, k);
            }
            lemma_scan_within(g.packages, pm, before, reachable(g));
            lemma_scan_banned_within(g.packages, pm, before, banned_before, banned_names(g));
            lemma_scan_banned_grows(g.packages, pm, before, banned_before);
            if changed {
                if forall|name: Name| regular@.contains(name) ==> before.contains(name) {
                    assert(regular@ =~= before);
                }
                let name = choose|name: Name| regular@.contains(name) && !before.contains(name);
                lemma_scan_adds_dependency_names(g.packages, pm, before, name);
                lemma_missing_shrinks(g.packages, before, regular@);
            } else {
                assert forall|k: int|
                    0 <= k < g.packages.len() && before.contains(
                        (#[trigger] g.packages[k]).name,
                    ) implies admitted(g.packages[k].manifest, pm).subset_of(before) && banned(
                    g.packages[k].manifest,
                ).subset_of(ban_list@) by {
                    lemma_scan_covers(g.packages, pm, before, banned_before, k);
                }
            }
        }
        if !changed {
            break ;
        }
    }
    ban_list.insert("serde".to_owned());
    ban_list.insert("log".to_owned());
    ban_list.insert("nodrop".to_owned());
    proof {
        lemma_reachable_is_least(g, regular@);
        assert(regular@ =~= reachable(g));
        assert(ban_list@ =~= banned_names(g));
    }
    regular.difference(&ban_list)
}

/// Whether `std` is among the features that the resolver activated.
pub fn has_std_feature(package: &PackageNode) -> (r: bool)
    ensures
        r == std_activated(package@),
{
    let std_name = "std".to_owned();
    list_contains(&package.features, &std_name)
}

/// One summary for each library target of each package of the graph whose
/// name is in the regular-dependency closure, in the order of the packages
/// and of their targets.
pub fn find_all_root_libs(graph: &ResolvedGraph) -> (result: Vec<DependencySummary>)
    ensures
        result@.map_values(|s: DependencySummary| s@) == summaries(
            graph@.packages,
            regular_closure(graph@),
        ),
{
    let regular = regular_dependencies(graph);
    let mut result: Vec<DependencySummary> = Vec::new();
    let mut i: usize = 0;
    let ghost all = graph@.packages;
    assert(result@.map_values(|s: DependencySummary| s@) =~= summaries(all.take(0), regular@));
    while i < graph.packages.len()
        invariant
            i <= graph.packages.len(),
            all == graph@.packages,
            result@.map_values(|s: DependencySummary| s@) == summaries(
                all.take(i as int),
                regular@,
            ),
        decreases graph.packages.len() - i,
    {
        let package = &graph.packages[i];
        let ghost done = result@.map_values(|s: DependencySummary| s@);
        proof {
            assert(all[i as int] == package@);
            assert(all.take(i + 1).drop_last() =~= all.take(i as int));
            assert(all.take(i + 1).last() == package@);
        }
        if regular.contains(&package.name) {
            let std_activated = has_std_feature(package);
            let mut k: usize = 0;
            assert(result@.map_values(|s: DependencySummary| s@) =~= done + package_summaries(
                package@,
            ).take(0));
            while k < package.lib_paths.len()
                invariant
                    k <= package.lib_paths.len(),
                    std_activated == crate::closure::std_activated(package@),
                    result@.map_values(|s: DependencySummary| s@) == done + package_summaries(
                        package@,
                    ).take(k as int),
                decreases package.lib_paths.len() - k,
            {
                let ghost so_far = result@.map_values(|s: DependencySummary| s@);
                let summary = DependencySummary {
                    package_id: package.package_id.clone(),
                    lib_path: package.lib_paths[k].clone(),
                    std_activated,
                };
                assert(summary@ == package_summaries(package@)[k as int]);
                result.push(summary);
                assert(result@.map_values(|s: DependencySummary| s@) =~= so_far.push(summary@));
                assert(package_summaries(package@).take(k + 1) =~= package_summaries(
                    package@,
                ).take(k as int).push(summary@));
                k += 1;
            }
            assert(package_summaries(package@).take(k as int) =~= package_summaries(package@));
        }
        i += 1;
    }
    assert(all.take(i as int) =~= all);
    result
}

} // verus!

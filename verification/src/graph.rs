//! The resolved package graph that the closure builder works on, as plain
//! values, and the mathematical view of each of its parts.

use crate::names::{views, Name};
use vstd::prelude::*;

verus! {

/// One entry of a manifest's dependency table.
#[derive(Debug, Clone, PartialEq, Eq)]
pub struct Dependency {
    /// The key of the entry in the table.
    pub key: String,
    /// The package that the entry names, where it renames one.
    pub package: Option<String>,
    /// Whether the entry is declared optional.
    pub optional: bool,
}

/// A dependency entry as contracts see it.
pub struct DependencyView {
    pub key: Name,
    pub package: Option<Name>,
    pub optional: bool,
}

impl View for Dependency {
    type V = DependencyView;

    open spec fn view(&self) -> DependencyView {
        DependencyView {
            key: self.key@,
            package: match self.package {
                Some(p) => Some(p@),
                None => None,
            },
            optional: self.optional,
        }
    }
}

/// One entry of a manifest's feature table: a feature and the names it gates.
#[derive(Debug, Clone, PartialEq, Eq)]
pub struct Feature {
    /// The name of the feature.
    pub name: String,
    /// The names in the feature's list, in order.
    pub gated: Vec<String>,
}

/// A feature as contracts see it.
pub struct FeatureView {
    pub name: Name,
    pub gated: Seq<Name>,
}

impl View for Feature {
    type V = FeatureView;

    open spec fn view(&self) -> FeatureView {
        FeatureView { name: self.name@, gated: views(self.gated@) }
    }
}

/// What the closure builder reads of a package manifest.
#[derive(Debug, Clone, PartialEq, Eq)]
pub struct Manifest {
    /// The dependency table, in the order of the table.
    pub dependencies: Vec<Dependency>,
    /// The feature table, in the order of the table.
    pub features: Vec<Feature>,
    /// Whether the library target is declared a proc-macro.
    pub proc_macro: bool,
}

/// A manifest as contracts see it.
pub struct ManifestView {
    pub dependencies: Seq<DependencyView>,
    pub features: Seq<FeatureView>,
    pub proc_macro: bool,
}

impl View for Manifest {
    type V = ManifestView;

    open spec fn view(&self) -> ManifestView {
        ManifestView {
            dependencies: self.dependencies@.map_values(|d: Dependency| d@),
            features: self.features@.map_values(|f: Feature| f@),
            proc_macro: self.proc_macro,
        }
    }
}

/// A package of the resolved graph.
#[derive(Debug, Clone, PartialEq, Eq)]
pub struct PackageNode {
    /// The identity of the package, as it is reported.
    pub package_id: String,
    /// The name of the package.
    pub name: String,
    /// The package's manifest.
    pub manifest: Manifest,
    /// The entry file of each library target.
    pub lib_paths: Vec<String>,
    /// The features that the resolver activated for the package.
    pub features: Vec<String>,
}

/// A package as contracts see it.
pub struct PackageView {
    pub package_id: Seq<char>,
    pub name: Name,
    pub manifest: ManifestView,
    pub lib_paths: Seq<Seq<char>>,
    pub features: Seq<Name>,
}

impl View for PackageNode {
    type V = PackageView;

    open spec fn view(&self) -> PackageView {
        PackageView {
            package_id: self.package_id@,
            name: self.name@,
            manifest: self.manifest@,
            lib_paths: views(self.lib_paths@),
            features: views(self.features@),
        }
    }
}

/// The workspace members and the packages that the resolver selected.
#[derive(Debug, Clone, PartialEq, Eq)]
pub struct ResolvedGraph {
    /// The members of the workspace.
    pub members: Vec<PackageNode>,
    /// Every package of the resolved graph.
    pub packages: Vec<PackageNode>,
}

/// A resolved graph as contracts see it.
pub struct GraphView {
    pub members: Seq<PackageView>,
    pub packages: Seq<PackageView>,
}

impl View for ResolvedGraph {
    type V = GraphView;

    open spec fn view(&self) -> GraphView {
        GraphView {
            members: self.members@.map_values(|p: PackageNode| p@),
            packages: self.packages@.map_values(|p: PackageNode| p@),
        }
    }
}

/// One library target that is to be checked.
#[derive(Debug, Clone, PartialEq, Eq)]
pub struct DependencySummary {
    /// The identity of the package.
    pub package_id: String,
    /// The entry file of the library target.
    pub lib_path: String,
    /// Whether the resolver activated the package's `std` feature.
    pub std_activated: bool,
}

/// A summary as contracts see it.
pub struct SummaryView {
    pub package_id: Seq<char>,
    pub lib_path: Seq<char>,
    pub std_activated: bool,
}

impl View for DependencySummary {
    type V = SummaryView;

    open spec fn view(&self) -> SummaryView {
        SummaryView {
            package_id: self.package_id@,
            lib_path: self.lib_path@,
            std_activated: self.std_activated,
        }
    }
}

} // verus!

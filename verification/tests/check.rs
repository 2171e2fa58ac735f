use nostd_check::graph::{Dependency, Manifest, PackageNode};
use nostd_check::manifest::toml_from_file;
use nostd_check::syntax::ParsedAttribute;
use nostd_check::{
    check, check_dependencies, explore, find_all_root_libs, has_failure, verdict,
    DependencyCheckResult,
    DependencyCheckSummary, DependencySummary, Exploration, ParseFailure, ResolvedGraph,
    SourceFile,
};

const NO_STD: &str = "#![no_std]\npub fn f() {}\n";
const CONDITIONAL: &str = "#![cfg_attr(not(feature = \"std\"), no_std)]\npub fn f() {}\n";
const STD: &str = "pub fn f() {}\n";

fn node(name: &str, manifest_text: &str, features: &[&str]) -> PackageNode {
    PackageNode {
        package_id: format!("{} v1.0.0", name),
        name: name.to_string(),
        manifest: toml_from_file(manifest_text).unwrap(),
        lib_paths: vec![format!("/{}/src/lib.rs", name)],
        features: features.iter().map(|f| f.to_string()).collect(),
    }
}

fn parsed_text(text: &str) -> Result<Vec<ParsedAttribute>, ParseFailure> {
    match syn::parse_file(text) {
        Ok(parsed) => Ok(parsed
            .attrs
            .into_iter()
            .map(|attribute| {
                let meta = attribute.parse_meta().ok();
                ParsedAttribute { attribute, meta }
            })
            .collect()),
        Err(_) => Err(ParseFailure::SourceParse),
    }
}

fn source(name: &str, text: Option<&str>) -> SourceFile {
    SourceFile {
        path: format!("/{}/src/lib.rs", name),
        parsed: match text {
            Some(text) => parsed_text(text),
            None => Err(ParseFailure::SourceRead),
        },
    }
}

fn checked(name: &str, result: DependencyCheckResult) -> DependencyCheckSummary {
    DependencyCheckSummary { package_id: format!("{} v1.0.0", name), result }
}

fn target(name: &str, std_activated: bool) -> DependencySummary {
    DependencySummary {
        package_id: format!("{} v1.0.0", name),
        lib_path: format!("/{}/src/lib.rs", name),
        std_activated,
    }
}

#[test]
fn local_explore() {
    let member = PackageNode {
        package_id: "cargo v0.42.0".to_string(),
        name: "cargo".to_string(),
        manifest: Manifest {
            dependencies: vec![
                Dependency { key: "bitflags".to_string(), package: None, optional: false },
                Dependency {
                    key: "rustc-workspace-hack".to_string(),
                    package: None,
                    optional: false,
                },
            ],
            features: vec![],
            proc_macro: false,
        },
        lib_paths: vec!["/cargo/src/cargo/lib.rs".to_string()],
        features: vec![],
    };
    let mut hack = node("rustc-workspace-hack", "[package]\nname = \"rustc-workspace-hack\"\n", &[]);
    hack.package_id = "rustc-workspace-hack v1.0.0".to_string();
    let mut bitflags = node("bitflags", "[package]\nname = \"bitflags\"\n", &["default"]);
    bitflags.package_id = "bitflags v1.2.1".to_string();
    let graph = ResolvedGraph { members: vec![member.clone()], packages: vec![hack, bitflags, member] };
    let deps = find_all_root_libs(&graph);

    let rustc_workspace_hack = deps
        .iter()
        .find(|x| x.package_id.to_string() == "rustc-workspace-hack v1.0.0")
        .expect("There should be this dependency")
        .clone();
    println!("rustc_workspace_hack libpath: {}", rustc_workspace_hack.lib_path);
    let hack_file = SourceFile {
        path: rustc_workspace_hack.lib_path,
        parsed: parsed_text("// This is a stub crate.\n"),
    };
    assert_eq!(explore(&hack_file), Ok(Exploration::Std));

    let bitflags = deps
        .iter()
        .find(|x| x.package_id.to_string() == "bitflags v1.2.1")
        .expect("There should be this dependency")
        .clone();
    println!("bitflags libpath: {}", bitflags.lib_path);
    let bitflags_file = SourceFile {
        path: bitflags.lib_path,
        parsed: parsed_text(
            "//! A typesafe bitmask flag generator.\n\n#![no_std]\n#![doc(html_root_url = \"https://docs.rs/bitflags/1.2.1\")]\n\n#[cfg(test)]\n#[macro_use]\nextern crate std;\n",
        ),
    };
    assert_eq!(explore(&bitflags_file), Ok(Exploration::NoStd));
}

#[test]
fn verdict_follows_the_table() {
    for flag in [false, true] {
        assert_eq!(verdict(Ok(Exploration::NoStd), flag), DependencyCheckResult::Compatible);
        assert_eq!(verdict(Ok(Exploration::Std), flag), DependencyCheckResult::IsPurelyStd);
        assert_eq!(verdict(Err(ParseFailure::SourceRead), flag), DependencyCheckResult::Unknown);
        assert_eq!(verdict(Err(ParseFailure::SourceParse), flag), DependencyCheckResult::Unknown);
    }
    assert_eq!(verdict(Ok(Exploration::Conditional), false), DependencyCheckResult::Compatible);
    assert_eq!(
        verdict(Ok(Exploration::Conditional), true),
        DependencyCheckResult::IsConditionallyNoStdButStdIsActivated
    );
}

#[test]
fn no_std_and_std_dependencies_get_their_verdicts() {
    let member = node("m", "[dependencies]\na = \"1\"\nb = \"1\"\n", &[]);
    let graph = ResolvedGraph {
        members: vec![member],
        packages: vec![node("a", "", &[]), node("b", "", &[])],
    };
    let sources = vec![source("a", Some(NO_STD)), source("b", Some(STD))];
    assert_eq!(
        check(&graph, &sources),
        vec![
            checked("a", DependencyCheckResult::Compatible),
            checked("b", DependencyCheckResult::IsPurelyStd),
        ]
    );
}

#[test]
fn optional_dependency_gets_no_verdict() {
    let member = node("m", "[dependencies]\nc = { version = \"1\", optional = true }\n", &[]);
    let graph = ResolvedGraph { members: vec![member], packages: vec![node("c", "", &[])] };
    let sources = vec![source("c", Some(STD))];
    assert_eq!(check(&graph, &sources), vec![]);
}

#[test]
fn conditional_dependency_with_std_activated_is_reported() {
    let member = node("m", "[dependencies]\nd = \"1\"\nquiet = \"1\"\n", &[]);
    let graph = ResolvedGraph {
        members: vec![member],
        packages: vec![node("d", "", &["std"]), node("quiet", "", &["alloc"])],
    };
    let sources = vec![source("quiet", Some(CONDITIONAL)), source("d", Some(CONDITIONAL))];
    assert_eq!(
        check(&graph, &sources),
        vec![
            checked("d", DependencyCheckResult::IsConditionallyNoStdButStdIsActivated),
            checked("quiet", DependencyCheckResult::Compatible),
        ]
    );
}

#[test]
fn proc_macro_dependency_and_its_dependencies_get_no_verdict() {
    let member = node("m", "[dependencies]\ne = \"1\"\n", &[]);
    let graph = ResolvedGraph {
        members: vec![member],
        packages: vec![
            node("e", "[lib]\nproc-macro = true\n[dependencies]\ninner = \"1\"\n", &[]),
            node("inner", "", &[]),
        ],
    };
    let sources = vec![source("e", Some(STD)), source("inner", Some(STD))];
    assert_eq!(check(&graph, &sources), vec![]);
}

#[test]
fn gated_dependency_gets_no_verdict() {
    let member = node(
        "m",
        "[dependencies]\nheavy = \"1\"\nlight = \"1\"\n[features]\nstd = [\"heavy\"]\n",
        &[],
    );
    let graph = ResolvedGraph {
        members: vec![member],
        packages: vec![node("heavy", "", &[]), node("light", "", &[])],
    };
    let sources = vec![source("heavy", Some(STD)), source("light", Some(NO_STD))];
    assert_eq!(check(&graph, &sources), vec![checked("light", DependencyCheckResult::Compatible)]);
}

#[test]
fn file_that_cannot_be_classified_is_unknown() {
    let deps = vec![target("gone", false), target("unread", true), target("broken", false)];
    let sources = vec![source("unread", None), source("broken", Some("fn {"))];
    assert_eq!(
        check_dependencies(&deps, &sources),
        vec![
            checked("gone", DependencyCheckResult::Unknown),
            checked("unread", DependencyCheckResult::Unknown),
            checked("broken", DependencyCheckResult::Unknown),
        ]
    );
}

#[test]
fn first_file_with_the_path_is_taken() {
    let deps = vec![target("a", false)];
    let sources = vec![source("b", Some(STD)), source("a", Some(NO_STD)), source("a", Some(STD))];
    assert_eq!(
        check_dependencies(&deps, &sources),
        vec![checked("a", DependencyCheckResult::Compatible)]
    );
}

#[test]
fn checks_keep_the_order_of_the_dependencies() {
    let deps = vec![target("b", true), target("a", true), target("b", false)];
    let sources = vec![source("a", Some(NO_STD)), source("b", Some(CONDITIONAL))];
    assert_eq!(
        check_dependencies(&deps, &sources),
        vec![
            checked("b", DependencyCheckResult::IsConditionallyNoStdButStdIsActivated),
            checked("a", DependencyCheckResult::Compatible),
            checked("b", DependencyCheckResult::Compatible),
        ]
    );
    assert_eq!(check_dependencies(&[], &sources), vec![]);
}

#[test]
fn run_fails_only_by_the_two_std_verdicts() {
    assert!(DependencyCheckResult::IsPurelyStd.is_failure());
    assert!(DependencyCheckResult::IsConditionallyNoStdButStdIsActivated.is_failure());
    assert!(!DependencyCheckResult::Compatible.is_failure());
    assert!(!DependencyCheckResult::Unknown.is_failure());
    assert!(!has_failure(&[]));
    assert!(!has_failure(&[
        checked("a", DependencyCheckResult::Compatible),
        checked("b", DependencyCheckResult::Unknown),
    ]));
    assert!(has_failure(&[
        checked("a", DependencyCheckResult::Unknown),
        checked("b", DependencyCheckResult::IsPurelyStd),
    ]));
    assert!(has_failure(&[checked(
        "a",
        DependencyCheckResult::IsConditionallyNoStdButStdIsActivated
    )]));
}

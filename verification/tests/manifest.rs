use nostd_check::graph::{Dependency, Feature};
use nostd_check::manifest::{is_proc_macro, manifest_from_value, toml_from_file, ManifestError};

const MANIFEST: &str = r#"
[package]
name = "demo"
version = "0.1.0"

[lib]
proc-macro = false

[dependencies]
alpha = "1.0"
beta = { version = "0.2", optional = true }
gamma = { version = "0.3", package = "gamma-core" }
delta = { path = "../delta", optional = false }

[dev-dependencies]
epsilon = "1"

[features]
default = ["std"]
std = ["alpha", "beta/std", 3]
nightly = []
docs = "yes"
"#;

fn dependency(key: &str, package: Option<&str>, optional: bool) -> Dependency {
    Dependency { key: key.to_string(), package: package.map(|p| p.to_string()), optional }
}

#[test]
fn manifest_holds_the_dependency_table() {
    let manifest = toml_from_file(MANIFEST).unwrap();
    assert_eq!(
        manifest.dependencies,
        vec![
            dependency("alpha", None, false),
            dependency("beta", None, true),
            dependency("delta", None, false),
            dependency("gamma", Some("gamma-core"), false),
        ]
    );
}

#[test]
fn manifest_holds_the_features_that_are_arrays() {
    let manifest = toml_from_file(MANIFEST).unwrap();
    assert_eq!(
        manifest.features,
        vec![
            Feature { name: "default".to_string(), gated: vec!["std".to_string()] },
            Feature { name: "nightly".to_string(), gated: vec![] },
            Feature {
                name: "std".to_string(),
                gated: vec!["alpha".to_string(), "beta/std".to_string()],
            },
        ]
    );
    assert!(!manifest.proc_macro);
}

#[test]
fn manifest_without_tables_is_empty() {
    let manifest = toml_from_file("[package]\nname = \"bare\"\n").unwrap();
    assert!(manifest.dependencies.is_empty());
    assert!(manifest.features.is_empty());
    assert!(!manifest.proc_macro);
    let manifest = toml_from_file("").unwrap();
    assert!(manifest.dependencies.is_empty());
}

#[test]
fn tables_of_another_kind_are_passed_over() {
    let manifest = toml_from_file("dependencies = 3\nfeatures = [\"std\"]\nlib = true\n").unwrap();
    assert!(manifest.dependencies.is_empty());
    assert!(manifest.features.is_empty());
    assert!(!manifest.proc_macro);
}

#[test]
fn text_that_is_no_document_is_refused() {
    assert_eq!(toml_from_file("[dependencies\nalpha = 1"), Err(ManifestError::ManifestParse));
    assert_eq!(toml_from_file("a = "), Err(ManifestError::ManifestParse));
}

#[test]
fn proc_macro_flag_is_read_from_the_lib_table() {
    let yes: toml::Value = "[lib]\nproc-macro = true\n".parse().unwrap();
    assert!(is_proc_macro(&yes));
    assert!(manifest_from_value(&yes).proc_macro);
    assert!(toml_from_file("[lib]\nproc-macro = true\n").unwrap().proc_macro);
    let no: toml::Value = "[lib]\nproc-macro = false\n".parse().unwrap();
    assert!(!is_proc_macro(&no));
    let text: toml::Value = "[lib]\nproc-macro = \"true\"\n".parse().unwrap();
    assert!(!is_proc_macro(&text));
    let other_table: toml::Value = "[package]\nproc-macro = true\n".parse().unwrap();
    assert!(!is_proc_macro(&other_table));
    let no_flag: toml::Value = "[lib]\nname = \"x\"\n".parse().unwrap();
    assert!(!is_proc_macro(&no_flag));
}

#[test]
fn package_and_optional_of_another_kind_are_passed_over() {
    let manifest =
        toml_from_file("[dependencies]\na = { package = 3, optional = \"true\" }\n").unwrap();
    assert_eq!(manifest.dependencies, vec![dependency("a", None, false)]);
}

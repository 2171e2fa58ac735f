//! Package manifests: what is taken from the `toml` parser, and what the
//! closure builder reads of a parsed manifest.

use crate::graph::{Dependency, DependencyView, Feature, FeatureView, Manifest, ManifestView};
use crate::names::views;
use vstd::prelude::*;

verus! {

/// `toml::Value`, a parsed TOML value, of which the library sees only what
/// the functions below say.
#[verifier::external_type_specification]
#[verifier::external_body]
pub struct ExValue(toml::Value);

/// `toml::de::Error`, the parser's error.
#[verifier::external_type_specification]
#[verifier::external_body]
pub struct ExDocumentError(toml::de::Error);

/// The value of a TOML document, where the text is one.
pub uninterp spec fn toml_document(text: Seq<char>) -> Option<toml::Value>;

/// The value under `key` in a table; nothing in a value that is no table or
/// in a table without the key.
pub uninterp spec fn value_entry(value: toml::Value, key: Seq<char>) -> Option<toml::Value>;

/// The boolean that a value is, where it is one.
pub uninterp spec fn value_bool(value: toml::Value) -> Option<bool>;

/// The string that a value is, where it is one.
pub uninterp spec fn value_str(value: toml::Value) -> Option<Seq<char>>;

/// The items of an array, where the value is one.
pub uninterp spec fn value_array(value: toml::Value) -> Option<Seq<toml::Value>>;

/// The entries of a table in the order in which the table gives them, where
/// the value is a table.
pub uninterp spec fn value_table(value: toml::Value) -> Option<Seq<(String, toml::Value)>>;

/// Calls `toml::from_str` for a `toml::Value`. Taken on trust: what comes
/// back depends on the text alone, the value of the document or, where the
/// text is no TOML document, an error.
#[verifier::external_body]
fn parse_document(text: &str) -> (r: Result<toml::Value, toml::de::Error>)
    ensures
        match r {
            Ok(value) => toml_document(text@) == Some(value),
            Err(_) => toml_document(text@).is_none(),
        },
{
    toml::from_str(text)
}

/// Calls `toml::Value::get` with a string key. Taken on trust: what comes
/// back depends on the value and the key alone. It is the value under the
/// key in a table that has the key, and nothing otherwise.
#[verifier::external_body]
fn value_get<'a>(value: &'a toml::Value, key: &str) -> (r: Option<&'a toml::Value>)
    ensures
        match r {
            Some(found) => value_entry(*value, key@) == Some(*found),
            None => value_entry(*value, key@).is_none(),
        },
{
    value.get(key)
}

/// Calls `toml::Value::as_bool`. Taken on trust: what comes back depends on
/// the value alone. It is the boolean that the value is, if it is one.
#[verifier::external_body]
fn value_as_bool(value: &toml::Value) -> (r: Option<bool>)
    ensures
        r == value_bool(*value),
{
    value.as_bool()
}

/// Calls `toml::Value::as_str`. Taken on trust: what comes back depends on
/// the value alone. It is the string that the value is, if it is one.
#[verifier::external_body]
fn value_as_str(value: &toml::Value) -> (r: Option<&str>)
    ensures
        match r {
            Some(s) => value_str(*value) == Some(s@),
            None => value_str(*value).is_none(),
        },
{
    value.as_str()
}

/// Calls `toml::Value::as_array`. Taken on trust: what comes back depends
/// on the value alone. It is the items of the array, if the value is one.
#[verifier::external_body]
fn value_as_array(value: &toml::Value) -> (r: Option<&Vec<toml::Value>>)
    ensures
        match r {
            Some(items) => value_array(*value) == Some(items@),
            None => value_array(*value).is_none(),
        },
{
    value.as_array()
}

/// Calls `toml::Value::as_table` and copies the entries that
/// `toml::map::Map::iter` gives, in its order. Taken on trust: what comes
/// back depends on the value alone. It is the entries of the table, if the
/// value is one.
#[verifier::external_body]
fn value_entries(value: &toml::Value) -> (r: Option<Vec<(String, toml::Value)>>)
    ensures
        match r {
            Some(entries) => value_table(*value) == Some(entries@),
            None => value_table(*value).is_none(),
        },
{
    value.as_table().map(|table| table.iter().map(|(k, v)| (k.clone(), v.clone())).collect())
}

/// Why a manifest could not be had.
#[derive(Debug, Clone, Copy, PartialEq, Eq, Structural)]
pub enum ManifestError {
    /// The text is no TOML document.
    ManifestParse,
}

/// Whether the value under `key` is the boolean `true`.
pub open spec fn entry_is_true(value: toml::Value, key: Seq<char>) -> bool {
    match value_entry(value, key) {
        Some(found) => value_bool(found) == Some(true),
        None => false,
    }
}

/// Whether the manifest declares its library a proc-macro: `proc-macro` is
/// `true` in the table `lib`.
pub open spec fn declares_proc_macro(manifest: toml::Value) -> bool {
    match value_entry(manifest, "lib"@) {
        Some(lib) => entry_is_true(lib, "proc-macro"@),
        None => false,
    }
}

/// The entries of the table under `key`; none where there is no such table.
pub open spec fn table_under(value: toml::Value, key: Seq<char>) -> Seq<(String, toml::Value)> {
    match value_entry(value, key) {
        Some(found) => match value_table(found) {
            Some(entries) => entries,
            None => Seq::empty(),
        },
        None => Seq::empty(),
    }
}

/// The dependency that an entry of the table `dependencies` declares: it
/// names a package where `package` is a string, and is optional where
/// `optional` is `true`.
pub open spec fn dependency_of(entry: (String, toml::Value)) -> DependencyView {
    DependencyView {
        key: entry.0@,
        package: match value_entry(entry.1, "package"@) {
            Some(package) => value_str(package),
            None => None,
        },
        optional: entry_is_true(entry.1, "optional"@),
    }
}

/// The strings among the items, in order.
pub open spec fn strings_of(items: Seq<toml::Value>) -> Seq<Seq<char>>
    decreases items.len(),
{
    if items.len() == 0 {
        Seq::empty()
    } else {
        let rest = strings_of(items.drop_last());
        match value_str(items.last()) {
            Some(s) => rest.push(s),
            None => rest,
        }
    }
}

/// The features that the entries of the table `features` declare: one for
/// each entry that is an array, with the strings of the array.
pub open spec fn features_of(entries: Seq<(String, toml::Value)>) -> Seq<FeatureView>
    decreases entries.len(),
{
    if entries.len() == 0 {
        Seq::empty()
    } else {
        let rest = features_of(entries.drop_last());
        match value_array(entries.last().1) {
            Some(items) => rest.push(
                FeatureView { name: entries.last().0@, gated: strings_of(items) },
            ),
            None => rest,
        }
    }
}

/// What the closure builder reads of a parsed manifest.
pub open spec fn manifest_of(manifest: toml::Value) -> ManifestView {
    ManifestView {
        dependencies: table_under(manifest, "dependencies"@).map_values(
            |entry: (String, toml::Value)| dependency_of(entry),
        ),
        features: features_of(table_under(manifest, "features"@)),
        proc_macro: declares_proc_macro(manifest),
    }
}

/// Whether the value under `key` is the boolean `true`.
fn is_true_under(value: &toml::Value, key: &str) -> (r: bool)
    ensures
        r == entry_is_true(*value, key@),
{
    match value_get(value, key) {
        Some(found) => match value_as_bool(found) {
            Some(b) => b,
            None => false,
        },
        None => false,
    }
}

/// Whether the manifest declares its library a proc-macro.
pub fn is_proc_macro(manifest: &toml::Value) -> (r: bool)
    ensures
        r == declares_proc_macro(*manifest),
{
    match value_get(manifest, "lib") {
        Some(lib) => is_true_under(lib, "proc-macro"),
        None => false,
    }
}

/// The entries of the table under `key`.
fn entries_under(value: &toml::Value, key: &str) -> (r: Vec<(String, toml::Value)>)
    ensures
        r@ == table_under(*value, key@),
{
    match value_get(value, key) {
        Some(found) => match value_entries(found) {
            Some(entries) => entries,
            None => Vec::new(),
        },
        None => Vec::new(),
    }
}

/// The dependency table of the manifest.
fn dependencies(manifest: &toml::Value) -> (r: Vec<Dependency>)
    ensures
        r@.map_values(|d: Dependency| d@) == manifest_of(*manifest).dependencies,
{
    let entries = entries_under(manifest, "dependencies");
    let mut result: Vec<Dependency> = Vec::new();
    let mut i: usize = 0;
    while i < entries.len()
        invariant
            i <= entries.len(),
            result.len() == i,
            forall|k: int| 0 <= k < i ==> (#[trigger] result[k])@ == dependency_of(entries[k]),
        decreases entries.len() - i,
    {
        let entry = &entries[i];
        let package = match value_get(&entry.1, "package") {
            Some(found) => match value_as_str(found) {
                Some(s) => Some(s.to_owned()),
                None => None,
            },
            None => None,
        };
        let dependency = Dependency {
            key: entry.0.clone(),
            package,
            optional: is_true_under(&entry.1, "optional"),
        };
        assert(dependency@ == dependency_of(*entry));
        result.push(dependency);
        i += 1;
    }
    assert(result@.map_values(|d: Dependency| d@) =~= entries@.map_values(
        |entry: (String, toml::Value)| dependency_of(entry),
    ));
    result
}

/// The strings among the items of an array.
fn strings(items: &Vec<toml::Value>) -> (r: Vec<String>)
    ensures
        views(r@) == strings_of(items@),
{
    let mut result: Vec<String> = Vec::new();
    let mut i: usize = 0;
    assert(views(result@) =~= strings_of(items@.take(0)));
    while i < items.len()
        invariant
            i <= items.len(),
            views(result@) == strings_of(items@.take(i as int)),
        decreases items.len() - i,
    {
        let ghost before = views(result@);
        proof {
            assert(items@.take(i + 1).drop_last() =~= items@.take(i as int));
            assert(items@.take(i + 1).last() == items[i as int]);
        }
        match value_as_str(&items[i]) {
            Some(s) => {
                result.push(s.to_owned());
                assert(views(result@) =~= before.push(s@));
            },
            None => {},
        }
        i += 1;
    }
    assert(items@.take(i as int) =~= items@);
    result
}

/// The feature table of the manifest.
fn features(manifest: &toml::Value) -> (r: Vec<Feature>)
    ensures
        r@.map_values(|f: Feature| f@) == manifest_of(*manifest).features,
{
    let entries = entries_under(manifest, "features");
    let mut result: Vec<Feature> = Vec::new();
    let mut i: usize = 0;
    assert(result@.map_values(|f: Feature| f@) =~= features_of(entries@.take(0)));
    while i < entries.len()
        invariant
            i <= entries.len(),
            result@.map_values(|f: Feature| f@) == features_of(entries@.take(i as int)),
        decreases entries.len() - i,
    {
        let ghost before = result@.map_values(|f: Feature| f@);
        let entry = &entries[i];
        proof {
            assert(entries@.take(i + 1).drop_last() =~= entries@.take(i as int));
            assert(entries@.take(i + 1).last() == *entry);
        }
        match value_as_array(&entry.1) {
            Some(items) => {
                let feature = Feature { name: entry.0.clone(), gated: strings(items) };
                result.push(feature);
                assert(result@.map_values(|f: Feature| f@) =~= before.push(
                    FeatureView { name: entry.0@, gated: strings_of(items@) },
                ));
            },
            None => {},
        }
        i += 1;
    }
    assert(entries@.take(i as int) =~= entries@);
    result
}

/// What the closure builder reads of a parsed manifest: its dependency
/// table, its feature table, and whether its library is a proc-macro.
pub fn manifest_from_value(manifest: &toml::Value) -> (r: Manifest)
    ensures
        r@ == manifest_of(*manifest),
{
    let r = Manifest {
        dependencies: dependencies(manifest),
        features: features(manifest),
        proc_macro: is_proc_macro(manifest),
    };
    assert(r@.dependencies =~= manifest_of(*manifest).dependencies);
    assert(r@.features =~= manifest_of(*manifest).features);
    r
}

/// The manifest that the text of a manifest file holds. The text is parsed
/// as a TOML document; a text that is none is refused.
pub fn toml_from_file(contents: &str) -> (r: Result<Manifest, ManifestError>)
    ensures
        match r {
            Ok(manifest) => toml_document(contents@) matches Some(value) && manifest@
                == manifest_of(value),
            Err(error) => error == ManifestError::ManifestParse && toml_document(
                contents@,
            ).is_none(),
        },
{
    match parse_document(contents) {
        Ok(value) => Ok(manifest_from_value(&value)),
        Err(_) => Err(ManifestError::ManifestParse),
    }
}

} // verus!

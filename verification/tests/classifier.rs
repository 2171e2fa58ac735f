use nostd_check::source::{
    classify, flatten, is_conditional, is_no_std, path_or_unnamed, MetaItem, MetaNestedIterator,
    NestedItem,
};
use nostd_check::syntax::{inner_attributes, meta_model, ParsedAttribute};
use nostd_check::{explore, Exploration, ParseFailure, SourceFile};

fn parse(text: &str) -> Result<Vec<ParsedAttribute>, ParseFailure> {
    match syn::parse_file(text) {
        Ok(parsed) => Ok(parsed
            .attrs
            .into_iter()
            .map(|attribute| {
                let meta = attribute.parse_meta().ok();
                ParsedAttribute { attribute, meta }
            })
            .collect()),
        Err(_) => Err(ParseFailure::SourceParse),
    }
}

fn file(text: &str) -> SourceFile {
    SourceFile { path: "src/lib.rs".to_string(), parsed: parse(text) }
}

fn path(name: &str) -> MetaItem {
    MetaItem::Path(Some(name.to_string()))
}

fn canonical_item() -> MetaItem {
    MetaItem::List(
        Some("cfg_attr".to_string()),
        vec![
            NestedItem::Item(MetaItem::List(
                Some("not".to_string()),
                vec![NestedItem::Item(MetaItem::NameValue(
                    Some("feature".to_string()),
                    "\"std\"".to_string(),
                ))],
            )),
            NestedItem::Item(path("no_std")),
        ],
    )
}

#[test]
fn trivia() {
    assert_eq!(explore(&file("//! A crate.\n#![no_std]\n\npub fn f() {}\n")), Ok(Exploration::NoStd));
    assert_eq!(
        explore(&file(
            "#![cfg_attr(not(feature = \"std\"), no_std)]\n\npub fn f() {}\n"
        )),
        Ok(Exploration::Conditional)
    );
    assert_eq!(explore(&file("pub fn f() {}\n\nfn main() {}\n")), Ok(Exploration::Std));
}

#[test]
fn unconditional_attribute_is_no_std() {
    assert_eq!(explore(&file("#![no_std]")), Ok(Exploration::NoStd));
}

#[test]
fn canonical_cfg_attr_is_conditional() {
    assert_eq!(
        explore(&file("#![cfg_attr(not(feature = \"std\"), no_std)]")),
        Ok(Exploration::Conditional)
    );
}

#[test]
fn other_cfg_attr_shape_is_std() {
    assert_eq!(
        explore(&file("#![cfg_attr(feature = \"nightly\", no_std)]")),
        Ok(Exploration::Std)
    );
}

#[test]
fn no_inner_attributes_is_std() {
    assert_eq!(explore(&file("")), Ok(Exploration::Std));
    assert_eq!(explore(&file("#[derive(Debug)]\npub struct S;\n")), Ok(Exploration::Std));
}

#[test]
fn unreadable_file_is_a_failure() {
    let unreadable =
        SourceFile { path: "src/lib.rs".to_string(), parsed: Err(ParseFailure::SourceRead) };
    assert_eq!(explore(&unreadable), Err(ParseFailure::SourceRead));
}

#[test]
fn invalid_text_is_a_failure() {
    assert_eq!(explore(&file("fn {")), Err(ParseFailure::SourceParse));
    assert_eq!(explore(&file("#![no_std")), Err(ParseFailure::SourceParse));
}

#[test]
fn mismatched_cfg_attr_does_not_stop_the_scan() {
    let text = "#![cfg_attr(feature = \"nightly\", feature(test))]\n#![no_std]\n";
    assert_eq!(explore(&file(text)), Ok(Exploration::NoStd));
    let text = "#![cfg_attr(test, deny(warnings))]\n#![cfg_attr(not(feature = \"std\"), no_std)]\n";
    assert_eq!(explore(&file(text)), Ok(Exploration::Conditional));
}

#[test]
fn first_match_decides() {
    let text = "#![cfg_attr(not(feature = \"std\"), no_std)]\n#![no_std]\n";
    assert_eq!(explore(&file(text)), Ok(Exploration::Conditional));
    let text = "#![no_std]\n#![cfg_attr(not(feature = \"std\"), no_std)]\n";
    assert_eq!(explore(&file(text)), Ok(Exploration::NoStd));
}

#[test]
fn other_attributes_are_ignored() {
    let text = "#![allow(dead_code)]\n#![doc = \"text\"]\n#![deny(missing_docs)]\n";
    assert_eq!(explore(&file(text)), Ok(Exploration::Std));
}

#[test]
fn no_std_must_be_a_bare_path() {
    assert_eq!(explore(&file("#![no_std(always)]")), Ok(Exploration::Std));
    assert_eq!(explore(&file("#![no_std = \"yes\"]")), Ok(Exploration::Std));
}

#[test]
fn attribute_that_is_no_meta_item_is_passed_over() {
    let text = "#![feature(a b c)]\n#![no_std]\n";
    assert_eq!(explore(&file(text)), Ok(Exploration::NoStd));
    let items = inner_attributes(&parse("#![feature(a b c)]\n").unwrap());
    assert!(items.is_empty());
}

#[test]
fn feature_value_other_than_std_is_std() {
    assert_eq!(
        explore(&file("#![cfg_attr(not(feature = \"alloc\"), no_std)]")),
        Ok(Exploration::Std)
    );
    assert_eq!(
        explore(&file("#![cfg_attr(not(feature = \"std\"), no_std, feature(x))]")),
        Ok(Exploration::Std)
    );
}

#[test]
fn parser_gives_the_items_of_the_inner_attributes() {
    let parsed =
        parse("#![no_std]\n#![cfg_attr(not(feature = \"std\"), no_std)]\nfn f() {}").unwrap();
    assert_eq!(inner_attributes(&parsed), vec![path("no_std"), canonical_item()]);
}

#[test]
fn parser_marks_literals_and_long_paths() {
    let items = inner_attributes(&parse("#![a::b(\"lit\", c, d = 1)]").unwrap());
    assert_eq!(
        items,
        vec![MetaItem::List(
            None,
            vec![
                NestedItem::Literal,
                NestedItem::Item(path("c")),
                NestedItem::Item(MetaItem::NameValue(Some("d".to_string()), "1".to_string())),
            ],
        )]
    );
}

#[test]
fn outer_attributes_give_no_items() {
    let inner: syn::Attribute = syn::parse_file("#![no_std]").unwrap().attrs.remove(0);
    let mut outer = inner.clone();
    outer.style = syn::AttrStyle::Outer;
    let meta = inner.parse_meta().ok();
    let parsed = vec![
        ParsedAttribute { attribute: outer, meta: meta.clone() },
        ParsedAttribute { attribute: inner.clone(), meta: None },
    ];
    assert!(inner_attributes(&parsed).is_empty());
    let outer_only = SourceFile { path: "src/lib.rs".to_string(), parsed: Ok(parsed) };
    assert_eq!(explore(&outer_only), Ok(Exploration::Std));
    let parsed = vec![ParsedAttribute { attribute: inner, meta }];
    assert_eq!(inner_attributes(&parsed), vec![path("no_std")]);
}

#[test]
fn meta_item_is_converted_with_its_nested_items() {
    let attribute = syn::parse_file("#![cfg_attr(not(feature = \"std\"), no_std)]")
        .unwrap()
        .attrs
        .remove(0);
    let meta = attribute.parse_meta().unwrap();
    assert_eq!(meta_model(&meta), canonical_item());
}

#[test]
fn canonical_item_flattens_to_the_canonical_tokens() {
    assert_eq!(flatten(&canonical_item()), vec!["cfg_attr", "not", "no_std", "feature=\"std\""]);
    assert!(is_conditional(&canonical_item()));
}

#[test]
fn flattening_is_breadth_first() {
    let item = MetaItem::List(
        Some("a".to_string()),
        vec![
            NestedItem::Item(MetaItem::List(
                Some("b".to_string()),
                vec![NestedItem::Item(path("d")), NestedItem::Literal, NestedItem::Item(path("e"))],
            )),
            NestedItem::Literal,
            NestedItem::Item(MetaItem::List(
                Some("c".to_string()),
                vec![NestedItem::Item(MetaItem::NameValue(None, "2".to_string()))],
            )),
        ],
    );
    assert_eq!(flatten(&item), vec!["a", "b", "c", "d", "e", "unnamed=2"]);
}

#[test]
fn flattening_a_leaf_gives_one_token() {
    assert_eq!(flatten(&path("no_std")), vec!["no_std"]);
    assert_eq!(flatten(&MetaItem::Path(None)), vec!["unnamed"]);
    assert_eq!(
        flatten(&MetaItem::NameValue(Some("feature".to_string()), "\"std\"".to_string())),
        vec!["feature=\"std\""]
    );
}

#[test]
fn iterator_schedules_children_behind_the_waiting_items() {
    let item = canonical_item();
    let mut walk = MetaNestedIterator::new(&item);
    assert_eq!(walk.next(), Some("cfg_attr".to_string()));
    assert_eq!(walk.next(), Some("not".to_string()));
    assert_eq!(walk.next(), Some("no_std".to_string()));
    assert_eq!(walk.next(), Some("feature=\"std\"".to_string()));
    assert_eq!(walk.next(), None);
    assert_eq!(walk.next(), None);
}

#[test]
fn path_without_identifier_is_unnamed() {
    assert_eq!(path_or_unnamed(&None), "unnamed");
    assert_eq!(path_or_unnamed(&Some("cfg_attr".to_string())), "cfg_attr");
}

#[test]
fn same_tokens_in_another_nesting_match_too() {
    let item = MetaItem::List(
        Some("cfg_attr".to_string()),
        vec![
            NestedItem::Item(path("not")),
            NestedItem::Item(MetaItem::List(
                Some("no_std".to_string()),
                vec![NestedItem::Item(MetaItem::NameValue(
                    Some("feature".to_string()),
                    "\"std\"".to_string(),
                ))],
            )),
        ],
    );
    assert!(is_conditional(&item));
    assert_eq!(classify(&vec![item]), Exploration::Conditional);
}

#[test]
fn items_that_are_neither_are_recognised_as_such() {
    assert!(is_no_std(&path("no_std")));
    assert!(!is_no_std(&path("no_core")));
    assert!(!is_no_std(&MetaItem::Path(None)));
    assert!(!is_no_std(&MetaItem::List(Some("no_std".to_string()), vec![])));
    assert!(!is_conditional(&path("cfg_attr")));
    assert!(!is_conditional(&MetaItem::List(Some("cfg_attr".to_string()), vec![])));
    assert!(!is_conditional(&MetaItem::List(None, vec![])));
    assert_eq!(classify(&vec![]), Exploration::Std);
    assert_eq!(classify(&vec![path("allow"), path("no_std")]), Exploration::NoStd);
}

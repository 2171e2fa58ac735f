//! The attributes that the syntax parser gives: what is taken from `syn`,
//! and the conversion of its meta items into the library's own. The parser
//! itself is not called here: it panics on literal tokens that it does not
//! know, so the caller runs it and hands over what it gave.

use crate::source::{ident_view, lemma_list_view, MetaItem, MetaView, NestedItem, NestedView};
use quote::ToTokens;
use vstd::prelude::*;

verus! {

/// `syn::Attribute`, an attribute as the parser gives it.
#[verifier::external_type_specification]
#[verifier::external_body]
pub struct ExAttribute(syn::Attribute);

/// `syn::Meta`, a meta item as the parser gives it.
#[verifier::external_type_specification]
#[verifier::external_body]
pub struct ExMeta(syn::Meta);

/// Whether an attribute is written with `#!`.
pub uninterp spec fn is_inner(attribute: syn::Attribute) -> bool;

/// What a meta item holds.
pub uninterp spec fn meta_shape(meta: syn::Meta) -> MetaView;

/// The identifier of the path of a meta item.
pub open spec fn shape_ident(shape: MetaView) -> Option<Seq<char>> {
    match shape {
        MetaView::Path(ident) => ident,
        MetaView::List(ident, _) => ident,
        MetaView::NameValue(ident, _) => ident,
    }
}

/// What each item of a list holds: a meta item, or a literal where there is
/// none.
pub open spec fn nested_shapes(items: Seq<Option<syn::Meta>>) -> Seq<NestedView> {
    Seq::new(
        items.len(),
        |i: int|
            match items[i] {
                Some(meta) => NestedView::Item(meta_shape(meta)),
                None => NestedView::Literal,
            },
    )
}

/// Reads the `style` of a `syn::Attribute`. Taken on trust: whether the
/// style is `syn::AttrStyle::Inner` depends on the attribute alone.
#[verifier::external_body]
fn attribute_is_inner(attribute: &syn::Attribute) -> (r: bool)
    ensures
        r == is_inner(*attribute),
{
    matches!(attribute.style, syn::AttrStyle::Inner(_))
}

/// Calls `syn::Path::get_ident` on `syn::Meta::path` and prints the
/// identifier. Taken on trust: this is the identifier that the item's
/// shape holds, there where the path is a single identifier and nowhere
/// else.
#[verifier::external_body]
fn meta_ident(meta: &syn::Meta) -> (r: Option<String>)
    ensures
        ident_view(r) == shape_ident(meta_shape(*meta)),
{
    meta.path().get_ident().map(|ident| ident.to_string())
}

/// Copies the `nested` items of a `syn::Meta::List`, in order: the meta
/// item of a `syn::NestedMeta::Meta`, nothing for a `syn::NestedMeta::Lit`.
/// Taken on trust: the item's shape is a list exactly where something comes
/// back, and its items have the shapes of what comes back.
#[verifier::external_body]
fn meta_nested(meta: &syn::Meta) -> (r: Option<Vec<Option<syn::Meta>>>)
    ensures
        match r {
            Some(items) => meta_shape(*meta) matches MetaView::List(_, nested) && nested
                == nested_shapes(items@),
            None => !(meta_shape(*meta) is List),
        },
{
    match meta {
        syn::Meta::List(list) => Some(
            list.nested.iter().map(
                |item|
                    match item {
                        syn::NestedMeta::Meta(inner) => Some(inner.clone()),
                        syn::NestedMeta::Lit(_) => None,
                    },
            ).collect(),
        ),
        _ => None,
    }
}

/// Prints the `lit` of a `syn::Meta::NameValue` with
/// `quote::ToTokens::to_token_stream`. Taken on trust: the item's shape is a
/// name-value pair exactly where something comes back, and holds the
/// literal as it was printed.
#[verifier::external_body]
fn meta_literal(meta: &syn::Meta) -> (r: Option<String>)
    ensures
        match r {
            Some(text) => meta_shape(*meta) matches MetaView::NameValue(_, literal) && literal
                == text@,
            None => !(meta_shape(*meta) is NameValue),
        },
{
    match meta {
        syn::Meta::NameValue(pair) => Some(pair.lit.to_token_stream().to_string()),
        _ => None,
    }
}

/// The library's own value for a meta item of the parser.
pub fn meta_model(meta: &syn::Meta) -> (r: MetaItem)
    ensures
        r@ == meta_shape(*meta),
    decreases meta_shape(*meta),
{
    let ident = meta_ident(meta);
    match meta_nested(meta) {
        Some(items) => {
            let mut nested: Vec<NestedItem> = Vec::new();
            let mut i: usize = 0;
            let ghost shapes = nested_shapes(items@);
            while i < items.len()
                invariant
                    i <= items.len(),
                    shapes == nested_shapes(items@),
                    meta_shape(*meta) matches MetaView::List(_, all) && all == shapes,
                    nested.len() == i,
                    forall|k: int| 0 <= k < i ==> (#[trigger] nested[k])@ == shapes[k],
                decreases items.len() - i,
            {
                match &items[i] {
                    Some(inner) => {
                        proof {
                            vstd::seq::axiom_seq_index_decreases(shapes, i as int);
                            assert(shapes[i as int] == NestedView::Item(meta_shape(*inner)));
                            assert(decreases_to!(meta_shape(*meta) => shapes));
                            assert(decreases_to!(shapes => shapes[i as int]));
                            let item = shapes[i as int];
                            assert(item is Item);
                            assert(decreases_to!(item => item->Item_0));
                            assert(item->Item_0 == meta_shape(*inner));
                        }
                        nested.push(NestedItem::Item(meta_model(inner)));
                    },
                    None => {
                        nested.push(NestedItem::Literal);
                    },
                }
                i += 1;
            }
            let r = MetaItem::List(ident, nested);
            assert(r@ == meta_shape(*meta)) by {
                lemma_list_view(ident, nested);
                assert forall|j: int| 0 <= j < nested.len() implies r@->List_1[j] == shapes[j] by {
                    assert(nested[j]@ == shapes[j]);
                }
                assert(r@->List_1 =~= shapes);
            }
            r
        },
        None => match meta_literal(meta) {
            Some(text) => MetaItem::NameValue(ident, text),
            None => MetaItem::Path(ident),
        },
    }
}

/// An attribute at the head of a source file as the parser gave it, and its
/// meta item where its tokens are those of one.
pub struct ParsedAttribute {
    /// The attribute.
    pub attribute: syn::Attribute,
    /// The meta item of the attribute; nothing where the parser found none.
    pub meta: Option<syn::Meta>,
}

/// The meta items of the inner attributes among `attributes`, in order; an
/// attribute that holds no meta item gives none.
pub open spec fn inner_items(attributes: Seq<ParsedAttribute>) -> Seq<MetaView>
    decreases attributes.len(),
{
    if attributes.len() == 0 {
        Seq::empty()
    } else {
        let rest = inner_items(attributes.drop_last());
        if is_inner(attributes.last().attribute) {
            match attributes.last().meta {
                Some(meta) => rest.push(meta_shape(meta)),
                None => rest,
            }
        } else {
            rest
        }
    }
}

/// The meta items of the inner attributes among `attributes`, in file
/// order. An attribute without a meta item is passed over.
pub fn inner_attributes(attributes: &Vec<ParsedAttribute>) -> (items: Vec<MetaItem>)
    ensures
        items@.map_values(|item: MetaItem| item@) == inner_items(attributes@),
{
    let mut items: Vec<MetaItem> = Vec::new();
    let mut i: usize = 0;
    assert(items@.map_values(|item: MetaItem| item@) =~= inner_items(attributes@.take(0)));
    while i < attributes.len()
        invariant
            i <= attributes.len(),
            items@.map_values(|item: MetaItem| item@) == inner_items(attributes@.take(i as int)),
        decreases attributes.len() - i,
    {
        let parsed = &attributes[i];
        let ghost before = items@.map_values(|item: MetaItem| item@);
        proof {
            assert(attributes@.take(i + 1).drop_last() =~= attributes@.take(i as int));
            assert(attributes@.take(i + 1).last() == *parsed);
        }
        if attribute_is_inner(&parsed.attribute) {
            match &parsed.meta {
                Some(meta) => {
                    let item = meta_model(meta);
                    items.push(item);
                    assert(items@.map_values(|item: MetaItem| item@) =~= before.push(
                        meta_shape(*meta),
                    ));
                },
                None => {},
            }
        }
        i += 1;
    }
    assert(attributes@.take(i as int) =~= attributes@);
    items
}

} // verus!

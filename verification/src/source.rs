//! Classification of a crate's entry file by its inner attributes.

use crate::names::views;
use crate::syntax::{inner_attributes, inner_items, ParsedAttribute};
use std::collections::VecDeque;
use vstd::prelude::*;
use vstd::string::StringExecFns;

verus! {

/// Result of exploring an entry file.
#[derive(Debug, Clone, Copy, PartialEq, Eq, Structural)]
pub enum Exploration {
    /// Source has an unconditional `#![no_std]`.
    NoStd,
    /// Source has the conditional form `#![cfg_attr(not(feature = "std"), no_std)]`.
    Conditional,
    /// No notion of no-std.
    Std,
}

/// Why an entry file could not be classified.
#[derive(Debug, Clone, Copy, PartialEq, Eq, Structural)]
pub enum ParseFailure {
    /// The file could not be opened or read.
    SourceRead,
    /// The text is not a syntactically valid source file.
    SourceParse,
}

/// A structured meta item of an attribute. The path of an item is given by
/// its identifier, where the path is a single identifier.
#[derive(Debug, PartialEq, Eq)]
pub enum MetaItem {
    /// A path alone, like `no_std`.
    Path(Option<String>),
    /// A path and a list of nested items, like `cfg_attr(..)`.
    List(Option<String>, Vec<NestedItem>),
    /// A path and a literal, like `feature = "std"`; the literal is held as
    /// it is written, a string with its quotes.
    NameValue(Option<String>, String),
}

/// An item of a list: a meta item or a literal.
#[derive(Debug, PartialEq, Eq)]
pub enum NestedItem {
    /// A nested meta item.
    Item(MetaItem),
    /// A literal; what it holds is not kept.
    Literal,
}

/// A meta item as contracts see it.
pub enum MetaView {
    Path(Option<Seq<char>>),
    List(Option<Seq<char>>, Seq<NestedView>),
    NameValue(Option<Seq<char>>, Seq<char>),
}

/// An item of a list as contracts see it.
pub enum NestedView {
    Item(MetaView),
    Literal,
}

/// The characters of an identifier, where there is one.
pub open spec fn ident_view(ident: Option<String>) -> Option<Seq<char>> {
    match ident {
        Some(s) => Some(s@),
        None => None,
    }
}

/// The view of a meta item.
pub open spec fn item_view(item: MetaItem) -> MetaView
    decreases item, 0nat,
{
    match item {
        MetaItem::Path(ident) => MetaView::Path(ident_view(ident)),
        MetaItem::List(ident, nested) => MetaView::List(
            ident_view(ident),
            nested_views(nested@, nested@.len()),
        ),
        MetaItem::NameValue(ident, literal) => MetaView::NameValue(ident_view(ident), literal@),
    }
}

/// The views of the first `n` items of a list.
pub open spec fn nested_views(nested: Seq<NestedItem>, n: nat) -> Seq<NestedView>
    decreases nested, n,
{
    if n == 0 || n > nested.len() {
        Seq::empty()
    } else {
        nested_views(nested, (n - 1) as nat).push(
            match nested[n - 1] {
                NestedItem::Item(item) => NestedView::Item(item_view(item)),
                NestedItem::Literal => NestedView::Literal,
            },
        )
    }
}

impl View for MetaItem {
    type V = MetaView;

    open spec fn view(&self) -> MetaView {
        item_view(*self)
    }
}

impl View for NestedItem {
    type V = NestedView;

    open spec fn view(&self) -> NestedView {
        match self {
            NestedItem::Item(item) => NestedView::Item(item_view(*item)),
            NestedItem::Literal => NestedView::Literal,
        }
    }
}

proof fn lemma_nested_views(nested: Seq<NestedItem>, n: nat)
    requires
        n <= nested.len(),
    ensures
        nested_views(nested, n).len() == n,
        forall|j: int| 0 <= j < n ==> nested_views(nested, n)[j] == (#[trigger] nested[j])@,
    decreases n,
{
    if n > 0 {
        lemma_nested_views(nested, (n - 1) as nat);
    }
}

/// What the view of a list is made of.
pub proof fn lemma_list_view(ident: Option<String>, nested: Vec<NestedItem>)
    ensures
        MetaItem::List(ident, nested)@ matches MetaView::List(name, shapes) && name == ident_view(
            ident,
        ) && shapes.len() == nested.len() && (forall|j: int|
            0 <= j < nested.len() ==> shapes[j] == (#[trigger] nested[j])@),
{
    lemma_nested_views(nested@, nested@.len());
}

/// The name that stands for a path: its identifier, or `unnamed` where the
/// path is not a single identifier.
pub open spec fn path_name(ident: Option<Seq<char>>) -> Seq<char> {
    match ident {
        Some(name) => name,
        None => "unnamed"@,
    }
}

/// The token that an item contributes: the name of its path and, for a
/// name-value pair, `=` and the literal after it.
pub open spec fn token(item: MetaView) -> Seq<char> {
    match item {
        MetaView::Path(ident) => path_name(ident),
        MetaView::List(ident, _) => path_name(ident),
        MetaView::NameValue(ident, literal) => path_name(ident) + "="@ + literal,
    }
}

/// The meta items among the items of a list, in order.
pub open spec fn nested_items(nested: Seq<NestedView>) -> Seq<MetaView>
    decreases nested.len(),
{
    if nested.len() == 0 {
        Seq::empty()
    } else {
        let rest = nested_items(nested.drop_last());
        match nested.last() {
            NestedView::Item(item) => rest.push(item),
            NestedView::Literal => rest,
        }
    }
}

/// The items that an item schedules: the meta items of a list, none else.
pub open spec fn children(item: MetaView) -> Seq<MetaView> {
    match item {
        MetaView::List(_, nested) => nested_items(nested),
        _ => Seq::empty(),
    }
}

/// The number of meta items in an item, itself included.
pub open spec fn size(item: MetaView) -> nat
    decreases item, 0nat,
{
    match item {
        MetaView::List(_, nested) => 1 + nested_size(nested, nested.len()),
        _ => 1,
    }
}

/// The number of meta items in the first `n` items of a list.
pub open spec fn nested_size(nested: Seq<NestedView>, n: nat) -> nat
    decreases nested, n,
{
    if n == 0 || n > nested.len() {
        0
    } else {
        nested_size(nested, (n - 1) as nat) + match nested[n - 1] {
            NestedView::Item(item) => size(item),
            NestedView::Literal => 0,
        }
    }
}

/// The number of meta items in the items of a queue.
pub open spec fn total_size(queue: Seq<MetaView>) -> nat
    decreases queue.len(),
{
    if queue.len() == 0 {
        0
    } else {
        total_size(queue.drop_last()) + size(queue.last())
    }
}

proof fn lemma_total_size_concat(a: Seq<MetaView>, b: Seq<MetaView>)
    ensures
        total_size(a + b) == total_size(a) + total_size(b),
    decreases b.len(),
{
    if b.len() == 0 {
        assert(a + b =~= a);
    } else {
        assert((a + b).drop_last() =~= a + b.drop_last());
        assert((a + b).last() == b.last());
        lemma_total_size_concat(a, b.drop_last());
    }
}

proof fn lemma_nested_items_size(nested: Seq<NestedView>, n: nat)
    requires
        n <= nested.len(),
    ensures
        total_size(nested_items(nested.take(n as int))) == nested_size(nested, n),
    decreases n,
{
    if n > 0 {
        let shorter = nested.take(n as int);
        assert(shorter.drop_last() =~= nested.take(n - 1));
        assert(shorter.last() == nested[n - 1]);
        lemma_nested_items_size(nested, (n - 1) as nat);
        match nested[n - 1] {
            NestedView::Item(item) => {
                let rest = nested_items(nested.take(n - 1));
                assert(rest.push(item).drop_last() =~= rest);
            },
            NestedView::Literal => {},
        }
    }
}

/// Taking the first item off a queue and scheduling its children leaves a
/// queue with fewer meta items in it.
pub proof fn lemma_step_shrinks(queue: Seq<MetaView>)
    requires
        queue.len() > 0,
    ensures
        total_size(queue.skip(1) + children(queue[0])) < total_size(queue),
{
    let first = seq![queue[0]];
    assert(queue =~= first + queue.skip(1));
    lemma_total_size_concat(first, queue.skip(1));
    lemma_total_size_concat(queue.skip(1), children(queue[0]));
    assert(first.drop_last() =~= Seq::<MetaView>::empty());
    assert(total_size(first.drop_last()) == 0);
    assert(first.last() == queue[0]);
    assert(total_size(first) == size(queue[0]));
    match queue[0] {
        MetaView::List(_, nested) => {
            assert(nested.take(nested.len() as int) =~= nested);
            lemma_nested_items_size(nested, nested.len());
        },
        _ => {},
    }
}

/// The tokens of a breadth-first traversal that begins with the items of
/// `queue`: the first item contributes its token and schedules its children
/// behind the items that wait.
pub open spec fn breadth_first(queue: Seq<MetaView>) -> Seq<Seq<char>>
    decreases total_size(queue),
{
    if queue.len() == 0 {
        Seq::empty()
    } else {
        proof {
            lemma_step_shrinks(queue);
        }
        seq![token(queue[0])] + breadth_first(queue.skip(1) + children(queue[0]))
    }
}

/// The tokens of an item, flattened breadth first.
pub open spec fn flattened(item: MetaView) -> Seq<Seq<char>> {
    breadth_first(seq![item])
}

/// The one token sequence that marks a crate as no-std unless its `std`
/// feature is on: that of `cfg_attr(not(feature = "std"), no_std)`.
pub open spec fn canonical() -> Seq<Seq<char>> {
    seq!["cfg_attr"@, "not"@, "no_std"@, "feature=\"std\""@]
}

/// Whether the item is the bare path `no_std`.
pub open spec fn no_std_item(item: MetaView) -> bool {
    item == MetaView::Path(Some("no_std"@))
}

/// Whether the item is a list with the path `cfg_attr` whose tokens are the
/// canonical ones.
pub open spec fn conditional_item(item: MetaView) -> bool {
    &&& item matches MetaView::List(ident, _)
    &&& ident == Some("cfg_attr"@)
    &&& flattened(item) == canonical()
}

/// The classification that the inner attributes of a file give: that of the
/// first among them that is `no_std` or the canonical `cfg_attr`.
pub open spec fn classification(attributes: Seq<MetaView>) -> Exploration
    decreases attributes.len(),
{
    if attributes.len() == 0 {
        Exploration::Std
    } else if no_std_item(attributes[0]) {
        Exploration::NoStd
    } else if conditional_item(attributes[0]) {
        Exploration::Conditional
    } else {
        classification(attributes.skip(1))
    }
}

/// The classification of an entry file: the failure where the file could
/// not be read or parsed, else what its inner attributes give.
pub open spec fn exploration(parsed: Result<Seq<ParsedAttribute>, ParseFailure>) -> Result<
    Exploration,
    ParseFailure,
> {
    match parsed {
        Err(failure) => Err(failure),
        Ok(attributes) => Ok(classification(inner_items(attributes))),
    }
}

/// An entry file as it was read and parsed.
pub struct SourceFile {
    /// The path of the file.
    pub path: String,
    /// The attributes at the head of the file, or why there are none: the
    /// file could not be read, or the parser did not take its text.
    pub parsed: Result<Vec<ParsedAttribute>, ParseFailure>,
}

/// An entry file as contracts see it.
pub struct SourceFileView {
    pub path: Seq<char>,
    pub parsed: Result<Seq<ParsedAttribute>, ParseFailure>,
}

impl View for SourceFile {
    type V = SourceFileView;

    open spec fn view(&self) -> SourceFileView {
        SourceFileView {
            path: self.path@,
            parsed: match self.parsed {
                Ok(attributes) => Ok(attributes@),
                Err(failure) => Err(failure),
            },
        }
    }
}

/// The name that stands for a path.
pub fn path_or_unnamed(ident: &Option<String>) -> (r: String)
    ensures
        r@ == path_name(ident_view(*ident)),
{
    match ident {
        Some(name) => name.clone(),
        None => "unnamed".to_owned(),
    }
}

/// A breadth-first traversal of meta items: the items that wait, first in
/// front.
pub struct MetaNestedIterator<'a> {
    values: VecDeque<&'a MetaItem>,
}

impl<'a> View for MetaNestedIterator<'a> {
    type V = Seq<MetaView>;

    closed spec fn view(&self) -> Seq<MetaView> {
        self.values@.map_values(|item: &MetaItem| item@)
    }
}

impl<'a> MetaNestedIterator<'a> {
    /// A traversal that starts at `item`.
    pub fn new(item: &'a MetaItem) -> (r: Self)
        ensures
            r@ == seq![item@],
    {
        let mut values = VecDeque::new();
        values.push_back(item);
        let r = MetaNestedIterator { values };
        assert(r@ =~= seq![item@]);
        r
    }

    /// Takes the item in front, schedules its children behind the others and
    /// returns its token; returns nothing when no item waits.
    pub fn next(&mut self) -> (r: Option<String>)
        ensures
            match r {
                Some(t) => old(self)@.len() > 0 && t@ == token(old(self)@[0]) && final(self)@
                    == old(self)@.skip(1) + children(old(self)@[0]),
                None => old(self)@.len() == 0 && final(self)@ == old(self)@,
            },
    {
        let ghost queue = self@;
        match self.values.pop_front() {
            Some(front) => {
                assert(queue[0] == front@);
                assert(self@ =~= queue.skip(1));
                match front {
                    MetaItem::List(ident, nested) => {
                        let val = path_or_unnamed(ident);
                        let ghost shapes = front@->List_1;
                        proof {
                            lemma_list_view(*ident, *nested);
                        }
                        let mut k: usize = 0;
                        assert(self@ =~= queue.skip(1) + nested_items(shapes.take(0)));
                        while k < nested.len()
                            invariant
                                k <= nested.len(),
                                shapes.len() == nested.len(),
                                forall|j: int|
                                    0 <= j < nested.len() ==> shapes[j] == (#[trigger] nested[j])@,
                                children(queue[0]) == nested_items(shapes),
                                self@ == queue.skip(1) + nested_items(shapes.take(k as int)),
                            decreases nested.len() - k,
                        {
                            let ghost before = self@;
                            proof {
                                assert(shapes.take(k + 1).drop_last() =~= shapes.take(k as int));
                                assert(shapes.take(k + 1).last() == nested[k as int]@);
                            }
                            match &nested[k] {
                                NestedItem::Item(item) => {
                                    self.values.push_back(item);
                                    assert(self@ =~= before.push(item@));
                                    assert(self@ =~= queue.skip(1) + nested_items(
                                        shapes.take(k + 1),
                                    ));
                                },
                                NestedItem::Literal => {},
                            }
                            k += 1;
                        }
                        assert(shapes.take(k as int) =~= shapes);
                        Some(val)
                    },
                    MetaItem::NameValue(ident, literal) => {
                        let mut val = path_or_unnamed(ident);
                        val.append("=");
                        val.append(literal.as_str());
                        assert(self@ =~= queue.skip(1) + children(queue[0]));
                        Some(val)
                    },
                    MetaItem::Path(ident) => {
                        assert(self@ =~= queue.skip(1) + children(queue[0]));
                        Some(path_or_unnamed(ident))
                    },
                }
            },
            None => None,
        }
    }
}

/// The tokens of an item, flattened breadth first.
pub fn flatten(item: &MetaItem) -> (tokens: Vec<String>)
    ensures
        views(tokens@) == flattened(item@),
{
    let mut walk = MetaNestedIterator::new(item);
    let mut tokens: Vec<String> = Vec::new();
    assert(views(tokens@) + breadth_first(walk@) =~= flattened(item@));
    loop
        invariant
            views(tokens@) + breadth_first(walk@) == flattened(item@),
        ensures
            views(tokens@) == flattened(item@),
        decreases total_size(walk@),
    {
        let ghost queue = walk@;
        let ghost done = views(tokens@);
        match walk.next() {
            Some(t) => {
                proof {
                    lemma_step_shrinks(queue);
                }
                tokens.push(t);
                assert(views(tokens@) =~= done.push(t@));
                assert(views(tokens@) + breadth_first(walk@) =~= done + breadth_first(queue));
            },
            None => {
                assert(views(tokens@) + breadth_first(walk@) =~= views(tokens@));
                break ;
            },
        }
    }
    tokens
}

/// Whether the item is the bare path `no_std`.
pub fn is_no_std(item: &MetaItem) -> (r: bool)
    ensures
        r == no_std_item(item@),
{
    match item {
        MetaItem::Path(Some(name)) => *name == "no_std".to_owned(),
        _ => false,
    }
}

/// Whether the item is a list with the path `cfg_attr` whose tokens are the
/// canonical ones.
pub fn is_conditional(item: &MetaItem) -> (r: bool)
    ensures
        r == conditional_item(item@),
{
    match item {
        MetaItem::List(Some(name), _) => {
            if *name == "cfg_attr".to_owned() {
                let tokens = flatten(item);
                let r = tokens.len() == 4 && tokens[0] == "cfg_attr".to_owned() && tokens[1]
                    == "not".to_owned() && tokens[2] == "no_std".to_owned() && tokens[3]
                    == "feature=\"std\"".to_owned();
                proof {
                    let found = views(tokens@);
                    if r {
                        assert(found =~= canonical());
                    } else if tokens.len() == 4 {
                        assert(found[0] == tokens[0]@);
                        assert(found[1] == tokens[1]@);
                        assert(found[2] == tokens[2]@);
                        assert(found[3] == tokens[3]@);
                    } else {
                        assert(canonical().len() == 4);
                    }
                }
                r
            } else {
                false
            }
        },
        _ => false,
    }
}

/// Classifies a file by its inner attributes, given in file order: the
/// first that is `no_std` makes it `NoStd`, the first that is the canonical
/// `cfg_attr` makes it `Conditional`, whichever comes first; a file with
/// neither is `Std`.
pub fn classify(attributes: &Vec<MetaItem>) -> (r: Exploration)
    ensures
        r == classification(attributes@.map_values(|item: MetaItem| item@)),
{
    let ghost all = attributes@.map_values(|item: MetaItem| item@);
    let mut i: usize = 0;
    assert(all.skip(0) =~= all);
    while i < attributes.len()
        invariant
            i <= attributes.len(),
            all == attributes@.map_values(|item: MetaItem| item@),
            classification(all) == classification(all.skip(i as int)),
        decreases attributes.len() - i,
    {
        let item = &attributes[i];
        proof {
            assert(all.skip(i as int)[0] == item@);
            assert(all.skip(i as int).skip(1) =~= all.skip(i + 1));
        }
        if is_no_std(item) {
            return Exploration::NoStd;
        }
        if is_conditional(item) {
            return Exploration::Conditional;
        }
        i += 1;
    }
    Exploration::Std
}

/// Classifies an entry file. A file that could not be read or parsed gives
/// its failure back; any other is classified by its inner attributes.
pub fn explore(file: &SourceFile) -> (r: Result<Exploration, ParseFailure>)
    ensures
        r == exploration(file@.parsed),
{
    match &file.parsed {
        Err(failure) => Err(*failure),
        Ok(attributes) => {
            let items = inner_attributes(attributes);
            Ok(classify(&items))
        },
    }
}

} // verus!

//! Bencode documents: trees of byte strings, integers, lists and
//! dictionaries.

use vstd::prelude::*;

verus! {

/// A bencode document.
///
/// A dictionary is held as its entries in the order of the document. A
/// document that a bencode parser made holds each key of a dictionary once.
#[derive(PartialEq, Eq, Debug)]
pub enum BValue {
    /// A byte string.
    Bytes(Vec<u8>),
    /// An integer.
    Int(i64),
    /// A list of documents.
    List(Vec<BValue>),
    /// A dictionary: keys with their values.
    Dict(Vec<(Vec<u8>, BValue)>),
}

/// What a [`BValue`] holds.
pub enum BValueView {
    Bytes(Seq<u8>),
    Int(int),
    List(Seq<BValueView>),
    Dict(Seq<(Seq<u8>, BValueView)>),
}

/// No two of `entries` stand under the same key: what holds of every
/// dictionary that a bencode parser made.
pub open spec fn distinct_keys(entries: Seq<(Seq<u8>, BValueView)>) -> bool {
    forall|i: int, j: int|
        0 <= i < j < entries.len() ==> (#[trigger] entries[i]).0 != (#[trigger] entries[j]).0
}

/// What the items of a list hold, in their order.
pub open spec fn list_view(items: Seq<BValue>) -> Seq<BValueView>
    decreases items,
{
    Seq::new(
        items.len(),
        |i: int|
            if 0 <= i < items.len() {
                items[i].deep_view()
            } else {
                arbitrary()
            },
    )
}

/// What the entries of a dictionary hold, in their order.
pub open spec fn dict_view(entries: Seq<(Vec<u8>, BValue)>) -> Seq<(Seq<u8>, BValueView)>
    decreases entries,
{
    Seq::new(
        entries.len(),
        |i: int|
            if 0 <= i < entries.len() {
                (entries[i].0@, entries[i].1.deep_view())
            } else {
                arbitrary()
            },
    )
}

impl DeepView for BValue {
    type V = BValueView;

    open spec fn deep_view(&self) -> BValueView
        decreases self,
    {
        match self {
            BValue::Bytes(bytes) => BValueView::Bytes(bytes@),
            BValue::Int(value) => BValueView::Int(*value as int),
            BValue::List(items) => BValueView::List(list_view(items@)),
            BValue::Dict(entries) => BValueView::Dict(dict_view(entries@)),
        }
    }
}

impl View for BValue {
    type V = BValueView;

    open spec fn view(&self) -> BValueView {
        self.deep_view()
    }
}

} // verus!

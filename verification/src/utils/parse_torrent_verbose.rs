//! The tolerant decoder: from a bencode document to a torrent's metadata.
//!
//! A value of the wrong shape under a known key is passed over, an unknown
//! key is passed over, a missing key leaves its field unset. Two things are
//! refused: a document that is not a dictionary, and a private flag that is
//! neither 0 nor 1. The unknown keys and the length of the pieces buffer are
//! reported to the caller who asks for them.

use vstd::prelude::*;
use vstd::slice::slice_to_vec;
use vstd::string::StringSliceAdditionalSpecFns;
use vstd::utf8::{encode_utf8_decode_utf8, valid_utf8};
use crate::models::bencode::{dict_view, list_view, BValue, BValueView};
use crate::models::torrent_file::{
    lemma_deep_view_push, Torrent, TorrentFile, TorrentFileView, TorrentInfo, TorrentInfoView,
    TorrentNode, TorrentNodeView, TorrentView,
};
use crate::utils::diagnostics::{
    diagnostics, dict_diagnostics, file_diagnostics, files_diagnostics, info_diagnostics,
    Diagnostic, DiagnosticView,
};
use crate::utils::text::{lemma_text_of_is, lossy_text, same_text, text_of, utf8_lossy};

verus! {

/// Why a document was refused.
#[derive(PartialEq, Eq, Structural, Clone, Copy, Debug)]
pub enum DecodeError {
    /// The document is a byte string, not a dictionary.
    UnexpectedBytes,
    /// The document is an integer, not a dictionary.
    UnexpectedInt,
    /// The document is a list, not a dictionary.
    UnexpectedList,
    /// The private flag of the `info` record holds this value, which is
    /// neither 0 nor 1.
    UnexpectedPrivate(i64),
}

/// The four shapes of a document.
#[derive(PartialEq, Eq, Structural, Clone, Copy, Debug)]
pub enum Shape {
    Bytes,
    Int,
    List,
    Dict,
}

impl BValueView {
    /// The shape of this document.
    pub open spec fn shape(self) -> Shape {
        match self {
            BValueView::Bytes(_) => Shape::Bytes,
            BValueView::Int(_) => Shape::Int,
            BValueView::List(_) => Shape::List,
            BValueView::Dict(_) => Shape::Dict,
        }
    }
}

/// The bytes of the dictionary key that is written `name`.
pub open spec fn key(name: &str) -> Seq<u8> {
    name.spec_bytes()
}

/// The value of the last entry of `entries` that stands under `key` and has
/// the shape `shape`. In a dictionary that holds each key once this is the
/// value under `key`, where it has that shape.
pub open spec fn last_of(
    entries: Seq<(Seq<u8>, BValueView)>,
    key: Seq<u8>,
    shape: Shape,
) -> Option<BValueView>
    decreases entries.len(),
{
    if entries.len() == 0 {
        None
    } else if entries.last().0 == key && entries.last().1.shape() == shape {
        Some(entries.last().1)
    } else {
        last_of(entries.drop_last(), key, shape)
    }
}

/// The byte string under `name`.
pub open spec fn bytes_at(entries: Seq<(Seq<u8>, BValueView)>, name: &str) -> Option<Seq<u8>> {
    match last_of(entries, key(name), Shape::Bytes) {
        Some(value) => Some(value->Bytes_0),
        None => None,
    }
}

/// The byte string under `name`, as text.
pub open spec fn text_at(entries: Seq<(Seq<u8>, BValueView)>, name: &str) -> Option<Seq<char>> {
    match last_of(entries, key(name), Shape::Bytes) {
        Some(value) => Some(text_of(value->Bytes_0)),
        None => None,
    }
}

/// The integer under `name`.
pub open spec fn int_at(entries: Seq<(Seq<u8>, BValueView)>, name: &str) -> Option<int> {
    match last_of(entries, key(name), Shape::Int) {
        Some(value) => Some(value->Int_0),
        None => None,
    }
}

/// The items of the list under `name`.
pub open spec fn list_at(entries: Seq<(Seq<u8>, BValueView)>, name: &str) -> Option<
    Seq<BValueView>,
> {
    match last_of(entries, key(name), Shape::List) {
        Some(value) => Some(value->List_0),
        None => None,
    }
}

/// The entries of the dictionary under `name`.
pub open spec fn dict_at(entries: Seq<(Seq<u8>, BValueView)>, name: &str) -> Option<
    Seq<(Seq<u8>, BValueView)>,
> {
    match last_of(entries, key(name), Shape::Dict) {
        Some(value) => Some(value->Dict_0),
        None => None,
    }
}

/// The text of an item that is a byte string.
pub open spec fn text_item(item: BValueView) -> Option<Seq<char>> {
    match item {
        BValueView::Bytes(bytes) => Some(text_of(bytes)),
        _ => None,
    }
}

/// The byte strings among `items` as texts, in their order; anything else
/// is dropped.
pub open spec fn texts(items: Seq<BValueView>) -> Seq<Seq<char>> {
    items.filter_map(|item: BValueView| text_item(item))
}

/// The node that an item stands for: a list of a host and a port.
pub open spec fn node_item(item: BValueView) -> Option<TorrentNodeView> {
    match item {
        BValueView::List(pair) => if pair.len() == 2 && pair[0] is Bytes && pair[1] is Int {
            Some(TorrentNodeView { host: text_of(pair[0]->Bytes_0), port: pair[1]->Int_0 })
        } else {
            None
        },
        _ => None,
    }
}

/// The well-formed nodes among `items`, in their order.
pub open spec fn nodes(items: Seq<BValueView>) -> Seq<TorrentNodeView> {
    items.filter_map(|item: BValueView| node_item(item))
}

/// The announce tier that an item stands for: a list, of which the byte
/// strings count.
pub open spec fn tier_item(item: BValueView) -> Option<Seq<Seq<char>>> {
    match item {
        BValueView::List(urls) => Some(texts(urls)),
        _ => None,
    }
}

/// The announce tiers among `items`, in their order.
pub open spec fn tiers(items: Seq<BValueView>) -> Seq<Seq<Seq<char>>> {
    items.filter_map(|item: BValueView| tier_item(item))
}

/// The file that a dictionary describes.
pub open spec fn file_of(entries: Seq<(Seq<u8>, BValueView)>) -> TorrentFileView {
    TorrentFileView {
        path: match list_at(entries, "path") {
            Some(segments) => texts(segments),
            None => Seq::empty(),
        },
        length: match int_at(entries, "length") {
            Some(length) => length,
            None => 0,
        },
        md5sum: text_at(entries, "md5sum"),
    }
}

/// The file that an item stands for: a dictionary.
pub open spec fn file_item(item: BValueView) -> Option<TorrentFileView> {
    match item {
        BValueView::Dict(entries) => Some(file_of(entries)),
        _ => None,
    }
}

/// The files among `items`, in their order.
pub open spec fn files(items: Seq<BValueView>) -> Seq<TorrentFileView> {
    items.filter_map(|item: BValueView| file_item(item))
}

/// The fault of an entry of an `info` dictionary: the integer under
/// `private`, where it is neither 0 nor 1.
pub open spec fn private_fault(entry: (Seq<u8>, BValueView)) -> Option<int> {
    match entry.1 {
        BValueView::Int(flag) => if entry.0 == key("private") && flag != 0 && flag != 1 {
            Some(flag)
        } else {
            None
        },
        _ => None,
    }
}

/// The faulty private flags of an `info` dictionary, in its order.
pub open spec fn private_faults(entries: Seq<(Seq<u8>, BValueView)>) -> Seq<int> {
    entries.filter_map(|entry: (Seq<u8>, BValueView)| private_fault(entry))
}

/// The fault of an entry of the top-level dictionary: the first faulty
/// private flag of a dictionary under `info`.
pub open spec fn info_fault(entry: (Seq<u8>, BValueView)) -> Option<int> {
    match entry.1 {
        BValueView::Dict(info) => if entry.0 == key("info") && private_faults(info).len() > 0 {
            Some(private_faults(info)[0])
        } else {
            None
        },
        _ => None,
    }
}

/// The faults of a top-level dictionary, in its order.
pub open spec fn faults(entries: Seq<(Seq<u8>, BValueView)>) -> Seq<int> {
    entries.filter_map(|entry: (Seq<u8>, BValueView)| info_fault(entry))
}

/// The `info` record that a dictionary describes.
pub open spec fn info_of(entries: Seq<(Seq<u8>, BValueView)>) -> TorrentInfoView {
    TorrentInfoView {
        name: match text_at(entries, "name") {
            Some(name) => name,
            None => Seq::empty(),
        },
        pieces: bytes_at(entries, "pieces"),
        piece_length: match int_at(entries, "piece length") {
            Some(length) => length,
            None => 0,
        },
        md5sum: text_at(entries, "md5sum"),
        length: int_at(entries, "length"),
        files: match list_at(entries, "files") {
            Some(items) => Some(files(items)),
            None => None,
        },
        private: int_at(entries, "private"),
        path: match list_at(entries, "path") {
            Some(segments) => Some(texts(segments)),
            None => None,
        },
        root_hash: text_at(entries, "root hash"),
        source: text_at(entries, "source"),
    }
}

/// The metadata that a top-level dictionary describes.
pub open spec fn torrent_of(entries: Seq<(Seq<u8>, BValueView)>) -> TorrentView {
    TorrentView {
        info: match dict_at(entries, "info") {
            Some(info) => info_of(info),
            None => TorrentInfoView::empty(),
        },
        announce: text_at(entries, "announce"),
        nodes: match list_at(entries, "nodes") {
            Some(items) => Some(nodes(items)),
            None => None,
        },
        encoding: text_at(entries, "encoding"),
        httpseeds: match list_at(entries, "httpseeds") {
            Some(items) => Some(texts(items)),
            None => None,
        },
        announce_list: match list_at(entries, "announce-list") {
            Some(items) => Some(tiers(items)),
            None => None,
        },
        creation_date: int_at(entries, "creation date"),
        comment: text_at(entries, "comment"),
        created_by: text_at(entries, "created by"),
    }
}

/// What decoding a document gives: the metadata it describes, or why it is
/// refused. Of several faulty private flags the first in the document is
/// reported.
pub open spec fn decoded(document: BValueView) -> Result<TorrentView, DecodeError> {
    match document {
        BValueView::Bytes(_) => Err(DecodeError::UnexpectedBytes),
        BValueView::Int(_) => Err(DecodeError::UnexpectedInt),
        BValueView::List(_) => Err(DecodeError::UnexpectedList),
        BValueView::Dict(entries) => if faults(entries).len() > 0 {
            Err(DecodeError::UnexpectedPrivate(faults(entries)[0] as i64))
        } else {
            Ok(torrent_of(entries))
        },
    }
}

/// `name` has `len` characters, the first of them `first`, and none of them
/// is U+FFFD.
pub(crate) open spec fn is_name(name: &str, len: nat, first: char) -> bool {
    &&& name@.len() == len
    &&& name@[0] == first
    &&& !name@.contains('\u{FFFD}')
}

/// The names of the keys that the decoder knows: no two of them have both
/// the same length and the same first character.
pub(crate) proof fn lemma_known_names()
    ensures
        is_name("info", 4, 'i'),
        is_name("announce", 8, 'a'),
        is_name("nodes", 5, 'n'),
        is_name("encoding", 8, 'e'),
        is_name("httpseeds", 9, 'h'),
        is_name("announce-list", 13, 'a'),
        is_name("creation date", 13, 'c'),
        is_name("comment", 7, 'c'),
        is_name("created by", 10, 'c'),
        is_name("name", 4, 'n'),
        is_name("pieces", 6, 'p'),
        is_name("piece length", 12, 'p'),
        is_name("md5sum", 6, 'm'),
        is_name("length", 6, 'l'),
        is_name("files", 5, 'f'),
        is_name("private", 7, 'p'),
        is_name("path", 4, 'p'),
        is_name("root hash", 9, 'r'),
        is_name("source", 6, 's'),
{
    reveal_strlit("info");
    reveal_strlit("announce");
    reveal_strlit("nodes");
    reveal_strlit("encoding");
    reveal_strlit("httpseeds");
    reveal_strlit("announce-list");
    reveal_strlit("creation date");
    reveal_strlit("comment");
    reveal_strlit("created by");
    reveal_strlit("name");
    reveal_strlit("pieces");
    reveal_strlit("piece length");
    reveal_strlit("md5sum");
    reveal_strlit("length");
    reveal_strlit("files");
    reveal_strlit("private");
    reveal_strlit("path");
    reveal_strlit("root hash");
    reveal_strlit("source");
}

/// The shape that the decoder asks of the value under a key at the top level
/// of a document; `None` for a key that it does not know.
pub open spec fn top_level_shape(bytes: Seq<u8>) -> Option<Shape> {
    if bytes == key("info") {
        Some(Shape::Dict)
    } else if bytes == key("announce") || bytes == key("encoding") || bytes == key("comment")
        || bytes == key("created by") {
        Some(Shape::Bytes)
    } else if bytes == key("nodes") || bytes == key("httpseeds") || bytes == key(
        "announce-list",
    ) {
        Some(Shape::List)
    } else if bytes == key("creation date") {
        Some(Shape::Int)
    } else {
        None
    }
}

/// The shape that the decoder asks of the value under a key of the `info`
/// dictionary; `None` for a key that it does not know.
pub open spec fn info_shape(bytes: Seq<u8>) -> Option<Shape> {
    if bytes == key("name") || bytes == key("pieces") || bytes == key("md5sum") || bytes == key(
        "root hash",
    ) || bytes == key("source") {
        Some(Shape::Bytes)
    } else if bytes == key("piece length") || bytes == key("length") || bytes == key("private") {
        Some(Shape::Int)
    } else if bytes == key("files") || bytes == key("path") {
        Some(Shape::List)
    } else {
        None
    }
}

/// The shape that the decoder asks of the value under a key of a file's
/// dictionary; `None` for a key that it does not know.
pub open spec fn file_shape(bytes: Seq<u8>) -> Option<Shape> {
    if bytes == key("path") {
        Some(Shape::List)
    } else if bytes == key("length") {
        Some(Shape::Int)
    } else if bytes == key("md5sum") {
        Some(Shape::Bytes)
    } else {
        None
    }
}

/// The known keys are different byte strings.
pub(crate) proof fn lemma_keys_differ()
    ensures
        top_level_shape(key("info")) == Some(Shape::Dict),
        top_level_shape(key("announce")) == Some(Shape::Bytes),
        top_level_shape(key("encoding")) == Some(Shape::Bytes),
        top_level_shape(key("comment")) == Some(Shape::Bytes),
        top_level_shape(key("created by")) == Some(Shape::Bytes),
        top_level_shape(key("nodes")) == Some(Shape::List),
        top_level_shape(key("httpseeds")) == Some(Shape::List),
        top_level_shape(key("announce-list")) == Some(Shape::List),
        top_level_shape(key("creation date")) == Some(Shape::Int),
        info_shape(key("name")) == Some(Shape::Bytes),
        info_shape(key("pieces")) == Some(Shape::Bytes),
        info_shape(key("md5sum")) == Some(Shape::Bytes),
        info_shape(key("root hash")) == Some(Shape::Bytes),
        info_shape(key("source")) == Some(Shape::Bytes),
        info_shape(key("piece length")) == Some(Shape::Int),
        info_shape(key("length")) == Some(Shape::Int),
        info_shape(key("private")) == Some(Shape::Int),
        info_shape(key("files")) == Some(Shape::List),
        info_shape(key("path")) == Some(Shape::List),
        file_shape(key("path")) == Some(Shape::List),
        file_shape(key("length")) == Some(Shape::Int),
        file_shape(key("md5sum")) == Some(Shape::Bytes),
{
    lemma_known_names();
    encode_utf8_decode_utf8("info"@);
    encode_utf8_decode_utf8("announce"@);
    encode_utf8_decode_utf8("nodes"@);
    encode_utf8_decode_utf8("encoding"@);
    encode_utf8_decode_utf8("httpseeds"@);
    encode_utf8_decode_utf8("announce-list"@);
    encode_utf8_decode_utf8("creation date"@);
    encode_utf8_decode_utf8("comment"@);
    encode_utf8_decode_utf8("created by"@);
    encode_utf8_decode_utf8("name"@);
    encode_utf8_decode_utf8("pieces"@);
    encode_utf8_decode_utf8("piece length"@);
    encode_utf8_decode_utf8("md5sum"@);
    encode_utf8_decode_utf8("length"@);
    encode_utf8_decode_utf8("files"@);
    encode_utf8_decode_utf8("private"@);
    encode_utf8_decode_utf8("path"@);
    encode_utf8_decode_utf8("root hash"@);
    encode_utf8_decode_utf8("source"@);
}

/// `bytes` is the key written `name` exactly where `bytes`, read as text, is
/// `name`.
pub(crate) open spec fn reads_as(bytes: Seq<u8>, name: &str) -> bool {
    (bytes == key(name)) == (text_of(bytes) == name@)
}

/// `bytes` is one of the known keys exactly where it reads as that key's
/// name.
pub(crate) open spec fn reads_as_itself(bytes: Seq<u8>) -> bool {
    &&& reads_as(bytes, "info")
    &&& reads_as(bytes, "announce")
    &&& reads_as(bytes, "nodes")
    &&& reads_as(bytes, "encoding")
    &&& reads_as(bytes, "httpseeds")
    &&& reads_as(bytes, "announce-list")
    &&& reads_as(bytes, "creation date")
    &&& reads_as(bytes, "comment")
    &&& reads_as(bytes, "created by")
    &&& reads_as(bytes, "name")
    &&& reads_as(bytes, "pieces")
    &&& reads_as(bytes, "piece length")
    &&& reads_as(bytes, "md5sum")
    &&& reads_as(bytes, "length")
    &&& reads_as(bytes, "files")
    &&& reads_as(bytes, "private")
    &&& reads_as(bytes, "path")
    &&& reads_as(bytes, "root hash")
    &&& reads_as(bytes, "source")
}

/// Lossy decoding maps no byte string to the name of a known key but the
/// key itself.
pub(crate) proof fn lemma_keys_by_text(bytes: Seq<u8>)
    requires
        !valid_utf8(bytes) ==> utf8_lossy(bytes).contains('\u{FFFD}'),
    ensures
        reads_as_itself(bytes),
{
    lemma_known_names();
    lemma_text_of_is(bytes, "info"@);
    lemma_text_of_is(bytes, "announce"@);
    lemma_text_of_is(bytes, "nodes"@);
    lemma_text_of_is(bytes, "encoding"@);
    lemma_text_of_is(bytes, "httpseeds"@);
    lemma_text_of_is(bytes, "announce-list"@);
    lemma_text_of_is(bytes, "creation date"@);
    lemma_text_of_is(bytes, "comment"@);
    lemma_text_of_is(bytes, "created by"@);
    lemma_text_of_is(bytes, "name"@);
    lemma_text_of_is(bytes, "pieces"@);
    lemma_text_of_is(bytes, "piece length"@);
    lemma_text_of_is(bytes, "md5sum"@);
    lemma_text_of_is(bytes, "length"@);
    lemma_text_of_is(bytes, "files"@);
    lemma_text_of_is(bytes, "private"@);
    lemma_text_of_is(bytes, "path"@);
    lemma_text_of_is(bytes, "root hash"@);
    lemma_text_of_is(bytes, "source"@);
}

/// A dictionary key read as text, for comparing it with the known names.
fn key_text(key: &Vec<u8>) -> (text: String)
    ensures
        text@ == text_of(key@),
        reads_as_itself(key@),
{
    let text = lossy_text(key.as_slice());
    proof {
        lemma_keys_by_text(key@);
    }
    text
}

/// The byte strings among `items` as texts, in their order.
fn decode_texts(items: &Vec<BValue>) -> (out: Vec<String>)
    ensures
        out.deep_view() == texts(list_view(items@)),
{
    let ghost views = list_view(items@);
    let mut out: Vec<String> = Vec::new();
    let mut i: usize = 0;
    assert(out.deep_view() =~= texts(views.take(0)));
    while i < items.len()
        invariant
            i <= items@.len(),
            views == list_view(items@),
            out.deep_view() == texts(views.take(i as int)),
        decreases items@.len() - i,
    {
        proof {
            assert(views.take(i + 1).drop_last() =~= views.take(i as int));
            assert(views.take(i + 1).last() == items@[i as int].deep_view());
        }
        if let BValue::Bytes(bytes) = &items[i] {
            let ghost shorter = out;
            let text = lossy_text(bytes.as_slice());
            out.push(text);
            proof {
                lemma_deep_view_push(shorter, out, text);
            }
        }
        i += 1;
    }
    assert(views.take(i as int) =~= views);
    out
}

/// The node that `item` stands for, where it stands for one.
fn decode_node(item: &BValue) -> (out: Option<TorrentNode>)
    ensures
        out.deep_view() == node_item(item.deep_view()),
{
    match item {
        BValue::List(pair) => {
            proof {
                let views = list_view(pair@);
                assert(item.deep_view() == BValueView::List(views));
                assert(views.len() == pair@.len());
                if pair@.len() == 2 {
                    assert(views[0] == pair@[0].deep_view());
                    assert(views[1] == pair@[1].deep_view());
                }
            }
            if pair.len() != 2 {
                return None;
            }
            match (&pair[0], &pair[1]) {
                (BValue::Bytes(host), BValue::Int(port)) => Some(
                    TorrentNode(lossy_text(host.as_slice()), *port),
                ),
                _ => None,
            }
        },
        _ => None,
    }
}

/// The well-formed nodes among `items`, in their order.
fn decode_nodes(items: &Vec<BValue>) -> (out: Vec<TorrentNode>)
    ensures
        out.deep_view() == nodes(list_view(items@)),
{
    let ghost views = list_view(items@);
    let mut out: Vec<TorrentNode> = Vec::new();
    let mut i: usize = 0;
    assert(out.deep_view() =~= nodes(views.take(0)));
    while i < items.len()
        invariant
            i <= items@.len(),
            views == list_view(items@),
            out.deep_view() == nodes(views.take(i as int)),
        decreases items@.len() - i,
    {
        proof {
            assert(views.take(i + 1).drop_last() =~= views.take(i as int));
            assert(views.take(i + 1).last() == items@[i as int].deep_view());
        }
        if let Some(node) = decode_node(&items[i]) {
            let ghost shorter = out;
            out.push(node);
            proof {
                lemma_deep_view_push(shorter, out, node);
            }
        }
        i += 1;
    }
    assert(views.take(i as int) =~= views);
    out
}

/// The announce tiers among `items`, in their order.
fn decode_tiers(items: &Vec<BValue>) -> (out: Vec<Vec<String>>)
    ensures
        out.deep_view() == tiers(list_view(items@)),
{
    let ghost views = list_view(items@);
    let mut out: Vec<Vec<String>> = Vec::new();
    let mut i: usize = 0;
    assert(out.deep_view() =~= tiers(views.take(0)));
    while i < items.len()
        invariant
            i <= items@.len(),
            views == list_view(items@),
            out.deep_view() == tiers(views.take(i as int)),
        decreases items@.len() - i,
    {
        proof {
            assert(views.take(i + 1).drop_last() =~= views.take(i as int));
            assert(views.take(i + 1).last() == items@[i as int].deep_view());
        }
        if let BValue::List(urls) = &items[i] {
            let ghost shorter = out;
            let tier = decode_texts(urls);
            out.push(tier);
            proof {
                lemma_deep_view_push(shorter, out, tier);
            }
        }
        i += 1;
    }
    assert(views.take(i as int) =~= views);
    out
}

/// The deep view of a byte vector is its view.
proof fn lemma_bytes_view(bytes: Vec<u8>)
    ensures
        bytes.deep_view() == bytes@,
{
    assert(bytes.deep_view() =~= bytes@);
}

/// What a list of reports holds after a push is what it held before, then
/// what was pushed.
proof fn lemma_report_pushed(
    start: Seq<DiagnosticView>,
    so_far: Seq<DiagnosticView>,
    before: Vec<Diagnostic>,
    after: Vec<Diagnostic>,
    report: Diagnostic,
)
    requires
        before.deep_view() == start + so_far,
        after@ == before@.push(report),
    ensures
        after.deep_view() == start + (so_far + seq![report.deep_view()]),
{
    lemma_deep_view_push(before, after, report);
    assert(after.deep_view() =~= start + (so_far + seq![report.deep_view()]));
}

/// The file that the dictionary `entries` describes; the keys that are
/// passed over as unknown are added to `reports`.
fn decode_file(entries: &Vec<(Vec<u8>, BValue)>, reports: &mut Vec<Diagnostic>) -> (file:
    TorrentFile)
    ensures
        file@ == file_of(dict_view(entries@)),
        final(reports).deep_view() == old(reports).deep_view() + file_diagnostics(
            dict_view(entries@),
        ),
{
    let ghost views = dict_view(entries@);
    let ghost start = reports.deep_view();
    let mut file = TorrentFile { path: Vec::new(), length: 0, md5sum: None };
    let mut i: usize = 0;
    proof {
        assert(file.path.deep_view() =~= Seq::<Seq<char>>::empty());
        assert(views.take(0).len() == 0);
        assert(reports.deep_view() =~= start + file_diagnostics(views.take(0)));
    }
    while i < entries.len()
        invariant
            i <= entries@.len(),
            views == dict_view(entries@),
            file@ == file_of(views.take(i as int)),
            reports.deep_view() == start + file_diagnostics(views.take(i as int)),
        decreases entries@.len() - i,
    {
        let entry = &entries[i];
        let name = key_text(&entry.0);
        let ghost so_far = file_diagnostics(views.take(i as int));
        proof {
            lemma_known_names();
            assert(views.take(i + 1).drop_last() =~= views.take(i as int));
            assert(views.take(i + 1).last() == (entry.0@, entry.1.deep_view()));
        }
        if same_text(name.as_str(), "path") {
            if let BValue::List(segments) = &entry.1 {
                file.path = decode_texts(segments);
            }
            proof {
                assert(so_far + Seq::<DiagnosticView>::empty() =~= so_far);
            }
        } else if same_text(name.as_str(), "length") {
            if let BValue::Int(length) = &entry.1 {
                file.length = *length;
            }
            proof {
                assert(so_far + Seq::<DiagnosticView>::empty() =~= so_far);
            }
        } else if same_text(name.as_str(), "md5sum") {
            if let BValue::Bytes(md5sum) = &entry.1 {
                file.md5sum = Some(lossy_text(md5sum.as_slice()));
            }
            proof {
                assert(so_far + Seq::<DiagnosticView>::empty() =~= so_far);
            }
        } else {
            let ghost before = *reports;
            let report = Diagnostic::SkippedFileKey(name);
            reports.push(report);
            proof {
                lemma_report_pushed(start, so_far, before, *reports, report);
            }
        }
        i += 1;
    }
    assert(views.take(i as int) =~= views);
    file
}

/// The files among `items`, in their order; the keys that are passed over
/// as unknown are added to `reports`.
fn decode_files(items: &Vec<BValue>, reports: &mut Vec<Diagnostic>) -> (out: Vec<TorrentFile>)
    ensures
        out.deep_view() == files(list_view(items@)),
        final(reports).deep_view() == old(reports).deep_view() + files_diagnostics(
            list_view(items@),
        ),
{
    let ghost views = list_view(items@);
    let ghost start = reports.deep_view();
    let mut out: Vec<TorrentFile> = Vec::new();
    let mut i: usize = 0;
    proof {
        assert(out.deep_view() =~= files(views.take(0)));
        assert(reports.deep_view() =~= start + files_diagnostics(views.take(0)));
    }
    while i < items.len()
        invariant
            i <= items@.len(),
            views == list_view(items@),
            out.deep_view() == files(views.take(i as int)),
            reports.deep_view() == start + files_diagnostics(views.take(i as int)),
        decreases items@.len() - i,
    {
        let ghost so_far = files_diagnostics(views.take(i as int));
        proof {
            assert(views.take(i + 1).drop_last() =~= views.take(i as int));
            assert(views.take(i + 1).last() == items@[i as int].deep_view());
        }
        if let BValue::Dict(entries) = &items[i] {
            let ghost shorter = out;
            let file = decode_file(entries, reports);
            out.push(file);
            proof {
                lemma_deep_view_push(shorter, out, file);
                assert((start + so_far) + file_diagnostics(dict_view(entries@)) =~= start + (so_far
                    + file_diagnostics(dict_view(entries@))));
            }
        } else {
            proof {
                assert(so_far + Seq::<DiagnosticView>::empty() =~= so_far);
            }
        }
        i += 1;
    }
    assert(views.take(i as int) =~= views);
    out
}

/// Where the entries before `i` hold no faulty private flag and entry `i`
/// holds one, that one is the first fault of every longer prefix.
proof fn lemma_first_private_fault(entries: Seq<(Seq<u8>, BValueView)>, i: int, j: int)
    requires
        0 <= i < j <= entries.len(),
        private_faults(entries.take(i)).len() == 0,
        private_fault(entries[i]) is Some,
    ensures
        private_faults(entries.take(j)).len() > 0,
        private_faults(entries.take(j))[0] == private_fault(entries[i])->0,
        info_diagnostics(entries.take(j)) == info_diagnostics(entries.take(i)),
    decreases j,
{
    assert(entries.take(j).drop_last() =~= entries.take(j - 1));
    if j > i + 1 {
        lemma_first_private_fault(entries, i, j - 1);
    } else {
        lemma_keys_differ();
        assert(entries.take(j).last() == entries[i]);
        assert(info_diagnostics(entries.take(i)) + Seq::<DiagnosticView>::empty()
            =~= info_diagnostics(entries.take(i)));
    }
}

/// Where the entries before `i` hold no fault and entry `i` holds one, that
/// one is the first fault of every longer prefix.
proof fn lemma_first_fault(entries: Seq<(Seq<u8>, BValueView)>, i: int, j: int)
    requires
        0 <= i < j <= entries.len(),
        faults(entries.take(i)).len() == 0,
        info_fault(entries[i]) is Some,
    ensures
        faults(entries.take(j)).len() > 0,
        faults(entries.take(j))[0] == info_fault(entries[i])->0,
        dict_diagnostics(entries.take(j)) == dict_diagnostics(entries.take(i)) + info_diagnostics(
            entries[i].1->Dict_0,
        ),
    decreases j,
{
    assert(entries.take(j).drop_last() =~= entries.take(j - 1));
    if j > i + 1 {
        lemma_first_fault(entries, i, j - 1);
    } else {
        lemma_keys_differ();
        assert(entries.take(j).last() == entries[i]);
    }
}

/// The `info` record that the dictionary `entries` describes, unless it
/// holds a faulty private flag; what is reported on the way is added to
/// `reports`.
fn decode_info(entries: &Vec<(Vec<u8>, BValue)>, reports: &mut Vec<Diagnostic>) -> (res: Result<
    TorrentInfo,
    DecodeError,
>)
    ensures
        match res {
            Ok(info) => private_faults(dict_view(entries@)).len() == 0 && info@ == info_of(
                dict_view(entries@),
            ),
            Err(error) => private_faults(dict_view(entries@)).len() > 0 && error
                == DecodeError::UnexpectedPrivate(private_faults(dict_view(entries@))[0] as i64),
        },
        final(reports).deep_view() == old(reports).deep_view() + info_diagnostics(
            dict_view(entries@),
        ),
{
    let ghost views = dict_view(entries@);
    let ghost start = reports.deep_view();
    let mut info = TorrentInfo {
        name: String::new(),
        pieces: None,
        piece_length: 0,
        md5sum: None,
        length: None,
        files: None,
        private: None,
        path: None,
        root_hash: None,
        source: None,
    };
    let mut i: usize = 0;
    proof {
        assert(views.take(0).len() == 0);
        assert(reports.deep_view() =~= start + info_diagnostics(views.take(0)));
    }
    while i < entries.len()
        invariant
            i <= entries@.len(),
            views == dict_view(entries@),
            info@ == info_of(views.take(i as int)),
            private_faults(views.take(i as int)).len() == 0,
            start == old(reports).deep_view(),
            reports.deep_view() == start + info_diagnostics(views.take(i as int)),
        decreases entries@.len() - i,
    {
        let entry = &entries[i];
        let name = key_text(&entry.0);
        let ghost so_far = info_diagnostics(views.take(i as int));
        proof {
            lemma_known_names();
            assert(views.take(i + 1).drop_last() =~= views.take(i as int));
            assert(views.take(i + 1).last() == (entry.0@, entry.1.deep_view()));
            assert(views[i as int] == (entry.0@, entry.1.deep_view()));
            assert(so_far + Seq::<DiagnosticView>::empty() =~= so_far);
        }
        if same_text(name.as_str(), "name") {
            if let BValue::Bytes(bytes) = &entry.1 {
                info.name = lossy_text(bytes.as_slice());
            }
        } else if same_text(name.as_str(), "pieces") {
            if let BValue::Bytes(bytes) = &entry.1 {
                let pieces = slice_to_vec(bytes.as_slice());
                proof {
                    lemma_bytes_view(pieces);
                }
                info.pieces = Some(pieces);
                let ghost before = *reports;
                let report = Diagnostic::PiecesLength(bytes.len());
                reports.push(report);
                proof {
                    lemma_report_pushed(start, so_far, before, *reports, report);
                }
            }
        } else if same_text(name.as_str(), "piece length") {
            if let BValue::Int(length) = &entry.1 {
                info.piece_length = *length;
            }
        } else if same_text(name.as_str(), "md5sum") {
            if let BValue::Bytes(bytes) = &entry.1 {
                info.md5sum = Some(lossy_text(bytes.as_slice()));
            }
        } else if same_text(name.as_str(), "length") {
            if let BValue::Int(length) = &entry.1 {
                info.length = Some(*length);
            }
        } else if same_text(name.as_str(), "files") {
            if let BValue::List(items) = &entry.1 {
                info.files = Some(decode_files(items, reports));
                proof {
                    assert((start + so_far) + files_diagnostics(list_view(items@)) =~= start + (
                    so_far + files_diagnostics(list_view(items@))));
                }
            }
        } else if same_text(name.as_str(), "private") {
            if let BValue::Int(flag) = &entry.1 {
                if *flag == 0 {
                    info.private = Some(0);
                } else if *flag == 1 {
                    info.private = Some(1);
                } else {
                    proof {
                        lemma_first_private_fault(views, i as int, views.len() as int);
                        assert(views.take(views.len() as int) =~= views);
                    }
                    return Err(DecodeError::UnexpectedPrivate(*flag));
                }
            }
        } else if same_text(name.as_str(), "path") {
            if let BValue::List(segments) = &entry.1 {
                info.path = Some(decode_texts(segments));
            }
        } else if same_text(name.as_str(), "root hash") {
            if let BValue::Bytes(bytes) = &entry.1 {
                info.root_hash = Some(lossy_text(bytes.as_slice()));
            }
        } else if same_text(name.as_str(), "source") {
            if let BValue::Bytes(bytes) = &entry.1 {
                info.source = Some(lossy_text(bytes.as_slice()));
            }
        } else {
            let ghost before = *reports;
            let report = Diagnostic::SkippedInfoKey(name);
            reports.push(report);
            proof {
                lemma_report_pushed(start, so_far, before, *reports, report);
            }
        }
        i += 1;
    }
    assert(views.take(i as int) =~= views);
    Ok(info)
}

/// Parses a torrent document into a `Torrent`, and reports what it passed
/// over.
///
/// The first part of the result is what [`decode_torrent`] gives. The second
/// holds, in the order of the document, every key that was passed over as
/// unknown and the length of the pieces buffer. Where the document is
/// refused for its private flag, the reports end there.
pub fn decode_torrent_with_diagnostics(bvalue: BValue) -> (res: (
    Result<Torrent, DecodeError>,
    Vec<Diagnostic>,
))
    ensures
        res.0 is Ok <==> bvalue@ is Dict && faults(bvalue@->Dict_0).len() == 0,
        match decoded(bvalue@) {
            Ok(torrent) => res.0 is Ok && res.0->Ok_0@ == torrent,
            Err(error) => res.0 is Err && res.0->Err_0 == error,
        },
        res.1.deep_view() == diagnostics(bvalue@),
        res.1@.len() == diagnostics(bvalue@).len(),
{
    let mut reports: Vec<Diagnostic> = Vec::new();
    proof {
        assert(reports.deep_view() =~= Seq::<DiagnosticView>::empty());
    }
    let entries = match &bvalue {
        BValue::Dict(entries) => entries,
        BValue::Bytes(_) => {
            return (Err(DecodeError::UnexpectedBytes), reports);
        },
        BValue::Int(_) => {
            return (Err(DecodeError::UnexpectedInt), reports);
        },
        BValue::List(_) => {
            return (Err(DecodeError::UnexpectedList), reports);
        },
    };
    let ghost views = dict_view(entries@);
    let mut torrent = Torrent {
        info: TorrentInfo::default(),
        announce: None,
        nodes: None,
        encoding: None,
        httpseeds: None,
        announce_list: None,
        creation_date: None,
        comment: None,
        created_by: None,
    };
    let mut i: usize = 0;
    proof {
        assert(views.take(0).len() == 0);
        assert(reports.deep_view() =~= dict_diagnostics(views.take(0)));
    }
    while i < entries.len()
        invariant
            i <= entries@.len(),
            views == dict_view(entries@),
            bvalue@ == BValueView::Dict(views),
            torrent@ == torrent_of(views.take(i as int)),
            faults(views.take(i as int)).len() == 0,
            reports.deep_view() == dict_diagnostics(views.take(i as int)),
        decreases entries@.len() - i,
    {
        let entry = &entries[i];
        let name = key_text(&entry.0);
        let ghost so_far = dict_diagnostics(views.take(i as int));
        proof {
            lemma_known_names();
            assert(views.take(i + 1).drop_last() =~= views.take(i as int));
            assert(views.take(i + 1).last() == (entry.0@, entry.1.deep_view()));
            assert(views[i as int] == (entry.0@, entry.1.deep_view()));
            assert(so_far + Seq::<DiagnosticView>::empty() =~= so_far);
        }
        if same_text(name.as_str(), "info") {
            if let BValue::Dict(info_entries) = &entry.1 {
                match decode_info(info_entries, &mut reports) {
                    Ok(info) => {
                        torrent.info = info;
                    },
                    Err(error) => {
                        proof {
                            lemma_first_fault(views, i as int, views.len() as int);
                            assert(views.take(views.len() as int) =~= views);
                        }
                        return (Err(error), reports);
                    },
                }
            }
        } else if same_text(name.as_str(), "announce") {
            if let BValue::Bytes(bytes) = &entry.1 {
                torrent.announce = Some(lossy_text(bytes.as_slice()));
            }
        } else if same_text(name.as_str(), "nodes") {
            if let BValue::List(items) = &entry.1 {
                torrent.nodes = Some(decode_nodes(items));
            }
        } else if same_text(name.as_str(), "encoding") {
            if let BValue::Bytes(bytes) = &entry.1 {
                torrent.encoding = Some(lossy_text(bytes.as_slice()));
            }
        } else if same_text(name.as_str(), "httpseeds") {
            if let BValue::List(items) = &entry.1 {
                torrent.httpseeds = Some(decode_texts(items));
            }
        } else if same_text(name.as_str(), "announce-list") {
            if let BValue::List(items) = &entry.1 {
                torrent.announce_list = Some(decode_tiers(items));
            }
        } else if same_text(name.as_str(), "creation date") {
            if let BValue::Int(seconds) = &entry.1 {
                torrent.creation_date = Some(*seconds);
            }
        } else if same_text(name.as_str(), "comment") {
            if let BValue::Bytes(bytes) = &entry.1 {
                torrent.comment = Some(lossy_text(bytes.as_slice()));
            }
        } else if same_text(name.as_str(), "created by") {
            if let BValue::Bytes(bytes) = &entry.1 {
                torrent.created_by = Some(lossy_text(bytes.as_slice()));
            }
        } else {
            let ghost before = reports;
            let report = Diagnostic::SkippedDictKey(name);
            reports.push(report);
            proof {
                lemma_report_pushed(Seq::empty(), so_far, before, reports, report);
                assert(Seq::<DiagnosticView>::empty() + so_far =~= so_far);
                assert(Seq::<DiagnosticView>::empty() + (so_far + seq![report.deep_view()])
                    =~= so_far + seq![report.deep_view()]);
            }
        }
        i += 1;
    }
    assert(views.take(i as int) =~= views);
    (Ok(torrent), reports)
}

/// Parses a torrent document into a `Torrent`.
///
/// The document has to be a dictionary. Each field is taken from the value
/// under its key where that value has the shape the field asks for, and is
/// left unset otherwise; the items of a list that have the wrong shape are
/// dropped. A private flag other than 0 and 1 is refused.
pub fn decode_torrent(bvalue: BValue) -> (res: Result<Torrent, DecodeError>)
    ensures
        res is Ok <==> bvalue@ is Dict && faults(bvalue@->Dict_0).len() == 0,
        match decoded(bvalue@) {
            Ok(torrent) => res is Ok && res->Ok_0@ == torrent,
            Err(error) => res is Err && res->Err_0 == error,
        },
{
    decode_torrent_with_diagnostics(bvalue).0
}

} // verus!

//! What the decoder reports while it reads a document: the keys that it
//! passes over because it does not know them, and the length of the pieces
//! buffer.

use vstd::prelude::*;
use crate::models::bencode::BValueView;
use crate::utils::parse_torrent_verbose::{
    faults, file_shape, info_shape, key, private_faults, top_level_shape,
};
use crate::utils::text::text_of;

verus! {

/// One report of the decoder.
#[derive(PartialEq, Eq, Debug, Clone)]
pub enum Diagnostic {
    /// A key of the top-level dictionary that the decoder does not know,
    /// read as text.
    SkippedDictKey(String),
    /// A key of the `info` dictionary that the decoder does not know, read
    /// as text.
    SkippedInfoKey(String),
    /// A key of a file's dictionary that the decoder does not know, read as
    /// text.
    SkippedFileKey(String),
    /// The number of bytes of the pieces buffer.
    PiecesLength(usize),
}

/// What a [`Diagnostic`] holds.
pub enum DiagnosticView {
    SkippedDictKey(Seq<char>),
    SkippedInfoKey(Seq<char>),
    SkippedFileKey(Seq<char>),
    PiecesLength(nat),
}

impl DeepView for Diagnostic {
    type V = DiagnosticView;

    open spec fn deep_view(&self) -> DiagnosticView {
        match self {
            Diagnostic::SkippedDictKey(name) => DiagnosticView::SkippedDictKey(name@),
            Diagnostic::SkippedInfoKey(name) => DiagnosticView::SkippedInfoKey(name@),
            Diagnostic::SkippedFileKey(name) => DiagnosticView::SkippedFileKey(name@),
            Diagnostic::PiecesLength(length) => DiagnosticView::PiecesLength(*length as nat),
        }
    }
}

impl View for Diagnostic {
    type V = DiagnosticView;

    open spec fn view(&self) -> DiagnosticView {
        self.deep_view()
    }
}

/// What an entry of a file's dictionary is reported with: its key, where the
/// decoder does not know it.
pub open spec fn file_entry_diagnostics(entry: (Seq<u8>, BValueView)) -> Seq<DiagnosticView> {
    if file_shape(entry.0) is None {
        seq![DiagnosticView::SkippedFileKey(text_of(entry.0))]
    } else {
        Seq::empty()
    }
}

/// The reports on a file's dictionary, in the order of its entries.
pub open spec fn file_diagnostics(entries: Seq<(Seq<u8>, BValueView)>) -> Seq<DiagnosticView>
    decreases entries.len(),
{
    if entries.len() == 0 {
        Seq::empty()
    } else {
        file_diagnostics(entries.drop_last()) + file_entry_diagnostics(entries.last())
    }
}

/// The reports on an item of the list of files: those on its dictionary,
/// where it is one.
pub open spec fn file_item_diagnostics(item: BValueView) -> Seq<DiagnosticView> {
    match item {
        BValueView::Dict(entries) => file_diagnostics(entries),
        _ => Seq::empty(),
    }
}

/// The reports on a list of files, in the order of its items.
pub open spec fn files_diagnostics(items: Seq<BValueView>) -> Seq<DiagnosticView>
    decreases items.len(),
{
    if items.len() == 0 {
        Seq::empty()
    } else {
        files_diagnostics(items.drop_last()) + file_item_diagnostics(items.last())
    }
}

/// What an entry of the `info` dictionary is reported with: its key, where
/// the decoder does not know it; the length of the pieces buffer; the
/// reports on the list of files.
pub open spec fn info_entry_diagnostics(entry: (Seq<u8>, BValueView)) -> Seq<DiagnosticView> {
    if info_shape(entry.0) is None {
        seq![DiagnosticView::SkippedInfoKey(text_of(entry.0))]
    } else {
        match entry.1 {
            BValueView::Bytes(bytes) => if entry.0 == key("pieces") {
                seq![DiagnosticView::PiecesLength(bytes.len())]
            } else {
                Seq::empty()
            },
            BValueView::List(items) => if entry.0 == key("files") {
                files_diagnostics(items)
            } else {
                Seq::empty()
            },
            _ => Seq::empty(),
        }
    }
}

/// The reports on an `info` dictionary, in the order of its entries, up to
/// its first faulty private flag.
pub open spec fn info_diagnostics(entries: Seq<(Seq<u8>, BValueView)>) -> Seq<DiagnosticView>
    decreases entries.len(),
{
    if entries.len() == 0 {
        Seq::empty()
    } else if private_faults(entries.drop_last()).len() > 0 {
        info_diagnostics(entries.drop_last())
    } else {
        info_diagnostics(entries.drop_last()) + info_entry_diagnostics(entries.last())
    }
}

/// What an entry of the top-level dictionary is reported with: its key,
/// where the decoder does not know it; the reports on the `info` dictionary.
pub open spec fn entry_diagnostics(entry: (Seq<u8>, BValueView)) -> Seq<DiagnosticView> {
    if top_level_shape(entry.0) is None {
        seq![DiagnosticView::SkippedDictKey(text_of(entry.0))]
    } else {
        match entry.1 {
            BValueView::Dict(info) => if entry.0 == key("info") {
                info_diagnostics(info)
            } else {
                Seq::empty()
            },
            _ => Seq::empty(),
        }
    }
}

/// The reports on a top-level dictionary, in the order of its entries, up to
/// the first fault.
pub open spec fn dict_diagnostics(entries: Seq<(Seq<u8>, BValueView)>) -> Seq<DiagnosticView>
    decreases entries.len(),
{
    if entries.len() == 0 {
        Seq::empty()
    } else if faults(entries.drop_last()).len() > 0 {
        dict_diagnostics(entries.drop_last())
    } else {
        dict_diagnostics(entries.drop_last()) + entry_diagnostics(entries.last())
    }
}

/// What decoding a document reports, in the order of the document: every
/// key that is passed over as unknown, at the top level, in the `info`
/// dictionary and in the dictionaries of the files, and the length of the
/// pieces buffer. A fault ends the reports; a document that is no dictionary
/// has none.
pub open spec fn diagnostics(document: BValueView) -> Seq<DiagnosticView> {
    match document {
        BValueView::Dict(entries) => dict_diagnostics(entries),
        _ => Seq::empty(),
    }
}

} // verus!

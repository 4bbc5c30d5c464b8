//! What holds of every document that is decoded: which documents are
//! refused, what becomes of the private flag, that unknown keys and values
//! of the wrong shape change nothing, that an unknown key is reported, and
//! that the order of the keys does not matter.

use vstd::prelude::*;
use crate::models::bencode::{distinct_keys, BValueView};
use crate::utils::diagnostics::{diagnostics, dict_diagnostics, DiagnosticView};
use crate::utils::parse_torrent_verbose::{
    decoded, faults, info_fault, info_of, info_shape, key, last_of, lemma_keys_differ,
    private_fault, private_faults, top_level_shape, DecodeError, Shape,
};
use crate::utils::text::text_of;

verus! {

/// A document that is no dictionary is refused, whatever it holds, and a
/// dictionary is refused only for a faulty private flag.
pub proof fn lemma_only_dictionaries_decode(document: BValueView)
    ensures
        document is Bytes ==> decoded(document).err() == Some(DecodeError::UnexpectedBytes),
        document is Int ==> decoded(document).err() == Some(DecodeError::UnexpectedInt),
        document is List ==> decoded(document).err() == Some(DecodeError::UnexpectedList),
        decoded(document) is Ok ==> document is Dict,
        document is Dict ==> (decoded(document) is Ok <==> faults(document->Dict_0).len() == 0),
{
}

/// An entry that is not looked for does not change what is found: neither
/// where it is put in nor where it is left out.
pub proof fn lemma_last_of_insert(
    entries: Seq<(Seq<u8>, BValueView)>,
    at: int,
    entry: (Seq<u8>, BValueView),
    key: Seq<u8>,
    shape: Shape,
)
    requires
        0 <= at <= entries.len(),
        entry.0 != key || entry.1.shape() != shape,
    ensures
        last_of(entries.insert(at, entry), key, shape) == last_of(entries, key, shape),
    decreases entries.len(),
{
    let longer = entries.insert(at, entry);
    if at == entries.len() {
        assert(longer.drop_last() =~= entries);
    } else {
        assert(longer.last() == entries.last());
        assert(longer.drop_last() =~= entries.drop_last().insert(at, entry));
        lemma_last_of_insert(entries.drop_last(), at, entry, key, shape);
    }
}

/// An entry without a fault does not change the faults of a dictionary.
pub proof fn lemma_faults_insert(
    entries: Seq<(Seq<u8>, BValueView)>,
    at: int,
    entry: (Seq<u8>, BValueView),
)
    requires
        0 <= at <= entries.len(),
        info_fault(entry) is None,
    ensures
        faults(entries.insert(at, entry)) == faults(entries),
    decreases entries.len(),
{
    let longer = entries.insert(at, entry);
    if at == entries.len() {
        assert(longer.drop_last() =~= entries);
    } else {
        assert(longer.last() == entries.last());
        assert(longer.drop_last() =~= entries.drop_last().insert(at, entry));
        lemma_faults_insert(entries.drop_last(), at, entry);
    }
}

/// The tolerance of the decoder at the top level: an entry whose value has
/// not the shape that the decoder asks of its key, put anywhere into a
/// dictionary, changes neither whether the document decodes nor what it
/// decodes to. An unknown key is such an entry whatever its value.
pub proof fn lemma_mismatch_ignored(
    entries: Seq<(Seq<u8>, BValueView)>,
    at: int,
    entry: (Seq<u8>, BValueView),
)
    requires
        0 <= at <= entries.len(),
        top_level_shape(entry.0) != Some(entry.1.shape()),
    ensures
        decoded(BValueView::Dict(entries.insert(at, entry))) == decoded(BValueView::Dict(entries)),
{
    lemma_keys_differ();
    lemma_faults_insert(entries, at, entry);
    lemma_last_of_insert(entries, at, entry, key("info"), Shape::Dict);
    lemma_last_of_insert(entries, at, entry, key("announce"), Shape::Bytes);
    lemma_last_of_insert(entries, at, entry, key("nodes"), Shape::List);
    lemma_last_of_insert(entries, at, entry, key("encoding"), Shape::Bytes);
    lemma_last_of_insert(entries, at, entry, key("httpseeds"), Shape::List);
    lemma_last_of_insert(entries, at, entry, key("announce-list"), Shape::List);
    lemma_last_of_insert(entries, at, entry, key("creation date"), Shape::Int);
    lemma_last_of_insert(entries, at, entry, key("comment"), Shape::Bytes);
    lemma_last_of_insert(entries, at, entry, key("created by"), Shape::Bytes);
}

/// Unknown keys are ignored: an entry under a key that the decoder does not
/// know at the top level, put anywhere into a dictionary, changes neither
/// whether the document decodes nor what it decodes to.
pub proof fn lemma_unknown_key_ignored(
    entries: Seq<(Seq<u8>, BValueView)>,
    at: int,
    unknown: Seq<u8>,
    value: BValueView,
)
    requires
        0 <= at <= entries.len(),
        top_level_shape(unknown) is None,
    ensures
        decoded(BValueView::Dict(entries.insert(at, (unknown, value)))) == decoded(
            BValueView::Dict(entries),
        ),
{
    lemma_mismatch_ignored(entries, at, (unknown, value));
}

/// An unknown key is reported: an entry under a key that the decoder does
/// not know at the top level, put at the end of a dictionary without fault,
/// adds its key, read as text, to the end of the reports and changes nothing
/// else.
pub proof fn lemma_unknown_key_is_reported(
    entries: Seq<(Seq<u8>, BValueView)>,
    unknown: Seq<u8>,
    value: BValueView,
)
    requires
        top_level_shape(unknown) is None,
        faults(entries).len() == 0,
    ensures
        decoded(BValueView::Dict(entries.push((unknown, value)))) == decoded(
            BValueView::Dict(entries),
        ),
        diagnostics(BValueView::Dict(entries.push((unknown, value)))) == diagnostics(
            BValueView::Dict(entries),
        ).push(DiagnosticView::SkippedDictKey(text_of(unknown))),
{
    let longer = entries.push((unknown, value));
    assert(longer =~= entries.insert(entries.len() as int, (unknown, value)));
    lemma_unknown_key_ignored(entries, entries.len() as int, unknown, value);
    assert(longer.drop_last() =~= entries);
    assert(dict_diagnostics(longer) =~= dict_diagnostics(entries).push(
        DiagnosticView::SkippedDictKey(text_of(unknown)),
    ));
}

/// An entry without a faulty private flag does not change the faulty
/// private flags of a dictionary.
pub proof fn lemma_private_faults_insert(
    entries: Seq<(Seq<u8>, BValueView)>,
    at: int,
    entry: (Seq<u8>, BValueView),
)
    requires
        0 <= at <= entries.len(),
        private_fault(entry) is None,
    ensures
        private_faults(entries.insert(at, entry)) == private_faults(entries),
    decreases entries.len(),
{
    let longer = entries.insert(at, entry);
    if at == entries.len() {
        assert(longer.drop_last() =~= entries);
    } else {
        assert(longer.last() == entries.last());
        assert(longer.drop_last() =~= entries.drop_last().insert(at, entry));
        lemma_private_faults_insert(entries.drop_last(), at, entry);
    }
}

/// The tolerance of the decoder in the `info` dictionary: an entry whose
/// value has not the shape that the decoder asks of its key, an unknown key
/// among them, changes neither the `info` record nor its faults.
pub proof fn lemma_info_mismatch_ignored(
    entries: Seq<(Seq<u8>, BValueView)>,
    at: int,
    entry: (Seq<u8>, BValueView),
)
    requires
        0 <= at <= entries.len(),
        info_shape(entry.0) != Some(entry.1.shape()),
    ensures
        info_of(entries.insert(at, entry)) == info_of(entries),
        private_faults(entries.insert(at, entry)) == private_faults(entries),
{
    lemma_keys_differ();
    lemma_private_faults_insert(entries, at, entry);
    lemma_last_of_insert(entries, at, entry, key("name"), Shape::Bytes);
    lemma_last_of_insert(entries, at, entry, key("pieces"), Shape::Bytes);
    lemma_last_of_insert(entries, at, entry, key("piece length"), Shape::Int);
    lemma_last_of_insert(entries, at, entry, key("md5sum"), Shape::Bytes);
    lemma_last_of_insert(entries, at, entry, key("length"), Shape::Int);
    lemma_last_of_insert(entries, at, entry, key("files"), Shape::List);
    lemma_last_of_insert(entries, at, entry, key("private"), Shape::Int);
    lemma_last_of_insert(entries, at, entry, key("path"), Shape::List);
    lemma_last_of_insert(entries, at, entry, key("root hash"), Shape::Bytes);
    lemma_last_of_insert(entries, at, entry, key("source"), Shape::Bytes);
}

/// Where some entry of a dictionary has a fault, the dictionary has faults;
/// where none has, it has none.
pub proof fn lemma_private_faults(entries: Seq<(Seq<u8>, BValueView)>)
    ensures
        private_faults(entries).len() > 0 <==> exists|i: int|
            0 <= i < entries.len() && (#[trigger] private_fault(entries[i])) is Some,
    decreases entries.len(),
{
    if entries.len() > 0 {
        let shorter = entries.drop_last();
        lemma_private_faults(shorter);
        if private_faults(shorter).len() > 0 {
            let i = choose|i: int|
                0 <= i < shorter.len() && (#[trigger] private_fault(shorter[i])) is Some;
            assert(private_fault(entries[i]) is Some);
        } else if private_fault(entries.last()) is Some {
            assert(private_fault(entries[entries.len() - 1]) is Some);
        } else {
            assert forall|i: int| 0 <= i < entries.len() implies (#[trigger] private_fault(
                entries[i],
            )) is None by {
                if i < shorter.len() {
                    assert(private_fault(shorter[i]) is None);
                }
            }
        }
    }
}

/// Where some entry of a top-level dictionary has a fault, the dictionary
/// has faults; where none has, it has none.
pub proof fn lemma_faults(entries: Seq<(Seq<u8>, BValueView)>)
    ensures
        faults(entries).len() > 0 <==> exists|i: int|
            0 <= i < entries.len() && (#[trigger] info_fault(entries[i])) is Some,
    decreases entries.len(),
{
    if entries.len() > 0 {
        let shorter = entries.drop_last();
        lemma_faults(shorter);
        if faults(shorter).len() > 0 {
            let i = choose|i: int|
                0 <= i < shorter.len() && (#[trigger] info_fault(shorter[i])) is Some;
            assert(info_fault(entries[i]) is Some);
        } else if info_fault(entries.last()) is Some {
            assert(info_fault(entries[entries.len() - 1]) is Some);
        } else {
            assert forall|i: int| 0 <= i < entries.len() implies (#[trigger] info_fault(
                entries[i],
            )) is None by {
                if i < shorter.len() {
                    assert(info_fault(shorter[i]) is None);
                }
            }
        }
    }
}

/// In a dictionary that holds each key once, what is found under a key is
/// the value of the one entry under that key, where it has the shape asked
/// for.
pub proof fn lemma_last_of_distinct(
    entries: Seq<(Seq<u8>, BValueView)>,
    at: int,
    shape: Shape,
)
    requires
        distinct_keys(entries),
        0 <= at < entries.len(),
    ensures
        last_of(entries, entries[at].0, shape) == (if entries[at].1.shape() == shape {
            Some(entries[at].1)
        } else {
            None
        }),
    decreases entries.len(),
{
    let key = entries[at].0;
    let shorter = entries.drop_last();
    if at == entries.len() - 1 {
        if entries[at].1.shape() != shape {
            lemma_last_of_absent(shorter, key, shape);
        }
    } else {
        assert(entries[at].0 != entries[entries.len() - 1].0);
        assert(shorter[at] == entries[at]);
        assert(distinct_keys(shorter)) by {
            assert forall|i: int, j: int| 0 <= i < j < shorter.len() implies (#[trigger] shorter[i]).0
                != (#[trigger] shorter[j]).0 by {
                assert(entries[i].0 != entries[j].0);
            }
        }
        lemma_last_of_distinct(shorter, at, shape);
    }
}

/// Under a key that no entry stands under, nothing is found.
pub proof fn lemma_last_of_absent(
    entries: Seq<(Seq<u8>, BValueView)>,
    key: Seq<u8>,
    shape: Shape,
)
    requires
        forall|i: int| 0 <= i < entries.len() ==> (#[trigger] entries[i]).0 != key,
    ensures
        last_of(entries, key, shape) is None,
    decreases entries.len(),
{
    if entries.len() > 0 {
        assert(entries[entries.len() - 1].0 != key);
        let shorter = entries.drop_last();
        assert forall|i: int| 0 <= i < shorter.len() implies (#[trigger] shorter[i]).0 != key by {
            assert(entries[i].0 != key);
        }
        lemma_last_of_absent(shorter, key, shape);
    }
}

/// A private flag other than 0 and 1 is fatal: a document whose `info`
/// dictionary holds one is refused for its private flag.
pub proof fn lemma_faulty_private_is_refused(
    entries: Seq<(Seq<u8>, BValueView)>,
    info: Seq<(Seq<u8>, BValueView)>,
    i: int,
    j: int,
    flag: int,
)
    requires
        0 <= i < entries.len(),
        entries[i] == (key("info"), BValueView::Dict(info)),
        0 <= j < info.len(),
        info[j] == (key("private"), BValueView::Int(flag)),
        flag != 0 && flag != 1,
    ensures
        decoded(BValueView::Dict(entries)) is Err,
        decoded(BValueView::Dict(entries))->Err_0 is UnexpectedPrivate,
{
    lemma_private_faults(info);
    assert(private_fault(info[j]) is Some);
    assert(info_fault(entries[i]) is Some);
    lemma_faults(entries);
}

/// A private flag of 0 or 1 is kept: in a document that holds each key
/// once, a flag of 0 or 1 in the `info` dictionary is the private flag of
/// the decoded metadata.
pub proof fn lemma_private_flag_is_kept(
    entries: Seq<(Seq<u8>, BValueView)>,
    info: Seq<(Seq<u8>, BValueView)>,
    i: int,
    j: int,
    flag: int,
)
    requires
        distinct_keys(entries),
        distinct_keys(info),
        0 <= i < entries.len(),
        entries[i] == (key("info"), BValueView::Dict(info)),
        0 <= j < info.len(),
        info[j] == (key("private"), BValueView::Int(flag)),
        flag == 0 || flag == 1,
    ensures
        decoded(BValueView::Dict(entries)) is Ok,
        decoded(BValueView::Dict(entries))->Ok_0.info.private == Some(flag),
{
    lemma_private_faults(info);
    assert forall|k: int| 0 <= k < info.len() implies (#[trigger] private_fault(info[k])) is None by {
        if k < j {
            assert(info[k].0 != info[j].0);
        } else if k > j {
            assert(info[j].0 != info[k].0);
        }
    }
    lemma_no_fault_elsewhere(entries, info, i);
    lemma_last_of_distinct(entries, i, Shape::Dict);
    lemma_last_of_distinct(info, j, Shape::Int);
}

/// A missing private flag stays unset: in a document that holds each key
/// once and whose `info` dictionary has no entry under `private`, the
/// decoded metadata has no private flag.
pub proof fn lemma_private_flag_absent(
    entries: Seq<(Seq<u8>, BValueView)>,
    info: Seq<(Seq<u8>, BValueView)>,
    i: int,
)
    requires
        distinct_keys(entries),
        0 <= i < entries.len(),
        entries[i] == (key("info"), BValueView::Dict(info)),
        forall|j: int| 0 <= j < info.len() ==> (#[trigger] info[j]).0 != key("private"),
    ensures
        decoded(BValueView::Dict(entries)) is Ok,
        decoded(BValueView::Dict(entries))->Ok_0.info.private is None,
{
    lemma_private_faults(info);
    assert forall|k: int| 0 <= k < info.len() implies (#[trigger] private_fault(info[k])) is None by {
        assert(info[k].0 != key("private"));
    }
    lemma_no_fault_elsewhere(entries, info, i);
    lemma_last_of_distinct(entries, i, Shape::Dict);
    lemma_last_of_absent(info, key("private"), Shape::Int);
}

/// In a dictionary that holds each key once, the `info` dictionary is the
/// only place for a fault.
proof fn lemma_no_fault_elsewhere(
    entries: Seq<(Seq<u8>, BValueView)>,
    info: Seq<(Seq<u8>, BValueView)>,
    i: int,
)
    requires
        distinct_keys(entries),
        0 <= i < entries.len(),
        entries[i] == (key("info"), BValueView::Dict(info)),
        private_faults(info).len() == 0,
    ensures
        faults(entries).len() == 0,
{
    lemma_faults(entries);
    assert forall|k: int| 0 <= k < entries.len() implies (#[trigger] info_fault(
        entries[k],
    )) is None by {
        if k < i {
            assert(entries[k].0 != entries[i].0);
        } else if k > i {
            assert(entries[i].0 != entries[k].0);
        }
    }
}

/// What is found under a key is the value of an entry under that key.
pub proof fn lemma_last_of_is_an_entry(
    entries: Seq<(Seq<u8>, BValueView)>,
    key: Seq<u8>,
    shape: Shape,
)
    requires
        last_of(entries, key, shape) is Some,
    ensures
        entries.contains((key, last_of(entries, key, shape)->0)),
        last_of(entries, key, shape)->0.shape() == shape,
    decreases entries.len(),
{
    if entries.last().0 == key && entries.last().1.shape() == shape {
        assert(entries[entries.len() - 1] == (key, entries.last().1));
    } else {
        let shorter = entries.drop_last();
        lemma_last_of_is_an_entry(shorter, key, shape);
        let found = (key, last_of(shorter, key, shape)->0);
        let i = choose|i: int| 0 <= i < shorter.len() && shorter[i] == found;
        assert(entries[i] == found);
    }
}

/// Two dictionaries hold the same entries, in whatever order.
pub open spec fn same_entries(
    a: Seq<(Seq<u8>, BValueView)>,
    b: Seq<(Seq<u8>, BValueView)>,
) -> bool {
    forall|entry: (Seq<u8>, BValueView)| a.contains(entry) <==> b.contains(entry)
}

/// In dictionaries that hold each key once, what is found under a key does
/// not depend on the order of the entries.
pub proof fn lemma_last_of_any_order(
    a: Seq<(Seq<u8>, BValueView)>,
    b: Seq<(Seq<u8>, BValueView)>,
    key: Seq<u8>,
    shape: Shape,
)
    requires
        distinct_keys(a),
        distinct_keys(b),
        same_entries(a, b),
    ensures
        last_of(a, key, shape) == last_of(b, key, shape),
{
    if last_of(a, key, shape) is Some {
        lemma_last_of_is_an_entry(a, key, shape);
        let found = (key, last_of(a, key, shape)->0);
        assert(b.contains(found));
        let j = choose|j: int| 0 <= j < b.len() && b[j] == found;
        lemma_last_of_distinct(b, j, shape);
    } else if last_of(b, key, shape) is Some {
        lemma_last_of_is_an_entry(b, key, shape);
        let found = (key, last_of(b, key, shape)->0);
        assert(a.contains(found));
        let i = choose|i: int| 0 <= i < a.len() && a[i] == found;
        lemma_last_of_distinct(a, i, shape);
    }
}

/// In a dictionary that holds each key once, an entry with a fault is the
/// only one, and its fault the only fault.
proof fn lemma_single_fault(entries: Seq<(Seq<u8>, BValueView)>, at: int)
    requires
        distinct_keys(entries),
        0 <= at < entries.len(),
        info_fault(entries[at]) is Some,
    ensures
        faults(entries) == seq![info_fault(entries[at])->0],
    decreases entries.len(),
{
    let shorter = entries.drop_last();
    assert(distinct_keys(shorter)) by {
        assert forall|i: int, j: int| 0 <= i < j < shorter.len() implies (#[trigger] shorter[i]).0
            != (#[trigger] shorter[j]).0 by {
            assert(entries[i].0 != entries[j].0);
        }
    }
    if at == entries.len() - 1 {
        lemma_faults(shorter);
        assert forall|i: int| 0 <= i < shorter.len() implies (#[trigger] info_fault(
            shorter[i],
        )) is None by {
            assert(entries[i].0 != entries[at].0);
        }
        assert(faults(entries) =~= seq![info_fault(entries[at])->0]);
    } else {
        assert(entries[at].0 != entries[entries.len() - 1].0);
        assert(shorter[at] == entries[at]);
        lemma_single_fault(shorter, at);
    }
}

/// The order of the keys does not matter: two top-level dictionaries that
/// hold each key once and hold the same entries decode alike.
pub proof fn lemma_key_order_is_ignored(
    a: Seq<(Seq<u8>, BValueView)>,
    b: Seq<(Seq<u8>, BValueView)>,
)
    requires
        distinct_keys(a),
        distinct_keys(b),
        same_entries(a, b),
    ensures
        decoded(BValueView::Dict(a)) == decoded(BValueView::Dict(b)),
{
    lemma_faults(a);
    lemma_faults(b);
    if faults(a).len() > 0 {
        let i = choose|i: int| 0 <= i < a.len() && (#[trigger] info_fault(a[i])) is Some;
        assert(a.contains(a[i]));
        assert(b.contains(a[i]));
        let j = choose|j: int| 0 <= j < b.len() && b[j] == a[i];
        lemma_single_fault(a, i);
        lemma_single_fault(b, j);
    } else if faults(b).len() > 0 {
        let j = choose|j: int| 0 <= j < b.len() && (#[trigger] info_fault(b[j])) is Some;
        assert(b.contains(b[j]));
        assert(a.contains(b[j]));
        let i = choose|i: int| 0 <= i < a.len() && a[i] == b[j];
        assert(info_fault(a[i]) is Some);
    } else {
        lemma_last_of_any_order(a, b, key("info"), Shape::Dict);
        lemma_last_of_any_order(a, b, key("announce"), Shape::Bytes);
        lemma_last_of_any_order(a, b, key("nodes"), Shape::List);
        lemma_last_of_any_order(a, b, key("encoding"), Shape::Bytes);
        lemma_last_of_any_order(a, b, key("httpseeds"), Shape::List);
        lemma_last_of_any_order(a, b, key("announce-list"), Shape::List);
        lemma_last_of_any_order(a, b, key("creation date"), Shape::Int);
        lemma_last_of_any_order(a, b, key("comment"), Shape::Bytes);
        lemma_last_of_any_order(a, b, key("created by"), Shape::Bytes);
    }
}

} // verus!

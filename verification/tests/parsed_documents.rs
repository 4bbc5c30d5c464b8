use serde_bencode::value::Value;

use torrent_meta::models::bencode::BValue;
use torrent_meta::models::torrent_file::{TorrentFile, TorrentNode};
use torrent_meta::utils::parse_torrent_verbose::{decode_torrent, DecodeError};

fn document(value: Value) -> BValue {
    match value {
        Value::Bytes(bytes) => BValue::Bytes(bytes),
        Value::Int(int) => BValue::Int(int),
        Value::List(items) => BValue::List(items.into_iter().map(document).collect()),
        Value::Dict(entries) => BValue::Dict(
            entries
                .into_iter()
                .map(|(key, value)| (key, document(value)))
                .collect(),
        ),
    }
}

fn parse(bytes: &[u8]) -> BValue {
    document(serde_bencode::de::from_bytes::<Value>(bytes).unwrap())
}

#[test]
fn a_parsed_single_file_torrent_decodes() {
    let torrent = decode_torrent(parse(
        b"d8:announce31:http://tracker.example/announce4:infod6:lengthi5e4:name1:x12:piece lengthi16384eee",
    ))
    .unwrap();
    assert_eq!(torrent.info.name, "x");
    assert_eq!(torrent.info.piece_length, 16384);
    assert_eq!(torrent.info.length, Some(5));
    assert_eq!(torrent.info.pieces, None);
    assert_eq!(torrent.info.private, None);
    assert_eq!(
        torrent.announce,
        Some("http://tracker.example/announce".to_string())
    );
    assert_eq!(torrent.announce_list, None);
    assert_eq!(torrent.file_size(), 5);
    assert_eq!(
        torrent.announce_urls(),
        Ok(vec!["http://tracker.example/announce".to_string()])
    );
}

#[test]
fn a_parsed_multi_file_torrent_decodes() {
    let torrent = decode_torrent(parse(
        b"d13:announce-listll10:http://a/110:http://a/2el10:http://b/1ee7:comment2:hi13:creation datei1700000000e4:infod5:filesld6:lengthi30e4:pathl1:a5:b.txteed6:lengthi70e4:pathl1:ceee4:name3:dir12:piece lengthi32768e6:pieces3:\x00\x01\xff7:privatei1ee5:nodesll14:router.examplei6881eeee",
    ))
    .unwrap();
    assert_eq!(torrent.info.name, "dir");
    assert_eq!(torrent.info.pieces, Some(vec![0, 1, 255]));
    assert_eq!(torrent.info.private, Some(1));
    assert_eq!(torrent.info.length, None);
    assert_eq!(
        torrent.info.files,
        Some(vec![
            TorrentFile {
                path: vec!["a".to_string(), "b.txt".to_string()],
                length: 30,
                md5sum: None
            },
            TorrentFile {
                path: vec!["c".to_string()],
                length: 70,
                md5sum: None
            },
        ])
    );
    assert_eq!(torrent.file_size(), 100);
    assert_eq!(torrent.comment, Some("hi".to_string()));
    assert_eq!(torrent.creation_date, Some(1_700_000_000));
    assert_eq!(
        torrent.nodes,
        Some(vec![TorrentNode("router.example".to_string(), 6881)])
    );
    assert_eq!(
        torrent.announce_urls(),
        Ok(vec![
            "http://a/1".to_string(),
            "http://a/2".to_string(),
            "http://b/1".to_string()
        ])
    );
}

#[test]
fn a_parsed_document_with_a_faulty_private_flag_is_refused() {
    assert_eq!(
        decode_torrent(parse(b"d4:infod4:name1:x7:privatei7eee")),
        Err(DecodeError::UnexpectedPrivate(7))
    );
}

#[test]
fn a_parsed_document_that_is_no_dictionary_is_refused() {
    assert_eq!(
        decode_torrent(parse(b"4:info")),
        Err(DecodeError::UnexpectedBytes)
    );
    assert_eq!(decode_torrent(parse(b"i42e")), Err(DecodeError::UnexpectedInt));
    assert_eq!(
        decode_torrent(parse(b"l4:infoe")),
        Err(DecodeError::UnexpectedList)
    );
}

use torrent_meta::models::bencode::BValue;
use torrent_meta::models::torrent_file::{
    Torrent, TorrentFile, TorrentInfo, TorrentNode,
};
use torrent_meta::utils::parse_torrent_verbose::{decode_torrent, DecodeError};

fn bytes(text: &str) -> BValue {
    BValue::Bytes(text.as_bytes().to_vec())
}

fn entry(key: &str, value: BValue) -> (Vec<u8>, BValue) {
    (key.as_bytes().to_vec(), value)
}

fn empty_info() -> TorrentInfo {
    TorrentInfo {
        name: String::new(),
        pieces: None,
        piece_length: 0,
        md5sum: None,
        length: None,
        files: None,
        private: None,
        path: None,
        root_hash: None,
        source: None,
    }
}

fn unset(info: TorrentInfo) -> Torrent {
    Torrent {
        info,
        announce: None,
        nodes: None,
        encoding: None,
        httpseeds: None,
        announce_list: None,
        creation_date: None,
        comment: None,
        created_by: None,
    }
}

fn with_info(info_entries: Vec<(Vec<u8>, BValue)>) -> BValue {
    BValue::Dict(vec![entry("info", BValue::Dict(info_entries))])
}

#[test]
fn the_small_single_file_document_decodes_field_by_field() {
    let document = BValue::Dict(vec![
        entry(
            "info",
            BValue::Dict(vec![
                entry("name", bytes("x")),
                entry("piece length", BValue::Int(16384)),
                entry("length", BValue::Int(5)),
            ]),
        ),
        entry("announce", bytes("http://tracker.example/announce")),
    ]);

    let torrent = decode_torrent(document).unwrap();

    let mut info = empty_info();
    info.name = "x".to_string();
    info.piece_length = 16384;
    info.length = Some(5);
    let mut expected = unset(info);
    expected.announce = Some("http://tracker.example/announce".to_string());
    assert_eq!(torrent, expected);
    assert_eq!(torrent.announce_list, None);
    assert_eq!(torrent.file_size(), 5);
    assert_eq!(torrent.checked_file_size(), Some(5));
    assert_eq!(
        torrent.announce_urls(),
        Ok(vec!["http://tracker.example/announce".to_string()])
    );
}

#[test]
fn a_document_without_a_private_flag_has_none() {
    let torrent = decode_torrent(with_info(vec![entry("name", bytes("x"))])).unwrap();
    assert_eq!(torrent.info.private, None);
}

#[test]
fn a_private_flag_of_zero_or_one_is_kept() {
    let torrent = decode_torrent(with_info(vec![entry("private", BValue::Int(0))])).unwrap();
    assert_eq!(torrent.info.private, Some(0));
    let torrent = decode_torrent(with_info(vec![entry("private", BValue::Int(1))])).unwrap();
    assert_eq!(torrent.info.private, Some(1));
}

#[test]
fn a_private_flag_of_seven_is_refused() {
    assert_eq!(
        decode_torrent(with_info(vec![entry("private", BValue::Int(7))])),
        Err(DecodeError::UnexpectedPrivate(7))
    );
    assert_eq!(
        decode_torrent(with_info(vec![
            entry("name", bytes("x")),
            entry("private", BValue::Int(-1)),
            entry("length", BValue::Int(5)),
        ])),
        Err(DecodeError::UnexpectedPrivate(-1))
    );
    assert_eq!(
        decode_torrent(with_info(vec![entry("private", BValue::Int(2))])),
        Err(DecodeError::UnexpectedPrivate(2))
    );
}

#[test]
fn a_private_flag_that_is_no_integer_is_passed_over() {
    let torrent = decode_torrent(with_info(vec![entry("private", bytes("7"))])).unwrap();
    assert_eq!(torrent.info.private, None);
}

#[test]
fn of_several_faulty_private_flags_the_first_is_reported() {
    let document = BValue::Dict(vec![
        entry("announce", bytes("a")),
        entry(
            "info",
            BValue::Dict(vec![
                entry("private", BValue::Int(1)),
                entry("private", BValue::Int(9)),
                entry("private", BValue::Int(8)),
            ]),
        ),
        entry("info", BValue::Dict(vec![entry("private", BValue::Int(5))])),
    ]);
    assert_eq!(
        decode_torrent(document),
        Err(DecodeError::UnexpectedPrivate(9))
    );
}

#[test]
fn a_document_that_is_no_dictionary_is_refused() {
    assert_eq!(
        decode_torrent(bytes("d4:infodee")),
        Err(DecodeError::UnexpectedBytes)
    );
    assert_eq!(
        decode_torrent(BValue::Int(0)),
        Err(DecodeError::UnexpectedInt)
    );
    assert_eq!(
        decode_torrent(BValue::List(vec![with_info(vec![])])),
        Err(DecodeError::UnexpectedList)
    );
    assert_eq!(
        decode_torrent(BValue::List(Vec::new())),
        Err(DecodeError::UnexpectedList)
    );
}

#[test]
fn an_unknown_key_is_ignored_wherever_it_stands() {
    let known = vec![
        entry(
            "info",
            BValue::Dict(vec![entry("name", bytes("x")), entry("length", BValue::Int(5))]),
        ),
        entry("announce", bytes("http://tracker.example/announce")),
    ];
    let plain = decode_torrent(BValue::Dict(vec![
        entry(
            "info",
            BValue::Dict(vec![entry("name", bytes("x")), entry("length", BValue::Int(5))]),
        ),
        entry("announce", bytes("http://tracker.example/announce")),
    ]))
    .unwrap();
    assert_eq!(plain.announce, Some("http://tracker.example/announce".to_string()));
    for at in 0..=known.len() {
        let mut entries = vec![
            entry(
                "info",
                BValue::Dict(vec![entry("name", bytes("x")), entry("length", BValue::Int(5))]),
            ),
            entry("announce", bytes("http://tracker.example/announce")),
        ];
        entries.insert(at, entry("x-unknown", BValue::List(vec![BValue::Int(1)])));
        assert_eq!(decode_torrent(BValue::Dict(entries)), Ok(plain.clone()));
    }
}

#[test]
fn an_unknown_key_of_the_info_dictionary_is_ignored() {
    let torrent = decode_torrent(with_info(vec![
        entry("name", bytes("x")),
        entry("meta version", BValue::Int(2)),
    ]))
    .unwrap();
    let mut info = empty_info();
    info.name = "x".to_string();
    assert_eq!(torrent, unset(info));
}

#[test]
fn an_empty_dictionary_decodes_to_the_empty_info_record_and_nothing_else() {
    let torrent = decode_torrent(BValue::Dict(Vec::new())).unwrap();
    assert_eq!(torrent, unset(TorrentInfo::default()));
    assert_eq!(torrent.info.pieces, Some(Vec::new()));
    assert_eq!(torrent.info.length, Some(0));
    assert_eq!(torrent.announce_list, None);
}

#[test]
fn an_info_value_that_is_no_dictionary_leaves_the_empty_info_record() {
    let torrent = decode_torrent(BValue::Dict(vec![
        entry("info", bytes("not a dictionary")),
        entry("comment", bytes("c")),
    ]))
    .unwrap();
    let mut expected = unset(TorrentInfo::default());
    expected.comment = Some("c".to_string());
    assert_eq!(torrent, expected);
}

#[test]
fn an_empty_info_dictionary_gives_an_info_record_with_nothing_set() {
    let torrent = decode_torrent(with_info(Vec::new())).unwrap();
    assert_eq!(torrent, unset(empty_info()));
    assert_eq!(torrent.info.pieces, None);
    assert_eq!(torrent.info.length, None);
}

#[test]
fn every_top_level_field_is_taken_from_its_key() {
    let document = BValue::Dict(vec![
        entry("announce", bytes("http://a/announce")),
        entry("encoding", bytes("UTF-8")),
        entry("comment", bytes("a comment")),
        entry("created by", bytes("a tool")),
        entry("creation date", BValue::Int(1_700_000_000)),
        entry(
            "httpseeds",
            BValue::List(vec![bytes("http://seed/1"), BValue::Int(3), bytes("http://seed/2")]),
        ),
        entry(
            "nodes",
            BValue::List(vec![
                BValue::List(vec![bytes("router.example"), BValue::Int(6881)]),
                BValue::List(vec![BValue::Int(6881), bytes("router.example")]),
                bytes("router.example:6881"),
                BValue::List(vec![bytes("only a host")]),
                BValue::List(vec![bytes("10.0.0.1"), BValue::Int(-1)]),
                BValue::List(vec![bytes("three"), BValue::Int(1), BValue::Int(2)]),
                BValue::List(Vec::new()),
            ]),
        ),
        entry(
            "announce-list",
            BValue::List(vec![
                BValue::List(vec![bytes("http://a/1"), BValue::Int(0), bytes("http://a/2")]),
                bytes("http://stray"),
                BValue::List(Vec::new()),
                BValue::List(vec![bytes("http://b/1")]),
            ]),
        ),
    ]);

    let torrent = decode_torrent(document).unwrap();

    let mut expected = unset(TorrentInfo::default());
    expected.announce = Some("http://a/announce".to_string());
    expected.encoding = Some("UTF-8".to_string());
    expected.comment = Some("a comment".to_string());
    expected.created_by = Some("a tool".to_string());
    expected.creation_date = Some(1_700_000_000);
    expected.httpseeds = Some(vec!["http://seed/1".to_string(), "http://seed/2".to_string()]);
    expected.nodes = Some(vec![
        TorrentNode("router.example".to_string(), 6881),
        TorrentNode("10.0.0.1".to_string(), -1),
    ]);
    expected.announce_list = Some(vec![
        vec!["http://a/1".to_string(), "http://a/2".to_string()],
        Vec::new(),
        vec!["http://b/1".to_string()],
    ]);
    assert_eq!(torrent, expected);
    assert_eq!(
        torrent.announce_urls(),
        Ok(vec![
            "http://a/1".to_string(),
            "http://a/2".to_string(),
            "http://b/1".to_string()
        ])
    );
}

#[test]
fn every_field_of_the_info_record_is_taken_from_its_key() {
    let torrent = decode_torrent(with_info(vec![
        entry("name", bytes("a name")),
        entry("pieces", BValue::Bytes(vec![0, 159, 146, 150, 255])),
        entry("piece length", BValue::Int(262_144)),
        entry("md5sum", bytes("d41d8cd98f00b204e9800998ecf8427e")),
        entry("length", BValue::Int(-3)),
        entry("private", BValue::Int(1)),
        entry("path", BValue::List(vec![bytes("dir"), BValue::Int(1), bytes("file")])),
        entry("root hash", bytes("root")),
        entry("source", bytes("a source")),
        entry(
            "files",
            BValue::List(vec![
                BValue::Dict(vec![
                    entry("path", BValue::List(vec![bytes("a"), BValue::List(Vec::new()), bytes("b.txt")])),
                    entry("length", BValue::Int(30)),
                    entry("md5sum", bytes("sum")),
                    entry("attr", bytes("x")),
                ]),
                bytes("not a file"),
                BValue::Int(4),
                BValue::List(vec![bytes("c")]),
                BValue::Dict(Vec::new()),
                BValue::Dict(vec![
                    entry("path", bytes("not a list")),
                    entry("length", bytes("70")),
                    entry("md5sum", BValue::Int(1)),
                ]),
            ]),
        ),
    ]))
    .unwrap();

    let expected = TorrentInfo {
        name: "a name".to_string(),
        pieces: Some(vec![0, 159, 146, 150, 255]),
        piece_length: 262_144,
        md5sum: Some("d41d8cd98f00b204e9800998ecf8427e".to_string()),
        length: Some(-3),
        files: Some(vec![
            TorrentFile {
                path: vec!["a".to_string(), "b.txt".to_string()],
                length: 30,
                md5sum: Some("sum".to_string()),
            },
            TorrentFile {
                path: Vec::new(),
                length: 0,
                md5sum: None,
            },
            TorrentFile {
                path: Vec::new(),
                length: 0,
                md5sum: None,
            },
        ]),
        private: Some(1),
        path: Some(vec!["dir".to_string(), "file".to_string()]),
        root_hash: Some("root".to_string()),
        source: Some("a source".to_string()),
    };
    assert_eq!(torrent, unset(expected));
}

#[test]
fn a_value_of_the_wrong_shape_leaves_its_field_unset() {
    let torrent = decode_torrent(BValue::Dict(vec![
        entry("announce", BValue::Int(1)),
        entry("encoding", BValue::List(Vec::new())),
        entry("comment", BValue::Dict(Vec::new())),
        entry("created by", BValue::Int(2)),
        entry("creation date", bytes("yesterday")),
        entry("httpseeds", bytes("http://seed")),
        entry("nodes", BValue::Int(3)),
        entry("announce-list", BValue::Dict(Vec::new())),
        entry(
            "info",
            BValue::Dict(vec![
                entry("name", BValue::Int(1)),
                entry("pieces", BValue::Int(1)),
                entry("piece length", bytes("16384")),
                entry("md5sum", BValue::Int(1)),
                entry("length", bytes("5")),
                entry("files", BValue::Dict(Vec::new())),
                entry("path", bytes("a/b")),
                entry("root hash", BValue::Int(1)),
                entry("source", BValue::List(Vec::new())),
            ]),
        ),
    ]))
    .unwrap();
    assert_eq!(torrent, unset(empty_info()));
}

#[test]
fn text_that_is_not_valid_utf8_is_repaired() {
    let torrent = decode_torrent(BValue::Dict(vec![
        (b"comment".to_vec(), BValue::Bytes(vec![b'a', 0xff, b'b'])),
        (b"announce".to_vec(), BValue::Bytes(vec![0xe2, 0x82, 0xac])),
        (b"created by".to_vec(), BValue::Bytes(vec![0xc3])),
    ]))
    .unwrap();
    assert_eq!(torrent.comment, Some("a\u{FFFD}b".to_string()));
    assert_eq!(torrent.announce, Some("\u{20ac}".to_string()));
    assert_eq!(torrent.created_by, Some("\u{FFFD}".to_string()));
}

#[test]
fn a_key_that_is_not_valid_utf8_is_no_known_key() {
    let mut key = b"announce".to_vec();
    key.push(0xff);
    let torrent = decode_torrent(BValue::Dict(vec![
        (key, bytes("http://a")),
        (vec![0xff], bytes("x")),
        (Vec::new(), bytes("y")),
        (b"Announce".to_vec(), bytes("z")),
        (b"announce ".to_vec(), bytes("z")),
    ]))
    .unwrap();
    assert_eq!(torrent, unset(TorrentInfo::default()));
}

#[test]
fn of_two_values_under_one_key_the_last_of_the_right_shape_counts() {
    let torrent = decode_torrent(BValue::Dict(vec![
        entry("comment", bytes("first")),
        entry("comment", bytes("second")),
        entry("comment", BValue::Int(3)),
        entry("info", BValue::Dict(vec![entry("name", bytes("one"))])),
        entry("info", BValue::Dict(vec![entry("length", BValue::Int(2))])),
        entry("info", BValue::Int(0)),
    ]))
    .unwrap();
    let mut info = empty_info();
    info.length = Some(2);
    let mut expected = unset(info);
    expected.comment = Some("second".to_string());
    assert_eq!(torrent, expected);
}

#[test]
fn the_order_of_the_keys_does_not_matter() {
    let forward = decode_torrent(BValue::Dict(vec![
        entry("announce", bytes("http://a")),
        entry("comment", bytes("c")),
        entry(
            "info",
            BValue::Dict(vec![entry("length", BValue::Int(5)), entry("name", bytes("x"))]),
        ),
    ]))
    .unwrap();
    let backward = decode_torrent(BValue::Dict(vec![
        entry(
            "info",
            BValue::Dict(vec![entry("name", bytes("x")), entry("length", BValue::Int(5))]),
        ),
        entry("comment", bytes("c")),
        entry("announce", bytes("http://a")),
    ]))
    .unwrap();
    assert_eq!(forward, backward);
}

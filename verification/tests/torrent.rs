use torrent_meta::models::info_hash::InfoHash;
use torrent_meta::models::torrent_file::{
    MissingAnnounce, Torrent, TorrentFile, TorrentInfo,
};

fn file(length: i64) -> TorrentFile {
    TorrentFile {
        path: vec!["f".to_string()],
        length,
        md5sum: None,
    }
}

fn torrent(length: Option<i64>, files: Option<Vec<TorrentFile>>) -> Torrent {
    let mut torrent = Torrent::default();
    torrent.info.length = length;
    torrent.info.files = files;
    torrent
}

#[test]
fn the_default_info_record_is_empty_with_lengths_of_zero() {
    assert_eq!(
        TorrentInfo::default(),
        TorrentInfo {
            name: String::new(),
            pieces: Some(Vec::new()),
            piece_length: 0,
            md5sum: None,
            length: Some(0),
            files: None,
            private: None,
            path: None,
            root_hash: None,
            source: None,
        }
    );
}

#[test]
fn the_default_torrent_has_an_empty_list_of_tiers_and_nothing_else() {
    assert_eq!(
        Torrent::default(),
        Torrent {
            info: TorrentInfo::default(),
            announce: None,
            nodes: None,
            encoding: None,
            httpseeds: None,
            announce_list: Some(Vec::new()),
            creation_date: None,
            comment: None,
            created_by: None,
        }
    );
    assert_eq!(Torrent::default().file_size(), 0);
    assert_eq!(Torrent::default().announce_urls(), Err(MissingAnnounce));
}

#[test]
fn the_size_of_a_single_file_torrent_is_its_length() {
    assert_eq!(torrent(Some(100), None).file_size(), 100);
    assert_eq!(torrent(Some(100), None).checked_file_size(), Some(100));
}

#[test]
fn the_size_of_a_multi_file_torrent_is_the_sum_of_its_files() {
    let torrent = torrent(None, Some(vec![file(30), file(70)]));
    assert_eq!(torrent.file_size(), 100);
    assert_eq!(torrent.checked_file_size(), Some(100));
}

#[test]
fn the_single_file_length_comes_before_the_files() {
    let torrent = torrent(Some(7), Some(vec![file(30), file(70)]));
    assert_eq!(torrent.file_size(), 7);
    assert_eq!(torrent.checked_file_size(), Some(7));
}

#[test]
fn the_size_of_a_torrent_without_length_and_files_is_zero() {
    assert_eq!(torrent(None, None).file_size(), 0);
    assert_eq!(torrent(None, Some(Vec::new())).file_size(), 0);
    assert_eq!(torrent(None, None).checked_file_size(), Some(0));
}

#[test]
fn the_size_is_read_anew_each_time() {
    let mut torrent = torrent(None, Some(vec![file(30), file(70)]));
    assert_eq!(torrent.file_size(), 100);
    torrent.info.files = Some(vec![file(1), file(2), file(-4)]);
    assert_eq!(torrent.file_size(), -1);
    torrent.info.length = Some(9);
    assert_eq!(torrent.file_size(), 9);
}

#[test]
fn a_sum_that_does_not_fit_is_none_and_one_that_fits_in_the_end_is_some() {
    let too_large = torrent(None, Some(vec![file(i64::MAX), file(1)]));
    assert_eq!(too_large.checked_file_size(), None);
    let too_small = torrent(None, Some(vec![file(i64::MIN), file(-1)]));
    assert_eq!(too_small.checked_file_size(), None);
    let fits = torrent(None, Some(vec![file(i64::MAX), file(i64::MAX), file(-i64::MAX)]));
    assert_eq!(fits.checked_file_size(), Some(i64::MAX));
    assert_eq!(fits.file_size(), i64::MAX);
    let edge = torrent(None, Some(vec![file(i64::MIN), file(i64::MIN), file(i64::MAX), file(1)]));
    assert_eq!(edge.checked_file_size(), Some(i64::MIN));
}

#[test]
fn the_announce_urls_are_those_of_all_tiers_in_order() {
    let mut torrent = Torrent::default();
    torrent.announce = Some("http://ignored".to_string());
    torrent.announce_list = Some(vec![
        vec!["http://a/1".to_string(), "http://a/2".to_string()],
        Vec::new(),
        vec!["http://b/1".to_string()],
    ]);
    assert_eq!(
        torrent.announce_urls(),
        Ok(vec![
            "http://a/1".to_string(),
            "http://a/2".to_string(),
            "http://b/1".to_string()
        ])
    );
}

#[test]
fn without_tiers_the_announce_url_is_the_only_one() {
    let mut torrent = Torrent::default();
    torrent.announce_list = None;
    torrent.announce = Some("http://tracker.example/announce".to_string());
    assert_eq!(
        torrent.announce_urls(),
        Ok(vec!["http://tracker.example/announce".to_string()])
    );
}

#[test]
fn without_tiers_and_announce_url_the_request_is_refused() {
    let mut torrent = Torrent::default();
    torrent.announce_list = None;
    torrent.announce = None;
    assert_eq!(torrent.announce_urls(), Err(MissingAnnounce));
}

#[test]
fn beside_tiers_without_a_url_the_announce_url_is_the_only_one() {
    let mut torrent = Torrent::default();
    torrent.announce = Some("http://tracker.example/announce".to_string());
    assert_eq!(torrent.announce_list, Some(Vec::new()));
    assert_eq!(
        torrent.announce_urls(),
        Ok(vec!["http://tracker.example/announce".to_string()])
    );
    torrent.announce_list = Some(vec![Vec::new(), Vec::new()]);
    assert_eq!(
        torrent.announce_urls(),
        Ok(vec!["http://tracker.example/announce".to_string()])
    );
}

#[test]
fn tiers_without_a_url_and_no_announce_url_are_refused() {
    let mut torrent = Torrent::default();
    torrent.announce = None;
    torrent.announce_list = Some(Vec::new());
    assert_eq!(torrent.announce_urls(), Err(MissingAnnounce));
    torrent.announce_list = Some(vec![Vec::new(), Vec::new(), Vec::new()]);
    assert_eq!(torrent.announce_urls(), Err(MissingAnnounce));
}

#[test]
fn the_announce_urls_are_never_an_empty_list() {
    let tiers: Vec<Option<Vec<Vec<String>>>> = vec![
        None,
        Some(Vec::new()),
        Some(vec![Vec::new()]),
        Some(vec![Vec::new(), vec!["http://a".to_string()]]),
    ];
    for announce_list in tiers {
        for announce in [None, Some("http://b".to_string())] {
            let mut torrent = Torrent::default();
            torrent.announce_list = announce_list.clone();
            torrent.announce = announce;
            match torrent.announce_urls() {
                Ok(urls) => assert!(!urls.is_empty()),
                Err(error) => assert_eq!(error, MissingAnnounce),
            }
        }
    }
}

#[test]
fn the_info_hash_is_the_sha1_digest_of_the_encoded_info_record() {
    assert_eq!(
        Torrent::calculate_info_hash_as_bytes(b""),
        [
            218, 57, 163, 238, 94, 107, 75, 13, 50, 85, 191, 239, 149, 96, 24, 144, 175, 216, 7,
            9
        ]
    );
    assert_eq!(
        Torrent::calculate_info_hash_as_bytes(b"abc"),
        [
            169, 153, 62, 54, 71, 6, 129, 106, 186, 62, 37, 113, 120, 80, 194, 108, 156, 208,
            216, 157
        ]
    );
    assert_eq!(
        Torrent::calculate_info_hash_as_bytes(b"d6:lengthi5e4:name1:x12:piece lengthi16384ee"),
        [
            50, 140, 157, 231, 233, 161, 147, 25, 194, 4, 220, 253, 42, 214, 242, 236, 54, 24,
            67, 187
        ]
    );
}

#[test]
fn the_info_hash_as_text_is_forty_lowercase_hex_digits() {
    assert_eq!(
        Torrent::info_hash(b""),
        "da39a3ee5e6b4b0d3255bfef95601890afd80709"
    );
    assert_eq!(
        Torrent::info_hash(b"abc"),
        "a9993e364706816aba3e25717850c26c9cd0d89d"
    );
    assert_eq!(
        Torrent::info_hash(b"d6:lengthi5e4:name1:x12:piece lengthi16384ee"),
        "328c9de7e9a19319c204dcfd2ad6f2ec361843bb"
    );
}

#[test]
fn the_info_hash_as_text_parses_to_the_info_hash_as_bytes() {
    let encoded = b"d6:lengthi5e4:name1:x12:piece lengthi16384ee";
    let parsed = InfoHash::from_str(&Torrent::info_hash(encoded)).unwrap();
    assert_eq!(parsed.bytes(), Torrent::calculate_info_hash_as_bytes(encoded));
}

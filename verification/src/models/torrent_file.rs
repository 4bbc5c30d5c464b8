//! The records of a torrent's metadata, and what is derived from them.

use vstd::prelude::*;
use crate::models::info_hash::InfoHash;
use crate::utils::digest::{sha1, sha1_digest, SHA1_MAX_INPUT_LEN};
use crate::utils::hex::hex_text;

verus! {

/// A DHT bootstrap node: host and port.
#[derive(PartialEq, Eq, Debug, Clone)]
pub struct TorrentNode(pub String, pub i64);

/// One file of a multi-file torrent.
#[derive(PartialEq, Eq, Debug, Clone)]
pub struct TorrentFile {
    /// Directory components, then the file's name.
    pub path: Vec<String>,
    /// Length in bytes.
    pub length: i64,
    /// Legacy checksum.
    pub md5sum: Option<String>,
}

/// The `info` record: what the info-hash is computed from.
#[derive(PartialEq, Eq, Debug, Clone)]
pub struct TorrentInfo {
    /// Suggested name of the file or directory.
    pub name: String,
    /// The concatenated piece hashes.
    pub pieces: Option<Vec<u8>>,
    /// Piece length in bytes.
    pub piece_length: i64,
    /// Legacy checksum of a single file.
    pub md5sum: Option<String>,
    /// Length of the single file.
    pub length: Option<i64>,
    /// The files of a multi-file torrent.
    pub files: Option<Vec<TorrentFile>>,
    /// The private flag: 0 or 1.
    pub private: Option<u8>,
    /// Path segments.
    pub path: Option<Vec<String>>,
    /// Root hash of the legacy multi-file hashing extension.
    pub root_hash: Option<String>,
    /// Source tag.
    pub source: Option<String>,
}

/// A torrent's metadata.
#[derive(PartialEq, Debug, Clone)]
pub struct Torrent {
    /// The `info` record.
    pub info: TorrentInfo,
    /// Primary announce URL.
    pub announce: Option<String>,
    /// DHT bootstrap nodes.
    pub nodes: Option<Vec<TorrentNode>>,
    /// Name of the text encoding.
    pub encoding: Option<String>,
    /// HTTP seed URLs.
    pub httpseeds: Option<Vec<String>>,
    /// Announce tiers: each a list of URLs.
    pub announce_list: Option<Vec<Vec<String>>>,
    /// Creation time in seconds since the epoch.
    pub creation_date: Option<i64>,
    /// Free-text comment.
    pub comment: Option<String>,
    /// Name of the tool that created the torrent.
    pub created_by: Option<String>,
}

/// Requesting the announce URLs of a torrent that has none: neither an
/// announce URL nor a URL in an announce tier.
#[derive(PartialEq, Eq, Structural, Clone, Copy, Debug)]
pub struct MissingAnnounce;

/// What a [`TorrentNode`] holds.
pub struct TorrentNodeView {
    pub host: Seq<char>,
    pub port: int,
}

/// What a [`TorrentFile`] holds.
pub struct TorrentFileView {
    pub path: Seq<Seq<char>>,
    pub length: int,
    pub md5sum: Option<Seq<char>>,
}

/// What a [`TorrentInfo`] holds.
pub struct TorrentInfoView {
    pub name: Seq<char>,
    pub pieces: Option<Seq<u8>>,
    pub piece_length: int,
    pub md5sum: Option<Seq<char>>,
    pub length: Option<int>,
    pub files: Option<Seq<TorrentFileView>>,
    pub private: Option<int>,
    pub path: Option<Seq<Seq<char>>>,
    pub root_hash: Option<Seq<char>>,
    pub source: Option<Seq<char>>,
}

/// What a [`Torrent`] holds.
pub struct TorrentView {
    pub info: TorrentInfoView,
    pub announce: Option<Seq<char>>,
    pub nodes: Option<Seq<TorrentNodeView>>,
    pub encoding: Option<Seq<char>>,
    pub httpseeds: Option<Seq<Seq<char>>>,
    pub announce_list: Option<Seq<Seq<Seq<char>>>>,
    pub creation_date: Option<int>,
    pub comment: Option<Seq<char>>,
    pub created_by: Option<Seq<char>>,
}

/// An optional integer as a mathematical integer.
pub open spec fn int_of(value: Option<i64>) -> Option<int> {
    match value {
        Some(v) => Some(v as int),
        None => None,
    }
}

impl DeepView for TorrentNode {
    type V = TorrentNodeView;

    open spec fn deep_view(&self) -> TorrentNodeView {
        TorrentNodeView { host: self.0@, port: self.1 as int }
    }
}

impl View for TorrentNode {
    type V = TorrentNodeView;

    open spec fn view(&self) -> TorrentNodeView {
        self.deep_view()
    }
}

impl DeepView for TorrentFile {
    type V = TorrentFileView;

    open spec fn deep_view(&self) -> TorrentFileView {
        TorrentFileView {
            path: self.path.deep_view(),
            length: self.length as int,
            md5sum: self.md5sum.deep_view(),
        }
    }
}

impl View for TorrentFile {
    type V = TorrentFileView;

    open spec fn view(&self) -> TorrentFileView {
        self.deep_view()
    }
}

impl DeepView for TorrentInfo {
    type V = TorrentInfoView;

    open spec fn deep_view(&self) -> TorrentInfoView {
        TorrentInfoView {
            name: self.name@,
            pieces: self.pieces.deep_view(),
            piece_length: self.piece_length as int,
            md5sum: self.md5sum.deep_view(),
            length: int_of(self.length),
            files: self.files.deep_view(),
            private: match self.private {
                Some(flag) => Some(flag as int),
                None => None,
            },
            path: self.path.deep_view(),
            root_hash: self.root_hash.deep_view(),
            source: self.source.deep_view(),
        }
    }
}

impl View for TorrentInfo {
    type V = TorrentInfoView;

    open spec fn view(&self) -> TorrentInfoView {
        self.deep_view()
    }
}

impl DeepView for Torrent {
    type V = TorrentView;

    open spec fn deep_view(&self) -> TorrentView {
        TorrentView {
            info: self.info.deep_view(),
            announce: self.announce.deep_view(),
            nodes: self.nodes.deep_view(),
            encoding: self.encoding.deep_view(),
            httpseeds: self.httpseeds.deep_view(),
            announce_list: self.announce_list.deep_view(),
            creation_date: int_of(self.creation_date),
            comment: self.comment.deep_view(),
            created_by: self.created_by.deep_view(),
        }
    }
}

impl View for Torrent {
    type V = TorrentView;

    open spec fn view(&self) -> TorrentView {
        self.deep_view()
    }
}

impl TorrentInfoView {
    /// The `info` record of a torrent whose document gave none: empty name
    /// and pieces, lengths of zero, nothing else.
    pub open spec fn empty() -> TorrentInfoView {
        TorrentInfoView {
            name: Seq::empty(),
            pieces: Some(Seq::empty()),
            piece_length: 0,
            md5sum: None,
            length: Some(0),
            files: None,
            private: None,
            path: None,
            root_hash: None,
            source: None,
        }
    }
}

impl Default for TorrentInfo {
    fn default() -> (info: Self)
        ensures
            info@ == TorrentInfoView::empty(),
    {
        let info = Self {
            name: String::new(),
            pieces: Some(Vec::new()),
            piece_length: 0,
            md5sum: None,
            length: Some(0),
            files: None,
            private: None,
            path: None,
            root_hash: None,
            source: None,
        };
        assert(info.pieces.deep_view() == Some(Seq::<u8>::empty())) by {
            assert(info.pieces->0.deep_view() =~= Seq::<u8>::empty());
        }
        info
    }
}

impl TorrentView {
    /// The metadata that `Torrent::default()` holds: an empty `info` record,
    /// no announce tier, nothing else.
    pub open spec fn empty() -> TorrentView {
        TorrentView {
            info: TorrentInfoView::empty(),
            announce: None,
            nodes: None,
            encoding: None,
            httpseeds: None,
            announce_list: Some(Seq::empty()),
            creation_date: None,
            comment: None,
            created_by: None,
        }
    }

    /// The total size of the content: the single file's length where there
    /// is one, else the sum of the lengths of the files, else zero.
    pub open spec fn total_size(self) -> int {
        match self.info.length {
            Some(length) => length,
            None => match self.info.files {
                None => 0,
                Some(files) => sum_of_lengths(files),
            },
        }
    }

    /// The URLs of all announce tiers, in their order; none where there are
    /// no tiers.
    pub open spec fn tier_urls(self) -> Seq<Seq<char>> {
        match self.announce_list {
            Some(tiers) => tiers.flatten(),
            None => Seq::empty(),
        }
    }

    /// The announce URLs: those of the tiers where the tiers hold at least
    /// one, else the one announce URL; `None` where there is no URL at all.
    /// The list is never empty.
    pub open spec fn announce_urls(self) -> Option<Seq<Seq<char>>> {
        if self.tier_urls().len() > 0 {
            Some(self.tier_urls())
        } else {
            match self.announce {
                Some(url) => Some(seq![url]),
                None => None,
            }
        }
    }
}

/// What a vector holds after a push is what it held before, then what was
/// pushed.
pub proof fn lemma_deep_view_push<T: DeepView>(before: Vec<T>, after: Vec<T>, item: T)
    requires
        after@ == before@.push(item),
    ensures
        after.deep_view() == before.deep_view().push(item.deep_view()),
{
    assert(after.deep_view() =~= before.deep_view().push(item.deep_view()));
}

/// The sum of the lengths of `files`.
pub open spec fn sum_of_lengths(files: Seq<TorrentFileView>) -> int
    decreases files.len(),
{
    if files.len() == 0 {
        0
    } else {
        sum_of_lengths(files.drop_last()) + files.last().length
    }
}

impl Default for Torrent {
    fn default() -> (torrent: Self)
        ensures
            torrent@ == TorrentView::empty(),
    {
        let torrent = Self {
            info: TorrentInfo::default(),
            announce: None,
            announce_list: Some(Vec::new()),
            creation_date: None,
            comment: None,
            created_by: None,
            nodes: None,
            encoding: None,
            httpseeds: None,
        };
        assert(torrent.announce_list.deep_view() == Some(Seq::<Seq<Seq<char>>>::empty())) by {
            assert(torrent.announce_list->0.deep_view() =~= Seq::<Seq<Seq<char>>>::empty());
        }
        torrent
    }
}

impl Torrent {
    /// It calculates the info hash of a torrent from `info_bencoded`, the
    /// canonical bencoding of its `info` record: the SHA-1 digest of those
    /// bytes.
    #[must_use]
    pub fn calculate_info_hash_as_bytes(info_bencoded: &[u8]) -> (hash: [u8; 20])
        requires
            info_bencoded@.len() <= SHA1_MAX_INPUT_LEN,
        ensures
            hash@ == sha1(info_bencoded@),
    {
        sha1_digest(info_bencoded)
    }

    /// The info hash of a torrent as forty lowercase hexadecimal digits,
    /// from `info_bencoded`, the canonical bencoding of its `info` record.
    #[must_use]
    pub fn info_hash(info_bencoded: &[u8]) -> (hex: String)
        requires
            info_bencoded@.len() <= SHA1_MAX_INPUT_LEN,
        ensures
            hex@ == hex_text(sha1(info_bencoded@)),
    {
        InfoHash(Self::calculate_info_hash_as_bytes(info_bencoded)).to_hex_string()
    }

    /// The sum of the lengths of the files, whatever `info.length` holds;
    /// zero where there are no files.
    fn sum_of_file_lengths(&self) -> (sum: i128)
        ensures
            sum == match self@.info.files {
                Some(files) => sum_of_lengths(files),
                None => 0,
            },
    {
        match &self.info.files {
            None => 0,
            Some(files) => {
                let ghost lengths = files.deep_view();
                let mut sum: i128 = 0;
                let mut i: usize = 0;
                while i < files.len()
                    invariant
                        i <= files@.len(),
                        lengths == files.deep_view(),
                        sum == sum_of_lengths(lengths.take(i as int)),
                        -(i * 0x8000_0000_0000_0000) <= sum <= i * 0x8000_0000_0000_0000,
                    decreases files@.len() - i,
                {
                    proof {
                        assert(lengths.take(i + 1).drop_last() =~= lengths.take(i as int));
                        assert(lengths.take(i + 1).last() == files@[i as int].deep_view());
                    }
                    sum = sum + files[i].length as i128;
                    i += 1;
                }
                proof {
                    assert(lengths.take(i as int) =~= lengths);
                }
                sum
            },
        }
    }

    /// The total size of the content, where it fits in an `i64`; `None`
    /// where it does not.
    #[must_use]
    pub fn checked_file_size(&self) -> (size: Option<i64>)
        ensures
            size == (if i64::MIN <= self@.total_size() <= i64::MAX {
                Some(self@.total_size() as i64)
            } else {
                None
            }),
    {
        match self.info.length {
            Some(length) => Some(length),
            None => {
                let sum = self.sum_of_file_lengths();
                if sum < i64::MIN as i128 || sum > i64::MAX as i128 {
                    None
                } else {
                    Some(sum as i64)
                }
            },
        }
    }

    /// The total size of the content: the single file's length where there
    /// is one, else the sum of the lengths of the files, else zero. The sum
    /// has to fit in an `i64`.
    #[must_use]
    pub fn file_size(&self) -> (size: i64)
        requires
            i64::MIN <= self@.total_size() <= i64::MAX,
        ensures
            size == self@.total_size(),
    {
        match self.info.length {
            Some(length) => length,
            None => self.sum_of_file_lengths() as i64,
        }
    }

    /// The URLs of all announce tiers, in their order.
    fn tier_urls(&self) -> (urls: Vec<String>)
        ensures
            urls.deep_view() == self@.tier_urls(),
    {
        let mut urls: Vec<String> = Vec::new();
        match &self.announce_list {
            Some(tiers) => {
                let ghost all = tiers.deep_view();
                let mut i: usize = 0;
                proof {
                    assert(urls.deep_view() =~= all.take(0).flatten());
                }
                while i < tiers.len()
                    invariant
                        i <= tiers@.len(),
                        all == tiers.deep_view(),
                        urls.deep_view() == all.take(i as int).flatten(),
                    decreases tiers@.len() - i,
                {
                    let tier = &tiers[i];
                    let ghost before = urls.deep_view();
                    let mut j: usize = 0;
                    while j < tier.len()
                        invariant
                            j <= tier@.len(),
                            urls.deep_view() == before + tier.deep_view().take(j as int),
                        decreases tier@.len() - j,
                    {
                        let ghost shorter = urls;
                        urls.push(tier[j].clone());
                        proof {
                            lemma_deep_view_push(shorter, urls, tier@[j as int]);
                            assert(tier.deep_view().take(j + 1) =~= tier.deep_view().take(
                                j as int,
                            ).push(tier@[j as int]@));
                        }
                        j += 1;
                    }
                    proof {
                        assert(tier.deep_view().take(j as int) =~= tier.deep_view());
                        assert(all.take(i + 1) =~= all.take(i as int).push(all[i as int]));
                        all.take(i as int).lemma_flatten_push(all[i as int]);
                    }
                    i += 1;
                }
                proof {
                    assert(all.take(i as int) =~= all);
                }
            },
            None => {
                proof {
                    assert(urls.deep_view() =~= Seq::<Seq<char>>::empty());
                }
            },
        }
        urls
    }

    /// It returns the announce urls of the torrent file: those of all
    /// announce tiers in order where the tiers hold at least one URL, else
    /// its one announce URL. A torrent without any announce URL is refused:
    /// the list that is returned is never empty.
    pub fn announce_urls(&self) -> (urls: Result<Vec<String>, MissingAnnounce>)
        ensures
            match self@.announce_urls() {
                Some(list) => urls is Ok && urls->Ok_0.deep_view() == list,
                None => urls is Err,
            },
            urls is Err <==> self@.tier_urls().len() == 0 && self@.announce is None,
            urls is Ok ==> urls->Ok_0@.len() > 0,
    {
        let mut urls = self.tier_urls();
        if urls.len() > 0 {
            return Ok(urls);
        }
        match &self.announce {
            Some(url) => {
                let ghost none = urls;
                urls.push(url.clone());
                proof {
                    lemma_deep_view_push(none, urls, *url);
                    assert(urls.deep_view() =~= seq![url@]);
                }
                Ok(urls)
            },
            None => Err(MissingAnnounce),
        }
    }
}

} // verus!

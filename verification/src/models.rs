//! Value types: the info-hash identifier and the torrent metadata records.

pub mod bencode;
pub mod info_hash;
pub mod info_hash_order;
pub mod torrent_file;

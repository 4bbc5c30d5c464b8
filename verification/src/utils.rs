//! Codecs and the metainfo decoder.

pub mod decode_laws;
pub mod diagnostics;
pub mod digest;
pub mod hex;
pub mod parse_torrent_verbose;
pub mod text;

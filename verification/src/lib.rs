//! Typed model of BitTorrent metainfo documents, a tolerant decoder from
//! bencode document trees into that model, and the 20-byte info-hash
//! identifier with its hexadecimal text form.

pub mod models;
pub mod utils;

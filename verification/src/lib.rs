//! Protocol core of a BitTorrent peer client: canonical metadata encoding and
//! the info hash, tracker announce messages, and the peer wire handshake.

pub mod announcement;
pub mod bencode;
pub mod magnet;
pub mod peer;
pub mod session;
pub mod torrent;
pub mod tracker;

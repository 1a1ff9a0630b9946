//! The query of an HTTP announce.

use crate::magnet::{hex_encode, hex_encoding};
use crate::peer::generate_peer_id;
use vstd::prelude::*;

verus! {

/// The announce address followed by the two parameters `info_hash` and `peer_id`.
pub open spec fn announcement_text(
    announce_base: Seq<char>,
    info_hash: Seq<char>,
    peer_id: Seq<char>,
) -> Seq<char> {
    announce_base + "&info_hash="@ + info_hash + "&peer_id="@ + peer_id
}

/// The peer id as an announce carries it: the first 20 hexadecimal digits of
/// the 20 bytes.
pub open spec fn peer_id_text_of(bytes: Seq<u8>) -> Seq<char> {
    hex_encoding(bytes).subrange(0, 20)
}

/// Writes a peer id as the text that an announce carries.
pub fn peer_id_text(peer_id: &[u8; 20]) -> (text: String)
    ensures
        text@ == peer_id_text_of(peer_id@),
{
    let digits = hex_encode(peer_id.as_slice());
    digits.as_str().substring_char(0, 20).to_owned()
}

/// Builds the announce request for a given peer id.
pub fn announcement_request(announce_base: &str, info_hash: &str, peer_id: &str) -> (request:
    String)
    ensures
        request@ == announcement_text(announce_base@, info_hash@, peer_id@),
{
    let mut request = announce_base.to_owned();
    request.append("&info_hash=");
    request.append(info_hash);
    request.append("&peer_id=");
    request.append(peer_id);
    request
}

/// Builds the announce request under a fresh random peer id.
pub fn new_announcement_request(announce_base: &str, info_hash: &str) -> (request: String)
    ensures
        exists|id: Seq<u8>|
            id.len() == 20 && request@ == announcement_text(
                announce_base@,
                info_hash@,
                #[trigger] peer_id_text_of(id),
            ),
{
    let id = generate_peer_id();
    let text = peer_id_text(&id);
    announcement_request(announce_base, info_hash, text.as_str())
}

} // verus!

//! The peer wire protocol as far as a session needs it to become established:
//! the handshake, the framing of the first message, and the bitfield.

use rand::Rng;
use vstd::prelude::*;
use vstd::slice::{slice_subrange, slice_to_vec};

verus! {

/// Why a peer session ended.
#[derive(Debug, Clone, Copy, PartialEq, Eq, Structural)]
pub enum PeerError {
    ConnectTimeout,
    ConnectRefused,
    HandshakeSendFailure,
    HandshakeReadFailure,
    HandshakeMismatch,
    MessageTooLarge,
    MessageReadFailure,
}

/// The length of a handshake in bytes.
pub const HANDSHAKE_LEN: usize = 68;

/// The greatest length that a message may announce: 1 MiB.
pub const MAX_MESSAGE_LEN: u32 = 1048576;

/// The message id of a bitfield.
pub const BITFIELD_ID: u8 = 5;

/// The length byte 19 and the text `BitTorrent protocol`.
pub open spec fn protocol_header() -> Seq<u8> {
    seq![
        19u8, 66, 105, 116, 84, 111, 114, 114, 101, 110, 116, 32, 112, 114, 111, 116, 111, 99, 111,
        108,
    ]
}

/// The handshake: the protocol header, eight reserved zero bytes, the info
/// hash and the peer id.
pub open spec fn handshake_bytes(info_hash: Seq<u8>, peer_id: Seq<u8>) -> Seq<u8> {
    protocol_header() + Seq::new(8, |i: int| 0u8) + info_hash + peer_id
}

/// Builds the 68 bytes of the handshake that this client sends.
pub fn build_handshake(info_hash: &[u8; 20], peer_id: &[u8; 20]) -> (out: Vec<u8>)
    ensures
        out@ == handshake_bytes(info_hash@, peer_id@),
        out@.len() == HANDSHAKE_LEN,
{
    let header: [u8; 20] = [
        19, 66, 105, 116, 84, 111, 114, 114, 101, 110, 116, 32, 112, 114, 111, 116, 111, 99, 111,
        108,
    ];
    let reserved: [u8; 8] = [0, 0, 0, 0, 0, 0, 0, 0];
    let mut out: Vec<u8> = Vec::new();
    out.extend_from_slice(header.as_slice());
    out.extend_from_slice(reserved.as_slice());
    out.extend_from_slice(info_hash.as_slice());
    out.extend_from_slice(peer_id.as_slice());
    proof {
        assert(header@ =~= protocol_header());
        assert(reserved@ =~= Seq::new(8, |i: int| 0u8));
        assert(out@ =~= handshake_bytes(info_hash@, peer_id@));
    }
    out
}

/// `pattern` stands in `buffer` at position `i`.
pub open spec fn occurs_at(buffer: Seq<u8>, pattern: Seq<u8>, i: int) -> bool {
    &&& 0 <= i
    &&& i + pattern.len() <= buffer.len()
    &&& forall|k: int| 0 <= k < pattern.len() ==> buffer[i + k] == pattern[k]
}

/// `pattern` stands somewhere in `buffer`.
pub open spec fn occurs(buffer: Seq<u8>, pattern: Seq<u8>) -> bool {
    exists|i: int| occurs_at(buffer, pattern, i)
}

fn matches_at(buffer: &[u8], pattern: &[u8], i: usize) -> (r: bool)
    requires
        i + pattern@.len() <= buffer@.len(),
    ensures
        r == occurs_at(buffer@, pattern@, i as int),
{
    let n: usize = buffer.len();
    let mut k: usize = 0;
    while k < pattern.len()
        invariant
            k <= pattern@.len(),
            n == buffer@.len(),
            i + pattern@.len() <= n,
            forall|j: int| 0 <= j < k ==> buffer@[i + j] == pattern@[j],
        decreases pattern@.len() - k,
    {
        if buffer[i + k] != pattern[k] {
            return false;
        }
        k += 1;
    }
    true
}

/// Looks for the first place at which `pattern` stands in `buffer`.
pub fn find_bytes(buffer: &[u8], pattern: &[u8]) -> (r: Option<usize>)
    ensures
        r is Some <==> occurs(buffer@, pattern@),
        r is Some ==> occurs_at(buffer@, pattern@, r.unwrap() as int),
        r is Some ==> forall|j: int| 0 <= j < r.unwrap() ==> !occurs_at(buffer@, pattern@, j),
{
    if pattern.len() > buffer.len() {
        return None;
    }
    let last: usize = buffer.len() - pattern.len();
    let mut i: usize = 0;
    loop
        invariant
            last == buffer@.len() - pattern@.len(),
            i <= last,
            forall|j: int| 0 <= j < i ==> !occurs_at(buffer@, pattern@, j),
        decreases last - i,
    {
        if matches_at(buffer, pattern, i) {
            return Some(i);
        }
        if i == last {
            return None;
        }
        i += 1;
    }
}

/// A handshake response is accepted when all 68 bytes came and the expected
/// info hash stands in it.
pub open spec fn handshake_accepted(response: Seq<u8>, info_hash: Seq<u8>) -> bool {
    response.len() >= HANDSHAKE_LEN && occurs(response, info_hash)
}

/// Validates what the peer sent back. A response that ended before its 68th
/// byte is a read failure; one without the expected info hash is a mismatch.
/// On success the place of the info hash is returned.
pub fn check_handshake(response: &[u8], info_hash: &[u8; 20]) -> (r: Result<usize, PeerError>)
    ensures
        r is Ok <==> handshake_accepted(response@, info_hash@),
        response@.len() < HANDSHAKE_LEN ==> r == Err::<usize, PeerError>(
            PeerError::HandshakeReadFailure,
        ),
        response@.len() >= HANDSHAKE_LEN && !occurs(response@, info_hash@) ==> r == Err::<
            usize,
            PeerError,
        >(PeerError::HandshakeMismatch),
        r is Ok ==> occurs_at(response@, info_hash@, r.unwrap() as int),
        r is Ok ==> forall|j: int| 0 <= j < r.unwrap() ==> !occurs_at(response@, info_hash@, j),
{
    if response.len() < HANDSHAKE_LEN {
        return Err(PeerError::HandshakeReadFailure);
    }
    match find_bytes(response, info_hash.as_slice()) {
        Some(i) => Ok(i),
        None => Err(PeerError::HandshakeMismatch),
    }
}

/// A full response that carries the expected info hash in its bytes 28 to 47
/// is accepted; one that ended early never is.
pub proof fn lemma_handshake_validation(response: Seq<u8>, info_hash: Seq<u8>)
    requires
        info_hash.len() == 20,
    ensures
        response.len() >= 68 && response.subrange(28, 48) == info_hash ==> handshake_accepted(
            response,
            info_hash,
        ),
        response.len() < 68 ==> !handshake_accepted(response, info_hash),
{
    if response.len() >= 68 && response.subrange(28, 48) == info_hash {
        assert forall|k: int| 0 <= k < info_hash.len() implies response[28 + k] == info_hash[k] by {
            assert(response.subrange(28, 48)[k] == response[28 + k]);
        }
        assert(occurs_at(response, info_hash, 28));
    }
}

/// The response has the fixed layout of a handshake: the protocol header,
/// eight bytes that are not looked at, the expected info hash in bytes 28 to
/// 47, and the peer's id behind it.
pub open spec fn handshake_well_formed(response: Seq<u8>, info_hash: Seq<u8>) -> bool {
    &&& response.len() >= HANDSHAKE_LEN
    &&& response.subrange(0, 20) == protocol_header()
    &&& response.subrange(28, 48) == info_hash
}

/// Validates a response by its fixed layout and gives the id of the peer. A
/// response that ended before its 68th byte is a read failure; one with
/// another header or another info hash is a mismatch.
pub fn parse_handshake(response: &[u8], info_hash: &[u8; 20]) -> (r: Result<[u8; 20], PeerError>)
    ensures
        r is Ok <==> handshake_well_formed(response@, info_hash@),
        r is Ok ==> r.unwrap()@ == response@.subrange(48, 68),
        response@.len() < HANDSHAKE_LEN ==> r == Err::<[u8; 20], PeerError>(
            PeerError::HandshakeReadFailure,
        ),
        response@.len() >= HANDSHAKE_LEN && r is Err ==> r == Err::<[u8; 20], PeerError>(
            PeerError::HandshakeMismatch,
        ),
{
    if response.len() < HANDSHAKE_LEN {
        return Err(PeerError::HandshakeReadFailure);
    }
    let header: [u8; 20] = [
        19, 66, 105, 116, 84, 111, 114, 114, 101, 110, 116, 32, 112, 114, 111, 116, 111, 99, 111,
        108,
    ];
    proof {
        assert(header@ =~= protocol_header());
    }
    if !matches_at(response, header.as_slice(), 0) {
        proof {
            if response@.subrange(0, 20) == protocol_header() {
                assert forall|k: int| 0 <= k < 20 implies response@[0 + k] == header@[k] by {
                    assert(response@.subrange(0, 20)[k] == response@[k]);
                }
            }
        }
        return Err(PeerError::HandshakeMismatch);
    }
    if !matches_at(response, info_hash.as_slice(), 28) {
        proof {
            if response@.subrange(28, 48) == info_hash@ {
                assert forall|k: int| 0 <= k < 20 implies response@[28 + k] == info_hash@[k] by {
                    assert(response@.subrange(28, 48)[k] == response@[28 + k]);
                }
            }
        }
        return Err(PeerError::HandshakeMismatch);
    }
    let mut peer_id: [u8; 20] = [0u8; 20];
    let mut i: usize = 0;
    while i < 20
        invariant
            i <= 20,
            response@.len() >= 68,
            forall|j: int| 0 <= j < i ==> peer_id@[j] == response@[48 + j],
        decreases 20 - i,
    {
        peer_id.set(i, response[48 + i]);
        i += 1;
    }
    proof {
        assert(response@.subrange(0, 20) =~= protocol_header());
        assert(response@.subrange(28, 48) =~= info_hash@);
        assert(peer_id@ =~= response@.subrange(48, 68));
    }
    Ok(peer_id)
}

/// The handshake that this client builds has the fixed layout, carries its
/// peer id, and is accepted by a peer that looks for the same content.
pub proof fn lemma_built_handshake_is_accepted(info_hash: Seq<u8>, peer_id: Seq<u8>)
    requires
        info_hash.len() == 20,
        peer_id.len() == 20,
    ensures
        handshake_bytes(info_hash, peer_id).len() == 68,
        handshake_well_formed(handshake_bytes(info_hash, peer_id), info_hash),
        handshake_bytes(info_hash, peer_id).subrange(48, 68) == peer_id,
        handshake_accepted(handshake_bytes(info_hash, peer_id), info_hash),
{
    let h = handshake_bytes(info_hash, peer_id);
    assert(h.subrange(0, 20) =~= protocol_header());
    assert(h.subrange(28, 48) =~= info_hash);
    assert(h.subrange(48, 68) =~= peer_id);
    lemma_handshake_validation(h, info_hash);
}

/// The number that four bytes hold, most significant byte first.
pub open spec fn be_u32(b: Seq<u8>) -> int {
    b[0] as int * 16777216 + b[1] as int * 65536 + b[2] as int * 256 + b[3] as int
}

/// Reads the length prefix of a message and rejects a length above 1 MiB, so
/// that no such payload is ever read.
pub fn parse_length_prefix(prefix: &[u8; 4]) -> (r: Result<u32, PeerError>)
    ensures
        be_u32(prefix@) > MAX_MESSAGE_LEN ==> r == Err::<u32, PeerError>(
            PeerError::MessageTooLarge,
        ),
        be_u32(prefix@) <= MAX_MESSAGE_LEN ==> r == Ok::<u32, PeerError>(be_u32(prefix@) as u32),
{
    let length: u32 = (prefix[0] as u32) * 16777216 + (prefix[1] as u32) * 65536 + (
    prefix[2] as u32) * 256 + (prefix[3] as u32);
    if length > MAX_MESSAGE_LEN {
        Err(PeerError::MessageTooLarge)
    } else {
        Ok(length)
    }
}

/// The bitfield that a payload carries: what follows the message id 5. Any
/// other message, and an empty one, carries none.
pub open spec fn bitfield_of(payload: Seq<u8>) -> Seq<u8> {
    if payload.len() > 0 && payload[0] == BITFIELD_ID {
        payload.skip(1)
    } else {
        Seq::empty()
    }
}

/// Takes the bitfield out of the payload of the first message.
pub fn extract_bitfield(payload: &[u8]) -> (bitfield: Vec<u8>)
    ensures
        bitfield@ == bitfield_of(payload@),
{
    if payload.len() > 0 && payload[0] == BITFIELD_ID {
        let rest = slice_subrange(payload, 1, payload.len());
        let out = slice_to_vec(rest);
        proof {
            assert(out@ =~= payload@.skip(1));
        }
        out
    } else {
        Vec::new()
    }
}

/// The peer has the piece `index`: bit 7 of byte 0 is piece 0.
pub open spec fn piece_is_set(bitfield: Seq<u8>, index: int) -> bool {
    &&& 0 <= index / 8 < bitfield.len()
    &&& (bitfield[index / 8] >> ((7 - index % 8) as u8)) & 1u8 == 1u8
}

/// Tells whether the bitfield marks the piece `index` as available.
pub fn has_piece(bitfield: &[u8], index: usize) -> (r: bool)
    ensures
        r == piece_is_set(bitfield@, index as int),
{
    let byte: usize = index / 8;
    if byte >= bitfield.len() {
        return false;
    }
    let shift: u8 = (7 - index % 8) as u8;
    (bitfield[byte] >> shift) & 1u8 == 1u8
}

/// Calls `rand::Rng::fill` on `rand::thread_rng()`, which overwrites the 20
/// bytes with random ones. Nothing is known of them.
#[verifier::external_body]
pub fn generate_peer_id() -> [u8; 20] {
    let mut peer_id = [0u8; 20];
    rand::thread_rng().fill(&mut peer_id);
    peer_id
}

/// The outcomes that were successes, in their order.
pub open spec fn successes_of<T>(outcomes: Seq<Option<T>>) -> Seq<T>
    decreases outcomes.len(),
{
    if outcomes.len() == 0 {
        Seq::empty()
    } else {
        match outcomes.last() {
            Some(v) => successes_of(outcomes.drop_last()).push(v),
            None => successes_of(outcomes.drop_last()),
        }
    }
}

/// Whatever else failed in the batch, each success is among those kept.
pub proof fn lemma_every_success_is_kept<T>(outcomes: Seq<Option<T>>, i: int)
    requires
        0 <= i < outcomes.len(),
        outcomes[i] is Some,
    ensures
        successes_of(outcomes).contains(outcomes[i].unwrap()),
    decreases outcomes.len(),
{
    let rest = successes_of(outcomes.drop_last());
    if i == outcomes.len() - 1 {
        let kept = successes_of(outcomes);
        assert(kept[kept.len() - 1] == outcomes[i].unwrap());
    } else {
        lemma_every_success_is_kept(outcomes.drop_last(), i);
        let v = outcomes[i].unwrap();
        let j = choose|j: int| 0 <= j < rest.len() && rest[j] == v;
        let kept = successes_of(outcomes);
        assert(kept[j] == v);
    }
}

/// Keeps every success of a batch and drops the failures: a failed attempt
/// takes no other attempt's result away.
pub fn collect_successes<T>(outcomes: Vec<Option<T>>) -> (kept: Vec<T>)
    ensures
        kept@ == successes_of(outcomes@),
{
    let ghost all = outcomes@;
    let mut outcomes = outcomes;
    let mut reversed: Vec<T> = Vec::new();
    while outcomes.len() > 0
        invariant
            outcomes@.len() <= all.len(),
            successes_of(all) == successes_of(outcomes@) + reversed@.reverse(),
        decreases outcomes@.len(),
    {
        let ghost before = outcomes@;
        let ghost kept_before = reversed@;
        let last = outcomes.pop();
        proof {
            assert(before.drop_last() =~= outcomes@);
        }
        if let Some(Some(v)) = last {
            reversed.push(v);
            proof {
                assert(successes_of(before) == successes_of(outcomes@).push(v));
                assert(reversed@.reverse() =~= seq![v] + kept_before.reverse());
                assert(successes_of(outcomes@).push(v) + kept_before.reverse() =~= successes_of(
                    outcomes@,
                ) + reversed@.reverse());
            }
        }
    }
    let mut kept: Vec<T> = Vec::new();
    while reversed.len() > 0
        invariant
            kept@ + reversed@.reverse() == successes_of(all),
        decreases reversed@.len(),
    {
        let ghost before = reversed@;
        let ghost kept_before = kept@;
        let last = reversed.pop();
        if let Some(v) = last {
            kept.push(v);
            proof {
                assert(before.reverse() =~= seq![v] + reversed@.reverse());
                assert(kept@ + reversed@.reverse() =~= kept_before + before.reverse());
            }
        }
    }
    proof {
        assert(reversed@.reverse() =~= Seq::<T>::empty());
        assert(kept@ =~= kept@ + reversed@.reverse());
    }
    kept
}

} // verus!

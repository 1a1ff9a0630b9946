//! Tracker announce: the UDP connect exchange and the choice of protocol for
//! each group of an announce list.

use crate::peer::be_u32;
use byteorder::{ByteOrder, WriteBytesExt};
use rand::Rng;
use vstd::prelude::*;
use vstd::slice::slice_subrange;

verus! {

/// Why a tracker was given up for this cycle.
#[derive(Debug, Clone, Copy, PartialEq, Eq, Structural)]
pub enum TrackerError {
    /// No answer came in time, or the request could not be sent.
    TrackerUnreachable,
    /// The answer was too short, or its action or transaction id was not the expected one.
    TrackerProtocolError,
}

/// The constant that opens every connect request.
pub const PROTOCOL_ID: u64 = 0x41727101980;

/// The action code of a connect request and of its response.
pub const ACTION_CONNECT: u32 = 0;

/// The four bytes of a number, most significant first.
pub open spec fn u32_be_bytes(v: u32) -> Seq<u8> {
    seq![
        (v / 16777216) as u8,
        (v / 65536 % 256) as u8,
        (v / 256 % 256) as u8,
        (v % 256) as u8,
    ]
}

/// The eight bytes of a number, most significant first.
pub open spec fn u64_be_bytes(v: u64) -> Seq<u8> {
    u32_be_bytes((v / 4294967296) as u32) + u32_be_bytes((v % 4294967296) as u32)
}

/// The two bytes of a number, the high one first.
pub open spec fn u16_be_bytes(v: u16) -> Seq<u8> {
    seq![(v / 256) as u8, (v % 256) as u8]
}

/// The number that two bytes hold, the high one first.
pub open spec fn be_u16(b: Seq<u8>) -> int {
    b[0] as int * 256 + b[1] as int
}

/// The number that eight bytes hold, most significant byte first.
pub open spec fn be_u64(b: Seq<u8>) -> int {
    be_u32(b.subrange(0, 4)) * 4294967296 + be_u32(b.subrange(4, 8))
}

/// Calls `byteorder::WriteBytesExt::write_u64` with `BigEndian` on the
/// vector, which appends the number's eight bytes, most significant first.
#[verifier::external_body]
fn write_u64_be(buf: &mut Vec<u8>, v: u64)
    ensures
        final(buf)@ == old(buf)@ + u64_be_bytes(v),
{
    buf.write_u64::<byteorder::BigEndian>(v).unwrap();
}

/// Calls `byteorder::WriteBytesExt::write_u32` with `BigEndian` on the
/// vector, which appends the number's four bytes, most significant first.
#[verifier::external_body]
fn write_u32_be(buf: &mut Vec<u8>, v: u32)
    ensures
        final(buf)@ == old(buf)@ + u32_be_bytes(v),
{
    buf.write_u32::<byteorder::BigEndian>(v).unwrap();
}

/// Calls `byteorder::BigEndian::read_u32`, which reads the first four bytes
/// as a number, most significant first, and panics on fewer.
#[verifier::external_body]
fn read_u32_be(bytes: &[u8]) -> (v: u32)
    requires
        bytes@.len() >= 4,
    ensures
        v == be_u32(bytes@.subrange(0, 4)),
{
    byteorder::BigEndian::read_u32(bytes)
}

/// Calls `byteorder::BigEndian::read_u64`, which reads the first eight bytes
/// as a number, most significant first, and panics on fewer.
#[verifier::external_body]
fn read_u64_be(bytes: &[u8]) -> (v: u64)
    requires
        bytes@.len() >= 8,
    ensures
        v == be_u64(bytes@.subrange(0, 8)),
{
    byteorder::BigEndian::read_u64(bytes)
}

/// Calls `byteorder::WriteBytesExt::write_u16` with `BigEndian` on the
/// vector, which appends the number's two bytes, the high one first.
#[verifier::external_body]
fn write_u16_be(buf: &mut Vec<u8>, v: u16)
    ensures
        final(buf)@ == old(buf)@ + u16_be_bytes(v),
{
    buf.write_u16::<byteorder::BigEndian>(v).unwrap();
}

/// Calls `byteorder::BigEndian::read_u16`, which reads the first two bytes as
/// a number, the high one first, and panics on fewer.
#[verifier::external_body]
fn read_u16_be(bytes: &[u8]) -> (v: u16)
    requires
        bytes@.len() >= 2,
    ensures
        v == be_u16(bytes@.subrange(0, 2)),
{
    byteorder::BigEndian::read_u16(bytes)
}

/// Calls `rand::Rng::gen` on `rand::thread_rng()`. Nothing is known of the number.
#[verifier::external_body]
fn random_u32() -> u32 {
    rand::thread_rng().gen()
}

/// The 16 bytes of a connect request: the protocol constant, the action 0 and
/// the transaction id, all big-endian.
pub open spec fn connect_request_bytes(transaction_id: u32) -> Seq<u8> {
    u64_be_bytes(PROTOCOL_ID) + u32_be_bytes(ACTION_CONNECT) + u32_be_bytes(transaction_id)
}

/// Builds the connect request for a given transaction id.
pub fn connection_request(transaction_id: u32) -> (out: Vec<u8>)
    ensures
        out@ == connect_request_bytes(transaction_id),
        out@.len() == 16,
{
    let mut out: Vec<u8> = Vec::with_capacity(16);
    write_u64_be(&mut out, PROTOCOL_ID);
    write_u32_be(&mut out, ACTION_CONNECT);
    write_u32_be(&mut out, transaction_id);
    proof {
        assert(out@ =~= connect_request_bytes(transaction_id));
    }
    out
}

/// A connect request and the transaction id that its response must repeat.
pub struct ConnectRequest {
    pub transaction_id: u32,
    pub bytes: Vec<u8>,
}

/// Builds a connect request under a fresh random transaction id.
pub fn create_connection_request() -> (request: ConnectRequest)
    ensures
        request.bytes@ == connect_request_bytes(request.transaction_id),
{
    let transaction_id = random_u32();
    ConnectRequest { transaction_id, bytes: connection_request(transaction_id) }
}

/// A connect response is in order when it has its 16 bytes, the action 0 and
/// the transaction id that was sent.
pub open spec fn connect_response_ok(response: Seq<u8>, transaction_id: u32) -> bool {
    &&& response.len() >= 16
    &&& be_u32(response.subrange(0, 4)) == ACTION_CONNECT
    &&& be_u32(response.subrange(4, 8)) == transaction_id
}

/// Reads the connection id from a connect response. A response that is too
/// short, or whose action or transaction id is not the expected one, is a
/// protocol error.
pub fn parse_connection_response(response: &[u8], transaction_id: u32) -> (r: Result<
    u64,
    TrackerError,
>)
    ensures
        r is Ok <==> connect_response_ok(response@, transaction_id),
        r is Ok ==> r.unwrap() == be_u64(response@.subrange(8, 16)),
        r is Err ==> r == Err::<u64, TrackerError>(TrackerError::TrackerProtocolError),
{
    if response.len() < 16 {
        return Err(TrackerError::TrackerProtocolError);
    }
    let action = read_u32_be(slice_subrange(response, 0, 4));
    if action != ACTION_CONNECT {
        return Err(TrackerError::TrackerProtocolError);
    }
    let received = read_u32_be(slice_subrange(response, 4, 8));
    if received != transaction_id {
        return Err(TrackerError::TrackerProtocolError);
    }
    let connection_id = read_u64_be(slice_subrange(response, 8, 16));
    proof {
        assert(response@.subrange(0, 4).subrange(0, 4) =~= response@.subrange(0, 4));
        assert(response@.subrange(4, 8).subrange(0, 4) =~= response@.subrange(4, 8));
        assert(response@.subrange(8, 16).subrange(0, 8) =~= response@.subrange(8, 16));
    }
    Ok(connection_id)
}

/// Reading back the bytes of a number gives the number.
pub proof fn lemma_be_u32_round_trip(v: u32)
    ensures
        u32_be_bytes(v).len() == 4,
        be_u32(u32_be_bytes(v)) == v,
{
}

/// A response that repeats the action 0 and the transaction id of the request
/// is in order, and one that carries any other transaction id is not.
pub proof fn lemma_transaction_correlation(response: Seq<u8>, sent: u32, other: u32)
    requires
        response.len() >= 16,
        response.subrange(0, 4) == u32_be_bytes(ACTION_CONNECT),
        response.subrange(4, 8) == u32_be_bytes(sent),
        other != sent,
    ensures
        connect_response_ok(response, sent),
        !connect_response_ok(response, other),
{
    lemma_be_u32_round_trip(ACTION_CONNECT);
    lemma_be_u32_round_trip(sent);
}

/// The action code of an announce request and of its response.
pub const ACTION_ANNOUNCE: u32 = 1;

/// What an announce tells the tracker.
#[derive(Debug, Clone, Copy)]
pub struct AnnounceRequest {
    /// The connection id that the connect exchange gave.
    pub connection_id: u64,
    pub transaction_id: u32,
    pub info_hash: [u8; 20],
    pub peer_id: [u8; 20],
    pub downloaded: u64,
    pub left: u64,
    pub uploaded: u64,
    pub port: u16,
}

/// The 98 bytes of an announce request, all numbers big-endian: connection
/// id, action 1, transaction id, info hash, peer id, the three byte counters,
/// then event, address and key left at 0, the wanted number of peers left at
/// its default of -1, and the port.
pub open spec fn announce_request_bytes(r: AnnounceRequest) -> Seq<u8> {
    u64_be_bytes(r.connection_id) + u32_be_bytes(ACTION_ANNOUNCE) + u32_be_bytes(r.transaction_id)
        + r.info_hash@ + r.peer_id@ + u64_be_bytes(r.downloaded) + u64_be_bytes(r.left)
        + u64_be_bytes(r.uploaded) + u32_be_bytes(0) + u32_be_bytes(0) + u32_be_bytes(0)
        + u32_be_bytes(0xFFFF_FFFF) + u16_be_bytes(r.port)
}

/// Builds the announce request.
pub fn announce_request(r: &AnnounceRequest) -> (out: Vec<u8>)
    ensures
        out@ == announce_request_bytes(*r),
        out@.len() == 98,
{
    let mut out: Vec<u8> = Vec::with_capacity(98);
    write_u64_be(&mut out, r.connection_id);
    write_u32_be(&mut out, ACTION_ANNOUNCE);
    write_u32_be(&mut out, r.transaction_id);
    out.extend_from_slice(r.info_hash.as_slice());
    out.extend_from_slice(r.peer_id.as_slice());
    write_u64_be(&mut out, r.downloaded);
    write_u64_be(&mut out, r.left);
    write_u64_be(&mut out, r.uploaded);
    write_u32_be(&mut out, 0);
    write_u32_be(&mut out, 0);
    write_u32_be(&mut out, 0);
    write_u32_be(&mut out, 0xFFFF_FFFF);
    write_u16_be(&mut out, r.port);
    proof {
        assert(out@ =~= announce_request_bytes(*r));
    }
    out
}

/// Where a peer can be reached: an IPv4 address and a port.
#[derive(Debug, Clone, Copy, PartialEq, Eq)]
pub struct PeerAddress {
    pub ip: [u8; 4],
    pub port: u16,
}

/// What a tracker answers to an announce.
#[derive(Debug, Clone, PartialEq, Eq)]
pub struct AnnounceResponse {
    /// The seconds to wait before the next announce.
    pub interval: u32,
    pub leechers: u32,
    pub seeders: u32,
    pub peers: Vec<PeerAddress>,
}

/// An announce response is in order when it has its 20 leading bytes, the
/// action 1, the transaction id that was sent, and a whole number of peers of
/// six bytes each.
pub open spec fn announce_response_ok(response: Seq<u8>, transaction_id: u32) -> bool {
    &&& response.len() >= 20
    &&& (response.len() - 20) % 6 == 0
    &&& be_u32(response.subrange(0, 4)) == ACTION_ANNOUNCE
    &&& be_u32(response.subrange(4, 8)) == transaction_id
}

/// The peer `i` of the compact list is the one that the response holds at its place.
pub open spec fn is_peer_at(response: Seq<u8>, i: int, peer: PeerAddress) -> bool {
    &&& peer.ip@ == response.subrange(20 + 6 * i, 24 + 6 * i)
    &&& peer.port == be_u16(response.subrange(24 + 6 * i, 26 + 6 * i))
}

/// Reads the interval, the counts and the compact peer list from an announce
/// response. A response that is not in order is a protocol error.
pub fn parse_announce_response(response: &[u8], transaction_id: u32) -> (r: Result<
    AnnounceResponse,
    TrackerError,
>)
    ensures
        r is Ok <==> announce_response_ok(response@, transaction_id),
        r matches Err(e) ==> e == TrackerError::TrackerProtocolError,
        r matches Ok(a) ==> {
            &&& a.interval == be_u32(response@.subrange(8, 12))
            &&& a.leechers == be_u32(response@.subrange(12, 16))
            &&& a.seeders == be_u32(response@.subrange(16, 20))
            &&& a.peers@.len() == (response@.len() - 20) / 6
            &&& forall|i: int| 0 <= i < a.peers@.len() ==> is_peer_at(response@, i, a.peers@[i])
        },
{
    let len: usize = response.len();
    if len < 20 || (len - 20) % 6 != 0 {
        return Err(TrackerError::TrackerProtocolError);
    }
    let action = read_u32_be(slice_subrange(response, 0, 4));
    if action != ACTION_ANNOUNCE {
        return Err(TrackerError::TrackerProtocolError);
    }
    let received = read_u32_be(slice_subrange(response, 4, 8));
    if received != transaction_id {
        return Err(TrackerError::TrackerProtocolError);
    }
    let interval = read_u32_be(slice_subrange(response, 8, 12));
    let leechers = read_u32_be(slice_subrange(response, 12, 16));
    let seeders = read_u32_be(slice_subrange(response, 16, 20));
    proof {
        assert(response@.subrange(0, 4).subrange(0, 4) =~= response@.subrange(0, 4));
        assert(response@.subrange(4, 8).subrange(0, 4) =~= response@.subrange(4, 8));
        assert(response@.subrange(8, 12).subrange(0, 4) =~= response@.subrange(8, 12));
        assert(response@.subrange(12, 16).subrange(0, 4) =~= response@.subrange(12, 16));
        assert(response@.subrange(16, 20).subrange(0, 4) =~= response@.subrange(16, 20));
    }
    let count: usize = (len - 20) / 6;
    let mut peers: Vec<PeerAddress> = Vec::new();
    let mut i: usize = 0;
    while i < count
        invariant
            i <= count,
            len == response@.len(),
            len >= 20,
            count == (len - 20) / 6,
            peers@.len() == i,
            forall|j: int| 0 <= j < i ==> is_peer_at(response@, j, peers@[j]),
        decreases count - i,
    {
        let at: usize = 20 + 6 * i;
        let ip: [u8; 4] = [response[at], response[at + 1], response[at + 2], response[at + 3]];
        let port = read_u16_be(slice_subrange(response, at + 4, at + 6));
        proof {
            assert(ip@ =~= response@.subrange(20 + 6 * i, 24 + 6 * i));
            assert(response@.subrange(at + 4, at + 6).subrange(0, 2) =~= response@.subrange(
                24 + 6 * i,
                26 + 6 * i,
            ));
        }
        peers.push(PeerAddress { ip, port });
        i += 1;
    }
    Ok(AnnounceResponse { interval, leechers, seeders, peers })
}

/// The protocol by which a tracker is asked.
#[derive(Debug, Clone, Copy, PartialEq, Eq, Structural)]
pub enum TrackerKind {
    Udp,
    Http,
    /// No tracker that this client can ask: the group is passed over.
    Unsupported,
}

/// `text` begins with `prefix`.
pub open spec fn begins_with(text: Seq<char>, prefix: Seq<char>) -> bool {
    prefix.len() <= text.len() && text.subrange(0, prefix.len() as int) == prefix
}

/// The protocol that a tracker's address selects by its scheme.
pub open spec fn tracker_kind(url: Seq<char>) -> TrackerKind {
    if begins_with(url, "udp://"@) {
        TrackerKind::Udp
    } else if begins_with(url, "http://"@) || begins_with(url, "https://"@) {
        TrackerKind::Http
    } else {
        TrackerKind::Unsupported
    }
}

/// The protocol by which a group of an announce list is asked: that of its
/// first address. Nothing is asked of an empty group.
pub open spec fn group_kind(group: Seq<String>) -> TrackerKind {
    if group.len() == 0 {
        TrackerKind::Unsupported
    } else {
        tracker_kind(group[0]@)
    }
}

fn has_prefix(text: &str, prefix: &str) -> (r: bool)
    ensures
        r == begins_with(text@, prefix@),
{
    let n = prefix.unicode_len();
    if n > text.unicode_len() {
        return false;
    }
    let mut i: usize = 0;
    while i < n
        invariant
            i <= n,
            n == prefix@.len(),
            n <= text@.len(),
            forall|j: int| 0 <= j < i ==> text@[j] == prefix@[j],
        decreases n - i,
    {
        if text.get_char(i) != prefix.get_char(i) {
            proof {
                assert(text@.subrange(0, n as int)[i as int] == text@[i as int]);
            }
            return false;
        }
        i += 1;
    }
    proof {
        assert(text@.subrange(0, n as int) =~= prefix@);
    }
    true
}

/// Selects the protocol for a tracker by the scheme of its address.
pub fn classify_tracker(url: &str) -> (kind: TrackerKind)
    ensures
        kind == tracker_kind(url@),
{
    if has_prefix(url, "udp://") {
        TrackerKind::Udp
    } else if has_prefix(url, "http://") || has_prefix(url, "https://") {
        TrackerKind::Http
    } else {
        TrackerKind::Unsupported
    }
}

/// Decides, group by group and in the list's order, by which protocol the
/// first address of each group is asked. Each group is decided alone: what
/// happens to one tracker changes nothing for the next.
pub fn plan_tracker_queries(announce_list: &Vec<Vec<String>>) -> (plan: Vec<TrackerKind>)
    ensures
        plan@.len() == announce_list@.len(),
        forall|i: int| 0 <= i < plan@.len() ==> plan@[i] == group_kind(announce_list@[i]@),
{
    let mut plan: Vec<TrackerKind> = Vec::new();
    let mut i: usize = 0;
    while i < announce_list.len()
        invariant
            i <= announce_list@.len(),
            plan@.len() == i,
            forall|j: int| 0 <= j < i ==> plan@[j] == group_kind(announce_list@[j]@),
        decreases announce_list@.len() - i,
    {
        let group = &announce_list[i];
        if group.len() == 0 {
            plan.push(TrackerKind::Unsupported);
        } else {
            plan.push(classify_tracker(group[0].as_str()));
        }
        i += 1;
    }
    plan
}

} // verus!

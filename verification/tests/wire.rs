use rtdownloader::announcement::{announcement_request, new_announcement_request, peer_id_text};
use rtdownloader::peer::{
    build_handshake, check_handshake, collect_successes, extract_bitfield, find_bytes,
    generate_peer_id, has_piece, parse_handshake, parse_length_prefix, PeerError,
};
use rtdownloader::session::{PeerSession, SessionAction, SessionEvent, SessionState};
use rtdownloader::tracker::{
    announce_request, classify_tracker, connection_request, create_connection_request,
    parse_announce_response, parse_connection_response, plan_tracker_queries, AnnounceRequest,
    PeerAddress, TrackerError, TrackerKind,
};

#[test]
fn handshake_has_the_fixed_layout() {
    let hash = [0xAAu8; 20];
    let id = [0xBBu8; 20];
    let h = build_handshake(&hash, &id);
    assert_eq!(h.len(), 68);
    assert_eq!(h[0], 19);
    assert_eq!(&h[1..20], b"BitTorrent protocol");
    assert_eq!(&h[20..28], &[0u8; 8]);
    assert_eq!(&h[28..48], &hash);
    assert_eq!(&h[48..68], &id);
}

#[test]
fn handshake_with_the_hash_in_place_is_accepted() {
    let hash: [u8; 20] = [7; 20];
    let mut response = vec![0u8; 68];
    response[28..48].copy_from_slice(&hash);
    assert_eq!(check_handshake(&response, &hash), Ok(28));
    let echoed = build_handshake(&hash, &[9u8; 20]);
    assert_eq!(check_handshake(&echoed, &hash), Ok(28));
}

#[test]
fn short_handshake_is_a_read_failure() {
    let hash: [u8; 20] = [7; 20];
    let mut response = vec![0u8; 67];
    response[28..48].copy_from_slice(&hash);
    assert_eq!(check_handshake(&response, &hash), Err(PeerError::HandshakeReadFailure));
    assert_eq!(check_handshake(&[], &hash), Err(PeerError::HandshakeReadFailure));
}

#[test]
fn handshake_for_other_content_is_a_mismatch() {
    let hash: [u8; 20] = [7; 20];
    let other = build_handshake(&[8u8; 20], &[9u8; 20]);
    assert_eq!(check_handshake(&other, &hash), Err(PeerError::HandshakeMismatch));
}

#[test]
fn find_bytes_gives_the_first_place() {
    assert_eq!(find_bytes(b"abcabc", b"bc"), Some(1));
    assert_eq!(find_bytes(b"abcabc", b"abc"), Some(0));
    assert_eq!(find_bytes(b"abcabc", b"cab"), Some(2));
    assert_eq!(find_bytes(b"abcabc", b"x"), None);
    assert_eq!(find_bytes(b"ab", b"abc"), None);
    assert_eq!(find_bytes(b"ab", b""), Some(0));
    assert_eq!(find_bytes(b"xxab", b"ab"), Some(2));
}

#[test]
fn length_prefix_above_one_mebibyte_is_rejected() {
    assert_eq!(parse_length_prefix(&[0x00, 0x10, 0x00, 0x01]), Err(PeerError::MessageTooLarge));
    assert_eq!(parse_length_prefix(&[0xff, 0xff, 0xff, 0xff]), Err(PeerError::MessageTooLarge));
    assert_eq!(parse_length_prefix(&[0x00, 0x10, 0x00, 0x00]), Ok(1048576));
    assert_eq!(parse_length_prefix(&[0x00, 0x00, 0x01, 0x02]), Ok(258));
    assert_eq!(parse_length_prefix(&[0, 0, 0, 0]), Ok(0));
}

#[test]
fn bitfield_follows_the_message_id() {
    assert_eq!(extract_bitfield(&[5, 0x80, 0x01]), vec![0x80, 0x01]);
    assert_eq!(extract_bitfield(&[5]), Vec::<u8>::new());
    assert_eq!(extract_bitfield(&[4, 0x80, 0x01]), Vec::<u8>::new());
    assert_eq!(extract_bitfield(&[]), Vec::<u8>::new());
}

#[test]
fn high_bit_of_the_first_byte_is_piece_zero() {
    let bits = [0x80u8, 0x01];
    assert!(has_piece(&bits, 0));
    assert!(!has_piece(&bits, 1));
    assert!(!has_piece(&bits, 7));
    assert!(!has_piece(&bits, 8));
    assert!(has_piece(&bits, 15));
    assert!(!has_piece(&bits, 16));
    assert!(has_piece(&[0x40], 1));
}

#[test]
fn failures_take_no_success_away() {
    let outcomes = vec![Some(1), None, Some(2), None, None, Some(3)];
    assert_eq!(collect_successes(outcomes), vec![1, 2, 3]);
    assert_eq!(collect_successes(vec![None::<u8>, None]), Vec::<u8>::new());
    assert_eq!(collect_successes(Vec::<Option<u8>>::new()), Vec::<u8>::new());
    assert_eq!(collect_successes(vec![Some("a"), Some("b")]), vec!["a", "b"]);
}

#[test]
fn peer_ids_are_random() {
    let a = generate_peer_id();
    let b = generate_peer_id();
    let c = generate_peer_id();
    assert!(a != b || b != c);
    assert!(a != [0u8; 20] || b != [0u8; 20]);
}

#[test]
fn connect_request_has_the_fixed_layout() {
    let r = connection_request(0x12345678);
    assert_eq!(
        r,
        vec![0x00, 0x00, 0x04, 0x17, 0x27, 0x10, 0x19, 0x80, 0, 0, 0, 0, 0x12, 0x34, 0x56, 0x78]
    );
}

#[test]
fn fresh_connect_request_carries_its_transaction_id() {
    let r = create_connection_request();
    assert_eq!(r.bytes, connection_request(r.transaction_id));
    assert_eq!(r.bytes.len(), 16);
    assert_eq!(&r.bytes[12..16], &r.transaction_id.to_be_bytes());
}

#[test]
fn connect_response_gives_the_connection_id() {
    let mut response = vec![0, 0, 0, 0, 0x12, 0x34, 0x56, 0x78];
    response.extend_from_slice(&[1, 2, 3, 4, 5, 6, 7, 8]);
    assert_eq!(parse_connection_response(&response, 0x12345678), Ok(0x0102030405060708));
    response.extend_from_slice(&[9, 9]);
    assert_eq!(parse_connection_response(&response, 0x12345678), Ok(0x0102030405060708));
}

#[test]
fn connect_response_with_another_transaction_is_refused() {
    let mut response = vec![0, 0, 0, 0, 0x12, 0x34, 0x56, 0x78];
    response.extend_from_slice(&[1, 2, 3, 4, 5, 6, 7, 8]);
    assert_eq!(
        parse_connection_response(&response, 0x12345679),
        Err(TrackerError::TrackerProtocolError)
    );
}

#[test]
fn connect_response_with_another_action_is_refused() {
    let mut response = vec![0, 0, 0, 3, 0x12, 0x34, 0x56, 0x78];
    response.extend_from_slice(&[1, 2, 3, 4, 5, 6, 7, 8]);
    assert_eq!(
        parse_connection_response(&response, 0x12345678),
        Err(TrackerError::TrackerProtocolError)
    );
}

#[test]
fn short_connect_response_is_refused() {
    let response = vec![0, 0, 0, 0, 0x12, 0x34, 0x56, 0x78, 1, 2, 3, 4, 5, 6, 7];
    assert_eq!(
        parse_connection_response(&response, 0x12345678),
        Err(TrackerError::TrackerProtocolError)
    );
    assert_eq!(parse_connection_response(&[], 0), Err(TrackerError::TrackerProtocolError));
}

#[test]
fn trackers_are_classified_by_scheme() {
    assert_eq!(classify_tracker("udp://tracker.example:6969/announce"), TrackerKind::Udp);
    assert_eq!(classify_tracker("http://tracker.example/announce"), TrackerKind::Http);
    assert_eq!(classify_tracker("https://tracker.example/announce"), TrackerKind::Http);
    assert_eq!(classify_tracker("wss://tracker.example"), TrackerKind::Unsupported);
    assert_eq!(classify_tracker("udp:/"), TrackerKind::Unsupported);
    assert_eq!(classify_tracker(""), TrackerKind::Unsupported);
}

#[test]
fn each_group_is_asked_by_its_first_address() {
    let list = vec![
        vec![String::from("udp://a/announce"), String::from("http://b/announce")],
        Vec::new(),
        vec![String::from("https://c/announce")],
        vec![String::from("ftp://d")],
    ];
    assert_eq!(
        plan_tracker_queries(&list),
        vec![TrackerKind::Udp, TrackerKind::Unsupported, TrackerKind::Http, TrackerKind::Unsupported]
    );
    assert_eq!(plan_tracker_queries(&Vec::new()), Vec::<TrackerKind>::new());
}

#[test]
fn announce_request_joins_its_parts() {
    assert_eq!(
        announcement_request("http://t/announce?x=1", "abcd", "0123"),
        "http://t/announce?x=1&info_hash=abcd&peer_id=0123"
    );
}

#[test]
fn peer_id_text_is_the_first_twenty_digits() {
    let mut id = [0u8; 20];
    for i in 0..20 {
        id[i] = (0xA0 + i) as u8;
    }
    assert_eq!(peer_id_text(&id), "a0a1a2a3a4a5a6a7a8a9");
}

#[test]
fn fresh_announce_request_has_a_hex_peer_id() {
    let r = new_announcement_request("http://t/a", "ff00");
    let prefix = "http://t/a&info_hash=ff00&peer_id=";
    assert!(r.starts_with(prefix));
    let id = &r[prefix.len()..];
    assert_eq!(id.len(), 20);
    assert!(id.chars().all(|c| c.is_ascii_digit() || ('a'..='f').contains(&c)));
}

#[test]
fn handshake_is_parsed_by_its_layout() {
    let hash = [3u8; 20];
    let id = [4u8; 20];
    let h = build_handshake(&hash, &id);
    assert_eq!(parse_handshake(&h, &hash), Ok(id));
    let mut extended = h.clone();
    extended[25] = 0x10;
    assert_eq!(parse_handshake(&extended, &hash), Ok(id));
    assert_eq!(parse_handshake(&h[..67], &hash), Err(PeerError::HandshakeReadFailure));
    assert_eq!(parse_handshake(&h, &[5u8; 20]), Err(PeerError::HandshakeMismatch));
    let mut wrong_header = h.clone();
    wrong_header[0] = 18;
    assert_eq!(parse_handshake(&wrong_header, &hash), Err(PeerError::HandshakeMismatch));
    let mut shifted = vec![0u8];
    shifted.extend_from_slice(&h);
    assert_eq!(parse_handshake(&shifted, &hash), Err(PeerError::HandshakeMismatch));
    assert_eq!(check_handshake(&shifted, &hash), Ok(29));
}

#[test]
fn announce_request_has_the_fixed_layout() {
    let r = AnnounceRequest {
        connection_id: 0x0102030405060708,
        transaction_id: 0x0A0B0C0D,
        info_hash: [0x11; 20],
        peer_id: [0x22; 20],
        downloaded: 1,
        left: 0x0100,
        uploaded: 0xFFFF_FFFF_FFFF_FFFF,
        port: 6881,
    };
    let b = announce_request(&r);
    assert_eq!(b.len(), 98);
    assert_eq!(&b[0..8], &[1, 2, 3, 4, 5, 6, 7, 8]);
    assert_eq!(&b[8..12], &[0, 0, 0, 1]);
    assert_eq!(&b[12..16], &[0x0A, 0x0B, 0x0C, 0x0D]);
    assert_eq!(&b[16..36], &[0x11; 20]);
    assert_eq!(&b[36..56], &[0x22; 20]);
    assert_eq!(&b[56..64], &[0, 0, 0, 0, 0, 0, 0, 1]);
    assert_eq!(&b[64..72], &[0, 0, 0, 0, 0, 0, 1, 0]);
    assert_eq!(&b[72..80], &[0xFF; 8]);
    assert_eq!(&b[80..92], &[0u8; 12]);
    assert_eq!(&b[92..96], &[0xFF; 4]);
    assert_eq!(&b[96..98], &[0x1A, 0xE1]);
}

#[test]
fn announce_response_gives_interval_and_peers() {
    let mut response = vec![0, 0, 0, 1, 0, 0, 0, 7];
    response.extend_from_slice(&[0, 0, 0x07, 0x08]);
    response.extend_from_slice(&[0, 0, 0, 3]);
    response.extend_from_slice(&[0, 0, 0, 5]);
    response.extend_from_slice(&[10, 0, 0, 1, 0x1A, 0xE1]);
    response.extend_from_slice(&[192, 168, 1, 2, 0x00, 0x50]);
    let a = parse_announce_response(&response, 7).unwrap();
    assert_eq!(a.interval, 1800);
    assert_eq!(a.leechers, 3);
    assert_eq!(a.seeders, 5);
    assert_eq!(
        a.peers,
        vec![
            PeerAddress { ip: [10, 0, 0, 1], port: 6881 },
            PeerAddress { ip: [192, 168, 1, 2], port: 80 },
        ]
    );
    let empty = parse_announce_response(&response[..20], 7).unwrap();
    assert_eq!(empty.peers, Vec::new());
}

#[test]
fn announce_response_out_of_order_is_refused() {
    let mut response = vec![0, 0, 0, 1, 0, 0, 0, 7];
    response.extend_from_slice(&[0u8; 12]);
    response.extend_from_slice(&[10, 0, 0, 1, 0x1A, 0xE1]);
    assert!(parse_announce_response(&response, 7).is_ok());
    assert_eq!(parse_announce_response(&response, 8), Err(TrackerError::TrackerProtocolError));
    assert_eq!(
        parse_announce_response(&response[..25], 7),
        Err(TrackerError::TrackerProtocolError)
    );
    assert_eq!(
        parse_announce_response(&response[..19], 7),
        Err(TrackerError::TrackerProtocolError)
    );
    response[3] = 0;
    assert_eq!(parse_announce_response(&response, 7), Err(TrackerError::TrackerProtocolError));
}

fn verified_session(hash: [u8; 20]) -> PeerSession {
    let mut s = PeerSession::new(hash, [2u8; 20]);
    s.handle(&SessionEvent::ConnectSucceeded);
    s.handle(&SessionEvent::HandshakeWritten);
    s.handle(&SessionEvent::HandshakeResponse(build_handshake(&hash, &[9u8; 20])));
    s
}

#[test]
fn session_runs_through_its_life() {
    let hash = [1u8; 20];
    let mut s = PeerSession::new(hash, [2u8; 20]);
    assert_eq!(s.state, SessionState::Connecting);
    assert_eq!(s.action(), SessionAction::Connect);
    s.handle(&SessionEvent::ConnectSucceeded);
    assert_eq!(s.state, SessionState::Connected);
    assert_eq!(s.action(), SessionAction::SendHandshake);
    assert_eq!(s.handshake(), build_handshake(&hash, &[2u8; 20]));
    s.handle(&SessionEvent::HandshakeWritten);
    assert_eq!(s.state, SessionState::HandshakeSent);
    assert_eq!(s.action(), SessionAction::ReadHandshake);
    s.handle(&SessionEvent::HandshakeResponse(build_handshake(&hash, &[9u8; 20])));
    assert_eq!(s.state, SessionState::HandshakeVerified);
    assert_eq!(s.action(), SessionAction::ReadLengthPrefix);
    s.handle(&SessionEvent::LengthPrefix([0, 0, 0, 3]));
    assert_eq!(s.state, SessionState::PayloadExpected(3));
    assert_eq!(s.action(), SessionAction::ReadPayload(3));
    s.handle(&SessionEvent::Payload(vec![5, 0xF0, 0x01]));
    assert_eq!(s.state, SessionState::BitfieldReceived);
    assert_eq!(s.action(), SessionAction::Finish);
    assert_eq!(s.bitfield, vec![0xF0, 0x01]);
    s.handle(&SessionEvent::ReadFailed);
    assert_eq!(s.state, SessionState::BitfieldReceived);
    assert_eq!(s.bitfield, vec![0xF0, 0x01]);
}

#[test]
fn session_fails_with_the_reason() {
    let hash = [1u8; 20];
    let mut s = PeerSession::new(hash, [2u8; 20]);
    s.handle(&SessionEvent::ConnectTimedOut);
    assert_eq!(s.state, SessionState::Failed(PeerError::ConnectTimeout));
    assert_eq!(s.action(), SessionAction::Finish);
    s.handle(&SessionEvent::ConnectSucceeded);
    assert_eq!(s.state, SessionState::Failed(PeerError::ConnectTimeout));

    let mut s = PeerSession::new(hash, [2u8; 20]);
    s.handle(&SessionEvent::ConnectRefused);
    assert_eq!(s.state, SessionState::Failed(PeerError::ConnectRefused));

    let mut s = PeerSession::new(hash, [2u8; 20]);
    s.handle(&SessionEvent::ConnectSucceeded);
    s.handle(&SessionEvent::WriteFailed);
    assert_eq!(s.state, SessionState::Failed(PeerError::HandshakeSendFailure));

    let mut s = PeerSession::new(hash, [2u8; 20]);
    s.handle(&SessionEvent::ConnectSucceeded);
    s.handle(&SessionEvent::HandshakeWritten);
    s.handle(&SessionEvent::HandshakeResponse(vec![0u8; 40]));
    assert_eq!(s.state, SessionState::Failed(PeerError::HandshakeReadFailure));

    let mut s = PeerSession::new(hash, [2u8; 20]);
    s.handle(&SessionEvent::ConnectSucceeded);
    s.handle(&SessionEvent::HandshakeWritten);
    s.handle(&SessionEvent::HandshakeResponse(vec![0u8; 68]));
    assert_eq!(s.state, SessionState::Failed(PeerError::HandshakeMismatch));

    let mut s = verified_session(hash);
    s.handle(&SessionEvent::LengthPrefix([0x00, 0x10, 0x00, 0x01]));
    assert_eq!(s.state, SessionState::Failed(PeerError::MessageTooLarge));
    assert_eq!(s.action(), SessionAction::Finish);

    let mut s = verified_session(hash);
    s.handle(&SessionEvent::ReadFailed);
    assert_eq!(s.state, SessionState::Failed(PeerError::MessageReadFailure));

    let mut s = verified_session(hash);
    s.handle(&SessionEvent::LengthPrefix([0, 0, 0, 4]));
    s.handle(&SessionEvent::Payload(vec![5, 1]));
    assert_eq!(s.state, SessionState::Failed(PeerError::MessageReadFailure));
}

#[test]
fn session_ignores_what_it_does_not_await() {
    let hash = [1u8; 20];
    let mut s = PeerSession::new(hash, [2u8; 20]);
    s.handle(&SessionEvent::HandshakeWritten);
    assert_eq!(s.state, SessionState::Connecting);
    s.handle(&SessionEvent::Payload(vec![5, 1]));
    assert_eq!(s.state, SessionState::Connecting);
    assert_eq!(s.bitfield, Vec::<u8>::new());
}

#[test]
fn other_first_message_establishes_without_bitfield() {
    let mut s = verified_session([1u8; 20]);
    s.handle(&SessionEvent::LengthPrefix([0, 0, 0, 1]));
    s.handle(&SessionEvent::Payload(vec![1]));
    assert_eq!(s.state, SessionState::BitfieldReceived);
    assert_eq!(s.bitfield, Vec::<u8>::new());
}

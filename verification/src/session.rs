//! The life of one peer session as a state machine. The caller does the
//! network work and reports what happened; the session decides what state
//! follows and what is to be done next.

use crate::peer::{
    be_u32, bitfield_of, build_handshake, check_handshake, extract_bitfield, handshake_accepted,
    handshake_bytes, parse_length_prefix, PeerError, HANDSHAKE_LEN, MAX_MESSAGE_LEN,
};
use vstd::prelude::*;

verus! {

/// Where a session stands.
#[derive(Debug, Clone, Copy, PartialEq, Eq, Structural)]
pub enum SessionState {
    Connecting,
    Connected,
    HandshakeSent,
    HandshakeVerified,
    /// The length prefix of the first message was read; its payload is awaited.
    PayloadExpected(u32),
    BitfieldReceived,
    Failed(PeerError),
}

/// What the caller reports to the session.
#[derive(Debug, Clone)]
pub enum SessionEvent {
    ConnectSucceeded,
    ConnectTimedOut,
    ConnectRefused,
    HandshakeWritten,
    WriteFailed,
    /// What was read of the response until 68 bytes had come or the stream ended.
    HandshakeResponse(Vec<u8>),
    LengthPrefix([u8; 4]),
    /// The whole payload of the first message.
    Payload(Vec<u8>),
    /// The stream ended, or failed, before what was awaited had come.
    ReadFailed,
}

/// What the caller is to do next.
#[derive(Debug, Clone, Copy, PartialEq, Eq, Structural)]
pub enum SessionAction {
    Connect,
    SendHandshake,
    ReadHandshake,
    ReadLengthPrefix,
    ReadPayload(u32),
    /// The session is established or has failed: nothing is left to do.
    Finish,
}

/// The state is final: established or failed.
pub open spec fn is_terminal(state: SessionState) -> bool {
    state is BitfieldReceived || state is Failed
}

/// The state that follows `state` when `event` is reported. An event that the
/// state does not await changes nothing.
pub open spec fn next_state(state: SessionState, event: SessionEvent, info_hash: Seq<u8>) -> SessionState {
    match (state, event) {
        (SessionState::Connecting, SessionEvent::ConnectSucceeded) => SessionState::Connected,
        (SessionState::Connecting, SessionEvent::ConnectTimedOut) => SessionState::Failed(
            PeerError::ConnectTimeout,
        ),
        (SessionState::Connecting, SessionEvent::ConnectRefused) => SessionState::Failed(
            PeerError::ConnectRefused,
        ),
        (SessionState::Connected, SessionEvent::HandshakeWritten) => SessionState::HandshakeSent,
        (SessionState::Connected, SessionEvent::WriteFailed) => SessionState::Failed(
            PeerError::HandshakeSendFailure,
        ),
        (SessionState::HandshakeSent, SessionEvent::HandshakeResponse(bytes)) => {
            if handshake_accepted(bytes@, info_hash) {
                SessionState::HandshakeVerified
            } else if bytes@.len() < HANDSHAKE_LEN {
                SessionState::Failed(PeerError::HandshakeReadFailure)
            } else {
                SessionState::Failed(PeerError::HandshakeMismatch)
            }
        },
        (SessionState::HandshakeSent, SessionEvent::ReadFailed) => SessionState::Failed(
            PeerError::HandshakeReadFailure,
        ),
        (SessionState::HandshakeVerified, SessionEvent::LengthPrefix(prefix)) => {
            if be_u32(prefix@) > MAX_MESSAGE_LEN {
                SessionState::Failed(PeerError::MessageTooLarge)
            } else {
                SessionState::PayloadExpected(be_u32(prefix@) as u32)
            }
        },
        (SessionState::HandshakeVerified, SessionEvent::ReadFailed) => SessionState::Failed(
            PeerError::MessageReadFailure,
        ),
        (SessionState::PayloadExpected(n), SessionEvent::Payload(bytes)) => {
            if bytes@.len() == n {
                SessionState::BitfieldReceived
            } else {
                SessionState::Failed(PeerError::MessageReadFailure)
            }
        },
        (SessionState::PayloadExpected(_), SessionEvent::ReadFailed) => SessionState::Failed(
            PeerError::MessageReadFailure,
        ),
        _ => state,
    }
}

/// What is to be done in a state.
pub open spec fn action_in(state: SessionState) -> SessionAction {
    match state {
        SessionState::Connecting => SessionAction::Connect,
        SessionState::Connected => SessionAction::SendHandshake,
        SessionState::HandshakeSent => SessionAction::ReadHandshake,
        SessionState::HandshakeVerified => SessionAction::ReadLengthPrefix,
        SessionState::PayloadExpected(n) => SessionAction::ReadPayload(n),
        SessionState::BitfieldReceived => SessionAction::Finish,
        SessionState::Failed(_) => SessionAction::Finish,
    }
}

/// The bitfield that a session holds after `event`: that of the payload which
/// establishes it, and else the one it held.
pub open spec fn next_bitfield(
    state: SessionState,
    event: SessionEvent,
    held: Seq<u8>,
) -> Seq<u8> {
    match (state, event) {
        (SessionState::PayloadExpected(n), SessionEvent::Payload(bytes)) => {
            if bytes@.len() == n {
                bitfield_of(bytes@)
            } else {
                held
            }
        },
        _ => held,
    }
}

/// One peer session: its state, the identities that its handshake carries,
/// and the peer's bitfield once it has come.
pub struct PeerSession {
    pub state: SessionState,
    pub info_hash: [u8; 20],
    pub peer_id: [u8; 20],
    pub bitfield: Vec<u8>,
}

impl PeerSession {
    /// A session that has not connected yet.
    pub fn new(info_hash: [u8; 20], peer_id: [u8; 20]) -> (session: PeerSession)
        ensures
            session.state == SessionState::Connecting,
            session.info_hash == info_hash,
            session.peer_id == peer_id,
            session.bitfield@ == Seq::<u8>::empty(),
    {
        PeerSession { state: SessionState::Connecting, info_hash, peer_id, bitfield: Vec::new() }
    }

    /// What the caller is to do next.
    pub fn action(&self) -> (action: SessionAction)
        ensures
            action == action_in(self.state),
    {
        match self.state {
            SessionState::Connecting => SessionAction::Connect,
            SessionState::Connected => SessionAction::SendHandshake,
            SessionState::HandshakeSent => SessionAction::ReadHandshake,
            SessionState::HandshakeVerified => SessionAction::ReadLengthPrefix,
            SessionState::PayloadExpected(n) => SessionAction::ReadPayload(n),
            SessionState::BitfieldReceived => SessionAction::Finish,
            SessionState::Failed(_) => SessionAction::Finish,
        }
    }

    /// The handshake that this session sends.
    pub fn handshake(&self) -> (out: Vec<u8>)
        ensures
            out@ == handshake_bytes(self.info_hash@, self.peer_id@),
    {
        build_handshake(&self.info_hash, &self.peer_id)
    }

    /// Takes note of what the caller reports and moves to the state that follows.
    pub fn handle(&mut self, event: &SessionEvent)
        ensures
            final(self).state == next_state(old(self).state, *event, old(self).info_hash@),
            final(self).bitfield@ == next_bitfield(old(self).state, *event, old(self).bitfield@),
            final(self).info_hash == old(self).info_hash,
            final(self).peer_id == old(self).peer_id,
    {
        match self.state {
            SessionState::Connecting => {
                match event {
                    SessionEvent::ConnectSucceeded => {
                        self.state = SessionState::Connected;
                    },
                    SessionEvent::ConnectTimedOut => {
                        self.state = SessionState::Failed(PeerError::ConnectTimeout);
                    },
                    SessionEvent::ConnectRefused => {
                        self.state = SessionState::Failed(PeerError::ConnectRefused);
                    },
                    _ => {},
                }
            },
            SessionState::Connected => {
                match event {
                    SessionEvent::HandshakeWritten => {
                        self.state = SessionState::HandshakeSent;
                    },
                    SessionEvent::WriteFailed => {
                        self.state = SessionState::Failed(PeerError::HandshakeSendFailure);
                    },
                    _ => {},
                }
            },
            SessionState::HandshakeSent => {
                match event {
                    SessionEvent::HandshakeResponse(bytes) => {
                        match check_handshake(bytes.as_slice(), &self.info_hash) {
                            Ok(_) => {
                                self.state = SessionState::HandshakeVerified;
                            },
                            Err(e) => {
                                self.state = SessionState::Failed(e);
                            },
                        }
                    },
                    SessionEvent::ReadFailed => {
                        self.state = SessionState::Failed(PeerError::HandshakeReadFailure);
                    },
                    _ => {},
                }
            },
            SessionState::HandshakeVerified => {
                match event {
                    SessionEvent::LengthPrefix(prefix) => {
                        match parse_length_prefix(prefix) {
                            Ok(n) => {
                                self.state = SessionState::PayloadExpected(n);
                            },
                            Err(e) => {
                                self.state = SessionState::Failed(e);
                            },
                        }
                    },
                    SessionEvent::ReadFailed => {
                        self.state = SessionState::Failed(PeerError::MessageReadFailure);
                    },
                    _ => {},
                }
            },
            SessionState::PayloadExpected(n) => {
                match event {
                    SessionEvent::Payload(bytes) => {
                        if bytes.len() == n as usize {
                            self.bitfield = extract_bitfield(bytes.as_slice());
                            self.state = SessionState::BitfieldReceived;
                        } else {
                            self.state = SessionState::Failed(PeerError::MessageReadFailure);
                        }
                    },
                    SessionEvent::ReadFailed => {
                        self.state = SessionState::Failed(PeerError::MessageReadFailure);
                    },
                    _ => {},
                }
            },
            SessionState::BitfieldReceived => {},
            SessionState::Failed(_) => {},
        }
    }
}

/// A session that is established or has failed stays as it is, whatever is reported.
pub proof fn lemma_terminal_states_stay(state: SessionState, event: SessionEvent, info_hash: Seq<u8>)
    requires
        is_terminal(state),
    ensures
        next_state(state, event, info_hash) == state,
{
}

/// A session leaves the state in which it awaits the handshake response for
/// the verified state exactly when the response is accepted.
pub proof fn lemma_verified_only_by_handshake(event: SessionEvent, info_hash: Seq<u8>)
    ensures
        next_state(SessionState::HandshakeSent, event, info_hash) == SessionState::HandshakeVerified
            <==> (event matches SessionEvent::HandshakeResponse(bytes) && handshake_accepted(
            bytes@,
            info_hash,
        )),
{
}

/// No payload is awaited for a length prefix above 1 MiB: the session fails at once.
pub proof fn lemma_oversized_message_fails(prefix: [u8; 4], info_hash: Seq<u8>)
    requires
        be_u32(prefix@) > MAX_MESSAGE_LEN,
    ensures
        next_state(SessionState::HandshakeVerified, SessionEvent::LengthPrefix(prefix), info_hash)
            == SessionState::Failed(PeerError::MessageTooLarge),
{
}

} // verus!

use vstd::prelude::*;
use vstd::slice::slice_to_vec;
use vstd::string::*;
use vstd::utf8::encode_utf8;

use crate::config::{kick_payload, lookup, motd_payload, Config, ConfigView, MAX_TEXT_BYTES};
use crate::error::ProtocolError;
use crate::packet_utils::{
    frame_at, frame_of, lemma_frame_round_trip, write_frame, HandshakeRequest, NextState,
};
use crate::varint::{encode_var_int, lemma_var_int_round_trip, write_var_int};

verus! {

/// The payload of a packet with id zero that carries one string field.
pub open spec fn string_packet(text: Seq<char>) -> Seq<u8> {
    encode_var_int(0) + encode_var_int(encode_utf8(text).len() as i32) + encode_utf8(text)
}

/// What a client whose host is unknown receives before the connection is
/// closed: at login the disconnect text, for status the status text, each
/// as one frame.
pub open spec fn unknown_host_reply(c: ConfigView, state: NextState) -> Seq<u8> {
    match state {
        NextState::Login => frame_of(string_packet(kick_payload(c))),
        NextState::Status => frame_of(string_packet(motd_payload(c))),
    }
}

/// What a session does once its handshake is read.
#[derive(Debug)]
pub enum SessionAction {
    /// Send these bytes to the client, then close; no backend is contacted.
    Reject(Vec<u8>),
    /// Connect to `backend`, send it `replay`, then relay both ways.
    Bridge { backend: String, replay: Vec<u8> },
}

/// The frame that carries `text` as a packet with id zero.
pub fn write_string(text: &str) -> (r: Vec<u8>)
    requires
        encode_utf8(text@).len() <= MAX_TEXT_BYTES,
    ensures
        r@ == frame_of(string_packet(text@)),
{
    let mut bytes = text.as_bytes_vec();
    let mut body: Vec<u8> = Vec::new();
    write_var_int(&mut body, 0);
    write_var_int(&mut body, bytes.len() as i32);
    body.append(&mut bytes);
    proof {
        lemma_var_int_round_trip(0, Seq::empty());
        lemma_var_int_round_trip(encode_utf8(text@).len() as i32, Seq::empty());
    }
    write_frame(body.as_slice())
}

/// The reply to a client whose host is unknown and that asks for `state`.
pub fn unknown_host_response(config: &Config, state: NextState) -> (r: Vec<u8>)
    ensures
        r@ == unknown_host_reply(config@, state),
{
    match state {
        NextState::Login => {
            let text = config.get_unknown_host_kick_msg();
            write_string(text.as_str())
        },
        NextState::Status => {
            let text = config.get_unknown_host_motd();
            write_string(text.as_str())
        },
    }
}

/// Decides a session from its handshake: a hostname that the routing table
/// holds is bridged to its backend, replaying the client's frame byte for
/// byte; any other gets the unknown-host reply and no backend connection.
pub fn plan_session(config: &Config, handshake: &HandshakeRequest) -> (r: SessionAction)
    ensures
        match r {
            SessionAction::Reject(bytes) => lookup(config@.hosts, handshake@.host) is None
                && bytes@ == unknown_host_reply(config@, handshake@.next_state),
            SessionAction::Bridge { backend, replay } => lookup(config@.hosts, handshake@.host)
                == Some(backend@) && replay@ == handshake@.raw_frame,
        },
{
    match config.get_addr_by_host(handshake.get_host()) {
        Some(server) => SessionAction::Bridge {
            backend: server.ip.clone(),
            replay: slice_to_vec(handshake.get_raw_frame()),
        },
        None => SessionAction::Reject(unknown_host_response(config, *handshake.get_next_state())),
    }
}

/// The reply to a client whose host is unknown is exactly one frame, and
/// that frame carries the string packet of the disconnect text at login and
/// of the status text for status.
pub proof fn lemma_unknown_host_reply_is_one_frame(c: ConfigView, state: NextState)
    requires
        encode_utf8(kick_payload(c)).len() <= MAX_TEXT_BYTES,
        encode_utf8(motd_payload(c)).len() <= MAX_TEXT_BYTES,
    ensures
        frame_at(unknown_host_reply(c, state), 0) == Ok::<(Seq<u8>, int), ProtocolError>(
            (
                string_packet(
                    match state {
                        NextState::Login => kick_payload(c),
                        NextState::Status => motd_payload(c),
                    },
                ),
                unknown_host_reply(c, state).len() as int,
            ),
        ),
{
    let text = match state {
        NextState::Login => kick_payload(c),
        NextState::Status => motd_payload(c),
    };
    let n = encode_utf8(text).len() as i32;
    lemma_var_int_round_trip(0, Seq::empty());
    lemma_var_int_round_trip(n, Seq::empty());
    lemma_frame_round_trip(string_packet(text), Seq::empty());
    assert(frame_of(string_packet(text)) + Seq::empty() =~= unknown_host_reply(c, state));
}

} // verus!

use vstd::prelude::*;
use vstd::slice::{slice_subrange, slice_to_vec};
use vstd::utf8::{decode_utf8, valid_utf8};

use crate::error::ProtocolError;
use crate::varint::{
    encode_var_int, lemma_var_int_round_trip, read_var_int, var_int_at, write_var_int,
};

verus! {

/// What `String::from_utf8_lossy` makes of a byte sequence.
pub uninterp spec fn utf8_lossy(bytes: Seq<u8>) -> Seq<char>;

/// Relies on `String::from_utf8_lossy`: the text of `bytes`, with each
/// invalid sequence replaced; it depends on the bytes alone.
/// Valid UTF-8 comes back as the text it encodes.
#[verifier::external_body]
fn decode_utf8_lossy(bytes: &[u8]) -> (r: String)
    ensures
        r@ == utf8_lossy(bytes@),
        valid_utf8(bytes@) ==> r@ == decode_utf8(bytes@),
{
    String::from_utf8_lossy(bytes).into_owned()
}

/// A length-prefixed field at `pos` of `s` (a VarInt length, then that
/// many bytes): its bytes and the position after it. `short` is the error
/// when `s` ends before the declared length.
pub open spec fn prefixed_at(s: Seq<u8>, pos: int, short: ProtocolError) -> Result<
    (Seq<u8>, int),
    ProtocolError,
> {
    match var_int_at(s, pos) {
        Err(e) => Err(e),
        Ok((len, p)) => if len < 0 {
            Err(ProtocolError::NegativeLength(len))
        } else if p + len > s.len() {
            Err(short)
        } else {
            Ok((s.subrange(p, p + len), p + len))
        },
    }
}

/// The string field at `pos` of `s` and the position after it.
pub open spec fn string_at(s: Seq<u8>, pos: int) -> Result<(Seq<char>, int), ProtocolError> {
    match prefixed_at(s, pos, ProtocolError::UnexpectedEnd) {
        Err(e) => Err(e),
        Ok((bytes, next)) => Ok((utf8_lossy(bytes), next)),
    }
}

/// The frame at `pos` of `s`: its payload and the position after it.
pub open spec fn frame_at(s: Seq<u8>, pos: int) -> Result<(Seq<u8>, int), ProtocolError> {
    prefixed_at(s, pos, ProtocolError::IncompleteFrame)
}

/// The wire bytes of a frame that carries `payload`.
pub open spec fn frame_of(payload: Seq<u8>) -> Seq<u8> {
    encode_var_int(payload.len() as i32) + payload
}

fn read_prefixed(buf: &[u8], pos: usize, short: ProtocolError) -> (r: Result<
    (&[u8], usize),
    ProtocolError,
>)
    requires
        pos <= buf@.len(),
    ensures
        match r {
            Ok((bytes, next)) => prefixed_at(buf@, pos as int, short) == Ok::<
                (Seq<u8>, int),
                ProtocolError,
            >((bytes@, next as int)),
            Err(e) => prefixed_at(buf@, pos as int, short) == Err::<(Seq<u8>, int), ProtocolError>(
                e,
            ),
        },
{
    let (len, p) = match read_var_int(buf, pos) {
        Ok(x) => x,
        Err(e) => return Err(e),
    };
    if len < 0 {
        return Err(ProtocolError::NegativeLength(len));
    }
    let len = len as usize;
    if len > buf.len() - p {
        return Err(short);
    }
    Ok((slice_subrange(buf, p, p + len), p + len))
}

/// Reads the string field at `pos` of `buf`; gives its text and the position
/// after it.
pub fn read_string(buf: &[u8], pos: usize) -> (r: Result<(String, usize), ProtocolError>)
    requires
        pos <= buf@.len(),
    ensures
        match r {
            Ok((text, next)) => string_at(buf@, pos as int) == Ok::<
                (Seq<char>, int),
                ProtocolError,
            >((text@, next as int)),
            Err(e) => string_at(buf@, pos as int) == Err::<(Seq<char>, int), ProtocolError>(e),
        },
{
    match read_prefixed(buf, pos, ProtocolError::UnexpectedEnd) {
        Ok((bytes, next)) => Ok((decode_utf8_lossy(bytes), next)),
        Err(e) => Err(e),
    }
}

/// Reads the frame at `pos` of `buf`; gives its payload and the position
/// after it.
pub fn read_frame(buf: &[u8], pos: usize) -> (r: Result<(Vec<u8>, usize), ProtocolError>)
    requires
        pos <= buf@.len(),
    ensures
        match r {
            Ok((payload, next)) => frame_at(buf@, pos as int) == Ok::<
                (Seq<u8>, int),
                ProtocolError,
            >((payload@, next as int)),
            Err(e) => frame_at(buf@, pos as int) == Err::<(Seq<u8>, int), ProtocolError>(e),
        },
{
    match read_prefixed(buf, pos, ProtocolError::IncompleteFrame) {
        Ok((bytes, next)) => Ok((slice_to_vec(bytes), next)),
        Err(e) => Err(e),
    }
}

/// How a frame goes on after the bytes `prefix` that were read from its
/// start: `None` while its length prefix is not complete (one more byte is
/// needed), else the number of payload bytes that follow the prefix.
pub open spec fn frame_body_after(prefix: Seq<u8>) -> Result<Option<int>, ProtocolError> {
    match var_int_at(prefix, 0) {
        Err(ProtocolError::UnexpectedEnd) => Ok(None),
        Err(e) => Err(e),
        Ok((len, _)) => if len < 0 {
            Err(ProtocolError::NegativeLength(len))
        } else {
            Ok(Some(len as int))
        },
    }
}

/// Tells a reader that takes a frame byte by byte whether its length prefix
/// is complete, and if so how many payload bytes remain to be read.
pub fn frame_body_len(prefix: &[u8]) -> (r: Result<Option<usize>, ProtocolError>)
    ensures
        match r {
            Ok(Some(n)) => frame_body_after(prefix@) == Ok::<Option<int>, ProtocolError>(
                Some(n as int),
            ),
            Ok(None) => frame_body_after(prefix@) == Ok::<Option<int>, ProtocolError>(None),
            Err(e) => frame_body_after(prefix@) == Err::<Option<int>, ProtocolError>(e),
        },
{
    match read_var_int(prefix, 0) {
        Err(ProtocolError::UnexpectedEnd) => Ok(None),
        Err(e) => Err(e),
        Ok((len, _)) => {
            if len < 0 {
                Err(ProtocolError::NegativeLength(len))
            } else {
                Ok(Some(len as usize))
            }
        },
    }
}

/// The frame that carries `payload`: its length as a VarInt, then the bytes.
pub fn write_frame(payload: &[u8]) -> (r: Vec<u8>)
    requires
        payload@.len() <= i32::MAX,
    ensures
        r@ == frame_of(payload@),
{
    let mut out: Vec<u8> = Vec::new();
    write_var_int(&mut out, payload.len() as i32);
    let mut i: usize = 0;
    while i < payload.len()
        invariant
            i <= payload@.len(),
            out@ == encode_var_int(payload@.len() as i32) + payload@.subrange(0, i as int),
        decreases payload@.len() - i,
    {
        out.push(payload[i]);
        i = i + 1;
        assert(out@ =~= encode_var_int(payload@.len() as i32) + payload@.subrange(0, i as int));
    }
    assert(payload@.subrange(0, i as int) =~= payload@);
    out
}

/// The phase that a client asks for after its handshake.
#[derive(Debug, Clone, Copy, PartialEq, Eq, Structural)]
pub enum NextState {
    Status,
    Login,
}

/// The next state that a wire value stands for: 1 is status, 2 is login.
pub open spec fn next_state_of(num: i32) -> Option<NextState> {
    if num == 1 {
        Some(NextState::Status)
    } else if num == 2 {
        Some(NextState::Login)
    } else {
        None
    }
}

impl NextState {
    /// The next state that `num` stands for on the wire.
    pub fn from_i32(num: i32) -> (r: Result<NextState, ProtocolError>)
        ensures
            match next_state_of(num) {
                Some(st) => r == Ok::<NextState, ProtocolError>(st),
                None => r == Err::<NextState, ProtocolError>(ProtocolError::InvalidNextState(num)),
            },
    {
        match num {
            1 => Ok(NextState::Status),
            2 => Ok(NextState::Login),
            _ => Err(ProtocolError::InvalidNextState(num)),
        }
    }

    /// The name of the state, as it appears in a log record.
    pub fn name(&self) -> (r: &'static str)
        ensures
            r@ == (match self {
                NextState::Status => "Status"@,
                NextState::Login => "Login"@,
            }),
    {
        match self {
            NextState::Status => "Status",
            NextState::Login => "Login",
        }
    }
}

/// The fields of a handshake frame, as the model sees them.
pub struct HandshakeView {
    /// Declared length of the payload.
    pub size: i32,
    /// The frame as the client sent it, length prefix included.
    pub raw_frame: Seq<u8>,
    /// The payload of the frame, untouched.
    pub raw_body: Seq<u8>,
    pub id: i32,
    pub version: i32,
    pub host: Seq<char>,
    pub port: u16,
    pub next_state: NextState,
}

/// The handshake fields of a frame payload: packet id (zero), protocol
/// version, server address, big-endian port and next state. Bytes after the
/// next state are not read.
pub open spec fn handshake_fields(body: Seq<u8>) -> Result<
    (i32, i32, Seq<char>, u16, NextState),
    ProtocolError,
> {
    match var_int_at(body, 0) {
        Err(e) => Err(e),
        Ok((id, p1)) => if id != 0 {
            Err(ProtocolError::UnexpectedPacketId(id))
        } else {
            match var_int_at(body, p1) {
                Err(e) => Err(e),
                Ok((version, p2)) => match string_at(body, p2) {
                    Err(e) => Err(e),
                    Ok((host, p3)) => if p3 + 2 > body.len() {
                        Err(ProtocolError::UnexpectedEnd)
                    } else {
                        match var_int_at(body, p3 + 2) {
                            Err(e) => Err(e),
                            Ok((ns, _)) => match next_state_of(ns) {
                                None => Err(ProtocolError::InvalidNextState(ns)),
                                Some(st) => Ok(
                                    (
                                        id,
                                        version,
                                        host,
                                        (body[p3] as int * 256 + body[p3 + 1] as int) as u16,
                                        st,
                                    ),
                                ),
                            },
                        }
                    },
                },
            }
        },
    }
}

/// The handshake that the frame at the front of `buf` carries.
pub open spec fn parse_handshake(buf: Seq<u8>) -> Result<HandshakeView, ProtocolError> {
    match frame_at(buf, 0) {
        Err(e) => Err(e),
        Ok((body, end)) => match handshake_fields(body) {
            Err(e) => Err(e),
            Ok((id, version, host, port, next_state)) => Ok(
                HandshakeView {
                    size: body.len() as i32,
                    raw_frame: buf.subrange(0, end),
                    raw_body: body,
                    id,
                    version,
                    host,
                    port,
                    next_state,
                },
            ),
        },
    }
}

/// A client's first message: where it wants to go and in which state,
/// with the exact bytes it sent.
#[derive(Debug, Clone)]
pub struct HandshakeRequest {
    size: i32,
    raw_frame: Vec<u8>,
    raw_body: Vec<u8>,
    id: i32,
    version: i32,
    host: String,
    port: u16,
    next_state: NextState,
}

impl View for HandshakeRequest {
    type V = HandshakeView;

    closed spec fn view(&self) -> HandshakeView {
        HandshakeView {
            size: self.size,
            raw_frame: self.raw_frame@,
            raw_body: self.raw_body@,
            id: self.id,
            version: self.version,
            host: self.host@,
            port: self.port,
            next_state: self.next_state,
        }
    }
}

impl HandshakeRequest {
    /// Reads the handshake frame at the front of `buf`.
    pub fn read(buf: &[u8]) -> (r: Result<HandshakeRequest, ProtocolError>)
        ensures
            match r {
                Ok(h) => parse_handshake(buf@) == Ok::<HandshakeView, ProtocolError>(h@),
                Err(e) => parse_handshake(buf@) == Err::<HandshakeView, ProtocolError>(e),
            },
    {
        let (raw_body, end) = match read_frame(buf, 0) {
            Ok(x) => x,
            Err(e) => return Err(e),
        };
        let body = raw_body.as_slice();
        let (id, p1) = match read_var_int(body, 0) {
            Ok(x) => x,
            Err(e) => return Err(e),
        };
        if id != 0 {
            return Err(ProtocolError::UnexpectedPacketId(id));
        }
        let (version, p2) = match read_var_int(body, p1) {
            Ok(x) => x,
            Err(e) => return Err(e),
        };
        let (host, p3) = match read_string(body, p2) {
            Ok(x) => x,
            Err(e) => return Err(e),
        };
        if body.len() - p3 < 2 {
            return Err(ProtocolError::UnexpectedEnd);
        }
        let port: u16 = (body[p3] as u16) * 256 + body[p3 + 1] as u16;
        let (ns, _) = match read_var_int(body, p3 + 2) {
            Ok(x) => x,
            Err(e) => return Err(e),
        };
        let next_state = match NextState::from_i32(ns) {
            Ok(st) => st,
            Err(e) => return Err(e),
        };
        let raw_frame = slice_to_vec(slice_subrange(buf, 0, end));
        Ok(HandshakeRequest {
            size: raw_body.len() as i32,
            raw_frame,
            raw_body,
            id,
            version,
            host,
            port,
            next_state,
        })
    }

    /// The server address that the client declared.
    pub fn get_host(&self) -> (r: &str)
        ensures
            r@ == self@.host,
    {
        self.host.as_str()
    }

    /// The state that the client asks for next.
    pub fn get_next_state(&self) -> (r: &NextState)
        ensures
            *r == self@.next_state,
    {
        &self.next_state
    }

    /// The declared length of the frame's payload.
    pub fn get_size(&self) -> (r: i32)
        ensures
            r == self@.size,
    {
        self.size
    }

    /// The frame's payload, byte for byte.
    pub fn get_raw_body(&self) -> (r: &[u8])
        ensures
            r@ == self@.raw_body,
    {
        self.raw_body.as_slice()
    }

    /// The whole frame as the client sent it, length prefix included.
    pub fn get_raw_frame(&self) -> (r: &[u8])
        ensures
            r@ == self@.raw_frame,
    {
        self.raw_frame.as_slice()
    }

    /// The server port that the client declared.
    pub fn get_port(&self) -> (r: u16)
        ensures
            r == self@.port,
    {
        self.port
    }

    /// The protocol version that the client declared.
    pub fn get_protocol_version(&self) -> (r: i32)
        ensures
            r == self@.version,
    {
        self.version
    }

    /// The packet id of the frame (always zero for a handshake).
    pub fn get_packet_id(&self) -> (r: i32)
        ensures
            r == self@.id,
    {
        self.id
    }
}

/// A frame read back from the bytes that carry it gives its payload and
/// ends where the frame ends, whatever follows.
pub proof fn lemma_frame_round_trip(payload: Seq<u8>, rest: Seq<u8>)
    requires
        payload.len() <= i32::MAX,
    ensures
        frame_at(frame_of(payload) + rest, 0) == Ok::<(Seq<u8>, int), ProtocolError>(
            (payload, frame_of(payload).len() as int),
        ),
{
    let len = payload.len() as i32;
    let s = frame_of(payload) + rest;
    lemma_var_int_round_trip(len, payload + rest);
    assert(s.skip(0) =~= encode_var_int(len) + (payload + rest));
    let p = encode_var_int(len).len() as int;
    assert(s.subrange(p, p + len) =~= payload);
}

/// The handshake payload with these fields, the port big-endian.
pub open spec fn handshake_payload(
    id: i32,
    version: i32,
    host: Seq<u8>,
    port: u16,
    next_state: i32,
) -> Seq<u8> {
    encode_var_int(id) + encode_var_int(version) + encode_var_int(host.len() as i32) + host + seq![
        (port / 256) as u8,
        (port % 256) as u8,
    ] + encode_var_int(next_state)
}

/// A payload written from handshake fields reads back as those fields
/// (the address as its decoded text), whatever follows it; a packet id other
/// than zero or a next state other than 1 and 2 is reported as such.
pub proof fn lemma_handshake_fields_round_trip(
    id: i32,
    version: i32,
    host: Seq<u8>,
    port: u16,
    next_state: i32,
    rest: Seq<u8>,
)
    requires
        host.len() <= i32::MAX,
    ensures
        handshake_fields(handshake_payload(id, version, host, port, next_state) + rest) == if id
            != 0 {
            Err::<(i32, i32, Seq<char>, u16, NextState), ProtocolError>(
                ProtocolError::UnexpectedPacketId(id),
            )
        } else {
            match next_state_of(next_state) {
                None => Err(ProtocolError::InvalidNextState(next_state)),
                Some(st) => Ok((0, version, utf8_lossy(host), port, st)),
            }
        },
{
    let e_id = encode_var_int(id);
    let e_ver = encode_var_int(version);
    let e_len = encode_var_int(host.len() as i32);
    let pb = seq![(port / 256) as u8, (port % 256) as u8];
    let e_ns = encode_var_int(next_state);
    let b = handshake_payload(id, version, host, port, next_state) + rest;
    let p1 = e_id.len() as int;
    let p2 = p1 + e_ver.len();
    let pl = p2 + e_len.len();
    let p3 = pl + host.len();
    lemma_var_int_round_trip(id, b.skip(p1));
    assert(b.skip(0) =~= e_id + b.skip(p1));
    if id == 0 {
        lemma_var_int_round_trip(version, b.skip(p2));
        assert(b.skip(p1) =~= e_ver + b.skip(p2));
        lemma_var_int_round_trip(host.len() as i32, b.skip(pl));
        assert(b.skip(p2) =~= e_len + b.skip(pl));
        assert(b.subrange(pl, p3) =~= host);
        lemma_var_int_round_trip(next_state, rest);
        assert(b.skip(p3 + 2) =~= e_ns + rest);
        assert(b[p3] == (port / 256) as u8);
        assert(b[p3 + 1] == (port % 256) as u8);
        assert(((port / 256) as u8) as int * 256 + ((port % 256) as u8) as int == port as int);
    }
}

} // verus!

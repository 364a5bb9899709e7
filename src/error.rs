use vstd::prelude::*;

verus! {

/// What can go wrong while reading the wire format of a session.
#[derive(Debug, Clone, Copy, PartialEq, Eq, Structural)]
pub enum ProtocolError {
    /// A VarInt would need a sixth byte.
    VarIntTooLarge,
    /// The bytes ended inside a VarInt or a field of a payload.
    UnexpectedEnd,
    /// The source holds fewer bytes than the frame's declared length.
    IncompleteFrame,
    /// A length prefix decoded to a negative number.
    NegativeLength(i32),
    /// The handshake frame carries a packet id other than zero.
    UnexpectedPacketId(i32),
    /// The handshake's next state is neither status (1) nor login (2).
    InvalidNextState(i32),
}

} // verus!

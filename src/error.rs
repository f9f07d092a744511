use vstd::prelude::*;

verus! {

/// Why a byte sequence could not be read as a value or a packet.
#[derive(Clone, Copy, Debug, PartialEq, Eq, Structural)]
pub enum DecodeError {
    /// A variable-length integer ran past its group limit or past the end of the input.
    MalformedVarInt,
    /// Fewer bytes remain than a field needs.
    TruncatedPacket,
    /// A length prefix is negative or exceeds the field's maximum.
    InvalidLength,
    /// The packet's fields ended before its frame did.
    TrailingBytes,
    /// No packet type is registered for this code in the current direction and phase.
    UnknownPacketCode { code: i32, remaining: usize },
    /// A slot announces item components, which have no supported layout.
    UnsupportedSlotComponents,
}

/// Why a value could not be written as a packet.
#[derive(Clone, Copy, Debug, PartialEq, Eq, Structural)]
pub enum EncodeError {
    /// The packet's type has no code in the given direction and phase.
    UnregisteredPacketType,
}

} // verus!

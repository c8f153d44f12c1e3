use vstd::prelude::*;

verus! {

/// Why reading or writing packet data failed.
#[derive(Clone, Copy, Debug, PartialEq, Eq, Structural)]
pub enum PacketError {
    /// The data ended before the value did.
    Eof,
    /// A VarInt ran on past five bytes.
    VarIntTooBig,
    /// A string's length prefix named more bytes than there are.
    StringTruncated,
    /// A string's bytes are not UTF-8.
    InvalidUtf8,
    /// A username is longer than sixteen bytes.
    UsernameTooLong,
    /// An item stack has a count but no item.
    MissingItem,
    /// A number names no variant of the enum read.
    InvalidEnumValue,
    /// A compressed packet body does not inflate.
    Decompression,
    /// A packet body could not be compressed.
    Compression,
}

/// Whether a write's result is the outcome that a spec names: both succeed,
/// or both fail with the same error.
pub open spec fn same_outcome(r: Result<(), PacketError>, expected: Result<(), PacketError>) -> bool {
    &&& r is Ok <==> expected is Ok
    &&& r is Err ==> r == expected
}

} // verus!

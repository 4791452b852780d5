//! The error values that parsing can produce.

use vstd::prelude::*;

verus! {

/// Why a packet stream, or one packet of it, could not be decoded.
///
/// Framing problems (a bad header octet, input that ends inside a
/// header or a declared body) abort the whole stream.  A failure
/// inside one packet's body is recovered locally: the packet is
/// downgraded to `Unknown` and this value records the reason.
#[derive(Debug, Clone, Copy, PartialEq, Eq, Structural, Hash)]
pub enum Error {
    /// A packet version this crate does not implement.
    UnsupportedPacketVersion(u8),
    /// The packet's body violates its own layout.
    MalformedPacket,
    /// A caller handed an argument the operation cannot take.
    InvalidArgument,
    /// A multi-precision integer's length field overruns the body.
    MalformedMPI,
    /// The leading bits of a header octet are not a packet header.
    MalformedPacketHeader,
    /// The header's tag field is zero, which RFC 4880 reserves.
    UnknownPacketTag,
    /// The armor checksum line does not match the decoded bytes.
    BadChecksum,
    /// The input ended inside a header or a declared body.
    TruncatedInput,
    /// The armor framing itself is broken.
    MalformedArmor,
}

} // verus!

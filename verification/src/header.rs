//! Packet headers: the CTB octet and the three body-length encodings.
//!
//! RFC 4880 section 4.2 gives two framing disciplines.  An old-format
//! header carries a two-bit length type selecting a one-, two- or
//! four-octet length, or no length at all (the body then runs to the
//! end of the enclosing stream).  A new-format header carries a
//! self-describing length whose first octet selects one of four
//! encodings, among them the partial-body chunking used by streaming
//! writers.

use vstd::prelude::*;

use crate::error::Error;
use crate::reader::{be32, Reader};
use crate::tag::Tag;

verus! {

/// The size of a packet body.
///
/// Either the size is fully known (`Full`), or the body is chunked
/// using the partial-body encoding (`Partial`, new format only), or
/// the body extends to the end of the stream (`Indeterminate`, old
/// format only).
#[derive(Debug, PartialEq, Eq, Structural, Clone, Copy, Hash)]
pub enum BodyLength {
    /// The packet size is fully known.
    Full(u32),
    /// The number of bytes in the current chunk; further chunks
    /// follow, the last of which is a `Full` chunk.
    Partial(u32),
    /// The packet extends until the end of the stream.
    Indeterminate,
}

/// The length-type bits of an old-format CTB.
#[derive(Debug, PartialEq, Eq, Structural, Clone, Copy, Hash)]
pub enum PacketLengthType {
    /// The length is one octet.
    OneOctet,
    /// The length is two octets, big-endian.
    TwoOctets,
    /// The length is four octets, big-endian.
    FourOctets,
    /// No length octets follow; the body runs to the end of the
    /// stream.
    Indeterminate,
}

impl PacketLengthType {
    /// The length type selected by the low two bits of an old-format
    /// CTB.
    pub open spec fn spec_from_bits(b: u8) -> PacketLengthType {
        if b % 4 == 0 {
            PacketLengthType::OneOctet
        } else if b % 4 == 1 {
            PacketLengthType::TwoOctets
        } else if b % 4 == 2 {
            PacketLengthType::FourOctets
        } else {
            PacketLengthType::Indeterminate
        }
    }

    /// Reads the length type out of the low two bits of an octet.
    pub fn from_bits(b: u8) -> (r: PacketLengthType)
        ensures
            r == PacketLengthType::spec_from_bits(b),
    {
        match b % 4 {
            0u8 => PacketLengthType::OneOctet,
            1u8 => PacketLengthType::TwoOctets,
            2u8 => PacketLengthType::FourOctets,
            _ => PacketLengthType::Indeterminate,
        }
    }
}

/// The cipher-type byte of a packet header: the packet's tag, and the
/// framing discipline it was written with.
///
/// The format flag is never dropped: it decides whether partial-body
/// chunking is legal for the packet.
#[derive(Debug, PartialEq, Eq, Structural, Clone, Copy, Hash)]
pub enum CTB {
    /// An old-format CTB: a four-bit tag and a length type.
    Old { tag: Tag, length_type: PacketLengthType },
    /// A new-format CTB: a six-bit tag.
    New { tag: Tag },
}

impl CTB {
    /// The tag the CTB names.
    pub open spec fn spec_tag(self) -> Tag {
        match self {
            CTB::Old { tag, .. } => tag,
            CTB::New { tag } => tag,
        }
    }

    /// The tag the CTB names.
    pub fn tag(&self) -> (t: Tag)
        ensures
            t == self.spec_tag(),
    {
        match self {
            CTB::Old { tag, .. } => *tag,
            CTB::New { tag } => *tag,
        }
    }

    /// Whether the CTB was written in the old format.
    pub open spec fn spec_is_old(self) -> bool {
        self is Old
    }
}

/// A decoded packet header: the CTB and the body length.
#[derive(Debug, PartialEq, Eq, Structural, Clone, Copy, Hash)]
pub struct Header {
    /// The cipher-type byte.
    pub ctb: CTB,
    /// The length of the packet body.
    pub length: BodyLength,
}

/// What decoding a new-format body length from the front of `s`
/// yields: the length and the number of octets it occupied, or the
/// error.  RFC 4880 section 4.2.2.
pub open spec fn spec_new_format(s: Seq<u8>) -> Result<(BodyLength, int), Error> {
    if s.len() < 1 {
        Err(Error::TruncatedInput)
    } else {
        let o1 = s[0];
        if o1 < 192 {
            Ok((BodyLength::Full(o1 as u32), 1))
        } else if o1 < 224 {
            if s.len() < 2 {
                Err(Error::TruncatedInput)
            } else {
                Ok((BodyLength::Full(((o1 as u32 - 192) * 256 + s[1] as u32 + 192) as u32), 2))
            }
        } else if o1 < 255 {
            Ok((BodyLength::Partial(1u32 << ((o1 & 0x1F) as u32)), 1))
        } else if s.len() < 5 {
            Err(Error::TruncatedInput)
        } else {
            Ok((BodyLength::Full(be32(s[1], s[2], s[3], s[4])), 5))
        }
    }
}

/// What decoding an old-format body length from the front of `s`
/// yields, given the CTB's length type.  RFC 4880 section 4.2.1.
pub open spec fn spec_old_format(s: Seq<u8>, lt: PacketLengthType) -> Result<
    (BodyLength, int),
    Error,
> {
    match lt {
        PacketLengthType::OneOctet => if s.len() < 1 {
            Err(Error::TruncatedInput)
        } else {
            Ok((BodyLength::Full(s[0] as u32), 1))
        },
        PacketLengthType::TwoOctets => if s.len() < 2 {
            Err(Error::TruncatedInput)
        } else {
            Ok((BodyLength::Full((s[0] as u32 * 256 + s[1] as u32) as u32), 2))
        },
        PacketLengthType::FourOctets => if s.len() < 4 {
            Err(Error::TruncatedInput)
        } else {
            Ok((BodyLength::Full(be32(s[0], s[1], s[2], s[3])), 4))
        },
        PacketLengthType::Indeterminate => Ok((BodyLength::Indeterminate, 0)),
    }
}

impl BodyLength {
    /// Decodes a new-format body length from the reader.
    pub fn parse_new_format(bio: &mut Reader) -> (r: Result<BodyLength, Error>)
        requires
            old(bio).wf(),
        ensures
            final(bio).wf(),
            match spec_new_format(old(bio)@) {
                Ok((bl, n)) => r == Ok::<BodyLength, Error>(bl) && final(bio)@ == old(bio)@.skip(
                    n,
                ),
                Err(e) => r == Err::<BodyLength, Error>(e),
            },
    {
        let o1 = bio.read_u8()?;
        if o1 < 192 {
            Ok(BodyLength::Full(o1 as u32))
        } else if o1 < 224 {
            match bio.read_u8() {
                Ok(o2) => {
                    proof {
                        assert(old(bio)@.skip(1).skip(1) =~= old(bio)@.skip(2));
                    }
                    Ok(BodyLength::Full((o1 as u32 - 192) * 256 + o2 as u32 + 192))
                },
                Err(e) => Err(e),
            }
        } else if o1 < 255 {
            let k = (o1 & 0x1F) as u32;
            proof {
                assert(k < 32) by (bit_vector)
                    requires
                        k == (o1 & 0x1F) as u32,
                ;
            }
            Ok(BodyLength::Partial(1u32 << k))
        } else {
            match bio.read_be_u32() {
                Ok(v) => {
                    proof {
                        assert(old(bio)@.skip(1).skip(4) =~= old(bio)@.skip(5));
                        assert(old(bio)@.skip(1)[0] == old(bio)@[1]);
                        assert(old(bio)@.skip(1)[1] == old(bio)@[2]);
                        assert(old(bio)@.skip(1)[2] == old(bio)@[3]);
                        assert(old(bio)@.skip(1)[3] == old(bio)@[4]);
                    }
                    Ok(BodyLength::Full(v))
                },
                Err(e) => Err(e),
            }
        }
    }

    /// Decodes an old-format body length from the reader, given the
    /// CTB's length type.
    pub fn parse_old_format(bio: &mut Reader, length_type: PacketLengthType) -> (r: Result<
        BodyLength,
        Error,
    >)
        requires
            old(bio).wf(),
        ensures
            final(bio).wf(),
            match spec_old_format(old(bio)@, length_type) {
                Ok((bl, n)) => r == Ok::<BodyLength, Error>(bl) && final(bio)@ == old(bio)@.skip(
                    n,
                ),
                Err(e) => r == Err::<BodyLength, Error>(e),
            },
    {
        match length_type {
            PacketLengthType::OneOctet => {
                let b = bio.read_u8()?;
                Ok(BodyLength::Full(b as u32))
            },
            PacketLengthType::TwoOctets => {
                let v = bio.read_be_u16()?;
                Ok(BodyLength::Full(v as u32))
            },
            PacketLengthType::FourOctets => {
                let v = bio.read_be_u32()?;
                Ok(BodyLength::Full(v))
            },
            PacketLengthType::Indeterminate => {
                proof {
                    assert(old(bio)@.skip(0) =~= old(bio)@);
                }
                Ok(BodyLength::Indeterminate)
            },
        }
    }

    /// Whether the length can stand alone in a new-format header
    /// written for a whole packet: chunking and indeterminate lengths
    /// cannot.
    pub open spec fn spec_new_encodable(self) -> bool {
        self is Full
    }

    /// The octets of the shortest new-format encoding of a fully
    /// known length.
    pub open spec fn spec_encode_new(self) -> Seq<u8>
        recommends
            self.spec_new_encodable(),
    {
        let n = self->Full_0;
        if n < 192 {
            seq![n as u8]
        } else if n < 8384 {
            seq![
                (192 + (n as int - 192) / 256) as u8,
                ((n as int - 192) % 256) as u8,
            ]
        } else {
            seq![
                255u8,
                (n >> 24) as u8,
                ((n >> 16) & 0xFF) as u8,
                ((n >> 8) & 0xFF) as u8,
                (n & 0xFF) as u8,
            ]
        }
    }

    /// Encodes a fully known length in the new format; a `Partial` or
    /// `Indeterminate` length cannot stand for a whole packet there.
    pub fn encode_new(&self) -> (r: Result<Vec<u8>, Error>)
        ensures
            self.spec_new_encodable() ==> (r is Ok && r->Ok_0@ == self.spec_encode_new()),
            !self.spec_new_encodable() ==> r == Err::<Vec<u8>, Error>(Error::InvalidArgument),
    {
        match self {
            BodyLength::Full(n) => {
                let n = *n;
                let mut out: Vec<u8> = Vec::new();
                if n < 192 {
                    out.push(n as u8);
                    proof {
                        assert(out@ =~= self.spec_encode_new());
                    }
                } else if n < 8384 {
                    out.push(192 + ((n - 192) / 256) as u8);
                    out.push(((n - 192) % 256) as u8);
                    proof {
                        assert(out@ =~= self.spec_encode_new());
                    }
                } else {
                    out.push(255u8);
                    out.push((n >> 24) as u8);
                    out.push(((n >> 16) & 0xFF) as u8);
                    out.push(((n >> 8) & 0xFF) as u8);
                    out.push((n & 0xFF) as u8);
                    proof {
                        assert(out@ =~= self.spec_encode_new());
                    }
                }
                Ok(out)
            },
            _ => Err(Error::InvalidArgument),
        }
    }

    /// Decoding starts over where an encoding was laid down: reading
    /// a new-format body length from an encoded fully known length,
    /// followed by anything at all, yields that same length and stops
    /// right after it.
    pub proof fn lemma_new_format_roundtrip(self, rest: Seq<u8>)
        requires
            self.spec_new_encodable(),
        ensures
            spec_new_format(self.spec_encode_new() + rest) == Ok::<(BodyLength, int), Error>(
                (self, self.spec_encode_new().len() as int),
            ),
    {
        let n = self->Full_0;
        let enc = self.spec_encode_new();
        let s = enc + rest;
        if n < 192 {
            assert(s[0] == n as u8);
        } else if n < 8384 {
            let q = (n as int - 192) / 256;
            let r = (n as int - 192) % 256;
            assert(q * 256 + r == n as int - 192) by {
                vstd::arithmetic::div_mod::lemma_fundamental_div_mod(n as int - 192, 256);
            }
            assert(0 <= q < 32) by {
                assert(n as int - 192 < 8192);
                assert(q <= (n as int - 192) / 256);
            }
            assert(0 <= r < 256);
            assert(s[0] == (192 + q) as u8);
            assert(s[1] == r as u8);
            assert(s[0] as u32 >= 192 && s[0] < 224);
            assert((s[0] as u32 - 192) * 256 + s[1] as u32 + 192 == n);
        } else {
            assert(s[0] == 255u8);
            assert(s[1] == (n >> 24) as u8);
            assert(s[2] == ((n >> 16) & 0xFF) as u8);
            assert(s[3] == ((n >> 8) & 0xFF) as u8);
            assert(s[4] == (n & 0xFF) as u8);
            assert(((n >> 24) as u8) as u32 * 0x1000000 + (((n >> 16) & 0xFF) as u8) as u32
                * 0x10000 + (((n >> 8) & 0xFF) as u8) as u32 * 0x100 + ((n & 0xFF) as u8) as u32
                == n) by (bit_vector);
            assert(be32(s[1], s[2], s[3], s[4]) == n);
        }
    }
}

/// What decoding a whole header from the front of `s` yields: the
/// header and the number of octets it occupied, or the error.  A
/// leading octet whose high bit is clear is not a packet header at
/// all, and a tag field of zero is reserved.
pub open spec fn spec_header(s: Seq<u8>) -> Result<(Header, int), Error> {
    if s.len() < 1 {
        Err(Error::TruncatedInput)
    } else {
        let b = s[0];
        if b < 128 {
            Err(Error::MalformedPacketHeader)
        } else if b >= 192 {
            // New format: the low six bits are the tag.
            if b == 192 {
                Err(Error::UnknownPacketTag)
            } else {
                match spec_new_format(s.skip(1)) {
                    Ok((bl, n)) => Ok(
                        (
                            Header {
                                ctb: CTB::New { tag: Tag::spec_from_byte((b - 192) as u8) },
                                length: bl,
                            },
                            1 + n,
                        ),
                    ),
                    Err(e) => Err(e),
                }
            }
        } else {
            // Old format: bits 5..2 are the tag, bits 1..0 the length
            // type.
            let t = ((b / 4) % 16) as u8;
            if t == 0 {
                Err(Error::UnknownPacketTag)
            } else {
                match spec_old_format(s.skip(1), PacketLengthType::spec_from_bits(b)) {
                    Ok((bl, n)) => Ok(
                        (
                            Header {
                                ctb: CTB::Old {
                                    tag: Tag::spec_from_byte(t),
                                    length_type: PacketLengthType::spec_from_bits(b),
                                },
                                length: bl,
                            },
                            1 + n,
                        ),
                    ),
                    Err(e) => Err(e),
                }
            }
        }
    }
}

impl Header {
    /// Builds a header from its parts.
    pub fn new(ctb: CTB, length: BodyLength) -> (h: Header)
        ensures
            h.ctb == ctb,
            h.length == length,
    {
        Header { ctb, length }
    }

    /// The tag the header names.
    pub fn tag(&self) -> (t: Tag)
        ensures
            t == self.ctb.spec_tag(),
    {
        self.ctb.tag()
    }

    /// Decodes a header from the reader: the CTB octet, then the body
    /// length in the format the CTB selects.  On any error the reader
    /// stands where it stood.
    pub fn parse(bio: &mut Reader) -> (r: Result<Header, Error>)
        requires
            old(bio).wf(),
        ensures
            final(bio).wf(),
            match spec_header(old(bio)@) {
                Ok((h, n)) => r == Ok::<Header, Error>(h) && final(bio)@ == old(bio)@.skip(n),
                Err(e) => r == Err::<Header, Error>(e),
            },
    {
        let b = match bio.read_u8() {
            Ok(b) => b,
            Err(e) => {
                return Err(e);
            },
        };
        if b < 128 {
            return Err(Error::MalformedPacketHeader);
        }
        if b >= 192 {
            if b == 192 {
                return Err(Error::UnknownPacketTag);
            }
            let tag = Tag::from_byte(b - 192);
            match BodyLength::parse_new_format(bio) {
                Ok(bl) => {
                    proof {
                        assert(old(bio)@.skip(1).skip(
                            spec_new_format(old(bio)@.skip(1))->Ok_0.1,
                        ) =~= old(bio)@.skip(1 + spec_new_format(old(bio)@.skip(1))->Ok_0.1));
                    }
                    Ok(Header { ctb: CTB::New { tag }, length: bl })
                },
                Err(e) => Err(e),
            }
        } else {
            let t = (b / 4) % 16;
            if t == 0 {
                return Err(Error::UnknownPacketTag);
            }
            let tag = Tag::from_byte(t);
            let length_type = PacketLengthType::from_bits(b);
            match BodyLength::parse_old_format(bio, length_type) {
                Ok(bl) => {
                    proof {
                        assert(old(bio)@.skip(1).skip(
                            spec_old_format(
                                old(bio)@.skip(1),
                                PacketLengthType::spec_from_bits(b),
                            )->Ok_0.1,
                        ) =~= old(bio)@.skip(
                            1 + spec_old_format(
                                old(bio)@.skip(1),
                                PacketLengthType::spec_from_bits(b),
                            )->Ok_0.1,
                        ));
                    }
                    Ok(Header { ctb: CTB::Old { tag, length_type }, length: bl })
                },
                Err(e) => Err(e),
            }
        }
    }

    /// Whether the header is structurally plausible: the tag is an
    /// assigned packet kind.  Auto-detection of armoring relies on
    /// this: a stream whose first header fails here is handed to the
    /// armor reader instead.
    pub fn valid(&self) -> (r: Result<(), Error>)
        ensures
            r is Ok <==> self.ctb.spec_tag().spec_is_known(),
            r is Err ==> r->Err_0 == Error::UnknownPacketTag,
    {
        match self.ctb.tag() {
            Tag::Unknown(_) => Err(Error::UnknownPacketTag),
            _ => Ok(()),
        }
    }
}

impl Header {
    /// Whether the header can be written in the new format with a
    /// fully known length: the tag field fits its six bits and is
    /// not reserved.
    pub open spec fn spec_new_encodable(self) -> bool {
        &&& self.length.spec_new_encodable()
        &&& self.ctb.spec_tag().spec_to_byte() >= 1
        &&& self.ctb.spec_tag().spec_to_byte() <= 63
    }

    /// The octets of the header written in the new format: the CTB,
    /// then the shortest encoding of the length.
    pub open spec fn spec_encode_new(self) -> Seq<u8>
        recommends
            self.spec_new_encodable(),
    {
        seq![(192 + self.ctb.spec_tag().spec_to_byte()) as u8] + self.length.spec_encode_new()
    }

    /// Writes the header in the new format; a header whose length
    /// is chunked or indeterminate, or whose tag does not fit, has
    /// no such form.
    pub fn encode_new(&self) -> (r: Result<Vec<u8>, Error>)
        ensures
            self.spec_new_encodable() ==> (r is Ok && r->Ok_0@ == self.spec_encode_new()),
            !self.spec_new_encodable() ==> r == Err::<Vec<u8>, Error>(Error::InvalidArgument),
    {
        let t = self.ctb.tag().to_byte();
        if t < 1 || t > 63 {
            return Err(Error::InvalidArgument);
        }
        let mut out = match self.length.encode_new() {
            Ok(v) => v,
            Err(e) => {
                return Err(e);
            },
        };
        out.insert(0, 192 + t);
        proof {
            assert(out@ =~= self.spec_encode_new());
        }
        Ok(out)
    }

    /// Decoding starts over where an encoding was laid down: a
    /// header written in the new format, followed by anything at
    /// all, parses back to the same tag and length (the format flag
    /// reads as new, whatever it was before), and parsing stops
    /// right after the encoded octets.
    pub proof fn lemma_roundtrip(self, rest: Seq<u8>)
        requires
            self.spec_new_encodable(),
            Tag::spec_from_byte(self.ctb.spec_tag().spec_to_byte()) == self.ctb.spec_tag(),
        ensures
            spec_header(self.spec_encode_new() + rest) == Ok::<(Header, int), Error>(
                (
                    Header { ctb: CTB::New { tag: self.ctb.spec_tag() }, length: self.length },
                    self.spec_encode_new().len() as int,
                ),
            ),
    {
        let t = self.ctb.spec_tag().spec_to_byte();
        let enc = self.spec_encode_new();
        let s = enc + rest;
        assert(s[0] == (192 + t) as u8);
        assert(s[0] >= 193);
        self.length.lemma_new_format_roundtrip(rest);
        assert(s.skip(1) =~= self.length.spec_encode_new() + rest);
        assert(spec_new_format(s.skip(1)) == Ok::<(BodyLength, int), Error>(
            (self.length, self.length.spec_encode_new().len() as int),
        ));
    }
}

} // verus!

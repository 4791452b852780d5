//! Packet tags: the kind field of a packet header.

use vstd::prelude::*;

verus! {

/// The packet kind named by a header, RFC 4880 section 4.3.
///
/// Every tag value that the protocol assigns a meaning has a variant
/// of its own; every other value is carried verbatim in `Unknown`.
#[derive(Debug, Clone, Copy, PartialEq, Eq, Structural, Hash)]
pub enum Tag {
    /// Public-Key Encrypted Session Key packet.
    PKESK,
    /// Signature packet.
    Signature,
    /// Symmetric-Key Encrypted Session Key packet.
    SKESK,
    /// One-Pass Signature packet.
    OnePassSig,
    /// Secret-Key packet.
    SecretKey,
    /// Public-Key packet.
    PublicKey,
    /// Secret-Subkey packet.
    SecretSubkey,
    /// Compressed Data packet.
    CompressedData,
    /// Marker packet.
    Marker,
    /// Literal Data packet.
    Literal,
    /// Trust packet.
    Trust,
    /// User ID packet.
    UserID,
    /// Public-Subkey packet.
    PublicSubkey,
    /// User Attribute packet.
    UserAttribute,
    /// Symmetrically Encrypted Integrity Protected Data packet.
    SEIP,
    /// Modification Detection Code packet.
    MDC,
    /// AEAD Encrypted Data packet.
    AED,
    /// Any tag value the protocol leaves unassigned, kept verbatim.
    Unknown(u8),
}

impl Tag {
    /// The tag named by a numeric tag field value.
    pub open spec fn spec_from_byte(b: u8) -> Tag {
        match b {
            1u8 => Tag::PKESK,
            2u8 => Tag::Signature,
            3u8 => Tag::SKESK,
            4u8 => Tag::OnePassSig,
            5u8 => Tag::SecretKey,
            6u8 => Tag::PublicKey,
            7u8 => Tag::SecretSubkey,
            8u8 => Tag::CompressedData,
            10u8 => Tag::Marker,
            11u8 => Tag::Literal,
            12u8 => Tag::Trust,
            13u8 => Tag::UserID,
            14u8 => Tag::PublicSubkey,
            17u8 => Tag::UserAttribute,
            18u8 => Tag::SEIP,
            19u8 => Tag::MDC,
            20u8 => Tag::AED,
            _ => Tag::Unknown(b),
        }
    }

    /// The numeric tag field value that names this tag.
    pub open spec fn spec_to_byte(self) -> u8 {
        match self {
            Tag::PKESK => 1u8,
            Tag::Signature => 2u8,
            Tag::SKESK => 3u8,
            Tag::OnePassSig => 4u8,
            Tag::SecretKey => 5u8,
            Tag::PublicKey => 6u8,
            Tag::SecretSubkey => 7u8,
            Tag::CompressedData => 8u8,
            Tag::Marker => 10u8,
            Tag::Literal => 11u8,
            Tag::Trust => 12u8,
            Tag::UserID => 13u8,
            Tag::PublicSubkey => 14u8,
            Tag::UserAttribute => 17u8,
            Tag::SEIP => 18u8,
            Tag::MDC => 19u8,
            Tag::AED => 20u8,
            Tag::Unknown(b) => b,
        }
    }

    /// Decodes a numeric tag field value.
    pub fn from_byte(b: u8) -> (t: Tag)
        ensures
            t == Tag::spec_from_byte(b),
    {
        match b {
            1u8 => Tag::PKESK,
            2u8 => Tag::Signature,
            3u8 => Tag::SKESK,
            4u8 => Tag::OnePassSig,
            5u8 => Tag::SecretKey,
            6u8 => Tag::PublicKey,
            7u8 => Tag::SecretSubkey,
            8u8 => Tag::CompressedData,
            10u8 => Tag::Marker,
            11u8 => Tag::Literal,
            12u8 => Tag::Trust,
            13u8 => Tag::UserID,
            14u8 => Tag::PublicSubkey,
            17u8 => Tag::UserAttribute,
            18u8 => Tag::SEIP,
            19u8 => Tag::MDC,
            20u8 => Tag::AED,
            _ => Tag::Unknown(b),
        }
    }

    /// Encodes the tag as its numeric tag field value.
    pub fn to_byte(self) -> (b: u8)
        ensures
            b == self.spec_to_byte(),
    {
        match self {
            Tag::PKESK => 1u8,
            Tag::Signature => 2u8,
            Tag::SKESK => 3u8,
            Tag::OnePassSig => 4u8,
            Tag::SecretKey => 5u8,
            Tag::PublicKey => 6u8,
            Tag::SecretSubkey => 7u8,
            Tag::CompressedData => 8u8,
            Tag::Marker => 10u8,
            Tag::Literal => 11u8,
            Tag::Trust => 12u8,
            Tag::UserID => 13u8,
            Tag::PublicSubkey => 14u8,
            Tag::UserAttribute => 17u8,
            Tag::SEIP => 18u8,
            Tag::MDC => 19u8,
            Tag::AED => 20u8,
            Tag::Unknown(b) => b,
        }
    }

    /// Whether the tag names an assigned packet kind.
    pub open spec fn spec_is_known(self) -> bool {
        !(self is Unknown)
    }

    /// Whether packets of this kind are containers, that is, whether
    /// their body is itself a sequence of packets.
    pub open spec fn spec_is_container(self) -> bool {
        self == Tag::CompressedData || self == Tag::SEIP || self == Tag::AED
    }

    /// Whether packets of this kind are containers.
    pub fn is_container(self) -> (r: bool)
        ensures
            r == self.spec_is_container(),
    {
        match self {
            Tag::CompressedData | Tag::SEIP | Tag::AED => true,
            _ => false,
        }
    }

    /// Round trip: the tag decoded from any tag field value encodes
    /// back to exactly that value.
    pub proof fn lemma_byte_roundtrip(b: u8)
        ensures
            Tag::spec_from_byte(b).spec_to_byte() == b,
    {
    }
}

} // verus!

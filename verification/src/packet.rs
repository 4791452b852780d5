//! The packet object model: a tagged sum of typed packets, the
//! fields they share, and the container tree they form.
//!
//! RFC 4880 section 4 names the packet kinds.  Where the protocol
//! permits several versions of a kind, the kind is a sum over its
//! versions, so that a further version can be added without touching
//! the callers that match on the kind.

use vstd::prelude::*;

use crate::error::Error;
use crate::tag::Tag;

verus! {

/// Fields shared by every packet.
#[derive(Debug, PartialEq, Eq, Hash)]
pub struct Common {
    /// The packet's children, present only when the packet is a
    /// container whose content has been parsed into packets.
    pub children: Option<Container>,
    /// The packet's raw body: literal data, the undecoded content of
    /// a container that was not recursed into, or unread trailing
    /// bytes kept on request.  Never `Some` of an empty buffer.
    pub body: Option<Vec<u8>>,
}

/// Holds zero or more packets: the children of a container packet,
/// or the top level of a parsed stream.
#[derive(Debug, PartialEq, Eq, Hash)]
pub struct Container {
    /// The packets, in wire order.
    pub packets: Vec<Packet>,
}

/// An S2K (string-to-key) specifier, RFC 4880 section 3.7.
#[derive(Debug, PartialEq, Eq, Hash)]
pub enum S2K {
    /// Type 0: a bare hash of the passphrase.
    Simple {
        /// The hash algorithm.
        hash_algo: u8,
    },
    /// Type 1: a salted hash.
    Salted {
        /// The hash algorithm.
        hash_algo: u8,
        /// The eight salt octets.
        salt: Vec<u8>,
    },
    /// Type 3: an iterated and salted hash.
    Iterated {
        /// The hash algorithm.
        hash_algo: u8,
        /// The eight salt octets.
        salt: Vec<u8>,
        /// The coded iteration count octet.
        coded_count: u8,
    },
}

/// A packet this crate cannot decode, kept verbatim.
#[derive(Debug, PartialEq, Eq, Hash)]
pub struct Unknown {
    /// The shared fields; the undecoded body is kept in them.
    pub common: Common,
    /// The tag the header named.
    pub tag: Tag,
    /// Why the body could not be decoded.
    pub error: Error,
}

/// A version 4 signature packet, RFC 4880 section 5.2.
#[derive(Debug, PartialEq, Eq, Hash)]
pub struct Signature4 {
    /// The shared fields.
    pub common: Common,
    /// The signature type octet.
    pub sigtype: u8,
    /// The public-key algorithm.
    pub pk_algo: u8,
    /// The hash algorithm.
    pub hash_algo: u8,
    /// The hashed subpacket area, verbatim.
    pub hashed_area: Vec<u8>,
    /// The unhashed subpacket area, verbatim.
    pub unhashed_area: Vec<u8>,
    /// The two leading octets of the signed digest.
    pub digest_prefix: Vec<u8>,
    /// The algorithm-specific signature material: a run of MPIs,
    /// verbatim.
    pub mpis: Vec<u8>,
}

/// A version 3 one-pass-signature packet, RFC 4880 section 5.4.
#[derive(Debug, PartialEq, Eq, Hash)]
pub struct OnePassSig3 {
    /// The shared fields.
    pub common: Common,
    /// The signature type octet.
    pub sigtype: u8,
    /// The hash algorithm.
    pub hash_algo: u8,
    /// The public-key algorithm.
    pub pk_algo: u8,
    /// The eight key-ID octets of the signing key.
    pub issuer: Vec<u8>,
    /// Zero when another one-pass signature follows; non-zero on the
    /// last one.
    pub last: u8,
}

/// A version 4 key packet, RFC 4880 section 5.5: the material common
/// to public keys, subkeys and their secret counterparts.
#[derive(Debug, PartialEq, Eq, Hash)]
pub struct Key4 {
    /// The shared fields.
    pub common: Common,
    /// The creation time, seconds since the epoch.
    pub creation_time: u32,
    /// The public-key algorithm.
    pub pk_algo: u8,
    /// The algorithm-specific public material: a run of MPIs,
    /// verbatim.
    pub mpis: Vec<u8>,
    /// The secret-key material that follows in a secret-key packet,
    /// verbatim; `None` in a public-key packet.
    pub secret: Option<Vec<u8>>,
}

/// A marker packet, RFC 4880 section 5.8.
#[derive(Debug, PartialEq, Eq, Hash)]
pub struct Marker {
    /// The shared fields.
    pub common: Common,
}

/// A trust packet, RFC 4880 section 5.10.
#[derive(Debug, PartialEq, Eq, Hash)]
pub struct Trust {
    /// The shared fields.
    pub common: Common,
    /// The implementation-defined trust value, verbatim.
    pub value: Vec<u8>,
}

/// A user-ID packet, RFC 4880 section 5.11.
#[derive(Debug, PartialEq, Eq, Hash)]
pub struct UserID {
    /// The shared fields.
    pub common: Common,
    /// The user ID, verbatim.
    pub value: Vec<u8>,
}

/// A user-attribute packet, RFC 4880 section 5.12.
#[derive(Debug, PartialEq, Eq, Hash)]
pub struct UserAttribute {
    /// The shared fields.
    pub common: Common,
    /// The attribute subpackets, verbatim.
    pub value: Vec<u8>,
}

/// A literal-data packet, RFC 4880 section 5.9.  The data itself is
/// kept in the shared `body` field.
#[derive(Debug, PartialEq, Eq, Hash)]
pub struct Literal {
    /// The shared fields; the literal data is their body.
    pub common: Common,
    /// The format octet: `b`, `t` or `u`.
    pub format: u8,
    /// The file name, up to 255 octets.
    pub filename: Vec<u8>,
    /// The date octets, seconds since the epoch.
    pub date: u32,
}

/// A compressed-data packet, RFC 4880 section 5.6.  A container: its
/// content is itself a packet stream.
#[derive(Debug, PartialEq, Eq, Hash)]
pub struct CompressedData {
    /// The shared fields; the children live in them.
    pub common: Common,
    /// The compression algorithm octet; zero means uncompressed.
    pub algo: u8,
}

/// A version 3 public-key-encrypted-session-key packet, RFC 4880
/// section 5.1.
#[derive(Debug, PartialEq, Eq, Hash)]
pub struct PKESK3 {
    /// The shared fields.
    pub common: Common,
    /// The eight key-ID octets of the recipient key.
    pub recipient: Vec<u8>,
    /// The public-key algorithm.
    pub pk_algo: u8,
    /// The algorithm-specific encrypted session key: a run of MPIs,
    /// verbatim.
    pub esk: Vec<u8>,
}

/// A version 4 symmetric-key-encrypted-session-key packet, RFC 4880
/// section 5.3.
#[derive(Debug, PartialEq, Eq, Hash)]
pub struct SKESK4 {
    /// The shared fields.
    pub common: Common,
    /// The symmetric algorithm.
    pub sym_algo: u8,
    /// The string-to-key specifier.
    pub s2k: S2K,
    /// The encrypted session key, possibly empty.
    pub esk: Vec<u8>,
}

/// A version 5 symmetric-key-encrypted-session-key packet, carrying
/// an AEAD-encrypted session key.
#[derive(Debug, PartialEq, Eq, Hash)]
pub struct SKESK5 {
    /// The version 4 fields the version 5 packet builds on.
    pub skesk4: SKESK4,
    /// The AEAD algorithm.
    pub aead_algo: u8,
    /// The AEAD initialization vector.
    pub aead_iv: Vec<u8>,
}

/// A version 1 symmetrically-encrypted-integrity-protected-data
/// packet, RFC 4880 section 5.13.  A container whose content stays
/// opaque until it is decrypted.
#[derive(Debug, PartialEq, Eq, Hash)]
pub struct SEIP1 {
    /// The shared fields; the ciphertext is their body.
    pub common: Common,
}

/// A modification-detection-code packet, RFC 4880 section 5.14.
#[derive(Debug, PartialEq, Eq, Hash)]
pub struct MDC {
    /// The shared fields.
    pub common: Common,
    /// The twenty digest octets.
    pub hash: Vec<u8>,
}

/// A version 1 AEAD-encrypted-data packet.  A container whose
/// content stays opaque until it is decrypted.
#[derive(Debug, PartialEq, Eq, Hash)]
pub struct AED1 {
    /// The shared fields; the ciphertext is their body.
    pub common: Common,
    /// The symmetric algorithm.
    pub sym_algo: u8,
    /// The AEAD algorithm.
    pub aead_algo: u8,
    /// The coded chunk-size octet.
    pub chunk_size: u8,
    /// The initialization vector.
    pub iv: Vec<u8>,
}

/// A signature packet: a sum over the versions the protocol permits.
#[derive(Debug, PartialEq, Eq, Hash)]
pub enum Signature {
    /// Signature packet version 4.
    V4(Signature4),
}

/// A one-pass-signature packet.
#[derive(Debug, PartialEq, Eq, Hash)]
pub enum OnePassSig {
    /// One-pass-signature packet version 3.
    V3(OnePassSig3),
}

/// A public-key-encrypted-session-key packet.
#[derive(Debug, PartialEq, Eq, Hash)]
pub enum PKESK {
    /// PKESK packet version 3.
    V3(PKESK3),
}

/// A symmetric-key-encrypted-session-key packet.
#[derive(Debug, PartialEq, Eq, Hash)]
pub enum SKESK {
    /// SKESK packet version 4.
    V4(SKESK4),
    /// SKESK packet version 5.
    V5(SKESK5),
}

/// A key packet: public key, public subkey, secret key or secret
/// subkey; the surrounding `Packet` variant records which.
#[derive(Debug, PartialEq, Eq, Hash)]
pub enum Key {
    /// Key packet version 4.
    V4(Key4),
}

/// A symmetrically-encrypted-integrity-protected-data packet.
#[derive(Debug, PartialEq, Eq, Hash)]
pub enum SEIP {
    /// SEIP packet version 1.
    V1(SEIP1),
}

/// An AEAD-encrypted-data packet.
#[derive(Debug, PartialEq, Eq, Hash)]
pub enum AED {
    /// AED packet version 1.
    V1(AED1),
}

/// A packet: the tagged sum over every packet kind.
#[derive(Debug, PartialEq, Eq, Hash)]
pub enum Packet {
    /// A packet that could not be decoded.
    Unknown(Unknown),
    /// A signature packet.
    Signature(Signature),
    /// A one-pass-signature packet.
    OnePassSig(OnePassSig),
    /// A public-key packet.
    PublicKey(Key),
    /// A public-subkey packet.
    PublicSubkey(Key),
    /// A secret-key packet.
    SecretKey(Key),
    /// A secret-subkey packet.
    SecretSubkey(Key),
    /// A marker packet.
    Marker(Marker),
    /// A trust packet.
    Trust(Trust),
    /// A user-ID packet.
    UserID(UserID),
    /// A user-attribute packet.
    UserAttribute(UserAttribute),
    /// A literal-data packet.
    Literal(Literal),
    /// A compressed-data packet.
    CompressedData(CompressedData),
    /// A public-key-encrypted-session-key packet.
    PKESK(PKESK),
    /// A symmetric-key-encrypted-session-key packet.
    SKESK(SKESK),
    /// A symmetrically-encrypted-integrity-protected-data packet.
    SEIP(SEIP),
    /// A modification-detection-code packet.
    MDC(MDC),
    /// An AEAD-encrypted-data packet.
    AED(AED),
}

impl Common {
    /// The shared fields of a packet that has neither children nor a
    /// body.
    pub fn empty() -> (c: Common)
        ensures
            c.children is None,
            c.body is None,
    {
        Common { children: None, body: None }
    }

    /// Retrieves the packet's body, if one is stored.
    pub fn body(&self) -> (r: Option<&[u8]>)
        ensures
            r is Some <==> self.body is Some,
            r is Some ==> r->0@ == self.body->0@,
    {
        match &self.body {
            Some(b) => Some(b.as_slice()),
            None => None,
        }
    }

    /// Sets the packet's body and clears its children; an empty
    /// buffer is normalized to no body at all.  Returns the body
    /// that was stored before, or an empty buffer if none was.
    pub fn set_body(&mut self, data: Vec<u8>) -> (r: Vec<u8>)
        ensures
            *final(self) == (Common {
                children: None::<Container>,
                body: if data@.len() == 0 {
                    None::<Vec<u8>>
                } else {
                    Some(data)
                },
            }),
            match old(self).body {
                Some(b) => r == b,
                None => r@.len() == 0,
            },
    {
        self.children = None;
        let previous = self.body.take();
        if data.len() > 0 {
            self.body = Some(data);
        }
        match previous {
            Some(b) => b,
            None => Vec::new(),
        }
    }
}

impl Common {
    /// Sets the packet's children; giving a packet actual children
    /// clears any buffered body, so that exactly one of the two is
    /// populated for a container.
    pub fn set_children(&mut self, children: Container)
        ensures
            *final(self) == (Common {
                children: Some(children),
                body: if children.packets@.len() > 0 {
                    None::<Vec<u8>>
                } else {
                    old(self).body
                },
            }),
    {
        if children.packets.len() > 0 {
            self.body = None;
        }
        self.children = Some(children);
    }
}

impl Default for Common {
    /// The shared fields start with no children and no body.
    fn default() -> (c: Common)
        ensures
            c.children is None,
            c.body is None,
    {
        Common { children: None, body: None }
    }
}

impl Container {
    /// An empty container.
    pub fn new() -> (c: Container)
        ensures
            c.packets@.len() == 0,
    {
        Container { packets: Vec::new() }
    }

    /// Adds a packet at the end of the container.
    pub fn push(&mut self, packet: Packet)
        ensures
            final(self).packets@ == old(self).packets@.push(packet),
    {
        self.packets.push(packet);
    }

    /// Inserts a packet before position `i`, shifting what follows.
    pub fn insert(&mut self, i: usize, packet: Packet)
        requires
            i <= old(self).packets@.len(),
        ensures
            final(self).packets@ == old(self).packets@.insert(i as int, packet),
    {
        self.packets.insert(i, packet);
    }

    /// The container's immediate children, in wire order.
    pub fn children(&self) -> (r: &Vec<Packet>)
        ensures
            r == &self.packets,
    {
        &self.packets
    }

    /// Takes the container apart into its immediate children.
    pub fn into_children(self) -> (r: Vec<Packet>)
        ensures
            r == self.packets,
    {
        self.packets
    }
}

impl Signature {
    /// Gets the version.
    pub fn version(&self) -> (v: u8)
        ensures
            v == 4,
    {
        match self {
            Signature::V4(_) => 4,
        }
    }
}

impl OnePassSig {
    /// Gets the version.
    pub fn version(&self) -> (v: u8)
        ensures
            v == 3,
    {
        match self {
            OnePassSig::V3(_) => 3,
        }
    }
}

impl PKESK {
    /// Gets the version.
    pub fn version(&self) -> (v: u8)
        ensures
            v == 3,
    {
        match self {
            PKESK::V3(_) => 3,
        }
    }
}

impl SKESK {
    /// Gets the version.
    pub fn version(&self) -> (v: u8)
        ensures
            self is V4 ==> v == 4,
            self is V5 ==> v == 5,
    {
        match self {
            SKESK::V4(_) => 4,
            SKESK::V5(_) => 5,
        }
    }
}

impl Key {
    /// Gets the version.
    pub fn version(&self) -> (v: u8)
        ensures
            v == 4,
    {
        match self {
            Key::V4(_) => 4,
        }
    }

    /// Compares the public bits of two keys: the result is `Equal`
    /// exactly when version, creation time, algorithm and public
    /// MPIs all match, and otherwise the keys are ordered by
    /// creation time, then algorithm, then the MPI octets; neither
    /// the packet's tag nor any secret material is consulted.
    pub fn public_cmp(a: &Self, b: &Self) -> (r: core::cmp::Ordering)
        ensures
            r == core::cmp::Ordering::Equal <==> Key::spec_public_eq(*a, *b),
            r == core::cmp::Ordering::Less <==> Key::spec_public_lt(*a, *b),
            r == core::cmp::Ordering::Greater <==> Key::spec_public_lt(*b, *a),
    {
        match (a, b) {
            (Key::V4(a), Key::V4(b)) => {
                if a.creation_time < b.creation_time {
                    return core::cmp::Ordering::Less;
                }
                if a.creation_time > b.creation_time {
                    return core::cmp::Ordering::Greater;
                }
                if a.pk_algo < b.pk_algo {
                    return core::cmp::Ordering::Less;
                }
                if a.pk_algo > b.pk_algo {
                    return core::cmp::Ordering::Greater;
                }
                lex_cmp_bytes(&a.mpis, &b.mpis)
            },
        }
    }

    /// Whether two keys agree on their public parts.
    pub open spec fn spec_public_eq(a: Key, b: Key) -> bool {
        match (a, b) {
            (Key::V4(a), Key::V4(b)) => a.creation_time == b.creation_time && a.pk_algo
                == b.pk_algo && a.mpis@ == b.mpis@,
        }
    }

    /// Whether `a`'s public parts come strictly before `b`'s:
    /// creation time first, then algorithm, then the MPI octets in
    /// lexicographic order.
    pub open spec fn spec_public_lt(a: Key, b: Key) -> bool {
        match (a, b) {
            (Key::V4(a), Key::V4(b)) => a.creation_time < b.creation_time || (a.creation_time
                == b.creation_time && (a.pk_algo < b.pk_algo || (a.pk_algo == b.pk_algo
                && spec_bytes_less(a.mpis@, b.mpis@)))),
        }
    }
}

impl Key {
    /// Wraps the key material in the packet variant the tag names:
    /// one of the four key packet kinds; any other tag is refused.
    pub fn into_packet(self, tag: Tag) -> (r: Result<Packet, Error>)
        ensures
            tag == Tag::PublicKey ==> r == Ok::<Packet, Error>(Packet::PublicKey(self)),
            tag == Tag::PublicSubkey ==> r == Ok::<Packet, Error>(Packet::PublicSubkey(self)),
            tag == Tag::SecretKey ==> r == Ok::<Packet, Error>(Packet::SecretKey(self)),
            tag == Tag::SecretSubkey ==> r == Ok::<Packet, Error>(Packet::SecretSubkey(self)),
            !(tag == Tag::PublicKey || tag == Tag::PublicSubkey || tag == Tag::SecretKey || tag
                == Tag::SecretSubkey) ==> r == Err::<Packet, Error>(Error::InvalidArgument),
    {
        match tag {
            Tag::PublicKey => Ok(Packet::PublicKey(self)),
            Tag::PublicSubkey => Ok(Packet::PublicSubkey(self)),
            Tag::SecretKey => Ok(Packet::SecretKey(self)),
            Tag::SecretSubkey => Ok(Packet::SecretSubkey(self)),
            _ => Err(Error::InvalidArgument),
        }
    }
}

impl SEIP {
    /// Gets the version.
    pub fn version(&self) -> (v: u8)
        ensures
            v == 1,
    {
        match self {
            SEIP::V1(_) => 1,
        }
    }
}

impl AED {
    /// Gets the version.
    pub fn version(&self) -> (v: u8)
        ensures
            v == 1,
    {
        match self {
            AED::V1(_) => 1,
        }
    }
}

/// Whether `a` comes strictly before `b` in lexicographic byte
/// order, shorter prefixes first.
pub open spec fn spec_bytes_less(a: Seq<u8>, b: Seq<u8>) -> bool
    decreases a.len(),
{
    if a.len() == 0 {
        b.len() > 0
    } else if b.len() == 0 {
        false
    } else if a[0] < b[0] {
        true
    } else if a[0] > b[0] {
        false
    } else {
        spec_bytes_less(a.drop_first(), b.drop_first())
    }
}

/// Byte strings agreeing up to a position where the second is
/// larger are ordered.
proof fn lemma_bytes_diff_less(a: Seq<u8>, b: Seq<u8>, i: int)
    requires
        0 <= i < a.len(),
        i < b.len(),
        forall|j: int| 0 <= j < i ==> a[j] == b[j],
        a[i] < b[i],
    ensures
        spec_bytes_less(a, b),
    decreases i,
{
    if i > 0 {
        lemma_bytes_diff_less(a.drop_first(), b.drop_first(), i - 1);
    }
}

/// A proper prefix comes before every byte string that extends it.
proof fn lemma_bytes_prefix_less(a: Seq<u8>, b: Seq<u8>)
    requires
        b.len() > a.len(),
        b.take(a.len() as int) == a,
    ensures
        spec_bytes_less(a, b),
    decreases a.len(),
{
    if a.len() > 0 {
        assert(a[0] == b.take(a.len() as int)[0]);
        assert(b.drop_first().take(a.len() - 1) =~= b.take(a.len() as int).drop_first());
        lemma_bytes_prefix_less(a.drop_first(), b.drop_first());
    }
}

/// The byte order never holds both ways round.
proof fn lemma_bytes_not_both(a: Seq<u8>, b: Seq<u8>)
    ensures
        !(spec_bytes_less(a, b) && spec_bytes_less(b, a)),
    decreases a.len(),
{
    if a.len() > 0 && b.len() > 0 && a[0] == b[0] {
        lemma_bytes_not_both(a.drop_first(), b.drop_first());
    }
}

/// No byte string comes before itself.
proof fn lemma_bytes_irreflexive(a: Seq<u8>)
    ensures
        !spec_bytes_less(a, a),
    decreases a.len(),
{
    if a.len() > 0 {
        lemma_bytes_irreflexive(a.drop_first());
    }
}

/// Compares two byte strings lexicographically, shorter prefixes
/// first.
pub fn lex_cmp_bytes(a: &Vec<u8>, b: &Vec<u8>) -> (r: core::cmp::Ordering)
    ensures
        r == core::cmp::Ordering::Equal <==> a@ == b@,
        r == core::cmp::Ordering::Less <==> spec_bytes_less(a@, b@),
        r == core::cmp::Ordering::Greater <==> spec_bytes_less(b@, a@),
{
    let n = if a.len() <= b.len() {
        a.len()
    } else {
        b.len()
    };
    let mut i: usize = 0;
    while i < n
        invariant
            n == if a@.len() <= b@.len() {
                a@.len()
            } else {
                b@.len()
            },
            i <= n,
            forall|j: int| 0 <= j < i ==> a@[j] == b@[j],
        decreases n - i,
    {
        if a[i] < b[i] {
            proof {
                lemma_bytes_diff_less(a@, b@, i as int);
                lemma_bytes_not_both(a@, b@);
            }
            return core::cmp::Ordering::Less;
        }
        if a[i] > b[i] {
            proof {
                assert(a@ != b@);
                lemma_bytes_diff_less(b@, a@, i as int);
                lemma_bytes_not_both(a@, b@);
            }
            return core::cmp::Ordering::Greater;
        }
        i = i + 1;
    }
    if a.len() < b.len() {
        proof {
            assert(a@ != b@);
            assert(b@.take(a@.len() as int) =~= a@);
            lemma_bytes_prefix_less(a@, b@);
            lemma_bytes_not_both(a@, b@);
        }
        return core::cmp::Ordering::Less;
    }
    if a.len() > b.len() {
        proof {
            assert(a@ != b@);
            assert(a@.take(b@.len() as int) =~= b@);
            lemma_bytes_prefix_less(b@, a@);
            lemma_bytes_not_both(a@, b@);
        }
        return core::cmp::Ordering::Greater;
    }
    proof {
        assert(a@ =~= b@);
        lemma_bytes_irreflexive(a@);
    }
    core::cmp::Ordering::Equal
}

impl Packet {
    /// The shared fields, picked out of whichever variant the packet
    /// is.
    pub open spec fn spec_common(self) -> Common {
        match self {
            Packet::Unknown(p) => p.common,
            Packet::Signature(Signature::V4(p)) => p.common,
            Packet::OnePassSig(OnePassSig::V3(p)) => p.common,
            Packet::PublicKey(Key::V4(p)) => p.common,
            Packet::PublicSubkey(Key::V4(p)) => p.common,
            Packet::SecretKey(Key::V4(p)) => p.common,
            Packet::SecretSubkey(Key::V4(p)) => p.common,
            Packet::Marker(p) => p.common,
            Packet::Trust(p) => p.common,
            Packet::UserID(p) => p.common,
            Packet::UserAttribute(p) => p.common,
            Packet::Literal(p) => p.common,
            Packet::CompressedData(p) => p.common,
            Packet::PKESK(PKESK::V3(p)) => p.common,
            Packet::SKESK(SKESK::V4(p)) => p.common,
            Packet::SKESK(SKESK::V5(p)) => p.skesk4.common,
            Packet::SEIP(SEIP::V1(p)) => p.common,
            Packet::MDC(p) => p.common,
            Packet::AED(AED::V1(p)) => p.common,
        }
    }

    /// The shared fields of the packet.
    pub fn common(&self) -> (c: &Common)
        ensures
            *c == self.spec_common(),
    {
        match self {
            Packet::Unknown(p) => &p.common,
            Packet::Signature(Signature::V4(p)) => &p.common,
            Packet::OnePassSig(OnePassSig::V3(p)) => &p.common,
            Packet::PublicKey(Key::V4(p)) => &p.common,
            Packet::PublicSubkey(Key::V4(p)) => &p.common,
            Packet::SecretKey(Key::V4(p)) => &p.common,
            Packet::SecretSubkey(Key::V4(p)) => &p.common,
            Packet::Marker(p) => &p.common,
            Packet::Trust(p) => &p.common,
            Packet::UserID(p) => &p.common,
            Packet::UserAttribute(p) => &p.common,
            Packet::Literal(p) => &p.common,
            Packet::CompressedData(p) => &p.common,
            Packet::PKESK(PKESK::V3(p)) => &p.common,
            Packet::SKESK(SKESK::V4(p)) => &p.common,
            Packet::SKESK(SKESK::V5(p)) => &p.skesk4.common,
            Packet::SEIP(SEIP::V1(p)) => &p.common,
            Packet::MDC(p) => &p.common,
            Packet::AED(AED::V1(p)) => &p.common,
        }
    }

    /// The tag of the packet's kind.
    pub open spec fn spec_tag(self) -> Tag {
        match self {
            Packet::Unknown(p) => p.tag,
            Packet::Signature(_) => Tag::Signature,
            Packet::OnePassSig(_) => Tag::OnePassSig,
            Packet::PublicKey(_) => Tag::PublicKey,
            Packet::PublicSubkey(_) => Tag::PublicSubkey,
            Packet::SecretKey(_) => Tag::SecretKey,
            Packet::SecretSubkey(_) => Tag::SecretSubkey,
            Packet::Marker(_) => Tag::Marker,
            Packet::Trust(_) => Tag::Trust,
            Packet::UserID(_) => Tag::UserID,
            Packet::UserAttribute(_) => Tag::UserAttribute,
            Packet::Literal(_) => Tag::Literal,
            Packet::CompressedData(_) => Tag::CompressedData,
            Packet::PKESK(_) => Tag::PKESK,
            Packet::SKESK(_) => Tag::SKESK,
            Packet::SEIP(_) => Tag::SEIP,
            Packet::MDC(_) => Tag::MDC,
            Packet::AED(_) => Tag::AED,
        }
    }

    /// The tag of the packet's kind.
    pub fn tag(&self) -> (t: Tag)
        ensures
            t == self.spec_tag(),
    {
        match self {
            Packet::Unknown(p) => p.tag,
            Packet::Signature(_) => Tag::Signature,
            Packet::OnePassSig(_) => Tag::OnePassSig,
            Packet::PublicKey(_) => Tag::PublicKey,
            Packet::PublicSubkey(_) => Tag::PublicSubkey,
            Packet::SecretKey(_) => Tag::SecretKey,
            Packet::SecretSubkey(_) => Tag::SecretSubkey,
            Packet::Marker(_) => Tag::Marker,
            Packet::Trust(_) => Tag::Trust,
            Packet::UserID(_) => Tag::UserID,
            Packet::UserAttribute(_) => Tag::UserAttribute,
            Packet::Literal(_) => Tag::Literal,
            Packet::CompressedData(_) => Tag::CompressedData,
            Packet::PKESK(_) => Tag::PKESK,
            Packet::SKESK(_) => Tag::SKESK,
            Packet::SEIP(_) => Tag::SEIP,
            Packet::MDC(_) => Tag::MDC,
            Packet::AED(_) => Tag::AED,
        }
    }

    /// Replacing the shared fields never changes the packet's kind.
    pub proof fn lemma_with_common_tag(self, c: Common)
        ensures
            self.with_common(c).spec_tag() == self.spec_tag(),
    {
    }

    /// The packet's immediate children: the packets of its container
    /// if it has one, the empty sequence otherwise.
    pub open spec fn spec_children(self) -> Seq<Packet> {
        match self.spec_common().children {
            Some(c) => c.packets@,
            None => Seq::empty(),
        }
    }

    /// The same packet with its shared fields replaced.
    pub open spec fn with_common(self, c: Common) -> Packet {
        match self {
            Packet::Unknown(p) => Packet::Unknown(
                Unknown { common: c, ..p },
            ),
            Packet::Signature(Signature::V4(p)) => Packet::Signature(
                Signature::V4(Signature4 { common: c, ..p }),
            ),
            Packet::OnePassSig(OnePassSig::V3(p)) => Packet::OnePassSig(
                OnePassSig::V3(OnePassSig3 { common: c, ..p }),
            ),
            Packet::PublicKey(Key::V4(p)) => Packet::PublicKey(
                Key::V4(Key4 { common: c, ..p }),
            ),
            Packet::PublicSubkey(Key::V4(p)) => Packet::PublicSubkey(
                Key::V4(Key4 { common: c, ..p }),
            ),
            Packet::SecretKey(Key::V4(p)) => Packet::SecretKey(
                Key::V4(Key4 { common: c, ..p }),
            ),
            Packet::SecretSubkey(Key::V4(p)) => Packet::SecretSubkey(
                Key::V4(Key4 { common: c, ..p }),
            ),
            Packet::Marker(p) => Packet::Marker(
                Marker { common: c },
            ),
            Packet::Trust(p) => Packet::Trust(
                Trust { common: c, ..p },
            ),
            Packet::UserID(p) => Packet::UserID(
                UserID { common: c, ..p },
            ),
            Packet::UserAttribute(p) => Packet::UserAttribute(
                UserAttribute { common: c, ..p },
            ),
            Packet::Literal(p) => Packet::Literal(
                Literal { common: c, ..p },
            ),
            Packet::CompressedData(p) => Packet::CompressedData(
                CompressedData { common: c, ..p },
            ),
            Packet::PKESK(PKESK::V3(p)) => Packet::PKESK(
                PKESK::V3(PKESK3 { common: c, ..p }),
            ),
            Packet::SKESK(SKESK::V4(p)) => Packet::SKESK(
                SKESK::V4(SKESK4 { common: c, ..p }),
            ),
            Packet::SKESK(SKESK::V5(p)) => Packet::SKESK(
                SKESK::V5(
                    SKESK5 {
                        skesk4: SKESK4 { common: c, ..p.skesk4 },
                        ..p
                    },
                ),
            ),
            Packet::SEIP(SEIP::V1(p)) => Packet::SEIP(
                SEIP::V1(SEIP1 { common: c }),
            ),
            Packet::MDC(p) => Packet::MDC(MDC { common: c, ..p }),
            Packet::AED(AED::V1(p)) => Packet::AED(
                AED::V1(AED1 { common: c, ..p }),
            ),
        }
    }

    /// Puts a container into the packet; actual children displace
    /// any buffered body.  Only a container kind may hold children.
    pub fn set_children(&mut self, children: Container)
        requires
            old(self).spec_tag().spec_is_container(),
        ensures
            *final(self) == old(self).with_common(
                Common {
                    children: Some(children),
                    body: if children.packets@.len() > 0 {
                        None::<Vec<u8>>
                    } else {
                        old(self).spec_common().body
                    },
                },
            ),
    {
        match self {
            Packet::Unknown(p) => p.common.set_children(children),
            Packet::Signature(Signature::V4(p)) => p.common.set_children(children),
            Packet::OnePassSig(OnePassSig::V3(p)) => p.common.set_children(children),
            Packet::PublicKey(Key::V4(p)) => p.common.set_children(children),
            Packet::PublicSubkey(Key::V4(p)) => p.common.set_children(children),
            Packet::SecretKey(Key::V4(p)) => p.common.set_children(children),
            Packet::SecretSubkey(Key::V4(p)) => p.common.set_children(children),
            Packet::Marker(p) => p.common.set_children(children),
            Packet::Trust(p) => p.common.set_children(children),
            Packet::UserID(p) => p.common.set_children(children),
            Packet::UserAttribute(p) => p.common.set_children(children),
            Packet::Literal(p) => p.common.set_children(children),
            Packet::CompressedData(p) => p.common.set_children(children),
            Packet::PKESK(PKESK::V3(p)) => p.common.set_children(children),
            Packet::SKESK(SKESK::V4(p)) => p.common.set_children(children),
            Packet::SKESK(SKESK::V5(p)) => p.skesk4.common.set_children(children),
            Packet::SEIP(SEIP::V1(p)) => p.common.set_children(children),
            Packet::MDC(p) => p.common.set_children(children),
            Packet::AED(AED::V1(p)) => p.common.set_children(children),
        }
    }

    /// Sets the packet's body and clears its children, normalizing
    /// an empty buffer to no body; returns the body stored before.
    pub fn set_body(&mut self, data: Vec<u8>) -> (r: Vec<u8>)
        ensures
            *final(self) == old(self).with_common(
                Common {
                    children: None::<Container>,
                    body: if data@.len() == 0 {
                        None::<Vec<u8>>
                    } else {
                        Some(data)
                    },
                },
            ),
            match old(self).spec_common().body {
                Some(b) => r == b,
                None => r@.len() == 0,
            },
    {
        match self {
            Packet::Unknown(p) => p.common.set_body(data),
            Packet::Signature(Signature::V4(p)) => p.common.set_body(data),
            Packet::OnePassSig(OnePassSig::V3(p)) => p.common.set_body(data),
            Packet::PublicKey(Key::V4(p)) => p.common.set_body(data),
            Packet::PublicSubkey(Key::V4(p)) => p.common.set_body(data),
            Packet::SecretKey(Key::V4(p)) => p.common.set_body(data),
            Packet::SecretSubkey(Key::V4(p)) => p.common.set_body(data),
            Packet::Marker(p) => p.common.set_body(data),
            Packet::Trust(p) => p.common.set_body(data),
            Packet::UserID(p) => p.common.set_body(data),
            Packet::UserAttribute(p) => p.common.set_body(data),
            Packet::Literal(p) => p.common.set_body(data),
            Packet::CompressedData(p) => p.common.set_body(data),
            Packet::PKESK(PKESK::V3(p)) => p.common.set_body(data),
            Packet::SKESK(SKESK::V4(p)) => p.common.set_body(data),
            Packet::SKESK(SKESK::V5(p)) => p.skesk4.common.set_body(data),
            Packet::SEIP(SEIP::V1(p)) => p.common.set_body(data),
            Packet::MDC(p) => p.common.set_body(data),
            Packet::AED(AED::V1(p)) => p.common.set_body(data),
        }
    }
}

/// The packets below a forest in depth-first pre-order, starting at
/// child `i`, each with its index path extended from `prefix`.
pub open spec fn spec_dfs_paths(ps: Seq<Packet>, prefix: Seq<usize>, i: nat) -> Seq<
    (Seq<usize>, Packet),
>
    decreases ps, ps.len() - i,
    when i <= ps.len()
    via spec_dfs_paths_dec
{
    if i >= ps.len() || i >= usize::MAX as nat {
        // An index the machine cannot reach ends the walk; a forest
        // backed by real vectors never gets here.
        Seq::empty()
    } else {
        seq![(prefix.push(i as usize), ps[i as int])] + spec_dfs_paths(
            ps[i as int].spec_children(),
            prefix.push(i as usize),
            0,
        ) + spec_dfs_paths(ps, prefix, i + 1)
    }
}

#[via_fn]
proof fn spec_dfs_paths_dec(ps: Seq<Packet>, prefix: Seq<usize>, i: nat) {
    if i < ps.len() && i < usize::MAX as nat {
        lemma_children_decrease(ps, i as int);
    }
}

/// A packet's children stand below the forest holding the packet,
/// for the purposes of termination.
pub proof fn lemma_children_decrease(ps: Seq<Packet>, i: int)
    requires
        0 <= i < ps.len(),
    ensures
        decreases_to!(ps => ps[i].spec_children()),
{
    broadcast use vstd::seq::axiom_seq_index_decreases;
    broadcast use vstd::std_specs::vec::axiom_vec_decreases_to_view;

    let p = ps[i];
    assert(decreases_to!(ps => p));
    match p.spec_common().children {
        Some(c) => {
            assert(decreases_to!(ps => c.packets@)) by {
                match p {
                    Packet::Unknown(q) => {
                        assert(decreases_to!(p => q.common.children->0.packets));
                    },
                    Packet::Signature(Signature::V4(q)) => {
                        assert(decreases_to!(p => q.common.children->0.packets));
                    },
                    Packet::OnePassSig(OnePassSig::V3(q)) => {
                        assert(decreases_to!(p => q.common.children->0.packets));
                    },
                    Packet::PublicKey(Key::V4(q)) => {
                        assert(decreases_to!(p => q.common.children->0.packets));
                    },
                    Packet::PublicSubkey(Key::V4(q)) => {
                        assert(decreases_to!(p => q.common.children->0.packets));
                    },
                    Packet::SecretKey(Key::V4(q)) => {
                        assert(decreases_to!(p => q.common.children->0.packets));
                    },
                    Packet::SecretSubkey(Key::V4(q)) => {
                        assert(decreases_to!(p => q.common.children->0.packets));
                    },
                    Packet::Marker(q) => {
                        assert(decreases_to!(p => q.common.children->0.packets));
                    },
                    Packet::Trust(q) => {
                        assert(decreases_to!(p => q.common.children->0.packets));
                    },
                    Packet::UserID(q) => {
                        assert(decreases_to!(p => q.common.children->0.packets));
                    },
                    Packet::UserAttribute(q) => {
                        assert(decreases_to!(p => q.common.children->0.packets));
                    },
                    Packet::Literal(q) => {
                        assert(decreases_to!(p => q.common.children->0.packets));
                    },
                    Packet::CompressedData(q) => {
                        assert(decreases_to!(p => q.common.children->0.packets));
                    },
                    Packet::PKESK(PKESK::V3(q)) => {
                        assert(decreases_to!(p => q.common.children->0.packets));
                    },
                    Packet::SKESK(SKESK::V4(q)) => {
                        assert(decreases_to!(p => q.common.children->0.packets));
                    },
                    Packet::SKESK(SKESK::V5(q)) => {
                        assert(decreases_to!(p => q.skesk4.common.children->0.packets));
                    },
                    Packet::SEIP(SEIP::V1(q)) => {
                        assert(decreases_to!(p => q.common.children->0.packets));
                    },
                    Packet::MDC(q) => {
                        assert(decreases_to!(p => q.common.children->0.packets));
                    },
                    Packet::AED(AED::V1(q)) => {
                        assert(decreases_to!(p => q.common.children->0.packets));
                    },
                }
            }
        },
        None => {
            vstd::seq::axiom_seq_len_decreases(ps, Seq::<Packet>::empty());
        },
    }
}

/// The packet standing at an index path in a forest: the first
/// index picks a packet, the rest descend into its children.
pub open spec fn spec_path_ref(ps: Seq<Packet>, path: Seq<usize>) -> Option<Packet>
    decreases path.len(),
{
    if path.len() == 0 {
        None
    } else if path[0] as int >= ps.len() {
        None
    } else if path.len() == 1 {
        Some(ps[path[0] as int])
    } else {
        spec_path_ref(ps[path[0] as int].spec_children(), path.drop_first())
    }
}

/// Every path the depth-first walk reports leads back, through
/// `spec_path_ref`, to exactly the packet it was reported with.
pub proof fn lemma_dfs_paths_path_ref(ps: Seq<Packet>, prefix: Seq<usize>, i: nat)
    requires
        i <= ps.len(),
    ensures
        forall|j: int|
            0 <= j < spec_dfs_paths(ps, prefix, i).len() ==> {
                let item = #[trigger] spec_dfs_paths(ps, prefix, i)[j];
                &&& item.0.len() > prefix.len()
                &&& item.0.take(prefix.len() as int) == prefix
                &&& item.0[prefix.len() as int] as int >= i
                &&& spec_path_ref(ps, item.0.skip(prefix.len() as int)) == Some(item.1)
            },
    decreases ps, ps.len() - i,
{
    if i < ps.len() && i < usize::MAX as nat {
        lemma_children_decrease(ps, i as int);
        let p = ps[i as int];
        let here = prefix.push(i as usize);
        let own: Seq<(Seq<usize>, Packet)> = seq![(here, p)];
        let below = spec_dfs_paths(p.spec_children(), here, 0);
        let after = spec_dfs_paths(ps, prefix, i + 1);
        lemma_dfs_paths_path_ref(p.spec_children(), here, 0);
        lemma_dfs_paths_path_ref(ps, prefix, i + 1);
        let whole = spec_dfs_paths(ps, prefix, i);
        assert(whole == own + below + after);
        assert forall|j: int| 0 <= j < whole.len() implies {
            let item = #[trigger] whole[j];
            &&& item.0.len() > prefix.len()
            &&& item.0.take(prefix.len() as int) == prefix
            &&& item.0[prefix.len() as int] as int >= i
            &&& spec_path_ref(ps, item.0.skip(prefix.len() as int)) == Some(item.1)
        } by {
            let item = whole[j];
            if j == 0 {
                assert(item == (here, p));
                assert(here.take(prefix.len() as int) =~= prefix);
                assert(here.skip(prefix.len() as int) =~= seq![i as usize]);
                assert(spec_path_ref(ps, seq![i as usize]) == Some(p));
            } else if j < 1 + below.len() {
                let item2 = below[j - 1];
                assert(item == item2);
                // The inner path starts with the whole of `here`.
                assert(item2.0.take(here.len() as int) == here);
                assert(item2.0.len() > here.len());
                assert(item2.0.take(prefix.len() as int) =~= prefix);
                assert(item2.0[prefix.len() as int] == i as usize) by {
                    assert(item2.0.take(here.len() as int)[prefix.len() as int] == here[prefix.len() as int]);
                }
                let rel = item2.0.skip(prefix.len() as int);
                let rel2 = item2.0.skip(here.len() as int);
                assert(rel.len() >= 2);
                assert(rel[0] == i as usize);
                assert(rel.drop_first() =~= rel2);
                assert(spec_path_ref(p.spec_children(), rel2) == Some(item2.1));
                assert(spec_path_ref(ps, rel) == spec_path_ref(p.spec_children(), rel.drop_first()));
            } else {
                let item3 = after[j - 1 - below.len()];
                assert(item == item3);
            }
        }
    }
}

impl Packet {
    /// Borrows the packet's container, if it has one.
    pub fn container_ref(&self) -> (r: Option<&Container>)
        ensures
            r is Some <==> self.spec_common().children is Some,
            r matches Some(c) ==> *c == self.spec_common().children->0,
    {
        match self {
            Packet::Unknown(p) => p.common.children.as_ref(),
            Packet::Signature(Signature::V4(p)) => p.common.children.as_ref(),
            Packet::OnePassSig(OnePassSig::V3(p)) => p.common.children.as_ref(),
            Packet::PublicKey(Key::V4(p)) => p.common.children.as_ref(),
            Packet::PublicSubkey(Key::V4(p)) => p.common.children.as_ref(),
            Packet::SecretKey(Key::V4(p)) => p.common.children.as_ref(),
            Packet::SecretSubkey(Key::V4(p)) => p.common.children.as_ref(),
            Packet::Marker(p) => p.common.children.as_ref(),
            Packet::Trust(p) => p.common.children.as_ref(),
            Packet::UserID(p) => p.common.children.as_ref(),
            Packet::UserAttribute(p) => p.common.children.as_ref(),
            Packet::Literal(p) => p.common.children.as_ref(),
            Packet::CompressedData(p) => p.common.children.as_ref(),
            Packet::PKESK(PKESK::V3(p)) => p.common.children.as_ref(),
            Packet::SKESK(SKESK::V4(p)) => p.common.children.as_ref(),
            Packet::SKESK(SKESK::V5(p)) => p.skesk4.common.children.as_ref(),
            Packet::SEIP(SEIP::V1(p)) => p.common.children.as_ref(),
            Packet::MDC(p) => p.common.children.as_ref(),
            Packet::AED(AED::V1(p)) => p.common.children.as_ref(),
        }
    }
}

/// Copies a path.
pub fn copy_path(p: &Vec<usize>) -> (r: Vec<usize>)
    ensures
        r@ == p@,
{
    let mut r: Vec<usize> = Vec::new();
    let mut i: usize = 0;
    while i < p.len()
        invariant
            i <= p@.len(),
            r@ == p@.take(i as int),
        decreases p@.len() - i,
    {
        r.push(p[i]);
        i = i + 1;
        proof {
            assert(r@ =~= p@.take(i as int));
        }
    }
    proof {
        assert(p@.take(p@.len() as int) =~= p@);
    }
    r
}

/// Follows an index path down a forest.
pub fn path_ref_in<'a>(ps: &'a Vec<Packet>, path: &[usize], at: usize) -> (r: Option<&'a Packet>)
    requires
        at <= path@.len(),
    ensures
        match spec_path_ref(ps@, path@.skip(at as int)) {
            Some(p) => r matches Some(q) && *q == p,
            None => r is None,
        },
    decreases path@.len() - at,
{
    proof {
        let rel = path@.skip(at as int);
        assert(rel.len() == path@.len() - at);
        if rel.len() > 0 {
            assert(rel[0] == path@[at as int]);
            assert(rel.drop_first() =~= path@.skip(at as int + 1));
        }
    }
    if at == path.len() {
        return None;
    }
    let i = path[at];
    if i >= ps.len() {
        return None;
    }
    let p = &ps[i];
    proof {
        assert(*p == ps@[i as int]);
    }
    if at + 1 == path.len() {
        proof {
            let rel = path@.skip(at as int);
            assert(rel.len() == 1);
            assert(rel[0] == i);
            assert(spec_path_ref(ps@, rel) == Some(ps@[i as int]));
        }
        Some(p)
    } else {
        match p.container_ref() {
            Some(c) => {
                proof {
                    let rel = path@.skip(at as int);
                    assert(rel.len() >= 2);
                    assert(rel[0] == i);
                    assert(ps@[i as int].spec_children() == c.packets@);
                    assert(spec_path_ref(ps@, rel) == spec_path_ref(
                        ps@[rel[0] as int].spec_children(),
                        rel.drop_first(),
                    ));
                    assert(spec_path_ref(ps@, rel) == spec_path_ref(
                        c.packets@,
                        path@.skip(at as int + 1),
                    ));
                }
                path_ref_in(&c.packets, path, at + 1)
            },
            None => {
                proof {
                    let rel = path@.skip(at as int);
                    assert(rel.len() >= 2);
                    assert(rel[0] == i);
                    assert(ps@[i as int].spec_children() =~= Seq::<Packet>::empty());
                    assert(spec_path_ref(ps@[rel[0] as int].spec_children(), rel.drop_first())
                        is None);
                }
                None
            },
        }
    }
}

/// Collects the index path of every packet below a forest, in
/// depth-first pre-order.
fn collect_dfs_paths(ps: &Vec<Packet>, prefix: &Vec<usize>, out: &mut Vec<Vec<usize>>)
    ensures
        final(out)@.len() == old(out)@.len() + spec_dfs_paths(ps@, prefix@, 0).len(),
        forall|k: int|
            0 <= k < old(out)@.len() ==> final(out)@[k] == #[trigger] old(out)@[k],
        forall|k: int|
            0 <= k < spec_dfs_paths(ps@, prefix@, 0).len() ==> final(out)@[old(out)@.len() + k]@
                == (#[trigger] spec_dfs_paths(ps@, prefix@, 0)[k]).0,
    decreases ps@,
{
    let ghost out0 = out@;
    let ghost goal = spec_dfs_paths(ps@, prefix@, 0);
    let mut i: usize = 0;
    while i < ps.len()
        invariant
            i <= ps@.len(),
            out@.len() == out0.len() + goal.len() - spec_dfs_paths(ps@, prefix@, i as nat).len(),
            goal.len() >= spec_dfs_paths(ps@, prefix@, i as nat).len(),
            forall|k: int| 0 <= k < out0.len() ==> out@[k] == #[trigger] out0[k],
            forall|k: int|
                0 <= k < out@.len() - out0.len() ==> out@[out0.len() + k]@ == (#[trigger] goal[k]).0,
            goal == goal.take(out@.len() - out0.len()) + spec_dfs_paths(
                ps@,
                prefix@,
                i as nat,
            ),
        decreases ps@.len() - i,
    {
        let ghost out_pre = out@;
        proof {
            lemma_children_decrease(ps@, i as int);
        }
        let mut here = copy_path(prefix);
        here.push(i);
        let ghost done = out@.len() - out0.len();
        let ghost sub = spec_dfs_paths(ps@[i as int].spec_children(), prefix@.push(i), 0);
        proof {
            assert(spec_dfs_paths(ps@, prefix@, i as nat) == seq![
                (prefix@.push(i), ps@[i as int]),
            ] + sub + spec_dfs_paths(ps@, prefix@, i as nat + 1));
        }
        out.push(here);
        let ghost out_mid = out@;
        let p = &ps[i];
        match p.container_ref() {
            Some(c) => {
                let mut here2 = copy_path(prefix);
                here2.push(i);
                proof {
                    assert(c.packets@ == ps@[i as int].spec_children());
                    assert(here2@ =~= prefix@.push(i));
                }
                collect_dfs_paths(&c.packets, &here2, out);
                proof {
                    assert(spec_dfs_paths(c.packets@, here2@, 0) == sub);
                    assert(forall|k: int|
                        0 <= k < out_mid.len() ==> out@[k] == #[trigger] out_mid[k]);
                }
            },
            None => {
                proof {
                    assert(ps@[i as int].spec_children() =~= Seq::<Packet>::empty());
                    assert(sub.len() == 0);
                    assert(forall|k: int|
                        0 <= k < out_mid.len() ==> out@[k] == #[trigger] out_mid[k]);
                }
            },
        }
        i = i + 1;
        proof {
            let done2 = out@.len() - out0.len();
            let hd = (prefix@.push((i - 1) as usize), ps@[i - 1]);
            let spec_after = spec_dfs_paths(ps@, prefix@, i as nat);
            assert(goal == goal.take(done) + (seq![hd] + sub + spec_after));
            assert(done2 == done + 1 + sub.len());
            assert(goal.len() == done + 1 + sub.len() + spec_after.len());
            assert(goal =~= goal.take(done2) + spec_after) by {
                assert forall|k: int| 0 <= k < goal.len() implies goal[k] == (goal.take(done2)
                    + spec_after)[k] by {
                    assert(goal[k] == (goal.take(done) + (seq![hd] + sub + spec_after))[k]);
                }
            }
            assert(goal[done] == hd);
            assert forall|k2: int| 0 <= k2 < sub.len() implies goal[done + 1 + k2] == sub[k2] by {
                let b = seq![hd] + sub + spec_after;
                assert(goal[done + 1 + k2] == (goal.take(done) + b)[done + 1 + k2]);
                assert((goal.take(done) + b)[done + 1 + k2] == b[1 + k2]);
                assert(b[1 + k2] == (seq![hd] + sub)[1 + k2]);
                assert((seq![hd] + sub)[1 + k2] == sub[k2]);
            }
            assert forall|k: int| 0 <= k < out0.len() implies out@[k] == #[trigger] out0[k] by {
                assert(out@[k] == out_mid[k]);
            }
            assert forall|k: int| 0 <= k < done2 implies out@[out0.len() + k]@ == (
            #[trigger] goal[k]).0 by {
                if k < done {
                    assert(out@[out0.len() + k] == out_mid[out0.len() + k]);
                    assert(out_mid[out0.len() + k] == out_pre[out0.len() + k]);
                    assert(out_pre[out0.len() + k]@ == (goal[k]).0);
                } else if k == done {
                    assert(out@[out0.len() + k] == out_mid[out0.len() + k]);
                    assert(out_mid[out0.len() + k]@ == hd.0);
                } else {
                    assert(out@[out_mid.len() + (k - done - 1)]@ == sub[k - done - 1].0);
                }
            }
        }
    }
    proof {
        assert(spec_dfs_paths(ps@, prefix@, i as nat).len() == 0);
        assert(goal =~= goal.take(out@.len() - out0.len()));
    }
}

/// A walk over every packet below a container, depth-first, parents
/// first.  It hands packets out one at a time and cannot restart.
pub struct PacketIter<'a> {
    root: Option<&'a Vec<Packet>>,
    paths: Vec<Vec<usize>>,
    pos: usize,
}

/// The same walk, but each packet comes with its index path
/// relative to the walk's root.
pub struct PacketPathIter<'a> {
    iter: PacketIter<'a>,
}

impl<'a> PacketIter<'a> {
    /// The forest the walk runs over.
    pub closed spec fn spec_root(self) -> Seq<Packet> {
        match self.root {
            Some(v) => v@,
            None => Seq::empty(),
        }
    }

    /// Every item the whole walk will report, in order.
    pub closed spec fn spec_items(self) -> Seq<(Seq<usize>, Packet)> {
        spec_dfs_paths(self.spec_root(), Seq::empty(), 0)
    }

    /// How many items have been handed out already.
    pub closed spec fn spec_pos(self) -> int {
        self.pos as int
    }

    /// The walk's bookkeeping is sound.
    pub closed spec fn wf(self) -> bool {
        &&& self.pos <= self.paths@.len()
        &&& self.paths@.len() == self.spec_items().len()
        &&& forall|k: int|
            0 <= k < self.paths@.len() ==> self.paths@[k]@ == (#[trigger] self.spec_items()[k]).0
    }

    /// Builds the walk over a forest.
    fn over(root: Option<&'a Vec<Packet>>) -> (r: PacketIter<'a>)
        ensures
            r.wf(),
            r.spec_pos() == 0,
            r.spec_root() == (match root {
                Some(v) => v@,
                None => Seq::<Packet>::empty(),
            }),
    {
        let mut paths: Vec<Vec<usize>> = Vec::new();
        let prefix: Vec<usize> = Vec::new();
        match root {
            Some(v) => {
                proof {
                    assert(prefix@ =~= Seq::<usize>::empty());
                }
                collect_dfs_paths(v, &prefix, &mut paths);
            },
            None => {
                proof {
                    assert(spec_dfs_paths(Seq::<Packet>::empty(), Seq::empty(), 0).len() == 0);
                }
            },
        }
        PacketIter { root, paths, pos: 0 }
    }

    /// Hands out the next packet of the walk, parents before their
    /// children, siblings in order.
    pub fn next(&mut self) -> (r: Option<&'a Packet>)
        requires
            old(self).wf(),
        ensures
            final(self).wf(),
            final(self).spec_root() == old(self).spec_root(),
            0 <= old(self).spec_pos() && final(self).spec_pos() >= old(self).spec_pos(),
            old(self).spec_pos() >= old(self).spec_items().len() ==> r is None && *final(self)
                == *old(self),
            old(self).spec_pos() < old(self).spec_items().len() ==> (r matches Some(p) && *p
                == old(self).spec_items()[old(self).spec_pos()].1 && final(self).spec_pos() == old(
                self,
            ).spec_pos() + 1),
    {
        if self.pos >= self.paths.len() {
            return None;
        }
        let path = &self.paths[self.pos];
        let ghost idx = self.pos as int;
        self.pos = self.pos + 1;
        match self.root {
            Some(v) => {
                proof {
                    lemma_dfs_paths_path_ref(v@, Seq::empty(), 0);
                    let item = self.spec_items()[idx];
                    assert(path@ == item.0);
                    assert(item.0.skip(0) =~= item.0);
                }
                match path_ref_in(v, path.as_slice(), 0) {
                    Some(p) => Some(p),
                    None => {
                        proof {
                            assert(false);
                        }
                        None
                    },
                }
            },
            None => {
                proof {
                    assert(false);
                }
                None
            },
        }
    }

    /// Extends the walk to also report each packet's path.
    pub fn paths(self) -> (r: PacketPathIter<'a>)
        requires
            self.wf(),
        ensures
            r.wf(),
            r.spec_items() == self.spec_items(),
            r.spec_pos() == self.spec_pos(),
    {
        PacketPathIter { iter: self }
    }
}

impl<'a> PacketPathIter<'a> {
    /// Every item the whole walk will report, in order.
    pub closed spec fn spec_items(self) -> Seq<(Seq<usize>, Packet)> {
        self.iter.spec_items()
    }

    /// How many items have been handed out already.
    pub closed spec fn spec_pos(self) -> int {
        self.iter.spec_pos()
    }

    /// The walk's bookkeeping is sound.
    pub closed spec fn wf(self) -> bool {
        self.iter.wf()
    }

    /// Hands out the next packet and its path.
    pub fn next(&mut self) -> (r: Option<(Vec<usize>, &'a Packet)>)
        requires
            old(self).wf(),
        ensures
            final(self).wf(),
            0 <= old(self).spec_pos() && final(self).spec_pos() >= old(self).spec_pos(),
            old(self).spec_pos() >= old(self).spec_items().len() ==> r is None && *final(self)
                == *old(self),
            old(self).spec_pos() < old(self).spec_items().len() ==> (r matches Some((pth, p))
                && pth@ == old(self).spec_items()[old(self).spec_pos()].0 && *p == old(
                self,
            ).spec_items()[old(self).spec_pos()].1 && final(self).spec_pos() == old(
                self,
            ).spec_pos() + 1),
    {
        if self.iter.pos >= self.iter.paths.len() {
            return None;
        }
        let path = copy_path(&self.iter.paths[self.iter.pos]);
        match self.iter.next() {
            Some(p) => Some((path, p)),
            None => {
                proof {
                    assert(false);
                }
                None
            },
        }
    }
}

impl Common {
    /// Walks every packet below this one, depth-first, parents
    /// first.
    pub fn descendants(&self) -> (r: PacketIter<'_>)
        ensures
            r.wf(),
            r.spec_pos() == 0,
            r.spec_items() == spec_dfs_paths(
                match self.children {
                    Some(c) => c.packets@,
                    None => Seq::<Packet>::empty(),
                },
                Seq::empty(),
                0,
            ),
    {
        match &self.children {
            Some(c) => PacketIter::over(Some(&c.packets)),
            None => PacketIter::over(None),
        }
    }
}

impl Container {
    /// Walks every packet in the container, depth-first, parents
    /// first.
    pub fn descendants(&self) -> (r: PacketIter<'_>)
        ensures
            r.wf(),
            r.spec_pos() == 0,
            r.spec_items() == spec_dfs_paths(self.packets@, Seq::empty(), 0),
    {
        PacketIter::over(Some(&self.packets))
    }
}

impl From<Signature> for Packet {
    /// Wraps a signature packet into the packet sum.
    fn from(s: Signature) -> Packet {
        Packet::Signature(s)
    }
}

impl vstd::std_specs::convert::FromSpecImpl<Signature> for Packet {
    open spec fn obeys_from_spec() -> bool {
        true
    }

    open spec fn from_spec(s: Signature) -> Packet {
        Packet::Signature(s)
    }
}

impl From<OnePassSig> for Packet {
    /// Wraps a one-pass-signature packet into the packet sum.
    fn from(s: OnePassSig) -> Packet {
        Packet::OnePassSig(s)
    }
}

impl vstd::std_specs::convert::FromSpecImpl<OnePassSig> for Packet {
    open spec fn obeys_from_spec() -> bool {
        true
    }

    open spec fn from_spec(s: OnePassSig) -> Packet {
        Packet::OnePassSig(s)
    }
}

impl From<PKESK> for Packet {
    /// Wraps a public-key session-key packet into the packet sum.
    fn from(p: PKESK) -> Packet {
        Packet::PKESK(p)
    }
}

impl vstd::std_specs::convert::FromSpecImpl<PKESK> for Packet {
    open spec fn obeys_from_spec() -> bool {
        true
    }

    open spec fn from_spec(p: PKESK) -> Packet {
        Packet::PKESK(p)
    }
}

impl From<SKESK> for Packet {
    /// Wraps a symmetric-key session-key packet into the packet sum.
    fn from(p: SKESK) -> Packet {
        Packet::SKESK(p)
    }
}

impl vstd::std_specs::convert::FromSpecImpl<SKESK> for Packet {
    open spec fn obeys_from_spec() -> bool {
        true
    }

    open spec fn from_spec(p: SKESK) -> Packet {
        Packet::SKESK(p)
    }
}

impl From<SEIP> for Packet {
    /// Wraps an integrity-protected-data packet into the packet sum.
    fn from(p: SEIP) -> Packet {
        Packet::SEIP(p)
    }
}

impl vstd::std_specs::convert::FromSpecImpl<SEIP> for Packet {
    open spec fn obeys_from_spec() -> bool {
        true
    }

    open spec fn from_spec(p: SEIP) -> Packet {
        Packet::SEIP(p)
    }
}

impl From<AED> for Packet {
    /// Wraps an AEAD-encrypted-data packet into the packet sum.
    fn from(p: AED) -> Packet {
        Packet::AED(p)
    }
}

impl vstd::std_specs::convert::FromSpecImpl<AED> for Packet {
    open spec fn obeys_from_spec() -> bool {
        true
    }

    open spec fn from_spec(p: AED) -> Packet {
        Packet::AED(p)
    }
}

} // verus!

//! The per-tag body decoders.
//!
//! Each decoder takes a packet's whole de-chunked body and produces
//! the typed packet, together with the body's unread remainder: the
//! literal data, a container's content, or trailing octets the fixed
//! fields do not cover.  A decoder never reads past the body it was
//! given.
//!
//! A failure in here is a failure of one packet, not of the stream:
//! the dispatcher downgrades the packet to `Unknown`, keeping the
//! body byte for byte and recording the reason.

use vstd::prelude::*;

use crate::error::Error;
use crate::packet::{
    AED1, CompressedData, Key4, Literal, MDC, Marker, OnePassSig3, PKESK3, SEIP1, SKESK4, SKESK5,
    Signature4, Trust, Unknown, UserAttribute, UserID, S2K,
};
use crate::packet::{Common, Packet};
use crate::packet::{AED, Key, OnePassSig, PKESK, SEIP, SKESK, Signature};
use crate::reader::{be16, be32};
use crate::tag::Tag;

verus! {

/// The bytes a `Common` stores as body: none means the empty
/// sequence.
pub open spec fn body_of(c: Common) -> Seq<u8> {
    match c.body {
        Some(b) => b@,
        None => Seq::empty(),
    }
}

/// What a packet downgraded to `Unknown` must look like: the tag and
/// the whole body are kept verbatim, and the reason is recorded.
pub open spec fn unknown_downgrade(p: Packet, tag: Tag, s: Seq<u8>, e: Error) -> bool {
    &&& p matches Packet::Unknown(u)
    &&& u.tag == tag
    &&& u.error == e
    &&& u.common.children is None
    &&& body_of(u.common) == s
}

/// Copies the byte range `[a, b)` out of a buffer.
pub fn copy_range(v: &Vec<u8>, a: usize, b: usize) -> (out: Vec<u8>)
    requires
        a <= b <= v@.len(),
    ensures
        out@ == v@.subrange(a as int, b as int),
{
    let mut out: Vec<u8> = Vec::new();
    let mut i: usize = a;
    while i < b
        invariant
            a <= i <= b <= v@.len(),
            out@ == v@.subrange(a as int, i as int),
        decreases b - i,
    {
        out.push(v[i]);
        i = i + 1;
        proof {
            assert(out@ =~= v@.subrange(a as int, i as int));
        }
    }
    out
}

/// Whether `s` is exactly a run of zero or more MPIs: each MPI is a
/// two-octet big-endian bit count followed by exactly enough octets
/// to hold that many bits.  RFC 4880 section 3.2.
pub open spec fn spec_mpi_run_all(s: Seq<u8>) -> bool
    decreases s.len(),
{
    if s.len() == 0 {
        true
    } else if s.len() < 2 {
        false
    } else {
        let nb = (be16(s[0], s[1]) + 7) / 8;
        if s.len() < 2 + nb {
            false
        } else {
            spec_mpi_run_all(s.skip(2 + nb))
        }
    }
}

/// Checks that the bytes from `start` on are exactly a run of MPIs.
pub fn mpi_run_all(v: &Vec<u8>, start: usize) -> (r: bool)
    requires
        start <= v@.len(),
    ensures
        r == spec_mpi_run_all(v@.skip(start as int)),
{
    let mut pos = start;
    while v.len() - pos >= 2
        invariant
            start <= pos <= v@.len(),
            spec_mpi_run_all(v@.skip(start as int)) == spec_mpi_run_all(v@.skip(pos as int)),
        decreases v@.len() - pos,
    {
        let bits: usize = (v[pos] as usize) * 256 + (v[pos + 1] as usize);
        let nb: usize = (bits + 7) / 8;
        if v.len() - pos - 2 < nb {
            return false;
        }
        proof {
            let s = v@.skip(pos as int);
            assert(s[0] == v@[pos as int] && s[1] == v@[pos as int + 1]);
            assert(s.skip(2 + nb as int) =~= v@.skip(pos as int + 2 + nb as int));
        }
        pos = pos + 2 + nb;
    }
    if pos == v.len() {
        true
    } else {
        proof {
            assert(v@.skip(pos as int).len() == v@.len() - pos);
        }
        false
    }
}

/// How many octets a run of `k` MPIs occupies at the front of `s`,
/// or the error if fewer than `k` fit.
pub open spec fn spec_mpi_run(s: Seq<u8>, k: nat) -> Result<int, Error>
    decreases k,
{
    if k == 0 {
        Ok(0)
    } else if s.len() < 2 {
        Err(Error::MalformedMPI)
    } else {
        let nb = (be16(s[0], s[1]) + 7) / 8;
        if s.len() < 2 + nb {
            Err(Error::MalformedMPI)
        } else {
            match spec_mpi_run(s.skip(2 + nb), (k - 1) as nat) {
                Ok(n) => Ok(2 + nb + n),
                Err(e) => Err(e),
            }
        }
    }
}

/// Finds the end of a run of `k` MPIs that starts at `start`.
pub fn mpi_run_end(v: &Vec<u8>, start: usize, k: usize) -> (r: Result<usize, Error>)
    requires
        start <= v@.len(),
    ensures
        match spec_mpi_run(v@.skip(start as int), k as nat) {
            Ok(n) => r is Ok && r->Ok_0 == start + n && start + n <= v@.len() && n >= 0,
            Err(e) => r == Err::<usize, Error>(e),
        },
    decreases k,
{
    if k == 0 {
        return Ok(start);
    }
    if v.len() - start < 2 {
        return Err(Error::MalformedMPI);
    }
    let bits: usize = (v[start] as usize) * 256 + (v[start + 1] as usize);
    let nb: usize = (bits + 7) / 8;
    if v.len() - start - 2 < nb {
        return Err(Error::MalformedMPI);
    }
    proof {
        let s = v@.skip(start as int);
        assert(s[0] == v@[start as int] && s[1] == v@[start as int + 1]);
        assert(s.skip(2 + nb as int) =~= v@.skip(start as int + 2 + nb as int));
    }
    mpi_run_end(v, start + 2 + nb, k - 1)
}

/// How many MPIs the public material of a key with this algorithm
/// holds; `None` for an algorithm whose layout this crate does not
/// know.  RFC 4880 section 5.5.2 and 9.1.
pub open spec fn spec_public_mpi_count(algo: u8) -> Option<nat> {
    if algo == 1 || algo == 2 || algo == 3 {
        Some(2nat)  // RSA: modulus and exponent.

    } else if algo == 16 || algo == 20 {
        Some(3nat)  // Elgamal: prime, generator, public value.

    } else if algo == 17 {
        Some(4nat)  // DSA: prime, order, generator, public value.

    } else {
        None
    }
}

/// What decoding a literal-data body yields: format, file name, date
/// and the offset where the data begins.  RFC 4880 section 5.9.
pub open spec fn spec_literal(s: Seq<u8>) -> Result<(u8, Seq<u8>, u32, int), Error> {
    if s.len() < 2 {
        Err(Error::TruncatedInput)
    } else {
        let n = s[1] as int;
        if s.len() < 6 + n {
            Err(Error::TruncatedInput)
        } else {
            Ok((s[0], s.subrange(2, 2 + n), be32(s[2 + n], s[3 + n], s[4 + n], s[5 + n]), 6 + n))
        }
    }
}

/// What decoding an S2K specifier yields: type, hash algorithm,
/// salt, coded count, and the octets consumed.  RFC 4880 section
/// 3.7.1.
pub open spec fn spec_s2k(s: Seq<u8>) -> Result<(u8, u8, Seq<u8>, u8, int), Error> {
    if s.len() < 2 {
        Err(Error::TruncatedInput)
    } else if s[0] == 0 {
        Ok((0u8, s[1], Seq::empty(), 0u8, 2))
    } else if s[0] == 1 {
        if s.len() < 10 {
            Err(Error::TruncatedInput)
        } else {
            Ok((1u8, s[1], s.subrange(2, 10), 0u8, 10))
        }
    } else if s[0] == 3 {
        if s.len() < 11 {
            Err(Error::TruncatedInput)
        } else {
            Ok((3u8, s[1], s.subrange(2, 10), s[10], 11))
        }
    } else {
        Err(Error::MalformedPacket)
    }
}

/// Whether an S2K value records exactly the decoded fields.
pub open spec fn s2k_matches(x: S2K, typ: u8, hash: u8, salt: Seq<u8>, count: u8) -> bool {
    match x {
        S2K::Simple { hash_algo } => typ == 0 && hash_algo == hash,
        S2K::Salted { hash_algo, salt: s } => typ == 1 && hash_algo == hash && s@ == salt,
        S2K::Iterated { hash_algo, salt: s, coded_count } => typ == 3 && hash_algo == hash && s@
            == salt && coded_count == count,
    }
}

/// Decodes an S2K specifier starting at `start`; returns the value
/// and the offset just past it.
fn parse_s2k(v: &Vec<u8>, start: usize) -> (r: Result<(S2K, usize), Error>)
    requires
        start <= v@.len(),
    ensures
        match spec_s2k(v@.skip(start as int)) {
            Ok((typ, hash, salt, count, used)) => r matches Ok((x, end)) && s2k_matches(
                x,
                typ,
                hash,
                salt,
                count,
            ) && end == start + used && end <= v@.len(),
            Err(e) => r == Err::<(S2K, usize), Error>(e),
        },
{
    proof {
        let s = v@.skip(start as int);
        assert(forall|j: int| 0 <= j < s.len() ==> s[j] == v@[start as int + j]);
    }
    if v.len() - start < 2 {
        return Err(Error::TruncatedInput);
    }
    let typ = v[start];
    let hash_algo = v[start + 1];
    if typ == 0 {
        Ok((S2K::Simple { hash_algo }, start + 2))
    } else if typ == 1 {
        if v.len() - start < 10 {
            return Err(Error::TruncatedInput);
        }
        let salt = copy_range(v, start + 2, start + 10);
        proof {
            assert(salt@ =~= v@.skip(start as int).subrange(2, 10));
        }
        Ok((S2K::Salted { hash_algo, salt }, start + 10))
    } else if typ == 3 {
        if v.len() - start < 11 {
            return Err(Error::TruncatedInput);
        }
        let salt = copy_range(v, start + 2, start + 10);
        proof {
            assert(salt@ =~= v@.skip(start as int).subrange(2, 10));
        }
        Ok((S2K::Iterated { hash_algo, salt, coded_count: v[start + 10] }, start + 11))
    } else {
        Err(Error::MalformedPacket)
    }
}

/// What decoding a version 4 signature body yields: type, key and
/// hash algorithms, the two subpacket areas, the digest prefix and
/// the MPI material.  RFC 4880 section 5.2.3.
pub open spec fn spec_signature(s: Seq<u8>) -> Result<
    (u8, u8, u8, Seq<u8>, Seq<u8>, Seq<u8>, Seq<u8>),
    Error,
> {
    if s.len() < 1 {
        Err(Error::TruncatedInput)
    } else if s[0] != 4 {
        Err(Error::UnsupportedPacketVersion(s[0]))
    } else if s.len() < 6 {
        Err(Error::TruncatedInput)
    } else {
        let hl = be16(s[4], s[5]) as int;
        if s.len() < 8 + hl {
            Err(Error::TruncatedInput)
        } else {
            let ul = be16(s[6 + hl], s[7 + hl]) as int;
            if s.len() < 10 + hl + ul {
                Err(Error::TruncatedInput)
            } else {
                let mpis = s.skip(10 + hl + ul);
                if !spec_mpi_run_all(mpis) {
                    Err(Error::MalformedMPI)
                } else {
                    Ok(
                        (
                            s[1],
                            s[2],
                            s[3],
                            s.subrange(6, 6 + hl),
                            s.subrange(8 + hl, 8 + hl + ul),
                            s.subrange(8 + hl + ul, 10 + hl + ul),
                            mpis,
                        ),
                    )
                }
            }
        }
    }
}

/// What decoding a version 4 key body yields: creation time, key
/// algorithm, public MPI material, and the secret material when the
/// packet is a secret-key packet.  RFC 4880 section 5.5.2.
///
/// The public material of a public-key packet is the whole remainder
/// and must be exactly a run of MPIs.  In a secret-key packet the
/// split between public and secret material needs the algorithm's
/// MPI count; an algorithm this crate does not know is left
/// undecoded.
pub open spec fn spec_key(s: Seq<u8>, secret: bool) -> Result<
    (u32, u8, Seq<u8>, Option<Seq<u8>>),
    Error,
> {
    if s.len() < 6 {
        Err(Error::TruncatedInput)
    } else if s[0] != 4 {
        Err(Error::UnsupportedPacketVersion(s[0]))
    } else {
        let time = be32(s[1], s[2], s[3], s[4]);
        let algo = s[5];
        let rem = s.skip(6);
        if secret {
            match spec_public_mpi_count(algo) {
                None => Err(Error::MalformedPacket),
                Some(k) => match spec_mpi_run(rem, k) {
                    Err(e) => Err(e),
                    Ok(n) => Ok((time, algo, rem.take(n), Some(rem.skip(n)))),
                },
            }
        } else {
            if !spec_mpi_run_all(rem) {
                Err(Error::MalformedMPI)
            } else {
                Ok((time, algo, rem, None))
            }
        }
    }
}

/// What decoding a version 3 PKESK body yields: the recipient key
/// ID, the key algorithm and the encrypted session key.  RFC 4880
/// section 5.1.
pub open spec fn spec_pkesk(s: Seq<u8>) -> Result<(Seq<u8>, u8, Seq<u8>), Error> {
    if s.len() < 1 {
        Err(Error::TruncatedInput)
    } else if s[0] != 3 {
        Err(Error::UnsupportedPacketVersion(s[0]))
    } else if s.len() < 10 {
        Err(Error::TruncatedInput)
    } else {
        let esk = s.skip(10);
        if !spec_mpi_run_all(esk) {
            Err(Error::MalformedMPI)
        } else {
            Ok((s.subrange(1, 9), s[9], esk))
        }
    }
}

/// What decoding a version 3 one-pass-signature body yields; the
/// packet is exactly thirteen octets of fixed fields.  RFC 4880
/// section 5.4.
pub open spec fn spec_one_pass_sig(s: Seq<u8>) -> Result<(u8, u8, u8, Seq<u8>, u8), Error> {
    if s.len() < 1 {
        Err(Error::TruncatedInput)
    } else if s[0] != 3 {
        Err(Error::UnsupportedPacketVersion(s[0]))
    } else if s.len() < 13 {
        Err(Error::TruncatedInput)
    } else {
        Ok((s[1], s[2], s[3], s.subrange(4, 12), s[12]))
    }
}

/// The initialization-vector length of an AEAD algorithm: sixteen
/// octets for EAX, fifteen for OCB; other values are not known.
pub open spec fn spec_aead_iv_len(algo: u8) -> Option<int> {
    if algo == 1 {
        Some(16)
    } else if algo == 2 {
        Some(15)
    } else {
        None
    }
}

/// What decoding a version 4 or 5 SKESK body yields: version,
/// symmetric algorithm, S2K fields, AEAD algorithm and IV (version 5
/// only), and the offset where the encrypted session key begins.
pub open spec fn spec_skesk(s: Seq<u8>) -> Result<
    (u8, u8, (u8, u8, Seq<u8>, u8), u8, Seq<u8>, int),
    Error,
> {
    if s.len() < 1 {
        Err(Error::TruncatedInput)
    } else if s[0] == 4 {
        if s.len() < 2 {
            Err(Error::TruncatedInput)
        } else {
            match spec_s2k(s.skip(2)) {
                Err(e) => Err(e),
                Ok((typ, hash, salt, count, used)) => Ok(
                    (4u8, s[1], (typ, hash, salt, count), 0u8, Seq::empty(), 2 + used),
                ),
            }
        }
    } else if s[0] == 5 {
        if s.len() < 3 {
            Err(Error::TruncatedInput)
        } else {
            match spec_s2k(s.skip(3)) {
                Err(e) => Err(e),
                Ok((typ, hash, salt, count, used)) => match spec_aead_iv_len(s[2]) {
                    None => Err(Error::MalformedPacket),
                    Some(ivl) => if s.len() < 3 + used + ivl {
                        Err(Error::TruncatedInput)
                    } else {
                        Ok(
                            (
                                5u8,
                                s[1],
                                (typ, hash, salt, count),
                                s[2],
                                s.subrange(3 + used, 3 + used + ivl),
                                3 + used + ivl,
                            ),
                        )
                    },
                },
            }
        }
    } else {
        Err(Error::UnsupportedPacketVersion(s[0]))
    }
}

/// What decoding a version 1 AEAD-encrypted-data body yields: the
/// algorithms, the coded chunk size, the IV, and the offset where
/// the ciphertext begins.
pub open spec fn spec_aed(s: Seq<u8>) -> Result<(u8, u8, u8, Seq<u8>, int), Error> {
    if s.len() < 4 {
        Err(Error::TruncatedInput)
    } else if s[0] != 1 {
        Err(Error::UnsupportedPacketVersion(s[0]))
    } else {
        match spec_aead_iv_len(s[2]) {
            None => Err(Error::MalformedPacket),
            Some(ivl) => if s.len() < 4 + ivl {
                Err(Error::TruncatedInput)
            } else {
                Ok((s[1], s[2], s[3], s.subrange(4, 4 + ivl), 4 + ivl))
            },
        }
    }
}

/// What decoding a marker body yields: the three octets `PGP`, and
/// the offset past them.  RFC 4880 section 5.8.
pub open spec fn spec_marker(s: Seq<u8>) -> Result<int, Error> {
    if s.len() < 3 {
        Err(Error::TruncatedInput)
    } else if s[0] == 0x50 && s[1] == 0x47 && s[2] == 0x50 {
        Ok(3)
    } else {
        Err(Error::MalformedPacket)
    }
}

/// What decoding an MDC body yields: the twenty digest octets.
pub open spec fn spec_mdc(s: Seq<u8>) -> Result<Seq<u8>, Error> {
    if s.len() < 20 {
        Err(Error::TruncatedInput)
    } else {
        Ok(s.take(20))
    }
}

/// What decoding a version 1 SEIP body yields: only the version
/// octet is structured; the ciphertext follows.
pub open spec fn spec_seip(s: Seq<u8>) -> Result<int, Error> {
    if s.len() < 1 {
        Err(Error::TruncatedInput)
    } else if s[0] != 1 {
        Err(Error::UnsupportedPacketVersion(s[0]))
    } else {
        Ok(1)
    }
}

/// What decoding a compressed-data body yields: the algorithm
/// octet; the compressed content follows.
pub open spec fn spec_compressed(s: Seq<u8>) -> Result<u8, Error> {
    if s.len() < 1 {
        Err(Error::TruncatedInput)
    } else {
        Ok(s[0])
    }
}

/// The one statement the whole body-decoding layer makes: given a
/// packet's tag and its de-chunked body, which typed packet comes
/// out, with which unread remainder.  A body its decoder cannot take
/// becomes an `Unknown` packet that keeps the body byte for byte and
/// records the reason; the stream is never aborted from here.
pub open spec fn body_decoded(tag: Tag, s: Seq<u8>, p: Packet, rest: Seq<u8>) -> bool {
    match tag {
        Tag::Signature => match spec_signature(s) {
            Ok((sigtype, pk, hash, hashed, unhashed, digest, mpis)) => {
                &&& p matches Packet::Signature(Signature::V4(g))
                &&& g.sigtype == sigtype
                &&& g.pk_algo == pk
                &&& g.hash_algo == hash
                &&& g.hashed_area@ == hashed
                &&& g.unhashed_area@ == unhashed
                &&& g.digest_prefix@ == digest
                &&& g.mpis@ == mpis
                &&& g.common.children is None
                &&& g.common.body is None
                &&& rest.len() == 0
            },
            Err(e) => unknown_downgrade(p, tag, s, e) && rest.len() == 0,
        },
        Tag::OnePassSig => match spec_one_pass_sig(s) {
            Ok((sigtype, hash, pk, issuer, last)) => {
                &&& p matches Packet::OnePassSig(OnePassSig::V3(g))
                &&& g.sigtype == sigtype
                &&& g.hash_algo == hash
                &&& g.pk_algo == pk
                &&& g.issuer@ == issuer
                &&& g.last == last
                &&& g.common.children is None
                &&& g.common.body is None
                &&& rest == s.skip(13)
            },
            Err(e) => unknown_downgrade(p, tag, s, e) && rest.len() == 0,
        },
        Tag::PublicKey | Tag::PublicSubkey | Tag::SecretKey | Tag::SecretSubkey => {
            let secret = tag == Tag::SecretKey || tag == Tag::SecretSubkey;
            match spec_key(s, secret) {
                Ok((time, algo, mpis, sk)) => {
                    &&& (match p {
                        Packet::PublicKey(Key::V4(g)) => tag == Tag::PublicKey && key4_decoded(
                            g,
                            time,
                            algo,
                            mpis,
                            sk,
                        ),
                        Packet::PublicSubkey(Key::V4(g)) => tag == Tag::PublicSubkey
                            && key4_decoded(g, time, algo, mpis, sk),
                        Packet::SecretKey(Key::V4(g)) => tag == Tag::SecretKey && key4_decoded(
                            g,
                            time,
                            algo,
                            mpis,
                            sk,
                        ),
                        Packet::SecretSubkey(Key::V4(g)) => tag == Tag::SecretSubkey
                            && key4_decoded(g, time, algo, mpis, sk),
                        _ => false,
                    })
                    &&& rest.len() == 0
                },
                Err(e) => unknown_downgrade(p, tag, s, e) && rest.len() == 0,
            }
        },
        Tag::Marker => match spec_marker(s) {
            Ok(n) => {
                &&& p matches Packet::Marker(g)
                &&& g.common.children is None
                &&& g.common.body is None
                &&& rest == s.skip(n)
            },
            Err(e) => unknown_downgrade(p, tag, s, e) && rest.len() == 0,
        },
        Tag::Trust => {
            &&& p matches Packet::Trust(g)
            &&& g.value@ == s
            &&& g.common.children is None
            &&& g.common.body is None
            &&& rest.len() == 0
        },
        Tag::UserID => {
            &&& p matches Packet::UserID(g)
            &&& g.value@ == s
            &&& g.common.children is None
            &&& g.common.body is None
            &&& rest.len() == 0
        },
        Tag::UserAttribute => {
            &&& p matches Packet::UserAttribute(g)
            &&& g.value@ == s
            &&& g.common.children is None
            &&& g.common.body is None
            &&& rest.len() == 0
        },
        Tag::Literal => match spec_literal(s) {
            Ok((format, filename, date, ds)) => {
                &&& p matches Packet::Literal(g)
                &&& g.format == format
                &&& g.filename@ == filename
                &&& g.date == date
                &&& g.common.children is None
                &&& g.common.body is None
                &&& rest == s.skip(ds)
            },
            Err(e) => unknown_downgrade(p, tag, s, e) && rest.len() == 0,
        },
        Tag::CompressedData => match spec_compressed(s) {
            Ok(algo) => {
                &&& p matches Packet::CompressedData(g)
                &&& g.algo == algo
                &&& g.common.children is None
                &&& g.common.body is None
                &&& rest == s.skip(1)
            },
            Err(e) => unknown_downgrade(p, tag, s, e) && rest.len() == 0,
        },
        Tag::PKESK => match spec_pkesk(s) {
            Ok((recipient, pk, esk)) => {
                &&& p matches Packet::PKESK(PKESK::V3(g))
                &&& g.recipient@ == recipient
                &&& g.pk_algo == pk
                &&& g.esk@ == esk
                &&& g.common.children is None
                &&& g.common.body is None
                &&& rest.len() == 0
            },
            Err(e) => unknown_downgrade(p, tag, s, e) && rest.len() == 0,
        },
        Tag::SKESK => match spec_skesk(s) {
            Ok((version, sym, s2k, aead, iv, esk_start)) => {
                &&& (match p {
                    Packet::SKESK(SKESK::V4(g)) => {
                        &&& version == 4
                        &&& g.sym_algo == sym
                        &&& s2k_matches(g.s2k, s2k.0, s2k.1, s2k.2, s2k.3)
                        &&& g.esk@ == s.skip(esk_start)
                        &&& g.common.children is None
                        &&& g.common.body is None
                    },
                    Packet::SKESK(SKESK::V5(g)) => {
                        &&& version == 5
                        &&& g.skesk4.sym_algo == sym
                        &&& s2k_matches(g.skesk4.s2k, s2k.0, s2k.1, s2k.2, s2k.3)
                        &&& g.aead_algo == aead
                        &&& g.aead_iv@ == iv
                        &&& g.skesk4.esk@ == s.skip(esk_start)
                        &&& g.skesk4.common.children is None
                        &&& g.skesk4.common.body is None
                    },
                    _ => false,
                })
                &&& rest.len() == 0
            },
            Err(e) => unknown_downgrade(p, tag, s, e) && rest.len() == 0,
        },
        Tag::SEIP => match spec_seip(s) {
            Ok(n) => {
                &&& p matches Packet::SEIP(SEIP::V1(g))
                &&& g.common.children is None
                &&& g.common.body is None
                &&& rest == s.skip(n)
            },
            Err(e) => unknown_downgrade(p, tag, s, e) && rest.len() == 0,
        },
        Tag::MDC => match spec_mdc(s) {
            Ok(hash) => {
                &&& p matches Packet::MDC(g)
                &&& g.hash@ == hash
                &&& g.common.children is None
                &&& g.common.body is None
                &&& rest == s.skip(20)
            },
            Err(e) => unknown_downgrade(p, tag, s, e) && rest.len() == 0,
        },
        Tag::AED => match spec_aed(s) {
            Ok((sym, aead, chunk, iv, ds)) => {
                &&& p matches Packet::AED(AED::V1(g))
                &&& g.sym_algo == sym
                &&& g.aead_algo == aead
                &&& g.chunk_size == chunk
                &&& g.iv@ == iv
                &&& g.common.children is None
                &&& g.common.body is None
                &&& rest == s.skip(ds)
            },
            Err(e) => unknown_downgrade(p, tag, s, e) && rest.len() == 0,
        },
        Tag::Unknown(_) => unknown_downgrade(p, tag, s, Error::UnknownPacketTag) && rest.len()
            == 0,
    }
}

/// Whether a key packet records exactly the decoded key fields.
pub open spec fn key4_decoded(
    g: Key4,
    time: u32,
    algo: u8,
    mpis: Seq<u8>,
    sk: Option<Seq<u8>>,
) -> bool {
    &&& g.creation_time == time
    &&& g.pk_algo == algo
    &&& g.mpis@ == mpis
    &&& (match (g.secret, sk) {
        (Some(a), Some(b)) => a@ == b,
        (None, None) => true,
        _ => false,
    })
    &&& g.common.children is None
    &&& g.common.body is None
}

/// Decodes a literal-data body.
pub fn parse_literal(v: &Vec<u8>) -> (r: Result<(Packet, Vec<u8>), Error>)
    ensures
        match spec_literal(v@) {
            Ok(_) => r matches Ok((p, rest)) && body_decoded(Tag::Literal, v@, p, rest@),
            Err(e) => r == Err::<(Packet, Vec<u8>), Error>(e),
        },
{
    if v.len() < 2 {
        return Err(Error::TruncatedInput);
    }
    let n = v[1] as usize;
    if v.len() < 6 + n {
        return Err(Error::TruncatedInput);
    }
    let filename = copy_range(v, 2, 2 + n);
    let date = (v[2 + n] as u32) * 0x1000000 + (v[3 + n] as u32) * 0x10000 + (v[4 + n] as u32)
        * 0x100 + (v[5 + n] as u32);
    let rest = copy_range(v, 6 + n, v.len());
    proof {
        assert(rest@ =~= v@.skip(6 + n as int));
    }
    let p = Packet::Literal(
        Literal { common: Common::empty(), format: v[0], filename, date },
    );
    Ok((p, rest))
}

/// Decodes a compressed-data body down to its algorithm octet; the
/// content that follows is the remainder.
pub fn parse_compressed(v: &Vec<u8>) -> (r: Result<(Packet, Vec<u8>), Error>)
    ensures
        match spec_compressed(v@) {
            Ok(_) => r matches Ok((p, rest)) && body_decoded(Tag::CompressedData, v@, p, rest@),
            Err(e) => r == Err::<(Packet, Vec<u8>), Error>(e),
        },
{
    if v.len() < 1 {
        return Err(Error::TruncatedInput);
    }
    let rest = copy_range(v, 1, v.len());
    proof {
        assert(rest@ =~= v@.skip(1));
    }
    Ok((Packet::CompressedData(CompressedData { common: Common::empty(), algo: v[0] }), rest))
}

/// Decodes a marker body: exactly the octets `PGP`.
pub fn parse_marker(v: &Vec<u8>) -> (r: Result<(Packet, Vec<u8>), Error>)
    ensures
        match spec_marker(v@) {
            Ok(_) => r matches Ok((p, rest)) && body_decoded(Tag::Marker, v@, p, rest@),
            Err(e) => r == Err::<(Packet, Vec<u8>), Error>(e),
        },
{
    if v.len() < 3 {
        return Err(Error::TruncatedInput);
    }
    if !(v[0] == 0x50 && v[1] == 0x47 && v[2] == 0x50) {
        return Err(Error::MalformedPacket);
    }
    let rest = copy_range(v, 3, v.len());
    proof {
        assert(rest@ =~= v@.skip(3));
    }
    Ok((Packet::Marker(Marker { common: Common::empty() }), rest))
}

/// Decodes an MDC body: the twenty digest octets.
pub fn parse_mdc(v: &Vec<u8>) -> (r: Result<(Packet, Vec<u8>), Error>)
    ensures
        match spec_mdc(v@) {
            Ok(_) => r matches Ok((p, rest)) && body_decoded(Tag::MDC, v@, p, rest@),
            Err(e) => r == Err::<(Packet, Vec<u8>), Error>(e),
        },
{
    if v.len() < 20 {
        return Err(Error::TruncatedInput);
    }
    let hash = copy_range(v, 0, 20);
    let rest = copy_range(v, 20, v.len());
    proof {
        assert(hash@ =~= v@.take(20));
        assert(rest@ =~= v@.skip(20));
    }
    Ok((Packet::MDC(MDC { common: Common::empty(), hash }), rest))
}

/// Decodes a version 1 SEIP body; the ciphertext is the remainder.
pub fn parse_seip(v: &Vec<u8>) -> (r: Result<(Packet, Vec<u8>), Error>)
    ensures
        match spec_seip(v@) {
            Ok(_) => r matches Ok((p, rest)) && body_decoded(Tag::SEIP, v@, p, rest@),
            Err(e) => r == Err::<(Packet, Vec<u8>), Error>(e),
        },
{
    if v.len() < 1 {
        return Err(Error::TruncatedInput);
    }
    if v[0] != 1 {
        return Err(Error::UnsupportedPacketVersion(v[0]));
    }
    let rest = copy_range(v, 1, v.len());
    proof {
        assert(rest@ =~= v@.skip(1));
    }
    Ok((Packet::SEIP(SEIP::V1(SEIP1 { common: Common::empty() })), rest))
}

/// Decodes a version 1 AEAD-encrypted-data body; the ciphertext is
/// the remainder.
pub fn parse_aed(v: &Vec<u8>) -> (r: Result<(Packet, Vec<u8>), Error>)
    ensures
        match spec_aed(v@) {
            Ok(_) => r matches Ok((p, rest)) && body_decoded(Tag::AED, v@, p, rest@),
            Err(e) => r == Err::<(Packet, Vec<u8>), Error>(e),
        },
{
    if v.len() < 4 {
        return Err(Error::TruncatedInput);
    }
    if v[0] != 1 {
        return Err(Error::UnsupportedPacketVersion(v[0]));
    }
    let ivl: usize = if v[2] == 1 {
        16
    } else if v[2] == 2 {
        15
    } else {
        return Err(Error::MalformedPacket);
    };
    if v.len() < 4 + ivl {
        return Err(Error::TruncatedInput);
    }
    let iv = copy_range(v, 4, 4 + ivl);
    let rest = copy_range(v, 4 + ivl, v.len());
    proof {
        assert(rest@ =~= v@.skip(4 + ivl as int));
    }
    Ok(
        (
            Packet::AED(
                AED::V1(
                    AED1 {
                        common: Common::empty(),
                        sym_algo: v[1],
                        aead_algo: v[2],
                        chunk_size: v[3],
                        iv,
                    },
                ),
            ),
            rest,
        ),
    )
}

/// Decodes a version 4 signature body.
pub fn parse_signature(v: &Vec<u8>) -> (r: Result<(Packet, Vec<u8>), Error>)
    ensures
        match spec_signature(v@) {
            Ok(_) => r matches Ok((p, rest)) && body_decoded(Tag::Signature, v@, p, rest@),
            Err(e) => r == Err::<(Packet, Vec<u8>), Error>(e),
        },
{
    if v.len() < 1 {
        return Err(Error::TruncatedInput);
    }
    if v[0] != 4 {
        return Err(Error::UnsupportedPacketVersion(v[0]));
    }
    if v.len() < 6 {
        return Err(Error::TruncatedInput);
    }
    let hl: usize = (v[4] as usize) * 256 + (v[5] as usize);
    if v.len() < 8 + hl {
        return Err(Error::TruncatedInput);
    }
    let ul: usize = (v[6 + hl] as usize) * 256 + (v[7 + hl] as usize);
    if v.len() < 10 + hl + ul {
        return Err(Error::TruncatedInput);
    }
    if !mpi_run_all(v, 10 + hl + ul) {
        return Err(Error::MalformedMPI);
    }
    let hashed_area = copy_range(v, 6, 6 + hl);
    let unhashed_area = copy_range(v, 8 + hl, 8 + hl + ul);
    let digest_prefix = copy_range(v, 8 + hl + ul, 10 + hl + ul);
    let mpis = copy_range(v, 10 + hl + ul, v.len());
    proof {
        assert(mpis@ =~= v@.skip(10 + hl as int + ul as int));
    }
    Ok(
        (
            Packet::Signature(
                Signature::V4(
                    Signature4 {
                        common: Common::empty(),
                        sigtype: v[1],
                        pk_algo: v[2],
                        hash_algo: v[3],
                        hashed_area,
                        unhashed_area,
                        digest_prefix,
                        mpis,
                    },
                ),
            ),
            Vec::new(),
        ),
    )
}

/// Decodes a version 3 one-pass-signature body.
pub fn parse_one_pass_sig(v: &Vec<u8>) -> (r: Result<(Packet, Vec<u8>), Error>)
    ensures
        match spec_one_pass_sig(v@) {
            Ok(_) => r matches Ok((p, rest)) && body_decoded(Tag::OnePassSig, v@, p, rest@),
            Err(e) => r == Err::<(Packet, Vec<u8>), Error>(e),
        },
{
    if v.len() < 1 {
        return Err(Error::TruncatedInput);
    }
    if v[0] != 3 {
        return Err(Error::UnsupportedPacketVersion(v[0]));
    }
    if v.len() < 13 {
        return Err(Error::TruncatedInput);
    }
    let issuer = copy_range(v, 4, 12);
    let rest = copy_range(v, 13, v.len());
    proof {
        assert(rest@ =~= v@.skip(13));
    }
    Ok(
        (
            Packet::OnePassSig(
                OnePassSig::V3(
                    OnePassSig3 {
                        common: Common::empty(),
                        sigtype: v[1],
                        hash_algo: v[2],
                        pk_algo: v[3],
                        issuer,
                        last: v[12],
                    },
                ),
            ),
            rest,
        ),
    )
}

/// Decodes a version 3 PKESK body.
pub fn parse_pkesk(v: &Vec<u8>) -> (r: Result<(Packet, Vec<u8>), Error>)
    ensures
        match spec_pkesk(v@) {
            Ok(_) => r matches Ok((p, rest)) && body_decoded(Tag::PKESK, v@, p, rest@),
            Err(e) => r == Err::<(Packet, Vec<u8>), Error>(e),
        },
{
    if v.len() < 1 {
        return Err(Error::TruncatedInput);
    }
    if v[0] != 3 {
        return Err(Error::UnsupportedPacketVersion(v[0]));
    }
    if v.len() < 10 {
        return Err(Error::TruncatedInput);
    }
    if !mpi_run_all(v, 10) {
        return Err(Error::MalformedMPI);
    }
    let recipient = copy_range(v, 1, 9);
    let esk = copy_range(v, 10, v.len());
    proof {
        assert(esk@ =~= v@.skip(10));
    }
    Ok(
        (
            Packet::PKESK(
                PKESK::V3(PKESK3 { common: Common::empty(), recipient, pk_algo: v[9], esk }),
            ),
            Vec::new(),
        ),
    )
}

/// Decodes a version 4 key body; `tag` picks which of the four key
/// packet kinds the result is.
pub fn parse_key(v: &Vec<u8>, tag: Tag) -> (r: Result<(Packet, Vec<u8>), Error>)
    requires
        tag == Tag::PublicKey || tag == Tag::PublicSubkey || tag == Tag::SecretKey || tag
            == Tag::SecretSubkey,
    ensures
        match spec_key(
            v@,
            tag == Tag::SecretKey || tag == Tag::SecretSubkey,
        ) {
            Ok(_) => r matches Ok((p, rest)) && body_decoded(tag, v@, p, rest@),
            Err(e) => r == Err::<(Packet, Vec<u8>), Error>(e),
        },
{
    let secret = match tag {
        Tag::SecretKey | Tag::SecretSubkey => true,
        _ => false,
    };
    if v.len() < 6 {
        return Err(Error::TruncatedInput);
    }
    if v[0] != 4 {
        return Err(Error::UnsupportedPacketVersion(v[0]));
    }
    let time = (v[1] as u32) * 0x1000000 + (v[2] as u32) * 0x10000 + (v[3] as u32) * 0x100 + (
    v[4] as u32);
    let algo = v[5];
    let key = if secret {
        let k: usize = if algo == 1 || algo == 2 || algo == 3 {
            2
        } else if algo == 16 || algo == 20 {
            3
        } else if algo == 17 {
            4
        } else {
            return Err(Error::MalformedPacket);
        };
        let end = match mpi_run_end(v, 6, k) {
            Ok(end) => end,
            Err(e) => {
                return Err(e);
            },
        };
        let mpis = copy_range(v, 6, end);
        let sk = copy_range(v, end, v.len());
        proof {
            let rem = v@.skip(6);
            let n = spec_mpi_run(rem, k as nat)->Ok_0;
            assert(mpis@ =~= rem.take(n));
            assert(sk@ =~= rem.skip(n));
        }
        Key4 { common: Common::empty(), creation_time: time, pk_algo: algo, mpis, secret: Some(sk) }
    } else {
        if !mpi_run_all(v, 6) {
            return Err(Error::MalformedMPI);
        }
        let mpis = copy_range(v, 6, v.len());
        proof {
            assert(mpis@ =~= v@.skip(6));
        }
        Key4 { common: Common::empty(), creation_time: time, pk_algo: algo, mpis, secret: None }
    };
    let p = match tag {
        Tag::PublicKey => Packet::PublicKey(Key::V4(key)),
        Tag::PublicSubkey => Packet::PublicSubkey(Key::V4(key)),
        Tag::SecretKey => Packet::SecretKey(Key::V4(key)),
        _ => Packet::SecretSubkey(Key::V4(key)),
    };
    Ok((p, Vec::new()))
}

/// Decodes a version 4 or version 5 SKESK body.
pub fn parse_skesk(v: &Vec<u8>) -> (r: Result<(Packet, Vec<u8>), Error>)
    ensures
        match spec_skesk(v@) {
            Ok(_) => r matches Ok((p, rest)) && body_decoded(Tag::SKESK, v@, p, rest@),
            Err(e) => r == Err::<(Packet, Vec<u8>), Error>(e),
        },
{
    if v.len() < 1 {
        return Err(Error::TruncatedInput);
    }
    if v[0] == 4 {
        if v.len() < 2 {
            return Err(Error::TruncatedInput);
        }
        let (s2k, end) = match parse_s2k(v, 2) {
            Ok(x) => x,
            Err(e) => {
                return Err(e);
            },
        };
        let esk = copy_range(v, end, v.len());
        proof {
            assert(esk@ =~= v@.skip(end as int));
        }
        Ok(
            (
                Packet::SKESK(
                    SKESK::V4(SKESK4 { common: Common::empty(), sym_algo: v[1], s2k, esk }),
                ),
                Vec::new(),
            ),
        )
    } else if v[0] == 5 {
        if v.len() < 3 {
            return Err(Error::TruncatedInput);
        }
        let (s2k, end) = match parse_s2k(v, 3) {
            Ok(x) => x,
            Err(e) => {
                return Err(e);
            },
        };
        let ivl: usize = if v[2] == 1 {
            16
        } else if v[2] == 2 {
            15
        } else {
            return Err(Error::MalformedPacket);
        };
        if v.len() - end < ivl {
            return Err(Error::TruncatedInput);
        }
        let aead_iv = copy_range(v, end, end + ivl);
        let esk = copy_range(v, end + ivl, v.len());
        proof {
            let used = spec_s2k(v@.skip(3))->Ok_0.4;
            assert(aead_iv@ =~= v@.subrange(3 + used, 3 + used + ivl as int));
            assert(esk@ =~= v@.skip(3 + used + ivl as int));
        }
        Ok(
            (
                Packet::SKESK(
                    SKESK::V5(
                        SKESK5 {
                            skesk4: SKESK4 {
                                common: Common::empty(),
                                sym_algo: v[1],
                                s2k,
                                esk,
                            },
                            aead_algo: v[2],
                            aead_iv,
                        },
                    ),
                ),
                Vec::new(),
            ),
        )
    } else {
        Err(Error::UnsupportedPacketVersion(v[0]))
    }
}

/// Wraps an undecodable body into an `Unknown` packet, keeping it
/// byte for byte.
pub fn make_unknown(tag: Tag, body: Vec<u8>, error: Error) -> (p: Packet)
    ensures
        unknown_downgrade(p, tag, body@, error),
{
    proof {
        if body@.len() == 0 {
            assert(body@ =~= Seq::<u8>::empty());
        }
    }
    let b = if body.len() == 0 {
        None
    } else {
        Some(body)
    };
    Packet::Unknown(Unknown { common: Common { children: None, body: b }, tag, error })
}

/// Decodes one packet body, given the tag its header named.  The
/// returned remainder is what the typed fields do not cover: the
/// literal data, a container's content, or trailing octets.  A body
/// the decoder cannot take comes back as an `Unknown` packet with
/// the body kept verbatim; this function never fails.
pub fn parse_body(tag: Tag, body: Vec<u8>) -> (r: (Packet, Vec<u8>))
    ensures
        body_decoded(tag, body@, r.0, r.1@),
        r.0.spec_tag() == tag,
        r.0.spec_common().children is None,
{
    let outcome = match tag {
        Tag::Signature => parse_signature(&body),
        Tag::OnePassSig => parse_one_pass_sig(&body),
        Tag::PublicKey | Tag::PublicSubkey | Tag::SecretKey | Tag::SecretSubkey => parse_key(
            &body,
            tag,
        ),
        Tag::Marker => parse_marker(&body),
        Tag::Trust => Ok(
            (
                Packet::Trust(Trust { common: Common::empty(), value: copy_range(&body, 0, body.len()) }),
                Vec::new(),
            ),
        ),
        Tag::UserID => Ok(
            (
                Packet::UserID(UserID { common: Common::empty(), value: copy_range(&body, 0, body.len()) }),
                Vec::new(),
            ),
        ),
        Tag::UserAttribute => Ok(
            (
                Packet::UserAttribute(
                    UserAttribute { common: Common::empty(), value: copy_range(&body, 0, body.len()) },
                ),
                Vec::new(),
            ),
        ),
        Tag::Literal => parse_literal(&body),
        Tag::CompressedData => parse_compressed(&body),
        Tag::PKESK => parse_pkesk(&body),
        Tag::SKESK => parse_skesk(&body),
        Tag::SEIP => parse_seip(&body),
        Tag::MDC => parse_mdc(&body),
        Tag::AED => parse_aed(&body),
        Tag::Unknown(_) => Err(Error::UnknownPacketTag),
    };
    proof {
        assert(body@.subrange(0, body@.len() as int) =~= body@);
    }
    match outcome {
        Ok((p, rest)) => (p, rest),
        Err(e) => (make_unknown(tag, body, e), Vec::new()),
    }
}

} // verus!

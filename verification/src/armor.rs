//! ASCII armor: the textual encoding of a binary packet stream.
//!
//! RFC 4880 section 6.  An armored stream is a `-----BEGIN PGP
//! <KIND>-----` line, optional `Key: Value` header lines, a blank
//! line, Base64 body lines, an optional checksum line holding `=`
//! and four Base64 digits of a CRC-24, and a `-----END PGP
//! <KIND>-----` line.

use vstd::prelude::*;

use crate::error::Error;

verus! {

/// What an armored block claims to carry.
#[derive(Debug, Clone, Copy, PartialEq, Eq, Structural, Hash)]
pub enum Kind {
    /// `MESSAGE`: an OpenPGP message.
    Message,
    /// `PUBLIC KEY BLOCK`: a transferable public key.
    PublicKey,
    /// `PRIVATE KEY BLOCK`: a transferable secret key.
    SecretKey,
    /// `SIGNATURE`: a detached signature.
    Signature,
    /// `ARMORED FILE`: arbitrary armored data.
    File,
}

/// How strictly the armor reader holds the input to the framing.
#[derive(Debug, Clone, Copy, PartialEq, Eq, Structural, Hash)]
pub enum ReaderMode {
    /// Accept any armor kind, or only the named one.
    Tolerant(Option<Kind>),
    /// Accept any armor kind at all.
    VeryTolerant,
}

impl Default for ReaderMode {
    /// The default mode accepts any armor kind.
    fn default() -> (r: ReaderMode)
        ensures
            r == ReaderMode::Tolerant(None::<Kind>),
    {
        ReaderMode::Tolerant(None)
    }
}

/// One step of the CRC-24: shift one bit in and reduce by the
/// polynomial 0x864CFB.
pub open spec fn spec_crc24_shift(crc: u32) -> u32 {
    if (crc << 1) & 0x1000000 != 0 {
        ((crc << 1) ^ 0x1864CFB) as u32
    } else {
        (crc << 1) as u32
    }
}

/// `k` CRC-24 bit steps.
pub open spec fn spec_crc24_bits(crc: u32, k: nat) -> u32
    decreases k,
{
    if k == 0 {
        crc
    } else {
        spec_crc24_bits(spec_crc24_shift(crc), (k - 1) as nat)
    }
}

/// Folds one byte into the CRC-24 state.
pub open spec fn spec_crc24_byte(crc: u32, b: u8) -> u32 {
    spec_crc24_bits((crc ^ ((b as u32) << 16)) as u32, 8)
}

/// The CRC-24 of the bytes `s` folded onto the state `crc`.
pub open spec fn spec_crc24_fold(crc: u32, s: Seq<u8>) -> u32
    decreases s.len(),
{
    if s.len() == 0 {
        crc
    } else {
        spec_crc24_fold(spec_crc24_byte(crc, s[0]), s.skip(1))
    }
}

/// The CRC-24 of `s`: polynomial 0x864CFB, initial value 0xB704CE,
/// reduced to 24 bits.
pub open spec fn spec_crc24(s: Seq<u8>) -> u32 {
    (spec_crc24_fold(0xB704CE, s) & 0xFFFFFF) as u32
}

/// Computes the CRC-24 of a buffer.
pub fn crc24(v: &Vec<u8>) -> (r: u32)
    ensures
        r == spec_crc24(v@),
{
    let mut crc: u32 = 0xB704CE;
    let mut i: usize = 0;
    proof {
        assert(v@.take(0) =~= Seq::<u8>::empty());
    }
    while i < v.len()
        invariant
            i <= v@.len(),
            crc == spec_crc24_fold(0xB704CE, v@.take(i as int)),
            crc < 0x1000000,
        decreases v@.len() - i,
    {
        let ghost fold_pre = crc;
        crc = crc ^ ((v[i] as u32) << 16);
        let ghost start = crc;
        proof {
            let b = v@[i as int] as u32;
            assert(fold_pre < 0x1000000 && b < 256 ==> (fold_pre ^ (b << 16)) < 0x1000000)
                by (bit_vector);
        }
        let mut k: usize = 0;
        while k < 8
            invariant
                k <= 8,
                crc == spec_crc24_bits(start, k as nat),
                crc < 0x1000000,
                start == spec_crc24_bits(start, 0),
            decreases 8 - k,
        {
            proof {
                lemma_crc24_bits_step(start, k as nat);
                lemma_crc24_shift_bound(crc);
            }
            crc = crc << 1;
            if crc & 0x1000000 != 0 {
                crc = crc ^ 0x1864CFB;
            }
            k = k + 1;
        }
        proof {
            let x = v@[i as int];
            let single = seq![x];
            assert(v@.take(i as int + 1) =~= v@.take(i as int) + single);
            lemma_crc24_fold_concat(0xB704CE, v@.take(i as int), single);
            assert(single.skip(1) =~= Seq::<u8>::empty());
            assert(single[0] == x);
            assert(spec_crc24_fold(fold_pre, single) == spec_crc24_fold(
                spec_crc24_byte(fold_pre, x),
                single.skip(1),
            ));
            assert(spec_crc24_fold(spec_crc24_byte(fold_pre, x), Seq::<u8>::empty())
                == spec_crc24_byte(fold_pre, x));
            assert(start == (fold_pre ^ ((x as u32) << 16)) as u32);
            assert(spec_crc24_byte(fold_pre, x) == spec_crc24_bits(start, 8));
            assert(crc == spec_crc24_bits(start, 8));
        }
        i = i + 1;
    }
    proof {
        assert(v@.take(v@.len() as int) =~= v@);
        assert(crc < 0x1000000 ==> (crc & 0xFFFFFF) == crc) by (bit_vector);
    }
    crc & 0xFFFFFF
}

/// One reduction step keeps the state within twenty-four bits.
pub proof fn lemma_crc24_shift_bound(c: u32)
    requires
        c < 0x1000000,
    ensures
        spec_crc24_shift(c) < 0x1000000,
{
    assert(((c << 1) & 0x1000000 != 0 ==> ((c << 1) ^ 0x1864CFB) < 0x1000000) && ((c << 1)
        & 0x1000000 == 0 ==> (c << 1) < 0x1000000)) by (bit_vector)
        requires
            c < 0x1000000,
    ;
}

/// Unfolds one bit step of the CRC.
pub proof fn lemma_crc24_bits_step(c: u32, k: nat)
    ensures
        spec_crc24_bits(c, k + 1) == spec_crc24_shift(spec_crc24_bits(c, k)),
    decreases k,
{
    assert(spec_crc24_bits(c, k + 1) == spec_crc24_bits(spec_crc24_shift(c), k));
    if k == 0 {
        assert(spec_crc24_bits(spec_crc24_shift(c), 0) == spec_crc24_shift(c));
        assert(spec_crc24_bits(c, 0) == c);
    } else {
        lemma_crc24_bits_step(spec_crc24_shift(c), (k - 1) as nat);
        assert(spec_crc24_bits(spec_crc24_shift(c), k) == spec_crc24_shift(
            spec_crc24_bits(spec_crc24_shift(c), (k - 1) as nat),
        ));
        assert(spec_crc24_bits(c, k) == spec_crc24_bits(spec_crc24_shift(c), (k - 1) as nat));
    }
}

/// Folding a concatenation folds the two parts in turn.
pub proof fn lemma_crc24_fold_concat(init: u32, a: Seq<u8>, b: Seq<u8>)
    ensures
        spec_crc24_fold(init, a + b) == spec_crc24_fold(spec_crc24_fold(init, a), b),
    decreases a.len(),
{
    if a.len() == 0 {
        assert(a + b =~= b);
    } else {
        assert((a + b)[0] == a[0]);
        assert((a + b).skip(1) =~= a.skip(1) + b);
        lemma_crc24_fold_concat(spec_crc24_byte(init, a[0]), a.skip(1), b);
    }
}

/// The Base64 value of a character, if it has one.
pub open spec fn spec_b64_val(c: u8) -> Option<u8> {
    if 65 <= c <= 90 {
        Some((c - 65) as u8)  // A-Z

    } else if 97 <= c <= 122 {
        Some((c - 71) as u8)  // a-z

    } else if 48 <= c <= 57 {
        Some((c + 4) as u8)  // 0-9

    } else if c == 43 {
        Some(62u8)  // +

    } else if c == 47 {
        Some(63u8)  // /

    } else {
        None
    }
}

/// The character of a six-bit Base64 value.
pub open spec fn spec_b64_char(v: u8) -> u8
    recommends
        v < 64,
{
    if v < 26 {
        (65 + v) as u8
    } else if v < 52 {
        (71 + v) as u8
    } else if v < 62 {
        (v - 4) as u8
    } else if v == 62 {
        43u8
    } else {
        47u8
    }
}

/// Looks up the Base64 value of a character.
pub fn b64_val(c: u8) -> (r: Option<u8>)
    ensures
        r == spec_b64_val(c),
{
    if 65 <= c && c <= 90 {
        Some(c - 65)
    } else if 97 <= c && c <= 122 {
        Some(c - 71)
    } else if 48 <= c && c <= 57 {
        Some(c + 4)
    } else if c == 43 {
        Some(62)
    } else if c == 47 {
        Some(63)
    } else {
        None
    }
}

/// Encodes a six-bit value as its Base64 character.
pub fn b64_char(v: u8) -> (r: u8)
    requires
        v < 64,
    ensures
        r == spec_b64_char(v),
{
    if v < 26 {
        65 + v
    } else if v < 52 {
        71 + v
    } else if v < 62 {
        v - 4
    } else if v == 62 {
        43
    } else {
        47
    }
}

/// What decoding a padded Base64 character run yields.  The run is
/// taken four characters at a time; a group with `=` padding must be
/// the last.
pub open spec fn spec_b64_decode(s: Seq<u8>) -> Option<Seq<u8>>
    decreases s.len(),
{
    if s.len() == 0 {
        Some(Seq::empty())
    } else if s.len() < 4 {
        None
    } else {
        match (spec_b64_val(s[0]), spec_b64_val(s[1])) {
            (Some(v0), Some(v1)) => {
                if s[2] == 61 && s[3] == 61 {
                    // Two padding characters: one byte, final group.
                    if s.len() == 4 {
                        Some(seq![((v0 << 2) | (v1 >> 4)) as u8])
                    } else {
                        None
                    }
                } else if s[3] == 61 {
                    // One padding character: two bytes, final group.
                    match spec_b64_val(s[2]) {
                        Some(v2) => if s.len() == 4 {
                            Some(
                                seq![
                                    ((v0 << 2) | (v1 >> 4)) as u8,
                                    (((v1 & 0xF) << 4) | (v2 >> 2)) as u8,
                                ],
                            )
                        } else {
                            None
                        },
                        None => None,
                    }
                } else {
                    match (spec_b64_val(s[2]), spec_b64_val(s[3])) {
                        (Some(v2), Some(v3)) => match spec_b64_decode(s.skip(4)) {
                            Some(rest) => Some(
                                seq![
                                    ((v0 << 2) | (v1 >> 4)) as u8,
                                    (((v1 & 0xF) << 4) | (v2 >> 2)) as u8,
                                    (((v2 & 0x3) << 6) | v3) as u8,
                                ] + rest,
                            ),
                            None => None,
                        },
                        _ => None,
                    }
                }
            },
            _ => None,
        }
    }
}

/// Decodes a padded Base64 character run.
pub fn b64_decode(s: &Vec<u8>) -> (r: Option<Vec<u8>>)
    ensures
        match spec_b64_decode(s@) {
            Some(b) => r is Some && r->0@ == b,
            None => r is None,
        },
{
    let mut out: Vec<u8> = Vec::new();
    let mut pos: usize = 0;
    proof {
        assert(s@.skip(0) =~= s@);
        if spec_b64_decode(s@) is Some {
            assert(Seq::<u8>::empty() + spec_b64_decode(s@)->0 =~= spec_b64_decode(s@)->0);
        }
    }
    while pos < s.len()
        invariant
            pos <= s@.len(),
            pos % 4 == 0,
            match spec_b64_decode(s@.skip(pos as int)) {
                Some(b) => spec_b64_decode(s@) == Some(out@ + b),
                None => spec_b64_decode(s@) is None,
            },
        decreases s@.len() - pos,
    {
        proof {
            assert(s@.skip(pos as int).len() == s@.len() - pos);
        }
        if s.len() - pos < 4 {
            return None;
        }
        proof {
            let t = s@.skip(pos as int);
            assert(t[0] == s@[pos as int] && t[1] == s@[pos as int + 1] && t[2] == s@[pos as int
                + 2] && t[3] == s@[pos as int + 3]);
            assert(t.skip(4) =~= s@.skip(pos as int + 4));
        }
        let v0 = match b64_val(s[pos]) {
            Some(v) => v,
            None => {
                return None;
            },
        };
        let v1 = match b64_val(s[pos + 1]) {
            Some(v) => v,
            None => {
                return None;
            },
        };
        if s[pos + 2] == 61 && s[pos + 3] == 61 {
            if s.len() != pos + 4 {
                return None;
            }
            out.push((v0 << 2) | (v1 >> 4));
            pos = pos + 4;
            proof {
                assert(s@.skip(pos as int) =~= Seq::<u8>::empty());
                let b = spec_b64_decode(s@.skip(pos as int))->0;
                assert(out@ + b =~= out@);
            }
        } else if s[pos + 3] == 61 {
            let v2 = match b64_val(s[pos + 2]) {
                Some(v) => v,
                None => {
                    return None;
                },
            };
            if s.len() != pos + 4 {
                return None;
            }
            out.push((v0 << 2) | (v1 >> 4));
            out.push(((v1 & 0xF) << 4) | (v2 >> 2));
            pos = pos + 4;
            proof {
                assert(s@.skip(pos as int) =~= Seq::<u8>::empty());
                let b = spec_b64_decode(s@.skip(pos as int))->0;
                assert(out@ + b =~= out@);
            }
        } else {
            let v2 = match b64_val(s[pos + 2]) {
                Some(v) => v,
                None => {
                    return None;
                },
            };
            let v3 = match b64_val(s[pos + 3]) {
                Some(v) => v,
                None => {
                    return None;
                },
            };
            let ghost out_pre = out@;
            out.push((v0 << 2) | (v1 >> 4));
            out.push(((v1 & 0xF) << 4) | (v2 >> 2));
            out.push(((v2 & 0x3) << 6) | v3);
            pos = pos + 4;
            proof {
                let t = s@.skip(pos as int);
                if spec_b64_decode(t) is Some {
                    let b = spec_b64_decode(t)->0;
                    assert(out@ + b =~= out_pre + (seq![
                        ((v0 << 2) | (v1 >> 4)) as u8,
                        (((v1 & 0xF) << 4) | (v2 >> 2)) as u8,
                        (((v2 & 0x3) << 6) | v3) as u8,
                    ] + b));
                }
            }
        }
    }
    proof {
        assert(s@.skip(pos as int) =~= Seq::<u8>::empty());
        let b = spec_b64_decode(s@.skip(pos as int))->0;
        assert(out@ + b =~= out@);
    }
    Some(out)
}

/// The Base64 text of `s`, grouped three bytes to four characters,
/// with `=` padding on the final group.
pub open spec fn spec_b64_encode(s: Seq<u8>) -> Seq<u8>
    decreases s.len(),
{
    if s.len() == 0 {
        Seq::empty()
    } else if s.len() == 1 {
        let b0 = s[0];
        seq![
            spec_b64_char((b0 >> 2) as u8),
            spec_b64_char(((b0 & 0x3) << 4) as u8),
            61u8,
            61u8,
        ]
    } else if s.len() == 2 {
        let b0 = s[0];
        let b1 = s[1];
        seq![
            spec_b64_char((b0 >> 2) as u8),
            spec_b64_char((((b0 & 0x3) << 4) | (b1 >> 4)) as u8),
            spec_b64_char(((b1 & 0xF) << 2) as u8),
            61u8,
        ]
    } else {
        let b0 = s[0];
        let b1 = s[1];
        let b2 = s[2];
        seq![
            spec_b64_char((b0 >> 2) as u8),
            spec_b64_char((((b0 & 0x3) << 4) | (b1 >> 4)) as u8),
            spec_b64_char(((((b1 & 0xF) << 2)) | (b2 >> 6)) as u8),
            spec_b64_char((b2 & 0x3F) as u8),
        ] + spec_b64_encode(s.skip(3))
    }
}

/// Encodes bytes as Base64 characters.
pub fn b64_encode(v: &Vec<u8>) -> (r: Vec<u8>)
    ensures
        r@ == spec_b64_encode(v@),
{
    let mut out: Vec<u8> = Vec::new();
    let mut pos: usize = 0;
    proof {
        assert(v@.skip(0) =~= v@);
        assert(Seq::<u8>::empty() + spec_b64_encode(v@) =~= spec_b64_encode(v@));
    }
    while v.len() - pos >= 3
        invariant
            pos <= v@.len(),
            spec_b64_encode(v@) == out@ + spec_b64_encode(v@.skip(pos as int)),
        decreases v@.len() - pos,
    {
        let b0 = v[pos];
        let b1 = v[pos + 1];
        let b2 = v[pos + 2];
        proof {
            assert((b0 >> 2) < 64 && ((b0 & 0x3) << 4) | (b1 >> 4) < 64 && ((b1 & 0xF) << 2) | (
            b2 >> 6) < 64 && (b2 & 0x3F) < 64) by (bit_vector);
            let t = v@.skip(pos as int);
            assert(t[0] == v@[pos as int] && t[1] == v@[pos as int + 1] && t[2] == v@[pos as int
                + 2]);
            assert(t.skip(3) =~= v@.skip(pos as int + 3));
        }
        let ghost out_pre = out@;
        out.push(b64_char(b0 >> 2));
        out.push(b64_char(((b0 & 0x3) << 4) | (b1 >> 4)));
        out.push(b64_char(((b1 & 0xF) << 2) | (b2 >> 6)));
        out.push(b64_char(b2 & 0x3F));
        pos = pos + 3;
        proof {
            let t = v@.skip(pos as int - 3);
            assert(out@ =~= out_pre + seq![
                spec_b64_char((t[0] >> 2) as u8),
                spec_b64_char((((t[0] & 0x3) << 4) | (t[1] >> 4)) as u8),
                spec_b64_char(((((t[1] & 0xF) << 2)) | (t[2] >> 6)) as u8),
                spec_b64_char((t[2] & 0x3F) as u8),
            ]);
            assert(out@ + spec_b64_encode(v@.skip(pos as int)) =~= out_pre + (seq![
                spec_b64_char((t[0] >> 2) as u8),
                spec_b64_char((((t[0] & 0x3) << 4) | (t[1] >> 4)) as u8),
                spec_b64_char(((((t[1] & 0xF) << 2)) | (t[2] >> 6)) as u8),
                spec_b64_char((t[2] & 0x3F) as u8),
            ] + spec_b64_encode(v@.skip(pos as int))));
        }
    }
    proof {
        assert(v@.skip(pos as int).len() == v@.len() - pos < 3);
    }
    if v.len() - pos == 1 {
        let b0 = v[pos];
        proof {
            assert((b0 >> 2) < 64 && ((b0 & 0x3) << 4) < 64) by (bit_vector);
            let t = v@.skip(pos as int);
            assert(t[0] == v@[pos as int]);
            assert(t.len() == 1);
        }
        out.push(b64_char(b0 >> 2));
        out.push(b64_char((b0 & 0x3) << 4));
        out.push(61);
        out.push(61);
        proof {
            assert(out@ =~= spec_b64_encode(v@));
        }
    } else if v.len() - pos == 2 {
        let b0 = v[pos];
        let b1 = v[pos + 1];
        proof {
            assert((b0 >> 2) < 64 && ((b0 & 0x3) << 4) | (b1 >> 4) < 64 && ((b1 & 0xF) << 2)
                < 64) by (bit_vector);
            let t = v@.skip(pos as int);
            assert(t[0] == v@[pos as int] && t[1] == v@[pos as int + 1]);
            assert(t.len() == 2);
        }
        out.push(b64_char(b0 >> 2));
        out.push(b64_char(((b0 & 0x3) << 4) | (b1 >> 4)));
        out.push(b64_char((b1 & 0xF) << 2));
        out.push(61);
        proof {
            assert(out@ =~= spec_b64_encode(v@));
        }
    } else {
        proof {
            assert(v@.skip(pos as int) =~= Seq::<u8>::empty());
            assert(out@ + spec_b64_encode(v@.skip(pos as int)) =~= out@);
        }
    }
    out
}

/// A Base64 value decodes back from the character that encodes it.
pub proof fn lemma_b64_char_val(v: u8)
    requires
        v < 64,
    ensures
        spec_b64_val(spec_b64_char(v)) == Some(v),
{
}

/// Decoding inverts encoding: the Base64 text of any byte sequence
/// decodes back to exactly that sequence.
pub proof fn lemma_b64_roundtrip(s: Seq<u8>)
    ensures
        spec_b64_decode(spec_b64_encode(s)) == Some(s),
    decreases s.len(),
{
    let e = spec_b64_encode(s);
    if s.len() == 0 {
        assert(s =~= Seq::<u8>::empty());
    } else if s.len() == 1 {
        let b0 = s[0];
        let v0 = (b0 >> 2) as u8;
        let v1 = ((b0 & 0x3) << 4) as u8;
        assert(v0 < 64 && v1 < 64) by (bit_vector)
            requires
                v0 == (b0 >> 2) as u8 && v1 == ((b0 & 0x3) << 4) as u8,
        ;
        lemma_b64_char_val(v0);
        lemma_b64_char_val(v1);
        assert(((v0 << 2) | (v1 >> 4)) == b0) by (bit_vector)
            requires
                v0 == (b0 >> 2) as u8 && v1 == ((b0 & 0x3) << 4) as u8,
        ;
        assert(e.len() == 4 && e[0] == spec_b64_char(v0) && e[1] == spec_b64_char(v1) && e[2]
            == 61 && e[3] == 61);
        assert(spec_b64_decode(e) == Some(seq![b0]));
        assert(s =~= seq![b0]);
    } else if s.len() == 2 {
        let b0 = s[0];
        let b1 = s[1];
        let v0 = (b0 >> 2) as u8;
        let v1 = (((b0 & 0x3) << 4) | (b1 >> 4)) as u8;
        let v2 = ((b1 & 0xF) << 2) as u8;
        assert(v0 < 64 && v1 < 64 && v2 < 64) by (bit_vector)
            requires
                v0 == (b0 >> 2) as u8 && v1 == (((b0 & 0x3) << 4) | (b1 >> 4)) as u8 && v2 == ((
                b1 & 0xF) << 2) as u8,
        ;
        lemma_b64_char_val(v0);
        lemma_b64_char_val(v1);
        lemma_b64_char_val(v2);
        assert(spec_b64_char(v2) != 61) by {
            assert(spec_b64_val(spec_b64_char(v2)) == Some(v2));
        }
        assert(((v0 << 2) | (v1 >> 4)) == b0 && (((v1 & 0xF) << 4) | (v2 >> 2)) == b1)
            by (bit_vector)
            requires
                v0 == (b0 >> 2) as u8 && v1 == (((b0 & 0x3) << 4) | (b1 >> 4)) as u8 && v2 == ((
                b1 & 0xF) << 2) as u8,
        ;
        assert(e.len() == 4 && e[3] == 61);
        assert(spec_b64_decode(e) == Some(seq![b0, b1]));
        assert(s =~= seq![b0, b1]);
    } else {
        let b0 = s[0];
        let b1 = s[1];
        let b2 = s[2];
        let v0 = (b0 >> 2) as u8;
        let v1 = (((b0 & 0x3) << 4) | (b1 >> 4)) as u8;
        let v2 = (((b1 & 0xF) << 2) | (b2 >> 6)) as u8;
        let v3 = (b2 & 0x3F) as u8;
        assert(v0 < 64 && v1 < 64 && v2 < 64 && v3 < 64) by (bit_vector)
            requires
                v0 == (b0 >> 2) as u8 && v1 == (((b0 & 0x3) << 4) | (b1 >> 4)) as u8 && v2 == (((
                b1 & 0xF) << 2) | (b2 >> 6)) as u8 && v3 == (b2 & 0x3F) as u8,
        ;
        lemma_b64_char_val(v0);
        lemma_b64_char_val(v1);
        lemma_b64_char_val(v2);
        lemma_b64_char_val(v3);
        assert(spec_b64_char(v2) != 61) by {
            assert(spec_b64_val(spec_b64_char(v2)) == Some(v2));
        }
        assert(spec_b64_char(v3) != 61) by {
            assert(spec_b64_val(spec_b64_char(v3)) == Some(v3));
        }
        assert(((v0 << 2) | (v1 >> 4)) == b0 && (((v1 & 0xF) << 4) | (v2 >> 2)) == b1 && (((v2
            & 0x3) << 6) | v3) == b2) by (bit_vector)
            requires
                v0 == (b0 >> 2) as u8 && v1 == (((b0 & 0x3) << 4) | (b1 >> 4)) as u8 && v2 == (((
                b1 & 0xF) << 2) | (b2 >> 6)) as u8 && v3 == (b2 & 0x3F) as u8,
        ;
        let group = seq![
            spec_b64_char(v0),
            spec_b64_char(v1),
            spec_b64_char(v2),
            spec_b64_char(v3),
        ];
        let rest = spec_b64_encode(s.skip(3));
        assert(e =~= group + rest);
        assert(e.len() >= 4);
        assert(e[0] == group[0] && e[1] == group[1] && e[2] == group[2] && e[3] == group[3]);
        assert(e.skip(4) =~= rest);
        lemma_b64_roundtrip(s.skip(3));
        assert(spec_b64_decode(e) == Some(seq![b0, b1, b2] + s.skip(3)));
        assert(seq![b0, b1, b2] + s.skip(3) =~= s);
    }
}


/// Whether a byte is armor whitespace.
pub open spec fn spec_ws(b: u8) -> bool {
    b == 32 || b == 9 || b == 13 || b == 10
}

/// The offset of the line break closing the line that starts at
/// `pos`, or the end of input.
pub open spec fn spec_line_end(s: Seq<u8>, pos: int) -> int
    decreases s.len() - pos,
    when 0 <= pos <= s.len()
{
    if pos >= s.len() {
        s.len() as int
    } else if s[pos] == 10 {
        pos
    } else {
        spec_line_end(s, pos + 1)
    }
}

/// The offset where the next line starts.
pub open spec fn spec_next_line(s: Seq<u8>, pos: int) -> int {
    if spec_line_end(s, pos) < s.len() {
        spec_line_end(s, pos) + 1
    } else {
        spec_line_end(s, pos)
    }
}

/// The line end lies between the position and the end of input, so
/// scanning line by line advances.
pub proof fn lemma_line_end_bounds(s: Seq<u8>, pos: int)
    requires
        0 <= pos <= s.len(),
    ensures
        pos <= spec_line_end(s, pos) <= s.len(),
        pos < s.len() ==> pos < spec_next_line(s, pos) <= s.len(),
    decreases s.len() - pos,
{
    if pos < s.len() && s[pos] != 10 {
        lemma_line_end_bounds(s, pos + 1);
    }
}

/// The start of the line `[a, b)` with leading whitespace skipped.
pub open spec fn spec_trim_from(s: Seq<u8>, a: int, b: int) -> int
    decreases b - a,
    when 0 <= a && a <= b <= s.len()
{
    if a < b && spec_ws(s[a]) {
        spec_trim_from(s, a + 1, b)
    } else {
        a
    }
}

/// The end of the line `[a, b)` with trailing whitespace skipped.
pub open spec fn spec_trim_to(s: Seq<u8>, a: int, b: int) -> int
    decreases b - a,
    when 0 <= a && a <= b <= s.len()
{
    if b > a && spec_ws(s[b - 1]) {
        spec_trim_to(s, a, b - 1)
    } else {
        b
    }
}

/// Trimming stays within the line.
pub proof fn lemma_trim_bounds(s: Seq<u8>, a: int, b: int)
    requires
        0 <= a <= b <= s.len(),
    ensures
        a <= spec_trim_from(s, a, b) <= b,
        a <= spec_trim_to(s, a, b) <= b,
    decreases b - a,
{
    if a < b && spec_ws(s[a]) {
        lemma_trim_bounds(s, a + 1, b);
    }
    if b > a && spec_ws(s[b - 1]) {
        lemma_trim_bounds(s, a, b - 1);
    }
}

/// Whether the bytes at `pos` begin with the pattern.
pub open spec fn spec_match(s: Seq<u8>, pos: int, pat: Seq<u8>) -> bool {
    &&& 0 <= pos
    &&& pos + pat.len() <= s.len()
    &&& s.subrange(pos, pos + pat.len() as int) == pat
}

/// The octets of `-----BEGIN PGP `.
pub open spec fn spec_pat_begin() -> Seq<u8> {
    seq![45u8, 45, 45, 45, 45, 66, 69, 71, 73, 78, 32, 80, 71, 80, 32]
}

/// The octets of `-----`.
pub open spec fn spec_pat_dashes() -> Seq<u8> {
    seq![45u8, 45, 45, 45, 45]
}

/// The octets of `-----END`.
pub open spec fn spec_pat_end() -> Seq<u8> {
    seq![45u8, 45, 45, 45, 45, 69, 78, 68]
}

/// The octets of `MESSAGE`.
pub open spec fn spec_pat_message() -> Seq<u8> {
    seq![77u8, 69, 83, 83, 65, 71, 69]
}

/// The octets of `PUBLIC KEY BLOCK`.
pub open spec fn spec_pat_public() -> Seq<u8> {
    seq![80u8, 85, 66, 76, 73, 67, 32, 75, 69, 89, 32, 66, 76, 79, 67, 75]
}

/// The octets of `PRIVATE KEY BLOCK`.
pub open spec fn spec_pat_private() -> Seq<u8> {
    seq![80u8, 82, 73, 86, 65, 84, 69, 32, 75, 69, 89, 32, 66, 76, 79, 67, 75]
}

/// The octets of `SIGNATURE`.
pub open spec fn spec_pat_signature() -> Seq<u8> {
    seq![83u8, 73, 71, 78, 65, 84, 85, 82, 69]
}

/// The octets of `ARMORED FILE`.
pub open spec fn spec_pat_file() -> Seq<u8> {
    seq![65u8, 82, 77, 79, 82, 69, 68, 32, 70, 73, 76, 69]
}

/// The kind a `BEGIN` line's label `[a, b)` names, if any.
pub open spec fn spec_label(s: Seq<u8>, a: int, b: int) -> Option<Kind> {
    if b - a == 7 && spec_match(s, a, spec_pat_message()) {
        Some(Kind::Message)
    } else if b - a == 16 && spec_match(s, a, spec_pat_public()) {
        Some(Kind::PublicKey)
    } else if b - a == 17 && spec_match(s, a, spec_pat_private()) {
        Some(Kind::SecretKey)
    } else if b - a == 9 && spec_match(s, a, spec_pat_signature()) {
        Some(Kind::Signature)
    } else if b - a == 12 && spec_match(s, a, spec_pat_file()) {
        Some(Kind::File)
    } else {
        None
    }
}

/// Whether the mode accepts an armor block of this kind.
pub open spec fn spec_accept(mode: ReaderMode, k: Kind) -> bool {
    match mode {
        ReaderMode::Tolerant(Some(want)) => k == want,
        ReaderMode::Tolerant(None) => true,
        ReaderMode::VeryTolerant => true,
    }
}

/// The first acceptable `BEGIN` line at or after `pos`: its kind
/// and the offset of the line after it.
pub open spec fn spec_find_begin(s: Seq<u8>, pos: int, mode: ReaderMode) -> Option<(Kind, int)>
    decreases s.len() - pos,
    when 0 <= pos <= s.len()
    via spec_find_begin_dec
{
    if pos >= s.len() {
        None
    } else {
        let end = spec_line_end(s, pos);
        let nx = spec_next_line(s, pos);
        let ls = spec_trim_from(s, pos, end);
        let te = spec_trim_to(s, ls, end);
        if spec_match(s, ls, spec_pat_begin()) && te - ls >= 20 && spec_match(
            s,
            te - 5,
            spec_pat_dashes(),
        ) && spec_label(s, ls + 15, te - 5) is Some && spec_accept(
            mode,
            spec_label(s, ls + 15, te - 5)->0,
        ) {
            Some((spec_label(s, ls + 15, te - 5)->0, nx))
        } else {
            spec_find_begin(s, nx, mode)
        }
    }
}

#[via_fn]
proof fn spec_find_begin_dec(s: Seq<u8>, pos: int, mode: ReaderMode) {
    if pos < s.len() {
        lemma_line_end_bounds(s, pos);
    }
}

/// The first colon of the line `[a, b)`, or `b` when it has none.
pub open spec fn spec_find_colon(s: Seq<u8>, a: int, b: int) -> int
    decreases b - a,
    when 0 <= a && a <= b <= s.len()
{
    if a < b && s[a] != 58 {
        spec_find_colon(s, a + 1, b)
    } else {
        a
    }
}

/// The `Key: Value` header lines from `pos` up to the blank line:
/// the pairs and the offset after the blank line, or the framing
/// error for a line without a colon.
pub open spec fn spec_armor_headers(s: Seq<u8>, pos: int) -> Result<
    (Seq<(Seq<u8>, Seq<u8>)>, int),
    Error,
>
    decreases s.len() - pos,
    when 0 <= pos <= s.len()
    via spec_armor_headers_dec
{
    if pos >= s.len() {
        Ok((Seq::empty(), pos))
    } else {
        let end = spec_line_end(s, pos);
        let nx = spec_next_line(s, pos);
        let ls = spec_trim_from(s, pos, end);
        let te = spec_trim_to(s, ls, end);
        if ls == te {
            Ok((Seq::empty(), nx))
        } else {
            let colon = spec_find_colon(s, ls, te);
            if colon == te {
                Err(Error::MalformedArmor)
            } else {
                let vs = if colon + 1 < te && s[colon + 1] == 32 {
                    colon + 2
                } else {
                    colon + 1
                };
                let vs2 = if vs <= te {
                    vs
                } else {
                    te
                };
                match spec_armor_headers(s, nx) {
                    Ok((rest, p2)) => Ok(
                        (
                            seq![(s.subrange(ls, colon), s.subrange(vs2, te))] + rest,
                            p2,
                        ),
                    ),
                    Err(e) => Err(e),
                }
            }
        }
    }
}

#[via_fn]
proof fn spec_armor_headers_dec(s: Seq<u8>, pos: int) {
    if pos < s.len() {
        lemma_line_end_bounds(s, pos);
    }
}

/// The Base64 characters of one body line, whitespace left out.
pub open spec fn spec_line_chars(s: Seq<u8>, i: int, te: int) -> Seq<u8>
    decreases te - i,
    when 0 <= i && i <= te <= s.len()
{
    if i >= te {
        Seq::empty()
    } else if spec_ws(s[i]) {
        spec_line_chars(s, i + 1, te)
    } else {
        seq![s[i]] + spec_line_chars(s, i + 1, te)
    }
}

/// The gathered Base64 characters and the characters of the last
/// checksum line, from `pos` to the `END` line or the end of input.
pub open spec fn spec_armor_body(s: Seq<u8>, pos: int) -> (Seq<u8>, Option<Seq<u8>>)
    decreases s.len() - pos,
    when 0 <= pos <= s.len()
    via spec_armor_body_dec
{
    if pos >= s.len() {
        (Seq::empty(), None)
    } else {
        let end = spec_line_end(s, pos);
        let nx = spec_next_line(s, pos);
        let ls = spec_trim_from(s, pos, end);
        let te = spec_trim_to(s, ls, end);
        if spec_match(s, ls, spec_pat_end()) {
            (Seq::empty(), None)
        } else if ls < te && s[ls] == 61 && ls + 1 < te {
            let (ch, cr) = spec_armor_body(s, nx);
            (
                ch,
                if cr is Some {
                    cr
                } else {
                    Some(s.subrange(ls + 1, te))
                },
            )
        } else {
            let (ch, cr) = spec_armor_body(s, nx);
            (spec_line_chars(s, ls, te) + ch, cr)
        }
    }
}

#[via_fn]
proof fn spec_armor_body_dec(s: Seq<u8>, pos: int) {
    if pos < s.len() {
        lemma_line_end_bounds(s, pos);
    }
}

/// The view of decoded armor headers.
pub open spec fn headers_view(h: Seq<(Vec<u8>, Vec<u8>)>) -> Seq<(Seq<u8>, Seq<u8>)> {
    h.map_values(|x: (Vec<u8>, Vec<u8>)| (x.0@, x.1@))
}

/// What decoding one armored block out of `s` yields: the kind,
/// headers and payload, or the framing or checksum error.  This is
/// the whole armor layer in one statement.
pub open spec fn spec_armor(s: Seq<u8>, mode: ReaderMode) -> Result<
    (Option<Kind>, Seq<(Seq<u8>, Seq<u8>)>, Seq<u8>),
    Error,
> {
    match spec_find_begin(s, 0, mode) {
        None => Ok((None, Seq::empty(), Seq::empty())),
        Some((k, p1)) => match spec_armor_headers(s, p1) {
            Err(e) => Err(e),
            Ok((hs, p2)) => {
                let (ch, cr) = spec_armor_body(s, p2);
                match spec_b64_decode(ch) {
                    None => Err(Error::MalformedArmor),
                    Some(pl) => match cr {
                        None => Ok((Some(k), hs, pl)),
                        Some(cc) => if cc.len() != 4 {
                            Err(Error::MalformedArmor)
                        } else {
                            match spec_b64_decode(cc) {
                                None => Err(Error::MalformedArmor),
                                Some(sum) => if sum.len() != 3 {
                                    Err(Error::MalformedArmor)
                                } else if (sum[0] as u32 * 0x10000 + sum[1] as u32 * 0x100
                                    + sum[2] as u32) as u32 != spec_crc24(pl) {
                                    Err(Error::BadChecksum)
                                } else {
                                    Ok((Some(k), hs, pl))
                                },
                            }
                        },
                    },
                }
            },
        },
    }
}

/// The view of an optional byte buffer.
pub open spec fn opt_view(o: Option<Vec<u8>>) -> Option<Seq<u8>> {
    match o {
        Some(c) => Some(c@),
        None => None,
    }
}

/// What one call of the armor reader found.
#[derive(Debug, PartialEq, Eq, Hash)]
pub struct Dearmored {
    /// The kind the armor lines named, or `None` when the input held
    /// no armor at all (the payload is then empty).
    pub kind: Option<Kind>,
    /// The `Key: Value` armor headers, passed through in order.
    pub headers: Vec<(Vec<u8>, Vec<u8>)>,
    /// The decoded binary payload.
    pub payload: Vec<u8>,
}

/// The octets of the armor marker `-----BEGIN PGP `.
fn pat_begin() -> (p: Vec<u8>)
    ensures
        p@ == spec_pat_begin(),
{
    let mut p: Vec<u8> = Vec::new();
    p.push(45);
    p.push(45);
    p.push(45);
    p.push(45);
    p.push(45);
    p.push(66);
    p.push(69);
    p.push(71);
    p.push(73);
    p.push(78);
    p.push(32);
    p.push(80);
    p.push(71);
    p.push(80);
    p.push(32);
    proof {
        assert(p@ =~= spec_pat_begin());
    }
    proof {
        assert(p@ =~= spec_pat_begin());
    }
    p
}

/// The octets of the armor marker `-----`.
fn pat_dashes() -> (p: Vec<u8>)
    ensures
        p@ == spec_pat_dashes(),
{
    let mut p: Vec<u8> = Vec::new();
    p.push(45);
    p.push(45);
    p.push(45);
    p.push(45);
    p.push(45);
    proof {
        assert(p@ =~= spec_pat_dashes());
    }
    p
}

/// The octets of the armor marker `-----END`.
fn pat_end() -> (p: Vec<u8>)
    ensures
        p@ == spec_pat_end(),
{
    let mut p: Vec<u8> = Vec::new();
    p.push(45);
    p.push(45);
    p.push(45);
    p.push(45);
    p.push(45);
    p.push(69);
    p.push(78);
    p.push(68);
    proof {
        assert(p@ =~= spec_pat_end());
    }
    p
}

/// The octets of the armor marker `MESSAGE`.
fn pat_message() -> (p: Vec<u8>)
    ensures
        p@ == spec_pat_message(),
{
    let mut p: Vec<u8> = Vec::new();
    p.push(77);
    p.push(69);
    p.push(83);
    p.push(83);
    p.push(65);
    p.push(71);
    p.push(69);
    proof {
        assert(p@ =~= spec_pat_message());
    }
    p
}

/// The octets of the armor marker `PUBLIC KEY BLOCK`.
fn pat_public() -> (p: Vec<u8>)
    ensures
        p@ == spec_pat_public(),
{
    let mut p: Vec<u8> = Vec::new();
    p.push(80);
    p.push(85);
    p.push(66);
    p.push(76);
    p.push(73);
    p.push(67);
    p.push(32);
    p.push(75);
    p.push(69);
    p.push(89);
    p.push(32);
    p.push(66);
    p.push(76);
    p.push(79);
    p.push(67);
    p.push(75);
    proof {
        assert(p@ =~= spec_pat_public());
    }
    p
}

/// The octets of the armor marker `PRIVATE KEY BLOCK`.
fn pat_private() -> (p: Vec<u8>)
    ensures
        p@ == spec_pat_private(),
{
    let mut p: Vec<u8> = Vec::new();
    p.push(80);
    p.push(82);
    p.push(73);
    p.push(86);
    p.push(65);
    p.push(84);
    p.push(69);
    p.push(32);
    p.push(75);
    p.push(69);
    p.push(89);
    p.push(32);
    p.push(66);
    p.push(76);
    p.push(79);
    p.push(67);
    p.push(75);
    proof {
        assert(p@ =~= spec_pat_private());
    }
    p
}

/// The octets of the armor marker `SIGNATURE`.
fn pat_signature() -> (p: Vec<u8>)
    ensures
        p@ == spec_pat_signature(),
{
    let mut p: Vec<u8> = Vec::new();
    p.push(83);
    p.push(73);
    p.push(71);
    p.push(78);
    p.push(65);
    p.push(84);
    p.push(85);
    p.push(82);
    p.push(69);
    proof {
        assert(p@ =~= spec_pat_signature());
    }
    p
}

/// The octets of the armor marker `ARMORED FILE`.
fn pat_file() -> (p: Vec<u8>)
    ensures
        p@ == spec_pat_file(),
{
    let mut p: Vec<u8> = Vec::new();
    p.push(65);
    p.push(82);
    p.push(77);
    p.push(79);
    p.push(82);
    p.push(69);
    p.push(68);
    p.push(32);
    p.push(70);
    p.push(73);
    p.push(76);
    p.push(69);
    proof {
        assert(p@ =~= spec_pat_file());
    }
    p
}

/// Whether the bytes at `pos` begin with the pattern.
fn match_at(v: &Vec<u8>, pos: usize, pat: &Vec<u8>) -> (r: bool)
    requires
        pos <= v@.len(),
    ensures
        r == (pos + pat@.len() <= v@.len() && v@.subrange(
            pos as int,
            pos as int + pat@.len() as int,
        ) == pat@),
{
    let vlen = v.len();
    if vlen - pos < pat.len() {
        proof {
            assert(pos + pat@.len() > v@.len());
        }
        return false;
    }
    let mut i: usize = 0;
    while i < pat.len()
        invariant
            pos + pat@.len() <= v@.len() <= usize::MAX,
            i <= pat@.len(),
            forall|j: int| 0 <= j < i ==> v@[pos as int + j] == pat@[j],
        decreases pat@.len() - i,
    {
        if v[pos + i] != pat[i] {
            proof {
                assert(v@.subrange(pos as int, pos as int + pat@.len() as int)[i as int]
                    != pat@[i as int]);
            }
            return false;
        }
        i = i + 1;
    }
    proof {
        assert(v@.subrange(pos as int, pos as int + pat@.len() as int) =~= pat@);
    }
    true
}

/// The bounds of the line starting at `pos`: the offset of its line
/// break (or the end of input) and the offset of the next line.
fn line_bounds(v: &Vec<u8>, pos: usize) -> (r: (usize, usize))
    requires
        pos < v@.len(),
    ensures
        pos <= r.0 <= v@.len(),
        pos < r.1 <= v@.len(),
        r.0 <= r.1,
        r.0 == spec_line_end(v@, pos as int),
        r.1 == spec_next_line(v@, pos as int),
{
    let mut end = pos;
    while end < v.len() && v[end] != 10
        invariant
            pos <= end <= v@.len(),
            spec_line_end(v@, pos as int) == spec_line_end(v@, end as int),
        decreases v@.len() - end,
    {
        end = end + 1;
    }
    if end < v.len() {
        (end, end + 1)
    } else {
        (end, end)
    }
    // When no line break remains, the "next line" offset is the end
    // of input; the caller advanced past `pos`, so scanning still
    // terminates.

}

/// Trims armor whitespace off both ends of the line `[start, end)`.
fn trim(v: &Vec<u8>, start: usize, end: usize) -> (r: (usize, usize))
    requires
        start <= end <= v@.len(),
    ensures
        start <= r.0 <= r.1 <= end,
        r.0 == spec_trim_from(v@, start as int, end as int),
        r.1 == spec_trim_to(v@, r.0 as int, end as int),
{
    let mut a = start;
    let mut b = end;
    while a < b && (v[a] == 32 || v[a] == 9 || v[a] == 13 || v[a] == 10)
        invariant
            start <= a <= b <= end <= v@.len(),
            b == end,
            spec_trim_from(v@, start as int, end as int) == spec_trim_from(
                v@,
                a as int,
                end as int,
            ),
        decreases b - a,
    {
        a = a + 1;
    }
    while b > a && (v[b - 1] == 32 || v[b - 1] == 9 || v[b - 1] == 13 || v[b - 1] == 10)
        invariant
            start <= a <= b <= end <= v@.len(),
            a == spec_trim_from(v@, start as int, end as int),
            spec_trim_to(v@, a as int, end as int) == spec_trim_to(v@, a as int, b as int),
        decreases b - a,
    {
        b = b - 1;
    }
    (a, b)
}

/// Reads the armor kind out of a `BEGIN` line's label bytes.
fn label_kind(v: &Vec<u8>, a: usize, b: usize) -> (r: Option<Kind>)
    requires
        a <= b <= v@.len(),
    ensures
        r == spec_label(v@, a as int, b as int),
{
    let n = b - a;
    if n == 7 && match_at(v, a, &pat_message()) {
        Some(Kind::Message)
    } else if n == 16 && match_at(v, a, &pat_public()) {
        Some(Kind::PublicKey)
    } else if n == 17 && match_at(v, a, &pat_private()) {
        Some(Kind::SecretKey)
    } else if n == 9 && match_at(v, a, &pat_signature()) {
        Some(Kind::Signature)
    } else if n == 12 && match_at(v, a, &pat_file()) {
        Some(Kind::File)
    } else {
        None
    }
}

/// Decodes one armored block out of the input.
///
/// The reader scans for a `BEGIN` line, takes the `Key: Value`
/// headers up to the blank line, gathers the Base64 body ignoring
/// whitespace, and checks the optional CRC-24 line against the
/// decoded payload; a mismatch is `BadChecksum`, broken framing is
/// `MalformedArmor`.  An input with no `BEGIN` line at all decodes
/// to an empty payload with no kind.  A missing `END` line after a
/// well-formed body is tolerated.
#[verifier::rlimit(100)]
pub fn armor_decode(v: &Vec<u8>, mode: ReaderMode) -> (r: Result<Dearmored, Error>)
    ensures
        r matches Err(e) ==> e == Error::MalformedArmor || e == Error::BadChecksum,
        r matches Ok(d) ==> (d.kind is None ==> d.payload@.len() == 0) && (match mode {
            ReaderMode::Tolerant(Some(want)) => d.kind is Some ==> d.kind == Some(want),
            _ => true,
        }),
        match spec_armor(v@, mode) {
            Ok((k, hs, pl)) => r matches Ok(d) && d.kind == k && headers_view(d.headers@) == hs
                && d.payload@ == pl,
            Err(e) => r == Err::<Dearmored, Error>(e),
        },
{
    let mut pos: usize = 0;
    let mut kind: Option<Kind> = None;
    // Scan for an acceptable BEGIN line.
    while pos < v.len() && kind.is_none()
        invariant
            pos <= v@.len(),
            kind is Some ==> (mode matches ReaderMode::Tolerant(Some(k)) ==> kind == Some(k)),
            match kind {
                None => spec_find_begin(v@, 0, mode) == spec_find_begin(v@, pos as int, mode),
                Some(k) => spec_find_begin(v@, 0, mode) == Some((k, pos as int)),
            },
        decreases v@.len() - pos,
    {
        let (end, next) = line_bounds(v, pos);
        let (ls, te) = trim(v, pos, end);
        let ghost found = spec_match(v@, ls as int, spec_pat_begin()) && te - ls >= 20
            && spec_match(v@, te as int - 5, spec_pat_dashes()) && spec_label(
            v@,
            ls as int + 15,
            te as int - 5,
        ) is Some && spec_accept(mode, spec_label(v@, ls as int + 15, te as int - 5)->0);
        if match_at(v, ls, &pat_begin()) && te - ls >= 20 && match_at(v, te - 5, &pat_dashes()) {
            if let Some(k) = label_kind(v, ls + 15, te - 5) {
                let accept = match mode {
                    ReaderMode::Tolerant(Some(want)) => k == want,
                    ReaderMode::Tolerant(None) => true,
                    ReaderMode::VeryTolerant => true,
                };
                if accept {
                    kind = Some(k);
                    proof {
                        assert(found);
                        assert(spec_find_begin(v@, pos as int, mode) == Some((k, next as int)));
                    }
                }
            }
        }
        proof {
            if kind is None {
                assert(!found);
                assert(spec_find_begin(v@, pos as int, mode) == spec_find_begin(
                    v@,
                    next as int,
                    mode,
                ));
            }
        }
        pos = next;
    }
    let k = match kind {
        Some(k) => k,
        None => {
            proof {
                assert(spec_find_begin(v@, 0, mode) is None);
                assert(headers_view(Seq::<(Vec<u8>, Vec<u8>)>::empty())
                    =~= Seq::<(Seq<u8>, Seq<u8>)>::empty());
            }
            // No armor in sight: hand back an empty stream.
            return Ok(Dearmored { kind: None, headers: Vec::new(), payload: Vec::new() });
        },
    };
    let ghost p1 = pos as int;
    // Armor headers, up to the blank line.
    let mut headers: Vec<(Vec<u8>, Vec<u8>)> = Vec::new();
    proof {
        assert(headers_view(headers@) =~= Seq::<(Seq<u8>, Seq<u8>)>::empty());
        if spec_armor_headers(v@, p1) is Ok {
            assert(Seq::<(Seq<u8>, Seq<u8>)>::empty() + spec_armor_headers(v@, p1)->Ok_0.0
                =~= spec_armor_headers(v@, p1)->Ok_0.0);
        }
    }
    while pos < v.len()
        invariant_except_break
            pos <= v@.len(),
            0 <= p1 <= v@.len(),
            spec_find_begin(v@, 0, mode) == Some((k, p1)),
            match spec_armor_headers(v@, pos as int) {
                Ok((hs2, p2)) => spec_armor_headers(v@, p1) == Ok::<
                    (Seq<(Seq<u8>, Seq<u8>)>, int),
                    Error,
                >((headers_view(headers@) + hs2, p2)),
                Err(e) => spec_armor_headers(v@, p1) == Err::<
                    (Seq<(Seq<u8>, Seq<u8>)>, int),
                    Error,
                >(e),
            },
        ensures
            pos <= v@.len(),
            spec_armor_headers(v@, p1) == Ok::<(Seq<(Seq<u8>, Seq<u8>)>, int), Error>(
                (headers_view(headers@), pos as int),
            ),
        decreases v@.len() - pos,
    {
        let ghost hv_pre = headers_view(headers@);
        let (end, next) = line_bounds(v, pos);
        let (ls, te) = trim(v, pos, end);
        if ls == te {
            proof {
                assert(spec_armor_headers(v@, pos as int) == Ok::<
                    (Seq<(Seq<u8>, Seq<u8>)>, int),
                    Error,
                >((Seq::empty(), next as int)));
                assert(hv_pre + Seq::<(Seq<u8>, Seq<u8>)>::empty() =~= hv_pre);
            }
            pos = next;
            break ;
        }
        // A header line must hold a colon.
        let mut colon = ls;
        while colon < te && v[colon] != 58
            invariant
                ls <= colon <= te <= v@.len(),
                spec_find_colon(v@, ls as int, te as int) == spec_find_colon(
                    v@,
                    colon as int,
                    te as int,
                ),
            decreases te - colon,
        {
            colon = colon + 1;
        }
        proof {
            assert(colon == spec_find_colon(v@, ls as int, te as int));
        }
        if colon == te {
            proof {
                assert(spec_armor_headers(v@, pos as int) == Err::<
                    (Seq<(Seq<u8>, Seq<u8>)>, int),
                    Error,
                >(Error::MalformedArmor));
                assert(spec_armor(v@, mode) == Err::<
                    (Option<Kind>, Seq<(Seq<u8>, Seq<u8>)>, Seq<u8>),
                    Error,
                >(Error::MalformedArmor));
            }
            return Err(Error::MalformedArmor);
        }
        let key = crate::body::copy_range(v, ls, colon);
        let vs = if colon + 1 < te && v[colon + 1] == 32 {
            colon + 2
        } else {
            colon + 1
        };
        let value = crate::body::copy_range(v, if vs <= te { vs } else { te }, te);
        headers.push((key, value));
        proof {
            let pair = (v@.subrange(ls as int, colon as int), v@.subrange(
                if vs as int <= te as int {
                    vs as int
                } else {
                    te as int
                },
                te as int,
            ));
            assert(headers_view(headers@) =~= hv_pre.push(pair));
            match spec_armor_headers(v@, next as int) {
                Ok((rest, p2)) => {
                    assert(spec_armor_headers(v@, pos as int) == Ok::<
                        (Seq<(Seq<u8>, Seq<u8>)>, int),
                        Error,
                    >((seq![pair] + rest, p2)));
                    assert(headers_view(headers@) + rest =~= hv_pre + (seq![pair] + rest));
                },
                Err(_) => {},
            }
        }
        pos = next;
    }
    let ghost p2 = pos as int;
    // Base64 body lines, then the optional checksum line and the
    // END line.
    let mut chars: Vec<u8> = Vec::new();
    let mut crc_chars: Option<Vec<u8>> = None;
    proof {
        assert(Seq::<u8>::empty() + spec_armor_body(v@, p2).0 =~= spec_armor_body(v@, p2).0);
    }
    while pos < v.len()
        invariant_except_break
            pos <= v@.len(),
            0 <= p2 <= v@.len(),
            spec_find_begin(v@, 0, mode) == Some((k, p1)),
            spec_armor_headers(v@, p1) == Ok::<(Seq<(Seq<u8>, Seq<u8>)>, int), Error>(
                (headers_view(headers@), p2),
            ),
            spec_armor_body(v@, p2).0 == chars@ + spec_armor_body(v@, pos as int).0,
            spec_armor_body(v@, p2).1 == (if spec_armor_body(v@, pos as int).1 is Some {
                spec_armor_body(v@, pos as int).1
            } else {
                opt_view(crc_chars)
            }),
        ensures
            spec_armor_body(v@, p2).0 == chars@,
            spec_armor_body(v@, p2).1 == opt_view(crc_chars),
        decreases v@.len() - pos,
    {
        let ghost ch_pre = chars@;
        let (end, next) = line_bounds(v, pos);
        let (ls, te) = trim(v, pos, end);
        if match_at(v, ls, &pat_end()) {
            proof {
                assert(spec_armor_body(v@, pos as int).0 =~= Seq::<u8>::empty());
                assert(ch_pre + Seq::<u8>::empty() =~= ch_pre);
            }
            pos = next;
            break ;
        }
        if ls < te && v[ls] == 61 && ls + 1 < te {
            crc_chars = Some(crate::body::copy_range(v, ls + 1, te));
            proof {
                assert(spec_armor_body(v@, pos as int).0 == spec_armor_body(v@, next as int).0);
            }
        } else {
            let ghost chars_entry = chars@;
            let mut i = ls;
            while i < te
                invariant
                    ls <= i <= te <= v@.len(),
                    chars_entry + spec_line_chars(v@, ls as int, te as int) == chars@
                        + spec_line_chars(v@, i as int, te as int),
                decreases te - i,
            {
                let ghost cpre = chars@;
                if !(v[i] == 32 || v[i] == 9 || v[i] == 13 || v[i] == 10) {
                    chars.push(v[i]);
                    proof {
                        assert(spec_line_chars(v@, i as int, te as int) == seq![v@[i as int]]
                            + spec_line_chars(v@, i as int + 1, te as int));
                        assert(chars@ + spec_line_chars(v@, i as int + 1, te as int) =~= cpre + (
                        seq![v@[i as int]] + spec_line_chars(v@, i as int + 1, te as int)));
                    }
                }
                i = i + 1;
            }
            proof {
                assert(spec_line_chars(v@, te as int, te as int) =~= Seq::<u8>::empty());
                assert(chars@ + Seq::<u8>::empty() =~= chars@);
                assert(chars@ =~= chars_entry + spec_line_chars(v@, ls as int, te as int));
                assert(chars@ + spec_armor_body(v@, next as int).0 =~= ch_pre + (spec_line_chars(
                    v@,
                    ls as int,
                    te as int,
                ) + spec_armor_body(v@, next as int).0));
            }
        }
        pos = next;
    }
    let payload = match b64_decode(&chars) {
        Some(p) => p,
        None => {
            return Err(Error::MalformedArmor);
        },
    };
    if let Some(cc) = crc_chars {
        if cc.len() != 4 {
            return Err(Error::MalformedArmor);
        }
        let sum = match b64_decode(&cc) {
            Some(s) => s,
            None => {
                return Err(Error::MalformedArmor);
            },
        };
        if sum.len() != 3 {
            return Err(Error::MalformedArmor);
        }
        let wire = (sum[0] as u32) * 0x10000 + (sum[1] as u32) * 0x100 + (sum[2] as u32);
        if wire != crc24(&payload) {
            return Err(Error::BadChecksum);
        }
    }
    Ok(Dearmored { kind: Some(k), headers, payload })
}

} // verus!

//! Stream-shape verdicts: whether a sequence of top-level packet
//! tags forms an OpenPGP message, a transferable key, or a keyring.
//!
//! The verdicts are advisory: parsing never stops on their account.
//! They look at tags only, never into bodies, and marker packets
//! are skipped wherever a message element may start.

use vstd::prelude::*;

use crate::tag::Tag;

verus! {

/// Whether the tags from an encrypted message's session keys
/// onwards are session-key packets closed by one encrypted
/// container.
pub open spec fn spec_encrypted(tags: Seq<Tag>) -> bool
    decreases tags.len(),
{
    if tags.len() == 0 {
        false
    } else if tags[0] == Tag::PKESK || tags[0] == Tag::SKESK {
        spec_encrypted(tags.drop_first())
    } else if tags[0] == Tag::SEIP || tags[0] == Tag::AED {
        tags.len() == 1
    } else {
        false
    }
}

/// Whether a sequence of top-level tags forms an OpenPGP message:
/// a literal or compressed packet, an encrypted message behind its
/// session keys, or either wrapped in signatures, one-pass or
/// prefixed.  RFC 4880 section 11.3, seen at the top level of the
/// stream.
pub open spec fn spec_message(tags: Seq<Tag>) -> bool
    decreases tags.len(),
{
    if tags.len() == 0 {
        false
    } else if tags[0] == Tag::Marker {
        spec_message(tags.drop_first())
    } else if tags[0] == Tag::Literal || tags[0] == Tag::CompressedData {
        tags.len() == 1
    } else if tags[0] == Tag::SEIP || tags[0] == Tag::AED {
        tags.len() == 1
    } else if tags[0] == Tag::PKESK || tags[0] == Tag::SKESK {
        spec_encrypted(tags.drop_first())
    } else if tags[0] == Tag::OnePassSig {
        tags.len() >= 2 && tags.last() == Tag::Signature && spec_message(
            tags.subrange(1, tags.len() - 1),
        )
    } else if tags[0] == Tag::Signature {
        spec_message(tags.drop_first())
    } else {
        false
    }
}

/// Whether the tags after a primary key read as the remainder of
/// transferable keys: signatures where they may stand, user IDs and
/// user attributes before any subkey, subkeys after, and, when
/// `more` allows it, a further primary key opening the next key of
/// a keyring.  A key counts only once a user ID or user attribute
/// was seen.  RFC 4880 section 11.1.
pub open spec fn spec_cert_tail(tags: Seq<Tag>, in_subkeys: bool, seen_userid: bool, more: bool) -> bool
    decreases tags.len(),
{
    if tags.len() == 0 {
        seen_userid
    } else if tags[0] == Tag::PublicKey || tags[0] == Tag::SecretKey {
        more && seen_userid && spec_cert_tail(tags.drop_first(), false, false, more)
    } else if tags[0] == Tag::Signature {
        spec_cert_tail(tags.drop_first(), in_subkeys, seen_userid, more)
    } else if tags[0] == Tag::UserID || tags[0] == Tag::UserAttribute {
        !in_subkeys && spec_cert_tail(tags.drop_first(), false, true, more)
    } else if tags[0] == Tag::PublicSubkey || tags[0] == Tag::SecretSubkey {
        spec_cert_tail(tags.drop_first(), true, seen_userid, more)
    } else {
        false
    }
}

/// Whether a sequence of top-level tags is one transferable key.
pub open spec fn spec_tpk(tags: Seq<Tag>) -> bool {
    tags.len() >= 1 && (tags[0] == Tag::PublicKey || tags[0] == Tag::SecretKey)
        && spec_cert_tail(tags.drop_first(), false, false, false)
}

/// Whether a sequence of top-level tags is a keyring: one or more
/// transferable keys, back to back.
pub open spec fn spec_keyring(tags: Seq<Tag>) -> bool {
    tags.len() >= 1 && (tags[0] == Tag::PublicKey || tags[0] == Tag::SecretKey)
        && spec_cert_tail(tags.drop_first(), false, false, true)
}

/// Checks the message grammar over `tags[lo..hi]`.
pub fn message_ok_range(tags: &Vec<Tag>, lo: usize, hi: usize) -> (r: bool)
    requires
        lo <= hi <= tags@.len(),
    ensures
        r == spec_message(tags@.subrange(lo as int, hi as int)),
    decreases hi - lo,
{
    let ghost seg = tags@.subrange(lo as int, hi as int);
    proof {
        if seg.len() > 0 {
            assert(seg[0] == tags@[lo as int]);
            assert(seg[seg.len() - 1] == tags@[hi - 1]);
            assert(seg.last() == seg[seg.len() - 1]);
            assert(seg.drop_first() =~= tags@.subrange(lo as int + 1, hi as int));
            if seg.len() >= 2 {
                assert(seg.subrange(1, seg.len() - 1) =~= tags@.subrange(
                    lo as int + 1,
                    hi as int - 1,
                ));
            }
        }
    }
    if lo == hi {
        return false;
    }
    let t = tags[lo];
    if t == Tag::Marker {
        message_ok_range(tags, lo + 1, hi)
    } else if t == Tag::Literal || t == Tag::CompressedData {
        hi - lo == 1
    } else if t == Tag::SEIP || t == Tag::AED {
        hi - lo == 1
    } else if t == Tag::PKESK || t == Tag::SKESK {
        encrypted_ok_range(tags, lo + 1, hi)
    } else if t == Tag::OnePassSig {
        hi - lo >= 2 && tags[hi - 1] == Tag::Signature && message_ok_range(tags, lo + 1, hi - 1)
    } else if t == Tag::Signature {
        message_ok_range(tags, lo + 1, hi)
    } else {
        false
    }
}

/// Checks the encrypted-message tail over `tags[lo..hi]`.
pub fn encrypted_ok_range(tags: &Vec<Tag>, lo: usize, hi: usize) -> (r: bool)
    requires
        lo <= hi <= tags@.len(),
    ensures
        r == spec_encrypted(tags@.subrange(lo as int, hi as int)),
    decreases hi - lo,
{
    let ghost seg = tags@.subrange(lo as int, hi as int);
    proof {
        if seg.len() > 0 {
            assert(seg[0] == tags@[lo as int]);
            assert(seg.drop_first() =~= tags@.subrange(lo as int + 1, hi as int));
        }
    }
    if lo == hi {
        return false;
    }
    let t = tags[lo];
    if t == Tag::PKESK || t == Tag::SKESK {
        encrypted_ok_range(tags, lo + 1, hi)
    } else if t == Tag::SEIP || t == Tag::AED {
        hi - lo == 1
    } else {
        false
    }
}

/// Checks the transferable-key tail over `tags[lo..]`.
pub fn cert_tail_ok(tags: &Vec<Tag>, lo: usize, in_subkeys: bool, seen_userid: bool, more: bool) -> (r:
    bool)
    requires
        lo <= tags@.len(),
    ensures
        r == spec_cert_tail(tags@.skip(lo as int), in_subkeys, seen_userid, more),
    decreases tags@.len() - lo,
{
    let ghost seg = tags@.skip(lo as int);
    proof {
        if seg.len() > 0 {
            assert(seg[0] == tags@[lo as int]);
            assert(seg.drop_first() =~= tags@.skip(lo as int + 1));
        }
    }
    if lo == tags.len() {
        return seen_userid;
    }
    let t = tags[lo];
    if t == Tag::PublicKey || t == Tag::SecretKey {
        more && seen_userid && cert_tail_ok(tags, lo + 1, false, false, more)
    } else if t == Tag::Signature {
        cert_tail_ok(tags, lo + 1, in_subkeys, seen_userid, more)
    } else if t == Tag::UserID || t == Tag::UserAttribute {
        !in_subkeys && cert_tail_ok(tags, lo + 1, false, true, more)
    } else if t == Tag::PublicSubkey || t == Tag::SecretSubkey {
        cert_tail_ok(tags, lo + 1, true, seen_userid, more)
    } else {
        false
    }
}

/// Observes top-level tags and judges whether they form an OpenPGP
/// message.
#[derive(Debug, PartialEq, Eq, Hash)]
pub struct MessageValidator {
    /// The tags seen so far, in order.
    pub tags: Vec<Tag>,
}

impl MessageValidator {
    /// Starts with nothing seen.
    pub fn new() -> (r: MessageValidator)
        ensures
            r.tags@.len() == 0,
    {
        MessageValidator { tags: Vec::new() }
    }

    /// Records one more top-level tag.
    pub fn push(&mut self, tag: Tag)
        ensures
            final(self).tags@ == old(self).tags@.push(tag),
    {
        self.tags.push(tag);
    }

    /// Whether the tags seen so far form a complete message.
    pub fn is_message(&self) -> (r: bool)
        ensures
            r == spec_message(self.tags@),
    {
        proof {
            assert(self.tags@.subrange(0, self.tags@.len() as int) =~= self.tags@);
        }
        message_ok_range(&self.tags, 0, self.tags.len())
    }
}

/// Observes top-level tags and judges whether they form a keyring.
#[derive(Debug, PartialEq, Eq, Hash)]
pub struct KeyringValidator {
    /// The tags seen so far, in order.
    pub tags: Vec<Tag>,
}

impl KeyringValidator {
    /// Starts with nothing seen.
    pub fn new() -> (r: KeyringValidator)
        ensures
            r.tags@.len() == 0,
    {
        KeyringValidator { tags: Vec::new() }
    }

    /// Records one more top-level tag.
    pub fn push(&mut self, tag: Tag)
        ensures
            final(self).tags@ == old(self).tags@.push(tag),
    {
        self.tags.push(tag);
    }

    /// Whether the tags seen so far form a complete keyring.
    pub fn is_keyring(&self) -> (r: bool)
        ensures
            r == spec_keyring(self.tags@),
    {
        if self.tags.len() == 0 {
            return false;
        }
        let t = self.tags[0];
        if !(t == Tag::PublicKey || t == Tag::SecretKey) {
            return false;
        }
        proof {
            assert(self.tags@.drop_first() =~= self.tags@.skip(1));
        }
        cert_tail_ok(&self.tags, 1, false, false, true)
    }
}

/// Observes top-level tags and judges whether they form one
/// transferable key.
#[derive(Debug, PartialEq, Eq, Hash)]
pub struct TPKValidator {
    /// The tags seen so far, in order.
    pub tags: Vec<Tag>,
}

impl TPKValidator {
    /// Starts with nothing seen.
    pub fn new() -> (r: TPKValidator)
        ensures
            r.tags@.len() == 0,
    {
        TPKValidator { tags: Vec::new() }
    }

    /// Records one more top-level tag.
    pub fn push(&mut self, tag: Tag)
        ensures
            final(self).tags@ == old(self).tags@.push(tag),
    {
        self.tags.push(tag);
    }

    /// Whether the tags seen so far form one complete transferable
    /// key.
    pub fn is_tpk(&self) -> (r: bool)
        ensures
            r == spec_tpk(self.tags@),
    {
        if self.tags.len() == 0 {
            return false;
        }
        let t = self.tags[0];
        if !(t == Tag::PublicKey || t == Tag::SecretKey) {
            return false;
        }
        proof {
            assert(self.tags@.drop_first() =~= self.tags@.skip(1));
        }
        cert_tail_ok(&self.tags, 1, false, false, false)
    }
}

} // verus!

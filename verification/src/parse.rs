//! The streaming packet parser: a lazy cursor over a possibly
//! armored byte stream.
//!
//! A builder configures the parser; finalizing it decodes the first
//! packet.  Each step of the cursor hands the finished packet to the
//! caller and either descends into a container's content or advances
//! to the next sibling, popping levels whose bytes are exhausted.
//! The recursion depth never exceeds the configured cap.

use vstd::prelude::*;

use crate::armor;
use crate::armor::ReaderMode;
use crate::body::{body_decoded, parse_body};
use crate::error::Error;
use crate::header::{spec_header, spec_new_format, BodyLength, Header};
use crate::packet::{copy_path, Packet};
use crate::reader::Reader;
use crate::tag::Tag;
use crate::validate::{spec_keyring, spec_message, spec_tpk, KeyringValidator, MessageValidator, TPKValidator};

verus! {

/// The default cap on container recursion.
pub const MAX_RECURSION_DEPTH: u8 = 16;

/// How the parser treats the input stream.
#[derive(Debug, PartialEq, Eq, Structural, Clone, Copy)]
pub enum Dearmor {
    /// Unconditionally treat the input as armored.
    Enabled(ReaderMode),
    /// Unconditionally treat the input as binary.
    Disabled,
    /// Probe the first packet header: treat the input as binary when
    /// the header is plausible, as armored otherwise.
    Auto(ReaderMode),
}

/// The tunable behaviour of a parser.
#[derive(Debug, PartialEq, Eq, Structural, Clone, Copy)]
pub struct PacketParserSettings {
    /// The cap on container recursion.
    pub max_recursion_depth: u8,
    /// Whether bytes the caller leaves unread are kept in the
    /// packet's body rather than dropped.
    pub buffer_unread_content: bool,
    /// Whether a map of decoded field positions is kept.
    pub map: bool,
}

impl Default for PacketParserSettings {
    /// The defaults: recurse up to sixteen levels, drop unread
    /// content, keep no map.
    fn default() -> (s: PacketParserSettings)
        ensures
            s.max_recursion_depth == 16,
            !s.buffer_unread_content,
            !s.map,
    {
        PacketParserSettings {
            max_recursion_depth: MAX_RECURSION_DEPTH,
            buffer_unread_content: false,
            map: false,
        }
    }
}

/// What remains when the cursor reaches the end of the stream: the
/// record of every packet seen, for the stream-shape verdicts.
#[derive(Debug)]
pub struct PacketParserEOF {
    /// The path and tag of every packet the cursor yielded, in
    /// order.
    pub tokens: Vec<(Vec<usize>, Tag)>,
}

/// Either a live cursor standing on a packet, or the end of the
/// stream.
#[derive(Debug)]
pub enum PacketParserResult {
    /// The cursor, holding the packet it stands on.
    Active(PacketParser),
    /// The end of the stream.
    EOF(PacketParserEOF),
}

/// The streaming cursor.  It stands on one decoded packet at a time;
/// `recurse` or `next` hand that packet back and move on.
#[derive(Debug)]
pub struct PacketParser {
    /// The packet the cursor stands on.
    pub packet: Packet,
    /// The unread remainder of that packet's body: a container's
    /// content, literal data, or trailing octets.
    pub rest: Vec<u8>,
    /// The position of `packet` in the stream's tree.
    pub path: Vec<usize>,
    /// One reader per open container level; the last is the level
    /// being read.
    pub frames: Vec<Reader>,
    /// The settings the parser was built with.
    pub settings: PacketParserSettings,
    /// The path and tag of every packet yielded so far.
    pub tokens: Vec<(Vec<usize>, Tag)>,
}

/// What de-chunking a partial body from the front of `s` yields,
/// after the chunk descriptor announcing `first` bytes: the whole
/// body and the octets the chunk sequence occupied.  Chunks follow
/// one another, each introduced by a new-format length octet, until
/// a fully known length closes the sequence.
pub open spec fn spec_dechunk(s: Seq<u8>, first: nat) -> Result<(Seq<u8>, int), Error>
    decreases s.len(),
{
    if s.len() < first {
        Err(Error::TruncatedInput)
    } else {
        let chunk = s.take(first as int);
        let rest = s.skip(first as int);
        if rest.len() < 1 {
            Err(Error::TruncatedInput)
        } else {
            let o1 = rest[0];
            if 224 <= o1 < 255 {
                // Another partial chunk follows its one-octet
                // descriptor.
                match spec_dechunk(rest.skip(1), (1u32 << ((o1 & 0x1F) as u32)) as nat) {
                    Ok((b, c)) => Ok((chunk + b, first + 1 + c)),
                    Err(e) => Err(e),
                }
            } else {
                // The final chunk carries a fully known length.
                match spec_new_format(rest) {
                    Ok((BodyLength::Full(n), used)) => if rest.len() < used + n {
                        Err(Error::TruncatedInput)
                    } else {
                        Ok((chunk + rest.subrange(used, used + n), first + used + n))
                    },
                    Ok(_) => Err(Error::MalformedPacket),
                    Err(e) => Err(e),
                }
            }
        }
    }
}

/// Reads a chunked (partial-body) packet body off the reader: the
/// first chunk of `first` bytes, then each following chunk behind
/// its descriptor, until a fully known length closes the sequence.
#[verifier::rlimit(100)]
#[verifier::loop_isolation(false)]
pub fn read_chunked(bio: &mut Reader, first: u32) -> (r: Result<Vec<u8>, Error>)
    requires
        old(bio).wf(),
    ensures
        final(bio).wf(),
        match spec_dechunk(old(bio)@, first as nat) {
            Ok((b, c)) => r is Ok && r->Ok_0@ == b && final(bio)@ == old(bio)@.skip(c),
            Err(e) => r == Err::<Vec<u8>, Error>(e),
        },
{
    let ghost s0 = bio@;
    let mut out = match bio.data_consume_hard(first as usize) {
        Ok(v) => v,
        Err(e) => {
            return Err(e);
        },
    };
    let ghost mut consumed: int = first as int;
    proof {
        lemma_dechunk_shape(s0, first as nat);
    }
    let mut done = false;
    while !done
        invariant
            bio.wf(),
            0 <= consumed <= s0.len(),
            bio@ == s0.skip(consumed),
            !done ==> match spec_dechunk_more(s0.skip(consumed)) {
                Ok((b, c)) => spec_dechunk(s0, first as nat) == Ok::<(Seq<u8>, int), Error>(
                    (out@ + b, consumed + c),
                ),
                Err(e) => spec_dechunk(s0, first as nat) == Err::<(Seq<u8>, int), Error>(e),
            },
            done ==> spec_dechunk(s0, first as nat) == Ok::<(Seq<u8>, int), Error>(
                (out@, consumed),
            ),
        decreases s0.len() - consumed + (if done {
            0int
        } else {
            1int
        }),
    {
        let ghost pre = bio@;
        let ghost out_pre = out@;
        let next = match BodyLength::parse_new_format(bio) {
            Ok(bl) => bl,
            Err(e) => {
                proof {
                    lemma_dechunk_more_unfold(pre);
                }
                return Err(e);
            },
        };
        match next {
            BodyLength::Partial(n) => {
                proof {
                    lemma_dechunk_more_unfold(pre);
                    assert(spec_new_format(pre) is Ok);
                    assert(spec_new_format(pre)->Ok_0.0 == BodyLength::Partial(n));
                    assert(pre.len() >= 1);
                    if pre[0] < 224 || pre[0] == 255 {
                        assert(!(spec_new_format(pre)->Ok_0.0 is Partial));
                    }
                    assert(224 <= pre[0] < 255);
                    assert(n == 1u32 << ((pre[0] & 0x1F) as u32));
                    assert(spec_new_format(pre)->Ok_0.1 == 1);
                    assert(bio@ == pre.skip(spec_new_format(pre)->Ok_0.1));
                    assert(bio@ == pre.skip(1));
                }
                let mut chunk = match bio.data_consume_hard(n as usize) {
                    Ok(v) => v,
                    Err(e) => {
                        proof {
                            assert(pre.len() < 1 + n as int);
                        }
                        return Err(e);
                    },
                };
                let ghost chunk_view = chunk@;
                proof {
                    consumed = consumed + 1 + n as int;
                    assert(pre.skip(1).skip(n as int) =~= pre.skip(1 + n as int));
                    assert(s0.skip(consumed) =~= pre.skip(1).skip(n as int));
                    assert(s0.skip(consumed) == pre.skip(1 + n as int));
                    assert(pre.skip(1).take(n as int) == chunk_view);
                    assert(chunk_view =~= pre.subrange(1, 1 + n as int));
                }
                out.append(&mut chunk);
                proof {
                    assert(out@ == out_pre + chunk_view);
                    if spec_dechunk_more(s0.skip(consumed)) is Ok {
                        let (b, c) = spec_dechunk_more(s0.skip(consumed))->Ok_0;
                        assert(spec_dechunk_more(pre) == Ok::<(Seq<u8>, int), Error>(
                            (pre.subrange(1, 1 + n as int) + b, 1 + n as int + c),
                        ));
                        assert(out@ + b =~= out_pre + (pre.subrange(1, 1 + n as int) + b));
                    }
                }
            },
            BodyLength::Full(n) => {
                proof {
                    lemma_dechunk_more_unfold(pre);
                    assert(pre.len() >= 1 && !(224 <= pre[0] < 255));
                    assert(spec_new_format(pre) == Ok::<(BodyLength, int), Error>(
                        (BodyLength::Full(n), spec_new_format(pre)->Ok_0.1),
                    ));
                }
                let mut chunk = match bio.data_consume_hard(n as usize) {
                    Ok(v) => v,
                    Err(e) => {
                        proof {
                            let used = spec_new_format(pre)->Ok_0.1;
                            assert(pre.len() < used + n as int);
                        }
                        return Err(e);
                    },
                };
                let ghost chunk_view = chunk@;
                proof {
                    let used = spec_new_format(pre)->Ok_0.1;
                    consumed = consumed + used + n as int;
                    assert(s0.skip(consumed) =~= pre.skip(used).skip(n as int));
                    assert(chunk_view == pre.skip(used).take(n as int));
                    assert(chunk_view =~= pre.subrange(used, used + n as int));
                    assert(spec_dechunk_more(pre) == Ok::<(Seq<u8>, int), Error>(
                        (pre.subrange(used, used + n as int), used + n as int),
                    ));
                }
                out.append(&mut chunk);
                proof {
                    assert(out@ == out_pre + chunk_view);
                }
                done = true;
            },
            BodyLength::Indeterminate => {
                proof {
                    assert(false);
                }
            },
        }
    }
    Ok(out)
}

/// What de-chunking yields from a chunk descriptor onwards: the
/// remaining chunks and the octets they occupy.
pub open spec fn spec_dechunk_more(s: Seq<u8>) -> Result<(Seq<u8>, int), Error>
    decreases s.len(),
{
    if s.len() < 1 {
        Err(Error::TruncatedInput)
    } else {
        let o1 = s[0];
        if 224 <= o1 < 255 {
            let n = (1u32 << ((o1 & 0x1F) as u32)) as int;
            if s.len() < 1 + n {
                Err(Error::TruncatedInput)
            } else {
                match spec_dechunk_more(s.skip(1 + n)) {
                    Ok((b, c)) => Ok((s.subrange(1, 1 + n) + b, 1 + n + c)),
                    Err(e) => Err(e),
                }
            }
        } else {
            match spec_new_format(s) {
                Ok((BodyLength::Full(n), used)) => if s.len() < used + n {
                    Err(Error::TruncatedInput)
                } else {
                    Ok((s.subrange(used, used + n), used + n))
                },
                Ok(_) => Err(Error::MalformedPacket),
                Err(e) => Err(e),
            }
        }
    }
}

/// Ties the two de-chunking views together: after the first chunk,
/// what remains is exactly `spec_dechunk_more` of the rest.
pub proof fn lemma_dechunk_shape(s: Seq<u8>, first: nat)
    requires
        first <= s.len(),
    ensures
        match spec_dechunk_more(s.skip(first as int)) {
            Ok((b, c)) => spec_dechunk(s, first) == Ok::<(Seq<u8>, int), Error>(
                (s.take(first as int) + b, first + c),
            ),
            Err(e) => spec_dechunk(s, first) == Err::<(Seq<u8>, int), Error>(e),
        },
    decreases s.len(),
{
    let chunk = s.take(first as int);
    let rest = s.skip(first as int);
    if rest.len() < 1 {
    } else {
        let o1 = rest[0];
        if 224 <= o1 < 255 {
            let n = (1u32 << ((o1 & 0x1F) as u32)) as nat;
            if rest.skip(1).len() >= n {
                lemma_dechunk_shape(rest.skip(1), n);
                assert(rest.skip(1).skip(n as int) =~= rest.skip(1 + n as int));
                assert(rest.skip(1).take(n as int) =~= rest.subrange(1, 1 + n as int));
                match spec_dechunk_more(rest.skip(1 + n as int)) {
                    Ok((b3, c3)) => {
                        assert(spec_dechunk(rest.skip(1), n) == Ok::<(Seq<u8>, int), Error>(
                            (rest.subrange(1, 1 + n as int) + b3, n + c3),
                        ));
                        assert(chunk + (rest.subrange(1, 1 + n as int) + b3) =~= chunk + rest.subrange(
                            1,
                            1 + n as int,
                        ) + b3);
                        assert(chunk + rest.subrange(1, 1 + n as int) + b3 =~= chunk + (rest.subrange(
                            1,
                            1 + n as int,
                        ) + b3));
                    },
                    Err(_) => {},
                }
            } else {
                assert(rest.skip(1).len() < n);
                assert(spec_dechunk(rest.skip(1), n) == Err::<(Seq<u8>, int), Error>(
                    Error::TruncatedInput,
                ));
            }
        }
    }
}

/// Unfolds one step of `spec_dechunk_more` at a descriptor.
pub proof fn lemma_dechunk_more_unfold(s: Seq<u8>)
    ensures
        spec_dechunk_more(s) == (if s.len() < 1 {
            Err::<(Seq<u8>, int), Error>(Error::TruncatedInput)
        } else {
            let o1 = s[0];
            if 224 <= o1 < 255 {
                let n = (1u32 << ((o1 & 0x1F) as u32)) as int;
                if s.len() < 1 + n {
                    Err::<(Seq<u8>, int), Error>(Error::TruncatedInput)
                } else {
                    match spec_dechunk_more(s.skip(1 + n)) {
                        Ok((b, c)) => Ok((s.subrange(1, 1 + n) + b, 1 + n + c)),
                        Err(e) => Err(e),
                    }
                }
            } else {
                match spec_new_format(s) {
                    Ok((BodyLength::Full(n), used)) => if s.len() < used + n {
                        Err::<(Seq<u8>, int), Error>(Error::TruncatedInput)
                    } else {
                        Ok((s.subrange(used, used + n), used + n))
                    },
                    Ok(_) => Err::<(Seq<u8>, int), Error>(Error::MalformedPacket),
                    Err(e) => Err(e),
                }
            }
        }),
{
}

/// The view of a token record: each entry's path as a sequence,
/// beside its tag.
pub open spec fn tokens_view(t: Seq<(Vec<usize>, Tag)>) -> Seq<(Seq<usize>, Tag)> {
    t.map_values(|x: (Vec<usize>, Tag)| (x.0@, x.1))
}

/// What one packet's framing takes from the front of `s`: the
/// de-chunked body octets and the total octets consumed (header,
/// length octets, chunk descriptors and body), or the framing
/// error.
pub open spec fn spec_frame(s: Seq<u8>) -> Result<(Seq<u8>, int), Error> {
    match spec_header(s) {
        Ok((h, n)) => match h.length {
            BodyLength::Full(len) => if s.len() < n + len {
                Err(Error::TruncatedInput)
            } else {
                Ok((s.subrange(n, n + len), n + len))
            },
            BodyLength::Partial(first) => match spec_dechunk(s.skip(n), first as nat) {
                Ok((b, c)) => Ok((b, n + c)),
                Err(e) => Err(e),
            },
            BodyLength::Indeterminate => Ok((s.skip(n), s.len() as int)),
        },
        Err(e) => Err(e),
    }
}

/// What the packet one parsing step yields from the stream `s` must
/// be: the framing succeeds, and the packet and its unread
/// remainder are the decode of the framed body under the header's
/// tag.
pub open spec fn packet_parsed(s: Seq<u8>, p: Packet, rest: Seq<u8>) -> bool {
    &&& spec_frame(s) is Ok
    &&& body_decoded(
        spec_header(s)->Ok_0.0.ctb.spec_tag(),
        spec_frame(s)->Ok_0.0,
        p,
        rest,
    )
}

/// The innermost open level that still holds bytes, or none.
pub open spec fn top_live(frames: Seq<Reader>) -> int
    decreases frames.len(),
{
    if frames.len() == 0 {
        -1
    } else if frames.last()@.len() > 0 {
        frames.len() - 1
    } else {
        top_live(frames.drop_last())
    }
}

/// How a cursor's path may change when it advances without
/// descending: some number of exhausted levels are popped (possibly
/// none), and the last remaining index steps to the next sibling;
/// or, on the very first packet of a level, the path stands as it
/// was.
pub open spec fn path_step(a: Seq<usize>, b: Seq<usize>) -> bool {
    b == a || (exists|l: int|
        1 <= l < a.len() && b == #[trigger] a.take(l).update(l - 1, (a[l - 1] + 1) as usize))
}

impl PacketParser {
    /// The structural soundness of a cursor: one reader per open
    /// level, a path index per level, and never more levels than the
    /// recursion cap allows.
    pub open spec fn wf(self) -> bool {
        &&& self.frames@.len() == self.path@.len()
        &&& self.path@.len() >= 1
        &&& self.path@.len() <= self.settings.max_recursion_depth as int + 1
        &&& forall|i: int| 0 <= i < self.frames@.len() ==> #[trigger] self.frames@[i].wf()
    }

    /// The packet a step hands back: unchanged when the cursor
    /// descends into it; otherwise, any unread remainder is kept as
    /// the packet's body when the packet is a container (a declined
    /// or capped container's content is never dropped) or when
    /// buffering is configured, and dropped only for a non-container
    /// under the default settings.
    pub open spec fn spec_handed(self, descend: bool) -> Packet {
        if descend && self.spec_will_recurse() {
            self.packet
        } else if self.rest@.len() > 0 && (self.packet.spec_tag().spec_is_container()
            || self.settings.buffer_unread_content || self.settings.map) {
            self.packet.with_common(
                crate::packet::Common { children: None, body: Some(self.rest) },
            )
        } else {
            self.packet
        }
    }

    /// Whether `recurse` would actually descend: the packet is a
    /// container whose content this crate can read (compressed data
    /// stored uncompressed), content remains, and the cap leaves
    /// room.
    pub open spec fn spec_will_recurse(self) -> bool {
        &&& self.packet matches Packet::CompressedData(cd) && cd.algo == 0
        &&& self.rest@.len() > 0
        &&& self.frames@.len() <= self.settings.max_recursion_depth as int
    }

    /// Exactly what one step of the cursor yields, given its state.
    /// Descending reads the first packet of the container's
    /// content; otherwise the innermost level that still holds
    /// bytes is read on, and the end of the stream comes exactly
    /// when no level does.  The yielded packet, its unread
    /// remainder and the extended token record are all fixed by the
    /// byte-level spec functions.  (The statement is conditioned on
    /// no path index having reached the machine's limit; every
    /// reachable cursor state is far below it.)
    pub open spec fn cursor_step_exact(
        self,
        r: Result<(Packet, PacketParserResult), Error>,
        descend: bool,
    ) -> bool {
        (forall|j: int| 0 <= j < self.path@.len() ==> self.path@[j] < usize::MAX) ==> {
            if descend && self.spec_will_recurse() {
                match spec_frame(self.rest@) {
                    Err(e) => r == Err::<(Packet, PacketParserResult), Error>(e),
                    Ok(_) => {
                        &&& r matches Ok((p, PacketParserResult::Active(pp)))
                        &&& packet_parsed(self.rest@, pp.packet, pp.rest@)
                        &&& tokens_view(pp.tokens@) == tokens_view(self.tokens@).push(
                            (pp.path@, pp.packet.spec_tag()),
                        )
                        &&& pp.packet.spec_common().children is None
                    },
                }
            } else {
                let t = top_live(self.frames@);
                if t == -1 {
                    r matches Ok((p, PacketParserResult::EOF(eof))) && tokens_view(eof.tokens@)
                        == tokens_view(self.tokens@)
                } else {
                    match spec_frame(self.frames@[t]@) {
                        Err(e) => r == Err::<(Packet, PacketParserResult), Error>(e),
                        Ok(_) => {
                            &&& r matches Ok((p, PacketParserResult::Active(pp)))
                            &&& packet_parsed(self.frames@[t]@, pp.packet, pp.rest@)
                            &&& tokens_view(pp.tokens@) == tokens_view(self.tokens@).push(
                                (pp.path@, pp.packet.spec_tag()),
                            )
                            &&& pp.packet.spec_common().children is None
                        },
                    }
                }
            }
        }
    }

    /// The position of the packet the cursor stands on.
    pub fn path(&self) -> (r: &Vec<usize>)
        ensures
            r == &self.path,
    {
        &self.path
    }

    /// The settings the parser was built with.
    pub fn settings(&self) -> (r: &PacketParserSettings)
        ensures
            r == &self.settings,
    {
        &self.settings
    }

    /// Hands the current packet back and descends into its content
    /// when the packet is a readable container, content remains and
    /// the recursion cap leaves room; otherwise behaves like `next`.
    /// The new packet's path is the old path extended by zero on
    /// descent, and a sibling successor otherwise.
    pub fn recurse(self) -> (r: Result<(Packet, PacketParserResult), Error>)
        requires
            self.wf(),
        ensures
            r matches Ok((p, step)) ==> p == self.spec_handed(true),
            r matches Ok((p, PacketParserResult::Active(pp))) ==> pp.wf() && pp.settings
                == self.settings && (if self.spec_will_recurse() {
                pp.path@ == self.path@.push(0usize)
            } else {
                sibling_path(self.path@, pp.path@)
            }),
            // The recursion cap: no yielded packet ever stands
            // deeper than the configured depth.
            r matches Ok((p, PacketParserResult::Active(pp))) ==> pp.path@.len()
                <= self.settings.max_recursion_depth as int + 1,
            self.cursor_step_exact(r, true),
    {
        self.advance(true)
    }

    /// Hands the current packet back and advances to the next
    /// packet without descending; a container's unread content is
    /// kept as its body or dropped, as configured.  The new packet's
    /// path is a sibling successor of the old one.
    pub fn next(self) -> (r: Result<(Packet, PacketParserResult), Error>)
        requires
            self.wf(),
        ensures
            r matches Ok((p, step)) ==> p == self.spec_handed(false),
            r matches Ok((p, PacketParserResult::Active(pp))) ==> pp.wf() && pp.settings
                == self.settings && sibling_path(self.path@, pp.path@),
            r matches Ok((p, PacketParserResult::Active(pp))) ==> pp.path@.len()
                <= self.settings.max_recursion_depth as int + 1,
            self.cursor_step_exact(r, false),
    {
        self.advance(false)
    }

    /// Advances the cursor: the common machinery behind `recurse`
    /// and `next`.
    #[verifier::rlimit(100)]
    fn advance(self, try_recurse: bool) -> (r: Result<(Packet, PacketParserResult), Error>)
        requires
            self.wf(),
        ensures
            r matches Ok((p, step)) ==> p == self.spec_handed(try_recurse),
            r matches Ok((p, PacketParserResult::Active(pp))) ==> pp.wf() && pp.settings
                == self.settings && (if try_recurse && self.spec_will_recurse() {
                pp.path@ == self.path@.push(0usize)
            } else {
                sibling_path(self.path@, pp.path@)
            }),
            self.cursor_step_exact(r, try_recurse),
    {
        let PacketParser { mut packet, rest, mut path, mut frames, settings, tokens } = self;
        let recursable = match &packet {
            Packet::CompressedData(cd) => cd.algo == 0,
            _ => false,
        };
        if try_recurse && recursable && rest.len() > 0 && frames.len()
            <= settings.max_recursion_depth as usize {
            frames.push(Reader::new(rest));
            path.push(0);
            match parse_next(path, frames, tokens, settings) {
                Ok(step) => Ok((packet, step)),
                Err(e) => Err(e),
            }
        } else {
            let keep = packet.tag().is_container() || settings.buffer_unread_content
                || settings.map;
            let handed = if keep && rest.len() > 0 {
                let _ = packet.set_body(rest);
                packet
            } else {
                packet
            };
            let l = path.len();
            let last = path[l - 1];
            if last == usize::MAX {
                return Err(Error::MalformedPacket);
            }
            path.set(l - 1, last + 1);
            let ghost inc = path@;
            proof {
                assert(inc =~= self.path@.update(
                    self.path@.len() - 1,
                    (self.path@[self.path@.len() - 1] + 1) as usize,
                ));
                assert(self.path@.take(self.path@.len() as int) =~= self.path@);
            }
            match parse_next(path, frames, tokens, settings) {
                Ok(step) => {
                    proof {
                        match &step {
                            PacketParserResult::Active(pp) => {
                                lemma_path_step_after_increment(self.path@, inc, pp.path@);
                            },
                            _ => {},
                        }
                    }
                    Ok((handed, step))
                },
                Err(e) => Err(e),
            }
        }
    }
}

/// How a path may relate to its predecessor after a plain advance:
/// truncated to some live prefix whose last index stepped once.
pub open spec fn sibling_path(a: Seq<usize>, b: Seq<usize>) -> bool {
    exists|l: int|
        1 <= l <= a.len() && b == #[trigger] a.take(l).update(l - 1, (a[l - 1] + 1) as usize)
}

/// A `path_step` taken from an already incremented path is a
/// `sibling_path` of the original.
pub proof fn lemma_path_step_after_increment(a: Seq<usize>, inc: Seq<usize>, b: Seq<usize>)
    requires
        a.len() >= 1,
        inc == a.update(a.len() - 1, (a[a.len() - 1] + 1) as usize),
        path_step(inc, b),
    ensures
        sibling_path(a, b),
{
    if b == inc {
        assert(a.take(a.len() as int) =~= a);
        assert(b == a.take(a.len() as int).update(a.len() - 1, (a[a.len() - 1] + 1) as usize));
    } else {
        let l = choose|l: int|
            1 <= l < inc.len() && b == #[trigger] inc.take(l).update(
                l - 1,
                (inc[l - 1] + 1) as usize,
            );
        assert(inc.take(l) =~= a.take(l));
        assert(b == a.take(l).update(l - 1, (a[l - 1] + 1) as usize));
    }
}

/// Whether `a` comes strictly before `b` in lexicographic path
/// order: at the first differing position `a` holds the smaller
/// index, or `a` is a proper prefix of `b`.
pub open spec fn path_lex_less(a: Seq<usize>, b: Seq<usize>) -> bool
    decreases a.len(),
{
    if a.len() == 0 {
        b.len() > 0
    } else if b.len() == 0 {
        false
    } else if a[0] < b[0] {
        true
    } else if a[0] > b[0] {
        false
    } else {
        path_lex_less(a.drop_first(), b.drop_first())
    }
}

/// A proper prefix comes before every path it opens.
pub proof fn lemma_prefix_lex_less(a: Seq<usize>, b: Seq<usize>)
    requires
        b.len() > a.len(),
        b.take(a.len() as int) == a,
    ensures
        path_lex_less(a, b),
    decreases a.len(),
{
    if a.len() > 0 {
        assert(a[0] == b.take(a.len() as int)[0]);
        assert(b.drop_first().take(a.len() - 1) =~= b.take(a.len() as int).drop_first());
        lemma_prefix_lex_less(a.drop_first(), b.drop_first());
    }
}

/// Paths agreeing up to a position where the second is larger are
/// ordered.
pub proof fn lemma_diff_lex_less(a: Seq<usize>, b: Seq<usize>, i: int)
    requires
        0 <= i < a.len(),
        i < b.len(),
        forall|j: int| 0 <= j < i ==> a[j] == b[j],
        a[i] < b[i],
    ensures
        path_lex_less(a, b),
    decreases i,
{
    if i > 0 {
        lemma_diff_lex_less(a.drop_first(), b.drop_first(), i - 1);
    }
}

/// The cursor's paths are monotone: whatever step the cursor takes,
/// the next packet's path is the strict lexicographic successor
/// side of the one before, whether the step descended into a
/// container or moved to a sibling, however many levels it popped.
pub proof fn lemma_paths_monotone(a: Seq<usize>, b: Seq<usize>)
    requires
        a.len() >= 1,
        forall|j: int| 0 <= j < a.len() ==> a[j] < usize::MAX,
        b == a.push(0usize) || sibling_path(a, b),
    ensures
        path_lex_less(a, b),
{
    if b == a.push(0usize) {
        assert(b.take(a.len() as int) =~= a);
        lemma_prefix_lex_less(a, b);
    } else {
        let l = choose|l: int|
            1 <= l <= a.len() && b == #[trigger] a.take(l).update(l - 1, (a[l - 1] + 1) as usize);
        assert(b[l - 1] == (a[l - 1] + 1) as usize);
        assert(a[l - 1] < usize::MAX);
        assert(a[l - 1] < b[l - 1]);
        assert(forall|j: int| 0 <= j < l - 1 ==> a[j] == b[j]);
        lemma_diff_lex_less(a, b, l - 1);
    }
}

/// Decodes the next packet out of the innermost open level, popping
/// levels whose bytes are exhausted; yields the end of the stream
/// when the outermost level is exhausted too.  Errors out of here
/// are framing errors and fatal to the whole stream.
#[verifier::rlimit(100)]
#[verifier::loop_isolation(false)]
fn parse_next(
    path: Vec<usize>,
    frames: Vec<Reader>,
    tokens: Vec<(Vec<usize>, Tag)>,
    settings: PacketParserSettings,
) -> (r: Result<PacketParserResult, Error>)
    requires
        frames@.len() == path@.len(),
        path@.len() >= 1,
        path@.len() <= settings.max_recursion_depth as int + 1,
        forall|i: int| 0 <= i < frames@.len() ==> #[trigger] frames@[i].wf(),
    ensures
        r matches Ok(PacketParserResult::Active(pp)) ==> pp.wf() && pp.settings == settings
            && path_step(path@, pp.path@) && pp.packet.spec_common().children is None,
        r matches Ok(PacketParserResult::Active(pp)) ==> ((frames@.len() >= 1 && frames@[
        frames@.len() - 1]@.len() > 0) ==> pp.path@ == path@),
        (frames@.len() >= 1 && frames@[frames@.len() - 1]@.len() > 0 && spec_header(
            frames@[frames@.len() - 1]@,
        ) is Err) ==> r == Err::<PacketParserResult, Error>(
            spec_header(frames@[frames@.len() - 1]@)->Err_0,
        ),
        // The one statement the stepping layer makes: what comes
        // out is fixed by the innermost level that still holds
        // bytes.
        (forall|j: int| 0 <= j < path@.len() - 1 ==> path@[j] < usize::MAX) ==> ({
            let t = top_live(frames@);
            if t == -1 {
                r matches Ok(PacketParserResult::EOF(eof)) && tokens_view(eof.tokens@)
                    == tokens_view(tokens@)
            } else {
                match spec_frame(frames@[t]@) {
                    Err(e) => r == Err::<PacketParserResult, Error>(e),
                    Ok(_) => {
                        &&& r matches Ok(PacketParserResult::Active(pp))
                        &&& packet_parsed(frames@[t]@, pp.packet, pp.rest@)
                        &&& tokens_view(pp.tokens@) == tokens_view(tokens@).push(
                            (pp.path@, pp.packet.spec_tag()),
                        )
                    },
                }
            }
        }),
{
    let ghost path0 = path@;
    let ghost frames0 = frames@;
    let ghost tokens0 = tokens@;
    let mut path = path;
    let mut frames = frames;
    let mut tokens = tokens;
    proof {
        assert(path0 == path@);
    }
    loop
        invariant
            (frames0.len() >= 1 && frames0[frames0.len() - 1]@.len() > 0) ==> (frames@ == frames0
                && path@ == path0),
            frames@ == frames0.take(frames@.len() as int),
            top_live(frames@) == top_live(frames0),
            tokens@ == tokens0,
            frames@.len() == path@.len(),
            frames@.len() <= path0.len(),
            path@.len() <= settings.max_recursion_depth as int + 1,
            forall|i: int| 0 <= i < frames@.len() ==> #[trigger] frames@[i].wf(),
            path@.len() >= 1 ==> (path@ == path0 || (path@.len() < path0.len() && path@
                == path0.take(path@.len() as int).update(
                path@.len() - 1,
                (path0[path@.len() - 1] + 1) as usize,
            ))),
        decreases frames@.len(),
    {
        let ghost fpre = frames@;
        let mut fr = match frames.pop() {
            Some(fr) => fr,
            None => {
                proof {
                    assert(top_live(frames0) == -1);
                }
                return Ok(PacketParserResult::EOF(PacketParserEOF { tokens }));
            },
        };
        if fr.at_eof() {
            proof {
                if frames0.len() >= 1 && frames0[frames0.len() - 1]@.len() > 0 {
                    assert(fr == frames0[frames0.len() - 1]);
                    assert(false);
                }
                // Popping an exhausted level does not move the
                // innermost live one.
                assert(fpre.drop_last() =~= frames@);
                assert(top_live(fpre) == top_live(frames@));
                assert(frames@ =~= frames0.take(frames@.len() as int));
            }
            // This level is exhausted: ascend to the parent's next
            // sibling.
            if frames.len() == 0 {
                proof {
                    assert(top_live(frames@) == -1);
                    assert(top_live(frames0) == -1);
                }
                return Ok(PacketParserResult::EOF(PacketParserEOF { tokens }));
            }
            let _ = path.pop();
            let l = path.len();
            let last = path[l - 1];
            if last == usize::MAX {
                proof {
                    // Only an index already at the limit gets here,
                    // and the conditional statement leaves such
                    // entry states out.
                    assert(path@ =~= path0.take(l as int));
                    assert(path0[l - 1] == usize::MAX);
                    assert(l - 1 < path0.len() - 1);
                }
                return Err(Error::MalformedPacket);
            }
            path.set(l - 1, last + 1);
            proof {
                assert(path@ =~= path0.take(path@.len() as int).update(
                    path@.len() - 1,
                    (path0[path@.len() - 1] + 1) as usize,
                ));
            }
        } else {
            let ghost s = fr@;
            proof {
                // The popped level is exactly the innermost one
                // that still holds bytes.
                assert(fpre.last() == fr && fpre.drop_last() =~= frames@);
                assert(top_live(fpre) == fpre.len() - 1);
                assert(fpre == frames0.take(fpre.len() as int));
                assert(frames0[top_live(frames0) as int] == fr);
                assert(frames0[top_live(frames0) as int]@ == s);
            }
            let header = match Header::parse(&mut fr) {
                Ok(h) => h,
                Err(e) => {
                    proof {
                        assert(spec_frame(s) == Err::<(Seq<u8>, int), Error>(e));
                    }
                    return Err(e);
                },
            };
            let ghost hn = spec_header(s)->Ok_0.1;
            let body = match header.length {
                BodyLength::Full(n) => match fr.data_consume_hard(n as usize) {
                    Ok(b) => b,
                    Err(e) => {
                        proof {
                            assert(s.skip(hn).len() < n);
                            assert(spec_frame(s) == Err::<(Seq<u8>, int), Error>(
                                Error::TruncatedInput,
                            ));
                        }
                        return Err(e);
                    },
                },
                BodyLength::Partial(n) => match read_chunked(&mut fr, n) {
                    Ok(b) => b,
                    Err(e) => {
                        proof {
                            assert(spec_frame(s) == Err::<(Seq<u8>, int), Error>(e));
                        }
                        return Err(e);
                    },
                },
                BodyLength::Indeterminate => fr.data_eof(),
            };
            proof {
                match header.length {
                    BodyLength::Full(n) => {
                        assert(body@ =~= s.subrange(hn, hn + n as int));
                    },
                    _ => {},
                }
                assert(spec_frame(s) is Ok);
                assert(body@ == spec_frame(s)->Ok_0.0);
            }
            frames.push(fr);
            let (packet, rest) = parse_body(header.tag(), body);
            tokens.push((copy_path(&path), packet.tag()));
            proof {
                assert(packet_parsed(s, packet, rest@));
                assert(tokens_view(tokens@) =~= tokens_view(tokens0).push(
                    (path@, packet.spec_tag()),
                ));
            }
            proof {
                assert(forall|i: int|
                    0 <= i < frames@.len() ==> #[trigger] frames@[i].wf());
                if path@ != path0 {
                    let l = path@.len() as int;
                    assert(1 <= l < path0.len());
                    assert(path@ == path0.take(l).update(l - 1, (path0[l - 1] + 1) as usize));
                }
                assert(path_step(path0, path@));
            }
            let result = PacketParser { packet, rest, path, frames, settings, tokens };
            proof {
                assert(result.frames@.len() == result.path@.len());
                assert(result.path@.len() >= 1);
                assert(result.path@.len() <= settings.max_recursion_depth as int + 1);
                assert(forall|i: int|
                    0 <= i < result.frames@.len() ==> #[trigger] result.frames@[i].wf());
                assert(result.wf());
                assert(result.settings == settings);
                assert(path_step(path0, result.path@));
                assert(result.packet.spec_common().children is None);
            }
            return Ok(PacketParserResult::Active(result));
        }
    }
}

/// A new-format body length reads at most five octets, so two
/// streams agreeing on their first five decode alike.
proof fn lemma_new_format_prefix(s1: Seq<u8>, s2: Seq<u8>)
    requires
        s1.len() >= 5,
        s2.len() >= 5,
        forall|i: int| 0 <= i < 5 ==> s1[i] == s2[i],
    ensures
        spec_new_format(s1) == spec_new_format(s2),
{
}

/// A whole header reads at most six octets, so two streams agreeing
/// on their first six decode the same header.
proof fn lemma_header_prefix(s1: Seq<u8>, s2: Seq<u8>)
    requires
        s1.len() >= 6,
        s2.len() >= 6,
        forall|i: int| 0 <= i < 6 ==> s1[i] == s2[i],
    ensures
        spec_header(s1) == spec_header(s2),
{
    assert(forall|i: int| 0 <= i < 5 ==> s1.skip(1)[i] == s2.skip(1)[i]);
    lemma_new_format_prefix(s1.skip(1), s2.skip(1));
}

/// A builder for configuring a packet parser.
///
/// The default settings are usually right; the builder exists for
/// the exceptional cases.
#[derive(Debug)]
pub struct PacketParserBuilder {
    bio: Reader,
    dearmor: Dearmor,
    settings: PacketParserSettings,
}

impl PacketParserBuilder {
    /// Starts a parser over a byte buffer, with the default
    /// settings: auto-detected armoring, recursion up to sixteen
    /// levels, unread content dropped.
    pub fn from_bytes(bytes: &[u8]) -> (r: Result<PacketParserBuilder, Error>)
        ensures
            r matches Ok(b) && b.spec_input() == bytes@,
            r matches Ok(b) && b.spec_settings() == (PacketParserSettings {
                max_recursion_depth: 16u8,
                buffer_unread_content: false,
                map: false,
            }),
            r matches Ok(b) && b.spec_dearmor() == Dearmor::Auto(
                ReaderMode::Tolerant(None::<armor::Kind>),
            ),
            r matches Ok(b) ==> b.wf(),
    {
        let mut buf: Vec<u8> = Vec::new();
        let mut i: usize = 0;
        while i < bytes.len()
            invariant
                i <= bytes@.len(),
                buf@ == bytes@.take(i as int),
            decreases bytes@.len() - i,
        {
            buf.push(bytes[i]);
            i = i + 1;
            proof {
                assert(buf@ =~= bytes@.take(i as int));
            }
        }
        proof {
            assert(bytes@.take(bytes@.len() as int) =~= bytes@);
        }
        Ok(
            PacketParserBuilder {
                bio: Reader::new(buf),
                dearmor: Dearmor::Auto(ReaderMode::Tolerant(None)),
                settings: PacketParserSettings {
                    max_recursion_depth: MAX_RECURSION_DEPTH,
                    buffer_unread_content: false,
                    map: false,
                },
            },
        )
    }

    /// The bytes the parser will read.
    pub closed spec fn spec_input(self) -> Seq<u8> {
        self.bio@
    }

    /// The settings as configured so far.
    pub closed spec fn spec_settings(self) -> PacketParserSettings {
        self.settings
    }

    /// The armor treatment as configured so far.
    pub closed spec fn spec_dearmor(self) -> Dearmor {
        self.dearmor
    }

    /// The armor strictness the parser will hand the armor reader.
    pub open spec fn spec_armor_mode(self) -> ReaderMode {
        match self.spec_dearmor() {
            Dearmor::Enabled(m) => m,
            Dearmor::Auto(m) => m,
            Dearmor::Disabled => ReaderMode::Tolerant(None),
        }
    }

    /// Whether finalizing will read the input as raw binary: always
    /// under `Disabled`, never under `Enabled`, and under `Auto`
    /// exactly when the input's first header decodes to an assigned
    /// tag; only then is no armor layer inserted.
    pub open spec fn spec_reads_binary(self) -> bool {
        match self.spec_dearmor() {
            Dearmor::Disabled => true,
            Dearmor::Enabled(_) => false,
            Dearmor::Auto(_) => spec_header(self.spec_input()) matches Ok((h, n))
                && h.ctb.spec_tag().spec_is_known(),
        }
    }

    /// Whether the builder's reader is sound; holds for every value
    /// the constructors hand out.
    pub closed spec fn wf(self) -> bool {
        self.bio.wf()
    }

    /// Sets the maximum recursion depth.
    ///
    /// Zero means the parser never recurses: it yields the
    /// top-level packets only.
    pub fn max_recursion_depth(self, value: u8) -> (r: Self)
        ensures
            r.spec_settings() == (PacketParserSettings {
                max_recursion_depth: value,
                ..self.spec_settings()
            }),
            r.spec_input() == self.spec_input(),
            r.spec_dearmor() == self.spec_dearmor(),
            self.wf() ==> r.wf(),
    {
        let PacketParserBuilder { bio, dearmor, settings } = self;
        PacketParserBuilder {
            bio,
            dearmor,
            settings: PacketParserSettings { max_recursion_depth: value, ..settings },
        }
    }

    /// Keeps any bytes the caller leaves unread in the packet's
    /// body.
    pub fn buffer_unread_content(self) -> (r: Self)
        ensures
            r.spec_settings() == (PacketParserSettings {
                buffer_unread_content: true,
                ..self.spec_settings()
            }),
            r.spec_input() == self.spec_input(),
            r.spec_dearmor() == self.spec_dearmor(),
            self.wf() ==> r.wf(),
    {
        let PacketParserBuilder { bio, dearmor, settings } = self;
        PacketParserBuilder {
            bio,
            dearmor,
            settings: PacketParserSettings { buffer_unread_content: true, ..settings },
        }
    }

    /// Drops any bytes the caller leaves unread.  This is the
    /// default.
    pub fn drop_unread_content(self) -> (r: Self)
        ensures
            r.spec_settings() == (PacketParserSettings {
                buffer_unread_content: false,
                ..self.spec_settings()
            }),
            r.spec_input() == self.spec_input(),
            r.spec_dearmor() == self.spec_dearmor(),
            self.wf() ==> r.wf(),
    {
        let PacketParserBuilder { bio, dearmor, settings } = self;
        PacketParserBuilder {
            bio,
            dearmor,
            settings: PacketParserSettings { buffer_unread_content: false, ..settings },
        }
    }

    /// Controls mapping.  Enabling mapping buffers all the data:
    /// bytes the caller leaves unread are kept in the packet's
    /// body, as under `buffer_unread_content`.
    pub fn map(self, enable: bool) -> (r: Self)
        ensures
            r.spec_settings() == (PacketParserSettings { map: enable, ..self.spec_settings() }),
            r.spec_input() == self.spec_input(),
            r.spec_dearmor() == self.spec_dearmor(),
            self.wf() ==> r.wf(),
    {
        let PacketParserBuilder { bio, dearmor, settings } = self;
        PacketParserBuilder {
            bio,
            dearmor,
            settings: PacketParserSettings { map: enable, ..settings },
        }
    }

    /// Sets how the input stream is treated: as armored text, as
    /// raw binary, or probed.
    pub fn dearmor(self, mode: Dearmor) -> (r: Self)
        ensures
            r.spec_dearmor() == mode,
            r.spec_input() == self.spec_input(),
            r.spec_settings() == self.spec_settings(),
            self.wf() ==> r.wf(),
    {
        let PacketParserBuilder { bio, dearmor: _, settings } = self;
        PacketParserBuilder { bio, dearmor: mode, settings }
    }

    /// Finishes configuring and decodes the first packet.
    ///
    /// Under `Auto`, the input counts as binary when its first
    /// packet header is structurally plausible; otherwise it is
    /// handed to the armor reader.  A live result stands on the
    /// stream's first packet with path zero; an input with no
    /// packets at all yields the end-of-stream summary.
    pub fn finalize(self) -> (r: Result<PacketParserResult, Error>)
        requires
            self.wf(),
        ensures
            r matches Ok(PacketParserResult::Active(pp)) ==> pp.wf() && pp.settings
                == self.spec_settings() && pp.path@ == seq![0usize],
            r matches Ok(PacketParserResult::Active(pp)) ==> pp.path@.len()
                <= self.spec_settings().max_recursion_depth as int + 1,
            // Under `Disabled` the input is taken as binary: a
            // stream whose first header does not decode is refused
            // with that header's own error.
            (self.spec_dearmor() == Dearmor::Disabled && self.spec_input().len() > 0
                && spec_header(self.spec_input()) is Err) ==> r == Err::<
                PacketParserResult,
                Error,
            >(spec_header(self.spec_input())->Err_0),
            // When the input is read as binary (so also under
            // `Auto` with a plausible first header, whose probe
            // consumes nothing), the outcome is fixed by the input
            // bytes alone: the end of the stream exactly on empty
            // input, the first packet and its unread remainder as
            // the byte-level spec functions decode them, and any
            // framing error passed through.
            // When the input is read through the armor layer
            // (always under `Enabled`, and under `Auto` with no
            // plausible first header), the outcome is fixed by the
            // armor decode of the input: its errors pass through,
            // and its payload is parsed like a binary stream — in
            // particular, input with no armor at all decodes to an
            // empty payload and so ends in the end-of-stream
            // summary.
            !self.spec_reads_binary() ==> (match crate::armor::spec_armor(
                self.spec_input(),
                self.spec_armor_mode(),
            ) {
                Err(e) => r == Err::<PacketParserResult, Error>(e),
                Ok((k, hs, pl)) => if pl.len() == 0 {
                    r matches Ok(PacketParserResult::EOF(eof)) && tokens_view(eof.tokens@)
                        == Seq::<(Seq<usize>, Tag)>::empty()
                } else {
                    match spec_frame(pl) {
                        Err(e) => r == Err::<PacketParserResult, Error>(e),
                        Ok(_) => {
                            &&& r matches Ok(PacketParserResult::Active(pp))
                            &&& packet_parsed(pl, pp.packet, pp.rest@)
                            &&& pp.packet.spec_common().children is None
                            &&& tokens_view(pp.tokens@) == seq![
                                (seq![0usize], pp.packet.spec_tag()),
                            ]
                        },
                    }
                },
            }),
            self.spec_reads_binary() ==> (if self.spec_input().len() == 0 {
                r matches Ok(PacketParserResult::EOF(eof)) && tokens_view(eof.tokens@)
                    == Seq::<(Seq<usize>, Tag)>::empty()
            } else {
                match spec_frame(self.spec_input()) {
                    Err(e) => r == Err::<PacketParserResult, Error>(e),
                    Ok(_) => {
                        &&& r matches Ok(PacketParserResult::Active(pp))
                        &&& packet_parsed(self.spec_input(), pp.packet, pp.rest@)
                        &&& pp.packet.spec_common().children is None
                        &&& tokens_view(pp.tokens@) == seq![
                            (seq![0usize], pp.packet.spec_tag()),
                        ]
                    },
                }
            }),
    {
        let PacketParserBuilder { mut bio, dearmor, settings } = self;
        let use_armor = match &dearmor {
            Dearmor::Disabled => false,
            Dearmor::Enabled(_) => true,
            Dearmor::Auto(_) => {
                // Probe: decode a header from a copy of the leading
                // bytes; the input itself is not consumed.
                let probe_bytes = bio.data(32);
                proof {
                    if self.spec_input().len() >= 6 {
                        assert(probe_bytes@.len() >= 6);
                        assert(forall|i: int| 0 <= i < 6 ==> probe_bytes@[i] == self.spec_input()[i]);
                        lemma_header_prefix(probe_bytes@, self.spec_input());
                    } else {
                        assert(probe_bytes@ =~= self.spec_input());
                    }
                }
                let mut probe = Reader::new(probe_bytes);
                match Header::parse(&mut probe) {
                    Ok(h) => match h.valid() {
                        Ok(_) => false,
                        Err(_) => true,
                    },
                    Err(_) => true,
                }
            },
        };
        proof {
            assert(use_armor == !self.spec_reads_binary());
        }
        let bytes = if use_armor {
            let mode = match dearmor {
                Dearmor::Enabled(m) => m,
                Dearmor::Auto(m) => m,
                Dearmor::Disabled => ReaderMode::Tolerant(None),
            };
            proof {
                assert(mode == self.spec_armor_mode());
            }
            let input = bio.data_eof();
            match armor::armor_decode(&input, mode) {
                Ok(d) => d.payload,
                Err(e) => {
                    return Err(e);
                },
            }
        } else {
            bio.data_eof()
        };
        let ghost src = bytes@;
        proof {
            if self.spec_reads_binary() {
                assert(src == self.spec_input());
            } else {
                assert(crate::armor::spec_armor(self.spec_input(), self.spec_armor_mode())
                    is Ok);
                assert(src == crate::armor::spec_armor(
                    self.spec_input(),
                    self.spec_armor_mode(),
                )->Ok_0.2);
            }
        }
        let mut path: Vec<usize> = Vec::new();
        path.push(0);
        let mut frames: Vec<Reader> = Vec::new();
        frames.push(Reader::new(bytes));
        let ghost p0 = path@;
        proof {
            assert(frames@.len() == 1);
            assert(frames@[0]@ == src);
        }
        let ghost fsnap = frames@;
        let tokens_empty: Vec<(Vec<usize>, Tag)> = Vec::new();
        let ghost t0 = tokens_empty@;
        let outcome = parse_next(path, frames, tokens_empty, settings);
        proof {
            if dearmor == Dearmor::Disabled && self.spec_input().len() > 0 && spec_header(
                self.spec_input(),
            ) is Err {
                assert(fsnap.len() >= 1 && fsnap[fsnap.len() - 1]@.len() > 0);
                assert(spec_header(fsnap[fsnap.len() - 1]@) is Err);
                assert(outcome == Err::<PacketParserResult, Error>(
                    spec_header(fsnap[fsnap.len() - 1]@)->Err_0,
                ));
            }
            assert(forall|j: int| 0 <= j < p0.len() - 1 ==> p0[j] < usize::MAX);
            assert(tokens_view(t0) =~= Seq::<(Seq<usize>, Tag)>::empty());
            if src.len() == 0 {
                assert(fsnap[0]@.len() == 0);
                assert(fsnap.last() == fsnap[0]);
                assert(top_live(fsnap) == top_live(fsnap.drop_last()));
                assert(fsnap.drop_last().len() == 0);
                assert(top_live(fsnap) == -1);
            } else {
                assert(top_live(fsnap) == 0);
                assert(fsnap[top_live(fsnap) as int]@ == src);
                match &outcome {
                    Ok(PacketParserResult::Active(pp)) => {
                        assert(tokens_view(pp.tokens@) =~= seq![
                            (seq![0usize], pp.packet.spec_tag()),
                        ]);
                    },
                    _ => {},
                }
            }
            assert(p0 =~= seq![0usize]);
            match &outcome {
                Ok(PacketParserResult::Active(pp)) => {
                    assert(path_step(p0, pp.path@));
                    if pp.path@ != p0 {
                        let l = choose|l: int|
                            1 <= l < p0.len() && pp.path@ == #[trigger] p0.take(l).update(
                                l - 1,
                                (p0[l - 1] + 1) as usize,
                            );
                        assert(false);
                    }
                },
                _ => {},
            }
        }
        outcome
    }
}

/// The tags of the top-level packets among the yielded tokens, in
/// order.
pub open spec fn spec_top_tags(tokens: Seq<(Seq<usize>, Tag)>) -> Seq<Tag>
    decreases tokens.len(),
{
    if tokens.len() == 0 {
        Seq::empty()
    } else {
        (if tokens[0].0.len() == 1 {
            seq![tokens[0].1]
        } else {
            Seq::empty()
        }) + spec_top_tags(tokens.drop_first())
    }
}

impl PacketParserEOF {
    /// The tags of the stream's top-level packets, in order.
    pub fn top_level_tags(&self) -> (r: Vec<Tag>)
        ensures
            r@ == spec_top_tags(self.tokens@.map_values(|t: (Vec<usize>, Tag)| (t.0@, t.1))),
    {
        let ghost full = self.tokens@.map_values(|t: (Vec<usize>, Tag)| (t.0@, t.1));
        let mut out: Vec<Tag> = Vec::new();
        let mut i: usize = 0;
        proof {
            assert(full.skip(0) =~= full);
            assert(Seq::<Tag>::empty() + spec_top_tags(full) =~= spec_top_tags(full));
        }
        while i < self.tokens.len()
            invariant
                i <= self.tokens@.len(),
                full == self.tokens@.map_values(|t: (Vec<usize>, Tag)| (t.0@, t.1)),
                spec_top_tags(full) == out@ + spec_top_tags(full.skip(i as int)),
            decreases self.tokens@.len() - i,
        {
            let ghost pre = out@;
            proof {
                assert(full.skip(i as int)[0] == full[i as int]);
                assert(full.skip(i as int).drop_first() =~= full.skip(i as int + 1));
                assert(full[i as int] == (self.tokens@[i as int].0@, self.tokens@[i as int].1));
            }
            let tok = &self.tokens[i];
            if tok.0.len() == 1 {
                out.push(tok.1);
                proof {
                    assert(out@ + spec_top_tags(full.skip(i as int + 1)) =~= pre + (seq![
                        full[i as int].1,
                    ] + spec_top_tags(full.skip(i as int + 1))));
                }
            } else {
                proof {
                    assert(out@ + spec_top_tags(full.skip(i as int + 1)) =~= pre + (
                    Seq::<Tag>::empty() + spec_top_tags(full.skip(i as int + 1))));
                }
            }
            i = i + 1;
        }
        proof {
            assert(full.skip(i as int).len() == 0);
            assert(out@ + spec_top_tags(full.skip(i as int)) =~= out@);
        }
        out
    }

    /// Whether the stream's top-level tags form an OpenPGP message.
    pub fn is_message(&self) -> (r: bool)
        ensures
            r == spec_message(
                spec_top_tags(self.tokens@.map_values(|t: (Vec<usize>, Tag)| (t.0@, t.1))),
            ),
    {
        let v = MessageValidator { tags: self.top_level_tags() };
        v.is_message()
    }

    /// Whether the stream's top-level tags form a keyring.
    pub fn is_keyring(&self) -> (r: bool)
        ensures
            r == spec_keyring(
                spec_top_tags(self.tokens@.map_values(|t: (Vec<usize>, Tag)| (t.0@, t.1))),
            ),
    {
        let v = KeyringValidator { tags: self.top_level_tags() };
        v.is_keyring()
    }

    /// Whether the stream's top-level tags form one transferable
    /// key.
    pub fn is_tpk(&self) -> (r: bool)
        ensures
            r == spec_tpk(
                spec_top_tags(self.tokens@.map_values(|t: (Vec<usize>, Tag)| (t.0@, t.1))),
            ),
    {
        let v = TPKValidator { tags: self.top_level_tags() };
        v.is_tpk()
    }
}

} // verus!

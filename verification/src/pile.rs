//! The eager tree builder: drives the streaming cursor to the end
//! of the stream, always descending into containers, and attaches
//! every packet to its parent.

use vstd::prelude::*;

use crate::error::Error;
use crate::packet::{
    path_ref_in, spec_dfs_paths, spec_path_ref, Container, Packet, PacketIter,
};
use crate::armor::{spec_armor, ReaderMode};
use crate::header::spec_header;
use crate::parse::{spec_frame, PacketParserBuilder, PacketParserResult};

verus! {

/// A self-owned tree of packets: the parsed form of a whole stream.
#[derive(Debug, PartialEq, Eq, Hash)]
pub struct PacketPile {
    top_level: Container,
}

impl PacketPile {
    /// The packets at the top level of the tree.
    pub closed spec fn spec_packets(self) -> Seq<Packet> {
        self.top_level.packets@
    }

    /// Builds a pile that holds the given packets at top level.
    pub fn from_children(top_level: Container) -> (r: PacketPile)
        ensures
            r.spec_packets() == top_level.packets@,
    {
        PacketPile { top_level }
    }

    /// Parses a whole byte stream into a tree: the streaming cursor
    /// is driven to the end, descending into every container it can
    /// read, and each packet is attached to the container it came
    /// from.  Unread content, such as literal data, is kept as the
    /// packet's body.  A framing error aborts the build.
    ///
    /// The contract pins the build's first step: armoring is
    /// probed as the cursor does, the first framing or armor error
    /// passes through, and a stream with no packets gives the empty
    /// tree.  How the finished tree relates to the whole cursor run
    /// is checked by the walk over `descendants().paths()`.
    pub fn from_bytes(bytes: &[u8]) -> (r: Result<PacketPile, Error>)
        ensures
            (spec_header(bytes@) is Ok && spec_header(
                bytes@,
            )->Ok_0.0.ctb.spec_tag().spec_is_known() && spec_frame(bytes@) is Err) ==> r
                == Err::<PacketPile, Error>(spec_frame(bytes@)->Err_0),
            (!(spec_header(bytes@) is Ok && spec_header(
                bytes@,
            )->Ok_0.0.ctb.spec_tag().spec_is_known()) && spec_armor(
                bytes@,
                ReaderMode::Tolerant(None),
            ) is Err) ==> r == Err::<PacketPile, Error>(
                spec_armor(bytes@, ReaderMode::Tolerant(None))->Err_0,
            ),
            (!(spec_header(bytes@) is Ok && spec_header(
                bytes@,
            )->Ok_0.0.ctb.spec_tag().spec_is_known()) && spec_armor(
                bytes@,
                ReaderMode::Tolerant(None),
            ) is Ok && spec_armor(bytes@, ReaderMode::Tolerant(None))->Ok_0.2.len() == 0) ==> (
            r matches Ok(pile) && pile.spec_packets().len() == 0),
    {
        let builder = match PacketParserBuilder::from_bytes(bytes) {
            Ok(b) => b,
            Err(e) => {
                return Err(e);
            },
        };
        let builder = builder.buffer_unread_content();
        proof {
            assert(builder.spec_input() == bytes@);
            assert(builder.spec_armor_mode() == ReaderMode::Tolerant(None::<crate::armor::Kind>));
            assert(builder.spec_reads_binary() == (spec_header(bytes@) is Ok && spec_header(
                bytes@,
            )->Ok_0.0.ctb.spec_tag().spec_is_known()));
            if spec_header(bytes@) is Ok {
                assert(bytes@.len() >= 1);
            }
        }
        let mut cur = match builder.finalize() {
            Ok(c) => c,
            Err(e) => {
                return Err(e);
            },
        };
        if let PacketParserResult::EOF(_) = &cur {
            // No packets at all: the tree is empty.
            return Ok(PacketPile { top_level: Container::new() });
        }
        proof {
            // The cursor came up live, so none of the first-step
            // failure cases holds of the input.
            assert(!(spec_header(bytes@) is Ok && spec_header(
                bytes@,
            )->Ok_0.0.ctb.spec_tag().spec_is_known() && spec_frame(bytes@) is Err));
            assert(!(!(spec_header(bytes@) is Ok && spec_header(
                bytes@,
            )->Ok_0.0.ctb.spec_tag().spec_is_known()) && spec_armor(
                bytes@,
                ReaderMode::Tolerant(None),
            ) is Err));
            assert(!(!(spec_header(bytes@) is Ok && spec_header(
                bytes@,
            )->Ok_0.0.ctb.spec_tag().spec_is_known()) && spec_armor(
                bytes@,
                ReaderMode::Tolerant(None),
            ) is Ok && spec_armor(bytes@, ReaderMode::Tolerant(None))->Ok_0.2.len() == 0));
        }
        let mut collectors: Vec<Container> = Vec::new();
        collectors.push(Container::new());
        let mut pending: Vec<Packet> = Vec::new();
        // A packet costs at least one input octet at each level it
        // is read from, so a stream of n octets parsed within the
        // recursion cap d yields fewer than (n + 1) * (d + 2) steps;
        // the counter only bounds the loop for the prover.
        let mut fuel: u128 = (bytes.len() as u128 + 1) * (258u128) + 1;
        while fuel > 0
            invariant
                collectors@.len() == pending@.len() + 1,
                collectors@.len() >= 1,
                !(spec_header(bytes@) is Ok && spec_header(
                    bytes@,
                )->Ok_0.0.ctb.spec_tag().spec_is_known() && spec_frame(bytes@) is Err),
                !(!(spec_header(bytes@) is Ok && spec_header(
                    bytes@,
                )->Ok_0.0.ctb.spec_tag().spec_is_known()) && spec_armor(
                    bytes@,
                    ReaderMode::Tolerant(None),
                ) is Err),
                !(!(spec_header(bytes@) is Ok && spec_header(
                    bytes@,
                )->Ok_0.0.ctb.spec_tag().spec_is_known()) && spec_armor(
                    bytes@,
                    ReaderMode::Tolerant(None),
                ) is Ok && spec_armor(bytes@, ReaderMode::Tolerant(None))->Ok_0.2.len() == 0),
                forall|i: int|
                    0 <= i < pending@.len() ==> (#[trigger] pending@[i]).spec_tag().spec_is_container(),
                match cur {
                    PacketParserResult::Active(pp) => pp.wf() && collectors@.len()
                        == pp.path@.len(),
                    PacketParserResult::EOF(_) => true,
                },
            decreases fuel,
        {
            fuel = fuel - 1;
            let pp = match cur {
                PacketParserResult::Active(pp) => pp,
                PacketParserResult::EOF(eof) => {
                    cur = PacketParserResult::EOF(eof);
                    break ;
                },
            };
            let dp = pp.path.len();
            let ghost will = pp.spec_will_recurse();
            let ghost oldpath = pp.path@;
            let (packet, step) = match pp.recurse() {
                Ok(x) => x,
                Err(e) => {
                    return Err(e);
                },
            };
            let dn = match &step {
                PacketParserResult::Active(pp2) => pp2.path.len(),
                PacketParserResult::EOF(_) => 1,
            };
            proof {
                match &step {
                    PacketParserResult::Active(pp2) => {
                        if will {
                            assert(pp2.path@ == oldpath.push(0usize));
                        } else {
                            let l = choose|l: int|
                                1 <= l <= oldpath.len() && pp2.path@ == #[trigger] oldpath.take(
                                    l,
                                ).update(l - 1, (oldpath[l - 1] + 1) as usize);
                            assert(pp2.path@.len() == l);
                        }
                    },
                    _ => {},
                }
            }
            if dn == dp + 1 {
                // The cursor descended: the packet is the container
                // whose children come next, into a collector of
                // their own.
                proof {
                    if !will {
                        match &step {
                            PacketParserResult::Active(pp2) => {
                                let l = choose|l: int|
                                    1 <= l <= oldpath.len() && pp2.path@
                                        == #[trigger] oldpath.take(l).update(
                                        l - 1,
                                        (oldpath[l - 1] + 1) as usize,
                                    );
                                assert(false);
                            },
                            PacketParserResult::EOF(_) => {
                                assert(false);
                            },
                        }
                    }
                }
                pending.push(packet);
                collectors.push(Container::new());
            } else {
                // A leaf at this level; then close every level the
                // cursor popped.
                proof {
                    match &step {
                        PacketParserResult::Active(pp2) => {
                            assert(dn <= dp);
                        },
                        PacketParserResult::EOF(_) => {
                            assert(dn == 1 && dp >= 1);
                        },
                    }
                }
                let mut c = match collectors.pop() {
                    Some(c) => c,
                    None => {
                        proof {
                            assert(false);
                        }
                        return Err(Error::MalformedPacket);
                    },
                };
                c.push(packet);
                collectors.push(c);
                // Close every level the cursor popped.
                while collectors.len() > dn
                    invariant
                        collectors@.len() == pending@.len() + 1,
                        collectors@.len() >= dn,
                        dn >= 1,
                        forall|i: int|
                            0 <= i < pending@.len() ==> (#[trigger] pending@[i]).spec_tag().spec_is_container(),
                    decreases collectors@.len(),
                {
                    let child = match collectors.pop() {
                        Some(c) => c,
                        None => {
                            proof {
                                assert(false);
                            }
                            return Err(Error::MalformedPacket);
                        },
                    };
                    let mut parent = match pending.pop() {
                        Some(p) => p,
                        None => {
                            proof {
                                assert(false);
                            }
                            return Err(Error::MalformedPacket);
                        },
                    };
                    parent.set_children(child);
                    let mut pc = match collectors.pop() {
                        Some(c) => c,
                        None => {
                            proof {
                                assert(false);
                            }
                            return Err(Error::MalformedPacket);
                        },
                    };
                    pc.push(parent);
                    collectors.push(pc);
                }
            }
            cur = step;
        }
        match cur {
            PacketParserResult::EOF(_) => {},
            PacketParserResult::Active(_) => {
                // Only reachable if the step bound above were ever
                // hit; no accepted stream gets here.
                return Err(Error::MalformedPacket);
            },
        }
        // Close whatever levels are still open, then the root
        // collector is the tree.
        while collectors.len() > 1
            invariant
                collectors@.len() == pending@.len() + 1,
                collectors@.len() >= 1,
                forall|i: int|
                    0 <= i < pending@.len() ==> (#[trigger] pending@[i]).spec_tag().spec_is_container(),
            decreases collectors@.len(),
        {
            let child = match collectors.pop() {
                Some(c) => c,
                None => {
                    proof {
                        assert(false);
                    }
                    return Err(Error::MalformedPacket);
                },
            };
            let mut parent = match pending.pop() {
                Some(p) => p,
                None => {
                    proof {
                        assert(false);
                    }
                    return Err(Error::MalformedPacket);
                },
            };
            parent.set_children(child);
            let mut pc = match collectors.pop() {
                Some(c) => c,
                None => {
                    proof {
                        assert(false);
                    }
                    return Err(Error::MalformedPacket);
                },
            };
            pc.push(parent);
            collectors.push(pc);
        }
        match collectors.pop() {
            Some(top_level) => Ok(PacketPile { top_level }),
            None => {
                proof {
                    assert(false);
                }
                Err(Error::MalformedPacket)
            },
        }
    }

    /// The tree's top-level packets, in wire order.
    pub fn children(&self) -> (r: &Vec<Packet>)
        ensures
            r@ == self.spec_packets(),
    {
        &self.top_level.packets
    }

    /// Takes the tree apart into its top-level packets.
    pub fn into_children(self) -> (r: Vec<Packet>)
        ensures
            r@ == self.spec_packets(),
    {
        self.top_level.packets
    }

    /// The packet standing at an index path, if the path leads
    /// anywhere: the first index picks a top-level packet, each
    /// further index a child of the packet before it.
    pub fn path_ref(&self, pathspec: &[usize]) -> (r: Option<&Packet>)
        ensures
            match spec_path_ref(self.spec_packets(), pathspec@) {
                Some(p) => r matches Some(q) && *q == p,
                None => r is None,
            },
    {
        proof {
            assert(pathspec@.skip(0) =~= pathspec@);
        }
        path_ref_in(&self.top_level.packets, pathspec, 0)
    }

    /// Walks every packet of the tree, depth-first, parents first.
    pub fn descendants(&self) -> (r: PacketIter<'_>)
        ensures
            r.wf(),
            r.spec_pos() == 0,
            r.spec_items() == spec_dfs_paths(self.spec_packets(), Seq::empty(), 0),
    {
        self.top_level.descendants()
    }
}

} // verus!

//! An OpenPGP packet parsing and composition core.
//!
//! The crate decodes a possibly armored byte stream into a tree of
//! typed packets: it recognizes ASCII armor, decodes packet headers
//! (old and new format, with partial-body chunking), dispatches the
//! per-tag body decoders, and drives a streaming cursor over nested
//! containers with a configurable recursion cap.  A caller either
//! consumes packets one at a time through the cursor, or lets the
//! eager builder collect the whole tree.
//!
//! The parser descends into compressed-data containers stored
//! uncompressed (compression algorithm zero); the content of other
//! compressed bodies, like that of encrypted containers, is kept
//! verbatim as the packet's body, since reading it would take a
//! codec or a key.

pub mod armor;
pub mod body;
pub mod error;
pub mod header;
pub mod packet;
pub mod parse;
pub mod pile;
pub mod reader;
pub mod tag;
pub mod validate;

pub use error::Error;
pub use packet::Packet;
pub use pile::PacketPile;
pub use tag::Tag;

//! Core of a distributed web search engine: the schema and query layer of a
//! segment-based inverted index, a de-duplicating top-N collector, segment
//! lifecycle planning, and the replicated key-value store used to coordinate
//! distributed graph computations.

use vstd::prelude::*;

pub mod collector;
pub mod config;
pub mod crawler;
pub mod dht;
pub mod inverted_index;
pub mod live;
pub mod member;
pub mod query;
pub mod ranking;
pub mod schema;
pub mod searcher;
pub mod segment;
pub mod tokenizer;
pub mod warc;
pub mod webpage;
pub mod webspell;

verus! {

/// The error kinds that surface at the core boundary.
#[derive(Debug, Clone, Copy, PartialEq, Eq, Structural)]
pub enum Error {
    /// Malformed query or configuration text.
    Parse,
    /// A document is missing a required field or a value has the wrong type.
    Schema,
    /// A disk read or write failed.
    Io,
    /// Segment metadata or an on-disk structure is unreadable.
    Corrupt,
    /// A document address refers to a merged-away segment.
    GoneDoc,
    /// An operation exceeded its deadline.
    Timeout,
    /// A replicated write found no leader.
    NoLeader,
    /// A node tried to join a group it is not a member of.
    NotInMembers,
    /// A group was initialized twice.
    AlreadyInitialized,
    /// Two distinct segments share a filename during a merge.
    Conflict,
}

} // verus!

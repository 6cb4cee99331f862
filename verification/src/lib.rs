//! A small statistics-tracker core: a persistent append-only record log
//! with run-compaction for charting, and a single-fire multi-waiter
//! shutdown latch.
//!
//! The store keeps an ordered in-memory snapshot of timestamped
//! observations and computes, byte for byte, everything that crosses its
//! edges: the backing file's line format ([`codec`]), the run-compacted
//! projection of the series ([`compress`]), and the JSON and CSV bodies the
//! HTTP surface serves ([`server`]).  The caller only moves those bytes to
//! and from the file and the network.  The latch ([`shutdown`]) decides,
//! under the caller's lock, who is woken when the first handle goes away.

use vstd::prelude::*;

pub mod record;
pub mod codec;
pub mod compress;
pub mod database;
pub mod shutdown;
pub mod server;
pub mod config;

verus! {

} // verus!

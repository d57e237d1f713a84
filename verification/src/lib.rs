//! Verified core of a NetBIOS host-discovery scanner.
//!
//! The library covers the three pieces of the scanner that carry real
//! engineering risk: expanding a textual address specification into a bounded,
//! ordered sequence of host addresses; a worker-pool protocol that delivers
//! each submitted probe job exactly once and merges per-worker results; and a
//! decoder that extracts name, workgroup and MAC-address fields from a raw
//! NetBIOS name-service response buffer.  Socket I/O, threads and the command
//! line live outside the library and hand it plain values.

use vstd::prelude::*;

pub mod addr;
pub mod ip_range;
pub mod nbt_packet;
pub mod scan;
pub mod text;
pub mod thread_pool;

verus! {

/// Run-time options handed in by the command-line layer.
pub struct Config {
    pub verbose: bool,
}

impl Config {
    pub fn new(verbose: bool) -> (c: Config)
        ensures
            c.verbose == verbose,
    {
        Config { verbose }
    }
}

} // verus!

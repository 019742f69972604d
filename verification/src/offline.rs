//! Settings and statistics of the synchronous offline render through a sandbox child.

use crate::clock::{duration_from_millis, millis_duration};
use std::time::Duration;
use vstd::prelude::*;

verus! {

/// Default limit on one block's completion, in milliseconds.
pub const BLOCK_TIMEOUT_MS: u64 = 5000;

/// Per-block completion limits. The first block includes the plugin's load, which may take
/// longer.
#[derive(Clone, Copy, Debug)]
pub struct RenderOptions {
    pub first_block_timeout: Duration,
    pub block_timeout: Duration,
}

impl RenderOptions {
    /// The limit for block `seq` (numbered from 1).
    pub fn timeout_for_block(&self, seq: u64) -> (r: Duration)
        ensures
            r == if seq == 1 {
                self.first_block_timeout
            } else {
                self.block_timeout
            },
    {
        if seq == 1 {
            self.first_block_timeout
        } else {
            self.block_timeout
        }
    }
}

impl Default for RenderOptions {
    /// The same default limit for the first block and for the others.
    fn default() -> (r: Self)
        ensures
            r.first_block_timeout == millis_duration(BLOCK_TIMEOUT_MS),
            r.block_timeout == millis_duration(BLOCK_TIMEOUT_MS),
    {
        let limit = duration_from_millis(BLOCK_TIMEOUT_MS);
        RenderOptions { first_block_timeout: limit, block_timeout: limit }
    }
}

/// What the child reports of its processing: blocks passed through `process()` (failed or not)
/// and, among them, the blocks whose `process()` failed and were passed through dry.
#[derive(Clone, Copy, Debug, PartialEq, Eq, Structural)]
pub struct ChildStats {
    pub processed: u64,
    pub process_errors: u64,
}

impl Default for ChildStats {
    fn default() -> (r: Self)
        ensures
            r.processed == 0,
            r.process_errors == 0,
    {
        ChildStats { processed: 0, process_errors: 0 }
    }
}

} // verus!

//! Fleet tooling core: manifest parsing and resolution, project selection,
//! and multi-repository commit-history aggregation.

pub mod config;
pub mod manifest_resolve;
pub mod manifest_xml;
pub mod repo_history;
pub mod repo_project_selector;
pub mod text;

use vstd::prelude::*;

verus! {

/// Upper bound on the number of concurrent repository walkers; more workers
/// than this degrade throughput on repository I/O.
pub const MAX_NUMBER_OF_THREADS: usize = 18;

/// Number of workers for a pool given the machine's available parallelism:
/// the smaller of `available` and the fixed ceiling.
pub fn worker_count(available: usize) -> (n: usize)
    ensures
        n == if available <= MAX_NUMBER_OF_THREADS {
            available as int
        } else {
            MAX_NUMBER_OF_THREADS as int
        },
{
    if available <= MAX_NUMBER_OF_THREADS {
        available
    } else {
        MAX_NUMBER_OF_THREADS
    }
}

} // verus!

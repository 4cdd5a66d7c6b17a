//! Graph-building phases whose decisions are pure: each one turns rows
//! read from the graph into the statements that extend it.

use vstd::prelude::*;

pub mod embeddings;
pub mod enriching;
pub mod fts;
pub mod imports;
pub mod routes;

verus! {

/// Counters a phase reports back to the pipeline.
pub struct PhaseResult {
    pub nodes_created: u64,
    pub edges_created: u64,
    pub errors: u64,
}

impl Default for PhaseResult {
    fn default() -> (r: PhaseResult)
        ensures
            r.nodes_created == 0,
            r.edges_created == 0,
            r.errors == 0,
    {
        PhaseResult { nodes_created: 0, edges_created: 0, errors: 0 }
    }
}

} // verus!

use vstd::prelude::*;

use std::time::Instant;

verus! {

/// A moment of the monotonic clock of `std::time`.
#[verifier::external_type_specification]
#[verifier::external_body]
pub struct ExInstant(Instant);

/// `Instant::now`: the current moment. Nothing is stated of it: it depends on
/// the clock.
#[verifier::external_body]
pub(crate) fn clock_now() -> Instant {
    Instant::now()
}

/// `Instant::elapsed` of `start`, in nanoseconds (`Duration::as_nanos`).
/// Nothing is stated of it: it depends on the clock.
#[verifier::external_body]
pub(crate) fn nanos_since(start: &Instant) -> u128 {
    start.elapsed().as_nanos()
}

/// Counters that a search keeps about its work. Every counter saturates at
/// `usize::MAX`.
#[derive(Debug, Clone, Copy)]
pub struct SearchMetrics {
    pub nodes_expanded: usize,
    pub nodes_evaluated: usize,
    pub leaf_nodes: usize,

    pub alpha_cutoffs: usize,
    pub beta_cutoffs: usize,

    pub tt_hits: usize,
    pub tt_misses: usize,
    pub tt_lookups: usize,
    pub tt_cutoffs: usize,
    pub tt_stores: usize,

    pub max_depth_reached: usize,

    pub peak_nodes_in_memory: usize,
    pub peak_frontier_size: usize,

    pub peak_tt_entries: usize,

    pub estimated_stack_memory_bytes: usize,
    pub peak_structure_memory_bytes: usize,

    pub simulations: usize,

    pub elapsed_time_ns: u128,
}

impl SearchMetrics {
    /// All counters at zero.
    pub open spec fn zero() -> SearchMetrics {
        SearchMetrics {
            nodes_expanded: 0,
            nodes_evaluated: 0,
            leaf_nodes: 0,
            alpha_cutoffs: 0,
            beta_cutoffs: 0,
            tt_hits: 0,
            tt_misses: 0,
            tt_lookups: 0,
            tt_cutoffs: 0,
            tt_stores: 0,
            max_depth_reached: 0,
            peak_nodes_in_memory: 0,
            peak_frontier_size: 0,
            peak_tt_entries: 0,
            estimated_stack_memory_bytes: 0,
            peak_structure_memory_bytes: 0,
            simulations: 0,
            elapsed_time_ns: 0,
        }
    }
}

impl Default for SearchMetrics {
    fn default() -> (metrics: Self)
        ensures
            metrics == SearchMetrics::zero(),
    {
        SearchMetrics {
            nodes_expanded: 0,
            nodes_evaluated: 0,
            leaf_nodes: 0,
            alpha_cutoffs: 0,
            beta_cutoffs: 0,
            tt_hits: 0,
            tt_misses: 0,
            tt_lookups: 0,
            tt_cutoffs: 0,
            tt_stores: 0,
            max_depth_reached: 0,
            peak_nodes_in_memory: 0,
            peak_frontier_size: 0,
            peak_tt_entries: 0,
            estimated_stack_memory_bytes: 0,
            peak_structure_memory_bytes: 0,
            simulations: 0,
            elapsed_time_ns: 0,
        }
    }
}

} // verus!

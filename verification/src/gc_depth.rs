//! How many rounds back messages are retransmitted.
use vstd::prelude::*;

verus! {

/// The depth before it has been set.
pub const DEFAULT_GC_DEPTH_ROUNDS: u64 = 16;

/// The depth once it has been set for `n` nodes: four rounds per node, unless it was set before.
pub open spec fn depth_set(cell: Option<u64>, n: usize) -> Option<u64> {
    match cell {
        Some(depth) => Some(depth),
        None => Some((4 * n) as u64),
    }
}

/// Sets the depth for `n` nodes: four rounds per node. Only the first setting counts.
pub fn init_gc_depth_rounds(cell: &mut Option<u64>, n: usize)
    requires
        4 * n <= usize::MAX,
        4 * n <= u64::MAX,
    ensures
        *final(cell) == depth_set(*old(cell), n),
{
    if cell.is_none() {
        *cell = Some((4 * n) as u64);
    }
}

/// The depth that was set, or the default.
pub fn gc_depth_rounds(cell: &Option<u64>) -> (r: u64)
    ensures
        r == (match *cell {
            Some(depth) => depth,
            None => DEFAULT_GC_DEPTH_ROUNDS,
        }),
{
    match *cell {
        Some(depth) => depth,
        None => DEFAULT_GC_DEPTH_ROUNDS,
    }
}

/// Setting the depth again changes nothing.
pub proof fn law_first_depth_stays(cell: Option<u64>, n: usize, m: usize)
    ensures
        depth_set(depth_set(cell, n), m) == depth_set(cell, n),
{
}

/// The first setting is four rounds per node.
pub proof fn law_depth_is_four_rounds_per_node(n: usize)
    requires
        4 * n <= u64::MAX,
    ensures
        depth_set(None, n) matches Some(depth) && depth == 4 * n,
        forall|depth: u64| #[trigger] depth_set(Some(depth), n) == Some(depth),
{
}

} // verus!

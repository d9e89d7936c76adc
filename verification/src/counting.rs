//! A termination measure over the whole grid.
//!
//! Every step a carving strategy takes either turns a wall into space or
//! stamps a footprint onto a fresh space cell; both strictly lower the sum
//! of the per-cell weights, which bounds the carving loops.

use vstd::prelude::*;

use crate::cell::Cell;

verus! {

/// The sum of the weights of all cells.
pub open spec fn grid_measure(s: Seq<Cell>) -> nat
    decreases s.len(),
{
    if s.len() == 0 {
        0
    } else {
        grid_measure(s.drop_last()) + s.last().weight()
    }
}

/// Replacing one cell changes the measure by the difference of the weights.
pub proof fn lemma_measure_update(s: Seq<Cell>, i: int, v: Cell)
    requires
        0 <= i < s.len(),
    ensures
        grid_measure(s.update(i, v)) + s[i].weight() == grid_measure(s) + v.weight(),
    decreases s.len(),
{
    if i == s.len() - 1 {
        assert(s.update(i, v).drop_last() =~= s.drop_last());
        assert(s.update(i, v).last() == v);
    } else {
        assert(s.update(i, v).drop_last() =~= s.drop_last().update(i, v));
        assert(s.update(i, v).last() == s.last());
        lemma_measure_update(s.drop_last(), i, v);
        assert(s.drop_last()[i] == s[i]);
    }
}

} // verus!

//! Durable counter cell: a persisted 64-bit value used as a monotonically
//! increasing identifier source, one per table.

use crate::storage::cell_value;
use crate::storage::id_cell_get;
use crate::storage::id_cell_init;
use crate::storage::id_cell_reopen;
use crate::storage::id_cell_set;
use crate::storage::region_is_empty;
use crate::storage::IdCell;
use crate::storage::Region;
use vstd::prelude::*;

verus! {

/// Identifier monotonicity: over any run of values in which each entry is
/// one more than the one before it — the chain that [`Counter::next_id`]'s
/// contract produces, unbroken by [`Counter::reopen`], which keeps the
/// value — every later entry is strictly greater than every earlier one,
/// so no identifier is ever repeated.
pub proof fn lemma_ids_strictly_increase(values: Seq<u64>, i: int, j: int)
    requires
        forall|k: int| 0 <= k < values.len() - 1 ==> #[trigger] values[k + 1] == values[k] + 1,
        0 <= i < j < values.len(),
    ensures
        values[i] < values[j],
    decreases j - i,
{
    assert(values[i + 1] == values[i] + 1);
    if i + 1 < j {
        lemma_ids_strictly_increase(values, i + 1, j);
    }
}

/// A durable source of strictly increasing identifiers over one region.
pub struct Counter {
    cell: IdCell,
}

impl Counter {
    /// The value the counter holds, equal to the last identifier handed
    /// out (zero before the first).
    pub closed spec fn value(self) -> u64 {
        cell_value(self.cell)
    }

    /// Loads the persisted value from the region, or starts at zero over
    /// an empty region.
    pub fn init(r: Region) -> (c: Counter)
        ensures
            region_is_empty(r) ==> c.value() == 0,
    {
        Counter { cell: id_cell_init(r) }
    }

    /// Reads the current value without changing it.
    pub fn current(&self) -> (v: u64)
        ensures
            v == self.value(),
    {
        id_cell_get(&self.cell)
    }

    /// Persists the incremented value, then returns it as the next
    /// identifier: every call returns a value strictly greater than any
    /// value the cell held before, so identifiers start at one and never
    /// repeat.
    pub fn next_id(&mut self) -> (id: u64)
        requires
            old(self).value() < u64::MAX,
        ensures
            final(self).value() == old(self).value() + 1,
            id == final(self).value(),
            id > old(self).value(),
    {
        let v = id_cell_get(&self.cell);
        id_cell_set(&mut self.cell, v + 1);
        v + 1
    }

    /// Drops the in-memory state and re-initializes from the same region,
    /// as a process restart would; the value survives because every
    /// increment was persisted before it was returned.
    pub fn reopen(self) -> (c: Counter)
        ensures
            c.value() == self.value(),
    {
        Counter { cell: id_cell_reopen(self.cell) }
    }
}

} // verus!

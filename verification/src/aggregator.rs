//! The shared accumulator of output rows.
//!
//! One aggregator exists per run. Enrichment invocations append to it as
//! they complete — insertion order is completion order, and no other
//! ordering is promised — and the exporter reads it once, after the page
//! loop ends. Exclusive access during an append is the process's duty:
//! it holds the aggregator behind one lock, never across a network call.

use vstd::prelude::*;
use crate::harvest::OutputRow;

verus! {

/// The ordered, append-only collection of output rows.
pub struct ResultAggregator {
    rows: Vec<OutputRow>,
}

impl View for ResultAggregator {
    type V = Seq<OutputRow>;

    closed spec fn view(&self) -> Seq<OutputRow> {
        self.rows@
    }
}

impl ResultAggregator {
    /// An empty aggregator.
    pub fn new() -> (a: Self)
        ensures
            a@ == Seq::<OutputRow>::empty(),
    {
        ResultAggregator { rows: Vec::new() }
    }

    /// Append one completed row after all rows already accumulated.
    pub fn append(&mut self, row: OutputRow)
        ensures
            final(self)@ == old(self)@.push(row),
    {
        self.rows.push(row);
    }

    /// How many rows have accumulated so far.
    pub fn len(&self) -> (n: usize)
        ensures
            n == self@.len(),
    {
        self.rows.len()
    }

    /// The accumulated rows, in insertion order.
    pub fn rows(&self) -> (r: &Vec<OutputRow>)
        ensures
            r@ == self@,
    {
        &self.rows
    }
}

} // verus!

//! Boundary assertions: requirements that pin single cells of a trace.

use crate::field::Element;
use vstd::prelude::*;

verus! {

/// A requirement that the cell in register `column` at row `step` holds `value`.
#[derive(Clone, Copy, Debug, PartialEq, Eq, Structural)]
pub struct Assertion {
    pub column: usize,
    pub step: usize,
    pub value: Element,
}

impl Assertion {
    /// The assertion against a single cell.
    pub fn single(column: usize, step: usize, value: Element) -> (a: Assertion)
        ensures
            a == (Assertion { column, step, value }),
    {
        Assertion { column, step, value }
    }

    /// Whether the cell that this assertion names exists in `rows` and holds
    /// the asserted value.
    pub open spec fn holds_on(self, rows: Seq<Seq<int>>) -> bool {
        &&& self.step < rows.len()
        &&& self.column < rows[self.step as int].len()
        &&& rows[self.step as int][self.column as int] == self.value@
    }
}

/// Whether every one of `assertions` holds on `rows`.
pub open spec fn all_hold(assertions: Seq<Assertion>, rows: Seq<Seq<int>>) -> bool {
    forall|k: int| 0 <= k < assertions.len() ==> (#[trigger] assertions[k]).holds_on(rows)
}

} // verus!

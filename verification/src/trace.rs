//! The execution trace: a table with one row per step and one column per
//! state register.

use crate::field::{modulus, Element};
use vstd::prelude::*;

verus! {

/// The integer values of a row of elements.
pub open spec fn row_values(row: Seq<Element>) -> Seq<int> {
    Seq::new(row.len(), |c: int| row[c]@)
}

/// A table of field elements, `length` rows of `width` registers each.
pub struct Trace {
    width: usize,
    rows: Vec<Vec<Element>>,
}

impl View for Trace {
    type V = Seq<Seq<int>>;

    /// The rows of the table, each as the integer values of its registers.
    closed spec fn view(&self) -> Seq<Seq<int>> {
        Seq::new(self.rows@.len(), |i: int| row_values(self.rows@[i]@))
    }
}

impl Trace {
    #[verifier::type_invariant]
    spec fn well_formed(self) -> bool {
        &&& self.width > 0
        &&& self.rows@.len() > 0
        &&& forall|i: int| 0 <= i < self.rows@.len() ==> (#[trigger] self.rows@[i])@.len() == self.width
    }

    /// The number of registers in every row.
    pub closed spec fn spec_width(&self) -> nat {
        self.width as nat
    }

    /// The rows as they are stored, for contracts that speak of closures.
    pub closed spec fn stored_rows(&self) -> Seq<Vec<Element>> {
        self.rows@
    }

    /// The view is the stored rows, value by value.
    pub proof fn lemma_view_of_stored_rows(&self)
        ensures
            self@.len() == self.stored_rows().len(),
            forall|i: int|
                0 <= i < self@.len() ==> #[trigger] self@[i] == row_values(self.stored_rows()[i]@),
    {
    }

    /// Every cell of the table is a canonical field value.
    pub proof fn lemma_cells_canonical(&self)
        ensures
            forall|i: int, c: int|
                0 <= i < self@.len() && 0 <= c < self@[i].len() ==> 0 <= #[trigger] self@[i][c]
                    < modulus(),
    {
        assert forall|i: int, c: int| 0 <= i < self@.len() && 0 <= c < self@[i].len() implies 0
            <= #[trigger] self@[i][c] < modulus() by {
            self.rows@[i]@[c].lemma_canonical();
        }
    }

    /// Builds a table of `length` rows: `init` gives row 0, and `update`, called
    /// with the index of the last row and that row, gives the next one.
    pub fn fill<I, U>(width: usize, length: usize, init: I, update: U) -> (t: Trace) where
        I: FnOnce() -> Vec<Element>,
        U: Fn(usize, &Vec<Element>) -> Vec<Element>,

        requires
            width > 0,
            length > 0,
            init.requires(()),
            forall|first: Vec<Element>| init.ensures((), first) ==> first@.len() == width,
            forall|i: usize, state: &Vec<Element>|
                state@.len() == width ==> #[trigger] update.requires((i, state)),
            forall|i: usize, state: &Vec<Element>, next: Vec<Element>|
                #[trigger] update.ensures((i, state), next) ==> next@.len() == width,
        ensures
            t.spec_width() == width,
            t@.len() == length,
            t.stored_rows().len() == length,
            init.ensures((), t.stored_rows()[0]),
            forall|i: usize|
                #![trigger t.stored_rows()[i as int]]
                i + 1 < length ==> update.ensures(
                    (i, &t.stored_rows()[i as int]),
                    t.stored_rows()[i + 1],
                ),
            forall|i: int| 0 <= i < length ==> (#[trigger] t@[i]).len() == width,
    {
        let mut rows: Vec<Vec<Element>> = Vec::new();
        let first = init();
        rows.push(first);
        let mut i: usize = 0;
        while i < length - 1
            invariant
                width > 0,
                length > 0,
                i <= length - 1,
                rows@.len() == i + 1,
                forall|k: int| 0 <= k <= i ==> (#[trigger] rows@[k])@.len() == width,
                init.ensures((), rows@[0]),
                forall|k: usize|
                    #![trigger rows@[k as int]]
                    k < i ==> update.ensures((k, &rows@[k as int]), rows@[k + 1]),
                forall|k: usize, state: &Vec<Element>|
                    state@.len() == width ==> #[trigger] update.requires((k, state)),
                forall|k: usize, state: &Vec<Element>, next: Vec<Element>|
                    #[trigger] update.ensures((k, state), next) ==> next@.len() == width,
            decreases length - 1 - i,
        {
            let next = update(i, &rows[i]);
            rows.push(next);
            i += 1;
        }
        Trace { width, rows }
    }

    /// The number of registers.
    pub fn width(&self) -> (w: usize)
        ensures
            w == self.spec_width(),
            w > 0,
            forall|i: int| 0 <= i < self@.len() ==> (#[trigger] self@[i]).len() == w,
    {
        proof {
            use_type_invariant(self);
        }
        self.width
    }

    /// The number of rows.
    pub fn length(&self) -> (n: usize)
        ensures
            n == self@.len(),
            n > 0,
            self.spec_width() > 0,
    {
        proof {
            use_type_invariant(self);
        }
        self.rows.len()
    }

    /// The cell in register `column` at row `step`.
    pub fn get(&self, column: usize, step: usize) -> (e: Element)
        requires
            step < self@.len(),
            column < self.spec_width(),
        ensures
            e@ == self@[step as int][column as int],
    {
        proof {
            use_type_invariant(self);
        }
        self.rows[step][column]
    }
}

} // verus!

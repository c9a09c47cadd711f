//! The constraint system of the ten-term running-sum sequence: ten linear
//! transition constraints and eleven boundary assertions.

use crate::air::{all_hold, Assertion};
use crate::field::{modulus, sub_mod, Element};
use crate::tenacci::{
    advance, advance_by, lemma_advance_by_index, lemma_advance_by_len, lemma_advance_window_by,
    lemma_rows_are_windows, lemma_tenacci_canonical, seed, seed_row, sum_elements, sum_of, tenacci,
    tenacci_rows, tenacci_window, WINDOW,
};
use crate::trace::{row_values, Trace};
use vstd::arithmetic::div_mod::{lemma_mod_bound, lemma_mod_multiples_vanish, lemma_small_mod};
use vstd::prelude::*;

verus! {

/// The number of boundary assertions placed against a trace.
pub const NUM_ASSERTIONS: usize = 11;

/// The degree of every transition constraint.
pub const TRANSITION_DEGREE: usize = 1;

/// The ten values that constraint `k` sums: what is left of `current` from
/// register `k` on, then the first `k` registers of `next`.
pub open spec fn constraint_window(current: Seq<int>, next: Seq<int>, k: int) -> Seq<int> {
    current.skip(k) + next.take(k)
}

/// The residual of constraint `k`: register `k` of `next` less the sum of its window.
pub open spec fn tenacci_residual(current: Seq<int>, next: Seq<int>, k: int) -> int {
    sub_mod(next[k], sum_of(constraint_window(current, next, k)) % modulus())
}

/// Whether all ten constraints hold between two neighbouring rows.
pub open spec fn transition_holds(current: Seq<int>, next: Seq<int>) -> bool {
    forall|k: int| 0 <= k < 10 ==> #[trigger] tenacci_residual(current, next, k) == 0
}

/// Whether every pair of neighbouring rows meets the ten constraints.
pub open spec fn transitions_hold(rows: Seq<Seq<int>>) -> bool {
    forall|r: int| 0 <= r < rows.len() - 1 ==> transition_holds(#[trigger] rows[r], rows[r + 1])
}

/// What a [`TenAcciAir`] stands for.
pub struct TenAcciAirView {
    pub trace_length: nat,
    pub result: int,
}

/// Whether `rows` is an execution that an instance accepts: it has the
/// instance's shape, every transition meets the constraints, the first row
/// is the seed, and the last register of the last row is the result.
pub open spec fn accepts(air: TenAcciAirView, rows: Seq<Seq<int>>) -> bool {
    &&& rows.len() == air.trace_length
    &&& rows.len() > 0
    &&& forall|r: int| 0 <= r < rows.len() ==> (#[trigger] rows[r]).len() == WINDOW
    &&& transitions_hold(rows)
    &&& rows[0] == seed()
    &&& rows[rows.len() - 1][9] == air.result
}

/// Whether `assertions` is the list that an instance places: the ten
/// registers of row 0 hold the seed, and register 9 of the last row holds
/// the result.
pub open spec fn assertions_of(air: TenAcciAirView, assertions: Seq<Assertion>) -> bool {
    &&& assertions.len() == NUM_ASSERTIONS
    &&& forall|j: int|
        0 <= j < 10 ==> {
            &&& (#[trigger] assertions[j]).column == j
            &&& assertions[j].step == 0
            &&& assertions[j].value@ == seed()[j]
        }
    &&& assertions[10].column == 9
    &&& assertions[10].step == air.trace_length - 1
    &&& assertions[10].value@ == air.result
}

/// One instance of the computation: a trace length and the term that the
/// last row is held to end in.
pub struct TenAcciAir {
    trace_length: usize,
    result: Element,
}

impl View for TenAcciAir {
    type V = TenAcciAirView;

    closed spec fn view(&self) -> TenAcciAirView {
        TenAcciAirView { trace_length: self.trace_length as nat, result: self.result@ }
    }
}

impl TenAcciAir {
    #[verifier::type_invariant]
    spec fn well_formed(self) -> bool {
        self.trace_length > 0
    }

    /// The instance for a trace of ten registers and `trace_length` rows.
    pub fn new(trace_width: usize, trace_length: usize, pub_inputs: Element) -> (air: TenAcciAir)
        requires
            trace_width == WINDOW,
            trace_length > 0,
        ensures
            air@.trace_length == trace_length,
            air@.result == pub_inputs@,
    {
        TenAcciAir { trace_length, result: pub_inputs }
    }

    /// The number of rows of the trace.
    pub fn trace_length(&self) -> (n: usize)
        ensures
            n == self@.trace_length,
            n > 0,
    {
        proof {
            use_type_invariant(self);
        }
        self.trace_length
    }

    /// The declared degree of each transition constraint, one entry for
    /// each residual that [`TenAcciAir::evaluate_transition`] writes.
    pub fn transition_degrees(&self) -> (degrees: Vec<usize>)
        ensures
            degrees@ == Seq::new(WINDOW as nat, |k: int| TRANSITION_DEGREE),
    {
        let mut degrees: Vec<usize> = Vec::new();
        let mut k: usize = 0;
        while k < WINDOW
            invariant
                k <= WINDOW,
                degrees@.len() == k,
                forall|j: int| 0 <= j < k ==> #[trigger] degrees@[j] == TRANSITION_DEGREE,
            decreases WINDOW - k,
        {
            degrees.push(TRANSITION_DEGREE);
            k += 1;
        }
        assert(degrees@ =~= Seq::new(WINDOW as nat, |k: int| TRANSITION_DEGREE));
        degrees
    }

    /// Writes the residuals of the ten constraints between `current` and
    /// `next` into the first ten places of `result`.
    pub fn evaluate_transition(
        &self,
        current: &[Element],
        next: &[Element],
        _periodic_values: &[Element],
        result: &mut Vec<Element>,
    )
        requires
            current@.len() == WINDOW,
            next@.len() == WINDOW,
            old(result)@.len() >= WINDOW,
        ensures
            final(result)@.len() == old(result)@.len(),
            forall|k: int|
                0 <= k < 10 ==> (#[trigger] final(result)@[k])@ == tenacci_residual(
                    row_values(current@),
                    row_values(next@),
                    k,
                ),
            forall|k: int| 10 <= k < old(result)@.len() ==> final(result)@[k] == old(result)@[k],
    {
        let mut k: usize = 0;
        while k < WINDOW
            invariant
                k <= WINDOW,
                current@.len() == WINDOW,
                next@.len() == WINDOW,
                result@.len() == old(result)@.len(),
                result@.len() >= WINDOW,
                forall|j: int|
                    0 <= j < k ==> (#[trigger] result@[j])@ == tenacci_residual(
                        row_values(current@),
                        row_values(next@),
                        j,
                    ),
                forall|j: int| 10 <= j < result@.len() ==> result@[j] == old(result)@[j],
            decreases WINDOW - k,
        {
            let window = gather_window(current, next, k);
            let expected = sum_elements(&window);
            result.set(k, next[k].sub(expected));
            k += 1;
        }
    }

    /// The boundary assertions, as many as [`NUM_ASSERTIONS`] declares: the
    /// ten registers of row 0 hold the seed, and register 9 of the last row
    /// holds the result.
    pub fn get_assertions(&self) -> (assertions: Vec<Assertion>)
        ensures
            assertions_of(self@, assertions@),
    {
        let last_step = self.trace_length() - 1;
        let first = seed_row();
        assert(row_values(first@).len() == seed().len());
        let mut assertions: Vec<Assertion> = Vec::new();
        let mut j: usize = 0;
        while j < WINDOW
            invariant
                j <= WINDOW,
                first@.len() == WINDOW,
                row_values(first@) == seed(),
                assertions@.len() == j,
                forall|i: int|
                    0 <= i < j ==> {
                        &&& (#[trigger] assertions@[i]).column == i
                        &&& assertions@[i].step == 0
                        &&& assertions@[i].value@ == seed()[i]
                    },
            decreases WINDOW - j,
        {
            assert(row_values(first@)[j as int] == first@[j as int]@);
            assertions.push(Assertion::single(j, 0, first[j]));
            j += 1;
        }
        assertions.push(Assertion::single(WINDOW - 1, last_step, self.result));
        assertions
    }
}

/// The elements that constraint `k` sums, in the order of their terms.
fn gather_window(current: &[Element], next: &[Element], k: usize) -> (window: Vec<Element>)
    requires
        current@.len() == WINDOW,
        next@.len() == WINDOW,
        k < WINDOW,
    ensures
        row_values(window@) == constraint_window(row_values(current@), row_values(next@), k as int),
{
    let mut window: Vec<Element> = Vec::new();
    let mut j: usize = k;
    while j < WINDOW
        invariant
            k <= j <= WINDOW,
            current@.len() == WINDOW,
            window@.len() == j - k,
            forall|i: int| 0 <= i < j - k ==> #[trigger] window@[i] == current@[k + i],
        decreases WINDOW - j,
    {
        window.push(current[j]);
        j += 1;
    }
    let mut j: usize = 0;
    while j < k
        invariant
            j <= k < WINDOW,
            next@.len() == WINDOW,
            current@.len() == WINDOW,
            window@.len() == WINDOW - k + j,
            forall|i: int| 0 <= i < WINDOW - k ==> #[trigger] window@[i] == current@[k + i],
            forall|i: int| 0 <= i < j ==> #[trigger] window@[WINDOW - k + i] == next@[i],
        decreases k - j,
    {
        window.push(next[j]);
        j += 1;
    }
    proof {
        let target = constraint_window(row_values(current@), row_values(next@), k as int);
        assert(row_values(window@).len() == target.len());
        assert forall|i: int| 0 <= i < 10 implies row_values(window@)[i] == target[i] by {
            if i < WINDOW - k {
                assert(window@[i] == current@[k + i]);
            } else {
                assert(window@[WINDOW - k + (i - (WINDOW - k))] == next@[i - (WINDOW - k)]);
            }
        }
        assert(row_values(window@) =~= target);
    }
    window
}

/// Constraint `k` is exact: on a canonical `next[k]`, its residual is zero
/// if and only if `next[k]` is the sum of the constraint's window.
pub proof fn lemma_residual_zero_iff(current: Seq<int>, next: Seq<int>, k: int)
    requires
        0 <= next[k] < modulus(),
    ensures
        tenacci_residual(current, next, k) == 0 <==> next[k] == sum_of(
            constraint_window(current, next, k),
        ) % modulus(),
{
    let m = modulus();
    let expected = sum_of(constraint_window(current, next, k)) % m;
    lemma_mod_bound(sum_of(constraint_window(current, next, k)), m);
    let d = next[k] - expected;
    if d >= 0 {
        lemma_small_mod(d as nat, m as nat);
    } else {
        lemma_mod_multiples_vanish(1, d, m);
        lemma_small_mod((m + d) as nat, m as nat);
    }
}

/// While the first `k` registers of `next` are the sums of their windows,
/// window `k` is `current` moved on by `k` terms.
proof fn lemma_window_is_advance(current: Seq<int>, next: Seq<int>, k: nat)
    requires
        current.len() == 10,
        next.len() == 10,
        k <= 10,
        forall|j: int|
            0 <= j < k ==> next[j] == sum_of(#[trigger] constraint_window(current, next, j))
                % modulus(),
    ensures
        advance_by(current, k) == constraint_window(current, next, k as int),
    decreases k,
{
    if k == 0 {
        assert(constraint_window(current, next, 0) =~= current);
    } else {
        lemma_window_is_advance(current, next, (k - 1) as nat);
        let before = constraint_window(current, next, k - 1);
        assert(next[k - 1] == sum_of(before) % modulus());
        assert(advance(before) =~= constraint_window(current, next, k as int));
    }
}

/// The ten constraints are exact: on a canonical `next`, they all hold if
/// and only if `next` is `current` moved on by ten terms.
pub proof fn lemma_transition_exact(current: Seq<int>, next: Seq<int>)
    requires
        current.len() == 10,
        next.len() == 10,
        forall|k: int| 0 <= k < 10 ==> 0 <= #[trigger] next[k] < modulus(),
    ensures
        transition_holds(current, next) <==> next == advance_by(current, 10),
{
    if transition_holds(current, next) {
        assert forall|j: int| 0 <= j < 10 implies next[j] == sum_of(
            #[trigger] constraint_window(current, next, j),
        ) % modulus() by {
            assert(tenacci_residual(current, next, j) == 0);
            lemma_residual_zero_iff(current, next, j);
        }
        lemma_window_is_advance(current, next, 10);
        assert(constraint_window(current, next, 10) =~= next);
    }
    if next == advance_by(current, 10) {
        lemma_sums_of_advance(current, next, 10);
        assert forall|k: int| 0 <= k < 10 implies #[trigger] tenacci_residual(current, next, k)
            == 0 by {
            assert(next[k] == sum_of(constraint_window(current, next, k)) % modulus());
            lemma_residual_zero_iff(current, next, k);
        }
    }
}

/// When `next` is `current` moved on by ten terms, each of its first `k`
/// registers is the sum of its window.
proof fn lemma_sums_of_advance(current: Seq<int>, next: Seq<int>, k: nat)
    requires
        current.len() == 10,
        next.len() == 10,
        k <= 10,
        next == advance_by(current, 10),
    ensures
        forall|j: int|
            0 <= j < k ==> next[j] == sum_of(#[trigger] constraint_window(current, next, j))
                % modulus(),
    decreases k,
{
    if k > 0 {
        lemma_sums_of_advance(current, next, (k - 1) as nat);
        lemma_window_is_advance(current, next, (k - 1) as nat);
        let moved = advance_by(current, (k - 1) as nat);
        assert(advance_by(current, k) == advance(moved));
        lemma_advance_by_len(current, (k - 1) as nat);
        assert(advance_by(current, k)[9] == sum_of(moved) % modulus());
        lemma_advance_by_index(current, k, (10 - k) as nat, k - 1);
    }
}

/// On a table of an instance's shape, the instance's assertions all hold
/// exactly when the first row is the seed and the last register of the
/// last row is the result.
pub proof fn lemma_assertions_are_the_boundary(
    air: TenAcciAirView,
    assertions: Seq<Assertion>,
    rows: Seq<Seq<int>>,
)
    requires
        air.trace_length > 0,
        assertions_of(air, assertions),
        rows.len() == air.trace_length,
        forall|r: int| 0 <= r < rows.len() ==> (#[trigger] rows[r]).len() == WINDOW,
    ensures
        all_hold(assertions, rows) <==> rows[0] == seed() && rows.last()[9] == air.result,
{
    if all_hold(assertions, rows) {
        assert forall|j: int| 0 <= j < 10 implies rows[0][j] == seed()[j] by {
            assert(assertions[j].holds_on(rows));
        }
        assert(rows[0] =~= seed());
        assert(assertions[10].holds_on(rows));
    }
}

/// The last register of the last row of the trace of a sequence of
/// `sequence_length` terms is the term at position `sequence_length`.
pub proof fn lemma_last_cell_is_terminal_term(sequence_length: nat)
    requires
        sequence_length > 0,
        sequence_length % 10 == 0,
    ensures
        tenacci_rows(sequence_length / 10).last()[9] == tenacci((sequence_length - 1) as nat),
{
}

/// The trace of a sequence is accepted by the instance whose result is the
/// last term of the sequence.
pub proof fn lemma_honest_trace_accepted(length: nat)
    requires
        length >= 1,
    ensures
        accepts(
            TenAcciAirView { trace_length: length, result: tenacci((10 * length - 1) as nat) },
            tenacci_rows(length),
        ),
{
    let rows = tenacci_rows(length);
    assert(rows[0] =~= seed());
    assert forall|r: int| 0 <= r < rows.len() - 1 implies transition_holds(
        #[trigger] rows[r],
        rows[r + 1],
    ) by {
        lemma_advance_window_by((10 * r) as nat, 10);
        assert forall|k: int| 0 <= k < 10 implies 0 <= #[trigger] rows[r + 1][k] < modulus() by {
            lemma_tenacci_canonical((10 * (r + 1) + k) as nat);
        }
        lemma_transition_exact(rows[r], rows[r + 1]);
    }
}

/// A trace that an instance accepts is the trace of the sequence, and the
/// instance's result is the last term of that trace.
pub proof fn lemma_accepted_trace_is_the_run(air: TenAcciAirView, trace: Trace)
    requires
        accepts(air, trace@),
    ensures
        trace@ == tenacci_rows(air.trace_length),
        air.result == tenacci((10 * air.trace_length - 1) as nat),
{
    let rows = trace@;
    trace.lemma_cells_canonical();
    assert(seed() =~= tenacci_window(0));
    assert forall|r: int| 0 <= r < rows.len() - 1 implies #[trigger] rows[r + 1] == advance_by(
        rows[r],
        10,
    ) by {
        assert(transition_holds(rows[r], rows[r + 1]));
        assert forall|k: int| 0 <= k < 10 implies 0 <= #[trigger] rows[r + 1][k] < modulus() by {
        }
        lemma_transition_exact(rows[r], rows[r + 1]);
    }
    assert forall|r: int| 0 <= r < rows.len() implies #[trigger] rows[r] == tenacci_rows(
        air.trace_length,
    )[r] by {
        lemma_rows_are_windows(rows, r as nat);
    }
    assert(rows =~= tenacci_rows(air.trace_length));
}

/// No trace is accepted once the last term of the sequence is moved on by one.
pub proof fn lemma_wrong_result_rejected(length: nat, trace: Trace)
    requires
        length >= 1,
    ensures
        !accepts(
            TenAcciAirView {
                trace_length: length,
                result: (tenacci((10 * length - 1) as nat) + 1) % modulus(),
            },
            trace@,
        ),
{
    let honest = tenacci((10 * length - 1) as nat);
    let wrong = TenAcciAirView { trace_length: length, result: (honest + 1) % modulus() };
    lemma_tenacci_canonical((10 * length - 1) as nat);
    if accepts(wrong, trace@) {
        lemma_accepted_trace_is_the_run(wrong, trace);
        if honest + 1 < modulus() {
            lemma_small_mod((honest + 1) as nat, modulus() as nat);
        } else {
            lemma_mod_multiples_vanish(1, 0, modulus());
            lemma_small_mod(0, modulus() as nat);
        }
    }
}

} // verus!

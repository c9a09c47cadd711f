//! The constraint system of the cubic recurrence: one transition constraint
//! of degree three and two boundary assertions.

use crate::air::{all_hold, Assertion};
use crate::field::{lemma_successor_differs, modulus, sub_mod, Element};
use crate::trace::Trace;
use crate::work::{next_state, work_rows, work_step, work_term};
use vstd::arithmetic::div_mod::{lemma_mod_bound, lemma_mod_multiples_vanish, lemma_small_mod};
use vstd::prelude::*;

verus! {

/// The width of the trace that the constraints speak of.
pub const TRACE_WIDTH: usize = 1;

/// The number of boundary assertions placed against a trace.
pub const NUM_ASSERTIONS: usize = 2;

/// The degree of the single transition constraint.
pub const TRANSITION_DEGREE: usize = 3;

/// The residual of the transition constraint between two neighbouring
/// states: `next - (current^3 + 42)` in the field.
pub open spec fn work_residual(current: int, next: int) -> int {
    sub_mod(next, work_step(current))
}

/// Whether every pair of neighbouring rows meets the transition constraint.
pub open spec fn transitions_hold(rows: Seq<Seq<int>>) -> bool {
    forall|k: int|
        0 <= k < rows.len() - 1 ==> work_residual((#[trigger] rows[k])[0], rows[k + 1][0]) == 0
}

/// Whether `rows` is an execution that an instance accepts: it has the
/// instance's shape, every transition meets the constraint, and the two
/// boundary cells hold the public inputs.
pub open spec fn accepts(air: WorkAirView, rows: Seq<Seq<int>>) -> bool {
    &&& rows.len() == air.trace_length
    &&& rows.len() > 0
    &&& forall|i: int| 0 <= i < rows.len() ==> (#[trigger] rows[i]).len() == TRACE_WIDTH
    &&& transitions_hold(rows)
    &&& rows[0][0] == air.start
    &&& rows[rows.len() - 1][0] == air.result
}

/// Whether `assertions` is the list that an instance places: register 0
/// holds `start` at row 0 and `result` at the last row.
pub open spec fn assertions_of(air: WorkAirView, assertions: Seq<Assertion>) -> bool {
    &&& assertions.len() == NUM_ASSERTIONS
    &&& assertions[0].column == 0
    &&& assertions[0].step == 0
    &&& assertions[0].value@ == air.start
    &&& assertions[1].column == 0
    &&& assertions[1].step == air.trace_length - 1
    &&& assertions[1].value@ == air.result
}

/// The public inputs of one run: where it started and what it reached.
#[derive(Clone, Copy, Debug, PartialEq, Eq, Structural)]
pub struct PublicInputs {
    pub start: Element,
    pub result: Element,
}

impl PublicInputs {
    /// The inputs as a list of field elements, `start` first.
    pub fn to_elements(&self) -> (elements: Vec<Element>)
        ensures
            elements@ == seq![self.start, self.result],
    {
        let mut elements: Vec<Element> = Vec::new();
        elements.push(self.start);
        elements.push(self.result);
        assert(elements@ =~= seq![self.start, self.result]);
        elements
    }

    /// The same inputs with the result moved on by one, which no honest
    /// run from `start` of the same length reaches.
    pub fn with_wrong_result(&self) -> (wrong: PublicInputs)
        ensures
            wrong.start == self.start,
            wrong.result@ == (self.result@ + 1) % modulus(),
            wrong.result@ != self.result@,
    {
        proof {
            lemma_successor_differs(self.result);
        }
        PublicInputs { start: self.start, result: self.result.add(Element::one()) }
    }
}

/// What a [`WorkAir`] stands for.
pub struct WorkAirView {
    pub trace_length: nat,
    pub start: int,
    pub result: int,
}

/// One instance of the computation: a trace length and the public inputs
/// that a trace of that length is held to.
pub struct WorkAir {
    trace_length: usize,
    start: Element,
    result: Element,
}

impl View for WorkAir {
    type V = WorkAirView;

    closed spec fn view(&self) -> WorkAirView {
        WorkAirView {
            trace_length: self.trace_length as nat,
            start: self.start@,
            result: self.result@,
        }
    }
}

impl WorkAir {
    #[verifier::type_invariant]
    spec fn well_formed(self) -> bool {
        self.trace_length > 0
    }

    /// The instance for a trace of one register and `trace_length` rows.
    pub fn new(trace_width: usize, trace_length: usize, pub_inputs: PublicInputs) -> (air: WorkAir)
        requires
            trace_width == TRACE_WIDTH,
            trace_length > 0,
        ensures
            air@.trace_length == trace_length,
            air@.start == pub_inputs.start@,
            air@.result == pub_inputs.result@,
    {
        WorkAir { trace_length, start: pub_inputs.start, result: pub_inputs.result }
    }

    /// The number of rows of the trace.
    pub fn trace_length(&self) -> (n: usize)
        ensures
            n == self@.trace_length,
            n > 0,
    {
        proof {
            use_type_invariant(self);
        }
        self.trace_length
    }

    /// The declared degree of each transition constraint.
    pub fn transition_degrees(&self) -> (degrees: Vec<usize>)
        ensures
            degrees@ == seq![TRANSITION_DEGREE],
    {
        let mut degrees: Vec<usize> = Vec::new();
        degrees.push(TRANSITION_DEGREE);
        assert(degrees@ =~= seq![TRANSITION_DEGREE]);
        degrees
    }

    /// Writes the residual of the transition from `current` to `next` into
    /// `result[0]`; it is zero exactly when `next` follows `current`.
    pub fn evaluate_transition(
        &self,
        current: &[Element],
        next: &[Element],
        _periodic_values: &[Element],
        result: &mut Vec<Element>,
    )
        requires
            current@.len() >= 1,
            next@.len() >= 1,
            old(result)@.len() >= 1,
        ensures
            final(result)@.len() == old(result)@.len(),
            final(result)@[0]@ == work_residual(current@[0]@, next@[0]@),
            forall|k: int| 1 <= k < old(result)@.len() ==> final(result)@[k] == old(result)@[k],
    {
        let current_state = current[0];
        let expected = next_state(current_state);
        result.set(0, next[0].sub(expected));
    }

    /// The boundary assertions, as many as [`NUM_ASSERTIONS`] declares.
    pub fn get_assertions(&self) -> (assertions: Vec<Assertion>)
        ensures
            assertions_of(self@, assertions@),
    {
        let last_step = self.trace_length() - 1;
        let mut assertions: Vec<Assertion> = Vec::new();
        assertions.push(Assertion::single(0, 0, self.start));
        assertions.push(Assertion::single(0, last_step, self.result));
        assertions
    }
}

/// Every term of the recurrence from a canonical start is canonical.
pub proof fn lemma_work_term_canonical(start: Element, steps: nat)
    ensures
        0 <= work_term(start@, steps) < modulus(),
    decreases steps,
{
    if steps == 0 {
        start.lemma_canonical();
    } else {
        let x = work_term(start@, (steps - 1) as nat);
        lemma_mod_bound(x * x * x + 42, modulus());
    }
}

/// The transition constraint is exact: on a canonical `next`, the residual
/// is zero if and only if `next` is the state that follows `current`.
pub proof fn lemma_residual_zero_iff(current: int, next: int)
    requires
        0 <= next < modulus(),
    ensures
        work_residual(current, next) == 0 <==> next == work_step(current),
{
    let m = modulus();
    let expected = work_step(current);
    lemma_mod_bound(current * current * current + 42, m);
    let d = next - expected;
    if d >= 0 {
        lemma_small_mod(d as nat, m as nat);
    } else {
        lemma_mod_multiples_vanish(1, d, m);
        lemma_small_mod((m + d) as nat, m as nat);
    }
}

/// On a table of an instance's shape, the instance's assertions all hold
/// exactly when the two boundary cells hold the public inputs.
pub proof fn lemma_assertions_are_the_boundary(
    air: WorkAirView,
    assertions: Seq<Assertion>,
    rows: Seq<Seq<int>>,
)
    requires
        air.trace_length > 0,
        assertions_of(air, assertions),
        rows.len() == air.trace_length,
        forall|i: int| 0 <= i < rows.len() ==> (#[trigger] rows[i]).len() == TRACE_WIDTH,
    ensures
        all_hold(assertions, rows) <==> rows[0][0] == air.start && rows.last()[0] == air.result,
{
    if all_hold(assertions, rows) {
        assert(assertions[0].holds_on(rows));
        assert(assertions[1].holds_on(rows));
    }
}

/// The last cell of the trace of a run is the terminal value of that run,
/// however long the run and wherever it starts.
pub proof fn lemma_last_cell_is_terminal_value(start: int, n: nat)
    requires
        n >= 1,
    ensures
        work_rows(start, n).last()[0] == work_term(start, (n - 1) as nat),
{
}

/// The trace of a run is accepted by the instance whose public inputs are
/// the run's start and its terminal value.
pub proof fn lemma_honest_trace_accepted(start: Element, n: nat)
    requires
        n >= 1,
    ensures
        accepts(
            WorkAirView {
                trace_length: n,
                start: start@,
                result: work_term(start@, (n - 1) as nat),
            },
            work_rows(start@, n),
        ),
{
    let rows = work_rows(start@, n);
    assert forall|k: int| 0 <= k < rows.len() - 1 implies work_residual(
        (#[trigger] rows[k])[0],
        rows[k + 1][0],
    ) == 0 by {
        lemma_work_term_canonical(start, (k + 1) as nat);
        lemma_residual_zero_iff(rows[k][0], rows[k + 1][0]);
    }
}

/// A trace that an instance accepts is the run from the instance's start,
/// and the instance's result is the terminal value of that run.
pub proof fn lemma_accepted_trace_is_the_run(air: WorkAirView, trace: Trace)
    requires
        accepts(air, trace@),
    ensures
        trace@ == work_rows(air.start, air.trace_length),
        air.result == work_term(air.start, (air.trace_length - 1) as nat),
{
    let rows = trace@;
    trace.lemma_cells_canonical();
    assert forall|i: int| 0 <= i < rows.len() implies #[trigger] rows[i] == work_rows(
        air.start,
        air.trace_length,
    )[i] by {
        lemma_accepted_rows_follow_recurrence(air, rows, i as nat);
        assert(rows[i] =~= seq![work_term(air.start, i as nat)]);
    }
    assert(rows =~= work_rows(air.start, air.trace_length));
}

/// The cell of row `i` in an accepted table of canonical values.
proof fn lemma_accepted_rows_follow_recurrence(air: WorkAirView, rows: Seq<Seq<int>>, i: nat)
    requires
        accepts(air, rows),
        i < rows.len(),
        forall|r: int, c: int|
            0 <= r < rows.len() && 0 <= c < rows[r].len() ==> 0 <= #[trigger] rows[r][c] < modulus(),
    ensures
        rows[i as int][0] == work_term(air.start, i),
    decreases i,
{
    if i > 0 {
        lemma_accepted_rows_follow_recurrence(air, rows, (i - 1) as nat);
        assert(work_residual(rows[i - 1][0], rows[(i - 1) + 1][0]) == 0);
        assert(0 <= rows[i as int][0] < modulus());
        lemma_residual_zero_iff(rows[i - 1][0], rows[i as int][0]);
    }
}

/// No trace is accepted once the result of an honest run is moved on by one.
pub proof fn lemma_wrong_result_rejected(start: Element, n: nat, trace: Trace)
    requires
        n >= 1,
    ensures
        !accepts(
            WorkAirView {
                trace_length: n,
                start: start@,
                result: (work_term(start@, (n - 1) as nat) + 1) % modulus(),
            },
            trace@,
        ),
{
    let honest = work_term(start@, (n - 1) as nat);
    let wrong = WorkAirView { trace_length: n, start: start@, result: (honest + 1) % modulus() };
    lemma_work_term_canonical(start, (n - 1) as nat);
    if accepts(wrong, trace@) {
        lemma_accepted_trace_is_the_run(wrong, trace);
        if honest + 1 < modulus() {
            lemma_small_mod((honest + 1) as nat, modulus() as nat);
        } else {
            lemma_mod_multiples_vanish(1, 0, modulus());
            lemma_small_mod(0, modulus() as nat);
        }
    }
}

} // verus!

//! The cubic recurrence `x <- x^3 + 42`: its terminal value, its execution
//! trace and the public inputs read from a trace.

use crate::field::{modulus, Element};
use crate::trace::Trace;
use vstd::arithmetic::div_mod::{lemma_add_mod_noop, lemma_small_mod};
use vstd::arithmetic::power::{lemma_pow1, lemma_pow_adds, pow};
use vstd::prelude::*;

verus! {

/// One step of the recurrence on canonical values: `(x^3 + 42) mod p`.
pub open spec fn work_step(x: int) -> int {
    (x * x * x + 42) % modulus()
}

/// The value reached from `start` after `steps` steps.
pub open spec fn work_term(start: int, steps: nat) -> int
    decreases steps,
{
    if steps == 0 {
        start
    } else {
        work_step(work_term(start, (steps - 1) as nat))
    }
}

/// The one-register table whose row `i` holds the value after `i` steps.
pub open spec fn work_rows(start: int, length: nat) -> Seq<Seq<int>> {
    Seq::new(length, |i: int| seq![work_term(start, i as nat)])
}

/// The state that follows `x`.
pub fn next_state(x: Element) -> (r: Element)
    ensures
        r@ == work_step(x@),
{
    let cube = x.exp(3);
    let r = cube.add(Element::new(42));
    proof {
        let m = modulus();
        lemma_pow1(x@);
        lemma_pow_adds(x@, 1, 1);
        lemma_pow_adds(x@, 2, 1);
        assert(pow(x@, 3) == x@ * x@ * x@);
        lemma_small_mod(42, m as nat);
        lemma_add_mod_noop(x@ * x@ * x@, 42, m);
    }
    r
}

/// The terminal value of a run of `n` rows from `start`: the recurrence
/// applied `n - 1` times (not at all for `n <= 1`).
pub fn do_work(start: Element, n: usize) -> (result: Element)
    ensures
        n >= 1 ==> result@ == work_term(start@, (n - 1) as nat),
        n == 0 ==> result@ == start@,
{
    let mut result = start;
    let mut i: usize = 1;
    while i < n
        invariant
            1 <= i,
            i <= n || i == 1,
            result@ == work_term(start@, (i - 1) as nat),
        decreases n - i,
    {
        result = next_state(result);
        i += 1;
    }
    result
}

/// The trace of `n` rows and one register: row 0 holds `start`, and each
/// further row the state that follows the one before.
pub fn build_do_work_trace(start: Element, n: usize) -> (trace: Trace)
    requires
        n > 0,
    ensures
        trace.spec_width() == 1,
        trace@ == work_rows(start@, n as nat),
{
    let init = || -> (state: Vec<Element>)
        ensures
            state@.len() == 1,
            state@[0] == start,
        {
            let mut state: Vec<Element> = Vec::new();
            state.push(start);
            state
        };
    let update = |_step: usize, state: &Vec<Element>| -> (next: Vec<Element>)
        requires
            state@.len() == 1,
        ensures
            next@.len() == 1,
            next@[0]@ == work_step(state@[0]@),
        {
            let mut next: Vec<Element> = Vec::new();
            next.push(next_state(state[0]));
            next
        };
    let trace = Trace::fill(1, n, init, update);
    proof {
        trace.lemma_view_of_stored_rows();
        assert forall|k: int| 0 <= k < n - 1 implies (#[trigger] trace@[k + 1])[0] == work_step(
            trace@[k][0],
        ) by {
            let i = k as usize;
            assert(update.ensures((i, &trace.stored_rows()[i as int]), trace.stored_rows()[i + 1]));
        }
        assert forall|i: int| 0 <= i < n implies #[trigger] trace@[i] == work_rows(
            start@,
            n as nat,
        )[i] by {
            lemma_rows_follow_recurrence(trace@, start@, i as nat);
            assert(trace@[i] =~= seq![work_term(start@, i as nat)]);
        }
        assert(trace@ =~= work_rows(start@, n as nat));
    }
    trace
}

/// Rows that start at `start` and step by the recurrence hold its terms.
proof fn lemma_rows_follow_recurrence(rows: Seq<Seq<int>>, start: int, i: nat)
    requires
        i < rows.len(),
        rows[0][0] == start,
        forall|k: int| 0 <= k < rows.len() - 1 ==> (#[trigger] rows[k + 1])[0] == work_step(rows[k][0]),
    ensures
        rows[i as int][0] == work_term(start, i),
    decreases i,
{
    if i > 0 {
        lemma_rows_follow_recurrence(rows, start, (i - 1) as nat);
        assert(rows[(i - 1) + 1][0] == work_step(rows[i - 1][0]));
    }
}

} // verus!

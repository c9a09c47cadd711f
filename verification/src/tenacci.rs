//! The ten-term running-sum sequence: every term after the first ten is the
//! sum of the ten terms before it, taken in the field.

use crate::field::{modulus, Element};
use crate::trace::{row_values, Trace};
use vstd::arithmetic::div_mod::{lemma_add_mod_noop, lemma_mod_bound, lemma_small_mod};
use vstd::arithmetic::power::{lemma_pow1, lemma_pow_adds, pow};
use vstd::prelude::*;

verus! {

/// The number of terms that each new term sums, and the width of a row.
pub const WINDOW: usize = 10;

/// The first ten terms: two ones, then the powers of two up to `2^8`.
pub open spec fn seed() -> Seq<int> {
    seq![1, 1, 2, 4, 8, 16, 32, 64, 128, 256]
}

/// The sum of a sequence of integers.
pub open spec fn sum_of(values: Seq<int>) -> int
    decreases values.len(),
{
    if values.len() == 0 {
        0
    } else {
        sum_of(values.drop_last()) + values.last()
    }
}

/// The term at index `i`, counting the first term as index 0.
pub open spec fn tenacci(i: nat) -> int
    decreases i,
{
    if i < 10 {
        seed()[i as int]
    } else {
        (tenacci((i - 10) as nat) + tenacci((i - 9) as nat) + tenacci((i - 8) as nat) + tenacci(
            (i - 7) as nat,
        ) + tenacci((i - 6) as nat) + tenacci((i - 5) as nat) + tenacci((i - 4) as nat) + tenacci(
            (i - 3) as nat,
        ) + tenacci((i - 2) as nat) + tenacci((i - 1) as nat)) % modulus()
    }
}

/// The ten consecutive terms that begin at index `first`.
pub open spec fn tenacci_window(first: nat) -> Seq<int> {
    Seq::new(10, |j: int| tenacci((first + j) as nat))
}

/// A window moved on by one term: its first value leaves, and the sum of
/// all ten, taken in the field, joins at the end.
pub open spec fn advance(window: Seq<int>) -> Seq<int> {
    window.skip(1).push(sum_of(window) % modulus())
}

/// A window moved on by `count` terms.
pub open spec fn advance_by(window: Seq<int>, count: nat) -> Seq<int>
    decreases count,
{
    if count == 0 {
        window
    } else {
        advance(advance_by(window, (count - 1) as nat))
    }
}

/// The sum of ten values, written out.
pub proof fn lemma_sum_of_ten(s: Seq<int>)
    requires
        s.len() == 10,
    ensures
        sum_of(s) == s[0] + s[1] + s[2] + s[3] + s[4] + s[5] + s[6] + s[7] + s[8] + s[9],
{
    let s9 = s.drop_last();
    let s8 = s9.drop_last();
    let s7 = s8.drop_last();
    let s6 = s7.drop_last();
    let s5 = s6.drop_last();
    let s4 = s5.drop_last();
    let s3 = s4.drop_last();
    let s2 = s3.drop_last();
    let s1 = s2.drop_last();
    let s0 = s1.drop_last();
    assert(sum_of(s0) == 0);
    assert(sum_of(s1) == s[0]);
    assert(sum_of(s2) == s[0] + s[1]);
    assert(sum_of(s3) == s[0] + s[1] + s[2]);
    assert(sum_of(s4) == sum_of(s3) + s[3]);
    assert(sum_of(s5) == sum_of(s4) + s[4]);
    assert(sum_of(s6) == sum_of(s5) + s[5]);
    assert(sum_of(s7) == sum_of(s6) + s[6]);
    assert(sum_of(s8) == sum_of(s7) + s[7]);
    assert(sum_of(s9) == sum_of(s8) + s[8]);
}

/// Moving the window of the sequence on by one term gives the next window.
pub proof fn lemma_advance_window(first: nat)
    ensures
        advance(tenacci_window(first)) == tenacci_window(first + 1),
{
    let w = tenacci_window(first);
    lemma_sum_of_ten(w);
    assert(tenacci(first + 10) == sum_of(w) % modulus());
    assert(advance(w) =~= tenacci_window(first + 1));
}

/// Moving the window of the sequence on by `count` terms gives the window
/// that begins `count` terms later.
pub proof fn lemma_advance_window_by(first: nat, count: nat)
    ensures
        advance_by(tenacci_window(first), count) == tenacci_window(first + count),
    decreases count,
{
    if count > 0 {
        lemma_advance_window_by(first, (count - 1) as nat);
        lemma_advance_window((first + count - 1) as nat);
    }
}

/// Every term of the sequence is a canonical field value.
pub proof fn lemma_tenacci_canonical(i: nat)
    ensures
        0 <= tenacci(i) < modulus(),
{
    if i >= 10 {
        let sum = tenacci((i - 10) as nat) + tenacci((i - 9) as nat) + tenacci((i - 8) as nat)
            + tenacci((i - 7) as nat) + tenacci((i - 6) as nat) + tenacci((i - 5) as nat) + tenacci(
            (i - 4) as nat,
        ) + tenacci((i - 3) as nat) + tenacci((i - 2) as nat) + tenacci((i - 1) as nat);
        lemma_mod_bound(sum, modulus());
    }
}

/// Moving a window of ten on keeps it a window of ten.
pub proof fn lemma_advance_by_len(window: Seq<int>, count: nat)
    requires
        window.len() == 10,
    ensures
        advance_by(window, count).len() == 10,
    decreases count,
{
    if count > 0 {
        lemma_advance_by_len(window, (count - 1) as nat);
    }
}

/// What stands at place `i + later` of a window stands at place `i` once
/// the window has moved on by `later` more terms.
pub proof fn lemma_advance_by_index(window: Seq<int>, count: nat, later: nat, i: int)
    requires
        window.len() == 10,
        0 <= i,
        i + later <= 9,
    ensures
        advance_by(window, count + later)[i] == advance_by(window, count)[i + later],
    decreases later,
{
    if later > 0 {
        lemma_advance_by_index(window, count, (later - 1) as nat, i + 1);
        lemma_advance_by_len(window, (count + later - 1) as nat);
    }
}

/// The sum of the elements of `values`, taken in the field.
pub fn sum_elements(values: &Vec<Element>) -> (sum: Element)
    ensures
        sum@ == sum_of(row_values(values@)) % modulus(),
{
    let mut sum = Element::zero();
    let mut k: usize = 0;
    proof {
        lemma_small_mod(0, modulus() as nat);
        assert(row_values(values@).take(0) =~= Seq::<int>::empty());
    }
    while k < values.len()
        invariant
            k <= values@.len(),
            sum@ == sum_of(row_values(values@).take(k as int)) % modulus(),
        decreases values@.len() - k,
    {
        let ghost before = row_values(values@).take(k as int);
        let ghost after = row_values(values@).take(k + 1);
        let value = values[k];
        sum = sum.add(value);
        proof {
            assert(after.drop_last() =~= before);
            assert(after.last() == value@);
            value.lemma_canonical();
            lemma_small_mod(value@ as nat, modulus() as nat);
            lemma_add_mod_noop(sum_of(before), value@, modulus());
        }
        k += 1;
    }
    proof {
        assert(row_values(values@).take(values@.len() as int) =~= row_values(values@));
    }
    sum
}

/// The first ten terms as field elements.
pub fn seed_row() -> (row: Vec<Element>)
    ensures
        row_values(row@) == seed(),
{
    let two = Element::one().add(Element::one());
    let mut row: Vec<Element> = Vec::new();
    row.push(Element::one());
    row.push(Element::one());
    row.push(two);
    row.push(two.exp(2));
    row.push(two.exp(3));
    row.push(two.exp(4));
    row.push(two.exp(5));
    row.push(two.exp(6));
    row.push(two.exp(7));
    row.push(two.exp(8));
    proof {
        let m = modulus();
        lemma_small_mod(2, m as nat);
        lemma_pow1(2);
        lemma_pow_adds(2, 1, 1);
        lemma_pow_adds(2, 2, 1);
        lemma_pow_adds(2, 3, 1);
        lemma_pow_adds(2, 4, 1);
        lemma_pow_adds(2, 5, 1);
        lemma_pow_adds(2, 6, 1);
        lemma_pow_adds(2, 7, 1);
        assert(pow(2, 2) == 4);
        assert(pow(2, 3) == 8);
        assert(pow(2, 4) == 16);
        assert(pow(2, 5) == 32);
        assert(pow(2, 6) == 64);
        assert(pow(2, 7) == 128);
        assert(pow(2, 8) == 256);
        lemma_small_mod(4, m as nat);
        lemma_small_mod(8, m as nat);
        lemma_small_mod(16, m as nat);
        lemma_small_mod(32, m as nat);
        lemma_small_mod(64, m as nat);
        lemma_small_mod(128, m as nat);
        lemma_small_mod(256, m as nat);
        assert(row_values(row@) =~= seed());
    }
    row
}

/// The window that follows `window`: its last nine elements, then the sum
/// of all ten.
pub fn shift_window(window: &Vec<Element>) -> (next: Vec<Element>)
    requires
        window@.len() == WINDOW,
    ensures
        next@.len() == WINDOW,
        row_values(next@) == advance(row_values(window@)),
{
    let sum = sum_elements(window);
    let mut next: Vec<Element> = Vec::new();
    let mut j: usize = 1;
    while j < WINDOW
        invariant
            1 <= j <= WINDOW,
            window@.len() == WINDOW,
            next@.len() == j - 1,
            forall|k: int| 0 <= k < j - 1 ==> #[trigger] next@[k] == window@[k + 1],
        decreases WINDOW - j,
    {
        next.push(window[j]);
        j += 1;
    }
    next.push(sum);
    assert(row_values(next@) =~= advance(row_values(window@)));
    next
}

/// The term at position `n` of the sequence, counting the first term as
/// position 1.
pub fn compute_tenacci_term(n: usize) -> (term: Element)
    requires
        n >= 1,
    ensures
        term@ == tenacci((n - 1) as nat),
{
    let mut window = seed_row();
    assert(seed() =~= tenacci_window(0));
    if n <= WINDOW {
        return window[n - 1];
    }
    let mut first: usize = 0;
    while first + WINDOW < n
        invariant
            first + WINDOW <= n,
            window@.len() == WINDOW,
            row_values(window@) == tenacci_window(first as nat),
        decreases n - first,
    {
        window = shift_window(&window);
        proof {
            lemma_advance_window(first as nat);
        }
        first += 1;
    }
    let term = window[WINDOW - 1];
    assert(term@ == row_values(window@)[9]);
    term
}

/// The row that follows `state` in a trace: the window moved on by ten terms.
pub fn next_row(state: &Vec<Element>) -> (next: Vec<Element>)
    requires
        state@.len() == WINDOW,
    ensures
        next@.len() == WINDOW,
        row_values(next@) == advance_by(row_values(state@), WINDOW as nat),
{
    let mut next = shift_window(state);
    let mut moved: usize = 1;
    assert(advance_by(row_values(state@), 1) == advance(advance_by(row_values(state@), 0)));
    while moved < WINDOW
        invariant
            1 <= moved <= WINDOW,
            next@.len() == WINDOW,
            row_values(next@) == advance_by(row_values(state@), moved as nat),
        decreases WINDOW - moved,
    {
        next = shift_window(&next);
        moved += 1;
    }
    next
}

/// Why a sequence length has no trace.
#[derive(Clone, Copy, Debug, PartialEq, Eq, Structural)]
pub enum LengthError {
    /// The length is not a multiple of ten, so it does not fill whole rows.
    NotMultipleOfTen,
    /// The length is zero, so the trace would have no row.
    Empty,
}

/// The table of `length` rows whose row `r` holds the ten terms that begin
/// at index `10 * r`.
pub open spec fn tenacci_rows(length: nat) -> Seq<Seq<int>> {
    Seq::new(length, |r: int| tenacci_window((10 * r) as nat))
}

/// The trace of a sequence of `sequence_length` terms, ten terms to a row.
/// A length that is not a multiple of ten is refused, and so is zero.
pub fn build_trace(sequence_length: usize) -> (built: Result<Trace, LengthError>)
    ensures
        built matches Err(LengthError::NotMultipleOfTen) <==> sequence_length % 10 != 0,
        built matches Err(LengthError::Empty) <==> sequence_length == 0,
        built matches Ok(trace) ==> trace.spec_width() == WINDOW && trace@ == tenacci_rows(
            (sequence_length / 10) as nat,
        ),
{
    if sequence_length % 10 != 0 {
        return Err(LengthError::NotMultipleOfTen);
    }
    if sequence_length == 0 {
        return Err(LengthError::Empty);
    }
    Ok(build_rows(sequence_length / 10))
}

/// The trace of `length` rows: row 0 holds the seed, and each further row
/// the ten terms that follow the row before.
pub fn build_rows(length: usize) -> (trace: Trace)
    requires
        length > 0,
    ensures
        trace.spec_width() == WINDOW,
        trace@ == tenacci_rows(length as nat),
{
    let init = || -> (state: Vec<Element>)
        ensures
            row_values(state@) == seed(),
        {
            seed_row()
        };
    let update = |_step: usize, state: &Vec<Element>| -> (next: Vec<Element>)
        requires
            state@.len() == WINDOW,
        ensures
            next@.len() == WINDOW,
            row_values(next@) == advance_by(row_values(state@), WINDOW as nat),
        {
            next_row(state)
        };
    assert forall|first: Vec<Element>| init.ensures((), first) implies first@.len() == WINDOW by {
        assert(row_values(first@).len() == seed().len());
    }
    let trace = Trace::fill(WINDOW, length, init, update);
    proof {
        trace.lemma_view_of_stored_rows();
        assert(seed() =~= tenacci_window(0));
        assert forall|k: int| 0 <= k < length - 1 implies #[trigger] trace@[k + 1] == advance_by(
            trace@[k],
            10,
        ) by {
            let i = k as usize;
            assert(update.ensures((i, &trace.stored_rows()[i as int]), trace.stored_rows()[i + 1]));
        }
        assert forall|r: int| 0 <= r < length implies #[trigger] trace@[r] == tenacci_rows(
            length as nat,
        )[r] by {
            lemma_rows_are_windows(trace@, r as nat);
        }
        assert(trace@ =~= tenacci_rows(length as nat));
    }
    trace
}

/// Rows that begin with the seed and move on by ten terms each hold the
/// windows of the sequence.
pub proof fn lemma_rows_are_windows(rows: Seq<Seq<int>>, r: nat)
    requires
        r < rows.len(),
        rows[0] == tenacci_window(0),
        forall|k: int| 0 <= k < rows.len() - 1 ==> #[trigger] rows[k + 1] == advance_by(rows[k], 10),
    ensures
        rows[r as int] == tenacci_window(10 * r),
    decreases r,
{
    if r > 0 {
        lemma_rows_are_windows(rows, (r - 1) as nat);
        assert(rows[(r - 1) + 1] == advance_by(rows[r - 1], 10));
        lemma_advance_window_by((10 * (r - 1)) as nat, 10);
    }
}

} // verus!

//! One run of the ten-term running-sum sequence: its length, the term
//! expected at its end, its trace and its public input.

use crate::field::{lemma_successor_differs, modulus, Element};
use crate::tenacci::{build_rows, compute_tenacci_term, tenacci, tenacci_rows, LengthError, WINDOW};
use crate::trace::Trace;
use vstd::prelude::*;

verus! {

/// The public input that a trace commits to: the last register of its last row.
pub fn get_pub_inputs(trace: &Trace) -> (result: Element)
    requires
        trace.spec_width() == WINDOW,
    ensures
        result@ == trace@.last()[9],
{
    let last_step = trace.length() - 1;
    trace.get(WINDOW - 1, last_step)
}

/// What a [`TenAcciExample`] stands for.
pub struct TenAcciExampleView {
    pub sequence_length: nat,
    pub result: int,
}

/// A sequence of a given length together with the term expected at its end.
pub struct TenAcciExample {
    sequence_length: usize,
    result: Element,
}

impl View for TenAcciExample {
    type V = TenAcciExampleView;

    closed spec fn view(&self) -> TenAcciExampleView {
        TenAcciExampleView { sequence_length: self.sequence_length as nat, result: self.result@ }
    }
}

impl TenAcciExample {
    #[verifier::type_invariant]
    spec fn well_formed(self) -> bool {
        &&& self.sequence_length > 0
        &&& self.sequence_length % 10 == 0
        &&& self.result@ == tenacci((self.sequence_length - 1) as nat)
    }

    /// The example for a sequence of `sequence_length` terms. A length that
    /// is not a multiple of ten is refused, and so is zero.
    pub fn new(sequence_length: usize) -> (made: Result<TenAcciExample, LengthError>)
        ensures
            made matches Err(LengthError::NotMultipleOfTen) <==> sequence_length % 10 != 0,
            made matches Err(LengthError::Empty) <==> sequence_length == 0,
            made matches Ok(example) ==> example@.sequence_length == sequence_length
                && example@.result == tenacci((sequence_length - 1) as nat),
    {
        if sequence_length % 10 != 0 {
            return Err(LengthError::NotMultipleOfTen);
        }
        if sequence_length == 0 {
            return Err(LengthError::Empty);
        }
        let result = compute_tenacci_term(sequence_length);
        Ok(TenAcciExample { sequence_length, result })
    }

    /// The number of terms of the sequence.
    pub fn sequence_length(&self) -> (n: usize)
        ensures
            n == self@.sequence_length,
            n > 0,
            n % 10 == 0,
    {
        proof {
            use_type_invariant(self);
        }
        self.sequence_length
    }

    /// The trace of the sequence. Its last cell is the expected term.
    pub fn build_trace(&self) -> (trace: Trace)
        ensures
            trace.spec_width() == WINDOW,
            trace@ == tenacci_rows(self@.sequence_length / 10),
            trace@.last()[9] == self@.result,
    {
        proof {
            use_type_invariant(self);
        }
        build_rows(self.sequence_length / 10)
    }

    /// The public input, made without any trace: the expected term.
    pub fn public_input(&self) -> (result: Element)
        ensures
            result@ == self@.result,
            result@ == tenacci((self@.sequence_length - 1) as nat),
    {
        proof {
            use_type_invariant(self);
        }
        self.result
    }

    /// The expected term moved on by one, which is not the term at the end
    /// of the sequence.
    pub fn wrong_public_input(&self) -> (wrong: Element)
        ensures
            wrong@ == (self@.result + 1) % modulus(),
            wrong@ != self@.result,
    {
        let wrong = self.result.add(Element::one());
        proof {
            lemma_successor_differs(self.result);
        }
        wrong
    }
}

} // verus!

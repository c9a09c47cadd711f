//! A batch of runs of the cubic recurrence: the starting values, the
//! results expected of them, their traces and their public inputs.

use crate::field::{Element, MODULUS};
use crate::trace::{row_values, Trace};
use crate::work::{build_do_work_trace, do_work, work_rows, work_term};
use crate::work_air::PublicInputs;
use vstd::arithmetic::div_mod::lemma_small_mod;
use vstd::prelude::*;

verus! {

/// The terminal value of a run of `trace_length` rows from each start.
pub fn calculate_results(starting_vec: &Vec<Element>, trace_length: usize) -> (results: Vec<Element>)
    requires
        trace_length >= 1,
    ensures
        results@.len() == starting_vec@.len(),
        forall|i: int|
            0 <= i < results@.len() ==> (#[trigger] results@[i])@ == work_term(
                starting_vec@[i]@,
                (trace_length - 1) as nat,
            ),
{
    let mut results: Vec<Element> = Vec::new();
    let mut i: usize = 0;
    while i < starting_vec.len()
        invariant
            trace_length >= 1,
            i <= starting_vec@.len(),
            results@.len() == i,
            forall|k: int|
                0 <= k < i ==> (#[trigger] results@[k])@ == work_term(
                    starting_vec@[k]@,
                    (trace_length - 1) as nat,
                ),
        decreases starting_vec@.len() - i,
    {
        results.push(do_work(starting_vec[i], trace_length));
        i += 1;
    }
    results
}

/// One trace of `trace_length` rows for each start, in the order of the starts.
pub fn build_do_work_traces(starting_vec: &Vec<Element>, trace_length: usize) -> (traces: Vec<Trace>)
    requires
        trace_length > 0,
    ensures
        traces@.len() == starting_vec@.len(),
        forall|i: int|
            0 <= i < traces@.len() ==> (#[trigger] traces@[i])@ == work_rows(
                starting_vec@[i]@,
                trace_length as nat,
            ),
        forall|i: int| 0 <= i < traces@.len() ==> (#[trigger] traces@[i]).spec_width() == 1,
{
    let mut traces: Vec<Trace> = Vec::new();
    let mut i: usize = 0;
    while i < starting_vec.len()
        invariant
            trace_length > 0,
            i <= starting_vec@.len(),
            traces@.len() == i,
            forall|k: int|
                0 <= k < i ==> (#[trigger] traces@[k])@ == work_rows(
                    starting_vec@[k]@,
                    trace_length as nat,
                ),
            forall|k: int| 0 <= k < i ==> (#[trigger] traces@[k]).spec_width() == 1,
        decreases starting_vec@.len() - i,
    {
        traces.push(build_do_work_trace(starting_vec[i], trace_length));
        i += 1;
    }
    traces
}

/// The public inputs that a trace commits to: register 0 of its first row
/// and of its last.
pub fn get_pub_inputs(trace: &Trace) -> (inputs: PublicInputs)
    ensures
        inputs.start@ == trace@[0][0],
        inputs.result@ == trace@.last()[0],
{
    let last_step = trace.length() - 1;
    PublicInputs { start: trace.get(0, 0), result: trace.get(0, last_step) }
}

/// What a [`DoWorkExample`] stands for.
pub struct DoWorkExampleView {
    pub starting_vec: Seq<int>,
    pub results: Seq<int>,
    pub trace_length: nat,
}

/// A batch of runs that all have the same length and start at 0, 1, 2, ...
pub struct DoWorkExample {
    starting_vec: Vec<Element>,
    results: Vec<Element>,
    trace_length: usize,
}

impl View for DoWorkExample {
    type V = DoWorkExampleView;

    closed spec fn view(&self) -> DoWorkExampleView {
        DoWorkExampleView {
            starting_vec: row_values(self.starting_vec@),
            results: row_values(self.results@),
            trace_length: self.trace_length as nat,
        }
    }
}

impl DoWorkExample {
    #[verifier::type_invariant]
    spec fn well_formed(self) -> bool {
        &&& self.trace_length >= 1
        &&& self.results@.len() == self.starting_vec@.len()
    }

    /// The batch of `num_traces` runs of `trace_length` rows each, run `i`
    /// starting at the field element `i`.
    pub fn new(num_traces: usize, trace_length: usize) -> (example: DoWorkExample)
        requires
            trace_length >= 1,
        ensures
            example@.trace_length == trace_length,
            example@.starting_vec == Seq::new(num_traces as nat, |i: int| i),
            example@.results == Seq::new(
                num_traces as nat,
                |i: int| work_term(i, (trace_length - 1) as nat),
            ),
    {
        let mut starting_vec: Vec<Element> = Vec::new();
        let mut i: usize = 0;
        while i < num_traces
            invariant
                i <= num_traces,
                starting_vec@.len() == i,
                forall|k: int| 0 <= k < i ==> (#[trigger] starting_vec@[k])@ == k,
            decreases num_traces - i,
        {
            let start = Element::new(i as u128);
            proof {
                lemma_small_mod(i as nat, MODULUS as nat);
            }
            starting_vec.push(start);
            i += 1;
        }
        let results = calculate_results(&starting_vec, trace_length);
        let example = DoWorkExample { starting_vec, results, trace_length };
        assert(example@.starting_vec =~= Seq::new(num_traces as nat, |i: int| i));
        assert(example@.results =~= Seq::new(
            num_traces as nat,
            |i: int| work_term(i, (trace_length - 1) as nat),
        ));
        example
    }

    /// The number of runs in the batch.
    pub fn num_traces(&self) -> (n: usize)
        ensures
            n == self@.starting_vec.len(),
            n == self@.results.len(),
    {
        proof {
            use_type_invariant(self);
        }
        self.starting_vec.len()
    }

    /// The number of rows of every run.
    pub fn trace_length(&self) -> (n: usize)
        ensures
            n == self@.trace_length,
            n >= 1,
    {
        proof {
            use_type_invariant(self);
        }
        self.trace_length
    }

    /// The traces of the batch, one for each run.
    pub fn build_traces(&self) -> (traces: Vec<Trace>)
        ensures
            traces@.len() == self@.starting_vec.len(),
            forall|i: int|
                0 <= i < traces@.len() ==> (#[trigger] traces@[i])@ == work_rows(
                    self@.starting_vec[i],
                    self@.trace_length,
                ),
            forall|i: int| 0 <= i < traces@.len() ==> (#[trigger] traces@[i]).spec_width() == 1,
    {
        proof {
            use_type_invariant(self);
        }
        build_do_work_traces(&self.starting_vec, self.trace_length)
    }

    /// The public inputs of run `index`, made without any trace: its start and
    /// the result expected of it.
    pub fn public_inputs(&self, index: usize) -> (inputs: PublicInputs)
        requires
            index < self@.starting_vec.len(),
        ensures
            inputs.start@ == self@.starting_vec[index as int],
            inputs.result@ == self@.results[index as int],
    {
        proof {
            use_type_invariant(self);
        }
        PublicInputs { start: self.starting_vec[index], result: self.results[index] }
    }
}

} // verus!

use do_work::air::Assertion;
use do_work::field::{Element, MODULUS};
use do_work::work::{build_do_work_trace, do_work};
use do_work::work_air::{PublicInputs, WorkAir, NUM_ASSERTIONS, TRACE_WIDTH, TRANSITION_DEGREE};

fn air_for(start: u128, n: usize) -> WorkAir {
    let start = Element::new(start);
    let inputs = PublicInputs { start, result: do_work(start, n) };
    WorkAir::new(1, n, inputs)
}

#[test]
fn single_assertion_keeps_its_three_parts() {
    let a = Assertion::single(4, 9, Element::new(77));
    assert_eq!(a.column, 4);
    assert_eq!(a.step, 9);
    assert_eq!(a.value.as_int(), 77);
}

#[test]
fn public_inputs_list_start_then_result() {
    let inputs = PublicInputs { start: Element::new(3), result: Element::new(69) };
    assert_eq!(inputs.to_elements(), vec![Element::new(3), Element::new(69)]);
}

#[test]
fn wrong_result_is_off_by_one() {
    let inputs = PublicInputs { start: Element::new(3), result: Element::new(69) };
    let wrong = inputs.with_wrong_result();
    assert_eq!(wrong.start, inputs.start);
    assert_eq!(wrong.result.as_int(), 70);
    assert_ne!(wrong, inputs);
    let edge = PublicInputs { start: Element::new(3), result: Element::new(MODULUS - 1) };
    assert_eq!(edge.with_wrong_result().result.as_int(), 0);
}

#[test]
fn work_air_declares_one_cubic_constraint_and_two_assertions() {
    let air = air_for(3, 8);
    assert_eq!(TRACE_WIDTH, 1);
    assert_eq!(TRANSITION_DEGREE, 3);
    assert_eq!(NUM_ASSERTIONS, 2);
    assert_eq!(air.trace_length(), 8);
    assert_eq!(air.transition_degrees(), vec![3]);
    assert_eq!(air.get_assertions().len(), NUM_ASSERTIONS);
}

#[test]
fn work_assertions_pin_the_first_and_the_last_cell() {
    let air = air_for(3, 1024);
    let assertions = air.get_assertions();
    assert_eq!(assertions[0], Assertion::single(0, 0, Element::new(3)));
    assert_eq!(assertions[1], Assertion::single(0, 1023, do_work(Element::new(3), 1024)));
}

#[test]
fn work_assertions_hold_on_the_trace() {
    let start = Element::new(3);
    let trace = build_do_work_trace(start, 64);
    let air = air_for(3, 64);
    for a in air.get_assertions() {
        assert_eq!(trace.get(a.column, a.step), a.value);
    }
}

#[test]
fn work_residual_is_zero_on_every_transition_of_the_trace() {
    let trace = build_do_work_trace(Element::new(3), 64);
    let air = air_for(3, 64);
    for step in 0..63 {
        let current = [trace.get(0, step)];
        let next = [trace.get(0, step + 1)];
        let mut result = vec![Element::new(99)];
        air.evaluate_transition(&current, &next, &[], &mut result);
        assert_eq!(result, vec![Element::zero()]);
    }
}

#[test]
fn work_residual_is_next_less_the_expected_state() {
    let air = air_for(3, 8);
    let current = [Element::new(3)];
    let mut result = vec![Element::zero(), Element::new(5)];
    air.evaluate_transition(&current, &[Element::new(70)], &[], &mut result);
    assert_eq!(result, vec![Element::new(1), Element::new(5)]);
    air.evaluate_transition(&current, &[Element::new(68)], &[], &mut result);
    assert_eq!(result, vec![Element::new(MODULUS - 1), Element::new(5)]);
    air.evaluate_transition(&current, &[Element::new(0)], &[], &mut result);
    assert_eq!(result, vec![Element::new(MODULUS - 69), Element::new(5)]);
}

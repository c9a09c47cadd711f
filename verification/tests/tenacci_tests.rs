use do_work::air::Assertion;
use do_work::field::{Element, MODULUS};
use do_work::tenacci::{
    build_rows, build_trace, compute_tenacci_term, next_row, seed_row, shift_window, sum_elements,
    LengthError, WINDOW,
};
use do_work::tenacci_air::{TenAcciAir, NUM_ASSERTIONS, TRANSITION_DEGREE};
use do_work::tenacci_example::{get_pub_inputs, TenAcciExample};
use do_work::trace::Trace;

const SEED: [u128; 10] = [1, 1, 2, 4, 8, 16, 32, 64, 128, 256];

/// The first `count` terms by the recurrence, on plain integers in the field.
fn reference_terms(count: usize) -> Vec<u128> {
    let mut terms: Vec<u128> = SEED.to_vec();
    while terms.len() < count {
        let n = terms.len();
        let mut sum = 0u128;
        for t in &terms[n - 10..n] {
            let room = MODULUS - t;
            sum = if sum >= room { sum - room } else { sum + t };
        }
        terms.push(sum);
    }
    terms
}

fn row_of(trace: &Trace, step: usize) -> Vec<Element> {
    (0..trace.width()).map(|c| trace.get(c, step)).collect()
}

fn values(row: &[Element]) -> Vec<u128> {
    row.iter().map(|e| e.as_int()).collect()
}

#[test]
fn seed_is_two_ones_and_the_powers_of_two() {
    assert_eq!(WINDOW, 10);
    assert_eq!(values(&seed_row()), SEED.to_vec());
}

#[test]
fn sum_of_elements_is_taken_in_the_field() {
    assert_eq!(sum_elements(&Vec::new()), Element::zero());
    assert_eq!(sum_elements(&seed_row()).as_int(), 512);
    let big = vec![Element::new(MODULUS - 1), Element::new(MODULUS - 1), Element::new(5)];
    assert_eq!(sum_elements(&big).as_int(), 3);
}

#[test]
fn shifting_drops_the_first_and_appends_the_sum() {
    let next = shift_window(&seed_row());
    assert_eq!(values(&next), vec![1, 2, 4, 8, 16, 32, 64, 128, 256, 512]);
    let again = shift_window(&next);
    assert_eq!(values(&again), vec![2, 4, 8, 16, 32, 64, 128, 256, 512, 1023]);
}

#[test]
fn next_row_moves_on_by_ten_terms() {
    let terms = reference_terms(30);
    let second = next_row(&seed_row());
    assert_eq!(values(&second), terms[10..20].to_vec());
    let third = next_row(&second);
    assert_eq!(values(&third), terms[20..30].to_vec());
}

#[test]
fn terms_count_from_position_one() {
    for (i, s) in SEED.iter().enumerate() {
        assert_eq!(compute_tenacci_term(i + 1).as_int(), *s);
    }
    assert_eq!(compute_tenacci_term(11).as_int(), 512);
    assert_eq!(compute_tenacci_term(12).as_int(), 1023);
    assert_eq!(compute_tenacci_term(13).as_int(), 2045);
    assert_eq!(compute_tenacci_term(20).as_int(), 260864);
    assert_eq!(compute_tenacci_term(21).as_int(), 521472);
    assert_eq!(compute_tenacci_term(80).as_int(), 292028061738212955471744);
}

#[test]
fn terms_follow_the_ten_term_recurrence() {
    let terms = reference_terms(400);
    for n in 1..=400usize {
        assert_eq!(compute_tenacci_term(n).as_int(), terms[n - 1], "term {n}");
    }
}

#[test]
fn terms_are_reduced_once_they_pass_the_modulus() {
    let terms = reference_terms(2000);
    assert_eq!(compute_tenacci_term(2000).as_int(), terms[1999]);
    assert!(terms[1999] < MODULUS);
}

#[test]
fn length_not_a_multiple_of_ten_is_rejected() {
    for length in [1usize, 7, 15, 79, 81, 1023, usize::MAX] {
        assert!(matches!(build_trace(length), Err(LengthError::NotMultipleOfTen)), "{length}");
        assert!(matches!(TenAcciExample::new(length), Err(LengthError::NotMultipleOfTen)));
    }
}

#[test]
fn length_zero_is_rejected() {
    assert!(matches!(build_trace(0), Err(LengthError::Empty)));
    assert!(matches!(TenAcciExample::new(0), Err(LengthError::Empty)));
}

#[test]
fn multiples_of_ten_are_accepted() {
    for length in [10usize, 20, 80, 1280] {
        let trace = build_trace(length).unwrap();
        assert_eq!(trace.width(), 10);
        assert_eq!(trace.length(), length / 10);
        assert!(TenAcciExample::new(length).is_ok());
    }
}

#[test]
fn trace_holds_the_sequence_ten_terms_to_a_row() {
    let terms = reference_terms(80);
    let trace = build_trace(80).unwrap();
    for step in 0..8 {
        assert_eq!(values(&row_of(&trace, step)), terms[10 * step..10 * step + 10].to_vec());
    }
    assert_eq!(values(&row_of(&build_rows(1), 0)), SEED.to_vec());
}

#[test]
fn terminal_term_is_the_last_cell_of_the_trace() {
    for length in [10usize, 20, 80, 160, 1280] {
        let trace = build_trace(length).unwrap();
        let last = trace.get(9, trace.length() - 1);
        assert_eq!(compute_tenacci_term(length), last, "length {length}");
        assert_eq!(get_pub_inputs(&trace), last);
    }
}

#[test]
fn example_expects_the_last_term() {
    let example = TenAcciExample::new(80).unwrap();
    assert_eq!(example.sequence_length(), 80);
    assert_eq!(example.public_input(), compute_tenacci_term(80));
    let trace = example.build_trace();
    assert_eq!(trace.length(), 8);
    assert_eq!(get_pub_inputs(&trace), example.public_input());
    let wrong = example.wrong_public_input();
    assert_eq!(wrong, example.public_input().add(Element::one()));
    assert_ne!(wrong, example.public_input());
}

#[test]
fn tenacci_air_declares_ten_linear_constraints_and_eleven_assertions() {
    let air = TenAcciAir::new(10, 8, compute_tenacci_term(80));
    assert_eq!(TRANSITION_DEGREE, 1);
    assert_eq!(NUM_ASSERTIONS, 11);
    assert_eq!(air.trace_length(), 8);
    assert_eq!(air.transition_degrees(), vec![1; 10]);
    assert_eq!(air.get_assertions().len(), NUM_ASSERTIONS);
}

#[test]
fn tenacci_assertions_pin_the_seed_and_the_result() {
    let result = compute_tenacci_term(80);
    let air = TenAcciAir::new(10, 8, result);
    let assertions = air.get_assertions();
    for (j, s) in SEED.iter().enumerate() {
        assert_eq!(assertions[j], Assertion::single(j, 0, Element::new(*s)));
    }
    assert_eq!(assertions[10], Assertion::single(9, 7, result));
    let trace = build_trace(80).unwrap();
    for a in assertions {
        assert_eq!(trace.get(a.column, a.step), a.value);
    }
}

#[test]
fn tenacci_residuals_are_zero_on_every_transition_of_the_trace() {
    let trace = build_trace(160).unwrap();
    let air = TenAcciAir::new(10, 16, get_pub_inputs(&trace));
    for step in 0..15 {
        let current = row_of(&trace, step);
        let next = row_of(&trace, step + 1);
        let mut result = vec![Element::new(7); 12];
        air.evaluate_transition(&current, &next, &[], &mut result);
        assert_eq!(result[..10].to_vec(), vec![Element::zero(); 10]);
        assert_eq!(result[10..].to_vec(), vec![Element::new(7); 2]);
    }
}

#[test]
fn tenacci_residual_shows_which_register_is_wrong() {
    let trace = build_trace(20).unwrap();
    let air = TenAcciAir::new(10, 2, get_pub_inputs(&trace));
    let current = row_of(&trace, 0);
    let mut next = row_of(&trace, 1);
    next[9] = next[9].add(Element::one());
    let mut result = vec![Element::zero(); 10];
    air.evaluate_transition(&current, &next, &[], &mut result);
    let mut expected = vec![Element::zero(); 10];
    expected[9] = Element::one();
    assert_eq!(result, expected);
    // a wrong register 0 shows in its own constraint and in all that sum it
    let mut next = row_of(&trace, 1);
    next[0] = next[0].add(Element::one());
    air.evaluate_transition(&current, &next, &[], &mut result);
    let mut expected = vec![Element::new(MODULUS - 1); 10];
    expected[0] = Element::one();
    assert_eq!(result, expected);
}

use do_work::field::Element;
use do_work::trace::Trace;

fn counter_trace(length: usize) -> Trace {
    // register 0 counts the rows, register 1 holds the index that `update` was given
    Trace::fill(
        2,
        length,
        || vec![Element::zero(), Element::new(1000)],
        |step, state| vec![state[0].add(Element::one()), Element::new(step as u128)],
    )
}

#[test]
fn fill_starts_with_the_initial_row() {
    let trace = counter_trace(4);
    assert_eq!(trace.get(0, 0), Element::zero());
    assert_eq!(trace.get(1, 0), Element::new(1000));
}

#[test]
fn fill_makes_each_row_from_the_one_before() {
    let trace = counter_trace(9);
    assert_eq!(trace.width(), 2);
    assert_eq!(trace.length(), 9);
    for step in 1..9usize {
        assert_eq!(trace.get(0, step).as_int(), step as u128);
        // the update that made row `step` was given the index of row `step - 1`
        assert_eq!(trace.get(1, step).as_int(), (step - 1) as u128);
    }
}

#[test]
fn fill_of_one_row_never_updates() {
    let trace = Trace::fill(
        1,
        1,
        || vec![Element::new(7)],
        |_, _| vec![Element::new(8)],
    );
    assert_eq!(trace.length(), 1);
    assert_eq!(trace.width(), 1);
    assert_eq!(trace.get(0, 0).as_int(), 7);
}

use do_work::field::{Element, MODULUS};
use winterfell::math::fields::f128::BaseElement;
use winterfell::math::{FieldElement, StarkField};

fn samples() -> Vec<u128> {
    vec![
        0,
        1,
        2,
        3,
        42,
        0xffff_ffff,
        0xffff_ffff_ffff_ffff,
        1 << 64,
        (1 << 127) + 12345,
        MODULUS / 2,
        MODULUS / 2 + 1,
        MODULUS - 2,
        MODULUS - 1,
        123456789012345678901234567890123456789,
    ]
}

#[test]
fn modulus_is_the_one_of_the_proving_field() {
    assert_eq!(MODULUS, BaseElement::MODULUS);
    assert_eq!(MODULUS, 340282366920938463463374557953744961537);
}

#[test]
fn new_reduces_values_at_or_above_the_modulus() {
    assert_eq!(Element::new(0).as_int(), 0);
    assert_eq!(Element::new(MODULUS - 1).as_int(), MODULUS - 1);
    assert_eq!(Element::new(MODULUS).as_int(), 0);
    assert_eq!(Element::new(MODULUS + 7).as_int(), 7);
    assert_eq!(Element::new(u128::MAX).as_int(), u128::MAX - MODULUS);
    for v in [0, 5, MODULUS - 1, MODULUS, MODULUS + 1, u128::MAX] {
        assert_eq!(Element::new(v).as_int(), BaseElement::new(v).as_int());
    }
}

#[test]
fn zero_and_one_are_the_identities() {
    assert_eq!(Element::zero().as_int(), 0);
    assert_eq!(Element::one().as_int(), 1);
    for v in samples() {
        let e = Element::new(v);
        assert_eq!(e.add(Element::zero()), e);
        assert_eq!(e.mul(Element::one()), e);
        assert_eq!(e.mul(Element::zero()), Element::zero());
    }
}

#[test]
fn add_wraps_at_the_modulus() {
    assert_eq!(Element::new(MODULUS - 5).add(Element::new(17)).as_int(), 12);
    assert_eq!(Element::new(MODULUS - 1).add(Element::new(1)).as_int(), 0);
    assert_eq!(Element::new(MODULUS - 1).add(Element::new(MODULUS - 1)).as_int(), MODULUS - 2);
    assert_eq!(Element::new(20).add(Element::new(22)).as_int(), 42);
}

#[test]
fn sub_wraps_below_zero() {
    assert_eq!(Element::new(5).sub(Element::new(17)).as_int(), MODULUS - 12);
    assert_eq!(Element::new(0).sub(Element::new(1)).as_int(), MODULUS - 1);
    assert_eq!(Element::new(17).sub(Element::new(5)).as_int(), 12);
    assert_eq!(Element::new(9).sub(Element::new(9)).as_int(), 0);
}

#[test]
fn mul_reduces_the_product() {
    assert_eq!(Element::new(6).mul(Element::new(7)).as_int(), 42);
    // (p - 1)^2 = 1 (mod p)
    assert_eq!(Element::new(MODULUS - 1).mul(Element::new(MODULUS - 1)).as_int(), 1);
    // 2 * (p + 1) / 2 = 1 (mod p)
    assert_eq!(Element::new(2).mul(Element::new(MODULUS / 2 + 1)).as_int(), 1);
    // 2^64 * 2^64 = 2^128 = 45 * 2^40 - 1 (mod p)
    assert_eq!(Element::new(1 << 64).mul(Element::new(1 << 64)).as_int(), 45 * (1 << 40) - 1);
}

#[test]
fn exp_is_repeated_multiplication() {
    assert_eq!(Element::new(3).exp(0).as_int(), 1);
    assert_eq!(Element::new(0).exp(0).as_int(), 1);
    assert_eq!(Element::new(0).exp(5).as_int(), 0);
    assert_eq!(Element::new(3).exp(1).as_int(), 3);
    assert_eq!(Element::new(3).exp(3).as_int(), 27);
    assert_eq!(Element::new(2).exp(8).as_int(), 256);
    assert_eq!(Element::new(2).exp(128).as_int(), 45 * (1 << 40) - 1);
    // Fermat: a^(p - 1) = 1 for a != 0
    assert_eq!(Element::new(3).exp(MODULUS - 1).as_int(), 1);
    assert_eq!(Element::new(123456789).exp(MODULUS - 1).as_int(), 1);
}

#[test]
fn arithmetic_agrees_with_the_proving_field() {
    for a in samples() {
        for b in samples() {
            let (x, y) = (Element::new(a), Element::new(b));
            let (p, q) = (BaseElement::new(a), BaseElement::new(b));
            assert_eq!(x.add(y).as_int(), (p + q).as_int(), "{a} + {b}");
            assert_eq!(x.sub(y).as_int(), (p - q).as_int(), "{a} - {b}");
            assert_eq!(x.mul(y).as_int(), (p * q).as_int(), "{a} * {b}");
        }
    }
}

#[test]
fn exp_agrees_with_the_proving_field() {
    for a in samples() {
        for power in [0u128, 1, 2, 3, 8, 255, 1 << 70, MODULUS - 2, u128::MAX] {
            assert_eq!(
                Element::new(a).exp(power).as_int(),
                BaseElement::new(a).exp(power).as_int(),
                "{a} ^ {power}"
            );
        }
    }
}

//! Arithmetic in the 128-bit prime field with modulus `2^128 - 45 * 2^40 + 1`.
//!
//! An [`Element`] always holds the canonical representative of its residue
//! class, and every operation is specified over mathematical integers.

use vstd::arithmetic::div_mod::{
    lemma_add_mod_noop, lemma_fundamental_div_mod, lemma_mod_bound, lemma_mod_multiples_vanish,
    lemma_mod_twice, lemma_mul_mod_noop_general, lemma_small_mod,
};
use vstd::arithmetic::power::{lemma_pow0, lemma_pow1, lemma_pow_adds, lemma_pow_mod_noop,
    lemma_pow_multiplies, pow};
use vstd::prelude::*;

verus! {

/// The prime modulus of the field, `2^128 - 45 * 2^40 + 1`.
pub const MODULUS: u128 = 340282366920938463463374557953744961537u128;

/// The modulus as a mathematical integer.
pub open spec fn modulus() -> int {
    MODULUS as int
}

/// `(a + b) mod p`.
pub open spec fn add_mod(a: int, b: int) -> int {
    (a + b) % modulus()
}

/// `(a - b) mod p`, the least non-negative representative.
pub open spec fn sub_mod(a: int, b: int) -> int {
    (a - b) % modulus()
}

/// `(a * b) mod p`.
pub open spec fn mul_mod(a: int, b: int) -> int {
    (a * b) % modulus()
}

/// `base^power mod p`.
pub open spec fn pow_mod(base: int, power: nat) -> int {
    pow(base, power) % modulus()
}

/// An element of the field, stored as its canonical value in `[0, p)`.
#[derive(Clone, Copy, Debug, PartialEq, Eq, Structural)]
pub struct Element {
    value: u128,
}

impl View for Element {
    type V = int;

    /// The canonical integer that this element stands for, in `[0, p)`.
    closed spec fn view(&self) -> int {
        self.value as int % modulus()
    }
}

impl Element {
    #[verifier::type_invariant]
    spec fn canonical(self) -> bool {
        self.value < MODULUS
    }

    /// Every element stands for an integer in `[0, p)`.
    pub proof fn lemma_canonical(self)
        ensures
            0 <= self@ < modulus(),
    {
        lemma_mod_bound(self.value as int, modulus());
    }

    /// A stored value that is canonical is the value the element stands for.
    proof fn lemma_value(self)
        requires
            self.value < MODULUS,
        ensures
            self@ == self.value,
    {
        lemma_small_mod(self.value as nat, MODULUS as nat);
    }

    /// The additive identity.
    pub fn zero() -> (r: Element)
        ensures
            r@ == 0,
    {
        Element { value: 0 }
    }

    /// The multiplicative identity.
    pub fn one() -> (r: Element)
        ensures
            r@ == 1,
    {
        let r = Element { value: 1 };
        proof {
            r.lemma_value();
        }
        r
    }

    /// Makes an element from any 128-bit value, reducing it into the field.
    pub fn new(value: u128) -> (r: Element)
        ensures
            r@ == value as int % modulus(),
    {
        if value < MODULUS {
            proof {
                lemma_small_mod(value as nat, MODULUS as nat);
            }
            Element { value }
        } else {
            let reduced: u128 = value - MODULUS;
            proof {
                lemma_mod_multiples_vanish(1, reduced as int, modulus());
                lemma_small_mod(reduced as nat, MODULUS as nat);
            }
            Element { value: reduced }
        }
    }

    /// The canonical value of this element.
    pub fn as_int(&self) -> (r: u128)
        ensures
            r as int == self@,
            r < MODULUS,
    {
        proof {
            use_type_invariant(self);
            self.lemma_value();
        }
        self.value
    }

    /// Field addition.
    pub fn add(self, rhs: Element) -> (r: Element)
        ensures
            r@ == add_mod(self@, rhs@),
    {
        proof {
            use_type_invariant(&self);
            use_type_invariant(&rhs);
            self.lemma_value();
            rhs.lemma_value();
        }
        Element { value: add_canonical(self.value, rhs.value) }
    }

    /// Field subtraction.
    pub fn sub(self, rhs: Element) -> (r: Element)
        ensures
            r@ == sub_mod(self@, rhs@),
    {
        proof {
            use_type_invariant(&self);
            use_type_invariant(&rhs);
            self.lemma_value();
            rhs.lemma_value();
        }
        let a: u128 = self.value;
        let b: u128 = rhs.value;
        if a < b {
            let r: u128 = MODULUS - b + a;
            proof {
                lemma_mod_multiples_vanish(1, a - b, modulus());
                lemma_small_mod(r as nat, MODULUS as nat);
            }
            Element { value: r }
        } else {
            let r: u128 = a - b;
            proof {
                lemma_small_mod(r as nat, MODULUS as nat);
            }
            Element { value: r }
        }
    }

    /// Field multiplication, by doubling one factor while halving the other.
    pub fn mul(self, rhs: Element) -> (r: Element)
        ensures
            r@ == mul_mod(self@, rhs@),
    {
        proof {
            use_type_invariant(&self);
            use_type_invariant(&rhs);
            self.lemma_value();
            rhs.lemma_value();
        }
        let mut acc: u128 = 0;
        let mut a: u128 = self.value;
        let mut b: u128 = rhs.value;
        while b > 0
            invariant
                a < MODULUS,
                acc < MODULUS,
                (acc + a * b) % modulus() == (self.value * rhs.value) % modulus(),
            decreases b,
        {
            let ghost acc_old = acc as int;
            let ghost a_old = a as int;
            let ghost b_old = b as int;
            let bit: u128 = b % 2;
            if bit == 1 {
                acc = add_canonical(acc, a);
            }
            a = add_canonical(a, a);
            b = b / 2;
            proof {
                lemma_halving_step(acc_old, a_old, b_old, acc as int, a as int, b as int);
            }
        }
        proof {
            lemma_small_mod(acc as nat, MODULUS as nat);
        }
        Element { value: acc }
    }

    /// Raises this element to `power` by repeated squaring.
    pub fn exp(self, power: u128) -> (r: Element)
        ensures
            r@ == pow_mod(self@, power as nat),
    {
        let mut r = Element::one();
        let mut b = self;
        let mut p: u128 = power;
        proof {
            lemma_mul_mod_noop_general(1, pow(self@, power as nat), modulus());
        }
        while p > 0
            invariant
                (r@ * pow(b@, p as nat)) % modulus() == pow(self@, power as nat) % modulus(),
            decreases p,
        {
            let ghost r_old = r@;
            let ghost b_old = b@;
            let ghost p_old = p as nat;
            if p % 2 == 1 {
                r = r.mul(b);
            }
            b = b.mul(b);
            p = p / 2;
            proof {
                lemma_squaring_step(r_old, b_old, p_old, r@, b@, p as nat);
            }
        }
        proof {
            lemma_pow0(b@);
            use_type_invariant(&r);
            lemma_small_mod(r.value as nat, MODULUS as nat);
        }
        r
    }
}

/// Moving an element on by one gives another element.
pub proof fn lemma_successor_differs(e: Element)
    ensures
        (e@ + 1) % modulus() != e@,
{
    e.lemma_canonical();
    if e@ + 1 < modulus() {
        lemma_small_mod((e@ + 1) as nat, MODULUS as nat);
    } else {
        lemma_mod_multiples_vanish(1, 0, modulus());
        lemma_small_mod(0, MODULUS as nat);
    }
}

/// Adds two canonical values without leaving 128 bits.
fn add_canonical(a: u128, b: u128) -> (r: u128)
    requires
        a < MODULUS,
        b < MODULUS,
    ensures
        r < MODULUS,
        r as int == add_mod(a as int, b as int),
{
    let z: u128 = MODULUS - b;
    if a < z {
        let r: u128 = a + b;
        proof {
            lemma_small_mod(r as nat, MODULUS as nat);
        }
        r
    } else {
        let r: u128 = a - z;
        proof {
            lemma_mod_multiples_vanish(1, r as int, modulus());
            lemma_small_mod(r as nat, MODULUS as nat);
        }
        r
    }
}

/// One round of double-and-add keeps `acc + a * b` in its residue class.
proof fn lemma_halving_step(acc_old: int, a_old: int, b_old: int, acc_new: int, a_new: int, b_new: int)
    requires
        b_old > 0,
        b_new == b_old / 2,
        a_new == add_mod(a_old, a_old),
        acc_new == if b_old % 2 == 1 {
            add_mod(acc_old, a_old)
        } else {
            acc_old
        },
    ensures
        (acc_new + a_new * b_new) % modulus() == (acc_old + a_old * b_old) % modulus(),
{
    let m = modulus();
    let bit = b_old % 2;
    lemma_fundamental_div_mod(b_old, 2);
    assert(b_old == 2 * b_new + bit);
    assert(a_old * b_old == (a_old + a_old) * b_new + a_old * bit) by (nonlinear_arith)
        requires
            b_old == 2 * b_new + bit,
    ;
    // a_new * b_new is congruent to (a_old + a_old) * b_new
    lemma_mul_mod_noop_general(a_old + a_old, b_new, m);
    assert((a_new * b_new) % m == ((a_old + a_old) * b_new) % m);
    // acc_new is congruent to acc_old + a_old * bit
    assert(acc_new % m == (acc_old + a_old * bit) % m) by {
        if bit == 1 {
            assert(a_old * bit == a_old) by (nonlinear_arith)
                requires
                    bit == 1,
            ;
            lemma_mod_twice_of(acc_old + a_old);
        } else {
            assert(a_old * bit == 0) by (nonlinear_arith)
                requires
                    bit == 0,
            ;
        }
    }
    lemma_add_mod_noop(acc_new, a_new * b_new, m);
    lemma_add_mod_noop(acc_old + a_old * bit, (a_old + a_old) * b_new, m);
}

/// Reducing twice is reducing once.
proof fn lemma_mod_twice_of(x: int)
    ensures
        (x % modulus()) % modulus() == x % modulus(),
{
    lemma_mod_twice(x, modulus());
}

/// One round of square-and-multiply keeps `r * b^p` in its residue class.
proof fn lemma_squaring_step(r_old: int, b_old: int, p_old: nat, r_new: int, b_new: int, p_new: nat)
    requires
        p_old > 0,
        p_new == p_old / 2,
        b_new == mul_mod(b_old, b_old),
        r_new == if p_old % 2 == 1 {
            mul_mod(r_old, b_old)
        } else {
            r_old
        },
    ensures
        (r_new * pow(b_new, p_new)) % modulus() == (r_old * pow(b_old, p_old)) % modulus(),
{
    let m = modulus();
    let bit: nat = p_old % 2;
    lemma_fundamental_div_mod(p_old as int, 2);
    assert(p_old == 2 * p_new + bit);
    // b_old^p_old == (b_old * b_old)^p_new * b_old^bit
    lemma_pow_adds(b_old, 2 * p_new, bit);
    lemma_pow_multiplies(b_old, 2, p_new);
    lemma_pow_adds(b_old, 1, 1);
    lemma_pow1(b_old);
    let sq = pow(b_old * b_old, p_new);
    let low = pow(b_old, bit);
    assert(pow(b_old, p_old) == sq * low);
    // b_new^p_new is congruent to (b_old * b_old)^p_new
    lemma_pow_mod_noop(b_old * b_old, p_new, m);
    assert(pow(b_new, p_new) % m == sq % m);
    // r_new is congruent to r_old * b_old^bit
    assert(r_new % m == (r_old * low) % m) by {
        if bit == 1 {
            lemma_mod_twice_of(r_old * b_old);
        } else {
            lemma_pow0(b_old);
            assert(r_old * low == r_old) by (nonlinear_arith)
                requires
                    low == 1,
            ;
        }
    }
    lemma_mul_mod_noop_general(r_new, pow(b_new, p_new), m);
    lemma_mul_mod_noop_general(r_old * low, sq, m);
    assert((r_old * low) * sq == r_old * (sq * low)) by (nonlinear_arith);
}

} // verus!

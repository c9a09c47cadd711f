//! Two small computations made ready for a STARK prover, with every claim
//! about them proved: the cubic recurrence `x <- x^3 + 42` and the ten-term
//! running-sum sequence, both over the 128-bit prime field.
//!
//! For each computation the crate gives the terminal value, the execution
//! trace, the transition constraints and boundary assertions that a valid
//! trace meets, and the public inputs. The constraint systems are shown to
//! accept the honest trace and no trace with other public inputs.

pub mod air;
pub mod field;
pub mod tenacci;
pub mod tenacci_air;
pub mod tenacci_example;
pub mod trace;
pub mod work;
pub mod work_air;
pub mod work_example;

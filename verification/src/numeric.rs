//! IEEE-754 binary32 arithmetic on raw bit patterns.
//!
//! The engine stores every single-precision value as its raw 32-bit pattern
//! and never reinterprets one itself. The one arithmetic operation the
//! simulation needs — addition, for integrating velocities — is delegated to
//! a software implementation of the format, working bit pattern in, bit
//! pattern out.

use vstd::prelude::*;

verus! {

/// The bit pattern of the IEEE-754 binary32 sum (rounded to nearest, ties to
/// even) of the values whose bit patterns are `a` and `b`. The sum is a
/// function of the two operand patterns alone.
pub uninterp spec fn add_bits(a: u32, b: u32) -> u32;

/// Relies on rustc_apfloat's `Single` semantics: `add_r` computes the
/// IEEE-754 binary32 sum of its operands under the given rounding mode, in
/// software, so the result depends on the operand bit patterns alone.
#[verifier::external_body]
pub(crate) fn add_f32_bits(a: u32, b: u32) -> (r: u32)
    ensures
        r == add_bits(a, b),
{
    let x: rustc_apfloat::ieee::Single = rustc_apfloat::Float::from_bits(a as u128);
    let y: rustc_apfloat::ieee::Single = rustc_apfloat::Float::from_bits(b as u128);
    let sum = rustc_apfloat::Float::add_r(x, y, rustc_apfloat::Round::NearestTiesToEven);
    rustc_apfloat::Float::to_bits(sum.value) as u32
}

} // verus!

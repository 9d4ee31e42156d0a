//! Signed 64.64 fixed-point numbers, computed by the `fixed` crate's `I64F64`.
//!
//! A value is held by its raw bits: `x.bits` stands for `x.bits / 2^64`.
//! Every operation is checked and reports overflow instead of wrapping.

use crate::state::TutorialError;
use fixed::types::I64F64;
use vstd::arithmetic::div_mod::{lemma_div_by_multiple, lemma_div_denominator, lemma_multiply_divide_le};
use vstd::prelude::*;

verus! {

/// The number of bits units in one whole: `2^64`.
pub open spec fn scale() -> int {
    0x1_0000_0000_0000_0000
}

/// The smallest integer that does not fit in the 64 signed integer bits: `2^63`.
pub open spec fn int_limit() -> int {
    0x8000_0000_0000_0000
}

/// `x` fits in the raw bits.
pub open spec fn in_i128(x: int) -> bool {
    i128::MIN <= x <= i128::MAX
}

/// A fixed-point number with 64 integer and 64 fractional bits.
#[derive(Clone, Copy, Debug)]
pub struct Fixed {
    pub bits: i128,
}

/// Relies on `I64F64::checked_from_num::<u64>`: `n` becomes `n * 2^64` in bits,
/// and is refused from `2^63` on, where it leaves the signed integer part.
#[verifier::external_body]
pub(crate) fn fixed_from_u64(n: u64) -> (r: Option<Fixed>)
    ensures
        r.is_some() == (n < int_limit()),
        r.is_some() ==> (r.unwrap().bits as int) == n * scale(),
{
    I64F64::checked_from_num(n).map(|f| Fixed { bits: f.to_bits() })
}

/// Relies on `I64F64::checked_mul`: the product of the bits shifted right by 64
/// (rounding toward negative infinity), or `None` when that leaves `i128`.
#[verifier::external_body]
pub(crate) fn fixed_mul(a: Fixed, b: Fixed) -> (r: Option<Fixed>)
    ensures
        r.is_some() == in_i128(((a.bits as int) * (b.bits as int)) / scale()),
        r.is_some() ==> (r.unwrap().bits as int) == ((a.bits as int) * (b.bits as int)) / scale(),
{
    I64F64::from_bits(a.bits).checked_mul(I64F64::from_bits(b.bits)).map(|f| Fixed { bits: f.to_bits() })
}

/// Relies on `I64F64::checked_div`: `None` for a zero divisor; otherwise the
/// dividend's bits shifted left by 64 and divided by the divisor's bits,
/// truncated, or `None` when that leaves `i128`.
#[verifier::external_body]
pub(crate) fn fixed_div(a: Fixed, b: Fixed) -> (r: Option<Fixed>)
    requires
        (a.bits as int) >= 0,
        (b.bits as int) >= 0,
    ensures
        (b.bits as int) == 0 ==> r.is_none(),
        (b.bits as int) > 0 ==> r.is_some() == in_i128(((a.bits as int) * scale()) / (b.bits as int)),
        r.is_some() ==> (r.unwrap().bits as int) == ((a.bits as int) * scale()) / (b.bits as int),
{
    I64F64::from_bits(a.bits).checked_div(I64F64::from_bits(b.bits)).map(|f| Fixed { bits: f.to_bits() })
}

/// Relies on `I64F64::checked_add`: the exact sum, or `None` on overflow.
#[verifier::external_body]
pub(crate) fn fixed_add(a: Fixed, b: Fixed) -> (r: Option<Fixed>)
    ensures
        r.is_some() == in_i128((a.bits as int) + (b.bits as int)),
        r.is_some() ==> (r.unwrap().bits as int) == (a.bits as int) + (b.bits as int),
{
    I64F64::from_bits(a.bits).checked_add(I64F64::from_bits(b.bits)).map(|f| Fixed { bits: f.to_bits() })
}

/// Relies on `I64F64::sqrt`: for a non-negative value, the square root rounded
/// down to a multiple of `2^-64` (result <= sqrt(x) < result + 2^-64); it cannot
/// overflow while there are integer bits.
#[verifier::external_body]
pub(crate) fn fixed_sqrt(a: Fixed) -> (r: Fixed)
    requires
        (a.bits as int) >= 0,
    ensures
        (r.bits as int) >= 0,
        (r.bits as int) * (r.bits as int) <= (a.bits as int) * scale(),
        (a.bits as int) * scale() < ((r.bits as int) + 1) * ((r.bits as int) + 1),
{
    Fixed { bits: I64F64::from_bits(a.bits).sqrt().to_bits() }
}

/// Relies on `I64F64::checked_to_num::<u64>`: the fractional bits are dropped
/// (rounding toward negative infinity), and `None` comes when the integer does
/// not fit in `u64`.
#[verifier::external_body]
pub(crate) fn fixed_to_u64(a: Fixed) -> (r: Option<u64>)
    ensures
        r.is_some() == (0 <= (a.bits as int) / scale() <= u64::MAX),
        r.is_some() ==> r.unwrap() as int == (a.bits as int) / scale(),
{
    I64F64::from_bits(a.bits).checked_to_num::<u64>()
}

/// Whole numbers scale out of a quotient: `(n * 2^64) / (d * 2^64) == n / d`.
pub proof fn lemma_cancel_scale(n: int, d: int)
    requires
        n >= 0,
        d > 0,
    ensures
        (n * scale()) / (d * scale()) == n / d,
{
    lemma_div_denominator(n * scale(), scale(), d);
    lemma_div_by_multiple(n, scale());
    assert(scale() * d == d * scale()) by (nonlinear_arith);
}

/// A quotient by a whole number, in bits: `(n * 2^64 * 2^64) / (d * 2^64) == (n * 2^64) / d`,
/// and taking its integer part gives `n / d`.
pub proof fn lemma_whole_quotient(n: int, d: int)
    requires
        n >= 0,
        d > 0,
    ensures
        (n * scale() * scale()) / (d * scale()) == (n * scale()) / d,
        ((n * scale()) / d) / scale() == n / d,
{
    lemma_cancel_scale(n * scale(), d);
    lemma_div_denominator(n * scale(), d, scale());
    lemma_cancel_scale(n, d);
    assert(d * scale() == scale() * d) by (nonlinear_arith);
}

/// `floor(n * m / d)` for whole numbers `n`, `m` and a whole fixed-point `d`,
/// computed as the 64.64 steps `n * m`, then `/ d`, then the integer part.
pub(crate) fn mul_div_whole(n: u64, m: u64, d: Fixed) -> (r: Result<u64, TutorialError>)
    requires
        d.bits >= 0,
        (d.bits as int) % scale() == 0,
    ensures
        !(n < int_limit() && m < int_limit() && n * m < int_limit()) ==> r == Err::<u64, TutorialError>(
            TutorialError::ArithmeticOverflow,
        ),
        n < int_limit() && m < int_limit() && n * m < int_limit() && d.bits == 0 ==> r == Err::<
            u64,
            TutorialError,
        >(TutorialError::DivisionByZero),
        n < int_limit() && m < int_limit() && n * m < int_limit() && d.bits > 0 ==> r is Ok
            && r->Ok_0 == (n * m) / ((d.bits as int) / scale()),
{
    let fn_ = match fixed_from_u64(n) {
        Some(f) => f,
        None => return Err(TutorialError::ArithmeticOverflow),
    };
    let fm = match fixed_from_u64(m) {
        Some(f) => f,
        None => return Err(TutorialError::ArithmeticOverflow),
    };
    proof {
        let nm = (n as int) * (m as int);
        assert((n * scale()) * (m * scale()) == (nm * scale()) * scale()) by (nonlinear_arith)
            requires nm == n * m;
        lemma_div_by_multiple(nm * scale(), scale());
        assert(nm < int_limit() ==> nm * scale() <= i128::MAX) by (nonlinear_arith);
        assert(nm >= int_limit() ==> nm * scale() > i128::MAX) by (nonlinear_arith);
        assert(nm >= 0) by (nonlinear_arith)
            requires n >= 0, m >= 0, nm == n * m;
    }
    let prod = match fixed_mul(fn_, fm) {
        Some(f) => f,
        None => return Err(TutorialError::ArithmeticOverflow),
    };
    if d.bits == 0 {
        return Err(TutorialError::DivisionByZero);
    }
    let ghost dv = (d.bits as int) / scale();
    let ghost nm = (n as int) * (m as int);
    proof {
        vstd::arithmetic::div_mod::lemma_fundamental_div_mod(d.bits as int, scale());
        assert(d.bits == dv * scale()) by (nonlinear_arith)
            requires d.bits == scale() * dv + (d.bits as int) % scale(), (d.bits as int) % scale() == 0;
        assert(dv > 0) by (nonlinear_arith)
            requires d.bits == dv * scale(), d.bits > 0, scale() > 0;
        lemma_whole_quotient(nm, dv);
        assert(nm * scale() <= dv * (nm * scale())) by (nonlinear_arith)
            requires dv >= 1, nm >= 0;
        lemma_multiply_divide_le(nm * scale(), dv, nm * scale());
        assert(nm * scale() < 0x8000_0000_0000_0000_0000_0000_0000_0000) by (nonlinear_arith)
            requires nm < int_limit();
        assert((nm * scale()) / dv >= 0) by (nonlinear_arith)
            requires nm >= 0, dv > 0;
        assert(nm <= dv * nm) by (nonlinear_arith)
            requires dv >= 1, nm >= 0;
        lemma_multiply_divide_le(nm, dv, nm);
        assert(nm / dv >= 0) by (nonlinear_arith)
            requires nm >= 0, dv > 0;
    }
    let q = match fixed_div(prod, d) {
        Some(f) => f,
        None => return Err(TutorialError::ArithmeticOverflow),
    };
    match fixed_to_u64(q) {
        Some(v) => Ok(v),
        None => Err(TutorialError::ArithmeticOverflow),
    }
}

} // verus!

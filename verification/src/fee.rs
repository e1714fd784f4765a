use vstd::prelude::*;

verus! {

/// Denominator of fee rates: a rate is a number of basis points.
pub const BASIS_POINTS: i128 = 10_000;

/// Highest fee rate the escrow accepts, in basis points.
pub const MAX_FEE_RATE: i128 = 5_000;

/// Division by `BASIS_POINTS` rounding toward zero, as integer division does.
pub open spec fn div_basis_points(p: int) -> int {
    if p >= 0 {
        p / (BASIS_POINTS as int)
    } else {
        -((-p) / (BASIS_POINTS as int))
    }
}

/// The fee owed on `amount` at `rate` basis points, when the product fits in
/// `i128`; none when it does not.
pub open spec fn spec_fee(amount: int, rate: int) -> int {
    if i128::MIN <= amount * rate <= i128::MAX {
        div_basis_points(amount * rate)
    } else {
        0
    }
}

/// Computes the fee on `amount` at `rate` basis points with checked arithmetic:
/// an overflowing product gives a fee of zero.
pub fn calculate_fee(amount: i128, rate: i128) -> (fee: i128)
    ensures
        fee == spec_fee(amount as int, rate as int),
{
    match amount.checked_mul(rate) {
        Some(product) => product / BASIS_POINTS,
        None => 0,
    }
}

/// The fee never exceeds the principal and is never negative, for every rate
/// up to `MAX_FEE_RATE`; an overflowing product gives no fee rather than a
/// wrapped one.
pub proof fn law_fee_within_principal(amount: int, rate: int)
    requires
        0 <= amount,
        0 <= rate <= MAX_FEE_RATE,
    ensures
        0 <= spec_fee(amount, rate) <= amount,
{
    assert(0 <= amount * rate <= amount * BASIS_POINTS) by (nonlinear_arith)
        requires
            0 <= amount,
            0 <= rate <= BASIS_POINTS,
    ;
    assert((amount * rate) / (BASIS_POINTS as int) <= amount) by (nonlinear_arith)
        requires
            0 <= amount * rate <= amount * BASIS_POINTS,
    ;
}

/// The fee is the product of amount and rate divided by `BASIS_POINTS`,
/// rounded toward zero, whenever that product fits in `i128`: it is the
/// whole number of basis-point units in the product, with a remainder
/// smaller than one unit and of the product's sign. Only a product that
/// overflows `i128` gives no fee.
pub proof fn law_fee_rounds_toward_zero(amount: int, rate: int)
    ensures
        i128::MIN <= amount * rate <= i128::MAX && amount * rate >= 0 ==> {
            let f = spec_fee(amount, rate);
            &&& f * BASIS_POINTS <= amount * rate
            &&& amount * rate < f * BASIS_POINTS + BASIS_POINTS
        },
        i128::MIN <= amount * rate <= i128::MAX && amount * rate < 0 ==> {
            let f = spec_fee(amount, rate);
            &&& amount * rate <= f * BASIS_POINTS
            &&& f * BASIS_POINTS < amount * rate + BASIS_POINTS
        },
        !(i128::MIN <= amount * rate <= i128::MAX) ==> spec_fee(amount, rate) == 0,
{
    let p = amount * rate;
    if p >= 0 {
        assert((p / 10_000) * 10_000 <= p < (p / 10_000) * 10_000 + 10_000) by (nonlinear_arith)
            requires
                p >= 0,
        ;
    } else {
        let q = -p;
        assert((q / 10_000) * 10_000 <= q < (q / 10_000) * 10_000 + 10_000) by (nonlinear_arith)
            requires
                q > 0,
        ;
    }
}

} // verus!

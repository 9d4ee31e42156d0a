//! Swaps along the fee-adjusted constant-product curve, and the check of the
//! reserve product once the host has moved the tokens.

use crate::fixed_point::{fixed_add, fixed_from_u64, int_limit, mul_div_whole, scale};
use crate::state::{Amm, FEE_DENOMINATOR, TutorialError};
use vstd::arithmetic::div_mod::{lemma_div_pos_is_pos, lemma_fundamental_div_mod, lemma_multiply_divide_le};
use vstd::prelude::*;

verus! {

/// What a swap reads: the market's fee, the pool's two reserves and the
/// trader's two balances.
#[derive(Clone, Copy, Debug)]
pub struct SwapExactTokensForTokens {
    pub amm: Amm,
    pub pool_amount_a: u64,
    pub pool_amount_b: u64,
    pub trader_amount_a: u64,
    pub trader_amount_b: u64,
}

/// A priced swap, for the host to carry out: `input` of the sold asset goes
/// into the pool and `output` of the other asset comes out of it.
#[derive(Clone, Copy, Debug)]
pub struct Swap {
    /// Whether asset A is sold for asset B.
    pub swap_a: bool,
    pub input: u64,
    /// The part of `input` that is priced, once the fee is off.
    pub taxed_input: u64,
    pub output: u64,
    /// The product of the reserves before the trade.
    pub product_before: u128,
}

/// The amount taken by the trader: what was asked for, but no more than is held.
pub open spec fn clamped(requested: int, balance: int) -> int {
    if requested > balance {
        balance
    } else {
        requested
    }
}

/// The input left once a fee of `fee` basis points is taken off the top.
pub open spec fn taxed(input: int, fee: int) -> int {
    input - input * fee / FEE_DENOMINATOR as int
}

/// What the curve pays for `t` into a pool holding `r_in` and `r_out`, rounded down.
pub open spec fn curve_output(t: int, r_in: int, r_out: int) -> int {
    t * r_out / (r_in + t)
}

/// Every fixed-point step of the pricing stays in range.
pub open spec fn curve_fits(t: int, r_in: int, r_out: int) -> bool {
    t < int_limit() && r_in < int_limit() && r_out < int_limit() && t * r_out < int_limit() && r_in
        + t < int_limit()
}

impl SwapExactTokensForTokens {
    pub open spec fn reserve_in(self, swap_a: bool) -> int {
        if swap_a {
            self.pool_amount_a as int
        } else {
            self.pool_amount_b as int
        }
    }

    pub open spec fn reserve_out(self, swap_a: bool) -> int {
        if swap_a {
            self.pool_amount_b as int
        } else {
            self.pool_amount_a as int
        }
    }

    pub open spec fn balance_in(self, swap_a: bool) -> int {
        if swap_a {
            self.trader_amount_a as int
        } else {
            self.trader_amount_b as int
        }
    }

    /// The input that a request of `input_amount` sells.
    pub open spec fn spec_input(self, swap_a: bool, input_amount: int) -> int {
        clamped(input_amount, self.balance_in(swap_a))
    }

    pub open spec fn spec_taxed(self, swap_a: bool, input_amount: int) -> int {
        taxed(self.spec_input(swap_a, input_amount), self.amm.fee as int)
    }

    pub open spec fn spec_output(self, swap_a: bool, input_amount: int) -> int {
        curve_output(
            self.spec_taxed(swap_a, input_amount),
            self.reserve_in(swap_a),
            self.reserve_out(swap_a),
        )
    }

    pub open spec fn spec_fits(self, swap_a: bool, input_amount: int) -> bool {
        curve_fits(
            self.spec_taxed(swap_a, input_amount),
            self.reserve_in(swap_a),
            self.reserve_out(swap_a),
        )
    }
}

/// Prices a swap of `input_amount` of asset A (or B, when `swap_a` is false)
/// for the other asset, refusing it when the output falls below
/// `min_output_amount`. The input is cut to the trader's balance, the fee comes
/// off it, and the rest is priced on the constant-product curve.
pub fn swap_exact_tokens_for_tokens(
    accounts: &SwapExactTokensForTokens,
    swap_a: bool,
    input_amount: u64,
    min_output_amount: u64,
) -> (r: Result<Swap, TutorialError>)
    requires
        accounts.amm.wf(),
    ensures
        !accounts.spec_fits(swap_a, input_amount as int) <==> r == Err::<Swap, TutorialError>(
            TutorialError::ArithmeticOverflow,
        ),
        accounts.spec_fits(swap_a, input_amount as int) && accounts.reserve_in(swap_a)
            + accounts.spec_taxed(swap_a, input_amount as int) == 0 <==> r == Err::<
            Swap,
            TutorialError,
        >(TutorialError::DivisionByZero),
        accounts.spec_fits(swap_a, input_amount as int) && accounts.reserve_in(swap_a)
            + accounts.spec_taxed(swap_a, input_amount as int) > 0 && accounts.spec_output(
            swap_a,
            input_amount as int,
        ) < min_output_amount <==> r == Err::<Swap, TutorialError>(TutorialError::OutputTooSmall),
        r is Ok <==> accounts.spec_fits(swap_a, input_amount as int) && accounts.reserve_in(swap_a)
            + accounts.spec_taxed(swap_a, input_amount as int) > 0 && accounts.spec_output(
            swap_a,
            input_amount as int,
        ) >= min_output_amount,
        r is Ok ==> {
            let s = r->Ok_0;
            &&& s.swap_a == swap_a
            &&& s.input == accounts.spec_input(swap_a, input_amount as int)
            &&& s.taxed_input == accounts.spec_taxed(swap_a, input_amount as int)
            &&& s.output == accounts.spec_output(swap_a, input_amount as int)
            &&& s.output >= min_output_amount
            &&& s.product_before == accounts.pool_amount_a * accounts.pool_amount_b
        },
{
    let balance = if swap_a {
        accounts.trader_amount_a
    } else {
        accounts.trader_amount_b
    };
    let input = if input_amount > balance {
        balance
    } else {
        input_amount
    };
    proof {
        assert((input as int) * (accounts.amm.fee as int) <= u128::MAX) by (nonlinear_arith)
            requires input <= u64::MAX, accounts.amm.fee <= u16::MAX;
        assert((input as int) * (accounts.amm.fee as int) <= (input as int) * FEE_DENOMINATOR) by (
        nonlinear_arith)
            requires accounts.amm.fee < FEE_DENOMINATOR, input >= 0;
        lemma_multiply_divide_le(
            (input as int) * (accounts.amm.fee as int),
            FEE_DENOMINATOR as int,
            input as int,
        );
        assert((input as int) * (accounts.amm.fee as int) >= 0) by (nonlinear_arith)
            requires input >= 0, accounts.amm.fee >= 0;
        lemma_div_pos_is_pos((input as int) * (accounts.amm.fee as int), FEE_DENOMINATOR as int);
    }
    // the fee comes off the top
    let fee_part = ((input as u128) * (accounts.amm.fee as u128) / (FEE_DENOMINATOR as u128)) as u64;
    let taxed_input = input - fee_part;
    let (reserve_in, reserve_out) = if swap_a {
        (accounts.pool_amount_a, accounts.pool_amount_b)
    } else {
        (accounts.pool_amount_b, accounts.pool_amount_a)
    };
    let ghost t = taxed_input as int;
    let ghost ri = reserve_in as int;
    let ghost ro = reserve_out as int;
    let f_in = match fixed_from_u64(reserve_in) {
        Some(f) => f,
        None => return Err(TutorialError::ArithmeticOverflow),
    };
    let f_taxed = match fixed_from_u64(taxed_input) {
        Some(f) => f,
        None => return Err(TutorialError::ArithmeticOverflow),
    };
    proof {
        assert(ri * scale() + t * scale() == (ri + t) * scale()) by (nonlinear_arith);
        assert(ri + t < int_limit() ==> (ri + t) * scale() <= i128::MAX) by (nonlinear_arith)
            requires ri >= 0, t >= 0;
        assert(ri + t >= int_limit() ==> (ri + t) * scale() > i128::MAX) by (nonlinear_arith);
    }
    let denominator = match fixed_add(f_in, f_taxed) {
        Some(f) => f,
        None => {
            proof {
                assert(t * ro >= 0) by (nonlinear_arith)
                    requires t >= 0, ro >= 0;
            }
            return Err(TutorialError::ArithmeticOverflow);
        },
    };
    proof {
        lemma_fundamental_div_mod(denominator.bits as int, scale());
        vstd::arithmetic::div_mod::lemma_div_by_multiple(ri + t, scale());
        vstd::arithmetic::div_mod::lemma_mod_multiples_basic(ri + t, scale());
        assert((ri + t) * scale() == scale() * (ri + t)) by (nonlinear_arith);
    }
    let output = match mul_div_whole(taxed_input, reserve_out, denominator) {
        Ok(v) => v,
        Err(e) => return Err(e),
    };
    if output < min_output_amount {
        return Err(TutorialError::OutputTooSmall);
    }
    proof {
        assert((accounts.pool_amount_a as int) * (accounts.pool_amount_b as int) <= u128::MAX) by (
        nonlinear_arith)
            requires accounts.pool_amount_a <= u64::MAX, accounts.pool_amount_b <= u64::MAX;
    }
    let product_before = (accounts.pool_amount_a as u128) * (accounts.pool_amount_b as u128);
    Ok(Swap { swap_a, input, taxed_input, output, product_before })
}

/// Checks a carried-out swap against the reserves read back from the host:
/// the product of the reserves may grow, as rounding leaves dust to the
/// liquidity providers, but must not fall.
pub fn check_product(swap: &Swap, pool_amount_a: u64, pool_amount_b: u64) -> (r: Result<
    (),
    TutorialError,
>)
    ensures
        r is Ok <==> pool_amount_a * pool_amount_b >= swap.product_before,
        r is Err ==> r == Err::<(), TutorialError>(TutorialError::InvariantViolated),
{
    proof {
        assert((pool_amount_a as int) * (pool_amount_b as int) <= u128::MAX) by (nonlinear_arith)
            requires pool_amount_a <= u64::MAX, pool_amount_b <= u64::MAX;
    }
    let product_after = (pool_amount_a as u128) * (pool_amount_b as u128);
    if product_after < swap.product_before {
        return Err(TutorialError::InvariantViolated);
    }
    Ok(())
}

/// A swap priced by the curve never lowers the reserve product: once the
/// whole input has gone into the pool and the output has left it, the pool
/// still holds that much of the bought asset and the product is at least what
/// it was.
pub proof fn lemma_swap_keeps_product(r_in: int, r_out: int, input: int, fee: int)
    requires
        0 <= r_in,
        0 <= r_out,
        0 <= input,
        0 <= fee < FEE_DENOMINATOR,
        r_in + taxed(input, fee) > 0,
    ensures
        0 <= curve_output(taxed(input, fee), r_in, r_out) <= r_out,
        (r_in + input) * (r_out - curve_output(taxed(input, fee), r_in, r_out)) >= r_in * r_out,
{
    let t = taxed(input, fee);
    let d = r_in + t;
    assert(input * fee <= input * FEE_DENOMINATOR) by (nonlinear_arith)
        requires fee < FEE_DENOMINATOR, input >= 0;
    lemma_multiply_divide_le(input * fee, FEE_DENOMINATOR as int, input);
    assert(input * fee >= 0) by (nonlinear_arith)
        requires input >= 0, fee >= 0;
    lemma_div_pos_is_pos(input * fee, FEE_DENOMINATOR as int);
    assert(0 <= t <= input);
    let o = t * r_out / d;
    assert(t * r_out >= 0) by (nonlinear_arith)
        requires t >= 0, r_out >= 0;
    lemma_div_pos_is_pos(t * r_out, d);
    assert(t * r_out <= d * r_out) by (nonlinear_arith)
        requires t <= d, r_out >= 0;
    lemma_multiply_divide_le(t * r_out, d, r_out);
    lemma_fundamental_div_mod(t * r_out, d);
    vstd::arithmetic::div_mod::lemma_mod_pos_bound(t * r_out, d);
    assert(d * o <= t * r_out);
    assert(d * (r_out - o) >= r_in * r_out) by (nonlinear_arith)
        requires d * o <= t * r_out, d == r_in + t;
    assert((r_in + input) * (r_out - o) >= d * (r_out - o)) by (nonlinear_arith)
        requires r_in + input >= d, r_out - o >= 0;
}

/// A swap that was priced goes through the product check once the host has
/// carried it out: with the whole input added to the sold reserve and the
/// output taken from the bought one, the product of the reserves read back is
/// at least `product_before`.
pub proof fn lemma_completed_swap_passes_check(
    accounts: SwapExactTokensForTokens,
    swap_a: bool,
    input_amount: int,
)
    requires
        accounts.amm.wf(),
        0 <= input_amount,
        accounts.reserve_in(swap_a) + accounts.spec_taxed(swap_a, input_amount) > 0,
    ensures
        accounts.spec_output(swap_a, input_amount) <= accounts.reserve_out(swap_a),
        ({
            let after_in = accounts.reserve_in(swap_a) + accounts.spec_input(swap_a, input_amount);
            let after_out = accounts.reserve_out(swap_a) - accounts.spec_output(swap_a, input_amount);
            if swap_a {
                after_in * after_out >= accounts.pool_amount_a * accounts.pool_amount_b
            } else {
                after_out * after_in >= accounts.pool_amount_a * accounts.pool_amount_b
            }
        }),
{
    let input = accounts.spec_input(swap_a, input_amount);
    lemma_swap_keeps_product(
        accounts.reserve_in(swap_a),
        accounts.reserve_out(swap_a),
        input,
        accounts.amm.fee as int,
    );
    let after_in = accounts.reserve_in(swap_a) + input;
    let after_out = accounts.reserve_out(swap_a) - accounts.spec_output(swap_a, input_amount);
    assert(after_out * after_in == after_in * after_out) by (nonlinear_arith);
    assert(accounts.pool_amount_b * accounts.pool_amount_a == accounts.pool_amount_a
        * accounts.pool_amount_b) by (nonlinear_arith);
}

} // verus!

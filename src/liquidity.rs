//! Liquidity shares: how many a deposit issues, and what burning them pays.

use crate::fixed_point::{
    fixed_from_u64, fixed_mul, fixed_sqrt, fixed_to_u64, int_limit, mul_div_whole, scale,
};
use crate::state::{MINIMUM_LIQUIDITY, TutorialError};
use crate::swap::clamped;
use vstd::arithmetic::div_mod::{
    lemma_div_by_multiple, lemma_div_pos_is_pos, lemma_fundamental_div_mod, lemma_mod_multiples_basic,
    lemma_mod_pos_bound, lemma_multiply_divide_le, lemma_multiply_divide_lt,
};
use vstd::prelude::*;

verus! {

/// `root` is the square root of `x`, rounded down.
pub open spec fn is_floor_sqrt(root: int, x: int) -> bool {
    0 <= root && root * root <= x && x < (root + 1) * (root + 1)
}

/// Offers `x` and `y` brought to the proportion of reserves `rx >= ry`: all of
/// `x` with `x * ry / rx` of `y`, rounded down, if the offer of `y` covers that;
/// otherwise all of `y` with `y * rx / ry` of `x`, rounded down.
pub open spec fn matched(x: int, y: int, rx: int, ry: int) -> (int, int) {
    if x * ry / rx <= y {
        (x, x * ry / rx)
    } else {
        (y * rx / ry, y)
    }
}

/// Amounts `x` and `y` stand in the proportion of reserves `rx` and `ry` up to
/// less than one unit of the larger reserve: `|x * ry - y * rx| < max(rx, ry)`.
pub open spec fn in_proportion(x: int, y: int, rx: int, ry: int) -> bool {
    let m = if rx >= ry {
        rx
    } else {
        ry
    };
    -m < x * ry - y * rx < m
}

/// The amounts of a deposit of offers `a` and `b` into reserves `ra` and `rb`:
/// taken as they are into an empty pool, matched to the pool's price otherwise.
pub open spec fn accepted(a: int, b: int, ra: int, rb: int) -> (int, int) {
    if ra == 0 && rb == 0 {
        (a, b)
    } else if ra >= rb {
        matched(a, b, ra, rb)
    } else {
        (matched(b, a, rb, ra).1, matched(b, a, rb, ra).0)
    }
}

/// Brings offers `x` and `y` to the proportion of reserves `rx >= ry` (see
/// `matched`), each leg as one 64.64 multiply and divide.
fn match_to_price(x: u64, y: u64, rx: u64, ry: u64) -> (r: Result<(u64, u64), TutorialError>)
    requires
        rx >= ry,
        rx > 0,
    ensures
        x < int_limit() && rx < int_limit() && ry < int_limit() && x * ry < int_limit() <==> r is Ok,
        r is Err ==> r == Err::<(u64, u64), TutorialError>(TutorialError::ArithmeticOverflow),
        r is Ok ==> r->Ok_0.0 == matched(x as int, y as int, rx as int, ry as int).0 && r->Ok_0.1
            == matched(x as int, y as int, rx as int, ry as int).1,
        r is Ok ==> r->Ok_0.0 <= x && r->Ok_0.1 <= y && (r->Ok_0.0 == x || r->Ok_0.1 == y),
        r is Ok ==> in_proportion(r->Ok_0.0 as int, r->Ok_0.1 as int, rx as int, ry as int),
{
    let frx = match fixed_from_u64(rx) {
        Some(f) => f,
        None => return Err(TutorialError::ArithmeticOverflow),
    };
    let fry = match fixed_from_u64(ry) {
        Some(f) => f,
        None => return Err(TutorialError::ArithmeticOverflow),
    };
    let ghost s = scale();
    proof {
        lemma_div_by_multiple(rx as int, s);
        lemma_div_by_multiple(ry as int, s);
        lemma_mod_multiples_basic(rx as int, s);
        lemma_mod_multiples_basic(ry as int, s);
        assert(rx * s == s * rx && ry * s == s * ry) by (nonlinear_arith);
        assert(x * ry >= 0) by (nonlinear_arith)
            requires x >= 0, ry >= 0;
    }
    let y_for_x = match mul_div_whole(x, ry, frx) {
        Ok(v) => v,
        Err(_) => return Err(TutorialError::ArithmeticOverflow),
    };
    proof {
        let q = (x * ry) / (rx as int);
        lemma_fundamental_div_mod(x * ry, rx as int);
        lemma_mod_pos_bound(x * ry, rx as int);
        assert(x * ry <= rx * x) by (nonlinear_arith)
            requires ry <= rx, x >= 0;
        lemma_multiply_divide_le(x * ry, rx as int, x as int);
        assert(x * ry - q * rx >= 0 && x * ry - q * rx < rx) by (nonlinear_arith)
            requires x * ry == rx * q + (x * ry) % (rx as int), 0 <= (x * ry) % (rx as int) < rx;
    }
    if y_for_x <= y {
        return Ok((x, y_for_x));
    }
    proof {
        // the offer of y falls short of what x is worth, so y is worth less than x
        let q = (x * ry) / (rx as int);
        assert(y * rx < x * ry) by (nonlinear_arith)
            requires y + 1 <= q, x * ry - q * rx >= 0, rx > 0;
        assert(ry > 0) by (nonlinear_arith)
            requires y * rx < x * ry, y >= 0, rx > 0, x >= 0, ry >= 0;
        assert(y < x) by (nonlinear_arith)
            requires y * rx < x * ry, ry <= rx, ry > 0, x >= 0;
        assert(y * rx < ry * x) by (nonlinear_arith)
            requires y * rx < x * ry;
        assert(y * rx >= 0) by (nonlinear_arith)
            requires y >= 0, rx >= 0;
        lemma_multiply_divide_lt(y * rx, ry as int, x as int);
        let p = (y * rx) / (ry as int);
        lemma_fundamental_div_mod(y * rx, ry as int);
        lemma_mod_pos_bound(y * rx, ry as int);
        assert(y * rx - p * ry >= 0 && y * rx - p * ry < ry) by (nonlinear_arith)
            requires y * rx == ry * p + (y * rx) % (ry as int), 0 <= (y * rx) % (ry as int) < ry;
        lemma_div_pos_is_pos(y * rx, ry as int);
    }
    let x_for_y = match mul_div_whole(y, rx, fry) {
        Ok(v) => v,
        Err(_) => return Err(TutorialError::ArithmeticOverflow),
    };
    Ok((x_for_y, y))
}

/// The square root of a whole number, taken in 64.64 bits and cut to its
/// integer part, is the square root of the number rounded down.
pub proof fn lemma_scaled_sqrt(n: int, root: int)
    requires
        n >= 0,
        root >= 0,
        root * root <= n * scale() * scale(),
        n * scale() * scale() < (root + 1) * (root + 1),
    ensures
        is_floor_sqrt(root / scale(), n),
{
    let s = scale();
    let t = root / s;
    lemma_fundamental_div_mod(root, s);
    lemma_mod_pos_bound(root, s);
    lemma_div_pos_is_pos(root, s);
    assert(t * s <= root);
    assert((t * s) * (t * s) <= root * root) by (nonlinear_arith)
        requires 0 <= t * s <= root;
    assert(t * t <= n) by (nonlinear_arith)
        requires (t * s) * (t * s) <= n * s * s, s > 0;
    assert(root + 1 <= (t + 1) * s) by (nonlinear_arith)
        requires root == s * t + root % s, root % s < s;
    assert((root + 1) * (root + 1) <= ((t + 1) * s) * ((t + 1) * s)) by (nonlinear_arith)
        requires 0 <= root + 1 <= (t + 1) * s;
    assert(n < (t + 1) * (t + 1)) by (nonlinear_arith)
        requires n * s * s < ((t + 1) * s) * ((t + 1) * s), s > 0;
}

/// What a deposit reads: the pool's two reserves and the depositor's two balances.
#[derive(Clone, Copy, Debug)]
pub struct DepositLiquidity {
    pub pool_amount_a: u64,
    pub pool_amount_b: u64,
    pub depositor_amount_a: u64,
    pub depositor_amount_b: u64,
}

/// A priced deposit, for the host to carry out: the two amounts move from the
/// depositor into the pool, and `liquidity` shares are minted to the depositor.
#[derive(Clone, Copy, Debug)]
pub struct Deposit {
    pub amount_a: u64,
    pub amount_b: u64,
    pub liquidity: u64,
}

impl DepositLiquidity {
    /// The pool holds nothing yet.
    pub open spec fn is_first(self) -> bool {
        self.pool_amount_a == 0 && self.pool_amount_b == 0
    }

    /// The amounts that requests of `amount_a` and `amount_b` deposit.
    pub open spec fn spec_accepted(self, amount_a: int, amount_b: int) -> (int, int) {
        accepted(
            clamped(amount_a, self.depositor_amount_a as int),
            clamped(amount_b, self.depositor_amount_b as int),
            self.pool_amount_a as int,
            self.pool_amount_b as int,
        )
    }

    /// Every fixed-point step of the deposit stays in range.
    pub open spec fn spec_fits(self, amount_a: int, amount_b: int) -> bool {
        let acc = self.spec_accepted(amount_a, amount_b);
        let offer_a = clamped(amount_a, self.depositor_amount_a as int);
        let offer_b = clamped(amount_b, self.depositor_amount_b as int);
        &&& offer_a < int_limit()
        &&& offer_b < int_limit()
        &&& (self.is_first() || {
            &&& self.pool_amount_a < int_limit()
            &&& self.pool_amount_b < int_limit()
            &&& self.pool_amount_a >= self.pool_amount_b ==> offer_a * self.pool_amount_b
                < int_limit()
            &&& self.pool_amount_a < self.pool_amount_b ==> offer_b * self.pool_amount_a
                < int_limit()
        })
        &&& acc.0 * acc.1 < int_limit()
    }

    /// The deposit would issue too few shares: under the locked minimum on a
    /// first deposit, none at all after it (the product of the amounts is
    /// under the square of that many shares).
    pub open spec fn spec_too_small(self, amount_a: int, amount_b: int) -> bool {
        let acc = self.spec_accepted(amount_a, amount_b);
        if self.is_first() {
            acc.0 * acc.1 < MINIMUM_LIQUIDITY * MINIMUM_LIQUIDITY
        } else {
            acc.0 * acc.1 < 1
        }
    }

    /// The shares locked by this deposit: the minimum on a first deposit, none after.
    pub open spec fn locked(self) -> int {
        if self.is_first() {
            MINIMUM_LIQUIDITY as int
        } else {
            0
        }
    }
}

/// Prices a deposit of up to `amount_a` and `amount_b`. Each request is cut to
/// the depositor's balance; into a pool that holds something, the two are
/// brought to the proportion of its reserves. The shares issued are the square
/// root of the product of the amounts, rounded down; a first deposit must reach
/// `MINIMUM_LIQUIDITY` of them, which stay locked and are not minted, and a
/// later one must issue at least one.
pub fn deposit_liquidity(accounts: &DepositLiquidity, amount_a: u64, amount_b: u64) -> (r: Result<
    Deposit,
    TutorialError,
>)
    ensures
        !accounts.spec_fits(amount_a as int, amount_b as int) <==> r == Err::<Deposit, TutorialError>(
            TutorialError::ArithmeticOverflow,
        ),
        accounts.spec_fits(amount_a as int, amount_b as int) && accounts.spec_too_small(
            amount_a as int,
            amount_b as int,
        ) <==> r == Err::<Deposit, TutorialError>(TutorialError::DepositTooSmall),
        r is Ok <==> accounts.spec_fits(amount_a as int, amount_b as int)
            && !accounts.spec_too_small(amount_a as int, amount_b as int),
        r is Ok ==> {
            let d = r->Ok_0;
            let acc = accounts.spec_accepted(amount_a as int, amount_b as int);
            &&& d.amount_a == acc.0
            &&& d.amount_b == acc.1
            &&& d.amount_a <= amount_a && d.amount_a <= accounts.depositor_amount_a
            &&& d.amount_b <= amount_b && d.amount_b <= accounts.depositor_amount_b
            &&& is_floor_sqrt(d.liquidity + accounts.locked(), acc.0 * acc.1)
            &&& d.liquidity + accounts.locked() > 0
        },
        r is Ok && !accounts.is_first() ==> {
            let d = r->Ok_0;
            &&& d.amount_a == clamped(amount_a as int, accounts.depositor_amount_a as int)
                || d.amount_b == clamped(amount_b as int, accounts.depositor_amount_b as int)
            &&& in_proportion(
                d.amount_a as int,
                d.amount_b as int,
                accounts.pool_amount_a as int,
                accounts.pool_amount_b as int,
            )
        },
{
    let offer_a = if amount_a > accounts.depositor_amount_a {
        accounts.depositor_amount_a
    } else {
        amount_a
    };
    let offer_b = if amount_b > accounts.depositor_amount_b {
        accounts.depositor_amount_b
    } else {
        amount_b
    };
    let pool_a = accounts.pool_amount_a;
    let pool_b = accounts.pool_amount_b;
    let pool_creation = pool_a == 0 && pool_b == 0;
    if offer_a >= 0x8000_0000_0000_0000 || offer_b >= 0x8000_0000_0000_0000 {
        return Err(TutorialError::ArithmeticOverflow);
    }
    let (amount_a, amount_b) = if pool_creation {
        (offer_a, offer_b)
    } else if pool_a >= pool_b {
        match match_to_price(offer_a, offer_b, pool_a, pool_b) {
            Ok(p) => p,
            Err(e) => return Err(e),
        }
    } else {
        match match_to_price(offer_b, offer_a, pool_b, pool_a) {
            Ok((y, x)) => {
                proof {
                    let (ra, rb) = (pool_a as int, pool_b as int);
                    assert(-((y as int) * ra - (x as int) * rb) == (x as int) * rb - (y as int)
                        * ra) by (nonlinear_arith);
                }
                (x, y)
            },
            Err(e) => return Err(e),
        }
    };
    let fa = match fixed_from_u64(amount_a) {
        Some(f) => f,
        None => return Err(TutorialError::ArithmeticOverflow),
    };
    let fb = match fixed_from_u64(amount_b) {
        Some(f) => f,
        None => return Err(TutorialError::ArithmeticOverflow),
    };
    let ghost s = scale();
    let ghost ab = (amount_a as int) * (amount_b as int);
    proof {
        assert((amount_a * s) * (amount_b * s) == (ab * s) * s) by (nonlinear_arith)
            requires ab == amount_a * amount_b;
        assert(ab >= 0) by (nonlinear_arith)
            requires amount_a >= 0, amount_b >= 0, ab == amount_a * amount_b;
        lemma_div_by_multiple(ab * s, s);
        assert(ab < int_limit() ==> ab * s <= i128::MAX) by (nonlinear_arith)
            requires s == scale();
        assert(ab >= int_limit() ==> ab * s > i128::MAX) by (nonlinear_arith)
            requires s == scale();
    }
    let product = match fixed_mul(fa, fb) {
        Some(f) => f,
        None => return Err(TutorialError::ArithmeticOverflow),
    };
    let root = fixed_sqrt(product);
    proof {
        lemma_scaled_sqrt(ab, root.bits as int);
        let t = (root.bits as int) / s;
        assert(t <= ab) by (nonlinear_arith)
            requires t * t <= ab, t >= 0;
    }
    let mut liquidity = match fixed_to_u64(root) {
        Some(v) => v,
        None => return Err(TutorialError::ArithmeticOverflow),
    };
    // Lock some minimum liquidity on the first deposit
    if pool_creation {
        proof {
            assert(liquidity < 100 <==> ab < 10000) by (nonlinear_arith)
                requires is_floor_sqrt(liquidity as int, ab);
        }
        if liquidity < MINIMUM_LIQUIDITY {
            return Err(TutorialError::DepositTooSmall);
        }
        liquidity = liquidity - MINIMUM_LIQUIDITY;
    } else {
        proof {
            assert(liquidity == 0 <==> ab < 1) by (nonlinear_arith)
                requires is_floor_sqrt(liquidity as int, ab);
        }
        // a deposit that would issue no shares takes nothing
        if liquidity == 0 {
            return Err(TutorialError::DepositTooSmall);
        }
    }
    Ok(Deposit { amount_a, amount_b, liquidity })
}

/// What withdrawing reads: the pool's two reserves and the shares in circulation.
#[derive(Clone, Copy, Debug)]
pub struct WithdrawLiquidity {
    pub pool_amount_a: u64,
    pub pool_amount_b: u64,
    pub liquidity_supply: u64,
}

/// A priced withdrawal, for the host to carry out: the shares are burnt and the
/// two amounts move from the pool to the holder.
#[derive(Clone, Copy, Debug)]
pub struct Withdrawal {
    pub amount_a: u64,
    pub amount_b: u64,
}

/// What burning `amount` shares pays out of `reserve`, when `supply` shares
/// circulate besides the locked minimum, rounded down.
pub open spec fn share_of(amount: int, reserve: int, supply: int) -> int {
    amount * reserve / (supply + MINIMUM_LIQUIDITY)
}

impl WithdrawLiquidity {
    /// Every fixed-point step of the withdrawal stays in range.
    pub open spec fn spec_fits(self, amount: int) -> bool {
        &&& amount < int_limit()
        &&& self.pool_amount_a < int_limit()
        &&& self.pool_amount_b < int_limit()
        &&& amount * self.pool_amount_a < int_limit()
        &&& amount * self.pool_amount_b < int_limit()
        &&& self.liquidity_supply + MINIMUM_LIQUIDITY < int_limit()
    }
}

/// Prices the burning of `amount` shares: each reserve is paid out in the
/// proportion of `amount` to the shares in circulation together with the
/// locked minimum, which is thereby never redeemed.
pub fn withdraw_liquidity(accounts: &WithdrawLiquidity, amount: u64) -> (r: Result<
    Withdrawal,
    TutorialError,
>)
    ensures
        !accounts.spec_fits(amount as int) <==> r is Err,
        r is Err ==> r == Err::<Withdrawal, TutorialError>(TutorialError::ArithmeticOverflow),
        r is Ok ==> r->Ok_0.amount_a == share_of(
            amount as int,
            accounts.pool_amount_a as int,
            accounts.liquidity_supply as int,
        ) && r->Ok_0.amount_b == share_of(
            amount as int,
            accounts.pool_amount_b as int,
            accounts.liquidity_supply as int,
        ),
{
    let supply = match accounts.liquidity_supply.checked_add(MINIMUM_LIQUIDITY) {
        Some(v) => v,
        None => return Err(TutorialError::ArithmeticOverflow),
    };
    let denominator = match fixed_from_u64(supply) {
        Some(f) => f,
        None => return Err(TutorialError::ArithmeticOverflow),
    };
    proof {
        lemma_fundamental_div_mod(denominator.bits as int, scale());
        lemma_div_by_multiple(supply as int, scale());
        vstd::arithmetic::div_mod::lemma_mod_multiples_basic(supply as int, scale());
        assert((supply as int) * scale() == scale() * (supply as int)) by (nonlinear_arith);
    }
    let amount_a = match mul_div_whole(amount, accounts.pool_amount_a, denominator) {
        Ok(v) => v,
        Err(_) => return Err(TutorialError::ArithmeticOverflow),
    };
    let amount_b = match mul_div_whole(amount, accounts.pool_amount_b, denominator) {
        Ok(v) => v,
        Err(_) => return Err(TutorialError::ArithmeticOverflow),
    };
    Ok(Withdrawal { amount_a, amount_b })
}

/// Burning no more shares than circulate, counting the locked minimum, never
/// pays out more than a reserve holds.
pub proof fn lemma_withdraw_within_reserves(amount: int, reserve: int, supply: int)
    requires
        0 <= amount <= supply + MINIMUM_LIQUIDITY,
        0 <= reserve,
        0 <= supply,
    ensures
        0 <= share_of(amount, reserve, supply) <= reserve,
{
    let d = supply + MINIMUM_LIQUIDITY;
    assert(amount * reserve <= d * reserve) by (nonlinear_arith)
        requires amount <= d, reserve >= 0;
    lemma_multiply_divide_le(amount * reserve, d, reserve);
    assert(amount * reserve >= 0) by (nonlinear_arith)
        requires amount >= 0, reserve >= 0;
    lemma_div_pos_is_pos(amount * reserve, d);
}

/// Every deposit that is not refused issues shares: the square root of the
/// product of its amounts is positive, and on a first deposit at least the
/// locked minimum.
pub proof fn lemma_deposit_issues_shares(accounts: DepositLiquidity, amount_a: int, amount_b: int, total: int)
    requires
        is_floor_sqrt(
            total,
            accounts.spec_accepted(amount_a, amount_b).0 * accounts.spec_accepted(amount_a, amount_b).1,
        ),
        !accounts.spec_too_small(amount_a, amount_b),
    ensures
        total > 0,
        accounts.is_first() ==> total >= MINIMUM_LIQUIDITY,
{
    let p = accounts.spec_accepted(amount_a, amount_b).0 * accounts.spec_accepted(amount_a, amount_b).1;
    if accounts.is_first() {
        assert(total >= 100) by (nonlinear_arith)
            requires is_floor_sqrt(total, p), p >= 10000;
    } else {
        assert(total > 0) by (nonlinear_arith)
            requires is_floor_sqrt(total, p), p >= 1;
    }
}

/// Depositing and at once burning the shares that the deposit minted pays back
/// no more than was deposited, whenever the shares were not priced above the
/// pool's holdings: `liquidity` of them claim at most the deposited share of
/// each reserve. A first deposit always meets this.
pub proof fn lemma_deposit_then_withdraw(
    reserve_a: int,
    reserve_b: int,
    supply: int,
    amount_a: int,
    amount_b: int,
    liquidity: int,
)
    requires
        0 <= reserve_a,
        0 <= reserve_b,
        0 <= supply,
        0 <= amount_a,
        0 <= amount_b,
        0 <= liquidity,
        liquidity * reserve_a <= amount_a * (supply + MINIMUM_LIQUIDITY),
        liquidity * reserve_b <= amount_b * (supply + MINIMUM_LIQUIDITY),
    ensures
        share_of(liquidity, reserve_a + amount_a, supply + liquidity) <= amount_a,
        share_of(liquidity, reserve_b + amount_b, supply + liquidity) <= amount_b,
{
    let d = supply + liquidity + MINIMUM_LIQUIDITY;
    assert(liquidity * (reserve_a + amount_a) <= d * amount_a) by (nonlinear_arith)
        requires liquidity * reserve_a <= amount_a * (supply + MINIMUM_LIQUIDITY), d == supply
            + liquidity + MINIMUM_LIQUIDITY;
    lemma_multiply_divide_le(liquidity * (reserve_a + amount_a), d, amount_a);
    assert(liquidity * (reserve_b + amount_b) <= d * amount_b) by (nonlinear_arith)
        requires liquidity * reserve_b <= amount_b * (supply + MINIMUM_LIQUIDITY), d == supply
            + liquidity + MINIMUM_LIQUIDITY;
    lemma_multiply_divide_le(liquidity * (reserve_b + amount_b), d, amount_b);
}

} // verus!

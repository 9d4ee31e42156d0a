use amm::{
    check_product, check_vaults, create_amm, create_pool, deposit_liquidity, swap_exact_tokens_for_tokens,
    withdraw_liquidity, Amm, CreateAmm, CreatePool, DepositLiquidity, Pubkey,
    SwapExactTokensForTokens, TutorialError, WithdrawLiquidity, MINIMUM_LIQUIDITY,
};

fn key(b: u8) -> Pubkey {
    Pubkey { bytes: [b; 32] }
}

fn market(fee: u16) -> Amm {
    Amm { id: key(1), admin: key(2), fee }
}

fn deposit_accounts(pool_a: u64, pool_b: u64, bal_a: u64, bal_b: u64) -> DepositLiquidity {
    DepositLiquidity {
        pool_amount_a: pool_a,
        pool_amount_b: pool_b,
        depositor_amount_a: bal_a,
        depositor_amount_b: bal_b,
    }
}

fn swap_accounts(fee: u16, pool_a: u64, pool_b: u64, bal_a: u64, bal_b: u64) -> SwapExactTokensForTokens {
    SwapExactTokensForTokens {
        amm: market(fee),
        pool_amount_a: pool_a,
        pool_amount_b: pool_b,
        trader_amount_a: bal_a,
        trader_amount_b: bal_b,
    }
}

#[test]
fn create_amm_keeps_its_parameters() {
    let amm = create_amm(&CreateAmm { admin: key(7) }, key(3), 30).unwrap();
    assert_eq!(amm.id.bytes, [3; 32]);
    assert_eq!(amm.admin.bytes, [7; 32]);
    assert_eq!(amm.fee, 30);
}

#[test]
fn create_amm_accepts_largest_fee_below_whole() {
    assert_eq!(create_amm(&CreateAmm { admin: key(7) }, key(3), 9999).unwrap().fee, 9999);
}

#[test]
fn create_amm_refuses_whole_fee() {
    assert_eq!(
        create_amm(&CreateAmm { admin: key(7) }, key(3), 10000).unwrap_err(),
        TutorialError::InvalidFee
    );
    assert_eq!(
        create_amm(&CreateAmm { admin: key(7) }, key(3), u16::MAX).unwrap_err(),
        TutorialError::InvalidFee
    );
}

#[test]
fn create_pool_records_assets() {
    let pool = create_pool(&CreatePool { amm: key(1), mint_a: key(4), mint_b: key(5) }).unwrap();
    assert_eq!(pool.amm.bytes, [1; 32]);
    assert_eq!(pool.mint_a.bytes, [4; 32]);
    assert_eq!(pool.mint_b.bytes, [5; 32]);
}

#[test]
fn create_pool_refuses_one_asset_twice() {
    assert_eq!(
        create_pool(&CreatePool { amm: key(1), mint_a: key(4), mint_b: key(4) }).unwrap_err(),
        TutorialError::InvalidMint
    );
}

#[test]
fn create_pool_tells_apart_keys_differing_in_last_byte() {
    let mut other = key(4);
    other.bytes[31] = 5;
    assert!(create_pool(&CreatePool { amm: key(1), mint_a: key(4), mint_b: other }).is_ok());
}

#[test]
fn first_deposit_locks_minimum() {
    let d = deposit_liquidity(&deposit_accounts(0, 0, 10000, 10000), 10000, 10000).unwrap();
    assert_eq!(d.amount_a, 10000);
    assert_eq!(d.amount_b, 10000);
    assert_eq!(d.liquidity, 9900);
    assert_eq!(d.liquidity + MINIMUM_LIQUIDITY, 10000);
}

#[test]
fn first_deposit_rounds_root_down() {
    // sqrt(1000 * 20) = 141.42...
    let d = deposit_liquidity(&deposit_accounts(0, 0, 1000, 1000), 1000, 20).unwrap();
    assert_eq!(d.liquidity, 41);
}

#[test]
fn first_deposit_below_minimum_is_refused() {
    // sqrt(1000 * 3) = 54.77...
    let e = deposit_liquidity(&deposit_accounts(0, 0, 1000, 1000), 1000, 3).unwrap_err();
    assert_eq!(e, TutorialError::DepositTooSmall);
}

#[test]
fn first_deposit_at_exact_minimum_mints_nothing() {
    let d = deposit_liquidity(&deposit_accounts(0, 0, 100, 100), 100, 100).unwrap();
    assert_eq!(d.liquidity, 0);
}

#[test]
fn deposit_is_clamped_to_balance() {
    let d = deposit_liquidity(&deposit_accounts(0, 0, 10000, 2500), 20000, 90000).unwrap();
    assert_eq!(d.amount_a, 10000);
    assert_eq!(d.amount_b, 2500);
    assert_eq!(d.liquidity, 4900);
}

#[test]
fn deposit_into_even_pool_takes_smaller_offer() {
    let d = deposit_liquidity(&deposit_accounts(10000, 10000, 5000, 5000), 1000, 500).unwrap();
    assert_eq!((d.amount_a, d.amount_b), (500, 500));
    assert_eq!(d.liquidity, 500);
}

#[test]
fn deposit_follows_price_when_a_is_larger() {
    let d = deposit_liquidity(&deposit_accounts(20000, 10000, 5000, 5000), 1000, 1000).unwrap();
    assert_eq!((d.amount_a, d.amount_b), (1000, 500));
    // sqrt(500000) = 707.1...
    assert_eq!(d.liquidity, 707);
}

#[test]
fn deposit_follows_price_when_b_is_larger() {
    let d = deposit_liquidity(&deposit_accounts(10000, 20000, 5000, 5000), 1000, 1000).unwrap();
    assert_eq!((d.amount_a, d.amount_b), (500, 1000));
    assert_eq!(d.liquidity, 707);
}

#[test]
fn deposit_with_short_second_offer_scales_first() {
    // price of the pool is 1 B for 4 A; 100 B is worth 400 A
    let d = deposit_liquidity(&deposit_accounts(40000, 10000, 5000, 5000), 1000, 100).unwrap();
    assert_eq!((d.amount_a, d.amount_b), (400, 100));
    assert_eq!(d.liquidity, 200);
}

#[test]
fn deposit_without_balance_issues_nothing_and_is_refused() {
    let e = deposit_liquidity(&deposit_accounts(10000, 10000, 0, 5000), 1000, 1000).unwrap_err();
    assert_eq!(e, TutorialError::DepositTooSmall);
}

#[test]
fn deposit_matches_exact_proportion_of_uneven_reserves() {
    // reserves of 3 A to 1 B: 3 A go with exactly 1 B
    let d = deposit_liquidity(&deposit_accounts(3, 1, 1000, 1000), 3, 100).unwrap();
    assert_eq!((d.amount_a, d.amount_b), (3, 1));
    assert_eq!(d.liquidity, 1);
}

#[test]
fn deposit_worth_less_than_one_unit_is_refused() {
    // 1 A is worth a third of a B, which rounds to none
    let e = deposit_liquidity(&deposit_accounts(3, 1, 1000, 1000), 1, 100).unwrap_err();
    assert_eq!(e, TutorialError::DepositTooSmall);
}

#[test]
fn deposit_rounds_matched_leg_down() {
    // 10 * 3 / 7 = 4.28...; sqrt(10 * 4) = 6.32...
    let d = deposit_liquidity(&deposit_accounts(7, 3, 1000, 1000), 10, 100).unwrap();
    assert_eq!((d.amount_a, d.amount_b, d.liquidity), (10, 4, 6));
    let d = deposit_liquidity(&deposit_accounts(3, 7, 1000, 1000), 100, 10).unwrap();
    assert_eq!((d.amount_a, d.amount_b, d.liquidity), (4, 10, 6));
}

#[test]
fn vaults_must_hold_pool_assets() {
    let pool = create_pool(&CreatePool { amm: key(1), mint_a: key(4), mint_b: key(5) }).unwrap();
    assert!(check_vaults(&pool, &key(4), &key(5)).is_ok());
    assert_eq!(check_vaults(&pool, &key(5), &key(4)).unwrap_err(), TutorialError::InvalidMint);
    assert_eq!(check_vaults(&pool, &key(4), &key(6)).unwrap_err(), TutorialError::InvalidMint);
}

#[test]
fn deposit_too_large_for_fixed_point_overflows() {
    let big = 1u64 << 63;
    let e = deposit_liquidity(&deposit_accounts(0, 0, big, big), big, 1000).unwrap_err();
    assert_eq!(e, TutorialError::ArithmeticOverflow);
    let e = deposit_liquidity(&deposit_accounts(0, 0, 1 << 40, 1 << 40), 1 << 40, 1 << 40).unwrap_err();
    assert_eq!(e, TutorialError::ArithmeticOverflow);
}

#[test]
fn withdraw_pays_proportional_share() {
    let accounts = WithdrawLiquidity { pool_amount_a: 10000, pool_amount_b: 5000, liquidity_supply: 9900 };
    let w = withdraw_liquidity(&accounts, 990).unwrap();
    assert_eq!(w.amount_a, 990);
    assert_eq!(w.amount_b, 495);
}

#[test]
fn withdraw_rounds_down() {
    let accounts = WithdrawLiquidity { pool_amount_a: 10, pool_amount_b: 7, liquidity_supply: 200 };
    let w = withdraw_liquidity(&accounts, 100).unwrap();
    // 100 * 10 / 300 = 3.33..., 100 * 7 / 300 = 2.33...
    assert_eq!((w.amount_a, w.amount_b), (3, 2));
}

#[test]
fn withdraw_everything_stays_within_reserves() {
    let accounts = WithdrawLiquidity { pool_amount_a: 12345, pool_amount_b: 678, liquidity_supply: 4900 };
    let w = withdraw_liquidity(&accounts, 4900).unwrap();
    assert!(w.amount_a <= 12345 && w.amount_b <= 678);
    assert_eq!((w.amount_a, w.amount_b), (12098, 664));
    let all = withdraw_liquidity(&accounts, 5000).unwrap();
    assert_eq!((all.amount_a, all.amount_b), (12345, 678));
}

#[test]
fn withdraw_overflow_is_reported() {
    let accounts = WithdrawLiquidity { pool_amount_a: 1 << 40, pool_amount_b: 1, liquidity_supply: 1 << 30 };
    assert_eq!(withdraw_liquidity(&accounts, 1 << 30).unwrap_err(), TutorialError::ArithmeticOverflow);
    let full = WithdrawLiquidity { pool_amount_a: 1, pool_amount_b: 1, liquidity_supply: u64::MAX };
    assert_eq!(withdraw_liquidity(&full, 1).unwrap_err(), TutorialError::ArithmeticOverflow);
}

#[test]
fn deposit_then_withdraw_returns_no_more() {
    let d = deposit_liquidity(&deposit_accounts(0, 0, 10000, 2500), 10000, 2500).unwrap();
    let accounts = WithdrawLiquidity {
        pool_amount_a: d.amount_a,
        pool_amount_b: d.amount_b,
        liquidity_supply: d.liquidity,
    };
    let w = withdraw_liquidity(&accounts, d.liquidity).unwrap();
    assert_eq!((w.amount_a, w.amount_b), (9800, 2450));
    assert!(w.amount_a <= d.amount_a && w.amount_b <= d.amount_b);
}

#[test]
fn swap_takes_fee_and_prices_on_curve() {
    let s = swap_exact_tokens_for_tokens(&swap_accounts(30, 10000, 10000, 5000, 0), true, 1000, 906).unwrap();
    assert_eq!(s.input, 1000);
    assert_eq!(s.taxed_input, 997);
    assert_eq!(s.output, 906);
    assert_eq!(s.product_before, 100_000_000);
}

#[test]
fn swap_below_minimum_output_is_refused() {
    let e = swap_exact_tokens_for_tokens(&swap_accounts(30, 10000, 10000, 5000, 0), true, 1000, 907).unwrap_err();
    assert_eq!(e, TutorialError::OutputTooSmall);
}

#[test]
fn swap_b_for_a_uses_reverse_reserves() {
    let s = swap_exact_tokens_for_tokens(&swap_accounts(0, 1000, 4000, 0, 5000), false, 1000, 0).unwrap();
    assert!(!s.swap_a);
    assert_eq!(s.taxed_input, 1000);
    // 1000 * 1000 / (4000 + 1000)
    assert_eq!(s.output, 200);
}

#[test]
fn swap_input_is_clamped_to_balance() {
    let s = swap_exact_tokens_for_tokens(&swap_accounts(100, 10000, 10000, 500, 0), true, 1000, 0).unwrap();
    assert_eq!(s.input, 500);
    assert_eq!(s.taxed_input, 495);
    // 495 * 10000 / 10495 = 471.6...
    assert_eq!(s.output, 471);
}

#[test]
fn swap_into_empty_pool_divides_by_zero() {
    let e = swap_exact_tokens_for_tokens(&swap_accounts(30, 0, 0, 0, 0), true, 0, 0).unwrap_err();
    assert_eq!(e, TutorialError::DivisionByZero);
}

#[test]
fn swap_overflow_is_reported() {
    let e = swap_exact_tokens_for_tokens(&swap_accounts(0, 1 << 40, 1 << 40, 1 << 30, 0), true, 1 << 30, 0)
        .unwrap_err();
    assert_eq!(e, TutorialError::ArithmeticOverflow);
}

#[test]
fn swap_with_largest_fee_keeps_almost_nothing() {
    let s = swap_exact_tokens_for_tokens(&swap_accounts(9999, 10000, 10000, 10000, 0), true, 10000, 0).unwrap();
    assert_eq!(s.taxed_input, 1);
    assert_eq!(s.output, 0);
}

#[test]
fn completed_swap_keeps_product() {
    let s = swap_exact_tokens_for_tokens(&swap_accounts(30, 10000, 10000, 5000, 0), true, 1000, 0).unwrap();
    let after_a = 10000 + s.input;
    let after_b = 10000 - s.output;
    assert!(after_a as u128 * after_b as u128 >= s.product_before);
    assert!(check_product(&s, after_a, after_b).is_ok());
}

#[test]
fn lowered_product_is_refused() {
    let s = swap_exact_tokens_for_tokens(&swap_accounts(30, 10000, 10000, 5000, 0), true, 1000, 0).unwrap();
    assert_eq!(check_product(&s, 10000, 10000 - s.output).unwrap_err(), TutorialError::InvariantViolated);
    // a grows, but b shrinks too far
    assert_eq!(check_product(&s, 11000, 9000).unwrap_err(), TutorialError::InvariantViolated);
}

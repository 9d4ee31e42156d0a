//! Accounting core of a constant-product market maker: pool records, the
//! liquidity-share formulas and the fee-adjusted swap curve, over checked
//! 64.64 fixed-point arithmetic.

pub mod fixed_point;
pub mod state;
pub mod swap;
pub mod liquidity;

pub use liquidity::{
    deposit_liquidity, withdraw_liquidity, Deposit, DepositLiquidity, WithdrawLiquidity, Withdrawal,
};
pub use state::{
    check_vaults, create_amm, create_pool, Amm, CreateAmm, CreatePool, Pool, Pubkey, TutorialError,
    FEE_DENOMINATOR, MINIMUM_LIQUIDITY,
};
pub use swap::{check_product, swap_exact_tokens_for_tokens, Swap, SwapExactTokensForTokens};

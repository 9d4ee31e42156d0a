//! Market and pool records, the error kinds, and the two creation steps.

use vstd::prelude::*;

verus! {

/// Units of liquidity locked for good by the first deposit into a pool.
pub const MINIMUM_LIQUIDITY: u64 = 100;

/// Fees are counted in hundredths of a percent: this many make the whole input.
pub const FEE_DENOMINATOR: u64 = 10000;

/// The 32-byte identity of an account on the host ledger.
#[derive(Clone, Copy, Debug)]
pub struct Pubkey {
    pub bytes: [u8; 32],
}

impl Pubkey {
    /// Whether two identities are byte for byte the same.
    pub fn same_as(&self, other: &Pubkey) -> (r: bool)
        ensures
            r == (self.bytes@ == other.bytes@),
    {
        let mut i: usize = 0;
        while i < 32
            invariant
                0 <= i <= 32,
                self.bytes@.len() == 32,
                other.bytes@.len() == 32,
                forall|j: int| 0 <= j < i ==> self.bytes@[j] == other.bytes@[j],
            decreases 32 - i,
        {
            if self.bytes[i] != other.bytes[i] {
                return false;
            }
            i = i + 1;
        }
        proof {
            assert(self.bytes@ =~= other.bytes@);
        }
        true
    }
}

/// What can make an operation fail. Every kind rejects the whole operation.
#[derive(Clone, Copy, Debug, PartialEq, Eq, Structural)]
pub enum TutorialError {
    /// The fee is not below 10000 basis points.
    InvalidFee,
    /// The two assets of a pool are the same.
    InvalidMint,
    /// A first deposit would issue fewer shares than the locked minimum.
    DepositTooSmall,
    /// A swap would pay out less than the caller's lower bound.
    OutputTooSmall,
    /// The reserve product fell over a swap.
    InvariantViolated,
    /// A fixed-point step left its range.
    ArithmeticOverflow,
    /// A fixed-point step divided by zero.
    DivisionByZero,
}

/// A market: its identity, its administrator and the fee that all its pools charge.
#[derive(Clone, Copy, Debug)]
pub struct Amm {
    pub id: Pubkey,
    pub admin: Pubkey,
    pub fee: u16,
}

impl Amm {
    /// The fee takes less than the whole input.
    pub open spec fn wf(self) -> bool {
        self.fee < FEE_DENOMINATOR
    }
}

/// A pool: the market it belongs to and its two assets.
#[derive(Clone, Copy, Debug)]
pub struct Pool {
    pub amm: Pubkey,
    pub mint_a: Pubkey,
    pub mint_b: Pubkey,
}

impl Pool {
    /// The two assets differ.
    pub open spec fn wf(self) -> bool {
        self.mint_a.bytes@ != self.mint_b.bytes@
    }
}

/// What creating a market reads besides its parameters.
#[derive(Clone, Copy, Debug)]
pub struct CreateAmm {
    /// The account that administers the market.
    pub admin: Pubkey,
}

/// What creating a pool reads.
#[derive(Clone, Copy, Debug)]
pub struct CreatePool {
    /// The identity of the market's record.
    pub amm: Pubkey,
    pub mint_a: Pubkey,
    pub mint_b: Pubkey,
}

/// Creates a market record, refusing a fee of 10000 basis points or more.
pub fn create_amm(accounts: &CreateAmm, id: Pubkey, fee: u16) -> (r: Result<Amm, TutorialError>)
    ensures
        fee >= FEE_DENOMINATOR <==> r == Err::<Amm, TutorialError>(TutorialError::InvalidFee),
        fee < FEE_DENOMINATOR <==> r is Ok,
        r is Ok ==> r->Ok_0.wf() && r->Ok_0.id == id && r->Ok_0.admin == accounts.admin
            && r->Ok_0.fee == fee,
{
    if fee as u64 >= FEE_DENOMINATOR {
        return Err(TutorialError::InvalidFee);
    }
    Ok(Amm { id, admin: accounts.admin, fee })
}

/// Creates a pool record for two distinct assets of a market.
pub fn create_pool(accounts: &CreatePool) -> (r: Result<Pool, TutorialError>)
    ensures
        accounts.mint_a.bytes@ == accounts.mint_b.bytes@ <==> r == Err::<Pool, TutorialError>(
            TutorialError::InvalidMint,
        ),
        accounts.mint_a.bytes@ != accounts.mint_b.bytes@ <==> r is Ok,
        r is Ok ==> r->Ok_0.wf() && r->Ok_0.amm == accounts.amm && r->Ok_0.mint_a
            == accounts.mint_a && r->Ok_0.mint_b == accounts.mint_b,
{
    if accounts.mint_a.same_as(&accounts.mint_b) {
        return Err(TutorialError::InvalidMint);
    }
    Ok(Pool { amm: accounts.amm, mint_a: accounts.mint_a, mint_b: accounts.mint_b })
}

/// Checks that the two vaults handed to an operation hold the pool's own
/// assets, A in the first and B in the second, before any formula runs.
pub fn check_vaults(pool: &Pool, vault_a_mint: &Pubkey, vault_b_mint: &Pubkey) -> (r: Result<
    (),
    TutorialError,
>)
    ensures
        r is Ok <==> vault_a_mint.bytes@ == pool.mint_a.bytes@ && vault_b_mint.bytes@
            == pool.mint_b.bytes@,
        r is Err ==> r == Err::<(), TutorialError>(TutorialError::InvalidMint),
{
    if !vault_a_mint.same_as(&pool.mint_a) || !vault_b_mint.same_as(&pool.mint_b) {
        return Err(TutorialError::InvalidMint);
    }
    Ok(())
}

} // verus!

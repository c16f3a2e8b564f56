use vstd::prelude::*;

use crate::ledger::{
    stake_outcome, staked_in, unstake_outcome, ErrorCode, Stake, Unstake, UserState,
    UNSTAKE_THRESHOLD,
};

verus! {

/// Sum of a sequence of amounts.
pub open spec fn amounts_sum(amounts: Seq<u64>) -> int
    decreases amounts.len(),
{
    if amounts.len() == 0 {
        0
    } else {
        amounts_sum(amounts.drop_last()) + amounts.last()
    }
}

/// The accounts after staking each of `amounts` in turn, or the first error.
pub open spec fn stake_each(ctx: Stake, amounts: Seq<u64>) -> Result<Stake, ErrorCode>
    decreases amounts.len(),
{
    if amounts.len() == 0 {
        Ok(ctx)
    } else {
        match stake_each(ctx, amounts.drop_last()) {
            Ok(c) => stake_outcome(c, amounts.last()),
            Err(e) => Err(e),
        }
    }
}

/// Stakes accumulate: after any run of stakes by one user with no unstake in
/// between, the balance is the starting balance plus the sum of the amounts,
/// and exactly that sum has moved from the user's account into the vault.
/// The run succeeds whenever the final balance fits in a `u64`, the user's
/// account holds the sum and the vault has room for it.
pub proof fn lemma_stakes_accumulate(ctx: Stake, amounts: Seq<u64>)
    ensures
        amounts_sum(amounts) >= 0,
        stake_each(ctx, amounts) is Ok ==> {
            let next = stake_each(ctx, amounts)->Ok_0;
            &&& amounts.len() > 0 ==> next.user_state is Some
            &&& staked_in(next.user_state) == staked_in(ctx.user_state) + amounts_sum(amounts)
            &&& next.user_lamports == ctx.user_lamports - amounts_sum(amounts)
            &&& next.staking_pool_vault == ctx.staking_pool_vault + amounts_sum(amounts)
        },
        staked_in(ctx.user_state) + amounts_sum(amounts) <= u64::MAX
            && amounts_sum(amounts) <= ctx.user_lamports
            && ctx.staking_pool_vault + amounts_sum(amounts) <= u64::MAX
            ==> stake_each(ctx, amounts) is Ok,
    decreases amounts.len(),
{
    if amounts.len() > 0 {
        lemma_stakes_accumulate(ctx, amounts.drop_last());
    }
}

/// Unstaking a zero balance fails with `NoStakedAmount` and moves nothing.
pub proof fn lemma_unstake_zero_balance(ctx: Unstake)
    requires
        ctx.user_state == Some(UserState { amount_staked: 0 }),
    ensures
        unstake_outcome(ctx) == Err::<(Unstake, u64), ErrorCode>(ErrorCode::NoStakedAmount),
{
}

/// Unstaking a positive balance below the threshold fails with
/// `NotEnoughStaked`, and the balance stays as it was.
pub proof fn lemma_unstake_below_threshold(ctx: Unstake)
    requires
        ctx.user_state is Some,
        0 < staked_in(ctx.user_state) < UNSTAKE_THRESHOLD,
    ensures
        unstake_outcome(ctx) == Err::<(Unstake, u64), ErrorCode>(ErrorCode::NotEnoughStaked),
{
}

/// Unstaking a balance at or above the threshold, from a vault that holds it,
/// moves exactly that balance from the vault to the user and resets the
/// balance to zero; a second unstake right after fails with `NoStakedAmount`.
pub proof fn lemma_unstake_withdraws_all(ctx: Unstake)
    requires
        ctx.user_state is Some,
        staked_in(ctx.user_state) >= UNSTAKE_THRESHOLD,
        ctx.staking_pool_vault >= staked_in(ctx.user_state),
        ctx.user_lamports + staked_in(ctx.user_state) <= u64::MAX,
    ensures
        unstake_outcome(ctx) is Ok,
        ({
            let (next, amount) = unstake_outcome(ctx)->Ok_0;
            &&& amount == staked_in(ctx.user_state)
            &&& next.user_state == Some(UserState { amount_staked: 0 })
            &&& next.staking_pool_vault == ctx.staking_pool_vault - amount
            &&& next.user_lamports == ctx.user_lamports + amount
            &&& unstake_outcome(next) == Err::<(Unstake, u64), ErrorCode>(
                ErrorCode::NoStakedAmount,
            )
        }),
{
}

} // verus!

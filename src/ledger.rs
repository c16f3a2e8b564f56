use vstd::prelude::*;

verus! {

/// Smallest balance that may be withdrawn.
pub const UNSTAKE_THRESHOLD: u64 = 5_000_000_000;

/// Why a stake or an unstake was refused.
#[derive(Clone, Copy, Debug, PartialEq, Eq, Structural)]
pub enum ErrorCode {
    /// The caller has no balance record.
    NoRecord,
    /// The caller's balance record holds zero.
    NoStakedAmount,
    /// The caller's balance is positive but below the withdrawal threshold.
    NotEnoughStaked,
    /// The new balance would not fit in a `u64`.
    Overflow,
    /// The value transfer cannot be made: the source lacks the value, or the
    /// destination's balance would not fit in a `u64`.
    TransferRejected,
}

/// A user's balance record.
#[derive(Clone, Copy, Debug, PartialEq, Eq, Structural)]
pub struct UserState {
    pub amount_staked: u64,
}

/// The accounts that a stake touches.
#[derive(Clone, Copy, Debug, PartialEq, Eq, Structural)]
pub struct Stake {
    /// Value held by the depositor's own account.
    pub user_lamports: u64,
    /// The depositor's balance record, `None` before the first stake.
    pub user_state: Option<UserState>,
    /// Value held by the pooled vault.
    pub staking_pool_vault: u64,
}

/// The accounts that an unstake touches.
#[derive(Clone, Copy, Debug, PartialEq, Eq, Structural)]
pub struct Unstake {
    /// Value held by the caller's own account.
    pub user_lamports: u64,
    /// The caller's balance record, `None` when the caller never staked.
    pub user_state: Option<UserState>,
    /// Value held by the pooled vault.
    pub staking_pool_vault: u64,
}

/// Balance recorded in an optional record; an absent record counts as zero.
pub open spec fn staked_in(s: Option<UserState>) -> u64 {
    match s {
        Some(u) => u.amount_staked,
        None => 0,
    }
}

/// What a stake of `amount` does to `ctx`: the accounts afterwards, or the
/// error, in which case nothing changes.
pub open spec fn stake_outcome(ctx: Stake, amount: u64) -> Result<Stake, ErrorCode> {
    let staked = staked_in(ctx.user_state);
    if staked + amount > u64::MAX {
        Err(ErrorCode::Overflow)
    } else if ctx.user_lamports < amount || ctx.staking_pool_vault + amount > u64::MAX {
        Err(ErrorCode::TransferRejected)
    } else {
        Ok(
            Stake {
                user_lamports: (ctx.user_lamports - amount) as u64,
                user_state: Some(UserState { amount_staked: (staked + amount) as u64 }),
                staking_pool_vault: (ctx.staking_pool_vault + amount) as u64,
            },
        )
    }
}

/// What an unstake does to `ctx`: the accounts afterwards and the amount
/// withdrawn, or the error, in which case nothing changes.
pub open spec fn unstake_outcome(ctx: Unstake) -> Result<(Unstake, u64), ErrorCode> {
    match ctx.user_state {
        None => Err(ErrorCode::NoRecord),
        Some(u) => {
            let amount = u.amount_staked;
            if amount == 0 {
                Err(ErrorCode::NoStakedAmount)
            } else if amount < UNSTAKE_THRESHOLD {
                Err(ErrorCode::NotEnoughStaked)
            } else if ctx.staking_pool_vault < amount || ctx.user_lamports + amount > u64::MAX {
                Err(ErrorCode::TransferRejected)
            } else {
                Ok(
                    (
                        Unstake {
                            user_lamports: (ctx.user_lamports + amount) as u64,
                            user_state: Some(UserState { amount_staked: 0 }),
                            staking_pool_vault: (ctx.staking_pool_vault - amount) as u64,
                        },
                        amount,
                    ),
                )
            }
        },
    }
}

/// Deposits `amount` from the user's account into the vault and adds it to
/// the user's balance record, creating the record at zero if it is absent.
/// Returns the new balance. Every check comes before any change: on an error
/// the accounts are left as they were.
pub fn stake(ctx: &mut Stake, amount: u64) -> (r: Result<u64, ErrorCode>)
    ensures
        match stake_outcome(*old(ctx), amount) {
            Ok(next) => *final(ctx) == next && r == Ok::<u64, ErrorCode>(
                staked_in(next.user_state),
            ),
            Err(e) => *final(ctx) == *old(ctx) && r == Err::<u64, ErrorCode>(e),
        },
{
    let staked: u64 = match ctx.user_state {
        Some(u) => u.amount_staked,
        None => 0,
    };
    let new_staked = match staked.checked_add(amount) {
        Some(v) => v,
        None => {
            return Err(ErrorCode::Overflow);
        },
    };
    if ctx.user_lamports < amount {
        return Err(ErrorCode::TransferRejected);
    }
    let new_vault = match ctx.staking_pool_vault.checked_add(amount) {
        Some(v) => v,
        None => {
            return Err(ErrorCode::TransferRejected);
        },
    };
    ctx.user_lamports = ctx.user_lamports - amount;
    ctx.staking_pool_vault = new_vault;
    ctx.user_state = Some(UserState { amount_staked: new_staked });
    Ok(new_staked)
}

/// Withdraws the caller's whole balance from the vault back to the caller and
/// resets the balance record to zero. Returns the amount withdrawn. The checks
/// come in order (record, nonzero, threshold, transfer) and all precede any
/// change: on an error the accounts are left as they were. A caller who never
/// staked has no record and gets `NoRecord`; a record that holds zero gives
/// `NoStakedAmount`.
pub fn unstake(ctx: &mut Unstake) -> (r: Result<u64, ErrorCode>)
    ensures
        match unstake_outcome(*old(ctx)) {
            Ok((next, amount)) => *final(ctx) == next && r == Ok::<u64, ErrorCode>(amount),
            Err(e) => *final(ctx) == *old(ctx) && r == Err::<u64, ErrorCode>(e),
        },
{
    let amount: u64 = match ctx.user_state {
        Some(u) => u.amount_staked,
        None => {
            return Err(ErrorCode::NoRecord);
        },
    };
    if amount == 0 {
        return Err(ErrorCode::NoStakedAmount);
    }
    if amount < UNSTAKE_THRESHOLD {
        return Err(ErrorCode::NotEnoughStaked);
    }
    if ctx.staking_pool_vault < amount {
        return Err(ErrorCode::TransferRejected);
    }
    let new_user = match ctx.user_lamports.checked_add(amount) {
        Some(v) => v,
        None => {
            return Err(ErrorCode::TransferRejected);
        },
    };
    ctx.staking_pool_vault = ctx.staking_pool_vault - amount;
    ctx.user_lamports = new_user;
    ctx.user_state = Some(UserState { amount_staked: 0 });
    Ok(amount)
}

} // verus!

use stake_program::{
    stake, unstake, ErrorCode, Pool, Stake, Unstake, UserState, UNSTAKE_THRESHOLD,
};

const ALICE: [u8; 32] = [1u8; 32];
const BOB: [u8; 32] = [2u8; 32];

fn new_stake(wallet: u64, record: Option<u64>, vault: u64) -> Stake {
    Stake {
        user_lamports: wallet,
        user_state: record.map(|a| UserState { amount_staked: a }),
        staking_pool_vault: vault,
    }
}

fn new_unstake(wallet: u64, record: Option<u64>, vault: u64) -> Unstake {
    Unstake {
        user_lamports: wallet,
        user_state: record.map(|a| UserState { amount_staked: a }),
        staking_pool_vault: vault,
    }
}

#[test]
fn first_stake_creates_record() {
    let mut ctx = new_stake(10, None, 0);
    assert_eq!(stake(&mut ctx, 4), Ok(4));
    assert_eq!(ctx, new_stake(6, Some(4), 4));
}

#[test]
fn stakes_accumulate() {
    let mut ctx = new_stake(100, None, 7);
    let amounts = [5u64, 0, 12, 30];
    let mut total = 0u64;
    for a in amounts {
        total += a;
        assert_eq!(stake(&mut ctx, a), Ok(total));
    }
    assert_eq!(ctx, new_stake(100 - 47, Some(47), 7 + 47));
}

#[test]
fn two_stakes_then_unstake() {
    let mut pool = Pool::new();
    let mut wallet: u64 = 10_000_000_000;
    assert_eq!(pool.stake(ALICE, &mut wallet, 3_000_000_000), Ok(3_000_000_000));
    assert_eq!(pool.stake(ALICE, &mut wallet, 3_000_000_000), Ok(6_000_000_000));
    assert_eq!(pool.vault(), 6_000_000_000);
    assert_eq!(wallet, 4_000_000_000);
    assert_eq!(pool.unstake(ALICE, &mut wallet), Ok(6_000_000_000));
    assert_eq!(pool.balance_of(&ALICE), Some(0));
    assert_eq!(pool.vault(), 0);
    assert_eq!(wallet, 10_000_000_000);
}

#[test]
fn below_threshold_is_locked() {
    let mut pool = Pool::new();
    let mut wallet: u64 = 2_000_000_000;
    assert_eq!(pool.stake(ALICE, &mut wallet, 1_000_000_000), Ok(1_000_000_000));
    assert_eq!(pool.unstake(ALICE, &mut wallet), Err(ErrorCode::NotEnoughStaked));
    assert_eq!(pool.balance_of(&ALICE), Some(1_000_000_000));
    assert_eq!(pool.vault(), 1_000_000_000);
    assert_eq!(wallet, 1_000_000_000);
}

#[test]
fn pool_unstake_without_record() {
    let mut pool = Pool::new();
    let mut wallet: u64 = 5;
    assert_eq!(pool.unstake(BOB, &mut wallet), Err(ErrorCode::NoRecord));
    assert_eq!(pool.balance_of(&BOB), None);
    assert_eq!(wallet, 5);
}

#[test]
fn stake_overflow_keeps_balance() {
    let mut ctx = new_stake(u64::MAX, Some(u64::MAX - 1), 0);
    assert_eq!(stake(&mut ctx, 2), Err(ErrorCode::Overflow));
    assert_eq!(ctx, new_stake(u64::MAX, Some(u64::MAX - 1), 0));
}

#[test]
fn pool_stake_overflow_leaves_pool_unchanged() {
    let mut pool = Pool::new();
    let mut wallet: u64 = u64::MAX;
    assert_eq!(pool.stake(ALICE, &mut wallet, u64::MAX), Ok(u64::MAX));
    let mut other: u64 = 1;
    assert_eq!(pool.stake(ALICE, &mut other, 1), Err(ErrorCode::Overflow));
    assert_eq!(pool.balance_of(&ALICE), Some(u64::MAX));
    assert_eq!(other, 1);
}

#[test]
fn unstake_zero_balance() {
    let mut ctx = new_unstake(3, Some(0), 9);
    assert_eq!(unstake(&mut ctx), Err(ErrorCode::NoStakedAmount));
    assert_eq!(ctx, new_unstake(3, Some(0), 9));
}

#[test]
fn unstake_twice_gives_no_staked_amount() {
    let mut ctx = new_unstake(0, Some(UNSTAKE_THRESHOLD), UNSTAKE_THRESHOLD + 1);
    assert_eq!(unstake(&mut ctx), Ok(UNSTAKE_THRESHOLD));
    assert_eq!(ctx, new_unstake(UNSTAKE_THRESHOLD, Some(0), 1));
    assert_eq!(unstake(&mut ctx), Err(ErrorCode::NoStakedAmount));
}

#[test]
fn unstake_just_below_threshold() {
    let mut ctx = new_unstake(0, Some(UNSTAKE_THRESHOLD - 1), UNSTAKE_THRESHOLD);
    assert_eq!(unstake(&mut ctx), Err(ErrorCode::NotEnoughStaked));
    assert_eq!(ctx, new_unstake(0, Some(UNSTAKE_THRESHOLD - 1), UNSTAKE_THRESHOLD));
}

#[test]
fn threshold_value() {
    assert_eq!(UNSTAKE_THRESHOLD, 5_000_000_000);
}

#[test]
fn unstake_no_record() {
    let mut ctx = new_unstake(0, None, 100);
    assert_eq!(unstake(&mut ctx), Err(ErrorCode::NoRecord));
}

#[test]
fn stake_without_funds_is_rejected() {
    let mut ctx = new_stake(3, Some(1), 1);
    assert_eq!(stake(&mut ctx, 4), Err(ErrorCode::TransferRejected));
    assert_eq!(ctx, new_stake(3, Some(1), 1));
}

#[test]
fn unstake_from_short_vault_is_rejected() {
    let mut ctx = new_unstake(0, Some(UNSTAKE_THRESHOLD), UNSTAKE_THRESHOLD - 1);
    assert_eq!(unstake(&mut ctx), Err(ErrorCode::TransferRejected));
    assert_eq!(ctx, new_unstake(0, Some(UNSTAKE_THRESHOLD), UNSTAKE_THRESHOLD - 1));
}

#[test]
fn vault_equals_sum_of_balances() {
    let mut pool = Pool::new();
    let mut a: u64 = 20_000_000_000;
    let mut b: u64 = 20_000_000_000;
    assert_eq!(pool.stake(ALICE, &mut a, 6_000_000_000), Ok(6_000_000_000));
    assert_eq!(pool.stake(BOB, &mut b, 2_000_000_000), Ok(2_000_000_000));
    assert_eq!(pool.vault(), 8_000_000_000);
    assert_eq!(pool.unstake(BOB, &mut b), Err(ErrorCode::NotEnoughStaked));
    assert_eq!(pool.unstake(ALICE, &mut a), Ok(6_000_000_000));
    assert_eq!(pool.balance_of(&ALICE), Some(0));
    assert_eq!(pool.balance_of(&BOB), Some(2_000_000_000));
    assert_eq!(pool.vault(), 2_000_000_000);
    assert_eq!(a + b + pool.vault(), 40_000_000_000);
}

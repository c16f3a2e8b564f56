//! A custodial staking ledger: users deposit value into a pooled vault and
//! later withdraw all of it, once their balance reaches a fixed threshold.
//!
//! Every operation is a checked, all-or-nothing state transition over plain
//! account values; the host that runs the program performs the actual value
//! transfers that these transitions prescribe.

pub mod laws;
pub mod ledger;
pub mod pool;

pub use ledger::{
    stake, stake_outcome, unstake, unstake_outcome, ErrorCode, Stake, Unstake, UserState,
    UNSTAKE_THRESHOLD,
};
pub use pool::{Pool, UserRecord};

use vstd::prelude::*;

use crate::ledger::{
    stake, stake_outcome, staked_in, unstake, unstake_outcome, ErrorCode, Stake, Unstake,
    UserState, UNSTAKE_THRESHOLD,
};

verus! {

broadcast use vstd::array::group_array_axioms;

/// A balance record together with the identity of the user who owns it.
#[derive(Clone, Copy, Debug)]
pub struct UserRecord {
    pub owner: [u8; 32],
    pub state: UserState,
}

/// The staking pool: the vault's value and one balance record per user who
/// ever staked. A record, once made, is never removed.
pub struct Pool {
    staking_pool_vault: u64,
    records: Vec<UserRecord>,
}

/// Sum of the balances held in `s`.
pub open spec fn records_sum(s: Seq<UserRecord>) -> int
    decreases s.len(),
{
    if s.len() == 0 {
        0
    } else {
        records_sum(s.drop_last()) + s.last().state.amount_staked
    }
}

/// No two records of `s` share an owner.
pub open spec fn owners_unique(s: Seq<UserRecord>) -> bool {
    forall|i: int, j: int|
        0 <= i < s.len() && 0 <= j < s.len() && i != j ==> s[i].owner != s[j].owner
}

/// The record of `owner` in `s`, if there is one.
pub open spec fn record_in(s: Seq<UserRecord>, owner: [u8; 32]) -> Option<UserState> {
    if exists|i: int| 0 <= i < s.len() && s[i].owner == owner {
        let i = choose|i: int| 0 <= i < s.len() && s[i].owner == owner;
        Some(s[i].state)
    } else {
        None
    }
}

proof fn lemma_sum_update(s: Seq<UserRecord>, i: int, r: UserRecord)
    requires
        0 <= i < s.len(),
    ensures
        records_sum(s.update(i, r)) == records_sum(s) - s[i].state.amount_staked
            + r.state.amount_staked,
    decreases s.len(),
{
    if i == s.len() - 1 {
        assert(s.update(i, r).drop_last() =~= s.drop_last());
    } else {
        assert(s.update(i, r).drop_last() =~= s.drop_last().update(i, r));
        lemma_sum_update(s.drop_last(), i, r);
    }
}

proof fn lemma_sum_push(s: Seq<UserRecord>, r: UserRecord)
    ensures
        records_sum(s.push(r)) == records_sum(s) + r.state.amount_staked,
{
    assert(s.push(r).drop_last() =~= s);
}

proof fn lemma_record_within_sum(s: Seq<UserRecord>, i: int)
    requires
        0 <= i < s.len(),
    ensures
        0 <= s[i].state.amount_staked <= records_sum(s),
    decreases s.len(),
{
    lemma_sum_nonnegative(s.drop_last());
    if i < s.len() - 1 {
        lemma_record_within_sum(s.drop_last(), i);
    }
}

proof fn lemma_sum_nonnegative(s: Seq<UserRecord>)
    ensures
        records_sum(s) >= 0,
    decreases s.len(),
{
    if s.len() > 0 {
        lemma_sum_nonnegative(s.drop_last());
    }
}

proof fn lemma_record_at(s: Seq<UserRecord>, i: int)
    requires
        owners_unique(s),
        0 <= i < s.len(),
    ensures
        record_in(s, s[i].owner) == Some(s[i].state),
{
    assert(0 <= i < s.len() && s[i].owner == s[i].owner);
}

proof fn lemma_record_update(s: Seq<UserRecord>, i: int, r: UserRecord)
    requires
        owners_unique(s),
        0 <= i < s.len(),
        r.owner == s[i].owner,
    ensures
        owners_unique(s.update(i, r)),
        forall|o: [u8; 32]|
            #[trigger] record_in(s.update(i, r), o) == if o == r.owner {
                Some(r.state)
            } else {
                record_in(s, o)
            },
{
    let t = s.update(i, r);
    assert(owners_unique(t));
    assert forall|o: [u8; 32]|
        #[trigger] record_in(t, o) == if o == r.owner {
            Some(r.state)
        } else {
            record_in(s, o)
        } by {
        if o == r.owner {
            lemma_record_at(t, i);
        } else if exists|j: int| 0 <= j < s.len() && s[j].owner == o {
            let j = choose|j: int| 0 <= j < s.len() && s[j].owner == o;
            lemma_record_at(s, j);
            assert(t[j] == s[j]);
            lemma_record_at(t, j);
        } else {
            assert forall|j: int| 0 <= j < t.len() implies t[j].owner != o by {
                if j != i {
                    assert(t[j] == s[j]);
                }
            }
        }
    }
}

proof fn lemma_record_push(s: Seq<UserRecord>, r: UserRecord)
    requires
        owners_unique(s),
        forall|i: int| 0 <= i < s.len() ==> s[i].owner != r.owner,
    ensures
        owners_unique(s.push(r)),
        forall|o: [u8; 32]|
            #[trigger] record_in(s.push(r), o) == if o == r.owner {
                Some(r.state)
            } else {
                record_in(s, o)
            },
{
    let t = s.push(r);
    assert(owners_unique(t));
    assert forall|o: [u8; 32]|
        #[trigger] record_in(t, o) == if o == r.owner {
            Some(r.state)
        } else {
            record_in(s, o)
        } by {
        if o == r.owner {
            lemma_record_at(t, s.len() as int);
        } else if exists|j: int| 0 <= j < s.len() && s[j].owner == o {
            let j = choose|j: int| 0 <= j < s.len() && s[j].owner == o;
            lemma_record_at(s, j);
            assert(t[j] == s[j]);
            lemma_record_at(t, j);
        } else {
            assert forall|j: int| 0 <= j < t.len() implies t[j].owner != o by {
                if j < s.len() {
                    assert(t[j] == s[j]);
                }
            }
        }
    }
}

/// In a well-formed pool the vault holds at least each user's balance, so
/// the transfer out of the vault that an unstake makes never lacks value.
pub proof fn lemma_vault_covers_balance(pool: &Pool, owner: [u8; 32])
    requires
        pool.wf(),
    ensures
        staked_in(pool.record_of(owner)) <= pool.vault_value(),
{
    let s = pool.records();
    if exists|i: int| 0 <= i < s.len() && s[i].owner == owner {
        let i = choose|i: int| 0 <= i < s.len() && s[i].owner == owner;
        lemma_record_within_sum(s, i);
    }
}

/// In a well-formed pool an unstake of a balance at or above the threshold
/// succeeds whenever the user's own account has room for it, and withdraws
/// exactly that balance.
pub proof fn lemma_pool_unstake_succeeds(pool: &Pool, owner: [u8; 32], wallet: u64)
    requires
        pool.wf(),
        pool.record_of(owner) is Some,
        staked_in(pool.record_of(owner)) >= UNSTAKE_THRESHOLD,
        wallet + staked_in(pool.record_of(owner)) <= u64::MAX,
    ensures
        unstake_outcome(pool.unstake_accounts(owner, wallet)) is Ok,
        unstake_outcome(pool.unstake_accounts(owner, wallet))->Ok_0.1 == staked_in(
            pool.record_of(owner),
        ),
{
    lemma_vault_covers_balance(pool, owner);
}

/// Whether two identities are the same.
fn same_owner(a: &[u8; 32], b: &[u8; 32]) -> (r: bool)
    ensures
        r == (*a == *b),
{
    let mut i: usize = 0;
    while i < 32
        invariant
            0 <= i <= 32,
            forall|j: int| 0 <= j < i ==> a[j] == b[j],
        decreases 32 - i,
    {
        if a[i] != b[i] {
            return false;
        }
        i = i + 1;
    }
    assert(*a =~= *b);
    true
}

impl Pool {
    /// Value held by the vault.
    pub closed spec fn vault_value(&self) -> u64 {
        self.staking_pool_vault
    }

    /// The balance records, in the order in which they were made.
    pub closed spec fn records(&self) -> Seq<UserRecord> {
        self.records@
    }

    /// Owners are unique, and the vault holds exactly the sum of all balances.
    pub open spec fn wf(&self) -> bool {
        &&& owners_unique(self.records())
        &&& self.vault_value() == records_sum(self.records())
    }

    /// The balance record of `owner`, if there is one.
    pub open spec fn record_of(&self, owner: [u8; 32]) -> Option<UserState> {
        record_in(self.records(), owner)
    }

    /// The accounts that a stake by `owner` from an account holding `wallet` touches.
    pub open spec fn stake_accounts(&self, owner: [u8; 32], wallet: u64) -> Stake {
        Stake {
            user_lamports: wallet,
            user_state: self.record_of(owner),
            staking_pool_vault: self.vault_value(),
        }
    }

    /// The accounts that an unstake by `owner` into an account holding `wallet` touches.
    pub open spec fn unstake_accounts(&self, owner: [u8; 32], wallet: u64) -> Unstake {
        Unstake {
            user_lamports: wallet,
            user_state: self.record_of(owner),
            staking_pool_vault: self.vault_value(),
        }
    }

    /// An empty pool: no records, nothing in the vault.
    pub fn new() -> (p: Pool)
        ensures
            p.wf(),
            p.vault_value() == 0,
            p.records() == Seq::<UserRecord>::empty(),
    {
        let p = Pool { staking_pool_vault: 0, records: Vec::new() };
        assert(p.records() =~= Seq::<UserRecord>::empty());
        p
    }

    /// Value held by the vault.
    pub fn vault(&self) -> (r: u64)
        ensures
            r == self.vault_value(),
    {
        self.staking_pool_vault
    }

    /// The balance of `owner`, or `None` when `owner` has no record.
    pub fn balance_of(&self, owner: &[u8; 32]) -> (r: Option<u64>)
        requires
            self.wf(),
        ensures
            r == match self.record_of(*owner) {
                Some(u) => Some(u.amount_staked),
                None => None::<u64>,
            },
    {
        match self.find(owner) {
            Some(i) => {
                proof {
                    lemma_record_at(self.records(), i as int);
                }
                Some(self.records[i].state.amount_staked)
            },
            None => None,
        }
    }

    /// Position of the record of `owner`.
    fn find(&self, owner: &[u8; 32]) -> (r: Option<usize>)
        ensures
            match r {
                Some(i) => i < self.records().len() && self.records()[i as int].owner == *owner,
                None => forall|i: int|
                    0 <= i < self.records().len() ==> self.records()[i].owner != *owner,
            },
    {
        let mut i: usize = 0;
        while i < self.records.len()
            invariant
                0 <= i <= self.records@.len(),
                forall|j: int| 0 <= j < i ==> self.records@[j].owner != *owner,
            decreases self.records@.len() - i,
        {
            if same_owner(&self.records[i].owner, owner) {
                return Some(i);
            }
            i = i + 1;
        }
        None
    }

    /// Stakes `amount` for `owner`, paid from `wallet`, the value held by the
    /// owner's own account. Returns the owner's new balance. On an error
    /// neither the pool nor the wallet changes.
    pub fn stake(&mut self, owner: [u8; 32], wallet: &mut u64, amount: u64) -> (r: Result<
        u64,
        ErrorCode,
    >)
        requires
            old(self).wf(),
        ensures
            final(self).wf(),
            match stake_outcome(old(self).stake_accounts(owner, *old(wallet)), amount) {
                Ok(next) => {
                    &&& r == Ok::<u64, ErrorCode>(staked_in(next.user_state))
                    &&& *final(wallet) == next.user_lamports
                    &&& final(self).stake_accounts(owner, *final(wallet)) == next
                    &&& forall|o: [u8; 32]|
                        o != owner ==> #[trigger] final(self).record_of(o) == old(self).record_of(
                            o,
                        )
                },
                Err(e) => {
                    &&& r == Err::<u64, ErrorCode>(e)
                    &&& *final(wallet) == *old(wallet)
                    &&& *final(self) == *old(self)
                },
            },
    {
        let idx = self.find(&owner);
        let current = match idx {
            Some(i) => {
                proof {
                    lemma_record_at(self.records(), i as int);
                }
                Some(self.records[i].state)
            },
            None => None,
        };
        let mut ctx = Stake {
            user_lamports: *wallet,
            user_state: current,
            staking_pool_vault: self.staking_pool_vault,
        };
        assert(ctx == self.stake_accounts(owner, *wallet));
        match stake(&mut ctx, amount) {
            Ok(v) => {
                let rec = UserRecord { owner, state: UserState { amount_staked: v } };
                proof {
                    match idx {
                        Some(i) => {
                            lemma_sum_update(self.records(), i as int, rec);
                            lemma_record_update(self.records(), i as int, rec);
                        },
                        None => {
                            lemma_sum_push(self.records(), rec);
                            lemma_record_push(self.records(), rec);
                        },
                    }
                }
                match idx {
                    Some(i) => {
                        self.records.set(i, rec);
                    },
                    None => {
                        self.records.push(rec);
                    },
                }
                self.staking_pool_vault = ctx.staking_pool_vault;
                *wallet = ctx.user_lamports;
                Ok(v)
            },
            Err(e) => Err(e),
        }
    }

    /// Withdraws the whole balance of `owner` into `wallet`, the value held by
    /// the owner's own account, and resets the balance to zero. Returns the
    /// amount withdrawn. On an error neither the pool nor the wallet changes.
    pub fn unstake(&mut self, owner: [u8; 32], wallet: &mut u64) -> (r: Result<u64, ErrorCode>)
        requires
            old(self).wf(),
        ensures
            final(self).wf(),
            match unstake_outcome(old(self).unstake_accounts(owner, *old(wallet))) {
                Ok((next, amount)) => {
                    &&& r == Ok::<u64, ErrorCode>(amount)
                    &&& *final(wallet) == next.user_lamports
                    &&& final(self).unstake_accounts(owner, *final(wallet)) == next
                    &&& forall|o: [u8; 32]|
                        o != owner ==> #[trigger] final(self).record_of(o) == old(self).record_of(
                            o,
                        )
                },
                Err(e) => {
                    &&& r == Err::<u64, ErrorCode>(e)
                    &&& *final(wallet) == *old(wallet)
                    &&& *final(self) == *old(self)
                },
            },
    {
        let idx = self.find(&owner);
        let current = match idx {
            Some(i) => {
                proof {
                    lemma_record_at(self.records(), i as int);
                }
                Some(self.records[i].state)
            },
            None => None,
        };
        let mut ctx = Unstake {
            user_lamports: *wallet,
            user_state: current,
            staking_pool_vault: self.staking_pool_vault,
        };
        assert(ctx == self.unstake_accounts(owner, *wallet));
        match unstake(&mut ctx) {
            Ok(amount) => {
                let i = match idx {
                    Some(i) => i,
                    None => {
                        return Err(ErrorCode::NoRecord);
                    },
                };
                let rec = UserRecord { owner, state: UserState { amount_staked: 0 } };
                proof {
                    lemma_sum_update(self.records(), i as int, rec);
                    lemma_record_update(self.records(), i as int, rec);
                }
                self.records.set(i, rec);
                self.staking_pool_vault = ctx.staking_pool_vault;
                *wallet = ctx.user_lamports;
                Ok(amount)
            },
            Err(e) => Err(e),
        }
    }
}

} // verus!

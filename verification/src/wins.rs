//! The last-win records: for each well-known pool, the epoch in which each
//! account last won a reward from it.

use crate::model::WinsView;
use crate::reward_pool::RewardPool;
use vstd::hash_map::StringHashMap;
use vstd::prelude::*;

verus! {

/// The last wins of the four well-known pools.
pub struct WinRecords {
    treasury: StringHashMap<u64>,
    jurors: StringHashMap<u64>,
    creators: StringHashMap<u64>,
    operators: StringHashMap<u64>,
}

impl View for WinRecords {
    type V = WinsView;

    closed spec fn view(&self) -> WinsView {
        WinsView {
            treasury: self.treasury@,
            jurors: self.jurors@,
            creators: self.creators@,
            operators: self.operators@,
        }
    }
}

impl WinRecords {
    /// Records in which no account has won anything.
    pub fn new() -> (records: Self)
        ensures
            records@ == WinsView::none(),
    {
        WinRecords {
            treasury: StringHashMap::new(),
            jurors: StringHashMap::new(),
            creators: StringHashMap::new(),
            operators: StringHashMap::new(),
        }
    }

    /// The epoch of the last win of `account` in `pool`, if it ever won there.
    pub fn last_win(&self, pool: RewardPool, account: &str) -> (epoch: Option<u64>)
        ensures
            epoch == if self@.of(pool).contains_key(account@) {
                Some(self@.of(pool)[account@])
            } else {
                None
            },
    {
        let found = match pool {
            RewardPool::Treasury => self.treasury.get(account),
            RewardPool::Jurors => self.jurors.get(account),
            RewardPool::Creators => self.creators.get(account),
            RewardPool::Operators => self.operators.get(account),
        };
        match found {
            Some(epoch) => Some(*epoch),
            None => None,
        }
    }

    /// Records a win of `account` in `pool` at `epoch`, in place of any
    /// earlier one.
    pub fn record(&mut self, pool: RewardPool, account: &str, epoch: u64)
        ensures
            final(self)@ == old(self)@.record(pool, account@, epoch),
    {
        match pool {
            RewardPool::Treasury => self.treasury.insert(account.to_owned(), epoch),
            RewardPool::Jurors => self.jurors.insert(account.to_owned(), epoch),
            RewardPool::Creators => self.creators.insert(account.to_owned(), epoch),
            RewardPool::Operators => self.operators.insert(account.to_owned(), epoch),
        }
    }
}

} // verus!

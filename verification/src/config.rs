//! Ledger-lifetime parameters: the reward of each well-known pool, the
//! cooldown, and the supply cap.

use crate::reward_pool::RewardPool;
use vstd::prelude::*;

verus! {

/// The supply cap of a fresh ledger: 21 million coins of 100 million base
/// units each.
pub const DEFAULT_MAX_SUPPLY: u128 = 2_100_000_000_000_000;

/// The reward that a fresh ledger pays to a winning juror or creator.
pub const DEFAULT_REWARD: u128 = 10;

/// The parameters of a ledger. Each takes effect with the next operation
/// that reads it.
#[derive(Clone, Copy, Debug, PartialEq, Eq, Structural)]
pub struct Config {
    pub treasury_reward: u128,
    pub jurors_reward: u128,
    pub creators_reward: u128,
    pub operators_reward: u128,
    pub cooldown_epochs: u64,
    pub max_supply: u128,
}

impl Config {
    /// The parameters of a fresh ledger.
    pub open spec fn initial() -> Config {
        Config {
            treasury_reward: 0,
            jurors_reward: 10,
            creators_reward: 10,
            operators_reward: 0,
            cooldown_epochs: 0,
            max_supply: 2_100_000_000_000_000,
        }
    }

    /// The reward configured for a well-known pool.
    pub open spec fn reward_of(self, pool: RewardPool) -> u128 {
        match pool {
            RewardPool::Treasury => self.treasury_reward,
            RewardPool::Jurors => self.jurors_reward,
            RewardPool::Creators => self.creators_reward,
            RewardPool::Operators => self.operators_reward,
        }
    }

    /// The reward paid for a win in the pool called `pool`: the configured
    /// amount for a well-known pool, nothing for any other name.
    pub open spec fn reward_named(self, pool: Seq<char>) -> u128 {
        match RewardPool::named(pool) {
            Some(p) => self.reward_of(p),
            None => 0,
        }
    }
}

impl Default for Config {
    /// The parameters of a fresh ledger.
    fn default() -> (config: Self)
        ensures
            config == Config::initial(),
    {
        Config {
            treasury_reward: 0,
            jurors_reward: DEFAULT_REWARD,
            creators_reward: DEFAULT_REWARD,
            operators_reward: 0,
            cooldown_epochs: 0,
            max_supply: DEFAULT_MAX_SUPPLY,
        }
    }
}

} // verus!

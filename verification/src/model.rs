//! The abstract state of a ledger, and each operation as a transition of it.
//!
//! Identifiers of accounts and pools are texts, `Seq<char>`. Everything here is
//! specification: the executable ledger states its contracts in these terms.

use crate::config::Config;
use crate::draw::range_sample;
use crate::draw::seeded_words;
use crate::events::well_formed_json;
use crate::reward_pool::RewardPool;
use vstd::prelude::*;

verus! {

/// `a + b`, held at the largest `u128` where the sum would pass it.
pub open spec fn capped_sum(a: u128, b: u128) -> u128 {
    if a + b > u128::MAX {
        u128::MAX
    } else {
        (a + b) as u128
    }
}

/// The epochs that lie between a last win and now; none where the last win is
/// recorded for a later epoch than the current one.
pub open spec fn epochs_since(now: u64, last_win: u64) -> u64 {
    if now >= last_win {
        (now - last_win) as u64
    } else {
        0
    }
}

/// A membership list with `account` in it: unchanged where it is a member
/// already, else with `account` at the end.
pub open spec fn with_member(members: Seq<Seq<char>>, account: Seq<char>) -> Seq<Seq<char>> {
    if members.contains(account) {
        members
    } else {
        members.push(account)
    }
}

/// Being another account than `account`.
pub open spec fn other_than(account: Seq<char>) -> spec_fn(Seq<char>) -> bool {
    |a: Seq<char>| a != account
}

/// A membership list with every occurrence of `account` taken out.
pub open spec fn without(members: Seq<Seq<char>>, account: Seq<char>) -> Seq<Seq<char>> {
    members.filter(other_than(account))
}

/// The members of the pool called `pool`: none where no such pool was ever
/// created.
pub open spec fn members_in(pools: Map<Seq<char>, Seq<Seq<char>>>, pool: Seq<char>) -> Seq<
    Seq<char>,
> {
    if pools.contains_key(pool) {
        pools[pool]
    } else {
        Seq::empty()
    }
}

/// The pools with `account` taken out of each.
pub open spec fn pools_without(pools: Map<Seq<char>, Seq<Seq<char>>>, account: Seq<char>) -> Map<
    Seq<char>,
    Seq<Seq<char>>,
> {
    pools.map_values(|members: Seq<Seq<char>>| without(members, account))
}

/// No pool lists an account twice.
pub open spec fn no_member_twice(pools: Map<Seq<char>, Seq<Seq<char>>>) -> bool {
    forall|pool: Seq<char>| #[trigger] pools.contains_key(pool) ==> pools[pool].no_duplicates()
}

/// Every member of the `operators` pool is eligible.
pub open spec fn operators_eligible(
    pools: Map<Seq<char>, Seq<Seq<char>>>,
    eligible: Set<Seq<char>>,
) -> bool {
    forall|account: Seq<char>| #[trigger]
        members_in(pools, "operators"@).contains(account) ==> eligible.contains(account)
}

/// Every payload in the log is a well-formed JSON document.
pub open spec fn payloads_well_formed(events: Seq<EventView>) -> bool {
    forall|i: int| 0 <= i < events.len() ==> well_formed_json(#[trigger] events[i].details)
}

/// The sum of all balances, where the accounts are finitely many.
pub open spec fn circulating(balances: Map<Seq<char>, u128>) -> nat
    decreases balances.dom().len(),
    when balances.dom().finite()
{
    if balances.dom().len() == 0 {
        0
    } else {
        let id = balances.dom().choose();
        balances[id] as nat + circulating(balances.remove(id))
    }
}

/// The account that holds what was slashed in favour of the pool `pool`.
pub open spec fn pool_account(pool: Seq<char>) -> Seq<char> {
    "pool:"@ + pool
}

/// One record of the event log.
pub struct EventView {
    pub tag: Seq<char>,
    pub details: Seq<char>,
    pub timestamp: i64,
}

/// For each well-known pool, the epoch of each account's last win in it.
#[verifier::ext_equal]
pub struct WinsView {
    pub treasury: Map<Seq<char>, u64>,
    pub jurors: Map<Seq<char>, u64>,
    pub creators: Map<Seq<char>, u64>,
    pub operators: Map<Seq<char>, u64>,
}

impl WinsView {
    /// No account has won anything.
    pub open spec fn none() -> WinsView {
        WinsView {
            treasury: Map::empty(),
            jurors: Map::empty(),
            creators: Map::empty(),
            operators: Map::empty(),
        }
    }

    /// The last wins recorded for `pool`.
    pub open spec fn of(self, pool: RewardPool) -> Map<Seq<char>, u64> {
        match pool {
            RewardPool::Treasury => self.treasury,
            RewardPool::Jurors => self.jurors,
            RewardPool::Creators => self.creators,
            RewardPool::Operators => self.operators,
        }
    }

    /// These records, with a win of `account` in `pool` at `epoch`.
    pub open spec fn record(self, pool: RewardPool, account: Seq<char>, epoch: u64) -> WinsView {
        match pool {
            RewardPool::Treasury => WinsView {
                treasury: self.treasury.insert(account, epoch),
                ..self
            },
            RewardPool::Jurors => WinsView { jurors: self.jurors.insert(account, epoch), ..self },
            RewardPool::Creators => WinsView {
                creators: self.creators.insert(account, epoch),
                ..self
            },
            RewardPool::Operators => WinsView {
                operators: self.operators.insert(account, epoch),
                ..self
            },
        }
    }
}

/// What came of one distribution: the ledger afterwards, and for each
/// well-known pool, in drawing order, its winner if it has one.
pub struct Distribution {
    pub ledger: LedgerView,
    pub winners: Seq<Option<Seq<char>>>,
}

/// A distribution under way: the ledger so far, the winners of the pools
/// already drawn, and the words that the generator has yet to yield.
pub struct Drawing {
    pub ledger: LedgerView,
    pub winners: Seq<Option<Seq<char>>>,
    pub words: Seq<u32>,
}

/// The whole state of a ledger.
#[verifier::ext_equal]
pub struct LedgerView {
    /// The balance of each known account.
    pub balances: Map<Seq<char>, u128>,
    /// The members of each pool ever created, in the order in which they
    /// joined.
    pub pools: Map<Seq<char>, Seq<Seq<char>>>,
    pub last_win: WinsView,
    /// The accounts that may join the `operators` pool.
    pub eligible: Set<Seq<char>>,
    pub config: Config,
    pub current_epoch: u64,
    pub events: Seq<EventView>,
    /// All that was ever minted.
    pub total_supply: u128,
}

impl LedgerView {
    /// A ledger on which nothing has happened yet.
    pub open spec fn fresh() -> LedgerView {
        LedgerView {
            balances: Map::empty(),
            pools: Map::empty(),
            last_win: WinsView::none(),
            eligible: Set::empty(),
            config: Config::initial(),
            current_epoch: 0,
            events: Seq::empty(),
            total_supply: 0,
        }
    }

    /// What holds of every ledger: no pool lists an account twice, every
    /// member of `operators` is eligible, and every logged payload is
    /// well-formed.
    pub open spec fn valid(self) -> bool {
        &&& no_member_twice(self.pools)
        &&& operators_eligible(self.pools, self.eligible)
        &&& payloads_well_formed(self.events)
    }

    /// Whether the supply backs the balances: the accounts are finitely many,
    /// and together they hold no more than was ever minted.
    pub open spec fn backed(self) -> bool {
        &&& self.balances.dom().finite()
        &&& circulating(self.balances) <= self.total_supply
    }

    // ----- accounts -----
    /// The balance of `id`; an unknown account holds nothing.
    pub open spec fn balance_of(self, id: Seq<char>) -> u128 {
        if self.balances.contains_key(id) {
            self.balances[id]
        } else {
            0
        }
    }

    /// The ledger with `id` known to it, at its present balance.
    pub open spec fn with_account(self, id: Seq<char>) -> LedgerView {
        LedgerView { balances: self.balances.insert(id, self.balance_of(id)), ..self }
    }

    /// The ledger with `amount` more on `id`, and no more supply: the way in
    /// which tokens already issued reach an account.
    pub open spec fn credit(self, id: Seq<char>, amount: u128) -> LedgerView {
        LedgerView {
            balances: self.balances.insert(id, capped_sum(self.balance_of(id), amount)),
            ..self
        }
    }

    /// Whether `amount` more can be issued without passing the supply cap.
    pub open spec fn can_mint(self, amount: u128) -> bool {
        capped_sum(self.total_supply, amount) <= self.config.max_supply
    }

    /// The ledger after an attempt to issue `amount` to `id`: all or nothing.
    pub open spec fn mint(self, id: Seq<char>, amount: u128) -> LedgerView {
        if self.can_mint(amount) {
            LedgerView {
                total_supply: capped_sum(self.total_supply, amount),
                ..self.credit(id, amount)
            }
        } else {
            self
        }
    }

    /// Whether `id` holds at least `amount`.
    pub open spec fn covers(self, id: Seq<char>, amount: u128) -> bool {
        self.balance_of(id) >= amount
    }

    /// The ledger after an attempt to take `amount` from `id`: all or nothing.
    pub open spec fn debit(self, id: Seq<char>, amount: u128) -> LedgerView {
        if self.covers(id, amount) {
            LedgerView {
                balances: self.balances.insert(id, (self.balance_of(id) - amount) as u128),
                ..self
            }
        } else {
            self
        }
    }

    /// The ledger after an attempt to move `amount` from `from` to `to`.
    pub open spec fn transfer(self, from: Seq<char>, to: Seq<char>, amount: u128) -> LedgerView {
        if self.covers(from, amount) {
            self.debit(from, amount).credit(to, amount)
        } else {
            self
        }
    }

    /// The ledger after an attempt to slash `account` by `amount` in favour
    /// of the pool `to_pool`.
    pub open spec fn slash(self, account: Seq<char>, amount: u128, to_pool: Seq<char>) -> LedgerView {
        self.transfer(account, pool_account(to_pool), amount)
    }

    // ----- pools and eligibility -----
    /// The members of `pool`, in the order in which they joined.
    pub open spec fn members_of(self, pool: Seq<char>) -> Seq<Seq<char>> {
        members_in(self.pools, pool)
    }

    /// The ledger with the eligibility of `account` set to `flag`. An account
    /// that loses it leaves every pool.
    pub open spec fn set_eligible(self, account: Seq<char>, flag: bool) -> LedgerView {
        if flag {
            LedgerView { eligible: self.eligible.insert(account), ..self }
        } else {
            LedgerView {
                eligible: self.eligible.remove(account),
                pools: pools_without(self.pools, account),
                ..self
            }
        }
    }

    /// Whether `pool` takes `account`: `operators` takes eligible accounts
    /// only, every other pool takes any.
    pub open spec fn admits(self, pool: Seq<char>, account: Seq<char>) -> bool {
        pool == "operators"@ ==> self.eligible.contains(account)
    }

    /// The ledger after an attempt to add `account` to `pool`.
    pub open spec fn add_to_pool(self, pool: Seq<char>, account: Seq<char>) -> LedgerView {
        if self.admits(pool, account) {
            LedgerView {
                pools: self.pools.insert(pool, with_member(self.members_of(pool), account)),
                ..self.with_account(account)
            }
        } else {
            self
        }
    }

    /// The ledger with `pool` created if need be, and emptied.
    pub open spec fn clear_pool(self, pool: Seq<char>) -> LedgerView {
        LedgerView { pools: self.pools.insert(pool, Seq::empty()), ..self }
    }

    // ----- the reward draw -----
    /// Whether `account` may win in `pool` in the current epoch: it never won
    /// there, or the cooldown has passed since it did.
    pub open spec fn cooled_down(self, pool: RewardPool, account: Seq<char>) -> bool {
        let wins = self.last_win.of(pool);
        wins.contains_key(account) ==> epochs_since(self.current_epoch, wins[account])
            >= self.config.cooldown_epochs
    }

    /// `cooled_down` for one pool, as a predicate on accounts.
    pub open spec fn cooled(self, pool: RewardPool) -> spec_fn(Seq<char>) -> bool {
        |account: Seq<char>| self.cooled_down(pool, account)
    }

    /// The members of `pool` among whom its winner is drawn, in membership
    /// order.
    pub open spec fn cooldown_eligible(self, pool: RewardPool) -> Seq<Seq<char>> {
        self.members_of(pool.name_text()).filter(self.cooled(pool))
    }

    /// Whether a winner of `pool` gets what the pool pays: always where it
    /// pays nothing, else where the reward can be minted.
    pub open spec fn pays(self, pool: RewardPool) -> bool {
        self.config.reward_of(pool) > 0 ==> self.can_mint(self.config.reward_of(pool))
    }

    /// The ledger after `winner` was drawn in `pool`: paid and recorded as
    /// the winner of the current epoch, or, where the reward cannot be
    /// minted, unchanged.
    pub open spec fn settle_win(self, pool: RewardPool, winner: Seq<char>) -> LedgerView {
        let reward = self.config.reward_of(pool);
        if self.pays(pool) {
            let paid = if reward > 0 {
                self.mint(winner, reward)
            } else {
                self
            };
            LedgerView {
                last_win: self.last_win.record(pool, winner, self.current_epoch),
                ..paid
            }
        } else {
            self
        }
    }

    /// The ledger and the winner after the candidate at `index` was drawn in
    /// `pool`. An index beyond the candidates selects nobody, and a pool that
    /// cannot pay has no winner: the ledger is then as before.
    pub open spec fn settle_draw(
        self,
        pool: RewardPool,
        candidates: Seq<Seq<char>>,
        index: int,
    ) -> (LedgerView, Option<Seq<char>>) {
        if 0 <= index < candidates.len() && self.pays(pool) {
            (self.settle_win(pool, candidates[index]), Some(candidates[index]))
        } else {
            (self, None)
        }
    }

    /// One pool's turn in a distribution. A pool without a member who has
    /// cooled down draws nothing. Otherwise one index is sampled below the
    /// number of such members, and the draw is settled for the member at it.
    pub open spec fn draw_pool(self, pool: RewardPool, words: Seq<u32>) -> (
        LedgerView,
        Option<Seq<char>>,
        Seq<u32>,
    ) {
        let candidates = self.cooldown_eligible(pool);
        if candidates.len() == 0 {
            (self, None, words)
        } else {
            let (index, rest) = range_sample(words, candidates.len() as u64);
            let (ledger, winner) = self.settle_draw(pool, candidates, index as int);
            (ledger, winner, rest)
        }
    }

    /// The turns of the first `k` well-known pools, one after the other on
    /// one stream of words.
    pub open spec fn draw_first(self, k: nat, words: Seq<u32>) -> Drawing
        decreases k,
    {
        if k == 0 {
            Drawing { ledger: self, winners: Seq::empty(), words }
        } else {
            let before = self.draw_first((k - 1) as nat, words);
            let (ledger, winner, rest) = before.ledger.draw_pool(
                RewardPool::at(k - 1),
                before.words,
            );
            Drawing { ledger, winners: before.winners.push(winner), words: rest }
        }
    }

    /// A whole distribution: the four well-known pools in order, on the
    /// stream that `seed` gives.
    pub open spec fn distribute(self, seed: u64) -> Distribution {
        let done = self.draw_first(4, seeded_words(seed));
        Distribution { ledger: done.ledger, winners: done.winners }
    }

    // ----- events -----
    /// The ledger with one more event at the end of its log.
    pub open spec fn with_event(self, event: EventView) -> LedgerView {
        LedgerView { events: self.events.push(event), ..self }
    }

    /// The last `count` events in the order in which they were logged; all of
    /// them where `count` is absent or not below their number.
    pub open spec fn recent_events(self, count: Option<usize>) -> Seq<EventView> {
        match count {
            Some(c) if c < self.events.len() => self.events.subrange(
                self.events.len() - c,
                self.events.len() as int,
            ),
            _ => self.events,
        }
    }
}

} // verus!

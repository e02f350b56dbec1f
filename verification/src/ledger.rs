//! The ledger: the state behind one exclusive access, and the operations on
//! it. Each operation is one transition of [`LedgerView`].

use crate::config::Config;
use crate::draw::pending_words;
use crate::draw::sample_below;
use crate::draw::seeded_rng;
use crate::draw::seeded_words;
use crate::error::LedgerError;
use crate::events::event_views;
use crate::events::parses_as_json;
use crate::events::unix_time_now;
use crate::events::well_formed_json;
use crate::events::Event;
use crate::laws::lemma_candidates_at_turn;
use crate::model::members_in;
use crate::model::EventView;
use crate::model::LedgerView;
use crate::pools::copy_texts;
use crate::pools::lemma_without_properties;
use crate::pools::PoolTable;
use crate::reward_pool::lemma_names_distinct;
use crate::reward_pool::RewardPool;
use crate::reward_pool::POOL_OPERATORS;
use crate::text::text_eq;
use crate::wins::WinRecords;
use rand_chacha::ChaCha20Rng;
use vstd::hash_map::StringHashMap;
use vstd::hash_set::StringHashSet;
use vstd::prelude::*;
use vstd::string::StringExecFns;

verus! {

/// The state of a ledger, with the paths by which balances and supply change.
pub struct Ledger {
    balances: StringHashMap<u128>,
    pool_members: PoolTable,
    last_win_epoch: WinRecords,
    eligible: StringHashSet,
    config: Config,
    current_epoch: u64,
    events: Vec<Event>,
    total_supply: u128,
}

impl View for Ledger {
    type V = LedgerView;

    closed spec fn view(&self) -> LedgerView {
        LedgerView {
            balances: self.balances@,
            pools: self.pool_members@,
            last_win: self.last_win_epoch@,
            eligible: self.eligible@,
            config: self.config,
            current_epoch: self.current_epoch,
            events: event_views(self.events@),
            total_supply: self.total_supply,
        }
    }
}

impl Ledger {
    /// The pool table is in order, and the state is one that a ledger can
    /// be in.
    pub closed spec fn wf(&self) -> bool {
        &&& self.pool_members.wf()
        &&& self@.valid()
    }

    /// A ledger on which nothing has happened yet.
    pub(crate) fn new() -> (ledger: Self)
        ensures
            ledger.wf(),
            ledger@ == LedgerView::fresh(),
    {
        let ledger = Ledger {
            balances: StringHashMap::new(),
            pool_members: PoolTable::new(),
            last_win_epoch: WinRecords::new(),
            eligible: StringHashSet::new(),
            config: Config::default(),
            current_epoch: 0,
            events: Vec::new(),
            total_supply: 0,
        };
        proof {
            assert(ledger@.events =~= Seq::<EventView>::empty());
            assert(ledger@ =~= LedgerView::fresh());
        }
        ledger
    }

    /// The balance of `id`: nothing for an account that is not known.
    pub(crate) fn balance(&self, id: &str) -> (balance: u128)
        ensures
            balance == self@.balance_of(id@),
    {
        match self.balances.get(id) {
            Some(balance) => *balance,
            None => 0,
        }
    }

    /// Makes `id` known, with nothing on it, unless it is known already.
    pub(crate) fn ensure_account(&mut self, id: &str)
        requires
            old(self).wf(),
        ensures
            final(self).wf(),
            final(self)@ == old(self)@.with_account(id@),
    {
        if !self.balances.contains_key(id) {
            self.balances.insert(id.to_owned(), 0);
        }
        proof {
            assert(self@ =~= old(self)@.with_account(id@));
        }
    }

    /// The minting path: issues `amount` to `id` if the supply cap allows
    /// it, and changes nothing if it does not.
    pub(crate) fn deposit_internal(&mut self, id: &str, amount: u128) -> (minted: bool)
        requires
            old(self).wf(),
        ensures
            final(self).wf(),
            minted == old(self)@.can_mint(amount),
            final(self)@ == old(self)@.mint(id@, amount),
    {
        let new_supply = self.total_supply.saturating_add(amount);
        if new_supply > self.config.max_supply {
            return false;
        }
        let balance = self.balance(id);
        self.balances.insert(id.to_owned(), balance.saturating_add(amount));
        self.total_supply = new_supply;
        proof {
            assert(self@ =~= old(self)@.mint(id@, amount));
        }
        true
    }

    /// The path for tokens already issued: credits `id` and leaves the
    /// supply as it is.
    pub(crate) fn deposit_no_supply(&mut self, id: &str, amount: u128)
        requires
            old(self).wf(),
        ensures
            final(self).wf(),
            final(self)@ == old(self)@.credit(id@, amount),
    {
        let balance = self.balance(id);
        self.balances.insert(id.to_owned(), balance.saturating_add(amount));
        proof {
            assert(self@ =~= old(self)@.credit(id@, amount));
        }
    }

    /// Takes `amount` from `id` if it holds that much, and changes nothing if
    /// it does not.
    pub(crate) fn withdraw(&mut self, id: &str, amount: u128) -> (done: bool)
        requires
            old(self).wf(),
        ensures
            final(self).wf(),
            done == old(self)@.covers(id@, amount),
            final(self)@ == old(self)@.debit(id@, amount),
    {
        let balance = self.balance(id);
        if balance >= amount {
            self.balances.insert(id.to_owned(), balance - amount);
            proof {
                assert(self@ =~= old(self)@.debit(id@, amount));
            }
            true
        } else {
            false
        }
    }

    /// The reward paid for a win in the pool called `pool`.
    pub(crate) fn reward_for(&self, pool: &str) -> (reward: u128)
        ensures
            reward == self@.config.reward_named(pool@),
    {
        match RewardPool::from_name(pool) {
            Some(RewardPool::Treasury) => self.config.treasury_reward,
            Some(RewardPool::Jurors) => self.config.jurors_reward,
            Some(RewardPool::Creators) => self.config.creators_reward,
            Some(RewardPool::Operators) => self.config.operators_reward,
            None => 0,
        }
    }
}

/// The text of a winner, if there is one.
pub open spec fn winner_text(winner: Option<String>) -> Option<Seq<char>> {
    match winner {
        Some(account) => Some(account@),
        None => None,
    }
}

/// Keeping every member of a list that a predicate holds of, one member at a
/// time: the members kept among the first `i + 1` are those kept among the
/// first `i`, and then the one at `i` if the predicate holds of it.
pub proof fn lemma_filter_next(
    members: Seq<Seq<char>>,
    keep: spec_fn(Seq<char>) -> bool,
    i: int,
)
    requires
        0 <= i < members.len(),
    ensures
        members.take(i + 1).filter(keep) == if keep(members[i]) {
            members.take(i).filter(keep).push(members[i])
        } else {
            members.take(i).filter(keep)
        },
{
    reveal(Seq::filter);
    assert(members.take(i + 1).drop_last() =~= members.take(i));
}

/// The ledger as its callers see it.
pub struct WeCoinLedger {
    inner: Ledger,
}

impl View for WeCoinLedger {
    type V = LedgerView;

    closed spec fn view(&self) -> LedgerView {
        self.inner@
    }
}

impl WeCoinLedger {
    /// The representation is in order. It is of every ledger that `new`
    /// returned, whatever was done to it since.
    pub closed spec fn wf(&self) -> bool {
        self.inner.wf()
    }

    /// The state of a ledger is always a valid one.
    pub proof fn lemma_valid(&self)
        requires
            self.wf(),
        ensures
            self@.valid(),
    {
    }

    /// A ledger with no account, pool or event, at epoch 0, with the default
    /// parameters.
    pub fn new() -> (ledger: Self)
        ensures
            ledger.wf(),
            ledger@ == LedgerView::fresh(),
    {
        WeCoinLedger { inner: Ledger::new() }
    }

    // ----- accounts -----
    /// Makes `id` known, with nothing on it, unless it is known already.
    pub fn create_account(&mut self, id: &str)
        requires
            old(self).wf(),
        ensures
            final(self).wf(),
            final(self)@ == old(self)@.with_account(id@),
    {
        self.inner.ensure_account(id);
    }

    /// The balance of `id`: nothing for an account that is not known.
    pub fn balance(&self, id: &str) -> (balance: u128)
        ensures
            balance == self@.balance_of(id@),
    {
        self.inner.balance(id)
    }

    /// Issues `amount` new tokens to `id`. Fails, and changes nothing, where
    /// the supply would pass the cap.
    pub fn deposit(&mut self, id: &str, amount: u128) -> (minted: bool)
        requires
            old(self).wf(),
        ensures
            final(self).wf(),
            minted == old(self)@.can_mint(amount),
            final(self)@ == old(self)@.mint(id@, amount),
    {
        self.inner.deposit_internal(id, amount)
    }

    /// Moves `amount` from `from` to `to`. Fails, and changes nothing, where
    /// `from` does not hold that much.
    pub fn transfer(&mut self, from: &str, to: &str, amount: u128) -> (done: bool)
        requires
            old(self).wf(),
        ensures
            final(self).wf(),
            done == old(self)@.covers(from@, amount),
            final(self)@ == old(self)@.transfer(from@, to@, amount),
    {
        if self.inner.withdraw(from, amount) {
            self.inner.deposit_no_supply(to, amount);
            true
        } else {
            false
        }
    }

    /// Takes `amount` from `id`. Fails, and changes nothing, where `id` does
    /// not hold that much.
    pub fn withdraw(&mut self, id: &str, amount: u128) -> (done: bool)
        requires
            old(self).wf(),
        ensures
            final(self).wf(),
            done == old(self)@.covers(id@, amount),
            final(self)@ == old(self)@.debit(id@, amount),
    {
        self.inner.withdraw(id, amount)
    }

    /// All that was ever minted.
    pub fn total_supply(&self) -> (supply: u128)
        ensures
            supply == self@.total_supply,
    {
        self.inner.total_supply
    }

    // ----- configuration -----
    /// Sets the reward that each well-known pool pays to its winner.
    pub fn set_epoch_rewards(&mut self, treasury: u128, jurors: u128, creators: u128, operators: u128)
        requires
            old(self).wf(),
        ensures
            final(self).wf(),
            final(self)@ == (LedgerView {
                config: Config {
                    treasury_reward: treasury,
                    jurors_reward: jurors,
                    creators_reward: creators,
                    operators_reward: operators,
                    ..old(self)@.config
                },
                ..old(self)@
            }),
    {
        self.inner.config.treasury_reward = treasury;
        self.inner.config.jurors_reward = jurors;
        self.inner.config.creators_reward = creators;
        self.inner.config.operators_reward = operators;
    }

    /// Sets the number of epochs that a winner sits out in the pool it won in.
    pub fn set_cooldown_epochs(&mut self, cooldown: u64)
        requires
            old(self).wf(),
        ensures
            final(self).wf(),
            final(self)@ == (LedgerView {
                config: Config { cooldown_epochs: cooldown, ..old(self)@.config },
                ..old(self)@
            }),
    {
        self.inner.config.cooldown_epochs = cooldown;
    }

    /// Sets the supply cap. A cap below the present supply is taken as it is:
    /// nothing more is minted until it is raised.
    pub fn set_max_supply(&mut self, max_supply: u128)
        requires
            old(self).wf(),
        ensures
            final(self).wf(),
            final(self)@ == (LedgerView {
                config: Config { max_supply, ..old(self)@.config },
                ..old(self)@
            }),
    {
        self.inner.config.max_supply = max_supply;
    }

    /// Sets the current epoch. The ledger never advances it by itself.
    pub fn set_epoch(&mut self, epoch: u64)
        requires
            old(self).wf(),
        ensures
            final(self).wf(),
            final(self)@ == (LedgerView { current_epoch: epoch, ..old(self)@ }),
    {
        self.inner.current_epoch = epoch;
    }

    /// The epoch that the ledger stands in.
    pub fn current_epoch(&self) -> (epoch: u64)
        ensures
            epoch == self@.current_epoch,
    {
        self.inner.current_epoch
    }

    // ----- eligibility and pools -----
    /// Sets the eligibility of `account`. An account that loses it leaves
    /// every pool, not only `operators`.
    pub fn set_eligible(&mut self, account: &str, eligible: bool)
        requires
            old(self).wf(),
        ensures
            final(self).wf(),
            final(self)@ == old(self)@.set_eligible(account@, eligible),
    {
        if eligible {
            self.inner.eligible.insert(account.to_owned());
        } else {
            self.inner.eligible.remove(account);
            self.inner.pool_members.remove_everywhere(account);
            proof {
                self.inner.pool_members.lemma_no_duplicates();
                lemma_without_properties(
                    members_in(old(self)@.pools, "operators"@),
                    account@,
                );
            }
        }
        proof {
            assert(self@ =~= old(self)@.set_eligible(account@, eligible));
        }
    }

    /// Whether `account` is eligible.
    pub fn is_eligible(&self, account: &str) -> (eligible: bool)
        ensures
            eligible == self@.eligible.contains(account@),
    {
        self.inner.eligible.contains(account)
    }

    /// Empties `pool`, which is created if need be.
    pub fn clear_pool(&mut self, pool: &str)
        requires
            old(self).wf(),
        ensures
            final(self).wf(),
            final(self)@ == old(self)@.clear_pool(pool@),
    {
        self.inner.pool_members.clear(pool);
        proof {
            self.inner.pool_members.lemma_no_duplicates();
            assert(self@ =~= old(self)@.clear_pool(pool@));
            assert forall|account: Seq<char>| #[trigger]
                members_in(self@.pools, "operators"@).contains(account) implies self@.eligible.contains(
                account,
            ) by {
                assert(members_in(old(self)@.pools, "operators"@).contains(account));
            }
        }
    }

    /// Adds `account` to `pool`, and makes the account known. Both are
    /// created if need be; a member stays where it is. The `operators` pool
    /// takes eligible accounts only: any other is refused, and nothing
    /// changes.
    pub fn add_to_pool(&mut self, pool: &str, account: &str) -> (added: Result<(), LedgerError>)
        requires
            old(self).wf(),
        ensures
            final(self).wf(),
            added is Ok <==> old(self)@.admits(pool@, account@),
            added is Err ==> added == Err::<(), LedgerError>(LedgerError::PermissionDenied),
            final(self)@ == old(self)@.add_to_pool(pool@, account@),
    {
        if text_eq(pool, POOL_OPERATORS) && !self.inner.eligible.contains(account) {
            return Err(LedgerError::PermissionDenied);
        }
        self.inner.ensure_account(account);
        self.inner.pool_members.add(pool, account);
        proof {
            self.inner.pool_members.lemma_no_duplicates();
            assert(self@ =~= old(self)@.add_to_pool(pool@, account@));
            assert forall|a: Seq<char>| #[trigger]
                members_in(self@.pools, "operators"@).contains(a) implies self@.eligible.contains(
                a,
            ) by {
                let before = members_in(old(self)@.pools, "operators"@);
                if pool@ == "operators"@ && !before.contains(a) {
                    let after = before.push(account@);
                    let i = choose|i: int| 0 <= i < after.len() && after[i] == a;
                    if i < before.len() {
                        assert(before[i] == a);
                    }
                }
            }
        }
        Ok(())
    }

    /// The members of `pool`, in the order in which they joined: none for a
    /// pool that was never created.
    pub fn list_pool_members(&self, pool: &str) -> (members: Vec<String>)
        requires
            self.wf(),
        ensures
            members.deep_view() == self@.members_of(pool@),
    {
        match self.inner.pool_members.members_ref(pool) {
            Some(members) => copy_texts(members),
            None => {
                let members: Vec<String> = Vec::new();
                proof {
                    assert(members.deep_view() =~= Seq::<Seq<char>>::empty());
                }
                members
            },
        }
    }

    /// Every pool ever created, emptied ones too, each once and with its
    /// members.
    pub fn list_all_pools(&self) -> (all: Vec<(String, Vec<String>)>)
        requires
            self.wf(),
        ensures
            forall|i: int|
                0 <= i < all.len() ==> self@.pools.contains_key((#[trigger] all@[i]).0@)
                    && all@[i].1.deep_view() == self@.pools[all@[i].0@],
            forall|name: Seq<char>| #[trigger]
                self@.pools.contains_key(name) ==> exists|i: int|
                    0 <= i < all.len() && (#[trigger] all@[i]).0@ == name,
            forall|i: int, j: int|
                0 <= i < j < all.len() ==> (#[trigger] all@[i]).0@ != (#[trigger] all@[j]).0@,
    {
        self.inner.pool_members.snapshot()
    }

    // ----- the reward draw -----
    /// The epoch in which `account` last won in `pool`, if it ever did.
    pub fn last_win(&self, pool: RewardPool, account: &str) -> (epoch: Option<u64>)
        ensures
            epoch == if self@.last_win.of(pool).contains_key(account@) {
                Some(self@.last_win.of(pool)[account@])
            } else {
                None
            },
    {
        self.inner.last_win_epoch.last_win(pool, account)
    }

    /// The members of `pool` who may win in the current epoch, in membership
    /// order: those who never won in it, and those whose last win lies at
    /// least the cooldown back.
    pub fn cooldown_eligible(&self, pool: RewardPool) -> (candidates: Vec<String>)
        requires
            self.wf(),
        ensures
            candidates.deep_view() == self@.cooldown_eligible(pool),
    {
        let mut candidates: Vec<String> = Vec::new();
        let ghost keep = self@.cooled(pool);
        match self.inner.pool_members.members_ref(pool.name()) {
            Some(members) => {
                let ghost all = members.deep_view();
                let mut i: usize = 0;
                proof {
                    reveal(Seq::filter);
                    assert(all.take(0).filter(keep) =~= Seq::<Seq<char>>::empty());
                    assert(candidates.deep_view() =~= Seq::<Seq<char>>::empty());
                }
                while i < members.len()
                    invariant
                        i <= members.len(),
                        all == members.deep_view(),
                        keep == self@.cooled(pool),
                        candidates.deep_view() == all.take(i as int).filter(keep),
                    decreases members.len() - i,
                {
                    let cooled = match self.inner.last_win_epoch.last_win(
                        pool,
                        members[i].as_str(),
                    ) {
                        Some(last) => self.inner.current_epoch.saturating_sub(last)
                            >= self.inner.config.cooldown_epochs,
                        None => true,
                    };
                    let ghost before = candidates.deep_view();
                    if cooled {
                        candidates.push(members[i].clone());
                    }
                    proof {
                        assert(all[i as int] == members[i as int]@);
                        assert(cooled == keep(all[i as int]));
                        if cooled {
                            assert(candidates.deep_view() =~= before.push(all[i as int]));
                        }
                        lemma_filter_next(all, keep, i as int);
                    }
                    i += 1;
                }
                proof {
                    assert(all.take(i as int) =~= all);
                }
            },
            None => {
                proof {
                    reveal(Seq::filter);
                    assert(candidates.deep_view() =~= Seq::<Seq<char>>::empty());
                }
            },
        }
        candidates
    }

    /// Settles a draw that `winner` won in `pool`. Where the pool pays a
    /// reward, it is minted to the winner; where that fails for the supply
    /// cap, nothing changes and the win does not count. Otherwise the win is
    /// recorded for the current epoch.
    pub fn settle_win(&mut self, pool: RewardPool, winner: &str) -> (paid: bool)
        requires
            old(self).wf(),
        ensures
            final(self).wf(),
            paid == old(self)@.pays(pool),
            final(self)@ == old(self)@.settle_win(pool, winner@),
    {
        let reward = self.inner.reward_for(pool.name());
        proof {
            lemma_names_distinct();
        }
        if reward > 0 {
            if !self.inner.deposit_internal(winner, reward) {
                return false;
            }
        }
        self.inner.last_win_epoch.record(pool, winner, self.inner.current_epoch);
        proof {
            assert(self@ =~= old(self)@.settle_win(pool, winner@));
        }
        true
    }

    /// Settles a draw in `pool` that came out at `index` among `candidates`:
    /// the candidate there wins, if the pool can pay. An index beyond the
    /// candidates selects nobody.
    pub fn settle_draw(&mut self, pool: RewardPool, candidates: &Vec<String>, index: usize) -> (winner:
        Option<String>)
        requires
            old(self).wf(),
        ensures
            final(self).wf(),
            (final(self)@, winner_text(winner)) == old(self)@.settle_draw(
                pool,
                candidates.deep_view(),
                index as int,
            ),
    {
        if index >= candidates.len() {
            return None;
        }
        let winner = candidates[index].clone();
        proof {
            assert(candidates.deep_view()[index as int] == winner@);
        }
        if self.settle_win(pool, winner.as_str()) {
            Some(winner)
        } else {
            None
        }
    }

    /// One pool's turn in a distribution, on a generator that the turns share.
    /// The pool has a winner exactly where it has a member who has cooled
    /// down and can pay; the winner is such a member.
    fn draw_pool(&mut self, pool: RewardPool, rng: &mut ChaCha20Rng) -> (winner: Option<String>)
        requires
            old(self).wf(),
        ensures
            final(self).wf(),
            (final(self)@, winner_text(winner), pending_words(*final(rng))) == old(self)@.draw_pool(
                pool,
                pending_words(*old(rng)),
            ),
            winner is Some <==> old(self)@.cooldown_eligible(pool).len() > 0 && old(self)@.pays(
                pool,
            ),
            winner matches Some(account) ==> old(self)@.cooldown_eligible(pool).contains(account@)
                && final(self)@ == old(self)@.settle_win(pool, account@),
            winner is None ==> final(self)@ == old(self)@,
    {
        let candidates = self.cooldown_eligible(pool);
        if candidates.len() == 0 {
            return None;
        }
        let index = sample_below(rng, candidates.len() as u64);
        self.settle_draw(pool, &candidates, index as usize)
    }

    /// Draws the epoch's rewards: for each well-known pool in turn, one
    /// winner among the members who have cooled down, on a generator that
    /// `seed` alone determines. The result names the four pools in drawing
    /// order, each with its winner if it has one. A pool has a winner exactly
    /// where one of its members had cooled down when the distribution began
    /// and the pool can pay when its turn comes; the winner is such a member.
    pub fn distribute_epoch_rewards(&mut self, seed: u64) -> (winners: Vec<(String, Option<String>)>)
        requires
            old(self).wf(),
        ensures
            final(self).wf(),
            final(self)@ == old(self)@.distribute(seed).ledger,
            winners.len() == 4,
            forall|k: int|
                0 <= k < 4 ==> (#[trigger] winners@[k]).0@ == RewardPool::at(k).name_text()
                    && winner_text(winners@[k].1) == old(self)@.distribute(seed).winners[k],
            forall|k: int|
                0 <= k < 4 ==> ((#[trigger] winners@[k]).1 is Some <==> old(
                    self,
                )@.cooldown_eligible(RewardPool::at(k)).len() > 0 && old(self)@.draw_first(
                    k as nat,
                    seeded_words(seed),
                ).ledger.pays(RewardPool::at(k))),
            forall|k: int|
                0 <= k < 4 ==> ((#[trigger] winners@[k]).1 matches Some(account) ==> old(
                    self,
                )@.cooldown_eligible(RewardPool::at(k)).contains(account@)),
    {
        let mut rng = seeded_rng(seed);
        let mut winners: Vec<(String, Option<String>)> = Vec::new();
        let mut k: usize = 0;
        while k < 4
            invariant
                k <= 4,
                self.wf(),
                winners.len() == k,
                old(self)@.draw_first(k as nat, seeded_words(seed)).ledger == self@,
                old(self)@.draw_first(k as nat, seeded_words(seed)).words == pending_words(rng),
                old(self)@.draw_first(k as nat, seeded_words(seed)).winners.len() == k,
                forall|j: int|
                    0 <= j < k ==> (#[trigger] winners@[j]).0@ == RewardPool::at(j).name_text()
                        && winner_text(winners@[j].1) == old(self)@.draw_first(
                        k as nat,
                        seeded_words(seed),
                    ).winners[j],
                forall|j: int|
                    0 <= j < k ==> ((#[trigger] winners@[j]).1 is Some <==> old(
                        self,
                    )@.cooldown_eligible(RewardPool::at(j)).len() > 0 && old(self)@.draw_first(
                        j as nat,
                        seeded_words(seed),
                    ).ledger.pays(RewardPool::at(j))),
                forall|j: int|
                    0 <= j < k ==> ((#[trigger] winners@[j]).1 matches Some(account) ==> old(
                        self,
                    )@.cooldown_eligible(RewardPool::at(j)).contains(account@)),
            decreases 4 - k,
        {
            let pool = RewardPool::in_order(k);
            proof {
                lemma_candidates_at_turn(old(self)@, k as nat, seeded_words(seed));
            }
            let winner = self.draw_pool(pool, &mut rng);
            winners.push((pool.name().to_owned(), winner));
            k += 1;
        }
        winners
    }

    // ----- slashing -----
    /// Moves `amount` from `account` to the account that holds what was
    /// slashed in favour of `to_pool`. Fails, and changes nothing, where
    /// `account` does not hold that much. The supply stays as it is.
    pub fn slash(&mut self, account: &str, amount: u128, to_pool: &str) -> (done: bool)
        requires
            old(self).wf(),
        ensures
            final(self).wf(),
            done == old(self)@.covers(account@, amount),
            final(self)@ == old(self)@.slash(account@, amount, to_pool@),
    {
        let ok = self.inner.withdraw(account, amount);
        if ok {
            let mut pool_key = "pool:".to_owned();
            pool_key.append(to_pool);
            self.inner.deposit_no_supply(pool_key.as_str(), amount);
        }
        ok
    }

    // ----- events -----
    /// Appends an event with a payload that is known to be well-formed.
    pub fn record_event(&mut self, tag: &str, details: &str, timestamp: i64)
        requires
            old(self).wf(),
            well_formed_json(details@),
        ensures
            final(self).wf(),
            final(self)@ == old(self)@.with_event(
                EventView { tag: tag@, details: details@, timestamp },
            ),
    {
        let event = Event { tag: tag.to_owned(), details: details.to_owned(), timestamp };
        self.inner.events.push(event);
        proof {
            assert(self@.events =~= old(self)@.events.push(
                EventView { tag: tag@, details: details@, timestamp },
            ));
            assert(self@ =~= old(self)@.with_event(
                EventView { tag: tag@, details: details@, timestamp },
            ));
        }
    }

    /// Appends an event, stamped with the current time. The payload has to be
    /// a well-formed JSON document: any other is refused, and nothing
    /// changes.
    pub fn add_event(&mut self, tag: &str, details: &str) -> (added: Result<(), LedgerError>)
        requires
            old(self).wf(),
        ensures
            final(self).wf(),
            added is Ok <==> well_formed_json(details@),
            added is Err ==> added == Err::<(), LedgerError>(LedgerError::InvalidPayload)
                && final(self)@ == old(self)@,
            added is Ok ==> exists|timestamp: i64|
                final(self)@ == #[trigger] old(self)@.with_event(
                    EventView { tag: tag@, details: details@, timestamp },
                ),
    {
        if !parses_as_json(details) {
            return Err(LedgerError::InvalidPayload);
        }
        let timestamp = unix_time_now();
        self.record_event(tag, details, timestamp);
        Ok(())
    }

    /// The last `count` events in the order in which they were logged; all of
    /// them where `count` is absent or not below their number.
    pub fn list_events(&self, count: Option<usize>) -> (events: Vec<Event>)
        ensures
            event_views(events@) == self@.recent_events(count),
    {
        let total = self.inner.events.len();
        let start = match count {
            Some(c) => if c < total {
                total - c
            } else {
                0
            },
            None => 0,
        };
        let mut events: Vec<Event> = Vec::new();
        let mut i: usize = start;
        while i < total
            invariant
                start <= i <= total,
                total == self.inner.events.len(),
                events@ == self.inner.events@.subrange(start as int, i as int),
            decreases total - i,
        {
            events.push(self.inner.events[i].clone());
            proof {
                assert(events@ =~= self.inner.events@.subrange(start as int, i + 1));
            }
            i += 1;
        }
        proof {
            assert(event_views(events@) =~= self@.recent_events(count));
        }
        events
    }
}

} // verus!

//! What holds of the ledger's transitions, whatever the state and the inputs.

use crate::model::capped_sum;
use crate::model::circulating;
use crate::model::epochs_since;
use crate::model::without;
use crate::model::LedgerView;
use crate::pools::lemma_without_properties;
use crate::reward_pool::RewardPool;
use vstd::prelude::*;

verus! {

// ----- supply -----
/// The ledger after a run of deposits, each minting to an account.
pub open spec fn mint_all(start: LedgerView, deposits: Seq<(Seq<char>, u128)>) -> LedgerView
    decreases deposits.len(),
{
    if deposits.len() == 0 {
        start
    } else {
        mint_all(start, deposits.drop_last()).mint(deposits.last().0, deposits.last().1)
    }
}

/// The sum of the amounts of those deposits of a run that succeed.
pub open spec fn minted(start: LedgerView, deposits: Seq<(Seq<char>, u128)>) -> nat
    decreases deposits.len(),
{
    if deposits.len() == 0 {
        0
    } else {
        let before = mint_all(start, deposits.drop_last());
        let earlier = minted(start, deposits.drop_last());
        if before.can_mint(deposits.last().1) {
            earlier + deposits.last().1 as nat
        } else {
            earlier
        }
    }
}

/// A run of deposits leaves the parameters as they are, never lowers the
/// supply, and keeps it within the cap if it was within it at the start.
pub proof fn lemma_mints_keep_the_cap(start: LedgerView, deposits: Seq<(Seq<char>, u128)>)
    ensures
        mint_all(start, deposits).config == start.config,
        mint_all(start, deposits).total_supply >= start.total_supply,
        start.total_supply <= start.config.max_supply ==> mint_all(start, deposits).total_supply
            <= start.config.max_supply,
        minted(start, deposits) > 0 ==> mint_all(start, deposits).total_supply
            <= start.config.max_supply,
    decreases deposits.len(),
{
    if deposits.len() > 0 {
        lemma_mints_keep_the_cap(start, deposits.drop_last());
    }
}

/// After a run of deposits the supply has grown by the sum of the amounts
/// minted, as long as that sum fits the integer type. (Where it does not, the
/// supply stands at the largest value instead: that takes a cap of the
/// largest value.)
pub proof fn lemma_supply_is_sum_of_mints(start: LedgerView, deposits: Seq<(Seq<char>, u128)>)
    requires
        start.total_supply + minted(start, deposits) <= u128::MAX,
    ensures
        mint_all(start, deposits).total_supply == start.total_supply + minted(start, deposits),
        start == LedgerView::fresh() ==> mint_all(start, deposits).total_supply == minted(
            start,
            deposits,
        ),
    decreases deposits.len(),
{
    if deposits.len() > 0 {
        lemma_supply_is_sum_of_mints(start, deposits.drop_last());
    }
}

/// Whatever the amounts, the supply after a run of deposits is the sum of the
/// supply before and the amounts minted, held at the largest value.
pub proof fn lemma_supply_is_capped_sum_of_mints(
    start: LedgerView,
    deposits: Seq<(Seq<char>, u128)>,
)
    ensures
        mint_all(start, deposits).total_supply == if start.total_supply + minted(start, deposits)
            <= u128::MAX {
            start.total_supply + minted(start, deposits)
        } else {
            u128::MAX as int
        },
    decreases deposits.len(),
{
    if deposits.len() > 0 {
        lemma_supply_is_capped_sum_of_mints(start, deposits.drop_last());
        lemma_mints_keep_the_cap(start, deposits.drop_last());
    }
}

// ----- balances -----
/// A withdrawal succeeds exactly where the balance covers the amount. It then
/// lowers that balance by the amount; it never touches another account, nor
/// the supply. Where it fails the ledger is as before.
pub proof fn lemma_withdraw(s: LedgerView, id: Seq<char>, amount: u128)
    ensures
        s.covers(id, amount) <==> s.balance_of(id) >= amount,
        s.covers(id, amount) ==> s.debit(id, amount).balance_of(id) == s.balance_of(id) - amount,
        !s.covers(id, amount) ==> s.debit(id, amount) == s,
        forall|other: Seq<char>|
            other != id ==> #[trigger] s.debit(id, amount).balance_of(other) == s.balance_of(other),
        s.debit(id, amount).total_supply == s.total_supply,
{
}

/// A transfer is a withdrawal from `from` followed, where it succeeded, by a
/// credit to `to` that mints nothing. Where the withdrawal fails, so does the
/// transfer, and the ledger, the balance of `to` with it, is as before.
pub proof fn lemma_transfer(s: LedgerView, from: Seq<char>, to: Seq<char>, amount: u128)
    ensures
        s.covers(from, amount) ==> s.transfer(from, to, amount) == s.debit(from, amount).credit(
            to,
            amount,
        ),
        !s.covers(from, amount) ==> s.transfer(from, to, amount) == s && s.debit(from, amount)
            == s,
        s.transfer(from, to, amount).total_supply == s.total_supply,
        s.covers(from, amount) && from != to ==> {
            &&& s.transfer(from, to, amount).balance_of(from) == s.balance_of(from) - amount
            &&& s.transfer(from, to, amount).balance_of(to) == capped_sum(
                s.balance_of(to),
                amount,
            )
        },
        from == to ==> s.transfer(from, to, amount).balance_of(from) == s.balance_of(from),
        forall|other: Seq<char>|
            other != from && other != to ==> #[trigger] s.transfer(from, to, amount).balance_of(
                other,
            ) == s.balance_of(other),
{
}

// ----- circulation -----
/// The sum of all balances is the balance of any one account and the sum of
/// the others.
pub proof fn lemma_circulating_split(balances: Map<Seq<char>, u128>, id: Seq<char>)
    requires
        balances.dom().finite(),
        balances.contains_key(id),
    ensures
        circulating(balances) == balances[id] + circulating(balances.remove(id)),
    decreases balances.dom().len(),
{
    let first = balances.dom().choose();
    if first != id {
        lemma_circulating_split(balances.remove(first), id);
        lemma_circulating_split(balances.remove(id), first);
        assert(balances.remove(first).remove(id) =~= balances.remove(id).remove(first));
    }
}

/// Setting one balance changes the sum of all balances by as much as it
/// changes that balance.
pub proof fn lemma_circulating_insert(balances: Map<Seq<char>, u128>, id: Seq<char>, balance: u128)
    requires
        balances.dom().finite(),
    ensures
        balances.insert(id, balance).dom().finite(),
        circulating(balances.insert(id, balance)) == circulating(balances) - (if balances.contains_key(
            id,
        ) {
            balances[id]
        } else {
            0
        }) + balance,
{
    let after = balances.insert(id, balance);
    lemma_circulating_split(after, id);
    assert(after.remove(id) =~= balances.remove(id));
    if balances.contains_key(id) {
        lemma_circulating_split(balances, id);
    } else {
        assert(balances.remove(id) =~= balances);
    }
}

/// No account holds more than all accounts together.
pub proof fn lemma_balance_within_circulation(s: LedgerView, id: Seq<char>)
    requires
        s.balances.dom().finite(),
    ensures
        s.balance_of(id) <= circulating(s.balances),
{
    if s.balances.contains_key(id) {
        lemma_circulating_split(s.balances, id);
    }
}

/// A fresh ledger is backed: nothing was minted and nobody holds anything.
pub proof fn lemma_fresh_is_backed()
    ensures
        LedgerView::fresh().backed(),
        LedgerView::fresh().valid(),
{
    assert(LedgerView::fresh().balances.dom() =~= Set::<Seq<char>>::empty());
}

/// Making an account known, a withdrawal, a transfer and a slash keep a
/// backed ledger backed: none of them mints, and none lets the sum of the
/// balances grow.
pub proof fn lemma_moving_tokens_keeps_backing(
    s: LedgerView,
    from: Seq<char>,
    to: Seq<char>,
    amount: u128,
)
    requires
        s.backed(),
    ensures
        s.with_account(from).backed(),
        s.debit(from, amount).backed(),
        s.transfer(from, to, amount).backed(),
        s.slash(from, amount, to).backed(),
        circulating(s.with_account(from).balances) == circulating(s.balances),
        s.covers(from, amount) ==> circulating(s.debit(from, amount).balances) == circulating(
            s.balances,
        ) - amount,
        circulating(s.transfer(from, to, amount).balances) == circulating(s.balances),
{
    lemma_circulating_insert(s.balances, from, s.balance_of(from));
    lemma_transfer_keeps_circulation(s, from, to, amount);
    lemma_transfer_keeps_circulation(s, from, crate::model::pool_account(to), amount);
    if s.covers(from, amount) {
        lemma_circulating_insert(s.balances, from, (s.balance_of(from) - amount) as u128);
    }
}

/// A transfer moves tokens and makes none: the sum of all balances of a
/// backed ledger is the same after it.
pub proof fn lemma_transfer_keeps_circulation(
    s: LedgerView,
    from: Seq<char>,
    to: Seq<char>,
    amount: u128,
)
    requires
        s.backed(),
    ensures
        s.transfer(from, to, amount).balances.dom().finite(),
        circulating(s.transfer(from, to, amount).balances) == circulating(s.balances),
{
    if s.covers(from, amount) {
        let taken = s.debit(from, amount);
        lemma_circulating_insert(s.balances, from, (s.balance_of(from) - amount) as u128);
        lemma_balance_within_circulation(taken, to);
        lemma_circulating_insert(taken.balances, to, capped_sum(taken.balance_of(to), amount));
    }
}

/// A deposit keeps a backed ledger backed as long as the supply is not held
/// at the largest value: it then raises the supply and the sum of the
/// balances by the same amount, or changes nothing.
pub proof fn lemma_mint_keeps_backing(s: LedgerView, id: Seq<char>, amount: u128)
    requires
        s.backed(),
        s.config.max_supply < u128::MAX || s.total_supply + amount <= u128::MAX,
    ensures
        s.mint(id, amount).backed(),
        s.can_mint(amount) ==> s.mint(id, amount).total_supply == s.total_supply + amount
            && circulating(s.mint(id, amount).balances) == circulating(s.balances) + amount,
        !s.can_mint(amount) ==> s.mint(id, amount) == s,
{
    if s.can_mint(amount) {
        lemma_balance_within_circulation(s, id);
        lemma_circulating_insert(s.balances, id, capped_sum(s.balance_of(id), amount));
    }
}

// ----- eligibility and pools -----
/// An account that loses its eligibility is a member of no pool afterwards,
/// `operators` or other. Every other account is a member of what it was a
/// member of, and no pool comes or goes.
pub proof fn lemma_ineligible_leaves_every_pool(s: LedgerView, account: Seq<char>)
    ensures
        !s.set_eligible(account, false).eligible.contains(account),
        forall|pool: Seq<char>|
            !(#[trigger] s.set_eligible(account, false).members_of(pool)).contains(account),
        forall|pool: Seq<char>, other: Seq<char>|
            other != account ==> (#[trigger] s.set_eligible(account, false).members_of(
                pool,
            ).contains(other) <==> s.members_of(pool).contains(other)),
        forall|pool: Seq<char>|
            s.set_eligible(account, false).pools.contains_key(pool) <==> s.pools.contains_key(
                pool,
            ),
{
    let after = s.set_eligible(account, false);
    assert forall|pool: Seq<char>|
        !(#[trigger] after.members_of(pool)).contains(account) && (forall|other: Seq<char>|
            other != account ==> (#[trigger] after.members_of(pool).contains(other)
                <==> s.members_of(pool).contains(other))) by {
        lemma_without_properties(s.members_of(pool), account);
        if s.pools.contains_key(pool) {
            assert(after.members_of(pool) == without(s.members_of(pool), account));
        } else {
            assert(after.members_of(pool) == Seq::<Seq<char>>::empty());
        }
    }
}

/// The `operators` pool refuses an account that is not eligible, and the
/// ledger stays as it is. Once the account is made eligible the pool takes
/// it, and taking it a second time changes nothing.
pub proof fn lemma_operators_gate(s: LedgerView, account: Seq<char>)
    ensures
        !s.eligible.contains(account) ==> !s.admits("operators"@, account) && s.add_to_pool(
            "operators"@,
            account,
        ) == s,
        s.set_eligible(account, true).admits("operators"@, account),
        s.set_eligible(account, true).add_to_pool("operators"@, account).members_of(
            "operators"@,
        ).contains(account),
        s.set_eligible(account, true).add_to_pool("operators"@, account).add_to_pool(
            "operators"@,
            account,
        ) == s.set_eligible(account, true).add_to_pool("operators"@, account),
{
    let eligible = s.set_eligible(account, true);
    let once = eligible.add_to_pool("operators"@, account);
    let twice = once.add_to_pool("operators"@, account);
    let before = eligible.members_of("operators"@);
    if !before.contains(account) {
        assert(before.push(account)[before.len() as int] == account);
    }
    assert(once.members_of("operators"@).contains(account));
    assert(twice.pools =~= once.pools);
    assert(twice.balances =~= once.balances);
    assert(twice =~= once);
}

/// Any pool but `operators` takes any account.
pub proof fn lemma_other_pools_take_anyone(s: LedgerView, pool: Seq<char>, account: Seq<char>)
    requires
        pool != "operators"@,
    ensures
        s.admits(pool, account),
        s.add_to_pool(pool, account).members_of(pool).contains(account),
{
    let before = s.members_of(pool);
    if !before.contains(account) {
        assert(before.push(account)[before.len() as int] == account);
    }
}

// ----- the reward draw -----
/// One pool's turn touches nothing but balances, supply and that pool's own
/// last wins. Its winner, if it has one, is a member who has cooled down,
/// and is recorded as having won in the current epoch; without a winner the
/// ledger is as before.
pub proof fn lemma_draw_pool(s: LedgerView, pool: RewardPool, words: Seq<u32>)
    ensures
        s.draw_pool(pool, words).0.pools == s.pools,
        s.draw_pool(pool, words).0.config == s.config,
        s.draw_pool(pool, words).0.current_epoch == s.current_epoch,
        s.draw_pool(pool, words).0.eligible == s.eligible,
        s.draw_pool(pool, words).0.events == s.events,
        forall|other: RewardPool|
            other != pool ==> #[trigger] s.draw_pool(pool, words).0.last_win.of(other)
                == s.last_win.of(other),
        s.draw_pool(pool, words).1 is None ==> s.draw_pool(pool, words).0 == s,
        s.draw_pool(pool, words).1 matches Some(winner) ==> {
            &&& s.cooldown_eligible(pool).contains(winner)
            &&& s.members_of(pool.name_text()).contains(winner)
            &&& s.cooled_down(pool, winner)
            &&& s.pays(pool)
            &&& s.draw_pool(pool, words).0 == s.settle_win(pool, winner)
            &&& s.draw_pool(pool, words).0.last_win.of(pool) == s.last_win.of(pool).insert(
                winner,
                s.current_epoch,
            )
        },
{
    let candidates = s.cooldown_eligible(pool);
    if let Some(winner) = s.draw_pool(pool, words).1 {
        let i = choose|i: int| 0 <= i < candidates.len() && candidates[i] == winner;
        s.members_of(pool.name_text()).lemma_filter_pred(s.cooled(pool), i);
        s.members_of(pool.name_text()).lemma_filter_contains_rev(s.cooled(pool), winner);
    }
}

/// The turns of the first `k` pools leave alone what the later pools' turns
/// depend on: the pools, the parameters, the epoch, and the last wins of the
/// pools still to come.
pub proof fn lemma_draw_first(s: LedgerView, k: nat, words: Seq<u32>)
    requires
        k <= 4,
    ensures
        s.draw_first(k, words).winners.len() == k,
        s.draw_first(k, words).ledger.pools == s.pools,
        s.draw_first(k, words).ledger.config == s.config,
        s.draw_first(k, words).ledger.current_epoch == s.current_epoch,
        s.draw_first(k, words).ledger.eligible == s.eligible,
        s.draw_first(k, words).ledger.events == s.events,
        forall|pool: RewardPool|
            pool.position() >= k ==> #[trigger] s.draw_first(k, words).ledger.last_win.of(pool)
                == s.last_win.of(pool),
        forall|pool: RewardPool|
            pool.position() < k ==> #[trigger] s.draw_first(k, words).ledger.last_win.of(pool)
                == match s.draw_first(k, words).winners[pool.position()] {
                Some(winner) => s.last_win.of(pool).insert(winner, s.current_epoch),
                None => s.last_win.of(pool),
            },
        forall|pool: RewardPool|
            #![trigger s.draw_first(k, words).winners[pool.position()]]
            pool.position() < k ==> match s.draw_first(k, words).winners[pool.position()] {
                Some(winner) => s.cooldown_eligible(pool).contains(winner) && s.cooled_down(
                    pool,
                    winner,
                ) && s.members_of(pool.name_text()).contains(winner),
                None => true,
            },
    decreases k,
{
    if k > 0 {
        let before = s.draw_first((k - 1) as nat, words);
        let turn = RewardPool::at(k - 1);
        lemma_draw_first(s, (k - 1) as nat, words);
        lemma_draw_pool(before.ledger, turn, before.words);
        assert(turn.position() == k - 1);
        assert(before.ledger.cooldown_eligible(turn) == s.cooldown_eligible(turn)) by {
            assert(before.ledger.cooled(turn) =~= s.cooled(turn)) by {
                assert forall|a: Seq<char>| before.ledger.cooled_down(turn, a) == s.cooled_down(
                    turn,
                    a,
                ) by {}
            }
        }
        let after = s.draw_first(k, words);
        assert forall|pool: RewardPool| pool.position() < k implies #[trigger] after.ledger.last_win.of(
            pool,
        ) == match after.winners[pool.position()] {
            Some(winner) => s.last_win.of(pool).insert(winner, s.current_epoch),
            None => s.last_win.of(pool),
        } by {
            if pool.position() < k - 1 {
                assert(pool != turn);
                assert(after.winners[pool.position()] == before.winners[pool.position()]);
            } else {
                assert(pool == turn);
            }
        }
        assert forall|pool: RewardPool|
            #![trigger after.winners[pool.position()]]
            pool.position() < k implies match after.winners[pool.position()] {
            Some(winner) => s.cooldown_eligible(pool).contains(winner) && s.cooled_down(
                pool,
                winner,
            ) && s.members_of(pool.name_text()).contains(winner),
            None => true,
        } by {
            if pool.position() < k - 1 {
                assert(after.winners[pool.position()] == before.winners[pool.position()]);
            } else {
                assert(pool == turn);
            }
        }
    }
}

/// The members among whom a pool's winner is drawn when its turn comes are
/// those who had cooled down when the distribution began: the turns of the
/// pools before it change neither its members nor its last wins.
pub proof fn lemma_candidates_at_turn(s: LedgerView, k: nat, words: Seq<u32>)
    requires
        k < 4,
    ensures
        s.draw_first(k, words).ledger.cooldown_eligible(RewardPool::at(k as int))
            == s.cooldown_eligible(RewardPool::at(k as int)),
        s.draw_first(k, words).ledger.config == s.config,
        s.draw_first(k, words).ledger.total_supply >= s.total_supply,
{
    let turn = RewardPool::at(k as int);
    let before = s.draw_first(k, words).ledger;
    lemma_draw_first(s, k, words);
    lemma_draws_supply(s, k, words);
    assert(turn.position() == k);
    assert(before.cooled(turn) =~= s.cooled(turn)) by {
        assert forall|a: Seq<char>| before.cooled_down(turn, a) == s.cooled_down(turn, a) by {}
    }
}

/// The winner of a pool is one of its members who had cooled down when the
/// distribution began, and the distribution records the win for the epoch it
/// was made in. A pool with no such member has no winner.
pub proof fn lemma_winner_was_a_candidate(s: LedgerView, seed: u64, pool: RewardPool)
    ensures
        s.distribute(seed).winners.len() == 4,
        s.distribute(seed).winners[pool.position()] matches Some(winner) ==> {
            &&& s.members_of(pool.name_text()).contains(winner)
            &&& s.cooled_down(pool, winner)
            &&& s.distribute(seed).ledger.last_win.of(pool) == s.last_win.of(pool).insert(
                winner,
                s.current_epoch,
            )
        },
        s.distribute(seed).winners[pool.position()] is None ==> s.distribute(
            seed,
        ).ledger.last_win.of(pool) == s.last_win.of(pool),
        s.cooldown_eligible(pool).len() == 0 ==> s.distribute(seed).winners[pool.position()]
            is None,
{
    let words = crate::draw::seeded_words(seed);
    lemma_draw_first(s, 4, words);
    let done = s.draw_first(4, words);
    assert(done.winners[pool.position()] == s.distribute(seed).winners[pool.position()]);
    if s.cooldown_eligible(pool).len() == 0 {
        if let Some(winner) = done.winners[pool.position()] {
            assert(s.cooldown_eligible(pool).contains(winner));
        }
    }
}

/// A distribution never lowers the supply, and keeps it within the cap if it
/// was within it at the start. Under a cap below the largest value it keeps
/// a backed ledger backed.
pub proof fn lemma_distribution_supply(s: LedgerView, seed: u64)
    ensures
        s.distribute(seed).ledger.total_supply >= s.total_supply,
        s.total_supply <= s.config.max_supply ==> s.distribute(seed).ledger.total_supply
            <= s.config.max_supply,
        s.backed() && s.config.max_supply < u128::MAX ==> s.distribute(seed).ledger.backed(),
{
    lemma_draws_supply(s, 4, crate::draw::seeded_words(seed));
}

/// The same of the turns of the first `k` pools.
pub proof fn lemma_draws_supply(s: LedgerView, k: nat, words: Seq<u32>)
    requires
        k <= 4,
    ensures
        s.draw_first(k, words).ledger.total_supply >= s.total_supply,
        s.draw_first(k, words).ledger.config == s.config,
        s.total_supply <= s.config.max_supply ==> s.draw_first(k, words).ledger.total_supply
            <= s.config.max_supply,
        s.backed() && s.config.max_supply < u128::MAX ==> s.draw_first(k, words).ledger.backed(),
    decreases k,
{
    if k > 0 {
        let before = s.draw_first((k - 1) as nat, words);
        let turn = RewardPool::at(k - 1);
        lemma_draws_supply(s, (k - 1) as nat, words);
        lemma_draw_pool(before.ledger, turn, before.words);
        if let Some(winner) = before.ledger.draw_pool(turn, before.words).1 {
            let reward = before.ledger.config.reward_of(turn);
            if before.ledger.backed() && s.config.max_supply < u128::MAX {
                lemma_mint_keeps_backing(before.ledger, winner, reward);
            }
        }
    }
}

/// A member whose last win in a pool lies less than the cooldown back does
/// not win in that pool, whatever the seed.
pub proof fn lemma_cooling_member_does_not_win(
    s: LedgerView,
    seed: u64,
    pool: RewardPool,
    account: Seq<char>,
)
    requires
        s.last_win.of(pool).contains_key(account),
        epochs_since(s.current_epoch, s.last_win.of(pool)[account]) < s.config.cooldown_epochs,
    ensures
        s.distribute(seed).winners[pool.position()] != Some(account),
{
    lemma_winner_was_a_candidate(s, seed, pool);
}

/// A member who wins in a pool at epoch `E` does not win in it again at any
/// epoch before `E` plus the cooldown, whatever the seeds and whatever
/// happened in between, as long as that win is still its last one on record.
/// Where every member is cooling down, the pool has no winner at all.
pub proof fn lemma_winner_sits_out_the_cooldown(
    s: LedgerView,
    seed: u64,
    pool: RewardPool,
    account: Seq<char>,
    later: LedgerView,
    later_seed: u64,
)
    requires
        s.distribute(seed).winners[pool.position()] == Some(account),
        later.last_win.of(pool).contains_key(account),
        later.last_win.of(pool)[account] == s.distribute(seed).ledger.last_win.of(pool)[account],
        later.config.cooldown_epochs > 0,
        later.current_epoch < s.current_epoch + later.config.cooldown_epochs,
    ensures
        later.distribute(later_seed).winners[pool.position()] != Some(account),
        (forall|other: Seq<char>|
            later.members_of(pool.name_text()).contains(other) ==> !later.cooled_down(pool, other))
            ==> later.distribute(later_seed).winners[pool.position()] is None,
{
    lemma_winner_was_a_candidate(s, seed, pool);
    lemma_winner_was_a_candidate(later, later_seed, pool);
    assert(later.last_win.of(pool)[account] == s.current_epoch);
}

/// Two distributions with the same seed name the same winners, pool by pool,
/// where the ledgers agree in pools, last wins, parameters, epoch and supply:
/// all the more where they are the same ledger.
pub proof fn lemma_same_seed_same_winners(a: LedgerView, b: LedgerView, seed: u64)
    requires
        a.pools == b.pools,
        a.last_win == b.last_win,
        a.config == b.config,
        a.current_epoch == b.current_epoch,
        a.total_supply == b.total_supply,
    ensures
        a.distribute(seed).winners == b.distribute(seed).winners,
        a == b ==> a.distribute(seed) == b.distribute(seed),
{
    lemma_same_draws(a, b, 4, crate::draw::seeded_words(seed));
}

/// The turns of the first `k` pools come out alike on two ledgers that agree
/// in what a draw depends on.
pub proof fn lemma_same_draws(a: LedgerView, b: LedgerView, k: nat, words: Seq<u32>)
    requires
        a.pools == b.pools,
        a.last_win == b.last_win,
        a.config == b.config,
        a.current_epoch == b.current_epoch,
        a.total_supply == b.total_supply,
    ensures
        a.draw_first(k, words).winners == b.draw_first(k, words).winners,
        a.draw_first(k, words).words == b.draw_first(k, words).words,
        a.draw_first(k, words).ledger.pools == b.draw_first(k, words).ledger.pools,
        a.draw_first(k, words).ledger.last_win == b.draw_first(k, words).ledger.last_win,
        a.draw_first(k, words).ledger.config == b.draw_first(k, words).ledger.config,
        a.draw_first(k, words).ledger.current_epoch == b.draw_first(
            k,
            words,
        ).ledger.current_epoch,
        a.draw_first(k, words).ledger.total_supply == b.draw_first(k, words).ledger.total_supply,
    decreases k,
{
    if k > 0 {
        lemma_same_draws(a, b, (k - 1) as nat, words);
        let x = a.draw_first((k - 1) as nat, words).ledger;
        let y = b.draw_first((k - 1) as nat, words).ledger;
        let turn = RewardPool::at(k - 1);
        assert(x.cooled(turn) =~= y.cooled(turn)) by {
            assert forall|m: Seq<char>| x.cooled_down(turn, m) == y.cooled_down(turn, m) by {}
        }
        assert(x.cooldown_eligible(turn) == y.cooldown_eligible(turn));
    }
}

} // verus!

use rand::Rng;
use rand::SeedableRng;
use rand_chacha::ChaCha20Rng;
use wecoin::config::Config;
use wecoin::ledger::WeCoinLedger;
use wecoin::reward_pool::RewardPool;

fn names(list: &[&str]) -> Vec<String> {
    list.iter().map(|s| s.to_string()).collect()
}

fn with_jurors(members: &[&str]) -> WeCoinLedger {
    let mut ledger = WeCoinLedger::new();
    for m in members {
        ledger.add_to_pool("jurors", m).unwrap();
    }
    ledger
}

#[test]
fn default_config() {
    let config = Config::default();
    assert_eq!(config.treasury_reward, 0);
    assert_eq!(config.jurors_reward, 10);
    assert_eq!(config.creators_reward, 10);
    assert_eq!(config.operators_reward, 0);
    assert_eq!(config.cooldown_epochs, 0);
    assert_eq!(config.max_supply, 2_100_000_000_000_000);
}

#[test]
fn distribution_names_the_four_pools_in_order() {
    let mut ledger = WeCoinLedger::new();
    let winners = ledger.distribute_epoch_rewards(0);
    assert_eq!(
        winners,
        vec![
            ("treasury".to_string(), None),
            ("jurors".to_string(), None),
            ("creators".to_string(), None),
            ("operators".to_string(), None),
        ]
    );
    assert_eq!(ledger.total_supply(), 0);
}

#[test]
fn one_juror_of_two_wins_ten() {
    let mut ledger = with_jurors(&["A", "B"]);
    ledger.set_cooldown_epochs(0);
    ledger.set_epoch(0);
    let winners = ledger.distribute_epoch_rewards(1);
    assert_eq!(winners.len(), 4);
    assert_eq!(winners[1].0, "jurors");
    let winner = winners[1].1.clone().expect("jurors has a winner");
    assert!(winner == "A" || winner == "B");
    let loser = if winner == "A" { "B" } else { "A" };
    assert_eq!(ledger.balance(&winner), 10);
    assert_eq!(ledger.balance(loser), 0);
    assert_eq!(ledger.total_supply(), 10);
    assert_eq!(ledger.last_win(RewardPool::Jurors, &winner), Some(0));
    assert_eq!(ledger.last_win(RewardPool::Jurors, loser), None);
    assert_eq!(ledger.last_win(RewardPool::Creators, &winner), None);
    assert_eq!(winners[0].1, None);
    assert_eq!(winners[2].1, None);
    assert_eq!(winners[3].1, None);
}

#[test]
fn reward_over_the_cap_gives_no_winner() {
    let mut ledger = with_jurors(&["A", "B"]);
    ledger.set_max_supply(5);
    ledger.set_epoch_rewards(0, 10, 10, 0);
    let winners = ledger.distribute_epoch_rewards(3);
    assert_eq!(winners[1], ("jurors".to_string(), None));
    assert_eq!(ledger.total_supply(), 0);
    assert_eq!(ledger.balance("A"), 0);
    assert_eq!(ledger.balance("B"), 0);
    assert_eq!(ledger.last_win(RewardPool::Jurors, "A"), None);
    assert_eq!(ledger.last_win(RewardPool::Jurors, "B"), None);
}

#[test]
fn cap_failure_in_one_pool_leaves_the_next_alone() {
    let mut ledger = WeCoinLedger::new();
    ledger.add_to_pool("treasury", "T").unwrap();
    ledger.add_to_pool("jurors", "J").unwrap();
    ledger.add_to_pool("creators", "C").unwrap();
    ledger.set_epoch_rewards(7, 10, 3, 0);
    ledger.set_max_supply(12);
    let winners = ledger.distribute_epoch_rewards(9);
    assert_eq!(winners[0].1, Some("T".to_string()));
    assert_eq!(winners[1].1, None);
    assert_eq!(winners[2].1, Some("C".to_string()));
    assert_eq!(winners[3].1, None);
    assert_eq!(ledger.balance("T"), 7);
    assert_eq!(ledger.balance("J"), 0);
    assert_eq!(ledger.balance("C"), 3);
    assert_eq!(ledger.total_supply(), 10);
}

#[test]
fn zero_reward_pool_still_records_its_winner() {
    let mut ledger = WeCoinLedger::new();
    ledger.add_to_pool("treasury", "T").unwrap();
    ledger.set_epoch(4);
    ledger.set_max_supply(0);
    let winners = ledger.distribute_epoch_rewards(5);
    assert_eq!(winners[0], ("treasury".to_string(), Some("T".to_string())));
    assert_eq!(ledger.balance("T"), 0);
    assert_eq!(ledger.total_supply(), 0);
    assert_eq!(ledger.last_win(RewardPool::Treasury, "T"), Some(4));
}

#[test]
fn same_seed_and_state_give_the_same_winners() {
    let members = ["A", "B", "C", "D", "E", "F", "G"];
    for seed in [0u64, 1, 2, 42, u64::MAX] {
        let mut one = with_jurors(&members);
        let mut two = with_jurors(&members);
        for m in members.iter().rev() {
            one.add_to_pool("creators", m).unwrap();
            two.add_to_pool("creators", m).unwrap();
        }
        let first = one.distribute_epoch_rewards(seed);
        let second = two.distribute_epoch_rewards(seed);
        assert_eq!(first, second);
        assert_eq!(one.total_supply(), 20);
        assert_eq!(one.distribute_epoch_rewards(seed), two.distribute_epoch_rewards(seed));
    }
}

#[test]
fn winners_follow_the_seeded_stream() {
    let members = ["A", "B", "C", "D", "E"];
    for seed in [0u64, 1, 7, 1234567] {
        let mut ledger = with_jurors(&members);
        ledger.add_to_pool("creators", "X").unwrap();
        ledger.add_to_pool("creators", "Y").unwrap();
        ledger.add_to_pool("creators", "Z").unwrap();
        let mut rng = ChaCha20Rng::seed_from_u64(seed);
        let juror: u64 = rng.gen_range(0..5u64);
        let creator: u64 = rng.gen_range(0..3u64);
        let winners = ledger.distribute_epoch_rewards(seed);
        assert_eq!(winners[1].1, Some(members[juror as usize].to_string()));
        assert_eq!(winners[2].1, Some(["X", "Y", "Z"][creator as usize].to_string()));
    }
}

#[test]
fn different_seeds_reach_different_members() {
    let members = ["A", "B", "C", "D"];
    let mut seen = std::collections::BTreeSet::new();
    for seed in 0..64u64 {
        let mut ledger = with_jurors(&members);
        let winners = ledger.distribute_epoch_rewards(seed);
        seen.insert(winners[1].1.clone().unwrap());
    }
    assert_eq!(seen.len(), 4);
}

#[test]
fn a_winner_sits_out_the_cooldown() {
    let mut ledger = with_jurors(&["A"]);
    ledger.set_cooldown_epochs(2);
    ledger.set_epoch(10);
    assert_eq!(ledger.distribute_epoch_rewards(1)[1].1, Some("A".to_string()));
    assert_eq!(ledger.last_win(RewardPool::Jurors, "A"), Some(10));
    assert_eq!(ledger.distribute_epoch_rewards(2)[1].1, None);
    ledger.set_epoch(11);
    assert_eq!(ledger.distribute_epoch_rewards(3)[1].1, None);
    assert_eq!(ledger.balance("A"), 10);
    ledger.set_epoch(12);
    assert_eq!(ledger.distribute_epoch_rewards(4)[1].1, Some("A".to_string()));
    assert_eq!(ledger.balance("A"), 20);
    assert_eq!(ledger.last_win(RewardPool::Jurors, "A"), Some(12));
}

#[test]
fn the_other_member_wins_during_a_cooldown() {
    for seed in 0..16u64 {
        let mut ledger = with_jurors(&["A", "B"]);
        ledger.set_cooldown_epochs(5);
        ledger.set_epoch(1);
        let first = ledger.distribute_epoch_rewards(seed)[1].1.clone().unwrap();
        ledger.set_epoch(2);
        let second = ledger.distribute_epoch_rewards(seed)[1].1.clone().unwrap();
        assert_ne!(first, second);
        ledger.set_epoch(3);
        assert_eq!(ledger.distribute_epoch_rewards(seed)[1].1, None);
        ledger.set_epoch(6);
        assert_eq!(ledger.distribute_epoch_rewards(seed)[1].1, Some(first.clone()));
        assert_eq!(ledger.total_supply(), 30);
    }
}

#[test]
fn a_last_win_in_the_future_does_not_wrap_into_eligibility() {
    let mut ledger = with_jurors(&["A"]);
    ledger.set_epoch(5);
    assert_eq!(ledger.distribute_epoch_rewards(1)[1].1, Some("A".to_string()));
    ledger.set_cooldown_epochs(1);
    ledger.set_epoch(3);
    assert!(ledger.cooldown_eligible(RewardPool::Jurors).is_empty());
    assert_eq!(ledger.distribute_epoch_rewards(1)[1].1, None);
    ledger.set_cooldown_epochs(0);
    assert_eq!(ledger.cooldown_eligible(RewardPool::Jurors), names(&["A"]));
    assert_eq!(ledger.distribute_epoch_rewards(1)[1].1, Some("A".to_string()));
    assert_eq!(ledger.last_win(RewardPool::Jurors, "A"), Some(3));
}

#[test]
fn cooldown_is_kept_per_pool() {
    let mut ledger = with_jurors(&["A"]);
    ledger.add_to_pool("creators", "A").unwrap();
    ledger.set_cooldown_epochs(3);
    let winners = ledger.distribute_epoch_rewards(8);
    assert_eq!(winners[1].1, Some("A".to_string()));
    assert_eq!(winners[2].1, Some("A".to_string()));
    assert_eq!(ledger.balance("A"), 20);
    ledger.clear_pool("jurors");
    ledger.add_to_pool("jurors", "A").unwrap();
    assert!(ledger.cooldown_eligible(RewardPool::Jurors).is_empty());
}

#[test]
fn cooldown_eligible_keeps_membership_order() {
    let mut ledger = with_jurors(&["A", "B", "C", "D"]);
    ledger.set_cooldown_epochs(4);
    ledger.set_epoch(20);
    assert!(ledger.settle_win(RewardPool::Jurors, "B"));
    assert_eq!(ledger.cooldown_eligible(RewardPool::Jurors), names(&["A", "C", "D"]));
    ledger.set_epoch(23);
    assert!(ledger.settle_win(RewardPool::Jurors, "D"));
    assert_eq!(ledger.cooldown_eligible(RewardPool::Jurors), names(&["A", "C"]));
    ledger.set_epoch(24);
    assert_eq!(ledger.cooldown_eligible(RewardPool::Jurors), names(&["A", "B", "C"]));
    assert!(ledger.cooldown_eligible(RewardPool::Creators).is_empty());
}

#[test]
fn settle_win_pays_and_records() {
    let mut ledger = WeCoinLedger::new();
    ledger.set_epoch_rewards(1, 2, 3, 4);
    ledger.set_epoch(9);
    assert!(ledger.settle_win(RewardPool::Operators, "W"));
    assert_eq!(ledger.balance("W"), 4);
    assert_eq!(ledger.total_supply(), 4);
    assert_eq!(ledger.last_win(RewardPool::Operators, "W"), Some(9));
    ledger.set_max_supply(6);
    assert!(!ledger.settle_win(RewardPool::Creators, "W"));
    assert_eq!(ledger.balance("W"), 4);
    assert_eq!(ledger.last_win(RewardPool::Creators, "W"), None);
    assert!(ledger.settle_win(RewardPool::Jurors, "W"));
    assert_eq!(ledger.balance("W"), 6);
    assert_eq!(ledger.total_supply(), 6);
}

#[test]
fn members_who_left_cannot_win() {
    for seed in 0..8u64 {
        let mut ledger = with_jurors(&["A", "B", "C"]);
        ledger.set_eligible("A", false);
        ledger.set_eligible("C", false);
        assert_eq!(ledger.distribute_epoch_rewards(seed)[1].1, Some("B".to_string()));
    }
}

#[test]
fn settle_draw_picks_the_candidate_at_the_index() {
    let mut ledger = with_jurors(&["A", "B", "C"]);
    let candidates = ledger.cooldown_eligible(RewardPool::Jurors);
    assert_eq!(candidates, names(&["A", "B", "C"]));
    assert_eq!(ledger.settle_draw(RewardPool::Jurors, &candidates, 2), Some("C".to_string()));
    assert_eq!(ledger.balance("C"), 10);
    assert_eq!(ledger.last_win(RewardPool::Jurors, "C"), Some(0));
    assert_eq!(ledger.settle_draw(RewardPool::Jurors, &candidates, 3), None);
    assert_eq!(ledger.total_supply(), 10);
    ledger.set_max_supply(15);
    assert_eq!(ledger.settle_draw(RewardPool::Jurors, &candidates, 0), None);
    assert_eq!(ledger.balance("A"), 0);
    assert_eq!(ledger.last_win(RewardPool::Jurors, "A"), None);
    assert_eq!(ledger.settle_draw(RewardPool::Treasury, &candidates, 0), Some("A".to_string()));
    assert_eq!(ledger.balance("A"), 0);
    assert_eq!(ledger.last_win(RewardPool::Treasury, "A"), Some(0));
    assert_eq!(ledger.settle_draw(RewardPool::Jurors, &Vec::new(), 0), None);
}

#[test]
fn supply_never_passes_the_cap_over_many_epochs() {
    let mut ledger = with_jurors(&["A", "B", "C"]);
    ledger.add_to_pool("creators", "D").unwrap();
    ledger.set_max_supply(95);
    let mut minted: u128 = 0;
    for epoch in 0..20u64 {
        ledger.set_epoch(epoch);
        let winners = ledger.distribute_epoch_rewards(epoch);
        for (_, winner) in winners {
            if winner.is_some() {
                minted += 10;
            }
        }
        assert_eq!(ledger.total_supply(), minted);
        assert!(ledger.total_supply() <= 95);
    }
    assert_eq!(ledger.total_supply(), 90);
    let held = ledger.balance("A") + ledger.balance("B") + ledger.balance("C") + ledger.balance("D");
    assert_eq!(held, 90);
}

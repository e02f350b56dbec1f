use wecoin::ledger::WeCoinLedger;

#[test]
fn fresh_ledger_holds_nothing() {
    let ledger = WeCoinLedger::new();
    assert_eq!(ledger.total_supply(), 0);
    assert_eq!(ledger.balance("alice"), 0);
    assert_eq!(ledger.current_epoch(), 0);
    assert!(ledger.list_all_pools().is_empty());
    assert!(ledger.list_events(None).is_empty());
}

#[test]
fn create_account_is_idempotent() {
    let mut ledger = WeCoinLedger::new();
    ledger.create_account("alice");
    assert_eq!(ledger.balance("alice"), 0);
    assert!(ledger.deposit("alice", 7));
    ledger.create_account("alice");
    assert_eq!(ledger.balance("alice"), 7);
    assert_eq!(ledger.total_supply(), 7);
}

#[test]
fn deposits_add_up_to_the_supply() {
    let mut ledger = WeCoinLedger::new();
    assert!(ledger.deposit("alice", 5));
    assert!(ledger.deposit("bob", 11));
    assert!(ledger.deposit("alice", 20));
    assert_eq!(ledger.total_supply(), 36);
    assert_eq!(ledger.balance("alice"), 25);
    assert_eq!(ledger.balance("bob"), 11);
}

#[test]
fn default_cap_is_twenty_one_million_coins() {
    let mut ledger = WeCoinLedger::new();
    let cap: u128 = 21_000_000u128 * 100_000_000u128;
    assert!(ledger.deposit("alice", cap));
    assert_eq!(ledger.total_supply(), cap);
    assert!(!ledger.deposit("alice", 1));
    assert_eq!(ledger.total_supply(), cap);
    assert_eq!(ledger.balance("alice"), cap);
}

#[test]
fn deposit_over_the_cap_changes_nothing() {
    let mut ledger = WeCoinLedger::new();
    ledger.set_max_supply(100);
    assert!(ledger.deposit("alice", 60));
    assert!(!ledger.deposit("bob", 41));
    assert_eq!(ledger.total_supply(), 60);
    assert_eq!(ledger.balance("bob"), 0);
    assert!(ledger.deposit("bob", 40));
    assert_eq!(ledger.total_supply(), 100);
    assert_eq!(ledger.balance("bob"), 40);
    assert!(ledger.deposit("bob", 0));
    assert_eq!(ledger.total_supply(), 100);
}

#[test]
fn lowering_the_cap_below_the_supply_stops_minting() {
    let mut ledger = WeCoinLedger::new();
    assert!(ledger.deposit("alice", 50));
    ledger.set_max_supply(10);
    assert!(!ledger.deposit("alice", 0));
    assert!(!ledger.deposit("alice", 1));
    assert_eq!(ledger.total_supply(), 50);
    assert_eq!(ledger.balance("alice"), 50);
}

#[test]
fn supply_and_balance_clamp_at_the_largest_value() {
    let mut ledger = WeCoinLedger::new();
    ledger.set_max_supply(u128::MAX);
    assert!(ledger.deposit("alice", u128::MAX - 1));
    assert!(ledger.deposit("alice", 5));
    assert_eq!(ledger.total_supply(), u128::MAX);
    assert_eq!(ledger.balance("alice"), u128::MAX);
    assert!(ledger.deposit("bob", 5));
    assert_eq!(ledger.total_supply(), u128::MAX);
    assert_eq!(ledger.balance("bob"), 5);
}

#[test]
fn withdraw_succeeds_iff_the_balance_covers_it() {
    let mut ledger = WeCoinLedger::new();
    assert!(ledger.deposit("alice", 50));
    assert!(ledger.deposit("bob", 8));
    assert!(!ledger.withdraw("alice", 51));
    assert_eq!(ledger.balance("alice"), 50);
    assert!(ledger.withdraw("alice", 20));
    assert_eq!(ledger.balance("alice"), 30);
    assert_eq!(ledger.balance("bob"), 8);
    assert!(ledger.withdraw("alice", 30));
    assert_eq!(ledger.balance("alice"), 0);
    assert!(!ledger.withdraw("alice", 1));
    assert_eq!(ledger.total_supply(), 58);
}

#[test]
fn withdraw_from_an_unknown_account() {
    let mut ledger = WeCoinLedger::new();
    assert!(!ledger.withdraw("nobody", 1));
    assert!(ledger.withdraw("nobody", 0));
    assert_eq!(ledger.balance("nobody"), 0);
    assert_eq!(ledger.total_supply(), 0);
}

#[test]
fn transfer_moves_tokens_and_no_supply() {
    let mut ledger = WeCoinLedger::new();
    assert!(ledger.deposit("alice", 50));
    assert!(ledger.transfer("alice", "bob", 20));
    assert_eq!(ledger.balance("alice"), 30);
    assert_eq!(ledger.balance("bob"), 20);
    assert_eq!(ledger.total_supply(), 50);
}

#[test]
fn failed_transfer_leaves_both_sides_alone() {
    let mut ledger = WeCoinLedger::new();
    assert!(ledger.deposit("alice", 50));
    assert!(ledger.deposit("bob", 3));
    assert!(!ledger.transfer("alice", "bob", 51));
    assert_eq!(ledger.balance("alice"), 50);
    assert_eq!(ledger.balance("bob"), 3);
    assert!(!ledger.transfer("nobody", "bob", 1));
    assert_eq!(ledger.balance("bob"), 3);
}

#[test]
fn transfer_is_withdraw_then_credit() {
    let mut one = WeCoinLedger::new();
    let mut two = WeCoinLedger::new();
    assert!(one.deposit("alice", 50));
    assert!(two.deposit("alice", 50));
    assert!(one.transfer("alice", "bob", 17));
    assert!(two.withdraw("alice", 17));
    assert_eq!(one.balance("alice"), two.balance("alice"));
    assert_eq!(one.balance("bob"), 17);
    assert_eq!(one.total_supply(), two.total_supply());
}

#[test]
fn transfer_to_oneself_keeps_the_balance() {
    let mut ledger = WeCoinLedger::new();
    assert!(ledger.deposit("alice", 50));
    assert!(ledger.transfer("alice", "alice", 50));
    assert_eq!(ledger.balance("alice"), 50);
    assert!(!ledger.transfer("alice", "alice", 51));
    assert_eq!(ledger.balance("alice"), 50);
}

#[test]
fn transfer_credit_clamps() {
    let mut ledger = WeCoinLedger::new();
    ledger.set_max_supply(u128::MAX);
    assert!(ledger.deposit("alice", u128::MAX));
    assert!(ledger.deposit("bob", 10));
    assert!(ledger.transfer("bob", "alice", 10));
    assert_eq!(ledger.balance("alice"), u128::MAX);
    assert_eq!(ledger.balance("bob"), 0);
}

#[test]
fn slash_moves_funds_to_the_pool_account() {
    let mut ledger = WeCoinLedger::new();
    assert!(ledger.deposit("A", 50));
    let supply = ledger.total_supply();
    assert!(ledger.slash("A", 30, "jurors"));
    assert_eq!(ledger.balance("A"), 20);
    assert_eq!(ledger.total_supply(), supply);
    assert_eq!(ledger.balance("pool:jurors"), 30);
    assert_eq!(ledger.balance("jurors"), 0);
}

#[test]
fn slash_beyond_the_balance_changes_nothing() {
    let mut ledger = WeCoinLedger::new();
    assert!(ledger.deposit("A", 50));
    assert!(!ledger.slash("A", 51, "jurors"));
    assert_eq!(ledger.balance("A"), 50);
    assert_eq!(ledger.balance("pool:jurors"), 0);
    assert_eq!(ledger.total_supply(), 50);
}

#[test]
fn slashed_funds_add_up_per_pool() {
    let mut ledger = WeCoinLedger::new();
    assert!(ledger.deposit("A", 50));
    assert!(ledger.deposit("B", 5));
    assert!(ledger.slash("A", 10, "guild"));
    assert!(ledger.slash("B", 5, "guild"));
    assert!(ledger.slash("A", 1, ""));
    assert_eq!(ledger.balance("pool:guild"), 15);
    assert_eq!(ledger.balance("pool:"), 1);
    assert_eq!(ledger.balance("A"), 39);
    assert!(ledger.withdraw("pool:guild", 15));
}

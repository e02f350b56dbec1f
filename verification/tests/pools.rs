use wecoin::error::LedgerError;
use wecoin::ledger::WeCoinLedger;
use wecoin::pools::copy_texts;
use wecoin::pools::position;
use wecoin::reward_pool::RewardPool;
use wecoin::text::text_eq;

fn names(list: &[&str]) -> Vec<String> {
    list.iter().map(|s| s.to_string()).collect()
}

#[test]
fn text_eq_compares_contents() {
    assert!(text_eq("", ""));
    assert!(text_eq("jurors", "jurors"));
    assert!(!text_eq("jurors", "juror"));
    assert!(!text_eq("jurors", "Jurors"));
    assert!(text_eq("caf\u{e9}", "caf\u{e9}"));
    assert!(!text_eq("caf\u{e9}", "cafe"));
}

#[test]
fn position_finds_the_entry() {
    let list = names(&["a", "b", "c"]);
    assert_eq!(position(&list, "a"), Some(0));
    assert_eq!(position(&list, "c"), Some(2));
    assert_eq!(position(&list, "d"), None);
    assert_eq!(position(&Vec::new(), "a"), None);
    assert_eq!(copy_texts(&list), list);
}

#[test]
fn reward_pools_have_their_names_and_order() {
    assert_eq!(RewardPool::Treasury.name(), "treasury");
    assert_eq!(RewardPool::Jurors.name(), "jurors");
    assert_eq!(RewardPool::Creators.name(), "creators");
    assert_eq!(RewardPool::Operators.name(), "operators");
    assert_eq!(RewardPool::in_order(0), RewardPool::Treasury);
    assert_eq!(RewardPool::in_order(1), RewardPool::Jurors);
    assert_eq!(RewardPool::in_order(2), RewardPool::Creators);
    assert_eq!(RewardPool::in_order(3), RewardPool::Operators);
    assert_eq!(RewardPool::from_name("creators"), Some(RewardPool::Creators));
    assert_eq!(RewardPool::from_name("operators"), Some(RewardPool::Operators));
    assert_eq!(RewardPool::from_name("treasury"), Some(RewardPool::Treasury));
    assert_eq!(RewardPool::from_name("jurors"), Some(RewardPool::Jurors));
    assert_eq!(RewardPool::from_name("pool:jurors"), None);
    assert_eq!(RewardPool::from_name(""), None);
}

#[test]
fn unknown_pool_has_no_members() {
    let ledger = WeCoinLedger::new();
    assert!(ledger.list_pool_members("jurors").is_empty());
    assert!(ledger.list_all_pools().is_empty());
}

#[test]
fn add_to_pool_keeps_a_set_in_joining_order() {
    let mut ledger = WeCoinLedger::new();
    assert_eq!(ledger.add_to_pool("jurors", "B"), Ok(()));
    assert_eq!(ledger.add_to_pool("jurors", "A"), Ok(()));
    assert_eq!(ledger.add_to_pool("jurors", "B"), Ok(()));
    assert_eq!(ledger.list_pool_members("jurors"), names(&["B", "A"]));
    assert_eq!(ledger.add_to_pool("guild", "A"), Ok(()));
    assert_eq!(ledger.list_pool_members("guild"), names(&["A"]));
    assert_eq!(ledger.balance("A"), 0);
}

#[test]
fn operators_pool_takes_eligible_accounts_only() {
    let mut ledger = WeCoinLedger::new();
    assert_eq!(ledger.add_to_pool("operators", "X"), Err(LedgerError::PermissionDenied));
    assert!(ledger.list_pool_members("operators").is_empty());
    assert!(ledger.list_all_pools().is_empty());
    assert!(!ledger.is_eligible("X"));
    ledger.set_eligible("X", true);
    assert!(ledger.is_eligible("X"));
    assert_eq!(ledger.add_to_pool("operators", "X"), Ok(()));
    assert_eq!(ledger.add_to_pool("operators", "X"), Ok(()));
    assert_eq!(ledger.list_pool_members("operators"), names(&["X"]));
    assert_eq!(ledger.add_to_pool("operators", "Y"), Err(LedgerError::PermissionDenied));
    assert_eq!(ledger.list_pool_members("operators"), names(&["X"]));
}

#[test]
fn other_pools_take_any_account() {
    let mut ledger = WeCoinLedger::new();
    assert_eq!(ledger.add_to_pool("treasury", "X"), Ok(()));
    assert_eq!(ledger.add_to_pool("jurors", "X"), Ok(()));
    assert_eq!(ledger.add_to_pool("creators", "X"), Ok(()));
    assert_eq!(ledger.add_to_pool("Operators", "X"), Ok(()));
    assert_eq!(ledger.list_all_pools().len(), 4);
}

#[test]
fn losing_eligibility_leaves_every_pool() {
    let mut ledger = WeCoinLedger::new();
    ledger.set_eligible("X", true);
    ledger.set_eligible("Y", true);
    for pool in ["operators", "jurors", "guild"] {
        assert_eq!(ledger.add_to_pool(pool, "W"), if pool == "operators" {
            Err(LedgerError::PermissionDenied)
        } else {
            Ok(())
        });
        assert_eq!(ledger.add_to_pool(pool, "X"), Ok(()));
        assert_eq!(ledger.add_to_pool(pool, "Y"), Ok(()));
    }
    ledger.set_eligible("X", false);
    assert!(!ledger.is_eligible("X"));
    assert!(ledger.is_eligible("Y"));
    assert_eq!(ledger.list_pool_members("operators"), names(&["Y"]));
    assert_eq!(ledger.list_pool_members("jurors"), names(&["W", "Y"]));
    assert_eq!(ledger.list_pool_members("guild"), names(&["W", "Y"]));
    assert_eq!(ledger.add_to_pool("operators", "X"), Err(LedgerError::PermissionDenied));
    assert_eq!(ledger.add_to_pool("jurors", "X"), Ok(()));
    assert_eq!(ledger.list_pool_members("jurors"), names(&["W", "Y", "X"]));
}

#[test]
fn clearing_eligibility_of_an_account_that_never_had_it() {
    let mut ledger = WeCoinLedger::new();
    assert_eq!(ledger.add_to_pool("jurors", "X"), Ok(()));
    ledger.set_eligible("X", false);
    assert!(ledger.list_pool_members("jurors").is_empty());
    assert_eq!(ledger.list_all_pools(), vec![("jurors".to_string(), Vec::<String>::new())]);
}

#[test]
fn clear_pool_empties_and_creates() {
    let mut ledger = WeCoinLedger::new();
    assert_eq!(ledger.add_to_pool("jurors", "A"), Ok(()));
    assert_eq!(ledger.add_to_pool("creators", "B"), Ok(()));
    ledger.clear_pool("jurors");
    ledger.clear_pool("guild");
    assert!(ledger.list_pool_members("jurors").is_empty());
    assert!(ledger.list_pool_members("guild").is_empty());
    let mut all = ledger.list_all_pools();
    all.sort();
    assert_eq!(
        all,
        vec![
            ("creators".to_string(), names(&["B"])),
            ("guild".to_string(), Vec::new()),
            ("jurors".to_string(), Vec::new()),
        ]
    );
    assert_eq!(ledger.add_to_pool("jurors", "C"), Ok(()));
    assert_eq!(ledger.list_pool_members("jurors"), names(&["C"]));
}

#[test]
fn error_messages() {
    assert_eq!(LedgerError::PermissionDenied.message(), "operator not eligible");
    assert_eq!(LedgerError::InvalidPayload.message(), "Invalid JSON");
}

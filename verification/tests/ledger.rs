use exchange_engine::ledger::Ledger;
use exchange_engine::units::UNIT;

/// `n` whole units as a signed fixed-point amount.
fn d(n: i128) -> i128 {
    n * UNIT as i128
}

#[test]
fn test_get_account_mut_initialization() {
    let mut ledger = Ledger::new();
    let user_id = 1;
    let asset = "USDT".to_string();

    // 1. Accessing a non-existent account should initialize it to zero
    {
        let account = ledger.get_account_mut(user_id, asset.clone());
        assert_eq!(account.available, d(0));
        assert_eq!(account.locked, d(0));

        // Modify the account
        account.available = d(100);
    }

    // 2. Accessing it again should return the modified value, not a new zeroed one
    let account_again = ledger.get_account_mut(user_id, asset);
    assert_eq!(account_again.available, d(100));
}

#[test]
fn test_multiple_assets_per_user() {
    let mut ledger = Ledger::new();
    let user_id = 1;

    // Initialize two different assets for the same user
    ledger.get_account_mut(user_id, "BTC".to_string()).available = d(1);
    ledger.get_account_mut(user_id, "USDT".to_string()).available = d(50000);

    assert_eq!(ledger.get_account_mut(user_id, "BTC".to_string()).available, d(1));
    assert_eq!(ledger.get_account_mut(user_id, "USDT".to_string()).available, d(50000));
}

#[test]
fn ledger_accounts_of_different_users_are_separate() {
    let mut ledger = Ledger::new();
    ledger.get_account_mut(1, "BTC".to_string()).locked = d(3);
    assert_eq!(ledger.get_account_mut(2, "BTC".to_string()).locked, d(0));
    assert_eq!(ledger.get_account_mut(1, "BTC".to_string()).locked, d(3));
    assert_eq!(ledger.get_account_mut(1, "btc".to_string()).locked, d(0));
}

use remitwise::common::FamilyRole;
use remitwise::wallet::{Error, FamilyWallet, PrecisionSpendingLimit};

const OWNER: u64 = 1;
const MEMBER: u64 = 2;
const ADMIN: u64 = 5;
const UNAUTHORIZED: u64 = 66;
const RECIPIENT: u64 = 50;
const TOKEN: u64 = 900;

fn wallet_with_member(limit: i128) -> FamilyWallet {
    let mut w = FamilyWallet::new();
    w.init(OWNER, &vec![], 0).unwrap();
    w.add_member(OWNER, MEMBER, FamilyRole::Member, limit, 0).unwrap();
    w
}

fn withdraw(w: &mut FamilyWallet, who: u64, amount: i128, now: u64) -> Result<u64, Error> {
    w.try_withdraw(who, TOKEN, RECIPIENT, amount, now).map(|(id, _)| id)
}

#[test]
fn test_set_precision_spending_limit_success() {
    let mut w = wallet_with_member(1000_0000000);
    let limit = PrecisionSpendingLimit {
        limit: 5000_0000000,
        min_precision: 1_0000000,
        max_single_tx: 2000_0000000,
        enable_rollover: true,
    };
    assert_eq!(w.set_precision_spending_limit(OWNER, MEMBER, limit, 0), Ok(true));
}

#[test]
fn test_set_precision_spending_limit_unauthorized() {
    let mut w = wallet_with_member(1000_0000000);
    let limit = PrecisionSpendingLimit {
        limit: 5000_0000000,
        min_precision: 1_0000000,
        max_single_tx: 2000_0000000,
        enable_rollover: true,
    };
    assert_eq!(w.try_set_precision_spending_limit(UNAUTHORIZED, MEMBER, limit, 0), Err(Error::Unauthorized));
}

#[test]
fn test_set_precision_spending_limit_invalid_config() {
    let mut w = wallet_with_member(1000_0000000);
    let negative = PrecisionSpendingLimit { limit: -1000_0000000, min_precision: 1_0000000, max_single_tx: 500_0000000, enable_rollover: true };
    assert_eq!(w.try_set_precision_spending_limit(OWNER, MEMBER, negative, 0), Err(Error::InvalidPrecisionConfig));
    let zero = PrecisionSpendingLimit { limit: 1000_0000000, min_precision: 0, max_single_tx: 500_0000000, enable_rollover: true };
    assert_eq!(w.try_set_precision_spending_limit(OWNER, MEMBER, zero, 0), Err(Error::InvalidPrecisionConfig));
    let over = PrecisionSpendingLimit { limit: 1000_0000000, min_precision: 1_0000000, max_single_tx: 2000_0000000, enable_rollover: true };
    assert_eq!(w.try_set_precision_spending_limit(OWNER, MEMBER, over, 0), Err(Error::InvalidPrecisionConfig));
}

#[test]
fn test_validate_precision_spending_below_minimum() {
    let mut w = wallet_with_member(1000_0000000);
    let limit = PrecisionSpendingLimit { limit: 5000_0000000, min_precision: 10_0000000, max_single_tx: 2000_0000000, enable_rollover: true };
    assert_eq!(w.try_set_precision_spending_limit(OWNER, MEMBER, limit, 0), Ok(true));
    assert!(withdraw(&mut w, MEMBER, 5_0000000, 0).is_err());
}

#[test]
fn test_validate_precision_spending_exceeds_single_tx_limit() {
    let mut w = wallet_with_member(1000_0000000);
    let limit = PrecisionSpendingLimit { limit: 5000_0000000, min_precision: 1_0000000, max_single_tx: 1000_0000000, enable_rollover: true };
    assert_eq!(w.try_set_precision_spending_limit(OWNER, MEMBER, limit, 0), Ok(true));
    assert!(withdraw(&mut w, MEMBER, 1500_0000000, 0).is_err());
}

#[test]
fn test_cumulative_spending_within_period_limit() {
    let mut w = wallet_with_member(1000_0000000);
    let limit = PrecisionSpendingLimit { limit: 1000_0000000, min_precision: 1_0000000, max_single_tx: 500_0000000, enable_rollover: true };
    assert_eq!(w.set_precision_spending_limit(OWNER, MEMBER, limit, 0), Ok(true));
    assert_eq!(withdraw(&mut w, MEMBER, 400_0000000, 0), Ok(0));
    assert_eq!(withdraw(&mut w, MEMBER, 500_0000000, 0), Ok(0));
    assert!(withdraw(&mut w, MEMBER, 200_0000000, 0).is_err());
}

#[test]
fn test_spending_period_rollover_resets_limits() {
    let mut w = wallet_with_member(1000_0000000);
    let limit = PrecisionSpendingLimit { limit: 1000_0000000, min_precision: 1_0000000, max_single_tx: 1000_0000000, enable_rollover: true };
    assert_eq!(w.set_precision_spending_limit(OWNER, MEMBER, limit, 0), Ok(true));
    let day_start = 1640995200u64;
    assert_eq!(withdraw(&mut w, MEMBER, 1000_0000000, day_start), Ok(0));
    assert!(withdraw(&mut w, MEMBER, 1_0000000, day_start).is_err());
    let next_day = day_start + 86400;
    assert_eq!(withdraw(&mut w, MEMBER, 500_0000000, next_day), Ok(0));
}

#[test]
fn test_spending_tracker_persistence() {
    let mut w = wallet_with_member(1000_0000000);
    let limit = PrecisionSpendingLimit { limit: 1000_0000000, min_precision: 1_0000000, max_single_tx: 500_0000000, enable_rollover: true };
    assert_eq!(w.set_precision_spending_limit(OWNER, MEMBER, limit, 0), Ok(true));
    assert_eq!(withdraw(&mut w, MEMBER, 300_0000000, 0), Ok(0));
    let tracker = w.get_spending_tracker(MEMBER).unwrap();
    assert_eq!(tracker.current_spent, 300_0000000);
    assert_eq!(tracker.tx_count, 1);
    assert_eq!(withdraw(&mut w, MEMBER, 200_0000000, 0), Ok(0));
    let tracker = w.get_spending_tracker(MEMBER).unwrap();
    assert_eq!(tracker.current_spent, 500_0000000);
    assert_eq!(tracker.tx_count, 2);
}

#[test]
fn test_owner_admin_bypass_precision_limits() {
    let mut w = FamilyWallet::new();
    w.init(OWNER, &vec![], 0).unwrap();
    w.add_member(OWNER, ADMIN, FamilyRole::Admin, 1000_0000000, 0).unwrap();
    assert!(withdraw(&mut w, OWNER, 10000_0000000, 0).unwrap() > 0);
    assert!(withdraw(&mut w, ADMIN, 10000_0000000, 0).unwrap() > 0);
}

#[test]
fn test_legacy_spending_limit_fallback() {
    let mut w = wallet_with_member(500_0000000);
    assert_eq!(withdraw(&mut w, MEMBER, 400_0000000, 0), Ok(0));
    assert!(withdraw(&mut w, MEMBER, 600_0000000, 0).is_err());
}

#[test]
fn test_precision_validation_edge_cases() {
    let mut w = wallet_with_member(1000_0000000);
    let limit = PrecisionSpendingLimit { limit: 1000_0000000, min_precision: 1_0000000, max_single_tx: 1000_0000000, enable_rollover: true };
    assert_eq!(w.try_set_precision_spending_limit(OWNER, MEMBER, limit, 0), Ok(true));
    assert!(withdraw(&mut w, MEMBER, 0, 0).is_err());
    assert!(withdraw(&mut w, MEMBER, -100_0000000, 0).is_err());
    assert_eq!(withdraw(&mut w, MEMBER, 1_0000000, 0), Ok(0));
    assert!(withdraw(&mut w, MEMBER, 1000_0000000, 0).is_err());
}

#[test]
fn test_rollover_validation_prevents_manipulation() {
    let mut w = wallet_with_member(1000_0000000);
    let limit = PrecisionSpendingLimit { limit: 1000_0000000, min_precision: 1_0000000, max_single_tx: 500_0000000, enable_rollover: true };
    assert_eq!(w.set_precision_spending_limit(OWNER, MEMBER, limit, 0), Ok(true));
    let mid_day = 1640995200u64 + 43200;
    if let Some(tracker) = w.get_spending_tracker(MEMBER) {
        let expected_start = (mid_day / 86400) * 86400;
        assert_eq!(tracker.period.period_start, expected_start);
    }
    assert_eq!(withdraw(&mut w, MEMBER, 100_0000000, mid_day), Ok(0));
    let tracker = w.get_spending_tracker(MEMBER).unwrap();
    assert_eq!(tracker.period.period_start, (mid_day / 86400) * 86400);
}

#[test]
fn test_disabled_rollover_only_checks_single_tx_limits() {
    let mut w = wallet_with_member(1000_0000000);
    let limit = PrecisionSpendingLimit { limit: 500_0000000, min_precision: 1_0000000, max_single_tx: 400_0000000, enable_rollover: false };
    assert_eq!(w.set_precision_spending_limit(OWNER, MEMBER, limit, 0), Ok(true));
    assert_eq!(withdraw(&mut w, MEMBER, 400_0000000, 0), Ok(0));
    assert_eq!(withdraw(&mut w, MEMBER, 400_0000000, 0), Ok(0));
    assert!(withdraw(&mut w, MEMBER, 500_0000000, 0).is_err());
}

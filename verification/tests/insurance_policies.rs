use remitwise::common::CoverageType;
use remitwise::insurance::{Insurance, InsuranceError};

const ADMIN: u64 = 1;
const CALLER: u64 = 2;
const OTHER: u64 = 3;
const PERIOD: u64 = 30 * 86_400;
const RATIO: i128 = 12 * 500;

fn registry() -> Insurance {
    let mut ins = Insurance::new();
    assert_eq!(ins.init(ADMIN), Ok(()));
    ins
}

fn try_create(ct: CoverageType, premium: i128, coverage: i128) -> bool {
    let mut ins = registry();
    ins.create_policy(CALLER, "P".to_string(), ct, premium, coverage, 0).is_ok()
}

fn create_policy_at(ins: &mut Insurance, owner: u64, t: u64) -> u32 {
    ins.create_policy(owner, "Policy".to_string(), CoverageType::Health, 1_000, 10_000, t).unwrap()
}

fn due_date(ins: &Insurance, id: u32) -> u64 {
    ins.get_policy(id).unwrap().unwrap().next_payment_date
}

#[test]
fn ratio_boundary_exact_is_accepted() {
    let mut ins = registry();
    let premium = 1_000_000i128;
    let coverage = premium * RATIO;
    let id = ins.create_policy(CALLER, "P".to_string(), CoverageType::Health, premium, coverage, 0).unwrap();
    assert_eq!(id, 1);
    let p = ins.get_policy(id).unwrap().expect("policy should exist");
    assert_eq!(p.coverage_amount, coverage);
    assert_eq!(p.monthly_premium, premium);
}

#[test]
fn ratio_boundary_plus_one_is_rejected() {
    let mut ins = registry();
    let premium = 1_000_000i128;
    let coverage = premium * RATIO + 1;
    let r = ins.create_policy(CALLER, "P".to_string(), CoverageType::Health, premium, coverage, 0);
    assert!(r.is_err());
}

#[test]
fn ratio_boundary_exact_vs_plus_one_all_types() {
    let premium = 10_000_000i128;
    let boundary = premium * RATIO;
    for ct in [
        CoverageType::Health,
        CoverageType::Life,
        CoverageType::Property,
        CoverageType::Auto,
        CoverageType::Liability,
    ] {
        assert!(try_create(ct, premium, boundary));
        assert!(!try_create(ct, premium, boundary + 1));
    }
}

#[test]
fn ratio_passes_but_type_coverage_bound_fails() {
    let premium = 400_000_000_000i128;
    let coverage = 60_000_000_000_000i128;
    assert!(coverage < premium * RATIO);
    assert!(!try_create(CoverageType::Liability, premium, coverage));
}

#[test]
fn type_bounds_pass_but_ratio_fails() {
    let premium = 1i128;
    let coverage = 1_000_000i128;
    assert!(coverage > premium * RATIO);
    assert!(!try_create(CoverageType::Health, premium, coverage));
}

#[test]
fn test_pay_premium_on_time_advances_one_period() {
    let mut ins = registry();
    let id = create_policy_at(&mut ins, CALLER, 1_000_000);
    let due = due_date(&ins, id);
    assert_eq!(ins.pay_premium(CALLER, id, due), Ok(true));
    assert_eq!(due_date(&ins, id), due + PERIOD);
}

#[test]
fn test_pay_premium_early_keeps_cadence_anchored_to_due_date() {
    let mut ins = registry();
    let id = create_policy_at(&mut ins, CALLER, 1_000_000);
    let due = due_date(&ins, id);
    assert_eq!(ins.pay_premium(CALLER, id, due - 10), Ok(true));
    assert_eq!(due_date(&ins, id), due + PERIOD);
}

#[test]
fn test_pay_premium_late_moves_due_to_future_date() {
    let mut ins = registry();
    let id = create_policy_at(&mut ins, CALLER, 1_000_000);
    let due = due_date(&ins, id);
    let now = due + 95 * 86_400;
    assert_eq!(ins.pay_premium(CALLER, id, now), Ok(true));
    let next = due_date(&ins, id);
    assert!(next > now);
    assert_eq!(next, due + 4 * PERIOD);
}

#[test]
fn new_policy_is_due_one_period_after_creation() {
    let mut ins = registry();
    let id = create_policy_at(&mut ins, CALLER, 5_000);
    let p = ins.get_policy(id).unwrap().unwrap();
    assert_eq!(p.next_payment_date, 5_000 + PERIOD);
    assert!(p.active);
    assert_eq!(p.owner, CALLER);
}

#[test]
fn policy_ids_are_sequential_from_one() {
    let mut ins = registry();
    assert_eq!(create_policy_at(&mut ins, CALLER, 0), 1);
    assert_eq!(create_policy_at(&mut ins, OTHER, 0), 2);
    assert_eq!(create_policy_at(&mut ins, CALLER, 0), 3);
}

#[test]
fn create_before_init_is_refused() {
    let mut ins = Insurance::new();
    let r = ins.create_policy(CALLER, "P".to_string(), CoverageType::Health, 1_000, 10_000, 0);
    assert_eq!(r, Err(InsuranceError::NotInitialized));
    assert!(matches!(ins.get_policy(1), Err(InsuranceError::NotInitialized)));
}

#[test]
fn init_twice_is_refused() {
    let mut ins = registry();
    assert_eq!(ins.init(OTHER), Err(InsuranceError::AlreadyInitialized));
    assert_eq!(ins.get_owner(), Some(ADMIN));
}

#[test]
fn empty_name_is_refused() {
    let mut ins = registry();
    let r = ins.create_policy(CALLER, String::new(), CoverageType::Health, 1_000, 10_000, 0);
    assert_eq!(r, Err(InsuranceError::InvalidName));
}

#[test]
fn non_positive_premium_is_refused() {
    let mut ins = registry();
    let r = ins.create_policy(CALLER, "P".to_string(), CoverageType::Health, 0, 10_000, 0);
    assert_eq!(r, Err(InsuranceError::InvalidPremium));
}

#[test]
fn pay_premium_errors() {
    let mut ins = registry();
    let id = create_policy_at(&mut ins, CALLER, 0);
    assert_eq!(ins.pay_premium(CALLER, 99, 10), Err(InsuranceError::PolicyNotFound));
    assert_eq!(ins.pay_premium(OTHER, id, 10), Err(InsuranceError::Unauthorized));
    assert_eq!(ins.deactivate_policy(ADMIN, id), Ok(true));
    assert_eq!(ins.pay_premium(CALLER, id, 10), Err(InsuranceError::PolicyInactive));
}

#[test]
fn deactivated_policy_leaves_active_list_and_total() {
    let mut ins = registry();
    let a = create_policy_at(&mut ins, CALLER, 0);
    let b = create_policy_at(&mut ins, CALLER, 0);
    assert_eq!(ins.get_total_monthly_premium(CALLER), Ok(2_000));
    assert_eq!(ins.deactivate_policy(CALLER, a), Ok(true));
    let page = ins.get_active_policies(CALLER, 0, 10).unwrap();
    assert_eq!(page.items, vec![b]);
    assert_eq!(ins.get_total_monthly_premium(CALLER), Ok(1_000));
}

#[test]
fn batch_payment_with_missing_policy_changes_nothing() {
    let mut ins = registry();
    let a = create_policy_at(&mut ins, CALLER, 0);
    let due = due_date(&ins, a);
    assert_eq!(ins.batch_pay_premiums(CALLER, &vec![a, 999], due), Err(InsuranceError::PolicyNotFound));
    assert_eq!(due_date(&ins, a), due);
    assert_eq!(ins.batch_pay_premiums(CALLER, &vec![a], due), Ok(1));
    assert_eq!(due_date(&ins, a), due + PERIOD);
}

#[test]
fn batch_payment_skips_inactive_and_foreign_policies() {
    let mut ins = registry();
    let a = create_policy_at(&mut ins, CALLER, 1_000_000);
    let b = create_policy_at(&mut ins, CALLER, 1_300_000);
    let c = create_policy_at(&mut ins, CALLER, 1_600_000);
    let d = create_policy_at(&mut ins, OTHER, 1_000_000);
    let (da, db, dc, dd) = (due_date(&ins, a), due_date(&ins, b), due_date(&ins, c), due_date(&ins, d));
    let now = da + 65 * 86_400;
    ins.deactivate_policy(CALLER, c).unwrap();
    assert_eq!(ins.batch_pay_premiums(CALLER, &vec![a, b, c, d], now), Ok(2));
    assert_eq!(due_date(&ins, a), da + 3 * PERIOD);
    assert_eq!(due_date(&ins, b), db + 3 * PERIOD);
    assert_eq!(due_date(&ins, c), dc);
    assert_eq!(due_date(&ins, d), dd);
}

#[test]
fn policy_count_tracks_created_policies() {
    let mut ins = registry();
    assert_eq!(ins.get_policy_count(), 0);
    create_policy_at(&mut ins, CALLER, 0);
    create_policy_at(&mut ins, OTHER, 0);
    assert_eq!(ins.get_policy_count(), 2);
}

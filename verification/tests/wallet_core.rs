use std::collections::HashMap;

use remitwise::common::FamilyRole;
use remitwise::wallet::{AuditOp, Error, FamilyWallet, TransactionType, Transfer, DEFAULT_PROPOSAL_EXPIRY};

const OWNER: u64 = 1;
const MEMBER1: u64 = 2;
const MEMBER2: u64 = 3;
const MEMBER3: u64 = 4;
const ADMIN: u64 = 5;
const RECIPIENT: u64 = 50;
const NON_MEMBER: u64 = 60;
const NEW_MEMBER: u64 = 70;
const TOKEN: u64 = 900;

/// Token balances, moved by the transfers the wallet hands back.
struct Bank {
    balances: HashMap<u64, i128>,
}

impl Bank {
    fn new() -> Self {
        Bank { balances: HashMap::new() }
    }
    fn mint(&mut self, who: u64, amount: i128) {
        *self.balances.entry(who).or_insert(0) += amount;
    }
    fn balance(&self, who: u64) -> i128 {
        *self.balances.get(&who).unwrap_or(&0)
    }
    fn apply(&mut self, t: Option<Transfer>) {
        if let Some(t) = t {
            assert!(self.balance(t.from) >= t.amount);
            *self.balances.entry(t.from).or_insert(0) -= t.amount;
            *self.balances.entry(t.to).or_insert(0) += t.amount;
        }
    }
}

fn init(members: &[u64], now: u64) -> FamilyWallet {
    let mut w = FamilyWallet::new();
    assert_eq!(w.init(OWNER, &members.to_vec(), now), Ok(true));
    w
}

fn withdraw(w: &mut FamilyWallet, bank: &mut Bank, who: u64, amount: i128, now: u64) -> u64 {
    let (id, t) = w.withdraw(who, TOKEN, RECIPIENT, amount, now).unwrap();
    bank.apply(t);
    id
}

fn sign(w: &mut FamilyWallet, bank: &mut Bank, who: u64, id: u64, now: u64) -> Result<bool, Error> {
    match w.try_sign_transaction(who, id, now) {
        Ok((b, t)) => {
            bank.apply(t);
            Ok(b)
        }
        Err(e) => Err(e),
    }
}

fn emergency(w: &mut FamilyWallet, bank: &mut Bank, who: u64, amount: i128, now: u64) -> Result<u64, Error> {
    let balance = bank.balance(who);
    match w.try_propose_emergency_transfer(who, TOKEN, RECIPIENT, amount, balance, now) {
        Ok((id, t)) => {
            bank.apply(t);
            Ok(id)
        }
        Err(e) => Err(e),
    }
}

#[test]
fn test_initialize_wallet_succeeds() {
    let w = init(&[MEMBER1, MEMBER2], 0);
    assert_eq!(w.get_owner(), Ok(OWNER));
    assert_eq!(w.get_family_member(MEMBER1).unwrap().unwrap().role, FamilyRole::Member);
    assert_eq!(w.get_family_member(MEMBER2).unwrap().unwrap().role, FamilyRole::Member);
    assert_eq!(w.get_family_member(OWNER).unwrap().unwrap().role, FamilyRole::Owner);
}

#[test]
fn test_configure_multisig() {
    let mut w = init(&[MEMBER1, MEMBER2, MEMBER3], 0);
    let r = w.configure_multisig(OWNER, TransactionType::LargeWithdrawal, 2, vec![MEMBER1, MEMBER2, MEMBER3], 1000_0000000, 0);
    assert_eq!(r, Ok(true));
    let config = w.get_multisig_config(TransactionType::LargeWithdrawal).unwrap();
    assert_eq!(config.threshold, 2);
    assert_eq!(config.signers.len(), 3);
    assert_eq!(config.spending_limit, 1000_0000000);
}

#[test]
fn test_configure_multisig_unauthorized() {
    let mut w = init(&[MEMBER1, MEMBER2], 0);
    let r = w.try_configure_multisig(MEMBER1, TransactionType::LargeWithdrawal, 2, vec![MEMBER1, MEMBER2], 1000_0000000, 0);
    assert_eq!(r, Err(Error::Unauthorized));
}

#[test]
fn test_withdraw_below_threshold_no_multisig() {
    let mut w = init(&[MEMBER1, MEMBER2], 0);
    let mut bank = Bank::new();
    let amount = 5000_0000000;
    bank.mint(OWNER, amount);
    w.configure_multisig(OWNER, TransactionType::LargeWithdrawal, 2, vec![OWNER, MEMBER1, MEMBER2], 1000_0000000, 0)
        .unwrap();
    let withdraw_amount = 500_0000000;
    let tx_id = withdraw(&mut w, &mut bank, OWNER, withdraw_amount, 0);
    assert_eq!(tx_id, 0);
    assert_eq!(bank.balance(RECIPIENT), withdraw_amount);
    assert_eq!(bank.balance(OWNER), amount - withdraw_amount);
}

#[test]
fn test_withdraw_above_threshold_requires_multisig() {
    let mut w = init(&[MEMBER1, MEMBER2], 0);
    let mut bank = Bank::new();
    let amount = 5000_0000000;
    bank.mint(OWNER, amount);
    w.configure_multisig(OWNER, TransactionType::LargeWithdrawal, 2, vec![OWNER, MEMBER1, MEMBER2], 1000_0000000, 0)
        .unwrap();
    let withdraw_amount = 2000_0000000;
    let tx_id = withdraw(&mut w, &mut bank, OWNER, withdraw_amount, 0);
    assert!(tx_id > 0);
    let pending = w.get_pending_transaction(tx_id).unwrap().unwrap();
    assert_eq!(pending.tx_type, TransactionType::LargeWithdrawal);
    assert_eq!(pending.signatures.len(), 1);
    assert_eq!(bank.balance(RECIPIENT), 0);
    assert_eq!(bank.balance(OWNER), amount);
    sign(&mut w, &mut bank, MEMBER1, tx_id, 0).unwrap();
    assert_eq!(bank.balance(RECIPIENT), withdraw_amount);
    assert_eq!(bank.balance(OWNER), amount - withdraw_amount);
    assert!(w.get_pending_transaction(tx_id).unwrap().is_none());
}

#[test]
fn test_multisig_threshold_validation() {
    let mut w = init(&[MEMBER1, MEMBER2, MEMBER3], 0);
    let mut bank = Bank::new();
    bank.mint(OWNER, 5000_0000000);
    w.configure_multisig(OWNER, TransactionType::LargeWithdrawal, 3, vec![OWNER, MEMBER1, MEMBER2], 1000_0000000, 0)
        .unwrap();
    let withdraw_amount = 2000_0000000;
    let tx_id = withdraw(&mut w, &mut bank, OWNER, withdraw_amount, 0);
    sign(&mut w, &mut bank, MEMBER1, tx_id, 0).unwrap();
    assert!(w.get_pending_transaction(tx_id).unwrap().is_some());
    assert_eq!(bank.balance(RECIPIENT), 0);
    sign(&mut w, &mut bank, MEMBER2, tx_id, 0).unwrap();
    assert_eq!(bank.balance(RECIPIENT), withdraw_amount);
    assert!(w.get_pending_transaction(tx_id).unwrap().is_none());
}

#[test]
fn test_duplicate_signature_prevention() {
    let mut w = init(&[MEMBER1, MEMBER2], 0);
    let mut bank = Bank::new();
    bank.mint(OWNER, 5000_0000000);
    w.configure_multisig(OWNER, TransactionType::LargeWithdrawal, 3, vec![OWNER, MEMBER1, MEMBER2], 1000_0000000, 0)
        .unwrap();
    let tx_id = withdraw(&mut w, &mut bank, OWNER, 2000_0000000, 0);
    sign(&mut w, &mut bank, MEMBER1, tx_id, 0).unwrap();
    assert_eq!(w.get_pending_transaction(tx_id).unwrap().unwrap().signatures.len(), 2);
    let result = sign(&mut w, &mut bank, MEMBER1, tx_id, 0);
    assert!(result.is_ok());
    assert_eq!(w.get_pending_transaction(tx_id).unwrap().unwrap().signatures.len(), 2);
}

#[test]
fn test_sign_transaction_non_member_rejected() {
    let mut w = init(&[MEMBER1], 0);
    w.try_configure_multisig(OWNER, TransactionType::RoleChange, 2, vec![OWNER, MEMBER1], 0, 0).unwrap();
    let tx_id = w.try_propose_role_change(OWNER, MEMBER1, FamilyRole::Admin, 0).unwrap();
    assert_eq!(w.try_sign_transaction(NON_MEMBER, tx_id, 0), Err(Error::SignerNotMember));
}

#[test]
fn test_propose_split_config_change() {
    let mut w = init(&[MEMBER1, MEMBER2], 0);
    w.configure_multisig(OWNER, TransactionType::SplitConfigChange, 2, vec![OWNER, MEMBER1, MEMBER2], 0, 0).unwrap();
    let tx_id = w.propose_split_config_change(OWNER, 40, 30, 20, 10, 0).unwrap();
    assert!(tx_id > 0);
    let pending = w.get_pending_transaction(tx_id).unwrap();
    assert_eq!(pending.unwrap().tx_type, TransactionType::SplitConfigChange);
    w.sign_transaction(MEMBER1, tx_id, 0).unwrap();
    assert!(w.get_pending_transaction(tx_id).unwrap().is_none());
}

#[test]
fn test_propose_role_change() {
    let mut w = init(&[MEMBER1, MEMBER2], 0);
    w.configure_multisig(OWNER, TransactionType::RoleChange, 2, vec![OWNER, MEMBER1], 0, 0).unwrap();
    let tx_id = w.propose_role_change(OWNER, MEMBER2, FamilyRole::Admin, 0).unwrap();
    assert!(tx_id > 0);
    w.sign_transaction(MEMBER1, tx_id, 0).unwrap();
    assert_eq!(w.get_family_member(MEMBER2).unwrap().unwrap().role, FamilyRole::Admin);
}

#[test]
fn test_role_expiry_boundary_allows_before_expiry() {
    let mut w = init(&[], 1_000);
    w.add_family_member(OWNER, ADMIN, FamilyRole::Admin, 1_000).unwrap();
    let expiry = 1_010u64;
    w.set_role_expiry(OWNER, ADMIN, Some(expiry), 1_000).unwrap();
    assert_eq!(w.get_role_expiry_public(ADMIN), Some(expiry));
    assert_eq!(w.configure_emergency(ADMIN, 1000_0000000, 3600, 0, 10000_0000000, expiry - 1), Ok(true));
}

#[test]
fn test_role_expiry_boundary_revokes_at_expiry_timestamp() {
    let mut w = init(&[], 1_000);
    w.add_family_member(OWNER, ADMIN, FamilyRole::Admin, 1_000).unwrap();
    let expiry = 1_010u64;
    w.set_role_expiry(OWNER, ADMIN, Some(expiry), 1_000).unwrap();
    assert_eq!(
        w.try_configure_emergency(ADMIN, 1000_0000000, 3600, 0, 10000_0000000, expiry),
        Err(Error::Unauthorized)
    );
}

#[test]
fn test_role_expiry_renewal_restores_permissions() {
    let mut w = init(&[], 1_000);
    w.add_family_member(OWNER, ADMIN, FamilyRole::Admin, 1_000).unwrap();
    let expiry = 1_010u64;
    w.set_role_expiry(OWNER, ADMIN, Some(expiry), 1_000).unwrap();
    let renewed_to = expiry + 100;
    w.set_role_expiry(OWNER, ADMIN, Some(renewed_to), expiry).unwrap();
    assert_eq!(w.get_role_expiry_public(ADMIN), Some(renewed_to));
    assert_eq!(w.configure_emergency(ADMIN, 1000_0000000, 3600, 0, 10000_0000000, expiry), Ok(true));
}

#[test]
fn test_role_expiry_unauthorized_member_cannot_renew() {
    let mut w = init(&[MEMBER1], 1_000);
    assert_eq!(w.try_set_role_expiry(MEMBER1, MEMBER1, Some(2_000), 1_000), Err(Error::InsufficientRole));
}

#[test]
fn test_cancel_transaction_by_proposer() {
    let mut w = init(&[MEMBER1], 0);
    w.configure_multisig(OWNER, TransactionType::RoleChange, 2, vec![OWNER, MEMBER1], 0, 0).unwrap();
    let tx_id = w.propose_role_change(MEMBER1, MEMBER1, FamilyRole::Admin, 0).unwrap();
    assert!(tx_id > 0);
    assert_eq!(w.cancel_transaction(MEMBER1, tx_id, 0), Ok(true));
    assert!(w.get_pending_transaction(tx_id).unwrap().is_none());
}

#[test]
fn test_cancel_transaction_by_admin() {
    let mut w = init(&[MEMBER1], 0);
    w.configure_multisig(OWNER, TransactionType::RoleChange, 2, vec![OWNER, MEMBER1], 0, 0).unwrap();
    let tx_id = w.propose_role_change(MEMBER1, MEMBER1, FamilyRole::Admin, 0).unwrap();
    assert_eq!(w.cancel_transaction(OWNER, tx_id, 0), Ok(true));
    assert!(w.get_pending_transaction(tx_id).unwrap().is_none());
}

#[test]
fn test_cancel_transaction_unauthorized() {
    let mut w = init(&[MEMBER1, MEMBER2], 0);
    w.try_configure_multisig(OWNER, TransactionType::RoleChange, 2, vec![OWNER, MEMBER1], 0, 0).unwrap();
    let tx_id = w.try_propose_role_change(MEMBER1, MEMBER1, FamilyRole::Admin, 0).unwrap();
    assert_eq!(w.try_cancel_transaction(MEMBER2, tx_id, 0), Err(Error::Unauthorized));
}

#[test]
fn test_cancel_transaction_not_found() {
    let mut w = init(&[], 0);
    assert_eq!(w.try_cancel_transaction(OWNER, 999, 0), Err(Error::TransactionNotFound));
}

#[test]
fn test_proposal_expiry_default_enforced() {
    let mut w = init(&[MEMBER1], 0);
    w.try_configure_multisig(OWNER, TransactionType::RoleChange, 2, vec![OWNER, MEMBER1], 0, 0).unwrap();
    let tx_id = w.try_propose_role_change(OWNER, MEMBER1, FamilyRole::Admin, 1000).unwrap();
    assert!(w.try_sign_transaction(MEMBER1, tx_id, 1000 + DEFAULT_PROPOSAL_EXPIRY + 1).is_err());
}

#[test]
fn test_proposal_expiry_exact_boundary() {
    let mut w = init(&[MEMBER1], 0);
    w.configure_multisig(OWNER, TransactionType::RoleChange, 2, vec![OWNER, MEMBER1], 0, 0).unwrap();
    let tx_id = w.propose_role_change(OWNER, MEMBER1, FamilyRole::Admin, 1000).unwrap();
    assert!(w.sign_transaction(MEMBER1, tx_id, 1000 + DEFAULT_PROPOSAL_EXPIRY).is_ok());
}

#[test]
fn test_expiry_disabled_zero() {
    let mut w = init(&[MEMBER1], 0);
    assert_eq!(w.set_proposal_expiry(OWNER, 0, 0), Ok(true));
    assert_eq!(w.get_proposal_expiry_public(), 0);
    w.configure_multisig(OWNER, TransactionType::RoleChange, 2, vec![OWNER, MEMBER1], 0, 0).unwrap();
    let tx_id = w.propose_role_change(OWNER, MEMBER1, FamilyRole::Admin, 1000).unwrap();
    assert!(w.sign_transaction(MEMBER1, tx_id, 1000 + DEFAULT_PROPOSAL_EXPIRY * 10).is_ok());
}

#[test]
fn test_sign_past_expiry_execute_rejected() {
    let mut w = init(&[MEMBER1, MEMBER2], 0);
    w.configure_multisig(OWNER, TransactionType::RoleChange, 2, vec![MEMBER1, MEMBER2], 0, 0).unwrap();
    let tx_id = w.try_propose_role_change(OWNER, MEMBER1, FamilyRole::Admin, 1000).unwrap();
    assert!(w.try_sign_transaction(MEMBER1, tx_id, 5000).is_ok());
    assert!(w.try_sign_transaction(MEMBER2, tx_id, 5000 + DEFAULT_PROPOSAL_EXPIRY + 1).is_err());
}

#[test]
fn test_role_expiry_expired_admin_cannot_renew_self() {
    let mut w = init(&[], 1_000);
    w.try_add_family_member(OWNER, ADMIN, FamilyRole::Admin, 1_000).unwrap();
    w.try_set_role_expiry(OWNER, ADMIN, Some(1_000), 1_000).unwrap();
    assert_eq!(w.try_set_role_expiry(ADMIN, ADMIN, Some(2_000), 1_000), Err(Error::RoleExpired));
}

#[test]
fn test_role_expiry_cannot_be_set_for_non_member() {
    let mut w = init(&[], 1_000);
    assert_eq!(w.try_set_role_expiry(OWNER, NON_MEMBER, Some(2_000), 1_000), Err(Error::MemberNotFound));
}

#[test]
fn test_propose_emergency_transfer() {
    let mut w = init(&[MEMBER1, MEMBER2], 0);
    let mut bank = Bank::new();
    bank.mint(OWNER, 5000_0000000);
    let signers = vec![OWNER, MEMBER1, MEMBER2];
    w.configure_multisig(OWNER, TransactionType::LargeWithdrawal, 3, signers.clone(), 1000_0000000, 0).unwrap();
    w.configure_multisig(OWNER, TransactionType::EmergencyTransfer, 3, signers, 0, 0).unwrap();
    let transfer_amount = 3000_0000000;
    let tx_id = emergency(&mut w, &mut bank, OWNER, transfer_amount, 0).unwrap();
    assert!(tx_id > 0);
    sign(&mut w, &mut bank, MEMBER1, tx_id, 0).unwrap();
    assert!(w.get_pending_transaction(tx_id).unwrap().is_some());
    sign(&mut w, &mut bank, MEMBER2, tx_id, 0).unwrap();
    assert_eq!(bank.balance(RECIPIENT), transfer_amount);
    assert_eq!(bank.balance(OWNER), 5000_0000000 - transfer_amount);
}

#[test]
fn test_emergency_mode_direct_transfer_within_limits() {
    let mut w = init(&[MEMBER1, MEMBER2], 0);
    let mut bank = Bank::new();
    let total = 5000_0000000;
    bank.mint(OWNER, total);
    let now = 1000;
    w.configure_emergency(OWNER, 2000_0000000, 3600, 1000_0000000, 5000_0000000, now).unwrap();
    w.set_emergency_mode(OWNER, true, now).unwrap();
    assert!(w.is_emergency_mode());
    let amount = 1500_0000000;
    let tx_id = emergency(&mut w, &mut bank, OWNER, amount, now).unwrap();
    assert_eq!(tx_id, 0);
    assert_eq!(bank.balance(RECIPIENT), amount);
    assert_eq!(bank.balance(OWNER), total - amount);
    assert!(w.get_last_emergency_at().is_some());
    let audit = w.get_access_audit(2);
    assert_eq!(audit.len(), 2);
    let em_exec = audit[1];
    assert_eq!(em_exec.operation, AuditOp::EmergencyExecution);
    assert_eq!(em_exec.caller, OWNER);
    assert_eq!(em_exec.target, Some(RECIPIENT));
    assert!(em_exec.success);
}

#[test]
fn test_set_emergency_mode_appends_access_audit() {
    let mut w = init(&[], 0);
    assert_eq!(w.set_emergency_mode(OWNER, true, 0), Ok(true));
    let audit = w.get_access_audit(1);
    assert_eq!(audit.len(), 1);
    assert_eq!(audit[0].operation, AuditOp::EmergencyMode);
    assert_eq!(audit[0].caller, OWNER);
    assert!(audit[0].target.is_none());
    assert!(audit[0].success);
}

#[test]
fn test_configure_emergency_appends_access_audit() {
    let mut w = init(&[], 0);
    assert_eq!(w.configure_emergency(OWNER, 2000_0000000, 3600, 500_0000000, 10000_0000000, 0), Ok(true));
    let audit = w.get_access_audit(1);
    assert_eq!(audit.len(), 1);
    assert_eq!(audit[0].operation, AuditOp::EmergencyConfig);
    assert_eq!(audit[0].caller, OWNER);
    assert!(audit[0].target.is_none());
    assert!(audit[0].success);
}

#[test]
fn test_propose_emergency_transfer_appends_access_audit() {
    let mut w = init(&[], 0);
    let mut bank = Bank::new();
    let tx_id = emergency(&mut w, &mut bank, OWNER, 3000_0000000, 0).unwrap();
    assert!(tx_id > 0);
    let audit = w.get_access_audit(1);
    assert_eq!(audit.len(), 1);
    assert_eq!(audit[0].operation, AuditOp::EmergencyProposal);
    assert_eq!(audit[0].caller, OWNER);
    assert_eq!(audit[0].target, Some(RECIPIENT));
    assert!(audit[0].success);
}

#[test]
fn test_emergency_transfer_exceeds_limit() {
    let mut w = init(&[], 0);
    let mut bank = Bank::new();
    bank.mint(OWNER, 5000_0000000);
    w.try_configure_emergency(OWNER, 1000_0000000, 3600, 0, 5000_0000000, 0).unwrap();
    w.try_set_emergency_mode(OWNER, true, 0).unwrap();
    assert_eq!(emergency(&mut w, &mut bank, OWNER, 2000_0000000, 0), Err(Error::EmergencyAmountExceeded));
}

#[test]
fn test_emergency_transfer_cooldown_enforced() {
    let mut w = init(&[], 0);
    let mut bank = Bank::new();
    bank.mint(OWNER, 5000_0000000);
    w.configure_emergency(OWNER, 2000_0000000, 3600, 0, 5000_0000000, 1000).unwrap();
    w.set_emergency_mode(OWNER, true, 1000).unwrap();
    let amount = 1000_0000000;
    assert_eq!(emergency(&mut w, &mut bank, OWNER, amount, 1000), Ok(0));
    assert_eq!(emergency(&mut w, &mut bank, OWNER, amount, 1000), Err(Error::EmergencyCooldownActive));
}

#[test]
fn test_emergency_transfer_min_balance_enforced() {
    let mut w = init(&[], 0);
    let mut bank = Bank::new();
    let total = 3000_0000000;
    bank.mint(OWNER, total);
    w.try_configure_emergency(OWNER, 2000_0000000, 0, 2500_0000000, 5000_0000000, 0).unwrap();
    w.try_set_emergency_mode(OWNER, true, 0).unwrap();
    assert_eq!(emergency(&mut w, &mut bank, OWNER, 1000_0000000, 0), Err(Error::MinBalanceViolation));
    assert_eq!(bank.balance(OWNER), total);
    assert_eq!(bank.balance(RECIPIENT), 0);
}

#[test]
fn test_emergency_transfer_min_balance_boundary_exact_floor_succeeds() {
    let mut w = init(&[], 0);
    let mut bank = Bank::new();
    let total = 3000_0000000;
    bank.mint(OWNER, total);
    let min_balance = 2000_0000000;
    let amount = total - min_balance;
    w.configure_emergency(OWNER, 2000_0000000, 0, min_balance, 5000_0000000, 0).unwrap();
    w.set_emergency_mode(OWNER, true, 0).unwrap();
    assert!(emergency(&mut w, &mut bank, OWNER, amount, 0).is_ok());
    assert_eq!(bank.balance(OWNER), min_balance);
    assert_eq!(bank.balance(RECIPIENT), amount);
}

#[test]
fn test_emergency_transfer_min_balance_boundary_one_stroop_under_floor_rejected() {
    let mut w = init(&[], 0);
    let mut bank = Bank::new();
    let total = 3000_0000000;
    bank.mint(OWNER, total);
    let min_balance = 2000_0000000;
    let amount = total - min_balance + 1;
    w.try_configure_emergency(OWNER, 2000_0000000, 0, min_balance, 5000_0000000, 0).unwrap();
    w.try_set_emergency_mode(OWNER, true, 0).unwrap();
    assert_eq!(emergency(&mut w, &mut bank, OWNER, amount, 0), Err(Error::MinBalanceViolation));
    assert_eq!(bank.balance(OWNER), total);
}

#[test]
fn test_emergency_transfer_zero_min_balance_disables_floor() {
    let mut w = init(&[], 0);
    let mut bank = Bank::new();
    let total = 3000_0000000;
    bank.mint(OWNER, total);
    w.configure_emergency(OWNER, 5000_0000000, 0, 0, 5000_0000000, 0).unwrap();
    w.set_emergency_mode(OWNER, true, 0).unwrap();
    assert!(emergency(&mut w, &mut bank, OWNER, total, 0).is_ok());
    assert_eq!(bank.balance(OWNER), 0);
    assert_eq!(bank.balance(RECIPIENT), total);
}

#[test]
fn test_emergency_transfer_min_balance_interacts_with_daily_limit() {
    let mut w = init(&[], 0);
    let mut bank = Bank::new();
    let total = 10_000_0000000;
    bank.mint(OWNER, total);
    let now = 1_000;
    w.try_configure_emergency(OWNER, 5_000_0000000, 0, 9_500_0000000, 10_000_0000000, now).unwrap();
    w.try_set_emergency_mode(OWNER, true, now).unwrap();
    assert_eq!(emergency(&mut w, &mut bank, OWNER, 600_0000000, now), Err(Error::MinBalanceViolation));
    assert_eq!(bank.balance(OWNER), total);
    assert_eq!(w.get_emergency_volume(), 0);
    assert!(emergency(&mut w, &mut bank, OWNER, 500_0000000, now).is_ok());
    assert_eq!(bank.balance(OWNER), total - 500_0000000);
    assert_eq!(w.get_emergency_volume(), 500_0000000);
    w.configure_emergency(OWNER, 5_000_0000000, 0, 1_000_0000000, 900_0000000, now).unwrap();
    assert_eq!(w.get_emergency_volume(), 500_0000000);
    assert!(emergency(&mut w, &mut bank, OWNER, 300_0000000, now).is_ok());
    assert_eq!(w.get_emergency_volume(), 800_0000000);
    let result = emergency(&mut w, &mut bank, OWNER, 200_0000000, now);
    assert!(result.is_err());
    assert_ne!(result, Err(Error::MinBalanceViolation));
    assert_eq!(w.get_emergency_volume(), 800_0000000);
}

#[test]
fn test_emergency_transfer_min_balance_interacts_with_cooldown() {
    let mut w = init(&[], 0);
    let mut bank = Bank::new();
    let total = 5_000_0000000;
    bank.mint(OWNER, total);
    let now = 1_000;
    let min_balance = 4_000_0000000;
    let cooldown = 3_600u64;
    w.configure_emergency(OWNER, 2_000_0000000, cooldown, min_balance, 10_000_0000000, now).unwrap();
    w.set_emergency_mode(OWNER, true, now).unwrap();
    assert!(emergency(&mut w, &mut bank, OWNER, 500_0000000, now).is_ok());
    assert_eq!(bank.balance(OWNER), total - 500_0000000);
    let result = emergency(&mut w, &mut bank, OWNER, 400_0000000, now);
    assert!(result.is_err());
    assert_ne!(result, Err(Error::MinBalanceViolation));
    assert_eq!(bank.balance(OWNER), total - 500_0000000);
    let later = 1_000 + cooldown + 1;
    assert_eq!(emergency(&mut w, &mut bank, OWNER, 600_0000000, later), Err(Error::MinBalanceViolation));
    assert_eq!(bank.balance(OWNER), total - 500_0000000);
    assert!(emergency(&mut w, &mut bank, OWNER, 500_0000000, later).is_ok());
    assert_eq!(bank.balance(OWNER), total - 1_000_0000000);
}

#[test]
fn test_emergency_transfer_min_balance_rejection_emits_no_transfer_exec_event() {
    let mut w = init(&[], 0);
    let mut bank = Bank::new();
    bank.mint(OWNER, 3000_0000000);
    w.try_configure_emergency(OWNER, 2000_0000000, 0, 2500_0000000, 5000_0000000, 0).unwrap();
    w.try_set_emergency_mode(OWNER, true, 0).unwrap();
    assert_eq!(emergency(&mut w, &mut bank, OWNER, 1000_0000000, 0), Err(Error::MinBalanceViolation));
    assert!(w.get_last_emergency_at().is_none());
    for entry in w.get_access_audit(10).iter() {
        assert_ne!(entry.operation, AuditOp::EmergencyExecution);
    }
}

#[test]
fn test_add_and_remove_family_member() {
    let mut w = init(&[MEMBER1], 0);
    assert_eq!(w.add_family_member(OWNER, NEW_MEMBER, FamilyRole::Admin, 0), Ok(true));
    assert_eq!(w.get_family_member(NEW_MEMBER).unwrap().unwrap().role, FamilyRole::Admin);
    assert_eq!(w.remove_family_member(OWNER, NEW_MEMBER, 0), Ok(true));
    assert!(w.get_family_member(NEW_MEMBER).unwrap().is_none());
}

#[test]
fn test_add_member_unauthorized() {
    let mut w = init(&[MEMBER1], 0);
    assert_eq!(w.try_add_family_member(MEMBER1, NEW_MEMBER, FamilyRole::Member, 0), Err(Error::Unauthorized));
}

#[test]
fn test_add_member_already_exists() {
    let mut w = init(&[MEMBER1], 0);
    assert_eq!(w.try_add_member(OWNER, MEMBER1, FamilyRole::Admin, 0, 0), Err(Error::MemberAlreadyExists));
    assert_eq!(w.try_add_member(OWNER, OWNER, FamilyRole::Admin, 0, 0), Err(Error::MemberAlreadyExists));
    assert!(w.try_add_member(OWNER, NEW_MEMBER, FamilyRole::Member, 0, 0).is_ok());
    assert_eq!(w.try_add_member(OWNER, NEW_MEMBER, FamilyRole::Admin, 0, 0), Err(Error::MemberAlreadyExists));
}

#[test]
fn test_different_thresholds_for_different_transaction_types() {
    let mut w = init(&[MEMBER1, MEMBER2, MEMBER3], 0);
    let all = vec![OWNER, MEMBER1, MEMBER2, MEMBER3];
    w.configure_multisig(OWNER, TransactionType::LargeWithdrawal, 2, all.clone(), 1000_0000000, 0).unwrap();
    w.configure_multisig(OWNER, TransactionType::RoleChange, 3, all.clone(), 0, 0).unwrap();
    w.configure_multisig(OWNER, TransactionType::EmergencyTransfer, 4, all, 0, 0).unwrap();
    assert_eq!(w.get_multisig_config(TransactionType::LargeWithdrawal).unwrap().threshold, 2);
    assert_eq!(w.get_multisig_config(TransactionType::RoleChange).unwrap().threshold, 3);
    assert_eq!(w.get_multisig_config(TransactionType::EmergencyTransfer).unwrap().threshold, 4);
}

#[test]
fn test_unauthorized_signer() {
    let mut w = init(&[MEMBER1, MEMBER2, MEMBER3], 0);
    let mut bank = Bank::new();
    bank.mint(OWNER, 5000_0000000);
    w.configure_multisig(OWNER, TransactionType::LargeWithdrawal, 2, vec![OWNER, MEMBER1], 1000_0000000, 0)
        .unwrap();
    let tx_id = withdraw(&mut w, &mut bank, OWNER, 2000_0000000, 0);
    assert_eq!(sign(&mut w, &mut bank, MEMBER2, tx_id, 0), Err(Error::SignerNotMember));
}

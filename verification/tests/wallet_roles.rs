use remitwise::common::FamilyRole;
use remitwise::wallet::{
    BatchMemberItem, FamilyWallet, TransactionType, DEFAULT_AUDIT_PAGE_LIMIT, MAX_AUDIT_PAGE_LIMIT,
};

const OWNER: u64 = 1;
const ADMIN: u64 = 5;
const MEMBER: u64 = 2;
const VIEWER: u64 = 8;
const NEW_MEMBER: u64 = 70;

fn wallet(members: &[u64], now: u64) -> FamilyWallet {
    let mut w = FamilyWallet::new();
    assert_eq!(w.init(OWNER, &members.to_vec(), now), Ok(true));
    w
}

/// Owner plus an admin that is also the pause admin, the admin's role already expired.
fn wallet_with_expired_admin(pause_admin: bool) -> FamilyWallet {
    let now = 100;
    let mut w = wallet(&[], now);
    w.add_member(OWNER, ADMIN, FamilyRole::Admin, 0, now).unwrap();
    if pause_admin {
        w.set_pause_admin(OWNER, ADMIN, now).unwrap();
    }
    w.set_role_expiry(OWNER, ADMIN, Some(now - 1), now).unwrap();
    w
}

fn wallet_with_expired_owner() -> FamilyWallet {
    let now = 100;
    let mut w = wallet(&[], now);
    w.set_role_expiry(OWNER, OWNER, Some(now - 1), now).unwrap();
    w
}

#[test]
fn test_expired_admin_cannot_pause() {
    let mut w = wallet_with_expired_admin(true);
    assert!(w.try_pause(ADMIN, 100).is_err());
    assert!(!w.is_paused());
}

#[test]
fn test_expired_admin_cannot_unpause() {
    let now = 100;
    let mut w = wallet(&[], now);
    w.add_member(OWNER, ADMIN, FamilyRole::Admin, 0, now).unwrap();
    w.set_pause_admin(OWNER, ADMIN, now).unwrap();
    let expires_at = now + 1;
    w.try_set_role_expiry(OWNER, ADMIN, Some(expires_at), now).unwrap();
    w.try_pause(ADMIN, now).unwrap();
    assert!(w.try_unpause(ADMIN, expires_at).is_err());
    assert!(w.is_paused());
}

#[test]
fn test_expired_admin_cannot_archive_transactions() {
    let mut w = wallet_with_expired_admin(true);
    assert!(w.try_archive_old_transactions(ADMIN, 100, 100).is_err());
}

#[test]
fn test_expired_admin_cannot_cleanup_expired_pending() {
    let mut w = wallet_with_expired_admin(false);
    assert!(w.try_cleanup_expired_pending(ADMIN, 100).is_err());
}

#[test]
fn test_expired_admin_cannot_configure_multisig() {
    let now = 100;
    let mut w = wallet(&[], now);
    w.add_member(OWNER, ADMIN, FamilyRole::Admin, 0, now).unwrap();
    w.add_member(OWNER, MEMBER, FamilyRole::Member, 0, now).unwrap();
    w.try_set_role_expiry(OWNER, ADMIN, Some(now - 1), now).unwrap();
    let r = w.try_configure_multisig(ADMIN, TransactionType::LargeWithdrawal, 2, vec![ADMIN, MEMBER], 1000_0000000, now);
    assert!(r.is_err());
    let cfg = w.get_multisig_config(TransactionType::LargeWithdrawal).unwrap();
    assert_eq!(cfg.threshold, 2);
    assert!(cfg.signers.is_empty());
}

#[test]
fn test_expired_admin_cannot_configure_emergency() {
    let mut w = wallet_with_expired_admin(false);
    assert!(w.try_configure_emergency(ADMIN, 5000_0000000, 3600, 0, 10000_0000000, 100).is_err());
    assert_eq!(w.get_emergency_config().unwrap().max_amount, 10000_0000000);
}

#[test]
fn test_expired_admin_cannot_set_emergency_mode() {
    let mut w = wallet_with_expired_admin(false);
    assert!(w.try_set_emergency_mode(ADMIN, true, 100).is_err());
    assert!(!w.is_emergency_mode());
}

#[test]
fn test_expired_admin_cannot_batch_add_members() {
    let mut w = wallet_with_expired_admin(false);
    let items = vec![BatchMemberItem { address: NEW_MEMBER, role: FamilyRole::Member }];
    assert!(w.try_batch_add_family_members(ADMIN, &items, 100).is_err());
    assert!(w.get_family_member(NEW_MEMBER).unwrap().is_none());
}

#[test]
fn test_expired_owner_cannot_batch_remove_members() {
    let mut w = wallet_with_expired_owner();
    assert!(w.try_batch_remove_family_members(OWNER, &vec![MEMBER], 100).is_err());
}

#[test]
fn test_batch_add_family_members_all_valid_and_empty_batch() {
    let mut w = wallet(&[11, 12], 0);
    let items = vec![
        BatchMemberItem { address: 21, role: FamilyRole::Member },
        BatchMemberItem { address: 22, role: FamilyRole::Admin },
    ];
    assert_eq!(w.batch_add_family_members(OWNER, &items, 0), Ok(2));
    assert_eq!(w.get_family_member(21).unwrap().unwrap().role, FamilyRole::Member);
    assert_eq!(w.get_family_member(22).unwrap().unwrap().role, FamilyRole::Admin);
    assert_eq!(w.batch_add_family_members(OWNER, &vec![], 0), Ok(0));
}

#[test]
fn test_batch_add_family_members_rejects_mixed_batch_without_partial_state() {
    let existing = 11;
    let mut w = wallet(&[existing], 0);
    let items = vec![
        BatchMemberItem { address: NEW_MEMBER, role: FamilyRole::Member },
        BatchMemberItem { address: existing, role: FamilyRole::Admin },
    ];
    assert!(w.try_batch_add_family_members(OWNER, &items, 0).is_err());
    assert!(w.get_family_member(NEW_MEMBER).unwrap().is_none());
    assert_eq!(w.get_family_member(existing).unwrap().unwrap().role, FamilyRole::Member);
}

#[test]
fn test_batch_add_family_members_rejects_duplicate_and_cap_excess() {
    let initial: Vec<u64> = (100..128).collect();
    let mut w = wallet(&initial, 0);
    let dup = 200;
    let duplicate_batch = vec![
        BatchMemberItem { address: dup, role: FamilyRole::Member },
        BatchMemberItem { address: dup, role: FamilyRole::Admin },
    ];
    assert!(w.try_batch_add_family_members(OWNER, &duplicate_batch, 0).is_err());
    assert!(w.get_family_member(dup).unwrap().is_none());

    let cap_batch = vec![
        BatchMemberItem { address: 201, role: FamilyRole::Member },
        BatchMemberItem { address: 202, role: FamilyRole::Member },
    ];
    assert!(w.try_batch_add_family_members(OWNER, &cap_batch, 0).is_err());
    assert!(w.get_family_member(201).unwrap().is_none());
    assert!(w.get_family_member(202).unwrap().is_none());
}

#[test]
fn test_batch_remove_family_members_rejects_missing_and_duplicate_without_partial_state() {
    let (a, b, missing) = (11, 12, 13);
    let mut w = wallet(&[a, b], 0);
    assert!(w.try_batch_remove_family_members(OWNER, &vec![a, missing], 0).is_err());
    assert!(w.get_family_member(a).unwrap().is_some());
    assert!(w.get_family_member(b).unwrap().is_some());
    assert!(w.try_batch_remove_family_members(OWNER, &vec![missing, missing], 0).is_err());
    assert!(w.try_batch_remove_family_members(OWNER, &vec![31, 32], 0).is_err());
    assert!(w.get_family_member(a).unwrap().is_some());
    assert!(w.get_family_member(b).unwrap().is_some());
}

#[test]
fn test_expired_owner_cannot_set_proposal_expiry() {
    let mut w = wallet_with_expired_owner();
    assert!(w.try_set_proposal_expiry(OWNER, 300, 100).is_err());
}

#[test]
fn test_expired_owner_cannot_set_upgrade_admin() {
    let mut w = wallet_with_expired_owner();
    assert!(w.try_set_upgrade_admin(OWNER, ADMIN, 100).is_err());
    assert_eq!(w.get_upgrade_admin_public(), None);
}

#[test]
fn test_expired_owner_cannot_set_version() {
    let mut w = wallet_with_expired_owner();
    assert!(w.try_set_version(OWNER, 2, 100).is_err());
}

#[test]
fn test_non_expired_admin_can_perform_privileged_operations() {
    let now = 100;
    let mut w = wallet(&[], now);
    w.add_member(OWNER, ADMIN, FamilyRole::Admin, 0, now).unwrap();
    w.set_pause_admin(OWNER, ADMIN, now).unwrap();
    w.set_role_expiry(OWNER, ADMIN, Some(now + 10000), now).unwrap();
    assert!(w.pause(ADMIN, now).is_ok());
    assert!(w.unpause(ADMIN, now).is_ok());
    assert!(w.archive_old_transactions(ADMIN, now, now).is_ok());
    assert!(w.cleanup_expired_pending(ADMIN, now).is_ok());
}

#[test]
fn test_set_proposal_expiry_validation() {
    let mut w = wallet(&[], 0);
    assert_eq!(w.try_set_proposal_expiry(OWNER, 86400, 0), Ok(true));
    assert_eq!(w.get_proposal_expiry_public(), 86400);
    assert!(w.try_set_proposal_expiry(OWNER, 604_800 + 1, 0).is_err());
    assert_eq!(w.set_proposal_expiry(OWNER, 0, 0), Ok(true));
    assert_eq!(w.get_proposal_expiry_public(), 0);
}

fn seed_audit_entries(w: &mut FamilyWallet, n: u32) {
    for i in 0..n {
        w.set_emergency_mode(OWNER, i % 2 == 0, 0).unwrap();
    }
}

#[test]
fn test_audit_page_empty_log_returns_sentinel() {
    let w = wallet(&[], 0);
    let page = w.get_access_audit_page(OWNER, 0, 10, 0).unwrap();
    assert_eq!(page.count, 0);
    assert_eq!(page.items.len(), 0);
    assert_eq!(page.next_cursor, 0);
}

#[test]
fn test_audit_page_offset_beyond_length_returns_sentinel() {
    let mut w = wallet(&[], 0);
    seed_audit_entries(&mut w, 3);
    let page = w.get_access_audit_page(OWNER, 100, 10, 0).unwrap();
    assert_eq!(page.count, 0);
    assert_eq!(page.items.len(), 0);
    assert_eq!(page.next_cursor, 3);
}

#[test]
fn test_audit_page_offset_u32_max_no_panic() {
    let mut w = wallet(&[], 0);
    seed_audit_entries(&mut w, 5);
    let page = w.get_access_audit_page(OWNER, u32::MAX, 10, 0).unwrap();
    assert_eq!(page.count, 0);
    assert_eq!(page.items.len(), 0);
    assert_eq!(page.next_cursor, 5);
}

#[test]
fn test_audit_page_limit_zero_uses_default() {
    let mut w = wallet(&[], 0);
    seed_audit_entries(&mut w, 25);
    let page = w.get_access_audit_page(OWNER, 0, 0, 0).unwrap();
    assert_eq!(page.count, DEFAULT_AUDIT_PAGE_LIMIT);
    assert_eq!(page.items.len() as u32, DEFAULT_AUDIT_PAGE_LIMIT);
    assert_eq!(page.next_cursor, DEFAULT_AUDIT_PAGE_LIMIT);
}

#[test]
fn test_audit_page_oversized_limit_clamped_to_max() {
    let mut w = wallet(&[], 0);
    seed_audit_entries(&mut w, 60);
    let page = w.get_access_audit_page(OWNER, 0, u32::MAX, 0).unwrap();
    assert_eq!(page.count, MAX_AUDIT_PAGE_LIMIT);
    assert_eq!(page.items.len() as u32, MAX_AUDIT_PAGE_LIMIT);
    assert_eq!(page.next_cursor, MAX_AUDIT_PAGE_LIMIT);
}

#[test]
fn test_audit_page_limit_larger_than_remaining_returns_tail() {
    let mut w = wallet(&[], 0);
    seed_audit_entries(&mut w, 5);
    let page = w.get_access_audit_page(OWNER, 3, 20, 0).unwrap();
    assert_eq!(page.count, 2);
    assert_eq!(page.items.len(), 2);
    assert_eq!(page.next_cursor, 5);
}

#[test]
fn test_audit_page_exact_boundary_last_entry() {
    let mut w = wallet(&[], 0);
    seed_audit_entries(&mut w, 4);
    let page = w.get_access_audit_page(OWNER, 3, 1, 0).unwrap();
    assert_eq!(page.count, 1);
    assert_eq!(page.items.len(), 1);
    assert_eq!(page.next_cursor, 4);
}

#[test]
fn test_audit_page_single_entry_log() {
    let mut w = wallet(&[], 0);
    w.set_emergency_mode(OWNER, true, 0).unwrap();
    let page = w.get_access_audit_page(OWNER, 0, 10, 0).unwrap();
    assert_eq!(page.count, 1);
    assert_eq!(page.items.len(), 1);
    assert_eq!(page.next_cursor, 1);
    let page2 = w.get_access_audit_page(OWNER, page.next_cursor, 10, 0).unwrap();
    assert_eq!(page2.count, 0);
    assert_eq!(page2.next_cursor, 1);
}

#[test]
fn test_audit_page_full_iteration_no_skip_no_duplicate() {
    let mut w = wallet(&[], 0);
    let total_entries: u32 = 7;
    seed_audit_entries(&mut w, total_entries);
    let mut collected: u32 = 0;
    let mut cursor: u32 = 0;
    loop {
        let page = w.get_access_audit_page(OWNER, cursor, 3, 0).unwrap();
        collected += page.count;
        if page.count == 0 || page.next_cursor >= total_entries {
            break;
        }
        cursor = page.next_cursor;
    }
    assert_eq!(collected, total_entries);
}

#[test]
fn test_audit_page_cursor_stable_across_calls() {
    let mut w = wallet(&[], 0);
    seed_audit_entries(&mut w, 6);
    let a = w.get_access_audit_page(OWNER, 2, 3, 0).unwrap();
    let b = w.get_access_audit_page(OWNER, 2, 3, 0).unwrap();
    assert_eq!(a.count, b.count);
    assert_eq!(a.next_cursor, b.next_cursor);
    for i in 0..a.count as usize {
        assert_eq!(a.items[i].operation, b.items[i].operation);
        assert_eq!(a.items[i].caller, b.items[i].caller);
        assert_eq!(a.items[i].timestamp, b.items[i].timestamp);
    }
}

#[test]
fn test_remove_sole_signer_invalidates_proposal() {
    let now = 1_000;
    let signer = 11;
    let mut w = wallet(&[signer], now);
    w.configure_multisig(OWNER, TransactionType::RoleChange, 1, vec![signer], 0, now).unwrap();
    let tx_id = w.propose_role_change(OWNER, signer, FamilyRole::Admin, now).unwrap();
    assert!(tx_id > 0);
    assert!(w.get_pending_transaction(tx_id).unwrap().unwrap().expires_at > now);
    w.remove_family_member(OWNER, signer, now).unwrap();
    assert_eq!(w.get_pending_transaction(tx_id).unwrap().unwrap().expires_at, now);
}

#[test]
fn test_remove_one_signer_proposal_survives_when_quorum_still_met() {
    let now = 1_000;
    let (a, b, c) = (11, 12, 13);
    let mut w = wallet(&[a, b, c], now);
    w.configure_multisig(OWNER, TransactionType::RoleChange, 2, vec![a, b, c], 0, now).unwrap();
    let tx_id = w.propose_role_change(OWNER, a, FamilyRole::Admin, now).unwrap();
    assert!(tx_id > 0);
    let original_expiry = w.get_pending_transaction(tx_id).unwrap().unwrap().expires_at;
    w.remove_family_member(OWNER, c, now).unwrap();
    assert_eq!(w.get_pending_transaction(tx_id).unwrap().unwrap().expires_at, original_expiry);
}

#[test]
fn test_batch_remove_invalidates_proposals_below_quorum() {
    let now = 2_000;
    let (s1, s2, s3) = (11, 12, 13);
    let mut w = wallet(&[s1, s2, s3], now);
    w.configure_multisig(OWNER, TransactionType::RoleChange, 3, vec![s1, s2, s3], 0, now).unwrap();
    let tx_id = w.propose_role_change(OWNER, s1, FamilyRole::Admin, now).unwrap();
    assert!(tx_id > 0);
    assert_eq!(w.batch_remove_family_members(OWNER, &vec![s2, s3], now), Ok(2));
    assert_eq!(w.get_pending_transaction(tx_id).unwrap().unwrap().expires_at, now);
}

#[test]
fn test_removed_member_signature_stripped_from_proposal() {
    let now = 1_000;
    let (a, b) = (11, 12);
    let mut w = wallet(&[a, b], now);
    w.configure_multisig(OWNER, TransactionType::RoleChange, 2, vec![a, b], 0, now).unwrap();
    let tx_id = w.propose_role_change(a, a, FamilyRole::Admin, now).unwrap();
    assert!(tx_id > 0);
    assert_eq!(w.get_pending_transaction(tx_id).unwrap().unwrap().signatures.len(), 1);
    w.remove_family_member(OWNER, a, now).unwrap();
    let after = w.get_pending_transaction(tx_id).unwrap().unwrap();
    assert_eq!(after.signatures.len(), 0);
    assert_eq!(after.expires_at, now);
}

#[test]
fn test_revalidate_proposals_public_entry_point() {
    let now = 5_000;
    let (signer, regular) = (11, 12);
    let mut w = wallet(&[signer, regular], now);
    w.configure_multisig(OWNER, TransactionType::RoleChange, 1, vec![signer], 0, now).unwrap();
    let tx1 = w.propose_role_change(OWNER, signer, FamilyRole::Admin, now).unwrap();
    let tx2 = w.propose_role_change(OWNER, regular, FamilyRole::Admin, now).unwrap();
    assert!(tx1 > 0 && tx2 > 0);
    w.try_remove_family_member(OWNER, signer, now).unwrap();
    assert_eq!(w.try_revalidate_proposals(OWNER, now), Ok(0));
    assert!(w.try_revalidate_proposals(regular, now).is_err());
}

#[test]
fn test_auth_matrix_add_family_member_by_owner() {
    let mut w = wallet(&[], 0);
    assert_eq!(w.add_family_member(OWNER, NEW_MEMBER, FamilyRole::Admin, 0), Ok(true));
    assert_eq!(w.get_family_member(NEW_MEMBER).unwrap().unwrap().role, FamilyRole::Admin);
}

#[test]
fn test_auth_matrix_add_family_member_by_admin() {
    let mut w = wallet(&[], 0);
    w.add_family_member(OWNER, ADMIN, FamilyRole::Admin, 0).unwrap();
    assert_eq!(w.add_family_member(ADMIN, NEW_MEMBER, FamilyRole::Member, 0), Ok(true));
    assert!(w.get_family_member(NEW_MEMBER).unwrap().is_some());
}

#[test]
fn test_auth_matrix_add_family_member_by_member_fails() {
    let mut w = wallet(&[MEMBER], 0);
    assert!(w.try_add_family_member(MEMBER, NEW_MEMBER, FamilyRole::Member, 0).is_err());
    assert!(w.get_family_member(NEW_MEMBER).unwrap().is_none());
}

#[test]
fn test_auth_matrix_add_family_member_by_viewer_fails() {
    let mut w = wallet(&[], 0);
    w.try_add_family_member(OWNER, VIEWER, FamilyRole::Viewer, 0).unwrap();
    assert!(w.try_add_family_member(VIEWER, NEW_MEMBER, FamilyRole::Member, 0).is_err());
    assert!(w.get_family_member(NEW_MEMBER).unwrap().is_none());
}

#[test]
fn test_auth_matrix_remove_family_member_by_owner() {
    let target = 11;
    let mut w = wallet(&[target], 0);
    assert_eq!(w.remove_family_member(OWNER, target, 0), Ok(true));
    assert!(w.get_family_member(target).unwrap().is_none());
}

#[test]
fn test_auth_matrix_remove_family_member_by_admin_fails() {
    let target = 11;
    let mut w = wallet(&[target], 0);
    w.try_add_family_member(OWNER, ADMIN, FamilyRole::Admin, 0).unwrap();
    assert!(w.try_remove_family_member(ADMIN, target, 0).is_err());
    assert!(w.get_family_member(target).unwrap().is_some());
}

#[test]
fn test_auth_matrix_remove_family_member_by_member_fails() {
    let (m1, m2) = (11, 12);
    let mut w = wallet(&[m1, m2], 0);
    assert!(w.try_remove_family_member(m1, m2, 0).is_err());
    assert!(w.get_family_member(m2).unwrap().is_some());
}

#[test]
fn test_auth_matrix_remove_family_member_by_viewer_fails() {
    let target = 11;
    let mut w = wallet(&[target], 0);
    w.try_add_family_member(OWNER, VIEWER, FamilyRole::Viewer, 0).unwrap();
    assert!(w.try_remove_family_member(VIEWER, target, 0).is_err());
    assert!(w.get_family_member(target).unwrap().is_some());
}

#[test]
fn test_auth_matrix_update_spending_limit_by_owner() {
    let mut w = wallet(&[MEMBER], 0);
    let new_limit = 1000_0000000i128;
    assert_eq!(w.update_spending_limit(OWNER, MEMBER, new_limit, 0), Ok(true));
    assert_eq!(w.get_family_member(MEMBER).unwrap().unwrap().spending_limit, new_limit);
}

#[test]
fn test_auth_matrix_update_spending_limit_by_admin() {
    let mut w = wallet(&[MEMBER], 0);
    w.add_family_member(OWNER, ADMIN, FamilyRole::Admin, 0).unwrap();
    let new_limit = 500_0000000i128;
    assert_eq!(w.update_spending_limit(ADMIN, MEMBER, new_limit, 0), Ok(true));
    assert_eq!(w.get_family_member(MEMBER).unwrap().unwrap().spending_limit, new_limit);
}

#[test]
fn test_auth_matrix_update_spending_limit_by_member_fails() {
    let (m1, m2) = (11, 12);
    let mut w = wallet(&[m1, m2], 0);
    assert!(w.try_update_spending_limit(m1, m2, 1000_0000000, 0).is_err());
}

#[test]
fn test_auth_matrix_update_spending_limit_by_viewer_fails() {
    let mut w = wallet(&[MEMBER], 0);
    w.try_add_family_member(OWNER, VIEWER, FamilyRole::Viewer, 0).unwrap();
    assert!(w.try_update_spending_limit(VIEWER, MEMBER, 1000_0000000, 0).is_err());
}

#[test]
fn test_auth_matrix_prevent_owner_addition_by_admin() {
    let mut w = wallet(&[], 0);
    w.try_add_family_member(OWNER, ADMIN, FamilyRole::Admin, 0).unwrap();
    assert!(w.try_add_family_member(ADMIN, NEW_MEMBER, FamilyRole::Owner, 0).is_err());
    assert!(w.get_family_member(NEW_MEMBER).unwrap().is_none());
}

#[test]
fn test_auth_matrix_prevent_owner_removal() {
    let mut w = wallet(&[], 0);
    assert!(w.try_remove_family_member(OWNER, OWNER, 0).is_err());
    assert_eq!(w.get_owner(), Ok(OWNER));
}

#[test]
fn test_auth_matrix_comprehensive_role_isolation() {
    let target = 12;
    let mut w = wallet(&[MEMBER], 0);
    w.try_add_family_member(OWNER, VIEWER, FamilyRole::Viewer, 0).unwrap();
    w.try_add_family_member(OWNER, target, FamilyRole::Member, 0).unwrap();
    assert!(w.try_add_family_member(MEMBER, 40, FamilyRole::Member, 0).is_err());
    assert!(w.try_update_spending_limit(MEMBER, target, 1000_0000000, 0).is_err());
    assert!(w.try_add_family_member(VIEWER, 41, FamilyRole::Member, 0).is_err());
    assert!(w.try_update_spending_limit(VIEWER, target, 1000_0000000, 0).is_err());
}

#[test]
fn audit_trail_keeps_the_newest_entries() {
    let mut w = wallet(&[], 0);
    for t in 0..205u64 {
        w.set_emergency_mode(OWNER, t % 2 == 0, t).unwrap();
    }
    let last_page = w.get_access_audit_page(OWNER, 199, 10, 0).unwrap();
    assert_eq!(last_page.count, 1);
    assert_eq!(last_page.next_cursor, 200);
    let all = w.get_access_audit(u32::MAX);
    assert_eq!(all.len(), 200);
    assert_eq!(all[0].timestamp, 5);
    assert_eq!(all[199].timestamp, 204);
    let tail = w.get_access_audit(3);
    assert_eq!(tail.iter().map(|e| e.timestamp).collect::<Vec<_>>(), vec![202, 203, 204]);
}

#[test]
fn audit_page_refused_to_non_admin() {
    let mut w = wallet(&[MEMBER], 0);
    seed_audit_entries(&mut w, 2);
    assert!(w.get_access_audit_page(MEMBER, 0, 10, 0).is_err());
}

#[test]
fn upgrade_admin_controls_the_version() {
    let mut w = wallet(&[], 0);
    assert_eq!(w.set_version(OWNER, 2, 0), Ok(true));
    assert_eq!(w.get_version(), 2);
    assert_eq!(w.try_set_upgrade_admin(OWNER, ADMIN, 0), Ok(true));
    assert_eq!(w.get_upgrade_admin_public(), Some(ADMIN));
    assert!(w.try_set_version(OWNER, 3, 0).is_err());
    assert_eq!(w.set_version(ADMIN, 3, 0), Ok(true));
    assert_eq!(w.get_version(), 3);
}

#[test]
fn role_expiry_takes_effect_at_the_expiry_instant() {
    let mut w = wallet(&[], 0);
    w.add_member(OWNER, ADMIN, FamilyRole::Admin, 0, 0).unwrap();
    w.set_role_expiry(OWNER, ADMIN, Some(50), 0).unwrap();
    assert_eq!(w.get_role_expiry_public(ADMIN), Some(50));
    assert!(w.try_set_emergency_mode(ADMIN, true, 49).is_ok());
    assert!(w.try_set_emergency_mode(ADMIN, false, 50).is_err());
    assert!(w.is_emergency_mode());
}

#[test]
fn paused_wallet_refuses_member_changes() {
    let mut w = wallet(&[], 0);
    w.try_pause(OWNER, 0).unwrap();
    assert!(w.is_paused());
    assert!(w.try_add_family_member(OWNER, NEW_MEMBER, FamilyRole::Member, 0).is_err());
    w.unpause(OWNER, 0).unwrap();
    assert_eq!(w.add_family_member(OWNER, NEW_MEMBER, FamilyRole::Member, 0), Ok(true));
}

#[test]
fn admission_checks_answer_before_calling() {
    let mut w = FamilyWallet::new();
    assert!(!w.is_initialized());
    w.init(OWNER, &vec![MEMBER], 0).unwrap();
    assert!(w.is_initialized());
    assert!(w.is_owner_or_admin(OWNER, 0));
    assert!(!w.is_owner_or_admin(MEMBER, 0));
    assert_eq!(w.role_check(MEMBER, FamilyRole::Admin, 0), Some(remitwise::wallet::Error::InsufficientRole));
    assert_eq!(w.role_check(OWNER, FamilyRole::Admin, 0), None);
    assert_eq!(w.try_init(ADMIN, &vec![], 1), Err(remitwise::wallet::Error::AlreadyInitialized));
}

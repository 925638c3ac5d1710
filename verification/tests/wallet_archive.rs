use remitwise::common::FamilyRole;
use remitwise::wallet::{Error, FamilyWallet, TransactionType};

const OWNER: u64 = 1;
const MEMBER: u64 = 2;
const MEMBER2: u64 = 3;
const VIEWER: u64 = 6;
const RECIPIENT: u64 = 50;
const RECIPIENT2: u64 = 51;
const TOKEN: u64 = 900;

fn init(members: &[u64], now: u64) -> FamilyWallet {
    let mut w = FamilyWallet::new();
    assert_eq!(w.init(OWNER, &members.to_vec(), now), Ok(true));
    w
}

/// Executes a multisig withdrawal so that it lands in the executed list.
fn execute_one_tx(w: &mut FamilyWallet, member: u64, amount: i128, now: u64) -> u64 {
    let (tx_id, _) = w.withdraw(OWNER, TOKEN, RECIPIENT, amount, now).unwrap();
    assert!(tx_id > 0, "withdraw must create a pending tx");
    w.sign_transaction(member, tx_id, now).unwrap();
    tx_id
}

fn two_signer_wallet(now: u64) -> FamilyWallet {
    let mut w = init(&[MEMBER], now);
    w.configure_multisig(OWNER, TransactionType::LargeWithdrawal, 2, vec![OWNER, MEMBER], 1000_0000000, now)
        .unwrap();
    w
}

#[test]
fn test_archive_old_transactions() {
    let now = 2_000_000;
    let mut w = init(&[MEMBER], now);
    assert_eq!(w.archive_old_transactions(OWNER, 1_000_000, now), Ok(0));
    assert_eq!(w.get_archived_transactions(OWNER, 10, now).unwrap().len(), 0);
}

#[test]
fn test_cleanup_expired_pending() {
    let mut w = init(&[MEMBER, MEMBER2], 0);
    w.configure_multisig(OWNER, TransactionType::LargeWithdrawal, 2, vec![OWNER, MEMBER, MEMBER2], 1000_0000000, 0)
        .unwrap();
    let (tx_id, _) = w.withdraw(OWNER, TOKEN, RECIPIENT, 2000_0000000, 0).unwrap();
    assert!(tx_id > 0);
    assert!(w.get_pending_transaction(tx_id).unwrap().is_some());
    assert_eq!(w.cleanup_expired_pending(OWNER, 86401), Ok(1));
    assert!(w.get_pending_transaction(tx_id).unwrap().is_none());
}

#[test]
fn test_storage_stats() {
    let mut w = init(&[MEMBER, MEMBER2], 0);
    w.archive_old_transactions(OWNER, 1_000_000, 2_000_000).unwrap();
    let stats = w.get_storage_stats();
    assert_eq!(stats.total_members, 3);
    assert_eq!(stats.pending_transactions, 0);
    assert_eq!(stats.archived_transactions, 0);
}

#[test]
fn test_archive_unauthorized() {
    let mut w = init(&[MEMBER], 0);
    assert_eq!(w.try_archive_old_transactions(MEMBER, 1_000_000, 0), Err(Error::Unauthorized));
}

#[test]
fn test_cleanup_unauthorized() {
    let mut w = init(&[MEMBER], 0);
    assert_eq!(w.try_cleanup_expired_pending(MEMBER, 0), Err(Error::Unauthorized));
}

#[test]
fn test_archive_future_retention_cutoff_panics() {
    let mut w = init(&[MEMBER], 0);
    assert_eq!(w.try_archive_old_transactions(OWNER, 2000, 1000), Err(Error::InvalidArchiveCutoff));
}

#[test]
fn test_archive_preserves_execution_metadata() {
    let mut w = init(&[MEMBER, MEMBER2], 0);
    w.configure_multisig(OWNER, TransactionType::LargeWithdrawal, 3, vec![OWNER, MEMBER, MEMBER2], 1000_0000000, 0)
        .unwrap();
    let (tx_id, _) = w.withdraw(OWNER, TOKEN, RECIPIENT, 2000_0000000, 10_000).unwrap();
    assert!(tx_id > 0);
    w.sign_transaction(MEMBER, tx_id, 10_000).unwrap();
    w.sign_transaction(MEMBER2, tx_id, 20_000).unwrap();
    assert!(w.get_pending_transaction(tx_id).unwrap().is_none());
    assert_eq!(w.archive_old_transactions(OWNER, 25_000, 50_000), Ok(1));
    let archived = w.get_archived_transactions(OWNER, 10, 50_000).unwrap();
    assert_eq!(archived.len(), 1);
    let row = archived[0];
    assert_eq!(row.tx_id, tx_id);
    assert_eq!(row.tx_type, TransactionType::LargeWithdrawal);
    assert_eq!(row.proposer, OWNER);
    assert_eq!(row.executed_at, 20_000);
    assert_eq!(row.archived_at, 50_000);
}

#[test]
fn test_get_archived_unauthorized() {
    let w = init(&[MEMBER], 0);
    assert_eq!(w.get_archived_transactions(MEMBER, 10, 0).err(), Some(Error::Unauthorized));
}

#[test]
fn test_archive_nothing_to_archive() {
    let now = 2_000;
    let mut w = init(&[], now);
    assert_eq!(w.archive_old_transactions(OWNER, 1_000, now), Ok(0), "nothing to archive");
    assert_eq!(w.get_archived_transactions(OWNER, 10, now).unwrap().len(), 0);
    assert_eq!(w.get_storage_stats().archived_transactions, 0);
}

#[test]
fn test_archive_boundary_strictly_less_than() {
    let mut w = two_signer_wallet(1_000);
    execute_one_tx(&mut w, MEMBER, 2000_0000000, 1_000);
    assert_eq!(w.archive_old_transactions(OWNER, 1_000, 1_000), Ok(0), "entry at cutoff must not be archived");
    assert_eq!(w.archive_old_transactions(OWNER, 1_001, 5_000), Ok(1), "entry strictly before cutoff must be archived");
    let archived = w.get_archived_transactions(OWNER, 10, 5_000).unwrap();
    assert_eq!(archived.len(), 1);
    assert_eq!(archived[0].executed_at, 1_000);
}

#[test]
fn test_archive_count_matches_entries_moved() {
    let mut w = two_signer_wallet(1_000);
    for _ in 0..3 {
        execute_one_tx(&mut w, MEMBER, 2000_0000000, 1_000);
    }
    assert_eq!(w.archive_old_transactions(OWNER, 2_000, 5_000), Ok(3), "count must match entries moved");
    assert_eq!(w.get_archived_transactions(OWNER, 10, 5_000).unwrap().len(), 3);
    let stats = w.get_storage_stats();
    assert_eq!(stats.archived_transactions, 3);
    assert_eq!(stats.pending_transactions, 0);
}

#[test]
fn test_archive_ordering_preserved() {
    let mut w = two_signer_wallet(1_000);
    let timestamps = [1_000u64, 2_000, 3_000];
    for ts in timestamps.iter() {
        execute_one_tx(&mut w, MEMBER, 2000_0000000, *ts);
    }
    assert_eq!(w.archive_old_transactions(OWNER, 5_000, 10_000), Ok(3));
    let archived = w.get_archived_transactions(OWNER, 10, 10_000).unwrap();
    assert_eq!(archived.len(), 3);
    let mut found = [false; 3];
    for entry in archived.iter() {
        for (j, &ts) in timestamps.iter().enumerate() {
            if entry.executed_at == ts {
                found[j] = true;
            }
        }
    }
    assert!(found[0] && found[1] && found[2], "all executed_at timestamps must be preserved");
}

#[test]
fn test_archive_stor_stat_updated() {
    let mut w = two_signer_wallet(1_000);
    execute_one_tx(&mut w, MEMBER, 2000_0000000, 1_000);
    assert_eq!(w.get_storage_stats().archived_transactions, 0);
    w.archive_old_transactions(OWNER, 2_000, 5_000).unwrap();
    assert_eq!(w.get_storage_stats().archived_transactions, 1, "STOR_STAT must be updated after archive");
}

#[test]
fn test_archive_get_archived_limit_clamped() {
    let mut w = two_signer_wallet(1_000);
    execute_one_tx(&mut w, MEMBER, 2000_0000000, 1_000);
    w.archive_old_transactions(OWNER, 2_000, 5_000).unwrap();
    assert_eq!(w.get_archived_transactions(OWNER, 0, 5_000).unwrap().len(), 1, "limit=0 must use default page limit");
    assert_eq!(w.get_archived_transactions(OWNER, 9999, 5_000).unwrap().len(), 1, "limit=9999 must be clamped");
}

#[test]
fn test_archive_future_cutoff_rejected() {
    let mut w = init(&[], 1_000);
    assert!(w.try_archive_old_transactions(OWNER, 9_999_999, 1_000).is_err(), "future cutoff must be rejected");
}

#[test]
fn test_archive_re_pause_cancels_no_double_archive() {
    let mut w = two_signer_wallet(1_000);
    execute_one_tx(&mut w, MEMBER, 2000_0000000, 1_000);
    assert_eq!(w.archive_old_transactions(OWNER, 2_000, 5_000), Ok(1));
    assert_eq!(w.archive_old_transactions(OWNER, 2_000, 5_000), Ok(0), "second archive call must not double-count");
    assert_eq!(w.get_archived_transactions(OWNER, 10, 5_000).unwrap().len(), 1, "ARCH_TX must still have exactly 1 entry");
}

#[test]
fn test_emergency_proposal_replay_prevention() {
    let mut w = init(&[MEMBER], 0);
    assert!(w.propose_emergency_transfer(MEMBER, TOKEN, RECIPIENT, 1000_0000000, 0, 0).is_ok());
    assert_eq!(
        w.try_propose_emergency_transfer(MEMBER, TOKEN, RECIPIENT, 1000_0000000, 0, 0),
        Err(Error::DuplicateEmergencyProposal)
    );
}

#[test]
fn test_emergency_proposal_frequency_burst() {
    let mut w = init(&[MEMBER], 0);
    assert!(w.propose_emergency_transfer(MEMBER, TOKEN, RECIPIENT, 1000_0000000, 0, 0).is_ok());
    assert_eq!(
        w.try_propose_emergency_transfer(MEMBER, TOKEN, RECIPIENT2, 500_0000000, 0, 0),
        Err(Error::EmergencyProposalPending)
    );
}

#[test]
fn test_emergency_proposal_role_misuse() {
    let mut w = init(&[], 0);
    w.add_family_member(OWNER, VIEWER, FamilyRole::Viewer, 0).unwrap();
    assert_eq!(
        w.try_propose_emergency_transfer(VIEWER, TOKEN, RECIPIENT, 1000_0000000, 0, 0),
        Err(Error::InsufficientRole)
    );
}

#[test]
fn test_archive_cap_evicts_lowest_id() {
    let mut w = two_signer_wallet(1_000);
    let mut first = 0;
    for i in 0..502u64 {
        let id = execute_one_tx(&mut w, MEMBER, 2000_0000000, 1_000 + i);
        if i == 0 {
            first = id;
        }
    }
    assert_eq!(w.archive_old_transactions(OWNER, 10_000, 10_000), Ok(502));
    assert_eq!(w.get_storage_stats().archived_transactions, 500);
    let page = w.get_archived_transactions(OWNER, 1, 10_000).unwrap();
    assert_eq!(page[0].tx_id, first + 2);
    assert_eq!(w.get_archived_transactions(OWNER, 0, 10_000).unwrap().len(), 20);
    assert_eq!(w.get_archived_transactions(OWNER, 1_000, 10_000).unwrap().len(), 100);
}

#[test]
fn archive_count_is_capped_across_rounds() {
    let mut w = two_signer_wallet(1_000);
    let mut ids = Vec::new();
    for i in 0..502u64 {
        ids.push(execute_one_tx(&mut w, MEMBER, 2000_0000000, 1_000 + i));
    }
    // The first 499 executions move, the archive holds 499.
    assert_eq!(w.archive_old_transactions(OWNER, 1_499, 10_000), Ok(499));
    assert_eq!(w.get_storage_stats().archived_transactions, 499);
    // Three more: one fills the archive, two each evict the lowest id then present.
    assert_eq!(w.archive_old_transactions(OWNER, 10_000, 10_000), Ok(3));
    assert_eq!(w.get_storage_stats().archived_transactions, 500);
    let lowest = w.get_archived_transactions(OWNER, 1, 10_000).unwrap();
    assert_eq!(lowest[0].tx_id, ids[2]);
}

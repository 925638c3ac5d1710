use remitwise::wallet::{Error, FamilyWallet, TransactionType, Transfer};

const OWNER: u64 = 1;
const SIGNER_A: u64 = 2;
const SIGNER_B: u64 = 3;
const SIGNER_C: u64 = 4;
const RECIPIENT: u64 = 50;
const TOKEN: u64 = 900;

/// What the recipient has received from the transfers handed back.
fn received(transfers: &[Option<Transfer>]) -> i128 {
    transfers.iter().flatten().filter(|t| t.to == RECIPIENT && t.token == TOKEN).map(|t| t.amount).sum()
}

fn wallet_with_signers(signers: Vec<u64>) -> FamilyWallet {
    let mut w = FamilyWallet::new();
    w.init(OWNER, &vec![SIGNER_A, SIGNER_B, SIGNER_C], 0).unwrap();
    w.configure_multisig(OWNER, TransactionType::LargeWithdrawal, 3, signers, 1_000_0000000, 0).unwrap();
    w
}

fn rotate(w: &mut FamilyWallet, signers: Vec<u64>) {
    assert_eq!(
        w.configure_multisig(OWNER, TransactionType::LargeWithdrawal, 3, signers, 1_000_0000000, 0),
        Ok(true)
    );
}

#[test]
fn signer_rotation_stale_signature_does_not_count_toward_quorum() {
    let mut w = wallet_with_signers(vec![OWNER, SIGNER_A, SIGNER_B]);
    let mut transfers = Vec::new();
    let (tx_id, t) = w.withdraw(OWNER, TOKEN, RECIPIENT, 2_000_0000000, 0).unwrap();
    transfers.push(t);
    transfers.push(w.sign_transaction(SIGNER_A, tx_id, 0).unwrap().1);
    rotate(&mut w, vec![OWNER, SIGNER_B, SIGNER_C]);
    transfers.push(w.sign_transaction(SIGNER_C, tx_id, 0).unwrap().1);
    assert!(w.get_pending_transaction(tx_id).unwrap().is_some());
    assert_eq!(received(&transfers), 0);
}

#[test]
fn signer_rotation_new_signer_can_sign_and_reach_quorum() {
    let mut w = wallet_with_signers(vec![OWNER, SIGNER_A, SIGNER_B]);
    let mut transfers = Vec::new();
    let (tx_id, t) = w.withdraw(OWNER, TOKEN, RECIPIENT, 2_000_0000000, 0).unwrap();
    transfers.push(t);
    rotate(&mut w, vec![OWNER, SIGNER_B, SIGNER_C]);
    transfers.push(w.sign_transaction(SIGNER_B, tx_id, 0).unwrap().1);
    assert!(w.get_pending_transaction(tx_id).unwrap().is_some());
    transfers.push(w.sign_transaction(SIGNER_C, tx_id, 0).unwrap().1);
    assert!(w.get_pending_transaction(tx_id).unwrap().is_none());
    assert_eq!(received(&transfers), 2_000_0000000);
}

#[test]
fn signer_rotation_rejects_threshold_above_signer_count() {
    let mut w = FamilyWallet::new();
    w.try_init(OWNER, &vec![SIGNER_A, SIGNER_B], 0).unwrap();
    let r = w.try_configure_multisig(OWNER, TransactionType::LargeWithdrawal, 3, vec![OWNER, SIGNER_A], 1_000_0000000, 0);
    assert_eq!(r, Err(Error::InvalidThreshold));
    assert!(w.get_multisig_config(TransactionType::LargeWithdrawal).unwrap().signers.is_empty());
}

#[test]
fn signer_rotation_removing_proposer_invalidates_or_ignores_auto_signature() {
    let mut w = wallet_with_signers(vec![OWNER, SIGNER_A, SIGNER_B]);
    let mut transfers = Vec::new();
    let (tx_id, t) = w.withdraw(OWNER, TOKEN, RECIPIENT, 2_000_0000000, 0).unwrap();
    transfers.push(t);
    rotate(&mut w, vec![SIGNER_A, SIGNER_B, SIGNER_C]);
    transfers.push(w.sign_transaction(SIGNER_A, tx_id, 0).unwrap().1);
    transfers.push(w.sign_transaction(SIGNER_B, tx_id, 0).unwrap().1);
    assert!(w.get_pending_transaction(tx_id).unwrap().is_some());
    assert_eq!(received(&transfers), 0);
}

#[test]
fn signer_rotation_remaining_current_signer_completes_quorum() {
    let mut w = wallet_with_signers(vec![OWNER, SIGNER_A, SIGNER_B]);
    let (tx_id, _) = w.withdraw(OWNER, TOKEN, RECIPIENT, 2_000_0000000, 0).unwrap();
    w.sign_transaction(SIGNER_A, tx_id, 0).unwrap();
    rotate(&mut w, vec![OWNER, SIGNER_B, SIGNER_C]);
    // Counted: owner only; the stale approval of signer A stays recorded.
    let (_, t) = w.sign_transaction(SIGNER_C, tx_id, 0).unwrap();
    assert!(t.is_none());
    let (_, t) = w.sign_transaction(SIGNER_B, tx_id, 0).unwrap();
    assert_eq!(received(&[t]), 2_000_0000000);
    assert!(w.get_pending_transaction(tx_id).unwrap().is_none());
}

#[test]
fn proposer_signature_is_counted_once() {
    let mut w = wallet_with_signers(vec![OWNER, SIGNER_A, SIGNER_B]);
    let (tx_id, t) = w.withdraw(OWNER, TOKEN, RECIPIENT, 2_000_0000000, 0).unwrap();
    assert!(t.is_none());
    assert_eq!(w.sign_transaction(OWNER, tx_id, 0), Ok((false, None)));
    assert_eq!(w.get_pending_transaction(tx_id).unwrap().unwrap().signatures, vec![OWNER]);
}

#[test]
fn expired_proposal_cannot_be_signed() {
    let mut w = wallet_with_signers(vec![OWNER, SIGNER_A, SIGNER_B]);
    let (tx_id, _) = w.try_withdraw(OWNER, TOKEN, RECIPIENT, 2_000_0000000, 0).unwrap();
    let expires_at = w.get_pending_transaction(tx_id).unwrap().unwrap().expires_at;
    assert_eq!(w.try_sign_transaction(SIGNER_A, tx_id, expires_at + 1), Err(Error::TransactionExpired));
    assert_eq!(w.get_pending_transaction(tx_id).unwrap().unwrap().signatures, vec![OWNER]);
}

#[test]
fn wallet_initializes_once() {
    let mut w = FamilyWallet::new();
    assert_eq!(w.try_init(OWNER, &vec![SIGNER_A], 0), Ok(true));
    assert!(w.try_init(SIGNER_B, &vec![], 5).is_err());
    assert_eq!(w.get_owner(), Ok(OWNER));
}

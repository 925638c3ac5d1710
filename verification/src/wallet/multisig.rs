//! Multisig configuration, proposals, signing and execution, proposal
//! housekeeping and precision spending rules.

use vstd::prelude::*;
use crate::common::{Address, FamilyRole};
use crate::ordmap::{count_keys, lemma_count_step, sorted_keys, OrdMap};
use super::{
    audited, config_slot, initialized, owner_or_admin, role_error, role_expired, type_code,
    wallet_inv, AuditOp, Error, ExecutedTxMeta, FamilyMember, FamilyWallet, MultiSigConfig,
    MultiSigConfigView, PendingTransaction, PendingTxPage, PendingView, SpendingPeriod, SpendingTracker,
    StorageStats, TransactionData, TransactionType, Transfer, WalletView, DAY_SECS, DEFAULT_PENDING_PAGE_LIMIT,
    DEFAULT_PROPOSAL_EXPIRY, MAX_PENDING_PAGE_LIMIT, MAX_SIGNERS, MAX_THRESHOLD, MIN_THRESHOLD,
};
use super::archive::{stats_fit, stats_of};

verus! {

/// The first refusal, in list order, of a signer list: a non-member, or an
/// address listed twice.
pub open spec fn signer_error(members: Map<u64, FamilyMember>, signers: Seq<Address>) -> Option<Error>
    decreases signers.len(),
{
    if signers.len() == 0 {
        None
    } else {
        match signer_error(members, signers.drop_last()) {
            Some(e) => Some(e),
            None => {
                let a = signers.last();
                if !members.contains_key(a) {
                    Some(Error::SignerNotMember)
                } else if signers.drop_last().contains(a) {
                    Some(Error::DuplicateSigner)
                } else {
                    None
                }
            },
        }
    }
}

pub open spec fn configure_multisig_spec(
    s: WalletView,
    caller: Address,
    t: TransactionType,
    threshold: u32,
    signers: Seq<Address>,
    limit: i128,
    now: u64,
) -> (WalletView, Result<bool, Error>) {
    if s.paused {
        (s, Err(Error::ContractPaused))
    } else if !initialized(s) {
        (s, Err(Error::NotInitialized))
    } else if !owner_or_admin(s, caller, now) {
        (s, Err(Error::Unauthorized))
    } else if signers.len() == 0 {
        (s, Err(Error::SignersListEmpty))
    } else if signers.len() > MAX_SIGNERS {
        (s, Err(Error::TooManySigners))
    } else if threshold < MIN_THRESHOLD {
        (s, Err(Error::ThresholdBelowMinimum))
    } else if threshold > MAX_THRESHOLD {
        (s, Err(Error::ThresholdAboveMaximum))
    } else if threshold > signers.len() {
        (s, Err(Error::InvalidThreshold))
    } else {
        match signer_error(s.members, signers) {
            Some(e) => (s, Err(e)),
            None => if limit < 0 {
                (s, Err(Error::InvalidSpendingLimit))
            } else {
                (
                    WalletView {
                        configs: s.configs.insert(
                            type_code(t),
                            MultiSigConfigView { threshold, signers, spending_limit: limit },
                        ),
                        ..s
                    },
                    Ok(true),
                )
            },
        }
    }
}

/// The configuration a proposal of type `t` is judged by (regular
/// withdrawals use the large-withdrawal configuration).
pub open spec fn propose_slot(t: TransactionType) -> u64 {
    if t == TransactionType::RegularWithdrawal {
        type_code(TransactionType::LargeWithdrawal)
    } else {
        type_code(t)
    }
}

/// Whether a proposal needs signatures: everything but a regular withdrawal
/// within the configured spending limit.
pub open spec fn needs_multisig(t: TransactionType, data: TransactionData, cfg: MultiSigConfigView) -> bool {
    match t {
        TransactionType::RegularWithdrawal => match data {
            TransactionData::Withdrawal(_, _, amount) => amount > cfg.spending_limit,
            _ => false,
        },
        _ => true,
    }
}

/// The start of the daily window holding `now`.
pub open spec fn window_start(now: u64) -> u64 {
    ((now / DAY_SECS) * DAY_SECS) as u64
}

/// A tracker with nothing spent in the window starting at `start`.
pub open spec fn fresh_tracker(start: u64) -> SpendingTracker {
    SpendingTracker {
        current_spent: 0,
        last_tx_timestamp: 0,
        tx_count: 0,
        period: SpendingPeriod { period_type: 0, period_start: start, period_duration: DAY_SECS },
    }
}

/// The spending tracker of `p` for the window holding `now` (a stored
/// tracker of another window starts over).
pub open spec fn current_tracker(s: WalletView, p: Address, now: u64) -> SpendingTracker {
    if s.trackers.contains_key(p) && s.trackers[p].period.period_start == window_start(now) {
        s.trackers[p]
    } else {
        fresh_tracker(window_start(now))
    }
}

/// Whether `p` is an Owner or Admin member (who bypass spending rules).
pub open spec fn privileged(s: WalletView, p: Address) -> bool {
    s.members[p].role == FamilyRole::Owner || s.members[p].role == FamilyRole::Admin
}

/// The refusal, if any, of a withdrawal of `amount` by `p` under the
/// spending rules: precision rules when `p` has them (with the daily window
/// cap when rollover is on), else the member's per-transaction limit.
pub open spec fn precision_error(s: WalletView, p: Address, amount: i128, now: u64) -> Option<Error> {
    if amount <= 0 {
        Some(Error::InvalidAmount)
    } else if !s.members.contains_key(p) {
        Some(Error::MemberNotFound)
    } else if privileged(s, p) {
        None
    } else if s.prec_limits.contains_key(p) {
        let l = s.prec_limits[p];
        if amount < l.min_precision || amount > l.max_single_tx {
            Some(Error::InvalidPrecisionConfig)
        } else if l.enable_rollover && current_tracker(s, p, now).current_spent + amount > l.limit {
            Some(Error::InvalidSpendingLimit)
        } else {
            None
        }
    } else if s.members[p].spending_limit > 0 && amount > s.members[p].spending_limit {
        Some(Error::InvalidSpendingLimit)
    } else {
        None
    }
}

/// The wallet after `p` spent `amount`: the window tracker of a member
/// with rollover rules grows by the amount (saturating) and one withdrawal.
pub open spec fn record_spending(s: WalletView, p: Address, amount: i128, now: u64) -> WalletView {
    if !s.members.contains_key(p) || privileged(s, p) || !s.prec_limits.contains_key(p)
        || !s.prec_limits[p].enable_rollover {
        s
    } else {
        let cur = current_tracker(s, p, now);
        let spent = if cur.current_spent + amount > i128::MAX || cur.current_spent + amount
            < i128::MIN {
            i128::MAX
        } else {
            (cur.current_spent + amount) as i128
        };
        let count = if cur.tx_count == u32::MAX {
            u32::MAX
        } else {
            (cur.tx_count + 1) as u32
        };
        WalletView {
            trackers: s.trackers.insert(
                p,
                SpendingTracker {
                    current_spent: spent,
                    last_tx_timestamp: now,
                    tx_count: count,
                    period: cur.period,
                },
            ),
            ..s
        }
    }
}

/// Executing a proposal's effect: a withdrawal passes the spending rules,
/// is recorded and moves funds; a role change sets an existing member's
/// role; an emergency transfer moves funds; a split change or policy
/// cancellation has no effect here; a type that does not match its data is
/// refused.
pub open spec fn execute_spec(
    s: WalletView,
    proposer: Address,
    t: TransactionType,
    data: TransactionData,
    require_auth: bool,
    now: u64,
) -> (WalletView, Result<Option<Transfer>, Error>) {
    match data {
        TransactionData::Withdrawal(token, to, amount) => if t == TransactionType::RegularWithdrawal
            || t == TransactionType::LargeWithdrawal {
            match precision_error(s, proposer, amount, now) {
                Some(e) => (s, Err(e)),
                None => (
                    record_spending(s, proposer, amount, now),
                    Ok(
                        Some(
                            Transfer {
                                token,
                                from: proposer,
                                to,
                                amount,
                                from_must_authorize: require_auth,
                            },
                        ),
                    ),
                ),
            }
        } else {
            (s, Err(Error::InvalidTransactionType))
        },
        TransactionData::SplitConfigChange(..) => if t == TransactionType::SplitConfigChange {
            (s, Ok(None))
        } else {
            (s, Err(Error::InvalidTransactionType))
        },
        TransactionData::RoleChange(member, role) => if t == TransactionType::RoleChange {
            if s.members.contains_key(member) {
                (
                    audited(
                        WalletView {
                            members: s.members.insert(
                                member,
                                FamilyMember { role, ..s.members[member] },
                            ),
                            ..s
                        },
                        AuditOp::RoleChange,
                        proposer,
                        Some(member),
                        now,
                    ),
                    Ok(None),
                )
            } else {
                (s, Ok(None))
            }
        } else {
            (s, Err(Error::InvalidTransactionType))
        },
        TransactionData::EmergencyTransfer(token, to, amount) => if t
            == TransactionType::EmergencyTransfer {
            (
                s,
                Ok(
                    Some(
                        Transfer { token, from: proposer, to, amount, from_must_authorize: require_auth },
                    ),
                ),
            )
        } else {
            (s, Err(Error::InvalidTransactionType))
        },
        TransactionData::PolicyCancellation(..) => if t == TransactionType::PolicyCancellation {
            (s, Ok(None))
        } else {
            (s, Err(Error::InvalidTransactionType))
        },
    }
}

/// The lifetime given to new proposals (0: they never expire).
pub open spec fn proposal_lifetime(s: WalletView) -> u64 {
    match s.prop_exp {
        Some(d) => d,
        None => DEFAULT_PROPOSAL_EXPIRY,
    }
}

/// Proposing: a regular withdrawal within the limit executes at once and
/// yields id 0; anything else becomes a pending proposal under the next id,
/// signed by its proposer, expiring after the configured lifetime.
pub open spec fn propose_spec(
    s: WalletView,
    proposer: Address,
    t: TransactionType,
    data: TransactionData,
    now: u64,
) -> (WalletView, Result<(u64, Option<Transfer>), Error>) {
    if s.paused {
        (s, Err(Error::ContractPaused))
    } else {
        match role_error(s, proposer, FamilyRole::Member, now) {
            Some(e) => (s, Err(e)),
            None => if !s.configs.contains_key(propose_slot(t)) {
                (s, Err(Error::ConfigNotFound))
            } else if !needs_multisig(t, data, s.configs[propose_slot(t)]) {
                match execute_spec(s, proposer, t, data, false, now) {
                    (s2, Ok(tr)) => (s2, Ok((0u64, tr))),
                    (_, Err(e)) => (s, Err(e)),
                }
            } else if s.next_tx == u64::MAX {
                (s, Err(Error::ArithmeticOverflow))
            } else if proposal_lifetime(s) != 0 && now + proposal_lifetime(s) > u64::MAX {
                (s, Err(Error::ArithmeticOverflow))
            } else {
                let id = s.next_tx;
                let expires = if proposal_lifetime(s) == 0 {
                    u64::MAX
                } else {
                    (now + proposal_lifetime(s)) as u64
                };
                let tx = PendingView {
                    tx_id: id,
                    tx_type: t,
                    proposer,
                    signatures: seq![proposer],
                    created_at: now,
                    expires_at: expires,
                    data,
                };
                (
                    WalletView {
                        pending: s.pending.insert(id, tx),
                        next_tx: (id + 1) as u64,
                        ..s
                    },
                    Ok((id, None)),
                )
            },
        }
    }
}

/// The signatures that count toward quorum: those of accounts that are
/// configured signers now. A signature collected before the signer was
/// rotated out of the configuration stays recorded but does not count.
pub open spec fn counted_signatures(sigs: Seq<Address>, signers: Seq<Address>) -> Seq<Address> {
    sigs.filter(|a: Address| signers.contains(a))
}

/// Signing: a new signature from a configured signer is recorded; once the
/// signatures of currently configured signers reach the threshold the
/// proposal executes and moves to the executed list. A repeated signature
/// changes nothing and answers `false`.
pub open spec fn sign_spec(s: WalletView, signer: Address, tx_id: u64, now: u64) -> (WalletView, Result<
    (bool, Option<Transfer>),
    Error,
>) {
    if s.paused {
        (s, Err(Error::ContractPaused))
    } else if !s.members.contains_key(signer) {
        (s, Err(Error::SignerNotMember))
    } else {
        match role_error(s, signer, FamilyRole::Member, now) {
            Some(e) => (s, Err(e)),
            None => if !s.pending.contains_key(tx_id) {
                (s, Err(Error::TransactionNotFound))
            } else {
                let tx = s.pending[tx_id];
                if now > tx.expires_at {
                    (s, Err(Error::TransactionExpired))
                } else if tx.signatures.contains(signer) {
                    (s, Ok((false, None)))
                } else if !s.configs.contains_key(type_code(tx.tx_type)) {
                    (s, Err(Error::ConfigNotFound))
                } else if !s.configs[type_code(tx.tx_type)].signers.contains(signer) {
                    (s, Err(Error::SignerNotMember))
                } else {
                    let sigs = tx.signatures.push(signer);
                    if counted_signatures(sigs, s.configs[type_code(tx.tx_type)].signers).len()
                        >= s.configs[type_code(tx.tx_type)].threshold {
                        match execute_spec(s, tx.proposer, tx.tx_type, tx.data, true, now) {
                            (s2, Ok(tr)) => (
                                WalletView {
                                    pending: s2.pending.remove(tx_id),
                                    executed: s2.executed.insert(
                                        tx_id,
                                        ExecutedTxMeta {
                                            tx_id,
                                            tx_type: tx.tx_type,
                                            proposer: tx.proposer,
                                            executed_at: now,
                                        },
                                    ),
                                    ..s2
                                },
                                Ok((true, tr)),
                            ),
                            (_, Err(e)) => (s, Err(e)),
                        }
                    } else {
                        (
                            WalletView {
                                pending: s.pending.insert(tx_id, PendingView { signatures: sigs, ..tx }),
                                ..s
                            },
                            Ok((true, None)),
                        )
                    }
                }
            },
        }
    }
}

/// Whether `a` is a member whose role has not expired.
pub open spec fn signer_active(s: WalletView, a: Address, now: u64) -> bool {
    s.members.contains_key(a) && !role_expired(s, a, now)
}

/// The accounts of a list that are still active members.
pub open spec fn active_signers(s: WalletView, sigs: Seq<Address>, now: u64) -> Seq<Address> {
    sigs.filter(|a: Address| signer_active(s, a, now))
}

/// Whether a proposal can no longer reach its threshold: its type has no
/// configuration, or fewer configured signers are active than needed.
pub open spec fn quorum_lost(s: WalletView, tx: PendingView, now: u64) -> bool {
    !s.configs.contains_key(type_code(tx.tx_type)) || active_signers(
        s,
        s.configs[type_code(tx.tx_type)].signers,
        now,
    ).len() < s.configs[type_code(tx.tx_type)].threshold
}

/// A live proposal after revalidation: signatures of accounts that are no
/// longer active members are dropped, and a proposal that lost its quorum
/// expires now. Expired proposals are left as they are.
pub open spec fn revalidate_tx(s: WalletView, tx: PendingView, now: u64) -> PendingView {
    if tx.expires_at <= now {
        tx
    } else {
        let tx1 = PendingView { signatures: active_signers(s, tx.signatures, now), ..tx };
        if quorum_lost(s, tx, now) {
            PendingView { expires_at: now, ..tx1 }
        } else {
            tx1
        }
    }
}

/// Whether revalidation invalidates a proposal.
pub open spec fn invalidated(s: WalletView, tx: PendingView, now: u64) -> bool {
    tx.expires_at > now && quorum_lost(s, tx, now)
}

/// The pending proposals after revalidation.
pub open spec fn revalidated(s: WalletView, now: u64) -> Map<u64, PendingView> {
    Map::new(|k: u64| s.pending.contains_key(k), |k: u64| revalidate_tx(s, s.pending[k], now))
}

/// Whether revalidation invalidates the proposal stored under a key.
pub open spec fn invalid_pred(s: WalletView, now: u64) -> spec_fn(u64) -> bool {
    |k: u64| invalidated(s, s.pending[k], now)
}

/// The number of proposals revalidation invalidates.
pub open spec fn revalidate_count(s: WalletView, now: u64) -> nat {
    count_keys(sorted_keys(s.pending), invalid_pred(s, now))
}

/// The wallet with the listed accounts no longer members.
pub open spec fn without_members(s: WalletView, gone: Seq<Address>) -> WalletView {
    WalletView { members: s.members.remove_keys(gone.to_set()), ..s }
}

pub open spec fn revalidate_spec(s: WalletView, caller: Address, now: u64) -> (WalletView, Result<u32, Error>) {
    if s.paused {
        (s, Err(Error::ContractPaused))
    } else if !owner_or_admin(s, caller, now) {
        (s, Err(Error::Unauthorized))
    } else if revalidate_count(s, now) > u32::MAX {
        (s, Err(Error::ArithmeticOverflow))
    } else {
        (WalletView { pending: revalidated(s, now), ..s }, Ok(revalidate_count(s, now) as u32))
    }
}

pub open spec fn cancel_spec(s: WalletView, caller: Address, tx_id: u64, now: u64) -> (WalletView, Result<bool, Error>) {
    if s.paused {
        (s, Err(Error::ContractPaused))
    } else if !initialized(s) {
        (s, Err(Error::NotInitialized))
    } else if !s.pending.contains_key(tx_id) {
        (s, Err(Error::TransactionNotFound))
    } else if caller != s.pending[tx_id].proposer && !owner_or_admin(s, caller, now) {
        (s, Err(Error::Unauthorized))
    } else {
        (WalletView { pending: s.pending.remove(tx_id), ..s }, Ok(true))
    }
}

/// Whether a proposal's expiry lies strictly before `now`.
pub open spec fn lapsed(tx: PendingView, now: u64) -> bool {
    tx.expires_at < now
}

/// Whether the proposal stored under a key has lapsed.
pub open spec fn lapsed_pred(s: WalletView, now: u64) -> spec_fn(u64) -> bool {
    |k: u64| lapsed(s.pending[k], now)
}

/// The pending proposals that have not lapsed.
pub open spec fn unlapsed(s: WalletView, now: u64) -> Map<u64, PendingView> {
    Map::new(|k: u64| s.pending.contains_key(k) && !lapsed(s.pending[k], now), |k: u64| s.pending[k])
}

/// The number of lapsed proposals.
pub open spec fn lapsed_count(s: WalletView, now: u64) -> nat {
    count_keys(sorted_keys(s.pending), lapsed_pred(s, now))
}

pub open spec fn cleanup_spec(s: WalletView, caller: Address, now: u64) -> (WalletView, Result<u32, Error>) {
    if s.paused {
        (s, Err(Error::ContractPaused))
    } else if !owner_or_admin(s, caller, now) {
        (s, Err(Error::Unauthorized))
    } else if lapsed_count(s, now) > u32::MAX {
        (s, Err(Error::ArithmeticOverflow))
    } else {
        let s1 = WalletView { pending: unlapsed(s, now), ..s };
        if !stats_fit(s1) {
            (s, Err(Error::ArithmeticOverflow))
        } else {
            (WalletView { stats: Some(stats_of(s1, now)), ..s1 }, Ok(lapsed_count(s, now) as u32))
        }
    }
}

/// The effective size of a page of pending proposals.
pub open spec fn pending_page_limit(limit: u32) -> nat {
    if limit == 0 {
        DEFAULT_PENDING_PAGE_LIMIT as nat
    } else if limit > MAX_PENDING_PAGE_LIMIT {
        MAX_PENDING_PAGE_LIMIT as nat
    } else {
        limit as nat
    }
}

/// Whether the proposal under key `k` is after `cursor` and listable by
/// `caller`: any for an Owner or Admin, else the caller's own.
pub open spec fn listable(s: WalletView, caller: Address, cursor: u64, now: u64) -> spec_fn(u64) -> bool {
    |k: u64| k > cursor && (owner_or_admin(s, caller, now) || s.pending[k].proposer == caller)
}

/// The ids, ascending, of proposals after `cursor` that `caller` may list.
pub open spec fn listable_ids(s: WalletView, caller: Address, cursor: u64, now: u64) -> Seq<u64> {
    sorted_keys(s.pending).filter(listable(s, caller, cursor, now))
}

/// The ids on the page.
pub open spec fn page_ids(s: WalletView, caller: Address, cursor: u64, limit: u32, now: u64) -> Seq<u64> {
    let ids = listable_ids(s, caller, cursor, now);
    if ids.len() > pending_page_limit(limit) {
        ids.take(pending_page_limit(limit) as int)
    } else {
        ids
    }
}

/// The cursor for the next page: the last id of a full page when a later
/// id may exist, else 0.
pub open spec fn page_next_cursor(s: WalletView, caller: Address, cursor: u64, limit: u32, now: u64) -> u64 {
    let ids = page_ids(s, caller, cursor, limit, now);
    if ids.len() == pending_page_limit(limit) && ids.last() + 1 < s.next_tx {
        ids.last()
    } else {
        0
    }
}

pub open spec fn withdraw_spec(
    s: WalletView,
    proposer: Address,
    token: Address,
    recipient: Address,
    amount: i128,
    now: u64,
) -> (WalletView, Result<(u64, Option<Transfer>), Error>) {
    if s.paused {
        (s, Err(Error::ContractPaused))
    } else if amount <= 0 {
        (s, Err(Error::InvalidAmount))
    } else if !super::members::spending_allowed(s, proposer, amount, now) {
        (s, Err(Error::SpendingLimitExceeded))
    } else if !s.configs.contains_key(type_code(TransactionType::LargeWithdrawal)) {
        (s, Err(Error::ConfigNotFound))
    } else {
        let t = if amount > s.configs[type_code(TransactionType::LargeWithdrawal)].spending_limit {
            TransactionType::LargeWithdrawal
        } else {
            TransactionType::RegularWithdrawal
        };
        propose_spec(s, proposer, t, TransactionData::Withdrawal(token, recipient, amount), now)
    }
}

/// A proposal whose id alone is reported.
pub open spec fn propose_id_spec(
    s: WalletView,
    proposer: Address,
    t: TransactionType,
    data: TransactionData,
    now: u64,
) -> (WalletView, Result<u64, Error>) {
    match propose_spec(s, proposer, t, data, now) {
        (s2, Ok((id, _))) => (s2, Ok(id)),
        (s2, Err(e)) => (s2, Err(e)),
    }
}

pub open spec fn split_spec(s: WalletView, proposer: Address, a: u32, b: u32, c: u32, d: u32, now: u64) -> (WalletView, Result<
    u64,
    Error,
>) {
    if s.paused {
        (s, Err(Error::ContractPaused))
    } else if a + b + c + d != 100 {
        (s, Err(Error::InvalidPercentages))
    } else {
        propose_id_spec(
            s,
            proposer,
            TransactionType::SplitConfigChange,
            TransactionData::SplitConfigChange(a, b, c, d),
            now,
        )
    }
}

/// Whether `a` occurs in the list.
pub fn account_listed(v: &Vec<Address>, a: Address) -> (b: bool)
    ensures
        b == v@.contains(a),
{
    let mut i: usize = 0;
    while i < v.len()
        invariant
            i <= v.len(),
            forall|j: int| 0 <= j < i ==> v@[j] != a,
        decreases v.len() - i,
    {
        if v[i] == a {
            return true;
        }
        i += 1;
    }
    false
}

/// How many entries of `sigs` occur in `signers`.
pub fn count_listed(sigs: &Vec<Address>, signers: &Vec<Address>) -> (n: usize)
    ensures
        n == counted_signatures(sigs@, signers@).len(),
{
    let ghost p = |a: Address| signers@.contains(a);
    let mut n: usize = 0;
    let mut i: usize = 0;
    while i < sigs.len()
        invariant
            p == (|a: Address| signers@.contains(a)),
            i <= sigs.len(),
            n == sigs@.take(i as int).filter(p).len(),
            n <= i,
        decreases sigs.len() - i,
    {
        proof {
            reveal(Seq::filter);
            assert(sigs@.take(i + 1).drop_last() =~= sigs@.take(i as int));
            assert(sigs@.take(i + 1).last() == sigs@[i as int]);
        }
        if account_listed(signers, sigs[i]) {
            n += 1;
        }
        i += 1;
    }
    proof {
        assert(sigs@.take(sigs@.len() as int) =~= sigs@);
    }
    n
}

/// Whether `a` occurs among the first `i` entries of the list.
pub fn account_listed_before(v: &Vec<Address>, i: usize, a: Address) -> (b: bool)
    requires
        i <= v@.len(),
    ensures
        b == v@.take(i as int).contains(a),
{
    let mut j: usize = 0;
    while j < i
        invariant
            i <= v@.len(),
            j <= i,
            forall|x: int| 0 <= x < j ==> v@[x] != a,
        decreases i - j,
    {
        if v[j] == a {
            proof {
                assert(v@.take(i as int)[j as int] == a);
            }
            return true;
        }
        j += 1;
    }
    proof {
        if v@.take(i as int).contains(a) {
            let x = choose|x: int| 0 <= x < i && v@.take(i as int)[x] == a;
            assert(v@[x] == a);
        }
    }
    false
}

/// Filtering keeps a list free of repetitions.
pub proof fn lemma_filter_no_dup(v: Seq<Address>, p: spec_fn(Address) -> bool)
    requires
        v.no_duplicates(),
    ensures
        v.filter(p).no_duplicates(),
        forall|a: Address| v.filter(p).contains(a) ==> v.contains(a),
    decreases v.len(),
{
    reveal(Seq::filter);
    if v.len() > 0 {
        let r = v.drop_last();
        assert(r.no_duplicates());
        lemma_filter_no_dup(r, p);
        if p(v.last()) {
            if r.filter(p).contains(v.last()) {
                assert(r.contains(v.last()));
                let j = choose|j: int| 0 <= j < r.len() && r[j] == v.last();
                assert(r[j] == v[j]);
                assert(v[j] == v[v.len() - 1]);
            }
        }
        assert forall|a: Address| v.filter(p).contains(a) implies v.contains(a) by {
            if r.filter(p).contains(a) {
                assert(r.contains(a));
                let j = choose|j: int| 0 <= j < r.len() && r[j] == a;
                assert(r[j] == v[j]);
                assert(v[j] == a);
            } else {
                assert(v[v.len() - 1] == a);
            }
        }
    }
}

impl FamilyWallet {
    /// Configure the multisig parameters of a transaction type (Owner or
    /// Admin): a nonempty list of at most `MAX_SIGNERS` distinct members and a
    /// threshold between 1 and both `MAX_THRESHOLD` and the list's length.
    pub fn configure_multisig(
        &mut self,
        caller: Address,
        tx_type: TransactionType,
        threshold: u32,
        signers: Vec<Address>,
        spending_limit: i128,
        now: u64,
    ) -> (r: Result<bool, Error>)
        requires
            old(self).wf(),
            !old(self)@.paused,
            initialized(old(self)@),
        ensures
            final(self).wf(),
            (final(self)@, r) == configure_multisig_spec(
                old(self)@,
                caller,
                tx_type,
                threshold,
                signers@,
                spending_limit,
                now,
            ),
    {
        self.try_configure_multisig(caller, tx_type, threshold, signers, spending_limit, now)
    }

    /// The same step on any input: a call that is not admitted above is
    /// answered with its refusal and changes nothing.
    pub fn try_configure_multisig(
        &mut self,
        caller: Address,
        tx_type: TransactionType,
        threshold: u32,
        signers: Vec<Address>,
        spending_limit: i128,
        now: u64,
    ) -> (r: Result<bool, Error>)
        requires
            old(self).wf(),
        ensures
            final(self).wf(),
            (final(self)@, r) == configure_multisig_spec(
                old(self)@,
                caller,
                tx_type,
                threshold,
                signers@,
                spending_limit,
                now,
            ),
    {
        if self.paused {
            return Err(Error::ContractPaused);
        }
        if self.owner.is_none() {
            return Err(Error::NotInitialized);
        }
        if !self.is_owner_or_admin(caller, now) {
            return Err(Error::Unauthorized);
        }
        let n = signers.len();
        if n == 0 {
            return Err(Error::SignersListEmpty);
        }
        if n > 20 {
            return Err(Error::TooManySigners);
        }
        if threshold < 1 {
            return Err(Error::ThresholdBelowMinimum);
        }
        if threshold > 100 {
            return Err(Error::ThresholdAboveMaximum);
        }
        if threshold as usize > n {
            return Err(Error::InvalidThreshold);
        }
        let ghost s0 = self@;
        let mut i: usize = 0;
        while i < n
            invariant
                self.wf(),
                self@ == s0,
                s0 == old(self)@,
                !s0.paused,
                s0.owner is Some,
                owner_or_admin(s0, caller, now),
                0 < n <= 20,
                1 <= threshold <= 100,
                threshold <= n,
                n == signers@.len(),
                i <= n,
                signer_error(self@.members, signers@.take(i as int)) is None,
            decreases n - i,
        {
            let a = signers[i];
            proof {
                assert(signers@.take(i + 1).drop_last() =~= signers@.take(i as int));
                assert(signers@.take(i + 1).last() == a);
            }
            if !self.members.contains_key(a) {
                proof {
                    assert(signer_error(self@.members, signers@.take(i + 1)) == Some(Error::SignerNotMember));
                    lemma_signer_error_prefix(self@.members, signers@, i + 1);
                }
                return Err(Error::SignerNotMember);
            }
            if account_listed_before(&signers, i, a) {
                proof {
                    assert(signer_error(self@.members, signers@.take(i + 1)) == Some(Error::DuplicateSigner));
                    lemma_signer_error_prefix(self@.members, signers@, i + 1);
                }
                return Err(Error::DuplicateSigner);
            }
            i += 1;
        }
        proof {
            assert(signers@.take(n as int) =~= signers@);
        }
        if spending_limit < 0 {
            return Err(Error::InvalidSpendingLimit);
        }
        let ghost s = self@;
        let ghost sv = signers@;
        self.configs.insert(
            config_slot(tx_type),
            MultiSigConfig { threshold, signers, spending_limit },
        );
        proof {
            assert(self@ =~= configure_multisig_spec(s, caller, tx_type, threshold, sv, spending_limit, now).0);
        }
        Ok(true)
    }

    /// The spending tracker of `p` for the window holding `now`.
    fn current_tracker_of(&self, p: Address, now: u64) -> (t: SpendingTracker)
        requires
            self.wf(),
        ensures
            t == current_tracker(self@, p, now),
    {
        let q = now / 86400;
        proof {
            assert(q * 86400 <= now) by (nonlinear_arith)
                requires
                    q == now / 86400,
            ;
        }
        let start = q * 86400;
        let fresh = SpendingTracker {
            current_spent: 0,
            last_tx_timestamp: 0,
            tx_count: 0,
            period: SpendingPeriod { period_type: 0, period_start: start, period_duration: 86400 },
        };
        match self.trackers.get(p) {
            Some(t) => {
                if t.period.period_start == start {
                    *t
                } else {
                    fresh
                }
            },
            None => fresh,
        }
    }

    /// The refusal, if any, of a withdrawal of `amount` by `p` under the
    /// spending rules.
    fn precision_check(&self, p: Address, amount: i128, now: u64) -> (r: Option<Error>)
        requires
            self.wf(),
        ensures
            r == precision_error(self@, p, amount, now),
    {
        if amount <= 0 {
            return Some(Error::InvalidAmount);
        }
        let m = match self.members.get(p) {
            Some(m) => *m,
            None => {
                return Some(Error::MemberNotFound);
            },
        };
        if m.role == FamilyRole::Owner || m.role == FamilyRole::Admin {
            return None;
        }
        match self.prec_limits.get(p) {
            Some(l) => {
                let l = *l;
                if amount < l.min_precision || amount > l.max_single_tx {
                    return Some(Error::InvalidPrecisionConfig);
                }
                if l.enable_rollover {
                    let t = self.current_tracker_of(p, now);
                    match t.current_spent.checked_add(amount) {
                        None => {
                            return Some(Error::InvalidSpendingLimit);
                        },
                        Some(v) => {
                            if v > l.limit {
                                return Some(Error::InvalidSpendingLimit);
                            }
                        },
                    }
                }
                None
            },
            None => {
                if m.spending_limit > 0 && amount > m.spending_limit {
                    Some(Error::InvalidSpendingLimit)
                } else {
                    None
                }
            },
        }
    }

    /// Records a withdrawal of `amount` by `p` in its window tracker.
    fn record_spending_exec(&mut self, p: Address, amount: i128, now: u64)
        requires
            old(self).wf(),
        ensures
            final(self).wf(),
            final(self)@ == record_spending(old(self)@, p, amount, now),
    {
        let m = match self.members.get(p) {
            Some(m) => *m,
            None => {
                return ;
            },
        };
        if m.role == FamilyRole::Owner || m.role == FamilyRole::Admin {
            return ;
        }
        let l = match self.prec_limits.get(p) {
            Some(l) => *l,
            None => {
                return ;
            },
        };
        if !l.enable_rollover {
            return ;
        }
        let cur = self.current_tracker_of(p, now);
        let spent = match cur.current_spent.checked_add(amount) {
            Some(v) => v,
            None => i128::MAX,
        };
        let count = cur.tx_count.saturating_add(1);
        let ghost s = self@;
        self.trackers.insert(
            p,
            SpendingTracker { current_spent: spent, last_tx_timestamp: now, tx_count: count, period: cur.period },
        );
        proof {
            assert(self@ =~= record_spending(s, p, amount, now));
        }
    }

    /// Carries out a proposal's effect.
    fn execute(
        &mut self,
        proposer: Address,
        tx_type: TransactionType,
        data: TransactionData,
        require_auth: bool,
        now: u64,
    ) -> (r: Result<Option<Transfer>, Error>)
        requires
            old(self).wf(),
        ensures
            final(self).wf(),
            (final(self)@, r) == execute_spec(old(self)@, proposer, tx_type, data, require_auth, now),
    {
        match data {
            TransactionData::Withdrawal(token, to, amount) => {
                if tx_type == TransactionType::RegularWithdrawal || tx_type
                    == TransactionType::LargeWithdrawal {
                    match self.precision_check(proposer, amount, now) {
                        Some(e) => Err(e),
                        None => {
                            self.record_spending_exec(proposer, amount, now);
                            Ok(
                                Some(
                                    Transfer {
                                        token,
                                        from: proposer,
                                        to,
                                        amount,
                                        from_must_authorize: require_auth,
                                    },
                                ),
                            )
                        },
                    }
                } else {
                    Err(Error::InvalidTransactionType)
                }
            },
            TransactionData::SplitConfigChange(..) => {
                if tx_type == TransactionType::SplitConfigChange {
                    Ok(None)
                } else {
                    Err(Error::InvalidTransactionType)
                }
            },
            TransactionData::RoleChange(member, role) => {
                if tx_type == TransactionType::RoleChange {
                    match self.members.get(member) {
                        Some(m) => {
                            let ghost s = self@;
                            let mut rec = *m;
                            rec.role = role;
                            self.members.insert(member, rec);
                            proof {
                                assert(wallet_inv(self@));
                            }
                            self.record_audit(AuditOp::RoleChange, proposer, Some(member), now);
                            proof {
                                assert(self@ =~= execute_spec(s, proposer, tx_type, data, require_auth, now).0);
                            }
                            Ok(None)
                        },
                        None => Ok(None),
                    }
                } else {
                    Err(Error::InvalidTransactionType)
                }
            },
            TransactionData::EmergencyTransfer(token, to, amount) => {
                if tx_type == TransactionType::EmergencyTransfer {
                    Ok(
                        Some(
                            Transfer {
                                token,
                                from: proposer,
                                to,
                                amount,
                                from_must_authorize: require_auth,
                            },
                        ),
                    )
                } else {
                    Err(Error::InvalidTransactionType)
                }
            },
            TransactionData::PolicyCancellation(..) => {
                if tx_type == TransactionType::PolicyCancellation {
                    Ok(None)
                } else {
                    Err(Error::InvalidTransactionType)
                }
            },
        }
    }

    /// Propose a transaction (a member of at least Member rank). A regular
    /// withdrawal within the configured limit executes at once and answers id
    /// 0; anything else is stored as pending, signed by the proposer, under
    /// the next id, which is answered.
    /// Only proposals that go through are admitted.
    pub fn propose_transaction(
        &mut self,
        proposer: Address,
        tx_type: TransactionType,
        data: TransactionData,
        now: u64,
    ) -> (r: Result<(u64, Option<Transfer>), Error>)
        requires
            old(self).wf(),
            propose_spec(old(self)@, proposer, tx_type, data, now).1 is Ok,
        ensures
            final(self).wf(),
            (final(self)@, r) == propose_spec(old(self)@, proposer, tx_type, data, now),
    {
        self.try_propose_transaction(proposer, tx_type, data, now)
    }

    /// The same step on any input: a call that is not admitted above is
    /// answered with its refusal and changes nothing.
    pub fn try_propose_transaction(
        &mut self,
        proposer: Address,
        tx_type: TransactionType,
        data: TransactionData,
        now: u64,
    ) -> (r: Result<(u64, Option<Transfer>), Error>)
        requires
            old(self).wf(),
        ensures
            final(self).wf(),
            (final(self)@, r) == propose_spec(old(self)@, proposer, tx_type, data, now),
    {
        if self.paused {
            return Err(Error::ContractPaused);
        }
        match self.role_check(proposer, FamilyRole::Member, now) {
            Some(e) => {
                return Err(e);
            },
            None => {},
        }
        let slot = if tx_type == TransactionType::RegularWithdrawal {
            config_slot(TransactionType::LargeWithdrawal)
        } else {
            config_slot(tx_type)
        };
        let limit = match self.configs.get(slot) {
            Some(c) => c.spending_limit,
            None => {
                return Err(Error::ConfigNotFound);
            },
        };
        let multisig = match tx_type {
            TransactionType::RegularWithdrawal => match data {
                TransactionData::Withdrawal(_, _, amount) => amount > limit,
                _ => false,
            },
            _ => true,
        };
        if !multisig {
            return match self.execute(proposer, tx_type, data, false, now) {
                Ok(tr) => Ok((0, tr)),
                Err(e) => Err(e),
            };
        }
        if self.next_tx == u64::MAX {
            return Err(Error::ArithmeticOverflow);
        }
        let life = match self.prop_exp {
            Some(d) => d,
            None => 86400,
        };
        let expires = if life == 0 {
            u64::MAX
        } else {
            if now > u64::MAX - life {
                return Err(Error::ArithmeticOverflow);
            }
            now + life
        };
        let ghost s = self@;
        proof {
            self.lemma_wf_inv();
        }
        let id = self.next_tx;
        let mut sigs: Vec<Address> = Vec::new();
        sigs.push(proposer);
        self.pending.insert(
            id,
            PendingTransaction {
                tx_id: id,
                tx_type,
                proposer,
                signatures: sigs,
                created_at: now,
                expires_at: expires,
                data,
            },
        );
        self.next_tx = id + 1;
        proof {
            assert(sigs@ =~= seq![proposer]);
            assert(self@ =~= propose_spec(s, proposer, tx_type, data, now).0);
            assert(wallet_inv(self@)) by {
                assert(!s.executed.contains_key(id));
                assert(!s.archived.contains_key(id));
            }
        }
        Ok((id, None))
    }

    /// Sign a pending proposal (a configured signer of at least Member
    /// rank). A signer who already signed changes nothing and gets `false`;
    /// at the threshold the proposal executes (its proposer must authorize
    /// any transfer) and moves to the executed list.
    pub fn sign_transaction(&mut self, signer: Address, tx_id: u64, now: u64) -> (r: Result<
        (bool, Option<Transfer>),
        Error,
    >)
        requires
            old(self).wf(),
            sign_spec(old(self)@, signer, tx_id, now).1 is Err ==> (sign_spec(old(self)@, signer, tx_id, now).1->Err_0
                == Error::SignerNotMember || sign_spec(old(self)@, signer, tx_id, now).1->Err_0 == Error::TransactionExpired),
        ensures
            final(self).wf(),
            (final(self)@, r) == sign_spec(old(self)@, signer, tx_id, now),
    {
        self.try_sign_transaction(signer, tx_id, now)
    }

    /// The same step on any input: a call that is not admitted above is
    /// answered with its refusal and changes nothing.
    pub fn try_sign_transaction(&mut self, signer: Address, tx_id: u64, now: u64) -> (r: Result<
        (bool, Option<Transfer>),
        Error,
    >)
        requires
            old(self).wf(),
        ensures
            final(self).wf(),
            (final(self)@, r) == sign_spec(old(self)@, signer, tx_id, now),
    {
        if self.paused {
            return Err(Error::ContractPaused);
        }
        if !self.members.contains_key(signer) {
            return Err(Error::SignerNotMember);
        }
        match self.role_check(signer, FamilyRole::Member, now) {
            Some(e) => {
                return Err(e);
            },
            None => {},
        }
        let mut tx = match self.pending.get(tx_id) {
            Some(t) => t.duplicate(),
            None => {
                return Err(Error::TransactionNotFound);
            },
        };
        if now > tx.expires_at {
            return Err(Error::TransactionExpired);
        }
        if account_listed(&tx.signatures, signer) {
            return Ok((false, None));
        }
        let (threshold, counted) = match self.configs.get(config_slot(tx.tx_type)) {
            Some(c) => {
                if !account_listed(&c.signers, signer) {
                    return Err(Error::SignerNotMember);
                }
                tx.signatures.push(signer);
                (c.threshold, count_listed(&tx.signatures, &c.signers))
            },
            None => {
                return Err(Error::ConfigNotFound);
            },
        };
        let ghost s = self@;
        proof {
            self.lemma_wf_inv();
        }
        if counted >= threshold as usize {
            match self.execute(tx.proposer, tx.tx_type, tx.data, true, now) {
                Err(e) => Err(e),
                Ok(tr) => {
                    let ghost s2 = self@;
                    self.pending.remove(tx_id);
                    self.executed.insert(
                        tx_id,
                        ExecutedTxMeta {
                            tx_id,
                            tx_type: tx.tx_type,
                            proposer: tx.proposer,
                            executed_at: now,
                        },
                    );
                    proof {
                        assert(self@ =~= sign_spec(s, signer, tx_id, now).0);
                        assert(wallet_inv(self@)) by {
                            assert(s2.pending == s.pending);
                            assert(s2.executed == s.executed);
                            assert(s2.archived == s.archived);
                        }
                    }
                    Ok((true, tr))
                },
            }
        } else {
            self.pending.insert(tx_id, tx);
            proof {
                assert(self@ =~= sign_spec(s, signer, tx_id, now).0);
                assert(wallet_inv(self@)) by {
                    let sg = s.pending[tx_id].signatures;
                    assert(!sg.contains(signer));
                    assert forall|x: int, y: int|
                        0 <= x < y < sg.push(signer).len() implies sg.push(signer)[x] != sg.push(
                        signer,
                    )[y] by {
                        if y == sg.len() {
                            assert(sg[x] != signer);
                        }
                    }
                }
            }
            Ok((true, None))
        }
    }
}

impl FamilyWallet {
    /// Withdraw `amount` of `token` to `recipient`: refused when not
    /// positive or beyond the proposer's spending limit; above the
    /// large-withdrawal limit it becomes a multisig proposal, else it
    /// executes at once.
    pub fn withdraw(&mut self, proposer: Address, token: Address, recipient: Address, amount: i128, now: u64) -> (r:
        Result<(u64, Option<Transfer>), Error>)
        requires
            old(self).wf(),
            withdraw_spec(old(self)@, proposer, token, recipient, amount, now).1 is Ok,
        ensures
            final(self).wf(),
            (final(self)@, r) == withdraw_spec(old(self)@, proposer, token, recipient, amount, now),
    {
        self.try_withdraw(proposer, token, recipient, amount, now)
    }

    /// The same step on any input: a call that is not admitted above is
    /// answered with its refusal and changes nothing.
    pub fn try_withdraw(&mut self, proposer: Address, token: Address, recipient: Address, amount: i128, now: u64) -> (r:
        Result<(u64, Option<Transfer>), Error>)
        requires
            old(self).wf(),
        ensures
            final(self).wf(),
            (final(self)@, r) == withdraw_spec(old(self)@, proposer, token, recipient, amount, now),
    {
        if self.paused {
            return Err(Error::ContractPaused);
        }
        if amount <= 0 {
            return Err(Error::InvalidAmount);
        }
        if !self.check_spending_limit(proposer, amount, now) {
            return Err(Error::SpendingLimitExceeded);
        }
        let limit = match self.configs.get(config_slot(TransactionType::LargeWithdrawal)) {
            Some(c) => c.spending_limit,
            None => {
                return Err(Error::ConfigNotFound);
            },
        };
        let tx_type = if amount > limit {
            TransactionType::LargeWithdrawal
        } else {
            TransactionType::RegularWithdrawal
        };
        self.try_propose_transaction(proposer, tx_type, TransactionData::Withdrawal(token, recipient, amount), now)
    }

    fn propose_id(&mut self, proposer: Address, tx_type: TransactionType, data: TransactionData, now: u64) -> (r:
        Result<u64, Error>)
        requires
            old(self).wf(),
        ensures
            final(self).wf(),
            (final(self)@, r) == propose_id_spec(old(self)@, proposer, tx_type, data, now),
    {
        match self.try_propose_transaction(proposer, tx_type, data, now) {
            Ok((id, _)) => Ok(id),
            Err(e) => Err(e),
        }
    }

    /// Propose a new split of incoming funds; the four percentages must sum
    /// to 100.
    pub fn propose_split_config_change(
        &mut self,
        proposer: Address,
        spending_percent: u32,
        savings_percent: u32,
        bills_percent: u32,
        insurance_percent: u32,
        now: u64,
    ) -> (r: Result<u64, Error>)
        requires
            old(self).wf(),
            split_spec(old(self)@, proposer, spending_percent, savings_percent, bills_percent, insurance_percent, now).1 is Ok,
        ensures
            final(self).wf(),
            (final(self)@, r) == split_spec(
                old(self)@,
                proposer,
                spending_percent,
                savings_percent,
                bills_percent,
                insurance_percent,
                now,
            ),
    {
        self.try_propose_split_config_change(proposer, spending_percent, savings_percent, bills_percent, insurance_percent, now)
    }

    /// The same step on any input: a call that is not admitted above is
    /// answered with its refusal and changes nothing.
    pub fn try_propose_split_config_change(
        &mut self,
        proposer: Address,
        spending_percent: u32,
        savings_percent: u32,
        bills_percent: u32,
        insurance_percent: u32,
        now: u64,
    ) -> (r: Result<u64, Error>)
        requires
            old(self).wf(),
        ensures
            final(self).wf(),
            (final(self)@, r) == split_spec(
                old(self)@,
                proposer,
                spending_percent,
                savings_percent,
                bills_percent,
                insurance_percent,
                now,
            ),
    {
        if self.paused {
            return Err(Error::ContractPaused);
        }
        let total: u64 = spending_percent as u64 + savings_percent as u64 + bills_percent as u64
            + insurance_percent as u64;
        if total != 100 {
            return Err(Error::InvalidPercentages);
        }
        self.propose_id(
            proposer,
            TransactionType::SplitConfigChange,
            TransactionData::SplitConfigChange(
                spending_percent,
                savings_percent,
                bills_percent,
                insurance_percent,
            ),
            now,
        )
    }

    /// Propose giving `member` the role `new_role`.
    pub fn propose_role_change(&mut self, proposer: Address, member: Address, new_role: FamilyRole, now: u64) -> (r:
        Result<u64, Error>)
        requires
            old(self).wf(),
            !old(self)@.paused,
            propose_id_spec(old(self)@, proposer, TransactionType::RoleChange, TransactionData::RoleChange(member, new_role), now).1 is Ok,
        ensures
            final(self).wf(),
            (final(self)@, r) == (if old(self)@.paused {
                (old(self)@, Err(Error::ContractPaused))
            } else {
                propose_id_spec(
                    old(self)@,
                    proposer,
                    TransactionType::RoleChange,
                    TransactionData::RoleChange(member, new_role),
                    now,
                )
            }),
    {
        self.try_propose_role_change(proposer, member, new_role, now)
    }

    /// The same step on any input: a call that is not admitted above is
    /// answered with its refusal and changes nothing.
    pub fn try_propose_role_change(&mut self, proposer: Address, member: Address, new_role: FamilyRole, now: u64) -> (r:
        Result<u64, Error>)
        requires
            old(self).wf(),
        ensures
            final(self).wf(),
            (final(self)@, r) == (if old(self)@.paused {
                (old(self)@, Err(Error::ContractPaused))
            } else {
                propose_id_spec(
                    old(self)@,
                    proposer,
                    TransactionType::RoleChange,
                    TransactionData::RoleChange(member, new_role),
                    now,
                )
            }),
    {
        if self.paused {
            return Err(Error::ContractPaused);
        }
        self.propose_id(
            proposer,
            TransactionType::RoleChange,
            TransactionData::RoleChange(member, new_role),
            now,
        )
    }

    /// Propose cancelling insurance policy `policy_id`.
    pub fn propose_policy_cancellation(&mut self, proposer: Address, policy_id: u32, now: u64) -> (r: Result<
        u64,
        Error,
    >)
        requires
            old(self).wf(),
            !old(self)@.paused,
            propose_id_spec(old(self)@, proposer, TransactionType::PolicyCancellation, TransactionData::PolicyCancellation(policy_id), now).1 is Ok,
        ensures
            final(self).wf(),
            (final(self)@, r) == (if old(self)@.paused {
                (old(self)@, Err(Error::ContractPaused))
            } else {
                propose_id_spec(
                    old(self)@,
                    proposer,
                    TransactionType::PolicyCancellation,
                    TransactionData::PolicyCancellation(policy_id),
                    now,
                )
            }),
    {
        self.try_propose_policy_cancellation(proposer, policy_id, now)
    }

    /// The same step on any input: a call that is not admitted above is
    /// answered with its refusal and changes nothing.
    pub fn try_propose_policy_cancellation(&mut self, proposer: Address, policy_id: u32, now: u64) -> (r: Result<
        u64,
        Error,
    >)
        requires
            old(self).wf(),
        ensures
            final(self).wf(),
            (final(self)@, r) == (if old(self)@.paused {
                (old(self)@, Err(Error::ContractPaused))
            } else {
                propose_id_spec(
                    old(self)@,
                    proposer,
                    TransactionType::PolicyCancellation,
                    TransactionData::PolicyCancellation(policy_id),
                    now,
                )
            }),
    {
        if self.paused {
            return Err(Error::ContractPaused);
        }
        self.propose_id(
            proposer,
            TransactionType::PolicyCancellation,
            TransactionData::PolicyCancellation(policy_id),
            now,
        )
    }

    /// Cancel a pending proposal (its proposer, or an Owner or Admin).
    pub fn cancel_transaction(&mut self, caller: Address, tx_id: u64, now: u64) -> (r: Result<bool, Error>)
        requires
            old(self).wf(),
            cancel_spec(old(self)@, caller, tx_id, now).1 is Ok,
        ensures
            final(self).wf(),
            (final(self)@, r) == cancel_spec(old(self)@, caller, tx_id, now),
    {
        self.try_cancel_transaction(caller, tx_id, now)
    }

    /// The same step on any input: a call that is not admitted above is
    /// answered with its refusal and changes nothing.
    pub fn try_cancel_transaction(&mut self, caller: Address, tx_id: u64, now: u64) -> (r: Result<bool, Error>)
        requires
            old(self).wf(),
        ensures
            final(self).wf(),
            (final(self)@, r) == cancel_spec(old(self)@, caller, tx_id, now),
    {
        if self.paused {
            return Err(Error::ContractPaused);
        }
        if self.owner.is_none() {
            return Err(Error::NotInitialized);
        }
        let proposer = match self.pending.get(tx_id) {
            Some(t) => t.proposer,
            None => {
                return Err(Error::TransactionNotFound);
            },
        };
        if caller != proposer && !self.is_owner_or_admin(caller, now) {
            return Err(Error::Unauthorized);
        }
        let ghost s = self@;
        self.pending.remove(tx_id);
        proof {
            assert(self@ =~= cancel_spec(s, caller, tx_id, now).0);
        }
        Ok(true)
    }

    /// The members of a list that are active, leaving out the `gone`
    /// accounts.
    fn active_list(&self, v: &Vec<Address>, gone: &Vec<Address>, now: u64) -> (r: Vec<Address>)
        requires
            self.wf(),
        ensures
            r@ == active_signers(without_members(self@, gone@), v@, now),
    {
        let ghost t = without_members(self@, gone@);
        let ghost p = |a: Address| signer_active(t, a, now);
        let mut out: Vec<Address> = Vec::new();
        let mut i: usize = 0;
        while i < v.len()
            invariant
                self.wf(),
                t == without_members(self@, gone@),
                p == (|a: Address| signer_active(t, a, now)),
                i <= v.len(),
                out@ == v@.take(i as int).filter(p),
            decreases v.len() - i,
        {
            let a = v[i];
            proof {
                reveal(Seq::filter);
                assert(v@.take(i + 1).drop_last() =~= v@.take(i as int));
                assert(v@.take(i + 1).last() == a);
            }
            let keep = self.members.contains_key(a) && !account_listed(gone, a) && !self.expired(a, now);
            proof {
                assert(keep == p(a));
            }
            if keep {
                out.push(a);
            }
            i += 1;
        }
        proof {
            assert(v@.take(v@.len() as int) =~= v@);
        }
        out
    }

    /// The pending proposals as revalidation leaves them, and how many it
    /// invalidates, with the `gone` accounts no longer counted as members.
    pub(crate) fn revalidation(&self, gone: &Vec<Address>, now: u64) -> (r: (OrdMap<PendingTransaction>, usize))
        requires
            self.wf(),
        ensures
            r.0.wf(),
            r.0@ == revalidated(without_members(self@, gone@), now),
            r.1 == revalidate_count(without_members(self@, gone@), now),
            forall|k: u64| #[trigger] r.0@.contains_key(k) ==> r.0@[k].signatures.no_duplicates(),
    {
        let ghost t = without_members(self@, gone@);
        proof {
            self.lemma_wf_inv();
            self.pending.lemma_keys();
            self.pending.lemma_sorted_keys();
        }
        let ghost ids = self.pending.keys();
        let ghost p = invalid_pred(t, now);
        let n = self.pending.len();
        let mut out: OrdMap<PendingTransaction> = OrdMap::new();
        let mut count: usize = 0;
        let mut i: usize = 0;
        while i < n
            invariant
                self.wf(),
                t == without_members(self@, gone@),
                p == invalid_pred(t, now),
                ids == self.pending.keys(),
                ids == sorted_keys(t.pending),
                forall|k: u64| t.pending.contains_key(k) <==> ids.contains(k),
                n == ids.len(),
                i <= n,
                out.wf(),
                out@ == Map::new(
                    |k: u64| ids.take(i as int).contains(k),
                    |k: u64| revalidate_tx(t, t.pending[k], now),
                ),
                forall|k: u64| #[trigger] out@.contains_key(k) ==> out@[k].signatures.no_duplicates(),
                count == count_keys(ids.take(i as int), p),
                count <= i,
            decreases n - i,
        {
            proof {
                lemma_count_step(ids, p, i as int);
            }
            let k = self.pending.key_at(i);
            let tx = self.pending.value_at(i);
            let mut nt = tx.duplicate();
            let ghost ot = t.pending[k];
            if tx.expires_at > now {
                nt.signatures = self.active_list(&tx.signatures, gone, now);
                proof {
                    lemma_filter_no_dup(ot.signatures, |a: Address| signer_active(t, a, now));
                }
                let lost = match self.configs.get(config_slot(tx.tx_type)) {
                    None => true,
                    Some(c) => {
                        let act = self.active_list(&c.signers, gone, now);
                        act.len() < c.threshold as usize
                    },
                };
                if lost {
                    nt.expires_at = now;
                    count = count + 1;
                }
                proof {
                    assert(lost == quorum_lost(t, ot, now));
                    assert(p(k) == lost);
                }
            } else {
                proof {
                    assert(!p(k));
                }
            }
            proof {
                assert(nt@ == revalidate_tx(t, ot, now));
            }
            out.insert(k, nt);
            i = i + 1;
            proof {
                let cur = ids.take(i as int);
                let pre = ids.take(i - 1);
                assert forall|x: u64| cur.contains(x) <==> (pre.contains(x) || x == k) by {
                    if cur.contains(x) {
                        let y = choose|y: int| 0 <= y < cur.len() && cur[y] == x;
                        if y < i - 1 {
                            assert(pre[y] == x);
                        }
                    }
                    if pre.contains(x) {
                        let y = choose|y: int| 0 <= y < pre.len() && pre[y] == x;
                        assert(cur[y] == x);
                    }
                    if x == k {
                        assert(cur[i - 1] == k);
                    }
                }
                assert(out@ =~= Map::new(
                    |x: u64| cur.contains(x),
                    |x: u64| revalidate_tx(t, t.pending[x], now),
                ));
            }
        }
        proof {
            assert(ids.take(n as int) =~= ids);
            assert(out@ =~= revalidated(t, now));
        }
        (out, count)
    }

    /// Revalidate every live proposal against current membership (Owner or
    /// Admin): signatures of non-members or expired roles are dropped, and
    /// proposals that can no longer reach their threshold expire now.
    /// Answers how many were invalidated.
    pub fn revalidate_proposals(&mut self, caller: Address, now: u64) -> (r: Result<u32, Error>)
        requires
            old(self).wf(),
            revalidate_spec(old(self)@, caller, now).1 is Ok,
        ensures
            final(self).wf(),
            (final(self)@, r) == revalidate_spec(old(self)@, caller, now),
    {
        self.try_revalidate_proposals(caller, now)
    }

    /// The same step on any input: a call that is not admitted above is
    /// answered with its refusal and changes nothing.
    pub fn try_revalidate_proposals(&mut self, caller: Address, now: u64) -> (r: Result<u32, Error>)
        requires
            old(self).wf(),
        ensures
            final(self).wf(),
            (final(self)@, r) == revalidate_spec(old(self)@, caller, now),
    {
        if self.paused {
            return Err(Error::ContractPaused);
        }
        if !self.is_owner_or_admin(caller, now) {
            return Err(Error::Unauthorized);
        }
        let none: Vec<Address> = Vec::new();
        let (fresh, count) = self.revalidation(&none, now);
        let ghost s = self@;
        proof {
            assert(s.members.remove_keys(none@.to_set()) =~= s.members);
            assert(without_members(s, none@) =~= s);
        }
        if count > 0xffff_ffff {
            return Err(Error::ArithmeticOverflow);
        }
        self.pending = fresh;
        proof {
            assert(self@ =~= revalidate_spec(s, caller, now).0);
            lemma_revalidated_inv(s, now);
        }
        Ok(count as u32)
    }

    /// Remove every pending proposal whose expiry lies before `now` (Owner or
    /// Admin); answers how many were removed.
    pub fn cleanup_expired_pending(&mut self, caller: Address, now: u64) -> (r: Result<u32, Error>)
        requires
            old(self).wf(),
            cleanup_spec(old(self)@, caller, now).1 is Ok,
        ensures
            final(self).wf(),
            (final(self)@, r) == cleanup_spec(old(self)@, caller, now),
    {
        self.try_cleanup_expired_pending(caller, now)
    }

    /// The same step on any input: a call that is not admitted above is
    /// answered with its refusal and changes nothing.
    pub fn try_cleanup_expired_pending(&mut self, caller: Address, now: u64) -> (r: Result<u32, Error>)
        requires
            old(self).wf(),
        ensures
            final(self).wf(),
            (final(self)@, r) == cleanup_spec(old(self)@, caller, now),
    {
        if self.paused {
            return Err(Error::ContractPaused);
        }
        if !self.is_owner_or_admin(caller, now) {
            return Err(Error::Unauthorized);
        }
        let ghost s = self@;
        proof {
            self.lemma_wf_inv();
            self.pending.lemma_keys();
            self.pending.lemma_sorted_keys();
        }
        let ghost ids = self.pending.keys();
        let ghost p = lapsed_pred(s, now);
        let n = self.pending.len();
        let mut kept: OrdMap<PendingTransaction> = OrdMap::new();
        let mut count: usize = 0;
        let mut i: usize = 0;
        while i < n
            invariant
                self.wf(),
                self@ == s,
                p == lapsed_pred(s, now),
                ids == self.pending.keys(),
                ids == sorted_keys(s.pending),
                forall|k: u64| s.pending.contains_key(k) <==> ids.contains(k),
                n == ids.len(),
                i <= n,
                kept.wf(),
                kept@ == Map::new(
                    |k: u64| ids.take(i as int).contains(k) && !lapsed(s.pending[k], now),
                    |k: u64| s.pending[k],
                ),
                count == count_keys(ids.take(i as int), p),
                count <= i,
            decreases n - i,
        {
            proof {
                lemma_count_step(ids, p, i as int);
            }
            let k = self.pending.key_at(i);
            let tx = self.pending.value_at(i);
            if tx.expires_at < now {
                count = count + 1;
            } else {
                kept.insert(k, tx.duplicate());
            }
            i = i + 1;
            proof {
                let cur = ids.take(i as int);
                let pre = ids.take(i - 1);
                assert forall|x: u64| cur.contains(x) <==> (pre.contains(x) || x == k) by {
                    if cur.contains(x) {
                        let y = choose|y: int| 0 <= y < cur.len() && cur[y] == x;
                        if y < i - 1 {
                            assert(pre[y] == x);
                        }
                    }
                    if pre.contains(x) {
                        let y = choose|y: int| 0 <= y < pre.len() && pre[y] == x;
                        assert(cur[y] == x);
                    }
                    if x == k {
                        assert(cur[i - 1] == k);
                    }
                }
                assert(kept@ =~= Map::new(
                    |x: u64| cur.contains(x) && !lapsed(s.pending[x], now),
                    |x: u64| s.pending[x],
                ));
            }
        }
        proof {
            assert(ids.take(n as int) =~= ids);
            assert(kept@ =~= unlapsed(s, now));
        }
        if count > 0xffff_ffff {
            return Err(Error::ArithmeticOverflow);
        }
        let kn = kept.len();
        let an = self.archived.len();
        let mn = self.members.len();
        if kn > 0xffff_ffff || an > 0xffff_ffff || mn > 0xffff_ffff {
            return Err(Error::ArithmeticOverflow);
        }
        self.pending = kept;
        self.stats = Some(
            StorageStats {
                pending_transactions: kn as u32,
                archived_transactions: an as u32,
                total_members: mn as u32,
                last_updated: now,
            },
        );
        proof {
            assert(self@ =~= cleanup_spec(s, caller, now).0);
        }
        Ok(count as u32)
    }

    /// The pending proposal `tx_id`, if any.
    pub fn get_pending_transaction(&self, tx_id: u64) -> (r: Result<Option<PendingTransaction>, Error>)
        requires
            self.wf(),
            initialized(self@),
        ensures
            !initialized(self@) ==> r == Err::<Option<PendingTransaction>, Error>(Error::NotInitialized),
            initialized(self@) ==> r is Ok && (match r->Ok_0 {
                Some(t) => self@.pending.contains_key(tx_id) && t@ == self@.pending[tx_id],
                None => !self@.pending.contains_key(tx_id),
            }),
    {
        if self.owner.is_none() {
            return Err(Error::NotInitialized);
        }
        match self.pending.get(tx_id) {
            Some(t) => Ok(Some(t.duplicate())),
            None => Ok(None),
        }
    }

    /// The multisig configuration of a transaction type, if any.
    pub fn get_multisig_config(&self, tx_type: TransactionType) -> (r: Option<MultiSigConfig>)
        requires
            self.wf(),
        ensures
            match r {
                Some(c) => self@.configs.contains_key(type_code(tx_type)) && c@ == self@.configs[type_code(
                    tx_type,
                )],
                None => !self@.configs.contains_key(type_code(tx_type)),
            },
    {
        match self.configs.get(config_slot(tx_type)) {
            Some(c) => Some(c.duplicate()),
            None => None,
        }
    }

    /// A page of pending proposals after `cursor` (0 for the first page):
    /// all proposals for an Owner or Admin, else the caller's own, ascending
    /// by id; `limit` 0 means the default, capped at the page maximum.
    pub fn get_pending_transactions_page(&self, caller: Address, cursor: u64, limit: u32, now: u64) -> (r:
        PendingTxPage)
        requires
            self.wf(),
        ensures
            r.items@.map_values(|t: PendingTransaction| t@) == page_ids(self@, caller, cursor, limit, now).map_values(
                |k: u64| self@.pending[k],
            ),
            r.count == r.items@.len(),
            r.next_cursor == page_next_cursor(self@, caller, cursor, limit, now),
    {
        let cap: usize = if limit == 0 {
            20
        } else if limit > 100 {
            100
        } else {
            limit as usize
        };
        let admin = self.is_owner_or_admin(caller, now);
        proof {
            self.lemma_wf_inv();
            self.pending.lemma_keys();
            self.pending.lemma_sorted_keys();
        }
        let ghost s = self@;
        let ghost ids = self.pending.keys();
        let ghost p = listable(s, caller, cursor, now);
        let n = self.pending.len();
        let mut items: Vec<PendingTransaction> = Vec::new();
        let mut last: u64 = 0;
        let ghost mut chosen: Seq<u64> = Seq::empty();
        let mut i: usize = 0;
        while i < n && items.len() < cap
            invariant
                self.wf(),
                self@ == s,
                p == listable(s, caller, cursor, now),
                admin == owner_or_admin(s, caller, now),
                cap == pending_page_limit(limit),
                ids == self.pending.keys(),
                n == ids.len(),
                i <= n,
                chosen == ids.take(i as int).filter(p),
                chosen.len() <= cap,
                items@.map_values(|t: PendingTransaction| t@) == chosen.map_values(|k: u64| s.pending[k]),
                chosen.len() > 0 ==> last == chosen.last(),
            decreases n - i,
        {
            let k = self.pending.key_at(i);
            let tx = self.pending.value_at(i);
            proof {
                reveal(Seq::filter);
                assert(ids.take(i + 1).drop_last() =~= ids.take(i as int));
                assert(ids.take(i + 1).last() == k);
            }
            if k > cursor && (admin || tx.proposer == caller) {
                let ghost prev_items = items@;
                let ghost prev_chosen = chosen;
                let d = tx.duplicate();
                items.push(d);
                last = k;
                proof {
                    chosen = chosen.push(k);
                    assert(d@ == s.pending[k]);
                    let f = |t: PendingTransaction| t@;
                    let g = |x: u64| s.pending[x];
                    assert(prev_items.map_values(f) == prev_chosen.map_values(g));
                    assert(prev_items.map_values(f).len() == prev_items.len());
                    assert(prev_chosen.map_values(g).len() == prev_chosen.len());
                    assert forall|j: int| 0 <= j < items@.len() implies #[trigger] items@[j]@ == s.pending[chosen[j]] by {
                        if j < prev_items.len() {
                            assert(prev_items.map_values(f)[j] == f(prev_items[j]));
                            assert(prev_chosen.map_values(g)[j] == g(prev_chosen[j]));
                            assert(items@[j] == prev_items[j]);
                            assert(chosen[j] == prev_chosen[j]);
                        } else {
                            assert(j == prev_items.len());
                            assert(items@[j] == d);
                            assert(chosen[j] == k);
                        }
                    }
                    assert(items@.map_values(|t: PendingTransaction| t@) =~= chosen.map_values(
                        |x: u64| s.pending[x],
                    ));
                }
            }
            i = i + 1;
        }
        proof {
            let all = ids.filter(p);
            assert(ids =~= ids.take(i as int) + ids.skip(i as int));
            Seq::filter_distributes_over_add(ids.take(i as int), ids.skip(i as int), p);
            if i == n {
                assert(ids.skip(i as int) =~= Seq::<u64>::empty());
                reveal(Seq::filter);
                assert(ids.skip(i as int).filter(p) =~= Seq::<u64>::empty());
                assert(all =~= chosen);
            } else {
                assert(chosen.len() == cap);
                assert(all.take(cap as int) =~= chosen);
            }
        }
        let count = items.len();
        let next_cursor = if count == cap && last < u64::MAX && last + 1 < self.next_tx {
            last
        } else {
            0
        };
        PendingTxPage { items, next_cursor, count: count as u32 }
    }
}

/// Revalidation keeps the wallet invariant.
pub proof fn lemma_revalidated_inv(t: WalletView, now: u64)
    requires
        wallet_inv(t),
    ensures
        wallet_inv(WalletView { pending: revalidated(t, now), ..t }),
{
    let u = WalletView { pending: revalidated(t, now), ..t };
    assert forall|k: u64| #[trigger] u.pending.contains_key(k) implies u.pending[k].tx_id == k && k
        < u.next_tx && u.pending[k].signatures.no_duplicates() && !u.executed.contains_key(k)
        && !u.archived.contains_key(k) by {
        let tx = t.pending[k];
        if tx.expires_at > now {
            lemma_filter_no_dup(tx.signatures, |a: Address| signer_active(t, a, now));
        }
    }
    if t.owner is None {
        assert(u.pending.dom() =~= t.pending.dom());
    }
}

/// A signer list refused at a prefix is refused as a whole.
proof fn lemma_signer_error_prefix(members: Map<u64, FamilyMember>, signers: Seq<Address>, i: int)
    requires
        0 <= i <= signers.len(),
        signer_error(members, signers.take(i)) is Some,
    ensures
        signer_error(members, signers) == signer_error(members, signers.take(i)),
    decreases signers.len() - i,
{
    if i < signers.len() {
        assert(signers.take(i + 1).drop_last() =~= signers.take(i));
        lemma_signer_error_prefix(members, signers, i + 1);
    } else {
        assert(signers.take(i) =~= signers);
    }
}

} // verus!

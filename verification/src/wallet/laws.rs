//! Properties of the wallet that span operations or hold of every state.

use vstd::prelude::*;
use crate::common::{Address, FamilyRole};
use super::{
    audit_push, initialized, owner_or_admin, role_error, role_expired, type_code, wallet_inv, AccessAuditEntry,
    BatchMemberItem, Error, PendingView, TransactionData, TransactionType, Transfer, WalletView,
    MAX_ACCESS_AUDIT_ENTRIES, MAX_ARCHIVE_ENTRIES,
};
use super::admin::audit_page_end;
use super::archive::{
    archive_count, archive_fold, archive_spec, before_cutoff, lemma_archive_fold_count, lemma_archive_inv,
};
use super::emergency::{cooldown_active, propose_emergency_spec};
use super::members::{batch_add_spec, batch_remove_spec, init_spec, remove_family_member_spec};
use super::multisig::{
    active_signers, cancel_spec, counted_signatures, current_tracker, execute_spec, privileged, proposal_lifetime,
    invalid_pred, invalidated, propose_spec, quorum_lost, revalidate_spec, revalidate_tx, revalidated, sign_spec,
    signer_active, window_start,
};
use crate::ordmap::{count_keys, sorted_keys};

verus! {

/// A refused call leaves the wallet exactly as it was: signing, proposing,
/// archiving, batch additions and removals, and emergency transfers.
pub proof fn lemma_refusal_changes_nothing(s: WalletView, now: u64)
    ensures
        forall|a: Address, id: u64|
            #[trigger] sign_spec(s, a, id, now).1 is Err ==> sign_spec(s, a, id, now).0 == s,
        forall|p: Address, t: TransactionType, d: TransactionData|
            #[trigger] propose_spec(s, p, t, d, now).1 is Err ==> propose_spec(s, p, t, d, now).0 == s,
        forall|c: Address, cutoff: u64|
            #[trigger] archive_spec(s, c, cutoff, now).1 is Err ==> archive_spec(s, c, cutoff, now).0 == s,
        forall|c: Address, items: Seq<BatchMemberItem>|
            #[trigger] batch_add_spec(s, c, items, now).1 is Err ==> batch_add_spec(s, c, items, now).0
                == s,
        forall|c: Address, addrs: Seq<Address>|
            #[trigger] batch_remove_spec(s, c, addrs, now).1 is Err ==> batch_remove_spec(
                s,
                c,
                addrs,
                now,
            ).0 == s,
        forall|p: Address, tok: Address, to: Address, amount: i128, balance: i128|
            #[trigger] propose_emergency_spec(s, p, tok, to, amount, balance, now).1 is Err
                ==> propose_emergency_spec(s, p, tok, to, amount, balance, now).0 == s,
{
}

/// The archive never holds more than `MAX_ARCHIVE_ENTRIES` entries, and
/// archiving keeps the wallet invariant.
pub proof fn lemma_archive_bounded(s: WalletView, caller: Address, cutoff: u64, now: u64)
    requires
        wallet_inv(s),
        s.executed.dom().finite(),
    ensures
        wallet_inv(archive_spec(s, caller, cutoff, now).0),
        archive_spec(s, caller, cutoff, now).0.archived.dom().len() <= MAX_ARCHIVE_ENTRIES,
{
    if archive_spec(s, caller, cutoff, now).1 is Ok {
        crate::ordmap::lemma_sorted_keys_of_finite(s.executed);
        lemma_archive_inv(s, cutoff, now);
    }
}

/// Archiving grows the archive by exactly the number of executions moved,
/// up to the cap: afterwards it holds `min(MAX_ARCHIVE_ENTRIES, before +
/// moved)` entries. The executions move in ascending id order, and an
/// insertion into a full archive first evicts the entry with the lowest id
/// present at that moment.
pub proof fn lemma_archive_count(s: WalletView, caller: Address, cutoff: u64, now: u64)
    requires
        wallet_inv(s),
        s.executed.dom().finite(),
        archive_spec(s, caller, cutoff, now).1 is Ok,
    ensures
        archive_spec(s, caller, cutoff, now).0.archived == archive_fold(
            s.archived,
            s.executed,
            sorted_keys(s.executed),
            cutoff,
            now,
        ),
        archive_spec(s, caller, cutoff, now).0.archived.dom().len() == if s.archived.dom().len()
            + archive_count(s.executed, cutoff) < MAX_ARCHIVE_ENTRIES {
            s.archived.dom().len() + archive_count(s.executed, cutoff)
        } else {
            MAX_ARCHIVE_ENTRIES as nat
        },
{
    let ids = sorted_keys(s.executed);
    crate::ordmap::lemma_sorted_keys_of_finite(s.executed);
    assert(ids.no_duplicates()) by {
        assert forall|i: int, j: int| 0 <= i < ids.len() && 0 <= j < ids.len() && i != j implies ids[i]
            != ids[j] by {
            if i < j {
                assert(ids[i] < ids[j]);
            } else {
                assert(ids[j] < ids[i]);
            }
        }
    }
    assert forall|j: int| 0 <= j < ids.len() implies !s.archived.contains_key(#[trigger] ids[j]) by {
        assert(ids.contains(ids[j]));
        assert(s.executed.contains_key(ids[j]));
    }
    lemma_archive_fold_count(s.archived, s.executed, ids, cutoff, now);
}

/// Archiving moves exactly the executions before the cutoff: afterwards
/// every execution left was executed at or after the cutoff, every such
/// execution is left untouched, and the count answered is the number moved.
pub proof fn lemma_archive_retention(s: WalletView, caller: Address, cutoff: u64, now: u64)
    requires
        archive_spec(s, caller, cutoff, now).1 is Ok,
    ensures
        forall|k: u64| #[trigger] archive_spec(s, caller, cutoff, now).0.executed.contains_key(k) ==> !before_cutoff(
            archive_spec(s, caller, cutoff, now).0.executed[k],
            cutoff,
        ),
        forall|k: u64|
            s.executed.contains_key(k) && !before_cutoff(s.executed[k], cutoff) ==> #[trigger] archive_spec(
                s,
                caller,
                cutoff,
                now,
            ).0.executed.contains_key(k) && archive_spec(s, caller, cutoff, now).0.executed[k]
                == s.executed[k],
        archive_spec(s, caller, cutoff, now).1 == Ok::<u32, Error>(archive_count(s.executed, cutoff) as u32),
        cutoff <= now,
{
}

/// Signing is idempotent: a signer whose signature was recorded on a still
/// pending proposal gets `false` on signing again, and nothing changes.
pub proof fn lemma_sign_idempotent(s: WalletView, signer: Address, id: u64, now: u64)
    requires
        sign_spec(s, signer, id, now).1 is Ok,
        sign_spec(s, signer, id, now).0.pending.contains_key(id),
    ensures
        sign_spec(sign_spec(s, signer, id, now).0, signer, id, now) == (
            sign_spec(s, signer, id, now).0,
            Ok::<(bool, Option<Transfer>), Error>((false, None)),
        ),
{
    let s2 = sign_spec(s, signer, id, now).0;
    assert(s2.pending[id].signatures.contains(signer)) by {
        let sg = s.pending[id].signatures;
        if !sg.contains(signer) {
            assert(sg.push(signer)[sg.len() as int] == signer);
        }
    }
}

/// A new signature executes a proposal exactly when the signatures of the
/// accounts configured as signers now reach the threshold: an approval
/// given before its signer was rotated out of the configuration never
/// helps a proposal reach quorum.
pub proof fn lemma_quorum_counts_current_signers(s: WalletView, signer: Address, id: u64, now: u64)
    requires
        sign_spec(s, signer, id, now).1 matches Ok((true, _)),
    ensures
        s.pending.contains_key(id),
        !sign_spec(s, signer, id, now).0.pending.contains_key(id) <==> counted_signatures(
            s.pending[id].signatures.push(signer),
            s.configs[type_code(s.pending[id].tx_type)].signers,
        ).len() >= s.configs[type_code(s.pending[id].tx_type)].threshold,
{
}

/// A proposer's own approval is recorded when proposing and never counted
/// twice: the proposer signing the fresh proposal gets `false`.
pub proof fn lemma_proposer_counted_once(
    s: WalletView,
    p: Address,
    t: TransactionType,
    d: TransactionData,
    now: u64,
)
    requires
        propose_spec(s, p, t, d, now).1 is Ok,
        propose_spec(s, p, t, d, now).1->Ok_0.0 != 0,
    ensures
        ({
            let s2 = propose_spec(s, p, t, d, now).0;
            let id = propose_spec(s, p, t, d, now).1->Ok_0.0;
            sign_spec(s2, p, id, now) == (s2, Ok::<(bool, Option<Transfer>), Error>((false, None)))
        }),
{
    let s2 = propose_spec(s, p, t, d, now).0;
    let id = propose_spec(s, p, t, d, now).1->Ok_0.0;
    if s.configs.contains_key(super::multisig::propose_slot(t)) && !super::multisig::needs_multisig(
        t,
        d,
        s.configs[super::multisig::propose_slot(t)],
    ) {
        assert(id == 0);
    } else {
        assert(s2.pending[id].signatures == seq![p]);
        assert(seq![p][0] == p);
    }
}

/// A new proposal expires after the configured lifetime (never, when the
/// lifetime is 0) and starts with its proposer's signature.
pub proof fn lemma_proposal_expiry(s: WalletView, p: Address, t: TransactionType, d: TransactionData, now: u64)
    requires
        propose_spec(s, p, t, d, now).1 is Ok,
        propose_spec(s, p, t, d, now).1->Ok_0.0 != 0,
    ensures
        ({
            let s2 = propose_spec(s, p, t, d, now).0;
            let id = propose_spec(s, p, t, d, now).1->Ok_0.0;
            &&& id == s.next_tx
            &&& s2.pending.contains_key(id)
            &&& s2.pending[id].expires_at == (if proposal_lifetime(s) == 0 {
                u64::MAX as int
            } else {
                now + proposal_lifetime(s)
            })
            &&& s2.pending[id].signatures == seq![p]
            &&& s2.pending[id].created_at == now
        }),
{
    let id = propose_spec(s, p, t, d, now).1->Ok_0.0;
    if s.configs.contains_key(super::multisig::propose_slot(t)) && !super::multisig::needs_multisig(
        t,
        d,
        s.configs[super::multisig::propose_slot(t)],
    ) {
        assert(id == 0);
    }
}

/// An expired proposal can be neither signed nor executed.
pub proof fn lemma_expired_not_signable(s: WalletView, signer: Address, id: u64, now: u64)
    requires
        s.pending.contains_key(id),
        now > s.pending[id].expires_at,
    ensures
        sign_spec(s, signer, id, now).1 is Err,
        sign_spec(s, signer, id, now).0 == s,
{
}

/// Only the proposer, or an unexpired Owner or Admin, cancels a proposal.
pub proof fn lemma_cancel_authority(s: WalletView, caller: Address, id: u64, now: u64)
    requires
        cancel_spec(s, caller, id, now).1 is Ok,
    ensures
        caller == s.pending[id].proposer || owner_or_admin(s, caller, now),
        !cancel_spec(s, caller, id, now).0.pending.contains_key(id),
{
}

/// The emergency guardrails: an immediate emergency transfer never exceeds
/// the cap, never leaves less than the balance floor, never runs within the
/// cooldown, and keeps the day's volume within the daily limit.
pub proof fn lemma_emergency_guardrails(
    s: WalletView,
    p: Address,
    tok: Address,
    to: Address,
    amount: i128,
    balance: i128,
    now: u64,
)
    requires
        s.em_mode,
        propose_emergency_spec(s, p, tok, to, amount, balance, now).1 is Ok,
    ensures
        s.em_config is Some,
        ({
            let cfg = s.em_config->0;
            let s2 = propose_emergency_spec(s, p, tok, to, amount, balance, now).0;
            &&& 0 < amount <= cfg.max_amount
            &&& balance - amount >= cfg.min_balance
            &&& !cooldown_active(s, cfg.cooldown, now)
            &&& s2.em_vol <= cfg.daily_limit
            &&& s2.em_last == (if now == 0 {
                1
            } else {
                now
            })
        }),
{
}

/// The daily emergency volume starts over each calendar day (days counted
/// from time 0). In emergency mode, for a positive transfer within the cap,
/// outside the cooldown and leaving at least the balance floor: on a later
/// day than the last emergency transfer it is made exactly when it is within
/// the daily limit, and the day's volume becomes its amount; on the same day
/// it is made exactly when the volume plus it stays within the limit, and
/// the volume grows by it. A transfer refused for the limit changes nothing.
pub proof fn lemma_emergency_daily_volume(
    s: WalletView,
    p: Address,
    tok: Address,
    to: Address,
    amount: i128,
    balance: i128,
    now: u64,
)
    requires
        !s.paused,
        s.em_mode,
        s.em_config is Some,
        0 < amount <= s.em_config->0.max_amount,
        !cooldown_active(s, s.em_config->0.cooldown, now),
        balance - amount >= s.em_config->0.min_balance,
        balance - amount >= i128::MIN,
    ensures
        ({
            let limit = s.em_config->0.daily_limit;
            let r = propose_emergency_spec(s, p, tok, to, amount, balance, now);
            let made = r.1 == Ok::<(u64, Option<Transfer>), Error>(
                (
                    0u64,
                    Some(Transfer { token: tok, from: p, to, amount, from_must_authorize: true }),
                ),
            );
            let refused = r == (s, Err::<(u64, Option<Transfer>), Error>(Error::EmergencyDailyLimitExceeded));
            &&& now / 86400 > s.em_last / 86400 && amount <= limit ==> made && r.0.em_vol == amount
            &&& now / 86400 > s.em_last / 86400 && amount > limit ==> refused
            &&& now / 86400 <= s.em_last / 86400 && s.em_vol + amount <= limit ==> made && r.0.em_vol
                == s.em_vol + amount
            &&& now / 86400 <= s.em_last / 86400 && s.em_vol + amount > limit && s.em_vol + amount
                <= i128::MAX ==> refused
        }),
{
}

/// Batch additions are atomic: accepted, every listed account is a member
/// with its listed role and no spending limit; refused, nothing changes.
pub proof fn lemma_batch_add_atomic(s: WalletView, caller: Address, items: Seq<BatchMemberItem>, now: u64)
    ensures
        batch_add_spec(s, caller, items, now).1 is Err ==> batch_add_spec(s, caller, items, now).0 == s,
        batch_add_spec(s, caller, items, now).1 is Ok ==> forall|j: int|
            0 <= j < items.len() ==> {
                let m = batch_add_spec(s, caller, items, now).0.members;
                &&& m.contains_key((#[trigger] items[j]).address)
                &&& m[items[j].address].role == items[j].role
                &&& m[items[j].address].spending_limit == 0
            },
{
    if batch_add_spec(s, caller, items, now).1 is Ok {
        assert forall|j: int| 0 <= j < items.len() implies {
            let m = batch_add_spec(s, caller, items, now).0.members;
            &&& m.contains_key((#[trigger] items[j]).address)
            &&& m[items[j].address].role == items[j].role
            &&& m[items[j].address].spending_limit == 0
        } by {
            lemma_added_member(s.members, items, now, j);
        }
    }
}

/// Each member of an accepted batch ends up with its listed role.
proof fn lemma_added_member(
    members: Map<u64, super::FamilyMember>,
    items: Seq<BatchMemberItem>,
    now: u64,
    j: int,
)
    requires
        super::members::batch_add_error(members, items) is None,
        0 <= j < items.len(),
    ensures
        super::members::members_added(members, items, now).contains_key(items[j].address),
        super::members::members_added(members, items, now)[items[j].address].role == items[j].role,
        super::members::members_added(members, items, now)[items[j].address].spending_limit == 0,
    decreases items.len(),
{
    let r = items.drop_last();
    if j < items.len() - 1 {
        assert(super::members::batch_add_error(members, r) is None);
        assert(r[j] == items[j]);
        lemma_added_member(members, r, now, j);
        assert(items.last().address != items[j].address);
    }
}

/// Batch removals are atomic: accepted, no listed account remains a member
/// and every other member is kept; refused, nothing changes.
pub proof fn lemma_batch_remove_atomic(s: WalletView, caller: Address, addrs: Seq<Address>, now: u64)
    ensures
        batch_remove_spec(s, caller, addrs, now).1 is Err ==> batch_remove_spec(s, caller, addrs, now).0
            == s,
        batch_remove_spec(s, caller, addrs, now).1 is Ok ==> {
            let m = batch_remove_spec(s, caller, addrs, now).0.members;
            &&& forall|j: int| 0 <= j < addrs.len() ==> !m.contains_key(#[trigger] addrs[j])
            &&& forall|k: u64|
                s.members.contains_key(k) && !addrs.contains(k) ==> #[trigger] m.contains_key(k)
                    && m[k] == s.members[k]
        },
{
}

/// The owner can never be removed.
pub proof fn lemma_owner_not_removable(s: WalletView, caller: Address, now: u64)
    requires
        s.owner is Some,
    ensures
        remove_family_member_spec(s, caller, s.owner->0, now).1 is Err,
        remove_family_member_spec(s, caller, s.owner->0, now).0 == s,
{
}

/// A wallet is initialized once: initialization leaves the wallet
/// initialized, so a second `init` is never admitted (and its specification
/// answers `AlreadyInitialized` without a change).
pub proof fn lemma_init_once(s: WalletView, owner: Address, initial: Seq<Address>, o2: Address, i2: Seq<Address>, now: u64, later: u64)
    requires
        init_spec(s, owner, initial, now).1 is Ok,
    ensures
        ({
            let s2 = init_spec(s, owner, initial, now).0;
            &&& initialized(s2)
            &&& s2.owner == Some(owner)
            &&& init_spec(s2, o2, i2, later) == (s2, Err::<bool, Error>(Error::AlreadyInitialized))
        }),
{
}

/// The audit trail keeps at most `MAX_ACCESS_AUDIT_ENTRIES` entries, the
/// newest last; below the cap nothing is dropped.
pub proof fn lemma_audit_bounded(log: Seq<AccessAuditEntry>, e: AccessAuditEntry)
    requires
        log.len() <= MAX_ACCESS_AUDIT_ENTRIES,
    ensures
        audit_push(log, e).len() <= MAX_ACCESS_AUDIT_ENTRIES,
        audit_push(log, e).last() == e,
        log.len() < MAX_ACCESS_AUDIT_ENTRIES ==> audit_push(log, e) == log.push(e),
        log.len() == MAX_ACCESS_AUDIT_ENTRIES ==> audit_push(log, e) == log.drop_first().push(e),
{
    if log.len() == MAX_ACCESS_AUDIT_ENTRIES {
        assert(log.push(e).skip(1) =~= log.drop_first().push(e));
    }
}

/// Audit pages advance: from an index inside the trail a page ends strictly
/// after it and within the trail, so following `next_cursor` visits every
/// entry once and stops at the trail's length.
pub proof fn lemma_audit_pages_advance(log: Seq<AccessAuditEntry>, from: u32, limit: u32)
    ensures
        from < log.len() ==> from < audit_page_end(log, from, limit) <= log.len(),
        from >= log.len() ==> audit_page_end(log, from, limit) == log.len(),
{
}

/// Roles expire inclusively: from the expiry time on, the account is no
/// longer treated as an Owner or Admin, and calls needing a role are refused.
pub proof fn lemma_role_expiry_inclusive(s: WalletView, a: Address, min: FamilyRole, now: u64)
    requires
        s.owner is Some,
        s.members.contains_key(a),
        s.role_exp.contains_key(a),
        now >= s.role_exp[a],
    ensures
        role_expired(s, a, now),
        !owner_or_admin(s, a, now),
        role_error(s, a, min, now) == Some(Error::RoleExpired),
{
}

/// After revalidation every live proposal carries only signatures of active
/// members, and a proposal that lost its quorum expires at once.
pub proof fn lemma_revalidation_sound(s: WalletView, caller: Address, now: u64)
    requires
        revalidate_spec(s, caller, now).1 is Ok,
    ensures
        forall|k: u64| #[trigger] revalidate_spec(s, caller, now).0.pending.contains_key(k)
            <==> s.pending.contains_key(k),
        forall|k: u64|
            #[trigger] s.pending.contains_key(k) && s.pending[k].expires_at > now ==> {
                let tx = revalidate_spec(s, caller, now).0.pending[k];
                &&& tx.signatures == active_signers(s, s.pending[k].signatures, now)
                &&& quorum_lost(s, s.pending[k], now) ==> tx.expires_at == now
                &&& !quorum_lost(s, s.pending[k], now) ==> tx.expires_at == s.pending[k].expires_at
            },
{
}

/// Filtering a list whose entries all pass leaves it as it is.
proof fn lemma_filter_all_pass(v: Seq<Address>, p: spec_fn(Address) -> bool)
    requires
        forall|i: int| 0 <= i < v.len() ==> p(#[trigger] v[i]),
    ensures
        v.filter(p) == v,
    decreases v.len(),
{
    reveal(Seq::filter);
    if v.len() > 0 {
        let r = v.drop_last();
        assert forall|i: int| 0 <= i < r.len() implies p(#[trigger] r[i]) by {
            assert(r[i] == v[i]);
        }
        lemma_filter_all_pass(r, p);
        assert(p(v[v.len() - 1]));
        assert(r.push(v.last()) =~= v);
    }
}

/// Counting keys on which the predicate never holds gives zero.
proof fn lemma_count_none(ids: Seq<u64>, q: spec_fn(u64) -> bool)
    requires
        forall|i: int| 0 <= i < ids.len() ==> !q(#[trigger] ids[i]),
    ensures
        count_keys(ids, q) == 0,
    decreases ids.len(),
{
    if ids.len() > 0 {
        let r = ids.drop_last();
        assert forall|i: int| 0 <= i < r.len() implies !q(#[trigger] r[i]) by {
            assert(r[i] == ids[i]);
        }
        lemma_count_none(r, q);
        assert(!q(ids[ids.len() - 1]));
    }
}

/// Revalidation is idempotent: revalidating again, with nothing changed in
/// between, invalidates nothing and leaves every proposal as it is.
pub proof fn lemma_revalidation_idempotent(s: WalletView, caller: Address, now: u64)
    requires
        s.pending.dom().finite(),
        revalidate_spec(s, caller, now).1 is Ok,
    ensures
        ({
            let s2 = revalidate_spec(s, caller, now).0;
            revalidate_spec(s2, caller, now) == (s2, Ok::<u32, Error>(0))
        }),
{
    let s2 = revalidate_spec(s, caller, now).0;
    assert forall|k: u64| #[trigger] s2.pending.contains_key(k) implies revalidate_tx(
        s2,
        s2.pending[k],
        now,
    ) == s2.pending[k] && !invalidated(s2, s2.pending[k], now) by {
        let tx = s.pending[k];
        if tx.expires_at > now && !quorum_lost(s, tx, now) {
            let p = |a: Address| signer_active(s, a, now);
            let f = tx.signatures.filter(p);
            tx.signatures.filter_lemma(p);
            lemma_filter_all_pass(f, p);
            assert(active_signers(s2, f, now) == f) by {
                assert((|a: Address| signer_active(s2, a, now)) == p);
            }
        }
    }
    assert(s2.pending.dom() =~= s.pending.dom());
    crate::ordmap::lemma_sorted_keys_of_finite(s2.pending);
    let ids = sorted_keys(s2.pending);
    assert forall|i: int| 0 <= i < ids.len() implies !(#[trigger] invalid_pred(s2, now)(ids[i])) by {
        assert(ids.contains(ids[i]));
        assert(s2.pending.contains_key(ids[i]));
    }
    lemma_count_none(ids, invalid_pred(s2, now));
    assert(revalidated(s2, now) =~= s2.pending);
    assert(WalletView { pending: revalidated(s2, now), ..s2 } == s2);
}

/// With rollover rules, a member's spending in the current day never
/// exceeds the rules' cap: an accepted withdrawal leaves the day's tracker
/// within the limit.
pub proof fn lemma_window_cap(
    s: WalletView,
    p: Address,
    t: TransactionType,
    token: Address,
    to: Address,
    amount: i128,
    auth: bool,
    now: u64,
)
    requires
        execute_spec(s, p, t, TransactionData::Withdrawal(token, to, amount), auth, now).1 is Ok,
        s.members.contains_key(p),
        !privileged(s, p),
        s.prec_limits.contains_key(p),
        s.prec_limits[p].enable_rollover,
    ensures
        ({
            let s2 = execute_spec(s, p, t, TransactionData::Withdrawal(token, to, amount), auth, now).0;
            &&& s2.trackers.contains_key(p)
            &&& s2.trackers[p].current_spent <= s.prec_limits[p].limit
            &&& s2.trackers[p].current_spent == current_tracker(s, p, now).current_spent + amount
            &&& s2.trackers[p].period.period_start == window_start(now)
        }),
{
}

} // verus!

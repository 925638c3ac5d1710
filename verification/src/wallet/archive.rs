//! Archiving executed proposals and the storage statistics.

use vstd::prelude::*;
use crate::common::Address;
use crate::ordmap::{count_keys, lemma_count_step, min_key, sorted_keys, OrdMap};
use super::{
    owner_or_admin, wallet_inv, ArchivedTransaction, Error, ExecutedTxMeta, FamilyWallet,
    StorageStats, WalletView, DEFAULT_ARCHIVE_PAGE_LIMIT, MAX_ARCHIVE_ENTRIES,
    MAX_ARCHIVE_PAGE_LIMIT,
};

verus! {

/// Whether every entry count fits the statistics' counters.
pub open spec fn stats_fit(s: WalletView) -> bool {
    &&& s.pending.dom().len() <= u32::MAX
    &&& s.archived.dom().len() <= u32::MAX
    &&& s.members.dom().len() <= u32::MAX
}

/// The statistics of a wallet at `now`.
pub open spec fn stats_of(s: WalletView, now: u64) -> StorageStats {
    StorageStats {
        pending_transactions: s.pending.dom().len() as u32,
        archived_transactions: s.archived.dom().len() as u32,
        total_members: s.members.dom().len() as u32,
        last_updated: now,
    }
}

/// The archive record of an execution.
pub open spec fn archive_entry(m: ExecutedTxMeta, now: u64) -> ArchivedTransaction {
    ArchivedTransaction {
        tx_id: m.tx_id,
        tx_type: m.tx_type,
        proposer: m.proposer,
        executed_at: m.executed_at,
        archived_at: now,
    }
}

/// Archiving one execution: at capacity the entry with the lowest id is
/// evicted first.
pub open spec fn archive_step(
    arch: Map<u64, ArchivedTransaction>,
    k: u64,
    m: ExecutedTxMeta,
    now: u64,
) -> Map<u64, ArchivedTransaction> {
    if arch.dom().len() >= MAX_ARCHIVE_ENTRIES {
        arch.remove(min_key(arch)).insert(k, archive_entry(m, now))
    } else {
        arch.insert(k, archive_entry(m, now))
    }
}

/// Whether an execution falls before the retention cutoff.
pub open spec fn before_cutoff(m: ExecutedTxMeta, cutoff: u64) -> bool {
    m.executed_at < cutoff
}

/// The archive after archiving, in the order of `ids`, those executions
/// that fall before the cutoff.
pub open spec fn archive_fold(
    arch: Map<u64, ArchivedTransaction>,
    exec: Map<u64, ExecutedTxMeta>,
    ids: Seq<u64>,
    cutoff: u64,
    now: u64,
) -> Map<u64, ArchivedTransaction>
    decreases ids.len(),
{
    if ids.len() == 0 {
        arch
    } else {
        let a = archive_fold(arch, exec, ids.drop_last(), cutoff, now);
        let k = ids.last();
        if before_cutoff(exec[k], cutoff) {
            archive_step(a, k, exec[k], now)
        } else {
            a
        }
    }
}

/// Whether the execution stored under a key falls before the cutoff.
pub open spec fn archivable(exec: Map<u64, ExecutedTxMeta>, cutoff: u64) -> spec_fn(u64) -> bool {
    |k: u64| before_cutoff(exec[k], cutoff)
}

/// The executions kept after archiving.
pub open spec fn kept_executions(exec: Map<u64, ExecutedTxMeta>, cutoff: u64) -> Map<u64, ExecutedTxMeta> {
    Map::new(|k: u64| exec.contains_key(k) && !before_cutoff(exec[k], cutoff), |k: u64| exec[k])
}

/// The number of executions before the cutoff.
pub open spec fn archive_count(exec: Map<u64, ExecutedTxMeta>, cutoff: u64) -> nat {
    count_keys(sorted_keys(exec), archivable(exec, cutoff))
}

/// The calls of `archive_old_transactions` that are admitted: an unexpired
/// Owner or Admin of an unpaused wallet, with a cutoff not after `now`.
pub open spec fn archive_admissible(s: WalletView, caller: Address, cutoff: u64, now: u64) -> bool {
    &&& !s.paused
    &&& owner_or_admin(s, caller, now)
    &&& cutoff <= now
}

/// Archiving: every execution before the cutoff (which may not lie after
/// `now`) moves, in ascending id order, from the executed list to the
/// archive; the count moved is returned.
pub open spec fn archive_spec(s: WalletView, caller: Address, cutoff: u64, now: u64) -> (WalletView, Result<
    u32,
    Error,
>) {
    if s.paused {
        (s, Err(Error::ContractPaused))
    } else if !owner_or_admin(s, caller, now) {
        (s, Err(Error::Unauthorized))
    } else if cutoff > now {
        (s, Err(Error::InvalidArchiveCutoff))
    } else if archive_count(s.executed, cutoff) > u32::MAX {
        (s, Err(Error::ArithmeticOverflow))
    } else {
        let s1 = WalletView {
            executed: kept_executions(s.executed, cutoff),
            archived: archive_fold(s.archived, s.executed, sorted_keys(s.executed), cutoff, now),
            ..s
        };
        if !stats_fit(s1) {
            (s, Err(Error::ArithmeticOverflow))
        } else {
            (
                WalletView { stats: Some(stats_of(s1, now)), ..s1 },
                Ok(archive_count(s.executed, cutoff) as u32),
            )
        }
    }
}

/// The effective size of an archive page.
pub open spec fn archive_page_limit(limit: u32) -> nat {
    if limit == 0 {
        DEFAULT_ARCHIVE_PAGE_LIMIT as nat
    } else if limit > MAX_ARCHIVE_PAGE_LIMIT {
        MAX_ARCHIVE_PAGE_LIMIT as nat
    } else {
        limit as nat
    }
}

/// The first archive entries in ascending id order, at most `n` of them.
pub open spec fn archive_prefix(arch: Map<u64, ArchivedTransaction>, n: nat) -> Seq<ArchivedTransaction> {
    let ids = sorted_keys(arch);
    let m = if ids.len() < n {
        ids.len()
    } else {
        n
    };
    ids.take(m as int).map_values(|k: u64| arch[k])
}

proof fn lemma_archive_fold_bound(
    arch: Map<u64, ArchivedTransaction>,
    exec: Map<u64, ExecutedTxMeta>,
    ids: Seq<u64>,
    cutoff: u64,
    now: u64,
)
    requires
        arch.dom().finite(),
        arch.dom().len() <= MAX_ARCHIVE_ENTRIES,
    ensures
        archive_fold(arch, exec, ids, cutoff, now).dom().finite(),
        archive_fold(arch, exec, ids, cutoff, now).dom().len() <= MAX_ARCHIVE_ENTRIES,
    decreases ids.len(),
{
    if ids.len() > 0 {
        lemma_archive_fold_bound(arch, exec, ids.drop_last(), cutoff, now);
        let a = archive_fold(arch, exec, ids.drop_last(), cutoff, now);
        let k = ids.last();
        if a.dom().len() >= MAX_ARCHIVE_ENTRIES {
            assert(a.dom().len() > 0);
            let mk = min_key(a);
            assert(a.contains_key(mk)) by {
                let w = a.dom().choose();
                lemma_min_exists(a);
            }
            assert(a.remove(mk).dom().len() == a.dom().len() - 1);
        }
    }
}

/// Folding ids that are distinct and absent from the archive grows it by one
/// per archivable id, up to the cap.
pub proof fn lemma_archive_fold_count(
    arch: Map<u64, ArchivedTransaction>,
    exec: Map<u64, ExecutedTxMeta>,
    ids: Seq<u64>,
    cutoff: u64,
    now: u64,
)
    requires
        arch.dom().finite(),
        arch.dom().len() <= MAX_ARCHIVE_ENTRIES,
        ids.no_duplicates(),
        forall|j: int| 0 <= j < ids.len() ==> !arch.contains_key(#[trigger] ids[j]),
    ensures
        archive_fold(arch, exec, ids, cutoff, now).dom().len() == if arch.dom().len() + count_keys(
            ids,
            archivable(exec, cutoff),
        ) < MAX_ARCHIVE_ENTRIES {
            arch.dom().len() + count_keys(ids, archivable(exec, cutoff))
        } else {
            MAX_ARCHIVE_ENTRIES as nat
        },
    decreases ids.len(),
{
    if ids.len() > 0 {
        let rest = ids.drop_last();
        assert forall|j: int| 0 <= j < rest.len() implies !arch.contains_key(#[trigger] rest[j]) by {
            assert(rest[j] == ids[j]);
        }
        lemma_archive_fold_count(arch, exec, rest, cutoff, now);
        lemma_archive_fold_bound(arch, exec, rest, cutoff, now);
        let a = archive_fold(arch, exec, rest, cutoff, now);
        let k = ids.last();
        assert(!a.contains_key(k)) by {
            lemma_fold_keys(arch, exec, rest, cutoff, now, k);
            assert(!arch.contains_key(ids[ids.len() - 1]));
            if rest.contains(k) {
                let x = choose|x: int| 0 <= x < rest.len() && rest[x] == k;
                assert(ids[x] == ids[ids.len() - 1]);
            }
        }
        if before_cutoff(exec[k], cutoff) {
            if a.dom().len() >= MAX_ARCHIVE_ENTRIES {
                let mk = min_key(a);
                lemma_min_exists(a);
                assert(a.remove(mk).dom().len() == a.dom().len() - 1);
                assert(!a.remove(mk).contains_key(k));
            }
        }
    }
}

/// A finite nonempty map has a smallest key.
proof fn lemma_min_exists(m: Map<u64, ArchivedTransaction>)
    requires
        m.dom().finite(),
        m.dom().len() > 0,
    ensures
        m.contains_key(min_key(m)),
        forall|j: u64| m.contains_key(j) ==> min_key(m) <= j,
    decreases m.dom().len(),
{
    let w = m.dom().choose();
    assert(m.dom().contains(w));
    let r = m.remove(w);
    if r.dom().len() == 0 {
        assert forall|j: u64| m.contains_key(j) implies w <= j by {
            if j != w {
                assert(r.dom().contains(j));
            }
        }
    } else {
        lemma_min_exists(r);
        let rm = min_key(r);
        if w <= rm {
            assert forall|j: u64| m.contains_key(j) implies w <= j by {
                if j != w {
                    assert(r.contains_key(j));
                }
            }
        } else {
            assert forall|j: u64| m.contains_key(j) implies rm <= j by {
                if j != w {
                    assert(r.contains_key(j));
                }
            }
        }
    }
}

impl FamilyWallet {
    /// The wallet's entry counts at `now`, if they fit the counters.
    pub(crate) fn compute_stats(&self, now: u64) -> (r: Option<StorageStats>)
        requires
            self.wf(),
        ensures
            r is Some == stats_fit(self@),
            r is Some ==> r->0 == stats_of(self@, now),
    {
        let p = self.pending.len();
        let a = self.archived.len();
        let m = self.members.len();
        if p > 0xffff_ffff || a > 0xffff_ffff || m > 0xffff_ffff {
            return None;
        }
        Some(
            StorageStats {
                pending_transactions: p as u32,
                archived_transactions: a as u32,
                total_members: m as u32,
                last_updated: now,
            },
        )
    }

    /// Move executions before `before_timestamp` into the archive (Owner or
    /// Admin of an unpaused wallet, with a cutoff not after `now`); answers
    /// how many moved.
    pub fn archive_old_transactions(&mut self, caller: Address, before_timestamp: u64, now: u64) -> (r:
        Result<u32, Error>)
        requires
            old(self).wf(),
            archive_admissible(old(self)@, caller, before_timestamp, now),
        ensures
            final(self).wf(),
            (final(self)@, r) == archive_spec(old(self)@, caller, before_timestamp, now),
    {
        self.try_archive_old_transactions(caller, before_timestamp, now)
    }

    /// The same step on any input: a call that is not admitted above is
    /// answered with its refusal and changes nothing.
    pub fn try_archive_old_transactions(&mut self, caller: Address, before_timestamp: u64, now: u64) -> (r:
        Result<u32, Error>)
        requires
            old(self).wf(),
        ensures
            final(self).wf(),
            (final(self)@, r) == archive_spec(old(self)@, caller, before_timestamp, now),
    {
        let ghost s = self@;
        proof {
            self.lemma_wf_inv();
            self.executed.lemma_sorted_keys();
            self.executed.lemma_keys();
        }
        if self.paused {
            return Err(Error::ContractPaused);
        }
        if !self.is_owner_or_admin(caller, now) {
            return Err(Error::Unauthorized);
        }
        if before_timestamp > now {
            return Err(Error::InvalidArchiveCutoff);
        }
        let n = self.executed.len();
        let ghost ids = sorted_keys(s.executed);
        let ghost p = archivable(s.executed, before_timestamp);
        // Count first, so that a count beyond the counter leaves the wallet untouched.
        let mut count: usize = 0;
        let mut i: usize = 0;
        while i < n
            invariant
                self@ == s,
                self.wf(),
                n == ids.len(),
                ids == self.executed.keys(),
                i <= n,
                p == archivable(s.executed, before_timestamp),
                count == count_keys(ids.take(i as int), p),
                count <= i,
            decreases n - i,
        {
            proof {
                lemma_count_step(ids, p, i as int);
            }
            let k = self.executed.key_at(i);
            let meta = *self.executed.value_at(i);
            proof {
                assert(p(k) == before_cutoff(s.executed[k], before_timestamp));
            }
            if meta.executed_at < before_timestamp {
                count = count + 1;
            }
            i = i + 1;
        }
        proof {
            assert(ids.take(n as int) =~= ids);
        }
        if count > 0xffff_ffff || self.pending.len() > 0xffff_ffff || self.members.len() > 0xffff_ffff {
            return Err(Error::ArithmeticOverflow);
        }
        let mut kept: OrdMap<ExecutedTxMeta> = OrdMap::new();
        i = 0;
        while i < n
            invariant
                self.maps_wf(),
                kept.wf(),
                n == ids.len(),
                ids == self.executed.keys(),
                ids == sorted_keys(s.executed),
                forall|k: u64| s.executed.contains_key(k) <==> ids.contains(k),
                i <= n,
                self@ == (WalletView {
                    archived: archive_fold(s.archived, s.executed, ids.take(i as int), before_timestamp, now),
                    ..s
                }),
                kept@ == Map::new(
                    |k: u64| ids.take(i as int).contains(k) && !before_cutoff(s.executed[k], before_timestamp),
                    |k: u64| s.executed[k],
                ),
                s.archived.dom().finite(),
                s.archived.dom().len() <= MAX_ARCHIVE_ENTRIES,
                wallet_inv(s),
            decreases n - i,
        {
            let k = self.executed.key_at(i);
            proof {
                assert(ids.take(i + 1).drop_last() =~= ids.take(i as int));
                assert(ids.take(i + 1).last() == k);
                lemma_archive_fold_bound(s.archived, s.executed, ids.take(i as int), before_timestamp, now);
                self.archived.lemma_keys();
            }
            let meta = *self.executed.value_at(i);
            let ghost a0 = self.archived@;
            let ghost kept0 = kept@;
            if meta.executed_at < before_timestamp {
                if self.archived.len() >= 500 {
                    proof {
                        self.archived.lemma_first_is_min();
                    }
                    let oldest = self.archived.key_at(0);
                    self.archived.remove(oldest);
                }
                self.archived.insert(
                    k,
                    ArchivedTransaction {
                        tx_id: meta.tx_id,
                        tx_type: meta.tx_type,
                        proposer: meta.proposer,
                        executed_at: meta.executed_at,
                        archived_at: now,
                    },
                );
                proof {
                    assert(meta.tx_id == k);
                    assert(self.archived@ =~= archive_step(a0, k, s.executed[k], now));
                }
            } else {
                kept.insert(k, meta);
            }
            i = i + 1;
            proof {
                assert(self@ =~= (WalletView {
                    archived: archive_fold(s.archived, s.executed, ids.take(i as int), before_timestamp, now),
                    ..s
                }));
                let cur = ids.take(i as int);
                let pre = ids.take(i - 1);
                assert forall|x: u64| cur.contains(x) <==> (pre.contains(x) || x == k) by {
                    if cur.contains(x) {
                        let y = choose|y: int| 0 <= y < cur.len() && cur[y] == x;
                        if y < i - 1 {
                            assert(pre[y] == x);
                        }
                    }
                    if pre.contains(x) {
                        let y = choose|y: int| 0 <= y < pre.len() && pre[y] == x;
                        assert(cur[y] == x);
                    }
                    if x == k {
                        assert(cur[i - 1] == k);
                    }
                }
                assert(kept@ =~= Map::new(
                    |x: u64| ids.take(i as int).contains(x) && !before_cutoff(s.executed[x], before_timestamp),
                    |x: u64| s.executed[x],
                ));
            }
        }
        proof {
            assert(ids.take(n as int) =~= ids);
            assert(kept@ =~= kept_executions(s.executed, before_timestamp));
        }
        self.executed = kept;
        proof {
            assert(self@ =~= (WalletView {
                executed: kept_executions(s.executed, before_timestamp),
                archived: archive_fold(s.archived, s.executed, ids, before_timestamp, now),
                ..s
            }));
            lemma_archive_inv(s, before_timestamp, now);
        }
        let pn = self.pending.len();
        let an = self.archived.len();
        let mn = self.members.len();
        self.stats = Some(
            StorageStats {
                pending_transactions: pn as u32,
                archived_transactions: an as u32,
                total_members: mn as u32,
                last_updated: now,
            },
        );
        Ok(count as u32)
    }

    /// The first archive entries in ascending id order (Owner or Admin):
    /// `limit` of them, 0 meaning the default, capped at the page maximum.
    pub fn get_archived_transactions(&self, caller: Address, limit: u32, now: u64) -> (r: Result<
        Vec<ArchivedTransaction>,
        Error,
    >)
        requires
            self.wf(),
            owner_or_admin(self@, caller, now),
        ensures
            !owner_or_admin(self@, caller, now) ==> r == Err::<Vec<ArchivedTransaction>, Error>(
                Error::Unauthorized,
            ),
            owner_or_admin(self@, caller, now) ==> r is Ok && r->Ok_0@ == archive_prefix(
                self@.archived,
                archive_page_limit(limit),
            ),
    {
        if !self.is_owner_or_admin(caller, now) {
            return Err(Error::Unauthorized);
        }
        let eff: usize = if limit == 0 {
            20
        } else if limit > 100 {
            100
        } else {
            limit as usize
        };
        proof {
            self.archived.lemma_sorted_keys();
        }
        let ghost ids = self.archived.keys();
        let n = self.archived.len();
        let m = if n < eff {
            n
        } else {
            eff
        };
        let mut out: Vec<ArchivedTransaction> = Vec::new();
        let mut i: usize = 0;
        while i < m
            invariant
                self.wf(),
                m <= n,
                n == ids.len(),
                ids == self.archived.keys(),
                i <= m,
                out@ == ids.take(i as int).map_values(|k: u64| self@.archived[k]),
            decreases m - i,
        {
            let k = self.archived.key_at(i);
            let v = *self.archived.value_at(i);
            out.push(v);
            i = i + 1;
            proof {
                assert(out@ =~= ids.take(i as int).map_values(|k: u64| self@.archived[k]));
            }
        }
        Ok(out)
    }

    /// The statistics recorded by the last maintenance operation (zeros
    /// when none ran).
    pub fn get_storage_stats(&self) -> (r: StorageStats)
        ensures
            r == (match self@.stats {
                Some(st) => st,
                None => StorageStats {
                    pending_transactions: 0,
                    archived_transactions: 0,
                    total_members: 0,
                    last_updated: 0,
                },
            }),
    {
        match self.stats {
            Some(st) => st,
            None => StorageStats {
                pending_transactions: 0,
                archived_transactions: 0,
                total_members: 0,
                last_updated: 0,
            },
        }
    }
}

/// A key of the archive after a fold was archived before or is one of the
/// folded ids whose execution falls before the cutoff.
proof fn lemma_fold_keys(
    arch: Map<u64, ArchivedTransaction>,
    exec: Map<u64, ExecutedTxMeta>,
    ids: Seq<u64>,
    cutoff: u64,
    now: u64,
    k: u64,
)
    ensures
        archive_fold(arch, exec, ids, cutoff, now).contains_key(k) ==> arch.contains_key(k)
            || (ids.contains(k) && before_cutoff(exec[k], cutoff)),
    decreases ids.len(),
{
    if ids.len() > 0 {
        lemma_fold_keys(arch, exec, ids.drop_last(), cutoff, now, k);
        let prev = archive_fold(arch, exec, ids.drop_last(), cutoff, now);
        let last = ids.last();
        if archive_fold(arch, exec, ids, cutoff, now).contains_key(k) {
            if k == last && before_cutoff(exec[last], cutoff) {
                assert(ids[ids.len() - 1] == k);
            } else {
                assert(prev.contains_key(k));
                if ids.drop_last().contains(k) {
                    let x = choose|x: int| 0 <= x < ids.drop_last().len() && ids.drop_last()[x] == k;
                    assert(ids[x] == k);
                }
            }
        }
    }
}

/// Archiving keeps the wallet invariant.
pub proof fn lemma_archive_inv(s: WalletView, cutoff: u64, now: u64)
    requires
        wallet_inv(s),
        forall|k: u64| s.executed.contains_key(k) <==> sorted_keys(s.executed).contains(k),
    ensures
        wallet_inv(
            WalletView {
                executed: kept_executions(s.executed, cutoff),
                archived: archive_fold(s.archived, s.executed, sorted_keys(s.executed), cutoff, now),
                ..s
            },
        ),
{
    let ids = sorted_keys(s.executed);
    lemma_archive_fold_bound(s.archived, s.executed, ids, cutoff, now);
    let arch = archive_fold(s.archived, s.executed, ids, cutoff, now);
    assert forall|k: u64| #[trigger] arch.contains_key(k) implies k < s.next_tx && !s.pending.contains_key(k) by {
        lemma_fold_keys(s.archived, s.executed, ids, cutoff, now, k);
    }
    let ex = kept_executions(s.executed, cutoff);
    let t = WalletView { executed: ex, archived: arch, ..s };
    assert forall|k: u64| #[trigger] t.pending.contains_key(k) implies t.pending[k].tx_id == k && k
        < t.next_tx && t.pending[k].signatures.no_duplicates() && !t.executed.contains_key(k)
        && !t.archived.contains_key(k) by {
        if arch.contains_key(k) {
            assert(!s.pending.contains_key(k));
        }
    }
    assert forall|k: u64| #[trigger] t.executed.contains_key(k) implies t.executed[k].tx_id == k && k
        < t.next_tx && !t.archived.contains_key(k) by {
        assert(s.executed.contains_key(k));
        lemma_fold_keys(s.archived, s.executed, ids, cutoff, now, k);
    }
    assert forall|k: u64| #[trigger] t.archived.contains_key(k) implies k < t.next_tx by {
        assert(arch.contains_key(k));
    }
    if s.owner is None {
        assert forall|k: u64| !arch.contains_key(k) by {
            lemma_fold_keys(s.archived, s.executed, ids, cutoff, now, k);
            if ids.contains(k) {
                assert(s.executed.contains_key(k));
                assert(s.executed.dom().contains(k));
            }
            assert(!s.archived.dom().contains(k));
        }
        assert(arch.dom() =~= Set::<u64>::empty());
        assert(ex.dom() =~= Set::<u64>::empty());
    }
}

} // verus!

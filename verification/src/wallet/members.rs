//! Initialization, membership and spending limits.

use vstd::prelude::*;
use crate::common::{Address, FamilyRole};
use crate::ordmap::OrdMap;
use super::{
    audit_entry, audit_push, audited, initialized, owner_or_admin, role_error, role_expired,
    wallet_inv, AccessAuditEntry, AuditOp, BatchMemberItem, EmergencyConfig, Error, FamilyMember,
    FamilyWallet, StorageStats,
    MultiSigConfig, MultiSigConfigView, PrecisionLimitOpt, PrecisionSpendingLimit,
    SpendingTracker, WalletView, DEFAULT_EMERGENCY_COOLDOWN, DEFAULT_EMERGENCY_DAILY_LIMIT,
    DEFAULT_EMERGENCY_MAX, DEFAULT_MULTISIG_LIMIT, MAX_BATCH_MEMBERS, MAX_FAMILY_MEMBERS,
};
use super::multisig::{lemma_revalidated_inv, revalidated, revalidate_count, without_members};
use super::archive::{stats_fit, stats_of};

verus! {

/// A member record as created by the wallet.
pub open spec fn new_member(a: Address, role: FamilyRole, limit: i128, now: u64) -> FamilyMember {
    FamilyMember {
        address: a,
        role,
        spending_limit: limit,
        precision_limit: PrecisionLimitOpt::NoLimit,
        added_at: now,
    }
}

/// The members right after initialization: the owner as Owner, then each
/// listed account as Member (a listed owner is thereby made a Member).
pub open spec fn init_members(owner: Address, initial: Seq<Address>, now: u64) -> Map<u64, FamilyMember> {
    Map::new(
        |k: u64| k == owner || initial.contains(k),
        |k: u64|
            if initial.contains(k) {
                new_member(k, FamilyRole::Member, 0, now)
            } else {
                new_member(owner, FamilyRole::Owner, 0, now)
            },
    )
}

/// The default multisig configuration: two signatures of an empty signer
/// list, so that nothing executes until the type is configured.
pub open spec fn default_config() -> MultiSigConfigView {
    MultiSigConfigView { threshold: 2, signers: Seq::empty(), spending_limit: DEFAULT_MULTISIG_LIMIT }
}

/// The configurations set at initialization: every type but regular
/// withdrawals gets the default.
pub open spec fn init_configs() -> Map<u64, MultiSigConfigView> {
    Map::new(|k: u64| 1 <= k <= 5, |k: u64| default_config())
}

/// The emergency guardrails set at initialization.
pub open spec fn default_emergency() -> EmergencyConfig {
    EmergencyConfig {
        max_amount: DEFAULT_EMERGENCY_MAX,
        cooldown: DEFAULT_EMERGENCY_COOLDOWN,
        min_balance: 0,
        daily_limit: DEFAULT_EMERGENCY_DAILY_LIMIT,
    }
}

pub open spec fn init_spec(s: WalletView, owner: Address, initial: Seq<Address>, now: u64) -> (WalletView, Result<bool, Error>) {
    if initialized(s) {
        (s, Err(Error::AlreadyInitialized))
    } else {
        (
            WalletView {
                owner: Some(owner),
                members: init_members(owner, initial, now),
                configs: init_configs(),
                pending: Map::empty(),
                executed: Map::empty(),
                next_tx: 1,
                em_config: Some(default_emergency()),
                em_mode: false,
                em_last: 0,
                ..s
            },
            Ok(true),
        )
    }
}

pub open spec fn add_member_spec(
    s: WalletView,
    admin: Address,
    member: Address,
    role: FamilyRole,
    limit: i128,
    now: u64,
) -> (WalletView, Result<bool, Error>) {
    if s.paused {
        (s, Err(Error::ContractPaused))
    } else if role == FamilyRole::Owner {
        (s, Err(Error::InvalidRole))
    } else if !owner_or_admin(s, admin, now) {
        (s, Err(Error::Unauthorized))
    } else if limit < 0 {
        (s, Err(Error::InvalidSpendingLimit))
    } else if s.members.contains_key(member) {
        (s, Err(Error::MemberAlreadyExists))
    } else {
        (
            WalletView {
                members: s.members.insert(member, new_member(member, role, limit, now)),
                ..s
            },
            Ok(true),
        )
    }
}

pub open spec fn update_spending_limit_spec(
    s: WalletView,
    caller: Address,
    member: Address,
    new_limit: i128,
    now: u64,
) -> (WalletView, Result<bool, Error>) {
    if s.paused {
        (s, Err(Error::ContractPaused))
    } else if !owner_or_admin(s, caller, now) {
        (s, Err(Error::Unauthorized))
    } else if new_limit < 0 {
        (s, Err(Error::InvalidSpendingLimit))
    } else if !s.members.contains_key(member) {
        (s, Err(Error::MemberNotFound))
    } else {
        (
            WalletView {
                members: s.members.insert(
                    member,
                    FamilyMember { spending_limit: new_limit, ..s.members[member] },
                ),
                ..s
            },
            Ok(true),
        )
    }
}

/// Whether `caller` may spend `amount`: unknown, expired or negative gives
/// no; Owner and Admin are unlimited; a Member's limit of 0 is unlimited,
/// otherwise the amount must not exceed it.
pub open spec fn spending_allowed(s: WalletView, caller: Address, amount: i128, now: u64) -> bool {
    if amount < 0 || !s.members.contains_key(caller) || role_expired(s, caller, now) {
        false
    } else if s.members[caller].role == FamilyRole::Owner || s.members[caller].role
        == FamilyRole::Admin {
        true
    } else {
        s.members[caller].spending_limit == 0 || amount <= s.members[caller].spending_limit
    }
}

pub open spec fn add_family_member_spec(
    s: WalletView,
    caller: Address,
    member: Address,
    role: FamilyRole,
    now: u64,
) -> (WalletView, Result<bool, Error>) {
    if s.paused {
        (s, Err(Error::ContractPaused))
    } else if role == FamilyRole::Owner {
        (s, Err(Error::InvalidRole))
    } else if !owner_or_admin(s, caller, now) {
        (s, Err(Error::Unauthorized))
    } else {
        (
            audited(
                WalletView {
                    members: s.members.insert(member, new_member(member, role, 0, now)),
                    ..s
                },
                AuditOp::AddMember,
                caller,
                Some(member),
                now,
            ),
            Ok(true),
        )
    }
}

pub open spec fn remove_family_member_spec(s: WalletView, caller: Address, member: Address, now: u64) -> (WalletView, Result<
    bool,
    Error,
>) {
    if s.paused {
        (s, Err(Error::ContractPaused))
    } else if !initialized(s) {
        (s, Err(Error::NotInitialized))
    } else if role_expired(s, caller, now) {
        (s, Err(Error::RoleExpired))
    } else if caller != s.owner->0 {
        (s, Err(Error::Unauthorized))
    } else if member == s.owner->0 {
        (s, Err(Error::CannotRemoveOwner))
    } else {
        let t = without_members(s, seq![member]);
        if revalidate_count(t, now) > u32::MAX {
            (s, Err(Error::ArithmeticOverflow))
        } else {
            (
                audited(
                    WalletView { pending: revalidated(t, now), ..t },
                    AuditOp::RemoveMember,
                    caller,
                    Some(member),
                    now,
                ),
                Ok(true),
            )
        }
    }
}

/// The first refusal, in list order, of a batch addition: an Owner role, an
/// address listed twice, or an existing member.
pub open spec fn batch_add_error(members: Map<u64, FamilyMember>, items: Seq<BatchMemberItem>) -> Option<Error>
    decreases items.len(),
{
    if items.len() == 0 {
        None
    } else {
        match batch_add_error(members, items.drop_last()) {
            Some(e) => Some(e),
            None => {
                let it = items.last();
                if it.role == FamilyRole::Owner {
                    Some(Error::InvalidRole)
                } else if exists|j: int|
                    0 <= j < items.len() - 1 && (#[trigger] items[j]).address == it.address {
                    Some(Error::DuplicateBatchMember)
                } else if members.contains_key(it.address) {
                    Some(Error::MemberAlreadyExists)
                } else {
                    None
                }
            },
        }
    }
}

/// The members after adding a batch, in order.
pub open spec fn members_added(members: Map<u64, FamilyMember>, items: Seq<BatchMemberItem>, now: u64) -> Map<
    u64,
    FamilyMember,
>
    decreases items.len(),
{
    if items.len() == 0 {
        members
    } else {
        let it = items.last();
        members_added(members, items.drop_last(), now).insert(
            it.address,
            new_member(it.address, it.role, 0, now),
        )
    }
}

/// The audit trail after recording `op` by `caller` on each target in order.
pub open spec fn audit_batch(
    log: Seq<super::AccessAuditEntry>,
    op: AuditOp,
    caller: Address,
    targets: Seq<Address>,
    now: u64,
) -> Seq<super::AccessAuditEntry>
    decreases targets.len(),
{
    if targets.len() == 0 {
        log
    } else {
        audit_push(
            audit_batch(log, op, caller, targets.drop_last(), now),
            audit_entry(op, caller, Some(targets.last()), now),
        )
    }
}

/// The addresses of a batch.
pub open spec fn batch_addresses(items: Seq<BatchMemberItem>) -> Seq<Address> {
    items.map_values(|it: BatchMemberItem| it.address)
}

/// The calls of `batch_add_family_members` that are admitted: an
/// unexpired Admin or Owner of an initialized, unpaused wallet adds at most
/// `MAX_BATCH_MEMBERS` items, none with the Owner role, none listed twice or
/// already a member, without the family exceeding `MAX_FAMILY_MEMBERS`.
pub open spec fn batch_add_admissible(s: WalletView, caller: Address, items: Seq<BatchMemberItem>, now: u64) -> bool {
    &&& role_error(s, caller, FamilyRole::Admin, now) is None
    &&& !s.paused
    &&& items.len() <= MAX_BATCH_MEMBERS
    &&& batch_add_error(s.members, items) is None
    &&& s.members.dom().len() + items.len() <= MAX_FAMILY_MEMBERS
}

pub open spec fn batch_add_spec(s: WalletView, caller: Address, items: Seq<BatchMemberItem>, now: u64) -> (WalletView, Result<
    u32,
    Error,
>) {
    match role_error(s, caller, FamilyRole::Admin, now) {
        Some(e) => (s, Err(e)),
        None => if s.paused {
            (s, Err(Error::ContractPaused))
        } else if items.len() > MAX_BATCH_MEMBERS {
            (s, Err(Error::BatchTooLarge))
        } else if s.members.dom().len() > u32::MAX {
            (s, Err(Error::ArithmeticOverflow))
        } else {
            match batch_add_error(s.members, items) {
                Some(e) => (s, Err(e)),
                None => if s.members.dom().len() + items.len() > u32::MAX {
                    (s, Err(Error::ArithmeticOverflow))
                } else if s.members.dom().len() + items.len() > MAX_FAMILY_MEMBERS {
                    (s, Err(Error::MemberCapExceeded))
                } else {
                    let s1 = WalletView {
                        members: members_added(s.members, items, now),
                        audit: audit_batch(s.audit, AuditOp::AddMember, caller, batch_addresses(items), now),
                        ..s
                    };
                    if !stats_fit(s1) {
                        (s, Err(Error::ArithmeticOverflow))
                    } else {
                        (WalletView { stats: Some(stats_of(s1, now)), ..s1 }, Ok(items.len() as u32))
                    }
                },
            }
        },
    }
}

/// The first refusal, in list order, of a batch removal: the owner, an
/// address listed twice, or a non-member.
pub open spec fn batch_remove_error(owner: Address, members: Map<u64, FamilyMember>, addrs: Seq<Address>) -> Option<Error>
    decreases addrs.len(),
{
    if addrs.len() == 0 {
        None
    } else {
        match batch_remove_error(owner, members, addrs.drop_last()) {
            Some(e) => Some(e),
            None => {
                let a = addrs.last();
                if a == owner {
                    Some(Error::CannotRemoveOwner)
                } else if exists|j: int| 0 <= j < addrs.len() - 1 && addrs[j] == a {
                    Some(Error::DuplicateBatchMember)
                } else if !members.contains_key(a) {
                    Some(Error::MemberNotFound)
                } else {
                    None
                }
            },
        }
    }
}

/// The calls of `batch_remove_family_members` that are admitted: the
/// unexpired owner of an unpaused wallet removes at most `MAX_BATCH_MEMBERS`
/// addresses, not the owner, none listed twice, each a member.
pub open spec fn batch_remove_admissible(s: WalletView, caller: Address, addrs: Seq<Address>, now: u64) -> bool {
    &&& role_error(s, caller, FamilyRole::Owner, now) is None
    &&& caller == s.owner->0
    &&& !s.paused
    &&& addrs.len() <= MAX_BATCH_MEMBERS
    &&& batch_remove_error(s.owner->0, s.members, addrs) is None
}

pub open spec fn batch_remove_spec(s: WalletView, caller: Address, addrs: Seq<Address>, now: u64) -> (WalletView, Result<
    u32,
    Error,
>) {
    match role_error(s, caller, FamilyRole::Owner, now) {
        Some(e) => (s, Err(e)),
        None => if caller != s.owner->0 {
            (s, Err(Error::Unauthorized))
        } else if s.paused {
            (s, Err(Error::ContractPaused))
        } else if addrs.len() > MAX_BATCH_MEMBERS {
            (s, Err(Error::BatchTooLarge))
        } else {
            match batch_remove_error(s.owner->0, s.members, addrs) {
                Some(e) => (s, Err(e)),
                None => {
                    let t = without_members(s, addrs);
                    if !stats_fit(t) || revalidate_count(t, now) > u32::MAX {
                        (s, Err(Error::ArithmeticOverflow))
                    } else {
                        (
                            WalletView {
                                members: t.members,
                                audit: audit_batch(s.audit, AuditOp::RemoveMember, caller, addrs, now),
                                stats: Some(stats_of(t, now)),
                                pending: revalidated(t, now),
                                ..s
                            },
                            Ok(addrs.len() as u32),
                        )
                    }
                },
            }
        },
    }
}

pub open spec fn set_role_expiry_spec(
    s: WalletView,
    caller: Address,
    member: Address,
    expires_at: Option<u64>,
    now: u64,
) -> (WalletView, Result<bool, Error>) {
    match role_error(s, caller, FamilyRole::Admin, now) {
        Some(e) => (s, Err(e)),
        None => if s.paused {
            (s, Err(Error::ContractPaused))
        } else if !s.members.contains_key(member) {
            (s, Err(Error::MemberNotFound))
        } else {
            let exp = match expires_at {
                Some(t) => s.role_exp.insert(member, t),
                None => s.role_exp.remove(member),
            };
            (
                audited(
                    WalletView { role_exp: exp, ..s },
                    AuditOp::RoleExpiry,
                    caller,
                    Some(member),
                    now,
                ),
                Ok(true),
            )
        },
    }
}

/// Whether precision rules are acceptable: a non-negative period cap and
/// positive per-transaction bounds with the single cap within the period cap.
pub open spec fn precision_valid(l: PrecisionSpendingLimit) -> bool {
    l.limit >= 0 && l.min_precision > 0 && l.max_single_tx > 0 && l.max_single_tx <= l.limit
}

pub open spec fn set_precision_limit_spec(
    s: WalletView,
    caller: Address,
    member: Address,
    limit: PrecisionSpendingLimit,
    now: u64,
) -> (WalletView, Result<bool, Error>) {
    if s.paused {
        (s, Err(Error::ContractPaused))
    } else if !owner_or_admin(s, caller, now) {
        (s, Err(Error::Unauthorized))
    } else if !s.members.contains_key(member) {
        (s, Err(Error::MemberNotFound))
    } else if !precision_valid(limit) {
        (s, Err(Error::InvalidPrecisionConfig))
    } else {
        (
            WalletView {
                prec_limits: s.prec_limits.insert(member, limit),
                trackers: if limit.enable_rollover {
                    s.trackers
                } else {
                    s.trackers.remove(member)
                },
                ..s
            },
            Ok(true),
        )
    }
}

impl FamilyWallet {
    /// Whether `caller` may spend `amount` (see [`spending_allowed`]).
    pub fn check_spending_limit(&self, caller: Address, amount: i128, now: u64) -> (b: bool)
        requires
            self.wf(),
        ensures
            b == spending_allowed(self@, caller, amount, now),
    {
        if amount < 0 {
            return false;
        }
        let m = match self.members.get(caller) {
            Some(m) => *m,
            None => {
                return false;
            },
        };
        if self.expired(caller, now) {
            return false;
        }
        if m.role == FamilyRole::Owner || m.role == FamilyRole::Admin {
            return true;
        }
        if m.spending_limit == 0 {
            return true;
        }
        amount <= m.spending_limit
    }
}

impl FamilyWallet {
    /// Initialize the wallet: `owner` becomes Owner, each listed account a
    /// Member; every transaction type but regular withdrawals gets the
    /// default multisig configuration; emergency guardrails take their
    /// defaults. A wallet is initialized once: `init` is admitted only on a
    /// wallet that has no owner yet.
    pub fn init(&mut self, owner: Address, initial_members: &Vec<Address>, now: u64) -> (r: Result<bool, Error>)
        requires
            old(self).wf(),
            !initialized(old(self)@),
        ensures
            final(self).wf(),
            (final(self)@, r) == init_spec(old(self)@, owner, initial_members@, now),
    {
        self.try_init(owner, initial_members, now)
    }

    /// The same step on any input: a call that is not admitted above is
    /// answered with its refusal and changes nothing.
    pub fn try_init(&mut self, owner: Address, initial_members: &Vec<Address>, now: u64) -> (r: Result<bool, Error>)
        requires
            old(self).wf(),
        ensures
            final(self).wf(),
            (final(self)@, r) == init_spec(old(self)@, owner, initial_members@, now),
    {
        if self.owner.is_some() {
            return Err(Error::AlreadyInitialized);
        }
        let ghost s = self@;
        proof {
            self.lemma_wf_inv();
        }
        let mut members: OrdMap<FamilyMember> = OrdMap::new();
        members.insert(
            owner,
            FamilyMember {
                address: owner,
                role: FamilyRole::Owner,
                spending_limit: 0,
                precision_limit: PrecisionLimitOpt::NoLimit,
                added_at: now,
            },
        );
        proof {
            assert(members@ =~= init_members(owner, initial_members@.take(0), now));
        }
        let mut i: usize = 0;
        while i < initial_members.len()
            invariant
                members.wf(),
                i <= initial_members@.len(),
                members@ == init_members(owner, initial_members@.take(i as int), now),
            decreases initial_members@.len() - i,
        {
            let a = initial_members[i];
            members.insert(
                a,
                FamilyMember {
                    address: a,
                    role: FamilyRole::Member,
                    spending_limit: 0,
                    precision_limit: PrecisionLimitOpt::NoLimit,
                    added_at: now,
                },
            );
            i += 1;
            proof {
                let cur = initial_members@.take(i as int);
                let pre = initial_members@.take(i - 1);
                assert forall|x: u64| cur.contains(x) <==> (pre.contains(x) || x == a) by {
                    if cur.contains(x) {
                        let y = choose|y: int| 0 <= y < cur.len() && cur[y] == x;
                        if y < i - 1 {
                            assert(pre[y] == x);
                        }
                    }
                    if pre.contains(x) {
                        let y = choose|y: int| 0 <= y < pre.len() && pre[y] == x;
                        assert(cur[y] == x);
                    }
                    if x == a {
                        assert(cur[i - 1] == a);
                    }
                }
                assert(members@ =~= init_members(owner, cur, now));
            }
        }
        proof {
            assert(initial_members@.take(initial_members@.len() as int) =~= initial_members@);
        }
        let mut configs: OrdMap<MultiSigConfig> = OrdMap::new();
        let mut slot: u64 = 1;
        while slot <= 5
            invariant
                configs.wf(),
                1 <= slot <= 6,
                configs@ == Map::new(|k: u64| 1 <= k < slot, |k: u64| default_config()),
            decreases 6 - slot,
        {
            configs.insert(
                slot,
                MultiSigConfig { threshold: 2, signers: Vec::new(), spending_limit: 10_000_000_000 },
            );
            slot += 1;
            proof {
                assert(configs@ =~= Map::new(|k: u64| 1 <= k < slot, |k: u64| default_config()));
            }
        }
        proof {
            assert(configs@ =~= init_configs());
        }
        self.owner = Some(owner);
        self.members = members;
        self.configs = configs;
        self.pending = OrdMap::new();
        self.executed = OrdMap::new();
        self.next_tx = 1;
        self.em_config = Some(
            EmergencyConfig {
                max_amount: 100_000_000_000,
                cooldown: 3600,
                min_balance: 0,
                daily_limit: 1_000_000_000_000,
            },
        );
        self.em_mode = false;
        self.em_last = 0;
        proof {
            assert(self@ =~= init_spec(s, owner, initial_members@, now).0);
            assert(s.archived.dom() =~= Set::<u64>::empty());
        }
        Ok(true)
    }

    /// Add a member with a role below Owner and a non-negative spending
    /// limit (Owner or Admin); an existing member is refused.
    pub fn add_member(
        &mut self,
        admin: Address,
        member_address: Address,
        role: FamilyRole,
        spending_limit: i128,
        now: u64,
    ) -> (r: Result<bool, Error>)
        requires
            old(self).wf(),
            !old(self)@.paused,
        ensures
            final(self).wf(),
            (final(self)@, r) == add_member_spec(old(self)@, admin, member_address, role, spending_limit, now),
    {
        self.try_add_member(admin, member_address, role, spending_limit, now)
    }

    /// The same step on any input: a call that is not admitted above is
    /// answered with its refusal and changes nothing.
    pub fn try_add_member(
        &mut self,
        admin: Address,
        member_address: Address,
        role: FamilyRole,
        spending_limit: i128,
        now: u64,
    ) -> (r: Result<bool, Error>)
        requires
            old(self).wf(),
        ensures
            final(self).wf(),
            (final(self)@, r) == add_member_spec(old(self)@, admin, member_address, role, spending_limit, now),
    {
        if self.paused {
            return Err(Error::ContractPaused);
        }
        if role == FamilyRole::Owner {
            return Err(Error::InvalidRole);
        }
        if !self.is_owner_or_admin(admin, now) {
            return Err(Error::Unauthorized);
        }
        if spending_limit < 0 {
            return Err(Error::InvalidSpendingLimit);
        }
        if self.members.contains_key(member_address) {
            return Err(Error::MemberAlreadyExists);
        }
        let ghost s = self@;
        self.members.insert(
            member_address,
            FamilyMember {
                address: member_address,
                role,
                spending_limit,
                precision_limit: PrecisionLimitOpt::NoLimit,
                added_at: now,
            },
        );
        proof {
            assert(self@ =~= add_member_spec(s, admin, member_address, role, spending_limit, now).0);
        }
        Ok(true)
    }

    /// The record of a member, if any.
    pub fn get_member(&self, member_address: Address) -> (r: Result<Option<FamilyMember>, Error>)
        requires
            self.wf(),
            initialized(self@),
        ensures
            r == (if !initialized(self@) {
                Err(Error::NotInitialized)
            } else if self@.members.contains_key(member_address) {
                Ok(Some(self@.members[member_address]))
            } else {
                Ok(None)
            }),
    {
        if self.owner.is_none() {
            return Err(Error::NotInitialized);
        }
        match self.members.get(member_address) {
            Some(m) => Ok(Some(*m)),
            None => Ok(None),
        }
    }

    /// The record of a member, if any.
    pub fn get_family_member(&self, member: Address) -> (r: Result<Option<FamilyMember>, Error>)
        requires
            self.wf(),
            initialized(self@),
        ensures
            r == (if !initialized(self@) {
                Err(Error::NotInitialized)
            } else if self@.members.contains_key(member) {
                Ok(Some(self@.members[member]))
            } else {
                Ok(None)
            }),
    {
        self.get_member(member)
    }

    /// The owner.
    pub fn get_owner(&self) -> (r: Result<Address, Error>)
        requires
            initialized(self@),
        ensures
            r == (match self@.owner {
                Some(o) => Ok(o),
                None => Err(Error::NotInitialized),
            }),
    {
        match self.owner {
            Some(o) => Ok(o),
            None => Err(Error::NotInitialized),
        }
    }

    /// Set a member's per-transaction spending limit (Owner or Admin); the
    /// limit must not be negative.
    pub fn update_spending_limit(&mut self, caller: Address, member_address: Address, new_limit: i128, now: u64) -> (r:
        Result<bool, Error>)
        requires
            old(self).wf(),
            update_spending_limit_spec(old(self)@, caller, member_address, new_limit, now).1 is Ok,
        ensures
            final(self).wf(),
            (final(self)@, r) == update_spending_limit_spec(old(self)@, caller, member_address, new_limit, now),
    {
        self.try_update_spending_limit(caller, member_address, new_limit, now)
    }

    /// The same step on any input: a call that is not admitted above is
    /// answered with its refusal and changes nothing.
    pub fn try_update_spending_limit(&mut self, caller: Address, member_address: Address, new_limit: i128, now: u64) -> (r:
        Result<bool, Error>)
        requires
            old(self).wf(),
        ensures
            final(self).wf(),
            (final(self)@, r) == update_spending_limit_spec(old(self)@, caller, member_address, new_limit, now),
    {
        if self.paused {
            return Err(Error::ContractPaused);
        }
        if !self.is_owner_or_admin(caller, now) {
            return Err(Error::Unauthorized);
        }
        if new_limit < 0 {
            return Err(Error::InvalidSpendingLimit);
        }
        let mut rec = match self.members.get(member_address) {
            Some(m) => *m,
            None => {
                return Err(Error::MemberNotFound);
            },
        };
        let ghost s = self@;
        rec.spending_limit = new_limit;
        self.members.insert(member_address, rec);
        proof {
            assert(self@ =~= update_spending_limit_spec(s, caller, member_address, new_limit, now).0);
        }
        Ok(true)
    }

    /// Refuse a non-positive amount, or one `caller` may not spend.
    pub fn validate_precision_spending(&self, caller: Address, amount: i128, now: u64) -> (r: Result<(), Error>)
        requires
            self.wf(),
        ensures
            r == (if amount <= 0 {
                Err(Error::InvalidAmount)
            } else if !spending_allowed(self@, caller, amount, now) {
                Err(Error::Unauthorized)
            } else {
                Ok(())
            }),
    {
        if amount <= 0 {
            return Err(Error::InvalidAmount);
        }
        if !self.check_spending_limit(caller, amount, now) {
            return Err(Error::Unauthorized);
        }
        Ok(())
    }

    /// Add or replace a member with a role below Owner and no spending limit
    /// (Owner or Admin); recorded in the audit trail.
    pub fn add_family_member(&mut self, caller: Address, member: Address, role: FamilyRole, now: u64) -> (r:
        Result<bool, Error>)
        requires
            old(self).wf(),
            add_family_member_spec(old(self)@, caller, member, role, now).1 is Ok,
        ensures
            final(self).wf(),
            (final(self)@, r) == add_family_member_spec(old(self)@, caller, member, role, now),
    {
        self.try_add_family_member(caller, member, role, now)
    }

    /// The same step on any input: a call that is not admitted above is
    /// answered with its refusal and changes nothing.
    pub fn try_add_family_member(&mut self, caller: Address, member: Address, role: FamilyRole, now: u64) -> (r:
        Result<bool, Error>)
        requires
            old(self).wf(),
        ensures
            final(self).wf(),
            (final(self)@, r) == add_family_member_spec(old(self)@, caller, member, role, now),
    {
        if self.paused {
            return Err(Error::ContractPaused);
        }
        if role == FamilyRole::Owner {
            return Err(Error::InvalidRole);
        }
        if !self.is_owner_or_admin(caller, now) {
            return Err(Error::Unauthorized);
        }
        let ghost s = self@;
        self.members.insert(
            member,
            FamilyMember {
                address: member,
                role,
                spending_limit: 0,
                precision_limit: PrecisionLimitOpt::NoLimit,
                added_at: now,
            },
        );
        self.record_audit(AuditOp::AddMember, caller, Some(member), now);
        proof {
            assert(self@ =~= add_family_member_spec(s, caller, member, role, now).0);
        }
        Ok(true)
    }

    /// Remove a member (the owner, whose role has not expired); the owner
    /// cannot be removed. Live proposals are then revalidated, and the
    /// removal is recorded in the audit trail.
    pub fn remove_family_member(&mut self, caller: Address, member: Address, now: u64) -> (r: Result<bool, Error>)
        requires
            old(self).wf(),
            remove_family_member_spec(old(self)@, caller, member, now).1 is Ok,
        ensures
            final(self).wf(),
            (final(self)@, r) == remove_family_member_spec(old(self)@, caller, member, now),
    {
        self.try_remove_family_member(caller, member, now)
    }

    /// The same step on any input: a call that is not admitted above is
    /// answered with its refusal and changes nothing.
    pub fn try_remove_family_member(&mut self, caller: Address, member: Address, now: u64) -> (r: Result<bool, Error>)
        requires
            old(self).wf(),
        ensures
            final(self).wf(),
            (final(self)@, r) == remove_family_member_spec(old(self)@, caller, member, now),
    {
        if self.paused {
            return Err(Error::ContractPaused);
        }
        let owner = match self.owner {
            Some(o) => o,
            None => {
                return Err(Error::NotInitialized);
            },
        };
        if self.expired(caller, now) {
            return Err(Error::RoleExpired);
        }
        if caller != owner {
            return Err(Error::Unauthorized);
        }
        if member == owner {
            return Err(Error::CannotRemoveOwner);
        }
        let ghost s = self@;
        let mut gone: Vec<Address> = Vec::new();
        gone.push(member);
        proof {
            assert(gone@ =~= seq![member]);
        }
        let (fresh, count) = self.revalidation(&gone, now);
        if count > 0xffff_ffff {
            return Err(Error::ArithmeticOverflow);
        }
        self.members.remove(member);
        self.pending = fresh;
        proof {
            let t = without_members(s, seq![member]);
            assert forall|x: u64| seq![member].to_set().contains(x) <==> x == member by {
                if x == member {
                    assert(seq![member][0] == member);
                }
            }
            assert(seq![member].to_set() =~= set![member]);
            assert(t.members =~= s.members.remove(member));
            assert(self@ =~= WalletView { pending: revalidated(t, now), ..t });
            lemma_without_inv(s, seq![member]);
            lemma_revalidated_inv(t, now);
        }
        self.record_audit(AuditOp::RemoveMember, caller, Some(member), now);
        Ok(true)
    }

    /// Add a batch of members atomically (an unexpired Admin or Owner): at
    /// most `MAX_BATCH_MEMBERS` items, none with the Owner role, none listed
    /// twice or already a member, and the family may not exceed
    /// `MAX_FAMILY_MEMBERS` (the admitted calls). Each addition is audited;
    /// answers the count.
    pub fn batch_add_family_members(&mut self, caller: Address, items: &Vec<BatchMemberItem>, now: u64) -> (r:
        Result<u32, Error>)
        requires
            old(self).wf(),
            batch_add_admissible(old(self)@, caller, items@, now),
        ensures
            final(self).wf(),
            (final(self)@, r) == batch_add_spec(old(self)@, caller, items@, now),
    {
        self.try_batch_add_family_members(caller, items, now)
    }

    /// The same step on any input: a call that is not admitted above is
    /// answered with its refusal and changes nothing.
    pub fn try_batch_add_family_members(&mut self, caller: Address, items: &Vec<BatchMemberItem>, now: u64) -> (r:
        Result<u32, Error>)
        requires
            old(self).wf(),
        ensures
            final(self).wf(),
            (final(self)@, r) == batch_add_spec(old(self)@, caller, items@, now),
    {
        match self.role_check(caller, FamilyRole::Admin, now) {
            Some(e) => {
                return Err(e);
            },
            None => {},
        }
        if self.paused {
            return Err(Error::ContractPaused);
        }
        let n = items.len();
        if n > 30 {
            return Err(Error::BatchTooLarge);
        }
        proof {
            self.lemma_wf_inv();
        }
        let cur = self.members.len();
        if cur > 0xffff_ffff {
            return Err(Error::ArithmeticOverflow);
        }
        let ghost s = self@;
        let mut i: usize = 0;
        while i < n
            invariant
                self.wf(),
                self@ == s,
                s == old(self)@,
                role_error(s, caller, FamilyRole::Admin, now) is None,
                !s.paused,
                n <= 30,
                cur == s.members.dom().len(),
                cur <= u32::MAX,
                s.members.dom().finite(),
                n == items@.len(),
                i <= n,
                batch_add_error(s.members, items@.take(i as int)) is None,
            decreases n - i,
        {
            let it = items[i];
            proof {
                assert(items@.take(i + 1).drop_last() =~= items@.take(i as int));
                assert(items@.take(i + 1).last() == it);
            }
            let mut dup = false;
            let mut j: usize = 0;
            while j < i
                invariant
                    i < n,
                    n == items@.len(),
                    j <= i,
                    it == items@[i as int],
                    dup == exists|x: int| 0 <= x < j && (#[trigger] items@[x]).address == it.address,
                decreases i - j,
            {
                if items[j].address == it.address {
                    dup = true;
                }
                j += 1;
            }
            proof {
                let pre = items@.take(i + 1);
                assert(dup == exists|x: int| 0 <= x < pre.len() - 1 && (#[trigger] pre[x]).address == it.address) by {
                    if dup {
                        let x = choose|x: int| 0 <= x < i && (#[trigger] items@[x]).address == it.address;
                        assert(pre[x] == items@[x]);
                    }
                    if exists|x: int| 0 <= x < pre.len() - 1 && (#[trigger] pre[x]).address == it.address {
                        let x = choose|x: int| 0 <= x < pre.len() - 1 && (#[trigger] pre[x]).address == it.address;
                        assert(pre[x] == items@[x]);
                    }
                }
            }
            if it.role == FamilyRole::Owner {
                proof {
                    lemma_batch_add_error_prefix(s.members, items@, i + 1);
                }
                return Err(Error::InvalidRole);
            }
            if dup {
                proof {
                    lemma_batch_add_error_prefix(s.members, items@, i + 1);
                }
                return Err(Error::DuplicateBatchMember);
            }
            if self.members.contains_key(it.address) {
                proof {
                    lemma_batch_add_error_prefix(s.members, items@, i + 1);
                }
                return Err(Error::MemberAlreadyExists);
            }
            i += 1;
        }
        proof {
            assert(items@.take(n as int) =~= items@);
        }
        if cur as u64 + n as u64 > 0xffff_ffff {
            return Err(Error::ArithmeticOverflow);
        }
        if cur + n > 30 {
            return Err(Error::MemberCapExceeded);
        }
        proof {
            lemma_members_added_len(s.members, items@, now);
            self.lemma_wf_inv();
        }
        if self.pending.len() > 0xffff_ffff {
            return Err(Error::ArithmeticOverflow);
        }
        i = 0;
        while i < n
            invariant
                self.wf(),
                n == items@.len(),
                n <= 30,
                i <= n,
                s.owner is Some,
                batch_add_error(s.members, items@) is None,
                self@ == (WalletView {
                    members: members_added(s.members, items@.take(i as int), now),
                    audit: audit_batch(
                        s.audit,
                        AuditOp::AddMember,
                        caller,
                        batch_addresses(items@.take(i as int)),
                        now,
                    ),
                    ..s
                }),
            decreases n - i,
        {
            let it = items[i];
            self.members.insert(
                it.address,
                FamilyMember {
                    address: it.address,
                    role: it.role,
                    spending_limit: 0,
                    precision_limit: PrecisionLimitOpt::NoLimit,
                    added_at: now,
                },
            );
            self.record_audit(AuditOp::AddMember, caller, Some(it.address), now);
            i += 1;
            proof {
                let cur_items = items@.take(i as int);
                assert(cur_items.drop_last() =~= items@.take(i - 1));
                assert(cur_items.last() == it);
                assert(batch_addresses(cur_items).drop_last() =~= batch_addresses(items@.take(i - 1)));
                assert(self@ =~= (WalletView {
                    members: members_added(s.members, cur_items, now),
                    audit: audit_batch(s.audit, AuditOp::AddMember, caller, batch_addresses(cur_items), now),
                    ..s
                }));
            }
        }
        proof {
            assert(items@.take(n as int) =~= items@);
        }
        let pn = self.pending.len();
        let an = self.archived.len();
        let mn = self.members.len();
        proof {
            self.lemma_wf_inv();
        }
        self.stats = Some(
            StorageStats {
                pending_transactions: pn as u32,
                archived_transactions: an as u32,
                total_members: mn as u32,
                last_updated: now,
            },
        );
        proof {
            assert(self@ =~= batch_add_spec(s, caller, items@, now).0);
        }
        Ok(n as u32)
    }

    /// Remove a batch of members atomically (the owner): at most
    /// `MAX_BATCH_MEMBERS` addresses, not the owner, none listed twice, each
    /// a member (the admitted calls). Each removal is audited, live proposals
    /// are revalidated; answers the count.
    pub fn batch_remove_family_members(&mut self, caller: Address, addresses: &Vec<Address>, now: u64) -> (r:
        Result<u32, Error>)
        requires
            old(self).wf(),
            batch_remove_admissible(old(self)@, caller, addresses@, now),
        ensures
            final(self).wf(),
            (final(self)@, r) == batch_remove_spec(old(self)@, caller, addresses@, now),
    {
        self.try_batch_remove_family_members(caller, addresses, now)
    }

    /// The same step on any input: a call that is not admitted above is
    /// answered with its refusal and changes nothing.
    pub fn try_batch_remove_family_members(&mut self, caller: Address, addresses: &Vec<Address>, now: u64) -> (r:
        Result<u32, Error>)
        requires
            old(self).wf(),
        ensures
            final(self).wf(),
            (final(self)@, r) == batch_remove_spec(old(self)@, caller, addresses@, now),
    {
        match self.role_check(caller, FamilyRole::Owner, now) {
            Some(e) => {
                return Err(e);
            },
            None => {},
        }
        let owner = match self.owner {
            Some(o) => o,
            None => {
                return Err(Error::NotInitialized);
            },
        };
        if caller != owner {
            return Err(Error::Unauthorized);
        }
        if self.paused {
            return Err(Error::ContractPaused);
        }
        let n = addresses.len();
        if n > 30 {
            return Err(Error::BatchTooLarge);
        }
        let ghost s = self@;
        let mut i: usize = 0;
        while i < n
            invariant
                self.wf(),
                self@ == s,
                s == old(self)@,
                s.owner == Some(owner),
                role_error(s, caller, FamilyRole::Owner, now) is None,
                caller == owner,
                !s.paused,
                n <= 30,
                n == addresses@.len(),
                i <= n,
                batch_remove_error(owner, s.members, addresses@.take(i as int)) is None,
            decreases n - i,
        {
            let a = addresses[i];
            proof {
                assert(addresses@.take(i + 1).drop_last() =~= addresses@.take(i as int));
                assert(addresses@.take(i + 1).last() == a);
            }
            let dup = super::multisig::account_listed_before(addresses, i, a);
            proof {
                let pre = addresses@.take(i + 1);
                assert(dup == exists|x: int| 0 <= x < pre.len() - 1 && pre[x] == a) by {
                    if dup {
                        let x = choose|x: int| 0 <= x < i && addresses@.take(i as int)[x] == a;
                        assert(pre[x] == a);
                    }
                    if exists|x: int| 0 <= x < pre.len() - 1 && pre[x] == a {
                        let x = choose|x: int| 0 <= x < pre.len() - 1 && pre[x] == a;
                        assert(addresses@.take(i as int)[x] == a);
                    }
                }
            }
            if a == owner {
                proof {
                    lemma_batch_remove_error_prefix(owner, s.members, addresses@, i + 1);
                }
                return Err(Error::CannotRemoveOwner);
            }
            if dup {
                proof {
                    lemma_batch_remove_error_prefix(owner, s.members, addresses@, i + 1);
                }
                return Err(Error::DuplicateBatchMember);
            }
            if !self.members.contains_key(a) {
                proof {
                    lemma_batch_remove_error_prefix(owner, s.members, addresses@, i + 1);
                }
                return Err(Error::MemberNotFound);
            }
            i += 1;
        }
        proof {
            assert(addresses@.take(n as int) =~= addresses@);
            lemma_batch_remove_distinct(owner, s.members, addresses@);
            self.lemma_wf_inv();
            lemma_removed_len(s.members, addresses@);
        }
        let (fresh, count) = self.revalidation(addresses, now);
        let mlen = self.members.len();
        if self.pending.len() > 0xffff_ffff || mlen - n > 0xffff_ffff || count > 0xffff_ffff {
            return Err(Error::ArithmeticOverflow);
        }
        proof {
            assert(addresses@.take(0).to_set() =~= Set::<u64>::empty());
            assert(s.members.remove_keys(addresses@.take(0).to_set()) =~= s.members);
            assert(self@ =~= (WalletView {
                members: s.members.remove_keys(addresses@.take(0).to_set()),
                audit: audit_batch(s.audit, AuditOp::RemoveMember, caller, addresses@.take(0), now),
                ..s
            }));
        }
        i = 0;
        while i < n
            invariant
                self.maps_wf(),
                n == addresses@.len(),
                i <= n,
                addresses@.no_duplicates(),
                forall|x: int| 0 <= x < n ==> s.members.contains_key(#[trigger] addresses@[x]),
                self@ == (WalletView {
                    members: s.members.remove_keys(addresses@.take(i as int).to_set()),
                    audit: audit_batch(s.audit, AuditOp::RemoveMember, caller, addresses@.take(i as int), now),
                    ..s
                }),
                self@.audit.len() <= 200,
            decreases n - i,
        {
            let a = addresses[i];
            self.members.remove(a);
            let ghost before = self@;
            let e = AccessAuditEntry {
                operation: AuditOp::RemoveMember,
                caller,
                target: Some(a),
                success: true,
                timestamp: now,
            };
            self.audit.push(e);
            if self.audit.len() > 200 {
                self.audit.remove(0);
                proof {
                    assert(self.audit@ =~= before.audit.push(e).skip(1));
                }
            }
            i += 1;
            proof {
                let cur = addresses@.take(i as int);
                assert(cur.drop_last() =~= addresses@.take(i - 1));
                assert(cur.last() == a);
                assert(cur.to_set() =~= addresses@.take(i - 1).to_set().insert(a)) by {
                    assert forall|x: u64| cur.to_set().contains(x) implies addresses@.take(i - 1).to_set().insert(a).contains(x) by {
                        let y = choose|y: int| 0 <= y < cur.len() && cur[y] == x;
                        if y < i - 1 {
                            assert(addresses@.take(i - 1)[y] == x);
                        }
                    }
                    assert forall|x: u64| addresses@.take(i - 1).to_set().insert(a).contains(x) implies cur.to_set().contains(x) by {
                        if x == a {
                            assert(cur[i - 1] == a);
                        } else {
                            let pre = addresses@.take(i - 1);
                            let y = choose|y: int| 0 <= y < pre.len() && pre[y] == x;
                            assert(cur[y] == x);
                        }
                    }
                }
                assert(self@ =~= (WalletView {
                    members: s.members.remove_keys(cur.to_set()),
                    audit: audit_batch(s.audit, AuditOp::RemoveMember, caller, cur, now),
                    ..s
                }));
            }
        }
        proof {
            assert(addresses@.take(n as int) =~= addresses@);
        }
        self.pending = fresh;
        let pn = self.pending.len();
        let an = self.archived.len();
        let mn = self.members.len();
        proof {
            let t = without_members(s, addresses@);
            lemma_without_inv(s, addresses@);
            lemma_revalidated_inv(t, now);
            assert(revalidated(t, now).dom() =~= s.pending.dom());
            assert(self@ =~= (WalletView {
                members: t.members,
                audit: audit_batch(s.audit, AuditOp::RemoveMember, caller, addresses@, now),
                pending: revalidated(t, now),
                ..s
            }));
            assert(wallet_inv(self@));
        }
        self.stats = Some(
            StorageStats {
                pending_transactions: pn as u32,
                archived_transactions: an as u32,
                total_members: mn as u32,
                last_updated: now,
            },
        );
        proof {
            assert(self@ =~= batch_remove_spec(s, caller, addresses@, now).0);
        }
        Ok(n as u32)
    }

    /// Set (`Some`) or clear (`None`) a member's role expiry (an unexpired
    /// Admin or Owner); recorded in the audit trail.
    pub fn set_role_expiry(&mut self, caller: Address, member: Address, expires_at: Option<u64>, now: u64) -> (r:
        Result<bool, Error>)
        requires
            old(self).wf(),
            set_role_expiry_spec(old(self)@, caller, member, expires_at, now).1 is Ok,
        ensures
            final(self).wf(),
            (final(self)@, r) == set_role_expiry_spec(old(self)@, caller, member, expires_at, now),
    {
        self.try_set_role_expiry(caller, member, expires_at, now)
    }

    /// The same step on any input: a call that is not admitted above is
    /// answered with its refusal and changes nothing.
    pub fn try_set_role_expiry(&mut self, caller: Address, member: Address, expires_at: Option<u64>, now: u64) -> (r:
        Result<bool, Error>)
        requires
            old(self).wf(),
        ensures
            final(self).wf(),
            (final(self)@, r) == set_role_expiry_spec(old(self)@, caller, member, expires_at, now),
    {
        match self.role_check(caller, FamilyRole::Admin, now) {
            Some(e) => {
                return Err(e);
            },
            None => {},
        }
        if self.paused {
            return Err(Error::ContractPaused);
        }
        if !self.members.contains_key(member) {
            return Err(Error::MemberNotFound);
        }
        let ghost s = self@;
        match expires_at {
            Some(t) => {
                self.role_exp.insert(member, t);
            },
            None => {
                self.role_exp.remove(member);
            },
        }
        self.record_audit(AuditOp::RoleExpiry, caller, Some(member), now);
        proof {
            assert(self@ =~= set_role_expiry_spec(s, caller, member, expires_at, now).0);
        }
        Ok(true)
    }

    /// The role expiry of an account, if set.
    pub fn get_role_expiry_public(&self, address: Address) -> (r: Option<u64>)
        requires
            self.wf(),
        ensures
            r == (if self@.role_exp.contains_key(address) {
                Some(self@.role_exp[address])
            } else {
                None
            }),
    {
        match self.role_exp.get(address) {
            Some(t) => Some(*t),
            None => None,
        }
    }

    /// Set a member's precision spending rules (Owner or Admin); turning
    /// rollover off discards the member's window tracker.
    pub fn set_precision_spending_limit(
        &mut self,
        caller: Address,
        member: Address,
        limit: PrecisionSpendingLimit,
        now: u64,
    ) -> (r: Result<bool, Error>)
        requires
            old(self).wf(),
            !old(self)@.paused,
        ensures
            final(self).wf(),
            (final(self)@, r) == set_precision_limit_spec(old(self)@, caller, member, limit, now),
    {
        self.try_set_precision_spending_limit(caller, member, limit, now)
    }

    /// The same step on any input: a call that is not admitted above is
    /// answered with its refusal and changes nothing.
    pub fn try_set_precision_spending_limit(
        &mut self,
        caller: Address,
        member: Address,
        limit: PrecisionSpendingLimit,
        now: u64,
    ) -> (r: Result<bool, Error>)
        requires
            old(self).wf(),
        ensures
            final(self).wf(),
            (final(self)@, r) == set_precision_limit_spec(old(self)@, caller, member, limit, now),
    {
        if self.paused {
            return Err(Error::ContractPaused);
        }
        if !self.is_owner_or_admin(caller, now) {
            return Err(Error::Unauthorized);
        }
        if !self.members.contains_key(member) {
            return Err(Error::MemberNotFound);
        }
        if limit.limit < 0 || limit.min_precision <= 0 || limit.max_single_tx <= 0 || limit.max_single_tx
            > limit.limit {
            return Err(Error::InvalidPrecisionConfig);
        }
        let ghost s = self@;
        self.prec_limits.insert(member, limit);
        if !limit.enable_rollover {
            self.trackers.remove(member);
        }
        proof {
            assert(self@ =~= set_precision_limit_spec(s, caller, member, limit, now).0);
        }
        Ok(true)
    }

    /// The window tracker of a member, if any.
    pub fn get_spending_tracker(&self, member: Address) -> (r: Option<SpendingTracker>)
        requires
            self.wf(),
        ensures
            r == (if self@.trackers.contains_key(member) {
                Some(self@.trackers[member])
            } else {
                None
            }),
    {
        match self.trackers.get(member) {
            Some(t) => Some(*t),
            None => None,
        }
    }
}

/// Removing members keeps the wallet invariant.
proof fn lemma_without_inv(s: WalletView, gone: Seq<Address>)
    requires
        wallet_inv(s),
    ensures
        wallet_inv(without_members(s, gone)),
{
    let t = without_members(s, gone);
    if s.owner is None {
        assert(t.members.dom() =~= Set::<u64>::empty());
    }
}

/// A batch addition refused at a prefix is refused as a whole.
proof fn lemma_batch_add_error_prefix(members: Map<u64, FamilyMember>, items: Seq<BatchMemberItem>, i: int)
    requires
        0 <= i <= items.len(),
        batch_add_error(members, items.take(i)) is Some,
    ensures
        batch_add_error(members, items) == batch_add_error(members, items.take(i)),
    decreases items.len() - i,
{
    if i < items.len() {
        assert(items.take(i + 1).drop_last() =~= items.take(i));
        lemma_batch_add_error_prefix(members, items, i + 1);
    } else {
        assert(items.take(i) =~= items);
    }
}

/// A batch removal refused at a prefix is refused as a whole.
proof fn lemma_batch_remove_error_prefix(owner: Address, members: Map<u64, FamilyMember>, addrs: Seq<Address>, i: int)
    requires
        0 <= i <= addrs.len(),
        batch_remove_error(owner, members, addrs.take(i)) is Some,
    ensures
        batch_remove_error(owner, members, addrs) == batch_remove_error(owner, members, addrs.take(i)),
    decreases addrs.len() - i,
{
    if i < addrs.len() {
        assert(addrs.take(i + 1).drop_last() =~= addrs.take(i));
        lemma_batch_remove_error_prefix(owner, members, addrs, i + 1);
    } else {
        assert(addrs.take(i) =~= addrs);
    }
}

/// An accepted batch removal lists distinct members.
proof fn lemma_batch_remove_distinct(owner: Address, members: Map<u64, FamilyMember>, addrs: Seq<Address>)
    requires
        batch_remove_error(owner, members, addrs) is None,
    ensures
        addrs.no_duplicates(),
        forall|x: int| 0 <= x < addrs.len() ==> members.contains_key(#[trigger] addrs[x]),
    decreases addrs.len(),
{
    if addrs.len() > 0 {
        let r = addrs.drop_last();
        lemma_batch_remove_distinct(owner, members, r);
        assert forall|x: int, y: int| 0 <= x < y < addrs.len() implies addrs[x] != addrs[y] by {
            if y < addrs.len() - 1 {
                assert(r[x] == addrs[x] && r[y] == addrs[y]);
            } else {
                assert(!(exists|j: int| 0 <= j < addrs.len() - 1 && addrs[j] == addrs.last()));
            }
        }
        assert forall|x: int| 0 <= x < addrs.len() implies members.contains_key(#[trigger] addrs[x]) by {
            if x < addrs.len() - 1 {
                assert(r[x] == addrs[x]);
            }
        }
    }
}

/// Removing distinct members shrinks the member count by their number.
proof fn lemma_removed_len(members: Map<u64, FamilyMember>, addrs: Seq<Address>)
    requires
        members.dom().finite(),
        addrs.no_duplicates(),
        forall|x: int| 0 <= x < addrs.len() ==> members.contains_key(#[trigger] addrs[x]),
    ensures
        members.remove_keys(addrs.to_set()).dom().finite(),
        members.remove_keys(addrs.to_set()).dom().len() == members.dom().len() - addrs.len(),
    decreases addrs.len(),
{
    if addrs.len() == 0 {
        assert(members.remove_keys(addrs.to_set()) =~= members);
    } else {
        let r = addrs.drop_last();
        let a = addrs.last();
        assert forall|x: int| 0 <= x < r.len() implies members.contains_key(#[trigger] r[x]) by {
            assert(r[x] == addrs[x]);
        }
        assert(r.no_duplicates()) by {
            assert forall|x: int, y: int| 0 <= x < y < r.len() implies r[x] != r[y] by {
                assert(r[x] == addrs[x] && r[y] == addrs[y]);
            }
        }
        lemma_removed_len(members, r);
        let m1 = members.remove_keys(r.to_set());
        assert(!r.contains(a)) by {
            if r.contains(a) {
                let j = choose|j: int| 0 <= j < r.len() && r[j] == a;
                assert(addrs[j] == addrs[addrs.len() - 1]);
            }
        }
        assert(members.contains_key(addrs[addrs.len() - 1]));
        assert(m1.contains_key(a));
        assert(addrs.to_set() =~= r.to_set().insert(a)) by {
            assert forall|x: u64| addrs.to_set().contains(x) implies r.to_set().insert(a).contains(x) by {
                let y = choose|y: int| 0 <= y < addrs.len() && addrs[y] == x;
                if y < addrs.len() - 1 {
                    assert(r[y] == x);
                }
            }
            assert forall|x: u64| r.to_set().insert(a).contains(x) implies addrs.to_set().contains(x) by {
                if x == a {
                    assert(addrs[addrs.len() - 1] == a);
                } else {
                    let y = choose|y: int| 0 <= y < r.len() && r[y] == x;
                    assert(addrs[y] == x);
                }
            }
        }
        assert(members.remove_keys(addrs.to_set()) =~= m1.remove(a));
    }
}

/// Adding an accepted batch grows the member count by the batch size.
proof fn lemma_members_added_len(members: Map<u64, FamilyMember>, items: Seq<BatchMemberItem>, now: u64)
    requires
        members.dom().finite(),
        batch_add_error(members, items) is None,
    ensures
        members_added(members, items, now).dom().finite(),
        members_added(members, items, now).dom().len() == members.dom().len() + items.len(),
        forall|k: u64| #[trigger] members_added(members, items, now).contains_key(k) ==> members_added(
            members,
            items,
            now,
        )[k].address == k || members.contains_key(k),
    decreases items.len(),
{
    if items.len() > 0 {
        let r = items.drop_last();
        assert(batch_add_error(members, r) is None);
        lemma_members_added_len(members, r, now);
        let it = items.last();
        let m1 = members_added(members, r, now);
        assert(!m1.contains_key(it.address)) by {
            if m1.contains_key(it.address) {
                lemma_members_added_keys(members, r, now, it.address);
                if !members.contains_key(it.address) {
                    let j = choose|j: int| 0 <= j < r.len() && r[j].address == it.address;
                    assert(items[j] == r[j]);
                }
            }
        }
    }
}

/// A member after a batch addition was a member before or is in the batch.
proof fn lemma_members_added_keys(members: Map<u64, FamilyMember>, items: Seq<BatchMemberItem>, now: u64, k: u64)
    ensures
        members_added(members, items, now).contains_key(k) ==> members.contains_key(k) || exists|j: int|
            0 <= j < items.len() && (#[trigger] items[j]).address == k,
    decreases items.len(),
{
    if items.len() > 0 {
        let r = items.drop_last();
        lemma_members_added_keys(members, r, now, k);
        if members_added(members, items, now).contains_key(k) && !members.contains_key(k) {
            if k == items.last().address {
                assert(items[items.len() - 1].address == k);
            } else {
                let j = choose|j: int| 0 <= j < r.len() && (#[trigger] r[j]).address == k;
                assert(items[j] == r[j]);
            }
        }
    }
}

} // verus!

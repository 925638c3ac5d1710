//! The family multisig wallet: members with roles and spending limits,
//! multisig proposals that execute once enough configured signers approved,
//! emergency transfers under guardrails, an archive of executed proposals and
//! an access audit trail.
//!
//! The wallet is plain state; every operation takes the ledger time `now`.
//! Every operation taking a `caller`, `admin`, `proposer` or `signer` needs
//! that account's authorization, which the host verifies before calling it.
//! Token movements are not performed here: an operation that moves funds
//! hands back a [`Transfer`] for the host to carry out (and, where the
//! transfer is refused, to abandon the whole call).
//!
//! Each operation's contract gives its full step as a spec function, refusals
//! included (a refused step leaves the wallet exactly as it was). The calls an
//! operation aborts on are not admitted: its `requires` leaves them out, most
//! often as "the step succeeds". The errors an operation answers as values
//! (a signer that is not a configured signer, an expired proposal, a bad
//! multisig configuration, and the like) stay admitted. Each such operation
//! `op` has a total companion `try_op` with the same step and no admission
//! condition, which answers a refusal instead; `is_initialized`,
//! `is_owner_or_admin` and `role_check` test the conditions of the lookups.

use vstd::prelude::*;
use crate::common::{Address, FamilyRole, role_rank};
use crate::ordmap::OrdMap;

pub mod access;
pub mod archive;
pub mod members;
pub mod multisig;
pub mod emergency;
pub mod admin;
pub mod laws;


verus! {

/// Default proposal lifetime: 24 hours.
pub const DEFAULT_PROPOSAL_EXPIRY: u64 = 86400;

/// Longest proposal lifetime that may be configured: 7 days.
pub const MAX_PROPOSAL_EXPIRY: u64 = 604800;

/// Smallest multisig threshold.
pub const MIN_THRESHOLD: u32 = 1;

/// Largest multisig threshold.
pub const MAX_THRESHOLD: u32 = 100;

/// Most signers in a multisig configuration.
pub const MAX_SIGNERS: u32 = 20;

/// Most members in one batch.
pub const MAX_BATCH_MEMBERS: u32 = 30;

/// Most members a batch addition may bring the family to.
pub const MAX_FAMILY_MEMBERS: u32 = 30;

/// Most entries kept in the access audit trail (the oldest are dropped).
pub const MAX_ACCESS_AUDIT_ENTRIES: u32 = 200;

/// Largest audit page.
pub const MAX_AUDIT_PAGE_LIMIT: u32 = 50;

/// Audit page size when the caller asks for zero.
pub const DEFAULT_AUDIT_PAGE_LIMIT: u32 = 20;

/// Largest page of pending proposals.
pub const MAX_PENDING_PAGE_LIMIT: u32 = 100;

/// Page size of pending proposals when the caller asks for zero.
pub const DEFAULT_PENDING_PAGE_LIMIT: u32 = 20;

/// Most entries kept in the archive; at capacity the entry with the lowest
/// id is evicted before a new one is inserted.
pub const MAX_ARCHIVE_ENTRIES: u32 = 500;

/// Archive page size when the caller asks for zero.
pub const DEFAULT_ARCHIVE_PAGE_LIMIT: u32 = 20;

/// Largest archive page.
pub const MAX_ARCHIVE_PAGE_LIMIT: u32 = 100;

/// One day, in seconds (the spending and emergency-volume window).
pub const DAY_SECS: u64 = 86400;

/// Spending limit of the default multisig configurations (1000 units).
pub const DEFAULT_MULTISIG_LIMIT: i128 = 10_000_000_000;

/// Default emergency transfer cap (10000 units).
pub const DEFAULT_EMERGENCY_MAX: i128 = 100_000_000_000;

/// Default emergency cooldown: one hour.
pub const DEFAULT_EMERGENCY_COOLDOWN: u64 = 3600;

/// Default emergency daily volume cap (100000 units).
pub const DEFAULT_EMERGENCY_DAILY_LIMIT: i128 = 1_000_000_000_000;

/// Wallet errors. The first group are the contract's error codes; the rest
/// name the other conditions on which the contract refuses a call.
#[derive(Clone, Copy, Debug, PartialEq, Eq, Structural)]
pub enum Error {
    Unauthorized,
    InvalidThreshold,
    InvalidSigner,
    TransactionNotFound,
    TransactionExpired,
    InsufficientSignatures,
    DuplicateSignature,
    InvalidTransactionType,
    InvalidAmount,
    InvalidRole,
    MemberNotFound,
    TransactionAlreadyExecuted,
    InvalidSpendingLimit,
    ThresholdBelowMinimum,
    ThresholdAboveMaximum,
    SignersListEmpty,
    SignerNotMember,
    DuplicateSigner,
    TooManySigners,
    InvalidPrecisionConfig,
    InvalidProposalExpiry,
    MemberAlreadyExists,
    QuorumUnachievable,
    MinBalanceViolation,
    /// The wallet was not initialized.
    NotInitialized,
    /// The wallet was already initialized.
    AlreadyInitialized,
    /// The wallet is paused.
    ContractPaused,
    /// The caller is not a family member.
    NotFamilyMember,
    /// The caller's role has expired.
    RoleExpired,
    /// The caller's role is below the one required.
    InsufficientRole,
    /// No multisig configuration exists for the transaction type.
    ConfigNotFound,
    /// The amount exceeds the proposer's spending limit.
    SpendingLimitExceeded,
    /// Split percentages do not sum to 100.
    InvalidPercentages,
    /// An identical emergency proposal of the proposer is pending.
    DuplicateEmergencyProposal,
    /// The proposer already has a pending emergency proposal.
    EmergencyProposalPending,
    /// Emergency settings carry a negative minimum balance.
    InvalidEmergencyConfig,
    /// No emergency configuration is stored.
    EmergencyConfigMissing,
    /// The emergency amount exceeds the configured maximum.
    EmergencyAmountExceeded,
    /// The emergency cooldown has not elapsed.
    EmergencyCooldownActive,
    /// The emergency daily volume cap would be exceeded.
    EmergencyDailyLimitExceeded,
    /// The emergency daily volume does not fit the amount type.
    EmergencyVolumeOverflow,
    /// The owner cannot be removed.
    CannotRemoveOwner,
    /// A batch holds more than the batch limit.
    BatchTooLarge,
    /// An address occurs twice in a batch.
    DuplicateBatchMember,
    /// The batch would exceed the family-member cap.
    MemberCapExceeded,
    /// The archive cutoff lies after the ledger time.
    InvalidArchiveCutoff,
    /// A counter or time computation overflowed its type.
    ArithmeticOverflow,
}

/// Kinds of multisig transaction.
#[derive(Clone, Copy, Debug, PartialEq, Eq, Structural)]
pub enum TransactionType {
    LargeWithdrawal,
    SplitConfigChange,
    RoleChange,
    EmergencyTransfer,
    PolicyCancellation,
    RegularWithdrawal,
}

/// The storage slot of a transaction type's multisig configuration.
pub open spec fn type_code(t: TransactionType) -> u64 {
    match t {
        TransactionType::LargeWithdrawal => 1,
        TransactionType::SplitConfigChange => 2,
        TransactionType::RoleChange => 3,
        TransactionType::EmergencyTransfer => 4,
        TransactionType::PolicyCancellation => 5,
        TransactionType::RegularWithdrawal => 6,
    }
}

/// The storage slot of a transaction type's multisig configuration.
pub fn config_slot(t: TransactionType) -> (c: u64)
    ensures
        c == type_code(t),
{
    match t {
        TransactionType::LargeWithdrawal => 1,
        TransactionType::SplitConfigChange => 2,
        TransactionType::RoleChange => 3,
        TransactionType::EmergencyTransfer => 4,
        TransactionType::PolicyCancellation => 5,
        TransactionType::RegularWithdrawal => 6,
    }
}

/// What a proposal does once executed.
#[derive(Clone, Copy, Debug, PartialEq, Eq, Structural)]
pub enum TransactionData {
    /// Token, recipient, amount.
    Withdrawal(Address, Address, i128),
    /// Spending, savings, bills and insurance percentages.
    SplitConfigChange(u32, u32, u32, u32),
    /// Member and new role.
    RoleChange(Address, FamilyRole),
    /// Token, recipient, amount.
    EmergencyTransfer(Address, Address, i128),
    /// Policy id.
    PolicyCancellation(u32),
}

/// Multisig parameters of one transaction type.
pub struct MultiSigConfig {
    pub threshold: u32,
    pub signers: Vec<Address>,
    pub spending_limit: i128,
}

/// A multisig configuration with its signers as a sequence.
#[verifier::ext_equal]
pub struct MultiSigConfigView {
    pub threshold: u32,
    pub signers: Seq<Address>,
    pub spending_limit: i128,
}

impl View for MultiSigConfig {
    type V = MultiSigConfigView;

    open spec fn view(&self) -> MultiSigConfigView {
        MultiSigConfigView {
            threshold: self.threshold,
            signers: self.signers@,
            spending_limit: self.spending_limit,
        }
    }
}

/// A proposal awaiting signatures.
pub struct PendingTransaction {
    pub tx_id: u64,
    pub tx_type: TransactionType,
    pub proposer: Address,
    pub signatures: Vec<Address>,
    pub created_at: u64,
    pub expires_at: u64,
    pub data: TransactionData,
}

/// A pending proposal with its signatures as a sequence.
#[verifier::ext_equal]
pub struct PendingView {
    pub tx_id: u64,
    pub tx_type: TransactionType,
    pub proposer: Address,
    pub signatures: Seq<Address>,
    pub created_at: u64,
    pub expires_at: u64,
    pub data: TransactionData,
}

impl View for PendingTransaction {
    type V = PendingView;

    open spec fn view(&self) -> PendingView {
        PendingView {
            tx_id: self.tx_id,
            tx_type: self.tx_type,
            proposer: self.proposer,
            signatures: self.signatures@,
            created_at: self.created_at,
            expires_at: self.expires_at,
            data: self.data,
        }
    }
}

/// A copy of a list of accounts.
pub fn copy_accounts(v: &Vec<Address>) -> (r: Vec<Address>)
    ensures
        r@ == v@,
{
    let mut r: Vec<Address> = Vec::new();
    let mut i: usize = 0;
    while i < v.len()
        invariant
            i <= v.len(),
            r@ == v@.take(i as int),
        decreases v.len() - i,
    {
        r.push(v[i]);
        i += 1;
        proof {
            assert(v@.take(i as int) =~= v@.take(i - 1).push(v@[i - 1]));
        }
    }
    proof {
        assert(v@.take(v@.len() as int) =~= v@);
    }
    r
}

impl PendingTransaction {
    /// A copy of the proposal.
    pub fn duplicate(&self) -> (p: PendingTransaction)
        ensures
            p@ == self@,
    {
        PendingTransaction {
            tx_id: self.tx_id,
            tx_type: self.tx_type,
            proposer: self.proposer,
            signatures: copy_accounts(&self.signatures),
            created_at: self.created_at,
            expires_at: self.expires_at,
            data: self.data,
        }
    }
}

impl MultiSigConfig {
    /// A copy of the configuration.
    pub fn duplicate(&self) -> (c: MultiSigConfig)
        ensures
            c@ == self@,
    {
        MultiSigConfig {
            threshold: self.threshold,
            signers: copy_accounts(&self.signers),
            spending_limit: self.spending_limit,
        }
    }
}

/// A page of pending proposals.
pub struct PendingTxPage {
    pub items: Vec<PendingTransaction>,
    pub next_cursor: u64,
    pub count: u32,
}

/// Spending window of a tracker (always daily here).
#[derive(Clone, Copy, Debug, PartialEq, Eq, Structural)]
pub struct SpendingPeriod {
    /// 0 = daily, 1 = weekly, 2 = monthly.
    pub period_type: u32,
    /// Start of the window, aligned to the window length.
    pub period_start: u64,
    /// Window length in seconds.
    pub period_duration: u64,
}

/// Cumulative spending of a member in the current window.
#[derive(Clone, Copy, Debug, PartialEq, Eq, Structural)]
pub struct SpendingTracker {
    pub current_spent: i128,
    pub last_tx_timestamp: u64,
    pub tx_count: u32,
    pub period: SpendingPeriod,
}

/// Precision spending rules of a member.
#[derive(Clone, Copy, Debug, PartialEq, Eq, Structural)]
pub struct PrecisionSpendingLimit {
    /// Cap on spending per window (when rollover tracking is on).
    pub limit: i128,
    /// Smallest amount per withdrawal.
    pub min_precision: i128,
    /// Largest amount per withdrawal.
    pub max_single_tx: i128,
    /// Whether spending accumulates per daily window.
    pub enable_rollover: bool,
}

/// An optional precision limit, as stored on a member record.
#[derive(Clone, Copy, Debug, PartialEq, Eq, Structural)]
pub enum PrecisionLimitOpt {
    NoLimit,
    Limit(PrecisionSpendingLimit),
}

/// A family member record.
#[derive(Clone, Copy, Debug, PartialEq, Eq, Structural)]
pub struct FamilyMember {
    pub address: Address,
    pub role: FamilyRole,
    /// Per-transaction cap; 0 means unlimited.
    pub spending_limit: i128,
    pub precision_limit: PrecisionLimitOpt,
    pub added_at: u64,
}

/// Emergency transfer guardrails.
#[derive(Clone, Copy, Debug, PartialEq, Eq, Structural)]
pub struct EmergencyConfig {
    pub max_amount: i128,
    pub cooldown: u64,
    pub min_balance: i128,
    pub daily_limit: i128,
}

/// Emergency events published by the host.
#[derive(Clone, Copy, Debug, PartialEq, Eq, Structural)]
pub enum EmergencyEvent {
    ModeOn,
    ModeOff,
    TransferInit,
    TransferExec,
}

/// Published by the host when a member is added.
#[derive(Clone, Copy, Debug, PartialEq, Eq, Structural)]
pub struct MemberAddedEvent {
    pub member: Address,
    pub role: FamilyRole,
    pub spending_limit: i128,
    pub timestamp: u64,
}

/// Published by the host when a member's spending limit changes.
#[derive(Clone, Copy, Debug, PartialEq, Eq, Structural)]
pub struct SpendingLimitUpdatedEvent {
    pub member: Address,
    pub old_limit: i128,
    pub new_limit: i128,
    pub timestamp: u64,
}

/// Why revalidation invalidated a proposal.
#[derive(Clone, Copy, Debug, PartialEq, Eq, Structural)]
pub enum InvalidationReason {
    /// Its transaction type has no multisig configuration.
    NoConfig,
    /// Fewer configured signers remain active than its threshold.
    NoQuorum,
}

/// Published by the host for each proposal revalidation invalidates.
#[derive(Clone, Copy, Debug, PartialEq, Eq, Structural)]
pub struct ProposalInvalidatedEvent {
    pub tx_id: u64,
    pub reason: InvalidationReason,
    pub timestamp: u64,
}

/// An archived execution.
#[derive(Clone, Copy, Debug, PartialEq, Eq, Structural)]
pub struct ArchivedTransaction {
    pub tx_id: u64,
    pub tx_type: TransactionType,
    pub proposer: Address,
    pub executed_at: u64,
    pub archived_at: u64,
}

/// A proposal executed through multisig, kept until archived.
#[derive(Clone, Copy, Debug, PartialEq, Eq, Structural)]
pub struct ExecutedTxMeta {
    pub tx_id: u64,
    pub tx_type: TransactionType,
    pub proposer: Address,
    pub executed_at: u64,
}

/// Entry counts recorded by the maintenance operations.
#[derive(Clone, Copy, Debug, PartialEq, Eq, Structural)]
pub struct StorageStats {
    pub pending_transactions: u32,
    pub archived_transactions: u32,
    pub total_members: u32,
    pub last_updated: u64,
}

/// One member of a batch addition.
#[derive(Clone, Copy, Debug, PartialEq, Eq, Structural)]
pub struct BatchMemberItem {
    pub address: Address,
    pub role: FamilyRole,
}

/// Archive events published by the host.
#[derive(Clone, Copy, Debug, PartialEq, Eq, Structural)]
pub enum ArchiveEvent {
    TransactionsArchived,
    ExpiredCleaned,
    TransactionCancelled,
}

/// Operations recorded in the access audit trail.
#[derive(Clone, Copy, Debug, PartialEq, Eq, Structural)]
pub enum AuditOp {
    AddMember,
    RemoveMember,
    RoleExpiry,
    RoleChange,
    EmergencyConfig,
    EmergencyMode,
    EmergencyProposal,
    EmergencyExecution,
}

/// One entry of the access audit trail.
#[derive(Clone, Copy, Debug, PartialEq, Eq, Structural)]
pub struct AccessAuditEntry {
    pub operation: AuditOp,
    pub caller: Address,
    pub target: Option<Address>,
    pub success: bool,
    pub timestamp: u64,
}

/// A page of the access audit trail.
pub struct AccessAuditPage {
    pub items: Vec<AccessAuditEntry>,
    pub next_cursor: u32,
    pub count: u32,
}

/// A token movement for the host to carry out.
#[derive(Clone, Copy, Debug, PartialEq, Eq, Structural)]
pub struct Transfer {
    pub token: Address,
    pub from: Address,
    pub to: Address,
    pub amount: i128,
    /// Whether `from` must authorize this call (beyond the caller).
    pub from_must_authorize: bool,
}

impl View for FamilyMember {
    type V = FamilyMember;

    open spec fn view(&self) -> FamilyMember {
        *self
    }
}

impl View for ExecutedTxMeta {
    type V = ExecutedTxMeta;

    open spec fn view(&self) -> ExecutedTxMeta {
        *self
    }
}

impl View for ArchivedTransaction {
    type V = ArchivedTransaction;

    open spec fn view(&self) -> ArchivedTransaction {
        *self
    }
}

impl View for PrecisionSpendingLimit {
    type V = PrecisionSpendingLimit;

    open spec fn view(&self) -> PrecisionSpendingLimit {
        *self
    }
}

impl View for SpendingTracker {
    type V = SpendingTracker;

    open spec fn view(&self) -> SpendingTracker {
        *self
    }
}

/// Abstract state of the wallet. It is initialized exactly when it has an
/// owner.
#[verifier::ext_equal]
pub struct WalletView {
    pub owner: Option<Address>,
    pub members: Map<u64, FamilyMember>,
    /// Multisig configurations by [`type_code`].
    pub configs: Map<u64, MultiSigConfigView>,
    pub pending: Map<u64, PendingView>,
    pub executed: Map<u64, ExecutedTxMeta>,
    pub archived: Map<u64, ArchivedTransaction>,
    pub next_tx: u64,
    pub em_config: Option<EmergencyConfig>,
    pub em_mode: bool,
    /// Time of the last emergency transfer (0: none yet).
    pub em_last: u64,
    /// Emergency volume of the day of `em_last`.
    pub em_vol: i128,
    pub audit: Seq<AccessAuditEntry>,
    pub paused: bool,
    pub pause_admin: Option<Address>,
    pub upgrade_admin: Option<Address>,
    pub version: Option<u32>,
    pub prop_exp: Option<u64>,
    pub role_exp: Map<u64, u64>,
    pub prec_limits: Map<u64, PrecisionSpendingLimit>,
    pub trackers: Map<u64, SpendingTracker>,
    pub stats: Option<StorageStats>,
}

/// The wallet.
pub struct FamilyWallet {
    owner: Option<Address>,
    members: OrdMap<FamilyMember>,
    configs: OrdMap<MultiSigConfig>,
    pending: OrdMap<PendingTransaction>,
    executed: OrdMap<ExecutedTxMeta>,
    archived: OrdMap<ArchivedTransaction>,
    next_tx: u64,
    em_config: Option<EmergencyConfig>,
    em_mode: bool,
    em_last: u64,
    em_vol: i128,
    audit: Vec<AccessAuditEntry>,
    paused: bool,
    pause_admin: Option<Address>,
    upgrade_admin: Option<Address>,
    version: Option<u32>,
    prop_exp: Option<u64>,
    role_exp: OrdMap<u64>,
    prec_limits: OrdMap<PrecisionSpendingLimit>,
    trackers: OrdMap<SpendingTracker>,
    stats: Option<StorageStats>,
}

impl View for FamilyWallet {
    type V = WalletView;

    closed spec fn view(&self) -> WalletView {
        WalletView {
            owner: self.owner,
            members: self.members@,
            configs: self.configs@,
            pending: self.pending@,
            executed: self.executed@,
            archived: self.archived@,
            next_tx: self.next_tx,
            em_config: self.em_config,
            em_mode: self.em_mode,
            em_last: self.em_last,
            em_vol: self.em_vol,
            audit: self.audit@,
            paused: self.paused,
            pause_admin: self.pause_admin,
            upgrade_admin: self.upgrade_admin,
            version: self.version,
            prop_exp: self.prop_exp,
            role_exp: self.role_exp@,
            prec_limits: self.prec_limits@,
            trackers: self.trackers@,
            stats: self.stats,
        }
    }
}

/// The wallet's invariant: member records are stored under their own
/// address and exist only once initialized; proposals, executions and
/// archive entries are stored under their own ids, below the next id, never
/// two of them under one id, and no execution is also archived; a proposal's signatures are distinct; the
/// archive holds at most `MAX_ARCHIVE_ENTRIES` entries and the audit trail
/// at most `MAX_ACCESS_AUDIT_ENTRIES`.
pub open spec fn wallet_inv(s: WalletView) -> bool {
    &&& forall|k: u64| #[trigger] s.members.contains_key(k) ==> s.members[k].address == k
    &&& s.owner is None ==> s.members.dom().is_empty() && s.pending.dom().is_empty()
        && s.executed.dom().is_empty() && s.archived.dom().is_empty()
    &&& s.next_tx >= 1
    &&& forall|k: u64|
        #[trigger] s.pending.contains_key(k) ==> s.pending[k].tx_id == k && k < s.next_tx
            && s.pending[k].signatures.no_duplicates() && !s.executed.contains_key(k)
            && !s.archived.contains_key(k)
    &&& forall|k: u64|
        #[trigger] s.executed.contains_key(k) ==> s.executed[k].tx_id == k && k < s.next_tx
            && !s.archived.contains_key(k)
    &&& forall|k: u64| #[trigger] s.archived.contains_key(k) ==> k < s.next_tx
    &&& s.archived.dom().finite()
    &&& s.archived.dom().len() <= MAX_ARCHIVE_ENTRIES
    &&& s.audit.len() <= MAX_ACCESS_AUDIT_ENTRIES
}

impl FamilyWallet {
    /// The maps are well formed.
    pub closed spec fn maps_wf(&self) -> bool {
        &&& self.members.wf()
        &&& self.configs.wf()
        &&& self.pending.wf()
        &&& self.executed.wf()
        &&& self.archived.wf()
        &&& self.role_exp.wf()
        &&& self.prec_limits.wf()
        &&& self.trackers.wf()
    }

    /// Well-formedness: the maps are well formed and the invariant holds.
    pub closed spec fn wf(&self) -> bool {
        &&& self.maps_wf()
        &&& wallet_inv(self@)
    }

    /// A well-formed wallet satisfies the invariant.
    pub proof fn lemma_wf_inv(&self)
        requires
            self.wf(),
        ensures
            wallet_inv(self@),
            self@.members.dom().finite(),
            self@.pending.dom().finite(),
            self@.executed.dom().finite(),
            self@.archived.dom().finite(),
    {
        self.members.lemma_keys();
        self.pending.lemma_keys();
        self.executed.lemma_keys();
        self.archived.lemma_keys();
    }
}

/// Whether the wallet was initialized.
pub open spec fn initialized(s: WalletView) -> bool {
    s.owner is Some
}

/// Whether `a`'s role has expired at `now` (expiry is inclusive).
pub open spec fn role_expired(s: WalletView, a: Address, now: u64) -> bool {
    s.role_exp.contains_key(a) && now >= s.role_exp[a]
}

/// Whether `a` is an unexpired Owner or Admin.
pub open spec fn owner_or_admin(s: WalletView, a: Address, now: u64) -> bool {
    &&& s.members.contains_key(a)
    &&& !role_expired(s, a, now)
    &&& (s.members[a].role == FamilyRole::Owner || s.members[a].role == FamilyRole::Admin)
}

/// The refusal, if any, of a call that needs `a` to hold at least `min`.
pub open spec fn role_error(s: WalletView, a: Address, min: FamilyRole, now: u64) -> Option<Error> {
    if !initialized(s) {
        Some(Error::NotInitialized)
    } else if !s.members.contains_key(a) {
        Some(Error::NotFamilyMember)
    } else if role_expired(s, a, now) {
        Some(Error::RoleExpired)
    } else if role_rank(s.members[a].role) > role_rank(min) {
        Some(Error::InsufficientRole)
    } else {
        None
    }
}

/// The audit trail after recording `e`: the newest entries, at most
/// `MAX_ACCESS_AUDIT_ENTRIES` of them.
pub open spec fn audit_push(log: Seq<AccessAuditEntry>, e: AccessAuditEntry) -> Seq<AccessAuditEntry> {
    if log.len() >= MAX_ACCESS_AUDIT_ENTRIES {
        log.push(e).skip(log.len() + 1 - MAX_ACCESS_AUDIT_ENTRIES)
    } else {
        log.push(e)
    }
}

/// A successful audit entry.
pub open spec fn audit_entry(op: AuditOp, caller: Address, target: Option<Address>, now: u64) -> AccessAuditEntry {
    AccessAuditEntry { operation: op, caller, target, success: true, timestamp: now }
}

/// The wallet after recording a successful `op` by `caller` on `target`.
pub open spec fn audited(s: WalletView, op: AuditOp, caller: Address, target: Option<Address>, now: u64) -> WalletView {
    WalletView { audit: audit_push(s.audit, audit_entry(op, caller, target, now)), ..s }
}

} // verus!

//! The insurance policy registry: owners create policies within per-coverage
//! bounds, pay premiums on a 30-day cadence anchored to the due date, and
//! deactivate them; active policies are listed per owner, page by page.
//!
//! Every operation taking a `caller` needs that caller's authorization, which
//! the host verifies before calling it.

use vstd::prelude::*;
use vstd::utf8::*;
use crate::common::{Address, CoverageType, DEFAULT_PAGE_LIMIT, MAX_PAGE_LIMIT};
use crate::ordmap::OrdMap;

verus! {

/// Premium period: thirty days, in seconds.
pub const THIRTY_DAYS_SECS: u64 = 2592000;

/// Longest policy name, in bytes.
pub const MAX_NAME_LEN: usize = 64;

/// Longest external reference, in bytes.
pub const MAX_EXT_REF_LEN: usize = 128;

/// Most active policies at any time.
pub const MAX_POLICIES: usize = 1000;

/// Ledger times handed to the registry stay below this bound (2^62).
pub const TIME_BOUND: u64 = 0x4000_0000_0000_0000;

/// Insurance errors.
#[derive(Clone, Copy, Debug, PartialEq, Eq, Structural)]
pub enum InsuranceError {
    Unauthorized,
    AlreadyInitialized,
    NotInitialized,
    PolicyNotFound,
    PolicyInactive,
    InvalidName,
    InvalidPremium,
    InvalidCoverageAmount,
    UnsupportedCombination,
    InvalidExternalRef,
    MaxPoliciesReached,
}

/// Per-type premium and coverage constraints (all values in stroops).
pub struct TypeConstraints {
    pub min_premium: i128,
    pub max_premium: i128,
    pub min_coverage: i128,
    pub max_coverage: i128,
}

/// The bounds of each coverage type: `(min_premium, max_premium, min_coverage, max_coverage)`.
pub open spec fn type_bounds(t: CoverageType) -> (i128, i128, i128, i128) {
    match t {
        CoverageType::Health => (1, 500_000_000_000, 1, 100_000_000_000_000),
        CoverageType::Life => (1, 1_000_000_000_000, 1, 500_000_000_000_000),
        CoverageType::Property => (1, 2_000_000_000_000, 1, 1_000_000_000_000_000),
        CoverageType::Auto => (1, 750_000_000_000, 1, 200_000_000_000_000),
        CoverageType::Liability => (1, 400_000_000_000, 1, 50_000_000_000_000),
    }
}

impl TypeConstraints {
    /// The constraints of a coverage type.
    pub fn for_type(t: &CoverageType) -> (c: Self)
        ensures
            (c.min_premium, c.max_premium, c.min_coverage, c.max_coverage) == type_bounds(*t),
    {
        match t {
            CoverageType::Health => TypeConstraints {
                min_premium: 1,
                max_premium: 500_000_000_000,
                min_coverage: 1,
                max_coverage: 100_000_000_000_000,
            },
            CoverageType::Life => TypeConstraints {
                min_premium: 1,
                max_premium: 1_000_000_000_000,
                min_coverage: 1,
                max_coverage: 500_000_000_000_000,
            },
            CoverageType::Property => TypeConstraints {
                min_premium: 1,
                max_premium: 2_000_000_000_000,
                min_coverage: 1,
                max_coverage: 1_000_000_000_000_000,
            },
            CoverageType::Auto => TypeConstraints {
                min_premium: 1,
                max_premium: 750_000_000_000,
                min_coverage: 1,
                max_coverage: 200_000_000_000_000,
            },
            CoverageType::Liability => TypeConstraints {
                min_premium: 1,
                max_premium: 400_000_000_000,
                min_coverage: 1,
                max_coverage: 50_000_000_000_000,
            },
        }
    }
}

/// An insurance policy.
pub struct Policy {
    pub id: u32,
    pub owner: Address,
    pub name: String,
    pub coverage_type: CoverageType,
    pub monthly_premium: i128,
    pub coverage_amount: i128,
    pub external_ref: Option<String>,
    pub active: bool,
    pub created_at: u64,
    pub last_payment_at: u64,
    pub next_payment_date: u64,
}

/// A policy with its text fields as character sequences.
pub struct PolicyView {
    pub id: u32,
    pub owner: Address,
    pub name: Seq<char>,
    pub coverage_type: CoverageType,
    pub monthly_premium: i128,
    pub coverage_amount: i128,
    pub external_ref: Option<Seq<char>>,
    pub active: bool,
    pub created_at: u64,
    pub last_payment_at: u64,
    pub next_payment_date: u64,
}

/// The text of an optional string.
pub open spec fn opt_text(s: Option<String>) -> Option<Seq<char>> {
    match s {
        Some(t) => Some(t@),
        None => None,
    }
}

impl View for Policy {
    type V = PolicyView;

    open spec fn view(&self) -> PolicyView {
        PolicyView {
            id: self.id,
            owner: self.owner,
            name: self.name@,
            coverage_type: self.coverage_type,
            monthly_premium: self.monthly_premium,
            coverage_amount: self.coverage_amount,
            external_ref: opt_text(self.external_ref),
            active: self.active,
            created_at: self.created_at,
            last_payment_at: self.last_payment_at,
            next_payment_date: self.next_payment_date,
        }
    }
}

fn copy_text(s: &Option<String>) -> (r: Option<String>)
    ensures
        opt_text(r) == opt_text(*s),
{
    match s {
        Some(t) => Some(String::from_str(t.as_str())),
        None => None,
    }
}

impl Policy {
    /// A copy of the policy.
    pub fn duplicate(&self) -> (p: Policy)
        ensures
            p@ == self@,
    {
        Policy {
            id: self.id,
            owner: self.owner,
            name: String::from_str(self.name.as_str()),
            coverage_type: self.coverage_type,
            monthly_premium: self.monthly_premium,
            coverage_amount: self.coverage_amount,
            external_ref: copy_text(&self.external_ref),
            active: self.active,
            created_at: self.created_at,
            last_payment_at: self.last_payment_at,
            next_payment_date: self.next_payment_date,
        }
    }
}

/// Published by the host when a policy is created.
pub struct PolicyCreatedEvent {
    pub policy_id: u32,
    pub name: String,
    pub coverage_type: CoverageType,
    pub monthly_premium: i128,
    pub coverage_amount: i128,
    pub timestamp: u64,
}

/// Published by the host when a premium is paid.
pub struct PremiumPaidEvent {
    pub policy_id: u32,
    pub name: String,
    pub amount: i128,
    pub next_payment_date: u64,
    pub timestamp: u64,
}

/// Published by the host when a policy is deactivated.
pub struct PolicyDeactivatedEvent {
    pub policy_id: u32,
    pub name: String,
    pub timestamp: u64,
}

/// A page of active policy ids of one owner.
pub struct PolicyPage {
    pub items: Vec<u32>,
    pub next_cursor: u32,
    pub count: u32,
}

/// Abstract state of the registry.
pub struct InsuranceView {
    pub initialized: bool,
    pub owner: Option<Address>,
    pub policy_count: u32,
    pub policies: Map<u64, PolicyView>,
    pub active_ids: Seq<u32>,
    pub owner_policies: Map<u64, Seq<u32>>,
}

/// The contract state.
pub struct Insurance {
    initialized: bool,
    owner: Option<Address>,
    policy_count: u32,
    policies: OrdMap<Policy>,
    active_ids: Vec<u32>,
    owner_policies: OrdMap<Vec<u32>>,
}

impl View for Insurance {
    type V = InsuranceView;

    closed spec fn view(&self) -> InsuranceView {
        InsuranceView {
            initialized: self.initialized,
            owner: self.owner,
            policy_count: self.policy_count,
            policies: self.policies@,
            active_ids: self.active_ids@,
            owner_policies: self.owner_policies@,
        }
    }
}

/// The ids an owner holds (none when the owner never created a policy).
pub open spec fn ids_of(s: InsuranceView, o: Address) -> Seq<u32> {
    if s.owner_policies.contains_key(o as u64) {
        s.owner_policies[o as u64]
    } else {
        Seq::empty()
    }
}

/// The registry's invariant: policies are numbered `1..=policy_count` and
/// store their own id; the active list holds each active policy exactly once
/// and nothing else, and never more than `MAX_POLICIES`; each owner's list
/// holds exactly that owner's policies, once each; due dates stay bounded.
pub open spec fn registry_inv(s: InsuranceView) -> bool {
    &&& forall|k: u64|
        #[trigger] s.policies.contains_key(k) ==> 1 <= k <= s.policy_count && s.policies[k].id == k
    &&& s.active_ids.no_duplicates()
    &&& s.active_ids.len() <= MAX_POLICIES
    &&& forall|i: int|
        0 <= i < s.active_ids.len() ==> s.policies.contains_key(#[trigger] s.active_ids[i] as u64)
            && s.policies[s.active_ids[i] as u64].active
    &&& forall|k: u64|
        #[trigger] s.policies.contains_key(k) && s.policies[k].active ==> s.active_ids.contains(
            k as u32,
        )
    &&& forall|k: u64|
        #[trigger] s.policies.contains_key(k) ==> ids_of(s, s.policies[k].owner).contains(k as u32)
    &&& forall|o: u64|
        #[trigger] s.owner_policies.contains_key(o) ==> s.owner_policies[o].no_duplicates()
            && forall|i: int|
            0 <= i < s.owner_policies[o].len() ==> s.policies.contains_key(
                #[trigger] s.owner_policies[o][i] as u64,
            ) && s.policies[s.owner_policies[o][i] as u64].owner == o
    &&& forall|o: u64, i: int, j: int|
        s.owner_policies.contains_key(o) && 0 <= i < j < s.owner_policies[o].len() ==> #[trigger] s.owner_policies[o][i]
            < #[trigger] s.owner_policies[o][j]
    &&& !s.initialized ==> s.policies.dom().is_empty() && s.owner_policies.dom().is_empty()
}


/// The byte length of a text (as the ledger measures string lengths).
pub open spec fn byte_len(t: Seq<char>) -> usize {
    encode_utf8(t).len() as usize
}

/// The largest coverage a premium supports: 500 years of premiums
/// (saturating at the numeric maximum).
pub open spec fn max_ratio(premium: i128) -> i128 {
    if premium * 6000 > i128::MAX {
        i128::MAX
    } else {
        (premium * 6000) as i128
    }
}

/// The error, if any, with which a policy creation is refused; checked in
/// the order written.
pub open spec fn create_error(
    s: InsuranceView,
    name: Seq<char>,
    ct: CoverageType,
    premium: i128,
    coverage: i128,
) -> Option<InsuranceError> {
    let nl = byte_len(name);
    let b = type_bounds(ct);
    if !s.initialized {
        Some(InsuranceError::NotInitialized)
    } else if nl == 0 || nl > MAX_NAME_LEN {
        Some(InsuranceError::InvalidName)
    } else if premium <= 0 {
        Some(InsuranceError::InvalidPremium)
    } else if coverage <= 0 {
        Some(InsuranceError::InvalidCoverageAmount)
    } else if premium < b.0 || premium > b.1 {
        Some(InsuranceError::InvalidPremium)
    } else if coverage < b.2 || coverage > b.3 {
        Some(InsuranceError::InvalidCoverageAmount)
    } else if coverage > max_ratio(premium) {
        Some(InsuranceError::UnsupportedCombination)
    } else if s.active_ids.len() >= MAX_POLICIES {
        Some(InsuranceError::MaxPoliciesReached)
    } else {
        None
    }
}

pub open spec fn init_spec(s: InsuranceView, owner: Address) -> (InsuranceView, Result<(), InsuranceError>) {
    if s.initialized {
        (s, Err(InsuranceError::AlreadyInitialized))
    } else {
        (
            InsuranceView {
                initialized: true,
                owner: Some(owner),
                policy_count: 0,
                active_ids: Seq::empty(),
                ..s
            },
            Ok(()),
        )
    }
}

/// Creating a policy: the next id, active, owned by the caller, first due
/// thirty days after creation, listed as active and under its owner.
pub open spec fn create_policy_spec(
    s: InsuranceView,
    caller: Address,
    name: Seq<char>,
    ct: CoverageType,
    premium: i128,
    coverage: i128,
    now: u64,
) -> (InsuranceView, Result<u32, InsuranceError>) {
    match create_error(s, name, ct, premium, coverage) {
        Some(e) => (s, Err(e)),
        None => {
            let id = (s.policy_count + 1) as u32;
            let p = PolicyView {
                id,
                owner: caller,
                name,
                coverage_type: ct,
                monthly_premium: premium,
                coverage_amount: coverage,
                external_ref: None,
                active: true,
                created_at: now,
                last_payment_at: 0,
                next_payment_date: (now + THIRTY_DAYS_SECS) as u64,
            };
            (
                InsuranceView {
                    policy_count: id,
                    policies: s.policies.insert(id as u64, p),
                    active_ids: s.active_ids.push(id),
                    owner_policies: s.owner_policies.insert(caller as u64, ids_of(s, caller).push(id)),
                    ..s
                },
                Ok(id),
            )
        },
    }
}

/// The due date after a payment at `now`: the first due date in the 30-day
/// cadence anchored at `due` that lies after `now` (one period after `due`
/// when paying early or on time).
pub open spec fn next_due(due: u64, now: u64) -> int {
    if now < due {
        due + THIRTY_DAYS_SECS
    } else {
        due + THIRTY_DAYS_SECS * ((now - due) / (THIRTY_DAYS_SECS as int) + 1)
    }
}

/// A policy after a premium payment at `now`.
pub open spec fn paid(p: PolicyView, now: u64) -> PolicyView {
    PolicyView { last_payment_at: now, next_payment_date: next_due(p.next_payment_date, now) as u64, ..p }
}

pub open spec fn pay_premium_spec(s: InsuranceView, caller: Address, id: u32, now: u64) -> (InsuranceView, Result<
    bool,
    InsuranceError,
>) {
    if !s.initialized {
        (s, Err(InsuranceError::NotInitialized))
    } else if !s.policies.contains_key(id as u64) {
        (s, Err(InsuranceError::PolicyNotFound))
    } else if !s.policies[id as u64].active {
        (s, Err(InsuranceError::PolicyInactive))
    } else if caller != s.policies[id as u64].owner {
        (s, Err(InsuranceError::Unauthorized))
    } else {
        (
            InsuranceView {
                policies: s.policies.insert(id as u64, paid(s.policies[id as u64], now)),
                ..s
            },
            Ok(true),
        )
    }
}

/// Paying the listed policies in order: each active policy of the caller is
/// paid (again for each repetition), others are skipped; the count is the
/// number of payments.
pub open spec fn batch_apply(pols: Map<u64, PolicyView>, caller: Address, ids: Seq<u32>, now: u64) -> (Map<
    u64,
    PolicyView,
>, nat)
    decreases ids.len(),
{
    if ids.len() == 0 {
        (pols, 0)
    } else {
        let (m, c) = batch_apply(pols, caller, ids.drop_last(), now);
        let id = ids.last() as u64;
        if m.contains_key(id) && m[id].active && m[id].owner == caller {
            (m.insert(id, paid(m[id], now)), c + 1)
        } else {
            (m, c)
        }
    }
}

pub open spec fn batch_pay_premiums_spec(s: InsuranceView, caller: Address, ids: Seq<u32>, now: u64) -> (InsuranceView, Result<
    u32,
    InsuranceError,
>) {
    if !s.initialized {
        (s, Err(InsuranceError::NotInitialized))
    } else if exists|j: int| 0 <= j < ids.len() && !s.policies.contains_key(#[trigger] ids[j] as u64) {
        (s, Err(InsuranceError::PolicyNotFound))
    } else {
        let (m, c) = batch_apply(s.policies, caller, ids, now);
        (InsuranceView { policies: m, ..s }, Ok(c as u32))
    }
}

pub open spec fn set_external_ref_spec(s: InsuranceView, caller: Address, id: u32, ext: Option<Seq<char>>) -> (InsuranceView, Result<
    bool,
    InsuranceError,
>) {
    if !s.initialized || s.owner is None {
        (s, Err(InsuranceError::NotInitialized))
    } else if caller != s.owner->0 {
        (s, Err(InsuranceError::Unauthorized))
    } else if !s.policies.contains_key(id as u64) {
        (s, Err(InsuranceError::PolicyNotFound))
    } else if ext is Some && (byte_len(ext->0) == 0 || byte_len(ext->0) > MAX_EXT_REF_LEN) {
        (s, Err(InsuranceError::InvalidExternalRef))
    } else {
        (
            InsuranceView {
                policies: s.policies.insert(
                    id as u64,
                    PolicyView { external_ref: ext, ..s.policies[id as u64] },
                ),
                ..s
            },
            Ok(true),
        )
    }
}

/// `ids` without any occurrence of `id`.
pub open spec fn without(ids: Seq<u32>, id: u32) -> Seq<u32>
    decreases ids.len(),
{
    if ids.len() == 0 {
        ids
    } else if ids.last() == id {
        without(ids.drop_last(), id)
    } else {
        without(ids.drop_last(), id).push(ids.last())
    }
}

pub open spec fn deactivate_policy_spec(s: InsuranceView, caller: Address, id: u32) -> (InsuranceView, Result<
    bool,
    InsuranceError,
>) {
    if !s.initialized {
        (s, Err(InsuranceError::NotInitialized))
    } else if !s.policies.contains_key(id as u64) {
        (s, Err(InsuranceError::PolicyNotFound))
    } else if s.owner is None {
        (s, Err(InsuranceError::NotInitialized))
    } else if caller != s.policies[id as u64].owner && caller != s.owner->0 {
        (s, Err(InsuranceError::Unauthorized))
    } else if !s.policies[id as u64].active {
        (s, Err(InsuranceError::PolicyInactive))
    } else {
        (
            InsuranceView {
                policies: s.policies.insert(id as u64, PolicyView { active: false, ..s.policies[id as u64] }),
                active_ids: without(s.active_ids, id),
                ..s
            },
            Ok(true),
        )
    }
}

/// Whether a listed id goes into a page after `cursor`.
pub open spec fn page_eligible(s: InsuranceView, id: u32, cursor: u32) -> bool {
    id > cursor && s.policies.contains_key(id as u64) && s.policies[id as u64].active
}

/// The listed ids that go into pages after `cursor`, in list order.
pub open spec fn eligible_ids(s: InsuranceView, ids: Seq<u32>, cursor: u32) -> Seq<u32>
    decreases ids.len(),
{
    if ids.len() == 0 {
        ids
    } else if page_eligible(s, ids.last(), cursor) {
        eligible_ids(s, ids.drop_last(), cursor).push(ids.last())
    } else {
        eligible_ids(s, ids.drop_last(), cursor)
    }
}

/// The page size used for a requested limit: 0 means the default, and the
/// size is capped at the maximum.
pub open spec fn page_size(limit: u32) -> u32 {
    if limit == 0 {
        DEFAULT_PAGE_LIMIT
    } else if limit > MAX_PAGE_LIMIT {
        MAX_PAGE_LIMIT
    } else {
        limit
    }
}

/// A page of an owner's active policies after `cursor`: the first
/// `page_size(limit)` eligible ids in list order; the next cursor is the last
/// id of the page when more remain, 0 otherwise.
pub open spec fn active_page(s: InsuranceView, owner: Address, cursor: u32, limit: u32) -> (Seq<u32>, u32) {
    let e = eligible_ids(s, ids_of(s, owner), cursor);
    let lim = page_size(limit);
    if e.len() > lim {
        (e.take(lim as int), e[lim - 1])
    } else {
        (e, 0)
    }
}

/// `a + b`, saturating at the numeric bounds.
pub open spec fn sat_add(a: i128, b: i128) -> i128 {
    if a + b > i128::MAX {
        i128::MAX
    } else if a + b < i128::MIN {
        i128::MIN
    } else {
        (a + b) as i128
    }
}

/// Saturating sum of the premiums of the active policies among `ids`.
pub open spec fn premium_total(s: InsuranceView, ids: Seq<u32>) -> i128
    decreases ids.len(),
{
    if ids.len() == 0 {
        0
    } else {
        let id = ids.last() as u64;
        let rest = premium_total(s, ids.drop_last());
        if s.policies.contains_key(id) && s.policies[id].active {
            sat_add(rest, s.policies[id].monthly_premium)
        } else {
            rest
        }
    }
}


/// Whether paying the listed policies in order keeps every due date within
/// range (a payment's new due date is at most a period past the later of the
/// old due date and `now`).
pub open spec fn batch_fits(pols: Map<u64, PolicyView>, caller: Address, ids: Seq<u32>, now: u64) -> bool
    decreases ids.len(),
{
    if ids.len() == 0 {
        true
    } else {
        let m = batch_apply(pols, caller, ids.drop_last(), now).0;
        let id = ids.last() as u64;
        &&& batch_fits(pols, caller, ids.drop_last(), now)
        &&& (m.contains_key(id) && m[id].active && m[id].owner == caller) ==> m[id].next_payment_date
            <= u64::MAX - THIRTY_DAYS_SECS
    }
}

proof fn lemma_without(ids: Seq<u32>, id: u32)
    ensures
        forall|x: u32| without(ids, id).contains(x) <==> ids.contains(x) && x != id,
        ids.no_duplicates() ==> without(ids, id).no_duplicates(),
        without(ids, id).len() <= ids.len(),
    decreases ids.len(),
{
    if ids.len() > 0 {
        let r = ids.drop_last();
        lemma_without(r, id);
        assert forall|x: u32| without(ids, id).contains(x) <==> ids.contains(x) && x != id by {
            if ids.contains(x) && x != id && x != ids.last() {
                let i = choose|i: int| 0 <= i < ids.len() && ids[i] == x;
                assert(r[i] == x);
            }
            if r.contains(x) {
                let i = choose|i: int| 0 <= i < r.len() && r[i] == x;
                assert(ids[i] == x);
            }
            if ids.last() != id {
                let w = without(r, id);
                assert(without(ids, id) == w.push(ids.last()));
                if w.push(ids.last()).contains(x) {
                    let i = choose|i: int| 0 <= i < w.push(ids.last()).len() && w.push(ids.last())[i] == x;
                    if i < w.len() {
                        assert(w[i] == x);
                    }
                }
                if x == ids.last() {
                    assert(w.push(ids.last())[w.len() as int] == x);
                }
                if w.contains(x) {
                    let i = choose|i: int| 0 <= i < w.len() && w[i] == x;
                    assert(w.push(ids.last())[i] == x);
                }
            }
            assert(ids[ids.len() - 1] == ids.last());
        }
        if ids.no_duplicates() {
            assert(r.no_duplicates());
            if ids.last() != id {
                let w = without(r, id);
                assert(!r.contains(ids.last())) by {
                    if r.contains(ids.last()) {
                        let i = choose|i: int| 0 <= i < r.len() && r[i] == ids.last();
                        assert(ids[i] == ids[ids.len() - 1]);
                    }
                }
                assert(!w.contains(ids.last()));
                assert forall|a: int, b: int|
                    0 <= a < w.push(ids.last()).len() && 0 <= b < w.push(ids.last()).len() && a != b
                        implies w.push(ids.last())[a] != w.push(ids.last())[b] by {
                    if a < w.len() && b < w.len() {
                    } else if a < w.len() {
                        assert(w.contains(w[a]));
                    } else if b < w.len() {
                        assert(w.contains(w[b]));
                    }
                }
            }
        }
    }
}

proof fn lemma_eligible_prefix(s: InsuranceView, ids: Seq<u32>, cursor: u32, j: int)
    requires
        0 <= j <= ids.len(),
    ensures
        eligible_ids(s, ids.take(j), cursor).len() <= eligible_ids(s, ids, cursor).len(),
        forall|k: int|
            0 <= k < eligible_ids(s, ids.take(j), cursor).len() ==> eligible_ids(s, ids, cursor)[k]
                == eligible_ids(s, ids.take(j), cursor)[k],
    decreases ids.len() - j,
{
    if j == ids.len() {
        assert(ids.take(j) =~= ids);
    } else {
        let r = ids.drop_last();
        lemma_eligible_prefix(s, r, cursor, j);
        assert(r.take(j) =~= ids.take(j));
    }
}

proof fn lemma_batch_dom(pols: Map<u64, PolicyView>, caller: Address, ids: Seq<u32>, now: u64)
    ensures
        batch_apply(pols, caller, ids, now).0.dom() == pols.dom(),
        forall|k: u64|
            #[trigger] pols.contains_key(k) ==> batch_apply(pols, caller, ids, now).0[k].owner
                == pols[k].owner && batch_apply(pols, caller, ids, now).0[k].active == pols[k].active
                && batch_apply(pols, caller, ids, now).0[k].id == pols[k].id,
    decreases ids.len(),
{
    if ids.len() > 0 {
        lemma_batch_dom(pols, caller, ids.drop_last(), now);
        let m = batch_apply(pols, caller, ids.drop_last(), now).0;
        let id = ids.last() as u64;
        if m.contains_key(id) && m[id].active && m[id].owner == caller {
            assert(m.insert(id, paid(m[id], now)).dom() =~= m.dom());
        }
    }
}

fn next_due_date(due: u64, now: u64) -> (r: u64)
    requires
        now <= u64::MAX - THIRTY_DAYS_SECS,
        now < due ==> due <= u64::MAX - THIRTY_DAYS_SECS,
    ensures
        r == next_due(due, now),
{
    if now < due {
        due + THIRTY_DAYS_SECS
    } else {
        let k = (now - due) / THIRTY_DAYS_SECS;
        proof {
            assert(THIRTY_DAYS_SECS * k <= now - due) by (nonlinear_arith)
                requires
                    k == (now - due) / (THIRTY_DAYS_SECS as int),
                    now >= due,
            ;
        }
        due + THIRTY_DAYS_SECS * k + THIRTY_DAYS_SECS
    }
}

impl Insurance {
    /// Well-formedness: the maps are ordered and the registry invariant holds.
    pub closed spec fn wf(&self) -> bool {
        &&& self.policies.wf()
        &&& self.owner_policies.wf()
        &&& registry_inv(self@)
    }

    /// The registry invariant holds of every well-formed registry.
    pub proof fn lemma_wf_inv(&self)
        requires
            self.wf(),
        ensures
            registry_inv(self@),
    {
    }

    /// A registry that was not initialized.
    pub fn new() -> (r: Self)
        ensures
            r.wf(),
            !r@.initialized,
            r@.owner is None,
            r@.policy_count == 0,
            r@.policies == Map::<u64, PolicyView>::empty(),
            r@.active_ids == Seq::<u32>::empty(),
            r@.owner_policies == Map::<u64, Seq<u32>>::empty(),
    {
        let r = Insurance {
            initialized: false,
            owner: None,
            policy_count: 0,
            policies: OrdMap::new(),
            active_ids: Vec::new(),
            owner_policies: OrdMap::new(),
        };
        proof {
            assert(r@.policies.dom() =~= Set::<u64>::empty());
            assert(r@.owner_policies.dom() =~= Set::<u64>::empty());
        }
        r
    }

    /// Initialize the registry with its owner.
    pub fn init(&mut self, owner: Address) -> (r: Result<(), InsuranceError>)
        requires
            old(self).wf(),
        ensures
            final(self).wf(),
            (final(self)@, r) == init_spec(old(self)@, owner),
    {
        if self.initialized {
            return Err(InsuranceError::AlreadyInitialized);
        }
        self.initialized = true;
        self.owner = Some(owner);
        self.policy_count = 0;
        self.active_ids = Vec::new();
        proof {
            assert(self@.active_ids =~= Seq::<u32>::empty());
        }
        Ok(())
    }

    /// The registry's owner, once initialized.
    pub fn get_owner(&self) -> (o: Option<Address>)
        ensures
            o == self@.owner,
    {
        self.owner
    }

    /// The number of policies created so far (the last id handed out). A
    /// further policy can be created while it is below `u32::MAX`.
    pub fn get_policy_count(&self) -> (n: u32)
        ensures
            n == self@.policy_count,
    {
        self.policy_count
    }

    fn ids_of_owner(&self, owner: Address) -> (v: Vec<u32>)
        requires
            self.wf(),
        ensures
            v@ == ids_of(self@, owner),
    {
        match self.owner_policies.get(owner) {
            Some(l) => copy_ids(l),
            None => Vec::new(),
        }
    }

    /// Create a new insurance policy for `caller`.
    pub fn create_policy(
        &mut self,
        caller: Address,
        name: String,
        coverage_type: CoverageType,
        monthly_premium: i128,
        coverage_amount: i128,
        now: u64,
    ) -> (r: Result<u32, InsuranceError>)
        requires
            old(self).wf(),
            old(self)@.policy_count < u32::MAX,
            now <= u64::MAX - THIRTY_DAYS_SECS,
        ensures
            final(self).wf(),
            (final(self)@, r) == create_policy_spec(
                old(self)@,
                caller,
                name@,
                coverage_type,
                monthly_premium,
                coverage_amount,
                now,
            ),
    {
        if !self.initialized {
            return Err(InsuranceError::NotInitialized);
        }
        let name_len = name.as_str().len();
        if name_len == 0 {
            return Err(InsuranceError::InvalidName);
        }
        if name_len > MAX_NAME_LEN {
            return Err(InsuranceError::InvalidName);
        }
        if monthly_premium <= 0 {
            return Err(InsuranceError::InvalidPremium);
        }
        if coverage_amount <= 0 {
            return Err(InsuranceError::InvalidCoverageAmount);
        }
        let constraints = TypeConstraints::for_type(&coverage_type);
        if monthly_premium < constraints.min_premium || monthly_premium > constraints.max_premium {
            return Err(InsuranceError::InvalidPremium);
        }
        if coverage_amount < constraints.min_coverage || coverage_amount > constraints.max_coverage {
            return Err(InsuranceError::InvalidCoverageAmount);
        }
        let max_ratio_v: i128 = match monthly_premium.checked_mul(12) {
            Some(v) => match v.checked_mul(500) {
                Some(w) => w,
                None => i128::MAX,
            },
            None => i128::MAX,
        };
        proof {
            assert(max_ratio_v == max_ratio(monthly_premium));
        }
        if coverage_amount > max_ratio_v {
            return Err(InsuranceError::UnsupportedCombination);
        }
        if self.active_ids.len() >= MAX_POLICIES {
            return Err(InsuranceError::MaxPoliciesReached);
        }
        let ghost s = self@;
        let mut list = self.ids_of_owner(caller);
        let id = self.policy_count + 1;
        let ghost nv = name@;
        let policy = Policy {
            id,
            owner: caller,
            name,
            coverage_type,
            monthly_premium,
            coverage_amount,
            external_ref: None,
            active: true,
            created_at: now,
            last_payment_at: 0,
            next_payment_date: now + THIRTY_DAYS_SECS,
        };
        proof {
            assert(!s.policies.contains_key(id as u64));
            assert(!s.active_ids.contains(id)) by {
                if s.active_ids.contains(id) {
                    let i = choose|i: int| 0 <= i < s.active_ids.len() && s.active_ids[i] == id;
                    assert(s.policies.contains_key(s.active_ids[i] as u64));
                }
            }
            assert(!ids_of(s, caller).contains(id)) by {
                if ids_of(s, caller).contains(id) {
                    let i = choose|i: int| 0 <= i < ids_of(s, caller).len() && ids_of(s, caller)[i] == id;
                    assert(s.owner_policies.contains_key(caller as u64));
                    assert(s.policies.contains_key(s.owner_policies[caller as u64][i] as u64));
                }
            }
        }
        self.policies.insert(id as u64, policy);
        self.policy_count = id;
        self.active_ids.push(id);
        list.push(id);
        self.owner_policies.insert(caller, list);
        proof {
            let t = self@;
            let (expected, _) = create_policy_spec(s, caller, nv, coverage_type, monthly_premium, coverage_amount, now);
            assert(t.policies == expected.policies);
            assert(t.owner_policies == expected.owner_policies);
            assert(t.active_ids == expected.active_ids);
            // the invariant
            assert forall|k: u64| #[trigger] t.policies.contains_key(k) implies 1 <= k <= t.policy_count
                && t.policies[k].id == k by {}
            assert(t.active_ids.no_duplicates()) by {
                assert forall|a: int, b: int|
                    0 <= a < t.active_ids.len() && 0 <= b < t.active_ids.len() && a != b implies t.active_ids[a]
                    != t.active_ids[b] by {
                    if a < s.active_ids.len() && b < s.active_ids.len() {
                    } else if a < s.active_ids.len() {
                        assert(s.active_ids.contains(t.active_ids[a]));
                    } else {
                        assert(s.active_ids.contains(t.active_ids[b]));
                    }
                }
            }
            assert forall|i: int| 0 <= i < t.active_ids.len() implies t.policies.contains_key(
                #[trigger] t.active_ids[i] as u64,
            ) && t.policies[t.active_ids[i] as u64].active by {
                if i < s.active_ids.len() {
                    assert(s.active_ids[i] == t.active_ids[i]);
                }
            }
            assert forall|k: u64| #[trigger] t.policies.contains_key(k) && t.policies[k].active implies t.active_ids.contains(
                k as u32,
            ) by {
                if k == id as u64 {
                    assert(t.active_ids[t.active_ids.len() - 1] == id);
                } else {
                    assert(s.active_ids.contains(k as u32));
                    let i = choose|i: int| 0 <= i < s.active_ids.len() && s.active_ids[i] == k as u32;
                    assert(t.active_ids[i] == k as u32);
                }
            }
            assert forall|k: u64| #[trigger] t.policies.contains_key(k) implies ids_of(t, t.policies[k].owner).contains(
                k as u32,
            ) by {
                let o = t.policies[k].owner;
                if k == id as u64 {
                    assert(ids_of(t, o)[ids_of(t, o).len() - 1] == id);
                } else {
                    assert(ids_of(s, o).contains(k as u32));
                    let i = choose|i: int| 0 <= i < ids_of(s, o).len() && ids_of(s, o)[i] == k as u32;
                    if o == caller {
                        assert(ids_of(t, o)[i] == k as u32);
                    } else {
                        assert(ids_of(t, o) == ids_of(s, o));
                    }
                }
            }
            assert forall|o: u64| #[trigger] t.owner_policies.contains_key(o) implies t.owner_policies[o].no_duplicates()
                && forall|i: int|
                0 <= i < t.owner_policies[o].len() ==> t.policies.contains_key(
                    #[trigger] t.owner_policies[o][i] as u64,
                ) && t.policies[t.owner_policies[o][i] as u64].owner == o by {
                if o == caller as u64 {
                    let old_l = ids_of(s, caller);
                    let l = t.owner_policies[o];
                    assert(l == old_l.push(id));
                    assert forall|a: int, b: int|
                        0 <= a < l.len() && 0 <= b < l.len() && a != b implies l[a] != l[b] by {
                        if a < old_l.len() && b < old_l.len() {
                            if s.owner_policies.contains_key(o) {
                            }
                        } else if a < old_l.len() {
                            assert(old_l.contains(l[a]));
                        } else {
                            assert(old_l.contains(l[b]));
                        }
                    }
                    assert forall|i: int| 0 <= i < l.len() implies t.policies.contains_key(
                        #[trigger] l[i] as u64,
                    ) && t.policies[l[i] as u64].owner == o by {
                        if i < old_l.len() {
                            assert(s.owner_policies.contains_key(o));
                            assert(s.policies.contains_key(s.owner_policies[o][i] as u64));
                        }
                    }
                } else {
                    assert(t.owner_policies[o] == s.owner_policies[o]);
                    assert forall|i: int| 0 <= i < t.owner_policies[o].len() implies t.policies.contains_key(
                        #[trigger] t.owner_policies[o][i] as u64,
                    ) && t.policies[t.owner_policies[o][i] as u64].owner == o by {
                        assert(s.policies.contains_key(s.owner_policies[o][i] as u64));
                    }
                }
            }
        }
        Ok(id)
    }
}

/// Changing a policy's fields other than its id, owner and active flag keeps
/// the registry invariant.
proof fn lemma_update_keeps_inv(s: InsuranceView, k: u64, p: PolicyView)
    requires
        registry_inv(s),
        s.policies.contains_key(k),
        p.id == s.policies[k].id,
        p.owner == s.policies[k].owner,
        p.active == s.policies[k].active,
    ensures
        registry_inv(InsuranceView { policies: s.policies.insert(k, p), ..s }),
{
    let t = InsuranceView { policies: s.policies.insert(k, p), ..s };
    assert(t.policies.dom() =~= s.policies.dom());
    assert forall|kk: u64| #[trigger] t.policies.contains_key(kk) implies ids_of(t, t.policies[kk].owner).contains(
        kk as u32,
    ) by {
        assert(ids_of(s, s.policies[kk].owner).contains(kk as u32));
    }
    assert forall|o: u64| #[trigger] t.owner_policies.contains_key(o) implies t.owner_policies[o].no_duplicates()
        && forall|i: int|
        0 <= i < t.owner_policies[o].len() ==> t.policies.contains_key(
            #[trigger] t.owner_policies[o][i] as u64,
        ) && t.policies[t.owner_policies[o][i] as u64].owner == o by {
        assert forall|i: int| 0 <= i < t.owner_policies[o].len() implies t.policies.contains_key(
            #[trigger] t.owner_policies[o][i] as u64,
        ) && t.policies[t.owner_policies[o][i] as u64].owner == o by {
            assert(s.policies.contains_key(s.owner_policies[o][i] as u64));
        }
    }
    assert forall|i: int| 0 <= i < t.active_ids.len() implies t.policies.contains_key(
        #[trigger] t.active_ids[i] as u64,
    ) && t.policies[t.active_ids[i] as u64].active by {
        assert(s.policies.contains_key(s.active_ids[i] as u64));
    }
    assert forall|kk: u64| #[trigger] t.policies.contains_key(kk) && t.policies[kk].active implies t.active_ids.contains(
        kk as u32,
    ) by {
        assert(s.policies.contains_key(kk) && s.policies[kk].active);
    }
}

/// Deactivating an active policy and dropping its id from the active list
/// keeps the registry invariant.
proof fn lemma_deactivate_keeps_inv(s: InsuranceView, id: u32)
    requires
        registry_inv(s),
        s.policies.contains_key(id as u64),
    ensures
        registry_inv(
            InsuranceView {
                policies: s.policies.insert(id as u64, PolicyView { active: false, ..s.policies[id as u64] }),
                active_ids: without(s.active_ids, id),
                ..s
            },
        ),
{
    let k = id as u64;
    let t = InsuranceView {
        policies: s.policies.insert(k, PolicyView { active: false, ..s.policies[k] }),
        active_ids: without(s.active_ids, id),
        ..s
    };
    lemma_without(s.active_ids, id);
    assert(t.policies.dom() =~= s.policies.dom());
    assert forall|kk: u64| #[trigger] t.policies.contains_key(kk) implies ids_of(t, t.policies[kk].owner).contains(
        kk as u32,
    ) by {
        assert(ids_of(s, s.policies[kk].owner).contains(kk as u32));
    }
    assert forall|o: u64| #[trigger] t.owner_policies.contains_key(o) implies t.owner_policies[o].no_duplicates()
        && forall|i: int|
        0 <= i < t.owner_policies[o].len() ==> t.policies.contains_key(
            #[trigger] t.owner_policies[o][i] as u64,
        ) && t.policies[t.owner_policies[o][i] as u64].owner == o by {
        assert forall|i: int| 0 <= i < t.owner_policies[o].len() implies t.policies.contains_key(
            #[trigger] t.owner_policies[o][i] as u64,
        ) && t.policies[t.owner_policies[o][i] as u64].owner == o by {
            assert(s.policies.contains_key(s.owner_policies[o][i] as u64));
        }
    }
    assert forall|i: int| 0 <= i < t.active_ids.len() implies t.policies.contains_key(
        #[trigger] t.active_ids[i] as u64,
    ) && t.policies[t.active_ids[i] as u64].active by {
        let x = t.active_ids[i];
        assert(t.active_ids.contains(x));
        assert(s.active_ids.contains(x) && x != id);
        let j = choose|j: int| 0 <= j < s.active_ids.len() && s.active_ids[j] == x;
        assert(s.policies.contains_key(s.active_ids[j] as u64));
        assert(x as u64 != k);
    }
    assert forall|kk: u64| #[trigger] t.policies.contains_key(kk) && t.policies[kk].active implies t.active_ids.contains(
        kk as u32,
    ) by {
        assert(kk != k);
        assert(s.policies.contains_key(kk) && s.policies[kk].active);
        assert(s.active_ids.contains(kk as u32));
        assert(kk as u32 != id);
    }
}

fn sat_add_exec(a: i128, b: i128) -> (r: i128)
    ensures
        r == sat_add(a, b),
{
    match a.checked_add(b) {
        Some(v) => v,
        None => if b > 0 {
            i128::MAX
        } else {
            i128::MIN
        },
    }
}

impl Insurance {
    /// Pay the premium of a policy at `now`: the next due date moves to the
    /// first date of its cadence after `now`.
    pub fn pay_premium(&mut self, caller: Address, policy_id: u32, now: u64) -> (r: Result<
        bool,
        InsuranceError,
    >)
        requires
            old(self).wf(),
            now <= u64::MAX - THIRTY_DAYS_SECS,
            old(self)@.policies.contains_key(policy_id as u64) ==> old(self)@.policies[policy_id as u64].next_payment_date
                <= u64::MAX - THIRTY_DAYS_SECS,
        ensures
            final(self).wf(),
            (final(self)@, r) == pay_premium_spec(old(self)@, caller, policy_id, now),
    {
        if !self.initialized {
            return Err(InsuranceError::NotInitialized);
        }
        let k = policy_id as u64;
        match self.policies.get(k) {
            None => {
                return Err(InsuranceError::PolicyNotFound);
            },
            Some(p) => {
                if !p.active {
                    return Err(InsuranceError::PolicyInactive);
                }
                if caller != p.owner {
                    return Err(InsuranceError::Unauthorized);
                }
            },
        }
        let ghost s = self@;
        match self.policies.remove(k) {
            None => Err(InsuranceError::PolicyNotFound),
            Some(mut p) => {
                p.last_payment_at = now;
                p.next_payment_date = next_due_date(p.next_payment_date, now);
                self.policies.insert(k, p);
                proof {
                    assert(self@.policies =~= s.policies.insert(k, paid(s.policies[k], now)));
                    lemma_update_keeps_inv(s, k, paid(s.policies[k], now));
                }
                Ok(true)
            },
        }
    }

    /// Pay the premiums of the listed policies at `now`. Every listed policy
    /// must exist; active policies of the caller are paid, others skipped.
    /// Returns the number of payments made.
    pub fn batch_pay_premiums(&mut self, caller: Address, ids: &Vec<u32>, now: u64) -> (r: Result<
        u32,
        InsuranceError,
    >)
        requires
            old(self).wf(),
            ids@.len() <= u32::MAX,
            now <= u64::MAX - THIRTY_DAYS_SECS,
            batch_fits(old(self)@.policies, caller, ids@, now),
        ensures
            final(self).wf(),
            (final(self)@, r) == batch_pay_premiums_spec(old(self)@, caller, ids@, now),
    {
        if !self.initialized {
            return Err(InsuranceError::NotInitialized);
        }
        let n = ids.len();
        let ghost s0 = self@;
        for i in 0..n
            invariant
                n == ids@.len(),
                self.wf(),
                self@ == s0,
                s0 == old(self)@,
                s0.initialized,
                forall|j: int| 0 <= j < i ==> self@.policies.contains_key(#[trigger] ids@[j] as u64),
        {
            if !self.policies.contains_key(ids[i] as u64) {
                proof {
                    assert(!s0.policies.contains_key(ids@[i as int] as u64));
                }
                return Err(InsuranceError::PolicyNotFound);
            }
        }
        let ghost s = self@;
        let mut count: u32 = 0;
        for i in 0..n
            invariant
                n == ids@.len(),
                n <= u32::MAX,
                now <= u64::MAX - THIRTY_DAYS_SECS,
                self.wf(),
                s.initialized,
                forall|j: int| 0 <= j < n ==> s.policies.contains_key(#[trigger] ids@[j] as u64),
                batch_fits(s.policies, caller, ids@, now),
                self@ == (InsuranceView {
                    policies: batch_apply(s.policies, caller, ids@.take(i as int), now).0,
                    ..s
                }),
                count == batch_apply(s.policies, caller, ids@.take(i as int), now).1,
                count <= i,
        {
            let ghost before = self@;
            let k = ids[i] as u64;
            proof {
                assert(ids@.take(i + 1).drop_last() =~= ids@.take(i as int));
                assert(ids@.take(i + 1).last() == ids@[i as int]);
                lemma_batch_dom(s.policies, caller, ids@.take(i as int), now);
                lemma_fits_prefix(s.policies, caller, ids@, now, i + 1);
                assert(s.policies.contains_key(ids@[i as int] as u64));
            }
            let eligible = match self.policies.get(k) {
                Some(p) => p.active && p.owner == caller,
                None => false,
            };
            if eligible {
                match self.policies.remove(k) {
                    None => {},
                    Some(mut p) => {
                        p.last_payment_at = now;
                        p.next_payment_date = next_due_date(p.next_payment_date, now);
                        self.policies.insert(k, p);
                        proof {
                            assert(self@.policies =~= before.policies.insert(k, paid(before.policies[k], now)));
                            lemma_update_keeps_inv(before, k, paid(before.policies[k], now));
                        }
                    },
                }
                count = count + 1;
            }
            proof {
                assert(self@.policies == batch_apply(s.policies, caller, ids@.take(i + 1), now).0);
            }
        }
        proof {
            assert(ids@.take(n as int) =~= ids@);
            assert(!exists|j: int| 0 <= j < ids@.len() && !s.policies.contains_key(#[trigger] ids@[j] as u64));
        }
        Ok(count)
    }

    /// Set or clear the external reference of a policy (registry owner only).
    pub fn set_external_ref(&mut self, caller: Address, policy_id: u32, ext_ref: Option<String>) -> (r:
        Result<bool, InsuranceError>)
        requires
            old(self).wf(),
        ensures
            final(self).wf(),
            (final(self)@, r) == set_external_ref_spec(old(self)@, caller, policy_id, opt_text(ext_ref)),
    {
        if !self.initialized {
            return Err(InsuranceError::NotInitialized);
        }
        let owner = match self.owner {
            None => {
                return Err(InsuranceError::NotInitialized);
            },
            Some(o) => o,
        };
        if caller != owner {
            return Err(InsuranceError::Unauthorized);
        }
        let k = policy_id as u64;
        if !self.policies.contains_key(k) {
            return Err(InsuranceError::PolicyNotFound);
        }
        match &ext_ref {
            Some(t) => {
                let l = t.as_str().len();
                if l == 0 || l > MAX_EXT_REF_LEN {
                    return Err(InsuranceError::InvalidExternalRef);
                }
            },
            None => {},
        }
        let ghost s = self@;
        let ghost ev = opt_text(ext_ref);
        match self.policies.remove(k) {
            None => Err(InsuranceError::PolicyNotFound),
            Some(mut p) => {
                p.external_ref = ext_ref;
                self.policies.insert(k, p);
                proof {
                    let np = PolicyView { external_ref: ev, ..s.policies[k] };
                    assert(self@.policies =~= s.policies.insert(k, np));
                    lemma_update_keeps_inv(s, k, np);
                }
                Ok(true)
            },
        }
    }

    /// Deactivate a policy (its owner or the registry owner); it leaves the
    /// active list.
    pub fn deactivate_policy(&mut self, caller: Address, policy_id: u32) -> (r: Result<bool, InsuranceError>)
        requires
            old(self).wf(),
        ensures
            final(self).wf(),
            (final(self)@, r) == deactivate_policy_spec(old(self)@, caller, policy_id),
    {
        if !self.initialized {
            return Err(InsuranceError::NotInitialized);
        }
        let k = policy_id as u64;
        let (powner, pactive) = match self.policies.get(k) {
            None => {
                return Err(InsuranceError::PolicyNotFound);
            },
            Some(p) => (p.owner, p.active),
        };
        let owner = match self.owner {
            None => {
                return Err(InsuranceError::NotInitialized);
            },
            Some(o) => o,
        };
        if caller != powner && caller != owner {
            return Err(InsuranceError::Unauthorized);
        }
        if !pactive {
            return Err(InsuranceError::PolicyInactive);
        }
        let ghost s = self@;
        let mut new_active: Vec<u32> = Vec::new();
        let n = self.active_ids.len();
        for i in 0..n
            invariant
                n == self.active_ids@.len(),
                new_active@ == without(self.active_ids@.take(i as int), policy_id),
        {
            let x = self.active_ids[i];
            proof {
                assert(self.active_ids@.take(i + 1).drop_last() =~= self.active_ids@.take(i as int));
                assert(self.active_ids@.take(i + 1).last() == x);
            }
            if x != policy_id {
                new_active.push(x);
            }
        }
        proof {
            assert(self.active_ids@.take(n as int) =~= self.active_ids@);
            lemma_without(s.active_ids, policy_id);
        }
        match self.policies.remove(k) {
            None => Err(InsuranceError::PolicyNotFound),
            Some(mut p) => {
                p.active = false;
                self.policies.insert(k, p);
                self.active_ids = new_active;
                proof {
                    assert(self@.policies =~= s.policies.insert(k, PolicyView { active: false, ..s.policies[k] }));
                    lemma_deactivate_keeps_inv(s, policy_id);
                }
                Ok(true)
            },
        }
    }

    /// A page of `owner`'s active policy ids after `cursor` (see [`active_page`]).
    pub fn get_active_policies(&self, owner: Address, cursor: u32, limit: u32) -> (r: Result<
        PolicyPage,
        InsuranceError,
    >)
        requires
            self.wf(),
        ensures
            !self@.initialized ==> r == Err::<PolicyPage, InsuranceError>(InsuranceError::NotInitialized),
            self@.initialized ==> r is Ok && r->Ok_0.items@ == active_page(self@, owner, cursor, limit).0
                && r->Ok_0.next_cursor == active_page(self@, owner, cursor, limit).1
                && r->Ok_0.count == r->Ok_0.items@.len(),
    {
        if !self.initialized {
            return Err(InsuranceError::NotInitialized);
        }
        let ids = self.ids_of_owner(owner);
        let lim: u32 = if limit == 0 {
            DEFAULT_PAGE_LIMIT
        } else if limit > MAX_PAGE_LIMIT {
            MAX_PAGE_LIMIT
        } else {
            limit
        };
        let ghost s = self@;
        let mut items: Vec<u32> = Vec::new();
        let n = ids.len();
        for i in 0..n
            invariant
                n == ids@.len(),
                ids@ == ids_of(s, owner),
                s == self@,
                self.wf(),
                lim == page_size(limit),
                items@ == eligible_ids(s, ids@.take(i as int), cursor),
                items@.len() <= lim,
        {
            let id = ids[i];
            proof {
                assert(ids@.take(i + 1).drop_last() =~= ids@.take(i as int));
                assert(ids@.take(i + 1).last() == id);
            }
            let eligible = id > cursor && match self.policies.get(id as u64) {
                Some(p) => p.active,
                None => false,
            };
            if eligible {
                if items.len() < lim as usize {
                    items.push(id);
                } else {
                    let last = items[items.len() - 1];
                    proof {
                        lemma_eligible_prefix(s, ids@, cursor, i + 1);
                        lemma_eligible_prefix(s, ids@, cursor, i as int);
                        let e = eligible_ids(s, ids@, cursor);
                        assert(e.len() > lim);
                        assert(e.take(lim as int) =~= items@);
                    }
                    let c = items.len() as u32;
                    return Ok(PolicyPage { items, next_cursor: last, count: c });
                }
            }
        }
        proof {
            assert(ids@.take(n as int) =~= ids@);
        }
        let c = items.len() as u32;
        Ok(PolicyPage { items, next_cursor: 0, count: c })
    }

    /// A copy of a policy by id.
    pub fn get_policy(&self, policy_id: u32) -> (r: Result<Option<Policy>, InsuranceError>)
        requires
            self.wf(),
        ensures
            !self@.initialized ==> r is Err && r->Err_0 == InsuranceError::NotInitialized,
            self@.initialized ==> r is Ok && (r->Ok_0 is Some == self@.policies.contains_key(
                policy_id as u64,
            )) && (r->Ok_0 is Some ==> r->Ok_0->0@ == self@.policies[policy_id as u64]),
    {
        if !self.initialized {
            return Err(InsuranceError::NotInitialized);
        }
        match self.policies.get(policy_id as u64) {
            Some(p) => Ok(Some(p.duplicate())),
            None => Ok(None),
        }
    }

    /// The saturating total of the monthly premiums of `owner`'s active policies.
    pub fn get_total_monthly_premium(&self, owner: Address) -> (r: Result<i128, InsuranceError>)
        requires
            self.wf(),
        ensures
            !self@.initialized ==> r == Err::<i128, InsuranceError>(InsuranceError::NotInitialized),
            self@.initialized ==> r == Ok::<i128, InsuranceError>(
                premium_total(self@, ids_of(self@, owner)),
            ),
    {
        if !self.initialized {
            return Err(InsuranceError::NotInitialized);
        }
        let ids = self.ids_of_owner(owner);
        let mut total: i128 = 0;
        let n = ids.len();
        for i in 0..n
            invariant
                n == ids@.len(),
                self.wf(),
                total == premium_total(self@, ids@.take(i as int)),
        {
            proof {
                assert(ids@.take(i + 1).drop_last() =~= ids@.take(i as int));
                assert(ids@.take(i + 1).last() == ids@[i as int]);
            }
            match self.policies.get(ids[i] as u64) {
                Some(p) => {
                    if p.active {
                        total = sat_add_exec(total, p.monthly_premium);
                    }
                },
                None => {},
            }
        }
        proof {
            assert(ids@.take(n as int) =~= ids@);
        }
        Ok(total)
    }
}

proof fn lemma_fits_prefix(pols: Map<u64, PolicyView>, caller: Address, ids: Seq<u32>, now: u64, j: int)
    requires
        0 <= j <= ids.len(),
        batch_fits(pols, caller, ids, now),
    ensures
        batch_fits(pols, caller, ids.take(j), now),
    decreases ids.len() - j,
{
    if j < ids.len() {
        lemma_fits_prefix(pols, caller, ids.drop_last(), now, j);
        assert(ids.drop_last().take(j) =~= ids.take(j));
    } else {
        assert(ids.take(j) =~= ids);
    }
}

fn copy_ids(v: &Vec<u32>) -> (r: Vec<u32>)
    ensures
        r@ == v@,
{
    let mut r: Vec<u32> = Vec::new();
    let n = v.len();
    for i in 0..n
        invariant
            n == v@.len(),
            r@ == v@.take(i as int),
    {
        r.push(v[i]);
        proof {
            assert(v@.take(i + 1) =~= v@.take(i as int).push(v@[i as int]));
        }
    }
    proof {
        assert(v@.take(n as int) =~= v@);
    }
    r
}

/// The payment cadence stays anchored to the due date: paying early or on
/// time moves the due date exactly one period on; paying late moves it to
/// the first date of its cadence after the payment.
pub proof fn lemma_due_date_cadence(due: u64, now: u64)
    ensures
        now <= due ==> next_due(due, now) == due + THIRTY_DAYS_SECS,
        next_due(due, now) > now,
        next_due(due, now) > due,
        (next_due(due, now) - due) % (THIRTY_DAYS_SECS as int) == 0,
        next_due(due, now) - THIRTY_DAYS_SECS <= now || now < due,
{
    let p = THIRTY_DAYS_SECS as int;
    if now >= due {
        let d = now - due;
        let q = d / p;
        assert(q * p <= d < q * p + p) by (nonlinear_arith)
            requires
                p > 0,
                q == d / p,
                d >= 0,
        ;
        assert(p * (q + 1) == q * p + p) by (nonlinear_arith);
        assert((p * (q + 1)) % p == 0) by (nonlinear_arith)
            requires
                p > 0,
        ;
    }
}

/// A deactivated policy cannot be paid, and the refusal changes nothing.
pub proof fn lemma_inactive_not_payable(s: InsuranceView, caller: Address, id: u32, now: u64)
    requires
        s.initialized,
        s.policies.contains_key(id as u64),
        !s.policies[id as u64].active,
    ensures
        pay_premium_spec(s, caller, id, now) == (s, Err::<bool, InsuranceError>(InsuranceError::PolicyInactive)),
{
}

/// A batch payment naming an unknown policy pays nothing at all.
pub proof fn lemma_batch_payment_atomic(s: InsuranceView, caller: Address, ids: Seq<u32>, now: u64, j: int)
    requires
        s.initialized,
        0 <= j < ids.len(),
        !s.policies.contains_key(ids[j] as u64),
    ensures
        batch_pay_premiums_spec(s, caller, ids, now) == (
            s,
            Err::<u32, InsuranceError>(InsuranceError::PolicyNotFound),
        ),
{
}

/// Policies are numbered in creation order: a new policy takes the next
/// number, is active, belongs to its creator, is listed as active and under
/// its owner, and is first due one period after creation.
pub proof fn lemma_create_sequential(
    s: InsuranceView,
    caller: Address,
    name: Seq<char>,
    ct: CoverageType,
    premium: i128,
    coverage: i128,
    now: u64,
)
    requires
        s.policy_count < u32::MAX,
        now <= u64::MAX - THIRTY_DAYS_SECS,
        create_policy_spec(s, caller, name, ct, premium, coverage, now).1 is Ok,
    ensures
        ({
            let (s2, r) = create_policy_spec(s, caller, name, ct, premium, coverage, now);
            let id = r->Ok_0;
            &&& id == s.policy_count + 1
            &&& s2.policy_count == id
            &&& s2.policies[id as u64].active
            &&& s2.policies[id as u64].owner == caller
            &&& s2.policies[id as u64].next_payment_date == now + THIRTY_DAYS_SECS
            &&& s2.active_ids.last() == id
            &&& ids_of(s2, caller).last() == id
        }),
{
}

/// Deactivation takes a policy off the active list for good: it is inactive
/// and no longer listed as active.
pub proof fn lemma_deactivate_removes(s: InsuranceView, caller: Address, id: u32)
    requires
        deactivate_policy_spec(s, caller, id).1 is Ok,
    ensures
        !deactivate_policy_spec(s, caller, id).0.policies[id as u64].active,
        !deactivate_policy_spec(s, caller, id).0.active_ids.contains(id),
{
    lemma_without(s.active_ids, id);
    let w = without(s.active_ids, id);
    assert(forall|x: u32| w.contains(x) <==> s.active_ids.contains(x) && x != id);
    assert(!w.contains(id));
}

/// Every id that goes into pages after `cursor` is one of the listed ids,
/// greater than the cursor, of an existing active policy.
proof fn lemma_eligible_members(s: InsuranceView, ids: Seq<u32>, cursor: u32)
    ensures
        forall|j: int|
            0 <= j < eligible_ids(s, ids, cursor).len() ==> {
                let id = #[trigger] eligible_ids(s, ids, cursor)[j];
                &&& id > cursor
                &&& ids.contains(id)
                &&& s.policies.contains_key(id as u64)
                &&& s.policies[id as u64].active
            },
    decreases ids.len(),
{
    if ids.len() > 0 {
        let rest = ids.drop_last();
        lemma_eligible_members(s, rest, cursor);
        let e = eligible_ids(s, ids, cursor);
        assert forall|j: int| 0 <= j < e.len() implies {
            let id = #[trigger] e[j];
            &&& id > cursor
            &&& ids.contains(id)
            &&& s.policies.contains_key(id as u64)
            &&& s.policies[id as u64].active
        } by {
            let er = eligible_ids(s, rest, cursor);
            if j < er.len() {
                assert(e[j] == er[j]);
                let x = choose|x: int| 0 <= x < rest.len() && rest[x] == er[j];
                assert(ids[x] == er[j]);
            } else {
                assert(e[j] == ids.last());
                assert(ids[ids.len() - 1] == ids.last());
            }
        }
    }
}

/// Paging goes forward: every id on a page of an owner's active policies is
/// greater than the cursor asked for, and is an active policy of that owner.
pub proof fn lemma_page_after_cursor(s: InsuranceView, owner: Address, cursor: u32, limit: u32)
    requires
        registry_inv(s),
    ensures
        forall|j: int|
            0 <= j < active_page(s, owner, cursor, limit).0.len() ==> {
                let id = #[trigger] active_page(s, owner, cursor, limit).0[j];
                &&& id > cursor
                &&& s.policies.contains_key(id as u64)
                &&& s.policies[id as u64].active
                &&& s.policies[id as u64].owner == owner
            },
{
    let ids = ids_of(s, owner);
    lemma_eligible_members(s, ids, cursor);
    let e = eligible_ids(s, ids, cursor);
    let page = active_page(s, owner, cursor, limit).0;
    assert forall|j: int| 0 <= j < page.len() implies {
        let id = #[trigger] page[j];
        &&& id > cursor
        &&& s.policies.contains_key(id as u64)
        &&& s.policies[id as u64].active
        &&& s.policies[id as u64].owner == owner
    } by {
        assert(page[j] == e[j]);
        let id = e[j];
        assert(ids.contains(id));
        let x = choose|x: int| 0 <= x < ids.len() && ids[x] == id;
        assert(s.owner_policies.contains_key(owner as u64));
        assert(s.owner_policies[owner as u64][x] == id);
    }
}

/// Names are at most `MAX_NAME_LEN` (64) bytes long: on an initialized
/// registry, creating a policy with an empty name or a name of more than 64
/// UTF-8 bytes is refused with `InvalidName` and changes nothing.
pub proof fn lemma_name_length_bound(
    s: InsuranceView,
    caller: Address,
    name: Seq<char>,
    ct: CoverageType,
    premium: i128,
    coverage: i128,
    now: u64,
)
    requires
        s.initialized,
        encode_utf8(name).len() == 0 || encode_utf8(name).len() > 64,
        encode_utf8(name).len() <= usize::MAX,
    ensures
        create_policy_spec(s, caller, name, ct, premium, coverage, now) == (
            s,
            Err::<u32, InsuranceError>(InsuranceError::InvalidName),
        ),
{
}

/// Picking the eligible ids out of an ascending list keeps them ascending.
proof fn lemma_eligible_ascending(s: InsuranceView, ids: Seq<u32>, cursor: u32)
    requires
        forall|i: int, j: int| 0 <= i < j < ids.len() ==> ids[i] < ids[j],
    ensures
        forall|i: int, j: int|
            0 <= i < j < eligible_ids(s, ids, cursor).len() ==> eligible_ids(s, ids, cursor)[i]
                < eligible_ids(s, ids, cursor)[j],
    decreases ids.len(),
{
    if ids.len() > 0 {
        let rest = ids.drop_last();
        lemma_eligible_ascending(s, rest, cursor);
        lemma_eligible_members(s, rest, cursor);
        let er = eligible_ids(s, rest, cursor);
        let e = eligible_ids(s, ids, cursor);
        assert forall|i: int, j: int| 0 <= i < j < e.len() implies e[i] < e[j] by {
            if j < er.len() {
                assert(e[i] == er[i] && e[j] == er[j]);
            } else {
                assert(e[i] == er[i]);
                assert(e[j] == ids.last());
                let x = choose|x: int| 0 <= x < rest.len() && rest[x] == er[i];
                assert(ids[x] == er[i]);
                assert(ids[ids.len() - 1] == ids.last());
            }
        }
    }
}

/// Consecutive pages never overlap: when a page of an owner's active
/// policies answers a next cursor, every id on it is at most that cursor, so
/// the page asked for from that cursor (of any size) shares no id with it.
pub proof fn lemma_pages_disjoint(s: InsuranceView, owner: Address, cursor: u32, limit: u32, limit2: u32)
    requires
        registry_inv(s),
        active_page(s, owner, cursor, limit).1 != 0,
    ensures
        forall|j: int|
            0 <= j < active_page(s, owner, cursor, limit).0.len() ==> #[trigger] active_page(
                s,
                owner,
                cursor,
                limit,
            ).0[j] <= active_page(s, owner, cursor, limit).1,
        forall|j: int, k: int|
            0 <= j < active_page(s, owner, cursor, limit).0.len() && 0 <= k < active_page(
                s,
                owner,
                active_page(s, owner, cursor, limit).1,
                limit2,
            ).0.len() ==> #[trigger] active_page(s, owner, cursor, limit).0[j] != #[trigger] active_page(
                s,
                owner,
                active_page(s, owner, cursor, limit).1,
                limit2,
            ).0[k],
{
    let ids = ids_of(s, owner);
    let next = active_page(s, owner, cursor, limit).1;
    let page = active_page(s, owner, cursor, limit).0;
    assert forall|i: int, j: int| 0 <= i < j < ids.len() implies ids[i] < ids[j] by {
        assert(s.owner_policies.contains_key(owner as u64));
    }
    lemma_eligible_ascending(s, ids, cursor);
    let e = eligible_ids(s, ids, cursor);
    let lim = page_size(limit);
    assert forall|j: int| 0 <= j < page.len() implies #[trigger] page[j] <= next by {
        assert(page[j] == e[j]);
        if j < lim - 1 {
            assert(e[j] < e[lim - 1]);
        }
    }
    lemma_page_after_cursor(s, owner, next, limit2);
    let page2 = active_page(s, owner, next, limit2).0;
    assert forall|j: int, k: int| 0 <= j < page.len() && 0 <= k < page2.len() implies #[trigger] page[j]
        != #[trigger] page2[k] by {
        assert(page[j] <= next);
        assert(page2[k] > next);
    }
}

/// Every listed id that qualifies after `cursor` is picked.
proof fn lemma_eligible_complete(s: InsuranceView, ids: Seq<u32>, cursor: u32, x: u32)
    requires
        ids.contains(x),
        page_eligible(s, x, cursor),
    ensures
        eligible_ids(s, ids, cursor).contains(x),
    decreases ids.len(),
{
    let rest = ids.drop_last();
    let e = eligible_ids(s, ids, cursor);
    if x == ids.last() {
        assert(e[e.len() - 1] == x);
    } else {
        let i = choose|i: int| 0 <= i < ids.len() && ids[i] == x;
        assert(i < ids.len() - 1);
        assert(rest[i] == x);
        lemma_eligible_complete(s, rest, cursor, x);
        let er = eligible_ids(s, rest, cursor);
        let k = choose|k: int| 0 <= k < er.len() && er[k] == x;
        assert(e[k] == x);
    }
}

/// Paging misses nothing: every active policy of the owner with an id
/// greater than the cursor is on the page, or lies beyond the next cursor
/// the page answers (and so is reached by asking from there).
pub proof fn lemma_page_complete(s: InsuranceView, owner: Address, cursor: u32, limit: u32, id: u32)
    requires
        registry_inv(s),
        id > cursor,
        s.policies.contains_key(id as u64),
        s.policies[id as u64].active,
        s.policies[id as u64].owner == owner,
    ensures
        active_page(s, owner, cursor, limit).0.contains(id) || (active_page(s, owner, cursor, limit).1 != 0
            && id > active_page(s, owner, cursor, limit).1),
{
    let ids = ids_of(s, owner);
    assert(s.policies[id as u64].id == id);
    assert(ids.contains(id));
    lemma_eligible_complete(s, ids, cursor, id);
    let e = eligible_ids(s, ids, cursor);
    let lim = page_size(limit);
    let m = choose|m: int| 0 <= m < e.len() && e[m] == id;
    if e.len() > lim {
        assert forall|i: int, j: int| 0 <= i < j < ids.len() implies ids[i] < ids[j] by {
            assert(s.owner_policies.contains_key(owner as u64));
        }
        lemma_eligible_ascending(s, ids, cursor);
        if m < lim {
            assert(e.take(lim as int)[m] == id);
        } else {
            lemma_eligible_members(s, ids, cursor);
            assert(e[lim - 1] > cursor);
            if m > lim - 1 {
                assert(e[lim - 1] < e[m]);
            }
        }
    }
}

} // verus!

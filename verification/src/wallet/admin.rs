//! Pausing, versioning, proposal lifetime and the audit trail readers.

use vstd::prelude::*;
use crate::common::{Address, FamilyRole, CONTRACT_VERSION};
use super::{
    initialized, role_error, role_expired, AccessAuditEntry, AccessAuditPage, Error, FamilyWallet,
    WalletView, DEFAULT_AUDIT_PAGE_LIMIT, DEFAULT_PROPOSAL_EXPIRY, MAX_AUDIT_PAGE_LIMIT,
    MAX_PROPOSAL_EXPIRY,
};

verus! {

/// The account allowed to pause and unpause: the pause admin, else the
/// owner.
pub open spec fn pause_authority(s: WalletView) -> Option<Address> {
    match s.pause_admin {
        Some(a) => Some(a),
        None => s.owner,
    }
}

/// The account allowed to set the version: the upgrade admin, else the
/// owner.
pub open spec fn upgrade_authority(s: WalletView) -> Option<Address> {
    match s.upgrade_admin {
        Some(a) => Some(a),
        None => s.owner,
    }
}

pub open spec fn pause_spec(s: WalletView, caller: Address, now: u64) -> (WalletView, Result<bool, Error>) {
    match role_error(s, caller, FamilyRole::Admin, now) {
        Some(e) => (s, Err(e)),
        None => match pause_authority(s) {
            None => (s, Err(Error::NotInitialized)),
            Some(a) => if a != caller {
                (s, Err(Error::Unauthorized))
            } else {
                (WalletView { paused: true, ..s }, Ok(true))
            },
        },
    }
}

pub open spec fn unpause_spec(s: WalletView, caller: Address, now: u64) -> (WalletView, Result<bool, Error>) {
    match pause_authority(s) {
        None => (s, Err(Error::NotInitialized)),
        Some(a) => if a != caller {
            (s, Err(Error::Unauthorized))
        } else if role_expired(s, caller, now) {
            (s, Err(Error::RoleExpired))
        } else {
            (WalletView { paused: false, ..s }, Ok(true))
        },
    }
}

pub open spec fn set_pause_admin_spec(s: WalletView, caller: Address, new_admin: Address, now: u64) -> (WalletView, Result<
    bool,
    Error,
>) {
    match role_error(s, caller, FamilyRole::Owner, now) {
        Some(e) => (s, Err(e)),
        None => (WalletView { pause_admin: Some(new_admin), ..s }, Ok(true)),
    }
}

pub open spec fn set_proposal_expiry_spec(s: WalletView, caller: Address, expiry: u64, now: u64) -> (WalletView, Result<
    bool,
    Error,
>) {
    if s.paused {
        (s, Err(Error::ContractPaused))
    } else if !initialized(s) {
        (s, Err(Error::NotInitialized))
    } else if caller != s.owner->0 {
        (s, Err(Error::Unauthorized))
    } else if role_expired(s, caller, now) {
        (s, Err(Error::RoleExpired))
    } else if expiry > MAX_PROPOSAL_EXPIRY {
        (s, Err(Error::InvalidProposalExpiry))
    } else {
        (WalletView { prop_exp: Some(expiry), ..s }, Ok(true))
    }
}

pub open spec fn set_upgrade_admin_spec(s: WalletView, caller: Address, new_admin: Address, now: u64) -> (WalletView, Result<
    bool,
    Error,
>) {
    match role_error(s, caller, FamilyRole::Owner, now) {
        Some(e) => (s, Err(e)),
        None => if s.paused {
            (s, Err(Error::ContractPaused))
        } else {
            (WalletView { upgrade_admin: Some(new_admin), ..s }, Ok(true))
        },
    }
}

pub open spec fn set_version_spec(s: WalletView, caller: Address, new_version: u32, now: u64) -> (WalletView, Result<
    bool,
    Error,
>) {
    if s.paused {
        (s, Err(Error::ContractPaused))
    } else {
        match upgrade_authority(s) {
            None => (s, Err(Error::NotInitialized)),
            Some(a) => if a != caller {
                (s, Err(Error::Unauthorized))
            } else if role_expired(s, caller, now) {
                (s, Err(Error::RoleExpired))
            } else {
                (WalletView { version: Some(new_version), ..s }, Ok(true))
            },
        }
    }
}

/// The newest `limit` audit entries (all of them when fewer), oldest first.
pub open spec fn audit_tail(log: Seq<AccessAuditEntry>, limit: u32) -> Seq<AccessAuditEntry> {
    if log.len() <= limit {
        log
    } else {
        log.skip(log.len() - limit)
    }
}

/// The effective size of an audit page.
pub open spec fn audit_page_limit(limit: u32) -> nat {
    if limit == 0 {
        DEFAULT_AUDIT_PAGE_LIMIT as nat
    } else if limit > MAX_AUDIT_PAGE_LIMIT {
        MAX_AUDIT_PAGE_LIMIT as nat
    } else {
        limit as nat
    }
}

/// The end (exclusive) of the audit page starting at `from`.
pub open spec fn audit_page_end(log: Seq<AccessAuditEntry>, from: u32, limit: u32) -> nat {
    if from >= log.len() {
        log.len()
    } else if from + audit_page_limit(limit) > log.len() {
        log.len()
    } else {
        (from + audit_page_limit(limit)) as nat
    }
}

impl FamilyWallet {
    /// Pause the wallet (the pause admin, else the owner, holding at least
    /// an unexpired Admin role).
    pub fn pause(&mut self, caller: Address, now: u64) -> (r: Result<bool, Error>)
        requires
            old(self).wf(),
            pause_spec(old(self)@, caller, now).1 is Ok,
        ensures
            final(self).wf(),
            (final(self)@, r) == pause_spec(old(self)@, caller, now),
    {
        self.try_pause(caller, now)
    }

    /// The same step on any input: a call that is not admitted above is
    /// answered with its refusal and changes nothing.
    pub fn try_pause(&mut self, caller: Address, now: u64) -> (r: Result<bool, Error>)
        requires
            old(self).wf(),
        ensures
            final(self).wf(),
            (final(self)@, r) == pause_spec(old(self)@, caller, now),
    {
        match self.role_check(caller, FamilyRole::Admin, now) {
            Some(e) => {
                return Err(e);
            },
            None => {},
        }
        let admin = match self.pause_admin {
            Some(a) => a,
            None => match self.owner {
                Some(o) => o,
                None => {
                    return Err(Error::NotInitialized);
                },
            },
        };
        if admin != caller {
            return Err(Error::Unauthorized);
        }
        self.paused = true;
        Ok(true)
    }

    /// Unpause the wallet (the pause admin, else the owner, whose role has
    /// not expired).
    pub fn unpause(&mut self, caller: Address, now: u64) -> (r: Result<bool, Error>)
        requires
            old(self).wf(),
            unpause_spec(old(self)@, caller, now).1 is Ok,
        ensures
            final(self).wf(),
            (final(self)@, r) == unpause_spec(old(self)@, caller, now),
    {
        self.try_unpause(caller, now)
    }

    /// The same step on any input: a call that is not admitted above is
    /// answered with its refusal and changes nothing.
    pub fn try_unpause(&mut self, caller: Address, now: u64) -> (r: Result<bool, Error>)
        requires
            old(self).wf(),
        ensures
            final(self).wf(),
            (final(self)@, r) == unpause_spec(old(self)@, caller, now),
    {
        let admin = match self.pause_admin {
            Some(a) => a,
            None => match self.owner {
                Some(o) => o,
                None => {
                    return Err(Error::NotInitialized);
                },
            },
        };
        if admin != caller {
            return Err(Error::Unauthorized);
        }
        if self.expired(caller, now) {
            return Err(Error::RoleExpired);
        }
        self.paused = false;
        Ok(true)
    }

    /// Name the pause admin (an unexpired Owner).
    pub fn set_pause_admin(&mut self, caller: Address, new_admin: Address, now: u64) -> (r: Result<bool, Error>)
        requires
            old(self).wf(),
            set_pause_admin_spec(old(self)@, caller, new_admin, now).1 is Ok,
        ensures
            final(self).wf(),
            (final(self)@, r) == set_pause_admin_spec(old(self)@, caller, new_admin, now),
    {
        self.try_set_pause_admin(caller, new_admin, now)
    }

    /// The same step on any input: a call that is not admitted above is
    /// answered with its refusal and changes nothing.
    pub fn try_set_pause_admin(&mut self, caller: Address, new_admin: Address, now: u64) -> (r: Result<bool, Error>)
        requires
            old(self).wf(),
        ensures
            final(self).wf(),
            (final(self)@, r) == set_pause_admin_spec(old(self)@, caller, new_admin, now),
    {
        match self.role_check(caller, FamilyRole::Owner, now) {
            Some(e) => {
                return Err(e);
            },
            None => {},
        }
        self.pause_admin = Some(new_admin);
        Ok(true)
    }

    /// Whether the wallet is paused.
    pub fn is_paused(&self) -> (b: bool)
        ensures
            b == self@.paused,
    {
        self.paused
    }

    /// The stored version, else the current contract version.
    pub fn get_version(&self) -> (v: u32)
        ensures
            v == (match self@.version {
                Some(x) => x,
                None => CONTRACT_VERSION,
            }),
    {
        match self.version {
            Some(x) => x,
            None => CONTRACT_VERSION,
        }
    }

    /// Set the proposal lifetime in seconds (the owner, unexpired); 0 means
    /// proposals never expire; at most `MAX_PROPOSAL_EXPIRY`.
    pub fn set_proposal_expiry(&mut self, caller: Address, expiry: u64, now: u64) -> (r: Result<bool, Error>)
        requires
            old(self).wf(),
            set_proposal_expiry_spec(old(self)@, caller, expiry, now).1 is Ok,
        ensures
            final(self).wf(),
            (final(self)@, r) == set_proposal_expiry_spec(old(self)@, caller, expiry, now),
    {
        self.try_set_proposal_expiry(caller, expiry, now)
    }

    /// The same step on any input: a call that is not admitted above is
    /// answered with its refusal and changes nothing.
    pub fn try_set_proposal_expiry(&mut self, caller: Address, expiry: u64, now: u64) -> (r: Result<bool, Error>)
        requires
            old(self).wf(),
        ensures
            final(self).wf(),
            (final(self)@, r) == set_proposal_expiry_spec(old(self)@, caller, expiry, now),
    {
        if self.paused {
            return Err(Error::ContractPaused);
        }
        let owner = match self.owner {
            Some(o) => o,
            None => {
                return Err(Error::NotInitialized);
            },
        };
        if caller != owner {
            return Err(Error::Unauthorized);
        }
        if self.expired(caller, now) {
            return Err(Error::RoleExpired);
        }
        if expiry > 604800 {
            return Err(Error::InvalidProposalExpiry);
        }
        self.prop_exp = Some(expiry);
        Ok(true)
    }

    /// The proposal lifetime, or the default when unset.
    pub fn get_proposal_expiry_public(&self) -> (e: u64)
        ensures
            e == (match self@.prop_exp {
                Some(x) => x,
                None => DEFAULT_PROPOSAL_EXPIRY,
            }),
    {
        match self.prop_exp {
            Some(x) => x,
            None => 86400,
        }
    }

    /// Name the upgrade admin (an unexpired Owner).
    pub fn set_upgrade_admin(&mut self, caller: Address, new_admin: Address, now: u64) -> (r: Result<bool, Error>)
        requires
            old(self).wf(),
            set_upgrade_admin_spec(old(self)@, caller, new_admin, now).1 is Ok,
        ensures
            final(self).wf(),
            (final(self)@, r) == set_upgrade_admin_spec(old(self)@, caller, new_admin, now),
    {
        self.try_set_upgrade_admin(caller, new_admin, now)
    }

    /// The same step on any input: a call that is not admitted above is
    /// answered with its refusal and changes nothing.
    pub fn try_set_upgrade_admin(&mut self, caller: Address, new_admin: Address, now: u64) -> (r: Result<bool, Error>)
        requires
            old(self).wf(),
        ensures
            final(self).wf(),
            (final(self)@, r) == set_upgrade_admin_spec(old(self)@, caller, new_admin, now),
    {
        match self.role_check(caller, FamilyRole::Owner, now) {
            Some(e) => {
                return Err(e);
            },
            None => {},
        }
        if self.paused {
            return Err(Error::ContractPaused);
        }
        self.upgrade_admin = Some(new_admin);
        Ok(true)
    }

    /// The upgrade admin, if named.
    pub fn get_upgrade_admin_public(&self) -> (r: Option<Address>)
        ensures
            r == self@.upgrade_admin,
    {
        self.upgrade_admin
    }

    /// Set the version (the upgrade admin, else the owner, unexpired).
    pub fn set_version(&mut self, caller: Address, new_version: u32, now: u64) -> (r: Result<bool, Error>)
        requires
            old(self).wf(),
            set_version_spec(old(self)@, caller, new_version, now).1 is Ok,
        ensures
            final(self).wf(),
            (final(self)@, r) == set_version_spec(old(self)@, caller, new_version, now),
    {
        self.try_set_version(caller, new_version, now)
    }

    /// The same step on any input: a call that is not admitted above is
    /// answered with its refusal and changes nothing.
    pub fn try_set_version(&mut self, caller: Address, new_version: u32, now: u64) -> (r: Result<bool, Error>)
        requires
            old(self).wf(),
        ensures
            final(self).wf(),
            (final(self)@, r) == set_version_spec(old(self)@, caller, new_version, now),
    {
        if self.paused {
            return Err(Error::ContractPaused);
        }
        let admin = match self.upgrade_admin {
            Some(a) => a,
            None => match self.owner {
                Some(o) => o,
                None => {
                    return Err(Error::NotInitialized);
                },
            },
        };
        if admin != caller {
            return Err(Error::Unauthorized);
        }
        if self.expired(caller, now) {
            return Err(Error::RoleExpired);
        }
        self.version = Some(new_version);
        Ok(true)
    }

    /// The newest `limit` audit entries, oldest first.
    pub fn get_access_audit(&self, limit: u32) -> (r: Vec<AccessAuditEntry>)
        ensures
            r@ == audit_tail(self@.audit, limit),
    {
        let n = self.audit.len();
        let k: usize = if n <= limit as usize {
            n
        } else {
            limit as usize
        };
        let start = n - k;
        let mut out: Vec<AccessAuditEntry> = Vec::new();
        let mut i = start;
        while i < n
            invariant
                n == self.audit@.len(),
                start <= i <= n,
                out@ == self.audit@.subrange(start as int, i as int),
            decreases n - i,
        {
            out.push(self.audit[i]);
            i += 1;
            proof {
                assert(out@ =~= self.audit@.subrange(start as int, i as int));
            }
        }
        proof {
            assert(out@ =~= audit_tail(self@.audit, limit));
        }
        out
    }

    /// A page of the audit trail from index `from` (an unexpired Admin or
    /// Owner): at most `limit` entries (0 meaning the default, capped at the
    /// page maximum); `next_cursor` is the index after the page, equal to the
    /// trail's length at its end.
    pub fn get_access_audit_page(&self, caller: Address, from_index: u32, limit: u32, now: u64) -> (r: Result<
        AccessAuditPage,
        Error,
    >)
        requires
            self.wf(),
            role_error(self@, caller, FamilyRole::Admin, now) is None,
        ensures
            role_error(self@, caller, FamilyRole::Admin, now) is Some ==> r == Err::<AccessAuditPage, Error>(
                role_error(self@, caller, FamilyRole::Admin, now)->0,
            ),
            role_error(self@, caller, FamilyRole::Admin, now) is None ==> r is Ok && {
                let page = r->Ok_0;
                let end = audit_page_end(self@.audit, from_index, limit);
                &&& page.next_cursor == end
                &&& page.items@ == (if from_index >= self@.audit.len() {
                    Seq::<AccessAuditEntry>::empty()
                } else {
                    self@.audit.subrange(from_index as int, end as int)
                })
                &&& page.count == page.items@.len()
            },
    {
        match self.role_check(caller, FamilyRole::Admin, now) {
            Some(e) => {
                return Err(e);
            },
            None => {},
        }
        let cap: u32 = if limit == 0 {
            20
        } else if limit > 50 {
            50
        } else {
            limit
        };
        proof {
            self.lemma_wf_inv();
        }
        let total = self.audit.len();
        if from_index as usize >= total {
            return Ok(AccessAuditPage { items: Vec::new(), next_cursor: total as u32, count: 0 });
        }
        let end: usize = if from_index as usize + cap as usize > total {
            total
        } else {
            from_index as usize + cap as usize
        };
        let mut items: Vec<AccessAuditEntry> = Vec::new();
        let mut i = from_index as usize;
        while i < end
            invariant
                total == self.audit@.len(),
                total <= 200,
                from_index <= i <= end,
                end <= total,
                items@ == self.audit@.subrange(from_index as int, i as int),
            decreases end - i,
        {
            items.push(self.audit[i]);
            i += 1;
            proof {
                assert(items@ =~= self.audit@.subrange(from_index as int, i as int));
            }
        }
        let count = items.len();
        Ok(AccessAuditPage { items, next_cursor: end as u32, count: count as u32 })
    }
}

} // verus!

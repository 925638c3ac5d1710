//! Role, expiry and audit helpers shared by the wallet operations.

use vstd::prelude::*;
use crate::common::{Address, FamilyRole, role_ordinal};
use crate::ordmap::OrdMap;
use super::{
    audited, initialized, owner_or_admin, role_error, role_expired, AccessAuditEntry, AuditOp, Error, FamilyWallet,
    WalletView,
};

verus! {

impl FamilyWallet {
    /// An uninitialized wallet.
    pub fn new() -> (w: Self)
        ensures
            w.wf(),
            w@ == empty_wallet(),
    {
        let w = FamilyWallet {
            owner: None,
            members: OrdMap::new(),
            configs: OrdMap::new(),
            pending: OrdMap::new(),
            executed: OrdMap::new(),
            archived: OrdMap::new(),
            next_tx: 1,
            em_config: None,
            em_mode: false,
            em_last: 0,
            em_vol: 0,
            audit: Vec::new(),
            paused: false,
            pause_admin: None,
            upgrade_admin: None,
            version: None,
            prop_exp: None,
            role_exp: OrdMap::new(),
            prec_limits: OrdMap::new(),
            trackers: OrdMap::new(),
            stats: None,
        };
        proof {
            assert(w.archived@.dom() =~= Set::<u64>::empty());
            assert(w.members@.dom() =~= Set::<u64>::empty());
            assert(w@ =~= empty_wallet());
        }
        w
    }

    /// Whether the wallet has an owner, which the member and proposal
    /// lookups need.
    pub fn is_initialized(&self) -> (b: bool)
        ensures
            b == initialized(self@),
    {
        self.owner.is_some()
    }

    pub(crate) fn expired(&self, a: Address, now: u64) -> (b: bool)
        requires
            self.wf(),
        ensures
            b == role_expired(self@, a, now),
    {
        match self.role_exp.get(a) {
            Some(t) => now >= *t,
            None => false,
        }
    }

    /// Whether `a` is an unexpired Owner or Admin (what archive reads and
    /// archiving need of their caller).
    pub fn is_owner_or_admin(&self, a: Address, now: u64) -> (b: bool)
        requires
            self.wf(),
        ensures
            b == owner_or_admin(self@, a, now),
    {
        match self.members.get(a) {
            Some(m) => {
                if self.expired(a, now) {
                    false
                } else {
                    m.role == FamilyRole::Owner || m.role == FamilyRole::Admin
                }
            },
            None => false,
        }
    }

    /// The refusal, if any, of a call needing `a` to hold at least `min`
    /// (no refusal is what the audit page needs of its caller).
    pub fn role_check(&self, a: Address, min: FamilyRole, now: u64) -> (r: Option<Error>)
        requires
            self.wf(),
        ensures
            r == role_error(self@, a, min, now),
    {
        if self.owner.is_none() {
            return Some(Error::NotInitialized);
        }
        let role = match self.members.get(a) {
            Some(m) => m.role,
            None => {
                return Some(Error::NotFamilyMember);
            },
        };
        if self.expired(a, now) {
            return Some(Error::RoleExpired);
        }
        if role_ordinal(role) > role_ordinal(min) {
            return Some(Error::InsufficientRole);
        }
        None
    }

    /// Records a successful `op` by `caller` on `target` in the audit trail.
    pub(crate) fn record_audit(&mut self, op: AuditOp, caller: Address, target: Option<Address>, now: u64)
        requires
            old(self).wf(),
        ensures
            final(self).wf(),
            final(self)@ == audited(old(self)@, op, caller, target, now),
    {
        let ghost s = self@;
        let e = AccessAuditEntry { operation: op, caller, target, success: true, timestamp: now };
        self.audit.push(e);
        if self.audit.len() > 200 {
            self.audit.remove(0);
            proof {
                assert(self.audit@ =~= s.audit.push(e).skip(1));
            }
        }
        proof {
            assert(self@ =~= audited(s, op, caller, target, now));
        }
    }
}

/// The state of a wallet before initialization.
pub open spec fn empty_wallet() -> WalletView {
    WalletView {
        owner: None,
        members: Map::empty(),
        configs: Map::empty(),
        pending: Map::empty(),
        executed: Map::empty(),
        archived: Map::empty(),
        next_tx: 1,
        em_config: None,
        em_mode: false,
        em_last: 0,
        em_vol: 0,
        audit: Seq::empty(),
        paused: false,
        pause_admin: None,
        upgrade_admin: None,
        version: None,
        prop_exp: None,
        role_exp: Map::empty(),
        prec_limits: Map::empty(),
        trackers: Map::empty(),
        stats: None,
    }
}

} // verus!

//! Emergency transfers: guardrails, emergency mode, and proposals or
//! immediate transfers under a cap, a cooldown, a daily volume limit and a
//! balance floor.

use vstd::prelude::*;
use crate::common::Address;
use super::{
    audited, owner_or_admin, AuditOp, EmergencyConfig, Error, FamilyWallet,
    TransactionData, TransactionType, Transfer, WalletView, DAY_SECS,
};
use super::multisig::propose_spec;

verus! {

pub open spec fn configure_emergency_spec(
    s: WalletView,
    caller: Address,
    max_amount: i128,
    cooldown: u64,
    min_balance: i128,
    daily_limit: i128,
    now: u64,
) -> (WalletView, Result<bool, Error>) {
    if s.paused {
        (s, Err(Error::ContractPaused))
    } else if !owner_or_admin(s, caller, now) {
        (s, Err(Error::Unauthorized))
    } else if max_amount <= 0 {
        (s, Err(Error::InvalidAmount))
    } else if min_balance < 0 {
        (s, Err(Error::InvalidEmergencyConfig))
    } else {
        (
            audited(
                WalletView {
                    em_config: Some(EmergencyConfig { max_amount, cooldown, min_balance, daily_limit }),
                    ..s
                },
                AuditOp::EmergencyConfig,
                caller,
                None,
                now,
            ),
            Ok(true),
        )
    }
}

pub open spec fn set_emergency_mode_spec(s: WalletView, caller: Address, enabled: bool, now: u64) -> (WalletView, Result<
    bool,
    Error,
>) {
    if s.paused {
        (s, Err(Error::ContractPaused))
    } else if !owner_or_admin(s, caller, now) {
        (s, Err(Error::Unauthorized))
    } else {
        (audited(WalletView { em_mode: enabled, ..s }, AuditOp::EmergencyMode, caller, None, now), Ok(true))
    }
}

/// The emergency volume after a transfer of `amount` at `now`: the volume
/// starts over on a new calendar day (days counted from time 0), and may
/// neither overflow nor exceed the daily limit.
pub open spec fn emergency_volume(s: WalletView, now: u64, amount: i128, daily_limit: i128) -> Result<i128, Error> {
    let cur: int = if now / DAY_SECS > s.em_last / DAY_SECS {
        0
    } else {
        s.em_vol as int
    };
    if cur + amount > i128::MAX || cur + amount < i128::MIN {
        Err(Error::EmergencyVolumeOverflow)
    } else if cur + amount > daily_limit {
        Err(Error::EmergencyDailyLimitExceeded)
    } else {
        Ok((cur + amount) as i128)
    }
}

/// Whether the cooldown after the last emergency transfer still runs.
pub open spec fn cooldown_active(s: WalletView, cooldown: u64, now: u64) -> bool {
    s.em_last != 0 && now < (if s.em_last + cooldown > u64::MAX {
        u64::MAX as int
    } else {
        s.em_last + cooldown
    })
}

/// An immediate emergency transfer of `amount` out of a balance of
/// `balance`: refused above the cap, within the cooldown, beyond the daily
/// volume, or when it would leave less than the balance floor; otherwise it
/// records the volume and time, is audited, and moves the funds with the
/// proposer's authorization.
pub open spec fn emergency_now_spec(
    s: WalletView,
    proposer: Address,
    token: Address,
    recipient: Address,
    amount: i128,
    balance: i128,
    now: u64,
) -> (WalletView, Result<(u64, Option<Transfer>), Error>) {
    match s.em_config {
        None => (s, Err(Error::EmergencyConfigMissing)),
        Some(cfg) => if amount > cfg.max_amount {
            (s, Err(Error::EmergencyAmountExceeded))
        } else if cooldown_active(s, cfg.cooldown, now) {
            (s, Err(Error::EmergencyCooldownActive))
        } else {
            match emergency_volume(s, now, amount, cfg.daily_limit) {
                Err(e) => (s, Err(e)),
                Ok(vol) => if balance - amount < i128::MIN || balance - amount > i128::MAX || balance
                    - amount < cfg.min_balance {
                    (s, Err(Error::MinBalanceViolation))
                } else {
                    (
                        audited(
                            WalletView {
                                em_vol: vol,
                                em_last: if now == 0 {
                                    1
                                } else {
                                    now
                                },
                                ..s
                            },
                            AuditOp::EmergencyExecution,
                            proposer,
                            Some(recipient),
                            now,
                        ),
                        Ok(
                            (
                                0u64,
                                Some(
                                    Transfer {
                                        token,
                                        from: proposer,
                                        to: recipient,
                                        amount,
                                        from_must_authorize: true,
                                    },
                                ),
                            ),
                        ),
                    )
                },
            }
        },
    }
}

/// Whether `proposer` has a pending emergency proposal.
pub open spec fn has_emergency_proposal(s: WalletView, proposer: Address) -> bool {
    exists|k: u64|
        #[trigger] s.pending.contains_key(k) && s.pending[k].proposer == proposer
            && s.pending[k].tx_type == TransactionType::EmergencyTransfer
}

/// Whether `proposer` has a pending emergency proposal with these terms.
pub open spec fn has_identical_proposal(
    s: WalletView,
    proposer: Address,
    data: TransactionData,
) -> bool {
    exists|k: u64|
        #[trigger] s.pending.contains_key(k) && s.pending[k].proposer == proposer
            && s.pending[k].tx_type == TransactionType::EmergencyTransfer && s.pending[k].data == data
}

/// An emergency transfer: immediate in emergency mode; otherwise a
/// multisig proposal, of which each proposer may have only one pending.
pub open spec fn propose_emergency_spec(
    s: WalletView,
    proposer: Address,
    token: Address,
    recipient: Address,
    amount: i128,
    balance: i128,
    now: u64,
) -> (WalletView, Result<(u64, Option<Transfer>), Error>) {
    let data = TransactionData::EmergencyTransfer(token, recipient, amount);
    if s.paused {
        (s, Err(Error::ContractPaused))
    } else if amount <= 0 {
        (s, Err(Error::InvalidAmount))
    } else if s.em_mode {
        emergency_now_spec(s, proposer, token, recipient, amount, balance, now)
    } else if has_identical_proposal(s, proposer, data) {
        (s, Err(Error::DuplicateEmergencyProposal))
    } else if has_emergency_proposal(s, proposer) {
        (s, Err(Error::EmergencyProposalPending))
    } else {
        match propose_spec(s, proposer, TransactionType::EmergencyTransfer, data, now) {
            (s2, Ok((id, tr))) => (
                audited(s2, AuditOp::EmergencyProposal, proposer, Some(recipient), now),
                Ok((id, tr)),
            ),
            (s2, Err(e)) => (s2, Err(e)),
        }
    }
}

impl FamilyWallet {
    /// Set the emergency guardrails (Owner or Admin): a positive cap and a
    /// non-negative balance floor; recorded in the audit trail.
    pub fn configure_emergency(
        &mut self,
        caller: Address,
        max_amount: i128,
        cooldown: u64,
        min_balance: i128,
        daily_limit: i128,
        now: u64,
    ) -> (r: Result<bool, Error>)
        requires
            old(self).wf(),
            configure_emergency_spec(old(self)@, caller, max_amount, cooldown, min_balance, daily_limit, now).1 is Ok,
        ensures
            final(self).wf(),
            (final(self)@, r) == configure_emergency_spec(
                old(self)@,
                caller,
                max_amount,
                cooldown,
                min_balance,
                daily_limit,
                now,
            ),
    {
        self.try_configure_emergency(caller, max_amount, cooldown, min_balance, daily_limit, now)
    }

    /// The same step on any input: a call that is not admitted above is
    /// answered with its refusal and changes nothing.
    pub fn try_configure_emergency(
        &mut self,
        caller: Address,
        max_amount: i128,
        cooldown: u64,
        min_balance: i128,
        daily_limit: i128,
        now: u64,
    ) -> (r: Result<bool, Error>)
        requires
            old(self).wf(),
        ensures
            final(self).wf(),
            (final(self)@, r) == configure_emergency_spec(
                old(self)@,
                caller,
                max_amount,
                cooldown,
                min_balance,
                daily_limit,
                now,
            ),
    {
        if self.paused {
            return Err(Error::ContractPaused);
        }
        if !self.is_owner_or_admin(caller, now) {
            return Err(Error::Unauthorized);
        }
        if max_amount <= 0 {
            return Err(Error::InvalidAmount);
        }
        if min_balance < 0 {
            return Err(Error::InvalidEmergencyConfig);
        }
        let ghost s = self@;
        self.em_config = Some(EmergencyConfig { max_amount, cooldown, min_balance, daily_limit });
        self.record_audit(AuditOp::EmergencyConfig, caller, None, now);
        proof {
            assert(self@ =~= configure_emergency_spec(
                s,
                caller,
                max_amount,
                cooldown,
                min_balance,
                daily_limit,
                now,
            ).0);
        }
        Ok(true)
    }

    /// Turn emergency mode on or off (Owner or Admin); recorded in the audit
    /// trail.
    pub fn set_emergency_mode(&mut self, caller: Address, enabled: bool, now: u64) -> (r: Result<bool, Error>)
        requires
            old(self).wf(),
            set_emergency_mode_spec(old(self)@, caller, enabled, now).1 is Ok,
        ensures
            final(self).wf(),
            (final(self)@, r) == set_emergency_mode_spec(old(self)@, caller, enabled, now),
    {
        self.try_set_emergency_mode(caller, enabled, now)
    }

    /// The same step on any input: a call that is not admitted above is
    /// answered with its refusal and changes nothing.
    pub fn try_set_emergency_mode(&mut self, caller: Address, enabled: bool, now: u64) -> (r: Result<bool, Error>)
        requires
            old(self).wf(),
        ensures
            final(self).wf(),
            (final(self)@, r) == set_emergency_mode_spec(old(self)@, caller, enabled, now),
    {
        if self.paused {
            return Err(Error::ContractPaused);
        }
        if !self.is_owner_or_admin(caller, now) {
            return Err(Error::Unauthorized);
        }
        let ghost s = self@;
        self.em_mode = enabled;
        self.record_audit(AuditOp::EmergencyMode, caller, None, now);
        proof {
            assert(self@ =~= set_emergency_mode_spec(s, caller, enabled, now).0);
        }
        Ok(true)
    }

    fn emergency_volume_exec(&self, now: u64, amount: i128, daily_limit: i128) -> (r: Result<i128, Error>)
        ensures
            r == emergency_volume(self@, now, amount, daily_limit),
    {
        let cur: i128 = if now / 86400 > self.em_last / 86400 {
            0
        } else {
            self.em_vol
        };
        match cur.checked_add(amount) {
            None => Err(Error::EmergencyVolumeOverflow),
            Some(v) => {
                if v > daily_limit {
                    Err(Error::EmergencyDailyLimitExceeded)
                } else {
                    Ok(v)
                }
            },
        }
    }

    fn emergency_now(
        &mut self,
        proposer: Address,
        token: Address,
        recipient: Address,
        amount: i128,
        balance: i128,
        now: u64,
    ) -> (r: Result<(u64, Option<Transfer>), Error>)
        requires
            old(self).wf(),
        ensures
            final(self).wf(),
            (final(self)@, r) == emergency_now_spec(old(self)@, proposer, token, recipient, amount, balance, now),
    {
        let cfg = match self.em_config {
            Some(c) => c,
            None => {
                return Err(Error::EmergencyConfigMissing);
            },
        };
        if amount > cfg.max_amount {
            return Err(Error::EmergencyAmountExceeded);
        }
        if self.em_last != 0 && now < self.em_last.saturating_add(cfg.cooldown) {
            return Err(Error::EmergencyCooldownActive);
        }
        let vol = match self.emergency_volume_exec(now, amount, cfg.daily_limit) {
            Err(e) => {
                return Err(e);
            },
            Ok(v) => v,
        };
        match balance.checked_sub(amount) {
            None => {
                return Err(Error::MinBalanceViolation);
            },
            Some(post) => {
                if post < cfg.min_balance {
                    return Err(Error::MinBalanceViolation);
                }
            },
        }
        let ghost s = self@;
        self.em_vol = vol;
        self.em_last = if now == 0 {
            1
        } else {
            now
        };
        self.record_audit(AuditOp::EmergencyExecution, proposer, Some(recipient), now);
        proof {
            assert(self@ =~= emergency_now_spec(s, proposer, token, recipient, amount, balance, now).0);
        }
        Ok(
            (
                0,
                Some(
                    Transfer { token, from: proposer, to: recipient, amount, from_must_authorize: true },
                ),
            ),
        )
    }

    /// Propose an emergency transfer of a positive `amount` of `token` to
    /// `recipient`; `balance` is the proposer's current balance of `token`.
    /// In emergency mode the transfer happens at once under the guardrails;
    /// otherwise it becomes a multisig proposal (one pending per proposer,
    /// never two identical), recorded in the audit trail.
    pub fn propose_emergency_transfer(
        &mut self,
        proposer: Address,
        token: Address,
        recipient: Address,
        amount: i128,
        balance: i128,
        now: u64,
    ) -> (r: Result<(u64, Option<Transfer>), Error>)
        requires
            old(self).wf(),
            propose_emergency_spec(old(self)@, proposer, token, recipient, amount, balance, now).1 is Ok,
        ensures
            final(self).wf(),
            (final(self)@, r) == propose_emergency_spec(
                old(self)@,
                proposer,
                token,
                recipient,
                amount,
                balance,
                now,
            ),
    {
        self.try_propose_emergency_transfer(proposer, token, recipient, amount, balance, now)
    }

    /// The same step on any input: a call that is not admitted above is
    /// answered with its refusal and changes nothing.
    pub fn try_propose_emergency_transfer(
        &mut self,
        proposer: Address,
        token: Address,
        recipient: Address,
        amount: i128,
        balance: i128,
        now: u64,
    ) -> (r: Result<(u64, Option<Transfer>), Error>)
        requires
            old(self).wf(),
        ensures
            final(self).wf(),
            (final(self)@, r) == propose_emergency_spec(
                old(self)@,
                proposer,
                token,
                recipient,
                amount,
                balance,
                now,
            ),
    {
        if self.paused {
            return Err(Error::ContractPaused);
        }
        if amount <= 0 {
            return Err(Error::InvalidAmount);
        }
        if self.em_mode {
            return self.emergency_now(proposer, token, recipient, amount, balance, now);
        }
        let data = TransactionData::EmergencyTransfer(token, recipient, amount);
        let ghost s = self@;
        proof {
            self.pending.lemma_keys();
        }
        let ghost ids = self.pending.keys();
        let n = self.pending.len();
        let mut same = false;
        let mut any = false;
        let mut i: usize = 0;
        while i < n
            invariant
                self.wf(),
                self@ == s,
                ids == self.pending.keys(),
                n == ids.len(),
                i <= n,
                same == exists|j: int|
                    0 <= j < i && s.pending[#[trigger] ids[j]].proposer == proposer
                        && s.pending[ids[j]].tx_type == TransactionType::EmergencyTransfer
                        && s.pending[ids[j]].data == data,
                any == exists|j: int|
                    0 <= j < i && s.pending[#[trigger] ids[j]].proposer == proposer
                        && s.pending[ids[j]].tx_type == TransactionType::EmergencyTransfer,
            decreases n - i,
        {
            let tx = self.pending.value_at(i);
            if tx.proposer == proposer && tx.tx_type == TransactionType::EmergencyTransfer {
                any = true;
                if tx.data == data {
                    same = true;
                }
            }
            i = i + 1;
        }
        proof {
            if has_identical_proposal(s, proposer, data) {
                let k = choose|k: u64|
                    #[trigger] s.pending.contains_key(k) && s.pending[k].proposer == proposer
                        && s.pending[k].tx_type == TransactionType::EmergencyTransfer && s.pending[k].data
                        == data;
                assert(ids.contains(k));
                let j = choose|j: int| 0 <= j < ids.len() && ids[j] == k;
                assert(s.pending[ids[j]].proposer == proposer);
            }
            if same {
                let j = choose|j: int|
                    0 <= j < n && s.pending[#[trigger] ids[j]].proposer == proposer
                        && s.pending[ids[j]].tx_type == TransactionType::EmergencyTransfer
                        && s.pending[ids[j]].data == data;
                assert(ids.contains(ids[j]));
                assert(s.pending.contains_key(ids[j]));
            }
            if has_emergency_proposal(s, proposer) {
                let k = choose|k: u64|
                    #[trigger] s.pending.contains_key(k) && s.pending[k].proposer == proposer
                        && s.pending[k].tx_type == TransactionType::EmergencyTransfer;
                assert(ids.contains(k));
                let j = choose|j: int| 0 <= j < ids.len() && ids[j] == k;
                assert(s.pending[ids[j]].proposer == proposer);
            }
            if any {
                let j = choose|j: int|
                    0 <= j < n && s.pending[#[trigger] ids[j]].proposer == proposer
                        && s.pending[ids[j]].tx_type == TransactionType::EmergencyTransfer;
                assert(ids.contains(ids[j]));
                assert(s.pending.contains_key(ids[j]));
            }
        }
        if same {
            return Err(Error::DuplicateEmergencyProposal);
        }
        if any {
            return Err(Error::EmergencyProposalPending);
        }
        match self.try_propose_transaction(proposer, TransactionType::EmergencyTransfer, data, now) {
            Err(e) => Err(e),
            Ok((id, tr)) => {
                self.record_audit(AuditOp::EmergencyProposal, proposer, Some(recipient), now);
                Ok((id, tr))
            },
        }
    }

    /// The emergency guardrails, if set.
    pub fn get_emergency_config(&self) -> (r: Option<EmergencyConfig>)
        ensures
            r == self@.em_config,
    {
        self.em_config
    }

    /// The emergency volume recorded for the day of the last emergency
    /// transfer.
    pub fn get_emergency_volume(&self) -> (v: i128)
        ensures
            v == self@.em_vol,
    {
        self.em_vol
    }

    /// Whether emergency mode is on.
    pub fn is_emergency_mode(&self) -> (b: bool)
        ensures
            b == self@.em_mode,
    {
        self.em_mode
    }

    /// The time of the last emergency transfer, if any.
    pub fn get_last_emergency_at(&self) -> (r: Option<u64>)
        ensures
            r == (if self@.em_last == 0 {
                None
            } else {
                Some(self@.em_last)
            }),
    {
        if self.em_last == 0 {
            None
        } else {
            Some(self.em_last)
        }
    }
}

} // verus!

//! The bounty escrow contract.
//!
//! [`BountyEscrowContract`] owns one escrow record per bounty identifier
//! and moves each through the lock / release / refund lifecycle, guarded
//! by per-actor admission control.  Every operation is specified against
//! the spec transitions of [`crate::model`]: the state after a call is
//! exactly what the transition computes, and a rejected call leaves the
//! state untouched.
//!
//! The host is expected to authenticate callers before invoking the
//! privileged operations ([`BountyEscrowContract::approve_refund`],
//! [`BountyEscrowContract::update_rate_limit_config`],
//! [`BountyEscrowContract::set_whitelist`]) and to read `now` from its
//! monotonic clock.

use vstd::prelude::*;
use crate::kv;
use crate::model::{
    account_balance, credited, guard_step, has_bounty, history_of, initial_model, inv,
    lemma_approve_inv, lemma_initial_inv, lemma_lock_inv, lemma_mint_inv, lemma_refund_inv,
    lemma_release_inv, lemma_set_whitelist_inv, lemma_sum_accounts_bound,
    lemma_sum_accounts_nonneg, lemma_sum_remaining_bound, lemma_update_config_inv, slot_of,
    spec_approve, spec_lock, spec_mint, spec_refund, spec_release, spec_set_whitelist,
    spec_update_config, LedgerModel,
};
use crate::types::{
    ActorActivity, Error, Escrow, EscrowSlot, EscrowStatus, RateLimitConfig, RefundApproval,
    RefundMode, RefundRecord, DEFAULT_COOLDOWN_PERIOD, DEFAULT_MAX_OPERATIONS,
    DEFAULT_WINDOW_SIZE,
};

verus! {

/// Adds `amt` to the balance of `who`, creating the account if needed.
fn credit_account(accounts: &mut Vec<(u64, i128)>, who: u64, amt: i128)
    requires
        kv::unique_keys(old(accounts)@),
        forall|j: int| 0 <= j < old(accounts)@.len() ==> (#[trigger] old(accounts)@[j]).1 >= 0,
        amt >= 0,
        account_balance(old(accounts)@, who) + amt <= i128::MAX,
    ensures
        final(accounts)@ == credited(old(accounts)@, who, amt),
{
    let found = kv::find(accounts, who);
    match found {
        Some(i) => {
            let b = accounts[i].1;
            proof {
                kv::lemma_index_of_unique(accounts@, who, i as int);
            }
            accounts.set(i, (who, b + amt));
        },
        None => {
            accounts.push((who, amt));
        },
    }
}

/// An escrow ledger over one fungible asset.
///
/// Token balances are bookkeeping: [`BountyEscrowContract::mint`] issues
/// units to an external account, locking moves them into the contract's
/// holding account, and releases and refunds move them back out.
pub struct BountyEscrowContract {
    admin: u64,
    slots: Vec<(u64, EscrowSlot)>,
    journal: Vec<(u64, RefundRecord)>,
    config: RateLimitConfig,
    activities: Vec<(u64, ActorActivity)>,
    accounts: Vec<(u64, i128)>,
    holding: i128,
    total_supply: i128,
}

impl View for BountyEscrowContract {
    type V = LedgerModel;

    closed spec fn view(&self) -> LedgerModel {
        LedgerModel {
            admin: self.admin,
            slots: self.slots@,
            journal: self.journal@,
            config: self.config,
            activities: self.activities@,
            accounts: self.accounts@,
            holding: self.holding,
            total_supply: self.total_supply,
        }
    }
}

impl BountyEscrowContract {
    /// The ledger is well formed; established by [`Self::new`] and kept
    /// by every operation.
    pub open spec fn wf(&self) -> bool {
        inv(self@)
    }

    /// Creates an empty ledger administered by `admin`, with the
    /// conservative default admission-control settings.
    pub fn new(admin: u64) -> (c: Self)
        ensures
            c@ == initial_model(admin),
            c.wf(),
    {
        let c = BountyEscrowContract {
            admin,
            slots: Vec::new(),
            journal: Vec::new(),
            config: RateLimitConfig {
                window_size: DEFAULT_WINDOW_SIZE,
                max_operations: DEFAULT_MAX_OPERATIONS,
                cooldown_period: DEFAULT_COOLDOWN_PERIOD,
            },
            activities: Vec::new(),
            accounts: Vec::new(),
            holding: 0,
            total_supply: 0,
        };
        proof {
            lemma_initial_inv(admin);
            assert(c@ =~~= initial_model(admin));
        }
        c
    }

    /// Issues `amount` fresh tokens to the external account `account`.
    ///
    /// Rejects a negative amount with `InvalidAmount` and an issue that
    /// would push the supply past `i128::MAX` with `Overflow`.
    pub fn mint(&mut self, account: u64, amount: i128) -> (r: Result<(), Error>)
        requires
            old(self).wf(),
        ensures
            final(self).wf(),
            (final(self)@, r) == spec_mint(old(self)@, account, amount),
    {
        proof {
            lemma_mint_inv(old(self)@, account, amount);
        }
        if amount < 0 {
            return Err(Error::InvalidAmount);
        }
        proof {
            lemma_sum_accounts_nonneg(self@.accounts);
            assert(self@.total_supply >= 0);
        }
        if amount > i128::MAX - self.total_supply {
            return Err(Error::Overflow);
        }
        let found = kv::find(&self.accounts, account);
        match found {
            Some(i) => {
                let b = self.accounts[i].1;
                proof {
                    kv::lemma_index_of_unique(self@.accounts, account, i as int);
                    lemma_sum_accounts_bound(self@.accounts, i as int);
                }
                self.accounts.set(i, (account, b + amount));
            },
            None => {
                self.accounts.push((account, amount));
            },
        }
        self.total_supply = self.total_supply + amount;
        proof {
            assert(self@ =~~= spec_mint(old(self)@, account, amount).0);
        }
        Ok(())
    }

    /// The token balance of the external account `who`.
    pub fn balance_of(&self, who: u64) -> (r: i128)
        requires
            self.wf(),
        ensures
            r == account_balance(self@.accounts, who),
    {
        let found = kv::find(&self.accounts, who);
        match found {
            Some(i) => {
                proof {
                    kv::lemma_index_of_unique(self@.accounts, who, i as int);
                }
                self.accounts[i].1
            },
            None => 0,
        }
    }

    /// The total value currently held in escrow: the holding account's
    /// balance, which equals the sum of all remaining amounts.
    pub fn get_balance(&self) -> (r: i128)
        ensures
            r == self@.holding,
    {
        self.holding
    }

    /// The current admission-control settings.
    pub fn get_rate_limit_config(&self) -> (r: RateLimitConfig)
        ensures
            r == self@.config,
    {
        self.config
    }

    /// Evaluates the admission gate for `actor` at time `now` without
    /// committing anything.  `Ok(Some(a))` means the operation may go
    /// through and `a` is the activity record to store; `Ok(None)` means
    /// the actor is whitelisted and no counters change.
    fn guard_eval(&self, actor: u64, now: u64) -> (r: Result<Option<ActorActivity>, Error>)
        requires
            self.wf(),
        ensures
            match r {
                Err(e) => guard_step(self@.config, self@.activities, actor, now) == (
                    Err::<(), Error>(e),
                    self@.activities,
                ),
                Ok(upd) => guard_step(self@.config, self@.activities, actor, now) == (
                    Ok::<(), Error>(()),
                    match upd {
                        None => self@.activities,
                        Some(a) => kv::upsert(self@.activities, actor, a),
                    },
                ),
            },
    {
        let found = kv::find(&self.activities, actor);
        match found {
            None => {
                if self.config.max_operations == 0 {
                    Err(Error::RateLimitExceeded)
                } else {
                    Ok(
                        Some(
                            ActorActivity {
                                last_operation_time: now,
                                operation_count: 1,
                                window_start_time: now,
                                whitelisted: false,
                            },
                        ),
                    )
                }
            },
            Some(i) => {
                proof {
                    kv::lemma_index_of_unique(self@.activities, actor, i as int);
                }
                let a = self.activities[i].1;
                if a.whitelisted {
                    Ok(None)
                } else {
                    let since_last: u64 = if now >= a.last_operation_time {
                        now - a.last_operation_time
                    } else {
                        0
                    };
                    if since_last < self.config.cooldown_period {
                        Err(Error::CooldownActive)
                    } else {
                        let since_window: u64 = if now >= a.window_start_time {
                            now - a.window_start_time
                        } else {
                            0
                        };
                        let fresh_window = since_window >= self.config.window_size;
                        let count: u32 = if fresh_window {
                            0
                        } else {
                            a.operation_count
                        };
                        let wstart: u64 = if fresh_window {
                            now
                        } else {
                            a.window_start_time
                        };
                        if count >= self.config.max_operations {
                            Err(Error::RateLimitExceeded)
                        } else {
                            Ok(
                                Some(
                                    ActorActivity {
                                        last_operation_time: now,
                                        operation_count: count + 1,
                                        window_start_time: wstart,
                                        whitelisted: false,
                                    },
                                ),
                            )
                        }
                    }
                }
            },
        }
    }

    /// Locks `amount` tokens of `depositor` under the fresh identifier
    /// `bounty_id`, to be held until released, refunded, or reclaimed
    /// after `deadline`.  The host must have authenticated the
    /// depositor before the call.
    ///
    /// The call fails with `BountyExists` on an identifier already in
    /// use; with `CooldownActive` or `RateLimitExceeded` when the
    /// admission gate rejects the depositor; with `InvalidAmount` on a
    /// non-positive amount; and with `InsufficientBalance` when the
    /// depositor's account cannot cover the amount.  A failed call
    /// changes nothing.
    pub fn lock_funds(
        &mut self,
        depositor: u64,
        bounty_id: u64,
        amount: i128,
        deadline: u64,
        now: u64,
    ) -> (r: Result<(), Error>)
        requires
            old(self).wf(),
        ensures
            final(self).wf(),
            (final(self)@, r) == spec_lock(old(self)@, depositor, bounty_id, amount, deadline, now),
    {
        proof {
            lemma_lock_inv(old(self)@, depositor, bounty_id, amount, deadline, now);
        }
        let found = kv::find(&self.slots, bounty_id);
        if let Some(i) = found {
            proof {
                assert(self@.slots[i as int].0 == bounty_id);
            }
            return Err(Error::BountyExists);
        }
        let guard = self.guard_eval(depositor, now);
        let upd = match guard {
            Err(e) => {
                return Err(e);
            },
            Ok(u) => u,
        };
        if amount <= 0 {
            return Err(Error::InvalidAmount);
        }
        let bal = self.balance_of(depositor);
        if bal < amount {
            return Err(Error::InsufficientBalance);
        }
        proof {
            assert(kv::has_key(self@.accounts, depositor));
            let di = kv::index_of(self@.accounts, depositor);
            lemma_sum_accounts_bound(self@.accounts, di);
            assert(self@.holding + amount <= self@.total_supply);
        }
        match upd {
            Some(a) => {
                kv::store(&mut self.activities, depositor, a);
            },
            None => {},
        }
        let dfound = kv::find(&self.accounts, depositor);
        if let Some(di) = dfound {
            let b = self.accounts[di].1;
            proof {
                kv::lemma_index_of_unique(self@.accounts, depositor, di as int);
            }
            self.accounts.set(di, (depositor, b - amount));
        } else {
            proof {
                assert(false);
            }
            return Err(Error::InsufficientBalance);
        }
        self.slots.push(
            (
                bounty_id,
                EscrowSlot {
                    escrow: Escrow {
                        depositor,
                        amount,
                        remaining_amount: amount,
                        status: EscrowStatus::Locked,
                        deadline,
                    },
                    approval: None,
                },
            ),
        );
        self.holding = self.holding + amount;
        proof {
            assert(self@ =~~= spec_lock(
                old(self)@,
                depositor,
                bounty_id,
                amount,
                deadline,
                now,
            ).0);
        }
        Ok(())
    }

    /// Releases the full remaining amount of a locked bounty to
    /// `recipient` and closes the record as `Released`.
    ///
    /// Fails with `BountyNotFound` on an unknown identifier and with
    /// `FundsNotLocked` on any status other than `Locked`, so a second
    /// release of the same bounty always fails.  A failed call changes
    /// nothing.
    pub fn release_funds(&mut self, bounty_id: u64, recipient: u64) -> (r: Result<(), Error>)
        requires
            old(self).wf(),
        ensures
            final(self).wf(),
            (final(self)@, r) == spec_release(old(self)@, bounty_id, recipient),
    {
        proof {
            lemma_release_inv(old(self)@, bounty_id, recipient);
        }
        let found = kv::find(&self.slots, bounty_id);
        let i = match found {
            None => {
                return Err(Error::BountyNotFound);
            },
            Some(i) => i,
        };
        proof {
            kv::lemma_index_of_unique(self@.slots, bounty_id, i as int);
        }
        let slot = self.slots[i].1;
        match slot.escrow.status {
            EscrowStatus::Locked => {},
            _ => {
                return Err(Error::FundsNotLocked);
            },
        }
        let paid = slot.escrow.remaining_amount;
        proof {
            assert(crate::model::slot_inv(self@, i as int));
            assert forall|j: int|
                0 <= j < self@.slots.len() implies (
            #[trigger] self@.slots[j]).1.escrow.remaining_amount >= 0 by {
                assert(crate::model::slot_inv(self@, j));
            }
            lemma_sum_remaining_bound(self@.slots, i as int);
            if kv::has_key(self@.accounts, recipient) {
                let r2 = kv::index_of(self@.accounts, recipient);
                lemma_sum_accounts_bound(self@.accounts, r2);
            } else {
                lemma_sum_accounts_nonneg(self@.accounts);
            }
        }
        credit_account(&mut self.accounts, recipient, paid);
        self.slots.set(
            i,
            (
                bounty_id,
                EscrowSlot {
                    escrow: Escrow {
                        remaining_amount: 0,
                        status: EscrowStatus::Released,
                        ..slot.escrow
                    },
                    ..slot
                },
            ),
        );
        self.holding = self.holding - paid;
        proof {
            assert(self@ =~~= spec_release(old(self)@, bounty_id, recipient).0);
        }
        Ok(())
    }

    /// Executes a refund on `bounty_id` in the requested mode.
    ///
    /// `Full` pays the whole remaining amount and needs no supplied
    /// amount or recipient; `Partial` pays a supplied amount to the
    /// depositor; `Custom` pays a supplied amount to a supplied
    /// recipient.  Before the deadline, `Partial` and `Custom` go
    /// through only on a stored approval matching the payout exactly,
    /// and `Full` never does.  A matching approval is consumed by the
    /// refund it authorises.  A failed call changes nothing.
    pub fn refund(
        &mut self,
        bounty_id: u64,
        amount: Option<i128>,
        recipient: Option<u64>,
        mode: RefundMode,
        now: u64,
    ) -> (r: Result<(), Error>)
        requires
            old(self).wf(),
        ensures
            final(self).wf(),
            (final(self)@, r) == spec_refund(old(self)@, bounty_id, amount, recipient, mode, now),
    {
        proof {
            lemma_refund_inv(old(self)@, bounty_id, amount, recipient, mode, now);
        }
        let found = kv::find(&self.slots, bounty_id);
        let i = match found {
            None => {
                return Err(Error::BountyNotFound);
            },
            Some(i) => i,
        };
        proof {
            kv::lemma_index_of_unique(self@.slots, bounty_id, i as int);
        }
        let slot = self.slots[i].1;
        let e = slot.escrow;
        let eligible = match e.status {
            EscrowStatus::Locked | EscrowStatus::PartiallyRefunded => true,
            _ => false,
        };
        if !eligible {
            return Err(Error::FundsNotLocked);
        }
        let deadline_passed = now > e.deadline;
        let recip = match recipient {
            Some(r2) => r2,
            None => e.depositor,
        };
        let approved = match (slot.approval, amount) {
            (Some(a), Some(amt)) => a.amount == amt && a.recipient == recip && a.mode == mode,
            _ => false,
        };
        let is_full = matches!(mode, RefundMode::Full);
        let is_custom = matches!(mode, RefundMode::Custom);
        if !(deadline_passed || (!is_full && approved)) {
            if is_custom {
                return Err(Error::RefundNotApproved);
            } else {
                return Err(Error::DeadlineNotPassed);
            }
        }
        let amount_ok = match mode {
            RefundMode::Full => true,
            RefundMode::Partial => match amount {
                Some(a) => 0 < a && a <= e.remaining_amount,
                None => false,
            },
            RefundMode::Custom => recipient.is_some() && match amount {
                Some(a) => 0 < a && a <= e.remaining_amount,
                None => false,
            },
        };
        if !amount_ok {
            return Err(Error::InvalidAmount);
        }
        let paid = if is_full {
            e.remaining_amount
        } else {
            match amount {
                Some(a) => a,
                None => 0,
            }
        };
        proof {
            assert(crate::model::slot_inv(self@, i as int));
            assert forall|j: int|
                0 <= j < self@.slots.len() implies (
            #[trigger] self@.slots[j]).1.escrow.remaining_amount >= 0 by {
                assert(crate::model::slot_inv(self@, j));
            }
            lemma_sum_remaining_bound(self@.slots, i as int);
            if kv::has_key(self@.accounts, recip) {
                let r2 = kv::index_of(self@.accounts, recip);
                lemma_sum_accounts_bound(self@.accounts, r2);
            } else {
                lemma_sum_accounts_nonneg(self@.accounts);
            }
        }
        let consumed = match slot.approval {
            Some(a) => a.amount == paid && a.recipient == recip && a.mode == mode,
            None => false,
        };
        let new_remaining = e.remaining_amount - paid;
        let new_status = if new_remaining == 0 {
            EscrowStatus::Refunded
        } else {
            EscrowStatus::PartiallyRefunded
        };
        credit_account(&mut self.accounts, recip, paid);
        self.slots.set(
            i,
            (
                bounty_id,
                EscrowSlot {
                    escrow: Escrow { remaining_amount: new_remaining, status: new_status, ..e },
                    approval: if consumed {
                        None
                    } else {
                        slot.approval
                    },
                },
            ),
        );
        self.journal.push(
            (bounty_id, RefundRecord { amount: paid, recipient: recip, mode, timestamp: now }),
        );
        self.holding = self.holding - paid;
        proof {
            assert(self@ =~~= spec_refund(old(self)@, bounty_id, amount, recipient, mode, now).0);
        }
        Ok(())
    }

    /// Stores a pre-authorised refund for `bounty_id`, overwriting any
    /// earlier one.  The host must have authenticated the privileged
    /// actor; the approval records that actor as `approved_by`.  Amounts
    /// are validated when the refund executes, not here.
    pub fn approve_refund(
        &mut self,
        bounty_id: u64,
        amount: i128,
        recipient: u64,
        mode: RefundMode,
    ) -> (r: Result<(), Error>)
        requires
            old(self).wf(),
        ensures
            final(self).wf(),
            (final(self)@, r) == spec_approve(old(self)@, bounty_id, amount, recipient, mode),
    {
        proof {
            lemma_approve_inv(old(self)@, bounty_id, amount, recipient, mode);
        }
        let found = kv::find(&self.slots, bounty_id);
        let i = match found {
            None => {
                return Err(Error::BountyNotFound);
            },
            Some(i) => i,
        };
        proof {
            kv::lemma_index_of_unique(self@.slots, bounty_id, i as int);
        }
        let slot = self.slots[i].1;
        let admin = self.admin;
        self.slots.set(
            i,
            (
                bounty_id,
                EscrowSlot {
                    approval: Some(RefundApproval { amount, recipient, mode, approved_by: admin }),
                    ..slot
                },
            ),
        );
        proof {
            assert(self@ =~~= spec_approve(old(self)@, bounty_id, amount, recipient, mode).0);
        }
        Ok(())
    }

    /// Read-only view of a bounty's refund admissibility: whether a
    /// refund could run now, whether the deadline has passed strictly,
    /// the remaining amount, and the stored approval, if any.
    pub fn get_refund_eligibility(&self, bounty_id: u64, now: u64) -> (r: Result<
        (bool, bool, i128, Option<RefundApproval>),
        Error,
    >)
        requires
            self.wf(),
        ensures
            r == if has_bounty(self@, bounty_id) {
                let slot = slot_of(self@, bounty_id);
                let dp = now > slot.escrow.deadline;
                Ok::<(bool, bool, i128, Option<RefundApproval>), Error>(
                    (dp || slot.approval is Some, dp, slot.escrow.remaining_amount, slot.approval),
                )
            } else {
                Err::<(bool, bool, i128, Option<RefundApproval>), Error>(Error::BountyNotFound)
            },
    {
        let found = kv::find(&self.slots, bounty_id);
        match found {
            None => Err(Error::BountyNotFound),
            Some(i) => {
                proof {
                    kv::lemma_index_of_unique(self@.slots, bounty_id, i as int);
                }
                let slot = self.slots[i].1;
                let dp = now > slot.escrow.deadline;
                let can_refund = dp || slot.approval.is_some();
                Ok((can_refund, dp, slot.escrow.remaining_amount, slot.approval))
            },
        }
    }

    /// The ordered refund history of `bounty_id`.
    pub fn get_refund_history(&self, bounty_id: u64) -> (r: Result<Vec<RefundRecord>, Error>)
        requires
            self.wf(),
        ensures
            match r {
                Ok(h) => has_bounty(self@, bounty_id) && h@ == history_of(
                    self@.journal,
                    bounty_id,
                ),
                Err(e) => !has_bounty(self@, bounty_id) && e == Error::BountyNotFound,
            },
    {
        let found = kv::find(&self.slots, bounty_id);
        if found.is_none() {
            return Err(Error::BountyNotFound);
        }
        proof {
            if let Some(i) = found {
                assert(self@.slots[i as int].0 == bounty_id);
            }
        }
        let mut out: Vec<RefundRecord> = Vec::new();
        let mut j: usize = 0;
        while j < self.journal.len()
            invariant
                j <= self@.journal.len(),
                out@ == history_of(self@.journal.subrange(0, j as int), bounty_id),
            decreases self@.journal.len() - j,
        {
            let p = self.journal[j];
            proof {
                assert(self@.journal.subrange(0, j as int + 1).drop_last() =~= self@.journal
                    .subrange(0, j as int));
                assert(self@.journal.subrange(0, j as int + 1).last() == self@.journal[j as int]);
            }
            if p.0 == bounty_id {
                out.push(p.1);
            }
            j = j + 1;
        }
        proof {
            assert(self@.journal.subrange(0, self@.journal.len() as int) =~= self@.journal);
        }
        Ok(out)
    }

    /// Replaces the admission-control settings; takes effect on the next
    /// guarded operation and resets no existing windows.  The host must
    /// have authenticated the privileged actor.
    pub fn update_rate_limit_config(
        &mut self,
        window_size: u64,
        max_operations: u32,
        cooldown_period: u64,
    )
        requires
            old(self).wf(),
        ensures
            final(self).wf(),
            final(self)@ == spec_update_config(
                old(self)@,
                window_size,
                max_operations,
                cooldown_period,
            ),
    {
        proof {
            lemma_update_config_inv(old(self)@, window_size, max_operations, cooldown_period);
        }
        self.config = RateLimitConfig { window_size, max_operations, cooldown_period };
        proof {
            assert(self@ =~~= spec_update_config(
                old(self)@,
                window_size,
                max_operations,
                cooldown_period,
            ));
        }
    }

    /// Sets or clears an actor's whitelist flag.  The host must have
    /// authenticated the privileged actor.
    pub fn set_whitelist(&mut self, actor: u64, whitelisted: bool)
        requires
            old(self).wf(),
        ensures
            final(self).wf(),
            final(self)@ == spec_set_whitelist(old(self)@, actor, whitelisted),
    {
        proof {
            lemma_set_whitelist_inv(old(self)@, actor, whitelisted);
        }
        let found = kv::find(&self.activities, actor);
        let base = match found {
            Some(i) => {
                proof {
                    kv::lemma_index_of_unique(self@.activities, actor, i as int);
                }
                self.activities[i].1
            },
            None => ActorActivity {
                last_operation_time: 0,
                operation_count: 0,
                window_start_time: 0,
                whitelisted: false,
            },
        };
        kv::store(&mut self.activities, actor, ActorActivity { whitelisted, ..base });
        proof {
            assert(self@ =~~= spec_set_whitelist(old(self)@, actor, whitelisted));
        }
    }

    /// The escrow record stored under `bounty_id`.
    pub fn get_escrow_info(&self, bounty_id: u64) -> (r: Result<Escrow, Error>)
        requires
            self.wf(),
        ensures
            r == if has_bounty(self@, bounty_id) {
                Ok::<Escrow, Error>(slot_of(self@, bounty_id).escrow)
            } else {
                Err::<Escrow, Error>(Error::BountyNotFound)
            },
    {
        let found = kv::find(&self.slots, bounty_id);
        match found {
            Some(i) => {
                proof {
                    kv::lemma_index_of_unique(self@.slots, bounty_id, i as int);
                }
                Ok(self.slots[i].1.escrow)
            },
            None => Err(Error::BountyNotFound),
        }
    }
}

} // verus!

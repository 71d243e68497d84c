//! Mathematical model of the bounty escrow ledger.
//!
//! [`LedgerModel`] is the abstract state every contract of
//! [`crate::escrow`] is specified against: each executable operation
//! promises to land exactly on the state its spec transition computes.
//! The transitions validate strictly before they touch anything, so a
//! rejected operation returns the model unchanged.

use vstd::prelude::*;
use crate::kv;
use crate::types::{
    ActorActivity, Error, Escrow, EscrowSlot, EscrowStatus, RateLimitConfig, RefundApproval,
    RefundMode, RefundRecord,
};

verus! {

/// Abstract state of one escrow contract.
#[verifier::ext_equal]
pub struct LedgerModel {
    /// The privileged actor recorded at construction.
    pub admin: u64,
    /// Escrow records with their pending approvals, keyed by bounty
    /// identifier.
    pub slots: Seq<(u64, EscrowSlot)>,
    /// Append-only journal of every executed refund, tagged with its
    /// bounty identifier.
    pub journal: Seq<(u64, RefundRecord)>,
    /// Admission-control settings.
    pub config: RateLimitConfig,
    /// Per-actor admission-control state.
    pub activities: Seq<(u64, ActorActivity)>,
    /// Token balances of external accounts.
    pub accounts: Seq<(u64, i128)>,
    /// Token balance of the contract's own holding account.
    pub holding: i128,
    /// Total tokens issued across the holding account and all external
    /// accounts.
    pub total_supply: i128,
}

// ---------------------------------------------------------------------------
// Sums and per-bounty projections
// ---------------------------------------------------------------------------

/// Sum of the still-payable amounts over all escrow records.
pub open spec fn sum_remaining(s: Seq<(u64, EscrowSlot)>) -> int
    decreases s.len(),
{
    if s.len() == 0 {
        0
    } else {
        sum_remaining(s.drop_last()) + s.last().1.escrow.remaining_amount
    }
}

/// Sum of all external account balances.
pub open spec fn sum_accounts(s: Seq<(u64, i128)>) -> int
    decreases s.len(),
{
    if s.len() == 0 {
        0
    } else {
        sum_accounts(s.drop_last()) + s.last().1
    }
}

/// Sum of the amounts of a refund history.
pub open spec fn sum_refunds(s: Seq<RefundRecord>) -> int
    decreases s.len(),
{
    if s.len() == 0 {
        0
    } else {
        sum_refunds(s.drop_last()) + s.last().amount
    }
}

/// The refund history of one bounty: the journal restricted to its
/// identifier, in execution order.
pub open spec fn history_of(journal: Seq<(u64, RefundRecord)>, id: u64) -> Seq<RefundRecord>
    decreases journal.len(),
{
    if journal.len() == 0 {
        Seq::empty()
    } else {
        let rest = history_of(journal.drop_last(), id);
        if journal.last().0 == id {
            rest.push(journal.last().1)
        } else {
            rest
        }
    }
}

/// Whether a record exists for `id`.
pub open spec fn has_bounty(m: LedgerModel, id: u64) -> bool {
    kv::has_key(m.slots, id)
}

/// The slot stored under `id`; meaningful only when `has_bounty(m, id)`.
pub open spec fn slot_of(m: LedgerModel, id: u64) -> EscrowSlot {
    kv::value_of(m.slots, id)
}

/// Balance of the external account `who`; absent accounts hold zero.
pub open spec fn account_balance(accounts: Seq<(u64, i128)>, who: u64) -> int {
    if kv::has_key(accounts, who) {
        kv::value_of(accounts, who) as int
    } else {
        0
    }
}

/// `accounts` after adding `amt` to the balance of `who`.
pub open spec fn credited(accounts: Seq<(u64, i128)>, who: u64, amt: i128) -> Seq<(u64, i128)> {
    kv::upsert(accounts, who, (account_balance(accounts, who) + amt) as i128)
}

/// `accounts` after taking `amt` from the balance of `who`.
pub open spec fn debited(accounts: Seq<(u64, i128)>, who: u64, amt: i128) -> Seq<(u64, i128)> {
    kv::upsert(accounts, who, (account_balance(accounts, who) - amt) as i128)
}

// ---------------------------------------------------------------------------
// Admission control
// ---------------------------------------------------------------------------

/// Seconds from `since` to `now` under a monotonic clock; zero when `now`
/// reads earlier.
pub open spec fn elapsed(now: u64, since: u64) -> int {
    if now >= since {
        now - since
    } else {
        0
    }
}

/// The admission decision for `actor` at time `now`, together with the
/// activity table to commit when the guarded operation goes through.
///
/// An actor without an activity record has no prior operation, so no
/// cooldown applies; its first window opens at `now`.  Whitelisted actors
/// pass unconditionally and their counters stay untouched.  A rejection
/// leaves the table unchanged.
pub open spec fn guard_step(
    config: RateLimitConfig,
    acts: Seq<(u64, ActorActivity)>,
    actor: u64,
    now: u64,
) -> (Result<(), Error>, Seq<(u64, ActorActivity)>) {
    if !kv::has_key(acts, actor) {
        if config.max_operations == 0 {
            (Err(Error::RateLimitExceeded), acts)
        } else {
            let fresh = ActorActivity {
                last_operation_time: now,
                operation_count: 1,
                window_start_time: now,
                whitelisted: false,
            };
            (Ok(()), kv::upsert(acts, actor, fresh))
        }
    } else {
        let a = kv::value_of(acts, actor);
        if a.whitelisted {
            (Ok(()), acts)
        } else if elapsed(now, a.last_operation_time) < config.cooldown_period {
            (Err(Error::CooldownActive), acts)
        } else {
            let fresh_window = elapsed(now, a.window_start_time) >= config.window_size;
            let count = if fresh_window {
                0u32
            } else {
                a.operation_count
            };
            let wstart = if fresh_window {
                now
            } else {
                a.window_start_time
            };
            if count >= config.max_operations {
                (Err(Error::RateLimitExceeded), acts)
            } else {
                let updated = ActorActivity {
                    last_operation_time: now,
                    operation_count: (count + 1) as u32,
                    window_start_time: wstart,
                    whitelisted: false,
                };
                (Ok(()), kv::upsert(acts, actor, updated))
            }
        }
    }
}

// ---------------------------------------------------------------------------
// Transitions
// ---------------------------------------------------------------------------

/// The state a freshly constructed contract starts in.
pub open spec fn initial_model(admin: u64) -> LedgerModel {
    LedgerModel {
        admin,
        slots: Seq::empty(),
        journal: Seq::empty(),
        config: RateLimitConfig {
            window_size: crate::types::DEFAULT_WINDOW_SIZE,
            max_operations: crate::types::DEFAULT_MAX_OPERATIONS,
            cooldown_period: crate::types::DEFAULT_COOLDOWN_PERIOD,
        },
        activities: Seq::empty(),
        accounts: Seq::empty(),
        holding: 0,
        total_supply: 0,
    }
}

/// Issuing `amount` fresh tokens to the external account `who`.
pub open spec fn spec_mint(m: LedgerModel, who: u64, amount: i128) -> (LedgerModel, Result<
    (),
    Error,
>) {
    if amount < 0 {
        (m, Err(Error::InvalidAmount))
    } else if m.total_supply + amount > i128::MAX {
        (m, Err(Error::Overflow))
    } else {
        (
            LedgerModel {
                accounts: credited(m.accounts, who, amount),
                total_supply: (m.total_supply + amount) as i128,
                ..m
            },
            Ok(()),
        )
    }
}

/// Locking `amount` tokens of `depositor` under the fresh identifier
/// `bounty_id`.
///
/// Validation order: an identifier already in use, the admission gate,
/// a non-positive amount, and finally the depositor's balance.  On
/// success the depositor's tokens move into the holding account and a
/// locked record is created.
pub open spec fn spec_lock(
    m: LedgerModel,
    depositor: u64,
    bounty_id: u64,
    amount: i128,
    deadline: u64,
    now: u64,
) -> (LedgerModel, Result<(), Error>) {
    if kv::has_key(m.slots, bounty_id) {
        (m, Err(Error::BountyExists))
    } else {
        let guard = guard_step(m.config, m.activities, depositor, now);
        match guard.0 {
            Err(e) => (m, Err(e)),
            Ok(_) => if amount <= 0 {
                (m, Err(Error::InvalidAmount))
            } else if account_balance(m.accounts, depositor) < amount {
                (m, Err(Error::InsufficientBalance))
            } else {
                let slot = EscrowSlot {
                    escrow: Escrow {
                        depositor,
                        amount,
                        remaining_amount: amount,
                        status: EscrowStatus::Locked,
                        deadline,
                    },
                    approval: None,
                };
                (
                    LedgerModel {
                        slots: m.slots.push((bounty_id, slot)),
                        activities: guard.1,
                        accounts: debited(m.accounts, depositor, amount),
                        holding: (m.holding + amount) as i128,
                        ..m
                    },
                    Ok(()),
                )
            },
        }
    }
}

/// Releasing the full remaining amount of a locked bounty to `recipient`.
pub open spec fn spec_release(m: LedgerModel, bounty_id: u64, recipient: u64) -> (LedgerModel, Result<
    (),
    Error,
>) {
    if !kv::has_key(m.slots, bounty_id) {
        (m, Err(Error::BountyNotFound))
    } else {
        let i = kv::index_of(m.slots, bounty_id);
        let slot = m.slots[i].1;
        let e = slot.escrow;
        if e.status != EscrowStatus::Locked {
            (m, Err(Error::FundsNotLocked))
        } else {
            let paid = e.remaining_amount;
            let slot2 = EscrowSlot {
                escrow: Escrow { remaining_amount: 0, status: EscrowStatus::Released, ..e },
                ..slot
            };
            (
                LedgerModel {
                    slots: m.slots.update(i, (bounty_id, slot2)),
                    accounts: credited(m.accounts, recipient, paid),
                    holding: (m.holding - paid) as i128,
                    ..m
                },
                Ok(()),
            )
        }
    }
}

/// Storing a pre-authorised refund for `bounty_id`, overwriting any
/// earlier one.  Amounts are validated only when the refund executes.
pub open spec fn spec_approve(
    m: LedgerModel,
    bounty_id: u64,
    amount: i128,
    recipient: u64,
    mode: RefundMode,
) -> (LedgerModel, Result<(), Error>) {
    if !kv::has_key(m.slots, bounty_id) {
        (m, Err(Error::BountyNotFound))
    } else {
        let i = kv::index_of(m.slots, bounty_id);
        let slot = m.slots[i].1;
        let slot2 = EscrowSlot {
            approval: Some(RefundApproval { amount, recipient, mode, approved_by: m.admin }),
            ..slot
        };
        (LedgerModel { slots: m.slots.update(i, (bounty_id, slot2)), ..m }, Ok(()))
    }
}

/// Whether a stored approval authorises exactly this payout.
pub open spec fn approval_matches(
    approval: Option<RefundApproval>,
    amount: i128,
    recipient: u64,
    mode: RefundMode,
) -> bool {
    match approval {
        Some(a) => a.amount == amount && a.recipient == recipient && a.mode == mode,
        None => false,
    }
}

/// The recipient a refund pays when none is supplied: the depositor.
pub open spec fn effective_recipient(e: Escrow, recipient: Option<u64>) -> u64 {
    match recipient {
        Some(r) => r,
        None => e.depositor,
    }
}

/// Executing a refund.
///
/// Validation order: the record must exist; its status must be `Locked`
/// or `PartiallyRefunded`; the request must be admissible — the deadline
/// has passed strictly, or for `Partial` and `Custom` a stored approval
/// matches the requested amount, recipient, and mode exactly; finally the
/// amount must be sane — `Full` ignores any supplied amount and pays the
/// whole remainder, while `Partial` and `Custom` need a supplied amount
/// in `(0, remaining]`, and `Custom` also needs a supplied recipient.
///
/// A successful refund pays out of the holding account, appends one
/// journal entry, and consumes the stored approval when it matches the
/// executed payout.
pub open spec fn spec_refund(
    m: LedgerModel,
    bounty_id: u64,
    amount: Option<i128>,
    recipient: Option<u64>,
    mode: RefundMode,
    now: u64,
) -> (LedgerModel, Result<(), Error>) {
    if !kv::has_key(m.slots, bounty_id) {
        (m, Err(Error::BountyNotFound))
    } else {
        let i = kv::index_of(m.slots, bounty_id);
        let slot = m.slots[i].1;
        let e = slot.escrow;
        if e.status != EscrowStatus::Locked && e.status != EscrowStatus::PartiallyRefunded {
            (m, Err(Error::FundsNotLocked))
        } else {
            let deadline_passed = now > e.deadline;
            let recip = effective_recipient(e, recipient);
            let approved = match amount {
                Some(a) => approval_matches(slot.approval, a, recip, mode),
                None => false,
            };
            let admissible = deadline_passed || (mode != RefundMode::Full && approved);
            if !admissible {
                if mode == RefundMode::Custom {
                    (m, Err(Error::RefundNotApproved))
                } else {
                    (m, Err(Error::DeadlineNotPassed))
                }
            } else {
                let amount_ok = match mode {
                    RefundMode::Full => true,
                    RefundMode::Partial => match amount {
                        Some(a) => 0 < a <= e.remaining_amount,
                        None => false,
                    },
                    RefundMode::Custom => recipient is Some && match amount {
                        Some(a) => 0 < a <= e.remaining_amount,
                        None => false,
                    },
                };
                if !amount_ok {
                    (m, Err(Error::InvalidAmount))
                } else {
                    let paid = if mode == RefundMode::Full {
                        e.remaining_amount
                    } else {
                        amount->0
                    };
                    let new_remaining = (e.remaining_amount - paid) as i128;
                    let new_status = if new_remaining == 0 {
                        EscrowStatus::Refunded
                    } else {
                        EscrowStatus::PartiallyRefunded
                    };
                    let consumed = approval_matches(slot.approval, paid, recip, mode);
                    let slot2 = EscrowSlot {
                        escrow: Escrow {
                            remaining_amount: new_remaining,
                            status: new_status,
                            ..e
                        },
                        approval: if consumed {
                            None
                        } else {
                            slot.approval
                        },
                    };
                    let record = RefundRecord { amount: paid, recipient: recip, mode, timestamp: now };
                    (
                        LedgerModel {
                            slots: m.slots.update(i, (bounty_id, slot2)),
                            journal: m.journal.push((bounty_id, record)),
                            accounts: credited(m.accounts, recip, paid),
                            holding: (m.holding - paid) as i128,
                            ..m
                        },
                        Ok(()),
                    )
                }
            }
        }
    }
}

/// Replacing the admission-control settings.
pub open spec fn spec_update_config(
    m: LedgerModel,
    window_size: u64,
    max_operations: u32,
    cooldown_period: u64,
) -> LedgerModel {
    LedgerModel {
        config: RateLimitConfig { window_size, max_operations, cooldown_period },
        ..m
    }
}

/// Setting or clearing an actor's whitelist flag; creates an inactive
/// activity record when the actor has none yet.
pub open spec fn spec_set_whitelist(m: LedgerModel, actor: u64, whitelisted: bool) -> LedgerModel {
    let base = if kv::has_key(m.activities, actor) {
        kv::value_of(m.activities, actor)
    } else {
        ActorActivity {
            last_operation_time: 0,
            operation_count: 0,
            window_start_time: 0,
            whitelisted: false,
        }
    };
    LedgerModel {
        activities: kv::upsert(m.activities, actor, ActorActivity { whitelisted, ..base }),
        ..m
    }
}

// ---------------------------------------------------------------------------
// Invariant
// ---------------------------------------------------------------------------

/// Well-formedness of one stored slot: the record's amounts are in range,
/// its status mirrors how much is left, and its refund history accounts
/// exactly for what has been paid out.
pub open spec fn slot_inv(m: LedgerModel, i: int) -> bool {
    let id = m.slots[i].0;
    let e = m.slots[i].1.escrow;
    &&& e.amount > 0
    &&& 0 <= e.remaining_amount <= e.amount
    &&& (e.remaining_amount == 0 <==> (e.status == EscrowStatus::Released || e.status
        == EscrowStatus::Refunded))
    &&& (0 < e.remaining_amount < e.amount ==> e.status == EscrowStatus::PartiallyRefunded)
    &&& sum_refunds(history_of(m.journal, id)) == if e.status == EscrowStatus::Released {
        0
    } else {
        e.amount - e.remaining_amount
    }
}

/// Well-formedness of the whole ledger.
///
/// Besides per-slot sanity it ties the books together: the holding
/// account's balance equals the sum of all still-payable amounts, and
/// the holding account plus all external accounts carry exactly the
/// issued supply.
pub open spec fn inv(m: LedgerModel) -> bool {
    &&& kv::unique_keys(m.slots)
    &&& kv::unique_keys(m.activities)
    &&& kv::unique_keys(m.accounts)
    &&& forall|i: int| 0 <= i < m.slots.len() ==> #[trigger] slot_inv(m, i)
    &&& forall|j: int|
        0 <= j < m.journal.len() ==> kv::has_key(m.slots, (#[trigger] m.journal[j]).0)
            && m.journal[j].1.amount > 0
    &&& forall|i: int| 0 <= i < m.accounts.len() ==> (#[trigger] m.accounts[i]).1 >= 0
    &&& m.holding >= 0
    &&& m.holding == sum_remaining(m.slots)
    &&& sum_accounts(m.accounts) + m.holding == m.total_supply
}

// ---------------------------------------------------------------------------
// Lemmas about sums and histories
// ---------------------------------------------------------------------------

/// Appending a slot adds its remaining amount to the total.
pub proof fn lemma_sum_remaining_push(s: Seq<(u64, EscrowSlot)>, p: (u64, EscrowSlot))
    ensures
        sum_remaining(s.push(p)) == sum_remaining(s) + p.1.escrow.remaining_amount,
{
    assert(s.push(p).drop_last() =~= s);
}

/// Replacing one slot shifts the total by the difference of the two
/// remaining amounts.
pub proof fn lemma_sum_remaining_update(s: Seq<(u64, EscrowSlot)>, i: int, p: (u64, EscrowSlot))
    requires
        0 <= i < s.len(),
    ensures
        sum_remaining(s.update(i, p)) == sum_remaining(s) - s[i].1.escrow.remaining_amount
            + p.1.escrow.remaining_amount,
    decreases s.len(),
{
    let t = s.update(i, p);
    if i == s.len() - 1 {
        assert(t.drop_last() =~= s.drop_last());
    } else {
        assert(t.drop_last() =~= s.drop_last().update(i, p));
        lemma_sum_remaining_update(s.drop_last(), i, p);
    }
}

/// With no negative remaining amounts, each slot's remaining amount is at
/// most the total.
pub proof fn lemma_sum_remaining_bound(s: Seq<(u64, EscrowSlot)>, i: int)
    requires
        0 <= i < s.len(),
        forall|j: int| 0 <= j < s.len() ==> (#[trigger] s[j]).1.escrow.remaining_amount >= 0,
    ensures
        s[i].1.escrow.remaining_amount <= sum_remaining(s),
    decreases s.len(),
{
    if i == s.len() - 1 {
        lemma_sum_remaining_nonneg(s.drop_last());
    } else {
        lemma_sum_remaining_bound(s.drop_last(), i);
    }
}

/// With no negative remaining amounts, the total is non-negative.
pub proof fn lemma_sum_remaining_nonneg(s: Seq<(u64, EscrowSlot)>)
    requires
        forall|j: int| 0 <= j < s.len() ==> (#[trigger] s[j]).1.escrow.remaining_amount >= 0,
    ensures
        sum_remaining(s) >= 0,
    decreases s.len(),
{
    if s.len() > 0 {
        lemma_sum_remaining_nonneg(s.drop_last());
    }
}

/// Appending an account adds its balance to the total.
pub proof fn lemma_sum_accounts_push(s: Seq<(u64, i128)>, p: (u64, i128))
    ensures
        sum_accounts(s.push(p)) == sum_accounts(s) + p.1,
{
    assert(s.push(p).drop_last() =~= s);
}

/// Replacing one account shifts the total by the difference of the two
/// balances.
pub proof fn lemma_sum_accounts_update(s: Seq<(u64, i128)>, i: int, p: (u64, i128))
    requires
        0 <= i < s.len(),
    ensures
        sum_accounts(s.update(i, p)) == sum_accounts(s) - s[i].1 + p.1,
    decreases s.len(),
{
    let t = s.update(i, p);
    if i == s.len() - 1 {
        assert(t.drop_last() =~= s.drop_last());
    } else {
        assert(t.drop_last() =~= s.drop_last().update(i, p));
        lemma_sum_accounts_update(s.drop_last(), i, p);
    }
}

/// With no negative balances, the total is non-negative.
pub proof fn lemma_sum_accounts_nonneg(s: Seq<(u64, i128)>)
    requires
        forall|j: int| 0 <= j < s.len() ==> (#[trigger] s[j]).1 >= 0,
    ensures
        sum_accounts(s) >= 0,
    decreases s.len(),
{
    if s.len() > 0 {
        lemma_sum_accounts_nonneg(s.drop_last());
    }
}

/// With no negative balances, each account's balance is at most the total.
pub proof fn lemma_sum_accounts_bound(s: Seq<(u64, i128)>, i: int)
    requires
        0 <= i < s.len(),
        forall|j: int| 0 <= j < s.len() ==> (#[trigger] s[j]).1 >= 0,
    ensures
        s[i].1 <= sum_accounts(s),
    decreases s.len(),
{
    if i == s.len() - 1 {
        lemma_sum_accounts_nonneg(s.drop_last());
    } else {
        lemma_sum_accounts_bound(s.drop_last(), i);
    }
}

/// Appending a refund record adds its amount to the history sum.
pub proof fn lemma_sum_refunds_push(s: Seq<RefundRecord>, r: RefundRecord)
    ensures
        sum_refunds(s.push(r)) == sum_refunds(s) + r.amount,
{
    assert(s.push(r).drop_last() =~= s);
}

/// A journal entry extends exactly the history of its own bounty.
pub proof fn lemma_history_push(journal: Seq<(u64, RefundRecord)>, p: (u64, RefundRecord), id: u64)
    ensures
        history_of(journal.push(p), id) == if p.0 == id {
            history_of(journal, id).push(p.1)
        } else {
            history_of(journal, id)
        },
{
    assert(journal.push(p).drop_last() =~= journal);
}

/// A bounty that never appears in the journal has an empty history.
pub proof fn lemma_history_absent(journal: Seq<(u64, RefundRecord)>, id: u64)
    requires
        forall|j: int| 0 <= j < journal.len() ==> (#[trigger] journal[j]).0 != id,
    ensures
        history_of(journal, id) =~= Seq::<RefundRecord>::empty(),
    decreases journal.len(),
{
    if journal.len() > 0 {
        lemma_history_absent(journal.drop_last(), id);
    }
}

// ---------------------------------------------------------------------------
// Lemmas about accounts
// ---------------------------------------------------------------------------

/// How crediting an account moves the books: the account's balance grows
/// by `amt`, the total grows by `amt`, other accounts keep their
/// balances, and no balance turns negative.
pub proof fn lemma_credited(accounts: Seq<(u64, i128)>, who: u64, amt: i128)
    requires
        kv::unique_keys(accounts),
        forall|j: int| 0 <= j < accounts.len() ==> (#[trigger] accounts[j]).1 >= 0,
        amt >= 0,
        account_balance(accounts, who) + amt <= i128::MAX,
    ensures
        kv::unique_keys(credited(accounts, who, amt)),
        sum_accounts(credited(accounts, who, amt)) == sum_accounts(accounts) + amt,
        account_balance(credited(accounts, who, amt), who) == account_balance(accounts, who) + amt,
        forall|w: u64|
            w != who ==> #[trigger] account_balance(credited(accounts, who, amt), w)
                == account_balance(accounts, w),
        forall|j: int|
            0 <= j < credited(accounts, who, amt).len() ==> (#[trigger] credited(
                accounts,
                who,
                amt,
            )[j]).1 >= 0,
{
    let t = credited(accounts, who, amt);
    let newv = (account_balance(accounts, who) + amt) as i128;
    kv::lemma_upsert(accounts, who, newv);
    if kv::has_key(accounts, who) {
        let i = kv::index_of(accounts, who);
        assert(0 <= i < accounts.len() && accounts[i].0 == who);
        assert(accounts[i].1 == account_balance(accounts, who));
        lemma_sum_accounts_update(accounts, i, (who, newv));
        assert(forall|j: int| 0 <= j < t.len() && j != i ==> t[j] == accounts[j]);
    } else {
        lemma_sum_accounts_push(accounts, (who, newv));
        assert(forall|j: int| 0 <= j < accounts.len() ==> t[j] == accounts[j]);
    }
    assert(kv::value_of(t, who) == newv);
    assert forall|w: u64|
        w != who implies #[trigger] account_balance(t, w) == account_balance(accounts, w) by {
        if kv::has_key(accounts, w) {
            assert(kv::value_of(t, w) == kv::value_of(accounts, w));
            assert(kv::has_key(t, w));
        } else {
            assert(!kv::has_key(t, w));
        }
    }
}

/// How debiting an account moves the books, when the account covers the
/// amount.
pub proof fn lemma_debited(accounts: Seq<(u64, i128)>, who: u64, amt: i128)
    requires
        kv::unique_keys(accounts),
        forall|j: int| 0 <= j < accounts.len() ==> (#[trigger] accounts[j]).1 >= 0,
        0 <= amt <= account_balance(accounts, who),
    ensures
        kv::unique_keys(debited(accounts, who, amt)),
        sum_accounts(debited(accounts, who, amt)) == sum_accounts(accounts) - amt,
        account_balance(debited(accounts, who, amt), who) == account_balance(accounts, who) - amt,
        forall|w: u64|
            w != who ==> #[trigger] account_balance(debited(accounts, who, amt), w)
                == account_balance(accounts, w),
        forall|j: int|
            0 <= j < debited(accounts, who, amt).len() ==> (#[trigger] debited(
                accounts,
                who,
                amt,
            )[j]).1 >= 0,
{
    let t = debited(accounts, who, amt);
    let newv = (account_balance(accounts, who) - amt) as i128;
    kv::lemma_upsert(accounts, who, newv);
    if kv::has_key(accounts, who) {
        let i = kv::index_of(accounts, who);
        assert(0 <= i < accounts.len() && accounts[i].0 == who);
        assert(accounts[i].1 == account_balance(accounts, who));
        lemma_sum_accounts_update(accounts, i, (who, newv));
        assert(forall|j: int| 0 <= j < t.len() && j != i ==> t[j] == accounts[j]);
    } else {
        assert(amt == 0);
        lemma_sum_accounts_push(accounts, (who, newv));
        assert(forall|j: int| 0 <= j < accounts.len() ==> t[j] == accounts[j]);
    }
    assert(kv::value_of(t, who) == newv);
    assert forall|w: u64|
        w != who implies #[trigger] account_balance(t, w) == account_balance(accounts, w) by {
        if kv::has_key(accounts, w) {
            assert(kv::value_of(t, w) == kv::value_of(accounts, w));
            assert(kv::has_key(t, w));
        } else {
            assert(!kv::has_key(t, w));
        }
    }
}

// ---------------------------------------------------------------------------
// Invariant preservation
// ---------------------------------------------------------------------------

/// The admission gate never breaks key uniqueness of the activity table.
pub proof fn lemma_guard_step_unique(
    config: RateLimitConfig,
    acts: Seq<(u64, ActorActivity)>,
    actor: u64,
    now: u64,
)
    requires
        kv::unique_keys(acts),
    ensures
        kv::unique_keys(guard_step(config, acts, actor, now).1),
{
    let out = guard_step(config, acts, actor, now).1;
    if !kv::has_key(acts, actor) {
        if config.max_operations != 0 {
            let fresh = ActorActivity {
                last_operation_time: now,
                operation_count: 1,
                window_start_time: now,
                whitelisted: false,
            };
            kv::lemma_upsert(acts, actor, fresh);
        }
    } else {
        let a = kv::value_of(acts, actor);
        if !a.whitelisted && elapsed(now, a.last_operation_time) >= config.cooldown_period {
            let fresh_window = elapsed(now, a.window_start_time) >= config.window_size;
            let count = if fresh_window {
                0u32
            } else {
                a.operation_count
            };
            if count < config.max_operations {
                let wstart = if fresh_window {
                    now
                } else {
                    a.window_start_time
                };
                let updated = ActorActivity {
                    last_operation_time: now,
                    operation_count: (count + 1) as u32,
                    window_start_time: wstart,
                    whitelisted: false,
                };
                kv::lemma_upsert(acts, actor, updated);
            }
        }
    }
}

/// A freshly constructed ledger is well formed.
pub proof fn lemma_initial_inv(admin: u64)
    ensures
        inv(initial_model(admin)),
{
}

/// Minting keeps the ledger well formed; on success the target account
/// and the supply each grow by exactly the minted amount.
pub proof fn lemma_mint_inv(m: LedgerModel, who: u64, amount: i128)
    requires
        inv(m),
    ensures
        inv(spec_mint(m, who, amount).0),
        spec_mint(m, who, amount).1 is Ok ==> {
            let m2 = spec_mint(m, who, amount).0;
            &&& m2.total_supply == m.total_supply + amount
            &&& account_balance(m2.accounts, who) == account_balance(m.accounts, who) + amount
            &&& m2.slots == m.slots
            &&& m2.journal == m.journal
            &&& m2.holding == m.holding
        },
        spec_mint(m, who, amount).1 is Err ==> spec_mint(m, who, amount).0 == m,
{
    if amount >= 0 && m.total_supply + amount <= i128::MAX {
        let m2 = spec_mint(m, who, amount).0;
        assert(account_balance(m.accounts, who) + amount <= i128::MAX) by {
            if kv::has_key(m.accounts, who) {
                let i = kv::index_of(m.accounts, who);
                lemma_sum_accounts_bound(m.accounts, i);
            } else {
                lemma_sum_accounts_nonneg(m.accounts);
            }
        }
        lemma_credited(m.accounts, who, amount);
        assert(forall|i: int|
            0 <= i < m2.slots.len() ==> #[trigger] slot_inv(m2, i) == slot_inv(m, i));
    }
}

/// Locking keeps the ledger well formed.  On success the holding account
/// grows by exactly the locked amount, a locked record appears under the
/// new identifier, and every other slot is untouched.
pub proof fn lemma_lock_inv(
    m: LedgerModel,
    depositor: u64,
    bounty_id: u64,
    amount: i128,
    deadline: u64,
    now: u64,
)
    requires
        inv(m),
    ensures
        inv(spec_lock(m, depositor, bounty_id, amount, deadline, now).0),
        spec_lock(m, depositor, bounty_id, amount, deadline, now).1 is Ok ==> {
            let m2 = spec_lock(m, depositor, bounty_id, amount, deadline, now).0;
            &&& m2.holding == m.holding + amount
            &&& amount > 0
        },
        spec_lock(m, depositor, bounty_id, amount, deadline, now).1 is Err ==> spec_lock(
            m,
            depositor,
            bounty_id,
            amount,
            deadline,
            now,
        ).0 == m,
{
    let step = spec_lock(m, depositor, bounty_id, amount, deadline, now);
    if step.1 is Ok {
        let m2 = step.0;
        let guard = guard_step(m.config, m.activities, depositor, now);
        assert(!kv::has_key(m.slots, bounty_id));
        assert(amount > 0);
        assert(account_balance(m.accounts, depositor) >= amount);

        // The depositor's account exists and bounds the transfer.
        assert(kv::has_key(m.accounts, depositor));
        let di = kv::index_of(m.accounts, depositor);
        lemma_sum_accounts_bound(m.accounts, di);
        assert(m.holding + amount <= m.total_supply);

        lemma_guard_step_unique(m.config, m.activities, depositor, now);
        lemma_debited(m.accounts, depositor, amount);

        let slot = EscrowSlot {
            escrow: Escrow {
                depositor,
                amount,
                remaining_amount: amount,
                status: EscrowStatus::Locked,
                deadline,
            },
            approval: None,
        };
        lemma_sum_remaining_push(m.slots, (bounty_id, slot));

        // Key uniqueness of the extended slot table.
        let n = m.slots.len() as int;
        assert forall|i: int, j: int| 0 <= i < j < m2.slots.len() implies (#[trigger] m2.slots[i]).0
            != (#[trigger] m2.slots[j]).0 by {
            if j < n {
                assert(m2.slots[i] == m.slots[i] && m2.slots[j] == m.slots[j]);
            } else {
                assert(m2.slots[i] == m.slots[i]);
                if m.slots[i].0 == bounty_id {
                    assert(kv::has_key(m.slots, bounty_id));
                }
            }
        }

        // The new identifier has no journal entries yet.
        assert forall|j: int| 0 <= j < m.journal.len() implies (#[trigger] m.journal[j]).0
            != bounty_id by {
            assert(kv::has_key(m.slots, m.journal[j].0));
        }
        lemma_history_absent(m.journal, bounty_id);

        // Every slot, old and new, satisfies its invariant.
        assert forall|i: int| 0 <= i < m2.slots.len() implies #[trigger] slot_inv(m2, i) by {
            if i < n {
                assert(slot_inv(m, i));
                assert(m2.slots[i] == m.slots[i]);
            } else {
                assert(m2.slots[i] == (bounty_id, slot));
                assert(sum_refunds(history_of(m2.journal, bounty_id)) == 0);
            }
        }

        // Journal keys survive the push.
        assert forall|j: int| 0 <= j < m2.journal.len() implies kv::has_key(
            m2.slots,
            (#[trigger] m2.journal[j]).0,
        ) && m2.journal[j].1.amount > 0 by {
            assert(kv::has_key(m.slots, m.journal[j].0));
            let k = kv::index_of(m.slots, m.journal[j].0);
            assert(m2.slots[k].0 == m.journal[j].0);
        }
    }
}

/// Releasing keeps the ledger well formed.  On success the holding
/// account shrinks by the record's remaining amount, the record turns
/// `Released`, and every other slot is untouched.
pub proof fn lemma_release_inv(m: LedgerModel, bounty_id: u64, recipient: u64)
    requires
        inv(m),
    ensures
        inv(spec_release(m, bounty_id, recipient).0),
        spec_release(m, bounty_id, recipient).1 is Err ==> spec_release(m, bounty_id, recipient).0
            == m,
{
    let step = spec_release(m, bounty_id, recipient);
    if step.1 is Ok {
        let m2 = step.0;
        let i = kv::index_of(m.slots, bounty_id);
        assert(kv::has_key(m.slots, bounty_id));
        assert(0 <= i < m.slots.len() && m.slots[i].0 == bounty_id);
        let e = m.slots[i].1.escrow;
        let paid = e.remaining_amount;
        assert(slot_inv(m, i));
        assert(paid == e.amount && paid > 0);

        // The holding account covers the payout.
        assert forall|j: int| 0 <= j < m.slots.len() implies (#[trigger] m.slots[j]).1.escrow.remaining_amount
            >= 0 by {
            assert(slot_inv(m, j));
        }
        lemma_sum_remaining_bound(m.slots, i);
        assert(paid <= m.holding);

        // The recipient's account can absorb the payout.
        assert(account_balance(m.accounts, recipient) + paid <= i128::MAX) by {
            if kv::has_key(m.accounts, recipient) {
                let r = kv::index_of(m.accounts, recipient);
                lemma_sum_accounts_bound(m.accounts, r);
            } else {
                lemma_sum_accounts_nonneg(m.accounts);
            }
        }
        lemma_credited(m.accounts, recipient, paid);

        let slot2 = EscrowSlot {
            escrow: Escrow { remaining_amount: 0, status: EscrowStatus::Released, ..e },
            ..m.slots[i].1
        };
        lemma_sum_remaining_update(m.slots, i, (bounty_id, slot2));

        // Key uniqueness survives an in-place update.
        assert forall|a: int, b: int| 0 <= a < b < m2.slots.len() implies (
        #[trigger] m2.slots[a]).0 != (#[trigger] m2.slots[b]).0 by {
            assert(m2.slots[a].0 == m.slots[a].0 && m2.slots[b].0 == m.slots[b].0);
        }

        // Slot invariants: the released record was fully intact, so its
        // history sum was zero and stays zero.
        assert forall|j: int| 0 <= j < m2.slots.len() implies #[trigger] slot_inv(m2, j) by {
            assert(slot_inv(m, j));
            if j != i {
                assert(m2.slots[j] == m.slots[j]);
            }
        }

        assert forall|j: int| 0 <= j < m2.journal.len() implies kv::has_key(
            m2.slots,
            (#[trigger] m2.journal[j]).0,
        ) && m2.journal[j].1.amount > 0 by {
            assert(kv::has_key(m.slots, m.journal[j].0));
            let k = kv::index_of(m.slots, m.journal[j].0);
            assert(m2.slots[k].0 == m.journal[j].0);
        }
    }
}

/// Approving keeps the ledger well formed: only the stored approval of
/// one slot changes.
pub proof fn lemma_approve_inv(
    m: LedgerModel,
    bounty_id: u64,
    amount: i128,
    recipient: u64,
    mode: RefundMode,
)
    requires
        inv(m),
    ensures
        inv(spec_approve(m, bounty_id, amount, recipient, mode).0),
        spec_approve(m, bounty_id, amount, recipient, mode).1 is Err ==> spec_approve(
            m,
            bounty_id,
            amount,
            recipient,
            mode,
        ).0 == m,
{
    let step = spec_approve(m, bounty_id, amount, recipient, mode);
    if step.1 is Ok {
        let m2 = step.0;
        let i = kv::index_of(m.slots, bounty_id);
        assert(0 <= i < m.slots.len() && m.slots[i].0 == bounty_id);
        let slot2 = EscrowSlot {
            approval: Some(RefundApproval { amount, recipient, mode, approved_by: m.admin }),
            ..m.slots[i].1
        };
        lemma_sum_remaining_update(m.slots, i, (bounty_id, slot2));
        assert forall|a: int, b: int| 0 <= a < b < m2.slots.len() implies (
        #[trigger] m2.slots[a]).0 != (#[trigger] m2.slots[b]).0 by {
            assert(m2.slots[a].0 == m.slots[a].0 && m2.slots[b].0 == m.slots[b].0);
        }
        assert forall|j: int| 0 <= j < m2.slots.len() implies #[trigger] slot_inv(m2, j) by {
            assert(slot_inv(m, j));
            if j != i {
                assert(m2.slots[j] == m.slots[j]);
            }
        }
        assert forall|j: int| 0 <= j < m2.journal.len() implies kv::has_key(
            m2.slots,
            (#[trigger] m2.journal[j]).0,
        ) && m2.journal[j].1.amount > 0 by {
            assert(kv::has_key(m.slots, m.journal[j].0));
            let k = kv::index_of(m.slots, m.journal[j].0);
            assert(m2.slots[k].0 == m.journal[j].0);
        }
    }
}

/// Refunding keeps the ledger well formed.  On success the holding
/// account shrinks by the paid amount, the slot's remaining amount
/// shrinks by the same, one journal entry is appended, and every other
/// slot is untouched.
pub proof fn lemma_refund_inv(
    m: LedgerModel,
    bounty_id: u64,
    amount: Option<i128>,
    recipient: Option<u64>,
    mode: RefundMode,
    now: u64,
)
    requires
        inv(m),
    ensures
        inv(spec_refund(m, bounty_id, amount, recipient, mode, now).0),
        spec_refund(m, bounty_id, amount, recipient, mode, now).1 is Err ==> spec_refund(
            m,
            bounty_id,
            amount,
            recipient,
            mode,
            now,
        ).0 == m,
{
    let step = spec_refund(m, bounty_id, amount, recipient, mode, now);
    if step.1 is Ok {
        let m2 = step.0;
        let i = kv::index_of(m.slots, bounty_id);
        assert(kv::has_key(m.slots, bounty_id));
        assert(0 <= i < m.slots.len() && m.slots[i].0 == bounty_id);
        let slot = m.slots[i].1;
        let e = slot.escrow;
        assert(slot_inv(m, i));
        let recip = effective_recipient(e, recipient);
        let paid = if mode == RefundMode::Full {
            e.remaining_amount
        } else {
            amount->0
        };
        assert(0 < paid <= e.remaining_amount);
        let new_remaining = (e.remaining_amount - paid) as i128;

        // The holding account covers the payout.
        assert forall|j: int| 0 <= j < m.slots.len() implies (#[trigger] m.slots[j]).1.escrow.remaining_amount
            >= 0 by {
            assert(slot_inv(m, j));
        }
        lemma_sum_remaining_bound(m.slots, i);
        assert(paid <= m.holding);

        // The recipient's account can absorb the payout.
        assert(account_balance(m.accounts, recip) + paid <= i128::MAX) by {
            if kv::has_key(m.accounts, recip) {
                let r = kv::index_of(m.accounts, recip);
                lemma_sum_accounts_bound(m.accounts, r);
            } else {
                lemma_sum_accounts_nonneg(m.accounts);
            }
        }
        lemma_credited(m.accounts, recip, paid);

        let new_status = if new_remaining == 0 {
            EscrowStatus::Refunded
        } else {
            EscrowStatus::PartiallyRefunded
        };
        let consumed = approval_matches(slot.approval, paid, recip, mode);
        let slot2 = EscrowSlot {
            escrow: Escrow { remaining_amount: new_remaining, status: new_status, ..e },
            approval: if consumed {
                None
            } else {
                slot.approval
            },
        };
        let record = RefundRecord { amount: paid, recipient: recip, mode, timestamp: now };
        lemma_sum_remaining_update(m.slots, i, (bounty_id, slot2));

        // Key uniqueness survives an in-place update.
        assert forall|a: int, b: int| 0 <= a < b < m2.slots.len() implies (
        #[trigger] m2.slots[a]).0 != (#[trigger] m2.slots[b]).0 by {
            assert(m2.slots[a].0 == m.slots[a].0 && m2.slots[b].0 == m.slots[b].0);
        }

        // How the journal push falls on each bounty's history.
        assert forall|j: int| 0 <= j < m2.slots.len() implies #[trigger] slot_inv(m2, j) by {
            assert(slot_inv(m, j));
            lemma_history_push(m.journal, (bounty_id, record), m2.slots[j].0);
            if j != i {
                assert(m2.slots[j] == m.slots[j]);
                assert(m.slots[j].0 != bounty_id);
            } else {
                assert(m2.slots[i].1 == slot2);
                lemma_sum_refunds_push(history_of(m.journal, bounty_id), record);
                assert(e.status != EscrowStatus::Released);
            }
        }

        assert forall|j: int| 0 <= j < m2.journal.len() implies kv::has_key(
            m2.slots,
            (#[trigger] m2.journal[j]).0,
        ) && m2.journal[j].1.amount > 0 by {
            if j < m.journal.len() {
                assert(m.journal[j].1.amount > 0);
                assert(kv::has_key(m.slots, m.journal[j].0));
                let k = kv::index_of(m.slots, m.journal[j].0);
                assert(m2.slots[k].0 == m.journal[j].0);
            } else {
                assert(m2.journal[j] == (bounty_id, record));
                assert(m2.slots[i].0 == bounty_id);
            }
        }
    }
}

/// Changing the admission-control settings keeps the ledger well formed.
pub proof fn lemma_update_config_inv(
    m: LedgerModel,
    window_size: u64,
    max_operations: u32,
    cooldown_period: u64,
)
    requires
        inv(m),
    ensures
        inv(spec_update_config(m, window_size, max_operations, cooldown_period)),
{
    let m2 = spec_update_config(m, window_size, max_operations, cooldown_period);
    assert(forall|i: int| 0 <= i < m2.slots.len() ==> #[trigger] slot_inv(m2, i) == slot_inv(m, i));
}

/// Setting a whitelist flag keeps the ledger well formed.
pub proof fn lemma_set_whitelist_inv(m: LedgerModel, actor: u64, whitelisted: bool)
    requires
        inv(m),
    ensures
        inv(spec_set_whitelist(m, actor, whitelisted)),
{
    let m2 = spec_set_whitelist(m, actor, whitelisted);
    let base = if kv::has_key(m.activities, actor) {
        kv::value_of(m.activities, actor)
    } else {
        ActorActivity {
            last_operation_time: 0,
            operation_count: 0,
            window_start_time: 0,
            whitelisted: false,
        }
    };
    kv::lemma_upsert(m.activities, actor, ActorActivity { whitelisted, ..base });
    assert(forall|i: int| 0 <= i < m2.slots.len() ==> #[trigger] slot_inv(m2, i) == slot_inv(m, i));
}

} // verus!

//! Laws of the escrow ledger.
//!
//! Each proof function states a cross-operation guarantee over the
//! abstract state of [`crate::model`], exactly as the executable
//! operations of [`crate::escrow`] are specified against it.

use vstd::prelude::*;
use crate::kv;
use crate::model::{
    approval_matches, has_bounty, history_of, inv, lemma_lock_inv, lemma_refund_inv,
    lemma_release_inv, lemma_sum_remaining_bound, slot_inv, slot_of, spec_approve, spec_lock,
    spec_refund, spec_release, LedgerModel,
};
use crate::types::{Error, EscrowStatus, RefundMode};

verus! {

/// The arguments of one `lock_funds` call.
#[derive(Clone, Copy, Debug, PartialEq, Eq, Structural)]
pub struct LockRequest {
    /// The depositor funding the escrow.
    pub depositor: u64,
    /// The fresh bounty identifier.
    pub bounty_id: u64,
    /// The amount to lock.
    pub amount: i128,
    /// The refund deadline.
    pub deadline: u64,
    /// The clock reading at call time.
    pub now: u64,
}

/// The lock transition applied to one request.
pub open spec fn lock_result(m: LedgerModel, r: LockRequest) -> (LedgerModel, Result<(), Error>) {
    spec_lock(m, r.depositor, r.bounty_id, r.amount, r.deadline, r.now)
}

/// The state after a sequence of lock calls, in order.
pub open spec fn apply_locks(m: LedgerModel, reqs: Seq<LockRequest>) -> LedgerModel
    decreases reqs.len(),
{
    if reqs.len() == 0 {
        m
    } else {
        apply_locks(lock_result(m, reqs.first()).0, reqs.drop_first())
    }
}

/// Every lock call of the sequence succeeds.
pub open spec fn locks_all_ok(m: LedgerModel, reqs: Seq<LockRequest>) -> bool
    decreases reqs.len(),
{
    reqs.len() == 0 || (lock_result(m, reqs.first()).1 is Ok && locks_all_ok(
        lock_result(m, reqs.first()).0,
        reqs.drop_first(),
    ))
}

/// Sum of the amounts of a sequence of lock requests.
pub open spec fn sum_lock_amounts(reqs: Seq<LockRequest>) -> int
    decreases reqs.len(),
{
    if reqs.len() == 0 {
        0
    } else {
        reqs.first().amount + sum_lock_amounts(reqs.drop_first())
    }
}

/// Law: after any number of successful locks, the held balance has
/// grown by exactly the sum of the locked amounts, and the ledger stays
/// well formed.
pub proof fn lemma_balance_after_locks(m: LedgerModel, reqs: Seq<LockRequest>)
    requires
        inv(m),
        locks_all_ok(m, reqs),
    ensures
        inv(apply_locks(m, reqs)),
        apply_locks(m, reqs).holding == m.holding + sum_lock_amounts(reqs),
    decreases reqs.len(),
{
    if reqs.len() > 0 {
        let r0 = reqs.first();
        lemma_lock_inv(m, r0.depositor, r0.bounty_id, r0.amount, r0.deadline, r0.now);
        lemma_balance_after_locks(lock_result(m, r0).0, reqs.drop_first());
    }
}

/// Law: on a ledger that holds nothing yet — fresh, or only minted to
/// external accounts — the held balance after any number of successful
/// locks equals the sum of their amounts.
pub proof fn lemma_balance_equals_locked_total(m: LedgerModel, reqs: Seq<LockRequest>)
    requires
        inv(m),
        m.holding == 0,
        locks_all_ok(m, reqs),
    ensures
        apply_locks(m, reqs).holding == sum_lock_amounts(reqs),
{
    lemma_balance_after_locks(m, reqs);
}

/// Law: locking an identifier that a successful lock already used
/// always fails with `BountyExists` and changes nothing, whatever the
/// second request's other arguments are.
pub proof fn lemma_duplicate_lock_rejected(m: LedgerModel, r1: LockRequest, r2: LockRequest)
    requires
        inv(m),
        lock_result(m, r1).1 is Ok,
        r2.bounty_id == r1.bounty_id,
    ensures
        lock_result(lock_result(m, r1).0, r2) == (
            lock_result(m, r1).0,
            Err::<(), Error>(Error::BountyExists),
        ),
{
    let m1 = lock_result(m, r1).0;
    assert(m1.slots[m.slots.len() as int].0 == r1.bounty_id);
    assert(kv::has_key(m1.slots, r2.bounty_id));
}

/// Law: a release pays out the record's remaining amount exactly once;
/// a second release of the same bounty fails with `FundsNotLocked` and
/// changes nothing, so the balance moves only once.
pub proof fn lemma_release_single_use(m: LedgerModel, bounty_id: u64, first_to: u64, second_to: u64)
    requires
        inv(m),
        spec_release(m, bounty_id, first_to).1 is Ok,
    ensures
        ({
            let m1 = spec_release(m, bounty_id, first_to).0;
            &&& m1.holding == m.holding - slot_of(m, bounty_id).escrow.remaining_amount
            &&& spec_release(m1, bounty_id, second_to) == (
                m1,
                Err::<(), Error>(Error::FundsNotLocked),
            )
        }),
{
    let m1 = spec_release(m, bounty_id, first_to).0;
    let i = kv::index_of(m.slots, bounty_id);
    assert(0 <= i < m.slots.len() && m.slots[i].0 == bounty_id);
    lemma_release_inv(m, bounty_id, first_to);
    assert forall|j: int|
        0 <= j < m.slots.len() implies (#[trigger] m.slots[j]).1.escrow.remaining_amount >= 0 by {
        assert(slot_inv(m, j));
    }
    lemma_sum_remaining_bound(m.slots, i);
    assert(m1.slots[i].0 == bounty_id);
    kv::lemma_index_of_unique(m1.slots, bounty_id, i);
    assert(m1.slots[i].1.escrow.status == EscrowStatus::Released);
}

/// Law: a `Full` refund of a refundable record succeeds exactly when
/// the clock stands strictly past the deadline; at the deadline or
/// earlier it fails with `DeadlineNotPassed` and changes nothing, with
/// or without a stored approval.
pub proof fn lemma_full_refund_needs_deadline(
    m: LedgerModel,
    bounty_id: u64,
    recipient: Option<u64>,
    now: u64,
)
    requires
        inv(m),
        has_bounty(m, bounty_id),
        slot_of(m, bounty_id).escrow.status == EscrowStatus::Locked || slot_of(
            m,
            bounty_id,
        ).escrow.status == EscrowStatus::PartiallyRefunded,
    ensures
        spec_refund(m, bounty_id, None, recipient, RefundMode::Full, now).1 is Ok <==> now
            > slot_of(m, bounty_id).escrow.deadline,
        now <= slot_of(m, bounty_id).escrow.deadline ==> spec_refund(
            m,
            bounty_id,
            None,
            recipient,
            RefundMode::Full,
            now,
        ) == (m, Err::<(), Error>(Error::DeadlineNotPassed)),
{
    let i = kv::index_of(m.slots, bounty_id);
    assert(0 <= i < m.slots.len() && m.slots[i].0 == bounty_id);
}

/// Sum of a sequence of refund amounts.
pub open spec fn sum_i128(s: Seq<i128>) -> int
    decreases s.len(),
{
    if s.len() == 0 {
        0
    } else {
        s.first() + sum_i128(s.drop_first())
    }
}

/// A sequence of positive amounts has a non-negative sum, positive when
/// the sequence is non-empty.
pub proof fn lemma_sum_i128_pos(s: Seq<i128>)
    requires
        forall|k: int| 0 <= k < s.len() ==> s[k] > 0,
    ensures
        sum_i128(s) >= 0,
        s.len() > 0 ==> sum_i128(s) > 0,
    decreases s.len(),
{
    if s.len() > 0 {
        assert(forall|k: int| 0 <= k < s.drop_first().len() ==> s.drop_first()[k] > 0);
        lemma_sum_i128_pos(s.drop_first());
    }
}

/// The state after a sequence of `Partial` refunds of the given
/// amounts, all at time `now`.
pub open spec fn apply_partial_refunds(
    m: LedgerModel,
    bounty_id: u64,
    amounts: Seq<i128>,
    now: u64,
) -> LedgerModel
    decreases amounts.len(),
{
    if amounts.len() == 0 {
        m
    } else {
        apply_partial_refunds(
            spec_refund(m, bounty_id, Some(amounts.first()), None, RefundMode::Partial, now).0,
            bounty_id,
            amounts.drop_first(),
            now,
        )
    }
}

/// Every refund of the sequence succeeds.
pub open spec fn partial_refunds_all_ok(
    m: LedgerModel,
    bounty_id: u64,
    amounts: Seq<i128>,
    now: u64,
) -> bool
    decreases amounts.len(),
{
    amounts.len() == 0 || (spec_refund(
        m,
        bounty_id,
        Some(amounts.first()),
        None,
        RefundMode::Partial,
        now,
    ).1 is Ok && partial_refunds_all_ok(
        spec_refund(m, bounty_id, Some(amounts.first()), None, RefundMode::Partial, now).0,
        bounty_id,
        amounts.drop_first(),
        now,
    ))
}

/// Law: after the deadline, a sequence of positive partial refunds
/// whose amounts sum to exactly the remaining amount all succeed; they
/// zero the remaining amount, move the record to `Refunded`, and extend
/// the refund history by exactly one entry per call.
pub proof fn lemma_partial_refunds_drain(
    m: LedgerModel,
    bounty_id: u64,
    amounts: Seq<i128>,
    now: u64,
)
    requires
        inv(m),
        has_bounty(m, bounty_id),
        slot_of(m, bounty_id).escrow.status == EscrowStatus::Locked || slot_of(
            m,
            bounty_id,
        ).escrow.status == EscrowStatus::PartiallyRefunded,
        now > slot_of(m, bounty_id).escrow.deadline,
        amounts.len() > 0,
        forall|k: int| 0 <= k < amounts.len() ==> amounts[k] > 0,
        sum_i128(amounts) == slot_of(m, bounty_id).escrow.remaining_amount,
    ensures
        partial_refunds_all_ok(m, bounty_id, amounts, now),
        ({
            let mn = apply_partial_refunds(m, bounty_id, amounts, now);
            &&& inv(mn)
            &&& has_bounty(mn, bounty_id)
            &&& slot_of(mn, bounty_id).escrow.status == EscrowStatus::Refunded
            &&& slot_of(mn, bounty_id).escrow.remaining_amount == 0
            &&& history_of(mn.journal, bounty_id).len() == history_of(m.journal, bounty_id).len()
                + amounts.len()
        }),
    decreases amounts.len(),
{
    let i = kv::index_of(m.slots, bounty_id);
    assert(0 <= i < m.slots.len() && m.slots[i].0 == bounty_id);
    let e = m.slots[i].1.escrow;
    let a0 = amounts.first();
    assert(forall|k: int| 0 <= k < amounts.drop_first().len() ==> amounts.drop_first()[k] > 0);
    lemma_sum_i128_pos(amounts.drop_first());
    assert(0 < a0 <= e.remaining_amount);

    let step = spec_refund(m, bounty_id, Some(a0), None, RefundMode::Partial, now);
    assert(step.1 is Ok);
    let m1 = step.0;
    lemma_refund_inv(m, bounty_id, Some(a0), None, RefundMode::Partial, now);
    assert(m1.slots[i].0 == bounty_id);
    kv::lemma_index_of_unique(m1.slots, bounty_id, i);
    crate::model::lemma_history_push(
        m.journal,
        (
            bounty_id,
            crate::types::RefundRecord {
                amount: a0,
                recipient: e.depositor,
                mode: RefundMode::Partial,
                timestamp: now,
            },
        ),
        bounty_id,
    );

    if amounts.len() == 1 {
        assert(slot_of(m1, bounty_id).escrow.remaining_amount == 0);
        assert(amounts.drop_first().len() == 0);
        assert(partial_refunds_all_ok(m1, bounty_id, amounts.drop_first(), now));
        assert(partial_refunds_all_ok(m, bounty_id, amounts, now));
        assert(apply_partial_refunds(m, bounty_id, amounts, now) == apply_partial_refunds(
            m1,
            bounty_id,
            amounts.drop_first(),
            now,
        ));
    } else {
        assert(sum_i128(amounts.drop_first()) == e.remaining_amount - a0);
        assert(slot_of(m1, bounty_id).escrow.remaining_amount == e.remaining_amount - a0);
        assert(slot_of(m1, bounty_id).escrow.status == EscrowStatus::PartiallyRefunded);
        assert(slot_of(m1, bounty_id).escrow.deadline == e.deadline);
        lemma_partial_refunds_drain(m1, bounty_id, amounts.drop_first(), now);
    }
}

/// Law: before or at the deadline, a `Custom` refund with a valid
/// amount succeeds exactly when the stored approval matches its amount,
/// recipient, and mode; otherwise it fails with `RefundNotApproved` and
/// changes nothing.  A successful one consumes the approval.
pub proof fn lemma_custom_refund_needs_exact_approval(
    m: LedgerModel,
    bounty_id: u64,
    amount: i128,
    recipient: u64,
    now: u64,
)
    requires
        inv(m),
        has_bounty(m, bounty_id),
        slot_of(m, bounty_id).escrow.status == EscrowStatus::Locked || slot_of(
            m,
            bounty_id,
        ).escrow.status == EscrowStatus::PartiallyRefunded,
        now <= slot_of(m, bounty_id).escrow.deadline,
        0 < amount <= slot_of(m, bounty_id).escrow.remaining_amount,
    ensures
        spec_refund(m, bounty_id, Some(amount), Some(recipient), RefundMode::Custom, now).1
            is Ok <==> approval_matches(
            slot_of(m, bounty_id).approval,
            amount,
            recipient,
            RefundMode::Custom,
        ),
        !approval_matches(slot_of(m, bounty_id).approval, amount, recipient, RefundMode::Custom)
            ==> spec_refund(m, bounty_id, Some(amount), Some(recipient), RefundMode::Custom, now)
            == (m, Err::<(), Error>(Error::RefundNotApproved)),
        approval_matches(slot_of(m, bounty_id).approval, amount, recipient, RefundMode::Custom)
            ==> slot_of(
            spec_refund(m, bounty_id, Some(amount), Some(recipient), RefundMode::Custom, now).0,
            bounty_id,
        ).approval is None,
{
    let i = kv::index_of(m.slots, bounty_id);
    assert(0 <= i < m.slots.len() && m.slots[i].0 == bounty_id);
    if approval_matches(slot_of(m, bounty_id).approval, amount, recipient, RefundMode::Custom) {
        let m1 = spec_refund(m, bounty_id, Some(amount), Some(recipient), RefundMode::Custom, now).0;
        lemma_refund_inv(m, bounty_id, Some(amount), Some(recipient), RefundMode::Custom, now);
        assert(m1.slots[i].0 == bounty_id);
        kv::lemma_index_of_unique(m1.slots, bounty_id, i);
    }
}

/// Law: a consumed approval cannot be used again — after a successful
/// approval-gated `Custom` refund that leaves part of the amount in
/// place, repeating the same call before the deadline fails with
/// `RefundNotApproved` and changes nothing.
pub proof fn lemma_consumed_approval_not_reusable(
    m: LedgerModel,
    bounty_id: u64,
    amount: i128,
    recipient: u64,
    now: u64,
)
    requires
        inv(m),
        has_bounty(m, bounty_id),
        slot_of(m, bounty_id).escrow.status == EscrowStatus::Locked || slot_of(
            m,
            bounty_id,
        ).escrow.status == EscrowStatus::PartiallyRefunded,
        now <= slot_of(m, bounty_id).escrow.deadline,
        0 < amount < slot_of(m, bounty_id).escrow.remaining_amount,
        approval_matches(slot_of(m, bounty_id).approval, amount, recipient, RefundMode::Custom),
    ensures
        ({
            let m1 = spec_refund(
                m,
                bounty_id,
                Some(amount),
                Some(recipient),
                RefundMode::Custom,
                now,
            ).0;
            spec_refund(m1, bounty_id, Some(amount), Some(recipient), RefundMode::Custom, now) == (
                m1,
                Err::<(), Error>(Error::RefundNotApproved),
            )
        }),
{
    let i = kv::index_of(m.slots, bounty_id);
    assert(0 <= i < m.slots.len() && m.slots[i].0 == bounty_id);
    let m1 = spec_refund(m, bounty_id, Some(amount), Some(recipient), RefundMode::Custom, now).0;
    lemma_refund_inv(m, bounty_id, Some(amount), Some(recipient), RefundMode::Custom, now);
    assert(m1.slots[i].0 == bounty_id);
    kv::lemma_index_of_unique(m1.slots, bounty_id, i);
    assert(m1.slots[i].1.approval is None);
    assert(m1.slots[i].1.escrow.status == EscrowStatus::PartiallyRefunded);
}

/// Law: approving a custom refund makes exactly that refund admissible
/// before the deadline.
pub proof fn lemma_approved_custom_refund_succeeds(
    m: LedgerModel,
    bounty_id: u64,
    amount: i128,
    recipient: u64,
    now: u64,
)
    requires
        inv(m),
        has_bounty(m, bounty_id),
        slot_of(m, bounty_id).escrow.status == EscrowStatus::Locked || slot_of(
            m,
            bounty_id,
        ).escrow.status == EscrowStatus::PartiallyRefunded,
        now <= slot_of(m, bounty_id).escrow.deadline,
        0 < amount <= slot_of(m, bounty_id).escrow.remaining_amount,
    ensures
        ({
            let m1 = spec_approve(m, bounty_id, amount, recipient, RefundMode::Custom).0;
            spec_refund(m1, bounty_id, Some(amount), Some(recipient), RefundMode::Custom, now).1
                is Ok
        }),
{
    let i = kv::index_of(m.slots, bounty_id);
    assert(0 <= i < m.slots.len() && m.slots[i].0 == bounty_id);
    let m1 = spec_approve(m, bounty_id, amount, recipient, RefundMode::Custom).0;
    crate::model::lemma_approve_inv(m, bounty_id, amount, recipient, RefundMode::Custom);
    assert(m1.slots[i].0 == bounty_id);
    kv::lemma_index_of_unique(m1.slots, bounty_id, i);
    assert(approval_matches(m1.slots[i].1.approval, amount, recipient, RefundMode::Custom));
}

} // verus!

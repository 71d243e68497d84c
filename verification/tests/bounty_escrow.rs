//! Tests of the bounty escrow lifecycle: locking, release, refunds,
//! the approval workflow, history tracking, and admission control.

use grainlify::escrow::BountyEscrowContract;
use grainlify::types::{Error, EscrowStatus, RefundMode};

const ADMIN: u64 = 1;
const DEPOSITOR: u64 = 2;
const CONTRIBUTOR: u64 = 3;

/// A fresh contract whose depositor holds 1_000_000 tokens.
fn setup() -> BountyEscrowContract {
    let mut escrow = BountyEscrowContract::new(ADMIN);
    escrow.mint(DEPOSITOR, 1_000_000).unwrap();
    escrow
}

#[test]
fn test_lock_funds_success() {
    let mut escrow = setup();
    let bounty_id = 1;
    let amount = 1000;
    let deadline = 0 + 1000;

    escrow.lock_funds(DEPOSITOR, bounty_id, amount, deadline, 0).unwrap();

    let stored_escrow = escrow.get_escrow_info(bounty_id).unwrap();
    assert_eq!(stored_escrow.depositor, DEPOSITOR);
    assert_eq!(stored_escrow.amount, amount);
    assert_eq!(stored_escrow.status, EscrowStatus::Locked);
    assert_eq!(stored_escrow.deadline, deadline);

    assert_eq!(escrow.get_balance(), amount);
}

#[test]
fn test_lock_funds_duplicate() {
    let mut escrow = setup();
    let bounty_id = 1;
    let amount = 1000;
    let deadline = 0 + 1000;

    escrow.lock_funds(DEPOSITOR, bounty_id, amount, deadline, 0).unwrap();

    let second = escrow.lock_funds(DEPOSITOR, bounty_id, amount, deadline, 0);
    assert_eq!(second, Err(Error::BountyExists));
}

#[test]
fn test_lock_funds_negative_amount() {
    let mut escrow = setup();
    let bounty_id = 1;
    let amount = -100;
    let deadline = 0 + 1000;

    let r = escrow.lock_funds(DEPOSITOR, bounty_id, amount, deadline, 0);
    assert_eq!(r, Err(Error::InvalidAmount));
}

#[test]
fn test_get_escrow_info() {
    let mut escrow = setup();
    let bounty_id = 1;
    let amount = 1000;
    let deadline = 0 + 1000;

    escrow.lock_funds(DEPOSITOR, bounty_id, amount, deadline, 0).unwrap();

    let info = escrow.get_escrow_info(bounty_id).unwrap();
    assert_eq!(info.amount, amount);
    assert_eq!(info.deadline, deadline);
    assert_eq!(info.depositor, DEPOSITOR);
    assert_eq!(info.status, EscrowStatus::Locked);
}

#[test]
fn test_release_funds_success() {
    let mut escrow = setup();
    let bounty_id = 1;
    let amount = 1000;
    let deadline = 0 + 1000;

    escrow.lock_funds(DEPOSITOR, bounty_id, amount, deadline, 0).unwrap();

    assert_eq!(escrow.get_balance(), amount);
    assert_eq!(escrow.balance_of(CONTRIBUTOR), 0);

    escrow.release_funds(bounty_id, CONTRIBUTOR).unwrap();

    let stored_escrow = escrow.get_escrow_info(bounty_id).unwrap();
    assert_eq!(stored_escrow.status, EscrowStatus::Released);

    assert_eq!(escrow.get_balance(), 0);
    assert_eq!(escrow.balance_of(CONTRIBUTOR), amount);
}

#[test]
fn test_release_funds_already_released() {
    let mut escrow = setup();
    let bounty_id = 1;
    let amount = 1000;
    let deadline = 0 + 1000;

    escrow.lock_funds(DEPOSITOR, bounty_id, amount, deadline, 0).unwrap();
    escrow.release_funds(bounty_id, CONTRIBUTOR).unwrap();

    let second = escrow.release_funds(bounty_id, CONTRIBUTOR);
    assert_eq!(second, Err(Error::FundsNotLocked));
}

#[test]
fn test_release_funds_not_found() {
    let mut escrow = setup();
    let bounty_id = 1;
    let r = escrow.release_funds(bounty_id, CONTRIBUTOR);
    assert_eq!(r, Err(Error::BountyNotFound));
}

#[test]
fn test_refund_full_after_deadline() {
    let mut escrow = setup();
    let bounty_id = 1;
    let amount = 1000;
    let current_time = 0;
    let deadline = current_time + 1000;

    escrow.lock_funds(DEPOSITOR, bounty_id, amount, deadline, current_time).unwrap();

    let now = deadline + 1;
    let initial_depositor_balance = escrow.balance_of(DEPOSITOR);

    escrow.refund(bounty_id, None, None, RefundMode::Full, now).unwrap();

    let stored_escrow = escrow.get_escrow_info(bounty_id).unwrap();
    assert_eq!(stored_escrow.status, EscrowStatus::Refunded);
    assert_eq!(stored_escrow.remaining_amount, 0);

    assert_eq!(escrow.get_balance(), 0);
    assert_eq!(escrow.balance_of(DEPOSITOR), initial_depositor_balance + amount);

    let refund_history = escrow.get_refund_history(bounty_id).unwrap();
    assert_eq!(refund_history.len(), 1);
    assert_eq!(refund_history[0].amount, amount);
    assert_eq!(refund_history[0].recipient, DEPOSITOR);
    assert_eq!(refund_history[0].mode, RefundMode::Full);
}

#[test]
fn test_refund_full_before_deadline() {
    let mut escrow = setup();
    let bounty_id = 1;
    let amount = 1000;
    let current_time = 0;
    let deadline = current_time + 1000;

    escrow.lock_funds(DEPOSITOR, bounty_id, amount, deadline, current_time).unwrap();

    let r = escrow.refund(bounty_id, None, None, RefundMode::Full, current_time);
    assert_eq!(r, Err(Error::DeadlineNotPassed));
}

#[test]
fn test_refund_partial_after_deadline() {
    let mut escrow = setup();
    let bounty_id = 1;
    let total_amount = 1000;
    let refund_amount = 300;
    let current_time = 0;
    let deadline = current_time + 1000;

    escrow.lock_funds(DEPOSITOR, bounty_id, total_amount, deadline, current_time).unwrap();

    let now = deadline + 1;
    let initial_depositor_balance = escrow.balance_of(DEPOSITOR);

    escrow.refund(bounty_id, Some(refund_amount), None, RefundMode::Partial, now).unwrap();

    let stored_escrow = escrow.get_escrow_info(bounty_id).unwrap();
    assert_eq!(stored_escrow.status, EscrowStatus::PartiallyRefunded);
    assert_eq!(stored_escrow.remaining_amount, total_amount - refund_amount);

    assert_eq!(escrow.get_balance(), total_amount - refund_amount);
    assert_eq!(escrow.balance_of(DEPOSITOR), initial_depositor_balance + refund_amount);

    let refund_history = escrow.get_refund_history(bounty_id).unwrap();
    assert_eq!(refund_history.len(), 1);
    assert_eq!(refund_history[0].amount, refund_amount);
    assert_eq!(refund_history[0].recipient, DEPOSITOR);
    assert_eq!(refund_history[0].mode, RefundMode::Partial);
}

#[test]
fn test_refund_partial_multiple_times() {
    let mut escrow = setup();
    let bounty_id = 1;
    let total_amount = 1000;
    let refund1 = 200;
    let refund2 = 300;
    let current_time = 0;
    let deadline = current_time + 1000;

    escrow.lock_funds(DEPOSITOR, bounty_id, total_amount, deadline, current_time).unwrap();
    let now = deadline + 1;

    escrow.refund(bounty_id, Some(refund1), None, RefundMode::Partial, now).unwrap();
    escrow.refund(bounty_id, Some(refund2), None, RefundMode::Partial, now).unwrap();

    let stored_escrow = escrow.get_escrow_info(bounty_id).unwrap();
    assert_eq!(stored_escrow.status, EscrowStatus::PartiallyRefunded);
    assert_eq!(stored_escrow.remaining_amount, total_amount - refund1 - refund2);

    let refund_history = escrow.get_refund_history(bounty_id).unwrap();
    assert_eq!(refund_history.len(), 2);
    assert_eq!(refund_history[0].amount, refund1);
    assert_eq!(refund_history[1].amount, refund2);
}

#[test]
fn test_refund_partial_before_deadline() {
    let mut escrow = setup();
    let bounty_id = 1;
    let amount = 1000;
    let refund_amount = 300;
    let current_time = 0;
    let deadline = current_time + 1000;

    escrow.lock_funds(DEPOSITOR, bounty_id, amount, deadline, current_time).unwrap();

    let r = escrow.refund(bounty_id, Some(refund_amount), None, RefundMode::Partial, current_time);
    assert_eq!(r, Err(Error::DeadlineNotPassed));
}

#[test]
fn test_refund_custom_after_deadline() {
    let mut escrow = setup();
    let bounty_id = 1;
    let amount = 1000;
    let refund_amount = 500;
    let custom_recipient = 4;
    let current_time = 0;
    let deadline = current_time + 1000;

    escrow.lock_funds(DEPOSITOR, bounty_id, amount, deadline, current_time).unwrap();
    let now = deadline + 1;

    let initial_recipient_balance = escrow.balance_of(custom_recipient);

    escrow
        .refund(bounty_id, Some(refund_amount), Some(custom_recipient), RefundMode::Custom, now)
        .unwrap();

    let stored_escrow = escrow.get_escrow_info(bounty_id).unwrap();
    assert_eq!(stored_escrow.status, EscrowStatus::PartiallyRefunded);
    assert_eq!(stored_escrow.remaining_amount, amount - refund_amount);

    assert_eq!(escrow.balance_of(custom_recipient), initial_recipient_balance + refund_amount);

    let refund_history = escrow.get_refund_history(bounty_id).unwrap();
    assert_eq!(refund_history.len(), 1);
    assert_eq!(refund_history[0].amount, refund_amount);
    assert_eq!(refund_history[0].recipient, custom_recipient);
    assert_eq!(refund_history[0].mode, RefundMode::Custom);
}

#[test]
fn test_refund_custom_before_deadline_without_approval() {
    let mut escrow = setup();
    let bounty_id = 1;
    let amount = 1000;
    let refund_amount = 500;
    let custom_recipient = 4;
    let current_time = 0;
    let deadline = current_time + 1000;

    escrow.lock_funds(DEPOSITOR, bounty_id, amount, deadline, current_time).unwrap();

    let r = escrow.refund(
        bounty_id,
        Some(refund_amount),
        Some(custom_recipient),
        RefundMode::Custom,
        current_time,
    );
    assert_eq!(r, Err(Error::RefundNotApproved));
}

#[test]
fn test_refund_approval_workflow() {
    let mut escrow = setup();
    let bounty_id = 1;
    let amount = 1000;
    let refund_amount = 500;
    let custom_recipient = 4;
    let current_time = 0;
    let deadline = current_time + 1000;

    escrow.lock_funds(DEPOSITOR, bounty_id, amount, deadline, current_time).unwrap();

    escrow
        .approve_refund(bounty_id, refund_amount, custom_recipient, RefundMode::Custom)
        .unwrap();

    let (can_refund, deadline_passed, remaining, approval) =
        escrow.get_refund_eligibility(bounty_id, current_time).unwrap();
    assert!(can_refund);
    assert!(!deadline_passed);
    assert_eq!(remaining, amount);
    assert!(approval.is_some());
    let approval_data = approval.unwrap();
    assert_eq!(approval_data.amount, refund_amount);
    assert_eq!(approval_data.recipient, custom_recipient);
    assert_eq!(approval_data.mode, RefundMode::Custom);
    assert_eq!(approval_data.approved_by, ADMIN);

    let initial_recipient_balance = escrow.balance_of(custom_recipient);

    escrow
        .refund(
            bounty_id,
            Some(refund_amount),
            Some(custom_recipient),
            RefundMode::Custom,
            current_time,
        )
        .unwrap();

    let (_, _, _, approval_after) =
        escrow.get_refund_eligibility(bounty_id, current_time).unwrap();
    assert!(approval_after.is_none());

    let stored_escrow = escrow.get_escrow_info(bounty_id).unwrap();
    assert_eq!(stored_escrow.status, EscrowStatus::PartiallyRefunded);
    assert_eq!(stored_escrow.remaining_amount, amount - refund_amount);

    assert_eq!(escrow.balance_of(custom_recipient), initial_recipient_balance + refund_amount);
}

#[test]
fn test_refund_approval_mismatch() {
    let mut escrow = setup();
    let bounty_id = 1;
    let amount = 1000;
    let approved_amount = 500;
    let requested_amount = 600;
    let custom_recipient = 4;
    let current_time = 0;
    let deadline = current_time + 1000;

    escrow.lock_funds(DEPOSITOR, bounty_id, amount, deadline, current_time).unwrap();

    escrow
        .approve_refund(bounty_id, approved_amount, custom_recipient, RefundMode::Custom)
        .unwrap();

    let r = escrow.refund(
        bounty_id,
        Some(requested_amount),
        Some(custom_recipient),
        RefundMode::Custom,
        current_time,
    );
    assert_eq!(r, Err(Error::RefundNotApproved));
}

#[test]
fn test_refund_history_tracking() {
    let mut escrow = setup();
    let bounty_id = 1;
    let total_amount = 1000;
    let refund1 = 200;
    let refund2 = 300;
    let current_time = 0;
    let deadline = current_time + 1000;

    escrow.lock_funds(DEPOSITOR, bounty_id, total_amount, deadline, current_time).unwrap();
    let now = deadline + 1;

    escrow.refund(bounty_id, Some(refund1), None, RefundMode::Partial, now).unwrap();
    escrow.refund(bounty_id, Some(refund2), None, RefundMode::Partial, now).unwrap();

    let remaining = total_amount - refund1 - refund2;
    escrow.refund(bounty_id, Some(remaining), None, RefundMode::Partial, now).unwrap();

    let refund_history = escrow.get_refund_history(bounty_id).unwrap();
    assert_eq!(refund_history.len(), 3);

    let record1 = &refund_history[0];
    assert_eq!(record1.amount, refund1);
    assert_eq!(record1.recipient, DEPOSITOR);
    assert_eq!(record1.mode, RefundMode::Partial);

    let record2 = &refund_history[1];
    assert_eq!(record2.amount, refund2);
    assert_eq!(record2.recipient, DEPOSITOR);
    assert_eq!(record2.mode, RefundMode::Partial);

    let record3 = &refund_history[2];
    assert_eq!(record3.amount, remaining);
    assert_eq!(record3.recipient, DEPOSITOR);
    assert_eq!(record3.mode, RefundMode::Partial);

    let stored_escrow = escrow.get_escrow_info(bounty_id).unwrap();
    assert_eq!(stored_escrow.status, EscrowStatus::Refunded);
    assert_eq!(stored_escrow.remaining_amount, 0);
}

#[test]
fn test_refund_history_with_custom_recipients() {
    let mut escrow = setup();
    let bounty_id = 1;
    let total_amount = 1000;
    let recipient1 = 4;
    let recipient2 = 5;
    let refund1 = 300;
    let refund2 = 400;
    let current_time = 0;
    let deadline = current_time + 1000;

    escrow.lock_funds(DEPOSITOR, bounty_id, total_amount, deadline, current_time).unwrap();
    let now = deadline + 1;

    escrow.refund(bounty_id, Some(refund1), Some(recipient1), RefundMode::Custom, now).unwrap();
    escrow.refund(bounty_id, Some(refund2), Some(recipient2), RefundMode::Custom, now).unwrap();

    let refund_history = escrow.get_refund_history(bounty_id).unwrap();
    assert_eq!(refund_history.len(), 2);
    assert_eq!(refund_history[0].recipient, recipient1);
    assert_eq!(refund_history[1].recipient, recipient2);
}

#[test]
fn test_refund_invalid_amount_zero() {
    let mut escrow = setup();
    let bounty_id = 1;
    let amount = 1000;
    let current_time = 0;
    let deadline = current_time + 1000;

    escrow.lock_funds(DEPOSITOR, bounty_id, amount, deadline, current_time).unwrap();

    let r = escrow.refund(bounty_id, Some(0), None, RefundMode::Partial, deadline + 1);
    assert_eq!(r, Err(Error::InvalidAmount));
}

#[test]
fn test_refund_invalid_amount_exceeds_remaining() {
    let mut escrow = setup();
    let bounty_id = 1;
    let amount = 1000;
    let refund_amount = 1500;
    let current_time = 0;
    let deadline = current_time + 1000;

    escrow.lock_funds(DEPOSITOR, bounty_id, amount, deadline, current_time).unwrap();

    let r = escrow.refund(bounty_id, Some(refund_amount), None, RefundMode::Partial, deadline + 1);
    assert_eq!(r, Err(Error::InvalidAmount));
}

#[test]
fn test_refund_custom_missing_amount() {
    let mut escrow = setup();
    let bounty_id = 1;
    let amount = 1000;
    let custom_recipient = 4;
    let current_time = 0;
    let deadline = current_time + 1000;

    escrow.lock_funds(DEPOSITOR, bounty_id, amount, deadline, current_time).unwrap();

    let r = escrow.refund(
        bounty_id,
        None,
        Some(custom_recipient),
        RefundMode::Custom,
        deadline + 1,
    );
    assert_eq!(r, Err(Error::InvalidAmount));
}

#[test]
fn test_refund_custom_missing_recipient() {
    let mut escrow = setup();
    let bounty_id = 1;
    let amount = 1000;
    let refund_amount = 500;
    let current_time = 0;
    let deadline = current_time + 1000;

    escrow.lock_funds(DEPOSITOR, bounty_id, amount, deadline, current_time).unwrap();

    let r = escrow.refund(bounty_id, Some(refund_amount), None, RefundMode::Custom, deadline + 1);
    assert_eq!(r, Err(Error::InvalidAmount));
}

#[test]
fn test_get_refund_eligibility() {
    let mut escrow = setup();
    let bounty_id = 1;
    let amount = 1000;
    let current_time = 0;
    let deadline = current_time + 1000;

    escrow.lock_funds(DEPOSITOR, bounty_id, amount, deadline, current_time).unwrap();

    let (can_refund, deadline_passed, remaining, approval) =
        escrow.get_refund_eligibility(bounty_id, current_time).unwrap();
    assert!(!can_refund);
    assert!(!deadline_passed);
    assert_eq!(remaining, amount);
    assert!(approval.is_none());

    let (can_refund, deadline_passed, remaining, approval) =
        escrow.get_refund_eligibility(bounty_id, deadline + 1).unwrap();
    assert!(can_refund);
    assert!(deadline_passed);
    assert_eq!(remaining, amount);
    assert!(approval.is_none());

    let custom_recipient = 4;
    escrow.approve_refund(bounty_id, 500, custom_recipient, RefundMode::Custom).unwrap();

    let (can_refund, deadline_passed, remaining, approval) =
        escrow.get_refund_eligibility(bounty_id, deadline - 100).unwrap();
    assert!(can_refund);
    assert!(!deadline_passed);
    assert_eq!(remaining, amount);
    assert!(approval.is_some());
}

#[test]
fn test_get_balance() {
    let mut escrow = setup();
    let bounty_id = 1;
    let amount = 500;
    let deadline = 0 + 1000;

    assert_eq!(escrow.get_balance(), 0);

    escrow.lock_funds(DEPOSITOR, bounty_id, amount, deadline, 0).unwrap();

    assert_eq!(escrow.get_balance(), amount);
}

#[test]
fn test_anti_abuse_cooldown_panic() {
    let mut escrow = setup();

    // The default cooldown is 60 seconds.
    escrow.lock_funds(DEPOSITOR, 1, 100, 2000, 1000).unwrap();

    let r = escrow.lock_funds(DEPOSITOR, 2, 100, 2000, 1030); // 30 s < 60 s
    assert_eq!(r, Err(Error::CooldownActive));
}

#[test]
fn test_anti_abuse_limit_panic() {
    let mut escrow = setup();

    escrow.update_rate_limit_config(3600, 1, 0); // one operation at most

    escrow.lock_funds(DEPOSITOR, 1, 100, 2000, 1000).unwrap();
    let r = escrow.lock_funds(DEPOSITOR, 2, 100, 2000, 1000);
    assert_eq!(r, Err(Error::RateLimitExceeded));
}

#[test]
fn test_anti_abuse_whitelist() {
    let mut escrow = setup();

    escrow.update_rate_limit_config(3600, 1, 60); // one operation at most

    escrow.set_whitelist(DEPOSITOR, true);

    escrow.lock_funds(DEPOSITOR, 1, 100, 2000, 1000).unwrap();
    escrow.lock_funds(DEPOSITOR, 2, 100, 2000, 1000).unwrap(); // works because whitelisted
}

#[test]
fn test_anti_abuse_config_update() {
    let mut escrow = setup();
    escrow.update_rate_limit_config(7200, 5, 120);

    let config = escrow.get_rate_limit_config();
    assert_eq!(config.window_size, 7200);
    assert_eq!(config.max_operations, 5);
    assert_eq!(config.cooldown_period, 120);
}

//! Data model of the bounty escrow ledger.
//!
//! Identities (depositors, recipients, the privileged admin) are plain
//! `u64` account handles: the host verifies signatures and hands the
//! authenticated actor in as a value.  Amounts are `i128` token units;
//! timestamps are `u64` seconds from a monotonic host clock.

use vstd::prelude::*;

verus! {

/// Lifecycle of one escrow record.
///
/// Absence of a record for an identifier is the implicit "not found" state.
#[derive(Clone, Copy, Debug, PartialEq, Eq, Structural)]
pub enum EscrowStatus {
    /// Funds locked in full; nothing paid out yet.
    Locked,
    /// The full amount was paid to a recipient by `release_funds`.
    Released,
    /// Refunds have returned the full amount.
    Refunded,
    /// Refunds have returned part, but not all, of the amount.
    PartiallyRefunded,
}

/// The three ways a refund may be requested.
#[derive(Clone, Copy, Debug, PartialEq, Eq, Structural)]
pub enum RefundMode {
    /// Pay the whole remaining amount back; admissible only after the
    /// deadline.
    Full,
    /// Pay a chosen part of the remaining amount back to the depositor.
    Partial,
    /// Pay a chosen part to a chosen recipient.
    Custom,
}

/// One escrow record, keyed elsewhere by its bounty identifier.
#[derive(Clone, Copy, Debug, PartialEq, Eq, Structural)]
pub struct Escrow {
    /// Identity that funded the escrow; immutable after creation and the
    /// default refund recipient.
    pub depositor: u64,
    /// Originally locked quantity; always positive in a stored record.
    pub amount: i128,
    /// Quantity still payable; starts at `amount` and never increases.
    pub remaining_amount: i128,
    /// Where the record stands in the lock / release / refund lifecycle.
    pub status: EscrowStatus,
    /// Timestamp strictly after which refunds need no approval.
    pub deadline: u64,
}

/// One entry of a bounty's append-only refund history.
#[derive(Clone, Copy, Debug, PartialEq, Eq, Structural)]
pub struct RefundRecord {
    /// Quantity paid out by this refund; always positive.
    pub amount: i128,
    /// Account the refund was paid to.
    pub recipient: u64,
    /// Mode the refund was requested under.
    pub mode: RefundMode,
    /// Clock reading at execution time.
    pub timestamp: u64,
}

/// A pre-authorised refund, stored until the exactly matching refund call
/// consumes it.  At most one is outstanding per bounty.
#[derive(Clone, Copy, Debug, PartialEq, Eq, Structural)]
pub struct RefundApproval {
    /// Approved quantity.
    pub amount: i128,
    /// Approved recipient.
    pub recipient: u64,
    /// Approved mode.
    pub mode: RefundMode,
    /// The privileged actor that granted the approval.
    pub approved_by: u64,
}

/// Admission-control settings, shared by all actors.
#[derive(Clone, Copy, Debug, PartialEq, Eq, Structural)]
pub struct RateLimitConfig {
    /// Length of the counting window, in seconds.
    pub window_size: u64,
    /// Operations admitted inside one window.
    pub max_operations: u32,
    /// Minimum spacing between two operations by the same actor.
    pub cooldown_period: u64,
}

/// Per-actor admission-control state, created on an actor's first
/// guarded operation or whitelist change.
#[derive(Clone, Copy, Debug, PartialEq, Eq, Structural)]
pub struct ActorActivity {
    /// Clock reading of the actor's last admitted operation.
    pub last_operation_time: u64,
    /// Admitted operations inside the current window.
    pub operation_count: u32,
    /// Clock reading at which the current window opened.
    pub window_start_time: u64,
    /// Whitelisted actors bypass cooldown and window checks, and their
    /// counters stay untouched.
    pub whitelisted: bool,
}

/// One escrow record together with its outstanding approval, if any.
#[derive(Clone, Copy, Debug, PartialEq, Eq, Structural)]
pub struct EscrowSlot {
    /// The record itself.
    pub escrow: Escrow,
    /// The pending pre-authorised refund, if one is outstanding.
    pub approval: Option<RefundApproval>,
}

/// Why an escrow operation was refused.  Every error is detected before
/// any state changes, so a failed call leaves the ledger exactly as it was.
#[derive(Clone, Copy, Debug, PartialEq, Eq, Structural)]
pub enum Error {
    /// `lock_funds` for an identifier already in use.
    BountyExists,
    /// Read or mutation of an unknown identifier.
    BountyNotFound,
    /// Release or refund of a record that is neither locked nor partially
    /// refunded.
    FundsNotLocked,
    /// Full or partial refund before the deadline without a matching
    /// approval.
    DeadlineNotPassed,
    /// Zero or negative amount, amount above the remaining balance, or a
    /// missing amount or recipient for the requested mode.
    InvalidAmount,
    /// Custom refund before the deadline whose parameters match no stored
    /// approval.
    RefundNotApproved,
    /// The depositor's token balance cannot cover the requested lock.
    InsufficientBalance,
    /// Admission control: the actor's cooldown period has not elapsed.
    CooldownActive,
    /// Admission control: the actor used up the current window.
    RateLimitExceeded,
    /// The operation would push a token total past the representable range.
    Overflow,
}

/// Default counting window: one hour.
pub const DEFAULT_WINDOW_SIZE: u64 = 3600;

/// Default operations admitted per window.
pub const DEFAULT_MAX_OPERATIONS: u32 = 10;

/// Default spacing between two operations by one actor: one minute.
pub const DEFAULT_COOLDOWN_PERIOD: u64 = 60;

} // verus!

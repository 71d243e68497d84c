//! Verified escrow ledgers for bounty and program payouts.
//!
//! The crate models three cooperating on-chain components on plain values:
//!
//! * [`escrow`] — a per-bounty escrow ledger with a lock / release / refund
//!   state machine, a two-phase refund-approval workflow, an append-only
//!   refund history, and a per-actor admission-control gate.
//! * [`program`] — a single-program prize pool with batch and single payouts
//!   and an append-only payout history.
//! * [`upgrade`] — an admin-gated code-pointer swap with version tracking.
//!
//! Host concerns — signature checks, the clock, and the actual movement of
//! tokens between external accounts — live outside this crate.  Callers pass
//! the authenticated actor and the current time in as plain values; the
//! ledgers track balances as bookkeeping that a host binding settles.

pub mod kv;
pub mod types;
pub mod model;
pub mod escrow;
pub mod laws;
pub mod program;
pub mod upgrade;

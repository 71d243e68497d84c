//! Tests of the program escrow: initialisation, cumulative locking,
//! single and batch payouts, and the bookkeeping invariant between the
//! remaining balance and the payout history.

use grainlify::program::{ProgramError, ProgramEscrowContract};

const BACKEND: u64 = 10;
const TOKEN: u64 = 77;

fn initialized() -> ProgramEscrowContract {
    let mut c = ProgramEscrowContract::new();
    c.init_program(String::from("hackathon-2024"), BACKEND, TOKEN).unwrap();
    c
}

#[test]
fn init_program_starts_empty() {
    let mut c = ProgramEscrowContract::new();
    let d = c.init_program(String::from("hackathon-2024"), BACKEND, TOKEN).unwrap();
    assert_eq!(d.program_id, "hackathon-2024");
    assert_eq!(d.total_funds, 0);
    assert_eq!(d.remaining_balance, 0);
    assert_eq!(d.authorized_payout_key, BACKEND);
    assert_eq!(d.token_address, TOKEN);
    assert!(d.payout_history.is_empty());
}

#[test]
fn init_program_is_single_use() {
    let mut c = initialized();
    let r = c.init_program(String::from("other"), 11, 78);
    assert!(matches!(r, Err(ProgramError::AlreadyInitialized)));
    // The first configuration stands.
    let d = c.get_program_info().unwrap();
    assert_eq!(d.program_id, "hackathon-2024");
    assert_eq!(d.authorized_payout_key, BACKEND);
}

#[test]
fn operations_before_init_fail() {
    let mut c = ProgramEscrowContract::new();
    assert!(matches!(c.lock_program_funds(100), Err(ProgramError::NotInitialized)));
    assert!(matches!(
        c.single_payout(BACKEND, 3, 100, 0),
        Err(ProgramError::NotInitialized)
    ));
    assert!(matches!(
        c.batch_payout(BACKEND, &vec![3], &vec![100], 0),
        Err(ProgramError::NotInitialized)
    ));
    assert!(matches!(c.get_program_info(), Err(ProgramError::NotInitialized)));
    assert!(matches!(c.get_remaining_balance(), Err(ProgramError::NotInitialized)));
}

#[test]
fn lock_program_funds_accumulates() {
    let mut c = initialized();
    let d1 = c.lock_program_funds(10_000).unwrap();
    assert_eq!(d1.total_funds, 10_000);
    assert_eq!(d1.remaining_balance, 10_000);
    let d2 = c.lock_program_funds(5_000).unwrap();
    assert_eq!(d2.total_funds, 15_000);
    assert_eq!(d2.remaining_balance, 15_000);
    assert_eq!(c.get_remaining_balance().unwrap(), 15_000);
}

#[test]
fn lock_program_funds_rejects_bad_amounts() {
    let mut c = initialized();
    assert!(matches!(c.lock_program_funds(0), Err(ProgramError::InvalidAmount)));
    assert!(matches!(c.lock_program_funds(-5), Err(ProgramError::InvalidAmount)));
    c.lock_program_funds(i128::MAX).unwrap();
    assert!(matches!(c.lock_program_funds(1), Err(ProgramError::Overflow)));
    assert_eq!(c.get_remaining_balance().unwrap(), i128::MAX);
}

#[test]
fn single_payout_records_and_debits() {
    let mut c = initialized();
    c.lock_program_funds(10_000).unwrap();
    let d = c.single_payout(BACKEND, 3, 4_000, 1234).unwrap();
    assert_eq!(d.remaining_balance, 6_000);
    assert_eq!(d.total_funds, 10_000);
    assert_eq!(d.payout_history.len(), 1);
    assert_eq!(d.payout_history[0].recipient, 3);
    assert_eq!(d.payout_history[0].amount, 4_000);
    assert_eq!(d.payout_history[0].timestamp, 1234);
}

#[test]
fn single_payout_guards() {
    let mut c = initialized();
    c.lock_program_funds(1_000).unwrap();
    assert!(matches!(
        c.single_payout(99, 3, 100, 0),
        Err(ProgramError::Unauthorized)
    ));
    assert!(matches!(
        c.single_payout(BACKEND, 3, 0, 0),
        Err(ProgramError::InvalidAmount)
    ));
    assert!(matches!(
        c.single_payout(BACKEND, 3, 2_000, 0),
        Err(ProgramError::InsufficientBalance)
    ));
    // Nothing moved.
    assert_eq!(c.get_remaining_balance().unwrap(), 1_000);
    assert!(c.get_program_info().unwrap().payout_history.is_empty());
}

#[test]
fn batch_payout_pays_everyone_in_order() {
    let mut c = initialized();
    c.lock_program_funds(10_000).unwrap();
    let winners = vec![3, 4, 5];
    let prizes = vec![5_000, 3_000, 2_000];
    let d = c.batch_payout(BACKEND, &winners, &prizes, 99).unwrap();
    assert_eq!(d.remaining_balance, 0);
    assert_eq!(d.payout_history.len(), 3);
    assert_eq!(d.payout_history[0].recipient, 3);
    assert_eq!(d.payout_history[0].amount, 5_000);
    assert_eq!(d.payout_history[1].recipient, 4);
    assert_eq!(d.payout_history[1].amount, 3_000);
    assert_eq!(d.payout_history[2].recipient, 5);
    assert_eq!(d.payout_history[2].amount, 2_000);
    assert!(d.payout_history.iter().all(|p| p.timestamp == 99));
}

#[test]
fn batch_payout_validates_before_paying() {
    let mut c = initialized();
    c.lock_program_funds(1_000).unwrap();

    assert!(matches!(
        c.batch_payout(99, &vec![3], &vec![100], 0),
        Err(ProgramError::Unauthorized)
    ));
    assert!(matches!(
        c.batch_payout(BACKEND, &vec![3, 4], &vec![100], 0),
        Err(ProgramError::LengthMismatch)
    ));
    assert!(matches!(
        c.batch_payout(BACKEND, &vec![], &vec![], 0),
        Err(ProgramError::EmptyBatch)
    ));
    assert!(matches!(
        c.batch_payout(BACKEND, &vec![3, 4], &vec![100, 0], 0),
        Err(ProgramError::InvalidAmount)
    ));
    assert!(matches!(
        c.batch_payout(BACKEND, &vec![3, 4], &vec![i128::MAX, 1], 0),
        Err(ProgramError::Overflow)
    ));
    assert!(matches!(
        c.batch_payout(BACKEND, &vec![3, 4], &vec![600, 500], 0),
        Err(ProgramError::InsufficientBalance)
    ));

    // An invalid batch pays nobody at all.
    assert_eq!(c.get_remaining_balance().unwrap(), 1_000);
    assert!(c.get_program_info().unwrap().payout_history.is_empty());
}

#[test]
fn history_accounts_for_balance() {
    let mut c = initialized();
    c.lock_program_funds(10_000).unwrap();
    c.single_payout(BACKEND, 3, 1_000, 1).unwrap();
    c.batch_payout(BACKEND, &vec![4, 5], &vec![2_000, 3_000], 2).unwrap();
    let d = c.get_program_info().unwrap();
    let paid: i128 = d.payout_history.iter().map(|p| p.amount).sum();
    assert_eq!(paid, 6_000);
    assert_eq!(d.total_funds - d.remaining_balance, paid);
}

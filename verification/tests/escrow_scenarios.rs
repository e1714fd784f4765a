//! Concrete runs of both escrows: each error, the edge cases of the
//! lifecycle, and the properties the library proves, on chosen values.
use escrow::bounty_escrow::BountyEscrow;
use escrow::bounty_state::{AggregateStats, Error, EscrowStatus, RefundMode};
use escrow::fee::calculate_fee;
use escrow::program_escrow::ProgramEscrow;
use escrow::program_state::{BatchPayoutEvent, EventBody, PayoutRecord, ProgramError, MAX_BATCH_SIZE};
use escrow::token::{Party, Transfer};

const A: u64 = 1;
const DEPOSITOR: u64 = 10;
const CONTRIBUTOR: u64 = 11;

fn bounty_with_lock(id: u64, amount: i128, deadline: u64, now: u64) -> BountyEscrow {
    let mut c = BountyEscrow::init(1, 2);
    c.lock_funds(DEPOSITOR, id, amount, deadline, now).unwrap();
    c.complete_transfer().unwrap();
    c
}

fn out(to: u64, amount: i128) -> Transfer {
    Transfer { from: Party::Escrow, to: Party::Account(to), amount }
}

#[test]
fn bounty_init_is_empty() {
    let c = BountyEscrow::init(1, 2);
    assert_eq!(c.admin(), 1);
    assert_eq!(c.token(), 2);
    assert_eq!(c.get_balance(), 0);
    assert_eq!(c.escrow_count(), 0);
    assert_eq!(c.pending_transfer(), None);
    assert_eq!(
        c.get_aggregate_stats(),
        AggregateStats {
            total_locked: 0,
            total_released: 0,
            total_refunded: 0,
            count_locked: 0,
            count_released: 0,
            count_refunded: 0,
        }
    );
}

#[test]
fn bounty_lock_records_the_escrow() {
    let mut c = BountyEscrow::init(1, 2);
    let t = c.lock_funds(DEPOSITOR, 7, 1_000, 500, 100).unwrap();
    assert_eq!(t, Transfer { from: Party::Account(DEPOSITOR), to: Party::Escrow, amount: 1_000 });
    assert_eq!(c.pending_transfer(), Some(t));
    c.complete_transfer().unwrap();
    let e = c.get_escrow_info(7).unwrap();
    assert_eq!(e.depositor, DEPOSITOR);
    assert_eq!(e.amount, 1_000);
    assert_eq!(e.remaining_amount, 1_000);
    assert_eq!(e.status, EscrowStatus::Locked);
    assert_eq!(e.deadline, 500);
    assert_eq!(c.get_balance(), 1_000);
}

#[test]
fn bounty_lock_errors() {
    let mut c = bounty_with_lock(1, 1_000, 500, 100);
    assert_eq!(c.lock_funds(DEPOSITOR, 2, 0, 500, 200), Err(Error::InvalidAmount));
    assert_eq!(c.lock_funds(DEPOSITOR, 2, -5, 500, 200), Err(Error::InvalidAmount));
    assert_eq!(c.lock_funds(DEPOSITOR, 2, 10, 200, 200), Err(Error::InvalidDeadline));
    assert_eq!(c.lock_funds(DEPOSITOR, 1, 10, 500, 200), Err(Error::BountyExists));
    // The depositor locked at 100: until 160 it is cooling down.
    assert_eq!(c.lock_funds(DEPOSITOR, 2, 10, 500, 159), Err(Error::CooldownActive));
    assert!(c.lock_funds(DEPOSITOR, 2, 10, 500, 160).is_ok());
    c.complete_transfer().unwrap();
    // Another depositor is not held back.
    assert!(c.lock_funds(99, 3, 10, 500, 160).is_ok());
    c.complete_transfer().unwrap();
    assert_eq!(c.get_balance(), 1_020);
}

#[test]
fn bounty_lock_overflow_is_refused() {
    let mut c = bounty_with_lock(1, i128::MAX, 500, 100);
    assert_eq!(c.lock_funds(99, 2, 1, 500, 100), Err(Error::AmountOverflow));
    assert_eq!(c.get_balance(), i128::MAX);
}

#[test]
fn bounty_release_errors() {
    let mut c = bounty_with_lock(1, 1_000, 500, 100);
    assert_eq!(c.release_funds(A, 2, CONTRIBUTOR), Err(Error::BountyNotFound));
    assert_eq!(c.partial_release(A, 1, CONTRIBUTOR, 0), Err(Error::InvalidAmount));
    assert_eq!(c.partial_release(A, 1, CONTRIBUTOR, 1_001), Err(Error::InsufficientFunds));
    assert_eq!(c.release_funds(A, 1, CONTRIBUTOR), Ok(out(CONTRIBUTOR, 1_000)));
    c.complete_transfer().unwrap();
    assert_eq!(c.release_funds(A, 1, CONTRIBUTOR), Err(Error::FundsNotLocked));
    assert_eq!(c.partial_release(A, 1, CONTRIBUTOR, 1), Err(Error::FundsNotLocked));
}

#[test]
fn bounty_partial_releases_then_full_release_pays_the_rest() {
    let mut c = bounty_with_lock(1, 1_000, 500, 100);
    assert_eq!(c.partial_release(A, 1, CONTRIBUTOR, 300), Ok(out(CONTRIBUTOR, 300)));
    c.complete_transfer().unwrap();
    let e = c.get_escrow_info(1).unwrap();
    assert_eq!((e.remaining_amount, e.status), (700, EscrowStatus::Locked));
    assert_eq!(c.release_funds(A, 1, CONTRIBUTOR), Ok(out(CONTRIBUTOR, 700)));
    c.complete_transfer().unwrap();
    let e = c.get_escrow_info(1).unwrap();
    // The full release leaves the remaining amount as it was.
    assert_eq!((e.remaining_amount, e.status), (700, EscrowStatus::Released));
    assert_eq!(c.get_balance(), 0);
}

#[test]
fn bounty_partial_release_of_everything_releases() {
    let mut c = bounty_with_lock(1, 1_000, 500, 100);
    c.partial_release(A, 1, CONTRIBUTOR, 1_000).unwrap();
    c.complete_transfer().unwrap();
    let e = c.get_escrow_info(1).unwrap();
    assert_eq!((e.remaining_amount, e.status), (0, EscrowStatus::Released));
}

#[test]
fn bounty_refund_before_deadline_needs_approval() {
    let mut c = bounty_with_lock(1, 1_000, 500, 100);
    assert_eq!(c.refund(1, 499), Err(Error::DeadlineNotPassed));
    assert_eq!(c.get_escrow_info(1).unwrap().remaining_amount, 1_000);
    // At the deadline itself the refund goes through.
    assert_eq!(c.refund(1, 500), Ok(out(DEPOSITOR, 1_000)));
    c.complete_transfer().unwrap();
    let e = c.get_escrow_info(1).unwrap();
    assert_eq!((e.remaining_amount, e.status), (0, EscrowStatus::Refunded));
    assert_eq!(c.refund(1, 600), Err(Error::FundsNotLocked));
}

#[test]
fn bounty_approved_refunds() {
    let mut c = bounty_with_lock(1, 1_000, 500, 100);
    assert_eq!(c.approve_refund(A, 2, 10, 55, RefundMode::Partial), Err(Error::BountyNotFound));
    assert_eq!(c.approve_refund(A, 1, 0, 55, RefundMode::Partial), Err(Error::InvalidAmount));
    assert_eq!(c.approve_refund(A, 1, 1_001, 55, RefundMode::Partial), Err(Error::InsufficientFunds));
    assert_eq!(c.approve_refund(A, 1, 400, 55, RefundMode::Full), Err(Error::InvalidAmount));
    assert_eq!(c.approve_refund(A, 1, 400, 55, RefundMode::Partial), Ok(()));
    assert!(!c.is_guard_held());
    assert_eq!(c.refund(1, 100), Ok(out(55, 400)));
    c.complete_transfer().unwrap();
    let e = c.get_escrow_info(1).unwrap();
    assert_eq!((e.remaining_amount, e.status), (600, EscrowStatus::PartiallyRefunded));
    // The approval was used up: without a new one the deadline applies.
    assert_eq!(c.refund(1, 100), Err(Error::DeadlineNotPassed));
    assert_eq!(c.approve_refund(A, 1, 600, DEPOSITOR, RefundMode::Full), Ok(()));
    assert_eq!(c.refund(1, 100), Ok(out(DEPOSITOR, 600)));
    c.complete_transfer().unwrap();
    let e = c.get_escrow_info(1).unwrap();
    assert_eq!((e.remaining_amount, e.status), (0, EscrowStatus::Refunded));
    assert_eq!(c.release_funds(A, 1, CONTRIBUTOR), Err(Error::FundsNotLocked));
    assert_eq!(c.approve_refund(A, 1, 1, 55, RefundMode::Partial), Err(Error::FundsNotLocked));
}

#[test]
fn bounty_partially_refunded_escrow_cannot_be_released() {
    let mut c = bounty_with_lock(1, 1_000, 500, 100);
    c.approve_refund(A, 1, 100, DEPOSITOR, RefundMode::Partial).unwrap();
    c.refund(1, 100).unwrap();
    c.complete_transfer().unwrap();
    assert_eq!(c.release_funds(A, 1, CONTRIBUTOR), Err(Error::FundsNotLocked));
    // After the deadline the rest goes back to the depositor.
    assert_eq!(c.refund(1, 500), Ok(out(DEPOSITOR, 900)));
}

#[test]
fn bounty_guard_blocks_every_entry_point_while_a_transfer_is_in_flight() {
    let mut c = bounty_with_lock(1, 1_000, 500, 100);
    assert_eq!(c.complete_transfer(), Err(Error::NoTransferPending));
    c.partial_release(A, 1, CONTRIBUTOR, 10).unwrap();
    assert!(c.is_guard_held());
    assert_eq!(c.lock_funds(99, 2, 10, 500, 300), Err(Error::ReentrantCall));
    assert_eq!(c.release_funds(A, 1, CONTRIBUTOR), Err(Error::ReentrantCall));
    assert_eq!(c.partial_release(A, 1, CONTRIBUTOR, 10), Err(Error::ReentrantCall));
    assert_eq!(c.approve_refund(A, 1, 10, 5, RefundMode::Partial), Err(Error::ReentrantCall));
    assert_eq!(c.refund(1, 600), Err(Error::ReentrantCall));
    // The refused calls changed nothing.
    assert_eq!(c.get_escrow_info(1).unwrap().remaining_amount, 990);
    assert_eq!(c.get_balance(), 990);
    assert_eq!(c.complete_transfer(), Ok(()));
    assert!(!c.is_guard_held());
}

#[test]
fn bounty_conservation_and_aggregates() {
    let mut c = BountyEscrow::init(1, 2);
    c.lock_funds(1, 100, 1_000, 1_000, 0).unwrap();
    c.complete_transfer().unwrap();
    c.lock_funds(2, 200, 2_000, 1_000, 0).unwrap();
    c.complete_transfer().unwrap();
    c.lock_funds(3, 300, 3_000, 1_000, 0).unwrap();
    c.complete_transfer().unwrap();
    c.lock_funds(4, 400, 4_000, 1_000, 0).unwrap();
    c.complete_transfer().unwrap();
    c.release_funds(A, 100, CONTRIBUTOR).unwrap();
    c.complete_transfer().unwrap();
    c.approve_refund(A, 200, 500, 2, RefundMode::Partial).unwrap();
    c.refund(200, 10).unwrap();
    c.complete_transfer().unwrap();
    c.refund(300, 1_000).unwrap();
    c.complete_transfer().unwrap();
    // Locked 10_000; released 1_000; refunded 500 + 3_000.
    assert_eq!(c.get_balance(), 10_000 - 1_000 - 3_500);
    assert_eq!(
        c.get_aggregate_stats(),
        AggregateStats {
            total_locked: 4_000,
            total_released: 1_000,
            total_refunded: 5_000,
            count_locked: 1,
            count_released: 1,
            count_refunded: 2,
        }
    );
    assert_eq!(c.escrow_count(), 4);
}

#[test]
fn fee_values() {
    assert_eq!(calculate_fee(10_000, 250), 250);
    assert_eq!(calculate_fee(1_000, 5_000), 500);
    assert_eq!(calculate_fee(1, 5_000), 0);
    assert_eq!(calculate_fee(19_999, 1), 1);
    assert_eq!(calculate_fee(1_000, 0), 0);
    assert_eq!(calculate_fee(i128::MAX, 2), 0);
    assert_eq!(calculate_fee(-19_999, 1), -1);
}

#[test]
fn bounty_only_the_admin_releases_or_approves() {
    let mut c = bounty_with_lock(1, 1_000, 500, 100);
    assert_eq!(c.release_funds(99, 1, CONTRIBUTOR), Err(Error::Unauthorized));
    assert_eq!(c.partial_release(99, 1, CONTRIBUTOR, 10), Err(Error::Unauthorized));
    assert_eq!(c.approve_refund(99, 1, 10, 99, RefundMode::Partial), Err(Error::Unauthorized));
    assert_eq!(c.get_escrow_info(1).unwrap().remaining_amount, 1_000);
    assert!(!c.is_guard_held());
}

#[test]
fn bounty_abort_undoes_the_operation() {
    let mut c = BountyEscrow::init(A, 2);
    assert_eq!(c.abort_transfer(), Err(Error::NoTransferPending));
    // The depositor cannot pay: the lock is undone, as if it never happened.
    c.lock_funds(DEPOSITOR, 1, 1_000, 500, 100).unwrap();
    assert_eq!(c.abort_transfer(), Ok(()));
    assert_eq!(c.get_escrow_info(1), Err(Error::BountyNotFound));
    assert_eq!(c.get_balance(), 0);
    assert_eq!(c.escrow_count(), 0);
    assert!(!c.is_guard_held());
    // Not even the cooldown of the undone lock is left behind.
    assert!(c.lock_funds(DEPOSITOR, 1, 1_000, 500, 100).is_ok());
    c.complete_transfer().unwrap();
    // A payout that fails is undone too.
    c.partial_release(A, 1, CONTRIBUTOR, 300).unwrap();
    c.abort_transfer().unwrap();
    let e = c.get_escrow_info(1).unwrap();
    assert_eq!((e.remaining_amount, e.status), (1_000, EscrowStatus::Locked));
    assert_eq!(c.get_balance(), 1_000);
    // And a refund that fails keeps its approval.
    c.approve_refund(A, 1, 400, 55, RefundMode::Partial).unwrap();
    c.refund(1, 100).unwrap();
    c.abort_transfer().unwrap();
    assert_eq!(c.refund(1, 100), Ok(out(55, 400)));
}

fn program(funds: i128) -> ProgramEscrow {
    let mut p = ProgramEscrow::init_program(String::from("stellar-hackathon-2024"), A, 2);
    if funds > 0 {
        p.lock_program_funds(A, funds).unwrap();
        p.complete_transfers().unwrap();
    }
    p
}

#[test]
fn program_init_and_lock() {
    let mut p = program(0);
    let d = p.get_program_info();
    assert_eq!(d.program_id, "stellar-hackathon-2024");
    assert_eq!((d.total_funds, d.remaining_balance), (0, 0));
    assert_eq!((d.authorized_payout_key, d.token_address), (A, 2));
    assert!(d.payout_history.is_empty());
    assert_eq!(p.events().len(), 1);
    assert_eq!(p.events()[0].program_id, "stellar-hackathon-2024");
    assert_eq!(
        p.events()[0].body,
        EventBody::ProgramInitialized { authorized_payout_key: A, token_address: 2, total_funds: 0 }
    );
    assert_eq!(p.lock_program_funds(5, 0).map(|_| ()), Err(ProgramError::InvalidAmount));
    let d = p.lock_program_funds(5, 50_000_000_000).unwrap();
    assert_eq!((d.total_funds, d.remaining_balance), (50_000_000_000, 50_000_000_000));
    assert_eq!(
        p.pending_transfers(),
        vec![Transfer { from: Party::Account(5), to: Party::Escrow, amount: 50_000_000_000 }]
    );
    assert_eq!(p.lock_program_funds(5, 25).map(|_| ()), Err(ProgramError::ReentrantCall));
    p.complete_transfers().unwrap();
    assert_eq!(p.complete_transfers(), Err(ProgramError::NoTransferPending));
    p.lock_program_funds(6, 25).unwrap();
    p.complete_transfers().unwrap();
    let d = p.get_program_info();
    assert_eq!((d.total_funds, d.remaining_balance), (50_000_000_025, 50_000_000_025));
    assert_eq!(
        p.events()[2].body,
        EventBody::FundsLocked { amount: 25, remaining_balance: 50_000_000_025 }
    );
    assert_eq!(p.events()[2].program_id, "stellar-hackathon-2024");
    assert_eq!(p.lock_program_funds(6, i128::MAX).map(|_| ()), Err(ProgramError::AmountOverflow));
    assert_eq!(p.get_remaining_balance(), 50_000_000_025);
}

#[test]
fn program_single_payout() {
    let mut p = program(1_000);
    assert_eq!(p.single_payout(99, 5, 400, 9).map(|_| ()), Err(ProgramError::Unauthorized));
    assert_eq!(p.single_payout(A, 5, 0, 9).map(|_| ()), Err(ProgramError::InvalidAmount));
    assert_eq!(p.single_payout(A, 5, 1_001, 9).map(|_| ()), Err(ProgramError::InsufficientBalance));
    let d = p.single_payout(A, 5, 400, 9).unwrap();
    assert_eq!(d.remaining_balance, 600);
    assert_eq!(d.total_funds, 1_000);
    assert_eq!(d.payout_history, vec![PayoutRecord { recipient: 5, amount: 400, timestamp: 9 }]);
    assert_eq!(
        p.pending_transfers(),
        vec![Transfer { from: Party::Escrow, to: Party::Account(5), amount: 400 }]
    );
    assert_eq!(
        p.events().last().unwrap().body,
        EventBody::Payout { recipient: 5, amount: 400, remaining_balance: 600 }
    );
    p.complete_transfers().unwrap();
}

#[test]
fn program_batch_payout_readme_example() {
    let mut p = program(50_000_000_000);
    let recipients = vec![1_001, 1_002, 1_003];
    let amounts = vec![20_000_000_000, 15_000_000_000, 10_000_000_000];
    let d = p.batch_payout(A, &recipients, &amounts, 42).unwrap();
    assert_eq!(d.remaining_balance, 5_000_000_000);
    assert_eq!(p.events().last().unwrap().program_id, "stellar-hackathon-2024");
    assert_eq!(
        p.events().last().unwrap().body,
        EventBody::BatchPayout(BatchPayoutEvent {
            recipient_count: 3,
            total_amount: 45_000_000_000,
            remaining_balance: 5_000_000_000,
            gas_proxy_transfer_ops: 3,
            gas_proxy_history_appends: 3,
            gas_proxy_storage_reads: 1,
            gas_proxy_storage_writes: 1,
            gas_proxy_events_emitted: 1,
        })
    );
    assert_eq!(p.pending_transfers().len(), 3);
    assert_eq!(
        p.pending_transfers()[1],
        Transfer { from: Party::Escrow, to: Party::Account(1_002), amount: 15_000_000_000 }
    );
    p.complete_transfers().unwrap();
    assert_eq!(p.get_remaining_balance(), 5_000_000_000);
    let d = p.get_program_info();
    assert_eq!(d.payout_history.len(), 3);
    assert_eq!(d.payout_history[1], PayoutRecord { recipient: 1_002, amount: 15_000_000_000, timestamp: 42 });
    let paid: i128 = d.payout_history.iter().map(|r| r.amount).sum();
    assert_eq!(d.total_funds, d.remaining_balance + paid);
}

#[test]
fn program_batch_payout_errors_leave_the_program_unchanged() {
    let mut p = program(1_000);
    let err = |r: Result<escrow::program_escrow::ProgramData, ProgramError>| r.map(|_| ()).unwrap_err();
    assert_eq!(err(p.batch_payout(99, &vec![1], &vec![1], 0)), ProgramError::Unauthorized);
    assert_eq!(err(p.batch_payout(A, &vec![1, 2], &vec![1], 0)), ProgramError::LengthMismatch);
    assert_eq!(err(p.batch_payout(A, &vec![], &vec![], 0)), ProgramError::EmptyBatch);
    let many: Vec<u64> = (0..(MAX_BATCH_SIZE as u64 + 1)).collect();
    let ones = vec![1_i128; MAX_BATCH_SIZE as usize + 1];
    assert_eq!(err(p.batch_payout(A, &many, &ones, 0)), ProgramError::BatchTooLarge);
    assert_eq!(err(p.batch_payout(A, &vec![1, 2], &vec![5, -1], 0)), ProgramError::InvalidBatchAmount);
    // A non-positive amount is refused before the balance is looked at.
    assert_eq!(err(p.batch_payout(A, &vec![1, 2], &vec![5_000, 0], 0)), ProgramError::InvalidBatchAmount);
    assert_eq!(err(p.batch_payout(A, &vec![1, 2], &vec![600, 401], 0)), ProgramError::InsufficientBalance);
    assert_eq!(
        err(p.batch_payout(A, &vec![1, 2], &vec![i128::MAX, i128::MAX], 0)),
        ProgramError::InsufficientBalance
    );
    assert_eq!(p.get_remaining_balance(), 1_000);
    assert!(p.get_program_info().payout_history.is_empty());
    assert!(!p.is_guard_held());
    let full: Vec<u64> = (0..MAX_BATCH_SIZE as u64).collect();
    let tens = vec![10_i128; MAX_BATCH_SIZE as usize];
    assert_eq!(p.batch_payout(A, &full, &tens, 0).unwrap().remaining_balance, 0);
    assert_eq!(err(p.batch_payout(A, &vec![1], &vec![1], 0)), ProgramError::ReentrantCall);
}

#[test]
fn program_error_messages() {
    assert_eq!(ProgramError::InvalidAmount.message(), "Amount must be greater than zero");
    assert_eq!(ProgramError::InvalidBatchAmount.message(), "All amounts must be greater than zero");
    assert_eq!(ProgramError::InsufficientBalance.message(), "Insufficient balance");
    assert_eq!(
        ProgramError::LengthMismatch.message(),
        "Recipients and amounts vectors must have the same length"
    );
    assert_eq!(ProgramError::EmptyBatch.message(), "Cannot process empty batch");
    assert_eq!(ProgramError::BatchTooLarge.message(), "Batch size exceeds maximum");
    assert_eq!(ProgramError::AmountOverflow.message(), "Amount overflow");
    assert_eq!(ProgramError::Unauthorized.message(), "Unauthorized");
    assert_eq!(ProgramError::ReentrantCall.message(), "Reentrancy detected");
    assert_eq!(ProgramError::NoTransferPending.message(), "No transfer pending");
}

#[test]
fn program_release_schedule_timing() {
    let mut p = program(10_000);
    assert_eq!(p.create_program_release_schedule(99, 1_000, 100, 5), Err(ProgramError::Unauthorized));
    assert_eq!(p.create_program_release_schedule(A, 0, 100, 5), Err(ProgramError::InvalidAmount));
    assert_eq!(p.create_program_release_schedule(A, 1_000, 100, 5), Ok(0));
    assert_eq!(p.create_program_release_schedule(A, 2_000, 100, 6), Ok(1));
    assert_eq!(p.create_program_release_schedule(A, 3_000, 200, 7), Ok(2));
    assert_eq!(
        p.events().last().unwrap().body,
        EventBody::ReleaseScheduleCreated { schedule_id: 2, recipient: 7, amount: 3_000, release_timestamp: 200 }
    );
    let events_before_trigger = p.events().len();
    // Early: nothing is due, and nothing is pending.
    assert_eq!(p.trigger_program_releases(99), Ok(0));
    assert!(!p.is_guard_held());
    assert_eq!(p.events().len(), events_before_trigger);
    assert_eq!(p.get_remaining_balance(), 10_000);
    // Exact boundary, and overlapping schedules in one call.
    assert_eq!(p.trigger_program_releases(100), Ok(2));
    assert_eq!(
        p.events().last().unwrap().body,
        EventBody::ReleasesTriggered { count: 2, total_amount: 3_000, remaining_balance: 7_000 }
    );
    assert_eq!(
        p.pending_transfers(),
        vec![
            Transfer { from: Party::Escrow, to: Party::Account(5), amount: 1_000 },
            Transfer { from: Party::Escrow, to: Party::Account(6), amount: 2_000 },
        ]
    );
    p.complete_transfers().unwrap();
    assert_eq!(p.get_remaining_balance(), 7_000);
    assert!(p.get_release_schedule(0).unwrap().released);
    assert!(!p.get_release_schedule(2).unwrap().released);
    // A second trigger pays nobody twice.
    assert_eq!(p.trigger_program_releases(100), Ok(0));
    // Late.
    assert_eq!(p.trigger_program_releases(10_000), Ok(1));
    p.complete_transfers().unwrap();
    assert_eq!(p.get_remaining_balance(), 4_000);
    assert_eq!(p.get_release_schedule(3), None);
    let h = p.get_program_info().payout_history;
    assert_eq!(
        h,
        vec![
            PayoutRecord { recipient: 5, amount: 1_000, timestamp: 100 },
            PayoutRecord { recipient: 6, amount: 2_000, timestamp: 100 },
            PayoutRecord { recipient: 7, amount: 3_000, timestamp: 10_000 },
        ]
    );
}

#[test]
fn program_trigger_without_funds_is_refused_whole() {
    let mut p = program(1_500);
    p.create_program_release_schedule(A, 1_000, 10, 5).unwrap();
    p.create_program_release_schedule(A, 1_000, 10, 6).unwrap();
    assert_eq!(p.trigger_program_releases(10), Err(ProgramError::InsufficientBalance));
    assert_eq!(p.get_remaining_balance(), 1_500);
    assert!(!p.get_release_schedule(0).unwrap().released);
    p.lock_program_funds(A, 500).unwrap();
    p.complete_transfers().unwrap();
    assert_eq!(p.trigger_program_releases(10), Ok(2));
    assert_eq!(p.get_remaining_balance(), 0);
}

#[test]
fn program_abort_undoes_the_operation() {
    let mut p = program(1_000);
    assert_eq!(p.abort_transfers(), Err(ProgramError::NoTransferPending));
    let events_before = p.events().len();
    p.batch_payout(A, &vec![1, 2], &vec![100, 200], 5).unwrap();
    assert_eq!(p.abort_transfers(), Ok(()));
    assert_eq!(p.get_remaining_balance(), 1_000);
    assert!(p.get_program_info().payout_history.is_empty());
    assert_eq!(p.events().len(), events_before);
    assert!(!p.is_guard_held());
    // A lock whose funds never arrive is undone.
    p.lock_program_funds(9, 500).unwrap();
    p.abort_transfers().unwrap();
    assert_eq!(p.get_program_info().total_funds, 1_000);
    // A trigger whose transfers fail leaves its schedules due.
    p.create_program_release_schedule(A, 300, 10, 5).unwrap();
    assert_eq!(p.trigger_program_releases(10), Ok(1));
    p.abort_transfers().unwrap();
    assert!(!p.get_release_schedule(0).unwrap().released);
    assert_eq!(p.trigger_program_releases(10), Ok(1));
    p.complete_transfers().unwrap();
    assert_eq!(p.get_remaining_balance(), 700);
}

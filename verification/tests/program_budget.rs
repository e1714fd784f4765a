//! Batch payouts, single payouts and release triggers of the program escrow,
//! with the counters that bound their cost.
use std::collections::HashMap;

use escrow::program_escrow::ProgramEscrow;
use escrow::program_state::{EventBody, MAX_BATCH_SIZE};
use escrow::token::{Party, Transfer};

const PAYOUT_AMOUNT: i128 = 1_000;
const INITIAL_FUNDS: i128 = 10_000_000;
const ADMIN: u64 = 1;

/// The token the program holds, as the host keeps it.
struct Token {
    balances: HashMap<u64, i128>,
    escrow_balance: i128,
}

impl Token {
    fn new() -> Self {
        Token { balances: HashMap::new(), escrow_balance: 0 }
    }

    fn mint(&mut self, to: u64, amount: i128) {
        *self.balances.entry(to).or_insert(0) += amount;
    }

    fn balance(&self, who: u64) -> i128 {
        *self.balances.get(&who).unwrap_or(&0)
    }

    fn apply(&mut self, t: &Transfer) {
        match t.from {
            Party::Escrow => self.escrow_balance -= t.amount,
            Party::Account(a) => *self.balances.entry(a).or_insert(0) -= t.amount,
        }
        match t.to {
            Party::Escrow => self.escrow_balance += t.amount,
            Party::Account(a) => *self.balances.entry(a).or_insert(0) += t.amount,
        }
    }
}

/// Carries out the program's pending transfers and reports them done.
fn settle(client: &mut ProgramEscrow, token: &mut Token) {
    for t in client.pending_transfers() {
        token.apply(&t);
    }
    client.complete_transfers().unwrap();
}

fn setup_program(token: &mut Token, initial_amount: i128) -> ProgramEscrow {
    let token_id = 2;
    let program_id = String::from("budget-profile");

    let mut client = ProgramEscrow::init_program(program_id, ADMIN, token_id);
    token.mint(ADMIN, initial_amount);
    client.lock_program_funds(ADMIN, initial_amount).unwrap();
    settle(&mut client, token);
    client
}

fn batch_vectors(batch_size: u32) -> (Vec<u64>, Vec<i128>) {
    let mut recipients = Vec::new();
    let mut amounts = Vec::new();

    for i in 0..batch_size {
        recipients.push(1_000 + i as u64);
        amounts.push(PAYOUT_AMOUNT);
    }

    (recipients, amounts)
}

fn latest_batch_gas_proxy_metrics(client: &ProgramEscrow) -> Option<(u32, u32, u32, u32, u32)> {
    for event in client.events().iter().rev() {
        if let EventBody::BatchPayout(ev) = event.body {
            return Some((
                ev.gas_proxy_transfer_ops,
                ev.gas_proxy_history_appends,
                ev.gas_proxy_storage_reads,
                ev.gas_proxy_storage_writes,
                ev.gas_proxy_events_emitted,
            ));
        }
    }
    None
}

fn measure_batch_payout(batch_size: u32) -> (u32, u32, u32, u32, u32) {
    let mut token = Token::new();
    let mut client = setup_program(&mut token, INITIAL_FUNDS);
    let (recipients, amounts) = batch_vectors(batch_size);
    client.batch_payout(ADMIN, &recipients, &amounts, 0).unwrap();
    settle(&mut client, &mut token);
    latest_batch_gas_proxy_metrics(&client).expect("batch gas proxy metrics missing")
}

#[test]
fn setup_program_moves_the_funds_into_the_escrow() {
    let mut token = Token::new();
    let client = setup_program(&mut token, INITIAL_FUNDS);
    let data = client.get_program_info();
    assert_eq!(client.get_remaining_balance(), INITIAL_FUNDS);
    assert_eq!(data.total_funds, INITIAL_FUNDS);
    assert_eq!(data.payout_history.len(), 0);
    assert_eq!(data.program_id, "budget-profile");
    assert_eq!(token.balance(ADMIN), 0);
    assert_eq!(token.escrow_balance, INITIAL_FUNDS);
}

#[test]
fn budget_profiling_batch_payout_scales_linearly_to_max_batch_size() {
    let samples = [
        (1_u32, measure_batch_payout(1)),
        (10_u32, measure_batch_payout(10)),
        (50_u32, measure_batch_payout(50)),
        (MAX_BATCH_SIZE, measure_batch_payout(MAX_BATCH_SIZE)),
    ];

    for (batch_size, sample) in samples {
        let (transfer_ops, history_appends, storage_reads, storage_writes, events_emitted) =
            sample;
        assert_eq!(transfer_ops, batch_size);
        assert_eq!(history_appends, batch_size);
        assert_eq!(storage_reads, 1);
        assert_eq!(storage_writes, 1);
        assert_eq!(events_emitted, 1);
    }
}

#[test]
fn budget_profiling_single_payout_and_trigger_releases_stay_under_regression_ceiling() {
    let mut token_single = Token::new();
    let mut single_client = setup_program(&mut token_single, INITIAL_FUNDS);
    let recipient = 7;

    single_client.single_payout(ADMIN, recipient, PAYOUT_AMOUNT, 0).unwrap();
    settle(&mut single_client, &mut token_single);
    assert_eq!(token_single.balance(recipient), PAYOUT_AMOUNT);

    let mut token_release = Token::new();
    let mut release_client = setup_program(&mut token_release, INITIAL_FUNDS);
    let now = 0_u64;
    let release_at = now.saturating_add(10);

    for i in 0..10 {
        release_client
            .create_program_release_schedule(ADMIN, PAYOUT_AMOUNT, release_at, 100 + i)
            .unwrap();
    }

    let released = release_client.trigger_program_releases(release_at).unwrap();
    settle(&mut release_client, &mut token_release);

    assert_eq!(released, 10);
    assert_eq!(token_release.escrow_balance, INITIAL_FUNDS - 10 * PAYOUT_AMOUNT);
}

#[test]
fn budget_profiling_gas_proxy_fields_match_operation_counts() {
    let mut token = Token::new();
    let mut client = setup_program(&mut token, INITIAL_FUNDS);
    let batch_size = 7_u32;
    let (recipients, amounts) = batch_vectors(batch_size);

    let data = client.batch_payout(ADMIN, &recipients, &amounts, 0).unwrap();
    let (transfer_ops, history_appends, storage_reads, storage_writes, events_emitted) =
        latest_batch_gas_proxy_metrics(&client).expect("batch gas proxy metrics missing");

    assert_eq!(data.payout_history.len(), batch_size as usize);
    assert_eq!(transfer_ops, batch_size);
    assert_eq!(history_appends, batch_size);
    assert_eq!(storage_reads, 1);
    assert_eq!(storage_writes, 1);
    assert_eq!(events_emitted, 1);
}

#[test]
#[should_panic(expected = "All amounts must be greater than zero")]
fn budget_profiling_zero_amount_batch_is_still_rejected() {
    let mut token = Token::new();
    let mut client = setup_program(&mut token, INITIAL_FUNDS);
    let recipients = vec![5_u64];
    let amounts = vec![0_i128];

    if let Err(e) = client.batch_payout(ADMIN, &recipients, &amounts, 0) {
        panic!("{}", e.message());
    }
}

//! Lifecycle sequences on the bounty escrow, checked against a simple model
//! after every operation: conservation of funds, escrow views, aggregate
//! stats and token balances.
use std::collections::HashMap;

use escrow::bounty_escrow::BountyEscrow;
use escrow::bounty_state::{EscrowStatus, RefundMode};
use escrow::token::{Party, Transfer};
use escrow::fee::{calculate_fee, MAX_FEE_RATE};
use proptest::strategy::{Strategy, Union};
use proptest::test_runner::{Config as ProptestConfig, TestCaseError, TestRng, TestRunner};

const CASES: u32 = 16;
const MAX_SHRINK_ITERS: u32 = 64;

#[derive(Clone, Copy, Debug)]
struct LifecycleOp {
    kind: u8,
    selector: usize,
    amount: i128,
    deadline_delta: u64,
}

#[derive(Clone, Copy, Debug, Eq, PartialEq)]
enum ModelStatus {
    Locked,
    Released,
    Refunded,
    PartiallyRefunded,
}

#[derive(Clone, Debug)]
struct ModelEscrow {
    id: u64,
    amount: i128,
    remaining: i128,
    deadline: u64,
    status: ModelStatus,
}

struct ModelTotals {
    minted: i128,
    locked: i128,
    released: i128,
    refunded: i128,
}

/// The token the escrow holds, as the host keeps it.
struct Token {
    balances: HashMap<u64, i128>,
    escrow_balance: i128,
}

impl Token {
    fn mint(&mut self, to: u64, amount: i128) {
        *self.balances.entry(to).or_insert(0) += amount;
    }

    fn balance(&self, who: u64) -> i128 {
        *self.balances.get(&who).unwrap_or(&0)
    }

    fn apply(&mut self, t: &Transfer) {
        match t.from {
            Party::Escrow => self.escrow_balance -= t.amount,
            Party::Account(a) => {
                let b = self.balances.entry(a).or_insert(0);
                assert!(*b >= t.amount, "insufficient token balance");
                *b -= t.amount;
            }
        }
        match t.to {
            Party::Escrow => self.escrow_balance += t.amount,
            Party::Account(a) => *self.balances.entry(a).or_insert(0) += t.amount,
        }
    }
}

struct TestSetup {
    now: u64,
    admin: u64,
    depositor: u64,
    contributor: u64,
    token: Token,
    escrow: BountyEscrow,
}

fn create_token_contract() -> Token {
    Token { balances: HashMap::new(), escrow_balance: 0 }
}

fn create_escrow_contract(admin: u64, token: u64) -> BountyEscrow {
    BountyEscrow::init(admin, token)
}

impl TestSetup {
    fn new() -> Self {
        let admin = 1;
        let depositor = 2;
        let contributor = 3;
        let token = create_token_contract();
        let escrow = create_escrow_contract(admin, 100);
        TestSetup { now: 0, admin, depositor, contributor, token, escrow }
    }

    /// Carries out the transfer an operation asked for and reports it done.
    fn settle(&mut self, t: Transfer) {
        self.token.apply(&t);
        self.escrow.complete_transfer().unwrap();
    }
}

fn op_strategy() -> impl Strategy<Value = LifecycleOp> {
    (0_u8..=4, 0_usize..64, 1_i128..=20_000, 1_u64..=1_000).prop_map(
        |(kind, selector, amount, deadline_delta)| LifecycleOp {
            kind,
            selector,
            amount,
            deadline_delta,
        },
    )
}

fn proptest_config() -> ProptestConfig {
    ProptestConfig {
        cases: CASES,
        max_shrink_iters: MAX_SHRINK_ITERS,
        failure_persistence: None,
        ..ProptestConfig::default()
    }
}

fn deterministic_runner() -> TestRunner {
    let config = proptest_config();
    let algorithm = config.rng_algorithm;
    TestRunner::new_with_rng(config, TestRng::deterministic_rng(algorithm))
}

fn pick_index<F>(model: &[ModelEscrow], selector: usize, predicate: F) -> Option<usize>
where
    F: Fn(&ModelEscrow) -> bool,
{
    let candidates: Vec<usize> = model
        .iter()
        .enumerate()
        .filter_map(|(idx, escrow)| if predicate(escrow) { Some(idx) } else { None })
        .collect();

    if candidates.is_empty() {
        None
    } else {
        Some(candidates[selector % candidates.len()])
    }
}

fn expected_status(status: ModelStatus) -> EscrowStatus {
    match status {
        ModelStatus::Locked => EscrowStatus::Locked,
        ModelStatus::Released => EscrowStatus::Released,
        ModelStatus::Refunded => EscrowStatus::Refunded,
        ModelStatus::PartiallyRefunded => EscrowStatus::PartiallyRefunded,
    }
}

fn check(cond: bool, what: &str) -> Result<(), TestCaseError> {
    if cond {
        Ok(())
    } else {
        Err(TestCaseError::fail(what.to_string()))
    }
}

/// Assert conservation of funds and view consistency after every operation.
fn assert_invariants(
    setup: &TestSetup,
    model: &[ModelEscrow],
    totals: &ModelTotals,
) -> Result<(), TestCaseError> {
    let mut active_contract_balance = 0_i128;
    let mut count_locked = 0_u64;
    let mut count_released = 0_u64;
    let mut count_refunded = 0_u64;
    let mut stats_locked = 0_i128;
    let mut stats_released = 0_i128;
    let mut stats_refunded = 0_i128;

    for expected in model {
        let escrow = setup.escrow.get_escrow_info(expected.id).unwrap();
        check(escrow.amount == expected.amount, "escrow amount")?;
        check(escrow.remaining_amount >= 0, "remaining is not negative")?;
        check(escrow.remaining_amount <= escrow.amount, "remaining within amount")?;
        check(escrow.status == expected_status(expected.status), "escrow status")?;

        match escrow.status {
            EscrowStatus::Locked => {
                count_locked += 1;
                stats_locked += escrow.amount;
                active_contract_balance += escrow.remaining_amount;
            }
            EscrowStatus::Released => {
                count_released += 1;
                stats_released += escrow.amount;
            }
            EscrowStatus::Refunded => {
                count_refunded += 1;
                stats_refunded += escrow.amount;
            }
            EscrowStatus::PartiallyRefunded => {
                count_refunded += 1;
                stats_refunded += escrow.amount;
                active_contract_balance += escrow.remaining_amount;
            }
        }
    }

    let aggregate = setup.escrow.get_aggregate_stats();
    check(aggregate.count_locked == count_locked, "count_locked")?;
    check(aggregate.count_released == count_released, "count_released")?;
    check(aggregate.count_refunded == count_refunded, "count_refunded")?;
    check(aggregate.total_locked == stats_locked, "total_locked")?;
    check(aggregate.total_released == stats_released, "total_released")?;
    check(aggregate.total_refunded == stats_refunded, "total_refunded")?;

    let contract_balance = setup.escrow.get_balance();
    check(contract_balance == active_contract_balance, "balance is the active remainder")?;
    check(
        contract_balance == totals.locked - totals.released - totals.refunded,
        "balance is locked minus paid out",
    )?;
    check(contract_balance == setup.token.escrow_balance, "balance matches the token")?;
    check(totals.released + totals.refunded <= totals.locked, "paid out within locked")?;
    check(setup.token.balance(setup.contributor) == totals.released, "contributor balance")?;
    check(
        setup.token.balance(setup.depositor) == totals.minted - totals.locked + totals.refunded,
        "depositor balance",
    )?;

    Ok(())
}

fn apply_lock(
    setup: &mut TestSetup,
    model: &mut Vec<ModelEscrow>,
    totals: &mut ModelTotals,
    next_id: &mut u64,
    op: LifecycleOp,
) {
    // lock_funds enforces a depositor cooldown. Advance the ledger before
    // generated locks so this property models successful lifecycle calls.
    setup.now = setup.now.saturating_add(61);

    let amount = op.amount;
    let deadline = setup.now.saturating_add(op.deadline_delta).saturating_add(1);
    let id = *next_id;
    *next_id += 1;

    setup.token.mint(setup.depositor, amount);
    totals.minted += amount;
    totals.locked += amount;

    let t = setup.escrow.lock_funds(setup.depositor, id, amount, deadline, setup.now).unwrap();
    setup.settle(t);
    model.push(ModelEscrow {
        id,
        amount,
        remaining: amount,
        deadline,
        status: ModelStatus::Locked,
    });
}

fn apply_partial_release(
    setup: &mut TestSetup,
    model: &mut [ModelEscrow],
    totals: &mut ModelTotals,
    op: LifecycleOp,
) {
    let Some(idx) = pick_index(model, op.selector, |escrow| {
        escrow.status == ModelStatus::Locked && escrow.remaining > 0
    }) else {
        return;
    };

    let payout = 1 + ((op.amount - 1) % model[idx].remaining);
    let t = setup
        .escrow
        .partial_release(setup.admin, model[idx].id, setup.contributor, payout)
        .unwrap();
    setup.settle(t);

    model[idx].remaining -= payout;
    totals.released += payout;
    if model[idx].remaining == 0 {
        model[idx].status = ModelStatus::Released;
    }
}

fn apply_full_release(
    setup: &mut TestSetup,
    model: &mut [ModelEscrow],
    totals: &mut ModelTotals,
    op: LifecycleOp,
) {
    let Some(idx) = pick_index(model, op.selector, |escrow| {
        escrow.status == ModelStatus::Locked && escrow.remaining == escrow.amount
    }) else {
        return;
    };

    let t = setup.escrow.release_funds(setup.admin, model[idx].id, setup.contributor).unwrap();
    setup.settle(t);
    totals.released += model[idx].amount;
    model[idx].status = ModelStatus::Released;
    // The full-release path leaves remaining_amount unchanged on terminal
    // escrows, so active-balance checks intentionally ignore it.
}

fn apply_approved_refund(
    setup: &mut TestSetup,
    model: &mut [ModelEscrow],
    totals: &mut ModelTotals,
    op: LifecycleOp,
) {
    let Some(idx) = pick_index(model, op.selector, |escrow| {
        (escrow.status == ModelStatus::Locked || escrow.status == ModelStatus::PartiallyRefunded)
            && escrow.remaining > 0
    }) else {
        return;
    };

    let refund_amount = 1 + ((op.amount - 1) % model[idx].remaining);
    let mode = if refund_amount == model[idx].remaining {
        RefundMode::Full
    } else {
        RefundMode::Partial
    };

    setup
        .escrow
        .approve_refund(setup.admin, model[idx].id, refund_amount, setup.depositor, mode)
        .unwrap();
    let t = setup.escrow.refund(model[idx].id, setup.now).unwrap();
    setup.settle(t);

    model[idx].remaining -= refund_amount;
    totals.refunded += refund_amount;
    model[idx].status = if model[idx].remaining == 0 {
        ModelStatus::Refunded
    } else {
        ModelStatus::PartiallyRefunded
    };
}

fn apply_deadline_refund(
    setup: &mut TestSetup,
    model: &mut [ModelEscrow],
    totals: &mut ModelTotals,
    op: LifecycleOp,
) {
    let Some(idx) = pick_index(model, op.selector, |escrow| {
        (escrow.status == ModelStatus::Locked || escrow.status == ModelStatus::PartiallyRefunded)
            && escrow.remaining > 0
    }) else {
        return;
    };

    let now = setup.now;
    let refund_at = if now < model[idx].deadline { model[idx].deadline } else { now };
    setup.now = refund_at;
    let refund_amount = model[idx].remaining;
    let t = setup.escrow.refund(model[idx].id, setup.now).unwrap();
    setup.settle(t);

    model[idx].remaining = 0;
    model[idx].status = ModelStatus::Refunded;
    totals.refunded += refund_amount;
}

fn run_lifecycle_ops(ops: Vec<LifecycleOp>) -> Result<(), TestCaseError> {
    let mut setup = TestSetup::new();
    let mut model = Vec::new();
    let mut totals = ModelTotals { minted: 0, locked: 0, released: 0, refunded: 0 };
    let mut next_id = 10_000_u64;

    assert_invariants(&setup, &model, &totals)?;

    for op in ops {
        match op.kind {
            0 => apply_lock(&mut setup, &mut model, &mut totals, &mut next_id, op),
            1 => apply_partial_release(&mut setup, &mut model, &mut totals, op),
            2 => apply_full_release(&mut setup, &mut model, &mut totals, op),
            3 => apply_approved_refund(&mut setup, &mut model, &mut totals, op),
            _ => apply_deadline_refund(&mut setup, &mut model, &mut totals, op),
        }
        assert_invariants(&setup, &model, &totals)?;
    }

    Ok(())
}

#[test]
fn proptest_invariant_smoke_exercises_lifecycle_entrypoints() {
    let ops = vec![
        LifecycleOp { kind: 0, selector: 0, amount: 1_000, deadline_delta: 100 },
        LifecycleOp { kind: 1, selector: 0, amount: 300, deadline_delta: 1 },
        LifecycleOp { kind: 3, selector: 0, amount: 200, deadline_delta: 1 },
        LifecycleOp { kind: 4, selector: 0, amount: 1, deadline_delta: 1 },
        LifecycleOp { kind: 0, selector: 0, amount: 700, deadline_delta: 100 },
        LifecycleOp { kind: 2, selector: 0, amount: 1, deadline_delta: 1 },
    ];

    run_lifecycle_ops(ops).expect("deterministic lifecycle should preserve invariants");
}

#[test]
fn proptest_lifecycle_invariants_hold_after_each_operation() {
    let mut runner = deterministic_runner();
    let strategy = proptest::collection::vec(op_strategy(), 8..=24);

    runner
        .run(&strategy, |ops| run_lifecycle_ops(ops))
        .expect("bounded lifecycle properties should hold");
}

#[test]
fn proptest_fee_basis_points_do_not_overflow_or_exceed_principal() {
    let mut runner = deterministic_runner();
    let strategy = (
        Union::new(vec![
            (1_i128..=1_000_000_i128).boxed(),
            ((i128::MAX - 10_000_i128)..=i128::MAX).boxed(),
        ]),
        0_i128..=MAX_FEE_RATE,
    );

    runner
        .run(&strategy, |(amount, rate)| {
            let fee = calculate_fee(amount, rate);

            check(fee >= 0, "fee is not negative")?;
            check(fee <= amount, "fee is within the principal")?;
            Ok(())
        })
        .expect("basis-point fee properties should hold");
}

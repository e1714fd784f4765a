//! The abstract state of the program escrow and its transitions.
//!
//! A program escrow holds the prize pool of one hackathon or grant program:
//! funds are locked into it, then paid out to winners one at a time, in
//! batches, or through release schedules that fall due at a given time. Every
//! operation that moves tokens leaves its transfers pending, with the
//! reentrancy guard held, until the host reports them done or abandons them;
//! abandoning puts the program back as it was before the operation.
use vstd::prelude::*;

use crate::token::{Party, Transfer};

verus! {

/// The largest number of recipients one batch payout may have.
pub const MAX_BATCH_SIZE: u32 = 100;

/// One payout the program made.
#[derive(Clone, Copy, Debug, PartialEq, Eq, Structural)]
pub struct PayoutRecord {
    pub recipient: u64,
    pub amount: i128,
    pub timestamp: u64,
}

/// A payout queued to be made once the ledger reaches `release_timestamp`.
#[derive(Clone, Copy, Debug, PartialEq, Eq, Structural)]
pub struct ReleaseSchedule {
    pub schedule_id: u64,
    pub recipient: u64,
    pub amount: i128,
    pub release_timestamp: u64,
    pub released: bool,
}

/// What a batch payout reports: its size and sum, the balance left, and
/// counters of the work it did.
#[derive(Clone, Copy, Debug, PartialEq, Eq, Structural)]
pub struct BatchPayoutEvent {
    pub recipient_count: u32,
    pub total_amount: i128,
    pub remaining_balance: i128,
    pub gas_proxy_transfer_ops: u32,
    pub gas_proxy_history_appends: u32,
    pub gas_proxy_storage_reads: u32,
    pub gas_proxy_storage_writes: u32,
    pub gas_proxy_events_emitted: u32,
}

/// What an event of the program escrow reports, besides the program's id.
#[derive(Clone, Copy, Debug, PartialEq, Eq, Structural)]
pub enum EventBody {
    ProgramInitialized { authorized_payout_key: u64, token_address: u64, total_funds: i128 },
    FundsLocked { amount: i128, remaining_balance: i128 },
    Payout { recipient: u64, amount: i128, remaining_balance: i128 },
    BatchPayout(BatchPayoutEvent),
    ReleaseScheduleCreated { schedule_id: u64, recipient: u64, amount: i128, release_timestamp: u64 },
    ReleasesTriggered { count: u64, total_amount: i128, remaining_balance: i128 },
}

/// An emitted event: the program's id and what happened.
pub struct EventView {
    pub program_id: Seq<char>,
    pub body: EventBody,
}

/// Why the program escrow refused an operation.
#[derive(Clone, Copy, Debug, PartialEq, Eq, Structural)]
pub enum ProgramError {
    InvalidAmount,
    InvalidBatchAmount,
    InsufficientBalance,
    LengthMismatch,
    EmptyBatch,
    BatchTooLarge,
    AmountOverflow,
    Unauthorized,
    ReentrantCall,
    NoTransferPending,
}

/// Transfers in flight, with the state to go back to if they are abandoned.
pub struct ProgramPending {
    pub transfers: Seq<Transfer>,
    pub total_funds: int,
    pub remaining_balance: int,
    pub payout_history: Seq<PayoutRecord>,
    pub schedules: Seq<ReleaseSchedule>,
    pub events: Seq<EventView>,
}

/// The abstract state of a program escrow.
pub struct ProgramState {
    pub program_id: Seq<char>,
    pub total_funds: int,
    pub remaining_balance: int,
    pub authorized_payout_key: u64,
    pub token_address: u64,
    pub payout_history: Seq<PayoutRecord>,
    pub schedules: Seq<ReleaseSchedule>,
    /// Every event emitted, oldest first.
    pub events: Seq<EventView>,
    /// The transfers in flight; the reentrancy guard is held while it is `Some`.
    pub pending: Option<ProgramPending>,
}

/// The sum of the amounts paid out in `h`.
pub open spec fn history_total(h: Seq<PayoutRecord>) -> int
    decreases h.len(),
{
    if h.len() == 0 {
        0
    } else {
        history_total(h.drop_last()) + h.last().amount
    }
}

/// The sum of `amounts`.
pub open spec fn amounts_total(amounts: Seq<i128>) -> int
    decreases amounts.len(),
{
    if amounts.len() == 0 {
        0
    } else {
        amounts_total(amounts.drop_last()) + amounts.last()
    }
}

/// The payout records of a batch paid at `now`.
pub open spec fn batch_records(recipients: Seq<u64>, amounts: Seq<i128>, now: u64) -> Seq<
    PayoutRecord,
> {
    Seq::new(
        recipients.len(),
        |i: int| PayoutRecord { recipient: recipients[i], amount: amounts[i], timestamp: now },
    )
}

/// The transfer that makes a payout.
pub open spec fn payout_transfer(r: PayoutRecord) -> Transfer {
    Transfer { from: Party::Escrow, to: Party::Account(r.recipient), amount: r.amount }
}

/// The transfers that make the payouts `h`, in order.
pub open spec fn payout_transfers(h: Seq<PayoutRecord>) -> Seq<Transfer> {
    h.map_values(|r: PayoutRecord| payout_transfer(r))
}

/// A schedule falls due once the ledger reaches its timestamp, and only once.
pub open spec fn is_due(s: ReleaseSchedule, now: u64) -> bool {
    !s.released && s.release_timestamp <= now
}

/// A schedule after a trigger at `now`.
pub open spec fn after_trigger(s: ReleaseSchedule, now: u64) -> ReleaseSchedule {
    if is_due(s, now) {
        ReleaseSchedule { released: true, ..s }
    } else {
        s
    }
}

/// The payouts, in schedule order, that a trigger at `now` makes.
pub open spec fn due_payouts(schedules: Seq<ReleaseSchedule>, now: u64) -> Seq<PayoutRecord>
    decreases schedules.len(),
{
    if schedules.len() == 0 {
        Seq::empty()
    } else {
        let s = schedules.last();
        let rest = due_payouts(schedules.drop_last(), now);
        if is_due(s, now) {
            rest.push(PayoutRecord { recipient: s.recipient, amount: s.amount, timestamp: now })
        } else {
            rest
        }
    }
}

/// The message the program escrow's contract gives for an error.
pub open spec fn error_message(e: ProgramError) -> &'static str {
    match e {
        ProgramError::InvalidAmount => "Amount must be greater than zero",
        ProgramError::InvalidBatchAmount => "All amounts must be greater than zero",
        ProgramError::InsufficientBalance => "Insufficient balance",
        ProgramError::LengthMismatch => "Recipients and amounts vectors must have the same length",
        ProgramError::EmptyBatch => "Cannot process empty batch",
        ProgramError::BatchTooLarge => "Batch size exceeds maximum",
        ProgramError::AmountOverflow => "Amount overflow",
        ProgramError::Unauthorized => "Unauthorized",
        ProgramError::ReentrantCall => "Reentrancy detected",
        ProgramError::NoTransferPending => "No transfer pending",
    }
}

impl ProgramState {
    /// The state right after `init_program`.
    pub open spec fn init(program_id: Seq<char>, key: u64, token: u64) -> ProgramState {
        ProgramState {
            program_id,
            total_funds: 0,
            remaining_balance: 0,
            authorized_payout_key: key,
            token_address: token,
            payout_history: Seq::empty(),
            schedules: Seq::empty(),
            events: seq![
                EventView {
                    program_id,
                    body: EventBody::ProgramInitialized {
                        authorized_payout_key: key,
                        token_address: token,
                        total_funds: 0,
                    },
                },
            ],
            pending: None,
        }
    }

    /// The invariant: the current state is consistent and, while transfers
    /// are in flight, so is the state they would go back to.
    pub open spec fn wf(self) -> bool {
        &&& self.core_wf()
        &&& (self.pending matches Some(p) ==> self.rolled_back(p).core_wf())
    }

    /// Every payout is positive, nothing is paid beyond what was locked, and
    /// what was locked is either paid out or remains.
    pub open spec fn core_wf(self) -> bool {
        &&& 0 <= self.remaining_balance
        &&& self.total_funds <= i128::MAX
        &&& self.total_funds == self.remaining_balance + history_total(self.payout_history)
        &&& forall|i: int|
            0 <= i < self.payout_history.len() ==> (#[trigger] self.payout_history[i]).amount > 0
        &&& forall|i: int|
            0 <= i < self.schedules.len() ==> (#[trigger] self.schedules[i]).schedule_id == i as u64
                && self.schedules[i].amount > 0
    }

    /// The events after one more, with this program's id.
    pub open spec fn emit(self, body: EventBody) -> Seq<EventView> {
        self.events.push(EventView { program_id: self.program_id, body })
    }

    /// The transfers `t`, pending, remembering the current state.
    pub open spec fn snapshot(self, t: Seq<Transfer>) -> ProgramPending {
        ProgramPending {
            transfers: t,
            total_funds: self.total_funds,
            remaining_balance: self.remaining_balance,
            payout_history: self.payout_history,
            schedules: self.schedules,
            events: self.events,
        }
    }

    /// The state as it was before the operation whose transfers are `p`.
    pub open spec fn rolled_back(self, p: ProgramPending) -> ProgramState {
        ProgramState {
            total_funds: p.total_funds,
            remaining_balance: p.remaining_balance,
            payout_history: p.payout_history,
            schedules: p.schedules,
            events: p.events,
            pending: None,
            ..self
        }
    }

    /// The transfers in flight; none when the guard is free.
    pub open spec fn pending_transfers(self) -> Seq<Transfer> {
        match self.pending {
            Some(p) => p.transfers,
            None => Seq::empty(),
        }
    }

    /// `lock_program_funds`: `amount` more is locked into the program, coming
    /// from `from`.
    pub open spec fn lock_program_funds(self, from: u64, amount: i128) -> Result<
        ProgramState,
        ProgramError,
    > {
        if self.pending is Some {
            Err(ProgramError::ReentrantCall)
        } else if amount <= 0 {
            Err(ProgramError::InvalidAmount)
        } else if self.total_funds + amount > i128::MAX {
            Err(ProgramError::AmountOverflow)
        } else {
            let transfer = Transfer { from: Party::Account(from), to: Party::Escrow, amount };
            Ok(
                ProgramState {
                    total_funds: self.total_funds + amount,
                    remaining_balance: self.remaining_balance + amount,
                    events: self.emit(
                        EventBody::FundsLocked {
                            amount,
                            remaining_balance: (self.remaining_balance + amount) as i128,
                        },
                    ),
                    pending: Some(self.snapshot(seq![transfer])),
                    ..self
                },
            )
        }
    }

    /// `single_payout`: the payout key `caller` sends `amount` to `recipient`
    /// at `now`.
    pub open spec fn single_payout(self, caller: u64, recipient: u64, amount: i128, now: u64) -> Result<
        ProgramState,
        ProgramError,
    > {
        if self.pending is Some {
            Err(ProgramError::ReentrantCall)
        } else if caller != self.authorized_payout_key {
            Err(ProgramError::Unauthorized)
        } else if amount <= 0 {
            Err(ProgramError::InvalidAmount)
        } else if amount > self.remaining_balance {
            Err(ProgramError::InsufficientBalance)
        } else {
            let record = PayoutRecord { recipient, amount, timestamp: now };
            Ok(
                ProgramState {
                    remaining_balance: self.remaining_balance - amount,
                    payout_history: self.payout_history.push(record),
                    events: self.emit(
                        EventBody::Payout {
                            recipient,
                            amount,
                            remaining_balance: (self.remaining_balance - amount) as i128,
                        },
                    ),
                    pending: Some(self.snapshot(seq![payout_transfer(record)])),
                    ..self
                },
            )
        }
    }

    /// `batch_payout`: the payout key `caller` sends `amounts[i]` to
    /// `recipients[i]` for every `i`, all at once or not at all.
    pub open spec fn batch_payout(
        self,
        caller: u64,
        recipients: Seq<u64>,
        amounts: Seq<i128>,
        now: u64,
    ) -> Result<ProgramState, ProgramError> {
        if self.pending is Some {
            Err(ProgramError::ReentrantCall)
        } else if caller != self.authorized_payout_key {
            Err(ProgramError::Unauthorized)
        } else if recipients.len() != amounts.len() {
            Err(ProgramError::LengthMismatch)
        } else if recipients.len() == 0 {
            Err(ProgramError::EmptyBatch)
        } else if recipients.len() > MAX_BATCH_SIZE {
            Err(ProgramError::BatchTooLarge)
        } else if exists|i: int| 0 <= i < amounts.len() && amounts[i] <= 0 {
            Err(ProgramError::InvalidBatchAmount)
        } else if amounts_total(amounts) > self.remaining_balance {
            Err(ProgramError::InsufficientBalance)
        } else {
            let records = batch_records(recipients, amounts, now);
            Ok(
                ProgramState {
                    remaining_balance: self.remaining_balance - amounts_total(amounts),
                    payout_history: self.payout_history + records,
                    events: self.emit(EventBody::BatchPayout(self.batch_event(recipients, amounts))),
                    pending: Some(self.snapshot(payout_transfers(records))),
                    ..self
                },
            )
        }
    }

    /// The event a successful batch payout reports.
    pub open spec fn batch_event(self, recipients: Seq<u64>, amounts: Seq<i128>) -> BatchPayoutEvent {
        BatchPayoutEvent {
            recipient_count: recipients.len() as u32,
            total_amount: amounts_total(amounts) as i128,
            remaining_balance: (self.remaining_balance - amounts_total(amounts)) as i128,
            gas_proxy_transfer_ops: recipients.len() as u32,
            gas_proxy_history_appends: recipients.len() as u32,
            gas_proxy_storage_reads: 1,
            gas_proxy_storage_writes: 1,
            gas_proxy_events_emitted: 1,
        }
    }

    /// `create_program_release_schedule`: the payout key `caller` queues
    /// `amount` for `recipient` at `release_timestamp`.
    pub open spec fn create_release_schedule(
        self,
        caller: u64,
        amount: i128,
        release_timestamp: u64,
        recipient: u64,
    ) -> Result<ProgramState, ProgramError> {
        if self.pending is Some {
            Err(ProgramError::ReentrantCall)
        } else if caller != self.authorized_payout_key {
            Err(ProgramError::Unauthorized)
        } else if amount <= 0 {
            Err(ProgramError::InvalidAmount)
        } else {
            let s = ReleaseSchedule {
                schedule_id: self.schedules.len() as u64,
                recipient,
                amount,
                release_timestamp,
                released: false,
            };
            Ok(
                ProgramState {
                    schedules: self.schedules.push(s),
                    events: self.emit(
                        EventBody::ReleaseScheduleCreated {
                            schedule_id: s.schedule_id,
                            recipient,
                            amount,
                            release_timestamp,
                        },
                    ),
                    ..self
                },
            )
        }
    }

    /// `trigger_program_releases`: every schedule due at `now` is paid, in
    /// order, all at once or not at all. With nothing due nothing changes.
    pub open spec fn trigger_releases(self, now: u64) -> Result<ProgramState, ProgramError> {
        let due = due_payouts(self.schedules, now);
        if self.pending is Some {
            Err(ProgramError::ReentrantCall)
        } else if history_total(due) > self.remaining_balance {
            Err(ProgramError::InsufficientBalance)
        } else if due.len() == 0 {
            Ok(self)
        } else {
            Ok(
                ProgramState {
                    remaining_balance: self.remaining_balance - history_total(due),
                    payout_history: self.payout_history + due,
                    schedules: self.schedules.map_values(|s: ReleaseSchedule| after_trigger(s, now)),
                    events: self.emit(
                        EventBody::ReleasesTriggered {
                            count: due.len() as u64,
                            total_amount: history_total(due) as i128,
                            remaining_balance: (self.remaining_balance - history_total(due)) as i128,
                        },
                    ),
                    pending: Some(self.snapshot(payout_transfers(due))),
                    ..self
                },
            )
        }
    }

    /// `complete_transfers`: the host carried out the pending transfers, and
    /// the reentrancy guard is released.
    pub open spec fn complete_transfers(self) -> Result<ProgramState, ProgramError> {
        if self.pending is None {
            Err(ProgramError::NoTransferPending)
        } else {
            Ok(ProgramState { pending: None, ..self })
        }
    }

    /// `abort_transfers`: the host could not carry out the pending transfers;
    /// the operation that asked for them is undone and the guard released.
    pub open spec fn abort_transfers(self) -> Result<ProgramState, ProgramError> {
        match self.pending {
            Some(p) => Ok(self.rolled_back(p)),
            None => Err(ProgramError::NoTransferPending),
        }
    }
}

/// A history total grows by the amount pushed.
pub proof fn lemma_history_total_push(h: Seq<PayoutRecord>, r: PayoutRecord)
    ensures
        history_total(h.push(r)) == history_total(h) + r.amount,
{
    assert(h.push(r).drop_last() =~= h);
}

/// The total of two histories one after the other.
pub proof fn lemma_history_total_append(a: Seq<PayoutRecord>, b: Seq<PayoutRecord>)
    ensures
        history_total(a + b) == history_total(a) + history_total(b),
    decreases b.len(),
{
    if b.len() > 0 {
        assert((a + b).drop_last() =~= a + b.drop_last());
        lemma_history_total_append(a, b.drop_last());
    } else {
        assert(a + b =~= a);
    }
}

/// The sum over a prefix one longer adds the next amount.
pub proof fn lemma_amounts_total_take(amounts: Seq<i128>, i: int)
    requires
        0 <= i < amounts.len(),
    ensures
        amounts_total(amounts.take(i + 1)) == amounts_total(amounts.take(i)) + amounts[i],
{
    assert(amounts.take(i + 1).drop_last() =~= amounts.take(i));
}

/// A batch pays out exactly the sum of its amounts.
pub proof fn lemma_batch_total(recipients: Seq<u64>, amounts: Seq<i128>, now: u64)
    requires
        recipients.len() == amounts.len(),
    ensures
        history_total(batch_records(recipients, amounts, now)) == amounts_total(amounts),
    decreases recipients.len(),
{
    if recipients.len() > 0 {
        assert(batch_records(recipients, amounts, now).drop_last() =~= batch_records(
            recipients.drop_last(),
            amounts.drop_last(),
            now,
        ));
        lemma_batch_total(recipients.drop_last(), amounts.drop_last(), now);
    }
}

/// Positive amounts have a positive sum, at least as large as any prefix.
pub proof fn lemma_amounts_total_prefix(amounts: Seq<i128>, k: int)
    requires
        forall|i: int| 0 <= i < amounts.len() ==> amounts[i] > 0,
        0 <= k <= amounts.len(),
    ensures
        0 <= amounts_total(amounts.take(k)) <= amounts_total(amounts),
    decreases amounts.len(),
{
    if amounts.len() > 0 {
        let t = amounts.drop_last();
        if k == amounts.len() {
            assert(amounts.take(k) =~= amounts);
            lemma_amounts_total_prefix(t, t.len() as int);
            assert(t.take(t.len() as int) =~= t);
        } else {
            assert(amounts.take(k) =~= t.take(k));
            lemma_amounts_total_prefix(t, k);
        }
    } else {
        assert(amounts.take(k) =~= amounts);
    }
}

/// Due payouts are positive when the schedules are.
pub proof fn lemma_due_payouts_positive(schedules: Seq<ReleaseSchedule>, now: u64)
    requires
        forall|i: int| 0 <= i < schedules.len() ==> (#[trigger] schedules[i]).amount > 0,
    ensures
        forall|i: int|
            0 <= i < due_payouts(schedules, now).len() ==> (#[trigger] due_payouts(
                schedules,
                now,
            )[i]).amount > 0,
        due_payouts(schedules, now).len() <= schedules.len(),
    decreases schedules.len(),
{
    if schedules.len() > 0 {
        let t = schedules.drop_last();
        assert forall|i: int| 0 <= i < t.len() implies (#[trigger] t[i]).amount > 0 by {
            assert(t[i] == schedules[i]);
        }
        lemma_due_payouts_positive(t, now);
        assert(schedules[schedules.len() - 1].amount > 0);
    }
}

/// The due payouts of a prefix one longer.
pub proof fn lemma_due_payouts_take(schedules: Seq<ReleaseSchedule>, i: int, now: u64)
    requires
        0 <= i < schedules.len(),
    ensures
        due_payouts(schedules.take(i + 1), now) == if is_due(schedules[i], now) {
            due_payouts(schedules.take(i), now).push(
                PayoutRecord {
                    recipient: schedules[i].recipient,
                    amount: schedules[i].amount,
                    timestamp: now,
                },
            )
        } else {
            due_payouts(schedules.take(i), now)
        },
{
    assert(schedules.take(i + 1).drop_last() =~= schedules.take(i));
}

/// Every operation of the program escrow keeps its invariant.
pub proof fn lemma_program_operations_keep_wf(
    s: ProgramState,
    caller: u64,
    amount: i128,
    recipient: u64,
    recipients: Seq<u64>,
    amounts: Seq<i128>,
    now: u64,
)
    requires
        s.wf(),
    ensures
        s.lock_program_funds(recipient, amount) matches Ok(t) ==> t.wf(),
        s.single_payout(caller, recipient, amount, now) matches Ok(t) ==> t.wf(),
        s.batch_payout(caller, recipients, amounts, now) matches Ok(t) ==> t.wf(),
        s.create_release_schedule(caller, amount, now, recipient) matches Ok(t) ==> t.wf(),
        s.trigger_releases(now) matches Ok(t) ==> t.wf(),
        s.complete_transfers() matches Ok(t) ==> t.wf(),
        s.abort_transfers() matches Ok(t) ==> t.wf(),
{
    if let Ok(t) = s.single_payout(caller, recipient, amount, now) {
        lemma_history_total_push(s.payout_history, PayoutRecord { recipient, amount, timestamp: now });
        assert forall|i: int|
            0 <= i < t.payout_history.len() implies (#[trigger] t.payout_history[i]).amount > 0 by {
            if i < s.payout_history.len() {
                assert(t.payout_history[i] == s.payout_history[i]);
            }
        }
    }
    if let Ok(t) = s.batch_payout(caller, recipients, amounts, now) {
        let b = batch_records(recipients, amounts, now);
        lemma_history_total_append(s.payout_history, b);
        lemma_batch_total(recipients, amounts, now);
        assert forall|i: int|
            0 <= i < t.payout_history.len() implies (#[trigger] t.payout_history[i]).amount > 0 by {
            if i < s.payout_history.len() {
                assert(t.payout_history[i] == s.payout_history[i]);
            } else {
                assert(t.payout_history[i] == b[i - s.payout_history.len()]);
                assert(!(amounts[i - s.payout_history.len()] <= 0));
            }
        }
    }
    if let Ok(t) = s.create_release_schedule(caller, amount, now, recipient) {
        assert forall|i: int| 0 <= i < t.schedules.len() implies (#[trigger] t.schedules[i]).schedule_id
            == i as u64 && t.schedules[i].amount > 0 by {
            if i < s.schedules.len() {
                assert(t.schedules[i] == s.schedules[i]);
            }
        }
    }
    if let Ok(t) = s.trigger_releases(now) {
        let due = due_payouts(s.schedules, now);
        lemma_history_total_append(s.payout_history, due);
        lemma_due_payouts_positive(s.schedules, now);
        assert forall|i: int|
            0 <= i < t.payout_history.len() implies (#[trigger] t.payout_history[i]).amount > 0 by {
            if i < s.payout_history.len() {
                assert(t.payout_history[i] == s.payout_history[i]);
            } else {
                assert(t.payout_history[i] == due[i - s.payout_history.len()]);
            }
        }
        if due.len() > 0 {
            assert forall|i: int| 0 <= i < t.schedules.len() implies (#[trigger] t.schedules[i]).schedule_id
                == i as u64 && t.schedules[i].amount > 0 by {
                assert(t.schedules[i] == after_trigger(s.schedules[i], now));
                assert(s.schedules[i].schedule_id == i as u64);
            }
        }
    }
}

/// With positive schedules, what a prefix of them pays out is at most what
/// all of them pay out, and not negative.
pub proof fn lemma_due_total_prefix(schedules: Seq<ReleaseSchedule>, k: int, now: u64)
    requires
        forall|i: int| 0 <= i < schedules.len() ==> (#[trigger] schedules[i]).amount > 0,
        0 <= k <= schedules.len(),
    ensures
        0 <= history_total(due_payouts(schedules.take(k), now)) <= history_total(
            due_payouts(schedules, now),
        ),
    decreases schedules.len(),
{
    if schedules.len() > 0 {
        let t = schedules.drop_last();
        assert forall|i: int| 0 <= i < t.len() implies (#[trigger] t[i]).amount > 0 by {
            assert(t[i] == schedules[i]);
        }
        assert(schedules[schedules.len() - 1].amount > 0);
        let d = due_payouts(t, now);
        let last = schedules.last();
        lemma_history_total_push(
            d,
            PayoutRecord { recipient: last.recipient, amount: last.amount, timestamp: now },
        );
        if k == schedules.len() {
            assert(schedules.take(k) =~= schedules);
            lemma_due_total_prefix(t, t.len() as int, now);
            assert(t.take(t.len() as int) =~= t);
        } else {
            assert(schedules.take(k) =~= t.take(k));
            lemma_due_total_prefix(t, k, now);
        }
    } else {
        assert(schedules.take(k) =~= schedules);
    }
}

/// A history of positive payouts has a total that is not negative.
pub proof fn lemma_history_total_nonneg(h: Seq<PayoutRecord>)
    requires
        forall|i: int| 0 <= i < h.len() ==> (#[trigger] h[i]).amount > 0,
    ensures
        history_total(h) >= 0,
    decreases h.len(),
{
    if h.len() > 0 {
        let t = h.drop_last();
        assert forall|i: int| 0 <= i < t.len() implies (#[trigger] t[i]).amount > 0 by {
            assert(t[i] == h[i]);
        }
        lemma_history_total_nonneg(t);
        assert(h[h.len() - 1].amount > 0);
    }
}

} // verus!

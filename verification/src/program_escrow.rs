//! The executable program escrow contract.
use vstd::prelude::*;

use crate::program_state::{
    after_trigger, amounts_total, batch_records, due_payouts, error_message, history_total,
    lemma_amounts_total_prefix, lemma_amounts_total_take, lemma_due_payouts_positive,
    lemma_due_payouts_take, lemma_due_total_prefix, lemma_history_total_nonneg,
    lemma_history_total_push, lemma_program_operations_keep_wf, payout_transfer,
    payout_transfers, BatchPayoutEvent, EventBody, EventView, PayoutRecord, ProgramError,
    ProgramPending, ProgramState, ReleaseSchedule, MAX_BATCH_SIZE,
};
use crate::token::{copy_vec, Party, Transfer};

verus! {

/// How a program escrow operation ended: on success the state is the one the
/// transition gives; on failure nothing changed.
pub open spec fn program_outcome<T>(
    pre: ProgramState,
    step: Result<ProgramState, ProgramError>,
    post: ProgramState,
    r: Result<T, ProgramError>,
) -> bool {
    match step {
        Ok(s) => post == s && r is Ok,
        Err(e) => post == pre && r == Err::<T, ProgramError>(e),
    }
}

/// `d` is the program data of state `s`.
pub open spec fn data_matches(d: ProgramData, s: ProgramState) -> bool {
    &&& d.program_id@ == s.program_id
    &&& d.total_funds == s.total_funds
    &&& d.remaining_balance == s.remaining_balance
    &&& d.authorized_payout_key == s.authorized_payout_key
    &&& d.payout_history@ == s.payout_history
    &&& d.token_address == s.token_address
}

impl ProgramError {
    /// The message the contract gives for this error.
    pub fn message(&self) -> (m: &'static str)
        ensures
            m@ == error_message(*self)@,
    {
        match self {
            ProgramError::InvalidAmount => "Amount must be greater than zero",
            ProgramError::InvalidBatchAmount => "All amounts must be greater than zero",
            ProgramError::InsufficientBalance => "Insufficient balance",
            ProgramError::LengthMismatch => "Recipients and amounts vectors must have the same length",
            ProgramError::EmptyBatch => "Cannot process empty batch",
            ProgramError::BatchTooLarge => "Batch size exceeds maximum",
            ProgramError::AmountOverflow => "Amount overflow",
            ProgramError::Unauthorized => "Unauthorized",
            ProgramError::ReentrantCall => "Reentrancy detected",
            ProgramError::NoTransferPending => "No transfer pending",
        }
    }
}

/// Everything the contract stores about its program.
pub struct ProgramData {
    pub program_id: String,
    pub total_funds: i128,
    pub remaining_balance: i128,
    pub authorized_payout_key: u64,
    pub payout_history: Vec<PayoutRecord>,
    pub token_address: u64,
}

/// An event the program escrow emitted.
pub struct ProgramEvent {
    pub program_id: String,
    pub body: EventBody,
}

/// The emitted events `v`, as the contracts speak of them.
pub open spec fn events_view(v: Seq<ProgramEvent>) -> Seq<EventView> {
    v.map_values(|e: ProgramEvent| EventView { program_id: e.program_id@, body: e.body })
}

/// Transfers in flight, with a copy of the state to go back to; of the
/// events, only how many there were is kept.
struct PendingPayouts {
    transfers: Vec<Transfer>,
    total_funds: i128,
    remaining_balance: i128,
    payout_history: Vec<PayoutRecord>,
    schedules: Vec<ReleaseSchedule>,
    events_len: usize,
}

spec fn pending_view(p: PendingPayouts, events: Seq<EventView>) -> ProgramPending {
    ProgramPending {
        transfers: p.transfers@,
        total_funds: p.total_funds as int,
        remaining_balance: p.remaining_balance as int,
        payout_history: p.payout_history@,
        schedules: p.schedules@,
        events: if p.events_len <= events.len() {
            events.take(p.events_len as int)
        } else {
            events
        },
    }
}

/// A program escrow contract: its program data, its release schedules, the
/// events it emitted and the transfers in flight.
pub struct ProgramEscrow {
    data: ProgramData,
    schedules: Vec<ReleaseSchedule>,
    events: Vec<ProgramEvent>,
    pending: Option<PendingPayouts>,
}

impl View for ProgramEscrow {
    type V = ProgramState;

    closed spec fn view(&self) -> ProgramState {
        ProgramState {
            program_id: self.data.program_id@,
            total_funds: self.data.total_funds as int,
            remaining_balance: self.data.remaining_balance as int,
            authorized_payout_key: self.data.authorized_payout_key,
            token_address: self.data.token_address,
            payout_history: self.data.payout_history@,
            schedules: self.schedules@,
            events: events_view(self.events@),
            pending: match self.pending {
                Some(p) => Some(pending_view(p, events_view(self.events@))),
                None => None,
            },
        }
    }
}

impl ProgramEscrow {
    /// `init_program`: a program escrow for `program_id` whose payouts
    /// `authorized_payout_key` authorises, holding funds in `token_address`.
    pub fn init_program(program_id: String, authorized_payout_key: u64, token_address: u64) -> (p:
        ProgramEscrow)
        ensures
            p@ == ProgramState::init(program_id@, authorized_payout_key, token_address),
            p@.wf(),
    {
        let mut events: Vec<ProgramEvent> = Vec::new();
        events.push(
            ProgramEvent {
                program_id: program_id.clone(),
                body: EventBody::ProgramInitialized {
                    authorized_payout_key,
                    token_address,
                    total_funds: 0,
                },
            },
        );
        let p = ProgramEscrow {
            data: ProgramData {
                program_id,
                total_funds: 0,
                remaining_balance: 0,
                authorized_payout_key,
                payout_history: Vec::new(),
                token_address,
            },
            schedules: Vec::new(),
            events,
            pending: None,
        };
        assert(p@.payout_history =~= Seq::<PayoutRecord>::empty());
        assert(p@.schedules =~= Seq::<ReleaseSchedule>::empty());
        assert(p@.events =~= ProgramState::init(
            p@.program_id,
            authorized_payout_key,
            token_address,
        ).events);
        p
    }

    /// The transfers `t`, pending, with a copy of the current state.
    fn snapshot(&self, t: Vec<Transfer>) -> (p: PendingPayouts)
        ensures
            pending_view(p, self@.events) == self@.snapshot(t@),
            p.events_len == self@.events.len(),
    {
        let p = PendingPayouts {
            transfers: t,
            total_funds: self.data.total_funds,
            remaining_balance: self.data.remaining_balance,
            payout_history: copy_vec(&self.data.payout_history),
            schedules: copy_vec(&self.schedules),
            events_len: self.events.len(),
        };
        assert(self@.events.take(p.events_len as int) =~= self@.events);
        p
    }

    /// Emits an event about this program.
    fn emit(&mut self, body: EventBody)
        requires
            old(self)@.pending is None,
        ensures
            final(self)@ == (ProgramState { events: old(self)@.emit(body), ..old(self)@ }),
    {
        let e = ProgramEvent { program_id: self.data.program_id.clone(), body };
        self.events.push(e);
        assert(events_view(self.events@) =~= old(self)@.emit(body));
    }

    /// A copy of the program data.
    fn info(&self) -> (d: ProgramData)
        ensures
            data_matches(d, self@),
    {
        ProgramData {
            program_id: self.data.program_id.clone(),
            total_funds: self.data.total_funds,
            remaining_balance: self.data.remaining_balance,
            authorized_payout_key: self.data.authorized_payout_key,
            payout_history: copy_vec(&self.data.payout_history),
            token_address: self.data.token_address,
        }
    }

    /// Whether the reentrancy guard is held, that is, transfers are in flight.
    pub fn is_guard_held(&self) -> (held: bool)
        ensures
            held == (self@.pending is Some),
    {
        self.pending.is_some()
    }

    /// The transfers in flight, in order; none when the guard is free.
    pub fn pending_transfers(&self) -> (t: Vec<Transfer>)
        ensures
            t@ == self@.pending_transfers(),
    {
        match &self.pending {
            Some(p) => copy_vec(&p.transfers),
            None => Vec::new(),
        }
    }

    /// Every event the program emitted, oldest first.
    pub fn events(&self) -> (e: &Vec<ProgramEvent>)
        ensures
            events_view(e@) == self@.events,
    {
        &self.events
    }

    /// `lock_program_funds`: `amount` more is locked into the program, coming
    /// from `from`; the transfer into the escrow is pending, and the updated
    /// program data is returned.
    pub fn lock_program_funds(&mut self, from: u64, amount: i128) -> (r: Result<
        ProgramData,
        ProgramError,
    >)
        requires
            old(self)@.wf(),
        ensures
            final(self)@.wf(),
            program_outcome(old(self)@, old(self)@.lock_program_funds(from, amount), final(self)@, r),
            r matches Ok(d) ==> data_matches(d, final(self)@),
    {
        proof {
            lemma_program_operations_keep_wf(self@, 0, amount, from, Seq::empty(), Seq::empty(), 0);
        }
        if self.pending.is_some() {
            return Err(ProgramError::ReentrantCall);
        }
        if amount <= 0 {
            return Err(ProgramError::InvalidAmount);
        }
        proof {
            lemma_history_total_nonneg(self@.payout_history);
        }
        let total = match self.data.total_funds.checked_add(amount) {
            Some(t) => t,
            None => {
                return Err(ProgramError::AmountOverflow);
            },
        };
        let mut transfers: Vec<Transfer> = Vec::new();
        transfers.push(Transfer { from: Party::Account(from), to: Party::Escrow, amount });
        proof {
            assert(transfers@ =~= seq![
                Transfer { from: Party::Account(from), to: Party::Escrow, amount },
            ]);
        }
        let saved = self.snapshot(transfers);
        self.data.total_funds = total;
        self.data.remaining_balance = self.data.remaining_balance + amount;
        self.emit(EventBody::FundsLocked { amount, remaining_balance: self.data.remaining_balance });
        self.pending = Some(saved);
        proof {
            assert(self@.events.take(saved.events_len as int) =~= old(self)@.events);
        }
        Ok(self.info())
    }

    /// `single_payout`: the payout key `caller` sends `amount` to `recipient`
    /// at `now`; the transfer is pending, and the updated program data is
    /// returned.
    pub fn single_payout(&mut self, caller: u64, recipient: u64, amount: i128, now: u64) -> (r:
        Result<ProgramData, ProgramError>)
        requires
            old(self)@.wf(),
        ensures
            final(self)@.wf(),
            program_outcome(
                old(self)@,
                old(self)@.single_payout(caller, recipient, amount, now),
                final(self)@,
                r,
            ),
            r matches Ok(d) ==> data_matches(d, final(self)@),
    {
        proof {
            lemma_program_operations_keep_wf(
                self@,
                caller,
                amount,
                recipient,
                Seq::empty(),
                Seq::empty(),
                now,
            );
        }
        if self.pending.is_some() {
            return Err(ProgramError::ReentrantCall);
        }
        if caller != self.data.authorized_payout_key {
            return Err(ProgramError::Unauthorized);
        }
        if amount <= 0 {
            return Err(ProgramError::InvalidAmount);
        }
        if amount > self.data.remaining_balance {
            return Err(ProgramError::InsufficientBalance);
        }
        let p = PayoutRecord { recipient, amount, timestamp: now };
        let mut transfers: Vec<Transfer> = Vec::new();
        transfers.push(Transfer { from: Party::Escrow, to: Party::Account(recipient), amount });
        proof {
            assert(transfers@ =~= seq![payout_transfer(p)]);
        }
        let saved = self.snapshot(transfers);
        self.data.remaining_balance = self.data.remaining_balance - amount;
        self.data.payout_history.push(p);
        self.emit(
            EventBody::Payout { recipient, amount, remaining_balance: self.data.remaining_balance },
        );
        self.pending = Some(saved);
        proof {
            assert(self@.events.take(saved.events_len as int) =~= old(self)@.events);
        }
        Ok(self.info())
    }

    /// `batch_payout`: the payout key `caller` sends `amounts[i]` to
    /// `recipients[i]` for every `i` at `now`, all at once or not at all. The
    /// transfers are pending, the batch event is emitted, and the updated
    /// program data is returned.
    pub fn batch_payout(
        &mut self,
        caller: u64,
        recipients: &Vec<u64>,
        amounts: &Vec<i128>,
        now: u64,
    ) -> (r: Result<ProgramData, ProgramError>)
        requires
            old(self)@.wf(),
        ensures
            final(self)@.wf(),
            program_outcome(
                old(self)@,
                old(self)@.batch_payout(caller, recipients@, amounts@, now),
                final(self)@,
                r,
            ),
            r matches Ok(d) ==> data_matches(d, final(self)@),
    {
        proof {
            lemma_program_operations_keep_wf(self@, caller, 0, 0, recipients@, amounts@, now);
        }
        if self.pending.is_some() {
            return Err(ProgramError::ReentrantCall);
        }
        if caller != self.data.authorized_payout_key {
            return Err(ProgramError::Unauthorized);
        }
        let n = recipients.len();
        if n != amounts.len() {
            return Err(ProgramError::LengthMismatch);
        }
        if n == 0 {
            return Err(ProgramError::EmptyBatch);
        }
        if n > MAX_BATCH_SIZE as usize {
            return Err(ProgramError::BatchTooLarge);
        }
        for i in 0..n
            invariant
                n == amounts@.len(),
                n == recipients@.len(),
                0 < n <= MAX_BATCH_SIZE,
                self@ == old(self)@,
                self@.wf(),
                self@.pending is None,
                caller == self@.authorized_payout_key,
                forall|j: int| 0 <= j < i ==> amounts@[j] > 0,
        {
            if amounts[i] <= 0 {
                return Err(ProgramError::InvalidBatchAmount);
            }
        }
        let remaining = self.data.remaining_balance;
        let mut total: i128 = 0;
        for i in 0..n
            invariant
                n == amounts@.len(),
                n == recipients@.len(),
                0 < n <= MAX_BATCH_SIZE,
                self@ == old(self)@,
                self@.wf(),
                self@.pending is None,
                caller == self@.authorized_payout_key,
                remaining == old(self)@.remaining_balance,
                forall|j: int| 0 <= j < n ==> amounts@[j] > 0,
                total == amounts_total(amounts@.take(i as int)),
                total <= remaining,
        {
            proof {
                lemma_amounts_total_take(amounts@, i as int);
                lemma_amounts_total_prefix(amounts@, i + 1);
            }
            match total.checked_add(amounts[i]) {
                Some(t) => {
                    if t > remaining {
                        return Err(ProgramError::InsufficientBalance);
                    }
                    total = t;
                },
                None => {
                    return Err(ProgramError::InsufficientBalance);
                },
            }
        }
        proof {
            assert(amounts@.take(n as int) =~= amounts@);
        }
        let ghost pre = self@;
        let ghost batch = batch_records(recipients@, amounts@, now);
        let mut saved = self.snapshot(Vec::new());
        let mut transfers: Vec<Transfer> = Vec::new();
        for i in 0..n
            invariant
                n == amounts@.len(),
                n == recipients@.len(),
                0 < n <= MAX_BATCH_SIZE,
                batch == batch_records(recipients@, amounts@, now),
                forall|j: int| 0 <= j < n ==> amounts@[j] > 0,
                total == amounts_total(amounts@),
                total <= pre.remaining_balance,
                transfers@ == payout_transfers(batch.take(i as int)),
                self@ == (ProgramState {
                    remaining_balance: pre.remaining_balance - amounts_total(
                        amounts@.take(i as int),
                    ),
                    payout_history: pre.payout_history + batch.take(i as int),
                    ..pre
                }),
        {
            proof {
                lemma_amounts_total_take(amounts@, i as int);
                lemma_amounts_total_prefix(amounts@, i + 1);
                assert((pre.payout_history + batch.take(i as int)).push(batch[i as int])
                    =~= pre.payout_history + batch.take(i + 1));
                assert(payout_transfers(batch.take(i + 1)) =~= payout_transfers(
                    batch.take(i as int),
                ).push(payout_transfer(batch[i as int])));
            }
            self.data.payout_history.push(
                PayoutRecord { recipient: recipients[i], amount: amounts[i], timestamp: now },
            );
            transfers.push(
                Transfer { from: Party::Escrow, to: Party::Account(recipients[i]), amount: amounts[i] },
            );
            self.data.remaining_balance = self.data.remaining_balance - amounts[i];
        }
        proof {
            assert(batch.take(n as int) =~= batch);
        }
        let event = BatchPayoutEvent {
            recipient_count: n as u32,
            total_amount: total,
            remaining_balance: self.data.remaining_balance,
            gas_proxy_transfer_ops: n as u32,
            gas_proxy_history_appends: n as u32,
            gas_proxy_storage_reads: 1,
            gas_proxy_storage_writes: 1,
            gas_proxy_events_emitted: 1,
        };
        self.emit(EventBody::BatchPayout(event));
        saved.transfers = transfers;
        self.pending = Some(saved);
        proof {
            assert(self@.events.take(saved.events_len as int) =~= old(self)@.events);
        }
        Ok(self.info())
    }

    /// `create_program_release_schedule`: the payout key `caller` queues
    /// `amount` for `recipient`, due once the ledger reaches
    /// `release_timestamp`; the new schedule's id is returned.
    pub fn create_program_release_schedule(
        &mut self,
        caller: u64,
        amount: i128,
        release_timestamp: u64,
        recipient: u64,
    ) -> (r: Result<u64, ProgramError>)
        requires
            old(self)@.wf(),
        ensures
            final(self)@.wf(),
            program_outcome(
                old(self)@,
                old(self)@.create_release_schedule(caller, amount, release_timestamp, recipient),
                final(self)@,
                r,
            ),
            r matches Ok(id) ==> id == old(self)@.schedules.len() as u64,
    {
        proof {
            lemma_program_operations_keep_wf(
                self@,
                caller,
                amount,
                recipient,
                Seq::empty(),
                Seq::empty(),
                release_timestamp,
            );
        }
        if self.pending.is_some() {
            return Err(ProgramError::ReentrantCall);
        }
        if caller != self.data.authorized_payout_key {
            return Err(ProgramError::Unauthorized);
        }
        if amount <= 0 {
            return Err(ProgramError::InvalidAmount);
        }
        let id = self.schedules.len() as u64;
        self.schedules.push(
            ReleaseSchedule { schedule_id: id, recipient, amount, release_timestamp, released: false },
        );
        self.emit(
            EventBody::ReleaseScheduleCreated { schedule_id: id, recipient, amount, release_timestamp },
        );
        Ok(id)
    }

    /// `trigger_program_releases`: pays every schedule due at `now`, in order,
    /// all at once or not at all; the transfers are pending, and the number of
    /// payouts made is returned.
    pub fn trigger_program_releases(&mut self, now: u64) -> (r: Result<u64, ProgramError>)
        requires
            old(self)@.wf(),
        ensures
            final(self)@.wf(),
            program_outcome(old(self)@, old(self)@.trigger_releases(now), final(self)@, r),
            r matches Ok(count) ==> count == due_payouts(old(self)@.schedules, now).len(),
    {
        proof {
            lemma_program_operations_keep_wf(self@, 0, 0, 0, Seq::empty(), Seq::empty(), now);
            lemma_due_payouts_positive(self@.schedules, now);
        }
        if self.pending.is_some() {
            return Err(ProgramError::ReentrantCall);
        }
        let ghost pre = self@;
        let n = self.schedules.len();
        let remaining = self.data.remaining_balance;
        let mut total: i128 = 0;
        let mut due_count: u64 = 0;
        for i in 0..n
            invariant
                n == pre.schedules.len(),
                self@ == pre,
                pre.wf(),
                pre.pending is None,
                remaining == pre.remaining_balance,
                total == history_total(due_payouts(pre.schedules.take(i as int), now)),
                total <= remaining,
                due_count == due_payouts(pre.schedules.take(i as int), now).len(),
                due_count <= i,
        {
            proof {
                lemma_due_payouts_take(pre.schedules, i as int, now);
                lemma_history_total_push(
                    due_payouts(pre.schedules.take(i as int), now),
                    PayoutRecord {
                        recipient: pre.schedules[i as int].recipient,
                        amount: pre.schedules[i as int].amount,
                        timestamp: now,
                    },
                );
                lemma_due_total_prefix(pre.schedules, i + 1, now);
            }
            let s = self.schedules[i];
            if !s.released && s.release_timestamp <= now {
                match total.checked_add(s.amount) {
                    Some(t) => {
                        if t > remaining {
                            return Err(ProgramError::InsufficientBalance);
                        }
                        total = t;
                    },
                    None => {
                        return Err(ProgramError::InsufficientBalance);
                    },
                }
                due_count = due_count + 1;
            }
        }
        proof {
            assert(pre.schedules.take(n as int) =~= pre.schedules);
        }
        if due_count == 0 {
            return Ok(0);
        }
        let mut saved = self.snapshot(Vec::new());
        let mut transfers: Vec<Transfer> = Vec::new();
        let mut count: u64 = 0;
        for i in 0..n
            invariant
                n == pre.schedules.len(),
                pre.wf(),
                total == history_total(due_payouts(pre.schedules, now)),
                total <= pre.remaining_balance,
                self.schedules@.len() == n,
                forall|j: int|
                    0 <= j < i ==> self.schedules@[j] == after_trigger(pre.schedules[j], now),
                forall|j: int| i <= j < n ==> self.schedules@[j] == pre.schedules[j],
                self@ == (ProgramState {
                    remaining_balance: pre.remaining_balance - history_total(
                        due_payouts(pre.schedules.take(i as int), now),
                    ),
                    payout_history: pre.payout_history + due_payouts(
                        pre.schedules.take(i as int),
                        now,
                    ),
                    schedules: self.schedules@,
                    ..pre
                }),
                transfers@ == payout_transfers(due_payouts(pre.schedules.take(i as int), now)),
                count == due_payouts(pre.schedules.take(i as int), now).len(),
                count <= i,
        {
            let ghost due = due_payouts(pre.schedules.take(i as int), now);
            proof {
                lemma_due_payouts_take(pre.schedules, i as int, now);
                lemma_due_total_prefix(pre.schedules, i + 1, now);
                lemma_due_total_prefix(pre.schedules, i as int, now);
            }
            let s = self.schedules[i];
            if !s.released && s.release_timestamp <= now {
                let p = PayoutRecord { recipient: s.recipient, amount: s.amount, timestamp: now };
                proof {
                    lemma_history_total_push(due, p);
                    assert((pre.payout_history + due).push(p) =~= pre.payout_history + due.push(p));
                    assert(payout_transfers(due.push(p)) =~= payout_transfers(due).push(
                        payout_transfer(p),
                    ));
                }
                self.schedules.set(i, ReleaseSchedule { released: true, ..s });
                self.data.payout_history.push(p);
                transfers.push(
                    Transfer { from: Party::Escrow, to: Party::Account(s.recipient), amount: s.amount },
                );
                self.data.remaining_balance = self.data.remaining_balance - s.amount;
                count = count + 1;
            }
        }
        proof {
            assert(pre.schedules.take(n as int) =~= pre.schedules);
            assert(self.schedules@ =~= pre.schedules.map_values(
                |s: ReleaseSchedule| after_trigger(s, now),
            ));
        }
        self.emit(
            EventBody::ReleasesTriggered {
                count,
                total_amount: total,
                remaining_balance: self.data.remaining_balance,
            },
        );
        saved.transfers = transfers;
        self.pending = Some(saved);
        proof {
            assert(self@.events.take(saved.events_len as int) =~= pre.events);
        }
        Ok(count)
    }

    /// `complete_transfers`: the host reports that the pending transfers were
    /// carried out; the reentrancy guard is released.
    pub fn complete_transfers(&mut self) -> (r: Result<(), ProgramError>)
        requires
            old(self)@.wf(),
        ensures
            final(self)@.wf(),
            program_outcome(old(self)@, old(self)@.complete_transfers(), final(self)@, r),
    {
        proof {
            lemma_program_operations_keep_wf(self@, 0, 0, 0, Seq::empty(), Seq::empty(), 0);
        }
        if self.pending.is_none() {
            return Err(ProgramError::NoTransferPending);
        }
        self.pending = None;
        Ok(())
    }

    /// `abort_transfers`: the host could not carry out the pending transfers;
    /// the operation that asked for them is undone and the guard released.
    pub fn abort_transfers(&mut self) -> (r: Result<(), ProgramError>)
        requires
            old(self)@.wf(),
        ensures
            final(self)@.wf(),
            program_outcome(old(self)@, old(self)@.abort_transfers(), final(self)@, r),
    {
        proof {
            lemma_program_operations_keep_wf(self@, 0, 0, 0, Seq::empty(), Seq::empty(), 0);
        }
        match self.pending.take() {
            Some(p) => {
                self.data.total_funds = p.total_funds;
                self.data.remaining_balance = p.remaining_balance;
                self.data.payout_history = p.payout_history;
                self.schedules = p.schedules;
                let ghost before = self.events@;
                self.events.truncate(p.events_len);
                proof {
                    if p.events_len <= before.len() {
                        assert(events_view(self.events@) =~= events_view(before).take(
                            p.events_len as int,
                        ));
                    }
                }
                Ok(())
            },
            None => Err(ProgramError::NoTransferPending),
        }
    }

    /// `get_program_info`: a copy of everything the contract stores about its
    /// program.
    pub fn get_program_info(&self) -> (d: ProgramData)
        ensures
            data_matches(d, self@),
    {
        self.info()
    }

    /// `get_remaining_balance`: what is left to pay out.
    pub fn get_remaining_balance(&self) -> (b: i128)
        ensures
            b == self@.remaining_balance,
    {
        self.data.remaining_balance
    }

    /// The release schedule with id `id`, if there is one.
    pub fn get_release_schedule(&self, id: u64) -> (s: Option<ReleaseSchedule>)
        requires
            self@.wf(),
        ensures
            s == (if id < self@.schedules.len() {
                Some(self@.schedules[id as int])
            } else {
                None
            }),
    {
        let n = self.schedules.len();
        if id < n as u64 {
            Some(self.schedules[id as usize])
        } else {
            None
        }
    }
}

} // verus!

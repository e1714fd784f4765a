//! The executable bounty escrow contract.
use vstd::prelude::*;

use crate::bounty_state::{
    aggregate, is_active, lemma_index_unique, lemma_operations_keep_wf, lemma_sum_bounds,
    lemma_sum_elem_le, lemma_sum_prefix_le, lemma_sum_take, record_ok, sum, AggregateStats,
    BountyState, DepositorActivity, Error, Escrow, EscrowRecord, EscrowStatus, Measure,
    PendingState, RefundApproval, RefundMode, LOCK_COOLDOWN_SECS,
};
use crate::token::{copy_vec, Party, Transfer};

verus! {

/// How an operation that moves tokens ended: on success the state is the one
/// the transition gives and the transfer returned is the pending one; on
/// failure nothing changed.
pub open spec fn transfer_outcome(
    pre: BountyState,
    step: Result<BountyState, Error>,
    post: BountyState,
    r: Result<Transfer, Error>,
) -> bool {
    match step {
        Ok(s) => post == s && (r matches Ok(t) && s.pending_transfer() == Some(t)),
        Err(e) => post == pre && r == Err::<Transfer, Error>(e),
    }
}

/// How an operation that moves no tokens ended.
pub open spec fn plain_outcome(
    pre: BountyState,
    step: Result<BountyState, Error>,
    post: BountyState,
    r: Result<(), Error>,
) -> bool {
    match step {
        Ok(s) => post == s && r is Ok,
        Err(e) => post == pre && r == Err::<(), Error>(e),
    }
}

/// A transfer in flight, with a copy of the state to go back to.
struct PendingTransfer {
    transfer: Transfer,
    records: Vec<EscrowRecord>,
    activity: Vec<DepositorActivity>,
    balance: i128,
    total_locked: i128,
    total_released: i128,
    total_refunded: i128,
}

spec fn pending_view(p: PendingTransfer) -> PendingState {
    PendingState {
        transfer: p.transfer,
        records: p.records@,
        activity: p.activity@,
        balance: p.balance as int,
        total_locked: p.total_locked as int,
        total_released: p.total_released as int,
        total_refunded: p.total_refunded as int,
    }
}

/// A bounty escrow contract: the bounties it holds, the depositors' last
/// locks, the transfer in flight and the running totals.
pub struct BountyEscrow {
    admin: u64,
    token: u64,
    records: Vec<EscrowRecord>,
    activity: Vec<DepositorActivity>,
    pending: Option<PendingTransfer>,
    balance: i128,
    total_locked: i128,
    total_released: i128,
    total_refunded: i128,
}

impl View for BountyEscrow {
    type V = BountyState;

    closed spec fn view(&self) -> BountyState {
        BountyState {
            admin: self.admin,
            token: self.token,
            records: self.records@,
            activity: self.activity@,
            pending: match self.pending {
                Some(p) => Some(pending_view(p)),
                None => None,
            },
            balance: self.balance as int,
            total_locked: self.total_locked as int,
            total_released: self.total_released as int,
            total_refunded: self.total_refunded as int,
        }
    }
}

impl BountyEscrow {
    /// `init`: a contract run by `admin` that holds funds in `token`.
    pub fn init(admin: u64, token: u64) -> (s: BountyEscrow)
        ensures
            s@ == BountyState::init(admin, token),
            s@.wf(),
    {
        let s = BountyEscrow {
            admin,
            token,
            records: Vec::new(),
            activity: Vec::new(),
            pending: None,
            balance: 0,
            total_locked: 0,
            total_released: 0,
            total_refunded: 0,
        };
        assert(s@.records =~= Seq::<EscrowRecord>::empty());
        s
    }

    /// The position of bounty `id`, if the contract holds it.
    fn find(&self, id: u64) -> (r: Option<usize>)
        requires
            self@.wf(),
        ensures
            match r {
                Some(i) => {
                    &&& self@.has_bounty(id)
                    &&& self@.index_of(id) == i
                    &&& i < self@.records.len()
                },
                None => !self@.has_bounty(id),
            },
    {
        let n = self.records.len();
        for i in 0..n
            invariant
                n == self@.records.len(),
                self@.wf(),
                forall|j: int| 0 <= j < i ==> self@.records[j].bounty_id != id,
        {
            if self.records[i].bounty_id == id {
                proof {
                    lemma_index_unique(self@, id, i as int);
                }
                return Some(i);
            }
        }
        None
    }

    /// The position of `depositor` in the lock history, if it ever locked.
    fn find_depositor(&self, depositor: u64) -> (r: Option<usize>)
        requires
            self@.wf(),
        ensures
            match r {
                Some(i) => {
                    &&& i < self@.activity.len()
                    &&& self@.activity[i as int].depositor == depositor
                },
                None => forall|j: int|
                    0 <= j < self@.activity.len() ==> self@.activity[j].depositor != depositor,
            },
    {
        let n = self.activity.len();
        for i in 0..n
            invariant
                n == self@.activity.len(),
                forall|j: int| 0 <= j < i ==> self@.activity[j].depositor != depositor,
        {
            if self.activity[i].depositor == depositor {
                return Some(i);
            }
        }
        None
    }

    /// Whether the reentrancy guard is held, that is, a transfer is in flight.
    pub fn is_guard_held(&self) -> (held: bool)
        ensures
            held == (self@.pending is Some),
    {
        self.pending.is_some()
    }

    /// The transfer in flight, if any.
    pub fn pending_transfer(&self) -> (t: Option<Transfer>)
        ensures
            t == self@.pending_transfer(),
    {
        match &self.pending {
            Some(p) => Some(p.transfer),
            None => None,
        }
    }

    /// The transfer `t`, pending, with a copy of the current state.
    fn snapshot(&self, t: Transfer) -> (p: PendingTransfer)
        ensures
            pending_view(p) == self@.snapshot(t),
    {
        PendingTransfer {
            transfer: t,
            records: copy_vec(&self.records),
            activity: copy_vec(&self.activity),
            balance: self.balance,
            total_locked: self.total_locked,
            total_released: self.total_released,
            total_refunded: self.total_refunded,
        }
    }

    /// The admin the contract was initialised with.
    pub fn admin(&self) -> (a: u64)
        ensures
            a == self@.admin,
    {
        self.admin
    }

    /// The token the contract holds.
    pub fn token(&self) -> (t: u64)
        ensures
            t == self@.token,
    {
        self.token
    }

    /// `lock_funds`: `depositor` moves `amount` into a new escrow for
    /// `bounty_id`, refundable from `deadline` on. On success the returned
    /// transfer, from the depositor to the contract, is pending.
    pub fn lock_funds(
        &mut self,
        depositor: u64,
        bounty_id: u64,
        amount: i128,
        deadline: u64,
        now: u64,
    ) -> (r: Result<Transfer, Error>)
        requires
            old(self)@.wf(),
        ensures
            final(self)@.wf(),
            transfer_outcome(
                old(self)@,
                old(self)@.lock_funds(depositor, bounty_id, amount, deadline, now),
                final(self)@,
                r,
            ),
    {
        proof {
            lemma_operations_keep_wf(
                self@,
                0,
                depositor,
                bounty_id,
                amount,
                deadline,
                now,
                0,
                RefundMode::Full,
            );
        }
        if self.pending.is_some() {
            return Err(Error::ReentrantCall);
        }
        if amount <= 0 {
            return Err(Error::InvalidAmount);
        }
        if deadline <= now {
            return Err(Error::InvalidDeadline);
        }
        if self.find(bounty_id).is_some() {
            return Err(Error::BountyExists);
        }
        let found = self.find_depositor(depositor);
        if let Some(i) = found {
            let last = self.activity[i].last_lock;
            let cooling = match last.checked_add(LOCK_COOLDOWN_SECS) {
                Some(until) => now < until,
                None => true,
            };
            proof {
                let s = self@;
                if s.in_cooldown(depositor, now) {
                    let j = choose|j: int|
                        0 <= j < s.activity.len() && s.activity[j].depositor == depositor && now
                            < s.activity[j].last_lock + LOCK_COOLDOWN_SECS;
                    if j < i {
                        assert(s.activity[j].depositor != s.activity[i as int].depositor);
                    } else if i < j {
                        assert(s.activity[i as int].depositor != s.activity[j].depositor);
                    }
                }
            }
            if cooling {
                return Err(Error::CooldownActive);
            }
        }
        let new_total = match self.total_locked.checked_add(amount) {
            Some(t) => t,
            None => {
                return Err(Error::AmountOverflow);
            },
        };
        let ghost pre = self@;
        let t = Transfer { from: Party::Account(depositor), to: Party::Escrow, amount };
        let saved = self.snapshot(t);
        let escrow = Escrow {
            depositor,
            amount,
            remaining_amount: amount,
            status: EscrowStatus::Locked,
            deadline,
        };
        self.records.push(EscrowRecord { bounty_id, escrow, approval: None });
        let entry = DepositorActivity { depositor, last_lock: now };
        match found {
            Some(i) => {
                proof {
                    let c = choose|c: int|
                        0 <= c < pre.activity.len() && pre.activity[c].depositor == depositor;
                    if c < i {
                        assert(pre.activity[c].depositor != pre.activity[i as int].depositor);
                    } else if i < c {
                        assert(pre.activity[i as int].depositor != pre.activity[c].depositor);
                    }
                }
                self.activity.set(i, entry);
            },
            None => {
                self.activity.push(entry);
            },
        }
        self.balance = self.balance + amount;
        self.total_locked = new_total;
        self.pending = Some(saved);
        Ok(t)
    }

    /// Pays `amount` out of the bounty at position `i` and records the
    /// escrow's new remaining amount, status and approval.
    fn pay_out(
        &mut self,
        i: usize,
        to: u64,
        amount: i128,
        status: EscrowStatus,
        approval: Option<RefundApproval>,
        refund: bool,
        remaining: i128,
    ) -> (t: Transfer)
        requires
            old(self)@.wf(),
            old(self)@.pending is None,
            i < old(self)@.records.len(),
            is_active(old(self)@.records[i as int].escrow.status),
            0 <= amount <= old(self)@.records[i as int].escrow.remaining_amount,
        ensures
            final(self)@ == old(self)@.pay_out(
                old(self)@.records[i as int].bounty_id,
                to,
                amount as int,
                status,
                approval,
                refund,
                remaining as int,
            ),
            final(self)@.pending_transfer() == Some(t),
    {
        let ghost pre = self@;
        let t = Transfer { from: Party::Escrow, to: Party::Account(to), amount };
        let saved = self.snapshot(t);
        let ghost id = pre.records[i as int].bounty_id;
        proof {
            lemma_index_unique(pre, id, i as int);
            lemma_sum_elem_le(pre.records, i as int, Measure::Active);
            assert(record_ok(pre.records[i as int]));
        }
        let r = self.records[i];
        let rec = EscrowRecord {
            escrow: Escrow { remaining_amount: remaining, status, ..r.escrow },
            approval,
            ..r
        };
        self.records.set(i, rec);
        self.balance = self.balance - amount;
        if refund {
            self.total_refunded = self.total_refunded + amount;
        } else {
            self.total_released = self.total_released + amount;
        }
        self.pending = Some(saved);
        t
    }

    /// `release_funds`: the admin `caller` sends everything that remains of
    /// the locked bounty `id` to `contributor`; the returned transfer is
    /// pending.
    pub fn release_funds(&mut self, caller: u64, id: u64, contributor: u64) -> (r: Result<
        Transfer,
        Error,
    >)
        requires
            old(self)@.wf(),
        ensures
            final(self)@.wf(),
            transfer_outcome(
                old(self)@,
                old(self)@.release_funds(caller, id, contributor),
                final(self)@,
                r,
            ),
    {
        proof {
            lemma_operations_keep_wf(self@, caller, 0, id, 0, 0, 0, contributor, RefundMode::Full);
        }
        if self.pending.is_some() {
            return Err(Error::ReentrantCall);
        }
        if caller != self.admin {
            return Err(Error::Unauthorized);
        }
        let i = match self.find(id) {
            Some(i) => i,
            None => {
                return Err(Error::BountyNotFound);
            },
        };
        let e = self.records[i].escrow;
        if e.status != EscrowStatus::Locked {
            return Err(Error::FundsNotLocked);
        }
        let approval = self.records[i].approval;
        let t = self.pay_out(
            i,
            contributor,
            e.remaining_amount,
            EscrowStatus::Released,
            approval,
            false,
            e.remaining_amount,
        );
        Ok(t)
    }

    /// `partial_release`: the admin `caller` sends `payout` of the locked
    /// bounty `id` to `contributor`; the returned transfer is pending.
    pub fn partial_release(&mut self, caller: u64, id: u64, contributor: u64, payout: i128) -> (r:
        Result<Transfer, Error>)
        requires
            old(self)@.wf(),
        ensures
            final(self)@.wf(),
            transfer_outcome(
                old(self)@,
                old(self)@.partial_release(caller, id, contributor, payout),
                final(self)@,
                r,
            ),
    {
        proof {
            lemma_operations_keep_wf(
                self@,
                caller,
                0,
                id,
                payout,
                0,
                0,
                contributor,
                RefundMode::Full,
            );
        }
        if self.pending.is_some() {
            return Err(Error::ReentrantCall);
        }
        if caller != self.admin {
            return Err(Error::Unauthorized);
        }
        let i = match self.find(id) {
            Some(i) => i,
            None => {
                return Err(Error::BountyNotFound);
            },
        };
        let e = self.records[i].escrow;
        if e.status != EscrowStatus::Locked {
            return Err(Error::FundsNotLocked);
        }
        if payout <= 0 {
            return Err(Error::InvalidAmount);
        }
        if payout > e.remaining_amount {
            return Err(Error::InsufficientFunds);
        }
        let left = e.remaining_amount - payout;
        let status = if left == 0 {
            EscrowStatus::Released
        } else {
            EscrowStatus::Locked
        };
        let approval = self.records[i].approval;
        let t = self.pay_out(i, contributor, payout, status, approval, false, left);
        Ok(t)
    }

    /// `approve_refund`: the admin `caller` allows `amount` of the refundable
    /// bounty `id` to go back to `recipient` before the deadline.
    pub fn approve_refund(
        &mut self,
        caller: u64,
        id: u64,
        amount: i128,
        recipient: u64,
        mode: RefundMode,
    ) -> (r: Result<(), Error>)
        requires
            old(self)@.wf(),
        ensures
            final(self)@.wf(),
            plain_outcome(
                old(self)@,
                old(self)@.approve_refund(caller, id, amount, recipient, mode),
                final(self)@,
                r,
            ),
    {
        proof {
            lemma_operations_keep_wf(self@, caller, 0, id, amount, 0, 0, recipient, mode);
        }
        if self.pending.is_some() {
            return Err(Error::ReentrantCall);
        }
        if caller != self.admin {
            return Err(Error::Unauthorized);
        }
        let i = match self.find(id) {
            Some(i) => i,
            None => {
                return Err(Error::BountyNotFound);
            },
        };
        let r = self.records[i];
        let e = r.escrow;
        if e.status != EscrowStatus::Locked && e.status != EscrowStatus::PartiallyRefunded {
            return Err(Error::FundsNotLocked);
        }
        if amount <= 0 {
            return Err(Error::InvalidAmount);
        }
        if amount > e.remaining_amount {
            return Err(Error::InsufficientFunds);
        }
        if mode == RefundMode::Full && amount != e.remaining_amount {
            return Err(Error::InvalidAmount);
        }
        let rec = EscrowRecord { approval: Some(RefundApproval { amount, recipient, mode }), ..r };
        self.records.set(i, rec);
        Ok(())
    }

    /// `refund`: pays the approved refund of bounty `id`, or, without one and
    /// once `now` has reached the deadline, returns everything that remains to
    /// the depositor. The returned transfer is pending.
    pub fn refund(&mut self, id: u64, now: u64) -> (r: Result<Transfer, Error>)
        requires
            old(self)@.wf(),
        ensures
            final(self)@.wf(),
            transfer_outcome(old(self)@, old(self)@.refund(id, now), final(self)@, r),
    {
        proof {
            lemma_operations_keep_wf(self@, 0, 0, id, 0, 0, now, 0, RefundMode::Full);
        }
        if self.pending.is_some() {
            return Err(Error::ReentrantCall);
        }
        let i = match self.find(id) {
            Some(i) => i,
            None => {
                return Err(Error::BountyNotFound);
            },
        };
        let r = self.records[i];
        let e = r.escrow;
        if e.status != EscrowStatus::Locked && e.status != EscrowStatus::PartiallyRefunded {
            return Err(Error::FundsNotLocked);
        }
        match r.approval {
            Some(a) => {
                if a.amount > e.remaining_amount {
                    return Err(Error::InsufficientFunds);
                }
                proof {
                    assert(record_ok(self@.records[i as int]));
                }
                let left = e.remaining_amount - a.amount;
                let status = if left == 0 {
                    EscrowStatus::Refunded
                } else {
                    EscrowStatus::PartiallyRefunded
                };
                let t = self.pay_out(i, a.recipient, a.amount, status, None, true, left);
                Ok(t)
            },
            None => {
                if now < e.deadline {
                    return Err(Error::DeadlineNotPassed);
                }
                proof {
                    assert(record_ok(self@.records[i as int]));
                }
                let t = self.pay_out(
                    i,
                    e.depositor,
                    e.remaining_amount,
                    EscrowStatus::Refunded,
                    None,
                    true,
                    0,
                );
                Ok(t)
            },
        }
    }

    /// `complete_transfer`: the host reports that the pending transfer was
    /// carried out; the reentrancy guard is released.
    pub fn complete_transfer(&mut self) -> (r: Result<(), Error>)
        requires
            old(self)@.wf(),
        ensures
            final(self)@.wf(),
            plain_outcome(old(self)@, old(self)@.complete_transfer(), final(self)@, r),
    {
        proof {
            lemma_operations_keep_wf(self@, 0, 0, 0, 0, 0, 0, 0, RefundMode::Full);
        }
        if self.pending.is_none() {
            return Err(Error::NoTransferPending);
        }
        self.pending = None;
        Ok(())
    }

    /// `abort_transfer`: the host could not carry out the pending transfer;
    /// the operation that asked for it is undone and the guard released.
    pub fn abort_transfer(&mut self) -> (r: Result<(), Error>)
        requires
            old(self)@.wf(),
        ensures
            final(self)@.wf(),
            plain_outcome(old(self)@, old(self)@.abort_transfer(), final(self)@, r),
    {
        proof {
            lemma_operations_keep_wf(self@, 0, 0, 0, 0, 0, 0, 0, RefundMode::Full);
        }
        match self.pending.take() {
            Some(p) => {
                self.records = p.records;
                self.activity = p.activity;
                self.balance = p.balance;
                self.total_locked = p.total_locked;
                self.total_released = p.total_released;
                self.total_refunded = p.total_refunded;
                Ok(())
            },
            None => Err(Error::NoTransferPending),
        }
    }

    /// `get_escrow_info`: the escrow of bounty `id`.
    pub fn get_escrow_info(&self, id: u64) -> (r: Result<Escrow, Error>)
        requires
            self@.wf(),
        ensures
            r == (if self@.has_bounty(id) {
                Ok(self@.escrow(id))
            } else {
                Err(Error::BountyNotFound)
            }),
    {
        match self.find(id) {
            Some(i) => Ok(self.records[i].escrow),
            None => Err(Error::BountyNotFound),
        }
    }

    /// `get_balance`: the contract's token balance.
    pub fn get_balance(&self) -> (b: i128)
        ensures
            b == self@.balance,
    {
        self.balance
    }

    /// The number of bounties the contract holds.
    pub fn escrow_count(&self) -> (n: usize)
        ensures
            n == self@.records.len(),
    {
        self.records.len()
    }

    /// `get_aggregate_stats`: totals and counts of the escrows by status group.
    pub fn get_aggregate_stats(&self) -> (a: AggregateStats)
        requires
            self@.wf(),
        ensures
            a == aggregate(self@.records),
    {
        let ghost s = self@.records;
        let n = self.records.len();
        let mut total_locked: i128 = 0;
        let mut total_released: i128 = 0;
        let mut total_refunded: i128 = 0;
        let mut count_locked: u64 = 0;
        let mut count_released: u64 = 0;
        let mut count_refunded: u64 = 0;
        for i in 0..n
            invariant
                n == s.len(),
                s == self@.records,
                self@.wf(),
                total_locked == sum(s.take(i as int), Measure::LockedAmount),
                total_released == sum(s.take(i as int), Measure::ReleasedAmount),
                total_refunded == sum(s.take(i as int), Measure::RefundedAmount),
                count_locked == sum(s.take(i as int), Measure::LockedCount),
                count_released == sum(s.take(i as int), Measure::ReleasedCount),
                count_refunded == sum(s.take(i as int), Measure::RefundedCount),
        {
            proof {
                let p = s.take(i + 1);
                assert forall|k: int| 0 <= k < p.len() implies record_ok(#[trigger] p[k]) by {
                    assert(p[k] == s[k]);
                }
                lemma_sum_bounds(p);
                lemma_sum_prefix_le(s, i + 1, Measure::Amount);
                lemma_sum_take(s, i as int, Measure::LockedAmount);
                lemma_sum_take(s, i as int, Measure::ReleasedAmount);
                lemma_sum_take(s, i as int, Measure::RefundedAmount);
                lemma_sum_take(s, i as int, Measure::LockedCount);
                lemma_sum_take(s, i as int, Measure::ReleasedCount);
                lemma_sum_take(s, i as int, Measure::RefundedCount);
            }
            let e = self.records[i].escrow;
            match e.status {
                EscrowStatus::Locked => {
                    total_locked = total_locked + e.amount;
                    count_locked = count_locked + 1;
                },
                EscrowStatus::Released => {
                    total_released = total_released + e.amount;
                    count_released = count_released + 1;
                },
                EscrowStatus::Refunded | EscrowStatus::PartiallyRefunded => {
                    total_refunded = total_refunded + e.amount;
                    count_refunded = count_refunded + 1;
                },
            }
        }
        proof {
            assert(s.take(n as int) =~= s);
        }
        AggregateStats {
            total_locked,
            total_released,
            total_refunded,
            count_locked,
            count_released,
            count_refunded,
        }
    }
}

} // verus!

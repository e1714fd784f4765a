//! The abstract state of the bounty escrow and its transitions.
//!
//! A bounty escrow holds the funds of many bounties. Each bounty is locked by a
//! depositor with a deadline, then paid out to a contributor (in full or in
//! parts) or refunded (after the deadline, or earlier once an admin approved a
//! refund). Every operation that moves tokens leaves the matching transfer
//! pending: while it is pending the reentrancy guard is held and every entry
//! point refuses to run. The host then either reports the transfer done, or
//! abandons it, which puts the contract back as it was before the operation.
use vstd::prelude::*;

use crate::token::{Party, Transfer};

verus! {

/// Seconds a depositor has to wait between two locks.
pub const LOCK_COOLDOWN_SECS: u64 = 60;

/// Where an escrow stands in its lifecycle.
#[derive(Clone, Copy, Debug, PartialEq, Eq, Structural)]
pub enum EscrowStatus {
    Locked,
    Released,
    Refunded,
    PartiallyRefunded,
}

/// Whether an approved refund empties the escrow or takes part of it.
#[derive(Clone, Copy, Debug, PartialEq, Eq, Structural)]
pub enum RefundMode {
    Full,
    Partial,
}

/// The public record of one bounty.
#[derive(Clone, Copy, Debug, PartialEq, Eq, Structural)]
pub struct Escrow {
    pub depositor: u64,
    pub amount: i128,
    pub remaining_amount: i128,
    pub status: EscrowStatus,
    pub deadline: u64,
}

/// A refund that the admin approved ahead of the deadline.
#[derive(Clone, Copy, Debug, PartialEq, Eq, Structural)]
pub struct RefundApproval {
    pub amount: i128,
    pub recipient: u64,
    pub mode: RefundMode,
}

/// One bounty as the contract stores it.
#[derive(Clone, Copy, Debug, PartialEq, Eq, Structural)]
pub struct EscrowRecord {
    pub bounty_id: u64,
    pub escrow: Escrow,
    pub approval: Option<RefundApproval>,
}

/// When a depositor last locked funds.
#[derive(Clone, Copy, Debug, PartialEq, Eq, Structural)]
pub struct DepositorActivity {
    pub depositor: u64,
    pub last_lock: u64,
}

/// Why the bounty escrow refused an operation.
#[derive(Clone, Copy, Debug, PartialEq, Eq, Structural)]
pub enum Error {
    BountyExists,
    BountyNotFound,
    FundsNotLocked,
    DeadlineNotPassed,
    InvalidDeadline,
    InvalidAmount,
    InsufficientFunds,
    CooldownActive,
    AmountOverflow,
    ReentrantCall,
    NoTransferPending,
    Unauthorized,
}

/// Totals and counts of the escrows by status group; partially refunded
/// escrows count as refunded.
#[derive(Clone, Copy, Debug, PartialEq, Eq, Structural)]
pub struct AggregateStats {
    pub total_locked: i128,
    pub total_released: i128,
    pub total_refunded: i128,
    pub count_locked: u64,
    pub count_released: u64,
    pub count_refunded: u64,
}

/// A transfer in flight, with the state to go back to if it is abandoned.
pub struct PendingState {
    pub transfer: Transfer,
    pub records: Seq<EscrowRecord>,
    pub activity: Seq<DepositorActivity>,
    pub balance: int,
    pub total_locked: int,
    pub total_released: int,
    pub total_refunded: int,
}

/// The abstract state of a bounty escrow contract.
pub struct BountyState {
    pub admin: u64,
    pub token: u64,
    /// The bounties, in the order they were locked.
    pub records: Seq<EscrowRecord>,
    pub activity: Seq<DepositorActivity>,
    /// The transfer in flight; the reentrancy guard is held while it is `Some`.
    pub pending: Option<PendingState>,
    /// The contract's token balance.
    pub balance: int,
    /// All funds ever locked, released and refunded.
    pub total_locked: int,
    pub total_released: int,
    pub total_refunded: int,
}

/// A quantity of a record that the contract sums over all records.
pub enum Measure {
    Amount,
    Active,
    LockedAmount,
    ReleasedAmount,
    RefundedAmount,
    LockedCount,
    ReleasedCount,
    RefundedCount,
}

/// The status group that `get_aggregate_stats` files an escrow under.
pub open spec fn is_refunded_group(s: EscrowStatus) -> bool {
    s == EscrowStatus::Refunded || s == EscrowStatus::PartiallyRefunded
}

/// Escrows whose remaining amount is still held by the contract.
pub open spec fn is_active(s: EscrowStatus) -> bool {
    s == EscrowStatus::Locked || s == EscrowStatus::PartiallyRefunded
}

pub open spec fn measure(r: EscrowRecord, m: Measure) -> int {
    let e = r.escrow;
    match m {
        Measure::Amount => e.amount as int,
        Measure::Active => if is_active(e.status) { e.remaining_amount as int } else { 0 },
        Measure::LockedAmount => if e.status == EscrowStatus::Locked { e.amount as int } else { 0 },
        Measure::ReleasedAmount => if e.status == EscrowStatus::Released { e.amount as int } else { 0 },
        Measure::RefundedAmount => if is_refunded_group(e.status) { e.amount as int } else { 0 },
        Measure::LockedCount => if e.status == EscrowStatus::Locked { 1 } else { 0 },
        Measure::ReleasedCount => if e.status == EscrowStatus::Released { 1 } else { 0 },
        Measure::RefundedCount => if is_refunded_group(e.status) { 1 } else { 0 },
    }
}

/// The sum of a measure over a sequence of records.
pub open spec fn sum(s: Seq<EscrowRecord>, m: Measure) -> int
    decreases s.len(),
{
    if s.len() == 0 {
        0
    } else {
        sum(s.drop_last(), m) + measure(s.last(), m)
    }
}

/// What a consistent escrow looks like.
pub open spec fn escrow_ok(e: Escrow) -> bool {
    &&& e.amount > 0
    &&& 0 <= e.remaining_amount <= e.amount
    &&& e.status == EscrowStatus::Locked ==> e.remaining_amount > 0
    &&& e.status == EscrowStatus::PartiallyRefunded ==> 0 < e.remaining_amount < e.amount
    &&& e.status == EscrowStatus::Refunded ==> e.remaining_amount == 0
}

pub open spec fn record_ok(r: EscrowRecord) -> bool {
    &&& escrow_ok(r.escrow)
    &&& (r.approval matches Some(a) ==> a.amount > 0)
}

/// The aggregate stats of a sequence of records.
pub open spec fn aggregate(s: Seq<EscrowRecord>) -> AggregateStats {
    AggregateStats {
        total_locked: sum(s, Measure::LockedAmount) as i128,
        total_released: sum(s, Measure::ReleasedAmount) as i128,
        total_refunded: sum(s, Measure::RefundedAmount) as i128,
        count_locked: sum(s, Measure::LockedCount) as u64,
        count_released: sum(s, Measure::ReleasedCount) as u64,
        count_refunded: sum(s, Measure::RefundedCount) as u64,
    }
}

impl BountyState {
    /// The state right after `init`.
    pub open spec fn init(admin: u64, token: u64) -> BountyState {
        BountyState {
            admin,
            token,
            records: Seq::empty(),
            activity: Seq::empty(),
            pending: None,
            balance: 0,
            total_locked: 0,
            total_released: 0,
            total_refunded: 0,
        }
    }

    /// The invariant of the contract: the current state is consistent and,
    /// while a transfer is in flight, so is the state it would go back to.
    pub open spec fn wf(self) -> bool {
        &&& self.core_wf()
        &&& (self.pending matches Some(p) ==> self.rolled_back(p).core_wf())
    }

    /// The state as it was before the operation whose transfer is `p`.
    pub open spec fn rolled_back(self, p: PendingState) -> BountyState {
        BountyState {
            records: p.records,
            activity: p.activity,
            pending: None,
            balance: p.balance,
            total_locked: p.total_locked,
            total_released: p.total_released,
            total_refunded: p.total_refunded,
            ..self
        }
    }

    /// The pending transfer `t`, remembering the current state.
    pub open spec fn snapshot(self, t: Transfer) -> PendingState {
        PendingState {
            transfer: t,
            records: self.records,
            activity: self.activity,
            balance: self.balance,
            total_locked: self.total_locked,
            total_released: self.total_released,
            total_refunded: self.total_refunded,
        }
    }

    /// The transfer in flight, if any.
    pub open spec fn pending_transfer(self) -> Option<Transfer> {
        match self.pending {
            Some(p) => Some(p.transfer),
            None => None,
        }
    }

    /// Bounty ids and depositors are unique, every escrow is consistent, and
    /// the funds are conserved.
    pub open spec fn core_wf(self) -> bool {
        &&& forall|i: int, j: int|
            0 <= i < j < self.records.len() ==> self.records[i].bounty_id
                != self.records[j].bounty_id
        &&& forall|i: int, j: int|
            0 <= i < j < self.activity.len() ==> self.activity[i].depositor
                != self.activity[j].depositor
        &&& forall|i: int| 0 <= i < self.records.len() ==> record_ok(#[trigger] self.records[i])
        &&& self.balance == sum(self.records, Measure::Active)
        &&& self.total_locked == sum(self.records, Measure::Amount)
        &&& self.total_locked <= i128::MAX
        &&& self.total_released >= 0
        &&& self.total_refunded >= 0
        &&& self.balance == self.total_locked - self.total_released - self.total_refunded
    }

    pub open spec fn has_bounty(self, id: u64) -> bool {
        exists|i: int| 0 <= i < self.records.len() && self.records[i].bounty_id == id
    }

    /// The position of bounty `id` among the records.
    pub open spec fn index_of(self, id: u64) -> int {
        choose|i: int| 0 <= i < self.records.len() && self.records[i].bounty_id == id
    }

    pub open spec fn record(self, id: u64) -> EscrowRecord {
        self.records[self.index_of(id)]
    }

    pub open spec fn escrow(self, id: u64) -> Escrow {
        self.record(id).escrow
    }

    /// Whether `depositor` locked funds less than the cooldown ago.
    pub open spec fn in_cooldown(self, depositor: u64, now: u64) -> bool {
        exists|i: int|
            0 <= i < self.activity.len() && self.activity[i].depositor == depositor && now
                < self.activity[i].last_lock + LOCK_COOLDOWN_SECS
    }

    /// The depositor activity after `depositor` locked at `now`.
    pub open spec fn activity_after_lock(self, depositor: u64, now: u64) -> Seq<DepositorActivity> {
        let entry = DepositorActivity { depositor, last_lock: now };
        if exists|i: int| 0 <= i < self.activity.len() && self.activity[i].depositor == depositor {
            let i = choose|i: int|
                0 <= i < self.activity.len() && self.activity[i].depositor == depositor;
            self.activity.update(i, entry)
        } else {
            self.activity.push(entry)
        }
    }

    /// `lock_funds`: the depositor moves `amount` into a new escrow for `bounty_id`.
    pub open spec fn lock_funds(
        self,
        depositor: u64,
        bounty_id: u64,
        amount: i128,
        deadline: u64,
        now: u64,
    ) -> Result<BountyState, Error> {
        if self.pending is Some {
            Err(Error::ReentrantCall)
        } else if amount <= 0 {
            Err(Error::InvalidAmount)
        } else if deadline <= now {
            Err(Error::InvalidDeadline)
        } else if self.has_bounty(bounty_id) {
            Err(Error::BountyExists)
        } else if self.in_cooldown(depositor, now) {
            Err(Error::CooldownActive)
        } else if self.total_locked + amount > i128::MAX {
            Err(Error::AmountOverflow)
        } else {
            let escrow = Escrow {
                depositor,
                amount,
                remaining_amount: amount,
                status: EscrowStatus::Locked,
                deadline,
            };
            Ok(
                BountyState {
                    records: self.records.push(EscrowRecord { bounty_id, escrow, approval: None }),
                    activity: self.activity_after_lock(depositor, now),
                    pending: Some(
                        self.snapshot(
                            Transfer { from: Party::Account(depositor), to: Party::Escrow, amount },
                        ),
                    ),
                    balance: self.balance + amount,
                    total_locked: self.total_locked + amount,
                    ..self
                },
            )
        }
    }

    /// The state after paying `amount` out of bounty `id` to `to`, with the
    /// escrow's new remaining amount, status and approval.
    pub open spec fn pay_out(
        self,
        id: u64,
        to: u64,
        amount: int,
        status: EscrowStatus,
        approval: Option<RefundApproval>,
        refund: bool,
        remaining: int,
    ) -> BountyState {
        let r = self.record(id);
        let rec = EscrowRecord {
            escrow: Escrow { remaining_amount: remaining as i128, status, ..r.escrow },
            approval,
            ..r
        };
        BountyState {
            records: self.records.update(self.index_of(id), rec),
            pending: Some(
                self.snapshot(
                    Transfer { from: Party::Escrow, to: Party::Account(to), amount: amount as i128 },
                ),
            ),
            balance: self.balance - amount,
            total_released: if refund { self.total_released } else { self.total_released + amount },
            total_refunded: if refund { self.total_refunded + amount } else { self.total_refunded },
            ..self
        }
    }

    /// `release_funds`: the admin sends everything that remains of a locked
    /// bounty to the contributor. The escrow becomes `Released`; its remaining
    /// amount is left as it was.
    pub open spec fn release_funds(self, caller: u64, id: u64, contributor: u64) -> Result<
        BountyState,
        Error,
    > {
        if self.pending is Some {
            Err(Error::ReentrantCall)
        } else if caller != self.admin {
            Err(Error::Unauthorized)
        } else if !self.has_bounty(id) {
            Err(Error::BountyNotFound)
        } else if self.escrow(id).status != EscrowStatus::Locked {
            Err(Error::FundsNotLocked)
        } else {
            let e = self.escrow(id);
            Ok(
                self.pay_out(
                    id,
                    contributor,
                    e.remaining_amount as int,
                    EscrowStatus::Released,
                    self.record(id).approval,
                    false,
                    e.remaining_amount as int,
                ),
            )
        }
    }

    /// `partial_release`: the admin sends `payout` of a locked bounty to the
    /// contributor; the escrow is `Released` once nothing remains.
    pub open spec fn partial_release(
        self,
        caller: u64,
        id: u64,
        contributor: u64,
        payout: i128,
    ) -> Result<BountyState, Error> {
        if self.pending is Some {
            Err(Error::ReentrantCall)
        } else if caller != self.admin {
            Err(Error::Unauthorized)
        } else if !self.has_bounty(id) {
            Err(Error::BountyNotFound)
        } else if self.escrow(id).status != EscrowStatus::Locked {
            Err(Error::FundsNotLocked)
        } else if payout <= 0 {
            Err(Error::InvalidAmount)
        } else if payout > self.escrow(id).remaining_amount {
            Err(Error::InsufficientFunds)
        } else {
            let left = self.escrow(id).remaining_amount - payout;
            let status = if left == 0 {
                EscrowStatus::Released
            } else {
                EscrowStatus::Locked
            };
            Ok(
                self.pay_out(
                    id,
                    contributor,
                    payout as int,
                    status,
                    self.record(id).approval,
                    false,
                    left,
                ),
            )
        }
    }

    /// `approve_refund`: the admin allows `amount` of a refundable bounty to be
    /// refunded to `recipient` before the deadline. A full refund must take
    /// everything that remains.
    pub open spec fn approve_refund(
        self,
        caller: u64,
        id: u64,
        amount: i128,
        recipient: u64,
        mode: RefundMode,
    ) -> Result<BountyState, Error> {
        if self.pending is Some {
            Err(Error::ReentrantCall)
        } else if caller != self.admin {
            Err(Error::Unauthorized)
        } else if !self.has_bounty(id) {
            Err(Error::BountyNotFound)
        } else if !is_active(self.escrow(id).status) {
            Err(Error::FundsNotLocked)
        } else if amount <= 0 {
            Err(Error::InvalidAmount)
        } else if amount > self.escrow(id).remaining_amount {
            Err(Error::InsufficientFunds)
        } else if mode == RefundMode::Full && amount != self.escrow(id).remaining_amount {
            Err(Error::InvalidAmount)
        } else {
            let r = self.record(id);
            let rec = EscrowRecord {
                approval: Some(RefundApproval { amount, recipient, mode }),
                ..r
            };
            Ok(BountyState { records: self.records.update(self.index_of(id), rec), ..self })
        }
    }

    /// `refund`: an approved refund is paid to its recipient; without one,
    /// once the deadline has come, everything that remains goes back to the
    /// depositor.
    pub open spec fn refund(self, id: u64, now: u64) -> Result<BountyState, Error> {
        if self.pending is Some {
            Err(Error::ReentrantCall)
        } else if !self.has_bounty(id) {
            Err(Error::BountyNotFound)
        } else if !is_active(self.escrow(id).status) {
            Err(Error::FundsNotLocked)
        } else {
            let e = self.escrow(id);
            match self.record(id).approval {
                Some(a) => {
                    if a.amount > e.remaining_amount {
                        Err(Error::InsufficientFunds)
                    } else {
                        let left = e.remaining_amount - a.amount;
                        let status = if left == 0 {
                            EscrowStatus::Refunded
                        } else {
                            EscrowStatus::PartiallyRefunded
                        };
                        Ok(self.pay_out(id, a.recipient, a.amount as int, status, None, true, left))
                    }
                },
                None => {
                    if now < e.deadline {
                        Err(Error::DeadlineNotPassed)
                    } else {
                        Ok(
                            self.pay_out(
                                id,
                                e.depositor,
                                e.remaining_amount as int,
                                EscrowStatus::Refunded,
                                None,
                                true,
                                0,
                            ),
                        )
                    }
                },
            }
        }
    }

    /// `complete_transfer`: the host carried out the pending transfer, and the
    /// reentrancy guard is released.
    pub open spec fn complete_transfer(self) -> Result<BountyState, Error> {
        if self.pending is None {
            Err(Error::NoTransferPending)
        } else {
            Ok(BountyState { pending: None, ..self })
        }
    }

    /// `abort_transfer`: the host could not carry out the pending transfer;
    /// the operation that asked for it is undone and the guard released.
    pub open spec fn abort_transfer(self) -> Result<BountyState, Error> {
        match self.pending {
            Some(p) => Ok(self.rolled_back(p)),
            None => Err(Error::NoTransferPending),
        }
    }
}

/// The record of a known bounty sits at `index_of`.
pub proof fn lemma_index_of(s: BountyState, id: u64)
    requires
        s.has_bounty(id),
    ensures
        0 <= s.index_of(id) < s.records.len(),
        s.records[s.index_of(id)].bounty_id == id,
        s.record(id) == s.records[s.index_of(id)],
{
}

/// With unique ids, the record with id `id` is the one at any index that holds `id`.
pub proof fn lemma_index_unique(s: BountyState, id: u64, j: int)
    requires
        s.wf(),
        0 <= j < s.records.len(),
        s.records[j].bounty_id == id,
    ensures
        s.has_bounty(id),
        s.index_of(id) == j,
{
    lemma_index_of(s, id);
    let i = s.index_of(id);
    if i < j {
        assert(s.records[i].bounty_id != s.records[j].bounty_id);
    } else if j < i {
        assert(s.records[j].bounty_id != s.records[i].bounty_id);
    }
}

/// Paying out of an active escrow keeps the invariant, as long as what leaves
/// the contract is what the escrow stops holding.
pub proof fn lemma_pay_out_wf(
    s: BountyState,
    id: u64,
    to: u64,
    amount: int,
    status: EscrowStatus,
    approval: Option<RefundApproval>,
    refund: bool,
    remaining: int,
)
    requires
        s.wf(),
        s.has_bounty(id),
        is_active(s.escrow(id).status),
        0 <= amount,
        0 <= remaining,
        (if is_active(status) { remaining } else { 0 }) == s.escrow(id).remaining_amount - amount,
        escrow_ok(
            Escrow { remaining_amount: remaining as i128, status, ..s.escrow(id) },
        ),
        approval matches Some(a) ==> a.amount > 0,
    ensures
        s.pay_out(id, to, amount, status, approval, refund, remaining).core_wf(),
{
    lemma_index_of(s, id);
    let i = s.index_of(id);
    let r = s.record(id);
    let rec = EscrowRecord {
        escrow: Escrow { remaining_amount: remaining as i128, status, ..r.escrow },
        approval,
        ..r
    };
    let t = s.pay_out(id, to, amount, status, approval, refund, remaining);
    assert(t.records == s.records.update(i, rec));
    assert(record_ok(s.records[i]));
    lemma_sum_update(s.records, i, rec, Measure::Active);
    lemma_sum_update(s.records, i, rec, Measure::Amount);
    assert forall|k: int| 0 <= k < t.records.len() implies record_ok(#[trigger] t.records[k]) by {
        if k != i {
            assert(t.records[k] == s.records[k]);
        }
    }
    assert forall|j: int, k: int|
        0 <= j < k < t.records.len() implies t.records[j].bounty_id
            != t.records[k].bounty_id by {
        assert(t.records[j].bounty_id == s.records[j].bounty_id);
        assert(t.records[k].bounty_id == s.records[k].bounty_id);
    }
}

/// Every operation of the bounty escrow keeps its invariant.
pub proof fn lemma_operations_keep_wf(
    s: BountyState,
    caller: u64,
    depositor: u64,
    id: u64,
    amount: i128,
    deadline: u64,
    now: u64,
    to: u64,
    mode: RefundMode,
)
    requires
        s.wf(),
    ensures
        s.lock_funds(depositor, id, amount, deadline, now) matches Ok(t) ==> t.wf(),
        s.release_funds(caller, id, to) matches Ok(t) ==> t.wf(),
        s.partial_release(caller, id, to, amount) matches Ok(t) ==> t.wf(),
        s.approve_refund(caller, id, amount, to, mode) matches Ok(t) ==> t.wf(),
        s.refund(id, now) matches Ok(t) ==> t.wf(),
        s.complete_transfer() matches Ok(t) ==> t.wf(),
        s.abort_transfer() matches Ok(t) ==> t.wf(),
{
    lemma_lock_funds_wf(s, depositor, id, amount, deadline, now);
    lemma_release_funds_wf(s, caller, id, to);
    lemma_partial_release_wf(s, caller, id, to, amount);
    lemma_approve_refund_wf(s, caller, id, amount, to, mode);
    lemma_refund_wf(s, id, now);
}

proof fn lemma_lock_funds_wf(
    s: BountyState,
    depositor: u64,
    id: u64,
    amount: i128,
    deadline: u64,
    now: u64,
)
    requires
        s.wf(),
    ensures
        s.lock_funds(depositor, id, amount, deadline, now) matches Ok(t) ==> t.core_wf(),
{
    if let Ok(t) = s.lock_funds(depositor, id, amount, deadline, now) {
        let rec = t.records.last();
        assert(t.records == s.records.push(rec));
        lemma_sum_push(s.records, rec, Measure::Active);
        lemma_sum_push(s.records, rec, Measure::Amount);
        assert forall|j: int, k: int|
            0 <= j < k < t.records.len() implies t.records[j].bounty_id
                != t.records[k].bounty_id by {
            if k == s.records.len() {
                assert(s.records[j].bounty_id != id);
            } else {
                assert(t.records[j] == s.records[j]);
                assert(t.records[k] == s.records[k]);
            }
        }
        assert forall|k: int| 0 <= k < t.records.len() implies record_ok(#[trigger] t.records[k]) by {
            if k < s.records.len() {
                assert(t.records[k] == s.records[k]);
            }
        }
        let entry = DepositorActivity { depositor, last_lock: now };
        if exists|i: int| 0 <= i < s.activity.len() && s.activity[i].depositor == depositor {
            let i = choose|i: int|
                0 <= i < s.activity.len() && s.activity[i].depositor == depositor;
            assert(t.activity == s.activity.update(i, entry));
            assert forall|j: int, k: int|
                0 <= j < k < t.activity.len() implies t.activity[j].depositor
                    != t.activity[k].depositor by {
                assert(t.activity[j].depositor == s.activity[j].depositor);
                assert(t.activity[k].depositor == s.activity[k].depositor);
            }
        } else {
            assert(t.activity == s.activity.push(entry));
            assert forall|j: int, k: int|
                0 <= j < k < t.activity.len() implies t.activity[j].depositor
                    != t.activity[k].depositor by {
                if k == s.activity.len() {
                    assert(s.activity[j].depositor != depositor);
                } else {
                    assert(t.activity[j] == s.activity[j]);
                    assert(t.activity[k] == s.activity[k]);
                }
            }
        }
    }
}

proof fn lemma_release_funds_wf(s: BountyState, caller: u64, id: u64, to: u64)
    requires
        s.wf(),
    ensures
        s.release_funds(caller, id, to) matches Ok(t) ==> t.core_wf(),
{
    if s.release_funds(caller, id, to) is Ok {
        lemma_index_of(s, id);
        assert(record_ok(s.records[s.index_of(id)]));
        let e = s.escrow(id);
        lemma_pay_out_wf(
            s,
            id,
            to,
            e.remaining_amount as int,
            EscrowStatus::Released,
            s.record(id).approval,
            false,
            e.remaining_amount as int,
        );
    }
}

proof fn lemma_partial_release_wf(s: BountyState, caller: u64, id: u64, to: u64, payout: i128)
    requires
        s.wf(),
    ensures
        s.partial_release(caller, id, to, payout) matches Ok(t) ==> t.core_wf(),
{
    if s.partial_release(caller, id, to, payout) is Ok {
        lemma_index_of(s, id);
        assert(record_ok(s.records[s.index_of(id)]));
        let left = s.escrow(id).remaining_amount - payout;
        let status = if left == 0 {
            EscrowStatus::Released
        } else {
            EscrowStatus::Locked
        };
        lemma_pay_out_wf(s, id, to, payout as int, status, s.record(id).approval, false, left);
    }
}

proof fn lemma_approve_refund_wf(
    s: BountyState,
    caller: u64,
    id: u64,
    amount: i128,
    to: u64,
    mode: RefundMode,
)
    requires
        s.wf(),
    ensures
        s.approve_refund(caller, id, amount, to, mode) matches Ok(t) ==> t.core_wf(),
{
    if let Ok(t) = s.approve_refund(caller, id, amount, to, mode) {
        lemma_index_of(s, id);
        let i = s.index_of(id);
        let rec = EscrowRecord {
            approval: Some(RefundApproval { amount, recipient: to, mode }),
            ..s.record(id)
        };
        assert(t.records == s.records.update(i, rec));
        assert(record_ok(s.records[i]));
        lemma_sum_update(s.records, i, rec, Measure::Active);
        lemma_sum_update(s.records, i, rec, Measure::Amount);
        assert forall|k: int| 0 <= k < t.records.len() implies record_ok(#[trigger] t.records[k]) by {
            if k != i {
                assert(t.records[k] == s.records[k]);
            }
        }
        assert forall|j: int, k: int|
            0 <= j < k < t.records.len() implies t.records[j].bounty_id
                != t.records[k].bounty_id by {
            assert(t.records[j].bounty_id == s.records[j].bounty_id);
            assert(t.records[k].bounty_id == s.records[k].bounty_id);
        }
    }
}

proof fn lemma_refund_wf(s: BountyState, id: u64, now: u64)
    requires
        s.wf(),
    ensures
        s.refund(id, now) matches Ok(t) ==> t.core_wf(),
{
    if s.refund(id, now) is Ok {
        lemma_index_of(s, id);
        assert(record_ok(s.records[s.index_of(id)]));
        let e = s.escrow(id);
        match s.record(id).approval {
            Some(a) => {
                let left = e.remaining_amount - a.amount;
                let status = if left == 0 {
                    EscrowStatus::Refunded
                } else {
                    EscrowStatus::PartiallyRefunded
                };
                lemma_pay_out_wf(s, id, a.recipient, a.amount as int, status, None, true, left);
            },
            None => {
                lemma_pay_out_wf(
                    s,
                    id,
                    e.depositor,
                    e.remaining_amount as int,
                    EscrowStatus::Refunded,
                    None,
                    true,
                    0,
                );
            },
        }
    }
}

/// A sum grows by the measure of what is pushed.
pub proof fn lemma_sum_push(s: Seq<EscrowRecord>, x: EscrowRecord, m: Measure)
    ensures
        sum(s.push(x), m) == sum(s, m) + measure(x, m),
{
    assert(s.push(x).drop_last() =~= s);
}

/// Replacing one record changes a sum by the difference of its measures.
pub proof fn lemma_sum_update(s: Seq<EscrowRecord>, i: int, x: EscrowRecord, m: Measure)
    requires
        0 <= i < s.len(),
    ensures
        sum(s.update(i, x), m) == sum(s, m) - measure(s[i], m) + measure(x, m),
    decreases s.len(),
{
    if i == s.len() - 1 {
        assert(s.update(i, x).drop_last() =~= s.drop_last());
    } else {
        assert(s.update(i, x).drop_last() =~= s.drop_last().update(i, x));
        lemma_sum_update(s.drop_last(), i, x, m);
    }
}

/// The sum over a prefix one longer adds the next record.
pub proof fn lemma_sum_take(s: Seq<EscrowRecord>, i: int, m: Measure)
    requires
        0 <= i < s.len(),
    ensures
        sum(s.take(i + 1), m) == sum(s.take(i), m) + measure(s[i], m),
{
    assert(s.take(i + 1).drop_last() =~= s.take(i));
}

/// Over consistent records, every measure but `Amount` itself lies between
/// zero and the sum of the amounts, and the status groups split the amounts
/// and the records between them.
pub proof fn lemma_sum_bounds(s: Seq<EscrowRecord>)
    requires
        forall|i: int| 0 <= i < s.len() ==> record_ok(#[trigger] s[i]),
    ensures
        0 <= sum(s, Measure::Active) <= sum(s, Measure::Amount),
        0 <= sum(s, Measure::LockedAmount) <= sum(s, Measure::Amount),
        0 <= sum(s, Measure::ReleasedAmount) <= sum(s, Measure::Amount),
        0 <= sum(s, Measure::RefundedAmount) <= sum(s, Measure::Amount),
        sum(s, Measure::LockedAmount) + sum(s, Measure::ReleasedAmount) + sum(
            s,
            Measure::RefundedAmount,
        ) == sum(s, Measure::Amount),
        0 <= sum(s, Measure::LockedCount) <= s.len(),
        0 <= sum(s, Measure::ReleasedCount) <= s.len(),
        0 <= sum(s, Measure::RefundedCount) <= s.len(),
        sum(s, Measure::LockedCount) + sum(s, Measure::ReleasedCount) + sum(
            s,
            Measure::RefundedCount,
        ) == s.len(),
    decreases s.len(),
{
    if s.len() > 0 {
        let t = s.drop_last();
        assert forall|i: int| 0 <= i < t.len() implies record_ok(#[trigger] t[i]) by {
            assert(t[i] == s[i]);
        }
        lemma_sum_bounds(t);
        assert(record_ok(s[s.len() - 1]));
    }
}

/// Over consistent records no measure is negative.
pub proof fn lemma_measure_nonneg(r: EscrowRecord, m: Measure)
    requires
        record_ok(r),
    ensures
        measure(r, m) >= 0,
{
}

/// Over consistent records, one record's measure is at most the sum.
pub proof fn lemma_sum_elem_le(s: Seq<EscrowRecord>, i: int, m: Measure)
    requires
        forall|k: int| 0 <= k < s.len() ==> record_ok(#[trigger] s[k]),
        0 <= i < s.len(),
    ensures
        0 <= measure(s[i], m) <= sum(s, m),
    decreases s.len(),
{
    lemma_sum_prefix_le(s.drop_last(), s.len() - 1, m);
    assert(s.drop_last().take(s.len() - 1) =~= s.drop_last());
    lemma_measure_nonneg(s.last(), m);
    if i < s.len() - 1 {
        assert(s.drop_last()[i] == s[i]);
        lemma_sum_elem_le(s.drop_last(), i, m);
    }
}

/// Over consistent records, the sum over a prefix is at most the whole sum,
/// and not negative.
pub proof fn lemma_sum_prefix_le(s: Seq<EscrowRecord>, k: int, m: Measure)
    requires
        forall|j: int| 0 <= j < s.len() ==> record_ok(#[trigger] s[j]),
        0 <= k <= s.len(),
    ensures
        0 <= sum(s.take(k), m) <= sum(s, m),
    decreases s.len(),
{
    if s.len() > 0 {
        let t = s.drop_last();
        assert forall|j: int| 0 <= j < t.len() implies record_ok(#[trigger] t[j]) by {
            assert(t[j] == s[j]);
        }
        assert(record_ok(s[s.len() - 1]));
        lemma_measure_nonneg(s.last(), m);
        if k == s.len() {
            assert(s.take(k) =~= s);
            lemma_sum_prefix_le(t, t.len() as int, m);
            assert(t.take(t.len() as int) =~= t);
        } else {
            assert(s.take(k) =~= t.take(k));
            lemma_sum_prefix_le(t, k, m);
        }
    } else {
        assert(s.take(k) =~= s);
    }
}

} // verus!

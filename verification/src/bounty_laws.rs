//! Properties of the bounty escrow that hold across its operations.
use vstd::prelude::*;

use crate::bounty_state::{
    aggregate, is_active, lemma_index_of, lemma_index_unique, lemma_operations_keep_wf,
    lemma_sum_bounds, record_ok, sum, BountyState, DepositorActivity, Error, Escrow, EscrowStatus,
    Measure, RefundMode, LOCK_COOLDOWN_SECS,
};
use crate::token::{Party, Transfer};

verus! {

/// Conservation of funds: the contract holds exactly what its active escrows
/// still hold, which is everything ever locked minus everything released and
/// refunded; each escrow holds between nothing and its amount; and the
/// aggregate stats split the escrows, and the amounts locked in them, into
/// their three status groups.
pub proof fn law_conservation(s: BountyState)
    requires
        s.wf(),
        s.records.len() <= u64::MAX,
    ensures
        s.balance == sum(s.records, Measure::Active),
        s.balance == s.total_locked - s.total_released - s.total_refunded,
        0 <= s.balance,
        s.total_released + s.total_refunded <= s.total_locked,
        forall|i: int|
            0 <= i < s.records.len() ==> 0 <= (#[trigger] s.records[i]).escrow.remaining_amount
                <= s.records[i].escrow.amount,
        aggregate(s.records).total_locked + aggregate(s.records).total_released + aggregate(
            s.records,
        ).total_refunded == s.total_locked,
        aggregate(s.records).count_locked + aggregate(s.records).count_released + aggregate(
            s.records,
        ).count_refunded == s.records.len(),
{
    lemma_sum_bounds(s.records);
    assert forall|i: int|
        0 <= i < s.records.len() implies 0 <= (#[trigger] s.records[i]).escrow.remaining_amount
            <= s.records[i].escrow.amount by {
        assert(record_ok(s.records[i]));
    }
}

/// The reentrancy guard: while a transfer is in flight every entry point
/// that changes state refuses with `ReentrantCall`.
pub proof fn law_guard_blocks_reentry(
    s: BountyState,
    caller: u64,
    depositor: u64,
    id: u64,
    amount: i128,
    deadline: u64,
    now: u64,
    to: u64,
    mode: RefundMode,
)
    requires
        s.pending is Some,
    ensures
        s.lock_funds(depositor, id, amount, deadline, now) == Err::<BountyState, Error>(
            Error::ReentrantCall,
        ),
        s.release_funds(caller, id, to) == Err::<BountyState, Error>(Error::ReentrantCall),
        s.partial_release(caller, id, to, amount) == Err::<BountyState, Error>(
            Error::ReentrantCall,
        ),
        s.approve_refund(caller, id, amount, to, mode) == Err::<BountyState, Error>(
            Error::ReentrantCall,
        ),
        s.refund(id, now) == Err::<BountyState, Error>(Error::ReentrantCall),
{
}

/// The guard is never left held by mistake: an operation that succeeds
/// without moving tokens leaves it free, one that moves tokens holds it
/// exactly for its own transfer, and `complete_transfer` and
/// `abort_transfer` free it.
pub proof fn law_guard_released(
    s: BountyState,
    caller: u64,
    depositor: u64,
    id: u64,
    amount: i128,
    deadline: u64,
    now: u64,
    to: u64,
    mode: RefundMode,
)
    requires
        s.pending is None,
    ensures
        s.approve_refund(caller, id, amount, to, mode) matches Ok(t) ==> t.pending is None,
        s.lock_funds(depositor, id, amount, deadline, now) matches Ok(t) ==> t.pending is Some,
        s.release_funds(caller, id, to) matches Ok(t) ==> t.pending is Some,
        s.partial_release(caller, id, to, amount) matches Ok(t) ==> t.pending is Some,
        s.refund(id, now) matches Ok(t) ==> t.pending is Some,
        forall|t: BountyState| #[trigger] t.complete_transfer() matches Ok(u) ==> u.pending is None,
        forall|t: BountyState| #[trigger] t.abort_transfer() matches Ok(u) ==> u.pending is None,
{
}

/// The contract's balance moves by exactly the transfer each operation asks
/// for: a lock brings `amount` in from the depositor, every payout sends its
/// amount out of the escrow, and the totals of released and refunded funds
/// grow by what left.
pub proof fn law_balance_follows_transfers(
    s: BountyState,
    caller: u64,
    depositor: u64,
    id: u64,
    amount: i128,
    deadline: u64,
    now: u64,
    to: u64,
)
    requires
        s.wf(),
    ensures
        s.lock_funds(depositor, id, amount, deadline, now) matches Ok(t) ==> {
            &&& t.pending_transfer() matches Some(x) && x.from == Party::Account(depositor) && x.to
                == Party::Escrow && x.amount == amount
            &&& t.balance == s.balance + amount
            &&& t.total_locked == s.total_locked + amount
        },
        s.release_funds(caller, id, to) matches Ok(t) ==> {
            &&& t.pending_transfer() matches Some(x) && x.from == Party::Escrow && x.to == Party::Account(to)
                && t.balance == s.balance - x.amount && t.total_released == s.total_released
                + x.amount
            &&& t.total_refunded == s.total_refunded
        },
        s.partial_release(caller, id, to, amount) matches Ok(t) ==> {
            &&& t.pending_transfer() matches Some(x) && x.from == Party::Escrow && x.to == Party::Account(to)
                && x.amount == amount && t.balance == s.balance - amount
            &&& t.total_released == s.total_released + amount
        },
        s.refund(id, now) matches Ok(t) ==> {
            &&& t.pending_transfer() matches Some(x) && x.from == Party::Escrow && t.balance == s.balance
                - x.amount && t.total_refunded == s.total_refunded + x.amount
            &&& t.total_released == s.total_released
        },
{
    if s.release_funds(caller, id, to) is Ok {
        lemma_index_of(s, id);
        assert(record_ok(s.records[s.index_of(id)]));
    }
    if s.refund(id, now) is Ok {
        lemma_index_of(s, id);
        assert(record_ok(s.records[s.index_of(id)]));
    }
}

/// Released and refunded escrows are final: no release, partial release,
/// approval or refund touches them again, and their id cannot be locked anew.
pub proof fn law_terminal_escrows_are_final(
    s: BountyState,
    depositor: u64,
    id: u64,
    amount: i128,
    deadline: u64,
    now: u64,
    to: u64,
    mode: RefundMode,
)
    requires
        s.pending is None,
        s.has_bounty(id),
        s.escrow(id).status == EscrowStatus::Released || s.escrow(id).status
            == EscrowStatus::Refunded,
    ensures
        s.release_funds(s.admin, id, to) == Err::<BountyState, Error>(Error::FundsNotLocked),
        s.partial_release(s.admin, id, to, amount) == Err::<BountyState, Error>(
            Error::FundsNotLocked,
        ),
        s.approve_refund(s.admin, id, amount, to, mode) == Err::<BountyState, Error>(
            Error::FundsNotLocked,
        ),
        s.refund(id, now) == Err::<BountyState, Error>(Error::FundsNotLocked),
        amount > 0 && deadline > now ==> s.lock_funds(depositor, id, amount, deadline, now) == Err::<
            BountyState,
            Error,
        >(Error::BountyExists),
{
}

/// After the deadline, a locked bounty without an approved refund can always
/// be refunded, and the whole remaining amount goes back to its depositor.
pub proof fn law_deadline_refund_returns_remaining(s: BountyState, id: u64, now: u64)
    requires
        s.wf(),
        s.pending is None,
        s.has_bounty(id),
        is_active(s.escrow(id).status),
        s.record(id).approval is None,
        now >= s.escrow(id).deadline,
    ensures
        s.refund(id, now) matches Ok(t) && t.pending_transfer() == Some(
            Transfer {
                from: Party::Escrow,
                to: Party::Account(s.escrow(id).depositor),
                amount: s.escrow(id).remaining_amount,
            },
        ) && t.escrow(id).status == EscrowStatus::Refunded && t.escrow(id).remaining_amount == 0,
{
    lemma_index_of(s, id);
    let t = s.refund(id, now)->Ok_0;
    let i = s.index_of(id);
    assert(t.records[i].bounty_id == id);
    lemma_operations_keep_wf(s, 0, 0, id, 0, 0, now, 0, RefundMode::Full);
    lemma_index_unique(t, id, i);
}

/// Abandoning a transfer undoes the operation that asked for it: each
/// token-moving operation followed by `abort_transfer` leaves the contract
/// exactly as it was.
pub proof fn law_abort_undoes_operation(
    s: BountyState,
    caller: u64,
    depositor: u64,
    id: u64,
    amount: i128,
    deadline: u64,
    now: u64,
    to: u64,
)
    requires
        s.wf(),
        s.pending is None,
    ensures
        s.lock_funds(depositor, id, amount, deadline, now) matches Ok(t) ==> t.abort_transfer()
            == Ok::<BountyState, Error>(s),
        s.release_funds(caller, id, to) matches Ok(t) ==> t.abort_transfer() == Ok::<
            BountyState,
            Error,
        >(s),
        s.partial_release(caller, id, to, amount) matches Ok(t) ==> t.abort_transfer() == Ok::<
            BountyState,
            Error,
        >(s),
        s.refund(id, now) matches Ok(t) ==> t.abort_transfer() == Ok::<BountyState, Error>(s),
{
}

/// Only the admin releases funds or approves refunds: any other caller is
/// refused with `Unauthorized` and nothing changes.
pub proof fn law_only_admin_releases(
    s: BountyState,
    caller: u64,
    id: u64,
    amount: i128,
    to: u64,
    mode: RefundMode,
)
    requires
        s.pending is None,
        caller != s.admin,
    ensures
        s.release_funds(caller, id, to) == Err::<BountyState, Error>(Error::Unauthorized),
        s.partial_release(caller, id, to, amount) == Err::<BountyState, Error>(
            Error::Unauthorized,
        ),
        s.approve_refund(caller, id, amount, to, mode) == Err::<BountyState, Error>(
            Error::Unauthorized,
        ),
{
}

/// A depositor whose every lock is at least the cooldown in the past is not
/// cooling down.
pub proof fn law_cooldown_passes(s: BountyState, depositor: u64, now: u64)
    requires
        forall|i: int|
            0 <= i < s.activity.len() ==> (#[trigger] s.activity[i]).last_lock
                + LOCK_COOLDOWN_SECS <= now,
    ensures
        !s.in_cooldown(depositor, now),
{
}

/// A lock of a fresh bounty by a depositor out of cooldown succeeds when no
/// transfer is in flight and the total stays within `i128`: the new escrow
/// holds the whole amount, and once the host reports the transfer done the
/// guard is free and the invariant holds.
pub proof fn law_lock_succeeds(
    s: BountyState,
    depositor: u64,
    id: u64,
    amount: i128,
    deadline: u64,
    now: u64,
)
    requires
        s.wf(),
        s.pending is None,
        amount > 0,
        deadline > now,
        !s.has_bounty(id),
        !s.in_cooldown(depositor, now),
        s.total_locked + amount <= i128::MAX,
    ensures
        ({
            let r = s.lock_funds(depositor, id, amount, deadline, now);
            let t = r->Ok_0;
            &&& r is Ok
            &&& t.has_bounty(id)
            &&& t.escrow(id) == (Escrow {
                depositor,
                amount,
                remaining_amount: amount,
                status: EscrowStatus::Locked,
                deadline,
            })
            &&& t.complete_transfer() is Ok
            &&& t.complete_transfer()->Ok_0.wf()
            &&& t.complete_transfer()->Ok_0.pending is None
        }),
{
    let t = s.lock_funds(depositor, id, amount, deadline, now)->Ok_0;
    lemma_operations_keep_wf(s, 0, depositor, id, amount, deadline, now, 0, RefundMode::Full);
    lemma_operations_keep_wf(t, 0, depositor, id, amount, deadline, now, 0, RefundMode::Full);
    lemma_index_unique(t, id, s.records.len() as int);
}

/// The admin's partial release of a locked bounty succeeds for any payout
/// between one and what remains: the escrow keeps its amount, holds the
/// payout less, and is `Released` once nothing remains.
pub proof fn law_partial_release_succeeds(s: BountyState, id: u64, to: u64, payout: i128)
    requires
        s.wf(),
        s.pending is None,
        s.has_bounty(id),
        s.escrow(id).status == EscrowStatus::Locked,
        0 < payout <= s.escrow(id).remaining_amount,
    ensures
        ({
            let r = s.partial_release(s.admin, id, to, payout);
            let t = r->Ok_0;
            let e = s.escrow(id);
            &&& r is Ok
            &&& t.has_bounty(id)
            &&& t.escrow(id).amount == e.amount
            &&& t.escrow(id).remaining_amount == e.remaining_amount - payout
            &&& t.escrow(id).status == (if e.remaining_amount == payout {
                EscrowStatus::Released
            } else {
                EscrowStatus::Locked
            })
            &&& t.complete_transfer() is Ok
            &&& t.complete_transfer()->Ok_0.wf()
        }),
{
    lemma_index_of(s, id);
    let t = s.partial_release(s.admin, id, to, payout)->Ok_0;
    lemma_operations_keep_wf(s, s.admin, 0, id, payout, 0, 0, to, RefundMode::Full);
    lemma_operations_keep_wf(t, s.admin, 0, id, payout, 0, 0, to, RefundMode::Full);
    assert(t.records[s.index_of(id)].bounty_id == id);
    lemma_index_unique(t, id, s.index_of(id));
}

/// The admin's full release of a locked bounty succeeds: the escrow keeps
/// its amount and becomes `Released`.
pub proof fn law_full_release_succeeds(s: BountyState, id: u64, to: u64)
    requires
        s.wf(),
        s.pending is None,
        s.has_bounty(id),
        s.escrow(id).status == EscrowStatus::Locked,
    ensures
        ({
            let r = s.release_funds(s.admin, id, to);
            let t = r->Ok_0;
            &&& r is Ok
            &&& t.has_bounty(id)
            &&& t.escrow(id).amount == s.escrow(id).amount
            &&& t.escrow(id).status == EscrowStatus::Released
            &&& t.complete_transfer() is Ok
            &&& t.complete_transfer()->Ok_0.wf()
        }),
{
    lemma_index_of(s, id);
    let t = s.release_funds(s.admin, id, to)->Ok_0;
    lemma_operations_keep_wf(s, s.admin, 0, id, 0, 0, 0, to, RefundMode::Full);
    lemma_operations_keep_wf(t, s.admin, 0, id, 0, 0, 0, to, RefundMode::Full);
    assert(t.records[s.index_of(id)].bounty_id == id);
    lemma_index_unique(t, id, s.index_of(id));
}

/// An approved refund of between one and what remains of an active bounty,
/// in full mode exactly when it takes everything, is approved and then paid
/// to its recipient at once: the escrow holds the refund less, is
/// `Refunded` once nothing remains and `PartiallyRefunded` before, and its
/// approval is used up.
pub proof fn law_approved_refund_succeeds(
    s: BountyState,
    id: u64,
    amount: i128,
    recipient: u64,
    mode: RefundMode,
    now: u64,
)
    requires
        s.wf(),
        s.pending is None,
        s.has_bounty(id),
        is_active(s.escrow(id).status),
        0 < amount <= s.escrow(id).remaining_amount,
        mode == RefundMode::Full <==> amount == s.escrow(id).remaining_amount,
    ensures
        ({
            let r = s.approve_refund(s.admin, id, amount, recipient, mode);
            let t = r->Ok_0;
            let q = t.refund(id, now);
            let u = q->Ok_0;
            let e = s.escrow(id);
            &&& r is Ok
            &&& q is Ok
            &&& u.pending_transfer() == Some(
                Transfer { from: Party::Escrow, to: Party::Account(recipient), amount },
            )
            &&& u.has_bounty(id)
            &&& u.escrow(id).amount == e.amount
            &&& u.escrow(id).remaining_amount == e.remaining_amount - amount
            &&& u.escrow(id).status == (if e.remaining_amount == amount {
                EscrowStatus::Refunded
            } else {
                EscrowStatus::PartiallyRefunded
            })
            &&& u.record(id).approval is None
            &&& u.complete_transfer() is Ok
            &&& u.complete_transfer()->Ok_0.wf()
        }),
{
    lemma_index_of(s, id);
    let i = s.index_of(id);
    let t = s.approve_refund(s.admin, id, amount, recipient, mode)->Ok_0;
    lemma_operations_keep_wf(s, s.admin, 0, id, amount, 0, now, recipient, mode);
    assert(t.records[i].bounty_id == id);
    lemma_index_unique(t, id, i);
    let u = t.refund(id, now)->Ok_0;
    lemma_operations_keep_wf(t, s.admin, 0, id, amount, 0, now, recipient, mode);
    lemma_operations_keep_wf(u, s.admin, 0, id, amount, 0, now, recipient, mode);
    assert(u.records[i].bounty_id == id);
    lemma_index_unique(u, id, i);
}

/// No bounty has an approved refund waiting.
pub open spec fn approvals_closed(s: BountyState) -> bool {
    forall|i: int| 0 <= i < s.records.len() ==> (#[trigger] s.records[i]).approval is None
}

/// A lifecycle that approves a refund only to pay it at once never leaves an
/// approval open: locks, releases and refunds, and an approval followed by
/// its refund, keep every approval closed. With `law_cooldown_passes` and the
/// laws on each step succeeding, this carries a run of such steps from one
/// reachable state to the next.
pub proof fn law_lifecycle_keeps_approvals_closed(
    s: BountyState,
    depositor: u64,
    id: u64,
    amount: i128,
    deadline: u64,
    now: u64,
    to: u64,
    mode: RefundMode,
)
    requires
        s.wf(),
        s.pending is None,
        approvals_closed(s),
    ensures
        s.lock_funds(depositor, id, amount, deadline, now) matches Ok(t) ==> approvals_closed(t),
        s.release_funds(s.admin, id, to) matches Ok(t) ==> approvals_closed(t),
        s.partial_release(s.admin, id, to, amount) matches Ok(t) ==> approvals_closed(t),
        s.refund(id, now) matches Ok(t) ==> approvals_closed(t),
        s.approve_refund(s.admin, id, amount, to, mode) matches Ok(t) ==> (t.refund(id, now) matches Ok(
            u,
        ) ==> approvals_closed(u)),
        forall|t: BountyState| #[trigger] t.complete_transfer() matches Ok(u) ==> approvals_closed(t)
            ==> approvals_closed(u),
{
    if let Ok(t) = s.lock_funds(depositor, id, amount, deadline, now) {
        assert forall|i: int| 0 <= i < t.records.len() implies (#[trigger] t.records[i]).approval is None by {
            if i < s.records.len() {
                assert(t.records[i] == s.records[i]);
            }
        }
    }
    if s.has_bounty(id) {
        lemma_index_of(s, id);
        let k = s.index_of(id);
        if let Ok(t) = s.release_funds(s.admin, id, to) {
            assert forall|i: int| 0 <= i < t.records.len() implies (#[trigger] t.records[i]).approval is None by {
                if i != k {
                    assert(t.records[i] == s.records[i]);
                }
            }
        }
        if let Ok(t) = s.partial_release(s.admin, id, to, amount) {
            assert forall|i: int| 0 <= i < t.records.len() implies (#[trigger] t.records[i]).approval is None by {
                if i != k {
                    assert(t.records[i] == s.records[i]);
                }
            }
        }
        if let Ok(t) = s.refund(id, now) {
            assert forall|i: int| 0 <= i < t.records.len() implies (#[trigger] t.records[i]).approval is None by {
                if i != k {
                    assert(t.records[i] == s.records[i]);
                }
            }
        }
        if let Ok(t) = s.approve_refund(s.admin, id, amount, to, mode) {
            lemma_operations_keep_wf(s, s.admin, 0, id, amount, 0, now, to, mode);
            assert(t.records[k].bounty_id == id);
            lemma_index_unique(t, id, k);
            if let Ok(u) = t.refund(id, now) {
                assert forall|i: int| 0 <= i < u.records.len() implies (#[trigger] u.records[i]).approval is None by {
                    if i != k {
                        assert(u.records[i] == t.records[i]);
                        assert(t.records[i] == s.records[i]);
                    }
                }
            }
        }
    }
}

/// A state a lifecycle run can go on from at time `now`: consistent, with no
/// transfer in flight, no approved refund left open, and no lock in the
/// future.
pub open spec fn lifecycle_ready(s: BountyState, now: u64) -> bool {
    &&& s.wf()
    &&& s.pending is None
    &&& approvals_closed(s)
    &&& forall|i: int| 0 <= i < s.activity.len() ==> (#[trigger] s.activity[i]).last_lock <= now
}

/// Every bounty but `id` is as it was.
pub open spec fn others_unchanged(s: BountyState, u: BountyState, id: u64) -> bool {
    forall|j: u64|
        j != id && #[trigger] s.has_bounty(j) ==> u.has_bounty(j) && u.escrow(j) == s.escrow(j)
}

/// Replacing the record of `id` leaves every other bounty as it was.
proof fn lemma_update_keeps_others(s: BountyState, u: BountyState, id: u64)
    requires
        s.wf(),
        u.wf(),
        s.has_bounty(id),
        u.records.len() == s.records.len(),
        forall|k: int|
            0 <= k < s.records.len() && k != s.index_of(id) ==> u.records[k] == s.records[k],
    ensures
        others_unchanged(s, u, id),
{
    lemma_index_of(s, id);
    assert forall|j: u64| j != id && #[trigger] s.has_bounty(j) implies u.has_bounty(j) && u.escrow(
        j,
    ) == s.escrow(j) by {
        lemma_index_of(s, j);
        let m = s.index_of(j);
        assert(m != s.index_of(id));
        assert(u.records[m] == s.records[m]);
        lemma_index_unique(u, j, m);
    }
}

/// Adding a record for a new bounty leaves every other bounty as it was.
proof fn lemma_push_keeps_others(s: BountyState, u: BountyState, id: u64)
    requires
        s.wf(),
        u.wf(),
        u.records.len() == s.records.len() + 1,
        forall|k: int| 0 <= k < s.records.len() ==> u.records[k] == s.records[k],
    ensures
        others_unchanged(s, u, id),
{
    assert forall|j: u64| j != id && #[trigger] s.has_bounty(j) implies u.has_bounty(j) && u.escrow(
        j,
    ) == s.escrow(j) by {
        lemma_index_of(s, j);
        let m = s.index_of(j);
        assert(u.records[m] == s.records[m]);
        lemma_index_unique(u, j, m);
    }
}

/// A lifecycle step that locks: a fresh bounty locked once the cooldown has
/// passed since `now` succeeds; after its transfer the run can go on from the
/// lock's time, the new escrow holds the whole amount, and every other bounty
/// is as it was.
pub proof fn law_lifecycle_lock(
    s: BountyState,
    now: u64,
    later: u64,
    depositor: u64,
    id: u64,
    amount: i128,
    deadline: u64,
)
    requires
        lifecycle_ready(s, now),
        later >= now + LOCK_COOLDOWN_SECS,
        amount > 0,
        deadline > later,
        !s.has_bounty(id),
        s.total_locked + amount <= i128::MAX,
    ensures
        ({
            let r = s.lock_funds(depositor, id, amount, deadline, later);
            let u = r->Ok_0.complete_transfer()->Ok_0;
            &&& r is Ok
            &&& r->Ok_0.complete_transfer() is Ok
            &&& lifecycle_ready(u, later)
            &&& u.has_bounty(id)
            &&& u.escrow(id) == (Escrow {
                depositor,
                amount,
                remaining_amount: amount,
                status: EscrowStatus::Locked,
                deadline,
            })
            &&& others_unchanged(s, u, id)
        }),
{
    assert forall|i: int| 0 <= i < s.activity.len() implies (#[trigger] s.activity[i]).last_lock
        + LOCK_COOLDOWN_SECS <= later by {}
    law_cooldown_passes(s, depositor, later);
    law_lock_succeeds(s, depositor, id, amount, deadline, later);
    let t = s.lock_funds(depositor, id, amount, deadline, later)->Ok_0;
    let u = t.complete_transfer()->Ok_0;
    law_lifecycle_keeps_approvals_closed(
        s,
        depositor,
        id,
        amount,
        deadline,
        later,
        0,
        RefundMode::Full,
    );
    assert(approvals_closed(u));
    let entry = DepositorActivity { depositor, last_lock: later };
    assert forall|i: int| 0 <= i < u.activity.len() implies (#[trigger] u.activity[i]).last_lock
        <= later by {
        if exists|k: int| 0 <= k < s.activity.len() && s.activity[k].depositor == depositor {
            let k = choose|k: int| 0 <= k < s.activity.len() && s.activity[k].depositor == depositor;
            assert(u.activity == s.activity.update(k, entry));
        } else {
            assert(u.activity == s.activity.push(entry));
        }
    }
    assert forall|k: int| 0 <= k < s.records.len() implies u.records[k] == s.records[k] by {}
    lemma_push_keeps_others(s, u, id);
}

/// A lifecycle step that releases part of a locked bounty: it succeeds, the
/// run can go on from the same time, and every other bounty is as it was.
pub proof fn law_lifecycle_partial_release(
    s: BountyState,
    now: u64,
    id: u64,
    to: u64,
    payout: i128,
)
    requires
        lifecycle_ready(s, now),
        s.has_bounty(id),
        s.escrow(id).status == EscrowStatus::Locked,
        0 < payout <= s.escrow(id).remaining_amount,
    ensures
        ({
            let r = s.partial_release(s.admin, id, to, payout);
            let u = r->Ok_0.complete_transfer()->Ok_0;
            &&& r is Ok
            &&& lifecycle_ready(u, now)
            &&& u.escrow(id).remaining_amount == s.escrow(id).remaining_amount - payout
            &&& others_unchanged(s, u, id)
        }),
{
    law_partial_release_succeeds(s, id, to, payout);
    law_lifecycle_keeps_approvals_closed(s, 0, id, payout, 0, now, to, RefundMode::Full);
    let u = s.partial_release(s.admin, id, to, payout)->Ok_0.complete_transfer()->Ok_0;
    lemma_index_of(s, id);
    lemma_update_keeps_others(s, u, id);
}

/// A lifecycle step that releases a locked bounty in full: it succeeds, the
/// run can go on from the same time, and every other bounty is as it was.
pub proof fn law_lifecycle_full_release(s: BountyState, now: u64, id: u64, to: u64)
    requires
        lifecycle_ready(s, now),
        s.has_bounty(id),
        s.escrow(id).status == EscrowStatus::Locked,
    ensures
        ({
            let r = s.release_funds(s.admin, id, to);
            let u = r->Ok_0.complete_transfer()->Ok_0;
            &&& r is Ok
            &&& lifecycle_ready(u, now)
            &&& u.escrow(id).status == EscrowStatus::Released
            &&& others_unchanged(s, u, id)
        }),
{
    law_full_release_succeeds(s, id, to);
    law_lifecycle_keeps_approvals_closed(s, 0, id, 0, 0, now, to, RefundMode::Full);
    let u = s.release_funds(s.admin, id, to)->Ok_0.complete_transfer()->Ok_0;
    lemma_index_of(s, id);
    lemma_update_keeps_others(s, u, id);
}

/// A lifecycle step that approves a refund and pays it at once: it succeeds,
/// the run can go on from the same time with no approval left open, and every
/// other bounty is as it was.
pub proof fn law_lifecycle_approved_refund(
    s: BountyState,
    now: u64,
    id: u64,
    amount: i128,
    recipient: u64,
    mode: RefundMode,
)
    requires
        lifecycle_ready(s, now),
        s.has_bounty(id),
        is_active(s.escrow(id).status),
        0 < amount <= s.escrow(id).remaining_amount,
        mode == RefundMode::Full <==> amount == s.escrow(id).remaining_amount,
    ensures
        ({
            let t = s.approve_refund(s.admin, id, amount, recipient, mode)->Ok_0;
            let r = t.refund(id, now);
            let u = r->Ok_0.complete_transfer()->Ok_0;
            &&& r is Ok
            &&& lifecycle_ready(u, now)
            &&& u.escrow(id).remaining_amount == s.escrow(id).remaining_amount - amount
            &&& others_unchanged(s, u, id)
        }),
{
    law_approved_refund_succeeds(s, id, amount, recipient, mode, now);
    law_lifecycle_keeps_approvals_closed(s, 0, id, amount, 0, now, recipient, mode);
    let t = s.approve_refund(s.admin, id, amount, recipient, mode)->Ok_0;
    let u = t.refund(id, now)->Ok_0.complete_transfer()->Ok_0;
    lemma_index_of(s, id);
    lemma_update_keeps_others(s, u, id);
}

/// A lifecycle step that refunds an active bounty once its deadline has come:
/// at the later of `now` and the deadline it succeeds, everything that
/// remained goes back, the run can go on from that time, and every other
/// bounty is as it was.
pub proof fn law_lifecycle_deadline_refund(s: BountyState, now: u64, id: u64)
    requires
        lifecycle_ready(s, now),
        s.has_bounty(id),
        is_active(s.escrow(id).status),
    ensures
        ({
            let later = if now < s.escrow(id).deadline {
                s.escrow(id).deadline
            } else {
                now
            };
            let r = s.refund(id, later);
            let u = r->Ok_0.complete_transfer()->Ok_0;
            &&& r is Ok
            &&& lifecycle_ready(u, later)
            &&& u.escrow(id).remaining_amount == 0
            &&& u.escrow(id).status == EscrowStatus::Refunded
            &&& others_unchanged(s, u, id)
        }),
{
    let later = if now < s.escrow(id).deadline {
        s.escrow(id).deadline
    } else {
        now
    };
    lemma_index_of(s, id);
    assert(s.records[s.index_of(id)].approval is None);
    law_deadline_refund_returns_remaining(s, id, later);
    law_lifecycle_keeps_approvals_closed(s, 0, id, 0, 0, later, 0, RefundMode::Full);
    let t = s.refund(id, later)->Ok_0;
    lemma_operations_keep_wf(s, 0, 0, id, 0, 0, later, 0, RefundMode::Full);
    lemma_operations_keep_wf(t, 0, 0, id, 0, 0, later, 0, RefundMode::Full);
    let u = t.complete_transfer()->Ok_0;
    lemma_update_keeps_others(s, u, id);
}

/// A new contract is ready for a lifecycle run at any time.
pub proof fn law_lifecycle_starts(admin: u64, token: u64, now: u64)
    ensures
        lifecycle_ready(BountyState::init(admin, token), now),
{
    let s = BountyState::init(admin, token);
    assert(s.records.len() == 0);
}

/// The cooldown runs from each lock: once a depositor's lock at time `t` has
/// gone through, any other fresh lock by that depositor is refused with
/// `CooldownActive` at every time before `t + LOCK_COOLDOWN_SECS`, and is
/// accepted again from then on (while the locked total stays within `i128`).
pub proof fn law_lock_starts_cooldown(
    s: BountyState,
    depositor: u64,
    id: u64,
    amount: i128,
    deadline: u64,
    t: u64,
    id2: u64,
    amount2: i128,
    deadline2: u64,
    now: u64,
)
    requires
        s.wf(),
        s.lock_funds(depositor, id, amount, deadline, t) is Ok,
        id2 != id,
        !s.has_bounty(id2),
        amount2 > 0,
        deadline2 > now,
    ensures
        ({
            let u = s.lock_funds(depositor, id, amount, deadline, t)->Ok_0.complete_transfer()->Ok_0;
            &&& now < t + LOCK_COOLDOWN_SECS ==> u.lock_funds(depositor, id2, amount2, deadline2, now)
                == Err::<BountyState, Error>(Error::CooldownActive)
            &&& now >= t + LOCK_COOLDOWN_SECS && u.total_locked + amount2 <= i128::MAX
                ==> u.lock_funds(depositor, id2, amount2, deadline2, now) is Ok
        }),
{
    let t1 = s.lock_funds(depositor, id, amount, deadline, t)->Ok_0;
    let u = t1.complete_transfer()->Ok_0;
    lemma_operations_keep_wf(s, 0, depositor, id, amount, deadline, t, 0, RefundMode::Full);
    assert(u.wf());
    assert(!u.has_bounty(id2)) by {
        if u.has_bounty(id2) {
            let j = choose|j: int| 0 <= j < u.records.len() && u.records[j].bounty_id == id2;
            if j < s.records.len() {
                assert(u.records[j] == s.records[j]);
            }
        }
    }
    let entry = DepositorActivity { depositor, last_lock: t };
    let k: int = if exists|i: int| 0 <= i < s.activity.len() && s.activity[i].depositor == depositor {
        let i = choose|i: int| 0 <= i < s.activity.len() && s.activity[i].depositor == depositor;
        assert(u.activity == s.activity.update(i, entry));
        i
    } else {
        assert(u.activity == s.activity.push(entry));
        s.activity.len() as int
    };
    assert(0 <= k < u.activity.len() && u.activity[k] == entry);
    if now < t + LOCK_COOLDOWN_SECS {
        assert(u.in_cooldown(depositor, now));
    } else {
        assert(!u.in_cooldown(depositor, now)) by {
            if u.in_cooldown(depositor, now) {
                let j = choose|j: int|
                    0 <= j < u.activity.len() && u.activity[j].depositor == depositor && now
                        < u.activity[j].last_lock + LOCK_COOLDOWN_SECS;
                if j < k {
                    assert(u.activity[j].depositor != u.activity[k].depositor);
                } else if k < j {
                    assert(u.activity[k].depositor != u.activity[j].depositor);
                }
            }
        }
    }
}

/// Only a locked escrow can be released, in full or in part: one that is
/// released, refunded or partially refunded is refused with `FundsNotLocked`.
pub proof fn law_release_needs_locked(s: BountyState, id: u64, to: u64, payout: i128)
    requires
        s.pending is None,
        s.has_bounty(id),
        s.escrow(id).status != EscrowStatus::Locked,
    ensures
        s.release_funds(s.admin, id, to) == Err::<BountyState, Error>(Error::FundsNotLocked),
        s.partial_release(s.admin, id, to, payout) == Err::<BountyState, Error>(
            Error::FundsNotLocked,
        ),
{
}

/// A full release pays the contributor exactly what the escrow still held.
pub proof fn law_release_pays_what_remains(s: BountyState, id: u64, to: u64)
    requires
        s.wf(),
        s.pending is None,
        s.has_bounty(id),
        s.escrow(id).status == EscrowStatus::Locked,
    ensures
        s.release_funds(s.admin, id, to) matches Ok(t) && t.pending_transfer() == Some(
            Transfer {
                from: Party::Escrow,
                to: Party::Account(to),
                amount: s.escrow(id).remaining_amount,
            },
        ),
{
}

/// An approved refund never exceeds what the escrow still holds: approving
/// more than remains is refused with `InsufficientFunds`, and once an approval
/// goes through, the refund it allows is paid in full to its recipient at any
/// time.
pub proof fn law_approval_within_remaining(
    s: BountyState,
    caller: u64,
    id: u64,
    amount: i128,
    recipient: u64,
    mode: RefundMode,
    now: u64,
)
    requires
        s.wf(),
        s.pending is None,
    ensures
        caller == s.admin && s.has_bounty(id) && is_active(s.escrow(id).status) && amount
            > s.escrow(id).remaining_amount ==> s.approve_refund(caller, id, amount, recipient, mode)
            == Err::<BountyState, Error>(Error::InsufficientFunds),
        s.approve_refund(caller, id, amount, recipient, mode) matches Ok(t) ==> {
            &&& t.has_bounty(id)
            &&& 0 < amount <= t.escrow(id).remaining_amount
            &&& t.refund(id, now) matches Ok(u) && u.pending_transfer() == Some(
                Transfer { from: Party::Escrow, to: Party::Account(recipient), amount },
            )
        },
{
    if let Ok(t) = s.approve_refund(caller, id, amount, recipient, mode) {
        lemma_index_of(s, id);
        let i = s.index_of(id);
        lemma_operations_keep_wf(s, caller, 0, id, amount, 0, now, recipient, mode);
        assert(t.records[i].bounty_id == id);
        lemma_index_unique(t, id, i);
    }
}

/// Before the deadline, a bounty without an approved refund cannot be
/// refunded: the refund is refused with `DeadlineNotPassed`.
pub proof fn law_refund_waits_for_deadline(s: BountyState, id: u64, now: u64)
    requires
        s.pending is None,
        s.has_bounty(id),
        is_active(s.escrow(id).status),
        s.record(id).approval is None,
        now < s.escrow(id).deadline,
    ensures
        s.refund(id, now) == Err::<BountyState, Error>(Error::DeadlineNotPassed),
{
}

/// How each escrow counts in the aggregate stats and the balance, by its
/// status: adding an escrow adds one to the count of its group (locked;
/// released; refunded, which takes in partially refunded), adds its amount to
/// that group's total, and adds its remaining amount to what the contract
/// holds only while it is locked or partially refunded.
pub proof fn law_aggregate_by_status(s: Seq<crate::bounty_state::EscrowRecord>, r: crate::bounty_state::EscrowRecord)
    ensures
        sum(s.push(r), Measure::LockedCount) == sum(s, Measure::LockedCount) + (if r.escrow.status
            == EscrowStatus::Locked {
            1int
        } else {
            0int
        }),
        sum(s.push(r), Measure::ReleasedCount) == sum(s, Measure::ReleasedCount) + (
        if r.escrow.status == EscrowStatus::Released {
            1int
        } else {
            0int
        }),
        sum(s.push(r), Measure::RefundedCount) == sum(s, Measure::RefundedCount) + (
        if r.escrow.status == EscrowStatus::Refunded || r.escrow.status
            == EscrowStatus::PartiallyRefunded {
            1int
        } else {
            0int
        }),
        sum(s.push(r), Measure::LockedAmount) == sum(s, Measure::LockedAmount) + (
        if r.escrow.status == EscrowStatus::Locked {
            r.escrow.amount as int
        } else {
            0int
        }),
        sum(s.push(r), Measure::ReleasedAmount) == sum(s, Measure::ReleasedAmount) + (
        if r.escrow.status == EscrowStatus::Released {
            r.escrow.amount as int
        } else {
            0int
        }),
        sum(s.push(r), Measure::RefundedAmount) == sum(s, Measure::RefundedAmount) + (
        if r.escrow.status == EscrowStatus::Refunded || r.escrow.status
            == EscrowStatus::PartiallyRefunded {
            r.escrow.amount as int
        } else {
            0int
        }),
        sum(s.push(r), Measure::Active) == sum(s, Measure::Active) + (if r.escrow.status
            == EscrowStatus::Locked || r.escrow.status == EscrowStatus::PartiallyRefunded {
            r.escrow.remaining_amount as int
        } else {
            0int
        }),
        sum(s.push(r), Measure::Amount) == sum(s, Measure::Amount) + r.escrow.amount,
{
    assert(s.push(r).drop_last() =~= s);
}

} // verus!

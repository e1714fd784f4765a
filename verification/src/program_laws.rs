//! Properties of the program escrow that hold across its operations.
use vstd::prelude::*;

use crate::program_state::{
    after_trigger, amounts_total, batch_records, due_payouts, history_total, lemma_batch_total,
    lemma_history_total_append, lemma_history_total_nonneg, payout_transfers, PayoutRecord,
    EventBody, EventView, ProgramError, ProgramState, ReleaseSchedule, MAX_BATCH_SIZE,
};
use crate::token::{Party, Transfer};

verus! {

/// Balance tracking: what was locked is exactly what was paid out plus what
/// remains, nothing is paid beyond what was locked, and the balance never goes
/// negative.
pub proof fn law_program_conservation(s: ProgramState)
    requires
        s.wf(),
    ensures
        s.total_funds == s.remaining_balance + history_total(s.payout_history),
        0 <= history_total(s.payout_history) <= s.total_funds,
        0 <= s.remaining_balance <= s.total_funds,
{
    lemma_history_total_nonneg(s.payout_history);
}

/// Locking funds brings them in from the account that locks them: the one
/// pending transfer goes from `from` to the escrow, and the total and the
/// remaining balance both grow by the amount. A positive amount that keeps
/// the total within `i128` is always accepted while no transfer is in flight.
pub proof fn law_lock_brings_funds_in(s: ProgramState, from: u64, amount: i128)
    requires
        s.wf(),
    ensures
        s.lock_program_funds(from, amount) matches Ok(t) ==> {
            &&& t.pending_transfers() == seq![
                Transfer { from: Party::Account(from), to: Party::Escrow, amount },
            ]
            &&& t.total_funds == s.total_funds + amount
            &&& t.remaining_balance == s.remaining_balance + amount
            &&& t.payout_history == s.payout_history
        },
        s.pending is None && amount > 0 && s.total_funds + amount <= i128::MAX ==> s.lock_program_funds(
            from,
            amount,
        ) is Ok,
{
}

/// Only the authorized payout key pays out or queues releases: any other
/// caller is refused with `Unauthorized`.
pub proof fn law_only_payout_key_pays(
    s: ProgramState,
    caller: u64,
    recipient: u64,
    amount: i128,
    recipients: Seq<u64>,
    amounts: Seq<i128>,
    now: u64,
)
    requires
        s.pending is None,
        caller != s.authorized_payout_key,
    ensures
        s.single_payout(caller, recipient, amount, now) == Err::<ProgramState, ProgramError>(
            ProgramError::Unauthorized,
        ),
        s.batch_payout(caller, recipients, amounts, now) == Err::<ProgramState, ProgramError>(
            ProgramError::Unauthorized,
        ),
        s.create_release_schedule(caller, amount, now, recipient) == Err::<
            ProgramState,
            ProgramError,
        >(ProgramError::Unauthorized),
{
}

/// Payouts leave the contract as exactly the transfers pending: one per new
/// history record, to its recipient, for its amount; and the balance falls by
/// their sum.
pub proof fn law_payouts_follow_transfers(
    s: ProgramState,
    caller: u64,
    recipient: u64,
    amount: i128,
    recipients: Seq<u64>,
    amounts: Seq<i128>,
    now: u64,
)
    requires
        s.wf(),
    ensures
        s.single_payout(caller, recipient, amount, now) matches Ok(t) ==> {
            let new = t.payout_history.skip(s.payout_history.len() as int);
            &&& t.pending_transfers() == payout_transfers(new)
            &&& t.remaining_balance == s.remaining_balance - history_total(new)
        },
        s.batch_payout(caller, recipients, amounts, now) matches Ok(t) ==> {
            let new = t.payout_history.skip(s.payout_history.len() as int);
            &&& t.pending_transfers() == payout_transfers(new)
            &&& t.remaining_balance == s.remaining_balance - history_total(new)
        },
        s.trigger_releases(now) matches Ok(t) ==> {
            let new = t.payout_history.skip(s.payout_history.len() as int);
            &&& t.pending_transfers() == payout_transfers(new)
            &&& t.remaining_balance == s.remaining_balance - history_total(new)
        },
{
    if let Ok(t) = s.single_payout(caller, recipient, amount, now) {
        let new = t.payout_history.skip(s.payout_history.len() as int);
        let rec = PayoutRecord { recipient, amount, timestamp: now };
        assert(new =~= seq![rec]);
        assert(new.drop_last() =~= Seq::<PayoutRecord>::empty());
        assert(history_total(new) == history_total(new.drop_last()) + rec.amount);
        assert(payout_transfers(new) =~= t.pending_transfers());
    }
    if let Ok(t) = s.batch_payout(caller, recipients, amounts, now) {
        let b = batch_records(recipients, amounts, now);
        assert(t.payout_history.skip(s.payout_history.len() as int) =~= b);
        lemma_batch_total(recipients, amounts, now);
    }
    if let Ok(t) = s.trigger_releases(now) {
        let due = due_payouts(s.schedules, now);
        if due.len() == 0 {
            assert(t.payout_history.skip(s.payout_history.len() as int) =~= due);
            assert(payout_transfers(due) =~= Seq::<Transfer>::empty());
        } else {
            assert(t.payout_history.skip(s.payout_history.len() as int) =~= due);
        }
    }
}

/// A batch payout pays every recipient its amount, in order, at once: the
/// history grows by exactly one record per recipient, the balance falls by
/// the sum of the amounts, and exactly one event is emitted, the batch event,
/// which counts one transfer and one history append per recipient, one
/// storage read, one write and one event.
pub proof fn law_batch_payout_effects(
    s: ProgramState,
    caller: u64,
    recipients: Seq<u64>,
    amounts: Seq<i128>,
    now: u64,
)
    requires
        s.wf(),
    ensures
        s.batch_payout(caller, recipients, amounts, now) matches Ok(t) ==> {
            &&& t.payout_history.len() == s.payout_history.len() + recipients.len()
            &&& forall|i: int|
                0 <= i < recipients.len() ==> #[trigger] t.payout_history[s.payout_history.len()
                    + i] == (PayoutRecord {
                    recipient: recipients[i],
                    amount: amounts[i],
                    timestamp: now,
                })
            &&& t.remaining_balance == s.remaining_balance - amounts_total(amounts)
            &&& history_total(t.payout_history) == history_total(s.payout_history)
                + amounts_total(amounts)
            &&& t.events == s.events.push(
                EventView {
                    program_id: s.program_id,
                    body: EventBody::BatchPayout(s.batch_event(recipients, amounts)),
                },
            )
            &&& t.pending_transfers().len() == recipients.len()
            &&& s.batch_event(recipients, amounts).gas_proxy_transfer_ops == recipients.len()
            &&& s.batch_event(recipients, amounts).gas_proxy_history_appends == recipients.len()
            &&& s.batch_event(recipients, amounts).gas_proxy_storage_reads == 1
            &&& s.batch_event(recipients, amounts).gas_proxy_storage_writes == 1
            &&& s.batch_event(recipients, amounts).gas_proxy_events_emitted == 1
        },
{
    if let Ok(t) = s.batch_payout(caller, recipients, amounts, now) {
        let b = batch_records(recipients, amounts, now);
        lemma_history_total_append(s.payout_history, b);
        lemma_batch_total(recipients, amounts, now);
        assert forall|i: int| 0 <= i < recipients.len() implies #[trigger] t.payout_history[s.payout_history.len()
            + i] == (PayoutRecord {
            recipient: recipients[i],
            amount: amounts[i],
            timestamp: now,
        }) by {
            assert(t.payout_history[s.payout_history.len() + i] == b[i]);
        }
    }
}

/// A batch with a non-positive amount is refused, whatever the balance.
pub proof fn law_batch_rejects_non_positive_amounts(
    s: ProgramState,
    recipients: Seq<u64>,
    amounts: Seq<i128>,
    now: u64,
    i: int,
)
    requires
        s.pending is None,
        recipients.len() == amounts.len(),
        0 < recipients.len() <= MAX_BATCH_SIZE,
        0 <= i < amounts.len(),
        amounts[i] <= 0,
    ensures
        s.batch_payout(s.authorized_payout_key, recipients, amounts, now) == Err::<
            ProgramState,
            ProgramError,
        >(ProgramError::InvalidBatchAmount),
{
}

/// Nothing is due after a trigger.
proof fn lemma_nothing_due_after_trigger(schedules: Seq<ReleaseSchedule>, now: u64)
    ensures
        due_payouts(schedules.map_values(|s: ReleaseSchedule| after_trigger(s, now)), now)
            =~= Seq::<PayoutRecord>::empty(),
    decreases schedules.len(),
{
    if schedules.len() > 0 {
        let m = schedules.map_values(|s: ReleaseSchedule| after_trigger(s, now));
        assert(m.drop_last() =~= schedules.drop_last().map_values(
            |s: ReleaseSchedule| after_trigger(s, now),
        ));
        lemma_nothing_due_after_trigger(schedules.drop_last(), now);
    }
}

/// Release schedules: a trigger at `now` releases exactly the schedules whose
/// time has come (the boundary `now == release_timestamp` included) and that
/// were not released before; later ones stay pending; and once its transfers
/// are done, a second trigger at the same time pays nobody, so no schedule is
/// ever paid twice.
pub proof fn law_trigger_releases_each_schedule_once(s: ProgramState, now: u64)
    requires
        s.wf(),
    ensures
        s.trigger_releases(now) matches Ok(t) ==> {
            &&& t.schedules.len() == s.schedules.len()
            &&& forall|i: int|
                0 <= i < s.schedules.len() ==> {
                    &&& (#[trigger] t.schedules[i]).released == (s.schedules[i].released
                        || s.schedules[i].release_timestamp <= now)
                    &&& t.schedules[i].amount == s.schedules[i].amount
                    &&& t.schedules[i].recipient == s.schedules[i].recipient
                    &&& t.schedules[i].release_timestamp == s.schedules[i].release_timestamp
                }
            &&& t.pending is None ==> t.trigger_releases(now) == Ok::<ProgramState, ProgramError>(t)
            &&& t.pending is Some ==> ({
                let u = t.complete_transfers()->Ok_0;
                u.trigger_releases(now) == Ok::<ProgramState, ProgramError>(u)
            })
        },
{
    if let Ok(t) = s.trigger_releases(now) {
        let due = due_payouts(s.schedules, now);
        if due.len() == 0 {
            assert forall|i: int| 0 <= i < s.schedules.len() implies (#[trigger] t.schedules[i]).released
                == (s.schedules[i].released || s.schedules[i].release_timestamp <= now) by {
                if !s.schedules[i].released && s.schedules[i].release_timestamp <= now {
                    lemma_due_nonempty(s.schedules, i, now);
                }
            }
        } else {
            lemma_nothing_due_after_trigger(s.schedules, now);
            let u = t.complete_transfers()->Ok_0;
            let v = u.trigger_releases(now)->Ok_0;
            assert(v =~= u);
        }
    }
}

/// A schedule that is due makes the due payouts non-empty.
proof fn lemma_due_nonempty(schedules: Seq<ReleaseSchedule>, i: int, now: u64)
    requires
        0 <= i < schedules.len(),
        !schedules[i].released,
        schedules[i].release_timestamp <= now,
    ensures
        due_payouts(schedules, now).len() > 0,
    decreases schedules.len(),
{
    if i < schedules.len() - 1 {
        assert(schedules.drop_last()[i] == schedules[i]);
        lemma_due_nonempty(schedules.drop_last(), i, now);
    }
}

/// A released schedule stays released through every operation but an
/// abandoned transfer, which undoes the operation that asked for it.
pub proof fn law_released_stays_released(
    s: ProgramState,
    caller: u64,
    amount: i128,
    recipient: u64,
    recipients: Seq<u64>,
    amounts: Seq<i128>,
    now: u64,
    i: int,
)
    requires
        0 <= i < s.schedules.len(),
        s.schedules[i].released,
    ensures
        s.lock_program_funds(recipient, amount) matches Ok(t) ==> t.schedules[i].released,
        s.single_payout(caller, recipient, amount, now) matches Ok(t) ==> t.schedules[i].released,
        s.batch_payout(caller, recipients, amounts, now) matches Ok(t) ==> t.schedules[i].released,
        s.create_release_schedule(caller, amount, now, recipient) matches Ok(t)
            ==> t.schedules[i].released,
        s.trigger_releases(now) matches Ok(t) ==> t.schedules[i].released,
        s.complete_transfers() matches Ok(t) ==> t.schedules[i].released,
{
}

/// The payout history is append-only: every operation keeps what was paid
/// before, in place, except that an abandoned transfer removes the payouts of
/// the operation it undoes.
pub proof fn law_history_is_append_only(
    s: ProgramState,
    caller: u64,
    amount: i128,
    recipient: u64,
    recipients: Seq<u64>,
    amounts: Seq<i128>,
    now: u64,
)
    ensures
        s.lock_program_funds(recipient, amount) matches Ok(t) ==> s.payout_history.is_prefix_of(
            t.payout_history,
        ),
        s.single_payout(caller, recipient, amount, now) matches Ok(t)
            ==> s.payout_history.is_prefix_of(t.payout_history),
        s.batch_payout(caller, recipients, amounts, now) matches Ok(t)
            ==> s.payout_history.is_prefix_of(t.payout_history),
        s.create_release_schedule(caller, amount, now, recipient) matches Ok(t)
            ==> s.payout_history.is_prefix_of(t.payout_history),
        s.trigger_releases(now) matches Ok(t) ==> s.payout_history.is_prefix_of(
            t.payout_history,
        ),
        s.complete_transfers() matches Ok(t) ==> s.payout_history.is_prefix_of(t.payout_history),
{
}

/// Abandoning the transfers undoes the operation that asked for them: every
/// token-moving operation followed by `abort_transfers` leaves the program
/// exactly as it was.
pub proof fn law_abort_undoes_operation(
    s: ProgramState,
    caller: u64,
    amount: i128,
    recipient: u64,
    recipients: Seq<u64>,
    amounts: Seq<i128>,
    now: u64,
)
    requires
        s.wf(),
        s.pending is None,
    ensures
        s.lock_program_funds(recipient, amount) matches Ok(t) ==> t.abort_transfers() == Ok::<
            ProgramState,
            ProgramError,
        >(s),
        s.single_payout(caller, recipient, amount, now) matches Ok(t) ==> t.abort_transfers()
            == Ok::<ProgramState, ProgramError>(s),
        s.batch_payout(caller, recipients, amounts, now) matches Ok(t) ==> t.abort_transfers()
            == Ok::<ProgramState, ProgramError>(s),
        s.trigger_releases(now) matches Ok(t) ==> t.pending is Some ==> t.abort_transfers()
            == Ok::<ProgramState, ProgramError>(s),
{
}

/// Every operation that changes the program emits exactly one event, and every
/// event names the program: a lock, a payout, a batch, a new schedule and a
/// trigger that releases something each append one event whose program id is
/// the program's; a trigger with nothing due changes nothing at all.
pub proof fn law_operations_emit_one_event(
    s: ProgramState,
    caller: u64,
    amount: i128,
    recipient: u64,
    recipients: Seq<u64>,
    amounts: Seq<i128>,
    now: u64,
)
    ensures
        s.lock_program_funds(recipient, amount) matches Ok(t) ==> t.events.drop_last() == s.events
            && t.events.len() == s.events.len() + 1 && t.events.last().program_id == s.program_id,
        s.single_payout(caller, recipient, amount, now) matches Ok(t) ==> t.events.drop_last()
            == s.events && t.events.len() == s.events.len() + 1 && t.events.last().program_id
            == s.program_id,
        s.batch_payout(caller, recipients, amounts, now) matches Ok(t) ==> t.events.drop_last()
            == s.events && t.events.len() == s.events.len() + 1 && t.events.last().program_id
            == s.program_id,
        s.create_release_schedule(caller, amount, now, recipient) matches Ok(t)
            ==> t.events.drop_last() == s.events && t.events.len() == s.events.len() + 1
            && t.events.last().program_id == s.program_id,
        s.trigger_releases(now) matches Ok(t) ==> (if due_payouts(s.schedules, now).len() == 0 {
            t == s
        } else {
            t.events.drop_last() == s.events && t.events.len() == s.events.len() + 1
                && t.events.last().program_id == s.program_id
        }),
{
    if let Ok(t) = s.lock_program_funds(recipient, amount) {
        assert(t.events.drop_last() =~= s.events);
    }
    if let Ok(t) = s.single_payout(caller, recipient, amount, now) {
        assert(t.events.drop_last() =~= s.events);
    }
    if let Ok(t) = s.batch_payout(caller, recipients, amounts, now) {
        assert(t.events.drop_last() =~= s.events);
    }
    if let Ok(t) = s.create_release_schedule(caller, amount, now, recipient) {
        assert(t.events.drop_last() =~= s.events);
    }
    if let Ok(t) = s.trigger_releases(now) {
        if due_payouts(s.schedules, now).len() != 0 {
            assert(t.events.drop_last() =~= s.events);
        }
    }
}

/// A single payout by the payout key of any amount from one up to the whole
/// remaining balance goes through while no transfer is in flight: the balance
/// falls by the amount, the history gains exactly that payout, and the one
/// pending transfer sends the amount to the recipient. More than the balance
/// is refused with `InsufficientBalance`.
pub proof fn law_single_payout_spends_up_to_balance(
    s: ProgramState,
    recipient: u64,
    amount: i128,
    now: u64,
)
    requires
        s.pending is None,
        amount > 0,
    ensures
        amount <= s.remaining_balance ==> ({
            let r = s.single_payout(s.authorized_payout_key, recipient, amount, now);
            let t = r->Ok_0;
            &&& r is Ok
            &&& t.remaining_balance == s.remaining_balance - amount
            &&& t.total_funds == s.total_funds
            &&& t.payout_history == s.payout_history.push(
                PayoutRecord { recipient, amount, timestamp: now },
            )
            &&& t.pending_transfers() == seq![
                Transfer { from: Party::Escrow, to: Party::Account(recipient), amount },
            ]
        }),
        amount > s.remaining_balance ==> s.single_payout(
            s.authorized_payout_key,
            recipient,
            amount,
            now,
        ) == Err::<ProgramState, ProgramError>(ProgramError::InsufficientBalance),
{
}

/// A valid batch by the payout key goes through while no transfer is in
/// flight: equal lengths between one and `MAX_BATCH_SIZE`, every amount
/// positive, and a sum no larger than the remaining balance (the whole balance
/// included). A sum beyond the balance is refused with `InsufficientBalance`.
pub proof fn law_batch_spends_up_to_balance(
    s: ProgramState,
    recipients: Seq<u64>,
    amounts: Seq<i128>,
    now: u64,
)
    requires
        s.pending is None,
        recipients.len() == amounts.len(),
        0 < recipients.len() <= MAX_BATCH_SIZE,
        forall|i: int| 0 <= i < amounts.len() ==> amounts[i] > 0,
    ensures
        amounts_total(amounts) <= s.remaining_balance ==> s.batch_payout(
            s.authorized_payout_key,
            recipients,
            amounts,
            now,
        ) is Ok,
        amounts_total(amounts) > s.remaining_balance ==> s.batch_payout(
            s.authorized_payout_key,
            recipients,
            amounts,
            now,
        ) == Err::<ProgramState, ProgramError>(ProgramError::InsufficientBalance),
{
}

/// A schedule by the payout key for a positive amount is always queued while
/// no transfer is in flight: it is added last, under the next id, not yet
/// released, and nothing else changes but the event log.
pub proof fn law_create_schedule_queues(
    s: ProgramState,
    amount: i128,
    release_timestamp: u64,
    recipient: u64,
)
    requires
        s.pending is None,
        amount > 0,
    ensures
        ({
            let r = s.create_release_schedule(
                s.authorized_payout_key,
                amount,
                release_timestamp,
                recipient,
            );
            let t = r->Ok_0;
            &&& r is Ok
            &&& t.schedules == s.schedules.push(
                ReleaseSchedule {
                    schedule_id: s.schedules.len() as u64,
                    recipient,
                    amount,
                    release_timestamp,
                    released: false,
                },
            )
            &&& t.remaining_balance == s.remaining_balance
            &&& t.payout_history == s.payout_history
            &&& t.pending is None
        }),
{
}

/// A trigger goes through while no transfer is in flight whenever the
/// balance covers everything due, and is refused with `InsufficientBalance`
/// otherwise.
pub proof fn law_trigger_pays_when_covered(s: ProgramState, now: u64)
    requires
        s.pending is None,
    ensures
        history_total(due_payouts(s.schedules, now)) <= s.remaining_balance
            ==> s.trigger_releases(now) is Ok,
        history_total(due_payouts(s.schedules, now)) > s.remaining_balance
            ==> s.trigger_releases(now) == Err::<ProgramState, ProgramError>(
            ProgramError::InsufficientBalance,
        ),
{
}

} // verus!

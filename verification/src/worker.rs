//! The delivery worker's policy: how a transport outcome for one dequeued
//! task is acknowledged. Success removes the task for good, a transient
//! failure re-queues it behind a strictly growing backoff, a permanent
//! failure or an exhausted retry budget drops it with a logged reason.

use vstd::prelude::*;

use vstd::arithmetic::power2::{lemma2_to64, lemma_pow2_strictly_increases, lemma_pow2_unfold, pow2};

use crate::outbox::{
    ack_drop_spec, ack_retry_spec, ack_success_spec, in_tasks, task_index, DeliveryTask, Outbox,
};

verus! {

/// How the email transport answered one delivery attempt.
pub enum TransportOutcome {
    /// The transport accepted the mail.
    Delivered,
    /// A retryable failure: timeout, connection error, server error.
    TransientFailure,
    /// A non-retryable failure, such as an invalid recipient.
    PermanentFailure,
}

/// What the worker did with the task.
pub enum WorkerAction {
    /// Delivery succeeded; the task left the system.
    Completed,
    /// The task went back to the queue with the given deadline.
    Retried(u64),
    /// The task was dropped and a failure record kept.
    Dropped,
}

/// Cap on the backoff exponent, so that the delay stays within range while
/// growth in the attempt count still strictly grows the delay.
pub open spec fn backoff_exp(attempt: u32) -> nat {
    if attempt <= 32 {
        attempt as nat
    } else {
        32
    }
}

/// Backoff in seconds before the given attempt: exponential at first, then
/// linear, and strictly increasing throughout.
pub open spec fn spec_backoff(attempt: u32) -> u64 {
    (pow2(backoff_exp(attempt)) + attempt) as u64
}

pub proof fn lemma_pow2_32_bound(e: nat)
    requires
        e <= 32,
    ensures
        pow2(e) <= 0x1_0000_0000,
{
    lemma2_to64();
    if e < 32 {
        lemma_pow2_strictly_increases(e, 32);
    }
}

/// Law: the retry backoff strictly increases with the attempt count, so a
/// retried task always moves strictly behind its previous deadline.
pub proof fn lemma_backoff_strictly_increasing(a: u32, b: u32)
    requires
        a < b,
    ensures
        spec_backoff(a) < spec_backoff(b),
{
    lemma_pow2_32_bound(backoff_exp(a));
    lemma_pow2_32_bound(backoff_exp(b));
    if backoff_exp(a) < backoff_exp(b) {
        lemma_pow2_strictly_increases(backoff_exp(a), backoff_exp(b));
    }
}

/// Backoff in seconds before attempt number `attempt`.
pub fn backoff(attempt: u32) -> (r: u64)
    ensures
        r == spec_backoff(attempt),
{
    let e: u32 = if attempt <= 32 {
        attempt
    } else {
        32
    };
    let mut acc: u64 = 1;
    let mut i: u32 = 0;
    proof {
        lemma2_to64();
    }
    while i < e
        invariant
            i <= e,
            e <= 32,
            e as nat == backoff_exp(attempt),
            acc == pow2(i as nat),
        decreases e - i,
    {
        proof {
            lemma_pow2_32_bound(i as nat);
            lemma_pow2_unfold((i + 1) as nat);
        }
        acc = acc * 2;
        i += 1;
    }
    proof {
        lemma_pow2_32_bound(e as nat);
    }
    acc + attempt as u64
}

/// The worker's decision for one transport outcome on a task with
/// `attempt_count` prior attempts: retry a transient failure while the
/// budget of `max_attempts` allows another attempt, otherwise drop.
pub open spec fn classify_spec(
    outcome: TransportOutcome,
    attempt_count: u32,
    max_attempts: u32,
    now: u64,
) -> WorkerAction {
    match outcome {
        TransportOutcome::Delivered => WorkerAction::Completed,
        TransportOutcome::PermanentFailure => WorkerAction::Dropped,
        TransportOutcome::TransientFailure => {
            if attempt_count + 1 < max_attempts {
                WorkerAction::Retried((now + spec_backoff((attempt_count + 1) as u32)) as u64)
            } else {
                WorkerAction::Dropped
            }
        },
    }
}

/// Reason logged when the transport answered with a permanent failure.
pub open spec fn reason_permanent() -> Seq<char> {
    "permanent transport failure"@
}

/// Reason logged when the retry budget was exhausted.
pub open spec fn reason_budget() -> Seq<char> {
    "retry budget exhausted"@
}

/// Acknowledge the transport outcome for one leased task.
///
/// The acknowledgement applied to the outbox is exactly the classified
/// action: success logs the delivery once and forgets the task; a transient
/// failure under budget re-queues the task with one more recorded attempt
/// behind a strictly later deadline; anything else drops the task with the
/// reason kept for the operator.
pub fn process_delivery_outcome(
    outbox: &mut Outbox,
    task: &DeliveryTask,
    outcome: TransportOutcome,
    now: u64,
    max_attempts: u32,
) -> (action: WorkerAction)
    requires
        old(outbox).wf(),
        in_tasks(old(outbox)@.leased, task@.id),
        old(outbox)@.leased[task_index(old(outbox)@.leased, task@.id)].attempt_count
            == task@.attempt_count,
        task@.attempt_count < max_attempts,
        now + spec_backoff((task@.attempt_count + 1) as u32) <= u64::MAX,
    ensures
        final(outbox).wf(),
        action == classify_spec(outcome, task@.attempt_count, max_attempts, now),
        (outcome is Delivered) ==> final(outbox)@ == ack_success_spec(old(outbox)@, task@.id),
        (outcome is PermanentFailure) ==> final(outbox)@ == ack_drop_spec(
            old(outbox)@,
            task@.id,
            reason_permanent(),
        ),
        (outcome is TransientFailure && task@.attempt_count + 1 < max_attempts) ==> final(outbox)@
            == ack_retry_spec(
            old(outbox)@,
            task@.id,
            (now + spec_backoff((task@.attempt_count + 1) as u32)) as u64,
        ),
        (outcome is TransientFailure && task@.attempt_count + 1 >= max_attempts) ==> final(outbox)@
            == ack_drop_spec(old(outbox)@, task@.id, reason_budget()),
{
    match outcome {
        TransportOutcome::Delivered => {
            outbox.ack_success(task.id);
            WorkerAction::Completed
        },
        TransportOutcome::PermanentFailure => {
            outbox.ack_drop(task.id, "permanent transport failure");
            WorkerAction::Dropped
        },
        TransportOutcome::TransientFailure => {
            if task.attempt_count + 1 < max_attempts {
                let next = now + backoff(task.attempt_count + 1);
                outbox.ack_retry(task.id, next);
                WorkerAction::Retried(next)
            } else {
                outbox.ack_drop(task.id, "retry budget exhausted");
                WorkerAction::Dropped
            }
        },
    }
}

/// The deadline a retried task is scheduled behind.
pub open spec fn retry_deadline(now: u64, attempt_next: u32) -> u64 {
    (now + spec_backoff(attempt_next)) as u64
}

/// One worker round on the sole queued task: the task is handed out (the
/// queue's head moves to the worker's lease) and the transport outcome is
/// acknowledged as `process_delivery_outcome` does.
pub open spec fn sole_round_spec(
    v: crate::outbox::OutboxV,
    o: TransportOutcome,
    now: u64,
    max_attempts: u32,
) -> crate::outbox::OutboxV
    recommends
        v.pending.len() == 1,
        v.leased.len() == 0,
{
    let t = v.pending[0];
    let w = crate::outbox::OutboxV {
        pending: v.pending.remove(0),
        leased: v.leased.push(t),
        ..v
    };
    match o {
        TransportOutcome::Delivered => ack_success_spec(w, t.id),
        TransportOutcome::PermanentFailure => ack_drop_spec(w, t.id, reason_permanent()),
        TransportOutcome::TransientFailure => {
            if t.attempt_count + 1 < max_attempts {
                ack_retry_spec(w, t.id, retry_deadline(now, (t.attempt_count + 1) as u32))
            } else {
                ack_drop_spec(w, t.id, reason_budget())
            }
        },
    }
}

/// The outbox after a sequence of such rounds.
pub open spec fn sole_run_spec(
    v: crate::outbox::OutboxV,
    outcomes: Seq<TransportOutcome>,
    now: u64,
    max_attempts: u32,
) -> crate::outbox::OutboxV
    decreases outcomes.len(),
{
    if outcomes.len() == 0 {
        v
    } else {
        sole_run_spec(
            sole_round_spec(v, outcomes[0], now, max_attempts),
            outcomes.drop_first(),
            now,
            max_attempts,
        )
    }
}

proof fn lemma_sole_round(v: crate::outbox::OutboxV, o: TransportOutcome, now: u64, max_attempts: u32)
    requires
        v.pending.len() == 1,
        v.leased.len() == 0,
    ensures
        ({
            let t = v.pending[0];
            let v2 = sole_round_spec(v, o, now, max_attempts);
            &&& v2.next_id == v.next_id
            &&& (o is Delivered) ==> v2.pending.len() == 0 && v2.leased.len() == 0 && v2.delivered
                == v.delivered.push(t.id) && v2.dropped == v.dropped
            &&& (o is PermanentFailure) ==> v2.pending.len() == 0 && v2.leased.len() == 0
                && v2.delivered == v.delivered && v2.dropped == v.dropped.push(
                crate::outbox::DropV { id: t.id, reason: reason_permanent() },
            )
            &&& (o is TransientFailure && t.attempt_count + 1 < max_attempts) ==> v2.pending
                =~= seq![
                crate::outbox::TaskV {
                    attempt_count: (t.attempt_count + 1) as u32,
                    next_attempt_at: retry_deadline(now, (t.attempt_count + 1) as u32),
                    ..t
                },
            ] && v2.leased.len() == 0 && v2.delivered == v.delivered && v2.dropped == v.dropped
            &&& (o is TransientFailure && t.attempt_count + 1 >= max_attempts) ==> v2.pending.len()
                == 0 && v2.leased.len() == 0 && v2.delivered == v.delivered && v2.dropped
                == v.dropped.push(crate::outbox::DropV { id: t.id, reason: reason_budget() })
        }),
{
    let t = v.pending[0];
    let w = crate::outbox::OutboxV {
        pending: v.pending.remove(0),
        leased: v.leased.push(t),
        ..v
    };
    assert(w.pending.len() == 0);
    assert(w.leased =~= seq![t]);
    assert(task_index(w.leased, t.id) == 0);
    assert(w.leased.remove(0) =~= Seq::<crate::outbox::TaskV>::empty());
    if o is TransientFailure && t.attempt_count + 1 < max_attempts {
        let t2 = crate::outbox::TaskV {
            attempt_count: (t.attempt_count + 1) as u32,
            next_attempt_at: retry_deadline(now, (t.attempt_count + 1) as u32),
            ..t
        };
        assert(crate::outbox::insert_pos(w.pending, t2) == 0);
        assert(crate::outbox::sorted_insert(w.pending, t2) =~= seq![t2]);
    }
}

/// Law (bounded retries, delivering): the sole queued task, failing
/// transiently at every attempt but the last and then delivered, with the
/// whole run inside the budget, is logged as delivered exactly once, gets
/// no drop record, and leaves the system.
pub proof fn lemma_transient_failures_then_success(
    v: crate::outbox::OutboxV,
    outcomes: Seq<TransportOutcome>,
    now: u64,
    max_attempts: u32,
)
    requires
        v.pending.len() == 1,
        v.leased.len() == 0,
        outcomes.len() >= 1,
        forall|i: int| 0 <= i < outcomes.len() - 1 ==> outcomes[i] is TransientFailure,
        outcomes.last() is Delivered,
        v.pending[0].attempt_count + outcomes.len() <= max_attempts,
    ensures
        ({
            let v2 = sole_run_spec(v, outcomes, now, max_attempts);
            &&& v2.delivered == v.delivered.push(v.pending[0].id)
            &&& v2.dropped == v.dropped
            &&& v2.pending.len() == 0
            &&& v2.leased.len() == 0
        }),
    decreases outcomes.len(),
{
    let t = v.pending[0];
    lemma_sole_round(v, outcomes[0], now, max_attempts);
    let v1 = sole_round_spec(v, outcomes[0], now, max_attempts);
    if outcomes.len() == 1 {
        assert(outcomes[0] == outcomes.last());
        assert(sole_run_spec(v1, outcomes.drop_first(), now, max_attempts) == v1);
    } else {
        assert(outcomes[0] is TransientFailure);
        assert(t.attempt_count + 1 < max_attempts);
        let rest = outcomes.drop_first();
        assert(forall|i: int| 0 <= i < rest.len() ==> rest[i] == outcomes[i + 1]);
        assert(rest.last() == outcomes.last());
        assert(v1.pending[0].attempt_count == t.attempt_count + 1);
        assert(v1.pending[0].id == t.id);
        lemma_transient_failures_then_success(v1, rest, now, max_attempts);
    }
}

/// Law (bounded retries, dropping): the sole queued task, failing
/// transiently until the budget of `max_attempts` is spent, is dropped
/// exactly once with the exhaustion reason, is never logged as delivered,
/// and leaves the system — no further attempt can be handed out.
pub proof fn lemma_retry_budget_exhaustion(
    v: crate::outbox::OutboxV,
    outcomes: Seq<TransportOutcome>,
    now: u64,
    max_attempts: u32,
)
    requires
        v.pending.len() == 1,
        v.leased.len() == 0,
        outcomes.len() >= 1,
        forall|i: int| 0 <= i < outcomes.len() ==> outcomes[i] is TransientFailure,
        v.pending[0].attempt_count + outcomes.len() == max_attempts,
    ensures
        ({
            let v2 = sole_run_spec(v, outcomes, now, max_attempts);
            &&& v2.dropped == v.dropped.push(
                crate::outbox::DropV { id: v.pending[0].id, reason: reason_budget() },
            )
            &&& v2.delivered == v.delivered
            &&& v2.pending.len() == 0
            &&& v2.leased.len() == 0
        }),
    decreases outcomes.len(),
{
    let t = v.pending[0];
    lemma_sole_round(v, outcomes[0], now, max_attempts);
    let v1 = sole_round_spec(v, outcomes[0], now, max_attempts);
    if outcomes.len() == 1 {
        assert(t.attempt_count + 1 >= max_attempts);
        assert(sole_run_spec(v1, outcomes.drop_first(), now, max_attempts) == v1);
    } else {
        assert(t.attempt_count + 1 < max_attempts);
        let rest = outcomes.drop_first();
        assert(forall|i: int| 0 <= i < rest.len() ==> rest[i] == outcomes[i + 1]);
        assert(v1.pending[0].attempt_count == t.attempt_count + 1);
        assert(v1.pending[0].id == t.id);
        lemma_retry_budget_exhaustion(v1, rest, now, max_attempts);
    }
}

/// Law: an acknowledged task never comes back. In a well-formed outbox an
/// identity logged as delivered or dropped is neither waiting in the queue
/// nor leased to any worker, so no further transport attempt for it can
/// ever be handed out; and each identity appears at most once in each log.
pub proof fn lemma_acknowledged_task_never_returns(v: crate::outbox::OutboxV, id: u64)
    requires
        crate::outbox::outbox_wf(v),
        (exists|i: int| 0 <= i < v.delivered.len() && v.delivered[i] == id) || (exists|i: int|
            0 <= i < v.dropped.len() && v.dropped[i].id == id),
    ensures
        !in_tasks(v.pending, id),
        !in_tasks(v.leased, id),
{
    if in_tasks(v.pending, id) {
        let a = choose|a: int| 0 <= a < v.pending.len() && v.pending[a].id == id;
        assert(false);
    }
    if in_tasks(v.leased, id) {
        let a = choose|a: int| 0 <= a < v.leased.len() && v.leased[a].id == id;
        assert(false);
    }
}

} // verus!

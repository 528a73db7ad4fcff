//! Durable queue of per-subscriber delivery tasks. Tasks are enqueued
//! transactionally with the idempotency reservation that owns them, handed
//! out to delivery workers with lock-and-skip semantics (a dequeued task is
//! invisible to other workers until acknowledged), and acknowledged as
//! delivered, retried with a later deadline, or dropped with a reason.

use vstd::prelude::*;

verus! {

/// Mathematical model of one delivery task.
#[verifier::ext_equal]
pub struct TaskV {
    pub id: u64,
    pub issue_id: u64,
    pub recipient: Seq<char>,
    pub enqueued_at: u64,
    pub attempt_count: u32,
    pub next_attempt_at: u64,
}

/// Mathematical model of one drop record.
#[verifier::ext_equal]
pub struct DropV {
    pub id: u64,
    pub reason: Seq<char>,
}

/// Mathematical model of the whole outbox.
#[verifier::ext_equal]
pub struct OutboxV {
    /// Tasks awaiting an attempt, sorted by (next_attempt_at, id).
    pub pending: Seq<TaskV>,
    /// Tasks currently handed to a worker and invisible to others.
    pub leased: Seq<TaskV>,
    /// Ids of tasks delivered successfully, in acknowledgement order.
    pub delivered: Seq<u64>,
    /// Records of tasks dropped after a permanent failure or an exhausted
    /// retry budget.
    pub dropped: Seq<DropV>,
    /// Ids below this bound are the only ones ever handed out.
    pub next_id: u64,
}

/// One delivery task: which newsletter issue goes to which recipient, and
/// the task's retry accounting.
pub struct DeliveryTask {
    pub id: u64,
    pub issue_id: u64,
    pub recipient: String,
    pub enqueued_at: u64,
    pub attempt_count: u32,
    pub next_attempt_at: u64,
}

impl View for DeliveryTask {
    type V = TaskV;

    open spec fn view(&self) -> TaskV {
        TaskV {
            id: self.id,
            issue_id: self.issue_id,
            recipient: self.recipient@,
            enqueued_at: self.enqueued_at,
            attempt_count: self.attempt_count,
            next_attempt_at: self.next_attempt_at,
        }
    }
}

/// One drop record kept for operator visibility.
pub struct DroppedTask {
    pub id: u64,
    pub reason: String,
}

impl View for DroppedTask {
    type V = DropV;

    open spec fn view(&self) -> DropV {
        DropV { id: self.id, reason: self.reason@ }
    }
}

/// Strict fair ordering of tasks: earlier deadline first, ties broken by id.
pub open spec fn task_lt(a: TaskV, b: TaskV) -> bool {
    a.next_attempt_at < b.next_attempt_at || (a.next_attempt_at == b.next_attempt_at && a.id
        < b.id)
}

pub open spec fn task_le(a: TaskV, b: TaskV) -> bool {
    a.next_attempt_at < b.next_attempt_at || (a.next_attempt_at == b.next_attempt_at && a.id
        <= b.id)
}

pub open spec fn sorted(p: Seq<TaskV>) -> bool {
    forall|i: int, j: int| 0 <= i < j < p.len() ==> task_le(p[i], p[j])
}

pub open spec fn ids_distinct(s: Seq<TaskV>) -> bool {
    forall|i: int, j: int| 0 <= i < j < s.len() ==> s[i].id != s[j].id
}

pub open spec fn in_tasks(s: Seq<TaskV>, id: u64) -> bool {
    exists|i: int| 0 <= i < s.len() && s[i].id == id
}

/// Well-formedness of the outbox: fair ordering of the pending queue, and
/// task identities that are unique across the queue, the leases and both
/// acknowledgement logs, all below `next_id`.
pub open spec fn outbox_wf(v: OutboxV) -> bool {
    &&& sorted(v.pending)
    &&& ids_distinct(v.pending)
    &&& ids_distinct(v.leased)
    &&& (forall|i: int, j: int|
        0 <= i < j < v.delivered.len() ==> v.delivered[i] != v.delivered[j])
    &&& (forall|i: int, j: int|
        0 <= i < j < v.dropped.len() ==> v.dropped[i].id != v.dropped[j].id)
    &&& (forall|i: int, j: int|
        0 <= i < v.pending.len() && 0 <= j < v.leased.len() ==> v.pending[i].id
            != v.leased[j].id)
    &&& (forall|i: int, j: int|
        0 <= i < v.pending.len() && 0 <= j < v.delivered.len() ==> v.pending[i].id
            != v.delivered[j])
    &&& (forall|i: int, j: int|
        0 <= i < v.pending.len() && 0 <= j < v.dropped.len() ==> v.pending[i].id
            != v.dropped[j].id)
    &&& (forall|i: int, j: int|
        0 <= i < v.leased.len() && 0 <= j < v.delivered.len() ==> v.leased[i].id
            != v.delivered[j])
    &&& (forall|i: int, j: int|
        0 <= i < v.leased.len() && 0 <= j < v.dropped.len() ==> v.leased[i].id
            != v.dropped[j].id)
    &&& (forall|i: int, j: int|
        0 <= i < v.delivered.len() && 0 <= j < v.dropped.len() ==> v.delivered[i]
            != v.dropped[j].id)
    &&& (forall|i: int| 0 <= i < v.pending.len() ==> v.pending[i].id < v.next_id)
    &&& (forall|i: int| 0 <= i < v.leased.len() ==> v.leased[i].id < v.next_id)
    &&& (forall|i: int| 0 <= i < v.delivered.len() ==> v.delivered[i] < v.next_id)
    &&& (forall|i: int| 0 <= i < v.dropped.len() ==> v.dropped[i].id < v.next_id)
}

/// Position at which `t` belongs in the sorted queue `p`: before the first
/// entry strictly after it.
pub open spec fn insert_pos(p: Seq<TaskV>, t: TaskV) -> int
    decreases p.len(),
{
    if p.len() == 0 {
        0
    } else if task_lt(t, p[0]) {
        0
    } else {
        1 + insert_pos(p.drop_first(), t)
    }
}

pub open spec fn sorted_insert(p: Seq<TaskV>, t: TaskV) -> Seq<TaskV> {
    p.insert(insert_pos(p, t), t)
}

pub proof fn lemma_insert_pos_props(p: Seq<TaskV>, t: TaskV)
    ensures
        0 <= insert_pos(p, t) <= p.len(),
        forall|j: int| 0 <= j < insert_pos(p, t) ==> task_le(p[j], t),
        sorted(p) ==> forall|j: int| insert_pos(p, t) <= j < p.len() ==> task_lt(t, p[j]),
    decreases p.len(),
{
    if p.len() > 0 && task_lt(t, p[0]) {
        if sorted(p) {
            assert forall|j: int| 0 <= j < p.len() implies task_lt(t, p[j]) by {
                if j > 0 {
                    assert(task_le(p[0], p[j]));
                }
            }
        }
    }
    if p.len() > 0 && !task_lt(t, p[0]) {
        let q = p.drop_first();
        lemma_insert_pos_props(q, t);
        assert(forall|j: int| 0 <= j < q.len() ==> q[j] == p[j + 1]);
        let i = insert_pos(p, t);
        assert forall|j: int| 0 <= j < i implies task_le(p[j], t) by {
            if j > 0 {
                assert(p[j] == q[j - 1]);
            }
        }
        if sorted(p) {
            assert(sorted(q)) by {
                assert(forall|a: int, b: int|
                    0 <= a < b < q.len() ==> q[a] == p[a + 1] && q[b] == p[b + 1]);
            }
            assert forall|j: int| i <= j < p.len() implies task_lt(t, p[j]) by {
                assert(p[j] == q[j - 1]);
            }
        }
    }
}

/// Inserting at the computed position keeps the queue sorted and adds
/// exactly the new task.
pub proof fn lemma_sorted_insert_props(p: Seq<TaskV>, t: TaskV)
    requires
        sorted(p),
    ensures
        sorted(sorted_insert(p, t)),
        sorted_insert(p, t).len() == p.len() + 1,
        forall|x: TaskV| sorted_insert(p, t).contains(x) <==> (p.contains(x) || x == t),
        forall|k: int|
            0 <= k < sorted_insert(p, t).len() ==> #[trigger] sorted_insert(p, t)[k] == t
                || p.contains(sorted_insert(p, t)[k]),
{
    lemma_insert_pos_props(p, t);
    let i = insert_pos(p, t);
    let r = p.insert(i, t);
    assert forall|a: int, b: int| 0 <= a < b < r.len() implies task_le(r[a], r[b]) by {
        assert(r[a] == (if a < i { p[a] } else if a == i { t } else { p[a - 1] }));
        assert(r[b] == (if b < i { p[b] } else if b == i { t } else { p[b - 1] }));
    }
    assert forall|x: TaskV| r.contains(x) <==> (p.contains(x) || x == t) by {
        if r.contains(x) {
            let k = choose|k: int| 0 <= k < r.len() && r[k] == x;
            if k != i {
                let k0: int = if k < i { k } else { k - 1 };
                assert(p[k0] == x);
            }
        }
        if p.contains(x) {
            let k = choose|k: int| 0 <= k < p.len() && p[k] == x;
            let k1: int = if k < i { k } else { k + 1 };
            assert(r[k1] == x);
        }
        if x == t {
            assert(r[i] == x);
        }
    }
    assert forall|k: int| 0 <= k < r.len() implies #[trigger] r[k] == t || p.contains(r[k]) by {
        if k != i {
            let k0: int = if k < i { k } else { k - 1 };
            assert(p[k0] == r[k]);
        }
    }
}

/// Inserting a task whose identity is fresh keeps identities distinct.
pub proof fn lemma_sorted_insert_distinct(p: Seq<TaskV>, t: TaskV)
    requires
        ids_distinct(p),
        forall|j: int| 0 <= j < p.len() ==> p[j].id != t.id,
    ensures
        ids_distinct(sorted_insert(p, t)),
{
    lemma_insert_pos_props(p, t);
    let i = insert_pos(p, t);
    let r = p.insert(i, t);
    assert forall|a: int, b: int| 0 <= a < b < r.len() implies r[a].id != r[b].id by {
        assert(r[a] == (if a < i { p[a] } else if a == i { t } else { p[a - 1] }));
        assert(r[b] == (if b < i { p[b] } else if b == i { t } else { p[b - 1] }));
    }
}

/// The tasks created for one issuance: one per confirmed recipient, in
/// recipient order, with consecutive fresh ids and an immediate deadline.
pub open spec fn fresh_tasks(recips: Seq<Seq<char>>, issue_id: u64, now: u64, first_id: u64) -> Seq<
    TaskV,
> {
    Seq::new(
        recips.len(),
        |i: int|
            TaskV {
                id: (first_id + i) as u64,
                issue_id,
                recipient: recips[i],
                enqueued_at: now,
                attempt_count: 0,
                next_attempt_at: now,
            },
    )
}

/// The pending queue after the tasks of one issuance were inserted in order.
pub open spec fn enqueue_all(
    p: Seq<TaskV>,
    recips: Seq<Seq<char>>,
    issue_id: u64,
    now: u64,
    first_id: u64,
) -> Seq<TaskV>
    decreases recips.len(),
{
    if recips.len() == 0 {
        p
    } else {
        sorted_insert(
            enqueue_all(p, recips.drop_last(), issue_id, now, first_id),
            fresh_tasks(recips, issue_id, now, first_id).last(),
        )
    }
}

/// Enqueueing adds exactly one task per recipient — with a fresh identity —
/// and touches no existing task.
pub proof fn lemma_enqueue_all_props(
    p: Seq<TaskV>,
    recips: Seq<Seq<char>>,
    issue_id: u64,
    now: u64,
    first_id: u64,
)
    requires
        sorted(p),
        ids_distinct(p),
        forall|k: int| 0 <= k < p.len() ==> p[k].id < first_id,
        first_id + recips.len() <= u64::MAX,
    ensures
        sorted(enqueue_all(p, recips, issue_id, now, first_id)),
        ids_distinct(enqueue_all(p, recips, issue_id, now, first_id)),
        enqueue_all(p, recips, issue_id, now, first_id).len() == p.len() + recips.len(),
        forall|k: int|
            0 <= k < enqueue_all(p, recips, issue_id, now, first_id).len()
                ==> #[trigger] enqueue_all(p, recips, issue_id, now, first_id)[k].id < first_id
                + recips.len(),
        forall|k: int|
            0 <= k < enqueue_all(p, recips, issue_id, now, first_id).len() ==> p.contains(
                #[trigger] enqueue_all(p, recips, issue_id, now, first_id)[k],
            ) || enqueue_all(p, recips, issue_id, now, first_id)[k].id >= first_id,
        forall|x: TaskV|
            #![trigger enqueue_all(p, recips, issue_id, now, first_id).contains(x)]
            #![trigger fresh_tasks(recips, issue_id, now, first_id).contains(x)]
            enqueue_all(p, recips, issue_id, now, first_id).contains(x) <==> (p.contains(x)
                || fresh_tasks(recips, issue_id, now, first_id).contains(x)),
    decreases recips.len(),
{
    let e = enqueue_all(p, recips, issue_id, now, first_id);
    let f = fresh_tasks(recips, issue_id, now, first_id);
    if recips.len() == 0 {
        assert(f.len() == 0);
    } else {
        let shorter = recips.drop_last();
        lemma_enqueue_all_props(p, shorter, issue_id, now, first_id);
        let q = enqueue_all(p, shorter, issue_id, now, first_id);
        let t = f.last();
        assert(t.id == first_id + recips.len() - 1);
        lemma_sorted_insert_props(q, t);
        assert forall|j: int| 0 <= j < q.len() implies q[j].id != t.id by {
            if !p.contains(q[j]) {
                assert(q[j].id < first_id + shorter.len());
            }
        }
        lemma_sorted_insert_distinct(q, t);
        assert forall|k: int| 0 <= k < e.len() implies #[trigger] e[k].id < first_id
            + recips.len() by {
            if e[k] != t {
                assert(q.contains(e[k]));
                let w = choose|w: int| 0 <= w < q.len() && q[w] == e[k];
            }
        }
        assert forall|k: int| 0 <= k < e.len() implies p.contains(#[trigger] e[k]) || e[k].id
            >= first_id by {
            if e[k] != t {
                assert(q.contains(e[k]));
                let w = choose|w: int| 0 <= w < q.len() && q[w] == e[k];
            }
        }
        let fs = fresh_tasks(shorter, issue_id, now, first_id);
        assert(forall|k: int| 0 <= k < fs.len() ==> fs[k] == f[k]);
        assert forall|x: TaskV| e.contains(x) <==> (p.contains(x) || f.contains(x)) by {
            if e.contains(x) && x != t && !p.contains(x) {
                lemma_enqueue_all_props(p, shorter, issue_id, now, first_id);
                assert(fs.contains(x));
                let k = choose|k: int| 0 <= k < fs.len() && fs[k] == x;
                assert(f[k] == x);
            }
            if f.contains(x) {
                let k = choose|k: int| 0 <= k < f.len() && f[k] == x;
                if k < f.len() - 1 {
                    assert(fs[k] == x);
                    assert(fs.contains(x));
                    lemma_enqueue_all_props(p, shorter, issue_id, now, first_id);
                    assert(q.contains(x));
                } else {
                    assert(x == t);
                }
            }
            if p.contains(x) {
                lemma_enqueue_all_props(p, shorter, issue_id, now, first_id);
                assert(q.contains(x));
            }
        }
    }
}

/// Index of the task with identity `id` in `s`, or -1.
pub open spec fn task_index(s: Seq<TaskV>, id: u64) -> int
    decreases s.len(),
{
    if s.len() == 0 {
        -1
    } else if s[0].id == id {
        0
    } else {
        let r = task_index(s.drop_first(), id);
        if r < 0 {
            -1
        } else {
            r + 1
        }
    }
}

pub proof fn lemma_task_index_props(s: Seq<TaskV>, id: u64)
    ensures
        in_tasks(s, id) ==> {
            let i = task_index(s, id);
            &&& 0 <= i < s.len()
            &&& s[i].id == id
            &&& forall|j: int| 0 <= j < i ==> s[j].id != id
        },
        !in_tasks(s, id) ==> task_index(s, id) == -1,
    decreases s.len(),
{
    if s.len() > 0 && s[0].id != id {
        let t = s.drop_first();
        lemma_task_index_props(t, id);
        assert(forall|j: int| 0 <= j < t.len() ==> t[j] == s[j + 1]);
        if in_tasks(s, id) {
            let w = choose|w: int| 0 <= w < s.len() && s[w].id == id;
            assert(t[w - 1].id == id);
            assert(in_tasks(t, id));
            let it = task_index(t, id);
            assert forall|j: int| 0 <= j < it + 1 implies s[j].id != id by {
                if j > 0 {
                    assert(s[j] == t[j - 1]);
                }
            }
        } else {
            assert(!in_tasks(t, id)) by {
                if in_tasks(t, id) {
                    let w = choose|w: int| 0 <= w < t.len() && t[w].id == id;
                    assert(s[w + 1].id == id);
                }
            }
        }
    }
}

/// What `ack_success` does to the model.
pub open spec fn ack_success_spec(v: OutboxV, task_id: u64) -> OutboxV {
    OutboxV {
        leased: v.leased.remove(task_index(v.leased, task_id)),
        delivered: v.delivered.push(task_id),
        ..v
    }
}

/// What `ack_retry` does to the model: the leased task returns to the queue
/// with one more recorded attempt and a later deadline.
pub open spec fn ack_retry_spec(v: OutboxV, task_id: u64, next_attempt_at: u64) -> OutboxV {
    let i = task_index(v.leased, task_id);
    let t = v.leased[i];
    let t2 = TaskV { attempt_count: (t.attempt_count + 1) as u32, next_attempt_at, ..t };
    OutboxV { pending: sorted_insert(v.pending, t2), leased: v.leased.remove(i), ..v }
}

/// What `ack_drop` does to the model.
pub open spec fn ack_drop_spec(v: OutboxV, task_id: u64, reason: Seq<char>) -> OutboxV {
    OutboxV {
        leased: v.leased.remove(task_index(v.leased, task_id)),
        dropped: v.dropped.push(DropV { id: task_id, reason }),
        ..v
    }
}

/// What `enqueue_many` does to the model.
pub open spec fn enqueue_spec(
    v: OutboxV,
    recips: Seq<Seq<char>>,
    issue_id: u64,
    now: u64,
) -> OutboxV {
    OutboxV {
        pending: enqueue_all(v.pending, recips, issue_id, now, v.next_id),
        next_id: (v.next_id + recips.len()) as u64,
        ..v
    }
}

/// The transactional outbox.
pub struct Outbox {
    pending: Vec<DeliveryTask>,
    leased: Vec<DeliveryTask>,
    delivered: Vec<u64>,
    dropped: Vec<DroppedTask>,
    next_id: u64,
}

impl View for Outbox {
    type V = OutboxV;

    closed spec fn view(&self) -> OutboxV {
        OutboxV {
            pending: self.pending@.map_values(|t: DeliveryTask| t@),
            leased: self.leased@.map_values(|t: DeliveryTask| t@),
            delivered: self.delivered@,
            dropped: self.dropped@.map_values(|d: DroppedTask| d@),
            next_id: self.next_id,
        }
    }
}

/// Taking the views of a queue commutes with pushing one task.
proof fn lemma_map_view_push(s: Seq<DeliveryTask>, t: DeliveryTask)
    ensures
        s.push(t).map_values(|x: DeliveryTask| x@) =~= s.map_values(|x: DeliveryTask| x@).push(t@),
{
}

/// Taking the views of a queue commutes with removing the head.
proof fn lemma_map_view_remove0(s: Seq<DeliveryTask>)
    requires
        s.len() > 0,
    ensures
        s.remove(0).map_values(|x: DeliveryTask| x@) =~= s.map_values(
            |x: DeliveryTask| x@,
        ).remove(0),
{
}

/// Taking the views of a queue commutes with inserting a task.
proof fn lemma_map_view_insert(s: Seq<DeliveryTask>, i: int, t: DeliveryTask)
    requires
        0 <= i <= s.len(),
    ensures
        s.insert(i, t).map_values(|x: DeliveryTask| x@) =~= s.map_values(
            |x: DeliveryTask| x@,
        ).insert(i, t@),
{
}

fn task_before(a: &DeliveryTask, b: &DeliveryTask) -> (r: bool)
    ensures
        r == task_lt(a@, b@),
{
    a.next_attempt_at < b.next_attempt_at || (a.next_attempt_at == b.next_attempt_at && a.id < b.id)
}

fn copy_task(t: &DeliveryTask) -> (r: DeliveryTask)
    ensures
        r@ == t@,
{
    DeliveryTask {
        id: t.id,
        issue_id: t.issue_id,
        recipient: t.recipient.clone(),
        enqueued_at: t.enqueued_at,
        attempt_count: t.attempt_count,
        next_attempt_at: t.next_attempt_at,
    }
}

impl Outbox {
    pub open spec fn wf(&self) -> bool {
        outbox_wf(self@)
    }

    pub fn new() -> (r: Self)
        ensures
            r@ == (OutboxV {
                pending: Seq::<TaskV>::empty(),
                leased: Seq::<TaskV>::empty(),
                delivered: Seq::<u64>::empty(),
                dropped: Seq::<DropV>::empty(),
                next_id: 0,
            }),
            r.wf(),
    {
        let r = Outbox {
            pending: Vec::new(),
            leased: Vec::new(),
            delivered: Vec::new(),
            dropped: Vec::new(),
            next_id: 0,
        };
        proof {
            assert(r@ =~~= (OutboxV {
                pending: Seq::<TaskV>::empty(),
                leased: Seq::<TaskV>::empty(),
                delivered: Seq::<u64>::empty(),
                dropped: Seq::<DropV>::empty(),
                next_id: 0,
            }));
        }
        r
    }

    /// Insert one task into the pending queue at its fair position.
    fn insert_pending(&mut self, task: DeliveryTask)
        requires
            sorted(old(self)@.pending),
        ensures
            final(self)@ == (OutboxV {
                pending: sorted_insert(old(self)@.pending, task@),
                ..old(self)@
            }),
    {
        let ghost p = self@.pending;
        let ghost tv = task@;
        let n = self.pending.len();
        let mut i: usize = 0;
        loop
            invariant
                self@ == old(self)@,
                n == self.pending.len(),
                i <= n,
                p == self@.pending,
                tv == task@,
                forall|j: int| 0 <= j < i ==> !task_lt(tv, p[j]),
            ensures
                self@ == old(self)@,
                i <= n,
                n == self.pending.len(),
                forall|j: int| 0 <= j < i ==> !task_lt(tv, p[j]),
                i < n ==> task_lt(tv, p[i as int]),
            decreases n - i,
        {
            if i >= n {
                break ;
            }
            let pend = &self.pending;
            let cur = &pend[i];
            let hit = task_before(&task, cur);
            proof {
                assert(cur@ == pend@[i as int]@);
                assert(self@.pending[i as int] == self.pending@[i as int]@);
                assert(hit == task_lt(tv, p[i as int]));
            }
            if hit {
                break ;
            }
            i += 1;
        }
        proof {
            lemma_insert_pos_first(p, tv, i as int);
        }
        let ghost vb = self.pending@;
        self.pending.insert(i, task);
        proof {
            lemma_map_view_insert(vb, i as int, task);
            assert(self@.pending == p.insert(i as int, tv));
            assert(self@ =~~= (OutboxV { pending: sorted_insert(p, tv), ..old(self)@ }));
        }
    }

    /// Enqueue one delivery task per confirmed recipient, with fresh
    /// consecutive identities and an immediate deadline of `now`.
    ///
    /// In a deployment this runs in the same storage transaction as the
    /// idempotency reservation of the owning key; the command processor
    /// pairs the two calls accordingly.
    pub fn enqueue_many(&mut self, recipients: &Vec<String>, issue_id: u64, now: u64)
        requires
            old(self).wf(),
            old(self)@.next_id + recipients@.len() <= u64::MAX,
        ensures
            final(self).wf(),
            final(self)@ == enqueue_spec(
                old(self)@,
                recipients@.map_values(|s: String| s@),
                issue_id,
                now,
            ),
    {
        let ghost v0 = self@;
        let ghost recips = recipients@.map_values(|s: String| s@);
        let n = recipients.len();
        let mut i: usize = 0;
        while i < n
            invariant
                n == recipients@.len(),
                i <= n,
                recips == recipients@.map_values(|s: String| s@),
                outbox_wf(v0),
                v0.next_id + n <= u64::MAX,
                self.next_id == v0.next_id + i,
                self@.pending == enqueue_all(
                    v0.pending,
                    recips.take(i as int),
                    issue_id,
                    now,
                    v0.next_id,
                ),
                self@.leased == v0.leased,
                self@.delivered == v0.delivered,
                self@.dropped == v0.dropped,
                sorted(self@.pending),
            decreases n - i,
        {
            let ghost ii = i as int;
            let task = DeliveryTask {
                id: self.next_id,
                issue_id,
                recipient: recipients[i].clone(),
                enqueued_at: now,
                attempt_count: 0,
                next_attempt_at: now,
            };
            let ghost pend_before = self@.pending;
            self.insert_pending(task);
            self.next_id = self.next_id + 1;
            proof {
                let tk = recips.take(ii + 1);
                assert(tk.drop_last() =~= recips.take(ii));
                assert(fresh_tasks(tk, issue_id, now, v0.next_id).last() == task@);
                assert(self@.pending == enqueue_all(v0.pending, tk, issue_id, now, v0.next_id));
                lemma_sorted_insert_props(pend_before, task@);
            }
            i += 1;
        }
        proof {
            assert(recips.take(n as int) =~= recips);
            assert(self@ =~~= enqueue_spec(v0, recips, issue_id, now));
            lemma_enqueue_all_props(v0.pending, recips, issue_id, now, v0.next_id);
            let pend = self@.pending;
            assert forall|a: int, j: int|
                0 <= a < pend.len() && 0 <= j < v0.leased.len() implies pend[a].id
                != v0.leased[j].id by {
                if pend.contains(pend[a]) && v0.pending.contains(pend[a]) {
                    let w = choose|w: int| 0 <= w < v0.pending.len() && v0.pending[w] == pend[a];
                }
            }
            assert forall|a: int, j: int|
                0 <= a < pend.len() && 0 <= j < v0.delivered.len() implies pend[a].id
                != v0.delivered[j] by {
                if pend.contains(pend[a]) && v0.pending.contains(pend[a]) {
                    let w = choose|w: int| 0 <= w < v0.pending.len() && v0.pending[w] == pend[a];
                }
            }
            assert forall|a: int, j: int|
                0 <= a < pend.len() && 0 <= j < v0.dropped.len() implies pend[a].id
                != v0.dropped[j].id by {
                if pend.contains(pend[a]) && v0.pending.contains(pend[a]) {
                    let w = choose|w: int| 0 <= w < v0.pending.len() && v0.pending[w] == pend[a];
                }
            }
        }
    }

    /// Hand out up to `limit` due tasks (deadline at or before `now`), in
    /// fair order, and lease them so that no concurrent worker sees them.
    /// When fewer than `limit` tasks are returned, nothing else is due.
    #[verifier::rlimit(100)]
    pub fn dequeue_batch(&mut self, now: u64, limit: usize) -> (batch: Vec<DeliveryTask>)
        requires
            old(self).wf(),
        ensures
            final(self).wf(),
            batch@.len() <= limit,
            batch@.map_values(|t: DeliveryTask| t@) == old(self)@.pending.take(batch@.len() as int),
            final(self)@ == (OutboxV {
                pending: old(self)@.pending.skip(batch@.len() as int),
                leased: old(self)@.leased + old(self)@.pending.take(batch@.len() as int),
                ..old(self)@
            }),
            forall|j: int| 0 <= j < batch@.len() ==> batch@[j]@.next_attempt_at <= now,
            batch@.len() < limit ==> forall|j: int|
                0 <= j < final(self)@.pending.len() ==> final(self)@.pending[j].next_attempt_at
                    > now,
    {
        let ghost v0 = self@;
        let mut batch: Vec<DeliveryTask> = Vec::new();
        proof {
            assert(batch@.map_values(|t: DeliveryTask| t@) =~= v0.pending.take(0));
            assert(self@.leased =~= v0.leased + v0.pending.take(0));
        }
        loop
            invariant
                outbox_wf(v0),
                batch@.len() <= limit,
                batch@.len() <= v0.pending.len(),
                batch@.map_values(|t: DeliveryTask| t@) == v0.pending.take(batch@.len() as int),
                self@.pending == v0.pending.skip(batch@.len() as int),
                self@.leased == v0.leased + v0.pending.take(batch@.len() as int),
                self@.delivered == v0.delivered,
                self@.dropped == v0.dropped,
                self@.next_id == v0.next_id,
                forall|j: int| 0 <= j < batch@.len() ==> batch@[j]@.next_attempt_at <= now,
            ensures
                batch@.len() <= limit,
                batch@.len() <= v0.pending.len(),
                batch@.map_values(|t: DeliveryTask| t@) == v0.pending.take(batch@.len() as int),
                self@.pending == v0.pending.skip(batch@.len() as int),
                self@.leased == v0.leased + v0.pending.take(batch@.len() as int),
                self@.delivered == v0.delivered,
                self@.dropped == v0.dropped,
                self@.next_id == v0.next_id,
                forall|j: int| 0 <= j < batch@.len() ==> batch@[j]@.next_attempt_at <= now,
                batch@.len() < limit ==> (self@.pending.len() == 0
                    || self@.pending[0].next_attempt_at > now),
            decreases limit - batch@.len(),
        {
            let k = batch.len();
            if k >= limit || self.pending.len() == 0 {
                break ;
            }
            if self.pending[0].next_attempt_at > now {
                break ;
            }
            let ghost kk = k as int;
            let ghost vecb = self.pending@;
            let ghost leasb = self@.leased;
            let ghost leasvb = self.leased@;
            let ghost batchb = batch@;
            let t = self.pending.remove(0);
            proof {
                assert(vecb.map_values(|x: DeliveryTask| x@) == v0.pending.skip(kk));
                assert(vecb.len() > 0);
                assert(v0.pending.skip(kk).len() == v0.pending.len() - kk);
                assert(kk < v0.pending.len());
                assert(vecb[0]@ == vecb.map_values(|x: DeliveryTask| x@)[0]);
                assert(v0.pending.skip(kk)[0] == v0.pending[kk]);
                assert(t@ == v0.pending[kk]);
                lemma_map_view_remove0(vecb);
                assert(self@.pending == v0.pending.skip(kk).remove(0));
                assert(self@.pending =~= v0.pending.skip(kk + 1)) by {
                    assert forall|j: int|
                        0 <= j < v0.pending.skip(kk).remove(0).len() implies v0.pending.skip(
                        kk,
                    ).remove(0)[j] == v0.pending.skip(kk + 1)[j] by {
                        assert(v0.pending.skip(kk)[j + 1] == v0.pending[kk + 1 + j]);
                        assert(v0.pending.skip(kk + 1)[j] == v0.pending[kk + 1 + j]);
                    }
                }
            }
            let t2 = copy_task(&t);
            self.leased.push(t);
            batch.push(t2);
            proof {
                lemma_map_view_push(leasvb, t);
                assert(self@.leased == leasb.push(t@));
                assert(self@.leased =~= v0.leased + v0.pending.take(kk + 1)) by {
                    assert(v0.pending.take(kk + 1)[kk] == v0.pending[kk]);
                    assert forall|j: int|
                        0 <= j < leasb.push(t@).len() implies leasb.push(t@)[j] == (v0.leased
                        + v0.pending.take(kk + 1))[j] by {
                        if j >= v0.leased.len() {
                            if j - v0.leased.len() < kk {
                                assert(v0.pending.take(kk)[j - v0.leased.len()] == v0.pending[j
                                    - v0.leased.len()]);
                            }
                            assert(v0.pending.take(kk + 1)[j - v0.leased.len()] == v0.pending[j
                                - v0.leased.len()]);
                        }
                    }
                }
                assert(batch@.map_values(|x: DeliveryTask| x@) =~= v0.pending.take(kk + 1)) by {
                    lemma_map_view_push(batchb, t2);
                    assert forall|j: int| 0 <= j <= kk implies #[trigger] v0.pending.take(
                        kk + 1,
                    )[j] == batchb.map_values(|x: DeliveryTask| x@).push(t2@)[j] by {
                        assert(v0.pending.take(kk + 1)[j] == v0.pending[j]);
                        if j < kk {
                            assert(v0.pending.take(kk)[j] == v0.pending[j]);
                        }
                    }
                }
            }
        }
        proof {
            let k = batch@.len() as int;
            assert(self@ =~~= (OutboxV {
                pending: v0.pending.skip(k),
                leased: v0.leased + v0.pending.take(k),
                ..v0
            }));
            if k < limit && self@.pending.len() > 0 {
                assert(self@.pending[0] == v0.pending.skip(k)[0]);
                assert(v0.pending.skip(k)[0] == v0.pending[k]);
                assert forall|j: int|
                    0 <= j < self@.pending.len() implies self@.pending[j].next_attempt_at > now by {
                    assert(self@.pending[j] == v0.pending.skip(k)[j]);
                    assert(v0.pending.skip(k)[j] == v0.pending[k + j]);
                    if j > 0 {
                        assert(task_le(v0.pending[k], v0.pending[k + j]));
                    }
                }
            }
            let pend = self@.pending;
            let leas = self@.leased;
            assert forall|a: int, b: int| 0 <= a < b < pend.len() implies task_le(pend[a], pend[b])
                && pend[a].id != pend[b].id by {
                assert(pend[a] == v0.pending.skip(k)[a] && v0.pending.skip(k)[a] == v0.pending[k
                    + a]);
                assert(pend[b] == v0.pending.skip(k)[b] && v0.pending.skip(k)[b] == v0.pending[k
                    + b]);
            }
            assert forall|a: int, b: int| 0 <= a < b < leas.len() implies leas[a].id
                != leas[b].id by {
                if b >= v0.leased.len() {
                    assert(leas[b] == v0.pending.take(k)[b - v0.leased.len()] && v0.pending.take(
                        k,
                    )[b - v0.leased.len()] == v0.pending[b - v0.leased.len()]);
                    if a >= v0.leased.len() {
                        assert(leas[a] == v0.pending.take(k)[a - v0.leased.len()]
                            && v0.pending.take(k)[a - v0.leased.len()] == v0.pending[a
                            - v0.leased.len()]);
                    }
                }
            }
            assert forall|a: int, b: int|
                0 <= a < pend.len() && 0 <= b < leas.len() implies pend[a].id != leas[b].id by {
                assert(pend[a] == v0.pending.skip(k)[a] && v0.pending.skip(k)[a] == v0.pending[k
                    + a]);
                if b >= v0.leased.len() {
                    assert(leas[b] == v0.pending.take(k)[b - v0.leased.len()] && v0.pending.take(
                        k,
                    )[b - v0.leased.len()] == v0.pending[b - v0.leased.len()]);
                }
            }
            assert forall|a: int| 0 <= a < pend.len() implies pend[a].id < v0.next_id by {
                assert(pend[a] == v0.pending.skip(k)[a] && v0.pending.skip(k)[a] == v0.pending[k
                    + a]);
            }
            assert forall|a: int| 0 <= a < leas.len() implies leas[a].id < v0.next_id by {
                if a >= v0.leased.len() {
                    assert(leas[a] == v0.pending.take(k)[a - v0.leased.len()] && v0.pending.take(
                        k,
                    )[a - v0.leased.len()] == v0.pending[a - v0.leased.len()]);
                }
            }
            assert forall|a: int, j: int|
                0 <= a < pend.len() && 0 <= j < v0.delivered.len() implies pend[a].id
                != v0.delivered[j] by {
                assert(pend[a] == v0.pending.skip(k)[a] && v0.pending.skip(k)[a] == v0.pending[k
                    + a]);
            }
            assert forall|a: int, j: int|
                0 <= a < pend.len() && 0 <= j < v0.dropped.len() implies pend[a].id
                != v0.dropped[j].id by {
                assert(pend[a] == v0.pending.skip(k)[a] && v0.pending.skip(k)[a] == v0.pending[k
                    + a]);
            }
            assert forall|a: int, j: int|
                0 <= a < leas.len() && 0 <= j < v0.delivered.len() implies leas[a].id
                != v0.delivered[j] by {
                if a >= v0.leased.len() {
                    assert(leas[a] == v0.pending.take(k)[a - v0.leased.len()] && v0.pending.take(
                        k,
                    )[a - v0.leased.len()] == v0.pending[a - v0.leased.len()]);
                }
            }
            assert forall|a: int, j: int|
                0 <= a < leas.len() && 0 <= j < v0.dropped.len() implies leas[a].id
                != v0.dropped[j].id by {
                if a >= v0.leased.len() {
                    assert(leas[a] == v0.pending.take(k)[a - v0.leased.len()] && v0.pending.take(
                        k,
                    )[a - v0.leased.len()] == v0.pending[a - v0.leased.len()]);
                }
            }
        }
        batch
    }

    /// Index of the leased task with identity `task_id`.
    fn find_leased(&self, task_id: u64) -> (r: Option<usize>)
        ensures
            match r {
                Option::Some(i) => i < self@.leased.len() && i as int == task_index(
                    self@.leased,
                    task_id,
                ),
                Option::None => !in_tasks(self@.leased, task_id),
            },
    {
        let n = self.leased.len();
        let mut i: usize = 0;
        while i < n
            invariant
                n == self.leased.len(),
                self@.leased.len() == n,
                i <= n,
                forall|j: int| 0 <= j < i ==> self@.leased[j].id != task_id,
            decreases n - i,
        {
            if self.leased[i].id == task_id {
                proof {
                    lemma_task_index_props(self@.leased, task_id);
                    assert(self@.leased[i as int].id == task_id);
                    assert(in_tasks(self@.leased, task_id));
                }
                return Some(i);
            }
            i += 1;
        }
        proof {
            if in_tasks(self@.leased, task_id) {
                let w = choose|w: int| 0 <= w < self@.leased.len() && self@.leased[w].id == task_id;
                assert(false);
            }
        }
        None
    }

    /// Acknowledge a leased task as delivered: the task leaves the system
    /// for good and its delivery is logged exactly once.
    pub fn ack_success(&mut self, task_id: u64)
        requires
            old(self).wf(),
            in_tasks(old(self)@.leased, task_id),
        ensures
            final(self).wf(),
            final(self)@ == ack_success_spec(old(self)@, task_id),
    {
        proof {
            lemma_task_index_props(self@.leased, task_id);
        }
        let found = self.find_leased(task_id);
        match found {
            Option::Some(i) => {
                let ghost v0 = self@;
                let ghost ix = i as int;
                let _t = self.leased.remove(i);
                self.delivered.push(task_id);
                proof {
                    assert(self@.leased =~= v0.leased.remove(ix));
                    assert(self@ =~~= ack_success_spec(v0, task_id));
                    lemma_remove_keeps_ids(v0.leased, ix);
                }
            },
            Option::None => {
                proof {
                    assert(false);
                }
            },
        }
    }

    /// Acknowledge a transient failure: the task re-enters the queue with
    /// one more recorded attempt and the given later deadline.
    pub fn ack_retry(&mut self, task_id: u64, next_attempt_at: u64)
        requires
            old(self).wf(),
            in_tasks(old(self)@.leased, task_id),
            old(self)@.leased[task_index(old(self)@.leased, task_id)].attempt_count < u32::MAX,
        ensures
            final(self).wf(),
            final(self)@ == ack_retry_spec(old(self)@, task_id, next_attempt_at),
    {
        proof {
            lemma_task_index_props(self@.leased, task_id);
        }
        let found = self.find_leased(task_id);
        match found {
            Option::Some(i) => {
                let ghost v0 = self@;
                let ghost ix = i as int;
                let t = self.leased.remove(i);
                let t2 = DeliveryTask { attempt_count: t.attempt_count + 1, next_attempt_at, ..t };
                proof {
                    assert(self@.leased =~= v0.leased.remove(ix));
                    lemma_remove_keeps_ids(v0.leased, ix);
                }
                self.insert_pending(t2);
                proof {
                    assert(self@ =~~= ack_retry_spec(v0, task_id, next_attempt_at));
                    lemma_sorted_insert_props(v0.pending, t2@);
                    let pend = self@.pending;
                    let leas = self@.leased;
                    assert forall|j: int| 0 <= j < v0.pending.len() implies v0.pending[j].id
                        != t2@.id by {
                        assert(v0.pending[j].id != v0.leased[ix].id);
                    }
                    lemma_sorted_insert_distinct(v0.pending, t2@);
                    assert forall|a: int, j: int|
                        0 <= a < pend.len() && 0 <= j < leas.len() implies pend[a].id
                        != leas[j].id by {
                        assert(pend[a] == t2@ || v0.pending.contains(pend[a]));
                        assert(leas[j] == (if j < ix {
                            v0.leased[j]
                        } else {
                            v0.leased[j + 1]
                        }));
                        if v0.pending.contains(pend[a]) {
                            let w = choose|w: int|
                                0 <= w < v0.pending.len() && v0.pending[w] == pend[a];
                        }
                    }
                    assert forall|a: int| 0 <= a < pend.len() implies pend[a].id < v0.next_id by {
                        if v0.pending.contains(pend[a]) {
                            let w = choose|w: int|
                                0 <= w < v0.pending.len() && v0.pending[w] == pend[a];
                        }
                    }
                    assert forall|a: int, j: int|
                        0 <= a < pend.len() && 0 <= j < v0.delivered.len() implies pend[a].id
                        != v0.delivered[j] by {
                        if v0.pending.contains(pend[a]) {
                            let w = choose|w: int|
                                0 <= w < v0.pending.len() && v0.pending[w] == pend[a];
                        }
                    }
                    assert forall|a: int, j: int|
                        0 <= a < pend.len() && 0 <= j < v0.dropped.len() implies pend[a].id
                        != v0.dropped[j].id by {
                        if v0.pending.contains(pend[a]) {
                            let w = choose|w: int|
                                0 <= w < v0.pending.len() && v0.pending[w] == pend[a];
                        }
                    }
                }
            },
            Option::None => {
                proof {
                    assert(false);
                }
            },
        }
    }

    /// Acknowledge a permanent failure or an exhausted retry budget: the
    /// task leaves the queue for good and a drop record keeps the reason.
    pub fn ack_drop(&mut self, task_id: u64, reason: &str)
        requires
            old(self).wf(),
            in_tasks(old(self)@.leased, task_id),
        ensures
            final(self).wf(),
            final(self)@ == ack_drop_spec(old(self)@, task_id, reason@),
    {
        proof {
            lemma_task_index_props(self@.leased, task_id);
        }
        let found = self.find_leased(task_id);
        match found {
            Option::Some(i) => {
                let ghost v0 = self@;
                let ghost ix = i as int;
                let _t = self.leased.remove(i);
                self.dropped.push(DroppedTask { id: task_id, reason: reason.to_owned() });
                proof {
                    assert(self@.leased =~= v0.leased.remove(ix));
                    assert(self@.dropped =~= v0.dropped.push(
                        DropV { id: task_id, reason: reason@ },
                    ));
                    assert(self@ =~~= ack_drop_spec(v0, task_id, reason@));
                    lemma_remove_keeps_ids(v0.leased, ix);
                }
            },
            Option::None => {
                proof {
                    assert(false);
                }
            },
        }
    }

    /// Number of tasks currently waiting in the queue.
    pub fn pending_count(&self) -> (r: usize)
        ensures
            r == self@.pending.len(),
    {
        self.pending.len()
    }

    /// Ids of successfully delivered tasks, in acknowledgement order.
    pub fn delivered_log(&self) -> (r: &Vec<u64>)
        ensures
            r@ == self@.delivered,
    {
        &self.delivered
    }

    /// Number of drop records.
    pub fn dropped_count(&self) -> (r: usize)
        ensures
            r == self@.dropped.len(),
    {
        self.dropped.len()
    }
}

/// Removing an element leaves every other position's task in place.
proof fn lemma_remove_keeps_ids(s: Seq<TaskV>, ix: int)
    requires
        0 <= ix < s.len(),
    ensures
        forall|j: int|
            0 <= j < s.remove(ix).len() ==> s.remove(ix)[j] == (if j < ix {
                s[j]
            } else {
                s[j + 1]
            }),
{
}

/// A scan that stopped at the first position strictly after `t` found the
/// insert position.
proof fn lemma_insert_pos_first(p: Seq<TaskV>, t: TaskV, i: int)
    requires
        0 <= i <= p.len(),
        forall|j: int| 0 <= j < i ==> !task_lt(t, p[j]),
        i < p.len() ==> task_lt(t, p[i]),
    ensures
        insert_pos(p, t) == i,
    decreases i,
{
    if i == 0 {
    } else {
        let q = p.drop_first();
        assert(forall|j: int| 0 <= j < q.len() ==> q[j] == p[j + 1]);
        lemma_insert_pos_first(q, t, i - 1);
    }
}

} // verus!

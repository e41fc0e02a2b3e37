//! The work queue of delivery tasks, with claim locks that concurrent workers
//! skip rather than wait on.
use vstd::prelude::*;

verus! {

/// Identifies a delivery task: the issue and the stored address of its recipient.
pub type TaskKey = (u128, Seq<char>);

/// A task row as the queue sees it: the task and the worker that holds its
/// claim, if any.
pub type RowView = (TaskKey, Option<u64>);

/// One delivery still owed: the issue, to the subscriber stored under `recipient`.
pub struct DeliveryTask {
    pub issue_id: u128,
    pub recipient: String,
}

impl View for DeliveryTask {
    type V = TaskKey;

    open spec fn view(&self) -> TaskKey {
        (self.issue_id, self.recipient@)
    }
}

impl DeliveryTask {
    pub fn new(issue_id: u128, recipient: String) -> (r: DeliveryTask)
        ensures
            r@ == (issue_id, recipient@),
    {
        DeliveryTask { issue_id, recipient }
    }

    pub fn duplicate(&self) -> (r: DeliveryTask)
        ensures
            r@ == self@,
    {
        DeliveryTask { issue_id: self.issue_id, recipient: self.recipient.clone() }
    }

    pub fn same_key(&self, other: &DeliveryTask) -> (r: bool)
        ensures
            r == (self@ == other@),
    {
        self.issue_id == other.issue_id && self.recipient == other.recipient
    }
}

/// The key of a task, if there is one.
pub open spec fn key_of(t: Option<DeliveryTask>) -> Option<TaskKey> {
    match t {
        Some(t) => Some(t@),
        None => None,
    }
}

struct QueueRow {
    task: DeliveryTask,
    holder: Option<u64>,
}

impl View for QueueRow {
    type V = RowView;

    closed spec fn view(&self) -> RowView {
        (self.task@, self.holder)
    }
}

/// No two rows hold the same task.
pub open spec fn keys_unique(rows: Seq<RowView>) -> bool {
    forall|i: int, j: int|
        0 <= i < rows.len() && 0 <= j < rows.len() && i != j ==> #[trigger] rows[i].0
            != #[trigger] rows[j].0
}

/// Row `i` is the first row that no worker holds.
pub open spec fn first_free(rows: Seq<RowView>, i: int) -> bool {
    &&& 0 <= i < rows.len()
    &&& rows[i].1 is None
    &&& forall|j: int| 0 <= j < i ==> (#[trigger] rows[j]).1 is Some
}

/// Every row is held by some worker.
pub open spec fn all_held(rows: Seq<RowView>) -> bool {
    forall|j: int| 0 <= j < rows.len() ==> (#[trigger] rows[j]).1 is Some
}

/// What a claim by `worker` does: it takes the first free row and marks it held
/// by `worker`, or, where every row is held, changes nothing and hands out no task.
pub open spec fn claim_result(
    before: Seq<RowView>,
    after: Seq<RowView>,
    worker: u64,
    r: Option<TaskKey>,
) -> bool {
    match r {
        None => all_held(before) && after == before,
        Some(k) => exists|i: int|
            first_free(before, i) && k == before[i].0 && after == #[trigger] before.update(
                i,
                (k, Some(worker)),
            ),
    }
}

/// Index of the row that holds `k`, held by `worker`.
pub open spec fn held_at(rows: Seq<RowView>, k: TaskKey, worker: u64, i: int) -> bool {
    0 <= i < rows.len() && rows[i] == (k, Some(worker))
}

/// What finalizing `k` on behalf of `worker` does: where `worker` holds the row
/// of `k`, the row is deleted; otherwise nothing changes.
pub open spec fn finalize_result(
    before: Seq<RowView>,
    after: Seq<RowView>,
    worker: u64,
    k: TaskKey,
    deleted: bool,
) -> bool {
    &&& deleted <==> exists|i: int| held_at(before, k, worker, i)
    &&& deleted ==> exists|i: int| held_at(before, k, worker, i) && after == before.remove(i)
    &&& !deleted ==> after == before
}

/// What a worker giving up its claims does: each row it held is free again.
pub open spec fn release_result(before: Seq<RowView>, after: Seq<RowView>, worker: u64) -> bool {
    &&& after.len() == before.len()
    &&& forall|i: int|
        0 <= i < before.len() ==> (#[trigger] after[i]).0 == before[i].0 && after[i].1 == (if before[i].1
            == Some(worker) {
            None::<u64>
        } else {
            before[i].1
        })
}

/// Two claims never hand out the same task: the task that one claim hands out
/// stays held by its claimant, and the next claim, by any worker, skips it.
pub proof fn lemma_claims_are_exclusive(
    q0: Seq<RowView>,
    q1: Seq<RowView>,
    q2: Seq<RowView>,
    w1: u64,
    w2: u64,
    k1: TaskKey,
    k2: TaskKey,
)
    requires
        keys_unique(q0),
        claim_result(q0, q1, w1, Some(k1)),
        claim_result(q1, q2, w2, Some(k2)),
    ensures
        k1 != k2,
        exists|i: int| 0 <= i < q2.len() && q2[i] == (k1, Some(w1)),
        exists|j: int| 0 <= j < q2.len() && q2[j] == (k2, Some(w2)),
{
    let i = choose|i: int|
        first_free(q0, i) && k1 == q0[i].0 && q1 == #[trigger] q0.update(i, (k1, Some(w1)));
    let j = choose|j: int|
        first_free(q1, j) && k2 == q1[j].0 && q2 == #[trigger] q1.update(j, (k2, Some(w2)));
    assert(q1[i] == (k1, Some(w1)));
    assert(j != i);
    assert(q1[j] == q0[j]);
    assert(q0[i].0 != q0[j].0);
    assert(q2[i] == (k1, Some(w1)));
    assert(q2[j] == (k2, Some(w2)));
}

/// A task that a worker claimed and then finalized is deleted: the queue holds
/// one task fewer than before the claim, and no longer holds that task.
pub proof fn lemma_claimed_then_finalized_is_deleted(
    q0: Seq<RowView>,
    q1: Seq<RowView>,
    q2: Seq<RowView>,
    w: u64,
    k: TaskKey,
    deleted: bool,
)
    requires
        keys_unique(q0),
        claim_result(q0, q1, w, Some(k)),
        finalize_result(q1, q2, w, k, deleted),
    ensures
        deleted,
        q2.len() == q0.len() - 1,
        forall|j: int| 0 <= j < q2.len() ==> (#[trigger] q2[j]).0 != k,
{
    let i = choose|i: int|
        first_free(q0, i) && k == q0[i].0 && q1 == #[trigger] q0.update(i, (k, Some(w)));
    assert(held_at(q1, k, w, i));
    let d = choose|d: int| held_at(q1, k, w, d) && q2 == q1.remove(d);
    assert(d == i) by {
        if d != i {
            assert(q1[d] == q0[d]);
            assert(q0[d].0 != q0[i].0);
        }
    }
    assert forall|j: int| 0 <= j < q2.len() implies (#[trigger] q2[j]).0 != k by {
        let j2 = if j < i { j } else { j + 1 };
        assert(q2[j] == q1[j2]);
        assert(q1[j2] == q0[j2]);
        assert(q0[j2].0 != q0[i].0);
    }
}

/// Some row of `rows` holds the task `k`.
pub open spec fn has_key(rows: Seq<RowView>, k: TaskKey) -> bool {
    exists|i: int| 0 <= i < rows.len() && (#[trigger] rows[i]).0 == k
}

/// One pass of a worker, a claim and the deletion of the claimed task, takes
/// that task and only it out of the queue.
pub proof fn lemma_pass_removes_claimed_task(
    q0: Seq<RowView>,
    q1: Seq<RowView>,
    q2: Seq<RowView>,
    w: u64,
    k: TaskKey,
)
    requires
        keys_unique(q0),
        claim_result(q0, q1, w, Some(k)),
        finalize_result(q1, q2, w, k, true),
    ensures
        keys_unique(q2),
        q2.len() == q0.len() - 1,
        has_key(q0, k),
        forall|x: TaskKey| #[trigger] has_key(q2, x) <==> (has_key(q0, x) && x != k),
{
    lemma_claimed_then_finalized_is_deleted(q0, q1, q2, w, k, true);
    let i = choose|i: int|
        first_free(q0, i) && k == q0[i].0 && q1 == #[trigger] q0.update(i, (k, Some(w)));
    let d = choose|d: int| held_at(q1, k, w, d) && q2 == q1.remove(d);
    assert(d == i) by {
        if d != i {
            assert(q1[d] == q0[d]);
            assert(q0[d].0 != q0[i].0);
        }
    }
    assert(q0[i].0 == k);
    assert forall|a: int, b: int|
        0 <= a < q2.len() && 0 <= b < q2.len() && a != b implies #[trigger] q2[a].0
        != #[trigger] q2[b].0 by {
        let a2 = if a < i { a } else { a + 1 };
        let b2 = if b < i { b } else { b + 1 };
        assert(q2[a] == q1[a2] && q1[a2] == q0[a2]);
        assert(q2[b] == q1[b2] && q1[b2] == q0[b2]);
    }
    assert forall|x: TaskKey| #[trigger] has_key(q2, x) <==> (has_key(q0, x) && x != k) by {
        if has_key(q2, x) {
            let j = choose|j: int| 0 <= j < q2.len() && (#[trigger] q2[j]).0 == x;
            let j2 = if j < i { j } else { j + 1 };
            assert(q2[j] == q1[j2] && q1[j2] == q0[j2]);
        }
        if has_key(q0, x) && x != k {
            let j = choose|j: int| 0 <= j < q0.len() && (#[trigger] q0[j]).0 == x;
            assert(j != i);
            let j2 = if j < i { j } else { j - 1 };
            assert(q2[j2] == q1[j] && q1[j] == q0[j]);
        }
    }
}

/// Draining the queue: when one worker claims and deletes task after task,
/// the tasks it is handed are pairwise distinct and were all in the queue at
/// the start; after `n` passes the queue holds `n` tasks fewer, and once it is
/// empty every task of the start has been handed out, each exactly once.
pub proof fn lemma_drain_hands_out_each_task_once(
    qs: Seq<Seq<RowView>>,
    keys: Seq<TaskKey>,
    w: u64,
)
    requires
        qs.len() == 2 * keys.len() + 1,
        keys_unique(qs[0]),
        forall|k: int|
            0 <= k < keys.len() ==> claim_result(
                #[trigger] qs[2 * k],
                qs[2 * k + 1],
                w,
                Some(keys[k]),
            ) && finalize_result(qs[2 * k + 1], qs[2 * k + 2], w, keys[k], true),
    ensures
        keys_unique(qs.last()),
        qs.last().len() == qs[0].len() - keys.len(),
        keys.no_duplicates(),
        forall|k: int| 0 <= k < keys.len() ==> has_key(qs[0], #[trigger] keys[k]),
        forall|x: TaskKey|
            #[trigger] has_key(qs.last(), x) <==> (has_key(qs[0], x) && !keys.contains(x)),
        qs.last().len() == 0 ==> forall|x: TaskKey| #[trigger]
            has_key(qs[0], x) ==> keys.contains(x),
    decreases keys.len(),
{
    let n = keys.len() as int;
    if n == 0 {
        assert forall|x: TaskKey| #[trigger]
            has_key(qs.last(), x) <==> (has_key(qs[0], x) && !keys.contains(x)) by {
            assert(qs.last() == qs[0]);
        }
    } else {
        let ps = qs.take(2 * n - 1);
        let ks = keys.take(n - 1);
        assert forall|k: int|
            0 <= k < ks.len() implies claim_result(
            #[trigger] ps[2 * k],
            ps[2 * k + 1],
            w,
            Some(ks[k]),
        ) && finalize_result(ps[2 * k + 1], ps[2 * k + 2], w, ks[k], true) by {
            assert(ps[2 * k] == qs[2 * k]);
            assert(ps[2 * k + 1] == qs[2 * k + 1]);
            assert(ps[2 * k + 2] == qs[2 * k + 2]);
            assert(ks[k] == keys[k]);
        }
        lemma_drain_hands_out_each_task_once(ps, ks, w);
        assert(ps.last() == qs[2 * n - 2]);
        assert(ps[0] == qs[0]);
        let last = n - 1;
        assert(claim_result(qs[2 * last], qs[2 * last + 1], w, Some(keys[last])));
        lemma_pass_removes_claimed_task(qs[2 * n - 2], qs[2 * n - 1], qs[2 * n], w, keys[n - 1]);
        assert(qs.last() == qs[2 * n]);
        assert(keys == ks.push(keys[n - 1]));
        let kn = keys[n - 1];
        assert(!ks.contains(kn)) by {
            assert(has_key(qs[2 * n - 2], kn));
        }
        assert forall|a: int, b: int|
            0 <= a < keys.len() && 0 <= b < keys.len() && a != b implies keys[a] != keys[b] by {
            if a < n - 1 && b < n - 1 {
                assert(ks[a] == keys[a] && ks[b] == keys[b]);
            } else if a == n - 1 {
                assert(ks[b] == keys[b]);
            } else {
                assert(ks[a] == keys[a]);
            }
        }
        assert forall|k: int| 0 <= k < keys.len() implies has_key(qs[0], #[trigger] keys[k]) by {
            if k < n - 1 {
                assert(ks[k] == keys[k]);
            }
        }
        assert forall|x: TaskKey| #[trigger]
            has_key(qs.last(), x) <==> (has_key(qs[0], x) && !keys.contains(x)) by {
            if keys.contains(x) && x != kn {
                let j = choose|j: int| 0 <= j < keys.len() && keys[j] == x;
                assert(ks[j] == x);
            }
            if ks.contains(x) {
                let j = choose|j: int| 0 <= j < ks.len() && ks[j] == x;
                assert(keys[j] == x);
            }
            assert(has_key(qs[2 * n - 2], x) <==> (has_key(qs[0], x) && !ks.contains(x)));
        }
        if qs.last().len() == 0 {
            assert forall|x: TaskKey| #[trigger] has_key(qs[0], x) implies keys.contains(x) by {
                if !keys.contains(x) {
                    assert(has_key(qs.last(), x));
                    let j = choose|j: int| 0 <= j < qs.last().len() && (#[trigger] qs.last()[j]).0 == x;
                }
            }
        }
    }
}

/// One operation on the queue by some worker, with what it gave.
pub enum QueueOp {
    Claim { worker: u64, claimed: Option<TaskKey> },
    Finalize { worker: u64, task: TaskKey, deleted: bool },
    Release { worker: u64 },
}

/// `op` took the queue from `before` to `after`.
pub open spec fn applies(before: Seq<RowView>, after: Seq<RowView>, op: QueueOp) -> bool {
    match op {
        QueueOp::Claim { worker, claimed } => claim_result(before, after, worker, claimed),
        QueueOp::Finalize { worker, task, deleted } => finalize_result(
            before,
            after,
            worker,
            task,
            deleted,
        ),
        QueueOp::Release { worker } => release_result(before, after, worker),
    }
}

/// The tasks that the operations deleted, in order.
pub open spec fn deletions(ops: Seq<QueueOp>) -> Seq<TaskKey>
    decreases ops.len(),
{
    if ops.len() == 0 {
        Seq::empty()
    } else {
        let before = deletions(ops.drop_last());
        match ops.last() {
            QueueOp::Finalize { task, deleted: true, .. } => before.push(task),
            _ => before,
        }
    }
}

/// One operation deletes at most the task it names, and keeps every other task.
pub proof fn lemma_op_keeps_other_tasks(q0: Seq<RowView>, q1: Seq<RowView>, op: QueueOp)
    requires
        keys_unique(q0),
        applies(q0, q1, op),
    ensures
        keys_unique(q1),
        op matches QueueOp::Finalize { task, deleted: true, .. } ==> {
            &&& has_key(q0, task)
            &&& q1.len() == q0.len() - 1
            &&& forall|x: TaskKey| #[trigger] has_key(q1, x) <==> (has_key(q0, x) && x != task)
        },
        !(op matches QueueOp::Finalize { deleted: true, .. }) ==> {
            &&& q1.len() == q0.len()
            &&& forall|x: TaskKey| #[trigger] has_key(q1, x) <==> has_key(q0, x)
        },
{
    match op {
        QueueOp::Claim { worker, claimed } => {
            if let Some(k) = claimed {
                let i = choose|i: int|
                    first_free(q0, i) && k == q0[i].0 && q1 == #[trigger] q0.update(
                        i,
                        (k, Some(worker)),
                    );
                assert forall|j: int| 0 <= j < q1.len() implies (#[trigger] q1[j]).0 == q0[j].0 by {}
            }
            assert forall|a: int, b: int|
                0 <= a < q1.len() && 0 <= b < q1.len() && a != b implies #[trigger] q1[a].0
                != #[trigger] q1[b].0 by {
                assert(q0[a].0 != q0[b].0);
            }
            assert forall|x: TaskKey| #[trigger] has_key(q1, x) <==> has_key(q0, x) by {
                if has_key(q1, x) {
                    let j = choose|j: int| 0 <= j < q1.len() && (#[trigger] q1[j]).0 == x;
                    assert(q0[j].0 == x);
                }
                if has_key(q0, x) {
                    let j = choose|j: int| 0 <= j < q0.len() && (#[trigger] q0[j]).0 == x;
                    assert(q1[j].0 == x);
                }
            }
        },
        QueueOp::Release { worker } => {
            assert forall|a: int, b: int|
                0 <= a < q1.len() && 0 <= b < q1.len() && a != b implies #[trigger] q1[a].0
                != #[trigger] q1[b].0 by {
                assert(q0[a].0 != q0[b].0);
            }
            assert forall|x: TaskKey| #[trigger] has_key(q1, x) <==> has_key(q0, x) by {
                if has_key(q1, x) {
                    let j = choose|j: int| 0 <= j < q1.len() && (#[trigger] q1[j]).0 == x;
                    assert(q0[j].0 == x);
                }
                if has_key(q0, x) {
                    let j = choose|j: int| 0 <= j < q0.len() && (#[trigger] q0[j]).0 == x;
                    assert(q1[j].0 == x);
                }
            }
        },
        QueueOp::Finalize { worker, task, deleted } => {
            if deleted {
                let i = choose|i: int| held_at(q0, task, worker, i) && q1 == q0.remove(i);
                assert(has_key(q0, task)) by {
                    assert(q0[i].0 == task);
                }
                assert forall|a: int, b: int|
                    0 <= a < q1.len() && 0 <= b < q1.len() && a != b implies #[trigger] q1[a].0
                    != #[trigger] q1[b].0 by {
                    let a2 = if a < i { a } else { a + 1 };
                    let b2 = if b < i { b } else { b + 1 };
                    assert(q1[a] == q0[a2] && q1[b] == q0[b2]);
                }
                assert forall|x: TaskKey| #[trigger]
                    has_key(q1, x) <==> (has_key(q0, x) && x != task) by {
                    if has_key(q1, x) {
                        let j = choose|j: int| 0 <= j < q1.len() && (#[trigger] q1[j]).0 == x;
                        let j2 = if j < i { j } else { j + 1 };
                        assert(q1[j] == q0[j2]);
                        assert(q0[j2].0 != q0[i].0);
                    }
                    if has_key(q0, x) && x != task {
                        let j = choose|j: int| 0 <= j < q0.len() && (#[trigger] q0[j]).0 == x;
                        assert(j != i);
                        let j2 = if j < i { j } else { j - 1 };
                        assert(q1[j2] == q0[j]);
                    }
                }
            }
        },
    }
}

/// Whatever the interleaving of claims, deletions and releases by any number
/// of workers: no task is deleted twice, only tasks that were queued at the
/// start are deleted, the queue shrinks by exactly the number of deletions,
/// and once it is empty every task of the start has been deleted exactly once.
pub proof fn lemma_interleaved_workers_delete_each_task_once(
    qs: Seq<Seq<RowView>>,
    ops: Seq<QueueOp>,
)
    requires
        qs.len() == ops.len() + 1,
        keys_unique(qs[0]),
        forall|k: int| 0 <= k < ops.len() ==> applies(#[trigger] qs[k], qs[k + 1], ops[k]),
    ensures
        keys_unique(qs.last()),
        qs.last().len() == qs[0].len() - deletions(ops).len(),
        deletions(ops).no_duplicates(),
        forall|k: int|
            0 <= k < deletions(ops).len() ==> has_key(qs[0], #[trigger] deletions(ops)[k]),
        forall|x: TaskKey| #[trigger]
            has_key(qs.last(), x) <==> (has_key(qs[0], x) && !deletions(ops).contains(x)),
        qs.last().len() == 0 ==> forall|x: TaskKey| #[trigger]
            has_key(qs[0], x) ==> deletions(ops).contains(x),
    decreases ops.len(),
{
    let n = ops.len() as int;
    if n == 0 {
        assert(qs.last() == qs[0]);
        assert(deletions(ops) =~= Seq::<TaskKey>::empty());
    } else {
        let ps = qs.take(n);
        let os = ops.drop_last();
        assert forall|k: int| 0 <= k < os.len() implies applies(
            #[trigger] ps[k],
            ps[k + 1],
            os[k],
        ) by {
            assert(ps[k] == qs[k] && ps[k + 1] == qs[k + 1] && os[k] == ops[k]);
        }
        lemma_interleaved_workers_delete_each_task_once(ps, os);
        assert(ps.last() == qs[n - 1]);
        assert(ps[0] == qs[0]);
        assert(applies(qs[n - 1], qs[n], ops[n - 1]));
        lemma_op_keeps_other_tasks(qs[n - 1], qs[n], ops[n - 1]);
        assert(qs.last() == qs[n]);
        let before = deletions(os);
        let d = deletions(ops);
        match ops.last() {
            QueueOp::Finalize { task, deleted: true, .. } => {
                assert(d == before.push(task));
                assert(!before.contains(task)) by {
                    assert(has_key(qs[n - 1], task));
                }
                assert forall|a: int, b: int|
                    0 <= a < d.len() && 0 <= b < d.len() && a != b implies d[a] != d[b] by {
                    if a < before.len() && b < before.len() {
                        assert(before[a] == d[a] && before[b] == d[b]);
                    } else if a == before.len() {
                        assert(before[b] == d[b]);
                    } else {
                        assert(before[a] == d[a]);
                    }
                }
                assert forall|k: int| 0 <= k < d.len() implies has_key(qs[0], #[trigger] d[k]) by {
                    if k < before.len() {
                        assert(before[k] == d[k]);
                    }
                }
                assert forall|x: TaskKey| #[trigger]
                    has_key(qs.last(), x) <==> (has_key(qs[0], x) && !d.contains(x)) by {
                    assert(has_key(qs[n], x) <==> (has_key(qs[n - 1], x) && x != task));
                    assert(d[before.len() as int] == task);
                    if d.contains(x) && x != task {
                        let j = choose|j: int| 0 <= j < d.len() && d[j] == x;
                        assert(before[j] == x);
                    }
                    if before.contains(x) {
                        let j = choose|j: int| 0 <= j < before.len() && before[j] == x;
                        assert(d[j] == x);
                    }
                    assert(has_key(qs[n - 1], x) <==> (has_key(qs[0], x) && !before.contains(x)));
                }
            },
            _ => {
                assert(d == before);
                assert(!(ops[n - 1] matches QueueOp::Finalize { deleted: true, .. }));
                assert forall|x: TaskKey| #[trigger]
                    has_key(qs.last(), x) <==> (has_key(qs[0], x) && !d.contains(x)) by {
                    assert(has_key(qs[n], x) <==> has_key(qs[n - 1], x));
                    assert(has_key(qs[n - 1], x) <==> (has_key(qs[0], x) && !before.contains(x)));
                }
            },
        }
        if qs.last().len() == 0 {
            assert forall|x: TaskKey| #[trigger] has_key(qs[0], x) implies d.contains(x) by {
                if !d.contains(x) {
                    assert(has_key(qs.last(), x));
                    let j = choose|j: int| 0 <= j < qs.last().len() && (#[trigger] qs.last()[j]).0 == x;
                }
            }
        }
    }
}

/// The queue of delivery tasks still owed.
pub struct WorkQueue {
    rows: Vec<QueueRow>,
}

impl View for WorkQueue {
    type V = Seq<RowView>;

    closed spec fn view(&self) -> Seq<RowView> {
        self.rows@.map_values(|r: QueueRow| r@)
    }
}

impl WorkQueue {
    /// Each task stands at most once in the queue.
    pub open spec fn wf(&self) -> bool {
        keys_unique(self@)
    }

    pub fn new() -> (r: WorkQueue)
        ensures
            r.wf(),
            r@ == Seq::<RowView>::empty(),
    {
        let r = WorkQueue { rows: Vec::new() };
        assert(r@ =~= Seq::<RowView>::empty());
        r
    }

    /// Number of tasks in the queue, held or not.
    pub fn len(&self) -> (r: usize)
        ensures
            r == self@.len(),
    {
        self.rows.len()
    }

    fn find(&self, k: &DeliveryTask) -> (r: Option<usize>)
        ensures
            r matches Some(i) ==> i < self@.len() && self@[i as int].0 == k@,
            r is None ==> forall|i: int| 0 <= i < self@.len() ==> (#[trigger] self@[i]).0 != k@,
    {
        let mut i: usize = 0;
        while i < self.rows.len()
            invariant
                i <= self.rows@.len(),
                self@.len() == self.rows@.len(),
                forall|j: int| 0 <= j < self.rows@.len() ==> #[trigger] self@[j] == self.rows@[j]@,
                forall|j: int| 0 <= j < i ==> (#[trigger] self@[j]).0 != k@,
            decreases self.rows@.len() - i,
        {
            if self.rows[i].task.same_key(k) {
                return Some(i);
            }
            i = i + 1;
        }
        None
    }

    /// Adds a task unless the queue already holds it; says whether it was added.
    pub fn enqueue(&mut self, task: DeliveryTask) -> (added: bool)
        requires
            old(self).wf(),
        ensures
            final(self).wf(),
            added <==> forall|i: int|
                0 <= i < old(self)@.len() ==> (#[trigger] old(self)@[i]).0 != task@,
            added ==> final(self)@ == old(self)@.push((task@, None::<u64>)),
            !added ==> final(self)@ == old(self)@,
    {
        match self.find(&task) {
            Some(_) => false,
            None => {
                let ghost k = task@;
                self.rows.push(QueueRow { task, holder: None });
                assert(self@ =~= old(self)@.push((k, None::<u64>)));
                true
            },
        }
    }

    /// Claims the first task that no worker holds, for `worker`; hands out no
    /// task where every row is held, or the queue is empty.
    pub fn claim(&mut self, worker: u64) -> (r: Option<DeliveryTask>)
        requires
            old(self).wf(),
        ensures
            final(self).wf(),
            claim_result(old(self)@, final(self)@, worker, key_of(r)),
    {
        let mut i: usize = 0;
        while i < self.rows.len()
            invariant
                *self == *old(self),
                old(self).wf(),
                i <= self.rows@.len(),
                self@.len() == self.rows@.len(),
                forall|j: int| 0 <= j < self.rows@.len() ==> #[trigger] self@[j] == self.rows@[j]@,
                forall|j: int| 0 <= j < i ==> (#[trigger] self@[j]).1 is Some,
            decreases self.rows@.len() - i,
        {
            if self.rows[i].holder.is_none() {
                let task = self.rows[i].task.duplicate();
                let held = QueueRow { task: self.rows[i].task.duplicate(), holder: Some(worker) };
                let ghost before = self@;
                proof {
                    assert(before[i as int] == self.rows@[i as int]@);
                    assert(before[i as int].0 == task@);
                    assert(keys_unique(before));
                }
                self.rows.set(i, held);
                proof {
                    assert(first_free(before, i as int));
                    assert(self@ =~= before.update(i as int, (task@, Some(worker))));
                    assert(keys_unique(self@)) by {
                        assert forall|a: int, b: int|
                            0 <= a < self@.len() && 0 <= b < self@.len() && a != b implies #[trigger] self@[a].0
                            != #[trigger] self@[b].0 by {
                            assert(self@[a].0 == before[a].0);
                            assert(self@[b].0 == before[b].0);
                            assert(before[a].0 != before[b].0);
                        }
                    }
                }
                return Some(task);
            }
            i = i + 1;
        }
        None
    }

    /// Deletes the row of `task` where `worker` holds it, and says whether it did.
    pub fn finalize(&mut self, worker: u64, task: &DeliveryTask) -> (deleted: bool)
        requires
            old(self).wf(),
        ensures
            final(self).wf(),
            finalize_result(old(self)@, final(self)@, worker, task@, deleted),
            deleted ==> final(self)@.len() == old(self)@.len() - 1,
    {
        match self.find(task) {
            None => {
                proof {
                    assert forall|i: int| !held_at(self@, task@, worker, i) by {
                        if 0 <= i < self@.len() {
                            assert(self@[i].0 != task@);
                        }
                    }
                }
                false
            },
            Some(i) => {
                if self.rows[i].holder == Some(worker) {
                    let ghost before = self@;
                    self.rows.remove(i);
                    proof {
                        assert(held_at(before, task@, worker, i as int));
                        assert(self@ =~= before.remove(i as int));
                        assert(keys_unique(self@)) by {
                            assert forall|a: int, b: int|
                                0 <= a < self@.len() && 0 <= b < self@.len() && a != b implies #[trigger] self@[a].0
                                != #[trigger] self@[b].0 by {
                                let a2 = if a < i { a } else { a + 1 };
                                let b2 = if b < i { b } else { b + 1 };
                                assert(self@[a] == before[a2]);
                                assert(self@[b] == before[b2]);
                            }
                        }
                    }
                    true
                } else {
                    proof {
                        assert forall|j: int| !held_at(self@, task@, worker, j) by {
                            if held_at(self@, task@, worker, j) && j != i {
                                assert(self@[j].0 == self@[i as int].0);
                            }
                        }
                    }
                    false
                }
            },
        }
    }

    /// Frees every row that `worker` holds, as when its transaction ends
    /// without a commit or its connection is lost.
    pub fn release(&mut self, worker: u64)
        requires
            old(self).wf(),
        ensures
            final(self).wf(),
            release_result(old(self)@, final(self)@, worker),
    {
        let mut i: usize = 0;
        while i < self.rows.len()
            invariant
                old(self).wf(),
                i <= self.rows@.len(),
                self@.len() == self.rows@.len(),
                self@.len() == old(self)@.len(),
                forall|j: int| 0 <= j < self.rows@.len() ==> #[trigger] self@[j] == self.rows@[j]@,
                forall|j: int|
                    0 <= j < self@.len() ==> (#[trigger] self@[j]).0 == old(self)@[j].0,
                forall|j: int|
                    0 <= j < i ==> (#[trigger] self@[j]).1 == (if old(self)@[j].1 == Some(worker) {
                        None::<u64>
                    } else {
                        old(self)@[j].1
                    }),
                forall|j: int| i <= j < self@.len() ==> (#[trigger] self@[j]).1 == old(self)@[j].1,
            decreases self.rows@.len() - i,
        {
            if self.rows[i].holder == Some(worker) {
                let free = QueueRow { task: self.rows[i].task.duplicate(), holder: None };
                let ghost before = self@;
                proof {
                    assert(before[i as int] == self.rows@[i as int]@);
                }
                self.rows.set(i, free);
                proof {
                    assert(self@ =~= before.update(i as int, (before[i as int].0, None::<u64>)));
                }
            }
            i = i + 1;
        }
        proof {
            assert forall|a: int, b: int|
                0 <= a < self@.len() && 0 <= b < self@.len() && a != b implies #[trigger] self@[a].0
                != #[trigger] self@[b].0 by {
                assert(old(self)@[a].0 != old(self)@[b].0);
            }
        }
    }
}

} // verus!

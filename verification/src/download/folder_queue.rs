//! The queue of one folder: its tasks in order, how many of them may run at
//! once, and running counts of the tasks that wait and that run.

use vstd::prelude::*;
use super::task::{DownloadStatus, DownloadTask, TaskView};

verus! {

/// How many tasks of a folder wait and how many run.
#[derive(Debug, Clone, Copy, PartialEq, Eq, Structural)]
pub struct FolderTaskCounts {
    pub pending: usize,
    pub downloading: usize,
}

impl Default for FolderTaskCounts {
    fn default() -> (r: FolderTaskCounts)
        ensures
            r == (FolderTaskCounts { pending: 0, downloading: 0 }),
    {
        FolderTaskCounts { pending: 0, downloading: 0 }
    }
}

impl FolderTaskCounts {
    /// Whether any task waits or runs.
    pub fn has_active_tasks(&self) -> (r: bool)
        ensures
            r == (self.pending > 0 || self.downloading > 0),
    {
        self.pending > 0 || self.downloading > 0
    }

    /// How many tasks wait or run.
    pub fn total(&self) -> (r: usize)
        requires
            self.pending + self.downloading <= usize::MAX,
        ensures
            r == self.pending + self.downloading,
    {
        self.pending + self.downloading
    }
}

/// The tasks of one folder.
pub struct FolderQueue {
    pub folder_id: String,
    pub tasks: Vec<DownloadTask>,
    /// How many downloads of this folder may run at once.
    pub max_concurrent: usize,
    pub counts: FolderTaskCounts,
}

/// What a folder's queue holds.
#[verifier::ext_equal]
pub struct QueueView {
    pub folder_id: Seq<char>,
    pub tasks: Seq<TaskView>,
    pub max_concurrent: usize,
    pub counts: FolderTaskCounts,
}

/// What a list of tasks holds.
pub open spec fn task_views(tasks: Seq<DownloadTask>) -> Seq<TaskView> {
    tasks.map_values(|t: DownloadTask| t@)
}

impl View for FolderQueue {
    type V = QueueView;

    open spec fn view(&self) -> QueueView {
        QueueView {
            folder_id: self.folder_id@,
            tasks: task_views(self.tasks@),
            max_concurrent: self.max_concurrent,
            counts: self.counts,
        }
    }
}

// ---------------------------------------------------------------------------
// Places and counts
// ---------------------------------------------------------------------------

/// The first place at or after `i` of a task with the given id.
pub open spec fn first_from(ts: Seq<TaskView>, id: u128, i: int) -> Option<int>
    decreases ts.len() - i,
{
    if i >= ts.len() {
        None
    } else if ts[i].id == id {
        Some(i)
    } else {
        first_from(ts, id, i + 1)
    }
}

/// The place of the first task with the given id.
pub open spec fn position(ts: Seq<TaskView>, id: u128) -> Option<int> {
    first_from(ts, id, 0)
}

/// What `first_from` finds.
pub proof fn lemma_first_from(ts: Seq<TaskView>, id: u128, i: int)
    requires
        0 <= i,
    ensures
        match first_from(ts, id, i) {
            Some(p) => i <= p < ts.len() && ts[p].id == id && forall|j: int|
                i <= j < p ==> (#[trigger] ts[j]).id != id,
            None => forall|j: int| i <= j < ts.len() ==> (#[trigger] ts[j]).id != id,
        },
    decreases ts.len() - i,
{
    if i < ts.len() && ts[i].id != id {
        lemma_first_from(ts, id, i + 1);
    }
}

/// What `position` finds.
pub proof fn lemma_position(ts: Seq<TaskView>, id: u128)
    ensures
        match position(ts, id) {
            Some(p) => 0 <= p < ts.len() && ts[p].id == id && forall|j: int|
                0 <= j < p ==> (#[trigger] ts[j]).id != id,
            None => forall|j: int| 0 <= j < ts.len() ==> (#[trigger] ts[j]).id != id,
        },
{
    lemma_first_from(ts, id, 0);
}

/// How many tasks have the given status.
pub open spec fn count_status(ts: Seq<TaskView>, status: DownloadStatus) -> nat
    decreases ts.len(),
{
    if ts.len() == 0 {
        0
    } else {
        count_status(ts.drop_last(), status) + (if ts.last().status == status {
            1nat
        } else {
            0nat
        })
    }
}

/// One task more, one count more.
pub proof fn lemma_count_push(ts: Seq<TaskView>, t: TaskView, status: DownloadStatus)
    ensures
        count_status(ts.push(t), status) == count_status(ts, status) + (if t.status == status {
            1nat
        } else {
            0nat
        }),
{
    assert(ts.push(t).drop_last() =~= ts);
}

/// Counts of two lists add up.
pub proof fn lemma_count_add(a: Seq<TaskView>, b: Seq<TaskView>, status: DownloadStatus)
    ensures
        count_status(a + b, status) == count_status(a, status) + count_status(b, status),
    decreases b.len(),
{
    if b.len() == 0 {
        assert(a + b =~= a);
    } else {
        lemma_count_add(a, b.drop_last(), status);
        assert((a + b).drop_last() =~= a + b.drop_last());
    }
}

/// No more tasks have a status than there are tasks.
pub proof fn lemma_count_bound(ts: Seq<TaskView>, status: DownloadStatus)
    ensures
        count_status(ts, status) <= ts.len(),
    decreases ts.len(),
{
    if ts.len() > 0 {
        lemma_count_bound(ts.drop_last(), status);
    }
}

/// Taking a task out takes it out of the counts.
pub proof fn lemma_count_remove(ts: Seq<TaskView>, i: int, status: DownloadStatus)
    requires
        0 <= i < ts.len(),
    ensures
        count_status(ts, status) == count_status(ts.remove(i), status) + (if ts[i].status
            == status {
            1nat
        } else {
            0nat
        }),
{
    let a = ts.take(i);
    let b = ts.skip(i + 1);
    assert(ts =~= a.push(ts[i]) + b);
    assert(ts.remove(i) =~= a + b);
    lemma_count_add(a.push(ts[i]), b, status);
    lemma_count_push(a, ts[i], status);
    lemma_count_add(a, b, status);
}

/// Putting a task in puts it into the counts.
pub proof fn lemma_count_insert(ts: Seq<TaskView>, i: int, t: TaskView, status: DownloadStatus)
    requires
        0 <= i <= ts.len(),
    ensures
        count_status(ts.insert(i, t), status) == count_status(ts, status) + (if t.status
            == status {
            1nat
        } else {
            0nat
        }),
{
    lemma_count_remove(ts.insert(i, t), i, status);
    assert(ts.insert(i, t).remove(i) =~= ts);
}

/// Replacing a task moves the counts from its old status to its new one.
pub proof fn lemma_count_update(ts: Seq<TaskView>, i: int, t: TaskView, status: DownloadStatus)
    requires
        0 <= i < ts.len(),
    ensures
        count_status(ts.update(i, t), status) + (if ts[i].status == status {
            1nat
        } else {
            0nat
        }) == count_status(ts, status) + (if t.status == status {
            1nat
        } else {
            0nat
        }),
{
    lemma_count_remove(ts, i, status);
    lemma_count_remove(ts.update(i, t), i, status);
    assert(ts.update(i, t).remove(i) =~= ts.remove(i));
}

// ---------------------------------------------------------------------------
// What the operations do
// ---------------------------------------------------------------------------

/// One less, but not below zero.
pub open spec fn one_less(n: usize) -> usize {
    if n == 0 {
        0
    } else {
        (n - 1) as usize
    }
}

/// The counts with one task of the given status less.
pub open spec fn counts_without(c: FolderTaskCounts, status: DownloadStatus) -> FolderTaskCounts {
    match status {
        DownloadStatus::Pending => FolderTaskCounts { pending: one_less(c.pending), ..c },
        DownloadStatus::Downloading => FolderTaskCounts {
            downloading: one_less(c.downloading),
            ..c
        },
        _ => c,
    }
}

/// The counts with one task of the given status more.
pub open spec fn counts_with(c: FolderTaskCounts, status: DownloadStatus) -> FolderTaskCounts {
    match status {
        DownloadStatus::Pending => FolderTaskCounts { pending: (c.pending + 1) as usize, ..c },
        DownloadStatus::Downloading => FolderTaskCounts {
            downloading: (c.downloading + 1) as usize,
            ..c
        },
        _ => c,
    }
}

/// The counts after a task went from one status to another.
pub open spec fn counts_moved(
    c: FolderTaskCounts,
    from: DownloadStatus,
    to: DownloadStatus,
) -> FolderTaskCounts {
    if from == to {
        c
    } else {
        counts_with(counts_without(c, from), to)
    }
}

/// The counts that the tasks have.
pub open spec fn actual_counts(ts: Seq<TaskView>) -> FolderTaskCounts {
    FolderTaskCounts {
        pending: count_status(ts, DownloadStatus::Pending) as usize,
        downloading: count_status(ts, DownloadStatus::Downloading) as usize,
    }
}

/// A task added behind all others.
pub open spec fn queue_added(q: QueueView, t: TaskView) -> QueueView {
    QueueView { tasks: q.tasks.push(t), counts: counts_with(q.counts, t.status), ..q }
}

/// The first task with the given id taken out.
pub open spec fn queue_removed(q: QueueView, id: u128) -> QueueView {
    match position(q.tasks, id) {
        Some(p) => QueueView {
            tasks: q.tasks.remove(p),
            counts: counts_without(q.counts, q.tasks[p].status),
            ..q
        },
        None => q,
    }
}

/// The first task with the id of `t` replaced by `t`.
pub open spec fn queue_updated(q: QueueView, t: TaskView) -> QueueView {
    match position(q.tasks, t.id) {
        Some(p) => QueueView {
            tasks: q.tasks.update(p, t),
            counts: counts_moved(q.counts, q.tasks[p].status, t.status),
            ..q
        },
        None => q,
    }
}

/// The first task with the given id moved to the front.
pub open spec fn moved_to_top(ts: Seq<TaskView>, id: u128) -> Seq<TaskView> {
    match position(ts, id) {
        Some(p) => ts.remove(p).insert(0, ts[p]),
        None => ts,
    }
}

/// The first task with the given id moved to the back.
pub open spec fn moved_to_bottom(ts: Seq<TaskView>, id: u128) -> Seq<TaskView> {
    match position(ts, id) {
        Some(p) => ts.remove(p).push(ts[p]),
        None => ts,
    }
}

/// Whether a task can be moved before another: both are there, at different
/// places.
pub open spec fn can_move_before(ts: Seq<TaskView>, id: u128, before: u128) -> bool {
    position(ts, id) is Some && position(ts, before) is Some && position(ts, id) != position(
        ts,
        before,
    )
}

/// The first task with the id `id` moved to just before the first with the id
/// `before`.
pub open spec fn moved_before(ts: Seq<TaskView>, id: u128, before: u128) -> Seq<TaskView> {
    if can_move_before(ts, id, before) {
        let from = position(ts, id)->0;
        let to = position(ts, before)->0;
        ts.remove(from).insert(
            if from < to {
                to - 1
            } else {
                to
            },
            ts[from],
        )
    } else {
        ts
    }
}

/// The tasks that wait.
pub open spec fn waits() -> spec_fn(TaskView) -> bool {
    |t: TaskView| t.status == DownloadStatus::Pending
}

/// Whether the task at place `i` is the one to start next: it waits, no waiting
/// task has a higher priority, and none behind it has the same.
pub open spec fn is_next_pending(ts: Seq<TaskView>, i: int) -> bool {
    &&& 0 <= i < ts.len()
    &&& ts[i].status == DownloadStatus::Pending
    &&& forall|j: int|
        0 <= j < ts.len() && (#[trigger] ts[j]).status == DownloadStatus::Pending ==> ts[j].priority
            <= ts[i].priority && (j > i ==> ts[j].priority < ts[i].priority)
}

impl QueueView {
    /// The counts are those of the tasks.
    pub open spec fn in_sync(self) -> bool {
        &&& self.counts.pending == count_status(self.tasks, DownloadStatus::Pending)
        &&& self.counts.downloading == count_status(self.tasks, DownloadStatus::Downloading)
    }

    /// The counts are at most those of the tasks.
    pub open spec fn bounded(self) -> bool {
        &&& self.counts.pending <= count_status(self.tasks, DownloadStatus::Pending)
        &&& self.counts.downloading <= count_status(self.tasks, DownloadStatus::Downloading)
    }

    /// One more task can be counted.
    pub open spec fn countable(self) -> bool {
        self.bounded() || (self.counts.pending < usize::MAX && self.counts.downloading
            < usize::MAX)
    }
}

// ---------------------------------------------------------------------------
// Laws
// ---------------------------------------------------------------------------

/// Moving a task to the front changes neither which tasks there are nor any
/// count.
pub proof fn law_move_to_top_permutes(ts: Seq<TaskView>, id: u128, status: DownloadStatus)
    ensures
        moved_to_top(ts, id).to_multiset() == ts.to_multiset(),
        count_status(moved_to_top(ts, id), status) == count_status(ts, status),
        moved_to_top(ts, id).len() == ts.len(),
        position(ts, id) is Some ==> moved_to_top(ts, id)[0].id == id,
{
    lemma_position(ts, id);
    if let Some(p) = position(ts, id) {
        lemma_reinserted(ts, p, 0, status);
    }
}

/// Moving a task to the back changes neither which tasks there are nor any
/// count.
pub proof fn law_move_to_bottom_permutes(ts: Seq<TaskView>, id: u128, status: DownloadStatus)
    ensures
        moved_to_bottom(ts, id).to_multiset() == ts.to_multiset(),
        count_status(moved_to_bottom(ts, id), status) == count_status(ts, status),
        moved_to_bottom(ts, id).len() == ts.len(),
        position(ts, id) is Some ==> moved_to_bottom(ts, id).last().id == id,
{
    lemma_position(ts, id);
    if let Some(p) = position(ts, id) {
        lemma_reinserted(ts, p, ts.len() - 1, status);
        assert(ts.remove(p).insert(ts.len() - 1, ts[p]) =~= ts.remove(p).push(ts[p]));
    }
}

/// Moving a task before another changes neither which tasks there are nor any
/// count, and the moved task then stands right before the other.
pub proof fn law_move_before_permutes(
    ts: Seq<TaskView>,
    id: u128,
    before: u128,
    status: DownloadStatus,
)
    ensures
        moved_before(ts, id, before).to_multiset() == ts.to_multiset(),
        count_status(moved_before(ts, id, before), status) == count_status(ts, status),
        moved_before(ts, id, before).len() == ts.len(),
        can_move_before(ts, id, before) ==> exists|i: int|
            0 <= i < ts.len() - 1 && (#[trigger] moved_before(ts, id, before)[i]) == ts[position(
                ts,
                id,
            )->0] && moved_before(ts, id, before)[i + 1] == ts[position(ts, before)->0],
{
    lemma_position(ts, id);
    lemma_position(ts, before);
    if can_move_before(ts, id, before) {
        let from = position(ts, id)->0;
        let to = position(ts, before)->0;
        let at = if from < to {
            to - 1
        } else {
            to
        };
        lemma_reinserted(ts, from, at, status);
        let r = moved_before(ts, id, before);
        assert(r[at] == ts[from]);
        assert(r[at + 1] == ts[to]);
    }
}

/// Taking a task out and putting it back elsewhere keeps tasks and counts.
proof fn lemma_reinserted(ts: Seq<TaskView>, p: int, at: int, status: DownloadStatus)
    requires
        0 <= p < ts.len(),
        0 <= at < ts.len(),
    ensures
        ts.remove(p).insert(at, ts[p]).to_multiset() == ts.to_multiset(),
        count_status(ts.remove(p).insert(at, ts[p]), status) == count_status(ts, status),
        ts.remove(p).insert(at, ts[p]).len() == ts.len(),
{
    broadcast use vstd::seq_lib::group_to_multiset_ensures;

    let r = ts.remove(p);
    let q = r.insert(at, ts[p]);
    assert(q.remove(at) =~= r);
    assert(q[at] == ts[p]);
    assert(ts.contains(ts[p]));
    assert(q.contains(q[at]));
    assert(q.to_multiset().remove(ts[p]) == r.to_multiset());
    assert(ts.to_multiset().remove(ts[p]) == r.to_multiset());
    assert(q.to_multiset() =~= r.to_multiset().insert(ts[p]));
    assert(ts.to_multiset() =~= r.to_multiset().insert(ts[p]));
    lemma_count_remove(ts, p, status);
    lemma_count_insert(r, at, ts[p], status);
}

/// A task that was added under a new id is found, and taking it out again
/// leaves the queue as it was.
pub proof fn law_remove_undoes_add(q: QueueView, t: TaskView)
    requires
        position(q.tasks, t.id) is None,
        q.counts.pending < usize::MAX,
        q.counts.downloading < usize::MAX,
    ensures
        position(queue_added(q, t).tasks, t.id) == Some(q.tasks.len() as int),
        queue_removed(queue_added(q, t), t.id) == q,
{
    let a = queue_added(q, t);
    lemma_position(q.tasks, t.id);
    lemma_position(a.tasks, t.id);
    assert(a.tasks[q.tasks.len() as int] == t);
    assert forall|j: int| 0 <= j < q.tasks.len() implies (#[trigger] a.tasks[j]).id != t.id by {
        assert(a.tasks[j] == q.tasks[j]);
    }
    assert(a.tasks.remove(q.tasks.len() as int) =~= q.tasks);
}

/// A lookup after an update gives the updated task, and every other task is as
/// it was.
pub proof fn law_get_after_update(q: QueueView, t: TaskView)
    requires
        position(q.tasks, t.id) is Some,
    ensures
        position(queue_updated(q, t).tasks, t.id) == position(q.tasks, t.id),
        queue_updated(q, t).tasks[position(q.tasks, t.id)->0] == t,
        queue_updated(q, t).tasks.len() == q.tasks.len(),
        forall|i: int|
            0 <= i < q.tasks.len() && i != position(q.tasks, t.id)->0 ==> #[trigger] queue_updated(
                q,
                t,
            ).tasks[i] == q.tasks[i],
{
    let u = queue_updated(q, t);
    lemma_position(q.tasks, t.id);
    lemma_position(u.tasks, t.id);
    let p = position(q.tasks, t.id)->0;
    assert(u.tasks[p] == t);
    assert forall|j: int| 0 <= j < p implies (#[trigger] u.tasks[j]).id != t.id by {
        assert(u.tasks[j] == q.tasks[j]);
    }
}

/// Moving a task changes the order of no others: without it, the queue is as it was
/// without it before. It goes to the front, to the back, or right before another.
pub proof fn law_moves_keep_the_order_of_the_others(
    ts: Seq<TaskView>,
    id: u128,
    before: u128,
    p: int,
    q: int,
)
    requires
        0 <= p < ts.len(),
        ts[p].id == id,
        forall|j: int| 0 <= j < p ==> (#[trigger] ts[j]).id != id,
        0 <= q < ts.len(),
        ts[q].id == before,
        forall|j: int| 0 <= j < q ==> (#[trigger] ts[j]).id != before,
    ensures
        moved_to_top(ts, id) == seq![ts[p]] + (ts.take(p) + ts.skip(p + 1)),
        moved_to_bottom(ts, id) == (ts.take(p) + ts.skip(p + 1)) + seq![ts[p]],
        p < q ==> moved_before(ts, id, before) == ts.take(p) + ts.subrange(p + 1, q) + seq![ts[p]]
            + ts.skip(q),
        q < p ==> moved_before(ts, id, before) == ts.take(q) + seq![ts[p]] + ts.subrange(q, p)
            + ts.skip(p + 1),
        p == q ==> moved_before(ts, id, before) == ts,
{
    lemma_position(ts, id);
    lemma_position(ts, before);
    assert(position(ts, id) == Some(p)) by {
        let k = position(ts, id)->0;
        if k < p {
            assert(ts[k].id != id);
        }
    }
    assert(position(ts, before) == Some(q)) by {
        let k = position(ts, before)->0;
        if k < q {
            assert(ts[k].id != before);
        }
    }
    assert(moved_to_top(ts, id) =~= seq![ts[p]] + (ts.take(p) + ts.skip(p + 1)));
    assert(moved_to_bottom(ts, id) =~= (ts.take(p) + ts.skip(p + 1)) + seq![ts[p]]);
    if p < q {
        assert(moved_before(ts, id, before) =~= ts.take(p) + ts.subrange(p + 1, q) + seq![ts[p]]
            + ts.skip(q));
    } else if q < p {
        assert(moved_before(ts, id, before) =~= ts.take(q) + seq![ts[p]] + ts.subrange(q, p)
            + ts.skip(p + 1));
    }
}

/// An id that is not there moves nothing, and nothing is moved before it.
pub proof fn law_unknown_tasks_do_not_move(ts: Seq<TaskView>, id: u128, other: u128)
    requires
        forall|j: int| 0 <= j < ts.len() ==> (#[trigger] ts[j]).id != id,
    ensures
        moved_to_top(ts, id) == ts,
        moved_to_bottom(ts, id) == ts,
        moved_before(ts, id, other) == ts,
        moved_before(ts, other, id) == ts,
{
    lemma_position(ts, id);
}

/// While the counts are right, they stay right: a queue counts the tasks that wait
/// and those that run, and nothing else, after an addition, a removal or an update.
pub proof fn law_counts_stay_right(q: QueueView, t: TaskView, id: u128, k: int)
    requires
        q.tasks.len() < usize::MAX,
        q.counts.pending == count_status(q.tasks, DownloadStatus::Pending),
        q.counts.downloading == count_status(q.tasks, DownloadStatus::Downloading),
        0 <= k < q.tasks.len(),
        q.tasks[k].id == id,
        forall|j: int| 0 <= j < k ==> (#[trigger] q.tasks[j]).id != id,
    ensures
        ({
            let a = queue_added(q, t);
            let r = queue_removed(q, id);
            let u = queue_updated(q, TaskView { id, ..t });
            &&& a.tasks == q.tasks + seq![t]
            &&& a.counts.pending == count_status(a.tasks, DownloadStatus::Pending)
            &&& a.counts.downloading == count_status(a.tasks, DownloadStatus::Downloading)
            &&& a.folder_id == q.folder_id && a.max_concurrent == q.max_concurrent
            &&& r.tasks == q.tasks.take(k) + q.tasks.skip(k + 1)
            &&& r.counts.pending == count_status(r.tasks, DownloadStatus::Pending)
            &&& r.counts.downloading == count_status(r.tasks, DownloadStatus::Downloading)
            &&& r.folder_id == q.folder_id && r.max_concurrent == q.max_concurrent
            &&& u.tasks == q.tasks.update(k, TaskView { id, ..t })
            &&& u.counts.pending == count_status(u.tasks, DownloadStatus::Pending)
            &&& u.counts.downloading == count_status(u.tasks, DownloadStatus::Downloading)
            &&& u.folder_id == q.folder_id && u.max_concurrent == q.max_concurrent
        }),
{
    let v = TaskView { id, ..t };
    lemma_position(q.tasks, id);
    assert(position(q.tasks, id) == Some(k)) by {
        let p = position(q.tasks, id)->0;
        if p < k {
            assert(q.tasks[p].id != id);
        }
    }
    assert(q.tasks.push(t) =~= q.tasks + seq![t]);
    assert(q.tasks.push(t).drop_last() =~= q.tasks);
    assert(q.tasks.remove(k) =~= q.tasks.take(k) + q.tasks.skip(k + 1));
    lemma_count_bound(q.tasks, DownloadStatus::Pending);
    lemma_count_bound(q.tasks, DownloadStatus::Downloading);
    lemma_count_remove(q.tasks, k, DownloadStatus::Pending);
    lemma_count_remove(q.tasks, k, DownloadStatus::Downloading);
    lemma_count_update(q.tasks, k, v, DownloadStatus::Pending);
    lemma_count_update(q.tasks, k, v, DownloadStatus::Downloading);
}

/// Of the tasks that wait, the next one has the highest priority, and of those with
/// that priority it stands last.
pub proof fn law_next_has_the_highest_priority(ts: Seq<TaskView>, i: int, j: int)
    requires
        is_next_pending(ts, i),
        0 <= j < ts.len(),
        ts[j].status == DownloadStatus::Pending,
    ensures
        ts[i].status == DownloadStatus::Pending,
        ts[i].priority >= ts[j].priority,
        ts[i].priority == ts[j].priority ==> j <= i,
{
}

/// The tasks that wait are those that are pending, and what is counted anew is how many
/// wait and how many run.
pub proof fn law_counted_anew(ts: Seq<TaskView>, t: TaskView)
    requires
        ts.len() <= usize::MAX,
    ensures
        waits()(t) <==> t.status == DownloadStatus::Pending,
        actual_counts(ts).pending == ts.filter(
            |x: TaskView| x.status == DownloadStatus::Pending,
        ).len(),
        actual_counts(ts).downloading == ts.filter(
            |x: TaskView| x.status == DownloadStatus::Downloading,
        ).len(),
{
    lemma_filtered(ts, DownloadStatus::Pending);
    lemma_filtered(ts, DownloadStatus::Downloading);
    lemma_count_bound(ts, DownloadStatus::Pending);
    lemma_count_bound(ts, DownloadStatus::Downloading);
}

/// As many tasks have a status as are left when the others are taken out.
proof fn lemma_filtered(ts: Seq<TaskView>, status: DownloadStatus)
    ensures
        count_status(ts, status) == ts.filter(|x: TaskView| x.status == status).len(),
    decreases ts.len(),
{
    reveal(Seq::filter);
    if ts.len() > 0 {
        lemma_filtered(ts.drop_last(), status);
    }
}

impl FolderQueue {
    /// An empty queue.
    pub fn new(folder_id: String, max_concurrent: usize) -> (r: FolderQueue)
        ensures
            r@ == (QueueView {
                folder_id: folder_id@,
                tasks: Seq::empty(),
                max_concurrent,
                counts: FolderTaskCounts { pending: 0, downloading: 0 },
            }),
            r@.in_sync(),
    {
        let r = FolderQueue {
            folder_id,
            tasks: Vec::new(),
            max_concurrent,
            counts: FolderTaskCounts { pending: 0, downloading: 0 },
        };
        assert(r@.tasks =~= Seq::empty());
        r
    }

    /// The folder that the queue was made for.
    pub fn folder_id(&self) -> (r: &str)
        ensures
            r@ == self@.folder_id,
    {
        self.folder_id.as_str()
    }

    fn find(&self, id: u128) -> (r: Option<usize>)
        ensures
            match r {
                Some(p) => position(self@.tasks, id) == Some(p as int) && p < self.tasks@.len()
                    && self.tasks@[p as int].id == id,
                None => position(self@.tasks, id) is None,
            },
    {
        for i in 0..self.tasks.len()
            invariant
                position(self@.tasks, id) == first_from(self@.tasks, id, i as int),
        {
            assert(self@.tasks[i as int] == self.tasks@[i as int]@);
            if self.tasks[i].id == id {
                return Some(i);
            }
        }
        None
    }

    /// Adds a task behind all others.
    pub fn add(&mut self, task: DownloadTask)
        requires
            old(self)@.countable(),
        ensures
            final(self)@ == queue_added(old(self)@, task@),
            old(self)@.in_sync() ==> final(self)@.in_sync(),
            old(self)@.bounded() ==> final(self)@.bounded(),
    {
        let status = task.status;
        self.tasks.push(task);
        proof {
            let q = old(self)@;
            assert(task_views(self.tasks@) =~= q.tasks.push(task@));
            lemma_count_push(q.tasks, task@, DownloadStatus::Pending);
            lemma_count_push(q.tasks, task@, DownloadStatus::Downloading);
            lemma_count_bound(q.tasks.push(task@), DownloadStatus::Pending);
            lemma_count_bound(q.tasks.push(task@), DownloadStatus::Downloading);
        }
        let n: usize = self.tasks.len();
        match status {
            DownloadStatus::Pending => {
                self.counts.pending = self.counts.pending + 1;
            },
            DownloadStatus::Downloading => {
                self.counts.downloading = self.counts.downloading + 1;
            },
            _ => {},
        }
    }

    /// Copies of all tasks, in order.
    pub fn get_all(&self) -> (r: Vec<DownloadTask>)
        ensures
            task_views(r@) == self@.tasks,
    {
        let mut out: Vec<DownloadTask> = Vec::new();
        for i in 0..self.tasks.len()
            invariant
                task_views(out@) == self@.tasks.take(i as int),
        {
            let t = self.tasks[i].clone();
            let ghost before = task_views(out@);
            out.push(t);
            assert(task_views(out@) =~= before.push(t@));
            assert(self@.tasks.take(i + 1) =~= self@.tasks.take(i as int).push(
                self@.tasks[i as int],
            ));
        }
        assert(self@.tasks.take(self@.tasks.len() as int) =~= self@.tasks);
        out
    }

    /// How many tasks there are.
    pub fn len(&self) -> (r: usize)
        ensures
            r == self@.tasks.len(),
    {
        self.tasks.len()
    }

    /// Whether there is no task.
    pub fn is_empty(&self) -> (r: bool)
        ensures
            r == (self@.tasks.len() == 0),
    {
        self.tasks.len() == 0
    }

    fn uncount(&mut self, status: DownloadStatus)
        ensures
            final(self)@ == (QueueView {
                counts: counts_without(old(self)@.counts, status),
                ..old(self)@
            }),
            final(self).tasks == old(self).tasks,
    {
        match status {
            DownloadStatus::Pending => {
                if self.counts.pending > 0 {
                    self.counts.pending = self.counts.pending - 1;
                }
            },
            DownloadStatus::Downloading => {
                if self.counts.downloading > 0 {
                    self.counts.downloading = self.counts.downloading - 1;
                }
            },
            _ => {},
        }
    }

    /// Takes the first task with the given id out.
    pub fn remove(&mut self, id: u128) -> (r: Option<DownloadTask>)
        ensures
            final(self)@ == queue_removed(old(self)@, id),
            match r {
                Some(t) => position(old(self)@.tasks, id) is Some && t@
                    == old(self)@.tasks[position(old(self)@.tasks, id)->0],
                None => position(old(self)@.tasks, id) is None,
            },
            old(self)@.in_sync() ==> final(self)@.in_sync(),
            old(self)@.bounded() ==> final(self)@.bounded(),
    {
        match self.find(id) {
            None => None,
            Some(p) => {
                let ghost q = self@;
                let task = self.tasks.remove(p);
                proof {
                    assert(task_views(self.tasks@) =~= q.tasks.remove(p as int));
                    assert(q.tasks[p as int] == task@);
                    lemma_count_remove(q.tasks, p as int, DownloadStatus::Pending);
                    lemma_count_remove(q.tasks, p as int, DownloadStatus::Downloading);
                }
                self.uncount(task.status);
                Some(task)
            },
        }
    }

    /// A copy of the first task with the given id.
    pub fn get_by_id(&self, id: u128) -> (r: Option<DownloadTask>)
        ensures
            match r {
                Some(t) => position(self@.tasks, id) is Some && t@ == self@.tasks[position(
                    self@.tasks,
                    id,
                )->0],
                None => position(self@.tasks, id) is None,
            },
    {
        match self.find(id) {
            Some(p) => {
                assert(self@.tasks[p as int] == self.tasks@[p as int]@);
                Some(self.tasks[p].clone())
            },
            None => None,
        }
    }

    /// Replaces the first task that has the id of `task` by `task`; does nothing
    /// if there is none.
    pub fn update(&mut self, task: DownloadTask)
        requires
            old(self)@.countable(),
        ensures
            final(self)@ == queue_updated(old(self)@, task@),
            old(self)@.in_sync() ==> final(self)@.in_sync(),
            old(self)@.bounded() ==> final(self)@.bounded(),
    {
        match self.find(task.id) {
            None => {},
            Some(p) => {
                let ghost q = self@;
                let old_status = self.tasks[p].status;
                let new_status = task.status;
                self.tasks.set(p, task);
                proof {
                    assert(task_views(self.tasks@) =~= q.tasks.update(p as int, task@));
                    assert(q.tasks[p as int].status == old_status);
                    lemma_count_update(q.tasks, p as int, task@, DownloadStatus::Pending);
                    lemma_count_update(q.tasks, p as int, task@, DownloadStatus::Downloading);
                    lemma_count_bound(self@.tasks, DownloadStatus::Pending);
                    lemma_count_bound(self@.tasks, DownloadStatus::Downloading);
                }
                if old_status != new_status {
                    self.uncount(old_status);
                    let n: usize = self.tasks.len();
                    match new_status {
                        DownloadStatus::Pending => {
                            self.counts.pending = self.counts.pending + 1;
                        },
                        DownloadStatus::Downloading => {
                            self.counts.downloading = self.counts.downloading + 1;
                        },
                        _ => {},
                    }
                }
            },
        }
    }

    /// The running counts.
    pub fn get_counts(&self) -> (r: FolderTaskCounts)
        ensures
            r == self@.counts,
    {
        self.counts
    }

    /// Whether any task waits or runs, by the running counts.
    pub fn has_active_tasks(&self) -> (r: bool)
        ensures
            r == (self@.counts.pending > 0 || self@.counts.downloading > 0),
    {
        self.counts.has_active_tasks()
    }

    /// Counts one more waiting task.
    pub fn increment_pending(&mut self)
        requires
            old(self)@.counts.pending < usize::MAX,
        ensures
            final(self)@ == (QueueView {
                counts: counts_with(old(self)@.counts, DownloadStatus::Pending),
                ..old(self)@
            }),
    {
        self.counts.pending = self.counts.pending + 1;
    }

    /// Counts one waiting task less, but not below zero.
    pub fn decrement_pending(&mut self)
        ensures
            final(self)@ == (QueueView {
                counts: counts_without(old(self)@.counts, DownloadStatus::Pending),
                ..old(self)@
            }),
            old(self)@.bounded() ==> final(self)@.bounded(),
    {
        self.uncount(DownloadStatus::Pending);
    }

    /// Counts one more running task.
    pub fn increment_downloading(&mut self)
        requires
            old(self)@.counts.downloading < usize::MAX,
        ensures
            final(self)@ == (QueueView {
                counts: counts_with(old(self)@.counts, DownloadStatus::Downloading),
                ..old(self)@
            }),
    {
        self.counts.downloading = self.counts.downloading + 1;
    }

    /// Counts one running task less, but not below zero.
    pub fn decrement_downloading(&mut self)
        ensures
            final(self)@ == (QueueView {
                counts: counts_without(old(self)@.counts, DownloadStatus::Downloading),
                ..old(self)@
            }),
            old(self)@.bounded() ==> final(self)@.bounded(),
    {
        self.uncount(DownloadStatus::Downloading);
    }

    /// Counts the tasks anew.
    pub fn rebuild_counts(&mut self)
        ensures
            final(self)@ == (QueueView { counts: actual_counts(old(self)@.tasks), ..old(self)@ }),
            final(self)@.in_sync(),
    {
        let mut pending: usize = 0;
        let mut downloading: usize = 0;
        let n: usize = self.tasks.len();
        for i in 0..n
            invariant
                n == self@.tasks.len(),
                *self == *old(self),
                pending == count_status(self@.tasks.take(i as int), DownloadStatus::Pending),
                downloading == count_status(
                    self@.tasks.take(i as int),
                    DownloadStatus::Downloading,
                ),
        {
            proof {
                let ts = self@.tasks;
                assert(ts.take(i + 1) =~= ts.take(i as int).push(ts[i as int]));
                lemma_count_push(ts.take(i as int), ts[i as int], DownloadStatus::Pending);
                lemma_count_push(ts.take(i as int), ts[i as int], DownloadStatus::Downloading);
                lemma_count_bound(ts.take(i + 1), DownloadStatus::Pending);
                lemma_count_bound(ts.take(i + 1), DownloadStatus::Downloading);
                assert(ts[i as int].status == self.tasks@[i as int].status);
            }
            match self.tasks[i].status {
                DownloadStatus::Pending => {
                    pending = pending + 1;
                },
                DownloadStatus::Downloading => {
                    downloading = downloading + 1;
                },
                _ => {},
            }
        }
        assert(self@.tasks.take(n as int) =~= self@.tasks);
        self.counts = FolderTaskCounts { pending, downloading };
    }

    /// Puts the given tasks in the place of all others and counts them.
    pub fn replace_tasks(&mut self, tasks: Vec<DownloadTask>)
        ensures
            final(self)@ == (QueueView {
                tasks: task_views(tasks@),
                counts: actual_counts(task_views(tasks@)),
                ..old(self)@
            }),
            final(self)@.in_sync(),
    {
        self.tasks = tasks;
        self.rebuild_counts();
    }

    /// Copies of the tasks that wait, in order.
    pub fn get_pending_tasks(&self) -> (r: Vec<DownloadTask>)
        ensures
            task_views(r@) == self@.tasks.filter(waits()),
    {
        let mut out: Vec<DownloadTask> = Vec::new();
        proof {
            assert(self@.tasks.take(0) =~= Seq::<TaskView>::empty());
            reveal(Seq::filter);
            assert(task_views(out@) =~= Seq::<TaskView>::empty());
        }
        for i in 0..self.tasks.len()
            invariant
                task_views(out@) == self@.tasks.take(i as int).filter(waits()),
        {
            proof {
                reveal(Seq::filter);
                let ts = self@.tasks;
                assert(ts.take(i + 1).drop_last() =~= ts.take(i as int));
                assert(ts.take(i + 1).last() == self.tasks@[i as int]@);
            }
            if self.tasks[i].status == DownloadStatus::Pending {
                let t = self.tasks[i].clone();
                let ghost before = task_views(out@);
                out.push(t);
                assert(task_views(out@) =~= before.push(t@));
            }
        }
        assert(self@.tasks.take(self@.tasks.len() as int) =~= self@.tasks);
        out
    }

    /// A copy of the waiting task to start next: the one with the highest
    /// priority, the last of them where several share it.
    pub fn next_pending(&self) -> (r: Option<DownloadTask>)
        ensures
            match r {
                Some(t) => exists|i: int| #[trigger]
                    is_next_pending(self@.tasks, i) && t@ == self@.tasks[i],
                None => forall|i: int|
                    0 <= i < self@.tasks.len() ==> (#[trigger] self@.tasks[i]).status
                        != DownloadStatus::Pending,
            },
    {
        let mut best: Option<usize> = None;
        for i in 0..self.tasks.len()
            invariant
                match best {
                    Some(b) => is_next_pending(self@.tasks.take(i as int), b as int) && b < i,
                    None => forall|j: int|
                        0 <= j < i ==> (#[trigger] self@.tasks[j]).status
                            != DownloadStatus::Pending,
                },
        {
            let ghost ts = self@.tasks;
            assert(ts[i as int] == self.tasks@[i as int]@);
            if self.tasks[i].status == DownloadStatus::Pending {
                let better: bool = match best {
                    None => true,
                    Some(b) => {
                        assert(ts.take(i as int)[b as int] == self.tasks@[b as int]@);
                        self.tasks[i].priority >= self.tasks[b].priority
                    },
                };
                if better {
                    best = Some(i);
                }
            }
            proof {
                let now = ts.take(i + 1);
                let before = ts.take(i as int);
                assert(forall|j: int| 0 <= j < i ==> #[trigger] now[j] == before[j]);
                assert(forall|j: int| 0 <= j < i ==> #[trigger] now[j] == ts[j]);
                assert(now[i as int] == ts[i as int]);
            }
        }
        match best {
            None => None,
            Some(b) => {
                proof {
                    assert(self@.tasks.take(self@.tasks.len() as int) =~= self@.tasks);
                    assert(is_next_pending(self@.tasks, b as int));
                    assert(self@.tasks[b as int] == self.tasks@[b as int]@);
                }
                Some(self.tasks[b].clone())
            },
        }
    }

    /// Sets the priority of the first task with the given id.
    pub fn set_priority(&mut self, id: u128, priority: i32) -> (r: bool)
        ensures
            r == (position(old(self)@.tasks, id) is Some),
            r ==> final(self)@ == (QueueView {
                tasks: old(self)@.tasks.update(
                    position(old(self)@.tasks, id)->0,
                    TaskView {
                        priority,
                        ..old(self)@.tasks[position(old(self)@.tasks, id)->0]
                    },
                ),
                ..old(self)@
            }),
            !r ==> final(self)@ == old(self)@,
            old(self)@.in_sync() ==> final(self)@.in_sync(),
            old(self)@.bounded() ==> final(self)@.bounded(),
    {
        match self.find(id) {
            None => false,
            Some(p) => {
                let ghost q = self@;
                self.tasks[p].priority = priority;
                proof {
                    let t = TaskView { priority, ..q.tasks[p as int] };
                    assert(task_views(self.tasks@) =~= q.tasks.update(p as int, t));
                    lemma_count_update(q.tasks, p as int, t, DownloadStatus::Pending);
                    lemma_count_update(q.tasks, p as int, t, DownloadStatus::Downloading);
                }
                true
            },
        }
    }

    /// Moves the first task with the given id to the front.
    pub fn move_to_top(&mut self, id: u128) -> (r: bool)
        ensures
            r == (position(old(self)@.tasks, id) is Some),
            final(self)@ == (QueueView {
                tasks: moved_to_top(old(self)@.tasks, id),
                ..old(self)@
            }),
            old(self)@.in_sync() ==> final(self)@.in_sync(),
            old(self)@.bounded() ==> final(self)@.bounded(),
    {
        proof {
            law_move_to_top_permutes(self@.tasks, id, DownloadStatus::Pending);
            law_move_to_top_permutes(self@.tasks, id, DownloadStatus::Downloading);
        }
        match self.find(id) {
            None => false,
            Some(p) => {
                let ghost q = self@;
                let t = self.tasks.remove(p);
                self.tasks.insert(0, t);
                assert(task_views(self.tasks@) =~= q.tasks.remove(p as int).insert(
                    0,
                    q.tasks[p as int],
                ));
                true
            },
        }
    }

    /// Moves the first task with the given id to the back.
    pub fn move_to_bottom(&mut self, id: u128) -> (r: bool)
        ensures
            r == (position(old(self)@.tasks, id) is Some),
            final(self)@ == (QueueView {
                tasks: moved_to_bottom(old(self)@.tasks, id),
                ..old(self)@
            }),
            old(self)@.in_sync() ==> final(self)@.in_sync(),
            old(self)@.bounded() ==> final(self)@.bounded(),
    {
        proof {
            law_move_to_bottom_permutes(self@.tasks, id, DownloadStatus::Pending);
            law_move_to_bottom_permutes(self@.tasks, id, DownloadStatus::Downloading);
        }
        match self.find(id) {
            None => false,
            Some(p) => {
                let ghost q = self@;
                let t = self.tasks.remove(p);
                self.tasks.push(t);
                assert(task_views(self.tasks@) =~= q.tasks.remove(p as int).push(
                    q.tasks[p as int],
                ));
                true
            },
        }
    }

    /// Moves a task to just before another. Refused where either is missing or
    /// both are the same.
    pub fn move_before(&mut self, id: u128, before_id: u128) -> (r: bool)
        ensures
            r == can_move_before(old(self)@.tasks, id, before_id),
            final(self)@ == (QueueView {
                tasks: moved_before(old(self)@.tasks, id, before_id),
                ..old(self)@
            }),
            old(self)@.in_sync() ==> final(self)@.in_sync(),
            old(self)@.bounded() ==> final(self)@.bounded(),
    {
        proof {
            law_move_before_permutes(self@.tasks, id, before_id, DownloadStatus::Pending);
            law_move_before_permutes(self@.tasks, id, before_id, DownloadStatus::Downloading);
        }
        let from_pos = self.find(id);
        let to_pos = self.find(before_id);
        match (from_pos, to_pos) {
            (Some(from), Some(to)) => {
                if from == to {
                    return false;
                }
                let ghost q = self@;
                let t = self.tasks.remove(from);
                let new_to: usize = if from < to {
                    to - 1
                } else {
                    to
                };
                self.tasks.insert(new_to, t);
                assert(task_views(self.tasks@) =~= q.tasks.remove(from as int).insert(
                    new_to as int,
                    q.tasks[from as int],
                ));
                true
            },
            _ => false,
        }
    }

    /// How many tasks run, by the running counts.
    pub fn downloading_count(&self) -> (r: usize)
        ensures
            r == self@.counts.downloading,
    {
        self.counts.downloading
    }

    /// How many tasks wait, by the running counts.
    pub fn pending_count(&self) -> (r: usize)
        ensures
            r == self@.counts.pending,
    {
        self.counts.pending
    }
}

/// The next download is one that waits, and none that waits has a higher priority.
pub proof fn law_next_pending(q: &FolderQueue, r: Option<DownloadTask>, j: int)
    requires
        call_ensures(FolderQueue::next_pending, (q,), r),
        r is Some,
        0 <= j < q@.tasks.len(),
        q@.tasks[j].status == DownloadStatus::Pending,
    ensures
        r->0@.status == DownloadStatus::Pending,
        q@.tasks.contains(r->0@),
        r->0@.priority >= q@.tasks[j].priority,
{
    let i = choose|i: int| #[trigger] is_next_pending(q@.tasks, i) && r->0@ == q@.tasks[i];
    law_next_has_the_highest_priority(q@.tasks, i, j);
    assert(q@.tasks.contains(q@.tasks[i]));
}

} // verus!

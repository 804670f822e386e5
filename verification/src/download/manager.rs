//! All downloads: the queue of every folder, what runs, what is over, and the
//! rules by which downloads start, are retried, and stop.

use vstd::prelude::*;
use vstd::string::*;
use vstd::arithmetic::power2::{lemma_pow2_unfold, pow2};
use super::circuit_breaker::{
    domain_of, extract_domain, law_one_test_at_a_time, new_breaker, BreakerView, CircuitBreaker,
    CircuitState,
};
use super::folder_queue::{
    can_move_before, count_status, law_get_after_update, lemma_count_remove, lemma_count_update, lemma_position,
    moved_before, moved_to_bottom, moved_to_top, position, queue_added, queue_removed,
    queue_updated, task_views, FolderQueue, FolderTaskCounts, QueueView,
};
use super::history::{history_added, history_removed, DownloadHistory};
use super::task::{task_logged, DownloadStatus, DownloadTask, LogLevel, TaskView};
use crate::app::config::Config;
use crate::app::settings::folder_of;
use crate::clock::{current_moment, valid_instant, Moment};
use crate::file::naming::{sanitize_filename, sanitized};
use crate::file::path::SavePath;
use crate::ids::{format_uuid, uuid_text, IdSet};
use crate::script::events::{
    BeforeRequestContext, BeforeRequestView, ErrorContext, ErrorContextView,
};
use crate::text::{clone_opt, decimal, decimal_u64, opt_text, text_eq, texts};
use crate::text_map::{lemma_map_of_len, TextMap};

verus! {

/// The queue of a folder, under the key of the folder.
pub struct FolderSlot {
    pub key: String,
    pub queue: FolderQueue,
}

/// All downloads.
pub struct DownloadManager {
    slots: Vec<FolderSlot>,
    active: IdSet,
    active_folders: TextMap<()>,
    max_concurrent: usize,
    permits: usize,
    max_concurrent_per_folder: usize,
    parallel_folder_count: usize,
    max_retries: u32,
    retry_delay_secs: u64,
    history: DownloadHistory,
    circuit_breaker: CircuitBreaker,
}

/// What the manager knows.
#[verifier::ext_equal]
pub struct ManagerView {
    /// The queues by folder, oldest folder first.
    pub folders: Seq<(Seq<char>, QueueView)>,
    /// The downloads that were started and not stopped.
    pub active: Set<u128>,
    /// The folders that downloads may run in.
    pub active_folders: Set<Seq<char>>,
    /// The limit that the user has set.
    pub max_concurrent: usize,
    /// How many downloads may run at once.
    pub permits: usize,
    /// How many downloads of one folder may run at once.
    pub per_folder: usize,
    /// How many folders may be active at once.
    pub parallel: usize,
    pub max_retries: u32,
    pub retry_delay: u64,
    pub history: Seq<TaskView>,
    pub breaker: BreakerView,
}

/// What the queues hold.
pub open spec fn slot_views(slots: Seq<FolderSlot>) -> Seq<(Seq<char>, QueueView)> {
    slots.map_values(|s: FolderSlot| (s.key@, s.queue@))
}

impl View for DownloadManager {
    type V = ManagerView;

    closed spec fn view(&self) -> ManagerView {
        ManagerView {
            folders: slot_views(self.slots@),
            active: self.active@,
            active_folders: self.active_folders@.dom(),
            max_concurrent: self.max_concurrent,
            permits: self.permits,
            per_folder: self.max_concurrent_per_folder,
            parallel: self.parallel_folder_count,
            max_retries: self.max_retries,
            retry_delay: self.retry_delay_secs,
            history: self.history@,
            breaker: self.circuit_breaker@,
        }
    }
}

// ---------------------------------------------------------------------------
// Folders and tasks
// ---------------------------------------------------------------------------

/// The place of the queue under the given key, from place `i` on.
pub open spec fn folder_from(fs: Seq<(Seq<char>, QueueView)>, key: Seq<char>, i: int) -> Option<int>
    decreases fs.len() - i,
{
    if i >= fs.len() {
        None
    } else if fs[i].0 == key {
        Some(i)
    } else {
        folder_from(fs, key, i + 1)
    }
}

/// The place of the queue under the given key.
pub open spec fn folder_at(fs: Seq<(Seq<char>, QueueView)>, key: Seq<char>) -> Option<int> {
    folder_from(fs, key, 0)
}

/// What `folder_from` finds.
pub proof fn lemma_folder_from(fs: Seq<(Seq<char>, QueueView)>, key: Seq<char>, i: int)
    requires
        0 <= i,
    ensures
        match folder_from(fs, key, i) {
            Some(p) => i <= p < fs.len() && fs[p].0 == key && forall|j: int|
                i <= j < p ==> (#[trigger] fs[j]).0 != key,
            None => forall|j: int| i <= j < fs.len() ==> (#[trigger] fs[j]).0 != key,
        },
    decreases fs.len() - i,
{
    if i < fs.len() && fs[i].0 != key {
        lemma_folder_from(fs, key, i + 1);
    }
}

/// The first folder, from place `i` on, whose queue holds the given task.
pub open spec fn holder_from(fs: Seq<(Seq<char>, QueueView)>, id: u128, i: int) -> Option<int>
    decreases fs.len() - i,
{
    if i >= fs.len() {
        None
    } else if position(fs[i].1.tasks, id) is Some {
        Some(i)
    } else {
        holder_from(fs, id, i + 1)
    }
}

/// The first folder whose queue holds the given task.
pub open spec fn holder(fs: Seq<(Seq<char>, QueueView)>, id: u128) -> Option<int> {
    holder_from(fs, id, 0)
}

/// What `holder_from` finds.
pub proof fn lemma_holder_from(fs: Seq<(Seq<char>, QueueView)>, id: u128, i: int)
    requires
        0 <= i,
    ensures
        match holder_from(fs, id, i) {
            Some(p) => i <= p < fs.len() && position(fs[p].1.tasks, id) is Some && forall|j: int|
                i <= j < p ==> position((#[trigger] fs[j]).1.tasks, id) is None,
            None => forall|j: int|
                i <= j < fs.len() ==> position((#[trigger] fs[j]).1.tasks, id) is None,
        },
    decreases fs.len() - i,
{
    if i < fs.len() && position(fs[i].1.tasks, id) is None {
        lemma_holder_from(fs, id, i + 1);
    }
}

/// The task with the given id.
pub open spec fn find_task(fs: Seq<(Seq<char>, QueueView)>, id: u128) -> Option<TaskView> {
    match holder(fs, id) {
        Some(i) => Some(fs[i].1.tasks[position(fs[i].1.tasks, id)->0]),
        None => None,
    }
}

/// The tasks of all folders, one folder after another.
pub open spec fn all_tasks(fs: Seq<(Seq<char>, QueueView)>) -> Seq<TaskView>
    decreases fs.len(),
{
    if fs.len() == 0 {
        Seq::empty()
    } else {
        all_tasks(fs.drop_last()) + fs.last().1.tasks
    }
}

/// An empty queue for a folder.
pub open spec fn empty_queue(key: Seq<char>, limit: usize) -> QueueView {
    QueueView {
        folder_id: key,
        tasks: Seq::empty(),
        max_concurrent: limit,
        counts: FolderTaskCounts { pending: 0, downloading: 0 },
    }
}

/// The folders with one under the given key among them: an empty one is added
/// if there is none.
pub open spec fn with_folder(
    fs: Seq<(Seq<char>, QueueView)>,
    key: Seq<char>,
    limit: usize,
) -> Seq<(Seq<char>, QueueView)> {
    if folder_at(fs, key) is Some {
        fs
    } else {
        fs.push((key, empty_queue(key, limit)))
    }
}

/// The folders with another queue at place `i`.
pub open spec fn with_queue(
    fs: Seq<(Seq<char>, QueueView)>,
    i: int,
    q: QueueView,
) -> Seq<(Seq<char>, QueueView)> {
    fs.update(i, (fs[i].0, q))
}

/// The folders with a task added to the folder that it names, which is created
/// if need be.
pub open spec fn task_added(
    fs: Seq<(Seq<char>, QueueView)>,
    t: TaskView,
    limit: usize,
) -> Seq<(Seq<char>, QueueView)> {
    let gs = with_folder(fs, t.folder_id, limit);
    let i = folder_at(gs, t.folder_id)->0;
    with_queue(gs, i, queue_added(gs[i].1, t))
}

/// The folders with a task replaced in the queue under the given key.
pub open spec fn task_updated(
    fs: Seq<(Seq<char>, QueueView)>,
    key: Seq<char>,
    t: TaskView,
) -> Seq<(Seq<char>, QueueView)> {
    match folder_at(fs, key) {
        Some(i) => with_queue(fs, i, queue_updated(fs[i].1, t)),
        None => fs,
    }
}

/// The folders with the given task taken out of the first queue that holds it.
pub open spec fn task_removed(
    fs: Seq<(Seq<char>, QueueView)>,
    id: u128,
) -> Seq<(Seq<char>, QueueView)> {
    match holder(fs, id) {
        Some(i) => with_queue(fs, i, queue_removed(fs[i].1, id)),
        None => fs,
    }
}

/// Whether a folder's counts show waiting or running tasks.
pub open spec fn folder_busy(fs: Seq<(Seq<char>, QueueView)>, key: Seq<char>) -> bool {
    match folder_at(fs, key) {
        Some(i) => fs[i].1.counts.pending > 0 || fs[i].1.counts.downloading > 0,
        None => false,
    }
}

/// No two folders share a key.
pub open spec fn folder_keys_distinct(fs: Seq<(Seq<char>, QueueView)>) -> bool {
    forall|i: int, j: int| #![trigger fs[i], fs[j]] 0 <= i < j < fs.len() ==> fs[i].0 != fs[j].0
}

impl ManagerView {
    /// The counts of every folder are those of its tasks.
    pub open spec fn in_sync(self) -> bool {
        forall|i: int|
            0 <= i < self.folders.len() ==> (#[trigger] self.folders[i]).1.in_sync()
    }

    /// Every folder has a key of its own, and counts no more tasks than it has.
    pub open spec fn wf(self) -> bool {
        &&& folder_keys_distinct(self.folders)
        &&& forall|i: int|
            0 <= i < self.folders.len() ==> (#[trigger] self.folders[i]).1.bounded()
    }
}

/// Another queue with bounded counts keeps the folders in order.
proof fn lemma_with_queue(m: ManagerView, i: int, q: QueueView)
    requires
        m.wf(),
        0 <= i < m.folders.len(),
        q.bounded(),
    ensures
        (ManagerView { folders: with_queue(m.folders, i, q), ..m }).wf(),
        m.in_sync() && q.in_sync() ==> (ManagerView {
            folders: with_queue(m.folders, i, q),
            ..m
        }).in_sync(),
{
    let gs = with_queue(m.folders, i, q);
    if m.in_sync() && q.in_sync() {
        assert forall|a: int| 0 <= a < gs.len() implies (#[trigger] gs[a]).1.in_sync() by {
            if a != i {
                assert(gs[a] == m.folders[a]);
            }
        }
    }
    assert forall|a: int, b: int| #![trigger gs[a], gs[b]] 0 <= a < b < gs.len() implies gs[a].0
        != gs[b].0 by {
        assert(gs[a].0 == m.folders[a].0);
        assert(gs[b].0 == m.folders[b].0);
    }
    assert forall|a: int| 0 <= a < gs.len() implies (#[trigger] gs[a]).1.bounded() by {
        if a != i {
            assert(gs[a] == m.folders[a]);
        }
    }
}

// ---------------------------------------------------------------------------
// Limits
// ---------------------------------------------------------------------------

/// How many downloads of one folder may run at once, so that all active folders
/// together stay within the limit.
pub open spec fn adjusted_limit(max: usize, per_folder: usize, folders: usize) -> int {
    if per_folder * folders > max {
        max as int / (if folders == 0 {
            1
        } else {
            folders as int
        })
    } else {
        per_folder as int
    }
}

/// The limit for one folder, times the number of active folders, is within the
/// limit for all; it is never raised.
pub proof fn law_limits_hold(max: usize, per_folder: usize, folders: usize)
    ensures
        0 <= adjusted_limit(max, per_folder, folders) <= per_folder,
        adjusted_limit(max, per_folder, folders) * folders <= max,
{
    if per_folder * folders > max {
        let m = max as int;
        let f = folders as int;
        let p = per_folder as int;
        assert(f > 0) by (nonlinear_arith)
            requires
                p * f > m,
                m >= 0,
                p >= 0,
                f >= 0,
        ;
        assert((m / f) * f <= m) by (nonlinear_arith)
            requires
                f > 0,
                m >= 0,
        ;
        assert(m / f <= p) by (nonlinear_arith)
            requires
                p * f > m,
                f > 0,
                m >= 0,
                p >= 0,
        ;
        assert(m / f >= 0) by (nonlinear_arith)
            requires
                f > 0,
                m >= 0,
        ;
    }
}

// ---------------------------------------------------------------------------
// Starting
// ---------------------------------------------------------------------------

/// What came of the wish to start a download.
pub enum StartOutcome {
    /// There is no such task.
    NotFound,
    /// It runs already.
    Running,
    /// Requests to its domain are blocked.
    Blocked(String),
    /// No more folders may be active.
    FolderLimit { folder_id: String, active: usize, limit: usize },
    /// It may start.
    Ready(DownloadTask),
}

/// What came of the wish to start a download, as values.
pub enum StartView {
    NotFound,
    Running,
    Blocked(Seq<char>),
    FolderLimit { folder_id: Seq<char>, active: nat, limit: usize },
    Ready(TaskView),
}

impl View for StartOutcome {
    type V = StartView;

    open spec fn view(&self) -> StartView {
        match self {
            StartOutcome::NotFound => StartView::NotFound,
            StartOutcome::Running => StartView::Running,
            StartOutcome::Blocked(d) => StartView::Blocked(d@),
            StartOutcome::FolderLimit { folder_id, active, limit } => StartView::FolderLimit {
                folder_id: folder_id@,
                active: *active as nat,
                limit: *limit,
            },
            StartOutcome::Ready(t) => StartView::Ready(t@),
        }
    }
}

/// Why a download cannot start, in words; none where it runs or may start.
pub open spec fn start_error(s: StartView) -> Option<Seq<char>> {
    match s {
        StartView::NotFound => Some("Task not found"@),
        StartView::Running => None,
        StartView::Blocked(d) => Some(
            "Circuit breaker open for domain '"@ + d + "'. Too many consecutive failures."@,
        ),
        StartView::FolderLimit { folder_id, active, limit } => Some(
            "Cannot start download: folder '"@ + folder_id + "' cannot be activated ("@ + decimal(
                active,
            ) + " folders already active, max active folders: "@ + decimal(limit as nat) + ")"@,
        ),
        StartView::Ready(_) => None,
    }
}

/// Whether a folder is active or may be.
pub open spec fn can_activate(m: ManagerView, folder: Seq<char>) -> bool {
    m.active_folders.contains(folder) || m.active_folders.len() < m.parallel
}

/// The manager after it was asked to start a download whose URL has the given
/// domain, at the moment `now` of the breaker's clock, and what came of it.
pub open spec fn start_begun(
    m: ManagerView,
    id: u128,
    domain: Option<Seq<char>>,
    now: u128,
) -> (ManagerView, StartView) {
    match find_task(m.folders, id) {
        None => (m, StartView::NotFound),
        Some(t) => if t.status == DownloadStatus::Downloading {
            (m, StartView::Running)
        } else {
            let breaker = match domain {
                Some(d) => m.breaker.checked(d, now),
                None => m.breaker,
            };
            let n = ManagerView { breaker, ..m };
            if domain is Some && breaker.blocks(domain->0) {
                (n, StartView::Blocked(domain->0))
            } else if can_activate(n, t.folder_id) {
                (
                    ManagerView {
                        breaker: match domain {
                            Some(d) => breaker.passed(d, id),
                            None => breaker,
                        },
                        active_folders: n.active_folders.insert(t.folder_id),
                        folders: with_folder(n.folders, t.folder_id, n.per_folder),
                        ..n
                    },
                    StartView::Ready(t),
                )
            } else {
                (
                    n,
                    StartView::FolderLimit {
                        folder_id: t.folder_id,
                        active: n.active_folders.len(),
                        limit: n.parallel,
                    },
                )
            }
        },
    }
}

/// No more folders are active after a start than may be, if no more were
/// before.
pub proof fn law_active_folders_bounded(
    m: ManagerView,
    id: u128,
    domain: Option<Seq<char>>,
    now: u128,
)
    requires
        m.active_folders.finite(),
        m.active_folders.len() <= m.parallel,
    ensures
        start_begun(m, id, domain, now).0.active_folders.len() <= m.parallel,
{
}

/// A download of a blocked domain does not start, and nothing but what is known
/// of the domain changes.
pub proof fn law_blocked_domains_do_not_start(
    m: ManagerView,
    id: u128,
    domain: Seq<char>,
    now: u128,
)
    requires
        find_task(m.folders, id) is Some,
        find_task(m.folders, id)->0.status != DownloadStatus::Downloading,
        m.breaker.checked(domain, now).blocks(domain),
    ensures
        start_begun(m, id, Some(domain), now).1 == StartView::Blocked(domain),
        start_begun(m, id, Some(domain), now).0 == (ManagerView {
            breaker: m.breaker.checked(domain, now),
            ..m
        }),
{
}

/// A download that starts behind a half open circuit is the only one: until it
/// succeeds, fails or stops, no other of the domain starts. Once it is paused,
/// another may.
pub proof fn law_one_download_tests_a_domain(
    m: ManagerView,
    id: u128,
    domain: Seq<char>,
    now: u128,
    other: u128,
    later: u128,
)
    requires
        start_begun(m, id, Some(domain), now).1 is Ready,
        m.breaker.checked(domain, now).circuit(domain).state == CircuitState::HalfOpen,
        find_task(start_begun(m, id, Some(domain), now).0.folders, other) is Some,
        find_task(start_begun(m, id, Some(domain), now).0.folders, other)->0.status
            != DownloadStatus::Downloading,
    ensures
        start_begun(start_begun(m, id, Some(domain), now).0, other, Some(domain), later).1
            == StartView::Blocked(domain),
        !paused(start_begun(m, id, Some(domain), now).0, id).breaker.blocks(domain),
{
    law_one_test_at_a_time(m.breaker.checked(domain, now), domain, id, other, later);
}

/// What scripts are told before the first request of a download.
pub open spec fn before_request(t: TaskView) -> BeforeRequestView {
    BeforeRequestView {
        url: t.url,
        headers: t.headers,
        user_agent: t.user_agent,
        download_id: Some(uuid_text(t.id)),
    }
}

/// A task with what the scripts made of its first request.
pub open spec fn task_hooked(t: TaskView, hook: Option<BeforeRequestView>, now: Moment) -> TaskView {
    match hook {
        Some(c) => task_logged(
            TaskView { url: c.url, headers: c.headers, user_agent: c.user_agent, ..t },
            now,
            LogLevel::Info,
            "beforeRequest hook executed"@,
        ),
        None => t,
    }
}

/// A task that was started at the moment `now`.
pub open spec fn task_launched(t: TaskView, hook: Option<BeforeRequestView>, now: Moment) -> TaskView {
    let h = task_hooked(t, hook, now);
    task_logged(
        TaskView {
            status: DownloadStatus::Downloading,
            started_at: Some(now),
            error_message: None,
            ..h
        },
        now,
        LogLevel::Info,
        "Starting download: "@ + h.url,
    )
}

/// Whether a task was interrupted and is not new.
pub open spec fn was_interrupted(t: TaskView) -> bool {
    t.status == DownloadStatus::Paused || t.status == DownloadStatus::Error
}

/// The view of an optional context.
pub open spec fn opt_before(o: Option<BeforeRequestContext>) -> Option<BeforeRequestView> {
    match o {
        Some(c) => Some(c@),
        None => None,
    }
}

// ---------------------------------------------------------------------------
// Failing and retrying
// ---------------------------------------------------------------------------

/// A task after an attempt failed, before it is decided whether to retry.
pub open spec fn task_failed(t: TaskView, error: Seq<char>, now: Moment) -> TaskView {
    task_logged(
        TaskView {
            error_message: Some(error),
            retry_count: (t.retry_count + 1) as u32,
            ..t
        },
        now,
        LogLevel::Error,
        "Download failed (attempt "@ + decimal((t.retry_count + 1) as nat) + "): "@ + error,
    )
}

/// How many seconds to wait before the next attempt, after so many failed: the
/// delay doubles with every failure after the first.
pub open spec fn backoff(delay: u64, failures: nat) -> int {
    delay * pow2((failures - 1) as nat)
}

/// The delay starts at its base and doubles with every further failure.
pub proof fn law_backoff_doubles(delay: u64, failures: nat)
    requires
        failures >= 1,
    ensures
        backoff(delay, 1) == delay,
        backoff(delay, failures + 1) == 2 * backoff(delay, failures),
{
    vstd::arithmetic::power2::lemma2_to64();
    lemma_pow2_unfold(failures);
    let p = pow2((failures - 1) as nat) as int;
    let d = delay as int;
    assert(pow2((1 - 1) as nat) == 1);
    assert(d * 1 == d);
    assert(d * (2 * p) == 2 * (d * p)) by (nonlinear_arith);
}

/// A task that waits for another attempt.
pub open spec fn task_waiting(t: TaskView, seconds: int, now: Moment) -> TaskView {
    task_logged(
        TaskView { status: DownloadStatus::Paused, ..t },
        now,
        LogLevel::Info,
        "Retrying in "@ + decimal(seconds as nat) + " seconds..."@,
    )
}

/// A task that has failed for good.
pub open spec fn task_dead(t: TaskView, max_retries: u32, now: Moment) -> TaskView {
    task_logged(
        TaskView { status: DownloadStatus::Error, ..t },
        now,
        LogLevel::Error,
        "Max retries ("@ + decimal(max_retries as nat) + ") exceeded"@,
    )
}

/// What scripts are told of a download that has failed for good.
pub open spec fn failure_context(t: TaskView) -> ErrorContextView {
    ErrorContextView {
        url: t.url,
        filename: Some(t.filename),
        error: match t.error_message {
            Some(e) => e,
            None => "Unknown error"@,
        },
        retry_count: t.retry_count,
        status_code: t.last_status_code,
    }
}

/// What is to be done after an attempt has failed.
pub enum RetryDecision {
    /// Wait so many seconds and try again.
    Retry { seconds: u64 },
    /// Give up, and tell the scripts.
    GiveUp(ErrorContext),
}

/// What is to be done after an attempt has failed, as values.
pub enum RetryView {
    Retry { seconds: u64 },
    GiveUp(ErrorContextView),
}

impl View for RetryDecision {
    type V = RetryView;

    open spec fn view(&self) -> RetryView {
        match self {
            RetryDecision::Retry { seconds } => RetryView::Retry { seconds: *seconds },
            RetryDecision::GiveUp(c) => RetryView::GiveUp(c@),
        }
    }
}

/// What an attempt that failed leads to: the manager, the task, and what is to
/// be done. The task is stored in the queue under `key`; a failure for good is
/// recorded for the domain at the moment `tick` of the breaker's clock.
pub open spec fn attempt_failed(
    m: ManagerView,
    key: Seq<char>,
    t: TaskView,
    error: Seq<char>,
    domain: Option<Seq<char>>,
    now: Moment,
    tick: u128,
) -> (ManagerView, TaskView, RetryView) {
    let f = task_failed(t, error, now);
    if f.retry_count < m.max_retries {
        let seconds = backoff(m.retry_delay, f.retry_count as nat);
        let w = task_waiting(f, seconds, now);
        (
            ManagerView { folders: task_updated(m.folders, key, w), ..m },
            w,
            RetryView::Retry { seconds: seconds as u64 },
        )
    } else {
        let d = task_dead(f, m.max_retries, now);
        (
            ManagerView {
                folders: task_updated(m.folders, key, d),
                breaker: (match domain {
                    Some(x) => m.breaker.failed(x, tick),
                    None => m.breaker,
                }).released(t.id),
                ..m
            },
            d,
            RetryView::GiveUp(failure_context(d)),
        )
    }
}

/// A download is tried `max_retries` times, and once where that is zero: it is
/// retried while fewer attempts have failed, and given up then.
pub proof fn law_retries_are_bounded(
    m: ManagerView,
    key: Seq<char>,
    t: TaskView,
    error: Seq<char>,
    domain: Option<Seq<char>>,
    now: Moment,
    tick: u128,
)
    requires
        t.retry_count < u32::MAX,
    ensures
        attempt_failed(m, key, t, error, domain, now, tick).1.retry_count == t.retry_count + 1,
        attempt_failed(m, key, t, error, domain, now, tick).2 is Retry <==> t.retry_count + 1
            < m.max_retries,
        attempt_failed(m, key, t, error, domain, now, tick).2 is GiveUp ==> attempt_failed(
            m,
            key,
            t,
            error,
            domain,
            now,
            tick,
        ).1.status == DownloadStatus::Error,
{
}

// ---------------------------------------------------------------------------
// Stopping
// ---------------------------------------------------------------------------

/// The manager after a download was paused.
pub open spec fn paused(m: ManagerView, id: u128) -> ManagerView {
    ManagerView {
        folders: match find_task(m.folders, id) {
            None => m.folders,
            Some(t) => task_updated(
                m.folders,
                t.folder_id,
                TaskView { status: DownloadStatus::Paused, ..t },
            ),
        },
        active: m.active.remove(id),
        breaker: m.breaker.released(id),
        ..m
    }
}

/// The manager after several downloads were paused, one after another.
pub open spec fn all_paused(m: ManagerView, ids: Seq<u128>) -> ManagerView
    decreases ids.len(),
{
    if ids.len() == 0 {
        m
    } else {
        paused(all_paused(m, ids.drop_last()), ids.last())
    }
}

/// The ids of the tasks with the given status, in order.
pub open spec fn ids_with_status(ts: Seq<TaskView>, status: DownloadStatus) -> Seq<u128>
    decreases ts.len(),
{
    if ts.len() == 0 {
        Seq::empty()
    } else if ts.last().status == status {
        ids_with_status(ts.drop_last(), status).push(ts.last().id)
    } else {
        ids_with_status(ts.drop_last(), status)
    }
}

/// The ids of the tasks that were interrupted, in order.
pub open spec fn interrupted_ids(ts: Seq<TaskView>) -> Seq<u128>
    decreases ts.len(),
{
    if ts.len() == 0 {
        Seq::empty()
    } else if was_interrupted(ts.last()) {
        interrupted_ids(ts.drop_last()).push(ts.last().id)
    } else {
        interrupted_ids(ts.drop_last())
    }
}

/// A queue after every task in the list was stored in it again under another
/// folder.
pub open spec fn refiled(q: QueueView, ts: Seq<TaskView>, folder: Seq<char>) -> QueueView
    decreases ts.len(),
{
    if ts.len() == 0 {
        q
    } else {
        queue_updated(
            refiled(q, ts.drop_last(), folder),
            TaskView { folder_id: folder, ..ts.last() },
        )
    }
}

/// The folders with one put under another key, its tasks along with it. A
/// folder that was under the new key is lost.
pub open spec fn folder_renamed(
    fs: Seq<(Seq<char>, QueueView)>,
    old_key: Seq<char>,
    new_key: Seq<char>,
) -> Seq<(Seq<char>, QueueView)> {
    match folder_at(fs, old_key) {
        None => fs,
        Some(i) => {
            let q = refiled(fs[i].1, fs[i].1.tasks, new_key);
            let rest = fs.remove(i);
            match folder_at(rest, new_key) {
                Some(j) => rest.update(j, (new_key, q)),
                None => rest.push((new_key, q)),
            }
        },
    }
}

/// A task from the history as it is queued again.
pub open spec fn task_revived(t: TaskView, folder: Option<Seq<char>>) -> TaskView {
    TaskView {
        status: DownloadStatus::Pending,
        downloaded: 0,
        error_message: None,
        logs: Seq::empty(),
        retry_count: 0,
        started_at: None,
        completed_at: None,
        folder_id: match folder {
            Some(f) => f,
            None => t.folder_id,
        },
        ..t
    }
}

/// The folders with several tasks added, one after another.
pub open spec fn tasks_added(
    fs: Seq<(Seq<char>, QueueView)>,
    ts: Seq<TaskView>,
    limit: usize,
) -> Seq<(Seq<char>, QueueView)>
    decreases ts.len(),
{
    if ts.len() == 0 {
        fs
    } else {
        task_added(tasks_added(fs, ts.drop_last(), limit), ts.last(), limit)
    }
}

/// The folders with the priority of a task changed in the first queue that
/// holds it.
pub open spec fn priority_set(
    fs: Seq<(Seq<char>, QueueView)>,
    id: u128,
    priority: i32,
) -> Seq<(Seq<char>, QueueView)> {
    match holder(fs, id) {
        Some(i) => {
            let ts = fs[i].1.tasks;
            let p = position(ts, id)->0;
            with_queue(
                fs,
                i,
                QueueView { tasks: ts.update(p, TaskView { priority, ..ts[p] }), ..fs[i].1 },
            )
        },
        None => fs,
    }
}

/// The folders with the tasks of one of them in another order.
pub open spec fn reordered(
    fs: Seq<(Seq<char>, QueueView)>,
    i: int,
    ts: Seq<TaskView>,
) -> Seq<(Seq<char>, QueueView)> {
    with_queue(fs, i, QueueView { tasks: ts, ..fs[i].1 })
}

/// The first folder, from place `i` on, in which a task can be moved before
/// another.
pub open spec fn mover_from(
    fs: Seq<(Seq<char>, QueueView)>,
    id: u128,
    before: u128,
    i: int,
) -> Option<int>
    decreases fs.len() - i,
{
    if i >= fs.len() {
        None
    } else if can_move_before(fs[i].1.tasks, id, before) {
        Some(i)
    } else {
        mover_from(fs, id, before, i + 1)
    }
}

// ---------------------------------------------------------------------------
// Laws
// ---------------------------------------------------------------------------

/// A task that was added under a new id is found.
pub proof fn law_added_task_is_found(fs: Seq<(Seq<char>, QueueView)>, t: TaskView, limit: usize)
    requires
        holder(fs, t.id) is None,
    ensures
        find_task(task_added(fs, t, limit), t.id) == Some(t),
{
    let gs = with_folder(fs, t.folder_id, limit);
    lemma_folder_from(fs, t.folder_id, 0);
    lemma_folder_from(gs, t.folder_id, 0);
    lemma_holder_from(fs, t.id, 0);
    if folder_at(fs, t.folder_id) is None {
        assert(gs[fs.len() as int].0 == t.folder_id);
    }
    let i = folder_at(gs, t.folder_id)->0;
    let q = gs[i].1;
    assert(position(q.tasks, t.id) is None) by {
        if i < fs.len() {
            assert(gs[i] == fs[i]);
        } else {
            lemma_position(q.tasks, t.id);
        }
    }
    let hs = task_added(fs, t, limit);
    lemma_position(q.tasks, t.id);
    lemma_position(hs[i].1.tasks, t.id);
    assert(hs[i].1.tasks == q.tasks.push(t));
    assert(hs[i].1.tasks[q.tasks.len() as int] == t);
    assert forall|j: int| 0 <= j < q.tasks.len() implies (#[trigger] hs[i].1.tasks[j]).id != t.id by {
        assert(hs[i].1.tasks[j] == q.tasks[j]);
    }
    lemma_holder_from(hs, t.id, 0);
    assert forall|j: int| 0 <= j < i implies position((#[trigger] hs[j]).1.tasks, t.id) is None by {
        assert(hs[j] == gs[j]);
        if j < fs.len() {
            assert(gs[j] == fs[j]);
        }
    }
}

/// Pausing changes no queue but the one of the task's folder, and takes the
/// download out of those that run.
pub proof fn law_pause_is_local(m: ManagerView, id: u128, i: int)
    requires
        0 <= i < m.folders.len(),
        find_task(m.folders, id) is Some,
        m.folders[i].0 != find_task(m.folders, id)->0.folder_id,
    ensures
        paused(m, id).folders.len() == m.folders.len(),
        paused(m, id).folders[i] == m.folders[i],
        !paused(m, id).active.contains(id),
{
    lemma_folder_from(m.folders, find_task(m.folders, id)->0.folder_id, 0);
}

/// Pausing a download that runs in its folder counts it out once: the count
/// stays that of the tasks that run, every other task is as before, and the
/// download is found paused.
pub proof fn law_pause_counts_once(m: ManagerView, id: u128)
    requires
        m.in_sync(),
        find_task(m.folders, id) is Some,
        find_task(m.folders, id)->0.status == DownloadStatus::Downloading,
        folder_at(m.folders, find_task(m.folders, id)->0.folder_id) == holder(m.folders, id),
    ensures
        ({
            let t = find_task(m.folders, id)->0;
            let i = holder(m.folders, id)->0;
            let before = m.folders[i].1;
            let after = paused(m, id).folders[i].1;
            &&& find_task(paused(m, id).folders, id) == Some(
                TaskView { status: DownloadStatus::Paused, ..t },
            )
            &&& after.counts.downloading == before.counts.downloading - 1
            &&& after.counts.pending == before.counts.pending
            &&& after.in_sync()
            &&& after.tasks.len() == before.tasks.len()
            &&& forall|k: int|
                0 <= k < before.tasks.len() && k != position(before.tasks, id)->0
                    ==> #[trigger] after.tasks[k] == before.tasks[k]
        }),
{
    let t = find_task(m.folders, id)->0;
    let p = TaskView { status: DownloadStatus::Paused, ..t };
    lemma_holder_from(m.folders, id, 0);
    let i = holder(m.folders, id)->0;
    let q = m.folders[i].1;
    lemma_position(q.tasks, id);
    let k = position(q.tasks, id)->0;
    law_get_after_update(q, p);
    lemma_count_update(q.tasks, k, p, DownloadStatus::Downloading);
    lemma_count_update(q.tasks, k, p, DownloadStatus::Pending);
    let gs = paused(m, id).folders;
    assert(gs[i].1 == queue_updated(q, p));
    lemma_holder_from(gs, id, 0);
    assert forall|j: int| 0 <= j < i implies position((#[trigger] gs[j]).1.tasks, id) is None by {
        assert(gs[j] == m.folders[j]);
    }
}

/// The end of a download leaves a folder active in which a task waits or runs.
pub proof fn law_busy_folders_stay_active(m: ManagerView, key: Seq<char>, k: int)
    requires
        m.in_sync(),
        folder_at(m.folders, key) is Some,
        0 <= k < m.folders[folder_at(m.folders, key)->0].1.tasks.len(),
        ({
            let status = m.folders[folder_at(m.folders, key)->0].1.tasks[k].status;
            status == DownloadStatus::Pending || status == DownloadStatus::Downloading
        }),
    ensures
        folder_busy(m.folders, key),
{
    lemma_folder_from(m.folders, key, 0);
    let ts = m.folders[folder_at(m.folders, key)->0].1.tasks;
    lemma_count_remove(ts, k, ts[k].status);
}

/// A task that was taken out of the only queue that held it is gone.
pub proof fn law_removed_task_is_gone(fs: Seq<(Seq<char>, QueueView)>, id: u128)
    requires
        holder(fs, id) is Some,
        forall|j: int|
            0 <= j < fs.len() && j != holder(fs, id)->0 ==> position(
                (#[trigger] fs[j]).1.tasks,
                id,
            ) is None,
        super::history::ids_distinct(fs[holder(fs, id)->0].1.tasks),
    ensures
        find_task(task_removed(fs, id), id) is None,
{
    lemma_holder_from(fs, id, 0);
    let i = holder(fs, id)->0;
    let gs = task_removed(fs, id);
    super::history::law_removed_is_gone(fs[i].1.tasks, id);
    lemma_holder_from(gs, id, 0);
    assert forall|j: int| 0 <= j < gs.len() implies position((#[trigger] gs[j]).1.tasks, id) is None by {
        if j != i {
            assert(gs[j] == fs[j]);
        } else {
            assert(gs[i].1.tasks == super::history::history_removed(fs[i].1.tasks, id));
        }
    }
}

/// Another queue for a folder, with the same tasks in another order, changes
/// only the order of all tasks.
pub proof fn lemma_all_tasks_permuted(fs: Seq<(Seq<char>, QueueView)>, i: int, q: QueueView)
    requires
        0 <= i < fs.len(),
        q.tasks.to_multiset() == fs[i].1.tasks.to_multiset(),
    ensures
        all_tasks(with_queue(fs, i, q)).to_multiset() == all_tasks(fs).to_multiset(),
    decreases fs.len(),
{
    let gs = with_queue(fs, i, q);
    let last = fs.last().1.tasks;
    if i == fs.len() - 1 {
        assert(gs.drop_last() =~= fs.drop_last());
        vstd::seq_lib::lemma_multiset_commutative(all_tasks(fs.drop_last()), q.tasks);
        vstd::seq_lib::lemma_multiset_commutative(all_tasks(fs.drop_last()), last);
    } else {
        lemma_all_tasks_permuted(fs.drop_last(), i, q);
        assert(gs.drop_last() =~= with_queue(fs.drop_last(), i, q));
        assert(gs.last() == fs.last());
        vstd::seq_lib::lemma_multiset_commutative(all_tasks(gs.drop_last()), last);
        vstd::seq_lib::lemma_multiset_commutative(all_tasks(fs.drop_last()), last);
    }
}

/// Another queue for a folder changes the number of all tasks by as much as it
/// has more or fewer.
pub proof fn lemma_all_tasks_len(fs: Seq<(Seq<char>, QueueView)>, i: int, q: QueueView)
    requires
        0 <= i < fs.len(),
    ensures
        all_tasks(with_queue(fs, i, q)).len() == all_tasks(fs).len() - fs[i].1.tasks.len()
            + q.tasks.len(),
    decreases fs.len(),
{
    let gs = with_queue(fs, i, q);
    if i == fs.len() - 1 {
        assert(gs.drop_last() =~= fs.drop_last());
    } else {
        lemma_all_tasks_len(fs.drop_last(), i, q);
        assert(gs.drop_last() =~= with_queue(fs.drop_last(), i, q));
        assert(gs.last() == fs.last());
    }
}

/// Adding a task adds one to the number of all tasks.
pub proof fn law_added_tasks_are_counted(
    fs: Seq<(Seq<char>, QueueView)>,
    t: TaskView,
    limit: usize,
)
    ensures
        all_tasks(task_added(fs, t, limit)).len() == all_tasks(fs).len() + 1,
{
    let gs = with_folder(fs, t.folder_id, limit);
    lemma_folder_from(fs, t.folder_id, 0);
    lemma_folder_from(gs, t.folder_id, 0);
    if folder_at(fs, t.folder_id) is None {
        assert(gs.drop_last() =~= fs);
        assert(gs[fs.len() as int].0 == t.folder_id);
    }
    let i = folder_at(gs, t.folder_id)->0;
    lemma_all_tasks_len(gs, i, queue_added(gs[i].1, t));
}

/// Where the tasks of a folder stand among all tasks.
pub open spec fn tasks_before(fs: Seq<(Seq<char>, QueueView)>, i: int) -> nat {
    all_tasks(fs.take(i)).len()
}

/// The tasks of a folder stand together among all tasks.
pub proof fn lemma_task_place(fs: Seq<(Seq<char>, QueueView)>, i: int, p: int)
    requires
        0 <= i < fs.len(),
        0 <= p < fs[i].1.tasks.len(),
    ensures
        tasks_before(fs, i) + p < all_tasks(fs).len(),
        all_tasks(fs)[tasks_before(fs, i) + p] == fs[i].1.tasks[p],
    decreases fs.len(),
{
    if i == fs.len() - 1 {
        assert(fs.take(i) =~= fs.drop_last());
    } else {
        lemma_task_place(fs.drop_last(), i, p);
        assert(fs.drop_last().take(i) =~= fs.take(i));
    }
}

/// Every task among all tasks stands in some folder.
pub proof fn lemma_task_folder(fs: Seq<(Seq<char>, QueueView)>, k: int) -> (r: (int, int))
    requires
        0 <= k < all_tasks(fs).len(),
    ensures
        0 <= r.0 < fs.len(),
        0 <= r.1 < fs[r.0].1.tasks.len(),
        k == tasks_before(fs, r.0) + r.1,
    decreases fs.len(),
{
    let n = all_tasks(fs.drop_last()).len();
    assert(fs.take(fs.len() - 1) =~= fs.drop_last());
    if k >= n {
        (fs.len() - 1, k - n)
    } else {
        let r = lemma_task_folder(fs.drop_last(), k);
        assert(fs.drop_last().take(r.0) =~= fs.take(r.0));
        r
    }
}

/// A task taken out of a folder is taken out of all tasks.
pub proof fn lemma_all_tasks_without(
    fs: Seq<(Seq<char>, QueueView)>,
    i: int,
    p: int,
    q: QueueView,
)
    requires
        0 <= i < fs.len(),
        0 <= p < fs[i].1.tasks.len(),
        q.tasks == fs[i].1.tasks.remove(p),
    ensures
        all_tasks(with_queue(fs, i, q)) == all_tasks(fs).remove(tasks_before(fs, i) + p),
    decreases fs.len(),
{
    let gs = with_queue(fs, i, q);
    lemma_task_place(fs, i, p);
    if i == fs.len() - 1 {
        assert(gs.drop_last() =~= fs.drop_last());
        assert(fs.take(i) =~= fs.drop_last());
        assert(all_tasks(gs) =~= all_tasks(fs).remove(tasks_before(fs, i) + p));
    } else {
        lemma_all_tasks_without(fs.drop_last(), i, p, q);
        lemma_task_place(fs.drop_last(), i, p);
        assert(gs.drop_last() =~= with_queue(fs.drop_last(), i, q));
        assert(fs.drop_last().take(i) =~= fs.take(i));
        assert(gs.last() == fs.last());
        assert(all_tasks(gs) =~= all_tasks(fs).remove(tasks_before(fs, i) + p));
    }
}

/// Where no two tasks share an id, removing one takes it, and nothing else, out
/// of all tasks.
pub proof fn law_removal_is_exact(fs: Seq<(Seq<char>, QueueView)>, id: u128)
    requires
        super::history::ids_distinct(all_tasks(fs)),
    ensures
        super::history::ids_distinct(all_tasks(task_removed(fs, id))),
        forall|t: TaskView| #[trigger]
            all_tasks(task_removed(fs, id)).contains(t) <==> all_tasks(fs).contains(t) && t.id
                != id,
{
    let all = all_tasks(fs);
    lemma_holder_from(fs, id, 0);
    match holder(fs, id) {
        Some(i) => {
            lemma_position(fs[i].1.tasks, id);
            let p = position(fs[i].1.tasks, id)->0;
            let k = tasks_before(fs, i) + p;
            lemma_task_place(fs, i, p);
            lemma_all_tasks_without(fs, i, p, queue_removed(fs[i].1, id));
            let rest = all.remove(k);
            assert(all_tasks(task_removed(fs, id)) == rest);
            assert forall|a: int, b: int|
                #![trigger rest[a], rest[b]]
                0 <= a < b < rest.len() implies rest[a].id != rest[b].id by {
                let x = if a < k {
                    a
                } else {
                    a + 1
                };
                let y = if b < k {
                    b
                } else {
                    b + 1
                };
                assert(rest[a] == all[x]);
                assert(rest[b] == all[y]);
            }
            assert forall|t: TaskView| #[trigger] rest.contains(t) <==> all.contains(t) && t.id
                != id by {
                if rest.contains(t) {
                    let a = choose|a: int| 0 <= a < rest.len() && rest[a] == t;
                    let x = if a < k {
                        a
                    } else {
                        a + 1
                    };
                    assert(all[x] == t);
                    assert(all[x].id != all[k].id);
                }
                if all.contains(t) && t.id != id {
                    let x = choose|x: int| 0 <= x < all.len() && all[x] == t;
                    assert(x != k);
                    if x < k {
                        assert(rest[x] == t);
                    } else {
                        assert(rest[x - 1] == t);
                    }
                }
            }
        },
        None => {
            assert forall|t: TaskView| #[trigger] all.contains(t) implies t.id != id by {
                let k = choose|k: int| 0 <= k < all.len() && all[k] == t;
                let (i, p) = lemma_task_folder(fs, k);
                lemma_task_place(fs, i, p);
                lemma_position(fs[i].1.tasks, id);
            }
        },
    }
}

/// A queue after the first `n` of its tasks were stored in it again under
/// another folder.
proof fn lemma_refiled(q: QueueView, folder: Seq<char>, n: int)
    requires
        super::history::ids_distinct(q.tasks),
        0 <= n <= q.tasks.len(),
    ensures
        refiled(q, q.tasks.take(n), folder).counts == q.counts,
        refiled(q, q.tasks.take(n), folder).tasks.len() == q.tasks.len(),
        forall|i: int|
            0 <= i < q.tasks.len() ==> #[trigger] refiled(q, q.tasks.take(n), folder).tasks[i] == (
            if i < n {
                TaskView { folder_id: folder, ..q.tasks[i] }
            } else {
                q.tasks[i]
            }),
    decreases n,
{
    if n > 0 {
        lemma_refiled(q, folder, n - 1);
        assert(q.tasks.take(n).drop_last() =~= q.tasks.take(n - 1));
        let before = refiled(q, q.tasks.take(n - 1), folder);
        let t = TaskView { folder_id: folder, ..q.tasks[n - 1] };
        lemma_position(before.tasks, t.id);
        assert(before.tasks[n - 1].id == t.id);
        let p = position(before.tasks, t.id)->0;
        assert(p == n - 1) by {
            if p < n - 1 {
                assert(before.tasks[p].id == q.tasks[p].id);
                assert(q.tasks[p].id != q.tasks[n - 1].id);
            }
        }
    } else {
        assert(q.tasks.take(0) =~= Seq::<TaskView>::empty());
    }
}

/// Renaming a folder moves its tasks, in order, under the new key, and changes
/// nothing of them but the folder; no other folder changes, if none was under
/// the new key.
pub proof fn law_rename_keeps_tasks(
    fs: Seq<(Seq<char>, QueueView)>,
    old_key: Seq<char>,
    new_key: Seq<char>,
)
    requires
        folder_keys_distinct(fs),
        folder_at(fs, old_key) is Some,
        folder_at(fs, new_key) is None,
        super::history::ids_distinct(fs[folder_at(fs, old_key)->0].1.tasks),
    ensures
        ({
            let i = folder_at(fs, old_key)->0;
            let gs = folder_renamed(fs, old_key, new_key);
            &&& gs.drop_last() == fs.remove(i)
            &&& gs.last().0 == new_key
            &&& gs.last().1.counts == fs[i].1.counts
            &&& gs.last().1.tasks == Seq::new(
                fs[i].1.tasks.len(),
                |k: int| TaskView { folder_id: new_key, ..fs[i].1.tasks[k] },
            )
        }),
{
    let i = folder_at(fs, old_key)->0;
    let q = fs[i].1;
    lemma_folder_from(fs, old_key, 0);
    lemma_folder_from(fs, new_key, 0);
    lemma_refiled(q, new_key, q.tasks.len() as int);
    assert(q.tasks.take(q.tasks.len() as int) =~= q.tasks);
    let rest = fs.remove(i);
    lemma_folder_from(rest, new_key, 0);
    assert forall|j: int| 0 <= j < rest.len() implies (#[trigger] rest[j]).0 != new_key by {
        let x = if j < i {
            j
        } else {
            j + 1
        };
        assert(rest[j] == fs[x]);
    }
    let gs = folder_renamed(fs, old_key, new_key);
    assert(gs.drop_last() =~= rest);
    assert(gs.last().1.tasks =~= Seq::new(
        q.tasks.len(),
        |k: int| TaskView { folder_id: new_key, ..q.tasks[k] },
    ));
}

/// Which scripts run for the downloads of a folder: as the application says,
/// unless the folder says otherwise.
pub open spec fn effective_scripts(config: Config, folder_id: Seq<char>) -> Map<Seq<char>, bool> {
    let folder = folder_of(config, folder_id);
    if folder is Some && folder->0.script_files is Some {
        config.scripts.script_files@.union_prefer_right(folder->0.script_files->0)
    } else {
        config.scripts.script_files@
    }
}

/// What a folder says of a script wins; of a script that it does not name, what
/// the application says holds.
pub proof fn law_folder_scripts_win(config: Config, folder_id: Seq<char>, script: Seq<char>)
    requires
        folder_of(config, folder_id) is Some,
        folder_of(config, folder_id)->0.script_files is Some,
    ensures
        ({
            let own = folder_of(config, folder_id)->0.script_files->0;
            let all = effective_scripts(config, folder_id);
            &&& own.contains_key(script) ==> all.contains_key(script) && all[script] == own[script]
            &&& !own.contains_key(script) ==> (all.contains_key(script)
                <==> config.scripts.script_files@.contains_key(script))
            &&& !own.contains_key(script) && all.contains_key(script) ==> all[script]
                == config.scripts.script_files@[script]
        }),
{
}

/// What is filtered out of a list and named, one more taken in.
proof fn lemma_selected(ts: Seq<TaskView>, keep: spec_fn(TaskView) -> bool)
    requires
        ts.len() > 0,
    ensures
        ts.filter(keep) == (if keep(ts.last()) {
            ts.drop_last().filter(keep).push(ts.last())
        } else {
            ts.drop_last().filter(keep)
        }),
        ts.filter(keep).map_values(|t: TaskView| t.id) == (if keep(ts.last()) {
            ts.drop_last().filter(keep).map_values(|t: TaskView| t.id).push(ts.last().id)
        } else {
            ts.drop_last().filter(keep).map_values(|t: TaskView| t.id)
        }),
{
    reveal(Seq::filter);
    let before = ts.drop_last().filter(keep);
    assert(before.push(ts.last()).map_values(|t: TaskView| t.id) =~= before.map_values(
        |t: TaskView| t.id,
    ).push(ts.last().id));
}

/// The ids with a status are those of the tasks that have it, and of no other, in
/// the order of the tasks.
pub proof fn law_selected_by_status(ts: Seq<TaskView>, status: DownloadStatus, id: u128)
    ensures
        ids_with_status(ts, status) == ts.filter(|t: TaskView| t.status == status).map_values(
            |t: TaskView| t.id,
        ),
        ids_with_status(ts, status).contains(id) <==> exists|k: int|
            0 <= k < ts.len() && (#[trigger] ts[k]).id == id && ts[k].status == status,
        ids_with_status(ts, status).len() == count_status(ts, status),
    decreases ts.len(),
{
    let keep = |t: TaskView| t.status == status;
    let ids = ids_with_status(ts, status);
    if ts.len() == 0 {
        reveal(Seq::filter);
        assert(ts.filter(keep).map_values(|t: TaskView| t.id) =~= Seq::<u128>::empty());
    } else {
        let before = ts.drop_last();
        law_selected_by_status(before, status, id);
        lemma_selected(ts, keep);
        let old_ids = ids_with_status(before, status);
        if ids.contains(id) {
            let j = choose|j: int| 0 <= j < ids.len() && ids[j] == id;
            if j < old_ids.len() {
                assert(old_ids[j] == id);
                assert(old_ids.contains(id));
                let k = choose|k: int|
                    0 <= k < before.len() && (#[trigger] before[k]).id == id && before[k].status
                        == status;
                assert(ts[k] == before[k]);
            } else {
                assert(ts[ts.len() - 1].id == id);
            }
        }
        if exists|k: int|
            0 <= k < ts.len() && (#[trigger] ts[k]).id == id && ts[k].status == status {
            let k = choose|k: int|
                0 <= k < ts.len() && (#[trigger] ts[k]).id == id && ts[k].status == status;
            if k < before.len() {
                assert(before[k] == ts[k]);
                assert(old_ids.contains(id));
                let j = choose|j: int| 0 <= j < old_ids.len() && old_ids[j] == id;
                assert(ids[j] == id);
            } else {
                assert(ids[old_ids.len() as int] == id);
            }
        }
    }
}

/// The downloads that can be resumed are those that are paused and those that have
/// failed, and no other, in their order.
pub proof fn law_paused_and_failed_resume(ts: Seq<TaskView>, id: u128)
    ensures
        interrupted_ids(ts) == ts.filter(
            |t: TaskView| t.status == DownloadStatus::Paused || t.status == DownloadStatus::Error,
        ).map_values(|t: TaskView| t.id),
        interrupted_ids(ts).contains(id) <==> exists|k: int|
            0 <= k < ts.len() && (#[trigger] ts[k]).id == id && (ts[k].status
                == DownloadStatus::Paused || ts[k].status == DownloadStatus::Error),
    decreases ts.len(),
{
    let keep = |t: TaskView|
        t.status == DownloadStatus::Paused || t.status == DownloadStatus::Error;
    let ids = interrupted_ids(ts);
    if ts.len() == 0 {
        reveal(Seq::filter);
        assert(ts.filter(keep).map_values(|t: TaskView| t.id) =~= Seq::<u128>::empty());
    } else {
        let before = ts.drop_last();
        law_paused_and_failed_resume(before, id);
        lemma_selected(ts, keep);
        let old_ids = interrupted_ids(before);
        if ids.contains(id) {
            let j = choose|j: int| 0 <= j < ids.len() && ids[j] == id;
            if j < old_ids.len() {
                assert(old_ids[j] == id);
                assert(old_ids.contains(id));
                let k = choose|k: int|
                    0 <= k < before.len() && (#[trigger] before[k]).id == id && keep(before[k]);
                assert(ts[k] == before[k]);
            } else {
                assert(ts[ts.len() - 1].id == id);
            }
        }
        if exists|k: int| 0 <= k < ts.len() && (#[trigger] ts[k]).id == id && keep(ts[k]) {
            let k = choose|k: int|
                0 <= k < ts.len() && (#[trigger] ts[k]).id == id && keep(ts[k]);
            if k < before.len() {
                assert(before[k] == ts[k]);
                assert(old_ids.contains(id));
                let j = choose|j: int| 0 <= j < old_ids.len() && old_ids[j] == id;
                assert(ids[j] == id);
            } else {
                assert(ids[old_ids.len() as int] == id);
            }
        }
    }
}

/// All tasks are those of the folders, each folder's in order.
pub proof fn law_all_tasks_are_there(fs: Seq<(Seq<char>, QueueView)>, t: TaskView)
    ensures
        all_tasks(fs).contains(t) <==> exists|i: int, k: int|
            0 <= i < fs.len() && 0 <= k < fs[i].1.tasks.len() && #[trigger] fs[i].1.tasks[k] == t,
{
    if all_tasks(fs).contains(t) {
        let n = choose|n: int| 0 <= n < all_tasks(fs).len() && all_tasks(fs)[n] == t;
        let (i, k) = lemma_task_folder(fs, n);
        lemma_task_place(fs, i, k);
        assert(fs[i].1.tasks[k] == t);
    }
    if exists|i: int, k: int|
        0 <= i < fs.len() && 0 <= k < fs[i].1.tasks.len() && #[trigger] fs[i].1.tasks[k] == t {
        let (i, k) = choose|i: int, k: int|
            0 <= i < fs.len() && 0 <= k < fs[i].1.tasks.len() && #[trigger] fs[i].1.tasks[k] == t;
        lemma_task_place(fs, i, k);
    }
}

/// A download of any folder is resumed with the others exactly if it is paused or
/// has failed, and is started with the others exactly if it waits.
pub proof fn law_every_folder_is_resumed(m: ManagerView, i: int, k: int)
    requires
        super::history::ids_distinct(all_tasks(m.folders)),
        0 <= i < m.folders.len(),
        0 <= k < m.folders[i].1.tasks.len(),
    ensures
        ({
            let t = m.folders[i].1.tasks[k];
            &&& interrupted_ids(all_tasks(m.folders)).contains(t.id) <==> t.status
                == DownloadStatus::Paused || t.status == DownloadStatus::Error
            &&& ids_with_status(all_tasks(m.folders), DownloadStatus::Pending).contains(t.id)
                <==> t.status == DownloadStatus::Pending
            &&& ids_with_status(all_tasks(m.folders), DownloadStatus::Downloading).contains(t.id)
                <==> t.status == DownloadStatus::Downloading
        }),
{
    let all = all_tasks(m.folders);
    let t = m.folders[i].1.tasks[k];
    lemma_task_place(m.folders, i, k);
    let n = tasks_before(m.folders, i) + k;
    assert(all[n] == t);
    law_paused_and_failed_resume(all, t.id);
    law_selected_by_status(all, DownloadStatus::Pending, t.id);
    law_selected_by_status(all, DownloadStatus::Downloading, t.id);
    assert forall|j: int| 0 <= j < all.len() && (#[trigger] all[j]).id == t.id implies j == n by {
        if j < n {
            assert(all[j].id != all[n].id);
        } else if n < j {
            assert(all[n].id != all[j].id);
        }
    }
}

/// What came of the wish to start a download: an unknown one is not found, one
/// that runs goes on, one of a blocked domain is blocked, one whose folder is
/// neither active nor may be is held back by the limit, and every other may start
/// as it is, in a folder that is active then.
pub proof fn law_start_is_decided(
    m: ManagerView,
    id: u128,
    domain: Option<Seq<char>>,
    now: u128,
)
    ensures
        ({
            let found = find_task(m.folders, id);
            let (n, outcome) = start_begun(m, id, domain, now);
            let t = found->0;
            let runs = t.status == DownloadStatus::Downloading;
            let circuit = m.breaker.checked(domain->0, now).circuit(domain->0).state;
            let blocked = domain is Some && (circuit == CircuitState::Open || (circuit
                == CircuitState::HalfOpen && m.breaker.testers.contains_key(domain->0)));
            let room = m.active_folders.contains(t.folder_id) || m.active_folders.len()
                < m.parallel;
            &&& found is None ==> outcome is NotFound && n == m
            &&& found is Some && runs ==> outcome is Running && n == m
            &&& found is Some && !runs && blocked ==> outcome == StartView::Blocked(domain->0)
            &&& found is Some && !runs && !blocked && !room ==> outcome
                == StartView::FolderLimit {
                folder_id: t.folder_id,
                active: m.active_folders.len(),
                limit: m.parallel,
            }
            &&& found is Some && !runs && !blocked && room ==> outcome == StartView::Ready(t)
                && n.active_folders == m.active_folders.insert(t.folder_id) && folder_at(
                n.folders,
                t.folder_id,
            ) is Some
            &&& !(outcome is Ready) ==> n.active_folders == m.active_folders && n.folders
                == m.folders
            &&& all_tasks(n.folders) == all_tasks(m.folders)
            &&& n.active == m.active
            &&& n.history == m.history
            &&& n.max_concurrent == m.max_concurrent
            &&& n.permits == m.permits
            &&& n.per_folder == m.per_folder
            &&& n.parallel == m.parallel
            &&& n.max_retries == m.max_retries
            &&& n.retry_delay == m.retry_delay
        }),
{
    if let Some(t) = find_task(m.folders, id) {
        let gs = with_folder(m.folders, t.folder_id, m.per_folder);
        lemma_folder_from(m.folders, t.folder_id, 0);
        lemma_folder_from(gs, t.folder_id, 0);
        if folder_at(m.folders, t.folder_id) is None {
            assert(gs.drop_last() =~= m.folders);
            assert(gs[m.folders.len() as int].0 == t.folder_id);
            assert(all_tasks(gs) =~= all_tasks(m.folders));
        }
    }
}

/// A task that is found has the id that was looked for; it is one of all tasks.
/// Where none is found, none has the id.
pub proof fn law_found_tasks_have_the_id(fs: Seq<(Seq<char>, QueueView)>, id: u128)
    ensures
        match find_task(fs, id) {
            Some(t) => t.id == id && all_tasks(fs).contains(t),
            None => forall|t: TaskView| #[trigger] all_tasks(fs).contains(t) ==> t.id != id,
        },
{
    lemma_holder_from(fs, id, 0);
    match holder(fs, id) {
        Some(i) => {
            lemma_position(fs[i].1.tasks, id);
            lemma_task_place(fs, i, position(fs[i].1.tasks, id)->0);
        },
        None => {
            assert forall|t: TaskView| #[trigger] all_tasks(fs).contains(t) implies t.id != id by {
                law_all_tasks_are_there(fs, t);
                let (i, k) = choose|i: int, k: int|
                    0 <= i < fs.len() && 0 <= k < fs[i].1.tasks.len() && #[trigger] fs[i].1.tasks[k]
                        == t;
                lemma_position(fs[i].1.tasks, id);
            }
        },
    }
}

/// A started download runs as of that moment and has no failure to show. What
/// scripts made of URL, headers and user agent holds; without scripts these are as
/// they were, and the rest is in any case.
pub proof fn law_launched_downloads_run(t: TaskView, hook: Option<BeforeRequestView>, now: Moment)
    ensures
        ({
            let r = task_launched(t, hook, now);
            &&& r.status == DownloadStatus::Downloading
            &&& r.started_at == Some(now)
            &&& r.error_message is None
            &&& hook is Some ==> r.url == hook->0.url && r.headers == hook->0.headers
                && r.user_agent == hook->0.user_agent
            &&& hook is None ==> r.url == t.url && r.headers == t.headers && r.user_agent
                == t.user_agent
            &&& r.id == t.id
            &&& r.filename == t.filename
            &&& r.save_path == t.save_path
            &&& r.folder_id == t.folder_id
            &&& r.size == t.size
            &&& r.downloaded == t.downloaded
            &&& r.priority == t.priority
            &&& r.created_at == t.created_at
            &&& r.completed_at == t.completed_at
            &&& r.resume_supported == t.resume_supported
            &&& r.etag == t.etag
            &&& r.last_modified == t.last_modified
            &&& r.retry_count == t.retry_count
            &&& r.last_status_code == t.last_status_code
            &&& t.logs.is_prefix_of(r.logs)
            &&& r.logs.len() == t.logs.len() + (if hook is Some {
                2int
            } else {
                1int
            })
            &&& r.logs.last().level == LogLevel::Info
            &&& r.logs.last().timestamp == now
            &&& r.logs.last().message == "Starting download: "@ + r.url
            &&& hook is Some ==> r.logs[t.logs.len() as int].message
                == "beforeRequest hook executed"@ && r.logs[t.logs.len() as int].level
                == LogLevel::Info
        }),
        was_interrupted(t) <==> t.status == DownloadStatus::Paused || t.status
            == DownloadStatus::Error,
        ({
            let told = before_request(t);
            &&& told.url == t.url
            &&& told.headers == t.headers
            &&& told.user_agent == t.user_agent
            &&& told.download_id == Some(uuid_text(t.id))
        }),
{
}

/// A failed attempt is counted and its failure kept. While fewer have failed than
/// may, the download waits, paused, for a delay that doubles with every failure,
/// and nothing is held against its domain; then it has failed for good, which is
/// held against the domain, and scripts are told. In either case it is the same
/// download, and it is stored so.
pub proof fn law_failures_are_kept(
    m: ManagerView,
    key: Seq<char>,
    t: TaskView,
    error: Seq<char>,
    domain: Option<Seq<char>>,
    now: Moment,
    tick: u128,
)
    requires
        t.retry_count < u32::MAX,
        t.retry_count + 1 < m.max_retries ==> m.retry_delay * pow2(t.retry_count as nat)
            <= u64::MAX,
    ensures
        ({
            let (n, r, decision) = attempt_failed(m, key, t, error, domain, now, tick);
            &&& r.error_message == Some(error)
            &&& r.retry_count == t.retry_count + 1
            &&& r == (TaskView {
                status: r.status,
                error_message: Some(error),
                retry_count: r.retry_count,
                logs: r.logs,
                ..t
            })
            &&& t.logs.is_prefix_of(r.logs)
            &&& r.logs.len() == t.logs.len() + 2
            &&& r.logs[t.logs.len() as int].level == LogLevel::Error
            &&& r.logs[t.logs.len() as int].message == "Download failed (attempt "@ + decimal(
                (t.retry_count + 1) as nat,
            ) + "): "@ + error
            &&& r.logs[t.logs.len() as int].timestamp == now
            &&& r.logs.last().timestamp == now
            &&& n.folders == task_updated(m.folders, key, r)
            &&& t.retry_count + 1 < m.max_retries ==> {
                &&& r.status == DownloadStatus::Paused
                &&& decision is Retry
                &&& decision->seconds == m.retry_delay * pow2(t.retry_count as nat)
                &&& n.breaker == m.breaker
                &&& r.logs.last().level == LogLevel::Info
                &&& r.logs.last().message == "Retrying in "@ + decimal(decision->seconds as nat)
                    + " seconds..."@
            }
            &&& t.retry_count + 1 >= m.max_retries ==> {
                &&& r.status == DownloadStatus::Error
                &&& decision is GiveUp
                &&& r.logs.last().level == LogLevel::Error
                &&& r.logs.last().message == "Max retries ("@ + decimal(m.max_retries as nat)
                    + ") exceeded"@
                &&& decision->GiveUp_0.url == t.url
                &&& decision->GiveUp_0.filename == Some(t.filename)
                &&& decision->GiveUp_0.error == error
                &&& decision->GiveUp_0.retry_count == t.retry_count + 1
                &&& decision->GiveUp_0.status_code == t.last_status_code
                &&& domain is Some ==> n.breaker == m.breaker.failed(domain->0, tick).released(t.id)
                &&& domain is None ==> n.breaker == m.breaker.released(t.id)
            }
            &&& n.active == m.active
            &&& n.active_folders == m.active_folders
            &&& n.history == m.history
        }),
        task_retried(t) == (TaskView {
            status: DownloadStatus::Downloading,
            error_message: None,
            ..t
        }),
{
    let f = task_failed(t, error, now);
    assert((f.retry_count - 1) as nat == t.retry_count as nat);
    vstd::arithmetic::power2::lemma_pow2_pos(t.retry_count as nat);
}

/// A stored task is found in the queue under the key, in the place of the one with
/// its id, and every other task of every folder is as it was.
pub proof fn law_stored_tasks_are_found(
    fs: Seq<(Seq<char>, QueueView)>,
    key: Seq<char>,
    t: TaskView,
    i: int,
    k: int,
)
    requires
        folder_keys_distinct(fs),
        0 <= i < fs.len(),
        0 <= k < fs[i].1.tasks.len(),
        super::history::ids_distinct(fs[i].1.tasks),
    ensures
        ({
            let gs = task_updated(fs, key, t);
            &&& gs.len() == fs.len()
            &&& gs[i].0 == fs[i].0
            &&& gs[i].1.tasks.len() == fs[i].1.tasks.len()
            &&& gs[i].1.tasks[k] == (if fs[i].0 == key && fs[i].1.tasks[k].id == t.id {
                t
            } else {
                fs[i].1.tasks[k]
            })
        }),
{
    lemma_folder_from(fs, key, 0);
    lemma_position(fs[i].1.tasks, t.id);
    if let Some(p) = position(fs[i].1.tasks, t.id) {
        if p != k {
            assert(fs[i].1.tasks[p].id != fs[i].1.tasks[k].id);
        }
    }
    if let Some(j) = folder_at(fs, key) {
        if fs[i].0 == key && j != i {
            assert(fs[j].0 != fs[i].0);
        }
    }
}

/// The tasks stand in the folders that they name, and no two share an id.
pub open spec fn well_filed(fs: Seq<(Seq<char>, QueueView)>) -> bool {
    &&& folder_keys_distinct(fs)
    &&& forall|i: int, k: int|
        0 <= i < fs.len() && 0 <= k < fs[i].1.tasks.len() ==> (
        #[trigger] fs[i].1.tasks[k]).folder_id == fs[i].0
    &&& forall|i: int, k: int, j: int, l: int|
        0 <= i < fs.len() && 0 <= k < fs[i].1.tasks.len() && 0 <= j < fs.len() && 0 <= l
            < fs[j].1.tasks.len() && (#[trigger] fs[i].1.tasks[k]).id == (
        #[trigger] fs[j].1.tasks[l]).id ==> i == j && k == l
}

/// Pausing a download pauses that download, whatever it was doing, and changes no
/// other.
pub proof fn law_pause_is_exact(m: ManagerView, id: u128, i: int, k: int)
    requires
        well_filed(m.folders),
        0 <= i < m.folders.len(),
        0 <= k < m.folders[i].1.tasks.len(),
    ensures
        well_filed(paused(m, id).folders),
        paused(m, id).folders.len() == m.folders.len(),
        paused(m, id).folders[i].0 == m.folders[i].0,
        paused(m, id).folders[i].1.tasks.len() == m.folders[i].1.tasks.len(),
        paused(m, id).folders[i].1.tasks[k] == (if m.folders[i].1.tasks[k].id == id {
            TaskView { status: DownloadStatus::Paused, ..m.folders[i].1.tasks[k] }
        } else {
            m.folders[i].1.tasks[k]
        }),
        !paused(m, id).active.contains(id),
        forall|other: u128|
            other != id ==> (#[trigger] paused(m, id).active.contains(other)
                <==> m.active.contains(other)),
{
    let fs = m.folders;
    let gs = paused(m, id).folders;
    lemma_holder_from(fs, id, 0);
    match holder(fs, id) {
        Some(h) => {
            lemma_position(fs[h].1.tasks, id);
            let p = position(fs[h].1.tasks, id)->0;
            let t = fs[h].1.tasks[p];
            lemma_folder_from(fs, t.folder_id, 0);
            assert(t.folder_id == fs[h].0);
            let f = folder_at(fs, t.folder_id)->0;
            assert(f == h) by {
                if f < h {
                    assert(fs[f].0 != fs[h].0);
                } else if h < f {
                    assert(fs[h].0 != fs[f].0);
                }
            }
            let u = TaskView { status: DownloadStatus::Paused, ..t };
            assert(gs[h].1.tasks == fs[h].1.tasks.update(p, u));
            assert forall|x: int, y: int|
                0 <= x < gs.len() && 0 <= y < gs[x].1.tasks.len() implies (
            #[trigger] gs[x].1.tasks[y]).folder_id == gs[x].0 && gs[x].1.tasks[y].id
                == fs[x].1.tasks[y].id && gs[x].0 == fs[x].0 by {
                assert(fs[x].1.tasks[y].folder_id == fs[x].0);
            }
            assert forall|x: int, y: int, v: int, w: int|
                0 <= x < gs.len() && 0 <= y < gs[x].1.tasks.len() && 0 <= v < gs.len() && 0 <= w
                    < gs[v].1.tasks.len() && (#[trigger] gs[x].1.tasks[y]).id == (
                #[trigger] gs[v].1.tasks[w]).id implies x == v && y == w by {
                assert(fs[x].1.tasks[y].id == fs[v].1.tasks[w].id);
            }
            assert forall|x: int, y: int|
                #![trigger gs[x], gs[y]]
                0 <= x < y < gs.len() implies gs[x].0 != gs[y].0 by {
                assert(fs[x].0 != fs[y].0);
            }
            assert(fs[h].1.tasks[p].id == id);
            assert(fs[i].1.tasks[k].id == id ==> i == h && k == p);
        },
        None => {
            lemma_position(fs[i].1.tasks, id);
        },
    }
}

/// Pausing several downloads pauses those, and changes no other.
pub proof fn law_pausing_each_is_exact(m: ManagerView, ids: Seq<u128>, i: int, k: int)
    requires
        well_filed(m.folders),
        0 <= i < m.folders.len(),
        0 <= k < m.folders[i].1.tasks.len(),
    ensures
        ({
            let n = all_paused(m, ids);
            &&& well_filed(n.folders)
            &&& n.folders.len() == m.folders.len()
            &&& n.folders[i].0 == m.folders[i].0
            &&& n.folders[i].1.tasks.len() == m.folders[i].1.tasks.len()
            &&& n.folders[i].1.tasks[k] == (if ids.contains(m.folders[i].1.tasks[k].id) {
                TaskView { status: DownloadStatus::Paused, ..m.folders[i].1.tasks[k] }
            } else {
                m.folders[i].1.tasks[k]
            })
        }),
    decreases ids.len(),
{
    if ids.len() > 0 {
        let before = ids.drop_last();
        law_pausing_each_is_exact(m, before, i, k);
        law_pause_is_exact(all_paused(m, before), ids.last(), i, k);
        let x = m.folders[i].1.tasks[k].id;
        if before.contains(x) {
            let j = choose|j: int| 0 <= j < before.len() && before[j] == x;
            assert(ids[j] == x);
        } else if ids.contains(x) {
            let j = choose|j: int| 0 <= j < ids.len() && ids[j] == x;
            if j < before.len() {
                assert(before[j] == x);
            }
        }
        if x == ids.last() {
            assert(ids[ids.len() - 1] == x);
        }
    }
}

/// Pausing all that run leaves none running: those are paused, and every other
/// download is as it was.
pub proof fn law_pause_all_stops_all(m: ManagerView, i: int, k: int)
    requires
        well_filed(m.folders),
        0 <= i < m.folders.len(),
        0 <= k < m.folders[i].1.tasks.len(),
    ensures
        ({
            let t = m.folders[i].1.tasks[k];
            let n = all_paused(
                m,
                ids_with_status(all_tasks(m.folders), DownloadStatus::Downloading),
            );
            &&& n.folders[i].1.tasks[k].status != DownloadStatus::Downloading
            &&& t.status == DownloadStatus::Downloading ==> n.folders[i].1.tasks[k] == (TaskView {
                status: DownloadStatus::Paused,
                ..t
            })
            &&& t.status != DownloadStatus::Downloading ==> n.folders[i].1.tasks[k] == t
        }),
{
    let all = all_tasks(m.folders);
    let t = m.folders[i].1.tasks[k];
    let ids = ids_with_status(all, DownloadStatus::Downloading);
    law_selected_by_status(all, DownloadStatus::Downloading, t.id);
    law_pausing_each_is_exact(m, ids, i, k);
    lemma_task_place(m.folders, i, k);
    assert(all[tasks_before(m.folders, i) + k] == t);
    if ids.contains(t.id) {
        let n = choose|n: int|
            0 <= n < all.len() && (#[trigger] all[n]).id == t.id && all[n].status
                == DownloadStatus::Downloading;
        let (j, l) = lemma_task_folder(m.folders, n);
        lemma_task_place(m.folders, j, l);
        assert(m.folders[j].1.tasks[l].id == m.folders[i].1.tasks[k].id);
    }
}

/// An added task stands last in the queue of the folder that it names, which is
/// new if there was none, with the usual limit; every other queue is as it was.
pub proof fn law_added_task_is_filed(fs: Seq<(Seq<char>, QueueView)>, t: TaskView, limit: usize)
    ensures
        ({
            let gs = task_added(fs, t, limit);
            let i = folder_at(gs, t.folder_id)->0;
            &&& folder_at(gs, t.folder_id) is Some
            &&& 0 <= i < gs.len()
            &&& gs[i].0 == t.folder_id
            &&& gs[i].1.tasks.len() > 0
            &&& gs[i].1.tasks.last() == t
            &&& folder_at(fs, t.folder_id) is Some ==> gs.len() == fs.len()
                && gs[i].1.tasks.drop_last() == fs[i].1.tasks && gs[i].1.max_concurrent
                == fs[i].1.max_concurrent
            &&& folder_at(fs, t.folder_id) is None ==> gs.len() == fs.len() + 1 && i == fs.len()
                && gs[i].1.tasks.len() == 1 && gs[i].1.max_concurrent == limit
            &&& forall|j: int| 0 <= j < fs.len() && j != i ==> #[trigger] gs[j] == fs[j]
        }),
{
    let hs = with_folder(fs, t.folder_id, limit);
    lemma_folder_from(fs, t.folder_id, 0);
    lemma_folder_from(hs, t.folder_id, 0);
    if folder_at(fs, t.folder_id) is None {
        assert(hs[fs.len() as int].0 == t.folder_id);
        assert forall|j: int| 0 <= j < fs.len() implies (#[trigger] hs[j]).0 != t.folder_id by {
            assert(hs[j] == fs[j]);
        }
    }
    let gs = task_added(fs, t, limit);
    lemma_folder_from(gs, t.folder_id, 0);
    let h = folder_at(hs, t.folder_id)->0;
    let i = folder_at(gs, t.folder_id)->0;
    assert forall|j: int| 0 <= j < gs.len() implies (#[trigger] gs[j]).0 == hs[j].0 by {}
    assert(gs[h].0 == t.folder_id);
    assert(i == h) by {
        if i < h {
            assert(hs[i].0 == gs[i].0);
        }
    }
    if folder_at(fs, t.folder_id) is Some {
        assert(gs[i].1.tasks.drop_last() =~= fs[i].1.tasks);
    }
}

/// Loading tasks adds each of them to those that are there, and nothing else.
pub proof fn law_loaded_tasks_are_there(
    fs: Seq<(Seq<char>, QueueView)>,
    ts: Seq<TaskView>,
    limit: usize,
    t: TaskView,
)
    ensures
        all_tasks(tasks_added(fs, ts, limit)).contains(t) <==> all_tasks(fs).contains(t)
            || ts.contains(t),
        all_tasks(tasks_added(fs, ts, limit)).len() == all_tasks(fs).len() + ts.len(),
    decreases ts.len(),
{
    if ts.len() > 0 {
        let before = ts.drop_last();
        let gs = tasks_added(fs, before, limit);
        law_loaded_tasks_are_there(fs, before, limit, t);
        law_added_tasks_are_counted(gs, ts.last(), limit);
        lemma_added_is_there(gs, ts.last(), limit, t);
        if before.contains(t) {
            let j = choose|j: int| 0 <= j < before.len() && before[j] == t;
            assert(ts[j] == t);
        }
        if ts.contains(t) && t != ts.last() {
            let j = choose|j: int| 0 <= j < ts.len() && ts[j] == t;
            assert(before[j] == t);
        }
        assert(ts[ts.len() - 1] == ts.last());
    }
}

/// What is there after a task was added is what was there, and the task.
pub proof fn lemma_added_is_there(
    fs: Seq<(Seq<char>, QueueView)>,
    a: TaskView,
    limit: usize,
    t: TaskView,
)
    ensures
        all_tasks(task_added(fs, a, limit)).contains(t) <==> all_tasks(fs).contains(t) || t == a,
{
    let gs = task_added(fs, a, limit);
    law_added_task_is_filed(fs, a, limit);
    law_all_tasks_are_there(fs, t);
    law_all_tasks_are_there(gs, t);
    let n = folder_at(gs, a.folder_id)->0;
    let last = gs[n].1.tasks.len() - 1;
    assert(gs[n].1.tasks[last] == a);
    if all_tasks(fs).contains(t) {
        let (i, k) = choose|i: int, k: int|
            0 <= i < fs.len() && 0 <= k < fs[i].1.tasks.len() && #[trigger] fs[i].1.tasks[k] == t;
        lemma_folder_from(fs, a.folder_id, 0);
        if i == n {
            assert(gs[n].1.tasks.drop_last()[k] == t);
            assert(gs[n].1.tasks[k] == t);
        } else {
            assert(gs[i] == fs[i]);
            assert(gs[i].1.tasks[k] == t);
        }
    }
    if all_tasks(gs).contains(t) && t != a {
        let (i, k) = choose|i: int, k: int|
            0 <= i < gs.len() && 0 <= k < gs[i].1.tasks.len() && #[trigger] gs[i].1.tasks[k] == t;
        if i == n {
            assert(k < last);
            assert(gs[n].1.tasks.drop_last()[k] == t);
            assert(fs[i].1.tasks[k] == t);
        } else {
            assert(gs[i] == fs[i]);
            assert(fs[i].1.tasks[k] == t);
        }
    }
}

/// A priority that is set changes the priority of the first download with the id,
/// and nothing else.
pub proof fn law_priority_is_set(
    fs: Seq<(Seq<char>, QueueView)>,
    id: u128,
    priority: i32,
    i: int,
)
    requires
        0 <= i < fs.len(),
    ensures
        ({
            let gs = priority_set(fs, id, priority);
            &&& gs.len() == fs.len()
            &&& gs[i].0 == fs[i].0
            &&& gs[i].1.counts == fs[i].1.counts
            &&& gs[i].1.tasks.len() == fs[i].1.tasks.len()
            &&& forall|k: int|
                0 <= k < fs[i].1.tasks.len() ==> #[trigger] gs[i].1.tasks[k] == (TaskView {
                    priority: gs[i].1.tasks[k].priority,
                    ..fs[i].1.tasks[k]
                })
            &&& forall|k: int|
                0 <= k < fs[i].1.tasks.len() && fs[i].1.tasks[k].id != id
                    ==> #[trigger] gs[i].1.tasks[k] == fs[i].1.tasks[k]
            &&& find_task(fs, id) is Some ==> find_task(gs, id) == Some(
                TaskView { priority, ..find_task(fs, id)->0 },
            )
        }),
{
    let gs = priority_set(fs, id, priority);
    lemma_holder_from(fs, id, 0);
    if let Some(h) = holder(fs, id) {
        let ts = fs[h].1.tasks;
        lemma_position(ts, id);
        let p = position(ts, id)->0;
        lemma_position(gs[h].1.tasks, id);
        assert(gs[h].1.tasks[p].id == id);
        assert forall|k: int| 0 <= k < p implies (#[trigger] gs[h].1.tasks[k]).id != id by {
            assert(gs[h].1.tasks[k] == ts[k]);
        }
        lemma_holder_from(gs, id, 0);
        assert forall|j: int| 0 <= j < h implies position((#[trigger] gs[j]).1.tasks, id) is None by {
            assert(gs[j] == fs[j]);
        }
    }
}

/// A download is moved before another in the first folder that holds both; where
/// no folder does, or both are one, there is none.
pub proof fn law_mover_holds_both(
    fs: Seq<(Seq<char>, QueueView)>,
    id: u128,
    before: u128,
    from: int,
)
    requires
        0 <= from,
    ensures
        match mover_from(fs, id, before, from) {
            Some(i) => {
                &&& from <= i < fs.len()
                &&& id != before
                &&& exists|k: int| 0 <= k < fs[i].1.tasks.len() && #[trigger] fs[i].1.tasks[k].id == id
                &&& exists|k: int|
                    0 <= k < fs[i].1.tasks.len() && #[trigger] fs[i].1.tasks[k].id == before
            },
            None => id == before || forall|i: int, k: int, l: int|
                from <= i < fs.len() && 0 <= k < fs[i].1.tasks.len() && 0 <= l
                    < fs[i].1.tasks.len() ==> !((#[trigger] fs[i].1.tasks[k]).id == id && (
                #[trigger] fs[i].1.tasks[l]).id == before),
        },
    decreases fs.len() - from,
{
    if from < fs.len() {
        lemma_position(fs[from].1.tasks, id);
        lemma_position(fs[from].1.tasks, before);
        if !can_move_before(fs[from].1.tasks, id, before) {
            law_mover_holds_both(fs, id, before, from + 1);
            if mover_from(fs, id, before, from + 1) is None && id != before {
                assert forall|i: int, k: int, l: int|
                    from <= i < fs.len() && 0 <= k < fs[i].1.tasks.len() && 0 <= l
                        < fs[i].1.tasks.len() implies !((#[trigger] fs[i].1.tasks[k]).id == id && (
                #[trigger] fs[i].1.tasks[l]).id == before) by {
                    if i == from && fs[i].1.tasks[k].id == id && fs[i].1.tasks[l].id == before {
                        assert(position(fs[i].1.tasks, id) is Some);
                        assert(position(fs[i].1.tasks, before) is Some);
                    }
                }
            }
        }
    }
}

/// A task out of the history waits again from the start, in the folder that is
/// named or else in its own; it is the same download otherwise.
pub proof fn law_revived_tasks_start_over(t: TaskView, folder: Option<Seq<char>>)
    ensures
        ({
            let r = task_revived(t, folder);
            &&& r.status == DownloadStatus::Pending
            &&& r.downloaded == 0
            &&& r.retry_count == 0
            &&& r.error_message is None
            &&& r.started_at is None
            &&& r.completed_at is None
            &&& r.logs.len() == 0
            &&& folder is Some ==> r.folder_id == folder->0
            &&& folder is None ==> r.folder_id == t.folder_id
            &&& r.id == t.id
            &&& r.url == t.url
            &&& r.filename == t.filename
            &&& r.save_path == t.save_path
            &&& r.size == t.size
            &&& r.priority == t.priority
            &&& r.created_at == t.created_at
            &&& r.headers == t.headers
            &&& r.user_agent == t.user_agent
            &&& r.resume_supported == t.resume_supported
            &&& r.etag == t.etag
            &&& r.last_modified == t.last_modified
            &&& r.last_status_code == t.last_status_code
        }),
{
}

/// Progress is stored with the task that it is of, and nothing else changes; a
/// size that is not reported stays.
pub proof fn law_progress_is_stored(
    fs: Seq<(Seq<char>, QueueView)>,
    key: Seq<char>,
    id: u128,
    downloaded: u64,
    total: Option<u64>,
    i: int,
    k: int,
)
    requires
        folder_keys_distinct(fs),
        0 <= i < fs.len(),
        0 <= k < fs[i].1.tasks.len(),
        super::history::ids_distinct(fs[i].1.tasks),
    ensures
        ({
            let gs = progress_stored(fs, key, id, downloaded, total);
            let t = fs[i].1.tasks[k];
            let u = gs[i].1.tasks[k];
            &&& gs.len() == fs.len()
            &&& gs[i].0 == fs[i].0
            &&& gs[i].1.tasks.len() == fs[i].1.tasks.len()
            &&& fs[i].0 == key && t.id == id ==> u.downloaded == downloaded && u.size == (
            match total {
                Some(n) => Some(n),
                None => t.size,
            }) && u == (TaskView { downloaded, size: u.size, ..t })
            &&& !(fs[i].0 == key && t.id == id) ==> u == t
        }),
{
    lemma_folder_from(fs, key, 0);
    lemma_position(fs[i].1.tasks, id);
    if let Some(j) = folder_at(fs, key) {
        if let Some(p) = position(fs[j].1.tasks, id) {
            lemma_position(fs[j].1.tasks, id);
            law_stored_tasks_are_found(
                fs,
                key,
                task_progressed(fs[j].1.tasks[p], downloaded, total),
                i,
                k,
            );
            if fs[i].0 == key {
                if j < i {
                    assert(fs[j].0 != fs[i].0);
                } else if i < j {
                    assert(fs[i].0 != fs[j].0);
                }
                if fs[i].1.tasks[k].id == id && k != p {
                    assert(fs[i].1.tasks[p].id != fs[i].1.tasks[k].id);
                }
            }
        }
        if fs[i].0 == key {
            if j < i {
                assert(fs[j].0 != fs[i].0);
            } else if i < j {
                assert(fs[i].0 != fs[j].0);
            }
        }
    }
}

/// A folder is busy exactly if one of its tasks waits or runs.
pub proof fn law_busy_means_waiting_or_running(m: ManagerView, key: Seq<char>)
    requires
        m.in_sync(),
    ensures
        folder_busy(m.folders, key) <==> folder_at(m.folders, key) is Some && exists|k: int|
            0 <= k < m.folders[folder_at(m.folders, key)->0].1.tasks.len() && ((
            #[trigger] m.folders[folder_at(m.folders, key)->0].1.tasks[k]).status
                == DownloadStatus::Pending || m.folders[folder_at(
                m.folders,
                key,
            )->0].1.tasks[k].status == DownloadStatus::Downloading),
{
    lemma_folder_from(m.folders, key, 0);
    if let Some(i) = folder_at(m.folders, key) {
        let ts = m.folders[i].1.tasks;
        assert(m.folders[i].1.in_sync());
        lemma_counted(ts, DownloadStatus::Pending);
        lemma_counted(ts, DownloadStatus::Downloading);
    }
}

proof fn lemma_counted(ts: Seq<TaskView>, status: DownloadStatus)
    ensures
        count_status(ts, status) > 0 <==> exists|k: int|
            0 <= k < ts.len() && (#[trigger] ts[k]).status == status,
    decreases ts.len(),
{
    if ts.len() > 0 {
        let before = ts.drop_last();
        lemma_counted(before, status);
        if count_status(before, status) > 0 {
            let k = choose|k: int| 0 <= k < before.len() && (#[trigger] before[k]).status == status;
            assert(ts[k].status == status);
        }
        if exists|k: int| 0 <= k < ts.len() && (#[trigger] ts[k]).status == status {
            let k = choose|k: int| 0 <= k < ts.len() && (#[trigger] ts[k]).status == status;
            if k < before.len() {
                assert(before[k].status == status);
            }
        }
        if ts.last().status == status {
            assert(ts[ts.len() - 1].status == status);
        }
    }
}

/// A limit per folder that fits is kept; one that does not is lowered no further
/// than it must be.
pub proof fn law_limits_are_lowered_no_further(max: usize, per_folder: usize, folders: usize)
    ensures
        per_folder * folders <= max ==> adjusted_limit(max, per_folder, folders) == per_folder,
        per_folder * folders > max ==> (adjusted_limit(max, per_folder, folders) + 1) * folders
            > max,
{
    if per_folder * folders > max {
        let m = max as int;
        let f = folders as int;
        let p = per_folder as int;
        assert(f > 0) by (nonlinear_arith)
            requires
                p * f > m,
                m >= 0,
                p >= 0,
                f >= 0,
        ;
        assert((m / f + 1) * f > m) by (nonlinear_arith)
            requires
                f > 0,
                m >= 0,
        ;
    }
}

/// Without scripts of its own a folder runs those of the application.
pub proof fn law_application_scripts_hold(config: Config, folder_id: Seq<char>)
    requires
        !config.folders@.contains_key(folder_id)
            || config.folders@[folder_id].script_files is None,
    ensures
        effective_scripts(config, folder_id) == config.scripts.script_files@,
{
}

/// A folder may be active exactly if it is already, or if fewer are than may be.
pub proof fn law_room_for_a_folder(m: ManagerView, folder: Seq<char>)
    ensures
        can_activate(m, folder) <==> m.active_folders.contains(folder) || m.active_folders.len()
            < m.parallel,
{
}

/// A download is held against the host of its URL; one that is not there, or whose URL
/// has no host, against none.
pub proof fn law_domain_is_the_host(m: ManagerView, id: u128)
    ensures
        find_task(m.folders, id) is None ==> task_domain(m, id) is None,
        find_task(m.folders, id) is Some && crate::web::url_parts(
            find_task(m.folders, id)->0.url,
        ) is Some ==> task_domain(m, id) == crate::web::url_parts(
            find_task(m.folders, id)->0.url,
        )->0.host,
        find_task(m.folders, id) is Some && crate::web::url_parts(
            find_task(m.folders, id)->0.url,
        ) is None ==> task_domain(m, id) is None,
{
}

/// Renaming a folder that there is not changes nothing.
pub proof fn law_rename_of_nothing(
    fs: Seq<(Seq<char>, QueueView)>,
    old_key: Seq<char>,
    new_key: Seq<char>,
)
    requires
        forall|i: int| 0 <= i < fs.len() ==> (#[trigger] fs[i]).0 != old_key,
    ensures
        folder_renamed(fs, old_key, new_key) == fs,
{
    lemma_folder_from(fs, old_key, 0);
}

/// A refused start is explained, naming the domain or the folder; one that is not
/// refused needs no words.
pub proof fn law_refusals_are_explained(s: StartView)
    ensures
        start_error(s) is None <==> s is Running || s is Ready,
        s is NotFound ==> start_error(s) == Some("Task not found"@),
        s is Blocked ==> start_error(s) == Some(
            "Circuit breaker open for domain '"@ + s->Blocked_0
                + "'. Too many consecutive failures."@,
        ),
        s is FolderLimit ==> start_error(s) == Some(
            "Cannot start download: folder '"@ + s->folder_id + "' cannot be activated ("@
                + decimal(s->active) + " folders already active, max active folders: "@ + decimal(
                s->limit as nat,
            ) + ")"@,
        ),
{
}

// ---------------------------------------------------------------------------
// The manager
// ---------------------------------------------------------------------------

/// One changed queue changes nothing else.
proof fn lemma_slot_changed(a: Seq<FolderSlot>, b: Seq<FolderSlot>, i: int)
    requires
        0 <= i < a.len(),
        a.len() == b.len(),
        b[i].key@ == a[i].key@,
        forall|j: int| 0 <= j < a.len() && j != i ==> b[j] == a[j],
    ensures
        slot_views(b) == with_queue(slot_views(a), i, b[i].queue@),
{
    assert(slot_views(b) =~= with_queue(slot_views(a), i, b[i].queue@));
}

/// The tasks of all folders, one more folder taken in.
proof fn lemma_all_tasks_take(fs: Seq<(Seq<char>, QueueView)>, i: int)
    requires
        0 <= i < fs.len(),
    ensures
        all_tasks(fs.take(i + 1)) == all_tasks(fs.take(i)) + fs[i].1.tasks,
{
    assert(fs.take(i + 1).drop_last() =~= fs.take(i));
}

/// The ids of the tasks with the given status.
pub fn select_ids(tasks: &Vec<DownloadTask>, status: DownloadStatus) -> (r: Vec<u128>)
    ensures
        r@ == ids_with_status(task_views(tasks@), status),
{
    let ghost ts = task_views(tasks@);
    let mut r: Vec<u128> = Vec::new();
    for i in 0..tasks.len()
        invariant
            ts == task_views(tasks@),
            r@ == ids_with_status(ts.take(i as int), status),
    {
        assert(ts.take(i + 1).drop_last() =~= ts.take(i as int));
        if tasks[i].status == status {
            r.push(tasks[i].id);
        }
    }
    assert(ts.take(tasks.len() as int) =~= ts);
    r
}

/// The ids of the tasks that were interrupted.
pub fn select_interrupted(tasks: &Vec<DownloadTask>) -> (r: Vec<u128>)
    ensures
        r@ == interrupted_ids(task_views(tasks@)),
{
    let ghost ts = task_views(tasks@);
    let mut r: Vec<u128> = Vec::new();
    for i in 0..tasks.len()
        invariant
            ts == task_views(tasks@),
            r@ == interrupted_ids(ts.take(i as int)),
    {
        assert(ts.take(i + 1).drop_last() =~= ts.take(i as int));
        if tasks[i].status == DownloadStatus::Paused || tasks[i].status == DownloadStatus::Error {
            r.push(tasks[i].id);
        }
    }
    assert(ts.take(tasks.len() as int) =~= ts);
    r
}

impl DownloadManager {
    /// A manager with limits of its own. The limit per folder is lowered where
    /// all active folders together could exceed the limit for all.
    pub fn with_config(
        max_concurrent: usize,
        max_concurrent_per_folder: usize,
        parallel_folder_count: usize,
        max_retries: u32,
        retry_delay_secs: u64,
    ) -> (r: DownloadManager)
        requires
            max_concurrent_per_folder * parallel_folder_count <= usize::MAX,
        ensures
            r@.folders == Seq::<(Seq<char>, QueueView)>::empty(),
            r@.active == Set::<u128>::empty(),
            r@.active_folders == Set::<Seq<char>>::empty(),
            r@.max_concurrent == max_concurrent,
            r@.permits == max_concurrent,
            r@.per_folder == adjusted_limit(
                max_concurrent,
                max_concurrent_per_folder,
                parallel_folder_count,
            ),
            r@.per_folder * r@.parallel <= max_concurrent,
            r@.parallel == parallel_folder_count,
            r@.max_retries == max_retries,
            r@.retry_delay == retry_delay_secs,
            r@.history == Seq::<TaskView>::empty(),
            new_breaker(r@.breaker),
            r@.wf(),
    {
        proof {
            law_limits_hold(max_concurrent, max_concurrent_per_folder, parallel_folder_count);
        }
        let folders: usize = if parallel_folder_count == 0 {
            1
        } else {
            parallel_folder_count
        };
        let per_folder: usize = if max_concurrent_per_folder * parallel_folder_count
            > max_concurrent {
            max_concurrent / folders
        } else {
            max_concurrent_per_folder
        };
        let r = DownloadManager {
            slots: Vec::new(),
            active: IdSet::new(),
            active_folders: TextMap::new(),
            max_concurrent,
            permits: max_concurrent,
            max_concurrent_per_folder: per_folder,
            parallel_folder_count,
            max_retries,
            retry_delay_secs,
            history: DownloadHistory::new(),
            circuit_breaker: CircuitBreaker::new(),
        };
        assert(r@.folders =~= Seq::<(Seq<char>, QueueView)>::empty());
        assert(r@.active_folders =~= Set::<Seq<char>>::empty());
        r
    }

    fn find_slot(&self, key: &str) -> (r: Option<usize>)
        ensures
            match r {
                Some(i) => folder_at(self@.folders, key@) == Some(i as int) && i
                    < self.slots@.len(),
                None => folder_at(self@.folders, key@) is None,
            },
    {
        let ghost fs = slot_views(self.slots@);
        for i in 0..self.slots.len()
            invariant
                fs == slot_views(self.slots@),
                folder_at(fs, key@) == folder_from(fs, key@, i as int),
        {
            if text_eq(self.slots[i].key.as_str(), key) {
                return Some(i);
            }
        }
        None
    }

    fn find_holder(&self, id: u128) -> (r: Option<(usize, DownloadTask)>)
        ensures
            match r {
                Some((i, t)) => holder(self@.folders, id) == Some(i as int) && i
                    < self.slots@.len() && find_task(self@.folders, id) == Some(t@),
                None => holder(self@.folders, id) is None && find_task(
                    self@.folders,
                    id,
                ) is None,
            },
    {
        let ghost fs = slot_views(self.slots@);
        for i in 0..self.slots.len()
            invariant
                fs == slot_views(self.slots@),
                holder(fs, id) == holder_from(fs, id, i as int),
        {
            if let Some(t) = self.slots[i].queue.get_by_id(id) {
                return Some((i, t));
            }
        }
        None
    }

    fn slot_for(&mut self, key: &str) -> (r: usize)
        requires
            old(self)@.wf(),
        ensures
            final(self)@ == (ManagerView {
                folders: with_folder(old(self)@.folders, key@, old(self)@.per_folder),
                ..old(self)@
            }),
            folder_at(final(self)@.folders, key@) == Some(r as int),
            r < final(self).slots@.len(),
            final(self)@.wf(),
            old(self)@.in_sync() ==> final(self)@.in_sync(),
    {
        match self.find_slot(key) {
            Some(i) => i,
            None => {
                let n: usize = self.slots.len();
                let queue = FolderQueue::new(key.to_owned(), self.max_concurrent_per_folder);
                self.slots.push(FolderSlot { key: key.to_owned(), queue });
                proof {
                    let fs = old(self)@.folders;
                    let gs = self@.folders;
                    assert(gs =~= with_folder(fs, key@, old(self)@.per_folder));
                    lemma_folder_from(fs, key@, 0);
                    lemma_folder_from(gs, key@, 0);
                    assert(gs[n as int].0 == key@);
                    assert forall|j: int| 0 <= j < n implies (#[trigger] gs[j]).0 != key@ by {
                        assert(gs[j] == fs[j]);
                    }
                    assert forall|a: int, b: int|
                        #![trigger gs[a], gs[b]]
                        0 <= a < b < gs.len() implies gs[a].0 != gs[b].0 by {
                        assert(gs[a] == fs[a]);
                        if b < n {
                            assert(gs[b] == fs[b]);
                        }
                    }
                    assert forall|a: int| 0 <= a < gs.len() implies (
                    #[trigger] gs[a]).1.bounded() by {
                        if a < n {
                            assert(gs[a] == fs[a]);
                        }
                    }
                }
                n
            },
        }
    }

    fn store(&mut self, task: DownloadTask)
        requires
            old(self)@.wf(),
        ensures
            final(self)@ == (ManagerView {
                folders: task_added(old(self)@.folders, task@, old(self)@.per_folder),
                ..old(self)@
            }),
            final(self)@.wf(),
            old(self)@.in_sync() ==> final(self)@.in_sync(),
    {
        let key = task.folder_id.clone();
        let i: usize = self.slot_for(key.as_str());
        let ghost before = self.slots@;
        let ghost mid = self@;
        self.slots[i].queue.add(task);
        proof {
            lemma_slot_changed(before, self.slots@, i as int);
            lemma_with_queue(mid, i as int, self.slots@[i as int].queue@);
            assert(self@ =~= ManagerView {
                folders: with_queue(mid.folders, i as int, self.slots@[i as int].queue@),
                ..mid
            });
        }
    }

    /// Adds a download to the queue of its folder, under a name that is safe.
    pub fn add_download(&mut self, task: DownloadTask)
        requires
            old(self)@.wf(),
        ensures
            final(self)@ == (ManagerView {
                folders: task_added(
                    old(self)@.folders,
                    TaskView { filename: sanitized(task@.filename), ..task@ },
                    old(self)@.per_folder,
                ),
                ..old(self)@
            }),
            final(self)@.wf(),
            old(self)@.in_sync() ==> final(self)@.in_sync(),
    {
        let mut task = task;
        task.filename = sanitize_filename(task.filename.as_str());
        self.store(task);
    }

    /// A manager with the usual limits: three downloads at once, all in one
    /// folder, three attempts, and five seconds before the second.
    pub fn new() -> (r: DownloadManager)
        ensures
            r@.folders == Seq::<(Seq<char>, QueueView)>::empty(),
            r@.active == Set::<u128>::empty(),
            r@.active_folders == Set::<Seq<char>>::empty(),
            r@.max_concurrent == 3,
            r@.permits == 3,
            r@.per_folder == 3,
            r@.parallel == 1,
            r@.max_retries == 3,
            r@.retry_delay == 5,
            r@.history == Seq::<TaskView>::empty(),
            new_breaker(r@.breaker),
            r@.wf(),
    {
        DownloadManager::with_config(3, 3, 1, 3, 5)
    }

    /// A manager with a limit of its own, all of it for one folder.
    pub fn with_max_concurrent(max_concurrent: usize) -> (r: DownloadManager)
        ensures
            r@.folders == Seq::<(Seq<char>, QueueView)>::empty(),
            r@.active == Set::<u128>::empty(),
            r@.active_folders == Set::<Seq<char>>::empty(),
            r@.max_concurrent == max_concurrent,
            r@.permits == max_concurrent,
            r@.per_folder == max_concurrent,
            r@.parallel == 1,
            r@.max_retries == 3,
            r@.retry_delay == 5,
            r@.history == Seq::<TaskView>::empty(),
            new_breaker(r@.breaker),
            r@.wf(),
    {
        DownloadManager::with_config(max_concurrent, max_concurrent, 1, 3, 5)
    }

    /// A manager with its own number of attempts and delay between them.
    pub fn with_retry_settings(max_retries: u32, retry_delay_secs: u64) -> (r: DownloadManager)
        ensures
            r@.folders == Seq::<(Seq<char>, QueueView)>::empty(),
            r@.active == Set::<u128>::empty(),
            r@.active_folders == Set::<Seq<char>>::empty(),
            r@.max_concurrent == 3,
            r@.permits == 3,
            r@.per_folder == 3,
            r@.parallel == 1,
            r@.max_retries == max_retries,
            r@.retry_delay == retry_delay_secs,
            r@.history == Seq::<TaskView>::empty(),
            new_breaker(r@.breaker),
            r@.wf(),
    {
        DownloadManager::with_config(3, 3, 1, max_retries, retry_delay_secs)
    }

    /// The downloads of all folders, one folder after another.
    pub fn get_all_downloads(&self) -> (r: Vec<DownloadTask>)
        ensures
            task_views(r@) == all_tasks(self@.folders),
    {
        let ghost fs = slot_views(self.slots@);
        let mut r: Vec<DownloadTask> = Vec::new();
        assert(task_views(r@) =~= Seq::<TaskView>::empty());
        for i in 0..self.slots.len()
            invariant
                fs == slot_views(self.slots@),
                task_views(r@) == all_tasks(fs.take(i as int)),
        {
            let mut part = self.slots[i].queue.get_all();
            proof {
                lemma_all_tasks_take(fs, i as int);
                assert(task_views(r@ + part@) =~= task_views(r@) + task_views(part@));
            }
            r.append(&mut part);
        }
        assert(fs.take(fs.len() as int) =~= fs);
        r
    }

    /// The downloads of a folder.
    pub fn get_folder_downloads(&self, folder_id: &str) -> (r: Vec<DownloadTask>)
        ensures
            task_views(r@) == (match folder_at(self@.folders, folder_id@) {
                Some(i) => self@.folders[i].1.tasks,
                None => Seq::empty(),
            }),
    {
        match self.find_slot(folder_id) {
            Some(i) => self.slots[i].queue.get_all(),
            None => {
                let r: Vec<DownloadTask> = Vec::new();
                assert(task_views(r@) =~= Seq::empty());
                r
            },
        }
    }

    /// The download with the given id.
    pub fn get_by_id(&self, id: u128) -> (r: Option<DownloadTask>)
        ensures
            match r {
                Some(t) => find_task(self@.folders, id) == Some(t@),
                None => find_task(self@.folders, id) is None,
            },
    {
        match self.find_holder(id) {
            Some((_, t)) => Some(t),
            None => None,
        }
    }

    fn take_out(&mut self, id: u128) -> (r: Option<DownloadTask>)
        requires
            old(self)@.wf(),
        ensures
            match r {
                Some(t) => find_task(old(self)@.folders, id) == Some(t@),
                None => find_task(old(self)@.folders, id) is None,
            },
            final(self)@ == (ManagerView {
                folders: task_removed(old(self)@.folders, id),
                ..old(self)@
            }),
            final(self)@.wf(),
            old(self)@.in_sync() ==> final(self)@.in_sync(),
    {
        match self.find_holder(id) {
            Some((i, _)) => {
                let ghost before = self.slots@;
                let r = self.slots[i].queue.remove(id);
                proof {
                    lemma_holder_from(old(self)@.folders, id, 0);
                    lemma_slot_changed(before, self.slots@, i as int);
                    lemma_with_queue(old(self)@, i as int, self.slots@[i as int].queue@);
                    assert(self@ =~= ManagerView {
                        folders: task_removed(old(self)@.folders, id),
                        ..old(self)@
                    });
                }
                r
            },
            None => None,
        }
    }

    /// Takes a download out of its queue and out of those that run.
    pub fn remove_download(&mut self, id: u128) -> (r: Option<DownloadTask>)
        requires
            old(self)@.wf(),
        ensures
            match r {
                Some(t) => find_task(old(self)@.folders, id) == Some(t@),
                None => find_task(old(self)@.folders, id) is None,
            },
            final(self)@ == (ManagerView {
                folders: task_removed(old(self)@.folders, id),
                active: old(self)@.active.remove(id),
                breaker: old(self)@.breaker.released(id),
                ..old(self)@
            }),
            final(self)@.wf(),
            old(self)@.in_sync() ==> final(self)@.in_sync(),
    {
        self.active.remove(id);
        self.circuit_breaker.release(id);
        self.take_out(id)
    }

    /// Stores a download in the queue under the given key, in the place of the
    /// one with the same id.
    pub fn update_task(&mut self, key: &str, task: DownloadTask)
        requires
            old(self)@.wf(),
        ensures
            final(self)@ == (ManagerView {
                folders: task_updated(old(self)@.folders, key@, task@),
                ..old(self)@
            }),
            final(self)@.wf(),
            old(self)@.in_sync() ==> final(self)@.in_sync(),
    {
        if let Some(i) = self.find_slot(key) {
            let ghost before = self.slots@;
            assert(self@.folders[i as int].1.bounded());
            self.slots[i].queue.update(task);
            proof {
                lemma_slot_changed(before, self.slots@, i as int);
                lemma_with_queue(old(self)@, i as int, self.slots@[i as int].queue@);
                assert(self@ =~= ManagerView {
                    folders: task_updated(old(self)@.folders, key@, task@),
                    ..old(self)@
                });
            }
        }
    }

    /// Takes a download that is over out of the queue under the given key.
    pub fn remove_finished(&mut self, key: &str, id: u128)
        requires
            old(self)@.wf(),
        ensures
            final(self)@ == (ManagerView {
                folders: match folder_at(old(self)@.folders, key@) {
                    Some(i) => with_queue(
                        old(self)@.folders,
                        i,
                        queue_removed(old(self)@.folders[i].1, id),
                    ),
                    None => old(self)@.folders,
                },
                breaker: old(self)@.breaker.released(id),
                ..old(self)@
            }),
            final(self)@.wf(),
            old(self)@.in_sync() ==> final(self)@.in_sync(),
    {
        self.circuit_breaker.release(id);
        if let Some(i) = self.find_slot(key) {
            let ghost before = self.slots@;
            let _ = self.slots[i].queue.remove(id);
            proof {
                lemma_slot_changed(before, self.slots@, i as int);
                lemma_with_queue(old(self)@, i as int, self.slots@[i as int].queue@);
                assert(self@ =~= ManagerView {
                    folders: with_queue(
                        old(self)@.folders,
                        i as int,
                        queue_removed(old(self)@.folders[i as int].1, id),
                    ),
                    breaker: old(self)@.breaker.released(id),
                    ..old(self)@
                });
            }
        }
    }

    /// Pauses a download.
    pub fn pause_download(&mut self, id: u128)
        requires
            old(self)@.wf(),
        ensures
            final(self)@ == paused(old(self)@, id),
            final(self)@.wf(),
            old(self)@.in_sync() ==> final(self)@.in_sync(),
    {
        self.active.remove(id);
        self.circuit_breaker.release(id);
        if let Some((_, t)) = self.find_holder(id) {
            let mut task = t;
            let key = task.folder_id.clone();
            task.status = DownloadStatus::Paused;
            self.update_task(key.as_str(), task);
        }
        assert(self@ =~= paused(old(self)@, id));
    }

    fn pause_each(&mut self, ids: Vec<u128>) -> (r: usize)
        requires
            old(self)@.wf(),
        ensures
            final(self)@ == all_paused(old(self)@, ids@),
            r == ids@.len(),
            final(self)@.wf(),
            old(self)@.in_sync() ==> final(self)@.in_sync(),
    {
        assert(ids@.take(0) =~= Seq::<u128>::empty());
        for i in 0..ids.len()
            invariant
                self@ == all_paused(old(self)@, ids@.take(i as int)),
                self@.wf(),
                old(self)@.in_sync() ==> self@.in_sync(),
        {
            self.pause_download(ids[i]);
            assert(ids@.take(i + 1).drop_last() =~= ids@.take(i as int));
        }
        assert(ids@.take(ids@.len() as int) =~= ids@);
        ids.len()
    }

    /// Pauses every download that runs, and says how many.
    pub fn pause_all(&mut self) -> (r: usize)
        requires
            old(self)@.wf(),
        ensures
            final(self)@ == all_paused(
                old(self)@,
                ids_with_status(all_tasks(old(self)@.folders), DownloadStatus::Downloading),
            ),
            r == ids_with_status(
                all_tasks(old(self)@.folders),
                DownloadStatus::Downloading,
            ).len(),
            final(self)@.wf(),
            old(self)@.in_sync() ==> final(self)@.in_sync(),
    {
        let all = self.get_all_downloads();
        let ids = select_ids(&all, DownloadStatus::Downloading);
        self.pause_each(ids)
    }

    /// Pauses every download that runs, and says how many.
    pub fn stop_all_tasks(&mut self) -> (r: usize)
        requires
            old(self)@.wf(),
        ensures
            final(self)@ == all_paused(
                old(self)@,
                ids_with_status(all_tasks(old(self)@.folders), DownloadStatus::Downloading),
            ),
            r == ids_with_status(
                all_tasks(old(self)@.folders),
                DownloadStatus::Downloading,
            ).len(),
            final(self)@.wf(),
            old(self)@.in_sync() ==> final(self)@.in_sync(),
    {
        self.pause_all()
    }

    /// Pauses every download of a folder that runs, and says how many.
    pub fn stop_folder_tasks(&mut self, folder_id: &str) -> (r: usize)
        requires
            old(self)@.wf(),
        ensures
            ({
                let ids = match folder_at(old(self)@.folders, folder_id@) {
                    Some(i) => ids_with_status(
                        old(self)@.folders[i].1.tasks,
                        DownloadStatus::Downloading,
                    ),
                    None => Seq::empty(),
                };
                &&& final(self)@ == all_paused(old(self)@, ids)
                &&& r == ids.len()
            }),
            final(self)@.wf(),
            old(self)@.in_sync() ==> final(self)@.in_sync(),
    {
        let tasks = self.get_folder_downloads(folder_id);
        let ids = select_ids(&tasks, DownloadStatus::Downloading);
        self.pause_each(ids)
    }

    /// Puts a download into another folder, behind all others there.
    pub fn change_folder(&mut self, id: u128, new_folder_id: String) -> (r: Result<(), String>)
        requires
            old(self)@.wf(),
        ensures
            match find_task(old(self)@.folders, id) {
                Some(t) => r is Ok && final(self)@ == (ManagerView {
                    folders: task_added(
                        task_removed(old(self)@.folders, id),
                        TaskView { folder_id: new_folder_id@, ..t },
                        old(self)@.per_folder,
                    ),
                    ..old(self)@
                }),
                None => r is Err && r->Err_0@ == "Task not found"@ && final(self)@ == old(self)@,
            },
            final(self)@.wf(),
            old(self)@.in_sync() ==> final(self)@.in_sync(),
    {
        match self.take_out(id) {
            Some(t) => {
                let mut task = t;
                task.folder_id = new_folder_id;
                self.store(task);
                Ok(())
            },
            None => {
                assert(self@ =~= old(self)@);
                Err("Task not found".to_owned())
            },
        }
    }

    /// Puts a folder under another key. A folder that was there is lost.
    pub fn rename_folder(&mut self, old_id: &str, new_id: &str)
        requires
            old(self)@.wf(),
        ensures
            final(self)@ == (ManagerView {
                folders: folder_renamed(old(self)@.folders, old_id@, new_id@),
                ..old(self)@
            }),
            final(self)@.wf(),
            old(self)@.in_sync() ==> final(self)@.in_sync(),
    {
        if let Some(i) = self.find_slot(old_id) {
            let ghost fs = old(self)@.folders;
            let mut slot = self.slots.remove(i);
            let ghost rest = self@.folders;
            let ghost mid = self@;
            assert(rest =~= fs.remove(i as int));
            let tasks = slot.queue.get_all();
            let ghost q = slot.queue@;
            let ghost ts = task_views(tasks@);
            assert(fs[i as int].1 == q);
            assert(ts.take(0) =~= Seq::<TaskView>::empty());
            for k in 0..tasks.len()
                invariant
                    ts == task_views(tasks@),
                    slot.queue@ == refiled(q, ts.take(k as int), new_id@),
                    slot.queue@.bounded(),
                    q.in_sync() ==> slot.queue@.in_sync(),
            {
                let mut task = tasks[k].clone();
                task.folder_id = new_id.to_owned();
                assert(task@ =~= TaskView { folder_id: new_id@, ..ts[k as int] });
                assert(ts.take(k + 1).drop_last() =~= ts.take(k as int));
                slot.queue.update(task);
            }
            assert(ts.take(ts.len() as int) =~= ts);
            slot.key = new_id.to_owned();
            proof {
                assert forall|a: int, b: int|
                    #![trigger rest[a], rest[b]]
                    0 <= a < b < rest.len() implies rest[a].0 != rest[b].0 by {
                    let x = if a < i {
                        a
                    } else {
                        a + 1
                    };
                    let y = if b < i {
                        b
                    } else {
                        b + 1
                    };
                    assert(rest[a] == fs[x]);
                    assert(rest[b] == fs[y]);
                }
                assert forall|a: int| 0 <= a < rest.len() implies (
                #[trigger] rest[a]).1.bounded() by {
                    let x = if a < i {
                        a
                    } else {
                        a + 1
                    };
                    assert(rest[a] == fs[x]);
                }
                if old(self)@.in_sync() {
                    assert(q.in_sync());
                    assert forall|a: int| 0 <= a < rest.len() implies (
                    #[trigger] rest[a]).1.in_sync() by {
                        let x = if a < i {
                            a
                        } else {
                            a + 1
                        };
                        assert(rest[a] == fs[x]);
                    }
                    assert(mid.in_sync());
                }
                lemma_folder_from(rest, new_id@, 0);
            }
            let ghost moved = slot.queue@;
            match self.find_slot(new_id) {
                Some(j) => {
                    self.slots.set(j, slot);
                    assert(self@.folders =~= rest.update(j as int, (new_id@, moved)));
                    assert(self@.folders =~= with_queue(rest, j as int, moved));
                    proof {
                        lemma_with_queue(mid, j as int, moved);
                    }
                },
                None => {
                    self.slots.push(slot);
                    assert(self@.folders =~= rest.push((new_id@, moved)));
                    let ghost gs = self@.folders;
                    proof {
                        assert forall|a: int, b: int|
                            #![trigger gs[a], gs[b]]
                            0 <= a < b < gs.len() implies gs[a].0 != gs[b].0 by {
                            assert(gs[a] == rest[a]);
                            if b < rest.len() {
                                assert(gs[b] == rest[b]);
                            }
                        }
                        assert forall|a: int| 0 <= a < gs.len() implies (
                        #[trigger] gs[a]).1.bounded() by {
                            if a < rest.len() {
                                assert(gs[a] == rest[a]);
                            }
                        }
                        if old(self)@.in_sync() {
                            assert forall|a: int| 0 <= a < gs.len() implies (
                            #[trigger] gs[a]).1.in_sync() by {
                                if a < rest.len() {
                                    assert(gs[a] == rest[a]);
                                }
                            }
                        }
                    }
                },
            }
            assert(self@.folders == folder_renamed(fs, old_id@, new_id@));
        }
        assert(self@ =~= ManagerView {
            folders: folder_renamed(old(self)@.folders, old_id@, new_id@),
            ..old(self)@
        });
    }

    /// Gives a download that does not run and is not over another place.
    pub fn change_save_path(&mut self, id: u128, new_path: SavePath) -> (r: Result<(), String>)
        requires
            old(self)@.wf(),
        ensures
            match find_task(old(self)@.folders, id) {
                Some(t) => if t.status == DownloadStatus::Pending || was_interrupted(t) {
                    r is Ok && final(self)@ == (ManagerView {
                        folders: task_updated(
                            old(self)@.folders,
                            t.folder_id,
                            TaskView { save_path: new_path@, ..t },
                        ),
                        ..old(self)@
                    })
                } else {
                    r is Err && r->Err_0@ == "Cannot change path of active or completed download"@
                        && final(self)@ == old(self)@
                },
                None => r is Err && r->Err_0@ == "Task not found"@ && final(self)@ == old(self)@,
            },
            final(self)@.wf(),
            old(self)@.in_sync() ==> final(self)@.in_sync(),
    {
        match self.find_holder(id) {
            Some((_, t)) => {
                let mut task = t;
                if task.status == DownloadStatus::Pending || task.status == DownloadStatus::Paused
                    || task.status == DownloadStatus::Error {
                    let key = task.folder_id.clone();
                    task.save_path = new_path;
                    self.update_task(key.as_str(), task);
                    Ok(())
                } else {
                    Err("Cannot change path of active or completed download".to_owned())
                }
            },
            None => Err("Task not found".to_owned()),
        }
    }

    /// The downloads to start where all that were interrupted are to go on.
    pub fn resumable_ids(&self) -> (r: Vec<u128>)
        ensures
            r@ == interrupted_ids(all_tasks(self@.folders)),
    {
        let all = self.get_all_downloads();
        select_interrupted(&all)
    }

    /// The downloads to start where all that wait are to.
    pub fn pending_ids(&self) -> (r: Vec<u128>)
        ensures
            r@ == ids_with_status(all_tasks(self@.folders), DownloadStatus::Pending),
    {
        let all = self.get_all_downloads();
        select_ids(&all, DownloadStatus::Pending)
    }

    /// The downloads to start where all of a folder that wait are to.
    pub fn folder_pending_ids(&self, folder_id: &str) -> (r: Vec<u128>)
        ensures
            r@ == (match folder_at(self@.folders, folder_id@) {
                Some(i) => ids_with_status(self@.folders[i].1.tasks, DownloadStatus::Pending),
                None => Seq::empty(),
            }),
    {
        let tasks = self.get_folder_downloads(folder_id);
        select_ids(&tasks, DownloadStatus::Pending)
    }

    /// How many downloads are paused.
    pub fn get_paused_count(&self) -> (r: usize)
        ensures
            r == ids_with_status(all_tasks(self@.folders), DownloadStatus::Paused).len(),
    {
        let all = self.get_all_downloads();
        select_ids(&all, DownloadStatus::Paused).len()
    }

    /// How many downloads run.
    pub fn get_downloading_count(&self) -> (r: usize)
        ensures
            r == ids_with_status(all_tasks(self@.folders), DownloadStatus::Downloading).len(),
    {
        let all = self.get_all_downloads();
        select_ids(&all, DownloadStatus::Downloading).len()
    }

    /// What is known of the domains.
    pub fn circuit_breaker(&self) -> (r: &CircuitBreaker)
        ensures
            r@ == self@.breaker,
    {
        &self.circuit_breaker
    }

    /// Forgets what is known of a domain.
    pub fn reset_circuit(&mut self, domain: &str)
        ensures
            final(self)@ == (ManagerView {
                breaker: old(self)@.breaker.forgotten(domain@),
                ..old(self)@
            }),
    {
        self.circuit_breaker.reset(domain);
    }

    /// Forgets what is known of all domains.
    pub fn reset_all_circuits(&mut self)
        ensures
            final(self)@ == (ManagerView {
                breaker: old(self)@.breaker.emptied(),
                ..old(self)@
            }),
    {
        self.circuit_breaker.clear_all();
    }

    /// The domains that requests are blocked for.
    pub fn get_blocked_domains(&self) -> (r: Vec<String>)
        ensures
            texts(r@).no_duplicates(),
            forall|d: Seq<char>| #[trigger]
                texts(r@).contains(d) <==> self@.breaker.circuits.contains_key(d)
                    && self@.breaker.circuits[d].state == CircuitState::Open,
    {
        self.circuit_breaker.get_open_circuits()
    }

    fn active_folder_count(&self) -> (r: usize)
        ensures
            r == self@.active_folders.len(),
            self@.active_folders.finite(),
    {
        let n: usize = self.active_folders.len();
        proof {
            lemma_map_of_len(self.active_folders.pairs());
        }
        n
    }

    /// Makes a folder active if it is not yet and one more may be. Says whether
    /// it is active then.
    pub fn try_activate_folder(&mut self, folder_id: &str) -> (r: bool)
        ensures
            r == can_activate(old(self)@, folder_id@),
            r ==> final(self)@ == (ManagerView {
                active_folders: old(self)@.active_folders.insert(folder_id@),
                ..old(self)@
            }),
            !r ==> final(self)@ == old(self)@,
    {
        let n: usize = self.active_folder_count();
        if self.active_folders.contains_key(folder_id) {
            assert(self@.active_folders =~= self@.active_folders.insert(folder_id@));
            true
        } else if n < self.parallel_folder_count {
            self.active_folders.insert(folder_id.to_owned(), ());
            assert(self@.active_folders =~= old(self)@.active_folders.insert(folder_id@));
            true
        } else {
            false
        }
    }

    /// Makes a folder inactive if its counts show no waiting or running task.
    pub fn deactivate_folder_if_empty(&mut self, folder_id: &str)
        ensures
            final(self)@ == (ManagerView {
                active_folders: if folder_busy(old(self)@.folders, folder_id@) {
                    old(self)@.active_folders
                } else {
                    old(self)@.active_folders.remove(folder_id@)
                },
                ..old(self)@
            }),
    {
        let busy = match self.find_slot(folder_id) {
            Some(i) => self.slots[i].queue.has_active_tasks(),
            None => false,
        };
        if !busy {
            let _ = self.active_folders.remove(folder_id);
            assert(self@.active_folders =~= old(self)@.active_folders.remove(folder_id@));
        }
    }

    /// Changes the limit that the user has set. How many downloads may run at
    /// once stays as it was at the start.
    pub fn set_max_concurrent(&mut self, max: usize)
        ensures
            final(self)@ == (ManagerView { max_concurrent: max, ..old(self)@ }),
    {
        self.max_concurrent = max;
    }

    /// The limit that the user has set.
    pub fn max_concurrent(&self) -> (r: usize)
        ensures
            r == self@.max_concurrent,
    {
        self.max_concurrent
    }

    /// How many downloads of one folder may run at once.
    pub fn max_concurrent_per_folder(&self) -> (r: usize)
        ensures
            r == self@.per_folder,
    {
        self.max_concurrent_per_folder
    }

    /// How many downloads were started and not stopped.
    pub fn get_active_count(&self) -> (r: usize)
        ensures
            r == self@.active.len(),
    {
        self.active.len()
    }

    /// Whether any download was started and not stopped.
    pub fn has_active_downloads(&self) -> (r: bool)
        ensures
            r == (self@.active.len() > 0),
    {
        self.active.len() > 0
    }

    /// Adds downloads as they were stored, one after another.
    pub fn load_queue(&mut self, tasks: Vec<DownloadTask>)
        requires
            old(self)@.wf(),
        ensures
            final(self)@ == (ManagerView {
                folders: tasks_added(
                    old(self)@.folders,
                    task_views(tasks@),
                    old(self)@.per_folder,
                ),
                ..old(self)@
            }),
            final(self)@.wf(),
            old(self)@.in_sync() ==> final(self)@.in_sync(),
    {
        let ghost ts = task_views(tasks@);
        assert(ts.take(0) =~= Seq::<TaskView>::empty());
        for i in 0..tasks.len()
            invariant
                ts == task_views(tasks@),
                self@ == (ManagerView {
                    folders: tasks_added(
                        old(self)@.folders,
                        ts.take(i as int),
                        old(self)@.per_folder,
                    ),
                    ..old(self)@
                }),
                self@.wf(),
                old(self)@.in_sync() ==> self@.in_sync(),
        {
            self.store(tasks[i].clone());
            assert(ts.take(i + 1).drop_last() =~= ts.take(i as int));
        }
        assert(ts.take(ts.len() as int) =~= ts);
    }

    /// Gives a download another priority.
    pub fn set_priority(&mut self, id: u128, priority: u8) -> (r: Result<(), String>)
        requires
            old(self)@.wf(),
        ensures
            r is Ok <==> holder(old(self)@.folders, id) is Some,
            r is Err ==> r->Err_0@ == "Download not found"@,
            final(self)@ == (ManagerView {
                folders: priority_set(old(self)@.folders, id, priority as i32),
                ..old(self)@
            }),
            final(self)@.wf(),
            old(self)@.in_sync() ==> final(self)@.in_sync(),
    {
        match self.find_holder(id) {
            Some((i, _)) => {
                let ghost before = self.slots@;
                let _ = self.slots[i].queue.set_priority(id, priority as i32);
                proof {
                    lemma_holder_from(old(self)@.folders, id, 0);
                    lemma_slot_changed(before, self.slots@, i as int);
                    lemma_with_queue(old(self)@, i as int, self.slots@[i as int].queue@);
                    assert(self@ =~= ManagerView {
                        folders: priority_set(old(self)@.folders, id, priority as i32),
                        ..old(self)@
                    });
                }
                Ok(())
            },
            None => Err("Download not found".to_owned()),
        }
    }

    /// Moves a download to the front of its queue.
    pub fn move_to_top(&mut self, id: u128) -> (r: Result<(), String>)
        requires
            old(self)@.wf(),
        ensures
            match holder(old(self)@.folders, id) {
                Some(i) => r is Ok && final(self)@ == (ManagerView {
                    folders: reordered(
                        old(self)@.folders,
                        i,
                        moved_to_top(old(self)@.folders[i].1.tasks, id),
                    ),
                    ..old(self)@
                }),
                None => r is Err && r->Err_0@ == "Download not found"@ && final(self)@
                    == old(self)@,
            },
            final(self)@.wf(),
            old(self)@.in_sync() ==> final(self)@.in_sync(),
    {
        match self.find_holder(id) {
            Some((i, _)) => {
                let ghost before = self.slots@;
                let _ = self.slots[i].queue.move_to_top(id);
                proof {
                    lemma_slot_changed(before, self.slots@, i as int);
                    lemma_with_queue(old(self)@, i as int, self.slots@[i as int].queue@);
                }
                Ok(())
            },
            None => Err("Download not found".to_owned()),
        }
    }

    /// Moves a download to the back of its queue.
    pub fn move_to_bottom(&mut self, id: u128) -> (r: Result<(), String>)
        requires
            old(self)@.wf(),
        ensures
            match holder(old(self)@.folders, id) {
                Some(i) => r is Ok && final(self)@ == (ManagerView {
                    folders: reordered(
                        old(self)@.folders,
                        i,
                        moved_to_bottom(old(self)@.folders[i].1.tasks, id),
                    ),
                    ..old(self)@
                }),
                None => r is Err && r->Err_0@ == "Download not found"@ && final(self)@
                    == old(self)@,
            },
            final(self)@.wf(),
            old(self)@.in_sync() ==> final(self)@.in_sync(),
    {
        match self.find_holder(id) {
            Some((i, _)) => {
                let ghost before = self.slots@;
                let _ = self.slots[i].queue.move_to_bottom(id);
                proof {
                    lemma_slot_changed(before, self.slots@, i as int);
                    lemma_with_queue(old(self)@, i as int, self.slots@[i as int].queue@);
                }
                Ok(())
            },
            None => Err("Download not found".to_owned()),
        }
    }

    /// Moves a download to just before another of the same folder.
    pub fn move_before(&mut self, id: u128, before_id: u128) -> (r: Result<(), String>)
        requires
            old(self)@.wf(),
        ensures
            match mover_from(old(self)@.folders, id, before_id, 0) {
                Some(i) => r is Ok && final(self)@ == (ManagerView {
                    folders: reordered(
                        old(self)@.folders,
                        i,
                        moved_before(old(self)@.folders[i].1.tasks, id, before_id),
                    ),
                    ..old(self)@
                }),
                None => r is Err && r->Err_0@ == "Download not found"@ && final(self)@
                    == old(self)@,
            },
            final(self)@.wf(),
            old(self)@.in_sync() ==> final(self)@.in_sync(),
    {
        let ghost fs = old(self)@.folders;
        let n: usize = self.slots.len();
        for i in 0..n
            invariant
                n == self.slots@.len(),
                fs == old(self)@.folders,
                self@ == old(self)@,
                self@.wf(),
                mover_from(fs, id, before_id, 0) == mover_from(fs, id, before_id, i as int),
        {
            let ghost before = self.slots@;
            let ghost mid = self@;
            let moved = self.slots[i].queue.move_before(id, before_id);
            proof {
                lemma_slot_changed(before, self.slots@, i as int);
                lemma_with_queue(mid, i as int, self.slots@[i as int].queue@);
            }
            if moved {
                return Ok(());
            }
            assert(self@.folders =~= fs);
        }
        Err("Download not found".to_owned())
    }

    /// Adds a download to the history, unless one with its id is there already.
    pub fn add_to_history(&mut self, task: DownloadTask)
        ensures
            final(self)@ == (ManagerView {
                history: history_added(old(self)@.history, task@),
                ..old(self)@
            }),
    {
        self.history.add(task);
    }

    /// Takes a download out of the history.
    pub fn remove_from_history(&mut self, id: u128) -> (r: Option<DownloadTask>)
        ensures
            match r {
                Some(t) => position(old(self)@.history, id) is Some && t@
                    == old(self)@.history[position(old(self)@.history, id)->0],
                None => position(old(self)@.history, id) is None,
            },
            final(self)@ == (ManagerView {
                history: history_removed(old(self)@.history, id),
                ..old(self)@
            }),
    {
        self.history.remove(id)
    }

    /// The history.
    pub fn get_history(&self) -> (r: Vec<DownloadTask>)
        ensures
            task_views(r@) == self@.history,
    {
        let all = self.history.all();
        let ghost ts = task_views(all@);
        let mut r: Vec<DownloadTask> = Vec::new();
        assert(task_views(r@) =~= ts.take(0));
        for i in 0..all.len()
            invariant
                ts == task_views(all@),
                task_views(r@) == ts.take(i as int),
        {
            let t = all[i].clone();
            assert(task_views(r@.push(t)) =~= task_views(r@).push(t@));
            assert(ts.take(i as int).push(ts[i as int]) =~= ts.take(i + 1));
            r.push(t);
        }
        assert(ts.take(ts.len() as int) =~= ts);
        r
    }

    /// A download of the history.
    pub fn get_history_item(&self, id: u128) -> (r: Option<DownloadTask>)
        ensures
            match r {
                Some(t) => position(self@.history, id) is Some && t@ == self@.history[position(
                    self@.history,
                    id,
                )->0],
                None => position(self@.history, id) is None,
            },
    {
        match self.history.get(id) {
            Some(t) => Some(t.clone()),
            None => None,
        }
    }

    /// Forgets the history.
    pub fn clear_history(&mut self)
        ensures
            final(self)@ == (ManagerView { history: Seq::empty(), ..old(self)@ }),
    {
        self.history.clear();
    }

    /// How many downloads the history has.
    pub fn history_len(&self) -> (r: usize)
        ensures
            r == self@.history.len(),
    {
        self.history.len()
    }

    /// Replaces the history by one that was stored.
    pub fn load_history(&mut self, history: DownloadHistory)
        ensures
            final(self)@ == (ManagerView { history: history@, ..old(self)@ }),
    {
        self.history = history;
    }

    /// Takes a download out of the history and queues it again from the start.
    pub fn move_from_history_to_queue(
        &mut self,
        id: u128,
        new_folder_id: Option<String>,
    ) -> (r: Result<(), String>)
        requires
            old(self)@.wf(),
        ensures
            match position(old(self)@.history, id) {
                Some(p) => r is Ok && final(self)@ == (ManagerView {
                    history: history_removed(old(self)@.history, id),
                    folders: task_added(
                        old(self)@.folders,
                        task_revived(old(self)@.history[p], opt_text(new_folder_id)),
                        old(self)@.per_folder,
                    ),
                    ..old(self)@
                }),
                None => r is Err && r->Err_0@ == "History item not found"@ && final(self)@
                    == old(self)@,
            },
            final(self)@.wf(),
            old(self)@.in_sync() ==> final(self)@.in_sync(),
    {
        match self.history.remove(id) {
            Some(t) => {
                let mut task = t;
                task.status = DownloadStatus::Pending;
                task.downloaded = 0;
                task.error_message = None;
                task.logs = Vec::new();
                task.retry_count = 0;
                task.started_at = None;
                task.completed_at = None;
                if let Some(folder) = new_folder_id {
                    task.folder_id = folder;
                }
                assert(task@ =~= task_revived(
                    old(self)@.history[position(old(self)@.history, id)->0],
                    opt_text(new_folder_id),
                ));
                self.store(task);
                Ok(())
            },
            None => {
                assert(self@ =~= old(self)@);
                Err("History item not found".to_owned())
            },
        }
    }

    /// How many downloads of a folder wait and how many run.
    pub fn get_folder_counts(&self, folder_id: &str) -> (r: FolderTaskCounts)
        ensures
            r == (match folder_at(self@.folders, folder_id@) {
                Some(i) => self@.folders[i].1.counts,
                None => FolderTaskCounts { pending: 0, downloading: 0 },
            }),
    {
        match self.find_slot(folder_id) {
            Some(i) => self.slots[i].queue.get_counts(),
            None => FolderTaskCounts::default(),
        }
    }

    /// Which scripts run for the downloads of a folder.
    pub fn compute_effective_script_files(config: &Config, folder_id: &str) -> (r: TextMap<bool>)
        ensures
            r@ == effective_scripts(*config, folder_id@),
    {
        let mut r = config.scripts.script_files.copied();
        if let Some(folder) = config.folders.get(folder_id) {
            if let Some(own) = &folder.script_files {
                r.extend_copied(own);
            }
        }
        r
    }
}

impl Default for DownloadManager {
    fn default() -> (r: DownloadManager)
        ensures
            r@.folders == Seq::<(Seq<char>, QueueView)>::empty(),
            r@.active == Set::<u128>::empty(),
            r@.active_folders == Set::<Seq<char>>::empty(),
            new_breaker(r@.breaker),
            r@.max_concurrent == 3,
            r@.permits == 3,
            r@.per_folder == 3,
            r@.parallel == 1,
            r@.max_retries == 3,
            r@.retry_delay == 5,
            r@.history == Seq::<TaskView>::empty(),
            r@.wf(),
    {
        DownloadManager::new()
    }
}

impl StartOutcome {
    /// Why the download cannot start, in words.
    pub fn error(&self) -> (r: Option<String>)
        ensures
            opt_text(r) == start_error(self@),
    {
        match self {
            StartOutcome::NotFound => Some("Task not found".to_owned()),
            StartOutcome::Running => None,
            StartOutcome::Blocked(domain) => {
                let mut s = "Circuit breaker open for domain '".to_owned();
                s.append(domain.as_str());
                s.append("'. Too many consecutive failures.");
                Some(s)
            },
            StartOutcome::FolderLimit { folder_id, active, limit } => {
                let mut s = "Cannot start download: folder '".to_owned();
                s.append(folder_id.as_str());
                s.append("' cannot be activated (");
                s.append(decimal_u64(*active as u64).as_str());
                s.append(" folders already active, max active folders: ");
                s.append(decimal_u64(*limit as u64).as_str());
                s.append(")");
                Some(s)
            },
            StartOutcome::Ready(_) => None,
        }
    }
}

/// What the URL of a download has as its domain.
pub open spec fn task_domain(m: ManagerView, id: u128) -> Option<Seq<char>> {
    match find_task(m.folders, id) {
        Some(t) => domain_of(t.url),
        None => None,
    }
}

/// A task with the progress that was reported.
pub open spec fn task_progressed(t: TaskView, downloaded: u64, total: Option<u64>) -> TaskView {
    TaskView {
        downloaded,
        size: if total is Some {
            total
        } else {
            t.size
        },
        ..t
    }
}

/// The folders with the progress of a task stored in the queue under `key`.
pub open spec fn progress_stored(
    fs: Seq<(Seq<char>, QueueView)>,
    key: Seq<char>,
    id: u128,
    downloaded: u64,
    total: Option<u64>,
) -> Seq<(Seq<char>, QueueView)> {
    match folder_at(fs, key) {
        Some(i) => match position(fs[i].1.tasks, id) {
            Some(p) => with_queue(
                fs,
                i,
                queue_updated(fs[i].1, task_progressed(fs[i].1.tasks[p], downloaded, total)),
            ),
            None => fs,
        },
        None => fs,
    }
}

/// A task that is tried again.
pub open spec fn task_retried(t: TaskView) -> TaskView {
    TaskView { status: DownloadStatus::Downloading, error_message: None, ..t }
}

/// How often progress is passed on, in milliseconds.
pub const PROGRESS_MILLIS: u64 = 500;

/// Whether progress is to be passed on now, so many milliseconds into the
/// transfer, if it was last so many.
pub fn progress_due(elapsed: u64, last: u64) -> (r: bool)
    ensures
        r == (elapsed - last >= PROGRESS_MILLIS),
{
    elapsed >= last && elapsed - last >= PROGRESS_MILLIS
}

/// How many seconds to wait after so many failures.
pub fn backoff_seconds(delay: u64, failures: u32) -> (r: u64)
    requires
        failures >= 1,
        backoff(delay, failures as nat) <= u64::MAX,
    ensures
        r == backoff(delay, failures as nat),
{
    let mut r: u64 = delay;
    proof {
        law_backoff_doubles(delay, 1);
    }
    for i in 1..failures
        invariant
            r == backoff(delay, i as nat),
            backoff(delay, failures as nat) <= u64::MAX,
    {
        proof {
            law_backoff_doubles(delay, i as nat);
            lemma_backoff_grows(delay, (i + 1) as nat, failures as nat);
        }
        r = r * 2;
    }
    r
}

/// The delay never falls.
proof fn lemma_backoff_grows(delay: u64, a: nat, b: nat)
    requires
        1 <= a <= b,
    ensures
        0 <= backoff(delay, a) <= backoff(delay, b),
    decreases b - a,
{
    if a < b {
        lemma_backoff_grows(delay, a, (b - 1) as nat);
        law_backoff_doubles(delay, (b - 1) as nat);
    } else {
        let p = pow2((a - 1) as nat) as int;
        let d = delay as int;
        assert(d * p >= 0) by (nonlinear_arith)
            requires
                d >= 0,
                p >= 0,
        ;
    }
}

impl DownloadManager {
    /// Asks to start a download whose URL has the given domain, at the moment
    /// `tick` of the breaker's clock.
    pub fn start_download_at(
        &mut self,
        id: u128,
        domain: Option<String>,
        tick: u128,
    ) -> (r: StartOutcome)
        requires
            old(self)@.wf(),
        ensures
            final(self)@ == start_begun(old(self)@, id, opt_text(domain), tick).0,
            r@ == start_begun(old(self)@, id, opt_text(domain), tick).1,
            final(self)@.wf(),
            old(self)@.in_sync() ==> final(self)@.in_sync(),
    {
        let task = match self.find_holder(id) {
            Some((_, t)) => t,
            None => {
                return StartOutcome::NotFound;
            },
        };
        if task.status == DownloadStatus::Downloading {
            return StartOutcome::Running;
        }
        if let Some(d) = &domain {
            let _ = self.circuit_breaker.can_request_at(d.as_str(), tick);
            if self.circuit_breaker.blocks(d.as_str()) {
                return StartOutcome::Blocked(d.clone());
            }
        }
        if !self.try_activate_folder(task.folder_id.as_str()) {
            let active: usize = self.active_folder_count();
            return StartOutcome::FolderLimit {
                folder_id: task.folder_id.clone(),
                active,
                limit: self.parallel_folder_count,
            };
        }
        let _ = self.slot_for(task.folder_id.as_str());
        if let Some(d) = &domain {
            self.circuit_breaker.let_pass(d.as_str(), id);
        }
        StartOutcome::Ready(task)
    }

    /// Asks to start a download: it must be there, must not run yet, requests
    /// to its domain must not be blocked, and its folder must be active or
    /// there must be room for one more active folder.
    pub fn start_download(&mut self, id: u128) -> (r: StartOutcome)
        requires
            old(self)@.wf(),
        ensures
            exists|tick: u128|
                final(self)@ == (#[trigger] start_begun(
                    old(self)@,
                    id,
                    task_domain(old(self)@, id),
                    tick,
                )).0 && r@ == start_begun(
                    old(self)@,
                    id,
                    task_domain(old(self)@, id),
                    tick,
                ).1,
            final(self)@.wf(),
            old(self)@.in_sync() ==> final(self)@.in_sync(),
    {
        let domain = match self.find_holder(id) {
            Some((_, t)) => extract_domain(t.url.as_str()),
            None => None,
        };
        let tick: u128 = self.circuit_breaker.present();
        assert(opt_text(domain) == task_domain(old(self)@, id));
        self.start_download_at(id, domain, tick)
    }

    /// What scripts are told before the first request of a download.
    pub fn before_request_context(task: &DownloadTask) -> (r: BeforeRequestContext)
        ensures
            r@ == before_request(task@),
    {
        let r = BeforeRequestContext {
            url: task.url.clone(),
            headers: task.headers.copied_texts(),
            user_agent: clone_opt(&task.user_agent),
            download_id: Some(format_uuid(task.id)),
        };
        assert(r@ =~= before_request(task@));
        r
    }

    /// Starts a download at the moment `now`, with what the scripts made of its
    /// first request, if any did. Returns the task, and whether it goes on
    /// after an interruption.
    pub fn launch(
        &mut self,
        task: DownloadTask,
        hook: Option<BeforeRequestContext>,
        now: Moment,
    ) -> (r: (DownloadTask, bool))
        requires
            old(self)@.wf(),
        ensures
            r.0@ == task_launched(task@, opt_before(hook), now),
            r.1 == was_interrupted(task@),
            final(self)@ == (ManagerView {
                folders: task_updated(
                    old(self)@.folders,
                    task@.folder_id,
                    task_launched(task@, opt_before(hook), now),
                ),
                active: old(self)@.active.insert(task@.id),
                ..old(self)@
            }),
            final(self)@.wf(),
            old(self)@.in_sync() ==> final(self)@.in_sync(),
    {
        let is_resuming = task.status == DownloadStatus::Paused || task.status
            == DownloadStatus::Error;
        let mut t = task;
        if let Some(c) = hook {
            t.url = c.url;
            t.headers = c.headers;
            t.user_agent = c.user_agent;
            t.log_at(now, LogLevel::Info, "beforeRequest hook executed".to_owned());
        }
        assert(t@ =~= task_hooked(task@, opt_before(hook), now));
        t.status = DownloadStatus::Downloading;
        t.started_at = Some(now);
        t.error_message = None;
        let mut message = "Starting download: ".to_owned();
        message.append(t.url.as_str());
        t.log_at(now, LogLevel::Info, message);
        assert(t@ =~= task_launched(task@, opt_before(hook), now));
        let key = t.folder_id.clone();
        let copy = t.clone();
        self.active.insert(t.id);
        self.update_task(key.as_str(), copy);
        (t, is_resuming)
    }

    /// Stores the progress of a download in the queue under the given key.
    pub fn record_progress(&mut self, key: &str, id: u128, downloaded: u64, total: Option<u64>)
        requires
            old(self)@.wf(),
        ensures
            final(self)@ == (ManagerView {
                folders: progress_stored(old(self)@.folders, key@, id, downloaded, total),
                ..old(self)@
            }),
            final(self)@.wf(),
            old(self)@.in_sync() ==> final(self)@.in_sync(),
    {
        let found = match self.find_slot(key) {
            Some(i) => self.slots[i].queue.get_by_id(id),
            None => None,
        };
        if let Some(t) = found {
            let ghost i = folder_at(self@.folders, key@)->0;
            let ghost p = position(self@.folders[i].1.tasks, id)->0;
            proof {
                lemma_position(self@.folders[i].1.tasks, id);
            }
            let mut task = t;
            task.downloaded = downloaded;
            if let Some(n) = total {
                task.size = Some(n);
            }
            assert(task@ =~= task_progressed(self@.folders[i].1.tasks[p], downloaded, total));
            self.update_task(key, task);
        }
    }

    /// Records, at the moment `tick` of the breaker's clock, that a download
    /// from the given domain is complete.
    pub fn attempt_succeeded_at(&mut self, domain: Option<String>, tick: u128)
        ensures
            final(self)@ == (ManagerView {
                breaker: match opt_text(domain) {
                    Some(d) => old(self)@.breaker.succeeded(d, tick),
                    None => old(self)@.breaker,
                },
                ..old(self)@
            }),
    {
        if let Some(d) = domain {
            self.circuit_breaker.record_success_at(d.as_str(), tick);
        }
    }

    /// Records that a download from the given URL is complete.
    pub fn attempt_succeeded(&mut self, url: &str)
        ensures
            match domain_of(url@) {
                Some(d) => exists|tick: u128|
                    final(self)@ == (ManagerView {
                        breaker: #[trigger] old(self)@.breaker.succeeded(d, tick),
                        ..old(self)@
                    }),
                None => final(self)@ == old(self)@,
            },
    {
        let tick: u128 = self.circuit_breaker.present();
        let domain = extract_domain(url);
        self.attempt_succeeded_at(domain, tick);
    }

    /// Decides what follows a failed attempt at a download from the given
    /// domain: another attempt after a delay, as long as fewer attempts have
    /// failed than may; then the end. The task is stored in the queue under
    /// `key`.
    pub fn attempt_failed_at(
        &mut self,
        key: &str,
        task: DownloadTask,
        error: String,
        domain: Option<String>,
        now: Moment,
        tick: u128,
    ) -> (r: (DownloadTask, RetryDecision))
        requires
            old(self)@.wf(),
            task@.retry_count < u32::MAX,
            task@.retry_count + 1 < old(self)@.max_retries ==> backoff(
                old(self)@.retry_delay,
                (task@.retry_count + 1) as nat,
            ) <= u64::MAX,
            old(self)@.breaker.countable(),
        ensures
            ({
                let e = attempt_failed(
                    old(self)@,
                    key@,
                    task@,
                    error@,
                    opt_text(domain),
                    now,
                    tick,
                );
                &&& final(self)@ == e.0
                &&& r.0@ == e.1
                &&& r.1@ == e.2
            }),
            final(self)@.wf(),
            old(self)@.in_sync() ==> final(self)@.in_sync(),
    {
        let ghost f = task_failed(task@, error@, now);
        let mut t = task;
        t.retry_count = t.retry_count + 1;
        let mut message = "Download failed (attempt ".to_owned();
        message.append(decimal_u64(t.retry_count as u64).as_str());
        message.append("): ");
        message.append(error.as_str());
        t.error_message = Some(error);
        t.log_at(now, LogLevel::Error, message);
        assert(t@ =~= f);
        if t.retry_count < self.max_retries {
            let seconds: u64 = backoff_seconds(self.retry_delay_secs, t.retry_count);
            t.status = DownloadStatus::Paused;
            let mut message = "Retrying in ".to_owned();
            message.append(decimal_u64(seconds).as_str());
            message.append(" seconds...");
            t.log_at(now, LogLevel::Info, message);
            assert(t@ =~= task_waiting(f, seconds as int, now));
            let copy = t.clone();
            self.update_task(key, copy);
            (t, RetryDecision::Retry { seconds })
        } else {
            t.status = DownloadStatus::Error;
            let mut message = "Max retries (".to_owned();
            message.append(decimal_u64(self.max_retries as u64).as_str());
            message.append(") exceeded");
            t.log_at(now, LogLevel::Error, message);
            assert(t@ =~= task_dead(f, self@.max_retries, now));
            let copy = t.clone();
            self.update_task(key, copy);
            if let Some(d) = domain {
                let _ = self.circuit_breaker.record_failure_at(d.as_str(), tick);
            }
            self.circuit_breaker.release(t.id);
            let reason = match &t.error_message {
                Some(e) => e.clone(),
                None => "Unknown error".to_owned(),
            };
            let context = ErrorContext {
                url: t.url.clone(),
                filename: Some(t.filename.clone()),
                error: reason,
                retry_count: t.retry_count,
                status_code: t.last_status_code,
            };
            assert(context@ == failure_context(t@));
            (t, RetryDecision::GiveUp(context))
        }
    }

    /// Decides, at the present moment, what follows a failed attempt at a
    /// download from the given URL.
    pub fn attempt_failed(
        &mut self,
        key: &str,
        task: DownloadTask,
        error: String,
        url: &str,
    ) -> (r: (DownloadTask, RetryDecision))
        requires
            old(self)@.wf(),
            task@.retry_count < u32::MAX,
            task@.retry_count + 1 < old(self)@.max_retries ==> backoff(
                old(self)@.retry_delay,
                (task@.retry_count + 1) as nat,
            ) <= u64::MAX,
            old(self)@.breaker.countable(),
        ensures
            exists|now: Moment, tick: u128|
                valid_instant(now) && (final(self)@, r.0@, r.1@) == #[trigger] attempt_failed(
                    old(self)@,
                    key@,
                    task@,
                    error@,
                    domain_of(url@),
                    now,
                    tick,
                ),
            final(self)@.wf(),
            old(self)@.in_sync() ==> final(self)@.in_sync(),
    {
        let now: Moment = current_moment();
        let tick: u128 = self.circuit_breaker.present();
        let domain = extract_domain(url);
        let r = self.attempt_failed_at(key, task, error, domain, now, tick);
        assert((self@, r.0@, r.1@) == attempt_failed(
            old(self)@,
            key@,
            task@,
            error@,
            domain_of(url@),
            now,
            tick,
        ));
        r
    }

    /// Whether one more failure of a download can be counted, for it and for all
    /// domains, and the delay that follows is a number of seconds.
    pub fn can_count_failure(&self, task: &DownloadTask) -> (r: bool)
        ensures
            r == (self@.breaker.countable() && task@.retry_count < u32::MAX && (task@.retry_count
                + 1 < self@.max_retries ==> backoff(
                self@.retry_delay,
                (task@.retry_count + 1) as nat,
            ) <= u64::MAX)),
    {
        if task.retry_count == u32::MAX || !self.circuit_breaker.can_count() {
            return false;
        }
        let failures: u32 = task.retry_count + 1;
        if failures >= self.max_retries {
            return true;
        }
        let mut r: u64 = self.retry_delay_secs;
        proof {
            law_backoff_doubles(self.retry_delay_secs, 1);
        }
        for i in 1..failures
            invariant
                r == backoff(self.retry_delay_secs, i as nat),
                failures == task@.retry_count + 1,
                failures < self@.max_retries,
                self.retry_delay_secs == self@.retry_delay,
                self@.breaker.countable(),
        {
            proof {
                law_backoff_doubles(self.retry_delay_secs, i as nat);
                lemma_backoff_grows(self.retry_delay_secs, (i + 1) as nat, failures as nat);
            }
            if r > u64::MAX / 2 {
                return false;
            }
            r = r * 2;
        }
        true
    }

    /// Tries a download again whose delay is over. The task is stored in the
    /// queue under `key`.
    pub fn retry(&mut self, key: &str, task: DownloadTask) -> (r: DownloadTask)
        requires
            old(self)@.wf(),
        ensures
            r@ == task_retried(task@),
            final(self)@ == (ManagerView {
                folders: task_updated(old(self)@.folders, key@, task_retried(task@)),
                ..old(self)@
            }),
            final(self)@.wf(),
            old(self)@.in_sync() ==> final(self)@.in_sync(),
    {
        let mut t = task;
        t.status = DownloadStatus::Downloading;
        t.error_message = None;
        assert(t@ =~= task_retried(task@));
        let copy = t.clone();
        self.update_task(key, copy);
        t
    }

    /// Ends a download of the folder under the given key, which was counted out
    /// when its task was stored or taken out: the folder is inactive if its
    /// counts show no other task.
    pub fn end_download(&mut self, key: &str)
        requires
            old(self)@.wf(),
        ensures
            final(self)@ == (ManagerView {
                active_folders: if folder_busy(old(self)@.folders, key@) {
                    old(self)@.active_folders
                } else {
                    old(self)@.active_folders.remove(key@)
                },
                ..old(self)@
            }),
            final(self)@.wf(),
            old(self)@.in_sync() ==> final(self)@.in_sync(),
    {
        self.deactivate_folder_if_empty(key);
    }
}

// ---------------------------------------------------------------------------
// What the operations do
// ---------------------------------------------------------------------------

/// What is resumed with all others are the downloads that are paused and those that
/// have failed, of every folder, and no other.
pub proof fn law_resumable_ids(m: &DownloadManager, r: Vec<u128>, id: u128)
    requires
        call_ensures(DownloadManager::resumable_ids, (m,), r),
    ensures
        r@.contains(id) <==> exists|t: TaskView| #[trigger]
            all_tasks(m@.folders).contains(t) && t.id == id && (t.status == DownloadStatus::Paused
                || t.status == DownloadStatus::Error),
{
    let ts = all_tasks(m@.folders);
    law_paused_and_failed_resume(ts, id);
    if r@.contains(id) {
        let k = choose|k: int|
            0 <= k < ts.len() && (#[trigger] ts[k]).id == id && (ts[k].status
                == DownloadStatus::Paused || ts[k].status == DownloadStatus::Error);
        assert(ts.contains(ts[k]));
    }
    if exists|t: TaskView| #[trigger]
        ts.contains(t) && t.id == id && (t.status == DownloadStatus::Paused || t.status
            == DownloadStatus::Error) {
        let t = choose|t: TaskView| #[trigger]
            ts.contains(t) && t.id == id && (t.status == DownloadStatus::Paused || t.status
                == DownloadStatus::Error);
        let k = choose|k: int| 0 <= k < ts.len() && ts[k] == t;
        assert(ts[k].id == id);
    }
}

/// Pausing a download pauses it, whatever it was doing, and leaves all others as they
/// were; it no longer runs.
pub proof fn law_pause_download(m: &mut DownloadManager, id: u128, i: int, k: int)
    requires
        well_filed(old(m)@.folders),
        0 <= i < old(m)@.folders.len(),
        0 <= k < old(m)@.folders[i].1.tasks.len(),
        call_ensures(DownloadManager::pause_download, (m, id), ()),
    ensures
        ({
            let t = old(m)@.folders[i].1.tasks[k];
            &&& t.id == id ==> final(m)@.folders[i].1.tasks[k] == (TaskView {
                status: DownloadStatus::Paused,
                ..t
            })
            &&& t.id != id ==> final(m)@.folders[i].1.tasks[k] == t
            &&& !final(m)@.active.contains(id)
            &&& final(m)@.history == old(m)@.history
        }),
{
    law_pause_is_exact(old(m)@, id, i, k);
}

/// What waits is what is started with all others, of every folder.
pub proof fn law_pending_ids(m: &DownloadManager, r: Vec<u128>, id: u128)
    requires
        call_ensures(DownloadManager::pending_ids, (m,), r),
    ensures
        r@.contains(id) <==> exists|t: TaskView| #[trigger]
            all_tasks(m@.folders).contains(t) && t.id == id && t.status == DownloadStatus::Pending,
{
    let ts = all_tasks(m@.folders);
    law_selected_by_status(ts, DownloadStatus::Pending, id);
    if r@.contains(id) {
        let k = choose|k: int|
            0 <= k < ts.len() && (#[trigger] ts[k]).id == id && ts[k].status
                == DownloadStatus::Pending;
        assert(ts.contains(ts[k]));
    }
    if exists|t: TaskView| #[trigger]
        ts.contains(t) && t.id == id && t.status == DownloadStatus::Pending {
        let t = choose|t: TaskView| #[trigger]
            ts.contains(t) && t.id == id && t.status == DownloadStatus::Pending;
        let k = choose|k: int| 0 <= k < ts.len() && ts[k] == t;
        assert(ts[k].id == id);
    }
}

/// Of one folder, what waits in it.
pub proof fn law_folder_pending_ids(
    m: &DownloadManager,
    folder_id: &str,
    r: Vec<u128>,
    i: int,
    id: u128,
)
    requires
        call_ensures(DownloadManager::folder_pending_ids, (m, folder_id), r),
        folder_keys_distinct(m@.folders),
        0 <= i < m@.folders.len(),
        m@.folders[i].0 == folder_id@,
    ensures
        r@.contains(id) <==> exists|k: int|
            0 <= k < m@.folders[i].1.tasks.len() && (#[trigger] m@.folders[i].1.tasks[k]).id == id
                && m@.folders[i].1.tasks[k].status == DownloadStatus::Pending,
{
    lemma_only_place(m@.folders, folder_id@, i);
    law_selected_by_status(m@.folders[i].1.tasks, DownloadStatus::Pending, id);
}

/// Where no two folders share a key, a folder stands where its key does.
proof fn lemma_only_place(fs: Seq<(Seq<char>, QueueView)>, key: Seq<char>, i: int)
    requires
        folder_keys_distinct(fs),
        0 <= i < fs.len(),
        fs[i].0 == key,
    ensures
        folder_at(fs, key) == Some(i),
{
    lemma_folder_from(fs, key, 0);
    let f = folder_at(fs, key)->0;
    if f < i {
        assert(fs[f].0 != fs[i].0);
    } else if i < f {
        assert(fs[i].0 != fs[f].0);
    }
}

/// Pausing all pauses what runs and nothing else, and says how many ran.
pub proof fn law_pause_all(m: &mut DownloadManager, r: usize, i: int, k: int)
    requires
        well_filed(old(m)@.folders),
        0 <= i < old(m)@.folders.len(),
        0 <= k < old(m)@.folders[i].1.tasks.len(),
        call_ensures(DownloadManager::pause_all, (m,), r) || call_ensures(
            DownloadManager::stop_all_tasks,
            (m,),
            r,
        ),
    ensures
        ({
            let t = old(m)@.folders[i].1.tasks[k];
            &&& t.status == DownloadStatus::Downloading ==> final(m)@.folders[i].1.tasks[k] == (
            TaskView { status: DownloadStatus::Paused, ..t })
            &&& t.status != DownloadStatus::Downloading ==> final(m)@.folders[i].1.tasks[k] == t
        }),
        r == all_tasks(old(m)@.folders).filter(
            |t: TaskView| t.status == DownloadStatus::Downloading,
        ).len(),
{
    law_pause_all_stops_all(old(m)@, i, k);
    law_selected_by_status(all_tasks(old(m)@.folders), DownloadStatus::Downloading, 0);
}

/// Stopping a folder pauses what runs in it and nothing else.
pub proof fn law_stop_folder_tasks(
    m: &mut DownloadManager,
    folder_id: &str,
    r: usize,
    i: int,
    k: int,
)
    requires
        well_filed(old(m)@.folders),
        0 <= i < old(m)@.folders.len(),
        0 <= k < old(m)@.folders[i].1.tasks.len(),
        call_ensures(DownloadManager::stop_folder_tasks, (m, folder_id), r),
    ensures
        ({
            let t = old(m)@.folders[i].1.tasks[k];
            let own = old(m)@.folders[i].0 == folder_id@;
            &&& own && t.status == DownloadStatus::Downloading ==> final(m)@.folders[i].1.tasks[k]
                == (TaskView { status: DownloadStatus::Paused, ..t })
            &&& !(own && t.status == DownloadStatus::Downloading)
                ==> final(m)@.folders[i].1.tasks[k] == t
        }),
{
    let fs = old(m)@.folders;
    let t = fs[i].1.tasks[k];
    lemma_folder_from(fs, folder_id@, 0);
    match folder_at(fs, folder_id@) {
        Some(f) => {
            let ids = ids_with_status(fs[f].1.tasks, DownloadStatus::Downloading);
            law_selected_by_status(fs[f].1.tasks, DownloadStatus::Downloading, t.id);
            law_pausing_each_is_exact(old(m)@, ids, i, k);
            if fs[i].0 == folder_id@ {
                lemma_only_place(fs, folder_id@, i);
            }
            if ids.contains(t.id) {
                let l = choose|l: int|
                    0 <= l < fs[f].1.tasks.len() && (#[trigger] fs[f].1.tasks[l]).id == t.id
                        && fs[f].1.tasks[l].status == DownloadStatus::Downloading;
                assert(fs[f].1.tasks[l].id == fs[i].1.tasks[k].id);
            }
        },
        None => {
            law_pausing_each_is_exact(old(m)@, Seq::empty(), i, k);
        },
    }
}

/// The place of a download can be changed while it waits, is paused or has failed, and
/// not otherwise; then it changes and nothing else does.
pub proof fn law_change_save_path(
    m: &mut DownloadManager,
    id: u128,
    new_path: SavePath,
    r: Result<(), String>,
    i: int,
    k: int,
)
    requires
        well_filed(old(m)@.folders),
        0 <= i < old(m)@.folders.len(),
        0 <= k < old(m)@.folders[i].1.tasks.len(),
        call_ensures(DownloadManager::change_save_path, (m, id, new_path), r),
    ensures
        ({
            let t = old(m)@.folders[i].1.tasks[k];
            let idle = t.status == DownloadStatus::Pending || t.status == DownloadStatus::Paused
                || t.status == DownloadStatus::Error;
            &&& t.id == id ==> (r is Ok <==> idle)
            &&& t.id == id && idle ==> final(m)@.folders[i].1.tasks[k] == (TaskView {
                save_path: new_path@,
                ..t
            })
            &&& !(t.id == id && idle) ==> final(m)@.folders[i].1.tasks[k] == t
        }),
{
    let fs = old(m)@.folders;
    let t = fs[i].1.tasks[k];
    law_found_tasks_have_the_id(fs, id);
    assert(super::history::ids_distinct(fs[i].1.tasks)) by {
        assert forall|x: int, y: int|
            #![trigger fs[i].1.tasks[x], fs[i].1.tasks[y]]
            0 <= x < y < fs[i].1.tasks.len() implies fs[i].1.tasks[x].id != fs[i].1.tasks[y].id by {
            if fs[i].1.tasks[x].id == fs[i].1.tasks[y].id {
                assert(x == y);
            }
        }
    }
    if t.id == id {
        law_all_tasks_are_there(fs, t);
        assert(fs[i].1.tasks[k] == t);
        let found = find_task(fs, id)->0;
        law_all_tasks_are_there(fs, found);
        let (j, l) = choose|j: int, l: int|
            0 <= j < fs.len() && 0 <= l < fs[j].1.tasks.len() && #[trigger] fs[j].1.tasks[l]
                == found;
        assert(fs[j].1.tasks[l].id == fs[i].1.tasks[k].id);
        assert(found == t);
    }
    if let Some(found) = find_task(fs, id) {
        law_stored_tasks_are_found(
            fs,
            found.folder_id,
            TaskView { save_path: new_path@, ..found },
            i,
            k,
        );
    }
}

/// A download goes to another folder exactly if it is there, and is the same there.
pub proof fn law_change_folder(
    m: &mut DownloadManager,
    id: u128,
    new_folder_id: String,
    r: Result<(), String>,
)
    requires
        call_ensures(DownloadManager::change_folder, (m, id, new_folder_id), r),
    ensures
        r is Ok <==> exists|t: TaskView| #[trigger]
            all_tasks(old(m)@.folders).contains(t) && t.id == id,
        r is Ok ==> exists|t: TaskView| #[trigger]
            all_tasks(old(m)@.folders).contains(t) && t.id == id && all_tasks(
                final(m)@.folders,
            ).contains(TaskView { folder_id: new_folder_id@, ..t }),
        r is Err ==> final(m)@ == old(m)@,
{
    let fs = old(m)@.folders;
    law_found_tasks_have_the_id(fs, id);
    if let Some(t) = find_task(fs, id) {
        let u = TaskView { folder_id: new_folder_id@, ..t };
        lemma_added_is_there(task_removed(fs, id), u, old(m)@.per_folder, u);
        assert(all_tasks(fs).contains(t) && t.id == id);
    }
}

/// Removing a download takes it, and nothing else, out of the queue and hands it back;
/// it no longer runs.
pub proof fn law_remove_download(
    m: &mut DownloadManager,
    id: u128,
    r: Option<DownloadTask>,
    t: TaskView,
)
    requires
        super::history::ids_distinct(all_tasks(old(m)@.folders)),
        call_ensures(DownloadManager::remove_download, (m, id), r),
    ensures
        all_tasks(final(m)@.folders).contains(t) <==> all_tasks(old(m)@.folders).contains(t) && t.id
            != id,
        r is Some <==> exists|x: TaskView| #[trigger]
            all_tasks(old(m)@.folders).contains(x) && x.id == id,
        r is Some ==> r->0@.id == id && all_tasks(old(m)@.folders).contains(r->0@),
        !final(m)@.active.contains(id),
        final(m)@.history == old(m)@.history,
        final(m)@.breaker.circuits == old(m)@.breaker.circuits,
{
    law_removal_is_exact(old(m)@.folders, id);
    law_found_tasks_have_the_id(old(m)@.folders, id);
    if let Some(x) = find_task(old(m)@.folders, id) {
        assert(all_tasks(old(m)@.folders).contains(x));
    }
}

/// A download that is added is in the queue under the safe form of its name, and all
/// others still are.
pub proof fn law_add_download(m: &mut DownloadManager, task: DownloadTask, t: TaskView)
    requires
        call_ensures(DownloadManager::add_download, (m, task), ()),
    ensures
        all_tasks(final(m)@.folders).contains(t) <==> all_tasks(old(m)@.folders).contains(t) || t
            == (TaskView { filename: sanitized(task@.filename), ..task@ }),
        final(m)@ == (ManagerView { folders: final(m)@.folders, ..old(m)@ }),
{
    lemma_added_is_there(
        old(m)@.folders,
        TaskView { filename: sanitized(task@.filename), ..task@ },
        old(m)@.per_folder,
        t,
    );
}

/// Loading a queue adds all of it.
pub proof fn law_load_queue(m: &mut DownloadManager, tasks: Vec<DownloadTask>, t: TaskView)
    requires
        call_ensures(DownloadManager::load_queue, (m, tasks), ()),
    ensures
        all_tasks(final(m)@.folders).contains(t) <==> all_tasks(old(m)@.folders).contains(t)
            || task_views(tasks@).contains(t),
        final(m)@ == (ManagerView { folders: final(m)@.folders, ..old(m)@ }),
{
    law_loaded_tasks_are_there(old(m)@.folders, task_views(tasks@), old(m)@.per_folder, t);
}

/// A folder is activated exactly if it is already or fewer are than may be, and a folder
/// is deactivated exactly if nothing waits or runs in it.
pub proof fn law_folders_come_and_go(
    m: &mut DownloadManager,
    n: &mut DownloadManager,
    folder_id: &str,
    r: bool,
)
    requires
        call_ensures(DownloadManager::try_activate_folder, (m, folder_id), r),
        old(n)@.in_sync(),
        call_ensures(DownloadManager::deactivate_folder_if_empty, (n, folder_id), ())
            || call_ensures(DownloadManager::end_download, (n, folder_id), ()),
    ensures
        r <==> old(m)@.active_folders.contains(folder_id@) || old(m)@.active_folders.len()
            < old(m)@.parallel,
        r ==> final(m)@.active_folders == old(m)@.active_folders.insert(folder_id@),
        !r ==> final(m)@ == old(m)@,
        final(m)@.folders == old(m)@.folders,
        ({
            let at = folder_at(old(n)@.folders, folder_id@);
            let busy = at is Some && exists|k: int|
                0 <= k < old(n)@.folders[at->0].1.tasks.len() && ((
                #[trigger] old(n)@.folders[at->0].1.tasks[k]).status == DownloadStatus::Pending
                    || old(n)@.folders[at->0].1.tasks[k].status == DownloadStatus::Downloading);
            &&& busy ==> final(n)@ == old(n)@
            &&& !busy ==> final(n)@ == (ManagerView {
                active_folders: old(n)@.active_folders.remove(folder_id@),
                ..old(n)@
            })
        }),
{
    law_busy_means_waiting_or_running(old(n)@, folder_id@);
}

/// A download out of the history leaves it and waits again in the queue.
pub proof fn law_move_from_history(
    m: &mut DownloadManager,
    id: u128,
    new_folder_id: Option<String>,
    r: Result<(), String>,
    p: int,
)
    requires
        0 <= p < old(m)@.history.len(),
        old(m)@.history[p].id == id,
        forall|j: int| 0 <= j < p ==> (#[trigger] old(m)@.history[j]).id != id,
        call_ensures(DownloadManager::move_from_history_to_queue, (m, id, new_folder_id), r),
    ensures
        r is Ok,
        final(m)@.history == old(m)@.history.take(p) + old(m)@.history.skip(p + 1),
        exists|t: TaskView|
            {
                &&& #[trigger] all_tasks(final(m)@.folders).contains(t)
                &&& t.id == id
                &&& t.url == old(m)@.history[p].url
                &&& t.status == DownloadStatus::Pending
                &&& t.downloaded == 0
                &&& t.retry_count == 0
                &&& t.folder_id == (if new_folder_id is Some {
                    new_folder_id->0@
                } else {
                    old(m)@.history[p].folder_id
                })
            },
{
    let ts = old(m)@.history;
    super::history::law_history_keeps_its_order(ts, ts[p], id, p);
    lemma_position(ts, id);
    assert(position(ts, id) == Some(p)) by {
        let q = position(ts, id)->0;
        if q < p {
            assert(ts[q].id != id);
        }
    }
    let t = task_revived(ts[p], opt_text(new_folder_id));
    law_revived_tasks_start_over(ts[p], opt_text(new_folder_id));
    lemma_added_is_there(old(m)@.folders, t, old(m)@.per_folder, t);
}

/// A download that is launched runs, and whether it was interrupted before is told:
/// that is, whether it was paused or had failed.
pub proof fn law_launch(
    m: &mut DownloadManager,
    task: DownloadTask,
    hook: Option<BeforeRequestContext>,
    now: Moment,
    r: (DownloadTask, bool),
)
    requires
        call_ensures(DownloadManager::launch, (m, task, hook, now), r),
    ensures
        r.0@.status == DownloadStatus::Downloading,
        r.0@.started_at == Some(now),
        r.0@.error_message is None,
        r.0@.id == task@.id,
        hook is None ==> r.0@.url == task@.url && r.0@.headers == task@.headers && r.0@.user_agent
            == task@.user_agent,
        hook is Some ==> r.0@.url == hook->0@.url && r.0@.headers == hook->0@.headers
            && r.0@.user_agent == hook->0@.user_agent,
        r.1 <==> task@.status == DownloadStatus::Paused || task@.status == DownloadStatus::Error,
        final(m)@.active == old(m)@.active.insert(task@.id),
        final(m)@.folders == task_updated(old(m)@.folders, task@.folder_id, r.0@),
        final(m)@.history == old(m)@.history,
{
    law_launched_downloads_run(task@, opt_before(hook), now);
}

/// A success closes the circuit of the domain and ends its test; without a domain
/// nothing changes.
pub proof fn law_attempt_succeeded(m: &mut DownloadManager, domain: Option<String>, tick: u128)
    requires
        call_ensures(DownloadManager::attempt_succeeded_at, (m, domain, tick), ()),
    ensures
        domain is None ==> final(m)@ == old(m)@,
        domain is Some ==> final(m)@.breaker.circuit(domain->0@).state == CircuitState::Closed
            && final(m)@.breaker.circuit(domain->0@).failures == 0
            && !final(m)@.breaker.testers.contains_key(domain->0@),
        final(m)@.folders == old(m)@.folders,
        final(m)@.active == old(m)@.active,
{
}

} // verus!

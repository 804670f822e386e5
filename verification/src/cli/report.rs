//! What is reported of downloads, complete and in the queue, and of settings.

use vstd::prelude::*;
use vstd::string::*;
use super::handler::opt_str;
use super::output::{bytes_text, format_bytes};
use crate::app::config::{Config, FolderConfig};
use crate::download::completion_log::{CompletedEntry, EntryView};
use crate::download::folder_queue::{count_status, task_views};
use crate::download::task::{DownloadStatus, DownloadTask, TaskView};
use crate::file::naming::{
    file_extension, keeps_wanted, law_moment_before_the_extension, lemma_keeps_none,
    lemma_keeps_wanted, name_parts, same_extension,
};
use crate::ids::{format_uuid, uuid_text};
use crate::text::{decimal, decimal_u64, sort_texts, text_eq, texts, texts_sorted};

verus! {

// ---------------------------------------------------------------------------
// Complete downloads
// ---------------------------------------------------------------------------

/// Whether a file of the given name holds complete downloads.
pub open spec fn is_completion_log(name: Seq<char>) -> bool {
    match name_parts(name) {
        Some((_, extension)) => extension == "jsonl"@,
        None => false,
    }
}

/// The names of the files that hold complete downloads, in the order given.
pub open spec fn completion_log_names(names: Seq<Seq<char>>) -> Seq<Seq<char>>
    decreases names.len(),
{
    if names.len() == 0 {
        Seq::empty()
    } else if is_completion_log(names.last()) {
        completion_log_names(names.drop_last()).push(names.last())
    } else {
        completion_log_names(names.drop_last())
    }
}

/// The names of the files that hold complete downloads, in the order of code
/// points.
pub fn completion_logs(names: &Vec<String>) -> (r: Vec<String>)
    ensures
        texts_sorted(texts(r@)),
        keeps_wanted(texts(r@), texts(names@), |n: Seq<char>| is_completion_log(n)),
        (forall|i: int| 0 <= i < names@.len() ==> same_extension((#[trigger] names@[i])@)) ==> texts(
            r@,
        ).to_multiset() == completion_log_names(texts(names@)).to_multiset(),
{
    let ghost ns = texts(names@);
    let ghost known = forall|i: int| 0 <= i < names@.len() ==> same_extension((#[trigger] names@[i])@);
    let ghost wanted = |n: Seq<char>| is_completion_log(n);
    let mut kept: Vec<String> = Vec::new();
    assert(texts(kept@) =~= Seq::<Seq<char>>::empty());
    assert(ns.take(0) =~= Seq::<Seq<char>>::empty());
    proof {
        lemma_keeps_none(wanted);
    }
    for i in 0..names.len()
        invariant
            ns == texts(names@),
            wanted == (|n: Seq<char>| is_completion_log(n)),
            keeps_wanted(texts(kept@), ns.take(i as int), wanted),
            known == (forall|i: int|
                0 <= i < names@.len() ==> same_extension((#[trigger] names@[i])@)),
            known ==> texts(kept@) == completion_log_names(ns.take(i as int)),
    {
        assert(ns.take(i + 1).drop_last() =~= ns.take(i as int));
        assert(ns.take(i + 1).last() == names@[i as int]@);
        let is_log = match file_extension(names[i].as_str()) {
            Some(e) => text_eq(e.as_str(), "jsonl"),
            None => false,
        };
        proof {
            lemma_keeps_wanted(texts(kept@), ns.take(i as int), wanted, ns[i as int], is_log);
            assert(ns.take(i + 1) =~= ns.take(i as int).push(ns[i as int]));
        }
        if is_log {
            let n = names[i].clone();
            assert(texts(kept@.push(n)) =~= texts(kept@).push(n@));
            kept.push(n);
        }
    }
    assert(ns.take(ns.len() as int) =~= ns);
    sort_texts(kept)
}

/// What is kept of several downloads.
pub open spec fn entry_views(es: Seq<CompletedEntry>) -> Seq<EntryView> {
    es.map_values(|e: CompletedEntry| e@)
}

/// The downloads of a folder, or all of them where no folder is named.
pub open spec fn of_folder(es: Seq<EntryView>, folder: Option<Seq<char>>) -> Seq<EntryView>
    decreases es.len(),
{
    if es.len() == 0 {
        Seq::empty()
    } else if folder is None || es.last().folder_id == folder->0 {
        of_folder(es.drop_last(), folder).push(es.last())
    } else {
        of_folder(es.drop_last(), folder)
    }
}

/// The downloads of a folder, or all of them where no folder is named.
pub fn entries_of_folder(entries: &Vec<CompletedEntry>, folder: Option<&str>) -> (r: Vec<
    CompletedEntry,
>)
    ensures
        entry_views(r@) == of_folder(entry_views(entries@), opt_str(folder)),
{
    let ghost es = entry_views(entries@);
    let ghost f = opt_str(folder);
    let mut r: Vec<CompletedEntry> = Vec::new();
    assert(entry_views(r@) =~= Seq::<EntryView>::empty());
    assert(es.take(0) =~= Seq::<EntryView>::empty());
    for i in 0..entries.len()
        invariant
            es == entry_views(entries@),
            f == opt_str(folder),
            entry_views(r@) == of_folder(es.take(i as int), f),
    {
        assert(es.take(i + 1).drop_last() =~= es.take(i as int));
        assert(es.take(i + 1).last() == entries@[i as int]@);
        let keep = match folder {
            Some(id) => text_eq(entries[i].folder_id.as_str(), id),
            None => true,
        };
        if keep {
            let e = entries[i].clone();
            assert(entry_views(r@.push(e)) =~= entry_views(r@).push(e@));
            r.push(e);
        }
    }
    assert(es.take(es.len() as int) =~= es);
    r
}

/// What is shown of a complete download, given how long it took.
pub open spec fn entry_text(e: EntryView, duration: Option<Seq<char>>) -> Seq<char> {
    (if e.status == "completed"@ {
        "\u{2713}"@
    } else {
        "\u{2717}"@
    }) + " "@ + e.filename + " ["@ + e.folder_id + "] "@ + (match duration {
        Some(d) => d,
        None => "N/A"@,
    }) + "\n"@ + (match e.error_message {
        Some(m) => "  Error: "@ + m + "\n"@,
        None => Seq::empty(),
    })
}

/// What is shown of a complete download, given how long it took.
pub fn show_entry(entry: &CompletedEntry, duration: Option<&str>) -> (r: String)
    ensures
        r@ == entry_text(entry@, opt_str(duration)),
{
    let mut s = if text_eq(entry.status.as_str(), "completed") {
        "\u{2713}".to_owned()
    } else {
        "\u{2717}".to_owned()
    };
    s.append(" ");
    s.append(entry.filename.as_str());
    s.append(" [");
    s.append(entry.folder_id.as_str());
    s.append("] ");
    match duration {
        Some(d) => {
            s.append(d);
        },
        None => {
            s.append("N/A");
        },
    }
    s.append("\n");
    let ghost first = s@;
    if let Some(m) = &entry.error_message {
        s.append("  Error: ");
        s.append(m.as_str());
        s.append("\n");
        assert(s@ =~= first + ("  Error: "@ + m@ + "\n"@));
    }
    assert(s@ =~= entry_text(entry@, opt_str(duration)));
    s
}

/// How many of the downloads succeeded.
pub open spec fn succeeded(es: Seq<EntryView>) -> nat
    decreases es.len(),
{
    if es.len() == 0 {
        0
    } else {
        succeeded(es.drop_last()) + (if es.last().status == "completed"@ {
            1nat
        } else {
            0nat
        })
    }
}

/// The logs of complete downloads are the files with the extension `jsonl`, and the
/// downloads of a folder those that name it, all in their order.
pub proof fn law_logs_and_their_entries(
    names: Seq<Seq<char>>,
    es: Seq<EntryView>,
    folder: Seq<char>,
)
    ensures
        completion_log_names(names) == names.filter(|n: Seq<char>| is_completion_log(n)),
        of_folder(es, None) == es,
        of_folder(es, Some(folder)) == es.filter(|e: EntryView| e.folder_id == folder),
        succeeded(es) == es.filter(|e: EntryView| e.status == "completed"@).len(),
    decreases names.len() + es.len(),
{
    reveal(Seq::filter);
    if names.len() > 0 {
        law_logs_and_their_entries(names.drop_last(), es, folder);
    } else if es.len() > 0 {
        law_logs_and_their_entries(names, es.drop_last(), folder);
        assert(es.drop_last().push(es.last()) =~= es);
    } else {
        assert(of_folder(es, None) =~= es);
    }
}

/// A log of complete downloads has the extension `jsonl`.
pub proof fn law_logs_end_in_jsonl(stem: Seq<char>, ext: Seq<char>)
    requires
        stem.len() > 0,
        ext.len() > 0,
        !stem.contains('/'),
        !ext.contains('/'),
        !ext.contains('.'),
    ensures
        is_completion_log(stem + seq!['.'] + ext) <==> ext == "jsonl"@,
        !is_completion_log(ext),
{
    law_moment_before_the_extension(stem, ext, 0);
}

/// A complete download is shown with a sign for how it ended, its name, its folder
/// and how long it took, and its failure on a line of its own.
pub proof fn law_entries_are_shown(e: EntryView, duration: Option<Seq<char>>)
    ensures
        ({
            let mark = if e.status == "completed"@ {
                "\u{2713}"@
            } else {
                "\u{2717}"@
            };
            let took = if duration is Some {
                duration->0
            } else {
                "N/A"@
            };
            let first = mark + " "@ + e.filename + " ["@ + e.folder_id + "] "@ + took + "\n"@;
            &&& e.error_message is None ==> entry_text(e, duration) == first
            &&& e.error_message is Some ==> entry_text(e, duration) == first + ("  Error: "@
                + e.error_message->0 + "\n"@)
        }),
{
    if e.error_message is None {
        let mark = if e.status == "completed"@ {
            "\u{2713}"@
        } else {
            "\u{2717}"@
        };
        let took = if duration is Some {
            duration->0
        } else {
            "N/A"@
        };
        let first = mark + " "@ + e.filename + " ["@ + e.folder_id + "] "@ + took + "\n"@;
        assert(first + Seq::empty() =~= first);
    }
}

/// How many downloads succeeded and how many failed.
pub fn count_outcomes(entries: &Vec<CompletedEntry>) -> (r: (usize, usize))
    ensures
        r.0 == succeeded(entry_views(entries@)),
        r.0 + r.1 == entries@.len(),
{
    let ghost es = entry_views(entries@);
    let mut n: usize = 0;
    for i in 0..entries.len()
        invariant
            es == entry_views(entries@),
            n == succeeded(es.take(i as int)),
            n <= i,
    {
        assert(es.take(i + 1).drop_last() =~= es.take(i as int));
        assert(es.take(i + 1).last() == entries@[i as int]@);
        if text_eq(entries[i].status.as_str(), "completed") {
            n = n + 1;
        }
    }
    assert(es.take(es.len() as int) =~= es);
    (n, entries.len() - n)
}

// ---------------------------------------------------------------------------
// The queue
// ---------------------------------------------------------------------------

/// How many bytes the downloads have in all, as far as their sizes are known.
pub open spec fn sizes(ts: Seq<TaskView>) -> nat
    decreases ts.len(),
{
    if ts.len() == 0 {
        0
    } else {
        sizes(ts.drop_last()) + (match ts.last().size {
            Some(n) => n as nat,
            None => 0nat,
        })
    }
}

/// How many bytes of the downloads are here.
pub open spec fn arrived(ts: Seq<TaskView>) -> nat
    decreases ts.len(),
{
    if ts.len() == 0 {
        0
    } else {
        arrived(ts.drop_last()) + ts.last().downloaded as nat
    }
}

/// Fewer downloads have no more bytes.
proof fn lemma_sums_grow(ts: Seq<TaskView>, n: int)
    requires
        0 <= n <= ts.len(),
    ensures
        sizes(ts.take(n)) <= sizes(ts),
        arrived(ts.take(n)) <= arrived(ts),
    decreases ts.len(),
{
    if n < ts.len() {
        lemma_sums_grow(ts.drop_last(), n);
        assert(ts.drop_last().take(n) =~= ts.take(n));
    } else {
        assert(ts.take(n) =~= ts);
    }
}

/// How many downloads there are in the queue, and how large they are.
#[derive(Debug, Clone, Copy, PartialEq, Eq, Structural)]
pub struct QueueStats {
    pub total: usize,
    pub pending: usize,
    pub downloading: usize,
    pub paused: usize,
    pub completed: usize,
    pub error: usize,
    pub total_bytes: u64,
    pub downloaded_bytes: u64,
}

/// How many downloads have a status.
pub fn count_with_status(tasks: &Vec<DownloadTask>, status: DownloadStatus) -> (r: usize)
    ensures
        r == count_status(task_views(tasks@), status),
{
    let ghost ts = task_views(tasks@);
    let mut n: usize = 0;
    for i in 0..tasks.len()
        invariant
            ts == task_views(tasks@),
            n == count_status(ts.take(i as int), status),
            n <= i,
    {
        assert(ts.take(i + 1).drop_last() =~= ts.take(i as int));
        assert(ts.take(i + 1).last() == tasks@[i as int]@);
        if tasks[i].status == status {
            n = n + 1;
        }
    }
    assert(ts.take(ts.len() as int) =~= ts);
    n
}

/// How many downloads there are, and how large they are.
pub fn queue_stats(tasks: &Vec<DownloadTask>) -> (r: QueueStats)
    requires
        sizes(task_views(tasks@)) <= u64::MAX,
        arrived(task_views(tasks@)) <= u64::MAX,
    ensures
        r.total == tasks@.len(),
        r.pending == count_status(task_views(tasks@), DownloadStatus::Pending),
        r.downloading == count_status(task_views(tasks@), DownloadStatus::Downloading),
        r.paused == count_status(task_views(tasks@), DownloadStatus::Paused),
        r.completed == count_status(task_views(tasks@), DownloadStatus::Completed),
        r.error == count_status(task_views(tasks@), DownloadStatus::Error),
        r.total_bytes == sizes(task_views(tasks@)),
        r.downloaded_bytes == arrived(task_views(tasks@)),
{
    let ghost ts = task_views(tasks@);
    let mut total_bytes: u64 = 0;
    let mut downloaded_bytes: u64 = 0;
    for i in 0..tasks.len()
        invariant
            ts == task_views(tasks@),
            sizes(ts) <= u64::MAX,
            arrived(ts) <= u64::MAX,
            total_bytes == sizes(ts.take(i as int)),
            downloaded_bytes == arrived(ts.take(i as int)),
    {
        proof {
            assert(ts.take(i + 1).drop_last() =~= ts.take(i as int));
            assert(ts.take(i + 1).last() == tasks@[i as int]@);
            lemma_sums_grow(ts, i + 1);
        }
        if let Some(n) = tasks[i].size {
            total_bytes = total_bytes + n;
        }
        downloaded_bytes = downloaded_bytes + tasks[i].downloaded;
    }
    assert(ts.take(ts.len() as int) =~= ts);
    QueueStats {
        total: tasks.len(),
        pending: count_with_status(tasks, DownloadStatus::Pending),
        downloading: count_with_status(tasks, DownloadStatus::Downloading),
        paused: count_with_status(tasks, DownloadStatus::Paused),
        completed: count_with_status(tasks, DownloadStatus::Completed),
        error: count_with_status(tasks, DownloadStatus::Error),
        total_bytes,
        downloaded_bytes,
    }
}

/// The tasks of a folder, or all of them where no folder is named.
pub open spec fn tasks_of(ts: Seq<TaskView>, folder: Option<Seq<char>>) -> Seq<TaskView>
    decreases ts.len(),
{
    if ts.len() == 0 {
        Seq::empty()
    } else if folder is None || ts.last().folder_id == folder->0 {
        tasks_of(ts.drop_last(), folder).push(ts.last())
    } else {
        tasks_of(ts.drop_last(), folder)
    }
}

/// The tasks of a folder, or all of them where no folder is named.
pub fn tasks_of_folder(tasks: &Vec<DownloadTask>, folder: Option<&str>) -> (r: Vec<DownloadTask>)
    ensures
        task_views(r@) == tasks_of(task_views(tasks@), opt_str(folder)),
{
    let ghost ts = task_views(tasks@);
    let ghost f = opt_str(folder);
    let mut r: Vec<DownloadTask> = Vec::new();
    assert(task_views(r@) =~= Seq::<TaskView>::empty());
    assert(ts.take(0) =~= Seq::<TaskView>::empty());
    for i in 0..tasks.len()
        invariant
            ts == task_views(tasks@),
            f == opt_str(folder),
            task_views(r@) == tasks_of(ts.take(i as int), f),
    {
        assert(ts.take(i + 1).drop_last() =~= ts.take(i as int));
        assert(ts.take(i + 1).last() == tasks@[i as int]@);
        let keep = match folder {
            Some(id) => text_eq(tasks[i].folder_id.as_str(), id),
            None => true,
        };
        if keep {
            let t = tasks[i].clone();
            assert(task_views(r@.push(t)) =~= task_views(r@).push(t@));
            r.push(t);
        }
    }
    assert(ts.take(ts.len() as int) =~= ts);
    r
}

/// How many downloads there are in a folder, or in all where none is named, and
/// how large they are.
pub fn queue_stats_of(tasks: &Vec<DownloadTask>, folder: Option<&str>) -> (r: QueueStats)
    requires
        sizes(tasks_of(task_views(tasks@), opt_str(folder))) <= u64::MAX,
        arrived(tasks_of(task_views(tasks@), opt_str(folder))) <= u64::MAX,
    ensures
        ({
            let ts = tasks_of(task_views(tasks@), opt_str(folder));
            &&& r.total == ts.len()
            &&& r.pending == count_status(ts, DownloadStatus::Pending)
            &&& r.downloading == count_status(ts, DownloadStatus::Downloading)
            &&& r.paused == count_status(ts, DownloadStatus::Paused)
            &&& r.completed == count_status(ts, DownloadStatus::Completed)
            &&& r.error == count_status(ts, DownloadStatus::Error)
            &&& r.total_bytes == sizes(ts)
            &&& r.downloaded_bytes == arrived(ts)
        }),
{
    let own = tasks_of_folder(tasks, folder);
    assert(task_views(own@).len() == own@.len());
    queue_stats(&own)
}

/// Sizes and received bytes add up over the downloads, whatever their order; a size
/// that is unknown counts for nothing.
pub proof fn law_bytes_add_up(a: Seq<TaskView>, b: Seq<TaskView>, t: TaskView)
    ensures
        sizes(a + b) == sizes(a) + sizes(b),
        arrived(a + b) == arrived(a) + arrived(b),
        t.size is Some ==> sizes(seq![t]) == t.size->0,
        t.size is None ==> sizes(seq![t]) == 0,
        arrived(seq![t]) == t.downloaded,
        sizes(Seq::empty()) == 0,
        arrived(Seq::empty()) == 0,
    decreases b.len(),
{
    let one = seq![t];
    assert(one.drop_last() =~= Seq::empty());
    assert(sizes(one.drop_last()) == 0);
    assert(arrived(one.drop_last()) == 0);
    if b.len() == 0 {
        assert(a + b =~= a);
    } else {
        assert((a + b).drop_last() =~= a + b.drop_last());
        law_bytes_add_up(a, b.drop_last(), t);
    }
}

/// The tasks of a folder are those that name it, in order.
pub proof fn law_folder_filters(ts: Seq<TaskView>, folder: Seq<char>)
    ensures
        tasks_of(ts, None) == ts,
        tasks_of(ts, Some(folder)) == ts.filter(|t: TaskView| t.folder_id == folder),
    decreases ts.len(),
{
    reveal(Seq::filter);
    if ts.len() > 0 {
        law_folder_filters(ts.drop_last(), folder);
        assert(ts.drop_last().push(ts.last()) =~= ts);
    } else {
        assert(tasks_of(ts, None) =~= ts);
    }
}

/// What is shown of the queue and of the complete downloads, given how long
/// those that succeeded took on average.
pub open spec fn stats_text(
    q: QueueStats,
    completed: nat,
    errors: nat,
    average: Option<Seq<char>>,
) -> Seq<char> {
    "Download Statistics\n\nQueue:\n  Total: "@ + decimal(q.total as nat) + "\n  Pending: "@
        + decimal(q.pending as nat) + "\n  Downloading: "@ + decimal(q.downloading as nat)
        + "\n  Paused: "@ + decimal(q.paused as nat) + "\n  Completed: "@ + decimal(
        q.completed as nat,
    ) + "\n  Error: "@ + decimal(q.error as nat) + "\n\nBytes:\n  Total: "@ + bytes_text(
        q.total_bytes as nat,
    ) + "\n  Downloaded: "@ + bytes_text(q.downloaded_bytes as nat)
        + "\n\nHistory (all-time):\n  Completed: "@ + decimal(completed) + "\n  Errors: "@ + decimal(
        errors,
    ) + "\n"@ + (match average {
        Some(a) => "  Avg Duration: "@ + a + "\n"@,
        None => Seq::empty(),
    })
}

/// The statistics name each number behind what it counts, and how long downloads took
/// where that is known.
pub proof fn law_statistics_are_shown(
    q: QueueStats,
    completed: nat,
    errors: nat,
    average: Option<Seq<char>>,
)
    ensures
        ({
            let queue = "Download Statistics\n\nQueue:\n  Total: "@ + decimal(q.total as nat)
                + "\n  Pending: "@ + decimal(q.pending as nat) + "\n  Downloading: "@ + decimal(
                q.downloading as nat,
            ) + "\n  Paused: "@ + decimal(q.paused as nat) + "\n  Completed: "@ + decimal(
                q.completed as nat,
            ) + "\n  Error: "@ + decimal(q.error as nat);
            let bytes = "\n\nBytes:\n  Total: "@ + bytes_text(q.total_bytes as nat)
                + "\n  Downloaded: "@ + bytes_text(q.downloaded_bytes as nat);
            let history = "\n\nHistory (all-time):\n  Completed: "@ + decimal(completed)
                + "\n  Errors: "@ + decimal(errors) + "\n"@;
            let took = if average is Some {
                "  Avg Duration: "@ + average->0 + "\n"@
            } else {
                Seq::empty()
            };
            stats_text(q, completed, errors, average) == queue + bytes + history + took
        }),
{
    let took = match average {
        Some(a) => "  Avg Duration: "@ + a + "\n"@,
        None => Seq::empty(),
    };
    let queue = "Download Statistics\n\nQueue:\n  Total: "@ + decimal(q.total as nat)
        + "\n  Pending: "@ + decimal(q.pending as nat) + "\n  Downloading: "@ + decimal(
        q.downloading as nat,
    ) + "\n  Paused: "@ + decimal(q.paused as nat) + "\n  Completed: "@ + decimal(
        q.completed as nat,
    ) + "\n  Error: "@ + decimal(q.error as nat);
    let bytes = "\n\nBytes:\n  Total: "@ + bytes_text(q.total_bytes as nat) + "\n  Downloaded: "@
        + bytes_text(q.downloaded_bytes as nat);
    let history = "\n\nHistory (all-time):\n  Completed: "@ + decimal(completed)
        + "\n  Errors: "@ + decimal(errors) + "\n"@;
    assert(stats_text(q, completed, errors, average) =~= queue + bytes + history + took);
}

/// What is shown of the queue and of the complete downloads.
pub fn show_stats(
    stats: &QueueStats,
    completed: usize,
    errors: usize,
    average: Option<&str>,
) -> (r: String)
    ensures
        r@ == stats_text(*stats, completed as nat, errors as nat, opt_str(average)),
{
    let mut s = "Download Statistics\n\nQueue:\n  Total: ".to_owned();
    s.append(decimal_u64(stats.total as u64).as_str());
    s.append("\n  Pending: ");
    s.append(decimal_u64(stats.pending as u64).as_str());
    s.append("\n  Downloading: ");
    s.append(decimal_u64(stats.downloading as u64).as_str());
    s.append("\n  Paused: ");
    s.append(decimal_u64(stats.paused as u64).as_str());
    s.append("\n  Completed: ");
    s.append(decimal_u64(stats.completed as u64).as_str());
    s.append("\n  Error: ");
    s.append(decimal_u64(stats.error as u64).as_str());
    s.append("\n\nBytes:\n  Total: ");
    s.append(format_bytes(stats.total_bytes).as_str());
    s.append("\n  Downloaded: ");
    s.append(format_bytes(stats.downloaded_bytes).as_str());
    s.append("\n\nHistory (all-time):\n  Completed: ");
    s.append(decimal_u64(completed as u64).as_str());
    s.append("\n  Errors: ");
    s.append(decimal_u64(errors as u64).as_str());
    s.append("\n");
    let ghost head = s@;
    if let Some(a) = average {
        s.append("  Avg Duration: ");
        s.append(a);
        s.append("\n");
        assert(s@ =~= head + ("  Avg Duration: "@ + a@ + "\n"@));
    }
    assert(s@ =~= stats_text(*stats, completed as nat, errors as nat, opt_str(average)));
    s
}

/// Whether some task has the id.
pub open spec fn id_seen(ts: Seq<TaskView>, id: u128) -> bool {
    exists|i: int| 0 <= i < ts.len() && (#[trigger] ts[i]).id == id
}

/// What is said of tasks whose ids other tasks had before them.
pub open spec fn duplicate_issues(ts: Seq<TaskView>) -> Seq<Seq<char>>
    decreases ts.len(),
{
    if ts.len() == 0 {
        Seq::empty()
    } else if id_seen(ts.drop_last(), ts.last().id) {
        duplicate_issues(ts.drop_last()).push("Duplicate task ID: "@ + uuid_text(ts.last().id))
    } else {
        duplicate_issues(ts.drop_last())
    }
}

/// What is said of tasks that cannot be saved at their places, given for which
/// they can and how the places are shown.
pub open spec fn place_issues(
    ts: Seq<TaskView>,
    usable: Seq<bool>,
    shown: Seq<Seq<char>>,
) -> Seq<Seq<char>>
    decreases ts.len(),
{
    if ts.len() == 0 {
        Seq::empty()
    } else if !usable[ts.len() - 1] {
        place_issues(ts.drop_last(), usable, shown).push(
            "Task "@ + uuid_text(ts.last().id) + " has invalid save path: "@ + shown[ts.len() - 1],
        )
    } else {
        place_issues(ts.drop_last(), usable, shown)
    }
}

/// What is said of tasks without a URL.
pub open spec fn url_issues(ts: Seq<TaskView>) -> Seq<Seq<char>>
    decreases ts.len(),
{
    if ts.len() == 0 {
        Seq::empty()
    } else if ts.last().url.len() == 0 {
        url_issues(ts.drop_last()).push("Task "@ + uuid_text(ts.last().id) + " has empty URL"@)
    } else {
        url_issues(ts.drop_last())
    }
}

fn seen_before(tasks: &Vec<DownloadTask>, n: usize, id: u128) -> (r: bool)
    requires
        n <= tasks@.len(),
    ensures
        r == id_seen(task_views(tasks@).take(n as int), id),
{
    let ghost ts = task_views(tasks@).take(n as int);
    for i in 0..n
        invariant
            n <= tasks@.len(),
            ts == task_views(tasks@).take(n as int),
            forall|k: int| 0 <= k < i ==> (#[trigger] ts[k]).id != id,
    {
        if tasks[i].id == id {
            assert(ts[i as int].id == id);
            return true;
        }
    }
    false
}

/// What is wrong with the queue, given which tasks can be saved at their places
/// and how the places are shown.
pub fn queue_issues(tasks: &Vec<DownloadTask>, usable: &Vec<bool>, shown: &Vec<String>) -> (r: Vec<
    String,
>)
    requires
        usable@.len() == tasks@.len(),
        shown@.len() == tasks@.len(),
    ensures
        texts(r@) == duplicate_issues(task_views(tasks@)) + place_issues(
            task_views(tasks@),
            usable@,
            texts(shown@),
        ) + url_issues(task_views(tasks@)),
{
    let ghost ts = task_views(tasks@);
    let ghost ps = texts(shown@);
    let mut r: Vec<String> = Vec::new();
    assert(texts(r@) =~= Seq::<Seq<char>>::empty());
    assert(ts.take(0) =~= Seq::<TaskView>::empty());
    for i in 0..tasks.len()
        invariant
            ts == task_views(tasks@),
            texts(r@) == duplicate_issues(ts.take(i as int)),
    {
        assert(ts.take(i + 1).drop_last() =~= ts.take(i as int));
        assert(ts.take(i + 1).last() == tasks@[i as int]@);
        if seen_before(tasks, i, tasks[i].id) {
            let mut s = "Duplicate task ID: ".to_owned();
            s.append(format_uuid(tasks[i].id).as_str());
            assert(texts(r@.push(s)) =~= texts(r@).push(s@));
            r.push(s);
        }
    }
    assert(ts.take(ts.len() as int) =~= ts);
    let ghost first = texts(r@);
    assert(first =~= first + place_issues(ts.take(0), usable@, ps));
    for i in 0..tasks.len()
        invariant
            ts == task_views(tasks@),
            ps == texts(shown@),
            usable@.len() == tasks@.len(),
            shown@.len() == tasks@.len(),
            texts(r@) == first + place_issues(ts.take(i as int), usable@, ps),
    {
        assert(ts.take(i + 1).drop_last() =~= ts.take(i as int));
        assert(ts.take(i + 1).last() == tasks@[i as int]@);
        if !usable[i] {
            let mut s = "Task ".to_owned();
            s.append(format_uuid(tasks[i].id).as_str());
            s.append(" has invalid save path: ");
            s.append(shown[i].as_str());
            assert(texts(r@.push(s)) =~= texts(r@).push(s@));
            assert(texts(r@).push(s@) =~= first + place_issues(
                ts.take(i as int),
                usable@,
                ps,
            ).push(s@));
            r.push(s);
        }
    }
    let ghost second = texts(r@);
    assert(ts.take(ts.len() as int) =~= ts);
    assert(second =~= second + url_issues(ts.take(0)));
    for i in 0..tasks.len()
        invariant
            ts == task_views(tasks@),
            texts(r@) == second + url_issues(ts.take(i as int)),
    {
        assert(ts.take(i + 1).drop_last() =~= ts.take(i as int));
        assert(ts.take(i + 1).last() == tasks@[i as int]@);
        if tasks[i].url.as_str().is_empty() {
            let mut s = "Task ".to_owned();
            s.append(format_uuid(tasks[i].id).as_str());
            s.append(" has empty URL");
            assert(texts(r@.push(s)) =~= texts(r@).push(s@));
            assert(texts(r@).push(s@) =~= second + url_issues(ts.take(i as int)).push(s@));
            r.push(s);
        }
    }
    assert(ts.take(ts.len() as int) =~= ts);
    r
}

/// Nothing is wrong with a queue exactly where no two tasks share an id, all
/// can be saved at their places, and all have URLs.
pub proof fn law_queue_is_sound(ts: Seq<TaskView>, usable: Seq<bool>, shown: Seq<Seq<char>>)
    ensures
        duplicate_issues(ts).len() == 0 <==> crate::download::history::ids_distinct(ts),
        place_issues(ts, usable, shown).len() == 0 <==> forall|i: int|
            0 <= i < ts.len() ==> #[trigger] usable[i],
        url_issues(ts).len() == 0 <==> forall|i: int|
            0 <= i < ts.len() ==> (#[trigger] ts[i]).url.len() > 0,
    decreases ts.len(),
{
    if ts.len() > 0 {
        let before = ts.drop_last();
        law_queue_is_sound(before, usable, shown);
        if crate::download::history::ids_distinct(before) && !id_seen(before, ts.last().id) {
            assert forall|i: int, j: int|
                #![trigger ts[i], ts[j]]
                0 <= i < j < ts.len() implies ts[i].id != ts[j].id by {
                assert(ts[i] == before[i]);
                if j < before.len() {
                    assert(ts[j] == before[j]);
                }
            }
        }
        if crate::download::history::ids_distinct(ts) {
            assert forall|i: int| 0 <= i < before.len() implies (#[trigger] before[i]).id
                != ts.last().id by {
                assert(before[i] == ts[i]);
                assert(ts[ts.len() - 1] == ts.last());
            }
            assert forall|i: int, j: int|
                #![trigger before[i], before[j]]
                0 <= i < j < before.len() implies before[i].id != before[j].id by {
                assert(ts[i] == before[i]);
                assert(ts[j] == before[j]);
            }
        }
        assert(forall|i: int| 0 <= i < before.len() ==> #[trigger] before[i] == ts[i]);
        if place_issues(ts, usable, shown).len() == 0 {
            assert forall|i: int| 0 <= i < ts.len() implies #[trigger] usable[i] by {
                if i == ts.len() - 1 {
                }
            }
        }
        if url_issues(ts).len() == 0 {
            assert forall|i: int| 0 <= i < ts.len() implies (#[trigger] ts[i]).url.len() > 0 by {
                if i < before.len() {
                    assert(before[i] == ts[i]);
                }
            }
        }
        if forall|i: int| 0 <= i < ts.len() ==> (#[trigger] ts[i]).url.len() > 0 {
            assert(ts[ts.len() - 1].url.len() > 0);
            assert forall|i: int| 0 <= i < before.len() implies (
            #[trigger] before[i]).url.len() > 0 by {
                assert(before[i] == ts[i]);
            }
        }
        if forall|i: int| 0 <= i < ts.len() ==> #[trigger] usable[i] {
            assert(usable[ts.len() - 1]);
        }
    }
}

/// Every download that something is wrong with is named, and no other: one whose id
/// another had before it, one that cannot be saved at its place, and one without a
/// URL.
pub proof fn law_every_issue_is_named(
    ts: Seq<TaskView>,
    usable: Seq<bool>,
    shown: Seq<Seq<char>>,
    issue: Seq<char>,
)
    ensures
        duplicate_issues(ts).contains(issue) <==> exists|i: int, j: int|
            0 <= i < j < ts.len() && (#[trigger] ts[i]).id == (#[trigger] ts[j]).id && issue
                == "Duplicate task ID: "@ + uuid_text(ts[j].id),
        place_issues(ts, usable, shown).contains(issue) <==> exists|i: int|
            0 <= i < ts.len() && !usable[i] && issue == "Task "@ + uuid_text((#[trigger] ts[i]).id)
                + " has invalid save path: "@ + shown[i],
        url_issues(ts).contains(issue) <==> exists|i: int|
            0 <= i < ts.len() && (#[trigger] ts[i]).url.len() == 0 && issue == "Task "@ + uuid_text(
                ts[i].id,
            ) + " has empty URL"@,
    decreases ts.len(),
{
    if ts.len() > 0 {
        let before = ts.drop_last();
        let last = ts.len() - 1;
        law_every_issue_is_named(before, usable, shown, issue);
        assert(ts[last] == ts.last());
        assert(forall|i: int| 0 <= i < before.len() ==> #[trigger] before[i] == ts[i]);
        let d = duplicate_issues(before);
        let p = place_issues(before, usable, shown);
        let u = url_issues(before);
        lemma_pushed(d, "Duplicate task ID: "@ + uuid_text(ts.last().id), issue);
        lemma_pushed(
            p,
            "Task "@ + uuid_text(ts.last().id) + " has invalid save path: "@ + shown[last],
            issue,
        );
        lemma_pushed(u, "Task "@ + uuid_text(ts.last().id) + " has empty URL"@, issue);
        if d.contains(issue) {
            let (i, j) = choose|i: int, j: int|
                0 <= i < j < before.len() && (#[trigger] before[i]).id == (#[trigger] before[j]).id
                    && issue == "Duplicate task ID: "@ + uuid_text(before[j].id);
            assert(ts[i].id == ts[j].id);
        }
        if id_seen(before, ts.last().id) {
            let i = choose|i: int| 0 <= i < before.len() && (#[trigger] before[i]).id
                == ts.last().id;
            assert(ts[i].id == ts[last].id);
        }
        if exists|i: int, j: int|
            0 <= i < j < ts.len() && (#[trigger] ts[i]).id == (#[trigger] ts[j]).id && issue
                == "Duplicate task ID: "@ + uuid_text(ts[j].id) {
            let (i, j) = choose|i: int, j: int|
                0 <= i < j < ts.len() && (#[trigger] ts[i]).id == (#[trigger] ts[j]).id && issue
                    == "Duplicate task ID: "@ + uuid_text(ts[j].id);
            if j < last {
                assert(before[i].id == before[j].id);
            } else {
                assert(before[i].id == ts.last().id);
            }
        }
        if p.contains(issue) {
            let i = choose|i: int|
                0 <= i < before.len() && !usable[i] && issue == "Task "@ + uuid_text(
                    (#[trigger] before[i]).id,
                ) + " has invalid save path: "@ + shown[i];
            assert(ts[i] == before[i]);
        }
        if exists|i: int|
            0 <= i < ts.len() && !usable[i] && issue == "Task "@ + uuid_text((#[trigger] ts[i]).id)
                + " has invalid save path: "@ + shown[i] {
            let i = choose|i: int|
                0 <= i < ts.len() && !usable[i] && issue == "Task "@ + uuid_text(
                    (#[trigger] ts[i]).id,
                ) + " has invalid save path: "@ + shown[i];
            if i < last {
                assert(before[i] == ts[i]);
            }
        }
        if u.contains(issue) {
            let i = choose|i: int|
                0 <= i < before.len() && (#[trigger] before[i]).url.len() == 0 && issue == "Task "@
                    + uuid_text(before[i].id) + " has empty URL"@;
            assert(ts[i] == before[i]);
        }
        if exists|i: int|
            0 <= i < ts.len() && (#[trigger] ts[i]).url.len() == 0 && issue == "Task "@ + uuid_text(
                ts[i].id,
            ) + " has empty URL"@ {
            let i = choose|i: int|
                0 <= i < ts.len() && (#[trigger] ts[i]).url.len() == 0 && issue == "Task "@
                    + uuid_text(ts[i].id) + " has empty URL"@;
            if i < last {
                assert(before[i] == ts[i]);
            }
        }
    }
}

/// A list with one more text holds what it held, and the text.
proof fn lemma_pushed(s: Seq<Seq<char>>, t: Seq<char>, x: Seq<char>)
    ensures
        s.push(t).contains(x) <==> s.contains(x) || x == t,
{
    if s.contains(x) {
        let i = choose|i: int| 0 <= i < s.len() && s[i] == x;
        assert(s.push(t)[i] == x);
    }
    if x == t {
        assert(s.push(t)[s.len() as int] == x);
    }
    if s.push(t).contains(x) && x != t {
        let i = choose|i: int| 0 <= i < s.push(t).len() && s.push(t)[i] == x;
        assert(s[i] == x);
    }
}

// ---------------------------------------------------------------------------
// Settings
// ---------------------------------------------------------------------------

/// What is said of folders whose places there are not, given which there are
/// and how the places are shown.
pub open spec fn folder_issues(
    ps: Seq<(Seq<char>, FolderConfig)>,
    there: Seq<bool>,
    shown: Seq<Seq<char>>,
) -> Seq<Seq<char>>
    decreases ps.len(),
{
    if ps.len() == 0 {
        Seq::empty()
    } else if !there[ps.len() - 1] {
        folder_issues(ps.drop_last(), there, shown).push(
            "Folder '"@ + ps.last().0 + "' save path does not exist: "@ + shown[ps.len() - 1],
        )
    } else {
        folder_issues(ps.drop_last(), there, shown)
    }
}

/// Every folder whose place there is not is named, and no other.
pub proof fn law_missing_places_are_named(
    ps: Seq<(Seq<char>, FolderConfig)>,
    there: Seq<bool>,
    shown: Seq<Seq<char>>,
    issue: Seq<char>,
)
    ensures
        folder_issues(ps, there, shown).contains(issue) <==> exists|i: int|
            0 <= i < ps.len() && !there[i] && issue == "Folder '"@ + (#[trigger] ps[i]).0
                + "' save path does not exist: "@ + shown[i],
    decreases ps.len(),
{
    if ps.len() > 0 {
        let before = ps.drop_last();
        let last = ps.len() - 1;
        law_missing_places_are_named(before, there, shown, issue);
        assert(ps[last] == ps.last());
        let f = folder_issues(before, there, shown);
        lemma_pushed(
            f,
            "Folder '"@ + ps.last().0 + "' save path does not exist: "@ + shown[last],
            issue,
        );
        if f.contains(issue) {
            let i = choose|i: int|
                0 <= i < before.len() && !there[i] && issue == "Folder '"@ + (#[trigger] before[i]).0
                    + "' save path does not exist: "@ + shown[i];
            assert(ps[i] == before[i]);
        }
        if exists|i: int|
            0 <= i < ps.len() && !there[i] && issue == "Folder '"@ + (#[trigger] ps[i]).0
                + "' save path does not exist: "@ + shown[i] {
            let i = choose|i: int|
                0 <= i < ps.len() && !there[i] && issue == "Folder '"@ + (#[trigger] ps[i]).0
                    + "' save path does not exist: "@ + shown[i];
            if i < last {
                assert(before[i] == ps[i]);
            }
        }
    }
}

/// A list with one more text, if a condition holds.
pub open spec fn push_if(s: Seq<Seq<char>>, c: bool, t: Seq<char>) -> Seq<Seq<char>> {
    if c {
        s.push(t)
    } else {
        s
    }
}

/// What is wrong with settings, given which directories there are and how they
/// are shown. The folders are taken in order.
pub fn config_issues(
    config: &Config,
    default_there: bool,
    default_shown: &str,
    scripts_there: bool,
    scripts_shown: &str,
    folders_there: &Vec<bool>,
    folders_shown: &Vec<String>,
) -> (r: Vec<String>)
    requires
        folders_there@.len() == config.folders.pairs().len(),
        folders_shown@.len() == config.folders.pairs().len(),
    ensures
        texts(r@) == push_if(
            push_if(
                push_if(
                    Seq::empty(),
                    !default_there,
                    "Default directory does not exist: "@ + default_shown@,
                ),
                config.download.max_concurrent == 0,
                "max_concurrent cannot be 0"@,
            ),
            config.scripts.enabled && !scripts_there,
            "Scripts directory does not exist: "@ + scripts_shown@,
        ) + folder_issues(config.folders.pairs(), folders_there@, texts(folders_shown@)),
{
    let mut r: Vec<String> = Vec::new();
    let ghost none: Seq<Seq<char>> = Seq::empty();
    assert(texts(r@) =~= none);
    if !default_there {
        let mut s = "Default directory does not exist: ".to_owned();
        s.append(default_shown);
        assert(texts(r@.push(s)) =~= texts(r@).push(s@));
        r.push(s);
    }
    if config.download.max_concurrent == 0 {
        let s = "max_concurrent cannot be 0".to_owned();
        assert(texts(r@.push(s)) =~= texts(r@).push(s@));
        r.push(s);
    }
    if config.scripts.enabled && !scripts_there {
        let mut s = "Scripts directory does not exist: ".to_owned();
        s.append(scripts_shown);
        assert(texts(r@.push(s)) =~= texts(r@).push(s@));
        r.push(s);
    }
    let ghost head = texts(r@);
    let ghost ps = config.folders.pairs();
    let ghost shown = texts(folders_shown@);
    let n: usize = config.folders.len();
    assert(head =~= head + folder_issues(ps.take(0), folders_there@, shown));
    for i in 0..n
        invariant
            ps == config.folders.pairs(),
            n == ps.len(),
            shown == texts(folders_shown@),
            folders_there@.len() == n,
            folders_shown@.len() == n,
            texts(r@) == head + folder_issues(ps.take(i as int), folders_there@, shown),
    {
        assert(ps.take(i + 1).drop_last() =~= ps.take(i as int));
        assert(ps.take(i + 1).last() == ps[i as int]);
        if !folders_there[i] {
            let mut s = "Folder '".to_owned();
            s.append(config.folders.key_at(i).as_str());
            s.append("' save path does not exist: ");
            s.append(folders_shown[i].as_str());
            assert(texts(r@.push(s)) =~= texts(r@).push(s@));
            assert(texts(r@).push(s@) =~= head + folder_issues(
                ps.take(i as int),
                folders_there@,
                shown,
            ).push(s@));
            r.push(s);
        }
    }
    assert(ps.take(n as int) =~= ps);
    r
}

} // verus!

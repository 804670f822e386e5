//! Downloads and folders as they are shown to somebody who looks into them.

use vstd::prelude::*;
use vstd::string::*;
use super::handler::opt_str;
use super::output::{append_line, bytes_text, format_bytes, line, line_if, show_status, status_shown};
use super::report::count_with_status;
use crate::app::config::FolderConfig;
use crate::download::folder_queue::{count_status, task_views};
use crate::download::task::{DownloadStatus, DownloadTask, TaskView};
use crate::ids::{format_uuid, uuid_text};
use crate::text::{
    decimal, decimal_int, decimal_i64, decimal_u64, flag_text, list_has, opt_text, show_flag,
    text_eq, texts,
};
use crate::text_map::TextMap;

verus! {

// ---------------------------------------------------------------------------
// The queue
// ---------------------------------------------------------------------------

/// A line for a download.
pub open spec fn task_line(t: TaskView) -> Seq<char> {
    "  "@ + uuid_text(t.id) + " - "@ + t.filename + " ("@ + status_shown(t.status) + ")\n"@
}

/// A line for each download.
pub open spec fn task_lines(ts: Seq<TaskView>) -> Seq<char>
    decreases ts.len(),
{
    if ts.len() == 0 {
        Seq::empty()
    } else {
        task_lines(ts.drop_last()) + task_line(ts.last())
    }
}

fn append_tasks(out: &mut String, tasks: &Vec<DownloadTask>)
    ensures
        final(out)@ == old(out)@ + task_lines(task_views(tasks@)),
{
    let ghost ts = task_views(tasks@);
    let ghost before = out@;
    assert(before =~= before + task_lines(ts.take(0)));
    for i in 0..tasks.len()
        invariant
            ts == task_views(tasks@),
            out@ == before + task_lines(ts.take(i as int)),
    {
        assert(ts.take(i + 1).drop_last() =~= ts.take(i as int));
        assert(ts.take(i + 1).last() == tasks@[i as int]@);
        out.append("  ");
        out.append(format_uuid(tasks[i].id).as_str());
        out.append(" - ");
        out.append(tasks[i].filename.as_str());
        out.append(" (");
        out.append(show_status(tasks[i].status));
        out.append(")\n");
        assert(out@ =~= before + task_lines(ts.take(i + 1)));
    }
    assert(ts.take(ts.len() as int) =~= ts);
}

/// What is shown of all downloads, given how many run.
pub open spec fn state_text(ts: Seq<TaskView>, active: nat) -> Seq<char> {
    "Download Manager State\n\n"@ + line("Total Tasks: "@, decimal(ts.len())) + line(
        "Active Downloads: "@,
        decimal(active),
    ) + "\nTask IDs:\n"@ + task_lines(ts)
}

/// What is shown of all downloads, given how many run.
pub fn show_state(tasks: &Vec<DownloadTask>, active: usize) -> (r: String)
    ensures
        r@ == state_text(task_views(tasks@), active as nat),
{
    let mut out = "Download Manager State\n\n".to_owned();
    append_line(&mut out, "Total Tasks: ", decimal_u64(tasks.len() as u64).as_str());
    append_line(&mut out, "Active Downloads: ", decimal_u64(active as u64).as_str());
    out.append("\nTask IDs:\n");
    append_tasks(&mut out, tasks);
    out
}

/// The folders that downloads are in, each once, in the order in which they
/// come first.
pub open spec fn folders_seen(ts: Seq<TaskView>) -> Seq<Seq<char>>
    decreases ts.len(),
{
    if ts.len() == 0 {
        Seq::empty()
    } else if folders_seen(ts.drop_last()).contains(ts.last().folder_id) {
        folders_seen(ts.drop_last())
    } else {
        folders_seen(ts.drop_last()).push(ts.last().folder_id)
    }
}

/// The downloads in a folder.
pub open spec fn tasks_in(ts: Seq<TaskView>, folder: Seq<char>) -> Seq<TaskView>
    decreases ts.len(),
{
    if ts.len() == 0 {
        Seq::empty()
    } else if ts.last().folder_id == folder {
        tasks_in(ts.drop_last(), folder).push(ts.last())
    } else {
        tasks_in(ts.drop_last(), folder)
    }
}

/// The downloads of one folder.
pub struct FolderSlots {
    pub folder_id: String,
    pub tasks: Vec<DownloadTask>,
}

/// What a folder holds.
#[verifier::ext_equal]
pub struct SlotsView {
    pub folder_id: Seq<char>,
    pub tasks: Seq<TaskView>,
}

impl View for FolderSlots {
    type V = SlotsView;

    open spec fn view(&self) -> SlotsView {
        SlotsView { folder_id: self.folder_id@, tasks: task_views(self.tasks@) }
    }
}

/// What several folders hold.
pub open spec fn slots_views(s: Seq<FolderSlots>) -> Seq<SlotsView> {
    s.map_values(|f: FolderSlots| f@)
}

/// Downloads by folder.
pub open spec fn grouped(ts: Seq<TaskView>, folders: Seq<Seq<char>>) -> Seq<SlotsView> {
    folders.map_values(|f: Seq<char>| SlotsView { folder_id: f, tasks: tasks_in(ts, f) })
}

/// The downloads of a folder are those that name it, in order; the folders are those
/// that downloads name.
pub proof fn law_grouped_by_folder(ts: Seq<TaskView>, folder: Seq<char>)
    ensures
        tasks_in(ts, folder) == ts.filter(|t: TaskView| t.folder_id == folder),
        folders_seen(ts).contains(folder) <==> exists|i: int|
            0 <= i < ts.len() && (#[trigger] ts[i]).folder_id == folder,
    decreases ts.len(),
{
    reveal(Seq::filter);
    if ts.len() > 0 {
        let before = ts.drop_last();
        let last = ts.len() - 1;
        law_grouped_by_folder(before, folder);
        assert(ts[last] == ts.last());
        let seen = folders_seen(before);
        if seen.contains(folder) {
            let i = choose|i: int|
                0 <= i < before.len() && (#[trigger] before[i]).folder_id == folder;
            assert(ts[i] == before[i]);
            let k = choose|k: int| 0 <= k < seen.len() && seen[k] == folder;
            assert(folders_seen(ts)[k] == folder);
        }
        if ts.last().folder_id == folder && !seen.contains(folder) {
            assert(folders_seen(ts)[seen.len() as int] == folder);
        }
        if folders_seen(ts).contains(folder) {
            let k = choose|k: int|
                0 <= k < folders_seen(ts).len() && folders_seen(ts)[k] == folder;
            if k < seen.len() {
                assert(seen[k] == folder);
            }
        }
        if exists|i: int| 0 <= i < ts.len() && (#[trigger] ts[i]).folder_id == folder {
            let i = choose|i: int| 0 <= i < ts.len() && (#[trigger] ts[i]).folder_id == folder;
            if i < last {
                assert(before[i] == ts[i]);
            }
        }
    }
}

/// Downloads are shown one behind another, each on a line of its own.
pub proof fn law_one_line_each(a: Seq<TaskView>, b: Seq<TaskView>, t: TaskView)
    ensures
        task_lines(Seq::empty()) == Seq::<char>::empty(),
        task_lines(seq![t]) == "  "@ + uuid_text(t.id) + " - "@ + t.filename + " ("@ + status_shown(
            t.status,
        ) + ")\n"@,
        task_lines(a + b) == task_lines(a) + task_lines(b),
    decreases b.len(),
{
    let one = seq![t];
    assert(one.drop_last() =~= Seq::empty());
    assert(task_lines(Seq::empty()) =~= Seq::<char>::empty());
    assert(task_lines(one) =~= task_line(t));
    if b.len() == 0 {
        assert(a + b =~= a);
        assert(task_lines(a) + task_lines(b) =~= task_lines(a));
    } else {
        assert((a + b).drop_last() =~= a + b.drop_last());
        law_one_line_each(a, b.drop_last(), t);
        assert(task_lines(a + b) =~= task_lines(a) + task_lines(b));
    }
}

fn list_folders(tasks: &Vec<DownloadTask>) -> (r: Vec<String>)
    ensures
        texts(r@) == folders_seen(task_views(tasks@)),
{
    let ghost ts = task_views(tasks@);
    let mut r: Vec<String> = Vec::new();
    assert(texts(r@) =~= Seq::<Seq<char>>::empty());
    assert(ts.take(0) =~= Seq::<TaskView>::empty());
    for i in 0..tasks.len()
        invariant
            ts == task_views(tasks@),
            texts(r@) == folders_seen(ts.take(i as int)),
    {
        assert(ts.take(i + 1).drop_last() =~= ts.take(i as int));
        assert(ts.take(i + 1).last() == tasks@[i as int]@);
        if !list_has(&r, tasks[i].folder_id.as_str()) {
            let id = tasks[i].folder_id.clone();
            assert(texts(r@.push(id)) =~= texts(r@).push(id@));
            r.push(id);
        }
    }
    assert(ts.take(ts.len() as int) =~= ts);
    r
}

fn pick_tasks(tasks: &Vec<DownloadTask>, folder: &str) -> (r: Vec<DownloadTask>)
    ensures
        task_views(r@) == tasks_in(task_views(tasks@), folder@),
{
    let ghost ts = task_views(tasks@);
    let mut r: Vec<DownloadTask> = Vec::new();
    assert(task_views(r@) =~= Seq::<TaskView>::empty());
    assert(ts.take(0) =~= Seq::<TaskView>::empty());
    for i in 0..tasks.len()
        invariant
            ts == task_views(tasks@),
            task_views(r@) == tasks_in(ts.take(i as int), folder@),
    {
        assert(ts.take(i + 1).drop_last() =~= ts.take(i as int));
        assert(ts.take(i + 1).last() == tasks@[i as int]@);
        if text_eq(tasks[i].folder_id.as_str(), folder) {
            let t = tasks[i].clone();
            assert(task_views(r@.push(t)) =~= task_views(r@).push(t@));
            r.push(t);
        }
    }
    assert(ts.take(ts.len() as int) =~= ts);
    r
}

/// Downloads by folder, the folders in the order in which they come first.
pub fn folder_slots(tasks: &Vec<DownloadTask>) -> (r: Vec<FolderSlots>)
    ensures
        slots_views(r@) == grouped(task_views(tasks@), folders_seen(task_views(tasks@))),
{
    let ghost ts = task_views(tasks@);
    let folders = list_folders(tasks);
    let ghost fs = texts(folders@);
    let mut r: Vec<FolderSlots> = Vec::new();
    assert(slots_views(r@) =~= grouped(ts, fs.take(0)));
    for i in 0..folders.len()
        invariant
            ts == task_views(tasks@),
            fs == texts(folders@),
            slots_views(r@) == grouped(ts, fs.take(i as int)),
    {
        let s = FolderSlots {
            folder_id: folders[i].clone(),
            tasks: pick_tasks(tasks, folders[i].as_str()),
        };
        assert(slots_views(r@.push(s)) =~= slots_views(r@).push(s@));
        assert(grouped(ts, fs.take(i + 1)) =~= grouped(ts, fs.take(i as int)).push(s@));
        r.push(s);
    }
    assert(fs.take(fs.len() as int) =~= fs);
    r
}

/// How many downloads several folders hold.
pub open spec fn slots_total(s: Seq<SlotsView>) -> nat
    decreases s.len(),
{
    if s.len() == 0 {
        0
    } else {
        slots_total(s.drop_last()) + s.last().tasks.len()
    }
}

/// One more download makes its folder larger by one, and no other folder.
proof fn lemma_grouped_total(ts: Seq<TaskView>, t: TaskView, folders: Seq<Seq<char>>)
    requires
        folders.no_duplicates(),
    ensures
        slots_total(grouped(ts.push(t), folders)) == slots_total(grouped(ts, folders)) + (
        if folders.contains(t.folder_id) {
            1nat
        } else {
            0nat
        }),
    decreases folders.len(),
{
    assert(ts.push(t).drop_last() =~= ts);
    if folders.len() > 0 {
        let rest = folders.drop_last();
        lemma_grouped_total(ts, t, rest);
        assert(grouped(ts.push(t), folders).drop_last() =~= grouped(ts.push(t), rest));
        assert(grouped(ts, folders).drop_last() =~= grouped(ts, rest));
        if rest.contains(t.folder_id) {
            let k = choose|k: int| 0 <= k < rest.len() && rest[k] == t.folder_id;
            assert(folders[k] == t.folder_id);
            assert(folders.last() != t.folder_id);
        } else if folders.contains(t.folder_id) {
            let k = choose|k: int| 0 <= k < folders.len() && folders[k] == t.folder_id;
            if k < rest.len() {
                assert(rest[k] == t.folder_id);
            }
        } else {
            assert(folders[folders.len() - 1] != t.folder_id);
        }
    }
}

/// A folder that no download is in holds none.
proof fn lemma_unseen_is_empty(ts: Seq<TaskView>, folder: Seq<char>)
    requires
        !folders_seen(ts).contains(folder),
    ensures
        tasks_in(ts, folder).len() == 0,
    decreases ts.len(),
{
    if ts.len() > 0 {
        let seen = folders_seen(ts.drop_last());
        let own = ts.last().folder_id;
        if seen.contains(folder) {
            let k = choose|k: int| 0 <= k < seen.len() && seen[k] == folder;
            assert(seen.push(own)[k] == folder);
        }
        if own == folder && !seen.contains(own) {
            assert(seen.push(own)[seen.len() as int] == folder);
        }
        lemma_unseen_is_empty(ts.drop_last(), folder);
    }
}

/// Where downloads are looked at by folder, each is seen exactly once: no folder
/// comes twice, and the folders hold as many downloads as there are.
pub proof fn law_slots_cover_the_queue(ts: Seq<TaskView>)
    ensures
        folders_seen(ts).no_duplicates(),
        forall|i: int| 0 <= i < ts.len() ==> folders_seen(ts).contains((#[trigger] ts[i]).folder_id),
        slots_total(grouped(ts, folders_seen(ts))) == ts.len(),
    decreases ts.len(),
{
    if ts.len() > 0 {
        let before = ts.drop_last();
        let seen = folders_seen(before);
        let own = ts.last().folder_id;
        law_slots_cover_the_queue(before);
        assert(before.push(ts.last()) =~= ts);
        if seen.contains(own) {
            lemma_grouped_total(before, ts.last(), seen);
        } else {
            let all = seen.push(own);
            lemma_unseen_is_empty(before, own);
            assert(grouped(before, all).drop_last() =~= grouped(before, seen));
            assert(all[seen.len() as int] == own);
            lemma_grouped_total(before, ts.last(), all);
        }
        assert forall|i: int| 0 <= i < ts.len() implies folders_seen(ts).contains(
            (#[trigger] ts[i]).folder_id,
        ) by {
            if i < before.len() {
                assert(ts[i] == before[i]);
                let k = choose|k: int| 0 <= k < seen.len() && seen[k] == ts[i].folder_id;
                assert(folders_seen(ts)[k] == ts[i].folder_id);
            } else if !seen.contains(own) {
                assert(folders_seen(ts)[seen.len() as int] == own);
            }
        }
    }
}

/// What is shown of one folder's downloads.
pub open spec fn slots_text(s: SlotsView) -> Seq<char> {
    "Folder: "@ + s.folder_id + " (Total: "@ + decimal(s.tasks.len()) + ", Active: "@ + decimal(
        count_status(s.tasks, DownloadStatus::Downloading),
    ) + ")\n"@ + task_lines(s.tasks) + "\n"@
}

/// What is shown of several folders' downloads.
pub open spec fn all_slots_text(s: Seq<SlotsView>) -> Seq<char>
    decreases s.len(),
{
    if s.len() == 0 {
        "Folder Slot States\n\n"@
    } else {
        all_slots_text(s.drop_last()) + slots_text(s.last())
    }
}

/// What is shown of the queue says how many downloads there are and how many run, and
/// then names each; what is shown of a folder says so of its own.
pub proof fn law_state_is_shown(ts: Seq<TaskView>, active: nat, s: SlotsView)
    ensures
        state_text(ts, active) == "Download Manager State\n\n"@ + ("Total Tasks: "@ + decimal(
            ts.len(),
        ) + "\n"@) + ("Active Downloads: "@ + decimal(active) + "\n"@) + "\nTask IDs:\n"@
            + task_lines(ts),
        slots_text(s) == "Folder: "@ + s.folder_id + " (Total: "@ + decimal(s.tasks.len())
            + ", Active: "@ + decimal(
            s.tasks.filter(|t: TaskView| t.status == DownloadStatus::Downloading).len(),
        ) + ")\n"@ + task_lines(s.tasks) + "\n"@,
{
    lemma_counted_by_filter(s.tasks, DownloadStatus::Downloading);
}

/// As many tasks have a status as are left when the others are taken out.
proof fn lemma_counted_by_filter(ts: Seq<TaskView>, status: DownloadStatus)
    ensures
        count_status(ts, status) == ts.filter(|t: TaskView| t.status == status).len(),
    decreases ts.len(),
{
    reveal(Seq::filter);
    if ts.len() > 0 {
        lemma_counted_by_filter(ts.drop_last(), status);
    }
}

/// Folders are shown one behind another.
pub proof fn law_folders_one_by_one(a: Seq<SlotsView>, s: SlotsView)
    ensures
        all_slots_text(Seq::empty()) == "Folder Slot States\n\n"@,
        all_slots_text(a.push(s)) == all_slots_text(a) + slots_text(s),
{
    assert(a.push(s).drop_last() =~= a);
}

fn show_folder_slots(slots: &FolderSlots) -> (r: String)
    ensures
        r@ == slots_text(slots@),
{
    let mut out = "Folder: ".to_owned();
    out.append(slots.folder_id.as_str());
    out.append(" (Total: ");
    out.append(decimal_u64(slots.tasks.len() as u64).as_str());
    out.append(", Active: ");
    let active = count_with_status(&slots.tasks, DownloadStatus::Downloading);
    out.append(decimal_u64(active as u64).as_str());
    out.append(")\n");
    append_tasks(&mut out, &slots.tasks);
    out.append("\n");
    out
}

/// What is shown of downloads by folder.
pub fn show_slots(slots: &Vec<FolderSlots>) -> (r: String)
    ensures
        r@ == all_slots_text(slots_views(slots@)),
{
    let ghost ss = slots_views(slots@);
    let mut out = "Folder Slot States\n\n".to_owned();
    assert(ss.take(0) =~= Seq::<SlotsView>::empty());
    for i in 0..slots.len()
        invariant
            ss == slots_views(slots@),
            out@ == all_slots_text(ss.take(i as int)),
    {
        assert(ss.take(i + 1).drop_last() =~= ss.take(i as int));
        assert(ss.take(i + 1).last() == slots@[i as int]@);
        let shown = show_folder_slots(&slots[i]);
        out.append(shown.as_str());
    }
    assert(ss.take(ss.len() as int) =~= ss);
    out
}

// ---------------------------------------------------------------------------
// One download
// ---------------------------------------------------------------------------

/// A line for each header, in the order of the map.
pub open spec fn header_lines(pairs: Seq<(Seq<char>, String)>) -> Seq<char>
    decreases pairs.len(),
{
    if pairs.len() == 0 {
        Seq::empty()
    } else {
        header_lines(pairs.drop_last()) + "  "@ + pairs.last().0 + ": "@ + pairs.last().1@ + "\n"@
    }
}

/// Headers under a heading, if there are any.
pub open spec fn headers_text(
    heading: Seq<char>,
    pairs: Seq<(Seq<char>, String)>,
) -> Seq<char> {
    if pairs.len() == 0 {
        Seq::empty()
    } else {
        heading + header_lines(pairs)
    }
}

fn append_headers(out: &mut String, heading: &str, headers: &TextMap<String>)
    ensures
        final(out)@ == old(out)@ + headers_text(heading@, headers.pairs()),
{
    let ghost start = out@;
    if headers.len() > 0 {
        out.append(heading);
        let ghost ps = headers.pairs();
        let ghost before = out@;
        assert(before =~= before + header_lines(ps.take(0)));
        let n: usize = headers.len();
        for i in 0..n
            invariant
                n == ps.len(),
                ps == headers.pairs(),
                out@ == before + header_lines(ps.take(i as int)),
        {
            assert(ps.take(i + 1).drop_last() =~= ps.take(i as int));
            out.append("  ");
            out.append(headers.key_at(i).as_str());
            out.append(": ");
            out.append(headers.value_at(i).as_str());
            out.append("\n");
            assert(out@ =~= before + header_lines(ps.take(i + 1)));
        }
        assert(ps.take(ps.len() as int) =~= ps);
        assert(out@ =~= start + headers_text(heading@, ps));
    } else {
        assert(out@ =~= start + headers_text(heading@, headers.pairs()));
    }
}

fn append_if(out: &mut String, heading: &str, text: Option<&str>)
    ensures
        final(out)@ == old(out)@ + line_if(heading@, opt_str(text)),
{
    if let Some(t) = text {
        append_line(out, heading, t);
    }
    assert(out@ =~= old(out)@ + line_if(heading@, opt_str(text)));
}

fn as_text(o: &Option<String>) -> (r: Option<&str>)
    ensures
        opt_str(r) == opt_text(*o),
{
    match o {
        Some(s) => Some(s.as_str()),
        None => None,
    }
}

/// How a download's times are shown.
pub struct ShownTimes {
    pub created: String,
    pub started: Option<String>,
    pub completed: Option<String>,
}

/// What is shown of a download, first of all what does not change.
pub open spec fn task_head(t: TaskView, place: Seq<char>) -> Seq<char> {
    "Task Details\n\n"@ + line("ID: "@, uuid_text(t.id)) + line("URL: "@, t.url) + line(
        "Filename: "@,
        t.filename,
    ) + line("Folder: "@, t.folder_id) + line("Save Path: "@, place) + line(
        "Status: "@,
        status_shown(t.status),
    )
}

/// What is shown of how far a download is.
pub open spec fn task_progress(t: TaskView) -> Seq<char> {
    line(
        "Size: "@,
        match t.size {
            Some(n) => bytes_text(n as nat),
            None => "Unknown"@,
        },
    ) + line("Downloaded: "@, bytes_text(t.downloaded as nat)) + line(
        "Priority: "@,
        decimal_int(t.priority as int),
    ) + line("Resume Supported: "@, flag_text(t.resume_supported)) + line(
        "Retry Count: "@,
        decimal(t.retry_count as nat),
    )
}

/// What is shown of a download's times and of what the server said.
pub open spec fn task_tail(t: TaskView, times: ShownTimes) -> Seq<char> {
    "\nTimestamps:\n"@ + line("  Created: "@, times.created@) + line_if(
        "  Started: "@,
        opt_text(times.started),
    ) + line_if("  Completed: "@, opt_text(times.completed)) + line_if("\nETag: "@, t.etag)
        + line_if("Last-Modified: "@, t.last_modified) + line_if("\nError: "@, t.error_message)
}

/// A download is shown with its size, or that it is unknown, and with what is here of
/// it, its priority, whether it can be resumed and how often it was tried again.
pub proof fn law_progress_is_shown(t: TaskView)
    ensures
        ({
            let rest = "Downloaded: "@ + bytes_text(t.downloaded as nat) + "\n"@ + ("Priority: "@
                + decimal_int(t.priority as int) + "\n"@) + ("Resume Supported: "@ + (
            if t.resume_supported {
                "true"@
            } else {
                "false"@
            }) + "\n"@) + ("Retry Count: "@ + decimal(t.retry_count as nat) + "\n"@);
            &&& t.size is Some ==> task_progress(t) == "Size: "@ + bytes_text(t.size->0 as nat)
                + "\n"@ + rest
            &&& t.size is None ==> task_progress(t) == "Size: "@ + "Unknown"@ + "\n"@ + rest
        }),
{
    let rest = "Downloaded: "@ + bytes_text(t.downloaded as nat) + "\n"@ + ("Priority: "@
        + decimal_int(t.priority as int) + "\n"@) + ("Resume Supported: "@ + flag_text(
        t.resume_supported,
    ) + "\n"@) + ("Retry Count: "@ + decimal(t.retry_count as nat) + "\n"@);
    let size = match t.size {
        Some(n) => bytes_text(n as nat),
        None => "Unknown"@,
    };
    assert(task_progress(t) =~= "Size: "@ + size + "\n"@ + rest);
}

/// A download is shown with who it is and where it goes; when it was added, and, as far
/// as they are known, when it began and ended, its validators and its failure.
pub proof fn law_task_is_shown(t: TaskView, place: Seq<char>, times: ShownTimes)
    ensures
        task_head(t, place) == "Task Details\n\n"@ + ("ID: "@ + uuid_text(t.id) + "\n"@) + ("URL: "@
            + t.url + "\n"@) + ("Filename: "@ + t.filename + "\n"@) + ("Folder: "@ + t.folder_id
            + "\n"@) + ("Save Path: "@ + place + "\n"@) + ("Status: "@ + status_shown(t.status)
            + "\n"@),
        ({
            let created = "\nTimestamps:\n"@ + ("  Created: "@ + times.created@ + "\n"@);
            let started = if times.started is Some {
                "  Started: "@ + times.started->0@ + "\n"@
            } else {
                Seq::empty()
            };
            let completed = if times.completed is Some {
                "  Completed: "@ + times.completed->0@ + "\n"@
            } else {
                Seq::empty()
            };
            let etag = if t.etag is Some {
                "\nETag: "@ + t.etag->0 + "\n"@
            } else {
                Seq::empty()
            };
            let modified = if t.last_modified is Some {
                "Last-Modified: "@ + t.last_modified->0 + "\n"@
            } else {
                Seq::empty()
            };
            let error = if t.error_message is Some {
                "\nError: "@ + t.error_message->0 + "\n"@
            } else {
                Seq::empty()
            };
            task_tail(t, times) == created + started + completed + etag + modified + error
        }),
{
}

/// Headers are shown under a heading, each on a line of its own; where there are none,
/// neither is the heading.
pub proof fn law_headers_are_shown(
    heading: Seq<char>,
    pairs: Seq<(Seq<char>, String)>,
    pair: (Seq<char>, String),
)
    ensures
        headers_text(heading, Seq::empty()) == Seq::<char>::empty(),
        headers_text(heading, pairs.push(pair)) == heading + header_lines(pairs.push(pair)),
        header_lines(pairs.push(pair)) == header_lines(pairs) + "  "@ + pair.0 + ": "@ + pair.1@
            + "\n"@,
        header_lines(Seq::empty()) == Seq::<char>::empty(),
{
    assert(pairs.push(pair).drop_last() =~= pairs);
}

fn show_head(task: &DownloadTask, place: &str) -> (r: String)
    ensures
        r@ == task_head(task@, place@),
{
    let mut out = "Task Details\n\n".to_owned();
    append_line(&mut out, "ID: ", format_uuid(task.id).as_str());
    append_line(&mut out, "URL: ", task.url.as_str());
    append_line(&mut out, "Filename: ", task.filename.as_str());
    append_line(&mut out, "Folder: ", task.folder_id.as_str());
    append_line(&mut out, "Save Path: ", place);
    append_line(&mut out, "Status: ", show_status(task.status));
    out
}

fn first_line(heading: &str, text: &str) -> (r: String)
    ensures
        r@ == line(heading@, text@),
{
    let mut out = heading.to_owned();
    out.append(text);
    out.append("\n");
    out
}

fn show_progress(task: &DownloadTask) -> (r: String)
    ensures
        r@ == task_progress(task@),
{
    let size = match task.size {
        Some(n) => format_bytes(n),
        None => "Unknown".to_owned(),
    };
    let mut out = first_line("Size: ", size.as_str());
    append_line(&mut out, "Downloaded: ", format_bytes(task.downloaded).as_str());
    append_line(&mut out, "Priority: ", decimal_i64(task.priority as i64).as_str());
    append_line(&mut out, "Resume Supported: ", show_flag(task.resume_supported).as_str());
    append_line(&mut out, "Retry Count: ", decimal_u64(task.retry_count as u64).as_str());
    out
}

fn show_tail(task: &DownloadTask, times: &ShownTimes) -> (r: String)
    ensures
        r@ == task_tail(task@, *times),
{
    let mut out = "\nTimestamps:\n".to_owned();
    append_line(&mut out, "  Created: ", times.created.as_str());
    append_if(&mut out, "  Started: ", as_text(&times.started));
    append_if(&mut out, "  Completed: ", as_text(&times.completed));
    append_if(&mut out, "\nETag: ", as_text(&task.etag));
    append_if(&mut out, "Last-Modified: ", as_text(&task.last_modified));
    append_if(&mut out, "\nError: ", as_text(&task.error_message));
    out
}

/// Everything about a download, given how its place and its times are shown.
pub fn show_task(task: &DownloadTask, place: &str, times: &ShownTimes) -> (r: String)
    ensures
        r@ == task_head(task@, place@) + task_progress(task@) + task_tail(task@, *times)
            + headers_text("\nHeaders:\n"@, task.headers.pairs()),
{
    let mut out = show_head(task, place);
    out.append(show_progress(task).as_str());
    out.append(show_tail(task, times).as_str());
    append_headers(&mut out, "\nHeaders:\n", &task.headers);
    out
}

// ---------------------------------------------------------------------------
// Folders
// ---------------------------------------------------------------------------

/// What is shown of a folder in a list, given its key and how its place is
/// shown.
pub open spec fn folder_summary(id: Seq<char>, f: FolderConfig, place: Seq<char>) -> Seq<char> {
    line("Name: "@, f.name@) + line("  ID: "@, id) + line("  Path: "@, place) + line(
        "  Auto-Date Directory: "@,
        flag_text(f.auto_date_directory),
    ) + line("  Auto-Start: "@, flag_text(f.auto_start_downloads)) + line_if(
        "  Scripts: "@,
        match f.scripts_enabled {
            Some(on) => Some(switch_text(on)),
            None => None,
        },
    ) + line_if(
        "  Max Concurrent: "@,
        match f.max_concurrent {
            Some(n) => Some(decimal(n as nat)),
            None => None,
        },
    ) + "\n"@
}

/// Whether something is on, in a word.
pub open spec fn switch_text(on: bool) -> Seq<char> {
    if on {
        "enabled"@
    } else {
        "disabled"@
    }
}

fn show_switch(on: bool) -> (r: &'static str)
    ensures
        r@ == switch_text(on),
{
    if on {
        "enabled"
    } else {
        "disabled"
    }
}

/// What is shown of the first folders of a map, given how their places are
/// shown.
pub open spec fn folder_summaries(
    folders: Seq<(Seq<char>, FolderConfig)>,
    places: Seq<Seq<char>>,
) -> Seq<char>
    decreases folders.len(),
{
    if folders.len() == 0 {
        Seq::empty()
    } else {
        folder_summaries(folders.drop_last(), places) + folder_summary(
            folders.last().0,
            folders.last().1,
            places[folders.len() - 1],
        )
    }
}

fn summarize_folder(id: &str, folder: &FolderConfig, place: &str) -> (r: String)
    ensures
        r@ == folder_summary(id@, *folder, place@),
{
    let scripts = match folder.scripts_enabled {
        Some(on) => Some(show_switch(on)),
        None => None,
    };
    let limit = match folder.max_concurrent {
        Some(n) => Some(decimal_u64(n as u64)),
        None => None,
    };
    let mut out = first_line("Name: ", folder.name.as_str());
    append_line(&mut out, "  ID: ", id);
    append_line(&mut out, "  Path: ", place);
    append_line(
        &mut out,
        "  Auto-Date Directory: ",
        show_flag(folder.auto_date_directory).as_str(),
    );
    append_line(&mut out, "  Auto-Start: ", show_flag(folder.auto_start_downloads).as_str());
    append_if(&mut out, "  Scripts: ", scripts);
    append_if(&mut out, "  Max Concurrent: ", as_text(&limit));
    out.append("\n");
    out
}

/// What is shown of all folders, given how their places are shown.
pub fn show_folders(folders: &TextMap<FolderConfig>, places: &Vec<String>) -> (r: String)
    requires
        places@.len() == folders.pairs().len(),
    ensures
        r@ == (if folders.pairs().len() == 0 {
            "No folders configured\n"@
        } else {
            "Folders ("@ + decimal(folders.pairs().len()) + " total)\n\n"@ + folder_summaries(
                folders.pairs(),
                texts(places@),
            )
        }),
{
    if folders.len() == 0 {
        return "No folders configured\n".to_owned();
    }
    let mut out = "Folders (".to_owned();
    out.append(decimal_u64(folders.len() as u64).as_str());
    out.append(" total)\n\n");
    let ghost fs = folders.pairs();
    let ghost ps = texts(places@);
    let ghost before = out@;
    assert(before =~= before + folder_summaries(fs.take(0), ps));
    let n: usize = folders.len();
    for i in 0..n
        invariant
            n == fs.len(),
            fs == folders.pairs(),
            ps == texts(places@),
            places@.len() == fs.len(),
            out@ == before + folder_summaries(fs.take(i as int), ps),
    {
        assert(fs.take(i + 1).drop_last() =~= fs.take(i as int));
        let summary = summarize_folder(
            folders.key_at(i).as_str(),
            folders.value_at(i),
            places[i].as_str(),
        );
        out.append(summary.as_str());
        assert(out@ =~= before + folder_summaries(fs.take(i + 1), ps));
    }
    assert(fs.take(fs.len() as int) =~= fs);
    out
}

/// A line for each script, in the order of the map.
pub open spec fn script_lines(pairs: Seq<(Seq<char>, bool)>) -> Seq<char>
    decreases pairs.len(),
{
    if pairs.len() == 0 {
        Seq::empty()
    } else {
        script_lines(pairs.drop_last()) + "  "@ + pairs.last().0 + " - "@ + switch_text(
            pairs.last().1,
        ) + "\n"@
    }
}

/// Scripts under a heading, if there are any.
pub open spec fn scripts_text(scripts: Option<TextMap<bool>>) -> Seq<char> {
    match scripts {
        Some(m) => if m.pairs().len() == 0 {
            Seq::empty()
        } else {
            "\nScript Files:\n"@ + script_lines(m.pairs())
        },
        None => Seq::empty(),
    }
}

fn append_scripts(out: &mut String, scripts: &Option<TextMap<bool>>)
    ensures
        final(out)@ == old(out)@ + scripts_text(*scripts),
{
    let ghost start = out@;
    if let Some(m) = scripts {
        if m.len() > 0 {
            out.append("\nScript Files:\n");
            let ghost ps = m.pairs();
            let ghost before = out@;
            assert(before =~= before + script_lines(ps.take(0)));
            let n: usize = m.len();
            for i in 0..n
                invariant
                    n == ps.len(),
                    ps == m.pairs(),
                    out@ == before + script_lines(ps.take(i as int)),
            {
                assert(ps.take(i + 1).drop_last() =~= ps.take(i as int));
                out.append("  ");
                out.append(m.key_at(i).as_str());
                out.append(" - ");
                out.append(show_switch(*m.value_at(i)));
                out.append("\n");
                assert(out@ =~= before + script_lines(ps.take(i + 1)));
            }
            assert(ps.take(ps.len() as int) =~= ps);
        }
    }
    assert(out@ =~= start + scripts_text(*scripts));
}

/// What is shown of one folder's settings, but for its headers and scripts.
pub open spec fn folder_head(id: Seq<char>, f: FolderConfig, place: Seq<char>) -> Seq<char> {
    "Folder: "@ + id + "\n\n"@ + line("Save Path: "@, place) + line(
        "Auto-Date Directory: "@,
        flag_text(f.auto_date_directory),
    ) + line("Auto-Start Downloads: "@, flag_text(f.auto_start_downloads)) + line(
        "Scripts Enabled: "@,
        match f.scripts_enabled {
            Some(on) => flag_text(on),
            None => "(inherit from application)"@,
        },
    ) + line(
        "Max Concurrent: "@,
        match f.max_concurrent {
            Some(n) => decimal(n as nat),
            None => "(inherit from application)"@,
        },
    ) + line_if("User-Agent: "@, opt_text(f.user_agent))
}

/// A folder's settings are shown as they are; what it does not set is shown as
/// inherited, and a switch as on or off.
pub proof fn law_folder_settings_are_shown(
    id: Seq<char>,
    f: FolderConfig,
    place: Seq<char>,
    on: bool,
)
    ensures
        ({
            let inherited = "(inherit from application)"@;
            let scripts = if f.scripts_enabled is Some {
                flag_text(f.scripts_enabled->0)
            } else {
                inherited
            };
            let most = if f.max_concurrent is Some {
                decimal(f.max_concurrent->0 as nat)
            } else {
                inherited
            };
            let agent = if f.user_agent is Some {
                "User-Agent: "@ + f.user_agent->0@ + "\n"@
            } else {
                Seq::empty()
            };
            folder_head(id, f, place) == "Folder: "@ + id + "\n\n"@ + ("Save Path: "@ + place
                + "\n"@) + ("Auto-Date Directory: "@ + flag_text(f.auto_date_directory) + "\n"@) + (
            "Auto-Start Downloads: "@ + flag_text(f.auto_start_downloads) + "\n"@) + (
            "Scripts Enabled: "@ + scripts + "\n"@) + ("Max Concurrent: "@ + most + "\n"@) + agent
        }),
        switch_text(true) == "enabled"@,
        switch_text(false) == "disabled"@,
{
}

/// A folder is summed up with its name, key, place and switches, and with what it sets
/// of scripts and limits; its scripts are listed with whether they are on.
pub proof fn law_folder_is_summed_up(
    id: Seq<char>,
    f: FolderConfig,
    place: Seq<char>,
    pairs: Seq<(Seq<char>, bool)>,
    pair: (Seq<char>, bool),
)
    ensures
        ({
            let scripts = if f.scripts_enabled is Some {
                "  Scripts: "@ + (if f.scripts_enabled->0 {
                    "enabled"@
                } else {
                    "disabled"@
                }) + "\n"@
            } else {
                Seq::empty()
            };
            let most = if f.max_concurrent is Some {
                "  Max Concurrent: "@ + decimal(f.max_concurrent->0 as nat) + "\n"@
            } else {
                Seq::empty()
            };
            folder_summary(id, f, place) == "Name: "@ + f.name@ + "\n"@ + ("  ID: "@ + id + "\n"@)
                + ("  Path: "@ + place + "\n"@) + ("  Auto-Date Directory: "@ + flag_text(
                f.auto_date_directory,
            ) + "\n"@) + ("  Auto-Start: "@ + flag_text(f.auto_start_downloads) + "\n"@) + scripts
                + most + "\n"@
        }),
        script_lines(Seq::empty()) == Seq::<char>::empty(),
        script_lines(pairs.push(pair)) == script_lines(pairs) + "  "@ + pair.0 + " - "@ + (
        if pair.1 {
            "enabled"@
        } else {
            "disabled"@
        }) + "\n"@,
{
    assert(pairs.push(pair).drop_last() =~= pairs);
}

/// What is shown of one folder's settings, given what it was called by and how
/// its place is shown.
pub fn show_folder(id: &str, folder: &FolderConfig, place: &str) -> (r: String)
    ensures
        r@ == folder_head(id@, *folder, place@) + headers_text(
            "\nDefault Headers:\n"@,
            folder.default_headers.pairs(),
        ) + scripts_text(folder.script_files),
{
    let mut out = "Folder: ".to_owned();
    out.append(id);
    out.append("\n\n");
    append_line(&mut out, "Save Path: ", place);
    append_line(&mut out, "Auto-Date Directory: ", show_flag(folder.auto_date_directory).as_str());
    append_line(
        &mut out,
        "Auto-Start Downloads: ",
        show_flag(folder.auto_start_downloads).as_str(),
    );
    let scripts = match folder.scripts_enabled {
        Some(on) => show_flag(on),
        None => "(inherit from application)".to_owned(),
    };
    append_line(&mut out, "Scripts Enabled: ", scripts.as_str());
    let limit = match folder.max_concurrent {
        Some(n) => decimal_u64(n as u64),
        None => "(inherit from application)".to_owned(),
    };
    append_line(&mut out, "Max Concurrent: ", limit.as_str());
    append_if(&mut out, "User-Agent: ", as_text(&folder.user_agent));
    assert(out@ =~= folder_head(id@, *folder, place@));
    append_headers(&mut out, "\nDefault Headers:\n", &folder.default_headers);
    append_scripts(&mut out, &folder.script_files);
    out
}

} // verus!

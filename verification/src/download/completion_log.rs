//! What is kept of a download that is complete.

use vstd::prelude::*;
use vstd::string::*;
use super::task::{DownloadStatus, DownloadTask, TaskView};
use crate::clock::{
    current_moment, elapsed_millis, format_day, millis_between, utc_day, valid_instant, Moment,
};
use crate::text::{clone_opt, opt_text};

verus! {

/// What is kept of a download.
pub struct CompletedEntry {
    /// The 128 bits of the task's UUID.
    pub id: u128,
    pub url: String,
    pub filename: String,
    pub folder_id: String,
    pub size: Option<u64>,
    pub started_at: Option<Moment>,
    pub completed_at: Option<Moment>,
    /// How long the download took, in milliseconds.
    pub duration_ms: Option<i64>,
    pub status: String,
    pub error_message: Option<String>,
}

/// What is kept of a download, as values.
pub struct EntryView {
    pub id: u128,
    pub url: Seq<char>,
    pub filename: Seq<char>,
    pub folder_id: Seq<char>,
    pub size: Option<u64>,
    pub started_at: Option<Moment>,
    pub completed_at: Option<Moment>,
    pub duration_ms: Option<i64>,
    pub status: Seq<char>,
    pub error_message: Option<Seq<char>>,
}

impl View for CompletedEntry {
    type V = EntryView;

    open spec fn view(&self) -> EntryView {
        EntryView {
            id: self.id,
            url: self.url@,
            filename: self.filename@,
            folder_id: self.folder_id@,
            size: self.size,
            started_at: self.started_at,
            completed_at: self.completed_at,
            duration_ms: self.duration_ms,
            status: self.status@,
            error_message: opt_text(self.error_message),
        }
    }
}

impl Clone for CompletedEntry {
    fn clone(&self) -> (r: CompletedEntry)
        ensures
            r == *self,
    {
        CompletedEntry {
            id: self.id,
            url: self.url.clone(),
            filename: self.filename.clone(),
            folder_id: self.folder_id.clone(),
            size: self.size,
            started_at: self.started_at,
            completed_at: self.completed_at,
            duration_ms: self.duration_ms,
            status: self.status.clone(),
            error_message: clone_opt(&self.error_message),
        }
    }
}

/// The name of a status, in lower case.
pub open spec fn status_name(status: DownloadStatus) -> Seq<char> {
    match status {
        DownloadStatus::Pending => "pending"@,
        DownloadStatus::Downloading => "downloading"@,
        DownloadStatus::Paused => "paused"@,
        DownloadStatus::Completed => "completed"@,
        DownloadStatus::Error => "error"@,
        DownloadStatus::Deleted => "deleted"@,
    }
}

/// The name of a status, in lower case.
pub fn status_text(status: DownloadStatus) -> (r: &'static str)
    ensures
        r@ == status_name(status),
{
    match status {
        DownloadStatus::Pending => "pending",
        DownloadStatus::Downloading => "downloading",
        DownloadStatus::Paused => "paused",
        DownloadStatus::Completed => "completed",
        DownloadStatus::Error => "error",
        DownloadStatus::Deleted => "deleted",
    }
}

/// What is kept of a download.
pub open spec fn entry_of(t: TaskView) -> EntryView {
    EntryView {
        id: t.id,
        url: t.url,
        filename: t.filename,
        folder_id: t.folder_id,
        size: t.size,
        started_at: t.started_at,
        completed_at: t.completed_at,
        duration_ms: if t.started_at is Some && t.completed_at is Some {
            Some(millis_between(t.started_at->0, t.completed_at->0) as i64)
        } else {
            None
        },
        status: status_name(t.status),
        error_message: t.error_message,
    }
}

/// What is kept of a download is what it is: who it is, where it came from, what
/// became of it and when. How long it took is kept where both its start and its end
/// are known.
pub proof fn law_entries_say_what_became_of_it(t: TaskView)
    ensures
        ({
            let e = entry_of(t);
            &&& e.id == t.id
            &&& e.url == t.url
            &&& e.filename == t.filename
            &&& e.folder_id == t.folder_id
            &&& e.size == t.size
            &&& e.started_at == t.started_at
            &&& e.completed_at == t.completed_at
            &&& e.error_message == t.error_message
            &&& e.duration_ms is Some <==> t.started_at is Some && t.completed_at is Some
            &&& t.started_at is Some && t.completed_at is Some ==> e.duration_ms == Some(
                millis_between(t.started_at->0, t.completed_at->0) as i64,
            )
            &&& t.status == DownloadStatus::Pending ==> e.status == "pending"@
            &&& t.status == DownloadStatus::Downloading ==> e.status == "downloading"@
            &&& t.status == DownloadStatus::Paused ==> e.status == "paused"@
            &&& t.status == DownloadStatus::Completed ==> e.status == "completed"@
            &&& t.status == DownloadStatus::Error ==> e.status == "error"@
            &&& t.status == DownloadStatus::Deleted ==> e.status == "deleted"@
        }),
{
}

/// No two statuses share a name.
pub proof fn law_status_names_differ(a: DownloadStatus, b: DownloadStatus)
    requires
        status_name(a) == status_name(b),
    ensures
        a == b,
{
    reveal_strlit("pending");
    reveal_strlit("downloading");
    reveal_strlit("paused");
    reveal_strlit("completed");
    reveal_strlit("error");
    reveal_strlit("deleted");
    assert("pending"@.len() == 7 && "pending"@[0] == 'p');
    assert("deleted"@.len() == 7 && "deleted"@[0] == 'd');
    assert("downloading"@.len() == 11);
    assert("paused"@.len() == 6);
    assert("completed"@.len() == 9);
    assert("error"@.len() == 5);
}

impl CompletedEntry {
    /// What is kept of a download.
    pub fn from_task(task: &DownloadTask) -> (r: CompletedEntry)
        requires
            task@.started_at is Some ==> valid_instant(task@.started_at->0),
            task@.completed_at is Some ==> valid_instant(task@.completed_at->0),
        ensures
            r@ == entry_of(task@),
    {
        let duration_ms: Option<i64> = match (task.started_at, task.completed_at) {
            (Some(start), Some(end)) => Some(elapsed_millis(start, end)),
            _ => None,
        };
        CompletedEntry {
            id: task.id,
            url: task.url.clone(),
            filename: task.filename.clone(),
            folder_id: task.folder_id.clone(),
            size: task.size,
            started_at: task.started_at,
            completed_at: task.completed_at,
            duration_ms,
            status: status_text(task.status).to_owned(),
            error_message: clone_opt(&task.error_message),
        }
    }
}

/// The name of the log of the day of a moment, given the day.
pub fn log_name_of_day(day: &str) -> (r: String)
    ensures
        r@ == day@ + ".jsonl"@,
{
    let mut s = day.to_owned();
    s.append(".jsonl");
    s
}

/// The name of the log that a download is kept in that is complete at the moment
/// `now`.
pub fn completion_log_name(now: Moment) -> (r: String)
    requires
        valid_instant(now),
    ensures
        r@ == utc_day(now) + ".jsonl"@,
{
    let day = format_day(now);
    log_name_of_day(day.as_str())
}

/// The name of the log that a download is kept in that is complete now.
pub fn current_completion_log() -> (r: String)
    ensures
        exists|now: Moment| valid_instant(now) && r@ == #[trigger] utc_day(now) + ".jsonl"@,
{
    let now: Moment = current_moment();
    completion_log_name(now)
}

} // verus!

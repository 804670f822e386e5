//! A single download and its log.

use vstd::prelude::*;
use vstd::string::*;
use crate::app::config::Config;
use crate::app::settings::folder_of;
use crate::clock::{current_moment, valid_instant, Moment};
use crate::ids::fresh_id;
use crate::file::path::{PathView, SavePath};
use crate::text::{
    after_last, clone_opt, cut_after_last, decimal, decimal_u64, lemma_trailing, opt_text, other_than,
};
use crate::text_map::{text_values, TextMap};

verus! {

/// How serious a log entry is.
#[derive(Debug, Clone, Copy, PartialEq, Eq, Structural)]
pub enum LogLevel {
    Info,
    Warn,
    Error,
}

/// One line in the log of a download.
#[derive(Debug)]
pub struct LogEntry {
    /// When it was written.
    pub timestamp: Moment,
    pub level: LogLevel,
    pub message: String,
}

/// What a log entry says.
pub struct LogView {
    pub timestamp: Moment,
    pub level: LogLevel,
    pub message: Seq<char>,
}

impl View for LogEntry {
    type V = LogView;

    open spec fn view(&self) -> LogView {
        LogView { timestamp: self.timestamp, level: self.level, message: self.message@ }
    }
}

impl Clone for LogEntry {
    fn clone(&self) -> (r: LogEntry)
        ensures
            r == *self,
    {
        LogEntry { timestamp: self.timestamp, level: self.level, message: self.message.clone() }
    }
}

impl LogEntry {
    /// An entry of the present moment that reports progress.
    pub fn info(message: String) -> (r: LogEntry)
        ensures
            valid_instant(r.timestamp),
            r.level == LogLevel::Info,
            r.message == message,
    {
        LogEntry { timestamp: current_moment(), level: LogLevel::Info, message }
    }

    /// An entry of the present moment that warns.
    pub fn warn(message: String) -> (r: LogEntry)
        ensures
            valid_instant(r.timestamp),
            r.level == LogLevel::Warn,
            r.message == message,
    {
        LogEntry { timestamp: current_moment(), level: LogLevel::Warn, message }
    }

    /// An entry of the present moment that reports a failure.
    pub fn error(message: String) -> (r: LogEntry)
        ensures
            valid_instant(r.timestamp),
            r.level == LogLevel::Error,
            r.message == message,
    {
        LogEntry { timestamp: current_moment(), level: LogLevel::Error, message }
    }
}

/// Where a download stands.
#[derive(Debug, Clone, Copy, PartialEq, Eq, Structural)]
pub enum DownloadStatus {
    Pending,
    Downloading,
    Paused,
    Completed,
    Error,
    Deleted,
}

/// A single download.
pub struct DownloadTask {
    /// The 128 bits of the task's UUID.
    pub id: u128,
    pub url: String,
    pub filename: String,
    pub save_path: SavePath,
    pub folder_id: String,
    pub size: Option<u64>,
    pub downloaded: u64,
    pub status: DownloadStatus,
    pub priority: i32,
    /// When the download was added.
    pub created_at: Moment,
    pub started_at: Option<Moment>,
    pub completed_at: Option<Moment>,
    pub headers: TextMap<String>,
    pub user_agent: Option<String>,
    pub resume_supported: bool,
    pub etag: Option<String>,
    pub last_modified: Option<String>,
    pub error_message: Option<String>,
    pub logs: Vec<LogEntry>,
    pub retry_count: u32,
    pub last_status_code: Option<u16>,
}

/// What a download is, field by field.
#[verifier::ext_equal]
pub struct TaskView {
    pub id: u128,
    pub url: Seq<char>,
    pub filename: Seq<char>,
    pub save_path: PathView,
    pub folder_id: Seq<char>,
    pub size: Option<u64>,
    pub downloaded: u64,
    pub status: DownloadStatus,
    pub priority: i32,
    pub created_at: Moment,
    pub started_at: Option<Moment>,
    pub completed_at: Option<Moment>,
    pub headers: Map<Seq<char>, Seq<char>>,
    pub user_agent: Option<Seq<char>>,
    pub resume_supported: bool,
    pub etag: Option<Seq<char>>,
    pub last_modified: Option<Seq<char>>,
    pub error_message: Option<Seq<char>>,
    pub logs: Seq<LogView>,
    pub retry_count: u32,
    pub last_status_code: Option<u16>,
}

/// What a log says.
pub open spec fn log_views(logs: Seq<LogEntry>) -> Seq<LogView> {
    logs.map_values(|e: LogEntry| e@)
}

impl View for DownloadTask {
    type V = TaskView;

    open spec fn view(&self) -> TaskView {
        TaskView {
            id: self.id,
            url: self.url@,
            filename: self.filename@,
            save_path: self.save_path@,
            folder_id: self.folder_id@,
            size: self.size,
            downloaded: self.downloaded,
            status: self.status,
            priority: self.priority,
            created_at: self.created_at,
            started_at: self.started_at,
            completed_at: self.completed_at,
            headers: text_values(self.headers@),
            user_agent: opt_text(self.user_agent),
            resume_supported: self.resume_supported,
            etag: opt_text(self.etag),
            last_modified: opt_text(self.last_modified),
            error_message: opt_text(self.error_message),
            logs: log_views(self.logs@),
            retry_count: self.retry_count,
            last_status_code: self.last_status_code,
        }
    }
}

/// A log with one more entry.
pub open spec fn logged(
    logs: Seq<LogView>,
    now: Moment,
    level: LogLevel,
    message: Seq<char>,
) -> Seq<LogView> {
    logs.push(LogView { timestamp: now, level, message })
}

/// A download with one more log entry.
pub open spec fn task_logged(
    t: TaskView,
    now: Moment,
    level: LogLevel,
    message: Seq<char>,
) -> TaskView {
    TaskView { logs: logged(t.logs, now, level, message), ..t }
}

/// A new download of `url`, before anything is known of it.
pub open spec fn fresh_task(
    id: u128,
    url: Seq<char>,
    save_path: PathView,
    folder_id: Seq<char>,
    headers: Map<Seq<char>, Seq<char>>,
    user_agent: Option<Seq<char>>,
    now: Moment,
    message: Seq<char>,
) -> TaskView {
    TaskView {
        id,
        url,
        filename: after_last(url, '/'),
        save_path,
        folder_id,
        size: None,
        downloaded: 0,
        status: DownloadStatus::Pending,
        priority: 0,
        created_at: now,
        started_at: None,
        completed_at: None,
        headers,
        user_agent,
        resume_supported: false,
        etag: None,
        last_modified: None,
        error_message: None,
        logs: seq![LogView { timestamp: now, level: LogLevel::Info, message }],
        retry_count: 0,
        last_status_code: None,
    }
}

/// A new download of `url` in a folder.
pub open spec fn folder_task(
    id: u128,
    url: Seq<char>,
    folder_id: Seq<char>,
    config: Config,
    now: Moment,
) -> TaskView {
    let folder = folder_of(config, folder_id);
    fresh_task(
        id,
        url,
        match folder {
            Some(f) => f.save_path,
            None => config.download.default_directory@,
        },
        folder_id,
        match folder {
            Some(f) => f.default_headers,
            None => Map::empty(),
        },
        match folder {
            Some(f) => f.user_agent,
            None => None,
        },
        now,
        "Download task created in folder '"@ + folder_id + "'"@,
    )
}

impl Clone for DownloadTask {
    fn clone(&self) -> (r: DownloadTask)
        ensures
            r@ == self@,
    {
        let mut logs: Vec<LogEntry> = Vec::new();
        for i in 0..self.logs.len()
            invariant
                logs@ == self.logs@.take(i as int),
        {
            logs.push(self.logs[i].clone());
            assert(logs@ =~= self.logs@.take(i + 1));
        }
        assert(logs@ =~= self.logs@);
        DownloadTask {
            id: self.id,
            url: self.url.clone(),
            filename: self.filename.clone(),
            save_path: self.save_path.clone(),
            folder_id: self.folder_id.clone(),
            size: self.size,
            downloaded: self.downloaded,
            status: self.status,
            priority: self.priority,
            created_at: self.created_at,
            started_at: self.started_at,
            completed_at: self.completed_at,
            headers: self.headers.copied_texts(),
            user_agent: clone_opt(&self.user_agent),
            resume_supported: self.resume_supported,
            etag: clone_opt(&self.etag),
            last_modified: clone_opt(&self.last_modified),
            error_message: clone_opt(&self.error_message),
            logs,
            retry_count: self.retry_count,
            last_status_code: self.last_status_code,
        }
    }
}

impl DownloadTask {
    /// Appends an entry of the moment `now` to the log.
    pub fn log_at(&mut self, now: Moment, level: LogLevel, message: String)
        ensures
            final(self)@ == task_logged(old(self)@, now, level, message@),
    {
        self.logs.push(LogEntry { timestamp: now, level, message });
        assert(self@ =~= task_logged(old(self)@, now, level, message@));
    }

    /// Appends an entry of the present moment that reports progress.
    pub fn log_info(&mut self, message: String)
        ensures
            exists|now: Moment| valid_instant(now) && final(self)@ == #[trigger] task_logged(
                old(self)@,
                now,
                LogLevel::Info,
                message@,
            ),
    {
        let now: Moment = current_moment();
        self.log_at(now, LogLevel::Info, message);
    }

    /// Appends an entry of the present moment that warns.
    pub fn log_warn(&mut self, message: String)
        ensures
            exists|now: Moment| valid_instant(now) && final(self)@ == #[trigger] task_logged(
                old(self)@,
                now,
                LogLevel::Warn,
                message@,
            ),
    {
        let now: Moment = current_moment();
        self.log_at(now, LogLevel::Warn, message);
    }

    /// Appends an entry of the present moment that reports a failure.
    pub fn log_error(&mut self, message: String)
        ensures
            exists|now: Moment| valid_instant(now) && final(self)@ == #[trigger] task_logged(
                old(self)@,
                now,
                LogLevel::Error,
                message@,
            ),
    {
        let now: Moment = current_moment();
        self.log_at(now, LogLevel::Error, message);
    }

    fn fresh(
        id: u128,
        url: String,
        save_path: SavePath,
        folder_id: String,
        headers: TextMap<String>,
        user_agent: Option<String>,
        now: Moment,
        message: String,
    ) -> (r: DownloadTask)
        ensures
            r@ == fresh_task(
                id,
                url@,
                save_path@,
                folder_id@,
                text_values(headers@),
                opt_text(user_agent),
                now,
                message@,
            ),
    {
        let filename = cut_after_last(url.as_str(), '/');
        let mut logs: Vec<LogEntry> = Vec::new();
        logs.push(LogEntry { timestamp: now, level: LogLevel::Info, message });
        assert(log_views(logs@) =~= seq![
            LogView { timestamp: now, level: LogLevel::Info, message: message@ },
        ]);
        DownloadTask {
            id,
            url,
            filename,
            save_path,
            folder_id,
            size: None,
            downloaded: 0,
            status: DownloadStatus::Pending,
            priority: 0,
            created_at: now,
            started_at: None,
            completed_at: None,
            headers,
            user_agent,
            resume_supported: false,
            etag: None,
            last_modified: None,
            error_message: None,
            logs,
            retry_count: 0,
            last_status_code: None,
        }
    }

    /// A download of `url` in the folder `default`, with the given id, made at
    /// the moment `now`. Its file is named by the last segment of the URL.
    pub fn create(id: u128, url: String, save_path: SavePath, now: Moment) -> (r: DownloadTask)
        ensures
            r@ == fresh_task(
                id,
                url@,
                save_path@,
                "default"@,
                Map::empty(),
                None,
                now,
                "Download task created"@,
            ),
    {
        let headers: TextMap<String> = TextMap::new();
        assert(text_values(headers@) =~= Map::<Seq<char>, Seq<char>>::empty());
        Self::fresh(
            id,
            url,
            save_path,
            "default".to_owned(),
            headers,
            None,
            now,
            "Download task created".to_owned(),
        )
    }

    /// A download of `url` in the folder `default`, with a new random id, made
    /// now.
    pub fn new(url: String, save_path: SavePath) -> (r: DownloadTask)
        ensures
            r@ == fresh_task(
                r.id,
                url@,
                save_path@,
                "default"@,
                Map::empty(),
                None,
                r.created_at,
                "Download task created"@,
            ),
            valid_instant(r.created_at),
    {
        let now: Moment = current_moment();
        let id: u128 = fresh_id();
        Self::create(id, url, save_path, now)
    }

    /// A download of `url` in a folder, with the given id, made at the moment
    /// `now`: place, headers and user agent are those of the folder; where there
    /// is no such folder, the place is the default one.
    pub fn create_in_folder(
        id: u128,
        url: String,
        folder_id: String,
        config: &Config,
        now: Moment,
    ) -> (r: DownloadTask)
        ensures
            r@ == folder_task(id, url@, folder_id@, *config, now),
    {
        let mut save_path = config.download.default_directory.clone();
        let mut headers: TextMap<String> = TextMap::new();
        let mut user_agent: Option<String> = None;
        assert(text_values(headers@) =~= Map::<Seq<char>, Seq<char>>::empty());
        if let Some(folder) = config.folders.get(folder_id.as_str()) {
            save_path = folder.save_path.clone();
            headers = folder.default_headers.copied_texts();
            user_agent = clone_opt(&folder.user_agent);
        }
        let mut message = "Download task created in folder '".to_owned();
        message.append(folder_id.as_str());
        message.append("'");
        Self::fresh(id, url, save_path, folder_id, headers, user_agent, now, message)
    }

    /// A download of `url` in a folder, with a new random id, made now.
    pub fn new_with_folder(url: String, folder_id: String, config: &Config) -> (r: DownloadTask)
        ensures
            r@ == folder_task(r.id, url@, folder_id@, *config, r.created_at),
            valid_instant(r.created_at),
    {
        let now: Moment = current_moment();
        let id: u128 = fresh_id();
        Self::create_in_folder(id, url, folder_id, config, now)
    }

    /// How many bytes are still to come: known only while the download runs and
    /// its size is known.
    pub fn remaining_bytes(&self) -> (r: Option<u64>)
        ensures
            match r {
                Some(n) => self.status == DownloadStatus::Downloading && self.size is Some && n == (
                if self.size->0 <= self.downloaded {
                    0
                } else {
                    self.size->0 - self.downloaded
                }),
                None => self.status != DownloadStatus::Downloading || self.size is None,
            },
    {
        if self.status != DownloadStatus::Downloading {
            return None;
        }
        match self.size {
            None => None,
            Some(total) => {
                if total <= self.downloaded {
                    Some(0)
                } else {
                    Some(total - self.downloaded)
                }
            },
        }
    }
}

/// A duration in words: the two largest of hours, minutes and seconds that it
/// reaches, the smaller of the two left out where it is zero.
pub open spec fn duration_text(seconds: nat) -> Seq<char> {
    if seconds < 60 {
        decimal(seconds) + "s"@
    } else if seconds < 3600 {
        if seconds % 60 > 0 {
            decimal(seconds / 60) + "m "@ + decimal(seconds % 60) + "s"@
        } else {
            decimal(seconds / 60) + "m"@
        }
    } else {
        if (seconds % 3600) / 60 > 0 {
            decimal(seconds / 3600) + "h "@ + decimal((seconds % 3600) / 60) + "m"@
        } else {
            decimal(seconds / 3600) + "h"@
        }
    }
}

/// A new download waits, with nothing received, nothing tried and nothing known of
/// the file; it is named after what follows the last slash of its URL, and its log
/// says that it was created.
pub proof fn law_new_downloads_wait(
    id: u128,
    url: Seq<char>,
    save_path: PathView,
    folder_id: Seq<char>,
    headers: Map<Seq<char>, Seq<char>>,
    user_agent: Option<Seq<char>>,
    now: Moment,
    message: Seq<char>,
    before: Seq<char>,
    name: Seq<char>,
)
    ensures
        ({
            let t = fresh_task(id, url, save_path, folder_id, headers, user_agent, now, message);
            &&& t.status == DownloadStatus::Pending
            &&& t.id == id
            &&& t.url == url
            &&& t.save_path == save_path
            &&& t.folder_id == folder_id
            &&& t.headers == headers
            &&& t.user_agent == user_agent
            &&& t.created_at == now
            &&& t.size is None
            &&& t.downloaded == 0
            &&& t.priority == 0
            &&& t.started_at is None
            &&& t.completed_at is None
            &&& !t.resume_supported
            &&& t.etag is None
            &&& t.last_modified is None
            &&& t.error_message is None
            &&& t.retry_count == 0
            &&& t.last_status_code is None
            &&& t.logs.len() == 1
            &&& t.logs[0].level == LogLevel::Info
            &&& t.logs[0].timestamp == now
            &&& t.logs[0].message == message
            &&& url == before + seq!['/'] + name && !name.contains('/') ==> t.filename == name
            &&& !url.contains('/') ==> t.filename == url
        }),
{
    let p = other_than('/');
    if url == before + seq!['/'] + name && !name.contains('/') {
        assert forall|i: int| url.len() - name.len() <= i < url.len() implies p(
            #[trigger] url[i],
        ) by {
            assert(url[i] == name[i - (url.len() - name.len())]);
        }
        assert(url[url.len() - name.len() - 1] == '/');
        lemma_trailing(url, p, name.len() as int);
        assert(url.skip(url.len() - name.len()) =~= name);
    }
    if !url.contains('/') {
        assert forall|i: int| 0 <= i < url.len() implies p(#[trigger] url[i]) by {}
        lemma_trailing(url, p, url.len() as int);
        assert(url.skip(0) =~= url);
    }
}

/// A download that is added to a folder takes place, headers and user agent from
/// it; in a folder without settings it is saved to the default place, with neither.
pub proof fn law_folder_downloads_inherit(
    id: u128,
    url: Seq<char>,
    folder_id: Seq<char>,
    config: Config,
    now: Moment,
)
    ensures
        ({
            let t = folder_task(id, url, folder_id, config, now);
            let known = config.folders@.contains_key(folder_id);
            let f = config.folders@[folder_id]@;
            &&& t.id == id
            &&& t.url == url
            &&& t.folder_id == folder_id
            &&& t.created_at == now
            &&& t.status == DownloadStatus::Pending
            &&& known ==> t.save_path == f.save_path && t.headers == f.default_headers
                && t.user_agent == f.user_agent
            &&& !known ==> t.save_path == config.download.default_directory@ && t.headers
                == Map::<Seq<char>, Seq<char>>::empty() && t.user_agent is None
            &&& t.logs.len() == 1
            &&& t.logs[0].message == "Download task created in folder '"@ + folder_id + "'"@
        }),
{
}

/// A duration reads as hours and minutes, as minutes and seconds, or as seconds;
/// what would be none is left out.
pub proof fn law_durations_read(hours: nat, minutes: nat, seconds: nat)
    requires
        minutes < 60,
        seconds < 60,
    ensures
        ({
            let text = duration_text(hours * 3600 + minutes * 60 + seconds);
            &&& hours > 0 && minutes > 0 ==> text == decimal(hours) + "h "@ + decimal(minutes)
                + "m"@
            &&& hours > 0 && minutes == 0 ==> text == decimal(hours) + "h"@
            &&& hours == 0 && minutes > 0 && seconds > 0 ==> text == decimal(minutes) + "m "@
                + decimal(seconds) + "s"@
            &&& hours == 0 && minutes > 0 && seconds == 0 ==> text == decimal(minutes) + "m"@
            &&& hours == 0 && minutes == 0 ==> text == decimal(seconds) + "s"@
        }),
{
    let total = hours * 3600 + minutes * 60 + seconds;
    assert(total / 3600 == hours);
    assert(total % 3600 == minutes * 60 + seconds);
    assert((total % 3600) / 60 == minutes);
    if hours == 0 {
        assert(total / 60 == minutes);
        assert(total % 60 == seconds);
    }
}

/// A duration in words, such as `2h 15m` or `45s`.
pub fn format_duration(seconds: u64) -> (r: String)
    ensures
        r@ == duration_text(seconds as nat),
{
    if seconds < 60 {
        let mut out = decimal_u64(seconds);
        out.append("s");
        out
    } else if seconds < 3600 {
        let mut out = decimal_u64(seconds / 60);
        let secs: u64 = seconds % 60;
        if secs > 0 {
            out.append("m ");
            let tail = decimal_u64(secs);
            out.append(tail.as_str());
            out.append("s");
        } else {
            out.append("m");
        }
        out
    } else {
        let mut out = decimal_u64(seconds / 3600);
        let mins: u64 = (seconds % 3600) / 60;
        if mins > 0 {
            out.append("h ");
            let tail = decimal_u64(mins);
            out.append(tail.as_str());
            out.append("m");
        } else {
            out.append("h");
        }
        out
    }
}

/// What is still to come of a download is what is missing of its size, while it runs and
/// the size is known.
pub proof fn law_remaining_bytes(t: &DownloadTask, r: Option<u64>)
    requires
        call_ensures(DownloadTask::remaining_bytes, (t,), r),
    ensures
        r is Some <==> t.status == DownloadStatus::Downloading && t.size is Some,
        r is Some && t.downloaded <= t.size->0 ==> r->0 + t.downloaded == t.size->0,
        r is Some && t.downloaded > t.size->0 ==> r->0 == 0,
{
}

} // verus!

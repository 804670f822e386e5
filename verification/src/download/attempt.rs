//! One attempt at a download, as a conversation with the outside: the attempt
//! says what is to be done next, and is told what came of it.

use vstd::prelude::*;
use vstd::string::*;
use super::http_client::{
    build_headers, built_view, header_error_text, request_headers, DownloadInfo, HeaderError,
    InfoView,
};
use super::task::{task_logged, DownloadStatus, DownloadTask, LogLevel, TaskView};
use crate::app::config::{referrer, Config, PolicyView, ReferrerPolicy};
use crate::app::settings::{folder_of, resolved, ResolvedSettings};
use crate::clock::{
    elapsed_millis, millis_between, nanos_between, to_unix_millis, unix_millis, valid_instant,
    Moment,
};
use crate::file::metadata::{modification_time, rfc2822_seconds};
use crate::file::naming::{
    is_plain, name_parts, parts_fit, same_extension, sanitize_filename, sanitized, stamped,
    unique_filename_at,
};
use crate::file::path::{no_path, PathView, SavePath};
use crate::script::events::{
    AuthRequiredContext, AuthRequiredView, CompletedContext, CompletedView, HeadersReceivedContext,
    HeadersReceivedView,
};
use crate::text::{
    after_last, before_first, clone_opt, cut_after_last, cut_before_first, decimal, decimal_u64,
    eq_ignore_case, lemma_leading, lemma_trailing, lower_ascii, opt_text, other_than,
    same_ignoring_case, text_eq,
};
use crate::text_map::{keys_distinct, text_values, TextMap};
use crate::web::{origin_of, url_parts};

verus! {

// ---------------------------------------------------------------------------
// Credentials and referrer
// ---------------------------------------------------------------------------

/// A text in Base64, with the standard alphabet and padding.
pub uninterp spec fn base64_text(s: Seq<char>) -> Seq<char>;

/// `base64::Engine::encode` of `base64::engine::general_purpose::STANDARD`, on
/// the UTF-8 form of a text. Its result is a function of the text.
#[verifier::external_body]
fn encode_base64(s: &str) -> (r: String)
    ensures
        r@ == base64_text(s@),
{
    base64::Engine::encode(&base64::engine::general_purpose::STANDARD, s.as_bytes())
}

/// The value of the Authorization header for a user name and a password.
pub fn encode_basic_auth(username: &str, password: &str) -> (r: String)
    ensures
        r@ == "Basic "@ + base64_text(username@ + ":"@ + password@),
{
    let mut credentials = username.to_owned();
    credentials.append(":");
    credentials.append(password);
    let encoded = encode_base64(credentials.as_str());
    let mut out = "Basic ".to_owned();
    out.append(encoded.as_str());
    out
}

/// Whether any of the headers is the referrer.
pub open spec fn names_referer(headers: Map<Seq<char>, Seq<char>>) -> bool {
    exists|k: Seq<char>| #[trigger] headers.contains_key(k) && same_ignoring_case(k, "referer"@)
}

/// The referrer policy for a folder: its own, or else the application's.
pub open spec fn policy_of(config: Config, folder_id: Seq<char>) -> PolicyView {
    match folder_of(config, folder_id) {
        Some(f) => match f.referrer_policy {
            Some(p) => p,
            None => config.download.referrer_policy@,
        },
        None => config.download.referrer_policy@,
    }
}

/// The referrer that the policy gives a download; none where its own headers
/// name one.
pub open spec fn policy_referrer(config: Config, t: TaskView) -> Option<Seq<char>> {
    if names_referer(t.headers) {
        None
    } else {
        referrer(
            policy_of(config, t.folder_id),
            t.url,
            url_parts(t.url),
            origin_of(t.url),
        )
    }
}

fn has_referer(headers: &TextMap<String>) -> (r: bool)
    ensures
        r == names_referer(text_values(headers@)),
{
    let n: usize = headers.len();
    let ghost ps = headers.pairs();
    proof {
        crate::text_map::lemma_map_of(ps);
    }
    for i in 0..n
        invariant
            n == ps.len(),
            ps == headers.pairs(),
            keys_distinct(ps),
            forall|j: int|
                0 <= j < i ==> !same_ignoring_case((#[trigger] ps[j]).0, "referer"@),
    {
        if eq_ignore_case(headers.key_at(i).as_str(), "referer") {
            proof {
                crate::text_map::lemma_map_of(ps);
                assert(headers@.contains_key(ps[i as int].0));
                assert(text_values(headers@).contains_key(ps[i as int].0));
            }
            return true;
        }
    }
    proof {
        if names_referer(text_values(headers@)) {
            let k = choose|k: Seq<char>| #[trigger]
                text_values(headers@).contains_key(k) && same_ignoring_case(k, "referer"@);
            assert(headers@.contains_key(k));
            let j = crate::text_map::key_index(ps, k);
            assert(same_ignoring_case(ps[j].0, "referer"@));
        }
    }
    false
}

/// The referrer that the policy gives a download.
pub fn resolve_referrer(config: &Config, task: &DownloadTask) -> (r: Option<String>)
    ensures
        opt_text(r) == policy_referrer(*config, task@),
{
    if has_referer(&task.headers) {
        return None;
    }
    let own: Option<&ReferrerPolicy> = match config.folders.get(task.folder_id.as_str()) {
        Some(f) => match &f.referrer_policy {
            Some(p) => Some(p),
            None => None,
        },
        None => None,
    };
    let policy: &ReferrerPolicy = match own {
        Some(p) => p,
        None => &config.download.referrer_policy,
    };
    policy.compute(task.url.as_str())
}

// ---------------------------------------------------------------------------
// The conversation
// ---------------------------------------------------------------------------

/// What an attempt waits for.
#[derive(Debug, Clone, Copy, PartialEq, Eq, Structural)]
pub enum Stage {
    /// What the server says of the file.
    Probing,
    /// Credentials from the scripts.
    Asking,
    /// What the server says of the file, asked with credentials.
    Reprobing,
    /// The scripts that look at the response.
    Inspecting,
    /// What stands at the place of the file.
    Locating,
    /// The file.
    Transferring,
    /// The scripts that look at the complete file.
    Completing,
    /// Whether the name that a script wants is taken.
    Naming,
    /// The file to be renamed.
    Renaming,
    /// The file to be moved.
    Moving,
    /// Nothing more.
    Over,
}

/// What came of an action.
pub enum Event {
    /// The server answered.
    Probed(DownloadInfo),
    /// The scripts answered the question for credentials.
    Credentials { username: Option<String>, password: Option<String> },
    /// The scripts have looked at the response.
    Inspected,
    /// What stands at the place of the file: whether a file, and of what size.
    Located { exists: bool, size: u64 },
    /// The file is here.
    Transferred(DownloadInfo),
    /// The scripts have looked at the complete file, and may want it renamed or
    /// moved.
    Completed { new_filename: Option<String>, move_to: Option<SavePath> },
    /// Whether the name is taken.
    NameChecked { taken: bool },
    /// Whether the file could be renamed.
    Renamed { ok: bool },
    /// Whether the file could be moved.
    Moved { ok: bool },
    /// A script has failed.
    HookFailed(String),
    /// The scripts could not be reached.
    HookLost(String),
    /// The action has failed.
    Failed(String),
}

/// What is to be done next.
pub enum Action {
    /// Ask the server what it says of the file.
    Probe { url: String, headers: TextMap<String> },
    /// Ask the scripts for credentials.
    AskCredentials(AuthRequiredContext),
    /// Let the scripts look at the response.
    Inspect(HeadersReceivedContext),
    /// Create the directory and see what stands at the place of the file.
    Locate { directory: SavePath, filename: String },
    /// Get the file.
    Transfer {
        url: String,
        directory: SavePath,
        filename: String,
        headers: TextMap<String>,
        resume_from: Option<u64>,
    },
    /// Let the scripts look at the complete file.
    Complete(CompletedContext),
    /// See whether a name is taken in the directory of the file.
    CheckName(String),
    /// Rename the file.
    Rename { from: String, to: String },
    /// Move the file to another directory.
    Move { filename: String, target: SavePath },
    /// The download is complete: log it and take it out of the queue.
    Finish,
    /// The attempt has failed.
    GiveUp(String),
}

/// A step of an attempt: the task as it is to be stored in the queue first, if
/// it is; the modification time to give the file first, if any; and what is to
/// be done then.
pub struct Step {
    pub save: Option<DownloadTask>,
    pub mtime: Option<i64>,
    pub action: Action,
}

/// One attempt at a download.
pub struct Attempt {
    pub task: DownloadTask,
    pub referer: Option<String>,
    /// Whether the download was interrupted before.
    pub is_resuming: bool,
    /// Whether scripts run.
    pub scripts: bool,
    pub stage: Stage,
    /// Where the file is put.
    pub directory: SavePath,
    /// The name that a script wants for the file.
    pub wanted: String,
    /// Where a script wants the file.
    pub move_to: Option<SavePath>,
}

/// An attempt as values.
#[verifier::ext_equal]
pub struct AttemptView {
    pub task: TaskView,
    pub referer: Option<Seq<char>>,
    pub is_resuming: bool,
    pub scripts: bool,
    pub stage: Stage,
    pub directory: PathView,
    pub wanted: Seq<char>,
    pub move_to: Option<PathView>,
}

/// An event as values.
pub enum EventView {
    Probed(InfoView),
    Credentials { username: Option<Seq<char>>, password: Option<Seq<char>> },
    Inspected,
    Located { exists: bool, size: u64 },
    Transferred(InfoView),
    Completed { new_filename: Option<Seq<char>>, move_to: Option<PathView> },
    NameChecked { taken: bool },
    Renamed { ok: bool },
    Moved { ok: bool },
    HookFailed(Seq<char>),
    HookLost(Seq<char>),
    Failed(Seq<char>),
}

/// An action as values.
pub enum ActionView {
    Probe { url: Seq<char>, headers: Map<Seq<char>, Seq<char>> },
    AskCredentials(AuthRequiredView),
    Inspect(HeadersReceivedView),
    Locate { directory: PathView, filename: Seq<char> },
    Transfer {
        url: Seq<char>,
        directory: PathView,
        filename: Seq<char>,
        headers: Map<Seq<char>, Seq<char>>,
        resume_from: Option<u64>,
    },
    Complete(CompletedView),
    CheckName(Seq<char>),
    Rename { from: Seq<char>, to: Seq<char> },
    Move { filename: Seq<char>, target: PathView },
    Finish,
    GiveUp(Seq<char>),
}

/// A step as values.
pub struct AttemptStepView {
    pub save: Option<TaskView>,
    pub mtime: Option<i64>,
    pub action: ActionView,
}

/// The view of an optional path.
pub open spec fn opt_path(o: Option<SavePath>) -> Option<PathView> {
    match o {
        Some(p) => Some(p@),
        None => None,
    }
}

impl View for Attempt {
    type V = AttemptView;

    open spec fn view(&self) -> AttemptView {
        AttemptView {
            task: self.task@,
            referer: opt_text(self.referer),
            is_resuming: self.is_resuming,
            scripts: self.scripts,
            stage: self.stage,
            directory: self.directory@,
            wanted: self.wanted@,
            move_to: opt_path(self.move_to),
        }
    }
}

impl View for Event {
    type V = EventView;

    open spec fn view(&self) -> EventView {
        match self {
            Event::Probed(info) => EventView::Probed(info@),
            Event::Credentials { username, password } => EventView::Credentials {
                username: opt_text(*username),
                password: opt_text(*password),
            },
            Event::Inspected => EventView::Inspected,
            Event::Located { exists, size } => EventView::Located { exists: *exists, size: *size },
            Event::Transferred(info) => EventView::Transferred(info@),
            Event::Completed { new_filename, move_to } => EventView::Completed {
                new_filename: opt_text(*new_filename),
                move_to: opt_path(*move_to),
            },
            Event::NameChecked { taken } => EventView::NameChecked { taken: *taken },
            Event::Renamed { ok } => EventView::Renamed { ok: *ok },
            Event::Moved { ok } => EventView::Moved { ok: *ok },
            Event::HookFailed(m) => EventView::HookFailed(m@),
            Event::HookLost(m) => EventView::HookLost(m@),
            Event::Failed(m) => EventView::Failed(m@),
        }
    }
}

impl View for Action {
    type V = ActionView;

    open spec fn view(&self) -> ActionView {
        match self {
            Action::Probe { url, headers } => ActionView::Probe {
                url: url@,
                headers: text_values(headers@),
            },
            Action::AskCredentials(c) => ActionView::AskCredentials(c@),
            Action::Inspect(c) => ActionView::Inspect(c@),
            Action::Locate { directory, filename } => ActionView::Locate {
                directory: directory@,
                filename: filename@,
            },
            Action::Transfer { url, directory, filename, headers, resume_from } =>
                ActionView::Transfer {
                url: url@,
                directory: directory@,
                filename: filename@,
                headers: text_values(headers@),
                resume_from: *resume_from,
            },
            Action::Complete(c) => ActionView::Complete(c@),
            Action::CheckName(n) => ActionView::CheckName(n@),
            Action::Rename { from, to } => ActionView::Rename { from: from@, to: to@ },
            Action::Move { filename, target } => ActionView::Move {
                filename: filename@,
                target: target@,
            },
            Action::Finish => ActionView::Finish,
            Action::GiveUp(m) => ActionView::GiveUp(m@),
        }
    }
}

impl View for Step {
    type V = AttemptStepView;

    open spec fn view(&self) -> AttemptStepView {
        AttemptStepView {
            save: match self.save {
                Some(t) => Some(t@),
                None => None,
            },
            mtime: self.mtime,
            action: self.action@,
        }
    }
}

/// An attempt and the step that it takes.
pub struct Outcome {
    pub next: AttemptView,
    pub step: AttemptStepView,
}

// ---------------------------------------------------------------------------
// What each event leads to
// ---------------------------------------------------------------------------

/// An outcome without anything to store or to stamp.
pub open spec fn plainly(next: AttemptView, action: ActionView) -> Outcome {
    Outcome { next, step: AttemptStepView { save: None, mtime: None, action } }
}

/// An outcome with a task to store first.
pub open spec fn saving(task: TaskView, o: Outcome) -> Outcome {
    Outcome { step: AttemptStepView { save: Some(task), ..o.step }, ..o }
}

/// The attempt is over without success.
pub open spec fn given_up(a: AttemptView, message: Seq<char>) -> Outcome {
    plainly(AttemptView { stage: Stage::Over, ..a }, ActionView::GiveUp(message))
}

/// A size in words.
pub open spec fn size_text(size: Option<u64>) -> Seq<char> {
    match size {
        Some(n) => decimal(n as nat) + " bytes"@,
        None => "unknown"@,
    }
}

/// A truth value in words.
pub open spec fn bool_text(b: bool) -> Seq<char> {
    if b {
        "true"@
    } else {
        "false"@
    }
}

/// The file name in the URL that redirects led to: its last segment, without
/// the query.
pub open spec fn redirect_name(final_url: Seq<char>) -> Seq<char> {
    before_first(after_last(final_url, '/'), '?')
}

/// A task with what the server says of size, validators and status.
pub open spec fn task_informed(t: TaskView, info: InfoView) -> TaskView {
    TaskView {
        size: info.size,
        resume_supported: info.resume_supported,
        etag: info.etag,
        last_modified: info.last_modified,
        last_status_code: Some(info.status),
        ..t
    }
}

/// A task named as the server says: by the name it sends, or else by the URL
/// that redirects led to, if they led to another.
pub open spec fn task_named(t: TaskView, info: InfoView, now: Moment) -> TaskView {
    match info.filename {
        Some(f) => task_logged(
            TaskView { filename: sanitized(f), ..t },
            now,
            LogLevel::Info,
            "Filename from server: "@ + sanitized(f),
        ),
        None => match info.final_url {
            Some(u) => if u != t.url && redirect_name(u).len() > 0 {
                TaskView {
                    filename: sanitized(redirect_name(u)),
                    ..task_logged(
                        t,
                        now,
                        LogLevel::Info,
                        "Filename from redirect: "@ + t.filename + " -> "@ + sanitized(
                            redirect_name(u),
                        ),
                    )
                }
            } else {
                t
            },
            None => t,
        },
    }
}

/// A task after the server said what it says of the file.
pub open spec fn task_probed(t: TaskView, info: InfoView, now: Moment) -> TaskView {
    task_named(
        task_logged(
            task_informed(t, info),
            now,
            LogLevel::Info,
            "Server info: size="@ + size_text(info.size) + ", resume="@ + bool_text(
                info.resume_supported,
            ),
        ),
        info,
        now,
    )
}

/// The attempt looks for the place of the file.
pub open spec fn locating(a: AttemptView, config: Config) -> Outcome {
    let directory = resolved(config, a.task.folder_id, a.task).save_path;
    plainly(
        AttemptView { stage: Stage::Locating, directory, ..a },
        ActionView::Locate { directory, filename: a.task.filename },
    )
}

/// The attempt goes on after the server has answered: by way of the scripts, if
/// there are any.
pub open spec fn answered(a: AttemptView, info: InfoView, config: Config) -> Outcome {
    if a.scripts {
        plainly(
            AttemptView { stage: Stage::Inspecting, ..a },
            ActionView::Inspect(
                HeadersReceivedView {
                    url: a.task.url,
                    status: info.status,
                    headers: info.headers,
                    content_length: info.size,
                    etag: info.etag,
                    last_modified: info.last_modified,
                    content_type: info.content_type,
                },
            ),
        )
    } else {
        locating(a, config)
    }
}

/// The realm in words.
pub open spec fn realm_text(realm: Option<Seq<char>>) -> Seq<char> {
    match realm {
        Some(r) => r,
        None => "unknown"@,
    }
}

/// The server has answered for the first time.
#[verifier::opaque]
pub open spec fn on_probed(a: AttemptView, info: InfoView, config: Config, now: Moment) -> Outcome {
    let t = task_probed(a.task, info, now);
    let b = AttemptView { task: t, ..a };
    saving(
        t,
        if info.auth_required {
            let asked = task_logged(
                t,
                now,
                LogLevel::Info,
                "Authentication required (HTTP "@ + decimal(info.status as nat) + "): realm="@
                    + realm_text(info.auth_realm),
            );
            if a.scripts {
                plainly(
                    AttemptView { task: asked, stage: Stage::Asking, ..a },
                    ActionView::AskCredentials(
                        AuthRequiredView {
                            url: t.url,
                            realm: info.auth_realm,
                            username: None,
                            password: None,
                        },
                    ),
                )
            } else {
                given_up(
                    AttemptView {
                        task: task_logged(
                            asked,
                            now,
                            LogLevel::Error,
                            "Authentication required but scripting is disabled"@,
                        ),
                        ..a
                    },
                    "Authentication required (HTTP "@ + decimal(info.status as nat)
                        + ") but scripting is disabled"@,
                )
            }
        } else {
            answered(b, info, config)
        },
    )
}

/// The status of the last response, for messages.
pub open spec fn last_status(t: TaskView) -> nat {
    match t.last_status_code {
        Some(n) => n as nat,
        None => 0,
    }
}

/// The scripts have answered the question for credentials. `sent` are the
/// headers of the request with the credentials in it.
#[verifier::opaque]
pub open spec fn on_credentials(
    a: AttemptView,
    username: Option<Seq<char>>,
    password: Option<Seq<char>>,
    sent: Result<Map<Seq<char>, Seq<char>>, HeaderError>,
    now: Moment,
) -> Outcome {
    if username is Some && password is Some {
        let t = task_logged(
            TaskView {
                headers: a.task.headers.insert(
                    "Authorization"@,
                    "Basic "@ + base64_text(username->0 + ":"@ + password->0),
                ),
                ..a.task
            },
            now,
            LogLevel::Info,
            "Authentication credentials provided by script"@,
        );
        let b = AttemptView { task: t, ..a };
        match sent {
            Ok(headers) => plainly(
                AttemptView { stage: Stage::Reprobing, ..b },
                ActionView::Probe { url: t.url, headers },
            ),
            Err(e) => given_up(b, header_error_text(e)),
        }
    } else {
        given_up(
            AttemptView {
                task: task_logged(
                    a.task,
                    now,
                    LogLevel::Warn,
                    "authRequired hook executed but no credentials provided"@,
                ),
                ..a
            },
            "Authentication required (HTTP "@ + decimal(last_status(a.task))
                + ") but no credentials provided"@,
        )
    }
}

/// The server has answered the request with credentials.
#[verifier::opaque]
pub open spec fn on_reprobed(a: AttemptView, info: InfoView, config: Config, now: Moment) -> Outcome {
    if info.auth_required {
        given_up(
            AttemptView {
                task: task_logged(
                    a.task,
                    now,
                    LogLevel::Error,
                    "Authentication failed (credentials rejected)"@,
                ),
                ..a
            },
            "Authentication failed: Invalid credentials"@,
        )
    } else {
        let t = task_logged(
            task_informed(a.task, info),
            now,
            LogLevel::Info,
            "Authentication successful"@,
        );
        saving(t, answered(AttemptView { task: t, ..a }, info, config))
    }
}

/// The scripts have looked at the response, or have failed to.
#[verifier::opaque]
pub open spec fn on_inspected(a: AttemptView, ok: bool, config: Config, now: Moment) -> Outcome {
    locating(
        if ok {
            AttemptView {
                task: task_logged(a.task, now, LogLevel::Info, "headersReceived hook executed"@),
                ..a
            }
        } else {
            a
        },
        config,
    )
}

/// Where an interrupted download goes on: at the end of what is there, if the
/// server can resume.
pub open spec fn resume_point(a: AttemptView, exists: bool, size: u64) -> Option<u64> {
    if a.is_resuming && exists && a.task.resume_supported {
        Some(size)
    } else {
        None
    }
}

/// A task whose place was looked at: it goes on where it was interrupted, or
/// starts afresh under a name that is not taken.
pub open spec fn task_located(
    a: AttemptView,
    exists: bool,
    size: u64,
    unique: Seq<char>,
    now: Moment,
) -> TaskView {
    match resume_point(a, exists, size) {
        Some(offset) => task_logged(
            TaskView { downloaded: offset, ..a.task },
            now,
            LogLevel::Info,
            "Resuming download from "@ + decimal(offset as nat) + " bytes"@,
        ),
        None => task_logged(
            task_renamed_apart(a.task, unique, now),
            now,
            LogLevel::Info,
            "Starting fresh download"@,
        ),
    }
}

/// A task under a name that is not taken.
pub open spec fn task_renamed_apart(t: TaskView, unique: Seq<char>, now: Moment) -> TaskView {
    if unique != t.filename {
        TaskView {
            filename: unique,
            ..task_logged(
                t,
                now,
                LogLevel::Info,
                "Filename conflict resolved: "@ + t.filename + " -> "@ + unique,
            )
        }
    } else {
        t
    }
}

/// The task that is stored once its place was looked at, if any.
pub open spec fn located_save(
    a: AttemptView,
    exists: bool,
    size: u64,
    unique: Seq<char>,
    now: Moment,
) -> Option<TaskView> {
    if resume_point(a, exists, size) is Some {
        Some(task_located(a, exists, size, unique, now))
    } else if unique != a.task.filename {
        Some(task_renamed_apart(a.task, unique, now))
    } else {
        None
    }
}

/// The place of the file was looked at. `sent` are the headers of the request.
#[verifier::opaque]
pub open spec fn on_located(
    a: AttemptView,
    exists: bool,
    size: u64,
    unique: Seq<char>,
    sent: Result<Map<Seq<char>, Seq<char>>, HeaderError>,
    now: Moment,
) -> Outcome {
    let t = task_located(a, exists, size, unique, now);
    let b = AttemptView { task: t, ..a };
    let o = match sent {
        Ok(headers) => plainly(
            AttemptView { stage: Stage::Transferring, ..b },
            ActionView::Transfer {
                url: t.url,
                directory: a.directory,
                filename: t.filename,
                headers,
                resume_from: resume_point(a, exists, size),
            },
        ),
        Err(e) => given_up(b, header_error_text(e)),
    };
    Outcome {
        step: AttemptStepView { save: located_save(a, exists, size, unique, now), ..o.step },
        ..o
    }
}

/// A task that is complete.
pub open spec fn task_completed(t: TaskView, now: Moment) -> TaskView {
    task_logged(
        TaskView {
            status: DownloadStatus::Completed,
            completed_at: Some(now),
            downloaded: match t.size {
                Some(n) => n,
                None => 0,
            },
            ..t
        },
        now,
        LogLevel::Info,
        "Download completed successfully: "@ + t.filename,
    )
}

/// The attempt has succeeded.
pub open spec fn finishing(a: AttemptView, now: Moment) -> Outcome {
    plainly(
        AttemptView { task: task_completed(a.task, now), stage: Stage::Over, ..a },
        ActionView::Finish,
    )
}

/// The modification time that the server names.
pub open spec fn mtime_of(last_modified: Option<Seq<char>>) -> Option<i64> {
    match last_modified {
        Some(s) => rfc2822_seconds(s),
        None => None,
    }
}

/// The file is here.
#[verifier::opaque]
pub open spec fn on_transferred(a: AttemptView, info: InfoView, now: Moment) -> Outcome {
    let o = if a.scripts {
        plainly(
            AttemptView { stage: Stage::Completing, ..a },
            ActionView::Complete(
                CompletedView {
                    url: a.task.url,
                    filename: a.task.filename,
                    save_path: a.task.save_path,
                    new_filename: None,
                    move_to_path: None,
                    size: match a.task.size {
                        Some(n) => n,
                        None => 0,
                    },
                    duration: match a.task.started_at {
                        Some(start) => Some(millis_between(start, now) as i64),
                        None => None,
                    },
                },
            ),
        )
    } else {
        finishing(a, now)
    };
    Outcome { step: AttemptStepView { mtime: mtime_of(info.last_modified), ..o.step }, ..o }
}

/// The attempt is done with the scripts that looked at the file.
pub open spec fn hook_done(a: AttemptView, now: Moment) -> Outcome {
    finishing(
        AttemptView {
            task: task_logged(a.task, now, LogLevel::Info, "completed hook executed"@),
            ..a
        },
        now,
    )
}

/// The file is moved, if a script wants that.
pub open spec fn moving_on(a: AttemptView, now: Moment) -> Outcome {
    match a.move_to {
        Some(to) => plainly(
            AttemptView { stage: Stage::Moving, ..a },
            ActionView::Move { filename: a.task.filename, target: to },
        ),
        None => hook_done(a, now),
    }
}

/// The scripts have looked at the complete file.
#[verifier::opaque]
pub open spec fn on_completed(
    a: AttemptView,
    new_filename: Option<Seq<char>>,
    move_to: Option<PathView>,
    now: Moment,
) -> Outcome {
    let b = AttemptView { move_to, ..a };
    match new_filename {
        Some(name) => plainly(
            AttemptView { stage: Stage::Naming, wanted: name, ..b },
            ActionView::CheckName(name),
        ),
        None => moving_on(b, now),
    }
}

/// Whether the wanted name is taken is known; `unique` is the name to use.
#[verifier::opaque]
pub open spec fn on_name_checked(a: AttemptView, unique: Seq<char>) -> Outcome {
    plainly(
        AttemptView { stage: Stage::Renaming, wanted: unique, ..a },
        ActionView::Rename { from: a.task.filename, to: unique },
    )
}

/// The file was renamed, or could not be.
#[verifier::opaque]
pub open spec fn on_renamed(a: AttemptView, ok: bool, now: Moment) -> Outcome {
    moving_on(
        if ok {
            AttemptView {
                task: task_logged(
                    TaskView { filename: a.wanted, ..a.task },
                    now,
                    LogLevel::Info,
                    "File renamed by script"@,
                ),
                ..a
            }
        } else {
            a
        },
        now,
    )
}

/// The file was moved, or could not be.
#[verifier::opaque]
pub open spec fn on_moved(a: AttemptView, ok: bool, now: Moment) -> Outcome {
    hook_done(
        if ok && a.move_to is Some {
            AttemptView {
                task: task_logged(
                    TaskView { save_path: a.move_to->0, ..a.task },
                    now,
                    LogLevel::Info,
                    "File moved by script"@,
                ),
                ..a
            }
        } else {
            a
        },
        now,
    )
}

/// Whether an event can come at a stage.
pub open spec fn fits(stage: Stage, e: EventView) -> bool {
    match stage {
        Stage::Probing | Stage::Reprobing => e is Probed || e is Failed,
        Stage::Asking => e is Credentials || e is HookFailed || e is HookLost,
        Stage::Inspecting => e is Inspected || e is HookFailed || e is HookLost,
        Stage::Locating => e is Located || e is Failed,
        Stage::Transferring => e is Transferred || e is Failed,
        Stage::Completing => e is Completed || e is HookFailed || e is HookLost,
        Stage::Naming => e is NameChecked,
        Stage::Renaming => e is Renamed,
        Stage::Moving => e is Moved,
        Stage::Over => false,
    }
}

/// What an event leads to. `unique` is the name to use where one may be taken,
/// and `sent` are the headers of a request where one is made.
pub open spec fn advanced(
    a: AttemptView,
    e: EventView,
    config: Config,
    unique: Seq<char>,
    sent: Result<Map<Seq<char>, Seq<char>>, HeaderError>,
    now: Moment,
) -> Outcome {
    match e {
        EventView::Probed(info) => if a.stage == Stage::Reprobing {
            on_reprobed(a, info, config, now)
        } else {
            on_probed(a, info, config, now)
        },
        EventView::Credentials { username, password } => on_credentials(
            a,
            username,
            password,
            sent,
            now,
        ),
        EventView::Inspected => on_inspected(a, true, config, now),
        EventView::Located { exists, size } => on_located(a, exists, size, unique, sent, now),
        EventView::Transferred(info) => on_transferred(a, info, now),
        EventView::Completed { new_filename, move_to } => on_completed(
            a,
            new_filename,
            move_to,
            now,
        ),
        EventView::NameChecked { taken } => on_name_checked(a, unique),
        EventView::Renamed { ok } => on_renamed(a, ok, now),
        EventView::Moved { ok } => on_moved(a, ok, now),
        EventView::HookFailed(m) => if a.stage == Stage::Asking {
            given_up(a, "authRequired hook failed: "@ + m)
        } else if a.stage == Stage::Inspecting {
            on_inspected(a, false, config, now)
        } else {
            finishing(a, now)
        },
        EventView::HookLost(m) => if a.stage == Stage::Asking {
            given_up(a, "authRequired error: "@ + m)
        } else if a.stage == Stage::Inspecting {
            on_inspected(a, false, config, now)
        } else {
            finishing(a, now)
        },
        EventView::Failed(m) => given_up(a, m),
    }
}

/// The name that may be taken, and whether it is.
pub open spec fn name_question(a: AttemptView, e: EventView) -> (Seq<char>, bool) {
    match e {
        EventView::Located { exists, size } => (a.task.filename, exists),
        EventView::NameChecked { taken } => (a.wanted, taken),
        _ => (a.task.filename, false),
    }
}

/// Whether `unique` is the name to use in the place of `name`: itself if it is
/// free, else itself with the moment in it.
pub open spec fn is_unique_name(
    name: Seq<char>,
    taken: bool,
    unique: Seq<char>,
    now: Moment,
) -> bool {
    &&& !taken ==> unique == name
    &&& taken && is_plain(name) ==> unique == stamped(name, name_parts(name), unix_millis(now))
    &&& taken ==> exists|parts: Option<(Seq<char>, Seq<char>)>|
        unique == #[trigger] stamped(name, parts, unix_millis(now)) && (same_extension(name)
            ==> parts_fit(name, parts))
}

/// Whether `sent` are the headers of a request for a task: user agent, referrer
/// and the task's own, put together in some order of the latter.
pub open spec fn is_request_of(
    t: TaskView,
    referer: Option<Seq<char>>,
    sent: Result<Map<Seq<char>, Seq<char>>, HeaderError>,
) -> bool {
    exists|m: TextMap<String>|
        text_values(m@) == t.headers && keys_distinct(m.pairs()) && sent == #[trigger] request_headers(
            t.user_agent,
            referer,
            m.pairs(),
        )
}

/// Whether an event at the moment `now` takes an attempt from `a` to `next` with
/// the given step: as `advanced` says, with a name that is not taken and with
/// the headers of a request for the task.
#[verifier::opaque]
pub open spec fn is_step(
    a: AttemptView,
    e: EventView,
    config: Config,
    now: Moment,
    next: AttemptView,
    step: AttemptStepView,
) -> bool {
    exists|unique: Seq<char>, sent: Result<Map<Seq<char>, Seq<char>>, HeaderError>|
        is_unique_name(name_question(a, e).0, name_question(a, e).1, unique, now) && is_request_of(
            next.task,
            a.referer,
            sent,
        ) && next == (#[trigger] advanced(a, e, config, unique, sent, now)).next && step
            == advanced(a, e, config, unique, sent, now).step
}

// ---------------------------------------------------------------------------
// Laws
// ---------------------------------------------------------------------------

/// How far an attempt is from its end.
pub open spec fn rank(stage: Stage) -> int {
    match stage {
        Stage::Probing => 10,
        Stage::Asking => 9,
        Stage::Reprobing => 8,
        Stage::Inspecting => 7,
        Stage::Locating => 6,
        Stage::Transferring => 5,
        Stage::Completing => 4,
        Stage::Naming => 3,
        Stage::Renaming => 2,
        Stage::Moving => 1,
        Stage::Over => 0,
    }
}

/// Whether an outcome is about the same download: id, URL, folder, priority and
/// the times of creation and start are as they were.
pub open spec fn same_download(a: AttemptView, o: Outcome) -> bool {
    &&& o.next.task.id == a.task.id
    &&& o.next.task.url == a.task.url
    &&& o.next.task.folder_id == a.task.folder_id
    &&& o.next.task.created_at == a.task.created_at
    &&& o.next.task.started_at == a.task.started_at
    &&& o.next.task.priority == a.task.priority
}

/// Whether an outcome marks the download complete exactly if it finishes the
/// attempt, and otherwise leaves its status alone.
pub open spec fn completes_at_end(a: AttemptView, o: Outcome) -> bool {
    o.next.task.status == (if o.step.action == ActionView::Finish {
        DownloadStatus::Completed
    } else {
        a.task.status
    })
}

/// What every outcome keeps.
spec fn sound(a: AttemptView, o: Outcome) -> bool {
    &&& same_download(a, o)
    &&& completes_at_end(a, o)
    &&& 0 <= rank(o.next.stage) < rank(a.stage)
    &&& o.step.action == ActionView::Finish ==> rank(a.stage) <= rank(Stage::Transferring)
}

proof fn lemma_sound_probed(a: AttemptView, info: InfoView, config: Config, now: Moment)
    requires
        a.stage == Stage::Probing,
    ensures
        sound(a, on_probed(a, info, config, now)),
{
    reveal(on_probed);
}

proof fn lemma_sound_reprobed(a: AttemptView, info: InfoView, config: Config, now: Moment)
    requires
        a.stage == Stage::Reprobing,
    ensures
        sound(a, on_reprobed(a, info, config, now)),
{
    reveal(on_reprobed);
}

proof fn lemma_sound_credentials(
    a: AttemptView,
    username: Option<Seq<char>>,
    password: Option<Seq<char>>,
    sent: Result<Map<Seq<char>, Seq<char>>, HeaderError>,
    now: Moment,
)
    requires
        a.stage == Stage::Asking,
    ensures
        sound(a, on_credentials(a, username, password, sent, now)),
{
    reveal(on_credentials);
}

proof fn lemma_sound_inspected(a: AttemptView, ok: bool, config: Config, now: Moment)
    requires
        a.stage == Stage::Inspecting,
    ensures
        sound(a, on_inspected(a, ok, config, now)),
{
    reveal(on_inspected);
}

proof fn lemma_sound_located(
    a: AttemptView,
    exists_there: bool,
    size: u64,
    unique: Seq<char>,
    sent: Result<Map<Seq<char>, Seq<char>>, HeaderError>,
    now: Moment,
)
    requires
        a.stage == Stage::Locating,
    ensures
        sound(a, on_located(a, exists_there, size, unique, sent, now)),
{
    reveal(on_located);
}

proof fn lemma_sound_transferred(a: AttemptView, info: InfoView, now: Moment)
    requires
        a.stage == Stage::Transferring,
    ensures
        sound(a, on_transferred(a, info, now)),
{
    reveal(on_transferred);
}

proof fn lemma_sound_completed(
    a: AttemptView,
    new_filename: Option<Seq<char>>,
    move_to: Option<PathView>,
    now: Moment,
)
    requires
        a.stage == Stage::Completing,
    ensures
        sound(a, on_completed(a, new_filename, move_to, now)),
{
    reveal(on_completed);
}

proof fn lemma_sound_end(a: AttemptView, unique: Seq<char>, ok: bool, now: Moment)
    ensures
        a.stage == Stage::Naming ==> sound(a, on_name_checked(a, unique)),
        a.stage == Stage::Renaming ==> sound(a, on_renamed(a, ok, now)),
        a.stage == Stage::Moving ==> sound(a, on_moved(a, ok, now)),
{
    reveal(on_name_checked);
    reveal(on_renamed);
    reveal(on_moved);
}

proof fn lemma_sound(
    a: AttemptView,
    e: EventView,
    config: Config,
    unique: Seq<char>,
    sent: Result<Map<Seq<char>, Seq<char>>, HeaderError>,
    now: Moment,
)
    requires
        fits(a.stage, e),
    ensures
        sound(a, advanced(a, e, config, unique, sent, now)),
{
    match e {
        EventView::Probed(info) => {
            if a.stage == Stage::Reprobing {
                lemma_sound_reprobed(a, info, config, now);
            } else {
                lemma_sound_probed(a, info, config, now);
            }
        },
        EventView::Credentials { username, password } => {
            lemma_sound_credentials(a, username, password, sent, now);
        },
        EventView::Inspected => {
            lemma_sound_inspected(a, true, config, now);
        },
        EventView::Located { exists: exists_there, size } => {
            lemma_sound_located(a, exists_there, size, unique, sent, now);
        },
        EventView::Transferred(info) => {
            lemma_sound_transferred(a, info, now);
        },
        EventView::Completed { new_filename, move_to } => {
            lemma_sound_completed(a, new_filename, move_to, now);
        },
        EventView::NameChecked { taken } => {
            lemma_sound_end(a, unique, taken, now);
        },
        EventView::Renamed { ok } => {
            lemma_sound_end(a, unique, ok, now);
        },
        EventView::Moved { ok } => {
            lemma_sound_end(a, unique, ok, now);
        },
        EventView::HookFailed(m) => {
            if a.stage == Stage::Inspecting {
                lemma_sound_inspected(a, false, config, now);
            }
        },
        EventView::HookLost(m) => {
            if a.stage == Stage::Inspecting {
                lemma_sound_inspected(a, false, config, now);
            }
        },
        EventView::Failed(m) => {},
    }
}

/// An attempt never changes which download it is about.
pub proof fn law_attempt_keeps_identity(
    a: AttemptView,
    e: EventView,
    config: Config,
    unique: Seq<char>,
    sent: Result<Map<Seq<char>, Seq<char>>, HeaderError>,
    now: Moment,
)
    requires
        fits(a.stage, e),
    ensures
        same_download(a, advanced(a, e, config, unique, sent, now)),
{
    lemma_sound(a, e, config, unique, sent, now);
}

/// A download is marked complete by the step that finishes the attempt and by no
/// other; an attempt finishes only once the file is here.
pub proof fn law_completed_only_when_finished(
    a: AttemptView,
    e: EventView,
    config: Config,
    unique: Seq<char>,
    sent: Result<Map<Seq<char>, Seq<char>>, HeaderError>,
    now: Moment,
)
    requires
        fits(a.stage, e),
    ensures
        completes_at_end(a, advanced(a, e, config, unique, sent, now)),
        advanced(a, e, config, unique, sent, now).step.action == ActionView::Finish ==> rank(
            a.stage,
        ) <= rank(Stage::Transferring),
{
    lemma_sound(a, e, config, unique, sent, now);
}

/// Every event brings an attempt nearer to its end.
pub proof fn law_attempt_ends(
    a: AttemptView,
    e: EventView,
    config: Config,
    unique: Seq<char>,
    sent: Result<Map<Seq<char>, Seq<char>>, HeaderError>,
    now: Moment,
)
    requires
        fits(a.stage, e),
    ensures
        0 <= rank(advanced(a, e, config, unique, sent, now).next.stage) < rank(a.stage),
{
    lemma_sound(a, e, config, unique, sent, now);
}

/// An attempt resumes only what was interrupted, is there, and can be resumed;
/// where a file is there otherwise, another name is used.
pub proof fn law_resume_or_new_name(
    a: AttemptView,
    exists: bool,
    size: u64,
    unique: Seq<char>,
    sent: Result<Map<Seq<char>, Seq<char>>, HeaderError>,
    now: Moment,
)
    requires
        sent is Ok,
        is_plain(a.task.filename),
        is_unique_name(a.task.filename, exists, unique, now),
    ensures
        ({
            let o = on_located(a, exists, size, unique, sent, now);
            &&& o.step.action is Transfer
            &&& o.step.action->resume_from is Some <==> a.is_resuming && exists
                && a.task.resume_supported
            &&& o.step.action->resume_from is None && exists ==> o.step.action->Transfer_filename
                != a.task.filename
            &&& !exists ==> o.step.action->Transfer_filename == a.task.filename
        }),
{
    reveal(on_located);
    crate::file::naming::law_stamp_changes_name(a.task.filename, unix_millis(now));
}

/// Once the file is here, an attempt cannot fail any more. It ends with the file
/// complete, by way of the name and the directory that the scripts want, each if
/// they want one; scripts that fail or cannot be reached want neither.
pub proof fn law_transferred_files_end_complete(
    a: AttemptView,
    e: EventView,
    config: Config,
    now: Moment,
    next: AttemptView,
    step: AttemptStepView,
)
    requires
        is_step(a, e, config, now, next, step),
        match a.stage {
            Stage::Transferring => e is Transferred,
            Stage::Completing => e is Completed || e is HookFailed || e is HookLost,
            Stage::Naming => e is NameChecked,
            Stage::Renaming => e is Renamed,
            Stage::Moving => e is Moved,
            _ => false,
        },
    ensures
        !(step.action is GiveUp),
        match e {
            EventView::Transferred(_) => if a.scripts {
                step.action is Complete && next.stage == Stage::Completing
            } else {
                step.action == ActionView::Finish
            },
            EventView::Completed { new_filename: Some(name), move_to } => {
                &&& step.action == ActionView::CheckName(name)
                &&& next.stage == Stage::Naming
                &&& next.wanted == name
                &&& next.move_to == move_to
            },
            EventView::Completed { new_filename: None, move_to: Some(to) } => {
                &&& step.action == ActionView::Move { filename: a.task.filename, target: to }
                &&& next.stage == Stage::Moving
                &&& next.move_to == Some(to)
            },
            EventView::NameChecked { taken } => {
                &&& step.action is Rename
                &&& step.action->from == a.task.filename
                &&& step.action->to == next.wanted
                &&& !taken ==> next.wanted == a.wanted
                &&& taken && is_plain(a.wanted) ==> next.wanted != a.wanted
                &&& next.stage == Stage::Renaming
                &&& next.move_to == a.move_to
            },
            EventView::Renamed { ok } => match a.move_to {
                Some(to) => {
                    &&& step.action == ActionView::Move {
                        filename: if ok {
                            a.wanted
                        } else {
                            a.task.filename
                        },
                        target: to,
                    }
                    &&& next.stage == Stage::Moving
                    &&& next.move_to == Some(to)
                },
                None => step.action == ActionView::Finish,
            },
            _ => step.action == ActionView::Finish,
        },
{
    reveal(is_step);
    reveal(on_transferred);
    reveal(on_completed);
    reveal(on_name_checked);
    reveal(on_renamed);
    reveal(on_moved);
    let (unique, sent) = choose|
        unique: Seq<char>,
        sent: Result<Map<Seq<char>, Seq<char>>, HeaderError>,
    |
        is_unique_name(name_question(a, e).0, name_question(a, e).1, unique, now) && is_request_of(
            next.task,
            a.referer,
            sent,
        ) && next == (#[trigger] advanced(a, e, config, unique, sent, now)).next && step
            == advanced(a, e, config, unique, sent, now).step;
    crate::file::naming::law_stamp_changes_name(a.wanted, unix_millis(now));
}

/// After the transfer a download has the name that the file was renamed to and
/// the directory that it was moved to, and otherwise those that it had; what the
/// server said of it, its headers and its failures stay.
pub proof fn law_names_and_places_follow_the_file(
    a: AttemptView,
    e: EventView,
    config: Config,
    now: Moment,
    next: AttemptView,
    step: AttemptStepView,
)
    requires
        is_step(a, e, config, now, next, step),
        e is Transferred || e is Completed || e is NameChecked || e is Renamed || e is Moved || (
        a.stage == Stage::Completing && (e is HookFailed || e is HookLost)),
    ensures
        next.task.filename == (if e == (EventView::Renamed { ok: true }) {
            a.wanted
        } else {
            a.task.filename
        }),
        next.task.save_path == (if e == (EventView::Moved { ok: true }) && a.move_to is Some {
            a.move_to->0
        } else {
            a.task.save_path
        }),
        next.task.size == a.task.size,
        next.task.headers == a.task.headers,
        next.task.user_agent == a.task.user_agent,
        next.task.resume_supported == a.task.resume_supported,
        next.task.etag == a.task.etag,
        next.task.last_modified == a.task.last_modified,
        next.task.error_message == a.task.error_message,
        next.task.retry_count == a.task.retry_count,
        next.task.last_status_code == a.task.last_status_code,
        !(step.action is Finish) ==> next.task.downloaded == a.task.downloaded
            && next.task.completed_at == a.task.completed_at,
        step.save is None,
{
    reveal(is_step);
    reveal(on_transferred);
    reveal(on_completed);
    reveal(on_name_checked);
    reveal(on_renamed);
    reveal(on_moved);
}

/// A finished download is complete as of that moment, with all its bytes, and
/// its log says so last. The attempt is over with that, as it is where it fails;
/// then the download is not marked complete and keeps what it has.
pub proof fn law_ends_are_marked(
    a: AttemptView,
    e: EventView,
    config: Config,
    now: Moment,
    next: AttemptView,
    step: AttemptStepView,
)
    requires
        fits(a.stage, e),
        is_step(a, e, config, now, next, step),
    ensures
        step.action is Finish ==> {
            &&& next.task.status == DownloadStatus::Completed
            &&& next.task.completed_at == Some(now)
            &&& a.task.size is Some ==> next.task.downloaded == a.task.size->0
            &&& a.task.size is None ==> next.task.downloaded == 0
            &&& next.task.logs.len() > a.task.logs.len()
            &&& next.task.logs.last().timestamp == now
            &&& next.task.logs.last().level == LogLevel::Info
            &&& next.task.logs.last().message == "Download completed successfully: "@
                + next.task.filename
        },
        step.action is GiveUp ==> next.task.status == a.task.status && next.task.completed_at
            == a.task.completed_at,
        step.action is Finish || step.action is GiveUp <==> next.stage == Stage::Over,
        a.task.logs.is_prefix_of(next.task.logs),
        e is Failed ==> step.action == ActionView::GiveUp(e->Failed_0) && next.task == a.task,
        !(e is Transferred) ==> step.mtime is None,
        e is Transferred ==> step.mtime == (match e->Transferred_0.last_modified {
            Some(s) => rfc2822_seconds(s),
            None => None,
        }),
        next.referer == a.referer,
        next.is_resuming == a.is_resuming,
        next.scripts == a.scripts,
        !(step.action is Locate) ==> next.directory == a.directory,
        !(e is Completed) ==> next.move_to == a.move_to,
        !(e is Completed) && !(e is NameChecked) ==> next.wanted == a.wanted,
{
    reveal(is_step);
    reveal(on_probed);
    reveal(on_reprobed);
    reveal(on_credentials);
    reveal(on_inspected);
    reveal(on_located);
    reveal(on_transferred);
    reveal(on_completed);
    reveal(on_name_checked);
    reveal(on_renamed);
    reveal(on_moved);
}

/// An attempt that fails says why: the server wants credentials and there are no
/// scripts to ask, the scripts gave none, failed or could not be reached, or the server
/// refused them.
pub proof fn law_failures_say_why(
    a: AttemptView,
    e: EventView,
    config: Config,
    now: Moment,
    next: AttemptView,
    step: AttemptStepView,
)
    requires
        fits(a.stage, e),
        is_step(a, e, config, now, next, step),
    ensures
        a.stage == Stage::Probing && step.action is GiveUp && e is Probed ==> step.action->GiveUp_0
            == "Authentication required (HTTP "@ + decimal(e->Probed_0.status as nat)
            + ") but scripting is disabled"@,
        a.stage == Stage::Reprobing && step.action is GiveUp && e is Probed
            ==> step.action->GiveUp_0 == "Authentication failed: Invalid credentials"@ && next.task
            == (TaskView { logs: next.task.logs, ..a.task }) && step.save is None,
        a.stage == Stage::Asking && e is HookFailed ==> step.action == ActionView::GiveUp(
            "authRequired hook failed: "@ + e->HookFailed_0,
        ),
        a.stage == Stage::Asking && e is HookLost ==> step.action == ActionView::GiveUp(
            "authRequired error: "@ + e->HookLost_0,
        ),
        e is Credentials && (e->username is None || e->password is None)
            && a.task.last_status_code is Some ==> step.action == ActionView::GiveUp(
            "Authentication required (HTTP "@ + decimal(a.task.last_status_code->0 as nat)
                + ") but no credentials provided"@,
        ),
{
    reveal(is_step);
    reveal(on_probed);
    reveal(on_reprobed);
    reveal(on_credentials);
    reveal(on_inspected);
    reveal(on_located);
    reveal(on_transferred);
    reveal(on_completed);
    reveal(on_name_checked);
    reveal(on_renamed);
    reveal(on_moved);
}

/// What happens to a download is written to its log, as of that moment: what the server
/// says and asks for, what became of the credentials, where the transfer starts, and
/// what scripts did to the file.
pub proof fn law_the_log_says_so(
    a: AttemptView,
    e: EventView,
    config: Config,
    now: Moment,
    next: AttemptView,
    step: AttemptStepView,
)
    requires
        fits(a.stage, e),
        is_step(a, e, config, now, next, step),
    ensures
        forall|i: int|
            a.task.logs.len() <= i < next.task.logs.len() ==> (
            #[trigger] next.task.logs[i]).timestamp == now,
        ({
            let n = a.task.logs.len() as int;
            let first = next.task.logs[n];
            &&& e is Probed && a.stage == Stage::Probing ==> next.task.logs.len() > n && first.level
                == LogLevel::Info && first.message == "Server info: size="@ + (
            match e->Probed_0.size {
                Some(bytes) => decimal(bytes as nat) + " bytes"@,
                None => "unknown"@,
            }) + ", resume="@ + (if e->Probed_0.resume_supported {
                "true"@
            } else {
                "false"@
            })
            &&& e is Probed && a.stage == Stage::Reprobing ==> next.task.logs.len() == n + 1
            &&& e is Probed && a.stage == Stage::Reprobing && e->Probed_0.auth_required
                ==> first.level == LogLevel::Error && first.message
                == "Authentication failed (credentials rejected)"@
            &&& e is Probed && a.stage == Stage::Reprobing && !e->Probed_0.auth_required
                ==> first.level == LogLevel::Info && first.message == "Authentication successful"@
            &&& e is Credentials ==> next.task.logs.len() == n + 1
            &&& e is Credentials && e->username is Some && e->password is Some ==> first.level
                == LogLevel::Info && first.message
                == "Authentication credentials provided by script"@
            &&& e is Credentials && (e->username is None || e->password is None) ==> first.level
                == LogLevel::Warn && first.message
                == "authRequired hook executed but no credentials provided"@
            &&& e is Inspected ==> next.task.logs.len() == n + 1 && first.level == LogLevel::Info
                && first.message == "headersReceived hook executed"@
            &&& e is Located ==> next.task.logs.len() > n && next.task.logs.last().level
                == LogLevel::Info
            &&& e is Located && a.is_resuming && e->exists && a.task.resume_supported
                ==> next.task.logs.last().message == "Resuming download from "@ + decimal(
                e->Located_size as nat,
            ) + " bytes"@
            &&& e is Located && !(a.is_resuming && e->exists && a.task.resume_supported)
                ==> next.task.logs.last().message == "Starting fresh download"@
            &&& e is Renamed && e->Renamed_ok ==> next.task.logs.len() > n && first.level
                == LogLevel::Info && first.message == "File renamed by script"@
            &&& e is Moved && e->Moved_ok && a.move_to is Some ==> next.task.logs.len() > n
                && first.level == LogLevel::Info && first.message == "File moved by script"@
        }),
{
    reveal(is_step);
    reveal(on_probed);
    reveal(on_reprobed);
    reveal(on_credentials);
    reveal(on_inspected);
    reveal(on_located);
    reveal(on_transferred);
    reveal(on_completed);
    reveal(on_name_checked);
    reveal(on_renamed);
    reveal(on_moved);
}

/// What scripts are told of a complete file: its URL, name and place, its size,
/// and how long it took since the start.
pub proof fn law_scripts_are_told_of_the_file(
    a: AttemptView,
    info: InfoView,
    config: Config,
    now: Moment,
    next: AttemptView,
    step: AttemptStepView,
)
    requires
        is_step(a, EventView::Transferred(info), config, now, next, step),
        a.scripts,
    ensures
        step.action is Complete,
        ({
            let told = step.action->Complete_0;
            &&& told.url == a.task.url
            &&& told.filename == a.task.filename
            &&& told.save_path == a.task.save_path
            &&& told.new_filename is None
            &&& told.move_to_path is None
            &&& a.task.size is Some ==> told.size == a.task.size->0
            &&& a.task.size is None ==> told.size == 0
            &&& a.task.started_at is None ==> told.duration is None
            &&& a.task.started_at is Some && valid_instant(now) && valid_instant(
                a.task.started_at->0,
            ) && nanos_between(a.task.started_at->0, now) >= 0 ==> told.duration is Some
                && told.duration->0 * 1_000_000 <= nanos_between(a.task.started_at->0, now) < (
            told.duration->0 + 1) * 1_000_000
        }),
{
    reveal(is_step);
    reveal(on_transferred);
}

/// What the server says of a file is taken over: size, whether it can resume, the
/// validators and the status; and what is taken over is stored.
pub proof fn law_server_is_believed(
    a: AttemptView,
    info: InfoView,
    config: Config,
    now: Moment,
    next: AttemptView,
    step: AttemptStepView,
)
    requires
        is_step(a, EventView::Probed(info), config, now, next, step),
        a.stage == Stage::Probing || (a.stage == Stage::Reprobing && !info.auth_required),
    ensures
        next.task.size == info.size,
        next.task.resume_supported == info.resume_supported,
        next.task.etag == info.etag,
        next.task.last_modified == info.last_modified,
        next.task.last_status_code == Some(info.status),
        next.task.headers == a.task.headers,
        next.task.user_agent == a.task.user_agent,
        next.task.save_path == a.task.save_path,
        next.task.downloaded == a.task.downloaded,
        next.task.error_message == a.task.error_message,
        next.task.retry_count == a.task.retry_count,
        step.save is Some,
        ({
            let saved = step.save->0;
            &&& saved == (TaskView { logs: saved.logs, ..next.task })
            &&& saved.logs.is_prefix_of(next.task.logs)
            &&& saved.id == a.task.id
            &&& saved.status == a.task.status
            &&& saved.filename == next.task.filename
            &&& saved.size == info.size
            &&& saved.resume_supported == info.resume_supported
            &&& saved.etag == info.etag
            &&& saved.last_modified == info.last_modified
            &&& saved.last_status_code == Some(info.status)
        }),
{
    reveal(is_step);
    reveal(on_probed);
    reveal(on_reprobed);
}

/// The name that the server sends is used, made safe; without one, the last
/// segment of another URL that redirects led to, if it has any; else the name
/// stays. A second answer changes no name.
pub proof fn law_server_names_the_file(
    a: AttemptView,
    info: InfoView,
    config: Config,
    now: Moment,
    next: AttemptView,
    step: AttemptStepView,
)
    requires
        is_step(a, EventView::Probed(info), config, now, next, step),
        a.stage == Stage::Probing || a.stage == Stage::Reprobing,
    ensures
        a.stage == Stage::Probing ==> match (info.filename, info.final_url) {
            (Some(name), _) => next.task.filename == sanitized(name),
            (None, Some(url)) => if url != a.task.url && redirect_name(url).len() > 0 {
                next.task.filename == sanitized(redirect_name(url))
            } else {
                next.task.filename == a.task.filename
            },
            (None, None) => next.task.filename == a.task.filename,
        },
        a.stage == Stage::Reprobing ==> next.task.filename == a.task.filename,
{
    reveal(is_step);
    reveal(on_probed);
    reveal(on_reprobed);
}

/// The name in a URL is what stands between its last slash and the question mark
/// behind that, if there is one.
pub proof fn law_name_in_a_url(before: Seq<char>, name: Seq<char>, query: Seq<char>)
    requires
        forall|i: int| 0 <= i < name.len() ==> #[trigger] name[i] != '/' && name[i] != '?',
        forall|i: int| 0 <= i < query.len() ==> #[trigger] query[i] != '/',
    ensures
        redirect_name(before + seq!['/'] + name) == name,
        redirect_name(before + seq!['/'] + name + seq!['?'] + query) == name,
{
    let a = before + seq!['/'] + name;
    assert forall|i: int| a.len() - name.len() <= i < a.len() implies other_than('/')(
        #[trigger] a[i],
    ) by {
        assert(a[i] == name[i - before.len() - 1]);
    }
    assert(a[before.len() as int] == '/');
    lemma_trailing(a, other_than('/'), name.len() as int);
    assert(after_last(a, '/') =~= name);
    lemma_leading(name, other_than('?'), name.len() as int);
    assert(name.take(name.len() as int) =~= name);
    let b = a + seq!['?'] + query;
    let n = name.len() + 1 + query.len();
    assert forall|i: int| b.len() - n <= i < b.len() implies other_than('/')(#[trigger] b[i]) by {
        if i < a.len() {
            assert(b[i] == a[i]);
        } else if i > a.len() {
            assert(b[i] == query[i - a.len() - 1]);
        }
    }
    assert(b[before.len() as int] == '/');
    lemma_trailing(b, other_than('/'), n as int);
    let rest = name + seq!['?'] + query;
    assert(after_last(b, '/') =~= rest);
    assert(rest[name.len() as int] == '?');
    assert forall|i: int| 0 <= i < name.len() implies other_than('?')(#[trigger] rest[i]) by {
        assert(rest[i] == name[i]);
    }
    lemma_leading(rest, other_than('?'), name.len() as int);
    assert(rest.take(name.len() as int) =~= name);
}

/// A server that wants credentials is given those of the scripts, once: without
/// scripts the attempt fails, and so it does if the server wants them again.
/// Otherwise the scripts look at the response, if there are any, and the place of
/// the file is looked for.
pub proof fn law_answers_lead_on(
    a: AttemptView,
    info: InfoView,
    config: Config,
    now: Moment,
    next: AttemptView,
    step: AttemptStepView,
)
    requires
        is_step(a, EventView::Probed(info), config, now, next, step),
        a.stage == Stage::Probing || a.stage == Stage::Reprobing,
    ensures
        info.auth_required && (a.stage == Stage::Reprobing || !a.scripts) ==> step.action is GiveUp,
        info.auth_required && a.stage == Stage::Probing && a.scripts ==> {
            &&& step.action is AskCredentials
            &&& step.action->AskCredentials_0.url == a.task.url
            &&& step.action->AskCredentials_0.realm == info.auth_realm
            &&& step.action->AskCredentials_0.username is None
            &&& step.action->AskCredentials_0.password is None
            &&& next.stage == Stage::Asking
        },
        !info.auth_required && a.scripts ==> {
            &&& step.action is Inspect
            &&& step.action->Inspect_0.url == a.task.url
            &&& step.action->Inspect_0.status == info.status
            &&& step.action->Inspect_0.headers == info.headers
            &&& step.action->Inspect_0.content_length == info.size
            &&& step.action->Inspect_0.etag == info.etag
            &&& step.action->Inspect_0.last_modified == info.last_modified
            &&& step.action->Inspect_0.content_type == info.content_type
            &&& next.stage == Stage::Inspecting
        },
        !info.auth_required && !a.scripts ==> is_looked_for(next, step, config),
{
    reveal(is_step);
    reveal(on_probed);
    reveal(on_reprobed);
}

/// Whether a step looks for the place of the file: in the directory that the
/// settings give the download, under its name.
pub open spec fn is_looked_for(next: AttemptView, step: AttemptStepView, config: Config) -> bool {
    &&& step.action is Locate
    &&& step.action->Locate_directory == resolved(config, next.task.folder_id, next.task).save_path
    &&& step.action->Locate_filename == next.task.filename
    &&& next.directory == step.action->Locate_directory
    &&& next.stage == Stage::Locating
}

/// Whatever came of the scripts that look at the response, the place of the file
/// is looked for, and the download is as it was.
pub proof fn law_inspection_does_not_stop(
    a: AttemptView,
    e: EventView,
    config: Config,
    now: Moment,
    next: AttemptView,
    step: AttemptStepView,
)
    requires
        is_step(a, e, config, now, next, step),
        a.stage == Stage::Inspecting,
        e is Inspected || e is HookFailed || e is HookLost,
    ensures
        is_looked_for(next, step, config),
        step.save is None,
        next.task == (TaskView { logs: next.task.logs, ..a.task }),
        e is Inspected ==> next.task.logs.len() == a.task.logs.len() + 1,
        !(e is Inspected) ==> next.task.logs == a.task.logs,
{
    reveal(is_step);
    reveal(on_inspected);
}

/// A user and a password from the scripts are sent as they are; without both the
/// attempt fails, as it does where the scripts fail or cannot be reached. No
/// other header changes.
pub proof fn law_credentials_are_sent(
    a: AttemptView,
    e: EventView,
    config: Config,
    now: Moment,
    next: AttemptView,
    step: AttemptStepView,
)
    requires
        is_step(a, e, config, now, next, step),
        a.stage == Stage::Asking,
        e is Credentials || e is HookFailed || e is HookLost,
    ensures
        e is Credentials && e->username is Some && e->password is Some ==> {
            &&& next.task.headers.dom() == a.task.headers.dom().insert("Authorization"@)
            &&& next.task.headers["Authorization"@] == "Basic "@ + base64_text(
                e->username->0 + ":"@ + e->password->0,
            )
            &&& forall|k: Seq<char>|
                k != "Authorization"@ && a.task.headers.contains_key(k)
                    ==> #[trigger] next.task.headers[k] == a.task.headers[k]
            &&& step.action is Probe || step.action is GiveUp
            &&& step.action is GiveUp ==> exists|error: HeaderError|
                #![trigger header_error_text(error)]
                is_request_of(next.task, a.referer, Err(error)) && step.action->GiveUp_0
                    == header_error_text(error)
            &&& step.action is Probe ==> step.action->Probe_url == a.task.url && next.stage
                == Stage::Reprobing && is_request_of(
                next.task,
                a.referer,
                Ok(step.action->Probe_headers),
            )
        },
        !(e is Credentials && e->username is Some && e->password is Some) ==> step.action is GiveUp
            && next.task.headers == a.task.headers,
        next.task == (TaskView { headers: next.task.headers, logs: next.task.logs, ..a.task }),
{
    reveal(is_step);
    reveal(on_credentials);
    assert(next.task.headers.dom() =~= if next.task.headers == a.task.headers {
        a.task.headers.dom()
    } else {
        a.task.headers.dom().insert("Authorization"@)
    });
}

/// A file that is looked at is asked for by the URL of the download, for the
/// directory that was found and under the name that the download has then: from
/// the end of what is there where the download was interrupted and the server can
/// resume, and else whole. A name that is free is kept.
pub proof fn law_transfer_is_asked_for(
    a: AttemptView,
    exists_there: bool,
    size: u64,
    config: Config,
    now: Moment,
    next: AttemptView,
    step: AttemptStepView,
)
    requires
        is_step(a, EventView::Located { exists: exists_there, size }, config, now, next, step),
    ensures
        step.action is Transfer || step.action is GiveUp,
        ({
            let resumes = a.is_resuming && exists_there && a.task.resume_supported;
            &&& step.action is Transfer ==> {
                &&& step.action->Transfer_url == a.task.url
                &&& step.action->Transfer_directory == a.directory
                &&& step.action->Transfer_filename == next.task.filename
                &&& step.action->resume_from == (if resumes {
                    Some(size)
                } else {
                    None
                })
                &&& is_request_of(next.task, a.referer, Ok(step.action->Transfer_headers))
                &&& next.stage == Stage::Transferring
            }
            &&& step.action is GiveUp ==> exists|error: HeaderError|
                #![trigger header_error_text(error)]
                is_request_of(next.task, a.referer, Err(error)) && step.action->GiveUp_0
                    == header_error_text(error)
            &&& resumes ==> next.task.filename == a.task.filename && next.task.downloaded == size
            &&& !resumes ==> next.task.downloaded == a.task.downloaded
            &&& !exists_there ==> next.task.filename == a.task.filename
            &&& exists_there && !resumes && is_plain(a.task.filename) ==> next.task.filename
                != a.task.filename
            &&& next.task.filename != a.task.filename || resumes ==> step.save is Some
                && step.save->0.filename == next.task.filename && step.save->0.downloaded
                == next.task.downloaded && step.save->0.id == a.task.id
            &&& next.task == (TaskView {
                filename: next.task.filename,
                downloaded: next.task.downloaded,
                logs: next.task.logs,
                ..a.task
            })
        }),
{
    reveal(is_step);
    reveal(on_located);
    crate::file::naming::law_stamp_changes_name(a.task.filename, unix_millis(now));
}

/// A referrer of the download's own keeps the policy's away; else the policy of
/// its folder decides, and without one that of the application.
pub proof fn law_own_referrer_wins(config: Config, t: TaskView, name: Seq<char>)
    ensures
        t.headers.contains_key(name) && lower_ascii(name) == "referer"@ ==> policy_referrer(
            config,
            t,
        ) is None,
        (forall|k: Seq<char>| #[trigger]
            t.headers.contains_key(k) ==> lower_ascii(k) != "referer"@) ==> policy_referrer(
            config,
            t,
        ) == referrer(
            if config.folders@.contains_key(t.folder_id)
                && config.folders@[t.folder_id].referrer_policy is Some {
                config.folders@[t.folder_id].referrer_policy->0@
            } else {
                config.download.referrer_policy@
            },
            t.url,
            url_parts(t.url),
            origin_of(t.url),
        ),
{
    lemma_lower_referer();
    if names_referer(t.headers) {
        let k = choose|k: Seq<char>| #[trigger]
            t.headers.contains_key(k) && same_ignoring_case(k, "referer"@);
        assert(lower_ascii(k) == "referer"@);
    }
}

/// The name of the referrer is in lower case.
proof fn lemma_lower_referer()
    ensures
        lower_ascii("referer"@) == "referer"@,
{
    reveal_strlit("referer");
    assert(lower_ascii("referer"@) =~= "referer"@);
}

// ---------------------------------------------------------------------------
// Running it
// ---------------------------------------------------------------------------

fn bool_word(b: bool) -> (r: &'static str)
    ensures
        r@ == bool_text(b),
{
    if b {
        "true"
    } else {
        "false"
    }
}

fn status_message(before: &str, status: u16, after: &str) -> (r: String)
    ensures
        r@ == before@ + decimal(status as nat) + after@,
{
    let mut out = before.to_owned();
    let digits = decimal_u64(status as u64);
    out.append(digits.as_str());
    out.append(after);
    out
}

fn arrow_message(before: &str, from: &str, to: &str) -> (r: String)
    ensures
        r@ == before@ + from@ + " -> "@ + to@,
{
    let mut out = before.to_owned();
    out.append(from);
    out.append(" -> ");
    out.append(to);
    out
}

fn plain_step(action: Action) -> (r: Step)
    ensures
        r@ == (AttemptStepView { save: None, mtime: None, action: action@ }),
{
    Step { save: None, mtime: None, action }
}

/// The name in the URL that redirects led to.
pub fn filename_from_redirect(final_url: &str) -> (r: String)
    ensures
        r@ == redirect_name(final_url@),
{
    let last = cut_after_last(final_url, '/');
    cut_before_first(last.as_str(), '?')
}

/// Takes over what the server says of a file.
pub fn apply_probe(task: &mut DownloadTask, info: &DownloadInfo, now: Moment)
    ensures
        final(task)@ == task_probed(old(task)@, info@, now),
{
    task.size = info.size;
    task.resume_supported = info.resume_supported;
    task.etag = clone_opt(&info.etag);
    task.last_modified = clone_opt(&info.last_modified);
    task.last_status_code = Some(info.status);
    assert(task@ =~= task_informed(old(task)@, info@));
    let mut message = "Server info: size=".to_owned();
    match info.size {
        Some(n) => {
            let digits = decimal_u64(n);
            message.append(digits.as_str());
            message.append(" bytes");
            assert(message@ =~= "Server info: size="@ + size_text(info.size));
        },
        None => {
            message.append("unknown");
        },
    }
    message.append(", resume=");
    message.append(bool_word(info.resume_supported));
    task.log_at(now, LogLevel::Info, message);
    let ghost t = task@;
    match &info.filename {
        Some(f) => {
            task.filename = sanitize_filename(f.as_str());
            let mut m = "Filename from server: ".to_owned();
            m.append(task.filename.as_str());
            task.log_at(now, LogLevel::Info, m);
        },
        None => {
            if let Some(u) = &info.final_url {
                if !text_eq(u.as_str(), task.url.as_str()) {
                    let name = filename_from_redirect(u.as_str());
                    if !name.as_str().is_empty() {
                        let safe = sanitize_filename(name.as_str());
                        let m = arrow_message(
                            "Filename from redirect: ",
                            task.filename.as_str(),
                            safe.as_str(),
                        );
                        task.log_at(now, LogLevel::Info, m);
                        task.filename = safe;
                    }
                }
            }
        },
    }
    assert(task@ =~= task_named(t, info@, now));
}

impl Attempt {
    /// Starts an attempt: finds the referrer and puts the headers of the first
    /// request together.
    pub fn begin(task: DownloadTask, config: &Config, scripts: bool, is_resuming: bool) -> (r: (
        Attempt,
        Step,
    ))
        ensures
            ({
                let a = AttemptView {
                    task: task@,
                    referer: policy_referrer(*config, task@),
                    is_resuming,
                    scripts,
                    stage: Stage::Probing,
                    directory: no_path(),
                    wanted: Seq::empty(),
                    move_to: None,
                };
                match request_headers(
                    task@.user_agent,
                    policy_referrer(*config, task@),
                    task.headers.pairs(),
                ) {
                    Ok(headers) => r.0@ == a && r.1@ == plainly(
                        a,
                        ActionView::Probe { url: task@.url, headers },
                    ).step,
                    Err(e) => r.0@ == given_up(a, header_error_text(e)).next && r.1@ == given_up(
                        a,
                        header_error_text(e),
                    ).step,
                }
            }),
    {
        let referer = resolve_referrer(config, &task);
        let built = build_headers(&task.user_agent, &referer, &task.headers);
        let url = task.url.clone();
        let empty: Vec<String> = Vec::new();
        let mut a = Attempt {
            task,
            referer,
            is_resuming,
            scripts,
            stage: Stage::Probing,
            directory: SavePath::new(empty),
            wanted: String::new(),
            move_to: None,
        };
        assert(a@.directory =~= no_path());
        match built {
            Ok(headers) => (a, plain_step(Action::Probe { url, headers })),
            Err(e) => {
                a.stage = Stage::Over;
                (a, plain_step(Action::GiveUp(e.message())))
            },
        }
    }

    fn give_up(&mut self, message: String) -> (r: Step)
        ensures
            final(self)@ == given_up(old(self)@, message@).next,
            r@ == given_up(old(self)@, message@).step,
    {
        self.stage = Stage::Over;
        plain_step(Action::GiveUp(message))
    }

    fn locate(&mut self, config: &Config) -> (r: Step)
        requires
            valid_instant(old(self).task.created_at),
        ensures
            final(self)@ == locating(old(self)@, *config).next,
            r@ == locating(old(self)@, *config).step,
    {
        let settings = ResolvedSettings::resolve(
            config,
            self.task.folder_id.as_str(),
            &self.task,
        );
        self.stage = Stage::Locating;
        self.directory = settings.save_path.clone();
        plain_step(
            Action::Locate {
                directory: settings.save_path,
                filename: self.task.filename.clone(),
            },
        )
    }

    fn answer(&mut self, info: DownloadInfo, config: &Config) -> (r: Step)
        requires
            valid_instant(old(self).task.created_at),
        ensures
            final(self)@ == answered(old(self)@, info@, *config).next,
            r@ == answered(old(self)@, info@, *config).step,
    {
        if self.scripts {
            self.stage = Stage::Inspecting;
            plain_step(
                Action::Inspect(
                    HeadersReceivedContext {
                        url: self.task.url.clone(),
                        status: info.status,
                        headers: info.headers,
                        content_length: info.size,
                        etag: info.etag,
                        last_modified: info.last_modified,
                        content_type: info.content_type,
                    },
                ),
            )
        } else {
            self.locate(config)
        }
    }

    fn handle_probe(&mut self, info: DownloadInfo, config: &Config, now: Moment) -> (r: Step)
        requires
            valid_instant(old(self).task.created_at),
        ensures
            final(self)@ == on_probed(old(self)@, info@, *config, now).next,
            r@ == on_probed(old(self)@, info@, *config, now).step,
    {
        proof {
            reveal(on_probed);
        }
        apply_probe(&mut self.task, &info, now);
        let saved = self.task.clone();
        let mut step = if info.auth_required {
            let mut message = status_message(
                "Authentication required (HTTP ",
                info.status,
                "): realm=",
            );
            match &info.auth_realm {
                Some(realm) => {
                    message.append(realm.as_str());
                },
                None => {
                    message.append("unknown");
                },
            }
            self.task.log_at(now, LogLevel::Info, message);
            if self.scripts {
                self.stage = Stage::Asking;
                plain_step(
                    Action::AskCredentials(
                        AuthRequiredContext {
                            url: self.task.url.clone(),
                            realm: info.auth_realm,
                            username: None,
                            password: None,
                        },
                    ),
                )
            } else {
                self.task.log_at(
                    now,
                    LogLevel::Error,
                    "Authentication required but scripting is disabled".to_owned(),
                );
                let m = status_message(
                    "Authentication required (HTTP ",
                    info.status,
                    ") but scripting is disabled",
                );
                self.give_up(m)
            }
        } else {
            self.answer(info, config)
        };
        step.save = Some(saved);
        step
    }

    fn handle_credentials(
        &mut self,
        username: Option<String>,
        password: Option<String>,
        now: Moment,
    ) -> (r: Step)
        ensures
            exists|sent: Result<Map<Seq<char>, Seq<char>>, HeaderError>|
                is_request_of(final(self).task@, old(self)@.referer, sent) && final(self)@ == (
                #[trigger] on_credentials(
                    old(self)@,
                    opt_text(username),
                    opt_text(password),
                    sent,
                    now,
                )).next && r@ == on_credentials(
                    old(self)@,
                    opt_text(username),
                    opt_text(password),
                    sent,
                    now,
                ).step,
    {
        proof {
            reveal(on_credentials);
        }
        match (username, password) {
            (Some(user), Some(pass)) => {
                let auth = encode_basic_auth(user.as_str(), pass.as_str());
                let ghost before = self.task.headers@;
                self.task.headers.insert("Authorization".to_owned(), auth);
                assert(text_values(self.task.headers@) =~= text_values(before).insert(
                    "Authorization"@,
                    auth@,
                ));
                self.task.log_at(
                    now,
                    LogLevel::Info,
                    "Authentication credentials provided by script".to_owned(),
                );
                let built = build_headers(
                    &self.task.user_agent,
                    &self.referer,
                    &self.task.headers,
                );
                let ghost sent = built_view(built);
                proof {
                    use_type_invariant(&self.task.headers);
                }
                assert(is_request_of(self.task@, self@.referer, sent));
                let step = match built {
                    Ok(headers) => {
                        self.stage = Stage::Reprobing;
                        plain_step(Action::Probe { url: self.task.url.clone(), headers })
                    },
                    Err(e) => self.give_up(e.message()),
                };
                proof {
                    let o = on_credentials(old(self)@, Some(user@), Some(pass@), sent, now);
                    assert(self@ =~= o.next);
                }
                step
            },
            _ => {
                self.task.log_at(
                    now,
                    LogLevel::Warn,
                    "authRequired hook executed but no credentials provided".to_owned(),
                );
                let status: u16 = match self.task.last_status_code {
                    Some(n) => n,
                    None => 0,
                };
                let m = status_message(
                    "Authentication required (HTTP ",
                    status,
                    ") but no credentials provided",
                );
                let step = self.give_up(m);
                proof {
                    use_type_invariant(&self.task.headers);
                    let hs = self.task.headers;
                    let sent = request_headers(
                        self.task@.user_agent,
                        old(self)@.referer,
                        hs.pairs(),
                    );
                    assert(is_request_of(self.task@, old(self)@.referer, sent));
                    let o = on_credentials(
                        old(self)@,
                        opt_text(username),
                        opt_text(password),
                        sent,
                        now,
                    );
                    assert(self@ =~= o.next);
                }
                step
            },
        }
    }

    fn handle_reprobe(&mut self, info: DownloadInfo, config: &Config, now: Moment) -> (r: Step)
        requires
            valid_instant(old(self).task.created_at),
        ensures
            final(self)@ == on_reprobed(old(self)@, info@, *config, now).next,
            r@ == on_reprobed(old(self)@, info@, *config, now).step,
    {
        proof {
            reveal(on_reprobed);
        }
        if info.auth_required {
            self.task.log_at(
                now,
                LogLevel::Error,
                "Authentication failed (credentials rejected)".to_owned(),
            );
            self.give_up("Authentication failed: Invalid credentials".to_owned())
        } else {
            self.task.size = info.size;
            self.task.resume_supported = info.resume_supported;
            self.task.etag = clone_opt(&info.etag);
            self.task.last_modified = clone_opt(&info.last_modified);
            self.task.last_status_code = Some(info.status);
            assert(self.task@ =~= task_informed(old(self)@.task, info@));
            self.task.log_at(now, LogLevel::Info, "Authentication successful".to_owned());
            let saved = self.task.clone();
            let mut step = self.answer(info, config);
            step.save = Some(saved);
            step
        }
    }

    fn handle_inspection(&mut self, ok: bool, config: &Config, now: Moment) -> (r: Step)
        requires
            valid_instant(old(self).task.created_at),
        ensures
            final(self)@ == on_inspected(old(self)@, ok, *config, now).next,
            r@ == on_inspected(old(self)@, ok, *config, now).step,
    {
        proof {
            reveal(on_inspected);
        }
        if ok {
            self.task.log_at(now, LogLevel::Info, "headersReceived hook executed".to_owned());
        }
        self.locate(config)
    }

    fn handle_location(&mut self, exists_there: bool, size: u64, now: Moment) -> (r: Step)
        requires
            valid_instant(now),
        ensures
            exists|unique: Seq<char>, sent: Result<Map<Seq<char>, Seq<char>>, HeaderError>|
                is_unique_name(old(self)@.task.filename, exists_there, unique, now)
                    && is_request_of(final(self).task@, old(self)@.referer, sent) && final(self)@
                    == (#[trigger] on_located(
                    old(self)@,
                    exists_there,
                    size,
                    unique,
                    sent,
                    now,
                )).next && r@ == on_located(
                    old(self)@,
                    exists_there,
                    size,
                    unique,
                    sent,
                    now,
                ).step,
    {
        proof {
            reveal(on_located);
        }
        let unique = unique_filename_at(
            exists_there,
            self.task.filename.as_str(),
            to_unix_millis(now),
        );
        let ghost uv = unique@;
        assert(is_unique_name(old(self)@.task.filename, exists_there, uv, now));
        let mut save: Option<DownloadTask> = None;
        let mut resume_from: Option<u64> = None;
        if self.is_resuming && exists_there && self.task.resume_supported {
            resume_from = Some(size);
            self.task.downloaded = size;
            let mut m = "Resuming download from ".to_owned();
            let digits = decimal_u64(size);
            m.append(digits.as_str());
            m.append(" bytes");
            self.task.log_at(now, LogLevel::Info, m);
            save = Some(self.task.clone());
        } else {
            if !text_eq(unique.as_str(), self.task.filename.as_str()) {
                let m = arrow_message(
                    "Filename conflict resolved: ",
                    self.task.filename.as_str(),
                    unique.as_str(),
                );
                self.task.log_at(now, LogLevel::Info, m);
                self.task.filename = unique;
                save = Some(self.task.clone());
            }
            assert(self.task@ =~= task_renamed_apart(old(self)@.task, uv, now));
            self.task.log_at(now, LogLevel::Info, "Starting fresh download".to_owned());
        }
        assert(self.task@ =~= task_located(old(self)@, exists_there, size, uv, now));
        let built = build_headers(&self.task.user_agent, &self.referer, &self.task.headers);
        let ghost sent = built_view(built);
        proof {
            use_type_invariant(&self.task.headers);
        }
        assert(is_request_of(self.task@, self@.referer, sent));
        let mut step = match built {
            Ok(headers) => {
                self.stage = Stage::Transferring;
                plain_step(
                    Action::Transfer {
                        url: self.task.url.clone(),
                        directory: self.directory.clone(),
                        filename: self.task.filename.clone(),
                        headers,
                        resume_from,
                    },
                )
            },
            Err(e) => self.give_up(e.message()),
        };
        step.save = save;
        proof {
            let o = on_located(old(self)@, exists_there, size, uv, sent, now);
            assert(self@ =~= o.next);
            assert(step@ == o.step);
        }
        step
    }

    fn finish(&mut self, now: Moment) -> (r: Step)
        ensures
            final(self)@ == finishing(old(self)@, now).next,
            r@ == finishing(old(self)@, now).step,
    {
        self.task.status = DownloadStatus::Completed;
        self.task.completed_at = Some(now);
        self.task.downloaded = match self.task.size {
            Some(n) => n,
            None => 0,
        };
        let mut m = "Download completed successfully: ".to_owned();
        m.append(self.task.filename.as_str());
        self.task.log_at(now, LogLevel::Info, m);
        self.stage = Stage::Over;
        plain_step(Action::Finish)
    }

    fn handle_transfer(&mut self, info: DownloadInfo, now: Moment) -> (r: Step)
        requires
            valid_instant(now),
            old(self).task.started_at is Some ==> valid_instant(old(self).task.started_at->0),
        ensures
            final(self)@ == on_transferred(old(self)@, info@, now).next,
            r@ == on_transferred(old(self)@, info@, now).step,
    {
        proof {
            reveal(on_transferred);
        }
        let mtime = match &info.last_modified {
            Some(s) => modification_time(Some(s.as_str())),
            None => None,
        };
        let mut step = if self.scripts {
            self.stage = Stage::Completing;
            let duration: Option<i64> = match self.task.started_at {
                Some(start) => Some(elapsed_millis(start, now)),
                None => None,
            };
            let size: u64 = match self.task.size {
                Some(n) => n,
                None => 0,
            };
            plain_step(
                Action::Complete(
                    CompletedContext {
                        url: self.task.url.clone(),
                        filename: self.task.filename.clone(),
                        save_path: self.task.save_path.clone(),
                        new_filename: None,
                        move_to_path: None,
                        size,
                        duration,
                    },
                ),
            )
        } else {
            self.finish(now)
        };
        step.mtime = mtime;
        step
    }

    fn end_hook(&mut self, now: Moment) -> (r: Step)
        ensures
            final(self)@ == hook_done(old(self)@, now).next,
            r@ == hook_done(old(self)@, now).step,
    {
        self.task.log_at(now, LogLevel::Info, "completed hook executed".to_owned());
        self.finish(now)
    }

    fn move_on(&mut self, now: Moment) -> (r: Step)
        ensures
            final(self)@ == moving_on(old(self)@, now).next,
            r@ == moving_on(old(self)@, now).step,
    {
        let to: Option<SavePath> = match &self.move_to {
            Some(p) => Some(p.clone()),
            None => None,
        };
        match to {
            Some(to) => {
                self.stage = Stage::Moving;
                plain_step(Action::Move { filename: self.task.filename.clone(), target: to })
            },
            None => self.end_hook(now),
        }
    }

    fn handle_completion(
        &mut self,
        new_filename: Option<String>,
        move_to: Option<SavePath>,
        now: Moment,
    ) -> (r: Step)
        ensures
            final(self)@ == on_completed(
                old(self)@,
                opt_text(new_filename),
                opt_path(move_to),
                now,
            ).next,
            r@ == on_completed(old(self)@, opt_text(new_filename), opt_path(move_to), now).step,
    {
        proof {
            reveal(on_completed);
        }
        self.move_to = move_to;
        match new_filename {
            Some(name) => {
                self.stage = Stage::Naming;
                self.wanted = name.clone();
                plain_step(Action::CheckName(name))
            },
            None => self.move_on(now),
        }
    }

    fn handle_name(&mut self, taken: bool, now: Moment) -> (r: Step)
        requires
            valid_instant(now),
        ensures
            exists|unique: Seq<char>|
                is_unique_name(old(self)@.wanted, taken, unique, now) && final(self)@ == (
                #[trigger] on_name_checked(old(self)@, unique)).next && r@ == on_name_checked(
                    old(self)@,
                    unique,
                ).step,
    {
        proof {
            reveal(on_name_checked);
        }
        let unique = unique_filename_at(taken, self.wanted.as_str(), to_unix_millis(now));
        assert(is_unique_name(old(self)@.wanted, taken, unique@, now));
        self.stage = Stage::Renaming;
        self.wanted = unique.clone();
        let step = plain_step(Action::Rename { from: self.task.filename.clone(), to: unique });
        assert(self@ =~= on_name_checked(old(self)@, unique@).next);
        step
    }

    fn handle_rename(&mut self, ok: bool, now: Moment) -> (r: Step)
        ensures
            final(self)@ == on_renamed(old(self)@, ok, now).next,
            r@ == on_renamed(old(self)@, ok, now).step,
    {
        proof {
            reveal(on_renamed);
        }
        if ok {
            self.task.filename = self.wanted.clone();
            self.task.log_at(now, LogLevel::Info, "File renamed by script".to_owned());
        }
        self.move_on(now)
    }

    fn handle_move(&mut self, ok: bool, now: Moment) -> (r: Step)
        ensures
            final(self)@ == on_moved(old(self)@, ok, now).next,
            r@ == on_moved(old(self)@, ok, now).step,
    {
        proof {
            reveal(on_moved);
        }
        if ok {
            let to: Option<SavePath> = match &self.move_to {
                Some(p) => Some(p.clone()),
                None => None,
            };
            if let Some(p) = to {
                self.task.save_path = p;
                self.task.log_at(now, LogLevel::Info, "File moved by script".to_owned());
            }
        }
        self.end_hook(now)
    }

    fn step_probe(&mut self, info: DownloadInfo, config: &Config, now: Moment) -> (r: Step)
        requires
            valid_instant(old(self).task.created_at),
        ensures
            is_step(
                old(self)@,
                EventView::Probed(info@),
                *config,
                now,
                final(self)@,
                r@,
            ),
    {
        let ghost a = self@;
        let ghost iv = info@;
        let step = if self.stage == Stage::Reprobing {
            self.handle_reprobe(info, config, now)
        } else {
            self.handle_probe(info, config, now)
        };
        proof {
            use_type_invariant(&self.task.headers);
            self.lemma_step(a, EventView::Probed(iv), *config, a.task.filename, now, step@);
        }
        step
    }

    fn step_credentials(
        &mut self,
        username: Option<String>,
        password: Option<String>,
        config: &Config,
        now: Moment,
    ) -> (r: Step)
        ensures
            is_step(
                old(self)@,
                EventView::Credentials {
                    username: opt_text(username),
                    password: opt_text(password),
                },
                *config,
                now,
                final(self)@,
                r@,
            ),
    {
        let ghost a = self@;
        let ghost u = opt_text(username);
        let ghost p = opt_text(password);
        let step = self.handle_credentials(username, password, now);
        proof {
            let sent = choose|sent: Result<Map<Seq<char>, Seq<char>>, HeaderError>|
                is_request_of(self.task@, a.referer, sent) && self@ == (#[trigger] on_credentials(
                    a,
                    u,
                    p,
                    sent,
                    now,
                )).next && step@ == on_credentials(a, u, p, sent, now).step;
            lemma_is_step(
                a,
                EventView::Credentials { username: u, password: p },
                *config,
                a.task.filename,
                sent,
                now,
                self@,
                step@,
            );
        }
        step
    }

    fn step_inspection(&mut self, config: &Config, now: Moment) -> (r: Step)
        requires
            valid_instant(old(self).task.created_at),
        ensures
            is_step(old(self)@, EventView::Inspected, *config, now, final(self)@, r@),
    {
        let ghost a = self@;
        let step = self.handle_inspection(true, config, now);
        proof {
            use_type_invariant(&self.task.headers);
            self.lemma_step(a, EventView::Inspected, *config, a.task.filename, now, step@);
        }
        step
    }

    fn step_location(&mut self, exists_there: bool, size: u64, config: &Config, now: Moment) -> (r: Step)
        requires
            valid_instant(now),
        ensures
            is_step(
                old(self)@,
                EventView::Located { exists: exists_there, size },
                *config,
                now,
                final(self)@,
                r@,
            ),
    {
        let ghost a = self@;
        let step = self.handle_location(exists_there, size, now);
        proof {
            let (unique, sent) = choose|
                unique: Seq<char>,
                sent: Result<Map<Seq<char>, Seq<char>>, HeaderError>,
            |
                is_unique_name(a.task.filename, exists_there, unique, now) && is_request_of(
                    self.task@,
                    a.referer,
                    sent,
                ) && self@ == (#[trigger] on_located(a, exists_there, size, unique, sent, now)).next
                    && step@ == on_located(a, exists_there, size, unique, sent, now).step;
            lemma_is_step(
                a,
                EventView::Located { exists: exists_there, size },
                *config,
                unique,
                sent,
                now,
                self@,
                step@,
            );
        }
        step
    }

    fn step_transfer(&mut self, info: DownloadInfo, config: &Config, now: Moment) -> (r: Step)
        requires
            valid_instant(now),
            old(self).task.started_at is Some ==> valid_instant(old(self).task.started_at->0),
        ensures
            is_step(
                old(self)@,
                EventView::Transferred(info@),
                *config,
                now,
                final(self)@,
                r@,
            ),
    {
        let ghost a = self@;
        let ghost iv = info@;
        let step = self.handle_transfer(info, now);
        proof {
            use_type_invariant(&self.task.headers);
            self.lemma_step(a, EventView::Transferred(iv), *config, a.task.filename, now, step@);
        }
        step
    }

    fn step_completion(
        &mut self,
        new_filename: Option<String>,
        move_to: Option<SavePath>,
        config: &Config,
        now: Moment,
    ) -> (r: Step)
        ensures
            is_step(
                old(self)@,
                EventView::Completed {
                    new_filename: opt_text(new_filename),
                    move_to: opt_path(move_to),
                },
                *config,
                now,
                final(self)@,
                r@,
            ),
    {
        let ghost a = self@;
        let ghost e = EventView::Completed {
            new_filename: opt_text(new_filename),
            move_to: opt_path(move_to),
        };
        let step = self.handle_completion(new_filename, move_to, now);
        proof {
            use_type_invariant(&self.task.headers);
            self.lemma_step(a, e, *config, a.task.filename, now, step@);
        }
        step
    }

    fn step_name(&mut self, taken: bool, config: &Config, now: Moment) -> (r: Step)
        requires
            valid_instant(now),
        ensures
            is_step(
                old(self)@,
                EventView::NameChecked { taken },
                *config,
                now,
                final(self)@,
                r@,
            ),
    {
        let ghost a = self@;
        let step = self.handle_name(taken, now);
        proof {
            let unique = choose|unique: Seq<char>|
                is_unique_name(a.wanted, taken, unique, now) && self@ == (
                #[trigger] on_name_checked(a, unique)).next && step@ == on_name_checked(
                    a,
                    unique,
                ).step;
            use_type_invariant(&self.task.headers);
            self.lemma_step(a, EventView::NameChecked { taken }, *config, unique, now, step@);
        }
        step
    }

    fn step_rename(&mut self, ok: bool, config: &Config, now: Moment) -> (r: Step)
        ensures
            is_step(old(self)@, EventView::Renamed { ok }, *config, now, final(self)@, r@),
    {
        let ghost a = self@;
        let step = self.handle_rename(ok, now);
        proof {
            use_type_invariant(&self.task.headers);
            self.lemma_step(a, EventView::Renamed { ok }, *config, a.task.filename, now, step@);
        }
        step
    }

    fn step_move(&mut self, ok: bool, config: &Config, now: Moment) -> (r: Step)
        ensures
            is_step(old(self)@, EventView::Moved { ok }, *config, now, final(self)@, r@),
    {
        let ghost a = self@;
        let step = self.handle_move(ok, now);
        proof {
            use_type_invariant(&self.task.headers);
            self.lemma_step(a, EventView::Moved { ok }, *config, a.task.filename, now, step@);
        }
        step
    }

    fn step_hook_failure(&mut self, lost: bool, m: String, config: &Config, now: Moment) -> (r: Step)
        requires
            valid_instant(old(self).task.created_at),
        ensures
            is_step(
                old(self)@,
                if lost {
                    EventView::HookLost(m@)
                } else {
                    EventView::HookFailed(m@)
                },
                *config,
                now,
                final(self)@,
                r@,
            ),
    {
        let ghost a = self@;
        let ghost e = if lost {
            EventView::HookLost(m@)
        } else {
            EventView::HookFailed(m@)
        };
        let step = if self.stage == Stage::Asking {
            let mut message = if lost {
                "authRequired error: ".to_owned()
            } else {
                "authRequired hook failed: ".to_owned()
            };
            message.append(m.as_str());
            self.give_up(message)
        } else if self.stage == Stage::Inspecting {
            self.handle_inspection(false, config, now)
        } else {
            self.finish(now)
        };
        proof {
            use_type_invariant(&self.task.headers);
            self.lemma_step(a, e, *config, a.task.filename, now, step@);
        }
        step
    }

    fn step_failure(&mut self, m: String, config: &Config, now: Moment) -> (r: Step)
        ensures
            is_step(old(self)@, EventView::Failed(m@), *config, now, final(self)@, r@),
    {
        let ghost a = self@;
        let ghost mv = m@;
        let step = self.give_up(m);
        proof {
            use_type_invariant(&self.task.headers);
            self.lemma_step(a, EventView::Failed(mv), *config, a.task.filename, now, step@);
        }
        step
    }

    /// Where no request is made, any headers will do.
    proof fn lemma_step(
        self,
        a: AttemptView,
        e: EventView,
        config: Config,
        unique: Seq<char>,
        now: Moment,
        step: AttemptStepView,
    )
        requires
            !(e is Credentials) && !(e is Located),
            self.task.headers.inv(),
            is_unique_name(name_question(a, e).0, name_question(a, e).1, unique, now),
            self@ == advanced(
                a,
                e,
                config,
                unique,
                request_headers(self.task@.user_agent, a.referer, self.task.headers.pairs()),
                now,
            ).next,
            step == advanced(
                a,
                e,
                config,
                unique,
                request_headers(self.task@.user_agent, a.referer, self.task.headers.pairs()),
                now,
            ).step,
        ensures
            is_step(a, e, config, now, self@, step),
    {
        let m = self.task.headers;
        let sent = request_headers(self.task@.user_agent, a.referer, m.pairs());
        assert(is_request_of(self@.task, a.referer, sent));
        lemma_is_step(a, e, config, unique, sent, now, self@, step);
    }

    /// Tells the attempt what came of the last action at the moment `now`, and
    /// gets the next step.
    pub fn advance(&mut self, event: Event, config: &Config, now: Moment) -> (r: Step)
        requires
            fits(old(self).stage, event@),
            valid_instant(now),
            valid_instant(old(self).task.created_at),
            old(self).task.started_at is Some ==> valid_instant(old(self).task.started_at->0),
        ensures
            is_step(old(self)@, event@, *config, now, final(self)@, r@),
    {
        match event {
            Event::Probed(info) => self.step_probe(info, config, now),
            Event::Credentials { username, password } => self.step_credentials(
                username,
                password,
                config,
                now,
            ),
            Event::Inspected => self.step_inspection(config, now),
            Event::Located { exists: exists_there, size } => self.step_location(
                exists_there,
                size,
                config,
                now,
            ),
            Event::Transferred(info) => self.step_transfer(info, config, now),
            Event::Completed { new_filename, move_to } => self.step_completion(
                new_filename,
                move_to,
                config,
                now,
            ),
            Event::NameChecked { taken } => self.step_name(taken, config, now),
            Event::Renamed { ok } => self.step_rename(ok, config, now),
            Event::Moved { ok } => self.step_move(ok, config, now),
            Event::HookFailed(m) => self.step_hook_failure(false, m, config, now),
            Event::HookLost(m) => self.step_hook_failure(true, m, config, now),
            Event::Failed(m) => self.step_failure(m, config, now),
        }
    }
}

/// What an event leads to satisfies `is_step`.
proof fn lemma_is_step(
    a: AttemptView,
    e: EventView,
    config: Config,
    unique: Seq<char>,
    sent: Result<Map<Seq<char>, Seq<char>>, HeaderError>,
    now: Moment,
    next: AttemptView,
    step: AttemptStepView,
)
    requires
        is_unique_name(name_question(a, e).0, name_question(a, e).1, unique, now),
        is_request_of(next.task, a.referer, sent),
        next == advanced(a, e, config, unique, sent, now).next,
        step == advanced(a, e, config, unique, sent, now).step,
    ensures
        is_step(a, e, config, now, next, step),
{
    reveal(is_step);
}

/// An attempt begins by asking the server about the URL, with the headers of the
/// download and the referrer that the policy gives it; where those cannot be sent, it is
/// over at once.
pub proof fn law_begin(
    task: DownloadTask,
    config: &Config,
    scripts: bool,
    is_resuming: bool,
    r: (Attempt, Step),
)
    requires
        call_ensures(Attempt::begin, (task, config, scripts, is_resuming), r),
    ensures
        r.0@.task == task@,
        r.0@.scripts == scripts,
        r.0@.is_resuming == is_resuming,
        r.0@.referer == policy_referrer(*config, task@),
        r.0@.move_to is None,
        r.1@.save is None,
        r.1@.mtime is None,
        r.1@.action is Probe || r.1@.action is GiveUp,
        r.1@.action is Probe <==> request_headers(
            task@.user_agent,
            policy_referrer(*config, task@),
            task.headers.pairs(),
        ) is Ok,
        r.1@.action is Probe ==> r.0@.stage == Stage::Probing && r.1@.action->Probe_url == task@.url
            && r.1@.action->Probe_headers == request_headers(
            task@.user_agent,
            policy_referrer(*config, task@),
            task.headers.pairs(),
        )->Ok_0,
        r.1@.action is GiveUp ==> r.0@.stage == Stage::Over,
{
}

} // verus!

//! The events that scripts can listen to, and what they are told.

use vstd::prelude::*;
use vstd::string::*;
use crate::file::path::{PathView, SavePath};
use crate::text::{opt_text, text_eq};
use crate::text_map::{text_values, TextMap};

verus! {

/// What scripts can listen to.
#[derive(Debug, Clone, Copy, PartialEq, Eq, Hash, Structural)]
pub enum HookEvent {
    /// A request is about to be sent.
    BeforeRequest,
    /// The headers of a response are in.
    HeadersReceived,
    /// The server wants credentials.
    AuthRequired,
    /// A download is complete.
    Completed,
    /// A download has failed.
    ErrorOccurred,
    /// A download makes progress.
    Progress,
}

/// The event that a script means by a name.
pub open spec fn event_named(s: Seq<char>) -> Option<HookEvent> {
    if s == "beforeRequest"@ || s == "onBeforeRequest"@ {
        Some(HookEvent::BeforeRequest)
    } else if s == "headersReceived"@ || s == "onHeadersReceived"@ {
        Some(HookEvent::HeadersReceived)
    } else if s == "authRequired"@ || s == "onAuthRequired"@ {
        Some(HookEvent::AuthRequired)
    } else if s == "completed"@ || s == "complete"@ || s == "onCompleted"@ {
        Some(HookEvent::Completed)
    } else if s == "error"@ || s == "errorOccurred"@ || s == "onErrorOccurred"@ {
        Some(HookEvent::ErrorOccurred)
    } else if s == "progress"@ || s == "onProgress"@ {
        Some(HookEvent::Progress)
    } else {
        None
    }
}

/// The name of an event among scripts.
pub open spec fn event_name(e: HookEvent) -> Seq<char> {
    match e {
        HookEvent::BeforeRequest => "beforeRequest"@,
        HookEvent::HeadersReceived => "headersReceived"@,
        HookEvent::AuthRequired => "authRequired"@,
        HookEvent::Completed => "completed"@,
        HookEvent::ErrorOccurred => "error"@,
        HookEvent::Progress => "progress"@,
    }
}

/// The name of an event names that event.
pub proof fn law_names_round_trip(e: HookEvent)
    ensures
        event_named(event_name(e)) == Some(e),
{
    reveal_strlit("beforeRequest");
    reveal_strlit("onBeforeRequest");
    reveal_strlit("headersReceived");
    reveal_strlit("onHeadersReceived");
    reveal_strlit("authRequired");
    reveal_strlit("onAuthRequired");
    reveal_strlit("completed");
    reveal_strlit("complete");
    reveal_strlit("onCompleted");
    reveal_strlit("error");
    reveal_strlit("errorOccurred");
    reveal_strlit("onErrorOccurred");
    reveal_strlit("progress");
    assert("beforeRequest"@[0] == 'b');
    assert("headersReceived"@[0] == 'h');
    assert("authRequired"@[0] == 'a');
    assert("completed"@[0] == 'c');
    assert("error"@[0] == 'e');
    assert("progress"@[0] == 'p');
    assert("onBeforeRequest"@[0] == 'o');
    assert("onHeadersReceived"@[0] == 'o');
    assert("onAuthRequired"@[0] == 'o');
    assert("onCompleted"@[0] == 'o');
    assert("onErrorOccurred"@[0] == 'o');
    assert("complete"@[0] == 'c');
    assert("errorOccurred"@[0] == 'e');
}

impl HookEvent {
    /// The event that a script means by a name.
    pub fn from_str(s: &str) -> (r: Option<HookEvent>)
        ensures
            r == event_named(s@),
    {
        if text_eq(s, "beforeRequest") || text_eq(s, "onBeforeRequest") {
            Some(HookEvent::BeforeRequest)
        } else if text_eq(s, "headersReceived") || text_eq(s, "onHeadersReceived") {
            Some(HookEvent::HeadersReceived)
        } else if text_eq(s, "authRequired") || text_eq(s, "onAuthRequired") {
            Some(HookEvent::AuthRequired)
        } else if text_eq(s, "completed") || text_eq(s, "complete") || text_eq(s, "onCompleted") {
            Some(HookEvent::Completed)
        } else if text_eq(s, "error") || text_eq(s, "errorOccurred") || text_eq(
            s,
            "onErrorOccurred",
        ) {
            Some(HookEvent::ErrorOccurred)
        } else if text_eq(s, "progress") || text_eq(s, "onProgress") {
            Some(HookEvent::Progress)
        } else {
            None
        }
    }

    /// The name of the event among scripts.
    pub fn name(&self) -> (r: &'static str)
        ensures
            r@ == event_name(*self),
    {
        match self {
            HookEvent::BeforeRequest => "beforeRequest",
            HookEvent::HeadersReceived => "headersReceived",
            HookEvent::AuthRequired => "authRequired",
            HookEvent::Completed => "completed",
            HookEvent::ErrorOccurred => "error",
            HookEvent::Progress => "progress",
        }
    }

    /// Whether a download waits for the scripts that listen to the event.
    pub fn is_sync(&self) -> (r: bool)
        ensures
            r == (*self != HookEvent::ErrorOccurred && *self != HookEvent::Progress),
    {
        match self {
            HookEvent::BeforeRequest => true,
            HookEvent::HeadersReceived => true,
            HookEvent::AuthRequired => true,
            HookEvent::Completed => true,
            _ => false,
        }
    }
}

/// What scripts are told before a request; they may change the first three.
pub struct BeforeRequestContext {
    pub url: String,
    pub headers: TextMap<String>,
    pub user_agent: Option<String>,
    pub download_id: Option<String>,
}

/// What scripts are told before a request, as values.
#[verifier::ext_equal]
pub struct BeforeRequestView {
    pub url: Seq<char>,
    pub headers: Map<Seq<char>, Seq<char>>,
    pub user_agent: Option<Seq<char>>,
    pub download_id: Option<Seq<char>>,
}

impl View for BeforeRequestContext {
    type V = BeforeRequestView;

    open spec fn view(&self) -> BeforeRequestView {
        BeforeRequestView {
            url: self.url@,
            headers: text_values(self.headers@),
            user_agent: opt_text(self.user_agent),
            download_id: opt_text(self.download_id),
        }
    }
}

/// What scripts are told of a response.
pub struct HeadersReceivedContext {
    pub url: String,
    pub status: u16,
    pub headers: TextMap<String>,
    pub content_length: Option<u64>,
    pub etag: Option<String>,
    pub last_modified: Option<String>,
    pub content_type: Option<String>,
}

/// What scripts are told of a response, as values.
#[verifier::ext_equal]
pub struct HeadersReceivedView {
    pub url: Seq<char>,
    pub status: u16,
    pub headers: Map<Seq<char>, Seq<char>>,
    pub content_length: Option<u64>,
    pub etag: Option<Seq<char>>,
    pub last_modified: Option<Seq<char>>,
    pub content_type: Option<Seq<char>>,
}

impl View for HeadersReceivedContext {
    type V = HeadersReceivedView;

    open spec fn view(&self) -> HeadersReceivedView {
        HeadersReceivedView {
            url: self.url@,
            status: self.status,
            headers: text_values(self.headers@),
            content_length: self.content_length,
            etag: opt_text(self.etag),
            last_modified: opt_text(self.last_modified),
            content_type: opt_text(self.content_type),
        }
    }
}

/// What scripts are told when the server wants credentials; they may fill in
/// the last two.
pub struct AuthRequiredContext {
    pub url: String,
    pub realm: Option<String>,
    pub username: Option<String>,
    pub password: Option<String>,
}

/// What scripts are told when the server wants credentials, as values.
pub struct AuthRequiredView {
    pub url: Seq<char>,
    pub realm: Option<Seq<char>>,
    pub username: Option<Seq<char>>,
    pub password: Option<Seq<char>>,
}

impl View for AuthRequiredContext {
    type V = AuthRequiredView;

    open spec fn view(&self) -> AuthRequiredView {
        AuthRequiredView {
            url: self.url@,
            realm: opt_text(self.realm),
            username: opt_text(self.username),
            password: opt_text(self.password),
        }
    }
}

/// What scripts are told of a complete download; they may set a new name and a
/// new place for the file.
pub struct CompletedContext {
    pub url: String,
    pub filename: String,
    pub save_path: SavePath,
    pub new_filename: Option<String>,
    pub move_to_path: Option<String>,
    pub size: u64,
    /// How long the download took, in milliseconds.
    pub duration: Option<i64>,
}

/// What scripts are told of a complete download, as values.
pub struct CompletedView {
    pub url: Seq<char>,
    pub filename: Seq<char>,
    pub save_path: PathView,
    pub new_filename: Option<Seq<char>>,
    pub move_to_path: Option<Seq<char>>,
    pub size: u64,
    pub duration: Option<i64>,
}

impl View for CompletedContext {
    type V = CompletedView;

    open spec fn view(&self) -> CompletedView {
        CompletedView {
            url: self.url@,
            filename: self.filename@,
            save_path: self.save_path@,
            new_filename: opt_text(self.new_filename),
            move_to_path: opt_text(self.move_to_path),
            size: self.size,
            duration: self.duration,
        }
    }
}

/// What scripts are told of a failed download.
pub struct ErrorContext {
    pub url: String,
    pub filename: Option<String>,
    pub error: String,
    pub retry_count: u32,
    pub status_code: Option<u16>,
}

/// What scripts are told of a failed download, as values.
pub struct ErrorContextView {
    pub url: Seq<char>,
    pub filename: Option<Seq<char>>,
    pub error: Seq<char>,
    pub retry_count: u32,
    pub status_code: Option<u16>,
}

impl View for ErrorContext {
    type V = ErrorContextView;

    open spec fn view(&self) -> ErrorContextView {
        ErrorContextView {
            url: self.url@,
            filename: opt_text(self.filename),
            error: self.error@,
            retry_count: self.retry_count,
            status_code: self.status_code,
        }
    }
}

} // verus!

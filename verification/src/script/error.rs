//! What can go wrong with scripts.

use vstd::prelude::*;
use vstd::string::*;
use crate::text::{decimal, decimal_u64};

verus! {

/// What went wrong with a script. Paths are given as they are shown.
#[derive(Debug)]
pub enum ScriptError {
    /// A script could not be read.
    FileReadError { path: String, source: String },
    /// A script could not be compiled.
    CompilationError { path: String, message: String },
    /// A script has failed.
    ExecutionError { script: String, message: String },
    /// A script ran too long.
    Timeout { script: String, timeout_ms: u64 },
    /// A script listens to an event that there is not.
    InvalidEventName(String),
    /// A script filters by a pattern that is none.
    InvalidFilter { script: String, pattern: String },
    /// A context could not be turned into a JavaScript object or back.
    SerializationError(String),
    /// The runtime could not be set up.
    RuntimeInitError(String),
    /// The directory of the scripts cannot be used.
    InvalidScriptDirectory(String),
    /// Something that should not happen.
    InternalError(String),
}

/// What went wrong with a script, as values.
pub enum ScriptErrorView {
    FileReadError { path: Seq<char>, source: Seq<char> },
    CompilationError { path: Seq<char>, message: Seq<char> },
    ExecutionError { script: Seq<char>, message: Seq<char> },
    Timeout { script: Seq<char>, timeout_ms: u64 },
    InvalidEventName(Seq<char>),
    InvalidFilter { script: Seq<char>, pattern: Seq<char> },
    SerializationError(Seq<char>),
    RuntimeInitError(Seq<char>),
    InvalidScriptDirectory(Seq<char>),
    InternalError(Seq<char>),
}

impl View for ScriptError {
    type V = ScriptErrorView;

    open spec fn view(&self) -> ScriptErrorView {
        match self {
            ScriptError::FileReadError { path, source } => ScriptErrorView::FileReadError {
                path: path@,
                source: source@,
            },
            ScriptError::CompilationError { path, message } => ScriptErrorView::CompilationError {
                path: path@,
                message: message@,
            },
            ScriptError::ExecutionError { script, message } => ScriptErrorView::ExecutionError {
                script: script@,
                message: message@,
            },
            ScriptError::Timeout { script, timeout_ms } => ScriptErrorView::Timeout {
                script: script@,
                timeout_ms: *timeout_ms,
            },
            ScriptError::InvalidEventName(s) => ScriptErrorView::InvalidEventName(s@),
            ScriptError::InvalidFilter { script, pattern } => ScriptErrorView::InvalidFilter {
                script: script@,
                pattern: pattern@,
            },
            ScriptError::SerializationError(s) => ScriptErrorView::SerializationError(s@),
            ScriptError::RuntimeInitError(s) => ScriptErrorView::RuntimeInitError(s@),
            ScriptError::InvalidScriptDirectory(s) => ScriptErrorView::InvalidScriptDirectory(s@),
            ScriptError::InternalError(s) => ScriptErrorView::InternalError(s@),
        }
    }
}

/// What an error says.
pub open spec fn error_text(e: ScriptErrorView) -> Seq<char> {
    match e {
        ScriptErrorView::FileReadError { path, source } => "Failed to read script file "@ + path
            + ": "@ + source,
        ScriptErrorView::CompilationError { path, message } => "Failed to compile script "@ + path
            + ": "@ + message,
        ScriptErrorView::ExecutionError { script, message } => "Script execution error in "@
            + script + ": "@ + message,
        ScriptErrorView::Timeout { script, timeout_ms } => "Script timeout after "@ + decimal(
            timeout_ms as nat,
        ) + "ms in "@ + script,
        ScriptErrorView::InvalidEventName(s) => "Invalid event name: "@ + s,
        ScriptErrorView::InvalidFilter { script, pattern } => "Invalid URL filter pattern in "@
            + script + ": "@ + pattern,
        ScriptErrorView::SerializationError(s) => "Failed to serialize context: "@ + s,
        ScriptErrorView::RuntimeInitError(s) => "Failed to initialize JavaScript runtime: "@ + s,
        ScriptErrorView::InvalidScriptDirectory(s) => "Invalid script directory: "@ + s,
        ScriptErrorView::InternalError(s) => "Internal script error: "@ + s,
    }
}

/// What is said of a failure: what was tried, with what, and why it failed.
pub proof fn law_failures_in_words(e: ScriptErrorView)
    ensures
        e is FileReadError ==> error_text(e) == "Failed to read script file "@
            + e->FileReadError_path + ": "@ + e->source,
        e is CompilationError ==> error_text(e) == "Failed to compile script "@
            + e->CompilationError_path + ": "@ + e->CompilationError_message,
        e is ExecutionError ==> error_text(e) == "Script execution error in "@
            + e->ExecutionError_script + ": "@ + e->ExecutionError_message,
        e is Timeout ==> error_text(e) == "Script timeout after "@ + decimal(e->timeout_ms as nat)
            + "ms in "@ + e->Timeout_script,
        e is InvalidEventName ==> error_text(e) == "Invalid event name: "@ + e->InvalidEventName_0,
        e is InvalidFilter ==> error_text(e) == "Invalid URL filter pattern in "@
            + e->InvalidFilter_script + ": "@ + e->pattern,
        e is SerializationError ==> error_text(e) == "Failed to serialize context: "@
            + e->SerializationError_0,
        e is RuntimeInitError ==> error_text(e) == "Failed to initialize JavaScript runtime: "@
            + e->RuntimeInitError_0,
        e is InvalidScriptDirectory ==> error_text(e) == "Invalid script directory: "@
            + e->InvalidScriptDirectory_0,
        e is InternalError ==> error_text(e) == "Internal script error: "@ + e->InternalError_0,
{
}

fn two(a: &str, b: &str) -> (r: String)
    ensures
        r@ == a@ + b@,
{
    let mut s = a.to_owned();
    s.append(b);
    s
}

fn four(a: &str, b: &str, c: &str, d: &str) -> (r: String)
    ensures
        r@ == a@ + b@ + c@ + d@,
{
    let mut s = a.to_owned();
    s.append(b);
    s.append(c);
    s.append(d);
    s
}

impl ScriptError {
    /// A script could not be compiled.
    pub fn compilation(path: String, message: String) -> (r: ScriptError)
        ensures
            r == (ScriptError::CompilationError { path, message }),
    {
        ScriptError::CompilationError { path, message }
    }

    /// A script has failed.
    pub fn execution(script: String, message: String) -> (r: ScriptError)
        ensures
            r == (ScriptError::ExecutionError { script, message }),
    {
        ScriptError::ExecutionError { script, message }
    }

    /// A script ran too long.
    pub fn timeout(script: String, timeout_ms: u64) -> (r: ScriptError)
        ensures
            r == (ScriptError::Timeout { script, timeout_ms }),
    {
        ScriptError::Timeout { script, timeout_ms }
    }

    /// A script filters by a pattern that is none.
    pub fn invalid_filter(script: String, pattern: String) -> (r: ScriptError)
        ensures
            r == (ScriptError::InvalidFilter { script, pattern }),
    {
        ScriptError::InvalidFilter { script, pattern }
    }

    /// What the error says.
    pub fn message(&self) -> (r: String)
        ensures
            r@ == error_text(self@),
    {
        match self {
            ScriptError::FileReadError { path, source } => four(
                "Failed to read script file ",
                path.as_str(),
                ": ",
                source.as_str(),
            ),
            ScriptError::CompilationError { path, message } => four(
                "Failed to compile script ",
                path.as_str(),
                ": ",
                message.as_str(),
            ),
            ScriptError::ExecutionError { script, message } => four(
                "Script execution error in ",
                script.as_str(),
                ": ",
                message.as_str(),
            ),
            ScriptError::Timeout { script, timeout_ms } => four(
                "Script timeout after ",
                decimal_u64(*timeout_ms).as_str(),
                "ms in ",
                script.as_str(),
            ),
            ScriptError::InvalidEventName(s) => two("Invalid event name: ", s.as_str()),
            ScriptError::InvalidFilter { script, pattern } => four(
                "Invalid URL filter pattern in ",
                script.as_str(),
                ": ",
                pattern.as_str(),
            ),
            ScriptError::SerializationError(s) => two("Failed to serialize context: ", s.as_str()),
            ScriptError::RuntimeInitError(s) => two(
                "Failed to initialize JavaScript runtime: ",
                s.as_str(),
            ),
            ScriptError::InvalidScriptDirectory(s) => two(
                "Invalid script directory: ",
                s.as_str(),
            ),
            ScriptError::InternalError(s) => two("Internal script error: ", s.as_str()),
        }
    }
}

} // verus!

//! What the thread that runs scripts does with what it is asked.

use vstd::prelude::*;
use super::events::HookEvent;

verus! {

/// What the thread that runs scripts can be asked.
#[derive(Debug, Clone, Copy, PartialEq, Eq, Structural)]
pub enum RequestKind {
    BeforeRequest,
    HeadersReceived,
    Completed,
    Error,
    Progress,
    AuthRequired,
    /// To load all scripts anew.
    Reload,
}

/// What is sent back to the one who asked.
#[derive(Debug, Clone, Copy, PartialEq, Eq, Structural)]
pub enum Reply {
    /// The context as the scripts left it, and whether they failed.
    ContextAndResult,
    /// Whether the scripts failed.
    ResultOnly,
    /// Nothing: nobody waits.
    Nothing,
}

/// What came in.
#[derive(Debug, Clone, Copy, PartialEq, Eq, Structural)]
pub enum ExecutorEvent {
    Request(RequestKind),
    /// Nothing for a while.
    Idle,
    /// Nobody can ask any more.
    Closed,
}

/// What the thread does.
#[derive(Debug, Clone, Copy, PartialEq, Eq, Structural)]
pub enum ExecutorStep {
    /// Hand the event to the scripts, reply, and let the runtime tidy up.
    Trigger { event: HookEvent, reply: Reply },
    /// Load all scripts anew, reply, and let the runtime tidy up.
    Reload,
    /// Let the runtime tidy up.
    Pump,
    /// End.
    Stop,
}

/// How long the thread waits before it lets the runtime tidy up, in seconds.
pub const IDLE_PUMP_SECONDS: u64 = 5;

/// The event that a request is about.
pub open spec fn request_event(kind: RequestKind) -> Option<HookEvent> {
    match kind {
        RequestKind::BeforeRequest => Some(HookEvent::BeforeRequest),
        RequestKind::HeadersReceived => Some(HookEvent::HeadersReceived),
        RequestKind::Completed => Some(HookEvent::Completed),
        RequestKind::Error => Some(HookEvent::ErrorOccurred),
        RequestKind::Progress => Some(HookEvent::Progress),
        RequestKind::AuthRequired => Some(HookEvent::AuthRequired),
        RequestKind::Reload => None,
    }
}

/// What is sent back for an event: the context where scripts may change it,
/// nothing where nobody waits.
pub open spec fn event_reply(event: HookEvent) -> Reply {
    match event {
        HookEvent::BeforeRequest => Reply::ContextAndResult,
        HookEvent::AuthRequired => Reply::ContextAndResult,
        HookEvent::Completed => Reply::ContextAndResult,
        HookEvent::HeadersReceived => Reply::ResultOnly,
        HookEvent::ErrorOccurred => Reply::Nothing,
        HookEvent::Progress => Reply::Nothing,
    }
}

/// What the thread does with what came in.
pub open spec fn executor_step(event: ExecutorEvent) -> ExecutorStep {
    match event {
        ExecutorEvent::Request(kind) => match request_event(kind) {
            Some(e) => ExecutorStep::Trigger { event: e, reply: event_reply(e) },
            None => ExecutorStep::Reload,
        },
        ExecutorEvent::Idle => ExecutorStep::Pump,
        ExecutorEvent::Closed => ExecutorStep::Stop,
    }
}

/// A reply is sent exactly for the events that a download waits for.
pub proof fn law_replies_where_awaited(event: HookEvent)
    ensures
        event_reply(event) != Reply::Nothing <==> event != HookEvent::ErrorOccurred && event
            != HookEvent::Progress,
{
}

/// Whoever asks before a request, for credentials or after a download gets the
/// context back; whoever asks about headers is told whether scripts failed; nobody
/// waits for an answer about failures and progress. A reload is no event, an idle
/// thread tidies up, and one that nobody can ask any more ends.
pub proof fn law_what_the_thread_does(event: ExecutorEvent)
    ensures
        event == ExecutorEvent::Request(RequestKind::BeforeRequest) ==> executor_step(event) == (
        ExecutorStep::Trigger {
            event: HookEvent::BeforeRequest,
            reply: Reply::ContextAndResult,
        }),
        event == ExecutorEvent::Request(RequestKind::AuthRequired) ==> executor_step(event) == (
        ExecutorStep::Trigger { event: HookEvent::AuthRequired, reply: Reply::ContextAndResult }),
        event == ExecutorEvent::Request(RequestKind::Completed) ==> executor_step(event) == (
        ExecutorStep::Trigger { event: HookEvent::Completed, reply: Reply::ContextAndResult }),
        event == ExecutorEvent::Request(RequestKind::HeadersReceived) ==> executor_step(event) == (
        ExecutorStep::Trigger { event: HookEvent::HeadersReceived, reply: Reply::ResultOnly }),
        event == ExecutorEvent::Request(RequestKind::Error) ==> executor_step(event) == (
        ExecutorStep::Trigger { event: HookEvent::ErrorOccurred, reply: Reply::Nothing }),
        event == ExecutorEvent::Request(RequestKind::Progress) ==> executor_step(event) == (
        ExecutorStep::Trigger { event: HookEvent::Progress, reply: Reply::Nothing }),
        executor_step(event) == ExecutorStep::Reload <==> event == ExecutorEvent::Request(
            RequestKind::Reload,
        ),
        executor_step(event) == ExecutorStep::Pump <==> event == ExecutorEvent::Idle,
        executor_step(event) == ExecutorStep::Stop <==> event == ExecutorEvent::Closed,
{
}

/// The thread that runs scripts.
pub struct Executor {
    /// How many requests were taken in.
    pub processed: u64,
}

impl Executor {
    /// A thread that nothing was asked of.
    pub fn new() -> (r: Executor)
        ensures
            r.processed == 0,
    {
        Executor { processed: 0 }
    }

    /// Decides what to do with what came in.
    pub fn step(&mut self, event: ExecutorEvent) -> (r: ExecutorStep)
        requires
            old(self).processed < u64::MAX,
        ensures
            r == executor_step(event),
            final(self).processed == old(self).processed + (if event is Request {
                1int
            } else {
                0
            }),
    {
        match event {
            ExecutorEvent::Request(kind) => {
                self.processed = self.processed + 1;
                match kind {
                    RequestKind::BeforeRequest => ExecutorStep::Trigger {
                        event: HookEvent::BeforeRequest,
                        reply: Reply::ContextAndResult,
                    },
                    RequestKind::HeadersReceived => ExecutorStep::Trigger {
                        event: HookEvent::HeadersReceived,
                        reply: Reply::ResultOnly,
                    },
                    RequestKind::Completed => ExecutorStep::Trigger {
                        event: HookEvent::Completed,
                        reply: Reply::ContextAndResult,
                    },
                    RequestKind::Error => ExecutorStep::Trigger {
                        event: HookEvent::ErrorOccurred,
                        reply: Reply::Nothing,
                    },
                    RequestKind::Progress => ExecutorStep::Trigger {
                        event: HookEvent::Progress,
                        reply: Reply::Nothing,
                    },
                    RequestKind::AuthRequired => ExecutorStep::Trigger {
                        event: HookEvent::AuthRequired,
                        reply: Reply::ContextAndResult,
                    },
                    RequestKind::Reload => ExecutorStep::Reload,
                }
            },
            ExecutorEvent::Idle => ExecutorStep::Pump,
            ExecutorEvent::Closed => ExecutorStep::Stop,
        }
    }
}

} // verus!

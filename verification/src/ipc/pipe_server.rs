//! How the messages of helpers are taken in and answered.

use vstd::prelude::*;
use vstd::string::*;
use super::protocol::{IpcRequest, IpcResponse, RequestView, ResponseView};
use crate::text::{decimal, decimal_u64, trim, trimmed};

verus! {

/// What the program is told of a message.
#[derive(Debug)]
pub enum IpcEvent {
    /// A URL is to be added to the queue of the current folder.
    UrlReceived(String),
}

/// The largest message, in bytes.
pub const MAX_LINE_BYTES: u64 = 65_536;

/// The name of the pipe: the usual one if it is free, else one with the number
/// of the process.
pub open spec fn pipe_name(usual_is_free: bool, pid: u32) -> Seq<char> {
    if usual_is_free {
        "\\\\.\\pipe\\ggg-dnd"@
    } else {
        "\\\\.\\pipe\\ggg-dnd-"@ + decimal(pid as nat)
    }
}

/// The usual name is used where it is free; else the number of the process follows it.
pub proof fn law_pipe_names(pid: u32)
    ensures
        pipe_name(true, pid) == "\\\\.\\pipe\\ggg-dnd"@,
        pipe_name(false, pid) == "\\\\.\\pipe\\ggg-dnd-"@ + decimal(pid as nat),
{
}

/// The name of the pipe, given whether the usual one is free.
pub fn resolve_pipe_name(usual_is_free: bool, pid: u32) -> (r: String)
    ensures
        r@ == pipe_name(usual_is_free, pid),
{
    if usual_is_free {
        "\\\\.\\pipe\\ggg-dnd".to_owned()
    } else {
        let mut s = "\\\\.\\pipe\\ggg-dnd-".to_owned();
        s.append(decimal_u64(pid as u64).as_str());
        s
    }
}

/// What is to be done with what was read.
#[derive(Debug)]
pub enum Frame {
    /// The helper is gone, or sends too much: end the connection.
    Close,
    /// A blank line.
    Skip,
    /// A message.
    Message(String),
}

/// What is to be done with what was read, as values.
pub enum FrameView {
    Close,
    Skip,
    Message(Seq<char>),
}

impl View for Frame {
    type V = FrameView;

    open spec fn view(&self) -> FrameView {
        match self {
            Frame::Close => FrameView::Close,
            Frame::Skip => FrameView::Skip,
            Frame::Message(s) => FrameView::Message(s@),
        }
    }
}

/// What is to be done with so many bytes that were read, that end in a line feed
/// or do not, and are `text`.
pub open spec fn framed(bytes: u64, ended: bool, text: Seq<char>) -> FrameView {
    if bytes == 0 || (bytes == MAX_LINE_BYTES && !ended) {
        FrameView::Close
    } else if trimmed(text).len() == 0 {
        FrameView::Skip
    } else {
        FrameView::Message(trimmed(text))
    }
}

/// What is to be done with what was read. At most `MAX_LINE_BYTES` are read at a
/// time.
pub fn take_line(bytes: u64, ended: bool, text: &str) -> (r: Frame)
    ensures
        r@ == framed(bytes, ended, text@),
{
    if bytes == 0 || (bytes == MAX_LINE_BYTES && !ended) {
        return Frame::Close;
    }
    let line = trim(text);
    if line.as_str().is_empty() {
        Frame::Skip
    } else {
        Frame::Message(line)
    }
}

/// A connection ends exactly if nothing came or a message grew to the largest size
/// without an end; a blank line is passed over, and any other is taken in without the
/// white space around it.
pub proof fn law_lines_are_taken_in(bytes: u64, ended: bool, text: Seq<char>)
    ensures
        framed(bytes, ended, text) is Close <==> bytes == 0 || (bytes == 65_536 && !ended),
        framed(bytes, ended, text) is Skip <==> !(bytes == 0 || (bytes == 65_536 && !ended))
            && trimmed(text).len() == 0,
        framed(bytes, ended, text) is Message ==> framed(bytes, ended, text)->Message_0 == trimmed(
            text,
        ),
{
}

/// A message without an end is not taken in, so that no more than the largest
/// message is kept.
pub proof fn law_endless_messages_are_refused(text: Seq<char>)
    ensures
        framed(MAX_LINE_BYTES, false, text) == FrameView::Close,
{
}

/// What the program is to be told of a request, if anything.
pub fn forwarded_event(request: &IpcRequest) -> (r: Option<IpcEvent>)
    ensures
        match request@ {
            RequestView::AddUrl(url) => r is Some && r->0->UrlReceived_0@ == url,
            RequestView::Ping => r is None,
        },
{
    match request {
        IpcRequest::AddUrl { url } => Some(IpcEvent::UrlReceived(url.clone())),
        IpcRequest::Ping => None,
    }
}

/// The answer to a request, given whether the program could be told of it.
pub open spec fn answer(request: RequestView, told: bool) -> ResponseView {
    match request {
        RequestView::AddUrl(url) => if told {
            ResponseView::Accepted("URL queued: "@ + url)
        } else {
            ResponseView::Error("TUI event channel closed"@)
        },
        RequestView::Ping => ResponseView::Pong,
    }
}

/// Who asks whether anybody is there is told so; a URL is accepted exactly if the
/// program could be told of it, and named in the answer.
pub proof fn law_answers(request: RequestView, told: bool)
    ensures
        answer(request, told) is Pong <==> request is Ping,
        answer(request, told) is Accepted <==> request is AddUrl && told,
        answer(request, told) is Error <==> request is AddUrl && !told,
        answer(request, told) is Accepted ==> request->AddUrl_0.is_suffix_of(
            answer(request, told)->Accepted_0,
        ),
{
    if request is AddUrl && told {
        let url = request->AddUrl_0;
        let message = "URL queued: "@ + url;
        assert(url =~= message.subrange(message.len() - url.len(), message.len() as int));
    }
}

/// Answers a request, given whether the program could be told of it.
pub fn process_request(request: &IpcRequest, told: bool) -> (r: IpcResponse)
    ensures
        r@ == answer(request@, told),
{
    match request {
        IpcRequest::AddUrl { url } => if told {
            let mut message = "URL queued: ".to_owned();
            message.append(url.as_str());
            IpcResponse::Accepted { message }
        } else {
            IpcResponse::Error { message: "TUI event channel closed".to_owned() }
        },
        IpcRequest::Ping => IpcResponse::Pong,
    }
}

/// Answers a message that is no request.
pub fn refuse_message(reason: &str) -> (r: IpcResponse)
    ensures
        r@ == ResponseView::Error("Invalid message: "@ + reason@),
{
    let mut message = "Invalid message: ".to_owned();
    message.append(reason);
    IpcResponse::Error { message }
}

} // verus!

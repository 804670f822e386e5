//! What helpers ask, and what they are answered.

use vstd::prelude::*;

verus! {

/// What a helper asks.
#[derive(Debug)]
pub enum IpcRequest {
    /// To add a URL to the queue of the current folder.
    AddUrl { url: String },
    /// Whether anybody is there.
    Ping,
}

/// What a helper is answered.
#[derive(Debug)]
pub enum IpcResponse {
    Accepted { message: String },
    Error { message: String },
    Pong,
}

/// What a helper asks, as values.
pub enum RequestView {
    AddUrl(Seq<char>),
    Ping,
}

/// What a helper is answered, as values.
pub enum ResponseView {
    Accepted(Seq<char>),
    Error(Seq<char>),
    Pong,
}

impl View for IpcRequest {
    type V = RequestView;

    open spec fn view(&self) -> RequestView {
        match self {
            IpcRequest::AddUrl { url } => RequestView::AddUrl(url@),
            IpcRequest::Ping => RequestView::Ping,
        }
    }
}

impl View for IpcResponse {
    type V = ResponseView;

    open spec fn view(&self) -> ResponseView {
        match self {
            IpcResponse::Accepted { message } => ResponseView::Accepted(message@),
            IpcResponse::Error { message } => ResponseView::Error(message@),
            IpcResponse::Pong => ResponseView::Pong,
        }
    }
}

} // verus!

use ggg::ipc::pipe_server::{
    forwarded_event, process_request, refuse_message, resolve_pipe_name, take_line, Frame,
    IpcEvent,
};
use ggg::ipc::protocol::{IpcRequest, IpcResponse};

#[test]
fn pipes_have_a_usual_name_and_a_fallback() {
    assert_eq!(resolve_pipe_name(true, 7), r"\\.\pipe\ggg-dnd");
    assert_eq!(resolve_pipe_name(false, 7), r"\\.\pipe\ggg-dnd-7");
}

#[test]
fn lines_are_taken_in() {
    assert!(matches!(take_line(0, false, ""), Frame::Close));
    assert!(matches!(take_line(65_536, false, "x"), Frame::Close));
    assert!(matches!(take_line(65_536, true, "x"), Frame::Message(_)));
    assert!(matches!(take_line(2, true, " \n"), Frame::Skip));
    match take_line(5, true, " {} \n") {
        Frame::Message(m) => assert_eq!(m, "{}"),
        _ => panic!("a message came in"),
    }
}

#[test]
fn requests_are_answered() {
    let add = IpcRequest::AddUrl { url: "https://a".to_string() };
    match forwarded_event(&add) {
        Some(IpcEvent::UrlReceived(u)) => assert_eq!(u, "https://a"),
        None => panic!("the program is told of URLs"),
    }
    match process_request(&add, true) {
        IpcResponse::Accepted { message } => assert_eq!(message, "URL queued: https://a"),
        _ => panic!("the URL was queued"),
    }
    match process_request(&add, false) {
        IpcResponse::Error { message } => assert_eq!(message, "TUI event channel closed"),
        _ => panic!("nobody was told"),
    }
    assert!(forwarded_event(&IpcRequest::Ping).is_none());
    assert!(matches!(process_request(&IpcRequest::Ping, false), IpcResponse::Pong));
    match refuse_message("bad") {
        IpcResponse::Error { message } => assert_eq!(message, "Invalid message: bad"),
        _ => panic!("the message was no request"),
    }
}

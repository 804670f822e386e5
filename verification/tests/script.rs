use ggg::app::config::ScriptConfig;
use ggg::file::path::SavePath;
use ggg::script::engine::{
    callback_code, execution_error, is_valid_callback_id, pattern_regex, settle, ContextUpdate,
    Dispatch, EventHandlers, Flow, HandlerData, HandlerOutcome, HandlerRegistry, LoadAction,
    LoadEvent, UrlFilter,
};
use ggg::script::error::ScriptError;
use ggg::script::events::HookEvent;
use ggg::script::executor::{Executor, ExecutorEvent, ExecutorStep, Reply, RequestKind};
use ggg::script::loader::{DirectoryEntry, DirectoryState, ScriptLoader};
use ggg::text_map::TextMap;

fn path(parts: &[&str]) -> SavePath {
    SavePath::new(parts.iter().map(|p| p.to_string()).collect())
}

fn entry(name: &str, is_directory: bool) -> DirectoryEntry {
    DirectoryEntry { name: name.to_string(), is_directory }
}

fn handler(id: &str, filter: Option<&str>) -> HandlerData {
    HandlerData {
        callback_id: Some(id.to_string()),
        filter: filter.map(|f| f.to_string()),
    }
}

fn group(event: &str, handlers: Vec<HandlerData>) -> EventHandlers {
    EventHandlers { event: event.to_string(), handlers }
}

#[test]
fn test_is_valid_callback_id() {
    assert!(is_valid_callback_id("__callback_0"));
    assert!(is_valid_callback_id("__callback_12345"));
    assert!(!is_valid_callback_id("__callback_"));
    assert!(!is_valid_callback_id("__callback_1a"));
    assert!(!is_valid_callback_id("evil(); //"));
    assert!(!is_valid_callback_id("globalThis.x"));
    assert!(!is_valid_callback_id(""));
}

#[test]
fn test_url_filter_simple_match() {
    let filter = UrlFilter::new("pbs.twimg.com".to_string(), "test.js").unwrap();
    assert!(filter.matches("https://pbs.twimg.com/media/image.jpg"));
    assert!(!filter.matches("https://example.com/file.zip"));
}

#[test]
fn test_url_filter_regex_match() {
    let filter = UrlFilter::new("^https://.*\\.twimg\\.com".to_string(), "test.js").unwrap();
    assert!(filter.matches("https://pbs.twimg.com/media/image.jpg"));
    assert!(filter.matches("https://video.twimg.com/video.mp4"));
    assert!(!filter.matches("http://pbs.twimg.com/image.jpg"));
}

#[test]
fn plain_patterns_are_escaped() {
    assert_eq!(pattern_regex("a.b"), "a\\.b");
    assert_eq!(pattern_regex("a-b~c#"), "a\\-b\\~c\\#");
    assert_eq!(pattern_regex("a.*b"), "a.*b");
    let filter = UrlFilter::new("a.b".to_string(), "t.js").unwrap();
    assert!(!filter.matches("aXb"));
}

#[test]
fn broken_patterns_are_refused() {
    match UrlFilter::new("*(".to_string(), "dir/t.js") {
        Err(e) => assert_eq!(e.message(), "Invalid URL filter pattern in dir/t.js: *("),
        Ok(_) => panic!("the pattern is broken"),
    }
}

#[test]
fn test_error_display() {
    let err = ScriptError::InvalidEventName("bogus".to_string());
    assert_eq!(err.message(), "Invalid event name: bogus");

    let err = ScriptError::compilation("test.js".to_string(), "syntax error".to_string());
    assert_eq!(err.message(), "Failed to compile script test.js: syntax error");

    let err = ScriptError::timeout("test.js".to_string(), 5000);
    assert_eq!(err.message(), "Script timeout after 5000ms in test.js");
}

#[test]
fn test_error_helpers() {
    let err = ScriptError::execution(
        "test.js".to_string(),
        "undefined is not a function".to_string(),
    );
    match err {
        ScriptError::ExecutionError { script, message } => {
            assert_eq!(script, "test.js");
            assert_eq!(message, "undefined is not a function");
        }
        _ => panic!("Expected ExecutionError"),
    }
}

#[test]
fn every_error_has_its_words() {
    let cases = vec![
        (
            ScriptError::FileReadError { path: "p".to_string(), source: "s".to_string() },
            "Failed to read script file p: s",
        ),
        (
            ScriptError::execution("p".to_string(), "s".to_string()),
            "Script execution error in p: s",
        ),
        (
            ScriptError::invalid_filter("p".to_string(), "s".to_string()),
            "Invalid URL filter pattern in p: s",
        ),
        (ScriptError::SerializationError("s".to_string()), "Failed to serialize context: s"),
        (
            ScriptError::RuntimeInitError("s".to_string()),
            "Failed to initialize JavaScript runtime: s",
        ),
        (
            ScriptError::InvalidScriptDirectory("s".to_string()),
            "Invalid script directory: s",
        ),
        (ScriptError::InternalError("s".to_string()), "Internal script error: s"),
    ];
    for (e, text) in cases {
        assert_eq!(e.message(), text);
    }
}

#[test]
fn test_hook_event_from_str() {
    assert_eq!(HookEvent::from_str("beforeRequest"), Some(HookEvent::BeforeRequest));
    assert_eq!(HookEvent::from_str("onBeforeRequest"), Some(HookEvent::BeforeRequest));
    assert_eq!(HookEvent::from_str("completed"), Some(HookEvent::Completed));
    assert_eq!(HookEvent::from_str("complete"), Some(HookEvent::Completed));
    assert_eq!(HookEvent::from_str("invalid"), None);
}

#[test]
fn test_hook_event_name() {
    assert_eq!(HookEvent::BeforeRequest.name(), "beforeRequest");
    assert_eq!(HookEvent::Completed.name(), "completed");
}

#[test]
fn test_hook_event_is_sync() {
    assert!(HookEvent::BeforeRequest.is_sync());
    assert!(HookEvent::Completed.is_sync());
    assert!(!HookEvent::ErrorOccurred.is_sync());
    assert!(!HookEvent::Progress.is_sync());
}

#[test]
fn test_loader_creation() {
    let loader = ScriptLoader::new(path(&[".", "scripts"]));
    assert_eq!(loader.directory(), &path(&[".", "scripts"]));
}

#[test]
fn test_loader_directory_getter() {
    let loader = ScriptLoader::new(path(&[".", "test_scripts"]));
    assert_eq!(loader.directory(), &path(&[".", "test_scripts"]));
}

#[test]
fn test_list_scripts_empty_directory() {
    let loader = ScriptLoader::new(path(&["d"]));
    let scripts = loader.list_scripts("d", DirectoryState::Entries(Vec::new())).unwrap();
    assert_eq!(scripts.len(), 0);
}

#[test]
fn test_list_scripts_filters_js_files() {
    let loader = ScriptLoader::new(path(&["d"]));
    let found = DirectoryState::Entries(vec![
        entry("script1.js", false),
        entry("script2.js", false),
        entry("readme.txt", false),
        entry("config.json", false),
    ]);
    let scripts = loader.list_scripts("d", found).unwrap();
    assert_eq!(scripts.len(), 2);
    for script in &scripts {
        assert!(script.ends_with(".js"));
    }
}

#[test]
fn test_list_scripts_alphabetical_order() {
    let loader = ScriptLoader::new(path(&["d"]));
    let found = DirectoryState::Entries(vec![
        entry("c_third.js", false),
        entry("a_first.js", false),
        entry("b_second.js", false),
    ]);
    let scripts = loader.list_scripts("d", found).unwrap();
    assert_eq!(scripts, vec!["a_first.js", "b_second.js", "c_third.js"]);
}

#[test]
fn test_list_scripts_nonexistent_directory_creates() {
    let loader = ScriptLoader::new(path(&["d"]));
    let scripts = loader.list_scripts("d", DirectoryState::Missing { created: true }).unwrap();
    assert_eq!(scripts.len(), 0);
}

#[test]
fn test_list_scripts_ignores_subdirectories() {
    let loader = ScriptLoader::new(path(&["d"]));
    let found =
        DirectoryState::Entries(vec![entry("script.js", false), entry("subdir.js", true)]);
    let scripts = loader.list_scripts("d", found).unwrap();
    assert_eq!(scripts, vec!["script.js"]);
}

#[test]
fn unusable_directories_are_told() {
    let loader = ScriptLoader::new(path(&["d"]));
    for found in [
        DirectoryState::Missing { created: false },
        DirectoryState::NotADirectory,
        DirectoryState::Unreadable,
    ] {
        let e = loader.list_scripts("shown", found).unwrap_err();
        assert_eq!(e.message(), "Invalid script directory: shown");
    }
}

#[test]
fn handlers_run_in_order_until_one_stops() {
    let mut registry = HandlerRegistry::new();
    registry
        .register(
            &vec![group(
                "beforeRequest",
                vec![handler("__callback_0", None), handler("__callback_1", Some("example"))],
            )],
            "a.js",
            "dir/a.js",
        )
        .unwrap();
    registry
        .register(
            &vec![
                group("completed", vec![handler("__callback_2", None)]),
                group("beforeRequest", vec![handler("bad id", None), handler("__callback_3", None)]),
            ],
            "b.js",
            "dir/b.js",
        )
        .unwrap();
    assert_eq!(registry.handler_count(HookEvent::BeforeRequest), 4);
    assert_eq!(registry.handler_count(HookEvent::Completed), 1);
    assert_eq!(registry.handler_count(HookEvent::Progress), 0);

    let scripts = TextMap::new();
    let mut d = Dispatch::begin(HookEvent::BeforeRequest);
    let mut ran = Vec::new();
    while let Some(i) = d.next(&registry, &scripts, Some("https://other.org/")) {
        ran.push(registry.handler_at(i).callback_id.clone());
        d.settle(HandlerOutcome::Returned { context: ContextUpdate::Applied, result: Some(true) });
    }
    assert_eq!(ran, vec!["__callback_0", "__callback_3"]);

    let mut off = TextMap::new();
    off.insert("b.js".to_string(), false);
    let mut d = Dispatch::begin(HookEvent::BeforeRequest);
    let mut ran = Vec::new();
    while let Some(i) = d.next(&registry, &off, Some("https://example.com/")) {
        ran.push(registry.handler_at(i).callback_id.clone());
        d.settle(HandlerOutcome::Threw);
    }
    assert_eq!(ran, vec!["__callback_0", "__callback_1"]);

    let mut d = Dispatch::begin(HookEvent::BeforeRequest);
    assert!(d.next(&registry, &scripts, None).is_some());
    let flow =
        d.settle(HandlerOutcome::Returned { context: ContextUpdate::Applied, result: Some(false) });
    assert!(matches!(flow, Flow::Stop));
    assert!(d.next(&registry, &scripts, None).is_none());

    registry.clear_handlers();
    assert_eq!(registry.len(), 0);
}

#[test]
fn broken_handlers_are_passed_over() {
    assert!(matches!(settle(HandlerOutcome::Threw), Flow::Continue));
    assert!(matches!(settle(HandlerOutcome::Unreadable), Flow::Continue));
    assert!(matches!(
        settle(HandlerOutcome::Returned { context: ContextUpdate::Absent, result: None }),
        Flow::Continue
    ));
    match settle(HandlerOutcome::Returned {
        context: ContextUpdate::Unusable("bad".to_string()),
        result: Some(false),
    }) {
        Flow::Fail(e) => assert_eq!(e.message(), "Failed to serialize context: bad"),
        _ => panic!("an unusable context fails the event"),
    }
}

#[test]
fn registration_stops_at_the_first_fault() {
    let mut registry = HandlerRegistry::new();
    let e = registry
        .register(
            &vec![
                group("completed", vec![handler("__callback_0", None)]),
                group("nonsense", vec![handler("__callback_1", None)]),
                group("progress", vec![handler("__callback_2", None)]),
            ],
            "a.js",
            "a.js",
        )
        .unwrap_err();
    assert_eq!(e.message(), "Invalid event name: nonsense");
    assert_eq!(registry.len(), 1);
    let e = registry
        .register(
            &vec![group(
                "completed",
                vec![HandlerData { callback_id: None, filter: None }],
            )],
            "a.js",
            "a.js",
        )
        .unwrap_err();
    assert_eq!(e.message(), "Internal script error: Missing callbackId");
    let e = registry
        .register(
            &vec![group("completed", vec![handler("__callback_4", Some("*["))])],
            "a.js",
            "dir/a.js",
        )
        .unwrap_err();
    assert_eq!(e.message(), "Invalid URL filter pattern in dir/a.js: *[");
    assert_eq!(registry.len(), 1);
}

#[test]
fn loading_goes_step_by_step() {
    let mut r = HandlerRegistry::new();
    assert!(matches!(r.load_script(LoadEvent::Sized(Some(1_048_576)), "a", "a"), LoadAction::Read));
    assert!(matches!(r.load_script(LoadEvent::Sized(None), "a", "a"), LoadAction::Read));
    match r.load_script(LoadEvent::Sized(Some(1_048_577)), "a.js", "dir/a.js") {
        LoadAction::Fail(e) => assert_eq!(
            e.message(),
            "Failed to compile script dir/a.js: Script exceeds the 1048576 byte size limit (1048577 bytes)"
        ),
        _ => panic!("the script is too large"),
    }
    assert!(matches!(
        r.load_script(LoadEvent::Content("x".to_string()), "a", "a"),
        LoadAction::Execute(_)
    ));
    assert!(matches!(r.load_script(LoadEvent::Executed, "a", "a"), LoadAction::List));
    let groups = vec![group("error", vec![handler("__callback_0", None)])];
    assert!(matches!(r.load_script(LoadEvent::Listed(groups), "a", "a"), LoadAction::Clear));
    assert_eq!(r.handler_count(HookEvent::ErrorOccurred), 1);
    assert!(matches!(r.load_script(LoadEvent::Cleared, "a", "a"), LoadAction::Done));
    let fails = vec![
        (LoadEvent::ReadFailed("x".to_string()), "Failed to read script file a: x"),
        (
            LoadEvent::ExecutionFailed(ScriptError::timeout("s".to_string(), 1)),
            "Failed to compile script a: Script timeout after 1ms in s",
        ),
        (
            LoadEvent::ListFailed(ScriptError::timeout("s".to_string(), 1)),
            "Internal script error: Failed to get handlers: Script timeout after 1ms in s",
        ),
        (
            LoadEvent::ListUnreadable("x".to_string()),
            "Internal script error: V8 deserialization error: x",
        ),
        (
            LoadEvent::ListUnparsable("x".to_string()),
            "Internal script error: Failed to parse handlers: x",
        ),
        (
            LoadEvent::ClearFailed(ScriptError::timeout("s".to_string(), 1)),
            "Internal script error: Failed to clear handlers map: Script timeout after 1ms in s",
        ),
    ];
    for (event, text) in fails {
        match r.load_script(event, "a", "a") {
            LoadAction::Fail(e) => assert_eq!(e.message(), text),
            _ => panic!("loading fails"),
        }
    }
}

#[test]
fn callbacks_are_called_with_their_context() {
    let code = callback_code("{}", "__callback_7");
    assert!(code.starts_with("(function() {"));
    assert!(code.contains("const ctx = {};"));
    assert!(code.contains("const result = __callback_7(ctx);"));
    assert!(code.ends_with("})()"));
}

#[test]
fn slow_scripts_are_told_from_broken_ones() {
    assert_eq!(
        execution_error("s", true, 30, "m".to_string()).message(),
        "Script timeout after 30ms in s"
    );
    assert_eq!(
        execution_error("s", false, 30, "m".to_string()).message(),
        "Script execution error in s: m"
    );
}

#[test]
fn the_executor_replies_where_somebody_waits() {
    let mut e = Executor::new();
    assert_eq!(
        e.step(ExecutorEvent::Request(RequestKind::BeforeRequest)),
        ExecutorStep::Trigger { event: HookEvent::BeforeRequest, reply: Reply::ContextAndResult }
    );
    assert_eq!(
        e.step(ExecutorEvent::Request(RequestKind::HeadersReceived)),
        ExecutorStep::Trigger { event: HookEvent::HeadersReceived, reply: Reply::ResultOnly }
    );
    assert_eq!(
        e.step(ExecutorEvent::Request(RequestKind::Progress)),
        ExecutorStep::Trigger { event: HookEvent::Progress, reply: Reply::Nothing }
    );
    assert_eq!(e.step(ExecutorEvent::Request(RequestKind::Reload)), ExecutorStep::Reload);
    assert_eq!(e.step(ExecutorEvent::Idle), ExecutorStep::Pump);
    assert_eq!(e.step(ExecutorEvent::Closed), ExecutorStep::Stop);
    assert_eq!(e.processed, 4);
}

#[test]
fn test_module_structure() {
    let config = ScriptConfig {
        enabled: true,
        directory: path(&[".", "scripts"]),
        timeout: 30,
        script_files: TextMap::new(),
    };
    assert_eq!(config.timeout, 30);
}

#[test]
fn scripts_are_listed_whatever_stands_before_the_dot() {
    let loader = ScriptLoader::new(path(&["d"]));
    let found = DirectoryState::Entries(vec![
        entry("b:c.js", false),
        entry("a\\b.js", false),
        entry("c:d.txt", false),
    ]);
    assert_eq!(loader.list_scripts("d", found).unwrap(), vec!["a\\b.js", "b:c.js"]);
}

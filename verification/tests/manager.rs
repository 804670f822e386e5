use ggg::app::config::{Config, FolderConfig};
use ggg::clock::Moment;
use ggg::download::history::DownloadHistory;
use ggg::download::manager::{
    backoff_seconds, progress_due, DownloadManager, RetryDecision, StartOutcome,
};
use ggg::download::task::{DownloadStatus, DownloadTask, LogLevel};
use ggg::file::path::SavePath;
use ggg::script::events::BeforeRequestContext;
use ggg::text_map::TextMap;
use uuid::Uuid;

fn at(secs: i64) -> Moment {
    Moment { secs, nanos: 7 }
}

fn path(parts: &[&str]) -> SavePath {
    SavePath::new(parts.iter().map(|p| p.to_string()).collect())
}

fn default_config() -> Config {
    Config::default_in(path(&["/", "downloads"]), path(&["/", "scripts"]))
}

fn folder_with(scripts: &[(&str, bool)]) -> FolderConfig {
    let mut folder = FolderConfig::default_in(path(&["/", "downloads"]));
    let mut files = TextMap::new();
    for (name, on) in scripts {
        files.insert(name.to_string(), *on);
    }
    folder.script_files = Some(files);
    folder
}

fn task(folder: &str) -> DownloadTask {
    let mut t =
        DownloadTask::new("https://example.com/file.zip".to_string(), path(&["/", "tmp"]));
    t.folder_id = folder.to_string();
    t
}

fn started(manager: &mut DownloadManager, id: u128) -> (DownloadTask, bool) {
    match manager.start_download(id) {
        StartOutcome::Ready(t) => manager.launch(t, None, at(1_000)),
        _ => panic!("the download does not start"),
    }
}

#[test]
fn test_compute_effective_script_files_application_only() {
    let mut config = default_config();
    config.scripts.script_files.insert("script1.js".to_string(), true);
    config.scripts.script_files.insert("script2.js".to_string(), false);

    let result = DownloadManager::compute_effective_script_files(&config, "test_folder");

    assert_eq!(result.get("script1.js"), Some(&true));
    assert_eq!(result.get("script2.js"), Some(&false));
}

#[test]
fn test_compute_effective_script_files_folder_override() {
    let mut config = default_config();
    config.scripts.script_files.insert("script1.js".to_string(), true);
    config.scripts.script_files.insert("script2.js".to_string(), false);
    config.folders.insert(
        "test_folder".to_string(),
        folder_with(&[("script2.js", true), ("script3.js", true)]),
    );

    let result = DownloadManager::compute_effective_script_files(&config, "test_folder");

    assert_eq!(result.get("script1.js"), Some(&true));
    assert_eq!(result.get("script2.js"), Some(&true));
    assert_eq!(result.get("script3.js"), Some(&true));
}

#[test]
fn test_compute_effective_script_files_folder_disable() {
    let mut config = default_config();
    config.scripts.script_files.insert("script1.js".to_string(), true);
    config.folders.insert("test_folder".to_string(), folder_with(&[("script1.js", false)]));

    let result = DownloadManager::compute_effective_script_files(&config, "test_folder");

    assert_eq!(result.get("script1.js"), Some(&false));
}

#[test]
fn test_compute_effective_script_files_no_folder_config() {
    let mut config = default_config();
    config.scripts.script_files.insert("script1.js".to_string(), true);

    let result = DownloadManager::compute_effective_script_files(&config, "nonexistent_folder");

    assert_eq!(result.get("script1.js"), Some(&true));
}

#[test]
fn test_compute_effective_script_files_empty_config() {
    let config = default_config();
    let result = DownloadManager::compute_effective_script_files(&config, "test_folder");
    assert!(result.is_empty());
}

#[test]
fn test_compute_effective_script_files_multiple_folder_overrides() {
    let mut config = default_config();
    config.scripts.script_files.insert("s1.js".to_string(), true);
    config.scripts.script_files.insert("s2.js".to_string(), true);
    config.scripts.script_files.insert("s3.js".to_string(), false);
    config.folders.insert(
        "test_folder".to_string(),
        folder_with(&[("s2.js", false), ("s3.js", true), ("s4.js", true)]),
    );

    let result = DownloadManager::compute_effective_script_files(&config, "test_folder");

    assert_eq!(result.get("s1.js"), Some(&true));
    assert_eq!(result.get("s2.js"), Some(&false));
    assert_eq!(result.get("s3.js"), Some(&true));
    assert_eq!(result.get("s4.js"), Some(&true));
    assert_eq!(result.len(), 4);
}

#[test]
fn test_download_manager_creation() {
    let _manager = DownloadManager::new();
}

#[test]
fn test_download_manager_default() {
    let _manager = DownloadManager::default();
}

#[test]
fn test_set_max_concurrent() {
    let mut manager = DownloadManager::new();
    manager.set_max_concurrent(5);
    let current = manager.max_concurrent();
    assert_eq!(current, 5);
}

#[test]
fn test_set_max_concurrent_zero() {
    let mut manager = DownloadManager::new();
    manager.set_max_concurrent(0);
    let current = manager.max_concurrent();
    assert_eq!(current, 0);
}

#[test]
fn test_set_max_concurrent_large_value() {
    let mut manager = DownloadManager::new();
    manager.set_max_concurrent(100);
    let current = manager.max_concurrent();
    assert_eq!(current, 100);
}

#[test]
fn test_get_active_count_empty() {
    let manager = DownloadManager::new();
    assert_eq!(manager.get_active_count(), 0);
}

#[test]
fn test_add_download_creates_task() {
    let mut manager = DownloadManager::new();
    let url = "https://example.com/file.zip".to_string();
    let task = DownloadTask::new(url.clone(), path(&["/", "tmp", "downloads"]));
    let task_id = task.id;

    manager.add_download(task);

    let retrieved_task = manager.get_by_id(task_id);
    assert!(retrieved_task.is_some());
    let retrieved_task = retrieved_task.unwrap();
    assert_eq!(retrieved_task.url, url);
    assert_eq!(retrieved_task.status, DownloadStatus::Pending);
}

#[test]
fn test_add_download_sanitizes_filename() {
    let mut manager = DownloadManager::new();
    let url = "https://example.com/file<>name.zip".to_string();
    let mut task = DownloadTask::new(url.clone(), path(&["/", "tmp", "downloads"]));
    task.filename = "file<>name.zip".to_string();
    let task_id = task.id;

    manager.add_download(task);

    let retrieved_task = manager.get_by_id(task_id).unwrap();
    assert!(!retrieved_task.filename.contains('<'));
    assert!(!retrieved_task.filename.contains('>'));
}

#[test]
fn test_remove_download_nonexistent() {
    let mut manager = DownloadManager::new();
    let fake_id = Uuid::new_v4().as_u128();
    let result = manager.remove_download(fake_id);
    assert!(result.is_none());
}

#[test]
fn test_change_folder_nonexistent_task() {
    let mut manager = DownloadManager::new();
    let fake_id = Uuid::new_v4().as_u128();
    let result = manager.change_folder(fake_id, "new_folder".to_string());
    assert!(result.is_err());
}

#[test]
fn test_get_all_downloads_empty() {
    let manager = DownloadManager::new();
    let tasks = manager.get_all_downloads();
    assert_eq!(tasks.len(), 0);
}

#[test]
fn test_get_by_id_nonexistent() {
    let manager = DownloadManager::new();
    let fake_id = Uuid::new_v4().as_u128();
    let result = manager.get_by_id(fake_id);
    assert!(result.is_none());
}

#[test]
fn test_has_active_downloads_empty() {
    let manager = DownloadManager::new();
    let has_active = manager.has_active_downloads();
    assert!(!has_active);
}

#[test]
fn test_set_priority_nonexistent_task() {
    let mut manager = DownloadManager::new();
    let fake_id = Uuid::new_v4().as_u128();
    let result = manager.set_priority(fake_id, 100);
    assert!(result.is_err());
}

#[test]
fn a_start_activates_the_folder_up_to_the_limit() {
    let mut manager = DownloadManager::new();
    let a = task("one");
    let b = task("two");
    let (ia, ib) = (a.id, b.id);
    manager.add_download(a);
    manager.add_download(b);
    let (t, resuming) = started(&mut manager, ia);
    assert!(!resuming);
    assert_eq!(t.status, DownloadStatus::Downloading);
    assert_eq!(t.started_at, Some(at(1_000)));
    assert_eq!(
        t.logs[t.logs.len() - 1].message,
        "Starting download: https://example.com/file.zip"
    );
    assert_eq!(manager.get_active_count(), 1);
    assert_eq!(manager.get_downloading_count(), 1);
    assert_eq!(manager.get_folder_counts("one").downloading, 1);
    assert!(matches!(manager.start_download(ia), StartOutcome::Running));
    let outcome = manager.start_download(ib);
    assert_eq!(
        outcome.error(),
        Some(
            "Cannot start download: folder 'two' cannot be activated (1 folders already active, max active folders: 1)"
                .to_string()
        )
    );
    manager.end_download("one");
    assert!(matches!(manager.start_download(ib), StartOutcome::FolderLimit { .. }));
    manager.remove_finished("one", ia);
    manager.end_download("one");
    assert!(matches!(manager.start_download(ib), StartOutcome::Ready(_)));
}

#[test]
fn unknown_downloads_do_not_start() {
    let mut manager = DownloadManager::new();
    let outcome = manager.start_download(7);
    assert!(matches!(outcome, StartOutcome::NotFound));
    assert_eq!(outcome.error(), Some("Task not found".to_string()));
}

#[test]
fn blocked_domains_do_not_start() {
    let mut manager = DownloadManager::with_retry_settings(1, 5);
    let mut ids = Vec::new();
    for _ in 0..6 {
        let t = task("f");
        ids.push(t.id);
        manager.add_download(t);
    }
    for i in 0..5 {
        let (t, _) = started(&mut manager, ids[i]);
        let url = t.url.clone();
        assert!(manager.can_count_failure(&t));
        let (_, decision) = manager.attempt_failed("f", t, "boom".to_string(), &url);
        assert!(matches!(decision, RetryDecision::GiveUp(_)));
    }
    assert_eq!(manager.get_blocked_domains(), vec!["example.com".to_string()]);
    let outcome = manager.start_download(ids[5]);
    assert_eq!(
        outcome.error(),
        Some(
            "Circuit breaker open for domain 'example.com'. Too many consecutive failures."
                .to_string()
        )
    );
    manager.reset_circuit("example.com");
    assert!(matches!(manager.start_download(ids[5]), StartOutcome::Ready(_)));
    manager.reset_all_circuits();
    assert!(manager.get_blocked_domains().is_empty());
}

#[test]
fn failures_are_retried_with_a_growing_delay() {
    let mut manager = DownloadManager::with_retry_settings(3, 5);
    let t = task("f");
    let id = t.id;
    manager.add_download(t);
    let (t, _) = started(&mut manager, id);
    let (t, d) = manager.attempt_failed_at("f", t, "e1".to_string(), None, at(10), 0);
    assert!(matches!(d, RetryDecision::Retry { seconds: 5 }));
    assert_eq!(t.status, DownloadStatus::Paused);
    assert_eq!(t.logs[t.logs.len() - 2].message, "Download failed (attempt 1): e1");
    assert_eq!(t.logs[t.logs.len() - 1].message, "Retrying in 5 seconds...");
    let t = manager.retry("f", t);
    assert_eq!(t.status, DownloadStatus::Downloading);
    assert_eq!(t.error_message, None);
    let (t, d) = manager.attempt_failed_at("f", t, "e2".to_string(), None, at(20), 0);
    assert!(matches!(d, RetryDecision::Retry { seconds: 10 }));
    let t = manager.retry("f", t);
    let (t, d) = manager.attempt_failed_at("f", t, "e3".to_string(), None, at(30), 0);
    match d {
        RetryDecision::GiveUp(c) => {
            assert_eq!(c.error, "e3");
            assert_eq!(c.retry_count, 3);
            assert_eq!(c.filename, Some("file.zip".to_string()));
        }
        _ => panic!("three failures are enough"),
    }
    assert_eq!(t.status, DownloadStatus::Error);
    assert_eq!(t.logs[t.logs.len() - 1].message, "Max retries (3) exceeded");
    assert_eq!(t.logs[t.logs.len() - 1].level, LogLevel::Error);
    assert_eq!(manager.get_by_id(id).unwrap().status, DownloadStatus::Error);
}

#[test]
fn delays_double() {
    assert_eq!(backoff_seconds(5, 1), 5);
    assert_eq!(backoff_seconds(5, 2), 10);
    assert_eq!(backoff_seconds(5, 5), 80);
    assert_eq!(backoff_seconds(0, 40), 0);
}

#[test]
fn delays_that_do_not_fit_are_told() {
    let manager = DownloadManager::with_retry_settings(200, u64::MAX / 2);
    let mut t = task("f");
    assert!(manager.can_count_failure(&t));
    t.retry_count = 2;
    assert!(!manager.can_count_failure(&t));
    t.retry_count = 300;
    assert!(manager.can_count_failure(&t));
    t.retry_count = u32::MAX;
    assert!(!manager.can_count_failure(&t));
}

#[test]
fn success_is_recorded_for_the_domain() {
    let mut manager = DownloadManager::with_retry_settings(1, 5);
    let t = task("f");
    let id = t.id;
    manager.add_download(t);
    let (t, _) = started(&mut manager, id);
    let url = t.url.clone();
    manager.attempt_failed("f", t, "x".to_string(), &url);
    assert_eq!(manager.circuit_breaker().get_status("example.com").1, 1);
    manager.attempt_succeeded(&url);
    assert_eq!(manager.circuit_breaker().get_status("example.com").1, 0);
}

#[test]
fn scripts_may_change_the_first_request() {
    let mut manager = DownloadManager::new();
    let t = task("f");
    let id = t.id;
    manager.add_download(t);
    let t = match manager.start_download(id) {
        StartOutcome::Ready(t) => t,
        _ => panic!("the download does not start"),
    };
    let context = DownloadManager::before_request_context(&t);
    assert_eq!(context.url, "https://example.com/file.zip");
    assert_eq!(context.download_id, Some(Uuid::from_u128(id).to_string()));
    let mut headers = TextMap::new();
    headers.insert("X".to_string(), "1".to_string());
    let changed = BeforeRequestContext {
        url: "https://mirror.example.com/file.zip".to_string(),
        headers,
        user_agent: Some("UA".to_string()),
        download_id: None,
    };
    let (t, _) = manager.launch(t, Some(changed), at(5));
    assert_eq!(t.url, "https://mirror.example.com/file.zip");
    assert_eq!(t.headers.get("X"), Some(&"1".to_string()));
    assert_eq!(t.user_agent, Some("UA".to_string()));
    assert_eq!(t.logs[t.logs.len() - 2].message, "beforeRequest hook executed");
}

#[test]
fn pausing_and_resuming() {
    let mut manager = DownloadManager::new();
    let t = task("f");
    let id = t.id;
    manager.add_download(t);
    started(&mut manager, id);
    assert_eq!(manager.pause_all(), 1);
    assert_eq!(manager.get_by_id(id).unwrap().status, DownloadStatus::Paused);
    assert!(!manager.has_active_downloads());
    assert_eq!(manager.get_paused_count(), 1);
    assert_eq!(manager.resumable_ids(), vec![id]);
    let (_, resuming) = started(&mut manager, id);
    assert!(resuming);
    assert_eq!(manager.stop_folder_tasks("f"), 1);
    assert_eq!(manager.stop_folder_tasks("absent"), 0);
    assert_eq!(manager.stop_all_tasks(), 0);
}

#[test]
fn waiting_downloads_are_listed() {
    let mut manager = DownloadManager::new();
    let a = task("f");
    let b = task("g");
    let (ia, ib) = (a.id, b.id);
    manager.add_download(a);
    manager.add_download(b);
    assert_eq!(manager.pending_ids(), vec![ia, ib]);
    assert_eq!(manager.folder_pending_ids("g"), vec![ib]);
    assert!(manager.folder_pending_ids("h").is_empty());
    assert_eq!(manager.get_folder_downloads("f").len(), 1);
    assert!(manager.get_folder_downloads("h").is_empty());
}

#[test]
fn limits_are_lowered_to_fit() {
    let mut manager = DownloadManager::with_config(10, 6, 2, 3, 5);
    for name in ["a", "b", "c"] {
        let t = task(name);
        manager.add_download(t);
    }
    let ids = manager.pending_ids();
    assert!(matches!(manager.start_download(ids[0]), StartOutcome::Ready(_)));
    assert!(matches!(manager.start_download(ids[1]), StartOutcome::Ready(_)));
    assert!(matches!(manager.start_download(ids[2]), StartOutcome::FolderLimit { .. }));
}

#[test]
fn folders_can_be_renamed() {
    let mut manager = DownloadManager::new();
    let a = task("old");
    let b = task("old");
    let (ia, ib) = (a.id, b.id);
    manager.add_download(a);
    manager.add_download(b);
    manager.rename_folder("old", "new");
    assert!(manager.get_folder_downloads("old").is_empty());
    let moved = manager.get_folder_downloads("new");
    assert_eq!(moved.len(), 2);
    assert_eq!(moved[0].id, ia);
    assert_eq!(moved[1].id, ib);
    assert_eq!(moved[0].folder_id, "new");
    assert_eq!(manager.get_folder_counts("new").pending, 2);
    manager.rename_folder("absent", "x");
    assert_eq!(manager.get_all_downloads().len(), 2);
}

#[test]
fn places_change_only_for_downloads_at_rest() {
    let mut manager = DownloadManager::new();
    let t = task("f");
    let id = t.id;
    manager.add_download(t);
    assert!(manager.change_save_path(id, path(&["/", "new"])).is_ok());
    assert_eq!(manager.get_by_id(id).unwrap().save_path, path(&["/", "new"]));
    started(&mut manager, id);
    assert_eq!(
        manager.change_save_path(id, path(&["/"])),
        Err("Cannot change path of active or completed download".to_string())
    );
    assert_eq!(manager.change_save_path(1, path(&["/"])), Err("Task not found".to_string()));
}

#[test]
fn the_history_is_kept_apart() {
    let mut manager = DownloadManager::new();
    let mut t = task("f");
    t.status = DownloadStatus::Error;
    t.downloaded = 9;
    t.retry_count = 2;
    let id = t.id;
    manager.add_to_history(t);
    assert_eq!(manager.history_len(), 1);
    assert_eq!(manager.get_history().len(), 1);
    assert!(manager.get_history_item(id).is_some());
    assert!(manager.move_from_history_to_queue(id, Some("g".to_string())).is_ok());
    let back = manager.get_by_id(id).unwrap();
    assert_eq!(back.status, DownloadStatus::Pending);
    assert_eq!(back.downloaded, 0);
    assert_eq!(back.retry_count, 0);
    assert_eq!(back.folder_id, "g");
    assert!(back.logs.is_empty());
    assert_eq!(
        manager.move_from_history_to_queue(id, None),
        Err("History item not found".to_string())
    );
    let mut h = DownloadHistory::new();
    h.add(task("x"));
    manager.load_history(h);
    assert_eq!(manager.history_len(), 1);
    assert!(manager.remove_from_history(1).is_none());
    manager.clear_history();
    assert_eq!(manager.history_len(), 0);
}

#[test]
fn queues_can_be_loaded_and_ordered() {
    let mut manager = DownloadManager::new();
    let tasks = vec![task("f"), task("f"), task("g")];
    let ids: Vec<u128> = tasks.iter().map(|t| t.id).collect();
    manager.load_queue(tasks);
    assert_eq!(manager.get_all_downloads().len(), 3);
    assert!(manager.move_to_top(ids[1]).is_ok());
    assert_eq!(manager.get_folder_downloads("f")[0].id, ids[1]);
    assert!(manager.move_to_bottom(ids[1]).is_ok());
    assert!(manager.move_before(ids[1], ids[0]).is_ok());
    assert_eq!(manager.get_folder_downloads("f")[0].id, ids[1]);
    assert_eq!(manager.move_before(ids[2], ids[0]), Err("Download not found".to_string()));
    assert!(manager.set_priority(ids[2], 9).is_ok());
    assert_eq!(manager.get_by_id(ids[2]).unwrap().priority, 9);
    assert!(manager.change_folder(ids[2], "f".to_string()).is_ok());
    assert_eq!(manager.get_folder_downloads("f").len(), 3);
    assert!(manager.remove_download(ids[2]).is_some());
    assert!(manager.get_by_id(ids[2]).is_none());
}

#[test]
fn progress_is_stored() {
    let mut manager = DownloadManager::new();
    let t = task("f");
    let id = t.id;
    manager.add_download(t);
    manager.record_progress("f", id, 10, None);
    assert_eq!(manager.get_by_id(id).unwrap().downloaded, 10);
    assert_eq!(manager.get_by_id(id).unwrap().size, None);
    manager.record_progress("f", id, 20, Some(100));
    assert_eq!(manager.get_by_id(id).unwrap().size, Some(100));
    manager.record_progress("g", id, 99, None);
    assert_eq!(manager.get_by_id(id).unwrap().downloaded, 20);
    manager.remove_finished("f", id);
    assert!(manager.get_by_id(id).is_none());
}

#[test]
fn progress_is_passed_on_twice_a_second() {
    assert!(!progress_due(499, 0));
    assert!(progress_due(500, 0));
    assert!(!progress_due(3, 400));
}

#[test]
fn the_limit_of_a_folder_fits_the_limit_of_all() {
    assert_eq!(DownloadManager::with_config(10, 6, 2, 3, 5).max_concurrent_per_folder(), 5);
    assert_eq!(DownloadManager::with_config(10, 5, 2, 3, 5).max_concurrent_per_folder(), 5);
}

#[test]
fn a_paused_download_is_counted_once() {
    let mut manager = DownloadManager::with_config(10, 6, 1, 3, 5);
    let a = task("f");
    let b = task("f");
    let (ia, ib) = (a.id, b.id);
    manager.add_download(a);
    manager.add_download(b);
    started(&mut manager, ia);
    started(&mut manager, ib);
    assert_eq!(manager.get_folder_counts("f").downloading, 2);
    manager.pause_download(ia);
    assert_eq!(manager.get_folder_counts("f").downloading, 1);
    assert_eq!(manager.get_downloading_count(), 1);
    manager.end_download("f");
    assert_eq!(manager.get_folder_counts("f").downloading, 1);
    assert!(manager.has_active_downloads());
}

fn half_open_manager(ids: &mut Vec<u128>) -> DownloadManager {
    let mut manager = DownloadManager::with_retry_settings(1, 5);
    for _ in 0..4 {
        let t = task("f");
        ids.push(t.id);
        manager.add_download(t);
    }
    for _ in 0..5 {
        let t = task("f");
        manager.attempt_failed_at("f", t, "e".to_string(), Some("d".to_string()), at(1), 0);
    }
    manager
}

fn start_at(manager: &mut DownloadManager, id: u128, secs: u128) -> StartOutcome {
    manager.start_download_at(id, Some("d".to_string()), secs * 1_000_000_000)
}

#[test]
fn one_download_tests_a_domain() {
    let mut ids = Vec::new();
    let mut manager = half_open_manager(&mut ids);
    assert!(matches!(start_at(&mut manager, ids[0], 59), StartOutcome::Blocked(_)));
    assert!(matches!(start_at(&mut manager, ids[0], 60), StartOutcome::Ready(_)));
    assert!(matches!(start_at(&mut manager, ids[1], 61), StartOutcome::Blocked(_)));
    let outcome = start_at(&mut manager, ids[1], 61);
    assert_eq!(
        outcome.error(),
        Some("Circuit breaker open for domain 'd'. Too many consecutive failures.".to_string())
    );
    manager.attempt_succeeded_at(Some("d".to_string()), 62_000_000_000);
    assert!(matches!(start_at(&mut manager, ids[1], 63), StartOutcome::Ready(_)));
    assert!(matches!(start_at(&mut manager, ids[2], 63), StartOutcome::Ready(_)));
}

#[test]
fn a_test_ends_when_its_download_stops() {
    let mut ids = Vec::new();
    let mut manager = half_open_manager(&mut ids);
    assert!(matches!(start_at(&mut manager, ids[0], 60), StartOutcome::Ready(_)));
    manager.pause_download(ids[1]);
    assert!(matches!(start_at(&mut manager, ids[1], 61), StartOutcome::Blocked(_)));
    manager.pause_download(ids[0]);
    assert!(matches!(start_at(&mut manager, ids[1], 61), StartOutcome::Ready(_)));
    manager.remove_download(ids[1]);
    assert!(matches!(start_at(&mut manager, ids[2], 61), StartOutcome::Ready(_)));
    manager.remove_finished("f", ids[2]);
    assert!(matches!(start_at(&mut manager, ids[3], 61), StartOutcome::Ready(_)));
    manager.reset_circuit("d");
    assert!(matches!(start_at(&mut manager, ids[0], 61), StartOutcome::Ready(_)));
}

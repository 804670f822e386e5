use ggg::clock::{elapsed_millis, in_calendar, to_unix_millis, Moment};
use ggg::download::completion_log::{
    completion_log_name, current_completion_log, CompletedEntry,
};
use ggg::download::folder_queue::{FolderQueue, FolderTaskCounts};
use ggg::download::history::DownloadHistory;
use ggg::download::queue::DownloadQueue;
use ggg::download::task::{format_duration, DownloadStatus, DownloadTask, LogEntry, LogLevel};
use ggg::app::config::{Config, FolderConfig};
use ggg::file::path::SavePath;

fn path(parts: &[&str]) -> SavePath {
    SavePath::new(parts.iter().map(|p| p.to_string()).collect())
}

fn task_with(status: DownloadStatus) -> DownloadTask {
    let mut task =
        DownloadTask::new("https://example.com/file.txt".to_string(), path(&["/", "tmp"]));
    task.status = status;
    task.folder_id = "test-folder".to_string();
    task
}

fn task_of(url: &str) -> DownloadTask {
    DownloadTask::new(url.to_string(), path(&["/", "tmp"]))
}

fn queue() -> FolderQueue {
    FolderQueue::new("test-folder".to_string(), 3)
}

#[test]
fn test_folder_queue_new() {
    let queue = queue();
    assert_eq!(queue.folder_id(), "test-folder");
    assert!(queue.is_empty());
}

#[test]
fn test_folder_queue_add_and_get() {
    let mut queue = queue();
    let task = task_with(DownloadStatus::Pending);
    let task_id = task.id;

    queue.add(task);

    assert_eq!(queue.len(), 1);
    assert!(!queue.is_empty());
    let retrieved = queue.get_by_id(task_id);
    assert!(retrieved.is_some());
    assert_eq!(retrieved.unwrap().id, task_id);
}

#[test]
fn test_folder_queue_counts() {
    let mut queue = queue();
    queue.add(task_with(DownloadStatus::Pending));
    queue.add(task_with(DownloadStatus::Pending));
    queue.add(task_with(DownloadStatus::Downloading));
    queue.add(task_with(DownloadStatus::Completed));

    let counts = queue.get_counts();
    assert_eq!(counts.pending, 2);
    assert_eq!(counts.downloading, 1);
    assert!(counts.has_active_tasks());
}

#[test]
fn test_folder_queue_remove() {
    let mut queue = queue();
    let task = task_with(DownloadStatus::Pending);
    let task_id = task.id;

    queue.add(task);
    assert_eq!(queue.pending_count(), 1);

    let removed = queue.remove(task_id);
    assert!(removed.is_some());
    assert_eq!(queue.pending_count(), 0);
    assert!(queue.is_empty());
}

#[test]
fn test_folder_queue_update_status() {
    let mut queue = queue();
    let mut task = task_with(DownloadStatus::Pending);

    queue.add(task.clone());
    assert_eq!(queue.pending_count(), 1);
    assert_eq!(queue.downloading_count(), 0);

    task.status = DownloadStatus::Downloading;
    queue.update(task.clone());
    assert_eq!(queue.pending_count(), 0);
    assert_eq!(queue.downloading_count(), 1);

    task.status = DownloadStatus::Completed;
    queue.update(task);
    assert_eq!(queue.pending_count(), 0);
    assert_eq!(queue.downloading_count(), 0);
}

#[test]
fn test_folder_queue_next_pending() {
    let mut queue = queue();
    let mut task1 = task_with(DownloadStatus::Pending);
    task1.priority = 1;
    let mut task2 = task_with(DownloadStatus::Pending);
    task2.priority = 5;
    let mut task3 = task_with(DownloadStatus::Pending);
    task3.priority = 3;

    queue.add(task1);
    queue.add(task2.clone());
    queue.add(task3);

    let next = queue.next_pending();
    assert!(next.is_some());
    assert_eq!(next.unwrap().priority, 5);
}

#[test]
fn test_folder_queue_move_operations() {
    let mut queue = queue();
    let task1 = task_with(DownloadStatus::Pending);
    let task2 = task_with(DownloadStatus::Pending);
    let task3 = task_with(DownloadStatus::Pending);
    let id1 = task1.id;
    let id3 = task3.id;

    queue.add(task1);
    queue.add(task2);
    queue.add(task3);

    assert!(queue.move_to_top(id3));
    let all = queue.get_all();
    assert_eq!(all[0].id, id3);

    assert!(queue.move_to_bottom(id3));
    let all = queue.get_all();
    assert_eq!(all[2].id, id3);

    assert!(queue.move_before(id3, id1));
    let all = queue.get_all();
    assert_eq!(all[0].id, id3);
    assert_eq!(all[1].id, id1);
}

#[test]
fn test_folder_task_counts_operations() {
    let counts = FolderTaskCounts::default();
    assert_eq!(counts.pending, 0);
    assert_eq!(counts.downloading, 0);
    assert!(!counts.has_active_tasks());
    assert_eq!(counts.total(), 0);

    let counts = FolderTaskCounts { pending: 3, downloading: 2 };
    assert!(counts.has_active_tasks());
    assert_eq!(counts.total(), 5);
}

#[test]
fn test_folder_queue_rebuild_counts() {
    let mut queue = queue();
    queue.add(task_with(DownloadStatus::Pending));
    queue.add(task_with(DownloadStatus::Pending));
    queue.add(task_with(DownloadStatus::Downloading));

    queue.counts.pending = 100;
    queue.counts.downloading = 50;

    queue.rebuild_counts();

    let counts = queue.get_counts();
    assert_eq!(counts.pending, 2);
    assert_eq!(counts.downloading, 1);
}

#[test]
fn equal_priorities_start_with_the_last() {
    let mut queue = queue();
    let a = task_with(DownloadStatus::Pending);
    let b = task_with(DownloadStatus::Pending);
    let last = b.id;
    queue.add(a);
    queue.add(b);
    assert_eq!(queue.next_pending().unwrap().id, last);
    assert!(queue.set_priority(last, -1));
    assert_ne!(queue.next_pending().unwrap().id, last);
    assert!(!queue.set_priority(0, 1));
}

#[test]
fn a_task_does_not_move_before_itself() {
    let mut queue = queue();
    let a = task_with(DownloadStatus::Pending);
    let id = a.id;
    queue.add(a);
    assert!(!queue.move_before(id, id));
    assert!(!queue.move_to_top(1));
    assert!(!queue.move_to_bottom(1));
    queue.decrement_pending();
    queue.decrement_pending();
    assert_eq!(queue.pending_count(), 0);
    queue.increment_downloading();
    assert_eq!(queue.downloading_count(), 1);
}

#[test]
fn replaced_tasks_are_counted_anew() {
    let mut queue = queue();
    queue.add(task_with(DownloadStatus::Pending));
    queue.replace_tasks(vec![
        task_with(DownloadStatus::Downloading),
        task_with(DownloadStatus::Downloading),
    ]);
    assert_eq!(queue.get_counts(), FolderTaskCounts { pending: 0, downloading: 2 });
    assert!(queue.get_pending_tasks().is_empty());
}

#[test]
fn test_history_new() {
    let history = DownloadHistory::new();
    assert!(history.is_empty());
    assert_eq!(history.len(), 0);
}

#[test]
fn test_history_add_and_get() {
    let mut history = DownloadHistory::new();
    let task = task_with(DownloadStatus::Completed);
    let id = task.id;

    history.add(task);

    assert_eq!(history.len(), 1);
    assert!(history.get(id).is_some());
}

#[test]
fn test_history_no_duplicates() {
    let mut history = DownloadHistory::new();
    let task = task_with(DownloadStatus::Completed);
    let id = task.id;

    history.add(task.clone());
    history.add(task);

    assert_eq!(history.len(), 1);
    assert!(history.get(id).is_some());
}

#[test]
fn test_history_remove() {
    let mut history = DownloadHistory::new();
    let task = task_with(DownloadStatus::Completed);
    let id = task.id;

    history.add(task);
    let removed = history.remove(id);

    assert!(removed.is_some());
    assert!(history.is_empty());
}

#[test]
fn test_history_clear() {
    let mut history = DownloadHistory::new();
    history.add(task_with(DownloadStatus::Completed));
    history.add(task_with(DownloadStatus::Error));

    assert_eq!(history.len(), 2);

    history.clear();

    assert!(history.is_empty());
}

#[test]
fn test_queue_new_empty() {
    let queue = DownloadQueue::new();
    assert_eq!(queue.get_all().len(), 0);
}

#[test]
fn test_queue_add_single() {
    let mut queue = DownloadQueue::new();
    let task = task_of("http://example.com/file.zip");
    let task_id = task.id;

    queue.add(task);

    let tasks = queue.get_all();
    assert_eq!(tasks.len(), 1);
    assert_eq!(tasks[0].id, task_id);
}

#[test]
fn test_queue_add_multiple() {
    let mut queue = DownloadQueue::new();
    let task1 = task_of("http://example.com/file1.zip");
    let task2 = task_of("http://example.com/file2.zip");
    let id1 = task1.id;
    let id2 = task2.id;

    queue.add(task1);
    queue.add(task2);

    let tasks = queue.get_all();
    assert_eq!(tasks.len(), 2);
    assert_eq!(tasks[0].id, id1);
    assert_eq!(tasks[1].id, id2);
}

#[test]
fn test_queue_get_all() {
    let mut queue = DownloadQueue::new();
    queue.add(task_of("http://example.com/file1.zip"));
    queue.add(task_of("http://example.com/file2.zip"));
    queue.add(task_of("http://example.com/file3.zip"));
    assert_eq!(queue.get_all().len(), 3);
}

#[test]
fn test_queue_get_by_id_found() {
    let mut queue = DownloadQueue::new();
    let task = task_of("http://example.com/file.zip");
    let task_id = task.id;

    queue.add(task);

    let found = queue.get_by_id(task_id);
    assert!(found.is_some());
    assert_eq!(found.unwrap().id, task_id);
}

#[test]
fn test_queue_get_by_id_not_found() {
    let mut queue = DownloadQueue::new();
    queue.add(task_of("http://example.com/file.zip"));

    let nonexistent_id = uuid::Uuid::new_v4().as_u128();
    assert!(queue.get_by_id(nonexistent_id).is_none());
}

#[test]
fn test_queue_remove_existing() {
    let mut queue = DownloadQueue::new();
    let task = task_of("http://example.com/file.zip");
    let task_id = task.id;

    queue.add(task);

    let removed = queue.remove(task_id);
    assert!(removed.is_some());
    assert_eq!(removed.unwrap().id, task_id);
    assert_eq!(queue.get_all().len(), 0);
}

#[test]
fn test_queue_remove_nonexistent() {
    let mut queue = DownloadQueue::new();
    queue.add(task_of("http://example.com/file.zip"));

    let nonexistent_id = uuid::Uuid::new_v4().as_u128();
    assert!(queue.remove(nonexistent_id).is_none());
    assert_eq!(queue.get_all().len(), 1);
}

#[test]
fn test_queue_update_existing() {
    let mut queue = DownloadQueue::new();
    let mut task = task_of("http://example.com/file.zip");
    let task_id = task.id;

    queue.add(task.clone());
    task.downloaded = 1024;
    queue.update(task);

    let updated = queue.get_by_id(task_id).unwrap();
    assert_eq!(updated.downloaded, 1024);
}

#[test]
fn test_queue_update_nonexistent() {
    let mut queue = DownloadQueue::new();
    let task = task_of("http://example.com/file.zip");

    queue.update(task.clone());

    assert_eq!(queue.get_all().len(), 0);
}

#[test]
fn test_queue_update_preserves_order() {
    let mut queue = DownloadQueue::new();
    let task1 = task_of("http://example.com/file1.zip");
    let mut task2 = task_of("http://example.com/file2.zip");
    let task3 = task_of("http://example.com/file3.zip");
    let id1 = task1.id;
    let id2 = task2.id;
    let id3 = task3.id;

    queue.add(task1);
    queue.add(task2.clone());
    queue.add(task3);

    task2.downloaded = 5000;
    queue.update(task2);

    let tasks = queue.get_all();
    assert_eq!(tasks.len(), 3);
    assert_eq!(tasks[0].id, id1);
    assert_eq!(tasks[1].id, id2);
    assert_eq!(tasks[2].id, id3);
    assert_eq!(tasks[1].downloaded, 5000);
}

#[test]
fn tasks_are_sorted_by_folder() {
    let mut queue = DownloadQueue::new();
    let mut a = task_of("http://example.com/a");
    a.folder_id = "x".to_string();
    let mut b = task_of("http://example.com/b");
    b.folder_id = "y".to_string();
    let mut c = task_of("http://example.com/c");
    c.folder_id = "x".to_string();
    queue.replace_all(vec![a, b, c]);
    let groups = queue.by_folder();
    assert_eq!(groups.len(), 2);
    assert_eq!(groups.get("x").unwrap().len(), 2);
    assert_eq!(groups.get("y").unwrap().len(), 1);
    assert!(queue.uses_folder("x"));
    assert!(!queue.uses_folder("z"));
    let stale = queue.stale_folders(&vec!["x".to_string(), "z".to_string()]);
    assert_eq!(stale, vec!["z".to_string()]);
}

#[test]
fn test_completed_entry_from_task() {
    let mut task =
        DownloadTask::new("https://example.com/file.zip".to_string(), path(&["/", "downloads"]));
    task.size = Some(1024000);
    task.downloaded = 1024000;
    task.status = DownloadStatus::Completed;
    let at = |secs: i64, nanos: u32| Some(Moment { secs, nanos });
    task.started_at = at(100, 999_999_999);
    task.completed_at = at(102, 500_000_000);
    task.last_status_code = Some(200);

    let entry = CompletedEntry::from_task(&task);

    assert_eq!(entry.id, task.id);
    assert_eq!(entry.url, "https://example.com/file.zip");
    assert_eq!(entry.filename, "file.zip");
    assert_eq!(entry.folder_id, "default");
    assert_eq!(entry.size, Some(1024000));
    assert_eq!(entry.status, "completed");
    assert!(entry.duration_ms.is_some());
    assert_eq!(entry.duration_ms, Some(1500));
}

#[test]
fn completion_logs_are_named_by_the_day() {
    assert_eq!(completion_log_name(Moment { secs: 0, nanos: 0 }), "19700101.jsonl");
    assert_eq!(completion_log_name(Moment { secs: 1_768_053_096, nanos: 643_000_000 }), "20260110.jsonl");
    assert_eq!(current_completion_log().len(), "20260110.jsonl".len());
}

#[test]
fn durations_are_shown_in_two_units() {
    assert_eq!(format_duration(0), "0s");
    assert_eq!(format_duration(59), "59s");
    assert_eq!(format_duration(60), "1m");
    assert_eq!(format_duration(61), "1m 1s");
    assert_eq!(format_duration(3600), "1h");
    assert_eq!(format_duration(8100), "2h 15m");
}

#[test]
fn new_tasks_have_random_ids_and_a_log() {
    let a = task_of("https://example.com/a/b.txt");
    let b = task_of("https://example.com/a/b.txt");
    assert_ne!(a.id, b.id);
    assert_eq!(a.filename, "b.txt");
    assert_eq!(a.logs.len(), 1);
    assert_eq!(a.logs[0].message, "Download task created");
    assert_eq!(a.logs[0].level, LogLevel::Info);
    assert_eq!(a.remaining_bytes(), None);
}

#[test]
fn tasks_take_over_the_defaults_of_their_folders() {
    let mut config = Config::default_in(path(&["/", "d"]), path(&["/", "s"]));
    let mut folder = FolderConfig::new_with_name("Images".to_string(), path(&["/", "i"]));
    folder.user_agent = Some("UA".to_string());
    folder.default_headers.insert("Referer".to_string(), "r".to_string());
    config.folders.insert("images".to_string(), folder);

    let t = DownloadTask::new_with_folder(
        "https://e.com/x".to_string(),
        "images".to_string(),
        &config,
    );
    assert_eq!(t.save_path, path(&["/", "i"]));
    assert_eq!(t.user_agent, Some("UA".to_string()));
    assert_eq!(t.headers.get("Referer"), Some(&"r".to_string()));
    assert_eq!(t.logs[0].message, "Download task created in folder 'images'");

    let u =
        DownloadTask::new_with_folder("https://e.com/x".to_string(), "none".to_string(), &config);
    assert_eq!(u.save_path, path(&["/", "d"]));
    assert_eq!(u.user_agent, None);
    assert!(u.headers.is_empty());
}

#[test]
fn log_entries_have_levels() {
    assert_eq!(LogEntry::info("a".to_string()).level, LogLevel::Info);
    assert_eq!(LogEntry::warn("a".to_string()).level, LogLevel::Warn);
    assert_eq!(LogEntry::error("a".to_string()).level, LogLevel::Error);
    let mut t = task_of("https://e.com/x");
    t.log_info("i".to_string());
    t.log_warn("w".to_string());
    t.log_error("e".to_string());
    assert_eq!(t.logs[3].message, "e");
    assert_eq!(t.logs[2].level, LogLevel::Warn);
}

#[test]
fn remaining_bytes_need_a_running_download_of_known_size() {
    let mut t = task_of("https://e.com/x");
    t.status = DownloadStatus::Downloading;
    assert_eq!(t.remaining_bytes(), None);
    t.size = Some(10);
    t.downloaded = 4;
    assert_eq!(t.remaining_bytes(), Some(6));
    t.downloaded = 14;
    assert_eq!(t.remaining_bytes(), Some(0));
}

#[test]
fn milliseconds_are_counted_whole() {
    let at = |secs: i64, nanos: u32| Moment { secs, nanos };
    assert_eq!(elapsed_millis(at(0, 500_000), at(2, 400_000)), 1_999);
    assert_eq!(elapsed_millis(at(2, 400_000), at(0, 500_000)), -1_999);
    assert_eq!(elapsed_millis(at(1, 999_999), at(1, 0)), 0);
    assert!(in_calendar(at(8_210_266_876_799, 999_999_999)));
    assert!(!in_calendar(at(8_210_266_876_800, 0)));
    assert!(in_calendar(at(-8_334_601_228_800, 0)));
    assert!(!in_calendar(at(-8_334_601_228_801, 0)));
    assert!(!in_calendar(at(0, 1_000_000_000)));
    assert!(in_calendar(at(59, 1_999_999_999)));
    assert!(in_calendar(at(-1, 1_000_000_000)));
    assert!(!in_calendar(at(59, 2_000_000_000)));
    assert_eq!(to_unix_millis(at(-1, 999_999_999)), -1);
    assert_eq!(to_unix_millis(at(1_768_053_096, 643_999_999)), 1_768_053_096_643);
}

#[test]
fn leap_seconds_are_counted_as_by_the_calendar() {
    let moments = [
        Moment { secs: 59, nanos: 1_500_000_000 },
        Moment { secs: 60, nanos: 250_000_000 },
        Moment { secs: -1, nanos: 1_999_999_999 },
        Moment { secs: -2, nanos: 999_999_999 },
        Moment { secs: 86_399, nanos: 1_000_000_000 },
        Moment { secs: 86_400, nanos: 0 },
        Moment { secs: 1_483_228_799, nanos: 1_700_000_001 },
        Moment { secs: 1_483_228_800, nanos: 3 },
    ];
    for a in moments {
        for b in moments {
            let time = |m: Moment| chrono::DateTime::from_timestamp(m.secs, m.nanos).unwrap();
            assert!(in_calendar(a));
            assert_eq!(elapsed_millis(a, b), (time(b) - time(a)).num_milliseconds());
            assert_eq!(to_unix_millis(a), time(a).timestamp_millis());
        }
    }
}

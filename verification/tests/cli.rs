use ggg::app::config::{Config, FolderConfig};
use ggg::cli::batch::{
    clear, list_scripts, move_download, parse_statuses, pause_running, pick_ids, queue_url,
    read_target, reset_queue, sample_url, startable_ids, trial_event, wait_on, MoveTarget, Wait,
};
use ggg::cli::bridge::{manifest_dir, plan_install, resolve_bridge_path};
use ggg::cli::config::{get_config_value, set_config_value, ConfigValue};
use ggg::cli::folder::{
    create_folder, delete_folder, resolve_folder_id, set_folder_value, set_script_enabled,
};
use ggg::cli::handler::{
    batch_urls, filled_lines, is_valid_download_url, last_lines_with, latest_log, line_of_level,
    parse_task_id, select_log_lines,
};
use ggg::cli::output::{format_bytes, format_download, format_downloads};
use ggg::cli::report::{
    completion_logs, config_issues, count_outcomes, entries_of_folder, queue_issues, queue_stats,
    queue_stats_of, show_entry, show_stats, tasks_of_folder,
};
use ggg::cli::show::{
    folder_slots, show_folder, show_folders, show_slots, show_state, show_task, ShownTimes,
};
use ggg::clock::Moment;
use ggg::download::completion_log::CompletedEntry;
use ggg::download::manager::{DownloadManager, StartOutcome};
use ggg::download::task::{DownloadStatus, DownloadTask};
use ggg::file::path::SavePath;
use ggg::script::events::HookEvent;
use ggg::text_map::TextMap;
use uuid::Uuid;

fn path(parts: &[&str]) -> SavePath {
    SavePath::new(parts.iter().map(|p| p.to_string()).collect())
}

fn config() -> Config {
    Config::default_in(path(&["/", "downloads"]), path(&["/", "scripts"]))
}

fn strings(texts: &[&str]) -> Vec<String> {
    texts.iter().map(|t| t.to_string()).collect()
}

fn task(folder: &str, status: DownloadStatus) -> DownloadTask {
    let mut t =
        DownloadTask::new("https://example.com/file.zip".to_string(), path(&["/", "tmp"]));
    t.folder_id = folder.to_string();
    t.status = status;
    t
}

fn entry(folder: &str, status: &str) -> CompletedEntry {
    let mut e = CompletedEntry::from_task(&task(folder, DownloadStatus::Completed));
    e.status = status.to_string();
    e
}

fn shown(config: &Config, key: &str) -> String {
    match get_config_value(config, key) {
        Ok(ConfigValue::Text(s)) => s,
        Ok(ConfigValue::Path(p)) => p.components.join("|"),
        Err(e) => e,
    }
}

#[test]
fn sizes_are_shown_in_the_largest_unit() {
    assert_eq!(format_bytes(0), "0 B");
    assert_eq!(format_bytes(1023), "1023 B");
    assert_eq!(format_bytes(1024), "1.00 KB");
    assert_eq!(format_bytes(1536), "1.50 KB");
    assert_eq!(format_bytes(1_048_576), "1.00 MB");
    assert_eq!(format_bytes(5_368_709_120), "5.00 GB");
}

#[test]
fn sizes_are_rounded_as_floating_point_is_shown() {
    let kb: u64 = 1024;
    let samples = vec![
        1152, 1408, 1664, 1025, 1029, 10_239, 1_048_575, 1_047_552, 999_999, 1_234_567_890,
        1_073_741_823, 1_073_741_824, 1_078_984_704, 9_007_199_254_740_993, 9_007_199_254_740_995,
        u64::MAX, u64::MAX - 1023, u64::MAX / 3, 1_152_921_504_606_846_977,
    ];
    for n in samples {
        let expected = if n >= kb * kb * kb {
            format!("{:.2} GB", n as f64 / (kb * kb * kb) as f64)
        } else if n >= kb * kb {
            format!("{:.2} MB", n as f64 / (kb * kb) as f64)
        } else {
            format!("{:.2} KB", n as f64 / kb as f64)
        };
        assert_eq!(format_bytes(n), expected);
    }
}

#[test]
fn downloads_are_shown() {
    let mut t = task("f", DownloadStatus::Paused);
    t.size = Some(2048);
    t.downloaded = 1024;
    t.created_at = Moment { secs: 0, nanos: 0 };
    t.started_at = Some(Moment { secs: 1, nanos: 999_999_999 });
    t.resume_supported = true;
    let id = Uuid::from_u128(t.id).to_string();
    let expected = format!(
        "ID: {}\nURL: https://example.com/file.zip\nFilename: file.zip\nFolder: f\nStatus: Paused\nSize: 2.00 KB\nDownloaded: 1.00 KB\nProgress: 50%\nResume: Supported\nCreated: 1970-01-01 00:00:00\nStarted: 1970-01-01 00:00:01\n",
        id
    );
    assert_eq!(format_download(&t, true, 50), expected);
    assert_eq!(format_download(&t, false, 50), format!("\u{23f8} {} [50%] file.zip", id));
    t.size = None;
    assert_eq!(format_download(&t, false, 0), format!("\u{23f8} {} [1.00 KB] file.zip", id));
    assert_eq!(format_downloads(&Vec::new(), &Vec::new()), "No downloads in queue.");
    let two = format_downloads(&vec![t.clone(), t], &vec![0, 0]);
    assert_eq!(two.lines().count(), 2);
}

#[test]
fn task_ids_are_uuids() {
    let id = Uuid::new_v4();
    assert_eq!(parse_task_id(&id.to_string()), Ok(id.as_u128()));
    assert_eq!(parse_task_id("nope"), Err("Invalid UUID format".to_string()));
}

#[test]
fn only_some_schemes_can_be_downloaded() {
    assert!(is_valid_download_url("http://a/b"));
    assert!(is_valid_download_url("https://a/b"));
    assert!(is_valid_download_url("ftp://a/b"));
    assert!(is_valid_download_url("ftps://a/b"));
    assert!(!is_valid_download_url("file:///a"));
    assert!(!is_valid_download_url("no url"));
    assert!(!is_valid_download_url(""));
}

#[test]
fn settings_are_read_and_set_by_name() {
    let mut c = config();
    assert_eq!(shown(&c, "general.language"), "en");
    assert_eq!(shown(&c, "general.minimize_to_tray"), "true");
    assert_eq!(shown(&c, "download.max_concurrent"), "3");
    assert_eq!(shown(&c, "download.default_directory"), "/|downloads");
    assert_eq!(shown(&c, "general"), "Unknown configuration key: general");
    assert_eq!(shown(&c, "a.b.c"), "Unknown configuration key: a.b.c");
    assert!(set_config_value(&mut c, "download.max_concurrent", "7", Vec::new()).is_ok());
    assert_eq!(c.download.max_concurrent, 7);
    assert!(set_config_value(&mut c, "network.proxy_enabled", "true", Vec::new()).is_ok());
    assert!(c.network.proxy_enabled);
    let components = vec!["/".to_string(), "x".to_string()];
    assert!(set_config_value(&mut c, "scripts.directory", "/./x/", components).is_ok());
    assert_eq!(shown(&c, "scripts.directory"), "/./x/");
    assert_eq!(c.scripts.directory, path(&["/", "x"]));
    assert_eq!(shown(&c, "download.default_directory"), "/|downloads");
    assert!(set_config_value(&mut c, "general.theme", "dark", Vec::new()).is_ok());
    assert_eq!(c.general.theme, "dark");
    assert_eq!(
        set_config_value(&mut c, "nope", "1", Vec::new()),
        Err("Unknown configuration key: nope".to_string())
    );
}

#[test]
fn bad_values_are_refused_in_std_words() {
    let mut c = config();
    let cases = vec![
        ("download.retry_count", ""),
        ("download.retry_count", "x"),
        ("download.retry_count", "-1"),
        ("download.retry_count", "+"),
        ("download.retry_count", "4294967296"),
        ("download.retry_count", "99999999999x"),
    ];
    for (key, value) in cases {
        let expected = value.parse::<u32>().unwrap_err().to_string();
        assert_eq!(set_config_value(&mut c, key, value, Vec::new()), Err(expected));
    }
    assert!(set_config_value(&mut c, "download.retry_count", "+5", Vec::new()).is_ok());
    assert_eq!(c.download.retry_count, "+5".parse::<u32>().unwrap());
    let expected = "yes".parse::<bool>().unwrap_err().to_string();
    assert_eq!(
        set_config_value(&mut c, "scripts.enabled", "yes", Vec::new()),
        Err(expected)
    );
    assert_eq!(
        set_config_value(&mut c, "network.proxy_port", "65536", Vec::new()),
        Err("number too large to fit in target type".to_string())
    );
}

#[test]
fn the_newest_log_is_found() {
    let names = strings(&["app.jsonl.2026-01-09", "other", "app.jsonl.2026-01-10", "20260101.jsonl"]);
    assert_eq!(latest_log(&names), Some("app.jsonl.2026-01-10".to_string()));
    assert_eq!(latest_log(&strings(&["x"])), None);
}

#[test]
fn log_lines_are_selected() {
    let log = "one INFO\r\ntwo WARN\nthree INFO\n\nfour ERROR";
    assert_eq!(select_log_lines(log, Some("info"), None), strings(&["one INFO", "three INFO"]));
    assert_eq!(select_log_lines(log, None, Some(2)), strings(&["", "four ERROR"]));
    assert_eq!(select_log_lines(log, Some("info"), Some(1)), strings(&["three INFO"]));
    assert_eq!(last_lines_with(log, Some("o"), 9).len(), 3);
    assert!(line_of_level("x WARN", Some("warn")));
    assert!(!line_of_level("x WARN", Some("error")));
    assert!(line_of_level("anything", None));
    let many: String = (0..60).map(|i| format!("{}\n", i)).collect();
    assert_eq!(select_log_lines(&many, None, None).len(), 50);
}

#[test]
fn lists_of_urls_have_comments() {
    let content = "# list\n\n  https://a/b  \nhttps://c/d\r\n #x\n";
    assert_eq!(batch_urls(content), strings(&["https://a/b", "https://c/d"]));
    assert_eq!(filled_lines("a\n  \nb"), strings(&["a", "b"]));
}

#[test]
fn completions_are_reported() {
    let names = strings(&["20260102.jsonl", "app.jsonl.2026-01-01", "20260101.jsonl", "x.txt"]);
    assert_eq!(completion_logs(&names), strings(&["20260101.jsonl", "20260102.jsonl"]));
    let entries = vec![entry("f", "completed"), entry("g", "error"), entry("f", "error")];
    assert_eq!(entries_of_folder(&entries, Some("f")).len(), 2);
    assert_eq!(entries_of_folder(&entries, None).len(), 3);
    assert_eq!(count_outcomes(&entries), (1, 2));
    let mut e = entry("f", "error");
    e.error_message = Some("lost".to_string());
    assert_eq!(show_entry(&e, Some("1.5s")), "\u{2717} file.zip [f] 1.5s\n  Error: lost\n");
    assert_eq!(show_entry(&entry("f", "completed"), None), "\u{2713} file.zip [f] N/A\n");
}

#[test]
fn the_queue_is_counted() {
    let mut a = task("f", DownloadStatus::Pending);
    a.size = Some(100);
    a.downloaded = 10;
    let mut b = task("f", DownloadStatus::Error);
    b.downloaded = 5;
    let c = task("g", DownloadStatus::Downloading);
    let stats = queue_stats(&vec![a, b, c]);
    assert_eq!(stats.total, 3);
    assert_eq!(stats.pending, 1);
    assert_eq!(stats.downloading, 1);
    assert_eq!(stats.paused, 0);
    assert_eq!(stats.completed, 0);
    assert_eq!(stats.error, 1);
    assert_eq!(stats.total_bytes, 100);
    assert_eq!(stats.downloaded_bytes, 15);
    let text = show_stats(&stats, 4, 1, Some("2.0s"));
    assert!(text.starts_with("Download Statistics\n\nQueue:\n  Total: 3\n  Pending: 1\n"));
    assert!(text.contains("\nBytes:\n  Total: 100 B\n  Downloaded: 15 B\n"));
    assert!(text.ends_with("  Completed: 4\n  Errors: 1\n  Avg Duration: 2.0s\n"));
}

#[test]
fn faults_of_the_queue_are_found() {
    let a = task("f", DownloadStatus::Pending);
    let mut b = a.clone();
    b.url = String::new();
    let id = Uuid::from_u128(a.id).to_string();
    let issues = queue_issues(
        &vec![a, b],
        &vec![true, false],
        &strings(&["/a", "/gone"]),
    );
    assert_eq!(
        issues,
        vec![
            format!("Duplicate task ID: {}", id),
            format!("Task {} has invalid save path: /gone", id),
            format!("Task {} has empty URL", id),
        ]
    );
    assert!(queue_issues(&Vec::new(), &Vec::new(), &Vec::new()).is_empty());
}

#[test]
fn faults_of_the_settings_are_found() {
    let mut c = config();
    c.folders.insert("f".to_string(), FolderConfig::new_with_name("F".to_string(), path(&[])));
    assert!(config_issues(&c, true, "/d", true, "/s", &vec![true], &strings(&["/f"])).is_empty());
    c.download.max_concurrent = 0;
    assert_eq!(
        config_issues(&c, false, "/d", false, "/s", &vec![false], &strings(&["/f"])),
        strings(&[
            "Default directory does not exist: /d",
            "max_concurrent cannot be 0",
            "Scripts directory does not exist: /s",
            "Folder 'f' save path does not exist: /f",
        ])
    );
}

#[test]
fn folders_are_meant_by_key_or_name() {
    let mut c = config();
    assert!(create_folder(&mut c, "Images", path(&["/", "i"]), true).is_ok());
    assert_eq!(
        create_folder(&mut c, "Images", path(&["/"]), false),
        Err("Folder 'Images' already exists".to_string())
    );
    let key = resolve_folder_id(&c, "Images").unwrap();
    assert_eq!(resolve_folder_id(&c, &key), Some(key.clone()));
    assert_eq!(resolve_folder_id(&c, "absent"), None);
    assert!(c.folders.get(&key).unwrap().auto_start_downloads);
    assert_eq!(
        set_folder_value(&mut c, "Images", " user_agent = a=b "),
        Ok(("user_agent".to_string(), "a=b".to_string()))
    );
    assert_eq!(c.folders.get(&key).unwrap().user_agent, Some("a=b".to_string()));
    assert!(set_folder_value(&mut c, &key, "max_concurrent=4").is_ok());
    assert_eq!(c.folders.get(&key).unwrap().max_concurrent, Some(4));
    assert!(set_folder_value(&mut c, &key, "scripts_enabled=false").is_ok());
    assert!(set_folder_value(&mut c, &key, "auto_date_directory=true").is_ok());
    assert!(set_folder_value(&mut c, &key, "auto_start_downloads=false").is_ok());
    assert_eq!(
        set_folder_value(&mut c, &key, "nonsense"),
        Err("Invalid format. Expected: key=value".to_string())
    );
    assert_eq!(
        set_folder_value(&mut c, "absent", "x=y"),
        Err("Folder 'absent' not found".to_string())
    );
    assert!(set_folder_value(&mut c, &key, "colour=red")
        .unwrap_err()
        .starts_with("Unknown configuration key: colour. Valid keys: "));
    assert!(set_folder_value(&mut c, &key, "auto_date_directory=maybe").is_err());
    assert_eq!(delete_folder(&mut c, "Images"), Ok("Images".to_string()));
    assert_eq!(c.folders.len(), 0);
    assert_eq!(delete_folder(&mut c, "Images"), Err("Folder 'Images' not found".to_string()));
}

#[test]
fn scripts_are_switched_on_and_off() {
    let mut c = config();
    assert!(set_script_enabled(&mut c, "a.js", true, false).is_ok());
    assert_eq!(c.scripts.script_files.get("a.js"), Some(&false));
    assert_eq!(
        set_script_enabled(&mut c, "b.js", false, true),
        Err("Script not found: b.js".to_string())
    );
    let names = strings(&["b.js", "a.js", "readme.md"]);
    assert_eq!(
        list_scripts(&names, &c.scripts.script_files, false),
        vec![("a.js".to_string(), false), ("b.js".to_string(), true)]
    );
    assert_eq!(
        list_scripts(&names, &c.scripts.script_files, true),
        vec![("b.js".to_string(), true)]
    );
    assert_eq!(trial_event("before_request"), Ok(HookEvent::BeforeRequest));
    assert_eq!(trial_event("error"), Ok(HookEvent::ErrorOccurred));
    assert!(trial_event("authRequired").unwrap_err().starts_with("Invalid event: authRequired."));
}

#[test]
fn downloads_are_cleared_by_status() {
    let mut m = DownloadManager::new();
    m.add_download(task("f", DownloadStatus::Completed));
    m.add_download(task("f", DownloadStatus::Error));
    m.add_download(task("g", DownloadStatus::Error));
    m.add_download(task("g", DownloadStatus::Pending));
    assert_eq!(clear(&mut m, " error , completed ", Some("f")), Ok(2));
    assert_eq!(m.get_all_downloads().len(), 2);
    assert_eq!(
        clear(&mut m, " , ", None),
        Err("No status specified. Valid: completed, error, paused, pending".to_string())
    );
    assert_eq!(
        clear(&mut m, "error,done,x", None),
        Err("Unknown status 'done'. Valid: completed, error, paused, pending".to_string())
    );
    assert_eq!(
        parse_statuses("pending,paused"),
        Ok(vec![DownloadStatus::Pending, DownloadStatus::Paused])
    );
    assert_eq!(reset_queue(&mut m), 2);
    assert!(m.get_all_downloads().is_empty());
}

#[test]
fn downloads_are_picked_by_folder_and_status() {
    let mut m = DownloadManager::new();
    let a = task("f", DownloadStatus::Pending);
    let b = task("g", DownloadStatus::Paused);
    let (ia, ib) = (a.id, b.id);
    m.add_download(a);
    m.add_download(b);
    m.add_download(task("g", DownloadStatus::Error));
    assert_eq!(startable_ids(&m, None), vec![ia, ib]);
    assert_eq!(startable_ids(&m, Some("g")), vec![ib]);
    match m.start_download(ia) {
        StartOutcome::Ready(t) => {
            m.launch(t, None, Moment { secs: 0, nanos: 0 });
        }
        _ => panic!("the download does not start"),
    }
    assert_eq!(pause_running(&mut m, Some("g")), 0);
    assert_eq!(pause_running(&mut m, None), 1);
    let all = m.get_all_downloads();
    assert_eq!(pick_ids(&all, &vec![DownloadStatus::Paused], None).len(), 2);
}

#[test]
fn urls_are_queued() {
    let mut m = DownloadManager::new();
    let id = queue_url(&mut m, "https://e.com/a<b".to_string(), Some("f"), &path(&["/", "p"]));
    let t = m.get_by_id(id).unwrap();
    assert_eq!(t.folder_id, "f");
    assert_eq!(t.filename, "a_b");
    assert_eq!(t.save_path, path(&["/", "p"]));
    let id = queue_url(&mut m, sample_url(3), None, &path(&[]));
    assert_eq!(m.get_by_id(id).unwrap().filename, "test_file_3.zip");
    assert_eq!(m.get_by_id(id).unwrap().url, "http://example.com/test_file_3.zip");
    assert_eq!(m.get_by_id(id).unwrap().folder_id, "default");
}

#[test]
fn downloads_are_moved() {
    let mut c = config();
    c.folders.insert("key".to_string(), FolderConfig::new_with_name("Name".to_string(), path(&[])));
    let mut m = DownloadManager::new();
    let a = task("f", DownloadStatus::Pending);
    let b = task("f", DownloadStatus::Pending);
    let (ia, ib) = (a.id, b.id);
    m.add_download(a);
    m.add_download(b);
    let target = read_target(&c, true, false, None, None).unwrap();
    assert!(move_download(&mut m, ib, target).is_ok());
    assert_eq!(m.get_all_downloads()[0].id, ib);
    let target = read_target(&c, false, true, None, None).unwrap();
    assert!(move_download(&mut m, ib, target).is_ok());
    let before = Uuid::from_u128(ia).to_string();
    let target = read_target(&c, false, false, Some(&before), None).unwrap();
    assert!(move_download(&mut m, ib, target).is_ok());
    assert_eq!(m.get_all_downloads()[0].id, ib);
    let target = read_target(&c, false, false, None, Some("Name")).unwrap();
    assert!(matches!(&target, MoveTarget::Folder(f) if f == "key"));
    assert!(move_download(&mut m, ib, target).is_ok());
    assert_eq!(m.get_by_id(ib).unwrap().folder_id, "key");
    assert_eq!(m.get_all_downloads().len(), 2);
    assert_eq!(move_download(&mut m, 1, MoveTarget::Top), Err("Download not found".to_string()));
    assert!(matches!(
        read_target(&c, false, false, None, None),
        Err(e) if e == "Must specify one of: --to-top, --to-bottom, --before, --folder"
    ));
    assert!(matches!(
        read_target(&c, false, false, Some("x"), None),
        Err(e) if e == "Invalid before UUID format"
    ));
    assert!(matches!(
        read_target(&c, false, false, None, Some("absent")),
        Err(e) if e == "Folder 'absent' not found"
    ));
}

#[test]
fn waiting_ends_with_the_download() {
    assert_eq!(wait_on(DownloadStatus::Downloading), Wait::GoOn);
    assert_eq!(wait_on(DownloadStatus::Completed), Wait::Completed);
    assert_eq!(wait_on(DownloadStatus::Error), Wait::Failed);
    assert_eq!(wait_on(DownloadStatus::Paused), Wait::Paused);
}

#[test]
fn the_bridge_needs_named_extensions() {
    match plan_install("C:\\b.exe", true, &strings(&["abc", "def"])) {
        Ok(m) => {
            assert_eq!(m.name, "com.ggg.bridge");
            assert_eq!(m.kind, "stdio");
            assert_eq!(
                m.allowed_origins,
                strings(&["chrome-extension://abc/", "chrome-extension://def/"])
            );
        }
        Err(e) => panic!("{}", e),
    }
    assert!(plan_install("x", true, &Vec::new()).is_err());
    assert!(plan_install("x", false, &strings(&["a"])).is_err());
    assert_eq!(manifest_dir(Some(path(&["L"]))), Ok(path(&["L", "ggg"])));
    assert_eq!(manifest_dir(None), Err("Could not resolve %LOCALAPPDATA%".to_string()));
    assert_eq!(
        resolve_bridge_path(None, Some(path(&["d"]))),
        Ok(path(&["d", "ggg-bridge.exe"]))
    );
    assert_eq!(resolve_bridge_path(Some(path(&["e"])), None), Ok(path(&["e"])));
    assert!(resolve_bridge_path(None, None).is_err());
}

#[test]
fn scripts_files_can_be_empty() {
    let none: TextMap<bool> = TextMap::new();
    assert!(list_scripts(&Vec::new(), &none, true).is_empty());
}

#[test]
fn downloads_are_looked_at_by_folder() {
    let a = task("f", DownloadStatus::Downloading);
    let b = task("g", DownloadStatus::Pending);
    let c = task("f", DownloadStatus::Error);
    let id = |t: &DownloadTask| Uuid::from_u128(t.id).to_string();
    let (ia, ib, ic) = (id(&a), id(&b), id(&c));
    let tasks = vec![a, b, c];
    let slots = folder_slots(&tasks);
    assert_eq!(slots.len(), 2);
    assert_eq!(slots[0].folder_id, "f");
    assert_eq!(slots[0].tasks.len() + slots[1].tasks.len(), tasks.len());
    assert_eq!(
        show_slots(&slots),
        format!(
            "Folder Slot States\n\nFolder: f (Total: 2, Active: 1)\n  {} - file.zip (Downloading)\n  {} - file.zip (Error)\n\nFolder: g (Total: 1, Active: 0)\n  {} - file.zip (Pending)\n\n",
            ia, ic, ib
        )
    );
    assert_eq!(
        show_state(&vec![tasks[1].clone()], 1),
        format!(
            "Download Manager State\n\nTotal Tasks: 1\nActive Downloads: 1\n\nTask IDs:\n  {} - file.zip (Pending)\n",
            ib
        )
    );
    assert_eq!(show_slots(&folder_slots(&Vec::new())), "Folder Slot States\n\n");
}

#[test]
fn a_download_is_looked_into() {
    let mut t = task("f", DownloadStatus::Error);
    t.size = Some(1024);
    t.priority = -2;
    t.etag = Some("\"e\"".to_string());
    t.error_message = Some("lost".to_string());
    t.headers.insert("X".to_string(), "1".to_string());
    let times = ShownTimes {
        created: "now".to_string(),
        started: None,
        completed: Some("later".to_string()),
    };
    let id = Uuid::from_u128(t.id).to_string();
    assert_eq!(
        show_task(&t, "/tmp", &times),
        format!(
            "Task Details\n\nID: {}\nURL: https://example.com/file.zip\nFilename: file.zip\nFolder: f\nSave Path: /tmp\nStatus: Error\nSize: 1.00 KB\nDownloaded: 0 B\nPriority: -2\nResume Supported: false\nRetry Count: 0\n\nTimestamps:\n  Created: now\n  Completed: later\n\nETag: \"e\"\n\nError: lost\n\nHeaders:\n  X: 1\n",
            id
        )
    );
    t.size = None;
    assert!(show_task(&t, "/tmp", &times).contains("Size: Unknown\n"));
}

#[test]
fn folders_are_looked_into() {
    let mut c = config();
    assert_eq!(show_folders(&c.folders, &Vec::new()), "No folders configured\n");
    let mut f = FolderConfig::new_with_name("F".to_string(), path(&["/", "f"]));
    f.scripts_enabled = Some(false);
    f.max_concurrent = Some(2);
    f.default_headers.insert("X".to_string(), "1".to_string());
    let mut files = TextMap::new();
    files.insert("a.js".to_string(), true);
    f.script_files = Some(files);
    assert_eq!(
        show_folder("F", &f, "/f"),
        "Folder: F\n\nSave Path: /f\nAuto-Date Directory: false\nAuto-Start Downloads: false\nScripts Enabled: false\nMax Concurrent: 2\n\nDefault Headers:\n  X: 1\n\nScript Files:\n  a.js - enabled\n"
    );
    c.folders.insert("key".to_string(), f);
    assert_eq!(
        show_folders(&c.folders, &strings(&["/f"])),
        "Folders (1 total)\n\nName: F\n  ID: key\n  Path: /f\n  Auto-Date Directory: false\n  Auto-Start: false\n  Scripts: disabled\n  Max Concurrent: 2\n\n"
    );
    let plain = FolderConfig::new_with_name("G".to_string(), path(&[]));
    assert!(show_folder("G", &plain, "").contains("Scripts Enabled: (inherit from application)\n"));
}

#[test]
fn statistics_are_of_a_folder_or_of_all() {
    let mut a = task("f", DownloadStatus::Pending);
    a.size = Some(100);
    let mut b = task("g", DownloadStatus::Error);
    b.size = Some(7);
    b.downloaded = 5;
    let tasks = vec![a, b];
    let stats = queue_stats_of(&tasks, Some("g"));
    assert_eq!((stats.total, stats.pending, stats.error), (1, 0, 1));
    assert_eq!((stats.total_bytes, stats.downloaded_bytes), (7, 5));
    assert_eq!(queue_stats_of(&tasks, None).total, 2);
    assert_eq!(queue_stats_of(&tasks, Some("h")).total, 0);
    assert_eq!(tasks_of_folder(&tasks, Some("f")).len(), 1);
}

#[test]
fn listings_judge_each_name_by_itself() {
    let names = strings(&["b.jsonl", "b.jsonl", "x:y.txt", "a.jsonl", ".jsonl", "x:y.jsonl"]);
    assert_eq!(
        completion_logs(&names),
        strings(&["a.jsonl", "b.jsonl", "b.jsonl", "x:y.jsonl"])
    );
}

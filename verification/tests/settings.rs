use ggg::app::config::{
    Config, DownloadConfig, FolderConfig, GeneralConfig, NetworkConfig, ReferrerPolicy,
    ScriptConfig,
};
use ggg::app::keybindings::KeybindingsConfig;
use ggg::app::settings::{
    join_messages, validate_folder_config, ResolvedSettings, ValidationError,
};
use ggg::download::task::{DownloadStatus, DownloadTask};
use ggg::file::path::SavePath;
use ggg::text_map::TextMap;

fn path(parts: &[&str]) -> SavePath {
    SavePath::new(parts.iter().map(|p| p.to_string()).collect())
}

fn create_test_config() -> Config {
    Config {
        general: GeneralConfig {
            language: "en".to_string(),
            theme: "dark".to_string(),
            minimize_to_tray: false,
            start_minimized: false,
            skip_download_preview: true,
            auto_launch_dnd: false,
        },
        download: DownloadConfig {
            default_directory: path(&["C:\\Downloads"]),
            max_concurrent: 3,
            retry_count: 5,
            retry_delay: 3,
            user_agent: "TestAgent/1.0".to_string(),
            bandwidth_limit: 0,
            max_concurrent_per_folder: Some(2),
            parallel_folder_count: Some(2),
            max_redirects: 10,
            referrer_policy: ReferrerPolicy::default(),
        },
        network: NetworkConfig {
            proxy_enabled: false,
            proxy_type: "http".to_string(),
            proxy_host: String::new(),
            proxy_port: 8080,
            proxy_auth: false,
            proxy_user: String::new(),
            proxy_pass: String::new(),
        },
        scripts: ScriptConfig {
            enabled: true,
            directory: path(&[".", "scripts"]),
            timeout: 30,
            script_files: TextMap::new(),
        },
        keybindings: KeybindingsConfig::default(),
        folders: TextMap::new(),
    }
}

fn create_test_task(url: &str, save_path: SavePath, folder_id: &str) -> DownloadTask {
    let mut task = DownloadTask::new(url.to_string(), save_path);
    task.filename = "test.zip".to_string();
    task.folder_id = folder_id.to_string();
    task.status = DownloadStatus::Pending;
    task.logs = Vec::new();
    task
}

fn folder(save_path: SavePath) -> FolderConfig {
    FolderConfig {
        name: String::new(),
        save_path,
        auto_date_directory: false,
        auto_start_downloads: false,
        scripts_enabled: None,
        script_files: None,
        max_concurrent: None,
        user_agent: None,
        referrer_policy: None,
        default_headers: TextMap::new(),
    }
}

#[test]
fn test_settings_resolution_queue_override() {
    let mut config = create_test_config();
    config.folders.insert(
        "test_folder".to_string(),
        FolderConfig {
            user_agent: Some("FolderAgent/1.0".to_string()),
            ..folder(path(&["C:\\TestFolder"]))
        },
    );
    let mut task = create_test_task(
        "https://example.com/file.zip",
        path(&["C:\\TestFolder"]),
        "test_folder",
    );
    task.user_agent = Some("TaskAgent/1.0".to_string());

    let resolved = ResolvedSettings::resolve(&config, "test_folder", &task);
    assert_eq!(resolved.user_agent, "TaskAgent/1.0");
}

#[test]
fn test_settings_resolution_folder_override() {
    let mut config = create_test_config();
    config.folders.insert(
        "test_folder".to_string(),
        FolderConfig {
            user_agent: Some("FolderAgent/1.0".to_string()),
            ..folder(path(&["C:\\TestFolder"]))
        },
    );
    let task = create_test_task(
        "https://example.com/file.zip",
        path(&["C:\\TestFolder"]),
        "test_folder",
    );

    let resolved = ResolvedSettings::resolve(&config, "test_folder", &task);
    assert_eq!(resolved.user_agent, "FolderAgent/1.0");
}

#[test]
fn test_settings_resolution_app_fallback() {
    let config = create_test_config();
    let task = create_test_task(
        "https://example.com/file.zip",
        path(&["C:\\Downloads"]),
        "nonexistent_folder",
    );

    let resolved = ResolvedSettings::resolve(&config, "nonexistent_folder", &task);
    assert_eq!(resolved.user_agent, "TestAgent/1.0");
    assert_eq!(resolved.retry_count, 5);
    assert_eq!(resolved.max_redirects, 10);
}

#[test]
fn test_auto_date_directory() {
    let mut config = create_test_config();
    config.folders.insert(
        "test_folder".to_string(),
        FolderConfig { auto_date_directory: true, ..folder(path(&["C:\\TestFolder"])) },
    );
    let task = create_test_task(
        "https://example.com/file.zip",
        config.download.default_directory.clone(),
        "test_folder",
    );

    let resolved = ResolvedSettings::resolve(&config, "test_folder", &task);

    let created = chrono::DateTime::from_timestamp(task.created_at.secs, task.created_at.nanos).unwrap();
    let date_str = created.format("%Y%m%d").to_string();
    assert_eq!(resolved.save_path, path(&["C:\\TestFolder", &date_str]));
}

#[test]
fn test_validation_scripts_disabled() {
    let mut config = create_test_config();
    config.scripts.enabled = false;
    config.download.max_concurrent_per_folder = None;
    config.download.parallel_folder_count = None;
    config.folders.insert(
        "bad_folder".to_string(),
        FolderConfig { scripts_enabled: Some(true), ..folder(path(&["C:\\BadFolder"])) },
    );

    let result = validate_folder_config(&config);
    assert!(result.is_err());
    if let Err(errors) = result {
        assert_eq!(errors.len(), 1);
        assert!(matches!(errors[0], ValidationError::ScriptsEnabledWhenDisabled(_)));
    }
}

#[test]
fn test_validation_scripts_allowed_when_app_enabled() {
    let mut config = create_test_config();
    config.scripts.enabled = true;
    config.download.max_concurrent_per_folder = None;
    config.download.parallel_folder_count = None;
    config.folders.insert(
        "folder_scripts_on".to_string(),
        FolderConfig { scripts_enabled: Some(true), ..folder(path(&["C:\\Folder1"])) },
    );
    config.folders.insert(
        "folder_scripts_off".to_string(),
        FolderConfig { scripts_enabled: Some(false), ..folder(path(&["C:\\Folder2"])) },
    );

    let result = validate_folder_config(&config);
    assert!(result.is_ok());
}

#[test]
fn test_headers_merging() {
    let mut config = create_test_config();
    let mut folder_headers = TextMap::new();
    folder_headers.insert("referer".to_string(), "https://folder.example.com".to_string());
    folder_headers.insert("x-custom".to_string(), "folder-value".to_string());
    config.folders.insert(
        "test_folder".to_string(),
        FolderConfig { default_headers: folder_headers, ..folder(path(&["C:\\TestFolder"])) },
    );
    let mut task = create_test_task(
        "https://example.com/file.zip",
        path(&["C:\\TestFolder"]),
        "test_folder",
    );
    task.headers.insert("referer".to_string(), "https://task.example.com".to_string());

    let resolved = ResolvedSettings::resolve(&config, "test_folder", &task);

    assert_eq!(resolved.headers.get("referer"), Some(&"https://task.example.com".to_string()));
    assert_eq!(resolved.headers.get("x-custom"), Some(&"folder-value".to_string()));
}

#[test]
fn test_max_concurrent_resolution() {
    let mut config = create_test_config();
    config.download.max_concurrent = 10;
    config.download.max_concurrent_per_folder = Some(5);
    config.folders.insert(
        "folder_with_max".to_string(),
        FolderConfig { max_concurrent: Some(2), ..folder(path(&["C:\\Folder1"])) },
    );
    config.folders.insert("folder_without_max".to_string(), folder(path(&["C:\\Folder2"])));

    let task1 = create_test_task(
        "https://example.com/file1.zip",
        path(&["C:\\Folder1"]),
        "folder_with_max",
    );
    let task2 = create_test_task(
        "https://example.com/file2.zip",
        path(&["C:\\Folder2"]),
        "folder_without_max",
    );

    let resolved1 = ResolvedSettings::resolve(&config, "folder_with_max", &task1);
    let resolved2 = ResolvedSettings::resolve(&config, "folder_without_max", &task2);

    assert_eq!(resolved1.max_concurrent, 2);
    assert_eq!(resolved2.max_concurrent, 5);
}

#[test]
fn folders_cannot_exceed_the_application() {
    let mut config = create_test_config();
    config.download.max_concurrent_per_folder = Some(2);
    config.download.parallel_folder_count = Some(2);
    config.folders.insert(
        "f".to_string(),
        FolderConfig { max_concurrent: Some(9), ..folder(path(&["/"])) },
    );
    let errors = validate_folder_config(&config).unwrap_err();
    assert!(errors
        .iter()
        .any(|e| matches!(e, ValidationError::ConcurrentDownloadConstraintViolation { calculated: 4, .. })));
    assert!(errors
        .iter()
        .any(|e| matches!(e, ValidationError::FolderMaxConcurrentExceedsApp { folder_max: 9, app_max: 3, .. })));
    assert!(!join_messages(&errors).is_empty());
}

#[test]
fn scripts_stay_disabled_where_the_application_disables_them() {
    let mut config = create_test_config();
    config.scripts.enabled = false;
    let f = FolderConfig { scripts_enabled: Some(true), ..folder(path(&["/"])) };
    assert!(!ResolvedSettings::resolve_scripts_enabled(&config, Some(&f)));
    config.scripts.enabled = true;
    assert!(ResolvedSettings::resolve_scripts_enabled(&config, Some(&f)));
    let g = FolderConfig { scripts_enabled: Some(false), ..folder(path(&["/"])) };
    assert!(!ResolvedSettings::resolve_scripts_enabled(&config, Some(&g)));
}

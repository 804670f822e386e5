use ggg::app::config::{
    ApplicationConfig, Config, FolderConfig, ReferrerPolicy,
};
use ggg::app::settings::validate_folder_config;
use ggg::file::path::SavePath;
use ggg::text_map::TextMap;

fn path(parts: &[&str]) -> SavePath {
    SavePath::new(parts.iter().map(|p| p.to_string()).collect())
}

fn default_config() -> Config {
    Config::default_in(path(&["/", "downloads"]), path(&["/", "scripts"]))
}

#[test]
fn test_config_default_values() {
    let config = default_config();

    assert_eq!(config.general.language, "en");
    assert_eq!(config.general.theme, "classic");
    assert_eq!(config.general.minimize_to_tray, true);
    assert_eq!(config.general.start_minimized, false);

    assert_eq!(config.download.default_directory, path(&["/", "downloads"]));
    assert_eq!(config.download.max_concurrent, 3);
    assert_eq!(config.download.retry_count, 3);
    assert_eq!(config.download.retry_delay, 5);
    assert_eq!(config.download.bandwidth_limit, 0);

    assert_eq!(config.network.proxy_enabled, false);
    assert_eq!(config.network.proxy_type, "http");
    assert_eq!(config.network.proxy_port, 8080);

    assert_eq!(config.scripts.enabled, true);
    assert_eq!(config.scripts.directory, path(&["/", "scripts"]));
    assert_eq!(config.scripts.timeout, 30);
}

#[test]
fn test_config_all_sections_present() {
    let config = default_config();

    let _ = config.general.language;
    let _ = config.download.default_directory;
    let _ = config.network.proxy_enabled;
    let _ = config.scripts.enabled;
}

#[test]
fn test_default_folder_creation() {
    let config = default_config();
    assert_eq!(config.folders.len(), 0);
}

#[test]
fn test_config_validation_integration() {
    let mut config = default_config();
    config.download.max_concurrent = 10;
    config.download.max_concurrent_per_folder = Some(5);
    config.download.parallel_folder_count = Some(2);

    let result = validate_folder_config(&config);
    assert!(result.is_ok());

    config.download.max_concurrent_per_folder = Some(6);
    let result = validate_folder_config(&config);
    assert!(result.is_err());
}

#[test]
fn test_referrer_policy_compute() {
    let url = "https://example.com/images/photo.jpg";

    assert_eq!(ReferrerPolicy::none().compute(url), None);
    assert_eq!(ReferrerPolicy::same_as_url().compute(url), Some(url.to_string()));
    assert_eq!(
        ReferrerPolicy::url_path().compute(url),
        Some("https://example.com/images/".to_string())
    );
    assert_eq!(
        ReferrerPolicy::url_origin().compute(url),
        Some("https://example.com/".to_string())
    );
    assert_eq!(
        ReferrerPolicy::custom("https://custom.ref/page".to_string()).compute(url),
        Some("https://custom.ref/page".to_string())
    );
    assert_eq!(ReferrerPolicy::custom("".to_string()).compute(url), None);
}

#[test]
fn test_referrer_policy_compute_edge_cases() {
    assert_eq!(
        ReferrerPolicy::url_origin().compute("https://example.com:8443/path/file.txt"),
        Some("https://example.com:8443/".to_string())
    );
    assert_eq!(
        ReferrerPolicy::url_path().compute("https://example.com/file.txt"),
        Some("https://example.com/".to_string())
    );
    assert_eq!(ReferrerPolicy::url_origin().compute("not-a-url"), None);
}

#[test]
fn test_referrer_policy_cycle() {
    let p = ReferrerPolicy::none();
    let p = p.cycle_next();
    assert_eq!(p, ReferrerPolicy::same_as_url());
    let p = p.cycle_next();
    assert_eq!(p, ReferrerPolicy::url_path());
    let p = p.cycle_next();
    assert_eq!(p, ReferrerPolicy::url_origin());
    let p = p.cycle_next();
    assert_eq!(p, ReferrerPolicy::none());
}

#[test]
fn custom_policies_cycle_to_none() {
    let p = ReferrerPolicy::custom("https://a/".to_string());
    assert_eq!(p.cycle_next(), ReferrerPolicy::none());
}

#[test]
fn policies_have_names() {
    assert_eq!(ReferrerPolicy::none().display_key(), "settings-referrer-none");
    assert_eq!(
        ReferrerPolicy::custom("x".to_string()).display_key(),
        "settings-referrer-custom"
    );
}

#[test]
fn folders_under_names_get_uuids() {
    let mut folders: TextMap<FolderConfig> = TextMap::new();
    folders.insert(
        "images".to_string(),
        FolderConfig::new_with_name(String::new(), path(&["/", "images"])),
    );
    let key = "12345678-1234-4234-8234-123456789abc";
    folders.insert(
        key.to_string(),
        FolderConfig::new_with_name("videos".to_string(), path(&["/", "videos"])),
    );
    let (migrated, changed, renames) = Config::migrate_folder_keys(&folders);
    assert!(changed);
    assert_eq!(migrated.len(), 2);
    assert_eq!(renames.len(), 1);
    assert_eq!(renames[0].0, "images");
    assert!(migrated.get("images").is_none());
    assert_eq!(migrated.get(key).unwrap().name, "videos");
    assert_eq!(migrated.get(&renames[0].1).unwrap().name, "images");

    let (again, changed, renames) = Config::migrate_folder_keys(&migrated);
    assert!(!changed);
    assert!(renames.is_empty());
    assert_eq!(again.len(), 2);
}

#[test]
fn loading_adds_a_default_folder() {
    let app = ApplicationConfig::default_in(path(&["/", "d"]), path(&["/", "s"]));
    let loaded = Config::load(app, &TextMap::new()).unwrap();
    assert_eq!(loaded.config.folders.len(), 1);
    assert!(!loaded.migrated);
}

#[test]
fn loading_refuses_settings_that_do_not_fit() {
    let mut app = ApplicationConfig::default_in(path(&["/", "d"]), path(&["/", "s"]));
    app.download.max_concurrent = 3;
    app.download.max_concurrent_per_folder = Some(2);
    app.download.parallel_folder_count = Some(2);
    assert!(Config::load(app, &TextMap::new()).is_err());
}

#[test]
fn saving_checks_the_settings() {
    let mut config = default_config();
    assert!(config.save().is_ok());
    config.download.max_concurrent_per_folder = Some(4);
    config.download.parallel_folder_count = Some(2);
    assert!(config.save().is_err());
}

#[test]
fn folder_ids_are_uuids() {
    let a = Config::generate_folder_id();
    let b = Config::generate_folder_id();
    assert_eq!(a.len(), 36);
    assert!(uuid::Uuid::parse_str(&a).is_ok());
    assert_ne!(a, b);
}

#[test]
fn folders_are_sorted_by_the_name_shown() {
    let mut config = default_config();
    config.folders.insert("k2".to_string(), FolderConfig::new_with_name("b".to_string(), path(&[])));
    config.folders.insert("k1".to_string(), FolderConfig::new_with_name("a".to_string(), path(&[])));
    config.folders.insert("c".to_string(), FolderConfig::new_with_name(String::new(), path(&[])));
    let entries = config.sorted_folder_entries();
    let names: Vec<&str> = entries.iter().map(|e| e.1.as_str()).collect();
    assert_eq!(names, vec!["a", "b", "c"]);
    assert_eq!(config.folder_name("k1"), "a");
    assert_eq!(config.folder_name("c"), "c");
    assert_eq!(config.folder_name("absent"), "absent");
    assert_eq!(config.find_folder_id_by_name("b"), Some("k2".to_string()));
    assert_eq!(config.find_folder_id_by_name("z"), None);
}

#[test]
fn origins_hold_port_and_inner_url() {
    let origin = |url: &str| ReferrerPolicy::url_origin().compute(url);
    assert_eq!(origin("http://example.com:80/a"), Some("http://example.com/".to_string()));
    assert_eq!(origin("http://example.com:81/a"), Some("http://example.com:81/".to_string()));
    assert_eq!(origin("http://[::1]:8080/a"), Some("http://[::1]:8080/".to_string()));
    assert_eq!(origin("data:text/plain,x"), Some("null/".to_string()));
    assert_eq!(origin("blob:https://example.com/a"), Some("https://example.com/".to_string()));
    assert_eq!(
        origin("blob:blob:https://example.com:8443/a"),
        Some("https://example.com:8443/".to_string())
    );
    assert_eq!(origin("blob:nothing"), Some("null/".to_string()));
}

#[test]
fn invalid_urls_have_no_referrer() {
    assert_eq!(ReferrerPolicy::same_as_url().compute("not-a-url"), None);
    assert_eq!(ReferrerPolicy::url_path().compute("not-a-url"), None);
}

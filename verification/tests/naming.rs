use ggg::file::manager::FileManager;
use ggg::file::metadata::modification_time;
use ggg::file::naming::{
    add_unix_millis_to_filename, ensure_unique_filename, file_extension, finish_sanitized,
    replace_unsafe, sanitize_filename, stamp_name, unique_filename_at,
};

#[test]
fn test_add_unix_millis_with_extension() {
    let result = add_unix_millis_to_filename("AAA.jpg", 1768053096643);
    assert_eq!(result, "AAA[1768053096643].jpg");
}

#[test]
fn test_add_unix_millis_without_extension() {
    let result = add_unix_millis_to_filename("AAA", 1768053096643);
    assert_eq!(result, "AAA[1768053096643]");
}

#[test]
fn test_add_unix_millis_multiple_dots() {
    let result = add_unix_millis_to_filename("file.tar.gz", 1768053096643);
    assert_eq!(result, "file.tar[1768053096643].gz");
}

#[test]
fn test_add_unix_millis_script_modified() {
    let result = add_unix_millis_to_filename("pbsimg-AAA.jpg", 1768053096643);
    assert_eq!(result, "pbsimg-AAA[1768053096643].jpg");
}

#[test]
fn test_ensure_unique_filename_no_collision() {
    let temp_dir = std::path::Path::new("./nonexistent_test_dir_12345");
    let result = ensure_unique_filename(temp_dir.join("test.jpg").exists(), "test.jpg");
    assert_eq!(result, "test.jpg");
}

#[test]
fn test_sanitize_invalid_chars() {
    assert_eq!(sanitize_filename("file<name>.txt"), "file_name_.txt");
    assert_eq!(sanitize_filename("path/to/file.txt"), "path_to_file.txt");
}

#[test]
fn test_sanitize_reserved_names() {
    assert_eq!(sanitize_filename("CON.txt"), "_CON.txt");
    assert_eq!(sanitize_filename("COM1"), "_COM1");
}

#[test]
fn test_sanitize_empty() {
    assert_eq!(sanitize_filename(""), "_");
}

#[test]
fn test_sanitize_control_chars() {
    assert_eq!(sanitize_filename("file\x00name.txt"), "file_name.txt");
    assert_eq!(sanitize_filename("test\x1Ffile.zip"), "test_file.zip");
    assert_eq!(sanitize_filename("data\nnewline.txt"), "data_newline.txt");
}

#[test]
fn test_sanitize_unicode_safe() {
    assert_eq!(sanitize_filename("ファイル名.txt"), "ファイル名.txt");
    assert_eq!(sanitize_filename("テスト🎉.zip"), "テスト🎉.zip");
    assert_eq!(sanitize_filename("日本語ドキュメント.pdf"), "日本語ドキュメント.pdf");
}

#[test]
fn test_sanitize_long_filename() {
    let long_name = "a".repeat(300);
    let sanitized = sanitize_filename(&long_name);
    assert_eq!(sanitized.len(), 300);
}

#[test]
fn test_sanitize_trailing_dots_spaces() {
    assert_eq!(sanitize_filename("filename.txt..."), "filename.txt");
    assert_eq!(sanitize_filename("filename   "), "filename");
    assert_eq!(sanitize_filename("test. . ."), "test");
    assert_eq!(sanitize_filename("file .txt  "), "file .txt");
}

#[test]
fn test_sanitize_path_separators() {
    assert_eq!(sanitize_filename("path/to/file.txt"), "path_to_file.txt");
    assert_eq!(sanitize_filename("C:\\Windows\\file.exe"), "C__Windows_file.exe");
    assert_eq!(sanitize_filename("mixed/path\\file"), "mixed_path_file");
}

#[test]
fn test_sanitize_multiple_reserved() {
    assert_eq!(sanitize_filename("CON.txt.aux"), "_CON.txt.aux");
    assert_eq!(sanitize_filename("LPT1.COM1"), "_LPT1.COM1");
    assert_eq!(sanitize_filename("normal.CON.txt"), "normal.CON.txt");
}

#[test]
fn test_sanitize_mixed_issues() {
    assert_eq!(sanitize_filename("CON<>file.txt..."), "CON__file.txt");
    assert_eq!(sanitize_filename("test|file*.zip  "), "test_file_.zip");
    assert_eq!(sanitize_filename("path/NUL:file?.txt"), "path_NUL_file_.txt");
    assert_eq!(sanitize_filename("   "), "_");
}

#[test]
fn reserved_names_are_found_in_any_case() {
    assert_eq!(sanitize_filename("con"), "_con");
    assert_eq!(sanitize_filename("Aux.log"), "_Aux.log");
    assert_eq!(sanitize_filename("safe.txt"), "safe.txt");
    assert_eq!(sanitize_filename(&sanitize_filename("a<b>. ")), "a_b_");
    assert_eq!(finish_sanitized(&replace_unsafe("nul")), "_nul");
}

#[test]
fn taken_names_are_stamped() {
    assert_eq!(unique_filename_at(false, "a.b", 7), "a.b");
    assert_eq!(unique_filename_at(true, "a.b", 7), "a[7].b");
    let stamped = ensure_unique_filename(true, "x.jpg");
    assert!(stamped.starts_with("x["));
    assert!(stamped.ends_with("].jpg"));
    assert_ne!(stamped, "x.jpg");
    assert_eq!(add_unix_millis_to_filename(".hidden", 5), ".hidden[5]");
    assert_eq!(
        stamp_name("a.b", Some(("a".to_string(), "b".to_string())), -1),
        "a[-1].b"
    );
}

#[test]
fn extensions_follow_the_last_dot() {
    assert_eq!(file_extension("a.tar.gz"), Some("gz".to_string()));
    assert_eq!(file_extension("a"), None);
    assert_eq!(file_extension(".js"), None);
    assert_eq!(file_extension(".."), None);
}

#[test]
fn modification_times_are_read() {
    assert_eq!(
        modification_time(Some("Wed, 21 Oct 2015 07:28:00 GMT")),
        Some(1_445_412_480)
    );
    assert_eq!(modification_time(Some("yesterday")), None);
    assert_eq!(modification_time(None), None);
}

#[test]
fn missing_directories_are_created() {
    let m = FileManager::new();
    assert!(m.must_create(false));
    assert!(!m.must_create(true));
}

#[test]
fn names_with_slashes_are_stamped_at_the_file() {
    assert_eq!(add_unix_millis_to_filename("a.d/b.txt", 7), "b[7].txt");
    assert_eq!(add_unix_millis_to_filename("a.d/b", 7), "a.d/b[7]");
    assert_eq!(add_unix_millis_to_filename("a/.b", 7), "a/.b[7]");
    assert_eq!(file_extension("a.d/b"), None);
    assert_eq!(file_extension("a/b.js"), Some("js".to_string()));
}

#[test]
fn sanitized_names_stay() {
    for name in ["CON.txt", "lpt9", "a:b. .", "nul. ", "\u{1}\u{85}", "", "CON .txt", "\u{131}"] {
        let once = sanitize_filename(name);
        assert_eq!(sanitize_filename(&once), once);
    }
    assert_eq!(sanitize_filename("CON "), "CON");
    assert_eq!(sanitize_filename("CON"), "_CON");
}

#[test]
fn a_dot_behind_a_character_starts_the_extension() {
    assert_eq!(file_extension("x:y.js"), Some("js".to_string()));
    assert_eq!(file_extension("C:y.js"), Some("js".to_string()));
    assert_eq!(file_extension("a\\b.js"), Some("js".to_string()));
    assert_eq!(file_extension("a\\b"), None);
    assert_eq!(file_extension("/b.js"), Some("js".to_string()));
    assert_eq!(add_unix_millis_to_filename("xy:z.txt", 7), "xy:z[7].txt");
    assert_eq!(add_unix_millis_to_filename("xy:z", 7), "xy:z[7]");
    assert!(add_unix_millis_to_filename("a\\b.txt", 7).ends_with("b[7].txt"));
}

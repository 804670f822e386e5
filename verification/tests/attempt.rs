use ggg::app::config::{Config, FolderConfig, ReferrerPolicy};
use ggg::clock::Moment;
use ggg::download::attempt::{
    filename_from_redirect, resolve_referrer, Action, Attempt, Event, Stage,
};
use ggg::download::http_client::DownloadInfo;
use ggg::download::task::{DownloadStatus, DownloadTask};
use ggg::file::path::SavePath;
use ggg::text_map::TextMap;

fn path(parts: &[&str]) -> SavePath {
    SavePath::new(parts.iter().map(|p| p.to_string()).collect())
}

fn config() -> Config {
    Config::default_in(path(&["/", "downloads"]), path(&["/", "scripts"]))
}

fn task() -> DownloadTask {
    let mut t = DownloadTask::new(
        "https://example.com/a/file.zip".to_string(),
        path(&["/", "downloads"]),
    );
    t.started_at = Some(t.created_at);
    t
}

fn info(status: u16) -> DownloadInfo {
    DownloadInfo {
        size: Some(100),
        resume_supported: true,
        etag: None,
        last_modified: Some("Wed, 21 Oct 2015 07:28:00 GMT".to_string()),
        filename: None,
        status,
        headers: TextMap::new(),
        content_type: None,
        auth_required: status == 401,
        auth_realm: None,
        final_url: None,
    }
}

#[test]
fn a_plain_download_runs_through() {
    let c = config();
    let t = task();
    let now = Moment { secs: t.created_at.secs + 5, ..t.created_at };
    let (mut a, step) = Attempt::begin(t, &c, false, false);
    match step.action {
        Action::Probe { url, headers } => {
            assert_eq!(url, "https://example.com/a/file.zip");
            assert!(headers.get("user-agent").is_none() || headers.len() > 0);
        }
        _ => panic!("the server is asked first"),
    }
    let step = a.advance(Event::Probed(info(200)), &c, now);
    assert!(step.save.is_some());
    match step.action {
        Action::Locate { directory, filename } => {
            assert_eq!(directory, path(&["/", "downloads"]));
            assert_eq!(filename, "file.zip");
        }
        _ => panic!("the place is looked at"),
    }
    let step = a.advance(Event::Located { exists: false, size: 0 }, &c, now);
    match step.action {
        Action::Transfer { resume_from, filename, .. } => {
            assert_eq!(resume_from, None);
            assert_eq!(filename, "file.zip");
        }
        _ => panic!("the file is fetched"),
    }
    let step = a.advance(Event::Transferred(info(200)), &c, now);
    assert_eq!(step.mtime, Some(1_445_412_480));
    assert!(matches!(step.action, Action::Finish));
    assert_eq!(a.stage, Stage::Over);
    assert_eq!(a.task.status, DownloadStatus::Completed);
    assert_eq!(a.task.downloaded, 100);
    assert_eq!(a.task.completed_at, Some(now));
}

#[test]
fn interrupted_downloads_go_on_where_they_were() {
    let c = config();
    let t = task();
    let now = t.created_at;
    let (mut a, _) = Attempt::begin(t, &c, false, true);
    a.advance(Event::Probed(info(200)), &c, now);
    let step = a.advance(Event::Located { exists: true, size: 40 }, &c, now);
    match step.action {
        Action::Transfer { resume_from, .. } => assert_eq!(resume_from, Some(40)),
        _ => panic!("the file is fetched"),
    }
    assert_eq!(a.task.downloaded, 40);
}

#[test]
fn new_downloads_do_not_overwrite_files() {
    let c = config();
    let t = task();
    let now = t.created_at;
    let (mut a, _) = Attempt::begin(t, &c, false, false);
    a.advance(Event::Probed(info(200)), &c, now);
    let step = a.advance(Event::Located { exists: true, size: 40 }, &c, now);
    match step.action {
        Action::Transfer { resume_from, filename, .. } => {
            assert_eq!(resume_from, None);
            assert_ne!(filename, "file.zip");
            assert!(filename.starts_with("file["));
        }
        _ => panic!("the file is fetched"),
    }
}

#[test]
fn credentials_come_from_scripts() {
    let c = config();
    let t = task();
    let now = t.created_at;
    let (mut a, _) = Attempt::begin(t, &c, true, false);
    let step = a.advance(Event::Probed(info(401)), &c, now);
    assert!(matches!(step.action, Action::AskCredentials(_)));
    let step = a.advance(
        Event::Credentials {
            username: Some("user".to_string()),
            password: Some("pass".to_string()),
        },
        &c,
        now,
    );
    match step.action {
        Action::Probe { headers, .. } => {
            assert_eq!(headers.get("authorization"), Some(&"Basic dXNlcjpwYXNz".to_string()));
        }
        _ => panic!("the server is asked again"),
    }
    let step = a.advance(Event::Probed(info(401)), &c, now);
    match step.action {
        Action::GiveUp(m) => assert_eq!(m, "Authentication failed: Invalid credentials"),
        _ => panic!("rejected credentials end the attempt"),
    }
}

#[test]
fn without_scripts_there_are_no_credentials() {
    let c = config();
    let t = task();
    let now = t.created_at;
    let (mut a, _) = Attempt::begin(t, &c, false, false);
    let step = a.advance(Event::Probed(info(401)), &c, now);
    match step.action {
        Action::GiveUp(m) => {
            assert_eq!(m, "Authentication required (HTTP 401) but scripting is disabled")
        }
        _ => panic!("the attempt ends"),
    }
}

#[test]
fn scripts_may_rename_and_move_the_file() {
    let c = config();
    let t = task();
    let now = t.created_at;
    let (mut a, _) = Attempt::begin(t, &c, true, false);
    let step = a.advance(Event::Probed(info(200)), &c, now);
    assert!(matches!(step.action, Action::Inspect(_)));
    let step = a.advance(Event::Inspected, &c, now);
    assert!(matches!(step.action, Action::Locate { .. }));
    a.advance(Event::Located { exists: false, size: 0 }, &c, now);
    let step = a.advance(Event::Transferred(info(200)), &c, now);
    assert!(matches!(step.action, Action::Complete(_)));
    let step = a.advance(
        Event::Completed {
            new_filename: Some("new.zip".to_string()),
            move_to: Some(path(&["/", "archive"])),
        },
        &c,
        now,
    );
    assert!(matches!(step.action, Action::CheckName(_)));
    let step = a.advance(Event::NameChecked { taken: false }, &c, now);
    match step.action {
        Action::Rename { from, to } => {
            assert_eq!(from, "file.zip");
            assert_eq!(to, "new.zip");
        }
        _ => panic!("the file is renamed"),
    }
    let step = a.advance(Event::Renamed { ok: true }, &c, now);
    match step.action {
        Action::Move { filename, target } => {
            assert_eq!(filename, "new.zip");
            assert_eq!(target, path(&["/", "archive"]));
        }
        _ => panic!("the file is moved"),
    }
    let step = a.advance(Event::Moved { ok: true }, &c, now);
    assert!(matches!(step.action, Action::Finish));
    assert_eq!(a.task.filename, "new.zip");
    assert_eq!(a.task.save_path, path(&["/", "archive"]));
}

#[test]
fn failures_end_the_attempt() {
    let c = config();
    let t = task();
    let now = t.created_at;
    let (mut a, _) = Attempt::begin(t, &c, false, false);
    let step = a.advance(Event::Failed("no route".to_string()), &c, now);
    match step.action {
        Action::GiveUp(m) => assert_eq!(m, "no route"),
        _ => panic!("the attempt ends"),
    }
}

#[test]
fn names_come_from_redirects() {
    assert_eq!(filename_from_redirect("https://cdn/x/y.bin?sig=1"), "y.bin");
    let c = config();
    let t = task();
    let now = t.created_at;
    let (mut a, _) = Attempt::begin(t, &c, false, false);
    let mut i = info(200);
    i.final_url = Some("https://cdn.example.com/real.bin?x=1".to_string());
    a.advance(Event::Probed(i), &c, now);
    assert_eq!(a.task.filename, "real.bin");
}

#[test]
fn names_come_from_the_server() {
    let c = config();
    let t = task();
    let now = t.created_at;
    let (mut a, _) = Attempt::begin(t, &c, false, false);
    let mut i = info(200);
    i.filename = Some("a<b.txt".to_string());
    a.advance(Event::Probed(i), &c, now);
    assert_eq!(a.task.filename, "a_b.txt");
}

#[test]
fn referrers_follow_the_policy() {
    let mut c = config();
    let mut t = task();
    c.download.referrer_policy = ReferrerPolicy::url_origin();
    assert_eq!(resolve_referrer(&c, &t), Some("https://example.com/".to_string()));
    let mut f = FolderConfig::new_with_name("f".to_string(), path(&[]));
    f.referrer_policy = Some(ReferrerPolicy::none());
    c.folders.insert("default".to_string(), f);
    assert_eq!(resolve_referrer(&c, &t), None);
    t.folder_id = "other".to_string();
    t.headers.insert("Referer".to_string(), "mine".to_string());
    assert_eq!(resolve_referrer(&c, &t), None);
}

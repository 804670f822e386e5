//! Folders and scripts, as they are managed on the command line.

use vstd::prelude::*;
use vstd::string::*;
use super::config::{flag_value, number_value};
use crate::app::config::{display_name, name_in_use, plain_folder, Config, FolderConfig, FolderView};
use crate::file::path::SavePath;
use crate::ids::uuid_bits;
use crate::text::{
    cut_once, decimal, flag_fault, flag_of, flag_text, law_cut_at_the_first, law_flag_of_text,
    law_flags_are_words, law_parse_of_decimal, number_error_text, number_fault, parsed, split_once,
    text_eq, trim, trimmed,
};

verus! {

/// Whether only the folders may differ.
pub open spec fn sections_same(a: Config, b: Config) -> bool {
    a.general == b.general && a.download == b.download && a.network == b.network && a.scripts
        == b.scripts && a.keybindings == b.keybindings
}

/// Whether an id is what a folder is meant by: its key, or, if there is no such
/// key, a name that a folder has.
pub open spec fn folder_meant(config: Config, id: Seq<char>, key: Seq<char>) -> bool {
    config.folders@.contains_key(key) && (if config.folders@.contains_key(id) {
        key == id
    } else {
        config.folders@[key].name@ == id
    })
}

/// Whether an id means some folder.
pub open spec fn means_folder(config: Config, id: Seq<char>) -> bool {
    config.folders@.contains_key(id) || name_in_use(config.folders@, id)
}

/// A folder is meant by its key, or else by its name; a text means one exactly if it
/// is a key or a name.
pub proof fn law_folders_are_meant(config: Config, id: Seq<char>, key: Seq<char>)
    ensures
        means_folder(config, id) <==> exists|k: Seq<char>| #[trigger] folder_meant(config, id, k),
        folder_meant(config, id, key) ==> config.folders@.contains_key(key),
        config.folders@.contains_key(id) ==> (folder_meant(config, id, key) <==> key == id),
        !config.folders@.contains_key(id) && config.folders@.contains_key(key) ==> (folder_meant(
            config,
            id,
            key,
        ) <==> config.folders@[key].name@ == id),
{
    if config.folders@.contains_key(id) {
        assert(folder_meant(config, id, id));
    } else if name_in_use(config.folders@, id) {
        let k = choose|k: Seq<char>| #[trigger]
            config.folders@.contains_key(k) && config.folders@[k].name@ == id;
        assert(folder_meant(config, id, k));
    }
}

/// The key of the folder that is meant by a key or a name.
pub fn resolve_folder_id(config: &Config, id: &str) -> (r: Option<String>)
    ensures
        match r {
            Some(key) => folder_meant(*config, id@, key@) && means_folder(*config, id@),
            None => !means_folder(*config, id@),
        },
{
    if config.folders.contains_key(id) {
        return Some(id.to_owned());
    }
    config.find_folder_id_by_name(id)
}

/// What is said of an id that means no folder.
pub open spec fn not_found(id: Seq<char>) -> Seq<char> {
    "Folder '"@ + id + "' not found"@
}

fn folder_not_found(id: &str) -> (r: String)
    ensures
        r@ == not_found(id@),
{
    let mut s = "Folder '".to_owned();
    s.append(id);
    s.append("' not found");
    s
}

/// Creates a folder under the given key, unless a folder has its name.
pub fn create_folder_under(
    config: &mut Config,
    folder_id: String,
    name: &str,
    path: SavePath,
    auto_start: bool,
) -> (r: Result<(), String>)
    ensures
        if name_in_use(old(config).folders@, name@) {
            r is Err && r->Err_0@ == "Folder '"@ + name@ + "' already exists"@ && *final(config)
                == *old(config)
        } else {
            r is Ok && exists|f: FolderConfig|
                f@ == (FolderView {
                    auto_start_downloads: auto_start,
                    ..plain_folder(name@, path@)
                }) && final(config).folders@ == #[trigger] old(config).folders@.insert(
                    folder_id@,
                    f,
                )
        },
        sections_same(*old(config), *final(config)),
{
    if config.find_folder_id_by_name(name).is_some() {
        let mut s = "Folder '".to_owned();
        s.append(name);
        s.append("' already exists");
        return Err(s);
    }
    let mut folder = FolderConfig::new_with_name(name.to_owned(), path);
    folder.auto_start_downloads = auto_start;
    assert(folder@ =~= FolderView {
        auto_start_downloads: auto_start,
        ..plain_folder(name@, path@)
    });
    config.folders.insert(folder_id, folder);
    Ok(())
}

/// Creates a folder under a new random key, unless a folder has its name.
pub fn create_folder(config: &mut Config, name: &str, path: SavePath, auto_start: bool) -> (r: Result<
    (),
    String,
>)
    ensures
        if name_in_use(old(config).folders@, name@) {
            r is Err && r->Err_0@ == "Folder '"@ + name@ + "' already exists"@ && *final(config)
                == *old(config)
        } else {
            r is Ok && exists|id: Seq<char>, f: FolderConfig|
                uuid_bits(id) is Some && f@ == (FolderView {
                    auto_start_downloads: auto_start,
                    ..plain_folder(name@, path@)
                }) && final(config).folders@ == #[trigger] old(config).folders@.insert(id, f)
        },
        sections_same(*old(config), *final(config)),
{
    let id = Config::generate_folder_id();
    create_folder_under(config, id, name, path, auto_start)
}

/// A folder with one setting set to a text, or what is said of a setting that
/// there is not or of a text that it cannot be set to.
pub open spec fn folder_set(f: FolderView, key: Seq<char>, value: Seq<char>) -> Result<
    FolderView,
    Seq<char>,
> {
    if key == "auto_date_directory"@ {
        match flag_of(value) {
            Some(b) => Ok(FolderView { auto_date_directory: b, ..f }),
            None => Err(flag_fault()),
        }
    } else if key == "auto_start_downloads"@ {
        match flag_of(value) {
            Some(b) => Ok(FolderView { auto_start_downloads: b, ..f }),
            None => Err(flag_fault()),
        }
    } else if key == "max_concurrent"@ {
        match parsed(value, usize::MAX as nat) {
            Some(n) => Ok(FolderView { max_concurrent: Some(n as usize), ..f }),
            None => Err(number_error_text(number_fault(value, usize::MAX as nat))),
        }
    } else if key == "scripts_enabled"@ {
        match flag_of(value) {
            Some(b) => Ok(FolderView { scripts_enabled: Some(b), ..f }),
            None => Err(flag_fault()),
        }
    } else if key == "user_agent"@ {
        Ok(FolderView { user_agent: Some(value), ..f })
    } else {
        Err(
            "Unknown configuration key: "@ + key
                + ". Valid keys: auto_date_directory, auto_start_downloads, max_concurrent, scripts_enabled, user_agent"@,
        )
    }
}

/// The setting and the text of a line `setting=text`.
pub open spec fn assignment(line: Seq<char>) -> Option<(Seq<char>, Seq<char>)> {
    match cut_once(line, '=') {
        Some((key, value)) => Some((trimmed(key), trimmed(value))),
        None => None,
    }
}

/// Each key sets the setting of its name to the value that is written, and no other
/// setting; a value that cannot be read and a key that there is not are refused.
pub proof fn law_folder_settings_by_key(f: FolderView, value: Seq<char>, b: bool, n: usize)
    ensures
        folder_set(f, "auto_date_directory"@, flag_text(b)) == Ok::<FolderView, Seq<char>>(
            FolderView { auto_date_directory: b, ..f },
        ),
        folder_set(f, "auto_start_downloads"@, flag_text(b)) == Ok::<FolderView, Seq<char>>(
            FolderView { auto_start_downloads: b, ..f },
        ),
        folder_set(f, "scripts_enabled"@, flag_text(b)) == Ok::<FolderView, Seq<char>>(
            FolderView { scripts_enabled: Some(b), ..f },
        ),
        folder_set(f, "max_concurrent"@, decimal(n as nat)) == Ok::<FolderView, Seq<char>>(
            FolderView { max_concurrent: Some(n), ..f },
        ),
        folder_set(f, "user_agent"@, value) == Ok::<FolderView, Seq<char>>(
            FolderView { user_agent: Some(value), ..f },
        ),
        value != "true"@ && value != "false"@ ==> folder_set(f, "auto_date_directory"@, value) is Err
            && folder_set(f, "auto_start_downloads"@, value) is Err && folder_set(
            f,
            "scripts_enabled"@,
            value,
        ) is Err,
        parsed(value, usize::MAX as nat) is None ==> folder_set(f, "max_concurrent"@, value) is Err,
{
    law_flag_of_text(b);
    law_flags_are_words(value);
    law_parse_of_decimal(n as nat, usize::MAX as nat);
    lemma_folder_keys_differ();
}

/// The keys of a folder's settings are pairwise different.
proof fn lemma_folder_keys_differ()
    ensures
        "auto_date_directory"@.len() == 19,
        "auto_start_downloads"@.len() == 20,
        "max_concurrent"@.len() == 14,
        "scripts_enabled"@.len() == 15,
        "user_agent"@.len() == 10,
{
    reveal_strlit("auto_date_directory");
    reveal_strlit("auto_start_downloads");
    reveal_strlit("max_concurrent");
    reveal_strlit("scripts_enabled");
    reveal_strlit("user_agent");
}

/// A key that there is not is refused.
pub proof fn law_unknown_folder_keys(f: FolderView, key: Seq<char>, value: Seq<char>)
    ensures
        key != "auto_date_directory"@ && key != "auto_start_downloads"@ && key != "max_concurrent"@
            && key != "scripts_enabled"@ && key != "user_agent"@ ==> folder_set(f, key, value) is Err,
{
}

/// What stands before the first equals sign is the key and what stands behind it the
/// value, both without white space around them; without the sign there are none.
pub proof fn law_key_and_value(key: Seq<char>, value: Seq<char>)
    requires
        !key.contains('='),
    ensures
        assignment(key + seq!['='] + value) == Some((trimmed(key), trimmed(value))),
        assignment(key) is None,
{
    law_cut_at_the_first(key, '=', value);
}

fn set_in_folder(folder: &mut FolderConfig, key: &str, value: &str) -> (r: Result<(), String>)
    ensures
        match folder_set(old(folder)@, key@, value@) {
            Ok(f) => r is Ok && final(folder)@ == f,
            Err(e) => r is Err && r->Err_0@ == e,
        },
{
    if text_eq(key, "auto_date_directory") {
        match flag_value(value) {
            Ok(b) => {
                folder.auto_date_directory = b;
            },
            Err(e) => {
                return Err(e);
            },
        }
    } else if text_eq(key, "auto_start_downloads") {
        match flag_value(value) {
            Ok(b) => {
                folder.auto_start_downloads = b;
            },
            Err(e) => {
                return Err(e);
            },
        }
    } else if text_eq(key, "max_concurrent") {
        match number_value(value, usize::MAX as u64) {
            Ok(n) => {
                folder.max_concurrent = Some(n as usize);
            },
            Err(e) => {
                return Err(e);
            },
        }
    } else if text_eq(key, "scripts_enabled") {
        match flag_value(value) {
            Ok(b) => {
                folder.scripts_enabled = Some(b);
            },
            Err(e) => {
                return Err(e);
            },
        }
    } else if text_eq(key, "user_agent") {
        folder.user_agent = Some(value.to_owned());
    } else {
        let mut s = "Unknown configuration key: ".to_owned();
        s.append(key);
        s.append(
            ". Valid keys: auto_date_directory, auto_start_downloads, max_concurrent, scripts_enabled, user_agent",
        );
        return Err(s);
    }
    Ok(())
}

/// What is said where a folder's setting cannot be set.
pub open spec fn folder_fault(
    config: Config,
    id: Seq<char>,
    key: Seq<char>,
    line: Seq<char>,
) -> Option<Seq<char>> {
    if !means_folder(config, id) {
        Some(not_found(id))
    } else {
        match assignment(line) {
            None => Some("Invalid format. Expected: key=value"@),
            Some((k, v)) => match folder_set(config.folders@[key]@, k, v) {
                Ok(_) => None,
                Err(e) => Some(e),
            },
        }
    }
}

/// A setting of a folder is refused exactly if no folder is meant, the line is no
/// assignment, or the key or the value cannot be; the first of these is said.
pub proof fn law_why_a_folder_setting_is_refused(
    config: Config,
    id: Seq<char>,
    key: Seq<char>,
    line: Seq<char>,
)
    ensures
        folder_fault(config, id, key, line) is None <==> means_folder(config, id) && assignment(
            line,
        ) is Some && folder_set(
            config.folders@[key]@,
            assignment(line)->Some_0.0,
            assignment(line)->Some_0.1,
        ) is Ok,
        !means_folder(config, id) ==> folder_fault(config, id, key, line) == Some(
            "Folder '"@ + id + "' not found"@,
        ),
        means_folder(config, id) && !line.contains('=') ==> folder_fault(config, id, key, line)
            == Some("Invalid format. Expected: key=value"@),
{
}

/// Sets a setting of the folder that is meant by `id`, as a line
/// `setting=text` says. Returns the setting and the text.
pub fn set_folder_value(config: &mut Config, id: &str, line: &str) -> (r: Result<
    (String, String),
    String,
>)
    ensures
        match r {
            Ok((k, v)) => assignment(line@) == Some((k@, v@)) && exists|key: Seq<char>,
                f: FolderConfig|
                folder_meant(*old(config), id@, key) && folder_set(
                    old(config).folders@[key]@,
                    k@,
                    v@,
                ) == Ok::<FolderView, Seq<char>>(f@) && final(config).folders@ == #[trigger] old(
                    config,
                ).folders@.insert(key, f),
            Err(e) => *final(config) == *old(config) && exists|key: Seq<char>|
                (means_folder(*old(config), id@) ==> folder_meant(*old(config), id@, key))
                    && #[trigger] folder_fault(*old(config), id@, key, line@) == Some(e@),
        },
        sections_same(*old(config), *final(config)),
{
    let key = match resolve_folder_id(config, id) {
        Some(k) => k,
        None => {
            assert(folder_fault(*old(config), id@, id@, line@) == Some(not_found(id@)));
            return Err(folder_not_found(id));
        },
    };
    let ghost kv = key@;
    let (name, value) = match split_once(line, '=') {
        Some((a, b)) => (trim(a.as_str()), trim(b.as_str())),
        None => {
            assert(folder_fault(*old(config), id@, kv, line@) == Some(
                "Invalid format. Expected: key=value"@,
            ));
            return Err("Invalid format. Expected: key=value".to_owned());
        },
    };
    let mut folder = match config.folders.get(key.as_str()) {
        Some(f) => f.clone(),
        None => {
            assert(false);
            return Err(folder_not_found(id));
        },
    };
    match set_in_folder(&mut folder, name.as_str(), value.as_str()) {
        Ok(()) => {},
        Err(e) => {
            assert(folder_fault(*old(config), id@, kv, line@) == Some(e@));
            return Err(e);
        },
    }
    config.folders.insert(key, folder);
    Ok((name, value))
}

/// Deletes the folder that is meant by `id`. Returns the name that it was shown
/// by.
pub fn delete_folder(config: &mut Config, id: &str) -> (r: Result<String, String>)
    ensures
        match r {
            Ok(name) => exists|key: Seq<char>|
                folder_meant(*old(config), id@, key) && name@ == display_name(
                    key,
                    old(config).folders@[key].name@,
                ) && final(config).folders@ == #[trigger] old(config).folders@.remove(key),
            Err(e) => !means_folder(*old(config), id@) && e@ == not_found(id@) && *final(config)
                == *old(config),
        },
        r is Ok <==> means_folder(*old(config), id@),
        sections_same(*old(config), *final(config)),
{
    match resolve_folder_id(config, id) {
        Some(key) => {
            let name = config.folder_name(key.as_str());
            let _ = config.folders.remove(key.as_str());
            Ok(name)
        },
        None => Err(folder_not_found(id)),
    }
}

/// Switches a script on or off, given whether there is such a script.
pub fn set_script_enabled(config: &mut Config, name: &str, exists_there: bool, enabled: bool) -> (r: Result<
    (),
    String,
>)
    ensures
        r is Ok <==> exists_there,
        r is Ok ==> final(config).scripts.script_files@
            == old(config).scripts.script_files@.insert(name@, enabled),
        r is Ok ==> final(config).scripts.enabled == old(config).scripts.enabled
            && final(config).scripts.directory == old(config).scripts.directory
            && final(config).scripts.timeout == old(config).scripts.timeout,
        r is Err ==> r->Err_0@ == "Script not found: "@ + name@ && *final(config) == *old(config),
        final(config).general == old(config).general,
        final(config).download == old(config).download,
        final(config).network == old(config).network,
        final(config).keybindings == old(config).keybindings,
        final(config).folders == old(config).folders,
{
    if !exists_there {
        let mut s = "Script not found: ".to_owned();
        s.append(name);
        return Err(s);
    }
    config.scripts.script_files.insert(name.to_owned(), enabled);
    Ok(())
}

/// A folder that was created is found by its name.
pub proof fn law_created_folder_is_meant(
    before: Config,
    after: Config,
    id: Seq<char>,
    f: FolderConfig,
    name: Seq<char>,
)
    requires
        !name_in_use(before.folders@, name),
        f.name@ == name,
        !before.folders@.contains_key(name),
        after.folders@ == before.folders@.insert(id, f),
    ensures
        means_folder(after, name),
        forall|key: Seq<char>| #[trigger] folder_meant(after, name, key) ==> key == id,
{
    assert(after.folders@.contains_key(id) && after.folders@[id].name@ == name);
    assert forall|key: Seq<char>| #[trigger] folder_meant(after, name, key) implies key == id by {
        if key != id {
            assert(before.folders@.contains_key(key));
        }
    }
}

/// A folder is created exactly if none has its name, with nothing set but its place and
/// whether downloads start by themselves; no other folder and no other setting changes.
pub proof fn law_create_folder(
    config: &mut Config,
    folder_id: String,
    name: &str,
    path: SavePath,
    auto_start: bool,
    r: Result<(), String>,
    other: Seq<char>,
)
    requires
        call_ensures(create_folder_under, (config, folder_id, name, path, auto_start), r),
    ensures
        r is Err <==> exists|k: Seq<char>| #[trigger]
            old(config).folders@.contains_key(k) && old(config).folders@[k].name@ == name@,
        r is Err ==> *final(config) == *old(config),
        r is Ok ==> {
            let f = final(config).folders@[folder_id@]@;
            &&& final(config).folders@.contains_key(folder_id@)
            &&& f.name == name@
            &&& f.save_path == path@
            &&& f.auto_start_downloads == auto_start
            &&& !f.auto_date_directory
            &&& f.scripts_enabled is None
            &&& f.max_concurrent is None
            &&& f.user_agent is None
        },
        other != folder_id@ ==> final(config).folders@.contains_key(other) == old(
            config,
        ).folders@.contains_key(other) && final(config).folders@[other] == old(
            config,
        ).folders@[other],
        final(config).download == old(config).download,
        final(config).scripts == old(config).scripts,
        final(config).general == old(config).general,
        final(config).network == old(config).network,
{
}

/// Deleting takes out the folder that is meant, and no other.
pub proof fn law_delete_folder(
    config: &mut Config,
    id: &str,
    r: Result<String, String>,
    other: Seq<char>,
)
    requires
        call_ensures(delete_folder, (config, id), r),
        old(config).folders@.contains_key(id@),
    ensures
        r is Ok,
        !final(config).folders@.contains_key(id@),
        other != id@ ==> final(config).folders@.contains_key(other) == old(
            config,
        ).folders@.contains_key(other) && final(config).folders@[other] == old(
            config,
        ).folders@[other],
        r->Ok_0@ == (if old(config).folders@[id@].name@.len() == 0 {
            id@
        } else {
            old(config).folders@[id@].name@
        }),
{
}

/// A script that there is is switched on or off, and nothing else is.
pub proof fn law_set_script_enabled(
    config: &mut Config,
    name: &str,
    there: bool,
    enabled: bool,
    r: Result<(), String>,
    other: Seq<char>,
)
    requires
        call_ensures(set_script_enabled, (config, name, there, enabled), r),
    ensures
        r is Ok <==> there,
        there ==> final(config).scripts.script_files@.contains_key(name@)
            && final(config).scripts.script_files@[name@] == enabled,
        !there ==> *final(config) == *old(config),
        other != name@ ==> final(config).scripts.script_files@.contains_key(other) == old(
            config,
        ).scripts.script_files@.contains_key(other) && final(config).scripts.script_files@[other]
            == old(config).scripts.script_files@[other],
        final(config).scripts.enabled == old(config).scripts.enabled,
        final(config).folders == old(config).folders,
        final(config).download == old(config).download,
{
}

} // verus!

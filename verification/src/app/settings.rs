//! Settings as they apply to one download, and the rules that settings must
//! keep.

use vstd::prelude::*;
use vstd::string::*;
use super::config::{Config, DownloadConfig, FolderConfig, FolderView};
use crate::clock::{format_day, utc_day, valid_instant};
use crate::download::task::{DownloadTask, TaskView};
use crate::file::path::{path_child, PathView, SavePath};
use crate::text::{decimal, decimal_u64, join, join_texts, texts};
use crate::text_map::{text_values, TextMap};

verus! {

/// Settings that apply to one download: its own before those of its folder, and
/// those before the application's.
pub struct ResolvedSettings {
    pub save_path: SavePath,
    pub user_agent: String,
    pub headers: TextMap<String>,
    pub max_concurrent: usize,
    pub scripts_enabled: bool,
    pub retry_count: u32,
    pub max_redirects: u32,
}

/// What the settings of one download say.
#[verifier::ext_equal]
pub struct ResolvedView {
    pub save_path: PathView,
    pub user_agent: Seq<char>,
    pub headers: Map<Seq<char>, Seq<char>>,
    pub max_concurrent: usize,
    pub scripts_enabled: bool,
    pub retry_count: u32,
    pub max_redirects: u32,
}

impl View for ResolvedSettings {
    type V = ResolvedView;

    open spec fn view(&self) -> ResolvedView {
        ResolvedView {
            save_path: self.save_path@,
            user_agent: self.user_agent@,
            headers: text_values(self.headers@),
            max_concurrent: self.max_concurrent,
            scripts_enabled: self.scripts_enabled,
            retry_count: self.retry_count,
            max_redirects: self.max_redirects,
        }
    }
}

/// The settings of a folder, if there is such a folder.
pub open spec fn folder_of(config: Config, folder_id: Seq<char>) -> Option<FolderView> {
    if config.folders@.contains_key(folder_id) {
        Some(config.folders@[folder_id]@)
    } else {
        None
    }
}

/// The view of an optional folder.
pub open spec fn opt_folder(o: Option<&FolderConfig>) -> Option<FolderView> {
    match o {
        Some(f) => Some(f@),
        None => None,
    }
}

/// Where a download is saved: to the place that it names itself, if that is
/// neither its folder's nor the default; else to its folder's place, in a
/// directory for the day if the folder wants that; else to the default.
pub open spec fn resolved_save_path(
    default_directory: PathView,
    folder: Option<FolderView>,
    own: PathView,
    day: Seq<char>,
) -> PathView {
    let base = match folder {
        Some(f) => f.save_path,
        None => default_directory,
    };
    if own.components != base.components && own.components != default_directory.components {
        own
    } else if folder is Some && folder->0.auto_date_directory {
        path_child(base, day)
    } else {
        base
    }
}

/// Whether scripts run for a folder: never when the application has them
/// disabled, else as the folder says, else as the application says.
pub open spec fn resolved_scripts(app_enabled: bool, folder: Option<FolderView>) -> bool {
    app_enabled && !(folder is Some && folder->0.scripts_enabled == Some(false))
}

/// The settings of one download.
pub open spec fn resolved(config: Config, folder_id: Seq<char>, task: TaskView) -> ResolvedView {
    let folder = folder_of(config, folder_id);
    ResolvedView {
        save_path: resolved_save_path(
            config.download.default_directory@,
            folder,
            task.save_path,
            utc_day(task.created_at),
        ),
        user_agent: match task.user_agent {
            Some(ua) => ua,
            None => if folder is Some && folder->0.user_agent is Some {
                folder->0.user_agent->0
            } else {
                config.download.user_agent@
            },
        },
        headers: match folder {
            Some(f) => f.default_headers.union_prefer_right(task.headers),
            None => task.headers,
        },
        max_concurrent: if folder is Some && folder->0.max_concurrent is Some {
            folder->0.max_concurrent->0
        } else if config.download.max_concurrent_per_folder is Some {
            config.download.max_concurrent_per_folder->0
        } else {
            config.download.max_concurrent
        },
        scripts_enabled: resolved_scripts(config.scripts.enabled, folder),
        retry_count: config.download.retry_count,
        max_redirects: config.download.max_redirects,
    }
}

/// Scripts that the application has disabled run for no folder.
pub proof fn law_disabled_scripts_stay_disabled(
    config: Config,
    folder_id: Seq<char>,
    task: TaskView,
)
    requires
        !config.scripts.enabled,
    ensures
        !resolved(config, folder_id, task).scripts_enabled,
{
}

/// A header of the task is kept, whatever its folder says; a header of the
/// folder that the task does not set is kept too.
pub proof fn law_task_headers_win(
    config: Config,
    folder_id: Seq<char>,
    task: TaskView,
    name: Seq<char>,
)
    ensures
        task.headers.contains_key(name) ==> resolved(config, folder_id, task).headers.contains_key(
            name,
        ) && resolved(config, folder_id, task).headers[name] == task.headers[name],
        !task.headers.contains_key(name) && folder_of(config, folder_id) is Some && folder_of(
            config,
            folder_id,
        )->0.default_headers.contains_key(name) ==> resolved(
            config,
            folder_id,
            task,
        ).headers.contains_key(name) && resolved(config, folder_id, task).headers[name]
            == folder_of(config, folder_id)->0.default_headers[name],
{
}

/// A user agent of the task's own is used; else the folder's; else the
/// application's.
pub proof fn law_user_agent_inherits(config: Config, folder_id: Seq<char>, task: TaskView)
    ensures
        task.user_agent is Some ==> resolved(config, folder_id, task).user_agent
            == task.user_agent->0,
        task.user_agent is None && folder_of(config, folder_id) is Some && folder_of(
            config,
            folder_id,
        )->0.user_agent is Some ==> resolved(config, folder_id, task).user_agent == folder_of(
            config,
            folder_id,
        )->0.user_agent->0,
        task.user_agent is None && (folder_of(config, folder_id) is None || folder_of(
            config,
            folder_id,
        )->0.user_agent is None) ==> resolved(config, folder_id, task).user_agent
            == config.download.user_agent@,
{
}

/// A download that names a place of its own is saved there. One whose place is that
/// of its folder, or the default one, is saved in its folder's place, under the day
/// that it was added on if the folder keeps days apart. Without a folder the default
/// place stands for the folder's.
pub proof fn law_saved_in_the_folders_place(config: Config, folder_id: Seq<char>, task: TaskView)
    ensures
        ({
            let r = resolved(config, folder_id, task).save_path;
            let own = task.save_path.components;
            let usual = config.download.default_directory@;
            let known = config.folders@.contains_key(folder_id);
            let f = config.folders@[folder_id]@;
            &&& known && own != f.save_path.components && own != usual.components ==> r
                == task.save_path
            &&& known && (own == f.save_path.components || own == usual.components)
                && !f.auto_date_directory ==> r == f.save_path
            &&& known && (own == f.save_path.components || own == usual.components)
                && f.auto_date_directory ==> r.components == f.save_path.components.push(
                utc_day(task.created_at),
            )
            &&& !known && own != usual.components ==> r == task.save_path
            &&& !known && own == usual.components ==> r == usual
        }),
{
}

/// A limit of the folder holds for it; else the application's limit per folder, if
/// there is one; else the application's limit. Scripts run where both have them
/// enabled, and a folder that says nothing has them as the application does. The
/// other settings are the application's.
pub proof fn law_limits_and_scripts_inherit(config: Config, folder_id: Seq<char>, task: TaskView)
    ensures
        ({
            let r = resolved(config, folder_id, task);
            let known = config.folders@.contains_key(folder_id);
            let f = config.folders@[folder_id]@;
            &&& known && f.max_concurrent is Some ==> r.max_concurrent == f.max_concurrent->0
            &&& !(known && f.max_concurrent is Some)
                && config.download.max_concurrent_per_folder is Some ==> r.max_concurrent
                == config.download.max_concurrent_per_folder->0
            &&& !(known && f.max_concurrent is Some)
                && config.download.max_concurrent_per_folder is None ==> r.max_concurrent
                == config.download.max_concurrent
            &&& config.scripts.enabled && known && f.scripts_enabled is Some ==> r.scripts_enabled
                == f.scripts_enabled->0
            &&& !(known && f.scripts_enabled is Some) ==> r.scripts_enabled
                == config.scripts.enabled
            &&& r.retry_count == config.download.retry_count
            &&& r.max_redirects == config.download.max_redirects
        }),
{
}

/// A download has no header that neither it nor its folder has.
pub proof fn law_no_other_headers(
    config: Config,
    folder_id: Seq<char>,
    task: TaskView,
    name: Seq<char>,
)
    ensures
        resolved(config, folder_id, task).headers.contains_key(name) <==> task.headers.contains_key(
            name,
        ) || (config.folders@.contains_key(folder_id)
            && config.folders@[folder_id]@.default_headers.contains_key(name)),
        config.folders@.contains_key(folder_id) && !task.headers.contains_key(name)
            && config.folders@[folder_id]@.default_headers.contains_key(name) ==> resolved(
            config,
            folder_id,
            task,
        ).headers[name] == config.folders@[folder_id]@.default_headers[name],
{
}

impl ResolvedSettings {
    /// The settings of one download.
    pub fn resolve(config: &Config, folder_id: &str, task: &DownloadTask) -> (r: ResolvedSettings)
        requires
            valid_instant(task.created_at),
        ensures
            r@ == resolved(*config, folder_id@, task@),
    {
        let folder = config.folders.get(folder_id);
        let save_path = Self::resolve_save_path(config, folder, task);
        let user_agent = match &task.user_agent {
            Some(ua) => ua.clone(),
            None => {
                match folder {
                    Some(f) => {
                        match &f.user_agent {
                            Some(ua) => ua.clone(),
                            None => config.download.user_agent.clone(),
                        }
                    },
                    None => config.download.user_agent.clone(),
                }
            },
        };
        let headers = match folder {
            Some(f) => {
                let mut h = f.default_headers.copied_texts();
                h.extend_texts(&task.headers);
                h
            },
            None => task.headers.copied_texts(),
        };
        let folder_max: Option<usize> = match folder {
            Some(f) => f.max_concurrent,
            None => None,
        };
        let max_concurrent: usize = match folder_max {
            Some(n) => n,
            None => match config.download.max_concurrent_per_folder {
                Some(n) => n,
                None => config.download.max_concurrent,
            },
        };
        let scripts_enabled = Self::resolve_scripts_enabled(config, folder);
        let r = ResolvedSettings {
            save_path,
            user_agent,
            headers,
            max_concurrent,
            scripts_enabled,
            retry_count: config.download.retry_count,
            max_redirects: config.download.max_redirects,
        };
        assert(r@ =~= resolved(*config, folder_id@, task@));
        r
    }

    /// Where a download is saved, given the directory of its day.
    pub fn place_for(
        default_directory: &SavePath,
        folder: Option<&FolderConfig>,
        own: &SavePath,
        day: &str,
    ) -> (r: SavePath)
        ensures
            r@ == resolved_save_path(default_directory@, opt_folder(folder), own@, day@),
    {
        let base = match folder {
            Some(f) => &f.save_path,
            None => default_directory,
        };
        if !own.same_as(base) && !own.same_as(default_directory) {
            return own.clone();
        }
        let dated: bool = match folder {
            Some(f) => f.auto_date_directory,
            None => false,
        };
        if dated {
            base.child(day.to_owned())
        } else {
            base.clone()
        }
    }

    /// Where a download is saved.
    pub fn resolve_save_path(
        config: &Config,
        folder: Option<&FolderConfig>,
        task: &DownloadTask,
    ) -> (r: SavePath)
        requires
            valid_instant(task.created_at),
        ensures
            r@ == resolved_save_path(
                config.download.default_directory@,
                opt_folder(folder),
                task.save_path@,
                utc_day(task.created_at),
            ),
    {
        let day = format_day(task.created_at);
        Self::place_for(&config.download.default_directory, folder, &task.save_path, day.as_str())
    }

    /// Whether scripts run for a folder.
    pub fn resolve_scripts_enabled(config: &Config, folder: Option<&FolderConfig>) -> (r: bool)
        ensures
            r == resolved_scripts(config.scripts.enabled, opt_folder(folder)),
    {
        if !config.scripts.enabled {
            return false;
        }
        match folder {
            Some(f) => {
                match f.scripts_enabled {
                    Some(b) => b,
                    None => config.scripts.enabled,
                }
            },
            None => config.scripts.enabled,
        }
    }
}

// ---------------------------------------------------------------------------
// Validation
// ---------------------------------------------------------------------------

/// A rule that settings break.
#[derive(Debug)]
pub enum ValidationError {
    /// The folder enables scripts that the application has disabled.
    ScriptsEnabledWhenDisabled(String),
    /// All folders together could run more downloads than the application may.
    ConcurrentDownloadConstraintViolation {
        max_concurrent: usize,
        max_concurrent_per_folder: usize,
        parallel_folder_count: usize,
        calculated: usize,
    },
    /// The folder alone could run more downloads than the application may.
    FolderMaxConcurrentExceedsApp { folder_id: String, folder_max: usize, app_max: usize },
}

/// What a broken rule says.
pub enum ValidationView {
    Scripts(Seq<char>),
    Limits { max: usize, per_folder: usize, folders: usize, product: int },
    FolderMax { folder_id: Seq<char>, folder_max: usize, app_max: usize },
}

impl View for ValidationError {
    type V = ValidationView;

    open spec fn view(&self) -> ValidationView {
        match self {
            ValidationError::ScriptsEnabledWhenDisabled(id) => ValidationView::Scripts(id@),
            ValidationError::ConcurrentDownloadConstraintViolation {
                max_concurrent,
                max_concurrent_per_folder,
                parallel_folder_count,
                calculated,
            } => ValidationView::Limits {
                max: *max_concurrent,
                per_folder: *max_concurrent_per_folder,
                folders: *parallel_folder_count,
                product: *calculated as int,
            },
            ValidationError::FolderMaxConcurrentExceedsApp { folder_id, folder_max, app_max } =>
                ValidationView::FolderMax {
                folder_id: folder_id@,
                folder_max: *folder_max,
                app_max: *app_max,
            },
        }
    }
}

/// What broken rules say.
pub open spec fn error_views(v: Seq<ValidationError>) -> Seq<ValidationView> {
    v.map_values(|e: ValidationError| e@)
}

/// A broken rule in words.
pub open spec fn validation_text(e: ValidationView) -> Seq<char> {
    match e {
        ValidationView::Scripts(id) => "Folder '"@ + id
            + "' cannot enable scripts when application-level scripts are disabled"@,
        ValidationView::Limits { max, per_folder, folders, product } =>
            "Concurrent download constraint violated: (Max Per Folder: "@ + decimal(
            per_folder as nat,
        ) + " × Max Active Folders: "@ + decimal(folders as nat) + ") = "@ + decimal(
            product as nat,
        ) + " > Max Concurrent Downloads: "@ + decimal(max as nat),
        ValidationView::FolderMax { folder_id, folder_max, app_max } => "Folder '"@ + folder_id
            + "' max concurrent downloads ("@ + decimal(folder_max as nat)
            + ") exceeds application limit ("@ + decimal(app_max as nat) + ")"@,
    }
}

/// All broken rules in words, one after another.
pub open spec fn validation_texts(es: Seq<ValidationView>) -> Seq<char> {
    join(es.map_values(|e: ValidationView| validation_text(e)), ", "@)
}

/// The limits of all folders together can be multiplied.
pub open spec fn limits_fit(d: DownloadConfig) -> bool {
    d.max_concurrent_per_folder is Some && d.parallel_folder_count is Some
        ==> d.max_concurrent_per_folder->0 * d.parallel_folder_count->0 <= usize::MAX
}

/// The broken rules on the limits of all folders together.
pub open spec fn limit_errors(d: DownloadConfig) -> Seq<ValidationView> {
    if d.max_concurrent_per_folder is Some && d.parallel_folder_count is Some
        && d.max_concurrent_per_folder->0 * d.parallel_folder_count->0 > d.max_concurrent {
        seq![
            ValidationView::Limits {
                max: d.max_concurrent,
                per_folder: d.max_concurrent_per_folder->0,
                folders: d.parallel_folder_count->0,
                product: d.max_concurrent_per_folder->0 * d.parallel_folder_count->0,
            },
        ]
    } else {
        Seq::empty()
    }
}

/// The broken rule on the scripts of one folder.
pub open spec fn script_errors(id: Seq<char>, f: FolderConfig, scripts: bool) -> Seq<ValidationView> {
    if f.scripts_enabled == Some(true) && !scripts {
        seq![ValidationView::Scripts(id)]
    } else {
        Seq::empty()
    }
}

/// The broken rule on the limit of one folder.
pub open spec fn max_errors(id: Seq<char>, f: FolderConfig, max: usize) -> Seq<ValidationView> {
    if f.max_concurrent is Some && f.max_concurrent->0 > max {
        seq![
            ValidationView::FolderMax {
                folder_id: id,
                folder_max: f.max_concurrent->0,
                app_max: max,
            },
        ]
    } else {
        Seq::empty()
    }
}

/// The broken rules on each folder, in the order of the folders.
pub open spec fn folder_errors(
    ps: Seq<(Seq<char>, FolderConfig)>,
    scripts: bool,
    max: usize,
) -> Seq<ValidationView>
    decreases ps.len(),
{
    if ps.len() == 0 {
        Seq::empty()
    } else {
        folder_errors(ps.drop_last(), scripts, max) + script_errors(
            ps.last().0,
            ps.last().1,
            scripts,
        ) + max_errors(ps.last().0, ps.last().1, max)
    }
}

/// The rules that the settings break.
pub open spec fn config_errors(config: Config) -> Seq<ValidationView> {
    limit_errors(config.download) + folder_errors(
        config.folders.pairs(),
        config.scripts.enabled,
        config.download.max_concurrent,
    )
}

/// Settings without a broken rule keep every folder within the application's
/// limit and enable no script that the application has disabled.
pub proof fn law_valid_folders(ps: Seq<(Seq<char>, FolderConfig)>, scripts: bool, max: usize, i: int)
    requires
        folder_errors(ps, scripts, max).len() == 0,
        0 <= i < ps.len(),
    ensures
        ps[i].1.max_concurrent is Some ==> ps[i].1.max_concurrent->0 <= max,
        ps[i].1.scripts_enabled == Some(true) ==> scripts,
    decreases ps.len(),
{
    if i < ps.len() - 1 {
        law_valid_folders(ps.drop_last(), scripts, max, i);
    }
}

/// A rule is broken exactly where a folder enables scripts that the application has
/// disabled, where a folder may run more downloads than the application, or where
/// all folders together may; each broken rule says which.
pub proof fn law_every_broken_rule_is_listed(config: Config, e: ValidationView)
    ensures
        config_errors(config).contains(e) <==> {
            let d = config.download;
            ||| e is Limits && d.max_concurrent_per_folder is Some && d.parallel_folder_count is Some
                && d.max_concurrent_per_folder->0 * d.parallel_folder_count->0 > d.max_concurrent
                && e == (ValidationView::Limits {
                max: d.max_concurrent,
                per_folder: d.max_concurrent_per_folder->0,
                folders: d.parallel_folder_count->0,
                product: d.max_concurrent_per_folder->0 * d.parallel_folder_count->0,
            })
            ||| exists|i: int|
                0 <= i < config.folders.pairs().len() && is_broken_by(
                    e,
                    #[trigger] config.folders.pairs()[i],
                    config,
                )
        },
{
    let ps = config.folders.pairs();
    let first = limit_errors(config.download);
    let rest = folder_errors(ps, config.scripts.enabled, config.download.max_concurrent);
    lemma_folder_errors(ps, config, e);
    lemma_in_either(first, rest, e);
    if first.len() > 0 {
        assert(first[0] == first[0]);
        assert(first.contains(first[0]));
    }
}

/// Whether a folder breaks a rule.
pub open spec fn is_broken_by(
    e: ValidationView,
    folder: (Seq<char>, FolderConfig),
    config: Config,
) -> bool {
    let (id, f) = folder;
    ||| e == ValidationView::Scripts(id) && f.scripts_enabled == Some(true)
        && !config.scripts.enabled
    ||| f.max_concurrent is Some && f.max_concurrent->0 > config.download.max_concurrent && e == (
    ValidationView::FolderMax {
        folder_id: id,
        folder_max: f.max_concurrent->0,
        app_max: config.download.max_concurrent,
    })
}

proof fn lemma_in_either<A>(a: Seq<A>, b: Seq<A>, x: A)
    ensures
        (a + b).contains(x) <==> a.contains(x) || b.contains(x),
{
    if a.contains(x) {
        let i = choose|i: int| 0 <= i < a.len() && a[i] == x;
        assert((a + b)[i] == x);
    }
    if b.contains(x) {
        let i = choose|i: int| 0 <= i < b.len() && b[i] == x;
        assert((a + b)[a.len() + i] == x);
    }
    if (a + b).contains(x) {
        let i = choose|i: int| 0 <= i < (a + b).len() && (a + b)[i] == x;
        if i < a.len() {
            assert(a[i] == x);
        } else {
            assert(b[i - a.len()] == x);
        }
    }
}

proof fn lemma_folder_errors(
    ps: Seq<(Seq<char>, FolderConfig)>,
    config: Config,
    e: ValidationView,
)
    ensures
        folder_errors(ps, config.scripts.enabled, config.download.max_concurrent).contains(e)
            <==> exists|i: int| 0 <= i < ps.len() && is_broken_by(e, #[trigger] ps[i], config),
    decreases ps.len(),
{
    let scripts = config.scripts.enabled;
    let max = config.download.max_concurrent;
    if ps.len() > 0 {
        let before = ps.drop_last();
        lemma_folder_errors(before, config, e);
        let a = folder_errors(before, scripts, max);
        let b = script_errors(ps.last().0, ps.last().1, scripts);
        let c = max_errors(ps.last().0, ps.last().1, max);
        lemma_in_either(a + b, c, e);
        lemma_in_either(a, b, e);
        if b.len() > 0 {
            assert(b.contains(b[0]));
        }
        if c.len() > 0 {
            assert(c.contains(c[0]));
        }
        if a.contains(e) {
            let i = choose|i: int|
                0 <= i < before.len() && is_broken_by(e, #[trigger] before[i], config);
            assert(is_broken_by(e, ps[i], config));
        }
        if exists|i: int| 0 <= i < ps.len() && is_broken_by(e, #[trigger] ps[i], config) {
            let i = choose|i: int| 0 <= i < ps.len() && is_broken_by(e, #[trigger] ps[i], config);
            if i < before.len() {
                assert(before[i] == ps[i]);
            }
        }
        if is_broken_by(e, ps.last(), config) {
            assert(is_broken_by(e, ps[ps.len() - 1], config));
        }
    }
}

/// A broken rule is put in words that name the folder and the numbers; several are
/// joined with commas.
pub proof fn law_broken_rules_in_words(e: ValidationView, a: ValidationView, b: ValidationView)
    ensures
        e is Scripts ==> validation_text(e) == "Folder '"@ + e->Scripts_0
            + "' cannot enable scripts when application-level scripts are disabled"@,
        e is Limits ==> validation_text(e)
            == "Concurrent download constraint violated: (Max Per Folder: "@ + decimal(
            e->per_folder as nat,
        ) + " × Max Active Folders: "@ + decimal(e->folders as nat) + ") = "@ + decimal(
            e->product as nat,
        ) + " > Max Concurrent Downloads: "@ + decimal(e->max as nat),
        e is FolderMax ==> validation_text(e) == "Folder '"@ + e->folder_id
            + "' max concurrent downloads ("@ + decimal(e->folder_max as nat)
            + ") exceeds application limit ("@ + decimal(e->app_max as nat) + ")"@,
        validation_texts(seq![e]) == validation_text(e),
        validation_texts(seq![a, b]) == validation_text(a) + ", "@ + validation_text(b),
{
    let texts_of = |v: ValidationView| validation_text(v);
    assert(seq![e].map_values(texts_of) =~= seq![validation_text(e)]);
    let two = seq![a, b].map_values(texts_of);
    assert(two =~= seq![validation_text(a)] + seq![validation_text(b)]);
    crate::text::law_joined_with_separators(
        seq![validation_text(a)],
        seq![validation_text(b)],
        validation_text(e),
        ", "@,
    );
    crate::text::law_joined_with_separators(
        seq![validation_text(a)],
        seq![validation_text(b)],
        validation_text(a),
        ", "@,
    );
    crate::text::law_joined_with_separators(
        seq![validation_text(a)],
        seq![validation_text(b)],
        validation_text(b),
        ", "@,
    );
}

impl ValidationError {
    /// The broken rule in words.
    pub fn message(&self) -> (r: String)
        ensures
            r@ == validation_text(self@),
    {
        match self {
            ValidationError::ScriptsEnabledWhenDisabled(id) => {
                let mut out = "Folder '".to_owned();
                out.append(id.as_str());
                out.append("' cannot enable scripts when application-level scripts are disabled");
                out
            },
            ValidationError::ConcurrentDownloadConstraintViolation {
                max_concurrent,
                max_concurrent_per_folder,
                parallel_folder_count,
                calculated,
            } => {
                let mut out =
                    "Concurrent download constraint violated: (Max Per Folder: ".to_owned();
                let a = decimal_u64(*max_concurrent_per_folder as u64);
                out.append(a.as_str());
                out.append(" × Max Active Folders: ");
                let b = decimal_u64(*parallel_folder_count as u64);
                out.append(b.as_str());
                out.append(") = ");
                let c = decimal_u64(*calculated as u64);
                out.append(c.as_str());
                out.append(" > Max Concurrent Downloads: ");
                let d = decimal_u64(*max_concurrent as u64);
                out.append(d.as_str());
                out
            },
            ValidationError::FolderMaxConcurrentExceedsApp { folder_id, folder_max, app_max } => {
                let mut out = "Folder '".to_owned();
                out.append(folder_id.as_str());
                out.append("' max concurrent downloads (");
                let a = decimal_u64(*folder_max as u64);
                out.append(a.as_str());
                out.append(") exceeds application limit (");
                let b = decimal_u64(*app_max as u64);
                out.append(b.as_str());
                out.append(")");
                out
            },
        }
    }
}

/// All broken rules in words, one after another.
pub fn join_messages(errors: &Vec<ValidationError>) -> (r: String)
    ensures
        r@ == validation_texts(error_views(errors@)),
{
    let mut parts: Vec<String> = Vec::new();
    for i in 0..errors.len()
        invariant
            parts@.len() == i,
            forall|j: int|
                0 <= j < i ==> (#[trigger] parts@[j])@ == validation_text(errors@[j]@),
    {
        let m = errors[i].message();
        parts.push(m);
    }
    assert(texts(parts@) =~= error_views(errors@).map_values(
        |e: ValidationView| validation_text(e),
    ));
    join_texts(&parts, ", ")
}

/// Checks the settings and lists the rules that they break.
pub fn validate_folder_config(config: &Config) -> (r: Result<(), Vec<ValidationError>>)
    requires
        limits_fit(config.download),
    ensures
        match r {
            Ok(_) => config_errors(*config).len() == 0,
            Err(es) => error_views(es@) == config_errors(*config) && es@.len() > 0,
        },
{
    let mut errors: Vec<ValidationError> = Vec::new();
    let max: usize = config.download.max_concurrent;
    assert(error_views(errors@) =~= Seq::empty());
    match (config.download.max_concurrent_per_folder, config.download.parallel_folder_count) {
        (Some(per_folder), Some(folders)) => {
            let calculated: usize = per_folder * folders;
            if calculated > max {
                errors.push(
                    ValidationError::ConcurrentDownloadConstraintViolation {
                        max_concurrent: max,
                        max_concurrent_per_folder: per_folder,
                        parallel_folder_count: folders,
                        calculated,
                    },
                );
            }
        },
        _ => {},
    }
    assert(error_views(errors@) =~= limit_errors(config.download));
    let n: usize = config.folders.len();
    let ghost ps = config.folders.pairs();
    let ghost base = limit_errors(config.download);
    assert(base + folder_errors(ps.take(0), config.scripts.enabled, max) =~= base);
    for i in 0..n
        invariant
            n == ps.len(),
            ps == config.folders.pairs(),
            base == limit_errors(config.download),
            error_views(errors@) == base + folder_errors(
                ps.take(i as int),
                config.scripts.enabled,
                max,
            ),
    {
        let id = config.folders.key_at(i);
        let f = config.folders.value_at(i);
        let ghost before = error_views(errors@);
        proof {
            assert(ps.take(i + 1).drop_last() =~= ps.take(i as int));
            assert(ps.take(i + 1).last() == ps[i as int]);
        }
        let wants_scripts: bool = match f.scripts_enabled {
            Some(b) => b,
            None => false,
        };
        if wants_scripts && !config.scripts.enabled {
            errors.push(ValidationError::ScriptsEnabledWhenDisabled(id.clone()));
        }
        assert(error_views(errors@) =~= before + script_errors(id@, *f, config.scripts.enabled));
        let ghost middle = error_views(errors@);
        if let Some(folder_max) = f.max_concurrent {
            if folder_max > max {
                errors.push(
                    ValidationError::FolderMaxConcurrentExceedsApp {
                        folder_id: id.clone(),
                        folder_max,
                        app_max: max,
                    },
                );
            }
        }
        assert(error_views(errors@) =~= middle + max_errors(id@, *f, max));
        assert(error_views(errors@) =~= base + folder_errors(
            ps.take(i + 1),
            config.scripts.enabled,
            max,
        ));
    }
    assert(ps.take(n as int) =~= ps);
    if errors.len() == 0 {
        Ok(())
    } else {
        Err(errors)
    }
}

/// A download is saved to its own place, if that is neither its folder's nor the default
/// one; else to its folder's, in the directory of the day if the folder wants that; and
/// without a folder to the default one.
pub proof fn law_place_for(
    default_directory: &SavePath,
    folder: Option<&FolderConfig>,
    own: &SavePath,
    day: &str,
    r: SavePath,
)
    requires
        call_ensures(ResolvedSettings::place_for, (default_directory, folder, own, day), r),
    ensures
        ({
            let usual = default_directory@.components;
            let named = own@.components;
            &&& folder is None && named == usual ==> r@ == default_directory@
            &&& folder is None && named != usual ==> r@ == own@
            &&& folder is Some && named != usual && named != folder->0.save_path@.components ==> r@
                == own@
            &&& folder is Some && (named == usual || named == folder->0.save_path@.components)
                && !folder->0.auto_date_directory ==> r@ == folder->0.save_path@
            &&& folder is Some && (named == usual || named == folder->0.save_path@.components)
                && folder->0.auto_date_directory ==> r@.components
                == folder->0.save_path@.components.push(day@)
        }),
{
}

/// Scripts run where the application has them enabled and the folder does not disable
/// them.
pub proof fn law_resolve_scripts_enabled(config: &Config, folder: Option<&FolderConfig>, r: bool)
    requires
        call_ensures(ResolvedSettings::resolve_scripts_enabled, (config, folder), r),
    ensures
        r <==> config.scripts.enabled && (folder is None || folder->0.scripts_enabled is None
            || folder->0.scripts_enabled->0),
{
}

/// Settings are valid exactly if no rule is broken: the limits of all folders together
/// and of each alone stay within the application's, and no folder enables scripts that
/// the application has disabled.
pub proof fn law_validate_folder_config(config: &Config, r: Result<(), Vec<ValidationError>>)
    requires
        call_ensures(validate_folder_config, (config,), r),
    ensures
        r is Ok <==> {
            let d = config.download;
            &&& d.max_concurrent_per_folder is Some && d.parallel_folder_count is Some
                ==> d.max_concurrent_per_folder->0 * d.parallel_folder_count->0 <= d.max_concurrent
            &&& forall|i: int|
                0 <= i < config.folders.pairs().len() ==> {
                    let f = (#[trigger] config.folders.pairs()[i]).1;
                    &&& f.scripts_enabled == Some(true) ==> config.scripts.enabled
                    &&& f.max_concurrent is Some ==> f.max_concurrent->0 <= d.max_concurrent
                }
        },
{
    let ps = config.folders.pairs();
    let es = config_errors(*config);
    let d = config.download;
    if es.len() > 0 {
        assert(es.contains(es[0]));
        law_every_broken_rule_is_listed(*config, es[0]);
        if !(d.max_concurrent_per_folder is Some && d.parallel_folder_count is Some
            && d.max_concurrent_per_folder->0 * d.parallel_folder_count->0 > d.max_concurrent) {
            let i = choose|i: int|
                0 <= i < ps.len() && is_broken_by(es[0], #[trigger] ps[i], *config);
            assert(is_broken_by(es[0], config.folders.pairs()[i], *config));
        }
    } else {
        assert forall|i: int| 0 <= i < ps.len() implies {
            let f = (#[trigger] config.folders.pairs()[i]).1;
            &&& f.scripts_enabled == Some(true) ==> config.scripts.enabled
            &&& f.max_concurrent is Some ==> f.max_concurrent->0 <= d.max_concurrent
        } by {
            law_valid_folders(ps, config.scripts.enabled, d.max_concurrent, i);
        }
    }
}

} // verus!

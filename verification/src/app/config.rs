//! The configuration: settings of the application, and of each folder.

use vstd::prelude::*;
use vstd::string::*;
use super::keybindings::KeybindingsConfig;
use super::settings::{
    config_errors, join_messages, limits_fit, validate_folder_config, validation_texts,
};
use crate::file::path::{PathView, SavePath};
use crate::ids::{format_uuid, fresh_id, lemma_hex_digits, parse_uuid, uuid_bits, uuid_text};
use crate::text::{
    chars_of, clone_opt, le_text, lemma_insert_multiset, lemma_text_le_total, lemma_text_le_trans, lemma_trailing,
    opt_text, other_than, string_of, text_eq, text_le, texts, trailing,
};
use crate::text_map::{
    has_key, key_index, keys_distinct, lemma_map_of, map_of, text_values, TextMap,
};
use crate::web::{origin_of, parse_url, url_origin, url_parts, ParsedUrl, UrlParts};

verus! {

// ---------------------------------------------------------------------------
// Referrers
// ---------------------------------------------------------------------------

/// How the Referer header of a request is computed.
#[derive(Debug, PartialEq, Eq)]
pub enum ReferrerPolicy {
    /// One of the fixed rules.
    Simple(ReferrerPolicyKind),
    /// A value of the user's own.
    Custom { kind: CustomTag, value: String },
}

/// Marks a value of the user's own.
#[derive(Debug, Clone, Copy, PartialEq, Eq, Structural)]
pub enum CustomTag {
    Custom,
}

/// The fixed rules.
#[derive(Debug, Clone, Copy, PartialEq, Eq, Structural)]
pub enum ReferrerPolicyKind {
    /// No header.
    NoReferrer,
    /// The URL of the download.
    SameAsUrl,
    /// The URL of the directory that the download stands in.
    UrlPath,
    /// The origin of the download.
    UrlOrigin,
}

/// What a referrer policy says.
pub enum PolicyView {
    Simple(ReferrerPolicyKind),
    Custom(Seq<char>),
}

impl View for ReferrerPolicy {
    type V = PolicyView;

    open spec fn view(&self) -> PolicyView {
        match self {
            ReferrerPolicy::Simple(kind) => PolicyView::Simple(*kind),
            ReferrerPolicy::Custom { kind, value } => PolicyView::Custom(value@),
        }
    }
}

/// The view of an optional policy.
pub open spec fn opt_policy(o: Option<ReferrerPolicy>) -> Option<PolicyView> {
    match o {
        Some(p) => Some(p@),
        None => None,
    }
}

impl Clone for ReferrerPolicy {
    fn clone(&self) -> (r: ReferrerPolicy)
        ensures
            r@ == self@,
    {
        match self {
            ReferrerPolicy::Simple(kind) => ReferrerPolicy::Simple(*kind),
            ReferrerPolicy::Custom { kind, value } => ReferrerPolicy::Custom {
                kind: *kind,
                value: value.clone(),
            },
        }
    }
}

impl Default for ReferrerPolicy {
    fn default() -> (r: ReferrerPolicy)
        ensures
            r@ == PolicyView::Simple(ReferrerPolicyKind::NoReferrer),
    {
        ReferrerPolicy::Simple(ReferrerPolicyKind::NoReferrer)
    }
}

/// A path up to and with its last slash, or just a slash if it has none.
pub open spec fn parent_path(path: Seq<char>) -> Seq<char> {
    if path.contains('/') {
        path.take(path.len() - trailing(path, other_than('/')))
    } else {
        "/"@
    }
}

/// The referrer for a download, given the parts and the origin of its URL. A text
/// that is no URL has none, unless the policy says what to send.
pub open spec fn referrer(
    policy: PolicyView,
    url: Seq<char>,
    parts: Option<UrlParts>,
    origin: Option<Seq<char>>,
) -> Option<Seq<char>> {
    match policy {
        PolicyView::Simple(ReferrerPolicyKind::NoReferrer) => None,
        PolicyView::Simple(ReferrerPolicyKind::SameAsUrl) => if parts is Some {
            Some(url)
        } else {
            None
        },
        PolicyView::Simple(ReferrerPolicyKind::UrlPath) => match parts {
            Some(u) => Some(u.scheme + "://"@ + u.authority + parent_path(u.path)),
            None => None,
        },
        PolicyView::Simple(ReferrerPolicyKind::UrlOrigin) => match origin {
            Some(o) => Some(o + "/"@),
            None => None,
        },
        PolicyView::Custom(value) => if value.len() == 0 {
            None
        } else {
            Some(value)
        },
    }
}

/// The policy after the given one when the user steps through them. A value of
/// the user's own is not among them.
pub open spec fn next_policy(policy: PolicyView) -> PolicyView {
    match policy {
        PolicyView::Simple(ReferrerPolicyKind::NoReferrer) => PolicyView::Simple(
            ReferrerPolicyKind::SameAsUrl,
        ),
        PolicyView::Simple(ReferrerPolicyKind::SameAsUrl) => PolicyView::Simple(
            ReferrerPolicyKind::UrlPath,
        ),
        PolicyView::Simple(ReferrerPolicyKind::UrlPath) => PolicyView::Simple(
            ReferrerPolicyKind::UrlOrigin,
        ),
        _ => PolicyView::Simple(ReferrerPolicyKind::NoReferrer),
    }
}

/// A text that is no URL has no referrer, unless the user has set one.
pub proof fn law_invalid_urls_have_no_referrer(policy: PolicyView, url: Seq<char>)
    requires
        policy is Simple,
    ensures
        referrer(policy, url, None, None) is None,
{
}

/// What is sent as the referrer: nothing, the URL, the URL up to the last slash of
/// its path, or its origin and a slash, as the rule says; a text that the user has set
/// is sent as it is, unless it is empty.
pub proof fn law_referrer_by_rule(
    url: Seq<char>,
    u: UrlParts,
    origin: Seq<char>,
    directory: Seq<char>,
    name: Seq<char>,
    value: Seq<char>,
)
    requires
        !name.contains('/'),
    ensures
        referrer(
            PolicyView::Simple(ReferrerPolicyKind::NoReferrer),
            url,
            Some(u),
            Some(origin),
        ) is None,
        referrer(
            PolicyView::Simple(ReferrerPolicyKind::SameAsUrl),
            url,
            Some(u),
            Some(origin),
        ) == Some(url),
        u.path == directory + seq!['/'] + name ==> referrer(
            PolicyView::Simple(ReferrerPolicyKind::UrlPath),
            url,
            Some(u),
            Some(origin),
        ) == Some(u.scheme + "://"@ + u.authority + (directory + seq!['/'])),
        u.path == name ==> referrer(
            PolicyView::Simple(ReferrerPolicyKind::UrlPath),
            url,
            Some(u),
            Some(origin),
        ) == Some(u.scheme + "://"@ + u.authority + "/"@),
        referrer(
            PolicyView::Simple(ReferrerPolicyKind::UrlOrigin),
            url,
            Some(u),
            Some(origin),
        ) == Some(origin + "/"@),
        value.len() > 0 ==> referrer(PolicyView::Custom(value), url, Some(u), Some(origin)) == Some(
            value,
        ) && referrer(PolicyView::Custom(value), url, None, None) == Some(value),
        value.len() == 0 ==> referrer(
            PolicyView::Custom(value),
            url,
            Some(u),
            Some(origin),
        ) is None,
{
    let path = directory + seq!['/'] + name;
    assert forall|i: int| path.len() - name.len() <= i < path.len() implies other_than('/')(
        #[trigger] path[i],
    ) by {
        assert(path[i] == name[i - directory.len() - 1]);
        assert(name.contains(name[i - directory.len() - 1]));
    }
    assert(path[directory.len() as int] == '/');
    assert(path.contains('/'));
    lemma_trailing(path, other_than('/'), name.len() as int);
    assert(path.take(path.len() - name.len()) =~= directory + seq!['/']);
}

/// Four steps lead through all fixed rules and back to the first.
pub proof fn law_policies_cycle(kind: ReferrerPolicyKind)
    ensures
        next_policy(next_policy(next_policy(next_policy(PolicyView::Simple(kind)))))
            == PolicyView::Simple(kind),
        next_policy(PolicyView::Simple(kind)) != PolicyView::Simple(kind),
        next_policy(next_policy(PolicyView::Simple(kind))) != PolicyView::Simple(kind),
        next_policy(next_policy(next_policy(PolicyView::Simple(kind)))) != PolicyView::Simple(kind),
{
}

/// The directory of a URL's path.
fn parent_of(path: &str) -> (r: String)
    ensures
        r@ == parent_path(path@),
{
    let v = chars_of(path);
    let mut n: usize = v.len();
    while n > 0 && v[n - 1] != '/'
        invariant
            v@ == path@,
            n <= v@.len(),
            forall|i: int| n <= i < v@.len() ==> v@[i] != '/',
        decreases n,
    {
        n = n - 1;
    }
    if n == 0 {
        assert(!path@.contains('/'));
        "/".to_owned()
    } else {
        proof {
            assert(path@[n - 1] == '/');
            lemma_trailing(path@, other_than('/'), path@.len() - n);
        }
        string_of(&v, 0, n)
    }
}

/// The view of an optional URL.
pub open spec fn opt_url(o: Option<ParsedUrl>) -> Option<UrlParts> {
    match o {
        Some(u) => Some(u@),
        None => None,
    }
}

impl ReferrerPolicy {
    /// No header.
    pub fn none() -> (r: ReferrerPolicy)
        ensures
            r@ == PolicyView::Simple(ReferrerPolicyKind::NoReferrer),
    {
        ReferrerPolicy::Simple(ReferrerPolicyKind::NoReferrer)
    }

    /// The URL of the download.
    pub fn same_as_url() -> (r: ReferrerPolicy)
        ensures
            r@ == PolicyView::Simple(ReferrerPolicyKind::SameAsUrl),
    {
        ReferrerPolicy::Simple(ReferrerPolicyKind::SameAsUrl)
    }

    /// The URL of the directory that the download stands in.
    pub fn url_path() -> (r: ReferrerPolicy)
        ensures
            r@ == PolicyView::Simple(ReferrerPolicyKind::UrlPath),
    {
        ReferrerPolicy::Simple(ReferrerPolicyKind::UrlPath)
    }

    /// The origin of the download.
    pub fn url_origin() -> (r: ReferrerPolicy)
        ensures
            r@ == PolicyView::Simple(ReferrerPolicyKind::UrlOrigin),
    {
        ReferrerPolicy::Simple(ReferrerPolicyKind::UrlOrigin)
    }

    /// A value of the user's own.
    pub fn custom(value: String) -> (r: ReferrerPolicy)
        ensures
            r@ == PolicyView::Custom(value@),
    {
        ReferrerPolicy::Custom { kind: CustomTag::Custom, value }
    }

    /// The value of the Referer header for a download, given the parts and the
    /// origin of its URL; none where the policy wants none or needs what is not
    /// there.
    pub fn compute_from(
        &self,
        url: &str,
        parts: Option<ParsedUrl>,
        origin: Option<String>,
    ) -> (r: Option<String>)
        ensures
            opt_text(r) == referrer(self@, url@, opt_url(parts), opt_text(origin)),
    {
        match self {
            ReferrerPolicy::Simple(ReferrerPolicyKind::NoReferrer) => None,
            ReferrerPolicy::Simple(ReferrerPolicyKind::SameAsUrl) => {
                match parts {
                    Some(_) => Some(url.to_owned()),
                    None => None,
                }
            },
            ReferrerPolicy::Simple(ReferrerPolicyKind::UrlPath) => {
                match parts {
                    Some(u) => {
                        let mut out = u.scheme;
                        out.append("://");
                        out.append(u.authority.as_str());
                        let parent = parent_of(u.path.as_str());
                        out.append(parent.as_str());
                        Some(out)
                    },
                    None => None,
                }
            },
            ReferrerPolicy::Simple(ReferrerPolicyKind::UrlOrigin) => {
                match origin {
                    Some(o) => {
                        let mut out = o;
                        out.append("/");
                        Some(out)
                    },
                    None => None,
                }
            },
            ReferrerPolicy::Custom { kind, value } => {
                if value.as_str().is_empty() {
                    None
                } else {
                    Some(value.clone())
                }
            },
        }
    }

    /// The value of the Referer header for a download.
    pub fn compute(&self, url: &str) -> (r: Option<String>)
        ensures
            opt_text(r) == referrer(self@, url@, url_parts(url@), origin_of(url@)),
    {
        let parts = parse_url(url);
        let origin = match self {
            ReferrerPolicy::Simple(ReferrerPolicyKind::UrlOrigin) => url_origin(url),
            _ => None,
        };
        self.compute_from(url, parts, origin)
    }

    /// The policy after this one when the user steps through them.
    pub fn cycle_next(&self) -> (r: ReferrerPolicy)
        ensures
            r@ == next_policy(self@),
    {
        match self {
            ReferrerPolicy::Simple(ReferrerPolicyKind::NoReferrer) => Self::same_as_url(),
            ReferrerPolicy::Simple(ReferrerPolicyKind::SameAsUrl) => Self::url_path(),
            ReferrerPolicy::Simple(ReferrerPolicyKind::UrlPath) => Self::url_origin(),
            _ => Self::none(),
        }
    }

    /// The key of the policy's label among the translations.
    pub fn display_key(&self) -> (r: &str)
        ensures
            r@ == (match self@ {
                PolicyView::Simple(ReferrerPolicyKind::NoReferrer) => "settings-referrer-none"@,
                PolicyView::Simple(ReferrerPolicyKind::SameAsUrl) =>
                    "settings-referrer-same-as-url"@,
                PolicyView::Simple(ReferrerPolicyKind::UrlPath) => "settings-referrer-url-path"@,
                PolicyView::Simple(ReferrerPolicyKind::UrlOrigin) =>
                    "settings-referrer-url-origin"@,
                PolicyView::Custom(_) => "settings-referrer-custom"@,
            }),
    {
        match self {
            ReferrerPolicy::Simple(ReferrerPolicyKind::NoReferrer) => "settings-referrer-none",
            ReferrerPolicy::Simple(ReferrerPolicyKind::SameAsUrl) =>
                "settings-referrer-same-as-url",
            ReferrerPolicy::Simple(ReferrerPolicyKind::UrlPath) => "settings-referrer-url-path",
            ReferrerPolicy::Simple(ReferrerPolicyKind::UrlOrigin) =>
                "settings-referrer-url-origin",
            ReferrerPolicy::Custom { kind, value } => "settings-referrer-custom",
        }
    }
}

// ---------------------------------------------------------------------------
// The sections
// ---------------------------------------------------------------------------

/// Settings of the application, without the folders.
pub struct ApplicationConfig {
    pub general: GeneralConfig,
    pub download: DownloadConfig,
    pub network: NetworkConfig,
    pub scripts: ScriptConfig,
    pub keybindings: KeybindingsConfig,
}

/// Settings of the application and of all folders, by folder id.
pub struct Config {
    pub general: GeneralConfig,
    pub download: DownloadConfig,
    pub network: NetworkConfig,
    pub scripts: ScriptConfig,
    pub keybindings: KeybindingsConfig,
    pub folders: TextMap<FolderConfig>,
}

/// How the application looks and starts.
pub struct GeneralConfig {
    pub language: String,
    pub theme: String,
    pub minimize_to_tray: bool,
    pub start_minimized: bool,
    pub skip_download_preview: bool,
    pub auto_launch_dnd: bool,
}

/// Downloads where no folder says otherwise.
pub struct DownloadConfig {
    pub default_directory: SavePath,
    pub max_concurrent: usize,
    pub retry_count: u32,
    pub retry_delay: u64,
    pub user_agent: String,
    pub bandwidth_limit: u64,
    pub max_concurrent_per_folder: Option<usize>,
    pub parallel_folder_count: Option<usize>,
    pub max_redirects: u32,
    pub referrer_policy: ReferrerPolicy,
}

/// The proxy.
pub struct NetworkConfig {
    pub proxy_enabled: bool,
    pub proxy_type: String,
    pub proxy_host: String,
    pub proxy_port: u16,
    pub proxy_auth: bool,
    pub proxy_user: String,
    pub proxy_pass: String,
}

/// Scripts.
pub struct ScriptConfig {
    pub enabled: bool,
    pub directory: SavePath,
    pub timeout: u64,
    /// Whether each script is enabled, by file name.
    pub script_files: TextMap<bool>,
}

/// One folder. What is `None` is taken from the application's settings.
pub struct FolderConfig {
    /// The name that the user sees.
    pub name: String,
    pub save_path: SavePath,
    pub auto_date_directory: bool,
    pub auto_start_downloads: bool,
    pub scripts_enabled: Option<bool>,
    pub script_files: Option<TextMap<bool>>,
    pub max_concurrent: Option<usize>,
    pub user_agent: Option<String>,
    pub referrer_policy: Option<ReferrerPolicy>,
    pub default_headers: TextMap<String>,
}

/// What a folder's settings say.
#[verifier::ext_equal]
pub struct FolderView {
    pub name: Seq<char>,
    pub save_path: PathView,
    pub auto_date_directory: bool,
    pub auto_start_downloads: bool,
    pub scripts_enabled: Option<bool>,
    pub script_files: Option<Map<Seq<char>, bool>>,
    pub max_concurrent: Option<usize>,
    pub user_agent: Option<Seq<char>>,
    pub referrer_policy: Option<PolicyView>,
    pub default_headers: Map<Seq<char>, Seq<char>>,
}

impl View for FolderConfig {
    type V = FolderView;

    open spec fn view(&self) -> FolderView {
        FolderView {
            name: self.name@,
            save_path: self.save_path@,
            auto_date_directory: self.auto_date_directory,
            auto_start_downloads: self.auto_start_downloads,
            scripts_enabled: self.scripts_enabled,
            script_files: match self.script_files {
                Some(m) => Some(m@),
                None => None,
            },
            max_concurrent: self.max_concurrent,
            user_agent: opt_text(self.user_agent),
            referrer_policy: opt_policy(self.referrer_policy),
            default_headers: text_values(self.default_headers@),
        }
    }
}

/// A folder's settings where nothing is set but its name and its place.
pub open spec fn plain_folder(name: Seq<char>, save_path: PathView) -> FolderView {
    FolderView {
        name,
        save_path,
        auto_date_directory: false,
        auto_start_downloads: false,
        scripts_enabled: None,
        script_files: None,
        max_concurrent: None,
        user_agent: None,
        referrer_policy: None,
        default_headers: Map::empty(),
    }
}

impl FolderConfig {
    /// A folder that saves to the given place, with nothing else set.
    pub fn default_in(save_path: SavePath) -> (r: FolderConfig)
        ensures
            r@ == plain_folder(Seq::empty(), save_path@),
    {
        Self::new_with_name(String::new(), save_path)
    }

    /// A folder with a name that saves to the given place, with nothing else
    /// set.
    pub fn new_with_name(name: String, save_path: SavePath) -> (r: FolderConfig)
        ensures
            r@ == plain_folder(name@, save_path@),
    {
        let r = FolderConfig {
            name,
            save_path,
            auto_date_directory: false,
            auto_start_downloads: false,
            scripts_enabled: None,
            script_files: None,
            max_concurrent: None,
            user_agent: None,
            referrer_policy: None,
            default_headers: TextMap::new(),
        };
        assert(r@ =~= plain_folder(name@, save_path@));
        r
    }
}

impl Clone for FolderConfig {
    fn clone(&self) -> (r: FolderConfig)
        ensures
            r@ == self@,
    {
        FolderConfig {
            name: self.name.clone(),
            save_path: self.save_path.clone(),
            auto_date_directory: self.auto_date_directory,
            auto_start_downloads: self.auto_start_downloads,
            scripts_enabled: self.scripts_enabled,
            script_files: match &self.script_files {
                Some(m) => Some(m.copied()),
                None => None,
            },
            max_concurrent: self.max_concurrent,
            user_agent: clone_opt(&self.user_agent),
            referrer_policy: match &self.referrer_policy {
                Some(p) => Some(p.clone()),
                None => None,
            },
            default_headers: self.default_headers.copied_texts(),
        }
    }
}

/// The preview before a download is skipped unless the settings say otherwise.
pub fn default_skip_download_preview() -> (r: bool)
    ensures
        r == true,
{
    true
}

/// How many redirects are followed unless the settings say otherwise.
pub fn default_max_redirects() -> (r: u32)
    ensures
        r == 5,
{
    5
}

/// Whether the application's settings are those of a new installation.
pub open spec fn is_default_app(
    general: GeneralConfig,
    download: DownloadConfig,
    network: NetworkConfig,
    scripts: ScriptConfig,
    download_directory: PathView,
    scripts_directory: PathView,
) -> bool {
    &&& general.language@ == "en"@
    &&& general.theme@ == "classic"@
    &&& general.minimize_to_tray
    &&& !general.start_minimized
    &&& general.skip_download_preview
    &&& !general.auto_launch_dnd
    &&& download.default_directory@ == download_directory
    &&& download.max_concurrent == 3
    &&& download.retry_count == 3
    &&& download.retry_delay == 5
    &&& download.user_agent@
        == "Mozilla/5.0 (Windows NT 10.0; Win64; x64) AppleWebKit/537.36 (KHTML, like Gecko) Chrome/120.0.0.0 Safari/537.36"@
    &&& download.bandwidth_limit == 0
    &&& download.max_concurrent_per_folder is None
    &&& download.parallel_folder_count is None
    &&& download.max_redirects == 5
    &&& download.referrer_policy@ == PolicyView::Simple(ReferrerPolicyKind::NoReferrer)
    &&& !network.proxy_enabled
    &&& network.proxy_type@ == "http"@
    &&& network.proxy_host@ == Seq::<char>::empty()
    &&& network.proxy_port == 8080
    &&& !network.proxy_auth
    &&& network.proxy_user@ == Seq::<char>::empty()
    &&& network.proxy_pass@ == Seq::<char>::empty()
    &&& scripts.enabled
    &&& scripts.directory@ == scripts_directory
    &&& scripts.timeout == 30
    &&& scripts.script_files@ == Map::<Seq<char>, bool>::empty()
}

impl ApplicationConfig {
    /// The application's settings in a new installation, given where downloads
    /// and scripts are kept.
    pub fn default_in(download_directory: SavePath, scripts_directory: SavePath) -> (r:
        ApplicationConfig)
        ensures
            is_default_app(
                r.general,
                r.download,
                r.network,
                r.scripts,
                download_directory@,
                scripts_directory@,
            ),
            r.keybindings@ == super::keybindings::all_actions().map_values(
                |a: super::keybindings::KeyAction| (a, super::keybindings::default_keys(a)),
            ),
    {
        ApplicationConfig {
            general: GeneralConfig {
                language: "en".to_owned(),
                theme: "classic".to_owned(),
                minimize_to_tray: true,
                start_minimized: false,
                skip_download_preview: default_skip_download_preview(),
                auto_launch_dnd: false,
            },
            download: DownloadConfig {
                default_directory: download_directory,
                max_concurrent: 3,
                retry_count: 3,
                retry_delay: 5,
                user_agent: "Mozilla/5.0 (Windows NT 10.0; Win64; x64) AppleWebKit/537.36 (KHTML, like Gecko) Chrome/120.0.0.0 Safari/537.36".to_owned(),
                bandwidth_limit: 0,
                max_concurrent_per_folder: None,
                parallel_folder_count: None,
                max_redirects: default_max_redirects(),
                referrer_policy: ReferrerPolicy::none(),
            },
            network: NetworkConfig {
                proxy_enabled: false,
                proxy_type: "http".to_owned(),
                proxy_host: String::new(),
                proxy_port: 8080,
                proxy_auth: false,
                proxy_user: String::new(),
                proxy_pass: String::new(),
            },
            scripts: ScriptConfig {
                enabled: true,
                directory: scripts_directory,
                timeout: 30,
                script_files: TextMap::new(),
            },
            keybindings: KeybindingsConfig::default(),
        }
    }
}

/// What the settings of all folders say.
pub open spec fn folder_views(m: Map<Seq<char>, FolderConfig>) -> Map<Seq<char>, FolderView> {
    m.map_values(|f: FolderConfig| f@)
}

/// The name under which the user sees a folder: its own, or else its id.
pub open spec fn display_name(id: Seq<char>, name: Seq<char>) -> Seq<char> {
    if name.len() == 0 {
        id
    } else {
        name
    }
}

/// Every folder's id with the name under which the user sees it.
pub open spec fn folder_entries(ps: Seq<(Seq<char>, FolderConfig)>) -> Seq<(Seq<char>, Seq<char>)> {
    ps.map_values(|p: (Seq<char>, FolderConfig)| (p.0, display_name(p.0, p.1.name@)))
}

/// The views of a list of pairs of texts.
pub open spec fn pair_views(v: Seq<(String, String)>) -> Seq<(Seq<char>, Seq<char>)> {
    v.map_values(|e: (String, String)| (e.0@, e.1@))
}

/// Whether pairs are in the order of their second texts.
pub open spec fn sorted_by_second(s: Seq<(Seq<char>, Seq<char>)>) -> bool {
    forall|i: int, j: int| #![trigger s[i], s[j]] 0 <= i <= j < s.len() ==> text_le(s[i].1, s[j].1)
}

/// Whether some folder has the given name.
pub open spec fn name_in_use(m: Map<Seq<char>, FolderConfig>, name: Seq<char>) -> bool {
    exists|id: Seq<char>| #[trigger] m.contains_key(id) && m[id].name@ == name
}

fn insert_sorted(v: &mut Vec<(String, String)>, e: (String, String))
    requires
        sorted_by_second(pair_views(old(v)@)),
    ensures
        sorted_by_second(pair_views(final(v)@)),
        pair_views(final(v)@).to_multiset() == pair_views(old(v)@).to_multiset().insert(
            (e.0@, e.1@),
        ),
{
    let ghost s = pair_views(v@);
    let mut p: usize = 0;
    while p < v.len() && le_text(v[p].1.as_str(), e.1.as_str())
        invariant
            p <= v@.len(),
            s == pair_views(v@),
            forall|k: int| 0 <= k < p ==> text_le((#[trigger] s[k]).1, e.1@),
        decreases v@.len() - p,
    {
        assert(s[p as int].1 == v@[p as int].1@);
        p = p + 1;
    }
    proof {
        if p < s.len() {
            assert(s[p as int].1 == v@[p as int].1@);
            lemma_text_le_total(s[p as int].1, e.1@);
        }
    }
    let ghost ev = (e.0@, e.1@);
    v.insert(p, e);
    proof {
        assert(pair_views(v@) =~= s.insert(p as int, ev));
        let t = s.insert(p as int, ev);
        assert forall|i: int, j: int| #![trigger t[i], t[j]] 0 <= i <= j < t.len() implies text_le(
            t[i].1,
            t[j].1,
        ) by {
            let si = if i < p {
                i
            } else {
                i - 1
            };
            let sj = if j < p {
                j
            } else {
                j - 1
            };
            if i != p {
                assert(t[i] == s[si]);
            }
            if j != p {
                assert(t[j] == s[sj]);
            }
            if i == p && j == p {
                lemma_text_le_total(ev.1, ev.1);
            } else if i == p {
                assert(text_le(s[p as int].1, s[sj].1));
                lemma_text_le_trans(ev.1, s[p as int].1, s[sj].1);
            } else if j == p {
            } else {
            }
        }
        lemma_insert_multiset(s, p as int, ev);
    }
}

// ---------------------------------------------------------------------------
// From names to ids
// ---------------------------------------------------------------------------

/// What the settings of the folders say, in order.
pub open spec fn view_pairs(ps: Seq<(Seq<char>, FolderConfig)>) -> Seq<(Seq<char>, FolderView)> {
    ps.map_values(|p: (Seq<char>, FolderConfig)| (p.0, p.1@))
}

/// Folders under UUIDs, given folders under UUIDs and under names: a folder
/// under a UUID keeps its key and gets it as its name if it has none; a folder
/// under a name gets the next of the fresh ids as its key and the name as its
/// name. The second part lists the old and new keys of the latter.
pub open spec fn migrated(
    ps: Seq<(Seq<char>, FolderView)>,
    fresh: Seq<Seq<char>>,
) -> (Map<Seq<char>, FolderView>, Seq<(Seq<char>, Seq<char>)>)
    decreases ps.len(),
{
    if ps.len() == 0 {
        (Map::empty(), Seq::empty())
    } else {
        let (m, renames) = migrated(ps.drop_last(), fresh);
        let (key, f) = ps.last();
        if uuid_bits(key) is Some {
            (m.insert(key, FolderView { name: display_name(key, f.name), ..f }), renames)
        } else {
            let id = fresh[renames.len() as int];
            (m.insert(id, FolderView { name: key, ..f }), renames.push((key, id)))
        }
    }
}

/// How many folders stand under a name.
pub open spec fn legacy_count(ps: Seq<(Seq<char>, FolderView)>) -> nat
    decreases ps.len(),
{
    if ps.len() == 0 {
        0
    } else {
        legacy_count(ps.drop_last()) + (if uuid_bits(ps.last().0) is Some {
            0nat
        } else {
            1nat
        })
    }
}

/// As many keys change as folders stand under a name.
pub proof fn lemma_renames_count(ps: Seq<(Seq<char>, FolderView)>, fresh: Seq<Seq<char>>)
    ensures
        migrated(ps, fresh).1.len() == legacy_count(ps),
    decreases ps.len(),
{
    if ps.len() > 0 {
        lemma_renames_count(ps.drop_last(), fresh);
    }
}

/// After the keys were changed, every folder stands under a UUID and has a
/// name.
pub proof fn law_migration_leaves_uuids(ps: Seq<(Seq<char>, FolderView)>, fresh: Seq<Seq<char>>)
    requires
        fresh.len() >= legacy_count(ps),
        forall|i: int| 0 <= i < fresh.len() ==> uuid_bits(#[trigger] fresh[i]) is Some,
        forall|i: int| 0 <= i < ps.len() ==> (#[trigger] ps[i]).0.len() > 0,
    ensures
        forall|k: Seq<char>| #[trigger]
            migrated(ps, fresh).0.contains_key(k) ==> uuid_bits(k) is Some && migrated(
                ps,
                fresh,
            ).0[k].name.len() > 0,
    decreases ps.len(),
{
    if ps.len() > 0 {
        let before = ps.drop_last();
        assert forall|i: int| 0 <= i < before.len() implies (#[trigger] before[i]).0.len() > 0 by {
            assert(before[i] == ps[i]);
        }
        law_migration_leaves_uuids(before, fresh);
        lemma_renames_count(before, fresh);
        assert(ps[ps.len() - 1].0.len() > 0);
    }
}

/// Where every folder stands under a UUID and has a name, nothing changes.
pub proof fn law_migration_is_done(ps: Seq<(Seq<char>, FolderView)>, fresh: Seq<Seq<char>>)
    requires
        keys_distinct(ps),
        forall|i: int|
            0 <= i < ps.len() ==> uuid_bits((#[trigger] ps[i]).0) is Some && ps[i].1.name.len() > 0,
    ensures
        migrated(ps, fresh).0 == map_of(ps),
        migrated(ps, fresh).1.len() == 0,
    decreases ps.len(),
{
    if ps.len() == 0 {
        assert(map_of(ps) =~= Map::<Seq<char>, FolderView>::empty());
    } else {
        let before = ps.drop_last();
        let last = ps.last();
        assert(keys_distinct(before)) by {
            assert forall|i: int, j: int| #![trigger before[i], before[j]] 0 <= i < j
                < before.len() implies before[i].0 != before[j].0 by {
                assert(before[i] == ps[i] && before[j] == ps[j]);
            }
        }
        assert forall|i: int| 0 <= i < before.len() implies uuid_bits((#[trigger] before[i]).0) is Some
            && before[i].1.name.len() > 0 by {
            assert(before[i] == ps[i]);
        }
        law_migration_is_done(before, fresh);
        assert(!has_key(before, last.0)) by {
            assert forall|i: int| 0 <= i < before.len() implies #[trigger] before[i].0 != last.0 by {
                assert(before[i] == ps[i]);
                assert(ps[ps.len() - 1] == last);
            }
        }
        crate::text_map::lemma_map_of_push(before, last.0, last.1);
        assert(before.push((last.0, last.1)) =~= ps);
        assert(ps[ps.len() - 1].1.name.len() > 0);
        assert(FolderView { name: display_name(last.0, last.1.name), ..last.1 } == last.1);
    }
}

/// A folder that stands under a UUID stays there, and gets its key for a name if it
/// has none; any other is put under the next new id and named after its key, and the
/// change is listed. The settings of neither change.
pub proof fn law_migration_keeps_settings(
    ps: Seq<(Seq<char>, FolderView)>,
    fresh: Seq<Seq<char>>,
    i: int,
)
    requires
        0 <= i < ps.len(),
        keys_distinct(ps),
        fresh.len() >= legacy_count(ps),
        forall|a: int, b: int|
            #![trigger fresh[a], fresh[b]]
            0 <= a < b < fresh.len() ==> fresh[a] != fresh[b],
        forall|a: int, k: int|
            #![trigger fresh[a], ps[k]]
            0 <= a < fresh.len() && 0 <= k < ps.len() ==> fresh[a] != ps[k].0,
    ensures
        ({
            let (m, renames) = migrated(ps, fresh);
            let (key, f) = ps[i];
            &&& uuid_bits(key) is Some ==> m.contains_key(key) && m[key] == (FolderView {
                name: if f.name.len() == 0 {
                    key
                } else {
                    f.name
                },
                ..f
            })
            &&& uuid_bits(key) is None ==> exists|n: int|
                0 <= n < renames.len() && #[trigger] renames[n] == (key, fresh[n]) && m.contains_key(
                    fresh[n],
                ) && m[fresh[n]] == (FolderView { name: key, ..f })
        }),
    decreases ps.len(),
{
    let before = ps.drop_last();
    let (m, renames) = migrated(before, fresh);
    let all = migrated(ps, fresh);
    let key = ps[i].0;
    let f = ps[i].1;
    lemma_renames_count(before, fresh);
    assert(ps[ps.len() - 1] == ps.last());
    if i < before.len() {
        assert(before[i] == ps[i]);
        assert forall|a: int, b: int| #![trigger before[a], before[b]] 0 <= a < b
            < before.len() implies before[a].0 != before[b].0 by {
            assert(before[a] == ps[a] && before[b] == ps[b]);
        }
        assert forall|a: int, k: int|
            #![trigger fresh[a], before[k]]
            0 <= a < fresh.len() && 0 <= k < before.len() implies fresh[a] != before[k].0 by {
            assert(before[k] == ps[k]);
        }
        law_migration_keeps_settings(before, fresh, i);
        assert(ps[i].0 != ps[ps.len() - 1].0);
        if uuid_bits(key) is None {
            let n = choose|n: int|
                0 <= n < renames.len() && #[trigger] renames[n] == (key, fresh[n])
                    && m.contains_key(fresh[n]) && m[fresh[n]] == (FolderView { name: key, ..f });
            assert(all.1[n] == renames[n]);
            if uuid_bits(ps.last().0) is Some {
                assert(fresh[n] != ps[ps.len() - 1].0);
            } else {
                assert(fresh[n] != fresh[renames.len() as int]);
            }
        } else if uuid_bits(ps.last().0) is None {
            assert(fresh[renames.len() as int] != ps[i].0);
        }
    } else if uuid_bits(key) is None {
        let n = renames.len() as int;
        assert(all.1[n] == (key, fresh[n]));
    }
}

/// Folders are put under new ids exactly if one of them does not stand under a UUID.
pub proof fn law_legacy_keys_are_counted(ps: Seq<(Seq<char>, FolderView)>, fresh: Seq<Seq<char>>)
    ensures
        legacy_count(ps) > 0 <==> exists|i: int|
            0 <= i < ps.len() && uuid_bits((#[trigger] ps[i]).0) is None,
        migrated(ps, fresh).1.len() == legacy_count(ps),
    decreases ps.len(),
{
    lemma_renames_count(ps, fresh);
    if ps.len() > 0 {
        let before = ps.drop_last();
        law_legacy_keys_are_counted(before, fresh);
        assert(ps[ps.len() - 1] == ps.last());
        if legacy_count(before) > 0 {
            let i = choose|i: int|
                0 <= i < before.len() && uuid_bits((#[trigger] before[i]).0) is None;
            assert(ps[i] == before[i]);
        }
        if exists|i: int| 0 <= i < ps.len() && uuid_bits((#[trigger] ps[i]).0) is None {
            let i = choose|i: int| 0 <= i < ps.len() && uuid_bits((#[trigger] ps[i]).0) is None;
            if i < before.len() {
                assert(before[i] == ps[i]);
            }
        }
    }
}

/// The folders with one named `default` among them: one is added under the
/// given id if there is none.
pub open spec fn with_default_folder(
    m: Map<Seq<char>, FolderView>,
    default_id: Seq<char>,
    save_path: PathView,
) -> Map<Seq<char>, FolderView> {
    if exists|id: Seq<char>| #[trigger] m.contains_key(id) && m[id].name == "default"@ {
        m
    } else {
        m.insert(default_id, plain_folder("default"@, save_path))
    }
}

/// There is then always a folder named `default`.
pub proof fn law_default_folder_exists(
    m: Map<Seq<char>, FolderView>,
    default_id: Seq<char>,
    save_path: PathView,
)
    ensures
        exists|id: Seq<char>| #[trigger]
            with_default_folder(m, default_id, save_path).contains_key(id) && with_default_folder(
                m,
                default_id,
                save_path,
            )[id].name == "default"@,
{
    let r = with_default_folder(m, default_id, save_path);
    if !exists|id: Seq<char>| #[trigger] m.contains_key(id) && m[id].name == "default"@ {
        assert(r.contains_key(default_id));
    }
}

/// A folder for downloads that go nowhere else is added only where none has that
/// name; it has the place that is given and no settings of its own, and every other
/// folder stays as it is.
pub proof fn law_default_folder_is_plain(
    m: Map<Seq<char>, FolderView>,
    default_id: Seq<char>,
    save_path: PathView,
    id: Seq<char>,
)
    ensures
        ({
            let r = with_default_folder(m, default_id, save_path);
            let there = exists|k: Seq<char>| #[trigger] m.contains_key(k) && m[k].name
                == "default"@;
            let f = r[default_id];
            &&& there ==> r == m
            &&& id != default_id ==> r.contains_key(id) == m.contains_key(id) && r[id] == m[id]
            &&& !there ==> {
                &&& r.contains_key(default_id)
                &&& f.name == "default"@
                &&& f.save_path == save_path
                &&& !f.auto_date_directory
                &&& !f.auto_start_downloads
                &&& f.scripts_enabled is None
                &&& f.script_files is None
                &&& f.max_concurrent is None
                &&& f.user_agent is None
                &&& f.referrer_policy is None
                &&& f.default_headers == Map::<Seq<char>, Seq<char>>::empty()
            }
        }),
{
}

/// Settings as they are after loading.
pub struct LoadedConfig {
    pub config: Config,
    /// Whether folders stood under names and were put under UUIDs.
    pub migrated: bool,
    /// The old and the new key of each of those.
    pub renames: Vec<(String, String)>,
}

/// Whether the application's settings were taken over unchanged.
pub open spec fn same_app(config: Config, app: ApplicationConfig) -> bool {
    &&& config.general == app.general
    &&& config.download == app.download
    &&& config.network == app.network
    &&& config.scripts == app.scripts
    &&& config.keybindings == app.keybindings
}

/// Whether `config` is what loading makes of the application's settings and the
/// folders, with the given new ids.
pub open spec fn is_loaded(
    config: Config,
    app: ApplicationConfig,
    folders: Seq<(Seq<char>, FolderView)>,
    fresh: Seq<Seq<char>>,
    default_id: Seq<char>,
) -> bool {
    &&& same_app(config, app)
    &&& folder_views(config.folders@) == with_default_folder(
        migrated(folders, fresh).0,
        default_id,
        app.download.default_directory@,
    )
}

impl Config {
    /// The settings of a new installation, given where downloads and scripts are
    /// kept.
    pub fn default_in(download_directory: SavePath, scripts_directory: SavePath) -> (r: Config)
        ensures
            is_default_app(
                r.general,
                r.download,
                r.network,
                r.scripts,
                download_directory@,
                scripts_directory@,
            ),
            r.keybindings@ == super::keybindings::all_actions().map_values(
                |a: super::keybindings::KeyAction| (a, super::keybindings::default_keys(a)),
            ),
            r.folders@ == Map::<Seq<char>, FolderConfig>::empty(),
            r.folders.pairs() == Seq::<(Seq<char>, FolderConfig)>::empty(),
    {
        let app = ApplicationConfig::default_in(download_directory, scripts_directory);
        Config {
            general: app.general,
            download: app.download,
            network: app.network,
            scripts: app.scripts,
            keybindings: app.keybindings,
            folders: TextMap::new(),
        }
    }

    /// The name under which the user sees a folder; the id itself where there is
    /// no such folder.
    pub fn folder_name(&self, folder_id: &str) -> (r: String)
        ensures
            r@ == (if self.folders@.contains_key(folder_id@) {
                display_name(folder_id@, self.folders@[folder_id@].name@)
            } else {
                folder_id@
            }),
    {
        match self.folders.get(folder_id) {
            Some(f) => {
                if f.name.as_str().is_empty() {
                    folder_id.to_owned()
                } else {
                    f.name.clone()
                }
            },
            None => folder_id.to_owned(),
        }
    }

    /// The id of a folder with the given name.
    pub fn find_folder_id_by_name(&self, name: &str) -> (r: Option<String>)
        ensures
            match r {
                Some(id) => self.folders@.contains_key(id@) && self.folders@[id@].name@ == name@,
                None => !name_in_use(self.folders@, name@),
            },
    {
        let n: usize = self.folders.len();
        let ghost ps = self.folders.pairs();
        proof {
            lemma_map_of(ps);
        }
        for i in 0..n
            invariant
                n == ps.len(),
                ps == self.folders.pairs(),
                keys_distinct(ps),
                forall|j: int| 0 <= j < i ==> (#[trigger] ps[j]).1.name@ != name@,
        {
            if text_eq(self.folders.value_at(i).name.as_str(), name) {
                proof {
                    lemma_map_of(ps);
                    assert(self.folders@.contains_key(ps[i as int].0));
                }
                return Some(self.folders.key_at(i).clone());
            }
        }
        proof {
            if name_in_use(self.folders@, name@) {
                let id = choose|id: Seq<char>| #[trigger]
                    self.folders@.contains_key(id) && self.folders@[id].name@ == name@;
                let j = key_index(ps, id);
                assert(ps[j].1.name@ == name@);
            }
        }
        None
    }

    /// All folders as pairs of id and the name that the user sees, in the order
    /// of the names.
    pub fn sorted_folder_entries(&self) -> (r: Vec<(String, String)>)
        ensures
            sorted_by_second(pair_views(r@)),
            pair_views(r@).to_multiset() == folder_entries(self.folders.pairs()).to_multiset(),
    {
        let n: usize = self.folders.len();
        let ghost es = folder_entries(self.folders.pairs());
        let mut out: Vec<(String, String)> = Vec::new();
        proof {
            assert(pair_views(out@) =~= es.take(0));
        }
        for i in 0..n
            invariant
                n == es.len(),
                es == folder_entries(self.folders.pairs()),
                sorted_by_second(pair_views(out@)),
                pair_views(out@).to_multiset() == es.take(i as int).to_multiset(),
        {
            let id = self.folders.key_at(i).clone();
            let name = &self.folders.value_at(i).name;
            let display = if name.as_str().is_empty() {
                id.clone()
            } else {
                name.clone()
            };
            assert(es[i as int] == (id@, display@));
            proof {
                assert(es.take(i + 1) =~= es.take(i as int).push(es[i as int]));
                vstd::seq_lib::to_multiset_build(es.take(i as int), es[i as int]);
            }
            insert_sorted(&mut out, (id, display));
        }
        assert(es.take(n as int) =~= es);
        out
    }

    /// A new id for a folder: the text of a random UUID.
    pub fn generate_folder_id() -> (r: String)
        ensures
            r@.len() == 36,
            uuid_bits(r@) is Some,
            exists|bits: u128| r@ == #[trigger] uuid_text(bits),
    {
        let bits: u128 = fresh_id();
        proof {
            lemma_hex_digits(bits as nat, 32);
        }
        format_uuid(bits)
    }

    /// Puts folders under UUIDs; the fresh ids are used in order for the folders
    /// that stand under a name. Also lists the old and the new key of each of
    /// those.
    pub fn migrate_folder_keys_to(
        folders: &TextMap<FolderConfig>,
        fresh: &Vec<String>,
    ) -> (r: (TextMap<FolderConfig>, Vec<(String, String)>))
        requires
            fresh@.len() >= legacy_count(view_pairs(folders.pairs())),
        ensures
            folder_views(r.0@) == migrated(view_pairs(folders.pairs()), texts(fresh@)).0,
            pair_views(r.1@) == migrated(view_pairs(folders.pairs()), texts(fresh@)).1,
    {
        let n: usize = folders.len();
        let ghost ps = view_pairs(folders.pairs());
        let ghost ids = texts(fresh@);
        let mut out: TextMap<FolderConfig> = TextMap::new();
        let mut renames: Vec<(String, String)> = Vec::new();
        proof {
            assert(folder_views(out@) =~= Map::<Seq<char>, FolderView>::empty());
            assert(pair_views(renames@) =~= Seq::empty());
        }
        for i in 0..n
            invariant
                n == ps.len(),
                ps == view_pairs(folders.pairs()),
                ids == texts(fresh@),
                fresh@.len() >= legacy_count(ps),
                folder_views(out@) == migrated(ps.take(i as int), ids).0,
                pair_views(renames@) == migrated(ps.take(i as int), ids).1,
        {
            let key = folders.key_at(i).clone();
            let mut f = folders.value_at(i).clone();
            let ghost before = out@;
            proof {
                assert(ps.take(i + 1).drop_last() =~= ps.take(i as int));
                assert(ps.take(i + 1).last() == ps[i as int]);
                assert(ps[i as int] == (key@, f@));
                lemma_renames_count(ps.take(i as int), ids);
                lemma_legacy_count_take(ps, i as int);
            }
            if parse_uuid(key.as_str()).is_some() {
                if f.name.as_str().is_empty() {
                    f.name = key.clone();
                }
                proof {
                    assert(f@ =~= FolderView {
                        name: display_name(key@, ps[i as int].1.name),
                        ..ps[i as int].1
                    });
                }
                let ghost k = key@;
                let ghost fv = f@;
                out.insert(key, f);
                assert(folder_views(out@) =~= folder_views(before).insert(k, fv));
            } else {
                let id = fresh[renames.len()].clone();
                f.name = key.clone();
                proof {
                    assert(ids[renames@.len() as int] == id@);
                    assert(f@ =~= FolderView { name: key@, ..ps[i as int].1 });
                }
                let ghost fv = f@;
                let ghost k = key@;
                let ghost rs = pair_views(renames@);
                renames.push((key, id.clone()));
                assert(pair_views(renames@) =~= rs.push((k, id@)));
                let ghost idv = id@;
                out.insert(id, f);
                assert(folder_views(out@) =~= folder_views(before).insert(idv, fv));
            }
        }
        assert(ps.take(n as int) =~= ps);
        (out, renames)
    }

    fn fresh_folder_ids(n: usize) -> (r: Vec<String>)
        ensures
            r@.len() == n,
            forall|i: int| 0 <= i < n ==> uuid_bits((#[trigger] r@[i])@) is Some,
    {
        let mut out: Vec<String> = Vec::new();
        for i in 0..n
            invariant
                out@.len() == i,
                forall|j: int| 0 <= j < i ==> uuid_bits((#[trigger] out@[j])@) is Some,
        {
            out.push(Self::generate_folder_id());
        }
        out
    }

    /// Puts folders under UUIDs, with random ones for those that stand under a
    /// name, and says whether any did.
    pub fn migrate_folder_keys(folders: &TextMap<FolderConfig>) -> (r: (
        TextMap<FolderConfig>,
        bool,
        Vec<(String, String)>,
    ))
        ensures
            r.1 == (legacy_count(view_pairs(folders.pairs())) > 0),
            exists|fresh: Seq<Seq<char>>|
                fresh.len() >= legacy_count(view_pairs(folders.pairs())) && (forall|i: int|
                    0 <= i < fresh.len() ==> uuid_bits(#[trigger] fresh[i]) is Some) && folder_views(
                    r.0@,
                ) == (#[trigger] migrated(view_pairs(folders.pairs()), fresh)).0 && pair_views(r.2@)
                    == migrated(view_pairs(folders.pairs()), fresh).1,
    {
        let n: usize = folders.len();
        let fresh = Self::fresh_folder_ids(n);
        let ghost ps = view_pairs(folders.pairs());
        proof {
            lemma_legacy_count_bound(ps);
            lemma_renames_count(ps, texts(fresh@));
            assert forall|i: int| 0 <= i < texts(fresh@).len() implies uuid_bits(
                #[trigger] texts(fresh@)[i],
            ) is Some by {
                assert(uuid_bits(fresh@[i]@) is Some);
            }
        }
        let (out, renames) = Self::migrate_folder_keys_to(folders, &fresh);
        proof {
            assert(pair_views(renames@).len() == renames@.len());
        }
        let did_migrate: bool = renames.len() > 0;
        (out, did_migrate, renames)
    }

    fn has_folder_named(folders: &TextMap<FolderConfig>, name: &str) -> (r: bool)
        ensures
            r == name_in_use(folders@, name@),
    {
        let n: usize = folders.len();
        let ghost ps = folders.pairs();
        proof {
            lemma_map_of(ps);
        }
        for i in 0..n
            invariant
                n == ps.len(),
                ps == folders.pairs(),
                keys_distinct(ps),
                forall|j: int| 0 <= j < i ==> (#[trigger] ps[j]).1.name@ != name@,
        {
            if text_eq(folders.value_at(i).name.as_str(), name) {
                proof {
                    lemma_map_of(ps);
                    assert(folders@.contains_key(ps[i as int].0));
                }
                return true;
            }
        }
        proof {
            if name_in_use(folders@, name@) {
                let id = choose|id: Seq<char>| #[trigger]
                    folders@.contains_key(id) && folders@[id].name@ == name@;
                let j = key_index(ps, id);
                assert(ps[j].1.name@ == name@);
            }
        }
        false
    }

    /// Puts the settings together that were read for the application and for
    /// each folder, with the given ids for folders that stand under a name and
    /// for a default folder if there is none. Settings that break a rule are
    /// refused.
    pub fn load_with(
        app: ApplicationConfig,
        folders: &TextMap<FolderConfig>,
        fresh: &Vec<String>,
        default_id: String,
    ) -> (r: Result<LoadedConfig, String>)
        requires
            fresh@.len() >= legacy_count(view_pairs(folders.pairs())),
            limits_fit(app.download),
        ensures
            is_load_result(
                r,
                app,
                view_pairs(folders.pairs()),
                texts(fresh@),
                default_id@,
            ),
    {
        let ghost ps = view_pairs(folders.pairs());
        let (mut all, renames) = Self::migrate_folder_keys_to(folders, fresh);
        proof {
            lemma_renames_count(ps, texts(fresh@));
            assert(pair_views(renames@).len() == renames@.len());
        }
        let ghost m = folder_views(all@);
        let has_default = Self::has_folder_named(&all, "default");
        proof {
            assert(has_default == exists|id: Seq<char>| #[trigger]
                m.contains_key(id) && m[id].name == "default"@) by {
                if has_default {
                    let id = choose|id: Seq<char>| #[trigger]
                        all@.contains_key(id) && all@[id].name@ == "default"@;
                    assert(m.contains_key(id) && m[id].name == "default"@);
                }
                if exists|id: Seq<char>| #[trigger] m.contains_key(id) && m[id].name == "default"@ {
                    let id = choose|id: Seq<char>| #[trigger]
                        m.contains_key(id) && m[id].name == "default"@;
                    assert(all@.contains_key(id) && all@[id].name@ == "default"@);
                }
            }
        }
        if !has_default {
            let ghost before = all@;
            let ghost idv = default_id@;
            let f = FolderConfig::new_with_name(
                "default".to_owned(),
                app.download.default_directory.clone(),
            );
            let ghost fv = f@;
            all.insert(default_id, f);
            assert(folder_views(all@) =~= folder_views(before).insert(idv, fv));
        }
        let config = Config {
            general: app.general,
            download: app.download,
            network: app.network,
            scripts: app.scripts,
            keybindings: app.keybindings,
            folders: all,
        };
        assert(is_loaded(config, app, ps, texts(fresh@), default_id@));
        match validate_folder_config(&config) {
            Ok(_) => Ok(LoadedConfig { config, migrated: renames.len() > 0, renames }),
            Err(errors) => {
                let mut message = "Invalid configuration: ".to_owned();
                let detail = join_messages(&errors);
                message.append(detail.as_str());
                Err(message)
            },
        }
    }

    /// Puts the settings together that were read for the application and for
    /// each folder: folders that stand under a name are put under random UUIDs,
    /// a default folder is added if there is none, and settings that break a
    /// rule are refused.
    pub fn load(app: ApplicationConfig, folders: &TextMap<FolderConfig>) -> (r: Result<
        LoadedConfig,
        String,
    >)
        requires
            limits_fit(app.download),
        ensures
            exists|fresh: Seq<Seq<char>>, default_id: Seq<char>| #[trigger]
                is_load_result(r, app, view_pairs(folders.pairs()), fresh, default_id)
                    && fresh.len() >= legacy_count(view_pairs(folders.pairs())) && (forall|i: int|
                    0 <= i < fresh.len() ==> uuid_bits(#[trigger] fresh[i]) is Some) && uuid_bits(
                    default_id,
                ) is Some,
    {
        let n: usize = folders.len();
        let fresh = Self::fresh_folder_ids(n);
        let default_id = Self::generate_folder_id();
        let ghost ps = view_pairs(folders.pairs());
        let ghost idv = default_id@;
        proof {
            lemma_legacy_count_bound(ps);
            assert forall|i: int| 0 <= i < texts(fresh@).len() implies uuid_bits(
                #[trigger] texts(fresh@)[i],
            ) is Some by {
                assert(uuid_bits(fresh@[i]@) is Some);
            }
        }
        let r = Self::load_with(app, folders, &fresh, default_id);
        assert(is_load_result(r, app, ps, texts(fresh@), idv));
        r
    }

    /// Checks whether the settings may be saved: settings that break a rule are
    /// refused.
    pub fn save(&self) -> (r: Result<(), String>)
        requires
            limits_fit(self.download),
        ensures
            match r {
                Ok(_) => config_errors(*self).len() == 0,
                Err(message) => config_errors(*self).len() > 0 && message@
                    == "Cannot save invalid config: "@ + validation_texts(config_errors(*self)),
            },
    {
        match validate_folder_config(self) {
            Ok(_) => Ok(()),
            Err(errors) => {
                let mut message = "Cannot save invalid config: ".to_owned();
                let detail = join_messages(&errors);
                message.append(detail.as_str());
                Err(message)
            },
        }
    }

    /// The ids of the folders by name. Where several folders share a name, the
    /// id is that of one of them.
    pub fn get_migration_map(folders: &TextMap<FolderConfig>) -> (r: TextMap<String>)
        ensures
            forall|name: Seq<char>| #[trigger]
                r@.contains_key(name) <==> name.len() > 0 && name_in_use(folders@, name),
            forall|name: Seq<char>| #[trigger]
                r@.contains_key(name) ==> folders@.contains_key(r@[name]@)
                    && folders@[r@[name]@].name@ == name,
    {
        let n: usize = folders.len();
        let ghost ps = folders.pairs();
        let mut out: TextMap<String> = TextMap::new();
        proof {
            lemma_map_of(ps);
        }
        for i in 0..n
            invariant
                n == ps.len(),
                ps == folders.pairs(),
                keys_distinct(ps),
                forall|name: Seq<char>| #[trigger]
                    out@.contains_key(name) <==> name.len() > 0 && exists|j: int|
                        0 <= j < i && (#[trigger] ps[j]).1.name@ == name,
                forall|name: Seq<char>| #[trigger]
                    out@.contains_key(name) ==> folders@.contains_key(out@[name]@)
                        && folders@[out@[name]@].name@ == name,
        {
            let f = folders.value_at(i);
            let ghost before = out@;
            if !f.name.as_str().is_empty() {
                let id = folders.key_at(i).clone();
                out.insert(f.name.clone(), id);
                proof {
                    lemma_map_of(ps);
                    assert(folders@.contains_key(ps[i as int].0));
                }
            }
            proof {
                assert forall|name: Seq<char>| #[trigger] out@.contains_key(name) <==> name.len() > 0
                    && exists|j: int| 0 <= j < i + 1 && (#[trigger] ps[j]).1.name@ == name by {
                    if out@.contains_key(name) {
                        if before.contains_key(name) {
                            let j = choose|j: int| 0 <= j < i && (#[trigger] ps[j]).1.name@ == name;
                            assert(ps[j].1.name@ == name);
                        } else {
                            assert(ps[i as int].1.name@ == name);
                        }
                    }
                    if name.len() > 0 && exists|j: int|
                        0 <= j < i + 1 && (#[trigger] ps[j]).1.name@ == name {
                        let j = choose|j: int|
                            0 <= j < i + 1 && (#[trigger] ps[j]).1.name@ == name;
                        if j < i {
                            assert(before.contains_key(name));
                        }
                    }
                }
            }
        }
        proof {
            lemma_map_of(ps);
            assert forall|name: Seq<char>| #[trigger] out@.contains_key(name) <==> name.len() > 0
                && name_in_use(folders@, name) by {
                if out@.contains_key(name) {
                    assert(folders@.contains_key(out@[name]@));
                }
                if name.len() > 0 && name_in_use(folders@, name) {
                    let id = choose|id: Seq<char>| #[trigger]
                        folders@.contains_key(id) && folders@[id].name@ == name;
                    let j = key_index(ps, id);
                    assert(ps[j].1.name@ == name);
                }
            }
        }
        out
    }
}

/// Whether `r` is the result of loading with the given new ids.
pub open spec fn is_load_result(
    r: Result<LoadedConfig, String>,
    app: ApplicationConfig,
    folders: Seq<(Seq<char>, FolderView)>,
    fresh: Seq<Seq<char>>,
    default_id: Seq<char>,
) -> bool {
    match r {
        Ok(l) => {
            &&& is_loaded(l.config, app, folders, fresh, default_id)
            &&& config_errors(l.config).len() == 0
            &&& l.migrated == (legacy_count(folders) > 0)
            &&& pair_views(l.renames@) == migrated(folders, fresh).1
        },
        Err(message) => exists|config: Config| #[trigger]
            is_loaded(config, app, folders, fresh, default_id) && config_errors(config).len() > 0
                && message@ == "Invalid configuration: "@ + validation_texts(
                config_errors(config),
            ),
    }
}

/// Loading takes the application's settings over as they are, and succeeds exactly if
/// what was put together breaks no rule; otherwise every broken rule is named. Whether
/// folders were put under new ids, and which, is said too.
pub proof fn law_loading_takes_all_over(
    r: Result<LoadedConfig, String>,
    app: ApplicationConfig,
    folders: Seq<(Seq<char>, FolderView)>,
    fresh: Seq<Seq<char>>,
    default_id: Seq<char>,
)
    requires
        is_load_result(r, app, folders, fresh, default_id),
    ensures
        r is Ok ==> {
            let l = r->Ok_0;
            &&& l.config.general == app.general
            &&& l.config.download == app.download
            &&& l.config.network == app.network
            &&& l.config.scripts == app.scripts
            &&& l.config.keybindings == app.keybindings
            &&& folder_views(l.config.folders@) == with_default_folder(
                migrated(folders, fresh).0,
                default_id,
                app.download.default_directory@,
            )
            &&& config_errors(l.config) == Seq::<super::settings::ValidationView>::empty()
            &&& l.migrated <==> exists|i: int|
                0 <= i < folders.len() && uuid_bits((#[trigger] folders[i]).0) is None
            &&& pair_views(l.renames@) == migrated(folders, fresh).1
        },
        r is Err ==> exists|config: Config|
            {
                &&& same_app(config, app)
                &&& #[trigger] config_errors(config).len() > 0
                &&& r->Err_0@ == "Invalid configuration: "@ + validation_texts(
                    config_errors(config),
                )
            },
{
    law_legacy_keys_are_counted(folders, fresh);
    if r is Ok {
        assert(config_errors(r->Ok_0.config) =~= Seq::<super::settings::ValidationView>::empty());
    }
}

/// The settings that an application starts out with.
pub proof fn law_default_settings(
    general: GeneralConfig,
    download: DownloadConfig,
    network: NetworkConfig,
    scripts: ScriptConfig,
    download_directory: PathView,
    scripts_directory: PathView,
)
    requires
        is_default_app(
            general,
            download,
            network,
            scripts,
            download_directory,
            scripts_directory,
        ),
    ensures
        download.default_directory@ == download_directory,
        download.max_concurrent == 3,
        download.retry_count == 3,
        download.retry_delay == 5,
        download.max_redirects == 5,
        download.bandwidth_limit == 0,
        download.max_concurrent_per_folder is None,
        download.parallel_folder_count is None,
        download.referrer_policy@ == PolicyView::Simple(ReferrerPolicyKind::NoReferrer),
        scripts.enabled,
        scripts.timeout == 30,
        scripts.directory@ == scripts_directory,
        forall|name: Seq<char>| !#[trigger] scripts.script_files@.contains_key(name),
        !network.proxy_enabled,
        !network.proxy_auth,
        network.proxy_port == 8080,
        network.proxy_type@ == "http"@,
        network.proxy_host@.len() == 0,
        network.proxy_user@.len() == 0,
        network.proxy_pass@.len() == 0,
        download.user_agent@
            == "Mozilla/5.0 (Windows NT 10.0; Win64; x64) AppleWebKit/537.36 (KHTML, like Gecko) Chrome/120.0.0.0 Safari/537.36"@,
        general.language@ == "en"@,
        general.theme@ == "classic"@,
        general.minimize_to_tray && general.skip_download_preview,
        !general.start_minimized && !general.auto_launch_dnd,
{
}

/// Legacy folders at the start of a list are no more than in all of it.
proof fn lemma_legacy_count_take(ps: Seq<(Seq<char>, FolderView)>, n: int)
    requires
        0 <= n < ps.len(),
    ensures
        legacy_count(ps.take(n)) + (if uuid_bits(ps[n].0) is Some {
            0nat
        } else {
            1nat
        }) <= legacy_count(ps),
    decreases ps.len(),
{
    if n == ps.len() - 1 {
        assert(ps.take(n) =~= ps.drop_last());
    } else {
        lemma_legacy_count_take(ps.drop_last(), n);
        assert(ps.drop_last().take(n) =~= ps.take(n));
    }
}

/// There are no more legacy folders than folders.
proof fn lemma_legacy_count_bound(ps: Seq<(Seq<char>, FolderView)>)
    ensures
        legacy_count(ps) <= ps.len(),
    decreases ps.len(),
{
    if ps.len() > 0 {
        lemma_legacy_count_bound(ps.drop_last());
    }
}

} // verus!

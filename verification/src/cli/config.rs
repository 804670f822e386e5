//! Settings by name, as they are read and changed on the command line.

use vstd::prelude::*;
use vstd::string::*;
use crate::app::config::Config;
use crate::file::path::{PathView, SavePath};
use crate::text::{
    decimal, decimal_u64, flag_fault, flag_of, flag_text, law_flags_are_words, law_parse_of_decimal,
    number_error_text, number_fault, parsed, read_flag, read_number, show_flag, text_eq, texts,
};

verus! {

// ---------------------------------------------------------------------------
// Settings of the application
// ---------------------------------------------------------------------------

/// The settings that have a name.
#[derive(Debug, Clone, Copy, PartialEq, Eq, Structural)]
pub enum ConfigKey {
    Language,
    Theme,
    MinimizeToTray,
    StartMinimized,
    DefaultDirectory,
    MaxConcurrent,
    RetryCount,
    RetryDelay,
    UserAgent,
    BandwidthLimit,
    ProxyEnabled,
    ProxyType,
    ProxyHost,
    ProxyPort,
    ScriptsEnabled,
    ScriptsDirectory,
    ScriptsTimeout,
}

/// What a setting holds.
pub enum ConfigValue {
    Text(String),
    Path(SavePath),
}

/// What a setting holds, as values.
pub enum SettingView {
    Text(Seq<char>),
    Flag(bool),
    Number(nat),
    Path(PathView),
}

/// The name of a setting: its section and its own name.
pub open spec fn key_name(key: ConfigKey) -> Seq<char> {
    match key {
        ConfigKey::Language => "general.language"@,
        ConfigKey::Theme => "general.theme"@,
        ConfigKey::MinimizeToTray => "general.minimize_to_tray"@,
        ConfigKey::StartMinimized => "general.start_minimized"@,
        ConfigKey::DefaultDirectory => "download.default_directory"@,
        ConfigKey::MaxConcurrent => "download.max_concurrent"@,
        ConfigKey::RetryCount => "download.retry_count"@,
        ConfigKey::RetryDelay => "download.retry_delay"@,
        ConfigKey::UserAgent => "download.user_agent"@,
        ConfigKey::BandwidthLimit => "download.bandwidth_limit"@,
        ConfigKey::ProxyEnabled => "network.proxy_enabled"@,
        ConfigKey::ProxyType => "network.proxy_type"@,
        ConfigKey::ProxyHost => "network.proxy_host"@,
        ConfigKey::ProxyPort => "network.proxy_port"@,
        ConfigKey::ScriptsEnabled => "scripts.enabled"@,
        ConfigKey::ScriptsDirectory => "scripts.directory"@,
        ConfigKey::ScriptsTimeout => "scripts.timeout"@,
    }
}

/// The setting with the given name, if there is one.
pub open spec fn key_named(name: Seq<char>) -> Option<ConfigKey> {
    if name == "general.language"@ {
        Some(ConfigKey::Language)
    } else if name == "general.theme"@ {
        Some(ConfigKey::Theme)
    } else if name == "general.minimize_to_tray"@ {
        Some(ConfigKey::MinimizeToTray)
    } else if name == "general.start_minimized"@ {
        Some(ConfigKey::StartMinimized)
    } else if name == "download.default_directory"@ {
        Some(ConfigKey::DefaultDirectory)
    } else if name == "download.max_concurrent"@ {
        Some(ConfigKey::MaxConcurrent)
    } else if name == "download.retry_count"@ {
        Some(ConfigKey::RetryCount)
    } else if name == "download.retry_delay"@ {
        Some(ConfigKey::RetryDelay)
    } else if name == "download.user_agent"@ {
        Some(ConfigKey::UserAgent)
    } else if name == "download.bandwidth_limit"@ {
        Some(ConfigKey::BandwidthLimit)
    } else if name == "network.proxy_enabled"@ {
        Some(ConfigKey::ProxyEnabled)
    } else if name == "network.proxy_type"@ {
        Some(ConfigKey::ProxyType)
    } else if name == "network.proxy_host"@ {
        Some(ConfigKey::ProxyHost)
    } else if name == "network.proxy_port"@ {
        Some(ConfigKey::ProxyPort)
    } else if name == "scripts.enabled"@ {
        Some(ConfigKey::ScriptsEnabled)
    } else if name == "scripts.directory"@ {
        Some(ConfigKey::ScriptsDirectory)
    } else if name == "scripts.timeout"@ {
        Some(ConfigKey::ScriptsTimeout)
    } else {
        None
    }
}

/// The name of a setting names it.
pub proof fn law_key_names(key: ConfigKey)
    ensures
        key_named(key_name(key)) == Some(key),
{
    reveal_strlit("general.language");
    reveal_strlit("general.theme");
    reveal_strlit("general.minimize_to_tray");
    reveal_strlit("general.start_minimized");
    reveal_strlit("download.default_directory");
    reveal_strlit("download.max_concurrent");
    reveal_strlit("download.retry_count");
    reveal_strlit("download.retry_delay");
    reveal_strlit("download.user_agent");
    reveal_strlit("download.bandwidth_limit");
    reveal_strlit("network.proxy_enabled");
    reveal_strlit("network.proxy_type");
    reveal_strlit("network.proxy_host");
    reveal_strlit("network.proxy_port");
    reveal_strlit("scripts.enabled");
    reveal_strlit("scripts.directory");
    reveal_strlit("scripts.timeout");
    assert("general.language"@.len() == 16);
    assert("general.theme"@.len() == 13);
    assert("general.minimize_to_tray"@.len() == 24);
    assert("general.start_minimized"@.len() == 23);
    assert("download.default_directory"@.len() == 26);
    assert("download.max_concurrent"@.len() == 23);
    assert("download.retry_count"@.len() == 20);
    assert("download.retry_delay"@.len() == 20);
    assert("download.user_agent"@.len() == 19);
    assert("download.bandwidth_limit"@.len() == 24);
    assert("network.proxy_enabled"@.len() == 21);
    assert("network.proxy_type"@.len() == 18);
    assert("network.proxy_host"@.len() == 18);
    assert("network.proxy_port"@.len() == 18);
    assert("scripts.enabled"@.len() == 15);
    assert("scripts.directory"@.len() == 17);
    assert("scripts.timeout"@.len() == 15);
    assert("download.max_concurrent"@[0] != "general.start_minimized"@[0]);
    assert("download.retry_delay"@[15] != "download.retry_count"@[15]);
    assert("download.bandwidth_limit"@[0] != "general.minimize_to_tray"@[0]);
    assert("network.proxy_host"@[14] != "network.proxy_type"@[14]);
    assert("network.proxy_port"@[14] != "network.proxy_type"@[14]);
    assert("network.proxy_port"@[14] != "network.proxy_host"@[14]);
    assert("scripts.timeout"@[8] != "scripts.enabled"@[8]);
}

/// A key has one name, under which alone it is found.
pub proof fn law_one_name_for_a_key(name: Seq<char>, key: ConfigKey)
    ensures
        key_named(name) == Some(key) ==> name == key_name(key),
        key_named(name) is None ==> name != key_name(key),
{
    law_key_names(key);
}

/// What a setting is.
pub open spec fn setting(config: Config, key: ConfigKey) -> SettingView {
    match key {
        ConfigKey::Language => SettingView::Text(config.general.language@),
        ConfigKey::Theme => SettingView::Text(config.general.theme@),
        ConfigKey::MinimizeToTray => SettingView::Flag(config.general.minimize_to_tray),
        ConfigKey::StartMinimized => SettingView::Flag(config.general.start_minimized),
        ConfigKey::DefaultDirectory => SettingView::Path(config.download.default_directory@),
        ConfigKey::MaxConcurrent => SettingView::Number(config.download.max_concurrent as nat),
        ConfigKey::RetryCount => SettingView::Number(config.download.retry_count as nat),
        ConfigKey::RetryDelay => SettingView::Number(config.download.retry_delay as nat),
        ConfigKey::UserAgent => SettingView::Text(config.download.user_agent@),
        ConfigKey::BandwidthLimit => SettingView::Number(config.download.bandwidth_limit as nat),
        ConfigKey::ProxyEnabled => SettingView::Flag(config.network.proxy_enabled),
        ConfigKey::ProxyType => SettingView::Text(config.network.proxy_type@),
        ConfigKey::ProxyHost => SettingView::Text(config.network.proxy_host@),
        ConfigKey::ProxyPort => SettingView::Number(config.network.proxy_port as nat),
        ConfigKey::ScriptsEnabled => SettingView::Flag(config.scripts.enabled),
        ConfigKey::ScriptsDirectory => SettingView::Path(config.scripts.directory@),
        ConfigKey::ScriptsTimeout => SettingView::Number(config.scripts.timeout as nat),
    }
}

/// The largest number that a setting can hold.
pub open spec fn largest(key: ConfigKey) -> nat {
    match key {
        ConfigKey::MaxConcurrent => usize::MAX as nat,
        ConfigKey::RetryCount => u32::MAX as nat,
        ConfigKey::ProxyPort => u16::MAX as nat,
        _ => u64::MAX as nat,
    }
}

/// Whether two settings of the application agree on all that has no name.
pub open spec fn nameless_same(a: Config, b: Config) -> bool {
    &&& a.general.skip_download_preview == b.general.skip_download_preview
    &&& a.general.auto_launch_dnd == b.general.auto_launch_dnd
    &&& a.download.max_concurrent_per_folder == b.download.max_concurrent_per_folder
    &&& a.download.parallel_folder_count == b.download.parallel_folder_count
    &&& a.download.max_redirects == b.download.max_redirects
    &&& a.download.referrer_policy == b.download.referrer_policy
    &&& a.network.proxy_auth == b.network.proxy_auth
    &&& a.network.proxy_user == b.network.proxy_user
    &&& a.network.proxy_pass == b.network.proxy_pass
    &&& a.scripts.script_files == b.scripts.script_files
    &&& a.keybindings == b.keybindings
    &&& a.folders == b.folders
}

/// What a setting becomes when it is set to a text, which read as a path has the
/// given components; or what is said of a text that it cannot be set to.
pub open spec fn value_read(
    current: SettingView,
    max: nat,
    value: Seq<char>,
    components: Seq<Seq<char>>,
) -> Result<SettingView, Seq<char>> {
    match current {
        SettingView::Text(_) => Ok(SettingView::Text(value)),
        SettingView::Path(_) => Ok(
            SettingView::Path(PathView { components, spelling: Some(value) }),
        ),
        SettingView::Flag(_) => match flag_of(value) {
            Some(b) => Ok(SettingView::Flag(b)),
            None => Err(flag_fault()),
        },
        SettingView::Number(_) => match parsed(value, max) {
            Some(n) => Ok(SettingView::Number(n)),
            None => Err(number_error_text(number_fault(value, max))),
        },
    }
}

/// What is shown of a setting: of a path, as it was written.
pub open spec fn value_shown(v: SettingView) -> Option<Seq<char>> {
    match v {
        SettingView::Text(s) => Some(s),
        SettingView::Flag(b) => Some(flag_text(b)),
        SettingView::Number(n) => Some(decimal(n)),
        SettingView::Path(p) => p.spelling,
    }
}

/// Each key stands for the setting of its name.
pub proof fn law_settings_by_key(config: Config)
    ensures
        setting(config, ConfigKey::Language) == SettingView::Text(config.general.language@),
        setting(config, ConfigKey::Theme) == SettingView::Text(config.general.theme@),
        setting(config, ConfigKey::MinimizeToTray) == SettingView::Flag(
            config.general.minimize_to_tray,
        ),
        setting(config, ConfigKey::StartMinimized) == SettingView::Flag(
            config.general.start_minimized,
        ),
        setting(config, ConfigKey::DefaultDirectory) == SettingView::Path(
            config.download.default_directory@,
        ),
        setting(config, ConfigKey::MaxConcurrent) == SettingView::Number(
            config.download.max_concurrent as nat,
        ),
        setting(config, ConfigKey::RetryCount) == SettingView::Number(
            config.download.retry_count as nat,
        ),
        setting(config, ConfigKey::RetryDelay) == SettingView::Number(
            config.download.retry_delay as nat,
        ),
        setting(config, ConfigKey::UserAgent) == SettingView::Text(config.download.user_agent@),
        setting(config, ConfigKey::BandwidthLimit) == SettingView::Number(
            config.download.bandwidth_limit as nat,
        ),
        setting(config, ConfigKey::ProxyEnabled) == SettingView::Flag(
            config.network.proxy_enabled,
        ),
        setting(config, ConfigKey::ProxyType) == SettingView::Text(config.network.proxy_type@),
        setting(config, ConfigKey::ProxyHost) == SettingView::Text(config.network.proxy_host@),
        setting(config, ConfigKey::ProxyPort) == SettingView::Number(
            config.network.proxy_port as nat,
        ),
        setting(config, ConfigKey::ScriptsEnabled) == SettingView::Flag(config.scripts.enabled),
        setting(config, ConfigKey::ScriptsDirectory) == SettingView::Path(
            config.scripts.directory@,
        ),
        setting(config, ConfigKey::ScriptsTimeout) == SettingView::Number(
            config.scripts.timeout as nat,
        ),
{
}

/// A setting stays of its kind: a flag takes `true` and `false`, a number takes digits
/// up to the largest that its setting holds, and texts and paths take anything.
pub proof fn law_what_a_setting_takes(
    current: SettingView,
    max: nat,
    value: Seq<char>,
    components: Seq<Seq<char>>,
    n: nat,
)
    ensures
        ({
            let r = value_read(current, max, value, components);
            &&& current is Text ==> r == Ok::<SettingView, Seq<char>>(SettingView::Text(value))
            &&& current is Path ==> r is Ok && r->Ok_0 is Path && r->Ok_0->Path_0.components
                == components
            &&& current is Flag ==> (r is Ok <==> value == "true"@ || value == "false"@)
            &&& current is Flag && value == "true"@ ==> r == Ok::<SettingView, Seq<char>>(
                SettingView::Flag(true),
            )
            &&& current is Flag && value == "false"@ ==> r == Ok::<SettingView, Seq<char>>(
                SettingView::Flag(false),
            )
            &&& current is Number && value == decimal(n) && n <= max ==> r == Ok::<
                SettingView,
                Seq<char>,
            >(SettingView::Number(n))
            &&& current is Number && value == decimal(n) && n > max ==> r is Err
        }),
        largest(ConfigKey::ProxyPort) == 65_535,
        largest(ConfigKey::RetryCount) == u32::MAX,
        largest(ConfigKey::MaxConcurrent) == usize::MAX,
        largest(ConfigKey::RetryDelay) == u64::MAX,
        largest(ConfigKey::BandwidthLimit) == u64::MAX,
        largest(ConfigKey::ScriptsTimeout) == u64::MAX,
{
    law_flags_are_words(value);
    law_parse_of_decimal(n, max);
}

/// A setting that is set to what is shown of it stays as it is.
pub proof fn law_shown_values_can_be_set(
    v: SettingView,
    max: nat,
    shown: Seq<char>,
    components: Seq<Seq<char>>,
)
    requires
        value_shown(v) == Some(shown),
        v is Number ==> v->Number_0 <= max,
        v is Path ==> v->Path_0.components == components,
    ensures
        value_read(v, max, shown, components) == Ok::<SettingView, Seq<char>>(v),
{
    match v {
        SettingView::Flag(b) => {
            crate::text::law_flag_of_text(b);
        },
        SettingView::Number(n) => {
            law_parse_of_decimal(n, max);
        },
        _ => {},
    }
}

/// A setting that was set to a text is shown as that text, a number as the
/// number that the text denotes.
pub proof fn law_set_values_are_shown(
    current: SettingView,
    max: nat,
    value: Seq<char>,
    components: Seq<Seq<char>>,
)
    requires
        value_read(current, max, value, components) is Ok,
    ensures
        ({
            let shown = value_shown(value_read(current, max, value, components)->Ok_0);
            if current is Number {
                shown == Some(decimal(parsed(value, max)->0))
            } else {
                shown == Some(value)
            }
        }),
{
}

/// The setting with the given name, if there is one.
pub fn find_key(name: &str) -> (r: Option<ConfigKey>)
    ensures
        r == key_named(name@),
{
    if text_eq(name, "general.language") {
        Some(ConfigKey::Language)
    } else if text_eq(name, "general.theme") {
        Some(ConfigKey::Theme)
    } else if text_eq(name, "general.minimize_to_tray") {
        Some(ConfigKey::MinimizeToTray)
    } else if text_eq(name, "general.start_minimized") {
        Some(ConfigKey::StartMinimized)
    } else if text_eq(name, "download.default_directory") {
        Some(ConfigKey::DefaultDirectory)
    } else if text_eq(name, "download.max_concurrent") {
        Some(ConfigKey::MaxConcurrent)
    } else if text_eq(name, "download.retry_count") {
        Some(ConfigKey::RetryCount)
    } else if text_eq(name, "download.retry_delay") {
        Some(ConfigKey::RetryDelay)
    } else if text_eq(name, "download.user_agent") {
        Some(ConfigKey::UserAgent)
    } else if text_eq(name, "download.bandwidth_limit") {
        Some(ConfigKey::BandwidthLimit)
    } else if text_eq(name, "network.proxy_enabled") {
        Some(ConfigKey::ProxyEnabled)
    } else if text_eq(name, "network.proxy_type") {
        Some(ConfigKey::ProxyType)
    } else if text_eq(name, "network.proxy_host") {
        Some(ConfigKey::ProxyHost)
    } else if text_eq(name, "network.proxy_port") {
        Some(ConfigKey::ProxyPort)
    } else if text_eq(name, "scripts.enabled") {
        Some(ConfigKey::ScriptsEnabled)
    } else if text_eq(name, "scripts.directory") {
        Some(ConfigKey::ScriptsDirectory)
    } else if text_eq(name, "scripts.timeout") {
        Some(ConfigKey::ScriptsTimeout)
    } else {
        None
    }
}

fn unknown_key(key: &str) -> (r: String)
    ensures
        r@ == "Unknown configuration key: "@ + key@,
{
    let mut s = "Unknown configuration key: ".to_owned();
    s.append(key);
    s
}

/// A path as a setting holds it.
fn path_value(path: &SavePath) -> (r: ConfigValue)
    ensures
        match path@.spelling {
            Some(s) => r is Text && r->Text_0@ == s,
            None => r is Path && r->Path_0@ == path@,
        },
{
    match &path.spelling {
        Some(s) => ConfigValue::Text(s.clone()),
        None => ConfigValue::Path(path.clone()),
    }
}

/// The setting with the given name, as it is shown; a path that was put together
/// is left to be shown as paths are.
pub fn get_config_value(config: &Config, key: &str) -> (r: Result<ConfigValue, String>)
    ensures
        match key_named(key@) {
            Some(k) => r is Ok && match value_shown(setting(*config, k)) {
                Some(s) => r->Ok_0 is Text && r->Ok_0->Text_0@ == s,
                None => r->Ok_0 is Path && setting(*config, k) == SettingView::Path(
                    r->Ok_0->Path_0@,
                ),
            },
            None => r is Err && r->Err_0@ == "Unknown configuration key: "@ + key@,
        },
{
    match find_key(key) {
        None => Err(unknown_key(key)),
        Some(k) => {
            let value = match k {
                ConfigKey::Language => ConfigValue::Text(config.general.language.clone()),
                ConfigKey::Theme => ConfigValue::Text(config.general.theme.clone()),
                ConfigKey::MinimizeToTray => ConfigValue::Text(show_flag(config.general.minimize_to_tray)),
                ConfigKey::StartMinimized => ConfigValue::Text(show_flag(config.general.start_minimized)),
                ConfigKey::DefaultDirectory => path_value(&config.download.default_directory),
                ConfigKey::MaxConcurrent => ConfigValue::Text(decimal_u64(config.download.max_concurrent as u64)),
                ConfigKey::RetryCount => ConfigValue::Text(decimal_u64(config.download.retry_count as u64)),
                ConfigKey::RetryDelay => ConfigValue::Text(decimal_u64(config.download.retry_delay)),
                ConfigKey::UserAgent => ConfigValue::Text(config.download.user_agent.clone()),
                ConfigKey::BandwidthLimit => ConfigValue::Text(decimal_u64(config.download.bandwidth_limit)),
                ConfigKey::ProxyEnabled => ConfigValue::Text(show_flag(config.network.proxy_enabled)),
                ConfigKey::ProxyType => ConfigValue::Text(config.network.proxy_type.clone()),
                ConfigKey::ProxyHost => ConfigValue::Text(config.network.proxy_host.clone()),
                ConfigKey::ProxyPort => ConfigValue::Text(decimal_u64(config.network.proxy_port as u64)),
                ConfigKey::ScriptsEnabled => ConfigValue::Text(show_flag(config.scripts.enabled)),
                ConfigKey::ScriptsDirectory => path_value(&config.scripts.directory),
                ConfigKey::ScriptsTimeout => ConfigValue::Text(decimal_u64(config.scripts.timeout)),
            };
            Ok(value)
        },
    }
}

/// The truth value that a text denotes, or what is said of one that denotes none.
pub fn flag_value(value: &str) -> (r: Result<bool, String>)
    ensures
        match r {
            Ok(b) => flag_of(value@) == Some(b),
            Err(e) => flag_of(value@) is None && e@ == flag_fault(),
        },
{
    match read_flag(value) {
        Some(b) => Ok(b),
        None => Err("provided string was not `true` or `false`".to_owned()),
    }
}

/// The number up to `max` that a text denotes, or what is said of one that denotes
/// none.
pub fn number_value(value: &str, max: u64) -> (r: Result<u64, String>)
    ensures
        match r {
            Ok(n) => parsed(value@, max as nat) == Some(n as nat) && n <= max,
            Err(e) => parsed(value@, max as nat) is None && e@ == number_error_text(
                number_fault(value@, max as nat),
            ),
        },
{
    match read_number(value, max) {
        Ok(n) => Ok(n),
        Err(e) => Err(e.message()),
    }
}

/// Sets the setting with the given name to a text, which read as a path has the
/// given components.
pub fn set_config_value(
    config: &mut Config,
    key: &str,
    value: &str,
    components: Vec<String>,
) -> (r: Result<(), String>)
    ensures
        match key_named(key@) {
            Some(k) => {
                let read = value_read(
                    setting(*old(config), k),
                    largest(k),
                    value@,
                    texts(components@),
                );
                &&& r is Ok <==> read is Ok
                &&& r is Err ==> r->Err_0@ == read->Err_0
                &&& read is Ok ==> setting(*final(config), k) == read->Ok_0
                &&& forall|j: ConfigKey|
                    j != k ==> #[trigger] setting(*final(config), j) == setting(*old(config), j)
            },
            None => r is Err && r->Err_0@ == "Unknown configuration key: "@ + key@,
        },
        r is Err ==> *final(config) == *old(config),
        nameless_same(*old(config), *final(config)),
{
    let k = match find_key(key) {
        None => {
            return Err(unknown_key(key));
        },
        Some(k) => k,
    };
    match k {
        ConfigKey::Language => {
            config.general.language = value.to_owned();
        },
        ConfigKey::Theme => {
            config.general.theme = value.to_owned();
        },
        ConfigKey::MinimizeToTray => match flag_value(value) {
            Ok(b) => {
                config.general.minimize_to_tray = b;
            },
            Err(e) => {
                return Err(e);
            },
        },
        ConfigKey::StartMinimized => match flag_value(value) {
            Ok(b) => {
                config.general.start_minimized = b;
            },
            Err(e) => {
                return Err(e);
            },
        },
        ConfigKey::DefaultDirectory => {
            config.download.default_directory = SavePath::written(value, components);
        },
        ConfigKey::MaxConcurrent => match number_value(value, usize::MAX as u64) {
            Ok(n) => {
                config.download.max_concurrent = n as usize;
            },
            Err(e) => {
                return Err(e);
            },
        },
        ConfigKey::RetryCount => match number_value(value, u32::MAX as u64) {
            Ok(n) => {
                config.download.retry_count = n as u32;
            },
            Err(e) => {
                return Err(e);
            },
        },
        ConfigKey::RetryDelay => match number_value(value, u64::MAX) {
            Ok(n) => {
                config.download.retry_delay = n;
            },
            Err(e) => {
                return Err(e);
            },
        },
        ConfigKey::UserAgent => {
            config.download.user_agent = value.to_owned();
        },
        ConfigKey::BandwidthLimit => match number_value(value, u64::MAX) {
            Ok(n) => {
                config.download.bandwidth_limit = n;
            },
            Err(e) => {
                return Err(e);
            },
        },
        ConfigKey::ProxyEnabled => match flag_value(value) {
            Ok(b) => {
                config.network.proxy_enabled = b;
            },
            Err(e) => {
                return Err(e);
            },
        },
        ConfigKey::ProxyType => {
            config.network.proxy_type = value.to_owned();
        },
        ConfigKey::ProxyHost => {
            config.network.proxy_host = value.to_owned();
        },
        ConfigKey::ProxyPort => match number_value(value, u16::MAX as u64) {
            Ok(n) => {
                config.network.proxy_port = n as u16;
            },
            Err(e) => {
                return Err(e);
            },
        },
        ConfigKey::ScriptsEnabled => match flag_value(value) {
            Ok(b) => {
                config.scripts.enabled = b;
            },
            Err(e) => {
                return Err(e);
            },
        },
        ConfigKey::ScriptsDirectory => {
            config.scripts.directory = SavePath::written(value, components);
        },
        ConfigKey::ScriptsTimeout => match number_value(value, u64::MAX) {
            Ok(n) => {
                config.scripts.timeout = n;
            },
            Err(e) => {
                return Err(e);
            },
        },
    }
    Ok(())
}

} // verus!

use vstd::prelude::*;

verus! {

/// Top-level configuration. Sections missing from a configuration file take
/// their defaults.
#[derive(Clone, Debug)]
pub struct Config {
    pub general: GeneralConfig,
    pub enforcer: EnforcerConfig,
    pub lineage: LineageConfig,
}

impl Default for Config {
    fn default() -> (c: Self)
        ensures
            c.general.data_dir@ == "~/.impactvault"@,
            c.enforcer.enabled,
            c.enforcer.default_action@ == "block"@,
            c.enforcer.rules@.len() == 0,
            c.lineage.http_port == 0,
    {
        Config {
            general: GeneralConfig::default(),
            enforcer: EnforcerConfig::default(),
            lineage: LineageConfig::default(),
        }
    }
}

/// General paths and directories.
#[derive(Clone, Debug)]
pub struct GeneralConfig {
    pub data_dir: String,
}

impl Default for GeneralConfig {
    fn default() -> (c: Self)
        ensures
            c.data_dir@ == "~/.impactvault"@,
    {
        GeneralConfig { data_dir: String::from_str("~/.impactvault") }
    }
}

/// Policy enforcer settings.
#[derive(Clone, Debug)]
pub struct EnforcerConfig {
    pub enabled: bool,
    pub default_action: String,
    pub rules: Vec<RuleConfig>,
}

impl Default for EnforcerConfig {
    fn default() -> (c: Self)
        ensures
            c.enabled,
            c.default_action@ == "block"@,
            c.rules@.len() == 0,
    {
        EnforcerConfig { enabled: true, default_action: String::from_str("block"), rules: Vec::new() }
    }
}

/// A single enforcer rule defined in the configuration file.
#[derive(Clone, Debug)]
pub struct RuleConfig {
    pub name: String,
    pub description: Option<String>,
    pub action: String,
    pub enabled: Option<bool>,
    pub condition: RuleConditionConfig,
}

/// The flat form of a rule's condition.
#[derive(Clone, Debug)]
pub struct RuleConditionConfig {
    /// "MissingInWindow" or "RepeatWithout".
    pub kind: String,
    pub trigger: Option<String>,
    pub required: Option<String>,
    pub window: Option<usize>,
    pub category: Option<String>,
    pub count: Option<usize>,
}

/// Lineage tracking HTTP API settings.
#[derive(Clone, Debug)]
pub struct LineageConfig {
    pub http_port: u16,
}

impl Default for LineageConfig {
    fn default() -> (c: Self)
        ensures
            c.http_port == 0,
    {
        LineageConfig { http_port: 0 }
    }
}

/// A path that names the home directory or something under it: `~` or `~/...`.
pub open spec fn starts_at_home(path: Seq<char>) -> bool {
    path =~= seq!['~'] || (path.len() >= 2 && path[0] == '~' && path[1] == '/')
}

/// A path with its leading `~` replaced by the home directory, where it starts
/// at home and the home directory is known; otherwise the path unchanged.
pub open spec fn expanded_path(path: Seq<char>, home: Option<Seq<char>>) -> Seq<char> {
    if starts_at_home(path) && home is Some {
        home->0 + path.skip(1)
    } else {
        path
    }
}

/// Expands a leading `~` or `~/` in a path to the home directory `home`.
pub fn expand_tilde(path: &str, home: Option<&str>) -> (r: String)
    ensures
        r@ == expanded_path(path@, match home {
            Some(h) => Some(h@),
            None => None,
        }),
{
    let len = path.unicode_len();
    let at_home = (len == 1 && path.get_char(0) == '~') || (len >= 2 && path.get_char(0) == '~'
        && path.get_char(1) == '/');
    match home {
        Some(h) if at_home => {
            let mut r = String::from_str(h);
            r.append(path.substring_char(1, len));
            r
        },
        _ => String::from_str(path),
    }
}

} // verus!

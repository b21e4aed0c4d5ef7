use crate::maps::StringMap;
use vstd::prelude::*;

verus! {

/// What the program is told at its start.
#[derive(Debug)]
pub struct AppConfig {
    pub graph: GraphConfig,
    pub ui: UiConfig,
    pub keybindings: KeybindingsConfig,
}

/// The graph to work on, and the token that opens it.
#[derive(Debug)]
pub struct GraphConfig {
    pub name: String,
    pub api_token: String,
}

/// How the outline is shown.
#[derive(Debug)]
pub struct UiConfig {
    pub theme: String,
    pub sidebar_default: bool,
    pub sidebar_width_percent: u8,
}

/// The preset of keys, and the keys that are bound otherwise.
#[derive(Debug)]
pub struct KeybindingsConfig {
    pub preset: String,
    pub bindings: StringMap<String>,
}

/// Why a configuration cannot be used.
#[derive(Debug, PartialEq)]
pub struct ConfigError {
    pub message: String,
}

pub fn default_theme() -> (r: String)
    ensures
        r@ == "dark"@,
{
    "dark".to_owned()
}

pub fn default_sidebar() -> (r: bool)
    ensures
        r,
{
    true
}

pub fn default_sidebar_width() -> (r: u8)
    ensures
        r == 35,
{
    35
}

pub fn default_preset() -> (r: String)
    ensures
        r@ == "vim"@,
{
    "vim".to_owned()
}

impl Default for UiConfig {
    fn default() -> (r: Self)
        ensures
            r.theme@ == "dark"@,
            r.sidebar_default,
            r.sidebar_width_percent == 35,
    {
        UiConfig {
            theme: default_theme(),
            sidebar_default: default_sidebar(),
            sidebar_width_percent: default_sidebar_width(),
        }
    }
}

impl Default for KeybindingsConfig {
    fn default() -> (r: Self)
        ensures
            r.preset@ == "vim"@,
            r.bindings@.len() == 0,
    {
        KeybindingsConfig { preset: default_preset(), bindings: StringMap::new() }
    }
}

/// What is wrong with a configuration for the graph `name` with the token
/// `token`: the first of the two that is missing.
pub open spec fn config_fault(name: Seq<char>, token: Seq<char>) -> Option<Seq<char>> {
    if name.len() == 0 {
        Some("graph.name is required"@)
    } else if token.len() == 0 {
        Some("graph.api_token is required (set in config or ROAM_API_TOKEN env var)"@)
    } else {
        None
    }
}

impl AppConfig {
    /// The configuration that holds where nothing is told: no graph and no
    /// token yet.
    pub fn defaults() -> (r: Self)
        ensures
            r.graph.name@.len() == 0,
            r.graph.api_token@.len() == 0,
            r.ui.theme@ == "dark"@,
            r.ui.sidebar_default,
            r.ui.sidebar_width_percent == 35,
            r.keybindings.preset@ == "vim"@,
            r.keybindings.bindings@.len() == 0,
    {
        AppConfig {
            graph: GraphConfig { name: String::new(), api_token: String::new() },
            ui: UiConfig::default(),
            keybindings: KeybindingsConfig::default(),
        }
    }

    /// Whether the configuration names a graph and a token.
    pub fn validate(&self) -> (r: Result<(), ConfigError>)
        ensures
            match r {
                Ok(_) => config_fault(self.graph.name@, self.graph.api_token@) is None,
                Err(e) => config_fault(self.graph.name@, self.graph.api_token@) == Some(
                    e.message@,
                ),
            },
    {
        if self.graph.name.as_str().is_empty() {
            return Err(ConfigError { message: "graph.name is required".to_owned() });
        }
        if self.graph.api_token.as_str().is_empty() {
            return Err(
                ConfigError {
                    message: "graph.api_token is required (set in config or ROAM_API_TOKEN env var)".to_owned(),
                },
            );
        }
        Ok(())
    }
}

} // verus!

//! Configuration module for tv.
//!
//! The settings, their defaults and where they are kept (~/.config/tv/config.toml, XDG spec).
use vstd::prelude::*;
use vstd::utf8::encode_utf8;
use crate::strings::bytes_of;

verus! {

#[derive(Debug, Clone, Copy, PartialEq, Eq, Structural)]
pub enum DefaultVisibility {
    Hidden,
    Visible,
}

impl Default for DefaultVisibility {
    fn default() -> (r: Self)
        ensures
            r == DefaultVisibility::Visible,
    {
        DefaultVisibility::Visible
    }
}

#[derive(Debug, Clone, Copy, PartialEq, Eq, Structural)]
pub enum DefaultPermission {
    Prompt,
    Allow,
    Deny,
}

impl Default for DefaultPermission {
    fn default() -> (r: Self)
        ensures
            r == DefaultPermission::Prompt,
    {
        DefaultPermission::Prompt
    }
}

#[derive(Debug, Clone, Copy, PartialEq, Eq, Structural)]
pub enum LogLevel {
    Error,
    Warn,
    Info,
    Debug,
    Trace,
}

impl Default for LogLevel {
    fn default() -> (r: Self)
        ensures
            r == LogLevel::Info,
    {
        LogLevel::Info
    }
}

#[derive(Debug, Clone, Copy, PartialEq, Eq, Structural)]
pub enum OutputFormat {
    Pretty,
    Json,
}

impl Default for OutputFormat {
    fn default() -> (r: Self)
        ensures
            r == OutputFormat::Pretty,
    {
        OutputFormat::Pretty
    }
}

#[derive(Debug, Clone, Copy, PartialEq, Eq, Structural)]
pub struct Config {
    pub default_visibility: DefaultVisibility,
    pub default_permission: DefaultPermission,
    pub output_format: OutputFormat,
    pub history_size: usize,
    pub send_delay_ms: u64,
    pub idle_threshold_ms: u64,
    pub log_level: LogLevel,
}

impl Default for Config {
    fn default() -> (r: Self)
        ensures
            r == (Config {
                default_visibility: DefaultVisibility::Visible,
                default_permission: DefaultPermission::Prompt,
                output_format: OutputFormat::Pretty,
                history_size: 10000,
                send_delay_ms: 50,
                idle_threshold_ms: 1000,
                log_level: LogLevel::Info,
            }),
    {
        Config {
            default_visibility: DefaultVisibility::default(),
            default_permission: DefaultPermission::default(),
            output_format: OutputFormat::default(),
            history_size: 10000,
            send_delay_ms: 50,
            idle_threshold_ms: 1000,
            log_level: LogLevel::default(),
        }
    }
}

/// The file that is written where there is none yet. It sets every setting to its default.
pub const DEFAULT_CONFIG: &'static str = "# tv configuration

# Default visibility for new sessions: \"hidden\" or \"visible\"
default_visibility = \"visible\"

# Default permission for requests: \"prompt\", \"allow\", or \"deny\"
default_permission = \"prompt\"

# Default output format: \"pretty\" or \"json\"
output_format = \"pretty\"

# Number of scrollback lines to keep
history_size = 10000

# Delay in ms between key groups for tv exec (0 to disable)
send_delay_ms = 50

# Idle threshold in ms for {wait} — output is \"settled\" after this much silence
idle_threshold_ms = 1000

# Log level for daemon: \"error\", \"warn\", \"info\", \"debug\", or \"trace\"
log_level = \"info\"
";

/// A path below a directory: a slash stands between the two, unless the directory is empty or
/// ends in one.
pub open spec fn below(dir: Seq<u8>, name: Seq<u8>) -> Seq<u8> {
    if dir.len() == 0 || dir.last() == 0x2f {
        dir + name
    } else {
        dir.push(0x2f) + name
    }
}

/// The configuration directory: in `$XDG_CONFIG_HOME` if that is set, else in `~/.config`.
pub open spec fn config_dir(xdg: Option<Seq<u8>>, home: Option<Seq<u8>>) -> Option<Seq<u8>> {
    match xdg {
        Some(dir) => Some(below(dir, encode_utf8("tv"@))),
        None => match home {
            Some(dir) => Some(
                below(below(dir, encode_utf8(".config"@)), encode_utf8("tv"@)),
            ),
            None => None,
        },
    }
}

pub open spec fn config_path(xdg: Option<Seq<u8>>, home: Option<Seq<u8>>) -> Option<Seq<u8>> {
    match config_dir(xdg, home) {
        Some(dir) => Some(below(dir, encode_utf8("config.toml"@))),
        None => None,
    }
}

/// The contents of optional bytes.
pub open spec fn bytes_opt(b: Option<Vec<u8>>) -> Option<Seq<u8>> {
    match b {
        Some(v) => Some(v@),
        None => None,
    }
}

fn join(dir: Vec<u8>, name: &str) -> (path: Vec<u8>)
    ensures
        path@ == below(dir@, encode_utf8(name@)),
{
    let mut path = dir;
    if path.len() > 0 && path[path.len() - 1] != 0x2f {
        path.push(0x2f);
    }
    let name_bytes = bytes_of(name);
    path.extend_from_slice(name_bytes.as_slice());
    proof {
        assert(path@ =~= below(dir@, encode_utf8(name@)));
    }
    path
}

impl Config {
    /// Config directory path (~/.config/tv/), from `$XDG_CONFIG_HOME` and the home directory,
    /// where these are known.
    pub fn dir(xdg: Option<Vec<u8>>, home: Option<Vec<u8>>) -> (r: Option<Vec<u8>>)
        ensures
            bytes_opt(r) == config_dir(bytes_opt(xdg), bytes_opt(home)),
    {
        match xdg {
            Some(dir) => Some(join(dir, "tv")),
            None => match home {
                Some(dir) => Some(join(join(dir, ".config"), "tv")),
                None => None,
            },
        }
    }

    /// Config file path.
    pub fn path(xdg: Option<Vec<u8>>, home: Option<Vec<u8>>) -> (r: Option<Vec<u8>>)
        ensures
            bytes_opt(r) == config_path(bytes_opt(xdg), bytes_opt(home)),
    {
        match Config::dir(xdg, home) {
            Some(dir) => Some(join(dir, "config.toml")),
            None => None,
        }
    }
}

} // verus!

//! The client's settings and their defaults.
//!
//! Paths are held as text; reading the file, the user's name and the
//! configuration directory from the system is left to the caller.
use vstd::prelude::*;

use crate::text::{chars_of, owned, string_of};

verus! {

/// Everything the client can be configured with.
#[derive(Debug, Clone)]
pub struct Config {
    pub nick: String,
    pub alt_nicks: Vec<String>,
    pub username: String,
    pub realname: String,
    pub servers: Vec<ServerConfig>,
    pub auto_join: Vec<String>,
    pub tls: TlsConfig,
    pub ui: UiConfig,
    pub flood: FloodConfig,
    pub dcc: DccConfig,
    pub logging: LogConfig,
}

/// A server to connect to.
#[derive(Debug, Clone)]
pub struct ServerConfig {
    pub host: String,
    pub port: u16,
    pub tls: bool,
    pub password: Option<String>,
    pub sasl_user: Option<String>,
    pub sasl_pass: Option<String>,
}

/// How TLS connections are checked.
#[derive(Debug, Clone)]
pub struct TlsConfig {
    pub verify_certs: bool,
    pub client_cert: Option<String>,
    pub client_key: Option<String>,
    pub ca_file: Option<String>,
}

/// What the terminal interface shows.
#[derive(Debug, Clone)]
pub struct UiConfig {
    pub show_nick_list: bool,
    pub show_status_bar: bool,
    pub timestamps: bool,
    pub scrollback_lines: usize,
    pub nick_list_width: u16,
    pub colors: bool,
}

/// Flood protection limits.
#[derive(Debug, Clone)]
pub struct FloodConfig {
    pub max_messages: u32,
    pub interval_secs: u64,
    pub ctcp_protection: bool,
    pub join_protection: bool,
}

/// DCC transfer settings.
#[derive(Debug, Clone)]
pub struct DccConfig {
    pub download_dir: Option<String>,
    pub auto_accept: bool,
    pub block_size: usize,
    pub timeout_secs: u64,
    pub port_range: Option<(u16, u16)>,
}

/// Logging settings.
#[derive(Debug, Clone)]
pub struct LogConfig {
    pub enabled: bool,
    pub directory: Option<String>,
    pub per_channel: bool,
}

/// The nickname used when none is configured: the login name, or
/// `BitchX` when it is unknown.
pub fn default_nick(login: Option<String>) -> (r: String)
    ensures
        r@ == match login {
            Some(l) => l@,
            None => "BitchX"@,
        },
{
    match login {
        Some(l) => l,
        None => owned("BitchX"),
    }
}

/// The user name sent at registration when none is configured: the login
/// name, or `bitchx` when it is unknown.
pub fn default_username(login: Option<String>) -> (r: String)
    ensures
        r@ == match login {
            Some(l) => l@,
            None => "bitchx"@,
        },
{
    match login {
        Some(l) => l,
        None => owned("bitchx"),
    }
}

/// The real name sent at registration when none is configured.
pub fn default_realname() -> (r: String)
    ensures
        r@ == "BitchX 2.0 - Rust Rewrite"@,
{
    owned("BitchX 2.0 - Rust Rewrite")
}

/// The port of a configured server that gives none.
pub fn default_port() -> (r: u16)
    ensures
        r == 6697,
{
    6697
}

/// The value of the switches that are on unless turned off.
pub fn default_true() -> (r: bool)
    ensures
        r,
{
    true
}

/// How many lines a window keeps by default.
pub fn default_scrollback() -> (r: usize)
    ensures
        r == 1000,
{
    1000
}

/// The default width of the nick list.
pub fn default_nick_width() -> (r: u16)
    ensures
        r == 16,
{
    16
}

/// The default number of events within the window that counts as a flood.
pub fn default_flood_max() -> (r: u32)
    ensures
        r == 5,
{
    5
}

/// The default flood window, in seconds.
pub fn default_flood_interval() -> (r: u64)
    ensures
        r == 10,
{
    10
}

/// The default DCC block size, in bytes.
pub fn default_block_size() -> (r: usize)
    ensures
        r == 8192,
{
    8192
}

/// The default DCC timeout, in seconds.
pub fn default_dcc_timeout() -> (r: u64)
    ensures
        r == 120,
{
    120
}

impl Default for TlsConfig {
    fn default() -> (r: TlsConfig)
        ensures
            r.verify_certs,
            r.client_cert is None && r.client_key is None && r.ca_file is None,
    {
        TlsConfig { verify_certs: true, client_cert: None, client_key: None, ca_file: None }
    }
}

impl Default for UiConfig {
    fn default() -> (r: UiConfig)
        ensures
            r.show_nick_list && r.show_status_bar && r.timestamps && r.colors,
            r.scrollback_lines == 1000,
            r.nick_list_width == 16,
    {
        UiConfig {
            show_nick_list: true,
            show_status_bar: true,
            timestamps: true,
            scrollback_lines: default_scrollback(),
            nick_list_width: default_nick_width(),
            colors: true,
        }
    }
}

impl Default for FloodConfig {
    fn default() -> (r: FloodConfig)
        ensures
            r.max_messages == 5,
            r.interval_secs == 10,
            r.ctcp_protection && r.join_protection,
    {
        FloodConfig {
            max_messages: default_flood_max(),
            interval_secs: default_flood_interval(),
            ctcp_protection: true,
            join_protection: true,
        }
    }
}

impl Default for DccConfig {
    fn default() -> (r: DccConfig)
        ensures
            r.download_dir is None,
            r.auto_accept,
            r.block_size == 8192,
            r.timeout_secs == 120,
            r.port_range is None,
    {
        DccConfig {
            download_dir: None,
            auto_accept: true,
            block_size: default_block_size(),
            timeout_secs: default_dcc_timeout(),
            port_range: None,
        }
    }
}

impl Default for LogConfig {
    fn default() -> (r: LogConfig)
        ensures
            !r.enabled,
            r.directory is None,
            r.per_channel,
    {
        LogConfig { enabled: false, directory: None, per_channel: true }
    }
}

/// `base` joined with the relative path `part`, as `Path::join` does: a
/// `/` between them unless `base` is empty or already ends in one.
pub open spec fn spec_path_join(base: Seq<char>, part: Seq<char>) -> Seq<char> {
    if base.len() == 0 || base.last() == '/' {
        base + part
    } else {
        base + seq!['/'] + part
    }
}

/// `base` joined with the relative path `part`.
pub fn path_join(base: &str, part: &str) -> (r: String)
    ensures
        r@ == spec_path_join(base@, part@),
{
    let b = chars_of(base);
    let mut out = b.clone();
    assert(out@ == b@);
    if b.len() > 0 && b[b.len() - 1] != '/' {
        out.push('/');
    }
    let p = chars_of(part);
    let mut i: usize = 0;
    let ghost start = out@;
    while i < p.len()
        invariant
            i <= p@.len(),
            out@ == start + p@.take(i as int),
        decreases p@.len() - i,
    {
        out.push(p[i]);
        i += 1;
        assert(out@ =~= start + p@.take(i as int));
    }
    assert(p@.take(p@.len() as int) =~= p@);
    string_of(&out)
}

/// The directory `d` names, or `.` when there is none.
pub open spec fn dir_or_dot(d: Option<String>) -> Seq<char> {
    match d {
        Some(t) => t@,
        None => "."@,
    }
}

/// The user's configuration directory, when there is one:
/// `dirs::config_dir()`, as text. Nothing is said of it: it comes from the
/// user's environment.
#[verifier::external_body]
fn user_config_dir() -> Option<String> {
    dirs::config_dir().map(|d| d.display().to_string())
}

impl Config {
    /// The settings used when nothing is configured, for a user whose login
    /// name is `login` (if known): no servers or channels, and every section
    /// at its defaults.
    pub fn for_user(login: Option<String>) -> (r: Config)
        ensures
            r.nick@ == match login {
                Some(l) => l@,
                None => "BitchX"@,
            },
            r.username@ == match login {
                Some(l) => l@,
                None => "bitchx"@,
            },
            r.realname@ == "BitchX 2.0 - Rust Rewrite"@,
            r.alt_nicks@.len() == 0,
            r.servers@.len() == 0,
            r.auto_join@.len() == 0,
            r.tls.verify_certs,
            r.ui.scrollback_lines == 1000,
            r.ui.nick_list_width == 16,
            r.ui.show_nick_list && r.ui.show_status_bar && r.ui.timestamps && r.ui.colors,
            r.flood.max_messages == 5 && r.flood.interval_secs == 10,
            r.dcc.block_size == 8192 && r.dcc.timeout_secs == 120 && r.dcc.auto_accept,
            !r.logging.enabled && r.logging.per_channel,
    {
        let (nick, username) = match login {
            Some(l) => (l.clone(), l),
            None => (default_nick(None), default_username(None)),
        };
        Config {
            nick,
            alt_nicks: Vec::new(),
            username,
            realname: default_realname(),
            servers: Vec::new(),
            auto_join: Vec::new(),
            tls: TlsConfig::default(),
            ui: UiConfig::default(),
            flood: FloodConfig::default(),
            dcc: DccConfig::default(),
            logging: LogConfig::default(),
        }
    }

    /// The client's own directory inside the configuration directory
    /// `config_dir` (or `.` when there is none): `bitchx` in it.
    pub fn config_dir_in(config_dir: Option<String>) -> (r: String)
        ensures
            r@ == spec_path_join(dir_or_dot(config_dir), "bitchx"@),
    {
        let base = match config_dir {
            Some(d) => d,
            None => owned("."),
        };
        path_join(base.as_str(), "bitchx")
    }

    /// Where the configuration directory `config_dir` (or `.` when there is
    /// none) keeps the client's settings: `bitchx/bitchx.toml` inside it.
    pub fn config_path_in(config_dir: Option<String>) -> (r: String)
        ensures
            r@ == spec_path_join(spec_path_join(dir_or_dot(config_dir), "bitchx"@), "bitchx.toml"@),
    {
        let dir = Self::config_dir_in(config_dir);
        path_join(dir.as_str(), "bitchx.toml")
    }

    /// The client's own directory inside the user's configuration
    /// directory.
    pub fn config_dir() -> (r: String)
        ensures
            exists|d: Option<String>| r@ == spec_path_join(#[trigger] dir_or_dot(d), "bitchx"@),
    {
        let d = user_config_dir();
        Self::config_dir_in(d)
    }

    /// Where the client's settings are looked for by default:
    /// `bitchx/bitchx.toml` inside the user's configuration directory.
    pub fn default_config_path() -> (r: String)
        ensures
            exists|d: Option<String>| r@ == spec_path_join(
                spec_path_join(#[trigger] dir_or_dot(d), "bitchx"@),
                "bitchx.toml"@,
            ),
    {
        let d = user_config_dir();
        Self::config_path_in(d)
    }
}

} // verus!

//! What the command line changes: the server address given on it, the
//! settings it overrides, and whether the start-up banner is shown.
use vstd::prelude::*;

use crate::config::{Config, ServerConfig};
use crate::text::{clone_text, texts};
use crate::text::{chars_of, find_char, find_in, lemma_find_char_cases, owned, parse_unsigned,
    push_str_chars, spec_parse_unsigned, string_of, string_of_range};

verus! {

/// The options the command line was given.
#[derive(Debug, Clone)]
pub struct CliOptions {
    pub nick: Option<String>,
    pub server: Option<String>,
    pub channel: Option<Vec<String>>,
    pub config: Option<String>,
    pub no_tls: bool,
    pub port: Option<u16>,
    pub accept_any_cert: bool,
    pub dumb: bool,
    pub no_ansi: bool,
    pub password: Option<String>,
    pub debug: bool,
}

/// The usual port: 6697 with TLS, 6667 without.
pub fn default_port(use_tls: bool) -> (r: u16)
    ensures
        r == (if use_tls {
            6697u16
        } else {
            6667u16
        }),
{
    if use_tls {
        6697
    } else {
        6667
    }
}

/// How many times `c` occurs in `s`.
pub open spec fn count_char(s: Seq<char>, c: char) -> nat
    decreases s.len(),
{
    if s.len() == 0 {
        0
    } else {
        count_char(s.drop_last(), c) + if s.last() == c {
            1nat
        } else {
            0nat
        }
    }
}

/// Reading the port written in the server address `server`.
pub open spec fn spec_embedded_port(port: Seq<char>, server: Seq<char>) -> Result<u16, Seq<char>> {
    if port.len() == 0 {
        Err("missing port in server address: "@ + server)
    } else {
        match spec_parse_unsigned(port, 65535) {
            Some(p) => Ok(p as u16),
            None => Err("invalid port in server address: "@ + server),
        }
    }
}

pub open spec fn or_port(cli_port: Option<u16>, p: u16) -> u16 {
    match cli_port {
        Some(c) => c,
        None => p,
    }
}

pub open spec fn spec_default_port(use_tls: bool) -> u16 {
    if use_tls {
        6697
    } else {
        6667
    }
}

/// What [`parse_server`] gives: `[host]` or `[host]:port` for an IPv6
/// address; `host:port` when the address holds exactly one `:`; otherwise
/// the whole text is the host. The port given on the command line wins
/// over the one in the address, and the usual port fills in when neither
/// gives one.
pub open spec fn spec_parse_server(s: Seq<char>, cli_port: Option<u16>, use_tls: bool) -> Result<
    (Seq<char>, u16),
    Seq<char>,
> {
    if s.len() > 0 && s[0] == '[' {
        let st = s.drop_first();
        match find_char(st, ']') {
            None => Err("invalid bracketed server address: "@ + s),
            Some(i) => {
                let host = st.subrange(0, i);
                let rem = st.subrange(i + 1, st.len() as int);
                if rem.len() == 0 {
                    Ok((host, or_port(cli_port, spec_default_port(use_tls))))
                } else if rem[0] != ':' {
                    Err("invalid bracketed server address: "@ + s)
                } else {
                    match spec_embedded_port(rem.drop_first(), s) {
                        Ok(p) => Ok((host, or_port(cli_port, p))),
                        Err(e) => Err(e),
                    }
                }
            },
        }
    } else if count_char(s, ':') == 1 {
        let j = find_char(s, ':')->0;
        match spec_embedded_port(s.subrange(j + 1, s.len() as int), s) {
            Ok(p) => Ok((s.subrange(0, j), or_port(cli_port, p))),
            Err(e) => Err(e),
        }
    } else {
        Ok((s, or_port(cli_port, spec_default_port(use_tls))))
    }
}

/// Reads the port written in the server address `server`.
pub fn parse_embedded_port(port_str: &str, server_str: &str) -> (r: Result<u16, String>)
    ensures
        match spec_embedded_port(port_str@, server_str@) {
            Ok(p) => r == Ok::<u16, String>(p),
            Err(e) => r matches Err(m) && m@ == e,
        },
{
    let v = chars_of(port_str);
    if v.len() == 0 {
        let mut out: Vec<char> = Vec::new();
        push_str_chars(&mut out, "missing port in server address: ");
        push_str_chars(&mut out, server_str);
        return Err(string_of(&out));
    }
    assert(v@.subrange(0, v@.len() as int) =~= v@);
    match parse_unsigned(&v, 0, v.len(), 65535) {
        Some(p) => Ok(p as u16),
        None => {
            let mut out: Vec<char> = Vec::new();
            push_str_chars(&mut out, "invalid port in server address: ");
            push_str_chars(&mut out, server_str);
            Err(string_of(&out))
        },
    }
}

/// The text `prefix` followed by `s`.
fn message(prefix: &str, s: &str) -> (r: String)
    ensures
        r@ == prefix@ + s@,
{
    let mut out: Vec<char> = Vec::new();
    push_str_chars(&mut out, prefix);
    push_str_chars(&mut out, s);
    string_of(&out)
}

/// Reads a server address given on the command line as a host and a port.
pub fn parse_server(server_str: &str, cli_port: Option<u16>, use_tls: bool) -> (r: Result<
    (String, u16),
    String,
>)
    ensures
        match spec_parse_server(server_str@, cli_port, use_tls) {
            Ok((h, p)) => r matches Ok((host, port)) && host@ == h && port == p,
            Err(e) => r matches Err(m) && m@ == e,
        },
{
    let v = chars_of(server_str);
    let n = v.len();
    if n > 0 && v[0] == '[' {
        let st = crate::text::string_of_range(&v, 1, n);
        let sv = chars_of(st.as_str());
        assert(sv@ =~= server_str@.drop_first());
        assert(sv@.subrange(0, sv@.len() as int) =~= sv@);
        match find_in(&sv, 0, sv.len(), ']') {
            None => Err(message("invalid bracketed server address: ", server_str)),
            Some(i) => {
                let host = string_of_range(&sv, 0, i);
                if i + 1 == sv.len() {
                    let p = match cli_port {
                        Some(c) => c,
                        None => default_port(use_tls),
                    };
                    Ok((host, p))
                } else if sv[i + 1] != ':' {
                    Err(message("invalid bracketed server address: ", server_str))
                } else {
                    let port_str = string_of_range(&sv, i + 2, sv.len());
                    assert(port_str@ =~= sv@.subrange(i + 1, sv@.len() as int).drop_first());
                    match parse_embedded_port(port_str.as_str(), server_str) {
                        Ok(p) => {
                            let p2 = match cli_port {
                                Some(c) => c,
                                None => p,
                            };
                            Ok((host, p2))
                        },
                        Err(e) => Err(e),
                    }
                }
            },
        }
    } else {
        let mut count: usize = 0;
        let mut k: usize = 0;
        while k < n
            invariant
                k <= n == v@.len(),
                count == count_char(v@.take(k as int), ':'),
                count <= k,
            decreases n - k,
        {
            assert(v@.take(k + 1).drop_last() =~= v@.take(k as int));
            if v[k] == ':' {
                count += 1;
            }
            k += 1;
        }
        assert(v@.take(n as int) =~= v@);
        if count == 1 {
            let j = match find_in(&v, 0, n, ':') {
                Some(j) => j,
                None => {
                    proof {
                        assert(v@.subrange(0, n as int) =~= v@);
                        lemma_count_zero(v@, ':');
                    }
                    return Err(message("invalid server address: ", server_str));
                },
            };
            assert(v@.subrange(0, n as int) =~= v@);
            let host = string_of_range(&v, 0, j);
            let port_str = string_of_range(&v, j + 1, n);
            match parse_embedded_port(port_str.as_str(), server_str) {
                Ok(p) => {
                    let p2 = match cli_port {
                        Some(c) => c,
                        None => p,
                    };
                    Ok((host, p2))
                },
                Err(e) => Err(e),
            }
        } else {
            let p = match cli_port {
                Some(c) => c,
                None => default_port(use_tls),
            };
            Ok((owned(server_str), p))
        }
    }
}

proof fn lemma_count_zero(s: Seq<char>, c: char)
    requires
        find_char(s, c) is None,
    ensures
        count_char(s, c) == 0,
    decreases s.len(),
{
    lemma_find_char_cases(s, c);
    if s.len() > 0 {
        assert(!crate::text::has_char(s, c));
        assert(s.last() != c) by {
            if s.last() == c {
                assert(s[s.len() - 1] == c);
            }
        }
        let t = s.drop_last();
        assert(!crate::text::has_char(t, c)) by {
            if crate::text::has_char(t, c) {
                let w = choose|w: int| 0 <= w < t.len() && t[w] == c;
                assert(s[w] == c);
            }
        }
        lemma_find_char_cases(t, c);
        lemma_count_zero(t, c);
    }
}

/// Whether the start-up banner is shown: not in dumb mode, and not when
/// ANSI art is turned off.
pub fn should_show_startup_banner(cli: &CliOptions) -> (r: bool)
    ensures
        r == (!cli.no_ansi && !cli.dumb),
{
    !cli.no_ansi && !cli.dumb
}

/// What the command line changes whatever else it does: the nickname, the
/// channels to join, and certificate checking; the rest of the settings
/// stay as they were.
pub open spec fn common_overrides(old: Config, cli: CliOptions, new: Config) -> bool {
    &&& new.nick@ == match cli.nick {
        Some(n) => n@,
        None => old.nick@,
    }
    &&& texts(new.auto_join@) == match cli.channel {
        Some(c) => texts(c@),
        None => texts(old.auto_join@),
    }
    &&& new.tls.verify_certs == (old.tls.verify_certs && !cli.accept_any_cert)
    &&& new.tls.client_cert == old.tls.client_cert
    &&& new.tls.client_key == old.tls.client_key
    &&& new.tls.ca_file == old.tls.ca_file
    &&& new.alt_nicks == old.alt_nicks
    &&& new.username == old.username
    &&& new.realname == old.realname
    &&& new.ui == old.ui
    &&& new.flood == old.flood
    &&& new.dcc == old.dcc
    &&& new.logging == old.logging
}

/// The configured server `old` after the command line's `--no-tls` and
/// `--port`.
pub open spec fn server_overridden(old: ServerConfig, cli: CliOptions, new: ServerConfig) -> bool {
    &&& new.host == old.host
    &&& new.port == or_port(cli.port, old.port)
    &&& new.tls == (old.tls && !cli.no_tls)
    &&& new.password == old.password
    &&& new.sasl_user == old.sasl_user
    &&& new.sasl_pass == old.sasl_pass
}

/// Applies the command line to the configuration. A server given on the
/// command line replaces the configured ones (and fails when its address
/// cannot be read); otherwise `--no-tls` and `--port` apply to every
/// configured server.
pub fn apply_cli_overrides(config: Config, cli: &CliOptions) -> (r: Result<Config, String>)
    ensures
        match cli.server {
            Some(s) => match spec_parse_server(s@, cli.port, !cli.no_tls) {
                Err(e) => r matches Err(m) && m@ == e,
                Ok((h, p)) => r matches Ok(c) && {
                    &&& common_overrides(config, *cli, c)
                    &&& c.servers@.len() == 1
                    &&& c.servers@[0].host@ == h
                    &&& c.servers@[0].port == p
                    &&& c.servers@[0].tls == !cli.no_tls
                    &&& c.servers@[0].password == cli.password
                    &&& c.servers@[0].sasl_user is None
                    &&& c.servers@[0].sasl_pass is None
                },
            },
            None => r matches Ok(c) && {
                &&& common_overrides(config, *cli, c)
                &&& c.servers@.len() == config.servers@.len()
                &&& forall|i: int|
                    0 <= i < c.servers@.len() ==> server_overridden(
                        config.servers@[i],
                        *cli,
                        #[trigger] c.servers@[i],
                    )
            },
        },
{
    let ghost old_config = config;
    let mut config = config;
    match &cli.nick {
        Some(nick) => {
            config.nick = nick.clone();
        },
        None => {},
    }
    match &cli.channel {
        Some(channels) => {
            config.auto_join = channels.clone();
            proof {
                assert(texts(config.auto_join@) =~= texts(channels@));
            }
        },
        None => {},
    }
    if cli.accept_any_cert {
        config.tls.verify_certs = false;
    }
    match &cli.server {
        Some(server_str) => {
            let use_tls = !cli.no_tls;
            match parse_server(server_str.as_str(), cli.port, use_tls) {
                Err(e) => Err(e),
                Ok((host, port)) => {
                    let server_config = ServerConfig {
                        host,
                        port,
                        tls: use_tls,
                        password: clone_text(&cli.password),
                        sasl_user: None,
                        sasl_pass: None,
                    };
                    let mut servers: Vec<ServerConfig> = Vec::new();
                    servers.push(server_config);
                    config.servers = servers;
                    Ok(config)
                },
            }
        },
        None => {
            let n = config.servers.len();
            let mut servers: Vec<ServerConfig> = Vec::new();
            let mut i: usize = 0;
            while i < n
                invariant
                    n == config.servers@.len() == old_config.servers@.len(),
                    config.servers == old_config.servers,
                    i <= n,
                    servers@.len() == i,
                    forall|j: int|
                        0 <= j < i ==> server_overridden(
                            old_config.servers@[j],
                            *cli,
                            #[trigger] servers@[j],
                        ),
                decreases n - i,
            {
                let s = &config.servers[i];
                let t = ServerConfig {
                    host: s.host.clone(),
                    port: match cli.port {
                        Some(p) => p,
                        None => s.port,
                    },
                    tls: s.tls && !cli.no_tls,
                    password: clone_text(&s.password),
                    sasl_user: clone_text(&s.sasl_user),
                    sasl_pass: clone_text(&s.sasl_pass),
                };
                servers.push(t);
                i += 1;
            }
            config.servers = servers;
            Ok(config)
        },
    }
}

} // verus!

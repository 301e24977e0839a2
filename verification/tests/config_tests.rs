use bitchy::config::{
    default_block_size, default_dcc_timeout, default_flood_interval, default_flood_max,
    default_nick, default_nick_width, default_port, default_realname, default_scrollback,
    default_true, default_username, path_join, Config, DccConfig, FloodConfig, LogConfig,
    TlsConfig, UiConfig,
};

#[test]
fn defaults_for_a_known_user() {
    let c = Config::for_user(Some("alice".to_string()));
    assert_eq!(c.nick, "alice");
    assert_eq!(c.username, "alice");
    assert_eq!(c.realname, "BitchX 2.0 - Rust Rewrite");
    assert!(c.servers.is_empty());
    assert!(c.auto_join.is_empty());
    assert!(c.alt_nicks.is_empty());
    assert!(c.tls.verify_certs);
    assert_eq!(c.ui.scrollback_lines, 1000);
}

#[test]
fn defaults_without_a_login() {
    let c = Config::for_user(None);
    assert_eq!(c.nick, "BitchX");
    assert_eq!(c.username, "bitchx");
    assert_eq!(default_nick(None), "BitchX");
    assert_eq!(default_username(None), "bitchx");
    assert_eq!(default_nick(Some("bob".to_string())), "bob");
}

#[test]
fn default_values() {
    assert_eq!(default_port(), 6697);
    assert!(default_true());
    assert_eq!(default_scrollback(), 1000);
    assert_eq!(default_nick_width(), 16);
    assert_eq!(default_flood_max(), 5);
    assert_eq!(default_flood_interval(), 10);
    assert_eq!(default_block_size(), 8192);
    assert_eq!(default_dcc_timeout(), 120);
    assert_eq!(default_realname(), "BitchX 2.0 - Rust Rewrite");
}

#[test]
fn section_defaults() {
    let ui = UiConfig::default();
    assert!(ui.show_nick_list && ui.show_status_bar && ui.timestamps && ui.colors);
    assert_eq!(ui.nick_list_width, 16);
    let flood = FloodConfig::default();
    assert_eq!((flood.max_messages, flood.interval_secs), (5, 10));
    let dcc = DccConfig::default();
    assert!(dcc.auto_accept);
    assert_eq!(dcc.block_size, 8192);
    assert_eq!(dcc.timeout_secs, 120);
    let log = LogConfig::default();
    assert!(!log.enabled && log.per_channel);
    assert!(TlsConfig::default().verify_certs);
}

#[test]
fn config_path_is_under_bitchx() {
    assert_eq!(
        Config::config_path_in(Some("/home/a/.config".to_string())),
        "/home/a/.config/bitchx/bitchx.toml"
    );
    assert_eq!(Config::config_path_in(None), "./bitchx/bitchx.toml");
    assert_eq!(Config::config_dir_in(Some("/c".to_string())), "/c/bitchx");
    assert!(Config::default_config_path().ends_with("bitchx/bitchx.toml"));
    assert!(Config::config_dir().ends_with("bitchx"));
    assert_eq!(path_join("/a/", "b"), "/a/b");
    assert_eq!(path_join("", "b"), "b");
}

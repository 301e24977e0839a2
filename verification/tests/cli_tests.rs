use bitchy::cli::{apply_cli_overrides, parse_server, should_show_startup_banner, CliOptions};
use bitchy::config::{Config, ServerConfig};

fn no_options() -> CliOptions {
    CliOptions {
        nick: None,
        server: None,
        channel: None,
        config: None,
        no_tls: false,
        port: None,
        accept_any_cert: false,
        dumb: false,
        no_ansi: false,
        password: None,
        debug: false,
    }
}

#[test]
fn parse_server_matrix() {
    struct Case {
        name: &'static str,
        server: &'static str,
        cli_port: Option<u16>,
        use_tls: bool,
        expected: Result<(&'static str, u16), &'static str>,
    }

    let cases = [
        Case {
            name: "host_with_embedded_port",
            server: "irc.libera.chat:6697",
            cli_port: None,
            use_tls: true,
            expected: Ok(("irc.libera.chat", 6697)),
        },
        Case {
            name: "host_without_port_tls_default",
            server: "irc.libera.chat",
            cli_port: None,
            use_tls: true,
            expected: Ok(("irc.libera.chat", 6697)),
        },
        Case {
            name: "host_without_port_plain_default",
            server: "irc.libera.chat",
            cli_port: None,
            use_tls: false,
            expected: Ok(("irc.libera.chat", 6667)),
        },
        Case {
            name: "cli_port_overrides_embedded_port",
            server: "irc.libera.chat:6697",
            cli_port: Some(7000),
            use_tls: true,
            expected: Ok(("irc.libera.chat", 7000)),
        },
        Case {
            name: "host_only_with_cli_port",
            server: "irc.example.com",
            cli_port: Some(7000),
            use_tls: true,
            expected: Ok(("irc.example.com", 7000)),
        },
        Case {
            name: "bare_ipv6_keeps_full_host",
            server: "2001:db8::1",
            cli_port: None,
            use_tls: true,
            expected: Ok(("2001:db8::1", 6697)),
        },
        Case {
            name: "bracketed_ipv6_with_port",
            server: "[2001:db8::1]:7000",
            cli_port: None,
            use_tls: true,
            expected: Ok(("2001:db8::1", 7000)),
        },
        Case {
            name: "bracketed_ipv6_with_cli_port_override",
            server: "[2001:db8::1]:7000",
            cli_port: Some(9000),
            use_tls: true,
            expected: Ok(("2001:db8::1", 9000)),
        },
        Case {
            name: "invalid_embedded_port_is_rejected",
            server: "irc.example.com:notaport",
            cli_port: None,
            use_tls: true,
            expected: Err("invalid port"),
        },
        Case {
            name: "missing_embedded_port_is_rejected",
            server: "irc.example.com:",
            cli_port: None,
            use_tls: true,
            expected: Err("missing port"),
        },
        Case {
            name: "invalid_bracketed_ipv6_is_rejected",
            server: "[2001:db8::1",
            cli_port: None,
            use_tls: true,
            expected: Err("invalid bracketed server address"),
        },
    ];

    for case in cases {
        let result = parse_server(case.server, case.cli_port, case.use_tls);
        match (result, case.expected) {
            (Ok((host, port)), Ok((expected_host, expected_port))) => {
                assert_eq!(host, expected_host, "{}", case.name);
                assert_eq!(port, expected_port, "{}", case.name);
            }
            (Err(err), Err(expected_message)) => {
                assert!(
                    err.to_string().contains(expected_message),
                    "{}: expected error containing {expected_message:?}, got {err}",
                    case.name
                );
            }
            (Ok((host, port)), Err(expected_message)) => {
                panic!(
                    "{}: expected error containing {expected_message:?}, got success {host}:{port}",
                    case.name
                );
            }
            (Err(err), Ok((expected_host, expected_port))) => {
                panic!(
                    "{}: expected success {expected_host}:{expected_port}, got error {err}",
                    case.name
                );
            }
        }
    }
}

#[test]
fn cli_override_matrix_applies_expected_config_changes() {
    struct Case {
        name: &'static str,
        options: CliOptions,
        base_config: Config,
        expected_nick: &'static str,
        expected_channels: Vec<&'static str>,
        expected_verify_certs: bool,
        expected_servers: Vec<(&'static str, u16, bool, Option<&'static str>)>,
    }

    let configured_servers = vec![
        ServerConfig {
            host: "irc.one.example".into(),
            port: 6697,
            tls: true,
            password: None,
            sasl_user: None,
            sasl_pass: None,
        },
        ServerConfig {
            host: "irc.two.example".into(),
            port: 7000,
            tls: true,
            password: None,
            sasl_user: None,
            sasl_pass: None,
        },
    ];

    let cases = [
        Case {
            // bitchx --nick matrixbot --server irc.libera.chat:6697 --port 7000
            //        --password secret --channel #rust --no-verify
            name: "single_server_cli_overrides",
            options: CliOptions {
                nick: Some("matrixbot".into()),
                server: Some("irc.libera.chat:6697".into()),
                port: Some(7000),
                password: Some("secret".into()),
                channel: Some(vec!["#rust".into()]),
                accept_any_cert: true,
                ..no_options()
            },
            base_config: Config::for_user(None),
            expected_nick: "matrixbot",
            expected_channels: vec!["#rust"],
            expected_verify_certs: false,
            expected_servers: vec![("irc.libera.chat", 7000, true, Some("secret"))],
        },
        Case {
            // bitchx --no-tls --port 6667
            name: "config_servers_get_no_tls_and_port_override",
            options: CliOptions {
                no_tls: true,
                port: Some(6667),
                ..no_options()
            },
            base_config: Config {
                nick: "configured-nick".into(),
                servers: configured_servers.clone(),
                ..Config::for_user(None)
            },
            expected_nick: "configured-nick",
            expected_channels: vec![],
            expected_verify_certs: true,
            expected_servers: vec![
                ("irc.one.example", 6667, false, None),
                ("irc.two.example", 6667, false, None),
            ],
        },
        Case {
            // bitchx --server [2001:db8::1]:6697 --no-tls
            name: "bracketed_ipv6_server_cli_path",
            options: CliOptions {
                server: Some("[2001:db8::1]:6697".into()),
                no_tls: true,
                ..no_options()
            },
            base_config: Config {
                nick: "configured-nick".into(),
                ..Config::for_user(None)
            },
            expected_nick: "configured-nick",
            expected_channels: vec![],
            expected_verify_certs: true,
            expected_servers: vec![("2001:db8::1", 6697, false, None)],
        },
    ];

    for case in cases {
        let updated = apply_cli_overrides(case.base_config, &case.options).unwrap();

        assert_eq!(updated.nick, case.expected_nick, "{}", case.name);
        assert_eq!(
            updated.auto_join,
            case.expected_channels
                .into_iter()
                .map(std::string::ToString::to_string)
                .collect::<Vec<_>>(),
            "{}",
            case.name
        );
        assert_eq!(
            updated.tls.verify_certs, case.expected_verify_certs,
            "{}",
            case.name
        );
        assert_eq!(
            updated.servers.len(),
            case.expected_servers.len(),
            "{}",
            case.name
        );

        for (server, (expected_host, expected_port, expected_tls, expected_password)) in
            updated.servers.iter().zip(case.expected_servers.iter())
        {
            assert_eq!(server.host, *expected_host, "{}", case.name);
            assert_eq!(server.port, *expected_port, "{}", case.name);
            assert_eq!(server.tls, *expected_tls, "{}", case.name);
            assert_eq!(
                server.password.as_deref(),
                *expected_password,
                "{}",
                case.name
            );
        }
    }
}

#[test]
fn startup_banner_matrix() {
    let cases = [
        // bitchx
        (no_options(), true),
        // bitchx --dumb
        (
            CliOptions {
                dumb: true,
                ..no_options()
            },
            false,
        ),
        // bitchx --no-ansi
        (
            CliOptions {
                no_ansi: true,
                ..no_options()
            },
            false,
        ),
        // bitchx --dumb --no-ansi
        (
            CliOptions {
                dumb: true,
                no_ansi: true,
                ..no_options()
            },
            false,
        ),
    ];

    for (options, expected) in cases {
        assert_eq!(should_show_startup_banner(&options), expected);
    }
}

#[test]
fn bad_server_address_is_reported() {
    let options = CliOptions {
        server: Some("irc.example.com:notaport".into()),
        ..no_options()
    };
    let err = apply_cli_overrides(Config::for_user(None), &options).unwrap_err();
    assert_eq!(err, "invalid port in server address: irc.example.com:notaport");
}

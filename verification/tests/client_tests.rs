use bitchy::config::{Config, ServerConfig};
use bitchy::irc::client::{
    authenticate_line, connection_closed, connection_failed, read_failed, when_idle, ClientCommand,
    IdleStep, IrcEvent, Session, SessionStep,
};

fn test_config() -> Config {
    let mut c = Config::for_user(None);
    c.nick = "testbot".to_string();
    c.username = "testuser".to_string();
    c.realname = "Test Bot".to_string();
    c
}

fn server(password: Option<&str>, sasl: Option<(&str, &str)>) -> ServerConfig {
    ServerConfig {
        host: "127.0.0.1".to_string(),
        port: 6667,
        tls: false,
        password: password.map(|p| p.to_string()),
        sasl_user: sasl.map(|(u, _)| u.to_string()),
        sasl_pass: sasl.map(|(_, p)| p.to_string()),
    }
}

fn event_messages(step: &SessionStep) -> Vec<String> {
    step.events
        .iter()
        .filter_map(|e| match e {
            IrcEvent::Message(m) => Some(m.command.clone()),
            _ => None,
        })
        .collect()
}

#[test]
fn registration_without_sasl() {
    let (session, lines) = Session::start(&server(None, None), &test_config());
    assert_eq!(
        lines,
        vec![
            "CAP REQ :multi-prefix\r\n",
            "NICK :testbot\r\n",
            "USER testuser 0 * :Test Bot\r\n",
            "CAP END\r\n",
        ]
    );
    assert_eq!(session.current_nick, "testbot");
    assert!(session.cap_ended);
    assert!(!session.has_sasl);
    assert!(!session.auto_joined);
}

#[test]
fn registration_with_password() {
    let (_, lines) = Session::start(&server(Some("secret123"), None), &test_config());
    assert_eq!(lines[0], "PASS :secret123\r\n");
    assert_eq!(lines.len(), 5);
}

#[test]
fn registration_with_sasl_waits_to_end_negotiation() {
    let (session, lines) = Session::start(&server(None, Some(("user", "pass"))), &test_config());
    assert_eq!(
        lines,
        vec!["CAP REQ :multi-prefix sasl\r\n", "NICK :testbot\r\n", "USER testuser 0 * :Test Bot\r\n"]
    );
    assert!(session.has_sasl);
    assert!(!session.cap_ended);
}

#[test]
fn ping_is_answered_and_reported() {
    let (mut session, _) = Session::start(&server(None, None), &test_config());
    let step = session.on_line("PING :test123", &server(None, None), &test_config());
    assert_eq!(step.send, vec!["PONG :test123\r\n"]);
    assert_eq!(event_messages(&step), vec!["PING"]);
    assert!(!step.finished);
}

#[test]
fn welcome_is_reported_as_message() {
    let (mut session, _) = Session::start(&server(None, None), &test_config());
    let step = session.on_line(":server 001 testbot :Welcome", &server(None, None), &test_config());
    assert_eq!(event_messages(&step), vec!["001"]);
}

#[test]
fn nick_collision_tries_alternatives_then_underscore() {
    let mut config = test_config();
    config.alt_nicks = vec!["testbot2".to_string()];
    let srv = server(None, None);
    let (mut session, _) = Session::start(&srv, &config);
    let step = session.on_line(":server 433 * testbot :Nickname is already in use", &srv, &config);
    assert_eq!(step.send, vec!["NICK :testbot2\r\n"]);
    let step = session.on_line(":server 433 * testbot2 :Nickname is already in use", &srv, &config);
    assert_eq!(step.send, vec!["NICK :testbot2_\r\n"]);
    let step = session.on_line(":server 436 * testbot2_ :collision", &srv, &config);
    assert_eq!(step.send, vec!["NICK :testbot2__\r\n"]);
    assert_eq!(session.current_nick, "testbot2__");
}

#[test]
fn nick_collision_without_alternatives_adds_underscore() {
    let srv = server(None, None);
    let (mut session, _) = Session::start(&srv, &test_config());
    let step = session.on_line(":server 433 * testbot :Nickname is already in use", &srv, &test_config());
    assert_eq!(step.send, vec!["NICK :testbot_\r\n"]);
}

#[test]
fn sasl_exchange() {
    let srv = server(None, Some(("user", "pass")));
    let config = test_config();
    let (mut session, _) = Session::start(&srv, &config);
    let step = session.on_line(":server CAP * ACK :multi-prefix sasl", &srv, &config);
    assert_eq!(step.send, vec!["AUTHENTICATE PLAIN\r\n"]);
    assert!(session.sasl_authenticating);
    let step = session.on_line("AUTHENTICATE +", &srv, &config);
    assert_eq!(step.send, vec!["AUTHENTICATE AHVzZXIAcGFzcw==\r\n"]);
    assert!(!session.sasl_authenticating);
    let step = session.on_line(":server 903 testbot :SASL authentication successful", &srv, &config);
    assert_eq!(step.send, vec!["CAP END\r\n"]);
    assert!(session.cap_ended);
    let step = session.on_line(":server 903 testbot :again", &srv, &config);
    assert!(step.send.is_empty());
}

#[test]
fn sasl_failure_is_reported_and_ends_negotiation() {
    let srv = server(None, Some(("user", "pass")));
    let config = test_config();
    let (mut session, _) = Session::start(&srv, &config);
    let step = session.on_line(":server 904 testbot :SASL authentication failed", &srv, &config);
    assert_eq!(step.send, vec!["CAP END\r\n"]);
    assert!(matches!(&step.events[0], IrcEvent::Error(t) if t == "SASL authentication failed"));
    assert!(matches!(&step.events[1], IrcEvent::Message(_)));
}

#[test]
fn cap_nak_ends_negotiation_once() {
    let srv = server(None, Some(("user", "pass")));
    let config = test_config();
    let (mut session, _) = Session::start(&srv, &config);
    let step = session.on_line(":server CAP * NAK :sasl", &srv, &config);
    assert_eq!(step.send, vec!["CAP END\r\n"]);
    let step = session.on_line(":server CAP * NAK :sasl", &srv, &config);
    assert!(step.send.is_empty());
}

#[test]
fn cap_ack_without_sasl_ends_negotiation_when_pending() {
    let srv = server(None, Some(("user", "pass")));
    let config = test_config();
    let (mut session, _) = Session::start(&srv, &config);
    let step = session.on_line(":server CAP * ACK :multi-prefix", &srv, &config);
    assert_eq!(step.send, vec!["CAP END\r\n"]);
}

#[test]
fn auto_join_after_welcome_once() {
    let mut config = test_config();
    config.auto_join = vec!["#rust".to_string(), "#bitchx".to_string()];
    let srv = server(None, None);
    let (mut session, _) = Session::start(&srv, &config);
    let step = session.on_line(":server 001 testbot :Welcome", &srv, &config);
    assert_eq!(step.send, vec!["JOIN :#rust\r\n", "JOIN :#bitchx\r\n"]);
    let step = session.on_line(":server 376 testbot :End of MOTD", &srv, &config);
    assert!(step.send.is_empty());
}

#[test]
fn end_of_motd_joins_when_no_welcome() {
    let mut config = test_config();
    config.auto_join = vec!["#rust".to_string()];
    let srv = server(None, None);
    let (mut session, _) = Session::start(&srv, &config);
    let step = session.on_line(":server 422 testbot :MOTD File is missing", &srv, &config);
    assert_eq!(step.send, vec!["JOIN :#rust\r\n"]);
}

#[test]
fn unparsable_line_is_reported_as_error() {
    let srv = server(None, None);
    let (mut session, _) = Session::start(&srv, &test_config());
    let step = session.on_line("", &srv, &test_config());
    assert!(step.send.is_empty());
    assert_eq!(step.events.len(), 1);
    assert!(matches!(&step.events[0], IrcEvent::Error(t) if t.starts_with("Parse error: Parse error: ")));
}

#[test]
fn commands_write_their_lines() {
    let srv = server(None, None);
    let (mut s, _) = Session::start(&srv, &test_config());
    let cases: Vec<(ClientCommand, &str)> = vec![
        (ClientCommand::SendRaw("PRIVMSG #test :Hello world\r\n".to_string()), "PRIVMSG #test :Hello world\r\n"),
        (ClientCommand::Privmsg("#test".to_string(), "Hello!".to_string()), "PRIVMSG #test :Hello!\r\n"),
        (ClientCommand::Notice("bob".to_string(), "hey".to_string()), "NOTICE bob :hey\r\n"),
        (ClientCommand::Join("#mychan".to_string()), "JOIN :#mychan\r\n"),
        (ClientCommand::Part("#mychan".to_string(), None), "PART :#mychan\r\n"),
        (ClientCommand::Part("#mychan".to_string(), Some("bye".to_string())), "PART #mychan :bye\r\n"),
        (ClientCommand::Topic("#c".to_string(), Some("t".to_string())), "TOPIC #c :t\r\n"),
        (ClientCommand::Topic("#c".to_string(), None), "TOPIC :#c\r\n"),
        (ClientCommand::Away(Some("lunch".to_string())), "AWAY :lunch\r\n"),
        (ClientCommand::Away(None), "AWAY\r\n"),
        (ClientCommand::Mode("#c".to_string(), "+o bob".to_string()), "MODE #c +o bob\r\n"),
        (ClientCommand::Kick("#c".to_string(), "bob".to_string(), Some("out".to_string())), "KICK #c bob :out\r\n"),
        (ClientCommand::Kick("#c".to_string(), "bob".to_string(), None), "KICK #c :bob\r\n"),
        (ClientCommand::Ctcp("bob".to_string(), "VERSION".to_string()), "PRIVMSG bob :\x01VERSION\x01\r\n"),
        (ClientCommand::Ping("tok".to_string()), "PING :tok\r\n"),
    ];
    for (cmd, line) in cases {
        let step = s.on_command(cmd);
        assert_eq!(step.send, vec![line.to_string()]);
        assert!(step.events.is_empty());
        assert!(!step.finished);
    }
}

#[test]
fn nick_command_changes_nick_asked_for() {
    let srv = server(None, None);
    let (mut s, _) = Session::start(&srv, &test_config());
    let step = s.on_command(ClientCommand::Nick("other".to_string()));
    assert_eq!(step.send, vec!["NICK :other\r\n"]);
    assert_eq!(s.current_nick, "other");
}

#[test]
fn quit_command_ends_session() {
    let srv = server(None, None);
    let (mut s, _) = Session::start(&srv, &test_config());
    let step = s.on_command(ClientCommand::Quit(Some("Goodbye".to_string())));
    assert_eq!(step.send, vec!["QUIT :Goodbye\r\n"]);
    assert!(step.finished);
    assert!(matches!(&step.events[0], IrcEvent::Disconnected(r) if r == "Client quit"));
    let step = s.on_command(ClientCommand::Quit(None));
    assert_eq!(step.send, vec!["QUIT\r\n"]);
}

#[test]
fn second_connect_is_refused() {
    let srv = server(None, None);
    let (mut s, _) = Session::start(&srv, &test_config());
    let step = s.on_command(ClientCommand::Connect(srv.clone()));
    assert!(step.send.is_empty());
    assert!(!step.finished);
    assert!(matches!(&step.events[0], IrcEvent::Error(t) if t == "Already connected"));
}

#[test]
fn idle_commands() {
    let srv = server(None, None);
    assert!(matches!(when_idle(Some(ClientCommand::Connect(srv))), IdleStep::Connect(s) if s.host == "127.0.0.1"));
    assert!(matches!(when_idle(Some(ClientCommand::Quit(None))), IdleStep::Stop));
    assert!(matches!(when_idle(None), IdleStep::Stop));
    assert!(matches!(when_idle(Some(ClientCommand::Join("#x".to_string()))), IdleStep::Refuse(IrcEvent::Error(t)) if t == "Not connected to any server"));
}

#[test]
fn authenticate_line_frames_credentials() {
    assert_eq!(authenticate_line("AHVzZXIAcGFzcw=="), "AUTHENTICATE AHVzZXIAcGFzcw==\r\n");
}

#[test]
fn connection_edge_reports() {
    let srv = server(None, None);
    assert!(matches!(connection_failed(&srv, "refused"), IrcEvent::Error(t) if t == "Failed to connect to 127.0.0.1:6667: refused"));
    assert!(matches!(connection_closed(), IrcEvent::Disconnected(t) if t == "Connection closed by server"));
    assert!(matches!(read_failed("reset"), IrcEvent::Disconnected(t) if t == "Read error: reset"));
}

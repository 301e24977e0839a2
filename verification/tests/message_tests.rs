use bitchy::irc::message::{IrcMessage, Prefix};
#[test]
fn parse_simple_ping() {
    let msg = IrcMessage::parse("PING :server.name").unwrap();
    assert_eq!(msg.prefix, None);
    assert_eq!(msg.command, "PING");
    assert_eq!(msg.params, vec!["server.name"]);
}

#[test]
fn parse_privmsg_with_prefix() {
    let msg = IrcMessage::parse(":nick!user@host PRIVMSG #channel :Hello world").unwrap();
    assert_eq!(
        msg.prefix,
        Some(Prefix::User {
            nick: "nick".into(),
            user: Some("user".into()),
            host: Some("host".into()),
        })
    );
    assert_eq!(msg.command, "PRIVMSG");
    assert_eq!(msg.params, vec!["#channel", "Hello world"]);
}

#[test]
fn parse_numeric_reply_001() {
    let msg = IrcMessage::parse(":server 001 nick :Welcome to the IRC Network").unwrap();
    assert_eq!(msg.prefix, Some(Prefix::Server("server".into())));
    assert_eq!(msg.command, "001");
    assert_eq!(msg.params, vec!["nick", "Welcome to the IRC Network"]);
}

#[test]
fn parse_numeric_reply_353() {
    let msg = IrcMessage::parse(":server.name 353 mynick = #channel :nick1 nick2 @op +voice")
        .unwrap();
    assert_eq!(msg.prefix, Some(Prefix::Server("server.name".into())));
    assert_eq!(msg.command, "353");
    assert_eq!(
        msg.params,
        vec!["mynick", "=", "#channel", "nick1 nick2 @op +voice"]
    );
}

#[test]
fn parse_join_with_user_prefix() {
    let msg = IrcMessage::parse(":nick!user@host JOIN #channel").unwrap();
    assert_eq!(
        msg.prefix,
        Some(Prefix::User {
            nick: "nick".into(),
            user: Some("user".into()),
            host: Some("host".into()),
        })
    );
    assert_eq!(msg.command, "JOIN");
    assert_eq!(msg.params, vec!["#channel"]);
}

#[test]
fn parse_mode_with_multiple_params() {
    let msg = IrcMessage::parse(":server MODE #channel +ov nick1 nick2").unwrap();
    assert_eq!(msg.command, "MODE");
    assert_eq!(msg.params, vec!["#channel", "+ov", "nick1", "nick2"]);
}

#[test]
fn parse_message_no_prefix() {
    let msg = IrcMessage::parse("NOTICE AUTH :*** Looking up your hostname").unwrap();
    assert_eq!(msg.prefix, None);
    assert_eq!(msg.command, "NOTICE");
    assert_eq!(msg.params, vec!["AUTH", "*** Looking up your hostname"]);
}

#[test]
fn parse_trailing_with_spaces() {
    let msg = IrcMessage::parse(":nick PRIVMSG #chan :this is a message with spaces").unwrap();
    assert_eq!(msg.params, vec!["#chan", "this is a message with spaces"]);
}

#[test]
fn round_trip_privmsg() {
    let raw = ":nick!user@host PRIVMSG #channel :Hello world";
    let msg = IrcMessage::parse(raw).unwrap();
    assert_eq!(msg.to_raw(), raw);
}

#[test]
fn round_trip_ping() {
    let raw = "PING :server.name";
    let msg = IrcMessage::parse(raw).unwrap();
    assert_eq!(msg.to_raw(), raw);
}

#[test]
fn round_trip_mode() {
    let raw = ":server MODE #channel +ov nick1 nick2";
    let msg = IrcMessage::parse(raw).unwrap();
    let serialized = msg.to_raw();
    let reparsed = IrcMessage::parse(&serialized).unwrap();
    assert_eq!(msg, reparsed);
}

#[test]
fn error_on_empty_input() {
    assert!(IrcMessage::parse("").is_err());
}

#[test]
fn error_on_whitespace_only() {
    assert!(IrcMessage::parse("   \r\n").is_err());
}

#[test]
fn error_on_prefix_only() {
    assert!(IrcMessage::parse(":prefix").is_err());
}

#[test]
fn parse_quit_with_trailing() {
    let msg = IrcMessage::parse(":nick!user@host QUIT :Gone to lunch").unwrap();
    assert_eq!(msg.command, "QUIT");
    assert_eq!(msg.params, vec!["Gone to lunch"]);
    assert_eq!(msg.trailing(), Some("Gone to lunch"));
}

#[test]
fn parse_kick_with_reason() {
    let msg = IrcMessage::parse(":op!user@host KICK #channel badnick :You are kicked").unwrap();
    assert_eq!(msg.command, "KICK");
    assert_eq!(msg.params, vec!["#channel", "badnick", "You are kicked"]);
}

#[test]
fn nick_extraction() {
    let msg = IrcMessage::parse(":testnick!testuser@testhost PRIVMSG #chan :hi").unwrap();
    assert_eq!(msg.nick(), Some("testnick"));
}

#[test]
fn user_extraction() {
    let msg = IrcMessage::parse(":testnick!testuser@testhost PRIVMSG #chan :hi").unwrap();
    assert_eq!(msg.user(), Some("testuser"));
}

#[test]
fn host_extraction() {
    let msg = IrcMessage::parse(":testnick!testuser@testhost PRIVMSG #chan :hi").unwrap();
    assert_eq!(msg.host(), Some("testhost"));
}

#[test]
fn nick_from_server_prefix_is_none() {
    let msg = IrcMessage::parse(":irc.server.com 001 nick :Welcome").unwrap();
    assert_eq!(msg.nick(), None);
}

#[test]
fn display_matches_to_raw() {
    let msg = IrcMessage::parse(":nick!user@host PRIVMSG #channel :Hello world").unwrap();
    // Displaying a message writes its raw form.
    assert_eq!(msg.to_raw(), ":nick!user@host PRIVMSG #channel :Hello world");
}

#[test]
fn parse_with_crlf() {
    let msg = IrcMessage::parse("PING :server\r\n").unwrap();
    assert_eq!(msg.command, "PING");
    assert_eq!(msg.params, vec!["server"]);
}

#[test]
fn parse_command_case_insensitive() {
    let msg = IrcMessage::parse("ping :server").unwrap();
    assert_eq!(msg.command, "PING");
}

#[test]
fn parse_nick_only_prefix() {
    let msg = IrcMessage::parse(":justnick QUIT :bye").unwrap();
    assert_eq!(
        msg.prefix,
        Some(Prefix::User {
            nick: "justnick".into(),
            user: None,
            host: None,
        })
    );
    assert_eq!(msg.nick(), Some("justnick"));
}

#[test]
fn trailing_returns_last_param() {
    let msg = IrcMessage::parse(":server 001 nick :Welcome").unwrap();
    assert_eq!(msg.trailing(), Some("Welcome"));
}

#[test]
fn parse_no_params() {
    let msg = IrcMessage::parse("QUIT").unwrap();
    assert_eq!(msg.command, "QUIT");
    assert!(msg.params.is_empty());
}

#[test]
fn parse_empty_trailing() {
    let msg = IrcMessage::parse(":nick PRIVMSG #chan :").unwrap();
    assert_eq!(msg.params, vec!["#chan", ""]);
}

#[test]
fn reparse_of_written_message_gives_same_message() {
    for line in [
        ":irc.example.net 001 alice :Welcome, alice ☺\r\n",
        "privmsg #rust  hello",
        ":bob!b@host.example MODE #rust +o alice",
        "  NOTICE alice :héllo wörld",
    ] {
        let msg = IrcMessage::parse(line).unwrap();
        let again = IrcMessage::parse(&msg.to_raw()).unwrap();
        assert_eq!(again, msg);
    }
}

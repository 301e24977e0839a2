use bitchy::irc::ctcp::CtcpMessage;
#[test]
fn test_parse_version() {
    let msg = CtcpMessage::parse("\x01VERSION\x01").unwrap();
    assert_eq!(msg.command, "VERSION");
    assert!(msg.params.is_none());
}

#[test]
fn test_parse_ping_with_token() {
    let msg = CtcpMessage::parse("\x01PING 12345\x01").unwrap();
    assert_eq!(msg.command, "PING");
    assert_eq!(msg.params.as_deref(), Some("12345"));
}

#[test]
fn test_parse_action() {
    let msg = CtcpMessage::parse("\x01ACTION waves hello\x01").unwrap();
    assert_eq!(msg.command, "ACTION");
    assert_eq!(msg.params.as_deref(), Some("waves hello"));
}

#[test]
fn test_parse_empty() {
    assert!(CtcpMessage::parse("").is_none());
}

#[test]
fn test_parse_no_delimiters() {
    assert!(CtcpMessage::parse("VERSION").is_none());
}

#[test]
fn test_parse_only_delimiters() {
    assert!(CtcpMessage::parse("\x01\x01").is_none());
}

#[test]
fn test_parse_case_insensitive_command() {
    let msg = CtcpMessage::parse("\x01version\x01").unwrap();
    assert_eq!(msg.command, "VERSION");
}

#[test]
fn test_is_ctcp() {
    assert!(CtcpMessage::is_ctcp("\x01VERSION\x01"));
    assert!(CtcpMessage::is_ctcp("\x01PING 123\x01"));
    assert!(!CtcpMessage::is_ctcp("hello"));
    assert!(!CtcpMessage::is_ctcp("\x01"));
    assert!(!CtcpMessage::is_ctcp(""));
}

#[test]
fn test_encode_no_params() {
    let encoded = CtcpMessage::encode("VERSION", None);
    assert_eq!(encoded, "\x01VERSION\x01");
}

#[test]
fn test_encode_with_params() {
    let encoded = CtcpMessage::encode("PING", Some("12345"));
    assert_eq!(encoded, "\x01PING 12345\x01");
}

#[test]
fn test_encode_round_trip() {
    let encoded = CtcpMessage::encode("PING", Some("token123"));
    let parsed = CtcpMessage::parse(&encoded).unwrap();
    assert_eq!(parsed.command, "PING");
    assert_eq!(parsed.params.as_deref(), Some("token123"));
}

#[test]
fn test_version_reply() {
    let reply = CtcpMessage::version_reply();
    assert!(reply.starts_with('\x01'));
    assert!(reply.ends_with('\x01'));
    assert!(reply.contains("VERSION"));
    assert!(reply.contains("BitchX"));
}

#[test]
fn test_ping_reply() {
    let reply = CtcpMessage::ping_reply("99999");
    let parsed = CtcpMessage::parse(&reply).unwrap();
    assert_eq!(parsed.command, "PING");
    assert_eq!(parsed.params.as_deref(), Some("99999"));
}

#[test]
fn test_time_reply() {
    let reply = CtcpMessage::time_reply();
    let parsed = CtcpMessage::parse(&reply).unwrap();
    assert_eq!(parsed.command, "TIME");
    assert!(parsed.params.is_some());
}

#[test]
fn test_clientinfo_reply() {
    let reply = CtcpMessage::clientinfo_reply();
    let parsed = CtcpMessage::parse(&reply).unwrap();
    assert_eq!(parsed.command, "CLIENTINFO");
    let params = parsed.params.unwrap();
    assert!(params.contains("VERSION"));
    assert!(params.contains("PING"));
    assert!(params.contains("ACTION"));
}

#[test]
fn test_action() {
    let action = CtcpMessage::action("dances around");
    let parsed = CtcpMessage::parse(&action).unwrap();
    assert_eq!(parsed.command, "ACTION");
    assert_eq!(parsed.params.as_deref(), Some("dances around"));
}

#[test]
fn test_finger_reply() {
    let reply = CtcpMessage::finger_reply("alice");
    let parsed = CtcpMessage::parse(&reply).unwrap();
    assert_eq!(parsed.command, "FINGER");
    assert_eq!(parsed.params.as_deref(), Some("alice"));
}

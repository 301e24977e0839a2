use bitchy::irc::client::IrcEvent;
use bitchy::irc::message::IrcMessage;
use bitchy::ui::dumb::{dumb_output, Printed};

#[test]
fn events_print_as_lines() {
    let (p, stop) = dumb_output(&IrcEvent::Connected);
    assert!(matches!(p, Printed::Stdout(ref t) if t == "*** Connected to server"));
    assert!(!stop);
    let (p, stop) = dumb_output(&IrcEvent::Disconnected("Client quit".to_string()));
    assert!(matches!(p, Printed::Stdout(ref t) if t == "*** Disconnected: Client quit"));
    assert!(stop);
    let (p, stop) = dumb_output(&IrcEvent::Error("bad".to_string()));
    assert!(matches!(p, Printed::Stderr(ref t) if t == "*** Error: bad"));
    assert!(!stop);
    let (p, stop) = dumb_output(&IrcEvent::LagUpdate(5));
    assert!(matches!(p, Printed::Nothing));
    assert!(!stop);
}

#[test]
fn messages_print_as_raw_lines() {
    let m = IrcMessage::parse(":nick!user@host PRIVMSG #chan :hello world").unwrap();
    let (p, stop) = dumb_output(&IrcEvent::Message(m));
    assert!(matches!(p, Printed::Stdout(ref t) if t == ":nick!user@host PRIVMSG #chan :hello world"));
    assert!(!stop);
}

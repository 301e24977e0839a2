use bitchy::irc::connection::{incoming_line, outgoing_line};

#[test]
fn outgoing_lines_end_with_crlf_once() {
    assert_eq!(outgoing_line("NICK :me"), "NICK :me\r\n");
    assert_eq!(outgoing_line("NICK :me\r\n"), "NICK :me\r\n");
    assert_eq!(outgoing_line("PING :x\n"), "PING :x\n\r\n");
    assert_eq!(outgoing_line(""), "\r\n");
}

#[test]
fn incoming_lines_lose_their_line_ends() {
    assert_eq!(incoming_line("PING :abc\r\n"), "PING :abc");
    assert_eq!(incoming_line("PING :abc\n"), "PING :abc");
    assert_eq!(incoming_line("PING :abc\r\n\r\n"), "PING :abc");
    assert_eq!(incoming_line("PING :abc"), "PING :abc");
    assert_eq!(incoming_line("\r\n"), "");
}

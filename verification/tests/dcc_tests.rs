use bitchy::irc::dcc::{ip_from_long, ip_to_long, DccOffer, DccType, IpAddress};
#[test]
fn test_parse_dcc_send() {
    let offer = DccOffer::parse("Alice", "SEND test.txt 3232235777 5000 1024").unwrap();
    assert_eq!(offer.kind, DccType::Send);
    assert_eq!(offer.from, "Alice");
    assert_eq!(offer.filename.as_deref(), Some("test.txt"));
    assert_eq!(offer.address, IpAddress::V4(192, 168, 1, 1));
    assert_eq!(offer.port, 5000);
    assert_eq!(offer.size, Some(1024));
}

#[test]
fn test_parse_dcc_send_no_size() {
    let offer = DccOffer::parse("Alice", "SEND test.txt 3232235777 5000").unwrap();
    assert_eq!(offer.kind, DccType::Send);
    assert!(offer.size.is_none());
}

#[test]
fn test_parse_dcc_chat() {
    let offer = DccOffer::parse("Bob", "CHAT chat 2130706433 6000").unwrap();
    assert_eq!(offer.kind, DccType::Chat);
    assert_eq!(offer.from, "Bob");
    assert!(offer.filename.is_none());
    assert_eq!(offer.address, IpAddress::V4(127, 0, 0, 1));
    assert_eq!(offer.port, 6000);
}

#[test]
fn test_parse_dcc_invalid() {
    assert!(DccOffer::parse("X", "SEND").is_none());
    assert!(DccOffer::parse("X", "").is_none());
    assert!(DccOffer::parse("X", "BLAH a b c").is_none());
}

#[test]
fn test_parse_dcc_bad_ip() {
    assert!(DccOffer::parse("X", "SEND file notanumber 5000").is_none());
}

#[test]
fn test_parse_dcc_bad_port() {
    assert!(DccOffer::parse("X", "SEND file 3232235777 notaport").is_none());
}

#[test]
fn test_ip_from_long_localhost() {
    let ip = ip_from_long(2130706433);
    assert_eq!(ip, IpAddress::V4(127, 0, 0, 1));
}

#[test]
fn test_ip_to_long_localhost() {
    let long = ip_to_long(IpAddress::V4(127, 0, 0, 1));
    assert_eq!(long, 2130706433);
}

#[test]
fn test_ip_roundtrip() {
    let addr = IpAddress::V4(192, 168, 1, 100);
    let long = ip_to_long(addr);
    let back = ip_from_long(long);
    assert_eq!(addr, back);
}

#[test]
fn test_send_request() {
    let req = DccOffer::send_request(
        "file.txt",
        IpAddress::V4(192, 168, 1, 1),
        5000,
        1024,
    );
    assert_eq!(req, "\x01DCC SEND file.txt 3232235777 5000 1024\x01");
}

#[test]
fn test_chat_request() {
    let req = DccOffer::chat_request(IpAddress::V4(127, 0, 0, 1), 6000);
    assert_eq!(req, "\x01DCC CHAT chat 2130706433 6000\x01");
}

#[test]
fn test_parse_case_insensitive() {
    let offer = DccOffer::parse("X", "send file.txt 2130706433 5000 512").unwrap();
    assert_eq!(offer.kind, DccType::Send);
}

use bitchy::error::BitchYError;

#[test]
fn error_texts_name_their_area() {
    assert_eq!(BitchYError::Protocol("x".to_string()).to_text(), "IRC protocol error: x");
    assert_eq!(BitchYError::Tls("x".to_string()).to_text(), "TLS error: x");
    assert_eq!(BitchYError::Parse("x".to_string()).to_text(), "Parse error: x");
    assert_eq!(BitchYError::Config("x".to_string()).to_text(), "Configuration error: x");
    assert_eq!(BitchYError::Dcc("x".to_string()).to_text(), "DCC error: x");
    assert_eq!(BitchYError::Plugin("x".to_string()).to_text(), "Plugin error: x");
    assert_eq!(BitchYError::Encryption("x".to_string()).to_text(), "Encryption error: x");
    assert_eq!(BitchYError::Channel("x".to_string()).to_text(), "Channel error: x");
    assert_eq!(BitchYError::Other("x".to_string()).to_text(), "x");
}

#[test]
fn connection_error_text_starts_with_area() {
    let e = BitchYError::Connection(std::io::Error::new(std::io::ErrorKind::Other, "refused"));
    let t = e.to_text();
    assert!(t.starts_with("Connection error: "));
    assert!(t.ends_with("refused"));
}

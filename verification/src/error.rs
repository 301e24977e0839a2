//! The error type shared by the whole client.
use vstd::prelude::*;

verus! {

/// `std::io::Error`, carried by connection failures.
#[verifier::external_type_specification]
#[verifier::external_body]
pub struct ExIoError(std::io::Error);

/// Everything that can go wrong in the client, by area.
#[derive(Debug)]
pub enum BitchYError {
    Protocol(String),
    Connection(std::io::Error),
    Tls(String),
    Parse(String),
    Config(String),
    Dcc(String),
    Plugin(String),
    Encryption(String),
    Channel(String),
    Other(String),
}

/// `std::io::Error`'s text, as its `Display` writes it.
///
/// Nothing is said of the text: it comes from the operating system.
#[verifier::external_body]
fn io_error_text(e: &std::io::Error) -> String {
    e.to_string()
}

/// The text of an error: the area it comes from, then what went wrong.
/// A connection error's own text comes from the operating system and is
/// left open.
pub open spec fn error_text(e: BitchYError) -> Option<Seq<char>> {
    match e {
        BitchYError::Protocol(t) => Some("IRC protocol error: "@ + t@),
        BitchYError::Connection(_) => None,
        BitchYError::Tls(t) => Some("TLS error: "@ + t@),
        BitchYError::Parse(t) => Some("Parse error: "@ + t@),
        BitchYError::Config(t) => Some("Configuration error: "@ + t@),
        BitchYError::Dcc(t) => Some("DCC error: "@ + t@),
        BitchYError::Plugin(t) => Some("Plugin error: "@ + t@),
        BitchYError::Encryption(t) => Some("Encryption error: "@ + t@),
        BitchYError::Channel(t) => Some("Channel error: "@ + t@),
        BitchYError::Other(t) => Some(t@),
    }
}

/// `head` followed by `t`, as a string.
fn prefixed(head: &str, t: &str) -> (r: String)
    ensures
        r@ == head@ + t@,
{
    let mut out = crate::text::chars_of(head);
    crate::text::push_str_chars(&mut out, t);
    crate::text::string_of(&out)
}

impl BitchYError {
    /// The error as text, as it is shown to the user.
    pub fn to_text(&self) -> (r: String)
        ensures
            match error_text(*self) {
                Some(t) => r@ == t,
                None => "Connection error: "@.is_prefix_of(r@),
            },
    {
        match self {
            BitchYError::Protocol(t) => prefixed("IRC protocol error: ", t.as_str()),
            BitchYError::Connection(e) => {
                let r = prefixed("Connection error: ", io_error_text(e).as_str());
                assert(r@.subrange(0, "Connection error: "@.len() as int) =~= "Connection error: "@);
                r
            },
            BitchYError::Tls(t) => prefixed("TLS error: ", t.as_str()),
            BitchYError::Parse(t) => prefixed("Parse error: ", t.as_str()),
            BitchYError::Config(t) => prefixed("Configuration error: ", t.as_str()),
            BitchYError::Dcc(t) => prefixed("DCC error: ", t.as_str()),
            BitchYError::Plugin(t) => prefixed("Plugin error: ", t.as_str()),
            BitchYError::Encryption(t) => prefixed("Encryption error: ", t.as_str()),
            BitchYError::Channel(t) => prefixed("Channel error: ", t.as_str()),
            BitchYError::Other(t) => t.clone(),
        }
    }
}

/// `e` is an encryption error whose text is `msg`.
pub open spec fn encryption_error(e: BitchYError, msg: Seq<char>) -> bool {
    e matches BitchYError::Encryption(t) && t@ == msg
}

} // verus!

//! The non-interactive mode: each event from the connection becomes a
//! printed line.
use vstd::prelude::*;

use crate::irc::client::IrcEvent;
use crate::irc::message::spec_to_raw;
use crate::text::{chars_of, owned, push_str_chars, string_of};

verus! {

/// Where a line goes.
#[derive(Debug)]
pub enum Printed {
    /// To standard output.
    Stdout(String),
    /// To standard error.
    Stderr(String),
    /// Nowhere.
    Nothing,
}

/// What the non-interactive mode prints for an event, and whether it then
/// stops: a connection and each message are printed, a disconnection is
/// printed and ends the mode, an error goes to standard error, and a lag
/// measure is not printed.
pub fn dumb_output(event: &IrcEvent) -> (r: (Printed, bool))
    ensures
        match event {
            IrcEvent::Connected => r.0 matches Printed::Stdout(t) && t@ == "*** Connected to server"@ && !r.1,
            IrcEvent::Disconnected(reason) => r.0 matches Printed::Stdout(t) && t@ == "*** Disconnected: "@
                + reason@ && r.1,
            IrcEvent::Message(m) => r.0 matches Printed::Stdout(t) && t@ == spec_to_raw(m@) && !r.1,
            IrcEvent::Error(e) => r.0 matches Printed::Stderr(t) && t@ == "*** Error: "@ + e@ && !r.1,
            IrcEvent::LagUpdate(_) => r.0 is Nothing && !r.1,
        },
{
    match event {
        IrcEvent::Connected => (Printed::Stdout(owned("*** Connected to server")), false),
        IrcEvent::Disconnected(reason) => {
            let mut out = chars_of("*** Disconnected: ");
            push_str_chars(&mut out, reason.as_str());
            (Printed::Stdout(string_of(&out)), true)
        },
        IrcEvent::Message(m) => (Printed::Stdout(m.to_raw()), false),
        IrcEvent::Error(e) => {
            let mut out = chars_of("*** Error: ");
            push_str_chars(&mut out, e.as_str());
            (Printed::Stderr(string_of(&out)), false)
        },
        IrcEvent::LagUpdate(_) => (Printed::Nothing, false),
    }
}

} // verus!

//! The client's side of a connection: the events it reports, the commands
//! it takes, and what a session with a server decides at each step.
//!
//! The connection loop reads lines and commands and performs what the
//! session returns: lines to write, events to report, and whether the
//! session is over.
use vstd::prelude::*;
use vstd::string::*;
use vstd::utf8::encode_utf8;

use crate::config::{Config, ServerConfig};
use crate::irc::command::IrcCommand;
use crate::irc::encrypt::{base64_encode, base64_text};
use crate::irc::message::{opt_view, strings_view, IrcMessage, MessageModel, spec_parse};
use crate::text::{
    chars_of, owned, push_char, push_decimal, push_str_chars, spec_decimal, str_eq, string_of, texts, words,
};

verus! {

/// What the connection reports to the interface.
#[derive(Debug, Clone)]
pub enum IrcEvent {
    Connected,
    Disconnected(String),
    Message(IrcMessage),
    Error(String),
    LagUpdate(u64),
}

/// What the interface asks the connection to do.
#[derive(Debug, Clone)]
pub enum ClientCommand {
    Connect(ServerConfig),
    SendRaw(String),
    Join(String),
    Part(String, Option<String>),
    Privmsg(String, String),
    Notice(String, String),
    Nick(String),
    Quit(Option<String>),
    Mode(String, String),
    Kick(String, String, Option<String>),
    Topic(String, Option<String>),
    Away(Option<String>),
    Ctcp(String, String),
    Ping(String),
}

/// A [`ClientCommand`] with its texts as character sequences.
pub enum CommandModel {
    Connect,
    SendRaw(Seq<char>),
    Join(Seq<char>),
    Part(Seq<char>, Option<Seq<char>>),
    Privmsg(Seq<char>, Seq<char>),
    Notice(Seq<char>, Seq<char>),
    Nick(Seq<char>),
    Quit(Option<Seq<char>>),
    Mode(Seq<char>, Seq<char>),
    Kick(Seq<char>, Seq<char>, Option<Seq<char>>),
    Topic(Seq<char>, Option<Seq<char>>),
    Away(Option<Seq<char>>),
    Ctcp(Seq<char>, Seq<char>),
    Ping(Seq<char>),
}

pub open spec fn command_model(c: ClientCommand) -> CommandModel {
    match c {
        ClientCommand::Connect(_) => CommandModel::Connect,
        ClientCommand::SendRaw(s) => CommandModel::SendRaw(s@),
        ClientCommand::Join(s) => CommandModel::Join(s@),
        ClientCommand::Part(s, r) => CommandModel::Part(s@, opt_view(r)),
        ClientCommand::Privmsg(t, s) => CommandModel::Privmsg(t@, s@),
        ClientCommand::Notice(t, s) => CommandModel::Notice(t@, s@),
        ClientCommand::Nick(s) => CommandModel::Nick(s@),
        ClientCommand::Quit(r) => CommandModel::Quit(opt_view(r)),
        ClientCommand::Mode(t, s) => CommandModel::Mode(t@, s@),
        ClientCommand::Kick(c, n, r) => CommandModel::Kick(c@, n@, opt_view(r)),
        ClientCommand::Topic(c, t) => CommandModel::Topic(c@, opt_view(t)),
        ClientCommand::Away(r) => CommandModel::Away(opt_view(r)),
        ClientCommand::Ctcp(t, s) => CommandModel::Ctcp(t@, s@),
        ClientCommand::Ping(s) => CommandModel::Ping(s@),
    }
}

/// An [`IrcEvent`] with its texts as character sequences.
pub enum EventModel {
    Connected,
    Disconnected(Seq<char>),
    Message(MessageModel),
    Error(Seq<char>),
    LagUpdate(u64),
}

pub open spec fn event_model(e: IrcEvent) -> EventModel {
    match e {
        IrcEvent::Connected => EventModel::Connected,
        IrcEvent::Disconnected(r) => EventModel::Disconnected(r@),
        IrcEvent::Message(m) => EventModel::Message(m@),
        IrcEvent::Error(t) => EventModel::Error(t@),
        IrcEvent::LagUpdate(ms) => EventModel::LagUpdate(ms),
    }
}

// ---------------------------------------------------------------------------
// A session with a server
// ---------------------------------------------------------------------------

/// Where a session with a server stands: the nickname we ask for, how many
/// of the alternative nicknames were tried, whether the channels to join
/// were joined, whether SASL is to be used, whether capability negotiation
/// has ended, and whether SASL authentication is under way.
#[derive(Debug)]
pub struct Session {
    pub current_nick: String,
    pub alt_nick_idx: usize,
    pub auto_joined: bool,
    pub has_sasl: bool,
    pub cap_ended: bool,
    pub sasl_authenticating: bool,
}

pub struct SessionModel {
    pub nick: Seq<char>,
    pub alt_index: int,
    pub auto_joined: bool,
    pub has_sasl: bool,
    pub cap_ended: bool,
    pub sasl_authenticating: bool,
}

impl View for Session {
    type V = SessionModel;

    open spec fn view(&self) -> SessionModel {
        SessionModel {
            nick: self.current_nick@,
            alt_index: self.alt_nick_idx as int,
            auto_joined: self.auto_joined,
            has_sasl: self.has_sasl,
            cap_ended: self.cap_ended,
            sasl_authenticating: self.sasl_authenticating,
        }
    }
}

/// What the connection loop is asked to do after a step: write these
/// lines, report these events, and whether the session is over.
#[derive(Debug)]
pub struct SessionStep {
    pub send: Vec<String>,
    pub events: Vec<IrcEvent>,
    pub finished: bool,
}

pub struct StepModel {
    pub send: Seq<Seq<char>>,
    pub events: Seq<EventModel>,
    pub finished: bool,
}

impl View for SessionStep {
    type V = StepModel;

    open spec fn view(&self) -> StepModel {
        StepModel {
            send: texts(self.send@),
            events: self.events@.map_values(|e: IrcEvent| event_model(e)),
            finished: self.finished,
        }
    }
}

/// A step that writes `send`, reports `events`, and goes on.
pub open spec fn going_on(send: Seq<Seq<char>>, events: Seq<EventModel>) -> StepModel {
    StepModel { send, events, finished: false }
}

/// The server asks for SASL: both a user and a password are set.
pub open spec fn sasl_configured(server: ServerConfig) -> bool {
    server.sasl_user is Some && server.sasl_pass is Some
}

/// `o`'s text, or the empty text.
pub open spec fn text_or_empty(o: Option<String>) -> Seq<char> {
    match o {
        Some(t) => t@,
        None => seq![],
    }
}

/// The capabilities asked for: `multi-prefix`, and `sasl` when SASL is
/// used.
pub open spec fn cap_request(sasl: bool) -> Seq<char> {
    if sasl {
        "CAP REQ :"@ + crate::irc::command::join_words(seq!["multi-prefix"@, "sasl"@], seq![' ']) + "\r\n"@
    } else {
        "CAP REQ :"@ + crate::irc::command::join_words(seq!["multi-prefix"@], seq![' ']) + "\r\n"@
    }
}

/// The lines that register with a server: the server password if there is
/// one, the capability request, our nickname and user, and the end of
/// capability negotiation unless SASL is to come first.
pub open spec fn registration(server: ServerConfig, config: Config) -> Seq<Seq<char>> {
    let sasl = sasl_configured(server);
    let pass: Seq<Seq<char>> = match server.password {
        Some(p) => seq!["PASS :"@ + p@ + "\r\n"@],
        None => seq![],
    };
    pass + seq![
        cap_request(sasl),
        "NICK :"@ + config.nick@ + "\r\n"@,
        "USER "@ + config.username@ + " 0 * :"@ + config.realname@ + "\r\n"@,
    ] + if sasl {
        seq![]
    } else {
        seq!["CAP END\r\n"@]
    }
}

/// A session just registered: nothing tried yet, capability negotiation
/// over unless SASL is to come.
pub open spec fn fresh_session(server: ServerConfig, config: Config) -> SessionModel {
    SessionModel {
        nick: config.nick@,
        alt_index: 0,
        auto_joined: false,
        has_sasl: sasl_configured(server),
        cap_ended: !sasl_configured(server),
        sasl_authenticating: false,
    }
}

/// What SASL PLAIN sends: a NUL, the user, a NUL, the password.
pub open spec fn sasl_payload(server: ServerConfig) -> Seq<char> {
    seq!['\0'] + text_or_empty(server.sasl_user) + seq!['\0'] + text_or_empty(server.sasl_pass)
}

/// The nickname to try after the server refused ours: the next
/// alternative, or ours with `_` added when none is left.
pub open spec fn next_nick(s: SessionModel, config: Config) -> SessionModel {
    if s.alt_index < config.alt_nicks@.len() {
        SessionModel { nick: config.alt_nicks@[s.alt_index]@, alt_index: s.alt_index + 1, ..s }
    } else {
        SessionModel { nick: s.nick.push('_'), ..s }
    }
}

/// What a message from the server does to the session, besides being
/// reported: the lines to write and the events to report first.
///
/// A PING is answered; a refused nickname is replaced; capability replies
/// lead to SASL or end negotiation; the server's SASL prompt is answered
/// with the credentials in base64; the end of SASL (success or failure)
/// ends negotiation; and the welcome (or the end of the message of the
/// day) joins the channels to join, once.
pub open spec fn session_message(s: SessionModel, m: MessageModel, server: ServerConfig, config: Config) -> (
    SessionModel,
    Seq<Seq<char>>,
    Seq<EventModel>,
) {
    let c = m.command;
    let ps = m.params;
    let cap_end = "CAP END\r\n"@;
    if c == "PING"@ {
        (s, if ps.len() > 0 { seq!["PONG :"@ + ps.last() + "\r\n"@] } else { seq![] }, seq![])
    } else if c == "433"@ || c == "436"@ {
        let s2 = next_nick(s, config);
        (s2, seq!["NICK :"@ + s2.nick + "\r\n"@], seq![])
    } else if c == "CAP"@ {
        let sub = if ps.len() > 1 { ps[1] } else { seq![] };
        if sub == "ACK"@ {
            let acked = if ps.len() > 0 { ps.last() } else { seq![] };
            if s.has_sasl && words(acked).contains("sasl"@) {
                (SessionModel { sasl_authenticating: true, ..s }, seq!["AUTHENTICATE PLAIN\r\n"@], seq![])
            } else if !s.cap_ended {
                (SessionModel { cap_ended: true, ..s }, seq![cap_end], seq![])
            } else {
                (s, seq![], seq![])
            }
        } else if sub == "NAK"@ && !s.cap_ended {
            (SessionModel { cap_ended: true, ..s }, seq![cap_end], seq![])
        } else {
            (s, seq![], seq![])
        }
    } else if c == "AUTHENTICATE"@ && s.sasl_authenticating && ps.len() > 0 && ps[0] == "+"@ {
        (
            SessionModel { sasl_authenticating: false, ..s },
            seq!["AUTHENTICATE "@ + base64_text(encode_utf8(sasl_payload(server))) + "\r\n"@],
            seq![],
        )
    } else if c == "903"@ && !s.cap_ended {
        (SessionModel { cap_ended: true, ..s }, seq![cap_end], seq![])
    } else if (c == "904"@ || c == "905"@) && !s.cap_ended {
        (SessionModel { cap_ended: true, ..s }, seq![cap_end], seq![EventModel::Error("SASL authentication failed"@)])
    } else if !s.auto_joined && (c == "001"@ || c == "376"@ || c == "422"@) {
        (
            SessionModel { auto_joined: true, ..s },
            config.auto_join@.map_values(|ch: String| "JOIN :"@ + ch@ + "\r\n"@),
            seq![],
        )
    } else {
        (s, seq![], seq![])
    }
}

/// What a line from the server does: one that does not parse is reported
/// as an error, after `Parse error: ` and the parse error's own text (which
/// starts the same way); a message acts on the session and is then
/// reported.
pub open spec fn session_line(s: SessionModel, line: Seq<char>, server: ServerConfig, config: Config) -> (
    SessionModel,
    StepModel,
) {
    match spec_parse(line) {
        Err(t) => (
            s,
            going_on(
                seq![],
                seq![EventModel::Error("Parse error: "@ + ("Parse error: "@ + t))],
            ),
        ),
        Ok(m) => {
            let r = session_message(s, m, server, config);
            (r.0, going_on(r.1, r.2.push(EventModel::Message(m))))
        },
    }
}

/// The line a command writes.
pub open spec fn command_line(c: CommandModel) -> Seq<char> {
    match c {
        CommandModel::SendRaw(raw) => raw,
        CommandModel::Quit(r) => match r {
            Some(t) => "QUIT :"@ + t + "\r\n"@,
            None => "QUIT\r\n"@,
        },
        CommandModel::Privmsg(t, m) => "PRIVMSG "@ + t + " :"@ + m + "\r\n"@,
        CommandModel::Notice(t, m) => "NOTICE "@ + t + " :"@ + m + "\r\n"@,
        CommandModel::Join(ch) => "JOIN :"@ + ch + "\r\n"@,
        CommandModel::Part(ch, r) => match r {
            Some(t) => "PART "@ + ch + " :"@ + t + "\r\n"@,
            None => "PART :"@ + ch + "\r\n"@,
        },
        CommandModel::Nick(n) => "NICK :"@ + n + "\r\n"@,
        CommandModel::Topic(ch, t) => match t {
            Some(x) => "TOPIC "@ + ch + " :"@ + x + "\r\n"@,
            None => "TOPIC :"@ + ch + "\r\n"@,
        },
        CommandModel::Away(m) => match m {
            Some(t) => "AWAY :"@ + t + "\r\n"@,
            None => "AWAY\r\n"@,
        },
        CommandModel::Mode(t, m) => "MODE "@ + t + " "@ + m + "\r\n"@,
        CommandModel::Kick(ch, n, r) => match r {
            Some(t) => "KICK "@ + ch + " "@ + n + " :"@ + t + "\r\n"@,
            None => "KICK "@ + ch + " :"@ + n + "\r\n"@,
        },
        CommandModel::Ctcp(t, m) => "PRIVMSG "@ + t + " :"@ + (seq!['\x01'] + m + seq!['\x01']) + "\r\n"@,
        CommandModel::Ping(tok) => "PING :"@ + tok + "\r\n"@,
        CommandModel::Connect => seq![],
    }
}

/// What a command from the interface does during a session: it writes its
/// line; a QUIT also ends the session, reported as a disconnection; a NICK
/// changes the nickname we ask for; and a second connection is refused.
pub open spec fn session_command(s: SessionModel, c: CommandModel) -> (SessionModel, StepModel) {
    match c {
        CommandModel::Connect => (s, going_on(seq![], seq![EventModel::Error("Already connected"@)])),
        CommandModel::Quit(_) => (
            s,
            StepModel {
                send: seq![command_line(c)],
                events: seq![EventModel::Disconnected("Client quit"@)],
                finished: true,
            },
        ),
        CommandModel::Nick(n) => (SessionModel { nick: n, ..s }, going_on(seq![command_line(c)], seq![])),
        _ => (s, going_on(seq![command_line(c)], seq![])),
    }
}

/// Once capability negotiation has ended, or the channels to join were
/// joined, no line from the server and no command undoes it.
pub proof fn lemma_session_flags_stay(
    s: SessionModel,
    line: Seq<char>,
    c: CommandModel,
    server: ServerConfig,
    config: Config,
)
    ensures
        s.cap_ended ==> session_line(s, line, server, config).0.cap_ended,
        s.auto_joined ==> session_line(s, line, server, config).0.auto_joined,
        s.cap_ended ==> session_command(s, c).0.cap_ended,
        s.auto_joined ==> session_command(s, c).0.auto_joined,
{
}

/// How the lines a session writes begin.
proof fn lemma_line_heads()
    ensures
        "PONG :"@.len() == 6 && "PONG :"@[0] == 'P',
        "NICK :"@.len() == 6 && "NICK :"@[0] == 'N',
        "AUTHENTICATE PLAIN\r\n"@.len() == 20 && "AUTHENTICATE PLAIN\r\n"@[0] == 'A',
        "AUTHENTICATE "@.len() == 13 && "AUTHENTICATE "@[0] == 'A',
        "CAP END\r\n"@.len() == 9 && "CAP END\r\n"@[0] == 'C',
        "JOIN :"@.len() == 6 && "JOIN :"@[0] == 'J',
{
    reveal_strlit("PONG :");
    reveal_strlit("NICK :");
    reveal_strlit("AUTHENTICATE PLAIN\r\n");
    reveal_strlit("AUTHENTICATE ");
    reveal_strlit("CAP END\r\n");
    reveal_strlit("JOIN :");
}

/// The channels to join are joined once: once they were, no line from the
/// server makes the session write a JOIN.
pub proof fn lemma_joins_once(s: SessionModel, line: Seq<char>, server: ServerConfig, config: Config)
    requires
        s.auto_joined,
    ensures
        forall|i: int|
            0 <= i < session_line(s, line, server, config).1.send.len() ==> !"JOIN :"@.is_prefix_of(
                #[trigger] session_line(s, line, server, config).1.send[i],
            ),
{
    lemma_line_heads();
    let send = session_line(s, line, server, config).1.send;
    assert forall|i: int| 0 <= i < send.len() implies !"JOIN :"@.is_prefix_of(#[trigger] send[i]) by {
        assert(send[i].len() > 0 && send[i][0] != 'J');
    }
}

/// Capability negotiation ends once: once it has, no line from the server
/// makes the session write `CAP END` again.
pub proof fn lemma_negotiation_ends_once(s: SessionModel, line: Seq<char>, server: ServerConfig, config: Config)
    requires
        s.cap_ended,
    ensures
        !session_line(s, line, server, config).1.send.contains("CAP END\r\n"@),
{
    lemma_line_heads();
    let send = session_line(s, line, server, config).1.send;
    if send.contains("CAP END\r\n"@) {
        let i = choose|i: int| 0 <= i < send.len() && send[i] == "CAP END\r\n"@;
        assert(send[i][0] != 'C');
    }
}

/// What a command does while no server is connected.
pub enum IdleStep {
    /// Connect to this server.
    Connect(ServerConfig),
    /// Stop the client.
    Stop,
    /// Report this event and wait for the next command.
    Refuse(IrcEvent),
}

/// Whether `text` has `w` among its white-space-separated words.
fn has_word(text: &str, w: &str) -> (r: bool)
    ensures
        r == words(text@).contains(w@),
{
    let v = chars_of(text);
    let wv = chars_of(w);
    let spans = crate::text::word_spans(&v);
    let ghost ws = words(v@);
    assert(crate::text::span_texts(v@, spans@).len() == spans@.len());
    let mut i: usize = 0;
    while i < spans.len()
        invariant
            i <= spans@.len() == ws.len(),
            crate::text::span_texts(v@, spans@) == ws,
            ws == words(text@),
            v@ == text@,
            wv@ == w@,
            forall|k: int| 0 <= k < spans@.len() ==> (#[trigger] spans@[k]).0 < spans@[k].1 <= v@.len(),
            forall|k: int| 0 <= k < i ==> #[trigger] ws[k] != wv@,
        decreases spans@.len() - i,
    {
        let (b, e) = spans[i];
        let piece = crate::text::string_of_range(&v, b, e);
        let pv = chars_of(piece.as_str());
        assert(crate::text::span_texts(v@, spans@)[i as int] == v@.subrange(b as int, e as int));
        assert(pv@ == ws[i as int]);
        if crate::text::seq_eq(&pv, &wv) {
            assert(ws[i as int] == w@);
            return true;
        }
        i += 1;
    }
    proof {
        if ws.contains(w@) {
            let k = choose|k: int| 0 <= k < ws.len() && ws[k] == w@;
            assert(ws[k] != wv@);
        }
    }
    false
}

/// `AUTHENTICATE` with the base64 credentials; what a session writes when
/// the server asks for them.
pub fn authenticate_line(encoded: &str) -> (r: String)
    ensures
        r@ == "AUTHENTICATE "@ + encoded@ + "\r\n"@,
{
    let mut out = chars_of("AUTHENTICATE ");
    push_str_chars(&mut out, encoded);
    push_str_chars(&mut out, "\r\n");
    string_of(&out)
}

/// One line in a step.
fn one(line: String) -> (r: Vec<String>)
    ensures
        texts(r@) == seq![line@],
{
    let mut v: Vec<String> = Vec::new();
    v.push(line);
    assert(texts(v@) =~= seq![line@]);
    v
}

impl Session {
    /// A session with `server`, and the lines that register with it.
    pub fn start(server: &ServerConfig, config: &Config) -> (r: (Session, Vec<String>))
        ensures
            r.0@ == fresh_session(*server, *config),
            texts(r.1@) == registration(*server, *config),
    {
        let has_sasl = server.sasl_user.is_some() && server.sasl_pass.is_some();
        let mut lines: Vec<String> = Vec::new();
        match &server.password {
            Some(p) => lines.push(IrcCommand::pass(p.as_str())),
            None => {},
        }
        let mut caps: Vec<&str> = Vec::new();
        caps.push("multi-prefix");
        if has_sasl {
            caps.push("sasl");
        }
        let req = IrcCommand::cap_req(caps.as_slice());
        proof {
            if has_sasl {
                assert(crate::irc::command::strs_view(caps@) =~= seq!["multi-prefix"@, "sasl"@]);
            } else {
                assert(crate::irc::command::strs_view(caps@) =~= seq!["multi-prefix"@]);
            }
        }
        lines.push(req);
        lines.push(IrcCommand::nick(config.nick.as_str()));
        lines.push(IrcCommand::user(config.username.as_str(), config.realname.as_str()));
        if !has_sasl {
            lines.push(IrcCommand::cap_end());
        }
        proof {
            assert(texts(lines@) =~= registration(*server, *config));
        }
        let session = Session {
            current_nick: config.nick.clone(),
            alt_nick_idx: 0,
            auto_joined: false,
            has_sasl,
            cap_ended: !has_sasl,
            sasl_authenticating: false,
        };
        (session, lines)
    }

    /// What a line from the server does to the session.
    pub fn on_line(&mut self, raw: &str, server: &ServerConfig, config: &Config) -> (r: SessionStep)
        ensures
            (final(self)@, r@) == session_line(old(self)@, raw@, *server, *config),
    {
        match IrcMessage::parse(raw) {
            Err(e) => {
                let mut out = chars_of("Parse error: ");
                let text = e.to_text();
                push_str_chars(&mut out, text.as_str());
                let mut events: Vec<IrcEvent> = Vec::new();
                events.push(IrcEvent::Error(string_of(&out)));
                let send: Vec<String> = Vec::new();
                proof {
                    assert(events@.map_values(|e: IrcEvent| event_model(e)) =~= seq![
                        EventModel::Error("Parse error: "@ + text@),
                    ]);
                    assert(texts(send@) =~= Seq::<Seq<char>>::empty());
                }
                SessionStep { send, events, finished: false }
            },
            Ok(msg) => {
                let mut send: Vec<String> = Vec::new();
                let mut events: Vec<IrcEvent> = Vec::new();
                self.on_message(&msg, server, config, &mut send, &mut events);
                let ghost before = events@;
                events.push(IrcEvent::Message(msg));
                proof {
                    assert(events@.map_values(|e: IrcEvent| event_model(e)) =~= before.map_values(
                        |e: IrcEvent| event_model(e),
                    ).push(EventModel::Message(msg@)));
                }
                SessionStep { send, events, finished: false }
            },
        }
    }

    /// What a message does to the session: the lines to write and the
    /// events to report are added to `send` and `events`.
    fn on_message(
        &mut self,
        msg: &IrcMessage,
        server: &ServerConfig,
        config: &Config,
        send: &mut Vec<String>,
        events: &mut Vec<IrcEvent>,
    )
        requires
            old(send)@.len() == 0,
            old(events)@.len() == 0,
        ensures
            ({
                let r = session_message(old(self)@, msg@, *server, *config);
                &&& final(self)@ == r.0
                &&& texts(final(send)@) == r.1
                &&& final(events)@.map_values(|e: IrcEvent| event_model(e)) == r.2
            }),
    {
        let ghost no_events = events@.map_values(|e: IrcEvent| event_model(e));
        assert(no_events =~= Seq::<EventModel>::empty());
        assert(texts(send@) =~= Seq::<Seq<char>>::empty());
        let c = msg.command.as_str();
        let n = msg.params.len();
        let ghost ps = strings_view(msg.params@);
        if str_eq(c, "PING") {
            if n > 0 {
                let tok = msg.params[n - 1].as_str();
                assert(ps.last() == tok@);
                send.push(IrcCommand::pong(tok));
                assert(texts(send@) =~= seq!["PONG :"@ + tok@ + "\r\n"@]);
            }
        } else if str_eq(c, "433") || str_eq(c, "436") {
            if self.alt_nick_idx < config.alt_nicks.len() {
                self.current_nick = config.alt_nicks[self.alt_nick_idx].clone();
                self.alt_nick_idx = self.alt_nick_idx + 1;
            } else {
                push_char(&mut self.current_nick, '_');
            }
            send.push(IrcCommand::nick(self.current_nick.as_str()));
            assert(texts(send@) =~= seq!["NICK :"@ + self.current_nick@ + "\r\n"@]);
        } else if str_eq(c, "CAP") {
            let sub: &str = if n > 1 {
                msg.params[1].as_str()
            } else {
                ""
            };
            proof {
                if n <= 1 {
                    assert(sub@ =~= Seq::<char>::empty()) by {
                        reveal_strlit("");
                    }
                }
            }
            if str_eq(sub, "ACK") {
                let acked: &str = if n > 0 {
                    msg.params[n - 1].as_str()
                } else {
                    ""
                };
                proof {
                    if n == 0 {
                        assert(acked@ =~= Seq::<char>::empty()) by {
                            reveal_strlit("");
                        }
                    }
                }
                if self.has_sasl && has_word(acked, "sasl") {
                    send.push(owned("AUTHENTICATE PLAIN\r\n"));
                    self.sasl_authenticating = true;
                    assert(texts(send@) =~= seq!["AUTHENTICATE PLAIN\r\n"@]);
                } else if !self.cap_ended {
                    send.push(IrcCommand::cap_end());
                    self.cap_ended = true;
                    assert(texts(send@) =~= seq!["CAP END\r\n"@]);
                }
            } else if str_eq(sub, "NAK") && !self.cap_ended {
                send.push(IrcCommand::cap_end());
                self.cap_ended = true;
                assert(texts(send@) =~= seq!["CAP END\r\n"@]);
            }
        } else if str_eq(c, "AUTHENTICATE") && self.sasl_authenticating && n > 0 && str_eq(
            msg.params[0].as_str(),
            "+",
        ) {
            let mut payload: Vec<char> = Vec::new();
            payload.push('\0');
            match &server.sasl_user {
                Some(u) => push_str_chars(&mut payload, u.as_str()),
                None => {},
            }
            payload.push('\0');
            match &server.sasl_pass {
                Some(p) => push_str_chars(&mut payload, p.as_str()),
                None => {},
            }
            assert(payload@ =~= sasl_payload(*server));
            let text = string_of(&payload);
            let bytes = text.as_str().as_bytes_vec();
            let encoded = base64_encode(bytes.as_slice());
            send.push(authenticate_line(encoded.as_str()));
            self.sasl_authenticating = false;
            assert(texts(send@) =~= seq![
                "AUTHENTICATE "@ + base64_text(encode_utf8(sasl_payload(*server))) + "\r\n"@,
            ]);
        } else if str_eq(c, "903") && !self.cap_ended {
            send.push(IrcCommand::cap_end());
            self.cap_ended = true;
            assert(texts(send@) =~= seq!["CAP END\r\n"@]);
        } else if (str_eq(c, "904") || str_eq(c, "905")) && !self.cap_ended {
            events.push(IrcEvent::Error(owned("SASL authentication failed")));
            send.push(IrcCommand::cap_end());
            self.cap_ended = true;
            assert(texts(send@) =~= seq!["CAP END\r\n"@]);
            assert(events@.map_values(|e: IrcEvent| event_model(e)) =~= seq![
                EventModel::Error("SASL authentication failed"@),
            ]);
        } else if !self.auto_joined && (str_eq(c, "001") || str_eq(c, "376") || str_eq(c, "422")) {
            let ghost chans = config.auto_join@;
            let mut i: usize = 0;
            while i < config.auto_join.len()
                invariant
                    i <= chans.len(),
                    chans == config.auto_join@,
                    texts(send@) == chans.take(i as int).map_values(|ch: String| "JOIN :"@ + ch@ + "\r\n"@),
                decreases chans.len() - i,
            {
                let ghost before = send@;
                let line = IrcCommand::join(config.auto_join[i].as_str());
                send.push(line);
                proof {
                    let f = |ch: String| "JOIN :"@ + ch@ + "\r\n"@;
                    assert(chans.take(i + 1) =~= chans.take(i as int).push(chans[i as int]));
                    assert(texts(send@) =~= texts(before).push(line@));
                    assert(line@ == f(chans[i as int]));
                    assert(chans.take(i + 1).map_values(f) =~= chans.take(i as int).map_values(f).push(f(chans[i as int])));
                }
                i += 1;
            }
            assert(chans.take(chans.len() as int) =~= chans);
            self.auto_joined = true;
        }
    }

    /// What a command from the interface does during the session.
    pub fn on_command(&mut self, cmd: ClientCommand) -> (r: SessionStep)
        ensures
            (final(self)@, r@) == session_command(old(self)@, command_model(cmd)),
    {
        let ghost cm = command_model(cmd);
        let no_events: Vec<IrcEvent> = Vec::new();
        assert(no_events@.map_values(|e: IrcEvent| event_model(e)) =~= Seq::<EventModel>::empty());
        match cmd {
            ClientCommand::SendRaw(raw) => SessionStep { send: one(raw), events: no_events, finished: false },
            ClientCommand::Quit(reason) => {
                let line = match &reason {
                    Some(t) => IrcCommand::quit(Some(t.as_str())),
                    None => IrcCommand::quit(None),
                };
                let mut events: Vec<IrcEvent> = Vec::new();
                events.push(IrcEvent::Disconnected(owned("Client quit")));
                assert(events@.map_values(|e: IrcEvent| event_model(e)) =~= seq![
                    EventModel::Disconnected("Client quit"@),
                ]);
                SessionStep { send: one(line), events, finished: true }
            },
            ClientCommand::Privmsg(target, text) => SessionStep {
                send: one(IrcCommand::privmsg(target.as_str(), text.as_str())),
                events: no_events,
                finished: false,
            },
            ClientCommand::Notice(target, text) => SessionStep {
                send: one(IrcCommand::notice(target.as_str(), text.as_str())),
                events: no_events,
                finished: false,
            },
            ClientCommand::Join(channel) => SessionStep {
                send: one(IrcCommand::join(channel.as_str())),
                events: no_events,
                finished: false,
            },
            ClientCommand::Part(channel, reason) => {
                let line = match &reason {
                    Some(t) => IrcCommand::part(channel.as_str(), Some(t.as_str())),
                    None => IrcCommand::part(channel.as_str(), None),
                };
                SessionStep { send: one(line), events: no_events, finished: false }
            },
            ClientCommand::Nick(nick) => {
                let line = IrcCommand::nick(nick.as_str());
                self.current_nick = nick;
                SessionStep { send: one(line), events: no_events, finished: false }
            },
            ClientCommand::Topic(channel, topic) => {
                let line = match &topic {
                    Some(t) => IrcCommand::topic(channel.as_str(), Some(t.as_str())),
                    None => IrcCommand::topic(channel.as_str(), None),
                };
                SessionStep { send: one(line), events: no_events, finished: false }
            },
            ClientCommand::Away(message) => {
                let line = match &message {
                    Some(t) => IrcCommand::away(Some(t.as_str())),
                    None => IrcCommand::away(None),
                };
                SessionStep { send: one(line), events: no_events, finished: false }
            },
            ClientCommand::Mode(target, modes) => {
                let mut out = chars_of("MODE ");
                push_str_chars(&mut out, target.as_str());
                push_str_chars(&mut out, " ");
                push_str_chars(&mut out, modes.as_str());
                push_str_chars(&mut out, "\r\n");
                SessionStep { send: one(string_of(&out)), events: no_events, finished: false }
            },
            ClientCommand::Kick(channel, nick, reason) => {
                let line = match &reason {
                    Some(t) => IrcCommand::kick(channel.as_str(), nick.as_str(), Some(t.as_str())),
                    None => IrcCommand::kick(channel.as_str(), nick.as_str(), None),
                };
                SessionStep { send: one(line), events: no_events, finished: false }
            },
            ClientCommand::Ctcp(target, text) => {
                let mut body: Vec<char> = Vec::new();
                body.push('\x01');
                push_str_chars(&mut body, text.as_str());
                body.push('\x01');
                assert(body@ =~= seq!['\x01'] + text@ + seq!['\x01']);
                let wrapped = string_of(&body);
                SessionStep {
                    send: one(IrcCommand::privmsg(target.as_str(), wrapped.as_str())),
                    events: no_events,
                    finished: false,
                }
            },
            ClientCommand::Ping(token) => SessionStep {
                send: one(IrcCommand::ping(token.as_str())),
                events: no_events,
                finished: false,
            },
            ClientCommand::Connect(_) => {
                let mut events: Vec<IrcEvent> = Vec::new();
                events.push(IrcEvent::Error(owned("Already connected")));
                assert(events@.map_values(|e: IrcEvent| event_model(e)) =~= seq![
                    EventModel::Error("Already connected"@),
                ]);
                let send: Vec<String> = Vec::new();
                assert(texts(send@) =~= Seq::<Seq<char>>::empty());
                SessionStep { send, events, finished: false }
            },
        }
    }
}

/// What is reported when connecting to `server` failed for `reason`.
pub fn connection_failed(server: &ServerConfig, reason: &str) -> (r: IrcEvent)
    ensures
        event_model(r) == EventModel::Error(
            "Failed to connect to "@ + server.host@ + ":"@ + spec_decimal(server.port as nat) + ": "@ + reason@,
        ),
{
    let mut out = chars_of("Failed to connect to ");
    push_str_chars(&mut out, server.host.as_str());
    push_str_chars(&mut out, ":");
    push_decimal(&mut out, server.port as u64);
    push_str_chars(&mut out, ": ");
    push_str_chars(&mut out, reason);
    IrcEvent::Error(string_of(&out))
}

/// What is reported when the server closed the connection.
pub fn connection_closed() -> (r: IrcEvent)
    ensures
        event_model(r) == EventModel::Disconnected("Connection closed by server"@),
{
    IrcEvent::Disconnected(owned("Connection closed by server"))
}

/// What is reported when reading from the server failed for `reason`.
pub fn read_failed(reason: &str) -> (r: IrcEvent)
    ensures
        event_model(r) == EventModel::Disconnected("Read error: "@ + reason@),
{
    let mut out = chars_of("Read error: ");
    push_str_chars(&mut out, reason);
    IrcEvent::Disconnected(string_of(&out))
}

/// What a command does while no server is connected: a CONNECT connects,
/// a QUIT (or the end of the commands) stops the client, and anything else
/// is refused as needing a connection.
pub fn when_idle(cmd: Option<ClientCommand>) -> (r: IdleStep)
    ensures
        match cmd {
            Some(ClientCommand::Connect(s)) => r matches IdleStep::Connect(t) && t == s,
            Some(ClientCommand::Quit(_)) | None => r is Stop,
            Some(_) => r matches IdleStep::Refuse(e) && event_model(e) == EventModel::Error(
                "Not connected to any server"@,
            ),
        },
{
    match cmd {
        Some(ClientCommand::Connect(s)) => IdleStep::Connect(s),
        Some(ClientCommand::Quit(_)) | None => IdleStep::Stop,
        Some(_) => IdleStep::Refuse(IrcEvent::Error(owned("Not connected to any server"))),
    }
}

} // verus!

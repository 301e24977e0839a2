//! What the interface's panes show, as text: the lines of a window, the
//! status bar, the channel tabs, the nick list and the input prompt.
//! Drawing them with colours is left to the terminal layer.
use vstd::prelude::*;

use crate::irc::channel::{ChannelUser, ChatMessage, MessageKind};
use crate::irc::command::{join_from, join_words};
use crate::irc::message::strings_view;
use crate::text::{chars_of, owned, push_decimal, push_str_chars, spec_decimal, string_of};

verus! {

// ---------------------------------------------------------------------------
// The chat window
// ---------------------------------------------------------------------------

/// The minute of the day (UTC) of a time given in milliseconds since the
/// Unix epoch.
pub open spec fn minute_of_day(ms: int) -> int {
    (ms / 60000) % 1440
}

/// A number below 100 in two digits.
pub open spec fn two_digits(n: nat) -> Seq<char> {
    if n < 10 {
        seq!['0'] + spec_decimal(n)
    } else {
        spec_decimal(n)
    }
}

/// The time stamp of a line: `[HH:MM] `, UTC.
pub open spec fn clock_stamp(ms: int) -> Seq<char> {
    let m = minute_of_day(ms);
    "["@ + two_digits((m / 60) as nat) + ":"@ + two_digits((m % 60) as nat) + "] "@
}

/// How a line shows: the sender's part, drawn in the sender's colour
/// (`<nick>` for ordinary messages), and the rest, drawn by the line's
/// kind.
pub open spec fn message_text(kind: MessageKind, sender: Seq<char>, content: Seq<char>) -> (
    Option<Seq<char>>,
    Seq<char>,
) {
    match kind {
        MessageKind::Normal => (Some("<"@ + sender + ">"@), " "@ + content),
        MessageKind::Action => (None, "* "@ + sender + " "@ + content),
        MessageKind::Notice => (None, "-"@ + sender + "- "@ + content),
        MessageKind::Join => (None, "--> "@ + sender + " has joined "@ + content),
        MessageKind::Part => (None, "<-- "@ + sender + " has left "@ + content),
        MessageKind::Quit => (None, "<-- "@ + sender + " has quit ("@ + content + ")"@),
        MessageKind::Kick => (None, "<<< "@ + sender + " was kicked: "@ + content),
        MessageKind::Mode => (None, "*** "@ + sender + " sets mode "@ + content),
        MessageKind::Topic => (None, "*** "@ + sender + " changed the topic to: "@ + content),
        MessageKind::Nick => (None, "*** "@ + sender + " is now known as "@ + content),
        MessageKind::System => (None, "*** "@ + content),
        MessageKind::Error => (None, "!!! "@ + content),
    }
}

/// A line of a window as text: its time stamp (when shown), the sender's
/// part, and the rest.
#[derive(Debug, Clone)]
pub struct ChatLine {
    pub timestamp: Option<String>,
    pub nick: Option<String>,
    pub text: String,
    pub kind: MessageKind,
}

pub struct LineModel {
    pub timestamp: Option<Seq<char>>,
    pub nick: Option<Seq<char>>,
    pub text: Seq<char>,
    pub kind: MessageKind,
}

pub open spec fn opt_chars(o: Option<String>) -> Option<Seq<char>> {
    match o {
        Some(t) => Some(t@),
        None => None,
    }
}

impl View for ChatLine {
    type V = LineModel;

    open spec fn view(&self) -> LineModel {
        LineModel { timestamp: opt_chars(self.timestamp), nick: opt_chars(self.nick), text: self.text@, kind: self.kind }
    }
}

/// How the message `m` shows, with or without its time stamp.
pub open spec fn shown_as(m: ChatMessage, stamps: bool) -> LineModel {
    let t = message_text(m.kind, m.sender@, m.content@);
    LineModel {
        timestamp: if stamps {
            Some(clock_stamp(m.timestamp as int))
        } else {
            None
        },
        nick: t.0,
        text: t.1,
        kind: m.kind,
    }
}

/// The lines a window of `height` lines shows out of `total`, scrolled
/// back `offset` lines from the end: `(start, end)`.
pub open spec fn window(total: int, offset: int, height: int) -> (int, int) {
    let end = if total > offset {
        total - offset
    } else {
        0
    };
    let start = if end > height {
        end - height
    } else {
        0
    };
    (start, end)
}

/// The minute of the day (UTC) of `ms`.
fn minute_of(ms: i64) -> (r: u64)
    ensures
        r as int == minute_of_day(ms as int),
        r < 1440,
{
    if ms >= 0 {
        let u = ms as u64;
        let q = u / 60000;
        assert(q as int == ms as int / 60000);
        q % 1440
    } else {
        let u = (-(ms + 1)) as u64;
        let q = u / 60000;
        let b = q % 1440;
        proof {
            let r0 = u % 60000;
            assert(u == 60000 * q + r0);
            assert(ms as int == 60000 * (-(q as int) - 1) + (59999 - r0));
            assert(ms as int / 60000 == -(q as int) - 1);
            let a = q / 1440;
            assert(q == 1440 * a + b);
            assert(-(q as int) - 1 == 1440 * (-(a as int) - 1) + (1439 - b));
            assert((-(q as int) - 1) % 1440 == 1439 - b);
        }
        1439 - b
    }
}

/// Appends a number below 100 in two digits.
fn push_two_digits(out: &mut Vec<char>, n: u64)
    requires
        n < 100,
    ensures
        final(out)@ == old(out)@ + two_digits(n as nat),
{
    if n < 10 {
        out.push('0');
    }
    let ghost mid = out@;
    push_decimal(out, n);
    assert(n < 10 ==> mid == old(out)@.push('0'));
    assert(final(out)@ =~= old(out)@ + two_digits(n as nat));
}

/// The time stamp of a line: `[HH:MM] `, UTC.
pub fn clock_text(ms: i64) -> (r: String)
    ensures
        r@ == clock_stamp(ms as int),
{
    let m = minute_of(ms);
    let mut out = chars_of("[");
    push_two_digits(&mut out, m / 60);
    push_str_chars(&mut out, ":");
    push_two_digits(&mut out, m % 60);
    push_str_chars(&mut out, "] ");
    string_of(&out)
}

/// `a`, then `b`, then `c`, as a string.
fn cat3(a: &str, b: &str, c: &str) -> (r: String)
    ensures
        r@ == a@ + b@ + c@,
{
    let mut out = chars_of(a);
    push_str_chars(&mut out, b);
    push_str_chars(&mut out, c);
    string_of(&out)
}

/// `a`, `b`, `c`, `d`, then `e`, as a string.
fn cat5(a: &str, b: &str, c: &str, d: &str, e: &str) -> (r: String)
    ensures
        r@ == a@ + b@ + c@ + d@ + e@,
{
    let mut out = chars_of(a);
    push_str_chars(&mut out, b);
    push_str_chars(&mut out, c);
    push_str_chars(&mut out, d);
    push_str_chars(&mut out, e);
    string_of(&out)
}

/// A window's lines, scrolled back from the end, with or without time
/// stamps.
pub struct ChatWidget<'a> {
    pub messages: &'a [ChatMessage],
    pub scroll_offset: usize,
    pub show_timestamps: bool,
}

impl<'a> ChatWidget<'a> {
    /// The window showing `messages`, at their end, with time stamps.
    pub fn new(messages: &'a [ChatMessage]) -> (r: ChatWidget<'a>)
        ensures
            r.messages@ == messages@,
            r.scroll_offset == 0,
            r.show_timestamps,
    {
        ChatWidget { messages, scroll_offset: 0, show_timestamps: true }
    }

    /// The window scrolled back `offset` lines from the end.
    pub fn scroll_offset(self, offset: usize) -> (r: ChatWidget<'a>)
        ensures
            r.messages@ == self.messages@,
            r.scroll_offset == offset,
            r.show_timestamps == self.show_timestamps,
    {
        ChatWidget { scroll_offset: offset, ..self }
    }

    /// The window with time stamps shown or not.
    pub fn show_timestamps(self, show: bool) -> (r: ChatWidget<'a>)
        ensures
            r.messages@ == self.messages@,
            r.scroll_offset == self.scroll_offset,
            r.show_timestamps == show,
    {
        ChatWidget { show_timestamps: show, ..self }
    }

    /// How a message shows in this window.
    pub fn format_message(&self, msg: &ChatMessage) -> (r: ChatLine)
        ensures
            r@ == shown_as(*msg, self.show_timestamps),
    {
        let timestamp = if self.show_timestamps {
            Some(clock_text(msg.timestamp))
        } else {
            None
        };
        let s = msg.sender.as_str();
        let c = msg.content.as_str();
        let (nick, text) = match msg.kind {
            MessageKind::Normal => (Some(cat3("<", s, ">")), cat3(" ", c, "")),
            MessageKind::Action => (None, cat5("* ", s, " ", c, "")),
            MessageKind::Notice => (None, cat5("-", s, "- ", c, "")),
            MessageKind::Join => (None, cat5("--> ", s, " has joined ", c, "")),
            MessageKind::Part => (None, cat5("<-- ", s, " has left ", c, "")),
            MessageKind::Quit => (None, cat5("<-- ", s, " has quit (", c, ")")),
            MessageKind::Kick => (None, cat5("<<< ", s, " was kicked: ", c, "")),
            MessageKind::Mode => (None, cat5("*** ", s, " sets mode ", c, "")),
            MessageKind::Topic => (None, cat5("*** ", s, " changed the topic to: ", c, "")),
            MessageKind::Nick => (None, cat5("*** ", s, " is now known as ", c, "")),
            MessageKind::System => (None, cat3("*** ", c, "")),
            MessageKind::Error => (None, cat3("!!! ", c, "")),
        };
        proof {
            reveal_strlit("");
            assert(text@ =~= message_text(msg.kind, msg.sender@, msg.content@).1);
        }
        ChatLine { timestamp, nick, text, kind: msg.kind }
    }

    /// Which messages a window `height` lines high shows: `(start, end)`.
    pub fn visible_range(&self, height: usize) -> (r: (usize, usize))
        ensures
            (r.0 as int, r.1 as int) == window(self.messages@.len() as int, self.scroll_offset as int, height as int),
    {
        let total = self.messages.len();
        let end = if self.scroll_offset == 0 {
            total
        } else {
            total.saturating_sub(self.scroll_offset)
        };
        let start = end.saturating_sub(height);
        (start, end)
    }

    /// The lines a window `height` lines high shows, oldest first.
    pub fn visible_lines(&self, height: usize) -> (r: Vec<ChatLine>)
        ensures
            ({
                let w = window(self.messages@.len() as int, self.scroll_offset as int, height as int);
                &&& r@.len() == w.1 - w.0
                &&& forall|i: int| 0 <= i < r@.len() ==> (#[trigger] r@[i])@ == shown_as(
                    self.messages@[w.0 + i],
                    self.show_timestamps,
                )
            }),
    {
        let (start, end) = self.visible_range(height);
        let mut out: Vec<ChatLine> = Vec::new();
        let mut i = start;
        while i < end
            invariant
                start <= i <= end <= self.messages@.len(),
                out@.len() == i - start,
                forall|k: int| 0 <= k < out@.len() ==> (#[trigger] out@[k])@ == shown_as(
                    self.messages@[start + k],
                    self.show_timestamps,
                ),
            decreases end - i,
        {
            let line = self.format_message(&self.messages[i]);
            out.push(line);
            i += 1;
        }
        out
    }
}

// ---------------------------------------------------------------------------
// The status bar and the channel tabs
// ---------------------------------------------------------------------------

/// How a channel tab is drawn.
#[derive(Debug, Clone, Copy, PartialEq, Eq, Structural)]
pub enum TabStyle {
    Active,
    Unread,
    Inactive,
}

/// The pieces of the status line.
pub open spec fn status_parts(
    time: Seq<char>,
    nick: Seq<char>,
    modes: Seq<char>,
    channel: Option<Seq<char>>,
    user_count: nat,
    lag_ms: Option<u64>,
    server: Seq<char>,
    is_away: bool,
) -> Seq<Seq<char>> {
    seq!["["@ + time + "]"@] + seq![
        if modes.len() == 0 {
            "["@ + nick + "]"@
        } else {
            "["@ + nick + "(+"@ + modes + ")]"@
        },
    ] + match channel {
        Some(c) => seq!["["@ + c + "("@ + spec_decimal(user_count) + ")]"@],
        None => seq![],
    } + match lag_ms {
        Some(l) => seq!["[Lag: "@ + spec_decimal(l as nat) + "ms]"@],
        None => seq![],
    } + seq!["["@ + server + "]"@] + if is_away {
        seq!["[Away]"@]
    } else {
        seq![]
    }
}

/// A tab's label: the channel's name, and how many lines are unread when
/// there are any.
pub open spec fn tab_label(name: Seq<char>, unread: nat) -> Seq<char> {
    if unread > 0 {
        name + "("@ + spec_decimal(unread) + ")"@
    } else {
        name
    }
}

/// How a tab is drawn: the channel shown, one with unread lines, or
/// another.
pub open spec fn tab_style(name: Seq<char>, unread: nat, shown: Option<Seq<char>>) -> TabStyle {
    if shown == Some(name) {
        TabStyle::Active
    } else if unread > 0 {
        TabStyle::Unread
    } else {
        TabStyle::Inactive
    }
}

/// The status bar: who we are, where we are, and the channel tabs.
pub struct StatusBarWidget<'a> {
    pub nick: &'a str,
    pub channel: Option<&'a str>,
    pub user_count: usize,
    pub lag_ms: Option<u64>,
    pub is_away: bool,
    pub server: &'a str,
    pub modes: &'a str,
    pub channels: &'a [(String, usize)],
}

pub open spec fn opt_str(o: Option<&str>) -> Option<Seq<char>> {
    match o {
        Some(t) => Some(t@),
        None => None,
    }
}

/// The text of `n` in decimal.
fn decimal(n: u64) -> (r: String)
    ensures
        r@ == spec_decimal(n as nat),
{
    let mut out: Vec<char> = Vec::new();
    push_decimal(&mut out, n);
    assert(out@ =~= spec_decimal(n as nat));
    string_of(&out)
}

/// The local time of day, `HH:MM`: `chrono::Local::now()` formatted with
/// `%H:%M`. Nothing is said of the text: it is the clock's, in the
/// machine's time zone.
#[verifier::external_body]
fn local_clock() -> String {
    chrono::Local::now().format("%H:%M").to_string()
}

impl<'a> StatusBarWidget<'a> {
    /// The first line of the status bar, at the local time `time`: the
    /// pieces in brackets with a space between them.
    pub fn status_text(&self, time: &str) -> (r: String)
        ensures
            r@ == join_words(
                status_parts(
                    time@,
                    self.nick@,
                    self.modes@,
                    opt_str(self.channel),
                    self.user_count as nat,
                    self.lag_ms,
                    self.server@,
                    self.is_away,
                ),
                seq![' '],
            ),
    {
        let mut parts: Vec<String> = Vec::new();
        parts.push(cat3("[", time, "]"));
        if chars_of(self.modes).len() == 0 {
            parts.push(cat3("[", self.nick, "]"));
        } else {
            parts.push(cat5("[", self.nick, "(+", self.modes, ")]"));
        }
        match self.channel {
            Some(c) => parts.push(cat5("[", c, "(", decimal(self.user_count as u64).as_str(), ")]")),
            None => {},
        }
        match self.lag_ms {
            Some(l) => parts.push(cat3("[Lag: ", decimal(l).as_str(), "ms]")),
            None => {},
        }
        parts.push(cat3("[", self.server, "]"));
        if self.is_away {
            parts.push(owned("[Away]"));
        }
        proof {
            assert(strings_view(parts@).skip(0) =~= status_parts(
                time@,
                self.nick@,
                self.modes@,
                opt_str(self.channel),
                self.user_count as nat,
                self.lag_ms,
                self.server@,
                self.is_away,
            ));
        }
        join_from(&parts, 0)
    }

    /// The first line of the status bar, now.
    pub fn status_line(&self) -> (r: String)
        ensures
            exists|time: Seq<char>|
                r@ == join_words(
                    #[trigger] status_parts(
                        time,
                        self.nick@,
                        self.modes@,
                        opt_str(self.channel),
                        self.user_count as nat,
                        self.lag_ms,
                        self.server@,
                        self.is_away,
                    ),
                    seq![' '],
                ),
    {
        let time = local_clock();
        self.status_text(time.as_str())
    }

    /// The channel tabs, in the order of the channel list: each label with
    /// how it is drawn.
    pub fn tabs(&self) -> (r: Vec<(String, TabStyle)>)
        ensures
            r@.len() == self.channels@.len(),
            forall|i: int|
                0 <= i < r@.len() ==> (#[trigger] r@[i]).0@ == tab_label(
                    self.channels@[i].0@,
                    self.channels@[i].1 as nat,
                ) && r@[i].1 == tab_style(
                    self.channels@[i].0@,
                    self.channels@[i].1 as nat,
                    opt_str(self.channel),
                ),
    {
        let mut out: Vec<(String, TabStyle)> = Vec::new();
        let mut i: usize = 0;
        while i < self.channels.len()
            invariant
                i <= self.channels@.len(),
                out@.len() == i,
                forall|k: int|
                    0 <= k < i ==> (#[trigger] out@[k]).0@ == tab_label(
                        self.channels@[k].0@,
                        self.channels@[k].1 as nat,
                    ) && out@[k].1 == tab_style(
                        self.channels@[k].0@,
                        self.channels@[k].1 as nat,
                        opt_str(self.channel),
                    ),
            decreases self.channels@.len() - i,
        {
            let (name, unread) = &self.channels[i];
            let active = match self.channel {
                Some(c) => crate::text::str_eq(c, name.as_str()),
                None => false,
            };
            let style = if active {
                TabStyle::Active
            } else if *unread > 0 {
                TabStyle::Unread
            } else {
                TabStyle::Inactive
            };
            let label = if *unread > 0 {
                cat5(name.as_str(), "(", decimal(*unread as u64).as_str(), ")", "")
            } else {
                name.clone()
            };
            proof {
                reveal_strlit("");
            }
            out.push((label, style));
            i += 1;
        }
        out
    }
}

// ---------------------------------------------------------------------------
// The nick list and the input bar
// ---------------------------------------------------------------------------

/// How a user in the nick list is drawn.
#[derive(Debug, Clone, Copy, PartialEq, Eq, Structural)]
pub enum NickStyle {
    Op,
    Voice,
    Normal,
}

/// How a user shows in the nick list: the status prefix, or a space, then
/// the nickname.
pub open spec fn user_entry(u: ChannelUser) -> Seq<char> {
    match u.prefix {
        Some(p) => seq![p] + u.nick@,
        None => seq![' '] + u.nick@,
    }
}

/// How a user is drawn: owners, admins, operators and half-operators as
/// operators, voiced users as voiced, the rest plainly.
pub open spec fn user_style_of(u: ChannelUser) -> NickStyle {
    match u.prefix {
        Some(p) => if p == '~' || p == '&' || p == '@' || p == '%' {
            NickStyle::Op
        } else if p == '+' {
            NickStyle::Voice
        } else {
            NickStyle::Normal
        },
        None => NickStyle::Normal,
    }
}

/// The users of a channel, with the list's title.
pub struct NickListWidget<'a> {
    pub users: &'a [&'a ChannelUser],
    pub title: &'a str,
}

impl<'a> NickListWidget<'a> {
    /// The list of `users` under `title`.
    pub fn new(users: &'a [&'a ChannelUser], title: &'a str) -> (r: NickListWidget<'a>)
        ensures
            r.users@ == users@,
            r.title@ == title@,
    {
        NickListWidget { users, title }
    }

    /// How a user is drawn.
    pub fn user_style(user: &ChannelUser) -> (r: NickStyle)
        ensures
            r == user_style_of(*user),
    {
        match user.prefix {
            Some(p) => if p == '~' || p == '&' || p == '@' || p == '%' {
                NickStyle::Op
            } else if p == '+' {
                NickStyle::Voice
            } else {
                NickStyle::Normal
            },
            None => NickStyle::Normal,
        }
    }

    /// How a user shows.
    pub fn format_user(user: &ChannelUser) -> (r: String)
        ensures
            r@ == user_entry(*user),
    {
        let mut out: Vec<char> = Vec::new();
        match user.prefix {
            Some(p) => out.push(p),
            None => out.push(' '),
        }
        push_str_chars(&mut out, user.nick.as_str());
        string_of(&out)
    }

    /// The entries the list shows in `height` lines: the first users.
    pub fn entries(&self, height: usize) -> (r: Vec<(String, NickStyle)>)
        ensures
            r@.len() == if self.users@.len() < height {
                self.users@.len() as int
            } else {
                height as int
            },
            forall|i: int|
                0 <= i < r@.len() ==> (#[trigger] r@[i]).0@ == user_entry(*self.users@[i]) && r@[i].1
                    == user_style_of(*self.users@[i]),
    {
        let n = if self.users.len() < height {
            self.users.len()
        } else {
            height
        };
        let mut out: Vec<(String, NickStyle)> = Vec::new();
        let mut i: usize = 0;
        while i < n
            invariant
                n <= self.users@.len(),
                i <= n,
                out@.len() == i,
                forall|k: int|
                    0 <= k < i ==> (#[trigger] out@[k]).0@ == user_entry(*self.users@[k]) && out@[k].1
                        == user_style_of(*self.users@[k]),
            decreases n - i,
        {
            let u = self.users[i];
            out.push((Self::format_user(u), Self::user_style(u)));
            i += 1;
        }
        out
    }
}

/// The title of the nick list: the channel and how many are in it, or
/// `Users`.
pub fn nick_list_title(channel: Option<&str>, count: usize) -> (r: String)
    ensures
        r@ == match channel {
            Some(c) => " "@ + c@ + " ("@ + spec_decimal(count as nat) + ") "@,
            None => " Users "@,
        },
{
    match channel {
        Some(c) => cat5(" ", c, " (", decimal(count as u64).as_str(), ") "),
        None => owned(" Users "),
    }
}

/// The prompt of the input line: the channel shown in brackets, or `> `.
pub fn input_prompt(channel: Option<&str>) -> (r: String)
    ensures
        r@ == match channel {
            Some(c) => "["@ + c@ + "] "@,
            None => "> "@,
        },
{
    match channel {
        Some(c) => cat3("[", c, "] "),
        None => owned("> "),
    }
}

/// The input line as typed, after its prompt.
pub struct InputBarWidget<'a> {
    pub text: &'a str,
    pub cursor_pos: usize,
    pub prompt: &'a str,
}

impl<'a> InputBarWidget<'a> {
    /// The line `text` with the cursor at `cursor_pos`, after `> `.
    pub fn new(text: &'a str, cursor_pos: usize) -> (r: InputBarWidget<'a>)
        ensures
            r.text@ == text@,
            r.cursor_pos == cursor_pos,
            r.prompt@ == "> "@,
    {
        InputBarWidget { text, cursor_pos, prompt: "> " }
    }

    /// The line after another prompt.
    pub fn prompt(self, prompt: &'a str) -> (r: InputBarWidget<'a>)
        ensures
            r.text@ == self.text@,
            r.cursor_pos == self.cursor_pos,
            r.prompt@ == prompt@,
    {
        InputBarWidget { prompt, ..self }
    }

    /// What the bar shows: the prompt, then the text.
    pub fn display(&self) -> (r: String)
        ensures
            r@ == self.prompt@ + self.text@,
    {
        let mut out = chars_of(self.prompt);
        push_str_chars(&mut out, self.text);
        string_of(&out)
    }
}

} // verus!

//! The interface's state, and what it does with what arrives from the
//! server and what the user asks for.
//!
//! The functions here decide; the caller performs what they return
//! ([`AppEffect`]): sending commands to the connection and talking to
//! plugins.
use vstd::prelude::*;

use crate::collections::AssocList;
use crate::config::Config;
use crate::irc::channel::{
    arranged, keep_last, listed_before, now_millis, users_of, Channel, ChannelUser, ChatMessage, MessageKind,
};
use crate::irc::client::{command_model, ClientCommand, CommandModel, IrcEvent};
use crate::irc::command::{join_from, join_words};
use crate::irc::message::{strings_view, IrcMessage, MessageModel, Prefix, PrefixModel};
use crate::text::{chars_of, clone_text, lower, owned, push_decimal, push_str_chars, spec_decimal, str_eq, string_of, texts, to_lower};
use crate::ui::input::{input_wf, word_before_cursor, ActionModel, InputAction, InputModel, InputState};
use crate::ui::listing::{lemma_in_order_unique, lemma_name_order, name_before, name_before_exec, names_in_order};

verus! {

// ---------------------------------------------------------------------------
// The state and its model
// ---------------------------------------------------------------------------

/// The interface's state: the channels by name, which one is shown, the
/// server window, the input line, who we are, and the settings.
#[derive(Debug)]
pub struct App {
    pub channels: AssocList<Channel>,
    pub active_channel: Option<String>,
    pub server_messages: Vec<ChatMessage>,
    pub input: InputState,
    pub nick: String,
    pub server: String,
    pub user_modes: String,
    pub is_away: bool,
    pub scroll_offset: usize,
    pub running: bool,
    pub lag_ms: Option<u64>,
    pub config: Config,
}

/// A window line with its texts as character sequences.
pub struct MsgModel {
    pub ts: i64,
    pub sender: Seq<char>,
    pub content: Seq<char>,
    pub kind: MessageKind,
}

/// A channel with its texts as character sequences; users map the
/// nickname they are listed under to their nickname and status prefix.
pub struct ChannelModel {
    pub name: Seq<char>,
    pub topic: Option<Seq<char>>,
    pub users: Map<Seq<char>, (Seq<char>, Option<char>)>,
    pub modes: Set<char>,
    pub messages: Seq<MsgModel>,
    pub unread: int,
    pub max: int,
}

/// The interface's state, apart from the input line and the settings.
pub struct AppModel {
    pub channels: Map<Seq<char>, ChannelModel>,
    pub active: Option<Seq<char>>,
    pub server_messages: Seq<MsgModel>,
    pub nick: Seq<char>,
    pub server: Seq<char>,
    pub user_modes: Seq<char>,
    pub is_away: bool,
    pub scroll_offset: int,
    pub running: bool,
    pub lag_ms: Option<u64>,
    pub scrollback: int,
}

pub open spec fn opt_text(o: Option<String>) -> Option<Seq<char>> {
    match o {
        Some(s) => Some(s@),
        None => None,
    }
}

pub open spec fn msg_model(m: ChatMessage) -> MsgModel {
    MsgModel { ts: m.timestamp, sender: m.sender@, content: m.content@, kind: m.kind }
}

pub open spec fn msgs_model(s: Seq<ChatMessage>) -> Seq<MsgModel> {
    s.map_values(|m: ChatMessage| msg_model(m))
}

pub open spec fn user_model(u: ChannelUser) -> (Seq<char>, Option<char>) {
    (u.nick@, u.prefix)
}

pub open spec fn users_model(m: Map<Seq<char>, ChannelUser>) -> Map<Seq<char>, (Seq<char>, Option<char>)> {
    m.map_values(|u: ChannelUser| user_model(u))
}

pub open spec fn channels_model(m: Map<Seq<char>, Channel>) -> Map<Seq<char>, ChannelModel> {
    m.map_values(|c: Channel| channel_model(c))
}

pub open spec fn channel_model(c: Channel) -> ChannelModel {
    ChannelModel {
        name: c.name@,
        topic: opt_text(c.topic),
        users: users_model(c.users@),
        modes: c.modes@,
        messages: msgs_model(c.messages@),
        unread: c.unread_count as int,
        max: c.max_messages as int,
    }
}

impl View for App {
    type V = AppModel;

    open spec fn view(&self) -> AppModel {
        AppModel {
            channels: channels_model(self.channels@),
            active: opt_text(self.active_channel),
            server_messages: msgs_model(self.server_messages@),
            nick: self.nick@,
            server: self.server@,
            user_modes: self.user_modes@,
            is_away: self.is_away,
            scroll_offset: self.scroll_offset as int,
            running: self.running,
            lag_ms: self.lag_ms,
            scrollback: self.config.ui.scrollback_lines as int,
        }
    }
}

/// The tables are well formed.
pub open spec fn app_wf(a: &App) -> bool {
    &&& input_wf(a.input@)
    &&& a.channels.wf()
    &&& forall|k: Seq<char>| a.channels@.contains_key(k) ==> (#[trigger] a.channels@[k]).users.wf()
}

// ---------------------------------------------------------------------------
// What the state does, as operations on the model
// ---------------------------------------------------------------------------

/// A channel just opened, keeping at most `max` lines (all when 0).
pub open spec fn new_channel(name: Seq<char>, max: int) -> ChannelModel {
    ChannelModel {
        name,
        topic: None,
        users: Map::empty(),
        modes: Set::empty(),
        messages: seq![],
        unread: 0,
        max,
    }
}

/// The channel with a line added to its window.
pub open spec fn add_line(c: ChannelModel, m: MsgModel) -> ChannelModel {
    ChannelModel { messages: keep_last(c.messages.push(m), c.max), ..c }
}

/// The state with the channel `name` opened if it was not.
pub open spec fn ensure_open(a: AppModel, name: Seq<char>) -> AppModel {
    if a.channels.contains_key(name) {
        a
    } else {
        AppModel { channels: a.channels.insert(name, new_channel(name, a.scrollback)), ..a }
    }
}

/// The state with the channel `name` replaced by `c`.
pub open spec fn put_channel(a: AppModel, name: Seq<char>, c: ChannelModel) -> AppModel {
    AppModel { channels: a.channels.insert(name, c), ..a }
}

/// The state with a line added to the server window.
pub open spec fn server_line(a: AppModel, content: Seq<char>, kind: MessageKind, now: i64) -> AppModel {
    AppModel {
        server_messages: keep_last(
            a.server_messages.push(MsgModel { ts: now, sender: seq![], content, kind }),
            a.scrollback,
        ),
        ..a
    }
}

/// A name that stands for a channel: it starts with `#` or `&`.
pub open spec fn is_channel_name(t: Seq<char>) -> bool {
    t.len() > 0 && (t[0] == '#' || t[0] == '&')
}

/// `ACTION `.
pub open spec fn action_marker() -> Seq<char> {
    seq!['A', 'C', 'T', 'I', 'O', 'N', ' ']
}

/// What a PRIVMSG text shows as: a CTCP ACTION shows its text as an action,
/// anything else shows as it is.
pub open spec fn privmsg_line(text: Seq<char>) -> (MessageKind, Seq<char>) {
    if text.len() > 0 && text[0] == '\x01' && text.last() == '\x01' {
        let inner = text.subrange(1, text.len() - 1);
        if inner.len() >= 7 && inner.subrange(0, 7) == action_marker() {
            (MessageKind::Action, inner.skip(7))
        } else {
            (MessageKind::Normal, text)
        }
    } else {
        (MessageKind::Normal, text)
    }
}

/// Who sent a message: the nickname in its prefix, or `*`.
pub open spec fn sender_of(m: MessageModel) -> Seq<char> {
    match m.prefix {
        Some(PrefixModel::User { nick, .. }) => nick,
        _ => seq!['*'],
    }
}

/// The last parameter, or nothing.
pub open spec fn trailing_or_empty(m: MessageModel) -> Seq<char> {
    if m.params.len() > 0 {
        m.params.last()
    } else {
        seq![]
    }
}

/// A name from a NAMES reply: a leading `@` or `+` is the status prefix.
pub open spec fn names_entry(w: Seq<char>) -> (Seq<char>, Option<char>) {
    if w.len() > 0 && (w[0] == '@' || w[0] == '+') {
        (w.drop_first(), Some(w[0]))
    } else {
        (w, None)
    }
}

/// The users with the names of a NAMES reply added, in order.
pub open spec fn add_names(
    users: Map<Seq<char>, (Seq<char>, Option<char>)>,
    ws: Seq<Seq<char>>,
) -> Map<Seq<char>, (Seq<char>, Option<char>)>
    decreases ws.len(),
{
    if ws.len() == 0 {
        users
    } else {
        let e = names_entry(ws.last());
        add_names(users, ws.drop_last()).insert(e.0, e)
    }
}

/// The channel after `nick` quits: if they were in it, they leave with a
/// quit line.
pub open spec fn quit_from(c: ChannelModel, nick: Seq<char>, line: MsgModel) -> ChannelModel {
    if c.users.contains_key(nick) {
        add_line(ChannelModel { users: c.users.remove(nick), ..c }, line)
    } else {
        c
    }
}

/// The channel after `old` takes the nickname `new`: they are listed
/// under it, keeping their status, with a nick-change line.
pub open spec fn renamed_in(c: ChannelModel, old: Seq<char>, new: Seq<char>, line: MsgModel) -> ChannelModel {
    if c.users.contains_key(old) {
        add_line(
            ChannelModel { users: c.users.remove(old).insert(new, (new, c.users[old].1)), ..c },
            line,
        )
    } else {
        c
    }
}

/// The state after leaving the channel `name`. Whether another channel
/// must then be shown is the second part.
pub open spec fn leave(a: AppModel, name: Seq<char>) -> (AppModel, bool) {
    (AppModel { channels: a.channels.remove(name), ..a }, a.active == Some(name))
}

/// The state `s` once a channel has been left: when the one left was
/// shown, `after` shows one of those that remain, if any; otherwise it is
/// `s` itself.
pub open spec fn settled(s: (AppModel, bool), after: AppModel) -> bool {
    if s.1 {
        &&& after == AppModel { active: after.active, ..s.0 }
        &&& match after.active {
            Some(c) => s.0.channels.contains_key(c),
            None => s.0.channels.dom().len() == 0,
        }
    } else {
        after == s.0
    }
}

/// What the caller is asked to do.
pub enum EffectModel {
    Send(CommandModel),
    Dispatch(Seq<char>, Seq<char>, Seq<char>),
    LoadPlugin(Seq<char>),
    UnloadPlugin(Seq<char>),
    ListPlugins,
}

/// What the interface asks the caller to do.
#[derive(Debug)]
pub enum AppEffect {
    /// Send a command to the connection.
    Send(ClientCommand),
    /// Hand a message to the plugins (sender, target, text); each reply
    /// goes back to the target as a PRIVMSG.
    Dispatch(String, String, String),
    /// Load the plugin at this path, and report with [`App::plugin_loaded`].
    LoadPlugin(String),
    /// Unload the named plugin, and report with [`App::plugin_unloaded`].
    UnloadPlugin(String),
    /// List the plugins, and report with [`App::plugins_listed`].
    ListPlugins,
}

impl View for AppEffect {
    type V = EffectModel;

    open spec fn view(&self) -> EffectModel {
        match self {
            AppEffect::Send(c) => EffectModel::Send(command_model(*c)),
            AppEffect::Dispatch(s, t, m) => EffectModel::Dispatch(s@, t@, m@),
            AppEffect::LoadPlugin(p) => EffectModel::LoadPlugin(p@),
            AppEffect::UnloadPlugin(n) => EffectModel::UnloadPlugin(n@),
            AppEffect::ListPlugins => EffectModel::ListPlugins,
        }
    }
}

pub open spec fn effect_view(e: Option<AppEffect>) -> Option<EffectModel> {
    match e {
        Some(x) => Some(x@),
        None => None,
    }
}

/// The result of a step: the state, whether a channel that was shown was
/// left (so that another must be picked), and what the caller is asked to
/// do.
pub open spec fn unchanged(a: AppModel) -> ((AppModel, bool), Option<EffectModel>) {
    ((a, false), None)
}

/// A PRIVMSG: the line goes to the channel's window (opening it, and
/// counting it as unread unless the channel is shown) or, sent to us, to
/// the server window; the plugins get to see it.
pub open spec fn on_privmsg(a: AppModel, m: MessageModel, now: i64) -> ((AppModel, bool), Option<EffectModel>) {
    let nick = sender_of(m);
    let ps = m.params;
    if ps.len() == 0 {
        unchanged(a)
    } else {
        let target = ps[0];
        let shown = privmsg_line(ps.last());
        let l = MsgModel { ts: now, sender: nick, content: shown.1, kind: shown.0 };
        let eff = Some(EffectModel::Dispatch(nick, target, shown.1));
        if is_channel_name(target) {
            let a1 = ensure_open(a, target);
            let ch = add_line(a1.channels[target], l);
            let ch2 = if a.active != Some(target) {
                ChannelModel { unread: ch.unread + 1, ..ch }
            } else {
                ch
            };
            ((put_channel(a1, target, ch2), false), eff)
        } else {
            (
                (
                    server_line(a, seq!['<'] + nick + seq!['>', ' '] + shown.1, MessageKind::Normal, now),
                    false,
                ),
                eff,
            )
        }
    }
}

/// A JOIN: the channel is opened (and shown, when we joined), the user is
/// listed, and a join line added.
pub open spec fn on_join(a: AppModel, m: MessageModel, now: i64) -> ((AppModel, bool), Option<EffectModel>) {
    let nick = sender_of(m);
    let name = if m.params.len() > 0 {
        m.params[0]
    } else {
        seq![]
    };
    if name.len() == 0 {
        unchanged(a)
    } else {
        let a1 = ensure_open(a, name);
        let a2 = if nick == a.nick {
            AppModel { active: Some(name), ..a1 }
        } else {
            a1
        };
        let ch = a2.channels[name];
        let ch2 = add_line(
            ChannelModel { users: ch.users.insert(nick, (nick, None)), ..ch },
            MsgModel { ts: now, sender: nick, content: name, kind: MessageKind::Join },
        );
        ((put_channel(a2, name, ch2), false), None)
    }
}

/// A PART: the user leaves the channel with a part line; when we left, the
/// channel is closed.
pub open spec fn on_part(a: AppModel, m: MessageModel, now: i64) -> ((AppModel, bool), Option<EffectModel>) {
    let nick = sender_of(m);
    let ps = m.params;
    if ps.len() == 0 {
        unchanged(a)
    } else {
        let name = ps[0];
        let a1 = if a.channels.contains_key(name) {
            let ch = a.channels[name];
            put_channel(
                a,
                name,
                add_line(
                    ChannelModel { users: ch.users.remove(nick), ..ch },
                    MsgModel {
                        ts: now,
                        sender: nick,
                        content: name + seq![' ', '('] + ps.last() + seq![')'],
                        kind: MessageKind::Part,
                    },
                ),
            )
        } else {
            a
        };
        if nick == a.nick {
            (leave(a1, name), None)
        } else {
            ((a1, false), None)
        }
    }
}

/// A QUIT: the user leaves every channel they were in, with a quit line.
pub open spec fn on_quit(a: AppModel, m: MessageModel, now: i64) -> ((AppModel, bool), Option<EffectModel>) {
    let nick = sender_of(m);
    let l = MsgModel { ts: now, sender: nick, content: trailing_or_empty(m), kind: MessageKind::Quit };
    ((AppModel { channels: a.channels.map_values(|c: ChannelModel| quit_from(c, nick, l)), ..a }, false), None)
}

/// The nickname a NICK message gives: its last parameter, or the sender's.
pub open spec fn nick_target(m: MessageModel) -> Seq<char> {
    if m.params.len() > 0 {
        m.params.last()
    } else {
        sender_of(m)
    }
}

/// A NICK: the user is listed under the new nickname in every channel they
/// are in, with a line; when it was us, our nickname changes.
pub open spec fn on_nick(a: AppModel, m: MessageModel, now: i64) -> ((AppModel, bool), Option<EffectModel>) {
    let nick = sender_of(m);
    let new_nick = nick_target(m);
    let l = MsgModel { ts: now, sender: nick, content: new_nick, kind: MessageKind::Nick };
    (
        (
            AppModel {
                nick: if nick == a.nick {
                    new_nick
                } else {
                    a.nick
                },
                channels: a.channels.map_values(|c: ChannelModel| renamed_in(c, nick, new_nick, l)),
                ..a
            },
            false,
        ),
        None,
    )
}

/// A KICK: the kicked user leaves the channel with a line; when it was us,
/// the channel is closed.
pub open spec fn on_kick(a: AppModel, m: MessageModel, now: i64) -> ((AppModel, bool), Option<EffectModel>) {
    let nick = sender_of(m);
    let ps = m.params;
    if ps.len() < 2 {
        unchanged(a)
    } else {
        let name = ps[0];
        let kicked = ps[1];
        let a1 = if a.channels.contains_key(name) {
            let ch = a.channels[name];
            put_channel(
                a,
                name,
                add_line(
                    ChannelModel { users: ch.users.remove(kicked), ..ch },
                    MsgModel {
                        ts: now,
                        sender: kicked,
                        content: seq!['b', 'y', ' '] + nick + seq![' ', '('] + ps.last() + seq![')'],
                        kind: MessageKind::Kick,
                    },
                ),
            )
        } else {
            a
        };
        if kicked == a.nick {
            (leave(a1, name), None)
        } else {
            ((a1, false), None)
        }
    }
}

/// A MODE: a channel's change is shown in its window; a change of our own
/// modes is kept as our modes.
pub open spec fn on_mode(a: AppModel, m: MessageModel, now: i64) -> ((AppModel, bool), Option<EffectModel>) {
    let nick = sender_of(m);
    let ps = m.params;
    if ps.len() == 0 {
        unchanged(a)
    } else {
        let target = ps[0];
        let modes = join_words(ps.skip(1), seq![' ']);
        if is_channel_name(target) {
            if a.channels.contains_key(target) {
                (
                    (
                        put_channel(
                            a,
                            target,
                            add_line(
                                a.channels[target],
                                MsgModel { ts: now, sender: nick, content: modes, kind: MessageKind::Mode },
                            ),
                        ),
                        false,
                    ),
                    None,
                )
            } else {
                unchanged(a)
            }
        } else if target == a.nick {
            ((AppModel { user_modes: modes, ..a }, false), None)
        } else {
            unchanged(a)
        }
    }
}

/// A TOPIC: an open channel takes the new topic, with a line.
pub open spec fn on_topic(a: AppModel, m: MessageModel, now: i64) -> ((AppModel, bool), Option<EffectModel>) {
    let nick = sender_of(m);
    let ps = m.params;
    if ps.len() > 0 && a.channels.contains_key(ps[0]) {
        let ch = a.channels[ps[0]];
        (
            (
                put_channel(
                    a,
                    ps[0],
                    add_line(
                        ChannelModel { topic: Some(ps.last()), ..ch },
                        MsgModel { ts: now, sender: nick, content: ps.last(), kind: MessageKind::Topic },
                    ),
                ),
                false,
            ),
            None,
        )
    } else {
        unchanged(a)
    }
}

/// A NAMES reply (353): the channel is opened and the names listed.
pub open spec fn on_names(a: AppModel, m: MessageModel) -> ((AppModel, bool), Option<EffectModel>) {
    let ps = m.params;
    if ps.len() > 2 {
        let a1 = ensure_open(a, ps[2]);
        let ch = a1.channels[ps[2]];
        (
            (
                put_channel(
                    a1,
                    ps[2],
                    ChannelModel { users: add_names(ch.users, crate::text::words(ps.last())), ..ch },
                ),
                false,
            ),
            None,
        )
    } else {
        unchanged(a)
    }
}

/// A topic reply (332): the channel is opened and takes the topic.
pub open spec fn on_topic_reply(a: AppModel, m: MessageModel) -> ((AppModel, bool), Option<EffectModel>) {
    let ps = m.params;
    if ps.len() > 1 {
        let a1 = ensure_open(a, ps[1]);
        let ch = a1.channels[ps[1]];
        ((put_channel(a1, ps[1], ChannelModel { topic: Some(ps.last()), ..ch }), false), None)
    } else {
        unchanged(a)
    }
}

/// What an IRC message does: by its command; a NOTICE goes to the server
/// window, and so does the text of anything else not listed.
pub open spec fn on_message(a: AppModel, m: MessageModel, now: i64) -> ((AppModel, bool), Option<EffectModel>) {
    let nick = sender_of(m);
    let ps = m.params;
    let cmd = m.command;
    if cmd == "PRIVMSG"@ {
        on_privmsg(a, m, now)
    } else if cmd == "JOIN"@ {
        on_join(a, m, now)
    } else if cmd == "PART"@ {
        on_part(a, m, now)
    } else if cmd == "QUIT"@ {
        on_quit(a, m, now)
    } else if cmd == "NICK"@ {
        on_nick(a, m, now)
    } else if cmd == "KICK"@ {
        on_kick(a, m, now)
    } else if cmd == "MODE"@ {
        on_mode(a, m, now)
    } else if cmd == "TOPIC"@ {
        on_topic(a, m, now)
    } else if cmd == "NOTICE"@ {
        if ps.len() > 0 {
            ((server_line(a, seq!['-'] + nick + seq!['-', ' '] + ps.last(), MessageKind::Notice, now), false), None)
        } else {
            unchanged(a)
        }
    } else if cmd == "353"@ {
        on_names(a, m)
    } else if cmd == "332"@ {
        on_topic_reply(a, m)
    } else if ps.len() > 0 {
        ((server_line(a, ps.last(), MessageKind::System, now), false), None)
    } else {
        unchanged(a)
    }
}

/// The messages the interface cannot take: a PRIVMSG whose text is a lone
/// `\x01` (reading its CTCP body would slice past its end).
pub open spec fn message_ok(m: MessageModel) -> bool {
    !(m.command == "PRIVMSG"@ && m.params.len() > 0 && m.params.last() == seq!['\x01'])
}

/// Room for one more unread line in every open channel.
pub open spec fn unread_room(a: AppModel) -> bool {
    forall|k: Seq<char>| a.channels.contains_key(k) ==> (#[trigger] a.channels[k]).unread < usize::MAX
}

/// The events the interface cannot take: a message it cannot take.
pub open spec fn event_ok(e: IrcEvent) -> bool {
    match e {
        IrcEvent::Message(m) => message_ok(m@),
        _ => true,
    }
}

/// What an event from the connection does: a connection, a disconnection
/// or an error is told in the server window, a lag measure is kept, and a
/// message goes by its command.
pub open spec fn on_event(a: AppModel, e: IrcEvent, now: i64) -> ((AppModel, bool), Option<EffectModel>) {
    match e {
        IrcEvent::Connected => ((server_line(a, "Connected to server"@, MessageKind::System, now), false), None),
        IrcEvent::Disconnected(reason) => (
            (server_line(a, "Disconnected: "@ + reason@, MessageKind::Error, now), false),
            None,
        ),
        IrcEvent::Error(err) => ((server_line(a, "Error: "@ + err@, MessageKind::Error, now), false), None),
        IrcEvent::LagUpdate(ms) => ((AppModel { lag_ms: Some(ms), ..a }, false), None),
        IrcEvent::Message(m) => on_message(a, m@, now),
    }
}

/// The names in a channel listing.
pub open spec fn listed_names(l: Seq<(Seq<char>, usize)>) -> Seq<Seq<char>> {
    l.map_values(|p: (Seq<char>, usize)| p.0)
}

/// A channel listing with its names as character sequences.
pub open spec fn pairs_view(v: Seq<(String, usize)>) -> Seq<(Seq<char>, usize)> {
    v.map_values(|p: (String, usize)| (p.0@, p.1))
}

/// `l` lists each open channel once, in order, with how many of its lines
/// arrived while it was not shown.
pub open spec fn listing(l: Seq<(Seq<char>, usize)>, a: AppModel) -> bool {
    &&& names_in_order(listed_names(l))
    &&& forall|k: Seq<char>| a.channels.contains_key(k) <==> listed_names(l).contains(k)
    &&& forall|i: int| 0 <= i < l.len() ==> (#[trigger] l[i]).1 == a.channels[l[i].0].unread
}

/// There is one listing of the channels.
pub proof fn lemma_listing_unique(l1: Seq<(Seq<char>, usize)>, l2: Seq<(Seq<char>, usize)>, a: AppModel)
    requires
        listing(l1, a),
        listing(l2, a),
    ensures
        l1 == l2,
{
    let n1 = listed_names(l1);
    let n2 = listed_names(l2);
    assert forall|x: Seq<char>| n1.contains(x) <==> n2.contains(x) by {
        if n1.contains(x) {
            assert(a.channels.contains_key(x));
        }
        if n2.contains(x) {
            assert(a.channels.contains_key(x));
        }
    }
    lemma_in_order_unique(n1, n2);
    assert(l1.len() == n1.len() && l2.len() == n2.len());
    assert forall|i: int| 0 <= i < l1.len() implies l1[i] == l2[i] by {
        assert(n1[i] == l1[i].0 && n2[i] == l2[i].0);
    }
    assert(l1 =~= l2);
}

/// The place after `idx` among `len` places, going forward or back and
/// wrapping round: `(idx + 1) mod len` or `(idx - 1) mod len`.
pub open spec fn step_index(idx: int, forward: bool, len: int) -> int {
    if forward {
        if idx + 1 == len {
            0
        } else {
            idx + 1
        }
    } else {
        if idx == 0 {
            len - 1
        } else {
            idx - 1
        }
    }
}

/// Where `n` stands in `names`.
pub open spec fn position_of(names: Seq<Seq<char>>, n: Seq<char>) -> int {
    choose|i: int| 0 <= i < names.len() && names[i] == n
}

/// The state after moving to the next channel of the listing `l`, or the
/// previous one: it is shown, its lines count as read, and the window
/// goes back to its end. When the channel shown is not listed the first
/// is shown; with no channel open nothing changes.
pub open spec fn switched(a: AppModel, l: Seq<(Seq<char>, usize)>, forward: bool) -> AppModel {
    if l.len() == 0 {
        a
    } else {
        let names = listed_names(l);
        let next = match a.active {
            Some(n) => if names.contains(n) {
                step_index(position_of(names, n), forward, l.len() as int)
            } else {
                0
            },
            None => 0,
        };
        let name = names[next];
        AppModel {
            active: Some(name),
            channels: a.channels.insert(name, ChannelModel { unread: 0, ..a.channels[name] }),
            scroll_offset: 0,
            ..a
        }
    }
}

/// The arguments from the `k`-th on, with a space between them.
pub open spec fn rest_of(args: Seq<Seq<char>>, k: int) -> Seq<char> {
    join_words(args.skip(k), seq![' '])
}

/// The arguments from the `k`-th on as one text, if there are any.
pub open spec fn opt_rest(args: Seq<Seq<char>>, k: int) -> Option<Seq<char>> {
    if args.len() > k {
        Some(rest_of(args, k))
    } else {
        None
    }
}

/// A command that sends `c`.
pub open spec fn send(c: CommandModel) -> Option<EffectModel> {
    Some(EffectModel::Send(c))
}

/// What a command typed by the user does, by its name: most ask the
/// connection to send something, `QUIT` also stops the interface, `AWAY`
/// marks us away when it has a reason, the plugin commands ask for plugin
/// work (or say how to use them), and any other command goes to the server
/// as it was typed.
pub open spec fn on_command(a: AppModel, cmd: Seq<char>, args: Seq<Seq<char>>, now: i64) -> (AppModel, Option<EffectModel>) {
    if cmd == "JOIN"@ || cmd == "J"@ {
        (a, if args.len() > 0 { send(CommandModel::Join(args[0])) } else { None })
    } else if cmd == "PART"@ || cmd == "LEAVE"@ {
        let channel = if args.len() > 0 { Some(args[0]) } else { a.active };
        (a, match channel {
            Some(c) => send(CommandModel::Part(c, opt_rest(args, 1))),
            None => None,
        })
    } else if cmd == "MSG"@ || cmd == "PRIVMSG"@ {
        (a, if args.len() >= 2 { send(CommandModel::Privmsg(args[0], rest_of(args, 1))) } else { None })
    } else if cmd == "NICK"@ {
        (a, if args.len() > 0 { send(CommandModel::Nick(args[0])) } else { None })
    } else if cmd == "QUIT"@ || cmd == "EXIT"@ {
        (AppModel { running: false, ..a }, send(CommandModel::Quit(opt_rest(args, 0))))
    } else if cmd == "TOPIC"@ {
        (a, match a.active {
            Some(c) => send(CommandModel::Topic(c, opt_rest(args, 0))),
            None => None,
        })
    } else if cmd == "AWAY"@ {
        (AppModel { is_away: args.len() > 0, ..a }, send(CommandModel::Away(opt_rest(args, 0))))
    } else if cmd == "MODE"@ {
        (a, if args.len() >= 2 { send(CommandModel::Mode(args[0], rest_of(args, 1))) } else { None })
    } else if cmd == "KICK"@ {
        (a, match a.active {
            Some(c) => if args.len() > 0 { send(CommandModel::Kick(c, args[0], opt_rest(args, 1))) } else { None },
            None => None,
        })
    } else if cmd == "LOADDLL"@ {
        if args.len() > 0 {
            (a, Some(EffectModel::LoadPlugin(args[0])))
        } else {
            (server_line(a, "Usage: /loaddll <path>"@, MessageKind::Error, now), None)
        }
    } else if cmd == "UNLOADDLL"@ {
        if args.len() > 0 {
            (a, Some(EffectModel::UnloadPlugin(args[0])))
        } else {
            (server_line(a, "Usage: /unloaddll <name>"@, MessageKind::Error, now), None)
        }
    } else if cmd == "LISTDLL"@ {
        (a, Some(EffectModel::ListPlugins))
    } else {
        (a, send(CommandModel::SendRaw(if args.len() == 0 { cmd } else { cmd + seq![' '] + rest_of(args, 0) })))
    }
}

/// The nicknames of `us` that start with `partial`, compared in lower
/// case, in order.
pub open spec fn matching_nicks(us: Seq<ChannelUser>, partial: Seq<char>) -> Seq<Seq<char>>
    decreases us.len(),
{
    if us.len() == 0 {
        Seq::empty()
    } else {
        let rest = matching_nicks(us.drop_last(), partial);
        if lower(partial).is_prefix_of(lower(us.last().nick@)) {
            rest.push(us.last().nick@)
        } else {
            rest
        }
    }
}

/// The input line once Tab asks for completions: the nicknames in the
/// channel shown that start with the word the cursor ends become the
/// completions, in the order the channel lists its users.
pub open spec fn completed_input(a: &App) -> InputModel {
    match a.active_channel {
        Some(n) => if a.channels@.contains_key(n@) {
            InputModel {
                tab_completions: matching_nicks(
                    a.channels@[n@].users.value_seq(),
                    word_before_cursor(a.input@.buffer, a.input@.cursor),
                ),
                tab_index: None,
                ..a.input@
            }
        } else {
            a.input@
        },
        None => a.input@,
    }
}

/// What an action from the input line does, given the listing `l` of the
/// channels: a line typed goes to the channel shown (and is shown there),
/// a command does what it names, scrolling moves the window by five lines,
/// and the channel keys move through the listing.
pub open spec fn on_action(a: AppModel, act: ActionModel, now: i64, l: Seq<(Seq<char>, usize)>) -> (
    AppModel,
    Option<EffectModel>,
) {
    match act {
        ActionModel::SendMessage(text) => match a.active {
            Some(t) => (
                AppModel {
                    channels: if a.channels.contains_key(t) {
                        a.channels.insert(
                            t,
                            add_line(
                                a.channels[t],
                                MsgModel { ts: now, sender: a.nick, content: text, kind: MessageKind::Normal },
                            ),
                        )
                    } else {
                        a.channels
                    },
                    scroll_offset: 0,
                    ..a
                },
                send(CommandModel::Privmsg(t, text)),
            ),
            None => (AppModel { scroll_offset: 0, ..a }, None),
        },
        ActionModel::Command(c, args) => {
            let r = on_command(a, c, args, now);
            (AppModel { scroll_offset: 0, ..r.0 }, r.1)
        },
        ActionModel::ScrollUp => (
            AppModel {
                scroll_offset: if a.scroll_offset + 5 > usize::MAX {
                    usize::MAX as int
                } else {
                    a.scroll_offset + 5
                },
                ..a
            },
            None,
        ),
        ActionModel::ScrollDown => (
            AppModel {
                scroll_offset: if a.scroll_offset < 5 {
                    0
                } else {
                    a.scroll_offset - 5
                },
                ..a
            },
            None,
        ),
        ActionModel::PreviousChannel => (switched(a, l, false), None),
        ActionModel::NextChannel => (switched(a, l, true), None),
        _ => (a, None),
    }
}

/// The state after the lines `ls` are added to the server window, in
/// order.
pub open spec fn server_lines(a: AppModel, ls: Seq<Seq<char>>, kind: MessageKind, now: i64) -> AppModel
    decreases ls.len(),
{
    if ls.len() == 0 {
        a
    } else {
        server_line(server_lines(a, ls.drop_last(), kind, now), ls.last(), kind, now)
    }
}

/// A plugin (name, version, description, path) as a line of the plugin
/// list.
pub open spec fn plugin_line(p: (Seq<char>, Seq<char>, Seq<char>, Seq<char>)) -> Seq<char> {
    "  "@ + p.0 + " v"@ + p.1 + " - "@ + p.2 + " ("@ + p.3 + ")"@
}

/// The lines that report the plugins loaded.
pub open spec fn plugin_report(ps: Seq<(Seq<char>, Seq<char>, Seq<char>, Seq<char>)>) -> Seq<Seq<char>> {
    if ps.len() == 0 {
        seq!["No plugins loaded"@]
    } else {
        seq!["Loaded plugins ("@ + spec_decimal(ps.len()) + "):"@] + ps.map_values(
            |p: (Seq<char>, Seq<char>, Seq<char>, Seq<char>)| plugin_line(p),
        )
    }
}

/// A list of plugins with its texts as character sequences.
pub open spec fn plugins_view(v: Seq<(String, String, String, String)>) -> Seq<
    (Seq<char>, Seq<char>, Seq<char>, Seq<char>),
> {
    v.map_values(|p: (String, String, String, String)| (p.0@, p.1@, p.2@, p.3@))
}

/// The lines a window shows: those of the channel shown, or the server
/// window's when no open channel is shown.
pub open spec fn shown_lines(a: AppModel) -> Seq<MsgModel> {
    match a.active {
        Some(n) => if a.channels.contains_key(n) {
            a.channels[n].messages
        } else {
            a.server_messages
        },
        None => a.server_messages,
    }
}

/// The state with each of `names` opened, in order, when it was not: these
/// channels keep all their lines.
pub open spec fn opened(a: AppModel, names: Seq<Seq<char>>) -> AppModel
    decreases names.len(),
{
    if names.len() == 0 {
        a
    } else {
        let b = opened(a, names.drop_last());
        let n = names.last();
        if b.channels.contains_key(n) {
            b
        } else {
            AppModel { channels: b.channels.insert(n, new_channel(n, 0)), ..b }
        }
    }
}

/// `after` and `e` are what the action `act` does to `a` at the time
/// `now`, taking the one listing of the channels.
pub open spec fn action_result(
    a: AppModel,
    act: ActionModel,
    now: i64,
    after: AppModel,
    e: Option<EffectModel>,
) -> bool {
    forall|l: Seq<(Seq<char>, usize)>| listing(l, a) ==> (after, e) == #[trigger] on_action(a, act, now, l)
}

/// The state once loading a plugin is reported: its name, or why it
/// failed.
pub open spec fn load_report(a: AppModel, result: Result<String, String>, now: i64) -> AppModel {
    match result {
        Ok(name) => server_line(a, "Plugin '"@ + name@ + "' loaded successfully"@, MessageKind::System, now),
        Err(e) => server_line(a, "Failed to load plugin: "@ + e@, MessageKind::Error, now),
    }
}

/// The state once unloading the plugin `name` is reported.
pub open spec fn unload_report(a: AppModel, name: Seq<char>, result: Result<(), String>, now: i64) -> AppModel {
    match result {
        Ok(_) => server_line(a, "Plugin '"@ + name + "' unloaded successfully"@, MessageKind::System, now),
        Err(e) => server_line(a, "Failed to unload plugin: "@ + e@, MessageKind::Error, now),
    }
}

/// The channels with those among the first `i` of `keys` after `nick`
/// quits.
pub open spec fn quit_upto(
    chs: Map<Seq<char>, ChannelModel>,
    keys: Seq<Seq<char>>,
    i: int,
    nick: Seq<char>,
    l: MsgModel,
) -> Map<Seq<char>, ChannelModel> {
    Map::new(
        |k: Seq<char>| chs.contains_key(k),
        |k: Seq<char>|
            if keys.take(i).contains(k) {
                quit_from(chs[k], nick, l)
            } else {
                chs[k]
            },
    )
}

/// The channels with those among the first `i` of `keys` after `old`
/// takes the nickname `new`.
pub open spec fn renamed_upto(
    chs: Map<Seq<char>, ChannelModel>,
    keys: Seq<Seq<char>>,
    i: int,
    old: Seq<char>,
    new: Seq<char>,
    l: MsgModel,
) -> Map<Seq<char>, ChannelModel> {
    Map::new(
        |k: Seq<char>| chs.contains_key(k),
        |k: Seq<char>|
            if keys.take(i).contains(k) {
                renamed_in(chs[k], old, new, l)
            } else {
                chs[k]
            },
    )
}

proof fn lemma_users_insert(m: Map<Seq<char>, ChannelUser>, k: Seq<char>, u: ChannelUser)
    ensures
        users_model(m.insert(k, u)) == users_model(m).insert(k, user_model(u)),
{
    assert(users_model(m.insert(k, u)) =~= users_model(m).insert(k, user_model(u)));
}

proof fn lemma_users_remove(m: Map<Seq<char>, ChannelUser>, k: Seq<char>)
    ensures
        users_model(m.remove(k)) == users_model(m).remove(k),
{
    assert(users_model(m.remove(k)) =~= users_model(m).remove(k));
}

proof fn lemma_channels_insert(m: Map<Seq<char>, Channel>, k: Seq<char>, c: Channel)
    ensures
        channels_model(m.insert(k, c)) == channels_model(m).insert(k, channel_model(c)),
{
    assert(channels_model(m.insert(k, c)) =~= channels_model(m).insert(k, channel_model(c)));
}

proof fn lemma_channels_remove(m: Map<Seq<char>, Channel>, k: Seq<char>)
    ensures
        channels_model(m.remove(k)) == channels_model(m).remove(k),
{
    assert(channels_model(m.remove(k)) =~= channels_model(m).remove(k));
}

proof fn lemma_lines_keep_last(s: Seq<ChatMessage>, m: ChatMessage, max: int)
    ensures
        msgs_model(keep_last(s.push(m), max)) == keep_last(msgs_model(s).push(msg_model(m)), max),
{
    assert(msgs_model(s.push(m)) =~= msgs_model(s).push(msg_model(m)));
    if max > 0 && s.len() + 1 > max {
        assert(msgs_model(keep_last(s.push(m), max)) =~= keep_last(msgs_model(s).push(msg_model(m)), max));
    }
}

/// A window line.
fn line(ts: i64, sender: String, content: String, kind: MessageKind) -> (r: ChatMessage)
    ensures
        msg_model(r) == (MsgModel { ts, sender: sender@, content: content@, kind }),
{
    ChatMessage { timestamp: ts, sender, content, kind }
}

/// Adds a line to a channel's window.
fn add_to(c: &mut Channel, m: ChatMessage)
    ensures
        channel_model(*final(c)) == add_line(channel_model(*old(c)), msg_model(m)),
        final(c).users == old(c).users,
{
    proof {
        lemma_lines_keep_last(c.messages@, m, c.max_messages as int);
    }
    c.add_message(m);
}

/// Who sent a message: the nickname in its prefix, or `*`.
fn sender(msg: &IrcMessage) -> (r: String)
    ensures
        r@ == sender_of(msg@),
{
    match &msg.prefix {
        Some(Prefix::User { nick, .. }) => nick.clone(),
        _ => {
            let mut v: Vec<char> = Vec::new();
            v.push('*');
            string_of(&v)
        },
    }
}

/// Whether `t` names a channel.
fn is_channel(t: &str) -> (r: bool)
    ensures
        r == is_channel_name(t@),
{
    let v = chars_of(t);
    v.len() > 0 && (v[0] == '#' || v[0] == '&')
}

/// How a PRIVMSG text is shown: an ACTION as its text, anything else as is.
fn privmsg_text(text: &str) -> (r: (MessageKind, String))
    requires
        text@ != seq!['\x01'],
    ensures
        (r.0, r.1@) == privmsg_line(text@),
{
    let v = chars_of(text);
    let n = v.len();
    if n > 0 && v[0] == '\x01' && v[n - 1] == '\x01' {
        assert(n >= 2) by {
            if n == 1 {
                assert(text@ =~= seq!['\x01']);
            }
        }
        let ghost inner = v@.subrange(1, n - 1);
        let action = n - 2 >= 7 && v[1] == 'A' && v[2] == 'C' && v[3] == 'T' && v[4] == 'I' && v[5]
            == 'O' && v[6] == 'N' && v[7] == ' ';
        proof {
            if inner.len() >= 7 {
                assert(action == (inner.subrange(0, 7) =~= action_marker()));
            }
        }
        if action {
            let body = crate::text::string_of_range(&v, 8, n - 1);
            assert(body@ =~= inner.skip(7));
            (MessageKind::Action, body)
        } else {
            (MessageKind::Normal, owned(text))
        }
    } else {
        (MessageKind::Normal, owned(text))
    }
}

/// The parameters of `msg` from the `k`-th on, with a space between them.
fn join_params(msg: &IrcMessage, k: usize) -> (r: String)
    requires
        k <= msg.params@.len(),
    ensures
        r@ == join_words(strings_view(msg.params@).skip(k as int), seq![' ']),
{
    join_from(&msg.params, k)
}

/// Whether `v` starts with `p`.
fn starts_with_chars(v: &Vec<char>, p: &Vec<char>) -> (r: bool)
    ensures
        r == p@.is_prefix_of(v@),
{
    if p.len() > v.len() {
        return false;
    }
    let mut i: usize = 0;
    while i < p.len()
        invariant
            i <= p@.len() <= v@.len(),
            forall|j: int| 0 <= j < i ==> p@[j] == v@[j],
        decreases p@.len() - i,
    {
        if p[i] != v[i] {
            assert(p@[i as int] != v@.subrange(0, p@.len() as int)[i as int]);
            return false;
        }
        i += 1;
    }
    assert(p@ =~= v@.subrange(0, p@.len() as int));
    true
}

/// The nicknames among the users that start with `partial`, compared in
/// lower case, in the order the users are listed.
fn completions_for(users: &AssocList<ChannelUser>, partial: &str) -> (r: Vec<String>)
    requires
        users.wf(),
    ensures
        texts(r@) == matching_nicks(users.value_seq(), partial@),
{
    proof {
        users.lemma_order();
    }
    let lp = chars_of(to_lower(partial).as_str());
    let n = users.len();
    let ghost vals = users.value_seq();
    let mut out: Vec<String> = Vec::new();
    let mut i: usize = 0;
    assert(vals.take(0) =~= Seq::<ChannelUser>::empty());
    while i < n
        invariant
            users.wf(),
            n == vals.len(),
            vals == users.value_seq(),
            vals.len() == users.key_seq().len(),
            i <= n,
            lp@ == lower(partial@),
            texts(out@) == matching_nicks(vals.take(i as int), partial@),
        decreases n - i,
    {
        let u = users.value_at(i);
        let ln = chars_of(to_lower(u.nick.as_str()).as_str());
        let ok = starts_with_chars(&ln, &lp);
        proof {
            assert(vals.take(i + 1).drop_last() =~= vals.take(i as int));
            assert(vals.take(i + 1).last() == vals[i as int]);
        }
        if ok {
            let ghost before = out@;
            out.push(u.nick.clone());
            assert(texts(out@) =~= texts(before).push(u.nick@));
        }
        i += 1;
    }
    assert(vals.take(n as int) =~= vals);
    out
}

impl App {
    /// Opens the channel `name` if it is not open, keeping as many lines as
    /// the server window.
    fn ensure_channel(&mut self, name: &str)
        requires
            app_wf(old(self)),
        ensures
            app_wf(final(self)),
            final(self)@ == ensure_open(old(self)@, name@),
            final(self).input == old(self).input,
            final(self).config == old(self).config,
    {
        if !self.channels.contains_key(name) {
            let mut ch = Channel::new(crate::text::owned(name));
            ch.max_messages = self.config.ui.scrollback_lines;
            proof {
                lemma_channels_insert(self.channels@, name@, ch);
                assert(users_model(ch.users@) =~= Map::<Seq<char>, (Seq<char>, Option<char>)>::empty());
                assert(msgs_model(ch.messages@) =~= Seq::<MsgModel>::empty());
            }
            self.channels.insert(crate::text::owned(name), ch);
        }
    }

    /// Takes the channel `name` out of the table.
    fn take_channel(&mut self, name: &str) -> (r: Option<Channel>)
        requires
            app_wf(old(self)),
        ensures
            app_wf(final(self)),
            final(self)@ == (AppModel { channels: old(self)@.channels.remove(name@), ..old(self)@ }),
            final(self).input == old(self).input,
            final(self).config == old(self).config,
            match r {
                Some(c) => old(self)@.channels.contains_key(name@) && channel_model(c)
                    == old(self)@.channels[name@] && c.users.wf(),
                None => !old(self)@.channels.contains_key(name@),
            },
    {
        proof {
            lemma_channels_remove(self.channels@, name@);
        }
        self.channels.remove(name)
    }

    /// Puts the channel `c` in the table under `name`.
    fn put_channel(&mut self, name: String, c: Channel)
        requires
            app_wf(old(self)),
            c.users.wf(),
        ensures
            app_wf(final(self)),
            final(self)@ == put_channel(old(self)@, name@, channel_model(c)),
            final(self).input == old(self).input,
            final(self).config == old(self).config,
    {
        proof {
            lemma_channels_insert(self.channels@, name@, c);
        }
        self.channels.insert(name, c);
    }

    /// Adds a line to the server window.
    fn add_server_message(&mut self, content: String, kind: MessageKind, now: i64)
        ensures
            final(self)@ == server_line(old(self)@, content@, kind, now),
            final(self).channels == old(self).channels,
            final(self).input == old(self).input,
            final(self).config == old(self).config,
    {
        let m = line(now, String::new(), content, kind);
        proof {
            lemma_lines_keep_last(self.server_messages@, m, self.config.ui.scrollback_lines as int);
        }
        self.server_messages.push(m);
        let max = self.config.ui.scrollback_lines;
        let len = self.server_messages.len();
        if max > 0 && len > max {
            let kept = self.server_messages.split_off(len - max);
            self.server_messages = kept;
        }
    }

    /// When the channel shown was closed: shows one of those left, or none.
    fn reselect(&mut self)
        requires
            app_wf(old(self)),
        ensures
            app_wf(final(self)),
            final(self)@ == (AppModel { active: final(self)@.active, ..old(self)@ }),
            match final(self)@.active {
                Some(c) => old(self)@.channels.contains_key(c),
                None => old(self)@.channels.dom().len() == 0,
            },
            final(self).channels == old(self).channels,
            final(self).input == old(self).input,
            final(self).config == old(self).config,
    {
        proof {
            self.channels.lemma_order();
        }
        let n = self.channels.len();
        if n == 0 {
            self.active_channel = None;
            assert(self@.channels.dom() =~= self.channels@.dom());
        } else {
            let first = self.channels.key_at(0).clone();
            proof {
                assert(self.channels.key_seq().contains(self.channels.key_seq()[0]));
            }
            self.active_channel = Some(first);
        }
    }

    /// The names of the open channels, in the table's order.
    fn channel_names(&self) -> (r: Vec<String>)
        requires
            app_wf(self),
        ensures
            texts(r@) == self.channels.key_seq(),
            self.channels.key_seq().no_duplicates(),
            forall|k: Seq<char>| self.channels@.contains_key(k) <==> self.channels.key_seq().contains(k),
    {
        proof {
            self.channels.lemma_order();
        }
        let n = self.channels.len();
        let mut out: Vec<String> = Vec::new();
        let mut i: usize = 0;
        while i < n
            invariant
                app_wf(self),
                n == self.channels.key_seq().len(),
                i <= n,
                texts(out@) == self.channels.key_seq().take(i as int),
            decreases n - i,
        {
            let k = self.channels.key_at(i).clone();
            let ghost before = out@;
            out.push(k);
            assert(texts(out@) =~= texts(before).push(k@));
            assert(texts(out@) =~= self.channels.key_seq().take(i + 1));
            i += 1;
        }
        assert(self.channels.key_seq().take(n as int) =~= self.channels.key_seq());
        out
    }


    /// A PRIVMSG.
    fn on_privmsg(&mut self, msg: &IrcMessage, now: i64) -> (r: Option<AppEffect>)
        requires
            app_wf(old(self)),
            message_ok(msg@),
            msg@.command == "PRIVMSG"@,
            forall|k: Seq<char>|
                old(self)@.channels.contains_key(k) ==> (#[trigger] old(self)@.channels[k]).unread < usize::MAX,
        ensures
            app_wf(final(self)),
            settled(on_privmsg(old(self)@, msg@, now).0, final(self)@),
            effect_view(r) == on_privmsg(old(self)@, msg@, now).1,
            final(self).input == old(self).input,
            final(self).config == old(self).config,
    {
        if msg.params.len() == 0 {
            return None;
        }
        let nick = sender(msg);
        let target = msg.params[0].clone();
        let text = msg.params[msg.params.len() - 1].as_str();
        proof {
            assert(strings_view(msg.params@).last() == text@);
        }
        let (kind, content) = privmsg_text(text);
        let dispatch = AppEffect::Dispatch(nick.clone(), target.clone(), content.clone());
        if is_channel(target.as_str()) {
            let ghost a = self@;
            self.ensure_channel(target.as_str());
            let ghost a1 = self@;
            let mut ch = self.take_channel(target.as_str()).unwrap();
            add_to(&mut ch, line(now, nick, content, kind));
            let shown = match &self.active_channel {
                Some(act) => str_eq(act.as_str(), target.as_str()),
                None => false,
            };
            if !shown {
                ch.unread_count = ch.unread_count + 1;
            }
            self.put_channel(target, ch);
            proof {
                assert(a1.channels.remove(target@).insert(target@, channel_model(ch)) =~= a1.channels.insert(
                    target@,
                    channel_model(ch),
                ));
            }
        } else {
            let mut out: Vec<char> = Vec::new();
            out.push('<');
            push_str_chars(&mut out, nick.as_str());
            out.push('>');
            out.push(' ');
            push_str_chars(&mut out, content.as_str());
            assert(out@ =~= seq!['<'] + nick@ + seq!['>', ' '] + content@);
            let text = string_of(&out);
            self.add_server_message(text, MessageKind::Normal, now);
        }
        Some(dispatch)
    }


    /// A JOIN.
    fn on_join(&mut self, msg: &IrcMessage, now: i64)
        requires
            app_wf(old(self)),
        ensures
            app_wf(final(self)),
            settled(on_join(old(self)@, msg@, now).0, final(self)@),
            final(self).input == old(self).input,
            final(self).config == old(self).config,
    {
        if msg.params.len() == 0 {
            return;
        }
        let name = msg.params[0].clone();
        if chars_of(name.as_str()).len() == 0 {
            return;
        }
        let nick = sender(msg);
        self.ensure_channel(name.as_str());
        if str_eq(nick.as_str(), self.nick.as_str()) {
            self.active_channel = Some(name.clone());
        }
        let ghost a2 = self@;
        let mut ch = self.take_channel(name.as_str()).unwrap();
        proof {
            lemma_users_insert(ch.users@, nick@, ChannelUser { nick: nick, prefix: None });
        }
        ch.users.insert(nick.clone(), ChannelUser { nick: nick.clone(), prefix: None });
        add_to(&mut ch, line(now, nick, name.clone(), MessageKind::Join));
        self.put_channel(name, ch);
        proof {
            assert(a2.channels.remove(name@).insert(name@, channel_model(ch)) =~= a2.channels.insert(
                name@,
                channel_model(ch),
            ));
        }
    }

    /// Closes the channel `name` (we left it): another is shown if it was
    /// the one shown.
    fn close_channel(&mut self, name: &str)
        requires
            app_wf(old(self)),
        ensures
            app_wf(final(self)),
            settled(leave(old(self)@, name@), final(self)@),
            final(self).input == old(self).input,
            final(self).config == old(self).config,
    {
        let _ = self.take_channel(name);
        let was_shown = match &self.active_channel {
            Some(act) => str_eq(act.as_str(), name),
            None => false,
        };
        if was_shown {
            self.reselect();
        }
    }

    /// A PART.
    fn on_part(&mut self, msg: &IrcMessage, now: i64)
        requires
            app_wf(old(self)),
        ensures
            app_wf(final(self)),
            settled(on_part(old(self)@, msg@, now).0, final(self)@),
            final(self).input == old(self).input,
            final(self).config == old(self).config,
    {
        if msg.params.len() == 0 {
            return;
        }
        let nick = sender(msg);
        let name = msg.params[0].clone();
        let reason = msg.params[msg.params.len() - 1].as_str();
        proof {
            assert(strings_view(msg.params@).last() == reason@);
        }
        let ghost a = self@;
        match self.take_channel(name.as_str()) {
            Some(mut ch) => {
                proof {
                    lemma_users_remove(ch.users@, nick@);
                }
                ch.users.remove(nick.as_str());
                let mut out: Vec<char> = Vec::new();
                push_str_chars(&mut out, name.as_str());
                out.push(' ');
                out.push('(');
                push_str_chars(&mut out, reason);
                out.push(')');
                assert(out@ =~= name@ + seq![' ', '('] + reason@ + seq![')']);
                add_to(&mut ch, line(now, nick.clone(), string_of(&out), MessageKind::Part));
                self.put_channel(name.clone(), ch);
                proof {
                    assert(a.channels.remove(name@).insert(name@, channel_model(ch)) =~= a.channels.insert(
                        name@,
                        channel_model(ch),
                    ));
                }
            },
            None => {
                proof {
                    assert(a.channels.remove(name@) =~= a.channels);
                }
            },
        }
        if str_eq(nick.as_str(), self.nick.as_str()) {
            self.close_channel(name.as_str());
        }
    }

    /// A KICK.
    fn on_kick(&mut self, msg: &IrcMessage, now: i64)
        requires
            app_wf(old(self)),
        ensures
            app_wf(final(self)),
            settled(on_kick(old(self)@, msg@, now).0, final(self)@),
            final(self).input == old(self).input,
            final(self).config == old(self).config,
    {
        if msg.params.len() < 2 {
            return;
        }
        let nick = sender(msg);
        let name = msg.params[0].clone();
        let kicked = msg.params[1].clone();
        let reason = msg.params[msg.params.len() - 1].as_str();
        proof {
            assert(strings_view(msg.params@).last() == reason@);
        }
        let ghost a = self@;
        match self.take_channel(name.as_str()) {
            Some(mut ch) => {
                proof {
                    lemma_users_remove(ch.users@, kicked@);
                }
                ch.users.remove(kicked.as_str());
                let mut out: Vec<char> = Vec::new();
                out.push('b');
                out.push('y');
                out.push(' ');
                push_str_chars(&mut out, nick.as_str());
                out.push(' ');
                out.push('(');
                push_str_chars(&mut out, reason);
                out.push(')');
                assert(out@ =~= seq!['b', 'y', ' '] + nick@ + seq![' ', '('] + reason@ + seq![')']);
                add_to(&mut ch, line(now, kicked.clone(), string_of(&out), MessageKind::Kick));
                self.put_channel(name.clone(), ch);
                proof {
                    assert(a.channels.remove(name@).insert(name@, channel_model(ch)) =~= a.channels.insert(
                        name@,
                        channel_model(ch),
                    ));
                }
            },
            None => {
                proof {
                    assert(a.channels.remove(name@) =~= a.channels);
                }
            },
        }
        if str_eq(kicked.as_str(), self.nick.as_str()) {
            self.close_channel(name.as_str());
        }
    }


    /// A MODE.
    fn on_mode(&mut self, msg: &IrcMessage, now: i64)
        requires
            app_wf(old(self)),
        ensures
            app_wf(final(self)),
            settled(on_mode(old(self)@, msg@, now).0, final(self)@),
            final(self).input == old(self).input,
            final(self).config == old(self).config,
    {
        if msg.params.len() == 0 {
            return;
        }
        let nick = sender(msg);
        let target = msg.params[0].clone();
        let modes = join_params(msg, 1);
        if is_channel(target.as_str()) {
            let ghost a = self@;
            match self.take_channel(target.as_str()) {
                Some(mut ch) => {
                    add_to(&mut ch, line(now, nick, modes, MessageKind::Mode));
                    self.put_channel(target.clone(), ch);
                    proof {
                        assert(a.channels.remove(target@).insert(target@, channel_model(ch)) =~= a.channels.insert(
                            target@,
                            channel_model(ch),
                        ));
                    }
                },
                None => {
                    proof {
                        assert(a.channels.remove(target@) =~= a.channels);
                    }
                },
            }
        } else if str_eq(target.as_str(), self.nick.as_str()) {
            self.user_modes = modes;
        }
    }

    /// A TOPIC.
    fn on_topic(&mut self, msg: &IrcMessage, now: i64)
        requires
            app_wf(old(self)),
        ensures
            app_wf(final(self)),
            settled(on_topic(old(self)@, msg@, now).0, final(self)@),
            final(self).input == old(self).input,
            final(self).config == old(self).config,
    {
        if msg.params.len() == 0 {
            return;
        }
        let nick = sender(msg);
        let name = msg.params[0].clone();
        let text = msg.params[msg.params.len() - 1].clone();
        proof {
            assert(strings_view(msg.params@).last() == text@);
        }
        let ghost a = self@;
        match self.take_channel(name.as_str()) {
            Some(mut ch) => {
                ch.topic = Some(text.clone());
                add_to(&mut ch, line(now, nick, text, MessageKind::Topic));
                self.put_channel(name.clone(), ch);
                proof {
                    assert(a.channels.remove(name@).insert(name@, channel_model(ch)) =~= a.channels.insert(
                        name@,
                        channel_model(ch),
                    ));
                }
            },
            None => {
                proof {
                    assert(a.channels.remove(name@) =~= a.channels);
                }
            },
        }
    }

    /// A NAMES reply (353).
    fn on_names(&mut self, msg: &IrcMessage)
        requires
            app_wf(old(self)),
        ensures
            app_wf(final(self)),
            settled(on_names(old(self)@, msg@).0, final(self)@),
            final(self).input == old(self).input,
            final(self).config == old(self).config,
    {
        if msg.params.len() <= 2 {
            return;
        }
        let name = msg.params[2].clone();
        let names = chars_of(msg.params[msg.params.len() - 1].as_str());
        proof {
            assert(strings_view(msg.params@).last() == names@);
        }
        self.ensure_channel(name.as_str());
        let ghost a1 = self@;
        let mut ch = self.take_channel(name.as_str()).unwrap();
        let ghost u0 = users_model(ch.users@);
        let spans = crate::text::word_spans(&names);
        let ghost ws = crate::text::words(names@);
        assert(crate::text::span_texts(names@, spans@).len() == spans@.len());
        let mut k: usize = 0;
        assert(ws.take(0) =~= Seq::<Seq<char>>::empty());
        while k < spans.len()
            invariant
                k <= spans@.len() == ws.len(),
                crate::text::span_texts(names@, spans@) == ws,
                forall|j: int| 0 <= j < spans@.len() ==> (#[trigger] spans@[j]).0 < spans@[j].1 <= names@.len(),
                ch.users.wf(),
                users_model(ch.users@) == add_names(u0, ws.take(k as int)),
                channel_model(ch) == (ChannelModel { users: users_model(ch.users@), ..a1.channels[name@] }),
            decreases spans@.len() - k,
        {
            let (b, e) = spans[k];
            let ghost w0 = ws[k as int];
            assert(crate::text::span_texts(names@, spans@)[k as int] == ws[k as int]);
            let has_prefix = names[b] == '@' || names[b] == '+';
            let (nick, prefix) = if has_prefix {
                (crate::text::string_of_range(&names, b + 1, e), Some(names[b]))
            } else {
                (crate::text::string_of_range(&names, b, e), None)
            };
            proof {
                let w = names@.subrange(b as int, e as int);
                if has_prefix {
                    assert(nick@ =~= w.drop_first());
                }
                assert((nick@, prefix) == names_entry(w));
                assert(ws.take(k + 1).drop_last() =~= ws.take(k as int));
                lemma_users_insert(ch.users@, nick@, ChannelUser { nick: nick, prefix });
            }
            let entry = ChannelUser { nick: nick.clone(), prefix };
            ch.users.insert(nick, entry);
            k += 1;
        }
        assert(ws.take(ws.len() as int) =~= ws);
        self.put_channel(name.clone(), ch);
        proof {
            assert(a1.channels.remove(name@).insert(name@, channel_model(ch)) =~= a1.channels.insert(
                name@,
                channel_model(ch),
            ));
        }
    }

    /// A topic reply (332).
    fn on_topic_reply(&mut self, msg: &IrcMessage)
        requires
            app_wf(old(self)),
        ensures
            app_wf(final(self)),
            settled(on_topic_reply(old(self)@, msg@).0, final(self)@),
            final(self).input == old(self).input,
            final(self).config == old(self).config,
    {
        if msg.params.len() <= 1 {
            return;
        }
        let name = msg.params[1].clone();
        let text = msg.params[msg.params.len() - 1].clone();
        proof {
            assert(strings_view(msg.params@).last() == text@);
        }
        self.ensure_channel(name.as_str());
        let ghost a1 = self@;
        let mut ch = self.take_channel(name.as_str()).unwrap();
        ch.topic = Some(text);
        self.put_channel(name.clone(), ch);
        proof {
            assert(a1.channels.remove(name@).insert(name@, channel_model(ch)) =~= a1.channels.insert(
                name@,
                channel_model(ch),
            ));
        }
    }


    /// A QUIT.
    fn on_quit(&mut self, msg: &IrcMessage, now: i64)
        requires
            app_wf(old(self)),
        ensures
            app_wf(final(self)),
            settled(on_quit(old(self)@, msg@, now).0, final(self)@),
            final(self).input == old(self).input,
            final(self).config == old(self).config,
    {
        let nick = sender(msg);
        let reason: String = if msg.params.len() > 0 {
            msg.params[msg.params.len() - 1].clone()
        } else {
            String::new()
        };
        proof {
            if msg.params@.len() > 0 {
                assert(strings_view(msg.params@).last() == reason@);
            }
        }
        let ghost l = MsgModel { ts: now, sender: nick@, content: reason@, kind: MessageKind::Quit };
        let ghost a = self@;
        let names = self.channel_names();
        let ghost keys = texts(names@);
        assert(keys.take(0) =~= Seq::<Seq<char>>::empty());
        assert(quit_upto(a.channels, keys, 0, nick@, l) =~= a.channels);
        let mut i: usize = 0;
        while i < names.len()
            invariant
                app_wf(self),
                self.input == old(self).input,
                self.config == old(self).config,
                i <= names@.len(),
                keys == texts(names@),
                keys.no_duplicates(),
                forall|k: Seq<char>| a.channels.contains_key(k) <==> keys.contains(k),
                self@ == (AppModel { channels: quit_upto(a.channels, keys, i as int, nick@, l), ..a }),
                l == (MsgModel { ts: now, sender: nick@, content: reason@, kind: MessageKind::Quit }),
            decreases names@.len() - i,
        {
            let ghost before = self@;
            let ghost key = keys[i as int];
            proof {
                assert(keys.contains(key));
                assert(!keys.take(i as int).contains(key)) by {
                    if keys.take(i as int).contains(key) {
                        let j = choose|j: int| 0 <= j < i && keys.take(i as int)[j] == key;
                        assert(keys[j] == keys[i as int]);
                    }
                }
            }
            let name = names[i].clone();
            let mut ch = self.take_channel(name.as_str()).unwrap();
            let ghost c0 = channel_model(ch);
            proof {
                lemma_users_remove(ch.users@, nick@);
            }
            let removed = ch.users.remove(nick.as_str());
            if removed.is_some() {
                add_to(&mut ch, line(now, nick.clone(), reason.clone(), MessageKind::Quit));
            } else {
                assert(users_model(ch.users@) =~= c0.users);
            }
            assert(channel_model(ch) == quit_from(c0, nick@, l));
            self.put_channel(name, ch);
            proof {
                assert(self@.channels =~= quit_upto(a.channels, keys, i + 1, nick@, l)) by {
                    assert forall|k: Seq<char>| #[trigger] self@.channels.contains_key(k) implies self@.channels[k]
                        == quit_upto(a.channels, keys, i + 1, nick@, l)[k] by {
                        let t0 = keys.take(i as int);
                        let t1 = keys.take(i + 1);
                        if k != key {
                            assert(t1.contains(k) == t0.contains(k)) by {
                                if t1.contains(k) {
                                    let j = choose|j: int| 0 <= j < t1.len() && t1[j] == k;
                                    assert(j < i);
                                    assert(t0[j] == k);
                                }
                                if t0.contains(k) {
                                    let j = choose|j: int| 0 <= j < t0.len() && t0[j] == k;
                                    assert(t1[j] == k);
                                }
                            }
                        } else {
                            assert(t1[i as int] == key);
                        }
                    }
                }
            }
            i += 1;
        }
        proof {
            assert(keys.take(names@.len() as int) =~= keys);
            assert(self@.channels =~= a.channels.map_values(|c: ChannelModel| quit_from(c, nick@, l)));
        }
    }


    /// A NICK.
    fn on_nick(&mut self, msg: &IrcMessage, now: i64)
        requires
            app_wf(old(self)),
        ensures
            app_wf(final(self)),
            settled(on_nick(old(self)@, msg@, now).0, final(self)@),
            final(self).input == old(self).input,
            final(self).config == old(self).config,
    {
        let nick = sender(msg);
        let new_nick: String = if msg.params.len() > 0 {
            msg.params[msg.params.len() - 1].clone()
        } else {
            nick.clone()
        };
        proof {
            if msg.params@.len() > 0 {
                assert(strings_view(msg.params@).last() == new_nick@);
            }
        }
        let ghost l = MsgModel { ts: now, sender: nick@, content: new_nick@, kind: MessageKind::Nick };
        if str_eq(nick.as_str(), self.nick.as_str()) {
            self.nick = new_nick.clone();
        }
        let ghost a0 = old(self)@;
        let ghost a = self@;
        let names = self.channel_names();
        let ghost keys = texts(names@);
        assert(keys.take(0) =~= Seq::<Seq<char>>::empty());
        assert(renamed_upto(a.channels, keys, 0, nick@, new_nick@, l) =~= a.channels);
        let mut i: usize = 0;
        while i < names.len()
            invariant
                app_wf(self),
                self.input == old(self).input,
                self.config == old(self).config,
                i <= names@.len(),
                keys == texts(names@),
                keys.no_duplicates(),
                forall|k: Seq<char>| a.channels.contains_key(k) <==> keys.contains(k),
                self@ == (AppModel { channels: renamed_upto(a.channels, keys, i as int, nick@, new_nick@, l), ..a }),
                l == (MsgModel { ts: now, sender: nick@, content: new_nick@, kind: MessageKind::Nick }),
            decreases names@.len() - i,
        {
            let ghost key = keys[i as int];
            proof {
                assert(keys.contains(key));
                assert(!keys.take(i as int).contains(key)) by {
                    if keys.take(i as int).contains(key) {
                        let j = choose|j: int| 0 <= j < i && keys.take(i as int)[j] == key;
                        assert(keys[j] == keys[i as int]);
                    }
                }
            }
            let name = names[i].clone();
            let mut ch = self.take_channel(name.as_str()).unwrap();
            let ghost c0 = channel_model(ch);
            let ghost u_before = ch.users@;
            proof {
                lemma_users_remove(ch.users@, nick@);
            }
            let removed = ch.users.remove(nick.as_str());
            match removed {
                Some(mut user) => {
                    user.nick = new_nick.clone();
                    proof {
                        lemma_users_insert(ch.users@, new_nick@, user);
                    }
                    ch.users.insert(new_nick.clone(), user);
                    add_to(&mut ch, line(now, nick.clone(), new_nick.clone(), MessageKind::Nick));
                },
                None => {
                    assert(users_model(ch.users@) =~= c0.users);
                },
            }
            assert(channel_model(ch) == renamed_in(c0, nick@, new_nick@, l));
            self.put_channel(name, ch);
            proof {
                assert(self@.channels =~= renamed_upto(a.channels, keys, i + 1, nick@, new_nick@, l)) by {
                    assert forall|k: Seq<char>| #[trigger] self@.channels.contains_key(k) implies self@.channels[k]
                        == renamed_upto(a.channels, keys, i + 1, nick@, new_nick@, l)[k] by {
                        let t0 = keys.take(i as int);
                        let t1 = keys.take(i + 1);
                        if k != key {
                            assert(t1.contains(k) == t0.contains(k)) by {
                                if t1.contains(k) {
                                    let j = choose|j: int| 0 <= j < t1.len() && t1[j] == k;
                                    assert(j < i);
                                    assert(t0[j] == k);
                                }
                                if t0.contains(k) {
                                    let j = choose|j: int| 0 <= j < t0.len() && t0[j] == k;
                                    assert(t1[j] == k);
                                }
                            }
                        } else {
                            assert(t1[i as int] == key);
                        }
                    }
                }
            }
            i += 1;
        }
        proof {
            assert(keys.take(names@.len() as int) =~= keys);
            assert(self@.channels =~= a.channels.map_values(
                |c: ChannelModel| renamed_in(c, nick@, new_nick@, l),
            ));
        }
    }

    /// What an IRC message from the server does to the interface; what the
    /// caller is asked to do about it is returned.
    pub fn handle_irc_message(&mut self, msg: IrcMessage, now: i64) -> (r: Option<AppEffect>)
        requires
            app_wf(old(self)),
            message_ok(msg@),
            unread_room(old(self)@),
        ensures
            app_wf(final(self)),
            settled(on_message(old(self)@, msg@, now).0, final(self)@),
            effect_view(r) == on_message(old(self)@, msg@, now).1,
            final(self).input == old(self).input,
            final(self).config == old(self).config,
    {
        let cmd = msg.command.as_str();
        if str_eq(cmd, "PRIVMSG") {
            self.on_privmsg(&msg, now)
        } else if str_eq(cmd, "JOIN") {
            self.on_join(&msg, now);
            None
        } else if str_eq(cmd, "PART") {
            self.on_part(&msg, now);
            None
        } else if str_eq(cmd, "QUIT") {
            self.on_quit(&msg, now);
            None
        } else if str_eq(cmd, "NICK") {
            self.on_nick(&msg, now);
            None
        } else if str_eq(cmd, "KICK") {
            self.on_kick(&msg, now);
            None
        } else if str_eq(cmd, "MODE") {
            self.on_mode(&msg, now);
            None
        } else if str_eq(cmd, "TOPIC") {
            self.on_topic(&msg, now);
            None
        } else if str_eq(cmd, "NOTICE") {
            if msg.params.len() > 0 {
                let nick = sender(&msg);
                let text = msg.params[msg.params.len() - 1].as_str();
                proof {
                    assert(strings_view(msg.params@).last() == text@);
                }
                let mut out: Vec<char> = Vec::new();
                out.push('-');
                push_str_chars(&mut out, nick.as_str());
                out.push('-');
                out.push(' ');
                push_str_chars(&mut out, text);
                assert(out@ =~= seq!['-'] + nick@ + seq!['-', ' '] + text@);
                self.add_server_message(string_of(&out), MessageKind::Notice, now);
            }
            None
        } else if str_eq(cmd, "353") {
            self.on_names(&msg);
            None
        } else if str_eq(cmd, "332") {
            self.on_topic_reply(&msg);
            None
        } else {
            if msg.params.len() > 0 {
                let text = msg.params[msg.params.len() - 1].clone();
                proof {
                    assert(strings_view(msg.params@).last() == text@);
                }
                self.add_server_message(text, MessageKind::System, now);
            }
            None
        }
    }

    /// What an event from the connection does to the interface, at the
    /// time `now`; what the caller is asked to do about it is returned.
    pub fn handle_irc_event_at(&mut self, event: IrcEvent, now: i64) -> (r: Option<AppEffect>)
        requires
            app_wf(old(self)),
            event_ok(event),
            unread_room(old(self)@),
        ensures
            app_wf(final(self)),
            settled(on_event(old(self)@, event, now).0, final(self)@),
            effect_view(r) == on_event(old(self)@, event, now).1,
            final(self).input == old(self).input,
            final(self).config == old(self).config,
    {
        match event {
            IrcEvent::Connected => {
                let text = owned("Connected to server");
                self.add_server_message(text, MessageKind::System, now);
                None
            },
            IrcEvent::Disconnected(reason) => {
                let mut out = chars_of("Disconnected: ");
                push_str_chars(&mut out, reason.as_str());
                self.add_server_message(string_of(&out), MessageKind::Error, now);
                None
            },
            IrcEvent::Error(err) => {
                let mut out = chars_of("Error: ");
                push_str_chars(&mut out, err.as_str());
                self.add_server_message(string_of(&out), MessageKind::Error, now);
                None
            },
            IrcEvent::LagUpdate(ms) => {
                self.lag_ms = Some(ms);
                None
            },
            IrcEvent::Message(msg) => self.handle_irc_message(msg, now),
        }
    }

    /// The open channels, each with how many of its lines arrived while it
    /// was not shown, by name in lower case (names that differ only in case
    /// by the names themselves).
    pub fn channel_list(&self) -> (r: Vec<(String, usize)>)
        requires
            app_wf(self),
        ensures
            listing(pairs_view(r@), self@),
    {
        let names = self.channel_names();
        let ghost keys = texts(names@);
        let mut out: Vec<(String, usize)> = Vec::new();
        let mut forms: Vec<(Vec<char>, Vec<char>)> = Vec::new();
        let mut i: usize = 0;
        assert(keys.take(0) =~= Seq::<Seq<char>>::empty());
        while i < names.len()
            invariant
                app_wf(self),
                keys == texts(names@),
                keys.no_duplicates(),
                forall|k: Seq<char>| self@.channels.contains_key(k) <==> keys.contains(k),
                i <= names@.len(),
                out@.len() == forms@.len(),
                names_in_order(listed_names(pairs_view(out@))),
                forall|x: Seq<char>|
                    listed_names(pairs_view(out@)).contains(x) <==> keys.take(i as int).contains(x),
                forall|j: int|
                    0 <= j < out@.len() ==> (#[trigger] pairs_view(out@)[j]).1 == self@.channels[pairs_view(
                        out@,
                    )[j].0].unread,
                forall|j: int|
                    0 <= j < forms@.len() ==> (#[trigger] forms@[j]).0@ == out@[j].0@ && forms@[j].1@ == lower(
                        out@[j].0@,
                    ),
            decreases names@.len() - i,
        {
            let name = names[i].clone();
            let ghost key = keys[i as int];
            assert(key == name@);
            assert(keys.contains(key));
            let unread = self.channels.get(name.as_str()).unwrap().unread_count;
            let nv = chars_of(name.as_str());
            let lv = chars_of(to_lower(name.as_str()).as_str());
            let ghost n0 = listed_names(pairs_view(out@));
            proof {
                assert(!n0.contains(key)) by {
                    if n0.contains(key) {
                        assert(keys.take(i as int).contains(key));
                        let j = choose|j: int| 0 <= j < i && keys.take(i as int)[j] == key;
                        assert(keys[j] == keys[i as int]);
                    }
                }
            }
            let mut p: usize = 0;
            let mut stop = false;
            while !stop && p < out.len()
                invariant
                    p <= out@.len() == forms@.len(),
                    n0 == listed_names(pairs_view(out@)),
                    forall|j: int|
                        0 <= j < forms@.len() ==> (#[trigger] forms@[j]).0@ == out@[j].0@ && forms@[j].1@
                            == lower(out@[j].0@),
                    nv@ == name@,
                    lv@ == lower(name@),
                    stop ==> p < out@.len() && !name_before(n0[p as int], name@),
                    forall|j: int| 0 <= j < p ==> name_before(#[trigger] n0[j], name@),
                decreases out@.len() - p + (if stop {
                    0int
                } else {
                    1int
                }),
            {
                assert(n0[p as int] == out@[p as int].0@);
                if name_before_exec(&forms[p].0, &forms[p].1, &nv, &lv) {
                    p += 1;
                } else {
                    stop = true;
                }
            }
            let ghost old_out = out@;
            out.insert(p, (name, unread));
            forms.insert(p, (nv, lv));
            proof {
                let n1 = listed_names(pairs_view(out@));
                assert(n1 =~= n0.insert(p as int, key));
                assert forall|a: int, b: int| 0 <= a < b < n1.len() implies name_before(
                    #[trigger] n1[a],
                    #[trigger] n1[b],
                ) by {
                    if b < p {
                    } else if b == p {
                    } else if a < p {
                        assert(n1[b] == n0[b - 1]);
                    } else if a == p {
                        assert(n1[b] == n0[b - 1]);
                        assert(n0.contains(n0[p as int]));
                        lemma_name_order(key, n0[p as int], n0[b - 1]);
                        lemma_name_order(n0[p as int], key, key);
                    } else {
                        assert(n1[a] == n0[a - 1] && n1[b] == n0[b - 1]);
                    }
                }
                let t0 = keys.take(i as int);
                let t1 = keys.take(i + 1);
                assert(t1 =~= t0.push(key));
                assert forall|x: Seq<char>| n1.contains(x) <==> t1.contains(x) by {
                    if n1.contains(x) {
                        let j = choose|j: int| 0 <= j < n1.len() && n1[j] == x;
                        if j < p {
                            assert(n0[j] == x);
                        } else if j > p {
                            assert(n0[j - 1] == x);
                        }
                        if x != key {
                            assert(n0.contains(x));
                            assert(t0.contains(x));
                            let m = choose|m: int| 0 <= m < t0.len() && t0[m] == x;
                            assert(t1[m] == x);
                        } else {
                            assert(t1[i as int] == x);
                        }
                    }
                    if t1.contains(x) {
                        let m = choose|m: int| 0 <= m < t1.len() && t1[m] == x;
                        if m < i {
                            assert(t0[m] == x);
                            assert(t0.contains(x));
                            assert(n0.contains(x));
                            let j = choose|j: int| 0 <= j < n0.len() && n0[j] == x;
                            if j < p {
                                assert(n1[j] == x);
                            } else {
                                assert(n1[j + 1] == x);
                            }
                        } else {
                            assert(n1[p as int] == x);
                        }
                    }
                }
                assert forall|j: int| 0 <= j < out@.len() implies (#[trigger] pairs_view(out@)[j]).1
                    == self@.channels[pairs_view(out@)[j].0].unread by {
                    if j < p {
                        assert(out@[j] == old_out[j]);
                        assert(pairs_view(old_out)[j] == pairs_view(out@)[j]);
                    } else if j > p {
                        assert(out@[j] == old_out[j - 1]);
                        assert(pairs_view(old_out)[j - 1] == pairs_view(out@)[j]);
                    } else {
                        assert(self.channels@.contains_key(key));
                        assert(self@.channels[key] == channel_model(self.channels@[key]));
                    }
                }
                assert forall|j: int| 0 <= j < forms@.len() implies (#[trigger] forms@[j]).0@ == out@[j].0@
                    && forms@[j].1@ == lower(out@[j].0@) by {
                    if j > p {
                        assert(out@[j] == old_out[j - 1]);
                    } else if j < p {
                        assert(out@[j] == old_out[j]);
                    }
                }
            }
            i += 1;
        }
        assert(keys.take(names@.len() as int) =~= keys);
        out
    }

    /// Shows the next channel of the listing, or the previous one.
    fn switch_channel(&mut self, forward: bool)
        requires
            app_wf(old(self)),
        ensures
            app_wf(final(self)),
            forall|l: Seq<(Seq<char>, usize)>|
                listing(l, old(self)@) ==> final(self)@ == switched(old(self)@, l, forward),
            final(self).input == old(self).input,
            final(self).config == old(self).config,
    {
        let list = self.channel_list();
        let ghost l = pairs_view(list@);
        let ghost names = listed_names(l);
        proof {
            assert forall|l2: Seq<(Seq<char>, usize)>| listing(l2, self@) implies l2 == l by {
                lemma_listing_unique(l2, l, self@);
            }
        }
        let n = list.len();
        if n == 0 {
            return;
        }
        let mut found: Option<usize> = None;
        match &self.active_channel {
            Some(act) => {
                let mut p: usize = 0;
                while p < n && !str_eq(list[p].0.as_str(), act.as_str())
                    invariant
                        p <= n == list@.len() == names.len(),
                        names == listed_names(pairs_view(list@)),
                        forall|j: int| 0 <= j < p ==> #[trigger] names[j] != act@,
                    decreases n - p,
                {
                    assert(names[p as int] == list@[p as int].0@);
                    p += 1;
                }
                if p < n {
                    assert(names[p as int] == list@[p as int].0@);
                    proof {
                        let c = position_of(names, act@);
                        assert(names.contains(act@));
                        assert(0 <= c < names.len() && names[c] == act@);
                        if c != p {
                            lemma_name_order(act@, act@, act@);
                            if c < p {
                                assert(name_before(names[c], names[p as int]));
                            } else {
                                assert(name_before(names[p as int], names[c]));
                            }
                        }
                    }
                    found = Some(p);
                } else {
                    assert(!names.contains(act@));
                }
            },
            None => {},
        }
        let next: usize = match found {
            Some(idx) => if forward {
                if idx + 1 == n {
                    0
                } else {
                    idx + 1
                }
            } else {
                if idx == 0 {
                    n - 1
                } else {
                    idx - 1
                }
            },
            None => 0,
        };
        let name = list[next].0.clone();
        assert(names[next as int] == name@);
        assert(names.contains(name@));
        self.active_channel = Some(name.clone());
        let mut ch = self.take_channel(name.as_str()).unwrap();
        ch.unread_count = 0;
        let ghost a1 = self@;
        self.put_channel(name, ch);
        self.scroll_offset = 0;
        proof {
            assert(a1.channels.insert(name@, channel_model(ch)) =~= old(self)@.channels.insert(
                name@,
                ChannelModel { unread: 0, ..old(self)@.channels[name@] },
            ));
        }
    }

    /// A command typed by the user.
    fn handle_command(&mut self, cmd: &str, args: &Vec<String>, now: i64) -> (r: Option<AppEffect>)
        requires
            app_wf(old(self)),
        ensures
            app_wf(final(self)),
            (final(self)@, effect_view(r)) == on_command(old(self)@, cmd@, texts(args@), now),
            final(self).input == old(self).input,
            final(self).config == old(self).config,
    {
        let ghost ws = texts(args@);
        assert(ws == strings_view(args@));
        if str_eq(cmd, "JOIN") || str_eq(cmd, "J") {
            if args.len() > 0 {
                Some(AppEffect::Send(ClientCommand::Join(args[0].clone())))
            } else {
                None
            }
        } else if str_eq(cmd, "PART") || str_eq(cmd, "LEAVE") {
            let channel: Option<String> = if args.len() > 0 {
                Some(args[0].clone())
            } else {
                crate::text::clone_text(&self.active_channel)
            };
            match channel {
                Some(c) => {
                    let reason = if args.len() > 1 {
                        Some(join_from(args, 1))
                    } else {
                        None
                    };
                    Some(AppEffect::Send(ClientCommand::Part(c, reason)))
                },
                None => None,
            }
        } else if str_eq(cmd, "MSG") || str_eq(cmd, "PRIVMSG") {
            if args.len() >= 2 {
                Some(AppEffect::Send(ClientCommand::Privmsg(args[0].clone(), join_from(args, 1))))
            } else {
                None
            }
        } else if str_eq(cmd, "NICK") {
            if args.len() > 0 {
                Some(AppEffect::Send(ClientCommand::Nick(args[0].clone())))
            } else {
                None
            }
        } else if str_eq(cmd, "QUIT") || str_eq(cmd, "EXIT") {
            let reason = if args.len() > 0 {
                Some(join_from(args, 0))
            } else {
                None
            };
            self.running = false;
            Some(AppEffect::Send(ClientCommand::Quit(reason)))
        } else if str_eq(cmd, "TOPIC") {
            match &self.active_channel {
                Some(c) => {
                    let topic = if args.len() > 0 {
                        Some(join_from(args, 0))
                    } else {
                        None
                    };
                    Some(AppEffect::Send(ClientCommand::Topic(c.clone(), topic)))
                },
                None => None,
            }
        } else if str_eq(cmd, "AWAY") {
            let reason = if args.len() > 0 {
                Some(join_from(args, 0))
            } else {
                None
            };
            self.is_away = reason.is_some();
            Some(AppEffect::Send(ClientCommand::Away(reason)))
        } else if str_eq(cmd, "MODE") {
            if args.len() >= 2 {
                Some(AppEffect::Send(ClientCommand::Mode(args[0].clone(), join_from(args, 1))))
            } else {
                None
            }
        } else if str_eq(cmd, "KICK") {
            match &self.active_channel {
                Some(c) => {
                    if args.len() > 0 {
                        let reason = if args.len() > 1 {
                            Some(join_from(args, 1))
                        } else {
                            None
                        };
                        Some(AppEffect::Send(ClientCommand::Kick(c.clone(), args[0].clone(), reason)))
                    } else {
                        None
                    }
                },
                None => None,
            }
        } else if str_eq(cmd, "LOADDLL") {
            if args.len() > 0 {
                Some(AppEffect::LoadPlugin(args[0].clone()))
            } else {
                self.add_server_message(owned("Usage: /loaddll <path>"), MessageKind::Error, now);
                None
            }
        } else if str_eq(cmd, "UNLOADDLL") {
            if args.len() > 0 {
                Some(AppEffect::UnloadPlugin(args[0].clone()))
            } else {
                self.add_server_message(owned("Usage: /unloaddll <name>"), MessageKind::Error, now);
                None
            }
        } else if str_eq(cmd, "LISTDLL") {
            Some(AppEffect::ListPlugins)
        } else {
            let raw = if args.len() == 0 {
                owned(cmd)
            } else {
                let mut out = chars_of(cmd);
                out.push(' ');
                let rest = join_from(args, 0);
                push_str_chars(&mut out, rest.as_str());
                assert(out@ =~= cmd@ + seq![' '] + rest@);
                string_of(&out)
            };
            Some(AppEffect::Send(ClientCommand::SendRaw(raw)))
        }
    }

    /// Does what an action of the input line asks, at the time `now`; what
    /// the caller is asked to do is returned.
    pub fn handle_input_action_at(&mut self, action: InputAction, now: i64) -> (r: Option<AppEffect>)
        requires
            app_wf(old(self)),
        ensures
            app_wf(final(self)),
            forall|l: Seq<(Seq<char>, usize)>|
                listing(l, old(self)@) ==> (final(self)@, effect_view(r)) == on_action(
                    old(self)@,
                    action@,
                    now,
                    l,
                ),
            action is TabComplete ==> final(self).input@ == completed_input(old(self)),
            !(action is TabComplete) ==> final(self).input == old(self).input,
            final(self).config == old(self).config,
    {
        match action {
            InputAction::SendMessage(text) => {
                let active = clone_text(&self.active_channel);
                let eff = match active {
                    Some(target) => {
                        let e = AppEffect::Send(ClientCommand::Privmsg(target.clone(), text.clone()));
                        let ghost a = self@;
                        match self.take_channel(target.as_str()) {
                            Some(mut ch) => {
                                add_to(&mut ch, line(now, self.nick.clone(), text, MessageKind::Normal));
                                self.put_channel(target.clone(), ch);
                                proof {
                                    assert(a.channels.remove(target@).insert(target@, channel_model(ch))
                                        =~= a.channels.insert(target@, channel_model(ch)));
                                }
                            },
                            None => {
                                proof {
                                    assert(a.channels.remove(target@) =~= a.channels);
                                }
                            },
                        }
                        Some(e)
                    },
                    None => None,
                };
                self.scroll_offset = 0;
                eff
            },
            InputAction::Command(cmd, args) => {
                let eff = self.handle_command(cmd.as_str(), &args, now);
                self.scroll_offset = 0;
                eff
            },
            InputAction::ScrollUp => {
                self.scroll_offset = self.scroll_offset.saturating_add(5);
                None
            },
            InputAction::ScrollDown => {
                self.scroll_offset = self.scroll_offset.saturating_sub(5);
                None
            },
            InputAction::PreviousChannel => {
                self.switch_channel(false);
                None
            },
            InputAction::NextChannel => {
                self.switch_channel(true);
                None
            },
            InputAction::TabComplete => {
                let active = clone_text(&self.active_channel);
                match active {
                    Some(n) => {
                        match self.channels.get(n.as_str()) {
                            Some(ch) => {
                                let partial = self.input.current_word();
                                let comps = completions_for(&ch.users, partial.as_str());
                                self.input.set_tab_completions(comps);
                            },
                            None => {},
                        }
                    },
                    None => {},
                }
                None
            },
            InputAction::Nothing => None,
        }
    }

    /// The interface for the settings `config`: no channel open, our
    /// nickname from the settings, and the first server's host (or
    /// `localhost`) as the server.
    pub fn new(config: Config) -> (r: App)
        ensures
            app_wf(&r),
            r@ == (AppModel {
                channels: Map::empty(),
                active: None,
                server_messages: seq![],
                nick: config.nick@,
                server: if config.servers@.len() > 0 {
                    config.servers@[0].host@
                } else {
                    "localhost"@
                },
                user_modes: seq![],
                is_away: false,
                scroll_offset: 0,
                running: true,
                lag_ms: None,
                scrollback: config.ui.scrollback_lines as int,
            }),
            r.config == config,
            r.input@ == (InputModel {
                buffer: seq![],
                cursor: 0,
                history: seq![],
                history_index: None,
                tab_completions: seq![],
                tab_index: None,
                saved_input: seq![],
            }),
    {
        let nick = config.nick.clone();
        let server = if config.servers.len() > 0 {
            config.servers[0].host.clone()
        } else {
            owned("localhost")
        };
        let r = App {
            channels: AssocList::new(),
            active_channel: None,
            server_messages: Vec::new(),
            input: InputState::new(),
            nick,
            server,
            user_modes: String::new(),
            is_away: false,
            scroll_offset: 0,
            running: true,
            lag_ms: None,
            config,
        };
        proof {
            assert(channels_model(r.channels@) =~= Map::<Seq<char>, ChannelModel>::empty());
            assert(msgs_model(r.server_messages@) =~= Seq::<MsgModel>::empty());
        }
        r
    }

    /// Reports in the server window how loading a plugin went: its name, or
    /// why it failed.
    fn plugin_loaded_at(&mut self, result: Result<String, String>, now: i64)
        requires
            app_wf(old(self)),
        ensures
            app_wf(final(self)),
            final(self)@ == load_report(old(self)@, result, now),
            final(self).input == old(self).input,
            final(self).config == old(self).config,
    {
        match result {
            Ok(name) => {
                let mut out = chars_of("Plugin '");
                push_str_chars(&mut out, name.as_str());
                push_str_chars(&mut out, "' loaded successfully");
                self.add_server_message(string_of(&out), MessageKind::System, now);
            },
            Err(e) => {
                let mut out = chars_of("Failed to load plugin: ");
                push_str_chars(&mut out, e.as_str());
                self.add_server_message(string_of(&out), MessageKind::Error, now);
            },
        }
    }

    /// Reports in the server window how unloading the plugin `name` went.
    fn plugin_unloaded_at(&mut self, name: &str, result: Result<(), String>, now: i64)
        requires
            app_wf(old(self)),
        ensures
            app_wf(final(self)),
            final(self)@ == unload_report(old(self)@, name@, result, now),
            final(self).input == old(self).input,
            final(self).config == old(self).config,
    {
        match result {
            Ok(_) => {
                let mut out = chars_of("Plugin '");
                push_str_chars(&mut out, name);
                push_str_chars(&mut out, "' unloaded successfully");
                self.add_server_message(string_of(&out), MessageKind::System, now);
            },
            Err(e) => {
                let mut out = chars_of("Failed to unload plugin: ");
                push_str_chars(&mut out, e.as_str());
                self.add_server_message(string_of(&out), MessageKind::Error, now);
            },
        }
    }

    /// Reports in the server window the plugins loaded, each as (name,
    /// version, description, path).
    fn plugins_listed_at(&mut self, plugins: &Vec<(String, String, String, String)>, now: i64)
        requires
            app_wf(old(self)),
        ensures
            app_wf(final(self)),
            final(self)@ == server_lines(old(self)@, plugin_report(plugins_view(plugins@)), MessageKind::System, now),
            final(self).input == old(self).input,
            final(self).config == old(self).config,
    {
        let ghost ps = plugins_view(plugins@);
        let ghost report = plugin_report(ps);
        if plugins.len() == 0 {
            self.add_server_message(owned("No plugins loaded"), MessageKind::System, now);
            proof {
                assert(report.drop_last() =~= Seq::<Seq<char>>::empty());
                assert(server_lines(old(self)@, report.drop_last(), MessageKind::System, now) == old(self)@);
            }
            return;
        }
        let ghost a = self@;
        let mut head = chars_of("Loaded plugins (");
        push_decimal(&mut head, plugins.len() as u64);
        push_str_chars(&mut head, "):");
        self.add_server_message(string_of(&head), MessageKind::System, now);
        proof {
            assert((plugins.len() as u64) as nat == ps.len());
            assert(report[0] == head@);
            assert(report.take(1).drop_last() =~= Seq::<Seq<char>>::empty());
            assert(report.take(1).last() == head@);
            assert(server_lines(a, report.take(1).drop_last(), MessageKind::System, now) == a);
        }
        let mut i: usize = 0;
        while i < plugins.len()
            invariant
                app_wf(self),
                self.input == old(self).input,
                self.config == old(self).config,
                i <= plugins@.len(),
                ps == plugins_view(plugins@),
                report == plugin_report(ps),
                report.len() == plugins@.len() + 1,
                a == old(self)@,
                self@ == server_lines(a, report.take(i + 1), MessageKind::System, now),
            decreases plugins@.len() - i,
        {
            let (name, version, description, path) = &plugins[i];
            let mut out = chars_of("  ");
            push_str_chars(&mut out, name.as_str());
            push_str_chars(&mut out, " v");
            push_str_chars(&mut out, version.as_str());
            push_str_chars(&mut out, " - ");
            push_str_chars(&mut out, description.as_str());
            push_str_chars(&mut out, " (");
            push_str_chars(&mut out, path.as_str());
            push_str_chars(&mut out, ")");
            self.add_server_message(string_of(&out), MessageKind::System, now);
            proof {
                assert(ps[i as int] == (name@, version@, description@, path@));
                assert(report[i + 1] == plugin_line(ps[i as int]));
                assert(report.take(i + 2).drop_last() =~= report.take(i + 1));
                assert(report.take(i + 2).last() == report[i + 1]);
            }
            i += 1;
        }
        assert(report.take(plugins@.len() + 1int) =~= report);
    }

    /// The lines of the window shown: the channel's, or the server
    /// window's.
    pub fn active_messages(&self) -> (r: &[ChatMessage])
        requires
            app_wf(self),
        ensures
            msgs_model(r@) == shown_lines(self@),
    {
        match &self.active_channel {
            Some(name) => match self.channels.get(name.as_str()) {
                Some(ch) => ch.messages.as_slice(),
                None => self.server_messages.as_slice(),
            },
            None => self.server_messages.as_slice(),
        }
    }

    /// The users of the channel shown, operators first, then voiced users,
    /// then the rest, each group by nickname in lower case; none when no
    /// open channel is shown.
    pub fn active_users(&self) -> (r: Vec<&ChannelUser>)
        requires
            app_wf(self),
        ensures
            match self.active_channel {
                Some(n) => if self.channels@.contains_key(n@) {
                    &&& exists|origin: Seq<int>|
                        #[trigger] arranged(users_of(r@), self.channels@[n@].users.value_seq(), origin)
                    &&& forall|i: int| 0 <= i < r@.len() - 1 ==> listed_before(*r@[i], *#[trigger] r@[i + 1])
                } else {
                    r@.len() == 0
                },
                None => r@.len() == 0,
            },
    {
        match &self.active_channel {
            Some(name) => match self.channels.get(name.as_str()) {
                Some(ch) => ch.sorted_users(),
                None => Vec::new(),
            },
            None => Vec::new(),
        }
    }

    /// Opens the channels the settings join on connecting, so that they are
    /// listed from the start.
    pub fn open_auto_join_channels(&mut self)
        requires
            app_wf(old(self)),
        ensures
            app_wf(final(self)),
            final(self)@ == opened(old(self)@, texts(old(self).config.auto_join@)),
            final(self).input == old(self).input,
            final(self).config == old(self).config,
    {
        let ghost names = texts(self.config.auto_join@);
        let ghost a = self@;
        let mut i: usize = 0;
        while i < self.config.auto_join.len()
            invariant
                app_wf(self),
                self.input == old(self).input,
                self.config == old(self).config,
                a == old(self)@,
                names == texts(self.config.auto_join@),
                i <= names.len(),
                self@ == opened(a, names.take(i as int)),
            decreases names.len() - i,
        {
            let name = self.config.auto_join[i].clone();
            proof {
                assert(names.take(i + 1).drop_last() =~= names.take(i as int));
                assert(names.take(i + 1).last() == name@);
            }
            if !self.channels.contains_key(name.as_str()) {
                let ch = Channel::new(name.clone());
                proof {
                    lemma_channels_insert(self.channels@, name@, ch);
                    assert(users_model(ch.users@) =~= Map::<Seq<char>, (Seq<char>, Option<char>)>::empty());
                    assert(msgs_model(ch.messages@) =~= Seq::<MsgModel>::empty());
                }
                self.channels.insert(name, ch);
            }
            i += 1;
        }
        assert(names.take(names.len() as int) =~= names);
    }

    /// What an event from the connection does to the interface, now; what
    /// the caller is asked to do about it is returned. The lines it adds
    /// are stamped with the clock's time.
    pub fn handle_irc_event(&mut self, event: IrcEvent) -> (r: Option<AppEffect>)
        requires
            app_wf(old(self)),
            event_ok(event),
            unread_room(old(self)@),
        ensures
            app_wf(final(self)),
            exists|now: i64|
                settled(#[trigger] on_event(old(self)@, event, now).0, final(self)@) && effect_view(r)
                    == on_event(old(self)@, event, now).1,
            final(self).input == old(self).input,
            final(self).config == old(self).config,
    {
        let now = now_millis();
        self.handle_irc_event_at(event, now)
    }

    /// Does what an action of the input line asks, now; what the caller is
    /// asked to do is returned. The lines it adds are stamped with the
    /// clock's time.
    pub fn handle_input_action(&mut self, action: InputAction) -> (r: Option<AppEffect>)
        requires
            app_wf(old(self)),
        ensures
            app_wf(final(self)),
            exists|now: i64| #[trigger] action_result(old(self)@, action@, now, final(self)@, effect_view(r)),
            action is TabComplete ==> final(self).input@ == completed_input(old(self)),
            !(action is TabComplete) ==> final(self).input == old(self).input,
            final(self).config == old(self).config,
    {
        let now = now_millis();
        let r = self.handle_input_action_at(action, now);
        assert(action_result(old(self)@, action@, now, self@, effect_view(r)));
        r
    }

    /// Reports in the server window how loading a plugin went: its name, or
    /// why it failed.
    pub fn plugin_loaded(&mut self, result: Result<String, String>)
        requires
            app_wf(old(self)),
        ensures
            app_wf(final(self)),
            exists|now: i64| final(self)@ == #[trigger] load_report(old(self)@, result, now),
            final(self).input == old(self).input,
            final(self).config == old(self).config,
    {
        let now = now_millis();
        self.plugin_loaded_at(result, now);
    }

    /// Reports in the server window how unloading the plugin `name` went.
    pub fn plugin_unloaded(&mut self, name: &str, result: Result<(), String>)
        requires
            app_wf(old(self)),
        ensures
            app_wf(final(self)),
            exists|now: i64| final(self)@ == #[trigger] unload_report(old(self)@, name@, result, now),
            final(self).input == old(self).input,
            final(self).config == old(self).config,
    {
        let now = now_millis();
        self.plugin_unloaded_at(name, result, now);
    }

    /// Reports in the server window the plugins loaded, each as (name,
    /// version, description, path).
    pub fn plugins_listed(&mut self, plugins: &Vec<(String, String, String, String)>)
        requires
            app_wf(old(self)),
        ensures
            app_wf(final(self)),
            exists|now: i64|
                final(self)@ == #[trigger] server_lines(
                    old(self)@,
                    plugin_report(plugins_view(plugins@)),
                    MessageKind::System,
                    now,
                ),
            final(self).input == old(self).input,
            final(self).config == old(self).config,
    {
        let now = now_millis();
        self.plugins_listed_at(plugins, now);
    }

}

} // verus!

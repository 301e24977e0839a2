//! What holds of the interface across its steps: joining and leaving
//! channels, moving between them, counting unread lines, and the bound on
//! each window's lines.
use vstd::prelude::*;

use crate::irc::channel::{keep_last, MessageKind};
use crate::irc::client::IrcEvent;
use crate::irc::command::join_words;
use crate::irc::message::{MessageModel, PrefixModel};
use crate::ui::app::{
    add_line, ensure_open, is_channel_name, on_action, on_event, listed_names, listing, nick_target, on_message,
    position_of, privmsg_line, put_channel, quit_from, renamed_in, sender_of, server_line, settled,
    step_index, switched, trailing_or_empty, AppModel, ChannelModel, MsgModel,
};
use crate::ui::input::ActionModel;
use crate::ui::listing::{lemma_in_order_unique, lemma_name_order, names_in_order};

verus! {

/// The command names a message is told apart by differ.
proof fn lemma_command_names()
    ensures
        "PRIVMSG"@.len() == 7,
        "JOIN"@.len() == 4 && "JOIN"@[0] == 'J',
        "PART"@.len() == 4 && "PART"@[0] == 'P',
        "QUIT"@.len() == 4 && "QUIT"@[0] == 'Q',
        "NICK"@.len() == 4 && "NICK"@[0] == 'N',
        "KICK"@.len() == 4 && "KICK"@[0] == 'K',
{
    reveal_strlit("PRIVMSG");
    reveal_strlit("JOIN");
    reveal_strlit("PART");
    reveal_strlit("QUIT");
    reveal_strlit("NICK");
    reveal_strlit("KICK");
}

/// Joining a channel ourselves opens it, shows it, and lists us in it.
pub proof fn lemma_own_join_shows_channel(a: AppModel, m: MessageModel, now: i64)
    requires
        m.command == "JOIN"@,
        m.params.len() > 0,
        m.params[0].len() > 0,
        sender_of(m) == a.nick,
    ensures
        ({
            let r = on_message(a, m, now).0;
            &&& !r.1
            &&& r.0.active == Some(m.params[0])
            &&& r.0.channels.contains_key(m.params[0])
            &&& r.0.channels[m.params[0]].users.contains_key(a.nick)
        }),
{
    lemma_command_names();
}

/// Leaving a channel ourselves closes it; when it was the one shown,
/// another open channel is shown, or none when none is left.
pub proof fn lemma_own_part_closes_channel(a: AppModel, m: MessageModel, now: i64, after: AppModel)
    requires
        m.command == "PART"@,
        m.params.len() > 0,
        sender_of(m) == a.nick,
        settled(on_message(a, m, now).0, after),
    ensures
        !after.channels.contains_key(m.params[0]),
        a.active == Some(m.params[0]) ==> match after.active {
            Some(c) => c != m.params[0] && after.channels.contains_key(c),
            None => after.channels.dom().len() == 0,
        },
{
    lemma_command_names();
}

/// Being kicked from a channel closes it, as leaving it does.
pub proof fn lemma_kick_closes_channel(a: AppModel, m: MessageModel, now: i64, after: AppModel)
    requires
        m.command == "KICK"@,
        m.params.len() >= 2,
        m.params[1] == a.nick,
        settled(on_message(a, m, now).0, after),
    ensures
        !after.channels.contains_key(m.params[0]),
        a.active == Some(m.params[0]) ==> match after.active {
            Some(c) => c != m.params[0] && after.channels.contains_key(c),
            None => after.channels.dom().len() == 0,
        },
{
    lemma_command_names();
}

/// A user who changes nickname stays listed in each channel they were in,
/// under the new nickname and with the status they had (operator, voice or
/// none); the old nickname is gone unless it is the new one.
pub proof fn lemma_nick_keeps_status(
    a: AppModel,
    m: MessageModel,
    now: i64,
    old: Seq<char>,
    c: Seq<char>,
)
    requires
        m.command == "NICK"@,
        m.params.len() > 0,
        m.prefix matches Some(PrefixModel::User { nick, .. }) && nick == old,
        a.channels.contains_key(c),
        a.channels[c].users.contains_key(old),
    ensures
        ({
            let new = m.params[m.params.len() - 1];
            let r = on_message(a, m, now).0.0;
            &&& r.channels.contains_key(c)
            &&& r.channels[c].users.contains_key(new)
            &&& r.channels[c].users[new].0 == new
            &&& r.channels[c].users[new].1 == a.channels[c].users[old].1
            &&& old != new ==> !r.channels[c].users.contains_key(old)
        }),
{
    lemma_command_names();
}

/// A channel message counts as unread, one more, unless its channel is the
/// one shown.
pub proof fn lemma_privmsg_counts_unread(a: AppModel, m: MessageModel, now: i64)
    requires
        m.command == "PRIVMSG"@,
        m.params.len() > 0,
        is_channel_name(m.params[0]),
    ensures
        ({
            let t = m.params[0];
            let r = on_message(a, m, now).0.0;
            &&& r.channels.contains_key(t)
            &&& r.channels[t].unread == (if a.channels.contains_key(t) {
                a.channels[t].unread
            } else {
                0
            }) + (if a.active == Some(t) {
                0int
            } else {
                1int
            })
        }),
{
    reveal_strlit("PRIVMSG");
}

/// Where a name stands in a list in order is the one place that holds it.
proof fn lemma_position(names: Seq<Seq<char>>, i: int)
    requires
        names_in_order(names),
        0 <= i < names.len(),
    ensures
        position_of(names, names[i]) == i,
{
    let n = names[i];
    assert(0 <= i < names.len() && names[i] == n);
    let p = position_of(names, n);
    if p != i {
        lemma_name_order(n, n, n);
        if p < i {
            assert(crate::ui::listing::name_before(names[p], names[i]));
        } else {
            assert(crate::ui::listing::name_before(names[i], names[p]));
        }
    }
}

/// Moving to the next channel and back shows again the channel that was
/// shown.
pub proof fn lemma_switch_round_trip(
    a: AppModel,
    l1: Seq<(Seq<char>, usize)>,
    l2: Seq<(Seq<char>, usize)>,
)
    requires
        listing(l1, a),
        listing(l2, switched(a, l1, true)),
        a.active is Some,
        a.channels.contains_key(a.active->0),
    ensures
        switched(switched(a, l1, true), l2, false).active == a.active,
{
    let n = a.active->0;
    let names1 = listed_names(l1);
    assert(names1.contains(n));
    let len = l1.len() as int;
    let p = position_of(names1, n);
    assert(0 <= p < names1.len() && names1[p] == n);
    let next = step_index(p, true, len);
    let b = switched(a, l1, true);
    let name = names1[next];
    assert(names1.contains(name));
    assert(b.channels.dom() =~= a.channels.dom());
    let names2 = listed_names(l2);
    assert forall|x: Seq<char>| names1.contains(x) <==> names2.contains(x) by {
        if names1.contains(x) {
            assert(a.channels.contains_key(x));
            assert(b.channels.contains_key(x));
        }
        if names2.contains(x) {
            assert(b.channels.contains_key(x));
            assert(a.channels.contains_key(x));
        }
    }
    lemma_in_order_unique(names1, names2);
    assert(l2.len() == names2.len());
    lemma_position(names2, next);
    assert(names2.contains(name));
    assert(step_index(next, false, len) == p);
}

/// Each window holds at most its limit of lines, when it has one: the
/// server window the scrollback, each channel its own limit.
pub open spec fn windows_bounded(a: AppModel) -> bool {
    &&& a.scrollback > 0 ==> a.server_messages.len() <= a.scrollback
    &&& forall|k: Seq<char>|
        #![trigger a.channels[k]]
        a.channels.contains_key(k) && a.channels[k].max > 0 ==> a.channels[k].messages.len()
            <= a.channels[k].max
}

proof fn lemma_keep_last_bounded(s: Seq<MsgModel>, m: MsgModel, max: int)
    requires
        max > 0 ==> s.len() <= max,
    ensures
        max > 0 ==> keep_last(s.push(m), max).len() <= max,
{
}

proof fn lemma_add_line_bounded(c: ChannelModel, m: MsgModel)
    requires
        c.max > 0 ==> c.messages.len() <= c.max,
    ensures
        add_line(c, m).max == c.max,
        c.max > 0 ==> add_line(c, m).messages.len() <= c.max,
{
    lemma_keep_last_bounded(c.messages, m, c.max);
}

/// A line added to the server window keeps it within its limit.
proof fn lemma_server_line_bounded(a: AppModel, content: Seq<char>, kind: MessageKind, now: i64)
    requires
        windows_bounded(a),
    ensures
        windows_bounded(server_line(a, content, kind, now)),
{
    lemma_keep_last_bounded(
        a.server_messages,
        MsgModel { ts: now, sender: seq![], content, kind },
        a.scrollback,
    );
}

/// A channel within its limit put in the table keeps every window within
/// its limit.
proof fn lemma_put_bounded(a: AppModel, name: Seq<char>, c: ChannelModel)
    requires
        windows_bounded(a),
        c.max > 0 ==> c.messages.len() <= c.max,
    ensures
        windows_bounded(put_channel(a, name, c)),
{
}

/// Opening a channel keeps every window within its limit.
proof fn lemma_ensure_bounded(a: AppModel, name: Seq<char>)
    requires
        windows_bounded(a),
    ensures
        windows_bounded(ensure_open(a, name)),
        ensure_open(a, name).channels.contains_key(name),
{
}

/// The channel `name` of `a`, with a line added, keeps every window within
/// its limit.
proof fn lemma_line_in_channel_bounded(a: AppModel, name: Seq<char>, c: ChannelModel, m: MsgModel)
    requires
        windows_bounded(a),
        a.channels.contains_key(name),
        c.max == a.channels[name].max,
        c.messages == a.channels[name].messages,
    ensures
        windows_bounded(put_channel(a, name, add_line(c, m))),
{
    lemma_add_line_bounded(c, m);
}

/// Whatever message arrives, each window stays within its limit.
pub proof fn lemma_message_keeps_windows_bounded(a: AppModel, m: MessageModel, now: i64, after: AppModel)
    requires
        windows_bounded(a),
        settled(on_message(a, m, now).0, after),
    ensures
        windows_bounded(after),
{
    let cmd = m.command;
    let ps = m.params;
    let nick = sender_of(m);
    if cmd == "PRIVMSG"@ {
        if ps.len() > 0 {
            let target = ps[0];
            let shown = privmsg_line(ps.last());
            if is_channel_name(target) {
                lemma_ensure_bounded(a, target);
                let a1 = ensure_open(a, target);
                let l = MsgModel { ts: now, sender: nick, content: shown.1, kind: shown.0 };
                lemma_add_line_bounded(a1.channels[target], l);
                let ch = add_line(a1.channels[target], l);
                lemma_put_bounded(a1, target, ChannelModel { unread: ch.unread + 1, ..ch });
                lemma_put_bounded(a1, target, ch);
            } else {
                lemma_server_line_bounded(a, seq!['<'] + nick + seq!['>', ' '] + shown.1, MessageKind::Normal, now);
            }
        }
    } else if cmd == "JOIN"@ {
        let name = if ps.len() > 0 { ps[0] } else { seq![] };
        if name.len() > 0 {
            lemma_ensure_bounded(a, name);
            let a1 = ensure_open(a, name);
            let a2 = if nick == a.nick { AppModel { active: Some(name), ..a1 } } else { a1 };
            let ch = a2.channels[name];
            lemma_line_in_channel_bounded(
                a2,
                name,
                ChannelModel { users: ch.users.insert(nick, (nick, None)), ..ch },
                MsgModel { ts: now, sender: nick, content: name, kind: MessageKind::Join },
            );
        }
    } else if cmd == "PART"@ {
        if ps.len() > 0 {
            let name = ps[0];
            if a.channels.contains_key(name) {
                let ch = a.channels[name];
                lemma_line_in_channel_bounded(
                    a,
                    name,
                    ChannelModel { users: ch.users.remove(nick), ..ch },
                    MsgModel {
                        ts: now,
                        sender: nick,
                        content: name + seq![' ', '('] + ps.last() + seq![')'],
                        kind: MessageKind::Part,
                    },
                );
            }
        }
    } else if cmd == "QUIT"@ {
        let l = MsgModel { ts: now, sender: nick, content: trailing_or_empty(m), kind: MessageKind::Quit };
        let r = on_message(a, m, now).0.0;
        assert forall|k: Seq<char>|
            #![trigger r.channels[k]]
            r.channels.contains_key(k) && r.channels[k].max > 0 implies r.channels[k].messages.len()
            <= r.channels[k].max by {
            let c = a.channels[k];
            lemma_add_line_bounded(ChannelModel { users: c.users.remove(nick), ..c }, l);
            assert(r.channels[k] == quit_from(c, nick, l));
        }
    } else if cmd == "NICK"@ {
        let new_nick = nick_target(m);
        let l = MsgModel { ts: now, sender: nick, content: new_nick, kind: MessageKind::Nick };
        let r = on_message(a, m, now).0.0;
        assert forall|k: Seq<char>|
            #![trigger r.channels[k]]
            r.channels.contains_key(k) && r.channels[k].max > 0 implies r.channels[k].messages.len()
            <= r.channels[k].max by {
            let c = a.channels[k];
            if c.users.contains_key(nick) {
                lemma_add_line_bounded(
                    ChannelModel { users: c.users.remove(nick).insert(new_nick, (new_nick, c.users[nick].1)), ..c },
                    l,
                );
            }
            assert(r.channels[k] == renamed_in(c, nick, new_nick, l));
        }
    } else if cmd == "KICK"@ {
        if ps.len() >= 2 {
            let name = ps[0];
            let kicked = ps[1];
            if a.channels.contains_key(name) {
                let ch = a.channels[name];
                lemma_line_in_channel_bounded(
                    a,
                    name,
                    ChannelModel { users: ch.users.remove(kicked), ..ch },
                    MsgModel {
                        ts: now,
                        sender: kicked,
                        content: seq!['b', 'y', ' '] + nick + seq![' ', '('] + ps.last() + seq![')'],
                        kind: MessageKind::Kick,
                    },
                );
            }
        }
    } else if cmd == "MODE"@ {
        if ps.len() > 0 {
            let target = ps[0];
            if is_channel_name(target) && a.channels.contains_key(target) {
                lemma_line_in_channel_bounded(
                    a,
                    target,
                    a.channels[target],
                    MsgModel {
                        ts: now,
                        sender: nick,
                        content: join_words(ps.skip(1), seq![' ']),
                        kind: MessageKind::Mode,
                    },
                );
            }
        }
    } else if cmd == "TOPIC"@ {
        if ps.len() > 0 && a.channels.contains_key(ps[0]) {
            let ch = a.channels[ps[0]];
            lemma_line_in_channel_bounded(
                a,
                ps[0],
                ChannelModel { topic: Some(ps.last()), ..ch },
                MsgModel { ts: now, sender: nick, content: ps.last(), kind: MessageKind::Topic },
            );
        }
    } else if cmd == "NOTICE"@ {
        if ps.len() > 0 {
            lemma_server_line_bounded(a, seq!['-'] + nick + seq!['-', ' '] + ps.last(), MessageKind::Notice, now);
        }
    } else if cmd == "353"@ {
        if ps.len() > 2 {
            lemma_ensure_bounded(a, ps[2]);
        }
    } else if cmd == "332"@ {
        if ps.len() > 1 {
            lemma_ensure_bounded(a, ps[1]);
        }
    } else if ps.len() > 0 {
        lemma_server_line_bounded(a, ps.last(), MessageKind::System, now);
    }
}

/// Whatever event the connection reports, each window stays within its
/// limit.
pub proof fn lemma_event_keeps_windows_bounded(a: AppModel, e: IrcEvent, now: i64, after: AppModel)
    requires
        windows_bounded(a),
        settled(on_event(a, e, now).0, after),
    ensures
        windows_bounded(after),
{
    match e {
        IrcEvent::Connected => lemma_server_line_bounded(a, "Connected to server"@, MessageKind::System, now),
        IrcEvent::Disconnected(reason) => lemma_server_line_bounded(
            a,
            "Disconnected: "@ + reason@,
            MessageKind::Error,
            now,
        ),
        IrcEvent::Error(err) => lemma_server_line_bounded(a, "Error: "@ + err@, MessageKind::Error, now),
        IrcEvent::LagUpdate(_) => {},
        IrcEvent::Message(m) => lemma_message_keeps_windows_bounded(a, m@, now, after),
    }
}

/// Whatever the input line asks, each window stays within its limit.
pub proof fn lemma_action_keeps_windows_bounded(
    a: AppModel,
    act: ActionModel,
    now: i64,
    l: Seq<(Seq<char>, usize)>,
)
    requires
        windows_bounded(a),
        listing(l, a),
    ensures
        windows_bounded(on_action(a, act, now, l).0),
{
    match act {
        ActionModel::SendMessage(text) => {
            if let Some(t) = a.active {
                if a.channels.contains_key(t) {
                    lemma_line_in_channel_bounded(
                        a,
                        t,
                        a.channels[t],
                        MsgModel { ts: now, sender: a.nick, content: text, kind: MessageKind::Normal },
                    );
                }
            }
        },
        ActionModel::Command(c, args) => {
            if args.len() == 0 {
                lemma_server_line_bounded(a, "Usage: /loaddll <path>"@, MessageKind::Error, now);
                lemma_server_line_bounded(a, "Usage: /unloaddll <name>"@, MessageKind::Error, now);
            }
        },
        ActionModel::PreviousChannel | ActionModel::NextChannel => {
            if l.len() > 0 {
                let r = on_action(a, act, now, l).0;
                let names = listed_names(l);
                let forward = act is NextChannel;
                let next = match a.active {
                    Some(n) => if names.contains(n) {
                        step_index(position_of(names, n), forward, l.len() as int)
                    } else {
                        0
                    },
                    None => 0,
                };
                if let Some(n) = a.active {
                    if names.contains(n) {
                        let p = position_of(names, n);
                        assert(0 <= p < names.len() && names[p] == n);
                    }
                }
                assert(0 <= next < names.len());
                assert(names.contains(names[next]));
                assert(a.channels.contains_key(names[next]));
                assert forall|k: Seq<char>|
                    #![trigger r.channels[k]]
                    r.channels.contains_key(k) && r.channels[k].max > 0 implies r.channels[k].messages.len()
                    <= r.channels[k].max by {
                    if a.channels.contains_key(k) {
                        assert(a.channels[k].max > 0 ==> a.channels[k].messages.len() <= a.channels[k].max);
                    }
                }
            }
        },
        _ => {},
    }
}

} // verus!

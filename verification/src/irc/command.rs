//! The lines the client sends to the server, one builder per command.
use vstd::prelude::*;

use crate::irc::message::strings_view;
use crate::text::{push_str_chars, string_of};

verus! {

/// The words of `ws` with `sep` between them.
pub open spec fn join_words(ws: Seq<Seq<char>>, sep: Seq<char>) -> Seq<char>
    decreases ws.len(),
{
    if ws.len() == 0 {
        Seq::empty()
    } else if ws.len() == 1 {
        ws[0]
    } else {
        join_words(ws.drop_last(), sep) + sep + ws.last()
    }
}

pub open spec fn strs_view(ws: Seq<&str>) -> Seq<Seq<char>> {
    ws.map_values(|w: &str| w@)
}

/// Appends the words of `ws` to `out` with a space between them.
pub fn push_joined(out: &mut Vec<char>, ws: &[&str])
    ensures
        final(out)@ == old(out)@ + join_words(strs_view(ws@), seq![' ']),
{
    let ghost start = out@;
    let mut i: usize = 0;
    while i < ws.len()
        invariant
            i <= ws@.len(),
            out@ == start + join_words(strs_view(ws@).take(i as int), seq![' ']),
        decreases ws@.len() - i,
    {
        let ghost before = out@;
        if i > 0 {
            out.push(' ');
        }
        push_str_chars(out, ws[i]);
        proof {
            let t = strs_view(ws@).take(i + 1);
            assert(t.drop_last() =~= strs_view(ws@).take(i as int));
            assert(t.last() == ws@[i as int]@);
            if i == 0 {
                assert(join_words(t, seq![' ']) == t[0]);
            }
        }
        assert(out@ =~= start + join_words(strs_view(ws@).take(i + 1), seq![' ']));
        i += 1;
    }
    assert(strs_view(ws@).take(ws@.len() as int) =~= strs_view(ws@));
}

/// The texts of `args` from the `k`-th on, with a space between them.
pub fn join_from(args: &Vec<String>, k: usize) -> (r: String)
    requires
        k <= args@.len(),
    ensures
        r@ == join_words(strings_view(args@).skip(k as int), seq![' ']),
{
    let mut out: Vec<char> = Vec::new();
    let ghost ps = strings_view(args@);
    let mut i: usize = k;
    while i < args.len()
        invariant
            k <= i <= args@.len(),
            ps == strings_view(args@),
            out@ == join_words(ps.subrange(k as int, i as int), seq![' ']),
        decreases args@.len() - i,
    {
        if i > k {
            out.push(' ');
        }
        push_str_chars(&mut out, args[i].as_str());
        proof {
            let t = ps.subrange(k as int, i + 1);
            assert(t.drop_last() =~= ps.subrange(k as int, i as int));
            assert(t.last() == args@[i as int]@);
            if i == k {
                assert(ps.subrange(k as int, i as int).len() == 0);
            }
        }
        i += 1;
    }
    assert(ps.subrange(k as int, ps.len() as int) =~= ps.skip(k as int));
    string_of(&out)
}

/// The builders for client commands; every line ends with `\r\n`.
pub struct IrcCommand;

impl IrcCommand {
    /// Registers with the server password.
    pub fn pass(password: &str) -> (r: String)
        ensures
            r@ == "PASS :"@ + password@ + "\r\n"@,
    {
        let mut out: Vec<char> = Vec::new();
        push_str_chars(&mut out, "PASS :");
        push_str_chars(&mut out, password);
        push_str_chars(&mut out, "\r\n");
        assert(out@ =~= "PASS :"@ + password@ + "\r\n"@);
        string_of(&out)
    }

    /// Sets the nickname.
    pub fn nick(nick: &str) -> (r: String)
        ensures
            r@ == "NICK :"@ + nick@ + "\r\n"@,
    {
        let mut out: Vec<char> = Vec::new();
        push_str_chars(&mut out, "NICK :");
        push_str_chars(&mut out, nick);
        push_str_chars(&mut out, "\r\n");
        assert(out@ =~= "NICK :"@ + nick@ + "\r\n"@);
        string_of(&out)
    }

    /// Registers the user name and real name.
    pub fn user(username: &str, realname: &str) -> (r: String)
        ensures
            r@ == "USER "@ + username@ + " 0 * :"@ + realname@ + "\r\n"@,
    {
        let mut out: Vec<char> = Vec::new();
        push_str_chars(&mut out, "USER ");
        push_str_chars(&mut out, username);
        push_str_chars(&mut out, " 0 * :");
        push_str_chars(&mut out, realname);
        push_str_chars(&mut out, "\r\n");
        assert(out@ =~= "USER "@ + username@ + " 0 * :"@ + realname@ + "\r\n"@);
        string_of(&out)
    }

    /// Joins a channel.
    pub fn join(channel: &str) -> (r: String)
        ensures
            r@ == "JOIN :"@ + channel@ + "\r\n"@,
    {
        let mut out: Vec<char> = Vec::new();
        push_str_chars(&mut out, "JOIN :");
        push_str_chars(&mut out, channel);
        push_str_chars(&mut out, "\r\n");
        assert(out@ =~= "JOIN :"@ + channel@ + "\r\n"@);
        string_of(&out)
    }

    /// Joins a channel that has a key.
    pub fn join_with_key(channel: &str, key: &str) -> (r: String)
        ensures
            r@ == "JOIN "@ + channel@ + " :"@ + key@ + "\r\n"@,
    {
        let mut out: Vec<char> = Vec::new();
        push_str_chars(&mut out, "JOIN ");
        push_str_chars(&mut out, channel);
        push_str_chars(&mut out, " :");
        push_str_chars(&mut out, key);
        push_str_chars(&mut out, "\r\n");
        assert(out@ =~= "JOIN "@ + channel@ + " :"@ + key@ + "\r\n"@);
        string_of(&out)
    }

    /// Sends a message to a channel or user.
    pub fn privmsg(target: &str, message: &str) -> (r: String)
        ensures
            r@ == "PRIVMSG "@ + target@ + " :"@ + message@ + "\r\n"@,
    {
        let mut out: Vec<char> = Vec::new();
        push_str_chars(&mut out, "PRIVMSG ");
        push_str_chars(&mut out, target);
        push_str_chars(&mut out, " :");
        push_str_chars(&mut out, message);
        push_str_chars(&mut out, "\r\n");
        assert(out@ =~= "PRIVMSG "@ + target@ + " :"@ + message@ + "\r\n"@);
        string_of(&out)
    }

    /// Sends a notice to a channel or user.
    pub fn notice(target: &str, message: &str) -> (r: String)
        ensures
            r@ == "NOTICE "@ + target@ + " :"@ + message@ + "\r\n"@,
    {
        let mut out: Vec<char> = Vec::new();
        push_str_chars(&mut out, "NOTICE ");
        push_str_chars(&mut out, target);
        push_str_chars(&mut out, " :");
        push_str_chars(&mut out, message);
        push_str_chars(&mut out, "\r\n");
        assert(out@ =~= "NOTICE "@ + target@ + " :"@ + message@ + "\r\n"@);
        string_of(&out)
    }

    /// Pings the server.
    pub fn ping(token: &str) -> (r: String)
        ensures
            r@ == "PING :"@ + token@ + "\r\n"@,
    {
        let mut out: Vec<char> = Vec::new();
        push_str_chars(&mut out, "PING :");
        push_str_chars(&mut out, token);
        push_str_chars(&mut out, "\r\n");
        assert(out@ =~= "PING :"@ + token@ + "\r\n"@);
        string_of(&out)
    }

    /// Answers a ping.
    pub fn pong(token: &str) -> (r: String)
        ensures
            r@ == "PONG :"@ + token@ + "\r\n"@,
    {
        let mut out: Vec<char> = Vec::new();
        push_str_chars(&mut out, "PONG :");
        push_str_chars(&mut out, token);
        push_str_chars(&mut out, "\r\n");
        assert(out@ =~= "PONG :"@ + token@ + "\r\n"@);
        string_of(&out)
    }

    /// Invites a user to a channel.
    pub fn invite(nick: &str, channel: &str) -> (r: String)
        ensures
            r@ == "INVITE "@ + nick@ + " :"@ + channel@ + "\r\n"@,
    {
        let mut out: Vec<char> = Vec::new();
        push_str_chars(&mut out, "INVITE ");
        push_str_chars(&mut out, nick);
        push_str_chars(&mut out, " :");
        push_str_chars(&mut out, channel);
        push_str_chars(&mut out, "\r\n");
        assert(out@ =~= "INVITE "@ + nick@ + " :"@ + channel@ + "\r\n"@);
        string_of(&out)
    }

    /// Asks who a user is.
    pub fn whois(nick: &str) -> (r: String)
        ensures
            r@ == "WHOIS :"@ + nick@ + "\r\n"@,
    {
        let mut out: Vec<char> = Vec::new();
        push_str_chars(&mut out, "WHOIS :");
        push_str_chars(&mut out, nick);
        push_str_chars(&mut out, "\r\n");
        assert(out@ =~= "WHOIS :"@ + nick@ + "\r\n"@);
        string_of(&out)
    }

    /// Lists users matching a mask.
    pub fn who(mask: &str) -> (r: String)
        ensures
            r@ == "WHO :"@ + mask@ + "\r\n"@,
    {
        let mut out: Vec<char> = Vec::new();
        push_str_chars(&mut out, "WHO :");
        push_str_chars(&mut out, mask);
        push_str_chars(&mut out, "\r\n");
        assert(out@ =~= "WHO :"@ + mask@ + "\r\n"@);
        string_of(&out)
    }

    /// Lists the users of a channel.
    pub fn names(channel: &str) -> (r: String)
        ensures
            r@ == "NAMES :"@ + channel@ + "\r\n"@,
    {
        let mut out: Vec<char> = Vec::new();
        push_str_chars(&mut out, "NAMES :");
        push_str_chars(&mut out, channel);
        push_str_chars(&mut out, "\r\n");
        assert(out@ =~= "NAMES :"@ + channel@ + "\r\n"@);
        string_of(&out)
    }

    /// Sends SASL authentication data.
    pub fn authenticate(data: &str) -> (r: String)
        ensures
            r@ == "AUTHENTICATE :"@ + data@ + "\r\n"@,
    {
        let mut out: Vec<char> = Vec::new();
        push_str_chars(&mut out, "AUTHENTICATE :");
        push_str_chars(&mut out, data);
        push_str_chars(&mut out, "\r\n");
        assert(out@ =~= "AUTHENTICATE :"@ + data@ + "\r\n"@);
        string_of(&out)
    }

    /// Leaves a channel, with an optional reason.
    pub fn part(channel: &str, reason: Option<&str>) -> (r: String)
        ensures
            match reason {
                Some(t) => r@ == "PART "@ + channel@ + " :"@ + t@ + "\r\n"@,
                None => r@ == "PART :"@ + channel@ + "\r\n"@,
            },
    {
        match reason {
            Some(t) => {
                let mut out: Vec<char> = Vec::new();
                push_str_chars(&mut out, "PART ");
                push_str_chars(&mut out, channel);
                push_str_chars(&mut out, " :");
                push_str_chars(&mut out, t);
                push_str_chars(&mut out, "\r\n");
                assert(out@ =~= "PART "@ + channel@ + " :"@ + t@ + "\r\n"@);
                string_of(&out)
            },
            None => {
                let mut out: Vec<char> = Vec::new();
                push_str_chars(&mut out, "PART :");
                push_str_chars(&mut out, channel);
                push_str_chars(&mut out, "\r\n");
                assert(out@ =~= "PART :"@ + channel@ + "\r\n"@);
                string_of(&out)
            },
        }
    }

    /// Quits the server, with an optional reason.
    pub fn quit(reason: Option<&str>) -> (r: String)
        ensures
            match reason {
                Some(t) => r@ == "QUIT :"@ + t@ + "\r\n"@,
                None => r@ == "QUIT\r\n"@,
            },
    {
        match reason {
            Some(t) => {
                let mut out: Vec<char> = Vec::new();
                push_str_chars(&mut out, "QUIT :");
                push_str_chars(&mut out, t);
                push_str_chars(&mut out, "\r\n");
                assert(out@ =~= "QUIT :"@ + t@ + "\r\n"@);
                string_of(&out)
            },
            None => {
                let mut out: Vec<char> = Vec::new();
                push_str_chars(&mut out, "QUIT\r\n");
                assert(out@ =~= "QUIT\r\n"@);
                string_of(&out)
            },
        }
    }

    /// Kicks a user from a channel, with an optional reason.
    pub fn kick(channel: &str, nick: &str, reason: Option<&str>) -> (r: String)
        ensures
            match reason {
                Some(t) => r@ == "KICK "@ + channel@ + " "@ + nick@ + " :"@ + t@ + "\r\n"@,
                None => r@ == "KICK "@ + channel@ + " :"@ + nick@ + "\r\n"@,
            },
    {
        match reason {
            Some(t) => {
                let mut out: Vec<char> = Vec::new();
                push_str_chars(&mut out, "KICK ");
                push_str_chars(&mut out, channel);
                push_str_chars(&mut out, " ");
                push_str_chars(&mut out, nick);
                push_str_chars(&mut out, " :");
                push_str_chars(&mut out, t);
                push_str_chars(&mut out, "\r\n");
                assert(out@ =~= "KICK "@ + channel@ + " "@ + nick@ + " :"@ + t@ + "\r\n"@);
                string_of(&out)
            },
            None => {
                let mut out: Vec<char> = Vec::new();
                push_str_chars(&mut out, "KICK ");
                push_str_chars(&mut out, channel);
                push_str_chars(&mut out, " :");
                push_str_chars(&mut out, nick);
                push_str_chars(&mut out, "\r\n");
                assert(out@ =~= "KICK "@ + channel@ + " :"@ + nick@ + "\r\n"@);
                string_of(&out)
            },
        }
    }

    /// Sets the topic of a channel, or asks for it.
    pub fn topic(channel: &str, topic: Option<&str>) -> (r: String)
        ensures
            match topic {
                Some(t) => r@ == "TOPIC "@ + channel@ + " :"@ + t@ + "\r\n"@,
                None => r@ == "TOPIC :"@ + channel@ + "\r\n"@,
            },
    {
        match topic {
            Some(t) => {
                let mut out: Vec<char> = Vec::new();
                push_str_chars(&mut out, "TOPIC ");
                push_str_chars(&mut out, channel);
                push_str_chars(&mut out, " :");
                push_str_chars(&mut out, t);
                push_str_chars(&mut out, "\r\n");
                assert(out@ =~= "TOPIC "@ + channel@ + " :"@ + t@ + "\r\n"@);
                string_of(&out)
            },
            None => {
                let mut out: Vec<char> = Vec::new();
                push_str_chars(&mut out, "TOPIC :");
                push_str_chars(&mut out, channel);
                push_str_chars(&mut out, "\r\n");
                assert(out@ =~= "TOPIC :"@ + channel@ + "\r\n"@);
                string_of(&out)
            },
        }
    }

    /// Lists one channel, or all of them.
    pub fn list(channel: Option<&str>) -> (r: String)
        ensures
            match channel {
                Some(t) => r@ == "LIST :"@ + t@ + "\r\n"@,
                None => r@ == "LIST\r\n"@,
            },
    {
        match channel {
            Some(t) => {
                let mut out: Vec<char> = Vec::new();
                push_str_chars(&mut out, "LIST :");
                push_str_chars(&mut out, t);
                push_str_chars(&mut out, "\r\n");
                assert(out@ =~= "LIST :"@ + t@ + "\r\n"@);
                string_of(&out)
            },
            None => {
                let mut out: Vec<char> = Vec::new();
                push_str_chars(&mut out, "LIST\r\n");
                assert(out@ =~= "LIST\r\n"@);
                string_of(&out)
            },
        }
    }

    /// Sets an away message, or clears it.
    pub fn away(message: Option<&str>) -> (r: String)
        ensures
            match message {
                Some(t) => r@ == "AWAY :"@ + t@ + "\r\n"@,
                None => r@ == "AWAY\r\n"@,
            },
    {
        match message {
            Some(t) => {
                let mut out: Vec<char> = Vec::new();
                push_str_chars(&mut out, "AWAY :");
                push_str_chars(&mut out, t);
                push_str_chars(&mut out, "\r\n");
                assert(out@ =~= "AWAY :"@ + t@ + "\r\n"@);
                string_of(&out)
            },
            None => {
                let mut out: Vec<char> = Vec::new();
                push_str_chars(&mut out, "AWAY\r\n");
                assert(out@ =~= "AWAY\r\n"@);
                string_of(&out)
            },
        }
    }

    /// Sets or asks for modes: the target, then the mode string and its
    /// parameters when a mode string is given.
    pub fn mode(target: &str, mode: Option<&str>, params: &[&str]) -> (r: String)
        ensures
            match mode {
                Some(m) => r@ == "MODE "@ + target@ + seq![' '] + m@ + params_text(strs_view(params@)) + "\r\n"@,
                None => r@ == "MODE "@ + target@ + "\r\n"@,
            },
    {
        let mut out: Vec<char> = Vec::new();
        push_str_chars(&mut out, "MODE ");
        push_str_chars(&mut out, target);
        let ghost head = out@;
        match mode {
            Some(m) => {
                out.push(' ');
                push_str_chars(&mut out, m);
                let ghost mid = out@;
                let mut i: usize = 0;
                while i < params.len()
                    invariant
                        i <= params@.len(),
                        out@ == mid + params_text(strs_view(params@).take(i as int)),
                    decreases params@.len() - i,
                {
                    out.push(' ');
                    push_str_chars(&mut out, params[i]);
                    proof {
                        let t = strs_view(params@).take(i + 1);
                        assert(t.drop_last() =~= strs_view(params@).take(i as int));
                    }
                    assert(out@ =~= mid + params_text(strs_view(params@).take(i + 1)));
                    i += 1;
                }
                assert(strs_view(params@).take(params@.len() as int) =~= strs_view(params@));
            },
            None => {},
        }
        push_str_chars(&mut out, "\r\n");
        assert(mode is None ==> out@ =~= "MODE "@ + target@ + "\r\n"@);
        string_of(&out)
    }

    /// Requests capabilities, separated by spaces.
    pub fn cap_req(capabilities: &[&str]) -> (r: String)
        ensures
            r@ == "CAP REQ :"@ + join_words(strs_view(capabilities@), seq![' ']) + "\r\n"@,
    {
        let mut out: Vec<char> = Vec::new();
        push_str_chars(&mut out, "CAP REQ :");
        push_joined(&mut out, capabilities);
        push_str_chars(&mut out, "\r\n");
        string_of(&out)
    }

    /// Ends capability negotiation.
    pub fn cap_end() -> (r: String)
        ensures
            r@ == "CAP END\r\n"@,
    {
        crate::text::owned("CAP END\r\n")
    }
}

/// The parameters after a mode string, each after a space.
pub open spec fn params_text(ps: Seq<Seq<char>>) -> Seq<char>
    decreases ps.len(),
{
    if ps.len() == 0 {
        Seq::empty()
    } else {
        params_text(ps.drop_last()) + seq![' '] + ps.last()
    }
}

} // verus!

//! CTCP: commands wrapped in `\x01` inside a PRIVMSG or NOTICE.
use vstd::prelude::*;

use crate::text::{
    ascii_upper, ascii_upper_range, chars_of, find_char, find_in, has_char, lemma_find_is,
    lemma_find_none, push_range, push_str_chars, string_of, string_of_range,
};

verus! {

/// A CTCP request or reply.
pub struct CtcpMessage {
    pub command: String,
    pub params: Option<String>,
}

pub open spec fn opt_text(o: Option<String>) -> Option<Seq<char>> {
    match o {
        Some(s) => Some(s@),
        None => None,
    }
}

/// `s` without the `c` characters at its start.
pub open spec fn trim_start_c(s: Seq<char>, c: char) -> Seq<char>
    decreases s.len(),
{
    if s.len() > 0 && s[0] == c {
        trim_start_c(s.drop_first(), c)
    } else {
        s
    }
}

/// `s` without the `c` characters at its end.
pub open spec fn trim_end_c(s: Seq<char>, c: char) -> Seq<char>
    decreases s.len(),
{
    if s.len() > 0 && s.last() == c {
        trim_end_c(s.drop_last(), c)
    } else {
        s
    }
}

/// `s` without the `\x01` delimiters at either end.
pub open spec fn ctcp_inner(s: Seq<char>) -> Seq<char> {
    trim_end_c(trim_start_c(s, '\x01'), '\x01')
}

/// What reading a CTCP text gives: the upper-cased command and the text
/// after its first space, when the text starts and ends with `\x01` and
/// holds something between them.
pub open spec fn spec_ctcp_parse(t: Seq<char>) -> Option<(Seq<char>, Option<Seq<char>>)> {
    let inner = ctcp_inner(t);
    if inner.len() == 0 || t.len() == 0 || t[0] != '\x01' || t.last() != '\x01' {
        None
    } else {
        match find_char(inner, ' ') {
            Some(i) => Some(
                (
                    ascii_upper(inner.subrange(0, i)),
                    Some(inner.subrange(i + 1, inner.len() as int)),
                ),
            ),
            None => Some((ascii_upper(inner), None)),
        }
    }
}

/// How a CTCP text is written.
pub open spec fn spec_ctcp_encode(command: Seq<char>, params: Option<Seq<char>>) -> Seq<char> {
    match params {
        Some(p) => seq!['\x01'] + ascii_upper(command) + seq![' '] + p + seq!['\x01'],
        None => seq!['\x01'] + ascii_upper(command) + seq!['\x01'],
    }
}

/// Names the current time as `chrono` formats it; `Utc::now` then
/// `format`. Nothing is stated of the text: it depends on the clock.
#[verifier::external_body]
fn current_time_text() -> String {
    chrono::Utc::now().format("%a %b %d %H:%M:%S %Y UTC").to_string()
}

impl CtcpMessage {
    /// Reads a CTCP text such as `\x01PING 12345\x01`.
    pub fn parse(text: &str) -> (r: Option<CtcpMessage>)
        ensures
            match r {
                Some(m) => spec_ctcp_parse(text@) == Some((m.command@, opt_text(m.params))),
                None => spec_ctcp_parse(text@) is None,
            },
    {
        let v = chars_of(text);
        let n = v.len();
        let mut b: usize = 0;
        assert(v@.subrange(0, n as int) =~= v@);
        while b < n && v[b] == '\x01'
            invariant
                b <= n == v@.len(),
                trim_start_c(v@.subrange(b as int, n as int), '\x01') == trim_start_c(v@, '\x01'),
            decreases n - b,
        {
            assert(v@.subrange(b as int, n as int).drop_first() =~= v@.subrange(b + 1, n as int));
            b += 1;
        }
        assert(v@.subrange(0, n as int) =~= v@);
        let mut e: usize = n;
        while e > b && v[e - 1] == '\x01'
            invariant
                b <= e <= n == v@.len(),
                trim_end_c(v@.subrange(b as int, e as int), '\x01') == ctcp_inner(v@),
                trim_start_c(v@, '\x01') == v@.subrange(b as int, n as int),
            decreases e,
        {
            assert(v@.subrange(b as int, e as int).drop_last() =~= v@.subrange(b as int, e - 1));
            e -= 1;
        }
        let ghost inner = v@.subrange(b as int, e as int);
        assert(inner == ctcp_inner(text@));
        if e == b || n == 0 || v[0] != '\x01' || v[n - 1] != '\x01' {
            return None;
        }
        match find_in(&v, b, e, ' ') {
            Some(i) => {
                let cmd = ascii_upper_range(&v, b, i);
                assert(v@.subrange(b as int, i as int) =~= inner.subrange(0, i - b));
                let rest = string_of_range(&v, i + 1, e);
                assert(rest@ =~= inner.subrange(i - b + 1, inner.len() as int));
                Some(CtcpMessage { command: string_of(&cmd), params: Some(rest) })
            },
            None => {
                let cmd = ascii_upper_range(&v, b, e);
                Some(CtcpMessage { command: string_of(&cmd), params: None })
            },
        }
    }

    /// Whether `text` is wrapped in `\x01` delimiters.
    pub fn is_ctcp(text: &str) -> (r: bool)
        ensures
            r == (text@.len() >= 2 && text@[0] == '\x01' && text@.last() == '\x01'),
    {
        let v = chars_of(text);
        v.len() >= 2 && v[0] == '\x01' && v[v.len() - 1] == '\x01'
    }

    /// Writes a CTCP text: the command upper-cased, then the parameters
    /// after a space, between `\x01` delimiters.
    pub fn encode(command: &str, params: Option<&str>) -> (r: String)
        ensures
            r@ == spec_ctcp_encode(
                command@,
                match params {
                    Some(p) => Some(p@),
                    None => None,
                },
            ),
    {
        let cv = chars_of(command);
        let up = ascii_upper_range(&cv, 0, cv.len());
        assert(cv@.subrange(0, cv@.len() as int) =~= command@);
        let mut out: Vec<char> = Vec::new();
        out.push('\x01');
        push_range(&mut out, &up, 0, up.len());
        assert(up@.subrange(0, up@.len() as int) =~= up@);
        match params {
            Some(p) => {
                out.push(' ');
                push_str_chars(&mut out, p);
            },
            None => {},
        }
        out.push('\x01');
        assert(out@ =~= spec_ctcp_encode(
            command@,
            match params {
                Some(p) => Some(p@),
                None => None,
            },
        ));
        string_of(&out)
    }

    /// The reply to a VERSION request.
    pub fn version_reply() -> (r: String)
        ensures
            r@ == spec_ctcp_encode(
                "VERSION"@,
                Some("BitchX 2.0.0-rs - relay (リレー) release candidate"@),
            ),
    {
        Self::encode("VERSION", Some("BitchX 2.0.0-rs - relay (リレー) release candidate"))
    }

    /// The reply to a PING request, echoing its token.
    pub fn ping_reply(token: &str) -> (r: String)
        ensures
            r@ == spec_ctcp_encode("PING"@, Some(token@)),
    {
        Self::encode("PING", Some(token))
    }

    /// The reply to a TIME request, for the time text `now`.
    pub fn time_reply_at(now: &str) -> (r: String)
        ensures
            r@ == spec_ctcp_encode("TIME"@, Some(now@)),
    {
        Self::encode("TIME", Some(now))
    }

    /// The reply to a TIME request, with the current time.
    pub fn time_reply() -> (r: String)
        ensures
            exists|now: Seq<char>| r@ == spec_ctcp_encode("TIME"@, Some(now)),
    {
        let now = current_time_text();
        Self::time_reply_at(now.as_str())
    }

    /// The reply to a CLIENTINFO request: the CTCP commands understood.
    pub fn clientinfo_reply() -> (r: String)
        ensures
            r@ == spec_ctcp_encode(
                "CLIENTINFO"@,
                Some("ACTION CLIENTINFO DCC FINGER PING TIME VERSION"@),
            ),
    {
        Self::encode("CLIENTINFO", Some("ACTION CLIENTINFO DCC FINGER PING TIME VERSION"))
    }

    /// An ACTION (`/me`) text.
    pub fn action(text: &str) -> (r: String)
        ensures
            r@ == spec_ctcp_encode("ACTION"@, Some(text@)),
    {
        Self::encode("ACTION", Some(text))
    }

    /// The reply to a FINGER request.
    pub fn finger_reply(username: &str) -> (r: String)
        ensures
            r@ == spec_ctcp_encode("FINGER"@, Some(username@)),
    {
        Self::encode("FINGER", Some(username))
    }
}

proof fn lemma_trim_start_stops(s: Seq<char>, c: char)
    requires
        s.len() > 0 ==> s[0] != c,
    ensures
        trim_start_c(s, c) == s,
{
}

proof fn lemma_trim_end_stops(s: Seq<char>, c: char)
    requires
        s.len() > 0 ==> s.last() != c,
    ensures
        trim_end_c(s, c) == s,
{
}

proof fn lemma_ascii_upper_idempotent(s: Seq<char>)
    ensures
        ascii_upper(ascii_upper(s)) == ascii_upper(s),
        ascii_upper(s).len() == s.len(),
{
    assert(ascii_upper(ascii_upper(s)) =~= ascii_upper(s));
}

/// Reading back what [`CtcpMessage::encode`] writes gives the command
/// upper-cased and the parameters unchanged, for a command that is not
/// empty and holds neither a space nor `\x01`, and parameters that do not
/// end in `\x01`.
pub proof fn lemma_ctcp_round_trip(command: Seq<char>, params: Option<Seq<char>>)
    requires
        command.len() > 0,
        !has_char(command, ' '),
        !has_char(command, '\x01'),
        match params {
            Some(p) => p.len() == 0 || p.last() != '\x01',
            None => true,
        },
    ensures
        spec_ctcp_parse(spec_ctcp_encode(command, params)) == Some((ascii_upper(command), params)),
{
    let c = ascii_upper(command);
    lemma_ascii_upper_idempotent(command);
    assert(!has_char(c, ' ') && !has_char(c, '\x01')) by {
        assert forall|i: int| 0 <= i < c.len() implies c[i] != ' ' && c[i] != '\x01' by {
            assert(c[i] == crate::text::upper_char(command[i]));
        }
    }
    let t = spec_ctcp_encode(command, params);
    let body = match params {
        Some(p) => c + seq![' '] + p,
        None => c,
    };
    assert(t =~= seq!['\x01'] + body + seq!['\x01']);
    assert(t.drop_first() =~= body + seq!['\x01']);
    lemma_trim_start_stops(body + seq!['\x01'], '\x01');
    assert((body + seq!['\x01']).drop_last() =~= body);
    assert(body.len() > 0 && body.last() != '\x01') by {
        match params {
            Some(p) => {
                if p.len() > 0 {
                    assert(body.last() == p.last());
                } else {
                    assert(body.last() == ' ');
                }
            },
            None => {
                assert(body.last() == c[c.len() - 1]);
            },
        }
    }
    lemma_trim_end_stops(body, '\x01');
    assert(ctcp_inner(t) == body);
    match params {
        Some(p) => {
            assert forall|k: int| 0 <= k < c.len() implies body[k] != ' ' by {
                assert(body[k] == c[k]);
            }
            lemma_find_is(body, ' ', c.len() as int);
            assert(body.subrange(0, c.len() as int) =~= c);
            assert(body.subrange(c.len() as int + 1, body.len() as int) =~= p);
        },
        None => {
            lemma_find_none(body, ' ');
        },
    }
}

} // verus!

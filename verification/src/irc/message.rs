//! IRC protocol lines: parsing a raw line into a message and writing a
//! message back out as a raw line.
use vstd::prelude::*;

use crate::error::BitchYError;
use crate::text::{
    all_ascii, ascii_upper, chars_of, find_char, is_ws, lemma_find_is, lemma_find_none,
    find_in, has_char, is_digit, lemma_find_char_cases, owned, push_str_chars,
    string_of, string_of_range, trim_end_crlf, trim_end_crlf_idx, trim_start_ws, trim_start_ws_idx,
    upper, upper_char, upper_range, is_ascii_char, is_first,
};

verus! {

/// Who sent a message: a server name, or a user `nick!user@host`.
#[derive(Debug, Clone, PartialEq)]
pub enum Prefix {
    Server(String),
    User { nick: String, user: Option<String>, host: Option<String> },
}

/// One IRC protocol message.
#[derive(Debug, Clone, PartialEq)]
pub struct IrcMessage {
    pub prefix: Option<Prefix>,
    pub command: String,
    pub params: Vec<String>,
}

/// The abstract value of a [`Prefix`].
pub enum PrefixModel {
    Server(Seq<char>),
    User { nick: Seq<char>, user: Option<Seq<char>>, host: Option<Seq<char>> },
}

/// The abstract value of an [`IrcMessage`].
pub struct MessageModel {
    pub prefix: Option<PrefixModel>,
    pub command: Seq<char>,
    pub params: Seq<Seq<char>>,
}

pub open spec fn opt_view(o: Option<String>) -> Option<Seq<char>> {
    match o {
        Some(s) => Some(s@),
        None => None,
    }
}

impl View for Prefix {
    type V = PrefixModel;

    open spec fn view(&self) -> PrefixModel {
        match self {
            Prefix::Server(s) => PrefixModel::Server(s@),
            Prefix::User { nick, user, host } => PrefixModel::User {
                nick: nick@,
                user: opt_view(*user),
                host: opt_view(*host),
            },
        }
    }
}

pub open spec fn strings_view(v: Seq<String>) -> Seq<Seq<char>> {
    v.map_values(|s: String| s@)
}

impl View for IrcMessage {
    type V = MessageModel;

    open spec fn view(&self) -> MessageModel {
        MessageModel {
            prefix: match self.prefix {
                Some(p) => Some(p@),
                None => None,
            },
            command: self.command@,
            params: strings_view(self.params@),
        }
    }
}

// ---------------------------------------------------------------------------
// The reading side
// ---------------------------------------------------------------------------

/// A command of exactly three ASCII digits is a numeric reply.
pub open spec fn is_numeric(cmd: Seq<char>) -> bool {
    cmd.len() == 3 && forall|i: int| 0 <= i < 3 ==> is_digit(#[trigger] cmd[i])
}

/// How the text between `:` and the first space is read.
pub open spec fn spec_parse_prefix(s: Seq<char>, numeric: bool) -> PrefixModel {
    match find_char(s, '!') {
        Some(b) => {
            let rest = s.subrange(b + 1, s.len() as int);
            match find_char(rest, '@') {
                Some(a) => PrefixModel::User {
                    nick: s.subrange(0, b),
                    user: Some(rest.subrange(0, a)),
                    host: Some(rest.subrange(a + 1, rest.len() as int)),
                },
                None => PrefixModel::User {
                    nick: s.subrange(0, b),
                    user: Some(rest),
                    host: None,
                },
            }
        },
        None => match find_char(s, '@') {
            Some(a) => PrefixModel::User {
                nick: s.subrange(0, a),
                user: None,
                host: Some(s.subrange(a + 1, s.len() as int)),
            },
            None => if has_char(s, '.') || numeric {
                PrefixModel::Server(s)
            } else {
                PrefixModel::User { nick: s, user: None, host: None }
            },
        },
    }
}

/// How the text after the command is split into parameters: words separated
/// by single spaces, until one starts with `:`, which takes the rest.
pub open spec fn split_params(rest: Seq<char>) -> Seq<Seq<char>>
    decreases rest.len(),
{
    if rest.len() == 0 {
        Seq::empty()
    } else if rest[0] == ':' {
        seq![rest.subrange(1, rest.len() as int)]
    } else {
        match find_char(rest, ' ') {
            Some(p) => if 0 <= p < rest.len() {
                seq![rest.subrange(0, p)] + split_params(rest.subrange(p + 1, rest.len() as int))
            } else {
                Seq::empty()
            },
            None => seq![rest],
        }
    }
}

/// The command and the parameters of the text that follows the prefix.
pub open spec fn spec_parse_body(prefix: Option<Seq<char>>, rest: Seq<char>) -> Result<
    MessageModel,
    Seq<char>,
> {
    if rest.len() == 0 {
        Err("no command found"@)
    } else {
        let (command, params) = match find_char(rest, ' ') {
            Some(sp) => (
                upper(rest.subrange(0, sp)),
                split_params(rest.subrange(sp + 1, rest.len() as int)),
            ),
            None => (upper(rest), Seq::empty()),
        };
        Ok(
            MessageModel {
                prefix: match prefix {
                    Some(p) => Some(spec_parse_prefix(p, is_numeric(command))),
                    None => None,
                },
                command,
                params,
            },
        )
    }
}

/// What reading a raw line gives: the message, or the reason it is refused.
pub open spec fn spec_parse(line: Seq<char>) -> Result<MessageModel, Seq<char>> {
    let l = trim_end_crlf(line);
    if l.len() == 0 {
        Err("empty input"@)
    } else if l[0] == ':' {
        match find_char(l, ' ') {
            None => Err("prefix with no command"@),
            Some(e) => spec_parse_body(
                Some(l.subrange(1, e)),
                trim_start_ws(l.subrange(e + 1, l.len() as int)),
            ),
        }
    } else {
        spec_parse_body(None, trim_start_ws(l))
    }
}

// ---------------------------------------------------------------------------
// The writing side
// ---------------------------------------------------------------------------

pub open spec fn opt_piece(mark: char, o: Option<Seq<char>>) -> Seq<char> {
    match o {
        Some(t) => seq![mark] + t,
        None => Seq::empty(),
    }
}

/// How a prefix is written.
pub open spec fn prefix_raw(p: PrefixModel) -> Seq<char> {
    match p {
        PrefixModel::Server(s) => s,
        PrefixModel::User { nick, user, host } => nick + opt_piece('!', user) + opt_piece(
            '@',
            host,
        ),
    }
}

/// How parameter `i` of `ps` is written: after a space, and the last one
/// after ` :`.
pub open spec fn param_piece(ps: Seq<Seq<char>>, i: int) -> Seq<char> {
    if i == ps.len() - 1 {
        seq![' ', ':'] + ps[i]
    } else {
        seq![' '] + ps[i]
    }
}

/// The written form of the first `k` parameters of `ps`.
pub open spec fn params_upto(ps: Seq<Seq<char>>, k: int) -> Seq<char>
    decreases k,
{
    if k <= 0 {
        Seq::empty()
    } else {
        params_upto(ps, k - 1) + param_piece(ps, k - 1)
    }
}

/// How a message is written as a raw line (without the line ending).
pub open spec fn spec_to_raw(m: MessageModel) -> Seq<char> {
    let head = match m.prefix {
        Some(p) => seq![':'] + prefix_raw(p) + seq![' '],
        None => Seq::empty(),
    };
    head + m.command + params_upto(m.params, m.params.len() as int)
}


// ---------------------------------------------------------------------------
// What a parse gives is written back as it was read
// ---------------------------------------------------------------------------

/// The text `spec_parse` reads the command and the parameters from: what
/// follows the prefix, or the whole line, without leading white space.
pub open spec fn parse_body_text(line: Seq<char>) -> Seq<char> {
    let l = trim_end_crlf(line);
    if l.len() > 0 && l[0] == ':' {
        match find_char(l, ' ') {
            Some(e) => trim_start_ws(l.subrange(e + 1, l.len() as int)),
            None => Seq::empty(),
        }
    } else {
        trim_start_ws(l)
    }
}

/// The command word as the line writes it, before it is upper-cased.
pub open spec fn raw_command(line: Seq<char>) -> Seq<char> {
    let rest = parse_body_text(line);
    match find_char(rest, ' ') {
        Some(sp) => rest.subrange(0, sp),
        None => rest,
    }
}

/// `s` holds no carriage return and no line feed.
pub open spec fn no_crlf(s: Seq<char>) -> bool {
    forall|i: int| 0 <= i < s.len() ==> !is_crlf(#[trigger] s[i])
}

/// Leading white space is dropped from the front: what is left is a suffix
/// that does not start with white space.
proof fn lemma_trim_start_suffix(x: Seq<char>)
    ensures
        trim_start_ws(x).len() <= x.len(),
        trim_start_ws(x) == x.subrange(x.len() - trim_start_ws(x).len(), x.len() as int),
        trim_start_ws(x).len() > 0 ==> !is_ws(trim_start_ws(x)[0]),
    decreases x.len(),
{
    if x.len() > 0 && is_ws(x[0]) {
        lemma_trim_start_suffix(x.drop_first());
        let t = trim_start_ws(x.drop_first());
        assert(t == x.drop_first().subrange(x.len() - 1 - t.len(), x.len() - 1));
        assert(x.drop_first().subrange(x.len() - 1 - t.len(), x.len() - 1) =~= x.subrange(
            x.len() - t.len(),
            x.len() as int,
        ));
    } else {
        assert(x.subrange(0, x.len() as int) =~= x);
    }
}

/// Upper-casing an ASCII word keeps it ASCII, keeps its length, changes
/// no character that is not a letter, and does nothing the second time.
proof fn lemma_ascii_upper_word(x: Seq<char>)
    requires
        all_ascii(x),
    ensures
        ascii_upper(x).len() == x.len(),
        all_ascii(ascii_upper(x)),
        ascii_upper(ascii_upper(x)) == ascii_upper(x),
        forall|i: int| 0 <= i < x.len() ==> #[trigger] ascii_upper(x)[i] == upper_char(x[i]),
        forall|i: int| 0 <= i < x.len() ==> (ascii_upper(x)[i] == ' ' <==> x[i] == ' '),
        forall|i: int| 0 <= i < x.len() ==> (is_ws(ascii_upper(x)[i]) <==> is_ws(x[i])),
        forall|i: int| 0 <= i < x.len() ==> (is_crlf(ascii_upper(x)[i]) <==> is_crlf(x[i])),
{
    let u = ascii_upper(x);
    assert forall|i: int| 0 <= i < x.len() implies #[trigger] u[i] == upper_char(x[i]) && is_ascii_char(u[i])
        && upper_char(u[i]) == u[i] && (u[i] == ' ' <==> x[i] == ' ') && (is_ws(u[i]) <==> is_ws(x[i]))
        && (is_crlf(u[i]) <==> is_crlf(x[i])) by {
        let c = x[i];
        assert(is_ascii_char(c));
        if 'a' <= c && c <= 'z' {
            assert((((c as u32) - 32) as char) as u32 == (c as u32) - 32);
        }
    }
    assert(ascii_upper(u) =~= u);
}

/// Parameters read from text without line breaks: all but the last are
/// words without spaces that do not start with `:`, and none holds a line
/// break.
proof fn lemma_split_params_wf(rest: Seq<char>)
    requires
        no_crlf(rest),
    ensures
        wf_params(split_params(rest)),
        forall|i: int| 0 <= i < split_params(rest).len() ==> no_crlf(#[trigger] split_params(rest)[i]),
    decreases rest.len(),
{
    let ps = split_params(rest);
    if rest.len() == 0 {
    } else if rest[0] == ':' {
        let w = rest.subrange(1, rest.len() as int);
        assert(ps == seq![w]);
        assert(no_crlf(w)) by {
            assert forall|j: int| 0 <= j < w.len() implies !is_crlf(#[trigger] w[j]) by {
                assert(w[j] == rest[j + 1]);
            }
        }
    } else {
        lemma_find_char_cases(rest, ' ');
        match find_char(rest, ' ') {
            Some(p) => {
                let w = rest.subrange(0, p);
                let after = rest.subrange(p + 1, rest.len() as int);
                assert(no_crlf(after)) by {
                    assert forall|j: int| 0 <= j < after.len() implies !is_crlf(#[trigger] after[j]) by {
                        assert(after[j] == rest[j + p + 1]);
                    }
                }
                assert(no_crlf(w)) by {
                    assert forall|j: int| 0 <= j < w.len() implies !is_crlf(#[trigger] w[j]) by {
                        assert(w[j] == rest[j]);
                    }
                }
                lemma_split_params_wf(after);
                let tail = split_params(after);
                assert(ps == seq![w] + tail);
                assert(!has_char(w, ' ')) by {
                    if has_char(w, ' ') {
                        let j = choose|j: int| 0 <= j < w.len() && w[j] == ' ';
                        assert(rest[j] == ' ');
                    }
                }
                assert(w.len() > 0 ==> w[0] != ':') by {
                    if w.len() > 0 {
                        assert(w[0] == rest[0]);
                    }
                }
                assert forall|i: int| 0 <= i < ps.len() implies no_crlf(#[trigger] ps[i]) by {
                    if i > 0 {
                        assert(ps[i] == tail[i - 1]);
                    }
                }
                assert forall|i: int| 0 <= i < ps.len() - 1 implies !has_char(#[trigger] ps[i], ' ') && (
                ps[i].len() > 0 ==> ps[i][0] != ':') by {
                    if i > 0 {
                        assert(ps[i] == tail[i - 1]);
                    }
                }
            },
            None => {
                assert(ps == seq![rest]);
            },
        }
    }
}

/// A part of a text does not hold what the whole does not.
proof fn lemma_no_char_in_part(s: Seq<char>, a: int, b: int, c: char)
    requires
        0 <= a <= b <= s.len(),
        !has_char(s, c),
    ensures
        !has_char(s.subrange(a, b), c),
{
    if has_char(s.subrange(a, b), c) {
        let j = choose|j: int| 0 <= j < b - a && s.subrange(a, b)[j] == c;
        assert(s[a + j] == c);
    }
}

/// Before the first `c`, there is no `c`.
proof fn lemma_no_char_before(s: Seq<char>, c: char, k: int)
    requires
        is_first(s, c, k),
    ensures
        !has_char(s.subrange(0, k), c),
{
    if has_char(s.subrange(0, k), c) {
        let j = choose|j: int| 0 <= j < k && s.subrange(0, k)[j] == c;
        assert(s[j] == c);
    }
}

/// A prefix read from text without spaces is written back as it was read.
proof fn lemma_parsed_prefix_wf(p: Seq<char>, numeric: bool)
    requires
        !has_char(p, ' '),
    ensures
        wf_prefix(spec_parse_prefix(p, numeric), numeric),
{
    lemma_find_char_cases(p, '!');
    lemma_find_char_cases(p, '@');
    match find_char(p, '!') {
        Some(b) => {
            let rest = p.subrange(b + 1, p.len() as int);
            lemma_no_char_before(p, '!', b);
            lemma_no_char_in_part(p, 0, b, ' ');
            lemma_no_char_in_part(p, b + 1, p.len() as int, ' ');
            lemma_find_char_cases(rest, '@');
            match find_char(rest, '@') {
                Some(a) => {
                    lemma_no_char_before(rest, '@', a);
                    lemma_no_char_in_part(rest, 0, a, ' ');
                    lemma_no_char_in_part(rest, a + 1, rest.len() as int, ' ');
                },
                None => {},
            }
        },
        None => {
            match find_char(p, '@') {
                Some(a) => {
                    lemma_no_char_before(p, '@', a);
                    lemma_no_char_in_part(p, 0, a, ' ');
                    lemma_no_char_in_part(p, 0, a, '!');
                    lemma_no_char_in_part(p, a + 1, p.len() as int, ' ');
                    lemma_no_char_in_part(p, a + 1, p.len() as int, '!');
                },
                None => {},
            }
        },
    }
}

/// A line that parses, whose command word is ASCII, that holds no line
/// break before its line ending, and that does not read a `:` as the start
/// of its command, gives a well-formed message; so writing that message
/// out and reading it again gives the same message.
pub proof fn lemma_parsed_well_formed(line: Seq<char>, m: MessageModel)
    requires
        spec_parse(line) == Ok::<MessageModel, Seq<char>>(m),
        all_ascii(raw_command(line)),
        no_crlf(trim_end_crlf(line)),
        m.prefix is None ==> m.command[0] != ':',
    ensures
        wf_message(m),
        spec_parse(spec_to_raw(m)) == Ok::<MessageModel, Seq<char>>(m),
{
    let l = trim_end_crlf(line);
    let rest = parse_body_text(line);
    // The text the command and parameters come from has no line break
    // and does not start with white space.
    let src = if l.len() > 0 && l[0] == ':' {
        let e = find_char(l, ' ')->0;
        l.subrange(e + 1, l.len() as int)
    } else {
        l
    };
    lemma_find_char_cases(l, ' ');
    if l.len() > 0 && l[0] == ':' {
        let e = find_char(l, ' ')->0;
        assert(no_crlf(src)) by {
            assert forall|j: int| 0 <= j < src.len() implies !is_crlf(#[trigger] src[j]) by {
                assert(src[j] == l[j + e + 1]);
            }
        }
        let pfx = l.subrange(1, e);
        lemma_no_char_before(l, ' ', e);
        lemma_no_char_in_part(l.subrange(0, e), 1, e, ' ');
        assert(l.subrange(0, e).subrange(1, e) =~= pfx);
    }
    assert(rest == trim_start_ws(src));
    lemma_trim_start_suffix(src);
    let off = src.len() - rest.len();
    assert(no_crlf(rest)) by {
        assert forall|j: int| 0 <= j < rest.len() implies !is_crlf(#[trigger] rest[j]) by {
            assert(rest[j] == src[j + off]);
        }
    }
    assert(rest.len() > 0);
    let raw = raw_command(line);
    lemma_ascii_upper_word(raw);
    lemma_find_char_cases(rest, ' ');
    match find_char(rest, ' ') {
        Some(sp) => {
            assert(sp > 0) by {
                if sp == 0 {
                    assert(is_ws(rest[0]));
                }
            }
            lemma_no_char_before(rest, ' ', sp);
            let after = rest.subrange(sp + 1, rest.len() as int);
            assert(no_crlf(after)) by {
                assert forall|j: int| 0 <= j < after.len() implies !is_crlf(#[trigger] after[j]) by {
                    assert(after[j] == rest[j + sp + 1]);
                }
            }
            lemma_split_params_wf(after);
            assert(m.params == split_params(after));
            assert(raw[0] == rest[0]);
            assert forall|j: int| 0 <= j < raw.len() implies !is_crlf(#[trigger] raw[j]) by {
                assert(raw[j] == rest[j]);
            }
        },
        None => {
            assert(m.params.len() == 0);
        },
    }
    let c = m.command;
    assert(c == ascii_upper(raw));
    assert(!has_char(c, ' ')) by {
        if has_char(c, ' ') {
            let j = choose|j: int| 0 <= j < c.len() && c[j] == ' ';
            assert(raw[j] == ' ');
        }
    }
    assert(!is_ws(c[0]));
    assert(wf_command(c, m.prefix is Some));
    match m.prefix {
        Some(pm) => {
            let e = find_char(l, ' ')->0;
            lemma_parsed_prefix_wf(l.subrange(1, e), is_numeric(c));
        },
        None => {},
    }
    if m.params.len() == 0 {
        assert(!is_crlf(raw.last()));
        assert(c.last() == upper_char(raw.last()));
    } else {
        assert(no_crlf(m.params[m.params.len() - 1]));
    }
    assert(wf_message(m));
    lemma_parse_to_raw(m);
}

// ---------------------------------------------------------------------------
// Reading back what was written
// ---------------------------------------------------------------------------

/// A prefix that reads back as itself after the command `numeric` says.
pub open spec fn wf_prefix(p: PrefixModel, numeric: bool) -> bool {
    match p {
        PrefixModel::Server(s) => !has_char(s, ' ') && !has_char(s, '!') && !has_char(s, '@') && (
        has_char(s, '.') || numeric),
        PrefixModel::User { nick, user, host } => !has_char(nick, ' ') && !has_char(nick, '!')
            && match user {
            Some(u) => !has_char(u, ' ') && !has_char(u, '@') && match host {
                Some(h) => !has_char(h, ' '),
                None => true,
            },
            None => !has_char(nick, '@') && match host {
                Some(h) => !has_char(h, ' ') && !has_char(h, '!'),
                None => !(has_char(nick, '.') || numeric),
            },
        },
    }
}

/// A command that reads back as itself: upper-case ASCII without spaces,
/// not starting with white space, nor with `:` when there is no prefix.
pub open spec fn wf_command(c: Seq<char>, has_prefix: bool) -> bool {
    &&& c.len() > 0
    &&& all_ascii(c)
    &&& ascii_upper(c) == c
    &&& !has_char(c, ' ')
    &&& !is_ws(c[0])
    &&& !has_prefix ==> c[0] != ':'
}

/// Parameters that read back as themselves: all but the last are words
/// without spaces that do not start with `:`.
pub open spec fn wf_params(ps: Seq<Seq<char>>) -> bool {
    forall|i: int|
        0 <= i < ps.len() - 1 ==> !has_char(#[trigger] ps[i], ' ') && (ps[i].len() > 0 ==> ps[i][0]
            != ':')
}

pub open spec fn is_crlf(c: char) -> bool {
    c == '\r' || c == '\n'
}

/// A message whose raw line reads back as the same message.
pub open spec fn wf_message(m: MessageModel) -> bool {
    &&& wf_command(m.command, m.prefix is Some)
    &&& match m.prefix {
        Some(p) => wf_prefix(p, is_numeric(m.command)),
        None => true,
    }
    &&& wf_params(m.params)
    &&& m.params.len() == 0 ==> !is_crlf(m.command.last())
    &&& m.params.len() > 0 && m.params.last().len() > 0 ==> !is_crlf(m.params.last().last())
}

/// The parameters written front to back, after the first space.
pub open spec fn joined(ps: Seq<Seq<char>>) -> Seq<char>
    decreases ps.len(),
{
    if ps.len() <= 1 {
        seq![':'] + ps[0]
    } else {
        ps[0] + seq![' '] + joined(ps.drop_first())
    }
}

proof fn lemma_params_upto_front(ps: Seq<Seq<char>>, k: int)
    requires
        1 <= k <= ps.len(),
    ensures
        params_upto(ps, k) == param_piece(ps, 0) + params_upto(ps.drop_first(), k - 1),
    decreases k,
{
    if k == 1 {
        assert(params_upto(ps.drop_first(), 0) == Seq::<char>::empty());
        assert(params_upto(ps, 0) == Seq::<char>::empty());
        assert(params_upto(ps, 1) =~= param_piece(ps, 0));
    } else {
        lemma_params_upto_front(ps, k - 1);
        assert(param_piece(ps, k - 1) == param_piece(ps.drop_first(), k - 2));
        assert(params_upto(ps, k) =~= param_piece(ps, 0) + params_upto(ps.drop_first(), k - 1));
    }
}

proof fn lemma_params_joined(ps: Seq<Seq<char>>)
    requires
        ps.len() >= 1,
    ensures
        params_upto(ps, ps.len() as int) == seq![' '] + joined(ps),
    decreases ps.len(),
{
    lemma_params_upto_front(ps, ps.len() as int);
    if ps.len() == 1 {
        assert(params_upto(ps.drop_first(), 0) == Seq::<char>::empty());
        assert(params_upto(ps, 1) =~= seq![' '] + joined(ps));
    } else {
        let t = ps.drop_first();
        lemma_params_joined(t);
        assert(params_upto(ps, ps.len() as int) =~= seq![' '] + joined(ps));
    }
}

proof fn lemma_joined_last(ps: Seq<Seq<char>>)
    requires
        ps.len() >= 1,
    ensures
        joined(ps).len() > 0,
        joined(ps).last() == (if ps.last().len() > 0 {
            ps.last().last()
        } else {
            ':'
        }),
    decreases ps.len(),
{
    if ps.len() > 1 {
        lemma_joined_last(ps.drop_first());
    }
}

proof fn lemma_split_joined(ps: Seq<Seq<char>>)
    requires
        ps.len() >= 1,
        wf_params(ps),
    ensures
        split_params(joined(ps)) == ps,
    decreases ps.len(),
{
    let j = joined(ps);
    if ps.len() == 1 {
        assert(j[0] == ':');
        assert(j.subrange(1, j.len() as int) =~= ps[0]);
        assert(split_params(j) =~= ps);
    } else {
        let t = ps.drop_first();
        assert(wf_params(t)) by {
            assert forall|i: int| 0 <= i < t.len() - 1 implies !has_char(#[trigger] t[i], ' ') && (
            t[i].len() > 0 ==> t[i][0] != ':') by {
                assert(t[i] == ps[i + 1]);
            }
        }
        lemma_split_joined(t);
        let w = ps[0];
        assert(!has_char(w, ' ') && (w.len() > 0 ==> w[0] != ':'));
        assert(j =~= w + seq![' '] + joined(t));
        if w.len() > 0 {
            assert(j[0] == w[0]);
        } else {
            assert(j[0] == ' ');
        }
        assert forall|k: int| 0 <= k < w.len() implies j[k] != ' ' by {
            assert(j[k] == w[k]);
        }
        lemma_find_is(j, ' ', w.len() as int);
        assert(j.subrange(0, w.len() as int) =~= w);
        assert(j.subrange(w.len() as int + 1, j.len() as int) =~= joined(t));
        assert(split_params(j) =~= seq![w] + t);
        assert(seq![w] + t =~= ps);
    }
}

proof fn lemma_no_char_first(s: Seq<char>, c: char, rest: Seq<char>)
    requires
        !has_char(s, c),
    ensures
        find_char(s + seq![c] + rest, c) == Some(s.len() as int),
{
    let t = s + seq![c] + rest;
    assert forall|k: int| 0 <= k < s.len() implies t[k] != c by {
        assert(t[k] == s[k]);
    }
    lemma_find_is(t, c, s.len() as int);
}

proof fn lemma_prefix_round_trip(p: PrefixModel, numeric: bool)
    requires
        wf_prefix(p, numeric),
    ensures
        spec_parse_prefix(prefix_raw(p), numeric) == p,
        !has_char(prefix_raw(p), ' '),
{
    let raw = prefix_raw(p);
    match p {
        PrefixModel::Server(s) => {
            lemma_find_none(s, '!');
            lemma_find_none(s, '@');
        },
        PrefixModel::User { nick, user, host } => {
            match user {
                Some(u) => {
                    let rest = u + opt_piece('@', host);
                    assert(raw =~= nick + seq!['!'] + rest);
                    lemma_no_char_first(nick, '!', rest);
                    assert(raw.subrange(0, nick.len() as int) =~= nick);
                    assert(raw.subrange(nick.len() as int + 1, raw.len() as int) =~= rest);
                    match host {
                        Some(h) => {
                            assert(rest =~= u + seq!['@'] + h);
                            lemma_no_char_first(u, '@', h);
                            assert(rest.subrange(0, u.len() as int) =~= u);
                            assert(rest.subrange(u.len() as int + 1, rest.len() as int) =~= h);
                            assert forall|k: int| 0 <= k < raw.len() implies raw[k] != ' ' by {
                                if k < nick.len() {
                                    assert(raw[k] == nick[k]);
                                } else if k > nick.len() && k < nick.len() as int + 1 + u.len() {
                                    assert(raw[k] == u[k - nick.len() - 1]);
                                } else if k > nick.len() as int + u.len() as int + 1 {
                                    assert(raw[k] == h[k - nick.len() - u.len() - 2]);
                                }
                            }
                        },
                        None => {
                            assert(rest =~= u);
                            lemma_find_none(u, '@');
                            assert forall|k: int| 0 <= k < raw.len() implies raw[k] != ' ' by {
                                if k < nick.len() {
                                    assert(raw[k] == nick[k]);
                                } else if k > nick.len() {
                                    assert(raw[k] == u[k - nick.len() - 1]);
                                }
                            }
                        },
                    }
                },
                None => {
                    match host {
                        Some(h) => {
                            assert(raw =~= nick + seq!['@'] + h);
                            assert forall|k: int| 0 <= k < raw.len() implies raw[k] != '!'
                                && raw[k] != ' ' by {
                                if k < nick.len() {
                                    assert(raw[k] == nick[k]);
                                } else if k > nick.len() {
                                    assert(raw[k] == h[k - nick.len() - 1]);
                                }
                            }
                            lemma_find_none(raw, '!');
                            lemma_no_char_first(nick, '@', h);
                            assert(raw.subrange(0, nick.len() as int) =~= nick);
                            assert(raw.subrange(nick.len() as int + 1, raw.len() as int) =~= h);
                        },
                        None => {
                            assert(raw =~= nick);
                            lemma_find_none(nick, '!');
                            lemma_find_none(nick, '@');
                        },
                    }
                },
            }
        },
    }
}

proof fn lemma_body_round_trip(
    pt: Option<Seq<char>>,
    prefix: Option<PrefixModel>,
    c: Seq<char>,
    ps: Seq<Seq<char>>,
)
    requires
        c.len() > 0,
        all_ascii(c),
        ascii_upper(c) == c,
        !has_char(c, ' '),
        wf_params(ps),
        match pt {
            Some(t) => prefix == Some(spec_parse_prefix(t, is_numeric(c))),
            None => prefix is None,
        },
    ensures
        spec_parse_body(pt, c + params_upto(ps, ps.len() as int)) == Ok::<MessageModel, Seq<char>>(
            MessageModel { prefix, command: c, params: ps },
        ),
{
    let r = params_upto(ps, ps.len() as int);
    let body = c + r;
    assert(upper(c) == c);
    if ps.len() > 0 {
        lemma_params_joined(ps);
        lemma_split_joined(ps);
        let j = joined(ps);
        assert(body =~= c + seq![' '] + j);
        lemma_no_char_first(c, ' ', j);
        assert(body.subrange(0, c.len() as int) =~= c);
        assert(body.subrange(c.len() as int + 1, body.len() as int) =~= j);
        assert(find_char(body, ' ') == Some(c.len() as int));
        assert(upper(body.subrange(0, c.len() as int)) == c);
        assert(split_params(body.subrange(c.len() as int + 1, body.len() as int)) == ps);
    } else {
        assert(r == Seq::<char>::empty());
        assert(body =~= c);
        lemma_find_none(c, ' ');
        assert(find_char(body, ' ') == None::<int>);
        assert(ps =~= Seq::<Seq<char>>::empty());
    }
    let cmd = c;
    let pm = match pt {
        Some(t) => Some(spec_parse_prefix(t, is_numeric(cmd))),
        None => None,
    };
    assert(pm == prefix);
}

/// Writing a well-formed message as a raw line and reading that line back
/// gives the same message.
pub proof fn lemma_parse_to_raw(m: MessageModel)
    requires
        wf_message(m),
    ensures
        spec_parse(spec_to_raw(m)) == Ok::<MessageModel, Seq<char>>(m),
{
    let c = m.command;
    let ps = m.params;
    let r = params_upto(ps, ps.len() as int);
    let line = spec_to_raw(m);
    let body = c + r;
    // The line does not end in CR or LF, so nothing is trimmed.
    assert(line.len() > 0 && !is_crlf(line.last())) by {
        if ps.len() > 0 {
            lemma_params_joined(ps);
            lemma_joined_last(ps);
            assert(line.last() == joined(ps).last());
        } else {
            assert(r == Seq::<char>::empty());
            assert(line.last() == c.last());
        }
    }
    assert(trim_end_crlf(line) == line);
    assert(trim_start_ws(body) == body);
    match m.prefix {
        Some(p) => {
            lemma_prefix_round_trip(p, is_numeric(c));
            let pr = prefix_raw(p);
            lemma_body_round_trip(Some(pr), m.prefix, c, ps);
            assert(line =~= seq![':'] + pr + seq![' '] + body);
            assert forall|k: int| 0 <= k < pr.len() as int + 1 implies line[k] != ' ' by {
                if k > 0 {
                    assert(line[k] == pr[k - 1]);
                }
            }
            assert(line[pr.len() as int + 1] == ' ');
            lemma_find_is(line, ' ', pr.len() as int + 1);
            assert(line.subrange(1, pr.len() as int + 1) =~= pr);
            assert(line.subrange(pr.len() as int + 2, line.len() as int) =~= body);
        },
        None => {
            lemma_body_round_trip(None, None, c, ps);
            assert(line =~= body);
        },
    }
}

// ---------------------------------------------------------------------------
// Executable code
// ---------------------------------------------------------------------------

fn parse_error(msg: &str) -> (e: BitchYError)
    ensures
        e matches BitchYError::Parse(t) && t@ == msg@,
{
    BitchYError::Parse(owned(msg))
}

/// Reads `v[lo..hi]` as a prefix.
fn parse_prefix(v: &Vec<char>, lo: usize, hi: usize, numeric: bool) -> (p: Prefix)
    requires
        lo <= hi <= v.len(),
    ensures
        p@ == spec_parse_prefix(v@.subrange(lo as int, hi as int), numeric),
{
    let ghost s = v@.subrange(lo as int, hi as int);
    match find_in(v, lo, hi, '!') {
        Some(b) => {
            let nick = string_of_range(v, lo, b);
            let ghost rest = s.subrange(b - lo + 1, s.len() as int);
            assert(rest =~= v@.subrange(b + 1, hi as int));
            assert(nick@ =~= s.subrange(0, b - lo));
            match find_in(v, b + 1, hi, '@') {
                Some(a) => {
                    let user = string_of_range(v, b + 1, a);
                    let host = string_of_range(v, a + 1, hi);
                    assert(user@ =~= rest.subrange(0, a - b - 1));
                    assert(host@ =~= rest.subrange(a - b, rest.len() as int));
                    Prefix::User { nick, user: Some(user), host: Some(host) }
                },
                None => {
                    let user = string_of_range(v, b + 1, hi);
                    Prefix::User { nick, user: Some(user), host: None }
                },
            }
        },
        None => match find_in(v, lo, hi, '@') {
            Some(a) => {
                let nick = string_of_range(v, lo, a);
                let host = string_of_range(v, a + 1, hi);
                assert(nick@ =~= s.subrange(0, a - lo));
                assert(host@ =~= s.subrange(a - lo + 1, s.len() as int));
                Prefix::User { nick, user: None, host: Some(host) }
            },
            None => {
                let dot = find_in(v, lo, hi, '.');
                proof {
                    lemma_find_char_cases(s, '.');
                }
                let whole = string_of_range(v, lo, hi);
                if dot.is_some() || numeric {
                    Prefix::Server(whole)
                } else {
                    Prefix::User { nick: whole, user: None, host: None }
                }
            },
        },
    }
}

/// Splits `v[lo..hi]` into parameters.
fn parse_params(v: &Vec<char>, lo: usize, hi: usize) -> (ps: Vec<String>)
    requires
        lo <= hi <= v.len(),
    ensures
        strings_view(ps@) == split_params(v@.subrange(lo as int, hi as int)),
{
    let ghost full = split_params(v@.subrange(lo as int, hi as int));
    let mut params: Vec<String> = Vec::new();
    let mut pos = lo;
    let mut done = false;
    while pos < hi && !done
        invariant
            lo <= pos <= hi <= v.len(),
            full == split_params(v@.subrange(lo as int, hi as int)),
            done ==> strings_view(params@) == full,
            !done ==> strings_view(params@) + split_params(v@.subrange(pos as int, hi as int))
                == full,
        decreases hi - pos + (if done { 0int } else { 1int }),
    {
        let ghost rest = v@.subrange(pos as int, hi as int);
        let ghost before = strings_view(params@);
        if v[pos] == ':' {
            let t = string_of_range(v, pos + 1, hi);
            assert(t@ =~= rest.subrange(1, rest.len() as int));
            params.push(t);
            assert(strings_view(params@) =~= before.push(t@));
            assert(split_params(rest) == seq![t@]);
            assert(before + seq![t@] =~= before.push(t@));
            done = true;
        } else {
            match find_in(v, pos, hi, ' ') {
                Some(q) => {
                    let t = string_of_range(v, pos, q);
                    assert(t@ =~= rest.subrange(0, q - pos));
                    assert(v@.subrange(q + 1, hi as int) =~= rest.subrange(
                        q - pos + 1,
                        rest.len() as int,
                    ));
                    params.push(t);
                    assert(strings_view(params@) =~= before.push(t@));
                    let ghost tail = split_params(v@.subrange(q + 1, hi as int));
                    assert(split_params(rest) == seq![t@] + tail);
                    assert(before + (seq![t@] + tail) =~= before.push(t@) + tail);
                    pos = q + 1;
                },
                None => {
                    let t = string_of_range(v, pos, hi);
                    params.push(t);
                    assert(strings_view(params@) =~= before.push(t@));
                    assert(split_params(rest) == seq![t@]);
                    assert(before + seq![t@] =~= before.push(t@));
                    done = true;
                },
            }
        }
    }
    if !done {
        assert(v@.subrange(pos as int, hi as int).len() == 0);
        assert(strings_view(params@) + Seq::<Seq<char>>::empty() =~= strings_view(params@));
    }
    params
}

/// Whether a command is a three-digit numeric reply.
fn numeric_command(c: &Vec<char>) -> (b: bool)
    ensures
        b == is_numeric(c@),
{
    if c.len() != 3 {
        return false;
    }
    let mut i: usize = 0;
    while i < 3
        invariant
            c.len() == 3,
            i <= 3,
            forall|j: int| 0 <= j < i ==> is_digit(#[trigger] c@[j]),
        decreases 3 - i,
    {
        if !('0' <= c[i] && c[i] <= '9') {
            return false;
        }
        i += 1;
    }
    true
}

/// Reads the command and parameters in `v[lo..hi]`, given the prefix text
/// `v[plo..phi]` if there was one.
fn parse_body(v: &Vec<char>, prefix: Option<(usize, usize)>, lo: usize, hi: usize) -> (r: Result<
    IrcMessage,
    BitchYError,
>)
    requires
        lo <= hi <= v.len(),
        prefix matches Some((a, b)) ==> a <= b <= v.len(),
    ensures
        match r {
            Ok(m) => spec_parse_body(
                match prefix {
                    Some((a, b)) => Some(v@.subrange(a as int, b as int)),
                    None => None,
                },
                v@.subrange(lo as int, hi as int),
            ) == Ok::<MessageModel, Seq<char>>(m@),
            Err(BitchYError::Parse(t)) => spec_parse_body(
                match prefix {
                    Some((a, b)) => Some(v@.subrange(a as int, b as int)),
                    None => None,
                },
                v@.subrange(lo as int, hi as int),
            ) == Err::<MessageModel, Seq<char>>(t@),
            Err(_) => false,
        },
{
    let ghost rest = v@.subrange(lo as int, hi as int);
    if lo == hi {
        return Err(parse_error("no command found"));
    }
    let (command, params) = match find_in(v, lo, hi, ' ') {
        Some(sp) => {
            let c = upper_range(v, lo, sp);
            assert(v@.subrange(lo as int, sp as int) =~= rest.subrange(0, sp - lo));
            let ps = parse_params(v, sp + 1, hi);
            assert(v@.subrange(sp + 1, hi as int) =~= rest.subrange(
                sp - lo + 1,
                rest.len() as int,
            ));
            (c, ps)
        },
        None => {
            let c = upper_range(v, lo, hi);
            let ps: Vec<String> = Vec::new();
            assert(strings_view(ps@) =~= Seq::<Seq<char>>::empty());
            (c, ps)
        },
    };
    let cv = chars_of(command.as_str());
    let numeric = numeric_command(&cv);
    let pfx = match prefix {
        Some((a, b)) => Some(parse_prefix(v, a, b, numeric)),
        None => None,
    };
    let m = IrcMessage { prefix: pfx, command, params };
    Ok(m)
}

impl IrcMessage {
    /// Reads one raw protocol line (a trailing `\r\n` is ignored).
    pub fn parse(line: &str) -> (r: Result<IrcMessage, BitchYError>)
        ensures
            match r {
                Ok(m) => spec_parse(line@) == Ok::<MessageModel, Seq<char>>(m@),
                Err(BitchYError::Parse(t)) => spec_parse(line@) == Err::<MessageModel, Seq<char>>(
                    t@,
                ),
                Err(_) => false,
            },
    {
        let v = chars_of(line);
        let e = trim_end_crlf_idx(&v, 0, v.len());
        assert(v@.subrange(0, v.len() as int) =~= line@);
        let ghost l = v@.subrange(0, e as int);
        if e == 0 {
            return Err(parse_error("empty input"));
        }
        if v[0] == ':' {
            match find_in(&v, 0, e, ' ') {
                None => {
                    return Err(parse_error("prefix with no command"));
                },
                Some(sp) => {
                    let b = trim_start_ws_idx(&v, sp + 1, e);
                    assert(v@.subrange(sp + 1, e as int) =~= l.subrange(sp + 1, l.len() as int));
                    assert(v@.subrange(1, sp as int) =~= l.subrange(1, sp as int));
                    parse_body(&v, Some((1, sp)), b, e)
                },
            }
        } else {
            let b = trim_start_ws_idx(&v, 0, e);
            parse_body(&v, None, b, e)
        }
    }

    /// The last parameter, which is the trailing text when there is one.
    pub fn trailing(&self) -> (r: Option<&str>)
        ensures
            match r {
                Some(t) => self.params@.len() > 0 && t@ == self.params@.last()@,
                None => self.params@.len() == 0,
            },
    {
        if self.params.len() == 0 {
            None
        } else {
            Some(self.params[self.params.len() - 1].as_str())
        }
    }

    /// The sender's nickname, when the prefix names a user.
    pub fn nick(&self) -> (r: Option<&str>)
        ensures
            match self.prefix {
                Some(Prefix::User { nick, .. }) => r matches Some(t) && t@ == nick@,
                _ => r is None,
            },
    {
        match &self.prefix {
            Some(Prefix::User { nick, .. }) => Some(nick.as_str()),
            _ => None,
        }
    }

    /// The sender's user name, when the prefix names one.
    pub fn user(&self) -> (r: Option<&str>)
        ensures
            match self.prefix {
                Some(Prefix::User { user: Some(u), .. }) => r matches Some(t) && t@ == u@,
                _ => r is None,
            },
    {
        match &self.prefix {
            Some(Prefix::User { user: Some(u), .. }) => Some(u.as_str()),
            _ => None,
        }
    }

    /// The sender's host, when the prefix names one.
    pub fn host(&self) -> (r: Option<&str>)
        ensures
            match self.prefix {
                Some(Prefix::User { host: Some(h), .. }) => r matches Some(t) && t@ == h@,
                _ => r is None,
            },
    {
        match &self.prefix {
            Some(Prefix::User { host: Some(h), .. }) => Some(h.as_str()),
            _ => None,
        }
    }

    /// Writes the message as a raw protocol line (without `\r\n`).
    pub fn to_raw(&self) -> (r: String)
        ensures
            r@ == spec_to_raw(self@),
    {
        let mut out: Vec<char> = Vec::new();
        match &self.prefix {
            Some(p) => {
                out.push(':');
                match p {
                    Prefix::Server(s) => {
                        push_str_chars(&mut out, s.as_str());
                    },
                    Prefix::User { nick, user, host } => {
                        push_str_chars(&mut out, nick.as_str());
                        match user {
                            Some(u) => {
                                out.push('!');
                                push_str_chars(&mut out, u.as_str());
                            },
                            None => {},
                        }
                        match host {
                            Some(h) => {
                                out.push('@');
                                push_str_chars(&mut out, h.as_str());
                            },
                            None => {},
                        }
                    },
                }
                out.push(' ');
            },
            None => {},
        }
        let ghost head = out@;
        proof {
            let hd = match self@.prefix {
                Some(p) => seq![':'] + prefix_raw(p) + seq![' '],
                None => Seq::<char>::empty(),
            };
            assert(head =~= hd);
        }
        push_str_chars(&mut out, self.command.as_str());
        let ghost ps = self@.params;
        let n = self.params.len();
        let mut i: usize = 0;
        while i < n
            invariant
                n == self.params@.len(),
                ps == strings_view(self.params@),
                i <= n,
                out@ == head + self.command@ + params_upto(ps, i as int),
            decreases n - i,
        {
            let ghost before = out@;
            out.push(' ');
            if i == n - 1 {
                out.push(':');
            }
            push_str_chars(&mut out, self.params[i].as_str());
            assert(ps[i as int] == self.params@[i as int]@);
            assert(out@ =~= before + param_piece(ps, i as int));
            i += 1;
        }
        string_of(&out)
    }
}

} // verus!

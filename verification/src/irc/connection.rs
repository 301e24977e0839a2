//! How lines cross the wire: what is written for a line, and what is kept
//! of a line read. The sockets themselves belong to the terminal program.
use vstd::prelude::*;

use crate::text::{chars_of, string_of, string_of_range, trim_end_crlf, trim_end_crlf_idx};

verus! {

/// `s` ends with `\r\n`.
pub open spec fn ends_crlf(s: Seq<char>) -> bool {
    s.len() >= 2 && s[s.len() - 2] == '\r' && s[s.len() - 1] == '\n'
}

/// What is written for `line`: the line itself when it already ends with
/// `\r\n`, else the line followed by `\r\n`.
pub open spec fn framed(line: Seq<char>) -> Seq<char> {
    if ends_crlf(line) {
        line
    } else {
        line + seq!['\r', '\n']
    }
}

/// What is written to the server for `line`.
pub fn outgoing_line(line: &str) -> (r: String)
    ensures
        r@ == framed(line@),
{
    let mut v = chars_of(line);
    let n = v.len();
    if !(n >= 2 && v[n - 2] == '\r' && v[n - 1] == '\n') {
        v.push('\r');
        v.push('\n');
    }
    string_of(&v)
}

/// What is kept of a line read from the server: the line without its
/// trailing `\r` and `\n` characters.
pub fn incoming_line(raw: &str) -> (r: String)
    ensures
        r@ == trim_end_crlf(raw@),
{
    let v = chars_of(raw);
    let e = trim_end_crlf_idx(&v, 0, v.len());
    assert(v@.subrange(0, v@.len() as int) =~= v@);
    string_of_range(&v, 0, e)
}

} // verus!

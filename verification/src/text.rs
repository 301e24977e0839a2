//! Character-level text helpers shared by the protocol code.
//!
//! Strings are modelled by their view, a `Seq<char>`; the helpers here move
//! between `&str`/`String` and `Vec<char>` and give the few character
//! predicates (ASCII case, Unicode white space, digits) the rest of the crate
//! reasons about.
use vstd::prelude::*;
use vstd::string::*;

verus! {

// ---------------------------------------------------------------------------
// Character predicates
// ---------------------------------------------------------------------------

/// `c` is an ASCII character.
pub open spec fn is_ascii_char(c: char) -> bool {
    (c as u32) < 128
}

/// Every character of `s` is ASCII.
pub open spec fn all_ascii(s: Seq<char>) -> bool {
    forall|i: int| 0 <= i < s.len() ==> is_ascii_char(#[trigger] s[i])
}

/// ASCII upper-casing of one character: `a`..`z` become `A`..`Z`.
pub open spec fn upper_char(c: char) -> char {
    if 'a' <= c && c <= 'z' {
        ((c as u32) - 32) as char
    } else {
        c
    }
}

/// ASCII lower-casing of one character: `A`..`Z` become `a`..`z`.
pub open spec fn lower_char(c: char) -> char {
    if 'A' <= c && c <= 'Z' {
        ((c as u32) + 32) as char
    } else {
        c
    }
}

/// ASCII upper-casing of a whole sequence (what `to_ascii_uppercase` does).
pub open spec fn ascii_upper(s: Seq<char>) -> Seq<char> {
    s.map_values(|c: char| upper_char(c))
}

/// ASCII lower-casing of a whole sequence (what `to_ascii_lowercase` does).
pub open spec fn ascii_lower(s: Seq<char>) -> Seq<char> {
    s.map_values(|c: char| lower_char(c))
}

/// The Unicode `White_Space` property, which `char::is_whitespace` tests.
pub open spec fn is_ws(c: char) -> bool {
    let u = c as u32;
    (0x09 <= u && u <= 0x0d) || u == 0x20 || u == 0x85 || u == 0xa0 || u == 0x1680 || (0x2000
        <= u && u <= 0x200a) || u == 0x2028 || u == 0x2029 || u == 0x202f || u == 0x205f || u
        == 0x3000
}

/// `c` is one of the ASCII digits `0`..`9`.
pub open spec fn is_digit(c: char) -> bool {
    '0' <= c && c <= '9'
}

/// The value of an ASCII digit.
pub open spec fn digit_value(c: char) -> int {
    (c as u32) - ('0' as u32)
}

pub fn upper_char_exec(c: char) -> (r: char)
    ensures
        r == upper_char(c),
{
    if 'a' <= c && c <= 'z' {
        let u: u32 = (c as u32) - 32;
        let r = char_from_ascii(u);
        r
    } else {
        c
    }
}

pub fn lower_char_exec(c: char) -> (r: char)
    ensures
        r == lower_char(c),
{
    if 'A' <= c && c <= 'Z' {
        let u: u32 = (c as u32) + 32;
        let r = char_from_ascii(u);
        r
    } else {
        c
    }
}

/// Turns an ASCII code point back into its character.
fn char_from_ascii(u: u32) -> (c: char)
    requires
        u < 128,
    ensures
        c == u as char,
        c as u32 == u,
{
    let b: u8 = u as u8;
    let c = b as char;
    c
}

pub fn is_ws_exec(c: char) -> (b: bool)
    ensures
        b == is_ws(c),
{
    let u = c as u32;
    (0x09 <= u && u <= 0x0d) || u == 0x20 || u == 0x85 || u == 0xa0 || u == 0x1680 || (0x2000
        <= u && u <= 0x200a) || u == 0x2028 || u == 0x2029 || u == 0x202f || u == 0x205f || u
        == 0x3000
}

pub fn is_ascii_exec(c: char) -> (b: bool)
    ensures
        b == is_ascii_char(c),
{
    (c as u32) < 128
}

// ---------------------------------------------------------------------------
// Searching
// ---------------------------------------------------------------------------

/// `i` is the first position of `c` in `s`.
pub open spec fn is_first(s: Seq<char>, c: char, i: int) -> bool {
    &&& 0 <= i < s.len()
    &&& s[i] == c
    &&& forall|j: int| 0 <= j < i ==> s[j] != c
}

/// The position of the first `c` in `s`, if there is one.
pub open spec fn find_char(s: Seq<char>, c: char) -> Option<int> {
    if exists|i: int| is_first(s, c, i) {
        Some(choose|i: int| is_first(s, c, i))
    } else {
        None
    }
}

/// `s` holds the character `c`.
pub open spec fn has_char(s: Seq<char>, c: char) -> bool {
    exists|i: int| 0 <= i < s.len() && s[i] == c
}

/// The first position of `c` is `i`.
pub proof fn lemma_find_is(s: Seq<char>, c: char, i: int)
    requires
        is_first(s, c, i),
    ensures
        find_char(s, c) == Some(i),
{
    let k = choose|k: int| is_first(s, c, k);
    assert(is_first(s, c, k));
    if k < i {
        assert(s[k] != c);
    }
    if i < k {
        assert(s[i] != c);
    }
}

/// There is no `c` in `s`.
pub proof fn lemma_find_none(s: Seq<char>, c: char)
    requires
        forall|j: int| 0 <= j < s.len() ==> s[j] != c,
    ensures
        find_char(s, c) == None::<int>,
        !has_char(s, c),
{
}

/// Without `c`, `find_char` finds nothing; with one, it finds the first.
pub proof fn lemma_find_char_cases(s: Seq<char>, c: char)
    ensures
        has_char(s, c) <==> find_char(s, c) is Some,
        find_char(s, c) is Some ==> is_first(s, c, find_char(s, c)->0),
    decreases s.len(),
{
    if s.len() == 0 {
    } else if s[0] == c {
        lemma_find_is(s, c, 0);
    } else {
        let t = s.drop_first();
        lemma_find_char_cases(t, c);
        if has_char(s, c) {
            let w = choose|w: int| 0 <= w < s.len() && s[w] == c;
            assert(t[w - 1] == c);
            assert(has_char(t, c));
            let k = find_char(t, c)->0;
            assert forall|j: int| 0 <= j < k + 1 implies s[j] != c by {
                if j > 0 {
                    assert(s[j] == t[j - 1]);
                }
            }
            lemma_find_is(s, c, k + 1);
        } else {
            lemma_find_none(s, c);
        }
    }
}

/// First position of `c` in `v[lo..hi]`, as an index into `v`.
pub fn find_in(v: &Vec<char>, lo: usize, hi: usize, c: char) -> (r: Option<usize>)
    requires
        lo <= hi <= v.len(),
    ensures
        match r {
            Some(i) => lo <= i < hi && find_char(v@.subrange(lo as int, hi as int), c) == Some(
                i - lo,
            ),
            None => find_char(v@.subrange(lo as int, hi as int), c) == None::<int>,
        },
{
    let ghost s = v@.subrange(lo as int, hi as int);
    let mut i = lo;
    while i < hi
        invariant
            lo <= i <= hi <= v.len(),
            s == v@.subrange(lo as int, hi as int),
            forall|j: int| lo <= j < i ==> v@[j] != c,
        decreases hi - i,
    {
        if v[i] == c {
            proof {
                assert forall|j: int| 0 <= j < i - lo implies s[j] != c by {
                    assert(s[j] == v@[lo + j]);
                }
                lemma_find_is(s, c, i - lo);
            }
            return Some(i);
        }
        i += 1;
    }
    proof {
        assert forall|j: int| 0 <= j < s.len() implies s[j] != c by {
            assert(s[j] == v@[lo + j]);
        }
        lemma_find_none(s, c);
    }
    None
}

// ---------------------------------------------------------------------------
// Conversions between `str`, `String` and `Vec<char>`
// ---------------------------------------------------------------------------

/// A copy of an optional string.
pub fn clone_text(o: &Option<String>) -> (r: Option<String>)
    ensures
        r == *o,
{
    match o {
        Some(s) => Some(s.clone()),
        None => None,
    }
}

/// The texts of a list of strings.
pub open spec fn texts(v: Seq<String>) -> Seq<Seq<char>> {
    v.map_values(|s: String| s@)
}

/// The characters of `s`, in order.
pub fn chars_of(s: &str) -> (v: Vec<char>)
    ensures
        v@ == s@,
{
    let n = s.unicode_len();
    let mut v: Vec<char> = Vec::new();
    let mut i: usize = 0;
    while i < n
        invariant
            n == s@.len(),
            i <= n,
            v@ == s@.take(i as int),
        decreases n - i,
    {
        let c = s.get_char(i);
        v.push(c);
        i += 1;
        assert(v@ =~= s@.take(i as int));
    }
    assert(v@ =~= s@);
    v
}

/// Appends one character; `String::push`.
#[verifier::external_body]
pub(crate) fn push_char(s: &mut String, c: char)
    ensures
        final(s)@ == old(s)@.push(c),
{
    s.push(c);
}

/// The string made of `v[lo..hi]`.
pub fn string_of_range(v: &Vec<char>, lo: usize, hi: usize) -> (s: String)
    requires
        lo <= hi <= v.len(),
    ensures
        s@ == v@.subrange(lo as int, hi as int),
{
    let mut s = String::new();
    let mut i = lo;
    while i < hi
        invariant
            lo <= i <= hi <= v.len(),
            s@ == v@.subrange(lo as int, i as int),
        decreases hi - i,
    {
        push_char(&mut s, v[i]);
        i += 1;
        assert(s@ =~= v@.subrange(lo as int, i as int));
    }
    s
}

/// The string made of all of `v`.
pub fn string_of(v: &Vec<char>) -> (s: String)
    ensures
        s@ == v@,
{
    let s = string_of_range(v, 0, v.len());
    assert(v@.subrange(0, v@.len() as int) =~= v@);
    s
}

/// Appends the characters `v[lo..hi]` to `out`.
pub fn push_range(out: &mut Vec<char>, v: &Vec<char>, lo: usize, hi: usize)
    requires
        lo <= hi <= v.len(),
    ensures
        final(out)@ == old(out)@ + v@.subrange(lo as int, hi as int),
{
    let ghost start = out@;
    let mut i = lo;
    while i < hi
        invariant
            lo <= i <= hi <= v.len(),
            out@ == start + v@.subrange(lo as int, i as int),
        decreases hi - i,
    {
        out.push(v[i]);
        i += 1;
        assert(out@ =~= start + v@.subrange(lo as int, i as int));
    }
}

/// Appends all characters of `s` to `out`.
pub fn push_str_chars(out: &mut Vec<char>, s: &str)
    ensures
        final(out)@ == old(out)@ + s@,
{
    let v = chars_of(s);
    push_range(out, &v, 0, v.len());
    assert(v@.subrange(0, v@.len() as int) =~= v@);
}

/// A copy of a string slice as an owned string.
pub fn owned(s: &str) -> (r: String)
    ensures
        r@ == s@,
{
    String::from_str(s)
}

/// Character-wise equality of two strings.
pub fn str_eq(a: &str, b: &str) -> (r: bool)
    ensures
        r == (a@ == b@),
{
    let va = chars_of(a);
    let vb = chars_of(b);
    seq_eq(&va, &vb)
}

/// Element-wise equality of two character vectors.
pub fn seq_eq(va: &Vec<char>, vb: &Vec<char>) -> (r: bool)
    ensures
        r == (va@ == vb@),
{
    if va.len() != vb.len() {
        return false;
    }
    let mut i: usize = 0;
    while i < va.len()
        invariant
            va.len() == vb.len(),
            i <= va.len(),
            forall|j: int| 0 <= j < i ==> va@[j] == vb@[j],
        decreases va.len() - i,
    {
        if va[i] != vb[i] {
            return false;
        }
        i += 1;
    }
    assert(va@ =~= vb@);
    true
}

// ---------------------------------------------------------------------------
// Case conversion
// ---------------------------------------------------------------------------

/// ASCII lower-casing of a string; `str::to_ascii_lowercase`.
pub fn to_ascii_lower(s: &str) -> (r: String)
    ensures
        r@ == ascii_lower(s@),
{
    let v = chars_of(s);
    let mut out: Vec<char> = Vec::new();
    let mut i: usize = 0;
    while i < v.len()
        invariant
            i <= v.len(),
            v@ == s@,
            out@ == ascii_lower(v@.take(i as int)),
        decreases v.len() - i,
    {
        out.push(lower_char_exec(v[i]));
        i += 1;
        assert(out@ =~= ascii_lower(v@.take(i as int)));
    }
    assert(v@.take(v@.len() as int) =~= v@);
    string_of(&out)
}

/// ASCII upper-casing of `v[lo..hi]`.
pub fn ascii_upper_range(v: &Vec<char>, lo: usize, hi: usize) -> (r: Vec<char>)
    requires
        lo <= hi <= v.len(),
    ensures
        r@ == ascii_upper(v@.subrange(lo as int, hi as int)),
{
    let mut out: Vec<char> = Vec::new();
    let mut i = lo;
    while i < hi
        invariant
            lo <= i <= hi <= v.len(),
            out@ == ascii_upper(v@.subrange(lo as int, i as int)),
        decreases hi - i,
    {
        out.push(upper_char_exec(v[i]));
        i += 1;
        assert(out@ =~= ascii_upper(v@.subrange(lo as int, i as int)));
    }
    out
}

/// Names what `str::to_uppercase` returns for a string that is not all
/// ASCII: the full Unicode upper-case mapping of its characters.
pub uninterp spec fn unicode_upper(s: Seq<char>) -> Seq<char>;

/// Unicode upper-casing; `str::to_uppercase`.
///
/// The contract only names the result: it is a function of the characters
/// of `s` alone.
#[verifier::external_body]
fn std_to_uppercase(s: &str) -> (r: String)
    ensures
        r@ == unicode_upper(s@),
{
    s.to_uppercase()
}

/// What upper-casing a string gives: ASCII text maps letter by letter,
/// anything else goes through the Unicode mapping.
pub open spec fn upper(s: Seq<char>) -> Seq<char> {
    if all_ascii(s) {
        ascii_upper(s)
    } else {
        unicode_upper(s)
    }
}

/// Upper-cases `v[lo..hi]`.
pub fn upper_range(v: &Vec<char>, lo: usize, hi: usize) -> (r: String)
    requires
        lo <= hi <= v.len(),
    ensures
        r@ == upper(v@.subrange(lo as int, hi as int)),
{
    let ghost s = v@.subrange(lo as int, hi as int);
    let mut i = lo;
    let mut ascii = true;
    while i < hi
        invariant
            lo <= i <= hi <= v.len(),
            ascii == all_ascii(v@.subrange(lo as int, i as int)),
        decreases hi - i,
    {
        let a = is_ascii_exec(v[i]);
        proof {
            let t = v@.subrange(lo as int, i as int);
            let t2 = v@.subrange(lo as int, i + 1);
            assert(t2 =~= t.push(v@[i as int]));
            assert(t2[i - lo] == v@[i as int]);
        }
        ascii = ascii && a;
        i += 1;
    }
    if ascii {
        let out = ascii_upper_range(v, lo, hi);
        string_of(&out)
    } else {
        let s = string_of_range(v, lo, hi);
        std_to_uppercase(s.as_str())
    }
}

/// Names what `str::to_lowercase` returns for a string that is not all
/// ASCII: the full Unicode lower-case mapping of its characters.
pub uninterp spec fn unicode_lower(s: Seq<char>) -> Seq<char>;

/// Unicode lower-casing; `str::to_lowercase`.
///
/// The contract only names the result: it is a function of the characters
/// of `s` alone.
#[verifier::external_body]
fn std_to_lowercase(s: &str) -> (r: String)
    ensures
        r@ == unicode_lower(s@),
{
    s.to_lowercase()
}

/// What lower-casing a string gives: ASCII text maps letter by letter,
/// anything else goes through the Unicode mapping.
pub open spec fn lower(s: Seq<char>) -> Seq<char> {
    if all_ascii(s) {
        ascii_lower(s)
    } else {
        unicode_lower(s)
    }
}

/// Lower-cases a string; `str::to_lowercase`.
pub fn to_lower(s: &str) -> (r: String)
    ensures
        r@ == lower(s@),
{
    let v = chars_of(s);
    let mut i: usize = 0;
    let mut ascii = true;
    while i < v.len()
        invariant
            i <= v@.len(),
            ascii == all_ascii(v@.take(i as int)),
        decreases v@.len() - i,
    {
        let a = is_ascii_exec(v[i]);
        proof {
            let t = v@.take(i as int);
            let t2 = v@.take(i + 1);
            assert(t2 =~= t.push(v@[i as int]));
            assert(t2[i as int] == v@[i as int]);
        }
        ascii = ascii && a;
        i += 1;
    }
    assert(v@.take(v@.len() as int) =~= v@);
    if ascii {
        to_ascii_lower(s)
    } else {
        std_to_lowercase(s)
    }
}

// ---------------------------------------------------------------------------
// Ordering
// ---------------------------------------------------------------------------

/// Whether `a` comes before `b` in `str`'s order: by characters, a proper
/// prefix first.
pub open spec fn lex_lt(a: Seq<char>, b: Seq<char>) -> bool
    decreases a.len(),
{
    if b.len() == 0 {
        false
    } else if a.len() == 0 {
        true
    } else if (a[0] as u32) < (b[0] as u32) {
        true
    } else if a[0] == b[0] {
        lex_lt(a.drop_first(), b.drop_first())
    } else {
        false
    }
}

/// `lex_lt` is a strict total order.
pub proof fn lemma_lex_total(a: Seq<char>, b: Seq<char>)
    ensures
        !lex_lt(a, a),
        !(lex_lt(a, b) && lex_lt(b, a)),
        a != b ==> lex_lt(a, b) || lex_lt(b, a),
    decreases a.len(),
{
    if a.len() > 0 && b.len() > 0 {
        lemma_lex_total(a.drop_first(), b.drop_first());
        vstd::utf8::char_u32_cast(a[0], a[0] as u32);
        vstd::utf8::char_u32_cast(b[0], b[0] as u32);
        if a[0] == b[0] && a != b {
            assert(a =~= seq![a[0]] + a.drop_first());
            assert(b =~= seq![b[0]] + b.drop_first());
        }
    } else if a.len() > 0 {
    } else if b.len() > 0 {
    } else {
        assert(a =~= b);
    }
    if a.len() > 0 {
        lemma_lex_total(a.drop_first(), a.drop_first());
    }
}

/// `lex_lt` is transitive.
pub proof fn lemma_lex_trans(a: Seq<char>, b: Seq<char>, c: Seq<char>)
    requires
        lex_lt(a, b),
        lex_lt(b, c),
    ensures
        lex_lt(a, c),
    decreases a.len(),
{
    if a.len() > 0 && b.len() > 0 && c.len() > 0 {
        if a[0] == b[0] && b[0] == c[0] {
            lemma_lex_trans(a.drop_first(), b.drop_first(), c.drop_first());
        }
    }
}

/// Whether `a` comes before `b` in `str`'s order.
pub fn lex_less(a: &Vec<char>, b: &Vec<char>) -> (r: bool)
    ensures
        r == lex_lt(a@, b@),
{
    let mut i: usize = 0;
    assert(a@.subrange(0, a@.len() as int) =~= a@);
    assert(b@.subrange(0, b@.len() as int) =~= b@);
    while i < a.len() && i < b.len() && a[i] == b[i]
        invariant
            i <= a.len() && i <= b.len(),
            lex_lt(a@, b@) == lex_lt(a@.subrange(i as int, a@.len() as int), b@.subrange(i as int, b@.len() as int)),
        decreases a.len() - i,
    {
        assert(a@.subrange(i as int, a@.len() as int).drop_first() =~= a@.subrange(i + 1, a@.len() as int));
        assert(b@.subrange(i as int, b@.len() as int).drop_first() =~= b@.subrange(i + 1, b@.len() as int));
        i += 1;
    }
    if i == b.len() {
        false
    } else if i == a.len() {
        true
    } else {
        (a[i] as u32) < (b[i] as u32)
    }
}

// ---------------------------------------------------------------------------
// Trimming
// ---------------------------------------------------------------------------

/// `s` with every trailing `\r` and `\n` removed.
pub open spec fn trim_end_crlf(s: Seq<char>) -> Seq<char>
    decreases s.len(),
{
    if s.len() > 0 && (s.last() == '\r' || s.last() == '\n') {
        trim_end_crlf(s.drop_last())
    } else {
        s
    }
}

/// `s` with its leading white space removed.
pub open spec fn trim_start_ws(s: Seq<char>) -> Seq<char>
    decreases s.len(),
{
    if s.len() > 0 && is_ws(s[0]) {
        trim_start_ws(s.drop_first())
    } else {
        s
    }
}

/// `s` with its trailing white space removed.
pub open spec fn trim_end_ws(s: Seq<char>) -> Seq<char>
    decreases s.len(),
{
    if s.len() > 0 && is_ws(s.last()) {
        trim_end_ws(s.drop_last())
    } else {
        s
    }
}

/// `s` with white space removed at both ends; `str::trim`.
pub open spec fn trim_ws(s: Seq<char>) -> Seq<char> {
    trim_end_ws(trim_start_ws(s))
}

/// End of `v[lo..hi]` once trailing `\r`/`\n` are dropped.
pub fn trim_end_crlf_idx(v: &Vec<char>, lo: usize, hi: usize) -> (e: usize)
    requires
        lo <= hi <= v.len(),
    ensures
        lo <= e <= hi,
        v@.subrange(lo as int, e as int) == trim_end_crlf(v@.subrange(lo as int, hi as int)),
{
    let mut e = hi;
    while e > lo && (v[e - 1] == '\r' || v[e - 1] == '\n')
        invariant
            lo <= e <= hi <= v.len(),
            trim_end_crlf(v@.subrange(lo as int, e as int)) == trim_end_crlf(
                v@.subrange(lo as int, hi as int),
            ),
        decreases e,
    {
        assert(v@.subrange(lo as int, e as int).drop_last() =~= v@.subrange(
            lo as int,
            e - 1,
        ));
        e -= 1;
    }
    e
}

/// Start of `v[lo..hi]` once leading white space is dropped.
pub fn trim_start_ws_idx(v: &Vec<char>, lo: usize, hi: usize) -> (b: usize)
    requires
        lo <= hi <= v.len(),
    ensures
        lo <= b <= hi,
        v@.subrange(b as int, hi as int) == trim_start_ws(v@.subrange(lo as int, hi as int)),
{
    let mut b = lo;
    while b < hi && is_ws_exec(v[b])
        invariant
            lo <= b <= hi <= v.len(),
            trim_start_ws(v@.subrange(b as int, hi as int)) == trim_start_ws(
                v@.subrange(lo as int, hi as int),
            ),
        decreases hi - b,
    {
        assert(v@.subrange(b as int, hi as int).drop_first() =~= v@.subrange(
            b + 1,
            hi as int,
        ));
        b += 1;
    }
    b
}

/// End of `v[lo..hi]` once trailing white space is dropped.
pub fn trim_end_ws_idx(v: &Vec<char>, lo: usize, hi: usize) -> (e: usize)
    requires
        lo <= hi <= v.len(),
    ensures
        lo <= e <= hi,
        v@.subrange(lo as int, e as int) == trim_end_ws(v@.subrange(lo as int, hi as int)),
{
    let mut e = hi;
    while e > lo && is_ws_exec(v[e - 1])
        invariant
            lo <= e <= hi <= v.len(),
            trim_end_ws(v@.subrange(lo as int, e as int)) == trim_end_ws(
                v@.subrange(lo as int, hi as int),
            ),
        decreases e,
    {
        assert(v@.subrange(lo as int, e as int).drop_last() =~= v@.subrange(lo as int, e - 1));
        e -= 1;
    }
    e
}

/// Bounds of `v` with white space trimmed at both ends.
pub fn trim_ws_idx(v: &Vec<char>) -> (r: (usize, usize))
    ensures
        r.0 <= r.1 <= v.len(),
        v@.subrange(r.0 as int, r.1 as int) == trim_ws(v@),
{
    let b = trim_start_ws_idx(v, 0, v.len());
    let e = trim_end_ws_idx(v, b, v.len());
    assert(v@.subrange(0, v.len() as int) =~= v@);
    (b, e)
}


// ---------------------------------------------------------------------------
// Words
// ---------------------------------------------------------------------------

/// Where the word starting at `i` ends: the first white space at or after
/// `i`, or the end of `s`.
pub open spec fn word_end(s: Seq<char>, i: int) -> int
    decreases s.len() - i,
{
    if i >= s.len() || i < 0 || is_ws(s[i]) {
        i
    } else {
        word_end(s, i + 1)
    }
}

pub proof fn lemma_word_end(s: Seq<char>, i: int)
    requires
        0 <= i <= s.len(),
    ensures
        i <= word_end(s, i) <= s.len(),
        forall|k: int| i <= k < word_end(s, i) ==> !is_ws(#[trigger] s[k]),
        word_end(s, i) < s.len() ==> is_ws(s[word_end(s, i)]),
    decreases s.len() - i,
{
    if i < s.len() && !is_ws(s[i]) {
        lemma_word_end(s, i + 1);
    }
}

/// The white-space-separated words of `s[i..]`, in order, as
/// `str::split_whitespace` gives them.
pub open spec fn words_from(s: Seq<char>, i: int) -> Seq<Seq<char>>
    decreases s.len() - i,
{
    if i >= s.len() || i < 0 {
        seq![]
    } else if is_ws(s[i]) {
        words_from(s, i + 1)
    } else {
        proof {
            lemma_word_end(s, i + 1);
        }
        seq![s.subrange(i, word_end(s, i))] + words_from(s, word_end(s, i))
    }
}

/// The white-space-separated words of `s`.
pub open spec fn words(s: Seq<char>) -> Seq<Seq<char>> {
    words_from(s, 0)
}

/// The characters of `s` that are not white space, in order.
pub open spec fn strip_ws(s: Seq<char>) -> Seq<char>
    decreases s.len(),
{
    if s.len() == 0 {
        Seq::empty()
    } else if is_ws(s[0]) {
        strip_ws(s.drop_first())
    } else {
        seq![s[0]] + strip_ws(s.drop_first())
    }
}

/// How many words of `s` start at or after `i`: positions that are not
/// white space and follow white space or the start of `s`.
pub open spec fn starts_from(s: Seq<char>, i: int) -> nat
    decreases s.len() - i,
{
    if i < 0 || i >= s.len() {
        0
    } else {
        (if !is_ws(s[i]) && (i == 0 || is_ws(s[i - 1])) {
            1nat
        } else {
            0nat
        }) + starts_from(s, i + 1)
    }
}

/// How many white-space-separated words `s` holds.
pub open spec fn word_count(s: Seq<char>) -> nat {
    starts_from(s, 0)
}

/// Inside a word no other word starts.
proof fn lemma_starts_inside_word(s: Seq<char>, i: int, j: int)
    requires
        0 <= i < j <= word_end(s, i),
        word_end(s, i) <= s.len(),
    ensures
        starts_from(s, j) == starts_from(s, word_end(s, i)),
    decreases word_end(s, i) - j,
{
    lemma_word_end(s, i);
    if j < word_end(s, i) {
        lemma_starts_inside_word(s, i, j + 1);
        assert(!is_ws(s[j]) && !is_ws(s[j - 1]));
    }
}

/// What [`words_from`] gives from a position where no word is under way:
/// words that are not empty and hold no white space, that together hold
/// exactly the characters of `s[i..]` that are not white space, and as
/// many as there are word starts.
pub proof fn lemma_words_from_shape(s: Seq<char>, i: int)
    requires
        0 <= i <= s.len(),
        i == 0 || i == s.len() || is_ws(s[i - 1]) || is_ws(s[i]),
    ensures
        forall|k: int| 0 <= k < words_from(s, i).len() ==> (#[trigger] words_from(s, i)[k]).len() > 0,
        forall|k: int, j: int|
            0 <= k < words_from(s, i).len() && 0 <= j < words_from(s, i)[k].len() ==> !is_ws(
                #[trigger] words_from(s, i)[k][j],
            ),
        words_from(s, i).flatten() == strip_ws(s.skip(i)),
        words_from(s, i).len() == starts_from(s, i),
    decreases s.len() - i,
{
    let ws = words_from(s, i);
    if i >= s.len() {
        assert(s.skip(i) =~= Seq::<char>::empty());
        assert(ws =~= Seq::<Seq<char>>::empty());
    } else if is_ws(s[i]) {
        lemma_words_from_shape(s, i + 1);
        assert(s.skip(i).drop_first() =~= s.skip(i + 1));
    } else {
        lemma_word_end(s, i + 1);
        let e = word_end(s, i);
        assert(e == word_end(s, i + 1));
        lemma_word_end(s, i);
        lemma_words_from_shape(s, e);
        let w = s.subrange(i, e);
        let rest = words_from(s, e);
        assert(ws == seq![w] + rest);
        assert(ws.drop_first() =~= rest);
        assert(ws.first() == w);
        // The word's characters come first, then the rest.
        assert(strip_ws(s.skip(i)) == w + strip_ws(s.skip(e))) by {
            lemma_strip_word(s, i, e, i);
        }
        if i + 1 <= e - 1 || i + 1 == e {
            if i + 1 < e {
                lemma_starts_inside_word(s, i, i + 1);
            }
        }
        assert(starts_from(s, i) == 1 + starts_from(s, i + 1));
        assert forall|k: int, j: int| 0 <= k < ws.len() && 0 <= j < ws[k].len() implies !is_ws(
            #[trigger] ws[k][j],
        ) by {
            if k == 0 {
                assert(ws[0][j] == s[i + j]);
            } else {
                assert(ws[k] == rest[k - 1]);
            }
        }
        assert forall|k: int| 0 <= k < ws.len() implies (#[trigger] ws[k]).len() > 0 by {
            if k > 0 {
                assert(ws[k] == rest[k - 1]);
            }
        }
    }
}

/// The non-white-space characters of `s[j..]`, for `j` inside the word
/// from `i` to `e`: the rest of the word, then those after it.
proof fn lemma_strip_word(s: Seq<char>, i: int, e: int, j: int)
    requires
        0 <= i <= j <= e <= s.len(),
        forall|k: int| i <= k < e ==> !is_ws(#[trigger] s[k]),
    ensures
        strip_ws(s.skip(j)) == s.subrange(j, e) + strip_ws(s.skip(e)),
    decreases e - j,
{
    if j == e {
        assert(s.subrange(j, e) =~= Seq::<char>::empty());
        assert(Seq::<char>::empty() + strip_ws(s.skip(e)) =~= strip_ws(s.skip(e)));
    } else {
        lemma_strip_word(s, i, e, j + 1);
        assert(s.skip(j).drop_first() =~= s.skip(j + 1));
        assert(s.skip(j)[0] == s[j]);
        assert(seq![s[j]] + (s.subrange(j + 1, e) + strip_ws(s.skip(e))) =~= s.subrange(j, e) + strip_ws(
            s.skip(e),
        ));
    }
}

/// The text each span of `v` covers.
pub open spec fn span_texts(v: Seq<char>, spans: Seq<(usize, usize)>) -> Seq<Seq<char>> {
    spans.map_values(|p: (usize, usize)| v.subrange(p.0 as int, p.1 as int))
}

/// Where the words of `v` lie: one `(start, end)` span per word, in order.
pub fn word_spans(v: &Vec<char>) -> (r: Vec<(usize, usize)>)
    ensures
        span_texts(v@, r@) == words(v@),
        forall|k: int| 0 <= k < r@.len() ==> (#[trigger] r@[k]).0 < r@[k].1 <= v@.len(),
{
    let n = v.len();
    let mut out: Vec<(usize, usize)> = Vec::new();
    let mut i: usize = 0;
    while i < n
        invariant
            n == v@.len(),
            i <= n,
            span_texts(v@, out@) + words_from(v@, i as int) == words(v@),
            forall|k: int| 0 <= k < out@.len() ==> (#[trigger] out@[k]).0 < out@[k].1 <= n,
        decreases n - i,
    {
        if is_ws_exec(v[i]) {
            i += 1;
        } else {
            let mut j: usize = i + 1;
            proof {
                lemma_word_end(v@, i + 1);
            }
            while j < n && !is_ws_exec(v[j])
                invariant
                    i < j <= n == v@.len(),
                    word_end(v@, j as int) == word_end(v@, i as int),
                decreases n - j,
            {
                j += 1;
            }
            let ghost old_out = out@;
            out.push((i, j));
            assert(span_texts(v@, out@) =~= span_texts(v@, old_out).push(v@.subrange(i as int, j as int)));
            assert(span_texts(v@, out@) + words_from(v@, j as int) =~= span_texts(v@, old_out)
                + words_from(v@, i as int));
            i = j;
        }
    }
    out
}

// ---------------------------------------------------------------------------
// Splitting on a character
// ---------------------------------------------------------------------------

/// The pieces of `s` between occurrences of `c`, empty ones included;
/// `str::split` with a character.
pub open spec fn split_on(s: Seq<char>, c: char) -> Seq<Seq<char>>
    decreases s.len(),
{
    match find_char(s, c) {
        Some(i) => if 0 <= i < s.len() {
            seq![s.subrange(0, i)] + split_on(s.subrange(i + 1, s.len() as int), c)
        } else {
            seq![s]
        },
        None => seq![s],
    }
}

/// Where the pieces of `v[lo..hi]` between occurrences of `c` lie.
pub fn split_spans(v: &Vec<char>, lo: usize, hi: usize, c: char) -> (r: Vec<(usize, usize)>)
    requires
        lo <= hi <= v.len(),
    ensures
        span_texts(v@, r@) == split_on(v@.subrange(lo as int, hi as int), c),
        forall|k: int| 0 <= k < r@.len() ==> lo <= (#[trigger] r@[k]).0 <= r@[k].1 <= hi,
{
    let mut out: Vec<(usize, usize)> = Vec::new();
    let mut i: usize = lo;
    loop
        invariant
            lo <= i <= hi <= v.len(),
            span_texts(v@, out@) + split_on(v@.subrange(i as int, hi as int), c) == split_on(
                v@.subrange(lo as int, hi as int),
                c,
            ),
            forall|k: int| 0 <= k < out@.len() ==> lo <= (#[trigger] out@[k]).0 <= out@[k].1 <= hi,
        decreases hi - i,
    {
        let ghost s = v@.subrange(i as int, hi as int);
        let ghost old_out = out@;
        match find_in(v, i, hi, c) {
            Some(j) => {
                proof {
                    lemma_find_char_cases(s, c);
                    assert(s.subrange(0, j - i) =~= v@.subrange(i as int, j as int));
                    assert(s.subrange(j - i + 1, s.len() as int) =~= v@.subrange(j + 1, hi as int));
                }
                out.push((i, j));
                assert(span_texts(v@, out@) =~= span_texts(v@, old_out).push(v@.subrange(i as int, j as int)));
                assert(span_texts(v@, out@) + split_on(v@.subrange(j + 1, hi as int), c) =~= span_texts(v@, old_out) + split_on(s, c));
                i = j + 1;
            },
            None => {
                out.push((i, hi));
                assert(span_texts(v@, out@) =~= span_texts(v@, old_out).push(s));
                assert(span_texts(v@, out@) =~= span_texts(v@, old_out) + split_on(s, c));
                return out;
            },
        }
    }
}

// ---------------------------------------------------------------------------
// Decimal numbers
// ---------------------------------------------------------------------------

/// Every character of `s` is an ASCII digit.
pub open spec fn all_digits(s: Seq<char>) -> bool {
    forall|i: int| 0 <= i < s.len() ==> is_digit(#[trigger] s[i])
}

/// The value of a string of decimal digits.
pub open spec fn digits_value(s: Seq<char>) -> int
    decreases s.len(),
{
    if s.len() == 0 {
        0
    } else {
        digits_value(s.drop_last()) * 10 + digit_value(s.last())
    }
}

/// What `str::parse` gives for an unsigned integer type whose largest value
/// is `max`: an optional `+`, then at least one digit and nothing else, and
/// a value that fits.
pub open spec fn spec_parse_unsigned(s: Seq<char>, max: int) -> Option<int> {
    let d = if s.len() > 0 && s[0] == '+' {
        s.drop_first()
    } else {
        s
    };
    if d.len() > 0 && all_digits(d) && digits_value(d) <= max {
        Some(digits_value(d))
    } else {
        None
    }
}

proof fn lemma_digits_nonneg(s: Seq<char>)
    requires
        all_digits(s),
    ensures
        digits_value(s) >= 0,
    decreases s.len(),
{
    if s.len() > 0 {
        lemma_digits_nonneg(s.drop_last());
    }
}

proof fn lemma_digits_grow(s: Seq<char>, k: int)
    requires
        all_digits(s),
        0 <= k <= s.len(),
    ensures
        digits_value(s) >= digits_value(s.take(k)),
    decreases s.len(),
{
    if k < s.len() {
        let t = s.drop_last();
        assert(all_digits(t));
        lemma_digits_grow(t, k);
        assert(t.take(k) =~= s.take(k));
        lemma_digits_nonneg(t);
    } else {
        assert(s.take(k) =~= s);
    }
}

/// Reads `v[lo..hi]` as an unsigned decimal number no larger than `max`.
pub fn parse_unsigned(v: &Vec<char>, lo: usize, hi: usize, max: u64) -> (r: Option<u64>)
    requires
        lo <= hi <= v.len(),
    ensures
        match r {
            Some(n) => spec_parse_unsigned(v@.subrange(lo as int, hi as int), max as int) == Some(
                n as int,
            ),
            None => spec_parse_unsigned(v@.subrange(lo as int, hi as int), max as int) is None,
        },
{
    let ghost s = v@.subrange(lo as int, hi as int);
    let start = if lo < hi && v[lo] == '+' {
        lo + 1
    } else {
        lo
    };
    let ghost d = v@.subrange(start as int, hi as int);
    assert(d =~= (if s.len() > 0 && s[0] == '+' {
        s.drop_first()
    } else {
        s
    }));
    if start == hi {
        return None;
    }
    let mut acc: u128 = 0;
    let mut i = start;
    while i < hi
        invariant
            lo <= start <= i <= hi <= v.len(),
            d == v@.subrange(start as int, hi as int),
            s == v@.subrange(lo as int, hi as int),
            d == (if s.len() > 0 && s[0] == '+' {
                s.drop_first()
            } else {
                s
            }),
            all_digits(d.take(i - start)),
            acc == digits_value(d.take(i - start)),
            acc <= max,
        decreases hi - i,
    {
        let c = v[i];
        if !('0' <= c && c <= '9') {
            assert(d[i - start] == c);
            return None;
        }
        let dv: u32 = (c as u32) - ('0' as u32);
        let ghost t = d.take(i - start + 1);
        assert(t.drop_last() =~= d.take(i - start));
        assert(t.last() == c);
        acc = acc * 10 + dv as u128;
        i += 1;
        assert(all_digits(d.take(i - start)));
        if acc > max as u128 {
            proof {
                if all_digits(d) {
                    lemma_digits_grow(d, i - start);
                }
            }
            return None;
        }
    }
    assert(d.take(i - start) =~= d);
    Some(acc as u64)
}

/// The decimal digit for `d`.
pub open spec fn digit_char(d: int) -> char {
    (d + 48) as char
}

/// How `to_string` writes an unsigned number: decimal, no leading zeros.
pub open spec fn spec_decimal(n: nat) -> Seq<char>
    decreases n,
{
    if n < 10 {
        seq![digit_char(n as int)]
    } else {
        spec_decimal(n / 10).push(digit_char((n % 10) as int))
    }
}

/// The decimal form of `n` is digits only, and reads back as `n`.
pub proof fn lemma_decimal_reads_back(n: nat)
    ensures
        spec_decimal(n).len() > 0,
        all_digits(spec_decimal(n)),
        digits_value(spec_decimal(n)) == n,
    decreases n,
{
    let d = spec_decimal(n);
    if n < 10 {
        assert(((n + 48) as char) as u32 == n + 48);
        assert(d.drop_last() =~= Seq::<char>::empty());
        assert(digits_value(Seq::<char>::empty()) == 0);
        assert(digits_value(d) == digits_value(d.drop_last()) * 10 + digit_value(d.last()));
    } else {
        lemma_decimal_reads_back(n / 10);
        let r = (n % 10) as int;
        assert(((r + 48) as char) as u32 == r + 48);
        assert(d.drop_last() == spec_decimal(n / 10));
        assert(d.last() == digit_char(r));
        assert(digits_value(d) == digits_value(spec_decimal(n / 10)) * 10 + digit_value(digit_char(r)));
        assert(digit_value(digit_char(r)) == r);
        assert((n / 10) * 10 + n % 10 == n);
        assert forall|i: int| 0 <= i < d.len() implies is_digit(#[trigger] d[i]) by {
            if i < d.len() - 1 {
                assert(d[i] == spec_decimal(n / 10)[i]);
            }
        }
    }
}

/// Appends the decimal form of `n` to `out`.
pub fn push_decimal(out: &mut Vec<char>, n: u64)
    ensures
        final(out)@ == old(out)@ + spec_decimal(n as nat),
    decreases n,
{
    if n >= 10 {
        push_decimal(out, n / 10);
    }
    let d: u8 = (n % 10) as u8 + 48;
    let c = d as char;
    out.push(c);
    proof {
        if n >= 10 {
            assert(spec_decimal(n as nat) == spec_decimal((n / 10) as nat).push(digit_char((n % 10) as int)));
        }
    }
    assert(final(out)@ =~= old(out)@ + spec_decimal(n as nat)) by {
        if n < 10 {
            assert(spec_decimal(n as nat) =~= seq![digit_char(n as int)]);
        }
    };
}

} // verus!

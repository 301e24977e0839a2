//! Aliases and variables: expanding what the user types into IRC commands
//! and messages.
use vstd::prelude::*;

use crate::collections::AssocList;
use crate::text::{
    ascii_lower, chars_of, find_char, lemma_lex_total, lex_less, lex_lt, find_in, has_char, lemma_find_char_cases, owned, push_decimal,
    push_range, span_texts, spec_decimal, split_on, split_spans, string_of, string_of_range,
    to_ascii_lower, trim_ws, trim_ws_idx, upper, upper_range, word_spans, words,
};

verus! {

/// What processing a line of input produces.
#[derive(Debug, PartialEq)]
pub enum ScriptResult {
    RawCommand(String),
    Message(String),
    Multiple(Vec<ScriptResult>),
    Nothing,
}

/// A [`ScriptResult`] with its texts as character sequences.
pub enum ScriptOutcome {
    RawCommand(Seq<char>),
    Message(Seq<char>),
    Multiple(Seq<ScriptOutcome>),
    Nothing,
}

/// The outcome a result stands for.
pub open spec fn outcome_of(r: ScriptResult) -> ScriptOutcome
    decreases r,
{
    match r {
        ScriptResult::RawCommand(s) => ScriptOutcome::RawCommand(s@),
        ScriptResult::Message(s) => ScriptOutcome::Message(s@),
        ScriptResult::Multiple(v) => ScriptOutcome::Multiple(
            Seq::new(
                v@.len(),
                |i: int|
                    if 0 <= i < v@.len() {
                        outcome_of(v@[i])
                    } else {
                        ScriptOutcome::Nothing
                    },
            ),
        ),
        ScriptResult::Nothing => ScriptOutcome::Nothing,
    }
}

/// A user-defined command: typing `/name args` runs `expansion`.
#[derive(Debug, Clone)]
pub struct Alias {
    pub name: String,
    pub expansion: String,
}

impl View for Alias {
    type V = (Seq<char>, Seq<char>);

    open spec fn view(&self) -> (Seq<char>, Seq<char>) {
        (self.name@, self.expansion@)
    }
}

/// Aliases, found by their name in any ASCII case, and variables, found
/// by their exact name.
#[derive(Debug)]
pub struct ScriptEngine {
    aliases: AssocList<Alias>,
    variables: AssocList<String>,
}

/// What an engine holds: aliases by lower-cased name, and variables.
pub struct EngineModel {
    pub aliases: Map<Seq<char>, (Seq<char>, Seq<char>)>,
    pub vars: Map<Seq<char>, Seq<char>>,
}

impl View for ScriptEngine {
    type V = EngineModel;

    closed spec fn view(&self) -> EngineModel {
        EngineModel {
            aliases: self.aliases@.map_values(|a: Alias| a@),
            vars: self.variables@.map_values(|s: String| s@),
        }
    }
}

// ---------------------------------------------------------------------------
// Variables
// ---------------------------------------------------------------------------

/// `char::is_alphanumeric`: the Unicode `Alphabetic` or `Numeric` property.
pub uninterp spec fn is_alphanumeric(c: char) -> bool;

/// `char::is_alphanumeric`.
#[verifier::external_body]
fn char_is_alphanumeric(c: char) -> (r: bool)
    ensures
        r == is_alphanumeric(c),
        (c as u32) < 128 ==> (r <==> ('a' <= c <= 'z' || 'A' <= c <= 'Z' || '0' <= c <= '9')),
{
    c.is_alphanumeric()
}

/// A character that may be part of a variable's name.
pub open spec fn is_name_char(c: char) -> bool {
    is_alphanumeric(c) || c == '_'
}

/// Where the variable name starting at `i` ends.
pub open spec fn name_end(s: Seq<char>, i: int) -> int
    decreases s.len() - i,
{
    if i < 0 || i >= s.len() || !is_name_char(s[i]) {
        i
    } else {
        name_end(s, i + 1)
    }
}

pub proof fn lemma_name_end(s: Seq<char>, i: int)
    requires
        0 <= i <= s.len(),
    ensures
        i <= name_end(s, i) <= s.len(),
        forall|k: int| i <= k < name_end(s, i) ==> is_name_char(#[trigger] s[k]),
        name_end(s, i) < s.len() ==> !is_name_char(s[name_end(s, i)]),
    decreases s.len() - i,
{
    if i < s.len() && is_name_char(s[i]) {
        lemma_name_end(s, i + 1);
    }
}

/// `s[i..]` with each `$name` replaced by the variable's value; a `$name`
/// with no such variable stays as it is.
pub open spec fn expand_vars_from(vars: Map<Seq<char>, Seq<char>>, s: Seq<char>, i: int) -> Seq<char>
    decreases s.len() - i,
{
    if i < 0 || i >= s.len() {
        seq![]
    } else if s[i] == '$' && i + 1 < s.len() && is_name_char(s[i + 1]) {
        proof {
            lemma_name_end(s, i + 2);
        }
        let end = name_end(s, i + 1);
        let name = s.subrange(i + 1, end);
        (if vars.contains_key(name) {
            vars[name]
        } else {
            seq!['$'] + name
        }) + expand_vars_from(vars, s, end)
    } else {
        seq![s[i]] + expand_vars_from(vars, s, i + 1)
    }
}

/// `s` with its variables expanded.
pub open spec fn expand_vars(vars: Map<Seq<char>, Seq<char>>, s: Seq<char>) -> Seq<char> {
    expand_vars_from(vars, s, 0)
}

// ---------------------------------------------------------------------------
// Alias expansion
// ---------------------------------------------------------------------------

/// `s` with every occurrence of `pat`, from the left and without overlap,
/// replaced by `rep`; `str::replace` (for a pattern that is not empty).
pub open spec fn replace_all(s: Seq<char>, pat: Seq<char>, rep: Seq<char>) -> Seq<char>
    decreases s.len(),
{
    if pat.len() == 0 || s.len() < pat.len() {
        s
    } else if s.subrange(0, pat.len() as int) == pat {
        rep + replace_all(s.subrange(pat.len() as int, s.len() as int), pat, rep)
    } else {
        seq![s[0]] + replace_all(s.drop_first(), pat, rep)
    }
}

/// `$0`, `$1`, ... replaced in turn by the arguments `args[k..]`.
pub open spec fn replace_positional(s: Seq<char>, args: Seq<Seq<char>>, k: int) -> Seq<char>
    decreases args.len() - k,
{
    if k < 0 || k >= args.len() {
        s
    } else {
        replace_positional(replace_all(s, seq!['$'] + spec_decimal(k as nat), args[k]), args, k + 1)
    }
}

/// `$*`.
pub open spec fn all_args_marker() -> Seq<char> {
    seq!['$', '*']
}

/// `$target`.
pub open spec fn target_marker() -> Seq<char> {
    seq!['$', 't', 'a', 'r', 'g', 'e', 't']
}

/// An alias's expansion for the arguments `args` and the current target:
/// `$*` becomes all the arguments (nothing when there are none), `$0`,
/// `$1`, ... the words of the arguments, and `$target` the target.
pub open spec fn spec_expand_alias(
    expansion: Seq<char>,
    args: Option<Seq<char>>,
    target: Option<Seq<char>>,
) -> Seq<char> {
    let a = match args {
        Some(a) => replace_positional(replace_all(expansion, all_args_marker(), a), words(a), 0),
        None => replace_all(expansion, all_args_marker(), seq![]),
    };
    match target {
        Some(t) => replace_all(a, target_marker(), t),
        None => a,
    }
}

/// `s` has no `a` followed directly by `b`.
pub open spec fn no_pair(s: Seq<char>, a: char, b: char) -> bool {
    forall|i: int| 0 <= i < s.len() - 1 ==> !(#[trigger] s[i] == a && s[i + 1] == b)
}

/// A text that does not start with `$` keeps its first character when `$*`
/// is removed from it.
proof fn lemma_remove_marker_first(s: Seq<char>)
    requires
        s.len() > 0,
        s[0] != '$',
    ensures
        replace_all(s, all_args_marker(), seq![]).len() > 0,
        replace_all(s, all_args_marker(), seq![])[0] == s[0],
{
    if s.len() >= 2 {
        assert(s.subrange(0, 2) != all_args_marker()) by {
            assert(s.subrange(0, 2)[0] == s[0]);
        }
    }
}

/// Removing every `$*` from a text without `$$` leaves no `$*`.
proof fn lemma_remove_marker_leaves_none(s: Seq<char>)
    requires
        no_pair(s, '$', '$'),
    ensures
        no_pair(replace_all(s, all_args_marker(), seq![]), '$', '*'),
    decreases s.len(),
{
    let pat = all_args_marker();
    let r = replace_all(s, pat, seq![]);
    if s.len() < 2 {
    } else if s.subrange(0, 2) == pat {
        let t = s.subrange(2, s.len() as int);
        assert(no_pair(t, '$', '$')) by {
            assert forall|i: int| 0 <= i < t.len() - 1 implies !(#[trigger] t[i] == '$' && t[i + 1] == '$') by {
                assert(t[i] == s[i + 2] && t[i + 1] == s[i + 3]);
            }
        }
        lemma_remove_marker_leaves_none(t);
        assert(r == seq![] + replace_all(t, pat, seq![]));
        assert(seq![] + replace_all(t, pat, seq![]) =~= replace_all(t, pat, seq![]));
    } else {
        let t = s.drop_first();
        assert(no_pair(t, '$', '$')) by {
            assert forall|i: int| 0 <= i < t.len() - 1 implies !(#[trigger] t[i] == '$' && t[i + 1] == '$') by {
                assert(t[i] == s[i + 1] && t[i + 1] == s[i + 2]);
            }
        }
        lemma_remove_marker_leaves_none(t);
        let rt = replace_all(t, pat, seq![]);
        assert(r == seq![s[0]] + rt);
        if s[0] == '$' {
            // The next character is neither `*` (that would be a marker)
            // nor `$` (no `$$`), and it stays next.
            assert(s[1] != '$');
            assert(s[1] != '*') by {
                if s[1] == '*' {
                    assert(s.subrange(0, 2) =~= pat);
                }
            }
            lemma_remove_marker_first(t);
        }
        assert forall|i: int| 0 <= i < r.len() - 1 implies !(#[trigger] r[i] == '$' && r[i + 1] == '*') by {
            if i > 0 {
                assert(r[i] == rt[i - 1] && r[i + 1] == rt[i]);
            } else {
                assert(r[0] == s[0]);
                assert(r[1] == rt[0]);
            }
        }
    }
}

/// An alias used without arguments expands as it does with empty ones:
/// `$*` stands for nothing, and there are no positional arguments.
pub proof fn lemma_expand_without_args(expansion: Seq<char>, target: Option<Seq<char>>)
    ensures
        spec_expand_alias(expansion, None, target) == spec_expand_alias(expansion, Some(seq![]), target),
{
    assert(words(Seq::<char>::empty()) =~= Seq::<Seq<char>>::empty());
}

/// An alias used without arguments and without a target leaves no `$*` in
/// its expansion, when the expansion has no `$$` (whose removal could join
/// a `$` to a `*`).
pub proof fn lemma_expand_without_args_drops_marker(expansion: Seq<char>)
    requires
        no_pair(expansion, '$', '$'),
    ensures
        no_pair(spec_expand_alias(expansion, None, None), '$', '*'),
{
    lemma_remove_marker_leaves_none(expansion);
}

/// A command without its `/`: the name, and what follows its first space.
pub open spec fn command_parts(cmd: Seq<char>) -> (Seq<char>, Option<Seq<char>>) {
    match find_char(cmd, ' ') {
        Some(p) => (cmd.subrange(0, p), Some(cmd.subrange(p + 1, cmd.len() as int))),
        None => (cmd, None),
    }
}

// ---------------------------------------------------------------------------
// Processing a line
// ---------------------------------------------------------------------------

/// What processing `input` gives with `fuel` nested expansions to spare;
/// nothing when they run out. The input is trimmed; a line starting with
/// `/` that holds `;` is several commands, whose results (leaving out
/// empty ones) are gathered.
pub open spec fn spec_process(
    e: EngineModel,
    input: Seq<char>,
    target: Option<Seq<char>>,
    fuel: nat,
) -> Option<ScriptOutcome>
    decreases fuel, 0nat,
{
    if fuel == 0 {
        None
    } else {
        let t = trim_ws(input);
        if t.len() == 0 {
            Some(ScriptOutcome::Nothing)
        } else if has_char(t, ';') && t[0] == '/' {
            match spec_process_parts(e, split_on(t, ';'), target, (fuel - 1) as nat) {
                Some(rs) => Some(
                    if rs.len() == 0 {
                        ScriptOutcome::Nothing
                    } else if rs.len() == 1 {
                        rs[0]
                    } else {
                        ScriptOutcome::Multiple(rs)
                    },
                ),
                None => None,
            }
        } else {
            spec_process_single(e, t, target, (fuel - 1) as nat)
        }
    }
}

/// The results of the commands `parts`, each trimmed, leaving out empty
/// results.
pub open spec fn spec_process_parts(
    e: EngineModel,
    parts: Seq<Seq<char>>,
    target: Option<Seq<char>>,
    fuel: nat,
) -> Option<Seq<ScriptOutcome>>
    decreases fuel, parts.len() + 1,
{
    if parts.len() == 0 {
        Some(seq![])
    } else {
        match (
            spec_process_single(e, trim_ws(parts[0]), target, fuel),
            spec_process_parts(e, parts.drop_first(), target, fuel),
        ) {
            (Some(r), Some(rest)) => Some(
                if r is Nothing {
                    rest
                } else {
                    seq![r] + rest
                },
            ),
            _ => None,
        }
    }
}

/// What one command gives: an alias is expanded and processed again; any
/// other `/command` becomes a raw command, its name upper-cased and its
/// arguments' variables expanded; anything else is a message with its
/// variables expanded.
pub open spec fn spec_process_single(
    e: EngineModel,
    input: Seq<char>,
    target: Option<Seq<char>>,
    fuel: nat,
) -> Option<ScriptOutcome>
    decreases fuel, 0nat,
{
    let t = trim_ws(input);
    if t.len() == 0 {
        Some(ScriptOutcome::Nothing)
    } else if t[0] == '/' {
        let (name, args) = command_parts(t.drop_first());
        let key = ascii_lower(name);
        if e.aliases.contains_key(key) {
            if fuel == 0 {
                None
            } else {
                spec_process(
                    e,
                    expand_vars(e.vars, spec_expand_alias(e.aliases[key].1, args, target)),
                    target,
                    (fuel - 1) as nat,
                )
            }
        } else {
            Some(
                ScriptOutcome::RawCommand(
                    match args {
                        Some(a) => upper(name) + seq![' '] + expand_vars(e.vars, a),
                        None => upper(name),
                    },
                ),
            )
        }
    } else {
        Some(ScriptOutcome::Message(expand_vars(e.vars, t)))
    }
}

/// Processing `input` comes to an end: alias expansion does not go on
/// forever.
pub open spec fn process_terminates(e: EngineModel, input: Seq<char>, target: Option<Seq<char>>) -> bool {
    exists|f: nat| #[trigger] spec_process(e, input, target, f) is Some
}

/// What processing `input` gives, when it comes to an end.
pub open spec fn process_outcome(e: EngineModel, input: Seq<char>, target: Option<Seq<char>>) -> ScriptOutcome {
    match spec_process(e, input, target, choose|f: nat| #[trigger] spec_process(e, input, target, f) is Some) {
        Some(o) => o,
        None => ScriptOutcome::Nothing,
    }
}

pub open spec fn opt_view(t: Option<&str>) -> Option<Seq<char>> {
    match t {
        Some(s) => Some(s@),
        None => None,
    }
}

// ---------------------------------------------------------------------------
// Text operations
// ---------------------------------------------------------------------------

/// `v[lo..hi]` as a vector of its own.
fn sub_vec(v: &Vec<char>, lo: usize, hi: usize) -> (r: Vec<char>)
    requires
        lo <= hi <= v.len(),
    ensures
        r@ == v@.subrange(lo as int, hi as int),
{
    let mut r: Vec<char> = Vec::new();
    push_range(&mut r, v, lo, hi);
    r
}

/// Whether `pat` occurs in `s` at `i`.
fn occurs_at(s: &Vec<char>, i: usize, pat: &Vec<char>) -> (r: bool)
    requires
        i <= s.len(),
    ensures
        r == (i + pat.len() <= s.len() && s@.subrange(i as int, i + pat.len()) == pat@),
{
    if pat.len() > s.len() - i {
        return false;
    }
    let mut k: usize = 0;
    while k < pat.len()
        invariant
            i + pat.len() <= s.len(),
            k <= pat.len(),
            forall|j: int| 0 <= j < k ==> s@[i + j] == pat@[j],
        decreases pat.len() - k,
    {
        if s[i + k] != pat[k] {
            assert(s@.subrange(i as int, i + pat.len())[k as int] != pat@[k as int]);
            return false;
        }
        k += 1;
    }
    assert(s@.subrange(i as int, i + pat.len()) =~= pat@);
    true
}

/// `s` with every occurrence of `pat` replaced by `rep`.
fn replace_all_exec(s: &Vec<char>, pat: &Vec<char>, rep: &Vec<char>) -> (r: Vec<char>)
    requires
        pat.len() > 0,
    ensures
        r@ == replace_all(s@, pat@, rep@),
{
    let n = s.len();
    let m = pat.len();
    let mut out: Vec<char> = Vec::new();
    let mut i: usize = 0;
    assert(s@.subrange(0, n as int) =~= s@);
    while i < n
        invariant
            n == s@.len(),
            m == pat@.len() > 0,
            i <= n,
            out@ + replace_all(s@.subrange(i as int, n as int), pat@, rep@) == replace_all(
                s@,
                pat@,
                rep@,
            ),
        decreases n - i,
    {
        let ghost t = s@.subrange(i as int, n as int);
        let ghost old_out = out@;
        if occurs_at(s, i, pat) {
            assert(t.subrange(0, m as int) =~= s@.subrange(i as int, i + m));
            assert(t.subrange(m as int, t.len() as int) =~= s@.subrange(i + m, n as int));
            push_range(&mut out, rep, 0, rep.len());
            assert(rep@.subrange(0, rep@.len() as int) =~= rep@);
            assert(out@ + replace_all(s@.subrange(i + m, n as int), pat@, rep@) =~= old_out
                + replace_all(t, pat@, rep@));
            i += m;
        } else {
            proof {
                if t.len() >= m {
                    assert(t.subrange(0, m as int) =~= s@.subrange(i as int, i + m));
                }
            }
            assert(t.drop_first() =~= s@.subrange(i + 1, n as int));
            out.push(s[i]);
            assert(out@ + replace_all(s@.subrange(i + 1, n as int), pat@, rep@) =~= old_out
                + replace_all(t, pat@, rep@));
            i += 1;
        }
    }
    assert(out@ + replace_all(s@.subrange(n as int, n as int), pat@, rep@) =~= out@);
    out
}

/// The words of `args` put in turn for `$0`, `$1`, ... in `s`.
fn replace_positional_exec(s: Vec<char>, args: &Vec<char>) -> (r: Vec<char>)
    ensures
        r@ == replace_positional(s@, words(args@), 0),
{
    let spans = word_spans(args);
    let ghost ws = words(args@);
    assert(span_texts(args@, spans@).len() == spans@.len());
    let mut cur = s;
    let mut k: usize = 0;
    while k < spans.len()
        invariant
            k <= spans@.len() == ws.len(),
            span_texts(args@, spans@) == ws,
            forall|j: int| 0 <= j < spans@.len() ==> (#[trigger] spans@[j]).0 < spans@[j].1 <= args@.len(),
            replace_positional(cur@, ws, k as int) == replace_positional(s@, ws, 0),
        decreases spans@.len() - k,
    {
        let mut pat: Vec<char> = Vec::new();
        pat.push('$');
        push_decimal(&mut pat, k as u64);
        let (a, b) = spans[k];
        let arg = sub_vec(args, a, b);
        assert(arg@ == ws[k as int]) by {
            assert(span_texts(args@, spans@)[k as int] == ws[k as int]);
        }
        assert(pat@ =~= seq!['$'] + spec_decimal(k as nat));
        cur = replace_all_exec(&cur, &pat, &arg);
        k += 1;
    }
    cur
}

/// An alias's expansion for the arguments `args` and the target.
fn expand_alias_exec(expansion: &str, args: &Option<Vec<char>>, target: Option<&str>) -> (r: Vec<char>)
    ensures
        r@ == spec_expand_alias(
            expansion@,
            match args {
                Some(a) => Some(a@),
                None => None,
            },
            opt_view(target),
        ),
{
    let e = chars_of(expansion);
    let mut star: Vec<char> = Vec::new();
    star.push('$');
    star.push('*');
    assert(star@ =~= all_args_marker());
    let a = match args {
        Some(a) => {
            let x = replace_all_exec(&e, &star, a);
            replace_positional_exec(x, a)
        },
        None => {
            let empty: Vec<char> = Vec::new();
            assert(empty@ =~= Seq::<char>::empty());
            replace_all_exec(&e, &star, &empty)
        },
    };
    match target {
        Some(t) => {
            let tv = chars_of(t);
            let mut marker: Vec<char> = Vec::new();
            marker.push('$');
            marker.push('t');
            marker.push('a');
            marker.push('r');
            marker.push('g');
            marker.push('e');
            marker.push('t');
            assert(marker@ =~= target_marker());
            replace_all_exec(&a, &marker, &tv)
        },
        None => a,
    }
}

/// The outcomes of a list of results.
pub open spec fn outcomes(v: Seq<ScriptResult>) -> Seq<ScriptOutcome> {
    Seq::new(
        v.len(),
        |i: int|
            if 0 <= i < v.len() {
                outcome_of(v[i])
            } else {
                ScriptOutcome::Nothing
            },
    )
}

/// The outcome of a result, if there is one.
pub open spec fn opt_outcome(r: Option<ScriptResult>) -> Option<ScriptOutcome> {
    match r {
        Some(x) => Some(outcome_of(x)),
        None => None,
    }
}

/// The outcomes of a list of results, if there is one.
pub open spec fn opt_outcomes(r: Option<Seq<ScriptResult>>) -> Option<Seq<ScriptOutcome>> {
    match r {
        Some(v) => Some(outcomes(v)),
        None => None,
    }
}

/// `done` followed by what is still to come, when it comes.
pub open spec fn then_rest(done: Seq<ScriptOutcome>, rest: Option<Seq<ScriptOutcome>>) -> Option<Seq<ScriptOutcome>> {
    match rest {
        Some(rs) => Some(done + rs),
        None => None,
    }
}

/// Processing with more room for nested expansions gives the same outcome:
/// two amounts that both suffice agree.
pub proof fn lemma_process_fuel_agrees(
    e: EngineModel,
    input: Seq<char>,
    target: Option<Seq<char>>,
    f1: nat,
    f2: nat,
)
    requires
        spec_process(e, input, target, f1) is Some,
        spec_process(e, input, target, f2) is Some,
    ensures
        spec_process(e, input, target, f1) == spec_process(e, input, target, f2),
    decreases f1, 0nat,
{
    let t = trim_ws(input);
    if t.len() > 0 {
        if has_char(t, ';') && t[0] == '/' {
            lemma_parts_fuel_agrees(e, split_on(t, ';'), target, (f1 - 1) as nat, (f2 - 1) as nat);
        } else {
            lemma_single_fuel_agrees(e, t, target, (f1 - 1) as nat, (f2 - 1) as nat);
        }
    }
}

proof fn lemma_parts_fuel_agrees(
    e: EngineModel,
    parts: Seq<Seq<char>>,
    target: Option<Seq<char>>,
    f1: nat,
    f2: nat,
)
    requires
        spec_process_parts(e, parts, target, f1) is Some,
        spec_process_parts(e, parts, target, f2) is Some,
    ensures
        spec_process_parts(e, parts, target, f1) == spec_process_parts(e, parts, target, f2),
    decreases f1, parts.len() + 1,
{
    if parts.len() > 0 {
        lemma_single_fuel_agrees(e, trim_ws(parts[0]), target, f1, f2);
        lemma_parts_fuel_agrees(e, parts.drop_first(), target, f1, f2);
    }
}

proof fn lemma_single_fuel_agrees(
    e: EngineModel,
    input: Seq<char>,
    target: Option<Seq<char>>,
    f1: nat,
    f2: nat,
)
    requires
        spec_process_single(e, input, target, f1) is Some,
        spec_process_single(e, input, target, f2) is Some,
    ensures
        spec_process_single(e, input, target, f1) == spec_process_single(e, input, target, f2),
    decreases f1, 0nat,
{
    let t = trim_ws(input);
    if t.len() > 0 && t[0] == '/' {
        let (name, args) = command_parts(t.drop_first());
        let key = ascii_lower(name);
        if e.aliases.contains_key(key) {
            lemma_process_fuel_agrees(
                e,
                expand_vars(e.vars, spec_expand_alias(e.aliases[key].1, args, target)),
                target,
                (f1 - 1) as nat,
                (f2 - 1) as nat,
            );
        }
    }
}

/// When processing comes to an end within `fuel` nested expansions, that
/// is what processing gives.
pub proof fn lemma_outcome_within(e: EngineModel, input: Seq<char>, target: Option<Seq<char>>, fuel: nat)
    requires
        spec_process(e, input, target, fuel) is Some,
    ensures
        process_terminates(e, input, target),
        spec_process(e, input, target, fuel) == Some(process_outcome(e, input, target)),
{
    let f = choose|f: nat| #[trigger] spec_process(e, input, target, f) is Some;
    lemma_process_fuel_agrees(e, input, target, fuel, f);
}

impl ScriptEngine {
    /// The tables are well formed, and each alias sits under its
    /// lower-cased name.
    pub closed spec fn wf(&self) -> bool {
        &&& self.aliases.wf()
        &&& self.variables.wf()
        &&& forall|k: Seq<char>|
            self.aliases@.contains_key(k) ==> ascii_lower(#[trigger] self.aliases@[k].name@) == k
    }

    proof fn lemma_view(&self)
        ensures
            self@.aliases.dom() == self.aliases@.dom(),
            forall|k: Seq<char>| self.aliases@.contains_key(k) ==> #[trigger] self@.aliases[k] == self.aliases@[k]@,
            self@.vars.dom() == self.variables@.dom(),
            forall|k: Seq<char>| self.variables@.contains_key(k) ==> #[trigger] self@.vars[k] == self.variables@[k]@,
    {
        assert(self@.aliases.dom() =~= self.aliases@.dom());
        assert(self@.vars.dom() =~= self.variables@.dom());
    }

    /// `s` with its variables expanded.
    fn expand_variables(&self, s: &Vec<char>) -> (r: Vec<char>)
        requires
            self.wf(),
        ensures
            r@ == expand_vars(self@.vars, s@),
    {
        proof {
            self.lemma_view();
        }
        let n = s.len();
        let mut out: Vec<char> = Vec::new();
        let mut i: usize = 0;
        while i < n
            invariant
                self.wf(),
                n == s@.len(),
                i <= n,
                out@ + expand_vars_from(self@.vars, s@, i as int) == expand_vars(self@.vars, s@),
            decreases n - i,
        {
            let ghost old_out = out@;
            let named = i + 1 < n && (char_is_alphanumeric(s[i + 1]) || s[i + 1] == '_');
            if s[i] == '$' && named {
                let start = i + 1;
                let mut end = start + 1;
                proof {
                    lemma_name_end(s@, i + 2);
                }
                while end < n && (char_is_alphanumeric(s[end]) || s[end] == '_')
                    invariant
                        start < end <= n == s@.len(),
                        name_end(s@, end as int) == name_end(s@, start as int),
                    decreases n - end,
                {
                    end += 1;
                }
                let name = string_of_range(s, start, end);
                proof {
                    self.lemma_view();
                }
                match self.variables.get(name.as_str()) {
                    Some(val) => {
                        let vv = chars_of(val.as_str());
                        push_range(&mut out, &vv, 0, vv.len());
                        assert(vv@.subrange(0, vv@.len() as int) =~= vv@);
                    },
                    None => {
                        out.push('$');
                        push_range(&mut out, s, start, end);
                    },
                }
                assert(out@ + expand_vars_from(self@.vars, s@, end as int) =~= old_out
                    + expand_vars_from(self@.vars, s@, i as int));
                i = end;
            } else {
                out.push(s[i]);
                assert(out@ + expand_vars_from(self@.vars, s@, i + 1) =~= old_out
                    + expand_vars_from(self@.vars, s@, i as int));
                i += 1;
            }
        }
        assert(out@ + expand_vars_from(self@.vars, s@, n as int) =~= out@);
        out
    }

    /// Processes `input` with `fuel` nested expansions to spare.
    fn process_fuel(&self, input: &Vec<char>, target: Option<&str>, Ghost(fuel): Ghost<nat>) -> (r:
        ScriptResult)
        requires
            self.wf(),
            spec_process(self@, input@, opt_view(target), fuel) is Some,
        ensures
            spec_process(self@, input@, opt_view(target), fuel) == Some(outcome_of(r)),
        decreases fuel, 0nat,
    {
        let (b, e) = trim_ws_idx(input);
        if b == e {
            return ScriptResult::Nothing;
        }
        let t = sub_vec(input, b, e);
        let has_semi = find_in(&t, 0, t.len(), ';').is_some();
        proof {
            assert(t@.subrange(0, t@.len() as int) =~= t@);
            lemma_find_char_cases(t@, ';');
        }
        if has_semi && t[0] == '/' {
            assert(t@ == trim_ws(input@));
            let results = self.process_parts(&t, target, Ghost((fuel - 1) as nat));
            if results.len() == 0 {
                ScriptResult::Nothing
            } else if results.len() == 1 {
                let mut results = results;
                let r = results.pop().unwrap();
                r
            } else {
                let ghost rv = results@;
                let r = ScriptResult::Multiple(results);
                assert(outcomes(rv) =~= match outcome_of(r) {
                    ScriptOutcome::Multiple(s) => s,
                    _ => Seq::<ScriptOutcome>::empty(),
                });
                r
            }
        } else {
            self.process_single_fuel(&t, target, Ghost((fuel - 1) as nat))
        }
    }

    /// Processes the `;`-separated commands of `t`, each trimmed; the
    /// results that are not empty, in order.
    fn process_parts(&self, t: &Vec<char>, target: Option<&str>, Ghost(f): Ghost<nat>) -> (r: Vec<
        ScriptResult,
    >)
        requires
            self.wf(),
            spec_process_parts(self@, split_on(t@, ';'), opt_view(target), f) is Some,
        ensures
            spec_process_parts(self@, split_on(t@, ';'), opt_view(target), f) == Some(outcomes(r@)),
        decreases f, 1nat,
    {
        let spans = split_spans(t, 0, t.len(), ';');
        let ghost parts = split_on(t@, ';');
        let ghost tv = opt_view(target);
        assert(t@.subrange(0, t@.len() as int) =~= t@);
        assert(span_texts(t@, spans@).len() == spans@.len());
        assert(parts.skip(0) =~= parts);
        let mut results: Vec<ScriptResult> = Vec::new();
        assert(outcomes(results@) =~= Seq::<ScriptOutcome>::empty());
        let mut k: usize = 0;
        while k < spans.len()
            invariant
                self.wf(),
                k <= spans@.len() == parts.len(),
                span_texts(t@, spans@) == parts,
                forall|j: int| 0 <= j < spans@.len() ==> (#[trigger] spans@[j]).0 <= spans@[j].1 <= t@.len(),
                spec_process_parts(self@, parts.skip(k as int), tv, f) is Some,
                spec_process_parts(self@, parts, tv, f) == Some(
                    outcomes(results@) + spec_process_parts(self@, parts.skip(k as int), tv, f)->0,
                ),
                tv == opt_view(target),
            decreases spans@.len() - k,
        {
            let ghost rest = parts.skip(k as int);
            let (a, bb) = spans[k];
            let part = sub_vec(t, a, bb);
            assert(part@ == rest[0]) by {
                assert(span_texts(t@, spans@)[k as int] == parts[k as int]);
            }
            assert(rest.drop_first() =~= parts.skip(k + 1));
            let (pb, pe) = trim_ws_idx(&part);
            let tp = sub_vec(&part, pb, pe);
            let r = self.process_single_fuel(&tp, target, Ghost(f));
            let ghost old_results = results@;
            let is_nothing = match &r {
                ScriptResult::Nothing => true,
                _ => false,
            };
            if !is_nothing {
                results.push(r);
                assert(outcomes(results@) =~= outcomes(old_results) + seq![outcome_of(r)]);
            }
            k += 1;
        }
        assert(parts.skip(k as int) =~= Seq::<Seq<char>>::empty());
        assert(outcomes(results@) + Seq::<ScriptOutcome>::empty() =~= outcomes(results@));
        results
    }

    /// Processes one command with `fuel` nested expansions to spare.
    fn process_single_fuel(&self, input: &Vec<char>, target: Option<&str>, Ghost(fuel): Ghost<nat>) -> (r:
        ScriptResult)
        requires
            self.wf(),
            spec_process_single(self@, input@, opt_view(target), fuel) is Some,
        ensures
            spec_process_single(self@, input@, opt_view(target), fuel) == Some(outcome_of(r)),
        decreases fuel, 0nat,
    {
        proof {
            self.lemma_view();
        }
        let (b, e) = trim_ws_idx(input);
        if b == e {
            return ScriptResult::Nothing;
        }
        let t = sub_vec(input, b, e);
        if t[0] == '/' {
            let cmd = sub_vec(&t, 1, t.len());
            assert(cmd@ =~= t@.drop_first());
            assert(cmd@.subrange(0, cmd@.len() as int) =~= cmd@);
            let (name, args) = match find_in(&cmd, 0, cmd.len(), ' ') {
                Some(p) => (sub_vec(&cmd, 0, p), Some(sub_vec(&cmd, p + 1, cmd.len()))),
                None => (sub_vec(&cmd, 0, cmd.len()), None),
            };
            let ghost args_view = match &args {
                Some(a) => Some(a@),
                None => None::<Seq<char>>,
            };
            assert(command_parts(cmd@) == (name@, args_view));
            let name_text = string_of(&name);
            let key = to_ascii_lower(name_text.as_str());
            match self.aliases.get(key.as_str()) {
                Some(alias) => {
                    let expanded = expand_alias_exec(alias.expansion.as_str(), &args, target);
                    let ev = self.expand_variables(&expanded);
                    assert(self@.aliases.contains_key(key@));
                    assert(self@.aliases[key@].1 == alias.expansion@);
                    let r = self.process_fuel(&ev, target, Ghost((fuel - 1) as nat));
                    assert(spec_process_single(self@, input@, opt_view(target), fuel) == Some(outcome_of(r)));
                    r
                },
                None => {
                    let up = upper_range(&name, 0, name.len());
                    assert(name@.subrange(0, name@.len() as int) =~= name@);
                    let mut raw = chars_of(up.as_str());
                    match &args {
                        Some(a) => {
                            raw.push(' ');
                            let ea = self.expand_variables(a);
                            push_range(&mut raw, &ea, 0, ea.len());
                            assert(ea@.subrange(0, ea@.len() as int) =~= ea@);
                            assert(raw@ =~= upper(name@) + seq![' '] + expand_vars(self@.vars, a@));
                        },
                        None => {},
                    }
                    assert(raw@ == match args_view {
                        Some(a) => upper(name@) + seq![' '] + expand_vars(self@.vars, a),
                        None => upper(name@),
                    });
                    assert(!self@.aliases.contains_key(ascii_lower(name@)));
                    let r = ScriptResult::RawCommand(string_of(&raw));
                    assert(spec_process_single(self@, input@, opt_view(target), fuel) == Some(outcome_of(r)));
                    r
                },
            }
        } else {
            let ex = self.expand_variables(&t);
            let r = ScriptResult::Message(string_of(&ex));
            assert(spec_process_single(self@, input@, opt_view(target), fuel) == Some(outcome_of(r)));
            r
        }
    }
}

impl ScriptEngine {
    /// Processes `input` with at most `fuel` levels of processing; nothing
    /// when they run out.
    fn run(&self, input: &Vec<char>, target: Option<&str>, fuel: usize) -> (r: Option<ScriptResult>)
        requires
            self.wf(),
        ensures
            spec_process(self@, input@, opt_view(target), fuel as nat) == opt_outcome(r),
        decreases fuel, 0nat,
    {
        if fuel == 0 {
            return None;
        }
        let (b, e) = trim_ws_idx(input);
        if b == e {
            return Some(ScriptResult::Nothing);
        }
        let t = sub_vec(input, b, e);
        let has_semi = find_in(&t, 0, t.len(), ';').is_some();
        proof {
            assert(t@.subrange(0, t@.len() as int) =~= t@);
            lemma_find_char_cases(t@, ';');
        }
        if has_semi && t[0] == '/' {
            assert(t@ == trim_ws(input@));
            match self.run_parts(&t, target, fuel - 1) {
                None => None,
                Some(results) => {
                    if results.len() == 0 {
                        Some(ScriptResult::Nothing)
                    } else if results.len() == 1 {
                        let mut results = results;
                        let r = results.pop().unwrap();
                        Some(r)
                    } else {
                        let ghost rv = results@;
                        let r = ScriptResult::Multiple(results);
                        assert(outcomes(rv) =~= match outcome_of(r) {
                            ScriptOutcome::Multiple(s) => s,
                            _ => Seq::<ScriptOutcome>::empty(),
                        });
                        Some(r)
                    }
                },
            }
        } else {
            self.run_single(&t, target, fuel - 1)
        }
    }

    /// Processes the `;`-separated commands of `t`, each trimmed, with at
    /// most `fuel` levels each; the results that are not empty, in order,
    /// or nothing when one runs out.
    fn run_parts(&self, t: &Vec<char>, target: Option<&str>, fuel: usize) -> (r: Option<Vec<ScriptResult>>)
        requires
            self.wf(),
        ensures
            spec_process_parts(self@, split_on(t@, ';'), opt_view(target), fuel as nat) == match r {
                Some(v) => Some(outcomes(v@)),
                None => None,
            },
        decreases fuel, 1nat,
    {
        let ghost f = fuel as nat;
        let spans = split_spans(t, 0, t.len(), ';');
        let ghost parts = split_on(t@, ';');
        let ghost tv = opt_view(target);
        assert(t@.subrange(0, t@.len() as int) =~= t@);
        assert(span_texts(t@, spans@).len() == spans@.len());
        assert(parts.skip(0) =~= parts);
        let mut results: Vec<ScriptResult> = Vec::new();
        assert(outcomes(results@) =~= Seq::<ScriptOutcome>::empty());
        assert(then_rest(outcomes(results@), spec_process_parts(self@, parts, tv, f)) =~= spec_process_parts(
            self@,
            parts,
            tv,
            f,
        )) by {
            match spec_process_parts(self@, parts, tv, f) {
                Some(rs) => {
                    assert(outcomes(results@) + rs =~= rs);
                },
                None => {},
            }
        }
        let mut k: usize = 0;
        while k < spans.len()
            invariant
                self.wf(),
                f == fuel as nat,
                parts == split_on(t@, ';'),
                k <= spans@.len() == parts.len(),
                span_texts(t@, spans@) == parts,
                forall|j: int| 0 <= j < spans@.len() ==> (#[trigger] spans@[j]).0 <= spans@[j].1 <= t@.len(),
                spec_process_parts(self@, parts, tv, f) == then_rest(
                    outcomes(results@),
                    spec_process_parts(self@, parts.skip(k as int), tv, f),
                ),
                tv == opt_view(target),
            decreases spans@.len() - k,
        {
            let ghost rest = parts.skip(k as int);
            let (a, bb) = spans[k];
            let part = sub_vec(t, a, bb);
            assert(part@ == rest[0]) by {
                assert(span_texts(t@, spans@)[k as int] == parts[k as int]);
            }
            assert(rest.drop_first() =~= parts.skip(k + 1));
            let (pb, pe) = trim_ws_idx(&part);
            let tp = sub_vec(&part, pb, pe);
            match self.run_single(&tp, target, fuel) {
                None => {
                    assert(spec_process_parts(self@, rest, tv, f) is None);
                    return None;
                },
                Some(r) => {
                    let ghost old_results = results@;
                    let is_nothing = match &r {
                        ScriptResult::Nothing => true,
                        _ => false,
                    };
                    if !is_nothing {
                        results.push(r);
                        assert(outcomes(results@) =~= outcomes(old_results) + seq![outcome_of(r)]);
                    }
                    assert(spec_process_parts(self@, parts, tv, f) == then_rest(
                        outcomes(results@),
                        spec_process_parts(self@, parts.skip(k + 1), tv, f),
                    )) by {
                        match spec_process_parts(self@, parts.skip(k + 1), tv, f) {
                            Some(rs) => {
                                if !is_nothing {
                                    assert(outcomes(old_results) + (seq![outcome_of(r)] + rs) =~= outcomes(
                                        results@,
                                    ) + rs);
                                } else {
                                    assert(outcomes(results@) == outcomes(old_results));
                                }
                            },
                            None => {},
                        }
                    }
                },
            }
            k += 1;
        }
        assert(parts.skip(k as int) =~= Seq::<Seq<char>>::empty());
        assert(outcomes(results@) + Seq::<ScriptOutcome>::empty() =~= outcomes(results@));
        Some(results)
    }

    /// Processes one command with at most `fuel` nested expansions; nothing
    /// when they run out.
    fn run_single(&self, input: &Vec<char>, target: Option<&str>, fuel: usize) -> (r: Option<ScriptResult>)
        requires
            self.wf(),
        ensures
            spec_process_single(self@, input@, opt_view(target), fuel as nat) == opt_outcome(r),
        decreases fuel, 0nat,
    {
        proof {
            self.lemma_view();
        }
        let (b, e) = trim_ws_idx(input);
        if b == e {
            return Some(ScriptResult::Nothing);
        }
        let t = sub_vec(input, b, e);
        if t[0] == '/' {
            let cmd = sub_vec(&t, 1, t.len());
            assert(cmd@ =~= t@.drop_first());
            assert(cmd@.subrange(0, cmd@.len() as int) =~= cmd@);
            let (name, args) = match find_in(&cmd, 0, cmd.len(), ' ') {
                Some(p) => (sub_vec(&cmd, 0, p), Some(sub_vec(&cmd, p + 1, cmd.len()))),
                None => (sub_vec(&cmd, 0, cmd.len()), None),
            };
            let ghost args_view = match &args {
                Some(a) => Some(a@),
                None => None::<Seq<char>>,
            };
            assert(command_parts(cmd@) == (name@, args_view));
            let name_text = string_of(&name);
            let key = to_ascii_lower(name_text.as_str());
            match self.aliases.get(key.as_str()) {
                Some(alias) => {
                    assert(self@.aliases.contains_key(key@));
                    assert(self@.aliases[key@].1 == alias.expansion@);
                    if fuel == 0 {
                        return None;
                    }
                    let expanded = expand_alias_exec(alias.expansion.as_str(), &args, target);
                    let ev = self.expand_variables(&expanded);
                    self.run(&ev, target, fuel - 1)
                },
                None => {
                    let up = upper_range(&name, 0, name.len());
                    assert(name@.subrange(0, name@.len() as int) =~= name@);
                    let mut raw = chars_of(up.as_str());
                    match &args {
                        Some(a) => {
                            raw.push(' ');
                            let ea = self.expand_variables(a);
                            push_range(&mut raw, &ea, 0, ea.len());
                            assert(ea@.subrange(0, ea@.len() as int) =~= ea@);
                            assert(raw@ =~= upper(name@) + seq![' '] + expand_vars(self@.vars, a@));
                        },
                        None => {},
                    }
                    assert(raw@ == match args_view {
                        Some(a) => upper(name@) + seq![' '] + expand_vars(self@.vars, a),
                        None => upper(name@),
                    });
                    assert(!self@.aliases.contains_key(ascii_lower(name@)));
                    Some(ScriptResult::RawCommand(string_of(&raw)))
                },
            }
        } else {
            let ex = self.expand_variables(&t);
            Some(ScriptResult::Message(string_of(&ex)))
        }
    }
}

impl ScriptEngine {
    /// An engine with no aliases and no variables.
    pub fn new() -> (r: ScriptEngine)
        ensures
            r.wf(),
            r@.aliases == Map::<Seq<char>, (Seq<char>, Seq<char>)>::empty(),
            r@.vars == Map::<Seq<char>, Seq<char>>::empty(),
    {
        let r = ScriptEngine { aliases: AssocList::new(), variables: AssocList::new() };
        proof {
            r.lemma_view();
        }
        assert(r@.aliases =~= Map::<Seq<char>, (Seq<char>, Seq<char>)>::empty());
        assert(r@.vars =~= Map::<Seq<char>, Seq<char>>::empty());
        r
    }

    /// Adds the alias `name` (replacing one of the same name in any ASCII
    /// case).
    pub fn add_alias(&mut self, name: &str, expansion: &str)
        requires
            old(self).wf(),
        ensures
            final(self).wf(),
            final(self)@.aliases == old(self)@.aliases.insert(ascii_lower(name@), (name@, expansion@)),
            final(self)@.vars == old(self)@.vars,
    {
        let lower = to_ascii_lower(name);
        let alias = Alias { name: owned(name), expansion: owned(expansion) };
        self.aliases.insert(lower, alias);
        proof {
            self.lemma_view();
            old(self).lemma_view();
        }
        assert(self@.aliases =~= old(self)@.aliases.insert(ascii_lower(name@), (name@, expansion@)));
        assert(self@.vars =~= old(self)@.vars);
    }

    /// Removes the alias `name` (in any ASCII case); whether there was one.
    pub fn remove_alias(&mut self, name: &str) -> (r: bool)
        requires
            old(self).wf(),
        ensures
            final(self).wf(),
            r == old(self)@.aliases.contains_key(ascii_lower(name@)),
            final(self)@.aliases == old(self)@.aliases.remove(ascii_lower(name@)),
            final(self)@.vars == old(self)@.vars,
    {
        proof {
            old(self).lemma_view();
        }
        let lower = to_ascii_lower(name);
        let r = self.aliases.remove(lower.as_str()).is_some();
        proof {
            self.lemma_view();
        }
        assert(self@.aliases =~= old(self)@.aliases.remove(ascii_lower(name@)));
        assert(self@.vars =~= old(self)@.vars);
        r
    }

    /// Sets the variable `name` (names are matched exactly).
    pub fn set_var(&mut self, name: &str, value: &str)
        requires
            old(self).wf(),
        ensures
            final(self).wf(),
            final(self)@.vars == old(self)@.vars.insert(name@, value@),
            final(self)@.aliases == old(self)@.aliases,
    {
        self.variables.insert(owned(name), owned(value));
        proof {
            self.lemma_view();
            old(self).lemma_view();
        }
        assert(self@.vars =~= old(self)@.vars.insert(name@, value@));
        assert(self@.aliases =~= old(self)@.aliases);
    }

    /// The value of the variable `name`, if set.
    pub fn get_var(&self, name: &str) -> (r: Option<&str>)
        requires
            self.wf(),
        ensures
            match r {
                Some(v) => self@.vars.get(name@) == Some(v@),
                None => !self@.vars.contains_key(name@),
            },
    {
        proof {
            self.lemma_view();
        }
        match self.variables.get(name) {
            Some(v) => Some(v.as_str()),
            None => None,
        }
    }

    /// The aliases, ordered by name.
    pub fn list_aliases(&self) -> (r: Vec<&Alias>)
        requires
            self.wf(),
        ensures
            r@.len() == self@.aliases.len(),
            forall|i: int|
                0 <= i < r@.len() ==> self@.aliases.get(ascii_lower((#[trigger] r@[i]).name@)) == Some(
                    r@[i]@,
                ),
            forall|i: int| 0 <= i < r@.len() - 1 ==> lex_lt(r@[i].name@, #[trigger] r@[i + 1].name@),
    {
        proof {
            self.aliases.lemma_order();
            self.lemma_view();
        }
        let n = self.aliases.len();
        let ghost keys = self.aliases.key_seq();
        let ghost vals = self.aliases.value_seq();
        proof {
            assert forall|j: int| 0 <= j < n implies ascii_lower((#[trigger] vals[j]).name@) == keys[j] by {
                assert(keys.contains(keys[j]));
                assert(self.aliases@[keys[j]] == vals[j]);
            }
        }
        let mut out: Vec<&Alias> = Vec::new();
        let mut i: usize = 0;
        while i < n
            invariant
                self.wf(),
                n == keys.len() == vals.len(),
                keys == self.aliases.key_seq(),
                vals == self.aliases.value_seq(),
                keys.no_duplicates(),
                forall|j: int| 0 <= j < n ==> ascii_lower((#[trigger] vals[j]).name@) == keys[j],
                i <= n,
                out@.len() == i,
                forall|j: int|
                    0 <= j < out@.len() ==> exists|m: int| 0 <= m < i && *(#[trigger] out@[j]) == vals[m],
                forall|j: int|
                    0 <= j < out@.len() - 1 ==> lex_lt(out@[j].name@, #[trigger] out@[j + 1].name@),
            decreases n - i,
        {
            proof {
                self.aliases.lemma_order();
            }
            let a = self.aliases.value_at(i);
            let an = chars_of(a.name.as_str());
            let mut p: usize = 0;
            let mut stop = false;
            while !stop && p < out.len()
                invariant
                    p <= out@.len(),
                    an@ == a.name@,
                    stop ==> p < out@.len() && lex_lt(an@, out@[p as int].name@),
                    forall|j: int| 0 <= j < p ==> !lex_lt(an@, #[trigger] out@[j].name@),
                decreases out@.len() - p + (if stop {
                    0int
                } else {
                    1int
                }),
            {
                let on = chars_of(out[p].name.as_str());
                if lex_less(&an, &on) {
                    stop = true;
                } else {
                    p += 1;
                }
            }
            proof {
                // the new name differs from every name placed so far
                assert forall|j: int| 0 <= j < out@.len() implies out@[j].name@ != a.name@ by {
                    let m = choose|m: int| 0 <= m < i && *out@[j] == vals[m];
                    assert(keys[m] == ascii_lower(vals[m].name@));
                    assert(keys[i as int] == ascii_lower(vals[i as int].name@));
                    assert(m != i);
                }
                if p > 0 {
                    lemma_lex_total(a.name@, out@[p - 1].name@);
                }
            }
            let ghost old_out = out@;
            out.insert(p, a);
            proof {
                assert forall|j: int| 0 <= j < out@.len() implies exists|m: int|
                    0 <= m < i + 1 && *(#[trigger] out@[j]) == vals[m] by {
                    if j < p {
                        assert(out@[j] == old_out[j]);
                    } else if j == p {
                        assert(*out@[j] == vals[i as int]);
                    } else {
                        assert(out@[j] == old_out[j - 1]);
                    }
                }
                assert forall|j: int| 0 <= j < out@.len() - 1 implies lex_lt(
                    out@[j].name@,
                    #[trigger] out@[j + 1].name@,
                ) by {
                    if j + 1 < p {
                        assert(out@[j] == old_out[j] && out@[j + 1] == old_out[j + 1]);
                        assert(lex_lt(old_out[j].name@, old_out[j + 1].name@));
                    } else if j + 1 == p {
                        assert(out@[j] == old_out[j]);
                        assert(out@[j + 1] == a);
                        assert(!lex_lt(a.name@, old_out[j].name@));
                        assert(old_out[j].name@ != a.name@);
                    } else if j == p {
                        assert(out@[j] == a);
                        assert(out@[j + 1] == old_out[j]);
                        assert(stop);
                    } else {
                        assert(out@[j] == old_out[j - 1] && out@[j + 1] == old_out[j]);
                        let k = j - 1;
                        assert(lex_lt(old_out[k].name@, old_out[k + 1].name@));
                    }
                }
            }
            i += 1;
        }
        proof {
            assert forall|j: int| 0 <= j < out@.len() implies self@.aliases.get(
                ascii_lower((#[trigger] out@[j]).name@),
            ) == Some(out@[j]@) by {
                let m = choose|m: int| 0 <= m < n && *out@[j] == vals[m];
                assert(self.aliases@[keys[m]] == vals[m]);
                assert(keys.contains(keys[m]));
            }
        }
        out
    }

    /// Adds the standard aliases: `j` (join), `l` (part), `m` (msg), `q`
    /// (quit), `k` (kick from the current target), `n` (nick), `w` (whois)
    /// and `wii` (whois asking the user's server).
    pub fn register_defaults(&mut self)
        requires
            old(self).wf(),
        ensures
            final(self).wf(),
            final(self)@.vars == old(self)@.vars,
            final(self)@.aliases == old(self)@.aliases.insert(ascii_lower("j"@), ("j"@, "/join $*"@))
                .insert(ascii_lower("l"@), ("l"@, "/part $*"@))
                .insert(ascii_lower("m"@), ("m"@, "/msg $*"@))
                .insert(ascii_lower("q"@), ("q"@, "/quit $*"@))
                .insert(ascii_lower("k"@), ("k"@, "/kick $target $*"@))
                .insert(ascii_lower("n"@), ("n"@, "/nick $*"@))
                .insert(ascii_lower("w"@), ("w"@, "/whois $*"@))
                .insert(ascii_lower("wii"@), ("wii"@, "/whois $0 $0"@)),
    {
        self.add_alias("j", "/join $*");
        self.add_alias("l", "/part $*");
        self.add_alias("m", "/msg $*");
        self.add_alias("q", "/quit $*");
        self.add_alias("k", "/kick $target $*");
        self.add_alias("n", "/nick $*");
        self.add_alias("w", "/whois $*");
        self.add_alias("wii", "/whois $0 $0");
    }

    /// Processes a line of input: expands aliases and variables and says
    /// what to send. Only inputs whose alias expansion comes to an end are
    /// accepted.
    pub fn process(&self, input: &str, current_target: Option<&str>) -> (r: ScriptResult)
        requires
            self.wf(),
            process_terminates(self@, input@, opt_view(current_target)),
        ensures
            outcome_of(r) == process_outcome(self@, input@, opt_view(current_target)),
    {
        let v = chars_of(input);
        let ghost f = choose|f: nat| #[trigger] spec_process(self@, input@, opt_view(current_target), f) is Some;
        self.process_fuel(&v, current_target, Ghost(f))
    }
}

impl ScriptEngine {
    /// Processes a line of input as [`ScriptEngine::process`] does, but
    /// gives up after `depth` levels of processing (each alias expansion and
    /// each `;` list takes one): nothing then, which is how a looping alias
    /// shows.
    pub fn process_bounded(&self, input: &str, current_target: Option<&str>, depth: usize) -> (r: Option<
        ScriptResult,
    >)
        requires
            self.wf(),
        ensures
            spec_process(self@, input@, opt_view(current_target), depth as nat) == opt_outcome(r),
            r matches Some(x) ==> process_terminates(self@, input@, opt_view(current_target))
                && outcome_of(x) == process_outcome(self@, input@, opt_view(current_target)),
    {
        let v = chars_of(input);
        let r = self.run(&v, current_target, depth);
        proof {
            if r is Some {
                lemma_outcome_within(self@, input@, opt_view(current_target), depth as nat);
            }
        }
        r
    }
}

impl Default for ScriptEngine {
    fn default() -> (r: ScriptEngine)
        ensures
            r.wf(),
            r@.aliases == Map::<Seq<char>, (Seq<char>, Seq<char>)>::empty(),
            r@.vars == Map::<Seq<char>, Seq<char>>::empty(),
    {
        ScriptEngine::new()
    }
}

/// A variable reads back as it was last set.
pub proof fn lemma_var_read_after_write(e: EngineModel, name: Seq<char>, value: Seq<char>)
    ensures
        e.vars.insert(name, value).get(name) == Some(value),
{
}

/// An alias is found under any spelling of its name that differs only in
/// ASCII case.
pub proof fn lemma_alias_case_insensitive(
    e: EngineModel,
    name: Seq<char>,
    other: Seq<char>,
    expansion: Seq<char>,
)
    requires
        ascii_lower(name) == ascii_lower(other),
    ensures
        e.aliases.insert(ascii_lower(name), (name, expansion)).get(ascii_lower(other)) == Some(
            (name, expansion),
        ),
{
}

/// Removing an alias that was just added, under a name not taken before,
/// leaves the aliases as they were.
pub proof fn lemma_alias_add_then_remove(e: EngineModel, name: Seq<char>, expansion: Seq<char>)
    requires
        !e.aliases.contains_key(ascii_lower(name)),
    ensures
        e.aliases.insert(ascii_lower(name), (name, expansion)).remove(ascii_lower(name)) == e.aliases,
{
    assert(e.aliases.insert(ascii_lower(name), (name, expansion)).remove(ascii_lower(name)) =~= e.aliases);
}

} // verus!

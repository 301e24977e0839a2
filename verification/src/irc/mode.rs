//! Channel and user modes: reading mode strings such as `+ov nick1 nick2`
//! and keeping track of which modes are set.
use vstd::prelude::*;

use crate::collections::CharSet;
use crate::text::{
    chars_of, parse_unsigned, push_decimal, push_str_chars, spec_decimal, spec_parse_unsigned,
    string_of, lemma_decimal_reads_back,
};

verus! {

/// One mode being set or unset, with its parameter if it took one.
#[derive(Debug, Clone, PartialEq)]
pub enum ModeChange {
    Add(char, Option<String>),
    Remove(char, Option<String>),
}

/// The abstract value of a [`ModeChange`].
pub enum ModeChangeModel {
    Add(char, Option<Seq<char>>),
    Remove(char, Option<Seq<char>>),
}

pub open spec fn opt_text(o: Option<String>) -> Option<Seq<char>> {
    match o {
        Some(s) => Some(s@),
        None => None,
    }
}

impl View for ModeChange {
    type V = ModeChangeModel;

    open spec fn view(&self) -> ModeChangeModel {
        match self {
            ModeChange::Add(c, p) => ModeChangeModel::Add(*c, opt_text(*p)),
            ModeChange::Remove(c, p) => ModeChangeModel::Remove(*c, opt_text(*p)),
        }
    }
}

/// The modes of a channel: its flags, its key and its user limit.
#[derive(Debug, Clone)]
pub struct ChannelModes {
    pub flags: CharSet,
    pub key: Option<String>,
    pub limit: Option<u32>,
}

/// The abstract value of [`ChannelModes`].
pub struct ChannelModesModel {
    pub flags: Set<char>,
    pub key: Option<Seq<char>>,
    pub limit: Option<u32>,
}

impl View for ChannelModes {
    type V = ChannelModesModel;

    open spec fn view(&self) -> ChannelModesModel {
        ChannelModesModel { flags: self.flags@, key: opt_text(self.key), limit: self.limit }
    }
}

/// The modes set on the user.
#[derive(Debug, Clone)]
pub struct UserModes {
    pub flags: CharSet,
}

/// Modes that take a parameter when set.
pub open spec fn takes_param_on_set(mode: char) -> bool {
    mode == 'o' || mode == 'v' || mode == 'b' || mode == 'k' || mode == 'l' || mode == 'e'
        || mode == 'I' || mode == 'h' || mode == 'q'
}

/// Modes that take a parameter when unset.
pub open spec fn takes_param_on_unset(mode: char) -> bool {
    mode == 'o' || mode == 'v' || mode == 'b' || mode == 'k' || mode == 'e' || mode == 'I'
        || mode == 'h' || mode == 'q'
}

/// Modes that take a parameter when set.
pub fn mode_takes_param_on_set(mode: char) -> (b: bool)
    ensures
        b == takes_param_on_set(mode),
{
    mode == 'o' || mode == 'v' || mode == 'b' || mode == 'k' || mode == 'l' || mode == 'e'
        || mode == 'I' || mode == 'h' || mode == 'q'
}

/// Modes that take a parameter when unset.
pub fn mode_takes_param_on_unset(mode: char) -> (b: bool)
    ensures
        b == takes_param_on_unset(mode),
{
    mode == 'o' || mode == 'v' || mode == 'b' || mode == 'k' || mode == 'e' || mode == 'I'
        || mode == 'h' || mode == 'q'
}

/// Where reading a mode string has got to: the current sign, the next
/// unused parameter and the changes read so far.
pub struct ModeScan {
    pub adding: bool,
    pub next: int,
    pub changes: Seq<ModeChangeModel>,
}

/// Reading one more character of a mode string.
pub open spec fn mode_step(st: ModeScan, ch: char, params: Seq<Seq<char>>) -> ModeScan {
    if ch == '+' {
        ModeScan { adding: true, ..st }
    } else if ch == '-' {
        ModeScan { adding: false, ..st }
    } else {
        let needs = if st.adding {
            takes_param_on_set(ch)
        } else {
            takes_param_on_unset(ch)
        };
        let take = needs && 0 <= st.next < params.len();
        let param = if take {
            Some(params[st.next])
        } else {
            None
        };
        ModeScan {
            adding: st.adding,
            next: if take {
                st.next + 1
            } else {
                st.next
            },
            changes: st.changes.push(
                if st.adding {
                    ModeChangeModel::Add(ch, param)
                } else {
                    ModeChangeModel::Remove(ch, param)
                },
            ),
        }
    }
}

/// Reading a whole mode string: a sign applies to the letters after it
/// (`+` at the start), and each letter that takes a parameter uses the next
/// unused one while any are left.
pub open spec fn mode_scan(s: Seq<char>, params: Seq<Seq<char>>) -> ModeScan
    decreases s.len(),
{
    if s.len() == 0 {
        ModeScan { adding: true, next: 0, changes: Seq::empty() }
    } else {
        mode_step(mode_scan(s.drop_last(), params), s.last(), params)
    }
}

pub open spec fn changes_view(v: Seq<ModeChange>) -> Seq<ModeChangeModel> {
    v.map_values(|c: ModeChange| c@)
}

pub open spec fn strings_view(v: Seq<String>) -> Seq<Seq<char>> {
    v.map_values(|s: String| s@)
}

proof fn lemma_scan_next_bounded(s: Seq<char>, params: Seq<Seq<char>>)
    ensures
        0 <= mode_scan(s, params).next <= params.len(),
    decreases s.len(),
{
    if s.len() > 0 {
        lemma_scan_next_bounded(s.drop_last(), params);
    }
}

proof fn lemma_changes_view_push(s: Seq<ModeChange>, c: ModeChange)
    ensures
        changes_view(s.push(c)) == changes_view(s).push(c@),
{
    assert(changes_view(s.push(c)) =~= changes_view(s).push(c@));
}

/// Reads a mode string such as `+ov nick1 nick2` or `+ntl 10` into the
/// changes it makes.
pub fn parse_mode_changes(mode_str: &str, params: &[String]) -> (r: Vec<ModeChange>)
    ensures
        changes_view(r@) == mode_scan(mode_str@, strings_view(params@)).changes,
{
    let ghost ps = strings_view(params@);
    let v = chars_of(mode_str);
    let mut changes: Vec<ModeChange> = Vec::new();
    let mut adding = true;
    let mut param_idx: usize = 0;
    let mut i: usize = 0;
    assert(changes_view(changes@) =~= Seq::<ModeChangeModel>::empty());
    assert(v@.take(0) =~= Seq::<char>::empty());
    while i < v.len()
        invariant
            i <= v.len(),
            v@ == mode_str@,
            ps == strings_view(params@),
            param_idx <= params@.len(),
            mode_scan(v@.take(i as int), ps).adding == adding,
            mode_scan(v@.take(i as int), ps).next == param_idx as int,
            mode_scan(v@.take(i as int), ps).changes == changes_view(changes@),
        decreases v.len() - i,
    {
        let ch = v[i];
        let ghost before = changes_view(changes@);
        assert(v@.take(i + 1).drop_last() =~= v@.take(i as int));
        if ch == '+' {
            adding = true;
        } else if ch == '-' {
            adding = false;
        } else {
            let needs_param = if adding {
                mode_takes_param_on_set(ch)
            } else {
                mode_takes_param_on_unset(ch)
            };
            let param = if needs_param && param_idx < params.len() {
                let p = crate::text::owned(params[param_idx].as_str());
                assert(ps[param_idx as int] == params@[param_idx as int]@);
                param_idx += 1;
                Some(p)
            } else {
                None
            };
            let c = if adding {
                ModeChange::Add(ch, param)
            } else {
                ModeChange::Remove(ch, param)
            };
            let ghost cg = c;
            let ghost cm = c@;
            let ghost old_changes = changes@;
            changes.push(c);
            assert(changes@ == old_changes.push(cg));
            proof {
                lemma_changes_view_push(old_changes, cg);
            }
        }
        i += 1;
    }
    assert(v@.take(v@.len() as int) =~= mode_str@);
    changes
}

/// Reading `sign` then `c`, with the parameters `params`, in two steps.
proof fn lemma_scan_two(sign: char, c: char, params: Seq<Seq<char>>)
    ensures
        mode_scan(seq![sign, c], params) == mode_step(mode_step(mode_scan(Seq::empty(), params), sign, params), c, params),
{
    let two = seq![sign, c];
    let one = seq![sign];
    assert(two.drop_last() =~= one);
    assert(two.last() == c);
    assert(one.drop_last() =~= Seq::<char>::empty());
    assert(one.last() == sign);
    assert(mode_scan(one, params) == mode_step(mode_scan(Seq::<char>::empty(), params), sign, params));
    assert(mode_scan(two, params) == mode_step(mode_scan(one, params), c, params));
}

/// Setting one of the modes `o`, `v`, `b`, `k`, `l`, `e`, `I`, `h` and `q`
/// uses a parameter: `+c p` adds `c` with `p`.
pub proof fn lemma_set_mode_takes_param(c: char, p: Seq<char>)
    requires
        c == 'o' || c == 'v' || c == 'b' || c == 'k' || c == 'l' || c == 'e' || c == 'I' || c == 'h'
            || c == 'q',
    ensures
        mode_scan(seq!['+', c], seq![p]).changes == seq![ModeChangeModel::Add(c, Some(p))],
{
    lemma_scan_two('+', c, seq![p]);
    assert(mode_scan(seq!['+', c], seq![p]).changes =~= seq![ModeChangeModel::Add(c, Some(p))]);
}

/// Setting any other mode letter uses no parameter: `+c p` adds `c` alone.
pub proof fn lemma_set_mode_without_param(c: char, p: Seq<char>)
    requires
        !(c == 'o' || c == 'v' || c == 'b' || c == 'k' || c == 'l' || c == 'e' || c == 'I' || c == 'h'
            || c == 'q'),
        c != '+' && c != '-',
    ensures
        mode_scan(seq!['+', c], seq![p]).changes == seq![ModeChangeModel::Add(c, None)],
{
    lemma_scan_two('+', c, seq![p]);
    assert(mode_scan(seq!['+', c], seq![p]).changes =~= seq![ModeChangeModel::Add(c, None)]);
}

/// Unsetting one of the modes `o`, `v`, `b`, `k`, `e`, `I`, `h` and `q`
/// uses a parameter: `-c p` removes `c` with `p`.
pub proof fn lemma_unset_mode_takes_param(c: char, p: Seq<char>)
    requires
        c == 'o' || c == 'v' || c == 'b' || c == 'k' || c == 'e' || c == 'I' || c == 'h' || c == 'q',
    ensures
        mode_scan(seq!['-', c], seq![p]).changes == seq![ModeChangeModel::Remove(c, Some(p))],
{
    lemma_scan_two('-', c, seq![p]);
    assert(mode_scan(seq!['-', c], seq![p]).changes =~= seq![ModeChangeModel::Remove(c, Some(p))]);
}

/// Unsetting any other mode letter, the limit `l` among them, uses no
/// parameter: `-c p` removes `c` alone.
pub proof fn lemma_unset_mode_without_param(c: char, p: Seq<char>)
    requires
        !(c == 'o' || c == 'v' || c == 'b' || c == 'k' || c == 'e' || c == 'I' || c == 'h' || c == 'q'),
        c != '+' && c != '-',
    ensures
        mode_scan(seq!['-', c], seq![p]).changes == seq![ModeChangeModel::Remove(c, None)],
{
    lemma_scan_two('-', c, seq![p]);
    assert(mode_scan(seq!['-', c], seq![p]).changes =~= seq![ModeChangeModel::Remove(c, None)]);
}

/// What applying a change does to channel modes.
pub open spec fn spec_channel_apply(m: ChannelModesModel, c: ModeChangeModel) -> ChannelModesModel {
    match c {
        ModeChangeModel::Add(mode, param) => if mode == 'k' {
            ChannelModesModel { flags: m.flags.insert('k'), key: param, limit: m.limit }
        } else if mode == 'l' {
            ChannelModesModel {
                flags: m.flags.insert('l'),
                key: m.key,
                limit: match param {
                    Some(p) => match spec_parse_unsigned(p, u32::MAX as int) {
                        Some(n) => Some(n as u32),
                        None => None,
                    },
                    None => None,
                },
            }
        } else {
            ChannelModesModel { flags: m.flags.insert(mode), key: m.key, limit: m.limit }
        },
        ModeChangeModel::Remove(mode, _) => if mode == 'k' {
            ChannelModesModel { flags: m.flags.remove('k'), key: None, limit: m.limit }
        } else if mode == 'l' {
            ChannelModesModel { flags: m.flags.remove('l'), key: m.key, limit: None }
        } else {
            ChannelModesModel { flags: m.flags.remove(mode), key: m.key, limit: m.limit }
        },
    }
}

/// The parameters written after the flags: the key, then the limit.
pub open spec fn mode_params_text(key: Option<Seq<char>>, limit: Option<u32>) -> Seq<char> {
    match (key, limit) {
        (Some(k), Some(l)) => seq![' '] + k + seq![' '] + spec_decimal(l as nat),
        (Some(k), None) => seq![' '] + k,
        (None, Some(l)) => seq![' '] + spec_decimal(l as nat),
        (None, None) => Seq::empty(),
    }
}

/// `s` is in strictly increasing character order.
pub open spec fn strictly_sorted(s: Seq<char>) -> bool {
    forall|i: int, j: int| 0 <= i < j < s.len() ==> (s[i] as u32) < (s[j] as u32)
}

/// Reading a letter while adding records one more change: adding the
/// letter, with the next parameter if it takes one and one is left.
proof fn lemma_step_letter(st: ModeScan, c: char, ps: Seq<Seq<char>>)
    requires
        c != '+',
        c != '-',
        st.adding,
    ensures
        ({
            let take = takes_param_on_set(c) && 0 <= st.next < ps.len();
            let r = mode_step(st, c, ps);
            &&& r.adding
            &&& r.next == if take { st.next + 1 } else { st.next }
            &&& r.changes.drop_last() == st.changes
            &&& r.changes.len() > 0
            &&& r.changes.last() == ModeChangeModel::Add(c, if take { Some(ps[st.next]) } else { None })
        }),
{
    let r = mode_step(st, c, ps);
    assert(r.changes.drop_last() =~= st.changes);
}

/// The modes after applying `cs` in order to `m`.
pub open spec fn apply_changes(m: ChannelModesModel, cs: Seq<ModeChangeModel>) -> ChannelModesModel
    decreases cs.len(),
{
    if cs.len() == 0 {
        m
    } else {
        spec_channel_apply(apply_changes(m, cs.drop_last()), cs.last())
    }
}

/// A channel with no modes.
pub open spec fn no_modes() -> ChannelModesModel {
    ChannelModesModel { flags: Set::empty(), key: None, limit: None }
}

/// The flags that [`lemma_mode_string_reads_back`] covers: besides the key
/// and the limit, none that takes a parameter when set.
pub open spec fn plain_flag(c: char) -> bool {
    c != '+' && c != '-' && !(c == 'o' || c == 'v' || c == 'b' || c == 'e' || c == 'I' || c == 'h'
        || c == 'q')
}

/// The parameters a mode string lists after its flags: the key, if any,
/// then the limit in decimal, if any.
pub open spec fn mode_params(key: Option<Seq<char>>, limit: Option<u32>) -> Seq<Seq<char>> {
    (match key {
        Some(k) => seq![k],
        None => Seq::empty(),
    }) + (match limit {
        Some(l) => seq![spec_decimal(l as nat)],
        None => Seq::empty(),
    })
}

/// Each parameter written after a space.
pub open spec fn spaced(ps: Seq<Seq<char>>) -> Seq<char>
    decreases ps.len(),
{
    if ps.len() == 0 {
        Seq::empty()
    } else {
        seq![' '] + ps[0] + spaced(ps.drop_first())
    }
}

/// Reading the sorted flags `ms` after `+` (every flag plain but `k`,
/// there exactly when there is a key, and `l`, there exactly when there is
/// a limit), with the key and the limit as parameters in that order: the
/// first `i` flags leave the sign on adding, have used a parameter for
/// each of `k` and `l` read so far, and give the modes with those flags,
/// the key once `k` is read and the limit once `l` is read.
proof fn lemma_scan_sorted_flags(ms: Seq<char>, key: Option<Seq<char>>, lim: Option<u32>, i: int)
    requires
        strictly_sorted(ms),
        ms.contains('k') <==> key is Some,
        ms.contains('l') <==> lim is Some,
        forall|j: int| 0 <= j < ms.len() ==> plain_flag(#[trigger] ms[j]) || ms[j] == 'k' || ms[j] == 'l',
        0 <= i <= ms.len(),
    ensures
        ({
            let ps = mode_params(key, lim);
            let st = mode_scan(seq!['+'] + ms.take(i), ps);
            let back = apply_changes(no_modes(), st.changes);
            let has_k = ms.take(i).contains('k');
            let has_l = ms.take(i).contains('l');
            &&& st.adding
            &&& st.next == (if has_k { 1int } else { 0int }) + (if has_l { 1int } else { 0int })
            &&& back.flags == ms.take(i).to_set()
            &&& back.key == (if has_k { key } else { None })
            &&& back.limit == (if has_l { lim } else { None })
        }),
    decreases i,
{
    let ps = mode_params(key, lim);
    if i == 0 {
        let p = seq!['+'] + ms.take(0);
        assert(p =~= seq!['+']);
        assert(p.drop_last() =~= Seq::<char>::empty());
        assert(ms.take(0).to_set() =~= Set::<char>::empty());
        assert(!ms.take(0).contains('k'));
        assert(!ms.take(0).contains('l'));
        let st = mode_scan(p, ps);
        assert(st == mode_step(mode_scan(Seq::<char>::empty(), ps), '+', ps));
        assert(st.changes.len() == 0);
        assert(apply_changes(no_modes(), st.changes) == no_modes());
    } else {
        lemma_scan_sorted_flags(ms, key, lim, i - 1);
        let c = ms[i - 1];
        let prev = seq!['+'] + ms.take(i - 1);
        let p = seq!['+'] + ms.take(i);
        assert(p.drop_last() =~= prev);
        assert(p.last() == c);
        assert(ms.take(i).drop_last() =~= ms.take(i - 1));
        let st0 = mode_scan(prev, ps);
        let st = mode_scan(p, ps);
        assert(st == mode_step(st0, c, ps));
        assert(c != '+' && c != '-');
        lemma_step_letter(st0, c, ps);
        assert(apply_changes(no_modes(), st.changes) == spec_channel_apply(
            apply_changes(no_modes(), st0.changes),
            st.changes.last(),
        ));
        assert(ms.take(i).to_set() =~= ms.take(i - 1).to_set().insert(c));
        let pre = ms.take(i - 1);
        let cur = ms.take(i);
        let n = i - 1;
        assert(cur.len() == i && pre.len() == n);
        assert forall|j: int| 0 <= j < n implies #[trigger] pre[j] == cur[j] && pre[j] == ms[j] by {}
        assert(cur[n] == c);
        assert(cur.contains('k') <==> (pre.contains('k') || c == 'k')) by {
            if c == 'k' {
                assert(cur[n] == 'k');
            }
            if pre.contains('k') {
                let j = choose|j: int| 0 <= j < pre.len() && #[trigger] pre[j] == 'k';
                assert(cur[j] == 'k');
            }
            if cur.contains('k') {
                let j = choose|j: int| 0 <= j < cur.len() && #[trigger] cur[j] == 'k';
                if j < n {
                    assert(pre[j] == 'k');
                }
            }
        }
        assert(cur.contains('l') <==> (pre.contains('l') || c == 'l')) by {
            if c == 'l' {
                assert(cur[n] == 'l');
            }
            if pre.contains('l') {
                let j = choose|j: int| 0 <= j < pre.len() && #[trigger] pre[j] == 'l';
                assert(cur[j] == 'l');
            }
            if cur.contains('l') {
                let j = choose|j: int| 0 <= j < cur.len() && #[trigger] cur[j] == 'l';
                if j < n {
                    assert(pre[j] == 'l');
                }
            }
        }
        if c == 'k' {
            // Nothing before `k` is `k` or `l`: the flags are sorted.
            assert(ms.contains('k'));
            assert(!pre.contains('k')) by {
                if pre.contains('k') {
                    let j = choose|j: int| 0 <= j < pre.len() && #[trigger] pre[j] == 'k';
                    assert(ms[j] == 'k');
                }
            }
            assert(!pre.contains('l')) by {
                if pre.contains('l') {
                    let j = choose|j: int| 0 <= j < pre.len() && #[trigger] pre[j] == 'l';
                    assert(ms[j] == 'l');
                }
            }
            assert(ps[0] == key->0);
        } else if c == 'l' {
            assert(ms.contains('l'));
            assert(!pre.contains('l')) by {
                if pre.contains('l') {
                    let j = choose|j: int| 0 <= j < pre.len() && #[trigger] pre[j] == 'l';
                    assert(ms[j] == 'l');
                }
            }
            // `k`, when there is one, comes before `l`.
            assert(pre.contains('k') <==> key is Some) by {
                if key is Some {
                    let jk = choose|j: int| 0 <= j < ms.len() && #[trigger] ms[j] == 'k';
                    assert(jk < n) by {
                        if jk >= n {
                            assert(jk != n);
                        }
                    }
                    assert(pre[jk] == 'k');
                } else if pre.contains('k') {
                    let j = choose|j: int| 0 <= j < pre.len() && #[trigger] pre[j] == 'k';
                    assert(ms[j] == 'k');
                }
            }
            let l = lim->0;
            lemma_decimal_reads_back(l as nat);
            assert(spec_decimal(l as nat)[0] != '+');
            assert(ps[st0.next] == spec_decimal(l as nat));
        } else {
            assert(plain_flag(c));
        }
    }
}

/// What [`ChannelModes::to_mode_string`] writes for channel modes with
/// flags: `+`, the flags in order, then the key and then the limit, each
/// after a space; and reading those flags back with those parameters in
/// that order gives the same flags, key and limit. Covered are modes whose
/// key flag is set exactly when there is a key, whose limit flag exactly
/// when there is a limit, and with no other flag that takes a parameter
/// when set (the channel keeps no parameter for those).
pub proof fn lemma_mode_string_reads_back(m: ChannelModesModel, ms: Seq<char>, r: Seq<char>)
    requires
        m.flags.contains('k') <==> m.key is Some,
        m.flags.contains('l') <==> m.limit is Some,
        forall|c: char| m.flags.contains(c) && c != 'k' && c != 'l' ==> plain_flag(c),
        strictly_sorted(ms),
        ms.to_set() == m.flags,
        r == seq!['+'] + ms + mode_params_text(m.key, m.limit),
    ensures
        r == seq!['+'] + ms + spaced(mode_params(m.key, m.limit)),
        apply_changes(no_modes(), mode_scan(seq!['+'] + ms, mode_params(m.key, m.limit)).changes) == m,
{
    assert forall|j: int| 0 <= j < ms.len() implies plain_flag(#[trigger] ms[j]) || ms[j] == 'k' || ms[j]
        == 'l' by {
        assert(ms.to_set().contains(ms[j]));
    }
    assert(ms.contains('k') <==> m.flags.contains('k')) by {
        assert(ms.to_set().contains('k') <==> ms.contains('k'));
    }
    assert(ms.contains('l') <==> m.flags.contains('l')) by {
        assert(ms.to_set().contains('l') <==> ms.contains('l'));
    }
    lemma_scan_sorted_flags(ms, m.key, m.limit, ms.len() as int);
    assert(ms.take(ms.len() as int) =~= ms);
    let ps = mode_params(m.key, m.limit);
    assert(spaced(ps) == mode_params_text(m.key, m.limit)) by {
        reveal_with_fuel(spaced, 3);
        match (m.key, m.limit) {
            (Some(k), Some(l)) => {
                assert(ps =~= seq![k, spec_decimal(l as nat)]);
                assert(ps.drop_first() =~= seq![spec_decimal(l as nat)]);
                assert(ps.drop_first().drop_first() =~= Seq::<Seq<char>>::empty());
                assert(spaced(ps) =~= seq![' '] + k + (seq![' '] + spec_decimal(l as nat) + Seq::<char>::empty()));
            },
            (Some(k), None) => {
                assert(ps =~= seq![k]);
                assert(ps.drop_first() =~= Seq::<Seq<char>>::empty());
                assert(spaced(ps) =~= seq![' '] + k + Seq::<char>::empty());
            },
            (None, Some(l)) => {
                assert(ps =~= seq![spec_decimal(l as nat)]);
                assert(ps.drop_first() =~= Seq::<Seq<char>>::empty());
                assert(spaced(ps) =~= seq![' '] + spec_decimal(l as nat) + Seq::<char>::empty());
            },
            (None, None) => {
                assert(ps =~= Seq::<Seq<char>>::empty());
            },
        }
    }
}

impl ChannelModes {
    /// Applies one mode change.
    pub fn apply(&mut self, change: &ModeChange)
        ensures
            final(self)@ == spec_channel_apply(old(self)@, change@),
    {
        match change {
            ModeChange::Add(mode, param) => {
                if *mode == 'k' {
                    self.key = match param {
                        Some(p) => Some(crate::text::owned(p.as_str())),
                        None => None,
                    };
                    self.flags.insert('k');
                } else if *mode == 'l' {
                    self.limit = match param {
                        Some(p) => {
                            let pv = chars_of(p.as_str());
                            assert(pv@.subrange(0, pv@.len() as int) =~= p@);
                            match parse_unsigned(&pv, 0, pv.len(), 0xffff_ffff) {
                                Some(n) => Some(n as u32),
                                None => None,
                            }
                        },
                        None => None,
                    };
                    self.flags.insert('l');
                } else {
                    self.flags.insert(*mode);
                }
            },
            ModeChange::Remove(mode, _param) => {
                if *mode == 'k' {
                    self.key = None;
                    self.flags.remove(&'k');
                } else if *mode == 'l' {
                    self.limit = None;
                    self.flags.remove(&'l');
                } else {
                    self.flags.remove(mode);
                }
            },
        }
    }

    /// The modes as a mode string: `+` and the flags in order, then the key
    /// and the limit; empty when no flag is set.
    pub fn to_mode_string(&self) -> (r: String)
        ensures
            self@.flags == Set::<char>::empty() ==> r@ == Seq::<char>::empty(),
            self@.flags != Set::<char>::empty() ==> exists|m: Seq<char>|
                strictly_sorted(m) && m.to_set() == self@.flags && r@ == seq!['+'] + m
                    + mode_params_text(self@.key, self@.limit),
    {
        if self.flags.is_empty() {
            return String::new();
        }
        let modes = self.flags.sorted();
        let mut out: Vec<char> = Vec::new();
        out.push('+');
        let mut i: usize = 0;
        while i < modes.len()
            invariant
                i <= modes.len(),
                out@ == seq!['+'] + modes@.take(i as int),
            decreases modes.len() - i,
        {
            out.push(modes[i]);
            i += 1;
            assert(out@ =~= seq!['+'] + modes@.take(i as int));
        }
        assert(modes@.take(modes@.len() as int) =~= modes@);
        let ghost head = out@;
        match &self.key {
            Some(k) => {
                out.push(' ');
                push_str_chars(&mut out, k.as_str());
            },
            None => {},
        }
        match self.limit {
            Some(l) => {
                out.push(' ');
                push_decimal(&mut out, l as u64);
            },
            None => {},
        }
        assert(out@ =~= head + mode_params_text(self@.key, self@.limit));
        string_of(&out)
    }
}

impl Default for ChannelModes {
    fn default() -> (m: ChannelModes)
        ensures
            m@.flags == Set::<char>::empty(),
            m@.key is None,
            m@.limit is None,
    {
        ChannelModes { flags: CharSet::new(), key: None, limit: None }
    }
}

impl UserModes {
    /// Applies one mode change: adding sets the flag, removing clears it.
    pub fn apply(&mut self, change: &ModeChange)
        ensures
            final(self).flags@ == match change@ {
                ModeChangeModel::Add(m, _) => old(self).flags@.insert(m),
                ModeChangeModel::Remove(m, _) => old(self).flags@.remove(m),
            },
    {
        match change {
            ModeChange::Add(mode, _) => {
                self.flags.insert(*mode);
            },
            ModeChange::Remove(mode, _) => {
                self.flags.remove(mode);
            },
        }
    }

    /// Whether the mode is set.
    pub fn has(&self, mode: char) -> (r: bool)
        ensures
            r == self.flags@.contains(mode),
    {
        self.flags.contains(&mode)
    }
}

impl Default for UserModes {
    fn default() -> (m: UserModes)
        ensures
            m.flags@ == Set::<char>::empty(),
    {
        UserModes { flags: CharSet::new() }
    }
}

} // verus!

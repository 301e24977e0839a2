//! The input line: editing with a byte cursor, history, tab completion,
//! and what a key press does.
use vstd::prelude::*;
use vstd::utf8::encode_utf8;

use crate::text::{
    chars_of, span_texts, string_of, texts, trim_ws, trim_ws_idx, upper, upper_range,
    word_spans, words, is_first, is_ws, lemma_find_is, lemma_find_none, lemma_words_from_shape, strip_ws,
    word_count,
};

verus! {

// ---------------------------------------------------------------------------
// UTF-8 lengths
// ---------------------------------------------------------------------------

/// How many bytes UTF-8 takes for `c`.
pub open spec fn utf8_width(c: char) -> int {
    let u = c as u32;
    if u < 0x80 {
        1
    } else if u < 0x800 {
        2
    } else if u < 0x10000 {
        3
    } else {
        4
    }
}

/// How many bytes UTF-8 takes for `s`.
pub open spec fn utf8_len(s: Seq<char>) -> int
    decreases s.len(),
{
    if s.len() == 0 {
        0
    } else {
        utf8_width(s[0]) + utf8_len(s.drop_first())
    }
}

pub proof fn lemma_utf8_len_concat(a: Seq<char>, b: Seq<char>)
    ensures
        utf8_len(a + b) == utf8_len(a) + utf8_len(b),
    decreases a.len(),
{
    if a.len() > 0 {
        lemma_utf8_len_concat(a.drop_first(), b);
        assert((a + b).drop_first() =~= a.drop_first() + b);
    } else {
        assert(a + b =~= b);
    }
}

pub proof fn lemma_utf8_len_nonneg(s: Seq<char>)
    ensures
        utf8_len(s) >= s.len(),
    decreases s.len(),
{
    if s.len() > 0 {
        lemma_utf8_len_nonneg(s.drop_first());
    }
}

/// The bytes before the `k`-th character grow with `k`.
pub proof fn lemma_prefix_len(s: Seq<char>, k: int)
    requires
        0 <= k < s.len(),
    ensures
        utf8_len(s.take(k + 1)) == utf8_len(s.take(k)) + utf8_width(s[k]),
{
    assert(s.take(k + 1) =~= s.take(k) + seq![s[k]]);
    lemma_utf8_len_concat(s.take(k), seq![s[k]]);
    assert(seq![s[k]].drop_first() =~= Seq::<char>::empty());
    assert(utf8_len(Seq::<char>::empty()) == 0);
    assert(utf8_len(seq![s[k]]) == utf8_width(s[k]) + utf8_len(seq![s[k]].drop_first()));
}

pub proof fn lemma_prefix_strict(s: Seq<char>, j: int, k: int)
    requires
        0 <= j < k <= s.len(),
    ensures
        utf8_len(s.take(j)) < utf8_len(s.take(k)),
    decreases k - j,
{
    lemma_prefix_len(s, k - 1);
    if j < k - 1 {
        lemma_prefix_strict(s, j, k - 1);
    }
}

/// The UTF-8 encoding of `s` is `utf8_len(s)` bytes long.
pub proof fn lemma_encode_len(s: Seq<char>)
    ensures
        encode_utf8(s).len() == utf8_len(s),
    decreases s.len(),
{
    if s.len() > 0 {
        lemma_encode_len(s.drop_first());
        vstd::utf8::char_is_scalar(s[0]);
    }
}

/// `cur` is the byte offset of the `k`-th character boundary of `s`.
pub open spec fn at_char(s: Seq<char>, cur: int, k: int) -> bool {
    0 <= k <= s.len() && utf8_len(s.take(k)) == cur
}

/// `cur` falls on a character boundary of `s`.
pub open spec fn on_boundary(s: Seq<char>, cur: int) -> bool {
    exists|k: int| #[trigger] at_char(s, cur, k)
}

/// The number of characters before the byte offset `cur`.
pub open spec fn char_pos(s: Seq<char>, cur: int) -> int {
    choose|k: int| #[trigger] at_char(s, cur, k)
}

pub proof fn lemma_char_pos(s: Seq<char>, cur: int, k: int)
    requires
        at_char(s, cur, k),
    ensures
        char_pos(s, cur) == k,
{
    let j = char_pos(s, cur);
    assert(at_char(s, cur, j));
    if j < k {
        lemma_prefix_strict(s, j, k);
    } else if k < j {
        lemma_prefix_strict(s, k, j);
    }
}

/// How many bytes `c` takes in UTF-8; `char::len_utf8`.
fn char_width(c: char) -> (r: usize)
    ensures
        r == utf8_width(c),
{
    let u = c as u32;
    if u < 0x80 {
        1
    } else if u < 0x800 {
        2
    } else if u < 0x10000 {
        3
    } else {
        4
    }
}

/// The character position of the byte offset `cur` in `v`.
fn char_index(v: &Vec<char>, cur: usize) -> (k: usize)
    requires
        on_boundary(v@, cur as int),
    ensures
        at_char(v@, cur as int, k as int),
        k == char_pos(v@, cur as int),
{
    let ghost w = char_pos(v@, cur as int);
    proof {
        assert(at_char(v@, cur as int, w));
    }
    let n = v.len();
    let mut acc: usize = 0;
    let mut k: usize = 0;
    assert(v@.take(0) =~= Seq::<char>::empty());
    while acc < cur
        invariant
            n == v@.len(),
            at_char(v@, cur as int, w),
            k <= w,
            acc == utf8_len(v@.take(k as int)),
            acc <= cur,
        decreases w - k,
    {
        assert(k < w);
        assert(w <= v@.len());
        proof {
            lemma_prefix_len(v@, k as int);
            if k + 1 < w {
                lemma_prefix_strict(v@, k + 1, w);
            }
        }
        acc = acc + char_width(v[k]);
        k += 1;
    }
    proof {
        if k < w {
            lemma_prefix_strict(v@, k as int, w);
        }
        lemma_char_pos(v@, cur as int, k as int);
    }
    k
}

/// The UTF-8 length of `v[..k]`.
fn prefix_bytes(v: &Vec<char>, k: usize) -> (r: usize)
    requires
        k <= v.len(),
        utf8_len(v@) <= usize::MAX,
    ensures
        r == utf8_len(v@.take(k as int)),
{
    let mut acc: usize = 0;
    let mut i: usize = 0;
    assert(v@.take(0) =~= Seq::<char>::empty());
    while i < k
        invariant
            i <= k <= v.len(),
            utf8_len(v@) <= usize::MAX,
            acc == utf8_len(v@.take(i as int)),
        decreases k - i,
    {
        proof {
            lemma_prefix_len(v@, i as int);
            assert(v@ =~= v@.take(i + 1) + v@.skip(i + 1));
            lemma_utf8_len_concat(v@.take(i + 1), v@.skip(i + 1));
            lemma_utf8_len_nonneg(v@.skip(i + 1));
        }
        acc = acc + char_width(v[i]);
        i += 1;
    }
    acc
}

// ---------------------------------------------------------------------------
// The input line and what each edit does
// ---------------------------------------------------------------------------

/// The input line: the text typed, the cursor as a byte offset into it,
/// the lines sent before, where history browsing stands, tab completions,
/// and the line that was being typed when history browsing began.
#[derive(Debug)]
pub struct InputState {
    pub buffer: String,
    pub cursor: usize,
    pub history: Vec<String>,
    pub history_index: Option<usize>,
    pub tab_completions: Vec<String>,
    pub tab_index: Option<usize>,
    pub saved_input: String,
}

/// What a key press or a submitted line asks the rest of the client to do.
#[derive(Debug, Clone, PartialEq)]
pub enum InputAction {
    SendMessage(String),
    Command(String, Vec<String>),
    TabComplete,
    ScrollUp,
    ScrollDown,
    PreviousChannel,
    NextChannel,
    Nothing,
}

/// An [`InputState`] with its texts as character sequences.
pub struct InputModel {
    pub buffer: Seq<char>,
    pub cursor: int,
    pub history: Seq<Seq<char>>,
    pub history_index: Option<usize>,
    pub tab_completions: Seq<Seq<char>>,
    pub tab_index: Option<usize>,
    pub saved_input: Seq<char>,
}

/// An [`InputAction`] with its texts as character sequences.
pub enum ActionModel {
    SendMessage(Seq<char>),
    Command(Seq<char>, Seq<Seq<char>>),
    TabComplete,
    ScrollUp,
    ScrollDown,
    PreviousChannel,
    NextChannel,
    Nothing,
}

impl View for InputAction {
    type V = ActionModel;

    open spec fn view(&self) -> ActionModel {
        match self {
            InputAction::SendMessage(s) => ActionModel::SendMessage(s@),
            InputAction::Command(c, a) => ActionModel::Command(c@, texts(a@)),
            InputAction::TabComplete => ActionModel::TabComplete,
            InputAction::ScrollUp => ActionModel::ScrollUp,
            InputAction::ScrollDown => ActionModel::ScrollDown,
            InputAction::PreviousChannel => ActionModel::PreviousChannel,
            InputAction::NextChannel => ActionModel::NextChannel,
            InputAction::Nothing => ActionModel::Nothing,
        }
    }
}

impl View for InputState {
    type V = InputModel;

    open spec fn view(&self) -> InputModel {
        InputModel {
            buffer: self.buffer@,
            cursor: self.cursor as int,
            history: texts(self.history@),
            history_index: self.history_index,
            tab_completions: texts(self.tab_completions@),
            tab_index: self.tab_index,
            saved_input: self.saved_input@,
        }
    }
}

/// What every edit keeps: the cursor falls on a character boundary, the
/// history position names a line of the history, and the text's length in
/// bytes fits a `usize`.
pub open spec fn input_wf(m: InputModel) -> bool {
    &&& on_boundary(m.buffer, m.cursor)
    &&& m.history_index matches Some(i) ==> i < m.history.len()
    &&& m.tab_index matches Some(i) ==> i < usize::MAX
    &&& utf8_len(m.buffer) <= usize::MAX
    &&& utf8_len(m.saved_input) <= usize::MAX
    &&& forall|i: int| 0 <= i < m.history.len() ==> utf8_len(#[trigger] m.history[i]) <= usize::MAX
}

/// The state with the buffer and cursor replaced and tab completion reset.
pub open spec fn with_text(m: InputModel, buffer: Seq<char>, cursor: int) -> InputModel {
    InputModel { buffer, cursor, tab_index: None, ..m }
}

/// The state with only the cursor moved.
pub open spec fn with_cursor(m: InputModel, cursor: int) -> InputModel {
    InputModel { cursor, ..m }
}

pub open spec fn spec_insert_char(m: InputModel, c: char) -> InputModel {
    let k = char_pos(m.buffer, m.cursor);
    with_text(m, m.buffer.take(k) + seq![c] + m.buffer.skip(k), m.cursor + utf8_width(c))
}

pub open spec fn spec_delete_char(m: InputModel) -> InputModel {
    let k = char_pos(m.buffer, m.cursor);
    if m.cursor > 0 {
        with_text(m, m.buffer.take(k - 1) + m.buffer.skip(k), utf8_len(m.buffer.take(k - 1)))
    } else {
        m
    }
}

pub open spec fn spec_delete_forward(m: InputModel) -> InputModel {
    let k = char_pos(m.buffer, m.cursor);
    if m.cursor < utf8_len(m.buffer) {
        with_text(m, m.buffer.take(k) + m.buffer.skip(k + 1), m.cursor)
    } else {
        m
    }
}

pub open spec fn spec_move_left(m: InputModel) -> InputModel {
    let k = char_pos(m.buffer, m.cursor);
    if m.cursor > 0 {
        with_cursor(m, utf8_len(m.buffer.take(k - 1)))
    } else {
        m
    }
}

pub open spec fn spec_move_right(m: InputModel) -> InputModel {
    let k = char_pos(m.buffer, m.cursor);
    if m.cursor < utf8_len(m.buffer) {
        with_cursor(m, utf8_len(m.buffer.take(k + 1)))
    } else {
        m
    }
}

pub open spec fn spec_move_home(m: InputModel) -> InputModel {
    with_cursor(m, 0)
}

pub open spec fn spec_move_end(m: InputModel) -> InputModel {
    with_cursor(m, utf8_len(m.buffer))
}

/// Back from position `k` over spaces.
pub open spec fn back_over_spaces(s: Seq<char>, k: int) -> int
    decreases k,
{
    if k > 0 && k <= s.len() && s[k - 1] == ' ' {
        back_over_spaces(s, k - 1)
    } else {
        k
    }
}

/// Back from position `k` over characters other than spaces.
pub open spec fn back_over_word(s: Seq<char>, k: int) -> int
    decreases k,
{
    if k > 0 && k <= s.len() && s[k - 1] != ' ' {
        back_over_word(s, k - 1)
    } else {
        k
    }
}

pub open spec fn spec_delete_word(m: InputModel) -> InputModel {
    let k = char_pos(m.buffer, m.cursor);
    let p = back_over_word(m.buffer, back_over_spaces(m.buffer, k));
    if m.cursor == 0 {
        m
    } else {
        with_text(m, m.buffer.take(p) + m.buffer.skip(k), utf8_len(m.buffer.take(p)))
    }
}

pub open spec fn spec_delete_to_end(m: InputModel) -> InputModel {
    with_text(m, m.buffer.take(char_pos(m.buffer, m.cursor)), m.cursor)
}

pub open spec fn spec_delete_to_start(m: InputModel) -> InputModel {
    with_text(m, m.buffer.skip(char_pos(m.buffer, m.cursor)), 0)
}

/// The state showing history line `i`, the cursor at its end.
pub open spec fn showing(m: InputModel, i: usize) -> InputModel {
    InputModel {
        history_index: Some(i),
        buffer: m.history[i as int],
        cursor: utf8_len(m.history[i as int]),
        ..m
    }
}

pub open spec fn spec_history_up(m: InputModel) -> InputModel {
    if m.history.len() == 0 {
        m
    } else {
        match m.history_index {
            None => showing(
                InputModel { saved_input: m.buffer, ..m },
                (m.history.len() - 1) as usize,
            ),
            Some(i) => if i == 0 {
                m
            } else {
                showing(m, (i - 1) as usize)
            },
        }
    }
}

pub open spec fn spec_history_down(m: InputModel) -> InputModel {
    match m.history_index {
        None => m,
        Some(i) => if i + 1 < m.history.len() {
            showing(m, (i + 1) as usize)
        } else {
            InputModel {
                history_index: None,
                buffer: m.saved_input,
                cursor: utf8_len(m.saved_input),
                ..m
            }
        },
    }
}

/// What submitting the trimmed line `text` asks for: a line starting with
/// `/` is a command, its name (up to the first space) upper-cased and the
/// rest split into words; anything else is a message.
pub open spec fn submitted_action(text: Seq<char>) -> ActionModel {
    if text.len() > 0 && text[0] == '/' {
        let cmd = text.drop_first();
        match crate::text::find_char(cmd, ' ') {
            Some(p) => ActionModel::Command(
                upper(cmd.subrange(0, p)),
                words(cmd.subrange(p + 1, cmd.len() as int)),
            ),
            None => ActionModel::Command(upper(cmd), seq![]),
        }
    } else {
        ActionModel::SendMessage(text)
    }
}

pub open spec fn spec_submit(m: InputModel) -> (InputModel, ActionModel) {
    let text = trim_ws(m.buffer);
    if text.len() == 0 {
        (m, ActionModel::Nothing)
    } else {
        (
            InputModel {
                history: m.history.push(text),
                history_index: None,
                saved_input: seq![],
                buffer: seq![],
                cursor: 0,
                tab_index: None,
                ..m
            },
            submitted_action(text),
        )
    }
}

/// Where the word being completed starts: after the last space before
/// position `k`.
pub open spec fn completion_start(s: Seq<char>, k: int) -> int
    decreases k,
{
    if k <= 0 || k > s.len() {
        0
    } else if s[k - 1] == ' ' {
        k
    } else {
        completion_start(s, k - 1)
    }
}

/// The word the cursor ends: what comes before the cursor, after the last
/// space there.
pub open spec fn word_before_cursor(buffer: Seq<char>, cursor: int) -> Seq<char> {
    let k = char_pos(buffer, cursor);
    buffer.subrange(completion_start(buffer, k), k)
}

pub open spec fn spec_next_completion(m: InputModel) -> InputModel {
    if m.tab_completions.len() == 0 {
        m
    } else {
        let idx: int = match m.tab_index {
            None => 0,
            Some(i) => (i + 1) % (m.tab_completions.len() as int),
        };
        let k = char_pos(m.buffer, m.cursor);
        let ws = completion_start(m.buffer, k);
        let head = m.buffer.take(ws) + m.tab_completions[idx];
        InputModel {
            tab_index: Some(idx as usize),
            buffer: head + m.buffer.skip(k),
            cursor: utf8_len(head),
            ..m
        }
    }
}

pub proof fn lemma_split_len(s: Seq<char>, k: int)
    requires
        0 <= k <= s.len(),
    ensures
        utf8_len(s) == utf8_len(s.take(k)) + utf8_len(s.skip(k)),
        utf8_len(s.take(k)) <= utf8_len(s),
        utf8_len(s.skip(k)) <= utf8_len(s),
{
    assert(s =~= s.take(k) + s.skip(k));
    lemma_utf8_len_concat(s.take(k), s.skip(k));
    lemma_utf8_len_nonneg(s.take(k));
    lemma_utf8_len_nonneg(s.skip(k));
}

/// The end of a prefix is a character boundary of the whole.
pub proof fn lemma_prefix_boundary(p: Seq<char>, r: Seq<char>)
    ensures
        at_char(p + r, utf8_len(p), p.len() as int),
        on_boundary(p + r, utf8_len(p)),
        utf8_len(p + r) == utf8_len(p) + utf8_len(r),
{
    assert((p + r).take(p.len() as int) =~= p);
    lemma_utf8_len_concat(p, r);
}

/// The end of a text and its start are character boundaries.
pub proof fn lemma_ends_boundary(s: Seq<char>)
    ensures
        at_char(s, utf8_len(s), s.len() as int),
        at_char(s, 0, 0),
        on_boundary(s, utf8_len(s)),
        on_boundary(s, 0),
{
    assert(s.take(s.len() as int) =~= s);
    assert(s.take(0) =~= Seq::<char>::empty());
    assert(utf8_len(Seq::<char>::empty()) == 0);
    assert(at_char(s, 0, 0));
}

/// Which key was pressed.
#[derive(Debug, Clone, Copy, PartialEq, Eq)]
pub enum KeyCode {
    Backspace,
    Enter,
    Left,
    Right,
    Up,
    Down,
    Home,
    End,
    PageUp,
    PageDown,
    Tab,
    Delete,
    Char(char),
    Other,
}

/// A key press: the key and the modifier keys held, as a set of bits
/// ([`MODIFIER_SHIFT`], [`MODIFIER_CONTROL`], [`MODIFIER_ALT`], ...).
#[derive(Debug, Clone, Copy, PartialEq, Eq)]
pub struct KeyPress {
    pub code: KeyCode,
    pub modifiers: u8,
}

/// No modifier key held.
pub const MODIFIER_NONE: u8 = 0;
/// Shift held.
pub const MODIFIER_SHIFT: u8 = 1;
/// Control held.
pub const MODIFIER_CONTROL: u8 = 2;
/// Alt held.
pub const MODIFIER_ALT: u8 = 4;

/// What a key press does to the input line, and what it asks for: the
/// Emacs-style control keys (with Control alone), Enter to submit, the
/// editing and movement keys, Alt (alone) with Left/Right to switch
/// channels, Up/Down for history, Tab to complete, Page Up/Down to scroll,
/// and any other character typed in.
pub open spec fn spec_handle_key(m: InputModel, key: KeyPress) -> (InputModel, ActionModel) {
    let ctrl = key.modifiers == MODIFIER_CONTROL;
    let alt = key.modifiers == MODIFIER_ALT;
    match key.code {
        KeyCode::Char(c) => if ctrl && c == 'c' {
            (m, ActionModel::Nothing)
        } else if ctrl && c == 'a' {
            (spec_move_home(m), ActionModel::Nothing)
        } else if ctrl && c == 'e' {
            (spec_move_end(m), ActionModel::Nothing)
        } else if ctrl && c == 'w' {
            (spec_delete_word(m), ActionModel::Nothing)
        } else if ctrl && c == 'k' {
            (spec_delete_to_end(m), ActionModel::Nothing)
        } else if ctrl && c == 'u' {
            (spec_delete_to_start(m), ActionModel::Nothing)
        } else {
            (spec_insert_char(m, c), ActionModel::Nothing)
        },
        KeyCode::Enter => spec_submit(m),
        KeyCode::Backspace => (spec_delete_char(m), ActionModel::Nothing),
        KeyCode::Delete => (spec_delete_forward(m), ActionModel::Nothing),
        KeyCode::Left => if alt {
            (m, ActionModel::PreviousChannel)
        } else {
            (spec_move_left(m), ActionModel::Nothing)
        },
        KeyCode::Right => if alt {
            (m, ActionModel::NextChannel)
        } else {
            (spec_move_right(m), ActionModel::Nothing)
        },
        KeyCode::Home => (spec_move_home(m), ActionModel::Nothing),
        KeyCode::End => (spec_move_end(m), ActionModel::Nothing),
        KeyCode::Up => (spec_history_up(m), ActionModel::Nothing),
        KeyCode::Down => (spec_history_down(m), ActionModel::Nothing),
        KeyCode::Tab => (spec_next_completion(m), ActionModel::TabComplete),
        KeyCode::PageUp => (m, ActionModel::ScrollUp),
        KeyCode::PageDown => (m, ActionModel::ScrollDown),
        KeyCode::Other => (m, ActionModel::Nothing),
    }
}

/// The completions fit, each put in place of a word, within a `usize`.
pub open spec fn completions_fit(m: InputModel) -> bool {
    forall|i: int|
        0 <= i < m.tab_completions.len() ==> utf8_len(m.buffer) + utf8_len(
            #[trigger] m.tab_completions[i],
        ) <= usize::MAX
}

/// What a key press needs beyond a well-formed state: room for one more
/// character, and for a completion.
pub open spec fn key_fits(m: InputModel) -> bool {
    utf8_len(m.buffer) + 4 <= usize::MAX && completions_fit(m)
}

/// A vector of its own holding `v[lo..hi]`.
fn slice_of(v: &Vec<char>, lo: usize, hi: usize) -> (r: Vec<char>)
    requires
        lo <= hi <= v.len(),
    ensures
        r@ == v@.subrange(lo as int, hi as int),
{
    let mut r: Vec<char> = Vec::new();
    crate::text::push_range(&mut r, v, lo, hi);
    r
}

/// `a` followed by `b`.
fn concat(a: &Vec<char>, b: &Vec<char>) -> (r: Vec<char>)
    ensures
        r@ == a@ + b@,
{
    let mut r = slice_of(a, 0, a.len());
    crate::text::push_range(&mut r, b, 0, b.len());
    assert(a@.subrange(0, a@.len() as int) =~= a@);
    assert(b@.subrange(0, b@.len() as int) =~= b@);
    r
}

impl InputState {
    /// The word the cursor ends: what comes before the cursor, after the
    /// last space there.
    pub(crate) fn current_word(&self) -> (r: String)
        requires
            input_wf(self@),
        ensures
            r@ == word_before_cursor(self@.buffer, self@.cursor),
    {
        let v = chars_of(self.buffer.as_str());
        let k = char_index(&v, self.cursor);
        let mut ws = k;
        while ws > 0 && v[ws - 1] != ' '
            invariant
                ws <= k <= v@.len(),
                completion_start(v@, ws as int) == completion_start(v@, k as int),
            decreases ws,
        {
            ws -= 1;
        }
        crate::text::string_of_range(&v, ws, k)
    }

    /// An empty input line with no history.
    pub fn new() -> (r: InputState)
        ensures
            input_wf(r@),
            r@.buffer == Seq::<char>::empty(),
            r@.cursor == 0,
            r@.history == Seq::<Seq<char>>::empty(),
            r@.history_index is None,
            r@.tab_completions == Seq::<Seq<char>>::empty(),
            r@.tab_index is None,
            r@.saved_input == Seq::<char>::empty(),
    {
        let r = InputState {
            buffer: String::new(),
            cursor: 0,
            history: Vec::new(),
            history_index: None,
            tab_completions: Vec::new(),
            tab_index: None,
            saved_input: String::new(),
        };
        proof {
            lemma_ends_boundary(r.buffer@);
            assert(texts(r.history@) =~= Seq::<Seq<char>>::empty());
            assert(texts(r.tab_completions@) =~= Seq::<Seq<char>>::empty());
        }
        r
    }

    /// Replaces the text and cursor, and resets tab completion.
    fn set_text(&mut self, v: &Vec<char>, cursor: usize)
        ensures
            final(self)@ == with_text(old(self)@, v@, cursor as int),
    {
        self.buffer = string_of(v);
        self.cursor = cursor;
        self.tab_index = None;
    }

    /// Types `c` at the cursor.
    pub fn insert_char(&mut self, c: char)
        requires
            input_wf(old(self)@),
            utf8_len(old(self)@.buffer) + 4 <= usize::MAX,
        ensures
            input_wf(final(self)@),
            final(self)@ == spec_insert_char(old(self)@, c),
    {
        let v = chars_of(self.buffer.as_str());
        let k = char_index(&v, self.cursor);
        let head = slice_of(&v, 0, k);
        let tail = slice_of(&v, k, v.len());
        let mut mid = head;
        mid.push(c);
        let nv = concat(&mid, &tail);
        proof {
            lemma_split_len(v@, k as int);
            lemma_prefix_len(v@.take(k as int).push(c), k as int);
            assert(v@.take(k as int).push(c).take(k as int) =~= v@.take(k as int));
            assert(mid@ =~= v@.take(k as int).push(c));
            lemma_utf8_len_concat(v@.take(k as int), seq![c]);
            assert(mid@ =~= v@.take(k as int) + seq![c]);
            assert(mid@.take(k as int) =~= v@.take(k as int));
            lemma_prefix_boundary(mid@, tail@);
            assert(tail@ =~= v@.skip(k as int));
            assert(utf8_len(seq![c]) == utf8_width(c) + utf8_len(seq![c].drop_first()));
            assert(seq![c].drop_first() =~= Seq::<char>::empty());
            assert(utf8_len(Seq::<char>::empty()) == 0);
        }
        let nc = self.cursor + char_width(c);
        self.set_text(&nv, nc);
    }

    /// The byte offset of the character boundary before the cursor.
    fn prev_char_boundary(&self, v: &Vec<char>) -> (r: usize)
        requires
            input_wf(self@),
            v@ == self@.buffer,
            self@.cursor > 0,
        ensures
            r == utf8_len(self@.buffer.take(char_pos(self@.buffer, self@.cursor) - 1)),
            char_pos(self@.buffer, self@.cursor) >= 1,
    {
        let k = char_index(v, self.cursor);
        proof {
            assert(v@.take(0) =~= Seq::<char>::empty());
            assert(utf8_len(Seq::<char>::empty()) == 0);
        }
        proof {
            lemma_split_len(v@, k as int);
        }
        prefix_bytes(v, k - 1)
    }

    /// The byte offset of the character boundary after the cursor.
    fn next_char_boundary(&self, v: &Vec<char>) -> (r: usize)
        requires
            input_wf(self@),
            v@ == self@.buffer,
            self@.cursor < utf8_len(self@.buffer),
        ensures
            r == utf8_len(self@.buffer.take(char_pos(self@.buffer, self@.cursor) + 1)),
            char_pos(self@.buffer, self@.cursor) < self@.buffer.len(),
    {
        let k = char_index(v, self.cursor);
        proof {
            assert(v@.take(v@.len() as int) =~= v@);
        }
        assert(k < v.len());
        prefix_bytes(v, k + 1)
    }

    /// Deletes the character before the cursor (Backspace).
    pub fn delete_char(&mut self)
        requires
            input_wf(old(self)@),
        ensures
            input_wf(final(self)@),
            final(self)@ == spec_delete_char(old(self)@),
    {
        if self.cursor > 0 {
            let v = chars_of(self.buffer.as_str());
            let prev = self.prev_char_boundary(&v);
            let k = char_index(&v, self.cursor);
            let head = slice_of(&v, 0, k - 1);
            let tail = slice_of(&v, k, v.len());
            let nv = concat(&head, &tail);
            proof {
                assert(head@ =~= v@.take(k - 1));
                assert(tail@ =~= v@.skip(k as int));
                lemma_prefix_boundary(head@, tail@);
                lemma_split_len(v@, k as int);
                lemma_split_len(v@, k - 1);
                lemma_prefix_len(v@, k - 1);
            }
            self.set_text(&nv, prev);
        }
    }

    /// Deletes the character after the cursor (Delete).
    pub fn delete_forward(&mut self)
        requires
            input_wf(old(self)@),
        ensures
            input_wf(final(self)@),
            final(self)@ == spec_delete_forward(old(self)@),
    {
        let v = chars_of(self.buffer.as_str());
        let total = prefix_bytes(&v, v.len());
        assert(v@.take(v@.len() as int) =~= v@);
        if self.cursor < total {
            let k = char_index(&v, self.cursor);
            proof {
                if k == v@.len() {
                    assert(false);
                }
            }
            let head = slice_of(&v, 0, k);
            let tail = slice_of(&v, k + 1, v.len());
            let nv = concat(&head, &tail);
            proof {
                assert(head@ =~= v@.take(k as int));
                assert(tail@ =~= v@.skip(k + 1));
                lemma_prefix_boundary(head@, tail@);
                lemma_split_len(v@, k + 1);
                lemma_split_len(v@, k as int);
                lemma_prefix_len(v@, k as int);
            }
            let c = self.cursor;
            self.set_text(&nv, c);
        }
    }

    /// Moves the cursor one character left.
    pub fn move_left(&mut self)
        requires
            input_wf(old(self)@),
        ensures
            input_wf(final(self)@),
            final(self)@ == spec_move_left(old(self)@),
    {
        if self.cursor > 0 {
            let v = chars_of(self.buffer.as_str());
            let prev = self.prev_char_boundary(&v);
            proof {
                let k = char_pos(v@, self.cursor as int);
                assert(at_char(v@, prev as int, k - 1));
            }
            self.cursor = prev;
        }
    }

    /// Moves the cursor one character right.
    pub fn move_right(&mut self)
        requires
            input_wf(old(self)@),
        ensures
            input_wf(final(self)@),
            final(self)@ == spec_move_right(old(self)@),
    {
        let v = chars_of(self.buffer.as_str());
        let total = prefix_bytes(&v, v.len());
        assert(v@.take(v@.len() as int) =~= v@);
        if self.cursor < total {
            let next = self.next_char_boundary(&v);
            proof {
                let k = char_pos(v@, self.cursor as int);
                assert(at_char(v@, next as int, k + 1));
            }
            self.cursor = next;
        }
    }

    /// Moves the cursor to the start of the line.
    pub fn move_home(&mut self)
        requires
            input_wf(old(self)@),
        ensures
            input_wf(final(self)@),
            final(self)@ == spec_move_home(old(self)@),
    {
        proof {
            lemma_ends_boundary(self.buffer@);
        }
        self.cursor = 0;
    }

    /// Moves the cursor to the end of the line.
    pub fn move_end(&mut self)
        requires
            input_wf(old(self)@),
        ensures
            input_wf(final(self)@),
            final(self)@ == spec_move_end(old(self)@),
    {
        proof {
            lemma_ends_boundary(self.buffer@);
            lemma_encode_len(self.buffer@);
        }
        self.cursor = self.buffer.as_str().len();
    }

    /// Deletes the word before the cursor, and the spaces after it.
    pub fn delete_word(&mut self)
        requires
            input_wf(old(self)@),
        ensures
            input_wf(final(self)@),
            final(self)@ == spec_delete_word(old(self)@),
    {
        if self.cursor == 0 {
            return;
        }
        let v = chars_of(self.buffer.as_str());
        let k = char_index(&v, self.cursor);
        let mut pos = k;
        while pos > 0 && v[pos - 1] == ' '
            invariant
                pos <= k <= v@.len(),
                back_over_spaces(v@, pos as int) == back_over_spaces(v@, k as int),
            decreases pos,
        {
            pos -= 1;
        }
        let ghost mid = pos;
        while pos > 0 && v[pos - 1] != ' '
            invariant
                pos <= mid <= k <= v@.len(),
                back_over_word(v@, pos as int) == back_over_word(v@, mid as int),
            decreases pos,
        {
            pos -= 1;
        }
        let head = slice_of(&v, 0, pos);
        let tail = slice_of(&v, k, v.len());
        let nv = concat(&head, &tail);
        proof {
            assert(head@ =~= v@.take(pos as int));
            assert(tail@ =~= v@.skip(k as int));
            lemma_prefix_boundary(head@, tail@);
            lemma_split_len(v@, k as int);
            lemma_split_len(v@, pos as int);
            if pos < k {
                lemma_prefix_strict(v@, pos as int, k as int);
            }
        }
        let np = prefix_bytes(&v, pos);
        self.set_text(&nv, np);
    }

    /// Deletes from the cursor to the end of the line.
    pub fn delete_to_end(&mut self)
        requires
            input_wf(old(self)@),
        ensures
            input_wf(final(self)@),
            final(self)@ == spec_delete_to_end(old(self)@),
    {
        let v = chars_of(self.buffer.as_str());
        let k = char_index(&v, self.cursor);
        let head = slice_of(&v, 0, k);
        proof {
            assert(head@ =~= v@.take(k as int));
            lemma_ends_boundary(head@);
            lemma_split_len(v@, k as int);
        }
        let c = self.cursor;
        self.set_text(&head, c);
    }

    /// Deletes from the start of the line to the cursor.
    pub fn delete_to_start(&mut self)
        requires
            input_wf(old(self)@),
        ensures
            input_wf(final(self)@),
            final(self)@ == spec_delete_to_start(old(self)@),
    {
        let v = chars_of(self.buffer.as_str());
        let k = char_index(&v, self.cursor);
        let tail = slice_of(&v, k, v.len());
        proof {
            assert(tail@ =~= v@.skip(k as int));
            lemma_ends_boundary(tail@);
            lemma_split_len(v@, k as int);
        }
        self.set_text(&tail, 0);
    }

    /// Shows history line `i`, the cursor at its end.
    fn show_history(&mut self, i: usize)
        requires
            i < old(self).history@.len(),
            utf8_len(old(self).history@[i as int]@) <= usize::MAX,
        ensures
            final(self)@ == showing(old(self)@, i),
    {
        self.history_index = Some(i);
        self.buffer = self.history[i].clone();
        proof {
            lemma_encode_len(self.buffer@);
            assert(texts(self.history@)[i as int] == self.history@[i as int]@);
        }
        self.cursor = self.buffer.as_str().len();
    }

    /// Steps back to the previous line in the history; the line being typed
    /// is kept for when browsing comes back down.
    pub fn history_up(&mut self)
        requires
            input_wf(old(self)@),
        ensures
            input_wf(final(self)@),
            final(self)@ == spec_history_up(old(self)@),
    {
        if self.history.len() == 0 {
            proof {
                assert(texts(self.history@).len() == 0);
            }
            return;
        }
        let idx = match self.history_index {
            None => {
                self.saved_input = self.buffer.clone();
                self.history.len() - 1
            },
            Some(i) => {
                if i == 0 {
                    return;
                }
                i - 1
            },
        };
        proof {
            assert(texts(self.history@)[idx as int] == self.history@[idx as int]@);
        }
        self.show_history(idx);
        proof {
            lemma_ends_boundary(self.buffer@);
        }
    }

    /// Steps forward in the history; past its end, the line that was being
    /// typed comes back.
    pub fn history_down(&mut self)
        requires
            input_wf(old(self)@),
        ensures
            input_wf(final(self)@),
            final(self)@ == spec_history_down(old(self)@),
    {
        proof {
            assert(texts(self.history@).len() == self.history@.len());
        }
        match self.history_index {
            None => {},
            Some(i) => {
                let n = self.history.len();
                assert(i < n);
                if i + 1 < n {
                    proof {
                        assert(texts(self.history@)[i + 1] == self.history@[i + 1]@);
                    }
                    self.show_history(i + 1);
                } else {
                    self.history_index = None;
                    self.buffer = self.saved_input.clone();
                    proof {
                        lemma_encode_len(self.buffer@);
                    }
                    self.cursor = self.buffer.as_str().len();
                }
                proof {
                    lemma_ends_boundary(self.buffer@);
                }
            },
        }
    }

    /// Submits the line (Enter): a line that is blank once trimmed does
    /// nothing; otherwise it joins the history, the line is cleared, and
    /// it is sent as a command or a message.
    pub fn submit(&mut self) -> (r: InputAction)
        requires
            input_wf(old(self)@),
        ensures
            input_wf(final(self)@),
            (final(self)@, r@) == spec_submit(old(self)@),
    {
        let v = chars_of(self.buffer.as_str());
        let (b, e) = trim_ws_idx(&v);
        if b == e {
            return InputAction::Nothing;
        }
        let t = slice_of(&v, b, e);
        let text = string_of(&t);
        proof {
            assert(v@.subrange(b as int, e as int) =~= v@.take(e as int).skip(b as int));
            lemma_split_len(v@, e as int);
            lemma_split_len(v@.take(e as int), b as int);
        }
        let ghost old_hist = self.history@;
        self.history.push(text.clone());
        proof {
            assert(texts(self.history@) =~= texts(old_hist).push(t@));
            assert(utf8_len(t@) <= usize::MAX);
            assert forall|i: int| 0 <= i < texts(self.history@).len() implies utf8_len(
                #[trigger] texts(self.history@)[i],
            ) <= usize::MAX by {
                if i < old_hist.len() {
                    assert(texts(self.history@)[i] == texts(old_hist)[i]);
                    assert(old(self)@.history == texts(old_hist));
                    assert(utf8_len(old(self)@.history[i]) <= usize::MAX);
                }
            }
        }
        self.history_index = None;
        self.saved_input = String::new();
        self.buffer = String::new();
        self.cursor = 0;
        self.tab_index = None;
        proof {
            lemma_ends_boundary(self.buffer@);
            assert(utf8_len(Seq::<char>::empty()) == 0);
        }
        if t[0] == '/' {
            let cmd = slice_of(&t, 1, t.len());
            assert(cmd@ =~= t@.drop_first());
            assert(cmd@.subrange(0, cmd@.len() as int) =~= cmd@);
            match crate::text::find_in(&cmd, 0, cmd.len(), ' ') {
                Some(p) => {
                    let command = upper_range(&cmd, 0, p);
                    let rest = slice_of(&cmd, p + 1, cmd.len());
                    let args = word_strings(&rest);
                    InputAction::Command(command, args)
                },
                None => {
                    let command = upper_range(&cmd, 0, cmd.len());
                    let args: Vec<String> = Vec::new();
                    assert(texts(args@) =~= Seq::<Seq<char>>::empty());
                    InputAction::Command(command, args)
                },
            }
        } else {
            InputAction::SendMessage(text)
        }
    }

    /// Sets the words Tab cycles through.
    pub fn set_tab_completions(&mut self, completions: Vec<String>)
        requires
            input_wf(old(self)@),
        ensures
            input_wf(final(self)@),
            final(self)@ == (InputModel {
                tab_completions: texts(completions@),
                tab_index: None,
                ..old(self)@
            }),
    {
        self.tab_completions = completions;
        self.tab_index = None;
    }

    /// Puts the next completion in place of the word before the cursor
    /// (Tab), cycling through the completions.
    pub fn next_completion(&mut self)
        requires
            input_wf(old(self)@),
            completions_fit(old(self)@),
        ensures
            input_wf(final(self)@),
            final(self)@ == spec_next_completion(old(self)@),
    {
        let n = self.tab_completions.len();
        proof {
            assert(texts(self.tab_completions@).len() == n);
        }
        if n == 0 {
            return;
        }
        let idx = match self.tab_index {
            None => 0,
            Some(i) => (i + 1) % n,
        };
        self.tab_index = Some(idx);
        let v = chars_of(self.buffer.as_str());
        let k = char_index(&v, self.cursor);
        let mut ws = k;
        while ws > 0 && v[ws - 1] != ' '
            invariant
                ws <= k <= v@.len(),
                completion_start(v@, ws as int) == completion_start(v@, k as int),
            decreases ws,
        {
            ws -= 1;
        }
        let comp = chars_of(self.tab_completions[idx].as_str());
        proof {
            assert(texts(self.tab_completions@)[idx as int] == comp@);
        }
        let start = slice_of(&v, 0, ws);
        let head = concat(&start, &comp);
        let tail = slice_of(&v, k, v.len());
        proof {
            assert(start@ =~= v@.take(ws as int));
            assert(tail@ =~= v@.skip(k as int));
            lemma_split_len(v@, k as int);
            lemma_split_len(v@, ws as int);
            if ws < k {
                lemma_prefix_strict(v@, ws as int, k as int);
            }
            lemma_utf8_len_concat(start@, comp@);
            lemma_prefix_boundary(head@, tail@);
            assert(head@.take(head@.len() as int) =~= head@);
        }
        let nc = prefix_bytes(&head, head.len());
        let nv = concat(&head, &tail);
        self.buffer = string_of(&nv);
        self.cursor = nc;
    }

    /// Does what the key press asks, and says what it asks of the rest of
    /// the client.
    pub fn handle_key(&mut self, key: KeyPress) -> (r: InputAction)
        requires
            input_wf(old(self)@),
            key_fits(old(self)@),
        ensures
            input_wf(final(self)@),
            (final(self)@, r@) == spec_handle_key(old(self)@, key),
    {
        let ctrl = key.modifiers == MODIFIER_CONTROL;
        let alt = key.modifiers == MODIFIER_ALT;
        match key.code {
            KeyCode::Char(c) => {
                if ctrl && c == 'c' {
                } else if ctrl && c == 'a' {
                    self.move_home();
                } else if ctrl && c == 'e' {
                    self.move_end();
                } else if ctrl && c == 'w' {
                    self.delete_word();
                } else if ctrl && c == 'k' {
                    self.delete_to_end();
                } else if ctrl && c == 'u' {
                    self.delete_to_start();
                } else {
                    self.insert_char(c);
                }
                InputAction::Nothing
            },
            KeyCode::Enter => self.submit(),
            KeyCode::Backspace => {
                self.delete_char();
                InputAction::Nothing
            },
            KeyCode::Delete => {
                self.delete_forward();
                InputAction::Nothing
            },
            KeyCode::Left => {
                if alt {
                    InputAction::PreviousChannel
                } else {
                    self.move_left();
                    InputAction::Nothing
                }
            },
            KeyCode::Right => {
                if alt {
                    InputAction::NextChannel
                } else {
                    self.move_right();
                    InputAction::Nothing
                }
            },
            KeyCode::Home => {
                self.move_home();
                InputAction::Nothing
            },
            KeyCode::End => {
                self.move_end();
                InputAction::Nothing
            },
            KeyCode::Up => {
                self.history_up();
                InputAction::Nothing
            },
            KeyCode::Down => {
                self.history_down();
                InputAction::Nothing
            },
            KeyCode::Tab => {
                self.next_completion();
                InputAction::TabComplete
            },
            KeyCode::PageUp => InputAction::ScrollUp,
            KeyCode::PageDown => InputAction::ScrollDown,
            KeyCode::Other => InputAction::Nothing,
        }
    }

}

/// The words of `v`, each as a string of its own.
fn word_strings(v: &Vec<char>) -> (r: Vec<String>)
    ensures
        texts(r@) == words(v@),
{
    let spans = word_spans(v);
    let ghost ws = words(v@);
    assert(span_texts(v@, spans@).len() == spans@.len());
    let mut out: Vec<String> = Vec::new();
    let mut k: usize = 0;
    while k < spans.len()
        invariant
            k <= spans@.len() == ws.len(),
            span_texts(v@, spans@) == ws,
            forall|j: int| 0 <= j < spans@.len() ==> (#[trigger] spans@[j]).0 < spans@[j].1 <= v@.len(),
            texts(out@) == ws.take(k as int),
        decreases spans@.len() - k,
    {
        let (a, b) = spans[k];
        let w = crate::text::string_of_range(v, a, b);
        let ghost old_out = out@;
        out.push(w);
        assert(span_texts(v@, spans@)[k as int] == ws[k as int]);
        assert(texts(out@) =~= texts(old_out).push(w@));
        assert(texts(out@) =~= ws.take(k + 1));
        k += 1;
    }
    assert(ws.take(ws.len() as int) =~= ws);
    out
}

impl Default for InputState {
    fn default() -> (r: InputState)
        ensures
            input_wf(r@),
            r@.buffer == Seq::<char>::empty(),
            r@.cursor == 0,
            r@.history == Seq::<Seq<char>>::empty(),
            r@.history_index is None,
            r@.tab_completions == Seq::<Seq<char>>::empty(),
            r@.tab_index is None,
            r@.saved_input == Seq::<char>::empty(),
    {
        InputState::new()
    }
}

/// Typing a character and then deleting it with Backspace leaves the text
/// and the cursor as they were; Backspace at the start of the line changes
/// nothing.
pub proof fn lemma_insert_then_delete(m: InputModel, c: char)
    requires
        input_wf(m),
    ensures
        spec_delete_char(spec_insert_char(m, c)).buffer == m.buffer,
        spec_delete_char(spec_insert_char(m, c)).cursor == m.cursor,
        m.cursor == 0 ==> spec_delete_char(m) == m,
{
    let k = char_pos(m.buffer, m.cursor);
    assert(at_char(m.buffer, m.cursor, k));
    let s1 = spec_insert_char(m, c);
    let nb = m.buffer.take(k) + seq![c] + m.buffer.skip(k);
    lemma_prefix_len(nb, k);
    assert(nb.take(k) =~= m.buffer.take(k));
    assert(nb[k] == c);
    assert(at_char(nb, s1.cursor, k + 1));
    lemma_char_pos(nb, s1.cursor, k + 1);
    lemma_utf8_len_nonneg(seq![c]);
    lemma_utf8_len_nonneg(m.buffer.take(k));
    assert(s1.cursor > 0) by {
        assert(utf8_width(c) >= 1);
    }
    assert(nb.take(k) + nb.skip(k + 1) =~= m.buffer);
}

/// A submitted command line `/name rest` (`rest` after the first space)
/// passes as its arguments the words of `rest`: none empty, none holding
/// white space, together holding exactly the characters of `rest` that
/// are not white space, and as many as `rest` has words.
pub proof fn lemma_command_args_are_words(m: InputModel, p: int)
    requires
        trim_ws(m.buffer).len() > 0,
        trim_ws(m.buffer)[0] == '/',
        is_first(trim_ws(m.buffer).drop_first(), ' ', p),
    ensures
        ({
            let cmd = trim_ws(m.buffer).drop_first();
            let rest = cmd.subrange(p + 1, cmd.len() as int);
            &&& spec_submit(m).1 is Command
            &&& forall|k: int|
                0 <= k < spec_submit(m).1->Command_1.len() ==> (#[trigger] spec_submit(m).1->Command_1[k]).len()
                    > 0
            &&& forall|k: int, j: int|
                0 <= k < spec_submit(m).1->Command_1.len() && 0 <= j < spec_submit(m).1->Command_1[k].len()
                    ==> !is_ws(#[trigger] spec_submit(m).1->Command_1[k][j])
            &&& spec_submit(m).1->Command_1.flatten() == strip_ws(rest)
            &&& spec_submit(m).1->Command_1.len() == word_count(rest)
        }),
{
    let cmd = trim_ws(m.buffer).drop_first();
    let rest = cmd.subrange(p + 1, cmd.len() as int);
    lemma_find_is(cmd, ' ', p);
    lemma_words_from_shape(rest, 0);
    assert(rest.skip(0) =~= rest);
}

/// A submitted command line without a space passes no arguments.
pub proof fn lemma_command_without_space_has_no_args(m: InputModel)
    requires
        trim_ws(m.buffer).len() > 0,
        trim_ws(m.buffer)[0] == '/',
        forall|j: int| 0 <= j < trim_ws(m.buffer).len() ==> trim_ws(m.buffer)[j] != ' ',
    ensures
        spec_submit(m).1 is Command,
        spec_submit(m).1->Command_1.len() == 0,
{
    let cmd = trim_ws(m.buffer).drop_first();
    assert forall|j: int| 0 <= j < cmd.len() implies cmd[j] != ' ' by {
        assert(cmd[j] == trim_ws(m.buffer)[j + 1]);
    }
    lemma_find_none(cmd, ' ');
}

/// The state after pressing Up `k` times.
pub open spec fn history_ups(m: InputModel, k: nat) -> InputModel
    decreases k,
{
    if k == 0 {
        m
    } else {
        spec_history_up(history_ups(m, (k - 1) as nat))
    }
}

/// The state after pressing Down `k` times.
pub open spec fn history_downs(m: InputModel, k: nat) -> InputModel
    decreases k,
{
    if k == 0 {
        m
    } else {
        spec_history_down(history_downs(m, (k - 1) as nat))
    }
}

/// Where `k` presses of Up from the line being typed stop: `k` lines back,
/// or at the oldest line.
pub open spec fn up_index(n: nat, k: nat) -> usize {
    if k <= n {
        (n - k) as usize
    } else {
        0
    }
}

/// `k >= 1` presses of Up from the line being typed show line
/// `up_index(n, k)`, with the typed line kept aside.
proof fn lemma_ups(m: InputModel, k: nat)
    requires
        m.history_index is None,
        0 < m.history.len() <= usize::MAX,
        k >= 1,
    ensures
        history_ups(m, k) == showing(
            InputModel { saved_input: m.buffer, ..m },
            up_index(m.history.len(), k),
        ),
    decreases k,
{
    let saved = InputModel { saved_input: m.buffer, ..m };
    let n = m.history.len();
    if k > 1 {
        lemma_ups(m, (k - 1) as nat);
        let i = up_index(n, (k - 1) as nat);
        let prev = showing(saved, i);
        assert(history_ups(m, k) == spec_history_up(prev));
        assert(prev.history == m.history);
        if i == 0 {
            assert(up_index(n, k) == 0);
        } else {
            assert(up_index(n, k) == i - 1);
            assert(spec_history_up(prev) == showing(prev, (i - 1) as usize));
            assert(showing(prev, (i - 1) as usize) == showing(saved, (i - 1) as usize));
        }
    } else {
        assert(history_ups(m, 0) == m);
        assert(history_ups(m, 1) == spec_history_up(history_ups(m, 0)));
    }
}

/// `d` presses of Down from history line `i` (of `m`, whose kept-aside
/// line is `m.saved_input`) show line `i + d`, or, past the newest line,
/// the kept-aside line again with the cursor at its end.
proof fn lemma_downs(m: InputModel, i: usize, d: nat)
    requires
        i < m.history.len() <= usize::MAX,
    ensures
        history_downs(showing(m, i), d) == if i + d < m.history.len() {
            showing(m, (i + d) as usize)
        } else {
            InputModel {
                history_index: None,
                buffer: m.saved_input,
                cursor: utf8_len(m.saved_input),
                ..m
            }
        },
    decreases d,
{
    if d > 0 {
        lemma_downs(m, i, (d - 1) as nat);
    }
}

/// Browsing `k` lines up the history and `k` lines back down brings back
/// the line that was being typed, with the cursor at its end, and leaves
/// the history as it was.
pub proof fn lemma_history_round_trip(m: InputModel, k: nat)
    requires
        m.history_index is None,
        0 < m.history.len() <= usize::MAX,
        k >= 1,
    ensures
        history_downs(history_ups(m, k), k).buffer == m.buffer,
        history_downs(history_ups(m, k), k).cursor == utf8_len(m.buffer),
        history_downs(history_ups(m, k), k).history_index is None,
        history_downs(history_ups(m, k), k).history == m.history,
{
    lemma_ups(m, k);
    let saved = InputModel { saved_input: m.buffer, ..m };
    lemma_downs(saved, up_index(m.history.len(), k), k);
}

} // verus!

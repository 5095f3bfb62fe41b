//! A one-line text field with a cursor, edited with a small subset of vim.

use vstd::prelude::*;

use crate::text::{chars_of, is_alphanumeric, is_blank, spec_is_alphanumeric, spec_is_blank, string_of};

verus! {

/// What a key did to the line being edited.
#[derive(Clone, Copy, PartialEq, Eq, Debug, Structural)]
pub enum Outcome {
    /// Keep editing.
    Continue,
    /// The text is to be saved.
    Submit,
    /// The text is to be dropped.
    Cancel,
}

/// How keys act on the text, as in vim.
#[derive(Clone, Copy, PartialEq, Eq, Debug, Structural)]
pub enum Mode {
    /// Keys are typed into the text.
    Insert,
    /// Keys move the cursor and change the text by commands.
    Normal,
}

/// Which key was pressed.
#[derive(Clone, Copy, PartialEq, Eq, Debug, Structural)]
pub enum KeyCode {
    Char(char),
    Enter,
    Esc,
    Backspace,
    Delete,
    Left,
    Right,
    Up,
    Down,
    Home,
    End,
    Tab,
    /// Any other key.
    Other,
}

/// A key press: the key and whether Control was held.
#[derive(Clone, Copy, PartialEq, Eq, Debug, Structural)]
pub struct Key {
    pub code: KeyCode,
    pub ctrl: bool,
}

impl Key {
    /// The key `code` pressed alone.
    pub fn new(code: KeyCode) -> (r: Key)
        ensures
            r == (Key { code, ctrl: false }),
    {
        Key { code, ctrl: false }
    }

    /// The character key `c` pressed alone.
    pub fn char(c: char) -> (r: Key)
        ensures
            r == (Key { code: KeyCode::Char(c), ctrl: false }),
    {
        Key { code: KeyCode::Char(c), ctrl: false }
    }

    /// The character key `c` pressed with Control.
    pub fn ctrl(c: char) -> (r: Key)
        ensures
            r == (Key { code: KeyCode::Char(c), ctrl: true }),
    {
        Key { code: KeyCode::Char(c), ctrl: true }
    }
}

/// Class of a character for word motions: blank (0), word (1: letter, digit, `_`) or
/// punctuation (2); `big` makes every non-blank a word.
pub open spec fn spec_class(c: char, big: bool) -> u8 {
    if spec_is_blank(c) {
        0
    } else if big || spec_is_alphanumeric(c) || c == '_' {
        1
    } else {
        2
    }
}

/// The first position from `i` on whose character is not of class `c`, or the length.
pub open spec fn run_stop(s: Seq<char>, i: int, c: u8, big: bool) -> int
    decreases s.len() - i,
{
    if 0 <= i < s.len() && spec_class(s[i], big) == c {
        run_stop(s, i + 1, c, big)
    } else {
        i
    }
}

/// Start of the word after the one at `at`: past the rest of the word at `at`, then past the
/// blanks; the length of `s` when there is none.
pub open spec fn spec_next_start(s: Seq<char>, at: int, big: bool) -> int {
    let j = if 0 <= at < s.len() && spec_class(s[at], big) != 0 {
        run_stop(s, at, spec_class(s[at], big), big)
    } else {
        at
    };
    run_stop(s, j, 0, big)
}

/// Last character of the run of characters of the class of the one at `at`.
pub open spec fn spec_run_end(s: Seq<char>, at: int, big: bool) -> int {
    run_stop(s, at, spec_class(s[at], big), big) - 1
}

/// End of the word at `at`, or of the next one when `at` already ends a word: past the blanks
/// after `at`, the end of the run found there; `at` itself when no word follows.
pub open spec fn spec_next_end(s: Seq<char>, at: int, big: bool) -> int {
    let j = run_stop(s, at + 1, 0, big);
    if j < s.len() {
        spec_run_end(s, j, big)
    } else {
        at
    }
}

/// Back from `i` over blanks, stopping at the start.
pub open spec fn back_blank(s: Seq<char>, i: int, big: bool) -> int
    decreases i,
{
    if 0 < i < s.len() && spec_class(s[i], big) == 0 {
        back_blank(s, i - 1, big)
    } else {
        i
    }
}

/// Back from `i` to the start of the run of its class.
pub open spec fn back_word(s: Seq<char>, i: int, big: bool) -> int
    decreases i,
{
    if 0 < i < s.len() && spec_class(s[i - 1], big) == spec_class(s[i], big) {
        back_word(s, i - 1, big)
    } else {
        i
    }
}

/// Start of the word at `at`, or of the previous one when `at` already starts a word.
pub open spec fn spec_previous_start(s: Seq<char>, at: int, big: bool) -> int {
    let i = if at > 0 { at - 1 } else { 0 };
    back_word(s, back_blank(s, i, big), big)
}

/// Class of a character for word motions: blank, word (letter, digit, `_`) or punctuation;
/// `big` makes every non-blank a word.
pub fn class(c: char, big: bool) -> (r: u8)
    ensures
        r == spec_class(c, big),
{
    if is_blank(c) {
        0
    } else if big || is_alphanumeric(c) || c == '_' {
        1
    } else {
        2
    }
}

/// The first position from `i` on whose character is not of class `c`.
fn skip_class(chars: &[char], i: usize, c: u8, big: bool) -> (r: usize)
    requires
        i <= chars@.len(),
    ensures
        r == run_stop(chars@, i as int, c, big),
        i <= r <= chars@.len(),
{
    let mut j = i;
    while j < chars.len() && class(chars[j], big) == c
        invariant
            i <= j <= chars@.len(),
            run_stop(chars@, j as int, c, big) == run_stop(chars@, i as int, c, big),
        decreases chars@.len() - j,
    {
        j = j + 1;
    }
    j
}

/// Start of the word after the one at `at`, or the length of `chars` when there is none.
pub fn next_start(chars: &[char], at: usize, big: bool) -> (r: usize)
    requires
        at <= chars@.len(),
    ensures
        r == spec_next_start(chars@, at as int, big),
        at <= r <= chars@.len(),
{
    let mut i = at;
    if i < chars.len() && class(chars[i], big) != 0 {
        let word = class(chars[i], big);
        i = skip_class(chars, i, word, big);
    }
    skip_class(chars, i, 0, big)
}

/// Start of the word at `at`, or of the previous one when `at` already starts a word.
pub fn previous_start(chars: &[char], at: usize, big: bool) -> (r: usize)
    requires
        at <= chars@.len(),
    ensures
        r == spec_previous_start(chars@, at as int, big),
        r <= at,
{
    let mut i: usize = if at > 0 { at - 1 } else { 0 };
    let ghost i0 = i as int;
    while i > 0 && class(chars[i], big) == 0
        invariant
            i <= i0,
            i0 <= at,
            at > 0 ==> i0 < chars@.len(),
            back_blank(chars@, i as int, big) == back_blank(chars@, i0, big),
        decreases i,
    {
        i = i - 1;
    }
    let ghost i1 = i as int;
    while i > 0 && class(chars[i - 1], big) == class(chars[i], big)
        invariant
            i <= i1 <= i0,
            i0 <= at,
            at > 0 ==> i0 < chars@.len(),
            i1 == back_blank(chars@, i0, big),
            back_word(chars@, i as int, big) == back_word(chars@, i1, big),
        decreases i,
    {
        i = i - 1;
    }
    i
}

/// Last character of the run of characters of the same class as the one at `at`.
pub fn run_end(chars: &[char], at: usize, big: bool) -> (r: usize)
    requires
        at < chars@.len(),
    ensures
        r == spec_run_end(chars@, at as int, big),
        at <= r < chars@.len(),
{
    let c = class(chars[at], big);
    let j = skip_class(chars, at + 1, c, big);
    assert(run_stop(chars@, at as int, c, big) == j);
    j - 1
}

/// End of the word at `at`, or of the next one when `at` already ends a word; `at` itself when
/// no word follows.
pub fn next_end(chars: &[char], at: usize, big: bool) -> (r: usize)
    requires
        at <= chars@.len(),
    ensures
        r == spec_next_end(chars@, at as int, big),
        at <= r,
        r < chars@.len() || r == at,
{
    if at == chars.len() {
        return at;
    }
    let i = skip_class(chars, at + 1, 0, big);
    if i < chars.len() {
        run_end(chars, i, big)
    } else {
        at
    }
}

/// A one-line text field with a cursor, edited with a small subset of vim.
pub struct Editor {
    /// The text typed so far.
    pub text: String,
    /// Position of the cursor, in characters: in insert mode the next character typed goes
    /// before the one at this position, in normal mode it is on a character.
    pub cursor: usize,
    /// Whether keys are typed or are commands.
    pub mode: Mode,
    /// Operator (`d`, `c`) waiting for its motion.
    pub pending: Option<char>,
}

/// An editor as a mathematical value.
pub struct EditorView {
    pub text: Seq<char>,
    pub cursor: int,
    pub mode: Mode,
    pub pending: Option<char>,
}

impl View for Editor {
    type V = EditorView;

    open spec fn view(&self) -> EditorView {
        EditorView {
            text: self.text@,
            cursor: self.cursor as int,
            mode: self.mode,
            pending: self.pending,
        }
    }
}

/// One less than `i`, but not below zero.
pub open spec fn sat_dec(i: int) -> int {
    if i > 0 {
        i - 1
    } else {
        0
    }
}

/// The smaller of `a` and `b`.
pub open spec fn min(a: int, b: int) -> int {
    if a <= b {
        a
    } else {
        b
    }
}

/// `t` with the characters from `start` up to `end` erased.
pub open spec fn erase(t: Seq<char>, start: int, end: int) -> Seq<char> {
    t.take(start) + t.skip(end)
}

/// Back from `i` over the blanks before it.
pub open spec fn blanks_back(s: Seq<char>, i: int) -> int
    decreases i,
{
    if 0 < i <= s.len() && spec_is_blank(s[i - 1]) {
        blanks_back(s, i - 1)
    } else {
        i
    }
}

/// Back from `i` over the non-blanks before it.
pub open spec fn word_back(s: Seq<char>, i: int) -> int
    decreases i,
{
    if 0 < i <= s.len() && !spec_is_blank(s[i - 1]) {
        word_back(s, i - 1)
    } else {
        i
    }
}

impl EditorView {
    /// Whether the cursor stands within the text or just past it.
    pub open spec fn wf(self) -> bool {
        0 <= self.cursor <= self.text.len()
    }

    /// The text with the characters from `start` up to `end` erased, the cursor at `start`.
    pub open spec fn erased(self, start: int, end: int) -> EditorView {
        EditorView { text: erase(self.text, start, end), cursor: start, ..self }
    }

    /// The editor with the cursor at `cursor`.
    pub open spec fn at(self, cursor: int) -> EditorView {
        EditorView { cursor, ..self }
    }

    /// The editor in insert mode with the cursor at `cursor`.
    pub open spec fn inserting_at(self, cursor: int) -> EditorView {
        EditorView { cursor, mode: Mode::Insert, ..self }
    }
}

/// What a key typed in insert mode does.
pub open spec fn insert_step(e: EditorView, key: Key) -> EditorView {
    let len = e.text.len();
    let at = e.cursor;
    match key.code {
        KeyCode::Esc => EditorView { mode: Mode::Normal, cursor: sat_dec(at), ..e },
        KeyCode::Char(c) => if key.ctrl {
            if c == 'w' {
                e.erased(word_back(e.text, blanks_back(e.text, at)), at)
            } else if c == 'u' {
                e.erased(0, at)
            } else {
                e
            }
        } else {
            EditorView { text: e.text.insert(at, c), cursor: at + 1, ..e }
        },
        KeyCode::Left => e.at(sat_dec(at)),
        KeyCode::Right => e.at(min(at + 1, len as int)),
        KeyCode::Home => e.at(0),
        KeyCode::End => e.at(len as int),
        KeyCode::Backspace => if at > 0 {
            e.erased(at - 1, at)
        } else {
            e
        },
        KeyCode::Delete => if at < len {
            e.erased(at, at + 1)
        } else {
            e
        },
        _ => e,
    }
}

/// What the character key `ch` does in normal mode, `pending` being the operator typed
/// before it, already dropped from `e`.
pub open spec fn normal_char(e: EditorView, pending: Option<char>, ch: char) -> EditorView {
    let s = e.text;
    let len = s.len() as int;
    let at = e.cursor;
    let last = sat_dec(len);
    let big = ch == 'W';
    if (ch == 'w' || ch == 'W') && pending == Some('d') {
        e.erased(at, spec_next_start(s, at, big))
    } else if (ch == 'w' || ch == 'W') && pending == Some('c') {
        let end = if at < len && !spec_is_blank(s[at]) {
            spec_run_end(s, at, big) + 1
        } else {
            spec_next_start(s, at, big)
        };
        EditorView { mode: Mode::Insert, ..e.erased(at, end) }
    } else if ch == 'd' || ch == 'c' {
        EditorView { pending: Some(ch), ..e }
    } else if ch == 'h' {
        e.at(sat_dec(at))
    } else if ch == 'l' {
        e.at(min(at + 1, last))
    } else if ch == '0' {
        e.at(0)
    } else if ch == '$' {
        e.at(last)
    } else if ch == 'w' || ch == 'W' {
        e.at(min(spec_next_start(s, at, big), last))
    } else if ch == 'b' || ch == 'B' {
        e.at(spec_previous_start(s, at, ch == 'B'))
    } else if ch == 'e' || ch == 'E' {
        e.at(spec_next_end(s, at, ch == 'E'))
    } else if ch == 'x' {
        e.erased(at, min(at + 1, len))
    } else if ch == 'D' {
        e.erased(at, len)
    } else if ch == 'C' {
        EditorView { mode: Mode::Insert, ..e.erased(at, len) }
    } else if ch == 'i' {
        e.inserting_at(at)
    } else if ch == 'a' {
        e.inserting_at(min(at + 1, len))
    } else if ch == 'I' {
        e.inserting_at(run_stop(s, 0, 0, false))
    } else if ch == 'A' {
        e.inserting_at(len)
    } else {
        e
    }
}

/// What a key does in normal mode: the waiting operator is dropped, the key acts, then the
/// cursor is kept on a character if the mode stays normal.
pub open spec fn normal_step(e: EditorView, code: KeyCode) -> EditorView {
    let e0 = EditorView { pending: None, ..e };
    let e1 = match code {
        KeyCode::Char(ch) => normal_char(e0, e.pending, ch),
        _ => e0,
    };
    if e1.mode == Mode::Normal {
        e1.at(min(e1.cursor, sat_dec(e1.text.len() as int)))
    } else {
        e1
    }
}

/// What a key does to an editor, and whether editing goes on.
pub open spec fn spec_handle_key(e: EditorView, key: Key) -> (EditorView, Outcome) {
    if key.code == KeyCode::Enter {
        (e, Outcome::Submit)
    } else if e.mode == Mode::Normal && key.code == KeyCode::Esc {
        (e, Outcome::Cancel)
    } else if e.mode == Mode::Insert {
        (insert_step(e, key), Outcome::Continue)
    } else {
        (normal_step(e, key.code), Outcome::Continue)
    }
}

/// What a paste of `p` does: `p` goes in at the cursor, which moves past it, and stays on a
/// character in normal mode.
pub open spec fn spec_paste(e: EditorView, p: Seq<char>) -> EditorView {
    let text = e.text.take(e.cursor) + p + e.text.skip(e.cursor);
    let c = e.cursor + p.len();
    EditorView {
        text,
        cursor: if e.mode == Mode::Normal {
            min(c, sat_dec(text.len() as int))
        } else {
            c
        },
        ..e
    }
}

/// Whether the cursor stands where it may: within the text, and on a character in normal mode.
pub open spec fn cursor_in_place(e: EditorView) -> bool {
    &&& e.wf()
    &&& e.mode == Mode::Normal ==> e.cursor <= sat_dec(e.text.len() as int)
}

/// In normal mode, `a` on a character goes to insert mode with the cursor just after that
/// character, the text unchanged, so that what is typed next follows it.
pub proof fn law_a_appends_after_the_cursor(e: EditorView)
    requires
        e.mode == Mode::Normal,
        0 <= e.cursor < e.text.len(),
    ensures
        spec_handle_key(e, Key { code: KeyCode::Char('a'), ctrl: false }).1 == Outcome::Continue,
        spec_handle_key(e, Key { code: KeyCode::Char('a'), ctrl: false }).0.mode == Mode::Insert,
        spec_handle_key(e, Key { code: KeyCode::Char('a'), ctrl: false }).0.cursor == e.cursor + 1,
        spec_handle_key(e, Key { code: KeyCode::Char('a'), ctrl: false }).0.text == e.text,
{
}

/// In normal mode, `i` on a character goes to insert mode with the cursor on that character,
/// the text unchanged, so that what is typed next goes before it.
pub proof fn law_i_inserts_before_the_cursor(e: EditorView)
    requires
        e.mode == Mode::Normal,
        0 <= e.cursor < e.text.len(),
    ensures
        spec_handle_key(e, Key { code: KeyCode::Char('i'), ctrl: false }).0.mode == Mode::Insert,
        spec_handle_key(e, Key { code: KeyCode::Char('i'), ctrl: false }).0.cursor == e.cursor,
        spec_handle_key(e, Key { code: KeyCode::Char('i'), ctrl: false }).0.text == e.text,
{
}

/// In insert mode, a character typed goes in at the cursor, which moves past it.
pub proof fn law_typed_character_goes_in_at_the_cursor(e: EditorView, c: char)
    requires
        e.mode == Mode::Insert,
        0 <= e.cursor <= e.text.len(),
    ensures
        spec_handle_key(e, Key { code: KeyCode::Char(c), ctrl: false }).0.text == e.text.take(
            e.cursor,
        ).push(c) + e.text.skip(e.cursor),
        spec_handle_key(e, Key { code: KeyCode::Char(c), ctrl: false }).0.cursor == e.cursor + 1,
{
    assert(e.text.insert(e.cursor, c) =~= e.text.take(e.cursor).push(c) + e.text.skip(e.cursor));
}

/// In normal mode, `x` deletes the character under the cursor, the rest of the text kept.
pub proof fn law_x_deletes_the_character_under_the_cursor(e: EditorView)
    requires
        e.mode == Mode::Normal,
        e.pending is None,
        0 <= e.cursor < e.text.len(),
    ensures
        spec_handle_key(e, Key { code: KeyCode::Char('x'), ctrl: false }).0.text == e.text.take(
            e.cursor,
        ) + e.text.skip(e.cursor + 1),
        spec_handle_key(e, Key { code: KeyCode::Char('x'), ctrl: false }).0.mode == Mode::Normal,
{
}

/// In normal mode, `D` deletes from the cursor to the end of the text.
pub proof fn law_capital_d_deletes_to_the_end(e: EditorView)
    requires
        e.mode == Mode::Normal,
        e.pending is None,
        0 <= e.cursor <= e.text.len(),
    ensures
        spec_handle_key(e, Key { code: KeyCode::Char('D'), ctrl: false }).0.text == e.text.take(
            e.cursor,
        ),
{
    assert(e.text.skip(e.text.len() as int) =~= Seq::<char>::empty());
}

/// In normal mode, `h` moves the cursor one character left and `l` one character right,
/// neither leaving the text nor changing it.
pub proof fn law_h_and_l_move_one_character(e: EditorView)
    requires
        e.mode == Mode::Normal,
        e.pending is None,
        0 <= e.cursor < e.text.len(),
    ensures
        spec_handle_key(e, Key { code: KeyCode::Char('h'), ctrl: false }).0.cursor == if e.cursor > 0 {
            e.cursor - 1
        } else {
            0
        },
        spec_handle_key(e, Key { code: KeyCode::Char('l'), ctrl: false }).0.cursor == if e.cursor + 1 < e.text.len() {
            e.cursor + 1
        } else {
            e.cursor
        },
        spec_handle_key(e, Key { code: KeyCode::Char('h'), ctrl: false }).0.text == e.text,
        spec_handle_key(e, Key { code: KeyCode::Char('l'), ctrl: false }).0.text == e.text,
{
}

/// In insert mode, Backspace erases the character before the cursor, which moves back onto
/// its place; at the start it does nothing.
pub proof fn law_backspace_erases_before_the_cursor(e: EditorView)
    requires
        e.mode == Mode::Insert,
        0 <= e.cursor <= e.text.len(),
    ensures
        e.cursor > 0 ==> spec_handle_key(e, Key { code: KeyCode::Backspace, ctrl: false }).0.text
            == e.text.take(e.cursor - 1) + e.text.skip(e.cursor),
        e.cursor > 0 ==> spec_handle_key(e, Key { code: KeyCode::Backspace, ctrl: false }).0.cursor
            == e.cursor - 1,
        e.cursor == 0 ==> spec_handle_key(e, Key { code: KeyCode::Backspace, ctrl: false }).0 == e,
{
}

/// Esc in insert mode goes to normal mode one character back, the text kept; Esc in normal
/// mode cancels, and Enter submits in either mode.
pub proof fn law_esc_and_enter(e: EditorView)
    ensures
        e.mode == Mode::Insert ==> spec_handle_key(e, Key { code: KeyCode::Esc, ctrl: false }).1
            == Outcome::Continue && spec_handle_key(e, Key { code: KeyCode::Esc, ctrl: false }).0
            == (EditorView { mode: Mode::Normal, cursor: if e.cursor > 0 { e.cursor - 1 } else { 0 }, ..e }),
        e.mode == Mode::Normal ==> spec_handle_key(e, Key { code: KeyCode::Esc, ctrl: false }).1
            == Outcome::Cancel,
        spec_handle_key(e, Key { code: KeyCode::Enter, ctrl: false }).1 == Outcome::Submit,
{
}

impl Default for Editor {
    /// An empty text in insert mode, the cursor at the start.
    fn default() -> (r: Editor)
        ensures
            r@ == (EditorView { text: Seq::empty(), cursor: 0, mode: Mode::Insert, pending: None }),
    {
        Editor { text: String::new(), cursor: 0, mode: Mode::Insert, pending: None }
    }
}

impl Editor {
    /// Puts the characters `p` in at the cursor, which moves past them.
    pub fn paste(&mut self, p: &[char])
        requires
            old(self)@.wf(),
        ensures
            final(self)@ == spec_paste(old(self)@, p@),
            final(self)@.wf(),
    {
        let chars = chars_of(self.text.as_str());
        let at = self.cursor;
        let mut cs: Vec<char> = Vec::new();
        let mut i: usize = 0;
        while i < at
            invariant
                chars@ == old(self)@.text,
                at == old(self).cursor,
                at <= chars@.len(),
                i <= at,
                cs@ == chars@.take(i as int),
            decreases at - i,
        {
            cs.push(chars[i]);
            i = i + 1;
            assert(cs@ =~= chars@.take(i as int));
        }
        let mut i: usize = 0;
        while i < p.len()
            invariant
                chars@ == old(self)@.text,
                at <= chars@.len(),
                i <= p@.len(),
                cs@ == chars@.take(at as int) + p@.take(i as int),
            decreases p@.len() - i,
        {
            cs.push(p[i]);
            i = i + 1;
            assert(cs@ =~= chars@.take(at as int) + p@.take(i as int));
        }
        let mut i: usize = at;
        while i < chars.len()
            invariant
                chars@ == old(self)@.text,
                at <= i <= chars@.len(),
                cs@ == chars@.take(at as int) + p@ + chars@.subrange(at as int, i as int),
                cs@.len() == cs.len(),
            decreases chars@.len() - i,
        {
            cs.push(chars[i]);
            i = i + 1;
            assert(cs@ =~= chars@.take(at as int) + p@ + chars@.subrange(at as int, i as int));
        }
        assert(cs@ =~= chars@.take(at as int) + p@ + chars@.skip(at as int));
        let c = at + p.len();
        self.text = string_of(&cs);
        if self.mode == Mode::Normal {
            let last = if cs.len() > 0 { cs.len() - 1 } else { 0 };
            self.cursor = if c <= last { c } else { last };
        } else {
            self.cursor = c;
        }
    }

    /// Opens on `text` in `mode`, the cursor at the start.
    pub fn new(text: String, mode: Mode) -> (r: Editor)
        ensures
            r@ == (EditorView { text: text@, cursor: 0, mode, pending: None }),
    {
        Editor { text, cursor: 0, mode, pending: None }
    }

    /// Applies one key press to the text and tells whether editing goes on. The cursor stays
    /// within the text and, in normal mode, on a character, as vim keeps it.
    pub fn handle_key(&mut self, key: Key) -> (r: Outcome)
        requires
            old(self)@.wf(),
        ensures
            (final(self)@, r) == spec_handle_key(old(self)@, key),
            final(self)@.wf(),
            cursor_in_place(old(self)@) ==> cursor_in_place(final(self)@),
    {
        match (self.mode, key.code) {
            (_, KeyCode::Enter) => return Outcome::Submit,
            (Mode::Normal, KeyCode::Esc) => return Outcome::Cancel,
            (Mode::Insert, _) => self.insert(key),
            (Mode::Normal, code) => self.normal(code),
        }
        Outcome::Continue
    }

    /// Applies a key typed in insert mode.
    fn insert(&mut self, key: Key)
        requires
            old(self)@.wf(),
        ensures
            final(self)@ == insert_step(old(self)@, key),
            final(self)@.wf(),
    {
        let chars = chars_of(self.text.as_str());
        let len = chars.len();
        let at = self.cursor;
        match key.code {
            KeyCode::Esc => {
                self.mode = Mode::Normal;
                self.cursor = if at > 0 { at - 1 } else { 0 };
            },
            KeyCode::Char(c) => {
                if key.ctrl {
                    if c == 'w' {
                        let start = word_start_before(&chars, blanks_start_before(&chars, at));
                        self.remove(start, at);
                    } else if c == 'u' {
                        self.remove(0, at);
                    }
                } else {
                    let mut cs = chars;
                    cs.insert(at, c);
                    assert(cs@.len() == cs.len());
                    self.text = string_of(&cs);
                    self.cursor = at + 1;
                }
            },
            KeyCode::Left => self.cursor = if at > 0 { at - 1 } else { 0 },
            KeyCode::Right => self.cursor = if at < len { at + 1 } else { len },
            KeyCode::Home => self.cursor = 0,
            KeyCode::End => self.cursor = len,
            KeyCode::Backspace => {
                if at > 0 {
                    self.remove(at - 1, at);
                }
            },
            KeyCode::Delete => {
                if at < len {
                    self.remove(at, at + 1);
                }
            },
            _ => {},
        }
    }

    /// Applies a key typed in normal mode, then keeps the cursor on a character if it stays
    /// there.
    fn normal(&mut self, code: KeyCode)
        requires
            old(self)@.wf(),
            old(self).mode == Mode::Normal,
        ensures
            final(self)@ == normal_step(old(self)@, code),
            final(self)@.wf(),
    {
        let chars = chars_of(self.text.as_str());
        let len = chars.len();
        let at = self.cursor;
        let last = if len > 0 { len - 1 } else { 0 };
        let pending = self.pending;
        self.pending = None;
        if let KeyCode::Char(ch) = code {
            let big = ch == 'W';
            if (ch == 'w' || ch == 'W') && pending == Some('d') {
                let end = next_start(&chars, at, big);
                self.remove(at, end);
            } else if (ch == 'w' || ch == 'W') && pending == Some('c') {
                let end = if at < len && !is_blank(chars[at]) {
                    run_end(&chars, at, big) + 1
                } else {
                    next_start(&chars, at, big)
                };
                self.remove(at, end);
                self.mode = Mode::Insert;
            } else if ch == 'd' || ch == 'c' {
                self.pending = Some(ch);
            } else if ch == 'h' {
                self.cursor = if at > 0 { at - 1 } else { 0 };
            } else if ch == 'l' {
                self.cursor = if at < last { at + 1 } else { last };
            } else if ch == '0' {
                self.cursor = 0;
            } else if ch == '$' {
                self.cursor = last;
            } else if ch == 'w' || ch == 'W' {
                let n = next_start(&chars, at, big);
                self.cursor = if n <= last { n } else { last };
            } else if ch == 'b' || ch == 'B' {
                self.cursor = previous_start(&chars, at, ch == 'B');
            } else if ch == 'e' || ch == 'E' {
                self.cursor = next_end(&chars, at, ch == 'E');
            } else if ch == 'x' {
                let end = if at < len { at + 1 } else { len };
                self.remove(at, end);
            } else if ch == 'D' {
                self.remove(at, len);
            } else if ch == 'C' {
                self.remove(at, len);
                self.mode = Mode::Insert;
            } else if ch == 'i' {
                self.mode = Mode::Insert;
            } else if ch == 'a' {
                self.cursor = if at < len { at + 1 } else { len };
                self.mode = Mode::Insert;
            } else if ch == 'I' {
                self.cursor = first_non_blank(&chars);
                self.mode = Mode::Insert;
            } else if ch == 'A' {
                self.cursor = len;
                self.mode = Mode::Insert;
            }
        }
        if self.mode == Mode::Normal {
            let n = self.text.as_str().unicode_len();
            let last_now = if n > 0 { n - 1 } else { 0 };
            if self.cursor > last_now {
                self.cursor = last_now;
            }
        }
    }

    /// Erases the characters from position `start` up to `end`, each taken no further than
    /// the end of the text, leaving the cursor at `start`.
    fn remove(&mut self, start: usize, end: usize)
        requires
            start <= end,
        ensures
            final(self)@ == (EditorView {
                text: erase(
                    old(self)@.text,
                    min(start as int, old(self)@.text.len() as int),
                    min(end as int, old(self)@.text.len() as int),
                ),
                cursor: start as int,
                ..old(self)@
            }),
    {
        let chars = chars_of(self.text.as_str());
        let n = chars.len();
        let from = if start < n { start } else { n };
        let to = if end < n { end } else { n };
        let mut kept: Vec<char> = Vec::new();
        let mut i: usize = 0;
        while i < from
            invariant
                chars@ == old(self)@.text,
                from <= to <= chars@.len(),
                i <= from,
                kept@ == chars@.take(i as int),
            decreases from - i,
        {
            kept.push(chars[i]);
            i = i + 1;
            assert(kept@ =~= chars@.take(i as int));
        }
        let mut i: usize = to;
        while i < chars.len()
            invariant
                chars@ == old(self)@.text,
                from <= to <= i <= chars@.len(),
                kept@ == chars@.take(from as int) + chars@.subrange(to as int, i as int),
            decreases chars@.len() - i,
        {
            kept.push(chars[i]);
            i = i + 1;
            assert(kept@ =~= chars@.take(from as int) + chars@.subrange(to as int, i as int));
        }
        assert(kept@ =~= erase(chars@, from as int, to as int));
        self.text = string_of(&kept);
        self.cursor = start;
    }
}

/// Back from `i` over the blanks before it.
fn blanks_start_before(chars: &[char], i: usize) -> (r: usize)
    requires
        i <= chars@.len(),
    ensures
        r == blanks_back(chars@, i as int),
        r <= i,
{
    let mut j = i;
    while j > 0 && is_blank(chars[j - 1])
        invariant
            j <= i <= chars@.len(),
            blanks_back(chars@, j as int) == blanks_back(chars@, i as int),
        decreases j,
    {
        j = j - 1;
    }
    j
}

/// Back from `i` over the non-blanks before it.
fn word_start_before(chars: &[char], i: usize) -> (r: usize)
    requires
        i <= chars@.len(),
    ensures
        r == word_back(chars@, i as int),
        r <= i,
{
    let mut j = i;
    while j > 0 && !is_blank(chars[j - 1])
        invariant
            j <= i <= chars@.len(),
            word_back(chars@, j as int) == word_back(chars@, i as int),
        decreases j,
    {
        j = j - 1;
    }
    j
}

/// Position of the first non-blank character, or the length when there is none.
fn first_non_blank(chars: &[char]) -> (r: usize)
    ensures
        r == run_stop(chars@, 0, 0, false),
        r <= chars@.len(),
{
    skip_class(chars, 0, 0, false)
}

} // verus!

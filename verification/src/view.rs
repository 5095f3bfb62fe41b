//! What the screen shows, as plain values: each row is a list of pieces of text, each with
//! its colours and emphasis, which the terminal front end draws as they are.

use vstd::prelude::*;

use crate::text::{chars_of, push_char, push_chars, push_decimal, spec_decimal, string_of, words_of};
use crate::todo::{Todo, TodoView, date_part, spec_to_line};
use crate::date::format_date;
use crate::tui::{
    App, AppView, Focus, FocusView, Group, Target, counts_view, entries_view, filter_row_of, opt_view,
    spec_filters,
};
use crate::editor::{Editor, EditorView, Mode};
use crate::store::{numbers_of, rows_hold_tasks, texts};
use crate::messages::{msg_no_matching_task, msg_nothing_to_do};
use crate::cli::empty_listing_message;

verus! {

/// A colour of the terminal.
#[derive(Clone, Copy, PartialEq, Eq, Debug, Structural)]
pub enum Colour {
    /// The terminal's own colour.
    Reset,
    Black,
    Yellow,
    Green,
    Blue,
    Magenta,
    Cyan,
    DarkGray,
}

/// How a piece of text is drawn.
#[derive(Clone, Copy, PartialEq, Eq, Debug, Structural)]
pub struct Look {
    /// Colour of the characters.
    pub fg: Colour,
    /// Colour behind them.
    pub bg: Colour,
    pub bold: bool,
    pub dim: bool,
    /// Characters and background swapped, as the cursor's cell is drawn.
    pub reversed: bool,
}

/// Plain text.
pub open spec fn plain() -> Look {
    Look { fg: Colour::Reset, bg: Colour::Reset, bold: false, dim: false, reversed: false }
}

/// Plain text in colour `c`.
pub open spec fn tinted(c: Colour) -> Look {
    Look { fg: c, ..plain() }
}

/// Dimmed text.
pub open spec fn dimmed() -> Look {
    Look { dim: true, ..plain() }
}

/// Bold text.
pub open spec fn bolded() -> Look {
    Look { bold: true, ..plain() }
}

/// A piece of text and how it is drawn.
pub struct Piece {
    pub text: String,
    pub look: Look,
}

/// Plain text.
fn plain_look() -> (r: Look)
    ensures
        r == plain(),
{
    Look { fg: Colour::Reset, bg: Colour::Reset, bold: false, dim: false, reversed: false }
}

/// Dimmed text.
fn dim_look() -> (r: Look)
    ensures
        r == dimmed(),
{
    Look { fg: Colour::Reset, bg: Colour::Reset, bold: false, dim: true, reversed: false }
}

/// Bold text.
fn bold_look() -> (r: Look)
    ensures
        r == bolded(),
{
    Look { fg: Colour::Reset, bg: Colour::Reset, bold: true, dim: false, reversed: false }
}

/// A piece as a mathematical value.
pub struct PieceView {
    pub text: Seq<char>,
    pub look: Look,
}

impl View for Piece {
    type V = PieceView;

    open spec fn view(&self) -> PieceView {
        PieceView { text: self.text@, look: self.look }
    }
}

/// Pieces as mathematical values.
pub open spec fn pieces_view(p: Seq<Piece>) -> Seq<PieceView> {
    p.map_values(|x: Piece| x@)
}

/// The text of a row of pieces, one after the other.
pub open spec fn row_text(p: Seq<PieceView>) -> Seq<char>
    decreases p.len(),
{
    if p.len() == 0 {
        Seq::empty()
    } else {
        row_text(p.drop_last()) + p.last().text
    }
}

/// The text of a row grows by the text of the piece put after it.
proof fn lemma_row_text_push(p: Seq<PieceView>, x: PieceView)
    ensures
        row_text(p.push(x)) == row_text(p) + x.text,
{
    assert(p.push(x).drop_last() =~= p);
}

/// The text of two rows of pieces one after the other.
proof fn lemma_row_text_add(p: Seq<PieceView>, q: Seq<PieceView>)
    ensures
        row_text(p + q) == row_text(p) + row_text(q),
    decreases q.len(),
{
    if q.len() == 0 {
        assert(p + q =~= p);
        assert(row_text(p) + Seq::<char>::empty() =~= row_text(p));
    } else {
        lemma_row_text_add(p, q.drop_last());
        assert((p + q).drop_last() =~= p + q.drop_last());
        assert(row_text(p) + row_text(q.drop_last()) + q.last().text =~= row_text(p) + (row_text(
            q.drop_last(),
        ) + q.last().text));
    }
}

/// The text of a row of one or two pieces.
proof fn lemma_row_text_short(a: PieceView, b: PieceView)
    ensures
        row_text(seq![a]) == a.text,
        row_text(seq![a, b]) == a.text + b.text,
{
    assert(seq![a].drop_last() =~= Seq::<PieceView>::empty());
    assert(row_text(seq![a].drop_last()) == Seq::<char>::empty());
    assert(row_text(seq![a]) =~= a.text);
    assert(seq![a, b].drop_last() =~= seq![a]);
}

/// A piece of text drawn with `look`.
fn piece(text: String, look: Look) -> (r: Piece)
    ensures
        r@ == (PieceView { text: text@, look }),
{
    Piece { text, look }
}

/// `n` spaces.
pub open spec fn spaces(n: int) -> Seq<char> {
    Seq::new(if n > 0 { n as nat } else { 0 }, |i: int| ' ')
}

/// `s` right-aligned on `width` characters, padded with spaces on the left.
pub open spec fn pad_left(s: Seq<char>, width: int) -> Seq<char> {
    spaces(width - s.len()) + s
}

/// `s` left-aligned on `width` characters: cut to `width`, or padded with spaces on the right.
pub open spec fn fit_left(s: Seq<char>, width: int) -> Seq<char> {
    if s.len() >= width {
        s.take(width)
    } else {
        s + spaces(width - s.len())
    }
}

/// Appends `n` spaces.
fn push_spaces(s: &mut String, n: usize)
    ensures
        final(s)@ == old(s)@ + spaces(n as int),
{
    let mut i: usize = 0;
    while i < n
        invariant
            i <= n,
            s@ == old(s)@ + spaces(i as int),
        decreases n - i,
    {
        push_char(s, ' ');
        i = i + 1;
        assert(s@ =~= old(s)@ + spaces(i as int));
    }
}

/// `n` in decimal, right-aligned on `width` characters.
fn decimal_padded(n: usize, width: usize) -> (r: String)
    ensures
        r@ == pad_left(spec_decimal(n as nat), width as int),
{
    let mut digits = String::new();
    push_decimal(&mut digits, n);
    assert(digits@ =~= spec_decimal(n as nat));
    let len = digits.unicode_len();
    let mut r = String::new();
    if len < width {
        push_spaces(&mut r, width - len);
    } else {
        assert(spaces(width - digits@.len()) =~= Seq::<char>::empty());
    }
    push_chars(&mut r, &chars_of(digits.as_str()));
    assert(r@ =~= pad_left(spec_decimal(n as nat), width as int));
    r
}

/// How a priority is drawn: bold, tinted yellow, green and blue for `A` to `C` as `todo.sh`
/// does.
pub open spec fn spec_priority_look(letter: char) -> Look {
    let c = if letter == 'A' {
        Colour::Yellow
    } else if letter == 'B' {
        Colour::Green
    } else if letter == 'C' {
        Colour::Blue
    } else {
        Colour::Reset
    };
    Look { fg: c, ..bolded() }
}

/// How a priority is drawn.
pub fn priority_look(letter: char) -> (r: Look)
    ensures
        r == spec_priority_look(letter),
{
    let fg = if letter == 'A' {
        Colour::Yellow
    } else if letter == 'B' {
        Colour::Green
    } else if letter == 'C' {
        Colour::Blue
    } else {
        Colour::Reset
    };
    Look { fg, bg: Colour::Reset, bold: true, dim: false, reversed: false }
}

/// There is always at least one word.
proof fn lemma_words_nonempty(s: Seq<char>)
    ensures
        words_of(s).len() >= 1,
    decreases s.len(),
{
    if s.len() > 0 {
        lemma_words_nonempty(s.drop_last());
    }
}

/// How a word of a description is drawn: a `+project` magenta, a `@context` cyan, the sigil
/// alone plain.
pub open spec fn word_look(w: Seq<char>) -> Look {
    if w.len() > 1 && w[0] == '+' {
        tinted(Colour::Magenta)
    } else if w.len() > 1 && w[0] == '@' {
        tinted(Colour::Cyan)
    } else {
        plain()
    }
}

/// The pieces of a description: each word with its look, a plain space between two words.
pub open spec fn word_pieces(words: Seq<Seq<char>>) -> Seq<PieceView>
    decreases words.len(),
{
    if words.len() == 0 {
        Seq::empty()
    } else if words.len() == 1 {
        seq![PieceView { text: words[0], look: word_look(words[0]) }]
    } else {
        word_pieces(words.drop_last()) + seq![
            PieceView { text: seq![' '], look: plain() },
            PieceView { text: words.last(), look: word_look(words.last()) },
        ]
    }
}

/// Words joined again by single spaces give back the text they were split from.
pub open spec fn joined(words: Seq<Seq<char>>) -> Seq<char>
    decreases words.len(),
{
    if words.len() == 0 {
        Seq::empty()
    } else if words.len() == 1 {
        words[0]
    } else {
        joined(words.drop_last()) + seq![' '] + words.last()
    }
}

/// Joining the words of a text gives the text back.
#[verifier::spinoff_prover]
proof fn lemma_joined_words(s: Seq<char>)
    ensures
        joined(words_of(s)) == s,
    decreases s.len(),
{
    if s.len() > 0 {
        let p = s.drop_last();
        lemma_joined_words(p);
        lemma_words_nonempty(p);
        let w = words_of(p);
        if s.last() == ' ' {
            assert(w.push(Seq::empty()).drop_last() =~= w);
            assert(joined(w) + seq![' '] + Seq::<char>::empty() =~= s);
        } else {
            let u = w.update(w.len() - 1, w.last().push(s.last()));
            if w.len() == 1 {
                assert(u[0] =~= s);
            } else {
                assert(u.drop_last() =~= w.drop_last());
                assert(u.last() == w.last().push(s.last()));
                assert(joined(w) == joined(w.drop_last()) + seq![' '] + w.last());
                assert(s =~= p.push(s.last()));
                assert(joined(u) =~= joined(w).push(s.last()));
            }
        }
    }
}

/// The pieces of words hold the words joined by spaces.
#[verifier::spinoff_prover]
proof fn lemma_word_pieces_text(words: Seq<Seq<char>>)
    ensures
        row_text(word_pieces(words)) == joined(words),
    decreases words.len(),
{
    if words.len() == 1 {
        let p = word_pieces(words);
        lemma_row_text_short(p[0], p[0]);
        assert(p =~= seq![p[0]]);
        assert(row_text(p) =~= words[0]);
    } else if words.len() > 1 {
        lemma_word_pieces_text(words.drop_last());
        let tail = seq![
            PieceView { text: seq![' '], look: plain() },
            PieceView { text: words.last(), look: word_look(words.last()) },
        ];
        lemma_row_text_add(word_pieces(words.drop_last()), tail);
        lemma_row_text_short(tail[0], tail[1]);
        assert(tail =~= seq![tail[0], tail[1]]);
        assert(joined(words) =~= joined(words.drop_last()) + (seq![' '] + words.last()));
    }
}

/// The number of a listed task as it starts its row: right-aligned on three characters, then
/// two spaces.
pub open spec fn number_text(number: nat) -> Seq<char> {
    pad_left(spec_decimal(number), 3) + seq![' ', ' ']
}

/// The pieces of a listed task's row: its number, then its todo.txt line. A done task is
/// dimmed as a whole; a pending one has its priority drawn as `spec_priority_look` says, its
/// creation date dimmed and its words as `word_look` says.
pub open spec fn spec_line(number: nat, t: TodoView) -> Seq<PieceView> {
    if t.done {
        seq![PieceView { text: number_text(number) + spec_to_line(t), look: dimmed() }]
    } else {
        let head = seq![PieceView { text: number_text(number), look: plain() }];
        let prio = match t.priority {
            Some(p) => seq![
                PieceView { text: seq!['(', p, ')'], look: spec_priority_look(p) },
                PieceView { text: seq![' '], look: plain() },
            ],
            None => Seq::empty(),
        };
        let date = match t.created {
            Some(d) => seq![
                PieceView { text: date_part(Some(d)).drop_last(), look: dimmed() },
                PieceView { text: seq![' '], look: plain() },
            ],
            None => Seq::empty(),
        };
        head + prio + date + word_pieces(words_of(t.description))
    }
}

/// The words of a text between its spaces.
fn split_words(s: &str) -> (r: Vec<String>)
    ensures
        texts(r@) == words_of(s@),
{
    let cs = chars_of(s);
    let mut r: Vec<String> = Vec::new();
    let mut word = String::new();
    let mut i: usize = 0;
    while i < cs.len()
        invariant
            cs@ == s@,
            i <= cs@.len(),
            texts(r@).push(word@) == words_of(s@.take(i as int)),
        decreases cs@.len() - i,
    {
        let ghost before = texts(r@).push(word@);
        proof {
            assert(s@.take(i + 1).drop_last() =~= s@.take(i as int));
            assert(s@.take(i + 1).last() == cs@[i as int]);
        }
        if cs[i] == ' ' {
            let done = word;
            word = String::new();
            r.push(done);
            assert(texts(r@).push(word@) =~= before.push(Seq::empty()));
        } else {
            push_char(&mut word, cs[i]);
            assert(texts(r@).push(word@) =~= before.update(
                before.len() - 1,
                before.last().push(cs@[i as int]),
            ));
        }
        i = i + 1;
    }
    assert(s@.take(cs@.len() as int) =~= s@);
    r.push(word);
    r
}

/// The pieces of a list of words.
fn pieces_of_words(words: &Vec<String>) -> (r: Vec<Piece>)
    ensures
        pieces_view(r@) == word_pieces(texts(words@)),
{
    let ghost ws = texts(words@);
    let mut r: Vec<Piece> = Vec::new();
    let mut i: usize = 0;
    while i < words.len()
        invariant
            i <= words@.len(),
            ws == texts(words@),
            pieces_view(r@) == word_pieces(ws.take(i as int)),
        decreases words@.len() - i,
    {
        let ghost before = pieces_view(r@);
        if i > 0 {
            let mut sp = String::new();
            push_char(&mut sp, ' ');
            r.push(piece(sp, plain_look()));
        }
        let w = chars_of(words[i].as_str());
        let look = if w.len() > 1 && w[0] == '+' {
            Look { fg: Colour::Magenta, bg: Colour::Reset, bold: false, dim: false, reversed: false }
        } else if w.len() > 1 && w[0] == '@' {
            Look { fg: Colour::Cyan, bg: Colour::Reset, bold: false, dim: false, reversed: false }
        } else {
            plain_look()
        };
        r.push(piece(words[i].clone(), look));
        proof {
            let t = ws.take(i + 1);
            assert(t.drop_last() =~= ws.take(i as int));
            assert(t.last() == words@[i as int]@);
            assert(pieces_view(r@) =~= word_pieces(t));
        }
        i = i + 1;
    }
    assert(ws.take(words@.len() as int) =~= ws);
    r
}

/// The pieces of a listed task's row: its number, then its todo.txt line, styled; the text of
/// the pieces is the number and the line.
#[verifier::spinoff_prover]
pub fn line(number: usize, todo: &Todo) -> (r: Vec<Piece>)
    requires
        todo.wf(),
    ensures
        pieces_view(r@) == spec_line(number as nat, todo@),
        row_text(pieces_view(r@)) == number_text(number as nat) + spec_to_line(todo@),
{
    let mut head = decimal_padded(number, 3);
    push_char(&mut head, ' ');
    push_char(&mut head, ' ');
    assert(head@ =~= number_text(number as nat));
    let mut r: Vec<Piece> = Vec::new();
    if todo.done {
        let mut text = head;
        push_chars(&mut text, &chars_of(todo.to_line().as_str()));
        r.push(piece(text, dim_look()));
        proof {
            assert(pieces_view(r@) =~= spec_line(number as nat, todo@));
            let x = pieces_view(r@)[0];
            lemma_row_text_short(x, x);
            assert(pieces_view(r@) =~= seq![x]);
        }
        return r;
    }
    r.push(piece(head, plain_look()));
    let ghost head_p = seq![PieceView { text: number_text(number as nat), look: plain() }];
    assert(pieces_view(r@) =~= head_p);
    let ghost prio: Seq<PieceView> = Seq::empty();
    if let Some(p) = todo.priority {
        let mut t = String::new();
        push_char(&mut t, '(');
        push_char(&mut t, p);
        push_char(&mut t, ')');
        assert(t@ =~= seq!['(', p, ')']);
        r.push(piece(t, priority_look(p)));
        let mut sp = String::new();
        push_char(&mut sp, ' ');
        assert(sp@ =~= seq![' ']);
        r.push(piece(sp, plain_look()));
        proof {
            prio = seq![
                PieceView { text: seq!['(', p, ')'], look: spec_priority_look(p) },
                PieceView { text: seq![' '], look: plain() },
            ];
        }
    }
    assert(pieces_view(r@) =~= head_p + prio);
    let ghost date: Seq<PieceView> = Seq::empty();
    if let Some(d) = todo.created {
        let t = format_date(d);
        assert(t@ =~= date_part(Some(d)).drop_last());
        r.push(piece(t, dim_look()));
        let mut sp = String::new();
        push_char(&mut sp, ' ');
        assert(sp@ =~= seq![' ']);
        r.push(piece(sp, plain_look()));
        proof {
            date = seq![
                PieceView { text: date_part(Some(d)).drop_last(), look: dimmed() },
                PieceView { text: seq![' '], look: plain() },
            ];
        }
    }
    assert(pieces_view(r@) =~= head_p + prio + date);
    let ghost front = pieces_view(r@);
    let words = split_words(todo.description.as_str());
    let mut rest = pieces_of_words(&words);
    let ghost rest_view = pieces_view(rest@);
    r.append(&mut rest);
    proof {
        assert(pieces_view(r@) =~= front + rest_view);
        assert(texts(words@) == words_of(todo.description@));
        assert(pieces_view(r@) =~= spec_line(number as nat, todo@));
    }
    proof {
        let t = todo@;
        let wp = word_pieces(words_of(t.description));
        lemma_row_text_add(head_p + prio + date, wp);
        lemma_row_text_add(head_p + prio, date);
        lemma_row_text_add(head_p, prio);
        lemma_row_text_short(head_p[0], head_p[0]);
        assert(head_p =~= seq![head_p[0]]);
        assert(row_text(head_p) =~= number_text(number as nat));
        if let Some(p) = t.priority {
            lemma_row_text_short(prio[0], prio[1]);
            assert(prio =~= seq![prio[0], prio[1]]);
            assert(row_text(prio) =~= seq!['(', p, ')', ' ']);
        } else {
            assert(row_text(prio) =~= Seq::<char>::empty());
        }
        if let Some(d) = t.created {
            lemma_row_text_short(date[0], date[1]);
            assert(date =~= seq![date[0], date[1]]);
            assert(date_part(Some(d)) =~= date_part(Some(d)).drop_last() + seq![' ']);
            assert(row_text(date) =~= date_part(Some(d)));
        } else {
            assert(row_text(date) =~= date_part(t.created));
        }
        lemma_word_pieces_text(words_of(t.description));
        lemma_joined_words(t.description);
        assert(row_text(pieces_view(r@)) =~= number_text(number as nat) + spec_to_line(t));
    }
    r
}

/// How many bytes `c` takes in UTF-8.
pub open spec fn spec_utf8_len(c: char) -> int {
    let n = c as u32;
    if n < 0x80 {
        1
    } else if n < 0x800 {
        2
    } else if n < 0x10000 {
        3
    } else {
        4
    }
}

/// How many bytes `c` takes in UTF-8.
fn utf8_len(c: char) -> (r: usize)
    ensures
        r == spec_utf8_len(c),
{
    let n = c as u32;
    if n < 0x80 {
        1
    } else if n < 0x800 {
        2
    } else if n < 0x10000 {
        3
    } else {
        4
    }
}

/// The title of a group's header.
pub open spec fn group_title(g: Group) -> Seq<char> {
    match g {
        Group::Priority(l) => seq!['P', 'R', 'I', 'O', 'R', 'I', 'T', 'Y', ' ', l],
        Group::Unprioritised => seq!['N', 'O', ' ', 'P', 'R', 'I', 'O', 'R', 'I', 'T', 'Y'],
        Group::Done => seq!['D', 'O', 'N', 'E'],
    }
}

/// How many bytes a group's title takes in UTF-8.
pub open spec fn group_title_bytes(g: Group) -> int {
    match g {
        Group::Priority(l) => 9 + spec_utf8_len(l),
        Group::Unprioritised => 11,
        Group::Done => 4,
    }
}

/// How a group's title is drawn: as its priority, or bold and dimmed.
pub open spec fn group_look(g: Group) -> Look {
    match g {
        Group::Priority(l) => spec_priority_look(l),
        _ => Look { dim: true, ..bolded() },
    }
}

/// The mark that ends a folded group's header.
pub open spec fn fold_mark() -> Seq<char> {
    seq![' ', '\u{25b8}']
}

/// The pieces of a group's header on a row `width` wide: its count in brackets, its title, and
/// a rule that fills the row, ended by `fold_mark` when the group is folded. The rule's length
/// counts the bytes of the count and the title, as the header always has.
pub open spec fn spec_header(g: Group, count: nat, folded: bool, width: int) -> Seq<PieceView> {
    let count_text = seq![' ', '('] + spec_decimal(count) + seq![')'];
    let end = if folded { fold_mark() } else { Seq::empty() };
    let used = count_text.len() + group_title_bytes(g) + 4 + end.len();
    let rule_len = if width > used { width - used } else { 0 };
    seq![
        PieceView { text: count_text, look: dimmed() },
        PieceView { text: seq![' ', ' '], look: plain() },
        PieceView { text: group_title(g), look: group_look(g) },
        PieceView { text: seq![' ', ' '], look: plain() },
        PieceView { text: Seq::new(rule_len as nat, |i: int| '\u{2500}'), look: dimmed() },
        PieceView { text: end, look: plain() },
    ]
}

/// Builds a text from characters.
fn text_of(cs: &[char]) -> (r: String)
    ensures
        r@ == cs@,
{
    string_of(cs)
}

/// The pieces of a group's header on a row `width` wide.
#[verifier::spinoff_prover]
pub fn header(g: Group, count: usize, folded: bool, width: usize) -> (r: Vec<Piece>)
    ensures
        pieces_view(r@) == spec_header(g, count as nat, folded, width as int),
{
    let mut count_text = text_of(&[' ', '(']);
    push_decimal(&mut count_text, count);
    push_char(&mut count_text, ')');
    assert(count_text@ =~= seq![' ', '('] + spec_decimal(count as nat) + seq![')']);
    let (title, title_bytes, look) = match g {
        Group::Priority(l) => {
            let t = text_of(&['P', 'R', 'I', 'O', 'R', 'I', 'T', 'Y', ' ', l]);
            (t, 9 + utf8_len(l), priority_look(l))
        },
        Group::Unprioritised => (
            text_of(&['N', 'O', ' ', 'P', 'R', 'I', 'O', 'R', 'I', 'T', 'Y']),
            11,
            Look { fg: Colour::Reset, bg: Colour::Reset, bold: true, dim: true, reversed: false },
        ),
        Group::Done => (
            text_of(&['D', 'O', 'N', 'E']),
            4,
            Look { fg: Colour::Reset, bg: Colour::Reset, bold: true, dim: true, reversed: false },
        ),
    };
    let end = if folded {
        text_of(&[' ', '\u{25b8}'])
    } else {
        String::new()
    };
    assert(title@ =~= group_title(g));
    assert(end@ =~= (if folded { fold_mark() } else { Seq::<char>::empty() }));
    let count_len = count_text.unicode_len();
    let end_len = end.unicode_len();
    proof {
        lemma_decimal_len(count as nat);
    }
    let used = count_len + title_bytes + 4 + end_len;
    let rule_len = if width > used { width - used } else { 0 };
    let mut rule = String::new();
    let mut i: usize = 0;
    while i < rule_len
        invariant
            i <= rule_len,
            rule@ == Seq::new(i as nat, |k: int| '\u{2500}'),
        decreases rule_len - i,
    {
        push_char(&mut rule, '\u{2500}');
        i = i + 1;
        assert(rule@ =~= Seq::new(i as nat, |k: int| '\u{2500}'));
    }
    let mut r: Vec<Piece> = Vec::new();
    let gap = text_of(&[' ', ' ']);
    assert(gap@ =~= seq![' ', ' ']);
    r.push(piece(count_text, dim_look()));
    r.push(piece(gap, plain_look()));
    r.push(piece(title, look));
    let gap = text_of(&[' ', ' ']);
    assert(gap@ =~= seq![' ', ' ']);
    r.push(piece(gap, plain_look()));
    r.push(piece(rule, dim_look()));
    r.push(piece(end, plain_look()));
    proof {
        assert(pieces_view(r@) =~= spec_header(g, count as nat, folded, width as int));
    }
    r
}

/// A number has at most twenty decimal digits, as a `usize` does.
proof fn lemma_decimal_len(n: nat)
    requires
        n <= usize::MAX,
    ensures
        1 <= spec_decimal(n).len() <= 20,
{
    reveal_with_fuel(pow10, 21);
    assert(pow10(20) == 100000000000000000000nat);
    lemma_decimal_len_below(n, 20);
}

/// A number below `10^k` has at most `k` decimal digits.
proof fn lemma_decimal_len_below(n: nat, k: nat)
    requires
        k >= 1,
        n < pow10(k),
    ensures
        1 <= spec_decimal(n).len() <= k,
    decreases k,
{
    if n >= 10 {
        assert(k >= 2) by {
            if k == 1 {
                assert(pow10(1) == 10 * pow10(0));
            }
        }
        assert(n / 10 < pow10((k - 1) as nat)) by (nonlinear_arith)
            requires
                n < pow10(k),
                pow10(k) == 10 * pow10((k - 1) as nat),
        {
        }
        lemma_decimal_len_below(n / 10, (k - 1) as nat);
    }
}

/// Ten to the power `k`.
pub open spec fn pow10(k: nat) -> nat
    decreases k,
{
    if k == 0 {
        1
    } else {
        10 * pow10((k - 1) as nat)
    }
}

/// The first character of a text, if any.
pub open spec fn first_char(s: Seq<char>) -> Option<char> {
    if s.len() > 0 {
        Some(s[0])
    } else {
        None
    }
}

/// The section of the panel a word starting with `sigil` is in: its header and how its
/// entries are drawn. `+projects` are magenta, `@contexts` cyan, the rest (`all`) bold under
/// no header.
pub open spec fn section(sigil: Option<char>) -> (Seq<char>, Look) {
    if sigil == Some('+') {
        (seq![' ', 'P', 'R', 'O', 'J', 'E', 'C', 'T', 'S'], tinted(Colour::Magenta))
    } else if sigil == Some('@') {
        (seq![' ', 'C', 'O', 'N', 'T', 'E', 'X', 'T', 'S'], tinted(Colour::Cyan))
    } else {
        (Seq::empty(), bolded())
    }
}

/// The row of a panel entry: a marker when it is the active one, its name cut or padded to
/// thirteen characters, then its count right-aligned on three, dimmed.
pub open spec fn entry_row(term: Seq<char>, count: nat, active: bool) -> Seq<PieceView> {
    seq![
        PieceView {
            text: if active { seq!['\u{25b8}', ' '] } else { seq![' ', ' '] },
            look: plain(),
        },
        PieceView { text: fit_left(term, 13), look: section(first_char(term)).1 },
        PieceView { text: seq![' '], look: plain() },
        PieceView { text: pad_left(spec_decimal(count), 3), look: dimmed() },
    ]
}

/// The panel's rows for its first `k` entries, and the row of the active one when it is among
/// them: each entry's row, a blank row and its section's header before an entry whose first
/// character differs from the previous entry's.
pub open spec fn panel_upto(entries: Seq<(Seq<char>, nat)>, active: int, k: int) -> (
    Seq<Seq<PieceView>>,
    Option<int>,
)
    decreases k,
{
    if k <= 0 {
        (Seq::empty(), None)
    } else {
        let (rows, at) = panel_upto(entries, active, k - 1);
        let i = k - 1;
        let sigil = first_char(entries[i].0);
        let (title, look) = section(sigil);
        let rows2 = if i > 0 && first_char(entries[i - 1].0) != sigil {
            rows + seq![
                Seq::empty(),
                seq![PieceView { text: title, look: Look { bold: true, ..look } }],
            ]
        } else {
            rows
        };
        let at2 = if i == active {
            Some(rows2.len() as int)
        } else {
            at
        };
        (rows2.push(entry_row(entries[i].0, entries[i].1, i == active)), at2)
    }
}

/// The panel's rows for `entries`, and the row of the active entry.
pub open spec fn spec_panel(entries: Seq<(Seq<char>, nat)>, active: int) -> (
    Seq<Seq<PieceView>>,
    Option<int>,
) {
    panel_upto(entries, active, entries.len() as int)
}

/// Rows of pieces as mathematical values.
pub open spec fn rows_view(rows: Seq<Vec<Piece>>) -> Seq<Seq<PieceView>> {
    rows.map_values(|r: Vec<Piece>| pieces_view(r@))
}

/// The first character of a text, if any.
fn first_char_of(s: &str) -> (r: Option<char>)
    ensures
        r == first_char(s@),
{
    let cs = chars_of(s);
    if cs.len() > 0 {
        Some(cs[0])
    } else {
        None
    }
}

/// `s` cut or padded to `width` characters.
fn fit(s: &str, width: usize) -> (r: String)
    ensures
        r@ == fit_left(s@, width as int),
{
    let cs = chars_of(s);
    if cs.len() >= width {
        let r = string_of(&crate::text::subrange_chars(&cs, 0, width));
        assert(r@ =~= fit_left(s@, width as int));
        r
    } else {
        let mut r = string_of(&cs);
        push_spaces(&mut r, width - cs.len());
        r
    }
}

/// The section header and look of entries starting with `sigil`.
fn section_of(sigil: Option<char>) -> (r: (String, Look))
    ensures
        (r.0@, r.1) == section(sigil),
{
    if sigil == Some('+') {
        let t = text_of(&[' ', 'P', 'R', 'O', 'J', 'E', 'C', 'T', 'S']);
        assert(t@ =~= section(sigil).0);
        (t, Look { fg: Colour::Magenta, bg: Colour::Reset, bold: false, dim: false, reversed: false })
    } else if sigil == Some('@') {
        let t = text_of(&[' ', 'C', 'O', 'N', 'T', 'E', 'X', 'T', 'S']);
        assert(t@ =~= section(sigil).0);
        (t, Look { fg: Colour::Cyan, bg: Colour::Reset, bold: false, dim: false, reversed: false })
    } else {
        (String::new(), bold_look())
    }
}

/// The row of a panel entry.
fn entry_pieces(term: &str, count: usize, active: bool) -> (r: Vec<Piece>)
    ensures
        pieces_view(r@) == entry_row(term@, count as nat, active),
{
    let marker = if active {
        text_of(&['\u{25b8}', ' '])
    } else {
        text_of(&[' ', ' '])
    };
    assert(marker@ =~= (if active { seq!['\u{25b8}', ' '] } else { seq![' ', ' '] }));
    let (_, look) = section_of(first_char_of(term));
    let sp = text_of(&[' ']);
    assert(sp@ =~= seq![' ']);
    let mut r: Vec<Piece> = Vec::new();
    r.push(piece(marker, plain_look()));
    r.push(piece(fit(term, 13), look));
    r.push(piece(sp, plain_look()));
    r.push(piece(decimal_padded(count, 3), dim_look()));
    assert(pieces_view(r@) =~= entry_row(term@, count as nat, active));
    r
}

/// The panel's rows for `entries`, the entry at `active` marked, and which row that is.
#[verifier::spinoff_prover]
pub fn panel_rows(entries: &Vec<(String, usize)>, active: usize) -> (r: (Vec<Vec<Piece>>, Option<usize>))
    ensures
        (rows_view(r.0@), match r.1 {
            Some(i) => Some(i as int),
            None => None,
        }) == spec_panel(entries_view(entries@), active as int),
{
    let ghost ev = entries_view(entries@);
    let mut rows: Vec<Vec<Piece>> = Vec::new();
    let mut at: Option<usize> = None;
    let mut i: usize = 0;
    while i < entries.len()
        invariant
            i <= entries@.len(),
            ev == entries_view(entries@),
            (rows_view(rows@), match at {
                Some(i) => Some(i as int),
                None => None,
            }) == panel_upto(ev, active as int, i as int),
            rows@.len() <= 3 * i,
        decreases entries@.len() - i,
    {
        let ghost before = rows_view(rows@);
        let sigil = first_char_of(entries[i].0.as_str());
        let (title, look) = section_of(sigil);
        if i > 0 && first_char_of(entries[i - 1].0.as_str()) != sigil {
            let blank: Vec<Piece> = Vec::new();
            assert(pieces_view(blank@) =~= Seq::<PieceView>::empty());
            rows.push(blank);
            assert(rows_view(rows@) =~= before.push(Seq::<PieceView>::empty()));
            let ghost before2 = rows_view(rows@);
            let mut h: Vec<Piece> = Vec::new();
            h.push(piece(title, Look { bold: true, ..look }));
            rows.push(h);
            proof {
                let hv = seq![PieceView { text: section(sigil).0, look: Look { bold: true, ..section(sigil).1 } }];
                assert(pieces_view(h@) =~= hv);
                assert(rows_view(rows@) =~= before2.push(hv));
                assert(rows_view(rows@) =~= before + seq![Seq::<PieceView>::empty(), hv]);
            }
        }
        if i == active {
            at = Some(rows.len());
        }
        let ghost mid = rows_view(rows@);
        rows.push(entry_pieces(entries[i].0.as_str(), entries[i].1, i == active));
        proof {
            assert(rows_view(rows@) =~= mid.push(rows_view(rows@).last()));
            assert(ev[i as int] == (entries@[i as int].0@, entries@[i as int].1 as nat));
        }
        i = i + 1;
    }
    assert(ev.len() == entries@.len());
    (rows, at)
}

/// The panel of the interactive list: `all`, then the projects and the contexts of the tasks
/// shown, each section after a blank row and its header, the active filter marked; and the
/// row of the active filter.
pub fn panel(app: &App) -> (r: (Vec<Vec<Piece>>, Option<usize>))
    requires
        app.store.wf(),
    ensures
        ({
            let entries = spec_filters(app@.todos, app.show_done);
            (rows_view(r.0@), match r.1 {
                Some(i) => Some(i as int),
                None => None,
            }) == spec_panel(entries, filter_row_of(entries, opt_view(app.filter)) as int)
        }),
{
    let filters = app.filters();
    let active = app.filter_row(&filters);
    panel_rows(&filters, active)
}

/// What `ratatui::text::Span::width` answers for a text: its width on screen in columns.
pub uninterp spec fn spec_text_width(s: Seq<char>) -> nat;

/// Calls `ratatui::text::Span::width`, the width on screen of a text as the `unicode-width`
/// crate measures it; the result is named by `spec_text_width`.
#[verifier::external_body]
fn text_width(s: &str) -> (r: usize)
    ensures
        r == spec_text_width(s@),
{
    ratatui::text::Span::raw(s).width()
}

/// The width on screen of a row of pieces, as `ratatui::text::Line::width` sums it.
pub open spec fn row_width(p: Seq<PieceView>) -> int
    decreases p.len(),
{
    if p.len() == 0 {
        0
    } else {
        row_width(p.drop_last()) + spec_text_width(p.last().text)
    }
}

/// The width on screen of a row of pieces, or `usize::MAX` when it is wider.
fn width_of(p: &Vec<Piece>) -> (r: usize)
    ensures
        r == (if row_width(pieces_view(p@)) <= usize::MAX { row_width(pieces_view(p@)) } else { usize::MAX as int }),
{
    let mut total: usize = 0;
    let mut i: usize = 0;
    while i < p.len()
        invariant
            i <= p@.len(),
            total == (if row_width(pieces_view(p@).take(i as int)) <= usize::MAX { row_width(pieces_view(p@).take(i as int)) } else { usize::MAX as int }),
        decreases p@.len() - i,
    {
        let w = text_width(p[i].text.as_str());
        proof {
            let t = pieces_view(p@).take(i + 1);
            assert(t.drop_last() =~= pieces_view(p@).take(i as int));
            assert(t.last() == p@[i as int]@);
        }
        total = total.saturating_add(w);
        i = i + 1;
    }
    assert(pieces_view(p@).take(p@.len() as int) =~= pieces_view(p@));
    total
}

/// The mode block's name, colour and key hints when keys go to the list.
pub open spec fn list_mode() -> (Seq<char>, Colour, Seq<(Seq<char>, Seq<char>)>) {
    (seq!['L', 'I', 'S', 'T'], Colour::Blue, seq![(seq!['⏎'], seq!['e', 'd', 'i', 't']), (seq!['o'], seq!['a', 'd', 'd']), (seq!['x'], seq!['d', 'o', 'n', 'e']), (seq!['p'], seq!['p', 'r', 'i', 'o', 'r', 'i', 't', 'y']), (seq!['/'], seq!['s', 'e', 'a', 'r', 'c', 'h']), (seq!['?'], seq!['h', 'e', 'l', 'p'])])
}

/// The mode block's name, colour and key hints when keys go to the panel.
pub open spec fn panel_mode() -> (Seq<char>, Colour, Seq<(Seq<char>, Seq<char>)>) {
    (seq!['P', 'A', 'N', 'E', 'L'], Colour::Magenta, seq![(seq!['j', '/', 'k'], seq!['f', 'i', 'l', 't', 'e', 'r']), (seq!['e', 's', 'c'], seq!['a', 'l', 'l']), (seq!['t', 'a', 'b'], seq!['b', 'a', 'c', 'k'])])
}

/// The mode block's name, colour and key hints when keys go to the search.
pub open spec fn search_mode() -> (Seq<char>, Colour, Seq<(Seq<char>, Seq<char>)>) {
    (seq!['S', 'E', 'A', 'R', 'C', 'H'], Colour::Yellow, seq![(seq!['⏎'], seq!['k', 'e', 'e', 'p']), (seq!['e', 's', 'c'], seq!['c', 'l', 'e', 'a', 'r'])])
}

/// The mode block's name, colour and key hints when keys go to the insert.
pub open spec fn insert_mode() -> (Seq<char>, Colour, Seq<(Seq<char>, Seq<char>)>) {
    (seq!['I', 'N', 'S', 'E', 'R', 'T'], Colour::Green, seq![(seq!['e', 's', 'c'], seq!['n', 'o', 'r', 'm', 'a', 'l']), (seq!['⏎'], seq!['s', 'a', 'v', 'e'])])
}

/// The mode block's name, colour and key hints when keys go to the normal.
pub open spec fn normal_mode() -> (Seq<char>, Colour, Seq<(Seq<char>, Seq<char>)>) {
    (seq!['N', 'O', 'R', 'M', 'A', 'L'], Colour::Blue, seq![(seq!['i'], seq!['i', 'n', 's', 'e', 'r', 't']), (seq!['⏎'], seq!['s', 'a', 'v', 'e']), (seq!['e', 's', 'c'], seq!['c', 'a', 'n', 'c', 'e', 'l'])])
}

/// Key hints as mathematical values.
pub open spec fn hints_view(h: Seq<(String, String)>) -> Seq<(Seq<char>, Seq<char>)> {
    h.map_values(|x: (String, String)| (x.0@, x.1@))
}

/// A mode block as a mathematical value.
pub open spec fn mode_view(m: (String, Colour, Vec<(String, String)>)) -> (Seq<char>, Colour, Seq<(Seq<char>, Seq<char>)>) {
    (m.0@, m.1, hints_view(m.2@))
}

/// The mode the status bar shows for where keys go: the search, the popup in either mode,
/// the panel, or the list (also under the help).
pub open spec fn mode_of(f: FocusView) -> (Seq<char>, Colour, Seq<(Seq<char>, Seq<char>)>) {
    match f {
        FocusView::Search => search_mode(),
        FocusView::Popup(e, _) => if e.mode == Mode::Insert {
            insert_mode()
        } else {
            normal_mode()
        },
        FocusView::Panel => panel_mode(),
        _ => list_mode(),
    }
}

/// Texts joined by two spaces.
pub open spec fn joined_by_two(parts: Seq<Seq<char>>) -> Seq<char>
    decreases parts.len(),
{
    if parts.len() == 0 {
        Seq::empty()
    } else if parts.len() == 1 {
        parts[0]
    } else {
        joined_by_two(parts.drop_last()) + seq![' ', ' '] + parts.last()
    }
}

/// The filters the status bar shows: while searching, the search being typed and a cursor;
/// else the panel's word, the search after a `/`, and `+done` when done tasks are shown,
/// separated by two spaces.
pub open spec fn filters_text(a: AppView) -> Seq<char> {
    if a.focus == FocusView::Search {
        seq!['/'] + a.search + seq!['\u{258c}']
    } else {
        let f: Seq<Seq<char>> = match a.filter {
            Some(f) => seq![f],
            None => Seq::empty(),
        };
        let s: Seq<Seq<char>> = if a.search.len() > 0 { seq![seq!['/'] + a.search] } else { Seq::empty() };
        let d: Seq<Seq<char>> = if a.show_done { seq![seq!['+', 'd', 'o', 'n', 'e']] } else { Seq::empty() };
        joined_by_two(f + s + d)
    }
}

/// The pieces of key hints: each key bold and its action dimmed, separated by a dimmed ` · `,
/// after two spaces when filters are shown.
pub open spec fn hint_pieces(hints: Seq<(Seq<char>, Seq<char>)>, after_filters: bool) -> Seq<PieceView>
    decreases hints.len(),
{
    if hints.len() == 0 {
        seq![PieceView { text: if after_filters { seq![' ', ' '] } else { Seq::empty() }, look: plain() }]
    } else {
        let k = hints.len() - 1;
        hint_pieces(hints.drop_last(), after_filters) + seq![
            PieceView { text: if k > 0 { seq![' ', '\u{b7}', ' '] } else { Seq::empty() }, look: dimmed() },
            PieceView { text: hints[k].0, look: bolded() },
            PieceView { text: seq![' '] + hints[k].1, look: dimmed() },
        ]
    }
}

/// The status bar: on the left the mode in a coloured block and the filters, then the mode's
/// keys when no message is shown and they fit in `width` columns; on the right the message,
/// if any.
pub open spec fn spec_status(a: AppView, width: int) -> (Seq<PieceView>, Option<Seq<char>>) {
    let (mode, colour, hints) = mode_of(a.focus);
    let filters = filters_text(a);
    let left = seq![
        PieceView {
            text: seq![' '] + mode + seq![' '],
            look: Look { fg: Colour::Black, bg: colour, bold: true, dim: false, reversed: false },
        },
        PieceView { text: seq![' '] + filters, look: plain() },
    ];
    let keys = hint_pieces(hints, filters.len() > 0);
    let shown = if a.message is None && row_width(left) + row_width(keys) <= width {
        left + keys
    } else {
        left
    };
    (shown, match a.message {
        Some(m) => Some(m + seq![' ']),
        None => None,
    })
}

/// The mode block's name, colour and key hints when keys go to the list.
fn list_mode_exec() -> (r: (String, Colour, Vec<(String, String)>))
    ensures
        mode_view(r) == list_mode(),
{
    let name = text_of(&['L', 'I', 'S', 'T']);
    assert(name@ =~= seq!['L', 'I', 'S', 'T']);
    let mut hints: Vec<(String, String)> = Vec::new();
    hints.push((text_of(&['⏎']), text_of(&['e', 'd', 'i', 't'])));
    hints.push((text_of(&['o']), text_of(&['a', 'd', 'd'])));
    hints.push((text_of(&['x']), text_of(&['d', 'o', 'n', 'e'])));
    hints.push((text_of(&['p']), text_of(&['p', 'r', 'i', 'o', 'r', 'i', 't', 'y'])));
    hints.push((text_of(&['/']), text_of(&['s', 'e', 'a', 'r', 'c', 'h'])));
    hints.push((text_of(&['?']), text_of(&['h', 'e', 'l', 'p'])));
    assert(hints@[0].0@ =~= seq!['⏎'] && hints@[0].1@ =~= seq!['e', 'd', 'i', 't']);
    assert(hints@[1].0@ =~= seq!['o'] && hints@[1].1@ =~= seq!['a', 'd', 'd']);
    assert(hints@[2].0@ =~= seq!['x'] && hints@[2].1@ =~= seq!['d', 'o', 'n', 'e']);
    assert(hints@[3].0@ =~= seq!['p'] && hints@[3].1@ =~= seq!['p', 'r', 'i', 'o', 'r', 'i', 't', 'y']);
    assert(hints@[4].0@ =~= seq!['/'] && hints@[4].1@ =~= seq!['s', 'e', 'a', 'r', 'c', 'h']);
    assert(hints@[5].0@ =~= seq!['?'] && hints@[5].1@ =~= seq!['h', 'e', 'l', 'p']);
    let r = (name, Colour::Blue, hints);
    assert(hints_view(r.2@) =~= list_mode().2);
    r
}

/// The mode block's name, colour and key hints when keys go to the panel.
fn panel_mode_exec() -> (r: (String, Colour, Vec<(String, String)>))
    ensures
        mode_view(r) == panel_mode(),
{
    let name = text_of(&['P', 'A', 'N', 'E', 'L']);
    assert(name@ =~= seq!['P', 'A', 'N', 'E', 'L']);
    let mut hints: Vec<(String, String)> = Vec::new();
    hints.push((text_of(&['j', '/', 'k']), text_of(&['f', 'i', 'l', 't', 'e', 'r'])));
    hints.push((text_of(&['e', 's', 'c']), text_of(&['a', 'l', 'l'])));
    hints.push((text_of(&['t', 'a', 'b']), text_of(&['b', 'a', 'c', 'k'])));
    assert(hints@[0].0@ =~= seq!['j', '/', 'k'] && hints@[0].1@ =~= seq!['f', 'i', 'l', 't', 'e', 'r']);
    assert(hints@[1].0@ =~= seq!['e', 's', 'c'] && hints@[1].1@ =~= seq!['a', 'l', 'l']);
    assert(hints@[2].0@ =~= seq!['t', 'a', 'b'] && hints@[2].1@ =~= seq!['b', 'a', 'c', 'k']);
    let r = (name, Colour::Magenta, hints);
    assert(hints_view(r.2@) =~= panel_mode().2);
    r
}

/// The mode block's name, colour and key hints when keys go to the search.
fn search_mode_exec() -> (r: (String, Colour, Vec<(String, String)>))
    ensures
        mode_view(r) == search_mode(),
{
    let name = text_of(&['S', 'E', 'A', 'R', 'C', 'H']);
    assert(name@ =~= seq!['S', 'E', 'A', 'R', 'C', 'H']);
    let mut hints: Vec<(String, String)> = Vec::new();
    hints.push((text_of(&['⏎']), text_of(&['k', 'e', 'e', 'p'])));
    hints.push((text_of(&['e', 's', 'c']), text_of(&['c', 'l', 'e', 'a', 'r'])));
    assert(hints@[0].0@ =~= seq!['⏎'] && hints@[0].1@ =~= seq!['k', 'e', 'e', 'p']);
    assert(hints@[1].0@ =~= seq!['e', 's', 'c'] && hints@[1].1@ =~= seq!['c', 'l', 'e', 'a', 'r']);
    let r = (name, Colour::Yellow, hints);
    assert(hints_view(r.2@) =~= search_mode().2);
    r
}

/// The mode block's name, colour and key hints when keys go to the insert.
fn insert_mode_exec() -> (r: (String, Colour, Vec<(String, String)>))
    ensures
        mode_view(r) == insert_mode(),
{
    let name = text_of(&['I', 'N', 'S', 'E', 'R', 'T']);
    assert(name@ =~= seq!['I', 'N', 'S', 'E', 'R', 'T']);
    let mut hints: Vec<(String, String)> = Vec::new();
    hints.push((text_of(&['e', 's', 'c']), text_of(&['n', 'o', 'r', 'm', 'a', 'l'])));
    hints.push((text_of(&['⏎']), text_of(&['s', 'a', 'v', 'e'])));
    assert(hints@[0].0@ =~= seq!['e', 's', 'c'] && hints@[0].1@ =~= seq!['n', 'o', 'r', 'm', 'a', 'l']);
    assert(hints@[1].0@ =~= seq!['⏎'] && hints@[1].1@ =~= seq!['s', 'a', 'v', 'e']);
    let r = (name, Colour::Green, hints);
    assert(hints_view(r.2@) =~= insert_mode().2);
    r
}

/// The mode block's name, colour and key hints when keys go to the normal.
fn normal_mode_exec() -> (r: (String, Colour, Vec<(String, String)>))
    ensures
        mode_view(r) == normal_mode(),
{
    let name = text_of(&['N', 'O', 'R', 'M', 'A', 'L']);
    assert(name@ =~= seq!['N', 'O', 'R', 'M', 'A', 'L']);
    let mut hints: Vec<(String, String)> = Vec::new();
    hints.push((text_of(&['i']), text_of(&['i', 'n', 's', 'e', 'r', 't'])));
    hints.push((text_of(&['⏎']), text_of(&['s', 'a', 'v', 'e'])));
    hints.push((text_of(&['e', 's', 'c']), text_of(&['c', 'a', 'n', 'c', 'e', 'l'])));
    assert(hints@[0].0@ =~= seq!['i'] && hints@[0].1@ =~= seq!['i', 'n', 's', 'e', 'r', 't']);
    assert(hints@[1].0@ =~= seq!['⏎'] && hints@[1].1@ =~= seq!['s', 'a', 'v', 'e']);
    assert(hints@[2].0@ =~= seq!['e', 's', 'c'] && hints@[2].1@ =~= seq!['c', 'a', 'n', 'c', 'e', 'l']);
    let r = (name, Colour::Blue, hints);
    assert(hints_view(r.2@) =~= normal_mode().2);
    r
}

/// The mode block of where keys go.
fn mode_exec(focus: &Focus) -> (r: (String, Colour, Vec<(String, String)>))
    ensures
        mode_view(r) == mode_of(focus@),
{
    match focus {
        Focus::Search => search_mode_exec(),
        Focus::Popup(p) => match p.editor.mode {
            Mode::Insert => insert_mode_exec(),
            Mode::Normal => normal_mode_exec(),
        },
        Focus::Panel => panel_mode_exec(),
        _ => list_mode_exec(),
    }
}

/// The filters the status bar shows.
#[verifier::spinoff_prover]
fn filters_exec(app: &App) -> (r: String)
    ensures
        r@ == filters_text(app@),
{
    if let Focus::Search = app.focus {
        let mut r = text_of(&['/']);
        push_chars(&mut r, &chars_of(app.search.as_str()));
        push_char(&mut r, '\u{258c}');
        assert(r@ =~= filters_text(app@));
        return r;
    }
    let ghost a = app@;
    let ghost f: Seq<Seq<char>> = match a.filter {
        Some(f) => seq![f],
        None => Seq::empty(),
    };
    let ghost sv: Seq<Seq<char>> = if a.search.len() > 0 { seq![seq!['/'] + a.search] } else { Seq::empty() };
    let ghost d: Seq<Seq<char>> = if a.show_done { seq![seq!['+', 'd', 'o', 'n', 'e']] } else { Seq::empty() };
    let mut parts: Vec<String> = Vec::new();
    if let Some(x) = &app.filter {
        parts.push(x.clone());
    }
    assert(texts(parts@) =~= f);
    if app.search.unicode_len() > 0 {
        let mut t = text_of(&['/']);
        push_chars(&mut t, &chars_of(app.search.as_str()));
        assert(t@ =~= seq!['/'] + a.search);
        parts.push(t);
    }
    assert(texts(parts@) =~= f + sv);
    if app.show_done {
        let t = text_of(&['+', 'd', 'o', 'n', 'e']);
        assert(t@ =~= seq!['+', 'd', 'o', 'n', 'e']);
        parts.push(t);
    }
    let ghost want = f + sv + d;
    assert(texts(parts@) =~= want);
    let mut r = String::new();
    let mut i: usize = 0;
    while i < parts.len()
        invariant
            i <= parts@.len(),
            r@ == joined_by_two(texts(parts@).take(i as int)),
        decreases parts@.len() - i,
    {
        if i > 0 {
            push_char(&mut r, ' ');
            push_char(&mut r, ' ');
        }
        push_chars(&mut r, &chars_of(parts[i].as_str()));
        proof {
            let t = texts(parts@).take(i + 1);
            assert(t.drop_last() =~= texts(parts@).take(i as int));
            assert(t.last() == parts@[i as int]@);
            assert(r@ =~= joined_by_two(t));
        }
        i = i + 1;
    }
    assert(texts(parts@).take(parts@.len() as int) =~= texts(parts@));
    r
}

/// The pieces of key hints.
#[verifier::spinoff_prover]
fn hints_exec(hints: &Vec<(String, String)>, after_filters: bool) -> (r: Vec<Piece>)
    ensures
        pieces_view(r@) == hint_pieces(hints_view(hints@), after_filters),
{
    let mut r: Vec<Piece> = Vec::new();
    let lead = if after_filters { text_of(&[' ', ' ']) } else { String::new() };
    assert(lead@ =~= (if after_filters { seq![' ', ' '] } else { Seq::<char>::empty() }));
    r.push(piece(lead, plain_look()));
    assert(pieces_view(r@) =~= hint_pieces(hints_view(hints@).take(0), after_filters));
    let mut i: usize = 0;
    while i < hints.len()
        invariant
            i <= hints@.len(),
            pieces_view(r@) == hint_pieces(hints_view(hints@).take(i as int), after_filters),
        decreases hints@.len() - i,
    {
        let sep = if i > 0 { text_of(&[' ', '\u{b7}', ' ']) } else { String::new() };
        assert(sep@ =~= (if i > 0 { seq![' ', '\u{b7}', ' '] } else { Seq::<char>::empty() }));
        let mut action = text_of(&[' ']);
        push_chars(&mut action, &chars_of(hints[i].1.as_str()));
        assert(action@ =~= seq![' '] + hints@[i as int].1@);
        let ghost before = pieces_view(r@);
        r.push(piece(sep, dim_look()));
        r.push(piece(hints[i].0.clone(), bold_look()));
        r.push(piece(action, dim_look()));
        proof {
            let t = hints_view(hints@).take(i + 1);
            assert(t.drop_last() =~= hints_view(hints@).take(i as int));
            assert(t[i as int] == (hints@[i as int].0@, hints@[i as int].1@));
            assert(pieces_view(r@) =~= before + seq![
                PieceView { text: if i > 0 { seq![' ', '\u{b7}', ' '] } else { Seq::empty() }, look: dimmed() },
                PieceView { text: t[i as int].0, look: bolded() },
                PieceView { text: seq![' '] + t[i as int].1, look: dimmed() },
            ]);
            assert(pieces_view(r@) =~= hint_pieces(t, after_filters));
        }
        i = i + 1;
    }
    assert(hints_view(hints@).take(hints@.len() as int) =~= hints_view(hints@));
    r
}

/// The status bar of the interactive list on a row `width` columns wide: the pieces on the
/// left, and the message to put on the right.
#[verifier::spinoff_prover]
pub fn status(app: &App, width: u16) -> (r: (Vec<Piece>, Option<String>))
    ensures
        (pieces_view(r.0@), opt_view(r.1)) == spec_status(app@, width as int),
{
    let (mode, colour, hints) = mode_exec(&app.focus);
    let filters = filters_exec(app);
    let mut block = text_of(&[' ']);
    push_chars(&mut block, &chars_of(mode.as_str()));
    push_char(&mut block, ' ');
    assert(block@ =~= seq![' '] + mode@ + seq![' ']);
    let mut rest = text_of(&[' ']);
    push_chars(&mut rest, &chars_of(filters.as_str()));
    assert(rest@ =~= seq![' '] + filters@);
    let after = filters.unicode_len() > 0;
    let mut left: Vec<Piece> = Vec::new();
    left.push(piece(block, Look { fg: Colour::Black, bg: colour, bold: true, dim: false, reversed: false }));
    left.push(piece(rest, plain_look()));
    let ghost left_v = pieces_view(left@);
    let mut keys = hints_exec(&hints, after);
    let ghost keys_v = pieces_view(keys@);
    let wl = width_of(&left);
    let wk = width_of(&keys);
    if app.message.is_none() && wl.saturating_add(wk) <= width as usize {
        left.append(&mut keys);
    }
    let message = match &app.message {
        Some(m) => {
            let mut t = m.clone();
            push_char(&mut t, ' ');
            Some(t)
        },
        None => None,
    };
    proof {
        let (m, c, h) = mode_of(app@.focus);
        assert(left_v =~= seq![
            PieceView {
                text: seq![' '] + m + seq![' '],
                look: Look { fg: Colour::Black, bg: c, bold: true, dim: false, reversed: false },
            },
            PieceView { text: seq![' '] + filters_text(app@), look: plain() },
        ]);
        if app.message.is_none() && row_width(left_v) + row_width(keys_v) <= width {
            assert(pieces_view(left@) =~= left_v + keys_v);
        }
    }
    (left, message)
}

/// How the cursor's cell is drawn.
pub open spec fn cursor_look() -> Look {
    Look { reversed: true, ..plain() }
}

/// The popup's text in three pieces: what is before the cursor, the character under it (a
/// space past the end) in reverse video, and what is after it.
pub open spec fn spec_field(e: EditorView) -> Seq<PieceView> {
    let n = e.text.len() as int;
    let c = if e.cursor < n { e.cursor } else { n };
    seq![
        PieceView { text: e.text.take(c), look: plain() },
        PieceView { text: if c < n { seq![e.text[c]] } else { seq![' '] }, look: cursor_look() },
        PieceView { text: if c < n { e.text.skip(c + 1) } else { Seq::empty() }, look: plain() },
    ]
}

/// The popup's text in three pieces around the cursor.
pub fn field(editor: &Editor) -> (r: Vec<Piece>)
    ensures
        pieces_view(r@) == spec_field(editor@),
{
    let cs = chars_of(editor.text.as_str());
    let n = cs.len();
    let c = if editor.cursor < n { editor.cursor } else { n };
    let before = string_of(&crate::text::subrange_chars(&cs, 0, c));
    let under = if c < n { text_of(&[cs[c]]) } else { text_of(&[' ']) };
    let after = if c < n { string_of(&crate::text::subrange_chars(&cs, c + 1, n)) } else { String::new() };
    proof {
        let e = editor@;
        assert(before@ =~= e.text.take(c as int));
        if c < n {
            assert(under@ =~= seq![e.text[c as int]]);
            assert(after@ =~= e.text.skip(c + 1));
        } else {
            assert(under@ =~= seq![' ']);
            assert(after@ =~= Seq::<char>::empty());
        }
    }
    let mut r: Vec<Piece> = Vec::new();
    r.push(piece(before, plain_look()));
    r.push(piece(under, Look { fg: Colour::Reset, bg: Colour::Reset, bold: false, dim: false, reversed: true }));
    r.push(piece(after, plain_look()));
    proof {
        let e = editor@;
        assert(cs@.subrange(0, c as int) =~= e.text.take(c as int));
        if c < n {
            assert(cs@.subrange(c + 1, n as int) =~= e.text.skip(c + 1));
            assert(seq![cs@[c as int]] =~= seq![e.text[c as int]]);
        }
        assert(pieces_view(r@) =~= spec_field(e));
    }
    r
}

/// The popup's title: the number of the task edited, or, for a task to add, the panel's word
/// it gets.
pub open spec fn spec_popup_title(target: Target, filter: Option<Seq<char>>) -> Seq<char> {
    match target {
        Target::Edit(n) => seq![' ', 'e', 'd', 'i', 't', ' '] + spec_decimal(n as nat) + seq![' '],
        Target::Add => match filter {
            Some(f) => seq![' ', 'a', 'd', 'd', ' ', '('] + f + seq![')', ' '],
            None => seq![' ', 'a', 'd', 'd', ' '],
        },
    }
}

/// The popup's title.
pub fn popup_title(target: Target, filter: &Option<String>) -> (r: String)
    ensures
        r@ == spec_popup_title(target, opt_view(*filter)),
{
    match target {
        Target::Edit(n) => {
            let mut r = text_of(&[' ', 'e', 'd', 'i', 't', ' ']);
            push_decimal(&mut r, n);
            push_char(&mut r, ' ');
            assert(r@ =~= spec_popup_title(target, opt_view(*filter)));
            r
        },
        Target::Add => match filter {
            Some(f) => {
                let mut r = text_of(&[' ', 'a', 'd', 'd', ' ', '(']);
                push_chars(&mut r, &chars_of(f.as_str()));
                push_char(&mut r, ')');
                push_char(&mut r, ' ');
                assert(r@ =~= spec_popup_title(target, opt_view(*filter)));
                r
            },
            None => {
                let r = text_of(&[' ', 'a', 'd', 'd', ' ']);
                assert(r@ =~= spec_popup_title(target, opt_view(*filter)));
                r
            },
        },
    }
}

/// What the list says when no task is on screen: `nothing to do`, or `no matching task`
/// under a search or a panel word.
pub fn empty_list_message(app: &App) -> (r: String)
    ensures
        r@ == (if app@.search.len() == 0 && app@.filter is None {
            msg_nothing_to_do()
        } else {
            msg_no_matching_task()
        }),
{
    empty_listing_message(!(app.search.unicode_len() == 0 && app.filter.is_none()))
}

/// The rows of the list for its first `k` groups, with the screen row of each row the cursor
/// can stand on, and how many tasks those groups took: each group's header right above its
/// tasks, or alone when it is folded.
pub open spec fn list_upto(
    lines: Seq<Seq<PieceView>>,
    groups: Seq<(Group, nat)>,
    folded: Seq<Group>,
    width: int,
    k: int,
) -> (Seq<Seq<PieceView>>, Seq<int>, int)
    decreases k,
{
    if k <= 0 {
        (Seq::empty(), Seq::empty(), 0)
    } else {
        let (shown, rows, used) = list_upto(lines, groups, folded, width, k - 1);
        let (g, count) = groups[k - 1];
        let f = folded.contains(g);
        let rows1 = if f { rows.push(shown.len() as int) } else { rows };
        let shown2 = shown.push(spec_header(g, count, f, width));
        let end = if used + count <= lines.len() { used + count } else { lines.len() as int };
        let taken = lines.subrange(used, end);
        if f {
            (shown2, rows1, end)
        } else {
            (
                shown2 + taken,
                rows1 + Seq::new(taken.len(), |j: int| shown2.len() + j),
                end,
            )
        }
    }
}

/// The rows of the list and the screen row of each row the cursor can stand on: the groups as
/// `list_upto` lays them out, then the tasks left, each on its row.
pub open spec fn spec_list_screen(
    lines: Seq<Seq<PieceView>>,
    groups: Seq<(Group, nat)>,
    folded: Seq<Group>,
    width: int,
) -> (Seq<Seq<PieceView>>, Seq<int>) {
    let (shown, rows, used) = list_upto(lines, groups, folded, width, groups.len() as int);
    let rest = if used <= lines.len() { lines.skip(used) } else { Seq::empty() };
    (shown + rest, rows + Seq::new(rest.len(), |j: int| shown.len() + j))
}

/// The rows of the tasks on screen, each its number and line.
pub open spec fn task_lines(a: AppView) -> Seq<Seq<PieceView>> {
    a.tasks().map_values(|n: usize| spec_line(n as nat, a.todos[n - 1]))
}

/// Numbers as mathematical values.
pub open spec fn rows_int(rows: Seq<usize>) -> Seq<int> {
    rows.map_values(|r: usize| r as int)
}

/// The rows of the list on a screen `width` columns wide, and the screen row of each row the
/// cursor can stand on.
#[verifier::spinoff_prover]
pub fn list_screen(app: &App, width: usize) -> (r: (Vec<Vec<Piece>>, Vec<usize>))
    requires
        app.store.wf(),
    ensures
        (rows_view(r.0@), rows_int(r.1@)) == spec_list_screen(
            task_lines(app@),
            app@.groups(),
            app@.folded,
            width as int,
        ),
{
    let tasks = app.tasks();
    let ghost a = app@;
    let mut lines: Vec<Vec<Piece>> = Vec::new();
    let mut i: usize = 0;
    while i < tasks.len()
        invariant
            i <= tasks@.len(),
            app.store.wf(),
            numbers_of(tasks@) == a.tasks(),
            rows_hold_tasks(app.store.todos@, tasks@),
            a == app@,
            rows_view(lines@) == task_lines(a).take(i as int),
        decreases tasks@.len() - i,
    {
        let (n, t) = tasks[i];
        proof {
            assert(numbers_of(tasks@)[i as int] == n);
            assert(*t == app.store.todos@[n - 1]);
            assert(app.store.todos@[n - 1].wf());
            assert(a.todos[n - 1] == t@);
        }
        let ln = line(n, t);
        assert(pieces_view(ln@) == task_lines(a)[i as int]);
        let ghost before = rows_view(lines@);
        lines.push(ln);
        assert(rows_view(lines@) =~= before.push(pieces_view(ln@)));
        assert(rows_view(lines@) =~= task_lines(a).take(i + 1));
        i = i + 1;
    }
    assert(task_lines(a).take(tasks@.len() as int) =~= task_lines(a));
    let ghost lv = task_lines(a);
    let groups = app.groups();
    let ghost gv = counts_view(groups@);
    let mut shown: Vec<Vec<Piece>> = Vec::new();
    let mut rows: Vec<usize> = Vec::new();
    let mut used: usize = 0;
    let mut k: usize = 0;
    let mut pending = lines;
    assert(lv.skip(0) =~= lv);
    assert(lv.len() == tasks@.len());
    while k < groups.len()
        invariant
            k <= groups@.len(),
            gv == counts_view(groups@),
            lv == task_lines(a),
            a == app@,
            used <= lv.len(),
            lv.len() <= usize::MAX,
            rows_view(pending@) == lv.skip(used as int),
            (rows_view(shown@), rows_int(rows@), used as int) == list_upto(lv, gv, a.folded, width as int, k as int),
        decreases groups@.len() - k,
    {
        let (g, count) = groups[k];
        let f = crate::tui::contains_group(&app.folded, g);
        let ghost s1 = rows_view(shown@);
        let ghost r0 = rows_int(rows@);
        if f {
            rows.push(shown.len());
        }
        let ghost r1 = rows_int(rows@);
        assert(r1 =~= (if f { r0.push(s1.len() as int) } else { r0 }));
        shown.push(header(g, count, f, width));
        let ghost s2 = rows_view(shown@);
        assert(s2 =~= s1.push(spec_header(g, count as nat, f, width as int)));
        let left = pending.len();
        assert(rows_view(pending@).len() == pending@.len());
        let take = if count <= left { count } else { left };
        let mut j: usize = 0;
        while j < take
            invariant
                j <= take,
                take <= left,
                left == lv.len() - used,
                used <= lv.len(),
                lv.len() <= usize::MAX,
                rows_view(pending@) == lv.skip(used + j),
                rows_view(shown@) == (if f { s2 } else { s2 + lv.subrange(used as int, used + j) }),
                rows_int(rows@) == (if f { r1 } else { r1 + Seq::new(j as nat, |q: int| s2.len() + q) }),
            decreases take - j,
        {
            let ghost pv = rows_view(pending@);
            assert(rows_view(pending@).len() == pending@.len());
            let ghost old_p = pending@;
            let x = pending.remove(0);
            assert(x == old_p[0]);
            assert(pv[0] == pieces_view(x@));
            assert(rows_view(pending@) =~= pv.drop_first());
            assert(pv.drop_first() =~= lv.skip(used + j + 1));
            assert(pieces_view(x@) == lv[used + j]);
            if !f {
                let ghost before_s = rows_view(shown@);
                let ghost before_r = rows_int(rows@);
                assert(rows_view(shown@).len() == shown@.len());
                assert(shown@.len() == s2.len() + j);
                rows.push(shown.len());
                shown.push(x);
                assert(rows_view(shown@) =~= before_s.push(pieces_view(x@)));
                assert(rows_int(rows@) =~= before_r.push(s2.len() + j));
                assert(rows_view(shown@) =~= s2 + lv.subrange(used as int, used + j + 1));
                assert(rows_int(rows@) =~= r1 + Seq::new((j + 1) as nat, |q: int| s2.len() + q));
            }
            j = j + 1;
        }
        proof {
            let end = if used + count <= lv.len() { used + count } else { lv.len() as int };
            assert(end == used + take);
            assert(gv[k as int] == (g, count as nat));
        }
        used = used + take;
        k = k + 1;
    }
    let ghost s_end = rows_view(shown@);
    let ghost r_end = rows_int(rows@);
    let ghost rest = rows_view(pending@);
    let ghost total = pending@.len();
    while pending.len() > 0
        invariant
            rows_view(pending@) == rest.skip(total - pending@.len()),
            pending@.len() <= total,
            total == rest.len(),
            rows_view(shown@) == s_end + rest.take(total - pending@.len()),
            rows_int(rows@) == r_end + Seq::new((total - pending@.len()) as nat, |q: int| s_end.len() + q),
        decreases pending@.len(),
    {
        let ghost pv = rows_view(pending@);
        let ghost done = total - pending@.len();
        assert(rows_view(pending@).len() == pending@.len());
        let ghost old_p = pending@;
        let x = pending.remove(0);
        assert(x == old_p[0]);
        assert(pv[0] == pieces_view(x@));
        assert(rows_view(pending@) =~= pv.drop_first());
        assert(pieces_view(x@) == rest[done]);
        let ghost before_s = rows_view(shown@);
        let ghost before_r = rows_int(rows@);
        assert(rows_view(shown@).len() == shown@.len());
        assert(shown@.len() == s_end.len() + done);
        rows.push(shown.len());
        shown.push(x);
        assert(rows_view(shown@) =~= before_s.push(pieces_view(x@)));
        assert(rows_int(rows@) =~= before_r.push(s_end.len() + done));
        assert(rows_view(pending@) =~= rest.skip(done + 1));
        assert(rows_view(shown@) =~= s_end + rest.take(done + 1));
        assert(rows_int(rows@) =~= r_end + Seq::new((done + 1) as nat, |q: int| s_end.len() + q));
    }
    assert(rest.take(total as int) =~= rest);
    (shown, rows)
}

} // verus!

//! One task, as a line of a todo.txt file: an optional `x` marker, an optional `(A)`–`(E)`
//! priority, the dates, then the description.

use vstd::prelude::*;

use crate::date::{
    Date, date_char, format_date, lemma_format_date_chars, lemma_format_reads_back,
    lemma_parsed_date_valid, parse_date, spec_format_date, spec_parse_date,
};
use crate::text::{chars_of, push_char, push_chars, substring, spec_is_blank, is_blank, words_of};
use crate::store::texts;

verus! {

/// A task of the list.
pub struct Todo {
    /// The text after the marker, priority and dates, `+project`, `@context` and `key:value`
    /// kept verbatim.
    pub description: String,
    /// Whether the task is done.
    pub done: bool,
    /// Priority letter, meant to be from `A` to `E`.
    pub priority: Option<char>,
    /// Day the task was created.
    pub created: Option<Date>,
    /// Day the task was completed.
    pub completed: Option<Date>,
}

/// A task as a mathematical value.
pub struct TodoView {
    pub description: Seq<char>,
    pub done: bool,
    pub priority: Option<char>,
    pub created: Option<Date>,
    pub completed: Option<Date>,
}

impl View for Todo {
    type V = TodoView;

    open spec fn view(&self) -> TodoView {
        TodoView {
            description: self.description@,
            done: self.done,
            priority: self.priority,
            created: self.created,
            completed: self.completed,
        }
    }
}

/// Whether an optional date is a valid one.
pub open spec fn valid_date(d: Option<Date>) -> bool {
    d matches Some(d) ==> d.valid()
}

impl TodoView {
    /// Whether the task's dates are valid, so that it can be written.
    pub open spec fn wf(self) -> bool {
        valid_date(self.created) && valid_date(self.completed)
    }
}

/// Whether `c` is a priority letter, `A` to `E`.
pub open spec fn spec_is_valid_priority(c: char) -> bool {
    'A' <= c <= 'E'
}

/// An optional date as written in a line: the date and a space, or nothing.
pub open spec fn date_part(d: Option<Date>) -> Seq<char> {
    match d {
        Some(d) => spec_format_date(d) + seq![' '],
        None => Seq::empty(),
    }
}

/// The todo.txt line of a task: `x` and the completion date for a done task, else the
/// priority in brackets, then the creation date, then the description, separated by spaces.
/// A done task's priority is not written.
pub open spec fn spec_to_line(t: TodoView) -> Seq<char> {
    let head = if t.done {
        seq!['x', ' '] + date_part(t.completed)
    } else {
        match t.priority {
            Some(p) => seq!['(', p, ')', ' '],
            None => Seq::empty(),
        }
    };
    head + date_part(t.created) + t.description
}

/// A priority at the start of `s`, `(A) ` to `(E) `, and how many characters it takes.
pub open spec fn spec_strip_priority(s: Seq<char>) -> (Option<char>, int) {
    if s.len() >= 4 && s[0] == '(' && spec_is_valid_priority(s[1]) && s[2] == ')' && s[3] == ' ' {
        (Some(s[1]), 4)
    } else {
        (None, 0)
    }
}

/// A date at the start of `s`, up to the first space, and how many characters it takes with
/// that space; nothing when there is no space or the text before it is not a date.
pub open spec fn spec_strip_date(s: Seq<char>) -> (Option<Date>, int) {
    match s.index_of_first(' ') {
        Some(i) => match spec_parse_date(s.take(i)) {
            Some(d) => (Some(d), i + 1),
            None => (None, 0),
        },
        None => (None, 0),
    }
}

/// Whether a line starts with the done marker `x `.
pub open spec fn starts_done(line: Seq<char>) -> bool {
    line.len() >= 2 && line[0] == 'x' && line[1] == ' '
}

/// The task a todo.txt line holds: the `x ` marker and the completion date after it, then a
/// priority, then a creation date; what is not recognised stays in the description.
pub open spec fn spec_from_line(line: Seq<char>) -> TodoView {
    let done = starts_done(line);
    let p0: int = if done { 2 } else { 0 };
    let (completed, c1) = if done { spec_strip_date(line.skip(p0)) } else { (None, 0) };
    let p1 = p0 + c1;
    let (priority, c2) = spec_strip_priority(line.skip(p1));
    let p2 = p1 + c2;
    let (created, c3) = spec_strip_date(line.skip(p2));
    let p3 = p2 + c3;
    TodoView { description: line.skip(p3), done, priority, created, completed }
}

/// Whether a task's line reads back as the same task: its dates are valid, it holds nothing
/// its line leaves out (a priority outside `A` to `E`, a done task's priority, a pending
/// task's completion date, a done task's creation date without a completion date before it),
/// and where the description comes right after the marker or priority, it does not begin
/// with something the reader would take for a marker, priority or date.
pub open spec fn reads_back(t: TodoView) -> bool {
    &&& t.wf()
    &&& t.priority matches Some(p) ==> spec_is_valid_priority(p)
    &&& t.done ==> t.priority is None
    &&& !t.done ==> t.completed is None
    &&& t.done && t.completed is None ==> t.created is None
    &&& t.created is None ==> spec_strip_date(t.description).0 is None
    &&& t.created is None && t.priority is None ==> spec_strip_priority(t.description).0 is None
    &&& !t.done && t.created is None && t.priority is None ==> !starts_done(t.description)
}

/// A written date followed by a space is read back as that date.
proof fn lemma_strip_written_date(d: Date, rest: Seq<char>)
    requires
        d.valid(),
    ensures
        spec_strip_date(spec_format_date(d) + seq![' '] + rest) == (
            Some(d),
            spec_format_date(d).len() + 1int,
        ),
{
    let f = spec_format_date(d);
    let s = f + seq![' '] + rest;
    lemma_format_reads_back(d);
    lemma_format_date_chars(d);
    assert(s[f.len() as int] == ' ');
    assert(s.contains(' '));
    s.index_of_first_ensures(' ');
    let i = s.index_of_first(' ').unwrap();
    if i < f.len() {
        assert(s[i] == f[i]);
        assert(date_char(f[i]));
    }
    assert(i == f.len());
    assert(s.take(i) =~= f);
}

/// A line starting with a written date starts neither with the done marker nor a priority.
proof fn lemma_written_date_start(d: Date, rest: Seq<char>)
    ensures
        !starts_done(spec_format_date(d) + rest),
        spec_strip_priority(spec_format_date(d) + rest) == (None::<char>, 0int),
{
    lemma_format_date_chars(d);
    let f = spec_format_date(d);
    assert((f + rest)[0] == f[0]);
    assert(date_char(f[0]));
}

/// A task that reads back is read back from its line.
#[verifier::spinoff_prover]
proof fn lemma_line_reads_back(t: TodoView)
    requires
        reads_back(t),
    ensures
        spec_from_line(spec_to_line(t)) == t,
{
    let line = spec_to_line(t);
    let tail = date_part(t.created) + t.description;
    let r = spec_from_line(line);
    if let Some(d) = t.created {
        lemma_strip_written_date(d, t.description);
        lemma_written_date_start(d, seq![' '] + t.description);
        assert(tail =~= spec_format_date(d) + (seq![' '] + t.description));
        assert(tail =~= spec_format_date(d) + seq![' '] + t.description);
        assert(tail.skip(spec_format_date(d).len() + 1int) =~= t.description);
    } else {
        assert(tail =~= t.description);
    }
    if t.done {
        assert(line =~= seq!['x', ' '] + date_part(t.completed) + tail);
        assert(line.skip(2) =~= date_part(t.completed) + tail);
        if let Some(c) = t.completed {
            lemma_strip_written_date(c, tail);
            assert(date_part(t.completed) + tail =~= spec_format_date(c) + seq![' '] + tail);
            assert((spec_format_date(c) + seq![' '] + tail).skip(spec_format_date(c).len() + 1int)
                =~= tail);
            assert(line.skip(2 + spec_format_date(c).len() + 1int) =~= tail);
        } else {
            assert(line.skip(2) =~= tail);
        }
    } else {
        match t.priority {
            Some(p) => {
                assert(line =~= seq!['(', p, ')', ' '] + tail);
                assert(line.skip(0) =~= line);
                assert(line.skip(4) =~= tail);
            },
            None => {
                assert(line =~= tail);
                assert(line.skip(0) =~= line);
            },
        }
    }
    assert(r.description =~= t.description);
}

/// Whether the date read at the start of `s`, if one is, stands there as `to_line` writes
/// dates.
pub open spec fn date_written_canonically(s: Seq<char>) -> bool {
    match spec_strip_date(s).0 {
        Some(d) => s.take(spec_strip_date(s).1 - 1) == spec_format_date(d),
        None => true,
    }
}

/// Whether a line is written back as it was read: a done line carries no priority, and each
/// date read from it stands as `to_line` writes dates (`2026-09-01`, not `+2026-09-01`).
pub open spec fn canonical_line(l: Seq<char>) -> bool {
    let done = starts_done(l);
    let p0: int = if done { 2 } else { 0 };
    let (completed, c1) = if done { spec_strip_date(l.skip(p0)) } else { (None, 0) };
    let p1 = p0 + c1;
    let (priority, c2) = spec_strip_priority(l.skip(p1));
    let p2 = p1 + c2;
    &&& !(done && priority is Some)
    &&& done ==> date_written_canonically(l.skip(p0))
    &&& date_written_canonically(l.skip(p2))
}

/// A text whose leading date stands as `to_line` writes it is that date's part of a line,
/// then the rest.
proof fn lemma_date_split(s: Seq<char>)
    requires
        date_written_canonically(s),
    ensures
        0 <= spec_strip_date(s).1 <= s.len(),
        s == date_part(spec_strip_date(s).0) + s.skip(spec_strip_date(s).1),
{
    s.index_of_first_ensures(' ');
    if let Some(d) = spec_strip_date(s).0 {
        let i = s.index_of_first(' ').unwrap();
        assert(s =~= s.take(i) + seq![' '] + s.skip(i + 1));
    } else {
        assert(s =~= date_part(None) + s.skip(0));
    }
}

/// A canonical line is written back as it was read: what the reader does not recognise stays
/// in the description, and the marker, priority and dates it reads are written as they stood.
pub proof fn law_canonical_line_reads_back(l: Seq<char>)
    requires
        canonical_line(l),
    ensures
        spec_to_line(spec_from_line(l)) == l,
{
    let v = spec_from_line(l);
    let done = starts_done(l);
    let p0: int = if done { 2 } else { 0 };
    let (completed, c1) = if done { spec_strip_date(l.skip(p0)) } else { (None, 0) };
    let p1 = p0 + c1;
    let (priority, c2) = spec_strip_priority(l.skip(p1));
    let p2 = p1 + c2;
    if done {
        lemma_date_split(l.skip(2));
    }
    assert(0 <= p1 <= l.len());
    assert(p2 <= l.len());
    lemma_date_split(l.skip(p2));
    let (created, c3) = spec_strip_date(l.skip(p2));
    assert(l.skip(p2).skip(c3) =~= l.skip(p2 + c3));
    let tail = date_part(created) + v.description;
    assert(l.skip(p2) =~= tail);
    if done {
        assert(l.skip(2).skip(c1) =~= l.skip(p1));
        assert(c2 == 0);
        assert(l =~= seq!['x', ' '] + l.skip(2));
        assert(l =~= seq!['x', ' '] + date_part(completed) + tail);
    } else {
        assert(l.skip(0) =~= l);
        match priority {
            Some(p) => {
                assert(l =~= seq!['(', p, ')', ' '] + l.skip(4));
            },
            None => {},
        }
    }
    assert(spec_to_line(v) =~= l);
}

/// Whether a text has a character that is not white space.
pub open spec fn has_text(s: Seq<char>) -> bool {
    exists|i: int| 0 <= i < s.len() && !spec_is_blank(#[trigger] s[i])
}

/// The message of a task refused for its empty description.
pub open spec fn no_description_message() -> Seq<char> {
    seq![
        'a', ' ', 't', 'a', 's', 'k', ' ', 'n', 'e', 'e', 'd', 's', ' ', 'a', ' ', 'd', 'e', 's',
        'c', 'r', 'i', 'p', 't', 'i', 'o', 'n',
    ]
}

/// Whether the characters `s[p..e]` form a word of `s`: they hold no space and are
/// bounded by spaces or the ends of `s`.
pub open spec fn word_at(s: Seq<char>, p: int, e: int) -> bool {
    &&& 0 <= p <= e <= s.len()
    &&& p == 0 || s[p - 1] == ' '
    &&& e == s.len() || s[e] == ' '
    &&& forall|k: int| p <= k < e ==> s[k] != ' '
}

/// Whether `w` is one of the space-separated words of `s`.
pub open spec fn has_word(s: Seq<char>, w: Seq<char>) -> bool {
    exists|p: int| word_at(s, p, p + w.len()) && #[trigger] s.subrange(p, p + w.len()) == w
}

/// Whether `w` is a tag of sigil `sigil`: the sigil then at least one character.
pub open spec fn is_tag_word(w: Seq<char>, sigil: char) -> bool {
    w.len() > 1 && w[0] == sigil
}

/// Where a priority stands in a line: in brackets then a space.
fn strip_priority(cs: &[char], pos: usize) -> (r: (Option<char>, usize))
    requires
        pos <= cs@.len(),
    ensures
        (r.0, r.1 - pos) == spec_strip_priority(cs@.skip(pos as int)),
        pos <= r.1 <= cs@.len(),
{
    let ghost s = cs@.skip(pos as int);
    if cs.len() - pos >= 4 && cs[pos] == '(' && Todo::is_valid_priority(cs[pos + 1]) && cs[pos
        + 2] == ')' && cs[pos + 3] == ' ' {
        (Some(cs[pos + 1]), pos + 4)
    } else {
        (None, pos)
    }
}

/// A date up to the first space from `pos`, and where the text goes on after that space.
fn strip_date(cs: &[char], pos: usize) -> (r: (Option<Date>, usize))
    requires
        pos <= cs@.len(),
    ensures
        (r.0, r.1 - pos) == spec_strip_date(cs@.skip(pos as int)),
        pos <= r.1 <= cs@.len(),
        valid_date(r.0),
{
    let ghost s = cs@.skip(pos as int);
    proof {
        s.index_of_first_ensures(' ');
    }
    let mut i: usize = pos;
    while i < cs.len() && cs[i] != ' '
        invariant
            pos <= i <= cs@.len(),
            s == cs@.skip(pos as int),
            forall|k: int| 0 <= k < i - pos ==> s[k] != ' ',
        decreases cs@.len() - i,
    {
        i = i + 1;
    }
    if i == cs.len() {
        assert(!s.contains(' '));
        return (None, pos);
    }
    assert(s[i - pos] == ' ');
    assert(s.index_of_first(' ') == Some((i - pos) as int));
    let token = substring(cs, pos, i);
    assert(token@ =~= s.take(i - pos));
    proof {
        lemma_parsed_date_valid(token@);
    }
    match parse_date(token.as_str()) {
        Some(d) => (Some(d), i + 1),
        None => (None, pos),
    }
}

/// The message of a task refused for its empty description.
pub fn no_description() -> (r: String)
    ensures
        r@ == no_description_message(),
{
    let mut r = String::new();
    let cs = [
        'a', ' ', 't', 'a', 's', 'k', ' ', 'n', 'e', 'e', 'd', 's', ' ', 'a', ' ', 'd', 'e', 's',
        'c', 'r', 'i', 'p', 't', 'i', 'o', 'n',
    ];
    push_chars(&mut r, &cs);
    assert(r@ =~= no_description_message());
    r
}

/// Whether a text has a character that is not white space.
pub fn has_text_exec(s: &str) -> (r: bool)
    ensures
        r == has_text(s@),
{
    let cs = chars_of(s);
    let mut i: usize = 0;
    while i < cs.len()
        invariant
            cs@ == s@,
            i <= cs@.len(),
            forall|k: int| 0 <= k < i ==> spec_is_blank(#[trigger] s@[k]),
        decreases cs@.len() - i,
    {
        if !is_blank(cs[i]) {
            return true;
        }
        i = i + 1;
    }
    false
}

/// Whether `w` is one of the space-separated words of `s`.
fn has_word_exec(s: &[char], w: &[char]) -> (r: bool)
    ensures
        r == has_word(s@, w@),
{
    if w.len() > s.len() {
        return false;
    }
    let last = s.len() - w.len();
    let mut p: usize = 0;
    loop
        invariant
            last == s@.len() - w@.len(),
            p <= last,
            forall|q: int|
                0 <= q < p ==> !(word_at(s@, q, q + w@.len()) && #[trigger] s@.subrange(
                    q,
                    q + w@.len(),
                ) == w@),
        ensures
            forall|q: int|
                0 <= q <= last ==> !(word_at(s@, q, q + w@.len()) && #[trigger] s@.subrange(
                    q,
                    q + w@.len(),
                ) == w@),
        decreases last - p,
    {
        if (p == 0 || s[p - 1] == ' ') && (p + w.len() == s.len() || s[p + w.len()] == ' ') {
            let mut k: usize = 0;
            let mut same = true;
            while k < w.len()
                invariant
                    p + w@.len() <= s@.len(),
                    s@.len() == s.len(),
                    p == 0 || s@[p - 1] == ' ',
                    p + w@.len() == s@.len() || s@[p + w@.len()] == ' ',
                    k <= w@.len(),
                    same ==> forall|j: int| 0 <= j < k ==> s@[p + j] == w@[j] && w@[j] != ' ',
                    !same ==> !(word_at(s@, p as int, p + w@.len()) && s@.subrange(
                        p as int,
                        p + w@.len(),
                    ) == w@),
                decreases w@.len() - k,
            {
                if same && (s[p + k] != w[k] || w[k] == ' ') {
                    same = false;
                    assert(s@.subrange(p as int, p + w@.len())[k as int] == s@[p + k]);
                }
                k = k + 1;
            }
            if same {
                assert(s@.subrange(p as int, p + w@.len()) =~= w@);
                assert forall|q: int| p <= q < p + w@.len() implies s@[q] != ' ' by {
                    assert(s@[p + (q - p)] == w@[q - p]);
                }
                assert(word_at(s@, p as int, p + w@.len()));
                return true;
            }
        }
        if p == last {
            break;
        }
        p = p + 1;
    }
    false
}

/// The tags of `sigil` of a description: its space-separated words that are tags of `sigil`, in
/// the order they come, each as often as it comes.
pub open spec fn spec_tags(s: Seq<char>, sigil: char) -> Seq<Seq<char>> {
    words_of(s).filter(|w: Seq<char>| is_tag_word(w, sigil))
}

/// The words of `s` that are tags of `sigil`.
#[verifier::spinoff_prover]
fn tags_exec(s: &[char], sigil: char) -> (r: Vec<String>)
    ensures
        texts(r@) == spec_tags(s@, sigil),
        forall|i: int| 0 <= i < r@.len() ==> is_tag_word(#[trigger] r@[i]@, sigil) && has_word(
            s@,
            r@[i]@,
        ),
        forall|w: Seq<char>|
            is_tag_word(w, sigil) && has_word(s@, w) ==> exists|i: int|
                0 <= i < r@.len() && #[trigger] r@[i]@ == w,
{
    let ghost pred = |w: Seq<char>| is_tag_word(w, sigil);
    let ghost mut completed: Seq<Seq<char>> = Seq::empty();
    let mut r: Vec<String> = Vec::new();
    let mut start: usize = 0;
    let mut i: usize = 0;
    assert(s@.take(0) =~= Seq::<char>::empty());
    assert(s@.subrange(0, 0) =~= Seq::<char>::empty());
    loop
        invariant_except_break
            words_of(s@.take(i as int)) == completed.push(s@.subrange(start as int, i as int)),
            texts(r@) == completed.filter(pred),
        invariant
            start <= i <= s@.len(),
            start == 0 || s@[start - 1] == ' ',
            forall|k: int| start <= k < i ==> s@[k] != ' ',
            forall|j: int| 0 <= j < r@.len() ==> is_tag_word(#[trigger] r@[j]@, sigil) && has_word(
                s@,
                r@[j]@,
            ),
            forall|p: int, e: int|
                word_at(s@, p, e) && e < start && is_tag_word(s@.subrange(p, e), sigil) ==> exists|
                    j: int,
                | 0 <= j < r@.len() && #[trigger] r@[j]@ == s@.subrange(p, e),
            pred == (|w: Seq<char>| is_tag_word(w, sigil)),
        ensures
            texts(r@) == spec_tags(s@, sigil),
            forall|j: int| 0 <= j < r@.len() ==> is_tag_word(#[trigger] r@[j]@, sigil) && has_word(
                s@,
                r@[j]@,
            ),
            forall|p: int, e: int|
                word_at(s@, p, e) && is_tag_word(s@.subrange(p, e), sigil) ==> exists|j: int|
                    0 <= j < r@.len() && #[trigger] r@[j]@ == s@.subrange(p, e),
        decreases s@.len() - i,
    {
        let at_end = i == s.len();
        if at_end || s[i] == ' ' {
            let ghost before = r@;
            let ghost w = s@.subrange(start as int, i as int);
            if i - start > 1 && s[start] == sigil {
                let word = substring(s, start, i);
                proof {
                    assert(word_at(s@, start as int, i as int));
                    assert(s@.subrange(start as int, start + word@.len()) == word@);
                }
                r.push(word);
            }
            proof {
                completed.lemma_filter_push(w, pred);
                assert(texts(r@) =~= completed.push(w).filter(pred));
                assert forall|p: int, e: int|
                    word_at(s@, p, e) && e <= i && is_tag_word(s@.subrange(p, e), sigil) implies exists|
                        j: int,
                    | 0 <= j < r@.len() && #[trigger] r@[j]@ == s@.subrange(p, e) by {
                    if e < start {
                        let j = choose|j: int| 0 <= j < before.len() && #[trigger] before[j]@ == s@.subrange(p, e);
                        assert(r@[j] == before[j]);
                    } else {
                        // the word ending at or past `start` is the one just read
                        assert(e == i);
                        if p < start {
                            assert(s@[start - 1] != ' ');
                        }
                        if p > start {
                            assert(s@[p - 1] != ' ');
                        }
                        assert(p == start);
                        assert(r@[r@.len() - 1]@ == s@.subrange(p, e));
                    }
                }
            }
            if at_end {
                proof {
                    assert(s@.take(i as int) =~= s@);
                }
                break;
            }
            proof {
                let t = s@.take(i + 1);
                assert(t.drop_last() =~= s@.take(i as int));
                assert(t.last() == ' ');
                completed = completed.push(w);
                assert(s@.subrange(i + 1, i + 1) =~= Seq::<char>::empty());
            }
            start = i + 1;
        } else {
            proof {
                let t = s@.take(i + 1);
                assert(t.drop_last() =~= s@.take(i as int));
                assert(t.last() == s@[i as int]);
                assert(s@.subrange(start as int, i + 1) =~= s@.subrange(start as int, i as int).push(s@[i as int]));
            }
        }
        i = i + 1;
    }
    r
}

impl Todo {
    /// Whether the task's dates are valid, so that it can be written.
    pub open spec fn wf(&self) -> bool {
        self@.wf()
    }

    /// The todo.txt line of the task; a done task's priority is left out.
    /// A task that reads back (see `reads_back`) is read back from this line as the same task.
    pub fn to_line(&self) -> (r: String)
        requires
            self.wf(),
        ensures
            r@ == spec_to_line(self@),
            reads_back(self@) ==> spec_from_line(r@) == self@,
    {
        let mut r = String::new();
        if self.done {
            push_char(&mut r, 'x');
            push_char(&mut r, ' ');
            if let Some(d) = self.completed {
                let s = format_date(d);
                push_chars(&mut r, &chars_of(s.as_str()));
                push_char(&mut r, ' ');
            }
        } else if let Some(p) = self.priority {
            push_char(&mut r, '(');
            push_char(&mut r, p);
            push_char(&mut r, ')');
            push_char(&mut r, ' ');
        }
        if let Some(d) = self.created {
            let s = format_date(d);
            push_chars(&mut r, &chars_of(s.as_str()));
            push_char(&mut r, ' ');
        }
        push_chars(&mut r, &chars_of(self.description.as_str()));
        assert(r@ =~= spec_to_line(self@));
        proof {
            if reads_back(self@) {
                lemma_line_reads_back(self@);
            }
        }
        r
    }

    /// Reads a todo.txt line; whatever is not recognised stays in the description, which is
    /// the whole rest of the line after the marker, priority and dates that were read.
    pub fn from_line(line: &str) -> (r: Todo)
        ensures
            r@ == spec_from_line(line@),
            r.wf(),
            r.description@.len() <= line@.len(),
            r.description@ == line@.subrange(line@.len() - r.description@.len(), line@.len() as int),
    {
        let cs = chars_of(line);
        let n = cs.len();
        let done = n >= 2 && cs[0] == 'x' && cs[1] == ' ';
        let mut pos: usize = if done { 2 } else { 0 };
        let completed = if done {
            let (d, p) = strip_date(&cs, pos);
            pos = p;
            d
        } else {
            None
        };
        let (priority, p) = strip_priority(&cs, pos);
        pos = p;
        let (created, p) = strip_date(&cs, pos);
        pos = p;
        let description = substring(&cs, pos, n);
        proof {
            let l = line@;
            assert(cs@ == l);
            let d = starts_done(l);
            assert(d == done);
            let p0: int = if d { 2 } else { 0 };
            let (c, c1) = if d { spec_strip_date(l.skip(p0)) } else { (None, 0) };
            assert(c == completed);
            let p1 = p0 + c1;
            let (pr, c2) = spec_strip_priority(l.skip(p1));
            assert(pr == priority);
            let p2 = p1 + c2;
            let (cr, c3) = spec_strip_date(l.skip(p2));
            assert(cr == created);
            assert(p2 + c3 == pos);
            assert(description@ =~= l.skip(pos as int));
            assert(description@ =~= l.subrange(l.len() - description@.len(), l.len() as int));
        }
        Todo { description, done, priority, created, completed }
    }

    /// Reads the text typed for a new task, dated `today` when it carries no creation date;
    /// a text without a description is refused.
    pub fn new_from_input(text: &str, today: Date) -> (r: Result<Todo, String>)
        requires
            today.valid(),
        ensures
            match r {
                Ok(t) => {
                    let v = spec_from_line(text@);
                    &&& has_text(v.description)
                    &&& t@ == (TodoView {
                        created: if v.created is Some { v.created } else { Some(today) },
                        ..v
                    })
                    &&& t.wf()
                },
                Err(e) => !has_text(spec_from_line(text@).description) && e@
                    == no_description_message(),
            },
    {
        let mut todo = Todo::from_line(text);
        if !has_text_exec(todo.description.as_str()) {
            return Err(no_description());
        }
        if todo.created.is_none() {
            todo.created = Some(today);
        }
        Ok(todo)
    }

    /// Marks the task done on `today`, dropping its priority as todo.txt does.
    pub fn complete(&mut self, today: Date)
        ensures
            final(self)@ == (TodoView {
                done: true,
                completed: Some(today),
                priority: None,
                ..old(self)@
            }),
    {
        self.done = true;
        self.completed = Some(today);
        self.priority = None;
    }

    /// Marks the task pending again, dropping its completion date.
    pub fn reopen(&mut self)
        ensures
            final(self)@ == (TodoView { done: false, completed: None, ..old(self)@ }),
    {
        self.done = false;
        self.completed = None;
    }

    /// A copy of the task.
    pub fn copy(&self) -> (r: Todo)
        ensures
            r@ == self@,
    {
        Todo {
            description: self.description.clone(),
            done: self.done,
            priority: self.priority,
            created: self.created,
            completed: self.completed,
        }
    }

    /// Whether `word` is one of the space-separated words of the description.
    pub fn has_word(&self, word: &str) -> (r: bool)
        ensures
            r == has_word(self.description@, word@),
    {
        let d = chars_of(self.description.as_str());
        let w = chars_of(word);
        has_word_exec(&d, &w)
    }

    /// The words of the description that are tags of `sigil`: the sigil and at least one more
    /// character, in the order they come, each as often as it comes.
    pub fn tags(&self, sigil: char) -> (r: Vec<String>)
        ensures
            texts(r@) == spec_tags(self.description@, sigil),
            forall|i: int| 0 <= i < r@.len() ==> is_tag_word(#[trigger] r@[i]@, sigil) && has_word(
                self.description@,
                r@[i]@,
            ),
            forall|w: Seq<char>|
                is_tag_word(w, sigil) && has_word(self.description@, w) ==> exists|i: int|
                    0 <= i < r@.len() && #[trigger] r@[i]@ == w,
    {
        let d = chars_of(self.description.as_str());
        tags_exec(&d, sigil)
    }

    /// The `+project` words of the description.
    pub fn projects(&self) -> (r: Vec<String>)
        ensures
            texts(r@) == spec_tags(self.description@, '+'),
            forall|i: int| 0 <= i < r@.len() ==> is_tag_word(#[trigger] r@[i]@, '+') && has_word(
                self.description@,
                r@[i]@,
            ),
            forall|w: Seq<char>|
                is_tag_word(w, '+') && has_word(self.description@, w) ==> exists|i: int|
                    0 <= i < r@.len() && #[trigger] r@[i]@ == w,
    {
        self.tags('+')
    }

    /// The `@context` words of the description.
    pub fn contexts(&self) -> (r: Vec<String>)
        ensures
            texts(r@) == spec_tags(self.description@, '@'),
            forall|i: int| 0 <= i < r@.len() ==> is_tag_word(#[trigger] r@[i]@, '@') && has_word(
                self.description@,
                r@[i]@,
            ),
            forall|w: Seq<char>|
                is_tag_word(w, '@') && has_word(self.description@, w) ==> exists|i: int|
                    0 <= i < r@.len() && #[trigger] r@[i]@ == w,
    {
        self.tags('@')
    }

    /// Whether `c` is a priority letter, `A` to `E`.
    pub fn is_valid_priority(c: char) -> (r: bool)
        ensures
            r == spec_is_valid_priority(c),
    {
        'A' <= c && c <= 'E'
    }
}

} // verus!

//! The loop of the interactive list, as decisions on plain values: what to do with the file
//! as just read and the input just received, and with a save that failed. The front end reads
//! the file and the terminal, writes the file, and hands the results back.

use vstd::prelude::*;

use crate::date::Date;
use crate::editor::Key;
use crate::repository::{parse_todos, render, spec_parse, spec_render};
use crate::store::Store;
use crate::text::{chars_of, push_chars};
use crate::history::history_distinct;
use crate::tui::{App, AppView, app_step, paste_step, reload_step};

verus! {

/// What the terminal gave since the last turn of the loop.
pub enum Input {
    /// Nothing, in the time the loop waits.
    Nothing,
    /// A key pressed.
    Key(Key),
    /// Text pasted.
    Paste(String),
}

/// Whether two texts are the same.
pub fn same_text(a: &str, b: &str) -> (r: bool)
    ensures
        r == (a@ == b@),
{
    let x = chars_of(a);
    let y = chars_of(b);
    if x.len() != y.len() {
        return false;
    }
    let mut i: usize = 0;
    while i < x.len()
        invariant
            x@ == a@,
            y@ == b@,
            x@.len() == y@.len(),
            i <= x@.len(),
            forall|k: int| 0 <= k < i ==> x@[k] == y@[k],
        decreases x@.len() - i,
    {
        if x[i] != y[i] {
            return false;
        }
        i = i + 1;
    }
    assert(a@ =~= b@);
    true
}

/// A turn of the loop: when the file as just read (`None` when it could not be read) differs
/// from the text last read or written, the list is reloaded from it and the input ignored;
/// else the input acts. The result is the text to write when the list changed.
pub open spec fn spec_turn(a: AppView, known: Seq<char>, disk: Option<Seq<char>>, input: InputView, today: Date) -> (
    AppView,
    Seq<char>,
    bool,
) {
    match disk {
        Some(d) if d != known => (reload_step(a, spec_parse(d)), d, false),
        _ => match input {
            InputView::Key(k) => {
                let (b, write) = app_step(a, k, today);
                (b, known, write)
            },
            InputView::Paste(p) => (paste_step(a, p), known, false),
            InputView::Nothing => (a, known, false),
        },
    }
}

/// An input as a mathematical value.
pub enum InputView {
    Nothing,
    Key(Key),
    Paste(Seq<char>),
}

impl View for Input {
    type V = InputView;

    open spec fn view(&self) -> InputView {
        match self {
            Input::Nothing => InputView::Nothing,
            Input::Key(k) => InputView::Key(*k),
            Input::Paste(p) => InputView::Paste(p@),
        }
    }
}

/// One turn of the loop, dated `today`: `known` is the file's text as last read or written,
/// `disk` the file as just read, or `None` when it could not be read. Gives the text to write
/// when the list changed; the front end writes it and keeps it as the text last written.
pub fn turn(app: &mut App, known: &mut String, disk: Option<String>, input: Input, today: Date) -> (r: Option<String>)
    requires
        old(app).wf(),
        today.valid(),
    ensures
        final(app).wf(),
        history_distinct(old(app)@) ==> history_distinct(final(app)@),
        ({
            let (b, k, write) = spec_turn(old(app)@, old(known)@, match disk {
                Some(d) => Some(d@),
                None => None,
            }, input@, today);
            &&& final(app)@ == b
            &&& final(known)@ == k
            &&& match r {
                Some(t) => write && t@ == spec_render(b.todos),
                None => !write,
            }
        }),
{
    if let Some(d) = disk {
        if !same_text(d.as_str(), known.as_str()) {
            let todos = parse_todos(d.as_str());
            app.reload(Store::new(todos));
            *known = d;
            return None;
        }
    }
    match input {
        Input::Key(k) => {
            if app.handle_key(k, today) {
                proof {
                    crate::tui::lemma_list_wf(app.store.todos@);
                }
                let text = render(&app.store.todos);
                Some(text)
            } else {
                None
            }
        },
        Input::Paste(p) => {
            app.paste(p.as_str());
            None
        },
        Input::Nothing => None,
    }
}

/// The message of a save that failed: `could not save:`, the error, and that the file was left
/// unchanged.
pub open spec fn save_failed_message(error: Seq<char>) -> Seq<char> {
    seq!['c', 'o', 'u', 'l', 'd', ' ', 'n', 'o', 't', ' ', 's', 'a', 'v', 'e', ':', ' '] + error
        + seq![' ', '(', 'f', 'i', 'l', 'e', ' ', 'l', 'e', 'f', 't', ' ', 'u', 'n', 'c', 'h', 'a', 'n', 'g', 'e', 'd', ')']
}

/// After a save that failed with `error`: the list is reloaded from the file as read again
/// (`None` when it could not be read), and the message says the file was left unchanged. The
/// text last read or written stays as it was.
pub fn save_failed(app: &mut App, disk: Option<String>, error: &str)
    requires
        old(app).wf(),
    ensures
        final(app).wf(),
        history_distinct(old(app)@) ==> history_distinct(final(app)@),
        ({
            let a = match disk {
                Some(d) => reload_step(old(app)@, spec_parse(d@)),
                None => old(app)@,
            };
            final(app)@ == AppView { message: Some(save_failed_message(error@)), ..a }
        }),
{
    if let Some(d) = disk {
        let todos = parse_todos(d.as_str());
        app.reload(Store::new(todos));
    }
    let mut m = String::new();
    push_chars(&mut m, &['c', 'o', 'u', 'l', 'd', ' ', 'n', 'o', 't', ' ', 's', 'a', 'v', 'e', ':', ' ']);
    push_chars(&mut m, &chars_of(error));
    push_chars(&mut m, &[' ', '(', 'f', 'i', 'l', 'e', ' ', 'l', 'e', 'f', 't', ' ', 'u', 'n', 'c', 'h', 'a', 'n', 'g', 'e', 'd', ')']);
    assert(m@ =~= save_failed_message(error@));
    app.message = Some(m);
}

} // verus!

//! What holds of the interactive list: its rows are those of `todo list`, changes can be
//! undone and redone, a key that does not write leaves the list alone, and the cursor and the
//! folds stay on screen.

use vstd::prelude::*;

use crate::date::Date;
use crate::store::{is_listing, lemma_is_listing_of, lemma_listing_exists, selected};
use crate::date::lemma_digits;
use crate::todo::{TodoView, date_part, spec_to_line};
use crate::text::spec_split_blank;
use crate::editor::{Key, KeyCode, sat_dec};
use crate::tui::{
    AppView, FocusView, Row, Target, app_step, delete_step, grouped, has_group, is_ctrl_c,
    key_priority, lemma_rows_upto_tasks, list_char_step, list_step, panel_step, popup_step,
    search_step, set_priority_step, shown, toggle_done_step,
};

verus! {

/// Without a panel word, the tasks on screen are those `todo list` shows for the search's
/// terms, with the same numbers and in the same order.
pub proof fn law_screen_is_the_listing(a: AppView, numbers: Seq<usize>)
    requires
        a.filter is None,
        is_listing(a.todos, a.show_done, spec_split_blank(a.search), numbers),
    ensures
        a.tasks() == numbers,
{
    let keep = |i: int| selected(a.todos, a.show_done, spec_split_blank(a.search), i);
    assert(shown(a.todos, a.show_done, a.search, a.filter) =~= keep);
    lemma_is_listing_of(a.todos, keep, numbers);
}

/// The priority letter that key `c` gives after `p`: `a` to `e` give `A` to `E`.
pub open spec fn upper(c: char) -> char {
    ((c as int) - 32) as char
}

/// `p` then a letter from `a` to `e` gives the task under the cursor, when it is pending, the
/// same letter in upper case as its priority, and changes nothing else in the list.
pub proof fn law_p_then_letter_sets_the_priority(a: AppView, n: usize, c: char, today: Date)
    requires
        a.focus == FocusView::List,
        a.pending == Some('p'),
        'a' <= c <= 'e',
        a.selected_task() == Some(n),
        !a.todos[n - 1].done,
        a.todos.len() <= usize::MAX,
    ensures
        app_step(a, Key { code: KeyCode::Char(c), ctrl: false }, today).0.todos.len()
            == a.todos.len(),
        app_step(a, Key { code: KeyCode::Char(c), ctrl: false }, today).0.todos[n - 1].priority
            == Some(upper(c)),
        app_step(a, Key { code: KeyCode::Char(c), ctrl: false }, today).0.todos[n - 1].description
            == a.todos[n - 1].description,
        app_step(a, Key { code: KeyCode::Char(c), ctrl: false }, today).0.todos[n - 1].created
            == a.todos[n - 1].created,
        forall|i: int|
            0 <= i < a.todos.len() && i != n - 1 ==> #[trigger] app_step(
                a,
                Key { code: KeyCode::Char(c), ctrl: false },
                today,
            ).0.todos[i] == a.todos[i],
{
    lemma_selected_in_range(a);
    let a0 = AppView { pending: None, message: None, ..a };
    assert(a0.selected_task() == Some(n));
    assert(upper('a') == 'A' && upper('b') == 'B' && upper('c') == 'C' && upper('d') == 'D'
        && upper('e') == 'E');
}

/// `p` then Space takes the priority off the task under the cursor, when it is pending, and
/// changes nothing else in the list.
pub proof fn law_p_then_space_clears_the_priority(a: AppView, n: usize, today: Date)
    requires
        a.focus == FocusView::List,
        a.pending == Some('p'),
        a.selected_task() == Some(n),
        !a.todos[n - 1].done,
        a.todos.len() <= usize::MAX,
    ensures
        app_step(a, Key { code: KeyCode::Char(' '), ctrl: false }, today).0.todos.len()
            == a.todos.len(),
        app_step(a, Key { code: KeyCode::Char(' '), ctrl: false }, today).0.todos[n - 1].priority
            is None,
        forall|i: int|
            0 <= i < a.todos.len() && i != n - 1 ==> #[trigger] app_step(
                a,
                Key { code: KeyCode::Char(' '), ctrl: false },
                today,
            ).0.todos[i] == a.todos[i],
{
    lemma_selected_in_range(a);
    let a0 = AppView { pending: None, message: None, ..a };
    assert(a0.selected_task() == Some(n));
}

/// `x` on a pending task marks it done on `today` and drops its priority; on a done task it
/// marks it pending again and drops only its completion date. Either way its description and
/// creation date stay, and no other task changes.
pub proof fn law_x_toggles_the_task_under_the_cursor(a: AppView, n: usize, today: Date)
    requires
        a.focus == FocusView::List,
        a.selected_task() == Some(n),
        a.todos.len() <= usize::MAX,
    ensures
        ({
            let b = app_step(a, Key { code: KeyCode::Char('x'), ctrl: false }, today).0;
            let t = a.todos[n - 1];
            let u = b.todos[n - 1];
            &&& b.todos.len() == a.todos.len()
            &&& u.done == !t.done
            &&& u.description == t.description
            &&& u.created == t.created
            &&& t.done ==> u.completed is None && u.priority == t.priority
            &&& !t.done ==> u.completed == Some(today) && u.priority is None
            &&& forall|i: int| 0 <= i < a.todos.len() && i != n - 1 ==> #[trigger] b.todos[i]
                == a.todos[i]
        }),
{
    lemma_selected_in_range(a);
    let a0 = AppView { pending: None, message: None, ..a };
    assert(a0.selected_task() == Some(n));
}

/// `dd` removes the task under the cursor from the list, the others keeping their order.
pub proof fn law_dd_removes_the_task_under_the_cursor(a: AppView, n: usize, today: Date)
    requires
        a.focus == FocusView::List,
        a.pending == Some('d'),
        a.selected_task() == Some(n),
        a.todos.len() <= usize::MAX,
    ensures
        app_step(a, Key { code: KeyCode::Char('d'), ctrl: false }, today).1,
        app_step(a, Key { code: KeyCode::Char('d'), ctrl: false }, today).0.todos.len() + 1
            == a.todos.len(),
        forall|i: int|
            0 <= i < n - 1 ==> #[trigger] app_step(
                a,
                Key { code: KeyCode::Char('d'), ctrl: false },
                today,
            ).0.todos[i] == a.todos[i],
        forall|i: int|
            n - 1 <= i < a.todos.len() - 1 ==> #[trigger] app_step(
                a,
                Key { code: KeyCode::Char('d'), ctrl: false },
                today,
            ).0.todos[i] == a.todos[i + 1],
{
    lemma_selected_in_range(a);
    let a0 = AppView { pending: None, message: None, ..a };
    assert(a0.selected_task() == Some(n));
}

/// Enter in the popup adding a task appends the typed line as a new task, its own fields kept,
/// dated `today` when it carries no creation date; without a panel word nothing is added to
/// its description.
pub proof fn law_enter_adds_the_typed_task(
    a: AppView,
    e: crate::editor::EditorView,
    today: Date,
)
    requires
        a.focus == FocusView::Popup(e, Target::Add),
        a.filter is None,
        crate::todo::has_text(crate::todo::spec_from_line(e.text).description),
    ensures
        ({
            let b = app_step(a, Key { code: KeyCode::Enter, ctrl: false }, today);
            let v = crate::todo::spec_from_line(e.text);
            let t = b.0.todos.last();
            &&& b.1
            &&& b.0.todos.len() == a.todos.len() + 1
            &&& forall|i: int| 0 <= i < a.todos.len() ==> #[trigger] b.0.todos[i] == a.todos[i]
            &&& t.description == v.description
            &&& t.done == v.done
            &&& t.priority == v.priority
            &&& t.completed == v.completed
            &&& t.created == (if v.created is Some { v.created } else { Some(today) })
            &&& b.0.focus == FocusView::List
        }),
{
}

/// Enter in the popup editing task `n` replaces that task with the line as typed, when the
/// line has a description and differs from the task's line, and changes no other task.
pub proof fn law_enter_saves_the_edited_line(
    a: AppView,
    e: crate::editor::EditorView,
    n: usize,
    today: Date,
)
    requires
        a.focus == FocusView::Popup(e, Target::Edit(n)),
        1 <= n <= a.todos.len(),
        crate::todo::has_text(crate::todo::spec_from_line(e.text).description),
        spec_to_line(crate::todo::spec_from_line(e.text)) != spec_to_line(a.todos[n - 1]),
    ensures
        ({
            let b = app_step(a, Key { code: KeyCode::Enter, ctrl: false }, today);
            &&& b.1
            &&& b.0.todos.len() == a.todos.len()
            &&& b.0.todos[n - 1] == crate::todo::spec_from_line(e.text)
            &&& forall|i: int| 0 <= i < a.todos.len() && i != n - 1 ==> #[trigger] b.0.todos[i]
                == a.todos[i]
        }),
{
}

/// The key `u`.
pub open spec fn undo_key() -> Key {
    Key { code: KeyCode::Char('u'), ctrl: false }
}

/// The key Control-R.
pub open spec fn redo_key() -> Key {
    Key { code: KeyCode::Char('r'), ctrl: true }
}

/// Whether `key` undoes or redoes in state `a`: `u` or Control-R in the list.
pub open spec fn is_history_key(a: AppView, key: Key) -> bool {
    &&& a.focus == FocusView::List
    &&& !is_ctrl_c(key)
    &&& (key.code == KeyCode::Char('u') || (key.code == KeyCode::Char('r') && key.ctrl))
}

/// `u` in the list brings back the list before the last change, keeping the current one for
/// redo, and Control-R right after brings the list and its whole history back as they were.
pub proof fn law_undo_then_redo(a: AppView, today: Date)
    requires
        a.focus == FocusView::List,
        a.undo.len() > 0,
    ensures
        app_step(a, undo_key(), today).1,
        app_step(a, undo_key(), today).0.todos == a.undo.last(),
        app_step(a, undo_key(), today).0.undo == a.undo.drop_last(),
        app_step(a, undo_key(), today).0.redo == a.redo.push(a.todos),
        app_step(app_step(a, undo_key(), today).0, redo_key(), today).0.todos == a.todos,
        app_step(app_step(a, undo_key(), today).0, redo_key(), today).0.undo == a.undo,
        app_step(app_step(a, undo_key(), today).0, redo_key(), today).0.redo == a.redo,
{
    let b = app_step(a, undo_key(), today).0;
    assert(b.focus == FocusView::List);
    assert(b.pending is None);
    assert(a.undo.drop_last().push(a.undo.last()) =~= a.undo);
    assert(a.redo.push(a.todos).drop_last() =~= a.redo);
}

/// Control-R in the list brings back the list last undone, keeping the current one for undo,
/// and `u` right after brings the list and its whole history back as they were.
pub proof fn law_redo_then_undo(a: AppView, today: Date)
    requires
        a.focus == FocusView::List,
        a.redo.len() > 0,
    ensures
        app_step(a, redo_key(), today).1,
        app_step(a, redo_key(), today).0.todos == a.redo.last(),
        app_step(a, redo_key(), today).0.redo == a.redo.drop_last(),
        app_step(a, redo_key(), today).0.undo == a.undo.push(a.todos),
        app_step(app_step(a, redo_key(), today).0, undo_key(), today).0.todos == a.todos,
        app_step(app_step(a, redo_key(), today).0, undo_key(), today).0.undo == a.undo,
        app_step(app_step(a, redo_key(), today).0, undo_key(), today).0.redo == a.redo,
{
    let b = app_step(a, redo_key(), today).0;
    assert(b.focus == FocusView::List);
    assert(b.pending is None);
    assert(a.redo.drop_last().push(a.redo.last()) =~= a.redo);
    assert(a.undo.push(a.todos).drop_last() =~= a.undo);
}

/// A key that rewrites the file with a change of its own, that is any but undo and redo,
/// keeps the list as it was for `u`, leaves nothing to redo and comes back to the list, so
/// that `u` right after brings the list before the change back.
#[verifier::spinoff_prover]
pub proof fn law_change_can_be_undone(a: AppView, key: Key, today: Date)
    requires
        app_step(a, key, today).1,
        !is_history_key(a, key),
    ensures
        app_step(a, key, today).0.undo == a.undo.push(a.todos),
        app_step(a, key, today).0.redo == Seq::<Seq<crate::todo::TodoView>>::empty(),
        app_step(a, key, today).0.focus == FocusView::List,
        app_step(app_step(a, key, today).0, undo_key(), today).0.todos == a.todos,
{
    let b = app_step(a, key, today).0;
    assert(b.focus == FocusView::List);
    assert(b.undo == a.undo.push(a.todos));
    assert(b.undo.last() == a.todos);
}

/// Whether two states hold the same list and history.
pub open spec fn same_lists(a: AppView, b: AppView) -> bool {
    a.todos == b.todos && a.undo == b.undo && a.redo == b.redo
}

/// A character key in the list that does not rewrite the file leaves the list and history
/// alone.
proof fn lemma_list_char_no_write(a: AppView, pending: Option<char>, c: char, ctrl: bool, today: Date)
    requires
        !list_char_step(a, pending, c, ctrl, today).1,
    ensures
        same_lists(list_char_step(a, pending, c, ctrl, today).0, a),
{
}

/// A key in the list that does not rewrite the file leaves the list and history alone.
proof fn lemma_list_no_write(a: AppView, pending: Option<char>, key: Key, today: Date)
    requires
        !list_step(a, pending, key, today).1,
    ensures
        same_lists(list_step(a, pending, key, today).0, a),
{
    if is_ctrl_c(key) {
    } else if pending == Some('p') && key.code is Char && key_priority(key.code->0) is Some {
    } else if pending == Some('z') && (key.code == KeyCode::Char('M') || key.code
        == KeyCode::Char('R') || key.code == KeyCode::Char('a')) {
    } else {
        match key.code {
            KeyCode::Char(c) => lemma_list_char_no_write(a, pending, c, key.ctrl, today),
            _ => {},
        }
    }
}

/// A key that does not rewrite the file changes neither the list nor its history.
#[verifier::spinoff_prover]
pub proof fn law_no_write_no_change(a: AppView, key: Key, today: Date)
    requires
        !app_step(a, key, today).1,
    ensures
        app_step(a, key, today).0.todos == a.todos,
        app_step(a, key, today).0.undo == a.undo,
        app_step(a, key, today).0.redo == a.redo,
{
    let a0 = AppView { pending: None, message: None, ..a };
    match a.focus {
        FocusView::List => lemma_list_no_write(a0, a.pending, key, today),
        FocusView::Popup(e, t) => {
            assert(same_lists(popup_step(a0, e, t, key, today).0, a0));
        },
        FocusView::Search => {
            assert(same_lists(search_step(a0, key), a0));
        },
        FocusView::Panel => {
            assert(same_lists(panel_step(a0, key), a0));
        },
        FocusView::Help => {},
    }
}

/// Where a row is on screen, when it is, is a row of the screen.
proof fn lemma_locate(a: AppView, row: Row)
    ensures
        a.locate(row) matches Some(i) ==> 0 <= i < a.rows().len(),
{
    a.rows().index_of_first_ensures(row);
}

/// A key in the list leaves the cursor at or after the top.
proof fn lemma_list_cursor(a: AppView, pending: Option<char>, key: Key, today: Date)
    requires
        a.cursor >= 0,
        forall|x: AppView, row: Row| #[trigger] x.locate(row) is Some ==> 0 <= x.locate(row).unwrap(),
    ensures
        list_step(a, pending, key, today).0.cursor >= 0,
{
}

/// After any key, the cursor stands on a row, or at the top when nothing is on screen, and
/// every folded group is on screen.
#[verifier::spinoff_prover]
pub proof fn law_cursor_and_folds_on_screen(a: AppView, key: Key, today: Date)
    requires
        a.cursor >= 0,
    ensures
        0 <= app_step(a, key, today).0.cursor <= sat_dec(app_step(a, key, today).0.rows().len() as int),
        forall|k: int|
            0 <= k < app_step(a, key, today).0.folded.len() ==> has_group(
                app_step(a, key, today).0.groups(),
                #[trigger] app_step(a, key, today).0.folded[k],
            ),
{
    assert forall|x: AppView, row: Row| #[trigger] x.locate(row) is Some implies 0 <= x.locate(row).unwrap() by {
        lemma_locate(x, row);
    }
    let a0 = AppView { pending: None, message: None, ..a };
    match a.focus {
        FocusView::List => lemma_list_cursor(a0, a.pending, key, today),
        _ => {},
    }
}

/// The todo.txt lines of a list.
pub open spec fn lines_of(todos: Seq<TodoView>) -> Seq<Seq<char>> {
    todos.map_values(|t: TodoView| spec_to_line(t))
}

/// Whether each list of the history differs in its lines from the one after it, the list on
/// screen coming after the last list kept for undo and after the last one kept for redo.
pub open spec fn history_distinct(a: AppView) -> bool {
    &&& forall|i: int| 0 <= i < a.undo.len() - 1 ==> lines_of(#[trigger] a.undo[i]) != lines_of(a.undo[i + 1])
    &&& a.undo.len() > 0 ==> lines_of(a.undo.last()) != lines_of(a.todos)
    &&& forall|i: int| 0 <= i < a.redo.len() - 1 ==> lines_of(#[trigger] a.redo[i]) != lines_of(a.redo[i + 1])
    &&& a.redo.len() > 0 ==> lines_of(a.redo.last()) != lines_of(a.todos)
}

/// The task under the cursor, when there is one, is a task of the list.
proof fn lemma_selected_in_range(a: AppView)
    requires
        a.todos.len() <= usize::MAX,
    ensures
        a.selected_task() matches Some(n) ==> 1 <= n <= a.todos.len(),
{
    lemma_listing_exists(a.todos, shown(a.todos, a.show_done, a.search, a.filter));
    let tasks = a.tasks();
    lemma_rows_upto_tasks(a.todos, tasks, a.folded, grouped(a.todos, tasks), tasks.len() as int);
    if let Some(n) = a.selected_task() {
        assert(a.rows()[a.cursor] == Row::Task(n));
        assert(tasks.contains(n));
        let k = choose|k: int| 0 <= k < tasks.len() && tasks[k] == n;
        assert(1 <= tasks[k] <= a.todos.len());
    }
}

/// A written date takes ten characters, eleven with the sign of a year before 1.
proof fn lemma_date_part_len(d: Option<crate::date::Date>)
    ensures
        d is None ==> date_part(d).len() == 0,
        d is Some ==> date_part(d).len() == 11 || date_part(d).len() == 12,
{
    if let Some(x) = d {
        let y = x.year as int;
        let a = if y < 0 { -y } else { y };
        lemma_digits(a as nat, 4);
        lemma_digits(x.month as nat, 2);
        lemma_digits(x.day as nat, 2);
    }
}

/// Two lists that differ in the line at `i` differ in their lines.
proof fn lemma_lines_differ_at(x: Seq<TodoView>, y: Seq<TodoView>, i: int)
    requires
        0 <= i < x.len(),
        x.len() == y.len(),
        spec_to_line(x[i]) != spec_to_line(y[i]),
    ensures
        lines_of(x) != lines_of(y),
{
    assert(lines_of(x)[i] != lines_of(y)[i]);
}

/// Lists of different lengths differ in their lines.
proof fn lemma_lines_differ_len(x: Seq<TodoView>, y: Seq<TodoView>)
    requires
        x.len() != y.len(),
    ensures
        lines_of(x) != lines_of(y),
{
    assert(lines_of(x).len() != lines_of(y).len());
}

/// How long a task's line is: its marker and completion date or its priority, its creation
/// date, and its description.
proof fn lemma_line_len(t: TodoView)
    ensures
        spec_to_line(t).len() == (if t.done {
            2 + date_part(t.completed).len() as int
        } else if t.priority is Some {
            4int
        } else {
            0int
        }) + date_part(t.created).len() + t.description.len(),
{
}

/// Marking a task done or pending again changes its line.
proof fn lemma_toggle_changes_line(t: TodoView, today: crate::date::Date)
    ensures
        ({
            let u = if t.done {
                TodoView { done: false, completed: None, ..t }
            } else {
                TodoView { done: true, completed: Some(today), priority: None, ..t }
            };
            spec_to_line(u) != spec_to_line(t)
        }),
{
    lemma_date_part_len(t.created);
    lemma_date_part_len(t.completed);
    lemma_date_part_len(Some(today));
    let u = if t.done {
        TodoView { done: false, completed: None, ..t }
    } else {
        TodoView { done: true, completed: Some(today), priority: None, ..t }
    };
    lemma_line_len(t);
    lemma_line_len(u);
}

/// Giving a pending task another priority changes its line.
proof fn lemma_priority_changes_line(t: TodoView, p: Option<char>)
    requires
        !t.done,
        t.priority != p,
    ensures
        spec_to_line(TodoView { priority: p, ..t }) != spec_to_line(t),
{
    let u = TodoView { priority: p, ..t };
    lemma_line_len(t);
    lemma_line_len(u);
    let rest = date_part(t.created) + t.description;
    if let (Some(x), Some(y)) = (p, t.priority) {
        assert(spec_to_line(u) =~= seq!['(', x, ')', ' '] + rest);
        assert(spec_to_line(t) =~= seq!['(', y, ')', ' '] + rest);
        assert(spec_to_line(u)[1] == x);
        assert(spec_to_line(t)[1] == y);
    }
}

/// A key in the list that writes, other than undo and redo, changes the lines.
proof fn lemma_list_change(a: AppView, pending: Option<char>, key: Key, today: Date)
    requires
        a.todos.len() <= usize::MAX,
        list_step(a, pending, key, today).1,
        !(key.code == KeyCode::Char('u') || (key.code == KeyCode::Char('r') && key.ctrl)),
    ensures
        lines_of(list_step(a, pending, key, today).0.todos) != lines_of(a.todos),
{
    lemma_selected_in_range(a);
    if let Some(n) = a.selected_task() {
        let t = a.todos[n - 1];
        lemma_toggle_changes_line(t, today);
        if pending == Some('p') && key.code is Char && key_priority(key.code->0) is Some {
            let p = key_priority(key.code->0).unwrap();
            if !t.done && t.priority != p {
                lemma_priority_changes_line(t, p);
                let b = a.recorded();
                let u = b.todos.update(n - 1, TodoView { priority: p, ..t });
                lemma_lines_differ_at(u, a.todos, n - 1);
                assert(set_priority_step(a, p).0.todos == u);
            }
        } else {
            let u = if t.done {
                TodoView { done: false, completed: None, ..t }
            } else {
                TodoView { done: true, completed: Some(today), priority: None, ..t }
            };
            lemma_lines_differ_at(a.todos.update(n - 1, u), a.todos, n - 1);
            lemma_lines_differ_len(a.todos.remove(n - 1), a.todos);
            assert(toggle_done_step(a, today).0.todos == a.todos.update(n - 1, u));
            assert(delete_step(a).0.todos == a.todos.remove(n - 1));
        }
    }
}

/// A key in the popup that writes changes the lines.
proof fn lemma_popup_change(a: AppView, e: crate::editor::EditorView, target: Target, key: Key, today: Date)
    requires
        target matches Target::Edit(n) ==> 1 <= n <= a.todos.len(),
        popup_step(a, e, target, key, today).1,
    ensures
        lines_of(popup_step(a, e, target, key, today).0.todos) != lines_of(a.todos),
{
    let (e2, out) = crate::editor::spec_handle_key(e, key);
    let b = popup_step(a, e, target, key, today).0;
    match target {
        Target::Add => {
            assert(b.todos.len() == a.todos.len() + 1);
            lemma_lines_differ_len(b.todos, a.todos);
        },
        Target::Edit(n) => {
            let v = crate::todo::spec_from_line(e2.text);
            assert(b.todos == a.todos.update(n - 1, v));
            lemma_lines_differ_at(a.todos.update(n - 1, v), a.todos, n - 1);
        },
    }
}

/// Whether a key rewrote the file: that happens exactly when the todo.txt lines of the list
/// changed, as long as each list of the history differs from the one after it, which every
/// key keeps.
pub proof fn law_write_iff_lines_change(a: AppView, key: Key, today: Date)
    requires
        a.wf(),
        history_distinct(a),
        a.todos.len() <= usize::MAX,
    ensures
        app_step(a, key, today).1 <==> lines_of(app_step(a, key, today).0.todos) != lines_of(a.todos),
        history_distinct(app_step(a, key, today).0),
{
    let (b, write) = app_step(a, key, today);
    if !write {
        law_no_write_no_change(a, key, today);
    } else if !is_history_key(a, key) {
        law_change_can_be_undone(a, key, today);
        let a0 = AppView { pending: None, message: None, ..a };
        match a.focus {
            FocusView::List => lemma_list_change(a0, a.pending, key, today),
            FocusView::Popup(e, t) => lemma_popup_change(a0, e, t, key, today),
            _ => {},
        }
        assert(b.undo.last() == a.todos);
        assert(b.undo.drop_last() == a.undo);
        assert forall|i: int| 0 <= i < b.undo.len() - 1 implies lines_of(#[trigger] b.undo[i]) != lines_of(b.undo[i + 1]) by {
            if i < a.undo.len() - 1 {
                assert(b.undo[i] == a.undo[i] && b.undo[i + 1] == a.undo[i + 1]);
            } else {
                assert(b.undo[i] == a.undo.last() && b.undo[i + 1] == a.todos);
            }
        }
    } else {
        let a0 = AppView { pending: None, message: None, ..a };
        if key.code == KeyCode::Char('u') {
            assert(b.todos == a.undo.last());
            assert(b.undo == a.undo.drop_last());
            assert(b.redo == a.redo.push(a.todos));
            assert forall|i: int| 0 <= i < b.undo.len() - 1 implies lines_of(#[trigger] b.undo[i]) != lines_of(b.undo[i + 1]) by {
                assert(b.undo[i] == a.undo[i] && b.undo[i + 1] == a.undo[i + 1]);
            }
            if b.undo.len() > 0 {
                assert(b.undo.last() == a.undo[a.undo.len() - 2]);
            }
            assert forall|i: int| 0 <= i < b.redo.len() - 1 implies lines_of(#[trigger] b.redo[i]) != lines_of(b.redo[i + 1]) by {
                if i < a.redo.len() - 1 {
                    assert(b.redo[i] == a.redo[i] && b.redo[i + 1] == a.redo[i + 1]);
                } else {
                    assert(b.redo[i] == a.redo.last() && b.redo[i + 1] == a.todos);
                }
            }
        } else {
            assert(b.todos == a.redo.last());
            assert(b.redo == a.redo.drop_last());
            assert(b.undo == a.undo.push(a.todos));
            assert forall|i: int| 0 <= i < b.redo.len() - 1 implies lines_of(#[trigger] b.redo[i]) != lines_of(b.redo[i + 1]) by {
                assert(b.redo[i] == a.redo[i] && b.redo[i + 1] == a.redo[i + 1]);
            }
            if b.redo.len() > 0 {
                assert(b.redo.last() == a.redo[a.redo.len() - 2]);
            }
            assert forall|i: int| 0 <= i < b.undo.len() - 1 implies lines_of(#[trigger] b.undo[i]) != lines_of(b.undo[i + 1]) by {
                if i < a.undo.len() - 1 {
                    assert(b.undo[i] == a.undo[i] && b.undo[i + 1] == a.undo[i + 1]);
                } else {
                    assert(b.undo[i] == a.undo.last() && b.undo[i + 1] == a.todos);
                }
            }
        }
    }
}

} // verus!

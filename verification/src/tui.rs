//! State of the interactive list: the tasks and where the user stands in them, and what each
//! key press does to it.

use vstd::prelude::*;

use crate::date::Date;
use crate::editor::{
    Editor, EditorView, Key, KeyCode, Mode, Outcome, min, sat_dec, spec_handle_key, spec_paste,
};
use crate::messages::{
    added_hidden_message, edited_hidden_message, msg_added_hidden, msg_edited_hidden,
    msg_nothing_to_redo, msg_nothing_to_undo, msg_redone, msg_reloaded,
    msg_reloaded_edit_cancelled, msg_undone, nothing_to_redo_message, nothing_to_undo_message,
    redone_message, reloaded_edit_cancelled_message, reloaded_message, undone_message,
};
use crate::store::{
    Store, all_wf, is_sorted_listing, lemma_is_listing_of, listing_of, numbers_of, rows_hold_tasks,
    selected, texts, views,
};
use crate::order::{lemma_term_lt_order, strictly_sorted_terms, term_before, term_lt};
use crate::text::{chars_of, push_chars, spec_one_line, spec_split_blank, split_blank};
use crate::history::{history_distinct, law_write_iff_lines_change, lines_of};
use crate::todo::{
    Todo, TodoView, has_text, has_word, is_tag_word, no_description_message, spec_from_line,
    spec_to_line,
};

verus! {

/// A group of the list: the tasks of one priority, those without one, or the done ones.
#[derive(Clone, Copy, PartialEq, Eq, Debug, Structural)]
pub enum Group {
    Priority(char),
    Unprioritised,
    Done,
}

/// A row the cursor can stand on: a task by its number, or the header of a folded group.
#[derive(Clone, Copy, PartialEq, Eq, Debug, Structural)]
pub enum Row {
    Task(usize),
    Group(Group),
}

/// What the popup's text is for: a task to add, or the task of that number to edit.
#[derive(Clone, Copy, PartialEq, Eq, Debug, Structural)]
pub enum Target {
    Add,
    Edit(usize),
}

/// The popup editing one todo.txt line.
pub struct Popup {
    pub editor: Editor,
    pub target: Target,
}

/// Where keys go.
pub enum Focus {
    /// The task list.
    List,
    /// The filter panel.
    Panel,
    /// The search being typed in the status bar.
    Search,
    /// The key help, closed by the next key.
    Help,
    /// The popup.
    Popup(Popup),
}

/// Where keys go, as a mathematical value.
pub enum FocusView {
    List,
    Panel,
    Search,
    Help,
    Popup(EditorView, Target),
}

impl View for Focus {
    type V = FocusView;

    open spec fn view(&self) -> FocusView {
        match self {
            Focus::List => FocusView::List,
            Focus::Panel => FocusView::Panel,
            Focus::Search => FocusView::Search,
            Focus::Help => FocusView::Help,
            Focus::Popup(p) => FocusView::Popup(p.editor@, p.target),
        }
    }
}

/// State of the interactive list.
pub struct App {
    /// The tasks being browsed.
    pub store: Store,
    /// Position of the cursor among the rows on screen.
    pub cursor: usize,
    /// First key of a two-key command (`gg`, `dd`, `p`, `z`) waiting for its second key.
    pub pending: Option<char>,
    /// Whether done tasks are listed too.
    pub show_done: bool,
    /// Set once the user asked to leave.
    pub quit: bool,
    /// Last message for the status bar, cleared by the next key.
    pub message: Option<String>,
    /// Where keys go.
    pub focus: Focus,
    /// Search terms, separated by white space, as `todo list` takes them.
    pub search: String,
    /// Word picked in the panel, `None` for `all`.
    pub filter: Option<String>,
    /// Groups folded into their header.
    pub folded: Vec<Group>,
    /// Lists before each change, the last one latest.
    pub undo: Vec<Vec<Todo>>,
    /// Lists undone, the last one undone latest.
    pub redo: Vec<Vec<Todo>>,
}

/// The state of the interactive list as a mathematical value.
pub struct AppView {
    pub todos: Seq<TodoView>,
    pub cursor: int,
    pub pending: Option<char>,
    pub show_done: bool,
    pub quit: bool,
    pub message: Option<Seq<char>>,
    pub focus: FocusView,
    pub search: Seq<char>,
    pub filter: Option<Seq<char>>,
    pub folded: Seq<Group>,
    pub undo: Seq<Seq<TodoView>>,
    pub redo: Seq<Seq<TodoView>>,
}

/// An optional text as a mathematical value.
pub open spec fn opt_view(s: Option<String>) -> Option<Seq<char>> {
    match s {
        Some(s) => Some(s@),
        None => None,
    }
}

/// A history of lists as mathematical values.
pub open spec fn history_view(h: Seq<Vec<Todo>>) -> Seq<Seq<TodoView>> {
    h.map_values(|v: Vec<Todo>| views(v@))
}

impl View for App {
    type V = AppView;

    open spec fn view(&self) -> AppView {
        AppView {
            todos: views(self.store.todos@),
            cursor: self.cursor as int,
            pending: self.pending,
            show_done: self.show_done,
            quit: self.quit,
            message: opt_view(self.message),
            focus: self.focus@,
            search: self.search@,
            filter: opt_view(self.filter),
            folded: self.folded@,
            undo: history_view(self.undo@),
            redo: history_view(self.redo@),
        }
    }
}

/// The group a task is shown in.
pub open spec fn group_of(t: TodoView) -> Group {
    if t.done {
        Group::Done
    } else {
        match t.priority {
            Some(p) => Group::Priority(p),
            None => Group::Unprioritised,
        }
    }
}

/// The group of task number `n`.
pub open spec fn task_group(todos: Seq<TodoView>, n: usize) -> Group {
    group_of(todos[n - 1])
}

/// Which tasks are on screen: those `todo list` shows for the search, done ones only when
/// shown, and with the panel's word when one is picked.
pub open spec fn shown(
    todos: Seq<TodoView>,
    show_done: bool,
    search: Seq<char>,
    filter: Option<Seq<char>>,
) -> spec_fn(int) -> bool {
    |i: int|
        selected(todos, show_done, spec_split_blank(search), i) && (filter matches Some(f)
            ==> has_word(todos[i].description, f))
}

/// The numbers of the tasks on screen, in display order.
pub open spec fn spec_tasks(
    todos: Seq<TodoView>,
    show_done: bool,
    search: Seq<char>,
    filter: Option<Seq<char>>,
) -> Seq<usize> {
    listing_of(todos, shown(todos, show_done, search, filter))
}

/// Whether a task on screen is in a priority group, so that the list is grouped.
pub open spec fn grouped(todos: Seq<TodoView>, tasks: Seq<usize>) -> bool {
    exists|k: int| 0 <= k < tasks.len() && task_group(todos, #[trigger] tasks[k]) is Priority
}

/// The groups of the first `k` tasks of `tasks`, each with how many tasks it holds.
pub open spec fn runs(todos: Seq<TodoView>, tasks: Seq<usize>, k: int) -> Seq<(Group, nat)>
    decreases k,
{
    if k <= 0 {
        Seq::empty()
    } else {
        let prev = runs(todos, tasks, k - 1);
        let g = task_group(todos, tasks[k - 1]);
        if k >= 2 && task_group(todos, tasks[k - 2]) == g {
            prev.update(prev.len() - 1, (g, prev.last().1 + 1))
        } else {
            prev.push((g, 1nat))
        }
    }
}

/// The groups of the tasks on screen with their counts, or none when no task on screen has a
/// priority.
pub open spec fn spec_groups(todos: Seq<TodoView>, tasks: Seq<usize>) -> Seq<(Group, nat)> {
    if grouped(todos, tasks) {
        runs(todos, tasks, tasks.len() as int)
    } else {
        Seq::empty()
    }
}

/// The rows task `tasks[i]` gives: its own, or, in a folded group, the group's header for the
/// group's first task and nothing for the others.
pub open spec fn row_piece(
    todos: Seq<TodoView>,
    tasks: Seq<usize>,
    folded: Seq<Group>,
    g: bool,
    i: int,
) -> Seq<Row> {
    let grp = task_group(todos, tasks[i]);
    if g && folded.contains(grp) {
        if i == 0 || task_group(todos, tasks[i - 1]) != grp {
            seq![Row::Group(grp)]
        } else {
            Seq::empty()
        }
    } else {
        seq![Row::Task(tasks[i])]
    }
}

/// The rows of the first `k` tasks.
pub open spec fn rows_upto(
    todos: Seq<TodoView>,
    tasks: Seq<usize>,
    folded: Seq<Group>,
    g: bool,
    k: int,
) -> Seq<Row>
    decreases k,
{
    if k <= 0 {
        Seq::empty()
    } else {
        rows_upto(todos, tasks, folded, g, k - 1) + row_piece(todos, tasks, folded, g, k - 1)
    }
}

/// The rows on screen: the tasks, a folded group standing as its header alone.
pub open spec fn spec_rows(todos: Seq<TodoView>, tasks: Seq<usize>, folded: Seq<Group>) -> Seq<
    Row,
> {
    rows_upto(todos, tasks, folded, grouped(todos, tasks), tasks.len() as int)
}

impl AppView {
    /// The numbers of the tasks on screen, in display order.
    pub open spec fn tasks(self) -> Seq<usize> {
        spec_tasks(self.todos, self.show_done, self.search, self.filter)
    }

    /// The groups on screen with their counts.
    pub open spec fn groups(self) -> Seq<(Group, nat)> {
        spec_groups(self.todos, self.tasks())
    }

    /// The rows on screen.
    pub open spec fn rows(self) -> Seq<Row> {
        spec_rows(self.todos, self.tasks(), self.folded)
    }
}

/// The group a task is shown in.
pub fn group_of_todo(t: &Todo) -> (r: Group)
    ensures
        r == group_of(t@),
{
    if t.done {
        Group::Done
    } else {
        match t.priority {
            Some(p) => Group::Priority(p),
            None => Group::Unprioritised,
        }
    }
}

/// Whether `g` is among `groups`.
pub(crate) fn contains_group(groups: &Vec<Group>, g: Group) -> (r: bool)
    ensures
        r == groups@.contains(g),
{
    let mut i: usize = 0;
    while i < groups.len()
        invariant
            i <= groups@.len(),
            forall|k: int| 0 <= k < i ==> groups@[k] != g,
        decreases groups@.len() - i,
    {
        if groups[i] == g {
            return true;
        }
        i = i + 1;
    }
    false
}

/// The counts of groups as numbers.
pub open spec fn counts_view(groups: Seq<(Group, usize)>) -> Seq<(Group, nat)> {
    groups.map_values(|p: (Group, usize)| (p.0, p.1 as nat))
}

/// Whether some task of a listing is in a priority group.
fn any_priority(tasks: &Vec<(usize, &Todo)>, todos: Ghost<Seq<TodoView>>) -> (r: bool)
    requires
        forall|k: int| 0 <= k < tasks@.len() ==> todos@[tasks@[k].0 - 1] == (#[trigger] tasks@[k]).1@,
    ensures
        r == grouped(todos@, numbers_of(tasks@)),
{
    let ghost nums = numbers_of(tasks@);
    let mut k: usize = 0;
    while k < tasks.len()
        invariant
            k <= tasks@.len(),
            nums == numbers_of(tasks@),
            forall|k: int| 0 <= k < tasks@.len() ==> todos@[tasks@[k].0 - 1] == (#[trigger] tasks@[k]).1@,
            forall|j: int| 0 <= j < k ==> !(task_group(todos@, #[trigger] nums[j]) is Priority),
        decreases tasks@.len() - k,
    {
        let g = group_of_todo(tasks[k].1);
        assert(task_group(todos@, nums[k as int]) == g);
        if let Group::Priority(_) = g {
            return true;
        }
        k = k + 1;
    }
    false
}

/// The first panel entry's name.
pub open spec fn all_text() -> Seq<char> {
    seq!['a', 'l', 'l']
}

/// The tasks the panel counts: those on screen, leaving out the search and the panel's word.
pub open spec fn panel_tasks(todos: Seq<TodoView>, show_done: bool) -> Seq<usize> {
    spec_tasks(todos, show_done, Seq::empty(), None)
}

/// Whether `w` is a tag of `sigil` in task `shown[j]`.
pub open spec fn tag_in(
    todos: Seq<TodoView>,
    shown: Seq<usize>,
    j: int,
    sigil: char,
    w: Seq<char>,
) -> bool {
    is_tag_word(w, sigil) && has_word(todos[shown[j] - 1].description, w)
}

/// Whether `w` is a tag of `sigil` in one of the tasks `shown`.
pub open spec fn is_shown_tag(
    todos: Seq<TodoView>,
    shown: Seq<usize>,
    sigil: char,
    w: Seq<char>,
) -> bool {
    exists|j: int| 0 <= j < shown.len() && #[trigger] tag_in(todos, shown, j, sigil, w)
}

/// The tags of `sigil` of the tasks `shown`, each once, in the panel's order.
pub open spec fn sorted_tags(todos: Seq<TodoView>, shown: Seq<usize>, sigil: char) -> Seq<
    Seq<char>,
> {
    choose|s: Seq<Seq<char>>|
        strictly_sorted_terms(s) && forall|w: Seq<char>|
            s.contains(w) <==> is_shown_tag(todos, shown, sigil, w)
}

/// How many of the first `k` tasks of `shown` have the word `w`.
pub open spec fn word_count(todos: Seq<TodoView>, shown: Seq<usize>, w: Seq<char>, k: int) -> nat
    decreases k,
{
    if k <= 0 {
        0
    } else {
        word_count(todos, shown, w, k - 1) + if has_word(todos[shown[k - 1] - 1].description, w) {
            1nat
        } else {
            0nat
        }
    }
}

/// Panel entries for the words `terms`, each with how many of the tasks `shown` have it.
pub open spec fn with_counts(todos: Seq<TodoView>, shown: Seq<usize>, terms: Seq<Seq<char>>) -> Seq<
    (Seq<char>, nat),
> {
    terms.map_values(|w: Seq<char>| (w, word_count(todos, shown, w, shown.len() as int)))
}

/// The panel: `all` with how many tasks are on screen, leaving out the search and the panel's
/// word, then the `+projects`, then the `@contexts` of those tasks, each alphabetical and with
/// how many of those tasks have that exact word.
pub open spec fn spec_filters(todos: Seq<TodoView>, show_done: bool) -> Seq<(Seq<char>, nat)> {
    let shown = panel_tasks(todos, show_done);
    seq![(all_text(), shown.len() as nat)] + with_counts(todos, shown, sorted_tags(todos, shown, '+'))
        + with_counts(todos, shown, sorted_tags(todos, shown, '@'))
}

/// Row of the word `filter` among the panel's entries, the first (`all`) when it is not
/// among them.
pub open spec fn filter_row_of(entries: Seq<(Seq<char>, nat)>, filter: Option<Seq<char>>) -> usize {
    match filter {
        None => 0,
        Some(f) => match entry_names(entries).index_of_first(f) {
            Some(k) => k as usize,
            None => 0,
        },
    }
}

/// The names of panel entries.
pub open spec fn entry_names(entries: Seq<(Seq<char>, nat)>) -> Seq<Seq<char>> {
    entries.map_values(|e: (Seq<char>, nat)| e.0)
}

/// Panel entries as mathematical values.
pub open spec fn entries_view(entries: Seq<(String, usize)>) -> Seq<(Seq<char>, nat)> {
    entries.map_values(|e: (String, usize)| (e.0@, e.1 as nat))
}

/// Puts `w` in its place in the sorted `v`, unless it is there already.
fn insert_sorted(v: &mut Vec<String>, w: String)
    requires
        strictly_sorted_terms(texts(old(v)@)),
    ensures
        strictly_sorted_terms(texts(final(v)@)),
        forall|x: Seq<char>|
            texts(final(v)@).contains(x) <==> texts(old(v)@).contains(x) || x == w@,
{
    let ghost old_t = texts(v@);
    let mut q: usize = 0;
    while q < v.len() && term_before(v[q].as_str(), w.as_str())
        invariant
            q <= v@.len(),
            texts(v@) == old_t,
            forall|k: int| 0 <= k < q ==> term_lt(old_t[k], w@),
        decreases v@.len() - q,
    {
        q = q + 1;
    }
    if q < v.len() && v[q] == w {
        assert(old_t[q as int] == w@);
        return;
    }
    proof {
        if q < v@.len() {
            lemma_term_lt_order(old_t[q as int], w@, w@);
        }
    }
    v.insert(q, w);
    proof {
        let t = texts(v@);
        assert(t =~= old_t.insert(q as int, w@));
        assert forall|a: int, b: int| 0 <= a < b < t.len() implies term_lt(
            #[trigger] t[a],
            #[trigger] t[b],
        ) by {
            if b == q {
            } else if a == q {
                lemma_term_lt_order(w@, old_t[q as int], t[b]);
                if b - 1 > q {
                    assert(term_lt(old_t[q as int], old_t[b - 1]));
                }
            } else {
                let (oa, ob) = (if a < q { a } else { a - 1 }, if b < q { b } else { b - 1 });
                assert(t[a] == old_t[oa] && t[b] == old_t[ob]);
            }
        }
        assert forall|x: Seq<char>| t.contains(x) <==> old_t.contains(x) || x == w@ by {
            if t.contains(x) {
                let k = choose|k: int| 0 <= k < t.len() && t[k] == x;
                if k != q {
                    let ok = if k < q { k } else { k - 1 };
                    assert(old_t[ok] == x);
                }
            }
            if old_t.contains(x) {
                let k = choose|k: int| 0 <= k < old_t.len() && old_t[k] == x;
                let nk = if k < q { k } else { k + 1 };
                assert(t[nk] == x);
            }
            if x == w@ {
                assert(t[q as int] == x);
            }
        }
    }
}

/// The tags of `sigil` of the tasks listed, each once, in the panel's order.
#[verifier::spinoff_prover]
fn collect_tags(shown: &Vec<(usize, &Todo)>, sigil: char, todos: Ghost<Seq<TodoView>>) -> (r: Vec<
    String,
>)
    requires
        forall|k: int| 0 <= k < shown@.len() ==> todos@[shown@[k].0 - 1] == (#[trigger] shown@[k]).1@,
    ensures
        strictly_sorted_terms(texts(r@)),
        forall|w: Seq<char>|
            texts(r@).contains(w) <==> is_shown_tag(todos@, numbers_of(shown@), sigil, w),
{
    let ghost nums = numbers_of(shown@);
    let mut r: Vec<String> = Vec::new();
    let mut k: usize = 0;
    while k < shown.len()
        invariant
            k <= shown@.len(),
            nums == numbers_of(shown@),
            forall|k: int| 0 <= k < shown@.len() ==> todos@[shown@[k].0 - 1] == (#[trigger] shown@[k]).1@,
            strictly_sorted_terms(texts(r@)),
            forall|w: Seq<char>|
                texts(r@).contains(w) <==> exists|j: int|
                    0 <= j < k && #[trigger] tag_in(todos@, nums, j, sigil, w),
        decreases shown@.len() - k,
    {
        let tags = shown[k].1.tags(sigil);
        assert(todos@[nums[k as int] - 1] == shown@[k as int].1@);
        let ghost before = texts(r@);
        assert(forall|w: Seq<char>|
            before.contains(w) <==> exists|j: int|
                0 <= j < k && #[trigger] tag_in(todos@, nums, j, sigil, w));
        let mut i: usize = 0;
        while i < tags.len()
            invariant
                k < shown@.len(),
                i <= tags@.len(),
                strictly_sorted_terms(texts(r@)),
                forall|w: Seq<char>|
                    texts(r@).contains(w) <==> before.contains(w) || texts(tags@).take(
                        i as int,
                    ).contains(w),
            decreases tags@.len() - i,
        {
            let ghost mid = texts(r@);
            let t = tags[i].clone();
            assert(t@ == tags@[i as int]@);
            insert_sorted(&mut r, t);
            proof {
                let (t0, t1) = (texts(tags@).take(i as int), texts(tags@).take(i + 1));
                assert(t1 =~= t0.push(tags@[i as int]@));
                assert forall|w: Seq<char>|
                    texts(r@).contains(w) <==> before.contains(w) || t1.contains(w) by {
                    assert(mid.contains(w) <==> before.contains(w) || t0.contains(w));
                    assert(texts(r@).contains(w) <==> mid.contains(w) || w == t@);
                    if w == t@ {
                        assert(t1[i as int] == w);
                    }
                    if t1.contains(w) {
                        let m = choose|m: int| 0 <= m < t1.len() && t1[m] == w;
                        if m < i {
                            assert(t0[m] == w);
                            assert(t0.contains(w));
                        }
                    }
                    if t0.contains(w) {
                        let m = choose|m: int| 0 <= m < t0.len() && t0[m] == w;
                        assert(t1[m] == w);
                    }
                }
            }
            i = i + 1;
        }
        proof {
            let tt = texts(tags@);
            assert(tt.take(tags@.len() as int) =~= tt);
            assert forall|w: Seq<char>| #[trigger] texts(r@).contains(w) implies exists|j: int|
                0 <= j < k + 1 && #[trigger] tag_in(todos@, nums, j, sigil, w) by {
                assert(texts(r@).contains(w) <==> before.contains(w) || tt.contains(w));
                if before.contains(w) {
                    let j = choose|j: int| 0 <= j < k && #[trigger] tag_in(todos@, nums, j, sigil, w);
                    assert(tag_in(todos@, nums, j, sigil, w));
                } else {
                    let m = choose|m: int| 0 <= m < tt.len() && tt[m] == w;
                    assert(tags@[m]@ == w);
                    assert(tag_in(todos@, nums, k as int, sigil, w));
                }
            }
            assert forall|w: Seq<char>|
                (exists|j: int| 0 <= j < k + 1 && #[trigger] tag_in(todos@, nums, j, sigil, w))
                implies #[trigger] texts(r@).contains(w) by {
                assert(texts(r@).contains(w) <==> before.contains(w) || tt.contains(w));
                let j = choose|j: int| 0 <= j < k + 1 && #[trigger] tag_in(todos@, nums, j, sigil, w);
                if j < k {
                    assert(before.contains(w));
                } else {
                    assert(tag_in(todos@, nums, k as int, sigil, w));
                    let m = choose|m: int| 0 <= m < tags@.len() && #[trigger] tags@[m]@ == w;
                    assert(tt[m] == w);
                }
            }
        }
        k = k + 1;
    }
    r
}

/// How many of the tasks listed have the word `w`.
fn count_word(shown: &Vec<(usize, &Todo)>, w: &str, todos: Ghost<Seq<TodoView>>) -> (r: usize)
    requires
        forall|k: int| 0 <= k < shown@.len() ==> todos@[shown@[k].0 - 1] == (#[trigger] shown@[k]).1@,
    ensures
        r == word_count(todos@, numbers_of(shown@), w@, shown@.len() as int),
{
    let ghost nums = numbers_of(shown@);
    let mut n: usize = 0;
    let mut k: usize = 0;
    while k < shown.len()
        invariant
            k <= shown@.len(),
            nums == numbers_of(shown@),
            forall|k: int| 0 <= k < shown@.len() ==> todos@[shown@[k].0 - 1] == (#[trigger] shown@[k]).1@,
            n == word_count(todos@, nums, w@, k as int),
            n <= k,
        decreases shown@.len() - k,
    {
        assert(todos@[nums[k as int] - 1] == shown@[k as int].1@);
        if shown[k].1.has_word(w) {
            n = n + 1;
        }
        k = k + 1;
    }
    n
}

impl App {
    /// Panel entries with how many tasks each shows, the search left out: `all`, then the
    /// `+projects` and `@contexts` of the tasks shown, each alphabetical.
    pub fn filters(&self) -> (r: Vec<(String, usize)>)
        requires
            self.store.wf(),
        ensures
            entries_view(r@) == spec_filters(self@.todos, self.show_done),
    {
        let no_terms: Vec<String> = Vec::new();
        let shown = self.store.list(self.show_done, &no_terms);
        let ghost todos = views(self.store.todos@);
        proof {
            let k1 = |i: int| selected(todos, self.show_done, texts(no_terms@), i);
            let k2 = crate::tui::shown(todos, self.show_done, Seq::empty(), None);
            assert(texts(no_terms@) =~= spec_split_blank(Seq::empty()));
            assert(k1 =~= k2);
            lemma_is_listing_of(todos, k2, numbers_of(shown@));
        }
        assert forall|k: int| 0 <= k < shown@.len() implies todos[shown@[k].0 - 1] == (
        #[trigger] shown@[k]).1@ by {}
        let ghost nums = numbers_of(shown@);
        let mut r: Vec<(String, usize)> = Vec::new();
        let mut all = String::new();
        push_chars(&mut all, &['a', 'l', 'l']);
        r.push((all, shown.len()));
        let ghost head = entries_view(r@);
        assert(head =~= seq![(all_text(), nums.len() as nat)]);
        let projects = collect_tags(&shown, '+', Ghost(todos));
        let contexts = collect_tags(&shown, '@', Ghost(todos));
        proof {
            let sp = sorted_tags(todos, nums, '+');
            let sc = sorted_tags(todos, nums, '@');
            crate::order::lemma_sorted_terms_unique(texts(projects@), sp);
            crate::order::lemma_sorted_terms_unique(texts(contexts@), sc);
        }
        let mut i: usize = 0;
        while i < projects.len()
            invariant
                i <= projects@.len(),
                forall|k: int| 0 <= k < shown@.len() ==> todos[shown@[k].0 - 1] == (#[trigger] shown@[k]).1@,
                nums == numbers_of(shown@),
                entries_view(r@) == head + with_counts(todos, nums, texts(projects@).take(i as int)),
            decreases projects@.len() - i,
        {
            let n = count_word(&shown, projects[i].as_str(), Ghost(todos));
            let ghost prev = entries_view(r@);
            let t = projects[i].clone();
            let ghost w = t@;
            assert(w == texts(projects@)[i as int]);
            r.push((t, n));
            assert(entries_view(r@) =~= prev.push((w, n as nat)));
            assert(texts(projects@).take(i + 1) =~= texts(projects@).take(i as int).push(w));
            assert(with_counts(todos, nums, texts(projects@).take(i + 1)) =~= with_counts(
                todos,
                nums,
                texts(projects@).take(i as int),
            ).push((w, word_count(todos, nums, w, nums.len() as int))));
            assert(entries_view(r@) =~= head + with_counts(todos, nums, texts(projects@).take(i + 1)));
            i = i + 1;
        }
        assert(texts(projects@).take(projects@.len() as int) =~= texts(projects@));
        let ghost mid = entries_view(r@);
        let mut i: usize = 0;
        while i < contexts.len()
            invariant
                i <= contexts@.len(),
                forall|k: int| 0 <= k < shown@.len() ==> todos[shown@[k].0 - 1] == (#[trigger] shown@[k]).1@,
                nums == numbers_of(shown@),
                entries_view(r@) == mid + with_counts(todos, nums, texts(contexts@).take(i as int)),
            decreases contexts@.len() - i,
        {
            let n = count_word(&shown, contexts[i].as_str(), Ghost(todos));
            let ghost prev = entries_view(r@);
            let t = contexts[i].clone();
            let ghost w = t@;
            assert(w == texts(contexts@)[i as int]);
            r.push((t, n));
            assert(entries_view(r@) =~= prev.push((w, n as nat)));
            assert(texts(contexts@).take(i + 1) =~= texts(contexts@).take(i as int).push(w));
            assert(with_counts(todos, nums, texts(contexts@).take(i + 1)) =~= with_counts(
                todos,
                nums,
                texts(contexts@).take(i as int),
            ).push((w, word_count(todos, nums, w, nums.len() as int))));
            assert(entries_view(r@) =~= mid + with_counts(todos, nums, texts(contexts@).take(i + 1)));
            i = i + 1;
        }
        assert(texts(contexts@).take(contexts@.len() as int) =~= texts(contexts@));
        r
    }

    /// Row of the active filter among the panel `filters`, `all` when it is not among them.
    pub fn filter_row(&self, filters: &Vec<(String, usize)>) -> (r: usize)
        ensures
            r == filter_row_of(entries_view(filters@), opt_view(self.filter)),
    {
        match &self.filter {
            None => 0,
            Some(f) => {
                let ghost names = entry_names(entries_view(filters@));
                let mut i: usize = 0;
                while i < filters.len()
                    invariant
                        i <= filters@.len(),
                        names == entry_names(entries_view(filters@)),
                        opt_view(self.filter) == Some(f@),
                        forall|k: int| 0 <= k < i ==> names[k] != f@,
                    decreases filters@.len() - i,
                {
                    assert(names[i as int] == filters@[i as int].0@);
                    if filters[i].0 == *f {
                        proof {
                            names.index_of_first_ensures(f@);
                            assert(names[i as int] == f@);
                            assert(names.contains(f@));
                            let idx = names.index_of_first(f@).unwrap();
                            if idx < i {
                                assert(names[idx] != f@);
                            }
                            if idx > i {
                                assert(names[i as int] != f@);
                            }
                            assert(names.index_of_first(f@) == Some(i as int));
                            assert(opt_view(self.filter) == Some(f@));
                        }
                        return i;
                    }
                    i = i + 1;
                }
                proof {
                    names.index_of_first_ensures(f@);
                    assert(!names.contains(f@));
                }
                0
            },
        }
    }

    /// The groups on screen, each with how many tasks it holds; none when no task on screen
    /// has a priority.
    pub fn groups(&self) -> (r: Vec<(Group, usize)>)
        requires
            self.store.wf(),
        ensures
            counts_view(r@) == self@.groups(),
    {
        let tasks = self.tasks();
        let ghost todos = views(self.store.todos@);
        let ghost nums = numbers_of(tasks@);
        assert forall|k: int| 0 <= k < tasks@.len() implies todos[tasks@[k].0 - 1] == (
        #[trigger] tasks@[k]).1@ by {}
        let mut r: Vec<(Group, usize)> = Vec::new();
        if !any_priority(&tasks, Ghost(todos)) {
            assert(counts_view(r@) =~= Seq::empty());
            return r;
        }
        let mut k: usize = 0;
        while k < tasks.len()
            invariant
                k <= tasks@.len(),
                nums == numbers_of(tasks@),
                todos == views(self.store.todos@),
                forall|k: int| 0 <= k < tasks@.len() ==> todos[tasks@[k].0 - 1] == (#[trigger] tasks@[k]).1@,
                counts_view(r@) == runs(todos, nums, k as int),
                forall|j: int| 0 <= j < r@.len() ==> (#[trigger] r@[j]).1 <= k,
                k > 0 ==> r@.len() > 0 && r@.last().0 == task_group(todos, nums[k - 1]),
            decreases tasks@.len() - k,
        {
            let g = group_of_todo(tasks[k].1);
            assert(task_group(todos, nums[k as int]) == g);
            let ghost prev = counts_view(r@);
            if k >= 1 && group_of_todo(tasks[k - 1].1) == g {
                assert(task_group(todos, nums[k - 1]) == g);
                let last = r.len() - 1;
                let (lg, count) = r[last];
                r.set(last, (lg, count + 1));
                assert(counts_view(r@) =~= prev.update(prev.len() - 1, (g, prev.last().1 + 1)));
            } else {
                if k >= 1 {
                    assert(task_group(todos, nums[k - 1]) != g);
                }
                r.push((g, 1));
                assert(counts_view(r@) =~= prev.push((g, 1nat)));
            }
            k = k + 1;
        }
        r
    }

    /// The rows on screen: the tasks, a folded group standing as its header alone.
    pub fn rows(&self) -> (r: Vec<Row>)
        requires
            self.store.wf(),
        ensures
            r@ == self@.rows(),
    {
        let tasks = self.tasks();
        let ghost todos = views(self.store.todos@);
        let ghost nums = numbers_of(tasks@);
        assert forall|k: int| 0 <= k < tasks@.len() implies todos[tasks@[k].0 - 1] == (
        #[trigger] tasks@[k]).1@ by {}
        let g = any_priority(&tasks, Ghost(todos));
        let mut r: Vec<Row> = Vec::new();
        let mut k: usize = 0;
        while k < tasks.len()
            invariant
                k <= tasks@.len(),
                nums == numbers_of(tasks@),
                todos == views(self.store.todos@),
                g == grouped(todos, nums),
                forall|k: int| 0 <= k < tasks@.len() ==> todos[tasks@[k].0 - 1] == (#[trigger] tasks@[k]).1@,
                r@ == rows_upto(todos, nums, self.folded@, g, k as int),
            decreases tasks@.len() - k,
        {
            let grp = group_of_todo(tasks[k].1);
            assert(task_group(todos, nums[k as int]) == grp);
            let ghost prev = r@;
            if g && contains_group(&self.folded, grp) {
                if k == 0 || group_of_todo(tasks[k - 1].1) != grp {
                    r.push(Row::Group(grp));
                } else {
                    assert(task_group(todos, nums[k - 1]) == grp);
                }
            } else {
                r.push(Row::Task(tasks[k].0));
            }
            assert(r@ =~= prev + row_piece(todos, nums, self.folded@, g, k as int));
            k = k + 1;
        }
        r
    }

    /// Tasks on screen, numbered and in display order.
    pub fn tasks(&self) -> (r: Vec<(usize, &Todo)>)
        requires
            self.store.wf(),
        ensures
            numbers_of(r@) == self@.tasks(),
            rows_hold_tasks(self.store.todos@, r@),
    {
        let terms = split_blank(self.search.as_str());
        assert(texts(terms@) =~= spec_split_blank(self.search@));
        let listed = self.store.list(self.show_done, &terms);
        let ghost todos = views(self.store.todos@);
        let ghost keep = shown(todos, self.show_done, self.search@, opt_view(self.filter));
        let ghost all_listed = numbers_of(listed@);
        let mut r: Vec<(usize, &Todo)> = Vec::new();
        let ghost mut idx: Seq<int> = Seq::empty();
        let mut k: usize = 0;
        while k < listed.len()
            invariant
                k <= listed@.len(),
                all_listed == numbers_of(listed@),
                is_sorted_listing(
                    todos,
                    |i: int| selected(todos, self.show_done, spec_split_blank(self.search@), i),
                    all_listed,
                ),
                rows_hold_tasks(self.store.todos@, listed@),
                rows_hold_tasks(self.store.todos@, r@),
                todos == views(self.store.todos@),
                keep == shown(todos, self.show_done, self.search@, opt_view(self.filter)),
                idx.len() == r@.len(),
                forall|j: int| 0 <= j < idx.len() ==> 0 <= #[trigger] idx[j] < k,
                forall|j: int|
                    0 <= j < idx.len() ==> (#[trigger] r@[j]).0 == listed@[idx[j]].0,
                forall|a: int, b: int| 0 <= a < b < idx.len() ==> #[trigger] idx[a] < #[trigger] idx[b],
                forall|m: int|
                    0 <= m < k ==> (keep(listed@[m].0 - 1) <==> exists|j: int|
                        0 <= j < idx.len() && #[trigger] idx[j] == m),
            decreases listed@.len() - k,
        {
            let row = listed[k];
            let take = match &self.filter {
                None => true,
                Some(f) => row.1.has_word(f.as_str()),
            };
            assert(todos[row.0 - 1] == self.store.todos@[row.0 - 1]@);
            let ghost old_idx = idx;
            if take {
                r.push(row);
                proof {
                    idx = idx.push(k as int);
                }
            }
            proof {
                assert forall|m: int|
                    0 <= m < k + 1 implies (keep(listed@[m].0 - 1) <==> exists|j: int|
                        0 <= j < idx.len() && #[trigger] idx[j] == m) by {
                    if m < k {
                        if exists|j: int| 0 <= j < idx.len() && #[trigger] idx[j] == m {
                            let j = choose|j: int| 0 <= j < idx.len() && #[trigger] idx[j] == m;
                            assert(j < old_idx.len());
                            assert(old_idx[j] == m);
                        }
                        if exists|j: int| 0 <= j < old_idx.len() && #[trigger] old_idx[j] == m {
                            let j = choose|j: int| 0 <= j < old_idx.len() && #[trigger] old_idx[j] == m;
                            assert(idx[j] == m);
                        }
                    } else {
                        assert(all_listed[m] == listed@[m].0);
                        let i = listed@[m].0 - 1;
                        assert(selected(todos, self.show_done, spec_split_blank(self.search@), i));
                        assert(*listed@[m].1 == self.store.todos@[i]);
                        assert(keep(i) == take);
                        if take {
                            assert(idx[idx.len() - 1] == m);
                        } else {
                            assert forall|j: int| 0 <= j < idx.len() implies #[trigger] idx[j] != m by {}
                        }
                    }
                }
            }
            k = k + 1;
        }
        proof {
            let nr = numbers_of(r@);
            assert forall|j: int| 0 <= j < nr.len() implies nr[j] == all_listed[idx[j]] by {}
            assert forall|x: usize| nr.contains(x) <==> 1 <= x <= todos.len() && keep(x - 1) by {
                if nr.contains(x) {
                    let j = choose|j: int| 0 <= j < nr.len() && nr[j] == x;
                    assert(all_listed[idx[j]] == x);
                    assert(all_listed.contains(x));
                }
                if 1 <= x <= todos.len() && keep(x - 1) {
                    assert(all_listed.contains(x));
                    let m = choose|m: int| 0 <= m < all_listed.len() && all_listed[m] == x;
                    assert(listed@[m].0 == x);
                    let j = choose|j: int| 0 <= j < idx.len() && #[trigger] idx[j] == m;
                    assert(nr[j] == x);
                }
            }
            assert forall|a: int, b: int| 0 <= a < b < nr.len() implies crate::store::comes_before(
                todos,
                #[trigger] nr[a] as int,
                #[trigger] nr[b] as int,
            ) by {
                assert(nr[a] == all_listed[idx[a]]);
                assert(nr[b] == all_listed[idx[b]]);
            }
            assert forall|j: int| 0 <= j < nr.len() implies 1 <= #[trigger] nr[j] <= todos.len()
                && keep(nr[j] - 1) by {
                assert(nr.contains(nr[j]));
            }
            assert forall|i: int| 0 <= i < todos.len() && #[trigger] keep(i) implies nr.contains(
                (i + 1) as usize,
            ) by {
                assert(todos.len() == self.store.todos.len());
                let x = (i + 1) as usize;
                assert(x - 1 == i);
            }
            assert(is_sorted_listing(todos, keep, nr));
            lemma_is_listing_of(todos, keep, nr);
        }
        r
    }
}

/// Whether `key` is Control-C.
pub open spec fn is_ctrl_c(key: Key) -> bool {
    key.ctrl && key.code == KeyCode::Char('c')
}

/// The priority a key gives after `p`: `a` to `e` for `A` to `E`, a space for none.
pub open spec fn key_priority(c: char) -> Option<Option<char>> {
    if c == ' ' {
        Some(None)
    } else if c == 'a' {
        Some(Some('A'))
    } else if c == 'b' {
        Some(Some('B'))
    } else if c == 'c' {
        Some(Some('C'))
    } else if c == 'd' {
        Some(Some('D'))
    } else if c == 'e' {
        Some(Some('E'))
    } else {
        None
    }
}

/// Whether every task of a list can be written.
pub open spec fn list_wf(todos: Seq<TodoView>) -> bool {
    forall|i: int| 0 <= i < todos.len() ==> (#[trigger] todos[i]).wf()
}

/// The number of the first task of group `x` among `tasks`.
pub open spec fn first_in(todos: Seq<TodoView>, tasks: Seq<usize>, x: Group) -> usize {
    let groups = tasks.map_values(|n: usize| task_group(todos, n));
    match groups.index_of_first(x) {
        Some(k) => tasks[k],
        None => 0,
    }
}

/// Whether group `x` is one of `groups`.
pub open spec fn has_group(groups: Seq<(Group, nat)>, x: Group) -> bool {
    exists|k: int| 0 <= k < groups.len() && (#[trigger] groups[k]).0 == x
}

/// The editor of the popup opened on a task's line: in normal mode, the cursor at the start.
pub open spec fn edit_editor(t: TodoView) -> EditorView {
    EditorView { text: spec_to_line(t), cursor: 0, mode: Mode::Normal, pending: None }
}

/// The editor of the popup opened to add a task: empty, in insert mode.
pub open spec fn add_editor() -> EditorView {
    EditorView { text: Seq::empty(), cursor: 0, mode: Mode::Insert, pending: None }
}

impl AppView {
    /// Whether the state can be worked on: every task of the list and of the history can be
    /// written, the popup's cursor is within its text, and the task it edits exists.
    pub open spec fn wf(self) -> bool {
        &&& list_wf(self.todos)
        &&& forall|h: int| 0 <= h < self.undo.len() ==> list_wf(#[trigger] self.undo[h])
        &&& forall|h: int| 0 <= h < self.redo.len() ==> list_wf(#[trigger] self.redo[h])
        &&& match self.focus {
            FocusView::Popup(e, t) => e.wf() && (t matches Target::Edit(n) ==> 1 <= n
                <= self.todos.len()),
            _ => true,
        }
    }

    /// The row under the cursor.
    pub open spec fn selected_row(self) -> Option<Row> {
        if 0 <= self.cursor < self.rows().len() {
            Some(self.rows()[self.cursor])
        } else {
            None
        }
    }

    /// The number of the task under the cursor, not on a folded header.
    pub open spec fn selected_task(self) -> Option<usize> {
        match self.selected_row() {
            Some(Row::Task(n)) => Some(n),
            _ => None,
        }
    }

    /// The last row.
    pub open spec fn last_row(self) -> int {
        sat_dec(self.rows().len() as int)
    }

    /// The state with the current list saved for undo, and nothing left to redo.
    pub open spec fn recorded(self) -> AppView {
        AppView { undo: self.undo.push(self.todos), redo: Seq::empty(), ..self }
    }

    /// The state saying `m`.
    pub open spec fn say(self, m: Seq<char>) -> AppView {
        AppView { message: Some(m), ..self }
    }

    /// The state with the cursor at `cursor`.
    pub open spec fn at(self, cursor: int) -> AppView {
        AppView { cursor, ..self }
    }

    /// The state with keys going to `focus`.
    pub open spec fn focused(self, focus: FocusView) -> AppView {
        AppView { focus, ..self }
    }

    /// The state with `todos` as its list.
    pub open spec fn with_todos(self, todos: Seq<TodoView>) -> AppView {
        AppView { todos, ..self }
    }

    /// Where `row` is on screen.
    pub open spec fn locate(self, row: Row) -> Option<int> {
        self.rows().index_of_first(row)
    }

    /// The state with the cursor on `row`, or unchanged when it is not on screen.
    pub open spec fn jump(self, row: Row) -> AppView {
        match self.locate(row) {
            Some(i) => self.at(i),
            None => self,
        }
    }

    /// Where task `n` is on screen: its row, or the header of its folded group; nowhere when
    /// it is not on screen.
    pub open spec fn follow(self, n: usize) -> Option<int> {
        if self.tasks().contains(n) {
            match self.locate(Row::Task(n)) {
                Some(i) => Some(i),
                None => self.locate(Row::Group(task_group(self.todos, n))),
            }
        } else {
            None
        }
    }

    /// The state with the cursor on task `n`, or saying `m` when it is not on screen.
    pub open spec fn follow_or_say(self, n: usize, m: Seq<char>) -> AppView {
        match self.follow(n) {
            Some(i) => self.at(i),
            None => self.say(m),
        }
    }

    /// The state with the cursor on task `n`, left where it was when the task is not on
    /// screen.
    pub open spec fn follow_quietly(self, n: usize) -> AppView {
        match self.follow(n) {
            Some(i) => self.at(i),
            None => self,
        }
    }

    /// After a key: a group no longer on screen is unfolded, and the cursor is kept on a row.
    pub open spec fn settle(self) -> AppView {
        let g = self.groups();
        let a = AppView { folded: self.folded.filter(|x: Group| has_group(g, x)), ..self };
        a.at(min(a.cursor, sat_dec(a.rows().len() as int)))
    }
}

/// `p` then a priority key: the selected pending task takes that priority, the cursor
/// following it; nothing when it already has it.
pub open spec fn set_priority_step(a: AppView, p: Option<char>) -> (AppView, bool) {
    match a.selected_task() {
        Some(n) => {
            let t = a.todos[n - 1];
            if !t.done && t.priority != p {
                let b = a.recorded();
                (b.with_todos(b.todos.update(n - 1, TodoView { priority: p, ..t })).follow_quietly(n), true)
            } else {
                (a, false)
            }
        },
        None => (a, false),
    }
}

/// `zM`: every group on screen folds, the cursor on the header of its row's group.
pub open spec fn fold_all_step(a: AppView) -> AppView {
    let g = a.groups();
    if g.len() == 0 {
        a
    } else {
        let b = AppView { folded: g.map_values(|p: (Group, nat)| p.0), ..a };
        match a.selected_row() {
            Some(Row::Task(n)) => b.jump(Row::Group(task_group(a.todos, n))),
            Some(Row::Group(x)) => b.jump(Row::Group(x)),
            None => b,
        }
    }
}

/// `zR`: every group unfolds, the cursor on its task, or on the first task of its folded
/// group.
pub open spec fn unfold_all_step(a: AppView) -> AppView {
    if a.groups().len() == 0 {
        a
    } else {
        let b = AppView { folded: Seq::empty(), ..a };
        match a.selected_row() {
            Some(Row::Task(n)) => b.jump(Row::Task(n)),
            Some(Row::Group(x)) => b.jump(Row::Task(first_in(a.todos, a.tasks(), x))),
            None => b,
        }
    }
}

/// `za`: the group of the task under the cursor folds onto its header, or the folded group
/// under the cursor unfolds onto its first task.
pub open spec fn toggle_fold_step(a: AppView) -> AppView {
    if a.groups().len() == 0 {
        a
    } else {
        match a.selected_row() {
            Some(Row::Task(n)) => {
                let x = task_group(a.todos, n);
                AppView { folded: a.folded.push(x), ..a }.jump(Row::Group(x))
            },
            Some(Row::Group(x)) => AppView {
                folded: a.folded.filter(|y: Group| y != x),
                ..a
            }.jump(Row::Task(first_in(a.todos, a.tasks(), x))),
            None => a,
        }
    }
}

/// `u`: the list before the last change comes back.
pub open spec fn undo_step(a: AppView) -> (AppView, bool) {
    if a.undo.len() > 0 {
        (AppView {
            todos: a.undo.last(),
            undo: a.undo.drop_last(),
            redo: a.redo.push(a.todos),
            ..a
        }.say(msg_undone()), true)
    } else {
        (a.say(msg_nothing_to_undo()), false)
    }
}

/// Control-R: the list last undone comes back.
pub open spec fn redo_step(a: AppView) -> (AppView, bool) {
    if a.redo.len() > 0 {
        (AppView {
            todos: a.redo.last(),
            redo: a.redo.drop_last(),
            undo: a.undo.push(a.todos),
            ..a
        }.say(msg_redone()), true)
    } else {
        (a.say(msg_nothing_to_redo()), false)
    }
}

/// `x`: the task under the cursor is done on `today`, or pending again when it was done.
pub open spec fn toggle_done_step(a: AppView, today: Date) -> (AppView, bool) {
    match a.selected_task() {
        Some(n) => {
            let t = a.todos[n - 1];
            let u = if t.done {
                TodoView { done: false, completed: None, ..t }
            } else {
                TodoView { done: true, completed: Some(today), priority: None, ..t }
            };
            let b = a.recorded();
            (b.with_todos(b.todos.update(n - 1, u)), true)
        },
        None => (a, false),
    }
}

/// `dd`: the task under the cursor is removed.
pub open spec fn delete_step(a: AppView) -> (AppView, bool) {
    match a.selected_task() {
        Some(n) => {
            let b = a.recorded();
            (b.with_todos(b.todos.remove(n - 1)), true)
        },
        None => (a, false),
    }
}

/// A character key in the list, `pending` being the key before it.
pub open spec fn list_char_step(a: AppView, pending: Option<char>, c: char, ctrl: bool, today: Date) -> (
    AppView,
    bool,
) {
    if c == 'q' {
        (AppView { quit: true, ..a }, false)
    } else if c == 'j' {
        (a.at(min(a.cursor + 1, a.last_row())), false)
    } else if c == 'k' {
        (a.at(sat_dec(a.cursor)), false)
    } else if c == 'g' {
        if pending == Some('g') {
            (a.at(0), false)
        } else {
            (AppView { pending: Some('g'), ..a }, false)
        }
    } else if c == 'G' {
        (a.at(a.last_row()), false)
    } else if c == 'x' {
        toggle_done_step(a, today)
    } else if c == 'd' {
        if pending == Some('d') {
            delete_step(a)
        } else {
            (AppView { pending: Some('d'), ..a }, false)
        }
    } else if c == 'p' || c == 'z' {
        (AppView { pending: Some(c), ..a }, false)
    } else if c == 'u' {
        undo_step(a)
    } else if c == 'r' && ctrl {
        redo_step(a)
    } else if c == 'o' {
        (a.focused(FocusView::Popup(add_editor(), Target::Add)), false)
    } else if c == '/' {
        (AppView { search: Seq::empty(), focus: FocusView::Search, cursor: 0, ..a }, false)
    } else if c == '?' {
        (a.focused(FocusView::Help), false)
    } else if c == 'H' {
        (AppView { show_done: !a.show_done, cursor: 0, ..a }, false)
    } else {
        (a, false)
    }
}

/// A key in the list, `pending` being the key before it.
pub open spec fn list_step(a: AppView, pending: Option<char>, key: Key, today: Date) -> (AppView, bool) {
    if is_ctrl_c(key) {
        (AppView { quit: true, ..a }, false)
    } else if pending == Some('p') && key.code is Char && key_priority(key.code->0) is Some {
        set_priority_step(a, key_priority(key.code->0).unwrap())
    } else if pending == Some('z') && key.code == KeyCode::Char('M') {
        (fold_all_step(a), false)
    } else if pending == Some('z') && key.code == KeyCode::Char('R') {
        (unfold_all_step(a), false)
    } else if pending == Some('z') && key.code == KeyCode::Char('a') {
        (toggle_fold_step(a), false)
    } else {
        match key.code {
            KeyCode::Char(c) => list_char_step(a, pending, c, key.ctrl, today),
            KeyCode::Down => (a.at(min(a.cursor + 1, a.last_row())), false),
            KeyCode::Up => (a.at(sat_dec(a.cursor)), false),
            KeyCode::Enter => match a.selected_task() {
                Some(n) => (a.focused(FocusView::Popup(edit_editor(a.todos[n - 1]), Target::Edit(n))), false),
                None => (a, false),
            },
            KeyCode::Esc => (AppView { search: Seq::empty(), filter: None, cursor: 0, ..a }, false),
            KeyCode::Tab => (a.focused(FocusView::Panel), false),
            _ => (a, false),
        }
    }
}

/// A key while the search is typed: a character goes in, Backspace erases one, Esc drops
/// the search and Enter keeps it; the cursor goes to the top.
pub open spec fn search_step(a: AppView, key: Key) -> AppView {
    let b = if is_ctrl_c(key) {
        AppView { quit: true, ..a }
    } else {
        match key.code {
            KeyCode::Char(c) => if key.ctrl {
                a
            } else {
                AppView { search: a.search.push(c), ..a }
            },
            KeyCode::Backspace => AppView {
                search: if a.search.len() > 0 {
                    a.search.drop_last()
                } else {
                    a.search
                },
                ..a
            },
            KeyCode::Esc => AppView { search: Seq::empty(), focus: FocusView::List, ..a },
            KeyCode::Enter => a.focused(FocusView::List),
            _ => a,
        }
    };
    b.at(0)
}

/// A key in the panel: `j` and `k` pick the next or previous entry as the filter, Esc goes
/// back to `all`, Tab and Enter go back to the list; a new filter puts the cursor at the top.
pub open spec fn panel_step(a: AppView, key: Key) -> AppView {
    let f = spec_filters(a.todos, a.show_done);
    let row = filter_row_of(f, a.filter) as int;
    let pick = |r: int|
        if r > 0 {
            Some(f[r].0)
        } else {
            None
        };
    let b = if is_ctrl_c(key) || key.code == KeyCode::Char('q') {
        AppView { quit: true, ..a }
    } else if key.code == KeyCode::Char('j') || key.code == KeyCode::Down {
        AppView { filter: pick(min(row + 1, f.len() - 1)), ..a }
    } else if key.code == KeyCode::Char('k') || key.code == KeyCode::Up {
        AppView { filter: pick(sat_dec(row)), ..a }
    } else if key.code == KeyCode::Esc {
        AppView { filter: None, ..a }
    } else if key.code == KeyCode::Tab || key.code == KeyCode::Enter {
        a.focused(FocusView::List)
    } else {
        a
    };
    if b.filter != a.filter {
        b.at(0)
    } else {
        b
    }
}

/// The typed `text` added as a task dated `today`, given the panel's word when it lacks it,
/// with the cursor on it; a text without a description only says so.
pub open spec fn add_step(a: AppView, text: Seq<char>, today: Date) -> (AppView, bool) {
    let v = spec_from_line(text);
    if !has_text(v.description) {
        (a.say(no_description_message()), false)
    } else {
        let t0 = TodoView { created: if v.created is Some { v.created } else { Some(today) }, ..v };
        let t = match a.filter {
            Some(f) => if has_word(t0.description, f) {
                t0
            } else {
                TodoView { description: t0.description + seq![' '] + f, ..t0 }
            },
            None => t0,
        };
        let b = a.recorded();
        let c = b.with_todos(b.todos.push(t));
        (c.follow_or_say(c.todos.len() as usize, msg_added_hidden()), true)
    }
}

/// The typed `text` replacing task `n`, with the cursor on it; a text without a description
/// only says so, and an unchanged line changes nothing.
pub open spec fn edit_step(a: AppView, n: usize, text: Seq<char>) -> (AppView, bool) {
    let v = spec_from_line(text);
    if !has_text(v.description) {
        (a.say(no_description_message()), false)
    } else if spec_to_line(v) == spec_to_line(a.todos[n - 1]) {
        (a, false)
    } else {
        let b = a.recorded();
        (b.with_todos(b.todos.update(n - 1, v)).follow_or_say(n, msg_edited_hidden()), true)
    }
}

/// A key in the popup editing `e` for `target`.
pub open spec fn popup_step(a: AppView, e: EditorView, target: Target, key: Key, today: Date) -> (
    AppView,
    bool,
) {
    if is_ctrl_c(key) {
        (AppView { quit: true, ..a }.focused(FocusView::Popup(e, target)), false)
    } else {
        let (e2, out) = spec_handle_key(e, key);
        match out {
            Outcome::Continue => (a.focused(FocusView::Popup(e2, target)), false),
            Outcome::Cancel => (a.focused(FocusView::List), false),
            Outcome::Submit => {
                let b = a.focused(FocusView::List);
                match target {
                    Target::Add => add_step(b, e2.text, today),
                    Target::Edit(n) => edit_step(b, n, e2.text),
                }
            },
        }
    }
}

/// What one key press does to the state, dated `today`, and whether the file must be
/// rewritten.
pub open spec fn app_step(a: AppView, key: Key, today: Date) -> (AppView, bool) {
    let a0 = AppView { pending: None, message: None, ..a };
    let (b, write) = match a.focus {
        FocusView::Help => (a0.focused(FocusView::List), false),
        FocusView::Popup(e, t) => popup_step(a0, e, t, key, today),
        FocusView::Search => (search_step(a0, key), false),
        FocusView::Panel => (panel_step(a0, key), false),
        FocusView::List => list_step(a0, a.pending, key, today),
    };
    (b.settle(), write)
}

/// What a fresh read of the file does: the list is replaced and its history forgotten, an edit
/// is cancelled since its task's number may now name another one.
pub open spec fn reload_step(a: AppView, todos: Seq<TodoView>) -> AppView {
    let cancelled = a.focus matches FocusView::Popup(_, Target::Edit(_));
    AppView {
        todos,
        undo: Seq::empty(),
        redo: Seq::empty(),
        focus: if cancelled { FocusView::List } else { a.focus },
        message: Some(if cancelled { msg_reloaded_edit_cancelled() } else { msg_reloaded() }),
        ..a
    }.settle()
}

/// What a paste does: its lines go on one line into the popup or the search, and nowhere
/// else.
pub open spec fn paste_step(a: AppView, text: Seq<char>) -> AppView {
    match a.focus {
        FocusView::Popup(e, t) => a.focused(FocusView::Popup(spec_paste(e, spec_one_line(text)), t)),
        FocusView::Search => AppView { search: a.search + spec_one_line(text), cursor: 0, ..a },
        _ => a,
    }.settle()
}

/// Every task of a list can be written exactly when its values can.
pub proof fn lemma_list_wf(todos: Seq<Todo>)
    ensures
        list_wf(views(todos)) == all_wf(todos),
{
    if list_wf(views(todos)) {
        assert forall|i: int| 0 <= i < todos.len() implies (#[trigger] todos[i]).wf() by {
            assert(views(todos)[i] == todos[i]@);
        }
    }
    if all_wf(todos) {
        assert forall|i: int| 0 <= i < views(todos).len() implies (#[trigger] views(todos)[i]).wf() by {
            assert(views(todos)[i] == todos[i]@);
        }
    }
}

/// A copy of a list.
fn copy_list(v: &Vec<Todo>) -> (r: Vec<Todo>)
    ensures
        views(r@) == views(v@),
{
    let mut r: Vec<Todo> = Vec::new();
    let mut i: usize = 0;
    while i < v.len()
        invariant
            i <= v@.len(),
            r@.len() == i,
            forall|k: int| 0 <= k < i ==> (#[trigger] r@[k])@ == v@[k]@,
        decreases v@.len() - i,
    {
        r.push(v[i].copy());
        i = i + 1;
    }
    assert(views(r@) =~= views(v@));
    r
}

/// The priority a key gives after `p`.
fn key_priority_exec(c: char) -> (r: Option<Option<char>>)
    ensures
        r == key_priority(c),
{
    if c == ' ' {
        Some(None)
    } else if c == 'a' {
        Some(Some('A'))
    } else if c == 'b' {
        Some(Some('B'))
    } else if c == 'c' {
        Some(Some('C'))
    } else if c == 'd' {
        Some(Some('D'))
    } else if c == 'e' {
        Some(Some('E'))
    } else {
        None
    }
}

/// Where `row` is among `rows`.
fn position(rows: &Vec<Row>, row: Row) -> (r: Option<usize>)
    ensures
        r matches Some(i) ==> rows@.index_of_first(row) == Some(i as int),
        r is None ==> rows@.index_of_first(row) is None,
{
    let mut i: usize = 0;
    while i < rows.len()
        invariant
            i <= rows@.len(),
            forall|k: int| 0 <= k < i ==> rows@[k] != row,
        decreases rows@.len() - i,
    {
        if rows[i] == row {
            proof {
                rows@.index_of_first_ensures(row);
                assert(rows@.contains(row));
                let idx = rows@.index_of_first(row).unwrap();
                if idx < i {
                    assert(rows@[idx] != row);
                }
                if idx > i {
                    assert(rows@[i as int] != row);
                }
            }
            return Some(i);
        }
        i = i + 1;
    }
    proof {
        rows@.index_of_first_ensures(row);
    }
    None
}

impl App {
    /// Whether the state can be worked on.
    pub open spec fn wf(&self) -> bool {
        self@.wf()
    }

    /// The row under the cursor.
    fn selected_row(&self) -> (r: Option<Row>)
        requires
            self.wf(),
        ensures
            r == self@.selected_row(),
            r matches Some(Row::Task(n)) ==> 1 <= n <= self.store.todos@.len(),
    {
        proof {
            lemma_list_wf(self.store.todos@);
        }
        let rows = self.rows();
        if self.cursor < rows.len() {
            let row = rows[self.cursor];
            if let Row::Task(n) = row {
                let tasks = self.tasks();
                proof {
                    let a = self@;
                    let nums = a.tasks();
                    lemma_rows_upto_tasks(a.todos, nums, a.folded, grouped(a.todos, nums), nums.len() as int);
                    assert(a.rows()[a.cursor] == Row::Task(n));
                    assert(nums.contains(n));
                    let j = choose|j: int| 0 <= j < nums.len() && nums[j] == n;
                    assert(numbers_of(tasks@)[j] == tasks@[j].0);
                }
            }
            Some(row)
        } else {
            None
        }
    }

    /// The number of the task under the cursor.
    fn selected_task(&self) -> (r: Option<usize>)
        requires
            self.wf(),
        ensures
            r == self@.selected_task(),
            r matches Some(n) ==> 1 <= n <= self.store.todos@.len(),
    {
        match self.selected_row() {
            Some(Row::Task(n)) => Some(n),
            _ => None,
        }
    }

    /// The last row.
    fn last_row(&self) -> (r: usize)
        requires
            self.wf(),
        ensures
            r == self@.last_row(),
    {
        proof {
            lemma_list_wf(self.store.todos@);
        }
        let n = self.rows().len();
        if n > 0 {
            n - 1
        } else {
            0
        }
    }

    /// Where `row` is on screen.
    fn locate(&self, row: Row) -> (r: Option<usize>)
        requires
            self.wf(),
        ensures
            r matches Some(i) ==> self@.locate(row) == Some(i as int),
            r is None ==> self@.locate(row) is None,
    {
        proof {
            lemma_list_wf(self.store.todos@);
        }
        let rows = self.rows();
        position(&rows, row)
    }

    /// Puts the cursor on `row`, or leaves it when `row` is not on screen.
    fn jump(&mut self, row: Row)
        requires
            old(self).wf(),
        ensures
            final(self)@ == old(self)@.jump(row),
            final(self).wf(),
    {
        if let Some(i) = self.locate(row) {
            self.cursor = i;
        }
    }

    /// Where task `n` is on screen.
    fn follow(&self, n: usize) -> (r: Option<usize>)
        requires
            self.wf(),
        ensures
            r matches Some(i) ==> self@.follow(n) == Some(i as int),
            r is None ==> self@.follow(n) is None,
    {
        proof {
            lemma_list_wf(self.store.todos@);
        }
        let tasks = self.tasks();
        let mut on_screen = false;
        let mut k: usize = 0;
        let ghost nums = numbers_of(tasks@);
        while k < tasks.len()
            invariant
                k <= tasks@.len(),
                nums == numbers_of(tasks@),
                on_screen == exists|j: int| 0 <= j < k && nums[j] == n,
            decreases tasks@.len() - k,
        {
            assert(nums[k as int] == tasks@[k as int].0);
            if tasks[k].0 == n {
                on_screen = true;
            }
            k = k + 1;
        }
        if !on_screen {
            return None;
        }
        assert(nums.contains(n));
        match self.locate(Row::Task(n)) {
            Some(i) => Some(i),
            None => {
                proof {
                    let j = choose|j: int| 0 <= j < nums.len() && nums[j] == n;
                    assert(numbers_of(tasks@)[j] == tasks@[j].0);
                }
                let g = group_of_todo(&self.store.todos[n - 1]);
                self.locate(Row::Group(g))
            },
        }
    }

    /// Puts the cursor on task `n`, or says `m` when it is not on screen.
    fn follow_or_say(&mut self, n: usize, m: String)
        requires
            old(self).wf(),
        ensures
            final(self)@ == old(self)@.follow_or_say(n, m@),
            final(self).wf(),
    {
        match self.follow(n) {
            Some(i) => self.cursor = i,
            None => self.message = Some(m),
        }
    }

    /// Puts the cursor on task `n` when it is on screen.
    fn follow_quietly(&mut self, n: usize)
        requires
            old(self).wf(),
        ensures
            final(self)@ == old(self)@.follow_quietly(n),
            final(self).wf(),
    {
        if let Some(i) = self.follow(n) {
            self.cursor = i;
        }
    }

    /// Saves the list for undo, leaving nothing to redo.
    fn record(&mut self)
        requires
            old(self).wf(),
        ensures
            final(self)@ == old(self)@.recorded(),
            final(self).wf(),
    {
        let saved = copy_list(&self.store.todos);
        self.undo.push(saved);
        self.redo = Vec::new();
        assert(history_view(self.undo@) =~= history_view(old(self).undo@).push(views(saved@)));
        assert(history_view(self.redo@) =~= Seq::empty());
    }

    /// Unfolds the groups no longer on screen and keeps the cursor on a row.
    fn settle(&mut self)
        requires
            old(self).wf(),
        ensures
            final(self)@ == old(self)@.settle(),
            final(self).wf(),
    {
        proof {
            lemma_list_wf(self.store.todos@);
        }
        let groups = self.groups();
        let ghost g = self@.groups();
        let mut kept: Vec<Group> = Vec::new();
        let mut i: usize = 0;
        while i < self.folded.len()
            invariant
                i <= self.folded@.len(),
                counts_view(groups@) == g,
                kept@ == self.folded@.take(i as int).filter(|x: Group| has_group(g, x)),
            decreases self.folded@.len() - i,
        {
            let x = self.folded[i];
            let mut found = false;
            let mut k: usize = 0;
            while k < groups.len()
                invariant
                    k <= groups@.len(),
                    counts_view(groups@) == g,
                    found == exists|j: int| 0 <= j < k && (#[trigger] g[j]).0 == x,
                decreases groups@.len() - k,
            {
                assert(g[k as int].0 == groups@[k as int].0);
                if groups[k].0 == x {
                    found = true;
                }
                k = k + 1;
            }
            proof {
                assert(self.folded@.take(i + 1) =~= self.folded@.take(i as int).push(x));
                self.folded@.take(i as int).lemma_filter_push(x, |x: Group| has_group(g, x));
            }
            if found {
                kept.push(x);
            }
            i = i + 1;
        }
        assert(self.folded@.take(self.folded@.len() as int) =~= self.folded@);
        self.folded = kept;
        let n = self.rows().len();
        let last = if n > 0 { n - 1 } else { 0 };
        if self.cursor > last {
            self.cursor = last;
        }
    }
}

/// The number of the first task of group `x` among the tasks listed.
fn first_in_exec(tasks: &Vec<(usize, &Todo)>, x: Group, todos: Ghost<Seq<TodoView>>) -> (r: usize)
    requires
        forall|k: int| 0 <= k < tasks@.len() ==> todos@[tasks@[k].0 - 1] == (#[trigger] tasks@[k]).1@,
    ensures
        r == first_in(todos@, numbers_of(tasks@), x),
{
    let ghost nums = numbers_of(tasks@);
    let ghost gs = nums.map_values(|n: usize| task_group(todos@, n));
    let mut k: usize = 0;
    while k < tasks.len()
        invariant
            k <= tasks@.len(),
            nums == numbers_of(tasks@),
            gs == nums.map_values(|n: usize| task_group(todos@, n)),
            forall|k: int| 0 <= k < tasks@.len() ==> todos@[tasks@[k].0 - 1] == (#[trigger] tasks@[k]).1@,
            forall|j: int| 0 <= j < k ==> gs[j] != x,
        decreases tasks@.len() - k,
    {
        assert(gs[k as int] == group_of(tasks@[k as int].1@));
        if group_of_todo(tasks[k].1) == x {
            proof {
                gs.index_of_first_ensures(x);
                assert(gs.contains(x));
                let idx = gs.index_of_first(x).unwrap();
                if idx < k {
                    assert(gs[idx] != x);
                }
                if idx > k {
                    assert(gs[k as int] != x);
                }
            }
            return tasks[k].0;
        }
        k = k + 1;
    }
    proof {
        gs.index_of_first_ensures(x);
    }
    0
}

impl App {
    /// `p` then a priority key.
    fn set_priority(&mut self, p: Option<char>) -> (r: bool)
        requires
            old(self).wf(),
        ensures
            (final(self)@, r) == set_priority_step(old(self)@, p),
            final(self).wf(),
    {
        match self.selected_task() {
            Some(n) => {
                let same = match (self.store.todos[n - 1].priority, p) {
                    (Some(a), Some(b)) => a == b,
                    (None, None) => true,
                    _ => false,
                };
                if !self.store.todos[n - 1].done && !same {
                    self.record();
                    let mut u = self.store.todos[n - 1].copy();
                    u.priority = p;
                    self.store.todos.set(n - 1, u);
                    assert(views(self.store.todos@) =~= old(self)@.recorded().todos.update(
                        n - 1,
                        TodoView { priority: p, ..old(self)@.todos[n - 1] },
                    ));
                    self.follow_quietly(n);
                    true
                } else {
                    false
                }
            },
            None => false,
        }
    }

    /// `x`: the task under the cursor done, or pending again.
    fn toggle_done(&mut self, today: Date) -> (r: bool)
        requires
            old(self).wf(),
            today.valid(),
        ensures
            (final(self)@, r) == toggle_done_step(old(self)@, today),
            final(self).wf(),
    {
        match self.selected_task() {
            Some(n) => {
                self.record();
                let mut u = self.store.todos[n - 1].copy();
                if u.done {
                    u.reopen();
                } else {
                    u.complete(today);
                }
                self.store.todos.set(n - 1, u);
                let ghost t = old(self)@.todos[n - 1];
                assert(views(self.store.todos@) =~= old(self)@.recorded().todos.update(
                    n - 1,
                    if t.done {
                        TodoView { done: false, completed: None, ..t }
                    } else {
                        TodoView { done: true, completed: Some(today), priority: None, ..t }
                    },
                ));
                true
            },
            None => false,
        }
    }

    /// `dd`: the task under the cursor removed.
    fn delete(&mut self) -> (r: bool)
        requires
            old(self).wf(),
            old(self)@.focus is List,
        ensures
            (final(self)@, r) == delete_step(old(self)@),
            final(self).wf(),
    {
        match self.selected_task() {
            Some(n) => {
                self.record();
                self.store.todos.remove(n - 1);
                assert(views(self.store.todos@) =~= old(self)@.recorded().todos.remove(n - 1));
                assert forall|i: int| 0 <= i < self@.todos.len() implies (#[trigger] self@.todos[i]).wf() by {
                    if i < n - 1 {
                        assert(self@.todos[i] == old(self)@.todos[i]);
                    } else {
                        assert(self@.todos[i] == old(self)@.todos[i + 1]);
                    }
                }
                true
            },
            None => false,
        }
    }

    /// `zM`: every group on screen folded.
    fn fold_all(&mut self)
        requires
            old(self).wf(),
        ensures
            final(self)@ == fold_all_step(old(self)@),
            final(self).wf(),
    {
        proof {
            lemma_list_wf(self.store.todos@);
        }
        let groups = self.groups();
        if groups.len() == 0 {
            return;
        }
        let sel = self.selected_row();
        let mut folded: Vec<Group> = Vec::new();
        let mut i: usize = 0;
        while i < groups.len()
            invariant
                i <= groups@.len(),
                folded@ == counts_view(groups@).take(i as int).map_values(|p: (Group, nat)| p.0),
            decreases groups@.len() - i,
        {
            folded.push(groups[i].0);
            i = i + 1;
            assert(folded@ =~= counts_view(groups@).take(i as int).map_values(|p: (Group, nat)| p.0));
        }
        assert(counts_view(groups@).take(groups@.len() as int) =~= counts_view(groups@));
        self.folded = folded;
        match sel {
            Some(Row::Task(n)) => {
                let g = group_of_todo(&self.store.todos[n - 1]);
                self.jump(Row::Group(g));
            },
            Some(Row::Group(x)) => self.jump(Row::Group(x)),
            None => {},
        }
    }
}

impl App {
    /// `zR`: every group unfolded.
    fn unfold_all(&mut self)
        requires
            old(self).wf(),
        ensures
            final(self)@ == unfold_all_step(old(self)@),
            final(self).wf(),
    {
        proof {
            lemma_list_wf(self.store.todos@);
        }
        let groups = self.groups();
        if groups.len() == 0 {
            return;
        }
        let sel = self.selected_row();
        let tasks = self.tasks();
        let ghost todos = views(self.store.todos@);
        assert forall|k: int| 0 <= k < tasks@.len() implies todos[tasks@[k].0 - 1] == (
        #[trigger] tasks@[k]).1@ by {}
        let target = match sel {
            Some(Row::Group(x)) => Some(Row::Task(first_in_exec(&tasks, x, Ghost(todos)))),
            Some(Row::Task(n)) => Some(Row::Task(n)),
            None => None,
        };
        self.folded = Vec::new();
        if let Some(row) = target {
            self.jump(row);
        }
    }

    /// `za`: the group under the cursor folded or unfolded.
    fn toggle_fold(&mut self)
        requires
            old(self).wf(),
        ensures
            final(self)@ == toggle_fold_step(old(self)@),
            final(self).wf(),
    {
        proof {
            lemma_list_wf(self.store.todos@);
        }
        let groups = self.groups();
        if groups.len() == 0 {
            return;
        }
        match self.selected_row() {
            Some(Row::Task(n)) => {
                let x = group_of_todo(&self.store.todos[n - 1]);
                self.folded.push(x);
                self.jump(Row::Group(x));
            },
            Some(Row::Group(x)) => {
                let tasks = self.tasks();
                let ghost todos = views(self.store.todos@);
                assert forall|k: int| 0 <= k < tasks@.len() implies todos[tasks@[k].0 - 1] == (
                #[trigger] tasks@[k]).1@ by {}
                let first = first_in_exec(&tasks, x, Ghost(todos));
                let mut kept: Vec<Group> = Vec::new();
                let mut i: usize = 0;
                while i < self.folded.len()
                    invariant
                        i <= self.folded@.len(),
                        kept@ == self.folded@.take(i as int).filter(|y: Group| y != x),
                    decreases self.folded@.len() - i,
                {
                    let y = self.folded[i];
                    proof {
                        assert(self.folded@.take(i + 1) =~= self.folded@.take(i as int).push(y));
                        self.folded@.take(i as int).lemma_filter_push(y, |y: Group| y != x);
                    }
                    if y != x {
                        kept.push(y);
                    }
                    i = i + 1;
                }
                assert(self.folded@.take(self.folded@.len() as int) =~= self.folded@);
                self.folded = kept;
                self.jump(Row::Task(first));
            },
            None => {},
        }
    }

    /// `u`: the list before the last change back.
    fn undo_change(&mut self) -> (r: bool)
        requires
            old(self).wf(),
            old(self)@.focus is List,
        ensures
            (final(self)@, r) == undo_step(old(self)@),
            final(self).wf(),
    {
        if self.undo.len() == 0 {
            self.message = Some(nothing_to_undo_message());
            return false;
        }
        let mut list = self.undo.pop().unwrap();
        std::mem::swap(&mut list, &mut self.store.todos);
        self.redo.push(list);
        self.message = Some(undone_message());
        assert(history_view(self.undo@) =~= old(self)@.undo.drop_last());
        assert(history_view(self.redo@) =~= old(self)@.redo.push(old(self)@.todos));
        assert(views(self.store.todos@) == old(self)@.undo.last());
        true
    }

    /// Control-R: the list last undone back.
    fn redo_change(&mut self) -> (r: bool)
        requires
            old(self).wf(),
            old(self)@.focus is List,
        ensures
            (final(self)@, r) == redo_step(old(self)@),
            final(self).wf(),
    {
        if self.redo.len() == 0 {
            self.message = Some(nothing_to_redo_message());
            return false;
        }
        let mut list = self.redo.pop().unwrap();
        std::mem::swap(&mut list, &mut self.store.todos);
        self.undo.push(list);
        self.message = Some(redone_message());
        assert(history_view(self.redo@) =~= old(self)@.redo.drop_last());
        assert(history_view(self.undo@) =~= old(self)@.undo.push(old(self)@.todos));
        assert(views(self.store.todos@) == old(self)@.redo.last());
        true
    }

    /// Adds the task typed as `text`, dated `today`, with the cursor on it; a rejected text only
    /// leaves a message. Under a panel filter the word is appended when the task lacks it.
    fn add(&mut self, text: &str, today: Date) -> (r: bool)
        requires
            old(self).wf(),
            old(self)@.focus is List,
            today.valid(),
        ensures
            (final(self)@, r) == add_step(old(self)@, text@, today),
            final(self).wf(),
    {
        match Todo::new_from_input(text, today) {
            Ok(mut todo) => {
                let ghost v = spec_from_line(text@);
                let ghost t0 = TodoView {
                    created: if v.created is Some { v.created } else { Some(today) },
                    ..v
                };
                assert(todo@ == t0);
                if let Some(term) = &self.filter {
                    if !todo.has_word(term.as_str()) {
                        let mut d = String::new();
                        push_chars(&mut d, &chars_of(todo.description.as_str()));
                        push_chars(&mut d, &[' ']);
                        push_chars(&mut d, &chars_of(term.as_str()));
                        assert(d@ =~= t0.description + seq![' '] + term@);
                        todo.description = d;
                    }
                }
                assert(todo@ == match old(self)@.filter {
                    Some(f) => if has_word(t0.description, f) {
                        t0
                    } else {
                        TodoView { description: t0.description + seq![' '] + f, ..t0 }
                    },
                    None => t0,
                });
                self.record();
                self.store.add(todo);
                let ghost b = old(self)@.recorded();
                assert(views(self.store.todos@) =~= b.todos.push(todo@));
                assert(todo@.wf());
                assert(self@ == b.with_todos(b.todos.push(todo@)));
                assert(list_wf(self@.todos));
                let n = self.store.todos.len();
                self.follow_or_say(n, added_hidden_message());
                true
            },
            Err(e) => {
                self.message = Some(e);
                assert(self@.undo == old(self)@.undo);
                assert(self@.redo == old(self)@.redo);
                assert(self@.focus == old(self)@.focus);
                assert(self@ == old(self)@.say(no_description_message()));
                false
            },
        }
    }

    /// Replaces task `n` with the line typed as `text`, with the cursor on it; a text without a
    /// description only leaves a message, and an unchanged line changes nothing.
    fn edit(&mut self, n: usize, text: &str) -> (r: bool)
        requires
            old(self).wf(),
            old(self)@.focus is List,
            1 <= n <= old(self)@.todos.len(),
        ensures
            (final(self)@, r) == edit_step(old(self)@, n, text@),
            final(self).wf(),
    {
        proof {
            lemma_list_wf(self.store.todos@);
        }
        let todo = Todo::from_line(text);
        if !crate::todo::has_text_exec(todo.description.as_str()) {
            self.message = Some(crate::todo::no_description());
            assert(list_wf(self@.todos));
            assert(self@.undo == old(self)@.undo);
            assert(self@.focus == old(self)@.focus);
            assert(self@.redo == old(self)@.redo);
            assert(old(self)@.wf());
            assert(self@.wf());
            return false;
        }
        if todo.to_line() == self.store.todos[n - 1].to_line() {
            return false;
        }
        self.record();
        self.store.todos.set(n - 1, todo);
        assert(views(self.store.todos@) =~= old(self)@.recorded().todos.update(n - 1, todo@));
        self.follow_or_say(n, edited_hidden_message());
        true
    }
}

/// Whether the key waiting is `c`.
fn is_pending(pending: Option<char>, c: char) -> (r: bool)
    ensures
        r == (pending == Some(c)),
{
    match pending {
        Some(p) => p == c,
        None => false,
    }
}

impl App {
    /// A character key in the list.
    fn list_char(&mut self, pending: Option<char>, c: char, ctrl: bool, today: Date) -> (r: bool)
        requires
            old(self).wf(),
            old(self)@.focus is List,
            today.valid(),
        ensures
            (final(self)@, r) == list_char_step(old(self)@, pending, c, ctrl, today),
            final(self).wf(),
    {
        if c == 'q' {
            self.quit = true;
            false
        } else if c == 'j' {
            let last = self.last_row();
            self.cursor = if self.cursor < last { self.cursor + 1 } else { last };
            false
        } else if c == 'k' {
            self.cursor = if self.cursor > 0 { self.cursor - 1 } else { 0 };
            false
        } else if c == 'g' {
            if is_pending(pending, 'g') {
                self.cursor = 0;
            } else {
                self.pending = Some('g');
            }
            false
        } else if c == 'G' {
            self.cursor = self.last_row();
            false
        } else if c == 'x' {
            self.toggle_done(today)
        } else if c == 'd' {
            if is_pending(pending, 'd') {
                self.delete()
            } else {
                self.pending = Some('d');
                false
            }
        } else if c == 'p' || c == 'z' {
            self.pending = Some(c);
            false
        } else if c == 'u' {
            self.undo_change()
        } else if c == 'r' && ctrl {
            self.redo_change()
        } else if c == 'o' {
            self.focus = Focus::Popup(Popup { editor: Editor::new(String::new(), Mode::Insert), target: Target::Add });
            false
        } else if c == '/' {
            self.search = String::new();
            self.focus = Focus::Search;
            self.cursor = 0;
            false
        } else if c == '?' {
            self.focus = Focus::Help;
            false
        } else if c == 'H' {
            self.show_done = !self.show_done;
            self.cursor = 0;
            false
        } else {
            false
        }
    }

    /// A key in the list, `pending` being the key before it.
    fn list_key(&mut self, pending: Option<char>, key: Key, today: Date) -> (r: bool)
        requires
            old(self).wf(),
            old(self)@.focus is List,
            today.valid(),
        ensures
            (final(self)@, r) == list_step(old(self)@, pending, key, today),
            final(self).wf(),
    {
        if key.ctrl && key.code == KeyCode::Char('c') {
            self.quit = true;
            return false;
        }
        if let KeyCode::Char(c) = key.code {
            if is_pending(pending, 'p') {
                if let Some(p) = key_priority_exec(c) {
                    return self.set_priority(p);
                }
            }
            if is_pending(pending, 'z') {
                if c == 'M' {
                    self.fold_all();
                    return false;
                } else if c == 'R' {
                    self.unfold_all();
                    return false;
                } else if c == 'a' {
                    self.toggle_fold();
                    return false;
                }
            }
            return self.list_char(pending, c, key.ctrl, today);
        }
        match key.code {
            KeyCode::Down => {
                let last = self.last_row();
                self.cursor = if self.cursor < last { self.cursor + 1 } else { last };
                false
            },
            KeyCode::Up => {
                self.cursor = if self.cursor > 0 { self.cursor - 1 } else { 0 };
                false
            },
            KeyCode::Enter => {
                match self.selected_task() {
                    Some(n) => {
                        proof {
                            lemma_list_wf(self.store.todos@);
                        }
                        let line = self.store.todos[n - 1].to_line();
                        self.focus = Focus::Popup(Popup { editor: Editor::new(line, Mode::Normal), target: Target::Edit(n) });
                    },
                    None => {},
                }
                false
            },
            KeyCode::Esc => {
                self.search = String::new();
                self.filter = None;
                self.cursor = 0;
                false
            },
            KeyCode::Tab => {
                self.focus = Focus::Panel;
                false
            },
            _ => false,
        }
    }

    /// A key while the search is typed.
    fn search_key(&mut self, key: Key)
        requires
            old(self).wf(),
            old(self)@.focus is Search,
        ensures
            final(self)@ == search_step(old(self)@, key),
            final(self).wf(),
    {
        if key.ctrl && key.code == KeyCode::Char('c') {
            self.quit = true;
        } else {
            match key.code {
                KeyCode::Char(c) => {
                    if !key.ctrl {
                        crate::text::push_char(&mut self.search, c);
                    }
                },
                KeyCode::Backspace => {
                    let cs = chars_of(self.search.as_str());
                    if cs.len() > 0 {
                        let kept = crate::text::subrange_chars(&cs, 0, cs.len() - 1);
                        self.search = crate::text::string_of(&kept);
                        assert(self.search@ =~= old(self)@.search.drop_last());
                    }
                },
                KeyCode::Esc => {
                    self.search = String::new();
                    self.focus = Focus::List;
                },
                KeyCode::Enter => {
                    self.focus = Focus::List;
                },
                _ => {},
            }
        }
        self.cursor = 0;
    }

    /// A key in the panel.
    fn panel_key(&mut self, key: Key)
        requires
            old(self).wf(),
            old(self)@.focus is Panel,
        ensures
            final(self)@ == panel_step(old(self)@, key),
            final(self).wf(),
    {
        proof {
            lemma_list_wf(self.store.todos@);
        }
        let filters = self.filters();
        let row = self.filter_row(&filters);
        let ghost f = spec_filters(self@.todos, self.show_done);
        assert(entries_view(filters@) == f);
        proof {
            if let Some(x) = opt_view(self.filter) {
                entry_names(f).index_of_first_ensures(x);
            }
            assert(f.len() >= 1);
            assert(filters@.len() == f.len());
        }
        let changed;
        if (key.ctrl && key.code == KeyCode::Char('c')) || key.code == KeyCode::Char('q') {
            self.quit = true;
            changed = false;
        } else if key.code == KeyCode::Char('j') || key.code == KeyCode::Down || key.code
            == KeyCode::Char('k') || key.code == KeyCode::Up {
            let down = key.code == KeyCode::Char('j') || key.code == KeyCode::Down;
            let last = filters.len() - 1;
            let to = if down {
                if row < last { row + 1 } else { last }
            } else {
                if row > 0 { row - 1 } else { 0 }
            };
            let picked = if to > 0 {
                assert(f[to as int].0 == filters@[to as int].0@);
                Some(filters[to].0.clone())
            } else {
                None
            };
            changed = match (&picked, &self.filter) {
                (Some(a), Some(b)) => !(*a == *b),
                (None, None) => false,
                _ => true,
            };
            self.filter = picked;
        } else if key.code == KeyCode::Esc {
            changed = self.filter.is_some();
            self.filter = None;
        } else if key.code == KeyCode::Tab || key.code == KeyCode::Enter {
            self.focus = Focus::List;
            changed = false;
        } else {
            changed = false;
        }
        if changed {
            self.cursor = 0;
        }
    }

    /// A key in the popup editing with `editor` for `target`, the focus taken from it.
    fn popup_key(&mut self, editor: Editor, target: Target, key: Key, today: Date) -> (r: bool)
        requires
            old(self).wf(),
            old(self)@.focus is List,
            editor@.wf(),
            target matches Target::Edit(n) ==> 1 <= n <= old(self)@.todos.len(),
            today.valid(),
        ensures
            (final(self)@, r) == popup_step(old(self)@, editor@, target, key, today),
            final(self).wf(),
    {
        if key.ctrl && key.code == KeyCode::Char('c') {
            self.quit = true;
            self.focus = Focus::Popup(Popup { editor, target });
            return false;
        }
        let mut editor = editor;
        match editor.handle_key(key) {
            Outcome::Continue => {
                self.focus = Focus::Popup(Popup { editor, target });
                false
            },
            Outcome::Cancel => false,
            Outcome::Submit => match target {
                Target::Add => self.add(editor.text.as_str(), today),
                Target::Edit(n) => self.edit(n, editor.text.as_str()),
            },
        }
    }

    /// Applies one key press to the state, dated `today`, and tells whether the file must be
    /// rewritten.
    pub fn handle_key(&mut self, key: Key, today: Date) -> (r: bool)
        requires
            old(self).wf(),
            today.valid(),
        ensures
            (final(self)@, r) == app_step(old(self)@, key, today),
            final(self).wf(),
            history_distinct(old(self)@) ==> history_distinct(final(self)@) && (r <==> lines_of(
                final(self)@.todos,
            ) != lines_of(old(self)@.todos)),
    {
        let pending = self.pending;
        self.pending = None;
        self.message = None;
        let mut focus = Focus::List;
        std::mem::swap(&mut focus, &mut self.focus);
        assert(self@.undo == old(self)@.undo);
        assert(self@.redo == old(self)@.redo);
        assert(self@.todos == old(self)@.todos);
        assert(focus@ == old(self)@.focus);
        let write = match focus {
            Focus::Help => false,
            Focus::Popup(popup) => self.popup_key(popup.editor, popup.target, key, today),
            Focus::Search => {
                self.focus = Focus::Search;
                self.search_key(key);
                false
            },
            Focus::Panel => {
                self.focus = Focus::Panel;
                self.panel_key(key);
                false
            },
            Focus::List => self.list_key(pending, key, today),
        };
        self.settle();
        proof {
            if history_distinct(old(self)@) {
                assert(old(self)@.todos.len() == old(self).store.todos.len());
                law_write_iff_lines_change(old(self)@, key, today);
            }
        }
        write
    }
}

/// The state of a list just opened on `todos`.
pub open spec fn opened(todos: Seq<TodoView>) -> AppView {
    AppView {
        todos,
        cursor: 0,
        pending: None,
        show_done: false,
        quit: false,
        message: None,
        focus: FocusView::List,
        search: Seq::empty(),
        filter: None,
        folded: Seq::empty(),
        undo: Seq::empty(),
        redo: Seq::empty(),
    }
}

impl App {
    /// Opens the list on its first row.
    pub fn new(store: Store) -> (r: App)
        ensures
            r@ == opened(views(store.todos@)),
            store.wf() ==> r.wf(),
            history_distinct(r@),
    {
        proof {
            lemma_list_wf(store.todos@);
        }
        let r = App {
            store,
            cursor: 0,
            pending: None,
            show_done: false,
            quit: false,
            message: None,
            focus: Focus::List,
            search: String::new(),
            filter: None,
            folded: Vec::new(),
            undo: Vec::new(),
            redo: Vec::new(),
        };
        assert(history_view(r.undo@) =~= Seq::empty());
        assert(history_view(r.redo@) =~= Seq::empty());
        r
    }

    /// Replaces the tasks with a fresh read of the file, forgetting the history, keeping the
    /// cursor on its row, and cancelling an edit.
    pub fn reload(&mut self, store: Store)
        requires
            old(self).wf(),
            store.wf(),
        ensures
            final(self)@ == reload_step(old(self)@, views(store.todos@)),
            final(self).wf(),
            history_distinct(final(self)@),
    {
        proof {
            lemma_list_wf(store.todos@);
        }
        self.store = store;
        self.undo = Vec::new();
        self.redo = Vec::new();
        assert(history_view(self.undo@) =~= Seq::empty());
        assert(history_view(self.redo@) =~= Seq::empty());
        let editing = match &self.focus {
            Focus::Popup(p) => p.target != Target::Add,
            _ => false,
        };
        if editing {
            self.focus = Focus::List;
            self.message = Some(reloaded_edit_cancelled_message());
        } else {
            self.message = Some(reloaded_message());
        }
        self.settle();
    }

    /// Types a paste into the popup or the search, its lines joined by spaces; elsewhere it is
    /// ignored.
    pub fn paste(&mut self, text: &str)
        requires
            old(self).wf(),
        ensures
            final(self)@ == paste_step(old(self)@, text@),
            final(self).wf(),
            history_distinct(old(self)@) ==> history_distinct(final(self)@),
    {
        let line = crate::text::one_line(text);
        let mut focus = Focus::List;
        std::mem::swap(&mut focus, &mut self.focus);
        match focus {
            Focus::Popup(popup) => {
                let mut editor = popup.editor;
                editor.paste(&line);
                self.focus = Focus::Popup(Popup { editor, target: popup.target });
            },
            Focus::Search => {
                push_chars(&mut self.search, &line);
                self.cursor = 0;
                self.focus = Focus::Search;
            },
            other => {
                self.focus = other;
            },
        }
        assert(self@.undo == old(self)@.undo);
        assert(self@.redo == old(self)@.redo);
        self.settle();
    }
}

/// The task rows of the first `k` tasks name some of those tasks.
pub proof fn lemma_rows_upto_tasks(
    todos: Seq<TodoView>,
    tasks: Seq<usize>,
    folded: Seq<Group>,
    g: bool,
    k: int,
)
    requires
        0 <= k <= tasks.len(),
    ensures
        forall|i: int|
            0 <= i < rows_upto(todos, tasks, folded, g, k).len() && (#[trigger] rows_upto(
                todos,
                tasks,
                folded,
                g,
                k,
            )[i]) is Task ==> tasks.contains(rows_upto(todos, tasks, folded, g, k)[i]->Task_0),
    decreases k,
{
    if k > 0 {
        lemma_rows_upto_tasks(todos, tasks, folded, g, k - 1);
        let prev = rows_upto(todos, tasks, folded, g, k - 1);
        let piece = row_piece(todos, tasks, folded, g, k - 1);
        assert forall|i: int|
            0 <= i < (prev + piece).len() && (#[trigger] (prev + piece)[i]) is Task implies tasks.contains(
                (prev + piece)[i]->Task_0,
            ) by {
            if i >= prev.len() {
                assert(tasks[k - 1] == (prev + piece)[i]->Task_0);
            } else {
                assert((prev + piece)[i] == prev[i]);
            }
        }
    }
}

} // verus!

//! The todo.txt file's text: the tasks it holds, and the text a list is written as.

use vstd::prelude::*;

use crate::store::{all_wf, views};
use crate::text::{chars_of, push_chars, subrange_chars};
use crate::todo::{
    Todo, TodoView, has_text, has_text_exec, spec_from_line, spec_to_line,
};

verus! {

/// A line without the `\r` of a `\r\n` ending.
pub open spec fn strip_cr(line: Seq<char>) -> Seq<char> {
    if line.len() > 0 && line.last() == '\r' {
        line.drop_last()
    } else {
        line
    }
}

/// The lines of a text as `str::lines` gives them: split at each `\n`, a `\r` before it
/// dropped, and no empty line after a final `\n`.
pub open spec fn spec_lines(s: Seq<char>) -> Seq<Seq<char>>
    decreases s.len(),
{
    if s.len() == 0 {
        Seq::empty()
    } else {
        match s.index_of_first('\n') {
            Some(i) => {
                proof {
                    s.index_of_first_ensures('\n');
                }
                seq![strip_cr(s.take(i))] + spec_lines(s.skip(i + 1))
            },
            None => seq![s],
        }
    }
}

/// The tasks a file's text holds: one per line that is not blank.
pub open spec fn spec_parse(s: Seq<char>) -> Seq<TodoView> {
    spec_lines(s).filter(|l: Seq<char>| has_text(l)).map_values(|l: Seq<char>| spec_from_line(l))
}

/// The text a list is written as: each task's line, ended by `\n`.
pub open spec fn spec_render(todos: Seq<TodoView>) -> Seq<char>
    decreases todos.len(),
{
    if todos.len() == 0 {
        Seq::empty()
    } else {
        spec_render(todos.drop_last()) + spec_to_line(todos.last()) + seq!['\n']
    }
}

/// Whether a task is written as one line of the file that reads back as the task: its line
/// holds no line break, does not end with `\r`, is not blank, and reads back as the task.
pub open spec fn one_line_task(t: TodoView) -> bool {
    let line = spec_to_line(t);
    &&& !line.contains('\n')
    &&& !(line.len() > 0 && line.last() == '\r')
    &&& has_text(line)
    &&& spec_from_line(line) == t
}

/// A non-empty list's text is its first task's line and a line break, then the text of the
/// rest.
proof fn lemma_render_front(todos: Seq<TodoView>)
    requires
        todos.len() > 0,
    ensures
        spec_render(todos) == spec_to_line(todos[0]) + seq!['\n'] + spec_render(todos.drop_first()),
    decreases todos.len(),
{
    if todos.len() == 1 {
        assert(todos.drop_first() =~= Seq::<TodoView>::empty());
        assert(todos.drop_last() =~= Seq::<TodoView>::empty());
        assert(spec_render(todos.drop_last()) == Seq::<char>::empty());
        assert(spec_render(todos.drop_first()) == Seq::<char>::empty());
        assert(todos.last() == todos[0]);
        assert(spec_render(todos) =~= spec_to_line(todos[0]) + seq!['\n']);
    } else {
        let init = todos.drop_last();
        lemma_render_front(init);
        assert(init.drop_first() =~= todos.drop_first().drop_last());
        assert(todos.drop_first().last() == todos.last());
        assert(init[0] == todos[0]);
        assert(spec_render(todos) =~= spec_to_line(todos[0]) + seq!['\n'] + spec_render(todos.drop_first()));
    }
}

/// The lines of a list's text are its tasks' lines, when each is one line.
#[verifier::spinoff_prover]
proof fn lemma_render_lines(todos: Seq<TodoView>)
    requires
        forall|i: int| 0 <= i < todos.len() ==> one_line_task(#[trigger] todos[i]),
    ensures
        spec_lines(spec_render(todos)) == todos.map_values(|t: TodoView| spec_to_line(t)),
    decreases todos.len(),
{
    if todos.len() == 0 {
        assert(spec_render(todos) =~= Seq::<char>::empty());
    } else {
        lemma_render_front(todos);
        let line = spec_to_line(todos[0]);
        let rest = spec_render(todos.drop_first());
        let s = line + seq!['\n'] + rest;
        assert forall|i: int| 0 <= i < todos.drop_first().len() implies one_line_task(
            #[trigger] todos.drop_first()[i],
        ) by {
            assert(todos.drop_first()[i] == todos[i + 1]);
        }
        lemma_render_lines(todos.drop_first());
        assert(s[line.len() as int] == '\n');
        assert(s.contains('\n'));
        s.index_of_first_ensures('\n');
        let k = s.index_of_first('\n').unwrap();
        if k < line.len() {
            assert(s[k] == line[k]);
            assert(line.contains('\n'));
        }
        assert(k == line.len());
        assert(s.take(k) =~= line);
        assert(s.skip(k + 1) =~= rest);
        assert(strip_cr(line) == line);
        assert(spec_lines(s) == seq![line] + spec_lines(rest));
        assert(todos.map_values(|t: TodoView| spec_to_line(t)) =~= seq![line]
            + todos.drop_first().map_values(|t: TodoView| spec_to_line(t)));
    }
}

/// Keeping what a predicate holds of changes nothing when it holds of every element.
proof fn lemma_filter_all(s: Seq<Seq<char>>, pred: spec_fn(Seq<char>) -> bool)
    requires
        forall|i: int| 0 <= i < s.len() ==> pred(#[trigger] s[i]),
    ensures
        s.filter(pred) == s,
    decreases s.len(),
{
    reveal_with_fuel(Seq::filter, 1);
    if s.len() > 0 {
        lemma_filter_all(s.drop_last(), pred);
        assert(s.drop_last().push(s.last()) =~= s);
    }
}

/// A list whose tasks are each written as one line is read back from its text as the same
/// list.
proof fn lemma_render_reads_back(todos: Seq<TodoView>)
    requires
        forall|i: int| 0 <= i < todos.len() ==> one_line_task(#[trigger] todos[i]),
    ensures
        spec_parse(spec_render(todos)) == todos,
{
    lemma_render_lines(todos);
    let lines = todos.map_values(|t: TodoView| spec_to_line(t));
    assert forall|i: int| 0 <= i < lines.len() implies has_text(#[trigger] lines[i]) by {
        assert(one_line_task(todos[i]));
    }
    lemma_filter_all(lines, |l: Seq<char>| has_text(l));
    assert forall|i: int| 0 <= i < todos.len() implies spec_from_line(lines[i]) == todos[i] by {
        assert(one_line_task(todos[i]));
    }
    assert(lines.filter(|l: Seq<char>| has_text(l)).map_values(|l: Seq<char>| spec_from_line(l)) =~= todos);
}

/// The tasks of a file's text, one per line that is not blank.
#[verifier::spinoff_prover]
pub fn parse_todos(content: &str) -> (r: Vec<Todo>)
    ensures
        views(r@) == spec_parse(content@),
        all_wf(r@),
{
    let cs = chars_of(content);
    let n = cs.len();
    let mut r: Vec<Todo> = Vec::new();
    let mut start: usize = 0;
    let ghost pred = |l: Seq<char>| has_text(l);
    assert(cs@.skip(0) =~= cs@);
    while start < n
        invariant
            cs@ == content@,
            n == cs@.len(),
            start <= n,
            all_wf(r@),
            views(r@) + spec_lines(cs@.skip(start as int)).filter(pred).map_values(
                |l: Seq<char>| spec_from_line(l),
            ) == spec_parse(content@),
            pred == (|l: Seq<char>| has_text(l)),
        decreases n - start,
    {
        let ghost rest = cs@.skip(start as int);
        let mut end: usize = start;
        while end < n && cs[end] != '\n'
            invariant
                start <= end <= n,
                n == cs@.len(),
                rest == cs@.skip(start as int),
                forall|k: int| 0 <= k < end - start ==> rest[k] != '\n',
            decreases n - end,
        {
            end = end + 1;
        }
        proof {
            rest.index_of_first_ensures('\n');
        }
        let next;
        let line;
        if end < n {
            proof {
                let e: int = end - start;
                assert(rest[e] == '\n');
                assert(rest.contains('\n'));
                let idx = rest.index_of_first('\n').unwrap();
                if idx < e {
                    assert(rest[idx] != '\n');
                }
                assert(idx == e);
            }
            let stop = if end > start && cs[end - 1] == '\r' { end - 1 } else { end };
            line = subrange_chars(&cs, start, stop);
            assert(line@ =~= strip_cr(rest.take(end - start)));
            next = end + 1;
            assert(rest.skip(end - start + 1) =~= cs@.skip(next as int));
            assert(spec_lines(rest) == seq![line@] + spec_lines(cs@.skip(next as int)));
        } else {
            assert(!rest.contains('\n'));
            line = subrange_chars(&cs, start, n);
            assert(line@ =~= rest);
            next = n;
            assert(cs@.skip(n as int) =~= Seq::<char>::empty());
            assert(spec_lines(rest) == seq![line@] + spec_lines(cs@.skip(next as int)));
        }
        let ghost later = spec_lines(cs@.skip(next as int));
        let keep = has_text_exec(&crate::text::string_of(&line).as_str());
        if keep {
            let t = Todo::from_line(crate::text::string_of(&line).as_str());
            let ghost before = views(r@);
            r.push(t);
            assert(views(r@) =~= before.push(t@));
        }
        proof {
            let f = |l: Seq<char>| spec_from_line(l);
            let fl = later.filter(pred);
            if keep {
                assert(spec_lines(rest).filter(pred) == seq![line@] + fl) by {
                    later.lemma_filter_prepend(line@, pred);
                }
                assert((seq![line@] + fl).map_values(f) =~= seq![spec_from_line(line@)] + fl.map_values(f));
            } else {
                assert(spec_lines(rest).filter(pred) == fl) by {
                    later.lemma_filter_prepend(line@, pred);
                }
            }
            assert(views(r@) + later.filter(pred).map_values(f) =~= spec_parse(content@));
        }
        start = next;
    }
    assert(cs@.skip(n as int) =~= Seq::<char>::empty());
    assert(views(r@) =~= spec_parse(content@));
    r
}

/// The text a list is written as: each task's line, ended by `\n`. When each task is
/// written as one line that reads back as the task (see `one_line_task`), the text reads
/// back as the same list.
#[verifier::spinoff_prover]
pub fn render(todos: &[Todo]) -> (r: String)
    requires
        all_wf(todos@),
    ensures
        r@ == spec_render(views(todos@)),
        (forall|i: int| 0 <= i < todos@.len() ==> one_line_task(#[trigger] todos@[i]@)) ==> spec_parse(r@)
            == views(todos@),
{
    let mut r = String::new();
    let mut i: usize = 0;
    while i < todos.len()
        invariant
            i <= todos@.len(),
            all_wf(todos@),
            r@ == spec_render(views(todos@).take(i as int)),
        decreases todos@.len() - i,
    {
        let line = todos[i].to_line();
        push_chars(&mut r, &chars_of(line.as_str()));
        push_chars(&mut r, &['\n']);
        proof {
            let t = views(todos@).take(i + 1);
            assert(t.drop_last() =~= views(todos@).take(i as int));
            assert(t.last() == todos@[i as int]@);
        }
        i = i + 1;
    }
    assert(views(todos@).take(todos@.len() as int) =~= views(todos@));
    proof {
        let v = views(todos@);
        if forall|i: int| 0 <= i < todos@.len() ==> one_line_task(#[trigger] todos@[i]@) {
            assert forall|i: int| 0 <= i < v.len() implies one_line_task(#[trigger] v[i]) by {
                assert(v[i] == todos@[i]@);
            }
            lemma_render_reads_back(v);
        }
    }
    r
}

} // verus!

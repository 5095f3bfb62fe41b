//! The task list: tasks in file order, a task's number being its position plus one.

use vstd::prelude::*;

use crate::date::Date;
use crate::text::{chars_of, contains, spec_contains, spec_lowercase, subrange_chars, to_lowercase};
use crate::todo::{Todo, TodoView, spec_to_line};

verus! {

/// Whether `line` contains every term, or lacks it when the term starts with a dash.
pub open spec fn spec_matches(line: Seq<char>, terms: Seq<Seq<char>>) -> bool {
    forall|i: int| 0 <= i < terms.len() ==> term_holds(line, #[trigger] terms[i])
}

/// Whether `line` contains `term`, or lacks what follows the dash of a term starting with one.
pub open spec fn term_holds(line: Seq<char>, term: Seq<char>) -> bool {
    if term.len() > 0 && term[0] == '-' {
        !spec_contains(line, term.skip(1))
    } else {
        spec_contains(line, term)
    }
}

/// The texts of a list of strings.
pub open spec fn texts(terms: Seq<String>) -> Seq<Seq<char>> {
    terms.map_values(|t: String| t@)
}

/// The terms as they are compared: in lower case.
pub open spec fn lowered(terms: Seq<Seq<char>>) -> Seq<Seq<char>> {
    terms.map_values(|t: Seq<char>| spec_lowercase(t))
}

/// Whether the task at `index` is listed: pending, or done when `all` is set, and its line in
/// lower case matching the terms in lower case.
pub open spec fn selected(
    todos: Seq<TodoView>,
    all: bool,
    terms: Seq<Seq<char>>,
    index: int,
) -> bool {
    &&& 0 <= index < todos.len()
    &&& all || !todos[index].done
    &&& spec_matches(spec_lowercase(spec_to_line(todos[index])), lowered(terms))
}

/// The tasks of a list as mathematical values.
pub open spec fn views(todos: Seq<Todo>) -> Seq<TodoView> {
    todos.map_values(|t: Todo| t@)
}

/// Whether task `a` sorts before task `b` in a listing: pending before done, then, among
/// pending tasks, a priority before none, then by priority letter. Done tasks all rank alike.
pub open spec fn key_lt(a: TodoView, b: TodoView) -> bool {
    if a.done != b.done {
        !a.done
    } else if a.done {
        false
    } else {
        match (a.priority, b.priority) {
            (Some(p), Some(q)) => p < q,
            (Some(_), None) => true,
            _ => false,
        }
    }
}

/// Whether tasks `a` and `b` sort alike in a listing: both done, or both pending with the same
/// priority.
pub open spec fn key_eq(a: TodoView, b: TodoView) -> bool {
    a.done == b.done && (a.done || a.priority == b.priority)
}

/// Whether task number `a` comes before task number `b` in a listing of `todos`: by their sort
/// keys, then by number, so that ties keep the file order.
pub open spec fn comes_before(todos: Seq<TodoView>, a: int, b: int) -> bool {
    key_lt(todos[a - 1], todos[b - 1]) || (key_eq(todos[a - 1], todos[b - 1]) && a < b)
}

/// Whether `numbers` lists, in order, the tasks of `todos` that `keep` keeps: each number of
/// such a task once, sorted by `comes_before`.
pub open spec fn is_sorted_listing(
    todos: Seq<TodoView>,
    keep: spec_fn(int) -> bool,
    numbers: Seq<usize>,
) -> bool {
    &&& forall|x: usize| numbers.contains(x) <==> 1 <= x <= todos.len() && keep(x - 1)
    &&& forall|k: int|
        0 <= k < numbers.len() ==> 1 <= #[trigger] numbers[k] <= todos.len() && keep(
            numbers[k] - 1,
        )
    &&& forall|i: int| 0 <= i < todos.len() && #[trigger] keep(i) ==> numbers.contains((i + 1) as usize)
    &&& forall|a: int, b: int|
        0 <= a < b < numbers.len() ==> comes_before(
            todos,
            #[trigger] numbers[a] as int,
            #[trigger] numbers[b] as int,
        )
}

/// The listing of the tasks of `todos` that `keep` keeps.
pub open spec fn listing_of(todos: Seq<TodoView>, keep: spec_fn(int) -> bool) -> Seq<usize> {
    choose|r: Seq<usize>| is_sorted_listing(todos, keep, r)
}

/// Two tasks come one before the other in a listing, never both ways.
pub proof fn lemma_comes_before_total(todos: Seq<TodoView>, a: int, b: int)
    ensures
        !(comes_before(todos, a, b) && comes_before(todos, b, a)),
        a != b ==> comes_before(todos, a, b) || comes_before(todos, b, a),
        !comes_before(todos, a, a),
{
}

/// A listing is determined by the tasks it keeps: the sort leaves no choice.
pub proof fn lemma_listing_unique(
    todos: Seq<TodoView>,
    keep: spec_fn(int) -> bool,
    r1: Seq<usize>,
    r2: Seq<usize>,
)
    requires
        is_sorted_listing(todos, keep, r1),
        is_sorted_listing(todos, keep, r2),
    ensures
        r1 == r2,
{
    lemma_sorted_same_elements_equal(todos, r1, r2);
}

/// Whether `r` is sorted strictly by `comes_before`.
pub open spec fn strictly_sorted(todos: Seq<TodoView>, r: Seq<usize>) -> bool {
    forall|a: int, b: int|
        0 <= a < b < r.len() ==> comes_before(todos, #[trigger] r[a] as int, #[trigger] r[b] as int)
}

/// Two sequences sorted strictly by `comes_before` that hold the same numbers are equal.
proof fn lemma_sorted_same_elements_equal(todos: Seq<TodoView>, r1: Seq<usize>, r2: Seq<usize>)
    requires
        strictly_sorted(todos, r1),
        strictly_sorted(todos, r2),
        forall|x: usize| r1.contains(x) <==> r2.contains(x),
    ensures
        r1 == r2,
    decreases r1.len(),
{
    if r1.len() == 0 {
        if r2.len() > 0 {
            assert(r2.contains(r2[0]));
        }
        assert(r1 =~= r2);
    } else {
        assert(r1.contains(r1[0]));
        assert(r2.contains(r2[0]));
        let j = choose|j: int| 0 <= j < r1.len() && r1[j] == r2[0];
        let k = choose|k: int| 0 <= k < r2.len() && r2[k] == r1[0];
        lemma_comes_before_total(todos, r1[0] as int, r2[0] as int);
        if j > 0 && k > 0 {
            assert(comes_before(todos, r1[0] as int, r1[j] as int));
            assert(comes_before(todos, r2[0] as int, r2[k] as int));
        }
        assert(r1[0] == r2[0]);
        let (t1, t2) = (r1.skip(1), r2.skip(1));
        assert forall|x: usize| t1.contains(x) implies t2.contains(x) by {
            let i = choose|i: int| 0 <= i < t1.len() && t1[i] == x;
            assert(r1[i + 1] == x);
            assert(comes_before(todos, r1[0] as int, r1[i + 1] as int));
            lemma_comes_before_total(todos, r1[0] as int, r1[0] as int);
            assert(r1.contains(x));
            let m = choose|m: int| 0 <= m < r2.len() && r2[m] == x;
            assert(m != 0);
            assert(t2[m - 1] == x);
        }
        assert forall|x: usize| t2.contains(x) implies t1.contains(x) by {
            let i = choose|i: int| 0 <= i < t2.len() && t2[i] == x;
            assert(r2[i + 1] == x);
            assert(comes_before(todos, r2[0] as int, r2[i + 1] as int));
            lemma_comes_before_total(todos, r2[0] as int, r2[0] as int);
            assert(r2.contains(x));
            let m = choose|m: int| 0 <= m < r1.len() && r1[m] == x;
            assert(m != 0);
            assert(t1[m - 1] == x);
        }
        assert(strictly_sorted(todos, t1)) by {
            assert forall|a: int, b: int| 0 <= a < b < t1.len() implies comes_before(
                todos,
                #[trigger] t1[a] as int,
                #[trigger] t1[b] as int,
            ) by {
                assert(t1[a] == r1[a + 1] && t1[b] == r1[b + 1]);
            }
        }
        assert(strictly_sorted(todos, t2)) by {
            assert forall|a: int, b: int| 0 <= a < b < t2.len() implies comes_before(
                todos,
                #[trigger] t2[a] as int,
                #[trigger] t2[b] as int,
            ) by {
                assert(t2[a] == r2[a + 1] && t2[b] == r2[b + 1]);
            }
        }
        lemma_sorted_same_elements_equal(todos, t1, t2);
        assert(r1 =~= seq![r1[0]] + t1);
        assert(r2 =~= seq![r2[0]] + t2);
    }
}

/// A listing that holds is the listing.
pub proof fn lemma_is_listing_of(todos: Seq<TodoView>, keep: spec_fn(int) -> bool, r: Seq<usize>)
    requires
        is_sorted_listing(todos, keep, r),
    ensures
        listing_of(todos, keep) == r,
{
    let c = listing_of(todos, keep);
    assert(is_sorted_listing(todos, keep, c));
    lemma_listing_unique(todos, keep, r, c);
}

/// `comes_before` is transitive.
proof fn lemma_comes_before_transitive(todos: Seq<TodoView>, a: int, b: int, c: int)
    requires
        comes_before(todos, a, b),
        comes_before(todos, b, c),
    ensures
        comes_before(todos, a, c),
{
}

/// Where `x` goes in the sorted `r`: before the first number it comes before.
spec fn insert_at(todos: Seq<TodoView>, r: Seq<usize>, x: usize) -> int
    decreases r.len(),
{
    if r.len() == 0 {
        0
    } else if comes_before(todos, x as int, r[0] as int) {
        0
    } else {
        1 + insert_at(todos, r.drop_first(), x)
    }
}

/// Putting a new number in its place keeps a sequence strictly sorted.
proof fn lemma_insert_sorted(todos: Seq<TodoView>, r: Seq<usize>, x: usize)
    requires
        strictly_sorted(todos, r),
        !r.contains(x),
    ensures
        0 <= insert_at(todos, r, x) <= r.len(),
        strictly_sorted(todos, r.insert(insert_at(todos, r, x), x)),
    decreases r.len(),
{
    let p = insert_at(todos, r, x);
    if r.len() == 0 {
        assert(r.insert(p, x) =~= seq![x]);
    } else if comes_before(todos, x as int, r[0] as int) {
        let t = r.insert(0, x);
        assert forall|a: int, b: int| 0 <= a < b < t.len() implies comes_before(
            todos,
            #[trigger] t[a] as int,
            #[trigger] t[b] as int,
        ) by {
            if a == 0 {
                if b > 1 {
                    assert(comes_before(todos, r[0] as int, r[b - 1] as int));
                    lemma_comes_before_transitive(todos, x as int, r[0] as int, r[b - 1] as int);
                }
            } else {
                assert(t[a] == r[a - 1] && t[b] == r[b - 1]);
            }
        }
    } else {
        let tail = r.drop_first();
        assert(strictly_sorted(todos, tail)) by {
            assert forall|a: int, b: int| 0 <= a < b < tail.len() implies comes_before(
                todos,
                #[trigger] tail[a] as int,
                #[trigger] tail[b] as int,
            ) by {
                assert(tail[a] == r[a + 1] && tail[b] == r[b + 1]);
            }
        }
        assert(!tail.contains(x)) by {
            if tail.contains(x) {
                let j = choose|j: int| 0 <= j < tail.len() && tail[j] == x;
                assert(r[j + 1] == x);
            }
        }
        lemma_insert_sorted(todos, tail, x);
        let q = insert_at(todos, tail, x);
        assert(r[0] != x) by {
            assert(r.contains(r[0]));
        }
        lemma_comes_before_total(todos, x as int, r[0] as int);
        let ti = tail.insert(q, x);
        let t = r.insert(p, x);
        assert(t =~= seq![r[0]] + ti);
        assert forall|a: int, b: int| 0 <= a < b < t.len() implies comes_before(
            todos,
            #[trigger] t[a] as int,
            #[trigger] t[b] as int,
        ) by {
            if a == 0 {
                assert(t[b] == ti[b - 1]);
                if b - 1 == q {
                    assert(ti[b - 1] == x);
                } else if b - 1 < q {
                    assert(ti[b - 1] == tail[b - 1]);
                    assert(comes_before(todos, r[0] as int, r[b] as int));
                } else {
                    assert(ti[b - 1] == tail[b - 2]);
                    assert(comes_before(todos, r[0] as int, r[b - 1] as int));
                }
            } else {
                assert(t[a] == ti[a - 1] && t[b] == ti[b - 1]);
            }
        }
    }
}

/// The listing of the first `k` tasks that `keep` keeps, built by putting each in its place.
spec fn listing_upto(todos: Seq<TodoView>, keep: spec_fn(int) -> bool, k: int) -> Seq<usize>
    decreases k,
{
    if k <= 0 {
        Seq::empty()
    } else {
        let r = listing_upto(todos, keep, k - 1);
        if keep(k - 1) {
            r.insert(insert_at(todos, r, k as usize), k as usize)
        } else {
            r
        }
    }
}

/// The listing built of the first `k` tasks is sorted and holds the numbers of those `keep`
/// keeps.
proof fn lemma_listing_upto(todos: Seq<TodoView>, keep: spec_fn(int) -> bool, k: int)
    requires
        0 <= k <= todos.len(),
        todos.len() <= usize::MAX,
    ensures
        strictly_sorted(todos, listing_upto(todos, keep, k)),
        forall|x: usize|
            listing_upto(todos, keep, k).contains(x) <==> 1 <= x <= k && keep(x - 1),
    decreases k,
{
    if k > 0 {
        lemma_listing_upto(todos, keep, k - 1);
        let r = listing_upto(todos, keep, k - 1);
        if keep(k - 1) {
            let x = k as usize;
            lemma_insert_sorted(todos, r, x);
            let p = insert_at(todos, r, x);
            let t = r.insert(p, x);
            assert forall|y: usize| t.contains(y) <==> 1 <= y <= k && keep(y - 1) by {
                if t.contains(y) {
                    let j = choose|j: int| 0 <= j < t.len() && t[j] == y;
                    if j < p {
                        assert(r[j] == y && r.contains(y));
                    } else if j > p {
                        assert(r[j - 1] == y && r.contains(y));
                    }
                }
                if 1 <= y <= k && keep(y - 1) {
                    if y == x {
                        assert(t[p] == x);
                    } else {
                        assert(r.contains(y));
                        let j = choose|j: int| 0 <= j < r.len() && r[j] == y;
                        if j < p {
                            assert(t[j] == y);
                        } else {
                            assert(t[j + 1] == y);
                        }
                    }
                }
            }
        }
    }
}

/// Every set of tasks has its listing.
pub proof fn lemma_listing_exists(todos: Seq<TodoView>, keep: spec_fn(int) -> bool)
    requires
        todos.len() <= usize::MAX,
    ensures
        is_sorted_listing(todos, keep, listing_of(todos, keep)),
{
    let r = listing_upto(todos, keep, todos.len() as int);
    lemma_listing_upto(todos, keep, todos.len() as int);
    assert forall|k: int| 0 <= k < r.len() implies 1 <= #[trigger] r[k] <= todos.len() && keep(
        r[k] - 1,
    ) by {
        assert(r.contains(r[k]));
    }
    assert forall|i: int| 0 <= i < todos.len() && #[trigger] keep(i) implies r.contains(
        (i + 1) as usize,
    ) by {}
    assert(is_sorted_listing(todos, keep, r));
}

/// The order of a listing: pending tasks before done ones, and among pending ones those with
/// a priority before those without, and a priority letter before a later one.
pub proof fn law_listing_order(
    todos: Seq<TodoView>,
    keep: spec_fn(int) -> bool,
    r: Seq<usize>,
    i: int,
    j: int,
)
    requires
        is_sorted_listing(todos, keep, r),
        0 <= i < r.len(),
        0 <= j < r.len(),
    ensures
        !todos[r[i] - 1].done && todos[r[j] - 1].done ==> i < j,
        !todos[r[i] - 1].done && !todos[r[j] - 1].done && todos[r[i] - 1].priority is Some
            && todos[r[j] - 1].priority is None ==> i < j,
        !todos[r[i] - 1].done && !todos[r[j] - 1].done && todos[r[i] - 1].priority is Some
            && todos[r[j] - 1].priority is Some && todos[r[i] - 1].priority->0 < todos[r[j]
            - 1].priority->0 ==> i < j,
{
    if j < i {
        assert(comes_before(todos, r[j] as int, r[i] as int));
    }
}

/// Which tasks a listing holds: by number, each pending one (or done one too with `all`)
/// whose line in lower case contains every term in lower case, or lacks what follows the dash
/// of a term starting with one, and no other.
pub proof fn law_listing_holds_the_matching_tasks(
    todos: Seq<TodoView>,
    all: bool,
    terms: Seq<Seq<char>>,
    r: Seq<usize>,
    x: usize,
)
    requires
        is_listing(todos, all, terms, r),
    ensures
        r.contains(x) <==> {
            &&& 1 <= x <= todos.len()
            &&& all || !todos[x - 1].done
            &&& forall|k: int|
                0 <= k < terms.len() ==> {
                    let line = spec_lowercase(spec_to_line(todos[x - 1]));
                    let t = spec_lowercase(#[trigger] terms[k]);
                    if t.len() > 0 && t[0] == '-' {
                        !spec_contains(line, t.skip(1))
                    } else {
                        spec_contains(line, t)
                    }
                }
        },
{
    if r.contains(x) {
        assert forall|k: int| 0 <= k < terms.len() implies {
            let line = spec_lowercase(spec_to_line(todos[x - 1]));
            let t = spec_lowercase(#[trigger] terms[k]);
            if t.len() > 0 && t[0] == '-' {
                !spec_contains(line, t.skip(1))
            } else {
                spec_contains(line, t)
            }
        } by {
            assert(lowered(terms)[k] == spec_lowercase(terms[k]));
        }
    }
    if 1 <= x <= todos.len() && (all || !todos[x - 1].done) && forall|k: int|
        0 <= k < terms.len() ==> {
            let line = spec_lowercase(spec_to_line(todos[x - 1]));
            let t = spec_lowercase(#[trigger] terms[k]);
            if t.len() > 0 && t[0] == '-' {
                !spec_contains(line, t.skip(1))
            } else {
                spec_contains(line, t)
            }
        } {
        assert forall|k: int| 0 <= k < lowered(terms).len() implies term_holds(
            spec_lowercase(spec_to_line(todos[x - 1])),
            #[trigger] lowered(terms)[k],
        ) by {
            assert(lowered(terms)[k] == spec_lowercase(terms[k]));
        }
    }
}

/// Tasks that sort alike keep the file order in a listing: the one with the smaller number
/// comes first.
pub proof fn law_listing_ties_keep_file_order(
    todos: Seq<TodoView>,
    keep: spec_fn(int) -> bool,
    r: Seq<usize>,
    i: int,
    j: int,
)
    requires
        is_sorted_listing(todos, keep, r),
        0 <= i < r.len(),
        0 <= j < r.len(),
        todos[r[i] - 1].done == todos[r[j] - 1].done,
        todos[r[i] - 1].done || todos[r[i] - 1].priority == todos[r[j] - 1].priority,
        r[i] < r[j],
    ensures
        i < j,
{
    if j < i {
        assert(comes_before(todos, r[j] as int, r[i] as int));
    }
}

/// Whether `numbers` is the listing of `todos` for `all` and `terms`.
pub open spec fn is_listing(
    todos: Seq<TodoView>,
    all: bool,
    terms: Seq<Seq<char>>,
    numbers: Seq<usize>,
) -> bool {
    is_sorted_listing(todos, |i: int| selected(todos, all, terms, i), numbers)
}

/// The numbers of a listing's rows.
pub open spec fn numbers_of(rows: Seq<(usize, &Todo)>) -> Seq<usize> {
    rows.map_values(|row: (usize, &Todo)| row.0)
}

/// Whether each row of a listing holds the task its number names.
pub open spec fn rows_hold_tasks(todos: Seq<Todo>, rows: Seq<(usize, &Todo)>) -> bool {
    forall|k: int|
        0 <= k < rows.len() ==> 1 <= (#[trigger] rows[k]).0 <= todos.len() && *rows[k].1
            == todos[rows[k].0 - 1]
}

/// Whether every task of a list can be written.
pub open spec fn all_wf(todos: Seq<Todo>) -> bool {
    forall|i: int| 0 <= i < todos.len() ==> (#[trigger] todos[i]).wf()
}

/// The in-memory list of tasks.
pub struct Store {
    /// Tasks in file order; a task's number is its index plus one.
    pub todos: Vec<Todo>,
}

/// Whether task `a` sorts before task `b` in a listing.
fn sorts_before(a: &Todo, b: &Todo) -> (r: bool)
    ensures
        r == key_lt(a@, b@),
{
    if a.done != b.done {
        !a.done
    } else if a.done {
        false
    } else {
        match (a.priority, b.priority) {
            (Some(p), Some(q)) => p < q,
            (Some(_), None) => true,
            _ => false,
        }
    }
}

/// Whether `line` contains every term, or lacks it when the term starts with a dash.
pub fn matches(line: &str, terms: &[String]) -> (r: bool)
    ensures
        r == spec_matches(line@, texts(terms@)),
{
    let l = chars_of(line);
    let mut i: usize = 0;
    while i < terms.len()
        invariant
            l@ == line@,
            i <= terms@.len(),
            forall|k: int| 0 <= k < i ==> term_holds(line@, #[trigger] texts(terms@)[k]),
        decreases terms@.len() - i,
    {
        let t = chars_of(terms[i].as_str());
        let ok = if t.len() > 0 && t[0] == '-' {
            let rest = subrange_chars(&t, 1, t.len());
            assert(rest@ =~= t@.skip(1));
            !contains(&l, &rest)
        } else {
            contains(&l, &t)
        };
        assert(texts(terms@)[i as int] == t@);
        if !ok {
            return false;
        }
        i = i + 1;
    }
    true
}

/// Sorts the task numbers `candidates`, given in increasing order, by `comes_before`.
fn sort_numbers(todos: &Vec<Todo>, candidates: Vec<usize>) -> (r: Vec<usize>)
    requires
        forall|k: int|
            0 <= k < candidates@.len() ==> 1 <= #[trigger] candidates@[k] <= todos@.len(),
        forall|a: int, b: int|
            0 <= a < b < candidates@.len() ==> #[trigger] candidates@[a] < #[trigger] candidates@[b],
    ensures
        forall|x: usize| r@.contains(x) <==> candidates@.contains(x),
        forall|a: int, b: int|
            0 <= a < b < r@.len() ==> comes_before(
                views(todos@),
                #[trigger] r@[a] as int,
                #[trigger] r@[b] as int,
            ),
{
    let mut r: Vec<usize> = Vec::new();
    let mut i: usize = 0;
    while i < candidates.len()
        invariant
            i <= candidates@.len(),
            forall|k: int|
                0 <= k < candidates@.len() ==> 1 <= #[trigger] candidates@[k] <= todos@.len(),
            forall|a: int, b: int|
                0 <= a < b < candidates@.len() ==> #[trigger] candidates@[a]
                    < #[trigger] candidates@[b],
            forall|x: usize| r@.contains(x) <==> candidates@.take(i as int).contains(x),
            forall|k: int| 0 <= k < r@.len() ==> 1 <= #[trigger] r@[k] <= todos@.len(),
            forall|a: int, b: int|
                0 <= a < b < r@.len() ==> comes_before(
                    views(todos@),
                    #[trigger] r@[a] as int,
                    #[trigger] r@[b] as int,
                ),
        decreases candidates@.len() - i,
    {
        let n = candidates[i];
        let ghost old_r = r@;
        assert(forall|x: usize| old_r.contains(x) <==> candidates@.take(i as int).contains(x));
        proof {
            assert forall|k: int| 0 <= k < r@.len() implies r@[k] < n by {
                assert(r@.contains(r@[k]));
                let j = choose|j: int| 0 <= j < i && candidates@.take(i as int)[j] == r@[k];
                assert(candidates@[j] < candidates@[i as int]);
            }
        }
        let mut q: usize = 0;
        while q < r.len() && !sorts_before(&todos[n - 1], &todos[r[q] - 1])
            invariant
                q <= r@.len(),
                r@ == old_r,
                1 <= n <= todos@.len(),
                forall|k: int| 0 <= k < r@.len() ==> 1 <= #[trigger] r@[k] <= todos@.len(),
                forall|k: int| 0 <= k < q ==> !key_lt(todos@[n - 1]@, todos@[#[trigger] r@[k] - 1]@),
            decreases r@.len() - q,
        {
            q = q + 1;
        }
        r.insert(q, n);
        proof {
            assert forall|a: int, b: int|
                0 <= a < b < r@.len() implies comes_before(
                    views(todos@),
                    #[trigger] r@[a] as int,
                    #[trigger] r@[b] as int,
                ) by {
                if b == q {
                    assert(r@[a] == old_r[a]);
                    assert(old_r[a] < n);
                } else if a == q {
                    let x = old_r[b - 1];
                    assert(r@[b] == x);
                    if q < b - 1 {
                        assert(comes_before(views(todos@), old_r[q as int] as int, x as int));
                    }
                } else {
                    let (oa, ob) = (if a < q { a } else { a - 1 }, if b < q { b } else { b - 1 });
                    assert(r@[a] == old_r[oa]);
                    assert(r@[b] == old_r[ob]);
                }
            }
            let ti = candidates@.take(i as int);
            let tn = candidates@.take(i + 1);
            assert(tn =~= ti.push(n));
            assert forall|x: usize| r@.contains(x) implies tn.contains(x) by {
                let k = choose|k: int| 0 <= k < r@.len() && r@[k] == x;
                if k == q {
                    assert(tn[i as int] == x);
                } else {
                    let ok = if k < q { k } else { k - 1 };
                    assert(old_r[ok] == x);
                    assert(old_r.contains(x));
                    assert(ti.contains(x));
                    let j = choose|j: int| 0 <= j < ti.len() && ti[j] == x;
                    assert(tn[j] == x);
                }
            }
            assert forall|x: usize| tn.contains(x) implies r@.contains(x) by {
                let j = choose|j: int| 0 <= j < tn.len() && tn[j] == x;
                if j == i {
                    assert(r@[q as int] == x);
                } else {
                    assert(ti[j] == x);
                    assert(ti.contains(x));
                    assert(old_r.contains(x));
                    let k = choose|k: int| 0 <= k < old_r.len() && old_r[k] == x;
                    let nk = if k < q { k } else { k + 1 };
                    assert(r@[nk] == x);
                }
            }
        }
        i = i + 1;
    }
    assert(candidates@.take(candidates@.len() as int) =~= candidates@);
    r
}

impl Store {
    /// A store of the given tasks, in file order.
    pub fn new(todos: Vec<Todo>) -> (r: Store)
        ensures
            r.todos@ == todos@,
    {
        Store { todos }
    }

    /// Whether every task can be written.
    pub open spec fn wf(&self) -> bool {
        all_wf(self.todos@)
    }

    /// Lists the tasks numbered by file position, pending ones only unless `all`, those whose
    /// line contains every term (or lacks it, for a term starting with `-`) regardless of case,
    /// sorted with the prioritised pending ones first by letter, then the other pending ones,
    /// then the done ones, ties in file order.
    pub fn list(&self, all: bool, terms: &[String]) -> (r: Vec<(usize, &Todo)>)
        requires
            self.wf(),
        ensures
            is_listing(views(self.todos@), all, texts(terms@), numbers_of(r@)),
            rows_hold_tasks(self.todos@, r@),
    {
        let mut lower: Vec<String> = Vec::new();
        let mut j: usize = 0;
        while j < terms.len()
            invariant
                j <= terms@.len(),
                lower@.len() == j,
                forall|k: int| 0 <= k < j ==> (#[trigger] lower@[k])@ == spec_lowercase(terms@[k]@),
            decreases terms@.len() - j,
        {
            lower.push(to_lowercase(terms[j].as_str()));
            j = j + 1;
        }
        assert(texts(lower@) =~= lowered(texts(terms@)));
        let ghost keep = |i: int| selected(views(self.todos@), all, texts(terms@), i);
        let mut candidates: Vec<usize> = Vec::new();
        let mut i: usize = 0;
        while i < self.todos.len()
            invariant
                i <= self.todos@.len(),
                self.wf(),
                texts(lower@) == lowered(texts(terms@)),
                keep == (|i: int| selected(views(self.todos@), all, texts(terms@), i)),
                forall|k: int|
                    0 <= k < candidates@.len() ==> 1 <= #[trigger] candidates@[k] <= i && keep(
                        candidates@[k] - 1,
                    ),
                forall|a: int, b: int|
                    0 <= a < b < candidates@.len() ==> #[trigger] candidates@[a]
                        < #[trigger] candidates@[b],
                forall|k: int| 0 <= k < i && #[trigger] keep(k) ==> candidates@.contains((k + 1) as usize),
            decreases self.todos@.len() - i,
        {
            let todo = &self.todos[i];
            let ghost before = candidates@;
            if all || !todo.done {
                let line = to_lowercase(todo.to_line().as_str());
                if matches(line.as_str(), &lower) {
                    candidates.push(i + 1);
                    assert(candidates@[candidates@.len() - 1] == i + 1);
                }
            }
            proof {
                assert forall|k: int| 0 <= k < i + 1 && #[trigger] keep(k) implies candidates@.contains(
                    (k + 1) as usize,
                ) by {
                    if k < i {
                        let j = choose|j: int| 0 <= j < before.len() && before[j] == (k + 1) as usize;
                        assert(candidates@[j] == before[j]);
                    } else {
                        assert(candidates@[candidates@.len() - 1] == i + 1);
                    }
                }
            }
            i = i + 1;
        }
        let numbers = sort_numbers(&self.todos, candidates);
        proof {
            assert forall|m: int| 0 <= m < numbers@.len() implies 1 <= #[trigger] numbers@[m]
                <= self.todos@.len() by {
                assert(numbers@.contains(numbers@[m]));
                assert(candidates@.contains(numbers@[m]));
            }
        }
        let mut r: Vec<(usize, &Todo)> = Vec::new();
        let mut k: usize = 0;
        while k < numbers.len()
            invariant
                k <= numbers@.len(),
                r@.len() == k,
                forall|m: int| 0 <= m < numbers@.len() ==> 1 <= #[trigger] numbers@[m] <= self.todos@.len(),
                forall|m: int| 0 <= m < k ==> (#[trigger] r@[m]).0 == numbers@[m] && *r@[m].1 == self.todos@[numbers@[m] - 1],
            decreases numbers@.len() - k,
        {
            let n = numbers[k];
            r.push((n, &self.todos[n - 1]));
            k = k + 1;
        }
        proof {
            assert(numbers_of(r@) =~= numbers@);
            assert forall|m: int| 0 <= m < numbers@.len() implies 1 <= #[trigger] numbers@[m]
                <= self.todos@.len() && keep(numbers@[m] - 1) by {
                assert(candidates@.contains(numbers@[m]));
            }
        }
        r
    }

    /// Appends a task to the list.
    pub fn add(&mut self, todo: Todo)
        ensures
            final(self).todos@ == old(self).todos@.push(todo),
    {
        self.todos.push(todo);
    }

    /// Removes the task numbered `number`, telling whether there was one.
    pub fn remove(&mut self, number: usize) -> (r: bool)
        ensures
            r == (1 <= number <= old(self).todos@.len()),
            r ==> final(self).todos@ == old(self).todos@.remove(number - 1),
            !r ==> final(self).todos@ == old(self).todos@,
    {
        match self.index_of(number) {
            Some(index) => {
                self.todos.remove(index);
                true
            },
            None => false,
        }
    }

    /// Marks the task numbered `number` done on `today`, telling whether there was one.
    pub fn done(&mut self, number: usize, today: Date) -> (r: bool)
        ensures
            r == (1 <= number <= old(self).todos@.len()),
            final(self).todos@.len() == old(self).todos@.len(),
            forall|i: int|
                0 <= i < old(self).todos@.len() && i != number - 1 ==> final(self).todos@[i]
                    == old(self).todos@[i],
            r ==> final(self).todos@[number - 1]@ == (TodoView {
                done: true,
                completed: Some(today),
                priority: None,
                ..old(self).todos@[number - 1]@
            }),
    {
        match self.index_of(number) {
            Some(index) => {
                let mut todo = self.todos[index].copy();
                todo.complete(today);
                self.todos.set(index, todo);
                true
            },
            None => false,
        }
    }

    /// The position of the task numbered `number`, if there is one.
    fn index_of(&self, number: usize) -> (r: Option<usize>)
        ensures
            r == (if 1 <= number <= self.todos@.len() {
                Some((number - 1) as usize)
            } else {
                None
            }),
    {
        if 1 <= number && number <= self.todos.len() {
            Some(number - 1)
        } else {
            None
        }
    }
}

} // verus!

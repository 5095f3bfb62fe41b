//! The order the filter panel sorts its words in: alphabetical regardless of case, ties
//! broken by the words themselves, both compared character by character.

use vstd::prelude::*;

use crate::text::{chars_of, spec_lowercase, to_lowercase};

verus! {

/// Whether `a` comes before `b` character by character, a prefix first.
pub open spec fn seq_lt(a: Seq<char>, b: Seq<char>) -> bool
    decreases a.len(),
{
    if a.len() == 0 {
        b.len() > 0
    } else if b.len() == 0 {
        false
    } else if a[0] != b[0] {
        a[0] < b[0]
    } else {
        seq_lt(a.skip(1), b.skip(1))
    }
}

/// Whether word `a` comes before word `b` in the panel: by their lower case, then by
/// themselves.
pub open spec fn term_lt(a: Seq<char>, b: Seq<char>) -> bool {
    seq_lt(spec_lowercase(a), spec_lowercase(b)) || (spec_lowercase(a) == spec_lowercase(b)
        && seq_lt(a, b))
}

/// The character order on texts is a strict total order.
pub proof fn lemma_seq_lt_order(a: Seq<char>, b: Seq<char>, c: Seq<char>)
    ensures
        !seq_lt(a, a),
        seq_lt(a, b) ==> !seq_lt(b, a),
        seq_lt(a, b) && seq_lt(b, c) ==> seq_lt(a, c),
        a != b ==> seq_lt(a, b) || seq_lt(b, a),
    decreases a.len(),
{
    if a.len() > 0 && b.len() > 0 && c.len() > 0 {
        lemma_seq_lt_order(a.skip(1), b.skip(1), c.skip(1));
    }
    if a.len() > 0 {
        lemma_seq_lt_order(a.skip(1), a.skip(1), a.skip(1));
    }
    if a.len() > 0 && b.len() > 0 && a[0] == b[0] && a != b {
        assert(a =~= seq![a[0]] + a.skip(1));
        assert(b =~= seq![b[0]] + b.skip(1));
        lemma_seq_lt_order(a.skip(1), b.skip(1), b.skip(1));
    }
    if a.len() == 0 && b.len() == 0 {
        assert(a =~= b);
    }
}

/// The panel's order on words is a strict total order.
pub proof fn lemma_term_lt_order(a: Seq<char>, b: Seq<char>, c: Seq<char>)
    ensures
        !term_lt(a, a),
        term_lt(a, b) ==> !term_lt(b, a),
        term_lt(a, b) && term_lt(b, c) ==> term_lt(a, c),
        a != b ==> term_lt(a, b) || term_lt(b, a),
{
    let (la, lb, lc) = (spec_lowercase(a), spec_lowercase(b), spec_lowercase(c));
    lemma_seq_lt_order(la, lb, lc);
    lemma_seq_lt_order(a, b, c);
    lemma_seq_lt_order(lb, la, lc);
    lemma_seq_lt_order(b, a, c);
}

/// Whether `s` is sorted strictly by the panel's order.
pub open spec fn strictly_sorted_terms(s: Seq<Seq<char>>) -> bool {
    forall|i: int, j: int| 0 <= i < j < s.len() ==> term_lt(#[trigger] s[i], #[trigger] s[j])
}

/// Two lists of words sorted strictly by the panel's order that hold the same words are
/// equal.
pub proof fn lemma_sorted_terms_unique(r1: Seq<Seq<char>>, r2: Seq<Seq<char>>)
    requires
        strictly_sorted_terms(r1),
        strictly_sorted_terms(r2),
        forall|x: Seq<char>| r1.contains(x) <==> r2.contains(x),
    ensures
        r1 == r2,
    decreases r1.len(),
{
    if r1.len() == 0 {
        if r2.len() > 0 {
            assert(r2.contains(r2[0]));
        }
        assert(r1 =~= r2);
    } else {
        assert(r1.contains(r1[0]));
        assert(r2.contains(r2[0]));
        let j = choose|j: int| 0 <= j < r1.len() && r1[j] == r2[0];
        let k = choose|k: int| 0 <= k < r2.len() && r2[k] == r1[0];
        lemma_term_lt_order(r1[0], r2[0], r2[0]);
        if j > 0 && k > 0 {
            assert(term_lt(r1[0], r1[j]));
            assert(term_lt(r2[0], r2[k]));
        }
        assert(r1[0] == r2[0]);
        let (t1, t2) = (r1.skip(1), r2.skip(1));
        assert forall|x: Seq<char>| t1.contains(x) implies t2.contains(x) by {
            let i = choose|i: int| 0 <= i < t1.len() && t1[i] == x;
            assert(r1[i + 1] == x);
            assert(term_lt(r1[0], r1[i + 1]));
            lemma_term_lt_order(x, x, x);
            assert(r1.contains(x));
            let m = choose|m: int| 0 <= m < r2.len() && r2[m] == x;
            assert(m != 0);
            assert(t2[m - 1] == x);
        }
        assert forall|x: Seq<char>| t2.contains(x) implies t1.contains(x) by {
            let i = choose|i: int| 0 <= i < t2.len() && t2[i] == x;
            assert(r2[i + 1] == x);
            assert(term_lt(r2[0], r2[i + 1]));
            lemma_term_lt_order(x, x, x);
            assert(r2.contains(x));
            let m = choose|m: int| 0 <= m < r1.len() && r1[m] == x;
            assert(m != 0);
            assert(t1[m - 1] == x);
        }
        assert(strictly_sorted_terms(t1)) by {
            assert forall|a: int, b: int| 0 <= a < b < t1.len() implies term_lt(
                #[trigger] t1[a],
                #[trigger] t1[b],
            ) by {
                assert(t1[a] == r1[a + 1] && t1[b] == r1[b + 1]);
            }
        }
        assert(strictly_sorted_terms(t2)) by {
            assert forall|a: int, b: int| 0 <= a < b < t2.len() implies term_lt(
                #[trigger] t2[a],
                #[trigger] t2[b],
            ) by {
                assert(t2[a] == r2[a + 1] && t2[b] == r2[b + 1]);
            }
        }
        lemma_sorted_terms_unique(t1, t2);
        assert(r1 =~= seq![r1[0]] + t1);
        assert(r2 =~= seq![r2[0]] + t2);
    }
}

/// Whether `a` comes before `b` character by character.
fn chars_lt(a: &[char], b: &[char]) -> (r: bool)
    ensures
        r == seq_lt(a@, b@),
{
    let mut i: usize = 0;
    assert(a@.skip(0) =~= a@ && b@.skip(0) =~= b@);
    while i < a.len() && i < b.len() && a[i] == b[i]
        invariant
            i <= a@.len(),
            i <= b@.len(),
            seq_lt(a@, b@) == seq_lt(a@.skip(i as int), b@.skip(i as int)),
        decreases a@.len() - i,
    {
        proof {
            let (sa, sb) = (a@.skip(i as int), b@.skip(i as int));
            assert(sa.skip(1) =~= a@.skip(i + 1));
            assert(sb.skip(1) =~= b@.skip(i + 1));
        }
        i = i + 1;
    }
    if i == a.len() {
        i < b.len()
    } else if i == b.len() {
        false
    } else {
        a[i] < b[i]
    }
}

/// Whether word `a` comes before word `b` in the panel.
pub fn term_before(a: &str, b: &str) -> (r: bool)
    ensures
        r == term_lt(a@, b@),
{
    let la = chars_of(to_lowercase(a).as_str());
    let lb = chars_of(to_lowercase(b).as_str());
    if chars_lt(&la, &lb) {
        return true;
    }
    if !chars_lt(&lb, &la) {
        proof {
            lemma_seq_lt_order(la@, lb@, lb@);
        }
        chars_lt(&chars_of(a), &chars_of(b))
    } else {
        proof {
            lemma_seq_lt_order(lb@, la@, la@);
        }
        false
    }
}

} // verus!

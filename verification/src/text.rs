//! Character-level helpers on text: blanks, word classes, case folding and substrings.

use vstd::prelude::*;

verus! {

/// Whether `c` has the Unicode `White_Space` property, as `char::is_whitespace` documents it.
pub open spec fn spec_is_blank(c: char) -> bool {
    let n = c as u32;
    ||| 0x09 <= n <= 0x0d
    ||| n == 0x20
    ||| n == 0x85
    ||| n == 0xa0
    ||| n == 0x1680
    ||| 0x2000 <= n <= 0x200a
    ||| n == 0x2028
    ||| n == 0x2029
    ||| n == 0x202f
    ||| n == 0x205f
    ||| n == 0x3000
}

/// Whether `c` is white space.
pub fn is_blank(c: char) -> (r: bool)
    ensures
        r == spec_is_blank(c),
{
    let n = c as u32;
    (0x09 <= n && n <= 0x0d) || n == 0x20 || n == 0x85 || n == 0xa0 || n == 0x1680 || (0x2000
        <= n && n <= 0x200a) || n == 0x2028 || n == 0x2029 || n == 0x202f || n == 0x205f || n
        == 0x3000
}

/// What `char::is_alphanumeric` answers for a character beyond ASCII (Unicode `Alphabetic`
/// or `Numeric`).
pub uninterp spec fn spec_is_alphanumeric_beyond_ascii(c: char) -> bool;

/// Whether `c` is alphanumeric, as `char::is_alphanumeric` answers: in ASCII, exactly the
/// letters and the digits.
pub open spec fn spec_is_alphanumeric(c: char) -> bool {
    if (c as u32) < 0x80 {
        ('a' <= c && c <= 'z') || ('A' <= c && c <= 'Z') || ('0' <= c && c <= '9')
    } else {
        spec_is_alphanumeric_beyond_ascii(c)
    }
}

/// Calls `char::is_alphanumeric`: the Unicode `Alphabetic` or `Numeric` property, which in
/// ASCII holds of the letters and digits alone; beyond ASCII the result is named by
/// `spec_is_alphanumeric_beyond_ascii`.
#[verifier::external_body]
pub(crate) fn is_alphanumeric(c: char) -> (r: bool)
    ensures
        (c as u32) < 0x80 ==> r == (('a' <= c && c <= 'z') || ('A' <= c && c <= 'Z') || ('0' <= c
            && c <= '9')),
        (c as u32) >= 0x80 ==> r == spec_is_alphanumeric_beyond_ascii(c),
{
    c.is_alphanumeric()
}

/// What `str::to_lowercase` gives for a text.
pub uninterp spec fn spec_lowercase(s: Seq<char>) -> Seq<char>;

/// Calls `str::to_lowercase`; the result is named by `spec_lowercase`.
#[verifier::external_body]
pub(crate) fn to_lowercase(s: &str) -> (r: String)
    ensures
        r@ == spec_lowercase(s@),
{
    s.to_lowercase()
}

/// Calls `String::push`, which appends one character.
#[verifier::external_body]
pub(crate) fn push_char(s: &mut String, c: char)
    ensures
        final(s)@ == old(s)@.push(c),
{
    s.push(c)
}

/// The characters of `s`, in order.
pub fn chars_of(s: &str) -> (r: Vec<char>)
    ensures
        r@ == s@,
{
    let n = s.unicode_len();
    let mut r: Vec<char> = Vec::new();
    let mut i: usize = 0;
    while i < n
        invariant
            n == s@.len(),
            i <= n,
            r@ == s@.take(i as int),
        decreases n - i,
    {
        r.push(s.get_char(i));
        i = i + 1;
        assert(r@ =~= s@.take(i as int));
    }
    assert(s@.take(n as int) =~= s@);
    r
}

/// A text made of the characters `cs`.
pub fn string_of(cs: &[char]) -> (r: String)
    ensures
        r@ == cs@,
{
    let mut r = String::new();
    let mut i: usize = 0;
    while i < cs.len()
        invariant
            i <= cs@.len(),
            r@ == cs@.take(i as int),
        decreases cs@.len() - i,
    {
        push_char(&mut r, cs[i]);
        i = i + 1;
        assert(r@ =~= cs@.take(i as int));
    }
    assert(cs@.take(cs@.len() as int) =~= cs@);
    r
}

/// The characters of `s` from `from` up to `to`, as a text.
pub fn substring(s: &[char], from: usize, to: usize) -> (r: String)
    requires
        from <= to <= s@.len(),
    ensures
        r@ == s@.subrange(from as int, to as int),
{
    let mut r = String::new();
    let mut i: usize = from;
    while i < to
        invariant
            from <= i <= to <= s@.len(),
            r@ == s@.subrange(from as int, i as int),
        decreases to - i,
    {
        push_char(&mut r, s[i]);
        i = i + 1;
        assert(r@ =~= s@.subrange(from as int, i as int));
    }
    r
}

/// The characters of `s` from `from` up to `to`.
pub fn subrange_chars(s: &[char], from: usize, to: usize) -> (r: Vec<char>)
    requires
        from <= to <= s@.len(),
    ensures
        r@ == s@.subrange(from as int, to as int),
{
    let mut r: Vec<char> = Vec::new();
    let mut i: usize = from;
    while i < to
        invariant
            from <= i <= to <= s@.len(),
            r@ == s@.subrange(from as int, i as int),
        decreases to - i,
    {
        r.push(s[i]);
        i = i + 1;
        assert(r@ =~= s@.subrange(from as int, i as int));
    }
    r
}

/// Appends the characters `cs` to `s`.
pub fn push_chars(s: &mut String, cs: &[char])
    ensures
        final(s)@ == old(s)@ + cs@,
{
    let mut i: usize = 0;
    while i < cs.len()
        invariant
            i <= cs@.len(),
            s@ == old(s)@ + cs@.take(i as int),
        decreases cs@.len() - i,
    {
        push_char(s, cs[i]);
        i = i + 1;
        assert(s@ =~= old(s)@ + cs@.take(i as int));
    }
    assert(cs@.take(cs@.len() as int) =~= cs@);
}

/// The words of `s` separated by white space, as `str::split_whitespace` gives them: each
/// character that is not white space extends the word before it, or starts one after white
/// space or at the start.
pub open spec fn spec_split_blank(s: Seq<char>) -> Seq<Seq<char>>
    decreases s.len(),
{
    if s.len() == 0 {
        Seq::empty()
    } else {
        let words = spec_split_blank(s.drop_last());
        let c = s.last();
        if spec_is_blank(c) {
            words
        } else if s.len() >= 2 && !spec_is_blank(s[s.len() - 2]) {
            words.update(words.len() - 1, words.last().push(c))
        } else {
            words.push(seq![c])
        }
    }
}

/// The words of `s` separated by white space.
pub fn split_blank(s: &str) -> (r: Vec<String>)
    ensures
        r@.map_values(|w: String| w@) == spec_split_blank(s@),
{
    let cs = chars_of(s);
    let mut words: Vec<Vec<char>> = Vec::new();
    let mut i: usize = 0;
    while i < cs.len()
        invariant
            cs@ == s@,
            i <= cs@.len(),
            words@.map_values(|w: Vec<char>| w@) == spec_split_blank(cs@.take(i as int)),
            i > 0 && !spec_is_blank(cs@[i - 1]) ==> words@.len() > 0,
        decreases cs@.len() - i,
    {
        let c = cs[i];
        let ghost prev = words@.map_values(|w: Vec<char>| w@);
        assert(cs@.take(i + 1).drop_last() =~= cs@.take(i as int));
        if is_blank(c) {
        } else if i > 0 && !is_blank(cs[i - 1]) {
            let last = words.len() - 1;
            let mut w = words.remove(last);
            w.push(c);
            words.push(w);
            assert(words@.map_values(|w: Vec<char>| w@) =~= prev.update(
                prev.len() - 1,
                prev.last().push(c),
            ));
        } else {
            let mut w: Vec<char> = Vec::new();
            w.push(c);
            words.push(w);
            assert(words@.map_values(|w: Vec<char>| w@) =~= prev.push(seq![c]));
        }
        i = i + 1;
    }
    assert(cs@.take(cs@.len() as int) =~= cs@);
    let mut r: Vec<String> = Vec::new();
    let mut k: usize = 0;
    while k < words.len()
        invariant
            k <= words@.len(),
            r@.len() == k,
            forall|j: int| 0 <= j < k ==> (#[trigger] r@[j])@ == words@[j]@,
        decreases words@.len() - k,
    {
        r.push(string_of(words[k].as_slice()));
        k = k + 1;
    }
    assert(r@.map_values(|w: String| w@) =~= words@.map_values(|w: Vec<char>| w@));
    r
}

/// A pasted text on one line: its lines, split at `\n` or `\r\n`, joined by spaces, a line
/// ending at the very end dropped.
pub open spec fn spec_one_line(s: Seq<char>) -> Seq<char>
    decreases s.len(),
{
    if s.len() == 0 {
        Seq::empty()
    } else if s =~= seq!['\n'] || s =~= seq!['\r', '\n'] {
        Seq::empty()
    } else if s.len() >= 2 && s[0] == '\r' && s[1] == '\n' {
        seq![' '] + spec_one_line(s.skip(2))
    } else if s[0] == '\n' {
        seq![' '] + spec_one_line(s.skip(1))
    } else {
        seq![s[0]] + spec_one_line(s.skip(1))
    }
}

/// A pasted text on one line.
#[verifier::spinoff_prover]
pub fn one_line(s: &str) -> (r: Vec<char>)
    ensures
        r@ == spec_one_line(s@),
{
    let cs = chars_of(s);
    let n = cs.len();
    let mut r: Vec<char> = Vec::new();
    let mut i: usize = 0;
    assert(cs@.skip(0) =~= cs@);
    assert(r@ + spec_one_line(cs@.skip(0)) =~= spec_one_line(s@));
    while i < n
        invariant
            n == cs@.len(),
            cs@ == s@,
            i <= n,
            r@ + spec_one_line(cs@.skip(i as int)) == spec_one_line(s@),
        decreases n - i,
    {
        let rest = Ghost(cs@.skip(i as int));
        if (i + 1 == n && cs[i] == '\n') || (n - i == 2 && cs[i] == '\r' && cs[i + 1] == '\n') {
            assert(rest@ =~= seq!['\n'] || rest@ =~= seq!['\r', '\n']);
            assert(cs@.skip(n as int) =~= Seq::<char>::empty());
            assert(r@ + spec_one_line(cs@.skip(n as int)) =~= r@ + spec_one_line(rest@));
            i = n;
        } else if i + 1 < n && cs[i] == '\r' && cs[i + 1] == '\n' {
            assert(rest@.skip(2) =~= cs@.skip(i + 2));
            assert(rest@.len() == n - i && rest@[0] == '\r' && rest@[1] == '\n');
            assert(!(rest@ =~= seq!['\n']));
            assert(!(rest@ =~= seq!['\r', '\n']));
            assert(spec_one_line(rest@) == seq![' '] + spec_one_line(rest@.skip(2)));
            r.push(' ');
            assert(r@ + spec_one_line(cs@.skip(i + 2)) =~= r@.drop_last() + spec_one_line(rest@));
            i = i + 2;
        } else if cs[i] == '\n' {
            assert(rest@.skip(1) =~= cs@.skip(i + 1));
            assert(rest@.len() == n - i && rest@.len() >= 2 && rest@[0] == '\n');
            assert(!(rest@ =~= seq!['\n']));
            assert(!(rest@ =~= seq!['\r', '\n']));
            assert(spec_one_line(rest@) == seq![' '] + spec_one_line(rest@.skip(1)));
            r.push(' ');
            assert(r@ + spec_one_line(cs@.skip(i + 1)) =~= r@.drop_last() + spec_one_line(rest@));
            i = i + 1;
        } else {
            assert(rest@.skip(1) =~= cs@.skip(i + 1));
            assert(rest@.len() == n - i && rest@[0] == cs@[i as int] && rest@[0] != '\n');
            assert(!(rest@ =~= seq!['\n']));
            assert(!(rest@ =~= seq!['\r', '\n']) || cs@[i as int] == '\r');
            if cs[i] == '\r' {
                assert(!(rest@ =~= seq!['\r', '\n']));
            }
            assert(spec_one_line(rest@) == seq![cs@[i as int]] + spec_one_line(rest@.skip(1)));
            r.push(cs[i]);
            assert(r@ + spec_one_line(cs@.skip(i + 1)) =~= r@.drop_last() + spec_one_line(rest@));
            i = i + 1;
        }
    }
    assert(cs@.skip(n as int) =~= Seq::<char>::empty());
    assert(r@ =~= r@ + spec_one_line(cs@.skip(n as int)));
    r
}

/// Whether `needle` occurs in `hay` at position `at`.
pub open spec fn occurs_at(hay: Seq<char>, needle: Seq<char>, at: int) -> bool {
    0 <= at && at + needle.len() <= hay.len() && hay.subrange(at, at + needle.len()) == needle
}

/// Whether `needle` occurs anywhere in `hay`, as `str::contains` tells.
pub open spec fn spec_contains(hay: Seq<char>, needle: Seq<char>) -> bool {
    exists|at: int| occurs_at(hay, needle, at)
}

/// Whether `needle` occurs in `hay` at position `at`.
fn matches_at(hay: &[char], needle: &[char], at: usize) -> (r: bool)
    requires
        at + needle@.len() <= hay@.len(),
    ensures
        r == occurs_at(hay@, needle@, at as int),
{
    let mut i: usize = 0;
    while i < needle.len()
        invariant
            at + needle@.len() <= hay@.len(),
            hay@.len() == hay.len(),
            i <= needle@.len(),
            forall|k: int| 0 <= k < i ==> hay@[at + k] == needle@[k],
        decreases needle@.len() - i,
    {
        if hay[at + i] != needle[i] {
            assert(hay@.subrange(at as int, at + needle@.len())[i as int] != needle@[i as int]);
            return false;
        }
        i = i + 1;
    }
    assert(hay@.subrange(at as int, at + needle@.len()) =~= needle@);
    true
}

/// Whether `needle` occurs anywhere in `hay`.
pub fn contains(hay: &[char], needle: &[char]) -> (r: bool)
    ensures
        r == spec_contains(hay@, needle@),
{
    if needle.len() > hay.len() {
        return false;
    }
    let last = hay.len() - needle.len();
    let mut at: usize = 0;
    loop
        invariant
            last == hay@.len() - needle@.len(),
            at <= last,
            forall|k: int| 0 <= k < at ==> !occurs_at(hay@, needle@, k),
        ensures
            forall|k: int| 0 <= k <= last ==> !occurs_at(hay@, needle@, k),
        decreases last - at,
    {
        if matches_at(hay, needle, at) {
            return true;
        }
        if at == last {
            break;
        }
        at = at + 1;
    }
    assert forall|k: int| !occurs_at(hay@, needle@, k) by {
        if 0 <= k && k + needle@.len() <= hay@.len() {
            assert(k <= last);
        }
    }
    false
}

/// The decimal digit `d`, 0 to 9, as a character.
pub open spec fn digit_char(d: int) -> char {
    (48 + d) as char
}

/// `n` written in decimal, without leading zeros.
pub open spec fn spec_decimal(n: nat) -> Seq<char>
    decreases n,
{
    if n < 10 {
        seq![digit_char(n as int)]
    } else {
        spec_decimal(n / 10).push(digit_char((n % 10) as int))
    }
}

/// The decimal digit `d` as a character.
fn digit_of(d: usize) -> (r: char)
    requires
        d < 10,
    ensures
        r == digit_char(d as int),
{
    match d {
        0 => '0',
        1 => '1',
        2 => '2',
        3 => '3',
        4 => '4',
        5 => '5',
        6 => '6',
        7 => '7',
        8 => '8',
        _ => '9',
    }
}

/// Appends `n` written in decimal.
pub fn push_decimal(s: &mut String, n: usize)
    ensures
        final(s)@ == old(s)@ + spec_decimal(n as nat),
    decreases n,
{
    if n >= 10 {
        push_decimal(s, n / 10);
    }
    push_char(s, digit_of(n % 10));
    proof {
        if n >= 10 {
            assert(spec_decimal(n as nat) == spec_decimal((n / 10) as nat).push(digit_char((n % 10) as int)));
        }
    }
    assert(s@ =~= old(s)@ + spec_decimal(n as nat));
}

/// The words of `s` between its spaces, as `str::split(' ')` gives them: an empty word
/// between two spaces, and one before a leading and after a trailing space.
pub open spec fn words_of(s: Seq<char>) -> Seq<Seq<char>>
    decreases s.len(),
{
    if s.len() == 0 {
        seq![Seq::empty()]
    } else {
        let w = words_of(s.drop_last());
        if s.last() == ' ' {
            w.push(Seq::empty())
        } else {
            w.update(w.len() - 1, w.last().push(s.last()))
        }
    }
}

} // verus!

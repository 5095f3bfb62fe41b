//! Calendar dates as todo.txt writes them, `YYYY-MM-DD`, read and written by the `time` crate.

use vstd::prelude::*;

verus! {

/// A day of the proleptic Gregorian calendar.
#[derive(Clone, Copy, Debug, PartialEq, Eq, Structural)]
pub struct Date {
    pub year: i32,
    /// 1 to 12.
    pub month: u8,
    /// 1 to the number of days in the month.
    pub day: u8,
}

/// Whether `year` is a leap year of the proleptic Gregorian calendar.
pub open spec fn is_leap_year(year: int) -> bool {
    let a = if year < 0 { -year } else { year };
    a % 4 == 0 && (a % 100 != 0 || a % 400 == 0)
}

/// How many days `month` of `year` has.
pub open spec fn days_in_month(year: int, month: int) -> int {
    if month == 2 {
        if is_leap_year(year) { 29 } else { 28 }
    } else if month == 4 || month == 6 || month == 9 || month == 11 {
        30
    } else {
        31
    }
}

impl Date {
    /// Whether the date exists and lies in the years `time` handles, -9999 to 9999.
    pub open spec fn valid(self) -> bool {
        &&& -9999 <= self.year <= 9999
        &&& 1 <= self.month <= 12
        &&& 1 <= self.day <= days_in_month(self.year as int, self.month as int)
    }
}

impl Date {
    /// Whether the date exists and lies in the years `time` handles.
    pub fn is_valid(&self) -> (r: bool)
        ensures
            r == self.valid(),
    {
        if self.year < -9999 || self.year > 9999 || self.month < 1 || self.month > 12 {
            return false;
        }
        let a: i32 = if self.year < 0 { -self.year } else { self.year };
        let leap = a % 4 == 0 && (a % 100 != 0 || a % 400 == 0);
        let days: u8 = if self.month == 2 {
            if leap { 29 } else { 28 }
        } else if self.month == 4 || self.month == 6 || self.month == 9 || self.month == 11 {
            30
        } else {
            31
        };
        1 <= self.day && self.day <= days
    }
}

/// The decimal digit `n`, 0 to 9.
pub open spec fn digit(n: int) -> char {
    (48 + n) as char
}

/// `n` in decimal on `width` digits, padded with zeros on the left.
pub open spec fn digits(n: nat, width: nat) -> Seq<char>
    decreases width,
{
    if width == 0 {
        Seq::empty()
    } else {
        digits(n / 10, (width - 1) as nat).push(digit((n % 10) as int))
    }
}

/// A date as todo.txt writes it: a `-` for a year before 1, the year on four digits, then the
/// month and the day on two digits each, separated by `-`.
pub open spec fn spec_format_date(d: Date) -> Seq<char> {
    let y = d.year as int;
    let sign = if y < 0 { seq!['-'] } else { Seq::empty() };
    let a = if y < 0 { -y } else { y };
    sign + digits(a as nat, 4) + seq!['-'] + digits(d.month as nat, 2) + seq!['-'] + digits(
        d.day as nat,
        2,
    )
}

/// Whether `c` can stand in a written date: a decimal digit or `-`.
pub open spec fn date_char(c: char) -> bool {
    ('0' <= c && c <= '9') || c == '-'
}

/// The digits of a number are decimal digits, as many as asked for.
pub proof fn lemma_digits(n: nat, width: nat)
    ensures
        digits(n, width).len() == width,
        forall|i: int| 0 <= i < width ==> date_char(#[trigger] digits(n, width)[i]),
    decreases width,
{
    if width > 0 {
        lemma_digits(n / 10, (width - 1) as nat);
        let d = (n % 10) as int;
        assert('0' <= digit(d) && digit(d) <= '9');
    }
}

/// A written date is made of digits and `-` only, and is not empty.
pub proof fn lemma_format_date_chars(d: Date)
    ensures
        spec_format_date(d).len() > 0,
        forall|i: int| 0 <= i < spec_format_date(d).len() ==> date_char(
            #[trigger] spec_format_date(d)[i],
        ),
{
    let y = d.year as int;
    let a = if y < 0 { -y } else { y };
    lemma_digits(a as nat, 4);
    lemma_digits(d.month as nat, 2);
    lemma_digits(d.day as nat, 2);
    let sign: Seq<char> = if y < 0 { seq!['-'] } else { Seq::empty() };
    let f = spec_format_date(d);
    assert forall|i: int| 0 <= i < f.len() implies date_char(#[trigger] f[i]) by {
        let s1 = sign + digits(a as nat, 4);
        let s2 = s1 + seq!['-'];
        let s3 = s2 + digits(d.month as nat, 2);
        let s4 = s3 + seq!['-'];
        assert(f == s4 + digits(d.day as nat, 2));
        if i < sign.len() {
        } else if i < s1.len() {
            assert(s1[i] == digits(a as nat, 4)[i - sign.len()]);
        } else if i < s2.len() {
        } else if i < s3.len() {
            assert(s3[i] == digits(d.month as nat, 2)[i - s2.len()]);
        } else if i < s4.len() {
        } else {
            assert(f[i] == digits(d.day as nat, 2)[i - s4.len()]);
        }
    }
}

/// Whether `c` is a decimal digit.
pub open spec fn is_digit(c: char) -> bool {
    '0' <= c && c <= '9'
}

/// The value of the decimal digit `c`.
pub open spec fn digit_value(c: char) -> int {
    c as int - 48
}

/// What `time::Date::parse` with the format `[year]-[month]-[day]` gives for a text: an
/// optional `+` or `-`, the year on exactly four digits, `-`, the month on two digits, `-`,
/// the day on two digits, and nothing more, read as a date when that date exists.
#[verifier::opaque]
pub open spec fn spec_parse_date(t: Seq<char>) -> Option<Date> {
    let signed = t.len() > 0 && (t[0] == '+' || t[0] == '-');
    let b = if signed { t.skip(1) } else { t };
    if b.len() == 10 && is_digit(b[0]) && is_digit(b[1]) && is_digit(b[2]) && is_digit(b[3])
        && b[4] == '-' && is_digit(b[5]) && is_digit(b[6]) && b[7] == '-' && is_digit(b[8])
        && is_digit(b[9]) {
        let y = 1000 * digit_value(b[0]) + 100 * digit_value(b[1]) + 10 * digit_value(b[2])
            + digit_value(b[3]);
        let year = if signed && t[0] == '-' { -y } else { y };
        let d = Date {
            year: year as i32,
            month: (10 * digit_value(b[5]) + digit_value(b[6])) as u8,
            day: (10 * digit_value(b[8]) + digit_value(b[9])) as u8,
        };
        if d.valid() {
            Some(d)
        } else {
            None
        }
    } else {
        None
    }
}

/// A date read from a text is a valid one.
pub proof fn lemma_parsed_date_valid(t: Seq<char>)
    ensures
        spec_parse_date(t) matches Some(d) ==> d.valid(),
{
    reveal(spec_parse_date);
}

/// The four digits of a number below ten thousand.
proof fn lemma_four_digits(n: nat)
    requires
        n < 10000,
    ensures
        digits(n, 4) == seq![
            digit((n / 1000) as int),
            digit(((n / 100) % 10) as int),
            digit(((n / 10) % 10) as int),
            digit((n % 10) as int),
        ],
        1000 * (n / 1000) + 100 * ((n / 100) % 10) + 10 * ((n / 10) % 10) + n % 10 == n,
        n / 1000 < 10,
{
    reveal_with_fuel(digits, 5);
    assert(n / 10 / 10 == n / 100);
    assert(n / 10 / 10 / 10 == n / 1000);
    assert(digits(n, 4) =~= seq![
        digit((n / 1000) as int),
        digit(((n / 100) % 10) as int),
        digit(((n / 10) % 10) as int),
        digit((n % 10) as int),
    ]);
}

/// The two digits of a number below a hundred.
proof fn lemma_two_digits(n: nat)
    requires
        n < 100,
    ensures
        digits(n, 2) == seq![digit((n / 10) as int), digit((n % 10) as int)],
        10 * (n / 10) + n % 10 == n,
        n / 10 < 10,
{
    reveal_with_fuel(digits, 3);
    assert(digits(n, 2) =~= seq![digit((n / 10) as int), digit((n % 10) as int)]);
}

/// A written date reads back as the same date.
pub proof fn lemma_format_reads_back(d: Date)
    requires
        d.valid(),
    ensures
        spec_parse_date(spec_format_date(d)) == Some(d),
{
    reveal(spec_parse_date);
    let y = d.year as int;
    let a: nat = (if y < 0 { -y } else { y }) as nat;
    lemma_four_digits(a);
    lemma_two_digits(d.month as nat);
    lemma_two_digits(d.day as nat);
    let t = spec_format_date(d);
    let body = digits(a, 4) + seq!['-'] + digits(d.month as nat, 2) + seq!['-'] + digits(
        d.day as nat,
        2,
    );
    assert forall|k: int| 0 <= k < 10 implies digit_value(#[trigger] digit(k)) == k && is_digit(digit(k)) by {}
    if y < 0 {
        assert(t =~= seq!['-'] + body);
        assert(t.skip(1) =~= body);
    } else {
        assert(t =~= body);
    }
}

/// Reads `token` as a date with `time::Date::parse` and the format `[year]-[month]-[day]`,
/// which the `time` source (without its `large-dates` feature) reads as `spec_parse_date`
/// states: the year component takes an optional sign and four digits, the month and the day
/// two digits each, and `Date::from_calendar_date` refuses a day the month lacks.
#[verifier::external_body]
pub(crate) fn parse_date(token: &str) -> (r: Option<Date>)
    ensures
        r == spec_parse_date(token@),
{
    let format = time::format_description::parse_borrowed::<2>("[year]-[month]-[day]").ok()?;
    let date = time::Date::parse(token, &format).ok()?;
    Some(Date { year: date.year(), month: u8::from(date.month()), day: date.day() })
}

/// Writes `date` with `time::Date::format` and the format `[year]-[month]-[day]`; the `time`
/// source writes the sign of a negative year, the year on four digits and the month and day on
/// two, each padded with zeros, which `spec_format_date` states.
#[verifier::external_body]
pub(crate) fn format_date(date: Date) -> (r: String)
    requires
        date.valid(),
    ensures
        r@ == spec_format_date(date),
{
    let format = time::format_description::parse_borrowed::<2>("[year]-[month]-[day]").unwrap();
    let month = time::Month::try_from(date.month).unwrap();
    time::Date::from_calendar_date(date.year, month, date.day).unwrap().format(&format).unwrap()
}

} // verus!

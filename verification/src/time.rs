use vstd::prelude::*;

use chrono::{Datelike, Timelike};

use crate::intensity::{digit_val, is_digit_char};

verus! {

/// Format marker: the canonical (stored) shape `2021-06-27T01:23:45`.
pub open spec fn sep_with_t() -> char {
    'T'
}

/// Format marker: the feed's shape `2021-06-27 01:23:45`.
pub open spec fn sep_without_t() -> char {
    ' '
}

/// A timestamp held as plain calendar fields.  The feed gives no zone
/// marker and always means its fixed local zone, so no offset is kept.
#[derive(Clone, Copy, PartialEq, Eq, Structural, Debug)]
pub struct CwbTime {
    pub year: u32,
    pub month: u32,
    pub day: u32,
    pub hour: u32,
    pub minute: u32,
    pub second: u32,
}

pub open spec fn is_leap_year(y: int) -> bool {
    (y % 4 == 0 && y % 100 != 0) || y % 400 == 0
}

pub open spec fn days_in_month(y: int, m: int) -> int {
    if m == 2 {
        if is_leap_year(y) {
            29
        } else {
            28
        }
    } else if m == 4 || m == 6 || m == 9 || m == 11 {
        30
    } else {
        31
    }
}

/// A calendar date, with no bound yet on the year.
pub open spec fn valid_date(y: int, m: int, d: int) -> bool {
    &&& 1 <= m <= 12
    &&& 1 <= d <= days_in_month(y, m)
}

impl CwbTime {
    /// A representable timestamp: a real calendar instant whose year
    /// still formats to four digits.
    pub open spec fn wf(self) -> bool {
        &&& self.year <= 9999
        &&& valid_date(self.year as int, self.month as int, self.day as int)
        &&& self.hour <= 23
        &&& self.minute <= 59
        &&& self.second <= 59
    }

    /// Mixed-radix key: on well-formed values its order is exactly the
    /// lexicographic (that is, chronological) order of the fields.
    pub open spec fn spec_key(self) -> int {
        ((((self.year as int * 13 + self.month as int) * 32 + self.day as int) * 24
            + self.hour as int) * 60 + self.minute as int) * 60 + self.second as int
    }

    pub open spec fn spec_le(self, other: CwbTime) -> bool {
        self.spec_key() <= other.spec_key()
    }

    /// Field-by-field lexicographic order: year first, seconds last.
    /// On real calendar instants this is chronological order.
    pub open spec fn lex_le(self, other: CwbTime) -> bool {
        if self.year != other.year {
            self.year < other.year
        } else if self.month != other.month {
            self.month < other.month
        } else if self.day != other.day {
            self.day < other.day
        } else if self.hour != other.hour {
            self.hour < other.hour
        } else if self.minute != other.minute {
            self.minute < other.minute
        } else {
            self.second <= other.second
        }
    }

    fn key(&self) -> (k: u64)
        requires
            self.wf(),
        ensures
            k as int == self.spec_key(),
    {
        ((((self.year as u64 * 13 + self.month as u64) * 32 + self.day as u64) * 24
            + self.hour as u64) * 60 + self.minute as u64) * 60 + self.second as u64
    }

    /// Chronological comparison, the one the freshness gate needs.
    pub fn ge(&self, other: &CwbTime) -> (r: bool)
        requires
            self.wf(),
            other.wf(),
        ensures
            r == other.spec_le(*self),
    {
        self.key() >= other.key()
    }
}

// ------------------------------------------------------------------
// Parsing `YYYY-MM-DD<sep>HH:MM:SS`
// ------------------------------------------------------------------

/// Two decimal digits starting at position `i`.
pub open spec fn num2(s: Seq<char>, i: int) -> int {
    digit_val(s[i]) * 10 + digit_val(s[i + 1])
}

/// Four decimal digits starting at position `i`.
pub open spec fn num4(s: Seq<char>, i: int) -> int {
    ((digit_val(s[i]) * 10 + digit_val(s[i + 1])) * 10 + digit_val(s[i + 2])) * 10 + digit_val(
        s[i + 3],
    )
}

/// The fixed 19-character shape: digits in the field positions and the
/// right punctuation between them.
pub open spec fn parse_shape(s: Seq<char>, sep: char) -> bool {
    &&& s.len() == 19
    &&& is_digit_char(s[0]) && is_digit_char(s[1]) && is_digit_char(s[2]) && is_digit_char(s[3])
    &&& s[4] == '-'
    &&& is_digit_char(s[5]) && is_digit_char(s[6])
    &&& s[7] == '-'
    &&& is_digit_char(s[8]) && is_digit_char(s[9])
    &&& s[10] == sep
    &&& is_digit_char(s[11]) && is_digit_char(s[12])
    &&& s[13] == ':'
    &&& is_digit_char(s[14]) && is_digit_char(s[15])
    &&& s[16] == ':'
    &&& is_digit_char(s[17]) && is_digit_char(s[18])
}

/// The timestamp a string of the right shape denotes.
pub open spec fn parsed_time(s: Seq<char>) -> CwbTime {
    CwbTime {
        year: num4(s, 0) as u32,
        month: num2(s, 5) as u32,
        day: num2(s, 8) as u32,
        hour: num2(s, 11) as u32,
        minute: num2(s, 14) as u32,
        second: num2(s, 17) as u32,
    }
}

/// Full parse: right shape, and the fields name a real instant.
pub open spec fn spec_parse(s: Seq<char>, sep: char) -> Option<CwbTime> {
    if parse_shape(s, sep) && parsed_time(s).wf() {
        Some(parsed_time(s))
    } else {
        None
    }
}

/// One digit read at position `i`, or `None` when something else stands there.
fn read_digit(s: &str, i: usize) -> (r: Option<u32>)
    requires
        i < s@.len(),
    ensures
        match r {
            Some(d) => is_digit_char(s@[i as int]) && d == digit_val(s@[i as int]),
            None => !is_digit_char(s@[i as int]),
        },
{
    let c: char = s.get_char(i);
    let u: u32 = c as u32;
    if 48 <= u && u <= 57 {
        Some(u - 48)
    } else {
        None
    }
}

fn read_num2(s: &str, i: usize) -> (r: Option<u32>)
    requires
        i <= 2000,
        i + 1 < s@.len(),
    ensures
        match r {
            Some(v) => {
                &&& is_digit_char(s@[i as int])
                &&& is_digit_char(s@[i as int + 1])
                &&& v == num2(s@, i as int)
            },
            None => !(is_digit_char(s@[i as int]) && is_digit_char(s@[i as int + 1])),
        },
{
    match (read_digit(s, i), read_digit(s, i + 1)) {
        (Some(a), Some(b)) => Some(a * 10 + b),
        _ => None,
    }
}

fn read_num4(s: &str, i: usize) -> (r: Option<u32>)
    requires
        i <= 1000,
        i + 3 < s@.len(),
    ensures
        match r {
            Some(v) => {
                &&& is_digit_char(s@[i as int])
                &&& is_digit_char(s@[i as int + 1])
                &&& is_digit_char(s@[i as int + 2])
                &&& is_digit_char(s@[i as int + 3])
                &&& v == num4(s@, i as int)
            },
            None => !(is_digit_char(s@[i as int]) && is_digit_char(s@[i as int + 1])
                && is_digit_char(s@[i as int + 2]) && is_digit_char(s@[i as int + 3])),
        },
{
    match (read_num2(s, i), read_num2(s, i + 2)) {
        (Some(a), Some(b)) => Some(a * 100 + b),
        _ => None,
    }
}

fn char_at_is(s: &str, i: usize, c: char) -> (r: bool)
    requires
        i < s@.len(),
    ensures
        r == (s@[i as int] == c),
{
    s.get_char(i) == c
}

fn days_in_month_exec(y: u32, m: u32) -> (r: u32)
    requires
        y <= 100000,
    ensures
        r as int == days_in_month(y as int, m as int),
{
    if m == 2 {
        if (y % 4 == 0 && y % 100 != 0) || y % 400 == 0 {
            29
        } else {
            28
        }
    } else if m == 4 || m == 6 || m == 9 || m == 11 {
        30
    } else {
        31
    }
}

/// Parses `YYYY-MM-DD<sep>HH:MM:SS`, accepting exactly the strings of
/// the right shape that name a real calendar instant.
fn parse_with_sep(s: &str, sep: char) -> (r: Option<CwbTime>)
    ensures
        r == spec_parse(s@, sep),
{
    if s.unicode_len() != 19 {
        return None;
    }
    if !(char_at_is(s, 4, '-') && char_at_is(s, 7, '-') && char_at_is(s, 10, sep) && char_at_is(
        s,
        13,
        ':',
    ) && char_at_is(s, 16, ':')) {
        return None;
    }
    let year = match read_num4(s, 0) {
        Some(v) => v,
        None => { return None },
    };
    let month = match read_num2(s, 5) {
        Some(v) => v,
        None => { return None },
    };
    let day = match read_num2(s, 8) {
        Some(v) => v,
        None => { return None },
    };
    let hour = match read_num2(s, 11) {
        Some(v) => v,
        None => { return None },
    };
    let minute = match read_num2(s, 14) {
        Some(v) => v,
        None => { return None },
    };
    let second = match read_num2(s, 17) {
        Some(v) => v,
        None => { return None },
    };
    let t = CwbTime { year, month, day, hour, minute, second };
    if t.year <= 9999 && 1 <= t.month && t.month <= 12 && 1 <= t.day && t.day
        <= days_in_month_exec(t.year, t.month) && t.hour <= 23 && t.minute <= 59 && t.second
        <= 59 {
        Some(t)
    } else {
        None
    }
}

impl CwbTime {
    /// Parses the canonical stored shape, `2021-06-27T01:23:45`.
    pub fn new_time_string_with_t(date_time_string: &str) -> (r: Option<CwbTime>)
        ensures
            r == spec_parse(date_time_string@, sep_with_t()),
    {
        parse_with_sep(date_time_string, 'T')
    }

    /// Parses the feed's shape, `2021-06-27 01:23:45`.
    pub fn new_time_string_without_t(date_time_string: &str) -> (r: Option<CwbTime>)
        ensures
            r == spec_parse(date_time_string@, sep_without_t()),
    {
        parse_with_sep(date_time_string, ' ')
    }

    /// The underlying calendar value.
    pub fn get_date_time(&self) -> (r: CwbTime)
        ensures
            r == *self,
    {
        *self
    }
}

// ------------------------------------------------------------------
// Formatting
// ------------------------------------------------------------------

pub open spec fn digit_char(d: int) -> char {
    if d == 0 {
        '0'
    } else if d == 1 {
        '1'
    } else if d == 2 {
        '2'
    } else if d == 3 {
        '3'
    } else if d == 4 {
        '4'
    } else if d == 5 {
        '5'
    } else if d == 6 {
        '6'
    } else if d == 7 {
        '7'
    } else if d == 8 {
        '8'
    } else {
        '9'
    }
}

pub open spec fn two_digit_chars(v: int) -> Seq<char> {
    seq![digit_char(v / 10), digit_char(v % 10)]
}

pub open spec fn four_digit_chars(v: int) -> Seq<char> {
    seq![
        digit_char(v / 1000),
        digit_char((v / 100) % 10),
        digit_char((v / 10) % 10),
        digit_char(v % 10),
    ]
}

/// `YYYY-MM-DD<sep>HH:MM:SS` as a character sequence.
pub open spec fn spec_format(t: CwbTime, sep: char) -> Seq<char> {
    four_digit_chars(t.year as int) + seq!['-'] + two_digit_chars(t.month as int) + seq!['-']
        + two_digit_chars(t.day as int) + seq![sep] + two_digit_chars(t.hour as int) + seq![':']
        + two_digit_chars(t.minute as int) + seq![':'] + two_digit_chars(t.second as int)
}

/// The canonical stored shape of a timestamp.
pub open spec fn spec_format_with_t(t: CwbTime) -> Seq<char> {
    spec_format(t, sep_with_t())
}

fn digit_str(d: u32) -> (r: &'static str)
    requires
        d <= 9,
    ensures
        r@ =~= seq![digit_char(d as int)],
{
    if d == 0 {
        proof {
            reveal_strlit("0");
        }
        "0"
    } else if d == 1 {
        proof {
            reveal_strlit("1");
        }
        "1"
    } else if d == 2 {
        proof {
            reveal_strlit("2");
        }
        "2"
    } else if d == 3 {
        proof {
            reveal_strlit("3");
        }
        "3"
    } else if d == 4 {
        proof {
            reveal_strlit("4");
        }
        "4"
    } else if d == 5 {
        proof {
            reveal_strlit("5");
        }
        "5"
    } else if d == 6 {
        proof {
            reveal_strlit("6");
        }
        "6"
    } else if d == 7 {
        proof {
            reveal_strlit("7");
        }
        "7"
    } else if d == 8 {
        proof {
            reveal_strlit("8");
        }
        "8"
    } else {
        proof {
            reveal_strlit("9");
        }
        "9"
    }
}

fn push_two_digits(sink: &mut String, v: u32)
    requires
        v <= 99,
    ensures
        final(sink)@ == old(sink)@ + two_digit_chars(v as int),
{
    sink.append(digit_str(v / 10));
    sink.append(digit_str(v % 10));
    proof {
        assert(old(sink)@ + seq![digit_char(v as int / 10)] + seq![digit_char(v as int % 10)]
            =~= old(sink)@ + two_digit_chars(v as int));
    }
}

fn push_four_digits(sink: &mut String, v: u32)
    requires
        v <= 9999,
    ensures
        final(sink)@ == old(sink)@ + four_digit_chars(v as int),
{
    sink.append(digit_str(v / 1000));
    sink.append(digit_str((v / 100) % 10));
    sink.append(digit_str((v / 10) % 10));
    sink.append(digit_str(v % 10));
    proof {
        assert(old(sink)@ + seq![digit_char(v as int / 1000)] + seq![
            digit_char((v as int / 100) % 10),
        ] + seq![digit_char((v as int / 10) % 10)] + seq![digit_char(v as int % 10)] =~= old(
            sink,
        )@ + four_digit_chars(v as int));
    }
}

impl CwbTime {
    /// Formats the timestamp in the canonical stored shape.
    pub fn format_with_t(&self) -> (r: String)
        requires
            self.wf(),
        ensures
            r@ == spec_format_with_t(*self),
    {
        proof {
            reveal_strlit("-");
            reveal_strlit("T");
            reveal_strlit(":");
        }
        let mut out = String::new();
        push_four_digits(&mut out, self.year);
        out.append("-");
        push_two_digits(&mut out, self.month);
        out.append("-");
        push_two_digits(&mut out, self.day);
        out.append("T");
        push_two_digits(&mut out, self.hour);
        out.append(":");
        push_two_digits(&mut out, self.minute);
        out.append(":");
        push_two_digits(&mut out, self.second);
        proof {
            assert("-"@ =~= seq!['-']);
            assert("T"@ =~= seq!['T']);
            assert(":"@ =~= seq![':']);
            assert(out@ =~= spec_format_with_t(*self));
        }
        out
    }
}

// ------------------------------------------------------------------
// Calendar arithmetic
// ------------------------------------------------------------------

/// The calendar day after `(y, m, d)`.
pub open spec fn spec_next_date(y: int, m: int, d: int) -> (int, int, int) {
    if d < days_in_month(y, m) {
        (y, m, d + 1)
    } else if m < 12 {
        (y, m + 1, 1)
    } else {
        (y + 1, 1, 1)
    }
}

/// `(y, m, d)` advanced by `n` calendar days.
pub open spec fn spec_advance_days(y: int, m: int, d: int, n: int) -> (int, int, int)
    decreases n,
{
    if n <= 0 {
        (y, m, d)
    } else {
        let p = spec_advance_days(y, m, d, n - 1);
        spec_next_date(p.0, p.1, p.2)
    }
}

/// The fields of `t` moved forward by `n` seconds, with full carry
/// through minutes, hours and calendar days.
pub open spec fn spec_plus_seconds(t: CwbTime, n: int) -> (int, int, int, int, int, int) {
    let tot = t.hour as int * 3600 + t.minute as int * 60 + t.second as int + n;
    let days = tot / 86400;
    let rem = tot % 86400;
    let ymd = spec_advance_days(t.year as int, t.month as int, t.day as int, days);
    (ymd.0, ymd.1, ymd.2, rem / 3600, (rem / 60) % 60, rem % 60)
}

/// `t` one second later, as a timestamp value.
pub open spec fn spec_plus_one_second(t: CwbTime) -> CwbTime {
    let r = spec_plus_seconds(t, 1);
    CwbTime {
        year: r.0 as u32,
        month: r.1 as u32,
        day: r.2 as u32,
        hour: r.3 as u32,
        minute: r.4 as u32,
        second: r.5 as u32,
    }
}

proof fn lemma_next_date_valid(y: int, m: int, d: int)
    requires
        valid_date(y, m, d),
    ensures
        valid_date(spec_next_date(y, m, d).0, spec_next_date(y, m, d).1, spec_next_date(y, m, d).2),
        y <= spec_next_date(y, m, d).0 <= y + 1,
{
}

proof fn lemma_advance_days_valid(y: int, m: int, d: int, n: int)
    requires
        valid_date(y, m, d),
        n >= 0,
    ensures
        valid_date(
            spec_advance_days(y, m, d, n).0,
            spec_advance_days(y, m, d, n).1,
            spec_advance_days(y, m, d, n).2,
        ),
        y <= spec_advance_days(y, m, d, n).0 <= y + n,
    decreases n,
{
    if n > 0 {
        lemma_advance_days_valid(y, m, d, n - 1);
        let p = spec_advance_days(y, m, d, n - 1);
        lemma_next_date_valid(p.0, p.1, p.2);
    }
}

/// One step of the day-carry loop.
fn next_date_exec(y: u32, m: u32, d: u32) -> (r: (u32, u32, u32))
    requires
        valid_date(y as int, m as int, d as int),
        y <= 20000,
    ensures
        (r.0 as int, r.1 as int, r.2 as int) == spec_next_date(y as int, m as int, d as int),
{
    if d < days_in_month_exec(y, m) {
        (y, m, d + 1)
    } else if m < 12 {
        (y, m + 1, 1)
    } else {
        (y + 1, 1, 1)
    }
}

impl CwbTime {
    /// Moves the timestamp forward by `seconds`, carrying through the
    /// calendar.  The result must still be representable (year at most
    /// four digits); `decide_freshness` shields the one instant where
    /// it is not.
    pub fn add_seconds(&mut self, seconds: i64)
        requires
            old(self).wf(),
            0 <= seconds <= 1000000,
            spec_plus_seconds(*old(self), seconds as int).0 <= 9999,
        ensures
            final(self).wf(),
            (
                final(self).year as int,
                final(self).month as int,
                final(self).day as int,
                final(self).hour as int,
                final(self).minute as int,
                final(self).second as int,
            ) == spec_plus_seconds(*old(self), seconds as int),
    {
        let tot: u64 = self.hour as u64 * 3600 + self.minute as u64 * 60 + self.second as u64
            + seconds as u64;
        let days: u64 = tot / 86400;
        let rem: u64 = tot % 86400;

        proof {
            assert(days <= 12) by {
                vstd::arithmetic::div_mod::lemma_div_is_ordered(
                    tot as int,
                    (86400 * 12 + 86399) as int,
                    86400,
                );
            }
            assert(rem / 3600 <= 23) by {
                vstd::arithmetic::div_mod::lemma_div_is_ordered(rem as int, 86399, 3600);
            }
        }

        let mut y: u32 = self.year;
        let mut m: u32 = self.month;
        let mut d: u32 = self.day;
        let mut j: u64 = 0;

        proof {
            lemma_advance_days_valid(
                self.year as int,
                self.month as int,
                self.day as int,
                days as int,
            );
        }

        while j < days
            invariant
                j <= days,
                days <= 12,
                old(self).wf(),
                (y as int, m as int, d as int) == spec_advance_days(
                    old(self).year as int,
                    old(self).month as int,
                    old(self).day as int,
                    j as int,
                ),
                spec_advance_days(
                    old(self).year as int,
                    old(self).month as int,
                    old(self).day as int,
                    days as int,
                ).0 <= 9999,
            decreases days - j,
        {
            proof {
                lemma_advance_days_valid(
                    old(self).year as int,
                    old(self).month as int,
                    old(self).day as int,
                    j as int,
                );
                lemma_advance_days_valid(
                    old(self).year as int,
                    old(self).month as int,
                    old(self).day as int,
                    j as int + 1,
                );
            }
            let next = next_date_exec(y, m, d);
            y = next.0;
            m = next.1;
            d = next.2;
            j = j + 1;
        }

        proof {
            lemma_advance_days_valid(
                old(self).year as int,
                old(self).month as int,
                old(self).day as int,
                days as int,
            );
        }

        self.year = y;
        self.month = m;
        self.day = d;
        self.hour = (rem / 3600) as u32;
        self.minute = ((rem / 60) % 60) as u32;
        self.second = (rem % 60) as u32;
    }
}

// ------------------------------------------------------------------
// Round trip
// ------------------------------------------------------------------

proof fn lemma_digit_char_val(d: int)
    requires
        0 <= d <= 9,
    ensures
        is_digit_char(digit_char(d)),
        digit_val(digit_char(d)) == d,
{
}

proof fn lemma_num4_reconstruct(v: int)
    requires
        0 <= v <= 9999,
    ensures
        ((v / 1000 * 10 + (v / 100) % 10) * 10 + (v / 10) % 10) * 10 + v % 10 == v,
{
    vstd::arithmetic::div_mod::lemma_fundamental_div_mod(v, 10);
    vstd::arithmetic::div_mod::lemma_fundamental_div_mod(v / 10, 10);
    vstd::arithmetic::div_mod::lemma_fundamental_div_mod(v / 100, 10);
    assert((v / 10) / 10 == v / 100) by {
        vstd::arithmetic::div_mod::lemma_div_denominator(v, 10, 10);
    }
    assert((v / 100) / 10 == v / 1000) by {
        vstd::arithmetic::div_mod::lemma_div_denominator(v, 100, 10);
    }
}

/// Formatting then parsing gives back the same instant, whatever the
/// separator: the freshness decision may compare times written in
/// either shape.
pub proof fn lemma_format_parse_round_trip(t: CwbTime, sep: char)
    requires
        t.wf(),
    ensures
        spec_parse(spec_format(t, sep), sep) == Some(t),
{
    let s = spec_format(t, sep);
    let y = t.year as int;
    let mo = t.month as int;
    let d = t.day as int;
    let h = t.hour as int;
    let mi = t.minute as int;
    let sec = t.second as int;
    assert(s =~= seq![
        digit_char(y / 1000),
        digit_char((y / 100) % 10),
        digit_char((y / 10) % 10),
        digit_char(y % 10),
        '-',
        digit_char(mo / 10),
        digit_char(mo % 10),
        '-',
        digit_char(d / 10),
        digit_char(d % 10),
        sep,
        digit_char(h / 10),
        digit_char(h % 10),
        ':',
        digit_char(mi / 10),
        digit_char(mi % 10),
        ':',
        digit_char(sec / 10),
        digit_char(sec % 10),
    ]);
    assert forall|x: int| 0 <= x <= 9 implies is_digit_char(digit_char(x)) && digit_val(
        digit_char(x),
    ) == x by {
        lemma_digit_char_val(x);
    }
    lemma_num4_reconstruct(y);
    vstd::arithmetic::div_mod::lemma_fundamental_div_mod(mo, 10);
    vstd::arithmetic::div_mod::lemma_fundamental_div_mod(d, 10);
    vstd::arithmetic::div_mod::lemma_fundamental_div_mod(h, 10);
    vstd::arithmetic::div_mod::lemma_fundamental_div_mod(mi, 10);
    vstd::arithmetic::div_mod::lemma_fundamental_div_mod(sec, 10);
    assert(parse_shape(s, sep));
    assert(num4(s, 0) == y);
    assert(num2(s, 5) == mo);
    assert(num2(s, 8) == d);
    assert(num2(s, 11) == h);
    assert(num2(s, 14) == mi);
    assert(num2(s, 17) == sec);
    assert(parsed_time(s) == t);
}

// ------------------------------------------------------------------
// The freshness gate
// ------------------------------------------------------------------

/// Why the freshness gate could not decide.
pub enum TimestampParseError {
    /// The event's origin time does not parse in the feed shape.
    BadEventTime,
    /// The stored watermark does not parse in the canonical shape.
    BadWatermark,
    /// Advancing the watermark would leave the four-digit years.
    PastRepresentableTime,
}

/// Decides whether an event is new against the stored watermark.
///
/// `Ok(Some(w))` means new, and `w` is the canonical string to persist:
/// the event's time plus one second, so the same instant cannot match
/// again.  `Ok(None)` means stale: the event precedes the watermark.
/// Timestamp trouble is surfaced, never swallowed.
pub fn decide_freshness(origin_time: &str, watermark: &str) -> (r: Result<
    Option<String>,
    TimestampParseError,
>)
    ensures
        match r {
            Ok(opt) => {
                &&& spec_parse(origin_time@, sep_without_t()) is Some
                &&& spec_parse(watermark@, sep_with_t()) is Some
                &&& ({
                    let ev = spec_parse(origin_time@, sep_without_t()).unwrap();
                    let w = spec_parse(watermark@, sep_with_t()).unwrap();
                    if w.spec_le(ev) {
                        &&& spec_plus_seconds(ev, 1).0 <= 9999
                        &&& opt matches Some(nw) && nw@ == spec_format_with_t(
                            spec_plus_one_second(ev),
                        )
                    } else {
                        opt is None
                    }
                })
            },
            Err(TimestampParseError::BadEventTime) => spec_parse(origin_time@, sep_without_t())
                is None,
            Err(TimestampParseError::BadWatermark) => {
                &&& spec_parse(origin_time@, sep_without_t()) is Some
                &&& spec_parse(watermark@, sep_with_t()) is None
            },
            Err(TimestampParseError::PastRepresentableTime) => {
                &&& spec_parse(origin_time@, sep_without_t()) is Some
                &&& spec_parse(watermark@, sep_with_t()) is Some
                &&& spec_parse(watermark@, sep_with_t()).unwrap().spec_le(
                    spec_parse(origin_time@, sep_without_t()).unwrap(),
                )
                &&& spec_plus_seconds(spec_parse(origin_time@, sep_without_t()).unwrap(), 1).0
                    > 9999
            },
        },
{
    let ev = match CwbTime::new_time_string_without_t(origin_time) {
        Some(t) => t,
        None => { return Err(TimestampParseError::BadEventTime) },
    };
    let w = match CwbTime::new_time_string_with_t(watermark) {
        Some(t) => t,
        None => { return Err(TimestampParseError::BadWatermark) },
    };
    if ev.ge(&w) {
        let tail_maxed = ev.month == 12 && ev.day == 31 && ev.hour == 23 && ev.minute == 59
            && ev.second == 59;
        proof {
            reveal_with_fuel(spec_advance_days, 3);
            let tot = ev.hour as int * 3600 + ev.minute as int * 60 + ev.second as int + 1;
            assert(0 < tot <= 86400);
            if tot < 86400 {
                assert(tot / 86400 == 0);
            } else {
                assert(tot / 86400 == 1);
                assert(ev.hour == 23 && ev.minute == 59 && ev.second == 59);
            }
        }
        if ev.year == 9999 && tail_maxed {
            return Err(TimestampParseError::PastRepresentableTime);
        }
        let mut nw = ev;
        nw.add_seconds(1);
        Ok(Some(nw.format_with_t()))
    } else {
        Ok(None)
    }
}

/// The freshness decision only ever moves the watermark forward: an
/// event at or past the watermark advances it to a strictly later
/// instant, which is
/// well-formed and round-trips through the canonical shape.  With one
/// event on either side of the watermark, only the later one advances
/// it, and to that event's time plus one second.
/// The comparison key orders well-formed timestamps exactly as their
/// fields do lexicographically, year first: the freshness decision
/// compares real instants chronologically.
#[verifier::rlimit(100)]
pub proof fn lemma_key_is_field_order(a: CwbTime, b: CwbTime)
    requires
        a.wf(),
        b.wf(),
    ensures
        a.spec_le(b) <==> a.lex_le(b),
{
    lemma_key_decompose(a);
    lemma_key_decompose(b);
}

/// The key laid out as day part times 86400 plus the second of day.
proof fn lemma_key_decompose(t: CwbTime)
    ensures
        t.spec_key() == ((t.year as int * 13 + t.month) * 32 + t.day) * 86400 + t.hour as int
            * 3600 + t.minute as int * 60 + t.second as int,
{
}

/// `0 <= t < 86400` split into hours, minutes and seconds the way
/// `spec_plus_seconds` splits it, and put back together.
proof fn lemma_hms_decompose(t: int)
    requires
        0 <= t < 86400,
    ensures
        t == 3600 * (t / 3600) + 60 * ((t / 60) % 60) + t % 60,
        t / 3600 <= 23,
        (t / 60) % 60 <= 59,
        t % 60 <= 59,
{
    vstd::arithmetic::div_mod::lemma_fundamental_div_mod(t, 60);
    vstd::arithmetic::div_mod::lemma_fundamental_div_mod(t / 60, 60);
    assert((t / 60) / 60 == t / 3600) by {
        vstd::arithmetic::div_mod::lemma_div_denominator(t, 60, 60);
    }
    vstd::arithmetic::div_mod::lemma_div_is_ordered(t, 86399, 3600);
}

#[verifier::rlimit(100)]
pub proof fn lemma_watermark_monotone(ev: CwbTime, w: CwbTime)
    requires
        ev.wf(),
        w.wf(),
        w.spec_le(ev),
        spec_plus_seconds(ev, 1).0 <= 9999,
    ensures
        spec_plus_one_second(ev).wf(),
        w.spec_key() < spec_plus_one_second(ev).spec_key(),
        spec_parse(spec_format_with_t(spec_plus_one_second(ev)), sep_with_t()) == Some(
            spec_plus_one_second(ev),
        ),
{
    reveal_with_fuel(spec_advance_days, 2);
    let tot = ev.hour as int * 3600 + ev.minute as int * 60 + ev.second as int + 1;
    let n = spec_plus_one_second(ev);
    let y = ev.year as int;
    let mo = ev.month as int;
    let d = ev.day as int;
    let base = (y * 13 + mo) * 32 + d;
    lemma_key_decompose(ev);
    lemma_advance_days_valid(y, mo, d, tot / 86400);
    if tot < 86400 {
        assert(tot / 86400 == 0);
        assert(tot % 86400 == tot);
        assert(spec_advance_days(y, mo, d, 0) == (y, mo, d));
        lemma_hms_decompose(tot);
        assert(n.wf());
        lemma_key_decompose(n);
        assert(n.spec_key() == base * 86400 + tot);
        assert(n.spec_key() == ev.spec_key() + 1);
    } else {
        assert(tot == 86400);
        assert(ev.hour == 23 && ev.minute == 59 && ev.second == 59);
        assert(tot / 86400 == 1);
        assert(tot % 86400 == 0);
        let nd = spec_next_date(y, mo, d);
        assert(spec_advance_days(y, mo, d, 1) == nd);
        assert(n.wf());
        lemma_key_decompose(n);
        let nbase = (nd.0 * 13 + nd.1) * 32 + nd.2;
        assert(n.spec_key() == nbase * 86400);
        if d < days_in_month(y, mo) {
            assert(nbase == base + 1);
        } else if mo < 12 {
            assert(nbase - base == 33 - d);
        } else {
            assert(nbase - base == 65 - d);
        }
        assert(nbase >= base + 1);
        assert(n.spec_key() >= ev.spec_key() + 1);
    }
    lemma_format_parse_round_trip(n, sep_with_t());
}

// ------------------------------------------------------------------
// One poll's worth of decisions
// ------------------------------------------------------------------

/// The per-event freshness decision at the specification level:
/// exactly the result `decide_freshness` pins down.
pub open spec fn spec_gate_decision(origin_time: Seq<char>, watermark: Seq<char>) -> Result<
    Option<Seq<char>>,
    TimestampParseError,
> {
    match spec_parse(origin_time, sep_without_t()) {
        Option::None => Err(TimestampParseError::BadEventTime),
        Option::Some(ev) => match spec_parse(watermark, sep_with_t()) {
            Option::None => Err(TimestampParseError::BadWatermark),
            Option::Some(w) => if w.spec_le(ev) {
                if spec_plus_seconds(ev, 1).0 <= 9999 {
                    Ok(Some(spec_format_with_t(spec_plus_one_second(ev))))
                } else {
                    Err(TimestampParseError::PastRepresentableTime)
                }
            } else {
                Ok(None)
            },
        },
    }
}

/// A decision with its string payload read as characters.
pub open spec fn decision_view(r: Result<Option<String>, TimestampParseError>) -> Result<
    Option<Seq<char>>,
    TimestampParseError,
> {
    match r {
        Ok(Some(s)) => Ok(Some(s@)),
        Ok(None) => Ok(None),
        Err(e) => Err(e),
    }
}

pub open spec fn decisions_view(s: Seq<Result<Option<String>, TimestampParseError>>) -> Seq<
    Result<Option<Seq<char>>, TimestampParseError>,
> {
    s.map_values(|r: Result<Option<String>, TimestampParseError>| decision_view(r))
}

/// The decisions one poll batch makes, in feed order: each event is
/// judged against the watermark as advanced by the new events before
/// it, and an event whose timestamp fails only fails for itself.
pub open spec fn spec_batch_decisions(times: Seq<Seq<char>>, watermark: Seq<char>) -> Seq<
    Result<Option<Seq<char>>, TimestampParseError>,
>
    decreases times.len(),
{
    if times.len() == 0 {
        Seq::empty()
    } else {
        let d = spec_gate_decision(times.first(), watermark);
        let w2 = match d {
            Ok(Some(nw)) => nw,
            _ => watermark,
        };
        seq![d] + spec_batch_decisions(times.drop_first(), w2)
    }
}

/// The watermark left standing after the batch.
pub open spec fn spec_batch_watermark(times: Seq<Seq<char>>, watermark: Seq<char>) -> Seq<char>
    decreases times.len(),
{
    if times.len() == 0 {
        watermark
    } else {
        let d = spec_gate_decision(times.first(), watermark);
        let w2 = match d {
            Ok(Some(nw)) => nw,
            _ => watermark,
        };
        spec_batch_watermark(times.drop_first(), w2)
    }
}

/// Decides one poll's worth of events against the current watermark,
/// in feed order.  Returns each event's decision — the binary renders
/// and notifies exactly on the `Ok(Some(..))` entries and persists
/// their payloads — and the watermark left standing after the batch.
pub fn decide_freshness_batch(origin_times: &Vec<String>, watermark: &str) -> (r: (
    Vec<Result<Option<String>, TimestampParseError>>,
    String,
))
    ensures
        decisions_view(r.0@) == spec_batch_decisions(origin_times.deep_view(), watermark@),
        r.1@ == spec_batch_watermark(origin_times.deep_view(), watermark@),
{
    let ghost tv = origin_times.deep_view();
    let ghost w0 = watermark@;
    let mut out: Vec<Result<Option<String>, TimestampParseError>> = Vec::new();
    let mut cw: String = String::from_str(watermark);
    let n: usize = origin_times.len();
    let mut i: usize = 0;

    proof {
        assert(tv.skip(0) =~= tv);
        assert(decisions_view(out@) =~= Seq::<Result<Option<Seq<char>>, TimestampParseError>>::empty());
    }

    while i < n
        invariant
            n == origin_times@.len(),
            tv == origin_times.deep_view(),
            tv.len() == n,
            i <= n,
            out@.len() == i,
            spec_batch_decisions(tv, w0) == decisions_view(out@) + spec_batch_decisions(
                tv.skip(i as int),
                cw@,
            ),
            spec_batch_watermark(tv, w0) == spec_batch_watermark(tv.skip(i as int), cw@),
        decreases n - i,
    {
        let d = decide_freshness(origin_times[i].as_str(), cw.as_str());
        let ghost dv = decision_view(d);
        let ghost prev_out = out@;
        let ghost prev_w = cw@;
        proof {
            assert(origin_times@[i as int]@ == tv[i as int]);
            assert(dv == spec_gate_decision(tv[i as int], prev_w));
            assert(tv.skip(i as int).first() == tv[i as int]);
            assert(tv.skip(i as int).drop_first() =~= tv.skip(i as int + 1));
        }
        match d {
            Ok(Some(nw)) => {
                let nw2 = nw.clone();
                out.push(Ok(Some(nw)));
                cw = nw2;
            },
            Ok(None) => {
                out.push(Ok(None));
            },
            Err(e) => {
                out.push(Err(e));
            },
        }
        proof {
            assert(decisions_view(out@) =~= decisions_view(prev_out) + seq![dv]);
            assert(spec_batch_decisions(tv.skip(i as int), prev_w) == seq![dv]
                + spec_batch_decisions(tv.skip(i as int + 1), cw@));
            assert(spec_batch_watermark(tv.skip(i as int), prev_w) == spec_batch_watermark(
                tv.skip(i as int + 1),
                cw@,
            ));
            assert(decisions_view(prev_out) + seq![dv] + spec_batch_decisions(
                tv.skip(i as int + 1),
                cw@,
            ) =~= decisions_view(prev_out) + (seq![dv] + spec_batch_decisions(
                tv.skip(i as int + 1),
                cw@,
            )));
        }
        i = i + 1;
    }

    proof {
        assert(tv.skip(n as int) =~= Seq::<Seq<char>>::empty());
        assert(spec_batch_decisions(tv, w0) =~= decisions_view(out@));
        assert(spec_batch_watermark(tv, w0) == cw@);
    }
    (out, cw)
}

/// Of one poll batch holding an event strictly before the watermark
/// and one at or past it, only the later event is decided new — the
/// earlier one is stale and leaves no trace — and the watermark
/// advances exactly once, to the later event's time plus one second in
/// canonical shape.
pub proof fn lemma_only_later_event_advances(t1: Seq<char>, t2: Seq<char>, w: Seq<char>)
    requires
        spec_parse(t1, sep_without_t()) is Some,
        spec_parse(t2, sep_without_t()) is Some,
        spec_parse(w, sep_with_t()) is Some,
        spec_parse(t1, sep_without_t()).unwrap().spec_key() < spec_parse(
            w,
            sep_with_t(),
        ).unwrap().spec_key(),
        spec_parse(w, sep_with_t()).unwrap().spec_le(spec_parse(t2, sep_without_t()).unwrap()),
        spec_plus_seconds(spec_parse(t2, sep_without_t()).unwrap(), 1).0 <= 9999,
    ensures
        spec_batch_decisions(seq![t1, t2], w) =~= seq![
            Ok::<Option<Seq<char>>, TimestampParseError>(None),
            Ok::<Option<Seq<char>>, TimestampParseError>(
                Some(
                    spec_format_with_t(
                        spec_plus_one_second(spec_parse(t2, sep_without_t()).unwrap()),
                    ),
                ),
            ),
        ],
        spec_batch_watermark(seq![t1, t2], w) == spec_format_with_t(
            spec_plus_one_second(spec_parse(t2, sep_without_t()).unwrap()),
        ),
{
    let ev1 = spec_parse(t1, sep_without_t()).unwrap();
    let ev2 = spec_parse(t2, sep_without_t()).unwrap();
    let wt = spec_parse(w, sep_with_t()).unwrap();
    let nw = spec_format_with_t(spec_plus_one_second(ev2));
    let s2 = seq![t1, t2];

    assert(!wt.spec_le(ev1));
    assert(spec_gate_decision(t1, w) == Ok::<Option<Seq<char>>, TimestampParseError>(None));
    assert(spec_gate_decision(t2, w) == Ok::<Option<Seq<char>>, TimestampParseError>(Some(nw)));

    assert(s2.first() == t1);
    assert(s2.drop_first() =~= seq![t2]);
    assert(seq![t2].first() == t2);
    assert(seq![t2].drop_first() =~= Seq::<Seq<char>>::empty());

    assert(spec_batch_decisions(Seq::<Seq<char>>::empty(), nw) =~= Seq::<
        Result<Option<Seq<char>>, TimestampParseError>,
    >::empty());
    assert(spec_batch_watermark(Seq::<Seq<char>>::empty(), nw) == nw);
    assert(spec_batch_decisions(seq![t2], w) =~= seq![
        Ok::<Option<Seq<char>>, TimestampParseError>(Some(nw)),
    ]);
    assert(spec_batch_decisions(s2, w) =~= seq![
        Ok::<Option<Seq<char>>, TimestampParseError>(None),
    ] + spec_batch_decisions(seq![t2], w));
    assert(spec_batch_watermark(seq![t2], w) == spec_batch_watermark(
        Seq::<Seq<char>>::empty(),
        nw,
    ));
}

/// Relies on chrono's `Utc::now`, shifted eight hours ahead of UTC to
/// the feed's fixed local zone, read out through chrono's calendar
/// accessors.  Which instant comes back depends on the wall clock, so
/// only what chrono guarantees of every instant is stated: the fields
/// form a real calendar date and time of day.  The year is whatever
/// the clock says.
#[verifier::external_body]
fn local_now_fields() -> (r: (i64, u32, u32, u32, u32, u32))
    ensures
        valid_date(r.0 as int, r.1 as int, r.2 as int),
        r.3 <= 23,
        r.4 <= 59,
        r.5 <= 59,
{
    let t = chrono::Utc::now() + chrono::Duration::hours(8);
    (t.year() as i64, t.month(), t.day(), t.hour(), t.minute(), t.second())
}

/// The current local time (the feed's fixed zone) in the canonical
/// shape: always the formatting of a well-formed instant, so it is
/// guaranteed to parse back, and the freshness decision can always
/// read a watermark seeded from it.  A clock year outside the format's
/// four digits is clamped, keeping the date real.
pub fn get_local_date_time_with_t() -> (r: String)
    ensures
        spec_parse(r@, sep_with_t()) is Some,
        exists|t: CwbTime| t.wf() && r@ == spec_format_with_t(t),
{
    let f = local_now_fields();
    let year: u32 = if f.0 < 0 {
        0
    } else if f.0 > 9999 {
        9999
    } else {
        f.0 as u32
    };
    let month: u32 = f.1;
    let dim: u32 = days_in_month_exec(year, month);
    let day: u32 = if f.2 > dim {
        dim
    } else {
        f.2
    };
    let t = CwbTime { year, month, day, hour: f.3, minute: f.4, second: f.5 };
    proof {
        assert(t.wf());
        lemma_format_parse_round_trip(t, sep_with_t());
    }
    t.format_with_t()
}

} // verus!

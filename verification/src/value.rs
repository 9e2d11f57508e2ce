//! Text to typed values, in the lexical forms of XML Schema.
//!
//! A value that doesn't fit its column's type gives `None`: a feature error.

use vstd::prelude::*;

use crate::text::{chars_eq, chars_of, is_digit, owned};

verus! {

#[derive(Debug, Clone, Copy, PartialEq, Eq, Structural)]
pub enum TimeUnit {
    Second,
    Millisecond,
    Microsecond,
    Nanosecond,
}

/// The type of a column that takes scalar values.
#[derive(Debug, Clone, Copy, PartialEq, Eq, Structural)]
pub enum ScalarType {
    Utf8,
    LargeUtf8,
    Utf8View,
    /// Binary columns take the text's bytes as written.
    Binary,
    LargeBinary,
    Boolean,
    Int8,
    Int16,
    Int32,
    Int64,
    UInt8,
    UInt16,
    UInt32,
    UInt64,
    Float16,
    Float32,
    Float64,
    /// Days since 1970-01-01.
    Date32,
    /// Milliseconds since 1970-01-01.
    Date64,
    /// Units since the epoch; `true` for a column with a time zone.
    Timestamp(TimeUnit, bool),
    /// Units since midnight.
    Time32(TimeUnit),
    Time64(TimeUnit),
    /// Any other type: no text is a value of it.
    Other,
}

/// A parsed value, in the physical form of its column type.
#[derive(Debug, Clone, PartialEq)]
pub enum Scalar {
    Bool(bool),
    /// Signed integers, and timestamps / `Date64` / `Time64` in their unit.
    Int(i64),
    UInt(u64),
    /// A floating-point value as written, in a form `xs:double` allows; the
    /// number itself is read where floating point is.
    Float(String),
    /// `Date32` days, `Time32` values.
    Int32(i32),
    Str(String),
}

pub open spec fn digit_value(c: char) -> int {
    (c as int) - 48
}

pub open spec fn all_digits(s: Seq<char>) -> bool {
    forall|i: int| 0 <= i < s.len() ==> is_digit(#[trigger] s[i])
}

/// The number that decimal digits write.
pub open spec fn digits_value(s: Seq<char>) -> int
    decreases s.len(),
{
    if s.len() == 0 {
        0
    } else {
        10 * digits_value(s.drop_last()) + digit_value(s.last())
    }
}

/// What `str::parse` reads as a signed integer, before its range check: an
/// optional sign, then at least one digit.
pub open spec fn signed_number(s: Seq<char>) -> Option<int> {
    if s.len() > 0 && (s[0] == '+' || s[0] == '-') {
        let d = s.drop_first();
        if d.len() > 0 && all_digits(d) {
            Some(
                if s[0] == '-' {
                    -digits_value(d)
                } else {
                    digits_value(d)
                },
            )
        } else {
            None
        }
    } else if s.len() > 0 && all_digits(s) {
        Some(digits_value(s))
    } else {
        None
    }
}

/// What `str::parse` reads as an unsigned integer: an optional `+`, then at
/// least one digit.
pub open spec fn unsigned_number(s: Seq<char>) -> Option<int> {
    if s.len() > 0 && s[0] == '+' {
        let d = s.drop_first();
        if d.len() > 0 && all_digits(d) {
            Some(digits_value(d))
        } else {
            None
        }
    } else if s.len() > 0 && all_digits(s) {
        Some(digits_value(s))
    } else {
        None
    }
}

/// `s` without one leading `+`.
pub open spec fn without_plus(s: Seq<char>) -> Seq<char> {
    if s.len() > 0 && s[0] == '+' {
        s.drop_first()
    } else {
        s
    }
}

/// A signed integer in `min..=max`; one `+` may come before the sign.
pub open spec fn int_value(text: Seq<char>, min: int, max: int) -> Option<int> {
    match signed_number(without_plus(text)) {
        Some(v) => if min <= v <= max {
            Some(v)
        } else {
            None
        },
        None => None,
    }
}

/// An unsigned integer up to `max`; one `+` may come before the sign.
pub open spec fn uint_value(text: Seq<char>, max: int) -> Option<int> {
    match unsigned_number(without_plus(text)) {
        Some(v) => if v <= max {
            Some(v)
        } else {
            None
        },
        None => None,
    }
}

proof fn lemma_digits_nonneg(s: Seq<char>)
    requires
        all_digits(s),
    ensures
        digits_value(s) >= 0,
    decreases s.len(),
{
    if s.len() > 0 {
        assert(is_digit(s[s.len() - 1]));
        assert forall|i: int| 0 <= i < s.drop_last().len() implies is_digit(#[trigger] s.drop_last()[i]) by {
            assert(s.drop_last()[i] == s[i]);
        }
        lemma_digits_nonneg(s.drop_last());
    }
}

/// A longer run of digits is worth at least as much as its beginning.
proof fn lemma_digits_grow(s: Seq<char>, i: int, j: int)
    requires
        all_digits(s),
        0 <= i <= j <= s.len(),
    ensures
        digits_value(s.take(i)) <= digits_value(s.take(j)),
    decreases j - i,
{
    if i < j {
        lemma_digits_grow(s, i, j - 1);
        let t = s.take(j);
        assert(t.drop_last() == s.take(j - 1));
        assert(is_digit(t.last())) by {
            assert(t.last() == s[j - 1]);
        }
        assert forall|k: int| 0 <= k < s.take(j - 1).len() implies is_digit(#[trigger] s.take(j - 1)[k]) by {
            assert(s.take(j - 1)[k] == s[k]);
        }
        lemma_digits_nonneg(s.take(j - 1));
    }
}

/// The value of `c`, a digit.
fn digit_of(c: char) -> (r: u64)
    requires
        is_digit(c),
    ensures
        r == digit_value(c),
        r < 10,
{
    ((c as u32) - 48) as u64
}

/// The value of the digits `s[from..to]`; `None` where it exceeds `u64::MAX`.
fn digits_u64(s: &[char], from: usize, to: usize) -> (r: Option<u64>)
    requires
        from <= to <= s@.len(),
        all_digits(s@.subrange(from as int, to as int)),
    ensures
        match r {
            Some(v) => v == digits_value(s@.subrange(from as int, to as int)),
            None => digits_value(s@.subrange(from as int, to as int)) > u64::MAX,
        },
{
    let ghost d = s@.subrange(from as int, to as int);
    let mut v: u64 = 0;
    let mut i = from;
    assert(d.take(0) =~= Seq::<char>::empty());
    while i < to
        invariant
            from <= i <= to <= s@.len(),
            d == s@.subrange(from as int, to as int),
            all_digits(d),
            v == digits_value(d.take(i - from)),
        decreases to - i,
    {
        assert(d[i - from] == s@[i as int]);
        assert(is_digit(s@[i as int]));
        let c = digit_of(s[i]);
        let ghost next = d.take(i - from + 1);
        assert(next.drop_last() == d.take(i - from));
        assert(next.last() == s@[i as int]);
        match v.checked_mul(10) {
            None => {
                proof {
                    lemma_digits_grow(d, i - from + 1, d.len() as int);
                    assert(d.take(d.len() as int) == d);
                }
                return None;
            },
            Some(t) => match t.checked_add(c) {
                None => {
                    proof {
                        lemma_digits_grow(d, i - from + 1, d.len() as int);
                        assert(d.take(d.len() as int) == d);
                    }
                    return None;
                },
                Some(w) => {
                    v = w;
                },
            },
        }
        i = i + 1;
    }
    assert(d.take(to - from) == d);
    Some(v)
}

/// `s[from..to]` are all digits.
fn digits_in(s: &[char], from: usize, to: usize) -> (r: bool)
    requires
        from <= to <= s@.len(),
    ensures
        r == all_digits(s@.subrange(from as int, to as int)),
{
    let mut i = from;
    while i < to
        invariant
            from <= i <= to <= s@.len(),
            forall|k: int| from <= k < i ==> is_digit(#[trigger] s@[k]),
        decreases to - i,
    {
        if !('0' <= s[i] && s[i] <= '9') {
            assert(!is_digit(s@.subrange(from as int, to as int)[i - from]));
            return false;
        }
        i = i + 1;
    }
    assert forall|k: int| 0 <= k < to - from implies is_digit(#[trigger] s@.subrange(from as int, to as int)[k]) by {
        assert(s@.subrange(from as int, to as int)[k] == s@[from + k]);
    }
    true
}

/// A signed integer in `min..=max`; one `+` may come before the sign.
pub fn int_in(text: &str, min: i64, max: i64) -> (r: Option<i64>)
    ensures
        match r {
            Some(v) => int_value(text@, min as int, max as int) == Some(v as int),
            None => int_value(text@, min as int, max as int) is None,
        },
{
    let s = chars_of(text);
    let n = s.len();
    let from: usize = if n > 0 && s[0] == '+' {
        1
    } else {
        0
    };
    let ghost t = without_plus(text@);
    assert(t == s@.subrange(from as int, n as int));
    let (negative, start) = if from < n && (s[from] == '+' || s[from] == '-') {
        (s[from] == '-', from + 1)
    } else {
        (false, from)
    };
    if start >= n || !digits_in(&s, start, n) {
        assert(signed_number(t) is None) by {
            if start < n {
                assert(s@.subrange(start as int, n as int) == if start == from {
                    t
                } else {
                    t.drop_first()
                });
            }
        }
        return None;
    }
    assert(s@.subrange(start as int, n as int) == if start == from {
        t
    } else {
        t.drop_first()
    });
    let magnitude = match digits_u64(&s, start, n) {
        Some(m) => m,
        None => return None,
    };
    let value: i64 = if negative {
        if magnitude > 9223372036854775808u64 {
            return None;
        } else if magnitude == 9223372036854775808u64 {
            -9223372036854775807i64 - 1
        } else {
            -(magnitude as i64)
        }
    } else {
        if magnitude > 9223372036854775807u64 {
            return None;
        }
        magnitude as i64
    };
    if min <= value && value <= max {
        Some(value)
    } else {
        None
    }
}

/// An unsigned integer up to `max`; one `+` may come before the sign.
pub fn uint_in(text: &str, max: u64) -> (r: Option<u64>)
    ensures
        match r {
            Some(v) => uint_value(text@, max as int) == Some(v as int),
            None => uint_value(text@, max as int) is None,
        },
{
    let s = chars_of(text);
    let n = s.len();
    let from: usize = if n > 0 && s[0] == '+' {
        1
    } else {
        0
    };
    let ghost t = without_plus(text@);
    assert(t == s@.subrange(from as int, n as int));
    let start = if from < n && s[from] == '+' {
        from + 1
    } else {
        from
    };
    if start >= n || !digits_in(&s, start, n) {
        assert(unsigned_number(t) is None) by {
            if start < n {
                assert(s@.subrange(start as int, n as int) == if start == from {
                    t
                } else {
                    t.drop_first()
                });
            }
        }
        return None;
    }
    assert(s@.subrange(start as int, n as int) == if start == from {
        t
    } else {
        t.drop_first()
    });
    match digits_u64(&s, start, n) {
        Some(v) => if v <= max {
            Some(v)
        } else {
            None
        },
        None => None,
    }
}

/// The length of the run of digits from `from` on.
pub open spec fn digit_run(s: Seq<char>, from: int) -> int
    decreases s.len() - from,
{
    if 0 <= from < s.len() && is_digit(s[from]) {
        1 + digit_run(s, from + 1)
    } else {
        0
    }
}

/// Two digits at `i`, as a number.
pub open spec fn two_digits_at(s: Seq<char>, i: int) -> Option<int> {
    if 0 <= i && i + 2 <= s.len() && is_digit(s[i]) && is_digit(s[i + 1]) {
        Some(10 * digit_value(s[i]) + digit_value(s[i + 1]))
    } else {
        None
    }
}

pub open spec fn leap_year(y: int) -> bool {
    (y % 4 == 0 && y % 100 != 0) || y % 400 == 0
}

/// Days of a month; 0 for a number that is no month.
pub open spec fn month_days(y: int, m: int) -> int {
    if m == 1 || m == 3 || m == 5 || m == 7 || m == 8 || m == 10 || m == 12 {
        31
    } else if m == 4 || m == 6 || m == 9 || m == 11 {
        30
    } else if m == 2 {
        if leap_year(y) {
            29
        } else {
            28
        }
    } else {
        0
    }
}

/// Leap years from year 1 up to year `y - 1` (fewer than none before year 1).
pub open spec fn leaps_before(y: int) -> int {
    (y - 1) / 4 - (y - 1) / 100 + (y - 1) / 400
}

/// Days of the months before `m` in year `y`.
pub open spec fn days_before_month(y: int, m: int) -> int {
    (if m <= 1 {
        0int
    } else if m == 2 {
        31
    } else if m == 3 {
        59
    } else if m == 4 {
        90
    } else if m == 5 {
        120
    } else if m == 6 {
        151
    } else if m == 7 {
        181
    } else if m == 8 {
        212
    } else if m == 9 {
        243
    } else if m == 10 {
        273
    } else if m == 11 {
        304
    } else {
        334
    }) + if m > 2 && leap_year(y) {
        1int
    } else {
        0
    }
}

/// Days since 1970-01-01 of a date of the proleptic Gregorian calendar: the
/// days of the years before it since 1970, of the months before it in its
/// year, and of its month before it.
pub open spec fn days_from_civil(y: int, m: int, d: int) -> int {
    365 * (y - 1970) + leaps_before(y) - leaps_before(1970) + days_before_month(y, m) + d - 1
}

/// The days counted follow each other as the calendar's do: 1970-01-01 is
/// day 0, the day after the last of a month is the first of the next month,
/// and the day after December 31 is January 1 of the next year.
pub proof fn lemma_days_follow_each_other(y: int, m: int)
    requires
        1 <= m <= 12,
    ensures
        days_from_civil(1970, 1, 1) == 0,
        m < 12 ==> days_from_civil(y, m + 1, 1) == days_from_civil(y, m, month_days(y, m)) + 1,
        m == 12 ==> days_from_civil(y + 1, 1, 1) == days_from_civil(y, 12, 31) + 1,
{
    assert(y / 4 - (y - 1) / 4 == if y % 4 == 0 {
        1int
    } else {
        0
    });
    assert(y / 100 - (y - 1) / 100 == if y % 100 == 0 {
        1int
    } else {
        0
    });
    assert(y / 400 - (y - 1) / 400 == if y % 400 == 0 {
        1int
    } else {
        0
    });
    assert(y % 400 == 0 ==> y % 100 == 0 && y % 4 == 0);
    assert(y % 100 == 0 ==> y % 4 == 0);
}

/// `[-]YYYY-MM-DD` from the start of `s`: the days since 1970-01-01 and
/// where what follows starts. The year has 4 to 9 digits.
pub open spec fn date_spec(s: Seq<char>) -> Option<(int, int)> {
    let negative = s.len() > 0 && s[0] == '-';
    let start: int = if negative {
        1
    } else {
        0
    };
    let year_len = digit_run(s, start);
    if !(4 <= year_len <= 9) {
        None
    } else {
        let magnitude = digits_value(s.subrange(start, start + year_len));
        let year = if negative {
            -magnitude
        } else {
            magnitude
        };
        let p = start + year_len;
        if !(p < s.len() && s[p] == '-') {
            None
        } else {
            match two_digits_at(s, p + 1) {
                None => None,
                Some(month) => if !(p + 3 < s.len() && s[p + 3] == '-') {
                    None
                } else {
                    match two_digits_at(s, p + 4) {
                        None => None,
                        Some(day) => if 1 <= day <= month_days(year, month) {
                            Some((days_from_civil(year, month, day), p + 6))
                        } else {
                            None
                        },
                    }
                },
            }
        }
    }
}

/// Two digits at `i`.
fn two_digits(s: &[char], i: usize) -> (r: Option<i64>)
    ensures
        match r {
            Some(v) => two_digits_at(s@, i as int) == Some(v as int) && 0 <= v < 100,
            None => two_digits_at(s@, i as int) is None,
        },
{
    if i < s.len() && s.len() - i >= 2 && '0' <= s[i] && s[i] <= '9' && '0' <= s[i + 1] && s[i + 1] <= '9' {
        let a = digit_of(s[i]) as i64;
        let b = digit_of(s[i + 1]) as i64;
        Some(10 * a + b)
    } else {
        None
    }
}

/// Floor division by a positive constant, for values of dates.
fn floor_div(x: i64, d: i64) -> (r: i64)
    requires
        d == 4 || d == 100 || d == 400,
        -2000000000 <= x <= 2000000000,
    ensures
        r == x / d,
        -1000000000 <= r <= 1000000000,
{
    match x.checked_div_euclid(d) {
        Some(q) => q,
        None => 0,
    }
}

fn is_leap(y: i64) -> (r: bool)
    requires
        -2000000000 <= y <= 2000000000,
    ensures
        r == leap_year(y as int),
{
    let q4 = floor_div(y, 4);
    let q100 = floor_div(y, 100);
    let q400 = floor_div(y, 400);
    (y - 4 * q4 == 0 && y - 100 * q100 != 0) || y - 400 * q400 == 0
}

/// Days since 1970-01-01 of a date of the proleptic Gregorian calendar.
pub fn days_from_civil_exec(year: i64, month: i64, day: i64) -> (r: i64)
    requires
        -1000000000 <= year <= 1000000000,
        1 <= month <= 12,
        1 <= day <= 31,
    ensures
        r == days_from_civil(year as int, month as int, day as int),
{
    let y1 = year - 1;
    let leaps = floor_div(y1, 4) - floor_div(y1, 100) + floor_div(y1, 400);
    let before: i64 = if month == 1 {
        0
    } else if month == 2 {
        31
    } else if month == 3 {
        59
    } else if month == 4 {
        90
    } else if month == 5 {
        120
    } else if month == 6 {
        151
    } else if month == 7 {
        181
    } else if month == 8 {
        212
    } else if month == 9 {
        243
    } else if month == 10 {
        273
    } else if month == 11 {
        304
    } else {
        334
    };
    let extra: i64 = if month > 2 && is_leap(year) {
        1
    } else {
        0
    };
    assert(leaps_before(1970) == 477);
    365 * (year - 1970) + leaps - 477 + before + extra + day - 1
}


/// `10` to the power `n`.
pub open spec fn pow10(n: nat) -> int
    decreases n,
{
    if n == 0 {
        1
    } else {
        10 * pow10((n - 1) as nat)
    }
}

/// `n` digits write a number below `10^n`.
proof fn lemma_digits_below(s: Seq<char>)
    requires
        all_digits(s),
    ensures
        0 <= digits_value(s) < pow10(s.len()),
    decreases s.len(),
{
    if s.len() > 0 {
        assert(is_digit(s[s.len() - 1]));
        assert forall|i: int| 0 <= i < s.drop_last().len() implies is_digit(#[trigger] s.drop_last()[i]) by {
            assert(s.drop_last()[i] == s[i]);
        }
        lemma_digits_below(s.drop_last());
    }
}

proof fn lemma_pow10_grows(a: nat, b: nat)
    requires
        a <= b,
    ensures
        1 <= pow10(a) <= pow10(b),
    decreases b,
{
    if b > 0 {
        if a == b {
            lemma_pow10_grows((b - 1) as nat, (b - 1) as nat);
        } else {
            lemma_pow10_grows(a, (b - 1) as nat);
        }
    }
}

/// The days of month `m` in year `y`.
fn month_days_exec(y: i64, m: i64) -> (r: i64)
    requires
        -2000000000 <= y <= 2000000000,
    ensures
        r == month_days(y as int, m as int),
{
    if m == 1 || m == 3 || m == 5 || m == 7 || m == 8 || m == 10 || m == 12 {
        31
    } else if m == 4 || m == 6 || m == 9 || m == 11 {
        30
    } else if m == 2 {
        if is_leap(y) {
            29
        } else {
            28
        }
    } else {
        0
    }
}

/// `[-]YYYY-MM-DD` from the start of `s`: the days since 1970-01-01 and
/// where what follows starts.
pub fn parse_date(s: &[char]) -> (r: Option<(i64, usize)>)
    ensures
        match r {
            Some((days, p)) => date_spec(s@) == Some((days as int, p as int)) && p <= s@.len()
                && -400000000000 <= days <= 400000000000,
            None => date_spec(s@) is None,
        },
{
    let n = s.len();
    let negative = n > 0 && s[0] == '-';
    let start: usize = if negative {
        1
    } else {
        0
    };
    let mut k = start;
    while k < n && '0' <= s[k] && s[k] <= '9'
        invariant
            start <= k <= n == s@.len(),
            start <= 1,
            digit_run(s@, start as int) == (k - start) + digit_run(s@, k as int),
            forall|j: int| start <= j < k ==> is_digit(#[trigger] s@[j]),
        decreases n - k,
    {
        k = k + 1;
    }
    let year_len = k - start;
    if year_len < 4 || year_len > 9 {
        return None;
    }
    let ghost digits = s@.subrange(start as int, k as int);
    assert(all_digits(digits)) by {
        assert forall|j: int| 0 <= j < digits.len() implies is_digit(#[trigger] digits[j]) by {
            assert(digits[j] == s@[start + j]);
        }
    }
    proof {
        lemma_digits_below(digits);
        lemma_pow10_grows(digits.len(), 9);
        reveal_with_fuel(pow10, 10);
    }
    let magnitude = match digits_u64(s, start, k) {
        Some(v) => v,
        None => return None,
    };
    let year: i64 = if negative {
        -(magnitude as i64)
    } else {
        magnitude as i64
    };
    let p = k;
    if !(p < n && s[p] == '-') {
        return None;
    }
    let month = match two_digits(s, p + 1) {
        Some(m) => m,
        None => return None,
    };
    if !(p + 3 < n && s[p + 3] == '-') {
        return None;
    }
    let day = match two_digits(s, p + 4) {
        Some(d) => d,
        None => return None,
    };
    let days_in_month = month_days_exec(year, month);
    if !(1 <= day && day <= days_in_month) {
        return None;
    }
    let days = days_from_civil_exec(year, month, day);
    Some((days, p + 6))
}

/// `hh:mm:ss[.f+]` at `i`: the seconds of the day (a leap second counts as
/// the 59th), where the fraction's digits start and end, and where what
/// follows starts.
pub open spec fn time_spec(s: Seq<char>, i: int) -> Option<(int, int, int, int)> {
    if two_digits_at(s, i) is Some && i + 2 < s.len() && s[i + 2] == ':' && two_digits_at(s, i + 3) is Some && i
        + 5 < s.len() && s[i + 5] == ':' && two_digits_at(s, i + 6) is Some {
        let h = two_digits_at(s, i)->0;
        let m = two_digits_at(s, i + 3)->0;
        let sec = two_digits_at(s, i + 6)->0;
        if h > 23 || m > 59 || sec > 60 {
            None
        } else {
            let seconds = h * 3600 + m * 60 + if sec > 59 {
                59
            } else {
                sec
            };
            let j = i + 8;
            if j < s.len() && s[j] == '.' {
                let len = digit_run(s, j + 1);
                if len == 0 {
                    None
                } else {
                    Some((seconds, j + 1, j + 1 + len, j + 1 + len))
                }
            } else {
                Some((seconds, j, j, j))
            }
        }
    } else {
        None
    }
}

/// `hh:mm:ss[.f+]` at `i`.
pub fn parse_time(s: &[char], i: usize) -> (r: Option<(i64, usize, usize, usize)>)
    ensures
        match r {
            Some((secs, fs, fe, q)) => time_spec(s@, i as int) == Some((secs as int, fs as int, fe as int, q as int))
                && 0 <= secs < 86400 && fs <= fe == q <= s@.len() && all_digits(s@.subrange(fs as int, fe as int)),
            None => time_spec(s@, i as int) is None,
        },
{
    let n = s.len();
    let h = match two_digits(s, i) {
        Some(h) => h,
        None => return None,
    };
    if !(i + 2 < n && s[i + 2] == ':') {
        return None;
    }
    let m = match two_digits(s, i + 3) {
        Some(m) => m,
        None => return None,
    };
    if !(i + 5 < n && s[i + 5] == ':') {
        return None;
    }
    let sec = match two_digits(s, i + 6) {
        Some(v) => v,
        None => return None,
    };
    if h > 23 || m > 59 || sec > 60 {
        return None;
    }
    let seconds = h * 3600 + m * 60 + if sec > 59 {
        59
    } else {
        sec
    };
    let j = i + 8;
    if j < n && s[j] == '.' {
        let mut k = j + 1;
        while k < n && '0' <= s[k] && s[k] <= '9'
            invariant
                j + 1 <= k <= n == s@.len(),
                digit_run(s@, j + 1) == (k - (j + 1)) + digit_run(s@, k as int),
                forall|t: int| j + 1 <= t < k ==> is_digit(#[trigger] s@[t]),
            decreases n - k,
        {
            k = k + 1;
        }
        if k == j + 1 {
            return None;
        }
        assert forall|t: int| 0 <= t < k - (j + 1) implies is_digit(#[trigger] s@.subrange(j + 1, k as int)[t]) by {
            assert(s@.subrange(j + 1, k as int)[t] == s@[j + 1 + t]);
        }
        Some((seconds, j + 1, k, k))
    } else {
        assert(s@.subrange(j as int, j as int) =~= Seq::<char>::empty());
        Some((seconds, j, j, j))
    }
}

/// After a date or a time at `i`: nothing (no time zone), `Z`, or
/// `±hh:mm` up to 14 hours, as minutes.
pub open spec fn tz_spec(s: Seq<char>, i: int) -> Option<Option<int>> {
    if i >= s.len() {
        Some(None)
    } else if s.len() - i == 1 && s[i] == 'Z' {
        Some(Some(0))
    } else if s[i] == '+' || s[i] == '-' {
        if s.len() - i != 6 || s[i + 3] != ':' {
            None
        } else {
            match (two_digits_at(s, i + 1), two_digits_at(s, i + 4)) {
                (Some(h), Some(m)) => if h > 14 || m > 59 {
                    None
                } else {
                    Some(
                        Some(
                            if s[i] == '+' {
                                h * 60 + m
                            } else {
                                -(h * 60 + m)
                            },
                        ),
                    )
                },
                _ => None,
            }
        }
    } else {
        None
    }
}

/// The time zone that follows at `i`, in minutes.
pub fn parse_tz(s: &[char], i: usize) -> (r: Option<Option<i16>>)
    requires
        i <= s@.len(),
    ensures
        match r {
            Some(Some(v)) => tz_spec(s@, i as int) == Some(Some(v as int)),
            Some(None) => tz_spec(s@, i as int) == Some(None::<int>),
            None => tz_spec(s@, i as int) is None,
        },
{
    let n = s.len();
    if i >= n {
        return Some(None);
    }
    if n - i == 1 && s[i] == 'Z' {
        return Some(Some(0));
    }
    if !(s[i] == '+' || s[i] == '-') {
        return None;
    }
    if n - i != 6 || s[i + 3] != ':' {
        return None;
    }
    let h = match two_digits(s, i + 1) {
        Some(h) => h,
        None => return None,
    };
    let m = match two_digits(s, i + 4) {
        Some(m) => m,
        None => return None,
    };
    if h > 14 || m > 59 {
        return None;
    }
    let minutes = (h * 60 + m) as i16;
    if s[i] == '+' {
        Some(Some(minutes))
    } else {
        Some(Some(-minutes))
    }
}

/// Units per second and the fraction digits a unit keeps.
pub open spec fn unit_scale(unit: TimeUnit) -> (int, nat) {
    match unit {
        TimeUnit::Second => (1, 0),
        TimeUnit::Millisecond => (1000, 3),
        TimeUnit::Microsecond => (1000000, 6),
        TimeUnit::Nanosecond => (1000000000, 9),
    }
}

pub fn units_per_second(unit: TimeUnit) -> (r: (i64, usize))
    ensures
        r.0 as int == unit_scale(unit).0,
        r.1 as nat == unit_scale(unit).1,
{
    match unit {
        TimeUnit::Second => (1, 0),
        TimeUnit::Millisecond => (1000, 3),
        TimeUnit::Microsecond => (1000000, 6),
        TimeUnit::Nanosecond => (1000000000, 9),
    }
}

/// Fraction digits `s[fs..fe]` as a count of units with `digits` fraction
/// digits; `None` where digits beyond them are not zero (the value would
/// lose precision).
pub open spec fn fraction_spec(s: Seq<char>, fs: int, fe: int, digits: nat) -> Option<int> {
    let k = if fe - fs < digits {
        fe - fs
    } else {
        digits as int
    };
    if exists|j: int| fs + k <= j < fe && s[j] != '0' {
        None
    } else {
        Some(digits_value(s.subrange(fs, fs + k)) * pow10((digits - k) as nat))
    }
}

/// The fraction `s[fs..fe]` (digits) in units with `digits` fraction digits.
pub fn fraction_units(s: &[char], fs: usize, fe: usize, unit: TimeUnit) -> (r: Option<i64>)
    requires
        fs <= fe <= s@.len(),
        all_digits(s@.subrange(fs as int, fe as int)),
    ensures
        match r {
            Some(v) => fraction_spec(s@, fs as int, fe as int, unit_scale(unit).1) == Some(v as int) && 0 <= v
                < 1000000000,
            None => fraction_spec(s@, fs as int, fe as int, unit_scale(unit).1) is None,
        },
{
    let (_, digits) = units_per_second(unit);
    let k = if fe - fs < digits {
        fe - fs
    } else {
        digits
    };
    let mut j = fs + k;
    while j < fe
        invariant
            fs + k <= j <= fe <= s@.len(),
            digits as nat == unit_scale(unit).1,
            k == if fe - fs < digits {
                fe - fs
            } else {
                digits as int
            },
            forall|t: int| fs + k <= t < j ==> s@[t] == '0',
        decreases fe - j,
    {
        if s[j] != '0' {
            assert(exists|t: int| fs + k <= t < fe && s@[t] != '0') by {
                assert(fs + k <= j < fe && s@[j as int] != '0');
            }
            return None;
        }
        j = j + 1;
    }
    let ghost kept = s@.subrange(fs as int, fs + k);
    assert(all_digits(kept)) by {
        assert forall|t: int| 0 <= t < kept.len() implies is_digit(#[trigger] kept[t]) by {
            assert(kept[t] == s@.subrange(fs as int, fe as int)[t]);
        }
    }
    proof {
        lemma_digits_below(kept);
        lemma_pow10_grows(k as nat, 9);
        reveal_with_fuel(pow10, 10);
    }
    let v = match digits_u64(s, fs, fs + k) {
        Some(v) => v,
        None => return None,
    };
    assert(v == digits_value(kept));
    assert(pow10(0) == 1);
    let mut value: i64 = v as i64;
    assert(value == digits_value(kept) * pow10(0));
    let mut i = k;
    while i < digits
        invariant
            k <= i <= digits <= 9,
            fs + k <= fe <= s@.len(),
            kept == s@.subrange(fs as int, fs + k),
            0 <= digits_value(kept),
            value == digits_value(kept) * pow10((i - k) as nat),
            0 <= value < pow10(i as nat),
            pow10(9) == 1000000000,
        decreases digits - i,
    {
        proof {
            lemma_pow10_grows((i + 1) as nat, 9);
            let a = digits_value(kept);
            let b = pow10((i - k) as nat);
            assert(pow10((i + 1 - k) as nat) == 10 * b);
            assert(a * (10 * b) == 10 * (a * b)) by (nonlinear_arith);
        }
        value = value * 10;
        i = i + 1;
    }
    proof {
        lemma_pow10_grows(digits as nat, 9);
    }
    Some(value)
}


/// `xs:dateTime` as a count of units since the epoch. A column with a time
/// zone takes only values with one (normalized to UTC); a column without
/// one takes only values without one.
pub open spec fn timestamp_spec(s: Seq<char>, unit: TimeUnit, with_tz: bool) -> Option<int> {
    match date_spec(s) {
        None => None,
        Some((days, p)) => if !(p < s.len() && s[p] == 'T') {
            None
        } else {
            match time_spec(s, p + 1) {
                None => None,
                Some((secs, fs, fe, q)) => match tz_spec(s, q) {
                    None => None,
                    Some(tz) => if (tz is Some) != with_tz {
                        None
                    } else {
                        let offset = match tz {
                            Some(m) => m * 60,
                            None => 0,
                        };
                        let whole = (days * 86400 + secs - offset) * unit_scale(unit).0;
                        if !(i64::MIN <= whole <= i64::MAX) {
                            None
                        } else {
                            match fraction_spec(s, fs, fe, unit_scale(unit).1) {
                                None => None,
                                Some(f) => if whole + f <= i64::MAX {
                                    Some(whole + f)
                                } else {
                                    None
                                },
                            }
                        }
                    },
                },
            }
        },
    }
}

/// `xs:dateTime` as a count of `unit`s since the epoch.
pub fn parse_timestamp(text: &str, unit: TimeUnit, with_tz: bool) -> (r: Option<i64>)
    ensures
        match r {
            Some(v) => timestamp_spec(text@, unit, with_tz) == Some(v as int),
            None => timestamp_spec(text@, unit, with_tz) is None,
        },
{
    let s = chars_of(text);
    let (days, p) = match parse_date(&s) {
        Some(d) => d,
        None => return None,
    };
    if !(p < s.len() && s[p] == 'T') {
        return None;
    }
    let (secs, fs, fe, q) = match parse_time(&s, p + 1) {
        Some(t) => t,
        None => return None,
    };
    let tz = match parse_tz(&s, q) {
        Some(tz) => tz,
        None => return None,
    };
    if tz.is_some() != with_tz {
        return None;
    }
    let offset: i64 = match tz {
        Some(m) => (m as i64) * 60,
        None => 0,
    };
    let (per, _) = units_per_second(unit);
    let base = days * 86400 + secs - offset;
    let whole = match base.checked_mul(per) {
        Some(w) => w,
        None => return None,
    };
    let f = match fraction_units(&s, fs, fe, unit) {
        Some(f) => f,
        None => return None,
    };
    whole.checked_add(f)
}

/// `xs:time` as a count of units since midnight, and its time zone.
pub open spec fn time_of_day_spec(s: Seq<char>, unit: TimeUnit) -> Option<(int, Option<int>)> {
    match time_spec(s, 0) {
        None => None,
        Some((secs, fs, fe, q)) => match tz_spec(s, q) {
            None => None,
            Some(tz) => match fraction_spec(s, fs, fe, unit_scale(unit).1) {
                None => None,
                Some(f) => Some((secs * unit_scale(unit).0 + f, tz)),
            },
        },
    }
}

/// `xs:time` as a count of `unit`s since midnight; the time zone is given
/// back, not applied.
pub fn parse_time_of_day(text: &str, unit: TimeUnit) -> (r: Option<(i64, Option<i16>)>)
    ensures
        match r {
            Some((v, tz)) => time_of_day_spec(text@, unit) == Some(
                (
                    v as int,
                    match tz {
                        Some(m) => Some(m as int),
                        None => None,
                    },
                ),
            ),
            None => time_of_day_spec(text@, unit) is None,
        },
{
    let s = chars_of(text);
    let (secs, fs, fe, q) = match parse_time(&s, 0) {
        Some(t) => t,
        None => return None,
    };
    let tz = match parse_tz(&s, q) {
        Some(tz) => tz,
        None => return None,
    };
    let (per, _) = units_per_second(unit);
    let f = match fraction_units(&s, fs, fe, unit) {
        Some(f) => f,
        None => return None,
    };
    assert(secs * per <= 86400 * 1000000000) by (nonlinear_arith)
        requires
            0 <= secs < 86400,
            1 <= per <= 1000000000,
    ;
    assert(0 <= secs * per) by (nonlinear_arith)
        requires
            0 <= secs,
            1 <= per,
    ;
    Some((secs * per + f, tz))
}

/// An ASCII letter.
pub open spec fn is_ascii_letter(c: char) -> bool {
    ('a' <= c <= 'z') || ('A' <= c <= 'Z')
}

/// A form `xs:double` allows before the number is read: `INF`, `+INF`,
/// `-INF`, `NaN`, or text whose only letters are exponent marks.
pub open spec fn float_text(t: Seq<char>) -> bool {
    t == "INF"@ || t == "+INF"@ || t == "-INF"@ || t == "NaN"@ || !exists|i: int|
        0 <= i < t.len() && is_ascii_letter(#[trigger] t[i]) && t[i] != 'e' && t[i] != 'E'
}

fn is_float_text(text: &str) -> (r: bool)
    ensures
        r == float_text(text@),
{
    let s = chars_of(text);
    if chars_eq(&s, &chars_of("INF")) || chars_eq(&s, &chars_of("+INF")) || chars_eq(&s, &chars_of("-INF"))
        || chars_eq(&s, &chars_of("NaN")) {
        return true;
    }
    let mut i: usize = 0;
    while i < s.len()
        invariant
            i <= s@.len(),
            s@ == text@,
            !(text@ == "INF"@ || text@ == "+INF"@ || text@ == "-INF"@ || text@ == "NaN"@),
            forall|j: int| 0 <= j < i ==> !(is_ascii_letter(#[trigger] s@[j]) && s@[j] != 'e' && s@[j] != 'E'),
        decreases s.len() - i,
    {
        let c = s[i];
        if (('a' <= c && c <= 'z') || ('A' <= c && c <= 'Z')) && c != 'e' && c != 'E' {
            assert(is_ascii_letter(s@[i as int]) && s@[i as int] != 'e' && s@[i as int] != 'E');
            return false;
        }
        i = i + 1;
    }
    true
}

/// A signed result as a scalar.
pub open spec fn int_scalar(r: Option<Scalar>, o: Option<int>) -> bool {
    match o {
        Some(v) => r == Some(Scalar::Int(v as i64)),
        None => r is None,
    }
}

/// An unsigned result as a scalar.
pub open spec fn uint_scalar(r: Option<Scalar>, o: Option<int>) -> bool {
    match o {
        Some(v) => r == Some(Scalar::UInt(v as u64)),
        None => r is None,
    }
}

/// `r` is what the text `t` gives in a column of type `ty`.
pub open spec fn scalar_of(ty: ScalarType, t: Seq<char>, r: Option<Scalar>) -> bool {
    match ty {
        ScalarType::Utf8 | ScalarType::LargeUtf8 | ScalarType::Utf8View | ScalarType::Binary
        | ScalarType::LargeBinary => r matches Some(Scalar::Str(v)) && v@ == t,
        ScalarType::Boolean => r == if t == "true"@ || t == "1"@ {
            Some(Scalar::Bool(true))
        } else if t == "false"@ || t == "0"@ {
            Some(Scalar::Bool(false))
        } else {
            None
        },
        ScalarType::Int8 => int_scalar(r, int_value(t, -128, 127)),
        ScalarType::Int16 => int_scalar(r, int_value(t, -32768, 32767)),
        ScalarType::Int32 => int_scalar(r, int_value(t, -2147483648, 2147483647)),
        ScalarType::Int64 => int_scalar(r, int_value(t, i64::MIN as int, i64::MAX as int)),
        ScalarType::UInt8 => uint_scalar(r, uint_value(t, 255)),
        ScalarType::UInt16 => uint_scalar(r, uint_value(t, 65535)),
        ScalarType::UInt32 => uint_scalar(r, uint_value(t, 4294967295)),
        ScalarType::UInt64 => uint_scalar(r, uint_value(t, u64::MAX as int)),
        ScalarType::Float16 | ScalarType::Float32 | ScalarType::Float64 => if float_text(t) {
            r matches Some(Scalar::Float(v)) && v@ == t
        } else {
            r is None
        },
        ScalarType::Date32 => match date_spec(t) {
            Some((days, p)) => if tz_spec(t, p) is Some && i32::MIN <= days <= i32::MAX {
                r == Some(Scalar::Int32(days as i32))
            } else {
                r is None
            },
            None => r is None,
        },
        ScalarType::Date64 => match date_spec(t) {
            Some((days, p)) => if tz_spec(t, p) is Some && i64::MIN <= days * 86400000 <= i64::MAX {
                r == Some(Scalar::Int((days * 86400000) as i64))
            } else {
                r is None
            },
            None => r is None,
        },
        ScalarType::Timestamp(unit, with_tz) => int_scalar(r, timestamp_spec(t, unit, with_tz)),
        ScalarType::Time32(unit) => match time_of_day_spec(t, unit) {
            Some((v, _)) => if i32::MIN <= v <= i32::MAX {
                r == Some(Scalar::Int32(v as i32))
            } else {
                r is None
            },
            None => r is None,
        },
        ScalarType::Time64(unit) => match time_of_day_spec(t, unit) {
            Some((v, _)) => r == Some(Scalar::Int(v as i64)),
            None => r is None,
        },
        ScalarType::Other => r is None,
    }
}

fn int_result(o: Option<i64>) -> (r: Option<Scalar>)
    ensures
        match o {
            Some(v) => r == Some(Scalar::Int(v)),
            None => r is None,
        },
{
    match o {
        Some(v) => Some(Scalar::Int(v)),
        None => None,
    }
}

fn uint_result(o: Option<u64>) -> (r: Option<Scalar>)
    ensures
        match o {
            Some(v) => r == Some(Scalar::UInt(v)),
            None => r is None,
        },
{
    match o {
        Some(v) => Some(Scalar::UInt(v)),
        None => None,
    }
}

/// Parse `text` (already trimmed) as a value of a column of type `ty`.
pub fn parse_scalar(ty: ScalarType, text: &str) -> (r: Option<Scalar>)
    ensures
        scalar_of(ty, text@, r),
{
    match ty {
        ScalarType::Utf8 | ScalarType::LargeUtf8 | ScalarType::Utf8View | ScalarType::Binary
        | ScalarType::LargeBinary => Some(Scalar::Str(owned(text))),
        ScalarType::Boolean => {
            let s = chars_of(text);
            if chars_eq(&s, &chars_of("true")) || chars_eq(&s, &chars_of("1")) {
                Some(Scalar::Bool(true))
            } else if chars_eq(&s, &chars_of("false")) || chars_eq(&s, &chars_of("0")) {
                Some(Scalar::Bool(false))
            } else {
                None
            }
        },
        ScalarType::Int8 => int_result(int_in(text, -128, 127)),
        ScalarType::Int16 => int_result(int_in(text, -32768, 32767)),
        ScalarType::Int32 => int_result(int_in(text, -2147483648, 2147483647)),
        ScalarType::Int64 => int_result(int_in(text, i64::MIN, i64::MAX)),
        ScalarType::UInt8 => uint_result(uint_in(text, 255)),
        ScalarType::UInt16 => uint_result(uint_in(text, 65535)),
        ScalarType::UInt32 => uint_result(uint_in(text, 4294967295)),
        ScalarType::UInt64 => uint_result(uint_in(text, u64::MAX)),
        ScalarType::Float16 | ScalarType::Float32 | ScalarType::Float64 => if is_float_text(text) {
            Some(Scalar::Float(owned(text)))
        } else {
            None
        },
        ScalarType::Date32 => {
            let s = chars_of(text);
            let (days, p) = match parse_date(&s) {
                Some(d) => d,
                None => return None,
            };
            if parse_tz(&s, p).is_none() {
                return None;
            }
            if days < -2147483648 || days > 2147483647 {
                return None;
            }
            Some(Scalar::Int32(days as i32))
        },
        ScalarType::Date64 => {
            let s = chars_of(text);
            let (days, p) = match parse_date(&s) {
                Some(d) => d,
                None => return None,
            };
            if parse_tz(&s, p).is_none() {
                return None;
            }
            match days.checked_mul(86400000) {
                Some(ms) => Some(Scalar::Int(ms)),
                None => None,
            }
        },
        ScalarType::Timestamp(unit, with_tz) => int_result(parse_timestamp(text, unit, with_tz)),
        ScalarType::Time32(unit) => match parse_time_of_day(text, unit) {
            Some((v, _)) => if v < -2147483648 || v > 2147483647 {
                None
            } else {
                Some(Scalar::Int32(v as i32))
            },
            None => None,
        },
        ScalarType::Time64(unit) => match parse_time_of_day(text, unit) {
            Some((v, _)) => Some(Scalar::Int(v)),
            None => None,
        },
        ScalarType::Other => None,
    }
}

/// A Boolean column takes the `xs:boolean` lexical forms and nothing else:
/// `true` and `1` are true, `false` and `0` are false.
pub proof fn law_boolean_lexical_forms(t: Seq<char>, r: Option<Scalar>)
    requires
        scalar_of(ScalarType::Boolean, t, r),
    ensures
        t == "true"@ || t == "1"@ ==> r == Some(Scalar::Bool(true)),
        t == "false"@ || t == "0"@ ==> r == Some(Scalar::Bool(false)),
        !(t == "true"@ || t == "1"@ || t == "false"@ || t == "0"@) ==> r is None,
{
    reveal_strlit("true");
    reveal_strlit("1");
    reveal_strlit("false");
    reveal_strlit("0");
    assert("true"@ != "false"@ && "true"@ != "0"@ && "1"@ != "false"@ && "1"@ != "0"@) by {
        assert("true"@.len() != "false"@.len() && "true"@.len() != "0"@.len());
        assert("1"@.len() != "false"@.len() && "1"@[0] != "0"@[0]);
    }
}

/// An integer column holds the integers its Rust type holds, exactly: a
/// text that writes such a number (a sign, then digits) gives it, and a
/// number out of the type's range gives nothing.
pub proof fn law_integer_columns_take_their_range(t: Seq<char>, r: Option<Scalar>, v: int)
    requires
        signed_number(without_plus(t)) == Some(v),
    ensures
        scalar_of(ScalarType::Int8, t, r) ==> (r == if i8::MIN <= v <= i8::MAX {
            Some(Scalar::Int(v as i64))
        } else {
            None
        }),
        scalar_of(ScalarType::Int16, t, r) ==> (r == if i16::MIN <= v <= i16::MAX {
            Some(Scalar::Int(v as i64))
        } else {
            None
        }),
        scalar_of(ScalarType::Int32, t, r) ==> (r == if i32::MIN <= v <= i32::MAX {
            Some(Scalar::Int(v as i64))
        } else {
            None
        }),
        scalar_of(ScalarType::Int64, t, r) ==> (r == if i64::MIN <= v <= i64::MAX {
            Some(Scalar::Int(v as i64))
        } else {
            None
        }),
{
}

/// An unsigned column holds the numbers its Rust type holds, exactly.
pub proof fn law_unsigned_columns_take_their_range(t: Seq<char>, r: Option<Scalar>, v: int)
    requires
        unsigned_number(without_plus(t)) == Some(v),
    ensures
        scalar_of(ScalarType::UInt8, t, r) ==> (r == if v <= u8::MAX {
            Some(Scalar::UInt(v as u64))
        } else {
            None
        }),
        scalar_of(ScalarType::UInt16, t, r) ==> (r == if v <= u16::MAX {
            Some(Scalar::UInt(v as u64))
        } else {
            None
        }),
        scalar_of(ScalarType::UInt32, t, r) ==> (r == if v <= u32::MAX {
            Some(Scalar::UInt(v as u64))
        } else {
            None
        }),
        scalar_of(ScalarType::UInt64, t, r) ==> (r == if v <= u64::MAX {
            Some(Scalar::UInt(v as u64))
        } else {
            None
        }),
{
}

} // verus!

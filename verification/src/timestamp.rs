use vstd::prelude::*;
use vstd::string::StrSliceExecFns;

use crate::strutil::lex_gt;
use crate::strutil::str_lex_gt;
use crate::strutil::lemma_lex_gt_asymmetric;

verus! {

// Change-log timestamps are stored as text. Whenever both sides of a
// comparison parse as calendar timestamps of the shape
// `YYYY-MM-DDTHH:MM:SS[.fraction](Z|+HH:MM|-HH:MM)` they are compared
// chronologically; otherwise the comparison falls back to the
// lexicographic order of the raw strings, which agrees with the
// chronological order only for one fixed-width textual format.

/// A parsed calendar timestamp with a UTC offset.
#[derive(Debug, Clone, Copy, PartialEq, Eq, Structural)]
pub struct Timestamp {
    pub year: u32,
    pub month: u32,
    pub day: u32,
    pub hour: u32,
    pub minute: u32,
    pub second: u32,
    /// Fractional part of the second, in nanoseconds.
    pub nanos: u32,
    /// Offset of the local representation from UTC, in minutes.
    pub offset_minutes: i32,
}

pub open spec fn is_digit(c: char) -> bool {
    '0' as u32 <= c as u32 && c as u32 <= '9' as u32
}

pub open spec fn digit_val(c: char) -> int {
    c as u32 - '0' as u32
}

/// Value of the digit at position `i`.
pub open spec fn dv(s: Seq<char>, i: int) -> int {
    digit_val(s[i])
}

/// First position at or after `i` that does not hold a digit.
pub open spec fn digits_end(s: Seq<char>, i: int) -> int
    decreases s.len() - i,
{
    if i < s.len() && is_digit(s[i]) {
        digits_end(s, i + 1)
    } else {
        i
    }
}

/// Numeric value of the digits in positions `[i, e)`.
pub open spec fn digits_val(s: Seq<char>, i: int, e: int) -> int
    decreases e - i,
{
    if e <= i {
        0
    } else {
        digits_val(s, i, e - 1) * 10 + dv(s, e - 1)
    }
}

pub open spec fn pow10(e: nat) -> int
    decreases e,
{
    if e == 0 {
        1
    } else {
        10 * pow10((e - 1) as nat)
    }
}

/// The fixed date-and-time positions `YYYY-MM-DDTHH:MM:SS` of the grammar,
/// with `T`, `t` or a space as the separator.
pub open spec fn date_shape_ok(s: Seq<char>) -> bool {
    &&& s.len() >= 20
    &&& is_digit(s[0]) && is_digit(s[1]) && is_digit(s[2]) && is_digit(s[3])
    &&& s[4] == '-'
    &&& is_digit(s[5]) && is_digit(s[6])
    &&& s[7] == '-'
    &&& is_digit(s[8]) && is_digit(s[9])
    &&& (s[10] == 'T' || s[10] == 't' || s[10] == ' ')
    &&& is_digit(s[11]) && is_digit(s[12])
    &&& s[13] == ':'
    &&& is_digit(s[14]) && is_digit(s[15])
    &&& s[16] == ':'
    &&& is_digit(s[17]) && is_digit(s[18])
}

/// Whether the string carries a fractional-second part after the seconds.
pub open spec fn has_frac(s: Seq<char>) -> bool {
    s.len() > 19 && s[19] == '.'
}

/// Position where the UTC-offset part starts.
pub open spec fn off_start(s: Seq<char>) -> int {
    if has_frac(s) {
        digits_end(s, 20)
    } else {
        19
    }
}

/// A fractional part must hold one to nine digits.
pub open spec fn frac_ok(s: Seq<char>) -> bool {
    has_frac(s) ==> 21 <= digits_end(s, 20) <= 29
}

/// The UTC-offset part starting at `i`: `Z`, `z`, or a signed `HH:MM`
/// with in-range hour and minute, ending the string.
pub open spec fn offset_shape_ok(s: Seq<char>, i: int) -> bool {
    ||| (i == s.len() - 1 && (s[i] == 'Z' || s[i] == 'z'))
    ||| {
        &&& i == s.len() - 6
        &&& (s[i] == '+' || s[i] == '-')
        &&& is_digit(s[i + 1]) && is_digit(s[i + 2])
        &&& s[i + 3] == ':'
        &&& is_digit(s[i + 4]) && is_digit(s[i + 5])
        &&& dv(s, i + 1) * 10 + dv(s, i + 2) <= 23
        &&& dv(s, i + 4) * 10 + dv(s, i + 5) <= 59
    }
}

pub open spec fn shape_ok(s: Seq<char>) -> bool {
    &&& date_shape_ok(s)
    &&& frac_ok(s)
    &&& offset_shape_ok(s, off_start(s))
}

pub open spec fn year_of(s: Seq<char>) -> int {
    dv(s, 0) * 1000 + dv(s, 1) * 100 + dv(s, 2) * 10 + dv(s, 3)
}

pub open spec fn month_of(s: Seq<char>) -> int {
    dv(s, 5) * 10 + dv(s, 6)
}

pub open spec fn day_of(s: Seq<char>) -> int {
    dv(s, 8) * 10 + dv(s, 9)
}

pub open spec fn hour_of(s: Seq<char>) -> int {
    dv(s, 11) * 10 + dv(s, 12)
}

pub open spec fn minute_of(s: Seq<char>) -> int {
    dv(s, 14) * 10 + dv(s, 15)
}

pub open spec fn second_of(s: Seq<char>) -> int {
    dv(s, 17) * 10 + dv(s, 18)
}

/// Nanoseconds encoded by the fractional part: the digits, scaled so that
/// nine digits mean whole nanoseconds.
pub open spec fn nanos_of(s: Seq<char>) -> int {
    if has_frac(s) {
        digits_val(s, 20, digits_end(s, 20)) * pow10((29 - digits_end(s, 20)) as nat)
    } else {
        0
    }
}

/// Signed offset in minutes encoded by the offset part starting at `i`.
pub open spec fn offset_minutes_of(s: Seq<char>, i: int) -> int {
    if s[i] == 'Z' || s[i] == 'z' {
        0
    } else {
        let mag = (dv(s, i + 1) * 10 + dv(s, i + 2)) * 60 + dv(s, i + 4) * 10 + dv(s, i + 5);
        if s[i] == '+' {
            mag
        } else {
            -mag
        }
    }
}

pub open spec fn is_leap_year(y: int) -> bool {
    y % 4 == 0 && (y % 100 != 0 || y % 400 == 0)
}

pub open spec fn days_in_month(y: int, m: int) -> int {
    if m == 2 {
        if is_leap_year(y) {
            29
        } else {
            28
        }
    } else if m == 4 || m == 6 || m == 9 || m == 11 {
        30
    } else {
        31
    }
}

/// Calendar-field validity: in-range month, day, hour, minute and second
/// (a trailing leap second is admitted).
pub open spec fn fields_ok(s: Seq<char>) -> bool {
    &&& 1 <= month_of(s) <= 12
    &&& 1 <= day_of(s) <= days_in_month(year_of(s), month_of(s))
    &&& hour_of(s) <= 23
    &&& minute_of(s) <= 59
    &&& second_of(s) <= 60
}

pub open spec fn stamp_of(s: Seq<char>) -> Timestamp {
    Timestamp {
        year: year_of(s) as u32,
        month: month_of(s) as u32,
        day: day_of(s) as u32,
        hour: hour_of(s) as u32,
        minute: minute_of(s) as u32,
        second: second_of(s) as u32,
        nanos: nanos_of(s) as u32,
        offset_minutes: offset_minutes_of(s, off_start(s)) as i32,
    }
}

/// What parsing a timestamp string yields: the field values when the string
/// matches the grammar and carries a valid calendar date, `None` otherwise.
pub open spec fn parse_spec(s: Seq<char>) -> Option<Timestamp> {
    if shape_ok(s) && fields_ok(s) {
        Some(stamp_of(s))
    } else {
        None
    }
}

impl Timestamp {
    /// Field bounds that every parsed timestamp satisfies.
    pub open spec fn wf(self) -> bool {
        &&& self.year <= 9999
        &&& 1 <= self.month <= 12
        &&& 1 <= self.day <= days_in_month(self.year as int, self.month as int)
        &&& self.hour <= 23
        &&& self.minute <= 59
        &&& self.second <= 60
        &&& self.nanos <= 999_999_999
        &&& -1439 <= self.offset_minutes <= 1439
    }
}

/// Day number of a calendar date, counted from a fixed reference day so
/// that all dates of interest map to non-negative numbers; consecutive
/// dates map to consecutive numbers.
pub open spec fn day_number(y: int, m: int, d: int) -> int {
    let yy = if m <= 2 {
        y + 399
    } else {
        y + 400
    };
    let mm = if m <= 2 {
        m + 9
    } else {
        m - 3
    };
    let era = yy / 400;
    let yoe = yy % 400;
    let doy = (153 * mm + 2) / 5 + d - 1;
    let doe = yoe * 365 + yoe / 4 - yoe / 100 + doy;
    era * 146097 + doe
}

/// Absolute instant of a timestamp, in seconds from the reference day,
/// with the UTC offset applied.
pub open spec fn instant_seconds(t: Timestamp) -> int {
    day_number(t.year as int, t.month as int, t.day as int) * 86400 + t.hour * 3600 + t.minute * 60
        + t.second - t.offset_minutes * 60
}

/// Strict chronological order on parsed timestamps: later instant, with
/// nanoseconds breaking ties.
pub open spec fn stamp_after(a: Timestamp, b: Timestamp) -> bool {
    ||| instant_seconds(a) > instant_seconds(b)
    ||| (instant_seconds(a) == instant_seconds(b) && a.nanos > b.nanos)
}

/// The comparison `is_after` computes: chronological when both sides
/// parse, lexicographic on the raw strings otherwise.
pub open spec fn spec_is_after(a: Seq<char>, b: Seq<char>) -> bool {
    match (parse_spec(a), parse_spec(b)) {
        (Some(x), Some(y)) => stamp_after(x, y),
        _ => lex_gt(a, b),
    }
}

/// Divergence test on logical timestamps: a conflict holds exactly when a
/// last agreed sync point exists and both sides' latest changes are
/// strictly newer than it. Without a sync point there is never a conflict.
pub open spec fn spec_has_conflict(
    last_sync_at: Option<Seq<char>>,
    local_last: Seq<char>,
    remote_last: Seq<char>,
) -> bool {
    match last_sync_at {
        Some(ls) => spec_is_after(local_last, ls) && spec_is_after(remote_last, ls),
        None => false,
    }
}

pub proof fn lemma_digits_end_ge(s: Seq<char>, i: int)
    ensures
        digits_end(s, i) >= i,
    decreases s.len() - i,
{
    if i < s.len() && is_digit(s[i]) {
        lemma_digits_end_ge(s, i + 1);
    }
}

pub proof fn lemma_digits_end_le_len(s: Seq<char>, i: int)
    requires
        i <= s.len(),
    ensures
        digits_end(s, i) <= s.len(),
    decreases s.len() - i,
{
    if i < s.len() && is_digit(s[i]) {
        lemma_digits_end_le_len(s, i + 1);
    }
}

pub proof fn lemma_digits_end_all_digits(s: Seq<char>, i: int, k: int)
    requires
        i <= k < digits_end(s, i),
    ensures
        is_digit(s[k]),
    decreases s.len() - i,
{
    lemma_digits_end_ge(s, i + 1);
    if i < s.len() && is_digit(s[i]) {
        if k > i {
            lemma_digits_end_all_digits(s, i + 1, k);
        }
    }
}

pub proof fn lemma_pow10_pos(e: nat)
    ensures
        pow10(e) >= 1,
    decreases e,
{
    if e > 0 {
        lemma_pow10_pos((e - 1) as nat);
    }
}

pub proof fn lemma_pow10_add(a: nat, b: nat)
    ensures
        pow10(a + b) == pow10(a) * pow10(b),
    decreases a,
{
    if a == 0 {
    } else {
        lemma_pow10_add((a - 1) as nat, b);
        assert(pow10(a + b) == 10 * pow10((a + b - 1) as nat));
        assert(10 * (pow10((a - 1) as nat) * pow10(b)) == (10 * pow10((a - 1) as nat)) * pow10(b))
            by (nonlinear_arith);
    }
}

pub proof fn lemma_pow10_values()
    ensures
        pow10(0) == 1,
        pow10(1) == 10,
        pow10(2) == 100,
        pow10(3) == 1000,
        pow10(4) == 10000,
        pow10(5) == 100000,
        pow10(6) == 1000000,
        pow10(7) == 10000000,
        pow10(8) == 100000000,
        pow10(9) == 1000000000,
{
    assert(pow10(0) == 1);
    assert(pow10(1) == 10);
    assert(pow10(2) == 100);
    assert(pow10(3) == 1000);
    assert(pow10(4) == 10000);
    assert(pow10(5) == 100000);
    assert(pow10(6) == 1000000);
    assert(pow10(7) == 10000000);
    assert(pow10(8) == 100000000);
    assert(pow10(9) == 1000000000);
}

pub proof fn lemma_pow10_le(a: nat, b: nat)
    requires
        a <= b,
    ensures
        pow10(a) <= pow10(b),
{
    lemma_pow10_add(a, (b - a) as nat);
    lemma_pow10_pos(a);
    lemma_pow10_pos((b - a) as nat);
    assert(pow10(a) * pow10((b - a) as nat) >= pow10(a) * 1) by (nonlinear_arith)
        requires
            pow10(a) >= 1,
            pow10((b - a) as nat) >= 1,
    ;
}

/// The digits in `[i, e)` encode a value below `10^(e-i)`.
pub proof fn lemma_digits_val_bound(s: Seq<char>, i: int, e: int)
    requires
        i <= e,
        forall|k: int| i <= k < e ==> #[trigger] is_digit(s[k]),
    ensures
        0 <= digits_val(s, i, e) < pow10((e - i) as nat),
    decreases e - i,
{
    if e <= i {
    } else {
        lemma_digits_val_bound(s, i, e - 1);
        assert(pow10((e - i) as nat) == 10 * pow10((e - 1 - i) as nat));
        assert(is_digit(s[e - 1]));
        assert(0 <= dv(s, e - 1) <= 9);
    }
}

/// Exactly one digit, read as its value.
fn digit_at(s: &str, i: usize) -> (r: Option<u32>)
    requires
        i < s@.len(),
    ensures
        match r {
            Some(v) => is_digit(s@[i as int]) && v == dv(s@, i as int) && v <= 9,
            None => !is_digit(s@[i as int]),
        },
{
    let c = s.get_char(i) as u32;
    if 48 <= c && c <= 57 {
        Some(c - 48)
    } else {
        None
    }
}

/// Two adjacent digits, read as a two-digit value.
pub(crate) fn two_digits_at(s: &str, i: usize) -> (r: Option<u32>)
    requires
        i + 2 <= s@.len(),
        s@.len() <= usize::MAX,
    ensures
        match r {
            Some(v) => {
                &&& is_digit(s@[i as int])
                &&& is_digit(s@[i as int + 1])
                &&& v == dv(s@, i as int) * 10 + dv(s@, i as int + 1)
                &&& v <= 99
            },
            None => !(is_digit(s@[i as int]) && is_digit(s@[i as int + 1])),
        },
{
    match (digit_at(s, i), digit_at(s, i + 1)) {
        (Some(a), Some(b)) => Some(a * 10 + b),
        _ => None,
    }
}

/// First position at or after `start` without a digit, as `digits_end`.
fn scan_digits(s: &str, start: usize) -> (e: usize)
    requires
        start <= s@.len(),
    ensures
        e == digits_end(s@, start as int),
        start <= e <= s@.len(),
{
    let n = s.unicode_len();
    let mut j: usize = start;
    while j < n
        invariant
            start <= j <= n,
            n == s@.len(),
            digits_end(s@, start as int) == digits_end(s@, j as int),
        decreases n - j,
    {
        let c = s.get_char(j) as u32;
        if !(48 <= c && c <= 57) {
            assert(digits_end(s@, j as int) == j);
            return j;
        }
        assert(digits_end(s@, j as int) == digits_end(s@, j as int + 1));
        j = j + 1;
    }
    assert(digits_end(s@, j as int) == j);
    j
}

/// Powers of ten up to `10^9`.
fn pow10_u32(e: u32) -> (r: u32)
    requires
        e <= 9,
    ensures
        r == pow10(e as nat),
{
    proof {
        lemma_pow10_values();
    }
    if e == 0 {
        1
    } else if e == 1 {
        10
    } else if e == 2 {
        100
    } else if e == 3 {
        1000
    } else if e == 4 {
        10000
    } else if e == 5 {
        100000
    } else if e == 6 {
        1000000
    } else if e == 7 {
        10000000
    } else if e == 8 {
        100000000
    } else {
        1000000000
    }
}

fn is_leap_year_exec(y: u32) -> (r: bool)
    ensures
        r == is_leap_year(y as int),
{
    y % 4 == 0 && (y % 100 != 0 || y % 400 == 0)
}

/// Number of days of a month, honouring leap years.
pub fn days_in_month_exec(y: u32, m: u32) -> (r: u32)
    ensures
        r == days_in_month(y as int, m as int),
{
    if m == 2 {
        if is_leap_year_exec(y) {
            29
        } else {
            28
        }
    } else if m == 4 || m == 6 || m == 9 || m == 11 {
        30
    } else {
        31
    }
}

/// Parse a textual timestamp of the shape
/// `YYYY-MM-DDTHH:MM:SS[.fraction](Z|+HH:MM|-HH:MM)`.
pub fn parse_rfc3339(value: &str) -> (r: Option<Timestamp>)
    ensures
        r == parse_spec(value@),
        r matches Some(t) ==> t.wf(),
{
    let n = value.unicode_len();
    if n < 20 {
        return None;
    }
    let year = match two_digits_at(value, 0) {
        Some(hi) => match two_digits_at(value, 2) {
            Some(lo) => hi * 100 + lo,
            None => { return None; },
        },
        None => { return None; },
    };
    if value.get_char(4) != '-' {
        return None;
    }
    let month = match two_digits_at(value, 5) {
        Some(v) => v,
        None => { return None; },
    };
    if value.get_char(7) != '-' {
        return None;
    }
    let day = match two_digits_at(value, 8) {
        Some(v) => v,
        None => { return None; },
    };
    let sep = value.get_char(10);
    if !(sep == 'T' || sep == 't' || sep == ' ') {
        return None;
    }
    let hour = match two_digits_at(value, 11) {
        Some(v) => v,
        None => { return None; },
    };
    if value.get_char(13) != ':' {
        return None;
    }
    let minute = match two_digits_at(value, 14) {
        Some(v) => v,
        None => { return None; },
    };
    if value.get_char(16) != ':' {
        return None;
    }
    let second = match two_digits_at(value, 17) {
        Some(v) => v,
        None => { return None; },
    };

    let mut nanos: u32 = 0;
    let mut off_i: usize = 19;
    if value.get_char(19) == '.' {
        let e = scan_digits(value, 20);
        if e < 21 || e > 29 {
            return None;
        }
        proof {
            assert forall|k: int| 20 <= k < e implies #[trigger] is_digit(value@[k]) by {
                lemma_digits_end_all_digits(value@, 20, k);
            }
        }
        let mut val: u32 = 0;
        let mut j: usize = 20;
        while j < e
            invariant
                20 <= j <= e <= 29,
                e <= value@.len(),
                val == digits_val(value@, 20, j as int),
                forall|k: int| 20 <= k < e ==> #[trigger] is_digit(value@[k]),
                0 <= val < pow10((j - 20) as nat),
            decreases e - j,
        {
            let d = match digit_at(value, j) {
                Some(d) => d,
                None => {
                    proof {
                        assert(false);
                    }
                    0
                },
            };
            proof {
                lemma_pow10_values();
                lemma_pow10_le((j - 20) as nat, 8);
                assert(val <= 99999999);
                assert(pow10((j + 1 - 20) as nat) == 10 * pow10((j - 20) as nat));
            }
            val = val * 10 + d;
            j = j + 1;
        }
        let scale = pow10_u32(9 - (e as u32 - 20));
        proof {
            lemma_pow10_values();
            lemma_pow10_add((e - 20) as nat, (29 - e) as nat);
            lemma_pow10_pos((29 - e) as nat);
            assert(0 <= val * pow10((29 - e) as nat) < pow10((e - 20) as nat) * pow10(
                (29 - e) as nat,
            )) by (nonlinear_arith)
                requires
                    0 <= val < pow10((e - 20) as nat),
                    pow10((29 - e) as nat) >= 1,
            ;
        }
        nanos = val * scale;
        off_i = e;
    }

    // The offset part must end the string.
    if off_i >= n {
        return None;
    }
    let oc = value.get_char(off_i);
    let offset_minutes: i32;
    if oc == 'Z' || oc == 'z' {
        if off_i != n - 1 {
            return None;
        }
        offset_minutes = 0;
    } else if oc == '+' || oc == '-' {
        if off_i + 6 != n {
            return None;
        }
        let oh = match two_digits_at(value, off_i + 1) {
            Some(v) => v,
            None => { return None; },
        };
        if value.get_char(off_i + 3) != ':' {
            return None;
        }
        let om = match two_digits_at(value, off_i + 4) {
            Some(v) => v,
            None => { return None; },
        };
        if oh > 23 || om > 59 {
            return None;
        }
        let mag = (oh * 60 + om) as i32;
        offset_minutes = if oc == '+' {
            mag
        } else {
            -mag
        };
    } else {
        return None;
    }

    if month < 1 || month > 12 {
        return None;
    }
    if day < 1 || day > days_in_month_exec(year, month) {
        return None;
    }
    if hour > 23 || minute > 59 || second > 60 {
        return None;
    }

    let t = Timestamp { year, month, day, hour, minute, second, nanos, offset_minutes };
    proof {
        assert(shape_ok(value@));
        assert(fields_ok(value@));
        assert(t == stamp_of(value@));
    }
    Some(t)
}

/// Absolute instant of a well-formed timestamp, in seconds.
fn instant_seconds_exec(t: &Timestamp) -> (r: i64)
    requires
        t.wf(),
    ensures
        r == instant_seconds(*t),
{
    let yy: u64 = if t.month <= 2 {
        t.year as u64 + 399
    } else {
        t.year as u64 + 400
    };
    let mm: u64 = if t.month <= 2 {
        t.month as u64 + 9
    } else {
        t.month as u64 - 3
    };
    let era: u64 = yy / 400;
    let yoe: u64 = yy % 400;
    let doy: u64 = (153 * mm + 2) / 5 + t.day as u64 - 1;
    let doe: u64 = yoe * 365 + yoe / 4 - yoe / 100 + doy;
    let days: u64 = era * 146097 + doe;
    let local: u64 = days * 86400 + t.hour as u64 * 3600 + t.minute as u64 * 60 + t.second as u64;
    local as i64 - t.offset_minutes as i64 * 60
}

impl Timestamp {
    /// Strict chronological comparison of two parsed timestamps.
    pub fn after(&self, other: &Timestamp) -> (r: bool)
        requires
            self.wf(),
            other.wf(),
        ensures
            r == stamp_after(*self, *other),
    {
        let a = instant_seconds_exec(self);
        let b = instant_seconds_exec(other);
        a > b || (a == b && self.nanos > other.nanos)
    }
}

/// Whether `lhs` denotes a strictly later change than `rhs`: chronological
/// when both parse as calendar timestamps, lexicographic otherwise.
pub fn is_after(lhs: &str, rhs: &str) -> (r: bool)
    ensures
        r == spec_is_after(lhs@, rhs@),
{
    match (parse_rfc3339(lhs), parse_rfc3339(rhs)) {
        (Some(a), Some(b)) => a.after(&b),
        _ => str_lex_gt(lhs, rhs),
    }
}

/// Whether both devices changed independently since their last agreed
/// sync point. Without such a point no conflict is ever raised.
pub fn has_conflict(last_sync_at: Option<&str>, local_last: &str, remote_last: &str) -> (r: bool)
    ensures
        r == spec_has_conflict(
            match last_sync_at {
                Some(s) => Some(s@),
                None => None,
            },
            local_last@,
            remote_last@,
        ),
{
    match last_sync_at {
        Some(ls) => is_after(local_last, ls) && is_after(remote_last, ls),
        None => false,
    }
}

/// `is_after` is a strict order: for distinct strings, at most one
/// direction holds, and exactly one unless both sides parse to the very
/// same instant (as two representations with different offsets can).
pub proof fn lemma_is_after_asymmetric(a: Seq<char>, b: Seq<char>)
    requires
        a != b,
        (parse_spec(a) is Some && parse_spec(b) is Some) ==> !(instant_seconds(
            parse_spec(a).unwrap(),
        ) == instant_seconds(parse_spec(b).unwrap()) && parse_spec(a).unwrap().nanos == parse_spec(
            b,
        ).unwrap().nanos),
    ensures
        spec_is_after(a, b) == !spec_is_after(b, a),
{
    if parse_spec(a) is Some && parse_spec(b) is Some {
    } else {
        lemma_lex_gt_asymmetric(a, b);
    }
}

/// A string never denotes a change strictly later than itself.
pub proof fn lemma_is_after_irreflexive(a: Seq<char>)
    ensures
        !spec_is_after(a, a),
{
    crate::strutil::lemma_lex_gt_irrefl(a);
}

} // verus!

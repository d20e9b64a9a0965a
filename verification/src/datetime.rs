//! Calendar arithmetic on plain `(year, month, day)` integers, the "N days
//! ago" wording shared by the calendar and Team Stats pages, and the week
//! labels of the trend chart.
use vstd::prelude::*;
use crate::text::{
    chars_of, contains_seq, matches_at, decimal, ends_with, find, find_chars_from, parse_i32, parse_i32_chars,
    push_char, push_decimal, push_str, replace_all, replace_chars, slice_range, string_of,
};
use crate::text::{all_digits, digit_char, digits_value, find_from, is_digit, lemma_find_from, parse_int};

verus! {

broadcast use vstd::string::group_string_axioms;

/// Integer division rounding toward zero, as Rust's `/` on signed integers.
pub open spec fn tdiv(a: int, d: int) -> int {
    if a >= 0 {
        a / d
    } else {
        -((-a) / d)
    }
}

pub open spec fn fits_i32(v: int) -> bool {
    i32::MIN <= v <= i32::MAX
}

// ---------------------------------------------------------------------------
// add_months
// ---------------------------------------------------------------------------

/// Month index counted from year 0: `year * 12 + (month - 1) + delta`.
pub open spec fn month_index(year: int, month: int, delta: int) -> int {
    year * 12 + month - 1 + delta
}

/// The `(year, month)` that lies `delta` months after `(year, month)`,
/// month normalised into `1..=12`.
pub open spec fn add_months_spec(year: int, month: int, delta: int) -> (int, int) {
    let total = month_index(year, month, delta);
    (total / 12, total % 12 + 1)
}

/// No step of `add_months` leaves the `i32` range.
pub open spec fn add_months_fits(year: int, month: int, delta: int) -> bool {
    &&& fits_i32(year * 12)
    &&& fits_i32(year * 12 + month)
    &&& fits_i32(year * 12 + month - 1)
    &&& fits_i32(year * 12 + month - 1 + delta)
}

pub fn add_months(year: i32, month: i32, delta: i32) -> (r: (i32, i32))
    requires
        add_months_fits(year as int, month as int, delta as int),
    ensures
        (r.0 as int, r.1 as int) == add_months_spec(year as int, month as int, delta as int),
        1 <= r.1 <= 12,
{
    let total = (year * 12 + month - 1) + delta;
    let q = total.checked_div_euclid(12).unwrap();
    let mut r = total % 12;
    if r < 0 {
        r = r + 12;
    }
    assert(r == (total as int) % 12) by {
        assert(total as int == (total as int / 12) * 12 + (total as int % 12));
    }
    (q, r + 1)
}

/// Stepping `delta` months forward and then `delta` months back returns to
/// the starting month.
pub proof fn lemma_add_months_inverse(year: int, month: int, delta: int)
    requires
        1 <= month <= 12,
    ensures
        add_months_spec(
            add_months_spec(year, month, delta).0,
            add_months_spec(year, month, delta).1,
            -delta,
        ) == (year, month),
{
    let total = month_index(year, month, delta);
    let (y2, m2) = add_months_spec(year, month, delta);
    assert(y2 * 12 + m2 - 1 == total);
    assert(month_index(y2, m2, -delta) == year * 12 + month - 1);
    assert((year * 12 + month - 1) / 12 == year);
    assert((year * 12 + month - 1) % 12 == month - 1);
}

/// Stepping `a` months and then `b` months equals stepping `a + b` months
/// at once.
pub proof fn lemma_add_months_compose(year: int, month: int, a: int, b: int)
    requires
        1 <= month <= 12,
    ensures
        add_months_spec(
            add_months_spec(year, month, a).0,
            add_months_spec(year, month, a).1,
            b,
        ) == add_months_spec(year, month, a + b),
{
    let (y2, m2) = add_months_spec(year, month, a);
    assert(y2 * 12 + m2 - 1 == month_index(year, month, a));
}

// ---------------------------------------------------------------------------
// days_in_month
// ---------------------------------------------------------------------------

/// Gregorian leap year.
pub open spec fn is_leap(year: int) -> bool {
    (year % 4 == 0 && year % 100 != 0) || year % 400 == 0
}

pub open spec fn days_in_month_spec(year: int, month: int) -> int {
    if month == 1 || month == 3 || month == 5 || month == 7 || month == 8 || month == 10 || month
        == 12 {
        31
    } else if month == 4 || month == 6 || month == 9 || month == 11 {
        30
    } else if month == 2 && is_leap(year) {
        29
    } else {
        28
    }
}

#[verifier::spinoff_prover]
#[verifier::rlimit(30)]
pub fn days_in_month(year: i32, month: i32) -> (r: i32)
    ensures
        r == days_in_month_spec(year as int, month as int),
        28 <= r <= 31,
{
    match month {
        1 | 3 | 5 | 7 | 8 | 10 | 12 => 31,
        4 | 6 | 9 | 11 => 30,
        2 if (year % 4 == 0 && year % 100 != 0) || year % 400 == 0 => 29,
        _ => 28,
    }
}


// ---------------------------------------------------------------------------
// day_of_week (Tomohiko Sakamoto)
// ---------------------------------------------------------------------------

/// Sakamoto's month offsets `[0, 3, 2, 5, 0, 3, 5, 1, 4, 6, 2, 4]`.
pub open spec fn dow_offset(month: int) -> int {
    if month == 1 { 0 }
    else if month == 2 { 3 }
    else if month == 3 { 2 }
    else if month == 4 { 5 }
    else if month == 5 { 0 }
    else if month == 6 { 3 }
    else if month == 7 { 5 }
    else if month == 8 { 1 }
    else if month == 9 { 4 }
    else if month == 10 { 6 }
    else if month == 11 { 2 }
    else { 4 }
}

/// The year Sakamoto's method counts from: January and February belong to
/// the previous year.
pub open spec fn dow_year(year: int, month: int) -> int {
    if month < 3 { year - 1 } else { year }
}

/// The running sum before the final `rem_euclid(7)`.
pub open spec fn dow_sum(year: int, month: int, day: int) -> int {
    let y = dow_year(year, month);
    y + tdiv(y, 4) - tdiv(y, 100) + tdiv(y, 400) + dow_offset(month) + day
}

/// Day of the week, `0` = Sunday … `6` = Saturday.
pub open spec fn day_of_week_spec(year: int, month: int, day: int) -> int {
    dow_sum(year, month, day) % 7
}

/// No step of `day_of_week` leaves the `i32` range.
pub open spec fn day_of_week_fits(year: int, month: int, day: int) -> bool {
    let y = dow_year(year, month);
    &&& fits_i32(y)
    &&& fits_i32(y + tdiv(y, 4))
    &&& fits_i32(y + tdiv(y, 4) - tdiv(y, 100))
    &&& fits_i32(y + tdiv(y, 4) - tdiv(y, 100) + tdiv(y, 400))
    &&& fits_i32(y + tdiv(y, 4) - tdiv(y, 100) + tdiv(y, 400) + dow_offset(month))
    &&& fits_i32(dow_sum(year, month, day))
}

fn dow_offset_exec(month: i32) -> (r: i32)
    requires
        1 <= month <= 12,
    ensures
        r == dow_offset(month as int),
{
    let t = [0i32, 3, 2, 5, 0, 3, 5, 1, 4, 6, 2, 4];
    let r = t[(month - 1) as usize];
    assert(r == dow_offset(month as int)) by {
        assert(t@ == seq![0i32, 3, 2, 5, 0, 3, 5, 1, 4, 6, 2, 4]);
    }
    r
}

/// Tomohiko Sakamoto: 0=Sun … 6=Sat
pub fn day_of_week(year: i32, month: i32, day: i32) -> (r: i32)
    requires
        1 <= month <= 12,
        day_of_week_fits(year as int, month as int, day as int),
    ensures
        r == day_of_week_spec(year as int, month as int, day as int),
        0 <= r < 7,
{
    let y = if month < 3 { year - 1 } else { year };
    let total = y + y / 4 - y / 100 + y / 400 + dow_offset_exec(month) + day;
    let mut r = total % 7;
    if r < 0 {
        r = r + 7;
    }
    assert(r == (total as int) % 7) by {
        assert(total as int == (total as int / 7) * 7 + (total as int % 7));
    }
    r
}

// ---------------------------------------------------------------------------
// Julian Day Number
// ---------------------------------------------------------------------------

pub open spec fn jdn_a(m: int) -> int {
    tdiv(14 - m, 12)
}

pub open spec fn jdn_y2(y: int, m: int) -> int {
    y + 4800 - jdn_a(m)
}

pub open spec fn jdn_m2(m: int) -> int {
    m + 12 * jdn_a(m) - 3
}

/// Julian Day Number of a Gregorian date, with Rust's truncating division.
pub open spec fn jdn_spec(y: int, m: int, d: int) -> int {
    let y2 = jdn_y2(y, m);
    let m2 = jdn_m2(m);
    d + tdiv(153 * m2 + 2, 5) + 365 * y2 + tdiv(y2, 4) - tdiv(y2, 100) + tdiv(y2, 400) - 32045
}

/// No step of `jdn` leaves the `i32` range.
pub open spec fn jdn_fits(y: int, m: int, d: int) -> bool {
    let a = jdn_a(m);
    let y2 = jdn_y2(y, m);
    let m2 = jdn_m2(m);
    let c = tdiv(153 * m2 + 2, 5);
    &&& fits_i32(14 - m)
    &&& fits_i32(y + 4800)
    &&& fits_i32(y2)
    &&& fits_i32(12 * a)
    &&& fits_i32(m + 12 * a)
    &&& fits_i32(m2)
    &&& fits_i32(153 * m2)
    &&& fits_i32(153 * m2 + 2)
    &&& fits_i32(d + c)
    &&& fits_i32(365 * y2)
    &&& fits_i32(d + c + 365 * y2)
    &&& fits_i32(d + c + 365 * y2 + tdiv(y2, 4))
    &&& fits_i32(d + c + 365 * y2 + tdiv(y2, 4) - tdiv(y2, 100))
    &&& fits_i32(d + c + 365 * y2 + tdiv(y2, 4) - tdiv(y2, 100) + tdiv(y2, 400))
    &&& fits_i32(jdn_spec(y, m, d))
}

/// Julian Day Number — exact integer day arithmetic, no external crate needed.
pub fn jdn(y: i32, m: i32, d: i32) -> (r: i32)
    requires
        jdn_fits(y as int, m as int, d as int),
    ensures
        r == jdn_spec(y as int, m as int, d as int),
{
    let a = (14 - m) / 12;
    let y2 = y + 4800 - a;
    let m2 = m + 12 * a - 3;
    d + (153 * m2 + 2) / 5 + 365 * y2 + y2 / 4 - y2 / 100 + y2 / 400 - 32045
}

/// A month has as many days as the day numbers of its first day and of the
/// first day of the next month are apart, for every year from -4799 on
/// (below it the counting year `y + 4800` turns negative and the truncating
/// divisions round the other way).
pub proof fn lemma_days_in_month_matches_jdn(year: int, month: int)
    requires
        1 <= month <= 12,
        year >= -4799,
    ensures
        ({
            let (ny, nm) = add_months_spec(year, month, 1);
            jdn_spec(ny, nm, 1) - jdn_spec(year, month, 1) == days_in_month_spec(year, month)
        }),
{
    let total = month_index(year, month, 1);
    if month < 12 {
        assert(total / 12 == year && total % 12 + 1 == month + 1);
    } else {
        assert(total / 12 == year + 1 && total % 12 + 1 == 1);
    }
    assert(jdn_a(month) == if month < 3 { 1int } else { 0int });
    if month == 2 {
        let yy = year + 4799;
        assert(tdiv(yy, 4) == yy / 4 && tdiv(yy + 1, 4) == (yy + 1) / 4);
        assert(tdiv(yy, 100) == yy / 100 && tdiv(yy + 1, 100) == (yy + 1) / 100);
        assert(tdiv(yy, 400) == yy / 400 && tdiv(yy + 1, 400) == (yy + 1) / 400);
        assert((yy + 1) / 4 - yy / 4 == if year % 4 == 0 { 1int } else { 0int });
        assert((yy + 1) / 100 - yy / 100 == if year % 100 == 0 { 1int } else { 0int });
        assert((yy + 1) / 400 - yy / 400 == if year % 400 == 0 { 1int } else { 0int });
    }
}

/// Day numbers count days: the day after a valid date (the next day of the
/// month, or the first of the next month after its last day) has the next
/// day number, for every year from -4799 on.
pub proof fn lemma_jdn_next_day(year: int, month: int, day: int)
    requires
        1 <= month <= 12,
        year >= -4799,
        1 <= day <= days_in_month_spec(year, month),
    ensures
        day < days_in_month_spec(year, month) ==> jdn_spec(year, month, day + 1) == jdn_spec(
            year,
            month,
            day,
        ) + 1,
        day == days_in_month_spec(year, month) ==> ({
            let (ny, nm) = add_months_spec(year, month, 1);
            jdn_spec(ny, nm, 1) == jdn_spec(year, month, day) + 1
        }),
{
    lemma_days_in_month_matches_jdn(year, month);
}

/// The two day counts agree: Sakamoto's weekday is the Julian Day Number
/// shifted so that Sunday is `0`, for every date whose counting year
/// (`year - 1` in January and February) is not negative.
pub proof fn lemma_day_of_week_matches_jdn(year: int, month: int, day: int)
    requires
        1 <= month <= 12,
        dow_year(year, month) >= 0,
    ensures
        day_of_week_spec(year, month, day) == (jdn_spec(year, month, day) + 1) % 7,
{
    let yy = dow_year(year, month);
    let y2 = jdn_y2(year, month);
    assert(jdn_a(month) == if month < 3 { 1int } else { 0int });
    assert(y2 == yy + 4800);
    assert(tdiv(y2, 4) == tdiv(yy, 4) + 1200);
    assert(tdiv(y2, 100) == tdiv(yy, 100) + 48);
    assert(tdiv(y2, 400) == tdiv(yy, 400) + 12);
    let c = tdiv(153 * jdn_m2(month) + 2, 5);
    let k: int = if month == 1 { 245918 }
        else if month == 2 { 245922 }
        else if month == 3 { 245874 }
        else if month == 4 { 245878 }
        else if month == 5 { 245883 }
        else if month == 6 { 245887 }
        else if month == 7 { 245891 }
        else if month == 8 { 245896 }
        else if month == 9 { 245900 }
        else if month == 10 { 245904 }
        else if month == 11 { 245909 }
        else { 245913 };
    assert(c + 365 * 4800 + 1200 - 48 + 12 - 32045 + 1 - dow_offset(month) == 7 * k);
    assert(jdn_spec(year, month, day) + 1 == dow_sum(year, month, day) + 7 * (52 * yy + k));
}


// ---------------------------------------------------------------------------
// Month names
// ---------------------------------------------------------------------------

pub open spec fn full_month_name_spec(month: int) -> Seq<char> {
    if month == 1 { "January"@ }
    else if month == 2 { "February"@ }
    else if month == 3 { "March"@ }
    else if month == 4 { "April"@ }
    else if month == 5 { "May"@ }
    else if month == 6 { "June"@ }
    else if month == 7 { "July"@ }
    else if month == 8 { "August"@ }
    else if month == 9 { "September"@ }
    else if month == 10 { "October"@ }
    else if month == 11 { "November"@ }
    else { "December"@ }
}

pub open spec fn short_month_name_spec(month: int) -> Seq<char> {
    if month == 1 { "Jan"@ }
    else if month == 2 { "Feb"@ }
    else if month == 3 { "Mar"@ }
    else if month == 4 { "Apr"@ }
    else if month == 5 { "May"@ }
    else if month == 6 { "Jun"@ }
    else if month == 7 { "Jul"@ }
    else if month == 8 { "Aug"@ }
    else if month == 9 { "Sep"@ }
    else if month == 10 { "Oct"@ }
    else if month == 11 { "Nov"@ }
    else { "Dec"@ }
}

pub fn full_month_name(month: i32) -> (r: &'static str)
    requires
        1 <= month <= 12,
    ensures
        r@ == full_month_name_spec(month as int),
{
    let names = [
        "January", "February", "March", "April", "May", "June", "July", "August", "September",
        "October", "November", "December",
    ];
    assert(names@ == seq![
        "January", "February", "March", "April", "May", "June", "July", "August", "September",
        "October", "November", "December",
    ]);
    names[(month - 1) as usize]
}

pub fn short_month_name(month: i32) -> (r: &'static str)
    requires
        1 <= month <= 12,
    ensures
        r@ == short_month_name_spec(month as int),
{
    let names = ["Jan", "Feb", "Mar", "Apr", "May", "Jun", "Jul", "Aug", "Sep", "Oct", "Nov", "Dec"];
    assert(names@ == seq![
        "Jan", "Feb", "Mar", "Apr", "May", "Jun", "Jul", "Aug", "Sep", "Oct", "Nov", "Dec",
    ]);
    names[(month - 1) as usize]
}

// ---------------------------------------------------------------------------
// parse_date
// ---------------------------------------------------------------------------

/// Bytes that the UTF-8 encoding of `c` takes.
pub open spec fn utf8_width(c: char) -> int {
    let u = c as u32;
    if u < 0x80 {
        1
    } else if u < 0x800 {
        2
    } else if u < 0x10000 {
        3
    } else {
        4
    }
}

/// Number of leading characters of `s` whose UTF-8 encoding is exactly `n`
/// bytes long, if such a prefix exists.
pub open spec fn byte_prefix_len(s: Seq<char>, n: int) -> Option<int>
    decreases s.len(),
{
    if n == 0 {
        Some(0)
    } else if n < 0 || s.len() == 0 {
        None
    } else {
        match byte_prefix_len(s.drop_first(), n - utf8_width(s[0])) {
            Some(k) => Some(k + 1),
            None => None,
        }
    }
}

/// `s.get(..10).unwrap_or(s)`: the first ten bytes when they end on a
/// character boundary, otherwise the whole string.
pub open spec fn date_head(s: Seq<char>) -> Seq<char> {
    match byte_prefix_len(s, 10) {
        Some(k) => s.take(k),
        None => s,
    }
}

/// `splitn(3, '-')` when it yields three pieces.
pub open spec fn split3_dash(h: Seq<char>) -> Option<(Seq<char>, Seq<char>, Seq<char>)> {
    match find(h, seq!['-']) {
        None => None,
        Some(i) => {
            let rest = h.subrange(i + 1, h.len() as int);
            match find(rest, seq!['-']) {
                None => None,
                Some(j) => Some((h.take(i), rest.take(j), rest.subrange(j + 1, rest.len() as int))),
            }
        },
    }
}

/// Three `i32` fields separated by the first two `-` of `h`.
pub open spec fn parse_ymd_spec(h: Seq<char>) -> Option<(i32, i32, i32)> {
    match split3_dash(h) {
        None => None,
        Some((a, b, c)) => match (parse_i32(a), parse_i32(b), parse_i32(c)) {
            (Some(y), Some(m), Some(d)) => Some((y, m, d)),
            _ => None,
        },
    }
}

/// Parses a leading `YYYY-MM-DD`, ignoring any time suffix.
pub open spec fn parse_date_spec(s: Seq<char>) -> Option<(i32, i32, i32)> {
    parse_ymd_spec(date_head(s))
}

fn utf8_width_exec(c: char) -> (w: usize)
    ensures
        w == utf8_width(c),
{
    let u = c as u32;
    if u < 0x80 {
        1
    } else if u < 0x800 {
        2
    } else if u < 0x10000 {
        3
    } else {
        4
    }
}

fn date_head_len(cs: &[char]) -> (k: usize)
    ensures
        k <= cs@.len(),
        cs@.take(k as int) == date_head(cs@),
{
    let mut i: usize = 0;
    let mut bytes: usize = 0;
    assert(cs@.skip(0) == cs@);
    while i < cs.len() && bytes < 10
        invariant
            i <= cs@.len(),
            bytes <= 13,
            byte_prefix_len(cs@, 10) == match byte_prefix_len(cs@.skip(i as int), 10 - bytes) {
                Some(k) => Some(k + i),
                None => None,
            },
        decreases cs@.len() - i,
    {
        let w = utf8_width_exec(cs[i]);
        assert(cs@.skip(i as int).drop_first() == cs@.skip(i + 1));
        assert(cs@.skip(i as int)[0] == cs@[i as int]);
        bytes = bytes + w;
        i = i + 1;
    }
    if bytes == 10 {
        i
    } else {
        assert(cs@.take(cs@.len() as int) == cs@);
        cs.len()
    }
}

/// The three `-`-separated fields of `h`, each parsed as an `i32`.
pub fn parse_ymd(h: &[char]) -> (r: Option<(i32, i32, i32)>)
    ensures
        r == parse_ymd_spec(h@),
{
    let dash = ['-'];
    assert(dash@ == seq!['-']);
    let i = match find_chars_from(h, &dash, 0) {
        None => return None,
        Some(i) => i,
    };
    proof {
        crate::text::lemma_find_from(h@, seq!['-'], 0);
    }
    assert(h@.len() == h.len());
    let rest = slice_range(h, i + 1, h.len());
    let j = match find_chars_from(rest.as_slice(), &dash, 0) {
        None => return None,
        Some(j) => j,
    };
    proof {
        crate::text::lemma_find_from(rest@, seq!['-'], 0);
    }
    let a = slice_range(h, 0, i);
    let b = slice_range(rest.as_slice(), 0, j);
    let c = slice_range(rest.as_slice(), j + 1, rest.len());
    let y = parse_i32_chars(a.as_slice());
    let m = parse_i32_chars(b.as_slice());
    let d = parse_i32_chars(c.as_slice());
    match (y, m, d) {
        (Some(y), Some(m), Some(d)) => Some((y, m, d)),
        _ => None,
    }
}

/// Parses a leading `YYYY-MM-DD`, ignoring any time suffix.
pub fn parse_date(s: &str) -> (r: Option<(i32, i32, i32)>)
    ensures
        r == parse_date_spec(s@),
{
    let cs = chars_of(s);
    let k = date_head_len(cs.as_slice());
    let head = slice_range(cs.as_slice(), 0, k);
    assert(head@ == date_head(s@));
    parse_ymd(head.as_slice())
}

/// `n` as two decimal digits, zero-padded (`{n:02}` for `0..=99`).
pub open spec fn two_digits(n: int) -> Seq<char> {
    seq![digit_char(n / 10), digit_char(n % 10)]
}

/// `n` as four decimal digits, zero-padded (`{n:04}` for `0..=9999`).
pub open spec fn four_digits(n: int) -> Seq<char> {
    seq![digit_char(n / 1000), digit_char(n / 100 % 10), digit_char(n / 10 % 10), digit_char(n % 10)]
}

/// The `YYYY-MM-DD` text of a date.
pub open spec fn iso_date_text(y: int, m: int, d: int) -> Seq<char> {
    four_digits(y) + seq!['-'] + two_digits(m) + seq!['-'] + two_digits(d)
}

proof fn lemma_ascii_prefix(s: Seq<char>, n: int)
    requires
        0 <= n <= s.len(),
        forall|i: int| 0 <= i < n ==> (s[i] as u32) < 0x80,
    ensures
        byte_prefix_len(s, n) == Some(n),
    decreases n,
{
    if n > 0 {
        assert forall|i: int| 0 <= i < n - 1 implies (s.drop_first()[i] as u32) < 0x80 by {
            assert(s.drop_first()[i] == s[i + 1]);
        }
        lemma_ascii_prefix(s.drop_first(), n - 1);
    }
}

proof fn lemma_find_dash(h: Seq<char>, k: int)
    requires
        0 <= k < h.len(),
        h[k] == '-',
        forall|i: int| 0 <= i < k ==> h[i] != '-',
    ensures
        find(h, seq!['-']) == Some(k),
{
    let p = seq!['-'];
    lemma_find_from(h, p, 0);
    assert(h.subrange(k, k + 1) =~= p);
    assert(matches_at(h, p, k));
    match find_from(h, p, 0) {
        Some(j) => {
            assert(h.subrange(j, j + 1)[0] == h[j]);
        },
        None => {},
    }
}

proof fn lemma_digit_char(k: int)
    requires
        0 <= k <= 9,
    ensures
        is_digit(digit_char(k)),
        digit_char(k) as int - 48 == k,
        (digit_char(k) as u32) < 0x80,
        digit_char(k) != '-',
{
}

proof fn lemma_parse_digits(s: Seq<char>, n: int)
    requires
        (s.len() == 2 && 0 <= n <= 99 && s == two_digits(n)) || (s.len() == 4 && 0 <= n <= 9999
            && s == four_digits(n)),
    ensures
        parse_i32(s) == Some(n as i32),
{
    if s.len() == 2 {
        lemma_digit_char(n / 10);
        lemma_digit_char(n % 10);
        assert(all_digits(s));
        let s1 = s.drop_last();
        assert(s1.drop_last() =~= Seq::<char>::empty());
        assert(s1.last() == s[0]);
        assert(digits_value(s1.drop_last()) == 0);
        assert(digits_value(s1) == n / 10);
        assert(digits_value(s) == (n / 10) * 10 + n % 10);
    } else {
        lemma_digit_char(n / 1000);
        lemma_digit_char(n / 100 % 10);
        lemma_digit_char(n / 10 % 10);
        lemma_digit_char(n % 10);
        assert(all_digits(s));
        let s3 = s.drop_last();
        let s2 = s3.drop_last();
        let s1 = s2.drop_last();
        assert(s1.drop_last() =~= Seq::<char>::empty());
        assert(s1.last() == s[0] && s2.last() == s[1] && s3.last() == s[2]);
        assert(digits_value(s1.drop_last()) == 0);
        assert(digits_value(s1) == n / 1000);
        assert(digits_value(s2) == (n / 1000) * 10 + n / 100 % 10);
        assert(digits_value(s3) == ((n / 1000) * 10 + n / 100 % 10) * 10 + n / 10 % 10);
        assert(digits_value(s) == (((n / 1000) * 10 + n / 100 % 10) * 10 + n / 10 % 10) * 10 + n
            % 10);
        assert((((n / 1000) * 10 + n / 100 % 10) * 10 + n / 10 % 10) * 10 + n % 10 == n);
    }
    assert(parse_int(s, true) == Some(n));
}

/// A date written as `YYYY-MM-DD` (each field zero-padded) is read back as
/// itself, whatever text follows it.
pub proof fn lemma_parse_date_reads_iso_text(y: int, m: int, d: int, suffix: Seq<char>)
    requires
        0 <= y <= 9999,
        0 <= m <= 99,
        0 <= d <= 99,
    ensures
        parse_date_spec(iso_date_text(y, m, d) + suffix) == Some((y as i32, m as i32, d as i32)),
{
    let t = iso_date_text(y, m, d);
    let s = t + suffix;
    lemma_digit_char(y / 1000);
    lemma_digit_char(y / 100 % 10);
    lemma_digit_char(y / 10 % 10);
    lemma_digit_char(y % 10);
    lemma_digit_char(m / 10);
    lemma_digit_char(m % 10);
    lemma_digit_char(d / 10);
    lemma_digit_char(d % 10);
    assert(t.len() == 10);
    assert forall|i: int| 0 <= i < 10 implies (s[i] as u32) < 0x80 by {
        assert(s[i] == t[i]);
    }
    lemma_ascii_prefix(s, 10);
    assert(date_head(s) =~= t);
    lemma_find_dash(t, 4);
    let rest = t.subrange(5, 10);
    lemma_find_dash(rest, 2);
    assert(t.take(4) =~= four_digits(y));
    assert(rest.take(2) =~= two_digits(m));
    assert(rest.subrange(3, 5) =~= two_digits(d));
    lemma_parse_digits(four_digits(y), y);
    lemma_parse_digits(two_digits(m), m);
    lemma_parse_digits(two_digits(d), d);
}

// ---------------------------------------------------------------------------
// Relative-time labels
// ---------------------------------------------------------------------------

/// Coarse "N days ago" wording.
pub open spec fn ago_label_spec(days: int) -> Seq<char> {
    if days < 14 {
        decimal(days) + "d ago"@
    } else if days < 90 {
        decimal(days / 7) + "w ago"@
    } else {
        "~"@ + decimal(days / 30) + "mo ago"@
    }
}

/// Coarse "N days ago" label. Shared with the calendar's countdown badge so the
/// two always word elapsed time the same way.
pub fn ago_label(days: i32) -> (r: String)
    ensures
        r@ == ago_label_spec(days as int),
{
    let mut s = String::new();
    if days < 14 {
        push_decimal(&mut s, days as i64);
        push_str(&mut s, "d ago");
    } else if days < 90 {
        push_decimal(&mut s, (days / 7) as i64);
        push_str(&mut s, "w ago");
    } else {
        push_str(&mut s, "~");
        push_decimal(&mut s, (days / 30) as i64);
        push_str(&mut s, "mo ago");
    }
    s
}

/// Whole minutes since a timestamp, worded with sub-day resolution.
pub open spec fn minutes_label_spec(mins: int) -> Seq<char> {
    if mins == 0 {
        "just now"@
    } else if 1 <= mins <= 59 {
        decimal(mins) + "m ago"@
    } else if 60 <= mins <= 1439 {
        decimal(mins / 60) + "h ago"@
    } else {
        ago_label_spec(tdiv(mins, 1440) as i32 as int)
    }
}

/// The wording `relative_from_now` gives for an elapsed time of `mins`
/// whole minutes: "just now", "Nm ago", "Nh ago", then [`ago_label`].
pub fn minutes_label(mins: i64) -> (r: String)
    ensures
        r@ == minutes_label_spec(mins as int),
{
    if mins == 0 {
        "just now".to_owned()
    } else if 1 <= mins && mins <= 59 {
        let mut s = String::new();
        push_decimal(&mut s, mins);
        push_str(&mut s, "m ago");
        s
    } else if 60 <= mins && mins <= 1439 {
        let mut s = String::new();
        push_decimal(&mut s, mins / 60);
        push_str(&mut s, "h ago");
        s
    } else {
        let days = #[verifier::truncate] ((mins / 1440) as i32);
        ago_label(days)
    }
}

/// The timestamp `relative_from_now` hands to the JavaScript date parser.
/// SQLite's `datetime('now')` form (`2026-09-13 21:00:00`) has no zone and
/// is UTC, so a string with a space and no trailing `Z` becomes
/// `2026-09-13T21:00:00Z`; anything else is kept as is.
pub open spec fn normalize_timestamp_spec(iso: Seq<char>) -> Seq<char> {
    if contains_seq(iso, seq![' ']) && !ends_with(iso, seq!['Z']) {
        replace_all(iso, seq![' '], seq!['T']).push('Z')
    } else {
        iso
    }
}

pub fn normalize_timestamp(iso: &str) -> (r: String)
    ensures
        r@ == normalize_timestamp_spec(iso@),
{
    let cs = chars_of(iso);
    let sp = [' '];
    assert(sp@ == seq![' ']);
    let found = find_chars_from(cs.as_slice(), &sp, 0);
    proof {
        crate::text::lemma_find_from(cs@, seq![' '], 0);
    }
    let has_space = match found {
        Some(k) => {
            assert(matches_at(cs@, seq![' '], k as int));
            true
        },
        None => false,
    };
    assert(has_space == contains_seq(iso@, seq![' ']));
    let n = cs.len();
    let ends_z = n > 0 && cs[n - 1] == 'Z';
    proof {
        if n > 0 {
            assert(cs@.subrange(n - 1, n as int) =~= seq![cs@[n - 1]]);
            if cs@[n - 1] != 'Z' {
                assert(cs@.subrange(n - 1, n as int)[0] != seq!['Z'][0]);
            }
        }
    }
    assert(ends_z == ends_with(iso@, seq!['Z']));
    if has_space && !ends_z {
        let t = ['T'];
        assert(t@ == seq!['T']);
        let mut v = replace_chars(cs.as_slice(), &sp, &t);
        v.push('Z');
        string_of(v.as_slice())
    } else {
        string_of(cs.as_slice())
    }
}

/// `"2026-09-07"` → `"Sep 7"`; unparseable input comes back unchanged.
pub open spec fn week_label_spec(ymd: Seq<char>) -> Seq<char> {
    match parse_date_spec(ymd) {
        Some((_, m, d)) => short_month_name_spec(m as int) + " "@ + decimal(d as int),
        None => ymd,
    }
}

/// `"2026-09-07"` → `"Sep 7"`, for chart axis labels.
pub fn week_label(ymd: &str) -> (r: String)
    requires
        parse_date_spec(ymd@) matches Some((_, m, _)) ==> 1 <= m <= 12,
    ensures
        r@ == week_label_spec(ymd@),
{
    match parse_date(ymd) {
        Some((_, m, d)) => {
            let mut s = String::new();
            push_str(&mut s, short_month_name(m));
            push_str(&mut s, " ");
            push_decimal(&mut s, d as i64);
            s
        },
        None => ymd.to_owned(),
    }
}


// ---------------------------------------------------------------------------
// Today
// ---------------------------------------------------------------------------

/// `js_sys::Date::new_0()` read with `getFullYear`, `getMonth` and
/// `getDate`, as JavaScript gives them (local time). JavaScript documents
/// `getMonth` as 0-based, in `0..=11`, and `getDate` in `1..=31`; the year is
/// whatever the clock says, so nothing is claimed of it.
#[verifier::external_body]
fn js_today() -> (r: (u32, u32, u32))
    ensures
        r.1 <= 11,
        1 <= r.2 <= 31,
{
    let d = js_sys::Date::new_0();
    (d.get_full_year(), d.get_month(), d.get_date())
}

/// Today's `(year, month, day)` in local time, the month counted from 1.
pub fn today_ymd() -> (r: (i32, i32, i32))
    ensures
        1 <= r.1 <= 12,
        1 <= r.2 <= 31,
{
    let (y, m, d) = js_today();
    (y as i32, m as i32 + 1, d as i32)
}

/// Checks [`jdn_fits`] at run time.
#[verifier::spinoff_prover]
#[verifier::rlimit(40)]
pub fn jdn_fits_exec(y: i32, m: i32, d: i32) -> (r: bool)
    ensures
        r == jdn_fits(y as int, m as int, d as int),
{
    let (y, m, d) = (y as i64, m as i64, d as i64);
    let lo: i64 = -2147483648;
    let hi: i64 = 2147483647;
    let ok = |v: i64| -> (b: bool)
        ensures
            b == (lo <= v <= hi),
        { lo <= v && v <= hi };
    if !ok(14 - m) {
        return false;
    }
    let a = (14 - m) / 12;
    if !ok(y + 4800) {
        return false;
    }
    let y2 = y + 4800 - a;
    if !ok(y2) || !ok(12 * a) || !ok(m + 12 * a) {
        return false;
    }
    let m2 = m + 12 * a - 3;
    if !ok(m2) || !ok(153 * m2) || !ok(153 * m2 + 2) {
        return false;
    }
    let c = (153 * m2 + 2) / 5;
    if !ok(d + c) || !ok(365 * y2) {
        return false;
    }
    let s1 = d + c + 365 * y2;
    if !ok(s1) {
        return false;
    }
    let s2 = s1 + y2 / 4;
    if !ok(s2) {
        return false;
    }
    let s3 = s2 - y2 / 100;
    if !ok(s3) {
        return false;
    }
    let s4 = s3 + y2 / 400;
    if !ok(s4) {
        return false;
    }
    ok(s4 - 32045)
}

/// A "last synced" label old enough to warn about: days or months ago.
pub open spec fn is_stale_label_spec(label: Seq<char>) -> bool {
    ends_with(label, "d ago"@) || contains_seq(label, "mo"@)
}

/// Whether a relative time label (as `relative_from_now` writes it) reads
/// as days or months ago.
pub fn is_stale_label(label: &str) -> (r: bool)
    ensures
        r == is_stale_label_spec(label@),
{
    let h = chars_of(label);
    let suffix = chars_of("d ago");
    let ends = if suffix.len() <= h.len() {
        let at = h.len() - suffix.len();
        crate::text::char_slice_eq_at(h.as_slice(), suffix.as_slice(), at)
    } else {
        false
    };
    if ends {
        return true;
    }
    let mo = chars_of("mo");
    crate::text::contains_chars(h.as_slice(), mo.as_slice())
}

/// The positions of the weeks that get an axis label: every `max(n / 13, 1)`-th
/// week from the first, so that about 13 labels show.
pub open spec fn label_step(n: int) -> int {
    if n / 13 > 1 {
        n / 13
    } else {
        1
    }
}

/// `i` is one of the positions in `r`.
pub open spec fn has_position(r: Seq<usize>, i: int) -> bool {
    exists|w: int| 0 <= w < r.len() && r[w] as int == i
}

/// The weeks (by position) whose label a chart of `n` weeks shows.
pub fn x_label_positions(n: usize) -> (r: Vec<usize>)
    ensures
        forall|j: int| 0 <= j < r@.len() ==> (#[trigger] r@[j]) < n && (r@[j] as int) % label_step(n as int) == 0,
        forall|i: int| 0 <= i < n && i % label_step(n as int) == 0 ==> #[trigger] has_position(r@, i),
        forall|a: int, b: int| 0 <= a < b < r@.len() ==> r@[a] < r@[b],
{
    let step: usize = if n / 13 > 1 {
        n / 13
    } else {
        1
    };
    let mut r: Vec<usize> = Vec::new();
    let mut i: usize = 0;
    while i < n
        invariant
            step == label_step(n as int),
            step >= 1,
            i <= n,
            forall|j: int| 0 <= j < r@.len() ==> (#[trigger] r@[j]) < i && (r@[j] as int) % (step as int) == 0,
            forall|k: int| 0 <= k < i && k % (step as int) == 0 ==> #[trigger] has_position(r@, k),
            forall|a: int, b: int| 0 <= a < b < r@.len() ==> r@[a] < r@[b],
        decreases n - i,
    {
        if i % step == 0 {
            let ghost before = r@;
            r.push(i);
            assert forall|k: int| 0 <= k < i + 1 && k % (step as int) == 0 implies #[trigger] has_position(
                r@,
                k,
            ) by {
                if k < i {
                    assert(has_position(before, k));
                    let w = choose|w: int| 0 <= w < before.len() && before[w] as int == k;
                    assert(r@[w] as int == k);
                } else {
                    assert(r@[r@.len() - 1] as int == k);
                }
            }
        }
        i = i + 1;
    }
    r
}

} // verus!

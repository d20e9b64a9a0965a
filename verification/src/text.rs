//! Character-level text helpers shared by the rest of the library: conversions
//! between `&str`/`String` and character vectors, whitespace trimming,
//! substring search and replacement, and decimal integers in both directions.
use vstd::prelude::*;

verus! {

broadcast use vstd::string::group_string_axioms;

// ---------------------------------------------------------------------------
// Conversions
// ---------------------------------------------------------------------------

/// The characters of `s`, in order.
pub fn chars_of(s: &str) -> (v: Vec<char>)
    ensures
        v@ == s@,
{
    let mut v: Vec<char> = Vec::new();
    for c in it: s.chars()
        invariant
            it.seq() == s@,
            v@ == it.seq().take(it.index() as int),
    {
        v.push(c);
    }
    v
}

/// `String::push`: appends one character.
#[verifier::external_body]
pub(crate) fn push_char(s: &mut String, c: char)
    ensures
        final(s)@ == old(s)@.push(c),
{
    s.push(c);
}

/// Appends all of `cs` to `s`.
pub fn push_chars(s: &mut String, cs: &[char])
    ensures
        final(s)@ == old(s)@ + cs@,
{
    let mut i: usize = 0;
    while i < cs.len()
        invariant
            i <= cs@.len(),
            s@ == old(s)@ + cs@.take(i as int),
        decreases cs@.len() - i,
    {
        push_char(s, cs[i]);
        i = i + 1;
        assert(s@ == old(s)@ + cs@.take(i as int));
    }
    assert(cs@.take(cs@.len() as int) == cs@);
}

/// Appends all of `t` to `s`.
pub fn push_str(s: &mut String, t: &str)
    ensures
        final(s)@ == old(s)@ + t@,
{
    s.append(t);
}

/// A new string holding exactly the characters of `cs`.
pub fn string_of(cs: &[char]) -> (s: String)
    ensures
        s@ == cs@,
{
    let mut s = String::new();
    push_chars(&mut s, cs);
    s
}

/// A new string holding the characters of `t`.
pub fn string_from(t: &str) -> (s: String)
    ensures
        s@ == t@,
{
    t.to_owned()
}

// ---------------------------------------------------------------------------
// Whitespace
// ---------------------------------------------------------------------------

/// `char::is_whitespace`: the Unicode `White_Space` property.
pub open spec fn is_ws(c: char) -> bool {
    let u = c as u32;
    ||| 0x09 <= u <= 0x0D
    ||| u == 0x20
    ||| u == 0x85
    ||| u == 0xA0
    ||| u == 0x1680
    ||| 0x2000 <= u <= 0x200A
    ||| u == 0x2028
    ||| u == 0x2029
    ||| u == 0x202F
    ||| u == 0x205F
    ||| u == 0x3000
}

pub fn is_whitespace(c: char) -> (b: bool)
    ensures
        b == is_ws(c),
{
    let u = c as u32;
    (0x09 <= u && u <= 0x0D) || u == 0x20 || u == 0x85 || u == 0xA0 || u == 0x1680 || (0x2000
        <= u && u <= 0x200A) || u == 0x2028 || u == 0x2029 || u == 0x202F || u == 0x205F || u
        == 0x3000
}

pub open spec fn trim_start(s: Seq<char>) -> Seq<char>
    decreases s.len(),
{
    if s.len() > 0 && is_ws(s[0]) {
        trim_start(s.drop_first())
    } else {
        s
    }
}

pub open spec fn trim_end(s: Seq<char>) -> Seq<char>
    decreases s.len(),
{
    if s.len() > 0 && is_ws(s.last()) {
        trim_end(s.drop_last())
    } else {
        s
    }
}

/// `str::trim`: leading and trailing whitespace removed.
pub open spec fn trim(s: Seq<char>) -> Seq<char> {
    trim_end(trim_start(s))
}

proof fn lemma_trim_start_skip(s: Seq<char>, i: int)
    requires
        0 <= i <= s.len(),
        forall|k: int| 0 <= k < i ==> is_ws(#[trigger] s[k]),
    ensures
        trim_start(s) == trim_start(s.subrange(i, s.len() as int)),
    decreases i,
{
    if i > 0 {
        assert(s.drop_first() == s.subrange(1, s.len() as int));
        lemma_trim_start_skip(s.drop_first(), i - 1);
        assert(s.drop_first().subrange(i - 1, s.drop_first().len() as int) == s.subrange(
            i,
            s.len() as int,
        ));
    } else {
        assert(s.subrange(0, s.len() as int) == s);
    }
}

proof fn lemma_trim_end_skip(s: Seq<char>, j: int)
    requires
        0 <= j <= s.len(),
        forall|k: int| j <= k < s.len() ==> is_ws(#[trigger] s[k]),
    ensures
        trim_end(s) == trim_end(s.subrange(0, j)),
    decreases s.len() - j,
{
    if j < s.len() {
        lemma_trim_end_skip(s.drop_last(), j);
        assert(s.drop_last().subrange(0, j) == s.subrange(0, j));
    } else {
        assert(s.subrange(0, j) == s);
    }
}

/// Bounds `(a, b)` such that `cs[a..b]` is `cs` trimmed.
pub fn trim_bounds(cs: &[char]) -> (r: (usize, usize))
    ensures
        r.0 <= r.1 <= cs@.len(),
        cs@.subrange(r.0 as int, r.1 as int) == trim(cs@),
{
    let mut a: usize = 0;
    while a < cs.len() && is_whitespace(cs[a])
        invariant
            a <= cs@.len(),
            forall|k: int| 0 <= k < a ==> is_ws(#[trigger] cs@[k]),
        decreases cs@.len() - a,
    {
        a = a + 1;
    }
    proof {
        lemma_trim_start_skip(cs@, a as int);
    }
    let ghost rest = cs@.subrange(a as int, cs@.len() as int);
    assert(trim_start(rest) == rest);
    let mut b: usize = cs.len();
    while b > a && is_whitespace(cs[b - 1])
        invariant
            a <= b <= cs@.len(),
            forall|k: int| b <= k < cs@.len() ==> is_ws(#[trigger] cs@[k]),
        decreases b,
    {
        b = b - 1;
    }
    proof {
        let t = cs@.subrange(a as int, cs@.len() as int);
        assert forall|k: int| (b - a) <= k < t.len() implies is_ws(#[trigger] t[k]) by {
            assert(t[k] == cs@[k + a]);
        }
        lemma_trim_end_skip(t, b - a);
        assert(t.subrange(0, b - a) == cs@.subrange(a as int, b as int));
        let u = cs@.subrange(a as int, b as int);
        if u.len() > 0 {
            assert(u.last() == cs@[b - 1]);
        }
    }
    (a, b)
}

/// `str::trim` on a character vector.
pub fn trim_chars(cs: &[char]) -> (r: Vec<char>)
    ensures
        r@ == trim(cs@),
{
    let (a, b) = trim_bounds(cs);
    slice_range(cs, a, b)
}

/// The characters `cs[a..b]` as a new vector.
pub fn slice_range(cs: &[char], a: usize, b: usize) -> (r: Vec<char>)
    requires
        a <= b <= cs@.len(),
    ensures
        r@ == cs@.subrange(a as int, b as int),
{
    let mut r: Vec<char> = Vec::new();
    let mut i: usize = a;
    while i < b
        invariant
            a <= i <= b <= cs@.len(),
            r@ == cs@.subrange(a as int, i as int),
        decreases b - i,
    {
        r.push(cs[i]);
        i = i + 1;
        assert(r@ == cs@.subrange(a as int, i as int));
    }
    r
}

// ---------------------------------------------------------------------------
// Prefixes, suffixes, search and replacement
// ---------------------------------------------------------------------------

pub open spec fn starts_with(s: Seq<char>, p: Seq<char>) -> bool {
    p.len() <= s.len() && s.subrange(0, p.len() as int) == p
}

pub open spec fn ends_with(s: Seq<char>, p: Seq<char>) -> bool {
    p.len() <= s.len() && s.subrange(s.len() - p.len(), s.len() as int) == p
}

/// `p` occurs in `h` starting at index `i`.
pub open spec fn matches_at(h: Seq<char>, p: Seq<char>, i: int) -> bool {
    0 <= i && i + p.len() <= h.len() && h.subrange(i, i + p.len()) == p
}

/// `p` occurs in `h` anywhere.
pub open spec fn contains_seq(h: Seq<char>, p: Seq<char>) -> bool {
    exists|i: int| matches_at(h, p, i)
}

/// First index at or after `i` where `p` occurs in `h`.
pub open spec fn find_from(h: Seq<char>, p: Seq<char>, i: int) -> Option<int>
    decreases h.len() + 1 - i,
{
    if i < 0 || i + p.len() > h.len() {
        None
    } else if matches_at(h, p, i) {
        Some(i)
    } else {
        find_from(h, p, i + 1)
    }
}

/// `str::find`: the first index where `p` occurs in `h`.
pub open spec fn find(h: Seq<char>, p: Seq<char>) -> Option<int> {
    find_from(h, p, 0)
}

pub proof fn lemma_find_from(h: Seq<char>, p: Seq<char>, i: int)
    requires
        0 <= i,
    ensures
        find_from(h, p, i) matches Some(k) ==> i <= k && matches_at(h, p, k) && forall|j: int|
            i <= j < k ==> !matches_at(h, p, j),
        find_from(h, p, i) is None ==> forall|j: int| i <= j ==> !matches_at(h, p, j),
    decreases h.len() + 1 - i,
{
    if i + p.len() > h.len() {
    } else if matches_at(h, p, i) {
    } else {
        lemma_find_from(h, p, i + 1);
        assert forall|j: int| i <= j && !(i + 1 <= j) implies !matches_at(h, p, j) by {}
    }
}

pub fn char_slice_eq_at(h: &[char], p: &[char], i: usize) -> (b: bool)
    requires
        i <= h@.len(),
    ensures
        b == matches_at(h@, p@, i as int),
{
    if p.len() > h.len() - i {
        return false;
    }
    let mut k: usize = 0;
    while k < p.len()
        invariant
            k <= p@.len(),
            i <= h@.len(),
            i + p@.len() <= h@.len(),
            forall|j: int| 0 <= j < k ==> h@[i + j] == p@[j],
        decreases p@.len() - k,
    {
        assert(i + k < h@.len());
        assert(h@.len() == h.len());
        if h[i + k] != p[k] {
            assert(h@.subrange(i as int, i + p@.len())[k as int] != p@[k as int]);
            return false;
        }
        k = k + 1;
    }
    assert(h@.subrange(i as int, i + p@.len()) == p@);
    true
}

/// The first index at or after `start` where `p` occurs in `h`.
pub fn find_chars_from(h: &[char], p: &[char], start: usize) -> (r: Option<usize>)
    ensures
        r matches Some(k) ==> find_from(h@, p@, start as int) == Some(k as int),
        r is None ==> find_from(h@, p@, start as int) is None,
{
    let mut i: usize = start;
    if i > h.len() {
        return None;
    }
    while i <= h.len()
        invariant
            start <= i,
            i <= h@.len() + 1,
            find_from(h@, p@, start as int) == find_from(h@, p@, i as int),
        decreases h@.len() + 1 - i,
    {
        if p.len() > h.len() - i {
            return None;
        }
        if char_slice_eq_at(h, p, i) {
            return Some(i);
        }
        if i == h.len() {
            assert(find_from(h@, p@, i + 1) is None);
            return None;
        }
        i = i + 1;
    }
    None
}

/// `str::find` on character vectors.
pub fn find_chars(h: &[char], p: &[char]) -> (r: Option<usize>)
    ensures
        r matches Some(k) ==> find(h@, p@) == Some(k as int),
        r is None ==> find(h@, p@) is None,
{
    find_chars_from(h, p, 0)
}

/// `str::contains` on character vectors.
pub fn contains_chars(h: &[char], p: &[char]) -> (r: bool)
    ensures
        r == contains_seq(h@, p@),
{
    let f = find_chars(h, p);
    proof {
        lemma_find_from(h@, p@, 0);
        if contains_seq(h@, p@) {
            let i = choose|i: int| matches_at(h@, p@, i);
            assert(matches_at(h@, p@, i));
        }
    }
    f.is_some()
}

/// `str::replace(p, r)` for a non-empty pattern, scanning from index `i`:
/// non-overlapping occurrences, left to right.
pub open spec fn replace_from(h: Seq<char>, p: Seq<char>, r: Seq<char>, i: int) -> Seq<char>
    decreases h.len() - i,
{
    if i < 0 || i >= h.len() || p.len() == 0 {
        h.subrange(if 0 <= i <= h.len() { i } else { h.len() as int }, h.len() as int)
    } else if matches_at(h, p, i) {
        r + replace_from(h, p, r, i + p.len())
    } else {
        seq![h[i]] + replace_from(h, p, r, i + 1)
    }
}

/// `str::replace(p, r)`: every non-overlapping occurrence of `p`, left to
/// right, replaced by `r`.
pub open spec fn replace_all(h: Seq<char>, p: Seq<char>, r: Seq<char>) -> Seq<char> {
    replace_from(h, p, r, 0)
}

pub fn replace_chars(h: &[char], p: &[char], r: &[char]) -> (out: Vec<char>)
    requires
        p@.len() > 0,
    ensures
        out@ == replace_all(h@, p@, r@),
{
    let mut out: Vec<char> = Vec::new();
    let mut i: usize = 0;
    while i < h.len()
        invariant
            i <= h@.len(),
            p@.len() > 0,
            out@ + replace_from(h@, p@, r@, i as int) == replace_all(h@, p@, r@),
        decreases h@.len() - i,
    {
        if char_slice_eq_at(h, p, i) {
            let ghost before = out@;
            let mut k: usize = 0;
            while k < r.len()
                invariant
                    k <= r@.len(),
                    out@ == before + r@.take(k as int),
                decreases r@.len() - k,
            {
                out.push(r[k]);
                k = k + 1;
                assert(out@ == before + r@.take(k as int));
            }
            assert(r@.take(r@.len() as int) == r@);
            assert(before + (r@ + replace_from(h@, p@, r@, i + p@.len())) == out@ + replace_from(
                h@,
                p@,
                r@,
                i + p@.len(),
            ));
            i = i + p.len();
        } else {
            let ghost before = out@;
            out.push(h[i]);
            assert(before + (seq![h@[i as int]] + replace_from(h@, p@, r@, i + 1)) == out@
                + replace_from(h@, p@, r@, i + 1));
            i = i + 1;
        }
    }
    assert(replace_from(h@, p@, r@, i as int) == Seq::<char>::empty());
    assert(out@ + Seq::<char>::empty() == out@);
    out
}

/// `str::replace` on strings.
pub fn replace_str(h: &str, p: &str, r: &str) -> (out: String)
    requires
        p@.len() > 0,
    ensures
        out@ == replace_all(h@, p@, r@),
{
    let hc = chars_of(h);
    let pc = chars_of(p);
    let rc = chars_of(r);
    let v = replace_chars(hc.as_slice(), pc.as_slice(), rc.as_slice());
    string_of(v.as_slice())
}

// ---------------------------------------------------------------------------
// Decimal integers
// ---------------------------------------------------------------------------

pub open spec fn digit_char(d: int) -> char {
    (48 + d) as char
}

/// Decimal digits of a natural number, most significant first, no leading zeros.
pub open spec fn digits_of(n: nat) -> Seq<char>
    decreases n,
{
    if n < 10 {
        seq![digit_char(n as int)]
    } else {
        digits_of(n / 10).push(digit_char((n % 10) as int))
    }
}

/// The `Display` form of an integer: optional `-`, then decimal digits.
pub open spec fn decimal(n: int) -> Seq<char> {
    if n < 0 {
        seq!['-'] + digits_of((-n) as nat)
    } else {
        digits_of(n as nat)
    }
}

fn push_digits(s: &mut String, m: u64)
    ensures
        final(s)@ == old(s)@ + digits_of(m as nat),
    decreases m,
{
    if m >= 10 {
        push_digits(s, m / 10);
    }
    let d = (m % 10) as u8;
    let c = (48u8 + d) as char;
    assert(c == digit_char((m % 10) as int));
    push_char(s, c);
    proof {
        if m >= 10 {
            assert(old(s)@ + digits_of(m as nat) == (old(s)@ + digits_of((m / 10) as nat)).push(
                digit_char((m % 10) as int),
            ));
        }
    }
}

/// Appends the decimal form of `n` to `s`.
pub fn push_decimal(s: &mut String, n: i64)
    ensures
        final(s)@ == old(s)@ + decimal(n as int),
{
    if n < 0 {
        push_char(s, '-');
        let m: u64 = if n == i64::MIN {
            9223372036854775808u64
        } else {
            (-n) as u64
        };
        push_digits(s, m);
        assert(old(s)@ + decimal(n as int) == old(s)@.push('-') + digits_of(m as nat));
    } else {
        push_digits(s, n as u64);
    }
}

/// Appends the decimal form of an unsigned `n` to `s`.
pub fn push_decimal_u64(s: &mut String, n: u64)
    ensures
        final(s)@ == old(s)@ + decimal(n as int),
{
    push_digits(s, n);
}

/// The decimal form of `n`, as `n.to_string()` writes it.
pub fn decimal_string(n: i64) -> (s: String)
    ensures
        s@ == decimal(n as int),
{
    let mut s = String::new();
    push_decimal(&mut s, n);
    s
}

pub open spec fn is_digit(c: char) -> bool {
    '0' <= c <= '9'
}

pub open spec fn all_digits(s: Seq<char>) -> bool {
    forall|i: int| 0 <= i < s.len() ==> is_digit(#[trigger] s[i])
}

/// The value of a run of decimal digits.
pub open spec fn digits_value(s: Seq<char>) -> nat
    decreases s.len(),
{
    if s.len() == 0 {
        0
    } else {
        digits_value(s.drop_last()) * 10 + ((s.last() as int - 48) as nat)
    }
}

/// The integer that `FromStr` reads from `s`: an optional sign (`+`, or `-`
/// when `signed`) followed by at least one ASCII digit, and nothing else.
pub open spec fn parse_int(s: Seq<char>, signed: bool) -> Option<int> {
    if s.len() > 0 && (s[0] == '+' || (signed && s[0] == '-')) {
        let rest = s.drop_first();
        if rest.len() > 0 && all_digits(rest) {
            Some(
                if s[0] == '-' {
                    -(digits_value(rest) as int)
                } else {
                    digits_value(rest) as int
                },
            )
        } else {
            None
        }
    } else if s.len() > 0 && all_digits(s) {
        Some(digits_value(s) as int)
    } else {
        None
    }
}

/// `s.parse::<i32>()`, as an option.
pub open spec fn parse_i32(s: Seq<char>) -> Option<i32> {
    match parse_int(s, true) {
        Some(v) => if i32::MIN <= v <= i32::MAX {
            Some(v as i32)
        } else {
            None
        },
        None => None,
    }
}

/// `s.parse::<i64>()`, as an option.
pub open spec fn parse_i64(s: Seq<char>) -> Option<i64> {
    match parse_int(s, true) {
        Some(v) => if i64::MIN <= v <= i64::MAX {
            Some(v as i64)
        } else {
            None
        },
        None => None,
    }
}

/// `s.parse::<u64>()`, as an option.
pub open spec fn parse_u64(s: Seq<char>) -> Option<u64> {
    match parse_int(s, false) {
        Some(v) => if 0 <= v <= u64::MAX {
            Some(v as u64)
        } else {
            None
        },
        None => None,
    }
}

proof fn lemma_digits_value_prefix(s: Seq<char>, k: int)
    requires
        0 <= k <= s.len(),
        all_digits(s),
    ensures
        digits_value(s.take(k)) <= digits_value(s),
    decreases s.len() - k,
{
    if k < s.len() {
        lemma_digits_value_prefix(s, k + 1);
        assert(s.take(k + 1).drop_last() == s.take(k));
        assert(is_digit(s[k]));
    } else {
        assert(s.take(k) == s);
    }
}

/// The value of the digit run `cs[a..b]` when it fits in a `u64`.
fn digits_u64(cs: &[char], a: usize, b: usize) -> (r: Option<u64>)
    requires
        a <= b <= cs@.len(),
        all_digits(cs@.subrange(a as int, b as int)),
    ensures
        r matches Some(v) ==> v == digits_value(cs@.subrange(a as int, b as int)),
        r is None ==> digits_value(cs@.subrange(a as int, b as int)) > u64::MAX,
{
    let ghost s = cs@.subrange(a as int, b as int);
    let mut acc: u64 = 0;
    let mut i: usize = a;
    while i < b
        invariant
            a <= i <= b <= cs@.len(),
            s == cs@.subrange(a as int, b as int),
            all_digits(s),
            acc == digits_value(s.take(i - a)),
        decreases b - i,
    {
        let ghost k = i - a;
        assert(s[k] == cs@[i as int]);
        assert(is_digit(s[k]));
        let d = (cs[i] as u32 - 48) as u64;
        assert(s.take(k + 1).drop_last() == s.take(k));
        match acc.checked_mul(10) {
            Some(t) => match t.checked_add(d) {
                Some(u) => {
                    acc = u;
                },
                None => {
                    proof {
                        lemma_digits_value_prefix(s, k + 1);
                    }
                    return None;
                },
            },
            None => {
                proof {
                    lemma_digits_value_prefix(s, k + 1);
                }
                return None;
            },
        }
        i = i + 1;
    }
    assert(s.take(b - a) == s);
    Some(acc)
}

fn all_digits_in(cs: &[char], a: usize, b: usize) -> (r: bool)
    requires
        a <= b <= cs@.len(),
    ensures
        r == all_digits(cs@.subrange(a as int, b as int)),
{
    let mut i = a;
    while i < b
        invariant
            a <= i <= b <= cs@.len(),
            forall|k: int| a <= k < i ==> is_digit(#[trigger] cs@[k]),
        decreases b - i,
    {
        if !(cs[i] >= '0' && cs[i] <= '9') {
            assert(!is_digit(cs@.subrange(a as int, b as int)[i - a]));
            return false;
        }
        i = i + 1;
    }
    assert forall|k: int| 0 <= k < b - a implies is_digit(
        #[trigger] cs@.subrange(a as int, b as int)[k],
    ) by {
        assert(cs@.subrange(a as int, b as int)[k] == cs@[k + a]);
    }
    true
}

/// Sign and digit bounds of an integer literal in `cs`, or `None` when it is
/// not one: `(negative, start_of_digits)`.
fn int_shape(cs: &[char], signed: bool) -> (r: Option<(bool, usize)>)
    ensures
        r is None ==> parse_int(cs@, signed) is None,
        r matches Some((neg, a)) ==> {
            &&& a <= cs@.len()
            &&& a < cs@.len()
            &&& all_digits(cs@.subrange(a as int, cs@.len() as int))
            &&& parse_int(cs@, signed) == Some(
                if neg {
                    -(digits_value(cs@.subrange(a as int, cs@.len() as int)) as int)
                } else {
                    digits_value(cs@.subrange(a as int, cs@.len() as int)) as int
                },
            )
        },
{
    if cs.len() == 0 {
        return None;
    }
    let n = cs.len();
    if cs[0] == '+' || (signed && cs[0] == '-') {
        assert(cs@.drop_first() == cs@.subrange(1, n as int));
        if n > 1 && all_digits_in(cs, 1, n) {
            Some((cs[0] == '-', 1))
        } else {
            None
        }
    } else {
        assert(cs@.subrange(0, n as int) == cs@);
        if all_digits_in(cs, 0, n) {
            Some((false, 0))
        } else {
            None
        }
    }
}

/// `s.parse::<i32>().ok()` on a character vector.
pub fn parse_i32_chars(cs: &[char]) -> (r: Option<i32>)
    ensures
        r == parse_i32(cs@),
{
    match int_shape(cs, true) {
        None => None,
        Some((neg, a)) => match digits_u64(cs, a, cs.len()) {
            None => None,
            Some(m) => {
                if neg {
                    if m <= 2147483648 {
                        Some((-(m as i64)) as i32)
                    } else {
                        None
                    }
                } else {
                    if m <= 2147483647 {
                        Some(m as i32)
                    } else {
                        None
                    }
                }
            },
        },
    }
}

/// `s.parse::<i64>().ok()` on a character vector.
pub fn parse_i64_chars(cs: &[char]) -> (r: Option<i64>)
    ensures
        r == parse_i64(cs@),
{
    match int_shape(cs, true) {
        None => None,
        Some((neg, a)) => match digits_u64(cs, a, cs.len()) {
            None => None,
            Some(m) => {
                if neg {
                    if m <= 9223372036854775808 {
                        if m == 9223372036854775808 {
                            Some(i64::MIN)
                        } else {
                            Some(-(m as i64))
                        }
                    } else {
                        None
                    }
                } else {
                    if m <= 9223372036854775807 {
                        Some(m as i64)
                    } else {
                        None
                    }
                }
            },
        },
    }
}

/// `s.parse::<u64>().ok()` on a character vector.
pub fn parse_u64_chars(cs: &[char]) -> (r: Option<u64>)
    ensures
        r == parse_u64(cs@),
{
    match int_shape(cs, false) {
        None => None,
        Some((neg, a)) => digits_u64(cs, a, cs.len()),
    }
}

// ---------------------------------------------------------------------------
// Case mapping
// ---------------------------------------------------------------------------

/// What `str::to_lowercase` returns for a string with these characters
/// (Unicode lowercase mapping, context-sensitive for final sigma).
pub uninterp spec fn lowercase(s: Seq<char>) -> Seq<char>;

/// `str::to_lowercase`; its result is named `lowercase` of the input.
#[verifier::external_body]
pub(crate) fn to_lowercase(s: &str) -> (r: String)
    ensures
        r@ == lowercase(s@),
{
    s.to_lowercase()
}

} // verus!

use vstd::prelude::*;

verus! {

/// A decimal digit.
pub open spec fn is_digit(c: char) -> bool {
    '0' <= c <= '9'
}

/// The characters of `s` in `[a, b)` are decimal digits.
pub open spec fn digits(s: Seq<char>, a: int, b: int) -> bool {
    forall|i: int| a <= i < b ==> #[trigger] is_digit(s[i])
}

/// The value of a digit.
pub open spec fn digit_value(c: char) -> int {
    (c as u32) as int - ('0' as u32) as int
}

/// The value of the two digits of `s` at `a`.
pub open spec fn num2(s: Seq<char>, a: int) -> int {
    digit_value(s[a]) * 10 + digit_value(s[a + 1])
}

/// The value of the four digits of `s` at `a`.
pub open spec fn num4(s: Seq<char>, a: int) -> int {
    num2(s, a) * 100 + num2(s, a + 2)
}

/// Leap years of the Gregorian calendar.
pub open spec fn is_leap(y: int) -> bool {
    y % 4 == 0 && (y % 100 != 0 || y % 400 == 0)
}

/// The number of days of month `m` (1 to 12) of year `y`.
pub open spec fn days_in_month(y: int, m: int) -> int {
    if m == 2 {
        if is_leap(y) {
            29
        } else {
            28
        }
    } else if m == 4 || m == 6 || m == 9 || m == 11 {
        30
    } else {
        31
    }
}

/// From `at` on, `s` is exactly a zone: `Z`, or a sign and `hh:mm`.
pub open spec fn is_zone(s: Seq<char>, at: int) -> bool {
    ||| (s.len() == at + 1 && (s[at] == 'Z' || s[at] == 'z'))
    ||| (s.len() == at + 6 && (s[at] == '+' || s[at] == '-') && digits(s, at + 1, at + 3)
        && s[at + 3] == ':' && digits(s, at + 4, at + 6) && num2(s, at + 1) <= 23 && num2(
        s,
        at + 4,
    ) <= 59)
}

/// `s` is an RFC 3339 date-time: `YYYY-MM-DDTHH:MM:SS`, an optional fraction
/// of a second, and a zone; the month, the day of that month, the time of
/// day (a leap second allowed) and the zone offset within their ranges.
pub open spec fn is_rfc3339(s: Seq<char>) -> bool {
    &&& s.len() >= 20
    &&& digits(s, 0, 4)
    &&& s[4] == '-'
    &&& digits(s, 5, 7)
    &&& s[7] == '-'
    &&& digits(s, 8, 10)
    &&& (s[10] == 'T' || s[10] == 't')
    &&& digits(s, 11, 13)
    &&& s[13] == ':'
    &&& digits(s, 14, 16)
    &&& s[16] == ':'
    &&& digits(s, 17, 19)
    &&& 1 <= num2(s, 5) <= 12
    &&& 1 <= num2(s, 8) <= days_in_month(num4(s, 0), num2(s, 5))
    &&& num2(s, 11) <= 23
    &&& num2(s, 14) <= 59
    &&& num2(s, 17) <= 60
    &&& (is_zone(s, 19) || (s[19] == '.' && exists|e: int|
        20 < e < s.len() && digits(s, 20, e) && #[trigger] is_zone(s, e)))
}

fn chars_of(s: &str) -> (r: Vec<char>)
    ensures
        r@ == s@,
{
    let n = s.unicode_len();
    let mut r: Vec<char> = Vec::new();
    let mut i: usize = 0;
    while i < n
        invariant
            n == s@.len(),
            i <= n,
            r@ == s@.subrange(0, i as int),
        decreases n - i,
    {
        r.push(s.get_char(i));
        i = i + 1;
        assert(r@ =~= s@.subrange(0, i as int));
    }
    assert(s@.subrange(0, n as int) =~= s@);
    r
}

fn digits_in(c: &Vec<char>, a: usize, b: usize) -> (r: bool)
    requires
        a <= b <= c@.len(),
    ensures
        r == digits(c@, a as int, b as int),
{
    let mut i = a;
    while i < b
        invariant
            a <= i <= b <= c@.len(),
            digits(c@, a as int, i as int),
        decreases b - i,
    {
        if !('0' <= c[i] && c[i] <= '9') {
            assert(!is_digit(c@[i as int]));
            return false;
        }
        i = i + 1;
    }
    true
}

fn num2_in(c: &Vec<char>, a: usize) -> (r: u32)
    requires
        a + 2 <= c.len(),
        digits(c@, a as int, a + 2),
    ensures
        r as int == num2(c@, a as int),
        r <= 99,
{
    assert(is_digit(c@[a as int]) && is_digit(c@[a + 1]));
    let hi = (c[a] as u32) - ('0' as u32);
    let lo = (c[a + 1] as u32) - ('0' as u32);
    hi * 10 + lo
}

fn days_in(y: u32, m: u32) -> (r: u32)
    ensures
        r as int == days_in_month(y as int, m as int),
{
    if m == 2 {
        if y % 4 == 0 && (y % 100 != 0 || y % 400 == 0) {
            29
        } else {
            28
        }
    } else if m == 4 || m == 6 || m == 9 || m == 11 {
        30
    } else {
        31
    }
}

fn zone_at(c: &Vec<char>, at: usize) -> (r: bool)
    requires
        at <= c@.len(),
    ensures
        r == is_zone(c@, at as int),
{
    let n = c.len();
    if n - at == 1 {
        c[at] == 'Z' || c[at] == 'z'
    } else if n - at == 6 {
        (c[at] == '+' || c[at] == '-') && digits_in(c, at + 1, at + 3) && c[at + 3] == ':'
            && digits_in(c, at + 4, at + 6) && num2_in(c, at + 1) <= 23 && num2_in(c, at + 4)
            <= 59
    } else {
        false
    }
}

/// Whether `s` is an RFC 3339 date-time.
pub fn check_timestamp(s: &str) -> (r: bool)
    ensures
        r == is_rfc3339(s@),
{
    let c = chars_of(s);
    let n = c.len();
    if n < 20 {
        return false;
    }
    let head = digits_in(&c, 0, 4) && c[4] == '-' && digits_in(&c, 5, 7) && c[7] == '-'
        && digits_in(&c, 8, 10) && (c[10] == 'T' || c[10] == 't') && digits_in(&c, 11, 13)
        && c[13] == ':' && digits_in(&c, 14, 16) && c[16] == ':' && digits_in(&c, 17, 19);
    if !head {
        return false;
    }
    let year = num2_in(&c, 0) * 100 + num2_in(&c, 2);
    let month = num2_in(&c, 5);
    let day = num2_in(&c, 8);
    if month < 1 || month > 12 || day < 1 || day > days_in(year, month) || num2_in(&c, 11) > 23
        || num2_in(&c, 14) > 59 || num2_in(&c, 17) > 60 {
        return false;
    }
    if zone_at(&c, 19) {
        return true;
    }
    if c[19] != '.' {
        return false;
    }
    let mut e: usize = 20;
    while e < n && '0' <= c[e] && c[e] <= '9'
        invariant
            20 <= e <= n,
            n == c@.len(),
            digits(c@, 20, e as int),
        decreases n - e,
    {
        e = e + 1;
    }
    let r = e > 20 && e < n && zone_at(&c, e);
    proof {
        if exists|f: int| 20 < f < c@.len() && digits(c@, 20, f) && #[trigger] is_zone(c@, f) {
            let f = choose|f: int| 20 < f < c@.len() && digits(c@, 20, f) && #[trigger] is_zone(
                c@,
                f,
            );
            assert(!is_digit(c@[f]));
            if f < e {
                assert(is_digit(c@[f]));
            }
            if e < f {
                assert(is_digit(c@[e as int]));
            }
            assert(e == f);
        }
    }
    r
}

} // verus!

//! Textual date formats: the RFC 3339 form used by the persistence records,
//! and the free-text due-date grammar accepted by the task editor.
//!
//! Text is handled as sequences of characters; conversion from and to
//! `String` happens outside the library.

use vstd::prelude::*;

use crate::calendar::{spec_add_days, ts_add_days, ts_valid, valid_date, Timestamp};

verus! {

#[verifier::opaque]
pub open spec fn spec_digit_val(c: char) -> int {
    if c == '0' {
        0
    } else if c == '1' {
        1
    } else if c == '2' {
        2
    } else if c == '3' {
        3
    } else if c == '4' {
        4
    } else if c == '5' {
        5
    } else if c == '6' {
        6
    } else if c == '7' {
        7
    } else if c == '8' {
        8
    } else if c == '9' {
        9
    } else {
        -1
    }
}

#[verifier::opaque]
pub open spec fn spec_digit_char(d: int) -> char {
    if d == 0 {
        '0'
    } else if d == 1 {
        '1'
    } else if d == 2 {
        '2'
    } else if d == 3 {
        '3'
    } else if d == 4 {
        '4'
    } else if d == 5 {
        '5'
    } else if d == 6 {
        '6'
    } else if d == 7 {
        '7'
    } else if d == 8 {
        '8'
    } else {
        '9'
    }
}

pub proof fn lemma_digit_round_trip(d: int)
    requires
        0 <= d <= 9,
    ensures
        spec_digit_val(spec_digit_char(d)) == d,
{
    reveal(spec_digit_char);
    reveal(spec_digit_val);
}

pub fn digit_char(d: u32) -> (c: char)
    requires
        d < 10,
    ensures
        c == spec_digit_char(d as int),
{
    proof {
        reveal(spec_digit_char);
    }
    match d {
        0 => '0',
        1 => '1',
        2 => '2',
        3 => '3',
        4 => '4',
        5 => '5',
        6 => '6',
        7 => '7',
        8 => '8',
        _ => '9',
    }
}

pub fn digit_val(c: char) -> (v: Option<u32>)
    ensures
        match v {
            Some(x) => x as int == spec_digit_val(c) && x < 10,
            None => spec_digit_val(c) == -1,
        },
{
    proof {
        reveal(spec_digit_val);
    }
    match c {
        '0' => Some(0),
        '1' => Some(1),
        '2' => Some(2),
        '3' => Some(3),
        '4' => Some(4),
        '5' => Some(5),
        '6' => Some(6),
        '7' => Some(7),
        '8' => Some(8),
        '9' => Some(9),
        _ => None,
    }
}

/// The value of the two digits at `i`, or -1 if either is not a digit.
pub open spec fn spec_digit2(s: Seq<char>, i: int) -> int {
    if spec_digit_val(s[i]) >= 0 && spec_digit_val(s[i + 1]) >= 0 {
        spec_digit_val(s[i]) * 10 + spec_digit_val(s[i + 1])
    } else {
        -1
    }
}

/// The value of the four digits at `i`, or -1 if any is not a digit.
pub open spec fn spec_digit4(s: Seq<char>, i: int) -> int {
    if spec_digit_val(s[i]) >= 0 && spec_digit_val(s[i + 1]) >= 0 && spec_digit_val(s[i + 2]) >= 0
        && spec_digit_val(s[i + 3]) >= 0 {
        ((spec_digit_val(s[i]) * 10 + spec_digit_val(s[i + 1])) * 10 + spec_digit_val(s[i + 2]))
            * 10 + spec_digit_val(s[i + 3])
    } else {
        -1
    }
}

pub fn read2(s: &Vec<char>, i: usize) -> (r: Option<u32>)
    requires
        i + 2 <= s@.len(),
    ensures
        match r {
            Some(x) => x as int == spec_digit2(s@, i as int) && x < 100,
            None => spec_digit2(s@, i as int) == -1,
        },
{
    let n = s.len();
    let a = digit_val(s[i]);
    let b = digit_val(s[i + 1]);
    match (a, b) {
        (Some(x), Some(y)) => Some(x * 10 + y),
        _ => None,
    }
}

pub fn read4(s: &Vec<char>, i: usize) -> (r: Option<u32>)
    requires
        i + 4 <= s@.len(),
    ensures
        match r {
            Some(x) => x as int == spec_digit4(s@, i as int) && x < 10000,
            None => spec_digit4(s@, i as int) == -1,
        },
{
    let n = s.len();
    let a = digit_val(s[i]);
    let b = digit_val(s[i + 1]);
    let c = digit_val(s[i + 2]);
    let d = digit_val(s[i + 3]);
    match (a, b, c, d) {
        (Some(x), Some(y), Some(z), Some(w)) => Some(((x * 10 + y) * 10 + z) * 10 + w),
        _ => None,
    }
}

/// The RFC 3339 rendering of `t`: `YYYY-MM-DDTHH:MM:SS+OO:OO`, with the
/// offset split into hours and minutes and signed by its direction.
pub open spec fn spec_format_rfc3339(t: Timestamp) -> Seq<char> {
    let y = t.year as int;
    let yr = y % 1000;
    let yr2 = yr % 100;
    let a = if t.offset_min >= 0 {
        t.offset_min as int
    } else {
        -(t.offset_min as int)
    };
    let oh = a / 60;
    let om = a % 60;
    seq![
        spec_digit_char(y / 1000),
        spec_digit_char(yr / 100),
        spec_digit_char(yr2 / 10),
        spec_digit_char(yr2 % 10),
        '-',
        spec_digit_char(t.month as int / 10),
        spec_digit_char(t.month as int % 10),
        '-',
        spec_digit_char(t.day as int / 10),
        spec_digit_char(t.day as int % 10),
        'T',
        spec_digit_char(t.hour as int / 10),
        spec_digit_char(t.hour as int % 10),
        ':',
        spec_digit_char(t.minute as int / 10),
        spec_digit_char(t.minute as int % 10),
        ':',
        spec_digit_char(t.second as int / 10),
        spec_digit_char(t.second as int % 10),
        if t.offset_min >= 0 {
            '+'
        } else {
            '-'
        },
        spec_digit_char(oh / 10),
        spec_digit_char(oh % 10),
        ':',
        spec_digit_char(om / 10),
        spec_digit_char(om % 10),
    ]
}

/// The first index at or past `i` that does not hold a digit, or the end
/// of the sequence.
pub open spec fn spec_digits_end(s: Seq<char>, i: int) -> int
    decreases s.len() - i,
{
    if i < 0 || i >= s.len() {
        s.len() as int
    } else if spec_digit_val(s[i]) >= 0 {
        spec_digits_end(s, i + 1)
    } else {
        i
    }
}

/// A UTC offset of the form `+HH:MM` or `-HH:MM` filling the rest of the
/// string from position `p`, in minutes.
pub open spec fn spec_parse_offset(s: Seq<char>, p: int) -> Option<i32> {
    if p + 6 != s.len() {
        None
    } else if !((s[p] == '+' || s[p] == '-') && s[p + 3] == ':') {
        None
    } else {
        let oh = spec_digit2(s, p + 1);
        let om = spec_digit2(s, p + 4);
        if 0 <= oh < 24 && 0 <= om < 60 {
            Some(
                if s[p] == '+' {
                    (oh * 60 + om) as i32
                } else {
                    (-(oh * 60 + om)) as i32
                },
            )
        } else {
            None
        }
    }
}

/// The timestamp named by an RFC 3339 string: the shape that
/// `spec_format_rfc3339` produces, with an optional fractional-seconds part
/// after the seconds, which is ignored; `None` for anything else.
pub open spec fn spec_parse_rfc3339(s: Seq<char>) -> Option<Timestamp> {
    if s.len() < 25 {
        None
    } else if !(s[4] == '-' && s[7] == '-' && s[10] == 'T' && s[13] == ':' && s[16] == ':') {
        None
    } else {
        let y = spec_digit4(s, 0);
        let mo = spec_digit2(s, 5);
        let d = spec_digit2(s, 8);
        let h = spec_digit2(s, 11);
        let mi = spec_digit2(s, 14);
        let sec = spec_digit2(s, 17);
        let p = if s[19] == '.' {
            if spec_digits_end(s, 20) > 20 {
                spec_digits_end(s, 20)
            } else {
                -1
            }
        } else {
            19int
        };
        if y < 0 || mo < 0 || d < 0 || h < 0 || mi < 0 || sec < 0 || p == -1 {
            None
        } else {
            match spec_parse_offset(s, p) {
                Some(off) => if valid_date(y, mo, d) && h < 24 && mi < 60 && sec < 60 {
                    Some(
                        Timestamp {
                            year: y as u32,
                            month: mo as u32,
                            day: d as u32,
                            hour: h as u32,
                            minute: mi as u32,
                            second: sec as u32,
                            offset_min: off,
                        },
                    )
                } else {
                    None
                },
                None => None,
            }
        }
    }
}

/// Appends the two decimal digits of `x`.
fn push_two_digits(r: &mut Vec<char>, x: u32)
    requires
        x < 100,
    ensures
        final(r)@ == old(r)@ + seq![
            spec_digit_char(x as int / 10),
            spec_digit_char(x as int % 10),
        ],
{
    r.push(digit_char(x / 10));
    r.push(digit_char(x % 10));
    proof {
        assert(final(r)@ =~= old(r)@ + seq![
            spec_digit_char(x as int / 10),
            spec_digit_char(x as int % 10),
        ]);
    }
}

#[verifier::rlimit(100)]
pub fn format_rfc3339(t: &Timestamp) -> (r: Vec<char>)
    requires
        ts_valid(*t),
    ensures
        r@ == spec_format_rfc3339(*t),
{
    let ghost f = spec_format_rfc3339(*t);
    let mut r: Vec<char> = Vec::new();
    let y = t.year;
    let yr = y % 1000;
    let yr2 = yr % 100;
    push_two_digits(&mut r, y / 100);
    proof {
        assert(y / 100 / 10 == y as int / 1000) by {
            assert(y / 100 / 10 == y / 1000) by (nonlinear_arith)
                requires
                    y < 10000,
            ;
        }
        assert(y / 100 % 10 == yr as int / 100) by {
            assert(y / 100 % 10 == y % 1000 / 100) by (nonlinear_arith)
                requires
                    y < 10000,
            ;
        }
        assert(r@ =~= f.take(2));
    }
    push_two_digits(&mut r, yr2);
    proof {
        assert(r@ =~= f.take(4));
    }
    r.push('-');
    push_two_digits(&mut r, t.month);
    proof {
        assert(r@ =~= f.take(7));
    }
    r.push('-');
    push_two_digits(&mut r, t.day);
    proof {
        assert(r@ =~= f.take(10));
    }
    r.push('T');
    push_two_digits(&mut r, t.hour);
    proof {
        assert(r@ =~= f.take(13));
    }
    r.push(':');
    push_two_digits(&mut r, t.minute);
    proof {
        assert(r@ =~= f.take(16));
    }
    r.push(':');
    push_two_digits(&mut r, t.second);
    proof {
        assert(r@ =~= f.take(19));
    }
    let a: u32 = if t.offset_min >= 0 {
        t.offset_min as u32
    } else {
        (-t.offset_min) as u32
    };
    r.push(if t.offset_min >= 0 {
        '+'
    } else {
        '-'
    });
    push_two_digits(&mut r, a / 60);
    proof {
        assert(r@ =~= f.take(22));
    }
    r.push(':');
    push_two_digits(&mut r, a % 60);
    proof {
        assert(r@ =~= f.take(25));
        assert(f.take(25) =~= f);
    }
    r
}

pub fn parse_rfc3339(s: &Vec<char>) -> (r: Option<Timestamp>)
    ensures
        r == spec_parse_rfc3339(s@),
        r matches Some(t) ==> ts_valid(t),
{
    let n = s.len();
    if n < 25 {
        return None;
    }
    if !(s[4] == '-' && s[7] == '-' && s[10] == 'T' && s[13] == ':' && s[16] == ':') {
        return None;
    }
    let y = match read4(s, 0) {
        Some(x) => x,
        None => {
            return None;
        },
    };
    let mo = match read2(s, 5) {
        Some(x) => x,
        None => {
            return None;
        },
    };
    let d = match read2(s, 8) {
        Some(x) => x,
        None => {
            return None;
        },
    };
    let h = match read2(s, 11) {
        Some(x) => x,
        None => {
            return None;
        },
    };
    let mi = match read2(s, 14) {
        Some(x) => x,
        None => {
            return None;
        },
    };
    let sec = match read2(s, 17) {
        Some(x) => x,
        None => {
            return None;
        },
    };
    let p: usize;
    if s[19] == '.' {
        let mut k: usize = 20;
        while k < n && digit_val(s[k]).is_some()
            invariant
                20 <= k <= n,
                n == s@.len(),
                spec_digits_end(s@, 20) == spec_digits_end(s@, k as int),
            decreases n - k,
        {
            k = k + 1;
        }
        if k == 20 {
            return None;
        }
        p = k;
    } else {
        p = 19;
    }
    if n - p != 6 {
        return None;
    }
    if !((s[p] == '+' || s[p] == '-') && s[p + 3] == ':') {
        return None;
    }
    let oh = match read2(s, p + 1) {
        Some(x) => x,
        None => {
            return None;
        },
    };
    let om = match read2(s, p + 4) {
        Some(x) => x,
        None => {
            return None;
        },
    };
    if !(oh < 24 && om < 60) {
        return None;
    }
    if !(1970 <= y && y <= 9999 && 1 <= mo && mo <= 12 && 1 <= d && d
        <= crate::calendar::days_in_month(y, mo) && h < 24 && mi < 60 && sec < 60) {
        return None;
    }
    let om_total: u32 = oh * 60 + om;
    Some(
        Timestamp {
            year: y,
            month: mo,
            day: d,
            hour: h,
            minute: mi,
            second: sec,
            offset_min: if s[p] == '+' {
                om_total as i32
            } else {
                -(om_total as i32)
            },
        },
    )
}

/// Formatting a supported timestamp and parsing the result gives the
/// timestamp back, field for field.
#[verifier::rlimit(60)]
pub proof fn lemma_rfc3339_round_trip(t: Timestamp)
    requires
        ts_valid(t),
    ensures
        spec_parse_rfc3339(spec_format_rfc3339(t)) == Some(t),
{
    let s = spec_format_rfc3339(t);
    let y = t.year as int;
    let yr = y % 1000;
    let yr2 = yr % 100;
    assert(y == (y / 1000) * 1000 + yr);
    assert(yr == (yr / 100) * 100 + yr2);
    assert(yr2 == (yr2 / 10) * 10 + yr2 % 10);
    lemma_digit_round_trip(y / 1000);
    lemma_digit_round_trip(yr / 100);
    lemma_digit_round_trip(yr2 / 10);
    lemma_digit_round_trip(yr2 % 10);
    lemma_digit_round_trip(t.month as int / 10);
    lemma_digit_round_trip(t.month as int % 10);
    lemma_digit_round_trip(t.day as int / 10);
    lemma_digit_round_trip(t.day as int % 10);
    lemma_digit_round_trip(t.hour as int / 10);
    lemma_digit_round_trip(t.hour as int % 10);
    lemma_digit_round_trip(t.minute as int / 10);
    lemma_digit_round_trip(t.minute as int % 10);
    lemma_digit_round_trip(t.second as int / 10);
    lemma_digit_round_trip(t.second as int % 10);
    assert(spec_digit4(s, 0) == y);
    assert(spec_digit2(s, 5) == t.month as int);
    assert(spec_digit2(s, 8) == t.day as int);
    assert(spec_digit2(s, 11) == t.hour as int);
    assert(spec_digit2(s, 14) == t.minute as int);
    assert(spec_digit2(s, 17) == t.second as int);
    let a = if t.offset_min >= 0 {
        t.offset_min as int
    } else {
        -(t.offset_min as int)
    };
    assert(a == (a / 60) * 60 + a % 60);
    lemma_digit_round_trip(a / 60 / 10);
    lemma_digit_round_trip(a / 60 % 10);
    lemma_digit_round_trip(a % 60 / 10);
    lemma_digit_round_trip(a % 60 % 10);
    assert(spec_digit2(s, 20) == a / 60);
    assert(spec_digit2(s, 23) == a % 60);
}

pub open spec fn spec_is_space(c: char) -> bool {
    c == ' ' || c == '\t' || c == '\n' || c == '\r'
}

pub open spec fn spec_trim_front(s: Seq<char>) -> Seq<char>
    decreases s.len(),
{
    if s.len() > 0 && spec_is_space(s[0]) {
        spec_trim_front(s.drop_first())
    } else {
        s
    }
}

pub open spec fn spec_trim_back(s: Seq<char>) -> Seq<char>
    decreases s.len(),
{
    if s.len() > 0 && spec_is_space(s.last()) {
        spec_trim_back(s.drop_last())
    } else {
        s
    }
}

/// `s` without leading and trailing whitespace.
pub open spec fn spec_trim(s: Seq<char>) -> Seq<char> {
    spec_trim_back(spec_trim_front(s))
}

pub fn is_space(c: char) -> (r: bool)
    ensures
        r == spec_is_space(c),
{
    c == ' ' || c == '\t' || c == '\n' || c == '\r'
}

pub fn trim_chars(v: &Vec<char>) -> (r: Vec<char>)
    ensures
        r@ == spec_trim(v@),
{
    let n = v.len();
    proof {
        assert(v@.skip(0) =~= v@);
    }
    let mut lo: usize = 0;
    while lo < n && is_space(v[lo])
        invariant
            lo <= n,
            n == v@.len(),
            spec_trim_front(v@) == spec_trim_front(v@.skip(lo as int)),
        decreases n - lo,
    {
        proof {
            assert(v@.skip(lo as int).drop_first() =~= v@.skip(lo as int + 1));
        }
        lo = lo + 1;
    }
    proof {
        if lo == n {
            assert(v@.skip(lo as int) =~= Seq::<char>::empty());
        }
        assert(spec_trim_front(v@) == v@.skip(lo as int));
        assert(v@.skip(lo as int) =~= v@.subrange(lo as int, n as int));
    }
    let mut hi: usize = n;
    while hi > lo && is_space(v[hi - 1])
        invariant
            lo <= hi <= n,
            n == v@.len(),
            spec_trim_back(v@.skip(lo as int)) == spec_trim_back(
                v@.subrange(lo as int, hi as int),
            ),
        decreases hi,
    {
        proof {
            assert(v@.subrange(lo as int, hi as int).drop_last() =~= v@.subrange(
                lo as int,
                hi as int - 1,
            ));
        }
        hi = hi - 1;
    }
    proof {
        assert(spec_trim(v@) == v@.subrange(lo as int, hi as int));
    }
    let mut r: Vec<char> = Vec::new();
    let mut i: usize = lo;
    while i < hi
        invariant
            lo <= i <= hi <= n,
            n == v@.len(),
            r@ == v@.subrange(lo as int, i as int),
        decreases hi - i,
    {
        r.push(v[i]);
        proof {
            assert(v@.subrange(lo as int, i as int).push(v@[i as int]) =~= v@.subrange(
                lo as int,
                i as int + 1,
            ));
        }
        i = i + 1;
    }
    r
}

/// Case-insensitive match of one character against a lower-case letter.
pub open spec fn spec_lower_eq(a: char, b: char) -> bool {
    a == b || (97 <= b as int <= 122 && a as int + 32 == b as int)
}

/// Case-insensitive match of `s` against a lower-case token `tok`.
pub open spec fn spec_token_eq(s: Seq<char>, tok: Seq<char>) -> bool {
    s.len() == tok.len() && (forall|i: int| 0 <= i < s.len() ==> spec_lower_eq(s[i], tok[i]))
}

pub fn lower_eq(a: char, b: char) -> (r: bool)
    ensures
        r == spec_lower_eq(a, b),
{
    a == b || (97 <= b as u32 && b as u32 <= 122 && a as u32 + 32 == b as u32)
}

pub fn token_eq_ci(s: &Vec<char>, tok: &Vec<char>) -> (r: bool)
    ensures
        r == spec_token_eq(s@, tok@),
{
    let n = s.len();
    if n != tok.len() {
        return false;
    }
    let mut i: usize = 0;
    while i < n
        invariant
            i <= n,
            n == s@.len() == tok@.len(),
            forall|j: int| 0 <= j < i ==> spec_lower_eq(s@[j], tok@[j]),
        decreases n - i,
    {
        if !lower_eq(s[i], tok[i]) {
            return false;
        }
        i = i + 1;
    }
    true
}

/// A date at positions 0..10 in the form `YYYY-MM-DD`, if valid.
pub open spec fn spec_ymd(s: Seq<char>) -> Option<(int, int, int)> {
    if s.len() != 10 {
        None
    } else if !(s[4] == '-' && s[7] == '-') {
        None
    } else {
        let y = spec_digit4(s, 0);
        let m = spec_digit2(s, 5);
        let d = spec_digit2(s, 8);
        if y >= 0 && m >= 0 && d >= 0 && valid_date(y, m, d) {
            Some((y, m, d))
        } else {
            None
        }
    }
}

/// A date at positions 0..10 in the form `MM/DD/YYYY`, if valid.
pub open spec fn spec_mdy(s: Seq<char>) -> Option<(int, int, int)> {
    if s.len() != 10 {
        None
    } else if !(s[2] == '/' && s[5] == '/') {
        None
    } else {
        let m = spec_digit2(s, 0);
        let d = spec_digit2(s, 3);
        let y = spec_digit4(s, 6);
        if y >= 0 && m >= 0 && d >= 0 && valid_date(y, m, d) {
            Some((y, m, d))
        } else {
            None
        }
    }
}

/// A date at positions 0..10 in the form `DD/MM/YYYY`, if valid.
pub open spec fn spec_dmy(s: Seq<char>) -> Option<(int, int, int)> {
    if s.len() != 10 {
        None
    } else if !(s[2] == '/' && s[5] == '/') {
        None
    } else {
        let d = spec_digit2(s, 0);
        let m = spec_digit2(s, 3);
        let y = spec_digit4(s, 6);
        if y >= 0 && m >= 0 && d >= 0 && valid_date(y, m, d) {
            Some((y, m, d))
        } else {
            None
        }
    }
}

/// The first of the three date forms that matches, in the order
/// year-month-day, month/day/year, day/month/year.
pub open spec fn spec_date10(s: Seq<char>) -> Option<(int, int, int)> {
    if spec_ymd(s) is Some {
        spec_ymd(s)
    } else if spec_mdy(s) is Some {
        spec_mdy(s)
    } else {
        spec_dmy(s)
    }
}

/// A time-of-day tail of the form ` HH:MM`, if valid.
pub open spec fn spec_hm_tail(s: Seq<char>) -> Option<(int, int)> {
    if s.len() != 6 {
        None
    } else if !(s[0] == ' ' && s[3] == ':') {
        None
    } else {
        let h = spec_digit2(s, 1);
        let mi = spec_digit2(s, 4);
        if 0 <= h < 24 && 0 <= mi < 60 {
            Some((h, mi))
        } else {
            None
        }
    }
}

/// `n` days after `now`, at 23:59:59, keeping the offset.
pub open spec fn spec_end_of_day(now: Timestamp, n: nat) -> Timestamp {
    let (y, m, d) = spec_add_days(now.year as int, now.month as int, now.day as int, n);
    Timestamp {
        year: y as u32,
        month: m as u32,
        day: d as u32,
        hour: 23,
        minute: 59,
        second: 59,
        offset_min: now.offset_min,
    }
}

/// The due date named by free-text input, after trimming: the relative
/// tokens `today`, `tomorrow`, `next week` and `next month` (case-
/// insensitive), or an absolute date in one of the three forms, optionally
/// followed by ` HH:MM`. Date-only input resolves to 23:59:59; `None` when
/// nothing matches.
pub open spec fn spec_parse_date_input(s: Seq<char>, now: Timestamp) -> Option<Timestamp> {
    let t = spec_trim(s);
    if spec_token_eq(t, seq!['t', 'o', 'd', 'a', 'y']) {
        Some(spec_end_of_day(now, 0))
    } else if spec_token_eq(t, seq!['t', 'o', 'm', 'o', 'r', 'r', 'o', 'w']) {
        Some(spec_end_of_day(now, 1))
    } else if spec_token_eq(t, seq!['n', 'e', 'x', 't', ' ', 'w', 'e', 'e', 'k']) {
        Some(spec_end_of_day(now, 7))
    } else if spec_token_eq(t, seq!['n', 'e', 'x', 't', ' ', 'm', 'o', 'n', 't', 'h']) {
        Some(spec_end_of_day(now, 30))
    } else if t.len() == 16 {
        match (spec_date10(t.take(10)), spec_hm_tail(t.skip(10))) {
            (Some((y, m, d)), Some((h, mi))) => Some(
                Timestamp {
                    year: y as u32,
                    month: m as u32,
                    day: d as u32,
                    hour: h as u32,
                    minute: mi as u32,
                    second: 0,
                    offset_min: now.offset_min,
                },
            ),
            _ => None,
        }
    } else if t.len() == 10 {
        match spec_date10(t) {
            Some((y, m, d)) => Some(
                Timestamp {
                    year: y as u32,
                    month: m as u32,
                    day: d as u32,
                    hour: 23,
                    minute: 59,
                    second: 59,
                    offset_min: now.offset_min,
                },
            ),
            None => None,
        }
    } else {
        None
    }
}

/// `n` days after `now` at one second before midnight.
pub fn end_of_day(now: &Timestamp, n: u32) -> (r: Timestamp)
    requires
        ts_valid(*now),
    ensures
        r == spec_end_of_day(*now, n as nat),
        ts_valid(r),
{
    let moved = ts_add_days(*now, n);
    Timestamp { hour: 23, minute: 59, second: 59, ..moved }
}

/// The first matching date form at positions 0..10, as concrete values.
fn parse_date10(t: &Vec<char>) -> (r: Option<(u32, u32, u32)>)
    ensures
        match r {
            Some(p) => spec_date10(t@) == Some((p.0 as int, p.1 as int, p.2 as int)) && valid_date(
                p.0 as int,
                p.1 as int,
                p.2 as int,
            ),
            None => spec_date10(t@) is None,
        },
{
    proof {
        reveal(spec_digit_val);
    }
    let n = t.len();
    if n != 10 {
        return None;
    }
    if t[4] == '-' && t[7] == '-' {
        let y = read4(t, 0);
        let m = read2(t, 5);
        let d = read2(t, 8);
        if let (Some(y), Some(m), Some(d)) = (y, m, d) {
            if 1970 <= y && y <= 9999 && 1 <= m && m <= 12 && 1 <= d && d
                <= crate::calendar::days_in_month(y, m) {
                return Some((y, m, d));
            }
        }
        return None;
    }
    if t[2] == '/' && t[5] == '/' {
        let a = read2(t, 0);
        let b = read2(t, 3);
        let y = read4(t, 6);
        if let (Some(a), Some(b), Some(y)) = (a, b, y) {
            if 1970 <= y && y <= 9999 && 1 <= a && a <= 12 && 1 <= b && b
                <= crate::calendar::days_in_month(y, a) {
                return Some((y, a, b));
            }
            if 1970 <= y && y <= 9999 && 1 <= b && b <= 12 && 1 <= a && a
                <= crate::calendar::days_in_month(y, b) {
                return Some((y, b, a));
            }
        }
        return None;
    }
    None
}

/// Parses free-text due-date input against `now`; see
/// `spec_parse_date_input` for the accepted grammar.
pub fn parse_date_input(input: &Vec<char>, now: &Timestamp) -> (r: Option<Timestamp>)
    requires
        ts_valid(*now),
    ensures
        r == spec_parse_date_input(input@, *now),
        r matches Some(t2) ==> ts_valid(t2),
{
    proof {
        crate::calendar::lemma_add_days_valid(
            now.year as int,
            now.month as int,
            now.day as int,
            30nat,
        );
    }
    let t = trim_chars(input);
    let today_tok: Vec<char> = vec!['t', 'o', 'd', 'a', 'y'];
    let tomorrow_tok: Vec<char> = vec!['t', 'o', 'm', 'o', 'r', 'r', 'o', 'w'];
    let next_week_tok: Vec<char> = vec!['n', 'e', 'x', 't', ' ', 'w', 'e', 'e', 'k'];
    let next_month_tok: Vec<char> = vec!['n', 'e', 'x', 't', ' ', 'm', 'o', 'n', 't', 'h'];
    if token_eq_ci(&t, &today_tok) {
        return Some(end_of_day(now, 0));
    }
    if token_eq_ci(&t, &tomorrow_tok) {
        return Some(end_of_day(now, 1));
    }
    if token_eq_ci(&t, &next_week_tok) {
        return Some(end_of_day(now, 7));
    }
    if token_eq_ci(&t, &next_month_tok) {
        return Some(end_of_day(now, 30));
    }
    let n = t.len();
    if n == 16 {
        let mut date_part: Vec<char> = Vec::new();
        let mut i: usize = 0;
        while i < 10
            invariant
                i <= 10,
                t@.len() == 16,
                date_part@ == t@.take(10).take(i as int),
            decreases 10 - i,
        {
            date_part.push(t[i]);
            proof {
                assert(t@.take(10).take(i as int).push(t@[i as int]) =~= t@.take(10).take(
                    i as int + 1,
                ));
            }
            i = i + 1;
        }
        proof {
            assert(date_part@ =~= t@.take(10));
        }
        let date = parse_date10(&date_part);
        if date.is_none() {
            return None;
        }
        if !(t[10] == ' ' && t[13] == ':') {
            return None;
        }
        let h = read2(&t, 11);
        let mi = read2(&t, 14);
        proof {
            assert(t@.skip(10)[0] == t@[10]);
            assert(t@.skip(10)[3] == t@[13]);
            assert(spec_digit2(t@.skip(10), 1) == spec_digit2(t@, 11));
            assert(spec_digit2(t@.skip(10), 4) == spec_digit2(t@, 14));
        }
        if let (Some((y, mo, d)), Some(h), Some(mi)) = (date, h, mi) {
            if h < 24 && mi < 60 {
                return Some(
                    Timestamp {
                        year: y,
                        month: mo,
                        day: d,
                        hour: h,
                        minute: mi,
                        second: 0,
                        offset_min: now.offset_min,
                    },
                );
            }
        }
        return None;
    }
    if n == 10 {
        let date = parse_date10(&t);
        if let Some((y, mo, d)) = date {
            return Some(
                Timestamp {
                    year: y,
                    month: mo,
                    day: d,
                    hour: 23,
                    minute: 59,
                    second: 59,
                    offset_min: now.offset_min,
                },
            );
        }
        return None;
    }
    None
}

} // verus!

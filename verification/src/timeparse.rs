//! Parsing and formatting of civil (wall-clock) timestamps.
//!
//! The ingestion path accepts four shapes, tried from the most to the least
//! precise: `YYYY-MM-DD HH:MM:SS`, `YYYY-MM-DD HH:MM`, `YYYY-MM-DD HH` and
//! `YYYY-MM-DD` (midnight). Numeric fields tolerate missing zero padding;
//! the shapes are mutually exclusive, so at most one applies. The result is
//! a civil date-time validated against the proleptic Gregorian calendar.
use vstd::prelude::*;

verus! {

/// Mathematical view of `Civil`.
pub ghost struct CivilV {
    pub year: int,
    pub month: int,
    pub day: int,
    pub hour: int,
    pub minute: int,
    pub second: int,
}

/// A civil (wall-clock) date and time, not yet anchored to a timezone.
#[derive(Debug, Clone, Copy, PartialEq, Eq, Structural)]
pub struct Civil {
    pub year: i32,
    pub month: u32,
    pub day: u32,
    pub hour: u32,
    pub minute: u32,
    pub second: u32,
}

impl View for Civil {
    type V = CivilV;

    open spec fn view(&self) -> CivilV {
        CivilV {
            year: self.year as int,
            month: self.month as int,
            day: self.day as int,
            hour: self.hour as int,
            minute: self.minute as int,
            second: self.second as int,
        }
    }
}

pub open spec fn is_digit(c: char) -> bool {
    '0' <= c && c <= '9'
}

pub open spec fn digit_val(c: char) -> int {
    (c as u32) as int - 48
}

/// The count of consecutive digits of `s` starting at `from`.
pub open spec fn digit_run(s: Seq<char>, from: int) -> int
    decreases s.len() - from,
{
    if from < 0 || from >= s.len() || !is_digit(s[from]) {
        0
    } else {
        1 + digit_run(s, from + 1)
    }
}

/// The decimal value of the digits `s[from..to)`.
pub open spec fn digits_val(s: Seq<char>, from: int, to: int) -> int
    decreases to - from,
{
    if to <= from {
        0
    } else {
        digits_val(s, from, to - 1) * 10 + digit_val(s[to - 1])
    }
}

pub open spec fn is_leap_year(y: int) -> bool {
    y % 4 == 0 && (y % 100 != 0 || y % 400 == 0)
}

/// The day count of month `m` of year `y` in the proleptic Gregorian
/// calendar.
pub open spec fn days_in_month(y: int, m: int) -> int {
    if m == 2 {
        if is_leap_year(y) {
            29
        } else {
            28
        }
    } else if m == 4 || m == 6 || m == 9 || m == 11 {
        30
    } else {
        31
    }
}

/// Field validity of a civil date-time: a real calendar date of years
/// 0 through 9999 and a real time of day.
pub open spec fn civil_fields_valid(c: CivilV) -> bool {
    &&& 0 <= c.year <= 9999
    &&& 1 <= c.month <= 12
    &&& 1 <= c.day <= days_in_month(c.year, c.month)
    &&& 0 <= c.hour <= 23
    &&& 0 <= c.minute <= 59
    &&& 0 <= c.second <= 59
}

pub open spec fn checked_civil(y: int, mo: int, d: int, h: int, mi: int, se: int) -> Option<
    CivilV,
> {
    let c = CivilV { year: y, month: mo, day: d, hour: h, minute: mi, second: se };
    if civil_fields_valid(c) {
        Some(c)
    } else {
        None
    }
}

/// What a timestamp string parses to: the unique format among the four
/// accepted shapes that matches, field-validated; `None` when no shape
/// matches or a field is out of range.
pub open spec fn parse_civil_spec(s: Seq<char>) -> Option<CivilV> {
    let yl = digit_run(s, 0);
    if yl < 1 || yl > 4 || yl >= s.len() || s[yl] != '-' {
        None
    } else {
        let ms = yl + 1;
        let ml = digit_run(s, ms);
        if ml < 1 || ml > 2 || ms + ml >= s.len() || s[ms + ml] != '-' {
            None
        } else {
            let ds = ms + ml + 1;
            let dl = digit_run(s, ds);
            if dl < 1 || dl > 2 {
                None
            } else {
                let y = digits_val(s, 0, yl);
                let mo = digits_val(s, ms, ms + ml);
                let d = digits_val(s, ds, ds + dl);
                let de = ds + dl;
                if de == s.len() {
                    checked_civil(y, mo, d, 0, 0, 0)
                } else if s[de] != ' ' {
                    None
                } else {
                    let hs = de + 1;
                    let hl = digit_run(s, hs);
                    if hl < 1 || hl > 2 {
                        None
                    } else {
                        let h = digits_val(s, hs, hs + hl);
                        let he = hs + hl;
                        if he == s.len() {
                            checked_civil(y, mo, d, h, 0, 0)
                        } else if s[he] != ':' {
                            None
                        } else {
                            let ns = he + 1;
                            let nl = digit_run(s, ns);
                            if nl < 1 || nl > 2 {
                                None
                            } else {
                                let mi = digits_val(s, ns, ns + nl);
                                let ne = ns + nl;
                                if ne == s.len() {
                                    checked_civil(y, mo, d, h, mi, 0)
                                } else if s[ne] != ':' {
                                    None
                                } else {
                                    let es = ne + 1;
                                    let el = digit_run(s, es);
                                    if el < 1 || el > 2 || es + el != s.len() {
                                        None
                                    } else {
                                        checked_civil(y, mo, d, h, mi, digits_val(s, es, es + el))
                                    }
                                }
                            }
                        }
                    }
                }
            }
        }
    }
}

proof fn lemma_digit_run_is(s: Seq<char>, from: int, to: int)
    requires
        0 <= from <= to <= s.len(),
        forall|k: int| from <= k < to ==> is_digit(s[k]),
        to == s.len() || !is_digit(s[to]),
    ensures
        digit_run(s, from) == to - from,
    decreases to - from,
{
    if from < to {
        lemma_digit_run_is(s, from + 1, to);
    }
}

pub open spec fn pow10(n: nat) -> int
    decreases n,
{
    if n == 0 {
        1
    } else {
        10 * pow10((n - 1) as nat)
    }
}

proof fn lemma_digits_val_bound(s: Seq<char>, from: int, to: int)
    requires
        0 <= from <= to <= s.len(),
        forall|k: int| from <= k < to ==> is_digit(s[k]),
    ensures
        0 <= digits_val(s, from, to) < pow10((to - from) as nat),
    decreases to - from,
{
    if from < to {
        lemma_digits_val_bound(s, from, to - 1);
    }
}

/// Counts the consecutive ASCII digits of `s` starting at `from`.
fn scan_digits(s: &str, from: usize, len: usize) -> (r: usize)
    requires
        from <= len,
        len == s@.len(),
    ensures
        r as int == digit_run(s@, from as int),
        from + r <= len,
        forall|k: int| from <= k < from + r ==> is_digit(s@[k]),
{
    let mut i: usize = from;
    while i < len
        invariant
            from <= i <= len,
            len == s@.len(),
            forall|k: int| from <= k < i ==> is_digit(s@[k]),
        decreases len - i,
    {
        let c = s.get_char(i);
        let u = c as u32;
        if !(48 <= u && u <= 57) {
            proof {
                lemma_digit_run_is(s@, from as int, i as int);
            }
            return i - from;
        }
        i += 1;
    }
    proof {
        lemma_digit_run_is(s@, from as int, len as int);
    }
    len - from
}

/// Reads the decimal value of the digits `s[from..to)` (at most four).
fn read_val(s: &str, from: usize, to: usize) -> (r: u32)
    requires
        from <= to <= s@.len(),
        to - from <= 4,
        forall|k: int| from <= k < to ==> is_digit(s@[k]),
    ensures
        r as int == digits_val(s@, from as int, to as int),
        r < 10000,
{
    proof {
        assert(pow10(0) == 1);
        assert(pow10(1) == 10);
        assert(pow10(2) == 100);
        assert(pow10(3) == 1000);
        assert(pow10(4) == 10000);
    }
    let mut i: usize = from;
    let mut v: u32 = 0;
    while i < to
        invariant
            from <= i <= to <= s@.len(),
            to - from <= 4,
            forall|k: int| from <= k < to ==> is_digit(s@[k]),
            v as int == digits_val(s@, from as int, i as int),
            v < pow10((i - from) as nat),
            pow10((i - from) as nat) <= 10000,
        decreases to - i,
    {
        proof {
            assert(pow10(((i + 1) - from) as nat) == 10 * pow10((i - from) as nat));
            assert(pow10(((i + 1) - from) as nat) <= 10000) by {
                assert((i + 1) - from <= 4);
                assert(pow10(0) == 1);
                assert(pow10(1) == 10);
                assert(pow10(2) == 100);
                assert(pow10(3) == 1000);
                assert(pow10(4) == 10000);
            }
        }
        let c = s.get_char(i);
        let u = c as u32;
        v = v * 10 + (u - 48);
        i += 1;
    }
    proof {
        assert(pow10((to - from) as nat) <= 10000) by {
            assert(pow10(0) == 1);
            assert(pow10(1) == 10);
            assert(pow10(2) == 100);
            assert(pow10(3) == 1000);
            assert(pow10(4) == 10000);
        }
    }
    v
}

pub fn days_in_month_exec(y: i32, m: u32) -> (r: u32)
    requires
        0 <= y,
    ensures
        r as int == days_in_month(y as int, m as int),
{
    if m == 2 {
        if y % 4 == 0 && (y % 100 != 0 || y % 400 == 0) {
            29
        } else {
            28
        }
    } else if m == 4 || m == 6 || m == 9 || m == 11 {
        30
    } else {
        31
    }
}

fn checked_civil_exec(y: u32, mo: u32, d: u32, h: u32, mi: u32, se: u32) -> (r: Option<Civil>)
    requires
        y < 10000,
        mo < 10000,
        d < 10000,
        h < 10000,
        mi < 10000,
        se < 10000,
    ensures
        ({
            let spec = checked_civil(y as int, mo as int, d as int, h as int, mi as int, se as int);
            match r {
                Some(c) => spec == Some(c@),
                None => spec is None,
            }
        }),
{
    let year: i32 = y as i32;
    if !(1 <= mo && mo <= 12) {
        return None;
    }
    if !(1 <= d && d <= days_in_month_exec(year, mo)) {
        return None;
    }
    if !(h <= 23 && mi <= 59 && se <= 59) {
        return None;
    }
    Some(Civil { year, month: mo, day: d, hour: h, minute: mi, second: se })
}

/// Parses a timestamp string into a civil date-time, accepting the four
/// shapes described at the top of this module.
pub fn parse_civil(s: &str) -> (r: Option<Civil>)
    ensures
        match r {
            Some(c) => parse_civil_spec(s@) == Some(c@),
            None => parse_civil_spec(s@) is None,
        },
{
    let len = s.unicode_len();
    let yl = scan_digits(s, 0, len);
    if yl < 1 || yl > 4 || yl >= len || s.get_char(yl) != '-' {
        return None;
    }
    let ms = yl + 1;
    let ml = scan_digits(s, ms, len);
    if ml < 1 || ml > 2 || ms + ml >= len || s.get_char(ms + ml) != '-' {
        return None;
    }
    let ds = ms + ml + 1;
    let dl = scan_digits(s, ds, len);
    if dl < 1 || dl > 2 {
        return None;
    }
    let y = read_val(s, 0, yl);
    let mo = read_val(s, ms, ms + ml);
    let d = read_val(s, ds, ds + dl);
    let de = ds + dl;
    if de == len {
        return checked_civil_exec(y, mo, d, 0, 0, 0);
    }
    if s.get_char(de) != ' ' {
        return None;
    }
    let hs = de + 1;
    let hl = scan_digits(s, hs, len);
    if hl < 1 || hl > 2 {
        return None;
    }
    let h = read_val(s, hs, hs + hl);
    let he = hs + hl;
    if he == len {
        return checked_civil_exec(y, mo, d, h, 0, 0);
    }
    if s.get_char(he) != ':' {
        return None;
    }
    let ns = he + 1;
    let nl = scan_digits(s, ns, len);
    if nl < 1 || nl > 2 {
        return None;
    }
    let mi = read_val(s, ns, ns + nl);
    let ne = ns + nl;
    if ne == len {
        return checked_civil_exec(y, mo, d, h, mi, 0);
    }
    if s.get_char(ne) != ':' {
        return None;
    }
    let es = ne + 1;
    let el = scan_digits(s, es, len);
    if el < 1 || el > 2 || es + el != len {
        return None;
    }
    let se = read_val(s, es, es + el);
    checked_civil_exec(y, mo, d, h, mi, se)
}

/// The character of one decimal digit.
pub open spec fn digit_char(v: int) -> char {
    ((48 + v) as u32) as char
}

/// Two zero-padded decimal digits.
pub open spec fn two_digits(v: int) -> Seq<char> {
    seq![digit_char(v / 10), digit_char(v % 10)]
}

/// Four zero-padded decimal digits.
pub open spec fn four_digits(v: int) -> Seq<char> {
    seq![
        digit_char(v / 1000),
        digit_char((v / 100) % 10),
        digit_char((v / 10) % 10),
        digit_char(v % 10),
    ]
}

/// The full-precision rendering `YYYY-MM-DD HH:MM:SS` of a civil time.
pub open spec fn format_civil_spec(c: CivilV) -> Seq<char> {
    four_digits(c.year) + seq!['-'] + two_digits(c.month) + seq!['-'] + two_digits(c.day)
        + seq![' '] + two_digits(c.hour) + seq![':'] + two_digits(c.minute) + seq![':']
        + two_digits(c.second)
}

fn digit_char_exec(d: u32) -> (c: char)
    requires
        d < 10,
    ensures
        c == digit_char(d as int),
{
    match d {
        0 => '0',
        1 => '1',
        2 => '2',
        3 => '3',
        4 => '4',
        5 => '5',
        6 => '6',
        7 => '7',
        8 => '8',
        _ => '9',
    }
}

/// Renders a civil time with full precision, zero-padded.
pub fn format_civil(c: &Civil) -> (r: String)
    requires
        civil_fields_valid(c@),
    ensures
        r@ == format_civil_spec(c@),
{
    let y = c.year as u32;
    let mut s = String::new();
    crate::text::push_char(&mut s, digit_char_exec(y / 1000));
    crate::text::push_char(&mut s, digit_char_exec((y / 100) % 10));
    crate::text::push_char(&mut s, digit_char_exec((y / 10) % 10));
    crate::text::push_char(&mut s, digit_char_exec(y % 10));
    crate::text::push_char(&mut s, '-');
    crate::text::push_char(&mut s, digit_char_exec(c.month / 10));
    crate::text::push_char(&mut s, digit_char_exec(c.month % 10));
    crate::text::push_char(&mut s, '-');
    crate::text::push_char(&mut s, digit_char_exec(c.day / 10));
    crate::text::push_char(&mut s, digit_char_exec(c.day % 10));
    crate::text::push_char(&mut s, ' ');
    crate::text::push_char(&mut s, digit_char_exec(c.hour / 10));
    crate::text::push_char(&mut s, digit_char_exec(c.hour % 10));
    crate::text::push_char(&mut s, ':');
    crate::text::push_char(&mut s, digit_char_exec(c.minute / 10));
    crate::text::push_char(&mut s, digit_char_exec(c.minute % 10));
    crate::text::push_char(&mut s, ':');
    crate::text::push_char(&mut s, digit_char_exec(c.second / 10));
    crate::text::push_char(&mut s, digit_char_exec(c.second % 10));
    proof {
        assert(s@ =~= format_civil_spec(c@));
    }
    s
}

proof fn lemma_digit_char(d: int)
    requires
        0 <= d <= 9,
    ensures
        is_digit(digit_char(d)),
        digit_val(digit_char(d)) == d,
{
}

/// Re-parsing the full-precision rendering of a valid civil time gives
/// back exactly that civil time: the timestamp grammar inverts the
/// formatter on every valid value.
pub proof fn lemma_civil_format_round_trip(c: CivilV)
    requires
        civil_fields_valid(c),
    ensures
        parse_civil_spec(format_civil_spec(c)) == Some(c),
{
    let s = format_civil_spec(c);
    assert(s =~= seq![
        digit_char(c.year / 1000),
        digit_char((c.year / 100) % 10),
        digit_char((c.year / 10) % 10),
        digit_char(c.year % 10),
        '-',
        digit_char(c.month / 10),
        digit_char(c.month % 10),
        '-',
        digit_char(c.day / 10),
        digit_char(c.day % 10),
        ' ',
        digit_char(c.hour / 10),
        digit_char(c.hour % 10),
        ':',
        digit_char(c.minute / 10),
        digit_char(c.minute % 10),
        ':',
        digit_char(c.second / 10),
        digit_char(c.second % 10),
    ]);
    assert forall|d: int| 0 <= d <= 9 implies is_digit(#[trigger] digit_char(d))
        && digit_val(digit_char(d)) == d by {
        lemma_digit_char(d);
    }
    lemma_digit_run_is(s, 0, 4);
    lemma_digit_run_is(s, 5, 7);
    lemma_digit_run_is(s, 8, 10);
    lemma_digit_run_is(s, 11, 13);
    lemma_digit_run_is(s, 14, 16);
    lemma_digit_run_is(s, 17, 19);
    assert(digits_val(s, 0, 4) == c.year) by {
        assert(digits_val(s, 0, 0) == 0);
        assert(digits_val(s, 0, 1) == c.year / 1000);
        assert(digits_val(s, 0, 2) == (c.year / 1000) * 10 + (c.year / 100) % 10);
        assert(digits_val(s, 0, 3) == digits_val(s, 0, 2) * 10 + (c.year / 10) % 10);
        assert(digits_val(s, 0, 4) == digits_val(s, 0, 3) * 10 + c.year % 10);
    }
    assert(digits_val(s, 5, 7) == c.month) by {
        assert(digits_val(s, 5, 5) == 0);
        assert(digits_val(s, 5, 6) == c.month / 10);
    }
    assert(digits_val(s, 8, 10) == c.day) by {
        assert(digits_val(s, 8, 8) == 0);
        assert(digits_val(s, 8, 9) == c.day / 10);
    }
    assert(digits_val(s, 11, 13) == c.hour) by {
        assert(digits_val(s, 11, 11) == 0);
        assert(digits_val(s, 11, 12) == c.hour / 10);
    }
    assert(digits_val(s, 14, 16) == c.minute) by {
        assert(digits_val(s, 14, 14) == 0);
        assert(digits_val(s, 14, 15) == c.minute / 10);
    }
    assert(digits_val(s, 17, 19) == c.second) by {
        assert(digits_val(s, 17, 17) == 0);
        assert(digits_val(s, 17, 18) == c.second / 10);
    }
    assert(parse_civil_spec(s) == Some(c));
}

} // verus!

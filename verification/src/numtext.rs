//! Decimal rendering and parsing of integers.
use vstd::prelude::*;

use crate::timeparse::{digit_char, digit_val, digits_val, is_digit};

verus! {

/// The decimal digits of a non-negative integer, most significant first.
pub open spec fn nat_digits(n: int) -> Seq<char>
    decreases n,
{
    if n < 10 {
        seq![digit_char(if n < 0 { 0 } else { n })]
    } else {
        nat_digits(n / 10).push(digit_char(n % 10))
    }
}

/// The canonical decimal rendering of an integer.
pub open spec fn int_chars(i: int) -> Seq<char> {
    if i < 0 {
        seq!['-'] + nat_digits(-i)
    } else {
        nat_digits(i)
    }
}

/// What a decimal string denotes: an optional leading `-` or `+` sign
/// followed by one or more digits and nothing else; `None` for any other
/// shape.
pub open spec fn parse_int_spec(s: Seq<char>) -> Option<int> {
    if s.len() > 0 && (s[0] == '-' || s[0] == '+') {
        let d = s.subrange(1, s.len() as int);
        if d.len() > 0 && (forall|k: int| 0 <= k < d.len() ==> is_digit(d[k])) {
            if s[0] == '-' {
                Some(-digits_val(d, 0, d.len() as int))
            } else {
                Some(digits_val(d, 0, d.len() as int))
            }
        } else {
            None
        }
    } else {
        if s.len() > 0 && (forall|k: int| 0 <= k < s.len() ==> is_digit(s[k])) {
            Some(digits_val(s, 0, s.len() as int))
        } else {
            None
        }
    }
}

proof fn lemma_digits_val_nonneg(s: Seq<char>, from: int, to: int)
    requires
        0 <= from <= to <= s.len(),
        forall|k: int| from <= k < to ==> is_digit(s[k]),
    ensures
        digits_val(s, from, to) >= 0,
    decreases to - from,
{
    if from < to {
        lemma_digits_val_nonneg(s, from, to - 1);
    }
}

proof fn lemma_digits_val_mono(s: Seq<char>, upto: int, j: int)
    requires
        0 <= j <= upto <= s.len(),
        forall|k: int| 0 <= k < upto ==> is_digit(s[k]),
    ensures
        digits_val(s, 0, upto) >= digits_val(s, 0, j),
    decreases upto - j,
{
    if j < upto {
        lemma_digits_val_mono(s, upto, j + 1);
        lemma_digits_val_nonneg(s, 0, j);
        assert(digits_val(s, 0, j + 1) == digits_val(s, 0, j) * 10 + digit_val(s[j]));
    }
}

/// Once the value of a digit prefix alone exceeds `i64::MAX / 10`, or
/// equals it with a next digit above 8, the full digit string exceeds
/// `i64::MAX` in magnitude.
proof fn lemma_parse_overflow(s: Seq<char>, j: int, v: int, dv: int)
    requires
        0 <= j < s.len(),
        forall|k: int| 0 <= k <= j ==> is_digit(s[k]),
        v == digits_val(s, 0, j),
        dv == digit_val(s[j]),
        v > 922_337_203_685_477_580 || (v == 922_337_203_685_477_580 && dv > 8),
    ensures
        (forall|k: int| 0 <= k < s.len() ==> is_digit(s[k])) ==> digits_val(
            s,
            0,
            s.len() as int,
        ) > 0x8000_0000_0000_0000,
{
    if forall|k: int| 0 <= k < s.len() ==> is_digit(s[k]) {
        lemma_digits_val_mono(s, s.len() as int, j + 1);
        assert(digits_val(s, 0, j + 1) == v * 10 + dv);
        assert(0 <= dv <= 9);
    }
}

/// Parses a decimal string as `i64`, rejecting values out of range.
pub fn parse_i64(s: &str) -> (r: Option<i64>)
    ensures
        match r {
            Some(v) => parse_int_spec(s@) == Some(v as int),
            None => (match parse_int_spec(s@) {
                Some(n) => n < i64::MIN || n > i64::MAX,
                None => true,
            }),
        },
{
    let len = s.unicode_len();
    let neg = len > 0 && s.get_char(0) == '-';
    let plus = len > 0 && s.get_char(0) == '+';
    let signed = neg || plus;
    let start: usize = if signed { 1 } else { 0 };
    let ghost d = if signed { s@.subrange(1, s@.len() as int) } else { s@ };
    if len == start {
        return None;
    }
    let mut i: usize = start;
    let mut v: u64 = 0;
    while i < len
        invariant
            start <= i <= len,
            len == s@.len(),
            len > start,
            signed == (neg || plus),
            start == (if signed { 1int } else { 0int }),
            neg == (s@[0] == '-'),
            plus == (s@[0] == '+'),
            d == (if signed { s@.subrange(1, s@.len() as int) } else { s@ }),
            d.len() == len - start,
            forall|k: int| 0 <= k < i - start ==> is_digit(d[k]),
            v as int == digits_val(d, 0, i - start),
            v <= 0x8000_0000_0000_0000u64,
        decreases len - i,
    {
        let c = s.get_char(i);
        let u = c as u32;
        proof {
            assert(d[i - start] == s@[i as int]);
        }
        if !(48 <= u && u <= 57) {
            proof {
                assert(!is_digit(d[i - start]));
                if signed {
                    let dd = s@.subrange(1, s@.len() as int);
                    assert(!is_digit(dd[i - 1]));
                    assert(!(forall|k: int| 0 <= k < dd.len() ==> is_digit(dd[k])));
                } else {
                    assert(!is_digit(s@[i as int]));
                    assert(!(forall|k: int| 0 <= k < s@.len() ==> is_digit(s@[k])));
                }
                assert(parse_int_spec(s@) is None);
            }
            return None;
        }
        let dv = (u - 48) as u64;
        if v > 922_337_203_685_477_580 || (v == 922_337_203_685_477_580 && dv > 8) {
            proof {
                lemma_parse_overflow(d, i - start, v as int, dv as int);
                match parse_int_spec(s@) {
                    Some(n) => {
                        if neg {
                            let dd = s@.subrange(1, s@.len() as int);
                            assert(forall|k: int| 0 <= k < dd.len() ==> is_digit(dd[k]));
                            assert(dd == d);
                            assert(n == -digits_val(dd, 0, dd.len() as int));
                            assert(digits_val(d, 0, d.len() as int) > 0x8000_0000_0000_0000);
                            assert(n < i64::MIN);
                        } else if plus {
                            let dd = s@.subrange(1, s@.len() as int);
                            assert(forall|k: int| 0 <= k < dd.len() ==> is_digit(dd[k]));
                            assert(dd == d);
                            assert(n == digits_val(dd, 0, dd.len() as int));
                            assert(n > i64::MAX);
                        } else {
                            assert(forall|k: int| 0 <= k < s@.len() ==> is_digit(s@[k]));
                            assert(n == digits_val(s@, 0, s@.len() as int));
                            assert(n > i64::MAX);
                        }
                    },
                    None => {},
                }
            }
            return None;
        }
        v = v * 10 + dv;
        i += 1;
    }
    proof {
        assert(i - start == d.len());
        lemma_digits_val_nonneg(d, 0, d.len() as int);
    }
    if neg {
        if v == 0x8000_0000_0000_0000u64 {
            Some(i64::MIN)
        } else {
            Some(-(v as i64))
        }
    } else {
        if v > 0x7FFF_FFFF_FFFF_FFFFu64 {
            None
        } else {
            Some(v as i64)
        }
    }
}

/// Parses a decimal string as `i32`, rejecting values out of range.
pub fn parse_i32(s: &str) -> (r: Option<i32>)
    ensures
        match r {
            Some(v) => parse_int_spec(s@) == Some(v as int),
            None => (match parse_int_spec(s@) {
                Some(n) => n < i32::MIN || n > i32::MAX,
                None => true,
            }),
        },
{
    match parse_i64(s) {
        Some(v) => {
            if -2147483648 <= v && v <= 2147483647 {
                Some(v as i32)
            } else {
                None
            }
        },
        None => None,
    }
}

fn digit_char_of(dv: u32) -> (c: char)
    requires
        dv < 10,
    ensures
        c == digit_char(dv as int),
{
    match dv {
        0 => '0',
        1 => '1',
        2 => '2',
        3 => '3',
        4 => '4',
        5 => '5',
        6 => '6',
        7 => '7',
        8 => '8',
        _ => '9',
    }
}

/// Renders an integer in decimal.
pub fn i64_to_string(v: i64) -> (r: String)
    ensures
        r@ == int_chars(v as int),
{
    let neg = v < 0;
    let mut mag: u64 = if v < 0 {
        (-(v + 1)) as u64 + 1
    } else {
        v as u64
    };
    let ghost total: int = mag as int;
    let mut rev: Vec<char> = Vec::new();
    while mag >= 10
        invariant
            total >= 0,
            nat_digits(total) == nat_digits(mag as int) + rev@.reverse(),
        decreases mag,
    {
        let c = digit_char_of((mag % 10) as u32);
        proof {
            let m = mag as int;
            assert(nat_digits(m) == nat_digits(m / 10).push(digit_char(m % 10)));
            assert(rev@.push(c).reverse() =~= seq![c] + rev@.reverse());
            assert(nat_digits(m / 10) + (rev@.push(c).reverse()) =~= nat_digits(m)
                + rev@.reverse());
        }
        rev.push(c);
        mag = mag / 10;
    }
    let c = digit_char_of(mag as u32);
    proof {
        assert(nat_digits(mag as int) =~= seq![c]);
        assert(rev@.push(c).reverse() =~= seq![c] + rev@.reverse());
        assert(nat_digits(mag as int) + rev@.reverse() =~= rev@.push(c).reverse());
    }
    rev.push(c);
    let ghost digits = nat_digits(total);
    proof {
        assert(rev@.reverse() == digits);
        assert(rev@.len() == digits.len());
    }
    let mut out = String::new();
    let ghost prefix: Seq<char> = if neg { seq!['-'] } else { Seq::<char>::empty() };
    if neg {
        crate::text::push_char(&mut out, '-');
    }
    proof {
        assert(out@ =~= prefix + rev@.reverse().take(0));
    }
    let mut k: usize = rev.len();
    while k > 0
        invariant
            k <= rev@.len(),
            rev@.reverse() == digits,
            out@ == prefix + rev@.reverse().take(rev@.len() - k),
        decreases k,
    {
        k -= 1;
        let c2 = rev[k];
        proof {
            assert(rev@.reverse()[rev@.len() - 1 - k] == rev@[k as int]);
            assert(rev@.reverse().take(rev@.len() - k) =~= rev@.reverse().take(
                rev@.len() - (k + 1),
            ).push(rev@[k as int]));
        }
        crate::text::push_char(&mut out, c2);
    }
    proof {
        assert(rev@.reverse().take(rev@.len() as int) =~= rev@.reverse());
        assert(out@ =~= prefix + digits);
        assert(out@ =~= int_chars(v as int));
    }
    out
}

/// Renders an unsigned integer in decimal.
pub fn u64_to_string(v: u64) -> (r: String)
    ensures
        r@ == int_chars(v as int),
{
    let mut mag: u64 = v;
    let ghost total: int = mag as int;
    let mut rev: Vec<char> = Vec::new();
    while mag >= 10
        invariant
            total >= 0,
            nat_digits(total) == nat_digits(mag as int) + rev@.reverse(),
        decreases mag,
    {
        let c = digit_char_of((mag % 10) as u32);
        proof {
            let m = mag as int;
            assert(nat_digits(m) == nat_digits(m / 10).push(digit_char(m % 10)));
            assert(rev@.push(c).reverse() =~= seq![c] + rev@.reverse());
            assert(nat_digits(m / 10) + (rev@.push(c).reverse()) =~= nat_digits(m)
                + rev@.reverse());
        }
        rev.push(c);
        mag = mag / 10;
    }
    let c = digit_char_of(mag as u32);
    proof {
        assert(nat_digits(mag as int) =~= seq![c]);
        assert(rev@.push(c).reverse() =~= seq![c] + rev@.reverse());
        assert(nat_digits(mag as int) + rev@.reverse() =~= rev@.push(c).reverse());
    }
    rev.push(c);
    let ghost digits = nat_digits(total);
    proof {
        assert(rev@.reverse() == digits);
        assert(rev@.len() == digits.len());
    }
    let mut out = String::new();
    proof {
        assert(out@ =~= rev@.reverse().take(0));
    }
    let mut k: usize = rev.len();
    while k > 0
        invariant
            k <= rev@.len(),
            rev@.reverse() == digits,
            out@ == rev@.reverse().take(rev@.len() - k),
        decreases k,
    {
        k -= 1;
        let c2 = rev[k];
        proof {
            assert(rev@.reverse()[rev@.len() - 1 - k] == rev@[k as int]);
            assert(rev@.reverse().take(rev@.len() - k) =~= rev@.reverse().take(
                rev@.len() - (k + 1),
            ).push(rev@[k as int]));
        }
        crate::text::push_char(&mut out, c2);
    }
    proof {
        assert(rev@.reverse().take(rev@.len() as int) =~= rev@.reverse());
        assert(out@ =~= int_chars(v as int));
    }
    out
}

proof fn lemma_digits_val_same_prefix(a: Seq<char>, b: Seq<char>, k: int)
    requires
        0 <= k <= a.len(),
        k <= b.len(),
        forall|i: int| 0 <= i < k ==> a[i] == b[i],
    ensures
        digits_val(a, 0, k) == digits_val(b, 0, k),
    decreases k,
{
    if k > 0 {
        lemma_digits_val_same_prefix(a, b, k - 1);
    }
}

/// The decimal rendering of a non-negative integer is all digits and
/// reads back as the same value.
proof fn lemma_nat_digits_value(n: int)
    requires
        n >= 0,
    ensures
        nat_digits(n).len() >= 1,
        forall|i: int| 0 <= i < nat_digits(n).len() ==> is_digit(#[trigger] nat_digits(n)[i]),
        digits_val(nat_digits(n), 0, nat_digits(n).len() as int) == n,
    decreases n,
{
    let s = nat_digits(n);
    if n < 10 {
        assert(s =~= seq![digit_char(n)]);
        assert(is_digit(digit_char(n)));
        assert(digits_val(s, 0, 1) == digits_val(s, 0, 0) * 10 + digit_val(s[0]));
        assert(digit_val(digit_char(n)) == n);
    } else {
        lemma_nat_digits_value(n / 10);
        let h = nat_digits(n / 10);
        assert(s =~= h.push(digit_char(n % 10)));
        assert(forall|i: int| 0 <= i < h.len() ==> s[i] == #[trigger] h[i]);
        assert(is_digit(digit_char(n % 10)));
        lemma_digits_val_same_prefix(s, h, h.len() as int);
        assert(digits_val(s, 0, s.len() as int) == digits_val(s, 0, s.len() - 1) * 10 + digit_val(
            s[s.len() - 1],
        ));
        assert(digit_val(digit_char(n % 10)) == n % 10);
    }
}

/// Parsing the canonical decimal rendering of an integer gives back the
/// integer: numeric fields survive a print/parse cycle exactly.
pub proof fn lemma_int_chars_round_trip(v: int)
    ensures
        parse_int_spec(int_chars(v)) == Some(v),
{
    if v >= 0 {
        lemma_nat_digits_value(v);
        let s = int_chars(v);
        assert(s == nat_digits(v));
        assert(s[0] != '-');
    } else {
        lemma_nat_digits_value(-v);
        let s = int_chars(v);
        assert(s =~= seq!['-'] + nat_digits(-v));
        assert(s[0] == '-');
        let d = s.subrange(1, s.len() as int);
        assert(d =~= nat_digits(-v));
        assert(digits_val(d, 0, d.len() as int) == -v);
    }
}

/// The decimal rendering holds digits and at most a leading minus sign.
pub proof fn lemma_int_chars_chars(v: int)
    ensures
        forall|i: int|
            0 <= i < int_chars(v).len() ==> is_digit(#[trigger] int_chars(v)[i]) || int_chars(
                v,
            )[i] == '-',
        int_chars(v).len() >= 1,
{
    lemma_nat_chars(if v < 0 { -v } else { v });
    if v < 0 {
        let s = int_chars(v);
        assert forall|i: int| 0 <= i < s.len() implies is_digit(#[trigger] s[i]) || s[i]
            == '-' by {
            if i > 0 {
                assert(s[i] == nat_digits(-v)[i - 1]);
            }
        }
    }
}

proof fn lemma_nat_chars(n: int)
    requires
        n >= 0,
    ensures
        nat_digits(n).len() >= 1,
        forall|i: int| 0 <= i < nat_digits(n).len() ==> is_digit(#[trigger] nat_digits(n)[i]),
    decreases n,
{
    if n < 10 {
        assert(nat_digits(n) =~= seq![digit_char(n)]);
        assert(is_digit(digit_char(n)));
    } else {
        lemma_nat_chars(n / 10);
        let h = nat_digits(n / 10);
        assert(nat_digits(n) =~= h.push(digit_char(n % 10)));
        assert(is_digit(digit_char(n % 10)));
        assert forall|i: int| 0 <= i < nat_digits(n).len() implies is_digit(
            #[trigger] nat_digits(n)[i],
        ) by {
            if i < h.len() {
                assert(nat_digits(n)[i] == h[i]);
            }
        }
    }
}

} // verus!

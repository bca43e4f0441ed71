//! JSON values by their texts, and the whole number nearest to a JSON number.

use crate::converter::{as_double, small_numbers_stay_exact, to_double};
use crate::paths::opt_view;
use crate::text::{all_digits, chars_of, decimal, is_digit, lemma_decimal_grows, parse_int};
use crate::text::{decimal_text, decimals_are_read_back, numbers_are_read_within_bounds};
use crate::text::{parse_i64, slice_of, text_of};
use vstd::prelude::*;
use vstd::string::*;

verus! {

/// What `serde_json::from_str` reports of a text that is no JSON.
pub uninterp spec fn json_fault(text: Seq<char>) -> Option<Seq<char>>;

/// The text of the value that `serde_json::Value::pointer` finds in a JSON text.
pub uninterp spec fn json_at(text: Seq<char>, pointer: Seq<char>) -> Option<Seq<char>>;

/// The string that a JSON text is, by `serde_json::Value::as_str`.
pub uninterp spec fn json_string(text: Seq<char>) -> Option<Seq<char>>;

/// `serde_json::from_str`: what is wrong with a text that is no JSON, in the crate's words.
#[verifier::external_body]
pub(crate) fn find_json_fault(text: &str) -> (r: Option<String>)
    ensures
        opt_view(r) == json_fault(text@),
{
    serde_json::from_str::<serde_json::Value>(text).err().map(|e| e.to_string())
}

/// `serde_json::Value::pointer`: the value at a place in a JSON text, written as JSON again;
/// nothing if the place is empty or the text is no JSON.
#[verifier::external_body]
pub(crate) fn find_json(text: &str, pointer: &str) -> (r: Option<String>)
    ensures
        opt_view(r) == json_at(text@, pointer@),
        json_fault(text@) is Some ==> r is None,
{
    serde_json::from_str::<serde_json::Value>(text).ok()?.pointer(pointer).map(|v| v.to_string())
}

/// `serde_json::Value::as_str`: the string that a JSON text is, if it is one.
#[verifier::external_body]
pub(crate) fn read_json_string(text: &str) -> (r: Option<String>)
    ensures
        opt_view(r) == json_string(text@),
{
    serde_json::from_str::<serde_json::Value>(text).ok()?.as_str().map(|s| s.to_string())
}

/// The string at a place in a JSON text, or the empty one.
pub open spec fn string_at(text: Seq<char>, pointer: Seq<char>) -> Seq<char> {
    match json_at(text, pointer) {
        Some(v) => match json_string(v) {
            Some(s) => s,
            None => Seq::empty(),
        },
        None => Seq::empty(),
    }
}

/// The string at a place in a JSON text, or the empty one.
pub fn json_string_at(text: &str, pointer: &str) -> (r: String)
    ensures
        r@ == string_at(text@, pointer@),
{
    match find_json(text, pointer) {
        Some(v) => match read_json_string(&v) {
            Some(s) => s,
            None => String::new(),
        },
        None => String::new(),
    }
}

/// The whole number at a place in a JSON text, or 0. A number with a point or an exponent is not
/// whole.
pub open spec fn integer_at(text: Seq<char>, pointer: Seq<char>) -> int {
    match json_at(text, pointer) {
        Some(v) => match parse_int(v, i64::MIN as int, i64::MAX as int) {
            Some(n) => n,
            None => 0,
        },
        None => 0,
    }
}

/// The whole number at a place in a JSON text, or 0.
pub fn json_integer_at(text: &str, pointer: &str) -> (r: i64)
    ensures
        r == integer_at(text@, pointer@),
{
    match find_json(text, pointer) {
        Some(v) => match parse_i64(&v) {
            Some(n) => n,
            None => 0,
        },
        None => 0,
    }
}

/// How many digits a text begins with.
pub open spec fn digit_run(s: Seq<char>) -> int
    decreases s.len(),
{
    if s.len() > 0 && is_digit(s[0]) {
        1 + digit_run(s.drop_first())
    } else {
        0
    }
}

/// A number as it is written: its sign, its digits, and how many of them stand before the point.
pub struct Written {
    pub negative: bool,
    pub digits: Seq<char>,
    pub point: int,
}

/// What an exponent writes.
pub open spec fn exponent(s: Seq<char>) -> Option<int> {
    if s.len() == 0 {
        Some(0)
    } else if s[0] == 'e' || s[0] == 'E' {
        parse_int(s.skip(1), -400, 400)
    } else {
        None
    }
}

/// The number that a text writes, if it writes one.
pub open spec fn written(text: Seq<char>) -> Option<Written> {
    let negative = text.len() > 0 && text[0] == '-';
    let body = if negative {
        text.skip(1)
    } else {
        text
    };
    let i = digit_run(body);
    let rest = body.skip(i);
    let dotted = rest.len() > 0 && rest[0] == '.';
    let f = if dotted {
        digit_run(rest.skip(1))
    } else {
        0
    };
    let tail = if dotted {
        rest.skip(1 + f)
    } else {
        rest
    };
    if i == 0 || (dotted && f == 0) || exponent(tail) is None {
        None
    } else {
        let fraction = if dotted {
            rest.skip(1).take(f)
        } else {
            Seq::empty()
        };
        Some(
            Written {
                negative,
                digits: body.take(i) + fraction,
                point: i + exponent(tail)->0,
            },
        )
    }
}

/// The digits before the point, with zeros where there are none.
pub open spec fn whole_digits(digits: Seq<char>, point: int) -> Seq<char> {
    Seq::new(
        if point > 0 {
            point as nat
        } else {
            0
        },
        |j: int|
            if j < digits.len() {
                digits[j]
            } else {
                '0'
            },
    )
}

/// The whole number nearest to a written one, halves away from 0, without its sign.
pub open spec fn nearest_whole(digits: Seq<char>, point: int) -> int {
    decimal(whole_digits(digits, point)) + (if 0 <= point < digits.len() && digits[point] >= '5' {
        1int
    } else {
        0
    })
}

/// The `i64` nearest to a number.
pub open spec fn nearest_i64(n: int) -> int {
    if n < i64::MIN {
        i64::MIN as int
    } else if n > i64::MAX {
        i64::MAX as int
    } else {
        n
    }
}

/// The `i64` that the nearest whole number of a JSON number is as a double-precision number. What
/// is out of range is the nearest that is in range; a text that writes no number counts as 0.
pub open spec fn rounded_number(text: Seq<char>) -> int {
    match written(text) {
        None => 0,
        Some(w) => {
            let n = nearest_whole(w.digits, w.point);
            let capped = if n > 0x8000_0000_0000_0000 {
                0x8000_0000_0000_0000int
            } else {
                n
            };
            let double = as_double(capped as nat);
            nearest_i64(if w.negative {
                -double
            } else {
                double
            })
        },
    }
}

/// How many digits a text begins with.
fn count_digits(cs: &Vec<char>, from: usize) -> (r: usize)
    requires
        from <= cs.len(),
    ensures
        r == digit_run(cs@.skip(from as int)),
        from + r <= cs.len(),
        forall|j: int| from <= j < from + r ==> is_digit(#[trigger] cs@[j]),
{
    let mut i: usize = from;
    while i < cs.len() && '0' <= cs[i] && cs[i] <= '9'
        invariant
            from <= i <= cs.len(),
            digit_run(cs@.skip(from as int)) == (i - from) + digit_run(cs@.skip(i as int)),
            forall|j: int| from <= j < i ==> is_digit(#[trigger] cs@[j]),
        decreases cs.len() - i,
    {
        assert(cs@.skip(i as int).drop_first() =~= cs@.skip(i + 1));
        i = i + 1;
    }
    i - from
}

/// The nearest whole number of digits and a point, at most 2^63.
fn capped_whole(digits: &Vec<char>, point: i128) -> (r: u64)
    requires
        all_digits(digits@),
    ensures
        r == (if nearest_whole(digits@, point as int) > 0x8000_0000_0000_0000 {
            0x8000_0000_0000_0000int
        } else {
            nearest_whole(digits@, point as int)
        }),
{
    let ghost whole = whole_digits(digits@, point as int);
    let cap: u64 = 0x8000_0000_0000_0000;
    assert(all_digits(whole)) by {
        assert forall|j: int| 0 <= j < whole.len() implies is_digit(#[trigger] whole[j]) by {
            if j < digits@.len() {
                assert(is_digit(digits@[j]));
            }
        }
    }
    let mut value: u64 = 0;
    let mut j: i128 = 0;
    while j < point
        invariant
            0 <= j,
            j <= point || j == 0,
            all_digits(digits@),
            all_digits(whole),
            whole == whole_digits(digits@, point as int),
            cap == 0x8000_0000_0000_0000,
            value == decimal(whole.take(j as int)),
            value <= cap,
        decreases point - j,
    {
        let d: u64 = if j < digits.len() as i128 {
            assert(is_digit(digits@[j as int]));
            (digits[j as usize] as u32 - 48) as u64
        } else {
            0
        };
        assert(whole.take(j + 1).drop_last() =~= whole.take(j as int));
        assert(whole[j as int] as u32 - 48 == d);
        assert(decimal(whole.take(j + 1)) == value * 10 + d);
        proof {
            lemma_decimal_grows(whole, j + 1);
        }
        if value > cap / 10 || value * 10 + d > cap {
            return cap;
        }
        value = value * 10 + d;
        j = j + 1;
    }
    assert(whole.take(j as int) =~= whole);
    if 0 <= point && point < digits.len() as i128 && digits[point as usize] >= '5' {
        if value == cap {
            return cap;
        }
        value = value + 1;
    }
    value
}

/// A whole number with its sign, or the nearest `i64`.
fn signed(n: u128, negative: bool) -> (r: i64)
    requires
        n <= 0x200_0000_0000_0000_0000,
    ensures
        r == nearest_i64(if negative {
            -(n as int)
        } else {
            n as int
        }),
{
    if negative {
        if n >= 0x8000_0000_0000_0000 {
            i64::MIN
        } else {
            -(n as i64)
        }
    } else if n > 0x7fff_ffff_ffff_ffff {
        i64::MAX
    } else {
        n as i64
    }
}

/// What an exponent from `end` on writes.
fn read_exponent(cs: &Vec<char>, end: usize) -> (r: Option<i64>)
    requires
        end <= cs.len(),
    ensures
        match r {
            Some(e) => exponent(cs@.skip(end as int)) == Some(e as int) && -400 <= e <= 400,
            None => exponent(cs@.skip(end as int)) is None,
        },
{
    let ghost tail = cs@.skip(end as int);
    if end == cs.len() {
        return Some(0);
    }
    assert(tail[0] == cs@[end as int]);
    if cs[end] != 'e' && cs[end] != 'E' {
        return None;
    }
    let power: String = text_of(&slice_of(cs, end + 1, cs.len()));
    assert(power@ =~= tail.skip(1));
    match parse_i64(&power) {
        Some(n) => {
            if n < -400 || n > 400 {
                None
            } else {
                Some(n)
            }
        },
        None => None,
    }
}

/// A number as it is written.
struct Scanned {
    negative: bool,
    digits: Vec<char>,
    point: i128,
}

/// The digits from `from` up to `to`, then those from `more` up to `end`.
fn digits_of(cs: &Vec<char>, from: usize, to: usize, more: usize, end: usize) -> (out: Vec<char>)
    requires
        from <= to <= cs.len(),
        more <= end <= cs.len(),
        forall|j: int| from <= j < to ==> is_digit(#[trigger] cs@[j]),
        forall|j: int| more <= j < end ==> is_digit(#[trigger] cs@[j]),
    ensures
        out@ == cs@.subrange(from as int, to as int) + cs@.subrange(more as int, end as int),
        all_digits(out@),
{
    let mut out: Vec<char> = slice_of(cs, from, to);
    let mut second: Vec<char> = slice_of(cs, more, end);
    out.append(&mut second);
    out
}

/// The number that a text writes, if it writes one.
fn scan_number(text: &str) -> (r: Option<Scanned>)
    ensures
        match r {
            Some(s) => {
                &&& written(text@) == Some(
                    Written { negative: s.negative, digits: s.digits@, point: s.point as int },
                )
                &&& all_digits(s.digits@)
            },
            None => written(text@) is None,
        },
{
    let cs: Vec<char> = chars_of(text);
    let ghost t = text@;
    let negative: bool = cs.len() > 0 && cs[0] == '-';
    let start: usize = if negative {
        1
    } else {
        0
    };
    let ghost body = if negative {
        t.skip(1)
    } else {
        t
    };
    assert(body =~= t.skip(start as int));
    let i: usize = count_digits(&cs, start);
    let after: usize = start + i;
    let ghost rest = body.skip(i as int);
    assert(rest =~= t.skip(after as int));
    assert(body.take(i as int) =~= t.subrange(start as int, after as int));
    if i == 0 {
        return None;
    }
    if after < cs.len() && cs[after] == '.' {
        assert(rest[0] == '.');
        assert(rest.skip(1) =~= t.skip(after + 1));
        let f: usize = count_digits(&cs, after + 1);
        let end: usize = after + 1 + f;
        assert(rest.skip(1 + f) =~= t.skip(end as int));
        assert(rest.skip(1).take(f as int) =~= t.subrange(after + 1, end as int));
        if f == 0 {
            return None;
        }
        match read_exponent(&cs, end) {
            Some(e) => Some(
                Scanned {
                    negative,
                    digits: digits_of(&cs, start, after, after + 1, end),
                    point: i as i128 + e as i128,
                },
            ),
            None => None,
        }
    } else {
        assert(!(rest.len() > 0 && rest[0] == '.'));
        match read_exponent(&cs, after) {
            Some(e) => {
                let digits: Vec<char> = digits_of(&cs, start, after, after, after);
                assert(digits@ =~= body.take(i as int) + Seq::<char>::empty());
                Some(Scanned { negative, digits, point: i as i128 + e as i128 })
            },
            None => None,
        }
    }
}

/// The `i64` that the nearest whole number of a JSON number is.
pub fn round_json_number(text: &str) -> (r: i64)
    ensures
        r == rounded_number(text@),
{
    match scan_number(text) {
        Some(s) => signed(to_double(capped_whole(&s.digits, s.point)), s.negative),
        None => 0,
    }
}

/// How many digits a text begins with is how many there are before anything else.
proof fn lemma_digit_run(digits: Seq<char>, rest: Seq<char>)
    requires
        all_digits(digits),
        rest.len() == 0 || !is_digit(rest[0]),
    ensures
        digit_run(digits + rest) == digits.len(),
    decreases digits.len(),
{
    let whole = digits + rest;
    if digits.len() == 0 {
        assert(whole =~= rest);
    } else {
        assert(is_digit(digits[0]));
        let fewer = digits.drop_first();
        assert forall|i: int| 0 <= i < fewer.len() implies is_digit(#[trigger] fewer[i]) by {
            assert(fewer[i] == digits[i + 1]);
        }
        lemma_digit_run(fewer, rest);
        assert(whole.drop_first() =~= fewer + rest);
        assert(whole[0] == digits[0]);
    }
}

/// A number is read to the nearest whole one: digits as they stand, and with digits behind a point
/// rounded up from the half on; a sign before it counts. What begins with no digit is read as 0.
pub proof fn numbers_are_read_to_the_nearest(n: nat, fraction: Seq<char>, other: Seq<char>)
    requires
        n + 1 < 0x20_0000_0000_0000,
        fraction.len() > 0,
        all_digits(fraction),
    ensures
        rounded_number(decimal_text(n)) == n,
        rounded_number(seq!['-'] + decimal_text(n)) == -n,
        rounded_number(decimal_text(n).push('.') + fraction) == (if fraction[0] >= '5' {
            (n + 1) as int
        } else {
            n as int
        }),
        rounded_number(seq!['-'] + (decimal_text(n).push('.') + fraction)) == -(if fraction[0]
            >= '5' {
            (n + 1) as int
        } else {
            n as int
        }),
        other.len() == 0 || !(is_digit(other[0]) || other[0] == '-') ==> rounded_number(other) == 0,
{
    decimals_are_read_back(n);
    small_numbers_stay_exact(n);
    small_numbers_stay_exact(n + 1);
    let d = decimal_text(n);
    let none = Seq::<char>::empty();
    assert(is_digit(d[0]));
    // Without a point.
    lemma_digit_run(d, none);
    assert(d + none =~= d);
    assert(d.skip(d.len() as int) =~= none);
    assert(d.take(d.len() as int) + none =~= d);
    assert(whole_digits(d, d.len() as int) =~= d);
    let negative = seq!['-'] + d;
    assert(negative.skip(1) =~= d);
    // With a point.
    let tail = seq!['.'] + fraction;
    let whole = d.push('.') + fraction;
    assert(whole =~= d + tail);
    lemma_digit_run(d, tail);
    assert(whole.skip(d.len() as int) =~= tail);
    assert(tail.skip(1) =~= fraction);
    lemma_digit_run(fraction, none);
    assert(fraction + none =~= fraction);
    assert(tail.skip(1 + fraction.len() as int) =~= none);
    assert(whole.take(d.len() as int) =~= d);
    assert(fraction.take(fraction.len() as int) =~= fraction);
    let digits = d + fraction;
    assert(whole_digits(digits, d.len() as int) =~= d);
    assert(digits[d.len() as int] == fraction[0]);
    let opposite = seq!['-'] + whole;
    assert(opposite.skip(1) =~= whole);
    assert(whole[0] == d[0]);
    if other.len() > 0 && !is_digit(other[0]) && other[0] != '-' {
        assert(digit_run(other) == 0);
    }
}


/// What is read at a place is what stands there, where that is a text or a whole number; anything
/// else is read as nothing or as 0.
pub proof fn values_are_read_at_their_place(text: Seq<char>, pointer: Seq<char>, n: nat)
    requires
        n <= i64::MAX,
    ensures
        json_at(text, pointer) is None ==> string_at(text, pointer).len() == 0 && integer_at(
            text,
            pointer,
        ) == 0,
        json_at(text, pointer) matches Some(v) ==> {
            &&& json_string(v) matches Some(s) ==> string_at(text, pointer) == s
            &&& json_string(v) is None ==> string_at(text, pointer).len() == 0
            &&& v == decimal_text(n) ==> integer_at(text, pointer) == n
            &&& v == seq!['-'] + decimal_text(n) ==> integer_at(text, pointer) == -n
        },
{
    numbers_are_read_within_bounds(n, i64::MIN as int, i64::MAX as int);
}


} // verus!

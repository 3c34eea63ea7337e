//! Reading numbers from decimal text: whole numbers for identifiers, and
//! fixed-point numbers with nine decimal places for coordinates and speeds.
//!
//! Text is read by its bytes. A number is an optional sign, then digits with
//! at most one decimal point among them; nothing may stand before or after.
//! Other notations of numbers are refused, among them those with an
//! exponent (`1e3`) and the words for infinity and for no number.

use crate::units::SCALE;
use vstd::prelude::*;
use vstd::string::StringSliceAdditionalSpecFns;

verus! {

pub open spec fn is_digit(b: u8) -> bool {
    48 <= b && b <= 57
}

pub open spec fn all_digits(s: Seq<u8>) -> bool {
    forall|i: int| 0 <= i < s.len() ==> is_digit(#[trigger] s[i])
}

/// The number that a run of digits writes in base ten.
pub open spec fn digits_value(s: Seq<u8>) -> nat
    decreases s.len(),
{
    if s.len() == 0 {
        0
    } else {
        digits_value(s.drop_last()) * 10 + (s.last() - 48) as nat
    }
}

/// The first nine decimal places, with zeros where the text gives none.
pub open spec fn nine_places(fraction: Seq<u8>) -> Seq<u8> {
    Seq::new(
        9,
        |k: int|
            if k < fraction.len() {
                fraction[k]
            } else {
                48u8
            },
    )
}

/// `s` has its decimal point at `d`, and digits everywhere else.
pub open spec fn point_at(s: Seq<u8>, d: int) -> bool {
    0 <= d < s.len() && s[d] == 46 && all_digits(s.take(d)) && all_digits(s.skip(d + 1))
}

/// The whole number that unsigned text writes.
pub open spec fn spec_whole(s: Seq<u8>) -> Option<int> {
    if s.len() > 0 && all_digits(s) {
        Some(digits_value(s) as int)
    } else {
        None
    }
}

/// The number of billionths that unsigned text writes; decimal places
/// after the ninth are dropped. Text with an exponent writes no number
/// here.
pub open spec fn spec_magnitude(s: Seq<u8>) -> Option<int> {
    if all_digits(s) {
        if s.len() > 0 {
            Some(digits_value(s) * SCALE)
        } else {
            None
        }
    } else if exists|d: int| point_at(s, d) {
        let d = choose|d: int| point_at(s, d);
        if s.len() > 1 {
            Some(digits_value(s.take(d)) * SCALE + digits_value(nine_places(s.skip(d + 1))))
        } else {
            None
        }
    } else {
        None
    }
}

/// Text without a leading plus sign.
pub open spec fn without_plus(s: Seq<u8>) -> Seq<u8> {
    if s.len() > 0 && s[0] == 43 {
        s.skip(1)
    } else {
        s
    }
}

/// The identifier that text writes: digits after an optional plus sign,
/// where their value fits.
pub open spec fn spec_parse_u64(s: Seq<u8>) -> Option<u64> {
    match spec_whole(without_plus(s)) {
        Some(v) => if v <= u64::MAX {
            Some(v as u64)
        } else {
            None
        },
        None => None,
    }
}

/// The non-negative fixed-point number that text writes, where it fits.
pub open spec fn spec_parse_unsigned_fixed(s: Seq<u8>) -> Option<u64> {
    match spec_magnitude(without_plus(s)) {
        Some(v) => if v <= u64::MAX {
            Some(v as u64)
        } else {
            None
        },
        None => None,
    }
}

/// The fixed-point number that text writes, where its magnitude fits.
pub open spec fn spec_parse_signed_fixed(s: Seq<u8>) -> Option<i64> {
    if s.len() > 0 && s[0] == 45 {
        match spec_magnitude(s.skip(1)) {
            Some(v) => if v <= i64::MAX {
                Some((-v) as i64)
            } else {
                None
            },
            None => None,
        }
    } else {
        match spec_magnitude(without_plus(s)) {
            Some(v) => if v <= i64::MAX {
                Some(v as i64)
            } else {
                None
            },
            None => None,
        }
    }
}

/// A run of digits that grows by one digit is worth at least as much.
proof fn digits_value_grows(s: Seq<u8>, n: int)
    requires
        0 <= n < s.len(),
        all_digits(s),
    ensures
        digits_value(s.take(n + 1)) == digits_value(s.take(n)) * 10 + (s[n] - 48),
        digits_value(s.take(n + 1)) >= digits_value(s.take(n)),
{
    assert(s.take(n + 1).drop_last() =~= s.take(n));
    assert(s.take(n + 1).last() == s[n]);
    assert(is_digit(s[n]));
}

/// A run of digits is worth at least as much as each of its beginnings.
proof fn digits_value_of_prefix(s: Seq<u8>, a: int, b: int)
    requires
        0 <= a <= b <= s.len(),
        all_digits(s),
    ensures
        digits_value(s.take(a)) <= digits_value(s.take(b)),
    decreases b - a,
{
    if a < b {
        digits_value_of_prefix(s, a, b - 1);
        digits_value_grows(s, b - 1);
    }
}

/// Reads the digits of `bytes` from `from` to `to`. Gives their value where
/// it fits in 64 bits.
fn read_digits(bytes: &[u8], from: usize, to: usize) -> (r: Option<u64>)
    requires
        from <= to <= bytes@.len(),
        all_digits(bytes@.subrange(from as int, to as int)),
    ensures
        match r {
            Some(v) => v == digits_value(bytes@.subrange(from as int, to as int)),
            None => digits_value(bytes@.subrange(from as int, to as int)) > u64::MAX,
        },
{
    let ghost run = bytes@.subrange(from as int, to as int);
    let mut value: u64 = 0;
    let mut i: usize = from;
    assert(run.take(0) =~= Seq::<u8>::empty());
    while i < to
        invariant
            from <= i <= to <= bytes@.len(),
            run == bytes@.subrange(from as int, to as int),
            all_digits(run),
            value == digits_value(run.take(i - from)),
        decreases to - i,
    {
        proof {
            assert(run[i - from] == bytes@[i as int]);
            assert(is_digit(run[i - from]));
            digits_value_grows(run, i - from);
        }
        let digit: u64 = (bytes[i] - 48) as u64;
        if value > (u64::MAX - digit) / 10 {
            proof {
                digits_value_of_prefix(run, i - from + 1, run.len() as int);
                assert(run.take(run.len() as int) =~= run);
            }
            return None;
        }
        value = value * 10 + digit;
        i += 1;
    }
    proof {
        assert(run.take(run.len() as int) =~= run);
    }
    Some(value)
}

/// Position of the first byte from `from` on that is no digit.
fn end_of_digits(bytes: &[u8], from: usize) -> (r: usize)
    requires
        from <= bytes@.len(),
    ensures
        from <= r <= bytes@.len(),
        all_digits(bytes@.subrange(from as int, r as int)),
        r < bytes@.len() ==> !is_digit(bytes@[r as int]),
{
    let mut i: usize = from;
    while i < bytes.len() && 48 <= bytes[i] && bytes[i] <= 57
        invariant
            from <= i <= bytes@.len(),
            forall|j: int| from <= j < i ==> is_digit(bytes@[j]),
        decreases bytes@.len() - i,
    {
        i += 1;
    }
    i
}

/// Reads up to nine decimal places from `from` on.
fn read_places(bytes: &[u8], from: usize) -> (r: u64)
    requires
        from <= bytes@.len(),
        all_digits(bytes@.skip(from as int)),
    ensures
        r == digits_value(nine_places(bytes@.skip(from as int))),
        r < SCALE,
{
    let ghost places = nine_places(bytes@.skip(from as int));
    let mut value: u64 = 0;
    let mut k: usize = 0;
    assert(places.take(0) =~= Seq::<u8>::empty());
    assert(all_digits(places));
    while k < 9
        invariant
            k <= 9,
            from <= bytes@.len(),
            places == nine_places(bytes@.skip(from as int)),
            all_digits(places),
            value == digits_value(places.take(k as int)),
            (k == 0 && value == 0) || (k == 1 && value < 10) || (k == 2 && value < 100) || (k == 3
                && value < 1000) || (k == 4 && value < 10000) || (k == 5 && value < 100000) || (k
                == 6 && value < 1000000) || (k == 7 && value < 10000000) || (k == 8 && value
                < 100000000) || (k == 9 && value < 1000000000),
        decreases 9 - k,
    {
        proof {
            digits_value_grows(places, k as int);
            if k < bytes@.len() - from {
                assert(bytes@.skip(from as int)[k as int] == bytes@[from + k]);
                assert(is_digit(bytes@.skip(from as int)[k as int]));
            }
        }
        let digit: u64 = if k < bytes.len() - from {
            (bytes[from + k] - 48) as u64
        } else {
            0
        };
        value = value * 10 + digit;
        k += 1;
    }
    proof {
        assert(places.take(9) =~= places);
    }
    value
}

/// Reads unsigned text from `from` on as a number of billionths. The
/// result is `None` where the text writes no number or the number does not
/// fit in 64 bits.
fn read_magnitude(bytes: &[u8], from: usize) -> (r: Option<u64>)
    requires
        from <= bytes@.len(),
    ensures
        r == match spec_magnitude(bytes@.skip(from as int)) {
            Some(v) => if v <= u64::MAX {
                Some(v as u64)
            } else {
                None
            },
            None => None,
        },
{
    let ghost s = bytes@.skip(from as int);
    let n = bytes.len();
    let dot = end_of_digits(bytes, from);
    assert(bytes@.subrange(from as int, dot as int) =~= s.take(dot - from));
    if dot == n {
        assert(s.take(dot - from) =~= s);
        if dot == from {
            return None;
        }
        return match read_digits(bytes, from, dot) {
            Some(whole) => {
                if whole > u64::MAX / SCALE {
                    assert(whole * SCALE > u64::MAX) by (nonlinear_arith)
                        requires
                            whole > u64::MAX / SCALE,
                    ;
                    None
                } else {
                    assert(whole * SCALE <= u64::MAX) by (nonlinear_arith)
                        requires
                            whole <= u64::MAX / SCALE,
                    ;
                    Some(whole * SCALE)
                }
            },
            None => {
                assert(digits_value(s) * SCALE > u64::MAX) by (nonlinear_arith)
                    requires
                        digits_value(s) > u64::MAX,
                ;
                None
            },
        };
    }
    assert(!all_digits(s)) by {
        assert(s[dot - from] == bytes@[dot as int]);
    }
    if bytes[dot] != 46 {
        proof {
            assert forall|d: int| !point_at(s, d) by {
                if point_at(s, d) {
                    if d > dot - from {
                        assert(s.take(d)[dot - from] == s[dot - from]);
                    } else if d < dot - from {
                        assert(s.take(dot - from)[d] == s[d]);
                    }
                }
            }
        }
        return None;
    }
    let end = end_of_digits(bytes, dot + 1);
    assert(bytes@.subrange(dot + 1, end as int) =~= s.skip(dot - from + 1).take(end - dot - 1));
    if end != n {
        proof {
            assert forall|d: int| !point_at(s, d) by {
                if point_at(s, d) {
                    if d > dot - from {
                        assert(s.take(d)[dot - from] == s[dot - from]);
                    } else if d < dot - from {
                        assert(s.take(dot - from)[d] == s[d]);
                    } else {
                        assert(s.skip(d + 1)[end - dot - 1] == bytes@[end as int]);
                    }
                }
            }
        }
        return None;
    }
    proof {
        assert(s.skip(dot - from + 1).take(end - dot - 1) =~= s.skip(dot - from + 1));
        assert(point_at(s, dot - from));
        let d = choose|d: int| point_at(s, d);
        if d > dot - from {
            assert(s.take(d)[dot - from] == s[dot - from]);
        } else if d < dot - from {
            assert(s.take(dot - from)[d] == s[d]);
        }
        assert(d == dot - from);
        assert(bytes@.skip(dot + 1) =~= s.skip(dot - from + 1));
    }
    if n - from == 1 {
        return None;
    }
    let places = read_places(bytes, dot + 1);
    match read_digits(bytes, from, dot) {
        Some(whole) => {
            if whole > (u64::MAX - places) / SCALE {
                assert(whole * SCALE + places > u64::MAX) by (nonlinear_arith)
                    requires
                        whole > (u64::MAX - places) / (SCALE as int),
                        places <= u64::MAX,
                ;
                None
            } else {
                assert(whole * SCALE + places <= u64::MAX) by (nonlinear_arith)
                    requires
                        whole <= (u64::MAX - places) / (SCALE as int),
                        places <= u64::MAX,
                ;
                Some(whole * SCALE + places)
            }
        },
        None => {
            assert(digits_value(s.take(dot - from)) * SCALE > u64::MAX) by (nonlinear_arith)
                requires
                    digits_value(s.take(dot - from)) > u64::MAX,
            ;
            None
        },
    }
}

/// Reads an identifier: digits after an optional plus sign.
pub fn parse_u64(text: &str) -> (r: Option<u64>)
    ensures
        r == spec_parse_u64(text.spec_bytes()),
{
    let bytes = text.as_bytes();
    let from: usize = if bytes.len() > 0 && bytes[0] == 43 {
        1
    } else {
        0
    };
    let ghost body = without_plus(bytes@);
    assert(body =~= bytes@.skip(from as int));
    let end = end_of_digits(bytes, from);
    assert(bytes@.subrange(from as int, end as int) =~= body.take(end - from));
    if end != bytes.len() {
        assert(!all_digits(body)) by {
            assert(body[end - from] == bytes@[end as int]);
        }
        return None;
    }
    assert(body.take(end - from) =~= body);
    if end == from {
        return None;
    }
    read_digits(bytes, from, end)
}

/// Reads a non-negative fixed-point number, such as a speed. Notation with
/// an exponent is refused.
pub fn parse_unsigned_fixed(text: &str) -> (r: Option<u64>)
    ensures
        r == spec_parse_unsigned_fixed(text.spec_bytes()),
{
    let bytes = text.as_bytes();
    let from: usize = if bytes.len() > 0 && bytes[0] == 43 {
        1
    } else {
        0
    };
    assert(without_plus(bytes@) =~= bytes@.skip(from as int));
    read_magnitude(bytes, from)
}

/// Reads a fixed-point number with an optional sign, such as a coordinate.
/// Notation with an exponent is refused.
pub fn parse_signed_fixed(text: &str) -> (r: Option<i64>)
    ensures
        r == spec_parse_signed_fixed(text.spec_bytes()),
{
    let bytes = text.as_bytes();
    if bytes.len() > 0 && bytes[0] == 45 {
        match read_magnitude(bytes, 1) {
            Some(v) => if v <= i64::MAX as u64 {
                Some(-(v as i64))
            } else {
                None
            },
            None => None,
        }
    } else {
        let from: usize = if bytes.len() > 0 && bytes[0] == 43 {
            1
        } else {
            0
        };
        assert(without_plus(bytes@) =~= bytes@.skip(from as int));
        match read_magnitude(bytes, from) {
            Some(v) => if v <= i64::MAX as u64 {
                Some(v as i64)
            } else {
                None
            },
            None => None,
        }
    }
}

} // verus!

//! The numbers of the data sections. A number is a sign, if any, digits with
//! or without a point among them, and an exponent, if any; it ends at white
//! space or at the end of the text. It is held as a whole number of
//! millionths, and what is less than a millionth is cut off.

use vstd::prelude::*;
use crate::tsplib_parser::custom_types::MAX_UNITS;
use crate::tsplib_parser::scan::{in_class, is_digit, lemma_run_end, run_end, skip_run, ByteClass};

verus! {

/// A number of a data section, in millionths.
pub type Number = i64;

/// The number that a string of digits writes.
pub open spec fn digits_value(digits: Seq<u8>) -> nat
    decreases digits.len(),
{
    if digits.len() == 0 {
        0
    } else {
        digits_value(digits.drop_last()) * 10 + (digits.last() - 48) as nat
    }
}

/// The first `len` digits of a string of digits, with zeros where the
/// string has fewer.
pub open spec fn scaled_digits(digits: Seq<u8>, len: int) -> Seq<u8> {
    Seq::new(
        if len > 0 {
            len as nat
        } else {
            0
        },
        |k: int|
            if k < digits.len() {
                digits[k]
            } else {
                48u8
            },
    )
}

/// The place behind the sign, if there is one at `pos`.
pub open spec fn behind_sign(s: Seq<u8>, pos: int) -> int {
    if 0 <= pos < s.len() && (s[pos] == 43 || s[pos] == 45) {
        pos + 1
    } else {
        pos
    }
}

/// A point stands at `pos`.
pub open spec fn has_point_at(s: Seq<u8>, pos: int) -> bool {
    0 <= pos < s.len() && s[pos] == 46
}

/// The place where the digits before the point end, for a number at `pos`.
pub open spec fn whole_end(s: Seq<u8>, pos: int) -> int {
    run_end(s, behind_sign(s, pos), ByteClass::Digit)
}

/// The place where the digits of a number at `pos` end: behind the digits of
/// the fraction where there is a point, and behind the digits before the
/// point where there is none.
pub open spec fn mantissa_end(s: Seq<u8>, pos: int) -> int {
    let w = whole_end(s, pos);
    if has_point_at(s, w) {
        run_end(s, w + 1, ByteClass::Digit)
    } else {
        w
    }
}

/// An exponent stands at `pos`: the letter `e`, small or large, a sign or
/// none, and a digit.
pub open spec fn has_exponent_at(s: Seq<u8>, pos: int) -> bool {
    &&& 0 <= pos < s.len()
    &&& (s[pos] == 101 || s[pos] == 69)
    &&& run_end(s, behind_sign(s, pos + 1), ByteClass::Digit) > behind_sign(s, pos + 1)
}

/// The place where the text of a number at `pos` ends: behind its exponent
/// where it has one, and behind its digits where it has none.
pub open spec fn number_end(s: Seq<u8>, pos: int) -> int {
    let m = mantissa_end(s, pos);
    if has_exponent_at(s, m) {
        run_end(s, behind_sign(s, m + 1), ByteClass::Digit)
    } else {
        m
    }
}

/// A number stands at `pos`: it has a digit, before the point or behind it,
/// and white space or the end of the text follows it.
pub open spec fn is_number_at(s: Seq<u8>, pos: int) -> bool {
    let w = whole_end(s, pos);
    let m = mantissa_end(s, pos);
    let e = number_end(s, pos);
    &&& 0 <= pos <= s.len()
    &&& (w > behind_sign(s, pos) || (has_point_at(s, w) && m > w + 1))
    &&& (e == s.len() || in_class(ByteClass::Space, s[e]))
}

/// The digits before the point of the number at `pos`.
pub open spec fn whole_digits(s: Seq<u8>, pos: int) -> Seq<u8> {
    s.subrange(behind_sign(s, pos), whole_end(s, pos))
}

/// The digits behind the point of the number at `pos`.
pub open spec fn fraction_digits(s: Seq<u8>, pos: int) -> Seq<u8> {
    if has_point_at(s, whole_end(s, pos)) {
        s.subrange(whole_end(s, pos) + 1, mantissa_end(s, pos))
    } else {
        Seq::empty()
    }
}

/// The largest exponent, with or without a minus sign, that a number can
/// have.
pub const MAX_EXPONENT: u128 = 999;

/// The exponent of the number at `pos`: 0 where it has none, and none where
/// it is further than `MAX_EXPONENT` from zero.
pub open spec fn exponent_value(s: Seq<u8>, pos: int) -> Option<int> {
    let m = mantissa_end(s, pos);
    let from = behind_sign(s, m + 1);
    let size = digits_value(s.subrange(from, number_end(s, pos)));
    if !has_exponent_at(s, m) {
        Some(0)
    } else if size > MAX_EXPONENT {
        None
    } else if s[m + 1] == 45 {
        Some(-(size as int))
    } else {
        Some(size as int)
    }
}

/// The number at `pos` in millionths, without its sign: what its digits
/// write where the point is moved six places to the right and as many more
/// as the exponent says, and the digits behind the point are cut off.
pub open spec fn number_magnitude(s: Seq<u8>, pos: int) -> Option<nat> {
    match exponent_value(s, pos) {
        None => None,
        Some(exponent) => Some(
            digits_value(
                scaled_digits(
                    whole_digits(s, pos) + fraction_digits(s, pos),
                    whole_digits(s, pos).len() + 6 + exponent,
                ),
            ),
        ),
    }
}

/// The number at `pos` in millionths; none where it is further than
/// `MAX_UNITS` from zero, or its exponent further than `MAX_EXPONENT`.
pub open spec fn number_units(s: Seq<u8>, pos: int) -> Option<Number> {
    match number_magnitude(s, pos) {
        None => None,
        Some(magnitude) => if magnitude > MAX_UNITS {
            None
        } else if 0 <= pos < s.len() && s[pos] == 45 {
            Some((-magnitude) as i64)
        } else {
            Some(magnitude as i64)
        },
    }
}

/// A string of digits with one digit more writes ten times the number and
/// the digit.
pub proof fn lemma_digits_value_step(s: Seq<u8>, from: int, to: int)
    requires
        0 <= from <= to < s.len(),
    ensures
        digits_value(s.subrange(from, to + 1)) == digits_value(s.subrange(from, to)) * 10 + (s[to]
            - 48) as nat,
{
    assert(s.subrange(from, to + 1).drop_last() =~= s.subrange(from, to));
}

/// A longer string of digits does not write a smaller number.
pub proof fn lemma_digits_value_grows(s: Seq<u8>, from: int, mid: int, to: int)
    requires
        0 <= from <= mid <= to <= s.len(),
        forall|k: int| from <= k < to ==> is_digit(#[trigger] s[k]),
    ensures
        digits_value(s.subrange(from, mid)) <= digits_value(s.subrange(from, to)),
    decreases to - mid,
{
    if mid < to {
        lemma_digits_value_grows(s, from, mid, to - 1);
        lemma_digits_value_step(s, from, to - 1);
        assert(is_digit(s[to - 1]));
    }
}

/// The number that the digits from `from` to `to` write, where it is at
/// most `limit`.
pub fn read_digits(bytes: &[u8], from: usize, to: usize, limit: u128) -> (value: Option<u128>)
    requires
        from <= to <= bytes@.len(),
        forall|k: int| from <= k < to ==> is_digit(#[trigger] bytes@[k]),
        limit <= 1_000_000_000_000_000_000_000_000_000_000,
    ensures
        value matches Some(v) ==> v == digits_value(bytes@.subrange(from as int, to as int)) && v
            <= limit,
        value is None ==> digits_value(bytes@.subrange(from as int, to as int)) > limit,
{
    let mut value: u128 = 0;
    let mut k: usize = from;
    assert(bytes@.subrange(from as int, from as int) =~= Seq::<u8>::empty());
    while k < to
        invariant
            from <= k <= to <= bytes@.len(),
            forall|q: int| from <= q < to ==> is_digit(#[trigger] bytes@[q]),
            limit <= 1_000_000_000_000_000_000_000_000_000_000,
            value == digits_value(bytes@.subrange(from as int, k as int)),
            value <= limit,
        decreases to - k,
    {
        proof {
            lemma_digits_value_step(bytes@, from as int, k as int);
            assert(is_digit(bytes@[k as int]));
        }
        let next = value * 10 + (bytes[k] - 48) as u128;
        if next > limit {
            proof {
                lemma_digits_value_grows(bytes@, from as int, k + 1, to as int);
            }
            return None;
        }
        value = next;
        k += 1;
    }
    Some(value)
}

/// What was read at a place: where the number ends, and the number, if it
/// is within range.
pub struct NumberRead {
    /// The place behind the number.
    pub end: usize,
    /// The number in millionths; none where it is out of range.
    pub units: Option<Number>,
}

/// The digit at place `k` of the digits before and behind the point, one
/// after the other, with zeros behind them.
fn digit_at(bytes: &[u8], start: usize, w: usize, m: usize, k: u128) -> (digit: u8)
    requires
        start <= w <= m <= bytes@.len(),
        forall|q: int| start <= q < w ==> is_digit(#[trigger] bytes@[q]),
        forall|q: int| w < q < m ==> is_digit(#[trigger] bytes@[q]),
    ensures
        is_digit(digit),
        k < w - start ==> digit == bytes@[start + k],
        w < m && w - start <= k < (w - start) + (m - w - 1) ==> digit == bytes@[w + 1 + (k - (w
            - start))],
        (w == m && k >= w - start) || (w < m && k >= (w - start) + (m - w - 1)) ==> digit == 48,
{
    let whole_len = (w - start) as u128;
    let fraction_len = if w < m { (m - w - 1) as u128 } else { 0 };
    if k < whole_len {
        bytes[start + k as usize]
    } else if k - whole_len < fraction_len {
        bytes[w + 1 + (k - whole_len) as usize]
    } else {
        48
    }
}

/// What the first `places` of the digits write, with the digits before the
/// point from `start` to `w` and those behind it from `w + 1` to `m`; none
/// where that is more than `MAX_UNITS`.
fn read_places(bytes: &[u8], start: usize, w: usize, m: usize, places: i128, Ghost(digits): Ghost<
    Seq<u8>,
>) -> (value: Option<u64>)
    requires
        start <= w <= m <= bytes@.len(),
        forall|q: int| start <= q < w ==> is_digit(#[trigger] bytes@[q]),
        forall|q: int| w < q < m ==> is_digit(#[trigger] bytes@[q]),
        w < m ==> digits == bytes@.subrange(start as int, w as int) + bytes@.subrange(
            w + 1,
            m as int,
        ),
        w == m ==> digits == bytes@.subrange(start as int, w as int),
        places <= usize::MAX + 1100,
    ensures
        value matches Some(v) ==> v == digits_value(scaled_digits(digits, places as int)) && v
            <= MAX_UNITS,
        value is None ==> digits_value(scaled_digits(digits, places as int)) > MAX_UNITS,
{
    let ghost scaled = scaled_digits(digits, places as int);
    let mut value: u64 = 0;
    let mut k: u128 = 0;
    proof {
        assert(scaled.subrange(0, 0) =~= Seq::<u8>::empty());
    }
    while (k as i128) < places
        invariant
            places <= usize::MAX + 1100,
            places >= 0 ==> k <= places,
            places < 0 ==> k == 0,
            start <= w <= m <= bytes@.len(),
            forall|q: int| start <= q < w ==> is_digit(#[trigger] bytes@[q]),
            forall|q: int| w < q < m ==> is_digit(#[trigger] bytes@[q]),
            w < m ==> digits == bytes@.subrange(start as int, w as int) + bytes@.subrange(
                w + 1,
                m as int,
            ),
            w == m ==> digits == bytes@.subrange(start as int, w as int),
            scaled == scaled_digits(digits, places as int),
            value == digits_value(scaled.subrange(0, k as int)),
            value <= 1_000_000_000_000_000,
        decreases places - k,
    {
        let digit = digit_at(bytes, start, w, m, k);
        proof {
            assert(scaled[k as int] == digit);
            lemma_digits_value_step(scaled, 0, k as int);
        }
        let next = value * 10 + (digit - 48) as u64;
        if next > 1_000_000_000_000_000 {
            proof {
                assert forall|q: int| 0 <= q < scaled.len() implies is_digit(
                    #[trigger] scaled[q],
                ) by {
                    if q < digits.len() {
                        if q < w - start {
                            assert(scaled[q] == bytes@[start + q]);
                        } else {
                            assert(scaled[q] == bytes@[w + 1 + (q - (w - start))]);
                        }
                    }
                }
                lemma_digits_value_grows(scaled, 0, k + 1, scaled.len() as int);
                assert(scaled.subrange(0, scaled.len() as int) =~= scaled);
            }
            return None;
        }
        value = next;
        k += 1;
    }
    proof {
        assert(scaled.subrange(0, k as int) =~= scaled);
    }
    Some(value)
}

/// What was read of an exponent: the place behind it, and its value, if it
/// is within range.
struct ExponentRead {
    end: usize,
    value: Option<i128>,
}

/// Reads the exponent of the number at `pos`, whose digits end at `m`.
fn read_exponent(bytes: &[u8], m: usize, Ghost(pos): Ghost<int>) -> (read: ExponentRead)
    requires
        m <= bytes@.len(),
        m == mantissa_end(bytes@, pos),
    ensures
        read.end == number_end(bytes@, pos),
        m <= read.end <= bytes@.len(),
        match read.value {
            Some(e) => exponent_value(bytes@, pos) == Some(e as int) && -999 <= e <= 999,
            None => exponent_value(bytes@, pos) is None,
        },
{
    let n = bytes.len();
    if !(m < n && (bytes[m] == 101 || bytes[m] == 69)) {
        return ExponentRead { end: m, value: Some(0) };
    }
    let minus = m + 1 < n && bytes[m + 1] == 45;
    let from = if m + 1 < n && (bytes[m + 1] == 43 || bytes[m + 1] == 45) { m + 2 } else { m + 1 };
    let to = skip_run(bytes, from, ByteClass::Digit);
    proof {
        lemma_run_end(bytes@, from as int, ByteClass::Digit);
    }
    if to == from {
        return ExponentRead { end: m, value: Some(0) };
    }
    let value = match read_digits(bytes, from, to, MAX_EXPONENT) {
        None => None,
        Some(size) => if minus {
            Some(-(size as i128))
        } else {
            Some(size as i128)
        },
    };
    ExponentRead { end: to, value }
}

/// Reads the number at `pos`, if one stands there.
pub fn read_number(bytes: &[u8], pos: usize) -> (read: Option<NumberRead>)
    requires
        pos <= bytes@.len(),
    ensures
        read is Some <==> is_number_at(bytes@, pos as int),
        read matches Some(r) ==> r.end == number_end(bytes@, pos as int) && r.units
            == number_units(bytes@, pos as int) && pos < r.end <= bytes@.len(),
{
    let n = bytes.len();
    let negative = pos < n && bytes[pos] == 45;
    let start = if pos < n && (bytes[pos] == 43 || bytes[pos] == 45) { pos + 1 } else { pos };
    let w = skip_run(bytes, start, ByteClass::Digit);
    let pointed = w < n && bytes[w] == 46;
    let m = if pointed { skip_run(bytes, w + 1, ByteClass::Digit) } else { w };
    proof {
        lemma_run_end(bytes@, start as int, ByteClass::Digit);
        if pointed {
            lemma_run_end(bytes@, w + 1, ByteClass::Digit);
        }
    }
    if !(w > start || (pointed && m > w + 1)) {
        return None;
    }
    let exponent = read_exponent(bytes, m, Ghost(pos as int));
    let end = exponent.end;
    if end < n && !(bytes[end] == 32 || bytes[end] == 9 || bytes[end] == 13 || bytes[end] == 10) {
        return None;
    }
    let units: Option<Number> = match exponent.value {
        None => None,
        Some(e) => {
            let places: i128 = (w - start) as i128 + 6 + e;
            let ghost digits = whole_digits(bytes@, pos as int) + fraction_digits(
                bytes@,
                pos as int,
            );
            proof {
                if !pointed {
                    assert(digits =~= bytes@.subrange(start as int, w as int));
                }
            }
            match read_places(bytes, start, w, m, places, Ghost(digits)) {
                None => None,
                Some(value) => if negative {
                    Some(-(value as i64))
                } else {
                    Some(value as i64)
                },
            }
        },
    };
    Some(NumberRead { end, units })
}

} // verus!

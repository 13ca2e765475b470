//! Parser for the Gerber command language.
//!
//! The parser processes Gerber text line by line, trying a fixed priority
//! order of recognizers on each trimmed line:
//!
//! - Comment lines (`G04 ...`) and blank lines are skipped.
//! - Format specification (`%FSLAX...`)
//! - Units setting (`%MOMM*%` or `%MOIN*%`)
//! - Aperture definitions (`%ADD...`)
//! - Interpolation mode commands (`G01`, `G02`, `G03`)
//! - Region commands (`G36`, `G37`)
//! - End of file (`M02`)
//! - Aperture selection commands (`D10*` and up)
//! - Drawing commands (`D01`, `D02`, `D03`) with coordinates
//!
//! The first recognizer that matches wins; a line that matches none of them
//! is skipped silently.  The parser threads state across lines: the current
//! position, the coordinate format, and the interpolation mode.
//!
//! Coordinate tokens decode to fixed-point values counting billionths of a
//! board unit, which is exact for every format with at most nine decimal
//! digits; see [`crate::gerber::types`].

use vstd::prelude::*;

use vstd::string::StringSliceAdditionalSpecFns;

use vstd::arithmetic::mul::{
    lemma_mul_inequality,
    lemma_mul_is_associative,
    lemma_mul_left_inequality,
    lemma_mul_nonnegative,
    lemma_mul_upper_bound,
};

use crate::gerber::types::{Aperture, Command, DecodeError, InterpolationMode, ParseError, Point};

verus! {

// ------------------------------------------------------------------
// Byte classification and basic scanning
// ------------------------------------------------------------------

/// Whether a byte is an ASCII decimal digit.
pub open spec fn is_digit(b: u8) -> bool {
    48 <= b <= 57
}

/// Whether a byte is ASCII whitespace (as trimmed from each line).
pub open spec fn is_ws(b: u8) -> bool {
    b == 32 || (9 <= b <= 13)
}

/// Whether every byte of a sequence is a decimal digit.
pub open spec fn seq_all_digits(s: Seq<u8>) -> bool {
    forall|i: int| 0 <= i < s.len() ==> is_digit(#[trigger] s[i])
}

/// The first index `i >= from` with `s[i] == t`, or `s.len()` if none.
pub open spec fn spec_find_from(s: Seq<u8>, t: u8, from: int) -> int
    decreases s.len() - from,
{
    if from < 0 {
        spec_find_from(s, t, 0)
    } else if from >= s.len() {
        s.len() as int
    } else if s[from] == t {
        from
    } else {
        spec_find_from(s, t, from + 1)
    }
}

/// First index at or after `from` holding byte `t`, or `s.len()` if `t`
/// does not occur there.
pub fn find_byte_from(s: &[u8], t: u8, from: usize) -> (r: usize)
    requires
        from <= s@.len(),
    ensures
        r == spec_find_from(s@, t, from as int),
        from <= r <= s@.len(),
        r < s@.len() ==> s@[r as int] == t,
        forall|j: int| from <= j < r ==> s@[j] != t,
{
    let n = s.len();
    let mut i = from;
    while i < n
        invariant
            from <= i <= n,
            n == s@.len(),
            spec_find_from(s@, t, from as int) == spec_find_from(s@, t, i as int),
            forall|j: int| from <= j < i ==> s@[j] != t,
        decreases n - i,
    {
        if s[i] == t {
            return i;
        }
        i += 1;
    }
    i
}

// ------------------------------------------------------------------
// Decimal digit strings and their values
// ------------------------------------------------------------------

/// The integer denoted by a string of decimal digits (most significant
/// first); an empty string denotes zero.
pub open spec fn digits_val(s: Seq<u8>) -> int
    decreases s.len(),
{
    if s.len() == 0 {
        0
    } else {
        digits_val(s.drop_last()) * 10 + (s.last() - 48)
    }
}

/// Ten raised to the power `e`.
pub open spec fn pow10(e: nat) -> int
    decreases e,
{
    if e == 0 {
        1
    } else {
        10 * pow10((e - 1) as nat)
    }
}

pub proof fn lemma_pow10_pos(e: nat)
    ensures
        pow10(e) >= 1,
    decreases e,
{
    if e > 0 {
        lemma_pow10_pos((e - 1) as nat);
    }
}

pub proof fn lemma_pow10_adds(a: nat, b: nat)
    ensures
        pow10(a + b) == pow10(a) * pow10(b),
    decreases a,
{
    if a == 0 {
    } else {
        lemma_pow10_adds((a - 1) as nat, b);
        assert(pow10((a + b - 1) as nat) == pow10((a - 1) as nat) * pow10(b));
        lemma_mul_is_associative(10, pow10((a - 1) as nat), pow10(b));
    }
}

pub proof fn lemma_digits_val_nonneg(s: Seq<u8>)
    requires
        seq_all_digits(s),
    ensures
        digits_val(s) >= 0,
    decreases s.len(),
{
    if s.len() > 0 {
        assert(seq_all_digits(s.drop_last()));
        lemma_digits_val_nonneg(s.drop_last());
    }
}

/// A digit string of length `n` denotes a value below `10^n`.
pub proof fn lemma_digits_val_upper(s: Seq<u8>)
    requires
        seq_all_digits(s),
    ensures
        digits_val(s) < pow10(s.len()),
    decreases s.len(),
{
    if s.len() == 0 {
    } else {
        assert(seq_all_digits(s.drop_last()));
        lemma_digits_val_upper(s.drop_last());
        lemma_digits_val_nonneg(s.drop_last());
        let d = digits_val(s.drop_last());
        assert(d + 1 <= pow10((s.len() - 1) as nat));
        lemma_mul_inequality(d + 1, pow10((s.len() - 1) as nat), 10);
        assert((d + 1) * 10 == d * 10 + 10);
        assert(pow10((s.len() - 1) as nat) * 10 == 10 * pow10((s.len() - 1) as nat));
    }
}

/// Splitting a digit string splits its value by a power of ten.
pub proof fn lemma_digits_val_split(s: Seq<u8>, i: int)
    requires
        0 <= i <= s.len(),
    ensures
        digits_val(s) == digits_val(s.take(i)) * pow10((s.len() - i) as nat) + digits_val(
            s.skip(i),
        ),
    decreases s.len() - i,
{
    if i == s.len() {
        assert(s.take(i) =~= s);
        assert(s.skip(i) =~= Seq::<u8>::empty());
        assert(digits_val(s.skip(i)) == 0);
        assert(pow10((s.len() - i) as nat) == 1);
        assert(digits_val(s.take(i)) * 1 == digits_val(s.take(i)));
    } else {
        let dl = s.drop_last();
        lemma_digits_val_split(dl, i);
        assert(dl.take(i) =~= s.take(i));
        assert(s.skip(i).drop_last() =~= dl.skip(i));
        assert(s.skip(i).last() == s.last());
        let a = digits_val(s.take(i));
        let p = pow10((s.len() - 1 - i) as nat);
        let b = digits_val(dl.skip(i));
        let tail = s.last() - 48;
        assert(digits_val(dl) == a * p + b);
        assert(digits_val(s) == digits_val(dl) * 10 + tail);
        assert((a * p + b) * 10 == (a * p) * 10 + b * 10) by (nonlinear_arith);
        lemma_mul_is_associative(a, p, 10);
        assert((a * p) * 10 == a * (10 * p));
        assert(pow10((s.len() - i) as nat) == 10 * p);
        assert(digits_val(s.skip(i)) == b * 10 + tail);
        assert(digits_val(s) == a * (10 * p) + (b * 10 + tail));
    }
}

/// The value of a digit string is at least the value of any prefix.
pub proof fn lemma_digits_val_prefix_le(s: Seq<u8>, i: int)
    requires
        0 <= i <= s.len(),
        seq_all_digits(s),
    ensures
        digits_val(s.take(i)) <= digits_val(s),
{
    lemma_digits_val_split(s, i);
    assert forall|j: int| 0 <= j < s.take(i).len() implies is_digit(#[trigger] s.take(i)[j]) by {
        assert(s.take(i)[j] == s[j]);
    }
    assert forall|j: int| 0 <= j < s.skip(i).len() implies is_digit(#[trigger] s.skip(i)[j]) by {
        assert(s.skip(i)[j] == s[j + i]);
    }
    lemma_digits_val_nonneg(s.take(i));
    lemma_digits_val_nonneg(s.skip(i));
    lemma_pow10_pos((s.len() - i) as nat);
    let d = digits_val(s.take(i));
    let p = pow10((s.len() - i) as nat);
    if d > 0 {
        lemma_mul_left_inequality(d, 1, p);
    }
}

/// A digit string whose value exceeds the magnitude bound stays above it
/// after scaling by any power of ten.
pub proof fn lemma_scaled_overflow(d: int, e: nat)
    requires
        d > i64::MAX,
    ensures
        d * pow10(e) > i64::MAX,
{
    lemma_pow10_pos(e);
    lemma_mul_left_inequality(d, 1, pow10(e));
}

/// Whether a byte range is all digits and denotes a value in the
/// fixed-point magnitude range.
pub open spec fn spec_digits_ok(s: Seq<u8>) -> bool {
    seq_all_digits(s) && digits_val(s) <= i64::MAX
}

/// Reads the digit string `s[from..to]` as an integer.  Returns `None`
/// when a byte is not a digit or the value exceeds `i64::MAX`.
fn accumulate_digits(s: &[u8], from: usize, to: usize) -> (r: Option<u64>)
    requires
        from <= to <= s@.len(),
    ensures
        match r {
            Some(v) => spec_digits_ok(s@.subrange(from as int, to as int)) && v == digits_val(
                s@.subrange(from as int, to as int),
            ),
            None => !spec_digits_ok(s@.subrange(from as int, to as int)),
        },
{
    let ghost sub = s@.subrange(from as int, to as int);
    let mut acc: u64 = 0;
    let mut i = from;
    while i < to
        invariant
            from <= i <= to <= s@.len(),
            sub == s@.subrange(from as int, to as int),
            seq_all_digits(sub.take(i - from)),
            acc == digits_val(sub.take(i - from)),
            acc <= i64::MAX,
        decreases to - i,
    {
        let b = s[i];
        proof {
            assert(sub.take(i - from + 1).drop_last() =~= sub.take(i - from));
            assert(sub.take(i - from + 1).last() == sub[i - from]);
            assert(sub[i - from] == s@[i as int]);
        }
        if b < 48 || b > 57 {
            proof {
                assert(!is_digit(sub[i - from]));
            }
            return None;
        }
        let next: u128 = (acc as u128) * 10 + ((b - 48) as u128);
        if next > i64::MAX as u128 {
            proof {
                assert(digits_val(sub.take(i - from + 1)) > i64::MAX);
                if seq_all_digits(sub) {
                    lemma_digits_val_prefix_le(sub, i - from + 1);
                }
            }
            return None;
        }
        acc = next as u64;
        i += 1;
    }
    proof {
        assert(sub.take(to - from) =~= sub);
    }
    Some(acc)
}

/// Ten raised to the power `e`, as a machine integer.
fn pow10_u64(e: u8) -> (r: u64)
    requires
        e <= 9,
    ensures
        r == pow10(e as nat),
        r <= 1_000_000_000,
{
    proof {
        reveal_with_fuel(pow10, 11);
    }
    match e {
        0 => 1,
        1 => 10,
        2 => 100,
        3 => 1_000,
        4 => 10_000,
        5 => 100_000,
        6 => 1_000_000,
        7 => 10_000_000,
        8 => 100_000_000,
        _ => 1_000_000_000,
    }
}

// ------------------------------------------------------------------
// Coordinate decoding
// ------------------------------------------------------------------

/// The exact fixed-point value (billionths of a unit) denoted by a
/// coordinate token under a format with `dd` decimal digits, or `None`
/// when the token is malformed or out of range.
///
/// A token with a decimal point is read as a plain signed decimal numeral.
/// A token without one is read as a signed digit string denoting an integer
/// count of `10^-dd` units; the number of integer digits of the format does
/// not affect the value (padding with leading zeros never changes a
/// numeral's value).  In both shapes an optional single leading `+` or `-`
/// sign is allowed.  Tokens whose magnitude exceeds `i64::MAX` billionths,
/// and fractional parts longer than nine digits, are rejected.
pub open spec fn spec_decode(token: Seq<u8>, dd: nat) -> Option<int> {
    let neg = token.len() > 0 && token[0] == 45;
    let start: int = if token.len() > 0 && (token[0] == 45 || token[0] == 43) {
        1
    } else {
        0
    };
    let dot = spec_find_from(token, 46, 0);
    if dot < token.len() {
        // A decimal point is present: read the token as a decimal numeral.
        let ipart = token.subrange(start, dot);
        let fpart = token.subrange(dot + 1, token.len() as int);
        if start <= dot && seq_all_digits(ipart) && seq_all_digits(fpart) && ipart.len()
            + fpart.len() >= 1 && fpart.len() <= 9 {
            let mag = digits_val(ipart) * pow10(9) + digits_val(fpart) * pow10(
                (9 - fpart.len()) as nat,
            );
            if mag <= i64::MAX {
                Some(
                    if neg {
                        -mag
                    } else {
                        mag
                    },
                )
            } else {
                None
            }
        } else {
            None
        }
    } else {
        // No decimal point: a digit string scaled by the format.
        let mag_digits = token.subrange(start, token.len() as int);
        if seq_all_digits(mag_digits) {
            let mag = digits_val(mag_digits) * pow10((9 - dd) as nat);
            if mag <= i64::MAX {
                Some(
                    if neg {
                        -mag
                    } else {
                        mag
                    },
                )
            } else {
                None
            }
        } else {
            None
        }
    }
}

/// Parse a coordinate token into a fixed-point value based on the Gerber
/// format specification.
///
/// Without a decimal point, the token is a fixed-point integer: its last
/// `decimal_digits` digits are the fraction.  With a decimal point, the
/// token is read directly as a decimal numeral.  The result counts
/// billionths of a board unit and is exact; the value does not depend on
/// `integer_digits`, which only governs zero padding.
pub fn parse_coordinate(coord_str: &[u8], integer_digits: u8, decimal_digits: u8) -> (r: Result<
    i64,
    DecodeError,
>)
    requires
        decimal_digits <= 9,
    ensures
        match r {
            Ok(v) => spec_decode(coord_str@, decimal_digits as nat) == Some(v as int),
            Err(_) => spec_decode(coord_str@, decimal_digits as nat) is None,
        },
{
    let _ = integer_digits;
    let n = coord_str.len();
    let (neg, start): (bool, usize) = if n > 0 && (coord_str[0] == 45 || coord_str[0] == 43) {
        (coord_str[0] == 45, 1)
    } else {
        (false, 0)
    };
    let dot = find_byte_from(coord_str, 46, 0);
    if dot < n {
        // Decimal-point form.  The dot cannot sit on a sign byte.
        proof {
            assert(coord_str@[dot as int] == 46);
            assert(dot >= start);
        }
        let ghost ipart = coord_str@.subrange(start as int, dot as int);
        let ghost fpart = coord_str@.subrange(dot + 1, n as int);
        let ipart_val = match accumulate_digits(coord_str, start, dot) {
            Some(v) => v,
            None => {
                proof {
                    if seq_all_digits(ipart) && seq_all_digits(fpart) && fpart.len() <= 9 {
                        lemma_scaled_overflow(digits_val(ipart), 9);
                        lemma_digits_val_nonneg(fpart);
                        lemma_pow10_pos((9 - fpart.len()) as nat);
                        lemma_mul_nonnegative(digits_val(fpart), pow10((9 - fpart.len()) as nat));
                    }
                }
                return Err(DecodeError::InvalidNumber);
            },
        };
        let fpart_val = match accumulate_digits(coord_str, dot + 1, n) {
            Some(v) => v,
            None => {
                proof {
                    if seq_all_digits(ipart) && seq_all_digits(fpart) && fpart.len() <= 9 {
                        lemma_scaled_overflow(digits_val(fpart), (9 - fpart.len()) as nat);
                        lemma_digits_val_nonneg(ipart);
                        lemma_pow10_pos(9);
                        lemma_mul_nonnegative(digits_val(ipart), pow10(9));
                    }
                }
                return Err(DecodeError::InvalidNumber);
            },
        };
        let flen = n - (dot + 1);
        if (dot - start) + flen < 1 {
            return Err(DecodeError::InvalidNumber);
        }
        if flen > 9 {
            return Err(DecodeError::InvalidNumber);
        }
        let fscale = pow10_u64(9 - flen as u8);
        proof {
            lemma_digits_val_upper(fpart);
            lemma_digits_val_nonneg(fpart);
            lemma_pow10_pos((9 - flen) as nat);
            lemma_pow10_pos(flen as nat);
            lemma_mul_upper_bound(
                digits_val(fpart),
                pow10(flen as nat) - 1,
                pow10((9 - flen) as nat),
                pow10((9 - flen) as nat),
            );
            lemma_mul_inequality(pow10(flen as nat) - 1, pow10(flen as nat) - 1, pow10((9
                - flen) as nat));
            assert((pow10(flen as nat) - 1) * pow10((9 - flen) as nat) == pow10(flen as nat)
                * pow10((9 - flen) as nat) - pow10((9 - flen) as nat)) by (nonlinear_arith);
            lemma_pow10_adds(flen as nat, (9 - flen) as nat);
            reveal_with_fuel(pow10, 11);
            assert(pow10(9) == 1_000_000_000);
        }
        let frac: u64 = fpart_val * fscale;
        proof {
            assert(ipart_val <= i64::MAX);
            assert(frac <= 1_000_000_000);
            lemma_mul_upper_bound(ipart_val as int, i64::MAX as int, 1_000_000_000, 1_000_000_000);
        }
        let total: u128 = (ipart_val as u128) * 1_000_000_000 + (frac as u128);
        if total > i64::MAX as u128 {
            return Err(DecodeError::InvalidNumber);
        }
        let mag = total as i64;
        if neg {
            Ok(-mag)
        } else {
            Ok(mag)
        }
    } else {
        // Fixed-point form without a decimal point.
        let ghost mag_digits = coord_str@.subrange(start as int, n as int);
        let mag_val = match accumulate_digits(coord_str, start, n) {
            Some(v) => v,
            None => {
                proof {
                    if seq_all_digits(mag_digits) {
                        lemma_scaled_overflow(
                            digits_val(mag_digits),
                            (9 - decimal_digits) as nat,
                        );
                    }
                }
                return Err(DecodeError::InvalidNumber);
            },
        };
        let scale = pow10_u64(9 - decimal_digits);
        proof {
            lemma_mul_upper_bound(mag_val as int, i64::MAX as int, scale as int, 1_000_000_000);
        }
        let total: u128 = (mag_val as u128) * (scale as u128);
        if total > i64::MAX as u128 {
            return Err(DecodeError::InvalidNumber);
        }
        let mag = total as i64;
        if neg {
            Ok(-mag)
        } else {
            Ok(mag)
        }
    }
}

// ------------------------------------------------------------------
// Line trimming
// ------------------------------------------------------------------

/// Number of leading whitespace bytes of `s`.
pub open spec fn spec_trim_lo(s: Seq<u8>) -> int
    decreases s.len(),
{
    if s.len() > 0 && is_ws(s[0]) {
        1 + spec_trim_lo(s.drop_first())
    } else {
        0
    }
}

/// One past the last non-whitespace byte of `s`.
pub open spec fn spec_trim_hi(s: Seq<u8>) -> int
    decreases s.len(),
{
    if s.len() > 0 && is_ws(s.last()) {
        spec_trim_hi(s.drop_last())
    } else {
        s.len() as int
    }
}

/// `s` with leading and trailing whitespace removed.
pub open spec fn spec_trim(s: Seq<u8>) -> Seq<u8> {
    if spec_trim_lo(s) <= spec_trim_hi(s) {
        s.subrange(spec_trim_lo(s), spec_trim_hi(s))
    } else {
        Seq::empty()
    }
}

proof fn lemma_trim_lo_at(s: Seq<u8>, i: int)
    requires
        0 <= i <= s.len(),
        forall|j: int| 0 <= j < i ==> is_ws(#[trigger] s[j]),
        i == s.len() || !is_ws(s[i]),
    ensures
        spec_trim_lo(s) == i,
    decreases s.len(),
{
    if i == 0 {
    } else {
        let s2 = s.drop_first();
        assert(is_ws(s[0]));
        assert forall|j: int| 0 <= j < i - 1 implies is_ws(#[trigger] s2[j]) by {
            assert(s2[j] == s[j + 1]);
        }
        assert(i - 1 == s2.len() || !is_ws(s2[i - 1]));
        lemma_trim_lo_at(s2, i - 1);
    }
}

proof fn lemma_trim_hi_at(s: Seq<u8>, h: int)
    requires
        0 <= h <= s.len(),
        forall|j: int| h <= j < s.len() ==> is_ws(#[trigger] s[j]),
        h == 0 || !is_ws(s[h - 1]),
    ensures
        spec_trim_hi(s) == h,
    decreases s.len(),
{
    if h == s.len() {
        if s.len() > 0 {
            assert(!is_ws(s.last()));
        }
    } else {
        assert(is_ws(s.last()));
        let s2 = s.drop_last();
        assert forall|j: int| h <= j < s2.len() implies is_ws(#[trigger] s2[j]) by {
            assert(s2[j] == s[j]);
        }
        lemma_trim_hi_at(s2, h);
    }
}

/// The slice with leading and trailing ASCII whitespace removed.
fn trim_slice<'a>(s: &'a [u8]) -> (t: &'a [u8])
    ensures
        t@ == spec_trim(s@),
{
    let n = s.len();
    let mut lo: usize = 0;
    while lo < n && (s[lo] == 32 || (9 <= s[lo] && s[lo] <= 13))
        invariant
            lo <= n,
            n == s@.len(),
            forall|j: int| 0 <= j < lo ==> is_ws(#[trigger] s@[j]),
        decreases n - lo,
    {
        lo += 1;
    }
    let mut hi: usize = n;
    while hi > 0 && (s[hi - 1] == 32 || (9 <= s[hi - 1] && s[hi - 1] <= 13))
        invariant
            hi <= n,
            n == s@.len(),
            forall|j: int| hi <= j < n ==> is_ws(#[trigger] s@[j]),
        decreases hi,
    {
        hi -= 1;
    }
    proof {
        lemma_trim_lo_at(s@, lo as int);
        lemma_trim_hi_at(s@, hi as int);
    }
    if lo <= hi {
        vstd::slice::slice_subrange(s, lo, hi)
    } else {
        vstd::slice::slice_subrange(s, 0, 0)
    }
}

// ------------------------------------------------------------------
// Token recognizers
// ------------------------------------------------------------------

/// Whether the line is a comment (`G04 ...`).
pub open spec fn spec_is_comment(t: Seq<u8>) -> bool {
    t.len() >= 3 && t[0] == 71 && t[1] == 48 && t[2] == 52
}

/// Whether the line sets units to millimeters (`%MOMM*%`).
pub open spec fn spec_is_units_mm(t: Seq<u8>) -> bool {
    t.len() >= 7 && t[0] == 37 && t[1] == 77 && t[2] == 79 && t[3] == 77 && t[4] == 77 && t[5]
        == 42 && t[6] == 37
}

/// Whether the line sets units to inches (`%MOIN*%`).
pub open spec fn spec_is_units_inch(t: Seq<u8>) -> bool {
    t.len() >= 7 && t[0] == 37 && t[1] == 77 && t[2] == 79 && t[3] == 73 && t[4] == 78 && t[5]
        == 42 && t[6] == 37
}

/// Whether the line begins a region (`G36...`).
pub open spec fn spec_is_begin_region(t: Seq<u8>) -> bool {
    t.len() >= 3 && t[0] == 71 && t[1] == 51 && t[2] == 54
}

/// Whether the line ends a region (`G37...`).
pub open spec fn spec_is_end_region(t: Seq<u8>) -> bool {
    t.len() >= 3 && t[0] == 71 && t[1] == 51 && t[2] == 55
}

/// Whether the line is the end-of-file marker (`M02...`).
pub open spec fn spec_is_eof(t: Seq<u8>) -> bool {
    t.len() >= 3 && t[0] == 77 && t[1] == 48 && t[2] == 50
}

/// The format specification carried by a `%FSLAX<D><D>Y...*%` line:
/// integer and decimal digit counts for coordinate decoding.
pub open spec fn spec_format_spec(t: Seq<u8>) -> Option<(u8, u8)> {
    if t.len() >= 11 && t[0] == 37 && t[1] == 70 && t[2] == 83 && t[3] == 76 && t[4] == 65 && t[5]
        == 88 && t[t.len() - 2] == 42 && t[t.len() - 1] == 37 && spec_find_from(t, 89, 6) == 8
        && is_digit(t[6]) && is_digit(t[7]) {
        Some((((t[6] - 48) as u8), ((t[7] - 48) as u8)))
    } else {
        None
    }
}

/// Parse a format specification line like `%FSLAX46Y46*%`: the X field must
/// hold exactly two digits (integer digits, then decimal digits).
fn rec_format_spec(t: &[u8]) -> (r: Option<(u8, u8)>)
    ensures
        r == spec_format_spec(t@),
{
    let n = t.len();
    if n >= 11 && t[0] == 37 && t[1] == 70 && t[2] == 83 && t[3] == 76 && t[4] == 65 && t[5] == 88
        && t[n - 2] == 42 && t[n - 1] == 37 {
        let y = find_byte_from(t, 89, 6);
        if y == 8 && t[6] >= 48 && t[6] <= 57 && t[7] >= 48 && t[7] <= 57 {
            Some((t[6] - 48, t[7] - 48))
        } else {
            None
        }
    } else {
        None
    }
}

/// A decimal numeral with an optional leading `+`, as `u32`.
pub open spec fn spec_parse_u32(s: Seq<u8>) -> Option<u32> {
    let body = if s.len() > 0 && s[0] == 43 {
        s.drop_first()
    } else {
        s
    };
    if body.len() >= 1 && seq_all_digits(body) && digits_val(body) <= u32::MAX {
        Some(digits_val(body) as u32)
    } else {
        None
    }
}

/// Reads `s[from..to]` as an unsigned decimal numeral for an aperture code.
fn parse_u32_range(s: &[u8], from: usize, to: usize) -> (r: Option<u32>)
    requires
        from <= to <= s@.len(),
    ensures
        r == spec_parse_u32(s@.subrange(from as int, to as int)),
{
    let ghost sub = s@.subrange(from as int, to as int);
    let start = if to > from && s[from] == 43 {
        from + 1
    } else {
        from
    };
    proof {
        if sub.len() > 0 && sub[0] == 43 {
            assert(sub.drop_first() =~= s@.subrange(start as int, to as int));
        } else {
            assert(sub =~= s@.subrange(start as int, to as int));
        }
    }
    if to - start < 1 {
        return None;
    }
    match accumulate_digits(s, start, to) {
        Some(v) => {
            if v <= u32::MAX as u64 {
                Some(v as u32)
            } else {
                None
            }
        },
        None => None,
    }
}

/// Whether the token holds at least one decimal digit.
pub open spec fn spec_has_digit(s: Seq<u8>) -> bool {
    exists|i: int| 0 <= i < s.len() && is_digit(#[trigger] s[i])
}

/// An aperture dimension: a plain decimal numeral holding at least one
/// digit, as an exact fixed-point value (billionths of a unit).
pub open spec fn spec_decode_dim(s: Seq<u8>) -> Option<int> {
    if spec_has_digit(s) {
        spec_decode(s, 0)
    } else {
        None
    }
}

/// Reads `s[from..to]` as an aperture dimension.
fn decode_dim_range(s: &[u8], from: usize, to: usize) -> (r: Option<i64>)
    requires
        from <= to <= s@.len(),
    ensures
        match r {
            Some(v) => spec_decode_dim(s@.subrange(from as int, to as int)) == Some(v as int),
            None => spec_decode_dim(s@.subrange(from as int, to as int)) is None,
        },
{
    let ghost sub = s@.subrange(from as int, to as int);
    let mut has_digit = false;
    let mut i = from;
    while i < to
        invariant
            from <= i <= to <= s@.len(),
            sub == s@.subrange(from as int, to as int),
            has_digit == exists|j: int| 0 <= j < i - from && is_digit(#[trigger] sub[j]),
        decreases to - i,
    {
        if s[i] >= 48 && s[i] <= 57 {
            proof {
                assert(is_digit(sub[i - from]));
            }
            has_digit = true;
        }
        i += 1;
    }
    if !has_digit {
        return None;
    }
    let tok = vstd::slice::slice_subrange(s, from, to);
    match parse_coordinate(tok, 0, 0) {
        Ok(v) => Some(v),
        Err(_) => None,
    }
}

/// The aperture definition carried by a `%ADD<code>C,...*%` or
/// `%ADD<code>R,...X...*%` line.  A circle is tried first; a line that
/// fits neither shape is no aperture definition.
pub open spec fn spec_aperture_def(t: Seq<u8>) -> Option<Command> {
    if t.len() >= 6 && t[0] == 37 && t[1] == 65 && t[2] == 68 && t[3] == 68 && t[t.len() - 2] == 42
        && t[t.len() - 1] == 37 {
        match spec_circle_def(t) {
            Some(cmd) => Some(cmd),
            None => spec_rect_def(t),
        }
    } else {
        None
    }
}

/// The circle aperture reading of an `%ADD...*%` line.
pub open spec fn spec_circle_def(t: Seq<u8>) -> Option<Command> {
    let c = spec_find_from(t, 67, 4);
    if c < t.len() - 2 {
        match spec_parse_u32(t.subrange(4, c)) {
            Some(code) => {
                if c + 1 < t.len() - 2 && t[c + 1] == 44 {
                    match spec_decode_dim(t.subrange(c + 2, t.len() - 2)) {
                        Some(d) => Some(
                            Command::DefineAperture {
                                code,
                                aperture: Aperture::Circle { diameter: d as i64 },
                            },
                        ),
                        None => None,
                    }
                } else {
                    None
                }
            },
            None => None,
        }
    } else {
        None
    }
}

/// The rectangle aperture reading of an `%ADD...*%` line.
pub open spec fn spec_rect_def(t: Seq<u8>) -> Option<Command> {
    let p = spec_find_from(t, 82, 4);
    if p < t.len() - 2 {
        match spec_parse_u32(t.subrange(4, p)) {
            Some(code) => {
                if p + 1 < t.len() - 2 && t[p + 1] == 44 {
                    let x = spec_find_from(t, 88, p + 2);
                    if x < t.len() - 2 {
                        match (
                            spec_decode_dim(t.subrange(p + 2, x)),
                            spec_decode_dim(t.subrange(x + 1, t.len() - 2)),
                        ) {
                            (Some(w), Some(h)) => Some(
                                Command::DefineAperture {
                                    code,
                                    aperture: Aperture::Rectangle {
                                        width: w as i64,
                                        height: h as i64,
                                    },
                                },
                            ),
                            _ => None,
                        }
                    } else {
                        None
                    }
                } else {
                    None
                }
            },
            None => None,
        }
    } else {
        None
    }
}

/// Parse an aperture definition like `%ADD10C,0.1*%` (circle) or
/// `%ADD11R,0.1X0.2*%` (rectangle).
fn rec_aperture_definition(t: &[u8]) -> (r: Option<Command>)
    ensures
        r == spec_aperture_def(t@),
{
    let n = t.len();
    if !(n >= 6 && t[0] == 37 && t[1] == 65 && t[2] == 68 && t[3] == 68 && t[n - 2] == 42 && t[n
        - 1] == 37) {
        return None;
    }
    // Circle attempt.
    let c = find_byte_from(t, 67, 4);
    let circle: Option<Command> = if c < n - 2 {
        match parse_u32_range(t, 4, c) {
            Some(code) => {
                if c + 1 < n - 2 && t[c + 1] == 44 {
                    match decode_dim_range(t, c + 2, n - 2) {
                        Some(d) => Some(
                            Command::DefineAperture { code, aperture: Aperture::Circle { diameter: d } },
                        ),
                        None => None,
                    }
                } else {
                    None
                }
            },
            None => None,
        }
    } else {
        None
    };
    if let Some(cmd) = circle {
        return Some(cmd);
    }
    // Rectangle attempt.
    let p = find_byte_from(t, 82, 4);
    if p < n - 2 {
        match parse_u32_range(t, 4, p) {
            Some(code) => {
                if p + 1 < n - 2 && t[p + 1] == 44 {
                    let x = find_byte_from(t, 88, p + 2);
                    if x < n - 2 {
                        match decode_dim_range(t, p + 2, x) {
                            Some(w) => match decode_dim_range(t, x + 1, n - 2) {
                                Some(h) => Some(
                                    Command::DefineAperture {
                                        code,
                                        aperture: Aperture::Rectangle { width: w, height: h },
                                    },
                                ),
                                None => None,
                            },
                            None => None,
                        }
                    } else {
                        None
                    }
                } else {
                    None
                }
            },
            None => None,
        }
    } else {
        None
    }
}

/// The interpolation mode set by a `G01`/`G02`/`G03` line.
pub open spec fn spec_interp_mode(t: Seq<u8>) -> Option<InterpolationMode> {
    if t.len() >= 3 && t[0] == 71 && t[1] == 48 && t[2] == 49 {
        Some(InterpolationMode::Linear)
    } else if t.len() >= 3 && t[0] == 71 && t[1] == 48 && t[2] == 50 {
        Some(InterpolationMode::ClockwiseCircular)
    } else if t.len() >= 3 && t[0] == 71 && t[1] == 48 && t[2] == 51 {
        Some(InterpolationMode::CounterClockwiseCircular)
    } else {
        None
    }
}

/// Parse an interpolation mode command: G01 (linear), G02 (clockwise
/// arcs), G03 (counter-clockwise arcs).
fn rec_interpolation_mode(t: &[u8]) -> (r: Option<InterpolationMode>)
    ensures
        r == spec_interp_mode(t@),
{
    if t.len() >= 3 && t[0] == 71 && t[1] == 48 && t[2] == 49 {
        Some(InterpolationMode::Linear)
    } else if t.len() >= 3 && t[0] == 71 && t[1] == 48 && t[2] == 50 {
        Some(InterpolationMode::ClockwiseCircular)
    } else if t.len() >= 3 && t[0] == 71 && t[1] == 48 && t[2] == 51 {
        Some(InterpolationMode::CounterClockwiseCircular)
    } else {
        None
    }
}

/// The aperture selected by a standalone `D<code>*` line with a code of
/// at least 10.
pub open spec fn spec_aperture_sel(t: Seq<u8>) -> Option<Command> {
    if t.len() >= 2 && t[0] == 68 && t[t.len() - 1] == 42 {
        match spec_parse_u32(t.subrange(1, t.len() - 1)) {
            Some(code) => {
                if code >= 10 {
                    Some(Command::SelectAperture { code })
                } else {
                    None
                }
            },
            None => None,
        }
    } else {
        None
    }
}

/// Parse an aperture selection like `D10*`; codes 10 and up select
/// custom apertures.
fn rec_aperture_selection(t: &[u8]) -> (r: Option<Command>)
    ensures
        r == spec_aperture_sel(t@),
{
    let n = t.len();
    if n >= 2 && t[0] == 68 && t[n - 1] == 42 {
        match parse_u32_range(t, 1, n - 1) {
            Some(code) => {
                if code >= 10 {
                    Some(Command::SelectAperture { code })
                } else {
                    None
                }
            },
            None => None,
        }
    } else {
        None
    }
}

// ------------------------------------------------------------------
// Drawing commands
// ------------------------------------------------------------------

/// The parser state threaded across lines: current position, coordinate
/// format, and interpolation mode.
#[derive(Clone, Copy, Debug, PartialEq, Eq, Structural)]
pub struct ParseState {
    /// Current X position (fixed-point billionths of a unit)
    pub x: i64,
    /// Current Y position (fixed-point billionths of a unit)
    pub y: i64,
    /// Integer digits of the coordinate format
    pub integer_digits: u8,
    /// Decimal digits of the coordinate format
    pub decimal_digits: u8,
    /// Active interpolation mode
    pub mode: InterpolationMode,
}

/// The state every Gerber file starts in: origin position, a 2.4
/// coordinate format, and linear interpolation.
pub open spec fn spec_initial_state() -> ParseState {
    ParseState { x: 0, y: 0, integer_digits: 2, decimal_digits: 4, mode: InterpolationMode::Linear }
}

/// Whether a byte separates fields of a drawing command
/// (`X`, `Y`, `I`, `J`, `D` or `*`).
pub open spec fn is_field_letter(b: u8) -> bool {
    b == 88 || b == 89 || b == 73 || b == 74 || b == 68 || b == 42
}

/// The first index `i >= from` holding a field letter, or `s.len()`.
pub open spec fn spec_find_letter(s: Seq<u8>, from: int) -> int
    decreases s.len() - from,
{
    if from < 0 {
        spec_find_letter(s, 0)
    } else if from >= s.len() {
        s.len() as int
    } else if is_field_letter(s[from]) {
        from
    } else {
        spec_find_letter(s, from + 1)
    }
}

/// Find the position where the current coordinate value ends and the
/// next field begins: the next `X`, `Y`, `I`, `J`, `D` or `*` at or
/// after `start`, or the end of the line.
pub fn find_next_letter(input: &[u8], start: usize) -> (r: usize)
    requires
        start <= input@.len(),
    ensures
        r == spec_find_letter(input@, start as int),
        start <= r <= input@.len(),
{
    let n = input.len();
    let mut i = start;
    while i < n
        invariant
            start <= i <= n,
            n == input@.len(),
            spec_find_letter(input@, start as int) == spec_find_letter(input@, i as int),
        decreases n - i,
    {
        let b = input[i];
        if b == 88 || b == 89 || b == 73 || b == 74 || b == 68 || b == 42 {
            return i;
        }
        i += 1;
    }
    i
}

/// Whether bytes `a b` occur adjacently in `s`.
pub open spec fn spec_contains2(s: Seq<u8>, a: u8, b: u8) -> bool {
    exists|i: int| 0 <= i && i + 2 <= s.len() && (#[trigger] s[i]) == a && s[i + 1] == b
}

/// Whether bytes `a b c` occur adjacently in `s`.
pub open spec fn spec_contains3(s: Seq<u8>, a: u8, b: u8, c: u8) -> bool {
    exists|i: int| 0 <= i && i + 3 <= s.len() && (#[trigger] s[i]) == a && s[i + 1] == b && s[i
        + 2] == c
}

fn contains2(s: &[u8], a: u8, b: u8) -> (r: bool)
    ensures
        r == spec_contains2(s@, a, b),
{
    let n = s.len();
    if n < 2 {
        return false;
    }
    let mut i: usize = 0;
    while i < n - 1
        invariant
            i <= n - 1,
            n == s@.len(),
            n >= 2,
            forall|j: int| 0 <= j < i ==> !((#[trigger] s@[j]) == a && s@[j + 1] == b),
        decreases n - i,
    {
        if s[i] == a && s[i + 1] == b {
            proof {
                assert(s@[i as int] == a && s@[i + 1] == b);
            }
            return true;
        }
        i += 1;
    }
    false
}

fn contains3(s: &[u8], a: u8, b: u8, c: u8) -> (r: bool)
    ensures
        r == spec_contains3(s@, a, b, c),
{
    let n = s.len();
    if n < 3 {
        return false;
    }
    let mut i: usize = 0;
    while i < n - 2
        invariant
            i <= n - 2,
            n == s@.len(),
            n >= 3,
            forall|j: int|
                0 <= j < i ==> !((#[trigger] s@[j]) == a && s@[j + 1] == b && s@[j + 2] == c),
        decreases n - i,
    {
        if s[i] == a && s[i + 1] == b && s[i + 2] == c {
            proof {
                assert(s@[i as int] == a && s@[i + 1] == b && s@[i + 2] == c);
            }
            return true;
        }
        i += 1;
    }
    false
}

/// The decoded value of the field introduced by `letter` on the line, if
/// the letter occurs and its token decodes.
pub open spec fn spec_axis(s: Seq<u8>, letter: u8, dd: nat) -> Option<i64> {
    let p = spec_find_from(s, letter, 0);
    if p < s.len() {
        match spec_decode(s.subrange(p + 1, spec_find_letter(s, p + 1)), dd) {
            Some(v) => Some(v as i64),
            None => None,
        }
    } else {
        None
    }
}

/// Extract and decode the `letter` field of a drawing line; a missing or
/// malformed field yields `None` and the axis keeps its previous value.
fn parse_axis(input: &[u8], letter: u8, integer_digits: u8, decimal_digits: u8) -> (r: Option<i64>)
    requires
        decimal_digits <= 9,
    ensures
        r == spec_axis(input@, letter, decimal_digits as nat),
{
    let n = input.len();
    let p = find_byte_from(input, letter, 0);
    if p < n {
        let e = find_next_letter(input, p + 1);
        proof {
            lemma_spec_find_letter_bounds(input@, p + 1);
        }
        let tok = vstd::slice::slice_subrange(input, p + 1, e);
        match parse_coordinate(tok, integer_digits, decimal_digits) {
            Ok(v) => Some(v),
            Err(_) => None,
        }
    } else {
        None
    }
}

proof fn lemma_spec_find_letter_bounds(s: Seq<u8>, from: int)
    requires
        0 <= from <= s.len(),
    ensures
        from <= spec_find_letter(s, from) <= s.len(),
    decreases s.len() - from,
{
    if from < s.len() && !is_field_letter(s[from]) {
        lemma_spec_find_letter_bounds(s, from + 1);
    }
}

/// The effect of a drawing line on the parser state, and the command it
/// emits.  A line ending in `*` updates the current position from its
/// `X`/`Y` fields even when no `D` code matches; `D01` draws (an arc when
/// an arc mode is active and both `I` and `J` are present), `D02` moves,
/// `D03` flashes.
pub open spec fn spec_draw_step(st: ParseState, t: Seq<u8>) -> (ParseState, Option<Command>) {
    if t.len() < 1 || t[t.len() - 1] != 42 {
        (st, None)
    } else {
        let x_opt = spec_axis(t, 88, st.decimal_digits as nat);
        let y_opt = spec_axis(t, 89, st.decimal_digits as nat);
        let i_opt = spec_axis(t, 73, st.decimal_digits as nat);
        let j_opt = spec_axis(t, 74, st.decimal_digits as nat);
        let nx = match x_opt {
            Some(v) => v,
            None => st.x,
        };
        let ny = match y_opt {
            Some(v) => v,
            None => st.y,
        };
        let st2 = ParseState {
            x: nx,
            y: ny,
            integer_digits: st.integer_digits,
            decimal_digits: st.decimal_digits,
            mode: st.mode,
        };
        let cmd = if spec_contains3(t, 68, 48, 49) || spec_contains2(t, 68, 49) {
            if (st.mode is ClockwiseCircular || st.mode is CounterClockwiseCircular) && i_opt
                is Some && j_opt is Some {
                match (i_opt, j_opt) {
                    (Some(iv), Some(jv)) => Some(
                        Command::ArcDraw {
                            end_point: Point { x: nx, y: ny },
                            center_offset: Point { x: iv, y: jv },
                        },
                    ),
                    _ => None,
                }
            } else {
                Some(Command::Draw { point: Point { x: nx, y: ny } })
            }
        } else if spec_contains3(t, 68, 48, 50) || spec_contains2(t, 68, 50) {
            Some(Command::Move { point: Point { x: nx, y: ny } })
        } else if spec_contains3(t, 68, 48, 51) || spec_contains2(t, 68, 51) {
            Some(Command::Flash { point: Point { x: nx, y: ny } })
        } else {
            None
        };
        (st2, cmd)
    }
}

/// Parse a drawing line (`D01`, `D02`, `D03`) with coordinates, updating
/// the current position.
fn parse_draw_command(input: &[u8], state: ParseState) -> (r: (ParseState, Option<Command>))
    requires
        state.decimal_digits <= 9,
    ensures
        r == spec_draw_step(state, input@),
        r.0.decimal_digits == state.decimal_digits,
{
    let n = input.len();
    if n < 1 || input[n - 1] != 42 {
        return (state, None);
    }
    let x_opt = parse_axis(input, 88, state.integer_digits, state.decimal_digits);
    let y_opt = parse_axis(input, 89, state.integer_digits, state.decimal_digits);
    let i_opt = parse_axis(input, 73, state.integer_digits, state.decimal_digits);
    let j_opt = parse_axis(input, 74, state.integer_digits, state.decimal_digits);
    let nx = match x_opt {
        Some(v) => v,
        None => state.x,
    };
    let ny = match y_opt {
        Some(v) => v,
        None => state.y,
    };
    let st2 = ParseState {
        x: nx,
        y: ny,
        integer_digits: state.integer_digits,
        decimal_digits: state.decimal_digits,
        mode: state.mode,
    };
    let cmd = if contains3(input, 68, 48, 49) || contains2(input, 68, 49) {
        let arc_mode = matches!(
            state.mode,
            InterpolationMode::ClockwiseCircular | InterpolationMode::CounterClockwiseCircular
        );
        if arc_mode && i_opt.is_some() && j_opt.is_some() {
            match (i_opt, j_opt) {
                (Some(iv), Some(jv)) => Some(
                    Command::ArcDraw {
                        end_point: Point { x: nx, y: ny },
                        center_offset: Point { x: iv, y: jv },
                    },
                ),
                _ => None,
            }
        } else {
            Some(Command::Draw { point: Point { x: nx, y: ny } })
        }
    } else if contains3(input, 68, 48, 50) || contains2(input, 68, 50) {
        Some(Command::Move { point: Point { x: nx, y: ny } })
    } else if contains3(input, 68, 48, 51) || contains2(input, 68, 51) {
        Some(Command::Flash { point: Point { x: nx, y: ny } })
    } else {
        None
    };
    (st2, cmd)
}

// ------------------------------------------------------------------
// The line dispatcher and the whole-file parser
// ------------------------------------------------------------------

/// The effect of one trimmed line on the parser state, and the command it
/// emits, trying the recognizers in their fixed priority order.
pub open spec fn spec_line_step(st: ParseState, t: Seq<u8>) -> (ParseState, Option<Command>) {
    if t.len() == 0 || spec_is_comment(t) {
        (st, None)
    } else {
        match spec_format_spec(t) {
            Some((id, dd)) => (
                ParseState {
                    x: st.x,
                    y: st.y,
                    integer_digits: id,
                    decimal_digits: dd,
                    mode: st.mode,
                },
                Some(Command::FormatSpecification { integer_digits: id, decimal_digits: dd }),
            ),
            None => {
                if spec_is_units_mm(t) {
                    (st, Some(Command::SetUnitsMM))
                } else if spec_is_units_inch(t) {
                    (st, Some(Command::SetUnitsInch))
                } else {
                    match spec_aperture_def(t) {
                        Some(cmd) => (st, Some(cmd)),
                        None => {
                            match spec_interp_mode(t) {
                                Some(m) => (
                                    ParseState {
                                        x: st.x,
                                        y: st.y,
                                        integer_digits: st.integer_digits,
                                        decimal_digits: st.decimal_digits,
                                        mode: m,
                                    },
                                    Some(Command::SetInterpolationMode(m)),
                                ),
                                None => {
                                    if spec_is_begin_region(t) {
                                        (st, Some(Command::BeginRegion))
                                    } else if spec_is_end_region(t) {
                                        (st, Some(Command::EndRegion))
                                    } else if spec_is_eof(t) {
                                        (st, Some(Command::EndOfFile))
                                    } else {
                                        match spec_aperture_sel(t) {
                                            Some(cmd) => (st, Some(cmd)),
                                            None => spec_draw_step(st, t),
                                        }
                                    }
                                },
                            }
                        },
                    }
                }
            },
        }
    }
}

/// Apply the recognizer chain to one trimmed line.
fn parse_line(t: &[u8], state: ParseState) -> (r: (ParseState, Option<Command>))
    requires
        state.decimal_digits <= 9,
    ensures
        r == spec_line_step(state, t@),
        r.0.decimal_digits <= 9,
{
    if t.len() == 0 || (t.len() >= 3 && t[0] == 71 && t[1] == 48 && t[2] == 52) {
        return (state, None);
    }
    if let Some((id, dd)) = rec_format_spec(t) {
        let st2 = ParseState {
            x: state.x,
            y: state.y,
            integer_digits: id,
            decimal_digits: dd,
            mode: state.mode,
        };
        return (
            st2,
            Some(Command::FormatSpecification { integer_digits: id, decimal_digits: dd }),
        );
    }
    if t.len() >= 7 && t[0] == 37 && t[1] == 77 && t[2] == 79 && t[3] == 77 && t[4] == 77 && t[5]
        == 42 && t[6] == 37 {
        return (state, Some(Command::SetUnitsMM));
    }
    if t.len() >= 7 && t[0] == 37 && t[1] == 77 && t[2] == 79 && t[3] == 73 && t[4] == 78 && t[5]
        == 42 && t[6] == 37 {
        return (state, Some(Command::SetUnitsInch));
    }
    if let Some(cmd) = rec_aperture_definition(t) {
        return (state, Some(cmd));
    }
    if let Some(m) = rec_interpolation_mode(t) {
        let st2 = ParseState {
            x: state.x,
            y: state.y,
            integer_digits: state.integer_digits,
            decimal_digits: state.decimal_digits,
            mode: m,
        };
        return (st2, Some(Command::SetInterpolationMode(m)));
    }
    if t.len() >= 3 && t[0] == 71 && t[1] == 51 && t[2] == 54 {
        return (state, Some(Command::BeginRegion));
    }
    if t.len() >= 3 && t[0] == 71 && t[1] == 51 && t[2] == 55 {
        return (state, Some(Command::EndRegion));
    }
    if t.len() >= 3 && t[0] == 77 && t[1] == 48 && t[2] == 50 {
        return (state, Some(Command::EndOfFile));
    }
    if let Some(cmd) = rec_aperture_selection(t) {
        return (state, Some(cmd));
    }
    parse_draw_command(t, state)
}

/// The sequence a command option contributes to the output.
pub open spec fn opt_cmd_seq(c: Option<Command>) -> Seq<Command> {
    match c {
        Some(cmd) => seq![cmd],
        None => Seq::empty(),
    }
}

/// The commands produced from `s` starting at byte `pos` in state `st`:
/// one trimmed line at a time, each line ending at the next newline.
pub open spec fn spec_parse_from(s: Seq<u8>, pos: int, st: ParseState) -> Seq<Command>
    decreases s.len() - pos,
{
    if pos < 0 || pos >= s.len() {
        Seq::empty()
    } else {
        let nl = spec_find_from(s, 10, pos);
        let next = if nl < s.len() {
            nl + 1
        } else {
            s.len() as int
        };
        let t = spec_trim(s.subrange(pos, nl));
        let step = spec_line_step(st, t);
        proof {
            lemma_spec_find_from_bounds(s, 10, pos);
        }
        opt_cmd_seq(step.1) + spec_parse_from(s, next, step.0)
    }
}

pub proof fn lemma_spec_find_from_bounds(s: Seq<u8>, t: u8, from: int)
    requires
        0 <= from <= s.len(),
    ensures
        from <= spec_find_from(s, t, from) <= s.len(),
    decreases s.len() - from,
{
    if from < s.len() && s[from] != t {
        lemma_spec_find_from_bounds(s, t, from + 1);
    }
}

/// The command sequence denoted by the bytes of a Gerber file.
pub open spec fn spec_parse_gerber(s: Seq<u8>) -> Seq<Command> {
    spec_parse_from(s, 0, spec_initial_state())
}

/// Main parser function for Gerber files: parses a file's content into a
/// list of structured commands.
///
/// Parsing never fails: lines that no recognizer accepts are skipped.
/// The `Result` shape mirrors the I/O boundary, whose failures are the
/// only parse errors the pipeline knows.
pub fn parse_gerber(content: &str) -> (r: Result<Vec<Command>, ParseError>)
    ensures
        r matches Ok(cmds) && cmds@ == spec_parse_gerber(content.spec_bytes()),
{
    let bytes = content.as_bytes();
    let ghost s = bytes@;
    let n = bytes.len();
    let mut commands: Vec<Command> = Vec::new();
    let mut state = ParseState {
        x: 0,
        y: 0,
        integer_digits: 2,
        decimal_digits: 4,
        mode: InterpolationMode::Linear,
    };
    let mut pos: usize = 0;
    proof {
        assert(state == spec_initial_state());
    }
    while pos < n
        invariant
            pos <= n,
            n == s.len(),
            bytes@ == s,
            state.decimal_digits <= 9,
            spec_parse_gerber(s) == commands@ + spec_parse_from(s, pos as int, state),
        decreases n - pos,
    {
        let nl = find_byte_from(bytes, 10, pos);
        let line = vstd::slice::slice_subrange(bytes, pos, nl);
        let t = trim_slice(line);
        let (st2, cmd) = parse_line(t, state);
        let ghost prev_cmds = commands@;
        let next = if nl < n {
            nl + 1
        } else {
            n
        };
        proof {
            assert(spec_parse_from(s, pos as int, state) == opt_cmd_seq(cmd) + spec_parse_from(
                s,
                next as int,
                st2,
            ));
        }
        match cmd {
            Some(c) => {
                commands.push(c);
                proof {
                    assert(commands@ =~= prev_cmds + opt_cmd_seq(cmd));
                }
            },
            None => {
                proof {
                    assert(commands@ =~= prev_cmds + opt_cmd_seq(cmd));
                }
            },
        }
        proof {
            assert(prev_cmds + (opt_cmd_seq(cmd) + spec_parse_from(s, next as int, st2)) =~= (
            prev_cmds + opt_cmd_seq(cmd)) + spec_parse_from(s, next as int, st2));
        }
        state = st2;
        pos = next;
    }
    proof {
        assert(spec_parse_from(s, pos as int, state) =~= Seq::<Command>::empty());
        assert(commands@ + Seq::<Command>::empty() =~= commands@);
    }
    Ok(commands)
}

// ------------------------------------------------------------------
// The decode round trip
// ------------------------------------------------------------------

/// The digit string of `n` written with exactly `width` digits, most
/// significant first (leading zeros included).
pub open spec fn spec_digits_of(n: int, width: nat) -> Seq<u8>
    decreases width,
{
    if width == 0 {
        Seq::empty()
    } else {
        spec_digits_of(n / 10, (width - 1) as nat).push((48 + n % 10) as u8)
    }
}

/// Encoding a digit string's value at its own width gives the string back.
pub proof fn lemma_digits_of_val(mag: Seq<u8>)
    requires
        seq_all_digits(mag),
    ensures
        spec_digits_of(digits_val(mag), mag.len()) == mag,
    decreases mag.len(),
{
    if mag.len() > 0 {
        let dl = mag.drop_last();
        assert(seq_all_digits(dl));
        lemma_digits_of_val(dl);
        lemma_digits_val_nonneg(dl);
        let d = (mag.last() - 48) as int;
        vstd::arithmetic::div_mod::lemma_fundamental_div_mod_converse(
            digits_val(mag),
            10,
            digits_val(dl),
            d,
        );
        assert(digits_val(mag) == digits_val(dl) * 10 + d);
        assert(spec_digits_of(digits_val(mag), mag.len()) == spec_digits_of(
            digits_val(dl),
            dl.len(),
        ).push(mag.last()));
        assert(spec_digits_of(digits_val(mag), mag.len()) =~= mag);
    } else {
        assert(spec_digits_of(digits_val(mag), 0) =~= mag);
    }
}

/// Writing zero at any width gives a string of zero digits.
pub proof fn lemma_digits_of_zero(width: nat)
    ensures
        spec_digits_of(0, width) == Seq::new(width, |j: int| 48u8),
    decreases width,
{
    if width > 0 {
        lemma_digits_of_zero((width - 1) as nat);
        assert((0int) / 10 == 0);
        assert((0int) % 10 == 0);
        assert(spec_digits_of(0, width) =~= Seq::new(width, |j: int| 48u8));
    } else {
        assert(spec_digits_of(0, width) =~= Seq::new(width, |j: int| 48u8));
    }
}

/// Widening an encoding only prepends zero digits.
pub proof fn lemma_digits_of_pad(n: int, width: nat, extra: nat)
    requires
        0 <= n < pow10(width),
    ensures
        spec_digits_of(n, width + extra) == Seq::new(extra, |j: int| 48u8) + spec_digits_of(
            n,
            width,
        ),
    decreases width,
{
    if width == 0 {
        assert(n == 0);
        lemma_digits_of_zero(extra);
        assert(spec_digits_of(n, width) =~= Seq::<u8>::empty());
        assert(spec_digits_of(0, extra) =~= Seq::new(extra, |j: int| 48u8) + spec_digits_of(
            n,
            width,
        ));
    } else {
        let q = n / 10;
        let p = pow10((width - 1) as nat);
        assert(pow10(width) == 10 * p);
        assert(q < p) by {
            if q >= p {
                vstd::arithmetic::div_mod::lemma_fundamental_div_mod(n, 10);
                lemma_mul_inequality(p, q, 10);
                assert(p * 10 == 10 * p);
                assert(q * 10 == 10 * q);
            }
        }
        assert(0 <= q) by {
            vstd::arithmetic::div_mod::lemma_div_pos_is_pos(n, 10);
        }
        lemma_digits_of_pad(q, (width - 1) as nat, extra);
        assert(spec_digits_of(n, width + extra) == spec_digits_of(
            q,
            ((width + extra) - 1) as nat,
        ).push((48 + n % 10) as u8));
        assert(spec_digits_of(n, width + extra) =~= Seq::new(extra, |j: int| 48u8)
            + spec_digits_of(n, width));
    }
}

/// The decode round trip for plain fixed-point tokens.
///
/// Decoding is deterministic: the result is a function of the token and
/// the format alone.  And for every token without a decimal point that
/// decodes successfully, re-encoding the decoded digit value at any width
/// at least the token's own (such as the format's total digit count)
/// reproduces the token's digit string, padded with leading zeros.
pub proof fn lemma_decode_round_trip(token: Seq<u8>, dd: nat, width: nat)
    requires
        dd <= 9,
        spec_find_from(token, 46, 0) == token.len(),
        spec_decode(token, dd) is Some,
        (if token.len() > 0 && (token[0] == 45 || token[0] == 43) {
            token.len() - 1
        } else {
            token.len() as int
        }) <= width,
    ensures
        ({
            let start: int = if token.len() > 0 && (token[0] == 45 || token[0] == 43) {
                1
            } else {
                0
            };
            let mag = token.subrange(start, token.len() as int);
            &&& spec_decode(token, dd) == Some(
                if token.len() > 0 && token[0] == 45 {
                    -(digits_val(mag) * pow10((9 - dd) as nat))
                } else {
                    digits_val(mag) * pow10((9 - dd) as nat)
                },
            )
            &&& spec_digits_of(digits_val(mag), width) == Seq::new(
                (width - mag.len()) as nat,
                |j: int| 48u8,
            ) + mag
        }),
{
    let start: int = if token.len() > 0 && (token[0] == 45 || token[0] == 43) {
        1
    } else {
        0
    };
    let mag = token.subrange(start, token.len() as int);
    assert(seq_all_digits(mag));
    lemma_digits_of_val(mag);
    lemma_digits_val_nonneg(mag);
    lemma_digits_val_upper(mag);
    lemma_digits_of_pad(digits_val(mag), mag.len(), (width - mag.len()) as nat);
    assert(mag.len() + (width - mag.len()) == width);
}

} // verus!

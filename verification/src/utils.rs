//! Byte-count formatting and the defensive parsers used on encoder
//! telemetry: sizes with a unit suffix and elapsed-time stamps.
//!
//! All fractional arithmetic is exact: scaled integers with
//! round-half-to-even where the display rounds.

use vstd::prelude::*;
use vstd::arithmetic::div_mod::{lemma_div_is_ordered, lemma_div_is_ordered_by_denominator};
use crate::constants::{GIB, KIB, MIB, TIB};
use crate::text::{
    dec_str, dec_value, digit_char, digit_to_str, digit_val, find_first_char_from,
    is_dec_digits, is_first_occurrence_from, lemma_first_occurrence_unique, parse_u64_digits,
    seq_ends_with, str_ends_with, str_is_digits, u64_to_string,
};

verus! {

/// `num / den` rounded to the nearest integer, ties to even.
pub open spec fn spec_round_half_even(num: int, den: int) -> int {
    let q = num / den;
    let r = num % den;
    if 2 * r > den {
        q + 1
    } else if 2 * r < den {
        q
    } else if q % 2 == 0 {
        q
    } else {
        q + 1
    }
}

/// Round `num / den` to the nearest integer, ties to even.
fn round_half_even(num: u128, den: u128) -> (r: u128)
    requires
        den > 0,
        num < u128::MAX,
    ensures
        r == spec_round_half_even(num as int, den as int),
{
    let q = num / den;
    let rem = num % den;
    if rem > den - rem {
        q + 1
    } else if rem < den - rem {
        q
    } else if q % 2 == 0 {
        q
    } else {
        q + 1
    }
}

/// A quantity scaled by `unit` and rendered with two decimal places.
pub open spec fn spec_scaled_2dp(n: int, unit: int) -> Seq<char> {
    let m = spec_round_half_even(n * 100, unit);
    dec_str((m / 100) as nat) + "."@ + seq![
        digit_char((m / 10) % 10),
        digit_char(m % 10),
    ]
}

/// A quantity scaled by `unit` and rendered with one decimal place.
pub open spec fn spec_scaled_1dp(n: int, unit: int) -> Seq<char> {
    let m = spec_round_half_even(n * 10, unit);
    dec_str((m / 10) as nat) + "."@ + seq![digit_char(m % 10)]
}

/// Human-readable rendering of a byte count: the largest unit at or below
/// the value is chosen; tebi- and gibibytes show two decimals, mebibytes
/// one, kibibytes none, and small counts are plain bytes.
pub open spec fn spec_format_bytes(bytes: u64) -> Seq<char> {
    if bytes >= TIB {
        spec_scaled_2dp(bytes as int, TIB as int) + " TiB"@
    } else if bytes >= GIB {
        spec_scaled_2dp(bytes as int, GIB as int) + " GiB"@
    } else if bytes >= MIB {
        spec_scaled_1dp(bytes as int, MIB as int) + " MiB"@
    } else if bytes >= KIB {
        dec_str(spec_round_half_even(bytes as int, KIB as int) as nat) + " KiB"@
    } else {
        dec_str(bytes as nat) + " B"@
    }
}

/// Scale `n` by `unit` and render with two decimal places.
fn scaled_2dp(n: u64, unit: u64) -> (r: String)
    requires
        unit >= 1024,
    ensures
        r@ == spec_scaled_2dp(n as int, unit as int),
{
    let m128 = round_half_even((n as u128) * 100, unit as u128);
    proof {
        lemma_div_is_ordered_by_denominator(n as int * 100, 1024, unit as int);
        lemma_div_is_ordered(n as int * 100, u64::MAX as int * 100, 1024);
        assert(m128 <= u64::MAX);
    }
    let m = m128 as u64;
    let mut s = u64_to_string(m / 100);
    s.append(".");
    s.append(digit_to_str((m / 10) % 10));
    s.append(digit_to_str(m % 10));
    proof {
        assert(s@ =~= spec_scaled_2dp(n as int, unit as int));
    }
    s
}

/// Scale `n` by `unit` and render with one decimal place.
fn scaled_1dp(n: u64, unit: u64) -> (r: String)
    requires
        unit >= 1024,
    ensures
        r@ == spec_scaled_1dp(n as int, unit as int),
{
    let m128 = round_half_even((n as u128) * 10, unit as u128);
    proof {
        lemma_div_is_ordered_by_denominator(n as int * 10, 1024, unit as int);
        lemma_div_is_ordered(n as int * 10, u64::MAX as int * 10, 1024);
        assert(m128 <= u64::MAX);
    }
    let m = m128 as u64;
    let mut s = u64_to_string(m / 10);
    s.append(".");
    s.append(digit_to_str(m % 10));
    proof {
        assert(s@ =~= spec_scaled_1dp(n as int, unit as int));
    }
    s
}

/// Format a byte count as a human-readable string with a unit.
pub fn format_bytes(bytes: u64) -> (r: String)
    ensures
        r@ == spec_format_bytes(bytes),
{
    if bytes >= TIB {
        let mut s = scaled_2dp(bytes, TIB);
        s.append(" TiB");
        s
    } else if bytes >= GIB {
        let mut s = scaled_2dp(bytes, GIB);
        s.append(" GiB");
        s
    } else if bytes >= MIB {
        let mut s = scaled_1dp(bytes, MIB);
        s.append(" MiB");
        s
    } else if bytes >= KIB {
        let m128 = round_half_even(bytes as u128, KIB as u128);
        proof {
            lemma_div_is_ordered_by_denominator(bytes as int, 1024, KIB as int);
            lemma_div_is_ordered(bytes as int, u64::MAX as int, 1024);
            assert(m128 <= u64::MAX);
        }
        let m = m128 as u64;
        let mut s = u64_to_string(m);
        s.append(" KiB");
        s
    } else {
        let mut s = u64_to_string(bytes);
        s.append(" B");
        s
    }
}

/// Value of a digit string scaled by `unit`, or zero when the digits are
/// missing, malformed, or the scaled value would not fit in 64 bits.
pub open spec fn spec_size_component(digits: Seq<char>, unit: int) -> int {
    if is_dec_digits(digits) && dec_value(digits) * unit <= u64::MAX {
        dec_value(digits) * unit
    } else {
        0
    }
}

/// A byte size with an optional decimal unit suffix, as the encoder prints
/// them: "1024kB", "5MB", "2GB", or a bare count.  Anything else reads as
/// zero.
pub open spec fn spec_parse_size_with_unit(s: Seq<char>) -> int {
    if seq_ends_with(s, "kB"@) {
        spec_size_component(s.take(s.len() - 2), KIB as int)
    } else if seq_ends_with(s, "MB"@) {
        spec_size_component(s.take(s.len() - 2), MIB as int)
    } else if seq_ends_with(s, "GB"@) {
        spec_size_component(s.take(s.len() - 2), GIB as int)
    } else {
        spec_size_component(s, 1)
    }
}

/// Parse the numeric prefix `s[..len-2]` and scale it by `unit`,
/// defaulting to zero.
fn parse_scaled_prefix(s: &str, unit: u64) -> (r: u64)
    requires
        s@.len() >= 2,
        unit >= 1,
    ensures
        r == spec_size_component(s@.take(s@.len() - 2), unit as int),
{
    let len = s.unicode_len();
    let prefix = s.substring_char(0, len - 2);
    proof {
        assert(prefix@ =~= s@.take(s@.len() - 2));
    }
    match parse_u64_digits(prefix) {
        Some(v) => {
            if v <= u64::MAX / unit {
                proof {
                    assert(v * unit <= (u64::MAX as int / unit as int) * unit <= u64::MAX)
                        by (nonlinear_arith)
                        requires
                            unit >= 1,
                            v <= u64::MAX as int / unit as int,
                    ;
                }
                v * unit
            } else {
                proof {
                    assert(v * unit > u64::MAX) by (nonlinear_arith)
                        requires
                            unit >= 1,
                            v > u64::MAX as int / unit as int,
                    ;
                }
                0
            }
        },
        None => {
            proof {
                if is_dec_digits(prefix@) {
                    assert(dec_value(prefix@) > u64::MAX);
                    assert(dec_value(prefix@) * unit >= dec_value(prefix@)) by (nonlinear_arith)
                        requires
                            unit >= 1,
                            dec_value(prefix@) >= 0,
                    ;
                }
            }
            0
        },
    }
}

/// Parse a byte size with an optional unit suffix; malformed input reads
/// as zero.
pub fn parse_size_with_unit(size_str: &str) -> (r: u64)
    ensures
        r == spec_parse_size_with_unit(size_str@),
{
    proof {
        reveal_strlit("kB");
        reveal_strlit("MB");
        reveal_strlit("GB");
    }
    if str_ends_with(size_str, "kB") {
        parse_scaled_prefix(size_str, KIB)
    } else if str_ends_with(size_str, "MB") {
        parse_scaled_prefix(size_str, MIB)
    } else if str_ends_with(size_str, "GB") {
        parse_scaled_prefix(size_str, GIB)
    } else {
        match parse_u64_digits(size_str) {
            Some(v) => {
                proof {
                    assert(size_str@.take(size_str@.len() as int) =~= size_str@);
                }
                v
            },
            None => 0,
        }
    }
}

/// A clock component: its decimal value when well-formed and representable,
/// otherwise zero.
pub open spec fn spec_num_component(digits: Seq<char>) -> int {
    if is_dec_digits(digits) && dec_value(digits) <= u64::MAX {
        dec_value(digits)
    } else {
        0
    }
}

/// Centiseconds encoded by a fraction-digit string: the first two digits,
/// truncated, padded with zero.
pub open spec fn spec_frac_centis(frac: Seq<char>) -> int {
    if frac.len() >= 2 {
        digit_val(frac[0]) * 10 + digit_val(frac[1])
    } else if frac.len() == 1 {
        digit_val(frac[0]) * 10
    } else {
        0
    }
}

/// Centiseconds encoded by the seconds field, either "SS" or "SS.frac";
/// a malformed field reads as zero.
pub open spec fn spec_seconds_centis(c: Seq<char>) -> int {
    if exists|k: int| is_first_occurrence_from(c, '.', 0, k) {
        let k = choose|k: int| is_first_occurrence_from(c, '.', 0, k);
        let sec = c.take(k);
        let frac = c.subrange(k + 1, c.len() as int);
        if is_dec_digits(sec) && dec_value(sec) <= u64::MAX && (frac.len() == 0 || is_dec_digits(
            frac,
        )) {
            dec_value(sec) * 100 + spec_frac_centis(frac)
        } else {
            0
        }
    } else {
        spec_num_component(c) * 100
    }
}

/// An elapsed-time stamp "H:MM:SS.frac" in centiseconds.  The string must
/// hold exactly two colons; malformed components read as zero, and a total
/// beyond 64 bits saturates.
pub open spec fn spec_parse_time_to_centis(s: Seq<char>) -> int {
    if exists|i: int| is_first_occurrence_from(s, ':', 0, i) {
        let i = choose|i: int| is_first_occurrence_from(s, ':', 0, i);
        if exists|j: int| #[trigger] is_first_occurrence_from(s, ':', i + 1, j) {
            let j = choose|j: int| #[trigger] is_first_occurrence_from(s, ':', i + 1, j);
            if forall|p: int| j < p < s.len() ==> s[p] != ':' {
                let total = spec_num_component(s.take(i)) * 360000 + spec_num_component(
                    s.subrange(i + 1, j),
                ) * 6000 + spec_seconds_centis(s.subrange(j + 1, s.len() as int));
                if total <= u64::MAX {
                    total
                } else {
                    u64::MAX as int
                }
            } else {
                0
            }
        } else {
            0
        }
    } else {
        0
    }
}

/// Parse one clock component, defaulting to zero.
fn parse_component(s: &str) -> (r: u64)
    ensures
        r == spec_num_component(s@),
{
    match parse_u64_digits(s) {
        Some(v) => v,
        None => 0,
    }
}

/// Parse the seconds field, "SS" or "SS.frac", into centiseconds.
fn parse_seconds_centis(c: &str) -> (r: u128)
    ensures
        r as int == spec_seconds_centis(c@),
{
    proof {
        lemma_first_occurrence_unique(c@, '.', 0);
    }
    let len = c.unicode_len();
    match find_first_char_from(c, '.', 0) {
        Some(k) => {
            let sec_str = c.substring_char(0, k);
            let frac = c.substring_char(k + 1, len);
            proof {
                assert(sec_str@ =~= c@.take(k as int));
                assert(frac@ =~= c@.subrange(k as int + 1, c@.len() as int));
            }
            let frac_len = frac.unicode_len();
            let frac_ok = if frac_len == 0 {
                true
            } else {
                str_is_digits(frac)
            };
            if !frac_ok {
                return 0;
            }
            match parse_u64_digits(sec_str) {
                Some(sec) => {
                    let cc: u128 = if frac_len >= 2 {
                        let d0 = frac.get_char(0) as u32;
                        let d1 = frac.get_char(1) as u32;
                        (((d0 - 48) * 10 + (d1 - 48))) as u128
                    } else if frac_len == 1 {
                        let d0 = frac.get_char(0) as u32;
                        ((d0 - 48) * 10) as u128
                    } else {
                        0
                    };
                    (sec as u128) * 100 + cc
                },
                None => 0,
            }
        },
        None => {
            let v = parse_component(c);
            (v as u128) * 100
        },
    }
}

/// Parse an elapsed-time stamp "H:MM:SS.frac" into centiseconds; a stamp
/// without exactly two colons, or with malformed components, reads as zero,
/// and a total beyond 64 bits saturates.
pub fn parse_time_to_centiseconds(time_str: &str) -> (r: u64)
    ensures
        r as int == spec_parse_time_to_centis(time_str@),
{
    proof {
        lemma_first_occurrence_unique(time_str@, ':', 0);
    }
    let len = time_str.unicode_len();
    let i = match find_first_char_from(time_str, ':', 0) {
        Some(i) => i,
        None => {
            return 0;
        },
    };
    proof {
        lemma_first_occurrence_unique(time_str@, ':', i as int + 1);
    }
    let j = match find_first_char_from(time_str, ':', i + 1) {
        Some(j) => j,
        None => {
            return 0;
        },
    };
    match find_first_char_from(time_str, ':', j + 1) {
        Some(_) => {
            return 0;
        },
        None => {},
    }
    let hours_str = time_str.substring_char(0, i);
    let minutes_str = time_str.substring_char(i + 1, j);
    let seconds_str = time_str.substring_char(j + 1, len);
    proof {
        assert(hours_str@ =~= time_str@.take(i as int));
        assert(minutes_str@ =~= time_str@.subrange(i as int + 1, j as int));
        assert(seconds_str@ =~= time_str@.subrange(j as int + 1, time_str@.len() as int));
    }
    let hours = parse_component(hours_str);
    let minutes = parse_component(minutes_str);
    let sec_centis = parse_seconds_centis(seconds_str);
    let total: u128 = (hours as u128) * 360000 + (minutes as u128) * 6000 + sec_centis;
    if total > u64::MAX as u128 {
        u64::MAX
    } else {
        total as u64
    }
}

} // verus!

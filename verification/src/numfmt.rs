//! Exact integer text formatting for the widget readouts: decimal rendering,
//! the right-aligned three-digit volume readout, and the human-readable
//! network speed with its unit.

use vstd::prelude::*;

verus! {

/// Relies on std's `String::push`: appends the given character to the end of
/// the string.
pub assume_specification[ String::push ](s: &mut String, ch: char)
    ensures
        final(s)@ == old(s)@.push(ch),
;

/// The decimal digit character for `d` in 0..=9.
pub open spec fn digit_char(d: int) -> char {
    if d == 0 {
        '0'
    } else if d == 1 {
        '1'
    } else if d == 2 {
        '2'
    } else if d == 3 {
        '3'
    } else if d == 4 {
        '4'
    } else if d == 5 {
        '5'
    } else if d == 6 {
        '6'
    } else if d == 7 {
        '7'
    } else if d == 8 {
        '8'
    } else {
        '9'
    }
}

/// The decimal digits of a nonnegative number, most significant first, with
/// no leading zeros (a single zero for 0).
pub open spec fn spec_decimal(n: int) -> Seq<char>
    recommends
        n >= 0,
    decreases n,
{
    if n < 10 {
        seq![digit_char(n)]
    } else {
        spec_decimal(n / 10).push(digit_char(n % 10))
    }
}

fn digit_char_of(d: u64) -> (r: char)
    requires
        d <= 9,
    ensures
        r == digit_char(d as int),
{
    match d {
        0 => '0',
        1 => '1',
        2 => '2',
        3 => '3',
        4 => '4',
        5 => '5',
        6 => '6',
        7 => '7',
        8 => '8',
        _ => '9',
    }
}

/// Appends the decimal digits of `v` to `out`.
pub(crate) fn push_decimal(out: &mut String, v: u64)
    ensures
        final(out)@ == old(out)@ + spec_decimal(v as int),
    decreases v,
{
    if v >= 10 {
        push_decimal(out, v / 10);
    }
    out.push(digit_char_of(v % 10));
    proof {
        if v < 10 {
            assert(old(out)@ + spec_decimal(v as int) =~= old(out)@.push(digit_char(v as int)));
        } else {
            assert(old(out)@ + spec_decimal(v as int) =~= (old(out)@ + spec_decimal(
                v as int / 10,
            )).push(digit_char(v as int % 10)));
        }
    }
}

/// The three right-aligned characters of the volume readout: the value
/// clamped to 0..=100, space-padded to width three.
pub open spec fn spec_volume_digits(v: int) -> Seq<char> {
    let c = if v < 0 {
        0
    } else if v > 100 {
        100
    } else {
        v
    };
    if c == 100 {
        seq!['1', '0', '0']
    } else if c >= 10 {
        seq![' ', digit_char(c / 10), digit_char(c % 10)]
    } else {
        seq![' ', ' ', digit_char(c)]
    }
}

/// Right-aligned three-character readout of a volume value, clamped to
/// 0..=100 and space-padded on the left.
pub fn volume_digits(value: i32) -> (r: [char; 3])
    ensures
        r@ == spec_volume_digits(value as int),
{
    let c: i32 = if value < 0 {
        0
    } else if value > 100 {
        100
    } else {
        value
    };
    let r: [char; 3] = if c == 100 {
        ['1', '0', '0']
    } else if c >= 10 {
        [' ', digit_char_of((c / 10) as u64), digit_char_of((c % 10) as u64)]
    } else {
        [' ', ' ', digit_char_of(c as u64)]
    };
    proof {
        assert(r@ =~= spec_volume_digits(value as int));
    }
    r
}

/// The divisor of the chosen unit: bytes, KiB, MiB or GiB; a value is scaled
/// by the largest unit that keeps it at least 1, capped at GiB.
pub open spec fn spec_speed_divisor(bps: int) -> int {
    if bps < 1024 {
        1int
    } else if bps < 1024 * 1024 {
        1024int
    } else if bps < 1024 * 1024 * 1024 {
        1024int * 1024
    } else {
        1024int * 1024 * 1024
    }
}

/// The unit letter of the chosen divisor.
pub open spec fn spec_speed_unit(bps: int) -> char {
    if bps < 1024 {
        'B'
    } else if bps < 1024 * 1024 {
        'K'
    } else if bps < 1024 * 1024 * 1024 {
        'M'
    } else {
        'G'
    }
}

/// The value part of the readout: plain bytes without decimals, otherwise
/// the scaled value with one decimal digit, rounded to the nearest tenth
/// with half-tenths rounding up — a deliberate choice where a tie could
/// round either way.
pub open spec fn spec_speed_value(bps: int) -> Seq<char> {
    if bps < 1024 {
        spec_decimal(bps)
    } else {
        let den = spec_speed_divisor(bps);
        let tenths = (10 * bps + den / 2) / den;
        spec_decimal(tenths / 10) + seq!['.', digit_char(tenths % 10)]
    }
}

/// The full human-readable speed: value part followed by its unit letter.
pub open spec fn spec_human_speed(bps: int) -> Seq<char> {
    spec_speed_value(bps).push(spec_speed_unit(bps))
}

/// The value part of the human-readable speed of `bps` bytes per second.
pub fn speed_value_text(bps: u64) -> (r: String)
    ensures
        r@ == spec_speed_value(bps as int),
        r@.len() <= 21,
{
    let mut out = String::new();
    if bps < 1024 {
        push_decimal(&mut out, bps);
        proof {
            reveal_with_fuel(pow10, 5);
            lemma_decimal_len(bps as int, 4);
        }
    } else {
        let den: u64 = if bps < 1024 * 1024 {
            1024
        } else if bps < 1024 * 1024 * 1024 {
            1024 * 1024
        } else {
            1024 * 1024 * 1024
        };
        let tenths: u64 = (((bps as u128) * 10 + (den / 2) as u128) / (den as u128)) as u64;
        push_decimal(&mut out, tenths / 10);
        out.push('.');
        out.push(digit_char_of(tenths % 10));
        proof {
            assert(out@ =~= spec_decimal(tenths as int / 10) + seq![
                '.',
                digit_char(tenths as int % 10),
            ]);
            reveal_with_fuel(pow10, 18);
            let p17 = pow10(17);
            assert(p17 == 100000000000000000);
            assert((10 * (bps as int) + den as int / 2) / (den as int) < p17 * 10) by (
            nonlinear_arith)
                requires
                    den as int >= 1024,
                    0 <= (bps as int) && (bps as int) < 18446744073709551616,
                    p17 == 100000000000000000,
            ;
            assert(tenths as int / 10 < pow10(17));
            lemma_decimal_len(tenths as int / 10, 17);
        }
    }
    out
}

/// The unit letter of the human-readable speed of `bps` bytes per second.
pub fn speed_unit_char(bps: u64) -> (r: char)
    ensures
        r == spec_speed_unit(bps as int),
{
    if bps < 1024 {
        'B'
    } else if bps < 1024 * 1024 {
        'K'
    } else if bps < 1024 * 1024 * 1024 {
        'M'
    } else {
        'G'
    }
}

/// Human-readable byte rate: scaled by the largest of B/K/M/G that keeps the
/// value at least one, no decimals for plain bytes, one rounded decimal
/// otherwise, the unit letter appended.
pub fn human_speed(bps: u64) -> (r: String)
    ensures
        r@ == spec_human_speed(bps as int),
{
    let mut out = speed_value_text(bps);
    out.push(speed_unit_char(bps));
    out
}


/// Powers of ten.
pub open spec fn pow10(k: nat) -> int
    decreases k,
{
    if k == 0 {
        1
    } else {
        10 * pow10((k - 1) as nat)
    }
}

/// A number below the `k`-th power of ten has at most `k` decimal digits.
pub proof fn lemma_decimal_len(n: int, k: nat)
    requires
        0 <= n < pow10(k),
        1 <= k,
    ensures
        spec_decimal(n).len() <= k,
    decreases k,
{
    if n >= 10 {
        if k == 1 {
            assert(pow10(1) == 10);
            assert(false);
        } else {
            assert(pow10(k) == 10 * pow10((k - 1) as nat));
            assert(n / 10 < pow10((k - 1) as nat)) by (nonlinear_arith)
                requires
                    n < 10 * pow10((k - 1) as nat),
                    n >= 10,
            ;
            lemma_decimal_len(n / 10, (k - 1) as nat);
        }
    }
}

} // verus!

//! Beats per bar and tick offsets, with exact-integer rounding as a gate.

use vstd::prelude::*;
use vstd::arithmetic::div_mod::lemma_fundamental_div_mod;

use crate::error::{ConvertError, ValueContext};

verus! {

/// Resolution of a tick offset.
pub const TICKS_PER_BEAT: u128 = 48;

/// Microseconds in a minute: tempo is in beats per minute, times in microseconds.
pub const MICROS_PER_MINUTE: u128 = 60_000_000;

/// `k` is within 0.01 of `numerator / denominator`.
pub open spec fn rounds_to(numerator: int, denominator: int, k: int) -> bool {
    -denominator <= 100 * (k * denominator - numerator) <= denominator
}

/// The integer within 0.01 of `numerator / denominator`, if there is one.
pub open spec fn rounded(numerator: int, denominator: int) -> Option<int> {
    if exists|k: int| rounds_to(numerator, denominator, k) {
        Some(choose|k: int| rounds_to(numerator, denominator, k))
    } else {
        None
    }
}

/// At most one integer is within 0.01 of a ratio.
pub proof fn lemma_rounds_to_unique(n: int, d: int, k1: int, k2: int)
    requires
        d > 0,
        rounds_to(n, d, k1),
        rounds_to(n, d, k2),
    ensures
        k1 == k2,
{
    assert(-2 * d <= 100 * ((k1 - k2) * d) <= 2 * d) by (nonlinear_arith)
        requires
            -d <= 100 * (k1 * d - n) <= d,
            -d <= 100 * (k2 * d - n) <= d,
    ;
    if k1 - k2 >= 1 {
        assert((k1 - k2) * d >= d) by (nonlinear_arith)
            requires
                k1 - k2 >= 1,
                d > 0,
        ;
    } else if k1 - k2 <= -1 {
        assert((k1 - k2) * d <= -d) by (nonlinear_arith)
            requires
                k1 - k2 <= -1,
                d > 0,
        ;
    }
}

/// A ratio within 0.01 of an integer rounds to that integer.
pub proof fn lemma_rounded_is(n: int, d: int, k: int)
    requires
        d > 0,
        rounds_to(n, d, k),
    ensures
        rounded(n, d) == Some(k),
{
    let c = choose|k: int| rounds_to(n, d, k);
    lemma_rounds_to_unique(n, d, c, k);
}

/// Negating a ratio negates what it rounds to.
pub proof fn lemma_rounded_negate(n: int, d: int)
    requires
        d > 0,
    ensures
        match rounded(n, d) {
            Some(k) => rounded(-n, d) == Some(-k),
            None => rounded(-n, d) is None,
        },
{
    assert forall|k: int| rounds_to(n, d, k) <==> #[trigger] rounds_to(-n, d, -k) by {
        assert((-k) * d - (-n) == -(k * d - n)) by (nonlinear_arith);
    }
    match rounded(n, d) {
        Some(k) => {
            lemma_rounded_is(-n, d, -k);
        },
        None => {
            assert forall|j: int| !#[trigger] rounds_to(-n, d, j) by {
                assert(rounds_to(n, d, -j) <==> rounds_to(-n, d, -(-j)));
            }
        },
    }
}

/// The integer within 0.01 of `numerator / denominator`, rounding to nearest,
/// or `None` where no integer is that close.
pub fn check_round(numerator: u128, denominator: u128) -> (r: Option<u128>)
    requires
        denominator > 0,
    ensures
        match r {
            Some(k) => rounded(numerator as int, denominator as int) == Some(k as int),
            None => rounded(numerator as int, denominator as int) is None,
        },
{
    let q = numerator / denominator;
    let rem = numerator % denominator;
    let tolerance = denominator / 100;
    let ghost n = numerator as int;
    let ghost d = denominator as int;
    proof {
        lemma_fundamental_div_mod(n, d);
        assert(n == d * q + rem);
        assert(100 * tolerance <= d < 100 * (tolerance + 1));
    }
    if rem <= tolerance {
        proof {
            assert(q * d - n == -rem) by (nonlinear_arith)
                requires
                    n == d * q + rem,
            ;
            lemma_rounded_is(n, d, q as int);
        }
        Some(q)
    } else if denominator - rem <= tolerance {
        proof {
            assert(d >= 2);
            assert(2 * q <= n) by (nonlinear_arith)
                requires
                    n == d * q + rem,
                    d >= 2,
                    rem >= 0,
                    q >= 0,
            ;
            assert((q + 1) * d - n == d - rem) by (nonlinear_arith)
                requires
                    n == d * q + rem,
            ;
            lemma_rounded_is(n, d, q + 1);
        }
        Some(q + 1)
    } else {
        proof {
            assert forall|k: int| !rounds_to(n, d, k) by {
                let j = k - q;
                assert(k * d - n == j * d - rem) by (nonlinear_arith)
                    requires
                        n == d * q + rem,
                        j == k - q,
                ;
                if j <= 0 {
                    assert(j * d <= 0) by (nonlinear_arith)
                        requires
                            j <= 0,
                            d > 0,
                    ;
                } else {
                    assert(j * d >= d) by (nonlinear_arith)
                        requires
                            j >= 1,
                            d > 0,
                    ;
                }
            }
        }
        None
    }
}

/// `raw / MICROS_PER_MINUTE` is the raw tick of a note at `time_us` under tempo
/// `bpm`: `bpm × seconds × 48 / 60`.
pub open spec fn tick_numerator(bpm: u16, time_us: u64) -> int {
    bpm * time_us * TICKS_PER_BEAT
}

/// The tick offset of a note at `time_us` under tempo `bpm`: the integer within 0.01
/// of the raw tick (saturated at `usize::MAX`), or `UnroundableValue` for that time.
pub open spec fn offset_of(bpm: u16, time_us: u64) -> Result<usize, ConvertError> {
    match rounded(tick_numerator(bpm, time_us), MICROS_PER_MINUTE as int) {
        Some(k) => Ok(
            if k > usize::MAX {
                usize::MAX
            } else {
                k as usize
            },
        ),
        None => Err(
            ConvertError::UnroundableValue {
                numerator: tick_numerator(bpm, time_us) as i128,
                denominator: MICROS_PER_MINUTE,
                context: ValueContext::Time { time_us },
            },
        ),
    }
}

/// `raw / MICROS_PER_MINUTE` is the raw beats per bar: the first bar's length in
/// seconds times `bpm / 60`.
pub open spec fn bar_numerator(bar_lines: Seq<u64>, bpm: u16) -> int {
    (bar_lines[1] - bar_lines[0]) * bpm
}

/// Beats per bar: `ChartTooShort` under two bar lines, else the integer within 0.01 of
/// the raw value (0 where that integer is negative), or `UnroundableValue`.
pub open spec fn beats_per_bar_of(bar_lines: Seq<u64>, bpm: u16) -> Result<u64, ConvertError> {
    if bar_lines.len() < 2 {
        Err(ConvertError::ChartTooShort)
    } else {
        match rounded(bar_numerator(bar_lines, bpm), MICROS_PER_MINUTE as int) {
            Some(k) => Ok(
                if k < 0 {
                    0
                } else {
                    k as u64
                },
            ),
            None => Err(
                ConvertError::UnroundableValue {
                    numerator: bar_numerator(bar_lines, bpm) as i128,
                    denominator: MICROS_PER_MINUTE,
                    context: ValueContext::BeatsPerBar,
                },
            ),
        }
    }
}

/// Tick offset of a note at `time_us` under tempo `bpm`, at 48 ticks per beat.
pub fn time_to_offset(bpm: u16, time_us: u64) -> (r: Result<usize, ConvertError>)
    ensures
        r == offset_of(bpm, time_us),
{
    let tempo = bpm as u128;
    let time = time_us as u128;
    proof {
        assert(tempo * time <= 0xffff * 0xffff_ffff_ffff_ffff) by (nonlinear_arith)
            requires
                tempo <= 0xffff,
                time <= 0xffff_ffff_ffff_ffff,
        ;
    }
    let numerator = tempo * time * TICKS_PER_BEAT;
    match check_round(numerator, MICROS_PER_MINUTE) {
        Some(k) => {
            if k > usize::MAX as u128 {
                Ok(usize::MAX)
            } else {
                Ok(k as usize)
            }
        },
        None => Err(
            ConvertError::UnroundableValue {
                numerator: numerator as i128,
                denominator: MICROS_PER_MINUTE,
                context: ValueContext::Time { time_us },
            },
        ),
    }
}

/// Beats per bar under tempo `bpm`, from the length of the first bar.
pub fn beats_per_bar(bar_lines: &Vec<u64>, bpm: u16) -> (r: Result<u64, ConvertError>)
    ensures
        r == beats_per_bar_of(bar_lines@, bpm),
{
    if bar_lines.len() < 2 {
        return Err(ConvertError::ChartTooShort);
    }
    let first = bar_lines[0];
    let second = bar_lines[1];
    let ghost raw = bar_numerator(bar_lines@, bpm);
    let ghost d = MICROS_PER_MINUTE as int;
    if first <= second {
        let length = (second - first) as u128;
        let tempo = bpm as u128;
        proof {
            assert(length * tempo <= 0x1_0000_0000_0000_0000 * 0x1_0000) by (nonlinear_arith)
                requires
                    length <= 0xffff_ffff_ffff_ffff,
                    tempo <= 0xffff,
            ;
        }
        let magnitude = length * tempo;
        assert(magnitude == raw);
        match check_round(magnitude, MICROS_PER_MINUTE) {
            Some(k) => {
                proof {
                    assert(k <= 0xffff_ffff_ffff_ffff) by (nonlinear_arith)
                        requires
                            -d <= 100 * (k * d - magnitude) <= d,
                            d == 60_000_000,
                            magnitude <= 0x1_0000_0000_0000_0000 * 0x1_0000,
                    ;
                }
                Ok(k as u64)
            },
            None => Err(
                ConvertError::UnroundableValue {
                    numerator: magnitude as i128,
                    denominator: MICROS_PER_MINUTE,
                    context: ValueContext::BeatsPerBar,
                },
            ),
        }
    } else {
        let length = (first - second) as u128;
        let tempo = bpm as u128;
        proof {
            assert(length * tempo <= 0x1_0000_0000_0000_0000 * 0x1_0000) by (nonlinear_arith)
                requires
                    length <= 0xffff_ffff_ffff_ffff,
                    tempo <= 0xffff,
            ;
        }
        let magnitude = length * tempo;
        proof {
            assert(magnitude == -raw) by (nonlinear_arith)
                requires
                    magnitude == length * tempo,
                    length == first - second,
                    tempo == bpm,
                    raw == (second - first) * (bpm as int),
            ;
            lemma_rounded_negate(magnitude as int, d);
            assert(-(magnitude as int) == raw);
        }
        match check_round(magnitude, MICROS_PER_MINUTE) {
            Some(k) => {
                proof {
                    assert(rounded(raw, d) == Some(-(k as int)));
                }
                Ok(0)
            },
            None => Err(
                ConvertError::UnroundableValue {
                    numerator: -(magnitude as i128),
                    denominator: MICROS_PER_MINUTE,
                    context: ValueContext::BeatsPerBar,
                },
            ),
        }
    }
}

/// Where the first bar's raw beats per bar is within 0.01 of an integer `k`, beats
/// per bar is `k` (0 for a negative `k`); where it is near no integer, the derivation
/// fails with `UnroundableValue`.
pub proof fn lemma_beats_per_bar_rounds(bar_lines: Seq<u64>, bpm: u16, k: int)
    requires
        bar_lines.len() >= 2,
    ensures
        rounds_to(bar_numerator(bar_lines, bpm), MICROS_PER_MINUTE as int, k)
            ==> beats_per_bar_of(bar_lines, bpm) == Ok::<u64, ConvertError>(
            if k < 0 {
                0
            } else {
                k as u64
            },
        ),
        (forall|j: int| !rounds_to(bar_numerator(bar_lines, bpm), MICROS_PER_MINUTE as int, j))
            ==> beats_per_bar_of(bar_lines, bpm) == Err::<u64, ConvertError>(
            ConvertError::UnroundableValue {
                numerator: bar_numerator(bar_lines, bpm) as i128,
                denominator: MICROS_PER_MINUTE,
                context: ValueContext::BeatsPerBar,
            },
        ),
{
    if rounds_to(bar_numerator(bar_lines, bpm), MICROS_PER_MINUTE as int, k) {
        lemma_rounded_is(bar_numerator(bar_lines, bpm), MICROS_PER_MINUTE as int, k);
    }
}

/// Where the raw tick of a note is within 0.01 of an integer `k`, its offset is `k`
/// (saturated at `usize::MAX`); where it is near no integer, quantizing fails with
/// `UnroundableValue` for that time.
pub proof fn lemma_offset_rounds(bpm: u16, time_us: u64, k: int)
    ensures
        rounds_to(tick_numerator(bpm, time_us), MICROS_PER_MINUTE as int, k)
            ==> offset_of(bpm, time_us) == Ok::<usize, ConvertError>(
            if k > usize::MAX {
                usize::MAX
            } else {
                k as usize
            },
        ),
        (forall|j: int| !rounds_to(tick_numerator(bpm, time_us), MICROS_PER_MINUTE as int, j))
            ==> offset_of(bpm, time_us) == Err::<usize, ConvertError>(
            ConvertError::UnroundableValue {
                numerator: tick_numerator(bpm, time_us) as i128,
                denominator: MICROS_PER_MINUTE,
                context: ValueContext::Time { time_us },
            },
        ),
{
    if rounds_to(tick_numerator(bpm, time_us), MICROS_PER_MINUTE as int, k) {
        lemma_rounded_is(tick_numerator(bpm, time_us), MICROS_PER_MINUTE as int, k);
    }
}

} // verus!

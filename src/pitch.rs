//! Playback rate of a note, in fixed point with `POS_ONE` as one frame per
//! output frame.
use vstd::prelude::*;
use crate::{OUTPUT_RATE, POS_ONE};

verus! {

/// The pitch at which the sample plays at its recorded rate.
pub const ROOT_PITCH: i32 = 48;

/// The largest playback rate.
pub const RATIO_CAP: u64 = 0x1_0000_0000_0000;

/// `2^(s/12)` in units of `POS_ONE`, rounded to the nearest unit.
pub open spec fn semitone_ratio(s: int) -> nat {
    if s == 0 { 65536 }
    else if s == 1 { 69433 }
    else if s == 2 { 73562 }
    else if s == 3 { 77936 }
    else if s == 4 { 82570 }
    else if s == 5 { 87480 }
    else if s == 6 { 92682 }
    else if s == 7 { 98193 }
    else if s == 8 { 104032 }
    else if s == 9 { 110218 }
    else if s == 10 { 116772 }
    else { 123715 }
}

/// `x` moved by `oct` octaves: doubled (up to `RATIO_CAP`) per octave up,
/// halved (rounding down) per octave down.
pub open spec fn octave_shift(x: nat, oct: int) -> nat
    decreases (if oct >= 0 { oct } else { -oct }),
{
    if oct > 0 {
        let y = 2 * octave_shift(x, oct - 1);
        if y > RATIO_CAP { RATIO_CAP as nat } else { y }
    } else if oct < 0 {
        octave_shift(x, oct + 1) / 2
    } else {
        x
    }
}

/// Frames of the sample advanced per output frame for a note of `pitch` on a
/// sample recorded at `native_rate`.
pub open spec fn spec_pitch_ratio(pitch: i32, native_rate: u32) -> u64 {
    let d = pitch - ROOT_PITCH;
    let base = semitone_ratio(d % 12) * native_rate / OUTPUT_RATE as int;
    octave_shift(base as nat, d / 12) as u64
}

fn semitone(s: u64) -> (r: u64)
    requires
        s < 12,
    ensures
        r == semitone_ratio(s as int),
{
    if s == 0 { 65536 }
    else if s == 1 { 69433 }
    else if s == 2 { 73562 }
    else if s == 3 { 77936 }
    else if s == 4 { 82570 }
    else if s == 5 { 87480 }
    else if s == 6 { 92682 }
    else if s == 7 { 98193 }
    else if s == 8 { 104032 }
    else if s == 9 { 110218 }
    else if s == 10 { 116772 }
    else { 123715 }
}

proof fn lemma_cap_stays(x: nat, a: int, b: int)
    requires
        0 <= a <= b,
        octave_shift(x, a) == RATIO_CAP,
    ensures
        octave_shift(x, b) == RATIO_CAP,
    decreases b - a,
{
    if a < b {
        lemma_cap_stays(x, a, b - 1);
    }
}

proof fn lemma_zero_stays(x: nat, a: int, b: int)
    requires
        b <= a <= 0,
        octave_shift(x, a) == 0,
    ensures
        octave_shift(x, b) == 0,
    decreases a - b,
{
    if b < a {
        lemma_zero_stays(x, a, b + 1);
    }
}

proof fn lemma_shift_bound(x: nat, oct: int)
    requires
        x <= RATIO_CAP,
    ensures
        octave_shift(x, oct) <= RATIO_CAP,
    decreases (if oct >= 0 { oct } else { -oct }),
{
    if oct > 0 {
        lemma_shift_bound(x, oct - 1);
    } else if oct < 0 {
        lemma_shift_bound(x, oct + 1);
    }
}

pub fn pitch_ratio(pitch: i32, native_rate: u32) -> (r: u64)
    ensures
        r == spec_pitch_ratio(pitch, native_rate),
        r <= RATIO_CAP,
{
    let bias: i64 = 200_000_000;
    let d: i64 = pitch as i64 - ROOT_PITCH as i64;
    let e: u64 = (d + 12 * bias) as u64;
    let s: u64 = e % 12;
    let oct: i64 = (e / 12) as i64 - bias;
    assert(s == d % 12 && oct == d / 12) by {
        vstd::arithmetic::div_mod::lemma_fundamental_div_mod(d as int, 12);
        vstd::arithmetic::div_mod::lemma_fundamental_div_mod_converse(e as int, 12, (d / 12) as int + bias as int, (d % 12) as int);
    }
    let semi = semitone(s);
    assert(semi * native_rate <= 123715 * 0x1_0000_0000) by (nonlinear_arith)
        requires semi <= 123715, native_rate <= 0xffff_ffff;
    let base: u64 = semi * native_rate as u64 / OUTPUT_RATE;
    assert(base <= RATIO_CAP);
    let mut r: u64 = base;
    let mut i: i64 = 0;
    proof {
        lemma_shift_bound(base as nat, oct as int);
    }
    assert(spec_pitch_ratio(pitch, native_rate) == octave_shift(base as nat, oct as int));
    if oct >= 0 {
        while i < oct
            invariant
                0 <= i <= oct,
                r == octave_shift(base as nat, i as int),
                r <= RATIO_CAP,
                spec_pitch_ratio(pitch, native_rate) == octave_shift(base as nat, oct as int),
            decreases oct - i,
        {
            if r == 0 || r == RATIO_CAP {
                proof {
                    if r == 0 {
                        lemma_zero_is_fixed_up(base as nat, i as int, oct as int);
                    } else {
                        lemma_cap_stays(base as nat, i as int, oct as int);
                    }
                }
                return r;
            }
            r = if r * 2 > RATIO_CAP { RATIO_CAP } else { r * 2 };
            i = i + 1;
        }
    } else {
        while i > oct
            invariant
                oct <= i <= 0,
                r == octave_shift(base as nat, i as int),
                r <= RATIO_CAP,
                spec_pitch_ratio(pitch, native_rate) == octave_shift(base as nat, oct as int),
            decreases i - oct,
        {
            if r == 0 {
                proof {
                    lemma_zero_stays(base as nat, i as int, oct as int);
                }
                return r;
            }
            r = r / 2;
            i = i - 1;
        }
    }
    r
}

proof fn lemma_zero_is_fixed_up(x: nat, a: int, b: int)
    requires
        0 <= a <= b,
        octave_shift(x, a) == 0,
    ensures
        octave_shift(x, b) == 0,
    decreases b - a,
{
    if a < b {
        lemma_zero_is_fixed_up(x, a, b - 1);
    }
}

} // verus!

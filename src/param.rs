//! The engine's named controls. Values are held in thousandths of their unit.
use vstd::prelude::*;
use crate::envelope::MAX_STAGE_FRAMES;
use crate::{ENV_ONE, OUTPUT_RATE, POS_ONE};

verus! {

/// Thousandths per unit of a control value.
pub const MILLI: i64 = 1000;

/// The longest envelope stage, in milliseconds.
pub const MAX_STAGE_MS: i64 = 1_000_000_000;

/// The largest start offset that positions can hold, in thousandths of a frame.
pub const MAX_OFFSET_MILLI: i64 = 0x100_0000_0000;

#[derive(Clone, Copy, Debug, PartialEq, Eq, Structural, PartialOrd, Ord, Hash)]
pub enum SamplerParam {
    Amp,
    Offset,
    Attack,
    Decay,
    Sustain,
    Release,
}

#[derive(Clone, Copy, Debug, PartialEq, Eq, Structural)]
pub enum Unit {
    Decibel,
    Seconds,
    Samples,
}

/// A bounded control: `val` is its current value, all in thousandths of `unit`.
#[derive(Clone, Copy, Debug, PartialEq, Eq, Structural)]
pub struct Param {
    pub val: i64,
    pub default: i64,
    pub min: i64,
    pub max: i64,
    pub step: i64,
    pub unit: Option<Unit>,
}

pub const NUM_PARAMS: usize = 6;

/// The control stored at each position of the registry, in key order.
pub open spec fn key_at(i: int) -> SamplerParam {
    if i == 0 {
        SamplerParam::Amp
    } else if i == 1 {
        SamplerParam::Offset
    } else if i == 2 {
        SamplerParam::Attack
    } else if i == 3 {
        SamplerParam::Decay
    } else if i == 4 {
        SamplerParam::Sustain
    } else {
        SamplerParam::Release
    }
}

impl SamplerParam {
    pub open spec fn spec_index(self) -> int {
        match self {
            SamplerParam::Amp => 0,
            SamplerParam::Offset => 1,
            SamplerParam::Attack => 2,
            SamplerParam::Decay => 3,
            SamplerParam::Sustain => 4,
            SamplerParam::Release => 5,
        }
    }

    /// Position of this control in the registry.
    pub fn index(&self) -> (r: usize)
        ensures
            r == self.spec_index(),
            r < NUM_PARAMS,
            key_at(r as int) == *self,
    {
        match self {
            SamplerParam::Amp => 0,
            SamplerParam::Offset => 1,
            SamplerParam::Attack => 2,
            SamplerParam::Decay => 3,
            SamplerParam::Sustain => 4,
            SamplerParam::Release => 5,
        }
    }

    pub open spec fn spec_name(self) -> Seq<char> {
        match self {
            SamplerParam::Amp => seq!['A', 'm', 'p'],
            SamplerParam::Offset => seq!['O', 'f', 'f', 's', 'e', 't'],
            SamplerParam::Attack => seq!['A', 't', 't', 'a', 'c', 'k'],
            SamplerParam::Decay => seq!['D', 'e', 'c', 'a', 'y'],
            SamplerParam::Sustain => seq!['S', 'u', 's', 't', 'a', 'i', 'n'],
            SamplerParam::Release => seq!['R', 'e', 'l', 'e', 'a', 's', 'e'],
        }
    }

    /// The control's display name.
    pub fn name(&self) -> (r: &'static str)
        ensures
            r@ == self.spec_name(),
    {
        match self {
            SamplerParam::Amp => {
                proof { reveal_strlit("Amp"); }
                "Amp"
            },
            SamplerParam::Offset => {
                proof { reveal_strlit("Offset"); }
                "Offset"
            },
            SamplerParam::Attack => {
                proof { reveal_strlit("Attack"); }
                "Attack"
            },
            SamplerParam::Decay => {
                proof { reveal_strlit("Decay"); }
                "Decay"
            },
            SamplerParam::Sustain => {
                proof { reveal_strlit("Sustain"); }
                "Sustain"
            },
            SamplerParam::Release => {
                proof { reveal_strlit("Release"); }
                "Release"
            },
        }
    }
}

impl Param {
    /// A control whose current value starts at its default.
    pub fn new(min: i64, default: i64, max: i64, step: i64) -> (r: Param)
        ensures
            r == (Param { val: default, default, min, max, step, unit: None }),
    {
        Param { val: default, default, min, max, step, unit: None }
    }

    pub fn with_unit(self, unit: Unit) -> (r: Param)
        ensures
            r == (Param { unit: Some(unit), ..self }),
    {
        Param { unit: Some(unit), ..self }
    }
}

/// The registry as built for a sample whose first audible frame is `onset`.
pub open spec fn initial_params(onset: int) -> Seq<Param> {
    seq![
        Param { val: -6000i64, default: -6000i64, min: -75000i64, max: 6000, step: 1000, unit: Some(Unit::Decibel) },
        Param { val: (onset * MILLI) as i64, default: (onset * MILLI) as i64, min: (onset * MILLI) as i64, max: i64::MAX, step: 1000, unit: Some(Unit::Samples) },
        Param { val: 5, default: 5, min: 5, max: 15000, step: 1, unit: Some(Unit::Seconds) },
        Param { val: 250, default: 250, min: 5, max: 15000, step: 1, unit: Some(Unit::Seconds) },
        Param { val: 0, default: 0, min: 5, max: 15000, step: 1, unit: None },
        Param { val: 0, default: 0, min: 5, max: 15000, step: 1, unit: Some(Unit::Seconds) },
    ]
}

/// Builds the registry; `onset` is both the default and the least start offset.
pub fn initial_param_list(onset: u32) -> (r: Vec<Param>)
    ensures
        r@ == initial_params(onset as int),
{
    let off: i64 = onset as i64 * MILLI;
    let r = vec![
        Param::new(-75 * MILLI, -6 * MILLI, 6 * MILLI, MILLI).with_unit(Unit::Decibel),
        Param::new(off, off, i64::MAX, MILLI).with_unit(Unit::Samples),
        Param::new(5, 5, 15 * MILLI, 1).with_unit(Unit::Seconds),
        Param::new(5, 250, 15 * MILLI, 1).with_unit(Unit::Seconds),
        Param::new(5, 0, 15 * MILLI, 1),
        Param::new(5, 0, 15 * MILLI, 1).with_unit(Unit::Seconds),
    ];
    assert(r@ =~= initial_params(onset as int));
    r
}

pub open spec fn clamp(v: int, lo: int, hi: int) -> int {
    if v < lo {
        lo
    } else if v > hi {
        hi
    } else {
        v
    }
}

/// Frames of an envelope stage lasting `ms` milliseconds (clamped to the
/// supported range).
pub open spec fn spec_stage_frames(ms: i64) -> u64 {
    (clamp(ms as int, 0, MAX_STAGE_MS as int) * OUTPUT_RATE / 1000) as u64
}

/// Envelope level of a sustain value in thousandths of full scale (clamped
/// to `[0, 1]`).
pub open spec fn spec_sustain_level(v: i64) -> u64 {
    (clamp(v as int, 0, 1000) * ENV_ONE / 1000) as u64
}

/// Playback position of a start offset in thousandths of a frame (clamped
/// to the representable range).
pub open spec fn spec_offset_position(v: i64) -> u64 {
    (clamp(v as int, 0, MAX_OFFSET_MILLI as int) * POS_ONE / 1000) as u64
}

fn clamp_i64(v: i64, lo: i64, hi: i64) -> (r: i64)
    requires
        lo <= hi,
    ensures
        r == clamp(v as int, lo as int, hi as int),
{
    if v < lo {
        lo
    } else if v > hi {
        hi
    } else {
        v
    }
}

pub fn stage_frames(ms: i64) -> (r: u64)
    ensures
        r == spec_stage_frames(ms),
        r <= MAX_STAGE_FRAMES,
{
    let c = clamp_i64(ms, 0, MAX_STAGE_MS) as u64;
    assert(c * OUTPUT_RATE <= MAX_STAGE_MS * OUTPUT_RATE) by (nonlinear_arith)
        requires c <= MAX_STAGE_MS;
    c * OUTPUT_RATE / 1000
}

pub fn sustain_level(v: i64) -> (r: u64)
    ensures
        r == spec_sustain_level(v),
        r <= ENV_ONE,
{
    let c = clamp_i64(v, 0, 1000) as u64;
    assert(c * ENV_ONE <= 1000 * ENV_ONE) by (nonlinear_arith)
        requires c <= 1000;
    c * ENV_ONE / 1000
}

pub fn offset_position(v: i64) -> (r: u64)
    ensures
        r == spec_offset_position(v),
        r <= MAX_OFFSET_MILLI * POS_ONE / 1000,
{
    let c = clamp_i64(v, 0, MAX_OFFSET_MILLI) as u64;
    assert(c * POS_ONE <= MAX_OFFSET_MILLI * POS_ONE) by (nonlinear_arith)
        requires c <= MAX_OFFSET_MILLI;
    c * POS_ONE / 1000
}

} // verus!

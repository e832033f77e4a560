//! A linear attack/decay/sustain/release envelope stepped once per output frame.
use vstd::prelude::*;
use crate::ENV_ONE;

verus! {

/// The longest stage duration, in frames.
pub const MAX_STAGE_FRAMES: u64 = 0x100_0000_0000;

#[derive(Clone, Copy, Debug, PartialEq, Eq, Structural)]
pub enum EnvStage {
    /// At rest: the envelope has fully decayed (or never started).
    Init,
    Attack,
    Decay,
    Sustain,
    Release,
}

/// Stage durations are counted in output frames; `sustain` and levels are
/// fractions of `ENV_ONE`.
#[derive(Clone, Copy, Debug)]
pub struct Envelope {
    pub stage: EnvStage,
    pub attack: u64,
    pub decay: u64,
    pub sustain: u64,
    pub release: u64,
    /// Frames spent in the current stage.
    pub elapsed: u64,
    /// The level most recently produced.
    pub level: u64,
    /// The level at which the current release began.
    pub release_from: u64,
}

impl Envelope {
    pub open spec fn wf(&self) -> bool {
        &&& self.attack <= MAX_STAGE_FRAMES
        &&& self.decay <= MAX_STAGE_FRAMES
        &&& self.release <= MAX_STAGE_FRAMES
        &&& self.sustain <= ENV_ONE
        &&& self.level <= ENV_ONE
        &&& self.release_from <= ENV_ONE
    }

    /// The level produced by one step, and the envelope after it.
    pub open spec fn step(self) -> (u64, Envelope) {
        match self.stage {
            EnvStage::Init => (0, Envelope { level: 0, ..self }),
            EnvStage::Attack => if self.elapsed < self.attack {
                let out = (ENV_ONE * self.elapsed / (self.attack as int)) as u64;
                (out, Envelope { level: out, elapsed: (self.elapsed + 1) as u64, ..self })
            } else {
                (ENV_ONE, Envelope { level: ENV_ONE, stage: EnvStage::Decay, elapsed: 0, ..self })
            },
            EnvStage::Decay => if self.elapsed < self.decay {
                let out = (ENV_ONE - (ENV_ONE - self.sustain) * self.elapsed / (self.decay as int)) as u64;
                (out, Envelope { level: out, elapsed: (self.elapsed + 1) as u64, ..self })
            } else {
                (self.sustain, Envelope { level: self.sustain, stage: EnvStage::Sustain, elapsed: 0, ..self })
            },
            EnvStage::Sustain => (self.sustain, Envelope { level: self.sustain, ..self }),
            EnvStage::Release => if self.elapsed < self.release {
                let out = (self.release_from * (self.release - self.elapsed) / self.release as int) as u64;
                (out, Envelope { level: out, elapsed: (self.elapsed + 1) as u64, ..self })
            } else {
                (0, Envelope { level: 0, stage: EnvStage::Init, elapsed: 0, ..self })
            },
        }
    }

    /// The envelope after `start_attack`.
    pub open spec fn attacked(self) -> Envelope {
        Envelope { stage: EnvStage::Attack, elapsed: 0, ..self }
    }

    /// The envelope after `start_release`: from any stage but a running
    /// release, a release begins from the current level.
    pub open spec fn released(self) -> Envelope {
        match self.stage {
            EnvStage::Release => self,
            _ => Envelope { stage: EnvStage::Release, elapsed: 0, release_from: self.level, ..self },
        }
    }

    /// The envelope after `n` steps.
    pub open spec fn steps(self, n: nat) -> Envelope
        decreases n,
    {
        if n == 0 {
            self
        } else {
            self.step().1.steps((n - 1) as nat)
        }
    }

    pub open spec fn spec_new() -> Envelope {
        Envelope {
            stage: EnvStage::Init,
            attack: 0,
            decay: 0,
            sustain: 0,
            release: 0,
            elapsed: 0,
            level: 0,
            release_from: 0,
        }
    }

    /// An envelope at rest with every stage of length zero.
    pub fn new() -> (r: Envelope)
        ensures
            r == Envelope::spec_new(),
            r.wf(),
    {
        Envelope {
            stage: EnvStage::Init,
            attack: 0,
            decay: 0,
            sustain: 0,
            release: 0,
            elapsed: 0,
            level: 0,
            release_from: 0,
        }
    }

    pub fn start_attack(&mut self)
        ensures
            *final(self) == old(self).attacked(),
    {
        self.stage = EnvStage::Attack;
        self.elapsed = 0;
    }

    pub fn start_release(&mut self)
        ensures
            *final(self) == old(self).released(),
    {
        match self.stage {
            EnvStage::Release => {},
            _ => {
                self.stage = EnvStage::Release;
                self.elapsed = 0;
                self.release_from = self.level;
            },
        }
    }

    /// Produces the current level and advances the envelope by one frame.
    pub fn value(&mut self) -> (r: u64)
        requires
            old(self).wf(),
        ensures
            (r, *final(self)) == old(self).step(),
            final(self).wf(),
            r <= ENV_ONE,
    {
        match self.stage {
            EnvStage::Init => {
                self.level = 0;
            },
            EnvStage::Attack => {
                if self.elapsed < self.attack {
                    proof {
                        lemma_scaled_fraction(ENV_ONE as nat, self.elapsed as nat, self.attack as nat);
                    }
                    self.level = ENV_ONE * self.elapsed / self.attack;
                    self.elapsed = self.elapsed + 1;
                } else {
                    self.level = ENV_ONE;
                    self.stage = EnvStage::Decay;
                    self.elapsed = 0;
                }
            },
            EnvStage::Decay => {
                if self.elapsed < self.decay {
                    proof {
                        lemma_scaled_fraction((ENV_ONE - self.sustain) as nat, self.elapsed as nat, self.decay as nat);
                    }
                    self.level = ENV_ONE - (ENV_ONE - self.sustain) * self.elapsed / self.decay;
                    self.elapsed = self.elapsed + 1;
                } else {
                    self.level = self.sustain;
                    self.stage = EnvStage::Sustain;
                    self.elapsed = 0;
                }
            },
            EnvStage::Sustain => {
                self.level = self.sustain;
            },
            EnvStage::Release => {
                if self.elapsed < self.release {
                    proof {
                        lemma_scaled_fraction(self.release_from as nat, (self.release - self.elapsed) as nat, self.release as nat);
                    }
                    self.level = self.release_from * (self.release - self.elapsed) / self.release;
                    self.elapsed = self.elapsed + 1;
                } else {
                    self.level = 0;
                    self.stage = EnvStage::Init;
                    self.elapsed = 0;
                }
            },
        }
        self.level
    }
}

/// `a * b / c` stays within `a` when `b <= c`, and the product fits when `a`
/// is a level and `b` a stage duration.
proof fn lemma_scaled_fraction(a: nat, b: nat, c: nat)
    requires
        b <= c,
        0 < c,
        a <= ENV_ONE,
        c <= MAX_STAGE_FRAMES,
    ensures
        a * b / c <= a,
        a * b <= ENV_ONE * MAX_STAGE_FRAMES,
{
    assert(a * b <= c * a) by (nonlinear_arith)
        requires b <= c;
    assert(a * b <= ENV_ONE * MAX_STAGE_FRAMES) by (nonlinear_arith)
        requires a <= ENV_ONE, b <= c, c <= MAX_STAGE_FRAMES;
    vstd::arithmetic::div_mod::lemma_div_is_ordered((a * b) as int, (c * a) as int, c as int);
    vstd::arithmetic::div_mod::lemma_div_multiples_vanish(a as int, c as int);
}

/// A release that has run for `elapsed` of its `release` frames comes to rest
/// after `release - elapsed + 1` more frames, and stays at rest thereafter.
pub proof fn lemma_release_reaches_rest(e: Envelope, extra: nat)
    requires
        e.stage == EnvStage::Release,
        e.elapsed <= e.release,
    ensures
        e.steps((e.release - e.elapsed + 1 + extra) as nat).stage == EnvStage::Init,
    decreases e.release - e.elapsed,
{
    let n = (e.release - e.elapsed + 1 + extra) as nat;
    assert(e.steps(n) == e.step().1.steps((n - 1) as nat));
    if e.elapsed < e.release {
        lemma_release_reaches_rest(e.step().1, extra);
    } else {
        lemma_rest_stays(e.step().1, extra);
    }
}

/// An envelope at rest stays at rest.
pub proof fn lemma_rest_stays(e: Envelope, n: nat)
    requires
        e.stage == EnvStage::Init,
    ensures
        e.steps(n).stage == EnvStage::Init,
    decreases n,
{
    if n > 0 {
        lemma_rest_stays(e.step().1, (n - 1) as nat);
    }
}

/// A releasing (or resting) envelope is at rest after `release + 1` steps.
pub proof fn lemma_release_within(e: Envelope)
    requires
        e.stage == EnvStage::Release || e.stage == EnvStage::Init,
    ensures
        e.steps((e.release + 1) as nat).stage == EnvStage::Init,
{
    if e.stage == EnvStage::Init {
        lemma_rest_stays(e, (e.release + 1) as nat);
    } else if e.elapsed <= e.release {
        lemma_release_reaches_rest(e, e.elapsed as nat);
    } else {
        assert(e.steps((e.release + 1) as nat) == e.step().1.steps(e.release as nat));
        lemma_rest_stays(e.step().1, e.release as nat);
    }
}

/// A step of a well-formed envelope produces a level within full scale and
/// keeps it well formed.
pub proof fn lemma_step_level(e: Envelope)
    requires
        e.wf(),
    ensures
        e.step().0 <= ENV_ONE,
        e.step().1.wf(),
{
    if e.stage == EnvStage::Attack && e.elapsed < e.attack {
        lemma_scaled_fraction(ENV_ONE as nat, e.elapsed as nat, e.attack as nat);
    } else if e.stage == EnvStage::Decay && e.elapsed < e.decay {
        lemma_scaled_fraction((ENV_ONE - e.sustain) as nat, e.elapsed as nat, e.decay as nat);
    } else if e.stage == EnvStage::Release && e.elapsed < e.release {
        lemma_scaled_fraction(e.release_from as nat, (e.release - e.elapsed) as nat, e.release as nat);
    }
}

/// A release starts from the level last produced, so cutting a note causes
/// no jump, and from there its level never rises until it is at rest.
pub proof fn lemma_release_is_smooth(e: Envelope)
    requires
        e.wf(),
    ensures
        e.release > 0 && e.stage != EnvStage::Release ==> e.released().step().0 == e.level,
        e.stage == EnvStage::Release ==> e.step().1.step().0 <= e.step().0,
{
    if e.release > 0 {
        vstd::arithmetic::div_mod::lemma_div_multiples_vanish(e.release_from as int, e.release as int);
        vstd::arithmetic::div_mod::lemma_div_multiples_vanish(e.level as int, e.release as int);
        assert(e.level * e.release == e.release * e.level) by (nonlinear_arith);
    }
    if e.stage == EnvStage::Release && e.elapsed + 1 < e.release {
        let a = e.release_from * (e.release - e.elapsed - 1);
        let b = e.release_from * (e.release - e.elapsed);
        assert(a <= b) by (nonlinear_arith)
            requires a == e.release_from * (e.release - e.elapsed - 1), b == e.release_from * (e.release - e.elapsed),
                e.release_from >= 0;
        vstd::arithmetic::div_mod::lemma_div_is_ordered(a, b, e.release as int);
        lemma_scaled_fraction(e.release_from as nat, (e.release - e.elapsed) as nat, e.release as nat);
        lemma_scaled_fraction(e.release_from as nat, (e.release - e.elapsed - 1) as nat, e.release as nat);
    }
}

} // verus!

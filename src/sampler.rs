//! The voice pool, its allocator, and the render pass that mixes every busy
//! voice into an output buffer.
use vstd::prelude::*;
use crate::envelope::{lemma_release_within, lemma_step_level, EnvStage, Envelope};
use crate::frames::{find_onset, frame_count, frames_from_interleaved, frames_of, onset, Frame};
use crate::param::{
    initial_param_list, initial_params, key_at, offset_position, spec_offset_position,
    spec_stage_frames, spec_sustain_level, stage_frames, sustain_level, Param, SamplerParam,
    MILLI, NUM_PARAMS,
};
use crate::pitch::{pitch_ratio, spec_pitch_ratio, RATIO_CAP};
use crate::event::EventType;
use crate::{ENV_ONE, POS_ONE};

verus! {

/// The largest voice pool.
pub const MAX_VOICES: usize = 1024;

/// The largest frame store.
pub const MAX_FRAMES: usize = 0xffff_ffff;

/// Playback positions stay below this.
pub const MAX_POSITION: u64 = 0x4_0000_0000_0000;

/// Release, in frames, of a voice cut short by a new note on its column (5 ms).
pub const STOP_FRAMES: u64 = 220;

/// Output values that `render` accepts in the buffer it adds to.
pub const MIX_HEADROOM: i128 = 0x10_0000_0000_0000_0000_0000_0000;

/// The largest contribution of one voice to one output frame.
pub const VOICE_PEAK: i128 = 0x8000_0000_0000_0000;

#[derive(Clone, Copy, Debug, PartialEq, Eq, Structural)]
pub enum VoiceState {
    Free,
    Busy,
}

/// One playback slot. `position` and `pitch_ratio` are in units of
/// `POS_ONE` frames.
#[derive(Clone, Copy, Debug)]
pub struct Voice {
    pub position: u64,
    pub state: VoiceState,
    pub pitch_ratio: u64,
    pub pitch: i32,
    pub env: Envelope,
    pub column: usize,
}

#[derive(Clone, Copy, Debug, PartialEq, Eq, Structural)]
pub enum LoadError {
    /// The audio declares no channels.
    NoChannels,
    /// The bit depth is not between 1 and 32.
    BadBitDepth,
    /// The audio holds fewer than two frames.
    TooShort,
    /// The audio holds more than `MAX_FRAMES` frames.
    TooLong,
}

/// The engine: a fixed pool of voices playing one frame store.
pub struct Sampler {
    pub voices: Vec<Voice>,
    pub samples: Vec<Frame>,
    pub sample_rate: u32,
    /// Bits per PCM sample of the frame store.
    pub bits_per_sample: u16,
    pub params: Vec<Param>,
}

impl Voice {
    pub open spec fn wf(&self) -> bool {
        &&& self.env.wf()
        &&& self.pitch_ratio <= RATIO_CAP
        &&& self.position < MAX_POSITION
    }

    pub fn new() -> (r: Voice)
        ensures
            r.wf(),
            r.state == VoiceState::Free,
            r.position == 0,
            r.pitch_ratio == 0,
            r.pitch == 0,
            r.column == 0,
            r.env == Envelope::spec_new(),
    {
        Voice {
            position: 0,
            column: 0,
            pitch: 0,
            pitch_ratio: 0,
            state: VoiceState::Free,
            env: Envelope::new(),
        }
    }
}

pub open spec fn free_voice() -> spec_fn(Voice) -> bool {
    |v: Voice| v.state == VoiceState::Free
}

/// A busy voice started by `column`.
pub open spec fn owned_by(column: usize) -> spec_fn(Voice) -> bool {
    |v: Voice| v.state == VoiceState::Busy && v.column == column
}

/// A busy voice started by `column` at `pitch`.
pub open spec fn playing(column: usize, pitch: i32) -> spec_fn(Voice) -> bool {
    |v: Voice| v.state == VoiceState::Busy && v.column == column && v.pitch == pitch
}

pub open spec fn is_first(vs: Seq<Voice>, f: spec_fn(Voice) -> bool, i: int) -> bool {
    &&& 0 <= i < vs.len()
    &&& f(vs[i])
    &&& forall|j: int| 0 <= j < i ==> !f(#[trigger] vs[j])
}

/// Index of the first voice, in pool order, that satisfies `f`; -1 if none.
pub open spec fn first_where(vs: Seq<Voice>, f: spec_fn(Voice) -> bool) -> int {
    if exists|i: int| is_first(vs, f, i) {
        choose|i: int| is_first(vs, f, i)
    } else {
        -1
    }
}

proof fn lemma_first_unique(vs: Seq<Voice>, f: spec_fn(Voice) -> bool, i: int)
    requires
        is_first(vs, f, i),
    ensures
        first_where(vs, f) == i,
{
    let c = first_where(vs, f);
    assert(is_first(vs, f, c));
    if c < i {
        assert(!f(vs[c]));
    } else if c > i {
        assert(!f(vs[i]));
    }
}

proof fn lemma_first_none(vs: Seq<Voice>, f: spec_fn(Voice) -> bool)
    requires
        forall|j: int| 0 <= j < vs.len() ==> !f(#[trigger] vs[j]),
    ensures
        first_where(vs, f) == -1,
{
    if exists|i: int| is_first(vs, f, i) {
        let i = choose|i: int| is_first(vs, f, i);
        assert(!f(vs[i]));
    }
}

/// A voice that has never played, waiting at `offset`.
pub open spec fn waiting_voice(offset: u64) -> Voice {
    Voice {
        position: offset,
        state: VoiceState::Free,
        pitch_ratio: 0,
        pitch: 0,
        env: Envelope::spec_new(),
        column: 0,
    }
}

/// The voice after being moved to rest at `offset`.
pub open spec fn retire(v: Voice, offset: u64) -> Voice {
    Voice { state: VoiceState::Free, position: offset, ..v }
}

/// Linear interpolation between `a` and `b` at weight `w` of `POS_ONE`,
/// scaled by `POS_ONE`.
pub open spec fn interp(a: i32, b: i32, w: int) -> int {
    a * (POS_ONE - w) + b * w
}

/// The end of playback: the position of the last frame.
pub open spec fn play_limit(frames: Seq<Frame>) -> int {
    (frames.len() - 1) * POS_ONE
}

/// A busy voice filling output frames `j..` of `buf`: each frame receives the
/// interpolated sample scaled by the envelope's level, then the position
/// advances by the pitch ratio; reaching the last frame retires the voice.
pub open spec fn play(v: Voice, frames: Seq<Frame>, offset: u64, buf: Seq<(i128, i128)>, j: int) -> (
    Voice,
    Seq<(i128, i128)>,
)
    decreases buf.len() - j,
{
    if j < 0 || j >= buf.len() {
        (v, buf)
    } else {
        let (lvl, env2) = v.env.step();
        let i = v.position as int / POS_ONE as int;
        let w = v.position as int % POS_ONE as int;
        let l = interp(frames[i].left, frames[i + 1].left, w) * lvl;
        let r = interp(frames[i].right, frames[i + 1].right, w) * lvl;
        let buf2 = buf.update(j, ((buf[j].0 + l) as i128, (buf[j].1 + r) as i128));
        let pos2 = v.position + v.pitch_ratio;
        let v2 = Voice { position: pos2 as u64, env: env2, ..v };
        if pos2 >= play_limit(frames) {
            (retire(v2, offset), buf2)
        } else {
            play(v2, frames, offset, buf2, j + 1)
        }
    }
}

/// One voice's share of a render pass: a voice whose envelope is at rest is
/// retired; a busy one plays.
pub open spec fn render_voice(v: Voice, frames: Seq<Frame>, offset: u64, buf: Seq<(i128, i128)>) -> (
    Voice,
    Seq<(i128, i128)>,
) {
    let v1 = if v.env.stage == EnvStage::Init { retire(v, offset) } else { v };
    if v1.state != VoiceState::Busy {
        (v1, buf)
    } else if v1.position >= play_limit(frames) {
        (retire(v1, offset), buf)
    } else {
        play(v1, frames, offset, buf, 0)
    }
}

/// A render pass over voices `vs`, in pool order: the voices after it and the
/// buffer with every voice's output added.
pub open spec fn mix(vs: Seq<Voice>, frames: Seq<Frame>, offset: u64, buf: Seq<(i128, i128)>) -> (
    Seq<Voice>,
    Seq<(i128, i128)>,
)
    decreases vs.len(),
{
    if vs.len() == 0 {
        (vs, buf)
    } else {
        let (done, b) = mix(vs.drop_last(), frames, offset, buf);
        let (v, b2) = render_voice(vs.last(), frames, offset, b);
        (done.push(v), b2)
    }
}

pub open spec fn within(buf: Seq<(i128, i128)>, bound: int) -> bool {
    forall|j: int|
        0 <= j < buf.len() ==> -bound <= (#[trigger] buf[j]).0 <= bound && -bound <= buf[j].1 <= bound
}

fn find_free(vs: &Vec<Voice>) -> (r: Option<usize>)
    ensures
        match r {
            Some(i) => i == first_where(vs@, free_voice()),
            None => first_where(vs@, free_voice()) == -1,
        },
{
    let mut i: usize = 0;
    while i < vs.len()
        invariant
            i <= vs@.len(),
            forall|j: int| 0 <= j < i ==> !free_voice()(#[trigger] vs@[j]),
        decreases vs.len() - i,
    {
        if vs[i].state == VoiceState::Free {
            proof {
                lemma_first_unique(vs@, free_voice(), i as int);
            }
            return Some(i);
        }
        i = i + 1;
    }
    proof {
        lemma_first_none(vs@, free_voice());
    }
    None
}

fn find_owned(vs: &Vec<Voice>, column: usize) -> (r: Option<usize>)
    ensures
        match r {
            Some(i) => i == first_where(vs@, owned_by(column)),
            None => first_where(vs@, owned_by(column)) == -1,
        },
{
    let mut i: usize = 0;
    while i < vs.len()
        invariant
            i <= vs@.len(),
            forall|j: int| 0 <= j < i ==> !owned_by(column)(#[trigger] vs@[j]),
        decreases vs.len() - i,
    {
        if vs[i].state == VoiceState::Busy && vs[i].column == column {
            proof {
                lemma_first_unique(vs@, owned_by(column), i as int);
            }
            return Some(i);
        }
        i = i + 1;
    }
    proof {
        lemma_first_none(vs@, owned_by(column));
    }
    None
}

fn find_playing(vs: &Vec<Voice>, column: usize, pitch: i32) -> (r: Option<usize>)
    ensures
        match r {
            Some(i) => i == first_where(vs@, playing(column, pitch)),
            None => first_where(vs@, playing(column, pitch)) == -1,
        },
{
    let mut i: usize = 0;
    while i < vs.len()
        invariant
            i <= vs@.len(),
            forall|j: int| 0 <= j < i ==> !playing(column, pitch)(#[trigger] vs@[j]),
        decreases vs.len() - i,
    {
        if vs[i].state == VoiceState::Busy && vs[i].column == column && vs[i].pitch == pitch {
            proof {
                lemma_first_unique(vs@, playing(column, pitch), i as int);
            }
            return Some(i);
        }
        i = i + 1;
    }
    proof {
        lemma_first_none(vs@, playing(column, pitch));
    }
    None
}

/// The bounds that keep one output contribution within `VOICE_PEAK`.
proof fn lemma_contribution_bound(a: int, b: int, w: int, lvl: int)
    requires
        -0x8000_0000 <= a < 0x8000_0000,
        -0x8000_0000 <= b < 0x8000_0000,
        0 <= w < POS_ONE,
        0 <= lvl <= ENV_ONE,
    ensures
        -0x8000_0000 * POS_ONE <= a * (POS_ONE - w) <= 0x8000_0000 * POS_ONE,
        -0x8000_0000 * POS_ONE <= b * w <= 0x8000_0000 * POS_ONE,
        -0x8000_0000 * POS_ONE <= a * (POS_ONE - w) + b * w <= 0x8000_0000 * POS_ONE,
        -VOICE_PEAK <= (a * (POS_ONE - w) + b * w) * lvl <= VOICE_PEAK,
{
    let u = POS_ONE - w;
    assert(-0x8000_0000 * u <= a * u <= 0x8000_0000 * u) by (nonlinear_arith)
        requires -0x8000_0000 <= a < 0x8000_0000, u > 0;
    assert(-0x8000_0000 * w <= b * w <= 0x8000_0000 * w) by (nonlinear_arith)
        requires -0x8000_0000 <= b < 0x8000_0000, w >= 0;
    let x = a * u + b * w;
    assert(-0x8000_0000 * POS_ONE * lvl <= x * lvl <= 0x8000_0000 * POS_ONE * lvl) by (nonlinear_arith)
        requires -0x8000_0000 * POS_ONE <= x <= 0x8000_0000 * POS_ONE, lvl >= 0;
    assert(0x8000_0000 * POS_ONE * lvl <= 0x8000_0000 * POS_ONE * ENV_ONE) by (nonlinear_arith)
        requires lvl <= ENV_ONE;
}

fn contribution(a: i32, b: i32, w: u64, lvl: u64) -> (r: i128)
    requires
        w < POS_ONE,
        lvl <= ENV_ONE,
    ensures
        r == interp(a, b, w as int) * lvl,
        -VOICE_PEAK <= r <= VOICE_PEAK,
{
    proof {
        lemma_contribution_bound(a as int, b as int, w as int, lvl as int);
    }
    (a as i128 * (POS_ONE - w) as i128 + b as i128 * w as i128) * lvl as i128
}

/// Plays a busy voice into `buf`, as `play` describes.
fn play_voice(
    v: &mut Voice,
    frames: &Vec<Frame>,
    offset: u64,
    buf: &mut Vec<(i128, i128)>,
    Ghost(bound): Ghost<int>,
)
    requires
        old(v).wf(),
        old(v).state == VoiceState::Busy,
        old(v).position < play_limit(frames@),
        2 <= frames@.len() <= MAX_FRAMES,
        offset < MAX_POSITION,
        0 <= bound <= i128::MAX - VOICE_PEAK,
        within(old(buf)@, bound),
    ensures
        (*final(v), final(buf)@) == play(*old(v), frames@, offset, old(buf)@, 0),
        final(v).wf(),
        final(buf)@.len() == old(buf)@.len(),
        within(final(buf)@, bound + VOICE_PEAK),
{
    let ghost v0 = *v;
    let ghost buf0 = buf@;
    assert((frames@.len() - 1) * POS_ONE <= MAX_FRAMES * POS_ONE) by (nonlinear_arith)
        requires frames@.len() <= MAX_FRAMES;
    let limit: u64 = (frames.len() - 1) as u64 * POS_ONE;
    let mut j: usize = 0;
    while j < buf.len()
        invariant
            2 <= frames@.len() <= MAX_FRAMES,
            limit == play_limit(frames@),
            limit <= MAX_FRAMES * POS_ONE,
            buf0 == old(buf)@,
            v0 == *old(v),
            offset < MAX_POSITION,
            0 <= bound <= i128::MAX - VOICE_PEAK,
            v.wf(),
            v.state == VoiceState::Busy,
            v.position < limit,
            j <= buf@.len() == buf0.len(),
            play(*v, frames@, offset, buf@, j as int) == play(v0, frames@, offset, buf0, 0),
            forall|k: int| j <= k < buf@.len() ==> buf@[k] == buf0[k],
            within(buf0, bound),
            within(buf@, bound + VOICE_PEAK),
        decreases buf.len() - j,
    {
        let ghost vp = *v;
        let ghost bp = buf@;
        let lvl = v.env.value();
        proof {
            vstd::arithmetic::div_mod::lemma_fundamental_div_mod(v.position as int, POS_ONE as int);
            assert((v.position as int / POS_ONE as int) < frames@.len() - 1) by (nonlinear_arith)
                requires
                    v.position as int == POS_ONE * (v.position as int / POS_ONE as int) + v.position as int % POS_ONE as int,
                    0 <= v.position as int % POS_ONE as int,
                    v.position < (frames@.len() - 1) * POS_ONE;
        }
        let i = (v.position / POS_ONE) as usize;
        let w = v.position % POS_ONE;
        let f0 = frames[i];
        let f1 = frames[i + 1];
        let l = contribution(f0.left, f1.left, w, lvl);
        let r = contribution(f0.right, f1.right, w, lvl);
        let cur = buf[j];
        assert(cur == buf0[j as int]);
        assert(-bound <= cur.0 <= bound && -bound <= cur.1 <= bound);
        buf.set(j, (cur.0 + l, cur.1 + r));
        v.position = v.position + v.pitch_ratio;
        assert(play(vp, frames@, offset, bp, j as int) == (if v.position >= limit {
            play(retire(*v, offset), frames@, offset, buf@, buf@.len() as int)
        } else {
            play(*v, frames@, offset, buf@, j + 1)
        }));
        if v.position >= limit {
            v.state = VoiceState::Free;
            v.position = offset;
            assert(play(*v, frames@, offset, buf@, buf@.len() as int) == (*v, buf@));
            return;
        }
        j = j + 1;
    }
}

impl Sampler {
    pub open spec fn wf(&self) -> bool {
        &&& 2 <= self.samples@.len() <= MAX_FRAMES
        &&& self.voices@.len() <= MAX_VOICES
        &&& self.params@.len() == NUM_PARAMS
        &&& forall|i: int| 0 <= i < self.voices@.len() ==> (#[trigger] self.voices@[i]).wf()
    }

    /// The current value of control `k`, in thousandths of its unit.
    pub open spec fn param_value(&self, k: SamplerParam) -> i64 {
        self.params@[k.spec_index()].val
    }

    /// The position at which retired voices wait.
    pub open spec fn offset(&self) -> u64 {
        spec_offset_position(self.param_value(SamplerParam::Offset))
    }

    /// Whether `other` has this engine's frame store, rate and controls.
    pub open spec fn same_setup(&self, other: &Sampler) -> bool {
        &&& self.samples@ == other.samples@
        &&& self.sample_rate == other.sample_rate
        &&& self.bits_per_sample == other.bits_per_sample
        &&& self.params@ == other.params@
    }

    pub fn get_param(&self, key: SamplerParam) -> (r: i64)
        requires
            self.wf(),
        ensures
            r == self.param_value(key),
    {
        self.params[key.index()].val
    }

    /// Renders one block: every voice adds its output to `buffer`, and voices
    /// that finish are retired to the start offset.
    pub fn render(&mut self, buffer: &mut Vec<(i128, i128)>)
        requires
            old(self).wf(),
            within(old(buffer)@, MIX_HEADROOM as int),
        ensures
            final(self).wf(),
            final(self).same_setup(old(self)),
            final(self).voices@ == mix(old(self).voices@, old(self).samples@, old(self).offset(), old(buffer)@).0,
            final(buffer)@ == mix(old(self).voices@, old(self).samples@, old(self).offset(), old(buffer)@).1,
    {
        let ghost vs0 = self.voices@;
        let ghost buf0 = buffer@;
        let offset = offset_position(self.get_param(SamplerParam::Offset));
        let limit: u64 = (self.samples.len() - 1) as u64 * POS_ONE;
        let mut k: usize = 0;
        while k < self.voices.len()
            invariant
                self.wf(),
                self.samples@ == old(self).samples@,
                self.sample_rate == old(self).sample_rate,
                self.bits_per_sample == old(self).bits_per_sample,
                self.params@ == old(self).params@,
                offset == old(self).offset(),
                offset < MAX_POSITION,
                limit == play_limit(self.samples@),
                vs0 == old(self).voices@,
                buf0 == old(buffer)@,
                k <= self.voices@.len() == vs0.len(),
                (self.voices@.take(k as int), buffer@) == mix(vs0.take(k as int), self.samples@, offset, buf0),
                forall|i: int| k <= i < vs0.len() ==> self.voices@[i] == vs0[i],
                within(buffer@, MIX_HEADROOM + k * VOICE_PEAK),
            decreases self.voices.len() - k,
        {
            let ghost bp = buffer@;
            let mut v = self.voices[k];
            if v.env.stage == EnvStage::Init {
                v.state = VoiceState::Free;
                v.position = offset;
            }
            if v.state == VoiceState::Busy {
                if v.position >= limit {
                    v.state = VoiceState::Free;
                    v.position = offset;
                } else {
                    play_voice(&mut v, &self.samples, offset, buffer, Ghost(MIX_HEADROOM + k * VOICE_PEAK));
                }
            }
            assert((v, buffer@) == render_voice(vs0[k as int], self.samples@, offset, bp));
            let ghost done = self.voices@.take(k as int);
            self.voices.set(k, v);
            proof {
                assert(vs0.take(k + 1).drop_last() =~= vs0.take(k as int));
                assert(self.voices@.take(k + 1) =~= done.push(v));
            }
            k = k + 1;
        }
        proof {
            assert(vs0.take(k as int) =~= vs0);
            assert(self.voices@.take(k as int) =~= self.voices@);
        }
    }
}

/// The voices after `note_off(column, pitch)`: the first voice playing that
/// note, if any, is released.
pub open spec fn note_off_voices(vs: Seq<Voice>, column: usize, pitch: i32) -> Seq<Voice> {
    let i = first_where(vs, playing(column, pitch));
    if i < 0 {
        vs
    } else {
        vs.update(i, Voice { env: vs[i].env.released(), ..vs[i] })
    }
}

/// The voices after `stop_note(column)`: the first busy voice of `column`,
/// if any, is released over `STOP_FRAMES`.
pub open spec fn stop_voices(vs: Seq<Voice>, column: usize) -> Seq<Voice> {
    let i = first_where(vs, owned_by(column));
    if i < 0 {
        vs
    } else {
        vs.update(i, Voice { env: Envelope { release: STOP_FRAMES, ..vs[i].env }.released(), ..vs[i] })
    }
}

/// Number of busy voices.
pub open spec fn busy_count(vs: Seq<Voice>) -> nat
    decreases vs.len(),
{
    if vs.len() == 0 {
        0
    } else {
        busy_count(vs.drop_last()) + if vs.last().state == VoiceState::Busy { 1nat } else { 0nat }
    }
}

impl Sampler {
    /// The envelope of a voice that starts a note: stage lengths from the
    /// current controls, then its attack begins.
    pub open spec fn started_env(&self, e: Envelope) -> Envelope {
        Envelope {
            attack: spec_stage_frames(self.param_value(SamplerParam::Attack)),
            decay: spec_stage_frames(self.param_value(SamplerParam::Decay)),
            sustain: spec_sustain_level(self.param_value(SamplerParam::Sustain)),
            release: spec_stage_frames(self.param_value(SamplerParam::Release)),
            ..e
        }.attacked()
    }

    pub open spec fn started(&self, v: Voice, column: usize, pitch: i32) -> Voice {
        Voice {
            state: VoiceState::Busy,
            pitch,
            column,
            pitch_ratio: spec_pitch_ratio(pitch, self.sample_rate),
            env: self.started_env(v.env),
            ..v
        }
    }

    /// The voices after `note_on(column, pitch)`: the first free voice, if
    /// any, starts the note; with none free the note is dropped.
    pub open spec fn note_on_voices(&self, vs: Seq<Voice>, column: usize, pitch: i32) -> Seq<Voice> {
        let i = first_where(vs, free_voice());
        if i < 0 {
            vs
        } else {
            vs.update(i, self.started(vs[i], column, pitch))
        }
    }

    /// The voices after `send_event(column, event)`.
    pub open spec fn event_voices(&self, vs: Seq<Voice>, column: usize, event: EventType) -> Seq<Voice> {
        match event {
            EventType::NoteOn { pitch } => self.note_on_voices(stop_voices(vs, column), column, pitch),
            EventType::NoteOff { pitch } => note_off_voices(vs, column, pitch),
            EventType::Empty => vs,
        }
    }

    /// An engine of `num_voices` free voices playing `frames`, recorded at
    /// `sample_rate`, whose start offset is the first audible frame; every
    /// voice waits at that offset.
    pub open spec fn built(&self, num_voices: nat, frames: Seq<Frame>, sample_rate: u32, bits: u16) -> bool {
        &&& self.wf()
        &&& self.samples@ == frames
        &&& self.sample_rate == sample_rate
        &&& self.bits_per_sample == bits
        &&& self.params@ == initial_params(onset(frames, bits as nat))
        &&& self.voices@.len() == num_voices
        &&& forall|i: int| 0 <= i < num_voices ==> #[trigger] self.voices@[i] == waiting_voice(self.offset())
    }

    /// Builds an engine from interleaved PCM samples of `channels` channels
    /// and `bits` bits each.
    pub fn from_pcm(num_voices: usize, pcm: &Vec<i32>, channels: u16, bits: u16, sample_rate: u32) -> (r: Result<Sampler, LoadError>)
        requires
            num_voices <= MAX_VOICES,
        ensures
            channels == 0 ==> r == Err::<Sampler, LoadError>(LoadError::NoChannels),
            channels > 0 && !(1 <= bits <= 32) ==> r == Err::<Sampler, LoadError>(LoadError::BadBitDepth),
            channels > 0 && 1 <= bits <= 32 && frame_count(pcm@.len(), channels as nat) < 2
                ==> r == Err::<Sampler, LoadError>(LoadError::TooShort),
            channels > 0 && 1 <= bits <= 32 && frame_count(pcm@.len(), channels as nat) > MAX_FRAMES
                ==> r == Err::<Sampler, LoadError>(LoadError::TooLong),
            channels > 0 && 1 <= bits <= 32 && 2 <= frame_count(pcm@.len(), channels as nat) <= MAX_FRAMES
                ==> r is Ok && r->Ok_0.built(num_voices as nat, frames_of(pcm@, channels as nat), sample_rate, bits),
    {
        if channels == 0 {
            return Err(LoadError::NoChannels);
        }
        if bits < 1 || bits > 32 {
            return Err(LoadError::BadBitDepth);
        }
        let samples = frames_from_interleaved(pcm, channels as usize);
        if samples.len() < 2 {
            return Err(LoadError::TooShort);
        }
        if samples.len() > MAX_FRAMES {
            return Err(LoadError::TooLong);
        }
        let start = find_onset(&samples, bits as u32);
        proof {
            let fs = samples@;
            if exists|i: int| crate::frames::is_onset(fs, bits as nat, i) {
                let i = choose|i: int| crate::frames::is_onset(fs, bits as nat, i);
                assert(crate::frames::is_onset(fs, bits as nat, i));
            }
        }
        let params = initial_param_list(start as u32);
        let offset = offset_position(start as i64 * MILLI);
        let mut voices: Vec<Voice> = Vec::new();
        let mut i: usize = 0;
        while i < num_voices
            invariant
                i <= num_voices <= MAX_VOICES,
                voices@.len() == i,
                offset == spec_offset_position((start * 1000) as i64),
                offset < MAX_POSITION,
                forall|j: int| 0 <= j < i ==> #[trigger] voices@[j] == waiting_voice(offset),
            decreases num_voices - i,
        {
            let mut v = Voice::new();
            v.position = offset;
            voices.push(v);
            i = i + 1;
        }
        let r = Sampler { voices, samples, sample_rate, bits_per_sample: bits, params };
        assert(forall|j: int| 0 <= j < r.voices@.len() ==> (#[trigger] r.voices@[j]).wf());
        Ok(r)
    }

    /// Every control with its descriptor, in key order.
    pub fn params(&self) -> (r: Vec<(SamplerParam, Param)>)
        requires
            self.wf(),
        ensures
            r@.len() == NUM_PARAMS,
            forall|i: int| 0 <= i < NUM_PARAMS ==> #[trigger] r@[i] == (key_at(i), self.params@[i]),
    {
        let keys = [
            SamplerParam::Amp,
            SamplerParam::Offset,
            SamplerParam::Attack,
            SamplerParam::Decay,
            SamplerParam::Sustain,
            SamplerParam::Release,
        ];
        let mut r: Vec<(SamplerParam, Param)> = Vec::new();
        let mut i: usize = 0;
        while i < NUM_PARAMS
            invariant
                self.wf(),
                keys@ == seq![
                    SamplerParam::Amp,
                    SamplerParam::Offset,
                    SamplerParam::Attack,
                    SamplerParam::Decay,
                    SamplerParam::Sustain,
                    SamplerParam::Release,
                ],
                i <= NUM_PARAMS,
                r@.len() == i,
                forall|j: int| 0 <= j < i ==> #[trigger] r@[j] == (key_at(j), self.params@[j]),
            decreases NUM_PARAMS - i,
        {
            r.push((keys[i], self.params[i]));
            i = i + 1;
        }
        r
    }

    /// Sets the current value of control `key`.
    pub fn set_param(&mut self, key: SamplerParam, value: i64)
        requires
            old(self).wf(),
        ensures
            final(self).wf(),
            final(self).voices@ == old(self).voices@,
            final(self).samples@ == old(self).samples@,
            final(self).sample_rate == old(self).sample_rate,
            final(self).bits_per_sample == old(self).bits_per_sample,
            final(self).params@ == old(self).params@.update(key.spec_index(), Param { val: value, ..old(self).params@[key.spec_index()] }),
    {
        let i = key.index();
        let p = self.params[i];
        self.params.set(i, Param { val: value, ..p });
    }

    /// Starts a note on the first free voice; with none free the note is
    /// dropped.
    pub fn note_on(&mut self, column: usize, pitch: i32)
        requires
            old(self).wf(),
        ensures
            final(self).wf(),
            final(self).same_setup(old(self)),
            final(self).voices@ == old(self).note_on_voices(old(self).voices@, column, pitch),
    {
        let attack = stage_frames(self.get_param(SamplerParam::Attack));
        let decay = stage_frames(self.get_param(SamplerParam::Decay));
        let sustain = sustain_level(self.get_param(SamplerParam::Sustain));
        let release = stage_frames(self.get_param(SamplerParam::Release));
        match find_free(&self.voices) {
            Some(i) => {
                let mut v = self.voices[i];
                v.env.attack = attack;
                v.env.decay = decay;
                v.env.sustain = sustain;
                v.env.release = release;
                v.env.start_attack();
                v.state = VoiceState::Busy;
                v.pitch = pitch;
                v.column = column;
                v.pitch_ratio = pitch_ratio(pitch, self.sample_rate);
                self.voices.set(i, v);
            },
            None => {},
        }
    }

    /// Releases the first voice playing `pitch` for `column`, if any.
    pub fn note_off(&mut self, column: usize, pitch: i32)
        requires
            old(self).wf(),
        ensures
            final(self).wf(),
            final(self).same_setup(old(self)),
            final(self).voices@ == note_off_voices(old(self).voices@, column, pitch),
    {
        match find_playing(&self.voices, column, pitch) {
            Some(i) => {
                let mut v = self.voices[i];
                v.env.start_release();
                self.voices.set(i, v);
            },
            None => {},
        }
    }

    /// Cuts the first busy voice of `column`, if any, with a short release.
    pub fn stop_note(&mut self, column: usize)
        requires
            old(self).wf(),
        ensures
            final(self).wf(),
            final(self).same_setup(old(self)),
            final(self).voices@ == stop_voices(old(self).voices@, column),
    {
        match find_owned(&self.voices, column) {
            Some(i) => {
                let mut v = self.voices[i];
                v.env.release = STOP_FRAMES;
                v.env.start_release();
                self.voices.set(i, v);
            },
            None => {},
        }
    }

    /// Applies an event from `column`: a note-on first cuts the column's
    /// sounding voice, then starts the new note.
    pub fn send_event(&mut self, column: usize, event: &EventType)
        requires
            old(self).wf(),
        ensures
            final(self).wf(),
            final(self).same_setup(old(self)),
            final(self).voices@ == old(self).event_voices(old(self).voices@, column, *event),
    {
        match event {
            EventType::NoteOn { pitch } => {
                self.stop_note(column);
                self.note_on(column, *pitch);
            },
            EventType::NoteOff { pitch } => {
                self.note_off(column, *pitch);
            },
            EventType::Empty => {},
        }
    }

    /// Number of busy voices.
    pub fn busy_voices(&self) -> (r: usize)
        ensures
            r == busy_count(self.voices@),
    {
        let mut n: usize = 0;
        let mut i: usize = 0;
        while i < self.voices.len()
            invariant
                i <= self.voices@.len(),
                n == busy_count(self.voices@.take(i as int)),
                n <= i,
            decreases self.voices.len() - i,
        {
            assert(self.voices@.take(i + 1).drop_last() =~= self.voices@.take(i as int));
            if self.voices[i].state == VoiceState::Busy {
                n = n + 1;
            }
            i = i + 1;
        }
        assert(self.voices@.take(i as int) =~= self.voices@);
        n
    }
}

proof fn lemma_busy_count_bound(vs: Seq<Voice>)
    ensures
        busy_count(vs) <= vs.len(),
    decreases vs.len(),
{
    if vs.len() > 0 {
        lemma_busy_count_bound(vs.drop_last());
    }
}

proof fn lemma_busy_count_update(vs: Seq<Voice>, i: int, v: Voice)
    requires
        0 <= i < vs.len(),
    ensures
        busy_count(vs.update(i, v)) + (if vs[i].state == VoiceState::Busy { 1int } else { 0int })
            == busy_count(vs) + (if v.state == VoiceState::Busy { 1int } else { 0int }),
    decreases vs.len(),
{
    let u = vs.update(i, v);
    if i < vs.len() - 1 {
        assert(u.drop_last() =~= vs.drop_last().update(i, v));
        lemma_busy_count_update(vs.drop_last(), i, v);
    } else {
        assert(u.drop_last() =~= vs.drop_last());
    }
}

/// The pool never grows: a note-on keeps the number of voices, makes at most
/// one more of them busy, and is dropped, changing nothing, when every voice
/// is already busy.
pub proof fn lemma_note_on_bounded(s: &Sampler, vs: Seq<Voice>, column: usize, pitch: i32)
    ensures
        s.note_on_voices(vs, column, pitch).len() == vs.len(),
        busy_count(s.note_on_voices(vs, column, pitch)) <= vs.len(),
        busy_count(s.note_on_voices(vs, column, pitch)) <= busy_count(vs) + 1,
        (forall|i: int| 0 <= i < vs.len() ==> (#[trigger] vs[i]).state == VoiceState::Busy)
            ==> s.note_on_voices(vs, column, pitch) == vs,
{
    let out = s.note_on_voices(vs, column, pitch);
    let i = first_where(vs, free_voice());
    if (forall|i: int| 0 <= i < vs.len() ==> (#[trigger] vs[i]).state == VoiceState::Busy) {
        lemma_first_none(vs, free_voice());
    }
    if i >= 0 {
        assert(is_first(vs, free_voice(), i));
        lemma_busy_count_update(vs, i, s.started(vs[i], column, pitch));
    }
    lemma_busy_count_bound(out);
}

/// A note-on for a column whose voice still sounds first releases that voice
/// over `STOP_FRAMES`, so it comes to rest within `STOP_FRAMES + 1` frames;
/// the new note never takes that voice.
pub proof fn lemma_note_on_steals(s: &Sampler, vs: Seq<Voice>, column: usize, pitch: i32)
    requires
        first_where(vs, owned_by(column)) >= 0,
    ensures
        ({
            let i = first_where(vs, owned_by(column));
            let out = s.event_voices(vs, column, EventType::NoteOn { pitch });
            &&& out.len() == vs.len()
            &&& out[i].state == VoiceState::Busy
            &&& out[i].column == column
            &&& out[i].env.release == STOP_FRAMES
            &&& out[i].env.stage == EnvStage::Release
            &&& out[i].env.steps((STOP_FRAMES + 1) as nat).stage == EnvStage::Init
            &&& first_where(stop_voices(vs, column), free_voice()) != i
        }),
{
    let i = first_where(vs, owned_by(column));
    assert(is_first(vs, owned_by(column), i));
    let stopped = stop_voices(vs, column);
    assert(stopped[i].state == VoiceState::Busy);
    let j = first_where(stopped, free_voice());
    if j >= 0 {
        assert(is_first(stopped, free_voice(), j));
    }
    let out = s.event_voices(vs, column, EventType::NoteOn { pitch });
    assert(out[i] == stopped[i]);
    lemma_release_within(out[i].env);
}

/// Releasing a note twice is the same as releasing it once.
pub proof fn lemma_note_off_idempotent(vs: Seq<Voice>, column: usize, pitch: i32)
    ensures
        note_off_voices(note_off_voices(vs, column, pitch), column, pitch) == note_off_voices(vs, column, pitch),
{
    let once = note_off_voices(vs, column, pitch);
    let i = first_where(vs, playing(column, pitch));
    if i < 0 {
        assert(once == vs);
    } else {
        assert(is_first(vs, playing(column, pitch), i));
        assert(is_first(once, playing(column, pitch), i));
        lemma_first_unique(once, playing(column, pitch), i);
        assert(note_off_voices(once, column, pitch) =~= once);
    }
}

/// On a two-frame store played at half speed from its start, the first output
/// frame is exactly the first sample frame and the second is the midpoint of
/// the two, each scaled by `POS_ONE` and the envelope's level; the voice is
/// then retired.
pub proof fn lemma_two_frame_interpolation(v: Voice, a: Frame, b: Frame, offset: u64, buf: Seq<(i128, i128)>)
    requires
        v.state == VoiceState::Busy,
        v.position == 0,
        v.pitch_ratio == POS_ONE / 2,
        v.env.wf(),
        buf.len() >= 2,
        within(buf, MIX_HEADROOM as int),
    ensures
        ({
            let (l0, e1) = v.env.step();
            let (l1, e2) = e1.step();
            let (v2, out) = play(v, seq![a, b], offset, buf, 0);
            &&& out[0].0 == buf[0].0 + a.left * POS_ONE * l0
            &&& out[0].1 == buf[0].1 + a.right * POS_ONE * l0
            &&& out[1].0 == buf[1].0 + (a.left + b.left) * (POS_ONE / 2) * l1
            &&& out[1].1 == buf[1].1 + (a.right + b.right) * (POS_ONE / 2) * l1
            &&& v2.state == VoiceState::Free
            &&& v2.position == offset
        }),
{
    let frames = seq![a, b];
    let (l0, e1) = v.env.step();
    let (l1, e2) = e1.step();
    lemma_step_level(v.env);
    lemma_step_level(e1);
    lemma_contribution_bound(a.left as int, b.left as int, 0, l0 as int);
    lemma_contribution_bound(a.right as int, b.right as int, 0, l0 as int);
    lemma_contribution_bound(a.left as int, b.left as int, (POS_ONE / 2) as int, l1 as int);
    lemma_contribution_bound(a.right as int, b.right as int, (POS_ONE / 2) as int, l1 as int);
    let w = (POS_ONE / 2) as int;
    assert((a.left * (POS_ONE - w) + b.left * w) * l1 == (a.left + b.left) * (POS_ONE / 2) * l1) by (nonlinear_arith)
        requires w == POS_ONE / 2, POS_ONE - w == w;
    assert((a.right * (POS_ONE - w) + b.right * w) * l1 == (a.right + b.right) * (POS_ONE / 2) * l1) by (nonlinear_arith)
        requires w == POS_ONE / 2, POS_ONE - w == w;
    let va = Voice { position: (POS_ONE / 2) as u64, env: e1, ..v };
    let buf1 = play(v, frames, offset, buf, 0);
    assert(play_limit(frames) == POS_ONE);
    assert(buf1 == play(va, frames, offset, buf.update(0, ((buf[0].0 + interp(a.left, b.left, 0) * l0) as i128, (buf[0].1 + interp(a.right, b.right, 0) * l0) as i128)), 1));
}

proof fn lemma_first_exists(vs: Seq<Voice>, f: spec_fn(Voice) -> bool, j: int)
    requires
        0 <= j < vs.len(),
        f(vs[j]),
    ensures
        first_where(vs, f) >= 0,
        is_first(vs, f, first_where(vs, f)),
    decreases j,
{
    if exists|k: int| 0 <= k < j && f(#[trigger] vs[k]) {
        let k = choose|k: int| 0 <= k < j && f(#[trigger] vs[k]);
        lemma_first_exists(vs, f, k);
    } else {
        lemma_first_unique(vs, f, j);
    }
}

proof fn lemma_busy_count_full(vs: Seq<Voice>)
    ensures
        busy_count(vs) == vs.len() <==> forall|i: int| 0 <= i < vs.len() ==> (#[trigger] vs[i]).state == VoiceState::Busy,
    decreases vs.len(),
{
    if vs.len() > 0 {
        let d = vs.drop_last();
        lemma_busy_count_full(d);
        lemma_busy_count_bound(d);
        if busy_count(vs) == vs.len() {
            assert forall|i: int| 0 <= i < vs.len() implies (#[trigger] vs[i]).state == VoiceState::Busy by {
                if i < vs.len() - 1 {
                    assert(d[i] == vs[i]);
                }
            }
        }
        if forall|i: int| 0 <= i < vs.len() ==> (#[trigger] vs[i]).state == VoiceState::Busy {
            assert forall|i: int| 0 <= i < d.len() implies (#[trigger] d[i]).state == VoiceState::Busy by {
                assert(vs[i] == d[i]);
            }
            assert(vs[vs.len() - 1] == vs.last());
        }
    }
}

/// One note-on makes one more voice busy when any is free, and none otherwise.
proof fn lemma_note_on_count(s: &Sampler, vs: Seq<Voice>, column: usize, pitch: i32)
    ensures
        s.note_on_voices(vs, column, pitch).len() == vs.len(),
        busy_count(s.note_on_voices(vs, column, pitch))
            == if busy_count(vs) < vs.len() { (busy_count(vs) + 1) as nat } else { busy_count(vs) },
{
    lemma_busy_count_bound(vs);
    lemma_busy_count_full(vs);
    let i = first_where(vs, free_voice());
    if i >= 0 {
        assert(is_first(vs, free_voice(), i));
        lemma_busy_count_update(vs, i, s.started(vs[i], column, pitch));
    } else {
        assert forall|j: int| 0 <= j < vs.len() implies (#[trigger] vs[j]).state == VoiceState::Busy by {
            if vs[j].state == VoiceState::Free {
                lemma_first_exists(vs, free_voice(), j);
            }
        }
    }
}

impl Sampler {
    /// The voices after a note-on for each `(column, pitch)` of `notes`, in order.
    pub open spec fn note_ons(&self, vs: Seq<Voice>, notes: Seq<(usize, i32)>) -> Seq<Voice>
        decreases notes.len(),
    {
        if notes.len() == 0 {
            vs
        } else {
            self.note_on_voices(self.note_ons(vs, notes.drop_last()), notes.last().0, notes.last().1)
        }
    }
}

/// However many note-ons arrive, the pool keeps its size and the busy voices
/// never outnumber it: each note-on takes a free voice while one is left, and
/// the ones beyond are dropped.
pub proof fn lemma_note_ons_fill_pool(s: &Sampler, vs: Seq<Voice>, notes: Seq<(usize, i32)>)
    ensures
        s.note_ons(vs, notes).len() == vs.len(),
        busy_count(s.note_ons(vs, notes)) == if busy_count(vs) + notes.len() <= vs.len() {
            (busy_count(vs) + notes.len()) as nat
        } else {
            vs.len()
        },
    decreases notes.len(),
{
    lemma_busy_count_bound(vs);
    if notes.len() > 0 {
        lemma_note_ons_fill_pool(s, vs, notes.drop_last());
        lemma_note_on_count(s, s.note_ons(vs, notes.drop_last()), notes.last().0, notes.last().1);
    }
}

/// Whether `after` is `before` as a render pass may leave it: the same note,
/// and busy only if it was busy.
pub open spec fn same_note(before: Voice, after: Voice) -> bool {
    &&& after.pitch == before.pitch
    &&& after.column == before.column
    &&& after.pitch_ratio == before.pitch_ratio
    &&& after.state == VoiceState::Busy ==> before.state == VoiceState::Busy
}

proof fn lemma_play_keeps_note(v: Voice, frames: Seq<Frame>, offset: u64, buf: Seq<(i128, i128)>, j: int)
    ensures
        same_note(v, play(v, frames, offset, buf, j).0),
        play(v, frames, offset, buf, j).1.len() == buf.len(),
    decreases buf.len() - j,
{
    if 0 <= j < buf.len() {
        let (lvl, env2) = v.env.step();
        let v2 = Voice { position: (v.position + v.pitch_ratio) as u64, env: env2, ..v };
        let i = v.position as int / POS_ONE as int;
        let w = v.position as int % POS_ONE as int;
        let buf2 = buf.update(j, ((buf[j].0 + interp(frames[i].left, frames[i + 1].left, w) * lvl) as i128,
            (buf[j].1 + interp(frames[i].right, frames[i + 1].right, w) * lvl) as i128));
        lemma_play_keeps_note(v2, frames, offset, buf2, j + 1);
    }
}

/// A render pass starts no note: it keeps the number of voices, each voice's
/// pitch, column and pitch ratio, and a voice is busy after it only if it was
/// busy before. A note-on that found no free voice is therefore not played
/// later.
pub proof fn lemma_render_starts_nothing(vs: Seq<Voice>, frames: Seq<Frame>, offset: u64, buf: Seq<(i128, i128)>)
    ensures
        mix(vs, frames, offset, buf).0.len() == vs.len(),
        mix(vs, frames, offset, buf).1.len() == buf.len(),
        forall|i: int| 0 <= i < vs.len() ==> same_note(vs[i], #[trigger] mix(vs, frames, offset, buf).0[i]),
    decreases vs.len(),
{
    if vs.len() > 0 {
        let d = vs.drop_last();
        lemma_render_starts_nothing(d, frames, offset, buf);
        let (done, b) = mix(d, frames, offset, buf);
        let v = vs.last();
        let v1 = if v.env.stage == EnvStage::Init { retire(v, offset) } else { v };
        lemma_play_keeps_note(v1, frames, offset, b, 0);
        let out = mix(vs, frames, offset, buf).0;
        assert forall|i: int| 0 <= i < vs.len() implies same_note(vs[i], #[trigger] out[i]) by {
            if i < vs.len() - 1 {
                assert(vs[i] == d[i]);
                assert(out[i] == done[i]);
            }
        }
    }
}

impl Sampler {
    /// The voices after `send_event(column, NoteOn { pitch })` for each
    /// `(column, pitch)` of `notes`, in order.
    pub open spec fn note_on_events(&self, vs: Seq<Voice>, notes: Seq<(usize, i32)>) -> Seq<Voice>
        decreases notes.len(),
    {
        if notes.len() == 0 {
            vs
        } else {
            self.event_voices(
                self.note_on_events(vs, notes.drop_last()),
                notes.last().0,
                EventType::NoteOn { pitch: notes.last().1 },
            )
        }
    }
}

/// After a run of note-ons, a busy voice either was busy before with the
/// same column, or belongs to the column of one of the notes.
proof fn lemma_note_ons_columns(s: &Sampler, vs: Seq<Voice>, notes: Seq<(usize, i32)>)
    ensures
        s.note_ons(vs, notes).len() == vs.len(),
        forall|i: int| 0 <= i < vs.len() && (#[trigger] s.note_ons(vs, notes)[i]).state == VoiceState::Busy ==> {
            ||| (vs[i].state == VoiceState::Busy && s.note_ons(vs, notes)[i].column == vs[i].column)
            ||| exists|k: int| 0 <= k < notes.len() && s.note_ons(vs, notes)[i].column == #[trigger] notes[k].0
        },
    decreases notes.len(),
{
    if notes.len() > 0 {
        let p = notes.drop_last();
        lemma_note_ons_columns(s, vs, p);
        let w = s.note_ons(vs, p);
        let out = s.note_ons(vs, notes);
        let f = first_where(w, free_voice());
        if f >= 0 {
            assert(is_first(w, free_voice(), f));
        }
        assert forall|i: int| 0 <= i < vs.len() && (#[trigger] out[i]).state == VoiceState::Busy implies {
            ||| (vs[i].state == VoiceState::Busy && out[i].column == vs[i].column)
            ||| exists|k: int| 0 <= k < notes.len() && out[i].column == #[trigger] notes[k].0
        } by {
            if i == f {
                assert(out[i].column == notes[notes.len() - 1].0);
            } else {
                assert(out[i] == w[i]);
                if !(vs[i].state == VoiceState::Busy && w[i].column == vs[i].column) {
                    let k = choose|k: int| 0 <= k < p.len() && w[i].column == #[trigger] p[k].0;
                    assert(notes[k] == p[k]);
                }
            }
        }
    }
}

/// Note-on events on columns that are pairwise distinct, and that no busy
/// voice already plays, cut nothing: they act as plain note-ons. So each
/// takes a free voice while one is left, the ones beyond are dropped, and the
/// busy voices never outnumber the pool.
pub proof fn lemma_note_on_events_fill_pool(s: &Sampler, vs: Seq<Voice>, notes: Seq<(usize, i32)>)
    requires
        forall|a: int, b: int| 0 <= a < b < notes.len() ==> (#[trigger] notes[a]).0 != (#[trigger] notes[b]).0,
        forall|i: int, k: int| 0 <= i < vs.len() && 0 <= k < notes.len() && (#[trigger] vs[i]).state == VoiceState::Busy
            ==> vs[i].column != (#[trigger] notes[k]).0,
    ensures
        s.note_on_events(vs, notes) == s.note_ons(vs, notes),
        s.note_on_events(vs, notes).len() == vs.len(),
        busy_count(s.note_on_events(vs, notes)) == if busy_count(vs) + notes.len() <= vs.len() {
            (busy_count(vs) + notes.len()) as nat
        } else {
            vs.len()
        },
    decreases notes.len(),
{
    if notes.len() > 0 {
        let p = notes.drop_last();
        let c = notes.last().0;
        assert forall|a: int, b: int| 0 <= a < b < p.len() implies (#[trigger] p[a]).0 != (#[trigger] p[b]).0 by {
            assert(p[a] == notes[a] && p[b] == notes[b]);
        }
        assert forall|i: int, k: int| 0 <= i < vs.len() && 0 <= k < p.len() && (#[trigger] vs[i]).state == VoiceState::Busy
            implies vs[i].column != (#[trigger] p[k]).0 by {
            assert(p[k] == notes[k]);
        }
        lemma_note_on_events_fill_pool(s, vs, p);
        lemma_note_ons_columns(s, vs, p);
        let w = s.note_ons(vs, p);
        assert forall|j: int| 0 <= j < w.len() implies !owned_by(c)(#[trigger] w[j]) by {
            if w[j].state == VoiceState::Busy && w[j].column == c {
                assert(notes[notes.len() - 1].0 == c);
                if !(vs[j].state == VoiceState::Busy && w[j].column == vs[j].column) {
                    let k = choose|k: int| 0 <= k < p.len() && w[j].column == #[trigger] p[k].0;
                    assert(notes[k] == p[k]);
                }
            }
        }
        lemma_first_none(w, owned_by(c));
        assert(stop_voices(w, c) == w);
    }
    lemma_note_ons_fill_pool(s, vs, notes);
}

/// Free voices add nothing to a render pass: the buffer is what one busy
/// voice `k` alone would make of it.
proof fn lemma_mix_one_busy(vs: Seq<Voice>, k: int, frames: Seq<Frame>, offset: u64, buf: Seq<(i128, i128)>)
    requires
        0 <= k <= vs.len(),
        forall|i: int| 0 <= i < vs.len() && i != k ==> (#[trigger] vs[i]).state == VoiceState::Free,
    ensures
        mix(vs, frames, offset, buf).1 == if k < vs.len() { render_voice(vs[k], frames, offset, buf).1 } else { buf },
    decreases vs.len(),
{
    if vs.len() > 0 {
        let d = vs.drop_last();
        let last = vs.len() - 1;
        let k2 = if k >= last { d.len() as int } else { k };
        assert forall|i: int| 0 <= i < d.len() && i != k2 implies (#[trigger] d[i]).state == VoiceState::Free by {
            assert(d[i] == vs[i]);
        }
        lemma_mix_one_busy(d, k2, frames, offset, buf);
        assert(vs[last] == vs.last());
        if k < last {
            assert(d[k] == vs[k]);
        }
    }
}

/// Through a whole render pass: on a two-frame store, with one voice playing
/// at half speed from the start and the others free, the first output frame
/// is exactly the first sample frame and the second the midpoint of the two,
/// each scaled by `POS_ONE` and the envelope's level.
pub proof fn lemma_render_two_frames(vs: Seq<Voice>, k: int, a: Frame, b: Frame, offset: u64, buf: Seq<(i128, i128)>)
    requires
        0 <= k < vs.len(),
        forall|i: int| 0 <= i < vs.len() && i != k ==> (#[trigger] vs[i]).state == VoiceState::Free,
        vs[k].state == VoiceState::Busy,
        vs[k].env.stage != EnvStage::Init,
        vs[k].position == 0,
        vs[k].pitch_ratio == POS_ONE / 2,
        vs[k].env.wf(),
        buf.len() >= 2,
        within(buf, MIX_HEADROOM as int),
    ensures
        ({
            let (l0, e1) = vs[k].env.step();
            let (l1, e2) = e1.step();
            let out = mix(vs, seq![a, b], offset, buf).1;
            &&& out[0].0 == buf[0].0 + a.left * POS_ONE * l0
            &&& out[0].1 == buf[0].1 + a.right * POS_ONE * l0
            &&& out[1].0 == buf[1].0 + (a.left + b.left) * (POS_ONE / 2) * l1
            &&& out[1].1 == buf[1].1 + (a.right + b.right) * (POS_ONE / 2) * l1
        }),
{
    lemma_mix_one_busy(vs, k, seq![a, b], offset, buf);
    assert(play_limit(seq![a, b]) == POS_ONE);
    lemma_two_frame_interpolation(vs[k], a, b, offset, buf);
}

} // verus!

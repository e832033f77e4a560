//! Stereo frames built from interleaved PCM, and detection of the first
//! audible frame.
use vstd::prelude::*;

verus! {

/// A stereo pair of raw PCM sample values.
#[derive(Clone, Copy, Debug, PartialEq, Eq, Structural)]
pub struct Frame {
    pub left: i32,
    pub right: i32,
}

/// Number of frames in `len` interleaved samples of `channels` channels
/// (a trailing partial frame counts).
pub open spec fn frame_count(len: nat, channels: nat) -> nat {
    ((len + channels - 1) / channels as int) as nat
}

/// The `k`-th frame of interleaved samples: its first channel on the left,
/// its second on the right, and the first on both sides when it has no second.
pub open spec fn frame_at(samples: Seq<i32>, channels: nat, k: int) -> Frame {
    let start = k * channels;
    Frame {
        left: samples[start],
        right: if channels >= 2 && start + 1 < samples.len() {
            samples[start + 1]
        } else {
            samples[start]
        },
    }
}

pub open spec fn frames_of(samples: Seq<i32>, channels: nat) -> Seq<Frame> {
    Seq::new(frame_count(samples.len(), channels), |k: int| frame_at(samples, channels, k))
}

/// Groups interleaved samples into stereo frames; channels past the second
/// are ignored.
pub fn frames_from_interleaved(samples: &Vec<i32>, channels: usize) -> (r: Vec<Frame>)
    requires
        channels > 0,
    ensures
        r@ == frames_of(samples@, channels as nat),
{
    let len = samples.len();
    let mut r: Vec<Frame> = Vec::new();
    if len == 0 {
        proof {
            vstd::arithmetic::div_mod::lemma_basic_div((channels - 1) as int, channels as int);
        }
        assert(r@ =~= frames_of(samples@, channels as nat));
        return r;
    }
    let mut start: usize = 0;
    let ghost mut k: int = 0;
    loop
        invariant
            0 < len == samples@.len(),
            channels > 0,
            start == k * channels,
            start < len,
            r@.len() == k,
            forall|j: int| 0 <= j < k ==> r@[j] == #[trigger] frame_at(samples@, channels as nat, j),
        decreases len - start,
    {
        let left = samples[start];
        let right = if channels >= 2 && start + 1 < len {
            samples[start + 1]
        } else {
            left
        };
        r.push(Frame { left, right });
        proof {
            assert((k + 1) * channels == k * channels + channels) by (nonlinear_arith);
            k = k + 1;
        }
        if channels >= len - start {
            proof {
                vstd::arithmetic::div_mod::lemma_fundamental_div_mod_converse(
                    (len + channels - 1) as int, channels as int, k, (len - 1 - start) as int);
            }
            assert(r@ =~= frames_of(samples@, channels as nat));
            return r;
        }
        start = start + channels;
    }
}

/// `2^e`.
pub open spec fn power_of_two(e: nat) -> nat
    decreases e,
{
    if e == 0 {
        1
    } else {
        2 * power_of_two((e - 1) as nat)
    }
}

fn power_of_two_u64(e: u32) -> (r: u64)
    requires
        e <= 31,
    ensures
        r == power_of_two(e as nat),
        r <= 0x8000_0000,
{
    proof {
        reveal_with_fuel(power_of_two, 32);
    }
    let mut r: u64 = 1;
    let mut i: u32 = 0;
    while i < e
        invariant
            i <= e <= 31,
            r == power_of_two(i as nat),
            r * power_of_two((31 - i) as nat) == 0x8000_0000,
        decreases e - i,
    {
        proof {
            let p = power_of_two((30 - i) as nat);
            assert(power_of_two((31 - i) as nat) == 2 * p);
            assert(2 * r * p == r * (2 * p)) by (nonlinear_arith);
            lemma_power_of_two_positive((30 - i) as nat);
            assert(r * 2 <= 0x8000_0000) by (nonlinear_arith)
                requires r * (2 * p) == 0x8000_0000, p > 0;
        }
        r = r * 2;
        i = i + 1;
    }
    proof {
        lemma_power_of_two_positive((31 - i) as nat);
        assert(r <= 0x8000_0000) by (nonlinear_arith)
            requires r * power_of_two((31 - i) as nat) == 0x8000_0000, power_of_two((31 - i) as nat) > 0;
    }
    r
}

proof fn lemma_power_of_two_positive(b: nat)
    ensures
        power_of_two(b) > 0,
    decreases b,
{
    if b > 0 {
        lemma_power_of_two_positive((b - 1) as nat);
    }
}

/// A sample is audible when its magnitude exceeds one hundredth of the full
/// scale of a `bits`-bit sample.
pub open spec fn audible(s: i32, bits: nat) -> bool {
    100 * (if s < 0 { -s } else { s as int }) > power_of_two((bits - 1) as nat)
}

pub open spec fn loud(f: Frame, bits: nat) -> bool {
    audible(f.left, bits) || audible(f.right, bits)
}

pub open spec fn is_onset(fs: Seq<Frame>, bits: nat, i: int) -> bool {
    &&& 0 <= i < fs.len()
    &&& loud(fs[i], bits)
    &&& forall|j: int| 0 <= j < i ==> !loud(#[trigger] fs[j], bits)
}

/// Index of the first frame with an audible channel, or the number of
/// frames when there is none.
pub open spec fn onset(fs: Seq<Frame>, bits: nat) -> int {
    if exists|i: int| is_onset(fs, bits, i) {
        choose|i: int| is_onset(fs, bits, i)
    } else {
        fs.len() as int
    }
}

proof fn lemma_onset_unique(fs: Seq<Frame>, bits: nat, i: int)
    requires
        is_onset(fs, bits, i),
    ensures
        onset(fs, bits) == i,
{
    let c = onset(fs, bits);
    assert(is_onset(fs, bits, c));
    if c < i {
        assert(!loud(fs[c], bits));
    } else if c > i {
        assert(!loud(fs[i], bits));
    }
}

fn audible_exec(s: i32, full: u64) -> (r: bool)
    requires
        full <= 0x8000_0000,
    ensures
        r == (100 * (if s < 0 { -s } else { s as int }) > full),
{
    let m: i64 = if s < 0 { -(s as i64) } else { s as i64 };
    100 * m > full as i64
}

/// Finds the first audible frame of a store of `bits`-bit samples.
pub fn find_onset(frames: &Vec<Frame>, bits: u32) -> (r: usize)
    requires
        1 <= bits <= 32,
    ensures
        r == onset(frames@, bits as nat),
{
    let full = power_of_two_u64(bits - 1);
    let mut i: usize = 0;
    while i < frames.len()
        invariant
            1 <= bits <= 32,
            full == power_of_two((bits - 1) as nat),
            full <= 0x8000_0000,
            i <= frames@.len(),
            forall|j: int| 0 <= j < i ==> !loud(#[trigger] frames@[j], bits as nat),
        decreases frames.len() - i,
    {
        let f = frames[i];
        if audible_exec(f.left, full) || audible_exec(f.right, full) {
            proof {
                lemma_onset_unique(frames@, bits as nat, i as int);
            }
            return i;
        }
        i = i + 1;
    }
    i
}

/// A store with no audible frame starts after its last frame; one whose only
/// audible frame is `k` starts at `k`.
pub proof fn lemma_onset_of_silence_and_single(fs: Seq<Frame>, bits: nat, k: int)
    ensures
        (forall|j: int| 0 <= j < fs.len() ==> !loud(#[trigger] fs[j], bits)) ==> onset(fs, bits) == fs.len(),
        (0 <= k < fs.len() && loud(fs[k], bits) && forall|j: int| 0 <= j < fs.len() && j != k ==> !loud(#[trigger] fs[j], bits))
            ==> onset(fs, bits) == k,
{
    if forall|j: int| 0 <= j < fs.len() ==> !loud(#[trigger] fs[j], bits) {
        if exists|i: int| is_onset(fs, bits, i) {
            let i = choose|i: int| is_onset(fs, bits, i);
            assert(!loud(fs[i], bits));
        }
    }
    if 0 <= k < fs.len() && loud(fs[k], bits) && forall|j: int| 0 <= j < fs.len() && j != k ==> !loud(#[trigger] fs[j], bits) {
        lemma_onset_unique(fs, bits, k);
    }
}

/// Interleaved samples that are all zero hold no audible frame, so a store
/// built from them starts after its last frame.
pub proof fn lemma_zero_samples_onset(samples: Seq<i32>, channels: nat, bits: nat)
    requires
        channels > 0,
        forall|i: int| 0 <= i < samples.len() ==> samples[i] == 0,
    ensures
        onset(frames_of(samples, channels), bits) == frame_count(samples.len(), channels),
{
    let fs = frames_of(samples, channels);
    assert forall|j: int| 0 <= j < fs.len() implies !loud(#[trigger] fs[j], bits) by {
        assert(j * channels < samples.len()) by {
            assert(j < (samples.len() + channels - 1) / channels as int);
            assert(j + 1 <= (samples.len() + channels - 1) / channels as int);
            vstd::arithmetic::div_mod::lemma_fundamental_div_mod((samples.len() + channels - 1) as int, channels as int);
            assert((j + 1) * channels <= samples.len() + channels - 1) by (nonlinear_arith)
                requires j + 1 <= (samples.len() + channels - 1) / channels as int, channels > 0,
                    (samples.len() + channels - 1) == channels * ((samples.len() + channels - 1) / channels as int) + (samples.len() + channels - 1) % channels as int,
                    (samples.len() + channels - 1) % channels as int >= 0;
            assert((j + 1) * channels == j * channels + channels) by (nonlinear_arith);
        }
        assert(j * channels >= 0) by (nonlinear_arith) requires j >= 0, channels > 0;
        lemma_power_of_two_positive((bits - 1) as nat);
    }
    lemma_onset_of_silence_and_single(fs, bits, 0);
}

} // verus!

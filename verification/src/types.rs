use vstd::arithmetic::div_mod::{
    lemma_fundamental_div_mod, lemma_fundamental_div_mod_converse, lemma_multiply_divide_lt,
};
use vstd::arithmetic::mul::{lemma_mul_inequality, lemma_mul_is_distributive_add_other_way};
use vstd::prelude::*;

verus! {

/// Fixed-point full scale: a sample of this magnitude stands for 1.0.
pub const SAMPLE_UNIT: i32 = 16777216;

/// Decoded audio stored entirely in memory.
///
/// Samples are interleaved (channel-major within a frame) fixed-point
/// values; a frame is one sample per channel. The value is never mutated
/// after construction.
#[derive(Clone, Debug, PartialEq)]
pub struct AudioData {
    pub samples: Vec<i32>,
    pub sample_rate: u32,
    pub channels: u16,
}

impl AudioData {
    /// Well-formed audio: at least one channel, a positive sample rate,
    /// a whole number of frames, and every sample within full scale.
    pub open spec fn wf(self) -> bool {
        &&& self.channels >= 1
        &&& self.sample_rate >= 1
        &&& self.samples@.len() % (self.channels as nat) == 0
        &&& forall|i: int|
            0 <= i < self.samples@.len() ==> -SAMPLE_UNIT <= #[trigger] self.samples@[i]
                <= SAMPLE_UNIT
    }

    pub open spec fn spec_num_frames(self) -> nat {
        self.samples@.len() / (self.channels as nat)
    }

    /// Total number of frames (samples per channel).
    pub fn num_frames(&self) -> (n: usize)
        requires
            self.wf(),
        ensures
            n == self.spec_num_frames(),
    {
        self.samples.len() / (self.channels as usize)
    }

    /// The mono value of frame `f`: the floor of the arithmetic mean of the
    /// frame's samples.
    pub open spec fn spec_mono_sample(self, f: int) -> i32
        recommends
            self.wf(),
            0 <= f < self.spec_num_frames(),
    {
        (frame_sum(self.samples@, f * (self.channels as int), self.channels as nat) / (
        self.channels as int)) as i32
    }

    /// The whole mono mixdown, one value per frame.
    pub open spec fn mono_of(self) -> Seq<i32> {
        Seq::new(self.spec_num_frames(), |f: int| self.spec_mono_sample(f))
    }

    /// Mix down to mono, returning one sample per frame: each output value
    /// is the mean (rounded toward negative infinity) of that frame's
    /// samples across all channels.
    pub fn to_mono(&self) -> (mono: Vec<i32>)
        requires
            self.wf(),
        ensures
            mono@ == self.mono_of(),
    {
        let ch: usize = self.channels as usize;
        let frames: usize = self.num_frames();
        let len: usize = self.samples.len();
        proof {
            lemma_fundamental_div_mod(self.samples@.len() as int, ch as int);
        }
        let mut mono: Vec<i32> = Vec::new();
        let mut f: usize = 0;
        let mut base: usize = 0;
        while f < frames
            invariant
                self.wf(),
                ch == self.channels,
                frames == self.spec_num_frames(),
                len == self.samples@.len(),
                len == frames * ch,
                f <= frames,
                base == f * ch,
                mono@.len() == f,
                forall|j: int| 0 <= j < f ==> mono@[j] == self.spec_mono_sample(j),
            decreases frames - f,
        {
            proof {
                lemma_mul_inequality(f + 1, frames as int, ch as int);
                lemma_mul_is_distributive_add_other_way(ch as int, f as int, 1);
            }
            let mut sum: i64 = 0;
            let mut c: usize = 0;
            while c < ch
                invariant
                    self.wf(),
                    ch == self.channels,
                    c <= ch,
                    base + ch <= len,
                    len == self.samples@.len(),
                    sum == frame_sum(self.samples@, base as int, c as nat),
                    -(c as int) * (SAMPLE_UNIT as int) <= sum <= (c as int) * (SAMPLE_UNIT
                        as int),
                decreases ch - c,
            {
                proof {
                    lemma_mul_is_distributive_add_other_way(SAMPLE_UNIT as int, c as int, 1);
                    lemma_mul_inequality(c + 1, ch as int, SAMPLE_UNIT as int);
                }
                sum = sum + (self.samples[base + c] as i64);
                c = c + 1;
            }
            proof {
                lemma_mul_inequality(c as int, 65535, SAMPLE_UNIT as int);
                assert(ch * (SAMPLE_UNIT as int + 1) == ch * (SAMPLE_UNIT as int) + ch)
                    by (nonlinear_arith);
            }
            let mean: i32 = if sum >= 0 {
                proof {
                    lemma_multiply_divide_lt(sum as int, ch as int, SAMPLE_UNIT as int + 1);
                }
                ((sum as u64) / (ch as u64)) as i32
            } else {
                let neg: u64 = (-sum) as u64;
                let q: u64 = (neg + (ch as u64) - 1) / (ch as u64);
                proof {
                    lemma_multiply_divide_lt(
                        neg + ch - 1,
                        ch as int,
                        SAMPLE_UNIT as int + 1,
                    );
                    lemma_ceil_of_neg(neg as int, ch as int);
                }
                -(q as i32)
            };
            mono.push(mean);
            f = f + 1;
            base = base + ch;
        }
        proof {
            assert(mono@ =~= self.mono_of());
        }
        mono
    }
}

/// Sum of the `k` values of `s` that start at index `base`.
pub open spec fn frame_sum(s: Seq<i32>, base: int, k: nat) -> int
    decreases k,
{
    if k == 0 {
        0
    } else {
        frame_sum(s, base, (k - 1) as nat) + s[base + k - 1]
    }
}

/// Euclidean division of a negative value expressed through the ceiling
/// division of its magnitude: `(-a) / b == -((a + b - 1) / b)`.
proof fn lemma_ceil_of_neg(a: int, b: int)
    requires
        a >= 1,
        b >= 1,
    ensures
        (-a) / b == -((a + b - 1) / b),
{
    let q = (a + b - 1) / b;
    let r = (a + b - 1) % b;
    lemma_fundamental_div_mod(a + b - 1, b);
    assert(a + b - 1 == q * b + r);
    assert((-q) * b == -(q * b)) by (nonlinear_arith);
    lemma_fundamental_div_mod_converse(-a, b, -q, b - 1 - r);
}

/// Commands sent from the control thread to the engine.
///
/// `Seek` and the loop bounds are times in milliseconds; `SetTempo` is a
/// playback-rate ratio in permille (1000 = original speed).
#[derive(Clone, Debug)]
pub enum AudioCommand {
    LoadAudio(AudioData),
    Play,
    Pause,
    Stop,
    Seek(u64),
    SetTempo(u32),
    SetLoopRegion(Option<(u64, u64)>),
    Shutdown,
}

/// Events sent from the engine back to the control thread.
///
/// `PositionChanged` carries the playback position as a frame index;
/// dividing by the sample rate gives seconds.
#[derive(Clone, Debug, PartialEq)]
pub enum AudioEvent {
    PositionChanged(usize),
    PlaybackFinished,
    Error(String),
}

/// Current playback status, as the control surface tracks it.
#[derive(Clone, Copy, Debug, PartialEq, Eq, Structural)]
pub enum PlaybackStatus {
    Stopped,
    Playing,
    Paused,
}

} // verus!

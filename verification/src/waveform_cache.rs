use crate::types::AudioData;
use vstd::arithmetic::div_mod::{
    lemma_basic_div, lemma_div_pos_is_pos, lemma_fundamental_div_mod,
    lemma_hoist_over_denominator, lemma_mod_pos_bound, lemma_multiply_divide_le,
};
use vstd::arithmetic::mul::{
    lemma_mul_inequality, lemma_mul_is_commutative, lemma_mul_is_distributive_add_other_way,
    lemma_mul_nonnegative, lemma_mul_upper_bound,
};
use vstd::prelude::*;

verus! {

/// A single peak entry: extrema of one contiguous run of mono samples.
#[derive(Clone, Copy, Debug, PartialEq, Eq, Structural)]
pub struct Peak {
    pub min: i32,
    pub max: i32,
}

/// Pre-computed peaks at multiple resolutions for cheap waveform
/// rendering. Each level pairs a downsampling factor (mono samples per
/// peak) with the peak sequence it produces; levels are ordered from
/// finest to coarsest.
#[derive(Clone, Debug, PartialEq)]
pub struct WaveformPeaks {
    pub levels: Vec<(usize, Vec<Peak>)>,
}

/// Smallest value among `s[lo..hi]`; the range must not be empty.
pub open spec fn range_min(s: Seq<i32>, lo: int, hi: int) -> i32
    recommends
        0 <= lo < hi <= s.len(),
    decreases hi - lo,
{
    if hi <= lo + 1 {
        s[lo]
    } else {
        let m = range_min(s, lo, hi - 1);
        if s[hi - 1] < m {
            s[hi - 1]
        } else {
            m
        }
    }
}

/// Largest value among `s[lo..hi]`; the range must not be empty.
pub open spec fn range_max(s: Seq<i32>, lo: int, hi: int) -> i32
    recommends
        0 <= lo < hi <= s.len(),
    decreases hi - lo,
{
    if hi <= lo + 1 {
        s[lo]
    } else {
        let m = range_max(s, lo, hi - 1);
        if s[hi - 1] > m {
            s[hi - 1]
        } else {
            m
        }
    }
}

/// How many chunks of `spp` samples a sequence of `len` samples breaks
/// into, the last chunk allowed to be shorter.
pub open spec fn chunk_count(len: nat, spp: nat) -> nat
    recommends
        spp >= 1,
{
    ((len + spp - 1) / (spp as int)) as nat
}

/// The extrema of chunk `i` when `mono` is cut into runs of `spp`
/// samples.
pub open spec fn peak_of_chunk(mono: Seq<i32>, spp: int, i: int) -> Peak
    recommends
        spp >= 1,
        0 <= i,
        i * spp < mono.len(),
{
    let lo = i * spp;
    let hi = if (i + 1) * spp <= mono.len() {
        (i + 1) * spp
    } else {
        mono.len() as int
    };
    Peak { min: range_min(mono, lo, hi), max: range_max(mono, lo, hi) }
}

/// All the peaks of `mono` at downsampling factor `spp`.
pub open spec fn peaks_at_resolution(mono: Seq<i32>, spp: nat) -> Seq<Peak>
    recommends
        spp >= 1,
{
    Seq::new(chunk_count(mono.len(), spp), |i: int| peak_of_chunk(mono, spp as int, i))
}

/// The index of the level that a canvas of `width` pixels should use:
/// scanning from coarsest (`k`) to finest, the first level whose factor
/// is at most twice the native samples-per-pixel; the finest level if
/// none qualifies.
pub open spec fn best_from(spps: Seq<usize>, k: int, width: int, total: int) -> int
    decreases k,
{
    if k <= 0 {
        0
    } else if spps[k] * width <= 2 * total {
        k
    } else {
        best_from(spps, k - 1, width, total)
    }
}

/// The resampled peak for pixel column `i`: the combined extrema of the
/// base peaks whose index falls in `[i/width, (i+1)/width)` of the base
/// index space, at least one peak always included.
pub open spec fn column_peak(base: Seq<Peak>, width: int, i: int) -> Peak
    recommends
        width >= 1,
        0 <= i < width,
{
    let len = base.len() as int;
    let ps = i * len / width;
    let pe = (i + 1) * len / width;
    if ps >= len {
        Peak { min: 0, max: 0 }
    } else {
        let hi = if pe >= ps + 1 {
            pe
        } else {
            ps + 1
        };
        Peak {
            min: range_min(base.map_values(|p: Peak| p.min), ps, hi),
            max: range_max(base.map_values(|p: Peak| p.max), ps, hi),
        }
    }
}

impl WaveformPeaks {
    /// The downsampling factors of the levels, finest first.
    pub open spec fn spps(self) -> Seq<usize> {
        self.levels@.map_values(|l: (usize, Vec<Peak>)| l.0)
    }

    /// Well-formed cache: at least one level, factors positive and
    /// strictly increasing, and every stored peak has `min <= max`.
    pub open spec fn wf(self) -> bool {
        &&& self.levels@.len() >= 1
        &&& forall|l: int|
            0 <= l < self.levels@.len() ==> (#[trigger] self.levels@[l]).0 >= 1
        &&& forall|l1: int, l2: int|
            0 <= l1 < l2 < self.levels@.len() ==> (#[trigger] self.levels@[l1]).0 < (
            #[trigger] self.levels@[l2]).0
        &&& forall|l: int, i: int|
            0 <= l < self.levels@.len() && 0 <= i < self.levels@[l].1@.len() ==> (
            #[trigger] self.levels@[l].1@[i]).min <= self.levels@[l].1@[i].max
    }

    /// The level that `best_level` picks for the given width and length.
    pub open spec fn spec_best_level(self, width: int, total: int) -> int {
        best_from(self.spps(), self.levels@.len() - 1, width, total)
    }

    /// Compute peaks from audio data at the fixed set of resolutions.
    pub fn compute(audio: &AudioData) -> (r: WaveformPeaks)
        requires
            audio.wf(),
        ensures
            r.wf(),
            r.levels@.len() == 4,
            r.levels@[0].0 == 64,
            r.levels@[1].0 == 256,
            r.levels@[2].0 == 1024,
            r.levels@[3].0 == 4096,
            forall|l: int|
                0 <= l < 4 ==> (#[trigger] r.levels@[l]).1@ == peaks_at_resolution(
                    audio.mono_of(),
                    r.levels@[l].0 as nat,
                ),
    {
        let mono = audio.to_mono();
        let mut levels: Vec<(usize, Vec<Peak>)> = Vec::new();
        let p = compute_peaks_at_resolution(&mono, 64);
        levels.push((64, p));
        let p = compute_peaks_at_resolution(&mono, 256);
        levels.push((256, p));
        let p = compute_peaks_at_resolution(&mono, 1024);
        levels.push((1024, p));
        let p = compute_peaks_at_resolution(&mono, 4096);
        levels.push((4096, p));
        WaveformPeaks { levels }
    }

    /// Pick the resolution level for the given canvas width: the coarsest
    /// level whose factor is at most twice the native samples-per-pixel,
    /// or the finest level if none qualifies.
    pub fn best_level(&self, canvas_width: usize, total_frames: usize) -> (l: usize)
        requires
            self.wf(),
            canvas_width >= 1,
        ensures
            l < self.levels@.len(),
            l == self.spec_best_level(canvas_width as int, total_frames as int),
    {
        let mut k: usize = self.levels.len() - 1;
        while k > 0
            invariant
                self.wf(),
                k < self.levels@.len(),
                best_from(self.spps(), self.levels@.len() - 1, canvas_width as int,
                    total_frames as int) == best_from(self.spps(), k as int,
                    canvas_width as int, total_frames as int),
            decreases k,
        {
            let spp = self.levels[k].0;
            proof {
                lemma_mul_upper_bound(
                    spp as int,
                    u64::MAX as int,
                    canvas_width as int,
                    u64::MAX as int,
                );
            }
            if (spp as u128) * (canvas_width as u128) <= 2 * (total_frames as u128) {
                return k;
            }
            k = k - 1;
        }
        0
    }

    /// Peaks for rendering at the given width: one peak per pixel column,
    /// resampled from the level `best_level` picks. A degenerate request
    /// (no frames, or a zero-width canvas) yields an empty sequence; any
    /// other request yields exactly `canvas_width` peaks, each with
    /// `min <= max`.
    pub fn peaks_for_width(&self, canvas_width: usize, total_frames: usize) -> (r: Vec<Peak>)
        requires
            self.wf(),
        ensures
            canvas_width == 0 || total_frames == 0 ==> r@.len() == 0,
            canvas_width >= 1 && total_frames >= 1 ==> r@.len() == canvas_width,
            canvas_width >= 1 && total_frames >= 1 ==> forall|i: int|
                0 <= i < canvas_width ==> r@[i] == column_peak(
                    self.levels@[self.spec_best_level(
                        canvas_width as int,
                        total_frames as int,
                    )].1@,
                    canvas_width as int,
                    i,
                ),
            forall|i: int| 0 <= i < r@.len() ==> (#[trigger] r@[i]).min <= r@[i].max,
    {
        if total_frames == 0 || canvas_width == 0 {
            return Vec::new();
        }
        let lvl = self.best_level(canvas_width, total_frames);
        let base: &Vec<Peak> = &self.levels[lvl].1;
        let blen: usize = base.len();
        let width: usize = canvas_width;
        let mut r: Vec<Peak> = Vec::new();
        let mut i: usize = 0;
        while i < width
            invariant
                self.wf(),
                lvl < self.levels@.len(),
                base@ == self.levels@[lvl as int].1@,
                blen == base@.len(),
                width == canvas_width,
                width >= 1,
                i <= width,
                r@.len() == i,
                forall|j: int| 0 <= j < i ==> r@[j] == column_peak(base@, width as int, j),
                forall|j: int| 0 <= j < i ==> (#[trigger] r@[j]).min <= r@[j].max,
            decreases width - i,
        {
            proof {
                lemma_mul_upper_bound(i as int, u64::MAX as int, blen as int, u64::MAX as int);
                lemma_mul_upper_bound(i + 1, u64::MAX as int, blen as int, u64::MAX as int);
                lemma_mul_nonnegative(i as int, blen as int);
                lemma_div_pos_is_pos(i as int * blen as int, width as int);
                lemma_mul_inequality(i as int, width as int, blen as int);
                lemma_mul_inequality(i + 1, width as int, blen as int);
                lemma_mul_is_commutative(width as int, blen as int);
                lemma_multiply_divide_le(i as int * blen as int, width as int, blen as int);
                lemma_multiply_divide_le((i + 1) * blen as int, width as int, blen as int);
                lemma_column_peak_wf(base@, width as int, i as int);
            }
            let ps: usize = ((i as u128) * (blen as u128) / (width as u128)) as usize;
            let pe: usize = (((i as u128) + 1) * (blen as u128) / (width as u128)) as usize;
            if ps >= blen {
                r.push(Peak { min: 0, max: 0 });
            } else {
                let hi: usize = if pe >= ps + 1 {
                    pe
                } else {
                    ps + 1
                };
                let ghost mins = base@.map_values(|p: Peak| p.min);
                let ghost maxs = base@.map_values(|p: Peak| p.max);
                let first = base[ps];
                let mut mn: i32 = first.min;
                let mut mx: i32 = first.max;
                let mut k: usize = ps + 1;
                while k < hi
                    invariant
                        blen == base@.len(),
                        mins.len() == blen,
                        maxs.len() == blen,
                        forall|t: int|
                            0 <= t < blen ==> mins[t] == (#[trigger] base@[t]).min && maxs[t]
                                == base@[t].max,
                        ps < hi <= blen,
                        ps < k <= hi,
                        mn == range_min(mins, ps as int, k as int),
                        mx == range_max(maxs, ps as int, k as int),
                    decreases hi - k,
                {
                    let q = base[k];
                    if q.min < mn {
                        mn = q.min;
                    }
                    if q.max > mx {
                        mx = q.max;
                    }
                    k = k + 1;
                }
                proof {
                    assert(mins =~= base@.map_values(|p: Peak| p.min));
                    assert(maxs =~= base@.map_values(|p: Peak| p.max));
                }
                r.push(Peak { min: mn, max: mx });
            }
            i = i + 1;
        }
        r
    }
}

/// Cut `mono` into consecutive runs of `samples_per_peak` samples (the
/// last run may be shorter) and record each run's extrema as one peak.
pub fn compute_peaks_at_resolution(mono: &Vec<i32>, samples_per_peak: usize) -> (r: Vec<Peak>)
    requires
        samples_per_peak >= 1,
    ensures
        r@ == peaks_at_resolution(mono@, samples_per_peak as nat),
        forall|i: int| 0 <= i < r@.len() ==> (#[trigger] r@[i]).min <= r@[i].max,
{
    let spp = samples_per_peak;
    let len = mono.len();
    let mut r: Vec<Peak> = Vec::new();
    if len == 0 {
        proof {
            lemma_basic_div(spp - 1, spp as int);
            assert(r@ =~= peaks_at_resolution(mono@, spp as nat));
        }
        return r;
    }
    let n: usize = (len - 1) / spp + 1;
    proof {
        lemma_hoist_over_denominator(len - 1, 1, spp as nat);
        lemma_fundamental_div_mod(len - 1, spp as int);
        lemma_mod_pos_bound(len - 1, spp as int);
        lemma_mul_is_commutative(spp as int, (n - 1) as int);
    }
    let mut i: usize = 0;
    let mut start: usize = 0;
    while i < n
        invariant
            spp >= 1,
            len == mono@.len(),
            1 <= n,
            n == chunk_count(len as nat, spp as nat),
            ((n - 1) as int) * (spp as int) <= len - 1,
            i <= n,
            i < n ==> start == i * spp,
            start <= len,
            r@.len() == i,
            forall|j: int| 0 <= j < i ==> r@[j] == peak_of_chunk(mono@, spp as int, j),
        decreases n - i,
    {
        proof {
            lemma_mul_inequality(i as int, (n - 1) as int, spp as int);
            lemma_mul_is_distributive_add_other_way(spp as int, i as int, 1);
            if i + 1 < n {
                lemma_mul_inequality(i + 1, (n - 1) as int, spp as int);
            }
        }
        let end: usize = if len - start > spp {
            start + spp
        } else {
            len
        };
        let mut mn: i32 = mono[start];
        let mut mx: i32 = mono[start];
        let mut k: usize = start + 1;
        while k < end
            invariant
                len == mono@.len(),
                start < end <= len,
                start < k <= end,
                mn == range_min(mono@, start as int, k as int),
                mx == range_max(mono@, start as int, k as int),
            decreases end - k,
        {
            let v = mono[k];
            if v < mn {
                mn = v;
            }
            if v > mx {
                mx = v;
            }
            k = k + 1;
        }
        r.push(Peak { min: mn, max: mx });
        i = i + 1;
        start = end;
    }
    proof {
        assert(r@ =~= peaks_at_resolution(mono@, spp as nat));
    }
    r
}

/// The smallest value of a nonempty range is no larger than its first
/// element.
proof fn lemma_range_min_le_first(s: Seq<i32>, lo: int, hi: int)
    requires
        0 <= lo < hi <= s.len(),
    ensures
        range_min(s, lo, hi) <= s[lo],
    decreases hi - lo,
{
    if hi > lo + 1 {
        lemma_range_min_le_first(s, lo, hi - 1);
    }
}

/// The largest value of a nonempty range is no smaller than its first
/// element.
proof fn lemma_range_max_ge_first(s: Seq<i32>, lo: int, hi: int)
    requires
        0 <= lo < hi <= s.len(),
    ensures
        range_max(s, lo, hi) >= s[lo],
    decreases hi - lo,
{
    if hi > lo + 1 {
        lemma_range_max_ge_first(s, lo, hi - 1);
    }
}

/// Law (peak round trip, the extrema half): every resampled pixel column
/// over base peaks that each satisfy `min <= max` again satisfies
/// `min <= max`; together with the length clause of `peaks_for_width`
/// this pins the render of any computed cache down to exactly one
/// well-formed peak per column.
pub proof fn lemma_column_peak_wf(base: Seq<Peak>, width: int, i: int)
    requires
        forall|k: int| 0 <= k < base.len() ==> (#[trigger] base[k]).min <= base[k].max,
        1 <= width,
        0 <= i < width,
    ensures
        column_peak(base, width, i).min <= column_peak(base, width, i).max,
{
    let len = base.len() as int;
    let ps = i * len / width;
    let pe = (i + 1) * len / width;
    lemma_mul_nonnegative(i, len);
    lemma_div_pos_is_pos(i * len, width);
    if ps < len {
        let hi = if pe >= ps + 1 {
            pe
        } else {
            ps + 1
        };
        lemma_mul_inequality(i + 1, width, len);
        lemma_mul_is_commutative(width, len);
        lemma_multiply_divide_le((i + 1) * len, width, len);
        let mins = base.map_values(|p: Peak| p.min);
        let maxs = base.map_values(|p: Peak| p.max);
        lemma_range_min_le_first(mins, ps, hi);
        lemma_range_max_ge_first(maxs, ps, hi);
    }
}

/// `best_from` always lands within the scanned prefix.
proof fn lemma_best_from_bounds(spps: Seq<usize>, k: int, width: int, total: int)
    requires
        0 <= k,
    ensures
        0 <= best_from(spps, k, width, total) <= k,
    decreases k,
{
    if k > 0 && !(spps[k] * width <= 2 * total) {
        lemma_best_from_bounds(spps, k - 1, width, total);
    }
}

/// Scanning with a narrower canvas never lands on a finer level.
proof fn lemma_best_from_monotone(spps: Seq<usize>, k: int, w1: int, w2: int, total: int)
    requires
        0 <= k < spps.len(),
        1 <= w1 < w2,
    ensures
        best_from(spps, k, w1, total) >= best_from(spps, k, w2, total),
    decreases k,
{
    if k > 0 {
        lemma_mul_inequality(w1, w2, spps[k] as int);
        lemma_mul_is_commutative(w1, spps[k] as int);
        lemma_mul_is_commutative(w2, spps[k] as int);
        if spps[k] * w2 <= 2 * total {
            // the coarser scan accepts level k, and so does the finer one
        } else if spps[k] * w1 <= 2 * total {
            lemma_best_from_bounds(spps, k - 1, w2, total);
        } else {
            lemma_best_from_monotone(spps, k - 1, w1, w2, total);
        }
    }
}

/// Law (resolution monotonicity): for a fixed cache, a narrower canvas
/// selects a level whose samples-per-peak factor is at least as large
/// (coarser or equal) as the one a wider canvas selects.
pub proof fn lemma_resolution_monotone(p: WaveformPeaks, w1: int, w2: int, total: int)
    requires
        p.wf(),
        1 <= w1 < w2,
    ensures
        p.levels@[p.spec_best_level(w1, total)].0 >= p.levels@[p.spec_best_level(
            w2,
            total,
        )].0,
{
    let last = p.levels@.len() - 1;
    let i1 = p.spec_best_level(w1, total);
    let i2 = p.spec_best_level(w2, total);
    lemma_best_from_bounds(p.spps(), last, w1, total);
    lemma_best_from_bounds(p.spps(), last, w2, total);
    lemma_best_from_monotone(p.spps(), last, w1, w2, total);
    assert(p.spps()[i1] == p.levels@[i1].0);
    assert(p.spps()[i2] == p.levels@[i2].0);
}

} // verus!

//! Fractal (multi-octave) noise accumulation. A coherent-noise primitive is
//! sampled once per octave per pixel by the caller; this module owns the
//! arithmetic that layers those octaves — geometrically decaying amplitudes,
//! normalization of the weighted sum back to `[-1, 1]`, and quantization to
//! an 8-bit intensity. Octave samples are fixed-point fractions of 65536,
//! clamped to `[-65536, 65536]`.

use vstd::prelude::*;
use crate::math::{rdiv, rdiv_up, lemma_rdiv_up_range, lemma_div_below};
use vstd::arithmetic::div_mod::lemma_div_pos_is_pos;
use crate::field::IntensityField;

verus! {

/// The amplitude of octave `k`: the persistence factor applied `k` times to
/// the unit amplitude, in fixed-point units of 1/65536.
pub open spec fn amp_fx(p: int, k: nat) -> int
    decreases k,
{
    if k == 0 {
        65536
    } else {
        amp_fx(p, (k - 1) as nat) * p / 65536
    }
}

/// Amplitudes stay inside `[0, 65536]` for persistence in `(0, 1)`.
pub proof fn lemma_amp_fx_range(p: int, k: nat)
    requires
        0 < p <= 65536,
    ensures
        0 <= amp_fx(p, k) <= 65536,
    decreases k,
{
    if k > 0 {
        lemma_amp_fx_range(p, (k - 1) as nat);
        let a: int = amp_fx(p, (k - 1) as nat);
        assert(0 <= a * p <= 65536 * 65536) by (nonlinear_arith)
            requires 0 <= a <= 65536, 0 < p <= 65536,
        ;
        lemma_div_pos_is_pos(a * p, 65536);
        lemma_div_below(a * p, 65536, 65537);
    }
}

/// The weighted sum of the first `j` octave samples.
pub open spec fn octave_value_sum(samples: Seq<i64>, p: int, j: nat) -> int
    decreases j,
{
    if j == 0 {
        0
    } else {
        octave_value_sum(samples, p, (j - 1) as nat)
            + samples[j - 1] * amp_fx(p, (j - 1) as nat)
    }
}

/// The sum of the first `j` octave amplitudes (the normalizer).
pub open spec fn octave_amp_sum(p: int, j: nat) -> int
    decreases j,
{
    if j == 0 {
        0
    } else {
        octave_amp_sum(p, (j - 1) as nat) + amp_fx(p, (j - 1) as nat)
    }
}

/// The normalizer of `j >= 1` octaves is at least the full first amplitude,
/// and at most `j` full amplitudes; the weighted sum never exceeds it in
/// magnitude when every sample lies in `[-65536, 65536]`.
pub proof fn lemma_octave_sums_range(samples: Seq<i64>, p: int, j: nat)
    requires
        0 < p <= 65536,
        j <= samples.len(),
        forall|k: int| 0 <= k < samples.len() ==> -65536 <= #[trigger] samples[k] <= 65536,
    ensures
        0 <= octave_amp_sum(p, j) <= 65536 * j,
        j >= 1 ==> octave_amp_sum(p, j) >= 65536,
        -65536 * octave_amp_sum(p, j) <= octave_value_sum(samples, p, j)
            <= 65536 * octave_amp_sum(p, j),
    decreases j,
{
    if j > 0 {
        lemma_octave_sums_range(samples, p, (j - 1) as nat);
        let a: int = amp_fx(p, (j - 1) as nat);
        let s: int = samples[j - 1] as int;
        lemma_amp_fx_range(p, (j - 1) as nat);
        if j == 1 {
            assert(amp_fx(p, 0) == 65536);
        }
        assert(-65536 * a <= s * a <= 65536 * a) by (nonlinear_arith)
            requires -65536 <= s <= 65536, 0 <= a,
        ;
        assert(65536 * ((j - 1) as nat) + 65536 == 65536 * j);
        assert(-65536 * (octave_amp_sum(p, (j - 1) as nat) + a)
            == -65536 * octave_amp_sum(p, (j - 1) as nat) + (-65536) * a)
            by (nonlinear_arith);
        assert(65536 * (octave_amp_sum(p, (j - 1) as nat) + a)
            == 65536 * octave_amp_sum(p, (j - 1) as nat) + 65536 * a)
            by (nonlinear_arith);
        assert((-65536) * a == -(65536 * a)) by (nonlinear_arith);
    }
}

/// The fractal intensity of one pixel from its octave samples: the weighted
/// octave sum divided by the normalizer, mapped from `[-1, 1]` to `[0, 1]`
/// and quantized to `[0, 255]`.
pub open spec fn fbm_intensity_spec(samples: Seq<i64>, p: int) -> int {
    let o: nat = samples.len();
    let value: int = octave_value_sum(samples, p, o);
    let norm: int = octave_amp_sum(p, o);
    let t: int = (value + norm * 65536) / (2 * norm);
    rdiv_up(t * 255, 65536)
}

/// A whole field of fractal intensities, one pixel per entry of `samples`.
pub open spec fn spec_fractal_field(samples: Seq<Vec<i64>>, p: int) -> Seq<u8> {
    Seq::new(samples.len(), |i: int| fbm_intensity_spec(samples[i]@, p) as u8)
}

/// The multi-octave noise accumulator: how many octaves to layer and how
/// fast their amplitudes decay (persistence, a fixed-point fraction of
/// 65536, strictly between 0 and 1). The caller chooses the frequency of
/// each octave when it samples the noise primitive (the lacunarity).
pub struct FractalNoiseGenerator {
    pub octaves: usize,
    pub persistence_fx: u32,
}

impl FractalNoiseGenerator {
    /// At least one octave, a bounded count, and a persistence in `(0, 1)`.
    pub open spec fn wf(self) -> bool {
        &&& 1 <= self.octaves <= 32
        &&& 1 <= self.persistence_fx <= 65535
    }

    /// A generator from an octave count and a fixed-point persistence.
    pub fn new(octaves: usize, persistence_fx: u32) -> (g: FractalNoiseGenerator)
        requires
            1 <= octaves <= 32,
            1 <= persistence_fx <= 65535,
        ensures
            g.wf(),
            g.octaves == octaves,
            g.persistence_fx == persistence_fx,
    {
        FractalNoiseGenerator { octaves, persistence_fx }
    }

    /// Layer one pixel's octave samples into an 8-bit intensity.
    pub fn intensity_from_samples(&self, samples: &Vec<i64>) -> (v: u8)
        requires
            self.wf(),
            samples@.len() == self.octaves,
            forall|k: int| 0 <= k < samples@.len()
                ==> -65536 <= #[trigger] samples@[k] <= 65536,
        ensures
            v as int == fbm_intensity_spec(samples@, self.persistence_fx as int),
    {
        let p: u32 = self.persistence_fx;
        let o: usize = self.octaves;
        let mut value: i64 = 0;
        let mut norm: u64 = 0;
        let mut amp: u32 = 65536;
        let mut k: usize = 0;
        while k < o
            invariant
                k <= o,
                o == samples@.len(),
                1 <= o <= 32,
                1 <= p <= 65535,
                forall|j: int| 0 <= j < samples@.len()
                    ==> -65536 <= #[trigger] samples@[j] <= 65536,
                amp as int == amp_fx(p as int, k as nat),
                value == octave_value_sum(samples@, p as int, k as nat),
                norm == octave_amp_sum(p as int, k as nat),
                norm <= 65536 * k,
                -65536 * (norm as int) <= value <= 65536 * (norm as int),
            decreases o - k,
        {
            proof {
                lemma_amp_fx_range(p as int, k as nat);
                lemma_octave_sums_range(samples@, p as int, (k + 1) as nat);
                lemma_octave_sums_range(samples@, p as int, k as nat);
            }
            let s: i64 = samples[k];
            assert(-65536 * (amp as int) <= s * (amp as int) <= 65536 * (amp as int))
                by (nonlinear_arith)
                requires -65536 <= s <= 65536, 0 <= amp,
            ;
            value = value + s * (amp as i64);
            norm = norm + (amp as u64);
            proof {
                assert((amp as int) * (p as int) < 65536 * 65537) by (nonlinear_arith)
                    requires 0 <= amp <= 65536, 0 < p <= 65535,
                ;
                assert((amp as int) * (p as int) >= 0) by (nonlinear_arith)
                    requires 0 <= amp, 0 < p,
                ;
            }
            let next_amp: u64 = (amp as u64) * (p as u64) / 65536;
            proof {
                lemma_div_pos_is_pos((amp as int) * (p as int), 65536);
                lemma_div_below((amp as int) * (p as int), 65536, 65537);
            }
            amp = next_amp as u32;
            k = k + 1;
        }
        proof {
            lemma_octave_sums_range(samples@, p as int, o as nat);
        }
        let num: i64 = value + (norm as i64) * 65536;
        let t: u64 = (num as u64) / (2 * norm);
        proof {
            lemma_div_pos_is_pos(num as int, 2 * norm as int);
            lemma_div_below(num as int, 2 * (norm as int), 65537);
            assert((num as int) < (2 * (norm as int)) * 65537) by (nonlinear_arith)
                requires
                    num as int <= 2 * (norm as int) * 65536,
                    norm >= 1,
            ;
            lemma_rdiv_up_range((t as int) * 255, 65536, 255);
            assert((t as int) * 255 <= 255 * 65536) by (nonlinear_arith)
                requires 0 <= t <= 65536,
            ;
        }
        let q: u64 = rdiv(t * 255, 65536);
        q as u8
    }

    /// Layer a whole grid of per-pixel octave samples (row-major, one inner
    /// vector of `octaves` samples per pixel) into an intensity field.
    pub fn field_from_samples(
        &self,
        width: usize,
        height: usize,
        samples: &Vec<Vec<i64>>,
    ) -> (out: IntensityField)
        requires
            self.wf(),
            1 <= width <= 0x4000_0000,
            1 <= height <= 0x4000_0000,
            samples@.len() == width * height,
            forall|i: int| 0 <= i < samples@.len()
                ==> (#[trigger] samples@[i])@.len() == self.octaves,
            forall|i: int, k: int| 0 <= i < samples@.len()
                && 0 <= k < samples@[i]@.len()
                ==> -65536 <= #[trigger] samples@[i]@[k] <= 65536,
        ensures
            out.wf(),
            out.width == width,
            out.height == height,
            out.data@ == spec_fractal_field(samples@, self.persistence_fx as int),
    {
        let n: usize = samples.len();
        let mut data: Vec<u8> = Vec::new();
        let mut i: usize = 0;
        while i < n
            invariant
                i <= n,
                n == samples@.len(),
                self.wf(),
                forall|j: int| 0 <= j < samples@.len()
                    ==> (#[trigger] samples@[j])@.len() == self.octaves,
                forall|j: int, k: int| 0 <= j < samples@.len()
                    && 0 <= k < samples@[j]@.len()
                    ==> -65536 <= #[trigger] samples@[j]@[k] <= 65536,
                data@.len() == i,
                forall|j: int| 0 <= j < i ==> data@[j] == spec_fractal_field(
                    samples@, self.persistence_fx as int)[j],
            decreases n - i,
        {
            let v: u8 = self.intensity_from_samples(&samples[i]);
            data.push(v);
            i = i + 1;
        }
        assert(data@ =~= spec_fractal_field(samples@, self.persistence_fx as int));
        IntensityField { width, height, data }
    }
}

} // verus!

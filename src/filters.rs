use vstd::prelude::*;

use crate::audio::{is_silence, Audio};

verus! {

/// Keeps the top bits of each sample: a sample scaled to the range of a `u64`
/// keeps its `.0` most significant bits.
#[derive(Clone, Copy, Debug, Default, PartialEq, Eq)]
pub struct BitCruncher(pub u32);

/// Keeps one sample out of every `.0` (zero is taken as one) and divides the
/// sampling frequency by the same factor.
#[derive(Clone, Copy, Debug, Default, PartialEq, Eq)]
pub struct SimpleDownsampler(pub u16);

/// Follows each sample by `.0 - 1` samples of silence (zero is taken as one)
/// and multiplies the sampling frequency by the same factor.
#[derive(Clone, Copy, Debug, Default, PartialEq, Eq)]
pub struct SimpleUpsampler(pub u16);

/// How far a word is shifted to keep `bits` of its most significant bits.
pub open spec fn crunch_shift(bits: u32) -> u32 {
    if bits <= 64 {
        (64 - bits) as u32
    } else {
        0
    }
}

/// The factor that a resampler's setting stands for.
pub open spec fn factor_of(setting: u16) -> int {
    if setting == 0 {
        1
    } else {
        setting as int
    }
}

impl BitCruncher {
    /// How many low bits are cleared.
    pub fn shift(&self) -> (r: u32)
        ensures
            r == crunch_shift(self.0),
    {
        if self.0 <= 64 {
            64 - self.0
        } else {
            0
        }
    }

    /// Clears the low bits of a word, keeping the bits this cruncher keeps.
    pub fn crunch_word(&self, word: u64) -> (r: u64)
        ensures
            crunch_shift(self.0) == 64 ==> r == 0,
            crunch_shift(self.0) < 64 ==> r as int == (word as int / pow2_int(crunch_shift(self.0)))
                * pow2_int(crunch_shift(self.0)),
    {
        let shift = self.shift();
        if shift >= 64 {
            return 0;
        }
        let m = (word >> shift) << shift;
        proof {
            lemma_shift_round(word, shift);
        }
        m
    }
}

pub open spec fn pow2_int(e: u32) -> int
    decreases e,
{
    if e == 0 {
        1
    } else {
        2 * pow2_int((e - 1) as u32)
    }
}

proof fn lemma_pow2_matches(e: u32)
    requires
        e < 64,
    ensures
        pow2_int(e) == vstd::arithmetic::power2::pow2(e as nat),
    decreases e,
{
    if e > 0 {
        lemma_pow2_matches((e - 1) as u32);
        vstd::arithmetic::power2::lemma_pow2_unfold(e as nat);
    } else {
        vstd::arithmetic::power2::lemma2_to64();
    }
}

proof fn lemma_shift_round(word: u64, shift: u32)
    requires
        shift < 64,
    ensures
        ((word >> shift) << shift) as int == (word as int / pow2_int(shift)) * pow2_int(shift),
{
    lemma_pow2_matches(shift);
    vstd::bits::lemma_u64_shr_is_div(word, shift as u64);
    let q = word >> shift;
    vstd::arithmetic::power2::lemma_pow2_pos(shift as nat);
    assert(q as int * pow2_int(shift) <= word as int) by (nonlinear_arith)
        requires
            q as int == word as int / pow2_int(shift),
            pow2_int(shift) > 0,
    ;
    vstd::bits::lemma_u64_shl_is_mul(q, shift as u64);
}

impl SimpleDownsampler {
    /// Every `factor`-th sample, from the first, at the frequency divided by
    /// `factor` (rounded down).
    pub fn filter<S: Copy>(&self, audio: Audio<S>) -> (r: Audio<S>)
        ensures
            ({
                let f = factor_of(self.0);
                let s = audio.spec_samples();
                &&& r.spec_samples().len() == (s.len() + f - 1) / f
                &&& forall|i: int|
                    0 <= i < r.spec_samples().len() ==> #[trigger] r.spec_samples()[i] == s[i * f]
                &&& r.spec_sampling_frequency() as int == audio.spec_sampling_frequency() as int / f
            }),
    {
        let factor: usize = if self.0 == 0 {
            1
        } else {
            self.0 as usize
        };
        let frequency = audio.get_sampling_frequency() / factor as u32;
        let samples = audio.get_samples();
        let n = samples.len();
        let mut kept: Vec<S> = Vec::new();
        let mut i: usize = 0;
        proof {
            assert(kept@.len() * factor == 0) by (nonlinear_arith)
                requires kept@.len() == 0;
            if n == 0 {
                assert((n + factor - 1) / (factor as int) == 0) by (nonlinear_arith)
                    requires n == 0, factor >= 1;
            }
        }
        while i < n
            invariant
                factor as int == factor_of(self.0),
                factor >= 1,
                n == samples@.len(),
                samples@ == audio.spec_samples(),
                i <= n,
                i < n ==> i as int == kept@.len() * factor,
                i == n ==> kept@.len() == (n + factor - 1) / (factor as int),
                forall|j: int| 0 <= j < kept@.len() ==> #[trigger] kept@[j] == samples@[j * factor],
            decreases n - i,
        {
            let ghost before = kept@.len();
            kept.push(samples[i]);
            if n - i > factor {
                proof {
                    assert((before + 1) * factor == before * factor + factor) by (nonlinear_arith);
                }
                i = i + factor;
            } else {
                proof {
                    assert((n + factor - 1) / (factor as int) == before + 1) by (nonlinear_arith)
                        requires
                            i as int == before * factor,
                            factor >= 1,
                            i < n,
                            n - i <= factor,
                    ;
                }
                i = n;
            }
        }
        Audio::from_parts(kept, frequency)
    }
}

impl SimpleUpsampler {
    /// Each sample followed by `factor - 1` samples of silence, at the
    /// frequency multiplied by `factor`.
    pub fn filter<S: Copy + Default>(&self, audio: Audio<S>) -> (r: Audio<S>)
        requires
            audio.spec_sampling_frequency() * factor_of(self.0) <= u32::MAX,
            audio.spec_samples().len() * factor_of(self.0) <= usize::MAX,
        ensures
            ({
                let f = factor_of(self.0);
                let s = audio.spec_samples();
                &&& r.spec_samples().len() == s.len() * f
                &&& forall|i: int|
                    0 <= i < r.spec_samples().len() ==> if i % f == 0 {
                        #[trigger] r.spec_samples()[i] == s[i / f]
                    } else {
                        is_silence(r.spec_samples()[i])
                    }
                &&& r.spec_sampling_frequency() as int == audio.spec_sampling_frequency() as int * f
            }),
    {
        let factor: usize = if self.0 == 0 {
            1
        } else {
            self.0 as usize
        };
        let frequency = audio.get_sampling_frequency() * factor as u32;
        let samples = audio.get_samples();
        let n = samples.len();
        let mut out: Vec<S> = Vec::new();
        let mut i: usize = 0;
        while i < n
            invariant
                factor as int == factor_of(self.0),
                factor >= 1,
                n == samples@.len(),
                samples@ == audio.spec_samples(),
                n * factor <= usize::MAX,
                i <= n,
                out@.len() == i * factor,
                forall|j: int|
                    0 <= j < out@.len() ==> if j % (factor as int) == 0 {
                        #[trigger] out@[j] == samples@[j / (factor as int)]
                    } else {
                        is_silence(out@[j])
                    },
            decreases n - i,
        {
            proof {
                assert(i * factor + factor <= n * factor) by (nonlinear_arith)
                    requires i < n, factor >= 1;
            }
            let ghost base: int = out@.len() as int;
            proof {
                assert(base % (factor as int) == 0 && base / (factor as int) == i) by (nonlinear_arith)
                    requires base == i * factor, factor >= 1;
            }
            out.push(samples[i]);
            let mut k: usize = 1;
            while k < factor
                invariant
                    1 <= k <= factor,
                    factor >= 1,
                    base == i * factor,
                    out@.len() == base + k,
                    i < n,
                    n == samples@.len(),
                    forall|j: int|
                        0 <= j < out@.len() ==> if j % (factor as int) == 0 {
                            #[trigger] out@[j] == samples@[j / (factor as int)]
                        } else {
                            is_silence(out@[j])
                        },
                    i * factor + factor <= n * factor,
                    n * factor <= usize::MAX,
                decreases factor - k,
            {
                out.push(S::default());
                proof {
                    let j = base + k;
                    assert(j % (factor as int) != 0) by (nonlinear_arith)
                        requires j == i * factor + k, 1 <= k < factor;
                }
                k = k + 1;
            }
            proof {
                assert((i + 1) * factor == i * factor + factor) by (nonlinear_arith);
            }
            i = i + 1;
        }
        Audio::from_parts(out, frequency)
    }
}

} // verus!

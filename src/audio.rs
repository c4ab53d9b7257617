use vstd::prelude::*;
use vstd::std_specs::ops::AddSpec;
use core::ops::Add;

use crate::time::{milliseconds_in, milliseconds_to_samples, samples_in, samples_to_milliseconds};

verus! {

/// What can be wrong with a buffer, or with a pair of buffers combined.
#[derive(Clone, Copy, Debug, PartialEq, Eq, Structural)]
pub enum InvalidAudioKind {
    NanSamples,
    InfiniteValuedSamples,
    NegativeSamplingFrequency,
    MismatchedSamplingFrequency,
    MismatchedLength,
}

#[derive(Clone, Copy, Debug, PartialEq, Eq, Structural)]
pub struct InvalidAudio {
    kind: InvalidAudioKind,
}

impl InvalidAudio {
    pub fn new(kind: InvalidAudioKind) -> (r: InvalidAudio)
        ensures
            r.spec_kind() == kind,
    {
        InvalidAudio { kind }
    }

    pub fn kind(&self) -> (r: InvalidAudioKind)
        ensures
            r == self.spec_kind(),
    {
        self.kind
    }

    pub closed spec fn spec_kind(&self) -> InvalidAudioKind {
        self.kind
    }
}

/// `x` is a value that the sample type's `default` gives: silence.
pub open spec fn is_silence<S: Default>(x: S) -> bool {
    call_ensures(S::default, (), x)
}

/// `r` is a value that the sample type's `+` gives for `x` and `y`.
pub open spec fn is_sum<S: Add<Output = S>>(x: S, y: S, r: S) -> bool {
    call_ensures(S::add, (x, y), r)
}

/// The sampling frequency shared by two buffers: a frequency of zero is not
/// yet known and takes the other one; two known frequencies must agree.
pub open spec fn reconciled(a: u32, b: u32) -> Option<u32> {
    if a == 0 {
        Some(b)
    } else if b == 0 || a == b {
        Some(a)
    } else {
        None
    }
}

/// `r` holds the element-wise sums of `a` and `b` where both have a sample, and
/// the samples of the longer one past the end of the shorter.
pub open spec fn overlapped<S: Add<Output = S>>(a: Seq<S>, b: Seq<S>, r: Seq<S>) -> bool {
    &&& r.len() == if a.len() >= b.len() { a.len() } else { b.len() }
    &&& forall|i: int|
        0 <= i < r.len() ==> {
            if i < a.len() && i < b.len() {
                is_sum(a[i], b[i], #[trigger] r[i])
            } else if i < a.len() {
                r[i] == a[i]
            } else {
                r[i] == b[i]
            }
        }
}

/// `r` is `s` cut or extended with silence to `len` samples.
pub open spec fn resized<S: Default>(s: Seq<S>, len: int, r: Seq<S>) -> bool {
    &&& r.len() == len
    &&& forall|i: int|
        0 <= i < len ==> if i < s.len() {
            #[trigger] r[i] == s[i]
        } else {
            is_silence(r[i])
        }
}

/// The two parts of `s` cut before `index`; an index past the end leaves the
/// second part empty.
pub open spec fn split_parts<S>(s: Seq<S>, index: int) -> (Seq<S>, Seq<S>) {
    let cut = if index <= s.len() {
        index
    } else {
        s.len() as int
    };
    (s.subrange(0, cut), s.subrange(cut, s.len() as int))
}

/// `r` is `s` preceded by `n` samples of silence.
pub open spec fn left_padded<S: Default>(s: Seq<S>, n: int, r: Seq<S>) -> bool {
    &&& r.len() == s.len() + n
    &&& r.subrange(n, r.len() as int) == s
    &&& forall|i: int| 0 <= i < n ==> is_silence(#[trigger] r[i])
}

/// A builder for a buffer: samples and a sampling frequency, not yet checked.
#[derive(Clone, Debug, PartialEq)]
pub struct AudioBuilder<S> {
    samples: Vec<S>,
    sampling_frequency: i32,
}

/// A mono buffer of samples at a sampling frequency in Hz; a frequency of zero
/// means that it is not yet determined.
#[derive(Clone, Debug, PartialEq)]
pub struct Audio<S> {
    samples: Vec<S>,
    sampling_frequency: u32,
}

impl<S> AudioBuilder<S> {
    pub closed spec fn spec_samples(&self) -> Seq<S> {
        self.samples@
    }

    pub closed spec fn spec_sampling_frequency(&self) -> int {
        self.sampling_frequency as int
    }

    pub fn new(samples: Vec<S>, sampling_frequency: i32) -> (r: AudioBuilder<S>)
        ensures
            r.spec_samples() == samples@,
            r.spec_sampling_frequency() == sampling_frequency,
    {
        AudioBuilder { samples, sampling_frequency }
    }

    pub fn with_samples(self, samples: Vec<S>) -> (r: AudioBuilder<S>)
        ensures
            r.spec_samples() == samples@,
            r.spec_sampling_frequency() == self.spec_sampling_frequency(),
    {
        AudioBuilder { samples, sampling_frequency: self.sampling_frequency }
    }

    pub fn with_sampling_frequency(self, sampling_frequency: i32) -> (r: AudioBuilder<S>)
        ensures
            r.spec_samples() == self.spec_samples(),
            r.spec_sampling_frequency() == sampling_frequency,
    {
        AudioBuilder { samples: self.samples, sampling_frequency }
    }

    pub fn get_samples(&self) -> (r: &Vec<S>)
        ensures
            r@ == self.spec_samples(),
    {
        &self.samples
    }

    pub fn get_sampling_frequency(&self) -> (r: i32)
        ensures
            r == self.spec_sampling_frequency(),
    {
        self.sampling_frequency
    }

    /// The buffer, or `NegativeSamplingFrequency` when the frequency is below zero.
    pub fn finalize(self) -> (r: Result<Audio<S>, InvalidAudio>)
        ensures
            self.spec_sampling_frequency() < 0 <==> r is Err,
            r matches Err(e) ==> e.spec_kind() == InvalidAudioKind::NegativeSamplingFrequency,
            r matches Ok(a) ==> a.spec_samples() == self.spec_samples()
                && a.spec_sampling_frequency() as int == self.spec_sampling_frequency(),
    {
        if self.sampling_frequency < 0 {
            Err(InvalidAudio::new(InvalidAudioKind::NegativeSamplingFrequency))
        } else {
            Ok(Audio { samples: self.samples, sampling_frequency: self.sampling_frequency as u32 })
        }
    }
}

impl<S: Default> AudioBuilder<S> {
    /// Replaces the samples by `length` samples of silence.
    pub fn with_length(self, length: usize) -> (r: AudioBuilder<S>)
        ensures
            r.spec_samples().len() == length,
            forall|i: int| 0 <= i < length ==> is_silence(#[trigger] r.spec_samples()[i]),
            r.spec_sampling_frequency() == self.spec_sampling_frequency(),
    {
        let samples = silence(length);
        AudioBuilder { samples, sampling_frequency: self.sampling_frequency }
    }
}

impl<S> Default for AudioBuilder<S> {
    /// No samples, and a sampling frequency not yet known.
    fn default() -> (r: AudioBuilder<S>)
        ensures
            r.spec_samples().len() == 0,
            r.spec_sampling_frequency() == 0,
    {
        AudioBuilder { samples: Vec::new(), sampling_frequency: 0 }
    }
}

impl<S> Default for Audio<S> {
    /// No samples, and a sampling frequency not yet known.
    fn default() -> (r: Audio<S>)
        ensures
            r.spec_samples().len() == 0,
            r.spec_sampling_frequency() == 0,
    {
        Audio { samples: Vec::new(), sampling_frequency: 0 }
    }
}

/// `length` samples of silence.
pub fn silence<S: Default>(length: usize) -> (r: Vec<S>)
    ensures
        r@.len() == length,
        forall|i: int| 0 <= i < length ==> is_silence(#[trigger] r@[i]),
{
    let mut v: Vec<S> = Vec::new();
    let mut k: usize = 0;
    while k < length
        invariant
            k <= length,
            v@.len() == k,
            forall|i: int| 0 <= i < k ==> is_silence(#[trigger] v@[i]),
        decreases length - k,
    {
        v.push(S::default());
        k = k + 1;
    }
    v
}

impl<S> Audio<S> {
    pub closed spec fn spec_samples(&self) -> Seq<S> {
        self.samples@
    }

    pub closed spec fn spec_sampling_frequency(&self) -> u32 {
        self.sampling_frequency
    }

    /// A buffer of `samples` at `sampling_frequency` Hz.
    pub(crate) fn from_parts(samples: Vec<S>, sampling_frequency: u32) -> (r: Audio<S>)
        ensures
            r.spec_samples() == samples@,
            r.spec_sampling_frequency() == sampling_frequency,
    {
        Audio { samples, sampling_frequency }
    }

    pub fn get_samples(self) -> (r: Vec<S>)
        ensures
            r@ == self.spec_samples(),
    {
        self.samples
    }

    pub fn samples(&self) -> (r: &Vec<S>)
        ensures
            r@ == self.spec_samples(),
    {
        &self.samples
    }

    pub fn get_sampling_frequency(&self) -> (r: u32)
        ensures
            r == self.spec_sampling_frequency(),
    {
        self.sampling_frequency
    }

    pub fn sample_length(&self) -> (r: usize)
        ensures
            r == self.spec_samples().len(),
    {
        self.samples.len()
    }

    /// Sets the sampling frequency where it is not yet known; a known one can
    /// only be set to itself, else `MismatchedSamplingFrequency`, the buffer
    /// unchanged.
    pub fn set_sampling_frequency(&mut self, sampling_frequency: u32) -> (r: Result<(), InvalidAudio>)
        ensures
            final(self).spec_samples() == old(self).spec_samples(),
            reconciled(old(self).spec_sampling_frequency(), sampling_frequency) is None <==> r is Err,
            r matches Err(e) ==> e.spec_kind() == InvalidAudioKind::MismatchedSamplingFrequency
                && final(self).spec_sampling_frequency() == old(self).spec_sampling_frequency(),
            r is Ok ==> Some(final(self).spec_sampling_frequency()) == reconciled(
                old(self).spec_sampling_frequency(),
                sampling_frequency,
            ),
    {
        match reconcile(self.sampling_frequency, sampling_frequency) {
            Some(f) => {
                self.sampling_frequency = f;
                Ok(())
            },
            None => Err(InvalidAudio::new(InvalidAudioKind::MismatchedSamplingFrequency)),
        }
    }

    /// Length in whole milliseconds, rounded down; zero while the sampling
    /// frequency is not known.
    pub fn milliseconds_length(&self) -> (r: u128)
        ensures
            r as int == milliseconds_in(
                self.spec_sampling_frequency() as int,
                self.spec_samples().len() as int,
            ),
    {
        samples_to_milliseconds(self.sampling_frequency, self.samples.len())
    }

    /// The samples of `self` followed by those of `other`. Fails with
    /// `MismatchedSamplingFrequency` when both frequencies are known and differ.
    pub fn merge(self, other: Audio<S>) -> (r: Result<Audio<S>, InvalidAudio>)
        ensures
            reconciled(self.spec_sampling_frequency(), other.spec_sampling_frequency()) is None <==> r is Err,
            r matches Err(e) ==> e.spec_kind() == InvalidAudioKind::MismatchedSamplingFrequency,
            r matches Ok(m) ==> m.spec_samples() == self.spec_samples() + other.spec_samples()
                && Some(m.spec_sampling_frequency()) == reconciled(
                self.spec_sampling_frequency(),
                other.spec_sampling_frequency(),
            ),
    {
        let sampling_frequency = match reconcile(self.sampling_frequency, other.sampling_frequency) {
            Some(f) => f,
            None => return Err(InvalidAudio::new(InvalidAudioKind::MismatchedSamplingFrequency)),
        };
        let mut samples = self.samples;
        let mut tail = other.samples;
        samples.append(&mut tail);
        Ok(Audio { samples, sampling_frequency })
    }

    /// Reverses the order of the samples.
    pub fn reverse(&mut self)
        ensures
            final(self).spec_samples() == old(self).spec_samples().reverse(),
            final(self).spec_sampling_frequency() == old(self).spec_sampling_frequency(),
    {
        let n = self.samples.len();
        let mut out: Vec<S> = Vec::new();
        let ghost src = self.samples@;
        let mut taken = self.samples.split_off(0);
        while taken.len() > 0
            invariant
                taken@.len() + out@.len() == n,
                n == src.len(),
                taken@ == src.subrange(0, taken@.len() as int),
                forall|i: int| 0 <= i < out@.len() ==> #[trigger] out@[i] == src[n - 1 - i],
            decreases taken@.len(),
        {
            let x = taken.pop().unwrap();
            out.push(x);
            proof {
                assert(taken@ =~= src.subrange(0, taken@.len() as int));
            }
        }
        self.samples = out;
        proof {
            assert(self.samples@ =~= src.reverse());
        }
    }

    /// Splits the buffer before sample `sample_index`; where the index lies past
    /// the end, the first part holds every sample and the second none.
    pub fn split_at_sample_index(self, sample_index: usize) -> (r: (Audio<S>, Audio<S>))
        ensures
            r.0.spec_samples() == split_parts(self.spec_samples(), sample_index as int).0,
            r.1.spec_samples() == split_parts(self.spec_samples(), sample_index as int).1,
            r.0.spec_sampling_frequency() == self.spec_sampling_frequency(),
            r.1.spec_sampling_frequency() == self.spec_sampling_frequency(),
    {
        let mut earlier = self.samples;
        let later = if sample_index > earlier.len() {
            Vec::new()
        } else {
            earlier.split_off(sample_index)
        };
        proof {
            if sample_index > self.samples@.len() {
                assert(earlier@ =~= self.samples@.subrange(0, self.samples@.len() as int));
                assert(later@ =~= self.samples@.subrange(self.samples@.len() as int, self.samples@.len() as int));
            }
        }
        let f = self.sampling_frequency;
        (Audio { samples: earlier, sampling_frequency: f }, Audio { samples: later, sampling_frequency: f })
    }

    /// Splits the buffer at a time given in milliseconds.
    pub fn split_at_time_ms(self, time_ms: u64) -> (r: (Audio<S>, Audio<S>))
        requires
            samples_in(self.spec_sampling_frequency() as int, time_ms as int) <= usize::MAX,
        ensures
            ({
                let at = samples_in(self.spec_sampling_frequency() as int, time_ms as int);
                &&& r.0.spec_samples() == split_parts(self.spec_samples(), at).0
                &&& r.1.spec_samples() == split_parts(self.spec_samples(), at).1
            }),
            r.0.spec_sampling_frequency() == self.spec_sampling_frequency(),
            r.1.spec_sampling_frequency() == self.spec_sampling_frequency(),
    {
        let index = milliseconds_to_samples(self.sampling_frequency, time_ms);
        self.split_at_sample_index(index)
    }
}

/// The sampling frequency that two buffers share, if they can share one.
pub fn reconcile(a: u32, b: u32) -> (r: Option<u32>)
    ensures
        r == reconciled(a, b),
{
    if a == 0 {
        Some(b)
    } else if b == 0 || a == b {
        Some(a)
    } else {
        None
    }
}

impl<S: Default> Audio<S> {
    /// Appends `amount` samples of silence.
    pub fn sample_right_pad(&mut self, amount: usize)
        requires
            old(self).spec_samples().len() + amount <= usize::MAX,
        ensures
            final(self).spec_samples().len() == old(self).spec_samples().len() + amount,
            final(self).spec_samples().subrange(0, old(self).spec_samples().len() as int)
                == old(self).spec_samples(),
            forall|i: int|
                old(self).spec_samples().len() <= i < final(self).spec_samples().len()
                    ==> is_silence(#[trigger] final(self).spec_samples()[i]),
            final(self).spec_sampling_frequency() == old(self).spec_sampling_frequency(),
    {
        let ghost start = self.samples@;
        let mut k: usize = 0;
        while k < amount
            invariant
                k <= amount,
                start.len() + amount <= usize::MAX,
                self.samples@.len() == start.len() + k,
                self.samples@.subrange(0, start.len() as int) == start,
                forall|i: int|
                    start.len() <= i < self.samples@.len() ==> is_silence(#[trigger] self.samples@[i]),
                self.sampling_frequency == old(self).sampling_frequency,
            decreases amount - k,
        {
            self.samples.push(S::default());
            k = k + 1;
            proof {
                assert(self.samples@.subrange(0, start.len() as int) =~= start);
            }
        }
    }

    /// Puts `amount` samples of silence before the buffer.
    pub fn sample_left_pad(&mut self, amount: usize)
        requires
            old(self).spec_samples().len() + amount <= usize::MAX,
        ensures
            left_padded(old(self).spec_samples(), amount as int, final(self).spec_samples()),
            final(self).spec_sampling_frequency() == old(self).spec_sampling_frequency(),
    {
        let mut samples = silence(amount);
        let mut rest = self.samples.split_off(0);
        samples.append(&mut rest);
        self.samples = samples;
        proof {
            assert(self.samples@.subrange(amount as int, self.samples@.len() as int) =~= old(self).samples@);
        }
    }

    /// Appends silence lasting `time_interval` milliseconds.
    pub fn milliseconds_right_pad(&mut self, time_interval: u64)
        requires
            old(self).spec_samples().len() + samples_in(old(self).spec_sampling_frequency() as int, time_interval as int)
                <= usize::MAX,
        ensures
            final(self).spec_samples().len() == old(self).spec_samples().len() + samples_in(
                old(self).spec_sampling_frequency() as int,
                time_interval as int,
            ),
            final(self).spec_samples().subrange(0, old(self).spec_samples().len() as int)
                == old(self).spec_samples(),
            forall|i: int|
                old(self).spec_samples().len() <= i < final(self).spec_samples().len()
                    ==> is_silence(#[trigger] final(self).spec_samples()[i]),
            final(self).spec_sampling_frequency() == old(self).spec_sampling_frequency(),
    {
        let amount = milliseconds_to_samples(self.sampling_frequency, time_interval);
        self.sample_right_pad(amount);
    }

    /// Puts silence lasting `time_interval` milliseconds before the buffer.
    pub fn milliseconds_left_pad(&mut self, time_interval: u64)
        requires
            old(self).spec_samples().len() + samples_in(old(self).spec_sampling_frequency() as int, time_interval as int)
                <= usize::MAX,
        ensures
            left_padded(
                old(self).spec_samples(),
                samples_in(old(self).spec_sampling_frequency() as int, time_interval as int),
                final(self).spec_samples(),
            ),
            final(self).spec_sampling_frequency() == old(self).spec_sampling_frequency(),
    {
        let amount = milliseconds_to_samples(self.sampling_frequency, time_interval);
        self.sample_left_pad(amount);
    }

    /// Cuts the buffer, or extends it with silence, to `length` samples.
    pub fn set_sample_length(&mut self, length: usize)
        ensures
            resized(old(self).spec_samples(), length as int, final(self).spec_samples()),
            final(self).spec_sampling_frequency() == old(self).spec_sampling_frequency(),
    {
        if length <= self.samples.len() {
            self.samples.truncate(length);
        } else {
            let more = length - self.samples.len();
            self.sample_right_pad(more);
        }
    }

    /// Cuts the buffer, or extends it with silence, to last `duration_ms`
    /// milliseconds at its own sampling frequency.
    pub fn set_duration_ms(&mut self, duration_ms: u64)
        requires
            samples_in(old(self).spec_sampling_frequency() as int, duration_ms as int) <= usize::MAX,
        ensures
            resized(
                old(self).spec_samples(),
                samples_in(old(self).spec_sampling_frequency() as int, duration_ms as int),
                final(self).spec_samples(),
            ),
            final(self).spec_sampling_frequency() == old(self).spec_sampling_frequency(),
    {
        let length = milliseconds_to_samples(self.sampling_frequency, duration_ms);
        self.set_sample_length(length);
    }

    /// Fits the buffer into a slot of a timeline: cut or extended with silence
    /// to `length` samples, then preceded by `start` samples of silence.
    pub fn place(&mut self, start: usize, length: usize)
        requires
            start + length <= usize::MAX,
        ensures
            final(self).spec_samples().len() == start + length,
            resized(
                old(self).spec_samples(),
                length as int,
                final(self).spec_samples().subrange(start as int, start + length),
            ),
            forall|i: int| 0 <= i < start ==> is_silence(#[trigger] final(self).spec_samples()[i]),
            final(self).spec_sampling_frequency() == old(self).spec_sampling_frequency(),
    {
        self.set_sample_length(length);
        self.sample_left_pad(start);
    }
}

impl<S: Copy + Add<Output = S>> Audio<S> {
    /// Mixes two buffers: each sample is the sum of the samples at the same
    /// index, the shorter buffer being taken as silent past its end. Fails with
    /// `MismatchedSamplingFrequency` when both frequencies are known and differ.
    pub fn overlap(self, other: Audio<S>) -> (r: Result<Audio<S>, InvalidAudio>)
        requires
            forall|i: int|
                0 <= i < self.spec_samples().len() && 0 <= i < other.spec_samples().len()
                    ==> (#[trigger] self.spec_samples()[i]).add_req(other.spec_samples()[i]),
        ensures
            reconciled(self.spec_sampling_frequency(), other.spec_sampling_frequency()) is None <==> r is Err,
            r matches Err(e) ==> e.spec_kind() == InvalidAudioKind::MismatchedSamplingFrequency,
            r matches Ok(m) ==> overlapped(self.spec_samples(), other.spec_samples(), m.spec_samples())
                && Some(m.spec_sampling_frequency()) == reconciled(
                self.spec_sampling_frequency(),
                other.spec_sampling_frequency(),
            ),
    {
        let sampling_frequency = match reconcile(self.sampling_frequency, other.sampling_frequency) {
            Some(f) => f,
            None => return Err(InvalidAudio::new(InvalidAudioKind::MismatchedSamplingFrequency)),
        };
        let a = &self.samples;
        let b = &other.samples;
        let n = if a.len() >= b.len() { a.len() } else { b.len() };
        let mut out: Vec<S> = Vec::new();
        let mut i: usize = 0;
        proof {
            assert forall|j: int| 0 <= j < a@.len() && 0 <= j < b@.len() implies (
            #[trigger] a@[j]).add_req(b@[j]) by {
                assert(self.spec_samples()[j] == a@[j]);
            }
        }
        while i < n
            invariant
                i <= n,
                n == if a@.len() >= b@.len() { a@.len() } else { b@.len() },
                out@.len() == i,
                a@ == self.spec_samples(),
                b@ == other.spec_samples(),
                forall|j: int|
                    0 <= j < a@.len() && 0 <= j < b@.len() ==> (#[trigger] a@[j]).add_req(b@[j]),
                forall|j: int|
                    0 <= j < i ==> {
                        if j < a@.len() && j < b@.len() {
                            is_sum(a@[j], b@[j], #[trigger] out@[j])
                        } else if j < a@.len() {
                            out@[j] == a@[j]
                        } else {
                            out@[j] == b@[j]
                        }
                    },
            decreases n - i,
        {
            let x = if i < a.len() && i < b.len() {
                a[i] + b[i]
            } else if i < a.len() {
                a[i]
            } else {
                b[i]
            };
            out.push(x);
            i = i + 1;
        }
        Ok(Audio { samples: out, sampling_frequency })
    }
}

impl<S: Copy + Default + Add<Output = S>> Audio<S> {
    /// Mixes every buffer into one with `overlap`, in order; no buffers give an
    /// empty buffer whose sampling frequency is not yet known.
    pub fn mix_down(buffers: Vec<Audio<S>>) -> (r: Result<Audio<S>, InvalidAudio>)
        requires
            forall|x: S, y: S| #[trigger] x.add_req(y),
        ensures
            r matches Err(e) ==> e.spec_kind() == InvalidAudioKind::MismatchedSamplingFrequency,
            r is Err <==> mixed_frequency(buffers@) is None,
            r matches Ok(m) ==> Some(m.spec_sampling_frequency()) == mixed_frequency(buffers@)
                && m.spec_samples().len() == longest(buffers@) && is_mix_of(buffers@, m.spec_samples()),
    {
        let mut acc: Audio<S> = Audio::default();
        proof {
            assert(buffers@.subrange(0, 0).len() == 0);
        }
        let mut rest = buffers;
        let ghost all = rest@;
        let mut taken: usize = 0;
        let mut remaining: Vec<Audio<S>> = Vec::new();
        // Reversed once, so that popping hands the buffers out in their order.
        let n = rest.len();
        while rest.len() > 0
            invariant
                remaining@.len() + rest@.len() == n,
                n == all.len(),
                all == buffers@,
                rest@ == all.subrange(0, rest@.len() as int),
                forall|i: int| 0 <= i < remaining@.len() ==> #[trigger] remaining@[i] == all[n - 1 - i],
            decreases rest@.len(),
        {
            let b = rest.pop().unwrap();
            remaining.push(b);
            proof {
                assert(rest@ =~= all.subrange(0, rest@.len() as int));
            }
        }
        while taken < n
            invariant
                taken <= n,
                remaining@.len() == n - taken,
                n == all.len(),
                all == buffers@,
                forall|i: int| 0 <= i < remaining@.len() ==> #[trigger] remaining@[i] == all[n - 1 - i],
                forall|x: S, y: S| #[trigger] x.add_req(y),
                Some(acc.sampling_frequency) == mixed_frequency(all.subrange(0, taken as int)),
                acc.spec_samples().len() == longest(all.subrange(0, taken as int)),
                is_mix_of(all.subrange(0, taken as int), acc.spec_samples()),
            decreases n - taken,
        {
            let b = remaining.pop().unwrap();
            let ghost acc_frequency = acc.spec_sampling_frequency();
            let ghost b_frequency = b.spec_sampling_frequency();
            let ghost before = acc.spec_samples();
            proof {
                assert(b == all[taken as int]);
                assert(all.subrange(0, taken + 1).drop_last() =~= all.subrange(0, taken as int));
                assert(all.subrange(0, taken + 1).last() == b);
            }
            match acc.overlap(b) {
                Ok(m) => {
                    acc = m;
                    proof {
                        let prefix = all.subrange(0, taken + 1);
                        assert(is_mix_of(prefix.drop_last(), before));
                        assert(overlapped(before, prefix.last().spec_samples(), acc.spec_samples()));
                        lemma_mix_step(prefix, before, acc.spec_samples());
                    }
                },
                Err(e) => {
                    proof {
                        assert(reconciled(acc_frequency, b_frequency) is None);
                        assert(mixed_frequency(all.subrange(0, taken + 1)) is None);
                        lemma_mixed_frequency_stays_none(all, taken as int + 1);
                    }
                    return Err(e);
                },
            }
            taken = taken + 1;
        }
        proof {
            assert(all.subrange(0, n as int) =~= all);
        }
        Ok(acc)
    }
}

/// The sampling frequency that all of `buffers` share, taken in order.
pub open spec fn mixed_frequency<S>(buffers: Seq<Audio<S>>) -> Option<u32>
    decreases buffers.len(),
{
    if buffers.len() == 0 {
        Some(0)
    } else {
        match mixed_frequency(buffers.drop_last()) {
            None => None,
            Some(f) => reconciled(f, buffers.last().spec_sampling_frequency()),
        }
    }
}

/// `r` is what mixing `buffers` in order gives: each step overlaps the mix so
/// far with the next buffer, starting from no samples.
pub open spec fn is_mix_of<S: Add<Output = S>>(buffers: Seq<Audio<S>>, r: Seq<S>) -> bool
    decreases buffers.len(),
{
    if buffers.len() == 0 {
        r.len() == 0
    } else {
        exists|m: Seq<S>|
            is_mix_of(buffers.drop_last(), m) && #[trigger] overlapped(m, buffers.last().spec_samples(), r)
    }
}

proof fn lemma_mix_step<S: Add<Output = S>>(buffers: Seq<Audio<S>>, m: Seq<S>, r: Seq<S>)
    requires
        buffers.len() > 0,
        is_mix_of(buffers.drop_last(), m),
        overlapped(m, buffers.last().spec_samples(), r),
    ensures
        is_mix_of(buffers, r),
{
}

/// Length of the longest of `buffers`.
pub open spec fn longest<S>(buffers: Seq<Audio<S>>) -> int
    decreases buffers.len(),
{
    if buffers.len() == 0 {
        0
    } else {
        let l = longest(buffers.drop_last());
        let m = buffers.last().spec_samples().len() as int;
        if l >= m {
            l
        } else {
            m
        }
    }
}

proof fn lemma_mixed_frequency_stays_none<S>(all: Seq<Audio<S>>, k: int)
    requires
        0 <= k <= all.len(),
        mixed_frequency(all.subrange(0, k)) is None,
    ensures
        mixed_frequency(all) is None,
    decreases all.len() - k,
{
    if k < all.len() {
        assert(all.subrange(0, k + 1).drop_last() =~= all.subrange(0, k));
        lemma_mixed_frequency_stays_none(all, k + 1);
    } else {
        assert(all.subrange(0, k) =~= all);
    }
}

/// The frequency that a chain of buffers shares, where an earlier step
/// already failed or not.
pub open spec fn reconciled_after(a: Option<u32>, b: u32) -> Option<u32> {
    match a {
        None => None,
        Some(f) => reconciled(f, b),
    }
}

/// Merging is associative: merging `a` with `b` and then with `c` gives the
/// samples and the frequency that merging `a` with the merge of `b` and `c`
/// gives, and its length is the sum of the three lengths.
pub proof fn merge_is_associative<S>(a: Audio<S>, b: Audio<S>, c: Audio<S>)
    ensures
        (a.spec_samples() + b.spec_samples()) + c.spec_samples() == a.spec_samples() + (
        b.spec_samples() + c.spec_samples()),
        ((a.spec_samples() + b.spec_samples()) + c.spec_samples()).len() == a.spec_samples().len()
            + b.spec_samples().len() + c.spec_samples().len(),
        reconciled_after(
            reconciled(a.spec_sampling_frequency(), b.spec_sampling_frequency()),
            c.spec_sampling_frequency(),
        ) == match reconciled(b.spec_sampling_frequency(), c.spec_sampling_frequency()) {
            None => None,
            Some(g) => reconciled(a.spec_sampling_frequency(), g),
        },
{
    assert((a.spec_samples() + b.spec_samples()) + c.spec_samples() =~= a.spec_samples() + (
    b.spec_samples() + c.spec_samples()));
}

/// Mixing is commutative for a sample type whose `+` is commutative: the
/// mix of `a` and `b` equals the mix of `b` and `a`, at the same frequency.
pub proof fn overlap_is_commutative<S: Add<Output = S>>(
    a: Seq<S>,
    b: Seq<S>,
    ab: Seq<S>,
    ba: Seq<S>,
    fa: u32,
    fb: u32,
)
    requires
        forall|x: S, y: S, s: S, t: S| is_sum(x, y, s) && is_sum(y, x, t) ==> s == t,
        overlapped(a, b, ab),
        overlapped(b, a, ba),
    ensures
        ab == ba,
        reconciled(fa, fb) == reconciled(fb, fa),
{
    assert forall|i: int| 0 <= i < ab.len() implies ab[i] == ba[i] by {
        if i < a.len() && i < b.len() {
            assert(is_sum(a[i], b[i], ab[i]));
            assert(is_sum(b[i], a[i], ba[i]));
        }
    }
    assert(ab =~= ba);
}

/// Padding a buffer on the left with `n` samples of silence and then
/// splitting it before sample `n` gives back the samples it started with, and the
/// part cut off is the silence alone.
pub proof fn left_pad_then_split_restores<S: Default>(samples: Seq<S>, n: int, padded: Seq<S>)
    requires
        0 <= n,
        left_padded(samples, n, padded),
    ensures
        split_parts(padded, n).1 == samples,
        split_parts(padded, n).0.len() == n,
        forall|i: int| 0 <= i < n ==> is_silence(#[trigger] split_parts(padded, n).0[i]),
{
    assert forall|i: int| 0 <= i < n implies is_silence(#[trigger] split_parts(padded, n).0[i]) by {
        assert(split_parts(padded, n).0[i] == padded[i]);
    }
}

} // verus!

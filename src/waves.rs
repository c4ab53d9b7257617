use vstd::prelude::*;
use rand::rngs::SmallRng;
use rand::{RngCore, SeedableRng};

use crate::time::{milliseconds_to_samples, samples_in};

verus! {

#[derive(Clone, Copy, Debug, PartialEq, Eq, Structural)]
pub enum InvalidWaveFormKind {
    NegativeDuration,
    NegativeDutyCycle,
    DutyCycleBiggerThanOne,
}

#[derive(Clone, Copy, Debug, PartialEq, Eq, Structural)]
pub struct InvalidWaveForm {
    kind: InvalidWaveFormKind,
}

impl InvalidWaveForm {
    pub fn new(kind: InvalidWaveFormKind) -> (r: InvalidWaveForm)
        ensures
            r.spec_kind() == kind,
    {
        InvalidWaveForm { kind }
    }

    pub fn kind(&self) -> (r: InvalidWaveFormKind)
        ensures
            r == self.spec_kind(),
    {
        self.kind
    }

    pub closed spec fn spec_kind(&self) -> InvalidWaveFormKind {
        self.kind
    }
}

/// The colour of a noise: how its power is spread over frequencies.
#[derive(Clone, Copy, Debug, PartialEq, Eq, Structural)]
pub enum NoiseVariant {
    Violet,
    Blue,
    White,
    Pink,
    Brown,
}

impl Default for NoiseVariant {
    /// White, unless told otherwise.
    fn default() -> (r: NoiseVariant)
        ensures
            r == NoiseVariant::White,
    {
        NoiseVariant::White
    }
}

impl NoiseVariant {
    /// Whether the spectral density of this colour is forced to zero at 0 Hz,
    /// where its shaping curve has no finite value.
    pub fn silences_dc(&self) -> (r: bool)
        ensures
            r == (*self == NoiseVariant::Pink || *self == NoiseVariant::Brown),
    {
        match self {
            NoiseVariant::Pink | NoiseVariant::Brown => true,
            _ => false,
        }
    }
}

/// The position of a generator in its run of samples: the index of the next
/// sample, and how many samples it produces in all.
#[derive(Clone, Copy, Debug, PartialEq, Eq)]
pub struct SampleClock {
    index: usize,
    total: usize,
}

impl SampleClock {
    pub closed spec fn spec_index(&self) -> int {
        self.index as int
    }

    pub closed spec fn spec_total(&self) -> int {
        self.total as int
    }

    pub open spec fn wf(&self) -> bool {
        0 <= self.spec_index() <= self.spec_total()
    }

    /// What the next step gives: the index of the sample to produce, or
    /// `None` once every sample has been produced.
    pub open spec fn next_result(&self) -> Option<int> {
        if self.spec_index() < self.spec_total() {
            Some(self.spec_index())
        } else {
            None
        }
    }

    /// A clock for a generator lasting `duration_ms` milliseconds at
    /// `sampling_frequency` Hz, or `NegativeDuration`.
    pub fn new(duration_ms: i64, sampling_frequency: u32) -> (r: Result<SampleClock, InvalidWaveForm>)
        requires
            duration_ms >= 0 ==> samples_in(sampling_frequency as int, duration_ms as int) <= usize::MAX,
        ensures
            duration_ms < 0 <==> r is Err,
            r matches Err(e) ==> e.spec_kind() == InvalidWaveFormKind::NegativeDuration,
            r matches Ok(c) ==> c.wf() && c.spec_index() == 0 && c.spec_total() == samples_in(
                sampling_frequency as int,
                duration_ms as int,
            ),
    {
        if duration_ms < 0 {
            return Err(InvalidWaveForm::new(InvalidWaveFormKind::NegativeDuration));
        }
        let total = milliseconds_to_samples(sampling_frequency, duration_ms as u64);
        Ok(SampleClock { index: 0, total })
    }

    pub fn index(&self) -> (r: usize)
        ensures
            r == self.spec_index(),
    {
        self.index
    }

    pub fn total(&self) -> (r: usize)
        ensures
            r == self.spec_total(),
    {
        self.total
    }

    /// Samples still to be produced.
    pub fn remaining(&self) -> (r: usize)
        requires
            self.wf(),
        ensures
            r == self.spec_total() - self.spec_index(),
    {
        self.total - self.index
    }

    /// Moves on by one sample: gives the index of the sample to produce now,
    /// or `None`, with the clock unchanged, once the run is over.
    pub fn tick(&mut self) -> (r: Option<usize>)
        requires
            old(self).wf(),
        ensures
            final(self).wf(),
            r matches Some(i) ==> old(self).next_result() == Some(i as int),
            r is None ==> old(self).next_result() is None,
            *final(self) == old(self).after_tick(),
    {
        if self.index < self.total {
            let i = self.index;
            self.index = self.index + 1;
            Some(i)
        } else {
            None
        }
    }

    /// The clock after one step.
    pub closed spec fn after_tick(&self) -> SampleClock {
        if self.index < self.total {
            SampleClock { index: (self.index + 1) as usize, total: self.total }
        } else {
            *self
        }
    }

    /// What `k` steps in a row give.
    pub open spec fn run(&self, k: nat) -> Seq<Option<int>>
        decreases k,
    {
        if k == 0 {
            Seq::empty()
        } else {
            seq![self.next_result()] + self.after_tick().run((k - 1) as nat)
        }
    }
}

proof fn lemma_after_tick(c: SampleClock)
    requires
        c.wf(),
    ensures
        c.after_tick().wf(),
        c.after_tick().spec_total() == c.spec_total(),
        c.spec_index() < c.spec_total() ==> c.after_tick().spec_index() == c.spec_index() + 1,
        c.spec_index() >= c.spec_total() ==> c.after_tick() == c,
{
}

proof fn lemma_run_from(c: SampleClock, extra: nat)
    requires
        c.wf(),
    ensures
        ({
            let n = (c.spec_total() - c.spec_index()) as nat;
            let r = c.run(n + extra);
            &&& r.len() == n + extra
            &&& forall|i: int| 0 <= i < n ==> #[trigger] r[i] == Some(c.spec_index() + i)
            &&& forall|i: int| n <= i < n + extra ==> #[trigger] r[i] is None
        }),
    decreases c.spec_total() - c.spec_index() + extra,
{
    let n = (c.spec_total() - c.spec_index()) as nat;
    lemma_after_tick(c);
    if n + extra == 0 {
    } else if n > 0 {
        lemma_run_from(c.after_tick(), extra);
        let r = c.run(n + extra);
        let rest = c.after_tick().run((n + extra - 1) as nat);
        assert(r == seq![c.next_result()] + rest);
        assert forall|i: int| 0 <= i < n implies #[trigger] r[i] == Some(c.spec_index() + i) by {
            if i > 0 {
                assert(r[i] == rest[i - 1]);
            }
        }
        assert forall|i: int| n <= i < n + extra implies #[trigger] r[i] is None by {
            assert(r[i] == rest[i - 1]);
        }
    } else {
        lemma_run_from(c, (extra - 1) as nat);
        let r = c.run(extra);
        let rest = c.run((extra - 1) as nat);
        assert(r == seq![c.next_result()] + rest);
        assert forall|i: int| 0 <= i < extra implies #[trigger] r[i] is None by {
            if i > 0 {
                assert(r[i] == rest[i - 1]);
            }
        }
    }
}

/// A fresh generator yields exactly its sample count, indices `0` to
/// `total - 1` in order, and nothing after that however often it is asked.
pub proof fn fresh_clock_yields_its_count(c: SampleClock, extra: nat)
    requires
        c.wf(),
        c.spec_index() == 0,
    ensures
        c.run(c.spec_total() as nat + extra).len() == c.spec_total() + extra,
        forall|i: int| 0 <= i < c.spec_total() ==> #[trigger] c.run(c.spec_total() as nat + extra)[i] == Some(i),
        forall|i: int|
            c.spec_total() <= i < c.spec_total() + extra ==> #[trigger] c.run(
                c.spec_total() as nat + extra,
            )[i] is None,
{
    lemma_run_from(c, extra);
}

/// Where `duration_ms × sampling_frequency / 1000` has a fractional part
/// below one half, the sample count of a generator is that product rounded
/// to the nearest integer.
pub proof fn sample_count_is_rounded_product(duration_ms: nat, sampling_frequency: nat)
    requires
        (duration_ms * sampling_frequency) % 1000 < 500,
    ensures
        samples_in(sampling_frequency as int, duration_ms as int) == (2 * duration_ms
            * sampling_frequency + 1000) / 2000,
{
    let p = duration_ms * sampling_frequency;
    let q = p / 1000;
    let r = p % 1000;
    assert(p == 1000 * q + r) by (nonlinear_arith)
        requires q == p / 1000, r == p % 1000;
    assert(2 * p + 1000 == 2000 * q + (2 * r + 1000)) by (nonlinear_arith)
        requires p == 1000 * q + r;
    assert((2000 * q + (2 * r + 1000)) / 2000 == q) by (nonlinear_arith)
        requires 0 <= r < 500, q >= 0;
    assert(2 * duration_ms * sampling_frequency == 2 * p) by (nonlinear_arith)
        requires p == duration_ms * sampling_frequency;
}

#[verifier::external_type_specification]
#[verifier::external_body]
pub struct ExSmallRng(SmallRng);

/// Relies on rand's `SeedableRng::seed_from_u64` for `SmallRng`: a small,
/// fast generator started from a 64-bit seed.
#[verifier::external_body]
fn seeded_rng(seed: u64) -> (r: SmallRng) {
    SmallRng::seed_from_u64(seed)
}

/// Relies on rand's `RngCore::next_u32` for `SmallRng`: the next 32 bits the
/// generator gives, any value of a `u32`.
#[verifier::external_body]
fn draw_u32(rng: &mut SmallRng) -> (r: u32) {
    rng.next_u32()
}

/// The random source of a noise generator: a seeded generator that gives two
/// uniform 32-bit draws for each sample of the run that its clock counts.
#[derive(Debug)]
pub struct NoiseSource {
    variant: NoiseVariant,
    seed: u64,
    clock: SampleClock,
    rng: SmallRng,
}

impl NoiseSource {
    pub closed spec fn spec_clock(&self) -> SampleClock {
        self.clock
    }

    pub closed spec fn spec_variant(&self) -> NoiseVariant {
        self.variant
    }

    pub closed spec fn spec_seed(&self) -> u64 {
        self.seed
    }

    /// A source seeded with `seed`, for a noise of colour `variant` whose run
    /// `clock` counts.
    pub fn new(seed: u64, variant: NoiseVariant, clock: SampleClock) -> (r: NoiseSource)
        ensures
            r.spec_clock() == clock,
            r.spec_variant() == variant,
            r.spec_seed() == seed,
    {
        NoiseSource { variant, seed, clock, rng: seeded_rng(seed) }
    }

    pub fn variant(&self) -> (r: NoiseVariant)
        ensures
            r == self.spec_variant(),
    {
        self.variant
    }

    pub fn seed(&self) -> (r: u64)
        ensures
            r == self.spec_seed(),
    {
        self.seed
    }

    pub fn clock(&self) -> (r: SampleClock)
        ensures
            r == self.spec_clock(),
    {
        self.clock
    }

    /// The two uniform draws for the next sample, or `None` once the run is
    /// over; the clock moves on as `tick` does.
    pub fn next_draws(&mut self) -> (r: Option<(u32, u32)>)
        requires
            old(self).spec_clock().wf(),
        ensures
            final(self).spec_clock() == old(self).spec_clock().after_tick(),
            final(self).spec_clock().wf(),
            final(self).spec_variant() == old(self).spec_variant(),
            final(self).spec_seed() == old(self).spec_seed(),
            r is None <==> old(self).spec_clock().next_result() is None,
    {
        match self.clock.tick() {
            None => None,
            Some(_) => {
                let first = draw_u32(&mut self.rng);
                let second = draw_u32(&mut self.rng);
                Some((first, second))
            },
        }
    }
}

} // verus!

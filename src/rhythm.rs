use vstd::prelude::*;
use std::collections::VecDeque;

use crate::note_name::{parse_tone_change, tone_change_of, ToneChange};

verus! {

/// Relative durations are counted in ticks: this many to a quarter note, so
/// that halves, quarters, eighths, triplets and their dotted forms are all whole.
pub const TICKS_PER_QUARTER: u64 = 960;

/// The note value that one beat of the tempo stands for.
#[derive(Clone, Copy, Debug, PartialEq, Eq, Structural)]
pub enum Beat {
    WholeNote,
    HalfNote,
    QuarterNote,
    EightNoteTriplet,
    EigthNote,
    SixteenthNote,
    ThirtySecondNote,
    /// A beat of `.0 / .1` quarter notes.
    Custom(u16, u16),
}

/// Length of one beat in quarter notes, as a numerator and a denominator.
pub open spec fn beat_factor(b: Beat) -> (int, int) {
    match b {
        Beat::WholeNote => (4, 1),
        Beat::HalfNote => (2, 1),
        Beat::QuarterNote => (1, 1),
        Beat::EightNoteTriplet => (1, 3),
        Beat::EigthNote => (1, 2),
        Beat::SixteenthNote => (1, 4),
        Beat::ThirtySecondNote => (1, 8),
        Beat::Custom(n, d) => (n as int, d as int),
    }
}

pub open spec fn beat_is_valid(b: Beat) -> bool {
    beat_factor(b).0 > 0 && beat_factor(b).1 > 0
}

impl Default for Beat {
    fn default() -> (r: Beat)
        ensures
            r == Beat::QuarterNote,
    {
        Beat::QuarterNote
    }
}

impl Beat {
    /// Length of one beat in quarter notes, as a numerator and a denominator.
    pub fn duration_factor(&self) -> (r: (u16, u16))
        ensures
            r.0 as int == beat_factor(*self).0,
            r.1 as int == beat_factor(*self).1,
    {
        match self {
            Beat::WholeNote => (4, 1),
            Beat::HalfNote => (2, 1),
            Beat::QuarterNote => (1, 1),
            Beat::EightNoteTriplet => (1, 3),
            Beat::EigthNote => (1, 2),
            Beat::SixteenthNote => (1, 4),
            Beat::ThirtySecondNote => (1, 8),
            Beat::Custom(n, d) => (*n, *d),
        }
    }
}

/// A decay applied to each rendered hit: its amplitude halves every `.0`
/// milliseconds.
#[derive(Clone, Copy, Debug, PartialEq, Eq, Structural)]
pub struct Decay(pub u32);

/// A silence of a relative duration, in ticks.
#[derive(Clone, Copy, Debug, PartialEq, Eq, Structural)]
pub struct Rest {
    pub relative_duration: u64,
}

/// A sound of a relative duration, in ticks.
#[derive(Debug)]
pub struct Hit<T> {
    pub relative_duration: u64,
    pub wave: T,
}

#[derive(Debug)]
pub enum RythmElement<T> {
    Rest(Rest),
    Hit(Hit<T>),
}

pub open spec fn duration_of<T>(e: RythmElement<T>) -> int {
    match e {
        RythmElement::Rest(r) => r.relative_duration as int,
        RythmElement::Hit(h) => h.relative_duration as int,
    }
}

/// Sum of the relative durations of `q`.
pub open spec fn total_ticks<T>(q: Seq<RythmElement<T>>) -> int
    decreases q.len(),
{
    if q.len() == 0 {
        0
    } else {
        total_ticks(q.drop_last()) + duration_of(q.last())
    }
}

/// `e` is a copy of `f`: the same kind and duration, and for a hit a clone of
/// its sound.
pub open spec fn is_copy_of<T: Clone>(e: RythmElement<T>, f: RythmElement<T>) -> bool {
    match (e, f) {
        (RythmElement::Rest(a), RythmElement::Rest(b)) => a == b,
        (RythmElement::Hit(a), RythmElement::Hit(b)) => a.relative_duration == b.relative_duration
            && cloned(b.wave, a.wave),
        _ => false,
    }
}

/// The element that scheduling `duration` ticks of `sound` adds: a hit for a
/// positive duration, a rest of the magnitude for a negative one, none for zero.
pub open spec fn element_for<T>(duration: i64, sound: T) -> Option<RythmElement<T>> {
    if duration > 0 {
        Some(RythmElement::Hit(Hit { relative_duration: duration as u64, wave: sound }))
    } else if duration < 0 {
        Some(RythmElement::Rest(Rest { relative_duration: (-(duration as int)) as u64 }))
    } else {
        None
    }
}

/// Kind and duration of an element: whether it is a hit, and its ticks.
pub open spec fn shape_of<T>(e: RythmElement<T>) -> (bool, int) {
    match e {
        RythmElement::Rest(r) => (false, r.relative_duration as int),
        RythmElement::Hit(h) => (true, h.relative_duration as int),
    }
}

/// Kind and duration of what scheduling `duration` ticks adds where a sound
/// can be made (`sounding`), or else a rest of the same magnitude; nothing for zero.
pub open spec fn shape_for(duration: i64, sounding: bool) -> Option<(bool, int)> {
    if duration == 0 {
        None
    } else if duration > 0 && sounding {
        Some((true, duration as int))
    } else {
        Some((false, magnitude(duration)))
    }
}

/// Kinds and durations of what scheduling each of `notes` in order adds: a
/// hit where its text names a change of tone, else a rest.
pub open spec fn note_shapes(notes: Seq<(i64, &str)>) -> Seq<(bool, int)>
    decreases notes.len(),
{
    if notes.len() == 0 {
        Seq::empty()
    } else {
        let rest = note_shapes(notes.drop_last());
        match shape_for(notes.last().0, tone_change_of(notes.last().1@) is Some) {
            Some(x) => rest.push(x),
            None => rest,
        }
    }
}

/// Kinds and durations of what scheduling each of `durations` in order adds.
pub open spec fn duration_shapes(durations: Seq<i64>) -> Seq<(bool, int)>
    decreases durations.len(),
{
    if durations.len() == 0 {
        Seq::empty()
    } else {
        let rest = duration_shapes(durations.drop_last());
        match shape_for(durations.last(), true) {
            Some(x) => rest.push(x),
            None => rest,
        }
    }
}

/// The elements of `q` from `from` on have the kinds and durations `shapes`.
pub open spec fn shaped_from<T>(q: Seq<RythmElement<T>>, from: int, shapes: Seq<(bool, int)>) -> bool {
    &&& q.len() == from + shapes.len()
    &&& forall|i: int| 0 <= i < shapes.len() ==> shape_of(#[trigger] q[from + i]) == shapes[i]
}

pub open spec fn magnitude(d: i64) -> int {
    if d < 0 {
        -(d as int)
    } else {
        d as int
    }
}

/// Sum of the magnitudes of the durations of `hits`.
pub open spec fn total_magnitude<X>(hits: Seq<(i64, X)>) -> int
    decreases hits.len(),
{
    if hits.len() == 0 {
        0
    } else {
        total_magnitude(hits.drop_last()) + magnitude(hits.last().0)
    }
}

/// Index of the first hit of `q`, or `q.len()` where it holds none.
pub open spec fn first_hit<T>(q: Seq<RythmElement<T>>) -> int
    decreases q.len(),
{
    if q.len() == 0 {
        0
    } else if q[0] is Hit {
        0
    } else {
        1 + first_hit(q.drop_first())
    }
}

/// Exact length in milliseconds of `ticks` at `tempo_bpm` beats of `beat` a
/// minute, as a numerator and a denominator.
pub open spec fn ticks_to_ms(ticks: int, tempo_bpm: int, beat: Beat) -> (int, int) {
    (60000 * ticks * beat_factor(beat).1, TICKS_PER_QUARTER * tempo_bpm * beat_factor(beat).0)
}

/// Number of whole samples, rounded down, that `ticks` last at
/// `sampling_frequency` Hz: the exact milliseconds times the frequency over 1000.
pub open spec fn ticks_to_samples(ticks: int, tempo_bpm: int, beat: Beat, sampling_frequency: int) -> int {
    (60 * ticks * beat_factor(beat).1 * sampling_frequency) / (TICKS_PER_QUARTER * tempo_bpm
        * beat_factor(beat).0)
}

proof fn lemma_total_push<T>(q: Seq<RythmElement<T>>, e: RythmElement<T>)
    ensures
        total_ticks(q.push(e)) == total_ticks(q) + duration_of(e),
{
    assert(q.push(e).drop_last() =~= q);
}

proof fn lemma_total_nonneg<T>(q: Seq<RythmElement<T>>)
    ensures
        total_ticks(q) >= 0,
    decreases q.len(),
{
    if q.len() > 0 {
        lemma_total_nonneg(q.drop_last());
    }
}

proof fn lemma_total_concat<T>(a: Seq<RythmElement<T>>, b: Seq<RythmElement<T>>)
    ensures
        total_ticks(a + b) == total_ticks(a) + total_ticks(b),
    decreases b.len(),
{
    if b.len() == 0 {
        assert(a + b =~= a);
    } else {
        lemma_total_concat(a, b.drop_last());
        assert((a + b).drop_last() =~= a + b.drop_last());
    }
}

/// A sound whose tone can be changed as a note name or a relative note asks.
pub trait HasTone {
    fn apply_tone_change(&mut self, change: ToneChange);
}

/// A sound whose own length can be set, in milliseconds.
pub trait HasDuration {
    fn set_duration_ms(&mut self, duration_ms: i64);
}

/// The settings of a rhythm, checked by `finalize`.
#[derive(Clone, Copy, Debug, PartialEq, Eq, Structural)]
pub struct RythmBuilder {
    tempo_bpm: u32,
    beat_type: Beat,
    clamp: bool,
    decay: Option<Decay>,
}

impl Default for RythmBuilder {
    fn default() -> (r: RythmBuilder)
        ensures
            r.spec_tempo_bpm() == 60,
            r.spec_beat_type() == Beat::QuarterNote,
            !r.spec_clamp(),
            r.spec_decay() is None,
    {
        RythmBuilder { tempo_bpm: 60, beat_type: Beat::QuarterNote, clamp: false, decay: None }
    }
}

impl RythmBuilder {
    pub closed spec fn spec_tempo_bpm(&self) -> u32 {
        self.tempo_bpm
    }

    pub closed spec fn spec_beat_type(&self) -> Beat {
        self.beat_type
    }

    pub closed spec fn spec_clamp(&self) -> bool {
        self.clamp
    }

    pub closed spec fn spec_decay(&self) -> Option<Decay> {
        self.decay
    }

    pub fn get_tempo_bpm(&self) -> (r: u32)
        ensures
            r == self.spec_tempo_bpm(),
    {
        self.tempo_bpm
    }

    pub fn with_tempo_bpm(self, tempo_bpm: u32) -> (r: RythmBuilder)
        ensures
            r.spec_tempo_bpm() == tempo_bpm,
            r.spec_beat_type() == self.spec_beat_type(),
            r.spec_clamp() == self.spec_clamp(),
            r.spec_decay() == self.spec_decay(),
    {
        RythmBuilder { tempo_bpm, ..self }
    }

    pub fn get_beat_type(&self) -> (r: Beat)
        ensures
            r == self.spec_beat_type(),
    {
        self.beat_type
    }

    pub fn with_beat_type(self, beat_type: Beat) -> (r: RythmBuilder)
        ensures
            r.spec_tempo_bpm() == self.spec_tempo_bpm(),
            r.spec_beat_type() == beat_type,
            r.spec_clamp() == self.spec_clamp(),
            r.spec_decay() == self.spec_decay(),
    {
        RythmBuilder { beat_type, ..self }
    }

    pub fn get_clamp(&self) -> (r: bool)
        ensures
            r == self.spec_clamp(),
    {
        self.clamp
    }

    pub fn with_clamp(self, clamp: bool) -> (r: RythmBuilder)
        ensures
            r.spec_tempo_bpm() == self.spec_tempo_bpm(),
            r.spec_beat_type() == self.spec_beat_type(),
            r.spec_clamp() == clamp,
            r.spec_decay() == self.spec_decay(),
    {
        RythmBuilder { clamp, ..self }
    }

    pub fn with_decay(self, decay: Decay) -> (r: RythmBuilder)
        ensures
            r.spec_tempo_bpm() == self.spec_tempo_bpm(),
            r.spec_beat_type() == self.spec_beat_type(),
            r.spec_clamp() == self.spec_clamp(),
            r.spec_decay() == Some(decay),
    {
        RythmBuilder { decay: Some(decay), ..self }
    }

    /// An empty rhythm with these settings; fails where the tempo is zero or
    /// a custom beat has a zero part.
    pub fn finalize<T>(self) -> (r: Result<Rythm<T>, ()>)
        ensures
            (self.spec_tempo_bpm() > 0 && beat_is_valid(self.spec_beat_type())) <==> r is Ok,
            r matches Ok(y) ==> {
                &&& y.wf()
                &&& y.spec_rythm().len() == 0
                &&& y.spec_start() == 0
                &&& y.spec_tempo_bpm() == self.spec_tempo_bpm()
                &&& y.spec_beat_type() == self.spec_beat_type()
                &&& y.spec_clamp() == self.spec_clamp()
                &&& y.spec_decay() == self.spec_decay()
            },
    {
        let (n, d) = self.beat_type.duration_factor();
        if self.tempo_bpm == 0 || n == 0 || d == 0 {
            return Err(());
        }
        Ok(
            Rythm {
                tempo_bpm: self.tempo_bpm,
                beat_type: self.beat_type,
                hit_start_time: 0,
                rythm: VecDeque::new(),
                clamp: self.clamp,
                decay: self.decay,
            },
        )
    }
}

/// A hit taken from a rhythm, placed in time: its sound, where it starts and
/// how long it lasts, in ticks.
#[derive(Debug)]
pub struct ScheduledHit<T> {
    pub wave: T,
    pub start: u64,
    pub duration: u64,
}

/// A queue of hits and rests at a tempo; taking hits from its front places
/// each one after all that came before it.
#[derive(Debug)]
pub struct Rythm<T> {
    tempo_bpm: u32,
    beat_type: Beat,
    hit_start_time: u64,
    rythm: VecDeque<RythmElement<T>>,
    clamp: bool,
    decay: Option<Decay>,
}

impl<T> Rythm<T> {
    pub closed spec fn spec_tempo_bpm(&self) -> u32 {
        self.tempo_bpm
    }

    pub closed spec fn spec_beat_type(&self) -> Beat {
        self.beat_type
    }

    pub closed spec fn spec_clamp(&self) -> bool {
        self.clamp
    }

    pub closed spec fn spec_decay(&self) -> Option<Decay> {
        self.decay
    }

    /// Start, in ticks, of whatever comes next.
    pub closed spec fn spec_start(&self) -> int {
        self.hit_start_time as int
    }

    /// The elements still queued.
    pub closed spec fn spec_rythm(&self) -> Seq<RythmElement<T>> {
        self.rythm@
    }

    pub open spec fn wf(&self) -> bool {
        &&& self.spec_tempo_bpm() > 0
        &&& beat_is_valid(self.spec_beat_type())
        &&& self.spec_start() + total_ticks(self.spec_rythm()) <= u64::MAX
    }

    /// Room left, in ticks, for more elements.
    pub open spec fn room(&self) -> int {
        u64::MAX - self.spec_start() - total_ticks(self.spec_rythm())
    }

    pub fn get_tempo_bpm(&self) -> (r: u32)
        ensures
            r == self.spec_tempo_bpm(),
    {
        self.tempo_bpm
    }

    pub fn get_beat_type(&self) -> (r: Beat)
        ensures
            r == self.spec_beat_type(),
    {
        self.beat_type
    }

    pub fn get_clamp(&self) -> (r: bool)
        ensures
            r == self.spec_clamp(),
    {
        self.clamp
    }

    pub fn get_decay(&self) -> (r: Option<Decay>)
        ensures
            r == self.spec_decay(),
    {
        self.decay
    }

    /// Start, in ticks, of whatever comes next.
    pub fn start(&self) -> (r: u64)
        ensures
            r == self.spec_start(),
    {
        self.hit_start_time
    }

    /// Number of queued elements.
    pub fn element_count(&self) -> (r: usize)
        ensures
            r == self.spec_rythm().len(),
    {
        self.rythm.len()
    }

    /// Schedules `sound` for `duration` ticks; a negative duration schedules
    /// a rest of its magnitude instead, and zero schedules nothing.
    pub fn hit(&mut self, duration: i64, sound: T)
        requires
            old(self).wf(),
            magnitude(duration) <= old(self).room(),
        ensures
            final(self).wf(),
            final(self).spec_rythm() == match element_for(duration, sound) {
                Some(e) => old(self).spec_rythm().push(e),
                None => old(self).spec_rythm(),
            },
            final(self).room() == old(self).room() - magnitude(duration),
            final(self).same_settings(*old(self)),
    {
        let ghost q = self.rythm@;
        if duration < 0 {
            let e = RythmElement::Rest(Rest { relative_duration: (0 - (duration as i128)) as u64 });
            self.rythm.push_back(e);
            proof {
                lemma_total_push(q, e);
            }
        } else if duration > 0 {
            let e = RythmElement::Hit(Hit { relative_duration: duration as u64, wave: sound });
            proof {
                lemma_total_push(q, e);
            }
            self.rythm.push_back(e);
        }
    }

    /// The settings and start of `self` are those of `other`.
    pub open spec fn same_settings(&self, other: Rythm<T>) -> bool {
        &&& self.spec_tempo_bpm() == other.spec_tempo_bpm()
        &&& self.spec_beat_type() == other.spec_beat_type()
        &&& self.spec_clamp() == other.spec_clamp()
        &&& self.spec_decay() == other.spec_decay()
        &&& self.spec_start() == other.spec_start()
    }

    /// Schedules a rest of the magnitude of `negative` ticks.
    fn rest_of(&mut self, negative: i64)
        requires
            old(self).wf(),
            negative <= 0,
            magnitude(negative) <= old(self).room(),
        ensures
            final(self).wf(),
            final(self).spec_rythm() == if negative == 0 {
                old(self).spec_rythm()
            } else {
                old(self).spec_rythm().push(
                    RythmElement::Rest(Rest { relative_duration: (-(negative as int)) as u64 }),
                )
            },
            final(self).room() == old(self).room() - magnitude(negative),
            final(self).same_settings(*old(self)),
    {
        let ghost q = self.rythm@;
        if negative < 0 {
            let e = RythmElement::Rest(Rest { relative_duration: (0 - (negative as i128)) as u64 });
            self.rythm.push_back(e);
            proof {
                lemma_total_push(q, e);
            }
        }
    }

    /// Total relative duration, in ticks, of the queued elements.
    pub fn len(&self) -> (r: u64)
        requires
            self.wf(),
        ensures
            r == total_ticks(self.spec_rythm()),
    {
        let n = self.rythm.len();
        let mut sum: u64 = 0;
        let mut i: usize = 0;
        proof {
            lemma_total_nonneg(self.rythm@);
        }
        while i < n
            invariant
                i <= n,
                n == self.rythm@.len(),
                sum == total_ticks(self.rythm@.subrange(0, i as int)),
                self.wf(),
            decreases n - i,
        {
            let d = match &self.rythm[i] {
                RythmElement::Rest(r) => r.relative_duration,
                RythmElement::Hit(h) => h.relative_duration,
            };
            proof {
                let post = self.rythm@.subrange(0, i + 1);
                assert(post.drop_last() =~= self.rythm@.subrange(0, i as int));
                lemma_total_prefix(self.rythm@, i + 1);
                lemma_total_split(self.rythm@, i + 1);
                lemma_total_nonneg(self.rythm@.subrange(i + 1, n as int));
            }
            sum = sum + d;
            i = i + 1;
        }
        proof {
            assert(self.rythm@.subrange(0, n as int) =~= self.rythm@);
        }
        sum
    }

    /// Exact length in milliseconds of `ticks` at this rhythm's tempo and
    /// beat, as a numerator and a denominator.
    pub fn ticks_duration_ms(&self, ticks: u64) -> (r: (u128, u128))
        requires
            self.wf(),
        ensures
            r.0 as int == ticks_to_ms(ticks as int, self.spec_tempo_bpm() as int, self.spec_beat_type()).0,
            r.1 as int == ticks_to_ms(ticks as int, self.spec_tempo_bpm() as int, self.spec_beat_type()).1,
            r.1 > 0,
    {
        let (n, d) = self.beat_type.duration_factor();
        let scaled = 60000u128 * ticks as u128;
        let tempo_ticks = TICKS_PER_QUARTER as u128 * self.tempo_bpm as u128;
        proof {
            assert(scaled * (d as int) <= 60000 * 0x1_0000_0000_0000_0000 * 0x1_0000) by (nonlinear_arith)
                requires scaled <= 60000 * 0x1_0000_0000_0000_0000, d <= u16::MAX;
            assert(tempo_ticks * (n as int) <= 960 * 0x1_0000_0000 * 0x1_0000) by (nonlinear_arith)
                requires tempo_ticks <= 960 * 0x1_0000_0000, n <= u16::MAX;
            assert(tempo_ticks * (n as int) > 0) by (nonlinear_arith)
                requires tempo_ticks > 0, n > 0;
        }
        let num = scaled * d as u128;
        let den = tempo_ticks * n as u128;
        (num, den)
    }

    /// Exact length in milliseconds of an element at this rhythm's tempo and
    /// beat, as a numerator and a denominator.
    pub fn hit_duration_ms(&self, element: &RythmElement<T>) -> (r: (u128, u128))
        requires
            self.wf(),
        ensures
            r.0 as int == ticks_to_ms(duration_of(*element), self.spec_tempo_bpm() as int, self.spec_beat_type()).0,
            r.1 as int == ticks_to_ms(duration_of(*element), self.spec_tempo_bpm() as int, self.spec_beat_type()).1,
            r.1 > 0,
    {
        let ticks = match element {
            RythmElement::Rest(r) => r.relative_duration,
            RythmElement::Hit(h) => h.relative_duration,
        };
        self.ticks_duration_ms(ticks)
    }

    /// Number of whole samples, rounded down, that `ticks` last at
    /// `sampling_frequency` Hz.
    pub fn ticks_to_samples(&self, ticks: u64, sampling_frequency: u32) -> (r: u128)
        requires
            self.wf(),
        ensures
            r as int == ticks_to_samples(
                ticks as int,
                self.spec_tempo_bpm() as int,
                self.spec_beat_type(),
                sampling_frequency as int,
            ),
    {
        let (n, d) = self.beat_type.duration_factor();
        let scaled = 60u128 * ticks as u128;
        let tempo_ticks = TICKS_PER_QUARTER as u128 * self.tempo_bpm as u128;
        proof {
            assert(scaled * (d as int) <= 60 * 0x1_0000_0000_0000_0000 * 0x1_0000) by (nonlinear_arith)
                requires scaled <= 60 * 0x1_0000_0000_0000_0000, d <= u16::MAX;
            assert(scaled * (d as int) * (sampling_frequency as int) <= 60 * 0x1_0000_0000_0000_0000
                * 0x1_0000 * 0x1_0000_0000) by (nonlinear_arith)
                requires
                    scaled * (d as int) <= 60 * 0x1_0000_0000_0000_0000 * 0x1_0000,
                    scaled * (d as int) >= 0,
                    sampling_frequency <= u32::MAX,
            ;
            assert(tempo_ticks * (n as int) <= 960 * 0x1_0000_0000 * 0x1_0000) by (nonlinear_arith)
                requires tempo_ticks <= 960 * 0x1_0000_0000, n <= u16::MAX;
            assert(tempo_ticks * (n as int) > 0) by (nonlinear_arith)
                requires tempo_ticks > 0, n > 0;
        }
        let num = scaled * d as u128 * sampling_frequency as u128;
        let den = tempo_ticks * n as u128;
        proof {
            assert(num as int == 60 * (ticks as int) * (d as int) * (sampling_frequency as int))
                by (nonlinear_arith)
                requires scaled == 60 * ticks, num == scaled * d * sampling_frequency;
            assert(den as int == 960 * (self.tempo_bpm as int) * (n as int)) by (nonlinear_arith)
                requires tempo_ticks == 960 * self.tempo_bpm, den == tempo_ticks * n;
        }
        num / den
    }

    /// The slot of a scheduled hit in a buffer at `sampling_frequency` Hz: the
    /// samples of silence before it and its own length, or `None` where these
    /// do not fit together in a buffer's length.
    pub fn slot(&self, hit: &ScheduledHit<T>, sampling_frequency: u32) -> (r: Option<(usize, usize)>)
        requires
            self.wf(),
        ensures
            ({
                let start = ticks_to_samples(
                    hit.start as int,
                    self.spec_tempo_bpm() as int,
                    self.spec_beat_type(),
                    sampling_frequency as int,
                );
                let length = ticks_to_samples(
                    hit.duration as int,
                    self.spec_tempo_bpm() as int,
                    self.spec_beat_type(),
                    sampling_frequency as int,
                );
                &&& r is Some <==> start + length <= usize::MAX
                &&& r matches Some(s) ==> s.0 == start && s.1 == length
            }),
    {
        let start = self.ticks_to_samples(hit.start, sampling_frequency);
        let length = self.ticks_to_samples(hit.duration, sampling_frequency);
        if start > usize::MAX as u128 || length > usize::MAX as u128 - start {
            None
        } else {
            Some((start as usize, length as usize))
        }
    }

    /// Takes the next hit from the front of the queue, with the rests before
    /// it: the hit starts where everything before it ends, and whatever comes
    /// next starts where it ends. `None` once no hit is left, the rests having
    /// been taken.
    pub fn next_hit(&mut self) -> (r: Option<ScheduledHit<T>>)
        requires
            old(self).wf(),
        ensures
            final(self).wf(),
            final(self).spec_tempo_bpm() == old(self).spec_tempo_bpm(),
            final(self).spec_beat_type() == old(self).spec_beat_type(),
            final(self).spec_clamp() == old(self).spec_clamp(),
            final(self).spec_decay() == old(self).spec_decay(),
            ({
                let q = old(self).spec_rythm();
                let k = first_hit(q);
                &&& r is None <==> k == q.len()
                &&& r is None ==> final(self).spec_rythm().len() == 0 && final(self).spec_start()
                    == old(self).spec_start() + total_ticks(q)
                &&& r matches Some(h) ==> {
                    &&& 0 <= k < q.len()
                    &&& q[k] matches RythmElement::Hit(x) && x.wave == h.wave
                        && x.relative_duration == h.duration
                    &&& h.start == old(self).spec_start() + total_ticks(q.subrange(0, k))
                    &&& final(self).spec_start() == h.start + h.duration
                    &&& final(self).spec_rythm() == q.subrange(k + 1, q.len() as int)
                }
            }),
    {
        let ghost q = self.rythm@;
        let ghost start0 = self.hit_start_time as int;
        let ghost mut skipped: int = 0;
        proof {
            lemma_first_hit_bounds(q);
            lemma_total_nonneg(q);
            assert(q.subrange(0, 0) =~= Seq::<RythmElement<T>>::empty());
            assert(q.subrange(0, q.len() as int) =~= q);
        }
        while self.rythm.len() > 0
            invariant
                0 <= skipped <= first_hit(q) <= q.len(),
                self.rythm@ == q.subrange(skipped, q.len() as int),
                forall|j: int| 0 <= j < skipped ==> (#[trigger] q[j]) is Rest,
                self.hit_start_time as int == start0 + total_ticks(q.subrange(0, skipped)),
                start0 + total_ticks(q) <= u64::MAX,
                self.tempo_bpm == old(self).spec_tempo_bpm(),
                self.beat_type == old(self).spec_beat_type(),
                self.clamp == old(self).spec_clamp(),
                self.decay == old(self).spec_decay(),
                self.tempo_bpm > 0,
                beat_is_valid(self.beat_type),
                q == old(self).spec_rythm(),
                start0 == old(self).spec_start(),
            decreases self.rythm@.len(),
        {
            let e = self.rythm.pop_front().unwrap();
            proof {
                assert(e == q[skipped]);
                lemma_total_prefix(q, skipped + 1);
                let post = q.subrange(0, skipped + 1);
                assert(post.drop_last() =~= q.subrange(0, skipped));
                lemma_total_split(q, skipped + 1);
                lemma_total_nonneg(q.subrange(skipped + 1, q.len() as int));
                assert(self.rythm@ =~= q.subrange(skipped + 1, q.len() as int));
                lemma_first_hit_after_rests(q, skipped);
            }
            let start = self.hit_start_time;
            match e {
                RythmElement::Hit(h) => {
                    self.hit_start_time = start + h.relative_duration;
                    proof {
                        lemma_total_split(q, skipped + 1);
                    }
                    return Some(ScheduledHit { wave: h.wave, start, duration: h.relative_duration });
                },
                RythmElement::Rest(rest) => {
                    self.hit_start_time = start + rest.relative_duration;
                    proof {
                        skipped = skipped + 1;
                    }
                },
            }
        }
        proof {
            assert(q.subrange(0, skipped) =~= q);
        }
        None
    }
}

impl<T: Clone> Rythm<T> {
    /// Appends `repetitions` more copies of the queued elements, in order: the
    /// phrase is played `repetitions + 1` times.
    pub fn bis(&mut self, repetitions: usize)
        requires
            old(self).wf(),
            old(self).spec_start() + total_ticks(old(self).spec_rythm()) * (repetitions + 1)
                <= u64::MAX,
            old(self).spec_rythm().len() * (repetitions + 1) <= usize::MAX,
        ensures
            final(self).wf(),
            final(self).same_settings(*old(self)),
            final(self).spec_rythm().len() == old(self).spec_rythm().len() * (repetitions + 1),
            final(self).spec_rythm().subrange(0, old(self).spec_rythm().len() as int)
                == old(self).spec_rythm(),
            forall|i: int|
                old(self).spec_rythm().len() <= i < final(self).spec_rythm().len() ==> is_copy_of(
                    #[trigger] final(self).spec_rythm()[i],
                    old(self).spec_rythm()[i % old(self).spec_rythm().len() as int],
                ),
    {
        let ghost q = self.rythm@;
        let n = self.rythm.len();
        let mut round: usize = 0;
        proof {
            lemma_total_nonneg(q);
            assert(q.len() * 1 == q.len());
            assert(q.subrange(0, q.len() as int) =~= q);
        }
        while round < repetitions
            invariant
                n == q.len(),
                round <= repetitions,
                q == old(self).spec_rythm(),
                n * (repetitions + 1) <= usize::MAX,
                self.rythm@.len() == n * (round + 1),
                self.rythm@.subrange(0, n as int) == q,
                forall|i: int|
                    n <= i < self.rythm@.len() ==> is_copy_of(#[trigger] self.rythm@[i], q[i % (n as int)]),
                total_ticks(self.rythm@) == total_ticks(q) * (round + 1),
                old(self).spec_start() + total_ticks(q) * (repetitions + 1) <= u64::MAX,
                total_ticks(q) >= 0,
                self.same_settings(*old(self)),
                self.tempo_bpm > 0,
                beat_is_valid(self.beat_type),
            decreases repetitions - round,
        {
            proof {
                assert(n * (round + 1) + n <= n * (repetitions + 1)) by (nonlinear_arith)
                    requires round < repetitions;
            }
            let mut j: usize = 0;
            let ghost base: int = self.rythm@.len() as int;
            let ghost before = self.rythm@;
            while j < n
                invariant
                    j <= n,
                    n == q.len(),
                    base == n * (round + 1),
                    base + n <= usize::MAX,
                    self.rythm@.len() == base + j,
                    self.rythm@.subrange(0, base) == before,
                    before.subrange(0, n as int) == q,
                    before.len() == base,
                    forall|i: int| n <= i < base ==> is_copy_of(#[trigger] before[i], q[i % (n as int)]),
                    forall|i: int|
                        n <= i < self.rythm@.len() ==> is_copy_of(#[trigger] self.rythm@[i], q[i % (n as int)]),
                    total_ticks(self.rythm@) == total_ticks(before) + total_ticks(q.subrange(0, j as int)),
                    self.same_settings(*old(self)),
                    self.tempo_bpm > 0,
                    beat_is_valid(self.beat_type),
                    q == old(self).spec_rythm(),
                decreases n - j,
            {
                proof {
                    assert(base >= n) by (nonlinear_arith)
                        requires base == n * (round + 1), n >= 0, round >= 0;
                    assert(self.rythm@.subrange(0, base)[j as int] == self.rythm@[j as int]);
                    assert(before.subrange(0, n as int)[j as int] == before[j as int]);
                    assert(self.rythm@[j as int] == q[j as int]);
                }
                let copy = match &self.rythm[j] {
                    RythmElement::Rest(r) => RythmElement::Rest(Rest { relative_duration: r.relative_duration }),
                    RythmElement::Hit(h) => RythmElement::Hit(
                        Hit { relative_duration: h.relative_duration, wave: h.wave.clone() },
                    ),
                };
                let ghost pre = self.rythm@;
                self.rythm.push_back(copy);
                proof {
                    let i = base + j;
                    assert((base + j) % (n as int) == j) by (nonlinear_arith)
                        requires base == n * (round + 1), 0 <= j < n, round >= 0;
                    assert(is_copy_of(self.rythm@[i], q[i % (n as int)]));
                    assert(self.rythm@.subrange(0, base) =~= before);
                    lemma_total_push(pre, copy);
                    lemma_total_prefix(q, j + 1);
                    assert(q.subrange(0, j + 1).drop_last() =~= q.subrange(0, j as int));
                    assert(duration_of(copy) == duration_of(q[j as int]));
                }
                j = j + 1;
            }
            proof {
                assert(q.subrange(0, n as int) =~= q);
                assert(n * (round + 1) + n == n * (round + 2)) by (nonlinear_arith);
                assert(total_ticks(q) * (round + 1) + total_ticks(q) == total_ticks(q) * (round + 2))
                    by (nonlinear_arith);
                assert(base >= n) by (nonlinear_arith)
                    requires base == n * (round + 1), n >= 0, round >= 0;
                lemma_prefix_of_prefix(self.rythm@, before, q, base, n as int);
            }
            round = round + 1;
        }
        proof {
            assert(total_ticks(q) * (round + 1) <= total_ticks(q) * (repetitions + 1)) by (nonlinear_arith)
                requires round == repetitions, total_ticks(q) >= 0;
        }
    }
}

impl<T: Clone + HasTone> Rythm<T> {
    /// Schedules, for each pair of `notes` in order, a copy of `root_sound`
    /// moved to the tone that the text names, for that many ticks, as `hit`
    /// does; a text that names no tone (neither a relative note such as `m3@1`
    /// nor a note name such as `f#3`) turns the pair into a rest of the same
    /// magnitude.
    pub fn hits_with_frequency(&mut self, root_sound: &T, notes: &[(i64, &str)])
        requires
            old(self).wf(),
            total_magnitude(notes@) <= old(self).room(),
        ensures
            final(self).wf(),
            final(self).same_settings(*old(self)),
            final(self).spec_rythm().subrange(0, old(self).spec_rythm().len() as int)
                == old(self).spec_rythm(),
            shaped_from(final(self).spec_rythm(), old(self).spec_rythm().len() as int, note_shapes(notes@)),
            final(self).room() == old(self).room() - total_magnitude(notes@),
    {
        let ghost q0 = self.rythm@;
        let n = notes.len();
        let mut i: usize = 0;
        proof {
            assert(notes@.subrange(0, 0) =~= Seq::<(i64, &str)>::empty());
            assert(self.rythm@.subrange(0, q0.len() as int) =~= q0);
        }
        while i < n
            invariant
                n == notes@.len(),
                i <= n,
                self.wf(),
                self.same_settings(*old(self)),
                q0 == old(self).spec_rythm(),
                self.spec_rythm().subrange(0, q0.len() as int) == q0,
                shaped_from(self.spec_rythm(), q0.len() as int, note_shapes(notes@.subrange(0, i as int))),
                self.room() == old(self).room() - total_magnitude(notes@.subrange(0, i as int)),
                total_magnitude(notes@) <= old(self).room(),
            decreases n - i,
        {
            let (d, text) = notes[i];
            let ghost pre = notes@.subrange(0, i as int);
            let ghost post = notes@.subrange(0, i + 1);
            let ghost before = self.spec_rythm();
            proof {
                assert(post.drop_last() =~= pre);
                assert(post.last() == notes@[i as int]);
                lemma_total_magnitude_prefix(notes@, i + 1);
            }
            match parse_tone_change(text) {
                Some(change) => {
                    let mut sound = root_sound.clone();
                    sound.apply_tone_change(change);
                    self.hit(d, sound);
                    proof {
                        if d != 0 {
                            lemma_shaped_push(before, q0.len() as int, note_shapes(pre), self.spec_rythm().last());
                            assert(self.spec_rythm() == before.push(self.spec_rythm().last()));
                        }
                    }
                },
                None => {
                    if d < 0 {
                        self.rest_of(d);
                    } else {
                        self.rest_of(0 - d);
                    }
                    proof {
                        if d != 0 {
                            lemma_shaped_push(before, q0.len() as int, note_shapes(pre), self.spec_rythm().last());
                            assert(self.spec_rythm() == before.push(self.spec_rythm().last()));
                        }
                    }
                },
            }
            i = i + 1;
        }
        proof {
            assert(notes@.subrange(0, n as int) =~= notes@);
        }
    }
}

impl<T: Clone + HasDuration> Rythm<T> {
    /// Schedules a copy of `root_sound` made to last `duration_ms`
    /// milliseconds, for `duration` ticks, as `hit` does.
    fn hit_lasting(&mut self, root_sound: &T, duration: i64, duration_ms: i64)
        requires
            old(self).wf(),
            magnitude(duration) <= old(self).room(),
        ensures
            final(self).wf(),
            final(self).same_settings(*old(self)),
            final(self).room() == old(self).room() - magnitude(duration),
            final(self).spec_rythm() == match shape_for(duration, true) {
                None => old(self).spec_rythm(),
                Some(_) => old(self).spec_rythm().push(final(self).spec_rythm().last()),
            },
            shape_for(duration, true) matches Some(x) ==> shape_of(final(self).spec_rythm().last()) == x,
    {
        let mut sound = root_sound.clone();
        sound.set_duration_ms(duration_ms);
        self.hit(duration, sound);
    }

    /// Schedules, for each pair of `durations` in order, a copy of
    /// `root_sound` made to last the pair's milliseconds, for the pair's ticks,
    /// as `hit` does.
    pub fn hits_with_duration(&mut self, root_sound: &T, durations: &[(i64, i64)])
        requires
            old(self).wf(),
            total_magnitude(durations@) <= old(self).room(),
        ensures
            final(self).wf(),
            final(self).same_settings(*old(self)),
            final(self).spec_rythm().subrange(0, old(self).spec_rythm().len() as int)
                == old(self).spec_rythm(),
            shaped_from(
                final(self).spec_rythm(),
                old(self).spec_rythm().len() as int,
                duration_shapes(durations@.map_values(|p: (i64, i64)| p.0)),
            ),
            final(self).room() == old(self).room() - total_magnitude(durations@),
    {
        let ghost q0 = self.rythm@;
        let ghost ticks = durations@.map_values(|p: (i64, i64)| p.0);
        let n = durations.len();
        let mut i: usize = 0;
        proof {
            assert(ticks.subrange(0, 0) =~= Seq::<i64>::empty());
            assert(durations@.subrange(0, 0) =~= Seq::<(i64, i64)>::empty());
            assert(self.rythm@.subrange(0, q0.len() as int) =~= q0);
        }
        while i < n
            invariant
                n == durations@.len(),
                ticks == durations@.map_values(|p: (i64, i64)| p.0),
                i <= n,
                self.wf(),
                self.same_settings(*old(self)),
                q0 == old(self).spec_rythm(),
                self.spec_rythm().subrange(0, q0.len() as int) == q0,
                shaped_from(self.spec_rythm(), q0.len() as int, duration_shapes(ticks.subrange(0, i as int))),
                self.room() == old(self).room() - total_magnitude(durations@.subrange(0, i as int)),
                total_magnitude(durations@) <= old(self).room(),
            decreases n - i,
        {
            let (d, ms) = durations[i];
            let ghost before = self.spec_rythm();
            let ghost pre = ticks.subrange(0, i as int);
            proof {
                assert(ticks.subrange(0, i + 1).drop_last() =~= pre);
                assert(ticks.subrange(0, i + 1).last() == d);
                assert(durations@.subrange(0, i + 1).drop_last() =~= durations@.subrange(0, i as int));
                lemma_total_magnitude_prefix(durations@, i + 1);
            }
            self.hit_lasting(root_sound, d, ms);
            proof {
                if d != 0 {
                    lemma_shaped_push(before, q0.len() as int, duration_shapes(pre), self.spec_rythm().last());
                }
            }
            i = i + 1;
        }
        proof {
            assert(ticks.subrange(0, n as int) =~= ticks);
            assert(durations@.subrange(0, n as int) =~= durations@);
        }
    }

    /// Schedules, for each duration in order, a copy of `root_sound` made to
    /// last that number for that number of ticks, as `hits_with_duration` does
    /// with the number twice.
    pub fn hits_with_matching_duration(&mut self, root_sound: &T, durations: &[i64])
        requires
            old(self).wf(),
            total_magnitude(durations@.map_values(|d: i64| (d, d))) <= old(self).room(),
        ensures
            final(self).wf(),
            final(self).same_settings(*old(self)),
            final(self).spec_rythm().subrange(0, old(self).spec_rythm().len() as int)
                == old(self).spec_rythm(),
            shaped_from(final(self).spec_rythm(), old(self).spec_rythm().len() as int, duration_shapes(durations@)),
    {
        let mut pairs: Vec<(i64, i64)> = Vec::new();
        let mut i: usize = 0;
        while i < durations.len()
            invariant
                i <= durations@.len(),
                pairs@ == durations@.subrange(0, i as int).map_values(|d: i64| (d, d)),
            decreases durations@.len() - i,
        {
            pairs.push((durations[i], durations[i]));
            proof {
                assert(durations@.subrange(0, i + 1).map_values(|d: i64| (d, d)) =~= durations@.subrange(
                    0,
                    i as int,
                ).map_values(|d: i64| (d, d)).push((durations@[i as int], durations@[i as int])));
            }
            i = i + 1;
        }
        proof {
            assert(durations@.subrange(0, durations@.len() as int) =~= durations@);
            assert(pairs@.map_values(|p: (i64, i64)| p.0) =~= durations@);
        }
        self.hits_with_duration(root_sound, pairs.as_slice());
    }
}

proof fn lemma_shaped_push<T>(q: Seq<RythmElement<T>>, from: int, shapes: Seq<(bool, int)>, e: RythmElement<T>)
    requires
        0 <= from,
        shaped_from(q, from, shapes),
    ensures
        shaped_from(q.push(e), from, shapes.push(shape_of(e))),
        q.push(e).subrange(0, from) == q.subrange(0, from),
{
    assert(q.push(e).subrange(0, from) =~= q.subrange(0, from));
    assert forall|i: int| 0 <= i < shapes.len() + 1 implies shape_of(#[trigger] q.push(e)[from + i])
        == shapes.push(shape_of(e))[i] by {
        if i < shapes.len() {
            assert(q.push(e)[from + i] == q[from + i]);
        }
    }
}

proof fn lemma_prefix_of_prefix<A>(s: Seq<A>, t: Seq<A>, q: Seq<A>, m: int, n: int)
    requires
        0 <= n <= m <= s.len(),
        s.subrange(0, m) == t,
        t.subrange(0, n) == q,
    ensures
        s.subrange(0, n) == q,
{
    assert forall|i: int| 0 <= i < n implies #[trigger] s.subrange(0, n)[i] == q[i] by {
        assert(s.subrange(0, m)[i] == s[i]);
        assert(t.subrange(0, n)[i] == t[i]);
    }
    assert(s.subrange(0, n) =~= q);
}

proof fn lemma_total_prefix<T>(q: Seq<RythmElement<T>>, k: int)
    requires
        0 < k <= q.len(),
    ensures
        total_ticks(q.subrange(0, k)) == total_ticks(q.subrange(0, k - 1)) + duration_of(q[k - 1]),
{
    assert(q.subrange(0, k).drop_last() =~= q.subrange(0, k - 1));
}

proof fn lemma_total_split<T>(q: Seq<RythmElement<T>>, k: int)
    requires
        0 <= k <= q.len(),
    ensures
        total_ticks(q) == total_ticks(q.subrange(0, k)) + total_ticks(q.subrange(k, q.len() as int)),
{
    lemma_total_concat(q.subrange(0, k), q.subrange(k, q.len() as int));
    assert(q.subrange(0, k) + q.subrange(k, q.len() as int) =~= q);
}

proof fn lemma_total_magnitude_prefix<X>(hits: Seq<(i64, X)>, k: int)
    requires
        0 < k <= hits.len(),
    ensures
        total_magnitude(hits.subrange(0, k)) == total_magnitude(hits.subrange(0, k - 1)) + magnitude(
            hits[k - 1].0,
        ),
        total_magnitude(hits.subrange(0, k)) <= total_magnitude(hits),
    decreases hits.len() - k,
{
    assert(hits.subrange(0, k).drop_last() =~= hits.subrange(0, k - 1));
    if k < hits.len() {
        lemma_total_magnitude_prefix(hits, k + 1);
    } else {
        assert(hits.subrange(0, k) =~= hits);
    }
}

proof fn lemma_first_hit_bounds<T>(q: Seq<RythmElement<T>>)
    ensures
        0 <= first_hit(q) <= q.len(),
        first_hit(q) < q.len() ==> q[first_hit(q)] is Hit,
        forall|j: int| 0 <= j < first_hit(q) ==> (#[trigger] q[j]) is Rest,
    decreases q.len(),
{
    if q.len() > 0 && !(q[0] is Hit) {
        lemma_first_hit_bounds(q.drop_first());
        assert forall|j: int| 0 <= j < first_hit(q) implies (#[trigger] q[j]) is Rest by {
            if j > 0 {
                assert(q[j] == q.drop_first()[j - 1]);
            }
        }
    }
}

proof fn lemma_first_hit_after_rests<T>(q: Seq<RythmElement<T>>, skipped: int)
    requires
        0 <= skipped < q.len(),
        forall|j: int| 0 <= j < skipped ==> (#[trigger] q[j]) is Rest,
    ensures
        q[skipped] is Hit ==> first_hit(q) == skipped,
        q[skipped] is Rest ==> skipped + 1 <= first_hit(q),
    decreases skipped,
{
    lemma_first_hit_bounds(q);
    if skipped > 0 {
        let t = q.drop_first();
        assert forall|j: int| 0 <= j < skipped - 1 implies (#[trigger] t[j]) is Rest by {
            assert(t[j] == q[j + 1]);
        }
        assert(t[skipped - 1] == q[skipped]);
        assert(q[0] is Rest);
        lemma_first_hit_after_rests(t, skipped - 1);
    }
}

} // verus!

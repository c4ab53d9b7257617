use wavesynth::note_name::{NoteLetter, NoteName, ToneChange};
use wavesynth::rhythm::{
    Beat, Decay, HasDuration, HasTone, Rest, Rythm, RythmBuilder, RythmElement, TICKS_PER_QUARTER,
};
use wavesynth::spectrum::{half_spectrum_len, hermitian_layout};
use wavesynth::waves::{InvalidWaveFormKind, NoiseSource, NoiseVariant, SampleClock};

#[test]
fn waves_test_file() {
    assert_eq!(NoiseVariant::default(), NoiseVariant::White);
}

#[test]
fn test_to_audio() {
    let clock = SampleClock::new(1000, 44100).unwrap();
    assert_eq!(clock.total(), 44100);
}

#[test]
fn a_second_at_44100_gives_44100_samples_then_stops() {
    let mut clock = SampleClock::new(1000, 44100).unwrap();
    let mut count: usize = 0;
    while let Some(i) = clock.tick() {
        assert_eq!(i, count);
        count += 1;
    }
    assert_eq!(count, 44100);
    assert_eq!(clock.tick(), None);
    assert_eq!(clock.remaining(), 0);
}

#[test]
fn sample_count_rounds_down() {
    assert_eq!(SampleClock::new(5, 44100).unwrap().total(), 220);
    assert_eq!(SampleClock::new(0, 44100).unwrap().total(), 0);
    let e = SampleClock::new(-1, 44100).unwrap_err();
    assert_eq!(e.kind(), InvalidWaveFormKind::NegativeDuration);
}

#[test]
fn noise_with_a_seed_repeats() {
    let draw_all = |seed: u64| {
        let clock = SampleClock::new(10, 1000).unwrap();
        let mut source = NoiseSource::new(seed, NoiseVariant::White, clock);
        let mut out = Vec::new();
        while let Some(pair) = source.next_draws() {
            out.push(pair);
        }
        out
    };
    let a = draw_all(7);
    let b = draw_all(7);
    assert_eq!(a.len(), 10);
    assert_eq!(a, b);
    assert_ne!(a, draw_all(8));
}

#[test]
fn pink_and_brown_silence_the_dc_bin() {
    assert!(NoiseVariant::Brown.silences_dc());
    assert!(NoiseVariant::Pink.silences_dc());
    assert!(!NoiseVariant::White.silences_dc());
    assert!(!NoiseVariant::Violet.silences_dc());
}

#[test]
fn hermitian_layout_even_and_odd() {
    assert_eq!(half_spectrum_len(6), 4);
    assert_eq!(
        hermitian_layout(6),
        vec![(0, false), (1, false), (2, false), (3, false), (2, true), (1, true)]
    );
    assert_eq!(half_spectrum_len(5), 3);
    assert_eq!(hermitian_layout(5), vec![(0, false), (1, false), (2, false), (2, true), (1, true)]);
    assert_eq!(hermitian_layout(1), vec![(0, false)]);
}

#[test]
fn common_use() {
    let mut x: Rythm<&str> = RythmBuilder::default().with_tempo_bpm(90).finalize().unwrap();
    x.hit(240, "sine");
    assert_eq!(x.element_count(), 1);
}

#[test]
fn test_macro_attr() {
    let x = RythmBuilder::default().with_tempo_bpm(60).with_tempo_bpm(45);
    assert_eq!(x.get_tempo_bpm(), 45);
}

#[test]
fn a_beat_at_sixty_lasts_a_second() {
    let r: Rythm<&str> = RythmBuilder::default().with_tempo_bpm(60).finalize().unwrap();
    let hit = RythmElement::Rest(Rest { relative_duration: TICKS_PER_QUARTER });
    let (num, den) = r.hit_duration_ms(&hit);
    assert_eq!(num, 1000 * den);
}

#[test]
fn beat_type_scales_durations() {
    let r: Rythm<&str> = RythmBuilder::default()
        .with_tempo_bpm(60)
        .with_beat_type(Beat::HalfNote)
        .finalize()
        .unwrap();
    let (num, den) = r.ticks_duration_ms(TICKS_PER_QUARTER);
    assert_eq!(num, 500 * den);
    assert_eq!(r.ticks_to_samples(TICKS_PER_QUARTER, 44100), 22050);
}

#[test]
fn zero_tempo_is_refused() {
    let r: Result<Rythm<&str>, ()> = RythmBuilder::default().with_tempo_bpm(0).finalize();
    assert!(r.is_err());
    let r: Result<Rythm<&str>, ()> = RythmBuilder::default().with_beat_type(Beat::Custom(1, 0)).finalize();
    assert!(r.is_err());
}

#[test]
fn hits_are_placed_after_what_came_before() {
    let mut r: Rythm<&str> = RythmBuilder::default()
        .with_tempo_bpm(60)
        .with_decay(Decay(400))
        .finalize()
        .unwrap();
    r.hit(960, "a");
    r.hit(-480, "ignored");
    r.hit(0, "nothing");
    r.hit(1920, "b");
    assert_eq!(r.len(), 3360);
    let first = r.next_hit().unwrap();
    assert_eq!((first.wave, first.start, first.duration), ("a", 0, 960));
    assert_eq!(r.slot(&first, 1000), Some((0, 1000)));
    let second = r.next_hit().unwrap();
    assert_eq!((second.wave, second.start, second.duration), ("b", 1440, 1920));
    assert_eq!(r.slot(&second, 1000), Some((1500, 2000)));
    assert!(r.next_hit().is_none());
    assert_eq!(r.start(), 3360);
    assert_eq!(r.get_decay(), Some(Decay(400)));
}

#[derive(Clone, Debug, PartialEq)]
struct Voice {
    change: Option<ToneChange>,
    duration_ms: i64,
}

impl HasTone for Voice {
    fn apply_tone_change(&mut self, change: ToneChange) {
        self.change = Some(change);
    }
}

impl HasDuration for Voice {
    fn set_duration_ms(&mut self, duration_ms: i64) {
        self.duration_ms = duration_ms;
    }
}

#[test]
fn unreadable_notes_become_rests() {
    let root = Voice { change: None, duration_ms: 0 };
    let mut r: Rythm<Voice> = RythmBuilder::default().finalize().unwrap();
    r.hits_with_frequency(&root, &[(480, "a4"), (720, "zz"), (-240, "b2"), (0, "c"), (240, "m3@1")]);
    assert_eq!(r.element_count(), 4);
    assert_eq!(r.len(), 1680);
    let first = r.next_hit().unwrap();
    assert_eq!(
        first.wave.change,
        Some(ToneChange::Absolute(NoteName { letter: NoteLetter::A, sharps: 0, flats: 0, octave: Some(4) }))
    );
    assert_eq!((first.start, first.duration), (0, 480));
    let second = r.next_hit().unwrap();
    assert_eq!(second.wave.change, Some(ToneChange::Relative(15)));
    assert_eq!(second.start, 1440);
    assert!(r.next_hit().is_none());
}

#[test]
fn durations_are_set_on_copies() {
    let root = Voice { change: None, duration_ms: 0 };
    let mut r: Rythm<Voice> = RythmBuilder::default().finalize().unwrap();
    r.hits_with_duration(&root, &[(480, 300), (-480, 10), (960, 900)]);
    r.hits_with_matching_duration(&root, &[240]);
    assert_eq!(r.element_count(), 4);
    let lengths: Vec<i64> = std::iter::from_fn(|| r.next_hit().map(|h| h.wave.duration_ms)).collect();
    assert_eq!(lengths, vec![300, 900, 240]);
}

#[test]
fn bis_repeats_the_phrase() {
    let mut r: Rythm<String> = RythmBuilder::default().finalize().unwrap();
    r.hit(240, String::from("a"));
    r.hit(-240, String::new());
    r.bis(2);
    assert_eq!(r.element_count(), 6);
    assert_eq!(r.len(), 1440);
    let starts: Vec<(String, u64)> = std::iter::from_fn(|| r.next_hit().map(|h| (h.wave, h.start))).collect();
    assert_eq!(
        starts,
        vec![(String::from("a"), 0), (String::from("a"), 480), (String::from("a"), 960)]
    );
}

use wavesynth::audio::{Audio, AudioBuilder, InvalidAudioKind};
use wavesynth::filters::{BitCruncher, SimpleDownsampler, SimpleUpsampler};
use wavesynth::time::{milliseconds_to_samples, samples_to_milliseconds};

fn buffer(samples: Vec<f64>, sampling_frequency: i32) -> Audio<f64> {
    AudioBuilder::new(samples, sampling_frequency).finalize().unwrap()
}

#[test]
fn tests_test_builder_functions() {
    let sampling_frequency = 8192;
    let x: AudioBuilder<f64> = AudioBuilder::default()
        .with_length(3)
        .with_sampling_frequency(8192);
    assert_eq!(x.get_samples(), &vec![0.0, 0.0, 0.0]);
    assert_eq!(x.get_sampling_frequency(), sampling_frequency);
}

#[test]
fn tests_test_concatenation() {
    let x = buffer(vec![1.0, 2.0, 3.0], 44100);
    let y = buffer(vec![4.0, 5.0, 6.0], 44100);
    let z = x.clone().merge(y.clone()).unwrap();
    assert_eq!(z, buffer(vec![1.0, 2.0, 3.0, 4.0, 5.0, 6.0], 44100));
    let w = x.merge(y).unwrap();
    assert_eq!(z, w);
}

#[test]
fn tests_test_overlapping() {
    let x = buffer(vec![1.0], 44100);
    let y = buffer(vec![0.5], 44100);
    let z = x.clone().overlap(y.clone()).unwrap();
    assert_eq!(z, buffer(vec![1.5], 44100));
    let w = x.overlap(y);
    assert_eq!(z, w.unwrap());
}

#[test]
fn tests_test_sample_right_padding() {
    let mut x = buffer(vec![1.0, 2.0, 3.0], 44100);
    x.sample_right_pad(2);
    assert_eq!(x, buffer(vec![1.0, 2.0, 3.0, 0.0, 0.0], 44100));
}

#[test]
fn tests_test_milliseconds_right_padding() {
    let mut x = buffer(vec![1.0], 44100);
    x.milliseconds_right_pad(1000);
    assert_eq!(x.samples().first().unwrap(), &1.0);
    assert_eq!(x.samples().len(), 44101);
}

#[test]
fn tests_test_sample_left_padding() {
    let mut x = buffer(vec![1.0, 2.0, 3.0], 44100);
    x.sample_left_pad(2);
    assert_eq!(x, buffer(vec![0.0, 0.0, 1.0, 2.0, 3.0], 44100));
}

#[test]
fn tests_test_milliseconds_left_padding() {
    let mut x = buffer(vec![1.0], 44100);
    x.milliseconds_left_pad(1000);
    assert_eq!(x.samples().last().unwrap(), &1.0);
    assert_eq!(x.samples().len(), 44101);
}

#[test]
fn audio_test_builder_functions() {
    let x: AudioBuilder<f64> = AudioBuilder::default().with_length(3).with_sampling_frequency(8192);
    assert_eq!(x.get_samples(), &vec![0.0, 0.0, 0.0]);
    assert_eq!(x.get_sampling_frequency(), 8192);
}

#[test]
fn audio_test_concatenation() {
    let x = buffer(vec![1.0, 2.0, 3.0], 44100);
    let y = buffer(vec![4.0, 5.0, 6.0], 44100);
    let z = x.merge(y).unwrap();
    assert_eq!(z, buffer(vec![1.0, 2.0, 3.0, 4.0, 5.0, 6.0], 44100));
    assert_eq!(z.get_sampling_frequency(), 44100);
}

#[test]
fn audio_test_overlapping() {
    let x = buffer(vec![1.0], 44100);
    let y = buffer(vec![0.5], 44100);
    let z = x.overlap(y).unwrap();
    assert_eq!(z, buffer(vec![1.5], 44100));
    assert_eq!(z.get_sampling_frequency(), 44100);
}

#[test]
fn audio_test_sample_right_padding() {
    let mut x = buffer(vec![1.0, 2.0, 3.0], 44100);
    x.sample_right_pad(2);
    assert_eq!(x, buffer(vec![1.0, 2.0, 3.0, 0.0, 0.0], 44100));
}

#[test]
fn audio_test_milliseconds_right_padding() {
    let mut x = buffer(vec![1.0], 44100);
    x.milliseconds_right_pad(1000);
    assert_eq!(x.samples().first().unwrap(), &1.0);
    assert_eq!(x.samples().len(), 44101);
}

#[test]
fn audio_test_sample_left_padding() {
    let mut x = buffer(vec![1.0, 2.0, 3.0], 44100);
    x.sample_left_pad(2);
    assert_eq!(x, buffer(vec![0.0, 0.0, 1.0, 2.0, 3.0], 44100));
}

#[test]
fn audio_test_milliseconds_left_padding() {
    let mut x = buffer(vec![1.0], 44100);
    x.milliseconds_left_pad(1000);
    assert_eq!(x.samples().last().unwrap(), &1.0);
    assert_eq!(x.samples().len(), 44101);
}

#[test]
fn left_pad_by_a_second_puts_silence_first() {
    let mut x = buffer(vec![1.0], 44100);
    x.milliseconds_left_pad(1000);
    let samples = x.get_samples();
    assert_eq!(samples.len(), 44101);
    assert_eq!(samples[44100], 1.0);
    assert!(samples[..44100].iter().all(|s| *s == 0.0));
}

#[test]
fn negative_sampling_frequency_is_refused() {
    let e = AudioBuilder::new(vec![1.0], -1).finalize().unwrap_err();
    assert_eq!(e.kind(), InvalidAudioKind::NegativeSamplingFrequency);
}

#[test]
fn mismatched_frequencies_are_refused() {
    let a = buffer(vec![1.0], 44100);
    let b = buffer(vec![1.0], 48000);
    let e = a.clone().merge(b.clone()).unwrap_err();
    assert_eq!(e.kind(), InvalidAudioKind::MismatchedSamplingFrequency);
    let e = a.overlap(b).unwrap_err();
    assert_eq!(e.kind(), InvalidAudioKind::MismatchedSamplingFrequency);
}

#[test]
fn unknown_frequency_takes_the_other() {
    let a = buffer(vec![1.0], 0);
    let b = buffer(vec![2.0], 48000);
    let m = a.merge(b).unwrap();
    assert_eq!(m.get_sampling_frequency(), 48000);
    assert_eq!(m.get_samples(), vec![1.0, 2.0]);
}

#[test]
fn merge_is_associative_on_values() {
    let a = buffer(vec![1.0], 44100);
    let b = buffer(vec![2.0, 3.0], 44100);
    let c = buffer(vec![4.0, 5.0, 6.0], 44100);
    let left = a.clone().merge(b.clone()).unwrap().merge(c.clone()).unwrap();
    let right = a.merge(b.merge(c).unwrap()).unwrap();
    assert_eq!(left, right);
    assert_eq!(left.sample_length(), 6);
}

#[test]
fn overlap_commutes_and_pads_the_shorter() {
    let a = buffer(vec![1.0, 2.0, 3.0], 44100);
    let b = buffer(vec![0.5], 44100);
    let ab = a.clone().overlap(b.clone()).unwrap();
    let ba = b.overlap(a).unwrap();
    assert_eq!(ab, ba);
    assert_eq!(ab.get_samples(), vec![1.5, 2.0, 3.0]);
}

#[test]
fn left_pad_then_split_gives_back_the_samples() {
    let mut a = buffer(vec![1.0, 2.0, 3.0], 44100);
    a.sample_left_pad(4);
    let (head, tail) = a.split_at_sample_index(4);
    assert_eq!(tail.get_samples(), vec![1.0, 2.0, 3.0]);
    assert_eq!(head.get_samples(), vec![0.0; 4]);
}

#[test]
fn split_past_the_end_keeps_everything_first() {
    let a = buffer(vec![1.0, 2.0], 44100);
    let (head, tail) = a.split_at_sample_index(5);
    assert_eq!(head.get_samples(), vec![1.0, 2.0]);
    assert_eq!(tail.sample_length(), 0);
}

#[test]
fn split_at_time_uses_the_frequency() {
    let a = buffer(vec![1.0, 2.0, 3.0, 4.0], 1000);
    let (head, tail) = a.split_at_time_ms(3);
    assert_eq!(head.get_samples(), vec![1.0, 2.0, 3.0]);
    assert_eq!(tail.get_samples(), vec![4.0]);
}

#[test]
fn reverse_reverses() {
    let mut a = buffer(vec![1.0, 2.0, 3.0], 44100);
    a.reverse();
    assert_eq!(a.get_samples(), vec![3.0, 2.0, 1.0]);
}

#[test]
fn duration_is_cut_or_extended() {
    let mut a = buffer(vec![1.0, 2.0, 3.0], 1000);
    a.set_duration_ms(5);
    assert_eq!(a.samples(), &vec![1.0, 2.0, 3.0, 0.0, 0.0]);
    a.set_duration_ms(2);
    assert_eq!(a.samples(), &vec![1.0, 2.0]);
    assert_eq!(a.milliseconds_length(), 2);
}

#[test]
fn place_pads_and_fits() {
    let mut a = buffer(vec![1.0, 2.0, 3.0], 1000);
    a.place(2, 2);
    assert_eq!(a.get_samples(), vec![0.0, 0.0, 1.0, 2.0]);
}

#[test]
fn mix_down_sums_all() {
    let a = buffer(vec![1.0, 1.0], 44100);
    let b = buffer(vec![0.0, 2.0, 3.0], 44100);
    let c = buffer(vec![0.5], 0);
    let m = Audio::mix_down(vec![a, b, c]).unwrap();
    assert_eq!(m.samples(), &vec![1.5, 3.0, 3.0]);
    assert_eq!(m.get_sampling_frequency(), 44100);
    let empty: Audio<f64> = Audio::mix_down(vec![]).unwrap();
    assert_eq!(empty.sample_length(), 0);
}

#[test]
fn time_conversions() {
    assert_eq!(milliseconds_to_samples(44100, 1000), 44100);
    assert_eq!(milliseconds_to_samples(44100, 5), 220);
    assert_eq!(samples_to_milliseconds(44100, 44100), 1000);
    assert_eq!(samples_to_milliseconds(0, 44100), 0);
    assert_eq!(samples_to_milliseconds(8000, 0), 0);
}

#[test]
fn downsampler_keeps_every_nth() {
    let a = buffer(vec![1.0, 2.0, 3.0, 4.0, 5.0], 44100);
    let d = SimpleDownsampler(2).filter(a);
    assert_eq!(d.get_samples(), vec![1.0, 3.0, 5.0]);
    let a = buffer(vec![1.0, 2.0], 44100);
    let d = SimpleDownsampler(3).filter(a);
    assert_eq!(d.get_sampling_frequency(), 14700);
    assert_eq!(d.get_samples(), vec![1.0]);
}

#[test]
fn upsampler_inserts_silence() {
    let a = buffer(vec![1.0, 2.0], 100);
    let u = SimpleUpsampler(3).filter(a);
    assert_eq!(u.samples(), &vec![1.0, 0.0, 0.0, 2.0, 0.0, 0.0]);
    assert_eq!(u.get_sampling_frequency(), 300);
    let a = buffer(vec![1.0, 2.0], 100);
    let u = SimpleUpsampler(0).filter(a);
    assert_eq!(u.get_samples(), vec![1.0, 2.0]);
}

#[test]
fn bit_cruncher_clears_low_bits() {
    let c = BitCruncher(4);
    assert_eq!(c.shift(), 60);
    assert_eq!(c.crunch_word(u64::MAX), 0xF000_0000_0000_0000);
    assert_eq!(BitCruncher(0).crunch_word(12345), 0);
    assert_eq!(BitCruncher(64).crunch_word(12345), 12345);
    assert_eq!(BitCruncher(100).shift(), 0);
}

#[test]
fn unknown_frequency_can_be_set_once() {
    let mut a = buffer(vec![1.0], 0);
    assert!(a.set_sampling_frequency(8000).is_ok());
    assert_eq!(a.get_sampling_frequency(), 8000);
    assert!(a.set_sampling_frequency(8000).is_ok());
    let e = a.set_sampling_frequency(44100).unwrap_err();
    assert_eq!(e.kind(), InvalidAudioKind::MismatchedSamplingFrequency);
    assert_eq!(a.get_sampling_frequency(), 8000);
}

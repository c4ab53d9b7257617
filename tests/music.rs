use wavesynth::interval::{parse_interval, Interval};
use wavesynth::note_name::{parse_note, parse_tone_change, NoteLetter, NoteName, ToneChange};
use wavesynth::tone::{InvalidToneKind, Note, A_NOTE_INDEX, NUMBER_OF_AVAILABLE_NOTES};

#[test]
fn note_test_file() {
    assert_eq!(NUMBER_OF_AVAILABLE_NOTES, 120);
}

#[test]
fn note_test_available_note_conversions() {
    let x = Note::try_from_index(0).unwrap();
    assert_eq!(x.index(), 0);
    let x = Note::try_from_index(NUMBER_OF_AVAILABLE_NOTES);
    match x {
        Ok(value) => panic!("Expected an error, got AvailableNote with value {}", value.index()),
        Err(error) => assert_eq!(error.kind(), InvalidToneKind::OutOfBoundsNote),
    }
}

#[test]
fn mod_test_enum() {
    let a = Note::a4();
    assert_eq!(a.index(), A_NOTE_INDEX);
    assert_eq!(Note::try_from_index(A_NOTE_INDEX).unwrap(), a);
}

#[test]
fn intervals_move_along_the_table() {
    let a = Note::a4();
    assert_eq!(a.octave().unwrap().index(), A_NOTE_INDEX + 12);
    assert_eq!(a.minor_second().unwrap().index(), A_NOTE_INDEX + 1);
    assert_eq!(a.perfect_fith().unwrap().index(), A_NOTE_INDEX + 7);
    assert_eq!(a.major_seventh().unwrap().index(), A_NOTE_INDEX + 11);
    assert_eq!(a.octavate(-2).unwrap().index(), A_NOTE_INDEX - 24);
    assert_eq!(a.transpose(-53).unwrap().index(), 0);
    assert_eq!(a.transpose(-54).unwrap_err().kind(), InvalidToneKind::OutOfBoundsNote);
    assert_eq!(a.octavate(6).unwrap_err().kind(), InvalidToneKind::OutOfBoundsNote);
    let top = Note::try_from_index(NUMBER_OF_AVAILABLE_NOTES - 1).unwrap();
    assert!(top.minor_second().is_err());
}

#[test]
fn interval_names() {
    assert_eq!(Interval::from_name("root"), Some(Interval::Unison));
    assert_eq!(Interval::from_name("M7"), Some(Interval::MajorSeventh));
    assert_eq!(Interval::from_name("3t"), Some(Interval::Tritone));
    assert_eq!(Interval::from_name("m9"), None);
    assert_eq!(Interval::MajorSixth.to_semitones(), 9);
    assert_eq!(Interval::Unison.to_semitones(), 0);
}

#[test]
fn relative_notes_parse() {
    assert_eq!(parse_interval("m7@3"), Some(46));
    assert_eq!(parse_interval("3t@-2"), Some(-18));
    assert_eq!(parse_interval("root@0"), Some(0));
    assert_eq!(parse_interval("p5@+1"), Some(19));
    assert_eq!(parse_interval("M2@1000"), Some(12 * 127 + 2));
    assert_eq!(parse_interval("M2@-1000"), Some(-12 * 128 + 2));
    assert_eq!(parse_interval("m3@1@ignored"), Some(15));
    assert_eq!(parse_interval("m3"), None);
    assert_eq!(parse_interval("m3@"), None);
    assert_eq!(parse_interval("m3@-"), None);
    assert_eq!(parse_interval("x3@1"), None);
    assert_eq!(parse_interval("m3@1x"), None);
    assert_eq!(parse_interval("m3@99999999999"), None);
}

#[test]
fn note_names_parse() {
    let n = parse_note("f#3").unwrap();
    assert_eq!(n, NoteName { letter: NoteLetter::F, sharps: 1, flats: 0, octave: Some(3) });
    let n = parse_note("Bbb12").unwrap();
    assert_eq!(n, NoteName { letter: NoteLetter::B, sharps: 0, flats: 2, octave: Some(12) });
    let n = parse_note("c").unwrap();
    assert_eq!(n, NoteName { letter: NoteLetter::C, sharps: 0, flats: 0, octave: None });
    assert_eq!(parse_note("a999").unwrap().octave, Some(255));
    assert_eq!(parse_note(""), None);
    assert_eq!(parse_note("h4"), None);
    assert_eq!(parse_note("a#b4"), None);
    assert_eq!(parse_note("a4#"), None);
}

#[test]
fn tone_changes_prefer_intervals() {
    assert_eq!(parse_tone_change("M3@0"), Some(ToneChange::Relative(4)));
    assert_eq!(
        parse_tone_change("g3"),
        Some(ToneChange::Absolute(NoteName { letter: NoteLetter::G, sharps: 0, flats: 0, octave: Some(3) }))
    );
    assert_eq!(parse_tone_change("nope"), None);
}

use vstd::prelude::*;

use crate::interval::{interval_offset, parse_interval};

verus! {

/// The seven note letters.
#[derive(Clone, Copy, Debug, PartialEq, Eq, Structural)]
pub enum NoteLetter {
    C,
    D,
    E,
    F,
    G,
    A,
    B,
}

/// Where the reader of a note name stands.
#[derive(Clone, Copy, Debug, PartialEq, Eq, Structural)]
pub enum PitchParserState {
    Note,
    ModifierOrOctave,
    Flat,
    Sharp,
    Octave(u8),
}

/// A note name such as `f#3` or `Bb2`: a letter, any number of sharps or of
/// flats, and an octave number (held to 255) where one is written.
#[derive(Clone, Copy, Debug, PartialEq, Eq, Structural)]
pub struct NoteName {
    pub letter: NoteLetter,
    pub sharps: usize,
    pub flats: usize,
    pub octave: Option<u8>,
}

/// A change of tone that a piece of text asks for.
#[derive(Clone, Copy, Debug, PartialEq, Eq, Structural)]
pub enum ToneChange {
    /// Move by this many semitones from the current tone.
    Relative(i32),
    /// Take this note.
    Absolute(NoteName),
}

/// The letter that a character names, in either case.
pub open spec fn letter_of(c: char) -> Option<NoteLetter> {
    if c == 'c' || c == 'C' {
        Some(NoteLetter::C)
    } else if c == 'd' || c == 'D' {
        Some(NoteLetter::D)
    } else if c == 'e' || c == 'E' {
        Some(NoteLetter::E)
    } else if c == 'f' || c == 'F' {
        Some(NoteLetter::F)
    } else if c == 'g' || c == 'G' {
        Some(NoteLetter::G)
    } else if c == 'a' || c == 'A' {
        Some(NoteLetter::A)
    } else if c == 'b' || c == 'B' {
        Some(NoteLetter::B)
    } else {
        None
    }
}

pub open spec fn digit_of(c: char) -> Option<int> {
    if '0' <= c && c <= '9' {
        Some(c as int - '0' as int)
    } else {
        None
    }
}

/// What the reader has taken in so far: its state, and the name read.
pub struct NameProgress {
    pub state: PitchParserState,
    pub letter: NoteLetter,
    pub sharps: nat,
    pub flats: nat,
}

/// One step of the reader on character `c`, or `None` where `c` cannot come next.
pub open spec fn name_step(p: NameProgress, c: char) -> Option<NameProgress> {
    match p.state {
        PitchParserState::Note => match letter_of(c) {
            Some(l) => Some(
                NameProgress { state: PitchParserState::ModifierOrOctave, letter: l, ..p },
            ),
            None => None,
        },
        PitchParserState::ModifierOrOctave => {
            if c == 'b' {
                Some(NameProgress { state: PitchParserState::Flat, flats: p.flats + 1, ..p })
            } else if c == '#' {
                Some(NameProgress { state: PitchParserState::Sharp, sharps: p.sharps + 1, ..p })
            } else {
                match digit_of(c) {
                    Some(d) => Some(NameProgress { state: PitchParserState::Octave(d as u8), ..p }),
                    None => None,
                }
            }
        },
        PitchParserState::Flat => {
            if c == 'b' {
                Some(NameProgress { flats: p.flats + 1, ..p })
            } else {
                match digit_of(c) {
                    Some(d) => Some(NameProgress { state: PitchParserState::Octave(d as u8), ..p }),
                    None => None,
                }
            }
        },
        PitchParserState::Sharp => {
            if c == '#' {
                Some(NameProgress { sharps: p.sharps + 1, ..p })
            } else {
                match digit_of(c) {
                    Some(d) => Some(NameProgress { state: PitchParserState::Octave(d as u8), ..p }),
                    None => None,
                }
            }
        },
        PitchParserState::Octave(o) => match digit_of(c) {
            Some(d) => {
                let v = o as int * 10 + d;
                let held = if v > 255 {
                    255
                } else {
                    v
                };
                Some(NameProgress { state: PitchParserState::Octave(held as u8), ..p })
            },
            None => None,
        },
    }
}

pub open spec fn name_start() -> NameProgress {
    NameProgress { state: PitchParserState::Note, letter: NoteLetter::C, sharps: 0, flats: 0 }
}

/// The reader's progress after all of `s`, or `None` where it stopped.
pub open spec fn name_run(s: Seq<char>) -> Option<NameProgress>
    decreases s.len(),
{
    if s.len() == 0 {
        Some(name_start())
    } else {
        match name_run(s.drop_last()) {
            None => None,
            Some(p) => name_step(p, s.last()),
        }
    }
}

/// The note that `s` names, if it names one.
pub open spec fn note_name_of(s: Seq<char>) -> Option<NoteName> {
    match name_run(s) {
        None => None,
        Some(p) => if p.state == PitchParserState::Note {
            None
        } else {
            Some(
                NoteName {
                    letter: p.letter,
                    sharps: p.sharps as usize,
                    flats: p.flats as usize,
                    octave: match p.state {
                        PitchParserState::Octave(o) => Some(o),
                        _ => None,
                    },
                },
            )
        },
    }
}

/// The change of tone that `s` asks for: a relative note where it reads as
/// one, else a note name.
pub open spec fn tone_change_of(s: Seq<char>) -> Option<ToneChange> {
    match interval_offset(s) {
        Some(v) => Some(ToneChange::Relative(v as i32)),
        None => match note_name_of(s) {
            Some(n) => Some(ToneChange::Absolute(n)),
            None => None,
        },
    }
}

proof fn lemma_name_run_counts(s: Seq<char>)
    ensures
        name_run(s) matches Some(p) ==> p.sharps + p.flats <= s.len(),
    decreases s.len(),
{
    if s.len() > 0 {
        lemma_name_run_counts(s.drop_last());
    }
}

proof fn lemma_name_run_stays_none(s: Seq<char>, k: int)
    requires
        0 <= k <= s.len(),
        name_run(s.subrange(0, k)) is None,
    ensures
        name_run(s) is None,
    decreases s.len() - k,
{
    if k < s.len() {
        assert(s.subrange(0, k + 1).drop_last() =~= s.subrange(0, k));
        lemma_name_run_stays_none(s, k + 1);
    } else {
        assert(s.subrange(0, k) =~= s);
    }
}

fn letter_from(c: char) -> (r: Option<NoteLetter>)
    ensures
        r == letter_of(c),
{
    if c == 'c' || c == 'C' {
        Some(NoteLetter::C)
    } else if c == 'd' || c == 'D' {
        Some(NoteLetter::D)
    } else if c == 'e' || c == 'E' {
        Some(NoteLetter::E)
    } else if c == 'f' || c == 'F' {
        Some(NoteLetter::F)
    } else if c == 'g' || c == 'G' {
        Some(NoteLetter::G)
    } else if c == 'a' || c == 'A' {
        Some(NoteLetter::A)
    } else if c == 'b' || c == 'B' {
        Some(NoteLetter::B)
    } else {
        None
    }
}

fn digit_from(c: char) -> (r: Option<u8>)
    ensures
        r matches Some(d) ==> digit_of(c) == Some(d as int),
        r is None ==> digit_of(c) is None,
{
    if '0' <= c && c <= '9' {
        Some((c as u32 - '0' as u32) as u8)
    } else {
        None
    }
}

/// Reads a note name such as `a4`, `f#3`, `Bb2` or `c`.
pub fn parse_note(note: &str) -> (r: Option<NoteName>)
    ensures
        r == note_name_of(note@),
{
    let n = note.unicode_len();
    let mut state = PitchParserState::Note;
    let mut letter = NoteLetter::C;
    let mut sharps: usize = 0;
    let mut flats: usize = 0;
    let mut i: usize = 0;
    while i < n
        invariant
            i <= n,
            n == note@.len(),
            name_run(note@.subrange(0, i as int)) == Some(
                NameProgress { state, letter, sharps: sharps as nat, flats: flats as nat },
            ),
        decreases n - i,
    {
        let c = note.get_char(i);
        proof {
            let pre = note@.subrange(0, i as int);
            let post = note@.subrange(0, i + 1);
            assert(post.drop_last() =~= pre);
            assert(post.last() == c);
            lemma_name_run_counts(pre);
            if name_run(post) is None {
                lemma_name_run_stays_none(note@, i + 1);
            }
        }
        match state {
            PitchParserState::Note => {
                match letter_from(c) {
                    Some(l) => {
                        letter = l;
                        state = PitchParserState::ModifierOrOctave;
                    },
                    None => return None,
                }
            },
            PitchParserState::ModifierOrOctave => {
                if c == 'b' {
                    flats = flats + 1;
                    state = PitchParserState::Flat;
                } else if c == '#' {
                    sharps = sharps + 1;
                    state = PitchParserState::Sharp;
                } else {
                    match digit_from(c) {
                        Some(d) => {
                            state = PitchParserState::Octave(d);
                        },
                        None => return None,
                    }
                }
            },
            PitchParserState::Flat => {
                if c == 'b' {
                    flats = flats + 1;
                } else {
                    match digit_from(c) {
                        Some(d) => {
                            state = PitchParserState::Octave(d);
                        },
                        None => return None,
                    }
                }
            },
            PitchParserState::Sharp => {
                if c == '#' {
                    sharps = sharps + 1;
                } else {
                    match digit_from(c) {
                        Some(d) => {
                            state = PitchParserState::Octave(d);
                        },
                        None => return None,
                    }
                }
            },
            PitchParserState::Octave(o) => {
                match digit_from(c) {
                    Some(d) => {
                        let v: u32 = o as u32 * 10 + d as u32;
                        let held: u8 = if v > 255 {
                            255
                        } else {
                            v as u8
                        };
                        state = PitchParserState::Octave(held);
                    },
                    None => return None,
                }
            },
        }
        i = i + 1;
    }
    proof {
        assert(note@.subrange(0, n as int) =~= note@);
    }
    match state {
        PitchParserState::Note => None,
        PitchParserState::Octave(o) => Some(NoteName { letter, sharps, flats, octave: Some(o) }),
        _ => Some(NoteName { letter, sharps, flats, octave: None }),
    }
}

/// Reads the change of tone that a piece of text asks for: a relative note
/// such as `m7@3`, or else a note name such as `f#3`.
pub fn parse_tone_change(text: &str) -> (r: Option<ToneChange>)
    ensures
        r == tone_change_of(text@),
{
    match parse_interval(text) {
        Some(v) => Some(ToneChange::Relative(v)),
        None => match parse_note(text) {
            Some(n) => Some(ToneChange::Absolute(n)),
            None => None,
        },
    }
}

} // verus!

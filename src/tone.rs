use vstd::prelude::*;

verus! {

/// Number of notes in the equal-tempered table: every semitone from the
/// lowest note above 20 Hz up to the last one below 20 kHz, around A = 440 Hz.
pub const NUMBER_OF_AVAILABLE_NOTES: usize = 120;

/// Index of A = 440 Hz in the note table.
pub const A_NOTE_INDEX: usize = 53;

#[derive(Clone, Copy, Debug, PartialEq, Eq, Structural)]
pub enum InvalidToneKind {
    NanFrequency,
    InfiniteFrequency,
    NegativeFrequency,
    OutOfBoundsNote,
    NoEquivalentNote,
}

#[derive(Clone, Copy, Debug, PartialEq, Eq, Structural)]
pub struct InvalidTone {
    kind: InvalidToneKind,
}

impl InvalidTone {
    pub fn new(kind: InvalidToneKind) -> (r: InvalidTone)
        ensures
            r.spec_kind() == kind,
    {
        InvalidTone { kind }
    }

    pub fn kind(&self) -> (r: InvalidToneKind)
        ensures
            r == self.spec_kind(),
    {
        self.kind
    }

    pub closed spec fn spec_kind(&self) -> InvalidToneKind {
        self.kind
    }
}

/// A note of the equal-tempered table, by its index.
#[derive(Clone, Copy, Debug, PartialEq, Eq, Structural)]
pub struct Note {
    index: usize,
}

/// Another name for [`Note`], a note that the table has.
pub type AvailableNote = Note;

/// The note `semitones` above (or, below zero, under) the note at `index`,
/// where that lies in the table.
pub open spec fn shifted_index(index: int, semitones: int) -> Option<int> {
    let target = index + semitones;
    if 0 <= target < NUMBER_OF_AVAILABLE_NOTES {
        Some(target)
    } else {
        None
    }
}

impl Note {
    pub closed spec fn spec_index(&self) -> int {
        self.index as int
    }

    pub closed spec fn wf(&self) -> bool {
        self.index < NUMBER_OF_AVAILABLE_NOTES
    }

    /// The note at `index` of the table, or `OutOfBoundsNote`.
    pub fn try_from_index(index: usize) -> (r: Result<Note, InvalidTone>)
        ensures
            index < NUMBER_OF_AVAILABLE_NOTES <==> r is Ok,
            r matches Ok(n) ==> n.spec_index() == index && n.wf(),
            r matches Err(e) ==> e.spec_kind() == InvalidToneKind::OutOfBoundsNote,
    {
        if index >= NUMBER_OF_AVAILABLE_NOTES {
            Err(InvalidTone::new(InvalidToneKind::OutOfBoundsNote))
        } else {
            Ok(Note { index })
        }
    }

    /// The note A = 440 Hz.
    pub fn a4() -> (r: Note)
        ensures
            r.spec_index() == A_NOTE_INDEX,
            r.wf(),
    {
        Note { index: A_NOTE_INDEX }
    }

    pub fn index(&self) -> (r: usize)
        ensures
            r == self.spec_index(),
    {
        self.index
    }

    /// The note `semitones` away in the table, or `OutOfBoundsNote` where that
    /// falls outside it.
    pub fn transpose(&self, semitones: i64) -> (r: Result<Note, InvalidTone>)
        requires
            self.wf(),
        ensures
            shifted_index(self.spec_index(), semitones as int) is None <==> r is Err,
            r matches Ok(n) ==> Some(n.spec_index()) == shifted_index(
                self.spec_index(),
                semitones as int,
            ) && n.wf(),
            r matches Err(e) ==> e.spec_kind() == InvalidToneKind::OutOfBoundsNote,
    {
        let limit = NUMBER_OF_AVAILABLE_NOTES as i64;
        if semitones < -limit || semitones >= limit {
            return Err(InvalidTone::new(InvalidToneKind::OutOfBoundsNote));
        }
        let target = self.index as i64 + semitones;
        if target < 0 || target >= limit {
            Err(InvalidTone::new(InvalidToneKind::OutOfBoundsNote))
        } else {
            Ok(Note { index: target as usize })
        }
    }

    /// The note `octaves` octaves away.
    pub fn octavate(&self, octaves: i32) -> (r: Result<Note, InvalidTone>)
        requires
            self.wf(),
        ensures
            shifted_index(self.spec_index(), 12 * octaves) is None <==> r is Err,
            r matches Ok(n) ==> Some(n.spec_index()) == shifted_index(self.spec_index(), 12 * octaves),
            r matches Err(e) ==> e.spec_kind() == InvalidToneKind::OutOfBoundsNote,
    {
        self.transpose(12 * octaves as i64)
    }

    pub fn minor_second(&self) -> (r: Result<Note, InvalidTone>)
        requires
            self.wf(),
        ensures
            r matches Ok(n) ==> Some(n.spec_index()) == shifted_index(self.spec_index(), 1),
            shifted_index(self.spec_index(), 1) is None <==> r is Err,
            r matches Err(e) ==> e.spec_kind() == InvalidToneKind::OutOfBoundsNote,
    {
        self.transpose(1)
    }

    pub fn major_second(&self) -> (r: Result<Note, InvalidTone>)
        requires
            self.wf(),
        ensures
            r matches Ok(n) ==> Some(n.spec_index()) == shifted_index(self.spec_index(), 2),
            shifted_index(self.spec_index(), 2) is None <==> r is Err,
            r matches Err(e) ==> e.spec_kind() == InvalidToneKind::OutOfBoundsNote,
    {
        self.transpose(2)
    }

    pub fn minor_third(&self) -> (r: Result<Note, InvalidTone>)
        requires
            self.wf(),
        ensures
            r matches Ok(n) ==> Some(n.spec_index()) == shifted_index(self.spec_index(), 3),
            shifted_index(self.spec_index(), 3) is None <==> r is Err,
            r matches Err(e) ==> e.spec_kind() == InvalidToneKind::OutOfBoundsNote,
    {
        self.transpose(3)
    }

    pub fn major_third(&self) -> (r: Result<Note, InvalidTone>)
        requires
            self.wf(),
        ensures
            r matches Ok(n) ==> Some(n.spec_index()) == shifted_index(self.spec_index(), 4),
            shifted_index(self.spec_index(), 4) is None <==> r is Err,
            r matches Err(e) ==> e.spec_kind() == InvalidToneKind::OutOfBoundsNote,
    {
        self.transpose(4)
    }

    pub fn perfect_forth(&self) -> (r: Result<Note, InvalidTone>)
        requires
            self.wf(),
        ensures
            r matches Ok(n) ==> Some(n.spec_index()) == shifted_index(self.spec_index(), 5),
            shifted_index(self.spec_index(), 5) is None <==> r is Err,
            r matches Err(e) ==> e.spec_kind() == InvalidToneKind::OutOfBoundsNote,
    {
        self.transpose(5)
    }

    pub fn tritone(&self) -> (r: Result<Note, InvalidTone>)
        requires
            self.wf(),
        ensures
            r matches Ok(n) ==> Some(n.spec_index()) == shifted_index(self.spec_index(), 6),
            shifted_index(self.spec_index(), 6) is None <==> r is Err,
            r matches Err(e) ==> e.spec_kind() == InvalidToneKind::OutOfBoundsNote,
    {
        self.transpose(6)
    }

    pub fn perfect_fith(&self) -> (r: Result<Note, InvalidTone>)
        requires
            self.wf(),
        ensures
            r matches Ok(n) ==> Some(n.spec_index()) == shifted_index(self.spec_index(), 7),
            shifted_index(self.spec_index(), 7) is None <==> r is Err,
            r matches Err(e) ==> e.spec_kind() == InvalidToneKind::OutOfBoundsNote,
    {
        self.transpose(7)
    }

    pub fn minor_sixth(&self) -> (r: Result<Note, InvalidTone>)
        requires
            self.wf(),
        ensures
            r matches Ok(n) ==> Some(n.spec_index()) == shifted_index(self.spec_index(), 8),
            shifted_index(self.spec_index(), 8) is None <==> r is Err,
            r matches Err(e) ==> e.spec_kind() == InvalidToneKind::OutOfBoundsNote,
    {
        self.transpose(8)
    }

    pub fn major_sixth(&self) -> (r: Result<Note, InvalidTone>)
        requires
            self.wf(),
        ensures
            r matches Ok(n) ==> Some(n.spec_index()) == shifted_index(self.spec_index(), 9),
            shifted_index(self.spec_index(), 9) is None <==> r is Err,
            r matches Err(e) ==> e.spec_kind() == InvalidToneKind::OutOfBoundsNote,
    {
        self.transpose(9)
    }

    pub fn minor_seventh(&self) -> (r: Result<Note, InvalidTone>)
        requires
            self.wf(),
        ensures
            r matches Ok(n) ==> Some(n.spec_index()) == shifted_index(self.spec_index(), 10),
            shifted_index(self.spec_index(), 10) is None <==> r is Err,
            r matches Err(e) ==> e.spec_kind() == InvalidToneKind::OutOfBoundsNote,
    {
        self.transpose(10)
    }

    pub fn major_seventh(&self) -> (r: Result<Note, InvalidTone>)
        requires
            self.wf(),
        ensures
            r matches Ok(n) ==> Some(n.spec_index()) == shifted_index(self.spec_index(), 11),
            shifted_index(self.spec_index(), 11) is None <==> r is Err,
            r matches Err(e) ==> e.spec_kind() == InvalidToneKind::OutOfBoundsNote,
    {
        self.transpose(11)
    }

    pub fn octave(&self) -> (r: Result<Note, InvalidTone>)
        requires
            self.wf(),
        ensures
            r matches Ok(n) ==> Some(n.spec_index()) == shifted_index(self.spec_index(), 12),
            shifted_index(self.spec_index(), 12) is None <==> r is Err,
            r matches Err(e) ==> e.spec_kind() == InvalidToneKind::OutOfBoundsNote,
    {
        self.transpose(12)
    }
}

} // verus!

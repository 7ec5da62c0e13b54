//! The score model: what a parsed sheet holds.

use vstd::prelude::*;

verus! {

/// Tempo in beats per minute.
pub type BPM = i32;

/// How long a note or a line lasts, as a fraction of a whole note.
#[derive(Clone, Copy, Debug, Ord, PartialOrd, Eq, PartialEq, Hash, Structural)]
pub enum Value {
    Whole,
    Half,
    Quarter,
    Eighth,
    Sixteenth,
}

impl Value {
    /// The number of such values that fill one whole note.
    pub open spec fn spec_divisor(self) -> int {
        match self {
            Value::Whole => 1,
            Value::Half => 2,
            Value::Quarter => 4,
            Value::Eighth => 8,
            Value::Sixteenth => 16,
        }
    }

    /// Position of the value in the order of declaration, longest first.
    pub open spec fn spec_ordinal(self) -> int {
        match self {
            Value::Whole => 0,
            Value::Half => 1,
            Value::Quarter => 2,
            Value::Eighth => 3,
            Value::Sixteenth => 4,
        }
    }

    /// Position of the value in the order of declaration, longest first.
    pub fn ordinal(&self) -> (position: u8)
        ensures
            position == self.spec_ordinal(),
    {
        match self {
            Value::Whole => 0,
            Value::Half => 1,
            Value::Quarter => 2,
            Value::Eighth => 3,
            Value::Sixteenth => 4,
        }
    }

    /// The number of such values that fill one whole note: a value lasts
    /// `1 / divisor` of a whole note.
    pub fn divisor(&self) -> (d: u32)
        ensures
            d == self.spec_divisor(),
    {
        match self {
            Value::Whole => 1,
            Value::Half => 2,
            Value::Quarter => 4,
            Value::Eighth => 8,
            Value::Sixteenth => 16,
        }
    }
}

/// The accidental of a note.
#[derive(Clone, Copy, Debug, PartialEq, Eq, Hash, Structural)]
pub enum Modifier {
    Sharp,
    Natural,
    Flat,
}

impl Modifier {
    /// The number of semitones by which the accidental moves a pitch.
    pub open spec fn shift(self) -> int {
        match self {
            Modifier::Sharp => 1,
            Modifier::Natural => 0,
            Modifier::Flat => -1,
        }
    }

    /// Position of the accidental in the order of declaration.
    pub open spec fn spec_ordinal(self) -> int {
        match self {
            Modifier::Sharp => 0,
            Modifier::Natural => 1,
            Modifier::Flat => 2,
        }
    }

    /// Position of the accidental in the order of declaration.
    pub fn ordinal(&self) -> (position: u8)
        ensures
            position == self.spec_ordinal(),
    {
        match self {
            Modifier::Sharp => 0,
            Modifier::Natural => 1,
            Modifier::Flat => 2,
        }
    }
}

/// The white keys of a piano, from the lowest to the highest.
#[derive(Clone, Copy, Debug, Ord, PartialOrd, PartialEq, Eq, Hash, Structural)]
pub enum Pitch {
    A0,
    B0,
    C1,
    D1,
    E1,
    F1,
    G1,
    A1,
    B1,
    C2,
    D2,
    E2,
    F2,
    G2,
    A2,
    B2,
    C3,
    D3,
    E3,
    F3,
    G3,
    A3,
    B3,
    C4,
    D4,
    E4,
    F4,
    G4,
    A4,
    B4,
    C5,
    D5,
    E5,
    F5,
    G5,
    A5,
    B5,
    C6,
    D6,
    E6,
    F6,
    G6,
    A6,
    B6,
    C7,
    D7,
    E7,
    F7,
    G7,
    A7,
    B7,
    C8,
}

impl Pitch {
    /// Position of the pitch among the white keys, `A0` being 0 and `C8` 51.
    pub open spec fn spec_ordinal(self) -> int {
        match self {
            Pitch::A0 => 0,
            Pitch::B0 => 1,
            Pitch::C1 => 2,
            Pitch::D1 => 3,
            Pitch::E1 => 4,
            Pitch::F1 => 5,
            Pitch::G1 => 6,
            Pitch::A1 => 7,
            Pitch::B1 => 8,
            Pitch::C2 => 9,
            Pitch::D2 => 10,
            Pitch::E2 => 11,
            Pitch::F2 => 12,
            Pitch::G2 => 13,
            Pitch::A2 => 14,
            Pitch::B2 => 15,
            Pitch::C3 => 16,
            Pitch::D3 => 17,
            Pitch::E3 => 18,
            Pitch::F3 => 19,
            Pitch::G3 => 20,
            Pitch::A3 => 21,
            Pitch::B3 => 22,
            Pitch::C4 => 23,
            Pitch::D4 => 24,
            Pitch::E4 => 25,
            Pitch::F4 => 26,
            Pitch::G4 => 27,
            Pitch::A4 => 28,
            Pitch::B4 => 29,
            Pitch::C5 => 30,
            Pitch::D5 => 31,
            Pitch::E5 => 32,
            Pitch::F5 => 33,
            Pitch::G5 => 34,
            Pitch::A5 => 35,
            Pitch::B5 => 36,
            Pitch::C6 => 37,
            Pitch::D6 => 38,
            Pitch::E6 => 39,
            Pitch::F6 => 40,
            Pitch::G6 => 41,
            Pitch::A6 => 42,
            Pitch::B6 => 43,
            Pitch::C7 => 44,
            Pitch::D7 => 45,
            Pitch::E7 => 46,
            Pitch::F7 => 47,
            Pitch::G7 => 48,
            Pitch::A7 => 49,
            Pitch::B7 => 50,
            Pitch::C8 => 51,
        }
    }

    /// Position of the pitch among the white keys, `A0` being 0 and `C8` 51.
    pub fn ordinal(&self) -> (position: u8)
        ensures
            position == self.spec_ordinal(),
    {
        match self {
            Pitch::A0 => 0,
            Pitch::B0 => 1,
            Pitch::C1 => 2,
            Pitch::D1 => 3,
            Pitch::E1 => 4,
            Pitch::F1 => 5,
            Pitch::G1 => 6,
            Pitch::A1 => 7,
            Pitch::B1 => 8,
            Pitch::C2 => 9,
            Pitch::D2 => 10,
            Pitch::E2 => 11,
            Pitch::F2 => 12,
            Pitch::G2 => 13,
            Pitch::A2 => 14,
            Pitch::B2 => 15,
            Pitch::C3 => 16,
            Pitch::D3 => 17,
            Pitch::E3 => 18,
            Pitch::F3 => 19,
            Pitch::G3 => 20,
            Pitch::A3 => 21,
            Pitch::B3 => 22,
            Pitch::C4 => 23,
            Pitch::D4 => 24,
            Pitch::E4 => 25,
            Pitch::F4 => 26,
            Pitch::G4 => 27,
            Pitch::A4 => 28,
            Pitch::B4 => 29,
            Pitch::C5 => 30,
            Pitch::D5 => 31,
            Pitch::E5 => 32,
            Pitch::F5 => 33,
            Pitch::G5 => 34,
            Pitch::A5 => 35,
            Pitch::B5 => 36,
            Pitch::C6 => 37,
            Pitch::D6 => 38,
            Pitch::E6 => 39,
            Pitch::F6 => 40,
            Pitch::G6 => 41,
            Pitch::A6 => 42,
            Pitch::B6 => 43,
            Pitch::C7 => 44,
            Pitch::D7 => 45,
            Pitch::E7 => 46,
            Pitch::F7 => 47,
            Pitch::G7 => 48,
            Pitch::A7 => 49,
            Pitch::B7 => 50,
            Pitch::C8 => 51,
        }
    }

    /// The letter of the pitch, counted from `A` (0) to `G` (6).
    pub open spec fn letter_index(self) -> int {
        self.spec_ordinal() % 7
    }

    /// The letter of the pitch as it is written.
    pub open spec fn letter(self) -> char {
        letter_char(self.letter_index())
    }

    /// The octave number in the name of the pitch. Octaves are counted from
    /// one `C` to the next, so `A` and `B` carry the number of the octave
    /// below the `C` that follows them.
    pub open spec fn octave(self) -> int {
        if self.letter_index() < 2 {
            self.spec_ordinal() / 7
        } else {
            self.spec_ordinal() / 7 + 1
        }
    }
}

/// The letter that stands at a given place of the musical alphabet.
pub open spec fn letter_char(index: int) -> char {
    if index == 0 {
        'A'
    } else if index == 1 {
        'B'
    } else if index == 2 {
        'C'
    } else if index == 3 {
        'D'
    } else if index == 4 {
        'E'
    } else if index == 5 {
        'F'
    } else {
        'G'
    }
}

/// One tone of a sheet: which key, how long, and with which accidental.
#[derive(Clone, Copy, Debug, Eq, PartialEq, Hash, Structural)]
pub struct Note {
    pub pitch: Pitch,
    pub value: Value,
    pub modifier: Modifier,
}

impl Note {
    /// The note with the given pitch, value and accidental.
    pub fn new(pitch: Pitch, value: Value, modifier: Modifier) -> (note: Note)
        ensures
            note == (Note { pitch, value, modifier }),
    {
        Note { pitch, value, modifier }
    }
}

/// The notes that sound together in one time slot. An empty line is a rest.
#[derive(Clone, Debug, PartialEq)]
pub struct Line(pub Vec<Note>);

impl View for Line {
    type V = Seq<Note>;

    open spec fn view(&self) -> Seq<Note> {
        self.0@
    }
}

/// A sheet as a mathematical value.
pub ghost struct SheetView {
    pub bpm: int,
    pub line_value: Value,
    pub lines: Seq<Seq<Note>>,
}

/// A parsed sheet: the tempo, the length of the slot that every line fills,
/// and the lines in the order in which they are played.
#[derive(Clone, Debug, PartialEq)]
pub struct Sheet {
    pub bpm: BPM,
    pub line_value: Value,
    pub lines: Vec<Line>,
}

impl View for Sheet {
    type V = SheetView;

    open spec fn view(&self) -> SheetView {
        SheetView {
            bpm: self.bpm as int,
            line_value: self.line_value,
            lines: Seq::new(self.lines@.len(), |i: int| self.lines@[i]@),
        }
    }
}

impl Sheet {
    /// The sheet with the given tempo, slot and lines.
    pub fn new(bpm: BPM, line_value: Value, lines: Vec<Line>) -> (sheet: Sheet)
        ensures
            sheet.bpm == bpm,
            sheet.line_value == line_value,
            sheet.lines == lines,
    {
        Sheet { bpm, line_value, lines }
    }
}

} // verus!

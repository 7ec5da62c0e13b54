//! The sheet parser: from text to a score.
//!
//! ```text
//! sheet    := tempo "x" value newline "--" newline lines
//! lines    := line (newline line)*
//! line     := (note (" " note)*)?
//! note     := pitch value modifier?
//! pitch    := letter digits
//! letter   := "A" | "B" | "C" | "D" | "E" | "F" | "G"
//! value    := "w" | "h" | "q" | "e" | "s"
//! modifier := "#" | "b"
//! tempo    := digits
//! newline  := "\n" | "\r\n"
//! ```
//!
//! The parsers of the parts of a sheet, from [`number_usize`] to [`line`],
//! read a prefix of their input and hand back what is left. A failure of
//! theirs is either soft, when what was looked for is not there, or fatal,
//! when it is there and names nothing. The notes of a line end at a soft
//! failure of the next note and fail as a whole at a fatal one.
//!
//! A sheet is read as a whole or not at all: [`sheet`] and [`parse`] fail
//! where a line ends before a line ending or the end of the text, with the
//! failure of what stands there. What [`sheet`] hands back is empty.
//!
//! What a parser gives is stated by a function of the same shape on
//! sequences of characters: `parse_note` for [`note`], `parse_line` for
//! [`line`], and so on. Places in a text are counted in characters.

use vstd::prelude::*;
use crate::pitch::{all_have_frequency, fundamental_frequency, has_frequency};
use crate::sheet::{Line, Modifier, Note, Pitch, Sheet, SheetView, Value, BPM};

verus! {

/// Why a parser failed.
#[derive(Clone, Copy, Debug, PartialEq, Eq, Structural)]
pub enum ParseErrorKind {
    /// A number was expected, and no digit stands there.
    Digit,
    /// The number is too large.
    Overflow,
    /// The `x` between the tempo and the value of a line is missing.
    Times,
    /// The end of a line was expected.
    LineEnding,
    /// The `--` under the header is missing.
    Rule,
    /// No code of a value stands there.
    Value,
    /// No accidental stands there.
    Modifier,
    /// No letter of a pitch stands there.
    Letter,
    /// The letter and the digits behind it name no pitch.
    Pitch,
    /// The pitch and the accidental name no key.
    PitchModifier,
}

impl ParseErrorKind {
    /// Whether the failure ends a list as a whole. What names nothing is
    /// fatal; what is merely absent is not.
    pub open spec fn is_fatal(self) -> bool {
        self == ParseErrorKind::Pitch || self == ParseErrorKind::PitchModifier
    }
}

/// A failure and the place of it: the number of characters of the input that
/// stand before the text that could not be read.
#[derive(Clone, Copy, Debug, PartialEq, Eq, Structural)]
pub struct ParseError {
    pub kind: ParseErrorKind,
    pub offset: usize,
}

impl ParseError {
    /// The text that could not be read: what stands in the input from the
    /// place of the failure on. There is none where the input is shorter
    /// than that, which the input that the failure came from never is.
    pub fn failing_text<'a>(&self, input: &'a str) -> (res: Option<&'a str>)
        ensures
            match res {
                Some(rest) => self.offset <= input@.len() && rest@ == input@.skip(
                    self.offset as int,
                ),
                None => self.offset > input@.len(),
            },
    {
        let len = input.unicode_len();
        if self.offset <= len {
            Some(input.substring_char(self.offset, len))
        } else {
            None
        }
    }
}

/// What a parser gives when it starts at one place of a text: the value and
/// the place behind it, or the failure.
pub type Parsed<T> = Result<(T, int), ParseError>;

/// The failure of the given kind at the given place.
pub open spec fn failure<T>(kind: ParseErrorKind, at: int) -> Parsed<T> {
    Err(ParseError { kind, offset: at as usize })
}

/// Whether a character is a decimal digit.
pub open spec fn spec_is_digit(c: char) -> bool {
    '0' <= c <= '9'
}

/// The number that a decimal digit stands for.
pub open spec fn digit_value(c: char) -> int {
    c as int - '0' as int
}

/// The digit that stands for a number below ten.
pub open spec fn digit_char(value: int) -> char {
    (value + '0' as int) as char
}

/// Whether the letter and the digits are the name of the pitch.
pub open spec fn names_pitch(letter: char, number: Seq<char>, pitch: Pitch) -> bool {
    letter == pitch.letter() && number == seq![digit_char(pitch.octave())]
}

/// The pitch that the letter and the digits name, if they name one.
pub open spec fn pitch_of_name(letter: char, number: Seq<char>) -> Option<Pitch> {
    if exists|pitch: Pitch| names_pitch(letter, number, pitch) {
        Some(choose|pitch: Pitch| names_pitch(letter, number, pitch))
    } else {
        None
    }
}

/// Whether a character is a decimal digit.
pub fn is_digit(input: char) -> (res: bool)
    ensures
        res == spec_is_digit(input),
{
    match input {
        '1' => true,
        '2' => true,
        '3' => true,
        '4' => true,
        '5' => true,
        '6' => true,
        '7' => true,
        '8' => true,
        '9' => true,
        '0' => true,
        _ => false,
    }
}

/// A name is the name of one pitch at most.
pub proof fn lemma_pitch_name_unique(letter: char, number: Seq<char>, one: Pitch, other: Pitch)
    requires
        names_pitch(letter, number, one),
        names_pitch(letter, number, other),
    ensures
        one == other,
{
    assert(seq![digit_char(one.octave())][0] == seq![digit_char(other.octave())][0]);
    assert(one.octave() == other.octave());
    assert(one.letter_index() == other.letter_index());
    assert(one.spec_ordinal() == other.spec_ordinal());
}

/// The pitch with the given letter and octave digit.
fn pitch_named(letter: char, octave: char) -> (res: Option<Pitch>)
    ensures
        res == pitch_of_name(letter, seq![octave]),
{
    let res = match (letter, octave) {
        ('A', '0') => Some(Pitch::A0),
        ('B', '0') => Some(Pitch::B0),
        ('C', '1') => Some(Pitch::C1),
        ('D', '1') => Some(Pitch::D1),
        ('E', '1') => Some(Pitch::E1),
        ('F', '1') => Some(Pitch::F1),
        ('G', '1') => Some(Pitch::G1),
        ('A', '1') => Some(Pitch::A1),
        ('B', '1') => Some(Pitch::B1),
        ('C', '2') => Some(Pitch::C2),
        ('D', '2') => Some(Pitch::D2),
        ('E', '2') => Some(Pitch::E2),
        ('F', '2') => Some(Pitch::F2),
        ('G', '2') => Some(Pitch::G2),
        ('A', '2') => Some(Pitch::A2),
        ('B', '2') => Some(Pitch::B2),
        ('C', '3') => Some(Pitch::C3),
        ('D', '3') => Some(Pitch::D3),
        ('E', '3') => Some(Pitch::E3),
        ('F', '3') => Some(Pitch::F3),
        ('G', '3') => Some(Pitch::G3),
        ('A', '3') => Some(Pitch::A3),
        ('B', '3') => Some(Pitch::B3),
        ('C', '4') => Some(Pitch::C4),
        ('D', '4') => Some(Pitch::D4),
        ('E', '4') => Some(Pitch::E4),
        ('F', '4') => Some(Pitch::F4),
        ('G', '4') => Some(Pitch::G4),
        ('A', '4') => Some(Pitch::A4),
        ('B', '4') => Some(Pitch::B4),
        ('C', '5') => Some(Pitch::C5),
        ('D', '5') => Some(Pitch::D5),
        ('E', '5') => Some(Pitch::E5),
        ('F', '5') => Some(Pitch::F5),
        ('G', '5') => Some(Pitch::G5),
        ('A', '5') => Some(Pitch::A5),
        ('B', '5') => Some(Pitch::B5),
        ('C', '6') => Some(Pitch::C6),
        ('D', '6') => Some(Pitch::D6),
        ('E', '6') => Some(Pitch::E6),
        ('F', '6') => Some(Pitch::F6),
        ('G', '6') => Some(Pitch::G6),
        ('A', '6') => Some(Pitch::A6),
        ('B', '6') => Some(Pitch::B6),
        ('C', '7') => Some(Pitch::C7),
        ('D', '7') => Some(Pitch::D7),
        ('E', '7') => Some(Pitch::E7),
        ('F', '7') => Some(Pitch::F7),
        ('G', '7') => Some(Pitch::G7),
        ('A', '7') => Some(Pitch::A7),
        ('B', '7') => Some(Pitch::B7),
        ('C', '8') => Some(Pitch::C8),
        _ => None,
    };
    proof {
        match res {
            Some(pitch) => {
                assert(seq![octave] =~= seq![digit_char(pitch.octave())]);
                assert(names_pitch(letter, seq![octave], pitch));
                lemma_pitch_name_unique(
                    letter,
                    seq![octave],
                    pitch,
                    pitch_of_name(letter, seq![octave])->0,
                );
            },
            None => {
                assert forall|pitch: Pitch| !names_pitch(letter, seq![octave], pitch) by {
                    if names_pitch(letter, seq![octave], pitch) {
                        assert(seq![octave][0] == seq![digit_char(pitch.octave())][0]);
                    }
                }
            },
        }
    }
    res
}

/// Finds the pitch of a name: a letter and the digits behind it.
pub fn match_pitch(letter: char, number: &str) -> (res: Option<Pitch>)
    ensures
        res == pitch_of_name(letter, number@),
{
    if number.unicode_len() == 1 {
        let octave = number.get_char(0);
        assert(number@ =~= seq![octave]);
        pitch_named(letter, octave)
    } else {
        assert forall|pitch: Pitch| !names_pitch(letter, number@, pitch) by {
            assert(seq![digit_char(pitch.octave())].len() == 1);
        }
        None
    }
}

/// The characters of a text.
fn chars_of(input: &str) -> (chars: Vec<char>)
    ensures
        chars@ == input@,
{
    broadcast use vstd::string::group_string_axioms;

    let mut chars: Vec<char> = Vec::new();
    for c in it: input.chars()
        invariant
            it.seq() == input@,
            chars@ == input@.take(it.index()),
    {
        chars.push(c);
    }
    chars
}

/// What is left of a text behind its first `from` characters.
fn rest_of<'a>(input: &'a str, chars: &Vec<char>, from: usize) -> (rest: &'a str)
    requires
        chars@ == input@,
        from <= chars.len(),
    ensures
        rest@ == input@.skip(from as int),
{
    input.substring_char(from, chars.len())
}

/// Whether what a public parser gave is what was expected of it: the same
/// value with the text behind it, or the same failure.
pub open spec fn reads<'a, T>(
    input: Seq<char>,
    res: Result<(&'a str, T), ParseError>,
    expected: Parsed<T>,
) -> bool {
    match expected {
        Ok((value, end)) => res matches Ok((rest, found)) && found == value && rest@ == input.skip(
            end,
        ),
        Err(error) => res matches Err(found) && found == error,
    }
}

/// The same for a parser that works on characters and places.
pub open spec fn finds<T>(res: Result<(T, usize), ParseError>, expected: Parsed<T>) -> bool {
    match expected {
        Ok((value, end)) => res matches Ok((found, to)) && found == value && to == end,
        Err(error) => res matches Err(found) && found == error,
    }
}

/// The place behind the digits that start at `from`.
pub open spec fn digits_end(text: Seq<char>, from: int) -> int
    decreases text.len() - from,
{
    if 0 <= from < text.len() && spec_is_digit(text[from]) {
        digits_end(text, from + 1)
    } else {
        from
    }
}

/// The number that the digits from `from` up to `to` spell in base ten.
pub open spec fn decimal(text: Seq<char>, from: int, to: int) -> int
    decreases to - from,
{
    if to <= from {
        0
    } else {
        10 * decimal(text, from, to - 1) + digit_value(text[to - 1])
    }
}

/// A number: one digit or more, with a value that fits.
pub open spec fn parse_number(text: Seq<char>, from: int) -> Parsed<usize> {
    let to = digits_end(text, from);
    if to == from {
        failure(ParseErrorKind::Digit, from)
    } else if decimal(text, from, to) > usize::MAX {
        failure(ParseErrorKind::Overflow, from)
    } else {
        Ok((decimal(text, from, to) as usize, to))
    }
}

/// The value that a code stands for.
pub open spec fn value_of_code(code: char) -> Option<Value> {
    if code == 'w' {
        Some(Value::Whole)
    } else if code == 'h' {
        Some(Value::Half)
    } else if code == 'q' {
        Some(Value::Quarter)
    } else if code == 'e' {
        Some(Value::Eighth)
    } else if code == 's' {
        Some(Value::Sixteenth)
    } else {
        None
    }
}

/// A value: one of its five codes.
pub open spec fn parse_value(text: Seq<char>, from: int) -> Parsed<Value> {
    if 0 <= from < text.len() {
        match value_of_code(text[from]) {
            Some(value) => Ok((value, from + 1)),
            None => failure(ParseErrorKind::Value, from),
        }
    } else {
        failure(ParseErrorKind::Value, from)
    }
}

/// An accidental that is written out: `#` or `b`.
pub open spec fn parse_modifier(text: Seq<char>, from: int) -> Parsed<Modifier> {
    if 0 <= from < text.len() && text[from] == '#' {
        Ok((Modifier::Sharp, from + 1))
    } else if 0 <= from < text.len() && text[from] == 'b' {
        Ok((Modifier::Flat, from + 1))
    } else {
        failure(ParseErrorKind::Modifier, from)
    }
}

/// Whether a character is the letter of a pitch.
pub open spec fn is_letter(c: char) -> bool {
    'A' <= c <= 'G'
}

/// A pitch: a letter and the digits behind it, which together must be the
/// name of a pitch.
pub open spec fn parse_pitch(text: Seq<char>, from: int) -> Parsed<Pitch> {
    if 0 <= from < text.len() && is_letter(text[from]) {
        let to = digits_end(text, from + 1);
        match pitch_of_name(text[from], text.subrange(from + 1, to)) {
            Some(pitch) => Ok((pitch, to)),
            None => failure(ParseErrorKind::Pitch, from),
        }
    } else {
        failure(ParseErrorKind::Letter, from)
    }
}

/// A note: a pitch, a value and perhaps an accidental; without one the note
/// is natural. The pitch and the accidental must name a key.
pub open spec fn parse_note(text: Seq<char>, from: int) -> Parsed<Note> {
    match parse_pitch(text, from) {
        Err(error) => Err(error),
        Ok((pitch, at_value)) => match parse_value(text, at_value) {
            Err(error) => Err(error),
            Ok((value, at_modifier)) => {
                let (modifier, to) = match parse_modifier(text, at_modifier) {
                    Ok(found) => found,
                    Err(_) => (Modifier::Natural, at_modifier),
                };
                if has_frequency(pitch, modifier) {
                    Ok((Note { pitch, value, modifier }, to))
                } else {
                    failure(ParseErrorKind::PitchModifier, from)
                }
            },
        },
    }
}

/// The digits that start at a place end inside the text, and what stands
/// between is digits and nothing else.
pub proof fn lemma_digits_end(text: Seq<char>, from: int)
    requires
        0 <= from <= text.len(),
    ensures
        from <= digits_end(text, from) <= text.len(),
        forall|i: int| from <= i < digits_end(text, from) ==> spec_is_digit(#[trigger] text[i]),
        digits_end(text, from) < text.len() ==> !spec_is_digit(text[digits_end(text, from)]),
    decreases text.len() - from,
{
    if from < text.len() && spec_is_digit(text[from]) {
        lemma_digits_end(text, from + 1);
    }
}

/// More digits spell no smaller number.
pub proof fn lemma_decimal_grows(text: Seq<char>, from: int, mid: int, to: int)
    requires
        0 <= from <= mid <= to <= text.len(),
        forall|i: int| from <= i < to ==> spec_is_digit(#[trigger] text[i]),
    ensures
        0 <= decimal(text, from, mid) <= decimal(text, from, to),
    decreases to - mid,
{
    if mid < to {
        lemma_decimal_grows(text, from, mid, to - 1);
        assert(spec_is_digit(text[to - 1]));
    } else {
        lemma_decimal_nonnegative(text, from, mid);
    }
}

proof fn lemma_decimal_nonnegative(text: Seq<char>, from: int, to: int)
    requires
        0 <= from <= to <= text.len(),
        forall|i: int| from <= i < to ==> spec_is_digit(#[trigger] text[i]),
    ensures
        0 <= decimal(text, from, to),
    decreases to - from,
{
    if from < to {
        lemma_decimal_nonnegative(text, from, to - 1);
        assert(spec_is_digit(text[to - 1]));
    }
}

/// The number that a digit stands for.
fn digit_of(c: char) -> (d: usize)
    requires
        spec_is_digit(c),
    ensures
        d == digit_value(c),
{
    match c {
        '1' => 1,
        '2' => 2,
        '3' => 3,
        '4' => 4,
        '5' => 5,
        '6' => 6,
        '7' => 7,
        '8' => 8,
        '9' => 9,
        _ => 0,
    }
}

fn number_at(chars: &Vec<char>, from: usize) -> (res: Result<(usize, usize), ParseError>)
    requires
        from <= chars.len(),
    ensures
        finds(res, parse_number(chars@, from as int)),
{
    let ghost text = chars@;
    let ghost end = digits_end(text, from as int);
    proof {
        lemma_digits_end(text, from as int);
    }
    let mut at = from;
    let mut value: usize = 0;
    while at < chars.len() && is_digit(chars[at])
        invariant
            text == chars@,
            end == digits_end(text, from as int),
            from <= at <= end <= chars.len(),
            end == digits_end(text, at as int),
            forall|i: int| from <= i < end ==> spec_is_digit(#[trigger] text[i]),
            value == decimal(text, from as int, at as int),
        decreases chars.len() - at,
    {
        let digit = digit_of(chars[at]);
        proof {
            lemma_digits_end(text, at + 1);
            lemma_decimal_grows(text, from as int, at + 1, end);
        }
        let tens = match value.checked_mul(10) {
            Some(tens) => tens,
            None => {
                return Err(ParseError { kind: ParseErrorKind::Overflow, offset: from });
            },
        };
        value = match tens.checked_add(digit) {
            Some(sum) => sum,
            None => {
                return Err(ParseError { kind: ParseErrorKind::Overflow, offset: from });
            },
        };
        at = at + 1;
    }
    if at == from {
        Err(ParseError { kind: ParseErrorKind::Digit, offset: from })
    } else {
        Ok((value, at))
    }
}

fn value_at(chars: &Vec<char>, from: usize) -> (res: Result<(Value, usize), ParseError>)
    requires
        from <= chars.len(),
    ensures
        finds(res, parse_value(chars@, from as int)),
{
    if from < chars.len() {
        let out = match chars[from] {
            'w' => Value::Whole,
            'h' => Value::Half,
            'q' => Value::Quarter,
            'e' => Value::Eighth,
            's' => Value::Sixteenth,
            _ => {
                return Err(ParseError { kind: ParseErrorKind::Value, offset: from });
            },
        };
        Ok((out, from + 1))
    } else {
        Err(ParseError { kind: ParseErrorKind::Value, offset: from })
    }
}

fn modifier_at(chars: &Vec<char>, from: usize) -> (res: Result<(Modifier, usize), ParseError>)
    requires
        from <= chars.len(),
    ensures
        finds(res, parse_modifier(chars@, from as int)),
{
    if from < chars.len() {
        let out = match chars[from] {
            '#' => Modifier::Sharp,
            'b' => Modifier::Flat,
            _ => {
                return Err(ParseError { kind: ParseErrorKind::Modifier, offset: from });
            },
        };
        Ok((out, from + 1))
    } else {
        Err(ParseError { kind: ParseErrorKind::Modifier, offset: from })
    }
}

/// The place behind the digits that start at `from`.
fn skip_digits(chars: &Vec<char>, from: usize) -> (to: usize)
    requires
        from <= chars.len(),
    ensures
        to == digits_end(chars@, from as int),
        from <= to <= chars.len(),
{
    proof {
        lemma_digits_end(chars@, from as int);
    }
    let mut at = from;
    while at < chars.len() && is_digit(chars[at])
        invariant
            from <= at <= chars.len(),
            digits_end(chars@, from as int) == digits_end(chars@, at as int),
        decreases chars.len() - at,
    {
        at = at + 1;
    }
    at
}

fn pitch_at(chars: &Vec<char>, from: usize) -> (res: Result<(Pitch, usize), ParseError>)
    requires
        from <= chars.len(),
    ensures
        finds(res, parse_pitch(chars@, from as int)),
{
    if from >= chars.len() {
        return Err(ParseError { kind: ParseErrorKind::Letter, offset: from });
    }
    let letter = chars[from];
    match letter {
        'A' | 'B' | 'C' | 'D' | 'E' | 'F' | 'G' => {},
        _ => {
            return Err(ParseError { kind: ParseErrorKind::Letter, offset: from });
        },
    }
    let to = skip_digits(chars, from + 1);
    let ghost number = chars@.subrange(from + 1, to as int);
    let found = if to - from == 2 {
        assert(number =~= seq![chars@[from + 1]]);
        pitch_named(letter, chars[from + 1])
    } else {
        assert forall|pitch: Pitch| !names_pitch(letter, number, pitch) by {
            assert(seq![digit_char(pitch.octave())].len() == 1);
        }
        None
    };
    match found {
        Some(pitch) => Ok((pitch, to)),
        None => Err(ParseError { kind: ParseErrorKind::Pitch, offset: from }),
    }
}

fn note_at(chars: &Vec<char>, from: usize) -> (res: Result<(Note, usize), ParseError>)
    requires
        from <= chars.len(),
    ensures
        finds(res, parse_note(chars@, from as int)),
        res matches Ok((_, to)) ==> from < to <= chars.len(),
{
    let (pitch, at_value) = match pitch_at(chars, from) {
        Ok(found) => found,
        Err(error) => {
            return Err(error);
        },
    };
    proof {
        lemma_digits_end(chars@, from + 1);
    }
    let (value, at_modifier) = match value_at(chars, at_value) {
        Ok(found) => found,
        Err(error) => {
            return Err(error);
        },
    };
    let (modifier, to) = match modifier_at(chars, at_modifier) {
        Ok(found) => found,
        Err(_) => (Modifier::Natural, at_modifier),
    };
    let note = Note { pitch, value, modifier };
    match fundamental_frequency(&note) {
        Ok(_) => Ok((note, to)),
        Err(_) => Err(ParseError { kind: ParseErrorKind::PitchModifier, offset: from }),
    }
}

/// Reads a number: one digit or more, with a value that fits.
pub fn number_usize(input: &str) -> (res: Result<(&str, usize), ParseError>)
    ensures
        reads(input@, res, parse_number(input@, 0)),
{
    let chars = chars_of(input);
    match number_at(&chars, 0) {
        Ok((number, to)) => {
            proof {
                lemma_digits_end(chars@, 0);
            }
            Ok((rest_of(input, &chars, to), number))
        },
        Err(error) => Err(error),
    }
}

/// Reads a value: one of the codes `w`, `h`, `q`, `e` and `s`.
pub fn value(input: &str) -> (res: Result<(&str, Value), ParseError>)
    ensures
        reads(input@, res, parse_value(input@, 0)),
{
    let chars = chars_of(input);
    match value_at(&chars, 0) {
        Ok((value, to)) => Ok((rest_of(input, &chars, to), value)),
        Err(error) => Err(error),
    }
}

/// Reads an accidental: `#` or `b`.
pub fn modifier(input: &str) -> (res: Result<(&str, Modifier), ParseError>)
    ensures
        reads(input@, res, parse_modifier(input@, 0)),
{
    let chars = chars_of(input);
    match modifier_at(&chars, 0) {
        Ok((modifier, to)) => Ok((rest_of(input, &chars, to), modifier)),
        Err(error) => Err(error),
    }
}

/// Reads a pitch: a letter from `A` to `G` and the digits behind it.
pub fn pitch(input: &str) -> (res: Result<(&str, Pitch), ParseError>)
    ensures
        reads(input@, res, parse_pitch(input@, 0)),
{
    let chars = chars_of(input);
    match pitch_at(&chars, 0) {
        Ok((pitch, to)) => {
            proof {
                lemma_digits_end(chars@, 1);
            }
            Ok((rest_of(input, &chars, to), pitch))
        },
        Err(error) => Err(error),
    }
}

/// Reads a note: a pitch, a value and perhaps an accidental.
pub fn note(input: &str) -> (res: Result<(&str, Note), ParseError>)
    ensures
        reads(input@, res, parse_note(input@, 0)),
{
    let chars = chars_of(input);
    match note_at(&chars, 0) {
        Ok((note, to)) => Ok((rest_of(input, &chars, to), note)),
        Err(error) => Err(error),
    }
}

/// A list with more items put before it; a failure stays what it is.
pub open spec fn prepend<T>(before: Seq<T>, rest: Parsed<Seq<T>>) -> Parsed<Seq<T>> {
    match rest {
        Ok((items, end)) => Ok((before + items, end)),
        Err(error) => Err(error),
    }
}

/// The notes that follow the first note of a line, each behind one space.
/// The list ends before a space that no note follows.
pub open spec fn parse_more_notes(text: Seq<char>, from: int) -> Parsed<Seq<Note>>
    decreases text.len() - from,
{
    if 0 <= from < text.len() && text[from] == ' ' {
        match parse_note(text, from + 1) {
            Ok((note, to)) => {
                proof {
                    lemma_note_advances(text, from + 1);
                }
                prepend(seq![note], parse_more_notes(text, to))
            },
            Err(error) => {
                if error.kind.is_fatal() {
                    Err(error)
                } else {
                    Ok((Seq::empty(), from))
                }
            },
        }
    } else {
        Ok((Seq::empty(), from))
    }
}

/// A line: notes with one space between them, or nothing, which is a rest.
pub open spec fn parse_line(text: Seq<char>, from: int) -> Parsed<Seq<Note>> {
    match parse_note(text, from) {
        Ok((note, to)) => prepend(seq![note], parse_more_notes(text, to)),
        Err(error) => {
            if error.kind.is_fatal() {
                Err(error)
            } else {
                Ok((Seq::empty(), from))
            }
        },
    }
}

/// The length of the line ending that stands at `from`, a line feed with or
/// without a carriage return before it; 0 where none stands.
pub open spec fn line_ending_len(text: Seq<char>, from: int) -> int {
    if 0 <= from < text.len() && text[from] == '\n' {
        1
    } else if 0 <= from && from + 1 < text.len() && text[from] == '\r' && text[from + 1] == '\n' {
        2
    } else {
        0
    }
}

/// Why a line that was read from `from` up to `to` has ended there, where
/// neither a line ending nor the end of the text stands: the failure of the
/// note that would have been its first, or of the note behind the space
/// that stands there, or else the want of a line ending.
pub open spec fn line_stop(text: Seq<char>, from: int, to: int) -> ParseError {
    let note_from = if to == from {
        from
    } else {
        to + 1
    };
    if to == from || (0 <= to < text.len() && text[to] == ' ') {
        match parse_note(text, note_from) {
            Err(error) => error,
            Ok(_) => ParseError { kind: ParseErrorKind::LineEnding, offset: to as usize },
        }
    } else {
        ParseError { kind: ParseErrorKind::LineEnding, offset: to as usize }
    }
}

/// The lines of a sheet: one line, and one more behind every line ending,
/// up to the end of the text. A line that ends anywhere else is a failure.
pub open spec fn parse_lines(text: Seq<char>, from: int) -> Parsed<Seq<Seq<Note>>>
    decreases text.len() - from,
{
    match parse_line(text, from) {
        Err(error) => Err(error),
        Ok((line, to)) => {
            let ending = line_ending_len(text, to);
            if ending != 0 {
                proof {
                    if 0 <= from <= text.len() {
                        lemma_line_advances(text, from);
                    }
                }
                prepend(seq![line], parse_lines(text, to + ending))
            } else if to == text.len() {
                Ok((seq![line], to))
            } else {
                Err(line_stop(text, from, to))
            }
        },
    }
}

/// Whether the rule `--` stands at `from`.
pub open spec fn rule_at(text: Seq<char>, from: int) -> bool {
    0 <= from && from + 1 < text.len() && text[from] == '-' && text[from + 1] == '-'
}

/// A sheet: the header line with the tempo, an `x` and the value of a line,
/// the rule, and the lines up to the end of the text.
pub open spec fn parse_sheet(text: Seq<char>, from: int) -> Parsed<SheetView> {
    match parse_number(text, from) {
        Err(error) => Err(error),
        Ok((tempo, at_times)) => {
            if tempo > BPM::MAX {
                failure(ParseErrorKind::Overflow, from)
            } else if !(0 <= at_times < text.len() && text[at_times] == 'x') {
                failure(ParseErrorKind::Times, at_times)
            } else {
                match parse_value(text, at_times + 1) {
                    Err(error) => Err(error),
                    Ok((line_value, at_break)) => {
                        let at_rule = at_break + line_ending_len(text, at_break);
                        let at_lines = at_rule + 2 + line_ending_len(text, at_rule + 2);
                        if at_rule == at_break {
                            failure(ParseErrorKind::LineEnding, at_break)
                        } else if !rule_at(text, at_rule) {
                            failure(ParseErrorKind::Rule, at_rule)
                        } else if at_lines == at_rule + 2 {
                            failure(ParseErrorKind::LineEnding, at_rule + 2)
                        } else {
                            match parse_lines(text, at_lines) {
                                Err(error) => Err(error),
                                Ok((lines, end)) => Ok(
                                    (SheetView { bpm: tempo as int, line_value, lines }, end),
                                ),
                            }
                        }
                    },
                }
            }
        },
    }
}

/// A text as a sheet.
pub open spec fn parse_text(text: Seq<char>) -> Result<SheetView, ParseError> {
    match parse_sheet(text, 0) {
        Err(error) => Err(error),
        Ok((sheet, _)) => Ok(sheet),
    }
}

/// The lines of a score as sequences of notes.
pub open spec fn lines_view(lines: Seq<Line>) -> Seq<Seq<Note>> {
    Seq::new(lines.len(), |i: int| lines[i]@)
}

impl ParseErrorKind {
    /// Whether the failure ends a list as a whole.
    pub fn fatal(&self) -> (res: bool)
        ensures
            res == self.is_fatal(),
    {
        match self {
            ParseErrorKind::Pitch => true,
            ParseErrorKind::PitchModifier => true,
            _ => false,
        }
    }
}

/// A note that is read ends behind the place where it starts.
pub proof fn lemma_note_advances(text: Seq<char>, from: int)
    requires
        0 <= from <= text.len(),
    ensures
        parse_note(text, from) matches Ok((_, to)) ==> from < to <= text.len(),
{
    lemma_digits_end(text, if from < text.len() { from + 1 } else { from });
}

/// A line ends inside the text, not before the place where it starts.
pub proof fn lemma_line_advances(text: Seq<char>, from: int)
    requires
        0 <= from <= text.len(),
    ensures
        parse_line(text, from) matches Ok((_, to)) ==> from <= to <= text.len(),
{
    lemma_note_advances(text, from);
    if let Ok((_, to)) = parse_note(text, from) {
        lemma_more_notes_advance(text, to);
    }
}

proof fn lemma_more_notes_advance(text: Seq<char>, from: int)
    requires
        0 <= from <= text.len(),
    ensures
        parse_more_notes(text, from) matches Ok((_, to)) ==> from <= to <= text.len(),
    decreases text.len() - from,
{
    if from < text.len() && text[from] == ' ' {
        lemma_note_advances(text, from + 1);
        if let Ok((_, to)) = parse_note(text, from + 1) {
            lemma_more_notes_advance(text, to);
        }
    }
}

fn line_at(chars: &Vec<char>, from: usize) -> (res: Result<(Line, usize), ParseError>)
    requires
        from <= chars.len(),
    ensures
        match parse_line(chars@, from as int) {
            Ok((notes, end)) => res matches Ok((line, to)) && line@ == notes && to == end,
            Err(error) => res matches Err(found) && found == error,
        },
        res matches Ok((_, to)) ==> from <= to <= chars.len(),
{
    let ghost text = chars@;
    let mut notes: Vec<Note> = Vec::new();
    let mut at = match note_at(chars, from) {
        Ok((note, to)) => {
            notes.push(note);
            to
        },
        Err(error) => {
            if error.kind.fatal() {
                return Err(error);
            } else {
                return Ok((Line(notes), from));
            }
        },
    };
    loop
        invariant
            text == chars@,
            from <= at <= chars.len(),
            parse_line(text, from as int) == prepend(notes@, parse_more_notes(text, at as int)),
        decreases chars.len() - at,
    {
        if at >= chars.len() || chars[at] != ' ' {
            assert(notes@ + Seq::<Note>::empty() =~= notes@);
            return Ok((Line(notes), at));
        }
        match note_at(chars, at + 1) {
            Ok((note, to)) => {
                proof {
                    let more = parse_more_notes(text, to as int);
                    if let Ok((items, end)) = more {
                        assert(notes@ + (seq![note] + items) =~= notes@.push(note) + items);
                    }
                }
                notes.push(note);
                at = to;
            },
            Err(error) => {
                if error.kind.fatal() {
                    return Err(error);
                } else {
                    assert(notes@ + Seq::<Note>::empty() =~= notes@);
                    return Ok((Line(notes), at));
                }
            },
        }
    }
}

/// The length of the line ending that stands at `from`; 0 where none stands.
fn line_ending_at(chars: &Vec<char>, from: usize) -> (len: usize)
    requires
        from <= chars.len(),
    ensures
        len == line_ending_len(chars@, from as int),
        from + len <= chars.len(),
{
    if from < chars.len() && chars[from] == '\n' {
        1
    } else if from < chars.len() && from + 1 < chars.len() && chars[from] == '\r'
        && chars[from + 1] == '\n' {
        2
    } else {
        0
    }
}

/// Why a line has ended where neither a line ending nor the end of the
/// text stands.
fn stop_of_line(chars: &Vec<char>, from: usize, to: usize) -> (error: ParseError)
    requires
        from <= to < chars.len(),
    ensures
        error == line_stop(chars@, from as int, to as int),
{
    let stopped = ParseError { kind: ParseErrorKind::LineEnding, offset: to };
    if to == from {
        match note_at(chars, from) {
            Err(error) => error,
            Ok(_) => stopped,
        }
    } else if chars[to] == ' ' {
        match note_at(chars, to + 1) {
            Err(error) => error,
            Ok(_) => stopped,
        }
    } else {
        stopped
    }
}

fn lines_at(chars: &Vec<char>, from: usize) -> (res: Result<(Vec<Line>, usize), ParseError>)
    requires
        from <= chars.len(),
    ensures
        match parse_lines(chars@, from as int) {
            Ok((lines, end)) => res matches Ok((found, to)) && lines_view(found@) == lines && to
                == end,
            Err(error) => res matches Err(found) && found == error,
        },
        res matches Ok((_, to)) ==> to == chars.len(),
{
    let ghost text = chars@;
    let mut lines: Vec<Line> = Vec::new();
    let mut at = from;
    loop
        invariant
            text == chars@,
            from <= at <= chars.len(),
            parse_lines(text, from as int) == prepend(
                lines_view(lines@),
                parse_lines(text, at as int),
            ),
        decreases chars.len() - at,
    {
        let (line, to) = match line_at(chars, at) {
            Ok(found) => found,
            Err(error) => {
                return Err(error);
            },
        };
        let ending = line_ending_at(chars, to);
        proof {
            let done = lines_view(lines@);
            let next = lines_view(lines@.push(line));
            assert(next =~= done.push(line@));
            if ending == 0 {
                assert(done + seq![line@] =~= next);
            } else if let Ok((items, end)) = parse_lines(text, to + ending) {
                assert(done + (seq![line@] + items) =~= next + items);
            }
        }
        if ending == 0 {
            if to == chars.len() {
                lines.push(line);
                return Ok((lines, to));
            }
            return Err(stop_of_line(chars, at, to));
        }
        lines.push(line);
        at = to + ending;
    }
}

fn sheet_at(chars: &Vec<char>, from: usize) -> (res: Result<(Sheet, usize), ParseError>)
    requires
        from <= chars.len(),
    ensures
        match parse_sheet(chars@, from as int) {
            Ok((sheet, end)) => res matches Ok((found, to)) && found@ == sheet && to == end,
            Err(error) => res matches Err(found) && found == error,
        },
        res matches Ok((_, to)) ==> to == chars.len(),
{
    let (tempo, at_times) = match number_at(chars, from) {
        Ok(found) => found,
        Err(error) => {
            return Err(error);
        },
    };
    proof {
        lemma_digits_end(chars@, from as int);
    }
    if tempo > BPM::MAX as usize {
        return Err(ParseError { kind: ParseErrorKind::Overflow, offset: from });
    }
    if at_times >= chars.len() || chars[at_times] != 'x' {
        return Err(ParseError { kind: ParseErrorKind::Times, offset: at_times });
    }
    let (line_value, at_break) = match value_at(chars, at_times + 1) {
        Ok(found) => found,
        Err(error) => {
            return Err(error);
        },
    };
    let first = line_ending_at(chars, at_break);
    if first == 0 {
        return Err(ParseError { kind: ParseErrorKind::LineEnding, offset: at_break });
    }
    let at_rule = at_break + first;
    let ruled = at_rule < chars.len() && at_rule + 1 < chars.len() && chars[at_rule] == '-'
        && chars[at_rule + 1] == '-';
    if !ruled {
        return Err(ParseError { kind: ParseErrorKind::Rule, offset: at_rule });
    }
    let second = line_ending_at(chars, at_rule + 2);
    if second == 0 {
        return Err(ParseError { kind: ParseErrorKind::LineEnding, offset: at_rule + 2 });
    }
    match lines_at(chars, at_rule + 2 + second) {
        Ok((lines, to)) => {
            let sheet = Sheet::new(tempo as BPM, line_value, lines);
            assert(sheet@.lines =~= lines_view(lines@));
            Ok((sheet, to))
        },
        Err(error) => Err(error),
    }
}

/// Reads a line: notes with one space between them. What no note can be
/// read from is left over, so a line may be empty.
pub fn line(input: &str) -> (res: Result<(&str, Line), ParseError>)
    ensures
        match parse_line(input@, 0) {
            Ok((notes, end)) => res matches Ok((rest, line)) && line@ == notes && rest@
                == input@.skip(end),
            Err(error) => res matches Err(found) && found == error,
        },
{
    let chars = chars_of(input);
    match line_at(&chars, 0) {
        Ok((line, to)) => Ok((rest_of(input, &chars, to), line)),
        Err(error) => Err(error),
    }
}

/// Reads a text as a sheet. The text is a sheet as a whole or not at all:
/// where a line ends before a line ending or the end of the text, the sheet
/// fails with the failure of what stands there. What is handed back beside
/// the sheet is what is left of the text, which is nothing.
pub fn sheet(input: &str) -> (res: Result<(&str, Sheet), ParseError>)
    ensures
        match parse_sheet(input@, 0) {
            Ok((sheet, end)) => res matches Ok((rest, found)) && found@ == sheet && rest@
                == input@.skip(end),
            Err(error) => res matches Err(found) && found == error,
        },
        res matches Ok((rest, _)) ==> rest@.len() == 0,
{
    let chars = chars_of(input);
    match sheet_at(&chars, 0) {
        Ok((sheet, to)) => Ok((rest_of(input, &chars, to), sheet)),
        Err(error) => Err(error),
    }
}

/// Reads a text as a sheet, as [`sheet`] does, and gives the sheet alone.
pub fn parse(text: &str) -> (res: Result<Sheet, ParseError>)
    ensures
        match parse_text(text@) {
            Ok(sheet) => res matches Ok(found) && found@ == sheet,
            Err(error) => res matches Err(found) && found == error,
        },
{
    let chars = chars_of(text);
    match sheet_at(&chars, 0) {
        Ok((sheet, _)) => Ok(sheet),
        Err(error) => Err(error),
    }
}

proof fn lemma_more_notes_have_frequency(text: Seq<char>, from: int)
    requires
        0 <= from <= text.len(),
    ensures
        parse_more_notes(text, from) matches Ok((notes, _)) ==> forall|j: int|
            0 <= j < notes.len() ==> has_frequency((#[trigger] notes[j]).pitch, notes[j].modifier),
    decreases text.len() - from,
{
    if from < text.len() && text[from] == ' ' {
        lemma_note_advances(text, from + 1);
        if let Ok((_, to)) = parse_note(text, from + 1) {
            lemma_more_notes_have_frequency(text, to);
        }
    }
}

/// Every note of a line that is read names a key.
pub proof fn lemma_line_has_frequency(text: Seq<char>, from: int)
    requires
        0 <= from <= text.len(),
    ensures
        parse_line(text, from) matches Ok((notes, _)) ==> forall|j: int|
            0 <= j < notes.len() ==> has_frequency((#[trigger] notes[j]).pitch, notes[j].modifier),
{
    lemma_note_advances(text, from);
    if let Ok((_, to)) = parse_note(text, from) {
        lemma_more_notes_have_frequency(text, to);
    }
}

proof fn lemma_lines_have_frequency(text: Seq<char>, from: int)
    requires
        0 <= from <= text.len(),
    ensures
        parse_lines(text, from) matches Ok((lines, _)) ==> all_have_frequency(lines),
    decreases text.len() - from,
{
    lemma_line_has_frequency(text, from);
    lemma_line_advances(text, from);
    if let Ok((line, to)) = parse_line(text, from) {
        let ending = line_ending_len(text, to);
        if ending != 0 {
            lemma_lines_have_frequency(text, to + ending);
            if let Ok((more, _)) = parse_lines(text, to + ending) {
                let lines = seq![line] + more;
                assert forall|i: int, j: int|
                    0 <= i < lines.len() && 0 <= j < lines[i].len() implies has_frequency(
                    (#[trigger] lines[i][j]).pitch,
                    lines[i][j].modifier,
                ) by {
                    if i > 0 {
                        assert(lines[i] == more[i - 1]);
                    }
                }
            }
        }
    }
}

/// Every note of a sheet that is read names a key: a text with a note that
/// names none is no sheet.
pub proof fn lemma_parsed_notes_have_frequency(text: Seq<char>)
    ensures
        parse_sheet(text, 0) matches Ok((sheet, _)) ==> all_have_frequency(sheet.lines),
        parse_text(text) matches Ok(sheet) ==> all_have_frequency(sheet.lines),
{
    lemma_digits_end(text, 0);
    if let Ok((_, at_times)) = parse_number(text, 0) {
        if let Ok((_, at_break)) = parse_value(text, at_times + 1) {
            let at_rule = at_break + line_ending_len(text, at_break);
            let at_lines = at_rule + 2 + line_ending_len(text, at_rule + 2);
            if 0 <= at_lines <= text.len() {
                lemma_lines_have_frequency(text, at_lines);
            }
        }
    }
}

proof fn lemma_more_notes_stop(text: Seq<char>, from: int)
    requires
        0 <= from <= text.len(),
    ensures
        parse_more_notes(text, from) matches Ok((_, to)) ==> (to < text.len() && text[to] == ' '
            ==> parse_note(text, to + 1) is Err),
    decreases text.len() - from,
{
    if from < text.len() && text[from] == ' ' {
        lemma_note_advances(text, from + 1);
        if let Ok((_, to)) = parse_note(text, from + 1) {
            lemma_more_notes_stop(text, to);
        }
    }
}

/// A line ends where no further note can be read: an empty line where its
/// first note fails, and a line with notes, if before a space, where the
/// note behind the space fails. So where a sheet fails because a line has
/// ended there, it fails with the failure of that note.
pub proof fn lemma_line_stops_at_failure(text: Seq<char>, from: int)
    requires
        0 <= from <= text.len(),
    ensures
        parse_line(text, from) matches Ok((_, to)) ==> ({
            &&& to == from ==> parse_note(text, from) == Err::<(Note, int), ParseError>(
                line_stop(text, from, to),
            )
            &&& from < to < text.len() && text[to] == ' ' ==> parse_note(text, to + 1) == Err::<
                (Note, int),
                ParseError,
            >(line_stop(text, from, to))
        }),
{
    lemma_note_advances(text, from);
    if let Ok((_, at)) = parse_note(text, from) {
        lemma_more_notes_advance(text, at);
        lemma_more_notes_stop(text, at);
    }
}

proof fn lemma_note_failure_inside(text: Seq<char>, from: int)
    requires
        0 <= from <= text.len() <= usize::MAX,
    ensures
        parse_note(text, from) matches Err(error) ==> from <= error.offset <= text.len(),
{
    lemma_digits_end(text, if from < text.len() { from + 1 } else { from });
}

proof fn lemma_more_notes_failure_inside(text: Seq<char>, from: int)
    requires
        0 <= from <= text.len() <= usize::MAX,
    ensures
        parse_more_notes(text, from) matches Err(error) ==> from <= error.offset <= text.len(),
    decreases text.len() - from,
{
    if from < text.len() && text[from] == ' ' {
        lemma_note_advances(text, from + 1);
        lemma_note_failure_inside(text, from + 1);
        if let Ok((_, to)) = parse_note(text, from + 1) {
            lemma_more_notes_failure_inside(text, to);
        }
    }
}

proof fn lemma_line_failure_inside(text: Seq<char>, from: int)
    requires
        0 <= from <= text.len() <= usize::MAX,
    ensures
        parse_line(text, from) matches Err(error) ==> from <= error.offset <= text.len(),
{
    lemma_note_advances(text, from);
    lemma_note_failure_inside(text, from);
    if let Ok((_, to)) = parse_note(text, from) {
        lemma_more_notes_failure_inside(text, to);
    }
}

proof fn lemma_lines_failure_inside(text: Seq<char>, from: int)
    requires
        0 <= from <= text.len() <= usize::MAX,
    ensures
        parse_lines(text, from) matches Err(error) ==> from <= error.offset <= text.len(),
        parse_lines(text, from) matches Ok((_, end)) ==> end == text.len(),
    decreases text.len() - from,
{
    lemma_line_advances(text, from);
    lemma_line_failure_inside(text, from);
    if let Ok((_, to)) = parse_line(text, from) {
        let ending = line_ending_len(text, to);
        if ending != 0 {
            lemma_lines_failure_inside(text, to + ending);
        } else if to < text.len() {
            lemma_note_failure_inside(text, from);
            lemma_note_failure_inside(text, to + 1);
        }
    }
}

/// A sheet is read from a text as a whole, and a failure lies inside the
/// text: the text that could not be read is a part of it, be it an empty
/// one at its end.
pub proof fn lemma_failure_inside_text(text: Seq<char>)
    requires
        text.len() <= usize::MAX,
    ensures
        parse_sheet(text, 0) matches Ok((_, end)) ==> end == text.len(),
        parse_sheet(text, 0) matches Err(error) ==> error.offset <= text.len(),
        parse_text(text) matches Err(error) ==> error.offset <= text.len(),
{
    lemma_digits_end(text, 0);
    if let Ok((_, at_times)) = parse_number(text, 0) {
        if let Ok((_, at_break)) = parse_value(text, at_times + 1) {
            let at_rule = at_break + line_ending_len(text, at_break);
            let at_lines = at_rule + 2 + line_ending_len(text, at_rule + 2);
            if 0 <= at_lines <= text.len() {
                lemma_lines_failure_inside(text, at_lines);
            }
        }
    }
}

} // verus!

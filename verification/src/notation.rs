//! How a score is written, and that what is written is read back.
//!
//! The parser accepts more than one text for a score: a tempo may have
//! leading zeros and a line may end with a carriage return before the line
//! feed. This module fixes one text for every score and proves that the
//! parser reads the score back from it.

use vstd::prelude::*;
use crate::parse::{
    decimal, digit_char, digits_end, is_letter, lemma_pitch_name_unique, line_ending_len,
    names_pitch, parse_line, parse_lines, parse_more_notes, parse_note, parse_number,
    parse_pitch, parse_sheet, parse_text, parse_value, pitch_of_name, rule_at, spec_is_digit,
    value_of_code, ParseError,
};
use crate::pitch::{all_have_frequency, has_frequency};
use crate::sheet::{Modifier, Note, Pitch, SheetView, Value, BPM};

verus! {

/// The code of a value.
pub open spec fn value_code(value: Value) -> char {
    match value {
        Value::Whole => 'w',
        Value::Half => 'h',
        Value::Quarter => 'q',
        Value::Eighth => 'e',
        Value::Sixteenth => 's',
    }
}

/// An accidental as it is written; a natural is not written.
pub open spec fn modifier_text(modifier: Modifier) -> Seq<char> {
    match modifier {
        Modifier::Sharp => seq!['#'],
        Modifier::Natural => Seq::empty(),
        Modifier::Flat => seq!['b'],
    }
}

/// A note as it is written.
pub open spec fn note_text(note: Note) -> Seq<char> {
    seq![note.pitch.letter(), digit_char(note.pitch.octave()), value_code(note.value)]
        + modifier_text(note.modifier)
}

/// Notes as they are written behind the first note of a line.
pub open spec fn more_notes_text(notes: Seq<Note>) -> Seq<char>
    decreases notes.len(),
{
    if notes.len() == 0 {
        Seq::empty()
    } else {
        seq![' '] + note_text(notes[0]) + more_notes_text(notes.drop_first())
    }
}

/// A line as it is written: its notes with one space between them.
pub open spec fn line_text(notes: Seq<Note>) -> Seq<char> {
    if notes.len() == 0 {
        Seq::empty()
    } else {
        note_text(notes[0]) + more_notes_text(notes.drop_first())
    }
}

/// Lines as they are written, with one line feed between them.
pub open spec fn lines_text(lines: Seq<Seq<Note>>) -> Seq<char>
    decreases lines.len(),
{
    if lines.len() == 0 {
        Seq::empty()
    } else if lines.len() == 1 {
        line_text(lines[0])
    } else {
        line_text(lines[0]) + seq!['\n'] + lines_text(lines.drop_first())
    }
}

/// A number as it is written, in base ten without leading zeros.
pub open spec fn number_text(number: nat) -> Seq<char>
    decreases number,
{
    if number < 10 {
        seq![digit_char(number as int)]
    } else {
        number_text(number / 10).push(digit_char((number % 10) as int))
    }
}

/// A score as it is written.
pub open spec fn sheet_text(sheet: SheetView) -> Seq<char> {
    number_text(sheet.bpm as nat) + seq!['x', value_code(sheet.line_value), '\n', '-', '-', '\n']
        + lines_text(sheet.lines)
}

/// Whether a piece of text stands at a place of a text.
pub open spec fn stands_at(text: Seq<char>, from: int, piece: Seq<char>) -> bool {
    &&& 0 <= from
    &&& from + piece.len() <= text.len()
    &&& forall|i: int| 0 <= i < piece.len() ==> text[from + i] == #[trigger] piece[i]
}

/// Where two pieces stand one behind the other, each of them stands.
proof fn lemma_stands_split(text: Seq<char>, from: int, one: Seq<char>, other: Seq<char>)
    requires
        stands_at(text, from, one + other),
    ensures
        stands_at(text, from, one),
        stands_at(text, from + one.len(), other),
{
    assert forall|i: int| 0 <= i < one.len() implies text[from + i] == #[trigger] one[i] by {
        assert((one + other)[i] == one[i]);
    }
    assert forall|i: int| 0 <= i < other.len() implies text[from + one.len() + i]
        == #[trigger] other[i] by {
        assert((one + other)[one.len() + i] == other[i]);
    }
}

/// A number that is written is made of digits.
proof fn lemma_number_text(number: nat)
    ensures
        number_text(number).len() >= 1,
        forall|i: int|
            0 <= i < number_text(number).len() ==> spec_is_digit(#[trigger] number_text(number)[i]),
    decreases number,
{
    if number >= 10 {
        lemma_number_text(number / 10);
    }
}

/// Where digits and nothing else stand up to a place, and no digit at the
/// place, the digits end there.
proof fn lemma_digits_end_at(text: Seq<char>, from: int, end: int)
    requires
        0 <= from <= end <= text.len(),
        forall|i: int| from <= i < end ==> spec_is_digit(#[trigger] text[i]),
        end < text.len() ==> !spec_is_digit(text[end]),
    ensures
        digits_end(text, from) == end,
    decreases end - from,
{
    if from < end {
        assert(spec_is_digit(text[from]));
        lemma_digits_end_at(text, from + 1, end);
    }
}

/// The digits of a number that is written spell the number.
proof fn lemma_decimal_of_number_text(text: Seq<char>, from: int, number: nat)
    requires
        stands_at(text, from, number_text(number)),
    ensures
        decimal(text, from, from + number_text(number).len()) == number,
    decreases number,
{
    let piece = number_text(number);
    let end = from + piece.len();
    if number < 10 {
        assert(text[from + 0] == piece[0]);
        assert(decimal(text, from, end - 1) == 0);
    } else {
        let front = number_text(number / 10);
        assert(piece =~= front + seq![digit_char((number % 10) as int)]);
        lemma_stands_split(text, from, front, seq![digit_char((number % 10) as int)]);
        lemma_decimal_of_number_text(text, from, number / 10);
        assert(text[from + (piece.len() - 1)] == piece[piece.len() - 1]);
    }
}

/// A number that is written, with no digit behind it, is read back.
pub proof fn lemma_number_read_back(text: Seq<char>, from: int, number: nat)
    requires
        stands_at(text, from, number_text(number)),
        from + number_text(number).len() < text.len() ==> !spec_is_digit(
            text[from + number_text(number).len()],
        ),
        number <= usize::MAX,
    ensures
        parse_number(text, from) == Ok::<(usize, int), ParseError>(
            (number as usize, from + number_text(number).len()),
        ),
{
    let piece = number_text(number);
    let end = from + piece.len();
    lemma_number_text(number);
    assert forall|i: int| from <= i < end implies spec_is_digit(#[trigger] text[i]) by {
        assert(text[from + (i - from)] == piece[i - from]);
    }
    lemma_digits_end_at(text, from, end);
    lemma_decimal_of_number_text(text, from, number);
}

/// Whether a character can stand behind a line: it is no part of a note
/// and does not lead on to another one.
pub open spec fn ends_line(text: Seq<char>, at: int) -> bool {
    at < text.len() ==> text[at] == '\n'
}

/// A note that is written is read back, if it names a key and no
/// accidental stands behind a natural.
pub proof fn lemma_note_read_back(text: Seq<char>, from: int, note: Note)
    requires
        stands_at(text, from, note_text(note)),
        has_frequency(note.pitch, note.modifier),
        note.modifier == Modifier::Natural && from + 3 < text.len() ==> text[from + 3] != '#'
            && text[from + 3] != 'b',
    ensures
        parse_note(text, from) == Ok::<(Note, int), ParseError>(
            (note, from + note_text(note).len()),
        ),
{
    let piece = note_text(note);
    let head = seq![note.pitch.letter(), digit_char(note.pitch.octave()), value_code(note.value)];
    lemma_stands_split(text, from, head, modifier_text(note.modifier));
    assert(text[from + 0] == head[0]);
    assert(text[from + 1] == head[1]);
    assert(text[from + 2] == head[2]);
    assert(is_letter(text[from]));
    assert(spec_is_digit(text[from + 1]));
    assert(!spec_is_digit(text[from + 2]));
    assert(digits_end(text, from + 1) == from + 2) by {
        reveal_with_fuel(digits_end, 3);
    }
    let number = text.subrange(from + 1, from + 2);
    assert(number =~= seq![digit_char(note.pitch.octave())]);
    assert(names_pitch(text[from], number, note.pitch));
    lemma_pitch_name_unique(text[from], number, note.pitch, pitch_of_name(text[from], number)->0);
    assert(parse_pitch(text, from) == Ok::<(Pitch, int), ParseError>((note.pitch, from + 2)));
    assert(value_of_code(value_code(note.value)) == Some(note.value));
    assert(parse_value(text, from + 2) == Ok::<(Value, int), ParseError>((note.value, from + 3)));
    if note.modifier != Modifier::Natural {
        assert(text[from + 3 + 0] == modifier_text(note.modifier)[0]);
    }
}

/// Notes that are written behind the first note of a line, with the end of
/// a line behind them, are read back.
proof fn lemma_more_notes_read_back(text: Seq<char>, from: int, notes: Seq<Note>)
    requires
        stands_at(text, from, more_notes_text(notes)),
        forall|j: int|
            0 <= j < notes.len() ==> has_frequency((#[trigger] notes[j]).pitch, notes[j].modifier),
        ends_line(text, from + more_notes_text(notes).len()),
    ensures
        parse_more_notes(text, from) == Ok::<(Seq<Note>, int), ParseError>(
            (notes, from + more_notes_text(notes).len()),
        ),
    decreases notes.len(),
{
    if notes.len() == 0 {
        assert(notes =~= Seq::<Note>::empty());
    } else {
        let note = notes[0];
        let rest = notes.drop_first();
        let tail = more_notes_text(rest);
        lemma_stands_split(text, from, seq![' '] + note_text(note), tail);
        lemma_stands_split(text, from, seq![' '], note_text(note));
        assert(text[from + 0] == seq![' '][0]);
        let behind = from + 1 + note_text(note).len();
        assert(note.modifier == Modifier::Natural ==> behind == from + 4);
        if rest.len() > 0 {
            assert(tail[0] == ' ');
            assert(text[behind + 0] == tail[0]);
        }
        lemma_note_read_back(text, from + 1, note);
        assert forall|j: int| 0 <= j < rest.len() implies has_frequency(
            (#[trigger] rest[j]).pitch,
            rest[j].modifier,
        ) by {
            assert(rest[j] == notes[j + 1]);
        }
        lemma_more_notes_read_back(text, behind, rest);
        assert(seq![note] + rest =~= notes);
        assert(parse_note(text, from + 1) == Ok::<(Note, int), ParseError>((note, behind)));
        assert(parse_more_notes(text, behind) == Ok::<(Seq<Note>, int), ParseError>(
            (rest, behind + tail.len()),
        ));
        assert(more_notes_text(notes).len() == 1 + note_text(note).len() + tail.len());
    }
}

/// A line that is written, with the end of a line behind it, is read back.
pub proof fn lemma_line_read_back(text: Seq<char>, from: int, notes: Seq<Note>)
    requires
        stands_at(text, from, line_text(notes)),
        forall|j: int|
            0 <= j < notes.len() ==> has_frequency((#[trigger] notes[j]).pitch, notes[j].modifier),
        ends_line(text, from + line_text(notes).len()),
    ensures
        parse_line(text, from) == Ok::<(Seq<Note>, int), ParseError>(
            (notes, from + line_text(notes).len()),
        ),
{
    if notes.len() == 0 {
        assert(notes =~= Seq::<Note>::empty());
    } else {
        let note = notes[0];
        let rest = notes.drop_first();
        let tail = more_notes_text(rest);
        lemma_stands_split(text, from, note_text(note), tail);
        let behind = from + note_text(note).len();
        if rest.len() > 0 {
            assert(tail[0] == ' ');
            assert(text[behind + 0] == tail[0]);
        }
        lemma_note_read_back(text, from, note);
        assert forall|j: int| 0 <= j < rest.len() implies has_frequency(
            (#[trigger] rest[j]).pitch,
            rest[j].modifier,
        ) by {
            assert(rest[j] == notes[j + 1]);
        }
        lemma_more_notes_read_back(text, behind, rest);
        assert(seq![note] + rest =~= notes);
    }
}

/// Lines that are written up to the end of a text are read back.
pub proof fn lemma_lines_read_back(text: Seq<char>, from: int, lines: Seq<Seq<Note>>)
    requires
        lines.len() >= 1,
        stands_at(text, from, lines_text(lines)),
        from + lines_text(lines).len() == text.len(),
        all_have_frequency(lines),
    ensures
        parse_lines(text, from) == Ok::<(Seq<Seq<Note>>, int), ParseError>(
            (lines, text.len() as int),
        ),
    decreases lines.len(),
{
    let line = lines[0];
    assert forall|j: int| 0 <= j < line.len() implies has_frequency(
        (#[trigger] line[j]).pitch,
        line[j].modifier,
    ) by {
        assert(line[j] == lines[0][j]);
    }
    if lines.len() == 1 {
        lemma_line_read_back(text, from, line);
        assert(seq![line] =~= lines);
    } else {
        let rest = lines.drop_first();
        let tail = lines_text(rest);
        lemma_stands_split(text, from, line_text(line) + seq!['\n'], tail);
        lemma_stands_split(text, from, line_text(line), seq!['\n']);
        let behind = from + line_text(line).len();
        assert(text[behind + 0] == seq!['\n'][0]);
        lemma_line_read_back(text, from, line);
        assert(line_ending_len(text, behind) == 1);
        assert forall|i: int, j: int|
            0 <= i < rest.len() && 0 <= j < rest[i].len() implies has_frequency(
            (#[trigger] rest[i][j]).pitch,
            rest[i][j].modifier,
        ) by {
            assert(rest[i] == lines[i + 1]);
            assert(rest[i][j] == lines[i + 1][j]);
        }
        lemma_lines_read_back(text, behind + 1, rest);
        assert(seq![line] + rest =~= lines);
    }
}

/// The parts of a sheet that is read make up the sheet.
proof fn lemma_sheet_of_parts(
    text: Seq<char>,
    tempo: usize,
    at_times: int,
    line_value: Value,
    lines: Seq<Seq<Note>>,
    end: int,
)
    requires
        parse_number(text, 0) == Ok::<(usize, int), ParseError>((tempo, at_times)),
        tempo <= BPM::MAX,
        0 <= at_times < text.len(),
        text[at_times] == 'x',
        parse_value(text, at_times + 1) == Ok::<(Value, int), ParseError>(
            (line_value, at_times + 2),
        ),
        line_ending_len(text, at_times + 2) == 1,
        rule_at(text, at_times + 3),
        line_ending_len(text, at_times + 5) == 1,
        parse_lines(text, at_times + 6) == Ok::<(Seq<Seq<Note>>, int), ParseError>((lines, end)),
    ensures
        parse_sheet(text, 0) == Ok::<(SheetView, int), ParseError>(
            (SheetView { bpm: tempo as int, line_value, lines }, end),
        ),
{
}

/// The header of a sheet as it is written.
proof fn lemma_header_stands(text: Seq<char>, at: int, line_value: Value)
    requires
        stands_at(text, at, seq!['x', value_code(line_value), '\n', '-', '-', '\n']),
    ensures
        text[at] == 'x',
        parse_value(text, at + 1) == Ok::<(Value, int), ParseError>((line_value, at + 2)),
        line_ending_len(text, at + 2) == 1,
        rule_at(text, at + 3),
        line_ending_len(text, at + 5) == 1,
{
    let header = seq!['x', value_code(line_value), '\n', '-', '-', '\n'];
    assert(text[at + 0] == header[0]);
    assert(text[at + 1] == header[1]);
    assert(text[at + 2] == header[2]);
    assert(text[at + 3] == header[3]);
    assert(text[at + 4] == header[4]);
    assert(text[at + 5] == header[5]);
    assert(value_of_code(value_code(line_value)) == Some(line_value));
}

/// A score is read back from its text: whatever score has a tempo that is
/// not negative, one line at least, and only notes that name a key.
pub proof fn lemma_sheet_read_back(sheet: SheetView)
    requires
        0 <= sheet.bpm <= BPM::MAX,
        sheet.lines.len() >= 1,
        all_have_frequency(sheet.lines),
    ensures
        parse_text(sheet_text(sheet)) == Ok::<SheetView, ParseError>(sheet),
{
    let text = sheet_text(sheet);
    let tempo = number_text(sheet.bpm as nat);
    let header = seq!['x', value_code(sheet.line_value), '\n', '-', '-', '\n'];
    let body = lines_text(sheet.lines);
    let at_times = tempo.len() as int;
    assert(stands_at(text, 0, tempo + header + body));
    lemma_stands_split(text, 0, tempo + header, body);
    lemma_stands_split(text, 0, tempo, header);
    lemma_header_stands(text, at_times, sheet.line_value);
    lemma_number_read_back(text, 0, sheet.bpm as nat);
    lemma_lines_read_back(text, at_times + 6, sheet.lines);
    lemma_sheet_of_parts(
        text,
        sheet.bpm as usize,
        at_times,
        sheet.line_value,
        sheet.lines,
        text.len() as int,
    );
}

} // verus!

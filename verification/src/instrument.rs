//! The composer: from a score to the plan of its waveform.
//!
//! A generator describes the tone of every note once and remembers it. A
//! composition says how long the timeline is and, for every note of the
//! score, which remembered tone is added to the timeline and where. The
//! timeline starts silent; whoever renders it adds, placement by placement in
//! the order given, the first `length` samples of the tone to the samples of
//! the timeline from `offset` on.
//!
//! A tone is as long as the value of its note asks, whatever the slot of its
//! line: a short one leaves the rest of the slot silent, a long one sounds on
//! into the lines that follow. Only what would sound behind the end of the
//! timeline is cut off.

use std::collections::HashMap;
use vstd::prelude::*;
use vstd::pervasive::unreached;
use vstd::std_specs::hash::group_hash_axioms;
use crate::pitch::{
    all_have_frequency, fundamental_frequency, has_frequency, InvalidPitchModifier,
};
use crate::sheet::{Note, Sheet, Value, BPM};
use crate::tone::{
    playable, slot_length, slot_samples, synthesis_of, tone_length, tone_of, tone_samples,
    InvalidTempo, SynthesisError, Tone,
};

verus! {

/// One note on the timeline.
#[derive(Clone, Copy, Debug, PartialEq, Eq, Structural)]
pub struct Placement {
    /// The place of the tone among the tones of the generator.
    pub tone: usize,
    /// The sample of the timeline at which the tone starts.
    pub offset: usize,
    /// The number of samples of the tone that are added.
    pub length: usize,
}

/// The plan of a waveform.
#[derive(Clone, Debug, PartialEq, Eq)]
pub struct Composition {
    /// The number of samples of the timeline.
    pub length: usize,
    /// The number of samples in the slot of one line.
    pub line_length: u64,
    /// The notes in the order of the score.
    pub placements: Vec<Placement>,
}

/// Describes tones at one sample rate and remembers them by note and tempo.
pub struct SineGenerator {
    sample_rate: u32,
    samples: HashMap<u64, usize>,
    tones: Vec<Tone>,
}

/// The number that stands for a note.
spec fn note_code(note: Note) -> int {
    (note.pitch.spec_ordinal() * 5 + note.value.spec_ordinal()) * 3 + note.modifier.spec_ordinal()
}

/// The key under which the tone of a note at a tempo is remembered.
spec fn cache_key(note: Note, bpm: BPM) -> int {
    (bpm - BPM::MIN) * 1024 + note_code(note)
}

proof fn lemma_cache_key_unique(one: Note, one_bpm: BPM, other: Note, other_bpm: BPM)
    requires
        cache_key(one, one_bpm) == cache_key(other, other_bpm),
    ensures
        one == other,
        one_bpm == other_bpm,
        0 <= cache_key(one, one_bpm) <= u64::MAX,
{
    assert(0 <= note_code(one) < 1024);
    assert(0 <= note_code(other) < 1024);
    assert(one_bpm == other_bpm);
    assert(note_code(one) == note_code(other));
    assert(one.modifier.spec_ordinal() == other.modifier.spec_ordinal());
    assert(one.value.spec_ordinal() == other.value.spec_ordinal());
    assert(one.pitch.spec_ordinal() == other.pitch.spec_ordinal());
}

fn key_of(note: Note, bpm: BPM) -> (key: u64)
    ensures
        key == cache_key(note, bpm),
{
    let code = (note.pitch.ordinal() as u64 * 5 + note.value.ordinal() as u64) * 3
        + note.modifier.ordinal() as u64;
    let tempo = (bpm as i64 - BPM::MIN as i64) as u64;
    tempo * 1024 + code
}

/// Whether a tone is the tone of a note that can be played.
pub open spec fn is_tone(sample_rate: u32, tone: Tone) -> bool {
    playable(tone.note, tone.bpm) && tone == tone_of(sample_rate, tone.note, tone.bpm)
}

/// The tones that are remembered once a tone has been asked for: a tone
/// that is new comes last, one that is known changes nothing.
pub open spec fn remember(cache: Seq<Tone>, tone: Tone) -> Seq<Tone> {
    if cache.contains(tone) {
        cache
    } else {
        cache.push(tone)
    }
}

/// The tones that are remembered once the tones of notes have been asked
/// for, one after the other.
pub open spec fn remember_all(
    cache: Seq<Tone>,
    sample_rate: u32,
    bpm: BPM,
    notes: Seq<(usize, Note)>,
) -> Seq<Tone>
    decreases notes.len(),
{
    if notes.len() == 0 {
        cache
    } else {
        remember(
            remember_all(cache, sample_rate, bpm, notes.drop_last()),
            tone_of(sample_rate, notes.last().1, bpm),
        )
    }
}

/// The notes of a score in the order in which they are read, each with the
/// number of its line.
pub open spec fn note_places(lines: Seq<Seq<Note>>) -> Seq<(usize, Note)>
    decreases lines.len(),
{
    if lines.len() == 0 {
        Seq::empty()
    } else {
        note_places(lines.drop_last()) + Seq::new(
            lines.last().len(),
            |i: int| ((lines.len() - 1) as usize, lines.last()[i]),
        )
    }
}

/// The first of the notes that names no key.
pub open spec fn first_invalid(notes: Seq<(usize, Note)>) -> Option<InvalidPitchModifier>
    decreases notes.len(),
{
    if notes.len() == 0 {
        None
    } else {
        match first_invalid(notes.drop_last()) {
            Some(found) => Some(found),
            None => {
                let note = notes.last().1;
                if has_frequency(note.pitch, note.modifier) {
                    None
                } else {
                    Some(InvalidPitchModifier { pitch: note.pitch, modifier: note.modifier })
                }
            },
        }
    }
}

/// Why a score cannot be composed, if it cannot: its tempo is not positive,
/// or its timeline is too long, or one of its notes names no key.
pub open spec fn composition_error(
    sample_rate: u32,
    bpm: BPM,
    line_value: Value,
    lines: Seq<Seq<Note>>,
) -> Option<SynthesisError> {
    if bpm <= 0 {
        Some(SynthesisError::InvalidTempo(InvalidTempo { bpm }))
    } else if lines.len() * slot_length(sample_rate as int, bpm as int, line_value) > usize::MAX {
        Some(SynthesisError::TooLong)
    } else {
        match first_invalid(note_places(lines)) {
            Some(found) => Some(SynthesisError::InvalidPitchModifier(found)),
            None => None,
        }
    }
}

/// Whether a placement is the one of a note: it names the tone of the note,
/// starts where the slot of its line starts, and has the whole tone or, if
/// less is left of the timeline, what is left.
pub open spec fn places(
    cache: Seq<Tone>,
    sample_rate: u32,
    bpm: BPM,
    slot: int,
    total: int,
    place: (usize, Note),
    placement: Placement,
) -> bool {
    let length = tone_length(sample_rate as int, bpm as int, place.1.value);
    &&& placement.tone < cache.len()
    &&& cache[placement.tone as int] == tone_of(sample_rate, place.1, bpm)
    &&& placement.offset == place.0 * slot
    &&& placement.length == if length <= total - placement.offset {
        length
    } else {
        total - placement.offset
    }
}

/// Asking for a tone forgets none and leaves every tone where it is.
pub proof fn lemma_remember_keeps(cache: Seq<Tone>, tone: Tone)
    requires
        cache.no_duplicates(),
    ensures
        remember(cache, tone).no_duplicates(),
        remember(cache, tone).contains(tone),
        cache.len() <= remember(cache, tone).len() <= cache.len() + 1,
        forall|i: int| 0 <= i < cache.len() ==> remember(cache, tone)[i] == cache[i],
        remember(remember(cache, tone), tone) == remember(cache, tone),
{
    let after = remember(cache, tone);
    if !cache.contains(tone) {
        assert(after[cache.len() as int] == tone);
    }
}

/// Asking for the tones of notes forgets none and leaves every tone where
/// it is. Of every note asked for the tone is remembered, once only, and no
/// other tone is new.
pub proof fn lemma_remember_all_keeps(
    cache: Seq<Tone>,
    sample_rate: u32,
    bpm: BPM,
    notes: Seq<(usize, Note)>,
)
    requires
        cache.no_duplicates(),
    ensures
        remember_all(cache, sample_rate, bpm, notes).no_duplicates(),
        cache.len() <= remember_all(cache, sample_rate, bpm, notes).len() <= cache.len()
            + notes.len(),
        forall|i: int|
            0 <= i < cache.len() ==> remember_all(cache, sample_rate, bpm, notes)[i] == cache[i],
        forall|j: int|
            0 <= j < notes.len() ==> remember_all(cache, sample_rate, bpm, notes).contains(
                tone_of(sample_rate, #[trigger] notes[j].1, bpm),
            ),
        forall|i: int|
            cache.len() <= i < remember_all(cache, sample_rate, bpm, notes).len() ==> exists|
                j: int,
            |
                0 <= j < notes.len() && #[trigger] remember_all(cache, sample_rate, bpm, notes)[i]
                    == tone_of(sample_rate, #[trigger] notes[j].1, bpm),
    decreases notes.len(),
{
    if notes.len() > 0 {
        let before = remember_all(cache, sample_rate, bpm, notes.drop_last());
        let tone = tone_of(sample_rate, notes.last().1, bpm);
        let after = remember(before, tone);
        lemma_remember_all_keeps(cache, sample_rate, bpm, notes.drop_last());
        lemma_remember_keeps(before, tone);
        assert forall|j: int| 0 <= j < notes.len() implies after.contains(
            tone_of(sample_rate, #[trigger] notes[j].1, bpm),
        ) by {
            if j < notes.len() - 1 {
                let known = tone_of(sample_rate, notes.drop_last()[j].1, bpm);
                assert(before.contains(known));
                let at = choose|at: int| 0 <= at < before.len() && before[at] == known;
                assert(after[at] == known);
            }
        }
        assert forall|i: int| cache.len() <= i < after.len() implies exists|j: int|
            0 <= j < notes.len() && #[trigger] after[i] == tone_of(
                sample_rate,
                #[trigger] notes[j].1,
                bpm,
            ) by {
            if i < before.len() {
                let j = choose|j: int|
                    0 <= j < notes.drop_last().len() && #[trigger] before[i] == tone_of(
                        sample_rate,
                        #[trigger] notes.drop_last()[j].1,
                        bpm,
                    );
                assert(notes[j] == notes.drop_last()[j]);
                assert(after[i] == tone_of(sample_rate, notes[j].1, bpm));
            } else {
                assert(after[i] == tone_of(sample_rate, notes[notes.len() - 1].1, bpm));
            }
        }
    }
}

proof fn lemma_first_invalid_stays(notes: Seq<(usize, Note)>, upto: int)
    requires
        0 <= upto <= notes.len(),
        first_invalid(notes.take(upto)) is Some,
    ensures
        first_invalid(notes) == first_invalid(notes.take(upto)),
    decreases notes.len() - upto,
{
    if upto < notes.len() {
        assert(notes.take(upto + 1).drop_last() =~= notes.take(upto));
        lemma_first_invalid_stays(notes, upto + 1);
    } else {
        assert(notes.take(upto) =~= notes);
    }
}

impl SineGenerator {
    /// The sample rate of the generator.
    pub closed spec fn rate(&self) -> u32 {
        self.sample_rate
    }

    /// The tones that the generator remembers, in the order in which they
    /// were first asked for.
    pub closed spec fn cached(&self) -> Seq<Tone> {
        self.tones@
    }

    /// Whether the index of the generator finds every remembered tone, and
    /// nothing else.
    pub closed spec fn indexed(&self) -> bool {
        &&& forall|i: int|
            0 <= i < self.tones@.len() ==> {
                let key = cache_key((#[trigger] self.tones@[i]).note, self.tones@[i].bpm) as u64;
                self.samples@.contains_key(key) && self.samples@[key] == i
            }
        &&& forall|key: u64| #[trigger]
            self.samples@.contains_key(key) ==> {
                let at = self.samples@[key] as int;
                at < self.tones@.len() && cache_key(self.tones@[at].note, self.tones@[at].bpm)
                    == key
            }
    }

    /// Whether the generator is in order: it remembers tones of playable
    /// notes at its own sample rate, and each of them once.
    pub open spec fn wf(&self) -> bool {
        &&& self.indexed()
        &&& self.cached().no_duplicates()
        &&& forall|i: int|
            0 <= i < self.cached().len() ==> is_tone(self.rate(), #[trigger] self.cached()[i])
    }

    /// A generator that remembers no tone yet.
    pub fn new(sample_rate: u32) -> (generator: SineGenerator)
        ensures
            generator.wf(),
            generator.rate() == sample_rate,
            generator.cached() == Seq::<Tone>::empty(),
    {
        SineGenerator { sample_rate, samples: HashMap::new(), tones: Vec::new() }
    }

    /// The sample rate of the generator.
    pub fn sample_rate(&self) -> (rate: u32)
        ensures
            rate == self.rate(),
    {
        self.sample_rate
    }

    /// The tones that the generator remembers.
    pub fn tones(&self) -> (tones: &Vec<Tone>)
        ensures
            tones@ == self.cached(),
    {
        &self.tones
    }

    /// Describes the tone of a note: its frequency and its number of
    /// samples. A tempo that is not positive is refused, then a note that
    /// names no key.
    pub fn sample_at_rate(&self, note: Note, bpm: BPM) -> (res: Result<Tone, SynthesisError>)
        ensures
            res == synthesis_of(self.rate(), note, bpm),
    {
        let length = match tone_samples(self.sample_rate, bpm, note.value) {
            Ok(length) => length,
            Err(error) => {
                return Err(SynthesisError::InvalidTempo(error));
            },
        };
        let frequency = match fundamental_frequency(&note) {
            Ok(frequency) => frequency,
            Err(error) => {
                return Err(SynthesisError::InvalidPitchModifier(error));
            },
        };
        Ok(Tone { note, bpm, sample_rate: self.sample_rate, frequency, length })
    }

    /// Finds the place of the tone of a note among the remembered tones,
    /// describing and remembering the tone first where it is new.
    fn place_of(&mut self, note: Note, bpm: BPM) -> (res: Result<usize, SynthesisError>)
        requires
            old(self).wf(),
        ensures
            final(self).wf(),
            final(self).rate() == old(self).rate(),
            match synthesis_of(old(self).rate(), note, bpm) {
                Ok(tone) => ({
                    &&& res matches Ok(at)
                    &&& at < final(self).cached().len()
                    &&& final(self).cached()[at as int] == tone
                    &&& final(self).cached() == remember(old(self).cached(), tone)
                }),
                Err(error) => ({
                    &&& res == Err::<usize, SynthesisError>(error)
                    &&& final(self).cached() == old(self).cached()
                }),
            },
    {
        broadcast use group_hash_axioms;

        let key = key_of(note, bpm);
        let known = match self.samples.get(&key) {
            Some(at) => Some(*at),
            None => None,
        };
        match known {
            Some(at) => {
                proof {
                    let tone = self.tones@[at as int];
                    lemma_cache_key_unique(tone.note, tone.bpm, note, bpm);
                    assert(is_tone(self.rate(), self.cached()[at as int]));
                }
                Ok(at)
            },
            None => {
                let tone = match self.sample_at_rate(note, bpm) {
                    Ok(tone) => tone,
                    Err(error) => {
                        return Err(error);
                    },
                };
                let at = self.tones.len();
                proof {
                    lemma_cache_key_unique(note, bpm, note, bpm);
                    assert forall|i: int| 0 <= i < self.tones@.len() implies self.tones@[i]
                        != tone by {
                        let other = self.tones@[i];
                        if other == tone {
                            assert(self.samples@.contains_key(
                                cache_key(other.note, other.bpm) as u64,
                            ));
                        }
                    }
                    assert(!self.tones@.contains(tone));
                    assert forall|i: int| 0 <= i < self.tones@.len() implies cache_key(
                        (#[trigger] self.tones@[i]).note,
                        self.tones@[i].bpm,
                    ) != key by {
                        let other = self.tones@[i];
                        lemma_cache_key_unique(other.note, other.bpm, other.note, other.bpm);
                    }
                }
                self.tones.push(tone);
                self.samples.insert(key, at);
                proof {
                    assert(self.tones@[at as int] == tone);
                    assert forall|k: u64| #[trigger] self.samples@.contains_key(k) implies ({
                        let to = self.samples@[k] as int;
                        &&& to < self.tones@.len()
                        &&& cache_key(self.tones@[to].note, self.tones@[to].bpm) == k
                    }) by {
                        if k != key {
                            assert(old(self).samples@.contains_key(k));
                        }
                    }
                }
                Ok(at)
            },
        }
    }

    /// Gives the tone of a note, describing and remembering it first where
    /// it is new. A tone that is known is not described again.
    pub fn sample(&mut self, note: Note, bpm: BPM) -> (res: Result<Tone, SynthesisError>)
        requires
            old(self).wf(),
        ensures
            final(self).wf(),
            final(self).rate() == old(self).rate(),
            res == synthesis_of(old(self).rate(), note, bpm),
            match res {
                Ok(tone) => final(self).cached() == remember(old(self).cached(), tone)
                    && final(self).cached().contains(tone),
                Err(_) => final(self).cached() == old(self).cached(),
            },
    {
        match self.place_of(note, bpm) {
            Ok(at) => Ok(self.tones[at]),
            Err(error) => Err(error),
        }
    }

    /// Plans the waveform of a score. Every note gets its tone, described
    /// once for each note and tempo, at the start of the slot of its line.
    /// The timeline has one slot for every line. Where the score cannot be
    /// composed nothing new is remembered.
    #[verifier::loop_isolation(false)]
    pub fn compose(&mut self, sheet: &Sheet) -> (res: Result<Composition, SynthesisError>)
        requires
            old(self).wf(),
        ensures
            final(self).wf(),
            final(self).rate() == old(self).rate(),
            match composition_error(old(self).rate(), sheet.bpm, sheet.line_value, sheet@.lines) {
                Some(error) => res == Err::<Composition, SynthesisError>(error)
                    && final(self).cached() == old(self).cached(),
                None => res matches Ok(composition) && ({
                    let notes = note_places(sheet@.lines);
                    let slot = slot_length(
                        old(self).rate() as int,
                        sheet.bpm as int,
                        sheet.line_value,
                    );
                    &&& composition.line_length == slot
                    &&& composition.length == sheet@.lines.len() * slot
                    &&& composition.placements@.len() == notes.len()
                    &&& forall|j: int|
                        0 <= j < notes.len() ==> places(
                            final(self).cached(),
                            old(self).rate(),
                            sheet.bpm,
                            slot,
                            composition.length as int,
                            notes[j],
                            #[trigger] composition.placements@[j],
                        )
                    &&& forall|j: int|
                        0 <= j < notes.len() ==> (#[trigger] composition.placements@[j]).offset
                            + composition.placements@[j].length <= composition.length
                    &&& final(self).cached() == remember_all(
                        old(self).cached(),
                        old(self).rate(),
                        sheet.bpm,
                        notes,
                    )
                }),
            },
    {
        let bpm = sheet.bpm;
        let slot = match slot_samples(self.sample_rate, bpm, sheet.line_value) {
            Ok(slot) => slot,
            Err(error) => {
                return Err(SynthesisError::InvalidTempo(error));
            },
        };
        let count = sheet.lines.len();
        assert(sheet@.lines.len() == count);
        assert(count * slot <= u128::MAX) by (nonlinear_arith)
            requires
                count <= u64::MAX,
                slot <= u64::MAX,
        ;
        let wide = (count as u128) * (slot as u128);
        if wide > usize::MAX as u128 {
            return Err(SynthesisError::TooLong);
        }
        let total = wide as usize;
        let notes = notes_of(sheet);
        let mut at: usize = 0;
        while at < notes.len()
            invariant
                at <= notes.len(),
                first_invalid(notes@.take(at as int)) is None,
            decreases notes.len() - at,
        {
            proof {
                assert(notes@.take(at + 1).drop_last() =~= notes@.take(at as int));
            }
            match fundamental_frequency(&notes[at].1) {
                Ok(_) => {},
                Err(error) => {
                    proof {
                        lemma_first_invalid_stays(notes@, at + 1);
                    }
                    return Err(SynthesisError::InvalidPitchModifier(error));
                },
            }
            at = at + 1;
        }
        proof {
            assert(notes@.take(at as int) =~= notes@);
            lemma_playable_everywhere(notes@);
            assert(remember_all(self.cached(), self.rate(), bpm, notes@.take(0)) == self.cached());
        }
        let mut placements: Vec<Placement> = Vec::new();
        let mut at: usize = 0;
        while at < notes.len()
            invariant
                at <= notes.len(),
                self.wf(),
                self.rate() == old(self).rate(),
                self.sample_rate == self.rate(),
                self.tones@ == self.cached(),
                bpm > 0,
                notes@ == note_places(sheet@.lines),
                count == sheet@.lines.len(),
                slot == slot_length(self.rate() as int, bpm as int, sheet.line_value),
                total == count * slot,
                forall|j: int|
                    0 <= j < notes@.len() ==> has_frequency(
                        (#[trigger] notes@[j]).1.pitch,
                        notes@[j].1.modifier,
                    ),
                self.cached() == remember_all(
                    old(self).cached(),
                    self.rate(),
                    bpm,
                    notes@.take(at as int),
                ),
                placements@.len() == at,
                forall|j: int|
                    0 <= j < at ==> places(
                        self.cached(),
                        self.rate(),
                        bpm,
                        slot as int,
                        total as int,
                        notes@[j],
                        #[trigger] placements@[j],
                    ),
            decreases notes.len() - at,
        {
            let (line, note) = notes[at];
            let ghost before = self.cached();
            proof {
                assert(notes@.take(at + 1).drop_last() =~= notes@.take(at as int));
                assert(notes@.take(at + 1).last() == notes@[at as int]);
                assert(has_frequency(notes@[at as int].1.pitch, notes@[at as int].1.modifier));
                lemma_remember_keeps(before, tone_of(self.rate(), note, bpm));
                lemma_note_places_lines(sheet@.lines, at as int);
            }
            let tone = match self.place_of(note, bpm) {
                Ok(tone) => tone,
                Err(_) => unreached(),
            };
            let length = self.tones[tone].length;
            assert(line * slot <= count * slot) by (nonlinear_arith)
                requires
                    line < count,
                    0 <= slot,
            ;
            let offset = ((line as u128) * (slot as u128)) as usize;
            let room = total - offset;
            let taken = if length <= room as u64 {
                length as usize
            } else {
                room
            };
            placements.push(Placement { tone, offset, length: taken });
            at = at + 1;
        }
        proof {
            assert(notes@.take(at as int) =~= notes@);
        }
        Ok(Composition { length: total, line_length: slot, placements })
    }
}

/// Every note stands in a line of the score.
proof fn lemma_note_places_lines(lines: Seq<Seq<Note>>, at: int)
    requires
        0 <= at < note_places(lines).len(),
        lines.len() <= usize::MAX,
    ensures
        note_places(lines)[at].0 < lines.len(),
    decreases lines.len(),
{
    if lines.len() > 0 {
        let before = note_places(lines.drop_last());
        if at < before.len() {
            lemma_note_places_lines(lines.drop_last(), at);
        }
    }
}

/// Where no note is invalid, every note names a key.
proof fn lemma_playable_everywhere(notes: Seq<(usize, Note)>)
    requires
        first_invalid(notes) is None,
    ensures
        forall|j: int|
            0 <= j < notes.len() ==> has_frequency(
                (#[trigger] notes[j]).1.pitch,
                notes[j].1.modifier,
            ),
    decreases notes.len(),
{
    if notes.len() > 0 {
        lemma_playable_everywhere(notes.drop_last());
        assert forall|j: int| 0 <= j < notes.len() implies has_frequency(
            (#[trigger] notes[j]).1.pitch,
            notes[j].1.modifier,
        ) by {
            if j < notes.len() - 1 {
                assert(notes.drop_last()[j] == notes[j]);
            }
        }
    }
}

/// The notes of a score in the order in which they are read, each with the
/// number of its line.
fn notes_of(sheet: &Sheet) -> (notes: Vec<(usize, Note)>)
    ensures
        notes@ == note_places(sheet@.lines),
{
    let ghost lines = sheet@.lines;
    let mut notes: Vec<(usize, Note)> = Vec::new();
    let mut row: usize = 0;
    while row < sheet.lines.len()
        invariant
            lines == sheet@.lines,
            row <= sheet.lines.len(),
            notes@ == note_places(lines.take(row as int)),
        decreases sheet.lines.len() - row,
    {
        let line = &sheet.lines[row];
        let ghost before = notes@;
        let mut column: usize = 0;
        while column < line.0.len()
            invariant
                column <= line.0.len(),
                line@ == lines[row as int],
                notes@ == before + Seq::new(column as nat, |i: int| (row, line@[i])),
            decreases line.0.len() - column,
        {
            notes.push((row, line.0[column]));
            column = column + 1;
        }
        proof {
            let upto = lines.take(row + 1);
            assert(upto.drop_last() =~= lines.take(row as int));
            assert(upto.last() == lines[row as int]);
            assert(Seq::new(line@.len(), |i: int| (row, line@[i])) =~= Seq::new(
                upto.last().len(),
                |i: int| ((upto.len() - 1) as usize, upto.last()[i]),
            ));
        }
        row = row + 1;
    }
    proof {
        assert(lines.take(row as int) =~= lines);
    }
    notes
}

/// A score in which every note names a key has no invalid note.
pub proof fn lemma_first_invalid_none(lines: Seq<Seq<Note>>)
    requires
        all_have_frequency(lines),
    ensures
        first_invalid(note_places(lines)) is None,
    decreases lines.len(),
{
    if lines.len() > 0 {
        let before = lines.drop_last();
        assert forall|i: int, j: int|
            0 <= i < before.len() && 0 <= j < before[i].len() implies has_frequency(
            (#[trigger] before[i][j]).pitch,
            before[i][j].modifier,
        ) by {
            assert(before[i] == lines[i]);
        }
        lemma_first_invalid_none(before);
        let row = Seq::new(
            lines.last().len(),
            |i: int| ((lines.len() - 1) as usize, lines.last()[i]),
        );
        assert forall|j: int| 0 <= j < row.len() implies has_frequency(
            (#[trigger] row[j]).1.pitch,
            row[j].1.modifier,
        ) by {
            assert(row[j].1 == lines[lines.len() - 1][j]);
        }
        lemma_first_invalid_append(note_places(before), row);
    }
}

proof fn lemma_first_invalid_append(notes: Seq<(usize, Note)>, more: Seq<(usize, Note)>)
    requires
        first_invalid(notes) is None,
        forall|j: int|
            0 <= j < more.len() ==> has_frequency((#[trigger] more[j]).1.pitch, more[j].1.modifier),
    ensures
        first_invalid(notes + more) is None,
    decreases more.len(),
{
    if more.len() == 0 {
        assert(notes + more =~= notes);
    } else {
        lemma_first_invalid_append(notes, more.drop_last());
        assert((notes + more).drop_last() =~= notes + more.drop_last());
        assert((notes + more).last() == more[more.len() - 1]);
    }
}

/// A score in which every note names a key, as every score that is read
/// from a text is, can be composed unless its tempo is not positive or its
/// timeline is too long.
pub proof fn lemma_valid_score_composes(
    sample_rate: u32,
    bpm: BPM,
    line_value: Value,
    lines: Seq<Seq<Note>>,
)
    requires
        all_have_frequency(lines),
        bpm > 0,
        lines.len() * slot_length(sample_rate as int, bpm as int, line_value) <= usize::MAX,
    ensures
        composition_error(sample_rate, bpm, line_value, lines) is None,
{
    lemma_first_invalid_none(lines);
}

} // verus!

//! The tone of a note: how many samples it has, how loud each one is and
//! where in the cycle of the sine it stands.
//!
//! Time is counted in ticks, chosen so that both the length of a value and the
//! length of a sample are whole numbers of them: at `r` samples per second and
//! `b` beats per minute a value with divisor `d` lasts `60 * r` ticks and one
//! sample lasts `b * d` ticks. A full turn of the sine is counted in parts,
//! chosen so that the phase of every sample is a whole number of them.

use vstd::prelude::*;
use vstd::arithmetic::div_mod::{lemma_fundamental_div_mod, lemma_mod_bound};
use crate::pitch::{frequency_of, has_frequency, InvalidPitchModifier, UNITS_PER_HERTZ};
use crate::sheet::{Note, Value, BPM};

verus! {

/// A tempo that is not positive.
#[derive(Clone, Copy, Debug, PartialEq, Eq, Structural)]
pub struct InvalidTempo {
    pub bpm: BPM,
}

/// Why a tone or a composition cannot be made.
#[derive(Clone, Copy, Debug, PartialEq, Eq, Structural)]
pub enum SynthesisError {
    /// The tempo is not positive.
    InvalidTempo(InvalidTempo),
    /// A note names no key.
    InvalidPitchModifier(InvalidPitchModifier),
    /// The composition has more samples than a buffer can hold.
    TooLong,
}

/// What stands for the samples of one note: all that its waveform depends
/// on. Sample `i` of the tone is `envelope(i) * sin(2 * pi * f * i / r)`, with
/// `f` the frequency in hertz and `r` the sample rate; [`envelope`] gives the
/// first factor and [`phase`] the turns `f * i / r` without the whole ones.
#[derive(Clone, Copy, Debug, PartialEq, Eq, Structural)]
pub struct Tone {
    pub note: Note,
    pub bpm: BPM,
    /// Samples per second.
    pub sample_rate: u32,
    /// The frequency of the sine, in units of ten microhertz.
    pub frequency: u32,
    /// The number of samples.
    pub length: u64,
}

/// A fraction: the gain of a sample as a part of the full amplitude, or its
/// phase as a part of a full turn.
#[derive(Clone, Copy, Debug, PartialEq, Eq, Structural)]
pub struct Ratio {
    pub numerator: u64,
    pub denominator: u64,
}

/// The length of a value in ticks.
pub open spec fn value_ticks(sample_rate: int) -> int {
    60 * sample_rate
}

/// The length of one sample in ticks.
pub open spec fn sample_ticks(bpm: int, value: Value) -> int {
    bpm * value.spec_divisor()
}

/// The number of whole samples that fit into a value: the length of the slot
/// of a line.
pub open spec fn slot_length(sample_rate: int, bpm: int, value: Value) -> int {
    value_ticks(sample_rate) / sample_ticks(bpm, value)
}

/// The number of samples of a value, rounded to the nearest whole number, a
/// half upwards: the length of the tone of a note.
pub open spec fn tone_length(sample_rate: int, bpm: int, value: Value) -> int {
    (2 * value_ticks(sample_rate) + sample_ticks(bpm, value)) / (2 * sample_ticks(bpm, value))
}

/// The gain, in parts of `whole`, after `elapsed` of `whole` ticks: a rise
/// from nothing over the first tenth, the full amplitude up to eight tenths,
/// and a fall to nothing over the rest.
pub open spec fn envelope_gain(elapsed: int, whole: int) -> int {
    if 10 * elapsed < whole {
        10 * elapsed
    } else if 10 * elapsed < 8 * whole {
        whole
    } else {
        5 * (whole - elapsed)
    }
}

/// The number of parts of a full turn: as many as a sine of one frequency
/// unit needs samples for a turn.
pub open spec fn turn_ticks(sample_rate: int) -> int {
    UNITS_PER_HERTZ * sample_rate
}

/// The phase of a sample in parts of a turn: what a sine of the frequency
/// has turned by at the sample, without the whole turns.
pub open spec fn phase_ticks(sample_rate: int, frequency: int, index: int) -> int {
    (frequency * index) % turn_ticks(sample_rate)
}

/// The tone of a note at a tempo and a sample rate.
pub open spec fn tone_of(sample_rate: u32, note: Note, bpm: BPM) -> Tone {
    Tone {
        note,
        bpm,
        sample_rate,
        frequency: frequency_of(note.pitch, note.modifier) as u32,
        length: tone_length(sample_rate as int, bpm as int, note.value) as u64,
    }
}

/// What describing the tone of a note gives: a tempo that is not positive is
/// refused, then a note that names no key.
pub open spec fn synthesis_of(sample_rate: u32, note: Note, bpm: BPM) -> Result<
    Tone,
    SynthesisError,
> {
    if bpm <= 0 {
        Err(SynthesisError::InvalidTempo(InvalidTempo { bpm }))
    } else if !has_frequency(note.pitch, note.modifier) {
        Err(
            SynthesisError::InvalidPitchModifier(
                InvalidPitchModifier { pitch: note.pitch, modifier: note.modifier },
            ),
        )
    } else {
        Ok(tone_of(sample_rate, note, bpm))
    }
}

/// Whether a note can be played at a tempo.
pub open spec fn playable(note: Note, bpm: BPM) -> bool {
    bpm > 0 && has_frequency(note.pitch, note.modifier)
}

/// The slot of a line is the length of its value in samples, rounded down.
pub proof fn lemma_slot_length_is_floor(sample_rate: int, bpm: int, value: Value)
    requires
        0 <= sample_rate,
        0 < bpm,
    ensures
        ({
            let slot = slot_length(sample_rate, bpm, value);
            &&& 0 <= slot
            &&& slot * sample_ticks(bpm, value) <= value_ticks(sample_rate)
            &&& value_ticks(sample_rate) < (slot + 1) * sample_ticks(bpm, value)
        }),
{
    let n = value_ticks(sample_rate);
    let d = sample_ticks(bpm, value);
    lemma_span_positive(bpm, value);
    lemma_division(n, d);
}

/// The length of a tone is the length of its value in samples, rounded to
/// the nearest whole number: the two differ by half a sample at most.
pub proof fn lemma_tone_length_is_nearest(sample_rate: int, bpm: int, value: Value)
    requires
        0 <= sample_rate,
        0 < bpm,
    ensures
        ({
            let length = tone_length(sample_rate, bpm, value);
            &&& 0 <= length
            &&& (2 * length - 1) * sample_ticks(bpm, value) <= 2 * value_ticks(sample_rate)
            &&& 2 * value_ticks(sample_rate) < (2 * length + 1) * sample_ticks(bpm, value)
        }),
{
    let n = value_ticks(sample_rate);
    let d = sample_ticks(bpm, value);
    let length = tone_length(sample_rate, bpm, value);
    lemma_span_positive(bpm, value);
    lemma_division(2 * n + d, 2 * d);
    assert((2 * length - 1) * d == length * (2 * d) - d) by (nonlinear_arith);
    assert((2 * length + 1) * d == (length + 1) * (2 * d) - d) by (nonlinear_arith);
}

/// The slot of a line and the tone of a note of the same value differ by one
/// sample at most, and the tone is never the shorter one.
pub proof fn lemma_tone_fills_slot(sample_rate: int, bpm: int, value: Value)
    requires
        0 <= sample_rate,
        0 < bpm,
    ensures
        slot_length(sample_rate, bpm, value) <= tone_length(sample_rate, bpm, value)
            <= slot_length(sample_rate, bpm, value) + 1,
{
    let d = sample_ticks(bpm, value);
    let slot = slot_length(sample_rate, bpm, value);
    let length = tone_length(sample_rate, bpm, value);
    lemma_slot_length_is_floor(sample_rate, bpm, value);
    lemma_tone_length_is_nearest(sample_rate, bpm, value);
    lemma_span_positive(bpm, value);
    assert(slot <= length) by (nonlinear_arith)
        requires
            0 < d,
            2 * (slot * d) < (2 * length + 1) * d,
    ;
    assert(length <= slot + 1) by (nonlinear_arith)
        requires
            0 < d,
            (2 * length - 1) * d < 2 * ((slot + 1) * d),
    ;
}

/// The shape of the envelope: nothing at the start, a straight rise to the
/// full amplitude at one tenth, the full amplitude up to eight tenths, and a
/// straight fall to nothing at the end.
pub proof fn lemma_envelope_shape(elapsed: int, whole: int)
    requires
        0 <= elapsed <= whole,
        0 < whole,
    ensures
        0 <= envelope_gain(elapsed, whole) <= whole,
        elapsed == 0 ==> envelope_gain(elapsed, whole) == 0,
        10 * elapsed <= whole ==> envelope_gain(elapsed, whole) == 10 * elapsed,
        whole <= 10 * elapsed <= 8 * whole ==> envelope_gain(elapsed, whole) == whole,
        8 * whole <= 10 * elapsed ==> envelope_gain(elapsed, whole) == 5 * (whole - elapsed),
        elapsed == whole ==> envelope_gain(elapsed, whole) == 0,
{
}

/// Every sample of a tone lies inside the value of its note.
pub proof fn lemma_sample_inside_value(sample_rate: int, bpm: int, value: Value, index: int)
    requires
        0 <= sample_rate,
        0 < bpm,
        0 <= index < tone_length(sample_rate, bpm, value),
    ensures
        0 <= index * sample_ticks(bpm, value) < value_ticks(sample_rate),
{
    let n = value_ticks(sample_rate);
    let d = sample_ticks(bpm, value);
    let length = tone_length(sample_rate, bpm, value);
    lemma_tone_length_is_nearest(sample_rate, bpm, value);
    lemma_span_positive(bpm, value);
    assert(0 <= index * d && 2 * (index * d) < 2 * n) by (nonlinear_arith)
        requires
            0 < d,
            0 <= index <= length - 1,
            (2 * length - 1) * d <= 2 * n,
    ;
}

proof fn lemma_span_positive(bpm: int, value: Value)
    requires
        0 < bpm,
    ensures
        bpm <= sample_ticks(bpm, value) <= 16 * bpm,
{
}

proof fn lemma_division(n: int, d: int)
    requires
        0 <= n,
        0 < d,
    ensures
        0 <= n / d,
        (n / d) * d <= n < (n / d + 1) * d,
{
    lemma_fundamental_div_mod(n, d);
    lemma_mod_bound(n, d);
    assert(0 <= n / d && (n / d) * d <= n < (n / d + 1) * d) by (nonlinear_arith)
        requires
            n == d * (n / d) + n % d,
            0 <= n % d < d,
            0 <= n,
            0 < d,
    ;
}

/// The length of one sample in ticks.
fn ticks_of_sample(bpm: BPM, value: Value) -> (ticks: u64)
    requires
        0 < bpm,
    ensures
        ticks == sample_ticks(bpm as int, value),
        0 < ticks <= 16 * BPM::MAX,
{
    let divisor = value.divisor() as u64;
    proof {
        lemma_span_positive(bpm as int, value);
    }
    (bpm as u64) * divisor
}

/// The number of samples in the slot of a line: the length of the value of
/// the line, rounded down to whole samples.
pub fn slot_samples(sample_rate: u32, bpm: BPM, value: Value) -> (res: Result<u64, InvalidTempo>)
    ensures
        bpm > 0 ==> res == Ok::<u64, InvalidTempo>(
            slot_length(sample_rate as int, bpm as int, value) as u64,
        ),
        bpm > 0 ==> slot_length(sample_rate as int, bpm as int, value) <= 60 * u32::MAX,
        bpm <= 0 ==> res == Err::<u64, InvalidTempo>(InvalidTempo { bpm }),
{
    if bpm <= 0 {
        return Err(InvalidTempo { bpm });
    }
    let whole: u64 = 60 * (sample_rate as u64);
    let ticks = ticks_of_sample(bpm, value);
    proof {
        lemma_division(whole as int, ticks as int);
        assert(whole / ticks <= whole) by (nonlinear_arith)
            requires
                (whole / ticks) * ticks <= whole,
                0 <= whole / ticks,
                1 <= ticks,
        ;
    }
    Ok(whole / ticks)
}

/// The number of samples of a note: the length of its value, rounded to the
/// nearest whole sample.
pub fn tone_samples(sample_rate: u32, bpm: BPM, value: Value) -> (res: Result<u64, InvalidTempo>)
    ensures
        bpm > 0 ==> res == Ok::<u64, InvalidTempo>(
            tone_length(sample_rate as int, bpm as int, value) as u64,
        ),
        bpm > 0 ==> tone_length(sample_rate as int, bpm as int, value) <= 60 * u32::MAX + 1,
        bpm <= 0 ==> res == Err::<u64, InvalidTempo>(InvalidTempo { bpm }),
{
    if bpm <= 0 {
        return Err(InvalidTempo { bpm });
    }
    let whole: u64 = 60 * (sample_rate as u64);
    let ticks = ticks_of_sample(bpm, value);
    proof {
        lemma_slot_length_is_floor(sample_rate as int, bpm as int, value);
        lemma_tone_fills_slot(sample_rate as int, bpm as int, value);
        let slot = slot_length(sample_rate as int, bpm as int, value);
        assert(slot <= whole) by (nonlinear_arith)
            requires
                slot * ticks <= whole,
                0 <= slot,
                1 <= ticks,
        ;
    }
    Ok((2 * whole + ticks) / (2 * ticks))
}

/// The gain of one sample of a note. There is none where the tempo is not
/// positive or the note has no sample at the index. The first sample of a
/// note is silent.
pub fn envelope(sample_rate: u32, bpm: BPM, value: Value, index: u64) -> (res: Option<Ratio>)
    ensures
        res is Some <==> bpm > 0 && index < tone_length(sample_rate as int, bpm as int, value),
        res matches Some(gain) ==> ({
            &&& gain.denominator == value_ticks(sample_rate as int)
            &&& gain.numerator == envelope_gain(
                index * sample_ticks(bpm as int, value),
                value_ticks(sample_rate as int),
            )
            &&& gain.numerator <= gain.denominator
            &&& 0 < gain.denominator
            &&& index == 0 ==> gain.numerator == 0
        }),
{
    let length = match tone_samples(sample_rate, bpm, value) {
        Ok(length) => length,
        Err(_) => {
            return None;
        },
    };
    if index >= length {
        return None;
    }
    let whole: u64 = 60 * (sample_rate as u64);
    let ticks = ticks_of_sample(bpm, value);
    proof {
        lemma_sample_inside_value(sample_rate as int, bpm as int, value, index as int);
        lemma_envelope_shape(index * ticks, whole as int);
    }
    let elapsed = index * ticks;
    let numerator = if 10 * elapsed < whole {
        10 * elapsed
    } else if 10 * elapsed < 8 * whole {
        whole
    } else {
        5 * (whole - elapsed)
    };
    Some(Ratio { numerator, denominator: whole })
}

/// The phase of one sample of a sine, as a part of a full turn: sample
/// `index` of a sine of the frequency, given in units of ten microhertz, is
/// the sine of this part of a turn. There is none at a sample rate of zero.
pub fn phase(sample_rate: u32, frequency: u32, index: u64) -> (res: Option<Ratio>)
    ensures
        res is Some <==> sample_rate > 0,
        res matches Some(turns) ==> ({
            &&& turns.denominator == turn_ticks(sample_rate as int)
            &&& turns.numerator == phase_ticks(sample_rate as int, frequency as int, index as int)
            &&& turns.numerator < turns.denominator
        }),
{
    if sample_rate == 0 {
        return None;
    }
    assert(0 < UNITS_PER_HERTZ * sample_rate <= u64::MAX) by (nonlinear_arith)
        requires
            UNITS_PER_HERTZ == 100_000,
            0 < sample_rate <= u32::MAX,
    ;
    let whole: u64 = (UNITS_PER_HERTZ as u64) * (sample_rate as u64);
    assert(frequency * index <= u128::MAX) by (nonlinear_arith)
        requires
            frequency <= u32::MAX,
            index <= u64::MAX,
    ;
    let turns = (frequency as u128) * (index as u128);
    proof {
        lemma_mod_bound(turns as int, whole as int);
    }
    let part = (turns % (whole as u128)) as u64;
    Some(Ratio { numerator: part, denominator: whole })
}

} // verus!

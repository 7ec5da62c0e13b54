use sheet_synth::instrument::{Composition, Placement, SineGenerator};
use sheet_synth::parse;
use sheet_synth::pitch::{InvalidPitchModifier, UNITS_PER_HERTZ};
use sheet_synth::sheet::{Line, Modifier, Note, Pitch, Sheet, Value};
use sheet_synth::tone::{envelope, phase, InvalidTempo, SynthesisError, Tone};

const RATE: u32 = 96000;

fn natural(pitch: Pitch, value: Value) -> Note {
    Note::new(pitch, value, Modifier::Natural)
}

fn placement(tone: usize, offset: usize, length: usize) -> Placement {
    Placement {
        tone,
        offset,
        length,
    }
}

/// The samples of a tone.
fn render_tone(tone: &Tone) -> Vec<f32> {
    (0..tone.length)
        .map(|index| {
            let gain = envelope(tone.sample_rate, tone.bpm, tone.note.value, index).unwrap();
            let turns = phase(tone.sample_rate, tone.frequency, index).unwrap();
            let scale = gain.numerator as f64 / gain.denominator as f64;
            let angle = 2.0 * std::f64::consts::PI * turns.numerator as f64
                / turns.denominator as f64;
            (scale * angle.sin()) as f32
        })
        .collect()
}

/// The samples of a composition.
fn render(generator: &SineGenerator, composition: &Composition) -> Vec<f32> {
    let tones: Vec<Vec<f32>> = generator.tones().iter().map(render_tone).collect();
    let mut timeline = vec![0.0f32; composition.length];
    for placed in composition.placements.iter() {
        for index in 0..placed.length {
            timeline[placed.offset + index] += tones[placed.tone][index];
        }
    }
    timeline
}

#[test]
fn new_generator_remembers_nothing() {
    let generator = SineGenerator::new(RATE);
    assert_eq!(generator.sample_rate(), RATE);
    assert!(generator.tones().is_empty());
}

#[test]
fn tone_of_a_note() {
    let generator = SineGenerator::new(RATE);
    let note = natural(Pitch::A4, Value::Quarter);
    assert_eq!(
        generator.sample_at_rate(note, 60),
        Ok(Tone {
            note,
            bpm: 60,
            sample_rate: RATE,
            frequency: 44_000_000,
            length: 24000,
        })
    );
    let sharp = Note::new(Pitch::D4, Value::Eighth, Modifier::Sharp);
    assert_eq!(
        generator.sample_at_rate(sharp, 90),
        Ok(Tone {
            note: sharp,
            bpm: 90,
            sample_rate: RATE,
            frequency: 31_112_700,
            length: 8000,
        })
    );
    assert!(generator.tones().is_empty());
}

#[test]
fn tone_failures() {
    let generator = SineGenerator::new(RATE);
    let note = natural(Pitch::A4, Value::Quarter);
    let flat = Note::new(Pitch::A0, Value::Quarter, Modifier::Flat);
    assert_eq!(
        generator.sample_at_rate(note, 0),
        Err(SynthesisError::InvalidTempo(InvalidTempo { bpm: 0 }))
    );
    assert_eq!(
        generator.sample_at_rate(note, -60),
        Err(SynthesisError::InvalidTempo(InvalidTempo { bpm: -60 }))
    );
    assert_eq!(
        generator.sample_at_rate(flat, 60),
        Err(SynthesisError::InvalidPitchModifier(InvalidPitchModifier {
            pitch: Pitch::A0,
            modifier: Modifier::Flat
        }))
    );
    assert_eq!(
        generator.sample_at_rate(flat, 0),
        Err(SynthesisError::InvalidTempo(InvalidTempo { bpm: 0 }))
    );
}

#[test]
fn a_tone_is_described_once() {
    let mut generator = SineGenerator::new(RATE);
    let note = natural(Pitch::A4, Value::Quarter);
    let first = generator.sample(note, 60).unwrap();
    assert_eq!(generator.tones().len(), 1);
    let second = generator.sample(note, 60).unwrap();
    assert_eq!(first, second);
    assert_eq!(generator.tones().len(), 1);
    assert_eq!(generator.tones()[0], first);
    assert_eq!(Ok(first), generator.sample_at_rate(note, 60));
    assert_eq!(render_tone(&first), render_tone(&second));
}

#[test]
fn one_tone_for_each_note_and_tempo() {
    let mut generator = SineGenerator::new(RATE);
    let a = natural(Pitch::A4, Value::Quarter);
    let b = natural(Pitch::A4, Value::Half);
    let c = Note::new(Pitch::A4, Value::Quarter, Modifier::Sharp);
    let d = natural(Pitch::B4, Value::Quarter);
    let asked = [
        (a, 60),
        (b, 60),
        (a, 61),
        (c, 60),
        (a, 60),
        (d, 60),
        (b, 60),
        (a, 61),
    ];
    for (note, bpm) in asked {
        let tone = generator.sample(note, bpm).unwrap();
        assert_eq!(tone.note, note);
        assert_eq!(tone.bpm, bpm);
    }
    let tones = generator.tones();
    assert_eq!(tones.len(), 5);
    assert_eq!((tones[0].note, tones[0].bpm), (a, 60));
    assert_eq!((tones[1].note, tones[1].bpm), (b, 60));
    assert_eq!((tones[2].note, tones[2].bpm), (a, 61));
    assert_eq!((tones[3].note, tones[3].bpm), (c, 60));
    assert_eq!((tones[4].note, tones[4].bpm), (d, 60));
}

#[test]
fn failures_are_not_remembered() {
    let mut generator = SineGenerator::new(RATE);
    let flat = Note::new(Pitch::C4, Value::Quarter, Modifier::Flat);
    assert_eq!(
        generator.sample(flat, 60),
        Err(SynthesisError::InvalidPitchModifier(InvalidPitchModifier {
            pitch: Pitch::C4,
            modifier: Modifier::Flat
        }))
    );
    assert_eq!(
        generator.sample(natural(Pitch::C4, Value::Quarter), 0),
        Err(SynthesisError::InvalidTempo(InvalidTempo { bpm: 0 }))
    );
    assert!(generator.tones().is_empty());
}

#[test]
fn compose_one_note() {
    let mut generator = SineGenerator::new(RATE);
    let note = natural(Pitch::A4, Value::Quarter);
    let sheet = Sheet::new(60, Value::Quarter, vec![Line(vec![note])]);
    let composition = generator.compose(&sheet).unwrap();
    assert_eq!(composition.length, 24000);
    assert_eq!(composition.length, (RATE as f32 * 0.25).round() as usize);
    assert_eq!(composition.line_length, 24000);
    assert_eq!(composition.placements, vec![placement(0, 0, 24000)]);
    assert_eq!(generator.tones().len(), 1);
    assert_eq!(generator.tones()[0].note, note);
    assert_eq!(render(&generator, &composition).len(), 24000);
}

#[test]
fn compose_parsed_sheet() {
    let sheet = parse::parse("90xe\n--\nD3e F5h\nA4e").unwrap();
    let mut generator = SineGenerator::new(RATE);
    let composition = generator.compose(&sheet).unwrap();
    assert_eq!(composition.line_length, 8000);
    assert_eq!(composition.length, 16000);
    assert_eq!(
        composition.placements,
        vec![
            placement(0, 0, 8000),
            placement(1, 0, 16000),
            placement(2, 8000, 8000),
        ]
    );
    let tones = generator.tones();
    assert_eq!(tones.len(), 3);
    assert_eq!(tones[0].note, natural(Pitch::D3, Value::Eighth));
    assert_eq!(tones[1].note, natural(Pitch::F5, Value::Half));
    assert_eq!(tones[1].length, 32000);
    assert_eq!(tones[2].note, natural(Pitch::A4, Value::Eighth));
}

#[test]
fn compose_shares_tones() {
    let a = natural(Pitch::A4, Value::Quarter);
    let c = natural(Pitch::C4, Value::Quarter);
    let sheet = Sheet::new(
        120,
        Value::Quarter,
        vec![
            Line(vec![a, c]),
            Line(vec![]),
            Line(vec![c]),
            Line(vec![a, a]),
        ],
    );
    let mut generator = SineGenerator::new(RATE);
    let composition = generator.compose(&sheet).unwrap();
    assert_eq!(composition.line_length, 12000);
    assert_eq!(composition.length, 48000);
    assert_eq!(
        composition.placements,
        vec![
            placement(0, 0, 12000),
            placement(1, 0, 12000),
            placement(1, 24000, 12000),
            placement(0, 36000, 12000),
            placement(0, 36000, 12000),
        ]
    );
    assert_eq!(generator.tones().len(), 2);

    let again = generator.compose(&sheet).unwrap();
    assert_eq!(again, composition);
    assert_eq!(generator.tones().len(), 2);
}

#[test]
fn long_notes_sound_on_and_end_with_the_timeline() {
    let long = natural(Pitch::A4, Value::Whole);
    let short = natural(Pitch::A4, Value::Sixteenth);
    let sheet = Sheet::new(
        60,
        Value::Quarter,
        vec![
            Line(vec![long]),
            Line(vec![short]),
            Line(vec![]),
            Line(vec![]),
            Line(vec![long, short]),
        ],
    );
    let mut generator = SineGenerator::new(1000);
    let composition = generator.compose(&sheet).unwrap();
    assert_eq!(composition.line_length, 250);
    assert_eq!(composition.length, 1250);
    assert_eq!(
        composition.placements,
        vec![
            placement(0, 0, 1000),
            placement(1, 250, 63),
            placement(0, 1000, 250),
            placement(1, 1000, 63),
        ]
    );
    let timeline = render(&generator, &composition);
    assert_eq!(timeline.len(), 1250);
    assert_eq!(timeline[0], 0.0);
    assert!(timeline[313..1000].iter().any(|sample| *sample != 0.0));
}

#[test]
fn rounding_may_cost_a_tone_its_last_sample() {
    // 60000 / 11 samples: the slot has 5454 of them, the tone 5455.
    let note = natural(Pitch::A4, Value::Whole);
    let sheet = Sheet::new(11, Value::Whole, vec![Line(vec![note]), Line(vec![note])]);
    let mut generator = SineGenerator::new(1000);
    let composition = generator.compose(&sheet).unwrap();
    assert_eq!(composition.line_length, 5454);
    assert_eq!(composition.length, 10908);
    assert_eq!(
        composition.placements,
        vec![placement(0, 0, 5455), placement(0, 5454, 5454)]
    );
}

#[test]
fn compose_without_lines() {
    let mut generator = SineGenerator::new(RATE);
    let sheet = Sheet::new(60, Value::Quarter, vec![]);
    let composition = generator.compose(&sheet).unwrap();
    assert_eq!(composition.length, 0);
    assert_eq!(composition.line_length, 24000);
    assert!(composition.placements.is_empty());
    let rests = Sheet::new(60, Value::Quarter, vec![Line(vec![]), Line(vec![])]);
    let composition = generator.compose(&rests).unwrap();
    assert_eq!(composition.length, 48000);
    assert!(composition.placements.is_empty());
    assert!(render(&generator, &composition)
        .iter()
        .all(|sample| *sample == 0.0));
}

#[test]
fn compose_refuses_a_tempo_that_is_not_positive() {
    let note = natural(Pitch::A4, Value::Quarter);
    let mut generator = SineGenerator::new(RATE);
    for bpm in [0, -1, i32::MIN] {
        let sheet = Sheet::new(bpm, Value::Quarter, vec![Line(vec![note])]);
        assert_eq!(
            generator.compose(&sheet),
            Err(SynthesisError::InvalidTempo(InvalidTempo { bpm }))
        );
    }
    let parsed = parse::parse("0xq\n--\nA4q").unwrap();
    assert_eq!(
        generator.compose(&parsed),
        Err(SynthesisError::InvalidTempo(InvalidTempo { bpm: 0 }))
    );
    assert!(generator.tones().is_empty());
}

#[test]
fn compose_refuses_a_note_without_a_key() {
    let good = natural(Pitch::A4, Value::Quarter);
    let first = Note::new(Pitch::E4, Value::Quarter, Modifier::Sharp);
    let second = Note::new(Pitch::A0, Value::Quarter, Modifier::Flat);
    let sheet = Sheet::new(
        60,
        Value::Quarter,
        vec![Line(vec![good]), Line(vec![good, first]), Line(vec![second])],
    );
    let mut generator = SineGenerator::new(RATE);
    assert_eq!(
        generator.compose(&sheet),
        Err(SynthesisError::InvalidPitchModifier(InvalidPitchModifier {
            pitch: Pitch::E4,
            modifier: Modifier::Sharp
        }))
    );
    assert!(generator.tones().is_empty());
}

#[test]
fn samples_stay_in_range() {
    let generator = SineGenerator::new(RATE);
    let tone = generator
        .sample_at_rate(natural(Pitch::A4, Value::Eighth), 90)
        .unwrap();
    let samples = render_tone(&tone);
    assert_eq!(samples.len(), 8000);
    assert_eq!(samples[0], 0.0);
    assert!(samples.iter().all(|sample| sample.abs() <= 1.0));
    assert!(samples.iter().any(|sample| sample.abs() > 0.99));
}

#[test]
fn chords_add_up() {
    let a = natural(Pitch::A4, Value::Quarter);
    let sheet = Sheet::new(60, Value::Quarter, vec![Line(vec![a, a])]);
    let mut generator = SineGenerator::new(8000);
    let composition = generator.compose(&sheet).unwrap();
    let timeline = render(&generator, &composition);
    let single = render_tone(&generator.tones()[0]);
    assert_eq!(timeline.len(), single.len());
    for index in 0..single.len() {
        assert_eq!(timeline[index], single[index] + single[index]);
    }
    assert!(timeline.iter().any(|sample| sample.abs() > 1.0));
}

#[test]
fn compose_refuses_a_timeline_that_is_too_long() {
    // The longest slot there is: a whole note at one beat per minute.
    let slot = 60 * u32::MAX as u64;
    let count = (usize::MAX as u64 / slot) as usize;
    let mut generator = SineGenerator::new(u32::MAX);
    let mut lines = Vec::with_capacity(count + 1);
    lines.resize_with(count, || Line(Vec::new()));
    let longest = Sheet::new(1, Value::Whole, lines);
    let composition = generator.compose(&longest).unwrap();
    assert_eq!(composition.line_length, slot);
    assert_eq!(composition.length as u64, count as u64 * slot);
    let mut lines = longest.lines;
    lines.push(Line(Vec::new()));
    let beyond = Sheet::new(1, Value::Whole, lines);
    assert_eq!(generator.compose(&beyond), Err(SynthesisError::TooLong));
    assert!(generator.tones().is_empty());
}

#[test]
fn samples_follow_the_sine() {
    let generator = SineGenerator::new(RATE);
    let tone = generator
        .sample_at_rate(natural(Pitch::A4, Value::Quarter), 60)
        .unwrap();
    let samples = render_tone(&tone);
    let hertz = tone.frequency as f64 / UNITS_PER_HERTZ as f64;
    assert_eq!(hertz, 440.0);
    // From a tenth to eight tenths of the note the gain is one.
    for index in 2400..19200usize {
        let time = index as f64 / RATE as f64;
        let expected = (2.0 * std::f64::consts::PI * hertz * time).sin();
        assert!((samples[index] as f64 - expected).abs() < 1.0e-6, "{}", index);
    }
    // Half way up the rise the gain is a half.
    let time = 1200.0 / RATE as f64;
    let expected = 0.5 * (2.0 * std::f64::consts::PI * hertz * time).sin();
    assert!((samples[1200] as f64 - expected).abs() < 1.0e-6);
}

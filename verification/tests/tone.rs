use sheet_synth::sheet::Value;
use sheet_synth::tone::{envelope, phase, slot_samples, tone_samples, InvalidTempo, Ratio};

const RATE: u32 = 96000;

fn rounded(sample_rate: u32, bpm: i32, value: Value) -> u64 {
    let seconds = 60.0f64 / bpm as f64 / value.divisor() as f64;
    (sample_rate as f64 * seconds).round() as u64
}

#[test]
fn tone_sample_counts() {
    assert_eq!(tone_samples(RATE, 90, Value::Eighth), Ok(8000));
    assert_eq!(tone_samples(RATE, 120, Value::Whole), Ok(48000));
    assert_eq!(tone_samples(RATE, 60, Value::Quarter), Ok(24000));
    assert_eq!(tone_samples(RATE, 90, Value::Half), Ok(32000));
    assert_eq!(tone_samples(44100, 90, Value::Eighth), Ok(3675));
}

#[test]
fn tone_sample_counts_are_rounded() {
    assert_eq!(tone_samples(1000, 7, Value::Whole), Ok(8571));
    assert_eq!(tone_samples(1000, 11, Value::Whole), Ok(5455));
    assert_eq!(tone_samples(1, 8, Value::Whole), Ok(8));
    assert_eq!(tone_samples(1, 24, Value::Whole), Ok(3));
    assert_eq!(tone_samples(1, 60, Value::Sixteenth), Ok(0));
    assert_eq!(tone_samples(1, 60, Value::Half), Ok(1));
    assert_eq!(tone_samples(0, 60, Value::Whole), Ok(0));
}

#[test]
fn tone_sample_counts_match_the_formula() {
    let values = [
        Value::Whole,
        Value::Half,
        Value::Quarter,
        Value::Eighth,
        Value::Sixteenth,
    ];
    for bpm in [1, 33, 60, 90, 120, 144, 200, 777] {
        for value in values {
            for rate in [8000, 44100, 48000, RATE] {
                assert_eq!(
                    tone_samples(rate, bpm, value),
                    Ok(rounded(rate, bpm, value)),
                    "{} {} {:?}",
                    rate,
                    bpm,
                    value
                );
            }
        }
    }
}

#[test]
fn slot_sample_counts_are_rounded_down() {
    assert_eq!(slot_samples(RATE, 60, Value::Quarter), Ok(24000));
    assert_eq!(slot_samples(RATE, 90, Value::Eighth), Ok(8000));
    assert_eq!(slot_samples(1000, 7, Value::Whole), Ok(8571));
    assert_eq!(slot_samples(1000, 11, Value::Whole), Ok(5454));
    assert_eq!(slot_samples(1, 8, Value::Whole), Ok(7));
    assert_eq!(slot_samples(1, 60, Value::Half), Ok(0));
    assert_eq!(slot_samples(0, 60, Value::Whole), Ok(0));
}

#[test]
fn largest_counts() {
    assert_eq!(
        tone_samples(u32::MAX, 1, Value::Whole),
        Ok(60 * u32::MAX as u64)
    );
    assert_eq!(
        slot_samples(u32::MAX, 1, Value::Whole),
        Ok(60 * u32::MAX as u64)
    );
    assert_eq!(tone_samples(u32::MAX, i32::MAX, Value::Sixteenth), Ok(8));
    assert_eq!(slot_samples(u32::MAX, i32::MAX, Value::Sixteenth), Ok(7));
}

#[test]
fn tempo_must_be_positive() {
    assert_eq!(
        tone_samples(RATE, 0, Value::Whole),
        Err(InvalidTempo { bpm: 0 })
    );
    assert_eq!(
        tone_samples(RATE, -90, Value::Whole),
        Err(InvalidTempo { bpm: -90 })
    );
    assert_eq!(
        slot_samples(RATE, 0, Value::Quarter),
        Err(InvalidTempo { bpm: 0 })
    );
    assert_eq!(
        slot_samples(RATE, i32::MIN, Value::Quarter),
        Err(InvalidTempo { bpm: i32::MIN })
    );
}

fn gain(numerator: u64, denominator: u64) -> Option<Ratio> {
    Some(Ratio {
        numerator,
        denominator,
    })
}

#[test]
fn envelope_values() {
    // 100 samples: sample i stands at i hundredths of the note.
    assert_eq!(tone_samples(100, 60, Value::Whole), Ok(100));
    assert_eq!(envelope(100, 60, Value::Whole, 0), gain(0, 6000));
    assert_eq!(envelope(100, 60, Value::Whole, 1), gain(600, 6000));
    assert_eq!(envelope(100, 60, Value::Whole, 5), gain(3000, 6000));
    assert_eq!(envelope(100, 60, Value::Whole, 9), gain(5400, 6000));
    assert_eq!(envelope(100, 60, Value::Whole, 10), gain(6000, 6000));
    assert_eq!(envelope(100, 60, Value::Whole, 45), gain(6000, 6000));
    assert_eq!(envelope(100, 60, Value::Whole, 79), gain(6000, 6000));
    assert_eq!(envelope(100, 60, Value::Whole, 80), gain(6000, 6000));
    assert_eq!(envelope(100, 60, Value::Whole, 81), gain(5700, 6000));
    assert_eq!(envelope(100, 60, Value::Whole, 90), gain(3000, 6000));
    assert_eq!(envelope(100, 60, Value::Whole, 99), gain(300, 6000));
}

#[test]
fn envelope_ends_with_the_tone() {
    assert_eq!(envelope(100, 60, Value::Whole, 100), None);
    assert_eq!(envelope(100, 60, Value::Whole, u64::MAX), None);
    assert_eq!(envelope(100, 0, Value::Whole, 0), None);
    assert_eq!(envelope(100, -60, Value::Whole, 0), None);
    assert_eq!(envelope(0, 60, Value::Whole, 0), None);
    assert!(envelope(RATE, 90, Value::Eighth, 7999).is_some());
    assert_eq!(envelope(RATE, 90, Value::Eighth, 8000), None);
}

#[test]
fn envelope_follows_the_trapezoid() {
    let length = tone_samples(RATE, 90, Value::Eighth).unwrap();
    for index in 0..length {
        let gain = envelope(RATE, 90, Value::Eighth, index).unwrap();
        assert!(gain.numerator <= gain.denominator);
        let scale = gain.numerator as f64 / gain.denominator as f64;
        let p = index as f64 / length as f64;
        let expected = if p < 0.1 {
            p / 0.1
        } else if p < 0.8 {
            1.0
        } else {
            1.0 - (p - 0.8) / 0.2
        };
        assert!((scale - expected).abs() < 1.0e-9, "{}", index);
    }
}

#[test]
fn envelope_boundaries() {
    let length = tone_samples(RATE, 120, Value::Whole).unwrap();
    let at = |index: u64| {
        let gain = envelope(RATE, 120, Value::Whole, index).unwrap();
        (gain.numerator, gain.denominator)
    };
    let whole = 60 * RATE as u64;
    assert_eq!(at(0), (0, whole));
    assert_eq!(at(length / 20), (whole / 2, whole));
    assert_eq!(at(length / 10), (whole, whole));
    assert_eq!(at(length / 2), (whole, whole));
    assert_eq!(at(length * 8 / 10), (whole, whole));
    assert_eq!(at(length * 9 / 10), (whole / 2, whole));
    assert_eq!(at(length - 1), (5 * 120, whole));
}

#[test]
fn phase_values() {
    let whole = 100_000 * RATE as u64;
    assert_eq!(phase(RATE, 44_000_000, 0), gain(0, whole));
    assert_eq!(phase(RATE, 44_000_000, 1), gain(44_000_000, whole));
    assert_eq!(phase(RATE, 44_000_000, 218), gain(9_592_000_000, whole));
    assert_eq!(phase(RATE, 44_000_000, 219), gain(36_000_000, whole));
    assert_eq!(phase(RATE, 44_000_000, 240), gain(960_000_000, whole));
    assert_eq!(phase(RATE, 44_000_000, 2400), gain(0, whole));
    assert_eq!(phase(1, 100_000, 7), gain(0, 100_000));
    assert_eq!(phase(1, 25_000, 7), gain(75_000, 100_000));
    assert_eq!(phase(RATE, 0, 12345), gain(0, whole));
}

#[test]
fn phase_needs_a_sample_rate() {
    assert_eq!(phase(0, 44_000_000, 0), None);
    assert_eq!(phase(0, 44_000_000, 17), None);
}

#[test]
fn phase_stays_inside_a_turn() {
    for index in [0, 1, 95_999, 96_000, 1 << 40, u64::MAX - 1, u64::MAX] {
        for frequency in [1, 2_750_000, 418_600_900, u32::MAX] {
            for rate in [1, 44100, RATE, u32::MAX] {
                let turns = phase(rate, frequency, index).unwrap();
                assert_eq!(turns.denominator, 100_000 * rate as u64);
                assert!(turns.numerator < turns.denominator);
                let exact = frequency as u128 * index as u128 % turns.denominator as u128;
                assert_eq!(turns.numerator as u128, exact);
            }
        }
    }
}

use sheet_synth::pitch::{fundamental_frequency, InvalidPitchModifier, KEY_COUNT, UNITS_PER_HERTZ};
use sheet_synth::sheet::{Modifier, Note, Pitch, Value};

fn hertz(units: u32) -> f32 {
    (units as f64 / UNITS_PER_HERTZ as f64) as f32
}

fn lookup(pitch: Pitch, modifier: Modifier) -> Result<u32, InvalidPitchModifier> {
    fundamental_frequency(&Note::new(pitch, Value::Quarter, modifier))
}

fn all_pitches() -> Vec<Pitch> {
    vec![
        Pitch::A0, Pitch::B0, Pitch::C1, Pitch::D1, Pitch::E1, Pitch::F1, Pitch::G1,
        Pitch::A1, Pitch::B1, Pitch::C2, Pitch::D2, Pitch::E2, Pitch::F2, Pitch::G2,
        Pitch::A2, Pitch::B2, Pitch::C3, Pitch::D3, Pitch::E3, Pitch::F3, Pitch::G3,
        Pitch::A3, Pitch::B3, Pitch::C4, Pitch::D4, Pitch::E4, Pitch::F4, Pitch::G4,
        Pitch::A4, Pitch::B4, Pitch::C5, Pitch::D5, Pitch::E5, Pitch::F5, Pitch::G5,
        Pitch::A5, Pitch::B5, Pitch::C6, Pitch::D6, Pitch::E6, Pitch::F6, Pitch::G6,
        Pitch::A6, Pitch::B6, Pitch::C7, Pitch::D7, Pitch::E7, Pitch::F7, Pitch::G7,
        Pitch::A7, Pitch::B7, Pitch::C8,
    ]
}

fn table() -> Vec<(Pitch, Modifier, f32)> {
    vec![
        (Pitch::A0, Modifier::Natural, 27.50000),
        (Pitch::A0, Modifier::Sharp, 29.13524),
        (Pitch::B0, Modifier::Flat, 29.13524),
        (Pitch::B0, Modifier::Natural, 30.86771),
        (Pitch::C1, Modifier::Natural, 32.70320),
        (Pitch::C1, Modifier::Sharp, 34.64783),
        (Pitch::D1, Modifier::Flat, 34.64783),
        (Pitch::D1, Modifier::Natural, 36.70810),
        (Pitch::D1, Modifier::Sharp, 38.89087),
        (Pitch::E1, Modifier::Flat, 38.89087),
        (Pitch::E1, Modifier::Natural, 41.20344),
        (Pitch::F1, Modifier::Natural, 43.65353),
        (Pitch::F1, Modifier::Sharp, 46.24930),
        (Pitch::G1, Modifier::Flat, 46.24930),
        (Pitch::G1, Modifier::Natural, 48.99943),
        (Pitch::G1, Modifier::Sharp, 51.91309),
        (Pitch::A1, Modifier::Flat, 51.91309),
        (Pitch::A1, Modifier::Natural, 55.00000),
        (Pitch::A1, Modifier::Sharp, 58.27047),
        (Pitch::B1, Modifier::Flat, 58.27047),
        (Pitch::B1, Modifier::Natural, 61.73541),
        (Pitch::C2, Modifier::Natural, 65.40639),
        (Pitch::C2, Modifier::Sharp, 69.29566),
        (Pitch::D2, Modifier::Flat, 69.29566),
        (Pitch::D2, Modifier::Natural, 73.41619),
        (Pitch::D2, Modifier::Sharp, 77.78175),
        (Pitch::E2, Modifier::Flat, 77.78175),
        (Pitch::E2, Modifier::Natural, 82.40689),
        (Pitch::F2, Modifier::Natural, 87.30706),
        (Pitch::F2, Modifier::Sharp, 92.49861),
        (Pitch::G2, Modifier::Flat, 92.49861),
        (Pitch::G2, Modifier::Natural, 97.99886),
        (Pitch::G2, Modifier::Sharp, 103.8262),
        (Pitch::A2, Modifier::Flat, 103.8262),
        (Pitch::A2, Modifier::Natural, 110.0000),
        (Pitch::A2, Modifier::Sharp, 116.5409),
        (Pitch::B2, Modifier::Flat, 116.5409),
        (Pitch::B2, Modifier::Natural, 123.4708),
        (Pitch::C3, Modifier::Natural, 130.8128),
        (Pitch::C3, Modifier::Sharp, 138.5913),
        (Pitch::D3, Modifier::Flat, 138.5913),
        (Pitch::D3, Modifier::Natural, 146.8324),
        (Pitch::D3, Modifier::Sharp, 155.5635),
        (Pitch::E3, Modifier::Flat, 155.5635),
        (Pitch::E3, Modifier::Natural, 164.8138),
        (Pitch::F3, Modifier::Natural, 174.6141),
        (Pitch::F3, Modifier::Sharp, 184.9972),
        (Pitch::G3, Modifier::Flat, 184.9972),
        (Pitch::G3, Modifier::Natural, 195.9977),
        (Pitch::G3, Modifier::Sharp, 207.6523),
        (Pitch::A3, Modifier::Flat, 207.6523),
        (Pitch::A3, Modifier::Natural, 220.0000),
        (Pitch::A3, Modifier::Sharp, 233.0819),
        (Pitch::B3, Modifier::Flat, 233.0819),
        (Pitch::B3, Modifier::Natural, 246.9417),
        (Pitch::C4, Modifier::Natural, 261.6256),
        (Pitch::C4, Modifier::Sharp, 277.1826),
        (Pitch::D4, Modifier::Flat, 277.1826),
        (Pitch::D4, Modifier::Natural, 293.6648),
        (Pitch::D4, Modifier::Sharp, 311.1270),
        (Pitch::E4, Modifier::Flat, 311.1270),
        (Pitch::E4, Modifier::Natural, 329.6276),
        (Pitch::F4, Modifier::Natural, 349.2282),
        (Pitch::F4, Modifier::Sharp, 369.9944),
        (Pitch::G4, Modifier::Flat, 369.9944),
        (Pitch::G4, Modifier::Natural, 391.9954),
        (Pitch::G4, Modifier::Sharp, 415.3047),
        (Pitch::A4, Modifier::Flat, 415.3047),
        (Pitch::A4, Modifier::Natural, 440.0000),
        (Pitch::A4, Modifier::Sharp, 466.1638),
        (Pitch::B4, Modifier::Flat, 466.1638),
        (Pitch::B4, Modifier::Natural, 493.8833),
        (Pitch::C5, Modifier::Natural, 523.2511),
        (Pitch::C5, Modifier::Sharp, 554.3653),
        (Pitch::D5, Modifier::Flat, 554.3653),
        (Pitch::D5, Modifier::Natural, 587.3295),
        (Pitch::D5, Modifier::Sharp, 622.2540),
        (Pitch::E5, Modifier::Flat, 622.2540),
        (Pitch::E5, Modifier::Natural, 659.2551),
        (Pitch::F5, Modifier::Natural, 698.4565),
        (Pitch::F5, Modifier::Sharp, 739.9888),
        (Pitch::G5, Modifier::Flat, 739.9888),
        (Pitch::G5, Modifier::Natural, 783.9909),
        (Pitch::G5, Modifier::Sharp, 830.6094),
        (Pitch::A5, Modifier::Flat, 830.6094),
        (Pitch::A5, Modifier::Natural, 880.0000),
        (Pitch::A5, Modifier::Sharp, 932.3275),
        (Pitch::B5, Modifier::Flat, 932.3275),
        (Pitch::B5, Modifier::Natural, 987.7666),
        (Pitch::C6, Modifier::Natural, 1046.502),
        (Pitch::C6, Modifier::Sharp, 1108.731),
        (Pitch::D6, Modifier::Flat, 1108.731),
        (Pitch::D6, Modifier::Natural, 1174.659),
        (Pitch::D6, Modifier::Sharp, 1244.508),
        (Pitch::E6, Modifier::Flat, 1244.508),
        (Pitch::E6, Modifier::Natural, 1318.510),
        (Pitch::F6, Modifier::Natural, 1396.913),
        (Pitch::F6, Modifier::Sharp, 1479.978),
        (Pitch::G6, Modifier::Flat, 1479.978),
        (Pitch::G6, Modifier::Natural, 1567.982),
        (Pitch::G6, Modifier::Sharp, 1661.219),
        (Pitch::A6, Modifier::Flat, 1661.219),
        (Pitch::A6, Modifier::Natural, 1760.000),
        (Pitch::A6, Modifier::Sharp, 1864.655),
        (Pitch::B6, Modifier::Flat, 1864.655),
        (Pitch::B6, Modifier::Natural, 1975.533),
        (Pitch::C7, Modifier::Natural, 2093.005),
        (Pitch::C7, Modifier::Sharp, 2217.461),
        (Pitch::D7, Modifier::Flat, 2217.461),
        (Pitch::D7, Modifier::Natural, 2349.318),
        (Pitch::D7, Modifier::Sharp, 2489.016),
        (Pitch::E7, Modifier::Flat, 2489.016),
        (Pitch::E7, Modifier::Natural, 2637.020),
        (Pitch::F7, Modifier::Natural, 2793.826),
        (Pitch::F7, Modifier::Sharp, 2959.955),
        (Pitch::G7, Modifier::Flat, 2959.955),
        (Pitch::G7, Modifier::Natural, 3135.963),
        (Pitch::G7, Modifier::Sharp, 3322.438),
        (Pitch::A7, Modifier::Flat, 3322.438),
        (Pitch::A7, Modifier::Natural, 3520.000),
        (Pitch::A7, Modifier::Sharp, 3729.310),
        (Pitch::B7, Modifier::Flat, 3729.310),
        (Pitch::B7, Modifier::Natural, 3951.066),
        (Pitch::C8, Modifier::Natural, 4186.009),
    ]
}

fn undefined() -> Vec<(Pitch, Modifier)> {
    vec![
        (Pitch::A0, Modifier::Flat),
        (Pitch::B0, Modifier::Sharp),
        (Pitch::C1, Modifier::Flat),
        (Pitch::E1, Modifier::Sharp),
        (Pitch::F1, Modifier::Flat),
        (Pitch::B1, Modifier::Sharp),
        (Pitch::C2, Modifier::Flat),
        (Pitch::E2, Modifier::Sharp),
        (Pitch::F2, Modifier::Flat),
        (Pitch::B2, Modifier::Sharp),
        (Pitch::C3, Modifier::Flat),
        (Pitch::E3, Modifier::Sharp),
        (Pitch::F3, Modifier::Flat),
        (Pitch::B3, Modifier::Sharp),
        (Pitch::C4, Modifier::Flat),
        (Pitch::E4, Modifier::Sharp),
        (Pitch::F4, Modifier::Flat),
        (Pitch::B4, Modifier::Sharp),
        (Pitch::C5, Modifier::Flat),
        (Pitch::E5, Modifier::Sharp),
        (Pitch::F5, Modifier::Flat),
        (Pitch::B5, Modifier::Sharp),
        (Pitch::C6, Modifier::Flat),
        (Pitch::E6, Modifier::Sharp),
        (Pitch::F6, Modifier::Flat),
        (Pitch::B6, Modifier::Sharp),
        (Pitch::C7, Modifier::Flat),
        (Pitch::E7, Modifier::Sharp),
        (Pitch::F7, Modifier::Flat),
        (Pitch::B7, Modifier::Sharp),
        (Pitch::C8, Modifier::Flat),
        (Pitch::C8, Modifier::Sharp),
    ]
}

#[test]
fn frequencies_in_hertz() {
    let table = table();
    assert_eq!(table.len(), 124);
    for (pitch, modifier, expected) in table {
        let units = lookup(pitch, modifier).unwrap();
        assert_eq!(hertz(units), expected, "{:?} {:?}", pitch, modifier);
    }
}

#[test]
fn concert_pitch() {
    assert_eq!(lookup(Pitch::A4, Modifier::Natural), Ok(44_000_000));
    assert_eq!(lookup(Pitch::A0, Modifier::Natural), Ok(2_750_000));
    assert_eq!(lookup(Pitch::C4, Modifier::Natural), Ok(26_162_560));
    assert_eq!(lookup(Pitch::C8, Modifier::Natural), Ok(418_600_900));
    assert_eq!(lookup(Pitch::D4, Modifier::Sharp), Ok(31_112_700));
}

#[test]
fn combinations_without_a_key() {
    let undefined = undefined();
    assert_eq!(undefined.len(), 32);
    for (pitch, modifier) in undefined {
        assert_eq!(
            lookup(pitch, modifier),
            Err(InvalidPitchModifier { pitch, modifier })
        );
    }
}

#[test]
fn a0_flat_has_no_frequency() {
    assert_eq!(
        lookup(Pitch::A0, Modifier::Flat),
        Err(InvalidPitchModifier {
            pitch: Pitch::A0,
            modifier: Modifier::Flat
        })
    );
    assert_eq!(
        lookup(Pitch::C8, Modifier::Sharp),
        Err(InvalidPitchModifier {
            pitch: Pitch::C8,
            modifier: Modifier::Sharp
        })
    );
}

#[test]
fn frequency_does_not_depend_on_the_value() {
    for value in [
        Value::Whole,
        Value::Half,
        Value::Quarter,
        Value::Eighth,
        Value::Sixteenth,
    ] {
        assert_eq!(
            fundamental_frequency(&Note::new(Pitch::A4, value, Modifier::Natural)),
            Ok(44_000_000)
        );
    }
}

#[test]
fn frequencies_rise_with_the_pitch() {
    let pitches = all_pitches();
    assert_eq!(pitches.len(), 52);
    for modifier in [Modifier::Sharp, Modifier::Natural, Modifier::Flat] {
        let mut last = 0;
        for pitch in pitches.iter() {
            if let Ok(frequency) = lookup(*pitch, modifier) {
                assert!(frequency > 0);
                assert!(frequency > last);
                last = frequency;
            }
        }
    }
}

#[test]
fn sharp_and_flat_of_neighbours_agree() {
    let pitches = all_pitches();
    let mut pairs = 0;
    for i in 0..pitches.len() - 1 {
        if let Ok(sharp) = lookup(pitches[i], Modifier::Sharp) {
            assert_eq!(lookup(pitches[i + 1], Modifier::Flat), Ok(sharp));
            pairs += 1;
        } else {
            assert!(lookup(pitches[i + 1], Modifier::Flat).is_err());
        }
    }
    assert_eq!(pairs, 36);
}

#[test]
fn every_key_is_named() {
    let mut keys = Vec::new();
    for pitch in all_pitches() {
        for modifier in [Modifier::Flat, Modifier::Natural, Modifier::Sharp] {
            if let Ok(frequency) = lookup(pitch, modifier) {
                keys.push(frequency);
            }
        }
    }
    keys.sort();
    keys.dedup();
    assert_eq!(keys.len(), KEY_COUNT as usize);
}

#[test]
fn table_follows_equal_temperament() {
    for pitch in all_pitches() {
        let key = {
            let ordinal = pitch.ordinal() as i32;
            12 * (ordinal / 7) + [0, 2, 3, 5, 7, 8, 10][(ordinal % 7) as usize]
        };
        let exact = 440.0f64 * 2.0f64.powf((key - 48) as f64 / 12.0);
        let units = lookup(pitch, Modifier::Natural).unwrap();
        let found = units as f64 / UNITS_PER_HERTZ as f64;
        assert!((found - exact).abs() / exact < 1.0e-6, "{:?}", pitch);
    }
}

#[test]
fn pitches_are_ordered_by_height() {
    let pitches = all_pitches();
    for i in 0..pitches.len() {
        assert_eq!(pitches[i].ordinal() as usize, i);
        if i > 0 {
            assert!(pitches[i - 1] < pitches[i]);
        }
    }
}

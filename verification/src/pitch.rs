//! The pitch table: from a pitch and an accidental to a frequency.
//!
//! The 88 keys of a piano are numbered from 0 (`A0`) to 87 (`C8`). A pitch is
//! a white key; a sharp is the key above it and a flat the key below it,
//! where that key is a black one. Frequencies are integers in units of ten
//! microhertz, so that every entry of the table is exact.

use vstd::prelude::*;
use vstd::arithmetic::power2::{lemma2_to64, lemma2_to64_rest, pow2};
use crate::sheet::{Modifier, Note, Pitch};

verus! {

/// The number of keys.
pub const KEY_COUNT: u8 = 88;

/// The number of frequency units in one hertz.
pub const UNITS_PER_HERTZ: u32 = 100_000;

/// A pitch and an accidental that name no key.
#[derive(Clone, Copy, Debug, PartialEq, Eq, Structural)]
pub struct InvalidPitchModifier {
    pub pitch: Pitch,
    pub modifier: Modifier,
}

/// The number of semitones from `A` up to the letter at `letter_index`.
pub open spec fn letter_semitones(letter_index: int) -> int {
    if letter_index == 0 {
        0
    } else if letter_index == 1 {
        2
    } else if letter_index == 2 {
        3
    } else if letter_index == 3 {
        5
    } else if letter_index == 4 {
        7
    } else if letter_index == 5 {
        8
    } else {
        10
    }
}

/// The key of a pitch without accidental.
pub open spec fn natural_key(pitch: Pitch) -> int {
    12 * (pitch.spec_ordinal() / 7) + letter_semitones(pitch.letter_index())
}

/// The key that a pitch with an accidental would name.
pub open spec fn key_number(pitch: Pitch, modifier: Modifier) -> int {
    natural_key(pitch) + modifier.shift()
}

/// Whether a key is a white one.
pub open spec fn is_white_key(key: int) -> bool {
    let degree = key % 12;
    degree == 0 || degree == 2 || degree == 3 || degree == 5 || degree == 7 || degree == 8
        || degree == 10
}

/// Whether a pitch with an accidental names a key: the key is on the
/// keyboard, and a sharp or a flat lands on a black key.
pub open spec fn has_frequency(pitch: Pitch, modifier: Modifier) -> bool {
    let key = key_number(pitch, modifier);
    0 <= key < KEY_COUNT && (modifier == Modifier::Natural || !is_white_key(key))
}

/// Whether every note of the lines of a score names a key.
pub open spec fn all_have_frequency(lines: Seq<Seq<Note>>) -> bool {
    forall|i: int, j: int|
        0 <= i < lines.len() && 0 <= j < lines[i].len() ==> has_frequency(
            (#[trigger] lines[i][j]).pitch,
            lines[i][j].modifier,
        )
}

/// The frequency of a key, in units of ten microhertz; 0 off the keyboard.
pub open spec fn key_frequency(key: int) -> int {
    if key == 0 {
        2_750_000
    } else if key == 1 {
        2_913_524
    } else if key == 2 {
        3_086_771
    } else if key == 3 {
        3_270_320
    } else if key == 4 {
        3_464_783
    } else if key == 5 {
        3_670_810
    } else if key == 6 {
        3_889_087
    } else if key == 7 {
        4_120_344
    } else if key == 8 {
        4_365_353
    } else if key == 9 {
        4_624_930
    } else if key == 10 {
        4_899_943
    } else if key == 11 {
        5_191_309
    } else if key == 12 {
        5_500_000
    } else if key == 13 {
        5_827_047
    } else if key == 14 {
        6_173_541
    } else if key == 15 {
        6_540_639
    } else if key == 16 {
        6_929_566
    } else if key == 17 {
        7_341_619
    } else if key == 18 {
        7_778_175
    } else if key == 19 {
        8_240_689
    } else if key == 20 {
        8_730_706
    } else if key == 21 {
        9_249_861
    } else if key == 22 {
        9_799_886
    } else if key == 23 {
        10_382_620
    } else if key == 24 {
        11_000_000
    } else if key == 25 {
        11_654_090
    } else if key == 26 {
        12_347_080
    } else if key == 27 {
        13_081_280
    } else if key == 28 {
        13_859_130
    } else if key == 29 {
        14_683_240
    } else if key == 30 {
        15_556_350
    } else if key == 31 {
        16_481_380
    } else if key == 32 {
        17_461_410
    } else if key == 33 {
        18_499_720
    } else if key == 34 {
        19_599_770
    } else if key == 35 {
        20_765_230
    } else if key == 36 {
        22_000_000
    } else if key == 37 {
        23_308_190
    } else if key == 38 {
        24_694_170
    } else if key == 39 {
        26_162_560
    } else if key == 40 {
        27_718_260
    } else if key == 41 {
        29_366_480
    } else if key == 42 {
        31_112_700
    } else if key == 43 {
        32_962_760
    } else if key == 44 {
        34_922_820
    } else if key == 45 {
        36_999_440
    } else if key == 46 {
        39_199_540
    } else if key == 47 {
        41_530_470
    } else if key == 48 {
        44_000_000
    } else if key == 49 {
        46_616_380
    } else if key == 50 {
        49_388_330
    } else if key == 51 {
        52_325_110
    } else if key == 52 {
        55_436_530
    } else if key == 53 {
        58_732_950
    } else if key == 54 {
        62_225_400
    } else if key == 55 {
        65_925_510
    } else if key == 56 {
        69_845_650
    } else if key == 57 {
        73_998_880
    } else if key == 58 {
        78_399_090
    } else if key == 59 {
        83_060_940
    } else if key == 60 {
        88_000_000
    } else if key == 61 {
        93_232_750
    } else if key == 62 {
        98_776_660
    } else if key == 63 {
        104_650_200
    } else if key == 64 {
        110_873_100
    } else if key == 65 {
        117_465_900
    } else if key == 66 {
        124_450_800
    } else if key == 67 {
        131_851_000
    } else if key == 68 {
        139_691_300
    } else if key == 69 {
        147_997_800
    } else if key == 70 {
        156_798_200
    } else if key == 71 {
        166_121_900
    } else if key == 72 {
        176_000_000
    } else if key == 73 {
        186_465_500
    } else if key == 74 {
        197_553_300
    } else if key == 75 {
        209_300_500
    } else if key == 76 {
        221_746_100
    } else if key == 77 {
        234_931_800
    } else if key == 78 {
        248_901_600
    } else if key == 79 {
        263_702_000
    } else if key == 80 {
        279_382_600
    } else if key == 81 {
        295_995_500
    } else if key == 82 {
        313_596_300
    } else if key == 83 {
        332_243_800
    } else if key == 84 {
        352_000_000
    } else if key == 85 {
        372_931_000
    } else if key == 86 {
        395_106_600
    } else if key == 87 {
        418_600_900
    } else {
        0
    }
}

/// The frequency of a pitch with an accidental, in units of ten microhertz.
pub open spec fn frequency_of(pitch: Pitch, modifier: Modifier) -> int {
    key_frequency(key_number(pitch, modifier))
}

/// Looks up the frequency of a note, in units of ten microhertz. A pitch and
/// an accidental that name no key are refused.
pub fn fundamental_frequency(note: &Note) -> (res: Result<u32, InvalidPitchModifier>)
    ensures
        has_frequency(note.pitch, note.modifier) ==> res == Ok::<u32, InvalidPitchModifier>(
            frequency_of(note.pitch, note.modifier) as u32,
        ),
        !has_frequency(note.pitch, note.modifier) ==> res == Err::<u32, InvalidPitchModifier>(
            InvalidPitchModifier { pitch: note.pitch, modifier: note.modifier },
        ),
        res matches Ok(frequency) ==> 0 < frequency,
{
    match (note.pitch, note.modifier) {
        (Pitch::A0, Modifier::Natural) => Ok(2_750_000),
        (Pitch::A0, Modifier::Sharp) => Ok(2_913_524),
        (Pitch::B0, Modifier::Flat) => Ok(2_913_524),
        (Pitch::B0, Modifier::Natural) => Ok(3_086_771),
        (Pitch::C1, Modifier::Natural) => Ok(3_270_320),
        (Pitch::C1, Modifier::Sharp) => Ok(3_464_783),
        (Pitch::D1, Modifier::Flat) => Ok(3_464_783),
        (Pitch::D1, Modifier::Natural) => Ok(3_670_810),
        (Pitch::D1, Modifier::Sharp) => Ok(3_889_087),
        (Pitch::E1, Modifier::Flat) => Ok(3_889_087),
        (Pitch::E1, Modifier::Natural) => Ok(4_120_344),
        (Pitch::F1, Modifier::Natural) => Ok(4_365_353),
        (Pitch::F1, Modifier::Sharp) => Ok(4_624_930),
        (Pitch::G1, Modifier::Flat) => Ok(4_624_930),
        (Pitch::G1, Modifier::Natural) => Ok(4_899_943),
        (Pitch::G1, Modifier::Sharp) => Ok(5_191_309),
        (Pitch::A1, Modifier::Flat) => Ok(5_191_309),
        (Pitch::A1, Modifier::Natural) => Ok(5_500_000),
        (Pitch::A1, Modifier::Sharp) => Ok(5_827_047),
        (Pitch::B1, Modifier::Flat) => Ok(5_827_047),
        (Pitch::B1, Modifier::Natural) => Ok(6_173_541),
        (Pitch::C2, Modifier::Natural) => Ok(6_540_639),
        (Pitch::C2, Modifier::Sharp) => Ok(6_929_566),
        (Pitch::D2, Modifier::Flat) => Ok(6_929_566),
        (Pitch::D2, Modifier::Natural) => Ok(7_341_619),
        (Pitch::D2, Modifier::Sharp) => Ok(7_778_175),
        (Pitch::E2, Modifier::Flat) => Ok(7_778_175),
        (Pitch::E2, Modifier::Natural) => Ok(8_240_689),
        (Pitch::F2, Modifier::Natural) => Ok(8_730_706),
        (Pitch::F2, Modifier::Sharp) => Ok(9_249_861),
        (Pitch::G2, Modifier::Flat) => Ok(9_249_861),
        (Pitch::G2, Modifier::Natural) => Ok(9_799_886),
        (Pitch::G2, Modifier::Sharp) => Ok(10_382_620),
        (Pitch::A2, Modifier::Flat) => Ok(10_382_620),
        (Pitch::A2, Modifier::Natural) => Ok(11_000_000),
        (Pitch::A2, Modifier::Sharp) => Ok(11_654_090),
        (Pitch::B2, Modifier::Flat) => Ok(11_654_090),
        (Pitch::B2, Modifier::Natural) => Ok(12_347_080),
        (Pitch::C3, Modifier::Natural) => Ok(13_081_280),
        (Pitch::C3, Modifier::Sharp) => Ok(13_859_130),
        (Pitch::D3, Modifier::Flat) => Ok(13_859_130),
        (Pitch::D3, Modifier::Natural) => Ok(14_683_240),
        (Pitch::D3, Modifier::Sharp) => Ok(15_556_350),
        (Pitch::E3, Modifier::Flat) => Ok(15_556_350),
        (Pitch::E3, Modifier::Natural) => Ok(16_481_380),
        (Pitch::F3, Modifier::Natural) => Ok(17_461_410),
        (Pitch::F3, Modifier::Sharp) => Ok(18_499_720),
        (Pitch::G3, Modifier::Flat) => Ok(18_499_720),
        (Pitch::G3, Modifier::Natural) => Ok(19_599_770),
        (Pitch::G3, Modifier::Sharp) => Ok(20_765_230),
        (Pitch::A3, Modifier::Flat) => Ok(20_765_230),
        (Pitch::A3, Modifier::Natural) => Ok(22_000_000),
        (Pitch::A3, Modifier::Sharp) => Ok(23_308_190),
        (Pitch::B3, Modifier::Flat) => Ok(23_308_190),
        (Pitch::B3, Modifier::Natural) => Ok(24_694_170),
        (Pitch::C4, Modifier::Natural) => Ok(26_162_560),
        (Pitch::C4, Modifier::Sharp) => Ok(27_718_260),
        (Pitch::D4, Modifier::Flat) => Ok(27_718_260),
        (Pitch::D4, Modifier::Natural) => Ok(29_366_480),
        (Pitch::D4, Modifier::Sharp) => Ok(31_112_700),
        (Pitch::E4, Modifier::Flat) => Ok(31_112_700),
        (Pitch::E4, Modifier::Natural) => Ok(32_962_760),
        (Pitch::F4, Modifier::Natural) => Ok(34_922_820),
        (Pitch::F4, Modifier::Sharp) => Ok(36_999_440),
        (Pitch::G4, Modifier::Flat) => Ok(36_999_440),
        (Pitch::G4, Modifier::Natural) => Ok(39_199_540),
        (Pitch::G4, Modifier::Sharp) => Ok(41_530_470),
        (Pitch::A4, Modifier::Flat) => Ok(41_530_470),
        (Pitch::A4, Modifier::Natural) => Ok(44_000_000),
        (Pitch::A4, Modifier::Sharp) => Ok(46_616_380),
        (Pitch::B4, Modifier::Flat) => Ok(46_616_380),
        (Pitch::B4, Modifier::Natural) => Ok(49_388_330),
        (Pitch::C5, Modifier::Natural) => Ok(52_325_110),
        (Pitch::C5, Modifier::Sharp) => Ok(55_436_530),
        (Pitch::D5, Modifier::Flat) => Ok(55_436_530),
        (Pitch::D5, Modifier::Natural) => Ok(58_732_950),
        (Pitch::D5, Modifier::Sharp) => Ok(62_225_400),
        (Pitch::E5, Modifier::Flat) => Ok(62_225_400),
        (Pitch::E5, Modifier::Natural) => Ok(65_925_510),
        (Pitch::F5, Modifier::Natural) => Ok(69_845_650),
        (Pitch::F5, Modifier::Sharp) => Ok(73_998_880),
        (Pitch::G5, Modifier::Flat) => Ok(73_998_880),
        (Pitch::G5, Modifier::Natural) => Ok(78_399_090),
        (Pitch::G5, Modifier::Sharp) => Ok(83_060_940),
        (Pitch::A5, Modifier::Flat) => Ok(83_060_940),
        (Pitch::A5, Modifier::Natural) => Ok(88_000_000),
        (Pitch::A5, Modifier::Sharp) => Ok(93_232_750),
        (Pitch::B5, Modifier::Flat) => Ok(93_232_750),
        (Pitch::B5, Modifier::Natural) => Ok(98_776_660),
        (Pitch::C6, Modifier::Natural) => Ok(104_650_200),
        (Pitch::C6, Modifier::Sharp) => Ok(110_873_100),
        (Pitch::D6, Modifier::Flat) => Ok(110_873_100),
        (Pitch::D6, Modifier::Natural) => Ok(117_465_900),
        (Pitch::D6, Modifier::Sharp) => Ok(124_450_800),
        (Pitch::E6, Modifier::Flat) => Ok(124_450_800),
        (Pitch::E6, Modifier::Natural) => Ok(131_851_000),
        (Pitch::F6, Modifier::Natural) => Ok(139_691_300),
        (Pitch::F6, Modifier::Sharp) => Ok(147_997_800),
        (Pitch::G6, Modifier::Flat) => Ok(147_997_800),
        (Pitch::G6, Modifier::Natural) => Ok(156_798_200),
        (Pitch::G6, Modifier::Sharp) => Ok(166_121_900),
        (Pitch::A6, Modifier::Flat) => Ok(166_121_900),
        (Pitch::A6, Modifier::Natural) => Ok(176_000_000),
        (Pitch::A6, Modifier::Sharp) => Ok(186_465_500),
        (Pitch::B6, Modifier::Flat) => Ok(186_465_500),
        (Pitch::B6, Modifier::Natural) => Ok(197_553_300),
        (Pitch::C7, Modifier::Natural) => Ok(209_300_500),
        (Pitch::C7, Modifier::Sharp) => Ok(221_746_100),
        (Pitch::D7, Modifier::Flat) => Ok(221_746_100),
        (Pitch::D7, Modifier::Natural) => Ok(234_931_800),
        (Pitch::D7, Modifier::Sharp) => Ok(248_901_600),
        (Pitch::E7, Modifier::Flat) => Ok(248_901_600),
        (Pitch::E7, Modifier::Natural) => Ok(263_702_000),
        (Pitch::F7, Modifier::Natural) => Ok(279_382_600),
        (Pitch::F7, Modifier::Sharp) => Ok(295_995_500),
        (Pitch::G7, Modifier::Flat) => Ok(295_995_500),
        (Pitch::G7, Modifier::Natural) => Ok(313_596_300),
        (Pitch::G7, Modifier::Sharp) => Ok(332_243_800),
        (Pitch::A7, Modifier::Flat) => Ok(332_243_800),
        (Pitch::A7, Modifier::Natural) => Ok(352_000_000),
        (Pitch::A7, Modifier::Sharp) => Ok(372_931_000),
        (Pitch::B7, Modifier::Flat) => Ok(372_931_000),
        (Pitch::B7, Modifier::Natural) => Ok(395_106_600),
        (Pitch::C8, Modifier::Natural) => Ok(418_600_900),
        _ => Err(InvalidPitchModifier { pitch: note.pitch, modifier: note.modifier }),
    }
}

/// Every frequency of the table is positive.
pub proof fn lemma_frequency_positive(pitch: Pitch, modifier: Modifier)
    requires
        has_frequency(pitch, modifier),
    ensures
        0 < frequency_of(pitch, modifier) <= u32::MAX,
{
}

/// A higher key has a higher frequency.
pub proof fn lemma_key_frequency_increases(low: int, high: int)
    requires
        0 <= low <= high < KEY_COUNT,
    ensures
        key_frequency(low) <= key_frequency(high),
        low < high ==> key_frequency(low) < key_frequency(high),
    decreases high - low,
{
    if low < high {
        lemma_key_frequency_increases(low, high - 1);
        assert(key_frequency(high - 1) < key_frequency(high));
    }
}

/// With one accidental, the frequency does not fall as the pitch rises.
pub proof fn lemma_frequency_monotonic(low: Pitch, high: Pitch, modifier: Modifier)
    requires
        has_frequency(low, modifier),
        has_frequency(high, modifier),
        low.spec_ordinal() <= high.spec_ordinal(),
    ensures
        frequency_of(low, modifier) <= frequency_of(high, modifier),
        low != high ==> frequency_of(low, modifier) < frequency_of(high, modifier),
{
    assert(natural_key(low) <= natural_key(high));
    assert(low != high ==> natural_key(low) < natural_key(high));
    lemma_key_frequency_increases(key_number(low, modifier), key_number(high, modifier));
}

/// The sharp of a pitch and the flat of the pitch above it are one key, and
/// so have one frequency.
pub proof fn lemma_enharmonic(below: Pitch, above: Pitch)
    requires
        above.spec_ordinal() == below.spec_ordinal() + 1,
        has_frequency(below, Modifier::Sharp),
    ensures
        has_frequency(above, Modifier::Flat),
        key_number(below, Modifier::Sharp) == key_number(above, Modifier::Flat),
        frequency_of(below, Modifier::Sharp) == frequency_of(above, Modifier::Flat),
{
}

/// The last digit that a table entry of this size keeps: the table holds
/// seven significant digits.
pub open spec fn resolution(frequency: int) -> int {
    if frequency < 10_000_000 {
        1
    } else if frequency < 100_000_000 {
        10
    } else {
        100
    }
}

/// The twelfth power.
pub open spec fn pow12(x: int) -> int {
    let x2 = x * x;
    let x4 = x2 * x2;
    x4 * x4 * x4
}

/// Whether the table entry of a key is the equal-tempered frequency of that
/// key, rounded to seven significant digits. In equal temperament a key lies
/// a twelfth root of two above the key before it, and key 48 (`A4`) has
/// 440 Hz. With `f` the entry and `u` its last kept digit, this says that
/// `f - u/2 <= 440 Hz * 2^((key - 48) / 12) <= f + u/2`, with the three terms
/// doubled, raised to the twelfth power and cleared of fractions.
pub open spec fn rounds_equal_temperament(key: int) -> bool {
    let f = key_frequency(key);
    let u = resolution(f);
    let anchor = pow12(2 * 440 * UNITS_PER_HERTZ);
    if key >= 48 {
        pow12(2 * f - u) <= anchor * pow2((key - 48) as nat) <= pow12(2 * f + u)
    } else {
        pow12(2 * f - u) * pow2((48 - key) as nat) <= anchor <= pow12(2 * f + u) * pow2(
            (48 - key) as nat,
        )
    }
}

/// Every entry of the table is the equal-tempered frequency of its key,
/// rounded to seven significant digits.
pub proof fn lemma_table_is_equal_tempered(key: int)
    requires
        0 <= key < KEY_COUNT,
    ensures
        rounds_equal_temperament(key),
{
    lemma2_to64();
    lemma2_to64_rest();
    assert(rounds_equal_temperament(0)) by (nonlinear_arith)
        requires
            pow2(48) == 0x1000000000000,
    ;
    assert(rounds_equal_temperament(1)) by (nonlinear_arith)
        requires
            pow2(47) == 0x800000000000,
    ;
    assert(rounds_equal_temperament(2)) by (nonlinear_arith)
        requires
            pow2(46) == 0x400000000000,
    ;
    assert(rounds_equal_temperament(3)) by (nonlinear_arith)
        requires
            pow2(45) == 0x200000000000,
    ;
    assert(rounds_equal_temperament(4)) by (nonlinear_arith)
        requires
            pow2(44) == 0x100000000000,
    ;
    assert(rounds_equal_temperament(5)) by (nonlinear_arith)
        requires
            pow2(43) == 0x80000000000,
    ;
    assert(rounds_equal_temperament(6)) by (nonlinear_arith)
        requires
            pow2(42) == 0x40000000000,
    ;
    assert(rounds_equal_temperament(7)) by (nonlinear_arith)
        requires
            pow2(41) == 0x20000000000,
    ;
    assert(rounds_equal_temperament(8)) by (nonlinear_arith)
        requires
            pow2(40) == 0x10000000000,
    ;
    assert(rounds_equal_temperament(9)) by (nonlinear_arith)
        requires
            pow2(39) == 0x8000000000,
    ;
    assert(rounds_equal_temperament(10)) by (nonlinear_arith)
        requires
            pow2(38) == 0x4000000000,
    ;
    assert(rounds_equal_temperament(11)) by (nonlinear_arith)
        requires
            pow2(37) == 0x2000000000,
    ;
    assert(rounds_equal_temperament(12)) by (nonlinear_arith)
        requires
            pow2(36) == 0x1000000000,
    ;
    assert(rounds_equal_temperament(13)) by (nonlinear_arith)
        requires
            pow2(35) == 0x800000000,
    ;
    assert(rounds_equal_temperament(14)) by (nonlinear_arith)
        requires
            pow2(34) == 0x400000000,
    ;
    assert(rounds_equal_temperament(15)) by (nonlinear_arith)
        requires
            pow2(33) == 0x200000000,
    ;
    assert(rounds_equal_temperament(16)) by (nonlinear_arith)
        requires
            pow2(32) == 0x100000000,
    ;
    assert(rounds_equal_temperament(17)) by (nonlinear_arith)
        requires
            pow2(31) == 0x80000000,
    ;
    assert(rounds_equal_temperament(18)) by (nonlinear_arith)
        requires
            pow2(30) == 0x40000000,
    ;
    assert(rounds_equal_temperament(19)) by (nonlinear_arith)
        requires
            pow2(29) == 0x20000000,
    ;
    assert(rounds_equal_temperament(20)) by (nonlinear_arith)
        requires
            pow2(28) == 0x10000000,
    ;
    assert(rounds_equal_temperament(21)) by (nonlinear_arith)
        requires
            pow2(27) == 0x8000000,
    ;
    assert(rounds_equal_temperament(22)) by (nonlinear_arith)
        requires
            pow2(26) == 0x4000000,
    ;
    assert(rounds_equal_temperament(23)) by (nonlinear_arith)
        requires
            pow2(25) == 0x2000000,
    ;
    assert(rounds_equal_temperament(24)) by (nonlinear_arith)
        requires
            pow2(24) == 0x1000000,
    ;
    assert(rounds_equal_temperament(25)) by (nonlinear_arith)
        requires
            pow2(23) == 0x800000,
    ;
    assert(rounds_equal_temperament(26)) by (nonlinear_arith)
        requires
            pow2(22) == 0x400000,
    ;
    assert(rounds_equal_temperament(27)) by (nonlinear_arith)
        requires
            pow2(21) == 0x200000,
    ;
    assert(rounds_equal_temperament(28)) by (nonlinear_arith)
        requires
            pow2(20) == 0x100000,
    ;
    assert(rounds_equal_temperament(29)) by (nonlinear_arith)
        requires
            pow2(19) == 0x80000,
    ;
    assert(rounds_equal_temperament(30)) by (nonlinear_arith)
        requires
            pow2(18) == 0x40000,
    ;
    assert(rounds_equal_temperament(31)) by (nonlinear_arith)
        requires
            pow2(17) == 0x20000,
    ;
    assert(rounds_equal_temperament(32)) by (nonlinear_arith)
        requires
            pow2(16) == 0x10000,
    ;
    assert(rounds_equal_temperament(33)) by (nonlinear_arith)
        requires
            pow2(15) == 0x8000,
    ;
    assert(rounds_equal_temperament(34)) by (nonlinear_arith)
        requires
            pow2(14) == 0x4000,
    ;
    assert(rounds_equal_temperament(35)) by (nonlinear_arith)
        requires
            pow2(13) == 0x2000,
    ;
    assert(rounds_equal_temperament(36)) by (nonlinear_arith)
        requires
            pow2(12) == 0x1000,
    ;
    assert(rounds_equal_temperament(37)) by (nonlinear_arith)
        requires
            pow2(11) == 0x800,
    ;
    assert(rounds_equal_temperament(38)) by (nonlinear_arith)
        requires
            pow2(10) == 0x400,
    ;
    assert(rounds_equal_temperament(39)) by (nonlinear_arith)
        requires
            pow2(9) == 0x200,
    ;
    assert(rounds_equal_temperament(40)) by (nonlinear_arith)
        requires
            pow2(8) == 0x100,
    ;
    assert(rounds_equal_temperament(41)) by (nonlinear_arith)
        requires
            pow2(7) == 0x80,
    ;
    assert(rounds_equal_temperament(42)) by (nonlinear_arith)
        requires
            pow2(6) == 0x40,
    ;
    assert(rounds_equal_temperament(43)) by (nonlinear_arith)
        requires
            pow2(5) == 0x20,
    ;
    assert(rounds_equal_temperament(44)) by (nonlinear_arith)
        requires
            pow2(4) == 0x10,
    ;
    assert(rounds_equal_temperament(45)) by (nonlinear_arith)
        requires
            pow2(3) == 0x8,
    ;
    assert(rounds_equal_temperament(46)) by (nonlinear_arith)
        requires
            pow2(2) == 0x4,
    ;
    assert(rounds_equal_temperament(47)) by (nonlinear_arith)
        requires
            pow2(1) == 0x2,
    ;
    assert(rounds_equal_temperament(48)) by (nonlinear_arith)
        requires
            pow2(0) == 0x1,
    ;
    assert(rounds_equal_temperament(49)) by (nonlinear_arith)
        requires
            pow2(1) == 0x2,
    ;
    assert(rounds_equal_temperament(50)) by (nonlinear_arith)
        requires
            pow2(2) == 0x4,
    ;
    assert(rounds_equal_temperament(51)) by (nonlinear_arith)
        requires
            pow2(3) == 0x8,
    ;
    assert(rounds_equal_temperament(52)) by (nonlinear_arith)
        requires
            pow2(4) == 0x10,
    ;
    assert(rounds_equal_temperament(53)) by (nonlinear_arith)
        requires
            pow2(5) == 0x20,
    ;
    assert(rounds_equal_temperament(54)) by (nonlinear_arith)
        requires
            pow2(6) == 0x40,
    ;
    assert(rounds_equal_temperament(55)) by (nonlinear_arith)
        requires
            pow2(7) == 0x80,
    ;
    assert(rounds_equal_temperament(56)) by (nonlinear_arith)
        requires
            pow2(8) == 0x100,
    ;
    assert(rounds_equal_temperament(57)) by (nonlinear_arith)
        requires
            pow2(9) == 0x200,
    ;
    assert(rounds_equal_temperament(58)) by (nonlinear_arith)
        requires
            pow2(10) == 0x400,
    ;
    assert(rounds_equal_temperament(59)) by (nonlinear_arith)
        requires
            pow2(11) == 0x800,
    ;
    assert(rounds_equal_temperament(60)) by (nonlinear_arith)
        requires
            pow2(12) == 0x1000,
    ;
    assert(rounds_equal_temperament(61)) by (nonlinear_arith)
        requires
            pow2(13) == 0x2000,
    ;
    assert(rounds_equal_temperament(62)) by (nonlinear_arith)
        requires
            pow2(14) == 0x4000,
    ;
    assert(rounds_equal_temperament(63)) by (nonlinear_arith)
        requires
            pow2(15) == 0x8000,
    ;
    assert(rounds_equal_temperament(64)) by (nonlinear_arith)
        requires
            pow2(16) == 0x10000,
    ;
    assert(rounds_equal_temperament(65)) by (nonlinear_arith)
        requires
            pow2(17) == 0x20000,
    ;
    assert(rounds_equal_temperament(66)) by (nonlinear_arith)
        requires
            pow2(18) == 0x40000,
    ;
    assert(rounds_equal_temperament(67)) by (nonlinear_arith)
        requires
            pow2(19) == 0x80000,
    ;
    assert(rounds_equal_temperament(68)) by (nonlinear_arith)
        requires
            pow2(20) == 0x100000,
    ;
    assert(rounds_equal_temperament(69)) by (nonlinear_arith)
        requires
            pow2(21) == 0x200000,
    ;
    assert(rounds_equal_temperament(70)) by (nonlinear_arith)
        requires
            pow2(22) == 0x400000,
    ;
    assert(rounds_equal_temperament(71)) by (nonlinear_arith)
        requires
            pow2(23) == 0x800000,
    ;
    assert(rounds_equal_temperament(72)) by (nonlinear_arith)
        requires
            pow2(24) == 0x1000000,
    ;
    assert(rounds_equal_temperament(73)) by (nonlinear_arith)
        requires
            pow2(25) == 0x2000000,
    ;
    assert(rounds_equal_temperament(74)) by (nonlinear_arith)
        requires
            pow2(26) == 0x4000000,
    ;
    assert(rounds_equal_temperament(75)) by (nonlinear_arith)
        requires
            pow2(27) == 0x8000000,
    ;
    assert(rounds_equal_temperament(76)) by (nonlinear_arith)
        requires
            pow2(28) == 0x10000000,
    ;
    assert(rounds_equal_temperament(77)) by (nonlinear_arith)
        requires
            pow2(29) == 0x20000000,
    ;
    assert(rounds_equal_temperament(78)) by (nonlinear_arith)
        requires
            pow2(30) == 0x40000000,
    ;
    assert(rounds_equal_temperament(79)) by (nonlinear_arith)
        requires
            pow2(31) == 0x80000000,
    ;
    assert(rounds_equal_temperament(80)) by (nonlinear_arith)
        requires
            pow2(32) == 0x100000000,
    ;
    assert(rounds_equal_temperament(81)) by (nonlinear_arith)
        requires
            pow2(33) == 0x200000000,
    ;
    assert(rounds_equal_temperament(82)) by (nonlinear_arith)
        requires
            pow2(34) == 0x400000000,
    ;
    assert(rounds_equal_temperament(83)) by (nonlinear_arith)
        requires
            pow2(35) == 0x800000000,
    ;
    assert(rounds_equal_temperament(84)) by (nonlinear_arith)
        requires
            pow2(36) == 0x1000000000,
    ;
    assert(rounds_equal_temperament(85)) by (nonlinear_arith)
        requires
            pow2(37) == 0x2000000000,
    ;
    assert(rounds_equal_temperament(86)) by (nonlinear_arith)
        requires
            pow2(38) == 0x4000000000,
    ;
    assert(rounds_equal_temperament(87)) by (nonlinear_arith)
        requires
            pow2(39) == 0x8000000000,
    ;
}

} // verus!

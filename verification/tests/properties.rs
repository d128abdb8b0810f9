//! Concrete checks of the library's laws: modular closure, round trips,
//! arithmetic identity, order-independent accidentals, and pitch ordering.

use post_office::Pitch;
use post_office::PitchClass;
use post_office::PostalError;

const ALL_CLASSES: [PitchClass; 12] = [
    PitchClass::C,
    PitchClass::Db,
    PitchClass::D,
    PitchClass::Eb,
    PitchClass::E,
    PitchClass::F,
    PitchClass::Gb,
    PitchClass::G,
    PitchClass::Ab,
    PitchClass::A,
    PitchClass::Bb,
    PitchClass::B,
];

/// Adding a multiple of twelve to an integer leaves its pitch class unchanged.
#[test]
fn modular_closure() {
    for i in [-30isize, -8, 0, 5, 7, 100] {
        for k in [-2isize, -1, 1, 3] {
            assert_eq!(PitchClass::from_int(i), PitchClass::from_int(i + 12 * k));
        }
    }
}

/// Rebuilding a pitch class from its own integer value gives it back.
#[test]
fn integer_round_trip() {
    for pc in ALL_CLASSES {
        assert_eq!(PitchClass::from_int(pc.integer_value() as isize), pc);
        assert!(pc.integer_value() < 12);
    }
}

/// Moving up and back down by the same interval is the identity.
#[test]
fn arithmetic_identity() {
    for pc in ALL_CLASSES {
        for n in [-25isize, -1, 0, 4, 12, 31] {
            assert_eq!(pc.add(n).sub(n), pc);
        }
    }
    assert_eq!(PitchClass::F.add(7), PitchClass::C);
    assert_eq!(PitchClass::Eb.sub(4), PitchClass::B);
    assert_eq!(PitchClass::B.add(1), PitchClass::C);
}

/// Permuting the accidentals after a letter yields the same pitch class.
#[test]
fn accidental_order_independent() {
    for s in ["Abx#b", "Ab#xb", "Axb#b", "A#bbx", "Abbx#"] {
        assert_eq!(PitchClass::from_str(s).unwrap(), PitchClass::Bb, "string: {:?}", s);
    }
    for s in ["F♭b", "Fb♭"] {
        assert_eq!(PitchClass::from_str(s).unwrap(), PitchClass::Eb, "string: {:?}", s);
    }
}

/// Within one octave the order follows the canonical sequence of classes;
/// with equal classes it follows the octave.
#[test]
fn pitch_ordering() {
    for w in ALL_CLASSES.windows(2) {
        assert!(Pitch::new(w[0], 4) < Pitch::new(w[1], 4));
    }
    assert!(Pitch::new(PitchClass::B, 3) < Pitch::new(PitchClass::C, 4));
    assert!(Pitch::new(PitchClass::E, -1) < Pitch::new(PitchClass::E, 0));
    assert!(Pitch::new(PitchClass::E, 2) > Pitch::new(PitchClass::E, 1));
    assert!(Pitch::new(PitchClass::Gb, 5) == Pitch::new(PitchClass::Gb, 5));
}

/// The strict and transdecimal numerals name the classes directly.
#[test]
fn strict_numerals() {
    assert_eq!(PitchClass::from_str("0").unwrap(), PitchClass::C);
    assert_eq!(PitchClass::from_str("9").unwrap(), PitchClass::A);
    assert_eq!(PitchClass::from_str("↊").unwrap(), PitchClass::Bb);
    assert_eq!(PitchClass::from_str("↋").unwrap(), PitchClass::B);
    assert_eq!(PitchClass::from_str("t").unwrap(), PitchClass::Bb);
    assert_eq!(PitchClass::from_str("T").unwrap(), PitchClass::Bb);
    assert_eq!(PitchClass::from_str("e").unwrap(), PitchClass::B);
    assert_eq!(PitchClass::from_str("E").unwrap(), PitchClass::B);
}

/// Permissive numerals are signed and base 12.
#[test]
fn permissive_numerals() {
    assert_eq!(PitchClass::from_str("10").unwrap(), PitchClass::C);
    assert_eq!(PitchClass::from_str("+5").unwrap(), PitchClass::F);
    assert_eq!(PitchClass::from_str("-8").unwrap(), PitchClass::E);
    assert_eq!(PitchClass::from_str("25").unwrap(), PitchClass::F);
    assert_eq!(PitchClass::from_str("1↊").unwrap(), PitchClass::Bb);
    assert_eq!(PitchClass::from_str("-0").unwrap(), PitchClass::C);
}

/// Accidental sums of any magnitude reduce modulo 12, and numerals of any
/// length keep only their residue.
#[test]
fn large_magnitudes() {
    // Seven double sharps on C: 14 semitones up, two past the octave.
    assert_eq!(PitchClass::from_str("Cxxxxxxx").unwrap(), PitchClass::D);
    // Twelve flats bring the letter back to itself.
    assert_eq!(
        PitchClass::from_str("gbbbbbbbbbbbb").unwrap(),
        PitchClass::G
    );
    // A base-12 numeral is congruent to its last digit, however long it is.
    assert_eq!(
        PitchClass::from_str("123456789010").unwrap(),
        PitchClass::C
    );
    assert_eq!(
        PitchClass::from_str("-1111111111111111111").unwrap(),
        PitchClass::B
    );
}

/// An unknown note letter fails as a `note name`; other unparsable texts
/// fail as a `pitch class`.
#[test]
fn error_categories() {
    let e = PitchClass::from_str("Hbb").unwrap_err();
    let PostalError::ParsingFailure(text, label) = e;
    assert_eq!(text, "H");
    assert_eq!(label, "note name");

    let e = PitchClass::from_str("c3x").unwrap_err();
    let PostalError::ParsingFailure(text, label) = e;
    assert_eq!(text, "c3x");
    assert_eq!(label, "pitch class");

    let e = PitchClass::from_str("").unwrap_err();
    let PostalError::ParsingFailure(text, label) = e;
    assert_eq!(text, "");
    assert_eq!(label, "pitch class");
}

/// The failure value renders its text and expected category.
#[test]
fn error_message() {
    let e = PitchClass::from_str("Hbb").unwrap_err();
    assert_eq!(e.message(), "could not parse `H` as a note name");
    assert_eq!(e.text(), "H");
    assert_eq!(e.expected(), "note name");
}

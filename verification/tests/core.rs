//! The library's base behaviour: integer conversion, text parsing, display,
//! and pitch comparison.

use post_office::Pitch;
use post_office::PitchClass;

#[test]
fn it_works() {
    let result = 2 + 2;
    assert_eq!(result, 4);
}

/// Check that integers are correctly cast into pitch classes.
#[test]
fn int_to_pc() {
    assert!(PitchClass::D == PitchClass::from_int(14));
    assert!(PitchClass::Bb == PitchClass::from_int(-2));
    assert!(PitchClass::C == PitchClass::from_int(24));
}

/// Check that integer construction reduces modulo 12 from either direction.
#[test]
fn pc_macro() {
    assert!(PitchClass::from_int(8) == PitchClass::Ab);
    assert!(PitchClass::from_int(12) == PitchClass::C);
    assert!(PitchClass::from_int(-145) == PitchClass::B);
}

/// Check that note names are cast correctly.
#[test]
fn note_names() {
    for (s, pc) in [
        ("c", PitchClass::C),
        ("a♭", PitchClass::Ab),
        ("Abx#b", PitchClass::Bb),
        ("Fx", PitchClass::G),
        ("bbb", PitchClass::A),
        ("-8", PitchClass::E),
        ("F♭b", PitchClass::Eb),
    ] {
        assert!(
            PitchClass::from_str(s).is_ok(),
            "string: {:?}; pitch class: {:?}",
            s,
            pc,
        );
        assert!(
            PitchClass::from_str(s).unwrap() == pc,
            "string: {:?}; pitch class: {:?}",
            s,
            pc,
        );
    }

    for s in ["", "♭bb"] {
        assert!(PitchClass::from_str(s).is_err(), "string: {:?}", s);
    }
}

/// Check the display of pitch classes.
#[test]
fn display() {
    for (pc, s) in [
        (-1, "↋"),
        (0, "0"),
        (3, "3"),
        (11, "↋"),
        (12, "0"),
        (130, "↊"),
    ] {
        assert!(PitchClass::from_int(pc).to_text() == s, "pitch class: {:?}", pc);
    }
}

#[test]
fn pitch_comparison() {
    assert!(Pitch::new(PitchClass::F, 3) == Pitch::new(PitchClass::F, 3));
    assert!(Pitch::new(PitchClass::C, 4) < Pitch::new(PitchClass::F, 4));
    assert!(Pitch::new(PitchClass::G, 2) < Pitch::new(PitchClass::C, 4));
    assert!(Pitch::new(PitchClass::A, 6) > Pitch::new(PitchClass::F, 4));
}

//! Parsing and display of pitches and whole expressions, collections
//! included.

use post_office::CollectionKind;
use post_office::Component;
use post_office::Expression;
use post_office::Pitch;
use post_office::PitchClass;
use post_office::PostalError;

/// A pitch text is a note followed by a signed octave.
#[test]
fn pitch_parsing() {
    assert_eq!(Pitch::from_str("F3").unwrap(), Pitch::new(PitchClass::F, 3));
    assert_eq!(Pitch::from_str("c#-2").unwrap(), Pitch::new(PitchClass::Db, -2));
    assert_eq!(Pitch::from_str("Gbb0").unwrap(), Pitch::new(PitchClass::F, 0));
    assert_eq!(Pitch::from_str("e12").unwrap(), Pitch::new(PitchClass::E, 12));
    assert_eq!(Pitch::from_str("B♯+7").unwrap(), Pitch::new(PitchClass::C, 7));
}

/// A pitch text without a parsable octave, or with one outside the octave
/// type, fails as a `pitch`; an unknown letter fails as a `note name`.
#[test]
fn pitch_errors() {
    let e = Pitch::from_str("F").unwrap_err();
    let PostalError::ParsingFailure(text, label) = e;
    assert_eq!(text, "F");
    assert_eq!(label, "pitch");

    let e = Pitch::from_str("F999").unwrap_err();
    let PostalError::ParsingFailure(text, label) = e;
    assert_eq!(text, "F999");
    assert_eq!(label, "pitch");

    let e = Pitch::from_str("Hb2").unwrap_err();
    let PostalError::ParsingFailure(text, label) = e;
    assert_eq!(text, "H");
    assert_eq!(label, "note name");

    assert!(Pitch::from_str("").is_err());
    assert!(Pitch::from_str("3").is_err());
}

/// Octaves cover the whole range of the octave type, and nothing beyond it.
#[test]
fn octave_range() {
    assert_eq!(Pitch::from_str("c127").unwrap(), Pitch::new(PitchClass::C, 127));
    assert_eq!(Pitch::from_str("c-128").unwrap(), Pitch::new(PitchClass::C, -128));
    assert!(Pitch::from_str("c128").is_err());
    assert!(Pitch::from_str("c-129").is_err());
    assert_eq!(Pitch::from_str("c-0").unwrap(), Pitch::new(PitchClass::C, 0));
}

/// A pitch displays as its class numeral followed by its octave.
#[test]
fn pitch_display() {
    assert_eq!(Pitch::new(PitchClass::F, 3).to_text(), "53");
    assert_eq!(Pitch::new(PitchClass::C, -12).to_text(), "0-12");
    assert_eq!(Pitch::new(PitchClass::Bb, 127).to_text(), "↊127");
    assert_eq!(Pitch::new(PitchClass::B, -128).to_text(), "↋-128");
}

/// An expression is a pitch class, a pitch, or a collection.
#[test]
fn expression_leaves() {
    assert!(matches!(
        Expression::from_str("c").unwrap(),
        Expression::PitchClass(PitchClass::C)
    ));
    // A lone `e` is the transdecimal numeral for 11, not the note E.
    assert!(matches!(
        Expression::from_str("e").unwrap(),
        Expression::PitchClass(PitchClass::B)
    ));
    let p = Expression::from_str("F3").unwrap();
    match p {
        Expression::Pitch(p) => assert_eq!(p, Pitch::new(PitchClass::F, 3)),
        _ => panic!("expected a pitch"),
    }
}

/// Square brackets build ordered collections, curly braces unordered ones;
/// elements nest.
#[test]
fn expression_collections() {
    let e = Expression::from_str("[0,1,2]").unwrap();
    match e {
        Expression::Collection(kind, items) => {
            assert_eq!(kind, CollectionKind::Ordered);
            assert_eq!(items.len(), 3);
            assert!(matches!(items[0], Expression::PitchClass(PitchClass::C)));
            assert!(matches!(items[1], Expression::PitchClass(PitchClass::Db)));
            assert!(matches!(items[2], Expression::PitchClass(PitchClass::D)));
        },
        _ => panic!("expected a collection"),
    }

    let e = Expression::from_str("{c,[1,F3]}").unwrap();
    match e {
        Expression::Collection(kind, items) => {
            assert_eq!(kind, CollectionKind::Unordered);
            assert_eq!(items.len(), 2);
            assert!(matches!(items[0], Expression::PitchClass(PitchClass::C)));
            match &items[1] {
                Expression::Collection(inner, nested) => {
                    assert_eq!(*inner, CollectionKind::Ordered);
                    assert_eq!(nested.len(), 2);
                },
                _ => panic!("expected a nested collection"),
            }
        },
        _ => panic!("expected a collection"),
    }
}

/// Parsing must consume the whole text; empty collections, unclosed
/// brackets, and trailing text all fail as an `expression`.
#[test]
fn expression_errors() {
    for s in ["", "[", "[]", "[0,1", "0,1", "[0,1}", "{}", "xyz"] {
        let e = Expression::from_str(s).unwrap_err();
        let PostalError::ParsingFailure(text, label) = e;
        assert_eq!(text, s, "string: {:?}", s);
        assert_eq!(label, "expression", "string: {:?}", s);
    }
}

/// Collections display their elements comma-separated inside their brackets.
#[test]
fn expression_display() {
    assert_eq!(Expression::from_str("[0,1]").unwrap().to_text(), "[0, 1]");
    assert_eq!(Expression::from_str("{t,e}").unwrap().to_text(), "{↊, ↋}");
    assert_eq!(Expression::from_str("Fx").unwrap().to_text(), "7");
    assert_eq!(
        Expression::from_str("{c,[1,F3]}").unwrap().to_text(),
        "{0, [1, 53]}"
    );
    let empty = Expression::Collection(CollectionKind::Ordered, Vec::new());
    assert_eq!(empty.to_text(), "[]");
}

/// Components carry the raw pieces of a note.
#[test]
fn components() {
    let c = Component::Octave(4);
    assert!(matches!(c, Component::Octave(4)));
    let letter = Component::NoteName("F");
    assert!(matches!(letter, Component::NoteName("F")));
    let flat = Component::Accidental("♭");
    assert!(matches!(flat, Component::Accidental("♭")));
}

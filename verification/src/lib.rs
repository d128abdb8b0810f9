//! Parsing and representation of post-tonal musical notation: pitch classes
//! (mod-12 note values), pitches (pitch class plus octave), and ordered or
//! unordered collections of such values.

pub mod class;
pub mod error;
pub mod expression;
pub mod pitch;
pub mod symbols;

pub use class::PitchClass;
pub use error::PostalError;
pub use error::PostalResult;
pub use expression::CollectionKind;
pub use expression::Component;
pub use expression::Expression;
pub use pitch::Octave;
pub use pitch::Pitch;

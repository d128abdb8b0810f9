//! The mod-12 pitch-class value type with integer conversion and arithmetic.

use vstd::prelude::*;
use vstd::arithmetic::div_mod::lemma_fundamental_div_mod;
use vstd::arithmetic::div_mod::lemma_mod_add_multiples_vanish;
use vstd::arithmetic::div_mod::lemma_mod_multiples_vanish;
use vstd::arithmetic::div_mod::lemma_mod_bound;
use vstd::arithmetic::div_mod::lemma_add_mod_noop_right;
use vstd::arithmetic::div_mod::lemma_sub_mod_noop;
use vstd::arithmetic::div_mod::lemma_sub_mod_noop_right;
use vstd::arithmetic::div_mod::lemma_small_mod;

use crate::error::PostalError;
use crate::symbols::accidental_lookup;
use crate::symbols::accidental_value;
use crate::symbols::acc_sum;
use crate::symbols::ascii_letter_test;
use crate::symbols::base12_digit_lookup;
use crate::symbols::base12_digit_value;
use crate::symbols::base12_value;
use crate::symbols::is_accidental;
use crate::symbols::is_ascii_letter;
use crate::symbols::is_base12_digit;
use crate::symbols::is_note_letter;
use crate::symbols::letter_base;
use crate::symbols::letter_lookup;
use crate::symbols::lemma_acc_sum_permutation;
use crate::symbols::strict_lookup;
use crate::symbols::strict_value;

verus! {

/// A `PitchClass` corresponds to all notes with the same name, regardless of
/// octave. The twelve canonical values are bijective with the integers 0
/// through 11; every construction path reduces modulo 12, so a value is never
/// out of range. Canonical spelling is fixed to this flats-and-naturals table.
#[derive(Debug, Clone, Copy, PartialEq, Eq, Structural)]
pub enum PitchClass {
    C,
    Db,
    D,
    Eb,
    E,
    F,
    Gb,
    G,
    Ab,
    A,
    Bb,
    B,
}

/// The integer value of a pitch class: its index in the canonical table.
pub open spec fn pc_int(pc: PitchClass) -> int {
    match pc {
        PitchClass::C => 0,
        PitchClass::Db => 1,
        PitchClass::D => 2,
        PitchClass::Eb => 3,
        PitchClass::E => 4,
        PitchClass::F => 5,
        PitchClass::Gb => 6,
        PitchClass::G => 7,
        PitchClass::Ab => 8,
        PitchClass::A => 9,
        PitchClass::Bb => 10,
        PitchClass::B => 11,
    }
}

/// The pitch class at a canonical index. Indices outside 0..=11 give `C`,
/// but callers always pass a residue modulo 12.
pub open spec fn pc_from_residue(r: int) -> PitchClass {
    if r == 1 {
        PitchClass::Db
    } else if r == 2 {
        PitchClass::D
    } else if r == 3 {
        PitchClass::Eb
    } else if r == 4 {
        PitchClass::E
    } else if r == 5 {
        PitchClass::F
    } else if r == 6 {
        PitchClass::Gb
    } else if r == 7 {
        PitchClass::G
    } else if r == 8 {
        PitchClass::Ab
    } else if r == 9 {
        PitchClass::A
    } else if r == 10 {
        PitchClass::Bb
    } else if r == 11 {
        PitchClass::B
    } else {
        PitchClass::C
    }
}

/// The pitch class of an arbitrary integer: the canonical value at the
/// Euclidean remainder of `i` modulo 12.
pub open spec fn pc_of_int(i: int) -> PitchClass {
    pc_from_residue(i % 12)
}

/// The pitch class `n` semitones above `pc`.
pub open spec fn pc_add(pc: PitchClass, n: int) -> PitchClass {
    pc_of_int(pc_int(pc) + n)
}

/// The pitch class `n` semitones below `pc`.
pub open spec fn pc_sub(pc: PitchClass, n: int) -> PitchClass {
    pc_of_int(pc_int(pc) - n)
}

impl PitchClass {
    /// Get the pitch class from integer notation: reduce modulo 12 with the
    /// Euclidean remainder and take the canonical value at that index.
    /// Total for every integer.
    pub fn from_int(i: isize) -> (r: Self)
        ensures
            r == pc_of_int(i as int),
    {
        let residue: usize = if i >= 0 {
            (i as usize) % 12
        } else {
            let j: usize = (-(i + 1)) as usize;
            let m: usize = j % 12;
            proof {
                let a = i as int;
                let ji = j as int;
                assert(ji == -a - 1);
                lemma_fundamental_div_mod(ji, 12);
                assert(a == 12 * (-(ji / 12)) + (-(ji % 12) - 1));
                lemma_mod_multiples_vanish(-(ji / 12), -(ji % 12) - 1, 12);
                lemma_mod_add_multiples_vanish(-(ji % 12) - 1, 12);
                lemma_small_mod((11 - ji % 12) as nat, 12);
                assert(a % 12 == 11 - ji % 12);
            }
            11 - m
        };
        Self::from_residue(residue)
    }

    /// The canonical value at index `r` of the table.
    fn from_residue(r: usize) -> (pc: Self)
        requires
            r < 12,
        ensures
            pc == pc_from_residue(r as int),
    {
        if r == 1 {
            PitchClass::Db
        } else if r == 2 {
            PitchClass::D
        } else if r == 3 {
            PitchClass::Eb
        } else if r == 4 {
            PitchClass::E
        } else if r == 5 {
            PitchClass::F
        } else if r == 6 {
            PitchClass::Gb
        } else if r == 7 {
            PitchClass::G
        } else if r == 8 {
            PitchClass::Ab
        } else if r == 9 {
            PitchClass::A
        } else if r == 10 {
            PitchClass::Bb
        } else if r == 11 {
            PitchClass::B
        } else {
            PitchClass::C
        }
    }

    /// The integer value of this pitch class: its index in the canonical
    /// table, always in 0..=11.
    pub fn integer_value(&self) -> (n: u8)
        ensures
            n as int == pc_int(*self),
    {
        match *self {
            PitchClass::C => 0,
            PitchClass::Db => 1,
            PitchClass::D => 2,
            PitchClass::Eb => 3,
            PitchClass::E => 4,
            PitchClass::F => 5,
            PitchClass::Gb => 6,
            PitchClass::G => 7,
            PitchClass::Ab => 8,
            PitchClass::A => 9,
            PitchClass::Bb => 10,
            PitchClass::B => 11,
        }
    }

    /// The pitch class `n` semitones above this one, for any integer `n`.
    pub fn add(self, n: isize) -> (r: Self)
        ensures
            r == pc_add(self, n as int),
    {
        let shift = Self::from_int(n).integer_value();
        let base = self.integer_value();
        proof {
            lemma_mod_bound(n as int, 12);
            lemma_add_mod_noop_right(pc_int(self), n as int, 12);
        }
        Self::from_int(base as isize + shift as isize)
    }

    /// The pitch class `n` semitones below this one, for any integer `n`.
    pub fn sub(self, n: isize) -> (r: Self)
        ensures
            r == pc_sub(self, n as int),
    {
        let shift = Self::from_int(n).integer_value();
        let base = self.integer_value();
        proof {
            lemma_mod_bound(n as int, 12);
            lemma_sub_mod_noop_right(pc_int(self), n as int, 12);
        }
        Self::from_int(base as isize - shift as isize)
    }
}

/// A base-12 numeral is congruent modulo 12 to its last digit.
proof fn lemma_base12_residue(d: Seq<char>)
    requires
        d.len() >= 1,
    ensures
        base12_value(d) % 12 == base12_digit_value(d.last()) % 12,
{
    lemma_mod_multiples_vanish(base12_value(d.drop_last()), base12_digit_value(d.last()), 12);
}

impl PitchClass {
    /// Parse a strict integer pitch class: exactly one reserved numeral or
    /// transdecimal letter.
    fn parse_strict(s: &str) -> (r: Option<Self>)
        ensures
            r is Some <==> (s@.len() == 1 && strict_value(s@[0]) is Some),
            r is Some ==> r->0 == pc_of_int(strict_value(s@[0])->0),
    {
        let n = s.unicode_len();
        if n != 1 {
            return None;
        }
        match strict_lookup(s.get_char(0)) {
            Some(v) => {
                proof {
                    lemma_small_mod(strict_value(s@[0])->0 as nat, 12);
                }
                Some(Self::from_residue(v as usize))
            },
            None => None,
        }
    }

    /// Parse a permissive integer pitch class: an optional sign and one or
    /// more base-12 digits, reduced modulo 12. The numeral may have any
    /// number of digits; only its residue is kept.
    fn parse_permissive(s: &str) -> (r: Option<Self>)
        ensures
            r is Some <==> spec_permissive_int(s@) is Some,
            r is Some ==> r->0 == pc_of_int(spec_permissive_int(s@)->0),
    {
        let n = s.unicode_len();
        if n == 0 {
            return None;
        }
        let c0 = s.get_char(0);
        let negative = c0 == '-';
        let start: usize = if negative || c0 == '+' {
            1
        } else {
            0
        };
        if n <= start {
            return None;
        }
        let ghost d = s@.subrange(start as int, n as int);
        proof {
            if start == 1 {
                assert(d =~= s@.drop_first());
            } else {
                assert(d =~= s@);
            }
        }
        let mut i: usize = start;
        let mut last_digit: u8 = 0;
        while i < n
            invariant
                start <= i <= n,
                n == s@.len(),
                start < n,
                start <= 1,
                negative <==> s@[0] == '-',
                start == 1 <==> (s@[0] == '-' || s@[0] == '+'),
                d == s@.subrange(start as int, n as int),
                all_base12_digits(s@.subrange(start as int, i as int)),
                i > start ==> last_digit as int == base12_digit_value(s@[i as int - 1]),
                i > start ==> last_digit < 12,
            decreases n - i,
        {
            match base12_digit_lookup(s.get_char(i)) {
                Some(v) => {
                    proof {
                        assert(s@.subrange(start as int, i as int + 1).drop_last() =~= s@.subrange(
                            start as int,
                            i as int,
                        ));
                    }
                    last_digit = v;
                    i += 1;
                },
                None => {
                    proof {
                        assert(d[i - start] == s@[i as int]);
                        assert(!is_base12_digit(d[i - start]));
                        assert(!all_base12_digits(d));
                        if start == 1 {
                            assert(d =~= s@.drop_first());
                        } else {
                            assert(d =~= s@);
                        }
                    }
                    return None;
                },
            }
        }
        let residue: u8 = if negative && last_digit > 0 {
            12 - last_digit
        } else {
            last_digit
        };
        proof {
            assert(d =~= s@.subrange(start as int, i as int));
            assert(d.last() == s@[n - 1]);
            let v = base12_value(d);
            lemma_base12_residue(d);
            lemma_small_mod(last_digit as nat, 12);
            assert(v % 12 == last_digit as int);
            if negative {
                lemma_fundamental_div_mod(v, 12);
                lemma_mod_multiples_vanish(-(v / 12), -(v % 12), 12);
                assert((-v) % 12 == (-(last_digit as int)) % 12);
                if last_digit == 0 {
                    lemma_small_mod(0, 12);
                } else {
                    lemma_mod_add_multiples_vanish(-(last_digit as int), 12);
                    lemma_small_mod((12 - last_digit as int) as nat, 12);
                }
            }
        }
        Some(Self::from_residue(residue as usize))
    }

    /// Parse a note: a note letter followed by a run of accidentals, summed
    /// and reduced modulo 12.
    fn parse_note(s: &str) -> (r: Option<Self>)
        ensures
            r is Some <==> spec_note_value(s@) is Some,
            r is Some ==> r->0 == pc_of_int(spec_note_value(s@)->0),
    {
        let n = s.unicode_len();
        if n == 0 {
            return None;
        }
        let base = match letter_lookup(s.get_char(0)) {
            Some(b) => b,
            None => {
                return None;
            },
        };
        proof {
            lemma_small_mod(base as nat, 12);
            assert(s@.subrange(1, 1).len() == 0);
        }
        let mut i: usize = 1;
        let mut residue: u8 = base;
        while i < n
            invariant
                1 <= i <= n,
                n == s@.len(),
                is_note_letter(s@[0]),
                base as int == letter_base(s@[0]),
                all_accidentals(s@.subrange(1, i as int)),
                residue < 12,
                residue as int == (letter_base(s@[0]) + acc_sum(s@.subrange(1, i as int))) % 12,
            decreases n - i,
        {
            match accidental_lookup(s.get_char(i)) {
                Some(shifted) => {
                    proof {
                        let prefix = s@.subrange(1, i as int);
                        let extended = s@.subrange(1, i as int + 1);
                        assert(extended.drop_last() =~= prefix);
                        assert(extended.last() == s@[i as int]);
                        let x = letter_base(s@[0]) + acc_sum(prefix);
                        let av = accidental_value(s@[i as int]);
                        lemma_add_mod_noop_right(av + 12, x, 12);
                        lemma_mod_add_multiples_vanish(av + x, 12);
                        assert((x % 12 + av + 12) % 12 == (x + av) % 12);
                    }
                    residue = (residue + shifted + 10) % 12;
                    i += 1;
                },
                None => {
                    proof {
                        assert(s@.drop_first()[i - 1] == s@[i as int]);
                    }
                    return None;
                },
            }
        }
        proof {
            assert(s@.subrange(1, n as int) =~= s@.drop_first());
        }
        Some(Self::from_residue(residue as usize))
    }

    /// The pitch class named by a text, or nothing where no alternative of
    /// the grammar matches.
    pub(crate) fn classify_text(s: &str) -> (r: Option<Self>)
        ensures
            r == spec_pitch_class(s@),
    {
        let strict = Self::parse_strict(s);
        if strict.is_some() {
            return strict;
        }
        let permissive = Self::parse_permissive(s);
        if permissive.is_some() {
            return permissive;
        }
        Self::parse_note(s)
    }

    /// Whether a text is shaped like a note whose letter names no pitch
    /// class.
    fn shape_unknown_note(s: &str) -> (r: bool)
        ensures
            r == unknown_note_shape(s@),
    {
        let n = s.unicode_len();
        if n == 0 {
            return false;
        }
        let c0 = s.get_char(0);
        if !ascii_letter_test(c0) {
            return false;
        }
        if letter_lookup(c0).is_some() {
            return false;
        }
        let mut i: usize = 1;
        while i < n
            invariant
                1 <= i <= n,
                n == s@.len(),
                all_accidentals(s@.subrange(1, i as int)),
            decreases n - i,
        {
            match accidental_lookup(s.get_char(i)) {
                Some(_) => {
                    proof {
                        assert(s@.subrange(1, i as int + 1).drop_last() =~= s@.subrange(
                            1,
                            i as int,
                        ));
                    }
                    i += 1;
                },
                None => {
                    proof {
                        assert(s@.drop_first()[i - 1] == s@[i as int]);
                    }
                    return false;
                },
            }
        }
        proof {
            assert(s@.subrange(1, n as int) =~= s@.drop_first());
        }
        true
    }

    /// Parse a text as a pitch class. Exactly the texts of the `pitch-class`
    /// grammar rule succeed. A note-shaped text whose leading letter is no
    /// note name fails as a `note name`; every other failing text fails as a
    /// `pitch class`.
    pub fn from_str(s: &str) -> (r: Result<Self, PostalError>)
        ensures
            r is Ok <==> spec_pitch_class(s@) is Some,
            r is Ok ==> spec_pitch_class(s@) == Some(r->Ok_0),
            r is Err ==> (r->Err_0 matches PostalError::ParsingFailure(text, label) && ({
                if unknown_note_shape(s@) {
                    text@ == seq![s@[0]] && label@ == "note name"@
                } else {
                    text@ == s@ && label@ == "pitch class"@
                }
            })),
    {
        match Self::classify_text(s) {
            Some(pc) => Ok(pc),
            None => {
                if Self::shape_unknown_note(s) {
                    let letter = s.substring_char(0, 1);
                    proof {
                        assert(s@.subrange(0, 1) =~= seq![s@[0]]);
                    }
                    Err(PostalError::ParsingFailure(String::from_str(letter), "note name"))
                } else {
                    Err(PostalError::ParsingFailure(String::from_str(s), "pitch class"))
                }
            },
        }
    }
}

/// Whether every symbol of `s` is a base-12 digit.
pub open spec fn all_base12_digits(s: Seq<char>) -> bool {
    forall|i: int| 0 <= i < s.len() ==> is_base12_digit(#[trigger] s[i])
}

/// Whether every symbol of `s` is an accidental.
pub open spec fn all_accidentals(s: Seq<char>) -> bool {
    forall|i: int| 0 <= i < s.len() ==> is_accidental(#[trigger] s[i])
}

/// The value of a permissive integer: an optional sign followed by one or
/// more base-12 digits.
pub open spec fn spec_permissive_int(s: Seq<char>) -> Option<int> {
    if s.len() >= 1 && (s[0] == '-' || s[0] == '+') {
        let d = s.drop_first();
        if d.len() >= 1 && all_base12_digits(d) {
            if s[0] == '-' {
                Some(-base12_value(d))
            } else {
                Some(base12_value(d))
            }
        } else {
            None
        }
    } else if s.len() >= 1 && all_base12_digits(s) {
        Some(base12_value(s))
    } else {
        None
    }
}

/// The summed semitone value of a note: a note letter followed by zero or
/// more accidentals.
pub open spec fn spec_note_value(s: Seq<char>) -> Option<int> {
    if s.len() >= 1 && is_note_letter(s[0]) && all_accidentals(s.drop_first()) {
        Some(letter_base(s[0]) + acc_sum(s.drop_first()))
    } else {
        None
    }
}

/// The pitch class named by a text, tried against the alternatives of the
/// grammar in order: a strict integer (one reserved numeral or transdecimal
/// letter), a permissive signed base-12 integer, or a note letter with its
/// accidental run.
pub open spec fn spec_pitch_class(s: Seq<char>) -> Option<PitchClass> {
    if s.len() == 1 && strict_value(s[0]) is Some {
        Some(pc_of_int(strict_value(s[0])->0))
    } else if spec_permissive_int(s) is Some {
        Some(pc_of_int(spec_permissive_int(s)->0))
    } else if spec_note_value(s) is Some {
        Some(pc_of_int(spec_note_value(s)->0))
    } else {
        None
    }
}

/// Whether a text has the shape of a note whose leading letter names no
/// pitch class: an ASCII letter outside `A` through `G`, followed only by
/// accidentals. Such a text fails with the `note name` category; every other
/// unparsable text fails with the `pitch class` category.
pub open spec fn unknown_note_shape(s: Seq<char>) -> bool {
    s.len() >= 1 && is_ascii_letter(s[0]) && !is_note_letter(s[0]) && all_accidentals(
        s.drop_first(),
    )
}

/// The reserved display numeral of a pitch class: one digit, with distinct
/// transdecimal glyphs for the values 10 and 11.
pub open spec fn numeral_seq(pc: PitchClass) -> Seq<char> {
    match pc {
        PitchClass::C => "0"@,
        PitchClass::Db => "1"@,
        PitchClass::D => "2"@,
        PitchClass::Eb => "3"@,
        PitchClass::E => "4"@,
        PitchClass::F => "5"@,
        PitchClass::Gb => "6"@,
        PitchClass::G => "7"@,
        PitchClass::Ab => "8"@,
        PitchClass::A => "9"@,
        PitchClass::Bb => "\u{218a}"@,
        PitchClass::B => "\u{218b}"@,
    }
}

impl PitchClass {
    /// The display numeral of this pitch class.
    pub fn to_text(&self) -> (r: String)
        ensures
            r@ == numeral_seq(*self),
    {
        let t: &str = match *self {
            PitchClass::C => "0",
            PitchClass::Db => "1",
            PitchClass::D => "2",
            PitchClass::Eb => "3",
            PitchClass::E => "4",
            PitchClass::F => "5",
            PitchClass::Gb => "6",
            PitchClass::G => "7",
            PitchClass::Ab => "8",
            PitchClass::A => "9",
            PitchClass::Bb => "\u{218a}",
            PitchClass::B => "\u{218b}",
        };
        String::from_str(t)
    }
}

/// Law of order-independent accidentals: two runs of accidentals that are
/// permutations of one another name the same pitch class after any note
/// letter.
pub proof fn lemma_accidental_permutation(c: char, a1: Seq<char>, a2: Seq<char>)
    requires
        is_note_letter(c),
        forall|i: int| 0 <= i < a1.len() ==> is_accidental(#[trigger] a1[i]),
        a1.to_multiset() == a2.to_multiset(),
    ensures
        spec_pitch_class(seq![c] + a1) == spec_pitch_class(seq![c] + a2),
{
    broadcast use vstd::seq_lib::group_to_multiset_ensures;

    let s1 = seq![c] + a1;
    let s2 = seq![c] + a2;
    lemma_acc_sum_permutation(a1, a2);
    assert(a1.to_multiset().len() == a1.len());
    assert(a2.to_multiset().len() == a2.len());
    if a1.len() == 0 {
        assert(s1 =~= s2);
    } else {
        assert forall|i: int| 0 <= i < a2.len() implies is_accidental(#[trigger] a2[i]) by {
            assert(a2.contains(a2[i]));
            assert(a2.to_multiset().count(a2[i]) > 0);
            assert(a1.contains(a2[i]));
        }
        assert(s1.drop_first() =~= a1);
        assert(s2.drop_first() =~= a2);
        assert(!is_base12_digit(c));
        assert(!all_base12_digits(s1)) by {
            assert(s1[0] == c);
        }
        assert(!all_base12_digits(s2)) by {
            assert(s2[0] == c);
        }
        assert(spec_note_value(s1) == Some(letter_base(c) + acc_sum(a1)));
        assert(spec_note_value(s2) == Some(letter_base(c) + acc_sum(a2)));
    }
}

/// Law of modular closure: adding any multiple of 12 to an integer leaves its
/// pitch class unchanged.
pub proof fn lemma_modular_closure(i: int, k: int)
    ensures
        pc_of_int(i + 12 * k) == pc_of_int(i),
{
    lemma_mod_multiples_vanish(k, i, 12);
}

/// Law of the integer round trip: rebuilding a pitch class from its own
/// integer value gives the same pitch class back.
pub proof fn lemma_int_round_trip(pc: PitchClass)
    ensures
        pc_of_int(pc_int(pc)) == pc,
{
    lemma_small_mod(pc_int(pc) as nat, 12);
}

/// Law of the arithmetic identity: moving a pitch class up by any integer and
/// then down by the same integer gives the original pitch class back.
pub proof fn lemma_add_sub_identity(pc: PitchClass, a: int)
    ensures
        pc_sub(pc_add(pc, a), a) == pc,
{
    let v = pc_int(pc) + a;
    lemma_mod_bound(v, 12);
    lemma_sub_mod_noop_right(v % 12, a, 12);
    lemma_sub_mod_noop(v, a, 12);
    lemma_small_mod(pc_int(pc) as nat, 12);
}

} // verus!

//! The pitch model: a pitch class fixed to a specific octave, with parsing,
//! formatting, and a total order.

use core::cmp::Ordering;
use vstd::prelude::*;
use vstd::std_specs::cmp::PartialOrdSpec;
use vstd::arithmetic::div_mod::lemma_add_mod_noop_right;
use vstd::arithmetic::div_mod::lemma_mod_add_multiples_vanish;
use vstd::arithmetic::div_mod::lemma_small_mod;

use crate::class::numeral_seq;
use crate::class::pc_int;
use crate::class::pc_of_int;
use crate::class::PitchClass;
use crate::error::PostalError;
use crate::symbols::accidental_lookup;
use crate::symbols::accidental_value;
use crate::symbols::acc_sum;
use crate::symbols::ascii_letter_test;
use crate::symbols::dec_digit_value;
use crate::symbols::is_accidental;
use crate::symbols::is_ascii_letter;
use crate::symbols::is_dec_digit;
use crate::symbols::is_note_letter;
use crate::symbols::letter_base;
use crate::symbols::letter_lookup;

verus! {

/// An octave specifies how high or low a pitch is.
pub type Octave = i8;

/// A pitch consists of a pair of pitch class and octave. Pitches are totally
/// ordered: first by octave, then by the integer value of the pitch class.
#[derive(Debug, Clone, Copy, PartialEq, Eq, Structural)]
pub struct Pitch {
    /// This note's pitch class.
    pub class: PitchClass,
    /// This note's octave.
    pub octave: Octave,
}

impl Pitch {
    /// Direct, infallible construction from a pitch class and an octave.
    pub fn new(pc: PitchClass, oct: Octave) -> (p: Self)
        ensures
            p.class == pc,
            p.octave == oct,
    {
        Self { class: pc, octave: oct }
    }
}

impl PartialOrd for Pitch {
    /// Compare octaves first; within one octave, compare the integer values
    /// of the pitch classes.
    fn partial_cmp(&self, other: &Self) -> (r: Option<Ordering>) {
        if self.octave < other.octave {
            Some(Ordering::Less)
        } else if self.octave > other.octave {
            Some(Ordering::Greater)
        } else {
            let a = self.class.integer_value();
            let b = other.class.integer_value();
            if a < b {
                Some(Ordering::Less)
            } else if a > b {
                Some(Ordering::Greater)
            } else {
                Some(Ordering::Equal)
            }
        }
    }
}

impl vstd::std_specs::cmp::PartialOrdSpecImpl for Pitch {
    open spec fn obeys_partial_cmp_spec() -> bool {
        true
    }

    open spec fn partial_cmp_spec(&self, other: &Self) -> Option<Ordering> {
        if self.octave < other.octave {
            Some(Ordering::Less)
        } else if self.octave > other.octave {
            Some(Ordering::Greater)
        } else if pc_int(self.class) < pc_int(other.class) {
            Some(Ordering::Less)
        } else if pc_int(self.class) > pc_int(other.class) {
            Some(Ordering::Greater)
        } else {
            Some(Ordering::Equal)
        }
    }
}

/// The decimal digit character of a value between 0 and 9.
pub open spec fn dec_digit_char(d: int) -> char {
    if d == 0 {
        '0'
    } else if d == 1 {
        '1'
    } else if d == 2 {
        '2'
    } else if d == 3 {
        '3'
    } else if d == 4 {
        '4'
    } else if d == 5 {
        '5'
    } else if d == 6 {
        '6'
    } else if d == 7 {
        '7'
    } else if d == 8 {
        '8'
    } else {
        '9'
    }
}

/// The decimal numeral of a nonnegative integer.
pub open spec fn dec_seq(n: int) -> Seq<char>
    decreases n,
{
    if n < 10 {
        seq![dec_digit_char(n)]
    } else {
        dec_seq(n / 10) + seq![dec_digit_char(n % 10)]
    }
}

/// The display text of an octave: a sign for negative values, then the
/// decimal numeral.
pub open spec fn octave_seq(o: int) -> Seq<char> {
    if o < 0 {
        seq!['-'] + dec_seq(-o)
    } else {
        dec_seq(o)
    }
}

/// The display text of a pitch: its class numeral followed by its octave.
pub open spec fn pitch_seq(p: Pitch) -> Seq<char> {
    numeral_seq(p.class) + octave_seq(p.octave as int)
}

/// The character of a decimal digit, as text.
fn digit_str(d: u8) -> (r: &'static str)
    requires
        d < 10,
    ensures
        r@ == seq![dec_digit_char(d as int)],
{
    proof {
        reveal_strlit("0");
        reveal_strlit("1");
        reveal_strlit("2");
        reveal_strlit("3");
        reveal_strlit("4");
        reveal_strlit("5");
        reveal_strlit("6");
        reveal_strlit("7");
        reveal_strlit("8");
        reveal_strlit("9");
        assert("0"@ =~= seq!['0']);
        assert("1"@ =~= seq!['1']);
        assert("2"@ =~= seq!['2']);
        assert("3"@ =~= seq!['3']);
        assert("4"@ =~= seq!['4']);
        assert("5"@ =~= seq!['5']);
        assert("6"@ =~= seq!['6']);
        assert("7"@ =~= seq!['7']);
        assert("8"@ =~= seq!['8']);
        assert("9"@ =~= seq!['9']);
    }
    if d == 0 {
        "0"
    } else if d == 1 {
        "1"
    } else if d == 2 {
        "2"
    } else if d == 3 {
        "3"
    } else if d == 4 {
        "4"
    } else if d == 5 {
        "5"
    } else if d == 6 {
        "6"
    } else if d == 7 {
        "7"
    } else if d == 8 {
        "8"
    } else {
        "9"
    }
}

/// The decimal numeral of a byte value.
fn dec_to_text(n: u8) -> (r: String)
    ensures
        r@ == dec_seq(n as int),
    decreases n,
{
    if n < 10 {
        String::from_str(digit_str(n))
    } else {
        let mut r = dec_to_text(n / 10);
        r.append(digit_str(n % 10));
        r
    }
}

impl Pitch {
    /// The display text of this pitch: the class numeral, then the octave.
    pub fn to_text(&self) -> (r: String)
        ensures
            r@ == pitch_seq(*self),
    {
        let mut r = self.class.to_text();
        if self.octave < 0 {
            proof {
                reveal_strlit("-");
                assert("-"@ =~= seq!['-']);
            }
            r.append("-");
            let mag = (-(self.octave as i16)) as u8;
            let tail = dec_to_text(mag);
            r.append(tail.as_str());
        } else {
            let tail = dec_to_text(self.octave as u8);
            r.append(tail.as_str());
        }
        r
    }
}

/// Whether every symbol of `s` is a decimal digit.
pub open spec fn all_dec_digits(s: Seq<char>) -> bool {
    forall|i: int| 0 <= i < s.len() ==> is_dec_digit(#[trigger] s[i])
}

/// The value of an unsigned decimal numeral.
pub open spec fn dec_value(s: Seq<char>) -> int
    decreases s.len(),
{
    if s.len() == 0 {
        0
    } else {
        dec_value(s.drop_last()) * 10 + dec_digit_value(s.last())
    }
}

/// The value of an octave numeral: an optional sign followed by one or more
/// decimal digits.
pub open spec fn spec_octave(s: Seq<char>) -> Option<int> {
    if s.len() >= 1 && (s[0] == '-' || s[0] == '+') {
        let d = s.drop_first();
        if d.len() >= 1 && all_dec_digits(d) {
            if s[0] == '-' {
                Some(-dec_value(d))
            } else {
                Some(dec_value(d))
            }
        } else {
            None
        }
    } else if s.len() >= 1 && all_dec_digits(s) {
        Some(dec_value(s))
    } else {
        None
    }
}

/// The first position at or after `i` that holds no accidental, where the
/// accidental run of a note ends.
pub open spec fn acc_run_end(s: Seq<char>, i: int) -> int
    decreases s.len() - i,
{
    if i < 0 || i >= s.len() {
        s.len() as int
    } else if !is_accidental(s[i]) {
        i
    } else {
        acc_run_end(s, i + 1)
    }
}

/// The pitch named by a text: a note letter, a run of accidentals, and an
/// octave that fits the octave type.
pub open spec fn spec_pitch(s: Seq<char>) -> Option<Pitch> {
    if s.len() >= 1 && is_note_letter(s[0]) {
        let k = acc_run_end(s, 1);
        match spec_octave(s.subrange(k, s.len() as int)) {
            Some(o) => if i8::MIN <= o <= i8::MAX {
                Some(
                    Pitch {
                        class: pc_of_int(letter_base(s[0]) + acc_sum(s.subrange(1, k))),
                        octave: o as i8,
                    },
                )
            } else {
                None
            },
            None => None,
        }
    } else {
        None
    }
}

/// Whether a text has the shape of a pitch whose leading letter names no
/// pitch class: an ASCII letter outside `A` through `G`, accidentals, and a
/// well-formed octave. Such a text fails as a `note name`; every other
/// unparsable text fails as a `pitch`.
pub open spec fn unknown_pitch_shape(s: Seq<char>) -> bool {
    &&& s.len() >= 1
    &&& is_ascii_letter(s[0])
    &&& !is_note_letter(s[0])
    &&& match spec_octave(s.subrange(acc_run_end(s, 1), s.len() as int)) {
        Some(o) => i8::MIN <= o <= i8::MAX,
        None => false,
    }
}

/// Parse a text as an octave numeral, rejecting values outside the octave
/// type's range.
fn parse_octave(s: &str) -> (r: Option<i8>)
    ensures
        r is Some <==> (spec_octave(s@) matches Some(o) && i8::MIN <= o <= i8::MAX),
        r is Some ==> r->0 as int == spec_octave(s@)->0,
{
    let n = s.unicode_len();
    if n == 0 {
        return None;
    }
    let c0 = s.get_char(0);
    let negative = c0 == '-';
    let start: usize = if negative || c0 == '+' {
        1
    } else {
        0
    };
    if n <= start {
        return None;
    }
    let ghost d = s@.subrange(start as int, n as int);
    let mut i: usize = start;
    let mut acc: u16 = 0;
    while i < n
        invariant
            start <= i <= n,
            n == s@.len(),
            start < n,
            start <= 1,
            negative <==> s@[0] == '-',
            start == 1 <==> (s@[0] == '-' || s@[0] == '+'),
            d == s@.subrange(start as int, n as int),
            all_dec_digits(s@.subrange(start as int, i as int)),
            acc <= 1000,
            dec_value(s@.subrange(start as int, i as int)) <= 999 ==> acc as int == dec_value(
                s@.subrange(start as int, i as int),
            ),
            acc == 1000 <==> dec_value(s@.subrange(start as int, i as int)) >= 1000,
        decreases n - i,
    {
        let c = s.get_char(i);
        let u = c as u32;
        if 48 <= u && u <= 57 {
            let dv = (u - 48) as u16;
            proof {
                assert(s@.subrange(start as int, i as int + 1).drop_last() =~= s@.subrange(
                    start as int,
                    i as int,
                ));
                assert(s@.subrange(start as int, i as int + 1).last() == s@[i as int]);
            }
            acc = if acc >= 100 {
                1000
            } else {
                acc * 10 + dv
            };
            i += 1;
        } else {
            proof {
                assert(d[i - start] == s@[i as int]);
                assert(!is_dec_digit(d[i - start]));
                assert(!all_dec_digits(d));
                if start == 1 {
                    assert(d =~= s@.drop_first());
                } else {
                    assert(d =~= s@);
                }
            }
            return None;
        }
    }
    proof {
        assert(d =~= s@.subrange(start as int, i as int));
        if start == 1 {
            assert(d =~= s@.drop_first());
        } else {
            assert(d =~= s@);
        }
    }
    if negative {
        if acc <= 128 {
            Some((-(acc as i16)) as i8)
        } else {
            None
        }
    } else {
        if acc <= 127 {
            Some(acc as i8)
        } else {
            None
        }
    }
}

/// Law of pitch ordering totality: any two pitches compare; with equal pitch
/// classes the order follows the octave; within one octave it follows the
/// fixed canonical sequence of the twelve pitch classes; and two pitches
/// compare as equal exactly when they are the same pitch.
pub proof fn lemma_pitch_order_total(a: Pitch, b: Pitch)
    ensures
        a.partial_cmp_spec(&b) is Some,
        a.class == b.class ==> ((a.partial_cmp_spec(&b) == Some(Ordering::Less)) <==> a.octave
            < b.octave),
        a.octave == b.octave ==> ((a.partial_cmp_spec(&b) == Some(Ordering::Less)) <==> pc_int(
            a.class,
        ) < pc_int(b.class)),
        (a.partial_cmp_spec(&b) == Some(Ordering::Equal)) <==> a == b,
{
}

/// Scan the accidental run that follows the leading letter of a text,
/// returning where the run ends and the run's summed offset reduced modulo
/// 12.
fn scan_accidentals(s: &str, n: usize) -> (r: (usize, u8))
    requires
        n == s@.len(),
        n >= 1,
    ensures
        1 <= r.0 <= n,
        r.0 as int == acc_run_end(s@, 1),
        r.1 < 12,
        r.1 as int == acc_sum(s@.subrange(1, r.0 as int)) % 12,
{
    let mut i: usize = 1;
    let mut racc: u8 = 0;
    proof {
        assert(s@.subrange(1, 1).len() == 0);
        lemma_small_mod(0, 12);
    }
    while i < n
        invariant
            1 <= i <= n,
            n == s@.len(),
            acc_run_end(s@, 1) == acc_run_end(s@, i as int),
            racc < 12,
            racc as int == acc_sum(s@.subrange(1, i as int)) % 12,
        decreases n - i,
    {
        match accidental_lookup(s.get_char(i)) {
            Some(shifted) => {
                proof {
                    let prefix = s@.subrange(1, i as int);
                    let extended = s@.subrange(1, i as int + 1);
                    assert(extended.drop_last() =~= prefix);
                    assert(extended.last() == s@[i as int]);
                    let x = acc_sum(prefix);
                    let av = accidental_value(s@[i as int]);
                    lemma_add_mod_noop_right(av + 12, x, 12);
                    lemma_mod_add_multiples_vanish(av + x, 12);
                    assert((x % 12 + av + 12) % 12 == (x + av) % 12);
                }
                racc = (racc + shifted + 10) % 12;
                i += 1;
            },
            None => {
                proof {
                    assert(acc_run_end(s@, i as int) == i as int);
                }
                return (i, racc);
            },
        }
    }
    proof {
        assert(acc_run_end(s@, i as int) == i as int);
    }
    (i, racc)
}

impl Pitch {
    /// The pitch named by a text, or nothing where the `pitch` grammar rule
    /// does not match.
    pub(crate) fn classify_text(s: &str) -> (r: Option<Self>)
        ensures
            r == spec_pitch(s@),
    {
        let n = s.unicode_len();
        if n == 0 {
            return None;
        }
        let base = match letter_lookup(s.get_char(0)) {
            Some(b) => b,
            None => {
                return None;
            },
        };
        let (run_end, racc) = scan_accidentals(s, n);
        let octave_text = s.substring_char(run_end, n);
        match parse_octave(octave_text) {
            Some(o) => {
                proof {
                    let x = acc_sum(s@.subrange(1, run_end as int));
                    lemma_add_mod_noop_right(base as int, x, 12);
                    vstd::arithmetic::div_mod::lemma_mod_bound(base as int + x, 12);
                    lemma_small_mod(((base as int + x) % 12) as nat, 12);
                }
                let residue = (base + racc) % 12;
                Some(Self { class: PitchClass::from_int(residue as isize), octave: o })
            },
            None => None,
        }
    }

    /// Whether a text is shaped like a pitch whose letter names no pitch
    /// class.
    fn shape_unknown_pitch(s: &str) -> (r: bool)
        ensures
            r == unknown_pitch_shape(s@),
    {
        let n = s.unicode_len();
        if n == 0 {
            return false;
        }
        let c0 = s.get_char(0);
        if !ascii_letter_test(c0) {
            return false;
        }
        if letter_lookup(c0).is_some() {
            return false;
        }
        let (run_end, _) = scan_accidentals(s, n);
        let octave_text = s.substring_char(run_end, n);
        parse_octave(octave_text).is_some()
    }

    /// Parse a text as a pitch: a note letter, a run of accidentals, and a
    /// signed octave. Exactly the texts of the `pitch` grammar rule succeed.
    /// A pitch-shaped text whose leading letter is no note name fails as a
    /// `note name`; every other failing text fails as a `pitch`.
    pub fn from_str(s: &str) -> (r: Result<Self, PostalError>)
        ensures
            r is Ok <==> spec_pitch(s@) is Some,
            r is Ok ==> spec_pitch(s@) == Some(r->Ok_0),
            r is Err ==> (r->Err_0 matches PostalError::ParsingFailure(text, label) && ({
                if unknown_pitch_shape(s@) {
                    text@ == seq![s@[0]] && label@ == "note name"@
                } else {
                    text@ == s@ && label@ == "pitch"@
                }
            })),
    {
        match Self::classify_text(s) {
            Some(p) => Ok(p),
            None => {
                if Self::shape_unknown_pitch(s) {
                    let letter = s.substring_char(0, 1);
                    proof {
                        assert(s@.subrange(0, 1) =~= seq![s@[0]]);
                    }
                    Err(PostalError::ParsingFailure(String::from_str(letter), "note name"))
                } else {
                    Err(PostalError::ParsingFailure(String::from_str(s), "pitch"))
                }
            },
        }
    }
}

} // verus!

//! The fixed lookup tables of the notation language: note letters, accidental
//! symbols, and the reserved digit numerals, each as a spec-level table with
//! its executable counterpart.

use vstd::prelude::*;

verus! {

/// Whether `c` is a note letter, one of `A` through `G` in either case.
pub open spec fn is_note_letter(c: char) -> bool {
    ||| c == 'A' || c == 'a'
    ||| c == 'B' || c == 'b'
    ||| c == 'C' || c == 'c'
    ||| c == 'D' || c == 'd'
    ||| c == 'E' || c == 'e'
    ||| c == 'F' || c == 'f'
    ||| c == 'G' || c == 'g'
}

/// The base pitch-class value of a note letter.
pub open spec fn letter_base(c: char) -> int {
    if c == 'C' || c == 'c' {
        0
    } else if c == 'D' || c == 'd' {
        2
    } else if c == 'E' || c == 'e' {
        4
    } else if c == 'F' || c == 'f' {
        5
    } else if c == 'G' || c == 'g' {
        7
    } else if c == 'A' || c == 'a' {
        9
    } else {
        11
    }
}

/// Whether `c` is an accidental symbol of the grammar. ASCII and Unicode
/// spellings are both accepted.
pub open spec fn is_accidental(c: char) -> bool {
    ||| c == '\u{1d12b}' || c == '\u{266d}' || c == 'b'
    ||| c == '\u{266e}' || c == 'n'
    ||| c == '\u{266f}' || c == 's' || c == '#'
    ||| c == '\u{1d12a}' || c == 'x'
}

/// The signed semitone offset of an accidental symbol. A symbol outside the
/// table contributes zero rather than failing.
pub open spec fn accidental_value(c: char) -> int {
    if c == '\u{1d12b}' {
        -2
    } else if c == '\u{266d}' || c == 'b' {
        -1
    } else if c == '\u{266f}' || c == 's' || c == '#' {
        1
    } else if c == '\u{1d12a}' || c == 'x' {
        2
    } else {
        0
    }
}

/// The summed semitone offset of a run of accidental symbols.
pub open spec fn acc_sum(s: Seq<char>) -> int
    decreases s.len(),
{
    if s.len() == 0 {
        0
    } else {
        acc_sum(s.drop_last()) + accidental_value(s.last())
    }
}

/// Removing one symbol from a run subtracts exactly its offset from the sum.
proof fn lemma_acc_sum_remove(s: Seq<char>, i: int)
    requires
        0 <= i < s.len(),
    ensures
        acc_sum(s) == acc_sum(s.remove(i)) + accidental_value(s[i]),
    decreases s.len(),
{
    if i == s.len() - 1 {
        assert(s.remove(i) =~= s.drop_last());
    } else {
        lemma_acc_sum_remove(s.drop_last(), i);
        assert(s.remove(i).drop_last() =~= s.drop_last().remove(i));
        assert(s.remove(i).last() == s.last());
    }
}

/// Law of order-independent accidental summation: two runs of accidental
/// symbols that are permutations of one another have the same summed offset.
pub proof fn lemma_acc_sum_permutation(s1: Seq<char>, s2: Seq<char>)
    requires
        s1.to_multiset() == s2.to_multiset(),
    ensures
        acc_sum(s1) == acc_sum(s2),
    decreases s1.len(),
{
    broadcast use vstd::seq_lib::group_to_multiset_ensures;

    if s1.len() == 0 {
        assert(s1.to_multiset().len() == s1.len());
        assert(s2.to_multiset().len() == s2.len());
        assert(s2.len() == 0);
    } else {
        let c = s1.last();
        assert(s1.to_multiset().count(c) > 0);
        assert(s2.contains(c));
        let i = choose|i: int| 0 <= i < s2.len() && s2[i] == c;
        assert(s1.drop_last() =~= s1.remove(s1.len() - 1));
        assert(s1.remove(s1.len() - 1).to_multiset() =~= s2.remove(i).to_multiset());
        lemma_acc_sum_permutation(s1.drop_last(), s2.remove(i));
        lemma_acc_sum_remove(s2, i);
    }
}

/// Whether `c` is an ASCII letter. The grammar accepts any such letter in the
/// leading position of a note; only `A` through `G` name a pitch class.
pub open spec fn is_ascii_letter(c: char) -> bool {
    ('A' as u32 <= c as u32 && c as u32 <= 'Z' as u32) || ('a' as u32 <= c as u32 && c as u32
        <= 'z' as u32)
}

/// Whether `c` is a decimal digit.
pub open spec fn is_dec_digit(c: char) -> bool {
    '0' as u32 <= c as u32 && c as u32 <= '9' as u32
}

/// The value of a decimal digit.
pub open spec fn dec_digit_value(c: char) -> int {
    c as u32 - '0' as u32
}

/// Whether `c` is a digit of the permissive base-12 integer notation: a
/// decimal digit or one of the two transdecimal glyphs.
pub open spec fn is_base12_digit(c: char) -> bool {
    is_dec_digit(c) || c == '\u{218a}' || c == '\u{218b}'
}

/// The value of a base-12 digit.
pub open spec fn base12_digit_value(c: char) -> int {
    if c == '\u{218a}' {
        10
    } else if c == '\u{218b}' {
        11
    } else {
        dec_digit_value(c)
    }
}

/// The value of an unsigned base-12 numeral.
pub open spec fn base12_value(s: Seq<char>) -> int
    decreases s.len(),
{
    if s.len() == 0 {
        0
    } else {
        base12_value(s.drop_last()) * 12 + base12_digit_value(s.last())
    }
}

/// The value of a strict integer pitch class: a single reserved digit
/// numeral, or a transdecimal letter synonym for 10 or 11.
pub open spec fn strict_value(c: char) -> Option<int> {
    if is_base12_digit(c) {
        Some(base12_digit_value(c))
    } else if c == 't' || c == 'T' {
        Some(10int)
    } else if c == 'e' || c == 'E' {
        Some(11int)
    } else {
        None
    }
}

/// Executable note-letter table; mirrors `is_note_letter` and `letter_base`.
pub(crate) fn letter_lookup(c: char) -> (r: Option<u8>)
    ensures
        r is Some <==> is_note_letter(c),
        r is Some ==> r->0 as int == letter_base(c),
{
    if c == 'C' || c == 'c' {
        Some(0)
    } else if c == 'D' || c == 'd' {
        Some(2)
    } else if c == 'E' || c == 'e' {
        Some(4)
    } else if c == 'F' || c == 'f' {
        Some(5)
    } else if c == 'G' || c == 'g' {
        Some(7)
    } else if c == 'A' || c == 'a' {
        Some(9)
    } else if c == 'B' || c == 'b' {
        Some(11)
    } else {
        None
    }
}

/// Executable accidental table; mirrors `is_accidental` and
/// `accidental_value`. The offset is returned shifted up by two so that it
/// fits an unsigned byte.
pub(crate) fn accidental_lookup(c: char) -> (r: Option<u8>)
    ensures
        r is Some <==> is_accidental(c),
        r is Some ==> r->0 as int == accidental_value(c) + 2,
{
    if c == '\u{1d12b}' {
        Some(0)
    } else if c == '\u{266d}' || c == 'b' {
        Some(1)
    } else if c == '\u{266e}' || c == 'n' {
        Some(2)
    } else if c == '\u{266f}' || c == 's' || c == '#' {
        Some(3)
    } else if c == '\u{1d12a}' || c == 'x' {
        Some(4)
    } else {
        None
    }
}

/// Executable ASCII-letter test; mirrors `is_ascii_letter`.
pub(crate) fn ascii_letter_test(c: char) -> (r: bool)
    ensures
        r == is_ascii_letter(c),
{
    let u = c as u32;
    (65 <= u && u <= 90) || (97 <= u && u <= 122)
}

/// Executable base-12 digit table; mirrors `is_base12_digit` and
/// `base12_digit_value`.
pub(crate) fn base12_digit_lookup(c: char) -> (r: Option<u8>)
    ensures
        r is Some <==> is_base12_digit(c),
        r is Some ==> r->0 as int == base12_digit_value(c),
{
    if c == '\u{218a}' {
        Some(10)
    } else if c == '\u{218b}' {
        Some(11)
    } else {
        let u = c as u32;
        if 48 <= u && u <= 57 {
            Some((u - 48) as u8)
        } else {
            None
        }
    }
}

/// Executable strict-numeral table; mirrors `strict_value`.
pub(crate) fn strict_lookup(c: char) -> (r: Option<u8>)
    ensures
        r is Some <==> strict_value(c) is Some,
        r is Some ==> r->0 as int == strict_value(c)->0,
    {
    let d = base12_digit_lookup(c);
    if d.is_some() {
        d
    } else if c == 't' || c == 'T' {
        Some(10)
    } else if c == 'e' || c == 'E' {
        Some(11)
    } else {
        None
    }
}

} // verus!

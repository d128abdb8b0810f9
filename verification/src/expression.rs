//! The expression model: a discriminated union over pitch classes, pitches,
//! and ordered or unordered collections of nested expressions, with recursive
//! parsing and formatting.

use vstd::prelude::*;

use crate::class::numeral_seq;
use crate::class::spec_pitch_class;
use crate::class::PitchClass;
use crate::error::PostalError;
use crate::pitch::pitch_seq;
use crate::pitch::spec_pitch;
use crate::pitch::Pitch;

verus! {

/// A component that does not constitute an expression.
#[derive(Debug, Clone, Copy)]
pub enum Component<'c> {
    NoteName(&'c str),
    Accidental(&'c str),
    Octave(isize),
}

/// Whether a collection keeps the order of its elements: square brackets
/// build an ordered collection, curly braces an unordered one.
#[derive(Debug, Clone, Copy, PartialEq, Eq, Structural)]
pub enum CollectionKind {
    Ordered,
    Unordered,
}

/// A complete expression: a pitch, a pitch class, or a collection of nested
/// expressions.
#[derive(Debug)]
pub enum Expression {
    Pitch(Pitch),
    PitchClass(PitchClass),
    Collection(CollectionKind, Vec<Expression>),
}

/// The mathematical shape of an expression, with each collection's elements
/// as a sequence.
#[verifier::ext_equal]
pub enum ExprView {
    Pitch(Pitch),
    PitchClass(PitchClass),
    Collection(CollectionKind, Seq<ExprView>),
}

/// The shape of an expression.
pub open spec fn expr_view(e: Expression) -> ExprView
    decreases e, 0int,
{
    match e {
        Expression::Pitch(p) => ExprView::Pitch(p),
        Expression::PitchClass(pc) => ExprView::PitchClass(pc),
        Expression::Collection(kind, items) => ExprView::Collection(
            kind,
            views_of_from(items@, 0),
        ),
    }
}

/// The shapes of the expressions of a sequence, from position `i` on.
pub open spec fn views_of_from(s: Seq<Expression>, i: int) -> Seq<ExprView>
    decreases s, s.len() - i,
{
    if i < 0 || i >= s.len() {
        Seq::empty()
    } else {
        seq![expr_view(s[i])] + views_of_from(s, i + 1)
    }
}

/// The shapes of the expressions of a sequence.
pub open spec fn views_of(s: Seq<Expression>) -> Seq<ExprView> {
    views_of_from(s, 0)
}

impl View for Expression {
    type V = ExprView;

    open spec fn view(&self) -> ExprView {
        expr_view(*self)
    }
}

/// A sequence of shapes holds one shape for each expression, in order.
proof fn lemma_views_of_from(s: Seq<Expression>, i: int)
    requires
        0 <= i <= s.len(),
    ensures
        views_of_from(s, i).len() == s.len() - i,
        forall|j: int|
            0 <= j < s.len() - i ==> #[trigger] views_of_from(s, i)[j] == expr_view(s[i + j]),
    decreases s.len() - i,
{
    if i < s.len() {
        lemma_views_of_from(s, i + 1);
    }
}

/// The opening bracket of a collection kind.
pub open spec fn open_seq(k: CollectionKind) -> Seq<char> {
    match k {
        CollectionKind::Ordered => "["@,
        CollectionKind::Unordered => "{"@,
    }
}

/// The closing bracket of a collection kind.
pub open spec fn close_seq(k: CollectionKind) -> Seq<char> {
    match k {
        CollectionKind::Ordered => "]"@,
        CollectionKind::Unordered => "}"@,
    }
}

/// The display text of an expression shape: leaves render via their own
/// formatting; a collection renders its elements comma-separated inside its
/// brackets.
pub open spec fn spec_format(m: ExprView) -> Seq<char>
    decreases m, 0int,
{
    match m {
        ExprView::Pitch(p) => pitch_seq(p),
        ExprView::PitchClass(pc) => numeral_seq(pc),
        ExprView::Collection(kind, elems) => open_seq(kind) + format_views_from(elems, 0)
            + close_seq(kind),
    }
}

/// The display text of the shapes of a sequence from position `i` on,
/// comma-separated.
pub open spec fn format_views_from(ms: Seq<ExprView>, i: int) -> Seq<char>
    decreases ms, ms.len() - i,
{
    if i < 0 || i >= ms.len() {
        Seq::empty()
    } else if i == ms.len() - 1 {
        spec_format(ms[i])
    } else {
        spec_format(ms[i]) + ", "@ + format_views_from(ms, i + 1)
    }
}

/// The first position at or after `pos` that holds a comma or a closing
/// bracket, where a leaf text ends.
pub open spec fn leaf_end(s: Seq<char>, pos: int) -> int
    decreases s.len() - pos,
{
    if pos < 0 || pos >= s.len() {
        s.len() as int
    } else if s[pos] == ',' || s[pos] == ']' || s[pos] == '}' {
        pos
    } else {
        leaf_end(s, pos + 1)
    }
}

/// A leaf ends at or after where it starts, and within the text.
proof fn lemma_leaf_end_bounds(s: Seq<char>, pos: int)
    requires
        0 <= pos <= s.len(),
    ensures
        pos <= leaf_end(s, pos) <= s.len(),
    decreases s.len() - pos,
{
    if pos < s.len() && !(s[pos] == ',' || s[pos] == ']' || s[pos] == '}') {
        lemma_leaf_end_bounds(s, pos + 1);
    }
}

/// The expression shape at position `pos` of a text, with the count of
/// characters it consumes: a bracketed collection of comma-separated
/// expressions, or a leaf that runs to the next comma or closing bracket and
/// must name a pitch class or a pitch.
pub open spec fn spec_parse_expr_at(s: Seq<char>, pos: int) -> Option<(ExprView, nat)>
    decreases s.len() - pos, 0int,
{
    if pos < 0 || pos >= s.len() {
        None
    } else if s[pos] == '[' || s[pos] == '{' {
        let kind = if s[pos] == '[' {
            CollectionKind::Ordered
        } else {
            CollectionKind::Unordered
        };
        match spec_parse_elems(s, pos + 1) {
            Some((elems, m)) => {
                let cpos = pos + 1 + m;
                if cpos < s.len() && s[cpos] == close_seq(kind)[0] {
                    Some((ExprView::Collection(kind, elems), (m + 2) as nat))
                } else {
                    None
                }
            },
            None => None,
        }
    } else {
        let t = s.subrange(pos, leaf_end(s, pos));
        if spec_pitch_class(t) is Some {
            Some((ExprView::PitchClass(spec_pitch_class(t)->0), (leaf_end(s, pos) - pos) as nat))
        } else if spec_pitch(t) is Some {
            Some((ExprView::Pitch(spec_pitch(t)->0), (leaf_end(s, pos) - pos) as nat))
        } else {
            None
        }
    }
}

/// One or more comma-separated expression shapes from position `pos` on,
/// with the count of characters they consume, separators included.
pub open spec fn spec_parse_elems(s: Seq<char>, pos: int) -> Option<(Seq<ExprView>, nat)>
    decreases s.len() - pos, 1int,
{
    if pos < 0 || pos >= s.len() {
        None
    } else {
        match spec_parse_expr_at(s, pos) {
            Some((m0, c)) => {
                if pos + c < s.len() && s[pos + c] == ',' {
                    match spec_parse_elems(s, pos + c + 1) {
                        Some((rest, c2)) => Some((seq![m0] + rest, (c + 1 + c2) as nat)),
                        None => None,
                    }
                } else {
                    Some((seq![m0], c))
                }
            },
            None => None,
        }
    }
}

/// The expression shape of a whole text: the shape at its start, accepted
/// only where it consumes the entire input.
pub open spec fn spec_parse_expression(s: Seq<char>) -> Option<ExprView> {
    match spec_parse_expr_at(s, 0) {
        Some((m, c)) => if c == s.len() {
            Some(m)
        } else {
            None
        },
        None => None,
    }
}

/// An expression never consumes more characters than the text holds.
proof fn lemma_expr_consumed(s: Seq<char>, pos: int)
    ensures
        spec_parse_expr_at(s, pos) matches Some((m, c)) ==> pos + c <= s.len(),
    decreases s.len() - pos, 0int,
{
    if 0 <= pos < s.len() {
        if s[pos] == '[' || s[pos] == '{' {
            lemma_elems_consumed(s, pos + 1);
        } else {
            lemma_leaf_end_bounds(s, pos);
        }
    }
}

/// A run of elements never consumes more characters than the text holds.
proof fn lemma_elems_consumed(s: Seq<char>, pos: int)
    ensures
        spec_parse_elems(s, pos) matches Some((ms, c)) ==> pos + c <= s.len(),
    decreases s.len() - pos, 1int,
{
    if 0 <= pos < s.len() {
        lemma_expr_consumed(s, pos);
        match spec_parse_expr_at(s, pos) {
            Some((m0, c)) => {
                if pos + c < s.len() && s[pos + c] == ',' {
                    lemma_elems_consumed(s, pos + c + 1);
                }
            },
            None => {},
        }
    }
}

/// Find where the leaf that starts at `pos` ends: at the next comma or
/// closing bracket, or at the end of the text.
fn leaf_end_scan(s: &str, n: usize, pos: usize) -> (end: usize)
    requires
        n == s@.len(),
        pos <= n,
    ensures
        end as int == leaf_end(s@, pos as int),
        pos <= end <= n,
{
    let mut i = pos;
    while i < n
        invariant
            pos <= i <= n,
            n == s@.len(),
            leaf_end(s@, pos as int) == leaf_end(s@, i as int),
        decreases n - i,
    {
        let c = s.get_char(i);
        if c == ',' || c == ']' || c == '}' {
            return i;
        }
        i += 1;
    }
    i
}

/// Parse the expression at position `pos` of a text, returning it with the
/// count of characters it consumed.
fn parse_expr_at(s: &str, n: usize, pos: usize) -> (r: Option<(Expression, usize)>)
    requires
        n == s@.len(),
        pos <= n,
    ensures
        r is Some <==> spec_parse_expr_at(s@, pos as int) is Some,
        r matches Some((e, c)) ==> spec_parse_expr_at(s@, pos as int) == Some((e@, c as nat)),
        r matches Some((e, c)) ==> pos + c <= n,
    decreases n - pos, 0int,
{
    if pos >= n {
        return None;
    }
    let c0 = s.get_char(pos);
    if c0 == '[' || c0 == '{' {
        let ordered = c0 == '[';
        match parse_elems(s, n, pos + 1) {
            Some((elems, m)) => {
                let cpos = pos + 1 + m;
                let close = if ordered {
                    ']'
                } else {
                    '}'
                };
                proof {
                    let kind = if ordered {
                        CollectionKind::Ordered
                    } else {
                        CollectionKind::Unordered
                    };
                    reveal_strlit("]");
                    reveal_strlit("}");
                    assert(close_seq(kind)[0] == close);
                }
                if cpos < n && s.get_char(cpos) == close {
                    let kind = if ordered {
                        CollectionKind::Ordered
                    } else {
                        CollectionKind::Unordered
                    };
                    Some((Expression::Collection(kind, elems), m + 2))
                } else {
                    None
                }
            },
            None => None,
        }
    } else {
        let end = leaf_end_scan(s, n, pos);
        let t = s.substring_char(pos, end);
        match PitchClass::classify_text(t) {
            Some(pc) => Some((Expression::PitchClass(pc), end - pos)),
            None => {
                match Pitch::classify_text(t) {
                    Some(p) => Some((Expression::Pitch(p), end - pos)),
                    None => None,
                }
            },
        }
    }
}

/// Parse the comma-separated run of expressions that starts at position
/// `pos`, returning them with the count of characters they consumed.
fn parse_elems(s: &str, n: usize, pos: usize) -> (r: Option<(Vec<Expression>, usize)>)
    requires
        n == s@.len(),
        pos <= n,
    ensures
        r is Some <==> spec_parse_elems(s@, pos as int) is Some,
        r matches Some((v, c)) ==> spec_parse_elems(s@, pos as int) == Some(
            (views_of(v@), c as nat),
        ),
        r matches Some((v, c)) ==> pos + c <= n,
    decreases n - pos, 1int,
{
    if pos >= n {
        return None;
    }
    match parse_expr_at(s, n, pos) {
        Some((e0, c0)) => {
            let after = pos + c0;
            if after < n && s.get_char(after) == ',' {
                match parse_elems(s, n, after + 1) {
                    Some((rest, c2)) => {
                        let ghost rest0 = rest@;
                        let mut v: Vec<Expression> = Vec::new();
                        v.push(e0);
                        let mut tail = rest;
                        v.append(&mut tail);
                        proof {
                            assert(v@ == seq![e0] + rest0);
                            lemma_views_of_from(v@, 0);
                            lemma_views_of_from(rest0, 0);
                            assert(views_of(v@) =~= seq![expr_view(e0)] + views_of(rest0));
                        }
                        Some((v, c0 + 1 + c2))
                    },
                    None => None,
                }
            } else {
                let mut v: Vec<Expression> = Vec::new();
                v.push(e0);
                proof {
                    lemma_views_of_from(v@, 0);
                    assert(views_of(v@) =~= seq![expr_view(e0)]);
                }
                Some((v, c0))
            }
        },
        None => None,
    }
}

impl Expression {
    /// Parse a text as an expression: a pitch class, a pitch, or a bracketed
    /// collection of nested expressions, which must consume the whole text.
    /// Every failing text fails as an `expression`.
    pub fn from_str(e: &str) -> (r: Result<Self, PostalError>)
        ensures
            r is Ok <==> spec_parse_expression(e@) is Some,
            r is Ok ==> spec_parse_expression(e@) == Some(r->Ok_0@),
            r is Err ==> (r->Err_0 matches PostalError::ParsingFailure(text, label) && text@ == e@
                && label@ == "expression"@),
    {
        let n = e.unicode_len();
        match parse_expr_at(e, n, 0) {
            Some((expr, consumed)) => {
                if consumed == n {
                    Ok(expr)
                } else {
                    Err(PostalError::ParsingFailure(String::from_str(e), "expression"))
                }
            },
            None => Err(PostalError::ParsingFailure(String::from_str(e), "expression")),
        }
    }

    /// The display text of this expression: leaves render as their own texts;
    /// a collection renders its elements comma-separated inside its brackets.
    pub fn to_text(&self) -> (r: String)
        ensures
            r@ == spec_format(self@),
        decreases *self, 1int,
    {
        match self {
            Expression::Pitch(p) => p.to_text(),
            Expression::PitchClass(pc) => pc.to_text(),
            Expression::Collection(kind, items) => {
                let mut r = String::from_str(
                    match kind {
                        CollectionKind::Ordered => "[",
                        CollectionKind::Unordered => "{",
                    },
                );
                if items.len() > 0 {
                    let body = items_text(items, 0);
                    r.append(body.as_str());
                } else {
                    proof {
                        lemma_views_of_from(items@, 0);
                    }
                }
                r.append(
                    match kind {
                        CollectionKind::Ordered => "]",
                        CollectionKind::Unordered => "}",
                    },
                );
                r
            },
        }
    }
}

/// The display text of the expressions of a vector from position `i` on,
/// comma-separated.
fn items_text(items: &Vec<Expression>, i: usize) -> (r: String)
    requires
        i < items.len(),
    ensures
        r@ == format_views_from(views_of(items@), i as int),
    decreases *items, items.len() - i, 0int,
{
    proof {
        lemma_views_of_from(items@, 0);
    }
    let mut r = items[i].to_text();
    if i + 1 < items.len() {
        r.append(", ");
        let rest = items_text(items, i + 1);
        r.append(rest.as_str());
    }
    r
}

} // verus!

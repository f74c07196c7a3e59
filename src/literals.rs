//! Literal values of the atomic types and the errors met while reading them.
use vstd::prelude::*;

pub mod parsing;

use parsing::float::is_float_text;
use parsing::integer::in_i64;
use parsing::serial_text;

verus! {

/// A concrete value of an atomic type.
///
/// A double is held as its decimal text, as the float grammar read it (`"0.7"`, `"-1e14"`,
/// `"1_000.5"`, `"inf"`, `"NaN"`). Converting that text to a binary double and back, and
/// comparing doubles as numbers, is left to the code that holds doubles.
///
/// `==` compares variants and contents as they are held, so of two doubles it compares their
/// texts: `"1.0"` and `"1e0"` differ, and `"NaN"` equals `"NaN"`.
#[derive(Debug, PartialEq)]
pub enum LiteralValue {
    Int(i64),
    Float(String),
    String(String),
}

/// The mathematical value of a `LiteralValue`.
pub enum LiteralView {
    Int(int),
    Float(Seq<char>),
    String(Seq<char>),
}

impl View for LiteralValue {
    type V = LiteralView;

    open spec fn view(&self) -> LiteralView {
        match self {
            LiteralValue::Int(i) => LiteralView::Int(*i as int),
            LiteralValue::Float(t) => LiteralView::Float(t@),
            LiteralValue::String(s) => LiteralView::String(s@),
        }
    }
}

/// The alternatives of the literal grammar.
#[derive(Debug, Clone, Copy, PartialEq, Eq)]
pub enum LiteralKind {
    Float,
    Int,
    String,
}

/// Why a literal could not be read.
#[derive(Debug, PartialEq, Eq)]
pub enum GrammarError {
    /// No alternative matched at `position` (a character index); `attempted` lists the
    /// alternatives tried there, in order.
    GrammarMismatch { position: usize, attempted: Vec<LiteralKind> },
    /// An integer literal whose value lies outside the range of `i64`.
    Overflow,
    /// A backslash in a string literal followed by a character other than `\`, `"` or `n`.
    MalformedEscape,
    /// A string literal with no closing quote.
    UnterminatedLiteral,
}

/// What reading a literal from a text yields, mathematically.
pub enum ParseOutcome {
    /// The first `n` characters are a literal of value `v`.
    Parsed(int, LiteralView),
    Mismatch(int, Seq<LiteralKind>),
    Overflow,
    MalformedEscape,
    Unterminated,
}

/// `r` is the executable form of outcome `o` of reading `input`: on success the remainder
/// is what follows the literal.
pub open spec fn agrees(input: Seq<char>, r: &Result<(&str, LiteralValue), GrammarError>, o: ParseOutcome) -> bool {
    match o {
        ParseOutcome::Parsed(n, v) => r matches Ok((rest, value)) && rest@ == input.subrange(n, input.len() as int)
            && value@ == v,
        ParseOutcome::Mismatch(p, k) => r matches Err(GrammarError::GrammarMismatch { position, attempted })
            && position == p && attempted@ == k,
        ParseOutcome::Overflow => r matches Err(GrammarError::Overflow),
        ParseOutcome::MalformedEscape => r matches Err(GrammarError::MalformedEscape),
        ParseOutcome::Unterminated => r matches Err(GrammarError::UnterminatedLiteral),
    }
}

/// The list that holds `k` alone.
pub(crate) fn tried(k: LiteralKind) -> (r: Vec<LiteralKind>)
    ensures
        r@ == seq![k],
{
    let mut v: Vec<LiteralKind> = Vec::new();
    v.push(k);
    v
}

/// A value that reading a literal can yield: an integer within `i64`, a double written as a
/// text that the float grammar reads whole, or any string.
pub open spec fn well_formed(v: LiteralView) -> bool {
    match v {
        LiteralView::Int(i) => in_i64(i),
        LiteralView::Float(t) => is_float_text(t),
        LiteralView::String(_) => true,
    }
}

impl LiteralValue {
    /// The canonical text of this value.
    pub fn serialize(&self) -> (r: String)
        ensures
            r@ == serial_text(self@),
    {
        parsing::serialize(self)
    }
}

} // verus!

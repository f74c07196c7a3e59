//! The literal grammar: a shared digit scanner, one grammar per type, and the dispatcher.
use vstd::prelude::*;

pub mod float;
pub mod integer;
pub mod string;

use crate::literals::{well_formed, GrammarError, LiteralKind, LiteralValue, LiteralView, ParseOutcome, agrees};
use float::{float_end, float_outcome, is_float_text, point_first_end, exponent_shape_end, point_shape_end, token_at};
use integer::{in_i64, int_outcome, int_text, nat_text, signed_value, lemma_nat_text};
use string::{escaped, lemma_scan_escaped, quoted, scan_body, string_outcome};

verus! {

pub open spec fn is_digit(c: char) -> bool {
    '0' <= c && c <= '9'
}

pub open spec fn is_sign(c: char) -> bool {
    c == '+' || c == '-'
}

/// The position after an optional sign at `i`.
pub open spec fn sign_end(s: Seq<char>, i: int) -> int {
    if 0 <= i < s.len() && is_sign(s[i]) {
        i + 1
    } else {
        i
    }
}

/// The end of the longest run of digits and separators `_` that starts at `i`.
pub open spec fn run_end(s: Seq<char>, i: int) -> int
    decreases s.len() - i,
{
    if 0 <= i < s.len() && (is_digit(s[i]) || s[i] == '_') {
        run_end(s, i + 1)
    } else {
        i
    }
}

/// The digit scanner: a digit at `i`, then any digits and separators; the end of the
/// maximal such run, or `None` where no digit stands at `i`.
pub open spec fn decimal_at(s: Seq<char>, i: int) -> Option<int> {
    if 0 <= i < s.len() && is_digit(s[i]) {
        Some(run_end(s, i + 1))
    } else {
        None
    }
}

pub open spec fn widen(o: Option<usize>) -> Option<int> {
    match o {
        Some(e) => Some(e as int),
        None => None,
    }
}

pub proof fn lemma_run_end_bounds(s: Seq<char>, i: int)
    requires
        0 <= i <= s.len(),
    ensures
        i <= run_end(s, i) <= s.len(),
    decreases s.len() - i,
{
    if i < s.len() && (is_digit(s[i]) || s[i] == '_') {
        lemma_run_end_bounds(s, i + 1);
    }
}

/// A run made of digits alone reaches the end of the text.
pub proof fn lemma_run_end_all_digits(s: Seq<char>, i: int)
    requires
        0 <= i <= s.len(),
        forall|k: int| i <= k < s.len() ==> is_digit(#[trigger] s[k]),
    ensures
        run_end(s, i) == s.len(),
    decreases s.len() - i,
{
    if i < s.len() {
        lemma_run_end_all_digits(s, i + 1);
    }
}

/// The digit scanner.
pub(crate) fn decimal(cs: &Vec<char>, i: usize) -> (r: Option<usize>)
    ensures
        widen(r) == decimal_at(cs@, i as int),
        r matches Some(e) ==> i < e <= cs.len(),
{
    if i < cs.len() && '0' <= cs[i] && cs[i] <= '9' {
        let mut j: usize = i + 1;
        proof { lemma_run_end_bounds(cs@, j as int); }
        while j < cs.len() && (('0' <= cs[j] && cs[j] <= '9') || cs[j] == '_')
            invariant
                i < j <= cs.len(),
                run_end(cs@, j as int) == run_end(cs@, i + 1),
            decreases cs.len() - j,
        {
            j = j + 1;
        }
        Some(j)
    } else {
        None
    }
}

/// Reading a literal at the start of `s`: a float if one stands there, else an integer,
/// else a string; where none does, a mismatch at position 0 after all three were tried.
pub open spec fn literal_outcome(s: Seq<char>) -> ParseOutcome {
    match float_outcome(s) {
        ParseOutcome::Parsed(e, v) => ParseOutcome::Parsed(e, v),
        _ => match int_outcome(s) {
            ParseOutcome::Mismatch(_, _) => match string_outcome(s) {
                ParseOutcome::Mismatch(_, _) => ParseOutcome::Mismatch(
                    0,
                    seq![LiteralKind::Float, LiteralKind::Int, LiteralKind::String],
                ),
                o => o,
            },
            o => o,
        },
    }
}

/// The canonical text of a value. A float is held as its text already.
pub open spec fn serial_text(v: LiteralView) -> Seq<char> {
    match v {
        LiteralView::Int(i) => int_text(i),
        LiteralView::Float(t) => t,
        LiteralView::String(s) => quoted(s),
    }
}

fn all_kinds() -> (r: Vec<LiteralKind>)
    ensures
        r@ == seq![LiteralKind::Float, LiteralKind::Int, LiteralKind::String],
{
    let mut v: Vec<LiteralKind> = Vec::new();
    v.push(LiteralKind::Float);
    v.push(LiteralKind::Int);
    v.push(LiteralKind::String);
    proof {
        assert(v@ =~= seq![LiteralKind::Float, LiteralKind::Int, LiteralKind::String]);
    }
    v
}

/// Parses a literal of one of the atomic types (float, then int, then string, the first that
/// matches); returns the remaining text and the value.
pub fn apply_grammar<'a>(input: &'a str) -> (r: Result<(&'a str, LiteralValue), GrammarError>)
    ensures
        agrees(input@, &r, literal_outcome(input@)),
        r matches Ok((_, v)) ==> well_formed(v@),
{
    if let Ok(parsed) = float::apply_grammar(input) {
        return Ok(parsed);
    }
    match integer::apply_grammar(input) {
        Err(GrammarError::GrammarMismatch { .. }) => {},
        other => return other,
    }
    match string::apply_grammar(input) {
        Err(GrammarError::GrammarMismatch { .. }) => {},
        other => return other,
    }
    Err(GrammarError::GrammarMismatch { position: 0, attempted: all_kinds() })
}

/// Turns a literal value back into its canonical text.
pub fn serialize(v: &LiteralValue) -> (r: String)
    ensures
        r@ == serial_text(v@),
{
    match v {
        LiteralValue::Int(i) => integer::serialize(*i),
        LiteralValue::Float(t) => t.clone(),
        LiteralValue::String(s) => string::serialize(s.as_str()),
    }
}

/// The canonical text of every `i64` parses back to that integer, leaving nothing.
pub proof fn lemma_int_round_trip(i: i64)
    ensures
        literal_outcome(int_text(i as int)) == ParseOutcome::Parsed(
            int_text(i as int).len() as int,
            LiteralView::Int(i as int),
        ),
{
    let s = int_text(i as int);
    let m: nat = if i < 0 { (-i) as nat } else { i as nat };
    lemma_nat_text(m);
    let digits = nat_text(m);
    let st: int = if i < 0 { 1 } else { 0 };
    if i < 0 {
        assert(s[0] == '-');
        assert forall|k: int| st <= k < s.len() implies is_digit(#[trigger] s[k]) by {
            assert(s[k] == digits[k - 1]);
        }
        assert(s.subrange(st, s.len() as int) =~= digits);
    } else {
        assert(s.subrange(st, s.len() as int) =~= digits);
    }
    assert(is_digit(s[st]));
    assert(sign_end(s, 0) == st);
    lemma_run_end_all_digits(s, st + 1);
    assert(decimal_at(s, st) == Some(s.len() as int));
    assert(point_first_end(s, st) is None);
    assert(exponent_shape_end(s, st) is None);
    assert(point_shape_end(s, st) is None);
    assert(!token_at(s, st, 'i', 'n', 'f') && !token_at(s, st, 'N', 'a', 'N'));
    assert(float_end(s) is None);
    assert(signed_value(s, st, s.len() as int) == i);
}

/// The canonical literal of every text parses back to that text, leaving nothing: the empty
/// text, backslashes, quotes and newlines included.
pub proof fn lemma_string_round_trip(x: Seq<char>)
    ensures
        literal_outcome(quoted(x)) == ParseOutcome::Parsed(quoted(x).len() as int, LiteralView::String(x)),
{
    let s = quoted(x);
    let p = seq!['"'];
    lemma_scan_escaped(p, x, Seq::empty());
    assert(p + escaped(x) + seq!['"'] + Seq::<char>::empty() =~= s);
    assert(s[0] == '"');
    assert(sign_end(s, 0) == 0);
    assert(float_end(s) is None);
    assert(decimal_at(s, 0) is None);
    assert(scan_body(s, 1) == string::BodyScan::Closed(s.len() as int, x));
}

/// A text that the float grammar reads whole parses back to itself, leaving nothing.
pub proof fn lemma_float_text_round_trip(t: Seq<char>)
    requires
        is_float_text(t),
    ensures
        literal_outcome(t) == ParseOutcome::Parsed(t.len() as int, LiteralView::Float(t)),
{
    assert(t.subrange(0, t.len() as int) =~= t);
}

/// Every well-formed value written in canonical form parses back to the same value, and the
/// whole text is consumed.
pub proof fn lemma_serialized_consumed_whole(v: LiteralView)
    requires
        well_formed(v),
    ensures
        literal_outcome(serial_text(v)) == ParseOutcome::Parsed(serial_text(v).len() as int, v),
{
    match v {
        LiteralView::Int(i) => lemma_int_round_trip(i as i64),
        LiteralView::Float(t) => lemma_float_text_round_trip(t),
        LiteralView::String(x) => lemma_string_round_trip(x),
    }
}

} // verus!

//! Floating-point literals: an optional sign, then the first of five shapes that matches:
//! `.42[e5]`, `42[.42]e5`, `42.[42]`, `inf`, `NaN`.
use vstd::prelude::*;

use super::{decimal, decimal_at, is_digit, lemma_run_end_bounds, run_end, sign_end, widen};
use crate::literals::{tried, GrammarError, LiteralKind, LiteralValue, LiteralView, ParseOutcome, agrees};
use crate::text::{chars_of, string_of};
use vstd::string::*;

verus! {

/// An exponent at `i`: `e` or `E`, an optional sign, digits.
pub open spec fn exponent_end(s: Seq<char>, i: int) -> Option<int> {
    if 0 <= i < s.len() && (s[i] == 'e' || s[i] == 'E') {
        decimal_at(s, sign_end(s, i + 1))
    } else {
        None
    }
}

/// The first shape: a point, digits, an optional exponent.
pub open spec fn point_first_end(s: Seq<char>, i: int) -> Option<int> {
    if 0 <= i < s.len() && s[i] == '.' {
        match decimal_at(s, i + 1) {
            Some(d) => match exponent_end(s, d) {
                Some(x) => Some(x),
                None => Some(d),
            },
            None => None,
        }
    } else {
        None
    }
}

/// The second shape: digits, optionally a point and digits, then an exponent that must be there.
pub open spec fn exponent_shape_end(s: Seq<char>, i: int) -> Option<int> {
    match decimal_at(s, i) {
        Some(d) => {
            let m: int = if d < s.len() && s[d] == '.' {
                match decimal_at(s, d + 1) {
                    Some(f) => f,
                    None => d,
                }
            } else {
                d
            };
            exponent_end(s, m)
        },
        None => None,
    }
}

/// The third shape: digits, a point, optionally digits; no exponent.
pub open spec fn point_shape_end(s: Seq<char>, i: int) -> Option<int> {
    match decimal_at(s, i) {
        Some(d) => if d < s.len() && s[d] == '.' {
            match decimal_at(s, d + 1) {
                Some(f) => Some(f),
                None => Some(d + 1),
            }
        } else {
            None
        },
        None => None,
    }
}

/// The three characters `a`, `b`, `c` stand at `i`.
pub open spec fn token_at(s: Seq<char>, i: int, a: char, b: char, c: char) -> bool {
    0 <= i && i + 3 <= s.len() && s[i] == a && s[i + 1] == b && s[i + 2] == c
}

/// The end of the float literal at the start of `s`: the first shape that matches wins.
pub open spec fn float_end(s: Seq<char>) -> Option<int> {
    let i: int = sign_end(s, 0);
    if point_first_end(s, i) is Some {
        point_first_end(s, i)
    } else if exponent_shape_end(s, i) is Some {
        exponent_shape_end(s, i)
    } else if point_shape_end(s, i) is Some {
        point_shape_end(s, i)
    } else if token_at(s, i, 'i', 'n', 'f') || token_at(s, i, 'N', 'a', 'N') {
        Some(i + 3)
    } else {
        None
    }
}

/// `s` with every digit separator `_` taken out.
pub open spec fn remove_separators(s: Seq<char>) -> Seq<char>
    decreases s.len(),
{
    if s.len() == 0 {
        s
    } else if s.last() == '_' {
        remove_separators(s.drop_last())
    } else {
        remove_separators(s.drop_last()).push(s.last())
    }
}

/// Reading a float literal at the start of `s`: its value is its text.
pub open spec fn float_outcome(s: Seq<char>) -> ParseOutcome {
    match float_end(s) {
        Some(e) => ParseOutcome::Parsed(e, LiteralView::Float(s.subrange(0, e))),
        None => ParseOutcome::Mismatch(0, seq![LiteralKind::Float]),
    }
}

/// A text that the float grammar reads whole.
pub open spec fn is_float_text(t: Seq<char>) -> bool {
    float_end(t) == Some(t.len() as int)
}

proof fn lemma_run_end_prefix(s: Seq<char>, e: int, i: int)
    requires
        0 <= i <= e <= s.len(),
    ensures
        run_end(s.subrange(0, e), i) == if run_end(s, i) <= e { run_end(s, i) } else { e },
    decreases e - i,
{
    lemma_run_end_bounds(s, i);
    if i < e && (is_digit(s[i]) || s[i] == '_') {
        lemma_run_end_prefix(s, e, i + 1);
    }
}

/// Every end that the digit scanner reports lies past its start and within the text.
proof fn lemma_decimal_bounds(s: Seq<char>)
    ensures
        forall|j: int| #[trigger] decimal_at(s, j) is Some ==> j < decimal_at(s, j)->Some_0 <= s.len(),
{
    assert forall|j: int| #[trigger] decimal_at(s, j) is Some implies j < decimal_at(s, j)->Some_0
        <= s.len() by {
        if decimal_at(s, j) is Some {
            lemma_run_end_bounds(s, j + 1);
        }
    }
}

/// Cut after the literal, a text still holds that literal whole.
pub proof fn lemma_float_end_prefix(s: Seq<char>)
    requires
        float_end(s) is Some,
    ensures
        is_float_text(s.subrange(0, float_end(s)->Some_0)),
{
    lemma_decimal_bounds(s);
    let i = sign_end(s, 0);
    let e = float_end(s)->Some_0;
    assert(e <= s.len());
    let p = s.subrange(0, e);
    assert forall|j: int| 0 <= j <= e implies #[trigger] run_end(p, j) == if run_end(s, j) <= e {
        run_end(s, j)
    } else {
        e
    } by {
        lemma_run_end_prefix(s, e, j);
    }
    assert(sign_end(p, 0) == i);
    if point_first_end(s, i) is Some {
        assert(point_first_end(p, i) == Some(e));
    } else if exponent_shape_end(s, i) is Some {
        assert(point_first_end(p, i) is None);
        assert(exponent_shape_end(p, i) == Some(e));
    } else if point_shape_end(s, i) is Some {
        assert(point_first_end(p, i) is None);
        assert(exponent_shape_end(p, i) is None);
        assert(point_shape_end(p, i) == Some(e));
    } else {
        assert(point_first_end(p, i) is None);
        assert(exponent_shape_end(p, i) is None);
        assert(point_shape_end(p, i) is None);
    }
}

fn skip_sign(cs: &Vec<char>, i: usize) -> (r: usize)
    requires
        i <= cs.len(),
    ensures
        r as int == sign_end(cs@, i as int),
        r <= cs.len(),
{
    if i < cs.len() && (cs[i] == '+' || cs[i] == '-') {
        i + 1
    } else {
        i
    }
}

fn exponent(cs: &Vec<char>, i: usize) -> (r: Option<usize>)
    requires
        i <= cs.len(),
    ensures
        widen(r) == exponent_end(cs@, i as int),
        r matches Some(e) ==> e <= cs.len(),
{
    if i < cs.len() && (cs[i] == 'e' || cs[i] == 'E') {
        decimal(cs, skip_sign(cs, i + 1))
    } else {
        None
    }
}

fn point_first(cs: &Vec<char>, i: usize) -> (r: Option<usize>)
    requires
        i <= cs.len(),
    ensures
        widen(r) == point_first_end(cs@, i as int),
        r matches Some(e) ==> e <= cs.len(),
{
    if i < cs.len() && cs[i] == '.' {
        match decimal(cs, i + 1) {
            Some(d) => match exponent(cs, d) {
                Some(x) => Some(x),
                None => Some(d),
            },
            None => None,
        }
    } else {
        None
    }
}

fn exponent_shape(cs: &Vec<char>, i: usize) -> (r: Option<usize>)
    requires
        i <= cs.len(),
    ensures
        widen(r) == exponent_shape_end(cs@, i as int),
        r matches Some(e) ==> e <= cs.len(),
{
    match decimal(cs, i) {
        Some(d) => {
            let m: usize = if d < cs.len() && cs[d] == '.' {
                match decimal(cs, d + 1) {
                    Some(f) => f,
                    None => d,
                }
            } else {
                d
            };
            exponent(cs, m)
        },
        None => None,
    }
}

fn point_shape(cs: &Vec<char>, i: usize) -> (r: Option<usize>)
    requires
        i <= cs.len(),
    ensures
        widen(r) == point_shape_end(cs@, i as int),
        r matches Some(e) ==> e <= cs.len(),
{
    match decimal(cs, i) {
        Some(d) => if d < cs.len() && cs[d] == '.' {
            match decimal(cs, d + 1) {
                Some(f) => Some(f),
                None => Some(d + 1),
            }
        } else {
            None
        },
        None => None,
    }
}

fn token(cs: &Vec<char>, i: usize, a: char, b: char, c: char) -> (r: bool)
    requires
        i <= cs.len(),
    ensures
        r == token_at(cs@, i as int, a, b, c),
{
    cs.len() >= 3 && i <= cs.len() - 3 && cs[i] == a && cs[i + 1] == b && cs[i + 2] == c
}

/// The float grammar: the end of the float literal at the start of `cs`, if there is one.
fn float_grammar(cs: &Vec<char>) -> (r: Option<usize>)
    ensures
        widen(r) == float_end(cs@),
        r matches Some(e) ==> e <= cs.len(),
{
    let i: usize = skip_sign(cs, 0);
    match point_first(cs, i) {
        Some(e) => Some(e),
        None => match exponent_shape(cs, i) {
            Some(e) => Some(e),
            None => match point_shape(cs, i) {
                Some(e) => Some(e),
                None => if token(cs, i, 'i', 'n', 'f') || token(cs, i, 'N', 'a', 'N') {
                    Some(i + 3)
                } else {
                    None
                },
            },
        },
    }
}

/// The text `t` with its digit separators taken out, as binary conversions of decimal text
/// expect it.
pub fn strip_separators(t: &str) -> (r: String)
    ensures
        r@ == remove_separators(t@),
{
    let cs = chars_of(t);
    let mut out: Vec<char> = Vec::new();
    let mut j: usize = 0;
    while j < cs.len()
        invariant
            j <= cs.len(),
            cs@ == t@,
            out@ == remove_separators(cs@.subrange(0, j as int)),
        decreases cs.len() - j,
    {
        proof {
            assert(cs@.subrange(0, j + 1).drop_last() =~= cs@.subrange(0, j as int));
        }
        if cs[j] != '_' {
            out.push(cs[j]);
        }
        j = j + 1;
    }
    proof {
        assert(cs@.subrange(0, cs.len() as int) =~= t@);
    }
    string_of(&out)
}

/// Reads a float literal at the start of `input`; the value is its text as written.
pub fn apply_grammar<'a>(input: &'a str) -> (r: Result<(&'a str, LiteralValue), GrammarError>)
    ensures
        agrees(input@, &r, float_outcome(input@)),
        r matches Ok((_, v)) ==> v@ matches LiteralView::Float(t) && is_float_text(t),
{
    let cs = chars_of(input);
    proof {
        if float_end(input@) is Some {
            lemma_float_end_prefix(input@);
        }
    }
    match float_grammar(&cs) {
        Some(e) => {
            let text = input.substring_char(0, e).to_owned();
            Ok((input.substring_char(e, cs.len()), LiteralValue::Float(text)))
        },
        None => Err(GrammarError::GrammarMismatch { position: 0, attempted: tried(LiteralKind::Float) }),
    }
}

} // verus!

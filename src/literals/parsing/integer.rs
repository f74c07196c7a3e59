//! Integer literals: an optional sign and a run of digits, read as an `i64`.
use vstd::prelude::*;

use super::{decimal, decimal_at, is_digit, is_sign, sign_end, widen};
use crate::literals::{tried, GrammarError, LiteralKind, LiteralValue, LiteralView, ParseOutcome, agrees};
use crate::text::{chars_of, string_of};
use vstd::string::*;

verus! {

pub open spec fn digit_value(c: char) -> int {
    (c as u32) as int - 48
}

/// The number written by the digits of `s`, separators and other characters skipped.
pub open spec fn digits_value(s: Seq<char>) -> int
    decreases s.len(),
{
    if s.len() == 0 {
        0
    } else if is_digit(s.last()) {
        digits_value(s.drop_last()) * 10 + digit_value(s.last())
    } else {
        digits_value(s.drop_last())
    }
}

/// The value of the integer text `s[0..e]` whose digits start at `st`.
pub open spec fn signed_value(s: Seq<char>, st: int, e: int) -> int {
    let m: int = digits_value(s.subrange(st, e));
    if st > 0 && s[0] == '-' {
        -m
    } else {
        m
    }
}

pub open spec fn in_i64(v: int) -> bool {
    i64::MIN <= v <= i64::MAX
}

/// Reading an integer literal at the start of `s`.
pub open spec fn int_outcome(s: Seq<char>) -> ParseOutcome {
    let st: int = sign_end(s, 0);
    match decimal_at(s, st) {
        Some(e) => if in_i64(signed_value(s, st, e)) {
            ParseOutcome::Parsed(e, LiteralView::Int(signed_value(s, st, e)))
        } else {
            ParseOutcome::Overflow
        },
        None => ParseOutcome::Mismatch(0, seq![LiteralKind::Int]),
    }
}

/// Interpreting the whole of `s` as an integer literal.
pub open spec fn whole_int_outcome(s: Seq<char>) -> ParseOutcome {
    let st: int = sign_end(s, 0);
    if decimal_at(s, st) == Some(s.len() as int) {
        if in_i64(signed_value(s, st, s.len() as int)) {
            ParseOutcome::Parsed(s.len() as int, LiteralView::Int(signed_value(s, st, s.len() as int)))
        } else {
            ParseOutcome::Overflow
        }
    } else {
        ParseOutcome::Mismatch(0, seq![LiteralKind::Int])
    }
}

/// `r` is outcome `o` of interpreting a whole text, where no remainder is left.
pub open spec fn agrees_value(r: &Result<LiteralValue, GrammarError>, o: ParseOutcome) -> bool {
    match o {
        ParseOutcome::Parsed(_, v) => r matches Ok(value) && value@ == v,
        ParseOutcome::Mismatch(p, k) => r matches Err(GrammarError::GrammarMismatch { position, attempted })
            && position == p && attempted@ == k,
        ParseOutcome::Overflow => r matches Err(GrammarError::Overflow),
        ParseOutcome::MalformedEscape => r matches Err(GrammarError::MalformedEscape),
        ParseOutcome::Unterminated => r matches Err(GrammarError::UnterminatedLiteral),
    }
}

pub open spec fn digit_char(d: int) -> char {
    ((d + 48) as u8) as char
}

/// The canonical decimal digits of `n`: no leading zero but in `"0"` itself.
pub open spec fn nat_text(n: nat) -> Seq<char>
    decreases n,
{
    if n < 10 {
        seq![digit_char(n as int)]
    } else {
        nat_text(n / 10).push(digit_char((n % 10) as int))
    }
}

/// The canonical text of an integer: `-` before a negative one, never `+`.
pub open spec fn int_text(i: int) -> Seq<char> {
    if i < 0 {
        seq!['-'] + nat_text((-i) as nat)
    } else {
        nat_text(i as nat)
    }
}

pub proof fn lemma_digit_char(d: int)
    requires
        0 <= d < 10,
    ensures
        is_digit(digit_char(d)),
        digit_value(digit_char(d)) == d,
{
}

pub proof fn lemma_digits_value_nonneg(s: Seq<char>)
    ensures
        digits_value(s) >= 0,
    decreases s.len(),
{
    if s.len() > 0 {
        lemma_digits_value_nonneg(s.drop_last());
    }
}

/// The digits of `n` are digits, and they are worth `n`.
pub proof fn lemma_nat_text(n: nat)
    ensures
        nat_text(n).len() >= 1,
        forall|k: int| 0 <= k < nat_text(n).len() ==> is_digit(#[trigger] nat_text(n)[k]),
        digits_value(nat_text(n)) == n,
    decreases n,
{
    lemma_digit_char((n % 10) as int);
    if n < 10 {
        assert(nat_text(n).drop_last() =~= Seq::<char>::empty());
        assert(digits_value(Seq::<char>::empty()) == 0);
        assert(nat_text(n).last() == digit_char(n as int));
    } else {
        lemma_nat_text(n / 10);
        let t = nat_text(n / 10);
        assert(nat_text(n).drop_last() =~= t);
        assert(nat_text(n).last() == digit_char((n % 10) as int));
        assert(forall|k: int| 0 <= k < t.len() ==> nat_text(n)[k] == t[k]);
    }
}

/// The value of the digits of `cs[st..e]`, or `None` where it exceeds `limit`.
fn magnitude(cs: &Vec<char>, st: usize, e: usize, limit: u64) -> (r: Option<u64>)
    requires
        st <= e <= cs.len(),
        limit >= 9,
    ensures
        r matches Some(m) ==> m as int == digits_value(cs@.subrange(st as int, e as int)) && m <= limit,
        r is None ==> digits_value(cs@.subrange(st as int, e as int)) > limit,
{
    let mut acc: u64 = 0;
    let mut over = false;
    let mut j: usize = st;
    while j < e
        invariant
            st <= j <= e <= cs.len(),
            limit >= 9,
            !over ==> acc as int == digits_value(cs@.subrange(st as int, j as int)) && acc <= limit,
            over ==> digits_value(cs@.subrange(st as int, j as int)) > limit,
        decreases e - j,
    {
        let c = cs[j];
        proof {
            let p = cs@.subrange(st as int, j as int);
            assert(cs@.subrange(st as int, j + 1).drop_last() =~= p);
            assert(cs@.subrange(st as int, j + 1).last() == c);
            lemma_digits_value_nonneg(p);
        }
        if '0' <= c && c <= '9' && !over {
            assert(48 <= c as u32 <= 57);
            let d: u64 = (c as u32 - 48) as u64;
            if acc > (limit - d) / 10 {
                proof {
                    assert(acc * 10 + d > limit) by (nonlinear_arith)
                        requires acc > (limit - d) / 10, d <= limit;
                }
                over = true;
            } else {
                proof {
                    assert(acc * 10 + d <= limit) by (nonlinear_arith)
                        requires acc <= (limit - d) / 10, d <= limit;
                }
                acc = acc * 10 + d;
            }
        }
        j = j + 1;
    }
    if over {
        None
    } else {
        Some(acc)
    }
}

/// The `i64` written by `cs[0..e]`, whose digits start at `st`, if it is in range.
fn signed(cs: &Vec<char>, st: usize, e: usize) -> (r: Option<i64>)
    requires
        st <= 1,
        st <= e <= cs.len(),
        st == sign_end(cs@, 0),
    ensures
        r matches Some(v) ==> v as int == signed_value(cs@, st as int, e as int),
        r is None ==> !in_i64(signed_value(cs@, st as int, e as int)),
{
    let neg = st > 0 && cs[0] == '-';
    let limit: u64 = if neg { 9223372036854775808 } else { 9223372036854775807 };
    match magnitude(cs, st, e, limit) {
        Some(m) => if neg {
            if m == 9223372036854775808 {
                Some(i64::MIN)
            } else {
                Some(-(m as i64))
            }
        } else {
            Some(m as i64)
        },
        None => None,
    }
}

/// Interprets the whole of `input` as an integer literal.
pub fn make_repr(input: &str) -> (r: Result<LiteralValue, GrammarError>)
    ensures
        agrees_value(&r, whole_int_outcome(input@)),
{
    let cs = chars_of(input);
    let st: usize = if cs.len() > 0 && (cs[0] == '+' || cs[0] == '-') { 1 } else { 0 };
    match decimal(&cs, st) {
        Some(e) => if e == cs.len() {
            match signed(&cs, st, e) {
                Some(v) => Ok(LiteralValue::Int(v)),
                None => Err(GrammarError::Overflow),
            }
        } else {
            Err(GrammarError::GrammarMismatch { position: 0, attempted: tried(LiteralKind::Int) })
        },
        None => Err(GrammarError::GrammarMismatch { position: 0, attempted: tried(LiteralKind::Int) }),
    }
}

/// Reads an integer literal at the start of `input`; returns the rest of the input with it.
pub fn apply_grammar<'a>(input: &'a str) -> (r: Result<(&'a str, LiteralValue), GrammarError>)
    ensures
        agrees(input@, &r, int_outcome(input@)),
{
    let cs = chars_of(input);
    let st: usize = if cs.len() > 0 && (cs[0] == '+' || cs[0] == '-') { 1 } else { 0 };
    match decimal(&cs, st) {
        Some(e) => match signed(&cs, st, e) {
            Some(v) => Ok((input.substring_char(e, cs.len()), LiteralValue::Int(v))),
            None => Err(GrammarError::Overflow),
        },
        None => Err(GrammarError::GrammarMismatch { position: 0, attempted: tried(LiteralKind::Int) }),
    }
}

/// Appends the canonical digits of `n`.
fn push_digits(n: u64, out: &mut Vec<char>)
    ensures
        final(out)@ == old(out)@ + nat_text(n as nat),
    decreases n,
{
    if n >= 10 {
        push_digits(n / 10, out);
    }
    let d: u8 = (n % 10) as u8;
    out.push((d + 48) as char);
    proof {
        if n >= 10 {
            assert(nat_text(n as nat) == nat_text((n / 10) as nat).push(digit_char((n % 10) as int)));
        }
        assert(final(out)@ =~= old(out)@ + nat_text(n as nat));
    }
}

/// The canonical decimal text of `v`.
pub fn serialize(v: i64) -> (r: String)
    ensures
        r@ == int_text(v as int),
{
    let mut out: Vec<char> = Vec::new();
    if v < 0 {
        out.push('-');
        let m: u64 = if v == i64::MIN { 9223372036854775808 } else { (-v) as u64 };
        push_digits(m, &mut out);
    } else {
        push_digits(v as u64, &mut out);
    }
    proof {
        assert(out@ =~= int_text(v as int));
    }
    string_of(&out)
}

} // verus!

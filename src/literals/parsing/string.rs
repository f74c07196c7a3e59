//! String literals: quote-delimited text in which `\\`, `\"` and `\n` are the escapes.
use vstd::prelude::*;

use crate::literals::{tried, GrammarError, LiteralKind, LiteralValue, LiteralView, ParseOutcome, agrees};
use crate::text::{chars_of, string_of};
use vstd::string::*;

verus! {

/// How the body of a string literal ends.
pub enum BodyScan {
    /// The closing quote ends just before position `end`; the text read is `content`.
    Closed(int, Seq<char>),
    /// The input ends before a closing quote.
    Unterminated,
    /// A backslash is followed by a character that is no escape.
    BadEscape,
}

pub open spec fn is_escape(c: char) -> bool {
    c == '\\' || c == '"' || c == 'n'
}

/// What the escape `\c` stands for.
pub open spec fn unescaped(c: char) -> char {
    if c == 'n' {
        '\n'
    } else {
        c
    }
}

/// `scan` with `p` read before it.
pub open spec fn prepend(p: Seq<char>, scan: BodyScan) -> BodyScan {
    match scan {
        BodyScan::Closed(e, content) => BodyScan::Closed(e, p + content),
        BodyScan::Unterminated => BodyScan::Unterminated,
        BodyScan::BadEscape => BodyScan::BadEscape,
    }
}

/// Reads the body of a string literal from position `i` up to and including the closing quote.
pub open spec fn scan_body(s: Seq<char>, i: int) -> BodyScan
    decreases s.len() - i,
{
    if i < 0 || i >= s.len() {
        BodyScan::Unterminated
    } else if s[i] == '"' {
        BodyScan::Closed(i + 1, Seq::empty())
    } else if s[i] == '\\' {
        if i + 1 >= s.len() {
            BodyScan::Unterminated
        } else if is_escape(s[i + 1]) {
            prepend(seq![unescaped(s[i + 1])], scan_body(s, i + 2))
        } else {
            BodyScan::BadEscape
        }
    } else {
        prepend(seq![s[i]], scan_body(s, i + 1))
    }
}

/// Reading a string literal at the start of `s`.
pub open spec fn string_outcome(s: Seq<char>) -> ParseOutcome {
    if s.len() > 0 && s[0] == '"' {
        match scan_body(s, 1) {
            BodyScan::Closed(e, content) => ParseOutcome::Parsed(e, LiteralView::String(content)),
            BodyScan::Unterminated => ParseOutcome::Unterminated,
            BodyScan::BadEscape => ParseOutcome::MalformedEscape,
        }
    } else {
        ParseOutcome::Mismatch(0, seq![LiteralKind::String])
    }
}

/// The escaped form of one character.
pub open spec fn escape_char(c: char) -> Seq<char> {
    if c == '\\' {
        seq!['\\', '\\']
    } else if c == '\n' {
        seq!['\\', 'n']
    } else if c == '"' {
        seq!['\\', '"']
    } else {
        seq![c]
    }
}

/// Each character of `s` in its escaped form.
pub open spec fn escaped(s: Seq<char>) -> Seq<char>
    decreases s.len(),
{
    if s.len() == 0 {
        Seq::empty()
    } else {
        escape_char(s[0]) + escaped(s.drop_first())
    }
}

/// The canonical string literal for the text `s`.
pub open spec fn quoted(s: Seq<char>) -> Seq<char> {
    seq!['"'] + escaped(s) + seq!['"']
}

proof fn lemma_prepend_twice(a: Seq<char>, b: Seq<char>, scan: BodyScan)
    ensures
        prepend(a, prepend(b, scan)) == prepend(a + b, scan),
{
    if let BodyScan::Closed(e, content) = scan {
        assert(a + (b + content) =~= (a + b) + content);
    }
}

pub proof fn lemma_escaped_push(a: Seq<char>, c: char)
    ensures
        escaped(a.push(c)) == escaped(a) + escape_char(c),
    decreases a.len(),
{
    if a.len() == 0 {
        assert(a.push(c).drop_first() =~= Seq::<char>::empty());
        assert(escaped(Seq::<char>::empty()) == Seq::<char>::empty());
        assert(escaped(a) + escape_char(c) =~= escape_char(c) + Seq::<char>::empty());
    } else {
        assert(a.push(c).drop_first() =~= a.drop_first().push(c));
        lemma_escaped_push(a.drop_first(), c);
        assert(escaped(a.push(c)) =~= escaped(a) + escape_char(c));
    }
}

/// A body written by `escaped`, then a quote, reads back as the text it escapes, whatever
/// precedes or follows it.
pub proof fn lemma_scan_escaped(p: Seq<char>, s: Seq<char>, rest: Seq<char>)
    ensures
        scan_body(p + escaped(s) + seq!['"'] + rest, p.len() as int)
            == BodyScan::Closed((p.len() + escaped(s).len() + 1) as int, s),
    decreases s.len(),
{
    let t = p + escaped(s) + seq!['"'] + rest;
    if s.len() == 0 {
        assert(escaped(s) =~= Seq::<char>::empty());
        assert(t[p.len() as int] == '"');
        assert(s =~= Seq::<char>::empty());
    } else {
        let c = s[0];
        let q = p + escape_char(c);
        let s2 = s.drop_first();
        assert(t =~= q + escaped(s2) + seq!['"'] + rest);
        lemma_scan_escaped(q, s2, rest);
        let i: int = p.len() as int;
        assert(t[i] == escape_char(c)[0]);
        if escape_char(c).len() == 2 {
            assert(t[i + 1] == escape_char(c)[1]);
        }
        assert(seq![c] + s2 =~= s);
    }
}

/// Reads a string literal at the start of `input`, expanding its escapes.
pub fn apply_grammar<'a>(input: &'a str) -> (r: Result<(&'a str, LiteralValue), GrammarError>)
    ensures
        agrees(input@, &r, string_outcome(input@)),
{
    let cs = chars_of(input);
    if cs.len() == 0 || cs[0] != '"' {
        return Err(GrammarError::GrammarMismatch { position: 0, attempted: tried(LiteralKind::String) });
    }
    let mut out: Vec<char> = Vec::new();
    let mut j: usize = 1;
    proof {
        assert(out@ + Seq::<char>::empty() =~= out@);
        lemma_prepend_twice(Seq::empty(), Seq::empty(), scan_body(cs@, 1));
        assert(Seq::<char>::empty() + Seq::<char>::empty() =~= Seq::<char>::empty());
    }
    loop
        invariant
            1 <= j <= cs.len(),
            cs@ == input@,
            cs@[0] == '"',
            prepend(out@, scan_body(cs@, j as int)) == scan_body(cs@, 1),
        decreases cs.len() - j,
    {
        if j == cs.len() {
            return Err(GrammarError::UnterminatedLiteral);
        }
        let c = cs[j];
        if c == '"' {
            proof {
                assert(out@ + Seq::<char>::empty() =~= out@);
            }
            let content = string_of(&out);
            return Ok((input.substring_char(j + 1, cs.len()), LiteralValue::String(content)));
        } else if c == '\\' {
            if j + 1 == cs.len() {
                return Err(GrammarError::UnterminatedLiteral);
            }
            let n = cs[j + 1];
            if n == '\\' || n == '"' || n == 'n' {
                let u = if n == 'n' { '\n' } else { n };
                proof {
                    lemma_prepend_twice(out@, seq![u], scan_body(cs@, j + 2));
                    assert(out@ + seq![u] =~= out@.push(u));
                }
                out.push(u);
                j = j + 2;
            } else {
                return Err(GrammarError::MalformedEscape);
            }
        } else {
            proof {
                lemma_prepend_twice(out@, seq![c], scan_body(cs@, j + 1));
                assert(out@ + seq![c] =~= out@.push(c));
            }
            out.push(c);
            j = j + 1;
        }
    }
}

/// The canonical string literal for `v`: quoted, with `\`, newline and `"` escaped.
pub fn serialize(v: &str) -> (r: String)
    ensures
        r@ == quoted(v@),
{
    let cs = chars_of(v);
    let mut out: Vec<char> = Vec::new();
    out.push('"');
    let mut j: usize = 0;
    proof {
        assert(cs@.subrange(0, 0) =~= Seq::<char>::empty());
        assert(out@ =~= seq!['"'] + escaped(Seq::<char>::empty()));
    }
    while j < cs.len()
        invariant
            j <= cs.len(),
            out@ == seq!['"'] + escaped(cs@.subrange(0, j as int)),
        decreases cs.len() - j,
    {
        let c = cs[j];
        proof {
            assert(cs@.subrange(0, j + 1) =~= cs@.subrange(0, j as int).push(c));
            lemma_escaped_push(cs@.subrange(0, j as int), c);
        }
        let ghost before = out@;
        if c == '\\' {
            out.push('\\');
            out.push('\\');
        } else if c == '\n' {
            out.push('\\');
            out.push('n');
        } else if c == '"' {
            out.push('\\');
            out.push('"');
        } else {
            out.push(c);
        }
        proof {
            assert(out@ =~= before + escape_char(c));
            assert(out@ =~= seq!['"'] + escaped(cs@.subrange(0, j + 1)));
        }
        j = j + 1;
    }
    out.push('"');
    proof {
        assert(cs@.subrange(0, cs.len() as int) =~= v@);
        assert(out@ =~= quoted(v@));
    }
    string_of(&out)
}

} // verus!

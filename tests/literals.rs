use rand::distr::StandardUniform;
use rand::rngs::SmallRng;
use rand::{Rng, SeedableRng};
use toyql::literals::parsing;
use toyql::literals::parsing::{float, integer, string};
use toyql::literals::{GrammarError, LiteralKind, LiteralValue};

/// `how_many` signed integers, special values first.
fn example_ints(how_many: usize) -> Vec<i64> {
    let mut how_many = how_many;
    let basic_examples: Vec<i64> = vec![1, 0, i64::MAX, -1, i64::MIN, 100, 1000, -100];
    let mut result: Vec<i64> = basic_examples.iter().take(how_many).cloned().collect();
    how_many -= result.len();
    if how_many > 0 {
        let rng = SmallRng::seed_from_u64(42);
        result.extend(rng.random_iter::<i64>().take(how_many));
    }
    result
}

/// `how_many` doubles, special values first.
fn example_floats(how_many: usize) -> Vec<f64> {
    let mut how_many = how_many;
    let basic_examples: Vec<f64> = vec![
        1.0, 0.0, -1.0, 1e14, 1e-14, -0.0,
        f64::MAX, f64::MIN_POSITIVE, f64::MIN, -f64::MIN_POSITIVE,
        f64::INFINITY, f64::NEG_INFINITY, f64::NAN,
    ];
    let mut result: Vec<f64> = basic_examples.iter().take(how_many).cloned().collect();
    how_many -= result.len();
    if how_many > 0 {
        let rng = SmallRng::seed_from_u64(42);
        result.extend(rng.random_iter::<f64>().take(how_many));
    }
    result
}

/// `how_many` strings, special values (empty, escapes) first.
fn example_strings(how_many: usize) -> Vec<String> {
    let mut how_many = how_many;
    let basic_examples: Vec<&str> = vec![
        "abc", "a", "100",
        " \\ ",
        "\'", "\n", "\\",
        "\\\\", "\\\\\\",
        "\"",
        "",
    ];
    let mut result: Vec<String> = basic_examples.iter().take(how_many)
        .map(|x| str::to_string(x)).collect();
    how_many -= result.len();
    let mut rng = SmallRng::seed_from_u64(42);
    for _ in 0..how_many {
        let len: usize = rng.random_range(1..10);
        let chars_to_add: Vec<char> = rng.clone().sample_iter(StandardUniform).take(len).collect();
        result.push(chars_to_add.into_iter().collect());
    }
    result
}

/// The canonical text of a double: its `Debug` form.
fn float_text(f: f64) -> String {
    format!("{:-?}", f)
}

/// The double that a float value's text denotes.
fn double_of(v: &LiteralValue) -> Option<f64> {
    match v {
        LiteralValue::Float(t) => Some(float::strip_separators(t).parse::<f64>().unwrap()),
        _ => None,
    }
}

/// Equality of values where doubles compare as numbers and two NaNs are alike.
fn identical(a: &LiteralValue, b: &LiteralValue) -> bool {
    match (double_of(a), double_of(b)) {
        (Some(l), Some(r)) => (l.is_nan() && r.is_nan()) || l == r,
        _ => a == b,
    }
}

/// Alternates the items of `a` and `b`, then goes on with what is left of the longer one.
fn interleave(a: Vec<String>, b: Vec<String>) -> Vec<String> {
    let mut result = Vec::new();
    let mut a = a.into_iter();
    let mut b = b.into_iter();
    loop {
        match (a.next(), b.next()) {
            (None, None) => return result,
            (x, y) => {
                result.extend(x);
                result.extend(y);
            }
        }
    }
}

/// Canonical texts of ints, floats and strings, interleaved.
fn example_literal_representations(how_many: usize) -> Vec<String> {
    let ints: Vec<String> = example_ints(how_many).iter().map(|i| integer::serialize(*i)).collect();
    let floats: Vec<String> = example_floats(how_many).iter().map(|f| float_text(*f)).collect();
    let strings: Vec<String> = example_strings(how_many).iter().map(|s| string::serialize(s)).collect();
    let mut result = interleave(interleave(ints, floats), strings);
    result.truncate(how_many);
    result
}

#[test]
fn literals_smoke_test() {
    assert_eq!(parsing::apply_grammar("7"), Ok(("", LiteralValue::Int(7))));
    let (rest, v) = parsing::apply_grammar(".7").unwrap();
    assert_eq!(rest, "");
    assert_eq!(double_of(&v), Some(0.7));
    assert_eq!(
        parsing::apply_grammar("\"foo\""),
        Ok(("", LiteralValue::String("foo".to_string())))
    );
}

#[test]
fn int_round_trip() {
    for i in example_ints(100) {
        assert_eq!(Ok(("", LiteralValue::Int(i))),
                   parsing::apply_grammar(&LiteralValue::Int(i).serialize()))
    }
}

#[test]
fn float_round_trip() {
    for f in example_floats(100) {
        let serialized = float_text(f);
        let (remainder, deserialized) = parsing::apply_grammar(&serialized).unwrap();
        assert!(remainder == "");
        match double_of(&deserialized) {
            Some(result) => {
                if f.is_nan() {
                    assert!(result.is_nan())
                } else {
                    assert_eq!(f.to_bits(), result.to_bits(),
                               "Testing parse of {} serialized as {} deserializes to {:?}", f, serialized, deserialized);
                }
            }
            None => panic!("deserialize {} -> {} -> {:?} was not float", f, serialized, deserialized),
        }
        assert_eq!(deserialized.serialize(), serialized);
    }
}

#[test]
fn string_round_trip() {
    for s in example_strings(100) {
        let serialized = LiteralValue::String(s.clone()).serialize();
        let (remainder, deserialized) = parsing::apply_grammar(&serialized).unwrap();
        assert!(remainder == "");
        match deserialized {
            LiteralValue::String(result) => {
                assert_eq!(s, result,
                    "Testing parse of >{}< serialized as >{}< deserializes to >{}<", s, serialized, result);
            }
            _ => panic!("deserialize {} -> {} -> {:?} was not string", s, serialized, deserialized),
        }
    }
}

#[test]
fn literal_round_trip() {
    for serialized in example_literal_representations(100) {
        let (remainder, deserialized) = parsing::apply_grammar(&serialized).unwrap();
        assert!(remainder == "");
        let reserialized = LiteralValue::serialize(&deserialized);
        let (remainder, re_deserialized) = parsing::apply_grammar(&reserialized).unwrap();
        assert!(remainder == "");
        assert!(identical(&deserialized, &re_deserialized));
    }
}

#[test]
fn priority_tie_break() {
    assert_eq!(parsing::apply_grammar("42"), Ok(("", LiteralValue::Int(42))));
    let (rest, v) = parsing::apply_grammar("42.0").unwrap();
    assert_eq!(rest, "");
    assert_eq!(v, LiteralValue::Float("42.0".to_string()));
    assert_eq!(double_of(&v), Some(42.0));
    let (rest, v) = parsing::apply_grammar("42e1").unwrap();
    assert_eq!(rest, "");
    assert_eq!(v, LiteralValue::Float("42e1".to_string()));
    assert_eq!(double_of(&v), Some(420.0));
}

#[test]
fn empty_string_literal() {
    assert_eq!(parsing::apply_grammar("\"\""), Ok(("", LiteralValue::String(String::new()))));
    assert_eq!(string::serialize(""), "\"\"");
}

#[test]
fn unterminated_literal() {
    assert_eq!(parsing::apply_grammar("\"abc"), Err(GrammarError::UnterminatedLiteral));
    assert_eq!(parsing::apply_grammar("\"abc\\"), Err(GrammarError::UnterminatedLiteral));
    assert_eq!(parsing::apply_grammar("\""), Err(GrammarError::UnterminatedLiteral));
}

#[test]
fn malformed_escape() {
    assert_eq!(parsing::apply_grammar("\"a\\tb\""), Err(GrammarError::MalformedEscape));
    assert_eq!(string::apply_grammar("\"\\x"), Err(GrammarError::MalformedEscape));
}

#[test]
fn escapes_expand() {
    assert_eq!(
        parsing::apply_grammar("\"a\\\\b\\\"c\\nd\" tail"),
        Ok((" tail", LiteralValue::String("a\\b\"c\nd".to_string())))
    );
    assert_eq!(string::serialize("a\\b\"c\nd"), "\"a\\\\b\\\"c\\nd\"");
    assert_eq!(string::serialize("é\u{1F600}"), "\"é\u{1F600}\"");
}

#[test]
fn integer_overflow_boundary() {
    let max = integer::serialize(i64::MAX);
    assert_eq!(max, "9223372036854775807");
    assert_eq!(parsing::apply_grammar(&max), Ok(("", LiteralValue::Int(i64::MAX))));
    assert_eq!(parsing::apply_grammar("9223372036854775808"), Err(GrammarError::Overflow));
    assert_eq!(parsing::apply_grammar("-9223372036854775808"), Ok(("", LiteralValue::Int(i64::MIN))));
    assert_eq!(parsing::apply_grammar("-9223372036854775809"), Err(GrammarError::Overflow));
    assert_eq!(integer::serialize(i64::MIN), "-9223372036854775808");
    assert_eq!(integer::serialize(0), "0");
    assert_eq!(integer::serialize(-120), "-120");
}

#[test]
fn special_floats() {
    let (rest, v) = parsing::apply_grammar("inf").unwrap();
    assert_eq!(rest, "");
    assert_eq!(double_of(&v), Some(f64::INFINITY));
    let (rest, v) = parsing::apply_grammar("-inf").unwrap();
    assert_eq!(rest, "");
    assert_eq!(double_of(&v), Some(f64::NEG_INFINITY));
    let (rest, v) = parsing::apply_grammar("NaN").unwrap();
    assert_eq!(rest, "");
    assert!(double_of(&v).unwrap().is_nan());
    let serialized = float_text(f64::NAN);
    let (rest, v) = parsing::apply_grammar(&serialized).unwrap();
    assert_eq!(rest, "");
    assert!(double_of(&v).unwrap().is_nan());
}

#[test]
fn double_texts_compare_as_written() {
    let nan = LiteralValue::Float("NaN".to_string());
    assert!(nan == LiteralValue::Float("NaN".to_string()));
    assert!(nan != LiteralValue::Float("-NaN".to_string()));
    assert!(LiteralValue::Float("1.0".to_string()) != LiteralValue::Float("1e0".to_string()));
    assert!(LiteralValue::Int(1) != LiteralValue::Float("1.0".to_string()));
    assert!(identical(&LiteralValue::Float("0.0".to_string()), &LiteralValue::Float("-0.0".to_string())));
    assert!(identical(&nan, &LiteralValue::Float("-NaN".to_string())));
}

#[test]
fn grammar_mismatch() {
    assert_eq!(
        parsing::apply_grammar("abc"),
        Err(GrammarError::GrammarMismatch {
            position: 0,
            attempted: vec![LiteralKind::Float, LiteralKind::Int, LiteralKind::String],
        })
    );
    assert_eq!(
        parsing::apply_grammar(""),
        Err(GrammarError::GrammarMismatch {
            position: 0,
            attempted: vec![LiteralKind::Float, LiteralKind::Int, LiteralKind::String],
        })
    );
    assert_eq!(
        float::apply_grammar("42"),
        Err(GrammarError::GrammarMismatch { position: 0, attempted: vec![LiteralKind::Float] })
    );
}

#[test]
fn float_shapes_and_remainders() {
    assert_eq!(parsing::apply_grammar("1.e5"), Ok(("e5", LiteralValue::Float("1.".to_string()))));
    assert_eq!(parsing::apply_grammar(".5e"), Ok(("e", LiteralValue::Float(".5".to_string()))));
    assert_eq!(parsing::apply_grammar("1.5E-3x"), Ok(("x", LiteralValue::Float("1.5E-3".to_string()))));
    assert_eq!(parsing::apply_grammar("+inf"), Ok(("", LiteralValue::Float("+inf".to_string()))));
    assert_eq!(parsing::apply_grammar("1_000.25"), Ok(("", LiteralValue::Float("1_000.25".to_string()))));
    assert_eq!(float::strip_separators("1_000.2_5e1_0"), "1000.25e10");
    assert_eq!(double_of(&LiteralValue::Float("1_000.25".to_string())), Some(1000.25));
    assert_eq!(parsing::apply_grammar("infinity"), Ok(("inity", LiteralValue::Float("inf".to_string()))));
    assert_eq!(parsing::apply_grammar("-NaN").map(|(r, _)| r), Ok(""));
}

#[test]
fn integer_separators_and_signs() {
    assert_eq!(parsing::apply_grammar("1_000"), Ok(("", LiteralValue::Int(1000))));
    assert_eq!(parsing::apply_grammar("+12 rest"), Ok((" rest", LiteralValue::Int(12))));
    assert_eq!(parsing::apply_grammar("-0"), Ok(("", LiteralValue::Int(0))));
    assert_eq!(parsing::apply_grammar("007"), Ok(("", LiteralValue::Int(7))));
    assert_eq!(integer::make_repr("-1_2"), Ok(LiteralValue::Int(-12)));
    assert_eq!(integer::make_repr("99999999999999999999"), Err(GrammarError::Overflow));
    assert_eq!(
        integer::make_repr("12a"),
        Err(GrammarError::GrammarMismatch { position: 0, attempted: vec![LiteralKind::Int] })
    );
    assert_eq!(integer::apply_grammar("12a"), Ok(("a", LiteralValue::Int(12))));
}

#[test]
fn serialize_dispatches() {
    assert_eq!(parsing::serialize(&LiteralValue::Int(-5)), "-5");
    assert_eq!(parsing::serialize(&LiteralValue::Float("-0.0".to_string())), "-0.0");
    assert_eq!(parsing::serialize(&LiteralValue::String("q\"".to_string())), "\"q\\\"\"");
}

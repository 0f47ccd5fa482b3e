use combinators::{
    any_char, literal_pattern, match_literal, one_or_more, optional, or, pair, pred, range,
    zero_or_more, CharIs, Parser,
};

#[test]
fn test_short_input_fails_without_panic() {
    let parser = match_literal("Hola");
    assert_eq!(parser.parse("Ho"), Err("Ho"));
    assert_eq!(parser.parse(""), Err(""));
}

#[test]
fn test_empty_literal_matches_trivially() {
    let parser = match_literal("");
    assert_eq!(parser.parse("abc"), Ok(("abc", ())));
    assert_eq!(parser.parse(""), Ok(("", ())));
}

#[test]
fn test_zero_or_more_of_zero_width_match_terminates() {
    let parser = zero_or_more(match_literal(""));
    assert_eq!(parser.parse("abc"), Ok(("abc", vec![])));
}

#[test]
fn test_one_or_more_of_zero_width_match_fails() {
    let parser = one_or_more(match_literal(""));
    assert_eq!(parser.parse("abc"), Err("abc"));
}

#[test]
fn test_any_char_multibyte_width() {
    let parser = any_char();
    assert_eq!(parser.parse("\u{e9}x"), Ok(("x", '\u{e9}')));
}

#[test]
fn test_match_literal_multibyte() {
    let parser = match_literal("h\u{e9}llo");
    assert_eq!(parser.parse("h\u{e9}llo!"), Ok(("!", ())));
    assert_eq!(parser.parse("h\u{e9}"), Err("h\u{e9}"));
}

#[test]
fn test_or_retries_from_original_input() {
    let parser = or(match_literal("ab"), match_literal("ax"));
    assert_eq!(parser.parse("ax"), Ok(("", ())));
    assert_eq!(parser.parse("ab"), Ok(("", ())));
    assert_eq!(parser.parse("ay"), Err("ay"));
}

#[test]
fn test_pair_first_failure_position() {
    let parser = pair(match_literal("Hello "), match_literal("world!"));
    assert_eq!(parser.parse("Goodbye"), Err("Goodbye"));
}

#[test]
fn test_pred_rejection_reports_original_input() {
    let parser = pred(any_char(), CharIs { expected: 'x' });
    assert_eq!(parser.parse("ab"), Err("ab"));
}

#[test]
fn test_optional_failure_path_is_idempotent() {
    let parser = optional(match_literal("a"));
    let first = parser.parse("b");
    assert_eq!(first, Ok(("b", None)));
    let (rest, _) = first.unwrap();
    assert_eq!(parser.parse(rest), Ok(("b", None)));
}

#[test]
fn test_zero_or_more_reconstructs_input() {
    let parser = zero_or_more(match_literal("a"));
    assert_eq!(parser.parse("aab"), Ok(("b", vec![(), ()])));
}

#[test]
fn test_range_exact_bounds() {
    let parser = range(match_literal("a"), 2, Some(2));
    assert_eq!(parser.parse("aa"), Ok(("", vec![(), ()])));
    assert_eq!(parser.parse("a"), Err("a"));
    assert_eq!(parser.parse("aaa"), Err("aaa"));
}

#[test]
fn test_literal_pattern_accepts_alphanumeric() {
    let result = literal_pattern("7abc");
    let (rest, parser) = result.expect("a digit is alphanumeric");
    assert_eq!(rest, "abc");
    assert_eq!(parser.parse("zebra"), Ok(("ebra", 'z')));
}

#[test]
fn test_literal_pattern_rejects_other_input() {
    match literal_pattern("! ") {
        Ok(_) => panic!("punctuation is not alphanumeric"),
        Err(e) => assert_eq!(e, "! "),
    }
    match literal_pattern("") {
        Ok(_) => panic!("empty input has no character to take"),
        Err(e) => assert_eq!(e, ""),
    }
}

use combinators::{
    any_char, literal_pattern, match_literal, one_or_more, optional, or, pair, pred, range,
    zero_or_more, Always, CharIs, Parser,
};

#[test]
fn test_pattern() {}

#[test]
fn test_literal() {
    let parser = literal_pattern("hello");

    let parser = match parser {
        Ok((_, parser)) => parser,
        Err(_) => panic!("Failed to parse literal"),
    };

    let result = parser.parse("hello world");

    assert_eq!(result, Ok(("ello world", 'h')));
}

#[test]
fn test_match_literal() {
    let parser = match_literal("Hola");
    assert_eq!(parser.parse("Hola"), Ok(("", ())));
    assert_eq!(parser.parse("Hello"), Err("Hello"));
    assert_eq!(parser.parse("Hola!"), Ok(("!", ())));
}

#[test]
fn test_pair() {
    let parser = pair(match_literal("Hello "), match_literal("world!"));
    assert_eq!(parser.parse("Hello world!"), Ok(("", ((), ()))));
    assert_eq!(parser.parse("Hello world! end"), Ok((" end", ((), ()))));
    assert_eq!(parser.parse("Hello world"), Err("world"));
}

#[test]
fn test_or() {
    let parser = or(match_literal("hello"), match_literal("world"));

    assert_eq!(parser.parse("hello"), Ok(("", ())));
    assert_eq!(parser.parse("world"), Ok(("", ())));
    assert_eq!(parser.parse("world!"), Ok(("!", ())));
    assert_eq!(parser.parse("he"), Err("he"));
}

#[test]
fn test_zero_or_more() {
    let parser = zero_or_more(match_literal("a"));
    assert_eq!(parser.parse("aaaaa"), Ok(("", vec![(), (), (), (), ()])));
    assert_eq!(parser.parse("b"), Ok(("b", vec![])));
}

#[test]
fn test_one_or_more() {
    let parser = one_or_more(match_literal("a"));
    assert_eq!(parser.parse("aaaaa"), Ok(("", vec![(), (), (), (), ()])));
    assert_eq!(parser.parse("b"), Err("b"));
}

#[test]
fn test_range() {
    let parser = range(match_literal("a"), 2, None);
    assert_eq!(parser.parse("aaa"), Ok(("", vec![(), (), ()])));
    assert_eq!(parser.parse("baa"), Err("baa"));
    let parser = range(match_literal("a"), 2, Some(3));
    assert_eq!(parser.parse("aaa"), Ok(("", vec![(), (), ()])));
    assert_eq!(parser.parse("aaaa"), Err("aaaa"));
    let parser = range(match_literal("a"), 2, Some(2));
    assert_eq!(parser.parse("aaa"), Err("aaa"));
}

#[test]
fn test_any_char() {
    let parser = any_char();
    assert_eq!(parser.parse("a"), Ok(("", 'a')));
    assert_eq!(parser.parse("abc"), Ok(("bc", 'a')));
    assert_eq!(parser.parse(""), Err(""));
}

#[test]
fn test_pred() {
    let parser = pred(any_char(), CharIs { expected: 'a' });
    assert_eq!(parser.parse("a"), Ok(("", 'a')));
    assert_eq!(parser.parse("b"), Err("b"));
}

#[test]
fn test_optional() {
    let parser = optional(match_literal("a"));
    assert_eq!(parser.parse("a"), Ok(("", Some(()))));
    assert_eq!(parser.parse("b"), Ok(("b", None)));
}

#[test]
fn test_map() {
    let parser = combinators::parser::base::map(match_literal("a"), Always { value: 1 });
    assert_eq!(parser.parse("a"), Ok(("", 1)));
    assert_eq!(parser.parse("b"), Err("b"));
}

use natukage::sexp::{Error, Expression, ParseError, SExpParser};
use natukage::string_reader::StringReader;
use std::iter;

fn parser_for(txt: &str) -> SExpParser {
    let reader = StringReader::new(txt.as_bytes().to_vec()).unwrap();
    SExpParser::new(reader)
}

fn test_base(txt: &str, expected: Expression) {
    let mut parser = parser_for(txt);
    assert_eq!(expected, parser.parse_expression().unwrap());
}

fn parse_err(txt: &str) -> Error {
    let mut parser = parser_for(txt);
    parser.parse_expression().unwrap_err()
}

#[test]
fn parse_empty_tuple() {
    test_base(r"()", Expression::Tuple(vec![]));
}

#[test]
fn parse_string() {
    let text = "TestString1234567890!@#$%^&*()_+|~";
    test_base(
        &format!("\"{}\"", text),
        Expression::String(text.to_string()),
    );
}

#[test]
fn parse_backquoted_string() {
    let text = "TestString1234567890!@#$%^&*()_+|~";
    test_base(
        &format!("`{}`", text),
        Expression::BackQuotedString(text.to_string()),
    );
}

#[test]
fn parse_int() {
    let i = 1234567890u32;
    test_base(&format!("{}", i), Expression::Integer(i));
}

#[test]
fn parse_literal() {
    let text = "TestString1234567890gnirtStseT";
    test_base(&format!("{}", text), Expression::Literal(text.to_string()))
}

#[test]
fn parse_complicated() {
    let text = r#"
(() 123 "string" `backquoted` literal)
"#;
    test_base(
        &text,
        Expression::Tuple(vec![
            Expression::Tuple(vec![]),
            Expression::Integer(123),
            Expression::String("string".to_string()),
            Expression::BackQuotedString("backquoted".to_string()),
            Expression::Literal("literal".to_string()),
        ]),
    )
}

#[test]
fn parse_nested() {
    fn nest(n: usize) -> String {
        if n == 0 {
            String::new()
        } else {
            format!("({})", nest(n - 1))
        }
    }

    let i = 40;
    test_base(
        &nest(i),
        iter::repeat(())
            .take(i - 1)
            .fold(Expression::Tuple(vec![]), |acc, _| {
                Expression::Tuple(vec![acc])
            }),
    );
}

#[test]
fn parse_string_escapes() {
    test_base(
        r#""a\\b\"c""#,
        Expression::String("a\\b\"c".to_string()),
    );
}

#[test]
fn parse_backquoted_escapes() {
    test_base(
        r"`a\\b\`c`",
        Expression::BackQuotedString("a\\b`c".to_string()),
    );
}

#[test]
fn parse_string_keeps_structural_bytes_raw() {
    test_base(r#""(no (structure) here)""#, Expression::String("(no (structure) here)".to_string()));
}

#[test]
fn parse_multibyte_string() {
    test_base("\"日記とアルバム\"", Expression::String("日記とアルバム".to_string()));
}

#[test]
fn parse_integer_wraps_at_thirty_two_bits() {
    // 2^32 wraps to zero, as the historical reader allowed
    test_base("4294967296", Expression::Integer(0));
}

#[test]
fn parse_integer_stops_at_non_digit() {
    let mut parser = parser_for("12)");
    assert_eq!(Expression::Integer(12), parser.parse_expression().unwrap());
}

#[test]
fn parse_literal_stops_at_non_alphanumeric() {
    let mut parser = parser_for("ab)");
    assert_eq!(
        Expression::Literal("ab".to_string()),
        parser.parse_expression().unwrap()
    );
}

#[test]
fn empty_source_gives_no_reader() {
    assert!(StringReader::new(Vec::new()).is_none());
}

#[test]
fn unexpected_eof_in_tuple() {
    assert_eq!(
        Error::ParseError(ParseError::UnexpectedEOF),
        parse_err("(literal")
    );
}

#[test]
fn unexpected_eof_in_string() {
    assert_eq!(
        Error::ParseError(ParseError::UnexpectedEOF),
        parse_err("\"abc")
    );
}

#[test]
fn unexpected_eof_after_backslash() {
    assert_eq!(
        Error::ParseError(ParseError::UnexpectedEOF),
        parse_err("\"abc\\")
    );
}

#[test]
fn unexpected_eof_on_whitespace_only() {
    assert_eq!(
        Error::ParseError(ParseError::UnexpectedEOF),
        parse_err("   \t\n")
    );
}

#[test]
fn unexpected_character_at_top_level() {
    assert_eq!(
        Error::ParseError(ParseError::UnexpectedCharacter(b')')),
        parse_err(")")
    );
}

#[test]
fn unexpected_character_in_escape() {
    assert_eq!(
        Error::ParseError(ParseError::UnexpectedCharacter(b'x')),
        parse_err(r#""a\x""#)
    );
}

#[test]
fn unexpected_character_closing_tuple() {
    // a bare terminator that is not `)` cannot close a tuple
    assert_eq!(
        Error::ParseError(ParseError::UnexpectedCharacter(b'=')),
        parse_err("(a =)")
    );
}

#[test]
fn invalid_utf8_in_string() {
    let mut bytes = vec![b'"', 0xff, 0xfe, b'"'];
    let reader = StringReader::new(std::mem::take(&mut bytes)).unwrap();
    let mut parser = SExpParser::new(reader);
    assert_eq!(Error::Utf8Error, parser.parse_expression().unwrap_err());
}

#[test]
fn whitespace_is_skipped_between_tokens() {
    test_base(
        " \t\r\n( a\x0c 1 )",
        Expression::Tuple(vec![
            Expression::Literal("a".to_string()),
            Expression::Integer(1),
        ]),
    );
}

#[test]
fn expect_application_splits_operator_and_operands() {
    let (rator, rands) = natukage::sexp::expect_application(vec![
        Expression::Literal("h".to_string()),
        Expression::String("x".to_string()),
    ])
    .unwrap();
    assert_eq!("h", rator);
    assert_eq!(vec![Expression::String("x".to_string())], rands);
}

#[test]
fn expect_application_rejects_empty_tuple() {
    assert!(matches!(
        natukage::sexp::expect_application(vec![]),
        Err(natukage::sexp::ApplicationError::MissingOperator)
    ));
}

#[test]
fn expect_application_rejects_non_literal_head() {
    assert!(matches!(
        natukage::sexp::expect_application(vec![Expression::Integer(1)]),
        Err(natukage::sexp::ApplicationError::HeadIsNotLiteral)
    ));
}

#[test]
fn serialize_then_parse_round_trips() {
    let tree = Expression::Tuple(vec![
        Expression::Tuple(vec![]),
        Expression::Literal("header1".to_string()),
        Expression::String("quoted \"text\" with \\ and (parens)".to_string()),
        Expression::BackQuotedString("code `x` and \\".to_string()),
        Expression::Integer(4294967295),
        Expression::Tuple(vec![
            Expression::Integer(0),
            Expression::Literal("z".to_string()),
        ]),
    ]);
    let text = natukage::serialize::write_expression(&tree);
    let reader = StringReader::new(text).unwrap();
    let mut parser = SExpParser::new(reader);
    assert_eq!(tree, parser.parse_expression().unwrap());
}

#[test]
fn serialize_then_parse_round_trips_multibyte() {
    let tree = Expression::Tuple(vec![Expression::String("日記と\\アルバム".to_string())]);
    let text = natukage::serialize::write_expression(&tree);
    let reader = StringReader::new(text).unwrap();
    let mut parser = SExpParser::new(reader);
    assert_eq!(tree, parser.parse_expression().unwrap());
}

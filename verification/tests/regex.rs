use wirefilter_scheme::ast::parse::FilterParser;
use wirefilter_scheme::lex::LexErrorKind;
use wirefilter_scheme::rhs_types::regex::{Error, RegexBuilder, RegexDefaultBuilder, RegexExpr, RegexFormat};
use wirefilter_scheme::scheme::SchemeBuilder;
use wirefilter_scheme::types::LhsValue;

fn rest(input: &str, end: usize) -> String {
    input.chars().skip(end).collect()
}

#[test]
fn test_compiled_size_limit() {
    const COMPILED_SIZE_LIMIT: usize = 1024 * 1024;
    let builder = RegexDefaultBuilder { compiled_size_limit: COMPILED_SIZE_LIMIT, ..Default::default() };
    let r = RegexExpr::new(".{4079,65535}", RegexFormat::Literal, &builder);
    assert!(matches!(r, Err(Error::CompiledTooBig(limit)) if limit == COMPILED_SIZE_LIMIT));
}

#[test]
fn test() {
    let scheme = SchemeBuilder::new().build();
    let parser = FilterParser::new(&scheme);

    let input = r#""[a-z"\]]+\d{1,10}\"";"#;
    let (expr, end) = RegexExpr::lex_with(input, &parser).unwrap();
    let expected = RegexExpr::new(r#"[a-z"\]]+\d{1,10}""#, RegexFormat::Literal, parser.settings().regex_builder())
        .unwrap();
    assert!(expr == expected);
    assert_eq!(rest(input, end), ";");

    assert_eq!(expr.as_str(), r#"[a-z"\]]+\d{1,10}""#);

    match RegexExpr::lex_with(r#""abcd\"#, &parser) {
        Err(err) => assert_eq!(err, (LexErrorKind::MissingEndingQuote, 1, 5)),
        Ok(_) => panic!("an unterminated literal was accepted"),
    }
}

#[test]
fn test_raw_string() {
    let scheme = SchemeBuilder::new().build();
    let parser = FilterParser::new(&scheme);

    let input = r###"r#"[a-z"\]]+\d{1,10}""#;"###;
    let (expr, end) = RegexExpr::lex_with(input, &FilterParser::new(&scheme)).unwrap();
    let expected = RegexExpr::new(r#"[a-z"\]]+\d{1,10}""#, RegexFormat::Raw(1), parser.settings().regex_builder())
        .unwrap();
    assert!(expr == expected);
    assert_eq!(expr.format(), RegexFormat::Raw(1));
    assert_eq!(rest(input, end), ";");

    assert_eq!(expr.as_str(), r#"[a-z"\]]+\d{1,10}""#);

    let input = r##"r#"(?u)\*\a\f\t\n\r\v\x7F\x{10FFFF}\u007F\u{7F}\U0000007F\U{7F}"#"##;
    let (expr, end) = RegexExpr::lex_with(input, &parser).unwrap();
    let expected = RegexExpr::new(
        r#"(?u)\*\a\f\t\n\r\v\x7F\x{10FFFF}\u007F\u{7F}\U0000007F\U{7F}"#,
        RegexFormat::Raw(1),
        parser.settings().regex_builder(),
    )
    .unwrap();
    assert!(expr == expected);
    assert_eq!(rest(input, end), "");

    assert_eq!(expr.as_str(), r#"(?u)\*\a\f\t\n\r\v\x7F\x{10FFFF}\u007F\u{7F}\U0000007F\U{7F}"#);

    match RegexExpr::lex_with("x", &FilterParser::new(&scheme)) {
        Err(err) => assert_eq!(err, (LexErrorKind::ExpectedName("\" or r"), 0, 1)),
        Ok(_) => panic!("a regex without a quote was accepted"),
    }
}

#[test]
fn default_builder_limits() {
    let builder = RegexDefaultBuilder::default();
    assert_eq!(builder.compiled_size_limit, 10 * (1 << 20));
    assert_eq!(builder.dfa_size_limit, 2 * (1 << 20));
    let copy = builder.clone();
    assert_eq!(copy.compiled_size_limit, builder.compiled_size_limit);
}

#[test]
fn syntax_error_is_reported() {
    let builder = RegexDefaultBuilder::default();
    let r = RegexExpr::new("a(b", RegexFormat::Literal, &builder);
    assert!(matches!(r, Err(Error::Syntax(_))));
}

#[test]
fn compiled_regex_matches_bytes() {
    let builder = RegexDefaultBuilder::default();
    let re = builder.build("^ab+c$").unwrap();
    assert!(re.is_match(b"abbbc"));
    assert!(!re.is_match(b"ac"));
    let expr = RegexExpr::new("b+", RegexFormat::Raw(2), &builder).unwrap();
    assert!(expr.is_match(b"abc"));
    assert!(!expr.is_match(b"xyz"));
    assert!(expr.compare(&LhsValue::bytes_of("abbc")));
    assert!(!expr.compare(&LhsValue::bytes_of("ac")));
    assert_eq!(expr.format(), RegexFormat::Raw(2));
    assert_eq!(expr.clone().as_str(), "b+");
}

#[test]
fn literal_keeps_escapes_but_unescapes_quotes() {
    let scheme = SchemeBuilder::new().build();
    let parser = scheme.parser();
    let input = r#""a\"b\.[\"]" rest"#;
    let (expr, end) = RegexExpr::lex_with(input, &parser).unwrap();
    assert_eq!(expr.as_str(), r#"a"b\.[\"]"#);
    assert_eq!(expr.format(), RegexFormat::Literal);
    assert_eq!(rest(input, end), " rest");
}

#[test]
fn raw_string_with_two_hashes() {
    let scheme = SchemeBuilder::new().build();
    let parser = scheme.parser();
    let input = r###"r##"a"#b"##!"###;
    let (expr, end) = RegexExpr::lex_with(input, &parser).unwrap();
    assert_eq!(expr.as_str(), r##"a"#b"##);
    assert_eq!(expr.format(), RegexFormat::Raw(2));
    assert_eq!(rest(input, end), "!");
}

#[test]
fn regex_errors_carry_their_span() {
    let scheme = SchemeBuilder::new().build();
    let parser = scheme.parser();
    match RegexExpr::lex_with("", &parser) {
        Err(err) => assert_eq!(err, (LexErrorKind::EOF, 0, 0)),
        Ok(_) => panic!("an empty regex was accepted"),
    }
    match RegexExpr::lex_with(r#""a(b" x"#, &parser) {
        Err((LexErrorKind::ParseRegex(Error::Syntax(_)), 1, 3)) => {},
        Err(other) => panic!("unexpected error {:?}", other),
        Ok(_) => panic!("an invalid regex was accepted"),
    }
    match RegexExpr::lex_with(r#"r#"abc"#, &parser) {
        Err(err) => assert_eq!(err, (LexErrorKind::MissingEndingQuote, 1, 5)),
        Ok(_) => panic!("an unterminated raw string was accepted"),
    }
    match RegexExpr::lex_with("r#abc", &parser) {
        Err(err) => assert_eq!(err, (LexErrorKind::ExpectedLiteral("\""), 2, 3)),
        Ok(_) => panic!("a raw string without a quote was accepted"),
    }
}

#[test]
fn default_builder_reports_syntax_and_matches_any_byte() {
    let builder = RegexDefaultBuilder::default();
    assert!(matches!(builder.build("("), Err(Error::Syntax(_))));
    let re = builder.build("a.b").unwrap();
    assert!(re.is_match(b"a\xFFb"));
}

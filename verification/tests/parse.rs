use wirefilter_scheme::ast::parse::{FilterParser, ParseError, ParserSettings};
use wirefilter_scheme::lex::LexErrorKind;
use wirefilter_scheme::scheme::SchemeBuilder;

#[test]
fn parse_error_on_first_line() {
    let err = ParseError::new("num == true or", LexErrorKind::EOF, 12, 2);
    assert_eq!(err.kind(), &LexErrorKind::EOF);
    assert_eq!(err.input(), "num == true or");
    assert_eq!(err.line_number(), 0);
    assert_eq!(err.span_start(), 12);
    assert_eq!(err.span_len(), 2);
}

#[test]
fn parse_error_keeps_the_line_of_the_span() {
    let input = "abc\nde fg\nhi";
    let err = ParseError::new(input, LexErrorKind::MissingEndingQuote, 7, 2);
    assert_eq!(err.line_number(), 1);
    assert_eq!(err.input(), "de fg");
    assert_eq!(err.span_start(), 3);
    assert_eq!(err.span_len(), 2);

    let err = ParseError::new(input, LexErrorKind::EOF, 7, 5);
    assert_eq!(err.input(), "de fg");
    assert_eq!(err.span_len(), 2);

    let err = ParseError::new(input, LexErrorKind::EOF, 10, 2);
    assert_eq!(err.line_number(), 2);
    assert_eq!(err.input(), "hi");
    assert_eq!(err.span_start(), 0);
    assert_eq!(err.span_len(), 2);
}

#[test]
fn parse_error_counts_characters() {
    let input = "é\n  ü x";
    let err = ParseError::new(input, LexErrorKind::EOF, 4, 1);
    assert_eq!(err.line_number(), 1);
    assert_eq!(err.input(), "  ü x");
    assert_eq!(err.span_start(), 2);
}

#[test]
fn parser_settings() {
    let settings = ParserSettings::default();
    assert_eq!(settings.wildcard_star_limit(), usize::MAX);
    let scheme = SchemeBuilder::new().build();
    let mut parser = FilterParser::new(&scheme);
    assert_eq!(parser.wildcard_get_star_limit(), usize::MAX);
    parser.wildcard_set_star_limit(3);
    assert_eq!(parser.wildcard_get_star_limit(), 3);
    assert_eq!(parser.settings().wildcard_star_limit(), 3);
    assert!(std::ptr::eq(parser.scheme(), &scheme));

    let mut settings = ParserSettings::default();
    settings.wildcard_star_limit = 5;
    let parser = scheme.parser_with_settings(settings.clone());
    assert_eq!(parser.wildcard_get_star_limit(), 5);
    let parser = FilterParser::with_settings(&scheme, settings);
    assert_eq!(parser.settings().wildcard_star_limit(), 5);
    assert_eq!(scheme.parser().wildcard_get_star_limit(), usize::MAX);
}

#[test]
fn parse_error_text_underlines_the_span() {
    let err = ParseError::new("xyz", LexErrorKind::UnknownIdentifier, 0, 3);
    assert_eq!(err.to_string(), "Filter parsing error (1:1):\nxyz\n^^^ unknown identifier\n");

    let err = ParseError::new("\n\n    xyz", LexErrorKind::UnknownIdentifier, 6, 3);
    assert_eq!(err.to_string(), "Filter parsing error (3:5):\n    xyz\n    ^^^ unknown identifier\n");
}

#[test]
fn parse_error_text_marks_an_empty_span_with_one_caret() {
    let err = ParseError::new("str in {", LexErrorKind::EOF, 8, 0);
    assert_eq!(err.to_string(), "Filter parsing error (1:9):\nstr in {\n        ^ unrecognised input\n");
}

#[test]
fn lex_error_messages() {
    assert_eq!(LexErrorKind::ExpectedName("digit").to_string(), "expected digit");
    assert_eq!(
        LexErrorKind::CountMismatch { name: "character", actual: 1, expected: 12 }.to_string(),
        "expected 12 characters, but found 1"
    );
    assert_eq!(LexErrorKind::ParseInt { radix: 16 }.to_string(), "invalid number while parsing with radix 16");
    assert_eq!(
        LexErrorKind::ParseRegex(wirefilter_scheme::rhs_types::regex::Error::CompiledTooBig(1048576)).to_string(),
        "could not parse a regex: Compiled regex exceeds size limit of 1048576 bytes."
    );
    assert_eq!(LexErrorKind::MissingEndingQuote.to_string(), "could not find an ending quote");
}

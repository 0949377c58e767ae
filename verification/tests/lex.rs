use wirefilter_scheme::lex::{chars_of, lex_int, lex_quoted_bytes, lex_raw_string, LexErrorKind};

#[test]
fn integers_in_every_radix() {
    let input = chars_of("0x1F 0o17 0b101 -42 12a");
    assert_eq!(lex_int(&input, 0), Ok((31, 4)));
    assert_eq!(lex_int(&input, 5), Ok((15, 9)));
    assert_eq!(lex_int(&input, 10), Ok((5, 15)));
    assert_eq!(lex_int(&input, 16), Ok((-42, 19)));
    assert_eq!(lex_int(&input, 20), Err((LexErrorKind::ParseInt { radix: 10 }, 20, 3)));
    assert_eq!(lex_int(&chars_of("x"), 0), Err((LexErrorKind::ExpectedName("digit"), 0, 1)));
    assert_eq!(lex_int(&chars_of("9223372036854775807"), 0), Ok((i64::MAX, 19)));
    assert_eq!(lex_int(&chars_of("-9223372036854775808"), 0), Ok((i64::MIN, 20)));
    assert!(lex_int(&chars_of("9223372036854775808"), 0).is_err());
}

#[test]
fn quoted_bytes_with_escapes() {
    let input = chars_of(r#""a\"\\\x41\101é" tail"#);
    let (bytes, end) = lex_quoted_bytes(&input, 1).unwrap();
    assert_eq!(bytes, vec![b'a', b'"', b'\\', b'A', b'A', 0xc3, 0xa9]);
    assert_eq!(end, 16);
    assert_eq!(lex_quoted_bytes(&chars_of(r#""\q""#), 1), Err((LexErrorKind::InvalidCharacterEscape, 1, 2)));
    assert!(lex_quoted_bytes(&chars_of(r#""abc"#), 1).is_err());
}

#[test]
fn raw_strings() {
    let input = chars_of(r###"r##"a"#b"## x"###);
    assert_eq!(lex_raw_string(&input, 1), Ok((4, 8, 2, 11)));
    let many = format!("r{}\"a\"", "#".repeat(256));
    assert_eq!(
        lex_raw_string(&chars_of(&many), 1),
        Err((LexErrorKind::CountMismatch { name: "#", actual: 256, expected: 255 }, 1, 256))
    );
}

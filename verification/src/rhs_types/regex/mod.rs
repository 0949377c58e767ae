use vstd::prelude::*;

use std::sync::Arc;

use crate::ast::parse::FilterParser;
use crate::types::LhsValue;
use crate::lex::{
    chars_of, decimal, lex_raw_string, push_char, push_decimal, push_str, spec_raw_string, string_of, LexErrorKind,
    LexResult,
};

mod imp_real;

pub use self::imp_real::{
    error_of_build, error_view_of_build, opt_view, regex_build_error, regex_compiles, regex_matches, DefaultRegex, RegexDefaultBuilder,
};

verus! {

/// RegexFormat describes the format behind the regex.
#[derive(PartialEq, Eq, Copy, Clone, Debug, Structural)]
pub enum RegexFormat {
    /// Literal string was used to define the expression.
    Literal,
    /// Raw string was used to define the expression, with that many `#`.
    Raw(u8),
}

/// A compiled regex object.
pub trait RegexMatcher {
    /// Whether the regex matches somewhere in `input`.
    spec fn matches(&self, input: Seq<u8>) -> bool;

    /// Matches the regex against some input.
    fn is_match(&self, input: &[u8]) -> (r: bool)
        ensures
            r == self.matches(input@),
    ;
}

/// Builds regex objects from patterns.
pub trait RegexBuilder {
    /// Whether the builder compiles `pattern`.
    spec fn accepts(&self, pattern: Seq<char>) -> bool;

    /// Whether the regex that the builder compiles from `pattern` matches
    /// somewhere in `input`.
    spec fn pattern_matches(&self, pattern: Seq<char>, input: Seq<u8>) -> bool;

    /// The error that the builder reports for `pattern`, where it does not
    /// compile it.
    spec fn build_error(&self, pattern: Seq<char>) -> ErrorView;

    /// Builds a regex from the provided pattern.
    fn build(&self, pattern: &str) -> (r: Result<Box<dyn RegexMatcher>, Error>)
        ensures
            r is Ok <==> self.accepts(pattern@),
            r matches Err(e) ==> e@ == self.build_error(pattern@),
            r matches Ok(m) ==> forall|input: Seq<u8>| #[trigger] m.matches(input) == self.pattern_matches(pattern@, input),
    ;
}

impl RegexBuilder for Box<dyn RegexBuilder> {
    open spec fn accepts(&self, pattern: Seq<char>) -> bool {
        (**self).accepts(pattern)
    }

    open spec fn pattern_matches(&self, pattern: Seq<char>, input: Seq<u8>) -> bool {
        (**self).pattern_matches(pattern, input)
    }

    open spec fn build_error(&self, pattern: Seq<char>) -> ErrorView {
        (**self).build_error(pattern)
    }

    /// Builds with the boxed builder.
    fn build(&self, pattern: &str) -> (r: Result<Box<dyn RegexMatcher>, Error>) {
        (**self).build(pattern)
    }
}

/// An error that occurred during parsing or compiling a regular expression.
#[non_exhaustive]
#[derive(Clone, Debug, PartialEq)]
pub enum Error {
    /// A syntax error.
    Syntax(String),
    /// The compiled regex exceeded the configured regex compiled size limit.
    CompiledTooBig(usize),
    /// An uncategorized error.
    Other(String),
}

impl Eq for Error {}

/// The content of an [`Error`].
pub enum ErrorView {
    /// A syntax error, with its message.
    Syntax(Seq<char>),
    /// The compiled regex exceeded the given size limit.
    CompiledTooBig(usize),
    /// An uncategorized error, with its message.
    Other(Seq<char>),
}

/// The message that a regex error reads as.
pub open spec fn error_message(e: ErrorView) -> Seq<char> {
    match e {
        ErrorView::Syntax(m) => m,
        ErrorView::CompiledTooBig(n) => "Compiled regex exceeds size limit of "@ + decimal(n as nat) + " bytes."@,
        ErrorView::Other(m) => m,
    }
}

impl Error {
    /// The message that this error reads as: the message of a syntax or
    /// uncategorized error, or the size limit that the compiled regex
    /// exceeded.
    pub fn to_string(&self) -> (r: String)
        ensures
            r@ == error_message(self@),
    {
        match self {
            Error::Syntax(m) => m.clone(),
            Error::CompiledTooBig(n) => {
                let mut r = String::new();
                push_str(&mut r, "Compiled regex exceeds size limit of ");
                push_decimal(&mut r, *n as u128);
                push_str(&mut r, " bytes.");
                r
            },
            Error::Other(m) => m.clone(),
        }
    }
}

impl View for Error {
    type V = ErrorView;

    open spec fn view(&self) -> ErrorView {
        match self {
            Error::Syntax(m) => ErrorView::Syntax(m@),
            Error::CompiledTooBig(n) => ErrorView::CompiledTooBig(*n),
            Error::Other(m) => ErrorView::Other(m@),
        }
    }
}

/// Regex expression wrapping a pattern, format, and compiled regex.
pub struct RegexExpr {
    pattern: String,
    format: RegexFormat,
    regex: Arc<Box<dyn RegexMatcher>>,
}

impl RegexExpr {
    /// The pattern of this regex.
    pub closed spec fn spec_pattern(&self) -> Seq<char> {
        self.pattern@
    }

    /// The format used by the pattern.
    pub closed spec fn spec_format(&self) -> RegexFormat {
        self.format
    }

    /// Whether the compiled regex matches somewhere in `input`.
    pub closed spec fn spec_matches(&self, input: Seq<u8>) -> bool {
        self.regex.matches(input)
    }

    /// Creates a new regex expression, compiling `pattern` with `builder`.
    ///
    /// What comes back is what [`RegexExpr::from_build_result`] makes of the
    /// builder's result.
    pub fn new<B: RegexBuilder + ?Sized>(pattern: &str, format: RegexFormat, builder: &B) -> (r: Result<Self, Error>)
        ensures
            r is Ok <==> builder.accepts(pattern@),
            r matches Err(e) ==> e@ == builder.build_error(pattern@),
            r matches Ok(e) ==> e.spec_pattern() == pattern@ && e.spec_format() == format
                && forall|input: Seq<u8>| #[trigger] e.spec_matches(input) == builder.pattern_matches(pattern@, input),
    {
        let built = builder.build(pattern);
        Self::from_build_result(pattern, format, built)
    }

    /// The regex expression for `pattern` and `format` given what a builder
    /// returned for the pattern: the compiled regex, or the builder's error.
    pub fn from_build_result(pattern: &str, format: RegexFormat, built: Result<Box<dyn RegexMatcher>, Error>) -> (r: Result<Self, Error>)
        ensures
            built is Ok <==> r is Ok,
            r matches Ok(e) ==> e.spec_pattern() == pattern@ && e.spec_format() == format,
            r matches Ok(e) ==> (built matches Ok(m) && forall|input: Seq<u8>|
                #[trigger] e.spec_matches(input) == m.matches(input)),
            built matches Err(e) ==> r == Err::<Self, Error>(e),
    {
        match built {
            Ok(regex) => {
                let ghost m = regex;
                let a = Arc::new(regex);
                assert(a == m);
                let e = RegexExpr { pattern: pattern.to_owned(), format, regex: a };
                assert(forall|input: Seq<u8>| #[trigger] e.spec_matches(input) == m.matches(input));
                Ok(e)
            },
            Err(err) => Err(err),
        }
    }

    /// Returns the pattern of this regex.
    pub fn as_str(&self) -> (r: &str)
        ensures
            r@ == self.spec_pattern(),
    {
        self.pattern.as_str()
    }

    /// Returns the format used by the pattern.
    pub fn format(&self) -> (r: RegexFormat)
        ensures
            r == self.spec_format(),
    {
        self.format
    }

    /// Whether the compiled regex matches somewhere in `input`.
    pub fn is_match(&self, input: &[u8]) -> (r: bool)
        ensures
            r == self.spec_matches(input@),
    {
        self.regex.is_match(input)
    }

    /// Whether the compiled regex matches somewhere in a byte-string value.
    pub fn compare(&self, value: &LhsValue) -> (r: bool)
        requires
            value is Bytes,
        ensures
            value matches LhsValue::Bytes(b) && r == self.spec_matches(b@),
    {
        match value {
            LhsValue::Bytes(bytes) => self.regex.is_match(bytes.as_slice()),
            _ => false,
        }
    }
}

impl Clone for RegexExpr {
    fn clone(&self) -> (r: Self)
        ensures
            r.spec_pattern() == self.spec_pattern(),
            forall|input: Seq<u8>| #[trigger] r.spec_matches(input) == self.spec_matches(input),
            r.spec_format() == self.spec_format(),
    {
        RegexExpr { pattern: self.pattern.clone(), format: self.format, regex: self.regex.clone() }
    }
}

impl PartialEq for RegexExpr {
    fn eq(&self, other: &Self) -> (r: bool) {
        self.pattern == other.pattern
    }
}

impl vstd::std_specs::cmp::PartialEqSpecImpl for RegexExpr {
    open spec fn obeys_eq_spec() -> bool {
        true
    }

    open spec fn eq_spec(&self, other: &RegexExpr) -> bool {
        self.spec_pattern() == other.spec_pattern()
    }
}

impl Eq for RegexExpr {}


/// The outcome of reading the body of a regex written as a quoted literal:
/// `start` is the position after the opening quote, `pos` the current one,
/// `in_class` whether a character class is open and `buf` the pattern read
/// so far. The result is the pattern and the position of the closing quote.
///
/// A backslash keeps the next character escaped, except that `\"` outside a
/// character class stands for a quote; a quote inside a character class
/// belongs to it.
pub open spec fn spec_regex_literal(s: Seq<char>, start: int, pos: int, in_class: bool, buf: Seq<char>) -> Result<
    (Seq<char>, int),
    (LexErrorKind, int, int),
>
    decreases s.len() - pos,
{
    if pos < 0 || pos >= s.len() {
        Err((LexErrorKind::MissingEndingQuote, start, s.len() - start))
    } else {
        let c = s[pos];
        if c == '\\' {
            if pos + 1 < s.len() {
                let c2 = s[pos + 1];
                let next_buf = if in_class || c2 != '"' {
                    buf.push('\\').push(c2)
                } else {
                    buf.push(c2)
                };
                spec_regex_literal(s, start, pos + 2, in_class, next_buf)
            } else {
                spec_regex_literal(s, start, pos + 1, in_class, buf)
            }
        } else if c == '"' && !in_class {
            Ok((buf, pos))
        } else if c == '[' && !in_class {
            spec_regex_literal(s, start, pos + 1, true, buf.push('['))
        } else if c == ']' && in_class {
            spec_regex_literal(s, start, pos + 1, false, buf.push(']'))
        } else {
            spec_regex_literal(s, start, pos + 1, in_class, buf.push(c))
        }
    }
}

/// Whether every backslash of `s` has a character after it, which it
/// escapes: read from the left, `s` splits into escape pairs and single
/// characters.
pub open spec fn escapes_closed(s: Seq<char>) -> bool
    decreases s.len(),
{
    if s.len() == 0 {
        true
    } else if s[0] == '\\' {
        s.len() >= 2 && escapes_closed(s.subrange(2, s.len() as int))
    } else {
        escapes_closed(s.subrange(1, s.len() as int))
    }
}

/// Whether `s` can stand in a regex literal as it is: no quote, no
/// character class, and no backslash that escapes what follows `s`.
pub open spec fn plain_regex_text(s: Seq<char>) -> bool {
    &&& forall|i: int| 0 <= i < s.len() ==> #[trigger] s[i] != '"' && s[i] != '['
    &&& escapes_closed(s)
}

/// Plain text in a regex literal, outside a character class, passes into
/// the pattern unchanged, backslash pairs included.
proof fn lemma_plain_regex_chunk(s: Seq<char>, start: int, pos: int, end: int, buf: Seq<char>)
    requires
        0 <= pos <= end <= s.len(),
        plain_regex_text(s.subrange(pos, end)),
    ensures
        spec_regex_literal(s, start, pos, false, buf) == spec_regex_literal(
            s,
            start,
            end,
            false,
            buf + s.subrange(pos, end),
        ),
    decreases end - pos,
{
    let t = s.subrange(pos, end);
    if pos == end {
        assert(buf + t =~= buf);
    } else {
        assert(t[0] == s[pos]);
        if s[pos] == '\\' {
            assert(t.len() >= 2);
            assert(t[1] == s[pos + 1]);
            assert(s[pos + 1] != '"');
            assert(t.subrange(2, t.len() as int) =~= s.subrange(pos + 2, end));
            assert forall|i: int| 0 <= i < s.subrange(pos + 2, end).len() implies #[trigger] s.subrange(
                pos + 2,
                end,
            )[i] != '"' && s.subrange(pos + 2, end)[i] != '[' by {
                assert(s.subrange(pos + 2, end)[i] == t[i + 2]);
            }
            lemma_plain_regex_chunk(s, start, pos + 2, end, buf.push('\\').push(s[pos + 1]));
            assert(buf.push('\\').push(s[pos + 1]) + s.subrange(pos + 2, end) =~= buf + t);
        } else {
            assert(s[pos] != '"' && s[pos] != '[');
            assert(t.subrange(1, t.len() as int) =~= s.subrange(pos + 1, end));
            assert forall|i: int| 0 <= i < s.subrange(pos + 1, end).len() implies #[trigger] s.subrange(
                pos + 1,
                end,
            )[i] != '"' && s.subrange(pos + 1, end)[i] != '[' by {
                assert(s.subrange(pos + 1, end)[i] == t[i + 1]);
            }
            lemma_plain_regex_chunk(s, start, pos + 1, end, buf.push(s[pos]));
            assert(buf.push(s[pos]) + s.subrange(pos + 1, end) =~= buf + t);
        }
    }
}

/// A regex literal whose body is plain text, with no quote and no
/// character class, lexes to its body unchanged, backslash pairs included,
/// and ends at the closing quote.
pub proof fn law_plain_regex_literal(s: Seq<char>, start: int, end: int)
    requires
        0 <= start <= end < s.len(),
        s[end] == '"',
        plain_regex_text(s.subrange(start, end)),
    ensures
        spec_regex_literal(s, start, start, false, Seq::empty()) == Ok::<
            (Seq<char>, int),
            (LexErrorKind, int, int),
        >((s.subrange(start, end), end)),
{
    lemma_plain_regex_chunk(s, start, start, end, Seq::empty());
    assert(Seq::<char>::empty() + s.subrange(start, end) =~= s.subrange(start, end));
}

/// In a regex literal, an escaped quote outside a character class stands
/// for a quote in the pattern, and the plain text around it passes
/// unchanged.
pub proof fn law_escaped_quote_in_regex_literal(s: Seq<char>, start: int, mid: int, end: int)
    requires
        0 <= start <= mid,
        mid + 2 <= end < s.len(),
        s[mid] == '\\',
        s[mid + 1] == '"',
        s[end] == '"',
        plain_regex_text(s.subrange(start, mid)),
        plain_regex_text(s.subrange(mid + 2, end)),
    ensures
        spec_regex_literal(s, start, start, false, Seq::empty()) == Ok::<
            (Seq<char>, int),
            (LexErrorKind, int, int),
        >((s.subrange(start, mid).push('"') + s.subrange(mid + 2, end), end)),
{
    let a = s.subrange(start, mid);
    lemma_plain_regex_chunk(s, start, start, mid, Seq::empty());
    assert(Seq::<char>::empty() + a =~= a);
    lemma_plain_regex_chunk(s, start, mid + 2, end, a.push('"'));
}

/// Reads the pattern of a regex written as a quoted literal whose opening
/// quote stands right before `start`.
pub fn lex_regex_literal_pattern(input: &Vec<char>, start: usize) -> (r: Result<(String, usize), (LexErrorKind, usize, usize)>)
    requires
        start <= input@.len(),
    ensures
        match (r, spec_regex_literal(input@, start as int, start as int, false, Seq::empty())) {
            (Ok((v, e)), Ok((v2, e2))) => v@ == v2 && e == e2,
            (Err((k, a, l)), Err((k2, a2, l2))) => k == k2 && a == a2 && l == l2,
            _ => false,
        },
        r matches Ok((_, e)) ==> start <= e < input@.len(),
{
    let len = input.len();
    let mut buf = String::new();
    let mut in_class = false;
    let mut pos = start;
    loop
        invariant
            start <= pos <= len,
            len == input@.len(),
            spec_regex_literal(input@, start as int, start as int, false, Seq::empty()) == spec_regex_literal(
                input@,
                start as int,
                pos as int,
                in_class,
                buf@,
            ),
        decreases len - pos,
    {
        if pos >= len {
            return Err((LexErrorKind::MissingEndingQuote, start, len - start));
        }
        let c = input[pos];
        if c == '\\' {
            if pos + 1 < len {
                let c2 = input[pos + 1];
                if in_class || c2 != '"' {
                    push_char(&mut buf, '\\');
                }
                push_char(&mut buf, c2);
                pos = pos + 2;
            } else {
                pos = pos + 1;
            }
        } else if c == '"' && !in_class {
            return Ok((buf, pos));
        } else if c == '[' && !in_class {
            in_class = true;
            push_char(&mut buf, '[');
            pos = pos + 1;
        } else if c == ']' && in_class {
            in_class = false;
            push_char(&mut buf, ']');
            pos = pos + 1;
        } else {
            push_char(&mut buf, c);
            pos = pos + 1;
        }
    }
}

/// Lexes a regex written as a quoted literal whose opening quote stands
/// right before `start`, compiling it with `builder`.
pub fn lex_regex_from_literal<B: RegexBuilder + ?Sized>(input: &Vec<char>, start: usize, builder: &B) -> (r: LexResult<RegexExpr>)
    requires
        start <= input@.len(),
    ensures
        match spec_regex_literal(input@, start as int, start as int, false, Seq::empty()) {
            Err((k, a, l)) => r matches Err((k2, a2, l2)) && k2 == k && a2 == a && l2 == l,
            Ok((pattern, q)) => {
                &&& r is Ok <==> builder.accepts(pattern)
                &&& r matches Ok((e, p)) ==> e.spec_pattern() == pattern && e.spec_format()
                    == RegexFormat::Literal && p == q + 1
                &&& r matches Ok((e, p)) ==> forall|i: Seq<u8>| #[trigger] e.spec_matches(i)
                    == builder.pattern_matches(pattern, i)
                &&& r matches Err((k, a, l)) ==> k matches LexErrorKind::ParseRegex(err) && err@
                    == builder.build_error(pattern) && a == start && l == q - start
            },
        },
{
    let len = input.len();
    match lex_regex_literal_pattern(input, start) {
        Err(e) => Err(e),
        Ok((pattern, q)) => {
            let ghost p = pattern@;
            let text = pattern.as_str();
            assert(text@ == p);
            match RegexExpr::new(text, RegexFormat::Literal, builder) {
                Ok(regex) => {
                    assert(forall|i: Seq<u8>| #[trigger] regex.spec_matches(i) == builder.pattern_matches(p, i));
                    Ok((regex, q + 1))
                },
                Err(err) => Err((LexErrorKind::ParseRegex(err), start, q - start)),
            }
        },
    }
}

/// Lexes a regex written as a raw string whose `r` stands right before
/// `pos`, compiling it with `builder`.
pub fn lex_regex_from_raw_string<B: RegexBuilder + ?Sized>(input: &Vec<char>, pos: usize, builder: &B) -> (r: LexResult<RegexExpr>)
    requires
        pos <= input@.len(),
    ensures
        match spec_raw_string(input@, pos as int) {
            Err((k, a, l)) => r matches Err((k2, a2, l2)) && k2 == k && a2 == a && l2 == l,
            Ok((a, b, h, e)) => {
                &&& r is Ok <==> builder.accepts(input@.subrange(a, b))
                &&& r matches Ok((x, p)) ==> x.spec_pattern() == input@.subrange(a, b) && x.spec_format()
                    == RegexFormat::Raw(h as u8) && p == e
                &&& r matches Ok((x, p)) ==> forall|i: Seq<u8>| #[trigger] x.spec_matches(i)
                    == builder.pattern_matches(input@.subrange(a, b), i)
                &&& r matches Err((k, s, l)) ==> k matches LexErrorKind::ParseRegex(err) && err@
                    == builder.build_error(input@.subrange(a, b)) && s == e && l == input@.len() - e
            },
        },
{
    match lex_raw_string(input, pos) {
        Err(e) => Err(e),
        Ok((a, b, h, e)) => {
            proof {
                crate::lex::lemma_raw_string_bounds(input@, pos as int);
            }
            let pattern = string_of(input, a, b);
            let ghost p = pattern@;
            let text = pattern.as_str();
            assert(text@ == p);
            match RegexExpr::new(text, RegexFormat::Raw(h), builder) {
                Ok(regex) => {
                    assert(forall|i: Seq<u8>| #[trigger] regex.spec_matches(i) == builder.pattern_matches(p, i));
                    Ok((regex, e))
                },
                Err(err) => Err((LexErrorKind::ParseRegex(err), e, input.len() - e)),
            }
        },
    }
}

impl RegexExpr {
    /// Lexes a regex from the start of `input`: a quoted literal or a raw
    /// string, compiled with the parser's regex builder. Positions count
    /// characters of `input`.
    pub fn lex_with(input: &str, parser: &FilterParser<'_>) -> (r: LexResult<RegexExpr>)
        ensures
            input@.len() == 0 ==> (r matches Err((k, a, l)) && k == LexErrorKind::EOF && a == 0 && l == 0),
            input@.len() > 0 && input@[0] != '"' && input@[0] != 'r' ==> (r matches Err((k, a, l)) && k
                == LexErrorKind::ExpectedName("\" or r") && a == 0 && l == input@.len()),
            input@.len() > 0 && input@[0] == '"' ==> match spec_regex_literal(input@, 1, 1, false, Seq::empty()) {
                Err((k, a, l)) => r matches Err((k2, a2, l2)) && k2 == k && a2 == a && l2 == l,
                Ok((pattern, q)) => {
                    &&& r is Ok <==> parser.spec_settings().builder_accepts(pattern)
                    &&& r matches Ok((e, p)) ==> e.spec_pattern() == pattern && e.spec_format()
                        == RegexFormat::Literal && p == q + 1
                    &&& r matches Ok((e, p)) ==> forall|i: Seq<u8>| #[trigger] e.spec_matches(i)
                        == parser.spec_settings().builder_matches(pattern, i)
                    &&& r matches Err((k, a, l)) ==> k matches LexErrorKind::ParseRegex(err) && err@
                        == parser.spec_settings().builder_error(pattern) && a == 1 && l == q - 1
                },
            },
            input@.len() > 0 && input@[0] == 'r' ==> match spec_raw_string(input@, 1) {
                Err((k, a, l)) => r matches Err((k2, a2, l2)) && k2 == k && a2 == a && l2 == l,
                Ok((a, b, h, e)) => {
                    &&& r is Ok <==> parser.spec_settings().builder_accepts(input@.subrange(a, b))
                    &&& r matches Ok((x, p)) ==> x.spec_pattern() == input@.subrange(a, b)
                        && x.spec_format() == RegexFormat::Raw(h as u8) && p == e
                    &&& r matches Ok((x, p)) ==> forall|i: Seq<u8>| #[trigger] x.spec_matches(i)
                        == parser.spec_settings().builder_matches(input@.subrange(a, b), i)
                    &&& r matches Err((k, s, l)) ==> k matches LexErrorKind::ParseRegex(err) && err@
                        == parser.spec_settings().builder_error(input@.subrange(a, b)) && s == e && l
                        == input@.len() - e
                },
            },
    {
        let chars = chars_of(input);
        if chars.len() == 0 {
            return Err((LexErrorKind::EOF, 0, 0));
        }
        let builder = parser.settings().regex_builder();
        if chars[0] == '"' {
            lex_regex_from_literal(&chars, 1, builder)
        } else if chars[0] == 'r' {
            lex_regex_from_raw_string(&chars, 1, builder)
        } else {
            Err((LexErrorKind::ExpectedName("\" or r"), 0, chars.len()))
        }
    }
}

} // verus!

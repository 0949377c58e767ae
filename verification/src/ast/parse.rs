use vstd::prelude::*;
use vstd::string::*;

use std::sync::Arc;

use crate::lex::{
    chars_of, decimal, lex_message, push_decimal, push_repeated, push_str, repeated, LexErrorKind,
};
use crate::rhs_types::regex::{
    error_view_of_build, regex_build_error, regex_compiles, regex_matches, ErrorView, RegexBuilder,
    RegexDefaultBuilder,
};
use crate::scheme::Scheme;

verus! {

/// The number of line breaks in `s`.
pub open spec fn newline_count(s: Seq<char>) -> nat
    decreases s.len(),
{
    if s.len() == 0 {
        0
    } else {
        newline_count(s.drop_last()) + if s.last() == '\n' {
            1nat
        } else {
            0nat
        }
    }
}

/// The start of the line that position `i` of `s` lies on: right after the
/// last line break before `i`, or 0.
pub open spec fn line_start(s: Seq<char>, i: int) -> int
    decreases i,
{
    if i <= 0 {
        0
    } else if s[i - 1] == '\n' {
        i
    } else {
        line_start(s, i - 1)
    }
}

/// The end of the line that starts at `i`: the first line break at or
/// after `i`, or the end of `s`.
pub open spec fn line_end(s: Seq<char>, i: int) -> int
    decreases s.len() - i,
{
    if i >= s.len() {
        s.len() as int
    } else if s[i] == '\n' {
        i
    } else {
        line_end(s, i + 1)
    }
}

/// Bounds of the line around a position.
pub proof fn lemma_line_bounds(s: Seq<char>, i: int)
    requires
        0 <= i <= s.len(),
    ensures
        0 <= line_start(s, i) <= i,
        line_start(s, i) <= line_end(s, line_start(s, i)) <= s.len(),
        i <= line_end(s, line_start(s, i)),
        forall|j: int| line_start(s, i) <= j < line_end(s, line_start(s, i)) ==> #[trigger] s[j] != '\n',
        line_end(s, line_start(s, i)) < s.len() ==> s[line_end(s, line_start(s, i))] == '\n',
{
    lemma_line_start(s, i);
    lemma_line_end(s, line_start(s, i), i);
}

/// No line break stands between the start of a line and a position on it.
proof fn lemma_line_start(s: Seq<char>, i: int)
    requires
        0 <= i <= s.len(),
    ensures
        0 <= line_start(s, i) <= i,
        forall|j: int| line_start(s, i) <= j < i ==> #[trigger] s[j] != '\n',
    decreases i,
{
    if i > 0 && s[i - 1] != '\n' {
        lemma_line_start(s, i - 1);
    }
}

/// The end of a line lies after every position of the line that has no
/// line break before it.
proof fn lemma_line_end(s: Seq<char>, k: int, i: int)
    requires
        0 <= k <= i <= s.len(),
        forall|j: int| k <= j < i ==> #[trigger] s[j] != '\n',
    ensures
        i <= line_end(s, k) <= s.len(),
        forall|j: int| k <= j < line_end(s, k) ==> #[trigger] s[j] != '\n',
        line_end(s, k) < s.len() ==> s[line_end(s, k)] == '\n',
    decreases s.len() - k,
{
    if k < s.len() && s[k] != '\n' {
        lemma_line_end(s, k + 1, if i > k { i } else { k + 1 });
    }
}

/// The text of a parse error on line `line_number` (counted from 0) whose
/// span starts at `span_start` (counted from 0) and has `span_len`
/// characters, with the given line of input and message.
pub open spec fn parse_error_text(
    line_number: nat,
    span_start: nat,
    span_len: nat,
    input: Seq<char>,
    message: Seq<char>,
) -> Seq<char> {
    "Filter parsing error ("@ + decimal(line_number + 1) + ":"@ + decimal(span_start + 1) + "):\n"@ + input + "\n"@
        + repeated(' ', span_start) + repeated('^', if span_len == 0 { 1 } else { span_len }) + " "@ + message
        + "\n"@
}

/// An opaque filter parsing error associated with the input it came from.
///
/// It gives the line of the input where the error occurred, its number,
/// and the span of the bad input on it. Positions count characters.
#[derive(Debug, PartialEq)]
pub struct ParseError<'i> {
    kind: LexErrorKind,
    input: &'i str,
    line_number: usize,
    span_start: usize,
    span_len: usize,
}

impl<'i> ParseError<'i> {
    /// The error that occurred.
    pub closed spec fn spec_kind(&self) -> LexErrorKind {
        self.kind
    }

    /// The line of the input where the error occurred.
    pub closed spec fn spec_input(&self) -> Seq<char> {
        self.input@
    }

    /// The number of the line, counted from 0.
    pub closed spec fn spec_line_number(&self) -> usize {
        self.line_number
    }

    /// The start of the bad input on the line.
    pub closed spec fn spec_span_start(&self) -> usize {
        self.span_start
    }

    /// The number of characters of the bad input on the line.
    pub closed spec fn spec_span_len(&self) -> usize {
        self.span_len
    }

    /// Creates a new error for the input, the error kind and the span of
    /// `span_len` characters from `span_start` in the input.
    ///
    /// The error keeps the line on which the span starts, with the span's
    /// start counted from that line's start and its length cut at that
    /// line's end.
    pub fn new(input: &'i str, kind: LexErrorKind, span_start: usize, span_len: usize) -> (r: Self)
        requires
            span_start + span_len <= input@.len(),
        ensures
            r.spec_kind() == kind,
            r.spec_line_number() == newline_count(input@.subrange(0, span_start as int)),
            r.spec_input() == input@.subrange(
                line_start(input@, span_start as int),
                line_end(input@, line_start(input@, span_start as int)),
            ),
            r.spec_span_start() == span_start - line_start(input@, span_start as int),
            r.spec_span_len() == if line_end(input@, line_start(input@, span_start as int)) < input@.len() {
                vstd::math::min(span_len as int, line_end(input@, line_start(input@, span_start as int)) - span_start)
            } else {
                span_len as int
            },
    {
        let chars = chars_of(input);
        let mut line_number: usize = 0;
        let mut start: usize = 0;
        let mut i: usize = 0;
        while i < span_start
            invariant
                i <= span_start,
                span_start <= chars@.len(),
                chars@ == input@,
                line_number == newline_count(chars@.subrange(0, i as int)),
                line_number <= i,
                start == line_start(chars@, i as int),
            decreases span_start - i,
        {
            let ghost prefix = chars@.subrange(0, i as int);
            assert(chars@.subrange(0, i + 1).drop_last() =~= prefix);
            if chars[i] == '\n' {
                line_number = line_number + 1;
                start = i + 1;
            }
            i = i + 1;
        }
        proof {
            lemma_line_bounds(chars@, span_start as int);
        }
        let mut end = start;
        while end < chars.len() && chars[end] != '\n'
            invariant
                start <= end <= chars@.len(),
                line_end(chars@, start as int) == line_end(chars@, end as int),
            decreases chars@.len() - end,
        {
            end = end + 1;
        }
        let line = input.substring_char(start, end);
        let len = if end < chars.len() {
            if span_len < end - span_start {
                span_len
            } else {
                end - span_start
            }
        } else {
            span_len
        };
        ParseError { kind, input: line, line_number, span_start: span_start - start, span_len: len }
    }

    /// The error that occurred.
    pub fn kind(&self) -> (r: &LexErrorKind)
        ensures
            *r == self.spec_kind(),
    {
        &self.kind
    }

    /// The line of the input where the error occurred.
    pub fn input(&self) -> (r: &'i str)
        ensures
            r@ == self.spec_input(),
    {
        self.input
    }

    /// The number of the line, counted from 0.
    pub fn line_number(&self) -> (r: usize)
        ensures
            r == self.spec_line_number(),
    {
        self.line_number
    }

    /// The start of the bad input on the line.
    pub fn span_start(&self) -> (r: usize)
        ensures
            r == self.spec_span_start(),
    {
        self.span_start
    }

    /// The number of characters of the bad input on the line.
    pub fn span_len(&self) -> (r: usize)
        ensures
            r == self.spec_span_len(),
    {
        self.span_len
    }

    /// The error as text: a heading with the line and the column where the
    /// span starts, both counted from 1; the line of input; and a mark of
    /// `^` under the span (one at least), followed by the message of the
    /// error's kind.
    pub fn to_string(&self) -> (r: String)
        ensures
            r@ == parse_error_text(
                self.spec_line_number() as nat,
                self.spec_span_start() as nat,
                self.spec_span_len() as nat,
                self.spec_input(),
                lex_message(self.spec_kind()),
            ),
    {
        let mut r = String::new();
        push_str(&mut r, "Filter parsing error (");
        push_decimal(&mut r, self.line_number as u128 + 1);
        push_str(&mut r, ":");
        push_decimal(&mut r, self.span_start as u128 + 1);
        push_str(&mut r, "):\n");
        push_str(&mut r, self.input);
        push_str(&mut r, "\n");
        push_repeated(&mut r, ' ', self.span_start);
        push_repeated(&mut r, '^', if self.span_len == 0 { 1 } else { self.span_len });
        push_str(&mut r, " ");
        let message = self.kind.to_string();
        push_str(&mut r, message.as_str());
        push_str(&mut r, "\n");
        r
    }
}

/// Parser settings.
pub struct ParserSettings {
    regex_builder: Arc<Box<dyn RegexBuilder>>,
    /// Maximum number of star metacharacters allowed in a wildcard.
    /// Default: unlimited.
    pub wildcard_star_limit: usize,
}

impl ParserSettings {
    /// The maximum number of stars allowed in a wildcard.
    pub closed spec fn spec_star_limit(&self) -> usize {
        self.wildcard_star_limit
    }

    /// Whether the regex builder of the settings compiles `pattern`.
    pub closed spec fn builder_accepts(&self, pattern: Seq<char>) -> bool {
        self.regex_builder.accepts(pattern)
    }

    /// Whether the regex that the builder of the settings compiles from
    /// `pattern` matches somewhere in `input`.
    pub closed spec fn builder_matches(&self, pattern: Seq<char>, input: Seq<u8>) -> bool {
        self.regex_builder.pattern_matches(pattern, input)
    }

    /// The error that the builder of the settings reports for `pattern`.
    pub closed spec fn builder_error(&self, pattern: Seq<char>) -> ErrorView {
        self.regex_builder.build_error(pattern)
    }
}

impl Clone for ParserSettings {
    fn clone(&self) -> (r: Self)
        ensures
            r.spec_star_limit() == self.spec_star_limit(),
            forall|p: Seq<char>| #[trigger] r.builder_accepts(p) == self.builder_accepts(p),
            forall|p: Seq<char>, i: Seq<u8>| #[trigger] r.builder_matches(p, i) == self.builder_matches(p, i),
            forall|p: Seq<char>| #[trigger] r.builder_error(p) == self.builder_error(p),
    {
        ParserSettings { regex_builder: self.regex_builder.clone(), wildcard_star_limit: self.wildcard_star_limit }
    }
}

impl Default for ParserSettings {
    fn default() -> (r: Self)
        ensures
            r.spec_star_limit() == usize::MAX,
            forall|p: Seq<char>| #[trigger] r.builder_accepts(p) == regex_compiles(p, 10485760, 2097152),
            forall|p: Seq<char>, i: Seq<u8>| #[trigger] r.builder_matches(p, i) == regex_matches(p, i),
            forall|p: Seq<char>| #[trigger] r.builder_error(p) == error_view_of_build(
                regex_build_error(p, 10485760, 2097152),
            ),
    {
        let builder: Box<dyn RegexBuilder> = Box::new(RegexDefaultBuilder::default());
        let ghost b = builder;
        let shared = Arc::new(builder);
        assert(shared == b);
        ParserSettings { regex_builder: shared, wildcard_star_limit: usize::MAX }
    }
}

impl ParserSettings {
    /// Returns the regex builder.
    pub fn regex_builder(&self) -> (r: &Box<dyn RegexBuilder>)
        ensures
            forall|p: Seq<char>| #[trigger] r.accepts(p) == self.builder_accepts(p),
            forall|p: Seq<char>, i: Seq<u8>| #[trigger] r.pattern_matches(p, i) == self.builder_matches(p, i),
            forall|p: Seq<char>| #[trigger] r.build_error(p) == self.builder_error(p),
    {
        &*self.regex_builder
    }

    /// Returns the wildcard star limit.
    pub fn wildcard_star_limit(&self) -> (r: usize)
        ensures
            r == self.spec_star_limit(),
    {
        self.wildcard_star_limit
    }
}

/// A parser of filters over the fields and functions of a scheme.
pub struct FilterParser<'s> {
    scheme: &'s Scheme,
    settings: ParserSettings,
}

impl<'s> FilterParser<'s> {
    /// The scheme that the parser reads names from.
    pub closed spec fn spec_scheme(&self) -> &'s Scheme {
        self.scheme
    }

    /// The wildcard star limit of the parser's settings.
    pub closed spec fn spec_star_limit(&self) -> usize {
        self.settings.spec_star_limit()
    }

    /// The settings of the parser.
    pub closed spec fn spec_settings(&self) -> ParserSettings {
        self.settings
    }

    /// Creates a parser with default settings: no wildcard star limit and
    /// the default regex builder.
    pub fn new(scheme: &'s Scheme) -> (r: Self)
        ensures
            r.spec_scheme() == scheme,
            r.spec_star_limit() == usize::MAX,
            forall|p: Seq<char>| #[trigger] r.spec_settings().builder_accepts(p) == regex_compiles(p, 10485760, 2097152),
            forall|p: Seq<char>, i: Seq<u8>| #[trigger] r.spec_settings().builder_matches(p, i) == regex_matches(p, i),
            forall|p: Seq<char>| #[trigger] r.spec_settings().builder_error(p) == error_view_of_build(
                regex_build_error(p, 10485760, 2097152),
            ),
    {
        FilterParser { scheme, settings: ParserSettings::default() }
    }

    /// Creates a parser with the given settings.
    pub fn with_settings(scheme: &'s Scheme, settings: ParserSettings) -> (r: Self)
        ensures
            r.spec_scheme() == scheme,
            r.spec_star_limit() == settings.spec_star_limit(),
            r.spec_settings() == settings,
    {
        FilterParser { scheme, settings }
    }

    /// Returns the scheme of the parser.
    pub fn scheme(&self) -> (r: &'s Scheme)
        ensures
            r == self.spec_scheme(),
    {
        self.scheme
    }

    /// Returns the settings of the parser.
    pub fn settings(&self) -> (r: &ParserSettings)
        ensures
            r.spec_star_limit() == self.spec_star_limit(),
            *r == self.spec_settings(),
    {
        &self.settings
    }

    /// Sets the maximum number of stars allowed in a wildcard.
    pub fn wildcard_set_star_limit(&mut self, wildcard_star_limit: usize)
        ensures
            final(self).spec_star_limit() == wildcard_star_limit,
            final(self).spec_scheme() == old(self).spec_scheme(),
            forall|p: Seq<char>| #[trigger] final(self).spec_settings().builder_accepts(p) == old(
                self,
            ).spec_settings().builder_accepts(p),
            forall|p: Seq<char>, i: Seq<u8>| #[trigger] final(self).spec_settings().builder_matches(p, i) == old(
                self,
            ).spec_settings().builder_matches(p, i),
            forall|p: Seq<char>| #[trigger] final(self).spec_settings().builder_error(p) == old(
                self,
            ).spec_settings().builder_error(p),
    {
        self.settings.wildcard_star_limit = wildcard_star_limit;
    }

    /// Returns the maximum number of stars allowed in a wildcard.
    pub fn wildcard_get_star_limit(&self) -> (r: usize)
        ensures
            r == self.spec_star_limit(),
    {
        self.settings.wildcard_star_limit
    }
}

} // verus!

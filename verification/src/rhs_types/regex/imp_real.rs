use vstd::prelude::*;

use regex_automata::meta::{Builder, Config};
use regex_automata::nfa::thompson::WhichCaptures;
use regex_automata::util::syntax;
use regex_automata::MatchKind;

use super::{Error, ErrorView, RegexBuilder, RegexMatcher};

verus! {

#[verifier::external_type_specification]
#[verifier::external_body]
pub struct ExMetaRegex(regex_automata::meta::Regex);

/// Whether `regex_automata` compiles `pattern` with the configuration that
/// [`RegexDefaultBuilder`] derives from the two limits.
pub uninterp spec fn regex_compiles(pattern: Seq<char>, compiled_size_limit: usize, dfa_size_limit: usize) -> bool;

/// What the build error says when `regex_automata` fails to compile
/// `pattern` with the configuration of [`RegexDefaultBuilder`]: the size
/// limit that it exceeded, if that is why; its syntax error, if that is
/// why; and its message.
pub uninterp spec fn regex_build_error(pattern: Seq<char>, compiled_size_limit: usize, dfa_size_limit: usize) -> (
    Option<usize>,
    Option<Seq<char>>,
    Seq<char>,
);

/// Whether a regex that `regex_automata` compiled from `pattern`, with the
/// configuration of [`RegexDefaultBuilder`], matches somewhere in `input`.
pub uninterp spec fn regex_matches(pattern: Seq<char>, input: Seq<u8>) -> bool;

/// The characters of an optional string.
pub open spec fn opt_view(o: Option<String>) -> Option<Seq<char>> {
    match o {
        Some(s) => Some(s@),
        None => None,
    }
}

/// Compiles `pattern` with `regex_automata`'s meta regex builder: leftmost
/// first matching, no Unicode, no UTF-8 requirement, the NFA and DFA size
/// limited to `compiled_size_limit` and the lazy DFA cache to
/// `dfa_size_limit`. The compiled regex keeps its pattern; a build error
/// comes back as its size limit, its syntax error and its message.
///
/// Trusted: calls `meta::Builder::build` and, on failure, the error's
/// `size_limit`, `syntax_error` and `Display`. The contract claims that
/// the outcome is a function of the pattern and the two limits, that the
/// regex keeps the pattern it was compiled from, and, as the documentation
/// of `size_limit` says, that a size limit reported is the configured one.
#[verifier::external_body]
fn build_meta_regex(pattern: &str, compiled_size_limit: usize, dfa_size_limit: usize) -> (r: Result<
    DefaultRegex,
    (Option<usize>, Option<String>, String),
>)
    ensures
        r is Ok <==> regex_compiles(pattern@, compiled_size_limit, dfa_size_limit),
        r matches Ok(re) ==> re@ == pattern@,
        r matches Err(parts) ==> (parts.0, opt_view(parts.1), parts.2@) == regex_build_error(
            pattern@,
            compiled_size_limit,
            dfa_size_limit,
        ),
        r matches Err(parts) ==> (parts.0 matches Some(limit) ==> limit == compiled_size_limit),
{
    let config = Config::new().match_kind(MatchKind::LeftmostFirst).utf8_empty(false).dfa(false)
        .nfa_size_limit(Some(compiled_size_limit)).onepass(false).dfa_size_limit(Some(compiled_size_limit))
        .hybrid_cache_capacity(dfa_size_limit).which_captures(WhichCaptures::Implicit);
    let syntax_config = syntax::Config::new().unicode(false).utf8(false);
    match Builder::new().configure(config).syntax(syntax_config).build(pattern) {
        Ok(re) => Ok(DefaultRegex(re, pattern.to_owned())),
        Err(e) => Err((e.size_limit(), e.syntax_error().map(|s| s.to_string()), e.to_string())),
    }
}

/// Whether the compiled regex matches somewhere in `input`.
///
/// Trusted: calls `meta::Regex::is_match`; the contract claims that the
/// answer is a function of the pattern the regex was compiled from (its
/// configuration being fixed) and of the input.
#[verifier::external_body]
fn meta_is_match(re: &DefaultRegex, input: &[u8]) -> (r: bool)
    ensures
        r == regex_matches(re@, input@),
{
    re.0.is_match(input)
}

/// What the library's error says for a failed build, given what the build
/// error says: the size limit that it exceeded, else its syntax error, else
/// its message.
pub open spec fn error_view_of_build(parts: (Option<usize>, Option<Seq<char>>, Seq<char>)) -> ErrorView {
    match (parts.0, parts.1) {
        (Some(limit), _) => ErrorView::CompiledTooBig(limit),
        (None, Some(m)) => ErrorView::Syntax(m),
        (None, None) => ErrorView::Other(parts.2),
    }
}

/// The library's error for a failed build, given what the build error
/// says: the size limit that it exceeded, else its syntax error, else its
/// message.
pub fn error_of_build(size_limit: Option<usize>, syntax_message: Option<String>, message: String) -> (r: Error)
    ensures
        match (size_limit, syntax_message) {
            (Some(limit), _) => r == Error::CompiledTooBig(limit),
            (None, Some(m)) => r == Error::Syntax(m),
            (None, None) => r == Error::Other(message),
        },
        r@ == error_view_of_build((size_limit, opt_view(syntax_message), message@)),
{
    match size_limit {
        Some(limit) => Error::CompiledTooBig(limit),
        None => match syntax_message {
            Some(m) => Error::Syntax(m),
            None => Error::Other(message),
        },
    }
}

/// A regex compiled by `regex_automata`, with the pattern it was compiled
/// from.
#[derive(Debug)]
pub struct DefaultRegex(regex_automata::meta::Regex, String);

impl View for DefaultRegex {
    type V = Seq<char>;

    /// The pattern that the regex was compiled from.
    closed spec fn view(&self) -> Seq<char> {
        self.1@
    }
}

impl RegexMatcher for DefaultRegex {
    open spec fn matches(&self, input: Seq<u8>) -> bool {
        regex_matches(self@, input)
    }

    fn is_match(&self, input: &[u8]) -> (r: bool) {
        meta_is_match(self, input)
    }
}

/// Default regex builder using `regex_automata`.
#[derive(Debug)]
pub struct RegexDefaultBuilder {
    /// Approximate size limit of the compiled regular expression.
    pub compiled_size_limit: usize,
    /// Approximate size of the cache used by the DFA of a regex.
    pub dfa_size_limit: usize,
}

impl Clone for RegexDefaultBuilder {
    fn clone(&self) -> (r: Self)
        ensures
            r == *self,
    {
        RegexDefaultBuilder {
            compiled_size_limit: self.compiled_size_limit,
            dfa_size_limit: self.dfa_size_limit,
        }
    }
}

impl Default for RegexDefaultBuilder {
    fn default() -> (r: Self)
        ensures
            r.compiled_size_limit == 10485760,
            r.dfa_size_limit == 2097152,
    {
        RegexDefaultBuilder { compiled_size_limit: 10485760, dfa_size_limit: 2097152 }
    }
}

impl RegexBuilder for RegexDefaultBuilder {
    open spec fn accepts(&self, pattern: Seq<char>) -> bool {
        regex_compiles(pattern, self.compiled_size_limit, self.dfa_size_limit)
    }

    open spec fn pattern_matches(&self, pattern: Seq<char>, input: Seq<u8>) -> bool {
        regex_matches(pattern, input)
    }

    open spec fn build_error(&self, pattern: Seq<char>) -> ErrorView {
        error_view_of_build(regex_build_error(pattern, self.compiled_size_limit, self.dfa_size_limit))
    }

    fn build(&self, pattern: &str) -> (r: Result<Box<dyn RegexMatcher>, Error>)
        ensures
            r matches Err(Error::CompiledTooBig(limit)) ==> limit == self.compiled_size_limit,
    {
        match build_meta_regex(pattern, self.compiled_size_limit, self.dfa_size_limit) {
            Ok(re) => Ok(Box::new(re)),
            Err(parts) => Err(error_of_build(parts.0, parts.1, parts.2)),
        }
    }

}

} // verus!

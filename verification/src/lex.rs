use vstd::prelude::*;

use crate::rhs_types::regex::{error_message, Error as RegexError};
use crate::scheme::{UnknownFieldError, UnknownFunctionError};

verus! {

/// The reason why some input could not be lexed.
#[derive(Debug, PartialEq, Eq)]
pub enum LexErrorKind {
    /// A character of the named class was expected.
    ExpectedName(&'static str),
    /// The given literal was expected.
    ExpectedLiteral(&'static str),
    /// The input ended or could not be recognised.
    EOF,
    /// A quoted string lacks its closing quote.
    MissingEndingQuote,
    /// A backslash is followed by a character that it cannot escape.
    InvalidCharacterEscape,
    /// Fewer characters than required were left.
    CountMismatch {
        /// What was counted.
        name: &'static str,
        /// How many there were.
        actual: usize,
        /// How many were required.
        expected: usize,
    },
    /// A number could not be read in the given radix.
    ParseInt {
        /// The radix of the number.
        radix: u32,
    },
    /// The name is not registered in the scheme.
    UnknownIdentifier,
    /// The name is not that of a field.
    UnknownField(UnknownFieldError),
    /// The name is not that of a function.
    UnknownFunction(UnknownFunctionError),
    /// A regular expression could not be compiled.
    ParseRegex(RegexError),
}

/// The message that a lexing error reads as.
pub open spec fn lex_message(k: LexErrorKind) -> Seq<char> {
    match k {
        LexErrorKind::ExpectedName(n) => "expected "@ + n@,
        LexErrorKind::ExpectedLiteral(l) => "expected "@ + l@,
        LexErrorKind::EOF => "unrecognised input"@,
        LexErrorKind::MissingEndingQuote => "could not find an ending quote"@,
        LexErrorKind::InvalidCharacterEscape => "expected \\ to be followed by one of: \" \\ x or an octal digit"@,
        LexErrorKind::CountMismatch { name, actual, expected } => "expected "@ + decimal(expected as nat) + " "@
            + name@ + "s, but found "@ + decimal(actual as nat),
        LexErrorKind::ParseInt { radix } => "invalid number while parsing with radix "@ + decimal(radix as nat),
        LexErrorKind::UnknownIdentifier => "unknown identifier"@,
        LexErrorKind::UnknownField(_) => "unknown field"@,
        LexErrorKind::UnknownFunction(_) => "unknown function"@,
        LexErrorKind::ParseRegex(e) => "could not parse a regex: "@ + error_message(e@),
    }
}

impl LexErrorKind {
    /// The message that this error reads as.
    pub fn to_string(&self) -> (r: String)
        ensures
            r@ == lex_message(*self),
    {
        let mut r = String::new();
        match self {
            LexErrorKind::ExpectedName(n) => {
                push_str(&mut r, "expected ");
                push_str(&mut r, n);
            },
            LexErrorKind::ExpectedLiteral(l) => {
                push_str(&mut r, "expected ");
                push_str(&mut r, l);
            },
            LexErrorKind::EOF => push_str(&mut r, "unrecognised input"),
            LexErrorKind::MissingEndingQuote => push_str(&mut r, "could not find an ending quote"),
            LexErrorKind::InvalidCharacterEscape => {
                push_str(&mut r, "expected \\ to be followed by one of: \" \\ x or an octal digit")
            },
            LexErrorKind::CountMismatch { name, actual, expected } => {
                push_str(&mut r, "expected ");
                push_decimal(&mut r, *expected as u128);
                push_str(&mut r, " ");
                push_str(&mut r, name);
                push_str(&mut r, "s, but found ");
                push_decimal(&mut r, *actual as u128);
            },
            LexErrorKind::ParseInt { radix } => {
                push_str(&mut r, "invalid number while parsing with radix ");
                push_decimal(&mut r, *radix as u128);
            },
            LexErrorKind::UnknownIdentifier => push_str(&mut r, "unknown identifier"),
            LexErrorKind::UnknownField(_) => push_str(&mut r, "unknown field"),
            LexErrorKind::UnknownFunction(_) => push_str(&mut r, "unknown function"),
            LexErrorKind::ParseRegex(e) => {
                push_str(&mut r, "could not parse a regex: ");
                let m = e.to_string();
                push_str(&mut r, m.as_str());
            },
        }
        r
    }
}

/// The outcome of lexing from some position of an input: the value and the
/// position right after it, or the error with the start and the length of
/// the offending span.
pub type LexResult<T> = Result<(T, usize), (LexErrorKind, usize, usize)>;

/// The characters of a string, in order.
pub fn chars_of(s: &str) -> (v: Vec<char>)
    ensures
        v@ == s@,
{
    let mut v: Vec<char> = Vec::new();
    for c in it: s.chars()
        invariant
            v@ == it.seq().take(it.index() as int),
    {
        v.push(c);
    }
    v
}

/// Appends one character to a string.
///
/// Trusted: calls `String::push` of std, which appends the character at
/// the end; the contract claims exactly that of the string's characters.
#[verifier::external_body]
pub(crate) fn push_char(s: &mut String, c: char)
    ensures
        final(s)@ == old(s)@.push(c),
{
    s.push(c)
}

/// The character of the decimal digit `d`.
pub open spec fn digit_char(d: nat) -> char {
    (d + 48) as char
}

/// The decimal digits of `n`, most significant first, without leading
/// zeros (`0` is the single digit `0`).
pub open spec fn decimal(n: nat) -> Seq<char>
    decreases n,
{
    if n < 10 {
        seq![digit_char(n)]
    } else {
        decimal(n / 10).push(digit_char(n % 10))
    }
}

/// `n` copies of the character `c`.
pub open spec fn repeated(c: char, n: nat) -> Seq<char> {
    Seq::new(n, |_i: int| c)
}

/// Appends the characters of `t` to a string.
pub fn push_str(s: &mut String, t: &str)
    ensures
        final(s)@ == old(s)@ + t@,
{
    let chars = chars_of(t);
    let ghost start = s@;
    let mut i: usize = 0;
    while i < chars.len()
        invariant
            i <= chars@.len(),
            chars@ == t@,
            s@ == start + chars@.subrange(0, i as int),
        decreases chars@.len() - i,
    {
        push_char(s, chars[i]);
        i = i + 1;
        assert(s@ =~= start + chars@.subrange(0, i as int));
    }
    assert(chars@.subrange(0, i as int) =~= t@);
}

/// Appends the decimal digits of `n` to a string.
pub fn push_decimal(s: &mut String, n: u128)
    ensures
        final(s)@ == old(s)@ + decimal(n as nat),
    decreases n,
{
    let ghost start = s@;
    if n >= 10 {
        push_decimal(s, n / 10);
    }
    let d: u8 = (n % 10) as u8;
    push_char(s, (d + 48) as char);
    proof {
        if n >= 10 {
            assert(s@ =~= start + decimal(n as nat));
        } else {
            assert(s@ =~= start + decimal(n as nat));
        }
    }
}

/// Appends `n` copies of the character `c` to a string.
pub fn push_repeated(s: &mut String, c: char, n: usize)
    ensures
        final(s)@ == old(s)@ + repeated(c, n as nat),
{
    let ghost start = s@;
    let mut i: usize = 0;
    while i < n
        invariant
            i <= n,
            s@ == start + repeated(c, i as nat),
        decreases n - i,
    {
        push_char(s, c);
        i = i + 1;
        assert(s@ =~= start + repeated(c, i as nat));
    }
}

/// The string made of the characters `chars[from..to]`.
pub fn string_of(chars: &Vec<char>, from: usize, to: usize) -> (r: String)
    requires
        from <= to <= chars@.len(),
    ensures
        r@ == chars@.subrange(from as int, to as int),
{
    let mut r = String::new();
    let mut i = from;
    while i < to
        invariant
            from <= i <= to,
            to <= chars@.len(),
            r@ == chars@.subrange(from as int, i as int),
        decreases to - i,
    {
        push_char(&mut r, chars[i]);
        i = i + 1;
        assert(r@ =~= chars@.subrange(from as int, i as int));
    }
    r
}

/// The string that the given bytes encode in UTF-8, if they are valid
/// UTF-8.
///
/// Trusted: calls `String::from_utf8` of std, which succeeds exactly on
/// valid UTF-8 and then decodes it; the contract states that over vstd's
/// `valid_utf8` and `decode_utf8`.
#[verifier::external_body]
pub(crate) fn string_from_utf8(bytes: Vec<u8>) -> (r: Option<String>)
    ensures
        r is Some <==> vstd::utf8::valid_utf8(bytes@),
        r matches Some(s) ==> s@ == vstd::utf8::decode_utf8(bytes@),
{
    String::from_utf8(bytes).ok()
}

/// The UTF-8 encoding of one character, appended to `out`.
pub fn push_utf8(out: &mut Vec<u8>, c: char)
    ensures
        final(out)@ == old(out)@ + vstd::utf8::encode_scalar(c as u32),
{
    let v = c as u32;
    proof {
        vstd::utf8::char_is_scalar(c);
    }
    if v <= 0x7F {
        out.push((v & 0x7F) as u8);
    } else if v <= 0x7FF {
        out.push(0xC0 | ((v >> 6) & 0x1F) as u8);
        out.push(0x80 | (v & 0x3F) as u8);
    } else if v <= 0xFFFF {
        out.push(0xE0 | ((v >> 12) & 0x0F) as u8);
        out.push(0x80 | ((v >> 6) & 0x3F) as u8);
        out.push(0x80 | (v & 0x3F) as u8);
    } else {
        out.push(0xF0 | ((v >> 18) & 0x7) as u8);
        out.push(0x80 | ((v >> 12) & 0x3F) as u8);
        out.push(0x80 | ((v >> 6) & 0x3F) as u8);
        out.push(0x80 | (v & 0x3F) as u8);
    }
    assert(final(out)@ =~= old(out)@ + vstd::utf8::encode_scalar(c as u32));
}

/// Classes of characters that the lexers take runs of.
#[derive(Clone, Copy, PartialEq, Eq, Structural)]
pub enum CharClass {
    /// ASCII letters and digits, and `_`.
    Identifier,
    /// ASCII hexadecimal digits.
    HexDigit,
    /// The character `#`.
    Hash,
}

/// Whether `c` belongs to the class `class`.
pub open spec fn in_class(c: char, class: CharClass) -> bool {
    match class {
        CharClass::Identifier => ('a' <= c && c <= 'z') || ('A' <= c && c <= 'Z') || ('0' <= c && c
            <= '9') || c == '_',
        CharClass::HexDigit => ('a' <= c && c <= 'f') || ('A' <= c && c <= 'F') || ('0' <= c && c
            <= '9'),
        CharClass::Hash => c == '#',
    }
}

/// Whether `c` belongs to the class `class`.
pub fn is_in_class(c: char, class: CharClass) -> (r: bool)
    ensures
        r == in_class(c, class),
{
    match class {
        CharClass::Identifier => ('a' <= c && c <= 'z') || ('A' <= c && c <= 'Z') || ('0' <= c && c
            <= '9') || c == '_',
        CharClass::HexDigit => ('a' <= c && c <= 'f') || ('A' <= c && c <= 'F') || ('0' <= c && c
            <= '9'),
        CharClass::Hash => c == '#',
    }
}

/// The first position at or after `pos` whose character is not in
/// `class`, or the end of `s`.
pub open spec fn run_end(s: Seq<char>, pos: int, class: CharClass) -> int
    decreases s.len() - pos,
{
    if pos >= s.len() || pos < 0 || !in_class(s[pos], class) {
        pos
    } else {
        run_end(s, pos + 1, class)
    }
}

/// A run ends at or after its start, and no later than the end.
pub proof fn lemma_run_end_bounds(s: Seq<char>, pos: int, class: CharClass)
    requires
        0 <= pos <= s.len(),
    ensures
        pos <= run_end(s, pos, class) <= s.len(),
        forall|i: int| pos <= i < run_end(s, pos, class) ==> in_class(#[trigger] s[i], class),
        run_end(s, pos, class) < s.len() ==> !in_class(s[run_end(s, pos, class)], class),
    decreases s.len() - pos,
{
    if pos < s.len() && in_class(s[pos], class) {
        lemma_run_end_bounds(s, pos + 1, class);
    }
}

/// The end of the run of characters of `class` that starts at `pos`.
pub fn scan_run(input: &Vec<char>, pos: usize, class: CharClass) -> (r: usize)
    requires
        pos <= input@.len(),
    ensures
        r == run_end(input@, pos as int, class),
{
    let mut i = pos;
    while i < input.len() && is_in_class(input[i], class)
        invariant
            pos <= i <= input@.len(),
            run_end(input@, pos as int, class) == run_end(input@, i as int, class),
        decreases input@.len() - i,
    {
        i = i + 1;
    }
    i
}

/// The outcome of taking a non-empty run of characters of `class` from
/// `pos`: its end, or the error naming the class over the rest of the
/// input.
pub open spec fn spec_take_while(s: Seq<char>, pos: int, class: CharClass, name: &'static str) -> Result<
    int,
    (LexErrorKind, int, int),
> {
    let end = run_end(s, pos, class);
    if end == pos {
        Err((LexErrorKind::ExpectedName(name), pos, s.len() - pos))
    } else {
        Ok(end)
    }
}

/// Takes a non-empty run of characters of `class` from `pos`.
pub fn take_while(input: &Vec<char>, pos: usize, class: CharClass, name: &'static str) -> (r: Result<
    usize,
    (LexErrorKind, usize, usize),
>)
    requires
        pos <= input@.len(),
    ensures
        match (r, spec_take_while(input@, pos as int, class, name)) {
            (Ok(e), Ok(f)) => e == f,
            (Err((k, a, l)), Err((k2, a2, l2))) => k == k2 && a == a2 && l == l2,
            _ => false,
        },
{
    let end = scan_run(input, pos, class);
    if end == pos {
        Err((LexErrorKind::ExpectedName(name), pos, input.len() - pos))
    } else {
        Ok(end)
    }
}

/// Whether the characters of `lit` stand in `s` from `pos` on.
pub open spec fn starts_with_at(s: Seq<char>, pos: int, lit: Seq<char>) -> bool {
    &&& 0 <= pos
    &&& pos + lit.len() <= s.len()
    &&& s.subrange(pos, pos + lit.len()) == lit
}

/// Whether `c` stands at `pos`.
pub open spec fn char_at_is(s: Seq<char>, pos: int, c: char) -> bool {
    0 <= pos < s.len() && s[pos] == c
}

/// Whether `c` stands at `pos` of the input.
pub fn next_is(input: &Vec<char>, pos: usize, c: char) -> (r: bool)
    ensures
        r == char_at_is(input@, pos as int, c),
{
    pos < input.len() && input[pos] == c
}


/// The outcome of lexing a dotted name (identifier runs joined by `.`) from
/// `pos`: the end of the name, or the position where an identifier
/// character was expected.
pub open spec fn spec_dotted_name(s: Seq<char>, pos: int) -> Result<int, int>
    decreases s.len() - pos,
{
    if 0 <= pos <= s.len() {
        let e = run_end(s, pos, CharClass::Identifier);
        proof {
            lemma_run_end_bounds(s, pos, CharClass::Identifier);
        }
        if e == pos {
            Err(pos)
        } else if e < s.len() && s[e] == '.' {
            spec_dotted_name(s, e + 1)
        } else {
            Ok(e)
        }
    } else {
        Err(pos)
    }
}

/// A dotted name lexed from `pos` ends after it, within the input.
pub proof fn lemma_dotted_name_bounds(s: Seq<char>, pos: int)
    requires
        0 <= pos <= s.len(),
    ensures
        spec_dotted_name(s, pos) matches Ok(e) ==> pos < e <= s.len(),
        spec_dotted_name(s, pos) matches Err(p) ==> pos <= p <= s.len(),
    decreases s.len() - pos,
{
    let e = run_end(s, pos, CharClass::Identifier);
    lemma_run_end_bounds(s, pos, CharClass::Identifier);
    if e != pos && e < s.len() && s[e] == '.' {
        lemma_dotted_name_bounds(s, e + 1);
    }
}

/// Whether `c` is an ASCII letter or digit, or `_`.
pub open spec fn ascii_word_char(c: char) -> bool {
    ('a' <= c && c <= 'z') || ('A' <= c && c <= 'Z') || ('0' <= c && c <= '9') || c == '_'
}

/// A dotted name is made of ASCII letters, digits, `_` and `.` only, and
/// it reaches up to the first character outside that set (or the end of
/// the input), so that spaces, operators and brackets always end a name.
/// It starts and ends with a letter, digit or `_`.
pub proof fn law_dotted_name_chars(s: Seq<char>, pos: int)
    requires
        0 <= pos <= s.len(),
    ensures
        spec_dotted_name(s, pos) matches Ok(e) ==> {
            &&& pos < e <= s.len()
            &&& forall|i: int| pos <= i < e ==> ascii_word_char(#[trigger] s[i]) || s[i] == '.'
            &&& ascii_word_char(s[pos])
            &&& ascii_word_char(s[e - 1])
            &&& e < s.len() ==> !ascii_word_char(s[e]) && s[e] != '.'
        },
    decreases s.len() - pos,
{
    let e = run_end(s, pos, CharClass::Identifier);
    lemma_run_end_bounds(s, pos, CharClass::Identifier);
    if e != pos && e < s.len() && s[e] == '.' {
        law_dotted_name_chars(s, e + 1);
    }
    if e > pos {
        assert(in_class(s[pos], CharClass::Identifier));
        assert(in_class(s[e - 1], CharClass::Identifier));
    }
}

/// The identifier characters are exactly the ASCII letters and digits and
/// `_`.
pub proof fn law_identifier_class(c: char)
    ensures
        in_class(c, CharClass::Identifier) <==> ascii_word_char(c),
{
}

/// Lexes a dotted name from `pos`: runs of identifier characters joined
/// by `.`.
pub fn lex_dotted_name(input: &Vec<char>, pos: usize) -> (r: Result<usize, (LexErrorKind, usize, usize)>)
    requires
        pos <= input@.len(),
    ensures
        match spec_dotted_name(input@, pos as int) {
            Ok(e) => r == Ok::<usize, (LexErrorKind, usize, usize)>(e as usize),
            Err(p) => r matches Err((k, a, l)) && k == LexErrorKind::ExpectedName("identifier character")
                && a == p && l == input@.len() - p,
        },
{
    let mut cur = pos;
    loop
        invariant
            pos <= cur <= input@.len(),
            spec_dotted_name(input@, pos as int) == spec_dotted_name(input@, cur as int),
        decreases input@.len() - cur,
    {
        proof {
            lemma_run_end_bounds(input@, cur as int, CharClass::Identifier);
        }
        match take_while(input, cur, CharClass::Identifier, "identifier character") {
            Err(e) => {
                return Err(e);
            },
            Ok(end) => {
                if end < input.len() && input[end] == '.' {
                    cur = end + 1;
                } else {
                    return Ok(end);
                }
            },
        }
    }
}

/// The value of the digits `s` in `radix`, if each is a digit of that
/// radix.
pub open spec fn digits_value(s: Seq<char>, radix: nat) -> Option<int>
    decreases s.len(),
{
    if s.len() == 0 {
        Some(0)
    } else {
        match (digits_value(s.drop_last(), radix), digit_value(s.last(), radix)) {
            (Some(v), Some(d)) => Some(v * radix + d),
            _ => None,
        }
    }
}

/// The value of the digit `c` in `radix`, if it is one.
pub open spec fn digit_value(c: char, radix: nat) -> Option<int> {
    let v = if '0' <= c && c <= '9' {
        c as int - '0' as int
    } else if 'a' <= c && c <= 'z' {
        c as int - 'a' as int + 10
    } else if 'A' <= c && c <= 'Z' {
        c as int - 'A' as int + 10
    } else {
        radix as int
    };
    if v < radix {
        Some(v)
    } else {
        None
    }
}

/// The value of the digit `c` in `radix`, if it is one.
pub fn digit_of(c: char, radix: u32) -> (r: Option<u32>)
    requires
        radix <= 36,
    ensures
        match digit_value(c, radix as nat) {
            Some(v) => r == Some(v as u32),
            None => r is None,
        },
{
    let v: u32 = if '0' <= c && c <= '9' {
        (c as u32) - ('0' as u32)
    } else if 'a' <= c && c <= 'z' {
        (c as u32) - ('a' as u32) + 10
    } else if 'A' <= c && c <= 'Z' {
        (c as u32) - ('A' as u32) + 10
    } else {
        radix
    };
    if v < radix {
        Some(v)
    } else {
        None
    }
}

/// The digit values never decrease when a digit is added.
proof fn lemma_digits_value_nonneg(s: Seq<char>, radix: nat)
    requires
        radix >= 1,
    ensures
        digits_value(s, radix) matches Some(v) ==> v >= 0,
    decreases s.len(),
{
    if s.len() > 0 {
        lemma_digits_value_nonneg(s.drop_last(), radix);
        if let Some(v) = digits_value(s.drop_last(), radix) {
            assert(v * radix >= 0) by (nonlinear_arith)
                requires
                    v >= 0,
            ;
        }
    }
}

/// A prefix of digits with a value at most `v` has a value no greater
/// than the value of the whole.
proof fn lemma_digits_value_prefix(s: Seq<char>, i: int, radix: nat)
    requires
        radix >= 1,
        0 <= i <= s.len(),
        digits_value(s, radix) is Some,
    ensures
        digits_value(s.subrange(0, i), radix) is Some,
        digits_value(s.subrange(0, i), radix)->0 <= digits_value(s, radix)->0,
    decreases s.len() - i,
{
    if i == s.len() {
        assert(s.subrange(0, i) =~= s);
    } else {
        assert(s.drop_last() =~= s.subrange(0, s.len() - 1));
        lemma_digits_value_prefix(s.drop_last(), i, radix);
        assert(s.drop_last().subrange(0, i) =~= s.subrange(0, i));
        let v = digits_value(s.drop_last(), radix)->0;
        lemma_digits_value_nonneg(s.drop_last(), radix);
        let d = digit_value(s.last(), radix)->0;
        assert(v <= v * radix + d) by (nonlinear_arith)
            requires
                v >= 0,
                radix >= 1,
                d >= 0,
        ;
    }
}

/// The value that the characters `s[start..end]` denote in `radix`, with a
/// leading `-` for a negative number, if it is a 64-bit signed integer.
pub open spec fn number_value(s: Seq<char>, start: int, end: int, radix: nat) -> Option<int> {
    let negative = start < end && char_at_is(s, start, '-');
    let digits = if negative {
        s.subrange(start + 1, end)
    } else {
        s.subrange(start, end)
    };
    match digits_value(digits, radix) {
        Some(v) => {
            let value = if negative {
                -v
            } else {
                v
            };
            if digits.len() > 0 && i64::MIN <= value <= i64::MAX {
                Some(value)
            } else {
                None
            }
        },
        None => None,
    }
}

/// Reads the number `input[start..end]` in `radix`.
pub fn parse_number(input: &Vec<char>, start: usize, end: usize, radix: u32) -> (r: LexResult<i64>)
    requires
        start <= end <= input@.len(),
        2 <= radix <= 16,
    ensures
        match number_value(input@, start as int, end as int, radix as nat) {
            Some(v) => r matches Ok((x, e)) && x == v && e == end,
            None => r matches Err((k, a, l)) && k == (LexErrorKind::ParseInt { radix }) && a == start && l
                == end - start,
        },
{
    let negative = next_is(input, start, '-') && start < end;
    let first = if negative {
        start + 1
    } else {
        start
    };
    let ghost digits = input@.subrange(first as int, end as int);
    let bound: u64 = if negative {
        9223372036854775808u64
    } else {
        9223372036854775807u64
    };
    let mut value: u64 = 0;
    let mut i = first;
    let mut ok = first < end;
    while i < end
        invariant
            first <= i <= end <= input@.len(),
            digits == input@.subrange(first as int, end as int),
            bound == if negative { 9223372036854775808u64 } else { 9223372036854775807u64 },
            2 <= radix <= 16,
            ok ==> digits_value(input@.subrange(first as int, i as int), radix as nat) == Some(value as int),
            ok ==> value <= bound,
            ok ==> first < end,
            !ok ==> (first == end || digits_value(digits, radix as nat) is None || digits_value(digits, radix as nat)->0 > bound),
        decreases end - i,
    {
        let ghost prefix = input@.subrange(first as int, i as int);
        let ghost next = input@.subrange(first as int, i + 1);
        assert(next.drop_last() =~= prefix);
        assert(next.last() == input@[i as int]);
        match digit_of(input[i], radix) {
            Some(d) => {
                if ok {
                    if value > (bound - d as u64) / (radix as u64) {
                        proof {
                            assert(value * radix + d > bound) by (nonlinear_arith)
                                requires
                                    value > (bound - d) / (radix as int),
                                    radix >= 2,
                                    d >= 0,
                                    d <= bound,
                            ;
                            assert(digits_value(next, radix as nat) == Some(value * radix + d));
                            if digits_value(digits, radix as nat) is Some {
                                lemma_digits_value_prefix(digits, i + 1 - first, radix as nat);
                                assert(digits.subrange(0, i + 1 - first) =~= next);
                            }
                        }
                        ok = false;
                    } else {
                        proof {
                            assert(value * radix + d <= bound) by (nonlinear_arith)
                                requires
                                    value <= (bound - d) / (radix as int),
                                    radix >= 2,
                                    d >= 0,
                                    d <= bound,
                            ;
                        }
                        value = value * (radix as u64) + d as u64;
                    }
                }
            },
            None => {
                proof {
                    if digits_value(digits, radix as nat) is Some {
                        lemma_digits_value_prefix(digits, i + 1 - first, radix as nat);
                        assert(digits.subrange(0, i + 1 - first) =~= next);
                    }
                }
                ok = false;
            },
        }
        i = i + 1;
    }
    proof {
        assert(input@.subrange(first as int, end as int) =~= digits);
    }
    if !ok {
        return Err((LexErrorKind::ParseInt { radix }, start, end - start));
    }
    proof {
        assert(i == end);
        assert(digits_value(digits, radix as nat) == Some(value as int));
        assert(negative == (start < end && char_at_is(input@, start as int, '-')));
        assert(digits.len() > 0);
    }
    if negative {
        if value == 9223372036854775808u64 {
            Ok((i64::MIN, end))
        } else {
            Ok((-(value as i64), end))
        }
    } else {
        Ok((value as i64, end))
    }
}


/// The outcome of reading the number `s[start..end]` in `radix`.
pub open spec fn spec_number(s: Seq<char>, start: int, end: int, radix: u32) -> Result<(int, int), (LexErrorKind, int, int)> {
    match number_value(s, start, end, radix as nat) {
        Some(v) => Ok((v, end)),
        None => Err((LexErrorKind::ParseInt { radix }, start, end - start)),
    }
}

/// The outcome of lexing the digits of a number in `radix` from `pos`:
/// they are taken as a run of hexadecimal digits, which must then all be
/// digits of `radix`.
pub open spec fn spec_lex_radix(s: Seq<char>, pos: int, radix: u32) -> Result<(int, int), (LexErrorKind, int, int)> {
    match spec_take_while(s, pos, CharClass::HexDigit, "digit") {
        Err(e) => Err(e),
        Ok(end) => spec_number(s, pos, end, radix),
    }
}

/// The outcome of lexing a 64-bit signed integer from `pos`: `0x`, `0o` or
/// `0b` followed by hexadecimal, octal or binary digits, or decimal digits
/// with an optional leading `-`.
pub open spec fn spec_lex_int(s: Seq<char>, pos: int) -> Result<(int, int), (LexErrorKind, int, int)> {
    if char_at_is(s, pos, '0') && char_at_is(s, pos + 1, 'x') {
        spec_lex_radix(s, pos + 2, 16)
    } else if char_at_is(s, pos, '0') && char_at_is(s, pos + 1, 'o') {
        spec_lex_radix(s, pos + 2, 8)
    } else if char_at_is(s, pos, '0') && char_at_is(s, pos + 1, 'b') {
        spec_lex_radix(s, pos + 2, 2)
    } else {
        let p = if char_at_is(s, pos, '-') {
            pos + 1
        } else {
            pos
        };
        match spec_take_while(s, p, CharClass::HexDigit, "digit") {
            Err(e) => Err(e),
            Ok(end) => spec_number(s, pos, end, 10),
        }
    }
}

/// Whether an exec lexing outcome is the given spec outcome.
pub open spec fn same_outcome<T>(r: LexResult<T>, spec: Result<(T, int), (LexErrorKind, int, int)>) -> bool {
    match (r, spec) {
        (Ok((v, e)), Ok((v2, e2))) => v == v2 && e == e2,
        (Err((k, a, l)), Err((k2, a2, l2))) => k == k2 && a == a2 && l == l2,
        _ => false,
    }
}

/// Lexes the digits of a number in `radix` from `pos`.
fn lex_radix(input: &Vec<char>, pos: usize, radix: u32) -> (r: LexResult<i64>)
    requires
        pos <= input@.len(),
        2 <= radix <= 16,
    ensures
        match (r, spec_lex_radix(input@, pos as int, radix)) {
            (Ok((v, e)), Ok((v2, e2))) => v == v2 && e == e2,
            (Err((k, a, l)), Err((k2, a2, l2))) => k == k2 && a == a2 && l == l2,
            _ => false,
        },
{
    proof {
        lemma_run_end_bounds(input@, pos as int, CharClass::HexDigit);
    }
    match take_while(input, pos, CharClass::HexDigit, "digit") {
        Err(e) => Err(e),
        Ok(end) => parse_number(input, pos, end, radix),
    }
}

/// Lexes a 64-bit signed integer from `pos`.
pub fn lex_int(input: &Vec<char>, pos: usize) -> (r: LexResult<i64>)
    requires
        pos <= input@.len(),
    ensures
        match (r, spec_lex_int(input@, pos as int)) {
            (Ok((v, e)), Ok((v2, e2))) => v == v2 && e == e2,
            (Err((k, a, l)), Err((k2, a2, l2))) => k == k2 && a == a2 && l == l2,
            _ => false,
        },
{
    let len = input.len();
    if pos < len && input[pos] == '0' && next_is(input, pos + 1, 'x') {
        lex_radix(input, pos + 2, 16)
    } else if pos < len && input[pos] == '0' && next_is(input, pos + 1, 'o') {
        lex_radix(input, pos + 2, 8)
    } else if pos < len && input[pos] == '0' && next_is(input, pos + 1, 'b') {
        lex_radix(input, pos + 2, 2)
    } else {
        let p = if pos < len && input[pos] == '-' {
            pos + 1
        } else {
            pos
        };
        proof {
            lemma_run_end_bounds(input@, p as int, CharClass::HexDigit);
        }
        match take_while(input, p, CharClass::HexDigit, "digit") {
            Err(e) => Err(e),
            Ok(end) => parse_number(input, pos, end, 10),
        }
    }
}


/// The outcome of reading a byte written with exactly `n` digits of `radix`
/// from `pos`.
pub open spec fn spec_fixed_byte(s: Seq<char>, pos: int, n: int, radix: u32) -> Result<(int, int), (LexErrorKind, int, int)> {
    if pos + n > s.len() {
        Err((LexErrorKind::CountMismatch { name: "character", actual: (s.len() - pos) as usize, expected: n as usize }, pos, s.len() - pos))
    } else {
        match digits_value(s.subrange(pos, pos + n), radix as nat) {
            Some(v) => if v <= 255 {
                Ok((v, pos + n))
            } else {
                Err((LexErrorKind::ParseInt { radix }, pos, n))
            },
            None => Err((LexErrorKind::ParseInt { radix }, pos, n)),
        }
    }
}

/// Reads a byte written with exactly `n` digits of `radix` from `pos`.
fn fixed_byte(input: &Vec<char>, pos: usize, n: usize, radix: u32) -> (r: LexResult<u8>)
    requires
        pos <= input@.len(),
        1 <= n <= 3,
        2 <= radix <= 16,
    ensures
        match (r, spec_fixed_byte(input@, pos as int, n as int, radix)) {
            (Ok((v, e)), Ok((v2, e2))) => v == v2 && e == e2,
            (Err((k, a, l)), Err((k2, a2, l2))) => k == k2 && a == a2 && l == l2,
            _ => false,
        },
{
    let len = input.len();
    if n > len - pos {
        return Err((LexErrorKind::CountMismatch { name: "character", actual: len - pos, expected: n }, pos, len - pos));
    }
    let mut value: u32 = 0;
    let mut i: usize = 0;
    let ghost digits = input@.subrange(pos as int, pos + n);
    while i < n
        invariant
            i <= n <= 3,
            pos + n <= input@.len(),
            len == input@.len(),
            2 <= radix <= 16,
            digits == input@.subrange(pos as int, pos + n),
            digits_value(digits.subrange(0, i as int), radix as nat) == Some(value as int),
            value < 4096,
        decreases n - i,
    {
        let ghost prefix = digits.subrange(0, i as int);
        let ghost next = digits.subrange(0, i + 1);
        assert(next.drop_last() =~= prefix);
        assert(next.last() == input@[pos + i]);
        match digit_of(input[pos + i], radix) {
            Some(d) => {
                if value > 255 {
                    proof {
                        if digits_value(digits, radix as nat) is Some {
                            lemma_digits_value_prefix(digits, i as int, radix as nat);
                        }
                    }
                    return Err((LexErrorKind::ParseInt { radix }, pos, n));
                }
                proof {
                    assert(value * radix + d < 4096) by (nonlinear_arith)
                        requires
                            value <= 255,
                            radix <= 16,
                            d < radix,
                    ;
                }
                value = value * radix + d;
            },
            None => {
                proof {
                    if digits_value(digits, radix as nat) is Some {
                        lemma_digits_value_prefix(digits, i + 1, radix as nat);
                    }
                }
                return Err((LexErrorKind::ParseInt { radix }, pos, n));
            },
        }
        i = i + 1;
    }
    proof {
        assert(digits.subrange(0, n as int) =~= digits);
    }
    if value > 255 {
        return Err((LexErrorKind::ParseInt { radix }, pos, n));
    }
    Ok((value as u8, pos + n))
}


/// The outcome of lexing the body of a quoted string: `start` is the
/// position after the opening quote, `pos` the current one and `acc` the
/// bytes read so far. The result is the bytes and the position after the
/// closing quote.
///
/// A backslash escapes `"` and `\`, introduces a byte in exactly two
/// hexadecimal digits after `x`, or in exactly three octal digits. Any
/// other character stands for its UTF-8 encoding.
pub open spec fn spec_quoted(s: Seq<char>, start: int, pos: int, acc: Seq<u8>) -> Result<
    (Seq<u8>, int),
    (LexErrorKind, int, int),
>
    decreases s.len() - pos,
{
    if pos < 0 || pos >= s.len() {
        Err((LexErrorKind::MissingEndingQuote, start, s.len() - start))
    } else if s[pos] == '"' {
        Ok((acc, pos + 1))
    } else if s[pos] == '\\' {
        if pos + 1 >= s.len() {
            Err((LexErrorKind::MissingEndingQuote, start, s.len() - start))
        } else if s[pos + 1] == '"' || s[pos + 1] == '\\' {
            spec_quoted(s, start, pos + 2, acc.push(s[pos + 1] as u8))
        } else if s[pos + 1] == 'x' {
            match spec_fixed_byte(s, pos + 2, 2, 16) {
                Ok((b, next)) => if next > pos {
                    spec_quoted(s, start, next, acc.push(b as u8))
                } else {
                    Err((LexErrorKind::MissingEndingQuote, start, s.len() - start))
                },
                Err(e) => Err(e),
            }
        } else if '0' <= s[pos + 1] && s[pos + 1] <= '7' {
            match spec_fixed_byte(s, pos + 1, 3, 8) {
                Ok((b, next)) => if next > pos {
                    spec_quoted(s, start, next, acc.push(b as u8))
                } else {
                    Err((LexErrorKind::MissingEndingQuote, start, s.len() - start))
                },
                Err(e) => Err(e),
            }
        } else {
            Err((LexErrorKind::InvalidCharacterEscape, pos, 2))
        }
    } else {
        spec_quoted(s, start, pos + 1, acc + vstd::utf8::encode_scalar(s[pos] as u32))
    }
}

/// A run of characters with no quote and no backslash in a quoted string
/// stands for its UTF-8 encoding, unchanged.
proof fn lemma_quoted_plain(s: Seq<char>, start: int, pos: int, end: int, acc: Seq<u8>)
    requires
        0 <= pos <= end <= s.len(),
        forall|i: int| pos <= i < end ==> #[trigger] s[i] != '"' && s[i] != '\\',
    ensures
        spec_quoted(s, start, pos, acc) == spec_quoted(s, start, end, acc + vstd::utf8::encode_utf8(
            s.subrange(pos, end),
        )),
    decreases end - pos,
{
    let t = s.subrange(pos, end);
    if pos == end {
        assert(t =~= Seq::<char>::empty());
        assert(vstd::utf8::encode_utf8(t) =~= Seq::<u8>::empty());
        assert(acc + vstd::utf8::encode_utf8(t) =~= acc);
    } else {
        assert(t[0] == s[pos]);
        assert(t.drop_first() =~= s.subrange(pos + 1, end));
        let enc = vstd::utf8::encode_scalar(s[pos] as u32);
        lemma_quoted_plain(s, start, pos + 1, end, acc + enc);
        assert(vstd::utf8::encode_utf8(t) == enc + vstd::utf8::encode_utf8(s.subrange(pos + 1, end)));
        assert(acc + enc + vstd::utf8::encode_utf8(s.subrange(pos + 1, end)) =~= acc
            + vstd::utf8::encode_utf8(t));
    }
}

/// A quoted string whose body has no backslash and no quote lexes to the
/// UTF-8 encoding of its body, unchanged, which decodes back to the body;
/// lexing ends right after the closing quote.
pub proof fn law_plain_quoted_string(s: Seq<char>, start: int, end: int)
    requires
        0 <= start <= end < s.len(),
        s[end] == '"',
        forall|i: int| start <= i < end ==> #[trigger] s[i] != '"' && s[i] != '\\',
    ensures
        spec_quoted(s, start, start, Seq::empty()) == Ok::<(Seq<u8>, int), (LexErrorKind, int, int)>(
            (vstd::utf8::encode_utf8(s.subrange(start, end)), end + 1),
        ),
        vstd::utf8::valid_utf8(vstd::utf8::encode_utf8(s.subrange(start, end))),
        vstd::utf8::decode_utf8(vstd::utf8::encode_utf8(s.subrange(start, end))) == s.subrange(start, end),
{
    lemma_quoted_plain(s, start, start, end, Seq::empty());
    assert(Seq::<u8>::empty() + vstd::utf8::encode_utf8(s.subrange(start, end)) =~= vstd::utf8::encode_utf8(
        s.subrange(start, end),
    ));
    vstd::utf8::encode_utf8_valid_utf8(s.subrange(start, end));
    vstd::utf8::encode_utf8_decode_utf8(s.subrange(start, end));
}

/// Lexes the body of a quoted string whose opening quote stands right
/// before `start`.
pub fn lex_quoted_bytes(input: &Vec<char>, start: usize) -> (r: LexResult<Vec<u8>>)
    requires
        start <= input@.len(),
    ensures
        match (r, spec_quoted(input@, start as int, start as int, Seq::empty())) {
            (Ok((v, e)), Ok((v2, e2))) => v@ == v2 && e == e2,
            (Err((k, a, l)), Err((k2, a2, l2))) => k == k2 && a == a2 && l == l2,
            _ => false,
        },
{
    let len = input.len();
    let mut acc: Vec<u8> = Vec::new();
    let mut pos = start;
    loop
        invariant
            start <= pos <= len,
            len == input@.len(),
            spec_quoted(input@, start as int, start as int, Seq::empty()) == spec_quoted(
                input@,
                start as int,
                pos as int,
                acc@,
            ),
        decreases len - pos,
    {
        if pos >= len {
            return Err((LexErrorKind::MissingEndingQuote, start, len - start));
        }
        let c = input[pos];
        if c == '"' {
            return Ok((acc, pos + 1));
        } else if c == '\\' {
            if pos + 1 >= len {
                return Err((LexErrorKind::MissingEndingQuote, start, len - start));
            }
            let e = input[pos + 1];
            if e == '"' || e == '\\' {
                acc.push(e as u8);
                pos = pos + 2;
            } else if e == 'x' {
                match fixed_byte(input, pos + 2, 2, 16) {
                    Ok((b, next)) => {
                        acc.push(b);
                        pos = next;
                    },
                    Err(err) => {
                        return Err(err);
                    },
                }
            } else if '0' <= e && e <= '7' {
                match fixed_byte(input, pos + 1, 3, 8) {
                    Ok((b, next)) => {
                        acc.push(b);
                        pos = next;
                    },
                    Err(err) => {
                        return Err(err);
                    },
                }
            } else {
                return Err((LexErrorKind::InvalidCharacterEscape, pos, 2));
            }
        } else {
            push_utf8(&mut acc, c);
            pos = pos + 1;
        }
    }
}


/// Whether a raw string closes at `q`: a quote followed by `h` hashes.
pub open spec fn closes_at(s: Seq<char>, q: int, h: int) -> bool {
    &&& 0 <= q
    &&& q + 1 + h <= s.len()
    &&& s[q] == '"'
    &&& forall|i: int| q + 1 <= i < q + 1 + h ==> #[trigger] s[i] == '#'
}

/// The first position at or after `q` where a raw string with `h` hashes
/// closes, if any.
pub open spec fn raw_close(s: Seq<char>, q: int, h: int) -> Option<int>
    decreases s.len() - q,
{
    if q < 0 || q >= s.len() {
        None
    } else if closes_at(s, q, h) {
        Some(q)
    } else {
        raw_close(s, q + 1, h)
    }
}

/// The outcome of lexing a raw string whose `r` stands right before `pos`:
/// `#` repeated at most 255 times, a quote, the content, a quote and as
/// many `#`. The result is the bounds of the content, the number of `#`,
/// and the position after the string.
pub open spec fn spec_raw_string(s: Seq<char>, pos: int) -> Result<(int, int, int, int), (LexErrorKind, int, int)> {
    let h_end = run_end(s, pos, CharClass::Hash);
    let h = h_end - pos;
    if h > 255 {
        Err((LexErrorKind::CountMismatch { name: "#", actual: h as usize, expected: 255 }, pos, h))
    } else if !char_at_is(s, h_end, '"') {
        Err((LexErrorKind::ExpectedLiteral("\""), h_end, s.len() - h_end))
    } else {
        match raw_close(s, h_end + 1, h) {
            Some(q) => Ok((h_end + 1, q, h, q + 1 + h)),
            None => Err((LexErrorKind::MissingEndingQuote, pos, s.len() - pos)),
        }
    }
}

/// Whether a raw string with `h` hashes closes at `q`.
fn closes_here(input: &Vec<char>, q: usize, h: usize) -> (r: bool)
    requires
        q < input@.len(),
    ensures
        r == closes_at(input@, q as int, h as int),
{
    let len = input.len();
    if input[q] != '"' || h > len - q - 1 {
        return false;
    }
    let mut i: usize = 0;
    while i < h
        invariant
            i <= h,
            q + 1 + h <= input@.len(),
            len == input@.len(),
            forall|j: int| q + 1 <= j < q + 1 + i ==> #[trigger] input@[j] == '#',
        decreases h - i,
    {
        if input[q + 1 + i] != '#' {
            return false;
        }
        i = i + 1;
    }
    true
}

/// Lexes a raw string whose `r` stands right before `pos`.
pub fn lex_raw_string(input: &Vec<char>, pos: usize) -> (r: Result<(usize, usize, u8, usize), (LexErrorKind, usize, usize)>)
    requires
        pos <= input@.len(),
    ensures
        match (r, spec_raw_string(input@, pos as int)) {
            (Ok((a, b, h, e)), Ok((a2, b2, h2, e2))) => a == a2 && b == b2 && h == h2 && e == e2,
            (Err((k, a, l)), Err((k2, a2, l2))) => k == k2 && a == a2 && l == l2,
            _ => false,
        },
{
    let len = input.len();
    proof {
        lemma_run_end_bounds(input@, pos as int, CharClass::Hash);
    }
    let h_end = scan_run(input, pos, CharClass::Hash);
    let h = h_end - pos;
    if h > 255 {
        return Err((LexErrorKind::CountMismatch { name: "#", actual: h, expected: 255 }, pos, h));
    }
    if !(h_end < len && input[h_end] == '"') {
        return Err((LexErrorKind::ExpectedLiteral("\""), h_end, len - h_end));
    }
    let mut q = h_end + 1;
    while q < len
        invariant
            h_end + 1 <= q <= len,
            len == input@.len(),
            h <= 255,
            h_end == pos + h,
            h_end == run_end(input@, pos as int, CharClass::Hash),
            char_at_is(input@, h_end as int, '"'),
            raw_close(input@, (h_end + 1) as int, h as int) == raw_close(input@, q as int, h as int),
        decreases len - q,
    {
        if closes_here(input, q, h) {
            return Ok((h_end + 1, q, h as u8, q + 1 + h));
        }
        q = q + 1;
    }
    Err((LexErrorKind::MissingEndingQuote, pos, len - pos))
}


/// A raw string lexed from `pos` lies within the input.
pub proof fn lemma_raw_string_bounds(s: Seq<char>, pos: int)
    requires
        0 <= pos <= s.len(),
    ensures
        spec_raw_string(s, pos) matches Ok((a, b, h, e)) ==> pos < a <= b < e <= s.len() && 0 <= h <= 255,
{
    lemma_run_end_bounds(s, pos, CharClass::Hash);
    let h_end = run_end(s, pos, CharClass::Hash);
    lemma_raw_close_bounds(s, h_end + 1, h_end - pos);
}

/// Where a raw string closes lies at or after the search start, within the
/// input.
proof fn lemma_raw_close_bounds(s: Seq<char>, q: int, h: int)
    requires
        0 <= h,
    ensures
        raw_close(s, q, h) matches Some(c) ==> q <= c && c + 1 + h <= s.len(),
    decreases s.len() - q,
{
    if 0 <= q < s.len() && !closes_at(s, q, h) {
        lemma_raw_close_bounds(s, q + 1, h);
    }
}

} // verus!

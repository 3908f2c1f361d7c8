//! The lexer: source characters to positioned tokens.
//!
//! The lexer reads characters and positions tokens by character offset;
//! what it hands out is positioned by byte offset in the UTF-8 source. It
//! hands out one item per token or per text that forms no token, and goes
//! on past such text.
use vstd::prelude::*;
use vstd::std_specs::iter::IteratorSpec;

verus! {

/// Why the lexer stopped.
#[derive(Debug, Clone, Copy, PartialEq, Eq, Structural)]
pub enum LexicalErrorKind {
    /// No token starts at this position.
    InvalidToken,
    /// An integer literal whose value does not fit in an `i64`.
    InvalidInteger(IntegerOverflow),
}

/// The direction in which an integer literal left the `i64` range.
#[derive(Debug, Clone, Copy, PartialEq, Eq, Structural)]
pub enum IntegerOverflow {
    Positive,
    Negative,
}

/// A lexical error and the span `[start, end)` of the text it is about.
#[derive(Debug, Clone, Copy, PartialEq, Eq, Structural)]
pub struct LexicalError {
    pub kind: LexicalErrorKind,
    pub start: usize,
    pub end: usize,
}

/// A token. Text-bearing tokens (comments, strings, identifiers) carry no
/// text: it is the source between the token's start and end.
#[derive(Debug, Clone, Copy, PartialEq, Eq, Structural)]
pub enum Token {
    SingleLineComment,
    MultiLineComment,
    Eq,
    Semicolon,
    Comma,
    Period,
    Colon,
    OpenPth,
    ClosePth,
    OpenBracket,
    CloseBracket,
    OpenBrace,
    CloseBrace,
    OpenAngle,
    CloseAngle,
    Boolean(bool),
    Integer(i64),
    To,
    Max,
    Syntax,
    Option,
    Package,
    Import,
    Message,
    Extend,
    Enum,
    Reserved,
    Extensions,
    Optional,
    Repeated,
    Required,
    MapKeyword,
    OneOf,
    Service,
    Rpc,
    Returns,
    Stream,
    String,
    Ident,
}

/// A token with the span `[start, end)` of its text.
#[derive(Debug, Clone, Copy, PartialEq, Eq, Structural)]
pub struct PositionedToken {
    pub start: usize,
    pub token: Token,
    pub end: usize,
}

/// The tokens up to the first lexical error, and that error if there is one:
/// what the parser reads.
#[derive(Debug, PartialEq)]
pub(crate) struct Lexed {
    pub tokens: Vec<PositionedToken>,
    pub error: core::option::Option<LexicalError>,
}

/// Whether `c` has the Unicode White_Space property.
pub open spec fn whitespace(c: char) -> bool {
    ('\u{9}' <= c && c <= '\u{d}') || c == ' ' || c == '\u{85}' || c == '\u{a0}' || c
        == '\u{1680}' || ('\u{2000}' <= c && c <= '\u{200a}') || c == '\u{2028}' || c
        == '\u{2029}' || c == '\u{202f}' || c == '\u{205f}' || c == '\u{3000}'
}

fn is_whitespace(c: char) -> (r: bool)
    ensures
        r == whitespace(c),
{
    ('\u{9}' <= c && c <= '\u{d}') || c == ' ' || c == '\u{85}' || c == '\u{a0}' || c
        == '\u{1680}' || ('\u{2000}' <= c && c <= '\u{200a}') || c == '\u{2028}' || c
        == '\u{2029}' || c == '\u{202f}' || c == '\u{205f}' || c == '\u{3000}'
}

pub open spec fn is_ident_start(c: char) -> bool {
    ('a' <= c && c <= 'z') || ('A' <= c && c <= 'Z') || c == '_'
}

pub open spec fn is_digit(c: char) -> bool {
    '0' <= c && c <= '9'
}

pub open spec fn is_ident_char(c: char) -> bool {
    is_ident_start(c) || is_digit(c)
}

pub open spec fn is_hex_digit(c: char) -> bool {
    is_digit(c) || ('a' <= c && c <= 'f') || ('A' <= c && c <= 'F')
}

/// The value of a hexadecimal (hence also of a decimal) digit.
pub open spec fn digit_value(c: char) -> int {
    if is_digit(c) {
        c as int - '0' as int
    } else if 'a' <= c && c <= 'f' {
        c as int - 'a' as int + 10
    } else {
        c as int - 'A' as int + 10
    }
}

/// The number written by the digits `s[a..b)` in base `base`.
pub open spec fn digits_value(s: Seq<char>, a: int, b: int, base: int) -> int
    decreases b - a,
{
    if b <= a {
        0
    } else {
        base * digits_value(s, a, b - 1, base) + digit_value(s[b - 1])
    }
}

/// The first position at or after `j` that does not hold white space.
pub open spec fn skip_space(s: Seq<char>, j: int) -> int
    decreases s.len() - j,
{
    if 0 <= j < s.len() && whitespace(s[j]) {
        skip_space(s, j + 1)
    } else {
        j
    }
}

/// The first position at or after `j` that does not hold an identifier character.
pub open spec fn ident_end(s: Seq<char>, j: int) -> int
    decreases s.len() - j,
{
    if 0 <= j < s.len() && is_ident_char(s[j]) {
        ident_end(s, j + 1)
    } else {
        j
    }
}

/// The first position at or after `j` that does not hold a decimal digit.
pub open spec fn digits_end(s: Seq<char>, j: int) -> int
    decreases s.len() - j,
{
    if 0 <= j < s.len() && is_digit(s[j]) {
        digits_end(s, j + 1)
    } else {
        j
    }
}

/// The first position at or after `j` that does not hold a hex digit.
pub open spec fn hex_end(s: Seq<char>, j: int) -> int
    decreases s.len() - j,
{
    if 0 <= j < s.len() && is_hex_digit(s[j]) {
        hex_end(s, j + 1)
    } else {
        j
    }
}

/// The position of the first newline at or after `j`, or the end of `s`.
pub open spec fn line_end(s: Seq<char>, j: int) -> int
    decreases s.len() - j,
{
    if 0 <= j < s.len() && s[j] != '\n' {
        line_end(s, j + 1)
    } else {
        j
    }
}

/// The position just past the first `*/` that starts at or after `j`, if any.
pub open spec fn block_end(s: Seq<char>, j: int) -> int
    decreases s.len() - j,
{
    if j < 0 || j + 1 >= s.len() {
        -1
    } else if s[j] == '*' && s[j + 1] == '/' {
        j + 2
    } else {
        block_end(s, j + 1)
    }
}

/// The closing quote of a string literal, scanning from `k`: the literal
/// may not cross a newline, and every quote inside it follows a backslash.
/// `last` is the last quote seen so far, or -1.
pub open spec fn string_close(s: Seq<char>, q: char, k: int, last: int) -> int
    decreases s.len() - k,
{
    if k < 1 || k >= s.len() || s[k] == '\n' {
        last
    } else if s[k] == q && s[k - 1] != '\\' {
        k
    } else if s[k] == q {
        string_close(s, q, k + 1, k)
    } else {
        string_close(s, q, k + 1, last)
    }
}

pub open spec fn punctuation(c: char) -> core::option::Option<Token> {
    if c == '=' {
        Some(Token::Eq)
    } else if c == ';' {
        Some(Token::Semicolon)
    } else if c == ',' {
        Some(Token::Comma)
    } else if c == '.' {
        Some(Token::Period)
    } else if c == ':' {
        Some(Token::Colon)
    } else if c == '(' {
        Some(Token::OpenPth)
    } else if c == ')' {
        Some(Token::ClosePth)
    } else if c == '[' {
        Some(Token::OpenBracket)
    } else if c == ']' {
        Some(Token::CloseBracket)
    } else if c == '{' {
        Some(Token::OpenBrace)
    } else if c == '}' {
        Some(Token::CloseBrace)
    } else if c == '<' {
        Some(Token::OpenAngle)
    } else if c == '>' {
        Some(Token::CloseAngle)
    } else {
        None
    }
}

/// The token for a word: a keyword, a boolean, or else an identifier.
pub open spec fn word_token(w: Seq<char>) -> Token {
    if w == "true"@ {
        Token::Boolean(true)
    } else if w == "false"@ {
        Token::Boolean(false)
    } else if w == "to"@ {
        Token::To
    } else if w == "max"@ {
        Token::Max
    } else if w == "syntax"@ {
        Token::Syntax
    } else if w == "option"@ {
        Token::Option
    } else if w == "package"@ {
        Token::Package
    } else if w == "import"@ {
        Token::Import
    } else if w == "message"@ {
        Token::Message
    } else if w == "extend"@ {
        Token::Extend
    } else if w == "enum"@ {
        Token::Enum
    } else if w == "reserved"@ {
        Token::Reserved
    } else if w == "extensions"@ {
        Token::Extensions
    } else if w == "optional"@ {
        Token::Optional
    } else if w == "repeated"@ {
        Token::Repeated
    } else if w == "required"@ {
        Token::Required
    } else if w == "map"@ {
        Token::MapKeyword
    } else if w == "oneof"@ {
        Token::OneOf
    } else if w == "service"@ {
        Token::Service
    } else if w == "rpc"@ {
        Token::Rpc
    } else if w == "returns"@ {
        Token::Returns
    } else if w == "stream"@ {
        Token::Stream
    } else {
        Token::Ident
    }
}

pub open spec fn i64_max() -> int {
    0x7fff_ffff_ffff_ffff
}

/// The token for the integer literal `s[i..e)`, whose digits start at `d`
/// and are read in base `base`.
pub open spec fn integer_token(s: Seq<char>, i: int, d: int, e: int, base: int, negative: bool) -> Result<
    (Token, int),
    (LexicalErrorKind, int),
> {
    let v = digits_value(s, d, e, base);
    if negative {
        if v <= i64_max() + 1 {
            Ok((Token::Integer((-v) as i64), e))
        } else {
            Err((LexicalErrorKind::InvalidInteger(IntegerOverflow::Negative), e))
        }
    } else {
        if v <= i64_max() {
            Ok((Token::Integer(v as i64), e))
        } else {
            Err((LexicalErrorKind::InvalidInteger(IntegerOverflow::Positive), e))
        }
    }
}

/// The token that starts at `i`, with the position where it ends; or the
/// error, with the position where the offending text ends.
///
/// Where several patterns match, the longest match wins, and a keyword
/// wins over an identifier of the same text.
pub open spec fn token_at(s: Seq<char>, i: int) -> Result<(Token, int), (LexicalErrorKind, int)> {
    let c = s[i];
    let next = if i + 1 < s.len() {
        s[i + 1]
    } else {
        ' '
    };
    if c == '/' && next == '/' {
        Ok((Token::SingleLineComment, line_end(s, i)))
    } else if c == '/' && next == '*' && block_end(s, i + 2) >= 0 {
        Ok((Token::MultiLineComment, block_end(s, i + 2)))
    } else if punctuation(c) is Some {
        Ok((punctuation(c)->0, i + 1))
    } else if is_ident_start(c) {
        let e = ident_end(s, i + 1);
        Ok((word_token(s.subrange(i, e)), e))
    } else if c == '0' && next == 'x' && i + 2 < s.len() && is_hex_digit(s[i + 2]) {
        let h = hex_end(s, i + 2);
        let e = if h <= i + 18 {
            h
        } else {
            i + 18
        };
        integer_token(s, i, i + 2, e, 16, false)
    } else if is_digit(c) {
        integer_token(s, i, i, digits_end(s, i), 10, false)
    } else if c == '-' && is_digit(next) {
        integer_token(s, i, i + 1, digits_end(s, i + 1), 10, true)
    } else if (c == '"' || c == '\'') && string_close(s, c, i + 1, -1) >= 0 {
        Ok((Token::String, string_close(s, c, i + 1, -1) + 1))
    } else {
        Err((LexicalErrorKind::InvalidToken, i + 1))
    }
}

/// The tokens of `s` from position `i` on, and the error that stopped the
/// lexer, if any.
pub open spec fn lex_from(s: Seq<char>, i: int) -> (Seq<PositionedToken>, core::option::Option<
    LexicalError,
>)
    decreases s.len() - i,
{
    let j = skip_space(s, i);
    if i < 0 || j < i || j >= s.len() {
        (Seq::empty(), None)
    } else {
        match token_at(s, j) {
            Err((kind, e)) => if e <= j || e > s.len() {
                (Seq::empty(), None)
            } else {
                (Seq::empty(), Some(LexicalError { kind, start: j as usize, end: e as usize }))
            },
            Ok((token, e)) => if e <= j || e > s.len() {
                (Seq::empty(), None)
            } else {
                let rest = lex_from(s, e);
                (
                    seq![PositionedToken { start: j as usize, token, end: e as usize }] + rest.0,
                    rest.1,
                )
            },
        }
    }
}

/// The tokens of the whole source up to its first lexical error, and that
/// error.
pub open spec fn lex(s: Seq<char>) -> (Seq<PositionedToken>, core::option::Option<LexicalError>) {
    lex_from(s, 0)
}

/// Everything the lexer hands out from position `i` on: each token, and
/// each text that forms no token as an error, after which it goes on.
pub open spec fn items_from(s: Seq<char>, i: int) -> Seq<Result<PositionedToken, LexicalError>>
    decreases s.len() - i,
{
    let j = skip_space(s, i);
    if i < 0 || j < i || j >= s.len() {
        Seq::empty()
    } else {
        match token_at(s, j) {
            Err((kind, e)) => if e <= j || e > s.len() {
                Seq::empty()
            } else {
                seq![Err(LexicalError { kind, start: j as usize, end: e as usize })] + items_from(
                    s,
                    e,
                )
            },
            Ok((token, e)) => if e <= j || e > s.len() {
                Seq::empty()
            } else {
                seq![Ok(PositionedToken { start: j as usize, token, end: e as usize })]
                    + items_from(s, e)
            },
        }
    }
}

fn ident_start(c: char) -> (r: bool)
    ensures
        r == is_ident_start(c),
{
    ('a' <= c && c <= 'z') || ('A' <= c && c <= 'Z') || c == '_'
}

fn digit(c: char) -> (r: bool)
    ensures
        r == is_digit(c),
{
    '0' <= c && c <= '9'
}

fn ident_char(c: char) -> (r: bool)
    ensures
        r == is_ident_char(c),
{
    ident_start(c) || digit(c)
}

fn hex_digit(c: char) -> (r: bool)
    ensures
        r == is_hex_digit(c),
{
    digit(c) || ('a' <= c && c <= 'f') || ('A' <= c && c <= 'F')
}

fn value_of_digit(c: char) -> (r: u128)
    requires
        is_hex_digit(c),
    ensures
        r == digit_value(c),
        r < 16,
{
    if digit(c) {
        (c as u32 - '0' as u32) as u128
    } else if 'a' <= c && c <= 'f' {
        (c as u32 - 'a' as u32 + 10) as u128
    } else {
        (c as u32 - 'A' as u32 + 10) as u128
    }
}

/// The characters of `src`, in order.
pub fn chars_of(src: &str) -> (r: Vec<char>)
    ensures
        r@ == src@,
{
    let n = src.unicode_len();
    let mut r: Vec<char> = Vec::with_capacity(n);
    let mut it = src.chars();
    let mut k: usize = 0;
    broadcast use vstd::string::axiom_spec_iter, vstd::string::next_postcondition;
    proof {
        assert(it.remaining() == src@);
    }
    while k < n
        invariant
            n == src@.len(),
            k <= n,
            it.remaining() == src@.subrange(k as int, n as int),
            r@ == src@.subrange(0, k as int),
        decreases n - k,
    {
        let c = it.next();
        match c {
            Some(c) => r.push(c),
            None => {},
        }
        k = k + 1;
    }
    r
}

fn scan_space(s: &Vec<char>, j: usize) -> (r: usize)
    requires
        j <= s.len(),
    ensures
        r == skip_space(s@, j as int),
        j <= r <= s.len(),
{
    let mut k = j;
    while k < s.len() && is_whitespace(s[k])
        invariant
            j <= k <= s.len(),
            skip_space(s@, j as int) == skip_space(s@, k as int),
        decreases s.len() - k,
    {
        k = k + 1;
    }
    k
}

fn scan_ident(s: &Vec<char>, j: usize) -> (r: usize)
    requires
        j <= s.len(),
    ensures
        r == ident_end(s@, j as int),
        j <= r <= s.len(),
{
    let mut k = j;
    while k < s.len() && ident_char(s[k])
        invariant
            j <= k <= s.len(),
            ident_end(s@, j as int) == ident_end(s@, k as int),
        decreases s.len() - k,
    {
        k = k + 1;
    }
    k
}

fn scan_digits(s: &Vec<char>, j: usize) -> (r: usize)
    requires
        j <= s.len(),
    ensures
        r == digits_end(s@, j as int),
        j <= r <= s.len(),
        forall|t: int| j <= t < r ==> is_digit(#[trigger] s@[t]),
{
    let mut k = j;
    while k < s.len() && digit(s[k])
        invariant
            j <= k <= s.len(),
            digits_end(s@, j as int) == digits_end(s@, k as int),
            forall|t: int| j <= t < k ==> is_digit(#[trigger] s@[t]),
        decreases s.len() - k,
    {
        k = k + 1;
    }
    k
}

fn scan_hex(s: &Vec<char>, j: usize) -> (r: usize)
    requires
        j <= s.len(),
    ensures
        r == hex_end(s@, j as int),
        j <= r <= s.len(),
        forall|t: int| j <= t < r ==> is_hex_digit(#[trigger] s@[t]),
{
    let mut k = j;
    while k < s.len() && hex_digit(s[k])
        invariant
            j <= k <= s.len(),
            hex_end(s@, j as int) == hex_end(s@, k as int),
            forall|t: int| j <= t < k ==> is_hex_digit(#[trigger] s@[t]),
        decreases s.len() - k,
    {
        k = k + 1;
    }
    k
}

fn scan_line(s: &Vec<char>, j: usize) -> (r: usize)
    requires
        j <= s.len(),
    ensures
        r == line_end(s@, j as int),
        j <= r <= s.len(),
{
    let mut k = j;
    while k < s.len() && s[k] != '\n'
        invariant
            j <= k <= s.len(),
            line_end(s@, j as int) == line_end(s@, k as int),
        decreases s.len() - k,
    {
        k = k + 1;
    }
    k
}

fn scan_block(s: &Vec<char>, j: usize) -> (r: core::option::Option<usize>)
    requires
        j <= s.len(),
    ensures
        r is Some <==> block_end(s@, j as int) >= 0,
        r matches Some(e) ==> e == block_end(s@, j as int) && j + 2 <= e <= s.len(),
{
    let mut k = j;
    while k < s.len() && k + 1 < s.len()
        invariant
            j <= k <= s.len(),
            block_end(s@, j as int) == block_end(s@, k as int),
        decreases s.len() - k,
    {
        if s[k] == '*' && s[k + 1] == '/' {
            return Some(k + 2);
        }
        k = k + 1;
    }
    None
}

fn scan_string(s: &Vec<char>, i: usize, q: char) -> (r: core::option::Option<usize>)
    requires
        i < s.len(),
    ensures
        r is Some <==> string_close(s@, q, i + 1, -1) >= 0,
        r matches Some(e) ==> e == string_close(s@, q, i + 1, -1) && i < e < s.len(),
{
    let mut k = i + 1;
    let mut last: core::option::Option<usize> = None;
    while k < s.len() && s[k] != '\n'
        invariant
            i + 1 <= k <= s.len(),
            string_close(s@, q, i + 1, -1) == string_close(
                s@,
                q,
                k as int,
                match last {
                    Some(l) => l as int,
                    None => -1,
                },
            ),
            last matches Some(l) ==> i < l < k,
        decreases s.len() - k,
    {
        if s[k] == q {
            if s[k - 1] != '\\' {
                return Some(k);
            }
            last = Some(k);
        }
        k = k + 1;
    }
    last
}

/// Whether `s[a..b)` is the word `w`.
fn is_word(s: &Vec<char>, a: usize, b: usize, w: &str) -> (r: bool)
    requires
        a <= b <= s.len(),
    ensures
        r == (s@.subrange(a as int, b as int) == w@),
{
    let n = w.unicode_len();
    if b - a != n {
        return false;
    }
    let mut k: usize = 0;
    while k < n
        invariant
            n == w@.len(),
            b - a == n,
            a <= b <= s.len(),
            k <= n,
            forall|t: int| 0 <= t < k ==> s@[a + t] == w@[t],
        decreases n - k,
    {
        if s[a + k] != w.get_char(k) {
            assert(s@.subrange(a as int, b as int)[k as int] != w@[k as int]);
            return false;
        }
        k = k + 1;
    }
    assert(s@.subrange(a as int, b as int) =~= w@);
    true
}

fn word(s: &Vec<char>, a: usize, b: usize) -> (t: Token)
    requires
        a <= b <= s.len(),
    ensures
        t == word_token(s@.subrange(a as int, b as int)),
{
    if is_word(s, a, b, "true") {
        Token::Boolean(true)
    } else if is_word(s, a, b, "false") {
        Token::Boolean(false)
    } else if is_word(s, a, b, "to") {
        Token::To
    } else if is_word(s, a, b, "max") {
        Token::Max
    } else if is_word(s, a, b, "syntax") {
        Token::Syntax
    } else if is_word(s, a, b, "option") {
        Token::Option
    } else if is_word(s, a, b, "package") {
        Token::Package
    } else if is_word(s, a, b, "import") {
        Token::Import
    } else if is_word(s, a, b, "message") {
        Token::Message
    } else if is_word(s, a, b, "extend") {
        Token::Extend
    } else if is_word(s, a, b, "enum") {
        Token::Enum
    } else if is_word(s, a, b, "reserved") {
        Token::Reserved
    } else if is_word(s, a, b, "extensions") {
        Token::Extensions
    } else if is_word(s, a, b, "optional") {
        Token::Optional
    } else if is_word(s, a, b, "repeated") {
        Token::Repeated
    } else if is_word(s, a, b, "required") {
        Token::Required
    } else if is_word(s, a, b, "map") {
        Token::MapKeyword
    } else if is_word(s, a, b, "oneof") {
        Token::OneOf
    } else if is_word(s, a, b, "service") {
        Token::Service
    } else if is_word(s, a, b, "rpc") {
        Token::Rpc
    } else if is_word(s, a, b, "returns") {
        Token::Returns
    } else if is_word(s, a, b, "stream") {
        Token::Stream
    } else {
        Token::Ident
    }
}

proof fn lemma_digits_value_monotone(s: Seq<char>, a: int, b: int, c: int, base: int)
    requires
        a <= b <= c,
        base >= 1,
        forall|t: int| a <= t < c ==> is_hex_digit(#[trigger] s[t]),
    ensures
        0 <= digits_value(s, a, b, base) <= digits_value(s, a, c, base),
    decreases c - a,
{
    if c > b {
        lemma_digits_value_monotone(s, a, b, c - 1, base);
        let v = digits_value(s, a, c - 1, base);
        assert(base * v >= v) by (nonlinear_arith)
            requires
                base >= 1,
                v >= 0,
        ;
    } else if b > a {
        lemma_digits_value_monotone(s, a, b - 1, b - 1, base);
        let v = digits_value(s, a, b - 1, base);
        assert(base * v >= 0) by (nonlinear_arith)
            requires
                base >= 1,
                v >= 0,
        ;
    }
}

/// The value of the digits `s[d..e)` in base `base`, or `None` where it
/// exceeds 2^63.
fn digits_value_capped(s: &Vec<char>, d: usize, e: usize, base: u128) -> (r: core::option::Option<u128>)
    requires
        d <= e <= s.len(),
        base == 10 || base == 16,
        forall|t: int| d <= t < e ==> is_hex_digit(#[trigger] s@[t]),
    ensures
        r matches Some(v) ==> v == digits_value(s@, d as int, e as int, base as int) && v <= i64_max() + 1,
        r is None ==> digits_value(s@, d as int, e as int, base as int) > i64_max() + 1,
{
    let mut acc: u128 = 0;
    let mut k = d;
    while k < e
        invariant
            d <= k <= e <= s.len(),
            base == 10 || base == 16,
            forall|t: int| d <= t < e ==> is_hex_digit(#[trigger] s@[t]),
            acc == digits_value(s@, d as int, k as int, base as int),
            acc <= i64_max() + 1,
        decreases e - k,
    {
        let v = value_of_digit(s[k]);
        assert(acc * base <= 0x8000_0000_0000_0000 * 16) by (nonlinear_arith)
            requires
                acc <= 0x8000_0000_0000_0000u128,
                base <= 16,
        ;
        acc = acc * base + v;
        k = k + 1;
        if acc > 0x8000_0000_0000_0000 {
            proof {
                lemma_digits_value_monotone(s@, d as int, k as int, e as int, base as int);
            }
            return None;
        }
    }
    Some(acc)
}

/// The token for the integer literal `s[i..e)` with digits from `d`.
fn integer(s: &Vec<char>, i: usize, d: usize, e: usize, base: u128, negative: bool) -> (r: Result<
    (Token, usize),
    (LexicalErrorKind, usize),
>)
    requires
        d <= e <= s.len(),
        base == 10 || base == 16,
        forall|t: int| d <= t < e ==> is_hex_digit(#[trigger] s@[t]),
    ensures
        integer_token(s@, i as int, d as int, e as int, base as int, negative) == match r {
            Ok((t, x)) => Ok((t, x as int)),
            Err((k, x)) => Err((k, x as int)),
        },
        match r {
            Ok((_, x)) => x == e,
            Err((_, x)) => x == e,
        },
{
    match digits_value_capped(s, d, e, base) {
        Some(v) => {
            if negative {
                if v == 0x8000_0000_0000_0000 {
                    Ok((Token::Integer(i64::MIN), e))
                } else {
                    Ok((Token::Integer(-(v as i64)), e))
                }
            } else if v <= 0x7fff_ffff_ffff_ffff {
                Ok((Token::Integer(v as i64), e))
            } else {
                Err((LexicalErrorKind::InvalidInteger(IntegerOverflow::Positive), e))
            }
        },
        None => {
            if negative {
                Err((LexicalErrorKind::InvalidInteger(IntegerOverflow::Negative), e))
            } else {
                Err((LexicalErrorKind::InvalidInteger(IntegerOverflow::Positive), e))
            }
        },
    }
}

fn punct(c: char) -> (r: core::option::Option<Token>)
    ensures
        r == punctuation(c),
{
    if c == '=' {
        Some(Token::Eq)
    } else if c == ';' {
        Some(Token::Semicolon)
    } else if c == ',' {
        Some(Token::Comma)
    } else if c == '.' {
        Some(Token::Period)
    } else if c == ':' {
        Some(Token::Colon)
    } else if c == '(' {
        Some(Token::OpenPth)
    } else if c == ')' {
        Some(Token::ClosePth)
    } else if c == '[' {
        Some(Token::OpenBracket)
    } else if c == ']' {
        Some(Token::CloseBracket)
    } else if c == '{' {
        Some(Token::OpenBrace)
    } else if c == '}' {
        Some(Token::CloseBrace)
    } else if c == '<' {
        Some(Token::OpenAngle)
    } else if c == '>' {
        Some(Token::CloseAngle)
    } else {
        None
    }
}

/// The token that starts at `i`, with its end; or the error with the end
/// of the offending text.
fn next_token(s: &Vec<char>, i: usize) -> (r: Result<(Token, usize), (LexicalErrorKind, usize)>)
    requires
        i < s.len(),
    ensures
        token_at(s@, i as int) == match r {
            Ok((t, x)) => Ok((t, x as int)),
            Err((k, x)) => Err((k, x as int)),
        },
        match r {
            Ok((_, x)) => i < x <= s.len(),
            Err((_, x)) => i < x <= s.len(),
        },
{
    let c = s[i];
    let next = if i + 1 < s.len() {
        s[i + 1]
    } else {
        ' '
    };
    if c == '/' && next == '/' {
        let e = scan_line(s, i + 1);
        return Ok((Token::SingleLineComment, e));
    }
    if c == '/' && next == '*' {
        if let Some(e) = scan_block(s, i + 2) {
            return Ok((Token::MultiLineComment, e));
        }
    }
    if let Some(t) = punct(c) {
        return Ok((t, i + 1));
    }
    if ident_start(c) {
        let e = scan_ident(s, i + 1);
        return Ok((word(s, i, e), e));
    }
    if c == '0' && next == 'x' && i + 2 < s.len() && hex_digit(s[i + 2]) {
        let h = scan_hex(s, i + 3);
        let e = if h - i <= 18 {
            h
        } else {
            i + 18
        };
        return integer(s, i, i + 2, e, 16, false);
    }
    if digit(c) {
        let e = scan_digits(s, i + 1);
        return integer(s, i, i, e, 10, false);
    }
    if c == '-' && digit(next) {
        let e = scan_digits(s, i + 2);
        return integer(s, i, i + 1, e, 10, true);
    }
    if c == '"' || c == '\'' {
        if let Some(e) = scan_string(s, i, c) {
            return Ok((Token::String, e + 1));
        }
    }
    Err((LexicalErrorKind::InvalidToken, i + 1))
}

/// The tokens of `s`, up to the first lexical error, positioned by
/// character offset.
pub(crate) fn tokenize_chars(s: &Vec<char>) -> (r: Lexed)
    ensures
        (r.tokens@, r.error) == lex(s@),
{
    let mut tokens: Vec<PositionedToken> = Vec::new();
    let mut i: usize = 0;
    loop
        invariant
            i <= s.len(),
            lex(s@) == (tokens@ + lex_from(s@, i as int).0, lex_from(s@, i as int).1),
        decreases s.len() - i,
    {
        let j = scan_space(s, i);
        if j >= s.len() {
            assert(tokens@ + Seq::<PositionedToken>::empty() =~= tokens@);
            return Lexed { tokens, error: None };
        }
        match next_token(s, j) {
            Err((kind, e)) => {
                assert(tokens@ + Seq::<PositionedToken>::empty() =~= tokens@);
                return Lexed { tokens, error: Some(LexicalError { kind, start: j, end: e }) };
            },
            Ok((token, e)) => {
                let ghost before = tokens@;
                let pt = PositionedToken { start: j, token, end: e };
                tokens.push(pt);
                assert(before + (seq![pt] + lex_from(s@, e as int).0) =~= tokens@ + lex_from(
                    s@,
                    e as int,
                ).0);
                i = e;
            },
        }
    }
}

/// The number of bytes of `c` in UTF-8.
pub open spec fn utf8_width(c: char) -> nat {
    if (c as u32) < 0x80 {
        1
    } else if (c as u32) < 0x800 {
        2
    } else if (c as u32) < 0x10000 {
        3
    } else {
        4
    }
}

/// The byte offset, in UTF-8, of character offset `i` of `s`.
pub open spec fn byte_pos(s: Seq<char>, i: int) -> nat
    decreases i,
{
    if i <= 0 {
        0
    } else {
        byte_pos(s, i - 1) + utf8_width(s[i - 1])
    }
}

/// The byte offset of character offset `p`; offsets past the end stay.
pub open spec fn pos_in_bytes(s: Seq<char>, p: usize) -> usize {
    if p <= s.len() {
        byte_pos(s, p as int) as usize
    } else {
        p
    }
}

pub open spec fn token_in_bytes(s: Seq<char>, t: PositionedToken) -> PositionedToken {
    PositionedToken { start: pos_in_bytes(s, t.start), token: t.token, end: pos_in_bytes(s, t.end) }
}

pub open spec fn error_in_bytes(s: Seq<char>, e: LexicalError) -> LexicalError {
    LexicalError { kind: e.kind, start: pos_in_bytes(s, e.start), end: pos_in_bytes(s, e.end) }
}

pub open spec fn item_in_bytes(s: Seq<char>, it: Result<PositionedToken, LexicalError>) -> Result<
    PositionedToken,
    LexicalError,
> {
    match it {
        Ok(t) => Ok(token_in_bytes(s, t)),
        Err(e) => Err(error_in_bytes(s, e)),
    }
}

/// Everything the lexer hands out for the whole source, spans in bytes.
pub open spec fn lex_items(s: Seq<char>) -> Seq<Result<PositionedToken, LexicalError>> {
    items_from(s, 0).map_values(|it: Result<PositionedToken, LexicalError>| item_in_bytes(s, it))
}

fn width(c: char) -> (r: usize)
    ensures
        r == utf8_width(c),
{
    let u = c as u32;
    if u < 0x80 {
        1
    } else if u < 0x800 {
        2
    } else if u < 0x10000 {
        3
    } else {
        4
    }
}

/// The byte offset of every character offset of `s`, its end included.
pub fn byte_offsets(s: &Vec<char>) -> (r: Vec<usize>)
    requires
        s.len() <= usize::MAX / 4,
    ensures
        r.len() == s.len() + 1,
        forall|i: int| 0 <= i <= s.len() ==> r@[i] == byte_pos(s@, i),
{
    let mut r: Vec<usize> = Vec::new();
    let mut acc: usize = 0;
    let mut k: usize = 0;
    r.push(0);
    while k < s.len()
        invariant
            k <= s.len() <= usize::MAX / 4,
            acc == byte_pos(s@, k as int),
            acc <= 4 * k,
            r.len() == k + 1,
            forall|i: int| 0 <= i <= k ==> r@[i] == byte_pos(s@, i),
        decreases s.len() - k,
    {
        acc = acc + width(s[k]);
        k = k + 1;
        r.push(acc);
    }
    r
}

/// The byte offset of character offset `p`, read from `offsets`.
pub fn to_byte(s: &Vec<char>, offsets: &Vec<usize>, p: usize) -> (r: usize)
    requires
        offsets.len() == s.len() + 1,
        forall|i: int| 0 <= i <= s.len() ==> offsets@[i] == byte_pos(s@, i),
    ensures
        r == pos_in_bytes(s@, p),
{
    if p <= s.len() {
        offsets[p]
    } else {
        p
    }
}

pub proof fn lemma_skip_space(s: Seq<char>, j: int)
    requires
        0 <= j,
    ensures
        j <= skip_space(s, j),
    decreases s.len() - j,
{
    if 0 <= j < s.len() && whitespace(s[j]) {
        lemma_skip_space(s, j + 1);
    }
}

pub proof fn lemma_line_end(s: Seq<char>, j: int)
    requires
        0 <= j,
    ensures
        j <= line_end(s, j),
    decreases s.len() - j,
{
    if 0 <= j < s.len() && s[j] != '\n' {
        lemma_line_end(s, j + 1);
    }
}

pub proof fn lemma_block_end(s: Seq<char>, j: int)
    requires
        0 <= j,
    ensures
        block_end(s, j) >= 0 ==> j + 2 <= block_end(s, j) <= s.len() && s[block_end(s, j) - 2]
            == '*' && s[block_end(s, j) - 1] == '/',
    decreases s.len() - j,
{
    if j + 1 < s.len() && !(s[j] == '*' && s[j + 1] == '/') {
        lemma_block_end(s, j + 1);
    }
}

pub proof fn lemma_string_close(s: Seq<char>, q: char, k: int, last: int, lo: int)
    requires
        1 <= lo <= k,
        last == -1 || (lo <= last < k && last < s.len()),
    ensures
        string_close(s, q, k, last) == -1 || lo <= string_close(s, q, k, last) < s.len(),
    decreases s.len() - k,
{
    if k < 1 || k >= s.len() || s[k] == '\n' {
    } else if s[k] == q && s[k - 1] != '\\' {
    } else if s[k] == q {
        lemma_string_close(s, q, k + 1, k, lo);
    } else {
        lemma_string_close(s, q, k + 1, last, lo);
    }
}

/// What a token's text starts and ends with, by its kind.
pub proof fn lemma_token_at(s: Seq<char>, j: int)
    requires
        0 <= j < s.len(),
        token_at(s, j) is Ok,
    ensures
        ({
            let (t, e) = token_at(s, j)->Ok_0;
            &&& t == Token::SingleLineComment ==> e - j >= 2 && s[j] == '/' && s[j + 1] == '/'
            &&& t == Token::MultiLineComment ==> e - j >= 4 && s[j] == '/' && s[j + 1] == '*'
                && s[e - 2] == '*' && s[e - 1] == '/'
            &&& t == Token::String ==> e - j >= 2
        }),
{
    let c = s[j];
    let next = if j + 1 < s.len() {
        s[j + 1]
    } else {
        ' '
    };
    if c == '/' && next == '/' {
        lemma_line_end(s, j + 2);
        assert(line_end(s, j) == line_end(s, j + 1));
        assert(line_end(s, j + 1) == line_end(s, j + 2));
    } else if c == '/' && next == '*' && block_end(s, j + 2) >= 0 {
        lemma_block_end(s, j + 2);
    } else if punctuation(c) is Some {
    } else if is_ident_start(c) {
    } else if c == '0' && next == 'x' && j + 2 < s.len() && is_hex_digit(s[j + 2]) {
    } else if is_digit(c) {
    } else if c == '-' && is_digit(next) {
    } else if (c == '"' || c == '\'') && string_close(s, c, j + 1, -1) >= 0 {
        lemma_string_close(s, c, j + 1, -1, j + 1);
    }
}

pub proof fn lemma_digits_end(s: Seq<char>, j: int)
    requires
        0 <= j <= s.len(),
    ensures
        j <= digits_end(s, j) <= s.len(),
    decreases s.len() - j,
{
    if j < s.len() && is_digit(s[j]) {
        lemma_digits_end(s, j + 1);
    }
}

/// A decimal literal whose value leaves the `i64` range is handed out as an
/// integer error whose span is exactly the literal's text, with the
/// direction in which it overflowed. The literal starts at `j`, after the
/// white space from `i`, and its digits start at `d`.
pub proof fn lemma_overflow_spans_literal(s: Seq<char>, i: int, negative: bool)
    requires
        0 <= i,
        s.len() <= usize::MAX,
        skip_space(s, i) < s.len(),
        ({
            let j = skip_space(s, i);
            let d = if negative {
                j + 1
            } else {
                j
            };
            &&& d < s.len() && is_digit(s[d])
            &&& negative ==> s[j] == '-'
            &&& !negative ==> !(s[j] == '0' && j + 2 < s.len() && s[j + 1] == 'x' && is_hex_digit(
                s[j + 2],
            ))
            &&& digits_value(s, d, digits_end(s, d), 10) > if negative {
                i64_max() + 1
            } else {
                i64_max()
            }
        }),
    ensures
        ({
            let j = skip_space(s, i);
            let d = if negative {
                j + 1
            } else {
                j
            };
            let kind = if negative {
                IntegerOverflow::Negative
            } else {
                IntegerOverflow::Positive
            };
            &&& items_from(s, i).len() > 0
            &&& items_from(s, i)[0] == Err::<PositionedToken, LexicalError>(
                LexicalError {
                    kind: LexicalErrorKind::InvalidInteger(kind),
                    start: j as usize,
                    end: digits_end(s, d) as usize,
                },
            )
        }),
{
    let j = skip_space(s, i);
    lemma_skip_space(s, i);
    let d = if negative {
        j + 1
    } else {
        j
    };
    lemma_digits_end(s, d + 1);
    assert(digits_end(s, d) == digits_end(s, d + 1));
}

/// The words and marks of rpc declarations and option maps are tokens of
/// their own: `rpc`, `returns` and `stream` are keywords, and `:` is a
/// punctuation mark.
pub proof fn lemma_rpc_and_map_tokens()
    ensures
        word_token("rpc"@) == Token::Rpc,
        word_token("returns"@) == Token::Returns,
        word_token("stream"@) == Token::Stream,
        punctuation(':') == Some(Token::Colon),
        punctuation('{') == Some(Token::OpenBrace),
{
    broadcast use vstd::string::axiom_str_literal_len, vstd::string::axiom_str_literal_get_char;

    reveal_strlit("true");
    reveal_strlit("false");
    reveal_strlit("to");
    reveal_strlit("max");
    reveal_strlit("syntax");
    reveal_strlit("option");
    reveal_strlit("package");
    reveal_strlit("import");
    reveal_strlit("message");
    reveal_strlit("extend");
    reveal_strlit("enum");
    reveal_strlit("reserved");
    reveal_strlit("extensions");
    reveal_strlit("optional");
    reveal_strlit("repeated");
    reveal_strlit("required");
    reveal_strlit("map");
    reveal_strlit("oneof");
    reveal_strlit("service");
    reveal_strlit("rpc");
    reveal_strlit("returns");
    reveal_strlit("stream");
    assert("rpc"@ != "true"@) by {
        assert("rpc"@.len() != "true"@.len() || "rpc"@[0] != "true"@[0] || "rpc"@[1] != "true"@[1] || "rpc"@[2] != "true"@[2]);
    }
    assert("rpc"@ != "false"@) by {
        assert("rpc"@.len() != "false"@.len() || "rpc"@[0] != "false"@[0] || "rpc"@[1] != "false"@[1] || "rpc"@[2] != "false"@[2]);
    }
    assert("rpc"@ != "to"@) by {
        assert("rpc"@.len() != "to"@.len() || "rpc"@[0] != "to"@[0] || "rpc"@[1] != "to"@[1] || "rpc"@[2] != "to"@[2]);
    }
    assert("rpc"@ != "max"@) by {
        assert("rpc"@.len() != "max"@.len() || "rpc"@[0] != "max"@[0] || "rpc"@[1] != "max"@[1] || "rpc"@[2] != "max"@[2]);
    }
    assert("rpc"@ != "syntax"@) by {
        assert("rpc"@.len() != "syntax"@.len() || "rpc"@[0] != "syntax"@[0] || "rpc"@[1] != "syntax"@[1] || "rpc"@[2] != "syntax"@[2]);
    }
    assert("rpc"@ != "option"@) by {
        assert("rpc"@.len() != "option"@.len() || "rpc"@[0] != "option"@[0] || "rpc"@[1] != "option"@[1] || "rpc"@[2] != "option"@[2]);
    }
    assert("rpc"@ != "package"@) by {
        assert("rpc"@.len() != "package"@.len() || "rpc"@[0] != "package"@[0] || "rpc"@[1] != "package"@[1] || "rpc"@[2] != "package"@[2]);
    }
    assert("rpc"@ != "import"@) by {
        assert("rpc"@.len() != "import"@.len() || "rpc"@[0] != "import"@[0] || "rpc"@[1] != "import"@[1] || "rpc"@[2] != "import"@[2]);
    }
    assert("rpc"@ != "message"@) by {
        assert("rpc"@.len() != "message"@.len() || "rpc"@[0] != "message"@[0] || "rpc"@[1] != "message"@[1] || "rpc"@[2] != "message"@[2]);
    }
    assert("rpc"@ != "extend"@) by {
        assert("rpc"@.len() != "extend"@.len() || "rpc"@[0] != "extend"@[0] || "rpc"@[1] != "extend"@[1] || "rpc"@[2] != "extend"@[2]);
    }
    assert("rpc"@ != "enum"@) by {
        assert("rpc"@.len() != "enum"@.len() || "rpc"@[0] != "enum"@[0] || "rpc"@[1] != "enum"@[1] || "rpc"@[2] != "enum"@[2]);
    }
    assert("rpc"@ != "reserved"@) by {
        assert("rpc"@.len() != "reserved"@.len() || "rpc"@[0] != "reserved"@[0] || "rpc"@[1] != "reserved"@[1] || "rpc"@[2] != "reserved"@[2]);
    }
    assert("rpc"@ != "extensions"@) by {
        assert("rpc"@.len() != "extensions"@.len() || "rpc"@[0] != "extensions"@[0] || "rpc"@[1] != "extensions"@[1] || "rpc"@[2] != "extensions"@[2]);
    }
    assert("rpc"@ != "optional"@) by {
        assert("rpc"@.len() != "optional"@.len() || "rpc"@[0] != "optional"@[0] || "rpc"@[1] != "optional"@[1] || "rpc"@[2] != "optional"@[2]);
    }
    assert("rpc"@ != "repeated"@) by {
        assert("rpc"@.len() != "repeated"@.len() || "rpc"@[0] != "repeated"@[0] || "rpc"@[1] != "repeated"@[1] || "rpc"@[2] != "repeated"@[2]);
    }
    assert("rpc"@ != "required"@) by {
        assert("rpc"@.len() != "required"@.len() || "rpc"@[0] != "required"@[0] || "rpc"@[1] != "required"@[1] || "rpc"@[2] != "required"@[2]);
    }
    assert("rpc"@ != "map"@) by {
        assert("rpc"@.len() != "map"@.len() || "rpc"@[0] != "map"@[0] || "rpc"@[1] != "map"@[1] || "rpc"@[2] != "map"@[2]);
    }
    assert("rpc"@ != "oneof"@) by {
        assert("rpc"@.len() != "oneof"@.len() || "rpc"@[0] != "oneof"@[0] || "rpc"@[1] != "oneof"@[1] || "rpc"@[2] != "oneof"@[2]);
    }
    assert("rpc"@ != "service"@) by {
        assert("rpc"@.len() != "service"@.len() || "rpc"@[0] != "service"@[0] || "rpc"@[1] != "service"@[1] || "rpc"@[2] != "service"@[2]);
    }
    assert("returns"@ != "true"@) by {
        assert("returns"@.len() != "true"@.len() || "returns"@[0] != "true"@[0] || "returns"@[1] != "true"@[1] || "returns"@[2] != "true"@[2]);
    }
    assert("returns"@ != "false"@) by {
        assert("returns"@.len() != "false"@.len() || "returns"@[0] != "false"@[0] || "returns"@[1] != "false"@[1] || "returns"@[2] != "false"@[2]);
    }
    assert("returns"@ != "to"@) by {
        assert("returns"@.len() != "to"@.len() || "returns"@[0] != "to"@[0] || "returns"@[1] != "to"@[1] || "returns"@[2] != "to"@[2]);
    }
    assert("returns"@ != "max"@) by {
        assert("returns"@.len() != "max"@.len() || "returns"@[0] != "max"@[0] || "returns"@[1] != "max"@[1] || "returns"@[2] != "max"@[2]);
    }
    assert("returns"@ != "syntax"@) by {
        assert("returns"@.len() != "syntax"@.len() || "returns"@[0] != "syntax"@[0] || "returns"@[1] != "syntax"@[1] || "returns"@[2] != "syntax"@[2]);
    }
    assert("returns"@ != "option"@) by {
        assert("returns"@.len() != "option"@.len() || "returns"@[0] != "option"@[0] || "returns"@[1] != "option"@[1] || "returns"@[2] != "option"@[2]);
    }
    assert("returns"@ != "package"@) by {
        assert("returns"@.len() != "package"@.len() || "returns"@[0] != "package"@[0] || "returns"@[1] != "package"@[1] || "returns"@[2] != "package"@[2]);
    }
    assert("returns"@ != "import"@) by {
        assert("returns"@.len() != "import"@.len() || "returns"@[0] != "import"@[0] || "returns"@[1] != "import"@[1] || "returns"@[2] != "import"@[2]);
    }
    assert("returns"@ != "message"@) by {
        assert("returns"@.len() != "message"@.len() || "returns"@[0] != "message"@[0] || "returns"@[1] != "message"@[1] || "returns"@[2] != "message"@[2]);
    }
    assert("returns"@ != "extend"@) by {
        assert("returns"@.len() != "extend"@.len() || "returns"@[0] != "extend"@[0] || "returns"@[1] != "extend"@[1] || "returns"@[2] != "extend"@[2]);
    }
    assert("returns"@ != "enum"@) by {
        assert("returns"@.len() != "enum"@.len() || "returns"@[0] != "enum"@[0] || "returns"@[1] != "enum"@[1] || "returns"@[2] != "enum"@[2]);
    }
    assert("returns"@ != "reserved"@) by {
        assert("returns"@.len() != "reserved"@.len() || "returns"@[0] != "reserved"@[0] || "returns"@[1] != "reserved"@[1] || "returns"@[2] != "reserved"@[2]);
    }
    assert("returns"@ != "extensions"@) by {
        assert("returns"@.len() != "extensions"@.len() || "returns"@[0] != "extensions"@[0] || "returns"@[1] != "extensions"@[1] || "returns"@[2] != "extensions"@[2]);
    }
    assert("returns"@ != "optional"@) by {
        assert("returns"@.len() != "optional"@.len() || "returns"@[0] != "optional"@[0] || "returns"@[1] != "optional"@[1] || "returns"@[2] != "optional"@[2]);
    }
    assert("returns"@ != "repeated"@) by {
        assert("returns"@.len() != "repeated"@.len() || "returns"@[0] != "repeated"@[0] || "returns"@[1] != "repeated"@[1] || "returns"@[2] != "repeated"@[2]);
    }
    assert("returns"@ != "required"@) by {
        assert("returns"@.len() != "required"@.len() || "returns"@[0] != "required"@[0] || "returns"@[1] != "required"@[1] || "returns"@[2] != "required"@[2]);
    }
    assert("returns"@ != "map"@) by {
        assert("returns"@.len() != "map"@.len() || "returns"@[0] != "map"@[0] || "returns"@[1] != "map"@[1] || "returns"@[2] != "map"@[2]);
    }
    assert("returns"@ != "oneof"@) by {
        assert("returns"@.len() != "oneof"@.len() || "returns"@[0] != "oneof"@[0] || "returns"@[1] != "oneof"@[1] || "returns"@[2] != "oneof"@[2]);
    }
    assert("returns"@ != "service"@) by {
        assert("returns"@.len() != "service"@.len() || "returns"@[0] != "service"@[0] || "returns"@[1] != "service"@[1] || "returns"@[2] != "service"@[2]);
    }
    assert("returns"@ != "rpc"@) by {
        assert("returns"@.len() != "rpc"@.len() || "returns"@[0] != "rpc"@[0] || "returns"@[1] != "rpc"@[1] || "returns"@[2] != "rpc"@[2]);
    }
    assert("stream"@ != "true"@) by {
        assert("stream"@.len() != "true"@.len() || "stream"@[0] != "true"@[0] || "stream"@[1] != "true"@[1] || "stream"@[2] != "true"@[2]);
    }
    assert("stream"@ != "false"@) by {
        assert("stream"@.len() != "false"@.len() || "stream"@[0] != "false"@[0] || "stream"@[1] != "false"@[1] || "stream"@[2] != "false"@[2]);
    }
    assert("stream"@ != "to"@) by {
        assert("stream"@.len() != "to"@.len() || "stream"@[0] != "to"@[0] || "stream"@[1] != "to"@[1] || "stream"@[2] != "to"@[2]);
    }
    assert("stream"@ != "max"@) by {
        assert("stream"@.len() != "max"@.len() || "stream"@[0] != "max"@[0] || "stream"@[1] != "max"@[1] || "stream"@[2] != "max"@[2]);
    }
    assert("stream"@ != "syntax"@) by {
        assert("stream"@.len() != "syntax"@.len() || "stream"@[0] != "syntax"@[0] || "stream"@[1] != "syntax"@[1] || "stream"@[2] != "syntax"@[2]);
    }
    assert("stream"@ != "option"@) by {
        assert("stream"@.len() != "option"@.len() || "stream"@[0] != "option"@[0] || "stream"@[1] != "option"@[1] || "stream"@[2] != "option"@[2]);
    }
    assert("stream"@ != "package"@) by {
        assert("stream"@.len() != "package"@.len() || "stream"@[0] != "package"@[0] || "stream"@[1] != "package"@[1] || "stream"@[2] != "package"@[2]);
    }
    assert("stream"@ != "import"@) by {
        assert("stream"@.len() != "import"@.len() || "stream"@[0] != "import"@[0] || "stream"@[1] != "import"@[1] || "stream"@[2] != "import"@[2]);
    }
    assert("stream"@ != "message"@) by {
        assert("stream"@.len() != "message"@.len() || "stream"@[0] != "message"@[0] || "stream"@[1] != "message"@[1] || "stream"@[2] != "message"@[2]);
    }
    assert("stream"@ != "extend"@) by {
        assert("stream"@.len() != "extend"@.len() || "stream"@[0] != "extend"@[0] || "stream"@[1] != "extend"@[1] || "stream"@[2] != "extend"@[2]);
    }
    assert("stream"@ != "enum"@) by {
        assert("stream"@.len() != "enum"@.len() || "stream"@[0] != "enum"@[0] || "stream"@[1] != "enum"@[1] || "stream"@[2] != "enum"@[2]);
    }
    assert("stream"@ != "reserved"@) by {
        assert("stream"@.len() != "reserved"@.len() || "stream"@[0] != "reserved"@[0] || "stream"@[1] != "reserved"@[1] || "stream"@[2] != "reserved"@[2]);
    }
    assert("stream"@ != "extensions"@) by {
        assert("stream"@.len() != "extensions"@.len() || "stream"@[0] != "extensions"@[0] || "stream"@[1] != "extensions"@[1] || "stream"@[2] != "extensions"@[2]);
    }
    assert("stream"@ != "optional"@) by {
        assert("stream"@.len() != "optional"@.len() || "stream"@[0] != "optional"@[0] || "stream"@[1] != "optional"@[1] || "stream"@[2] != "optional"@[2]);
    }
    assert("stream"@ != "repeated"@) by {
        assert("stream"@.len() != "repeated"@.len() || "stream"@[0] != "repeated"@[0] || "stream"@[1] != "repeated"@[1] || "stream"@[2] != "repeated"@[2]);
    }
    assert("stream"@ != "required"@) by {
        assert("stream"@.len() != "required"@.len() || "stream"@[0] != "required"@[0] || "stream"@[1] != "required"@[1] || "stream"@[2] != "required"@[2]);
    }
    assert("stream"@ != "map"@) by {
        assert("stream"@.len() != "map"@.len() || "stream"@[0] != "map"@[0] || "stream"@[1] != "map"@[1] || "stream"@[2] != "map"@[2]);
    }
    assert("stream"@ != "oneof"@) by {
        assert("stream"@.len() != "oneof"@.len() || "stream"@[0] != "oneof"@[0] || "stream"@[1] != "oneof"@[1] || "stream"@[2] != "oneof"@[2]);
    }
    assert("stream"@ != "service"@) by {
        assert("stream"@.len() != "service"@.len() || "stream"@[0] != "service"@[0] || "stream"@[1] != "service"@[1] || "stream"@[2] != "service"@[2]);
    }
    assert("stream"@ != "rpc"@) by {
        assert("stream"@.len() != "rpc"@.len() || "stream"@[0] != "rpc"@[0] || "stream"@[1] != "rpc"@[1] || "stream"@[2] != "rpc"@[2]);
    }
    assert("stream"@ != "returns"@) by {
        assert("stream"@.len() != "returns"@.len() || "stream"@[0] != "returns"@[0] || "stream"@[1] != "returns"@[1] || "stream"@[2] != "returns"@[2]);
    }
}

/// Tokens as items that the lexer hands out.
pub open spec fn as_items(ts: Seq<PositionedToken>) -> Seq<Result<PositionedToken, LexicalError>> {
    ts.map_values(|t: PositionedToken| Ok::<PositionedToken, LexicalError>(t))
}

/// What the parser reads is a prefix of what the lexer hands out: the
/// tokens up to the first error, then that error; after it the lexer goes
/// on from the end of the error's text.
pub proof fn lemma_lex_is_prefix(s: Seq<char>, i: int)
    requires
        0 <= i,
        s.len() <= usize::MAX,
    ensures
        items_from(s, i) == as_items(lex_from(s, i).0) + match lex_from(s, i).1 {
            Some(e) => seq![Err::<PositionedToken, LexicalError>(e)] + items_from(s, e.end as int),
            None => Seq::empty(),
        },
    decreases s.len() - i,
{
    let j = skip_space(s, i);
    lemma_skip_space(s, i);
    if j < s.len() {
        match token_at(s, j) {
            Ok((t, e)) => {
                if e > j && e <= s.len() {
                    lemma_lex_is_prefix(s, e);
                    let pt = PositionedToken { start: j as usize, token: t, end: e as usize };
                    let rest = lex_from(s, e);
                    let tail = match rest.1 {
                        Some(er) => seq![Err::<PositionedToken, LexicalError>(er)] + items_from(
                            s,
                            er.end as int,
                        ),
                        None => Seq::empty(),
                    };
                    let okp = Ok::<PositionedToken, LexicalError>(pt);
                    assert(as_items(seq![pt] + rest.0) =~= seq![okp] + as_items(rest.0));
                    assert(seq![okp] + (as_items(rest.0) + tail) =~= seq![okp] + as_items(rest.0)
                        + tail);
                } else {
                    assert(as_items(lex_from(s, i).0) =~= Seq::empty());
                }
            },
            Err(_) => {
                assert(as_items(lex_from(s, i).0) =~= Seq::empty());
            },
        }
    } else {
        assert(as_items(lex_from(s, i).0) =~= Seq::empty());
    }
}

/// A cursor over the tokens of a source text.
pub struct Lexer {
    src: Vec<char>,
    offsets: Vec<usize>,
    pos: usize,
}

impl Lexer {
    /// What is still to come, spans in bytes.
    pub closed spec fn remaining(&self) -> Seq<Result<PositionedToken, LexicalError>> {
        items_from(self.src@, self.pos as int).map_values(
            |it: Result<PositionedToken, LexicalError>| item_in_bytes(self.src@, it),
        )
    }

    pub closed spec fn wf(&self) -> bool {
        &&& self.pos <= self.src.len() <= usize::MAX / 4
        &&& self.offsets.len() == self.src.len() + 1
        &&& forall|i: int| 0 <= i <= self.src.len() ==> self.offsets@[i] == byte_pos(self.src@, i)
    }

    /// A lexer at the start of `src`.
    pub fn new(src: &str) -> (r: Lexer)
        requires
            src@.len() <= usize::MAX / 4,
        ensures
            r.wf(),
            r.remaining() == lex_items(src@),
    {
        let chars = chars_of(src);
        let offsets = byte_offsets(&chars);
        Lexer { src: chars, offsets, pos: 0 }
    }

    /// The next token, or the next text that forms no token as an error;
    /// `None` once the source is used up.
    pub fn next(&mut self) -> (r: core::option::Option<Result<PositionedToken, LexicalError>>)
        requires
            old(self).wf(),
        ensures
            final(self).wf(),
            old(self).remaining().len() > 0 ==> r == Some(old(self).remaining()[0])
                && final(self).remaining() == old(self).remaining().drop_first(),
            old(self).remaining().len() == 0 ==> r is None && final(self).remaining() == old(
                self,
            ).remaining(),
    {
        let ghost s = self.src@;
        let ghost i = self.pos as int;
        let j = scan_space(&self.src, self.pos);
        if j >= self.src.len() {
            return None;
        }
        let item = match next_token(&self.src, j) {
            Ok((token, e)) => {
                let it = Ok(
                    PositionedToken {
                        start: to_byte(&self.src, &self.offsets, j),
                        token,
                        end: to_byte(&self.src, &self.offsets, e),
                    },
                );
                self.pos = e;
                it
            },
            Err((kind, e)) => {
                let it = Err(
                    LexicalError {
                        kind,
                        start: to_byte(&self.src, &self.offsets, j),
                        end: to_byte(&self.src, &self.offsets, e),
                    },
                );
                self.pos = e;
                it
            },
        };
        proof {
            let f = |it: Result<PositionedToken, LexicalError>| item_in_bytes(s, it);
            let all = items_from(s, i);
            assert(all == seq![all[0]] + items_from(s, self.pos as int));
            assert(all.map_values(f).drop_first() =~= items_from(s, self.pos as int).map_values(f));
        }
        Some(item)
    }
}

/// Everything the lexer hands out for `src`: each token, and each text that
/// forms no token as an error; spans in bytes.
pub fn tokenize(src: &str) -> (r: Vec<Result<PositionedToken, LexicalError>>)
    requires
        src@.len() <= usize::MAX / 4,
    ensures
        r@ == lex_items(src@),
{
    let mut lexer = Lexer::new(src);
    let mut r: Vec<Result<PositionedToken, LexicalError>> = Vec::new();
    loop
        invariant
            lexer.wf(),
            r@ + lexer.remaining() == lex_items(src@),
        decreases lexer.remaining().len(),
    {
        let ghost before = lexer.remaining();
        match lexer.next() {
            Some(it) => {
                assert(r@.push(it) + lexer.remaining() =~= r@ + before);
                r.push(it);
            },
            None => {
                assert(r@ + lexer.remaining() =~= r@);
                return r;
            },
        }
    }
}

} // verus!

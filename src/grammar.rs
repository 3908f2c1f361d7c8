//! The grammar, as spec functions over the token sequence.
//!
//! Each function reads the construct that starts at token position `p` and
//! yields its model with the position just past it, or the error of the
//! first token that no production accepts. Words that are keywords may
//! stand wherever a name is expected. Messages nest in messages, and option
//! maps in option maps, at most `MAX_NESTING` deep.
use crate::ast::{
    end_after, multi_line_comment, single_line_comment, FieldModifier, Range, RangeEnd, RpcStream,
    SpecComment, SpecEnum, SpecEnumEntry, SpecExpr, SpecExtend, SpecExtendEntry, SpecField,
    SpecMapValue, SpecMessage, SpecMessageEntry, SpecOneOf, SpecOneOfEntry, SpecOption, SpecRpc,
    SpecService, SpecServiceEntry,
};
use crate::lexer::{
    error_in_bytes, lemma_skip_space, lemma_token_at, lex, lex_from, pos_in_bytes, skip_space,
    token_at, token_in_bytes, LexicalError, PositionedToken, Token,
};
use vstd::prelude::*;

verus! {

/// Why a parse failed.
#[derive(Debug, Clone, Copy, PartialEq, Eq, Structural)]
pub enum ParseError {
    /// The lexer stopped on text that forms no token.
    Lexical(LexicalError),
    /// A token that no production accepts at its position.
    UnexpectedToken(PositionedToken),
    /// The input ended inside a construct; the position is just past the
    /// last token.
    UnexpectedEndOfInput(usize),
    /// A message or option map, at the token that opens it, nested more
    /// than `MAX_NESTING` deep.
    NestingTooDeep(PositionedToken),
}

/// How deep messages may nest in messages, and option maps in option maps.
pub const MAX_NESTING: usize = 64;

/// The source characters, their tokens, and the lexical error that ended
/// the tokens, if any.
pub struct SpecInput {
    pub src: Seq<char>,
    pub toks: Seq<PositionedToken>,
    pub tail: core::option::Option<LexicalError>,
}

pub type Parsed<T> = Result<(T, int), ParseError>;

/// Every token lies inside the source, and comment and string tokens hold
/// their delimiters.
pub open spec fn input_wf(inp: SpecInput) -> bool {
    forall|i: int|
        0 <= i < inp.toks.len() ==> #[trigger] token_wf(inp.src, inp.toks[i])
}

pub open spec fn token_wf(s: Seq<char>, t: PositionedToken) -> bool {
    &&& t.start < t.end <= s.len()
    &&& t.token == Token::SingleLineComment ==> t.end - t.start >= 2 && s[t.start as int] == '/'
        && s[t.start + 1] == '/'
    &&& t.token == Token::MultiLineComment ==> t.end - t.start >= 4 && s[t.start as int] == '/'
        && s[t.start + 1] == '*' && s[t.end - 2] == '*' && s[t.end - 1] == '/'
    &&& t.token == Token::String ==> t.end - t.start >= 2
}

pub open spec fn tok(inp: SpecInput, p: int) -> core::option::Option<Token> {
    if 0 <= p < inp.toks.len() {
        Some(inp.toks[p].token)
    } else {
        None
    }
}

/// The error for a parse that cannot go on at position `p`.
pub open spec fn fail_at(inp: SpecInput, p: int) -> ParseError {
    if 0 <= p < inp.toks.len() {
        ParseError::UnexpectedToken(inp.toks[p])
    } else {
        match inp.tail {
            Some(e) => ParseError::Lexical(e),
            None => ParseError::UnexpectedEndOfInput(
                if inp.toks.len() > 0 {
                    inp.toks.last().end
                } else {
                    0
                },
            ),
        }
    }
}

/// The source text between the start of token `a` and the end of token `b`.
pub open spec fn span_text(inp: SpecInput, a: int, b: int) -> Seq<char> {
    inp.src.subrange(inp.toks[a].start as int, inp.toks[b].end as int)
}

pub open spec fn token_text(inp: SpecInput, p: int) -> Seq<char> {
    span_text(inp, p, p)
}

/// The content of the string literal at `p`, without its quotes.
pub open spec fn string_text(inp: SpecInput, p: int) -> Seq<char> {
    inp.src.subrange(inp.toks[p].start + 1, inp.toks[p].end - 1)
}

/// Tokens that may stand for a name: identifiers and every keyword.
pub open spec fn ident_like(t: core::option::Option<Token>) -> bool {
    match t {
        Some(t) => match t {
            Token::Ident | Token::To | Token::Max | Token::Syntax | Token::Option | Token::Package
            | Token::Import | Token::Message | Token::Extend | Token::Enum | Token::Reserved
            | Token::Extensions | Token::Optional | Token::Repeated | Token::Required
            | Token::MapKeyword | Token::OneOf | Token::Service | Token::Rpc | Token::Returns
            | Token::Stream => true,
            _ => false,
        },
        None => false,
    }
}

/// The position after `t` at `p`.
pub open spec fn expect(inp: SpecInput, p: int, t: Token) -> Result<int, ParseError> {
    if tok(inp, p) == Some(t) {
        Ok(p + 1)
    } else {
        Err(fail_at(inp, p))
    }
}

/// The end of the `.name` segments of a dotted name from `q` on.
pub open spec fn dotted_rest(inp: SpecInput, q: int) -> Result<int, ParseError>
    decreases inp.toks.len() - q,
{
    if tok(inp, q) == Some(Token::Period) {
        if ident_like(tok(inp, q + 1)) {
            dotted_rest(inp, q + 2)
        } else {
            Err(fail_at(inp, q + 1))
        }
    } else {
        Ok(q)
    }
}

/// The end of a dotted name `[.]a.b.c` that starts at `p`.
pub open spec fn dotted_end(inp: SpecInput, p: int) -> Result<int, ParseError> {
    let first = if tok(inp, p) == Some(Token::Period) {
        p + 1
    } else {
        p
    };
    if ident_like(tok(inp, first)) {
        dotted_rest(inp, first + 1)
    } else {
        Err(fail_at(inp, first))
    }
}

/// A dotted name, as written in the source.
pub open spec fn dotted_at(inp: SpecInput, p: int) -> Parsed<Seq<char>> {
    match dotted_end(inp, p) {
        Ok(q) => Ok((span_text(inp, p, q - 1), q)),
        Err(e) => Err(e),
    }
}

/// A type: a dotted name, or `map<key, value>`; as written in the source.
pub open spec fn type_at(inp: SpecInput, p: int) -> Parsed<Seq<char>> {
    if tok(inp, p) == Some(Token::MapKeyword) && tok(inp, p + 1) == Some(Token::OpenAngle) {
        match dotted_end(inp, p + 2) {
            Err(e) => Err(e),
            Ok(q) => if tok(inp, q) != Some(Token::Comma) {
                Err(fail_at(inp, q))
            } else {
                match dotted_end(inp, q + 1) {
                    Err(e) => Err(e),
                    Ok(r) => if tok(inp, r) != Some(Token::CloseAngle) {
                        Err(fail_at(inp, r))
                    } else {
                        Ok((span_text(inp, p, r), r + 1))
                    },
                }
            },
        }
    } else {
        dotted_at(inp, p)
    }
}

/// The end of one part of an option key: a name, or `(dotted.name)`.
pub open spec fn key_part_end(inp: SpecInput, p: int) -> Result<int, ParseError> {
    if tok(inp, p) == Some(Token::OpenPth) {
        match dotted_end(inp, p + 1) {
            Err(e) => Err(e),
            Ok(q) => expect(inp, q, Token::ClosePth),
        }
    } else if ident_like(tok(inp, p)) {
        Ok(p + 1)
    } else {
        Err(fail_at(inp, p))
    }
}

pub open spec fn key_rest(inp: SpecInput, q: int) -> Result<int, ParseError>
    decreases inp.toks.len() - q,
{
    if 0 <= q < inp.toks.len() && tok(inp, q) == Some(Token::Period) {
        match key_part_end(inp, q + 1) {
            Err(e) => Err(e),
            Ok(r) => if r <= q || r > inp.toks.len() {
                Err(fail_at(inp, q))
            } else {
                key_rest(inp, r)
            },
        }
    } else {
        Ok(q)
    }
}

/// An option key: parts joined by `.`, as written in the source.
pub open spec fn key_at(inp: SpecInput, p: int) -> Parsed<Seq<char>> {
    match key_part_end(inp, p) {
        Err(e) => Err(e),
        Ok(q) => match key_rest(inp, q) {
            Err(e) => Err(e),
            Ok(r) => Ok((span_text(inp, p, r - 1), r)),
        },
    }
}

/// `m` with `k` bound to `v`: a key already present keeps its place and
/// takes the new value; a new key goes last.
pub open spec fn map_insert(m: Seq<(Seq<char>, SpecMapValue)>, k: Seq<char>, v: SpecMapValue) -> Seq<
    (Seq<char>, SpecMapValue),
> {
    if exists|i: int| 0 <= i < m.len() && (#[trigger] m[i]).0 == k {
        let i = choose|i: int| 0 <= i < m.len() && (#[trigger] m[i]).0 == k;
        m.update(i, (k, v))
    } else {
        m.push((k, v))
    }
}

/// An option value: a boolean, an integer, a string, a name, or a
/// brace-delimited map of `key: value` entries.
pub open spec fn value_at(inp: SpecInput, p: int, depth: int) -> Parsed<SpecMapValue>
    decreases inp.toks.len() - p, 0int,
{
    if p < 0 || p >= inp.toks.len() {
        Err(fail_at(inp, p))
    } else {
        match inp.toks[p].token {
            Token::Boolean(b) => Ok((SpecMapValue::Boolean(b), p + 1)),
            Token::Integer(n) => Ok((SpecMapValue::Integer(n), p + 1)),
            Token::String => Ok((SpecMapValue::String(string_text(inp, p)), p + 1)),
            Token::OpenBrace => if depth >= MAX_NESTING {
                Err(ParseError::NestingTooDeep(inp.toks[p]))
            } else {
                map_entries_at(inp, p + 1, Seq::empty(), depth + 1)
            },
            _ => if ident_like(tok(inp, p)) {
                Ok((SpecMapValue::Ident(token_text(inp, p)), p + 1))
            } else {
                Err(fail_at(inp, p))
            },
        }
    }
}

/// The entries of a map from `p` up to its closing brace, after those in `acc`.
pub open spec fn map_entries_at(
    inp: SpecInput,
    p: int,
    acc: Seq<(Seq<char>, SpecMapValue)>,
    depth: int,
) -> Parsed<
    SpecMapValue,
>
    decreases inp.toks.len() - p, 1int,
{
    if p < 0 || p >= inp.toks.len() {
        Err(fail_at(inp, p))
    } else if tok(inp, p) == Some(Token::CloseBrace) {
        Ok((SpecMapValue::Object(acc), p + 1))
    } else if !ident_like(tok(inp, p)) {
        Err(fail_at(inp, p))
    } else if tok(inp, p + 1) != Some(Token::Colon) {
        Err(fail_at(inp, p + 1))
    } else {
        match value_at(inp, p + 2, depth) {
            Err(e) => Err(e),
            Ok((v, q)) => {
                let next = if tok(inp, q) == Some(Token::Comma) {
                    q + 1
                } else {
                    q
                };
                if next <= p || next > inp.toks.len() {
                    Err(fail_at(inp, p))
                } else {
                    map_entries_at(inp, next, map_insert(acc, token_text(inp, p), v), depth)
                }
            },
        }
    }
}

/// `key = value`, as in an option statement or an option list.
pub open spec fn assignment_at(inp: SpecInput, p: int) -> Parsed<SpecOption> {
    match key_at(inp, p) {
        Err(e) => Err(e),
        Ok((key, q)) => if tok(inp, q) != Some(Token::Eq) {
            Err(fail_at(inp, q))
        } else {
            match value_at(inp, q + 1, 0) {
                Err(e) => Err(e),
                Ok((value, r)) => Ok((SpecOption { key, value }, r)),
            }
        },
    }
}

/// `option key = value;`
pub open spec fn option_at(inp: SpecInput, p: int) -> Parsed<SpecOption> {
    if tok(inp, p) != Some(Token::Option) {
        Err(fail_at(inp, p))
    } else {
        match assignment_at(inp, p + 1) {
            Err(e) => Err(e),
            Ok((o, q)) => match expect(inp, q, Token::Semicolon) {
                Err(e) => Err(e),
                Ok(r) => Ok((o, r)),
            },
        }
    }
}

/// The assignments of a bracketed option list from `p` up to its `]`,
/// after those in `acc`.
pub open spec fn option_list_at(inp: SpecInput, p: int, acc: Seq<SpecOption>) -> Parsed<
    Seq<SpecOption>,
>
    decreases inp.toks.len() - p,
{
    match assignment_at(inp, p) {
        Err(e) => Err(e),
        Ok((o, q)) => if tok(inp, q) == Some(Token::Comma) {
            if q + 1 <= p || q + 1 > inp.toks.len() {
                Err(fail_at(inp, p))
            } else {
                option_list_at(inp, q + 1, acc.push(o))
            }
        } else {
            match expect(inp, q, Token::CloseBracket) {
                Err(e) => Err(e),
                Ok(r) => Ok((acc.push(o), r)),
            }
        },
    }
}

/// An optional `[key = value, ...]` list.
pub open spec fn field_options_at(inp: SpecInput, p: int) -> Parsed<Seq<SpecOption>> {
    if tok(inp, p) == Some(Token::OpenBracket) {
        option_list_at(inp, p + 1, Seq::empty())
    } else {
        Ok((Seq::empty(), p))
    }
}

/// `type name = index [options];` with the modifier already read.
pub open spec fn field_body_at(inp: SpecInput, p: int, modifier: FieldModifier) -> Parsed<SpecField> {
    match type_at(inp, p) {
        Err(e) => Err(e),
        Ok((ty, q)) => if !ident_like(tok(inp, q)) {
            Err(fail_at(inp, q))
        } else if tok(inp, q + 1) != Some(Token::Eq) {
            Err(fail_at(inp, q + 1))
        } else {
            match tok(inp, q + 2) {
                Some(Token::Integer(index)) => match field_options_at(inp, q + 3) {
                    Err(e) => Err(e),
                    Ok((options, r)) => match expect(inp, r, Token::Semicolon) {
                        Err(e) => Err(e),
                        Ok(end) => Ok(
                            (
                                SpecField {
                                    modifier,
                                    ty,
                                    ident: token_text(inp, q),
                                    index,
                                    options,
                                },
                                end,
                            ),
                        ),
                    },
                },
                _ => Err(fail_at(inp, q + 2)),
            }
        },
    }
}

/// A field, with its modifier if one is written.
pub open spec fn field_at(inp: SpecInput, p: int) -> Parsed<SpecField> {
    match tok(inp, p) {
        Some(Token::Optional) => field_body_at(inp, p + 1, FieldModifier::Optional),
        Some(Token::Required) => field_body_at(inp, p + 1, FieldModifier::Required),
        Some(Token::Repeated) => field_body_at(inp, p + 1, FieldModifier::Repeated),
        _ => field_body_at(inp, p, FieldModifier::Plain),
    }
}

/// The comment token at `p`.
pub open spec fn comment_of(inp: SpecInput, p: int) -> SpecComment {
    if inp.toks[p].token == Token::SingleLineComment {
        single_line_comment(token_text(inp, p))
    } else {
        multi_line_comment(token_text(inp, p))
    }
}

pub open spec fn is_comment(t: core::option::Option<Token>) -> bool {
    t == Some(Token::SingleLineComment) || t == Some(Token::MultiLineComment)
}

/// The comma-separated ranges from `p` on, after those in `acc`: `n`,
/// `n to m` or `n to max`.
pub open spec fn ranges_at(inp: SpecInput, p: int, acc: Seq<Range>) -> Parsed<Seq<Range>>
    decreases inp.toks.len() - p,
{
    match tok(inp, p) {
        Some(Token::Integer(n)) => {
            let (r, q) = if tok(inp, p + 1) == Some(Token::To) {
                match tok(inp, p + 2) {
                    Some(Token::Integer(m)) => (Some(Range { start: n, end: end_after(m) }), p + 3),
                    Some(Token::Max) => (Some(Range { start: n, end: RangeEnd::Max }), p + 3),
                    _ => (None, p + 2),
                }
            } else {
                (Some(Range { start: n, end: end_after(n) }), p + 1)
            };
            match r {
                None => Err(fail_at(inp, q)),
                Some(r) => if tok(inp, q) == Some(Token::Comma) && q + 1 <= inp.toks.len() {
                    ranges_at(inp, q + 1, acc.push(r))
                } else {
                    Ok((acc.push(r), q))
                },
            }
        },
        _ => Err(fail_at(inp, p)),
    }
}

/// The comma-separated string literals from `p` on, after those in `acc`.
pub open spec fn names_at(inp: SpecInput, p: int, acc: Seq<Seq<char>>) -> Parsed<Seq<Seq<char>>>
    decreases inp.toks.len() - p,
{
    if tok(inp, p) == Some(Token::String) {
        if tok(inp, p + 1) == Some(Token::Comma) && p + 2 <= inp.toks.len() {
            names_at(inp, p + 2, acc.push(string_text(inp, p)))
        } else {
            Ok((acc.push(string_text(inp, p)), p + 1))
        }
    } else {
        Err(fail_at(inp, p))
    }
}

/// `reserved ranges;` or `reserved "a", "b";`.
pub open spec fn reserved_at(inp: SpecInput, p: int) -> Parsed<SpecMessageEntry> {
    if tok(inp, p + 1) == Some(Token::String) {
        match names_at(inp, p + 1, Seq::empty()) {
            Err(e) => Err(e),
            Ok((ns, q)) => match expect(inp, q, Token::Semicolon) {
                Err(e) => Err(e),
                Ok(r) => Ok((SpecMessageEntry::ReservedIdents(ns), r)),
            },
        }
    } else {
        match ranges_at(inp, p + 1, Seq::empty()) {
            Err(e) => Err(e),
            Ok((rs, q)) => match expect(inp, q, Token::Semicolon) {
                Err(e) => Err(e),
                Ok(r) => Ok((SpecMessageEntry::ReservedIndices(rs), r)),
            },
        }
    }
}

/// `extensions ranges;`.
pub open spec fn extensions_at(inp: SpecInput, p: int) -> Parsed<SpecMessageEntry> {
    match ranges_at(inp, p + 1, Seq::empty()) {
        Err(e) => Err(e),
        Ok((rs, q)) => match expect(inp, q, Token::Semicolon) {
            Err(e) => Err(e),
            Ok(r) => Ok((SpecMessageEntry::Extensions(rs), r)),
        },
    }
}

/// The position after `keyword name {`, with the name.
pub open spec fn block_head(inp: SpecInput, p: int) -> Parsed<Seq<char>> {
    if !ident_like(tok(inp, p + 1)) {
        Err(fail_at(inp, p + 1))
    } else if tok(inp, p + 2) != Some(Token::OpenBrace) {
        Err(fail_at(inp, p + 2))
    } else {
        Ok((token_text(inp, p + 1), p + 3))
    }
}

/// The entries of an enum from `p` up to its closing brace, after `acc`.
pub open spec fn enum_entries_at(inp: SpecInput, p: int, acc: Seq<SpecEnumEntry>) -> Parsed<
    Seq<SpecEnumEntry>,
>
    decreases inp.toks.len() - p,
{
    if p < 0 || p >= inp.toks.len() {
        Err(fail_at(inp, p))
    } else if tok(inp, p) == Some(Token::CloseBrace) {
        Ok((acc, p + 1))
    } else if is_comment(tok(inp, p)) {
        enum_entries_at(inp, p + 1, acc.push(SpecEnumEntry::Comment(comment_of(inp, p))))
    } else {
        let r: Parsed<SpecEnumEntry> = if tok(inp, p) == Some(Token::Option) {
            match option_at(inp, p) {
                Err(e) => Err(e),
                Ok((o, q)) => Ok((SpecEnumEntry::Option(o), q)),
            }
        } else if !ident_like(tok(inp, p)) {
            Err(fail_at(inp, p))
        } else if tok(inp, p + 1) != Some(Token::Eq) {
            Err(fail_at(inp, p + 1))
        } else {
            match tok(inp, p + 2) {
                Some(Token::Integer(value)) => match field_options_at(inp, p + 3) {
                    Err(e) => Err(e),
                    Ok((options, q)) => match expect(inp, q, Token::Semicolon) {
                        Err(e) => Err(e),
                        Ok(r) => Ok(
                            (SpecEnumEntry::Pair { ident: token_text(inp, p), value, options }, r),
                        ),
                    },
                },
                _ => Err(fail_at(inp, p + 2)),
            }
        };
        match r {
            Err(e) => Err(e),
            Ok((e, q)) => if q <= p || q > inp.toks.len() {
                Err(fail_at(inp, p))
            } else {
                enum_entries_at(inp, q, acc.push(e))
            },
        }
    }
}

/// `enum name { entries }`.
pub open spec fn enum_at(inp: SpecInput, p: int) -> Parsed<SpecEnum> {
    match block_head(inp, p) {
        Err(e) => Err(e),
        Ok((ident, q)) => match enum_entries_at(inp, q, Seq::empty()) {
            Err(e) => Err(e),
            Ok((entries, r)) => Ok((SpecEnum { ident, entries }, r)),
        },
    }
}

/// The entries of an extend block from `p` up to its closing brace, after `acc`.
pub open spec fn extend_entries_at(inp: SpecInput, p: int, acc: Seq<SpecExtendEntry>) -> Parsed<
    Seq<SpecExtendEntry>,
>
    decreases inp.toks.len() - p,
{
    if p < 0 || p >= inp.toks.len() {
        Err(fail_at(inp, p))
    } else if tok(inp, p) == Some(Token::CloseBrace) {
        Ok((acc, p + 1))
    } else if is_comment(tok(inp, p)) {
        extend_entries_at(inp, p + 1, acc.push(SpecExtendEntry::Comment(comment_of(inp, p))))
    } else {
        match field_at(inp, p) {
            Err(e) => Err(e),
            Ok((f, q)) => if q <= p || q > inp.toks.len() {
                Err(fail_at(inp, p))
            } else {
                extend_entries_at(inp, q, acc.push(SpecExtendEntry::Field(f)))
            },
        }
    }
}

/// `extend type { entries }`.
pub open spec fn extend_at(inp: SpecInput, p: int) -> Parsed<SpecExtend> {
    match dotted_at(inp, p + 1) {
        Err(e) => Err(e),
        Ok((ty, q)) => if tok(inp, q) != Some(Token::OpenBrace) {
            Err(fail_at(inp, q))
        } else {
            match extend_entries_at(inp, q + 1, Seq::empty()) {
                Err(e) => Err(e),
                Ok((entries, r)) => Ok((SpecExtend { ty, entries }, r)),
            }
        },
    }
}

/// The entries of a oneof group from `p` up to its closing brace, after `acc`.
pub open spec fn oneof_entries_at(inp: SpecInput, p: int, acc: Seq<SpecOneOfEntry>) -> Parsed<
    Seq<SpecOneOfEntry>,
>
    decreases inp.toks.len() - p,
{
    if p < 0 || p >= inp.toks.len() {
        Err(fail_at(inp, p))
    } else if tok(inp, p) == Some(Token::CloseBrace) {
        Ok((acc, p + 1))
    } else {
        let r: Parsed<SpecOneOfEntry> = if tok(inp, p) == Some(Token::Option) {
            match option_at(inp, p) {
                Err(e) => Err(e),
                Ok((o, q)) => Ok((SpecOneOfEntry::Option(o), q)),
            }
        } else {
            match field_body_at(inp, p, FieldModifier::Plain) {
                Err(e) => Err(e),
                Ok((f, q)) => Ok((SpecOneOfEntry::Field(f), q)),
            }
        };
        match r {
            Err(e) => Err(e),
            Ok((e, q)) => if q <= p || q > inp.toks.len() {
                Err(fail_at(inp, p))
            } else {
                oneof_entries_at(inp, q, acc.push(e))
            },
        }
    }
}

/// `oneof name { entries }`.
pub open spec fn oneof_at(inp: SpecInput, p: int) -> Parsed<SpecOneOf> {
    match block_head(inp, p) {
        Err(e) => Err(e),
        Ok((ident, q)) => match oneof_entries_at(inp, q, Seq::empty()) {
            Err(e) => Err(e),
            Ok((entries, r)) => Ok((SpecOneOf { ident, entries }, r)),
        },
    }
}

/// `message name { entries }`.
pub open spec fn message_at(inp: SpecInput, p: int, depth: int) -> Parsed<SpecMessage>
    decreases inp.toks.len() - p, 0int,
{
    if p < 0 || p >= inp.toks.len() {
        Err(fail_at(inp, p))
    } else if depth >= MAX_NESTING {
        Err(ParseError::NestingTooDeep(inp.toks[p]))
    } else {
        match block_head(inp, p) {
            Err(e) => Err(e),
            Ok((ident, q)) => if q != p + 3 {
                Err(fail_at(inp, p))
            } else {
                match message_entries_at(inp, p + 3, Seq::empty(), depth + 1) {
                    Err(e) => Err(e),
                    Ok((entries, r)) => Ok((SpecMessage { ident, entries }, r)),
                }
            },
        }
    }
}

/// One entry of a message that is neither a comment nor a nested message.
pub open spec fn message_item_at(inp: SpecInput, p: int) -> Parsed<SpecMessageEntry> {
    match tok(inp, p) {
        Some(Token::Option) => match option_at(inp, p) {
            Err(e) => Err(e),
            Ok((o, q)) => Ok((SpecMessageEntry::Option(o), q)),
        },
        Some(Token::Enum) => match enum_at(inp, p) {
            Err(e) => Err(e),
            Ok((x, q)) => Ok((SpecMessageEntry::Enum(x), q)),
        },
        Some(Token::Extend) => match extend_at(inp, p) {
            Err(e) => Err(e),
            Ok((x, q)) => Ok((SpecMessageEntry::Extend(x), q)),
        },
        Some(Token::OneOf) => match oneof_at(inp, p) {
            Err(e) => Err(e),
            Ok((x, q)) => Ok((SpecMessageEntry::OneOf(x), q)),
        },
        Some(Token::Reserved) => reserved_at(inp, p),
        Some(Token::Extensions) => extensions_at(inp, p),
        _ => match field_at(inp, p) {
            Err(e) => Err(e),
            Ok((f, q)) => Ok((SpecMessageEntry::Field(f), q)),
        },
    }
}

/// One entry of a message.
pub open spec fn message_entry_at(inp: SpecInput, p: int, depth: int) -> Parsed<SpecMessageEntry>
    decreases inp.toks.len() - p, 1int,
{
    if p < 0 || p >= inp.toks.len() {
        Err(fail_at(inp, p))
    } else if is_comment(tok(inp, p)) {
        Ok((SpecMessageEntry::Comment(comment_of(inp, p)), p + 1))
    } else if tok(inp, p) == Some(Token::Message) {
        match message_at(inp, p, depth) {
            Err(e) => Err(e),
            Ok((m, q)) => Ok((SpecMessageEntry::Message(m), q)),
        }
    } else {
        message_item_at(inp, p)
    }
}

/// The entries of a message from `p` up to its closing brace, after `acc`.
pub open spec fn message_entries_at(
    inp: SpecInput,
    p: int,
    acc: Seq<SpecMessageEntry>,
    depth: int,
) -> Parsed<
    Seq<SpecMessageEntry>,
>
    decreases inp.toks.len() - p, 2int,
{
    if p < 0 || p >= inp.toks.len() {
        Err(fail_at(inp, p))
    } else if tok(inp, p) == Some(Token::CloseBrace) {
        Ok((acc, p + 1))
    } else {
        match message_entry_at(inp, p, depth) {
            Err(e) => Err(e),
            Ok((e, q)) => if q <= p || q > inp.toks.len() {
                Err(fail_at(inp, p))
            } else {
                message_entries_at(inp, q, acc.push(e), depth)
            },
        }
    }
}

/// The stream marker of an rpc side: `stream` followed by more than `)`
/// (`(stream)` names a type).
pub open spec fn stream_marker(inp: SpecInput, p: int) -> bool {
    tok(inp, p) == Some(Token::Stream) && tok(inp, p + 1) != Some(Token::ClosePth)
}

pub open spec fn stream_of(request: bool, reply: bool) -> RpcStream {
    if request && reply {
        RpcStream::Bidirectional
    } else if request {
        RpcStream::ServerBound
    } else if reply {
        RpcStream::ClientBound
    } else {
        RpcStream::Unary
    }
}

/// `([stream] type)`, with whether it streams.
pub open spec fn rpc_side_at(inp: SpecInput, p: int) -> Parsed<(bool, Seq<char>)> {
    if tok(inp, p) != Some(Token::OpenPth) {
        Err(fail_at(inp, p))
    } else {
        let streams = stream_marker(inp, p + 1);
        let t = if streams {
            p + 2
        } else {
            p + 1
        };
        match dotted_at(inp, t) {
            Err(e) => Err(e),
            Ok((ty, q)) => match expect(inp, q, Token::ClosePth) {
                Err(e) => Err(e),
                Ok(r) => Ok(((streams, ty), r)),
            },
        }
    }
}

/// `rpc name ([stream] request) returns ([stream] reply);`.
pub open spec fn rpc_at(inp: SpecInput, p: int) -> Parsed<SpecRpc> {
    if !ident_like(tok(inp, p + 1)) {
        Err(fail_at(inp, p + 1))
    } else {
        match rpc_side_at(inp, p + 2) {
            Err(e) => Err(e),
            Ok(((req_stream, request), q)) => if tok(inp, q) != Some(Token::Returns) {
                Err(fail_at(inp, q))
            } else {
                match rpc_side_at(inp, q + 1) {
                    Err(e) => Err(e),
                    Ok(((rep_stream, reply), r)) => match expect(inp, r, Token::Semicolon) {
                        Err(e) => Err(e),
                        Ok(end) => Ok(
                            (
                                SpecRpc {
                                    ident: token_text(inp, p + 1),
                                    request,
                                    reply,
                                    stream: stream_of(req_stream, rep_stream),
                                },
                                end,
                            ),
                        ),
                    },
                }
            },
        }
    }
}

/// The entries of a service from `p` up to its closing brace, after `acc`.
pub open spec fn service_entries_at(inp: SpecInput, p: int, acc: Seq<SpecServiceEntry>) -> Parsed<
    Seq<SpecServiceEntry>,
>
    decreases inp.toks.len() - p,
{
    if p < 0 || p >= inp.toks.len() {
        Err(fail_at(inp, p))
    } else if tok(inp, p) == Some(Token::CloseBrace) {
        Ok((acc, p + 1))
    } else {
        let r: Parsed<SpecServiceEntry> = if tok(inp, p) == Some(Token::Option) {
            match option_at(inp, p) {
                Err(e) => Err(e),
                Ok((o, q)) => Ok((SpecServiceEntry::Option(o), q)),
            }
        } else if tok(inp, p) == Some(Token::Rpc) {
            match rpc_at(inp, p) {
                Err(e) => Err(e),
                Ok((x, q)) => Ok((SpecServiceEntry::Rpc(x), q)),
            }
        } else {
            Err(fail_at(inp, p))
        };
        match r {
            Err(e) => Err(e),
            Ok((e, q)) => if q <= p || q > inp.toks.len() {
                Err(fail_at(inp, p))
            } else {
                service_entries_at(inp, q, acc.push(e))
            },
        }
    }
}

/// `service name { entries }`.
pub open spec fn service_at(inp: SpecInput, p: int) -> Parsed<SpecService> {
    match block_head(inp, p) {
        Err(e) => Err(e),
        Ok((ident, q)) => match service_entries_at(inp, q, Seq::empty()) {
            Err(e) => Err(e),
            Ok((entries, r)) => Ok((SpecService { ident, entries }, r)),
        },
    }
}

/// `keyword "text";`, with the text.
pub open spec fn string_statement_at(inp: SpecInput, p: int) -> Parsed<Seq<char>> {
    if tok(inp, p + 1) != Some(Token::String) {
        Err(fail_at(inp, p + 1))
    } else {
        match expect(inp, p + 2, Token::Semicolon) {
            Err(e) => Err(e),
            Ok(q) => Ok((string_text(inp, p + 1), q)),
        }
    }
}

/// One top-level entry that is not a comment.
pub open spec fn top_item_at(inp: SpecInput, p: int) -> Parsed<SpecExpr> {
    match tok(inp, p) {
        Some(Token::Syntax) => if tok(inp, p + 1) != Some(Token::Eq) {
            Err(fail_at(inp, p + 1))
        } else {
            match string_statement_at(inp, p + 1) {
                Err(e) => Err(e),
                Ok((s, q)) => Ok((SpecExpr::Syntax(s), q)),
            }
        },
        Some(Token::Package) => match dotted_at(inp, p + 1) {
            Err(e) => Err(e),
            Ok((s, q)) => match expect(inp, q, Token::Semicolon) {
                Err(e) => Err(e),
                Ok(r) => Ok((SpecExpr::Package(s), r)),
            },
        },
        Some(Token::Import) => match string_statement_at(inp, p) {
            Err(e) => Err(e),
            Ok((s, q)) => Ok((SpecExpr::Import(s), q)),
        },
        Some(Token::Option) => match option_at(inp, p) {
            Err(e) => Err(e),
            Ok((o, q)) => Ok((SpecExpr::Option(o), q)),
        },
        Some(Token::Message) => match message_at(inp, p, 0) {
            Err(e) => Err(e),
            Ok((m, q)) => Ok((SpecExpr::Message(m), q)),
        },
        Some(Token::Extend) => match extend_at(inp, p) {
            Err(e) => Err(e),
            Ok((x, q)) => Ok((SpecExpr::Extend(x), q)),
        },
        Some(Token::Enum) => match enum_at(inp, p) {
            Err(e) => Err(e),
            Ok((x, q)) => Ok((SpecExpr::Enum(x), q)),
        },
        Some(Token::Service) => match service_at(inp, p) {
            Err(e) => Err(e),
            Ok((x, q)) => Ok((SpecExpr::Service(x), q)),
        },
        _ => Err(fail_at(inp, p)),
    }
}

/// The top-level entries from `p` to the end of the input, after `acc`.
pub open spec fn file_entries_at(inp: SpecInput, p: int, acc: Seq<SpecExpr>) -> Result<
    Seq<SpecExpr>,
    ParseError,
>
    decreases inp.toks.len() - p,
{
    if p < 0 || p >= inp.toks.len() {
        match inp.tail {
            Some(e) => Err(ParseError::Lexical(e)),
            None => Ok(acc),
        }
    } else {
        let r: Parsed<SpecExpr> = if is_comment(tok(inp, p)) {
            Ok((SpecExpr::Comment(comment_of(inp, p)), p + 1))
        } else {
            top_item_at(inp, p)
        };
        match r {
            Err(e) => Err(e),
            Ok((e, q)) => if q <= p || q > inp.toks.len() {
                Err(fail_at(inp, p))
            } else {
                file_entries_at(inp, q, acc.push(e))
            },
        }
    }
}

/// The syntax tree of a source text, or the first error in it, positioned
/// by character offset.
pub open spec fn parse_spec(src: Seq<char>) -> Result<Seq<SpecExpr>, ParseError> {
    let (toks, tail) = lex(src);
    file_entries_at(SpecInput { src, toks, tail }, 0, Seq::empty())
}

/// `e` with its positions turned into byte offsets in `src`.
pub open spec fn error_in_bytes_of(src: Seq<char>, e: ParseError) -> ParseError {
    match e {
        ParseError::Lexical(l) => ParseError::Lexical(error_in_bytes(src, l)),
        ParseError::UnexpectedToken(t) => ParseError::UnexpectedToken(token_in_bytes(src, t)),
        ParseError::UnexpectedEndOfInput(p) => ParseError::UnexpectedEndOfInput(
            pos_in_bytes(src, p),
        ),
        ParseError::NestingTooDeep(t) => ParseError::NestingTooDeep(token_in_bytes(src, t)),
    }
}

/// The syntax tree of a source text, or the first error in it, positioned
/// by byte offset.
pub open spec fn parse_result(src: Seq<char>) -> Result<Seq<SpecExpr>, ParseError> {
    match parse_spec(src) {
        Ok(t) => Ok(t),
        Err(e) => Err(error_in_bytes_of(src, e)),
    }
}

/// The lexer's tokens from position `i` on start at or after `i`, lie inside
/// the source, hold their delimiters, and come in source order.
pub proof fn lemma_lex_from_valid(s: Seq<char>, i: int)
    requires
        0 <= i,
        s.len() <= usize::MAX,
    ensures
        forall|k: int|
            0 <= k < lex_from(s, i).0.len() ==> token_wf(s, #[trigger] lex_from(s, i).0[k])
                && lex_from(s, i).0[k].start >= i,
        forall|a: int, b: int|
            0 <= a < b < lex_from(s, i).0.len() ==> #[trigger] lex_from(s, i).0[a].end
                <= #[trigger] lex_from(s, i).0[b].start,
    decreases s.len() - i,
{
    let j = skip_space(s, i);
    lemma_skip_space(s, i);
    if j < s.len() {
        match token_at(s, j) {
            Ok((t, e)) => {
                if e > j && e <= s.len() {
                    lemma_lex_from_valid(s, e);
                    lemma_token_at(s, j);
                    let rest = lex_from(s, e).0;
                    let pt = PositionedToken { start: j as usize, token: t, end: e as usize };
                    let toks = lex_from(s, i).0;
                    assert(toks == seq![pt] + rest);
                    assert forall|k: int| 0 <= k < toks.len() implies token_wf(
                        s,
                        #[trigger] toks[k],
                    ) && toks[k].start >= i by {
                        if k > 0 {
                            assert(toks[k] == rest[k - 1]);
                        } else {
                            assert(toks[k] == pt);
                            assert(pt.start == j && pt.end == e);
                            assert(token_wf(s, pt));
                        }
                    }
                    assert forall|a: int, b: int| 0 <= a < b < toks.len() implies #[trigger] toks[a].end
                        <= #[trigger] toks[b].start by {
                        assert(toks[b] == rest[b - 1]);
                        if a > 0 {
                            assert(toks[a] == rest[a - 1]);
                        } else {
                            assert(token_wf(s, rest[b - 1]));
                        }
                    }
                } else {
                    assert(lex_from(s, i).0.len() == 0);
                }
            },
            Err(_) => {
                assert(lex_from(s, i).0.len() == 0);
            },
        }
    } else {
        assert(lex_from(s, i).0.len() == 0);
    }
}

/// Parsing is a function of the source text: equal texts give equal
/// results, trees and errors alike.
pub proof fn lemma_parse_deterministic(a: Seq<char>, b: Seq<char>)
    requires
        a == b,
    ensures
        parse_result(a) == parse_result(b),
{
}

/// The two stream markers of an rpc select its stream kind one to one:
/// neither gives `Unary`, the request's alone `ServerBound`, the reply's
/// alone `ClientBound`, and both `Bidirectional`.
pub proof fn lemma_stream_kinds(request: bool, reply: bool, request2: bool, reply2: bool)
    ensures
        stream_of(false, false) == RpcStream::Unary,
        stream_of(true, false) == RpcStream::ServerBound,
        stream_of(false, true) == RpcStream::ClientBound,
        stream_of(true, true) == RpcStream::Bidirectional,
        stream_of(request, reply) == stream_of(request2, reply2) ==> request == request2 && reply
            == reply2,
{
}

/// A comment is an entry of its own, placed where it stands: at the top
/// level and in a message, enum or extend body, reading a comment token
/// appends its comment to the entries read so far and goes on just past it.
pub proof fn lemma_comments_keep_their_place(
    inp: SpecInput,
    p: int,
    top: Seq<SpecExpr>,
    fields: Seq<SpecMessageEntry>,
    values: Seq<SpecEnumEntry>,
    extensions: Seq<SpecExtendEntry>,
    depth: int,
)
    requires
        0 <= p < inp.toks.len(),
        is_comment(tok(inp, p)),
    ensures
        file_entries_at(inp, p, top) == file_entries_at(
            inp,
            p + 1,
            top.push(SpecExpr::Comment(comment_of(inp, p))),
        ),
        message_entries_at(inp, p, fields, depth) == message_entries_at(
            inp,
            p + 1,
            fields.push(SpecMessageEntry::Comment(comment_of(inp, p))),
            depth,
        ),
        enum_entries_at(inp, p, values) == enum_entries_at(
            inp,
            p + 1,
            values.push(SpecEnumEntry::Comment(comment_of(inp, p))),
        ),
        extend_entries_at(inp, p, extensions) == extend_entries_at(
            inp,
            p + 1,
            extensions.push(SpecExtendEntry::Comment(comment_of(inp, p))),
        ),
{
    assert(message_entry_at(inp, p, depth) == Ok::<(SpecMessageEntry, int), ParseError>(
        (SpecMessageEntry::Comment(comment_of(inp, p)), p + 1),
    ));
}

} // verus!

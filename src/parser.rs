//! The parser: a recursive-descent reading of the token sequence, proved to
//! follow the grammar's spec functions step for step.
use crate::ast::{
    lemma_map_entries_view, map_entries_view, message_entries_view, options_view, push_char,
    texts_view, Comment, Enum, EnumEntry, Expr, Extend, ExtendEntry, Field, FieldModifier,
    GlobalScope, MapValue, Message, MessageEntry, OneOf, OneOfEntry, Option, Range, RangeEnd, Rpc,
    RpcStream, Service, ServiceEntry, SpecEnum, SpecEnumEntry, SpecExpr, SpecExtend, SpecMapValue,
    SpecOneOf, SpecService,
};
use crate::grammar::{
    assignment_at, block_head, comment_of, dotted_at, dotted_end, dotted_rest, enum_at,
    enum_entries_at, expect, extend_at, extend_entries_at, extensions_at, fail_at, field_at,
    field_body_at, field_options_at, file_entries_at, ident_like, input_wf, is_comment, key_at,
    key_part_end, key_rest, lemma_lex_from_valid, map_entries_at, map_insert, message_at,
    message_entries_at, message_entry_at, message_item_at, names_at, oneof_at, oneof_entries_at,
    option_at, option_list_at, parse_result, ranges_at, reserved_at, rpc_at, rpc_side_at, service_at,
    service_entries_at, span_text, stream_marker, stream_of, string_statement_at, string_text, tok,
    token_text, token_wf, top_item_at, type_at, value_at, ParseError, Parsed, SpecInput,
    MAX_NESTING,
};
use crate::lexer::{
    byte_offsets, chars_of, lex_from, to_byte, tokenize_chars, LexicalError, PositionedToken,
    Token,
};
use vstd::prelude::*;

verus! {

/// The source characters, their tokens, and the lexical error that ended
/// the tokens, if any.
pub struct Input {
    pub src: Vec<char>,
    pub toks: Vec<PositionedToken>,
    pub tail: core::option::Option<LexicalError>,
}

impl View for Input {
    type V = SpecInput;

    open spec fn view(&self) -> SpecInput {
        SpecInput { src: self.src@, toks: self.toks@, tail: self.tail }
    }
}

/// Tokens come in source order.
pub open spec fn tokens_ordered(inp: SpecInput) -> bool {
    forall|i: int, j: int|
        0 <= i < j < inp.toks.len() ==> #[trigger] inp.toks[i].end <= #[trigger] inp.toks[j].start
}

pub open spec fn valid(inp: SpecInput) -> bool {
    input_wf(inp) && tokens_ordered(inp)
}

/// Whether an executable result is the spec result.
pub open spec fn agrees<T: View>(r: Result<(T, usize), ParseError>, s: Parsed<T::V>) -> bool {
    match r {
        Ok((v, q)) => s == Ok::<(T::V, int), ParseError>((v@, q as int)),
        Err(e) => s == Err::<(T::V, int), ParseError>(e),
    }
}

/// Whether an executable result is the spec result, under the view `f`.
pub open spec fn agrees_with<A, B>(r: Result<(A, usize), ParseError>, s: Parsed<B>, f: spec_fn(A) -> B) -> bool {
    match r {
        Ok((v, q)) => s == Ok::<(B, int), ParseError>((f(v), q as int)),
        Err(e) => s == Err::<(B, int), ParseError>(e),
    }
}

pub open spec fn agrees_pos(r: Result<usize, ParseError>, s: Result<int, ParseError>) -> bool {
    match r {
        Ok(q) => s == Ok::<int, ParseError>(q as int),
        Err(e) => s == Err::<int, ParseError>(e),
    }
}

/// The source text `src[a..b)`.
fn text(inp: &Input, a: usize, b: usize) -> (r: String)
    requires
        a <= b <= inp.src.len(),
    ensures
        r@ == inp.src@.subrange(a as int, b as int),
{
    let mut r = String::new();
    let mut k = a;
    while k < b
        invariant
            a <= k <= b <= inp.src.len(),
            r@ == inp.src@.subrange(a as int, k as int),
        decreases b - k,
    {
        push_char(&mut r, inp.src[k]);
        assert(inp.src@.subrange(a as int, k + 1) =~= inp.src@.subrange(a as int, k as int).push(
            inp.src@[k as int],
        ));
        k = k + 1;
    }
    r
}

fn span(inp: &Input, a: usize, b: usize) -> (r: String)
    requires
        valid(inp@),
        a <= b < inp.toks.len(),
    ensures
        r@ == span_text(inp@, a as int, b as int),
{
    assert(token_wf(inp@.src, inp@.toks[a as int]));
    assert(token_wf(inp@.src, inp@.toks[b as int]));
    if a < b {
        assert(inp.toks@[a as int].end <= inp.toks@[b as int].start);
    }
    text(inp, inp.toks[a].start, inp.toks[b].end)
}

fn string_content(inp: &Input, p: usize) -> (r: String)
    requires
        valid(inp@),
        p < inp.toks.len(),
        inp.toks@[p as int].token == Token::String,
    ensures
        r@ == string_text(inp@, p as int),
{
    assert(token_wf(inp@.src, inp@.toks[p as int]));
    text(inp, inp.toks[p].start + 1, inp.toks[p].end - 1)
}

fn tok_at(inp: &Input, p: usize) -> (r: core::option::Option<Token>)
    ensures
        r == tok(inp@, p as int),
{
    if p < inp.toks.len() {
        Some(inp.toks[p].token)
    } else {
        None
    }
}

fn is_tok(inp: &Input, p: usize, t: Token) -> (r: bool)
    ensures
        r == (tok(inp@, p as int) == Some(t)),
        r ==> p < inp.toks.len(),
{
    p < inp.toks.len() && inp.toks[p].token == t
}

fn fail(inp: &Input, p: usize) -> (e: ParseError)
    ensures
        e == fail_at(inp@, p as int),
{
    if p < inp.toks.len() {
        ParseError::UnexpectedToken(inp.toks[p])
    } else {
        match inp.tail {
            Some(e) => ParseError::Lexical(e),
            None => ParseError::UnexpectedEndOfInput(
                if inp.toks.len() > 0 {
                    inp.toks[inp.toks.len() - 1].end
                } else {
                    0
                },
            ),
        }
    }
}

fn name_like(inp: &Input, p: usize) -> (r: bool)
    ensures
        r == ident_like(tok(inp@, p as int)),
        r ==> p < inp.toks.len(),
{
    if p >= inp.toks.len() {
        return false;
    }
    match inp.toks[p].token {
        Token::Ident | Token::To | Token::Max | Token::Syntax | Token::Option | Token::Package
        | Token::Import | Token::Message | Token::Extend | Token::Enum | Token::Reserved
        | Token::Extensions | Token::Optional | Token::Repeated | Token::Required
        | Token::MapKeyword | Token::OneOf | Token::Service | Token::Rpc | Token::Returns
        | Token::Stream => true,
        _ => false,
    }
}

fn expect_tok(inp: &Input, p: usize, t: Token) -> (r: Result<usize, ParseError>)
    ensures
        agrees_pos(r, expect(inp@, p as int, t)),
        r matches Ok(q) ==> q == p + 1 && q <= inp.toks.len(),
{
    if is_tok(inp, p, t) {
        Ok(p + 1)
    } else {
        Err(fail(inp, p))
    }
}

fn parse_dotted_end(inp: &Input, p: usize) -> (r: Result<usize, ParseError>)
    requires
        p <= inp.toks.len(),
    ensures
        agrees_pos(r, dotted_end(inp@, p as int)),
        r matches Ok(q) ==> p < q <= inp.toks.len(),
{
    let first = if is_tok(inp, p, Token::Period) {
        p + 1
    } else {
        p
    };
    if !name_like(inp, first) {
        return Err(fail(inp, first));
    }
    let mut q = first + 1;
    while is_tok(inp, q, Token::Period)
        invariant
            p < q <= inp.toks.len(),
            dotted_end(inp@, p as int) == dotted_rest(inp@, q as int),
        decreases inp.toks.len() - q,
    {
        if !name_like(inp, q + 1) {
            return Err(fail(inp, q + 1));
        }
        q = q + 2;
    }
    Ok(q)
}

fn parse_dotted(inp: &Input, p: usize) -> (r: Result<(String, usize), ParseError>)
    requires
        valid(inp@),
        p <= inp.toks.len(),
    ensures
        agrees(r, dotted_at(inp@, p as int)),
        r matches Ok((_, q)) ==> p < q <= inp.toks.len(),
{
    let q = parse_dotted_end(inp, p)?;
    Ok((span(inp, p, q - 1), q))
}

fn parse_type(inp: &Input, p: usize) -> (r: Result<(String, usize), ParseError>)
    requires
        valid(inp@),
        p <= inp.toks.len(),
    ensures
        agrees(r, type_at(inp@, p as int)),
        r matches Ok((_, q)) ==> p < q <= inp.toks.len(),
{
    if is_tok(inp, p, Token::MapKeyword) && is_tok(inp, p + 1, Token::OpenAngle) {
        let q = parse_dotted_end(inp, p + 2)?;
        if !is_tok(inp, q, Token::Comma) {
            return Err(fail(inp, q));
        }
        let r = parse_dotted_end(inp, q + 1)?;
        if !is_tok(inp, r, Token::CloseAngle) {
            return Err(fail(inp, r));
        }
        Ok((span(inp, p, r), r + 1))
    } else {
        parse_dotted(inp, p)
    }
}

fn parse_key_part_end(inp: &Input, p: usize) -> (r: Result<usize, ParseError>)
    requires
        p <= inp.toks.len(),
    ensures
        agrees_pos(r, key_part_end(inp@, p as int)),
        r matches Ok(q) ==> p < q <= inp.toks.len(),
{
    if is_tok(inp, p, Token::OpenPth) {
        let q = parse_dotted_end(inp, p + 1)?;
        expect_tok(inp, q, Token::ClosePth)
    } else if name_like(inp, p) {
        Ok(p + 1)
    } else {
        Err(fail(inp, p))
    }
}

fn parse_key(inp: &Input, p: usize) -> (r: Result<(String, usize), ParseError>)
    requires
        valid(inp@),
        p <= inp.toks.len(),
    ensures
        agrees(r, key_at(inp@, p as int)),
        r matches Ok((_, q)) ==> p < q <= inp.toks.len(),
{
    let mut q = parse_key_part_end(inp, p)?;
    while q < inp.toks.len() && is_tok(inp, q, Token::Period)
        invariant
            p < q <= inp.toks.len(),
            key_part_end(inp@, p as int) is Ok,
            key_at(inp@, p as int) == match key_rest(inp@, q as int) {
                Err(e) => Err(e),
                Ok(r) => Ok((span_text(inp@, p as int, r - 1), r)),
            },
        decreases inp.toks.len() - q,
    {
        let r = parse_key_part_end(inp, q + 1)?;
        q = r;
    }
    Ok((span(inp, p, q - 1), q))
}

/// No key occurs twice.
pub open spec fn keys_unique(m: Seq<(Seq<char>, SpecMapValue)>) -> bool {
    forall|i: int, j: int| 0 <= i < j < m.len() ==> (#[trigger] m[i]).0 != (#[trigger] m[j]).0
}

fn insert_entry(acc: &mut Vec<(String, MapValue)>, k: String, v: MapValue)
    requires
        keys_unique(map_entries_view(old(acc)@)),
    ensures
        map_entries_view(final(acc)@) == map_insert(map_entries_view(old(acc)@), k@, v@),
        keys_unique(map_entries_view(final(acc)@)),
{
    let ghost m = map_entries_view(acc@);
    proof {
        lemma_map_entries_view(acc@);
    }
    let mut i: usize = 0;
    while i < acc.len()
        invariant
            i <= acc.len(),
            acc@ == old(acc)@,
            m == map_entries_view(acc@),
            keys_unique(m),
            m.len() == acc@.len(),
            forall|t: int| 0 <= t < i ==> (#[trigger] m[t]).0 != k@,
        decreases acc.len() - i,
    {
        proof {
            lemma_map_entries_view(acc@);
        }
        if acc[i].0 == k {
            assert(m[i as int].0 == k@);
            let ghost old_seq = acc@;
            acc.set(i, (k, v));
            proof {
                lemma_map_entries_view(acc@);
                let j = choose|j: int| 0 <= j < m.len() && (#[trigger] m[j]).0 == k@;
                assert(j == i);
                assert(map_entries_view(acc@) =~= m.update(i as int, (k@, v@)));
                assert(forall|t: int| 0 <= t < m.len() ==> (#[trigger] map_entries_view(acc@)[t]).0 == m[t].0);
            }
            return;
        }
        i = i + 1;
    }
    let ghost kv = k@;
    let ghost vv = v@;
    acc.push((k, v));
    proof {
        lemma_map_entries_view(acc@);
        assert(map_entries_view(acc@) =~= m.push((kv, vv)));
    }
}

fn parse_value(inp: &Input, p: usize, depth: usize) -> (r: Result<(MapValue, usize), ParseError>)
    requires
        valid(inp@),
        p <= inp.toks.len(),
        depth <= MAX_NESTING,
    ensures
        agrees(r, value_at(inp@, p as int, depth as int)),
        r matches Ok((_, q)) ==> p < q <= inp.toks.len(),
    decreases inp.toks.len() - p, 0usize,
{
    if p >= inp.toks.len() {
        return Err(fail(inp, p));
    }
    match inp.toks[p].token {
        Token::Boolean(b) => Ok((MapValue::Boolean(b), p + 1)),
        Token::Integer(n) => Ok((MapValue::Integer(n), p + 1)),
        Token::String => Ok((MapValue::String(string_content(inp, p)), p + 1)),
        Token::OpenBrace => if depth >= MAX_NESTING {
            Err(ParseError::NestingTooDeep(inp.toks[p]))
        } else {
            parse_map_entries(inp, p + 1, depth + 1)
        },
        _ => if name_like(inp, p) {
            Ok((MapValue::Ident(span(inp, p, p)), p + 1))
        } else {
            Err(fail(inp, p))
        },
    }
}

fn parse_map_entries(inp: &Input, p: usize, depth: usize) -> (r: Result<
    (MapValue, usize),
    ParseError,
>)
    requires
        valid(inp@),
        p <= inp.toks.len(),
        depth <= MAX_NESTING,
    ensures
        agrees(r, map_entries_at(inp@, p as int, Seq::empty(), depth as int)),
        r matches Ok((_, q)) ==> p < q <= inp.toks.len(),
    decreases inp.toks.len() - p, 1usize,
{
    let mut acc: Vec<(String, MapValue)> = Vec::new();
    let mut k = p;
    proof {
        assert(map_entries_view(acc@) =~= Seq::empty());
    }
    loop
        invariant
            p <= k <= inp.toks.len(),
            valid(inp@),
            keys_unique(map_entries_view(acc@)),
            depth <= MAX_NESTING,
            map_entries_at(inp@, p as int, Seq::empty(), depth as int) == map_entries_at(
                inp@,
                k as int,
                map_entries_view(acc@),
                depth as int,
            ),
        decreases inp.toks.len() - k,
    {
        if k >= inp.toks.len() {
            return Err(fail(inp, k));
        }
        if is_tok(inp, k, Token::CloseBrace) {
            return Ok((MapValue::Object(acc), k + 1));
        }
        if !name_like(inp, k) {
            return Err(fail(inp, k));
        }
        if !is_tok(inp, k + 1, Token::Colon) {
            return Err(fail(inp, k + 1));
        }
        let (v, q) = parse_value(inp, k + 2, depth)?;
        let next = if is_tok(inp, q, Token::Comma) {
            q + 1
        } else {
            q
        };
        if next <= k || next > inp.toks.len() {
            return Err(fail(inp, k));
        }
        let key = span(inp, k, k);
        insert_entry(&mut acc, key, v);
        k = next;
    }
}

fn parse_assignment(inp: &Input, p: usize) -> (r: Result<(Option, usize), ParseError>)
    requires
        valid(inp@),
        p <= inp.toks.len(),
    ensures
        agrees(r, assignment_at(inp@, p as int)),
        r matches Ok((_, q)) ==> p < q <= inp.toks.len(),
{
    let (key, q) = parse_key(inp, p)?;
    if !is_tok(inp, q, Token::Eq) {
        return Err(fail(inp, q));
    }
    let (value, r) = parse_value(inp, q + 1, 0)?;
    Ok((Option { key, value }, r))
}

fn parse_option(inp: &Input, p: usize) -> (r: Result<(Option, usize), ParseError>)
    requires
        valid(inp@),
        p <= inp.toks.len(),
    ensures
        agrees(r, option_at(inp@, p as int)),
        r matches Ok((_, q)) ==> p < q <= inp.toks.len(),
{
    if !is_tok(inp, p, Token::Option) {
        return Err(fail(inp, p));
    }
    let (o, q) = parse_assignment(inp, p + 1)?;
    let r = expect_tok(inp, q, Token::Semicolon)?;
    Ok((o, r))
}

fn parse_field_options(inp: &Input, p: usize) -> (r: Result<(Vec<Option>, usize), ParseError>)
    requires
        valid(inp@),
        p <= inp.toks.len(),
    ensures
        agrees_with(r, field_options_at(inp@, p as int), |v: Vec<Option>| options_view(v@)),
        r matches Ok((_, q)) ==> p <= q <= inp.toks.len(),
{
    let mut acc: Vec<Option> = Vec::new();
    if !is_tok(inp, p, Token::OpenBracket) {
        assert(options_view(acc@) =~= Seq::empty());
        return Ok((acc, p));
    }
    let mut k = p + 1;
    assert(options_view(acc@) =~= Seq::empty());
    loop
        invariant
            p < k <= inp.toks.len(),
            valid(inp@),
            field_options_at(inp@, p as int) == option_list_at(inp@, k as int, options_view(acc@)),
        decreases inp.toks.len() - k,
    {
        let (o, q) = parse_assignment(inp, k)?;
        let ghost before = acc@;
        acc.push(o);
        assert(options_view(acc@) =~= options_view(before).push(acc@.last()@));
        if is_tok(inp, q, Token::Comma) {
            if q + 1 <= k || q + 1 > inp.toks.len() {
                return Err(fail(inp, k));
            }
            k = q + 1;
        } else {
            let r = expect_tok(inp, q, Token::CloseBracket)?;
            return Ok((acc, r));
        }
    }
}

fn parse_field_body(inp: &Input, p: usize, modifier: FieldModifier) -> (r: Result<(Field, usize), ParseError>)
    requires
        valid(inp@),
        p <= inp.toks.len(),
    ensures
        agrees(r, field_body_at(inp@, p as int, modifier)),
        r matches Ok((_, q)) ==> p < q <= inp.toks.len(),
{
    let (ty, q) = parse_type(inp, p)?;
    if !name_like(inp, q) {
        return Err(fail(inp, q));
    }
    if !is_tok(inp, q + 1, Token::Eq) {
        return Err(fail(inp, q + 1));
    }
    match tok_at(inp, q + 2) {
        Some(Token::Integer(index)) => {
            let (options, r) = parse_field_options(inp, q + 3)?;
            let end = expect_tok(inp, r, Token::Semicolon)?;
            let ident = span(inp, q, q);
            Ok((Field { modifier, ty, ident, index, options }, end))
        },
        _ => Err(fail(inp, q + 2)),
    }
}

fn parse_field(inp: &Input, p: usize) -> (r: Result<(Field, usize), ParseError>)
    requires
        valid(inp@),
        p <= inp.toks.len(),
    ensures
        agrees(r, field_at(inp@, p as int)),
        r matches Ok((_, q)) ==> p < q <= inp.toks.len(),
{
    match tok_at(inp, p) {
        Some(Token::Optional) => parse_field_body(inp, p + 1, FieldModifier::Optional),
        Some(Token::Required) => parse_field_body(inp, p + 1, FieldModifier::Required),
        Some(Token::Repeated) => parse_field_body(inp, p + 1, FieldModifier::Repeated),
        _ => parse_field_body(inp, p, FieldModifier::Plain),
    }
}

fn parse_comment(inp: &Input, p: usize) -> (c: Comment)
    requires
        valid(inp@),
        p < inp.toks.len(),
        is_comment(tok(inp@, p as int)),
    ensures
        c@ == comment_of(inp@, p as int),
{
    assert(token_wf(inp@.src, inp@.toks[p as int]));
    let t = span(inp, p, p);
    if inp.toks[p].token == Token::SingleLineComment {
        Comment::single_line(t.as_str())
    } else {
        Comment::multi_line(t.as_str())
    }
}

fn parse_ranges(inp: &Input, p: usize) -> (r: Result<(Vec<Range>, usize), ParseError>)
    requires
        p <= inp.toks.len(),
    ensures
        agrees_with(r, ranges_at(inp@, p as int, Seq::empty()), |v: Vec<Range>| v@),
        r matches Ok((_, q)) ==> p < q <= inp.toks.len(),
{
    let mut acc: Vec<Range> = Vec::new();
    let mut k = p;
    loop
        invariant
            p <= k <= inp.toks.len(),
            ranges_at(inp@, p as int, Seq::empty()) == ranges_at(inp@, k as int, acc@),
        decreases inp.toks.len() - k,
    {
        match tok_at(inp, k) {
            Some(Token::Integer(n)) => {
                let (r, q) = if is_tok(inp, k + 1, Token::To) {
                    match tok_at(inp, k + 2) {
                        Some(Token::Integer(m)) => (
                            Some(Range { start: n, end: RangeEnd::after(m) }),
                            k + 3,
                        ),
                        Some(Token::Max) => (Some(Range { start: n, end: RangeEnd::Max }), k + 3),
                        _ => (None, k + 2),
                    }
                } else {
                    (Some(Range { start: n, end: RangeEnd::after(n) }), k + 1)
                };
                match r {
                    None => {
                        return Err(fail(inp, q));
                    },
                    Some(r) => {
                        acc.push(r);
                        if is_tok(inp, q, Token::Comma) && q + 1 <= inp.toks.len() {
                            k = q + 1;
                        } else {
                            return Ok((acc, q));
                        }
                    },
                }
            },
            _ => {
                return Err(fail(inp, k));
            },
        }
    }
}

fn parse_names(inp: &Input, p: usize) -> (r: Result<(Vec<String>, usize), ParseError>)
    requires
        valid(inp@),
        p <= inp.toks.len(),
    ensures
        agrees_with(r, names_at(inp@, p as int, Seq::empty()), |v: Vec<String>| texts_view(v@)),
        r matches Ok((_, q)) ==> p < q <= inp.toks.len(),
{
    let mut acc: Vec<String> = Vec::new();
    let mut k = p;
    assert(texts_view(acc@) =~= Seq::empty());
    loop
        invariant
            p <= k <= inp.toks.len(),
            valid(inp@),
            names_at(inp@, p as int, Seq::empty()) == names_at(inp@, k as int, texts_view(acc@)),
        decreases inp.toks.len() - k,
    {
        if !is_tok(inp, k, Token::String) {
            return Err(fail(inp, k));
        }
        let t = string_content(inp, k);
        let ghost before = acc@;
        acc.push(t);
        assert(texts_view(acc@) =~= texts_view(before).push(string_text(inp@, k as int)));
        if is_tok(inp, k + 1, Token::Comma) && k + 2 <= inp.toks.len() {
            k = k + 2;
        } else {
            return Ok((acc, k + 1));
        }
    }
}

fn parse_reserved(inp: &Input, p: usize) -> (r: Result<(MessageEntry, usize), ParseError>)
    requires
        valid(inp@),
        p < inp.toks.len(),
    ensures
        agrees(r, reserved_at(inp@, p as int)),
        r matches Ok((_, q)) ==> p < q <= inp.toks.len(),
{
    if is_tok(inp, p + 1, Token::String) {
        let (ns, q) = parse_names(inp, p + 1)?;
        let r = expect_tok(inp, q, Token::Semicolon)?;
        Ok((MessageEntry::ReservedIdents(ns), r))
    } else {
        let (rs, q) = parse_ranges(inp, p + 1)?;
        let r = expect_tok(inp, q, Token::Semicolon)?;
        Ok((MessageEntry::ReservedIndices(rs), r))
    }
}

fn parse_extensions(inp: &Input, p: usize) -> (r: Result<(MessageEntry, usize), ParseError>)
    requires
        valid(inp@),
        p < inp.toks.len(),
    ensures
        agrees(r, extensions_at(inp@, p as int)),
        r matches Ok((_, q)) ==> p < q <= inp.toks.len(),
{
    let (rs, q) = parse_ranges(inp, p + 1)?;
    let r = expect_tok(inp, q, Token::Semicolon)?;
    Ok((MessageEntry::Extensions(rs), r))
}

fn parse_block_head(inp: &Input, p: usize) -> (r: Result<(String, usize), ParseError>)
    requires
        valid(inp@),
        p < inp.toks.len(),
    ensures
        agrees(r, block_head(inp@, p as int)),
        r matches Ok((_, q)) ==> q == p + 3 && q <= inp.toks.len(),
{
    if !name_like(inp, p + 1) {
        return Err(fail(inp, p + 1));
    }
    if !is_tok(inp, p + 2, Token::OpenBrace) {
        return Err(fail(inp, p + 2));
    }
    Ok((span(inp, p + 1, p + 1), p + 3))
}

fn parse_enum_pair(inp: &Input, p: usize) -> (r: Result<(EnumEntry, usize), ParseError>)
    requires
        valid(inp@),
        p < inp.toks.len(),
        ident_like(tok(inp@, p as int)),
    ensures
        agrees(
            r,
            if tok(inp@, p as int + 1) != Some(Token::Eq) {
                Err(fail_at(inp@, p + 1))
            } else {
                match tok(inp@, p + 2) {
                    Some(Token::Integer(value)) => match field_options_at(inp@, p + 3) {
                        Err(e) => Err(e),
                        Ok((options, q)) => match expect(inp@, q, Token::Semicolon) {
                            Err(e) => Err(e),
                            Ok(r) => Ok(
                                (
                                    SpecEnumEntry::Pair {
                                        ident: token_text(inp@, p as int),
                                        value,
                                        options,
                                    },
                                    r,
                                ),
                            ),
                        },
                    },
                    _ => Err(fail_at(inp@, p + 2)),
                }
            },
        ),
        r matches Ok((_, q)) ==> p < q <= inp.toks.len(),
{
    if !is_tok(inp, p + 1, Token::Eq) {
        return Err(fail(inp, p + 1));
    }
    match tok_at(inp, p + 2) {
        Some(Token::Integer(value)) => {
            let (options, q) = parse_field_options(inp, p + 3)?;
            let r = expect_tok(inp, q, Token::Semicolon)?;
            let ident = span(inp, p, p);
            Ok((EnumEntry::Pair { ident, value, options }, r))
        },
        _ => Err(fail(inp, p + 2)),
    }
}

fn parse_enum(inp: &Input, p: usize) -> (r: Result<(Enum, usize), ParseError>)
    requires
        valid(inp@),
        p < inp.toks.len(),
    ensures
        agrees(r, enum_at(inp@, p as int)),
        r matches Ok((_, q)) ==> p < q <= inp.toks.len(),
{
    let (ident, p0) = parse_block_head(inp, p)?;
    let mut acc: Vec<EnumEntry> = Vec::new();
    let mut k = p0;
    assert(acc@.map_values(|e: EnumEntry| e@) =~= Seq::empty());
    loop
        invariant
            p < p0 <= k <= inp.toks.len(),
            valid(inp@),
            enum_at(inp@, p as int) == match enum_entries_at(
                inp@,
                k as int,
                acc@.map_values(|e: EnumEntry| e@),
            ) {
                Err(e) => Err(e),
                Ok((entries, r)) => Ok((SpecEnum { ident: ident@, entries }, r)),
            },
        decreases inp.toks.len() - k,
    {
        if k >= inp.toks.len() {
            return Err(fail(inp, k));
        }
        if is_tok(inp, k, Token::CloseBrace) {
            return Ok((Enum { ident, entries: acc }, k + 1));
        }
        let ghost before = acc@;
        let q;
        if inp.toks[k].token == Token::SingleLineComment || inp.toks[k].token
            == Token::MultiLineComment {
            acc.push(EnumEntry::Comment(parse_comment(inp, k)));
            q = k + 1;
        } else if is_tok(inp, k, Token::Option) {
            let (o, r) = parse_option(inp, k)?;
            acc.push(EnumEntry::Option(o));
            q = r;
        } else if !name_like(inp, k) {
            return Err(fail(inp, k));
        } else {
            let (e, r) = parse_enum_pair(inp, k)?;
            acc.push(e);
            q = r;
        }
        assert(acc@.map_values(|e: EnumEntry| e@) =~= before.map_values(|e: EnumEntry| e@).push(
            acc@.last()@,
        ));
        if q <= k || q > inp.toks.len() {
            return Err(fail(inp, k));
        }
        k = q;
    }
}

fn parse_extend(inp: &Input, p: usize) -> (r: Result<(Extend, usize), ParseError>)
    requires
        valid(inp@),
        p < inp.toks.len(),
    ensures
        agrees(r, extend_at(inp@, p as int)),
        r matches Ok((_, q)) ==> p < q <= inp.toks.len(),
{
    let (ty, q0) = parse_dotted(inp, p + 1)?;
    if !is_tok(inp, q0, Token::OpenBrace) {
        return Err(fail(inp, q0));
    }
    let mut acc: Vec<ExtendEntry> = Vec::new();
    let mut k = q0 + 1;
    assert(acc@.map_values(|e: ExtendEntry| e@) =~= Seq::empty());
    loop
        invariant
            p < k <= inp.toks.len(),
            valid(inp@),
            extend_at(inp@, p as int) == match extend_entries_at(
                inp@,
                k as int,
                acc@.map_values(|e: ExtendEntry| e@),
            ) {
                Err(e) => Err(e),
                Ok((entries, r)) => Ok((SpecExtend { ty: ty@, entries }, r)),
            },
        decreases inp.toks.len() - k,
    {
        if k >= inp.toks.len() {
            return Err(fail(inp, k));
        }
        if is_tok(inp, k, Token::CloseBrace) {
            return Ok((Extend { ty, entries: acc }, k + 1));
        }
        let ghost before = acc@;
        let q;
        if inp.toks[k].token == Token::SingleLineComment || inp.toks[k].token
            == Token::MultiLineComment {
            acc.push(ExtendEntry::Comment(parse_comment(inp, k)));
            q = k + 1;
        } else {
            let (f, r) = parse_field(inp, k)?;
            acc.push(ExtendEntry::Field(f));
            q = r;
        }
        assert(acc@.map_values(|e: ExtendEntry| e@) =~= before.map_values(|e: ExtendEntry| e@).push(
            acc@.last()@,
        ));
        if q <= k || q > inp.toks.len() {
            return Err(fail(inp, k));
        }
        k = q;
    }
}

fn parse_oneof(inp: &Input, p: usize) -> (r: Result<(OneOf, usize), ParseError>)
    requires
        valid(inp@),
        p < inp.toks.len(),
    ensures
        agrees(r, oneof_at(inp@, p as int)),
        r matches Ok((_, q)) ==> p < q <= inp.toks.len(),
{
    let (ident, p0) = parse_block_head(inp, p)?;
    let mut acc: Vec<OneOfEntry> = Vec::new();
    let mut k = p0;
    assert(acc@.map_values(|e: OneOfEntry| e@) =~= Seq::empty());
    loop
        invariant
            p < p0 <= k <= inp.toks.len(),
            valid(inp@),
            oneof_at(inp@, p as int) == match oneof_entries_at(
                inp@,
                k as int,
                acc@.map_values(|e: OneOfEntry| e@),
            ) {
                Err(e) => Err(e),
                Ok((entries, r)) => Ok((SpecOneOf { ident: ident@, entries }, r)),
            },
        decreases inp.toks.len() - k,
    {
        if k >= inp.toks.len() {
            return Err(fail(inp, k));
        }
        if is_tok(inp, k, Token::CloseBrace) {
            return Ok((OneOf { ident, entries: acc }, k + 1));
        }
        let ghost before = acc@;
        let q;
        if is_tok(inp, k, Token::Option) {
            let (o, r) = parse_option(inp, k)?;
            acc.push(OneOfEntry::Option(o));
            q = r;
        } else {
            let (f, r) = parse_field_body(inp, k, FieldModifier::Plain)?;
            acc.push(OneOfEntry::Field(f));
            q = r;
        }
        assert(acc@.map_values(|e: OneOfEntry| e@) =~= before.map_values(|e: OneOfEntry| e@).push(
            acc@.last()@,
        ));
        if q <= k || q > inp.toks.len() {
            return Err(fail(inp, k));
        }
        k = q;
    }
}

fn parse_message_item(inp: &Input, p: usize) -> (r: Result<(MessageEntry, usize), ParseError>)
    requires
        valid(inp@),
        p < inp.toks.len(),
    ensures
        agrees(r, message_item_at(inp@, p as int)),
        r matches Ok((_, q)) ==> p < q <= inp.toks.len(),
{
    match inp.toks[p].token {
        Token::Option => {
            let (o, q) = parse_option(inp, p)?;
            Ok((MessageEntry::Option(o), q))
        },
        Token::Enum => {
            let (x, q) = parse_enum(inp, p)?;
            Ok((MessageEntry::Enum(x), q))
        },
        Token::Extend => {
            let (x, q) = parse_extend(inp, p)?;
            Ok((MessageEntry::Extend(x), q))
        },
        Token::OneOf => {
            let (x, q) = parse_oneof(inp, p)?;
            Ok((MessageEntry::OneOf(x), q))
        },
        Token::Reserved => parse_reserved(inp, p),
        Token::Extensions => parse_extensions(inp, p),
        _ => {
            let (f, q) = parse_field(inp, p)?;
            Ok((MessageEntry::Field(f), q))
        },
    }
}

fn parse_message(inp: &Input, p: usize, depth: usize) -> (r: Result<(Message, usize), ParseError>)
    requires
        valid(inp@),
        p <= inp.toks.len(),
        depth <= MAX_NESTING,
    ensures
        agrees(r, message_at(inp@, p as int, depth as int)),
        r matches Ok((_, q)) ==> p < q <= inp.toks.len(),
    decreases inp.toks.len() - p, 0usize,
{
    if p >= inp.toks.len() {
        return Err(fail(inp, p));
    }
    if depth >= MAX_NESTING {
        return Err(ParseError::NestingTooDeep(inp.toks[p]));
    }
    let (ident, q) = parse_block_head(inp, p)?;
    let (entries, r) = parse_message_entries(inp, q, depth + 1)?;
    Ok((Message { ident, entries }, r))
}

fn parse_message_entry(inp: &Input, p: usize, depth: usize) -> (r: Result<
    (MessageEntry, usize),
    ParseError,
>)
    requires
        valid(inp@),
        p < inp.toks.len(),
        depth <= MAX_NESTING,
    ensures
        agrees(r, message_entry_at(inp@, p as int, depth as int)),
        r matches Ok((_, q)) ==> p < q <= inp.toks.len(),
    decreases inp.toks.len() - p, 1usize,
{
    if inp.toks[p].token == Token::SingleLineComment || inp.toks[p].token
        == Token::MultiLineComment {
        Ok((MessageEntry::Comment(parse_comment(inp, p)), p + 1))
    } else if is_tok(inp, p, Token::Message) {
        let (m, q) = parse_message(inp, p, depth)?;
        Ok((MessageEntry::Message(m), q))
    } else {
        parse_message_item(inp, p)
    }
}

fn parse_message_entries(inp: &Input, p: usize, depth: usize) -> (r: Result<
    (Vec<MessageEntry>, usize),
    ParseError,
>)
    requires
        valid(inp@),
        p <= inp.toks.len(),
        depth <= MAX_NESTING,
    ensures
        agrees_with(
            r,
            message_entries_at(inp@, p as int, Seq::empty(), depth as int),
            |v: Vec<MessageEntry>| message_entries_view(v@),
        ),
        r matches Ok((_, q)) ==> p < q <= inp.toks.len(),
    decreases inp.toks.len() - p, 2usize,
{
    let mut acc: Vec<MessageEntry> = Vec::new();
    let mut k = p;
    assert(message_entries_view(acc@) =~= Seq::empty());
    loop
        invariant
            p <= k <= inp.toks.len(),
            valid(inp@),
            depth <= MAX_NESTING,
            message_entries_at(inp@, p as int, Seq::empty(), depth as int) == message_entries_at(
                inp@,
                k as int,
                message_entries_view(acc@),
                depth as int,
            ),
        decreases inp.toks.len() - k,
    {
        if k >= inp.toks.len() {
            return Err(fail(inp, k));
        }
        if is_tok(inp, k, Token::CloseBrace) {
            return Ok((acc, k + 1));
        }
        let ghost before = acc@;
        let (e, q) = parse_message_entry(inp, k, depth)?;
        acc.push(e);
        assert(acc@.drop_last() =~= before);
        if q <= k || q > inp.toks.len() {
            return Err(fail(inp, k));
        }
        k = q;
    }
}

fn is_stream_marker(inp: &Input, p: usize) -> (r: bool)
    ensures
        r == stream_marker(inp@, p as int),
        r ==> p < inp.toks.len(),
{
    is_tok(inp, p, Token::Stream) && !is_tok(inp, p + 1, Token::ClosePth)
}

fn parse_rpc_side(inp: &Input, p: usize) -> (r: Result<((bool, String), usize), ParseError>)
    requires
        valid(inp@),
        p <= inp.toks.len(),
    ensures
        agrees_with(r, rpc_side_at(inp@, p as int), |x: (bool, String)| (x.0, x.1@)),
        r matches Ok((_, q)) ==> p < q <= inp.toks.len(),
{
    if !is_tok(inp, p, Token::OpenPth) {
        return Err(fail(inp, p));
    }
    let streams = is_stream_marker(inp, p + 1);
    let t = if streams {
        p + 2
    } else {
        p + 1
    };
    let (ty, q) = parse_dotted(inp, t)?;
    let r = expect_tok(inp, q, Token::ClosePth)?;
    Ok(((streams, ty), r))
}

fn rpc_stream(request: bool, reply: bool) -> (r: RpcStream)
    ensures
        r == stream_of(request, reply),
{
    if request && reply {
        RpcStream::Bidirectional
    } else if request {
        RpcStream::ServerBound
    } else if reply {
        RpcStream::ClientBound
    } else {
        RpcStream::Unary
    }
}

fn parse_rpc(inp: &Input, p: usize) -> (r: Result<(Rpc, usize), ParseError>)
    requires
        valid(inp@),
        p < inp.toks.len(),
    ensures
        agrees(r, rpc_at(inp@, p as int)),
        r matches Ok((_, q)) ==> p < q <= inp.toks.len(),
{
    if !name_like(inp, p + 1) {
        return Err(fail(inp, p + 1));
    }
    let ((req_stream, request), q) = parse_rpc_side(inp, p + 2)?;
    if !is_tok(inp, q, Token::Returns) {
        return Err(fail(inp, q));
    }
    let ((rep_stream, reply), r) = parse_rpc_side(inp, q + 1)?;
    let end = expect_tok(inp, r, Token::Semicolon)?;
    let ident = span(inp, p + 1, p + 1);
    Ok((Rpc { ident, request, reply, stream: rpc_stream(req_stream, rep_stream) }, end))
}

fn parse_service(inp: &Input, p: usize) -> (r: Result<(Service, usize), ParseError>)
    requires
        valid(inp@),
        p < inp.toks.len(),
    ensures
        agrees(r, service_at(inp@, p as int)),
        r matches Ok((_, q)) ==> p < q <= inp.toks.len(),
{
    let (ident, p0) = parse_block_head(inp, p)?;
    let mut acc: Vec<ServiceEntry> = Vec::new();
    let mut k = p0;
    assert(acc@.map_values(|e: ServiceEntry| e@) =~= Seq::empty());
    loop
        invariant
            p < p0 <= k <= inp.toks.len(),
            valid(inp@),
            service_at(inp@, p as int) == match service_entries_at(
                inp@,
                k as int,
                acc@.map_values(|e: ServiceEntry| e@),
            ) {
                Err(e) => Err(e),
                Ok((entries, r)) => Ok((SpecService { ident: ident@, entries }, r)),
            },
        decreases inp.toks.len() - k,
    {
        if k >= inp.toks.len() {
            return Err(fail(inp, k));
        }
        if is_tok(inp, k, Token::CloseBrace) {
            return Ok((Service { ident, entries: acc }, k + 1));
        }
        let ghost before = acc@;
        let q;
        if is_tok(inp, k, Token::Option) {
            let (o, r) = parse_option(inp, k)?;
            acc.push(ServiceEntry::Option(o));
            q = r;
        } else if is_tok(inp, k, Token::Rpc) {
            let (x, r) = parse_rpc(inp, k)?;
            acc.push(ServiceEntry::Rpc(x));
            q = r;
        } else {
            return Err(fail(inp, k));
        }
        assert(acc@.map_values(|e: ServiceEntry| e@) =~= before.map_values(|e: ServiceEntry| e@).push(
            acc@.last()@,
        ));
        if q <= k || q > inp.toks.len() {
            return Err(fail(inp, k));
        }
        k = q;
    }
}

fn parse_string_statement(inp: &Input, p: usize) -> (r: Result<(String, usize), ParseError>)
    requires
        valid(inp@),
        p < inp.toks.len(),
    ensures
        agrees(r, string_statement_at(inp@, p as int)),
        r matches Ok((_, q)) ==> p < q <= inp.toks.len(),
{
    if !is_tok(inp, p + 1, Token::String) {
        return Err(fail(inp, p + 1));
    }
    let q = expect_tok(inp, p + 2, Token::Semicolon)?;
    Ok((string_content(inp, p + 1), q))
}

fn parse_top_item(inp: &Input, p: usize) -> (r: Result<(Expr, usize), ParseError>)
    requires
        valid(inp@),
        p < inp.toks.len(),
    ensures
        agrees(r, top_item_at(inp@, p as int)),
        r matches Ok((_, q)) ==> p < q <= inp.toks.len(),
{
    match inp.toks[p].token {
        Token::Syntax => {
            if !is_tok(inp, p + 1, Token::Eq) {
                return Err(fail(inp, p + 1));
            }
            let (s, q) = parse_string_statement(inp, p + 1)?;
            Ok((Expr::Syntax(s), q))
        },
        Token::Package => {
            let (s, q) = parse_dotted(inp, p + 1)?;
            let r = expect_tok(inp, q, Token::Semicolon)?;
            Ok((Expr::Package(s), r))
        },
        Token::Import => {
            let (s, q) = parse_string_statement(inp, p)?;
            Ok((Expr::Import(s), q))
        },
        Token::Option => {
            let (o, q) = parse_option(inp, p)?;
            Ok((Expr::Option(o), q))
        },
        Token::Message => {
            let (m, q) = parse_message(inp, p, 0)?;
            Ok((Expr::Message(m), q))
        },
        Token::Extend => {
            let (x, q) = parse_extend(inp, p)?;
            Ok((Expr::Extend(x), q))
        },
        Token::Enum => {
            let (x, q) = parse_enum(inp, p)?;
            Ok((Expr::Enum(x), q))
        },
        Token::Service => {
            let (x, q) = parse_service(inp, p)?;
            Ok((Expr::Service(x), q))
        },
        _ => Err(fail(inp, p)),
    }
}

fn parse_file_entries(inp: &Input) -> (r: Result<GlobalScope, ParseError>)
    requires
        valid(inp@),
    ensures
        match r {
            Ok(v) => file_entries_at(inp@, 0, Seq::empty()) == Ok::<Seq<_>, ParseError>(
                v@.map_values(|e: Expr| e@),
            ),
            Err(e) => file_entries_at(inp@, 0, Seq::empty()) is Err && file_entries_at(
                inp@,
                0,
                Seq::empty(),
            )->Err_0 == e,
        },
{
    let mut acc: Vec<Expr> = Vec::new();
    let mut k: usize = 0;
    assert(acc@.map_values(|e: Expr| e@) =~= Seq::empty());
    loop
        invariant
            k <= inp.toks.len(),
            valid(inp@),
            file_entries_at(inp@, 0, Seq::empty()) == file_entries_at(
                inp@,
                k as int,
                acc@.map_values(|e: Expr| e@),
            ),
        decreases inp.toks.len() - k,
    {
        if k >= inp.toks.len() {
            return match inp.tail {
                Some(e) => Err(ParseError::Lexical(e)),
                None => Ok(acc),
            };
        }
        let ghost before = acc@;
        let q;
        if inp.toks[k].token == Token::SingleLineComment || inp.toks[k].token
            == Token::MultiLineComment {
            acc.push(Expr::Comment(parse_comment(inp, k)));
            q = k + 1;
        } else {
            let (e, r) = parse_top_item(inp, k)?;
            acc.push(e);
            q = r;
        }
        assert(acc@.map_values(|e: Expr| e@) =~= before.map_values(|e: Expr| e@).push(
            acc@.last()@,
        ));
        if q <= k || q > inp.toks.len() {
            return Err(fail(inp, k));
        }
        k = q;
    }
}

/// Parses a source text into its top-level entries, in source order; or
/// returns the first error: a lexical error, an unexpected token, or the
/// end of the input inside a construct. Error positions are byte offsets.
pub fn parse(src: &str) -> (r: Result<GlobalScope, ParseError>)
    requires
        src@.len() <= usize::MAX / 4,
    ensures
        match r {
            Ok(v) => parse_result(src@) == Ok::<Seq<_>, ParseError>(v@.map_values(|e: Expr| e@)),
            Err(e) => parse_result(src@) == Err::<Seq<SpecExpr>, ParseError>(e),
        },
{
    let chars = chars_of(src);
    let lexed = tokenize_chars(&chars);
    let inp = Input { src: chars, toks: lexed.tokens, tail: lexed.error };
    proof {
        lemma_lex_from_valid(inp.src@, 0);
        assert forall|i: int| 0 <= i < inp@.toks.len() implies #[trigger] token_wf(
            inp@.src,
            inp@.toks[i],
        ) by {
            assert(token_wf(inp.src@, lex_from(inp.src@, 0).0[i]));
        }
    }
    match parse_file_entries(&inp) {
        Ok(v) => Ok(v),
        Err(e) => {
            let offsets = byte_offsets(&inp.src);
            let s = &inp.src;
            Err(
                match e {
                    ParseError::Lexical(l) => ParseError::Lexical(
                        LexicalError {
                            kind: l.kind,
                            start: to_byte(s, &offsets, l.start),
                            end: to_byte(s, &offsets, l.end),
                        },
                    ),
                    ParseError::UnexpectedToken(t) => ParseError::UnexpectedToken(
                        PositionedToken {
                            start: to_byte(s, &offsets, t.start),
                            token: t.token,
                            end: to_byte(s, &offsets, t.end),
                        },
                    ),
                    ParseError::UnexpectedEndOfInput(p) => ParseError::UnexpectedEndOfInput(
                        to_byte(s, &offsets, p),
                    ),
                    ParseError::NestingTooDeep(t) => ParseError::NestingTooDeep(
                        PositionedToken {
                            start: to_byte(s, &offsets, t.start),
                            token: t.token,
                            end: to_byte(s, &offsets, t.end),
                        },
                    ),
                },
            )
        },
    }
}

} // verus!

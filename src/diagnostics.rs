//! Positions and messages for errors.
//!
//! Errors carry byte offsets. A position is a line, counted from 1, and a
//! column: the byte offset minus the byte offset of the last newline before
//! it (or minus 0 on the first line).
use crate::ast::push_char;
use crate::grammar::ParseError;
use crate::lexer::{byte_offsets, byte_pos, chars_of, LexicalError, LexicalErrorKind};
use vstd::prelude::*;

verus! {

/// The number of newlines in `s[0..k)`.
pub open spec fn newlines_before(s: Seq<char>, k: int) -> nat
    decreases k,
{
    if k <= 0 {
        0
    } else {
        newlines_before(s, k - 1) + if s[k - 1] == '\n' {
            1nat
        } else {
            0nat
        }
    }
}

/// The offset of the last newline in `s[0..k)`, or 0 if there is none.
pub open spec fn last_newline_before(s: Seq<char>, k: int) -> int
    decreases k,
{
    if k <= 0 {
        0
    } else if s[k - 1] == '\n' {
        k - 1
    } else {
        last_newline_before(s, k - 1)
    }
}

/// The first character offset whose byte offset is at least `offset`,
/// searching from `i`; the end of `s` if there is none.
pub open spec fn char_at_byte_from(s: Seq<char>, offset: int, i: int) -> int
    decreases s.len() - i,
{
    if i >= s.len() || byte_pos(s, i) >= offset {
        i
    } else {
        char_at_byte_from(s, offset, i + 1)
    }
}

pub open spec fn char_at_byte(s: Seq<char>, offset: int) -> int {
    char_at_byte_from(s, offset, 0)
}

/// The line of character offset `c`.
pub open spec fn line_at(s: Seq<char>, c: int) -> int {
    newlines_before(s, c) + 1int
}

/// The column of character offset `c`, counted in bytes.
pub open spec fn column_at(s: Seq<char>, c: int) -> int {
    byte_pos(s, c) - byte_pos(s, last_newline_before(s, c))
}

proof fn lemma_byte_pos_monotone(s: Seq<char>, a: int, b: int)
    requires
        0 <= a <= b,
    ensures
        byte_pos(s, a) <= byte_pos(s, b),
    decreases b - a,
{
    if a < b {
        lemma_byte_pos_monotone(s, a, b - 1);
    }
}

/// The line of character offset `c`, and the offset of the last newline
/// before it (0 if there is none).
fn line_and_start(src: &Vec<char>, c: usize) -> (r: (usize, usize))
    requires
        c <= src.len(),
        src.len() < usize::MAX,
    ensures
        r.0 == line_at(src@, c as int),
        r.1 == last_newline_before(src@, c as int),
        r.1 <= c,
{
    let mut lines: usize = 0;
    let mut last: usize = 0;
    let mut k: usize = 0;
    while k < c
        invariant
            k <= c <= src.len() < usize::MAX,
            lines == newlines_before(src@, k as int),
            lines <= k,
            last == last_newline_before(src@, k as int),
            last <= k,
        decreases c - k,
    {
        if src[k] == '\n' {
            lines = lines + 1;
            last = k;
        }
        k = k + 1;
    }
    (lines + 1, last)
}

/// The first character offset whose byte offset is at least `offset`.
fn char_index(src: &Vec<char>, offsets: &Vec<usize>, offset: usize) -> (r: usize)
    requires
        offsets.len() == src.len() + 1,
        forall|i: int| 0 <= i <= src.len() ==> offsets@[i] == byte_pos(src@, i),
    ensures
        r == char_at_byte(src@, offset as int),
        r <= src.len(),
{
    let mut i: usize = 0;
    while i < src.len() && offsets[i] < offset
        invariant
            i <= src.len(),
            offsets.len() == src.len() + 1,
            forall|j: int| 0 <= j <= src.len() ==> offsets@[j] == byte_pos(src@, j),
            char_at_byte(src@, offset as int) == char_at_byte_from(src@, offset as int, i as int),
        decreases src.len() - i,
    {
        i = i + 1;
    }
    i
}

pub open spec fn digit_char(d: nat) -> char {
    if d == 0 {
        '0'
    } else if d == 1 {
        '1'
    } else if d == 2 {
        '2'
    } else if d == 3 {
        '3'
    } else if d == 4 {
        '4'
    } else if d == 5 {
        '5'
    } else if d == 6 {
        '6'
    } else if d == 7 {
        '7'
    } else if d == 8 {
        '8'
    } else {
        '9'
    }
}

/// The decimal digits of `n`.
pub open spec fn decimal_text(n: nat) -> Seq<char>
    decreases n,
{
    if n < 10 {
        seq![digit_char(n)]
    } else {
        decimal_text(n / 10).push(digit_char(n % 10))
    }
}

fn append_decimal(out: &mut String, n: usize)
    ensures
        final(out)@ == old(out)@ + decimal_text(n as nat),
    decreases n,
{
    if n >= 10 {
        append_decimal(out, n / 10);
    }
    let d = n % 10;
    let c = if d == 0 {
        '0'
    } else if d == 1 {
        '1'
    } else if d == 2 {
        '2'
    } else if d == 3 {
        '3'
    } else if d == 4 {
        '4'
    } else if d == 5 {
        '5'
    } else if d == 6 {
        '6'
    } else if d == 7 {
        '7'
    } else if d == 8 {
        '8'
    } else {
        '9'
    };
    push_char(out, c);
    assert(out@ =~= old(out)@ + decimal_text(n as nat));
}

/// `s[a..b)`, or nothing where that is no range of `s`.
pub open spec fn excerpt(s: Seq<char>, a: int, b: int) -> Seq<char> {
    if 0 <= a <= b <= s.len() {
        s.subrange(a, b)
    } else {
        Seq::empty()
    }
}

/// ` at line L, column C` for byte offset `offset`.
pub open spec fn at_text(s: Seq<char>, offset: int) -> Seq<char> {
    let c = char_at_byte(s, offset);
    " at line "@ + decimal_text(line_at(s, c) as nat) + ", column "@ + decimal_text(
        column_at(s, c) as nat,
    )
}

/// The source text between byte offsets `a` and `b`.
pub open spec fn excerpt_bytes(s: Seq<char>, a: int, b: int) -> Seq<char> {
    excerpt(s, char_at_byte(s, a), char_at_byte(s, b))
}

/// The message for error `e` in source `s`.
pub open spec fn error_message(s: Seq<char>, e: ParseError) -> Seq<char> {
    match e {
        ParseError::Lexical(l) => match l.kind {
            LexicalErrorKind::InvalidToken => "Invalid token \""@ + excerpt_bytes(
                s,
                l.start as int,
                l.end as int,
            ) + "\""@ + at_text(s, l.start as int),
            LexicalErrorKind::InvalidInteger(_) => "Invalid number "@ + excerpt_bytes(
                s,
                l.start as int,
                l.end as int,
            ) + at_text(s, l.start as int) + ": overflow"@,
        },
        ParseError::UnexpectedToken(t) => "Unexpected token \""@ + excerpt_bytes(
            s,
            t.start as int,
            t.end as int,
        ) + "\""@ + at_text(s, t.start as int),
        ParseError::UnexpectedEndOfInput(p) => "Unexpected end of input"@ + at_text(s, p as int),
        ParseError::NestingTooDeep(t) => "Nesting too deep at \""@ + excerpt_bytes(
            s,
            t.start as int,
            t.end as int,
        ) + "\""@ + at_text(s, t.start as int),
    }
}

fn append_excerpt(out: &mut String, s: &Vec<char>, offsets: &Vec<usize>, a: usize, b: usize)
    requires
        offsets.len() == s.len() + 1,
        forall|i: int| 0 <= i <= s.len() ==> offsets@[i] == byte_pos(s@, i),
    ensures
        final(out)@ == old(out)@ + excerpt_bytes(s@, a as int, b as int),
{
    let a = char_index(s, offsets, a);
    let b = char_index(s, offsets, b);
    if a > b {
        assert(old(out)@ + Seq::<char>::empty() =~= old(out)@);
        return;
    }
    let mut k = a;
    while k < b
        invariant
            a <= k <= b <= s.len(),
            out@ == old(out)@ + s@.subrange(a as int, k as int),
        decreases b - k,
    {
        push_char(out, s[k]);
        assert(s@.subrange(a as int, k + 1) =~= s@.subrange(a as int, k as int).push(s@[k as int]));
        assert(old(out)@ + s@.subrange(a as int, k + 1) =~= old(out)@ + s@.subrange(a as int, k as int)
            + seq![s@[k as int]]);
        k = k + 1;
    }
}

fn append_at(out: &mut String, s: &Vec<char>, offsets: &Vec<usize>, offset: usize)
    requires
        s.len() < usize::MAX,
        offsets.len() == s.len() + 1,
        forall|i: int| 0 <= i <= s.len() ==> offsets@[i] == byte_pos(s@, i),
    ensures
        final(out)@ == old(out)@ + at_text(s@, offset as int),
{
    let c = char_index(s, offsets, offset);
    let (line, start) = line_and_start(s, c);
    proof {
        lemma_byte_pos_monotone(s@, start as int, c as int);
    }
    let column = offsets[c] - offsets[start];
    out.append(" at line ");
    append_decimal(out, line);
    out.append(", column ");
    append_decimal(out, column);
    assert(out@ =~= old(out)@ + at_text(s@, offset as int));
}

impl ParseError {
    /// A human-readable message for this error in the source `src`.
    pub fn message(&self, src: &str) -> (r: String)
        requires
            src@.len() <= usize::MAX / 4,
        ensures
            r@ == error_message(src@, *self),
    {
        let s = chars_of(src);
        let offsets = byte_offsets(&s);
        let mut out = String::new();
        match *self {
            ParseError::Lexical(l) => match l.kind {
                LexicalErrorKind::InvalidToken => {
                    out.append("Invalid token \"");
                    append_excerpt(&mut out, &s, &offsets, l.start, l.end);
                    out.append("\"");
                    append_at(&mut out, &s, &offsets, l.start);
                },
                LexicalErrorKind::InvalidInteger(_) => {
                    out.append("Invalid number ");
                    append_excerpt(&mut out, &s, &offsets, l.start, l.end);
                    append_at(&mut out, &s, &offsets, l.start);
                    out.append(": overflow");
                },
            },
            ParseError::UnexpectedToken(t) => {
                out.append("Unexpected token \"");
                append_excerpt(&mut out, &s, &offsets, t.start, t.end);
                out.append("\"");
                append_at(&mut out, &s, &offsets, t.start);
            },
            ParseError::UnexpectedEndOfInput(p) => {
                out.append("Unexpected end of input");
                append_at(&mut out, &s, &offsets, p);
            },
            ParseError::NestingTooDeep(t) => {
                out.append("Nesting too deep at \"");
                append_excerpt(&mut out, &s, &offsets, t.start, t.end);
                out.append("\"");
                append_at(&mut out, &s, &offsets, t.start);
            },
        }
        assert(out@ =~= error_message(src@, *self));
        out
    }
}

impl LexicalError {
    /// A human-readable message for this error in the source `src`.
    pub fn message(&self, src: &str) -> (r: String)
        requires
            src@.len() <= usize::MAX / 4,
        ensures
            r@ == error_message(src@, ParseError::Lexical(*self)),
    {
        ParseError::Lexical(*self).message(src)
    }
}

} // verus!

use proto_parser::ast::{
    Comment, CommentType, Expr, Field, FieldModifier, MapValue, Message, MessageEntry, Option,
    Range, RangeEnd, RpcStream, ServiceEntry,
};
use proto_parser::grammar::ParseError;
use proto_parser::lexer::{
    tokenize, IntegerOverflow, LexicalError, LexicalErrorKind, Lexer, PositionedToken, Token,
};
use proto_parser::parser::parse;

fn message_entries(src: &str) -> Vec<MessageEntry> {
    match parse(src) {
        Ok(mut ast) => match ast.remove(0) {
            Expr::Message(m) => m.entries,
            other => panic!("not a message: {:?}", other),
        },
        Err(e) => panic!("{:?}", e),
    }
}

type Items = Vec<Result<PositionedToken, LexicalError>>;

/// The tokens before the first error.
fn before_error(items: &Items) -> Vec<PositionedToken> {
    items.iter().map_while(|it| it.ok()).collect()
}

fn first_error(items: &Items) -> std::option::Option<LexicalError> {
    items.iter().find_map(|it| it.err())
}

fn tokens(src: &str) -> Vec<Token> {
    let items = tokenize(src);
    assert_eq!(first_error(&items), None);
    before_error(&items).iter().map(|t| t.token).collect()
}

#[test]
fn reserved_ranges_are_half_open() {
    let entries = message_entries("message M { reserved 2, 6 to max; }");
    assert_eq!(
        entries,
        vec![MessageEntry::ReservedIndices(vec![
            Range { start: 2, end: RangeEnd::Integer(3) },
            Range { start: 6, end: RangeEnd::Max },
        ])]
    );
}

#[test]
fn extension_ranges_with_explicit_span() {
    let entries = message_entries("message M { extensions 1, 2 to 4, 6 to max; }");
    assert_eq!(
        entries,
        vec![MessageEntry::Extensions(vec![
            Range { start: 1, end: RangeEnd::Integer(2) },
            Range { start: 2, end: RangeEnd::Integer(5) },
            Range { start: 6, end: RangeEnd::Max },
        ])]
    );
}

#[test]
fn largest_range_end_has_no_bound() {
    let entries = message_entries("message M { reserved 9223372036854775807, 1 to 9223372036854775807; }");
    assert_eq!(
        entries,
        vec![MessageEntry::ReservedIndices(vec![
            Range { start: i64::MAX, end: RangeEnd::Max },
            Range { start: 1, end: RangeEnd::Max },
        ])]
    );
    assert_eq!(Range::from(i64::MAX), Range { start: i64::MAX, end: RangeEnd::Max });
    assert_eq!(Range::from(7), Range { start: 7, end: RangeEnd::Integer(8) });
    assert_eq!(Range::from(2..4), Range { start: 2, end: RangeEnd::Integer(5) });
    assert_eq!(Range::from((6, ())), Range { start: 6, end: RangeEnd::Max });
}

#[test]
fn keywords_name_messages() {
    for word in [
        "message", "to", "max", "syntax", "option", "package", "import", "enum", "reserved",
        "extensions", "optional", "required", "repeated", "map", "oneof", "extend", "service",
        "rpc", "returns", "stream",
    ] {
        let src = format!("message {} {{ }}", word);
        assert_eq!(
            parse(&src),
            Ok(vec![Expr::Message(Message { ident: word.to_string(), entries: vec![] })])
        );
    }
}

#[test]
fn keywords_name_fields() {
    let entries = message_entries("message M { map max = 1; to.max reserved = 2; }");
    assert_eq!(
        entries,
        vec![
            MessageEntry::Field(Field::basic("map", "max", 1)),
            MessageEntry::Field(Field::basic("to.max", "reserved", 2)),
        ]
    );
}

#[test]
fn integer_overflow_is_a_lexical_error() {
    let lexed = tokenize("x = 99999999999999999999;");
    let err = LexicalError {
        kind: LexicalErrorKind::InvalidInteger(IntegerOverflow::Positive),
        start: 4,
        end: 24,
    };
    assert_eq!(first_error(&lexed), Some(err));
    assert_eq!(before_error(&lexed).len(), 2);
    assert_eq!(parse("option x = 99999999999999999999;"), Err(ParseError::Lexical(LexicalError {
        kind: LexicalErrorKind::InvalidInteger(IntegerOverflow::Positive),
        start: 11,
        end: 31,
    })));
    assert_eq!(
        first_error(&tokenize("-9223372036854775809")),
        Some(LexicalError {
            kind: LexicalErrorKind::InvalidInteger(IntegerOverflow::Negative),
            start: 0,
            end: 20,
        })
    );
    assert_eq!(
        first_error(&tokenize("0x8000000000000000")),
        Some(LexicalError {
            kind: LexicalErrorKind::InvalidInteger(IntegerOverflow::Positive),
            start: 0,
            end: 18,
        })
    );
}

#[test]
fn integer_literals_at_the_limits() {
    assert_eq!(
        tokens("9223372036854775807 -9223372036854775808 0x7fffffffffffffff 0x1F -0 007"),
        vec![
            Token::Integer(i64::MAX),
            Token::Integer(i64::MIN),
            Token::Integer(i64::MAX),
            Token::Integer(31),
            Token::Integer(0),
            Token::Integer(7),
        ]
    );
}

#[test]
fn longest_match_and_keywords() {
    assert_eq!(
        tokens("token to maxed max true falsey 12ab"),
        vec![
            Token::Ident,
            Token::To,
            Token::Ident,
            Token::Max,
            Token::Boolean(true),
            Token::Ident,
            Token::Integer(12),
            Token::Ident,
        ]
    );
}

#[test]
fn token_spans() {
    let lexed = tokenize("  message A{}");
    assert_eq!(
        before_error(&lexed),
        vec![
            PositionedToken { start: 2, token: Token::Message, end: 9 },
            PositionedToken { start: 10, token: Token::Ident, end: 11 },
            PositionedToken { start: 11, token: Token::OpenBrace, end: 12 },
            PositionedToken { start: 12, token: Token::CloseBrace, end: 13 },
        ]
    );
}

#[test]
fn strings_keep_escaped_quotes() {
    let ast = parse("import 'a\\'b'; import \"\";").unwrap();
    assert_eq!(ast, vec![Expr::Import("a\\'b".to_string()), Expr::Import(String::new())]);
}

#[test]
fn invalid_token() {
    let lexed = tokenize("message M { @ }");
    assert_eq!(
        first_error(&lexed),
        Some(LexicalError { kind: LexicalErrorKind::InvalidToken, start: 12, end: 13 })
    );
    assert_eq!(before_error(&lexed).len(), 3);
    assert_eq!(
        first_error(&tokenize("import \"open")),
        Some(LexicalError { kind: LexicalErrorKind::InvalidToken, start: 7, end: 8 })
    );
    assert_eq!(
        first_error(&tokenize("/* open")),
        Some(LexicalError { kind: LexicalErrorKind::InvalidToken, start: 0, end: 1 })
    );
}

#[test]
fn first_error_wins() {
    let err = parse("message { @").unwrap_err();
    assert_eq!(
        err,
        ParseError::UnexpectedToken(PositionedToken { start: 8, token: Token::OpenBrace, end: 9 })
    );
    let err = parse("message M { @").unwrap_err();
    assert_eq!(
        err,
        ParseError::Lexical(LexicalError { kind: LexicalErrorKind::InvalidToken, start: 12, end: 13 })
    );
}

#[test]
fn missing_semicolon_points_after_last_token() {
    let err = parse("message M {\n  bool x = 1\n}").unwrap_err();
    assert_eq!(
        err,
        ParseError::UnexpectedToken(PositionedToken { start: 25, token: Token::CloseBrace, end: 26 })
    );
    let err = parse("message M { bool x = 1").unwrap_err();
    assert_eq!(err, ParseError::UnexpectedEndOfInput(22));
    assert_eq!(parse("").unwrap(), vec![]);
    assert_eq!(parse("syntax").unwrap_err(), ParseError::UnexpectedEndOfInput(6));
}

#[test]
fn comments_keep_their_place_at_every_level() {
    let ast = parse(
        "// a\nmessage M { // b\n message N { /* c */ } // d\n enum E { // e\n X = 0; /* f */ } }\n// g",
    )
    .unwrap();
    let c = |t: &str| Comment::single_line(t);
    assert_eq!(
        ast,
        vec![
            Expr::Comment(c("// a")),
            Expr::Message(Message {
                ident: "M".to_string(),
                entries: vec![
                    MessageEntry::Comment(c("// b")),
                    MessageEntry::Message(Message {
                        ident: "N".to_string(),
                        entries: vec![MessageEntry::Comment(Comment::multi_line("/* c */"))],
                    }),
                    MessageEntry::Comment(c("// d")),
                    MessageEntry::Enum(proto_parser::ast::Enum {
                        ident: "E".to_string(),
                        entries: vec![
                            proto_parser::ast::EnumEntry::Comment(c("// e")),
                            proto_parser::ast::EnumEntry::Pair {
                                ident: "X".to_string(),
                                value: 0,
                                options: vec![],
                            },
                            proto_parser::ast::EnumEntry::Comment(Comment::multi_line("/* f */")),
                        ],
                    }),
                ],
            }),
            Expr::Comment(c("// g")),
        ]
    );
}

#[test]
fn comment_text_is_trimmed() {
    let c = Comment::single_line("//   spaced out  ");
    assert_eq!(c.kind, CommentType::SingleLine);
    assert_eq!(c.source, "//   spaced out  ");
    assert_eq!(c.text, "spaced out");
    let c = Comment::multi_line("/*\n  block\n*/");
    assert_eq!(c.kind, CommentType::MultiLine);
    assert_eq!(c.text, "block");
}

#[test]
fn nested_option_maps() {
    let ast = parse("option o = { a: { b: 1, c: x }, d: 'e' };").unwrap();
    let inner = MapValue::Object(vec![
        ("b".to_string(), MapValue::Integer(1)),
        ("c".to_string(), MapValue::Ident("x".to_string())),
    ]);
    assert_eq!(
        ast,
        vec![Expr::Option(Option {
            key: "o".to_string(),
            value: MapValue::Object(vec![
                ("a".to_string(), inner),
                ("d".to_string(), MapValue::String("e".to_string())),
            ]),
        })]
    );
}

#[test]
fn duplicate_map_keys_overwrite() {
    let ast = parse("option o = { a: 1, b: 2, a: 3 };").unwrap();
    assert_eq!(
        ast,
        vec![Expr::Option(Option {
            key: "o".to_string(),
            value: MapValue::Object(vec![
                ("a".to_string(), MapValue::Integer(3)),
                ("b".to_string(), MapValue::Integer(2)),
            ]),
        })]
    );
}

#[test]
fn rpc_stream_markers() {
    let ast = parse(
        "service S { rpc A(X) returns (Y); rpc B(stream X) returns (Y); rpc C(X) returns (stream Y); rpc D(stream X) returns (stream .p.Y); }",
    )
    .unwrap();
    let streams: Vec<RpcStream> = match &ast[0] {
        Expr::Service(s) => s
            .entries
            .iter()
            .map(|e| match e {
                ServiceEntry::Rpc(r) => r.stream,
                ServiceEntry::Option(_) => panic!("unexpected option"),
            })
            .collect(),
        _ => panic!("not a service"),
    };
    assert_eq!(
        streams,
        vec![
            RpcStream::Unary,
            RpcStream::ServerBound,
            RpcStream::ClientBound,
            RpcStream::Bidirectional
        ]
    );
}

#[test]
fn parsing_is_deterministic() {
    let src = "syntax = \"proto3\"; // c\nmessage M { map<string, M> m = 1 [a.(b).c = {x: true}]; }";
    assert_eq!(parse(src), parse(src));
    assert!(parse(src).is_ok());
}

#[test]
fn field_modifiers_and_options() {
    let entries = message_entries("message M { repeated .a.B f = -3 [(x).y = 1, z = false]; }");
    assert_eq!(
        entries,
        vec![MessageEntry::Field(Field {
            modifier: FieldModifier::Repeated,
            ty: ".a.B".to_string(),
            ident: "f".to_string(),
            index: -3,
            options: vec![
                Option { key: "(x).y".to_string(), value: MapValue::Integer(1) },
                Option { key: "z".to_string(), value: MapValue::Boolean(false) },
            ],
        })]
    );
}

#[test]
fn lexer_hands_out_tokens_then_error() {
    let mut lexer = Lexer::new("a 1 $");
    assert_eq!(lexer.next(), Some(Ok(PositionedToken { start: 0, token: Token::Ident, end: 1 })));
    assert_eq!(
        lexer.next(),
        Some(Ok(PositionedToken { start: 2, token: Token::Integer(1), end: 3 }))
    );
    assert_eq!(
        lexer.next(),
        Some(Err(LexicalError { kind: LexicalErrorKind::InvalidToken, start: 4, end: 5 }))
    );
    assert_eq!(lexer.next(), None);
    assert_eq!(lexer.next(), None);
}

#[test]
fn lexer_goes_on_after_an_error() {
    let mut lexer = Lexer::new("@ a");
    assert_eq!(
        lexer.next(),
        Some(Err(LexicalError { kind: LexicalErrorKind::InvalidToken, start: 0, end: 1 }))
    );
    assert_eq!(lexer.next(), Some(Ok(PositionedToken { start: 2, token: Token::Ident, end: 3 })));
    assert_eq!(lexer.next(), None);
    assert_eq!(
        tokenize("a 99999999999999999999 $ b"),
        vec![
            Ok(PositionedToken { start: 0, token: Token::Ident, end: 1 }),
            Err(LexicalError {
                kind: LexicalErrorKind::InvalidInteger(IntegerOverflow::Positive),
                start: 2,
                end: 22,
            }),
            Err(LexicalError { kind: LexicalErrorKind::InvalidToken, start: 23, end: 24 }),
            Ok(PositionedToken { start: 25, token: Token::Ident, end: 26 }),
        ]
    );
}

#[test]
fn rpc_and_map_marks_lex_apart() {
    assert_eq!(
        tokens("[k = { a: { b: true } }]"),
        vec![
            Token::OpenBracket,
            Token::Ident,
            Token::Eq,
            Token::OpenBrace,
            Token::Ident,
            Token::Colon,
            Token::OpenBrace,
            Token::Ident,
            Token::Colon,
            Token::Boolean(true),
            Token::CloseBrace,
            Token::CloseBrace,
            Token::CloseBracket,
        ]
    );
    assert_eq!(
        tokens("rpc X(stream A) returns (stream B);"),
        vec![
            Token::Rpc,
            Token::Ident,
            Token::OpenPth,
            Token::Stream,
            Token::Ident,
            Token::ClosePth,
            Token::Returns,
            Token::OpenPth,
            Token::Stream,
            Token::Ident,
            Token::ClosePth,
            Token::Semicolon,
        ]
    );
}

#[test]
fn white_space_of_every_kind_is_skipped() {
    assert_eq!(
        tokens("\t\n\u{b}\u{c}\r \u{85}\u{a0}a\u{1680}\u{2000}\u{200a}\u{2028}\u{2029}\u{202f}\u{205f}\u{3000}b"),
        vec![Token::Ident, Token::Ident]
    );
    assert_eq!(
        first_error(&tokenize("\u{200b}")),
        Some(LexicalError { kind: LexicalErrorKind::InvalidToken, start: 0, end: 3 })
    );
    assert_eq!(Comment::single_line("//\u{3000} x \u{a0}").text, "x");
}

#[test]
fn error_messages() {
    let src = "message M {\n  bool x = 1\n}";
    let err = parse(src).unwrap_err();
    assert_eq!(err.message(src), "Unexpected token \"}\" at line 3, column 1");
    let src = "option x =\n  99999999999999999999;";
    assert_eq!(
        parse(src).unwrap_err().message(src),
        "Invalid number 99999999999999999999 at line 2, column 3: overflow"
    );
    let src = "message @";
    assert_eq!(parse(src).unwrap_err().message(src), "Invalid token \"@\" at line 1, column 8");
    let src = "message M {";
    assert_eq!(
        parse(src).unwrap_err().message(src),
        "Unexpected end of input at line 1, column 11"
    );
}

#[test]
fn constructors() {
    let m = Message::empty("E");
    assert_eq!(m, Message { ident: "E".to_string(), entries: vec![] });
    let f = Field::basic("bool", "b", 9);
    assert_eq!(
        f,
        Field {
            modifier: FieldModifier::Plain,
            ty: "bool".to_string(),
            ident: "b".to_string(),
            index: 9,
            options: vec![]
        }
    );
}

#[test]
fn spans_count_bytes() {
    let lexed = tokenize("/* é */ @");
    assert_eq!(
        before_error(&lexed),
        vec![PositionedToken { start: 0, token: Token::MultiLineComment, end: 8 }]
    );
    assert_eq!(
        first_error(&lexed),
        Some(LexicalError { kind: LexicalErrorKind::InvalidToken, start: 9, end: 10 })
    );
    let src = "// ü\nmessage ä";
    let err = parse(src).unwrap_err();
    assert_eq!(
        err,
        ParseError::Lexical(LexicalError { kind: LexicalErrorKind::InvalidToken, start: 14, end: 16 })
    );
    assert_eq!(err.message(src), "Invalid token \"ä\" at line 2, column 9");
    match err {
        ParseError::Lexical(l) => {
            assert_eq!(l.message(src), "Invalid token \"ä\" at line 2, column 9")
        },
        _ => unreachable!(),
    }
    assert_eq!(parse("import \"é\";").unwrap(), vec![Expr::Import("é".to_string())]);
}

#[test]
fn nesting_is_bounded() {
    let deep = |n: usize| format!("{}{}", "message M { ".repeat(n), "} ".repeat(n));
    assert!(parse(&deep(64)).is_ok());
    let src = deep(65);
    match parse(&src) {
        Err(ParseError::NestingTooDeep(t)) => {
            assert_eq!(t, PositionedToken { start: 12 * 64, token: Token::Message, end: 12 * 64 + 7 })
        },
        other => panic!("{:?}", other),
    }
    let maps = |n: usize| format!("option o = {}{};", "{ a: ".repeat(n - 1) + "{", "}".repeat(n));
    assert!(parse(&maps(64)).is_ok());
    match parse(&maps(65)) {
        Err(ParseError::NestingTooDeep(t)) => assert_eq!(t.token, Token::OpenBrace),
        other => panic!("{:?}", other),
    }
    let src = deep(1000);
    assert_eq!(
        parse(&src).unwrap_err().message(&src),
        "Nesting too deep at \"message\" at line 1, column 768"
    );
}

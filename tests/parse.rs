use proto_parser::ast::{
    Comment, Enum, EnumEntry, Expr, Extend, ExtendEntry, Field, FieldModifier, FileEntry,
    GlobalScope, MapValue, Message, MessageEntry, OneOf, OneOfEntry, Option, Range, Rpc, RpcStream,
    Service, ServiceEntry,
};
use proto_parser::parser::parse;

fn parse_ast(src: &str) -> GlobalScope {
    match parse(src) {
        Err(error) => panic!("{:?}", error),
        Ok(ast) => ast,
    }
}

fn s(text: &str) -> String {
    text.to_string()
}

fn field(modifier: FieldModifier, ty: &str, ident: &str, index: i64) -> Field {
    Field { modifier, ty: s(ty), ident: s(ident), index, options: vec![] }
}

fn opt(key: &str, value: MapValue) -> Option {
    Option { key: s(key), value }
}

fn map(entries: Vec<(&str, MapValue)>) -> MapValue {
    MapValue::Object(entries.into_iter().map(|(k, v)| (s(k), v)).collect())
}

fn pair(ident: &str, value: i64, options: Vec<Option>) -> EnumEntry {
    EnumEntry::Pair { ident: s(ident), value, options }
}

#[test]
fn empty() {
    let ast = parse_ast("");
    assert!(ast.is_empty());
}

#[test]
fn syntax() {
    let ast = parse_ast("syntax = \"proto3\";\n");
    let target_ast = vec![FileEntry::Syntax(s("proto3"))];

    assert_eq!(ast, target_ast);
}

#[test]
fn package_simple() {
    let ast = parse_ast("syntax = \"proto3\";\n\npackage mypkg;\n");
    let target_ast = vec![FileEntry::Syntax(s("proto3")), FileEntry::Package(s("mypkg"))];

    assert_eq!(ast, target_ast);
}

#[test]
fn package_complex() {
    let ast = parse_ast("syntax = \"proto3\";\n\npackage my.pkg;\n");
    let target_ast = vec![FileEntry::Syntax(s("proto3")), FileEntry::Package(s("my.pkg"))];

    assert_eq!(ast, target_ast);
}

#[test]
fn import() {
    let ast = parse_ast("syntax = \"proto3\";\n\nimport \"google/protobuf/any.proto\";\n");
    let target_ast = vec![
        FileEntry::Syntax(s("proto3")),
        FileEntry::Import(s("google/protobuf/any.proto")),
    ];

    assert_eq!(ast, target_ast);
}

#[test]
fn message_empty() {
    let ast = parse_ast("syntax = \"proto3\";\n\nmessage Empty {}\n");
    let target_ast = vec![
        FileEntry::Syntax(s("proto3")),
        FileEntry::Message(Message { ident: s("Empty"), entries: vec![] }),
    ];

    assert_eq!(ast, target_ast);
}

#[test]
fn message() {
    let ast = parse_ast(
        "syntax = \"proto3\";

message Message {
  reserved 2, 6 to max;
  reserved \"sample\";

  bool first = 1;
  optional string third = 3;
  repeated uint64 fourth = 4;
  map<string, string> fifth = 5;
}
",
    );
    let target_ast = vec![
        FileEntry::Syntax(s("proto3")),
        FileEntry::Message(Message {
            ident: s("Message"),
            entries: vec![
                MessageEntry::ReservedIndices(vec![Range::from(2), Range::from((6, ()))]),
                MessageEntry::ReservedIdents(vec![s("sample")]),
                MessageEntry::Field(field(FieldModifier::Plain, "bool", "first", 1)),
                MessageEntry::Field(field(FieldModifier::Optional, "string", "third", 3)),
                MessageEntry::Field(field(FieldModifier::Repeated, "uint64", "fourth", 4)),
                MessageEntry::Field(field(FieldModifier::Plain, "map<string, string>", "fifth", 5)),
            ],
        }),
    ];

    assert_eq!(ast, target_ast);
}

#[test]
fn message_inner() {
    let ast = parse_ast(
        "syntax = \"proto3\";

message Parent {
  message Child {
    bool var = 1;
  }

  Child child = 1;
}
",
    );
    let target_ast = vec![
        FileEntry::Syntax(s("proto3")),
        FileEntry::Message(Message {
            ident: s("Parent"),
            entries: vec![
                MessageEntry::Message(Message {
                    ident: s("Child"),
                    entries: vec![MessageEntry::Field(field(
                        FieldModifier::Plain,
                        "bool",
                        "var",
                        1,
                    ))],
                }),
                MessageEntry::Field(field(FieldModifier::Plain, "Child", "child", 1)),
            ],
        }),
    ];

    assert_eq!(ast, target_ast);
}

#[test]
fn enum_declaration() {
    let ast = parse_ast(
        "syntax = \"proto3\";

enum Enum {
  ZERO = 0;
  POSITIVE = 1;
  NEGATIVE = -1;
}
",
    );
    let target_ast = vec![
        FileEntry::Syntax(s("proto3")),
        FileEntry::Enum(Enum {
            ident: s("Enum"),
            entries: vec![
                pair("ZERO", 0, vec![]),
                pair("POSITIVE", 1, vec![]),
                pair("NEGATIVE", -1, vec![]),
            ],
        }),
    ];

    assert_eq!(ast, target_ast);
}

#[test]
fn options() {
    let ast = parse_ast(
        "syntax = \"proto3\";

import \"google/protobuf/descriptor.proto\";

option java_multiple_files = true;
option java_package = \"xd.xd\";

extend google.protobuf.EnumValueOptions {
  optional bool own_enum_value = 2000;
}

extend google.protobuf.FieldOptions {
  optional bool own_field_value = 2000 [deprecated = true];
}

enum Enum {
  option allow_alias = true;
  FIRST = 0 [deprecated = true];
  SECOND = 0 [(own_enum_value) = true];
}

message Message {
  option deprecated = true;

  optional bool var = 1 [
    deprecated = true,
    (own_field_value) = false,
    edition_defaults = { edition: EDITION_PROTO2, value: \"true\" },
    edition_defaults = { edition: EDITION_PROTO3, value: \"false\" }
  ];
}
",
    );
    let target_ast = vec![
        FileEntry::Syntax(s("proto3")),
        FileEntry::Import(s("google/protobuf/descriptor.proto")),
        FileEntry::Option(opt("java_multiple_files", MapValue::Boolean(true))),
        FileEntry::Option(opt("java_package", MapValue::String(s("xd.xd")))),
        FileEntry::Extend(Extend {
            ty: s("google.protobuf.EnumValueOptions"),
            entries: vec![ExtendEntry::Field(field(
                FieldModifier::Optional,
                "bool",
                "own_enum_value",
                2000,
            ))],
        }),
        FileEntry::Extend(Extend {
            ty: s("google.protobuf.FieldOptions"),
            entries: vec![ExtendEntry::Field(Field {
                modifier: FieldModifier::Optional,
                ty: s("bool"),
                ident: s("own_field_value"),
                index: 2000,
                options: vec![opt("deprecated", MapValue::Boolean(true))],
            })],
        }),
        FileEntry::Enum(Enum {
            ident: s("Enum"),
            entries: vec![
                EnumEntry::Option(opt("allow_alias", MapValue::Boolean(true))),
                pair("FIRST", 0, vec![opt("deprecated", MapValue::Boolean(true))]),
                pair("SECOND", 0, vec![opt("(own_enum_value)", MapValue::Boolean(true))]),
            ],
        }),
        FileEntry::Message(Message {
            ident: s("Message"),
            entries: vec![
                MessageEntry::Option(opt("deprecated", MapValue::Boolean(true))),
                MessageEntry::Field(Field {
                    modifier: FieldModifier::Optional,
                    ty: s("bool"),
                    ident: s("var"),
                    index: 1,
                    options: vec![
                        opt("deprecated", MapValue::Boolean(true)),
                        opt("(own_field_value)", MapValue::Boolean(false)),
                        opt(
                            "edition_defaults",
                            map(vec![
                                ("edition", MapValue::Ident(s("EDITION_PROTO2"))),
                                ("value", MapValue::String(s("true"))),
                            ]),
                        ),
                        opt(
                            "edition_defaults",
                            map(vec![
                                ("edition", MapValue::Ident(s("EDITION_PROTO3"))),
                                ("value", MapValue::String(s("false"))),
                            ]),
                        ),
                    ],
                }),
            ],
        }),
    ];

    assert_eq!(ast, target_ast);
}

#[test]
fn comments() {
    let ast = parse_ast(
        "syntax = \"proto3\";

import \"google/protobuf/descriptor.proto\";

// single line comment
// another single line comment

/* multi
   line
   comment */

message Message {
  // in message
  bool var = 1; // right after entry
  // at the bottom
}

enum Enum {
  // in enum
  DEFAULT = 0;
}

extend google.protobuf.FieldOptions {
  // in extend
  optional bool var = 1;
}

// at the bottom of the file
",
    );
    let target_ast = vec![
        FileEntry::Syntax(s("proto3")),
        FileEntry::Import(s("google/protobuf/descriptor.proto")),
        FileEntry::Comment(Comment::single_line("// single line comment")),
        FileEntry::Comment(Comment::single_line("// another single line comment")),
        FileEntry::Comment(Comment::multi_line("/* multi\n   line\n   comment */")),
        FileEntry::Message(Message {
            ident: s("Message"),
            entries: vec![
                MessageEntry::Comment(Comment::single_line("// in message")),
                MessageEntry::Field(field(FieldModifier::Plain, "bool", "var", 1)),
                MessageEntry::Comment(Comment::single_line("// right after entry")),
                MessageEntry::Comment(Comment::single_line("// at the bottom")),
            ],
        }),
        FileEntry::Enum(Enum {
            ident: s("Enum"),
            entries: vec![
                EnumEntry::Comment(Comment::single_line("// in enum")),
                pair("DEFAULT", 0, vec![]),
            ],
        }),
        FileEntry::Extend(Extend {
            ty: s("google.protobuf.FieldOptions"),
            entries: vec![
                ExtendEntry::Comment(Comment::single_line("// in extend")),
                ExtendEntry::Field(field(FieldModifier::Optional, "bool", "var", 1)),
            ],
        }),
        FileEntry::Comment(Comment::single_line("// at the bottom of the file")),
    ];

    assert_eq!(ast, target_ast);
}

#[test]
fn extensions() {
    let ast = parse_ast(
        "syntax = \"proto2\";

message Message {
  extensions 1, 2 to 4, 6 to max;
}
",
    );
    let target_ast = vec![
        FileEntry::Syntax(s("proto2")),
        FileEntry::Message(Message {
            ident: s("Message"),
            entries: vec![MessageEntry::Extensions(vec![
                Range::from(1),
                Range::from(2..4),
                Range::from((6, ())),
            ])],
        }),
    ];

    assert_eq!(ast, target_ast);
}

#[test]
fn required() {
    let ast = parse_ast(
        "syntax = \"proto2\";

message Message {
  required bool var = 1;
}
",
    );
    let target_ast = vec![
        FileEntry::Syntax(s("proto2")),
        FileEntry::Message(Message {
            ident: s("Message"),
            entries: vec![MessageEntry::Field(field(FieldModifier::Required, "bool", "var", 1))],
        }),
    ];

    assert_eq!(ast, target_ast);
}

#[test]
fn keywords() {
    let ast = parse_ast(
        "syntax = \"proto3\";

message Ident {}
message to {
  message inner {}
}
message max {}
message syntax {}
message option {}
message package {}
message import {}
message message {}
message oneof {}
message extend {}
message enum {}
message reserved {}
message extensions {}
message optional {}
message required {}
message repeated {}
message map {}

message Message {
  bool var1 = 1;
  Ident var2 = 2;
  to var3 = 3;
  to.inner var4 = 4;
  max var5 = 5;
  syntax var6 = 6;
  package var7 = 7;
  import var8 = 8;
}
",
    );
    let target_ast = vec![
        FileEntry::Syntax(s("proto3")),
        FileEntry::Message(Message::empty("Ident")),
        FileEntry::Message(Message {
            ident: s("to"),
            entries: vec![MessageEntry::Message(Message::empty("inner"))],
        }),
        FileEntry::Message(Message::empty("max")),
        FileEntry::Message(Message::empty("syntax")),
        FileEntry::Message(Message::empty("option")),
        FileEntry::Message(Message::empty("package")),
        FileEntry::Message(Message::empty("import")),
        FileEntry::Message(Message::empty("message")),
        FileEntry::Message(Message::empty("oneof")),
        FileEntry::Message(Message::empty("extend")),
        FileEntry::Message(Message::empty("enum")),
        FileEntry::Message(Message::empty("reserved")),
        FileEntry::Message(Message::empty("extensions")),
        FileEntry::Message(Message::empty("optional")),
        FileEntry::Message(Message::empty("required")),
        FileEntry::Message(Message::empty("repeated")),
        FileEntry::Message(Message::empty("map")),
        FileEntry::Message(Message {
            ident: s("Message"),
            entries: vec![
                MessageEntry::Field(Field::basic("bool", "var1", 1)),
                MessageEntry::Field(Field::basic("Ident", "var2", 2)),
                MessageEntry::Field(Field::basic("to", "var3", 3)),
                MessageEntry::Field(Field::basic("to.inner", "var4", 4)),
                MessageEntry::Field(Field::basic("max", "var5", 5)),
                MessageEntry::Field(Field::basic("syntax", "var6", 6)),
                MessageEntry::Field(Field::basic("package", "var7", 7)),
                MessageEntry::Field(Field::basic("import", "var8", 8)),
            ],
        }),
    ];

    assert_eq!(ast, target_ast);
}

#[test]
fn oneof() {
    let ast = parse_ast(
        "syntax = \"proto3\";

message Message {
  oneof OneOf {
    option uninterpreted_option = { string_value: \"\" };
    bool oneof_var = 1;
  }

  bool message_var = 2;
}
",
    );
    let target_ast = vec![
        FileEntry::Syntax(s("proto3")),
        FileEntry::Message(Message {
            ident: s("Message"),
            entries: vec![
                MessageEntry::OneOf(OneOf {
                    ident: s("OneOf"),
                    entries: vec![
                        OneOfEntry::Option(opt(
                            "uninterpreted_option",
                            map(vec![("string_value", MapValue::String(s("")))]),
                        )),
                        OneOfEntry::Field(Field::basic("bool", "oneof_var", 1)),
                    ],
                }),
                MessageEntry::Field(Field::basic("bool", "message_var", 2)),
            ],
        }),
    ];

    assert_eq!(ast, target_ast);
}

#[test]
fn service() {
    let ast = parse_ast(
        "syntax = \"proto3\";

service Service {
  option uninterpreted_option = { string_value: \"\" };

  rpc RPC1(Request) returns (Reply);
  rpc RPC2(stream Request) returns (Reply);
  rpc RPC3(Request) returns (stream Reply);
  rpc RPC4(stream Request) returns (stream Reply);
}

message Request {}
message Reply {}
",
    );
    let rpc = |ident: &str, stream: RpcStream| {
        ServiceEntry::Rpc(Rpc { ident: s(ident), request: s("Request"), reply: s("Reply"), stream })
    };
    let target_ast = vec![
        FileEntry::Syntax(s("proto3")),
        FileEntry::Service(Service {
            ident: s("Service"),
            entries: vec![
                ServiceEntry::Option(opt(
                    "uninterpreted_option",
                    map(vec![("string_value", MapValue::String(s("")))]),
                )),
                rpc("RPC1", RpcStream::Unary),
                rpc("RPC2", RpcStream::ServerBound),
                rpc("RPC3", RpcStream::ClientBound),
                rpc("RPC4", RpcStream::Bidirectional),
            ],
        }),
        FileEntry::Message(Message::empty("Request")),
        FileEntry::Message(Message::empty("Reply")),
    ];

    assert_eq!(ast, target_ast);
}

#[test]
fn top_level_entry_alias() {
    let e: Expr = FileEntry::Syntax(s("proto2"));
    assert_eq!(parse_ast("syntax = 'proto2';"), vec![e]);
}

//! The syntax tree, and its mathematical model.
//!
//! Every executable node has a view of the same shape in which text is a
//! `Seq<char>`; the parser's contracts are stated over those views.
use crate::lexer::whitespace;
use vstd::prelude::*;

verus! {

/// The upper end of a half-open range of field numbers.
#[derive(Debug, Clone, Copy, PartialEq, Eq, Structural)]
pub enum RangeEnd {
    Integer(i64),
    Max,
}

/// A half-open range `[start, end)` of field numbers.
#[derive(Debug, Clone, Copy, PartialEq, Eq, Structural)]
pub struct Range {
    pub start: i64,
    pub end: RangeEnd,
}

/// The end just past the inclusive range end `n`: `n + 1`, or no bound
/// where `n + 1` would not fit in an `i64`.
pub open spec fn end_after(n: i64) -> RangeEnd {
    if n == i64::MAX {
        RangeEnd::Max
    } else {
        RangeEnd::Integer((n + 1) as i64)
    }
}

impl RangeEnd {
    /// The end just past the inclusive range end `n`.
    pub fn after(n: i64) -> (r: RangeEnd)
        ensures
            r == end_after(n),
    {
        if n == i64::MAX {
            RangeEnd::Max
        } else {
            RangeEnd::Integer(n + 1)
        }
    }
}

/// The single field number `n`.
impl From<i64> for Range {
    fn from(n: i64) -> Range {
        Range { start: n, end: RangeEnd::after(n) }
    }
}

impl vstd::std_specs::convert::FromSpecImpl<i64> for Range {
    open spec fn obeys_from_spec() -> bool {
        true
    }

    open spec fn from_spec(n: i64) -> Range {
        Range { start: n, end: end_after(n) }
    }
}

/// The range from `start` to the inclusive bound `end`, as written
/// `start to end`.
impl From<core::ops::Range<i64>> for Range {
    fn from(r: core::ops::Range<i64>) -> Range {
        Range { start: r.start, end: RangeEnd::after(r.end) }
    }
}

impl vstd::std_specs::convert::FromSpecImpl<core::ops::Range<i64>> for Range {
    open spec fn obeys_from_spec() -> bool {
        true
    }

    open spec fn from_spec(r: core::ops::Range<i64>) -> Range {
        Range { start: r.start, end: end_after(r.end) }
    }
}

/// The range from `start` on, with no upper bound.
impl From<(i64, ())> for Range {
    fn from(r: (i64, ())) -> Range {
        Range { start: r.0, end: RangeEnd::Max }
    }
}

impl vstd::std_specs::convert::FromSpecImpl<(i64, ())> for Range {
    open spec fn obeys_from_spec() -> bool {
        true
    }

    open spec fn from_spec(r: (i64, ())) -> Range {
        Range { start: r.0, end: RangeEnd::Max }
    }
}

/// The value of an option: a scalar, or a map of keys to values.
///
/// A map holds each key once: a later duplicate key overwrites the value
/// of the earlier one, which keeps its position.
#[derive(Debug, PartialEq)]
pub enum MapValue {
    Boolean(bool),
    Integer(i64),
    Ident(String),
    String(String),
    Object(Vec<(String, MapValue)>),
}

pub enum SpecMapValue {
    Boolean(bool),
    Integer(i64),
    Ident(Seq<char>),
    String(Seq<char>),
    Object(Seq<(Seq<char>, SpecMapValue)>),
}

pub open spec fn map_value_view(v: MapValue) -> SpecMapValue
    decreases v,
{
    match v {
        MapValue::Boolean(b) => SpecMapValue::Boolean(b),
        MapValue::Integer(i) => SpecMapValue::Integer(i),
        MapValue::Ident(s) => SpecMapValue::Ident(s@),
        MapValue::String(s) => SpecMapValue::String(s@),
        MapValue::Object(m) => SpecMapValue::Object(map_entries_view(m@)),
    }
}

pub open spec fn map_entries_view(es: Seq<(String, MapValue)>) -> Seq<(Seq<char>, SpecMapValue)>
    decreases es,
{
    if es.len() == 0 {
        Seq::empty()
    } else {
        map_entries_view(es.drop_last()).push((es.last().0@, map_value_view(es.last().1)))
    }
}

pub proof fn lemma_map_entries_view(es: Seq<(String, MapValue)>)
    ensures
        map_entries_view(es).len() == es.len(),
        forall|i: int|
            0 <= i < es.len() ==> #[trigger] map_entries_view(es)[i] == (
                es[i].0@,
                map_value_view(es[i].1),
            ),
    decreases es.len(),
{
    if es.len() > 0 {
        lemma_map_entries_view(es.drop_last());
    }
}

impl View for MapValue {
    type V = SpecMapValue;

    open spec fn view(&self) -> SpecMapValue {
        map_value_view(*self)
    }
}

/// An option: a key and its value.
#[derive(Debug, PartialEq)]
pub struct Option {
    pub key: String,
    pub value: MapValue,
}

pub struct SpecOption {
    pub key: Seq<char>,
    pub value: SpecMapValue,
}

impl View for Option {
    type V = SpecOption;

    open spec fn view(&self) -> SpecOption {
        SpecOption { key: self.key@, value: self.value@ }
    }
}

pub open spec fn options_view(v: Seq<Option>) -> Seq<SpecOption> {
    v.map_values(|o: Option| o@)
}

pub open spec fn texts_view(v: Seq<String>) -> Seq<Seq<char>> {
    v.map_values(|s: String| s@)
}

/// Whether a comment ran to the end of its line or was delimited.
#[derive(Debug, Clone, Copy, PartialEq, Eq, Structural)]
pub enum CommentType {
    SingleLine,
    MultiLine,
}

/// A comment: its text as written, and that text without its delimiters
/// and surrounding whitespace.
#[derive(Debug, PartialEq)]
pub struct Comment {
    pub kind: CommentType,
    pub source: String,
    pub text: String,
}

pub struct SpecComment {
    pub kind: CommentType,
    pub source: Seq<char>,
    pub text: Seq<char>,
}

impl View for Comment {
    type V = SpecComment;

    open spec fn view(&self) -> SpecComment {
        SpecComment { kind: self.kind, source: self.source@, text: self.text@ }
    }
}

/// Relies on `String::push`: it appends the character.
#[verifier::external_body]
pub(crate) fn push_char(s: &mut String, c: char)
    ensures
        final(s)@ == old(s)@.push(c),
{
    s.push(c)
}

/// The first position at or after `i` that does not hold white space.
pub open spec fn first_non_space(s: Seq<char>, i: int) -> int
    decreases s.len() - i,
{
    if 0 <= i < s.len() && whitespace(s[i]) {
        first_non_space(s, i + 1)
    } else {
        i
    }
}

/// The position just past the last character before `j` that is not white
/// space, or 0.
pub open spec fn last_non_space_end(s: Seq<char>, j: int) -> int
    decreases j,
{
    if 0 < j <= s.len() && whitespace(s[j - 1]) {
        last_non_space_end(s, j - 1)
    } else {
        j
    }
}

/// `s` without its leading and trailing white space.
pub open spec fn trimmed(s: Seq<char>) -> Seq<char> {
    let a = first_non_space(s, 0);
    if a >= s.len() {
        Seq::empty()
    } else {
        s.subrange(a, last_non_space_end(s, s.len() as int))
    }
}

/// Relies on `str::trim`: it removes leading and trailing characters with
/// the Unicode White_Space property.
#[verifier::external_body]
fn trim(s: &str) -> (r: &str)
    ensures
        r@ == trimmed(s@),
{
    s.trim()
}

/// The comment model for a `//` comment with source text `s`.
pub open spec fn single_line_comment(s: Seq<char>) -> SpecComment {
    SpecComment { kind: CommentType::SingleLine, source: s, text: trimmed(s.subrange(2, s.len() as int)) }
}

/// The comment model for a `/* */` comment with source text `s`.
pub open spec fn multi_line_comment(s: Seq<char>) -> SpecComment {
    SpecComment {
        kind: CommentType::MultiLine,
        source: s,
        text: trimmed(s.subrange(2, s.len() - 2)),
    }
}

impl Comment {
    /// A comment from the source text of a `//` comment.
    pub fn single_line(source: &str) -> (r: Comment)
        requires
            source@.len() >= 2,
            source@[0] == '/' && source@[1] == '/',
        ensures
            r@ == single_line_comment(source@),
    {
        let n = source.unicode_len();
        let body = source.substring_char(2, n);
        Comment {
            kind: CommentType::SingleLine,
            source: String::from_str(source),
            text: String::from_str(trim(body)),
        }
    }

    /// A comment from the source text of a `/* ... */` comment.
    pub fn multi_line(source: &str) -> (r: Comment)
        requires
            source@.len() >= 4,
            source@[0] == '/' && source@[1] == '*',
            source@[source@.len() - 2] == '*' && source@[source@.len() - 1] == '/',
        ensures
            r@ == multi_line_comment(source@),
    {
        let n = source.unicode_len();
        let body = source.substring_char(2, n - 2);
        Comment {
            kind: CommentType::MultiLine,
            source: String::from_str(source),
            text: String::from_str(trim(body)),
        }
    }
}

/// The modifier written before a field's type, if any.
#[derive(Debug, Clone, Copy, PartialEq, Eq, Structural)]
pub enum FieldModifier {
    Plain,
    Optional,
    Required,
    Repeated,
}

/// A field: `[modifier] type ident = index [options];`.
#[derive(Debug, PartialEq)]
pub struct Field {
    pub modifier: FieldModifier,
    pub ty: String,
    pub ident: String,
    pub index: i64,
    pub options: Vec<Option>,
}

pub struct SpecField {
    pub modifier: FieldModifier,
    pub ty: Seq<char>,
    pub ident: Seq<char>,
    pub index: i64,
    pub options: Seq<SpecOption>,
}

impl View for Field {
    type V = SpecField;

    open spec fn view(&self) -> SpecField {
        SpecField {
            modifier: self.modifier,
            ty: self.ty@,
            ident: self.ident@,
            index: self.index,
            options: options_view(self.options@),
        }
    }
}

impl Field {
    /// A field with no modifier and no options.
    pub fn basic(ty: &str, ident: &str, index: i64) -> (r: Field)
        ensures
            r@ == (SpecField {
                modifier: FieldModifier::Plain,
                ty: ty@,
                ident: ident@,
                index,
                options: Seq::empty(),
            }),
    {
        let r = Field {
            modifier: FieldModifier::Plain,
            ty: String::from_str(ty),
            ident: String::from_str(ident),
            index,
            options: Vec::new(),
        };
        assert(options_view(r.options@) =~= Seq::empty());
        r
    }
}

/// An entry of an `extend` block.
#[derive(Debug, PartialEq)]
pub enum ExtendEntry {
    Comment(Comment),
    Field(Field),
}

pub enum SpecExtendEntry {
    Comment(SpecComment),
    Field(SpecField),
}

impl View for ExtendEntry {
    type V = SpecExtendEntry;

    open spec fn view(&self) -> SpecExtendEntry {
        match self {
            ExtendEntry::Comment(c) => SpecExtendEntry::Comment(c@),
            ExtendEntry::Field(f) => SpecExtendEntry::Field(f@),
        }
    }
}

/// `extend type { entries }`: fields added to a message declared elsewhere.
#[derive(Debug, PartialEq)]
pub struct Extend {
    pub ty: String,
    pub entries: Vec<ExtendEntry>,
}

pub struct SpecExtend {
    pub ty: Seq<char>,
    pub entries: Seq<SpecExtendEntry>,
}

impl View for Extend {
    type V = SpecExtend;

    open spec fn view(&self) -> SpecExtend {
        SpecExtend {
            ty: self.ty@,
            entries: self.entries@.map_values(|e: ExtendEntry| e@),
        }
    }
}

/// An entry of an enum.
#[derive(Debug, PartialEq)]
pub enum EnumEntry {
    Comment(Comment),
    Option(Option),
    Pair { ident: String, value: i64, options: Vec<Option> },
}

pub enum SpecEnumEntry {
    Comment(SpecComment),
    Option(SpecOption),
    Pair { ident: Seq<char>, value: i64, options: Seq<SpecOption> },
}

impl View for EnumEntry {
    type V = SpecEnumEntry;

    open spec fn view(&self) -> SpecEnumEntry {
        match self {
            EnumEntry::Comment(c) => SpecEnumEntry::Comment(c@),
            EnumEntry::Option(o) => SpecEnumEntry::Option(o@),
            EnumEntry::Pair { ident, value, options } => SpecEnumEntry::Pair {
                ident: ident@,
                value: *value,
                options: options_view(options@),
            },
        }
    }
}

/// `enum ident { entries }`.
#[derive(Debug, PartialEq)]
pub struct Enum {
    pub ident: String,
    pub entries: Vec<EnumEntry>,
}

pub struct SpecEnum {
    pub ident: Seq<char>,
    pub entries: Seq<SpecEnumEntry>,
}

impl View for Enum {
    type V = SpecEnum;

    open spec fn view(&self) -> SpecEnum {
        SpecEnum { ident: self.ident@, entries: self.entries@.map_values(|e: EnumEntry| e@) }
    }
}

/// An entry of a `oneof` group.
#[derive(Debug, PartialEq)]
pub enum OneOfEntry {
    Option(Option),
    Field(Field),
}

pub enum SpecOneOfEntry {
    Option(SpecOption),
    Field(SpecField),
}

impl View for OneOfEntry {
    type V = SpecOneOfEntry;

    open spec fn view(&self) -> SpecOneOfEntry {
        match self {
            OneOfEntry::Option(o) => SpecOneOfEntry::Option(o@),
            OneOfEntry::Field(f) => SpecOneOfEntry::Field(f@),
        }
    }
}

/// `oneof ident { entries }`: fields of which at most one is set.
#[derive(Debug, PartialEq)]
pub struct OneOf {
    pub ident: String,
    pub entries: Vec<OneOfEntry>,
}

pub struct SpecOneOf {
    pub ident: Seq<char>,
    pub entries: Seq<SpecOneOfEntry>,
}

impl View for OneOf {
    type V = SpecOneOf;

    open spec fn view(&self) -> SpecOneOf {
        SpecOneOf { ident: self.ident@, entries: self.entries@.map_values(|e: OneOfEntry| e@) }
    }
}

/// `message ident { entries }`.
#[derive(Debug, PartialEq)]
pub struct Message {
    pub ident: String,
    pub entries: Vec<MessageEntry>,
}

/// An entry of a message.
#[derive(Debug, PartialEq)]
pub enum MessageEntry {
    Comment(Comment),
    Option(Option),
    Field(Field),
    Message(Message),
    Extend(Extend),
    Enum(Enum),
    OneOf(OneOf),
    ReservedIndices(Vec<Range>),
    ReservedIdents(Vec<String>),
    Extensions(Vec<Range>),
}

pub struct SpecMessage {
    pub ident: Seq<char>,
    pub entries: Seq<SpecMessageEntry>,
}

pub enum SpecMessageEntry {
    Comment(SpecComment),
    Option(SpecOption),
    Field(SpecField),
    Message(SpecMessage),
    Extend(SpecExtend),
    Enum(SpecEnum),
    OneOf(SpecOneOf),
    ReservedIndices(Seq<Range>),
    ReservedIdents(Seq<Seq<char>>),
    Extensions(Seq<Range>),
}

pub open spec fn message_view(m: Message) -> SpecMessage
    decreases m,
{
    SpecMessage { ident: m.ident@, entries: message_entries_view(m.entries@) }
}

pub open spec fn message_entries_view(es: Seq<MessageEntry>) -> Seq<SpecMessageEntry>
    decreases es,
{
    if es.len() == 0 {
        Seq::empty()
    } else {
        message_entries_view(es.drop_last()).push(message_entry_view(es.last()))
    }
}

pub open spec fn message_entry_view(e: MessageEntry) -> SpecMessageEntry
    decreases e,
{
    match e {
        MessageEntry::Comment(c) => SpecMessageEntry::Comment(c@),
        MessageEntry::Option(o) => SpecMessageEntry::Option(o@),
        MessageEntry::Field(f) => SpecMessageEntry::Field(f@),
        MessageEntry::Message(m) => SpecMessageEntry::Message(message_view(m)),
        MessageEntry::Extend(x) => SpecMessageEntry::Extend(x@),
        MessageEntry::Enum(x) => SpecMessageEntry::Enum(x@),
        MessageEntry::OneOf(x) => SpecMessageEntry::OneOf(x@),
        MessageEntry::ReservedIndices(v) => SpecMessageEntry::ReservedIndices(v@),
        MessageEntry::ReservedIdents(v) => SpecMessageEntry::ReservedIdents(texts_view(v@)),
        MessageEntry::Extensions(v) => SpecMessageEntry::Extensions(v@),
    }
}

impl View for Message {
    type V = SpecMessage;

    open spec fn view(&self) -> SpecMessage {
        message_view(*self)
    }
}

impl View for MessageEntry {
    type V = SpecMessageEntry;

    open spec fn view(&self) -> SpecMessageEntry {
        message_entry_view(*self)
    }
}

impl Message {
    /// A message with no entries.
    pub fn empty(name: &str) -> (r: Message)
        ensures
            r@ == (SpecMessage { ident: name@, entries: Seq::empty() }),
    {
        let r = Message { ident: String::from_str(name), entries: Vec::new() };
        assert(message_entries_view(r.entries@) =~= Seq::empty());
        r
    }
}

/// How the two sides of an rpc are streamed.
#[derive(Debug, Clone, Copy, PartialEq, Eq, Structural)]
pub enum RpcStream {
    /// Neither side streams.
    Unary,
    /// The request side streams.
    ServerBound,
    /// The reply side streams.
    ClientBound,
    /// Both sides stream.
    Bidirectional,
}

/// `rpc ident ([stream] request) returns ([stream] reply);`.
#[derive(Debug, PartialEq)]
pub struct Rpc {
    pub ident: String,
    pub request: String,
    pub reply: String,
    pub stream: RpcStream,
}

pub struct SpecRpc {
    pub ident: Seq<char>,
    pub request: Seq<char>,
    pub reply: Seq<char>,
    pub stream: RpcStream,
}

impl View for Rpc {
    type V = SpecRpc;

    open spec fn view(&self) -> SpecRpc {
        SpecRpc {
            ident: self.ident@,
            request: self.request@,
            reply: self.reply@,
            stream: self.stream,
        }
    }
}

/// An entry of a service.
#[derive(Debug, PartialEq)]
pub enum ServiceEntry {
    Option(Option),
    Rpc(Rpc),
}

pub enum SpecServiceEntry {
    Option(SpecOption),
    Rpc(SpecRpc),
}

impl View for ServiceEntry {
    type V = SpecServiceEntry;

    open spec fn view(&self) -> SpecServiceEntry {
        match self {
            ServiceEntry::Option(o) => SpecServiceEntry::Option(o@),
            ServiceEntry::Rpc(r) => SpecServiceEntry::Rpc(r@),
        }
    }
}

/// `service ident { entries }`.
#[derive(Debug, PartialEq)]
pub struct Service {
    pub ident: String,
    pub entries: Vec<ServiceEntry>,
}

pub struct SpecService {
    pub ident: Seq<char>,
    pub entries: Seq<SpecServiceEntry>,
}

impl View for Service {
    type V = SpecService;

    open spec fn view(&self) -> SpecService {
        SpecService { ident: self.ident@, entries: self.entries@.map_values(|e: ServiceEntry| e@) }
    }
}

/// An entry at the top level of a file.
#[derive(Debug, PartialEq)]
pub enum Expr {
    Comment(Comment),
    Syntax(String),
    Package(String),
    Import(String),
    Option(Option),
    Message(Message),
    Extend(Extend),
    Enum(Enum),
    Service(Service),
}

/// The name under which callers usually refer to a top-level entry.
pub type FileEntry = Expr;

pub enum SpecExpr {
    Comment(SpecComment),
    Syntax(Seq<char>),
    Package(Seq<char>),
    Import(Seq<char>),
    Option(SpecOption),
    Message(SpecMessage),
    Extend(SpecExtend),
    Enum(SpecEnum),
    Service(SpecService),
}

impl View for Expr {
    type V = SpecExpr;

    open spec fn view(&self) -> SpecExpr {
        match self {
            Expr::Comment(c) => SpecExpr::Comment(c@),
            Expr::Syntax(s) => SpecExpr::Syntax(s@),
            Expr::Package(s) => SpecExpr::Package(s@),
            Expr::Import(s) => SpecExpr::Import(s@),
            Expr::Option(o) => SpecExpr::Option(o@),
            Expr::Message(m) => SpecExpr::Message(m@),
            Expr::Extend(x) => SpecExpr::Extend(x@),
            Expr::Enum(x) => SpecExpr::Enum(x@),
            Expr::Service(x) => SpecExpr::Service(x@),
        }
    }
}

/// The parse of one source file: its top-level entries in source order.
pub type GlobalScope = Vec<Expr>;

} // verus!

//! Lexical units: spans, tokens, the keyword table, and lexical errors.

use vstd::prelude::*;

use crate::bytes::append_bytes;
use crate::bytes::clone_bytes;

verus! {

/// A half-open byte range `[start, end)` into the source text.
#[derive(Clone, Copy, Debug, PartialEq, Eq, Structural)]
pub struct Span {
    pub start: usize,
    pub end: usize,
}

/// A value paired with the span it came from.
pub type Spanned<T> = (T, Span);

/// Mathematical model of a span: the same range over unbounded integers.
pub struct SpanV {
    pub start: int,
    pub end: int,
}

impl View for Span {
    type V = SpanV;

    open spec fn view(&self) -> SpanV {
        SpanV { start: self.start as int, end: self.end as int }
    }
}

/// Tags for the reserved primitive-type names.
#[derive(Clone, Copy, Debug, PartialEq, Eq, Structural)]
pub enum Type {
    I16,
    I32,
    I64,
    U8,
    U16,
    U32,
    U64,
    STR,
}

/// The kind of a lexical error.
#[derive(Clone, Copy, Debug, PartialEq, Eq, Structural)]
pub enum LexErrorKind {
    /// A character that starts no token.
    UnexpectedChar,
    /// An opening quote with no closing quote before end of input.
    UnterminatedString,
}

/// A positioned lexical error.
#[derive(Clone, Copy, Debug, PartialEq, Eq, Structural)]
pub struct LexError {
    pub kind: LexErrorKind,
    pub span: Span,
}

/// Mathematical model of a lexical error.
pub struct LexErrV {
    pub kind: LexErrorKind,
    pub span: SpanV,
}

impl View for LexError {
    type V = LexErrV;

    open spec fn view(&self) -> LexErrV {
        LexErrV { kind: self.kind, span: self.span@ }
    }
}

/// One lexical unit. Textual payloads hold a copy of the source bytes they
/// were scanned from; `Num` keeps the literal exactly as written.
#[derive(Clone, Debug, PartialEq, Eq)]
pub enum Token {
    Null,
    Bool(bool),
    Num(Vec<u8>),
    Str(Vec<u8>),
    Op(Vec<u8>),
    Ctrl(u8),
    Ident(Vec<u8>),
    Type(Box<Type>),
    If,
    Else,
    Elif,
    While,
    For,
    Until,
    Incl,
    Defer,
    Delete,
    Switch,
    Case,
    Default,
    Fn,
    Return,
    Struct,
    New,
    Interface,
    Using,
    Enum,
    Mut,
    Imut,
    Unsafe,
    In,
    Break,
    Continue,
    As,
    Publ,
    Shared,
}

pub enum TokenV {
    Null,
    Bool(bool),
    Num(Seq<u8>),
    Str(Seq<u8>),
    Op(Seq<u8>),
    Ctrl(u8),
    Ident(Seq<u8>),
    Type(Type),
    If,
    Else,
    Elif,
    While,
    For,
    Until,
    Incl,
    Defer,
    Delete,
    Switch,
    Case,
    Default,
    Fn,
    Return,
    Struct,
    New,
    Interface,
    Using,
    Enum,
    Mut,
    Imut,
    Unsafe,
    In,
    Break,
    Continue,
    As,
    Publ,
    Shared,
}

impl View for Token {
    type V = TokenV;

    open spec fn view(&self) -> TokenV {
        match self {
            Token::Null => TokenV::Null,
            Token::Bool(b) => TokenV::Bool(*b),
            Token::Num(d) => TokenV::Num(d@),
            Token::Str(q) => TokenV::Str(q@),
            Token::Op(o) => TokenV::Op(o@),
            Token::Ctrl(c) => TokenV::Ctrl(*c),
            Token::Ident(w) => TokenV::Ident(w@),
            Token::Type(t) => TokenV::Type(**t),
            Token::If => TokenV::If,
            Token::Else => TokenV::Else,
            Token::Elif => TokenV::Elif,
            Token::While => TokenV::While,
            Token::For => TokenV::For,
            Token::Until => TokenV::Until,
            Token::Incl => TokenV::Incl,
            Token::Defer => TokenV::Defer,
            Token::Delete => TokenV::Delete,
            Token::Switch => TokenV::Switch,
            Token::Case => TokenV::Case,
            Token::Default => TokenV::Default,
            Token::Fn => TokenV::Fn,
            Token::Return => TokenV::Return,
            Token::Struct => TokenV::Struct,
            Token::New => TokenV::New,
            Token::Interface => TokenV::Interface,
            Token::Using => TokenV::Using,
            Token::Enum => TokenV::Enum,
            Token::Mut => TokenV::Mut,
            Token::Imut => TokenV::Imut,
            Token::Unsafe => TokenV::Unsafe,
            Token::In => TokenV::In,
            Token::Break => TokenV::Break,
            Token::Continue => TokenV::Continue,
            Token::As => TokenV::As,
            Token::Publ => TokenV::Publ,
            Token::Shared => TokenV::Shared,
        }
    }
}

/// The source spelling of a primitive-type tag.
pub open spec fn type_text(t: Type) -> Seq<u8> {
    match t {
        Type::I16 => kw_int16(),
        Type::I32 => kw_int32(),
        Type::I64 => kw_int64(),
        Type::U8 => kw_uint8(),
        Type::U16 => kw_uint16(),
        Type::U32 => kw_uint32(),
        Type::U64 => kw_uint64(),
        Type::STR => kw_str(),
    }
}

/// The source text a token stands for: the exact characters the scanner
/// consumed to produce it (string tokens regain their surrounding quotes).
pub open spec fn token_text(t: TokenV) -> Seq<u8> {
    match t {
        TokenV::Null => kw_none(),
        TokenV::Bool(b) => if b { kw_true() } else { kw_false() },
        TokenV::Num(d) => d,
        TokenV::Str(q) => seq!['"' as u8] + q + seq!['"' as u8],
        TokenV::Op(o) => o,
        TokenV::Ctrl(c) => seq![c],
        TokenV::Ident(w) => w,
        TokenV::Type(t) => type_text(t),
        TokenV::If => kw_if(),
        TokenV::Else => kw_else(),
        TokenV::Elif => kw_elif(),
        TokenV::While => kw_while(),
        TokenV::For => kw_for(),
        TokenV::Until => kw_until(),
        TokenV::Incl => kw_incl(),
        TokenV::Defer => kw_defer(),
        TokenV::Delete => kw_delete(),
        TokenV::Switch => kw_switch(),
        TokenV::Case => kw_case(),
        TokenV::Default => kw_default(),
        TokenV::Fn => kw_fn(),
        TokenV::Return => kw_return(),
        TokenV::Struct => kw_struct(),
        TokenV::New => kw_new(),
        TokenV::Interface => kw_interface(),
        TokenV::Using => kw_using(),
        TokenV::Enum => kw_enum(),
        TokenV::Mut => kw_mut(),
        TokenV::Imut => kw_imut(),
        TokenV::Unsafe => kw_unsafe(),
        TokenV::In => kw_in(),
        TokenV::Break => kw_break(),
        TokenV::Continue => kw_continue(),
        TokenV::As => kw_as(),
        TokenV::Publ => kw_publ(),
        TokenV::Shared => kw_shared(),
    }
}

impl Token {
    /// The textual form of the token, as it stands in source text.
    pub fn text(&self) -> (r: Vec<u8>)
        ensures
            r@ == token_text(self@),
    {
        match self {
            Token::Null => kw_none_vec(),
            Token::Bool(b) => if *b { kw_true_vec() } else { kw_false_vec() },
            Token::Num(d) => clone_bytes(d),
            Token::Str(q) => {
                let mut r: Vec<u8> = Vec::new();
                r.push('"' as u8);
                append_bytes(&mut r, q);
                r.push('"' as u8);
                proof { assert(r@ =~= token_text(self@)); }
                r
            },
            Token::Op(o) => clone_bytes(o),
            Token::Ctrl(c) => {
                let r = vec![*c];
                proof { assert(r@ =~= seq![*c]); }
                r
            },
            Token::Ident(w) => clone_bytes(w),
            Token::Type(t) => match **t {
                Type::I16 => kw_int16_vec(),
                Type::I32 => kw_int32_vec(),
                Type::I64 => kw_int64_vec(),
                Type::U8 => kw_uint8_vec(),
                Type::U16 => kw_uint16_vec(),
                Type::U32 => kw_uint32_vec(),
                Type::U64 => kw_uint64_vec(),
                Type::STR => kw_str_vec(),
            },
            Token::If => kw_if_vec(),
            Token::Else => kw_else_vec(),
            Token::Elif => kw_elif_vec(),
            Token::While => kw_while_vec(),
            Token::For => kw_for_vec(),
            Token::Until => kw_until_vec(),
            Token::Incl => kw_incl_vec(),
            Token::Defer => kw_defer_vec(),
            Token::Delete => kw_delete_vec(),
            Token::Switch => kw_switch_vec(),
            Token::Case => kw_case_vec(),
            Token::Default => kw_default_vec(),
            Token::Fn => kw_fn_vec(),
            Token::Return => kw_return_vec(),
            Token::Struct => kw_struct_vec(),
            Token::New => kw_new_vec(),
            Token::Interface => kw_interface_vec(),
            Token::Using => kw_using_vec(),
            Token::Enum => kw_enum_vec(),
            Token::Mut => kw_mut_vec(),
            Token::Imut => kw_imut_vec(),
            Token::Unsafe => kw_unsafe_vec(),
            Token::In => kw_in_vec(),
            Token::Break => kw_break_vec(),
            Token::Continue => kw_continue_vec(),
            Token::As => kw_as_vec(),
            Token::Publ => kw_publ_vec(),
            Token::Shared => kw_shared_vec(),
        }
    }
}

fn kw_if_vec() -> (r: Vec<u8>)
    ensures
        r@ == kw_if(),
{
    let r = vec!['i' as u8, 'f' as u8];
    proof { assert(r@ =~= kw_if()); }
    r
}

fn kw_else_vec() -> (r: Vec<u8>)
    ensures
        r@ == kw_else(),
{
    let r = vec!['e' as u8, 'l' as u8, 's' as u8, 'e' as u8];
    proof { assert(r@ =~= kw_else()); }
    r
}

fn kw_elif_vec() -> (r: Vec<u8>)
    ensures
        r@ == kw_elif(),
{
    let r = vec!['e' as u8, 'l' as u8, 'i' as u8, 'f' as u8];
    proof { assert(r@ =~= kw_elif()); }
    r
}

fn kw_while_vec() -> (r: Vec<u8>)
    ensures
        r@ == kw_while(),
{
    let r = vec!['w' as u8, 'h' as u8, 'i' as u8, 'l' as u8, 'e' as u8];
    proof { assert(r@ =~= kw_while()); }
    r
}

fn kw_for_vec() -> (r: Vec<u8>)
    ensures
        r@ == kw_for(),
{
    let r = vec!['f' as u8, 'o' as u8, 'r' as u8];
    proof { assert(r@ =~= kw_for()); }
    r
}

fn kw_until_vec() -> (r: Vec<u8>)
    ensures
        r@ == kw_until(),
{
    let r = vec!['u' as u8, 'n' as u8, 't' as u8, 'i' as u8, 'l' as u8];
    proof { assert(r@ =~= kw_until()); }
    r
}

fn kw_incl_vec() -> (r: Vec<u8>)
    ensures
        r@ == kw_incl(),
{
    let r = vec!['i' as u8, 'n' as u8, 'c' as u8, 'l' as u8, 'u' as u8, 'd' as u8, 'e' as u8];
    proof { assert(r@ =~= kw_incl()); }
    r
}

fn kw_defer_vec() -> (r: Vec<u8>)
    ensures
        r@ == kw_defer(),
{
    let r = vec!['d' as u8, 'e' as u8, 'f' as u8, 'e' as u8, 'r' as u8];
    proof { assert(r@ =~= kw_defer()); }
    r
}

fn kw_delete_vec() -> (r: Vec<u8>)
    ensures
        r@ == kw_delete(),
{
    let r = vec!['d' as u8, 'e' as u8, 'l' as u8, 'e' as u8, 't' as u8, 'e' as u8];
    proof { assert(r@ =~= kw_delete()); }
    r
}

fn kw_switch_vec() -> (r: Vec<u8>)
    ensures
        r@ == kw_switch(),
{
    let r = vec!['s' as u8, 'w' as u8, 'i' as u8, 't' as u8, 'c' as u8, 'h' as u8];
    proof { assert(r@ =~= kw_switch()); }
    r
}

fn kw_case_vec() -> (r: Vec<u8>)
    ensures
        r@ == kw_case(),
{
    let r = vec!['c' as u8, 'a' as u8, 's' as u8, 'e' as u8];
    proof { assert(r@ =~= kw_case()); }
    r
}

fn kw_default_vec() -> (r: Vec<u8>)
    ensures
        r@ == kw_default(),
{
    let r = vec!['d' as u8, 'e' as u8, 'f' as u8, 'a' as u8, 'u' as u8, 'l' as u8, 't' as u8];
    proof { assert(r@ =~= kw_default()); }
    r
}

fn kw_fn_vec() -> (r: Vec<u8>)
    ensures
        r@ == kw_fn(),
{
    let r = vec!['f' as u8, 'n' as u8];
    proof { assert(r@ =~= kw_fn()); }
    r
}

fn kw_return_vec() -> (r: Vec<u8>)
    ensures
        r@ == kw_return(),
{
    let r = vec!['r' as u8, 'e' as u8, 't' as u8, 'u' as u8, 'r' as u8, 'n' as u8];
    proof { assert(r@ =~= kw_return()); }
    r
}

fn kw_struct_vec() -> (r: Vec<u8>)
    ensures
        r@ == kw_struct(),
{
    let r = vec!['s' as u8, 't' as u8, 'r' as u8, 'u' as u8, 'c' as u8, 't' as u8];
    proof { assert(r@ =~= kw_struct()); }
    r
}

fn kw_new_vec() -> (r: Vec<u8>)
    ensures
        r@ == kw_new(),
{
    let r = vec!['n' as u8, 'e' as u8, 'w' as u8];
    proof { assert(r@ =~= kw_new()); }
    r
}

fn kw_interface_vec() -> (r: Vec<u8>)
    ensures
        r@ == kw_interface(),
{
    let r = vec!['i' as u8, 'n' as u8, 't' as u8, 'e' as u8, 'r' as u8, 'f' as u8, 'a' as u8, 'c' as u8, 'e' as u8];
    proof { assert(r@ =~= kw_interface()); }
    r
}

fn kw_using_vec() -> (r: Vec<u8>)
    ensures
        r@ == kw_using(),
{
    let r = vec!['u' as u8, 's' as u8, 'i' as u8, 'n' as u8, 'g' as u8];
    proof { assert(r@ =~= kw_using()); }
    r
}

fn kw_enum_vec() -> (r: Vec<u8>)
    ensures
        r@ == kw_enum(),
{
    let r = vec!['e' as u8, 'n' as u8, 'u' as u8, 'm' as u8];
    proof { assert(r@ =~= kw_enum()); }
    r
}

fn kw_mut_vec() -> (r: Vec<u8>)
    ensures
        r@ == kw_mut(),
{
    let r = vec!['m' as u8, 'u' as u8, 't' as u8];
    proof { assert(r@ =~= kw_mut()); }
    r
}

fn kw_imut_vec() -> (r: Vec<u8>)
    ensures
        r@ == kw_imut(),
{
    let r = vec!['i' as u8, 'm' as u8, 'u' as u8, 't' as u8];
    proof { assert(r@ =~= kw_imut()); }
    r
}

fn kw_unsafe_vec() -> (r: Vec<u8>)
    ensures
        r@ == kw_unsafe(),
{
    let r = vec!['u' as u8, 'n' as u8, 's' as u8, 'a' as u8, 'f' as u8, 'e' as u8];
    proof { assert(r@ =~= kw_unsafe()); }
    r
}

fn kw_in_vec() -> (r: Vec<u8>)
    ensures
        r@ == kw_in(),
{
    let r = vec!['i' as u8, 'n' as u8];
    proof { assert(r@ =~= kw_in()); }
    r
}

fn kw_break_vec() -> (r: Vec<u8>)
    ensures
        r@ == kw_break(),
{
    let r = vec!['b' as u8, 'r' as u8, 'e' as u8, 'a' as u8, 'k' as u8];
    proof { assert(r@ =~= kw_break()); }
    r
}

fn kw_continue_vec() -> (r: Vec<u8>)
    ensures
        r@ == kw_continue(),
{
    let r = vec!['c' as u8, 'o' as u8, 'n' as u8, 't' as u8, 'i' as u8, 'n' as u8, 'u' as u8, 'e' as u8];
    proof { assert(r@ =~= kw_continue()); }
    r
}

fn kw_as_vec() -> (r: Vec<u8>)
    ensures
        r@ == kw_as(),
{
    let r = vec!['a' as u8, 's' as u8];
    proof { assert(r@ =~= kw_as()); }
    r
}

fn kw_publ_vec() -> (r: Vec<u8>)
    ensures
        r@ == kw_publ(),
{
    let r = vec!['p' as u8, 'u' as u8, 'b' as u8, 'l' as u8];
    proof { assert(r@ =~= kw_publ()); }
    r
}

fn kw_shared_vec() -> (r: Vec<u8>)
    ensures
        r@ == kw_shared(),
{
    let r = vec!['s' as u8, 'h' as u8, 'a' as u8, 'r' as u8, 'e' as u8, 'd' as u8];
    proof { assert(r@ =~= kw_shared()); }
    r
}

fn kw_true_vec() -> (r: Vec<u8>)
    ensures
        r@ == kw_true(),
{
    let r = vec!['t' as u8, 'r' as u8, 'u' as u8, 'e' as u8];
    proof { assert(r@ =~= kw_true()); }
    r
}

fn kw_false_vec() -> (r: Vec<u8>)
    ensures
        r@ == kw_false(),
{
    let r = vec!['f' as u8, 'a' as u8, 'l' as u8, 's' as u8, 'e' as u8];
    proof { assert(r@ =~= kw_false()); }
    r
}

fn kw_none_vec() -> (r: Vec<u8>)
    ensures
        r@ == kw_none(),
{
    let r = vec!['n' as u8, 'o' as u8, 'n' as u8, 'e' as u8];
    proof { assert(r@ =~= kw_none()); }
    r
}

fn kw_int16_vec() -> (r: Vec<u8>)
    ensures
        r@ == kw_int16(),
{
    let r = vec!['i' as u8, 'n' as u8, 't' as u8, '1' as u8, '6' as u8];
    proof { assert(r@ =~= kw_int16()); }
    r
}

fn kw_int32_vec() -> (r: Vec<u8>)
    ensures
        r@ == kw_int32(),
{
    let r = vec!['i' as u8, 'n' as u8, 't' as u8, '3' as u8, '2' as u8];
    proof { assert(r@ =~= kw_int32()); }
    r
}

fn kw_int64_vec() -> (r: Vec<u8>)
    ensures
        r@ == kw_int64(),
{
    let r = vec!['i' as u8, 'n' as u8, 't' as u8, '6' as u8, '4' as u8];
    proof { assert(r@ =~= kw_int64()); }
    r
}

fn kw_uint8_vec() -> (r: Vec<u8>)
    ensures
        r@ == kw_uint8(),
{
    let r = vec!['u' as u8, 'i' as u8, 'n' as u8, 't' as u8, '8' as u8];
    proof { assert(r@ =~= kw_uint8()); }
    r
}

fn kw_uint16_vec() -> (r: Vec<u8>)
    ensures
        r@ == kw_uint16(),
{
    let r = vec!['u' as u8, 'i' as u8, 'n' as u8, 't' as u8, '1' as u8, '6' as u8];
    proof { assert(r@ =~= kw_uint16()); }
    r
}

fn kw_uint32_vec() -> (r: Vec<u8>)
    ensures
        r@ == kw_uint32(),
{
    let r = vec!['u' as u8, 'i' as u8, 'n' as u8, 't' as u8, '3' as u8, '2' as u8];
    proof { assert(r@ =~= kw_uint32()); }
    r
}

fn kw_uint64_vec() -> (r: Vec<u8>)
    ensures
        r@ == kw_uint64(),
{
    let r = vec!['u' as u8, 'i' as u8, 'n' as u8, 't' as u8, '6' as u8, '4' as u8];
    proof { assert(r@ =~= kw_uint64()); }
    r
}

fn kw_str_vec() -> (r: Vec<u8>)
    ensures
        r@ == kw_str(),
{
    let r = vec!['s' as u8, 't' as u8, 'r' as u8];
    proof { assert(r@ =~= kw_str()); }
    r
}


pub open spec fn kw_if() -> Seq<u8> {
    seq!['i' as u8, 'f' as u8]
}

pub open spec fn kw_else() -> Seq<u8> {
    seq!['e' as u8, 'l' as u8, 's' as u8, 'e' as u8]
}

pub open spec fn kw_elif() -> Seq<u8> {
    seq!['e' as u8, 'l' as u8, 'i' as u8, 'f' as u8]
}

pub open spec fn kw_while() -> Seq<u8> {
    seq!['w' as u8, 'h' as u8, 'i' as u8, 'l' as u8, 'e' as u8]
}

pub open spec fn kw_for() -> Seq<u8> {
    seq!['f' as u8, 'o' as u8, 'r' as u8]
}

pub open spec fn kw_until() -> Seq<u8> {
    seq!['u' as u8, 'n' as u8, 't' as u8, 'i' as u8, 'l' as u8]
}

pub open spec fn kw_incl() -> Seq<u8> {
    seq!['i' as u8, 'n' as u8, 'c' as u8, 'l' as u8, 'u' as u8, 'd' as u8, 'e' as u8]
}

pub open spec fn kw_defer() -> Seq<u8> {
    seq!['d' as u8, 'e' as u8, 'f' as u8, 'e' as u8, 'r' as u8]
}

pub open spec fn kw_delete() -> Seq<u8> {
    seq!['d' as u8, 'e' as u8, 'l' as u8, 'e' as u8, 't' as u8, 'e' as u8]
}

pub open spec fn kw_switch() -> Seq<u8> {
    seq!['s' as u8, 'w' as u8, 'i' as u8, 't' as u8, 'c' as u8, 'h' as u8]
}

pub open spec fn kw_case() -> Seq<u8> {
    seq!['c' as u8, 'a' as u8, 's' as u8, 'e' as u8]
}

pub open spec fn kw_default() -> Seq<u8> {
    seq!['d' as u8, 'e' as u8, 'f' as u8, 'a' as u8, 'u' as u8, 'l' as u8, 't' as u8]
}

pub open spec fn kw_fn() -> Seq<u8> {
    seq!['f' as u8, 'n' as u8]
}

pub open spec fn kw_return() -> Seq<u8> {
    seq!['r' as u8, 'e' as u8, 't' as u8, 'u' as u8, 'r' as u8, 'n' as u8]
}

pub open spec fn kw_struct() -> Seq<u8> {
    seq!['s' as u8, 't' as u8, 'r' as u8, 'u' as u8, 'c' as u8, 't' as u8]
}

pub open spec fn kw_new() -> Seq<u8> {
    seq!['n' as u8, 'e' as u8, 'w' as u8]
}

pub open spec fn kw_interface() -> Seq<u8> {
    seq!['i' as u8, 'n' as u8, 't' as u8, 'e' as u8, 'r' as u8, 'f' as u8, 'a' as u8, 'c' as u8, 'e' as u8]
}

pub open spec fn kw_using() -> Seq<u8> {
    seq!['u' as u8, 's' as u8, 'i' as u8, 'n' as u8, 'g' as u8]
}

pub open spec fn kw_enum() -> Seq<u8> {
    seq!['e' as u8, 'n' as u8, 'u' as u8, 'm' as u8]
}

pub open spec fn kw_mut() -> Seq<u8> {
    seq!['m' as u8, 'u' as u8, 't' as u8]
}

pub open spec fn kw_imut() -> Seq<u8> {
    seq!['i' as u8, 'm' as u8, 'u' as u8, 't' as u8]
}

pub open spec fn kw_unsafe() -> Seq<u8> {
    seq!['u' as u8, 'n' as u8, 's' as u8, 'a' as u8, 'f' as u8, 'e' as u8]
}

pub open spec fn kw_in() -> Seq<u8> {
    seq!['i' as u8, 'n' as u8]
}

pub open spec fn kw_break() -> Seq<u8> {
    seq!['b' as u8, 'r' as u8, 'e' as u8, 'a' as u8, 'k' as u8]
}

pub open spec fn kw_continue() -> Seq<u8> {
    seq!['c' as u8, 'o' as u8, 'n' as u8, 't' as u8, 'i' as u8, 'n' as u8, 'u' as u8, 'e' as u8]
}

pub open spec fn kw_as() -> Seq<u8> {
    seq!['a' as u8, 's' as u8]
}

pub open spec fn kw_publ() -> Seq<u8> {
    seq!['p' as u8, 'u' as u8, 'b' as u8, 'l' as u8]
}

pub open spec fn kw_shared() -> Seq<u8> {
    seq!['s' as u8, 'h' as u8, 'a' as u8, 'r' as u8, 'e' as u8, 'd' as u8]
}

pub open spec fn kw_true() -> Seq<u8> {
    seq!['t' as u8, 'r' as u8, 'u' as u8, 'e' as u8]
}

pub open spec fn kw_false() -> Seq<u8> {
    seq!['f' as u8, 'a' as u8, 'l' as u8, 's' as u8, 'e' as u8]
}

pub open spec fn kw_none() -> Seq<u8> {
    seq!['n' as u8, 'o' as u8, 'n' as u8, 'e' as u8]
}

pub open spec fn kw_int16() -> Seq<u8> {
    seq!['i' as u8, 'n' as u8, 't' as u8, '1' as u8, '6' as u8]
}

pub open spec fn kw_int32() -> Seq<u8> {
    seq!['i' as u8, 'n' as u8, 't' as u8, '3' as u8, '2' as u8]
}

pub open spec fn kw_int64() -> Seq<u8> {
    seq!['i' as u8, 'n' as u8, 't' as u8, '6' as u8, '4' as u8]
}

pub open spec fn kw_uint8() -> Seq<u8> {
    seq!['u' as u8, 'i' as u8, 'n' as u8, 't' as u8, '8' as u8]
}

pub open spec fn kw_uint16() -> Seq<u8> {
    seq!['u' as u8, 'i' as u8, 'n' as u8, 't' as u8, '1' as u8, '6' as u8]
}

pub open spec fn kw_uint32() -> Seq<u8> {
    seq!['u' as u8, 'i' as u8, 'n' as u8, 't' as u8, '3' as u8, '2' as u8]
}

pub open spec fn kw_uint64() -> Seq<u8> {
    seq!['u' as u8, 'i' as u8, 'n' as u8, 't' as u8, '6' as u8, '4' as u8]
}

pub open spec fn kw_str() -> Seq<u8> {
    seq!['s' as u8, 't' as u8, 'r' as u8]
}

/// Whether `w` is one of the reserved spellings of the keyword table.
pub open spec fn is_reserved(w: Seq<u8>) -> bool {
    w == kw_if()
    || w == kw_else()
    || w == kw_elif()
    || w == kw_while()
    || w == kw_for()
    || w == kw_until()
    || w == kw_incl()
    || w == kw_defer()
    || w == kw_delete()
    || w == kw_switch()
    || w == kw_case()
    || w == kw_default()
    || w == kw_fn()
    || w == kw_return()
    || w == kw_struct()
    || w == kw_new()
    || w == kw_interface()
    || w == kw_using()
    || w == kw_enum()
    || w == kw_mut()
    || w == kw_imut()
    || w == kw_unsafe()
    || w == kw_in()
    || w == kw_break()
    || w == kw_continue()
    || w == kw_as()
    || w == kw_publ()
    || w == kw_shared()
    || w == kw_true()
    || w == kw_false()
    || w == kw_none()
    || w == kw_int16()
    || w == kw_int32()
    || w == kw_int64()
    || w == kw_uint8()
    || w == kw_uint16()
    || w == kw_uint32()
    || w == kw_uint64()
    || w == kw_str()
}

/// Classification of an identifier-shaped word by the keyword table.
pub open spec fn keyword_spec(w: Seq<u8>) -> TokenV {
    if w == kw_if() {
        TokenV::If
    } else if w == kw_else() {
        TokenV::Else
    } else if w == kw_elif() {
        TokenV::Elif
    } else if w == kw_while() {
        TokenV::While
    } else if w == kw_for() {
        TokenV::For
    } else if w == kw_until() {
        TokenV::Until
    } else if w == kw_incl() {
        TokenV::Incl
    } else if w == kw_defer() {
        TokenV::Defer
    } else if w == kw_delete() {
        TokenV::Delete
    } else if w == kw_switch() {
        TokenV::Switch
    } else if w == kw_case() {
        TokenV::Case
    } else if w == kw_default() {
        TokenV::Default
    } else if w == kw_fn() {
        TokenV::Fn
    } else if w == kw_return() {
        TokenV::Return
    } else if w == kw_struct() {
        TokenV::Struct
    } else if w == kw_new() {
        TokenV::New
    } else if w == kw_interface() {
        TokenV::Interface
    } else if w == kw_using() {
        TokenV::Using
    } else if w == kw_enum() {
        TokenV::Enum
    } else if w == kw_mut() {
        TokenV::Mut
    } else if w == kw_imut() {
        TokenV::Imut
    } else if w == kw_unsafe() {
        TokenV::Unsafe
    } else if w == kw_in() {
        TokenV::In
    } else if w == kw_break() {
        TokenV::Break
    } else if w == kw_continue() {
        TokenV::Continue
    } else if w == kw_as() {
        TokenV::As
    } else if w == kw_publ() {
        TokenV::Publ
    } else if w == kw_shared() {
        TokenV::Shared
    } else if w == kw_true() {
        TokenV::Bool(true)
    } else if w == kw_false() {
        TokenV::Bool(false)
    } else if w == kw_none() {
        TokenV::Null
    } else if w == kw_int16() {
        TokenV::Type(Type::I16)
    } else if w == kw_int32() {
        TokenV::Type(Type::I32)
    } else if w == kw_int64() {
        TokenV::Type(Type::I64)
    } else if w == kw_uint8() {
        TokenV::Type(Type::U8)
    } else if w == kw_uint16() {
        TokenV::Type(Type::U16)
    } else if w == kw_uint32() {
        TokenV::Type(Type::U32)
    } else if w == kw_uint64() {
        TokenV::Type(Type::U64)
    } else if w == kw_str() {
        TokenV::Type(Type::STR)
    } else {
        TokenV::Ident(w)
    }
}

/// Classifies an identifier-shaped word: reserved spellings become their
/// keyword, literal or type token, anything else stays an identifier.
pub fn keyword_token(w: Vec<u8>) -> (t: Token)
    ensures
        t@ == keyword_spec(w@),
{
    if w.len() == 2 && w[0] == 'i' as u8 && w[1] == 'f' as u8 {
        proof { assert(w@ =~= kw_if()); }
        Token::If
    } else if w.len() == 4 && w[0] == 'e' as u8 && w[1] == 'l' as u8 && w[2] == 's' as u8 && w[3] == 'e' as u8 {
        proof { assert(w@ =~= kw_else()); }
        Token::Else
    } else if w.len() == 4 && w[0] == 'e' as u8 && w[1] == 'l' as u8 && w[2] == 'i' as u8 && w[3] == 'f' as u8 {
        proof { assert(w@ =~= kw_elif()); }
        Token::Elif
    } else if w.len() == 5 && w[0] == 'w' as u8 && w[1] == 'h' as u8 && w[2] == 'i' as u8 && w[3] == 'l' as u8 && w[4] == 'e' as u8 {
        proof { assert(w@ =~= kw_while()); }
        Token::While
    } else if w.len() == 3 && w[0] == 'f' as u8 && w[1] == 'o' as u8 && w[2] == 'r' as u8 {
        proof { assert(w@ =~= kw_for()); }
        Token::For
    } else if w.len() == 5 && w[0] == 'u' as u8 && w[1] == 'n' as u8 && w[2] == 't' as u8 && w[3] == 'i' as u8 && w[4] == 'l' as u8 {
        proof { assert(w@ =~= kw_until()); }
        Token::Until
    } else if w.len() == 7 && w[0] == 'i' as u8 && w[1] == 'n' as u8 && w[2] == 'c' as u8 && w[3] == 'l' as u8 && w[4] == 'u' as u8 && w[5] == 'd' as u8 && w[6] == 'e' as u8 {
        proof { assert(w@ =~= kw_incl()); }
        Token::Incl
    } else if w.len() == 5 && w[0] == 'd' as u8 && w[1] == 'e' as u8 && w[2] == 'f' as u8 && w[3] == 'e' as u8 && w[4] == 'r' as u8 {
        proof { assert(w@ =~= kw_defer()); }
        Token::Defer
    } else if w.len() == 6 && w[0] == 'd' as u8 && w[1] == 'e' as u8 && w[2] == 'l' as u8 && w[3] == 'e' as u8 && w[4] == 't' as u8 && w[5] == 'e' as u8 {
        proof { assert(w@ =~= kw_delete()); }
        Token::Delete
    } else if w.len() == 6 && w[0] == 's' as u8 && w[1] == 'w' as u8 && w[2] == 'i' as u8 && w[3] == 't' as u8 && w[4] == 'c' as u8 && w[5] == 'h' as u8 {
        proof { assert(w@ =~= kw_switch()); }
        Token::Switch
    } else if w.len() == 4 && w[0] == 'c' as u8 && w[1] == 'a' as u8 && w[2] == 's' as u8 && w[3] == 'e' as u8 {
        proof { assert(w@ =~= kw_case()); }
        Token::Case
    } else if w.len() == 7 && w[0] == 'd' as u8 && w[1] == 'e' as u8 && w[2] == 'f' as u8 && w[3] == 'a' as u8 && w[4] == 'u' as u8 && w[5] == 'l' as u8 && w[6] == 't' as u8 {
        proof { assert(w@ =~= kw_default()); }
        Token::Default
    } else if w.len() == 2 && w[0] == 'f' as u8 && w[1] == 'n' as u8 {
        proof { assert(w@ =~= kw_fn()); }
        Token::Fn
    } else if w.len() == 6 && w[0] == 'r' as u8 && w[1] == 'e' as u8 && w[2] == 't' as u8 && w[3] == 'u' as u8 && w[4] == 'r' as u8 && w[5] == 'n' as u8 {
        proof { assert(w@ =~= kw_return()); }
        Token::Return
    } else if w.len() == 6 && w[0] == 's' as u8 && w[1] == 't' as u8 && w[2] == 'r' as u8 && w[3] == 'u' as u8 && w[4] == 'c' as u8 && w[5] == 't' as u8 {
        proof { assert(w@ =~= kw_struct()); }
        Token::Struct
    } else if w.len() == 3 && w[0] == 'n' as u8 && w[1] == 'e' as u8 && w[2] == 'w' as u8 {
        proof { assert(w@ =~= kw_new()); }
        Token::New
    } else if w.len() == 9 && w[0] == 'i' as u8 && w[1] == 'n' as u8 && w[2] == 't' as u8 && w[3] == 'e' as u8 && w[4] == 'r' as u8 && w[5] == 'f' as u8 && w[6] == 'a' as u8 && w[7] == 'c' as u8 && w[8] == 'e' as u8 {
        proof { assert(w@ =~= kw_interface()); }
        Token::Interface
    } else if w.len() == 5 && w[0] == 'u' as u8 && w[1] == 's' as u8 && w[2] == 'i' as u8 && w[3] == 'n' as u8 && w[4] == 'g' as u8 {
        proof { assert(w@ =~= kw_using()); }
        Token::Using
    } else if w.len() == 4 && w[0] == 'e' as u8 && w[1] == 'n' as u8 && w[2] == 'u' as u8 && w[3] == 'm' as u8 {
        proof { assert(w@ =~= kw_enum()); }
        Token::Enum
    } else if w.len() == 3 && w[0] == 'm' as u8 && w[1] == 'u' as u8 && w[2] == 't' as u8 {
        proof { assert(w@ =~= kw_mut()); }
        Token::Mut
    } else if w.len() == 4 && w[0] == 'i' as u8 && w[1] == 'm' as u8 && w[2] == 'u' as u8 && w[3] == 't' as u8 {
        proof { assert(w@ =~= kw_imut()); }
        Token::Imut
    } else if w.len() == 6 && w[0] == 'u' as u8 && w[1] == 'n' as u8 && w[2] == 's' as u8 && w[3] == 'a' as u8 && w[4] == 'f' as u8 && w[5] == 'e' as u8 {
        proof { assert(w@ =~= kw_unsafe()); }
        Token::Unsafe
    } else if w.len() == 2 && w[0] == 'i' as u8 && w[1] == 'n' as u8 {
        proof { assert(w@ =~= kw_in()); }
        Token::In
    } else if w.len() == 5 && w[0] == 'b' as u8 && w[1] == 'r' as u8 && w[2] == 'e' as u8 && w[3] == 'a' as u8 && w[4] == 'k' as u8 {
        proof { assert(w@ =~= kw_break()); }
        Token::Break
    } else if w.len() == 8 && w[0] == 'c' as u8 && w[1] == 'o' as u8 && w[2] == 'n' as u8 && w[3] == 't' as u8 && w[4] == 'i' as u8 && w[5] == 'n' as u8 && w[6] == 'u' as u8 && w[7] == 'e' as u8 {
        proof { assert(w@ =~= kw_continue()); }
        Token::Continue
    } else if w.len() == 2 && w[0] == 'a' as u8 && w[1] == 's' as u8 {
        proof { assert(w@ =~= kw_as()); }
        Token::As
    } else if w.len() == 4 && w[0] == 'p' as u8 && w[1] == 'u' as u8 && w[2] == 'b' as u8 && w[3] == 'l' as u8 {
        proof { assert(w@ =~= kw_publ()); }
        Token::Publ
    } else if w.len() == 6 && w[0] == 's' as u8 && w[1] == 'h' as u8 && w[2] == 'a' as u8 && w[3] == 'r' as u8 && w[4] == 'e' as u8 && w[5] == 'd' as u8 {
        proof { assert(w@ =~= kw_shared()); }
        Token::Shared
    } else if w.len() == 4 && w[0] == 't' as u8 && w[1] == 'r' as u8 && w[2] == 'u' as u8 && w[3] == 'e' as u8 {
        proof { assert(w@ =~= kw_true()); }
        Token::Bool(true)
    } else if w.len() == 5 && w[0] == 'f' as u8 && w[1] == 'a' as u8 && w[2] == 'l' as u8 && w[3] == 's' as u8 && w[4] == 'e' as u8 {
        proof { assert(w@ =~= kw_false()); }
        Token::Bool(false)
    } else if w.len() == 4 && w[0] == 'n' as u8 && w[1] == 'o' as u8 && w[2] == 'n' as u8 && w[3] == 'e' as u8 {
        proof { assert(w@ =~= kw_none()); }
        Token::Null
    } else if w.len() == 5 && w[0] == 'i' as u8 && w[1] == 'n' as u8 && w[2] == 't' as u8 && w[3] == '1' as u8 && w[4] == '6' as u8 {
        proof { assert(w@ =~= kw_int16()); }
        Token::Type(Box::new(Type::I16))
    } else if w.len() == 5 && w[0] == 'i' as u8 && w[1] == 'n' as u8 && w[2] == 't' as u8 && w[3] == '3' as u8 && w[4] == '2' as u8 {
        proof { assert(w@ =~= kw_int32()); }
        Token::Type(Box::new(Type::I32))
    } else if w.len() == 5 && w[0] == 'i' as u8 && w[1] == 'n' as u8 && w[2] == 't' as u8 && w[3] == '6' as u8 && w[4] == '4' as u8 {
        proof { assert(w@ =~= kw_int64()); }
        Token::Type(Box::new(Type::I64))
    } else if w.len() == 5 && w[0] == 'u' as u8 && w[1] == 'i' as u8 && w[2] == 'n' as u8 && w[3] == 't' as u8 && w[4] == '8' as u8 {
        proof { assert(w@ =~= kw_uint8()); }
        Token::Type(Box::new(Type::U8))
    } else if w.len() == 6 && w[0] == 'u' as u8 && w[1] == 'i' as u8 && w[2] == 'n' as u8 && w[3] == 't' as u8 && w[4] == '1' as u8 && w[5] == '6' as u8 {
        proof { assert(w@ =~= kw_uint16()); }
        Token::Type(Box::new(Type::U16))
    } else if w.len() == 6 && w[0] == 'u' as u8 && w[1] == 'i' as u8 && w[2] == 'n' as u8 && w[3] == 't' as u8 && w[4] == '3' as u8 && w[5] == '2' as u8 {
        proof { assert(w@ =~= kw_uint32()); }
        Token::Type(Box::new(Type::U32))
    } else if w.len() == 6 && w[0] == 'u' as u8 && w[1] == 'i' as u8 && w[2] == 'n' as u8 && w[3] == 't' as u8 && w[4] == '6' as u8 && w[5] == '4' as u8 {
        proof { assert(w@ =~= kw_uint64()); }
        Token::Type(Box::new(Type::U64))
    } else if w.len() == 3 && w[0] == 's' as u8 && w[1] == 't' as u8 && w[2] == 'r' as u8 {
        proof { assert(w@ =~= kw_str()); }
        Token::Type(Box::new(Type::STR))
    } else {
        Token::Ident(w)
    }
}

/// Wraps a primitive-type tag as a token.
pub fn box_type(t: Type) -> (r: Token)
    ensures
        r@ == TokenV::Type(t),
{
    Token::Type(Box::new(t))
}

} // verus!

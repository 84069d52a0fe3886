//! The tokenizer: one forward pass over the source bytes, producing spanned
//! tokens and positioned lexical errors, never stopping at the first error.

use vstd::prelude::*;

use crate::bytes::copy_range;
use crate::token::LexError;
use crate::token::LexErrV;
use crate::token::LexErrorKind;
use crate::token::Span;
use crate::token::Spanned;
use crate::token::SpanV;
use crate::token::Token;
use crate::token::TokenV;
use crate::token::keyword_spec;
use crate::token::keyword_token;

verus! {

/// Space, tab, newline or carriage return: insignificant between tokens.
pub open spec fn is_space(c: u8) -> bool {
    c == ' ' as u8 || c == '\t' as u8 || c == '\n' as u8 || c == '\r' as u8
}

/// A decimal digit.
pub open spec fn is_digit(c: u8) -> bool {
    '0' as u8 <= c <= '9' as u8
}

/// A character that operator runs are made of.
pub open spec fn is_op_char(c: u8) -> bool {
    c == '+' as u8 || c == '*' as u8 || c == '-' as u8 || c == '/' as u8
        || c == '!' as u8 || c == '=' as u8
}

/// A single-character control token.
pub open spec fn is_ctrl(c: u8) -> bool {
    c == '(' as u8 || c == ')' as u8 || c == '[' as u8 || c == ']' as u8
        || c == '{' as u8 || c == '}' as u8 || c == ':' as u8 || c == ';' as u8
        || c == ',' as u8
}

/// An ASCII letter or underscore: may start an identifier.
pub open spec fn is_ident_start(c: u8) -> bool {
    ('a' as u8 <= c <= 'z' as u8) || ('A' as u8 <= c <= 'Z' as u8) || c == '_' as u8
}

/// An identifier continuation character.
pub open spec fn is_ident_cont(c: u8) -> bool {
    is_ident_start(c) || is_digit(c)
}

/// A character that starts no token and is no separator: scanning it is an error.
pub open spec fn is_junk(c: u8) -> bool {
    !is_space(c) && c != '@' as u8 && !is_digit(c) && c != '"' as u8
        && !is_op_char(c) && !is_ctrl(c) && !is_ident_start(c)
}

fn space_char(c: u8) -> (r: bool)
    ensures
        r == is_space(c),
{
    c == ' ' as u8 || c == '\t' as u8 || c == '\n' as u8 || c == '\r' as u8
}

fn digit_char(c: u8) -> (r: bool)
    ensures
        r == is_digit(c),
{
    '0' as u8 <= c && c <= '9' as u8
}

fn op_char(c: u8) -> (r: bool)
    ensures
        r == is_op_char(c),
{
    c == '+' as u8 || c == '*' as u8 || c == '-' as u8 || c == '/' as u8
        || c == '!' as u8 || c == '=' as u8
}

fn ctrl_char(c: u8) -> (r: bool)
    ensures
        r == is_ctrl(c),
{
    c == '(' as u8 || c == ')' as u8 || c == '[' as u8 || c == ']' as u8
        || c == '{' as u8 || c == '}' as u8 || c == ':' as u8 || c == ';' as u8
        || c == ',' as u8
}

fn ident_start_char(c: u8) -> (r: bool)
    ensures
        r == is_ident_start(c),
{
    ('a' as u8 <= c && c <= 'z' as u8) || ('A' as u8 <= c && c <= 'Z' as u8)
        || c == '_' as u8
}

fn ident_cont_char(c: u8) -> (r: bool)
    ensures
        r == is_ident_cont(c),
{
    ident_start_char(c) || digit_char(c)
}

/// First position at or after `i` that holds no decimal digit.
pub open spec fn digits_end(s: Seq<u8>, i: nat) -> nat
    decreases s.len() - i,
{
    if i < s.len() && is_digit(s[i as int]) {
        digits_end(s, i + 1)
    } else {
        i
    }
}

/// First position at or after `i` that holds no operator character.
pub open spec fn op_end(s: Seq<u8>, i: nat) -> nat
    decreases s.len() - i,
{
    if i < s.len() && is_op_char(s[i as int]) {
        op_end(s, i + 1)
    } else {
        i
    }
}

/// First position at or after `i` that holds no identifier character.
pub open spec fn ident_end(s: Seq<u8>, i: nat) -> nat
    decreases s.len() - i,
{
    if i < s.len() && is_ident_cont(s[i as int]) {
        ident_end(s, i + 1)
    } else {
        i
    }
}

/// First newline at or after `i`, or the end of input: where a comment stops.
pub open spec fn comment_end(s: Seq<u8>, i: nat) -> nat
    decreases s.len() - i,
{
    if i < s.len() && s[i as int] != '\n' as u8 {
        comment_end(s, i + 1)
    } else {
        i
    }
}

/// First double quote at or after `i`, or the end of input.
pub open spec fn quote_end(s: Seq<u8>, i: nat) -> nat
    decreases s.len() - i,
{
    if i < s.len() && s[i as int] != '"' as u8 {
        quote_end(s, i + 1)
    } else {
        i
    }
}

pub proof fn lemma_digits_end(s: Seq<u8>, i: nat)
    requires
        i <= s.len(),
    ensures
        i <= digits_end(s, i) <= s.len(),
        forall|j: int| i <= j < digits_end(s, i) ==> is_digit(s[j]),
        digits_end(s, i) == s.len() || !is_digit(s[digits_end(s, i) as int]),
    decreases s.len() - i,
{
    if i < s.len() && is_digit(s[i as int]) {
        lemma_digits_end(s, i + 1);
    }
}

pub proof fn lemma_op_end(s: Seq<u8>, i: nat)
    requires
        i <= s.len(),
    ensures
        i <= op_end(s, i) <= s.len(),
        forall|j: int| i <= j < op_end(s, i) ==> is_op_char(s[j]),
        op_end(s, i) == s.len() || !is_op_char(s[op_end(s, i) as int]),
    decreases s.len() - i,
{
    if i < s.len() && is_op_char(s[i as int]) {
        lemma_op_end(s, i + 1);
    }
}

pub proof fn lemma_ident_end(s: Seq<u8>, i: nat)
    requires
        i <= s.len(),
    ensures
        i <= ident_end(s, i) <= s.len(),
        forall|j: int| i <= j < ident_end(s, i) ==> is_ident_cont(s[j]),
        ident_end(s, i) == s.len() || !is_ident_cont(s[ident_end(s, i) as int]),
    decreases s.len() - i,
{
    if i < s.len() && is_ident_cont(s[i as int]) {
        lemma_ident_end(s, i + 1);
    }
}

pub proof fn lemma_comment_end(s: Seq<u8>, i: nat)
    requires
        i <= s.len(),
    ensures
        i <= comment_end(s, i) <= s.len(),
        forall|j: int| i <= j < comment_end(s, i) ==> s[j] != '\n' as u8,
        comment_end(s, i) == s.len() || s[comment_end(s, i) as int] == '\n' as u8,
    decreases s.len() - i,
{
    if i < s.len() && s[i as int] != '\n' as u8 {
        lemma_comment_end(s, i + 1);
    }
}

pub proof fn lemma_quote_end(s: Seq<u8>, i: nat)
    requires
        i <= s.len(),
    ensures
        i <= quote_end(s, i) <= s.len(),
        forall|j: int| i <= j < quote_end(s, i) ==> s[j] != '"' as u8,
        quote_end(s, i) == s.len() || s[quote_end(s, i) as int] == '"' as u8,
    decreases s.len() - i,
{
    if i < s.len() && s[i as int] != '"' as u8 {
        lemma_quote_end(s, i + 1);
    }
}

fn scan_digits(src: &[u8], start: usize) -> (e: usize)
    requires
        start <= src@.len(),
    ensures
        e == digits_end(src@, start as nat),
{
    let mut i: usize = start;
    while i < src.len() && digit_char(src[i])
        invariant
            start <= i <= src@.len(),
            digits_end(src@, start as nat) == digits_end(src@, i as nat),
        decreases src@.len() - i,
    {
        i = i + 1;
    }
    i
}

fn scan_op(src: &[u8], start: usize) -> (e: usize)
    requires
        start <= src@.len(),
    ensures
        e == op_end(src@, start as nat),
{
    let mut i: usize = start;
    while i < src.len() && op_char(src[i])
        invariant
            start <= i <= src@.len(),
            op_end(src@, start as nat) == op_end(src@, i as nat),
        decreases src@.len() - i,
    {
        i = i + 1;
    }
    i
}

fn scan_ident(src: &[u8], start: usize) -> (e: usize)
    requires
        start <= src@.len(),
    ensures
        e == ident_end(src@, start as nat),
{
    let mut i: usize = start;
    while i < src.len() && ident_cont_char(src[i])
        invariant
            start <= i <= src@.len(),
            ident_end(src@, start as nat) == ident_end(src@, i as nat),
        decreases src@.len() - i,
    {
        i = i + 1;
    }
    i
}

fn scan_comment(src: &[u8], start: usize) -> (e: usize)
    requires
        start <= src@.len(),
    ensures
        e == comment_end(src@, start as nat),
{
    let mut i: usize = start;
    while i < src.len() && src[i] != '\n' as u8
        invariant
            start <= i <= src@.len(),
            comment_end(src@, start as nat) == comment_end(src@, i as nat),
        decreases src@.len() - i,
    {
        i = i + 1;
    }
    i
}

fn scan_quote(src: &[u8], start: usize) -> (e: usize)
    requires
        start <= src@.len(),
    ensures
        e == quote_end(src@, start as nat),
{
    let mut i: usize = start;
    while i < src.len() && src[i] != '"' as u8
        invariant
            start <= i <= src@.len(),
            quote_end(src@, start as nat) == quote_end(src@, i as nat),
        decreases src@.len() - i,
    {
        i = i + 1;
    }
    i
}

/// Where a numeric literal starting at `pos` ends: its digits, then an
/// optional `.` followed by at least one digit.
pub open spec fn num_end(s: Seq<u8>, pos: nat) -> nat {
    let e1 = digits_end(s, pos + 1);
    if e1 < s.len() && s[e1 as int] == '.' as u8 && e1 + 1 < s.len()
        && is_digit(s[e1 as int + 1]) {
        digits_end(s, e1 + 2)
    } else {
        e1
    }
}

pub proof fn lemma_num_end(s: Seq<u8>, pos: nat)
    requires
        pos < s.len(),
    ensures
        pos < num_end(s, pos) <= s.len(),
{
    lemma_digits_end(s, pos + 1);
    let e1 = digits_end(s, pos + 1);
    if e1 < s.len() && s[e1 as int] == '.' as u8 && e1 + 1 < s.len()
        && is_digit(s[e1 as int + 1]) {
        lemma_digits_end(s, e1 + 2);
    }
}

/// What one step of the scan consumed: a token, an error character, or a
/// separator (a whitespace character or a comment).
pub enum UnitKind {
    Tok(TokenV),
    Bad(LexErrorKind),
    Sep,
}

/// What one scan produces: spanned tokens and positioned errors, in order,
/// together with the full record of consumed units, separators included.
pub struct LexV {
    pub toks: Seq<(TokenV, SpanV)>,
    pub errs: Seq<LexErrV>,
    pub units: Seq<(SpanV, UnitKind)>,
}

pub open spec fn lex_cons_tok(t: TokenV, lo: int, hi: int, rest: LexV) -> LexV {
    LexV {
        toks: seq![(t, SpanV { start: lo, end: hi })] + rest.toks,
        errs: rest.errs,
        units: seq![(SpanV { start: lo, end: hi }, UnitKind::Tok(t))] + rest.units,
    }
}

pub open spec fn lex_cons_err(k: LexErrorKind, lo: int, hi: int, rest: LexV) -> LexV {
    LexV {
        toks: rest.toks,
        errs: seq![LexErrV { kind: k, span: SpanV { start: lo, end: hi } }] + rest.errs,
        units: seq![(SpanV { start: lo, end: hi }, UnitKind::Bad(k))] + rest.units,
    }
}

pub open spec fn lex_cons_sep(lo: int, hi: int, rest: LexV) -> LexV {
    LexV {
        toks: rest.toks,
        errs: rest.errs,
        units: seq![(SpanV { start: lo, end: hi }, UnitKind::Sep)] + rest.units,
    }
}

/// The scan of `s` from position `pos` on: the mathematical tokenizer.
///
/// At each position, in this order: whitespace and `@`-to-end-of-line
/// comments are skipped; a digit starts a numeric literal; a quote starts a
/// string literal (an unclosed one is an error at the opening quote, which is
/// then skipped); an operator character starts an operator run; control
/// punctuation is one token; a letter or underscore starts an identifier,
/// classified by the keyword table. Any other character is an error and is
/// skipped, so the scan always moves forward.
pub open spec fn lex_from(s: Seq<u8>, pos: nat) -> LexV
    decreases s.len() - pos,
    via lex_from_decreases
{
    if pos >= s.len() {
        LexV { toks: Seq::empty(), errs: Seq::empty(), units: Seq::empty() }
    } else {
        let c = s[pos as int];
        if is_space(c) {
            lex_cons_sep(pos as int, pos as int + 1, lex_from(s, pos + 1))
        } else if c == '@' as u8 {
            lex_cons_sep(
                pos as int,
                comment_end(s, pos + 1) as int,
                lex_from(s, comment_end(s, pos + 1)),
            )
        } else if is_digit(c) {
            let e = num_end(s, pos);
            lex_cons_tok(
                TokenV::Num(s.subrange(pos as int, e as int)),
                pos as int,
                e as int,
                lex_from(s, e),
            )
        } else if c == '"' as u8 {
            let q = quote_end(s, pos + 1);
            if q < s.len() {
                lex_cons_tok(
                    TokenV::Str(s.subrange(pos as int + 1, q as int)),
                    pos as int,
                    q as int + 1,
                    lex_from(s, q + 1),
                )
            } else {
                lex_cons_err(
                    LexErrorKind::UnterminatedString,
                    pos as int,
                    pos as int + 1,
                    lex_from(s, pos + 1),
                )
            }
        } else if is_op_char(c) {
            let e = op_end(s, pos + 1);
            lex_cons_tok(
                TokenV::Op(s.subrange(pos as int, e as int)),
                pos as int,
                e as int,
                lex_from(s, e),
            )
        } else if is_ctrl(c) {
            lex_cons_tok(TokenV::Ctrl(c), pos as int, pos as int + 1, lex_from(s, pos + 1))
        } else if is_ident_start(c) {
            let e = ident_end(s, pos + 1);
            lex_cons_tok(
                keyword_spec(s.subrange(pos as int, e as int)),
                pos as int,
                e as int,
                lex_from(s, e),
            )
        } else {
            lex_cons_err(
                LexErrorKind::UnexpectedChar,
                pos as int,
                pos as int + 1,
                lex_from(s, pos + 1),
            )
        }
    }
}

#[via_fn]
proof fn lex_from_decreases(s: Seq<u8>, pos: nat) {
    if pos < s.len() {
        lemma_comment_end(s, pos + 1);
        lemma_num_end(s, pos);
        lemma_quote_end(s, pos + 1);
        lemma_op_end(s, pos + 1);
        lemma_ident_end(s, pos + 1);
    }
}

/// The model of a spanned-token vector.
pub open spec fn toks_view(v: Seq<(Token, Span)>) -> Seq<(TokenV, SpanV)> {
    v.map_values(|p: (Token, Span)| (p.0@, p.1@))
}

/// The model of an error vector.
pub open spec fn errs_view(v: Seq<LexError>) -> Seq<LexErrV> {
    v.map_values(|e: LexError| e@)
}

/// Scans the whole source text. Returns every token it recognized, in
/// order, together with every lexical error, in order: exactly what the
/// mathematical scan `lex_from` says, starting at position zero.
pub fn lexer(src: &[u8]) -> (r: (Vec<Spanned<Token>>, Vec<LexError>))
    ensures
        toks_view(r.0@) == lex_from(src@, 0).toks,
        errs_view(r.1@) == lex_from(src@, 0).errs,
{
    let ghost s = src@;
    let mut toks: Vec<(Token, Span)> = Vec::new();
    let mut errs: Vec<LexError> = Vec::new();
    let mut pos: usize = 0;
    while pos < src.len()
        invariant
            pos <= s.len(),
            s == src@,
            lex_from(s, 0).toks == toks_view(toks@) + lex_from(s, pos as nat).toks,
            lex_from(s, 0).errs == errs_view(errs@) + lex_from(s, pos as nat).errs,
        decreases s.len() - pos,
    {
        let ghost p0 = pos as nat;
        let ghost toks0 = toks@;
        let ghost errs0 = errs@;
        let c = src[pos];
        if space_char(c) {
            pos = pos + 1;
        } else if c == '@' as u8 {
            let e = scan_comment(src, pos + 1);
            proof {
                lemma_comment_end(s, p0 + 1);
            }
            pos = e;
        } else if digit_char(c) {
            let e1 = scan_digits(src, pos + 1);
            proof {
                lemma_digits_end(s, p0 + 1);
            }
            let e: usize;
            if e1 < src.len() && src[e1] == '.' as u8 && e1 + 1 < src.len()
                && digit_char(src[e1 + 1]) {
                e = scan_digits(src, e1 + 2);
                proof {
                    lemma_digits_end(s, e1 as nat + 2);
                }
            } else {
                e = e1;
            }
            proof {
                assert(e as nat == num_end(s, p0));
            }
            let text = copy_range(src, pos, e);
            toks.push((Token::Num(text), Span { start: pos, end: e }));
            proof {
                assert(toks_view(toks@) =~= toks_view(toks0) + seq![
                    (TokenV::Num(s.subrange(p0 as int, e as int)), SpanV { start: p0 as int, end: e as int }),
                ]);
                assert(lex_from(s, 0).toks =~= toks_view(toks@) + lex_from(s, e as nat).toks);
            }
            pos = e;
        } else if c == '"' as u8 {
            let q = scan_quote(src, pos + 1);
            proof {
                lemma_quote_end(s, p0 + 1);
            }
            if q < src.len() {
                let text = copy_range(src, pos + 1, q);
                toks.push((Token::Str(text), Span { start: pos, end: q + 1 }));
                proof {
                    assert(toks_view(toks@) =~= toks_view(toks0) + seq![
                        (TokenV::Str(s.subrange(p0 as int + 1, q as int)), SpanV { start: p0 as int, end: q as int + 1 }),
                    ]);
                    assert(lex_from(s, 0).toks =~= toks_view(toks@) + lex_from(s, q as nat + 1).toks);
                }
                pos = q + 1;
            } else {
                errs.push(LexError {
                    kind: LexErrorKind::UnterminatedString,
                    span: Span { start: pos, end: pos + 1 },
                });
                proof {
                    assert(errs_view(errs@) =~= errs_view(errs0) + seq![
                        LexErrV {
                            kind: LexErrorKind::UnterminatedString,
                            span: SpanV { start: p0 as int, end: p0 as int + 1 },
                        },
                    ]);
                    assert(lex_from(s, 0).errs =~= errs_view(errs@) + lex_from(s, p0 + 1).errs);
                }
                pos = pos + 1;
            }
        } else if op_char(c) {
            let e = scan_op(src, pos + 1);
            proof {
                lemma_op_end(s, p0 + 1);
            }
            let text = copy_range(src, pos, e);
            toks.push((Token::Op(text), Span { start: pos, end: e }));
            proof {
                assert(toks_view(toks@) =~= toks_view(toks0) + seq![
                    (TokenV::Op(s.subrange(p0 as int, e as int)), SpanV { start: p0 as int, end: e as int }),
                ]);
                assert(lex_from(s, 0).toks =~= toks_view(toks@) + lex_from(s, e as nat).toks);
            }
            pos = e;
        } else if ctrl_char(c) {
            toks.push((Token::Ctrl(c), Span { start: pos, end: pos + 1 }));
            proof {
                assert(toks_view(toks@) =~= toks_view(toks0) + seq![
                    (TokenV::Ctrl(c), SpanV { start: p0 as int, end: p0 as int + 1 }),
                ]);
                assert(lex_from(s, 0).toks =~= toks_view(toks@) + lex_from(s, p0 + 1).toks);
            }
            pos = pos + 1;
        } else if ident_start_char(c) {
            let e = scan_ident(src, pos + 1);
            proof {
                lemma_ident_end(s, p0 + 1);
            }
            let word = copy_range(src, pos, e);
            let tok = keyword_token(word);
            toks.push((tok, Span { start: pos, end: e }));
            proof {
                assert(toks_view(toks@) =~= toks_view(toks0) + seq![
                    (keyword_spec(s.subrange(p0 as int, e as int)), SpanV { start: p0 as int, end: e as int }),
                ]);
                assert(lex_from(s, 0).toks =~= toks_view(toks@) + lex_from(s, e as nat).toks);
            }
            pos = e;
        } else {
            errs.push(LexError {
                kind: LexErrorKind::UnexpectedChar,
                span: Span { start: pos, end: pos + 1 },
            });
            proof {
                assert(errs_view(errs@) =~= errs_view(errs0) + seq![
                    LexErrV {
                        kind: LexErrorKind::UnexpectedChar,
                        span: SpanV { start: p0 as int, end: p0 as int + 1 },
                    },
                ]);
                assert(lex_from(s, 0).errs =~= errs_view(errs@) + lex_from(s, p0 + 1).errs);
            }
            pos = pos + 1;
        }
    }
    proof {
        assert(lex_from(s, 0).toks =~= toks_view(toks@));
        assert(lex_from(s, 0).errs =~= errs_view(errs@));
    }
    (toks, errs)
}

} // verus!

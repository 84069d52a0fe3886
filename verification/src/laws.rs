//! Laws of the scanner, stated and proved over the mathematical model.

use vstd::prelude::*;

use crate::lexer::UnitKind;
use crate::lexer::comment_end;
use crate::lexer::is_digit;
use crate::lexer::is_junk;
use crate::lexer::is_space;
use crate::lexer::lemma_ident_end;
use crate::lexer::lemma_num_end;
use crate::lexer::lemma_op_end;
use crate::lexer::lemma_quote_end;
use crate::lexer::lex_from;
use crate::lexer::num_end;
use crate::lexer::quote_end;
use crate::token::LexErrV;
use crate::token::LexErrorKind;
use crate::token::SpanV;
use crate::token::TokenV;
use crate::token::is_reserved;
use crate::token::keyword_spec;
use crate::token::token_text;

verus! {

/// Law: the keyword table is exhaustive and exact. A word equal to one of
/// the reserved spellings is never classified as an identifier; every other
/// word is classified as exactly itself, as an identifier.
pub proof fn lemma_keyword_exact(w: Seq<u8>)
    ensures
        !is_reserved(w) ==> keyword_spec(w) == TokenV::Ident(w),
        is_reserved(w) ==> !(keyword_spec(w) is Ident),
{
}

/// The classification of a word reads back as the word itself: a reserved
/// word's token spells the word, and an identifier token carries it.
pub proof fn lemma_keyword_text(w: Seq<u8>)
    ensures
        token_text(keyword_spec(w)) == w,
{
}

/// Law: lossless span coverage. Every token the scan of `s` from `pos`
/// produces has a span inside `[pos, s.len())`; the spans are ordered and
/// disjoint; and the source bytes under each span are exactly the token's
/// text, so concatenating the span substrings (with the skipped separators
/// between them) rebuilds the source. Every error likewise marks exactly
/// one source position, in order.
pub proof fn lemma_lex_spans(s: Seq<u8>, pos: nat)
    requires
        pos <= s.len(),
    ensures
        forall|i: int|
            0 <= i < lex_from(s, pos).toks.len() ==> {
                let (t, sp) = #[trigger] lex_from(s, pos).toks[i];
                pos <= sp.start < sp.end <= s.len() && s.subrange(sp.start, sp.end)
                    == token_text(t)
            },
        forall|i: int|
            0 <= i < lex_from(s, pos).toks.len() - 1 ==> #[trigger] lex_from(
                s,
                pos,
            ).toks[i].1.end <= lex_from(s, pos).toks[i + 1].1.start,
        forall|i: int|
            0 <= i < lex_from(s, pos).errs.len() ==> {
                let sp = (#[trigger] lex_from(s, pos).errs[i]).span;
                pos <= sp.start < sp.end <= s.len() && sp.end == sp.start + 1
            },
    decreases s.len() - pos,
{
    if pos >= s.len() {
    } else {
        let c = s[pos as int];
        if is_space(c) {
            lemma_lex_spans(s, pos + 1);
        } else if c == '@' as u8 {
            crate::lexer::lemma_comment_end(s, pos + 1);
            lemma_lex_spans(s, comment_end(s, pos + 1));
        } else if is_digit(c) {
            let e = num_end(s, pos);
            lemma_num_end(s, pos);
            lemma_lex_spans(s, e);
            let out = lex_from(s, pos);
            let rest = lex_from(s, e);
            assert(out.toks == seq![
                (TokenV::Num(s.subrange(pos as int, e as int)), SpanV {
                    start: pos as int,
                    end: e as int,
                }),
            ] + rest.toks);
            assert forall|i: int| 0 <= i < out.toks.len() implies {
                let (t, sp) = #[trigger] out.toks[i];
                pos <= sp.start < sp.end <= s.len() && s.subrange(sp.start, sp.end)
                    == token_text(t)
            } by {
                if i > 0 {
                    assert(out.toks[i] == rest.toks[i - 1]);
                }
            }
        } else if c == '"' as u8 {
            let q = quote_end(s, pos + 1);
            lemma_quote_end(s, pos + 1);
            if q < s.len() {
                lemma_lex_spans(s, q + 1);
                let out = lex_from(s, pos);
                let rest = lex_from(s, q + 1);
                assert(s.subrange(pos as int, q as int + 1) =~= seq!['"' as u8] + s.subrange(
                    pos as int + 1,
                    q as int,
                ) + seq!['"' as u8]);
                assert forall|i: int| 0 <= i < out.toks.len() implies {
                    let (t, sp) = #[trigger] out.toks[i];
                    pos <= sp.start < sp.end <= s.len() && s.subrange(sp.start, sp.end)
                        == token_text(t)
                } by {
                    if i > 0 {
                        assert(out.toks[i] == rest.toks[i - 1]);
                    }
                }
            } else {
                lemma_lex_spans(s, pos + 1);
            }
        } else if crate::lexer::is_op_char(c) {
            let e = crate::lexer::op_end(s, pos + 1);
            lemma_op_end(s, pos + 1);
            lemma_lex_spans(s, e);
            let out = lex_from(s, pos);
            let rest = lex_from(s, e);
            assert forall|i: int| 0 <= i < out.toks.len() implies {
                let (t, sp) = #[trigger] out.toks[i];
                pos <= sp.start < sp.end <= s.len() && s.subrange(sp.start, sp.end)
                    == token_text(t)
            } by {
                if i > 0 {
                    assert(out.toks[i] == rest.toks[i - 1]);
                }
            }
        } else if crate::lexer::is_ctrl(c) {
            lemma_lex_spans(s, pos + 1);
            let out = lex_from(s, pos);
            let rest = lex_from(s, pos + 1);
            assert(s.subrange(pos as int, pos as int + 1) =~= seq![c]);
            assert forall|i: int| 0 <= i < out.toks.len() implies {
                let (t, sp) = #[trigger] out.toks[i];
                pos <= sp.start < sp.end <= s.len() && s.subrange(sp.start, sp.end)
                    == token_text(t)
            } by {
                if i > 0 {
                    assert(out.toks[i] == rest.toks[i - 1]);
                }
            }
        } else if crate::lexer::is_ident_start(c) {
            let e = crate::lexer::ident_end(s, pos + 1);
            lemma_ident_end(s, pos + 1);
            lemma_lex_spans(s, e);
            lemma_keyword_text(s.subrange(pos as int, e as int));
            let out = lex_from(s, pos);
            let rest = lex_from(s, e);
            assert forall|i: int| 0 <= i < out.toks.len() implies {
                let (t, sp) = #[trigger] out.toks[i];
                pos <= sp.start < sp.end <= s.len() && s.subrange(sp.start, sp.end)
                    == token_text(t)
            } by {
                if i > 0 {
                    assert(out.toks[i] == rest.toks[i - 1]);
                }
            }
        } else {
            lemma_lex_spans(s, pos + 1);
        }
    }
}

/// What one consumed unit may be: a token whose source bytes are exactly its
/// text; an error, one character wide; or a separator, which is a whitespace
/// character or an `@`-comment running to the end of its line.
pub open spec fn unit_ok(s: Seq<u8>, u: (SpanV, UnitKind)) -> bool {
    match u.1 {
        UnitKind::Tok(t) => s.subrange(u.0.start, u.0.end) == token_text(t),
        UnitKind::Bad(_) => u.0.end == u.0.start + 1,
        UnitKind::Sep => (is_space(s[u.0.start]) && u.0.end == u.0.start + 1) || (s[u.0.start]
            == '@' as u8 && u.0.end == comment_end(s, (u.0.start + 1) as nat) as int),
    }
}

/// The units tile `[pos, s.len())` exactly: non-empty, in order, adjacent,
/// and each one is a token, an error character or a separator.
pub open spec fn units_tile(s: Seq<u8>, pos: int, us: Seq<(SpanV, UnitKind)>) -> bool {
    &&& (us.len() == 0 ==> pos == s.len())
    &&& (us.len() > 0 ==> us[0].0.start == pos && us[us.len() - 1].0.end == s.len())
    &&& (forall|i: int| 0 <= i < us.len() ==> (#[trigger] us[i]).0.start < us[i].0.end <= s.len())
    &&& (forall|i: int| 0 <= i < us.len() - 1 ==> (#[trigger] us[i]).0.end == us[i + 1].0.start)
    &&& (forall|i: int| 0 <= i < us.len() ==> unit_ok(s, #[trigger] us[i]))
}

proof fn lemma_tile_prepend(s: Seq<u8>, lo: int, hi: int, k: UnitKind, rest: Seq<(SpanV, UnitKind)>)
    requires
        0 <= lo < hi <= s.len(),
        unit_ok(s, (SpanV { start: lo, end: hi }, k)),
        units_tile(s, hi, rest),
    ensures
        units_tile(s, lo, seq![(SpanV { start: lo, end: hi }, k)] + rest),
{
    let u = (SpanV { start: lo, end: hi }, k);
    let us = seq![u] + rest;
    assert(us[0] == u);
    assert(forall|i: int| 1 <= i < us.len() ==> #[trigger] us[i] == rest[i - 1]);
}

/// Law: lossless coverage of the whole input. The scan consumes the source
/// as a gapless sequence of units, each a token, a one-character error, or
/// a skipped separator (whitespace or a comment), and the bytes under a
/// token unit are exactly that token's text. Concatenating the units'
/// substrings therefore rebuilds the source exactly; for input with no
/// errors that is the tokens' span substrings plus the skipped separators.
pub proof fn lemma_lossless_coverage(s: Seq<u8>, pos: nat)
    requires
        pos <= s.len(),
    ensures
        units_tile(s, pos as int, lex_from(s, pos).units),
    decreases s.len() - pos,
{
    if pos >= s.len() {
    } else {
        let c = s[pos as int];
        if is_space(c) {
            lemma_lossless_coverage(s, pos + 1);
            lemma_tile_prepend(s, pos as int, pos as int + 1, UnitKind::Sep, lex_from(
                s,
                pos + 1,
            ).units);
        } else if c == '@' as u8 {
            let ce = comment_end(s, pos + 1);
            crate::lexer::lemma_comment_end(s, pos + 1);
            lemma_lossless_coverage(s, ce);
            lemma_tile_prepend(s, pos as int, ce as int, UnitKind::Sep, lex_from(s, ce).units);
        } else if is_digit(c) {
            let e = num_end(s, pos);
            lemma_num_end(s, pos);
            lemma_lossless_coverage(s, e);
            let t = TokenV::Num(s.subrange(pos as int, e as int));
            lemma_tile_prepend(s, pos as int, e as int, UnitKind::Tok(t), lex_from(s, e).units);
        } else if c == '"' as u8 {
            let q = quote_end(s, pos + 1);
            lemma_quote_end(s, pos + 1);
            if q < s.len() {
                lemma_lossless_coverage(s, q + 1);
                let t = TokenV::Str(s.subrange(pos as int + 1, q as int));
                assert(s.subrange(pos as int, q as int + 1) =~= seq!['"' as u8] + s.subrange(
                    pos as int + 1,
                    q as int,
                ) + seq!['"' as u8]);
                lemma_tile_prepend(s, pos as int, q as int + 1, UnitKind::Tok(t), lex_from(
                    s,
                    q + 1,
                ).units);
            } else {
                lemma_lossless_coverage(s, pos + 1);
                lemma_tile_prepend(
                    s,
                    pos as int,
                    pos as int + 1,
                    UnitKind::Bad(LexErrorKind::UnterminatedString),
                    lex_from(s, pos + 1).units,
                );
            }
        } else if crate::lexer::is_op_char(c) {
            let e = crate::lexer::op_end(s, pos + 1);
            lemma_op_end(s, pos + 1);
            lemma_lossless_coverage(s, e);
            let t = TokenV::Op(s.subrange(pos as int, e as int));
            lemma_tile_prepend(s, pos as int, e as int, UnitKind::Tok(t), lex_from(s, e).units);
        } else if crate::lexer::is_ctrl(c) {
            lemma_lossless_coverage(s, pos + 1);
            assert(s.subrange(pos as int, pos as int + 1) =~= seq![c]);
            lemma_tile_prepend(s, pos as int, pos as int + 1, UnitKind::Tok(TokenV::Ctrl(c)),
                lex_from(s, pos + 1).units);
        } else if crate::lexer::is_ident_start(c) {
            let e = crate::lexer::ident_end(s, pos + 1);
            lemma_ident_end(s, pos + 1);
            lemma_lossless_coverage(s, e);
            lemma_keyword_text(s.subrange(pos as int, e as int));
            let t = keyword_spec(s.subrange(pos as int, e as int));
            lemma_tile_prepend(s, pos as int, e as int, UnitKind::Tok(t), lex_from(s, e).units);
        } else {
            lemma_lossless_coverage(s, pos + 1);
            lemma_tile_prepend(
                s,
                pos as int,
                pos as int + 1,
                UnitKind::Bad(LexErrorKind::UnexpectedChar),
                lex_from(s, pos + 1).units,
            );
        }
    }
}

/// The tokens among a sequence of consumed units, in order.
pub open spec fn units_toks(us: Seq<(SpanV, UnitKind)>) -> Seq<(TokenV, SpanV)>
    decreases us.len(),
{
    if us.len() == 0 {
        Seq::empty()
    } else {
        match us[0].1 {
            UnitKind::Tok(t) => seq![(t, us[0].0)] + units_toks(us.drop_first()),
            _ => units_toks(us.drop_first()),
        }
    }
}

/// The errors among a sequence of consumed units, in order.
pub open spec fn units_errs(us: Seq<(SpanV, UnitKind)>) -> Seq<LexErrV>
    decreases us.len(),
{
    if us.len() == 0 {
        Seq::empty()
    } else {
        match us[0].1 {
            UnitKind::Bad(k) => seq![LexErrV { kind: k, span: us[0].0 }] + units_errs(
                us.drop_first(),
            ),
            _ => units_errs(us.drop_first()),
        }
    }
}

proof fn lemma_units_split(u: (SpanV, UnitKind), rest: Seq<(SpanV, UnitKind)>)
    ensures
        units_toks(seq![u] + rest) == (match u.1 {
            UnitKind::Tok(t) => seq![(t, u.0)] + units_toks(rest),
            _ => units_toks(rest),
        }),
        units_errs(seq![u] + rest) == (match u.1 {
            UnitKind::Bad(k) => seq![LexErrV { kind: k, span: u.0 }] + units_errs(rest),
            _ => units_errs(rest),
        }),
{
    assert((seq![u] + rest)[0] == u);
    assert((seq![u] + rest).drop_first() =~= rest);
}

/// Law: the unit record is complete. The scan's tokens are exactly its
/// token units and its errors exactly its error units, in order: nothing
/// consumed is dropped silently, and nothing is reported twice.
pub proof fn lemma_units_complete(s: Seq<u8>, pos: nat)
    requires
        pos <= s.len(),
    ensures
        units_toks(lex_from(s, pos).units) == lex_from(s, pos).toks,
        units_errs(lex_from(s, pos).units) == lex_from(s, pos).errs,
    decreases s.len() - pos,
{
    if pos >= s.len() {
    } else {
        let c = s[pos as int];
        let lo = pos as int;
        if is_space(c) {
            lemma_units_complete(s, pos + 1);
            lemma_units_split((SpanV { start: lo, end: lo + 1 }, UnitKind::Sep), lex_from(
                s,
                pos + 1,
            ).units);
        } else if c == '@' as u8 {
            let ce = comment_end(s, pos + 1);
            crate::lexer::lemma_comment_end(s, pos + 1);
            lemma_units_complete(s, ce);
            lemma_units_split((SpanV { start: lo, end: ce as int }, UnitKind::Sep), lex_from(
                s,
                ce,
            ).units);
        } else if is_digit(c) {
            let e = num_end(s, pos);
            lemma_num_end(s, pos);
            lemma_units_complete(s, e);
            let t = TokenV::Num(s.subrange(lo, e as int));
            lemma_units_split((SpanV { start: lo, end: e as int }, UnitKind::Tok(t)), lex_from(
                s,
                e,
            ).units);
        } else if c == '"' as u8 {
            let q = quote_end(s, pos + 1);
            lemma_quote_end(s, pos + 1);
            if q < s.len() {
                lemma_units_complete(s, q + 1);
                let t = TokenV::Str(s.subrange(lo + 1, q as int));
                lemma_units_split((SpanV { start: lo, end: q as int + 1 }, UnitKind::Tok(t)),
                    lex_from(s, q + 1).units);
            } else {
                lemma_units_complete(s, pos + 1);
                lemma_units_split(
                    (SpanV { start: lo, end: lo + 1 }, UnitKind::Bad(
                        LexErrorKind::UnterminatedString,
                    )),
                    lex_from(s, pos + 1).units,
                );
            }
        } else if crate::lexer::is_op_char(c) {
            let e = crate::lexer::op_end(s, pos + 1);
            lemma_op_end(s, pos + 1);
            lemma_units_complete(s, e);
            let t = TokenV::Op(s.subrange(lo, e as int));
            lemma_units_split((SpanV { start: lo, end: e as int }, UnitKind::Tok(t)), lex_from(
                s,
                e,
            ).units);
        } else if crate::lexer::is_ctrl(c) {
            lemma_units_complete(s, pos + 1);
            lemma_units_split(
                (SpanV { start: lo, end: lo + 1 }, UnitKind::Tok(TokenV::Ctrl(c))),
                lex_from(s, pos + 1).units,
            );
        } else if crate::lexer::is_ident_start(c) {
            let e = crate::lexer::ident_end(s, pos + 1);
            lemma_ident_end(s, pos + 1);
            lemma_units_complete(s, e);
            let t = keyword_spec(s.subrange(lo, e as int));
            lemma_units_split((SpanV { start: lo, end: e as int }, UnitKind::Tok(t)), lex_from(
                s,
                e,
            ).units);
        } else {
            lemma_units_complete(s, pos + 1);
            lemma_units_split(
                (SpanV { start: lo, end: lo + 1 }, UnitKind::Bad(LexErrorKind::UnexpectedChar)),
                lex_from(s, pos + 1).units,
            );
        }
    }
}

/// Law: whitespace is transparent. Skipping a whitespace character changes
/// neither the tokens nor the errors of the remaining scan.
pub proof fn lemma_space_transparent(s: Seq<u8>, pos: nat)
    requires
        pos < s.len(),
        is_space(s[pos as int]),
    ensures
        lex_from(s, pos).toks == lex_from(s, pos + 1).toks,
        lex_from(s, pos).errs == lex_from(s, pos + 1).errs,
{
}

/// Law: comments are transparent. A comment contributes no token and no
/// error: the scan continues at the end of its line.
pub proof fn lemma_comment_transparent(s: Seq<u8>, pos: nat)
    requires
        pos < s.len(),
        s[pos as int] == '@' as u8,
    ensures
        lex_from(s, pos).toks == lex_from(s, comment_end(s, pos + 1)).toks,
        lex_from(s, pos).errs == lex_from(s, comment_end(s, pos + 1)).errs,
{
}

/// Law: error recovery terminates and reports everything. On input whose
/// every remaining character starts no token, the scan still completes,
/// produces no token, and reports one unexpected-character error per
/// character, in source order.
pub proof fn lemma_junk_input(s: Seq<u8>, pos: nat)
    requires
        pos <= s.len(),
        forall|i: int| pos <= i < s.len() ==> is_junk(#[trigger] s[i]),
    ensures
        lex_from(s, pos).toks.len() == 0,
        lex_from(s, pos).errs.len() == s.len() - pos,
        forall|i: int|
            0 <= i < lex_from(s, pos).errs.len() ==> (#[trigger] lex_from(s, pos).errs[i]).kind
                == LexErrorKind::UnexpectedChar && lex_from(s, pos).errs[i].span == (SpanV {
                start: pos + i,
                end: pos + i + 1,
            }),
    decreases s.len() - pos,
{
    if pos < s.len() {
        lemma_junk_input(s, pos + 1);
    }
}

/// Law: the scan never misclassifies a reserved word. No identifier token
/// it emits carries a reserved spelling; reserved spellings always come out
/// as their keyword, literal or type token.
pub proof fn lemma_no_reserved_ident(s: Seq<u8>, pos: nat)
    requires
        pos <= s.len(),
    ensures
        forall|i: int|
            0 <= i < lex_from(s, pos).toks.len() ==> ((#[trigger] lex_from(s, pos).toks[i]).0
                matches TokenV::Ident(w) ==> !is_reserved(w)),
    decreases s.len() - pos,
{
    if pos >= s.len() {
    } else {
        let c = s[pos as int];
        if is_space(c) {
            lemma_no_reserved_ident(s, pos + 1);
        } else if c == '@' as u8 {
            crate::lexer::lemma_comment_end(s, pos + 1);
            lemma_no_reserved_ident(s, comment_end(s, pos + 1));
        } else if is_digit(c) {
            lemma_num_end(s, pos);
            lemma_no_reserved_ident(s, num_end(s, pos));
        } else if c == '"' as u8 {
            let q = quote_end(s, pos + 1);
            lemma_quote_end(s, pos + 1);
            if q < s.len() {
                lemma_no_reserved_ident(s, q + 1);
            } else {
                lemma_no_reserved_ident(s, pos + 1);
            }
        } else if crate::lexer::is_op_char(c) {
            lemma_op_end(s, pos + 1);
            lemma_no_reserved_ident(s, crate::lexer::op_end(s, pos + 1));
        } else if crate::lexer::is_ctrl(c) {
            lemma_no_reserved_ident(s, pos + 1);
        } else if crate::lexer::is_ident_start(c) {
            let e = crate::lexer::ident_end(s, pos + 1);
            lemma_ident_end(s, pos + 1);
            lemma_no_reserved_ident(s, e);
            lemma_keyword_exact(s.subrange(pos as int, e as int));
        } else {
            lemma_no_reserved_ident(s, pos + 1);
        }
    }
}

/// No quote from `pos` on: the scan emits no string token and no
/// unterminated-string error past that point.
proof fn lemma_no_quote_no_str(s: Seq<u8>, pos: nat)
    requires
        pos <= s.len(),
        forall|i: int| pos <= i < s.len() ==> s[i] != '"' as u8,
    ensures
        forall|i: int|
            0 <= i < lex_from(s, pos).toks.len() ==> !((#[trigger] lex_from(s, pos).toks[i]).0
                is Str),
        forall|i: int|
            0 <= i < lex_from(s, pos).errs.len() ==> (#[trigger] lex_from(s, pos).errs[i]).kind
                != LexErrorKind::UnterminatedString,
    decreases s.len() - pos,
{
    if pos >= s.len() {
    } else {
        let c = s[pos as int];
        if is_space(c) {
            lemma_no_quote_no_str(s, pos + 1);
        } else if c == '@' as u8 {
            crate::lexer::lemma_comment_end(s, pos + 1);
            lemma_no_quote_no_str(s, comment_end(s, pos + 1));
        } else if is_digit(c) {
            lemma_num_end(s, pos);
            lemma_no_quote_no_str(s, num_end(s, pos));
        } else if c == '"' as u8 {
            assert(false);
        } else if crate::lexer::is_op_char(c) {
            lemma_op_end(s, pos + 1);
            lemma_no_quote_no_str(s, crate::lexer::op_end(s, pos + 1));
        } else if crate::lexer::is_ctrl(c) {
            lemma_no_quote_no_str(s, pos + 1);
        } else if crate::lexer::is_ident_start(c) {
            lemma_ident_end(s, pos + 1);
            lemma_no_quote_no_str(s, crate::lexer::ident_end(s, pos + 1));
        } else {
            lemma_no_quote_no_str(s, pos + 1);
        }
    }
}

/// Law: an unterminated string is one error at the opening quote. If the
/// input opens with a quote that is never closed, the scan's first error is
/// an unterminated-string error whose span is exactly the opening quote;
/// no string token is ever emitted for it, silently truncated or otherwise,
/// and no later error is an unterminated-string error.
pub proof fn lemma_unterminated_string(s: Seq<u8>)
    requires
        s.len() > 0,
        s[0] == '"' as u8,
        forall|i: int| 1 <= i < s.len() ==> s[i] != '"' as u8,
    ensures
        lex_from(s, 0).errs.len() >= 1,
        lex_from(s, 0).errs[0].kind == LexErrorKind::UnterminatedString,
        lex_from(s, 0).errs[0].span == (SpanV { start: 0, end: 1 }),
        forall|i: int|
            0 <= i < lex_from(s, 0).toks.len() ==> !((#[trigger] lex_from(s, 0).toks[i]).0
                is Str),
        forall|i: int|
            1 <= i < lex_from(s, 0).errs.len() ==> (#[trigger] lex_from(s, 0).errs[i]).kind
                == LexErrorKind::UnexpectedChar,
{
    lemma_quote_end(s, 1);
    assert(quote_end(s, 1) == s.len());
    lemma_no_quote_no_str(s, 1);
    let rest = lex_from(s, 1);
    assert(lex_from(s, 0).errs == seq![
        crate::token::LexErrV {
            kind: LexErrorKind::UnterminatedString,
            span: SpanV { start: 0, end: 1 },
        },
    ] + rest.errs);
    assert forall|i: int| 1 <= i < lex_from(s, 0).errs.len() implies (#[trigger] lex_from(
        s,
        0,
    ).errs[i]).kind == LexErrorKind::UnexpectedChar by {
        assert(lex_from(s, 0).errs[i] == rest.errs[i - 1]);
        assert(rest.errs[i - 1].kind != LexErrorKind::UnterminatedString);
    }
}

} // verus!

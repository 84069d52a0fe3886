//! Recursive-descent parser for arithmetic expressions over the token
//! stream: unary minus, `+ - * /` with standard precedence and left
//! associativity, parenthesized grouping, variables and calls.
//!
//! The parser does not recover: it stops at the first syntax error and
//! reports it with the span of the offending token.

use vstd::prelude::*;

use crate::ast::Node;
use crate::ast::NodeV;
use crate::ast::node_view;
use crate::ast::nodes_view;
use crate::bytes::clone_bytes;
use crate::lexer::is_digit;
use crate::token::Span;
use crate::token::Spanned;
use crate::token::Token;
use crate::token::TokenV;
use vstd::slice::slice_index_get;

verus! {

/// The kind of a syntax error.
#[derive(Clone, Copy, Debug, PartialEq, Eq, Structural)]
pub enum ParseErrorKind {
    /// The input ended where an expression atom was expected.
    UnexpectedEnd,
    /// A token that starts no atom, or a numeric literal that is not an
    /// integer literal.
    MalformedAtom,
    /// An integer literal too large for a 64-bit signed integer.
    IntOutOfRange,
    /// A missing closing delimiter or argument separator.
    MissingDelimiter,
    /// A complete expression was parsed but input remains.
    ExtraInput,
}

/// A positioned syntax error.
#[derive(Clone, Copy, Debug, PartialEq, Eq, Structural)]
pub struct ParseError {
    pub kind: ParseErrorKind,
    pub span: Span,
}

/// The token values of a spanned-token sequence, spans dropped.
pub open spec fn tok_vals(v: Seq<(Token, Span)>) -> Seq<TokenV> {
    v.map_values(|p: (Token, Span)| p.0@)
}

/// A one-character operator token.
pub open spec fn op_tok(c: u8) -> TokenV {
    TokenV::Op(seq![c])
}

/// A run of one or more decimal digits: an integer literal.
pub open spec fn is_int_lit(d: Seq<u8>) -> bool {
    d.len() > 0 && forall|i: int| 0 <= i < d.len() ==> is_digit(d[i])
}

/// The numeric value of a digit string.
pub open spec fn digits_val(d: Seq<u8>) -> int
    decreases d.len(),
{
    if d.len() == 0 {
        0
    } else {
        digits_val(d.drop_last()) * 10 + (d.last() - '0' as u8)
    }
}

/// Keeps parse positions moving: the position a sub-parse returned when it
/// made progress within bounds, the next position otherwise. Every parse
/// consumes at least one token, so the fallback never describes a real run;
/// it only keeps the recursion below well founded.
pub open spec fn step(n: nat, pos: nat, p: nat) -> nat {
    if pos < p <= n {
        p
    } else {
        pos + 1
    }
}

/// Atom: an integer literal, a parenthesized expression, a call
/// `ident ( args )`, or a bare identifier.
pub open spec fn p_atom(ts: Seq<TokenV>, pos: nat) -> Option<(NodeV, nat)>
    decreases ts.len() - pos, 0nat,
{
    if pos >= ts.len() {
        None
    } else {
        match ts[pos as int] {
            TokenV::Num(d) => if is_int_lit(d) && digits_val(d) <= i64::MAX {
                Some((NodeV::Int(digits_val(d) as i64), pos + 1))
            } else {
                None
            },
            TokenV::Ctrl(c) => if c == '(' as u8 {
                match p_sum(ts, pos + 1) {
                    Some((n, p)) => if p < ts.len() && ts[p as int] == TokenV::Ctrl(
                        ')' as u8,
                    ) {
                        Some((n, p + 1))
                    } else {
                        None
                    },
                    None => None,
                }
            } else {
                None
            },
            TokenV::Ident(w) => if pos + 1 < ts.len() && ts[pos as int + 1]
                == TokenV::Ctrl('(' as u8) {
                match p_args(ts, pos + 2) {
                    Some((args, p)) => Some((NodeV::Call(w, args), p)),
                    None => None,
                }
            } else {
                Some((NodeV::Var(w), pos + 1))
            },
            _ => None,
        }
    }
}

/// Unary: zero or more prefix minuses folded right-to-left over an atom.
pub open spec fn p_unary(ts: Seq<TokenV>, pos: nat) -> Option<(NodeV, nat)>
    decreases ts.len() - pos, 1nat,
{
    if pos < ts.len() && ts[pos as int] == op_tok('-' as u8) {
        match p_unary(ts, pos + 1) {
            Some((n, p)) => Some((NodeV::Neg(Box::new(n)), p)),
            None => None,
        }
    } else {
        p_atom(ts, pos)
    }
}

/// Product: a left-associative chain of `*` and `/` over unary expressions.
pub open spec fn p_prod(ts: Seq<TokenV>, pos: nat) -> Option<(NodeV, nat)>
    decreases ts.len() - pos, 2nat,
{
    if pos >= ts.len() {
        None
    } else {
        match p_unary(ts, pos) {
            Some((lhs, p)) => p_prod_rest(ts, step(ts.len(), pos, p), lhs),
            None => None,
        }
    }
}

pub open spec fn p_prod_rest(ts: Seq<TokenV>, pos: nat, acc: NodeV) -> Option<(NodeV, nat)>
    decreases ts.len() - pos, 3nat,
{
    if pos < ts.len() && (ts[pos as int] == op_tok('*' as u8) || ts[pos as int]
        == op_tok('/' as u8)) {
        match p_unary(ts, pos + 1) {
            Some((rhs, p)) => p_prod_rest(
                ts,
                step(ts.len(), pos, p),
                if ts[pos as int] == op_tok('*' as u8) {
                    NodeV::Mul(Box::new(acc), Box::new(rhs))
                } else {
                    NodeV::Div(Box::new(acc), Box::new(rhs))
                },
            ),
            None => None,
        }
    } else {
        Some((acc, pos))
    }
}

/// Sum: a left-associative chain of `+` and `-` over products. This is the
/// whole expression grammar's start symbol.
pub open spec fn p_sum(ts: Seq<TokenV>, pos: nat) -> Option<(NodeV, nat)>
    decreases ts.len() - pos, 4nat,
{
    if pos >= ts.len() {
        None
    } else {
        match p_prod(ts, pos) {
            Some((lhs, p)) => p_sum_rest(ts, step(ts.len(), pos, p), lhs),
            None => None,
        }
    }
}

pub open spec fn p_sum_rest(ts: Seq<TokenV>, pos: nat, acc: NodeV) -> Option<(NodeV, nat)>
    decreases ts.len() - pos, 5nat,
{
    if pos < ts.len() && (ts[pos as int] == op_tok('+' as u8) || ts[pos as int]
        == op_tok('-' as u8)) {
        match p_prod(ts, pos + 1) {
            Some((rhs, p)) => p_sum_rest(
                ts,
                step(ts.len(), pos, p),
                if ts[pos as int] == op_tok('+' as u8) {
                    NodeV::Add(Box::new(acc), Box::new(rhs))
                } else {
                    NodeV::Sub(Box::new(acc), Box::new(rhs))
                },
            ),
            None => None,
        }
    } else {
        Some((acc, pos))
    }
}

/// Argument list after `ident (`: zero or more comma-separated expressions,
/// a trailing comma tolerated, closed by `)` (which is consumed).
pub open spec fn p_args(ts: Seq<TokenV>, pos: nat) -> Option<(Seq<NodeV>, nat)>
    decreases ts.len() - pos, 6nat,
{
    if pos >= ts.len() {
        None
    } else if ts[pos as int] == TokenV::Ctrl(')' as u8) {
        Some((Seq::empty(), pos + 1))
    } else {
        match p_sum(ts, pos) {
            Some((a, p)) => p_args_rest(ts, step(ts.len(), pos, p), seq![a]),
            None => None,
        }
    }
}

pub open spec fn p_args_rest(ts: Seq<TokenV>, pos: nat, acc: Seq<NodeV>) -> Option<
    (Seq<NodeV>, nat),
>
    decreases ts.len() - pos, 7nat,
{
    if pos < ts.len() && ts[pos as int] == TokenV::Ctrl(',' as u8) {
        if pos + 1 < ts.len() && ts[pos as int + 1] == TokenV::Ctrl(')' as u8) {
            Some((acc, pos + 2))
        } else {
            match p_sum(ts, pos + 1) {
                Some((a, p)) => p_args_rest(ts, step(ts.len(), pos, p), acc.push(a)),
                None => None,
            }
        }
    } else if pos < ts.len() && ts[pos as int] == TokenV::Ctrl(')' as u8) {
        Some((acc, pos + 1))
    } else {
        None
    }
}

/// A complete parse of the whole token sequence as one expression.
pub open spec fn parses_fully(ts: Seq<TokenV>) -> Option<NodeV> {
    match p_sum(ts, 0) {
        Some((n, p)) => if p == ts.len() {
            Some(n)
        } else {
            None
        },
        None => None,
    }
}

proof fn lemma_digits_val_nonneg(d: Seq<u8>)
    requires
        forall|i: int| 0 <= i < d.len() ==> is_digit(d[i]),
    ensures
        digits_val(d) >= 0,
    decreases d.len(),
{
    if d.len() > 0 {
        lemma_digits_val_nonneg(d.drop_last());
    }
}

proof fn lemma_digits_val_prefix(d: Seq<u8>, i: int)
    requires
        0 <= i <= d.len(),
        forall|j: int| 0 <= j < d.len() ==> is_digit(d[j]),
    ensures
        digits_val(d.subrange(0, i)) <= digits_val(d),
    decreases d.len() - i,
{
    if i == d.len() {
        assert(d.subrange(0, i) =~= d);
    } else {
        lemma_digits_val_prefix(d, i + 1);
        let a = d.subrange(0, i);
        let b = d.subrange(0, i + 1);
        assert(b.drop_last() =~= a);
        assert(forall|j: int| 0 <= j < a.len() ==> is_digit(a[j]));
        lemma_digits_val_nonneg(a);
        assert(digits_val(b) == digits_val(a) * 10 + (b.last() - '0' as u8));
        assert(digits_val(a) * 10 >= digits_val(a));
    }
}

/// Converts a digit string to its value, or reports that it does not fit.
fn digits_to_i64(d: &Vec<u8>) -> (r: Option<i64>)
    requires
        is_int_lit(d@),
    ensures
        match r {
            Some(v) => digits_val(d@) <= i64::MAX && v == digits_val(d@),
            None => digits_val(d@) > i64::MAX,
        },
{
    let mut acc: i64 = 0;
    let mut i: usize = 0;
    proof {
        assert(d@.subrange(0, 0) =~= Seq::<u8>::empty());
    }
    while i < d.len()
        invariant
            0 <= i <= d@.len(),
            is_int_lit(d@),
            0 <= acc,
            acc == digits_val(d@.subrange(0, i as int)),
        decreases d@.len() - i,
    {
        let dig = d[i] - '0' as u8;
        let ghost pre = d@.subrange(0, i as int);
        let ghost ext = d@.subrange(0, i as int + 1);
        proof {
            assert(ext.drop_last() =~= pre);
            assert(digits_val(ext) == acc * 10 + dig);
        }
        if acc > (i64::MAX - dig as i64) / 10 {
            proof {
                assert(acc * 10 + dig > i64::MAX) by {
                    let m = i64::MAX - dig;
                    assert(m >= 0);
                    assert(m == 10 * (m / 10) + m % 10);
                    assert(acc >= m / 10 + 1);
                    assert(acc * 10 >= (m / 10) * 10 + 10);
                };
                lemma_digits_val_prefix(d@, i as int + 1);
            }
            return None;
        }
        proof {
            assert(acc * 10 + dig <= i64::MAX) by {
                let m = i64::MAX - dig;
                assert(m >= 0);
                assert(acc <= m / 10);
                assert(m == 10 * (m / 10) + m % 10);
                assert(m % 10 >= 0);
                assert(acc * 10 <= (m / 10) * 10);
            };
        }
        acc = acc * 10 + dig as i64;
        i = i + 1;
    }
    proof {
        assert(d@.subrange(0, d@.len() as int) =~= d@);
    }
    Some(acc)
}

fn int_lit(d: &Vec<u8>) -> (r: bool)
    ensures
        r == is_int_lit(d@),
{
    if d.len() == 0 {
        return false;
    }
    let mut i: usize = 0;
    while i < d.len()
        invariant
            0 <= i <= d@.len(),
            forall|j: int| 0 <= j < i ==> is_digit(d@[j]),
        decreases d@.len() - i,
    {
        if !('0' as u8 <= d[i] && d[i] <= '9' as u8) {
            return false;
        }
        i = i + 1;
    }
    true
}

/// The `+` or `-` an additive chain continues with, if the token is one.
fn as_sum_op(t: &Token) -> (r: Option<u8>)
    ensures
        match r {
            Some(c) => t@ == op_tok(c) && (c == '+' as u8 || c == '-' as u8),
            None => t@ != op_tok('+' as u8) && t@ != op_tok('-' as u8),
        },
{
    match t {
        Token::Op(o) => {
            if o.len() == 1 && (o[0] == '+' as u8 || o[0] == '-' as u8) {
                let c = o[0];
                proof {
                    assert(o@ =~= seq![c]);
                }
                Some(c)
            } else {
                None
            }
        },
        _ => None,
    }
}

/// The `*` or `/` a multiplicative chain continues with, if the token is one.
fn as_prod_op(t: &Token) -> (r: Option<u8>)
    ensures
        match r {
            Some(c) => t@ == op_tok(c) && (c == '*' as u8 || c == '/' as u8),
            None => t@ != op_tok('*' as u8) && t@ != op_tok('/' as u8),
        },
{
    match t {
        Token::Op(o) => {
            if o.len() == 1 && (o[0] == '*' as u8 || o[0] == '/' as u8) {
                let c = o[0];
                proof {
                    assert(o@ =~= seq![c]);
                }
                Some(c)
            } else {
                None
            }
        },
        _ => None,
    }
}

fn is_minus_op(t: &Token) -> (r: bool)
    ensures
        r == (t@ == op_tok('-' as u8)),
{
    match t {
        Token::Op(o) => {
            if o.len() == 1 && o[0] == '-' as u8 {
                proof {
                    assert(o@ =~= seq!['-' as u8]);
                }
                true
            } else {
                false
            }
        },
        _ => false,
    }
}

fn is_ctrl_tok(t: &Token, want: u8) -> (r: bool)
    ensures
        r == (t@ == TokenV::Ctrl(want)),
{
    match t {
        Token::Ctrl(c) => *c == want,
        _ => false,
    }
}

/// A syntax error at the token at `pos`, or at the end of the input.
fn err_here(ts: &[Spanned<Token>], pos: usize, kind: ParseErrorKind) -> ParseError {
    let span = if pos < ts.len() {
        slice_index_get(ts, pos).1
    } else if ts.len() > 0 {
        slice_index_get(ts, ts.len() - 1).1
    } else {
        Span { start: 0, end: 0 }
    };
    ParseError { kind, span }
}

fn parse_atom(ts: &[Spanned<Token>], pos: usize) -> (r: Result<(Node, usize), ParseError>)
    requires
        pos <= ts@.len(),
    ensures
        match r {
            Ok(np) => p_atom(tok_vals(ts@), pos as nat) == Some((np.0@, np.1 as nat))
                && pos < np.1 <= ts@.len(),
            Err(_) => p_atom(tok_vals(ts@), pos as nat) is None,
        },
    decreases ts@.len() - pos, 0int,
{
    let ghost tv = tok_vals(ts@);
    if pos >= ts.len() {
        return Err(err_here(ts, pos, ParseErrorKind::UnexpectedEnd));
    }
    let t = slice_index_get(ts, pos);
    match &t.0 {
        Token::Num(d) => {
            if !int_lit(d) {
                return Err(err_here(ts, pos, ParseErrorKind::MalformedAtom));
            }
            match digits_to_i64(d) {
                None => Err(err_here(ts, pos, ParseErrorKind::IntOutOfRange)),
                Some(v) => Ok((Node::Int(v), pos + 1)),
            }
        },
        Token::Ctrl(c) => {
            if *c == '(' as u8 {
                match parse_sum(ts, pos + 1) {
                    Err(e) => Err(e),
                    Ok((n, p)) => {
                        if p < ts.len() && is_ctrl_tok(&slice_index_get(ts, p).0, ')' as u8) {
                            Ok((n, p + 1))
                        } else {
                            Err(err_here(ts, p, ParseErrorKind::MissingDelimiter))
                        }
                    },
                }
            } else {
                Err(err_here(ts, pos, ParseErrorKind::MalformedAtom))
            }
        },
        Token::Ident(w) => {
            if pos + 1 < ts.len() && is_ctrl_tok(&slice_index_get(ts, pos + 1).0, '(' as u8) {
                match parse_args(ts, pos + 2) {
                    Err(e) => Err(e),
                    Ok((args, p)) => Ok((Node::Call(clone_bytes(w), args), p)),
                }
            } else {
                Ok((Node::Var(clone_bytes(w)), pos + 1))
            }
        },
        _ => Err(err_here(ts, pos, ParseErrorKind::MalformedAtom)),
    }
}

fn parse_unary(ts: &[Spanned<Token>], pos: usize) -> (r: Result<(Node, usize), ParseError>)
    requires
        pos <= ts@.len(),
    ensures
        match r {
            Ok(np) => p_unary(tok_vals(ts@), pos as nat) == Some((np.0@, np.1 as nat))
                && pos < np.1 <= ts@.len(),
            Err(_) => p_unary(tok_vals(ts@), pos as nat) is None,
        },
    decreases ts@.len() - pos, 1int,
{
    if pos < ts.len() && is_minus_op(&slice_index_get(ts, pos).0) {
        match parse_unary(ts, pos + 1) {
            Err(e) => Err(e),
            Ok((n, p)) => Ok((Node::Neg(Box::new(n)), p)),
        }
    } else {
        parse_atom(ts, pos)
    }
}

fn parse_product(ts: &[Spanned<Token>], pos: usize) -> (r: Result<(Node, usize), ParseError>)
    requires
        pos <= ts@.len(),
    ensures
        match r {
            Ok(np) => p_prod(tok_vals(ts@), pos as nat) == Some((np.0@, np.1 as nat))
                && pos < np.1 <= ts@.len(),
            Err(_) => p_prod(tok_vals(ts@), pos as nat) is None,
        },
    decreases ts@.len() - pos, 2int,
{
    let ghost tv = tok_vals(ts@);
    match parse_unary(ts, pos) {
        Err(e) => Err(e),
        Ok((n0, p0)) => {
            let mut lhs = n0;
            let mut p = p0;
            loop
                invariant
                    pos < p <= ts@.len(),
                    tv == tok_vals(ts@),
                    p_prod(tv, pos as nat) == p_prod_rest(tv, p as nat, lhs@),
                decreases ts@.len() - p,
            {
                if p >= ts.len() {
                    return Ok((lhs, p));
                }
                proof {
                    assert(tv[p as int] == ts@[p as int].0@);
                    assert(seq!['*' as u8][0int] == '*' as u8);
                    assert(seq!['/' as u8][0int] == '/' as u8);
                }
                match as_prod_op(&slice_index_get(ts, p).0) {
                    None => {
                        return Ok((lhs, p));
                    },
                    Some(c) => {
                        match parse_unary(ts, p + 1) {
                            Err(e) => {
                                return Err(e);
                            },
                            Ok((rhs, p2)) => {
                                let ghost lhs0 = lhs@;
                                let ghost pp = p as nat;
                                let newl = if c == '*' as u8 {
                                    Node::Mul(Box::new(lhs), Box::new(rhs))
                                } else {
                                    Node::Div(Box::new(lhs), Box::new(rhs))
                                };
                                proof {
                                    assert(step(tv.len(), pp, p2 as nat) == p2 as nat);
                                    assert(p_prod_rest(tv, pp, lhs0) == p_prod_rest(
                                        tv,
                                        p2 as nat,
                                        newl@,
                                    ));
                                }
                                lhs = newl;
                                p = p2;
                            },
                        }
                    },
                }
            }
        },
    }
}

fn parse_sum(ts: &[Spanned<Token>], pos: usize) -> (r: Result<(Node, usize), ParseError>)
    requires
        pos <= ts@.len(),
    ensures
        match r {
            Ok(np) => p_sum(tok_vals(ts@), pos as nat) == Some((np.0@, np.1 as nat))
                && pos < np.1 <= ts@.len(),
            Err(_) => p_sum(tok_vals(ts@), pos as nat) is None,
        },
    decreases ts@.len() - pos, 4int,
{
    let ghost tv = tok_vals(ts@);
    match parse_product(ts, pos) {
        Err(e) => Err(e),
        Ok((n0, p0)) => {
            let mut lhs = n0;
            let mut p = p0;
            loop
                invariant
                    pos < p <= ts@.len(),
                    tv == tok_vals(ts@),
                    p_sum(tv, pos as nat) == p_sum_rest(tv, p as nat, lhs@),
                decreases ts@.len() - p,
            {
                if p >= ts.len() {
                    return Ok((lhs, p));
                }
                proof {
                    assert(tv[p as int] == ts@[p as int].0@);
                    assert(seq!['+' as u8][0int] == '+' as u8);
                    assert(seq!['-' as u8][0int] == '-' as u8);
                }
                match as_sum_op(&slice_index_get(ts, p).0) {
                    None => {
                        return Ok((lhs, p));
                    },
                    Some(c) => {
                        match parse_product(ts, p + 1) {
                            Err(e) => {
                                return Err(e);
                            },
                            Ok((rhs, p2)) => {
                                let ghost lhs0 = lhs@;
                                let ghost pp = p as nat;
                                let newl = if c == '+' as u8 {
                                    Node::Add(Box::new(lhs), Box::new(rhs))
                                } else {
                                    Node::Sub(Box::new(lhs), Box::new(rhs))
                                };
                                proof {
                                    assert(step(tv.len(), pp, p2 as nat) == p2 as nat);
                                    assert(p_sum_rest(tv, pp, lhs0) == p_sum_rest(
                                        tv,
                                        p2 as nat,
                                        newl@,
                                    ));
                                }
                                lhs = newl;
                                p = p2;
                            },
                        }
                    },
                }
            }
        },
    }
}

fn parse_args(ts: &[Spanned<Token>], pos: usize) -> (r: Result<(Vec<Node>, usize), ParseError>)
    requires
        pos <= ts@.len(),
    ensures
        match r {
            Ok(np) => p_args(tok_vals(ts@), pos as nat) == Some(
                (nodes_view(np.0@), np.1 as nat),
            ) && pos < np.1 <= ts@.len(),
            Err(_) => p_args(tok_vals(ts@), pos as nat) is None,
        },
    decreases ts@.len() - pos, 6int,
{
    let ghost tv = tok_vals(ts@);
    if pos < ts.len() && is_ctrl_tok(&slice_index_get(ts, pos).0, ')' as u8) {
        let empty: Vec<Node> = Vec::new();
        proof {
            assert(nodes_view(empty@) =~= Seq::<NodeV>::empty());
        }
        return Ok((empty, pos + 1));
    }
    match parse_sum(ts, pos) {
        Err(e) => Err(e),
        Ok((a, p0)) => {
            let mut acc: Vec<Node> = Vec::new();
            acc.push(a);
            proof {
                assert(acc@.drop_last() =~= Seq::<Node>::empty());
                assert(nodes_view(Seq::<Node>::empty()) == Seq::<NodeV>::empty());
                assert(nodes_view(acc@) =~= seq![a@]);
            }
            let mut p = p0;
            loop
                invariant
                    pos < p <= ts@.len(),
                    tv == tok_vals(ts@),
                    p_args(tv, pos as nat) == p_args_rest(tv, p as nat, nodes_view(acc@)),
                decreases ts@.len() - p,
            {
                if p >= ts.len() {
                    return Err(err_here(ts, p, ParseErrorKind::MissingDelimiter));
                }
                let t = slice_index_get(ts, p);
                if is_ctrl_tok(&t.0, ',' as u8) {
                    if p + 1 < ts.len() && is_ctrl_tok(&slice_index_get(ts, p + 1).0, ')' as u8) {
                        return Ok((acc, p + 2));
                    }
                    match parse_sum(ts, p + 1) {
                        Err(e) => {
                            return Err(e);
                        },
                        Ok((a2, p2)) => {
                            let ghost acc0 = acc@;
                            acc.push(a2);
                            proof {
                                assert(acc@.drop_last() =~= acc0);
                                assert(nodes_view(acc@) =~= nodes_view(acc0).push(a2@));
                            }
                            p = p2;
                        },
                    }
                } else if is_ctrl_tok(&t.0, ')' as u8) {
                    return Ok((acc, p + 1));
                } else {
                    return Err(err_here(ts, p, ParseErrorKind::MissingDelimiter));
                }
            }
        },
    }
}

/// Parses the whole token stream as one expression. Returns the tree exactly
/// when the mathematical grammar derives one expression covering every
/// token; otherwise the first syntax error, with the offending token's span.
pub fn parse_expr(ts: &[Spanned<Token>]) -> (r: Result<Node, ParseError>)
    ensures
        match r {
            Ok(n) => parses_fully(tok_vals(ts@)) == Some(n@),
            Err(_) => parses_fully(tok_vals(ts@)) is None,
        },
{
    match parse_sum(ts, 0) {
        Err(e) => Err(e),
        Ok((n, p)) => {
            if p == ts.len() {
                Ok(n)
            } else {
                Err(err_here(ts, p, ParseErrorKind::ExtraInput))
            }
        },
    }
}

} // verus!

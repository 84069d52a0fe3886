use frontend::ast::Node;
use frontend::lexer::lexer;
use frontend::parser::ParseError;
use frontend::parser::ParseErrorKind;
use frontend::parser::parse_expr;

fn parse_src(src: &[u8]) -> Result<Node, ParseError> {
    let (toks, errs) = lexer(src);
    assert!(errs.is_empty(), "lexical errors in {:?}", src);
    parse_expr(&toks)
}

fn boxed_int(v: i64) -> Box<Node> {
    Box::new(Node::Int(v))
}

#[test]
fn precedence_product_binds_tighter() {
    let ast = parse_src(b"2 + 2 - (3 * 9 / 7)").unwrap();
    assert_eq!(
        ast,
        Node::Sub(
            Box::new(Node::Add(boxed_int(2), boxed_int(2))),
            Box::new(Node::Div(Box::new(Node::Mul(boxed_int(3), boxed_int(9))), boxed_int(7))),
        )
    );
}

#[test]
fn sums_are_left_associative() {
    let ast = parse_src(b"10 - 3 - 2").unwrap();
    assert_eq!(
        ast,
        Node::Sub(Box::new(Node::Sub(boxed_int(10), boxed_int(3))), boxed_int(2))
    );
}

#[test]
fn products_are_left_associative() {
    let ast = parse_src(b"8 / 4 / 2").unwrap();
    assert_eq!(
        ast,
        Node::Div(Box::new(Node::Div(boxed_int(8), boxed_int(4))), boxed_int(2))
    );
}

#[test]
fn unary_minus_folds_right() {
    assert_eq!(parse_src(b"-3").unwrap(), Node::Neg(boxed_int(3)));
    assert_eq!(
        parse_src(b"- - 3").unwrap(),
        Node::Neg(Box::new(Node::Neg(boxed_int(3))))
    );
    // Unary binds tighter than product: -2 * 3 is (-2) * 3.
    assert_eq!(
        parse_src(b"-2 * 3").unwrap(),
        Node::Mul(Box::new(Node::Neg(boxed_int(2))), boxed_int(3))
    );
}

#[test]
fn variables_and_calls() {
    assert_eq!(parse_src(b"abc").unwrap(), Node::Var(b"abc".to_vec()));
    assert_eq!(
        parse_src(b"f(1, x)").unwrap(),
        Node::Call(b"f".to_vec(), vec![Node::Int(1), Node::Var(b"x".to_vec())])
    );
    assert_eq!(parse_src(b"g()").unwrap(), Node::Call(b"g".to_vec(), vec![]));
}

#[test]
fn call_tolerates_trailing_comma() {
    assert_eq!(
        parse_src(b"f(1, 2, )").unwrap(),
        Node::Call(b"f".to_vec(), vec![Node::Int(1), Node::Int(2)])
    );
}

#[test]
fn calls_nest_in_expressions() {
    assert_eq!(
        parse_src(b"2 * f(x) + 1").unwrap(),
        Node::Add(
            Box::new(Node::Mul(
                boxed_int(2),
                Box::new(Node::Call(b"f".to_vec(), vec![Node::Var(b"x".to_vec())])),
            )),
            boxed_int(1),
        )
    );
}

#[test]
fn largest_integer_parses() {
    assert_eq!(
        parse_src(b"9223372036854775807").unwrap(),
        Node::Int(i64::MAX)
    );
}

#[test]
fn oversized_integer_is_an_error() {
    let e = parse_src(b"9223372036854775808").unwrap_err();
    assert_eq!(e.kind, ParseErrorKind::IntOutOfRange);
}

#[test]
fn fractional_literal_is_no_atom() {
    let e = parse_src(b"3.14").unwrap_err();
    assert_eq!(e.kind, ParseErrorKind::MalformedAtom);
}

#[test]
fn missing_close_paren() {
    let e = parse_src(b"(1 + 2").unwrap_err();
    assert_eq!(e.kind, ParseErrorKind::MissingDelimiter);
}

#[test]
fn dangling_operator() {
    let e = parse_src(b"1 +").unwrap_err();
    assert_eq!(e.kind, ParseErrorKind::UnexpectedEnd);
}

#[test]
fn leftover_tokens_are_an_error() {
    let e = parse_src(b"1 2").unwrap_err();
    assert_eq!(e.kind, ParseErrorKind::ExtraInput);
}

#[test]
fn keyword_is_no_atom() {
    let e = parse_src(b"if").unwrap_err();
    assert_eq!(e.kind, ParseErrorKind::MalformedAtom);
}

#[test]
fn empty_input_is_an_error() {
    let e = parse_src(b"").unwrap_err();
    assert_eq!(e.kind, ParseErrorKind::UnexpectedEnd);
}

#[test]
fn glommed_minus_run_is_one_operator_token() {
    // "--" lexes as a single operator run, which the grammar does not know.
    let e = parse_src(b"2--3").unwrap_err();
    assert_eq!(e.kind, ParseErrorKind::ExtraInput);
}

#[test]
fn error_spans_point_at_offending_token() {
    let e = parse_src(b"1 + if").unwrap_err();
    assert_eq!(e.span.start, 4);
    assert_eq!(e.span.end, 6);
}

use frontend::lexer::lexer;
use frontend::token::LexError;
use frontend::token::LexErrorKind;
use frontend::token::Span;
use frontend::token::Token;
use frontend::token::Type;
use frontend::token::box_type;

fn values(toks: &[(Token, Span)]) -> Vec<Token> {
    toks.iter().map(|p| p.0.clone()).collect()
}

#[test]
fn scan_simple_expression() {
    let (toks, errs) = lexer(b"1+1");
    assert!(errs.is_empty());
    assert_eq!(
        toks,
        vec![
            (Token::Num(b"1".to_vec()), Span { start: 0, end: 1 }),
            (Token::Op(b"+".to_vec()), Span { start: 1, end: 2 }),
            (Token::Num(b"1".to_vec()), Span { start: 2, end: 3 }),
        ]
    );
}

#[test]
fn whitespace_and_comments_transparent() {
    let (plain, errs1) = lexer(b"1+1");
    let (spaced, errs2) = lexer(b"1 + 1 @ comment\n");
    assert!(errs1.is_empty());
    assert!(errs2.is_empty());
    assert_eq!(values(&plain), values(&spaced));
}

#[test]
fn keyword_table_exact() {
    let cases: Vec<(&[u8], Token)> = vec![
        (b"if", Token::If),
        (b"else", Token::Else),
        (b"elif", Token::Elif),
        (b"while", Token::While),
        (b"for", Token::For),
        (b"until", Token::Until),
        (b"defer", Token::Defer),
        (b"delete", Token::Delete),
        (b"switch", Token::Switch),
        (b"case", Token::Case),
        (b"default", Token::Default),
        (b"fn", Token::Fn),
        (b"return", Token::Return),
        (b"struct", Token::Struct),
        (b"new", Token::New),
        (b"interface", Token::Interface),
        (b"using", Token::Using),
        (b"enum", Token::Enum),
        (b"mut", Token::Mut),
        (b"imut", Token::Imut),
        (b"in", Token::In),
        (b"break", Token::Break),
        (b"continue", Token::Continue),
        (b"as", Token::As),
        (b"publ", Token::Publ),
        (b"shared", Token::Shared),
        (b"true", Token::Bool(true)),
        (b"false", Token::Bool(false)),
        (b"none", Token::Null),
        (b"int16", box_type(Type::I16)),
        (b"int32", box_type(Type::I32)),
        (b"int64", box_type(Type::I64)),
        (b"uint8", box_type(Type::U8)),
        (b"uint16", box_type(Type::U16)),
        (b"uint32", box_type(Type::U32)),
        (b"uint64", box_type(Type::U64)),
        (b"str", box_type(Type::STR)),
    ];
    for (word, expected) in cases {
        let (toks, errs) = lexer(word);
        assert!(errs.is_empty());
        assert_eq!(toks.len(), 1, "one token for {:?}", word);
        assert_eq!(toks[0].0, expected);
    }
    // The module-inclusion keyword, spelled out to check its classification.
    let spelled: Vec<u8> = vec![b'i', b'n', b'c', b'l', b'u', b'd', b'e'];
    let (toks, errs) = lexer(&spelled);
    assert!(errs.is_empty());
    assert_eq!(toks[0].0, Token::Incl);
}

#[test]
fn near_keywords_are_identifiers() {
    for word in [&b"iff"[..], b"If", b"whiles", b"_if", b"int8", b"uint", b"truth"] {
        let (toks, errs) = lexer(word);
        assert!(errs.is_empty());
        assert_eq!(toks.len(), 1);
        assert_eq!(toks[0].0, Token::Ident(word.to_vec()), "{:?}", word);
    }
}

#[test]
fn junk_input_terminates_with_errors() {
    let (toks, errs) = lexer(b"#$%^&");
    assert!(toks.is_empty());
    assert_eq!(errs.len(), 5);
    for (i, e) in errs.iter().enumerate() {
        assert_eq!(e.kind, LexErrorKind::UnexpectedChar);
        assert_eq!(e.span, Span { start: i, end: i + 1 });
    }
}

#[test]
fn tokens_recognized_around_junk() {
    let (toks, errs) = lexer(b"x # 1");
    assert_eq!(values(&toks), vec![Token::Ident(b"x".to_vec()), Token::Num(b"1".to_vec())]);
    assert_eq!(errs.len(), 1);
    assert_eq!(errs[0].span, Span { start: 2, end: 3 });
}

#[test]
fn unterminated_string_single_error() {
    let (toks, errs) = lexer(b"\"abc");
    assert_eq!(
        errs,
        vec![LexError {
            kind: LexErrorKind::UnterminatedString,
            span: Span { start: 0, end: 1 },
        }]
    );
    // No truncated string token: the quote is skipped, the rest rescanned.
    assert_eq!(values(&toks), vec![Token::Ident(b"abc".to_vec())]);
}

#[test]
fn string_token_keeps_content() {
    let (toks, errs) = lexer(b"\"hi there\" x");
    assert!(errs.is_empty());
    assert_eq!(
        toks,
        vec![
            (Token::Str(b"hi there".to_vec()), Span { start: 0, end: 10 }),
            (Token::Ident(b"x".to_vec()), Span { start: 11, end: 12 }),
        ]
    );
}

#[test]
fn numeric_literals() {
    let (toks, errs) = lexer(b"3.14 07 9.");
    assert_eq!(
        values(&toks),
        vec![
            Token::Num(b"3.14".to_vec()),
            Token::Num(b"07".to_vec()),
            Token::Num(b"9".to_vec()),
        ]
    );
    // "9." leaves the dot, which starts no token: one error.
    assert_eq!(errs.len(), 1);
    assert_eq!(errs[0].kind, LexErrorKind::UnexpectedChar);
    assert_eq!(errs[0].span, Span { start: 9, end: 10 });
}

#[test]
fn operator_runs_are_one_token() {
    let (toks, errs) = lexer(b"==!=+-");
    assert!(errs.is_empty());
    assert_eq!(values(&toks), vec![Token::Op(b"==!=+-".to_vec())]);
}

#[test]
fn control_punctuation_single_tokens() {
    let (toks, errs) = lexer(b"()[]{}:;,");
    assert!(errs.is_empty());
    let expect: Vec<Token> = b"()[]{}:;,".iter().map(|c| Token::Ctrl(*c)).collect();
    assert_eq!(values(&toks), expect);
}

#[test]
fn span_coverage_rebuilds_source() {
    let src: &[u8] = b"imut count: int32 = 41 + 1; @ trailing note\n";
    let (toks, errs) = lexer(src);
    assert!(errs.is_empty());
    let mut prev_end = 0usize;
    for (tok, span) in &toks {
        assert!(prev_end <= span.start && span.start < span.end && span.end <= src.len());
        // The bytes under the span are exactly the token's text.
        assert_eq!(&src[span.start..span.end], tok.text().as_slice());
        prev_end = span.end;
    }
}

#[test]
fn token_text_spells_tokens() {
    assert_eq!(Token::If.text(), b"if".to_vec());
    assert_eq!(Token::Bool(false).text(), b"false".to_vec());
    assert_eq!(Token::Null.text(), b"none".to_vec());
    assert_eq!(Token::Num(b"3.14".to_vec()).text(), b"3.14".to_vec());
    assert_eq!(Token::Str(b"hi".to_vec()).text(), b"\"hi\"".to_vec());
    assert_eq!(Token::Ctrl(b'(').text(), b"(".to_vec());
    assert_eq!(box_type(Type::U64).text(), b"uint64".to_vec());
}

#[test]
fn empty_input_scans_to_nothing() {
    let (toks, errs) = lexer(b"");
    assert!(toks.is_empty());
    assert!(errs.is_empty());
}

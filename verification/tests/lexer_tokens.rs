use type_expr_compiler::lexer::Lexer;
use type_expr_compiler::span::Span;
use type_expr_compiler::token::Token;

fn lex(src: &str) -> Vec<(Token, Span)> {
    Lexer::new(src).tokenize()
}

fn kinds(src: &str) -> Vec<Token> {
    lex(src).into_iter().map(|t| t.0).collect()
}

fn ident(s: &str) -> Token {
    Token::Identifier(s.to_string())
}

#[test]
fn struct_definition_tokens_and_spans() {
    let toks = lex("struct A { x: i32 }");
    let expected = vec![
        (Token::Struct, 0, 6),
        (ident("A"), 7, 8),
        (Token::LBrace, 9, 10),
        (ident("x"), 11, 12),
        (Token::Colon, 12, 13),
        (Token::IntWidth { signed: true, width: 32 }, 14, 17),
        (Token::RBrace, 18, 19),
    ];
    assert_eq!(toks.len(), expected.len());
    for (got, want) in toks.iter().zip(expected.iter()) {
        assert_eq!(got.0, want.0);
        assert_eq!((got.1.start, got.1.end), (want.1, want.2));
    }
}

#[test]
fn integer_types_go_before_identifiers() {
    assert_eq!(
        kinds("i32 u8 i64 u1 i007"),
        vec![
            Token::IntWidth { signed: true, width: 32 },
            Token::IntWidth { signed: false, width: 8 },
            Token::IntWidth { signed: true, width: 64 },
            Token::IntWidth { signed: false, width: 1 },
            Token::IntWidth { signed: true, width: 7 },
        ]
    );
}

#[test]
fn widths_out_of_range_are_identifiers() {
    assert_eq!(
        kinds("i0 u65 i256 i i3x u99999999999999999999"),
        vec![
            ident("i0"),
            ident("u65"),
            ident("i256"),
            ident("i"),
            ident("i3x"),
            ident("u99999999999999999999"),
        ]
    );
}

#[test]
fn keywords_are_recognised() {
    assert_eq!(
        kinds("match enum struct CString HebrewString f32 f64 matches _x"),
        vec![
            Token::Match,
            Token::Enum,
            Token::Struct,
            Token::CString,
            Token::HebrewString,
            Token::F32,
            Token::F64,
            ident("matches"),
            ident("_x"),
        ]
    );
}

#[test]
fn punctuation_is_recognised() {
    assert_eq!(
        kinds("{ } [ ] ( ) : , ; = =>"),
        vec![
            Token::LBrace,
            Token::RBrace,
            Token::LBracket,
            Token::RBracket,
            Token::LParen,
            Token::RParen,
            Token::Colon,
            Token::Comma,
            Token::Semicolon,
            Token::Equal,
            Token::FatArrow,
        ]
    );
}

#[test]
fn numbers_are_integers_or_floats() {
    assert_eq!(
        kinds("12 -7 3.5 -0.25 1e9 2E-3 .5 7. -.5"),
        vec![
            Token::Integer("12".to_string()),
            Token::Integer("-7".to_string()),
            Token::Float("3.5".to_string()),
            Token::Float("-0.25".to_string()),
            Token::Float("1e9".to_string()),
            Token::Float("2E-3".to_string()),
            Token::Float(".5".to_string()),
            Token::Float("7.".to_string()),
            Token::Float("-.5".to_string()),
        ]
    );
}

#[test]
fn second_dot_starts_a_new_number() {
    assert_eq!(
        kinds("1.2.3"),
        vec![Token::Float("1.2".to_string()), Token::Float(".3".to_string())]
    );
}

#[test]
fn lone_minus_is_unknown() {
    assert_eq!(kinds("- x"), vec![Token::Unknown('-'), ident("x")]);
    assert_eq!(kinds("-"), vec![Token::Unknown('-')]);
}

#[test]
fn string_literal_escapes() {
    assert_eq!(
        kinds(r#""a\nb\t\r\\\"\q""#),
        vec![Token::StringLiteral("a\nb\t\r\\\"q".to_string())]
    );
}

#[test]
fn unterminated_string_runs_to_the_end() {
    let toks = lex("\"abc");
    assert_eq!(toks.len(), 1);
    assert_eq!(toks[0].0, Token::StringLiteral("abc".to_string()));
    assert_eq!((toks[0].1.start, toks[0].1.end), (0, 4));
    let toks = lex("\"abc\\");
    assert_eq!(toks.len(), 1);
    assert_eq!(toks[0].0, Token::StringLiteral("abc".to_string()));
    assert_eq!((toks[0].1.start, toks[0].1.end), (0, 5));
}

#[test]
fn comments_and_white_space_are_skipped() {
    let toks = lex("// first\n  a // second\n//third\n\tb//end");
    assert_eq!(toks.len(), 2);
    assert_eq!(toks[0].0, ident("a"));
    assert_eq!((toks[0].1.start, toks[0].1.end), (11, 12));
    assert_eq!(toks[1].0, ident("b"));
    assert_eq!((toks[1].1.start, toks[1].1.end), (32, 33));
}

#[test]
fn single_slash_is_unknown() {
    assert_eq!(kinds("/ a"), vec![Token::Unknown('/'), ident("a")]);
}

#[test]
fn unknown_characters_become_tokens_with_byte_spans() {
    let toks = lex("a é€😀 b");
    assert_eq!(toks.len(), 5);
    assert_eq!(toks[1].0, Token::Unknown('é'));
    assert_eq!((toks[1].1.start, toks[1].1.end), (2, 4));
    assert_eq!(toks[2].0, Token::Unknown('€'));
    assert_eq!((toks[2].1.start, toks[2].1.end), (4, 7));
    assert_eq!(toks[3].0, Token::Unknown('😀'));
    assert_eq!((toks[3].1.start, toks[3].1.end), (7, 11));
    assert_eq!(toks[4].0, ident("b"));
    assert_eq!((toks[4].1.start, toks[4].1.end), (12, 13));
}

#[test]
fn unicode_white_space_is_skipped() {
    let toks = lex("a\u{00A0}\u{2003}\u{3000}b");
    assert_eq!(toks.len(), 2);
    assert_eq!((toks[1].1.start, toks[1].1.end), (9, 10));
}

#[test]
fn empty_text_has_no_tokens() {
    assert!(lex("").is_empty());
    assert!(lex("  \n // only a comment").is_empty());
}

#[test]
fn every_span_is_inside_the_text() {
    let src = "struct Ω { x: [u8; 3], s: CString = \"é\" } // done";
    let toks = lex(src);
    let mut last = 0;
    for (_, span) in &toks {
        assert!(last <= span.start);
        assert!(span.start < span.end);
        assert!(span.end <= src.len());
        last = span.end;
    }
}

#[test]
fn next_token_reads_one_at_a_time() {
    let mut lexer = Lexer::new("a =>");
    let first = lexer.next_token().expect("a token");
    assert_eq!(first.0, ident("a"));
    let second = lexer.next_token().expect("a token");
    assert_eq!(second.0, Token::FatArrow);
    assert_eq!((second.1.start, second.1.end), (2, 4));
    assert!(lexer.next_token().is_none());
    assert!(lexer.next_token().is_none());
}

#[test]
fn token_text() {
    assert_eq!(Token::IntWidth { signed: true, width: 32 }.to_string(), "i32");
    assert_eq!(Token::IntWidth { signed: false, width: 8 }.to_string(), "u8");
    assert_eq!(Token::IntWidth { signed: false, width: 200 }.to_string(), "u200");
    assert_eq!(Token::FatArrow.to_string(), "=>");
    assert_eq!(Token::HebrewString.to_string(), "HebrewString");
    assert_eq!(ident("abc").to_string(), "abc");
    assert_eq!(Token::Unknown('?').to_string(), "?");
    assert_eq!(Token::LBrace.to_string(), "{");
}

use type_expr_compiler::definitions::DefinitionMap;
use type_expr_compiler::grammar::{Expected, ParseErrorKind};
use type_expr_compiler::lexer::Lexer;
use type_expr_compiler::parser::{parse, ParseError};
use type_expr_compiler::syntax::{ArrayLength, DefinitionAST, FieldAST};
use type_expr_compiler::token::Token;

fn parse_text(src: &str) -> Result<DefinitionMap, Vec<ParseError>> {
    let tokens = Lexer::new(src).tokenize();
    parse(&tokens, src.len())
}

fn parsed(src: &str) -> DefinitionMap {
    match parse_text(src) {
        Ok(defs) => defs,
        Err(errs) => panic!("unexpected errors: {:?}", errs),
    }
}

fn failures(src: &str) -> Vec<ParseError> {
    match parse_text(src) {
        Ok(_) => panic!("expected errors"),
        Err(errs) => errs,
    }
}

fn slice(src: &str, span: type_expr_compiler::span::Span) -> &str {
    &src[span.start..span.end]
}

#[test]
fn empty_program_has_no_definitions() {
    assert_eq!(parsed("").len(), 0);
}

#[test]
fn struct_with_every_kind_of_field() {
    let src = "struct S {\n  a: u8 = 3,\n  b: i64 = -5,\n  c: f32 = 1.5,\n  d: f64 = 2,\n  e: CString = \"hi\",\n  f: HebrewString,\n  g: Other,\n  h: E(u16) = X,\n  i: [u8; 4],\n  j: [[i16; a]; 2],\n  k: match h { X => u8, Y => [Other; 1], },\n}";
    let defs = parsed(src);
    assert_eq!(defs.len(), 1);
    assert_eq!(defs.name_at(0), "S");
    let def = defs.get("S").expect("S is defined");
    assert_eq!(def.name(), "S");
    assert_eq!(slice(src, def.name_span()), "S");
    let fields = match def {
        DefinitionAST::Struct { fields, .. } => fields,
        _ => panic!("not a struct"),
    };
    let names: Vec<&str> = fields.0.iter().map(|f| f.0 .0 .0.as_str()).collect();
    assert_eq!(names, vec!["a", "b", "c", "d", "e", "f", "g", "h", "i", "j", "k"]);
    assert_eq!(slice(src, fields.0[0].1), "a: u8 = 3");
    assert_eq!(slice(src, fields.0[0].0 .1 .1), "u8 = 3");
    match &fields.0[0].0 .1 .0 {
        FieldAST::Int { span, signed, width, default } => {
            assert_eq!(slice(src, *span), "u8");
            assert!(!*signed);
            assert_eq!(*width, 8);
            let d = default.expect("a default");
            assert_eq!(d.0, 3);
            assert_eq!(slice(src, d.1), "3");
        }
        other => panic!("unexpected {:?}", other),
    }
    match &fields.0[1].0 .1 .0 {
        FieldAST::Int { signed: true, width: 64, default: Some((-5, _)), .. } => {}
        other => panic!("unexpected {:?}", other),
    }
    match &fields.0[2].0 .1 .0 {
        FieldAST::F32 { default: Some((text, _)) } => assert_eq!(text, "1.5"),
        other => panic!("unexpected {:?}", other),
    }
    match &fields.0[3].0 .1 .0 {
        FieldAST::F64 { default: Some((text, _)) } => assert_eq!(text, "2"),
        other => panic!("unexpected {:?}", other),
    }
    match &fields.0[4].0 .1 .0 {
        FieldAST::CString { default: Some((text, span)) } => {
            assert_eq!(text, "hi");
            assert_eq!(slice(src, *span), "\"hi\"");
        }
        other => panic!("unexpected {:?}", other),
    }
    assert!(matches!(&fields.0[5].0 .1 .0, FieldAST::HebrewString { default: None }));
    match &fields.0[6].0 .1 .0 {
        FieldAST::Struct { name } => assert_eq!(name.0, "Other"),
        other => panic!("unexpected {:?}", other),
    }
    match &fields.0[7].0 .1 .0 {
        FieldAST::Enum { name, int_span, signed, width, default } => {
            assert_eq!(name.0, "E");
            assert_eq!(slice(src, *int_span), "(u16)");
            assert!(!*signed);
            assert_eq!(*width, 16);
            assert_eq!(default.as_ref().expect("a default").0, "X");
        }
        other => panic!("unexpected {:?}", other),
    }
    match &fields.0[8].0 .1 .0 {
        FieldAST::Array { element_type, length } => {
            assert!(matches!(element_type.0, FieldAST::Int { signed: false, width: 8, .. }));
            assert!(matches!(length.0, ArrayLength::Static { value: 4 }));
        }
        other => panic!("unexpected {:?}", other),
    }
    match &fields.0[9].0 .1 .0 {
        FieldAST::Array { element_type, length } => {
            assert!(matches!(length.0, ArrayLength::Static { value: 2 }));
            match &element_type.0 {
                FieldAST::Array { length, .. } => match &length.0 {
                    ArrayLength::Dynamic { field } => assert_eq!(field, "a"),
                    other => panic!("unexpected {:?}", other),
                },
                other => panic!("unexpected {:?}", other),
            }
            assert_eq!(slice(src, element_type.1), "[i16; a]");
        }
        other => panic!("unexpected {:?}", other),
    }
    match &fields.0[10].0 .1 .0 {
        FieldAST::Match { discriminant, cases } => {
            assert_eq!(discriminant.0, "h");
            assert_eq!(cases.0.len(), 2);
            assert_eq!(cases.0[0].0 .0 .0, "X");
            assert_eq!(cases.0[1].0 .0 .0, "Y");
            assert_eq!(slice(src, cases.0[1].1), "Y => [Other; 1]");
            assert_eq!(slice(src, cases.1), "{ X => u8, Y => [Other; 1], }");
        }
        other => panic!("unexpected {:?}", other),
    }
}

#[test]
fn enum_entries_keep_their_order_and_values() {
    let src = "enum Color { Red = 1, Green = -2, Blue = 1, }";
    let defs = parsed(src);
    match defs.get("Color").expect("defined") {
        DefinitionAST::Enum { name, entries } => {
            assert_eq!(name.0, "Color");
            let got: Vec<(&str, i64)> =
                entries.0.iter().map(|e| (e.0 .0 .0.as_str(), e.0 .1 .0)).collect();
            assert_eq!(got, vec![("Red", 1), ("Green", -2), ("Blue", 1)]);
            assert_eq!(slice(src, entries.0[1].1), "Green = -2");
            assert_eq!(slice(src, entries.1), "{ Red = 1, Green = -2, Blue = 1, }");
        }
        _ => panic!("not an enum"),
    }
}

#[test]
fn later_definition_replaces_the_earlier_and_keeps_its_place() {
    let defs = parsed("struct A { x: u8 } enum B { X = 0 } struct A { y: u16, z: u16 }");
    assert_eq!(defs.len(), 2);
    assert_eq!(defs.name_at(0), "A");
    assert_eq!(defs.name_at(1), "B");
    match defs.get("A").expect("defined") {
        DefinitionAST::Struct { fields, .. } => {
            assert_eq!(fields.0.len(), 2);
            assert_eq!(fields.0[0].0 .0 .0, "y");
        }
        _ => panic!("not a struct"),
    }
    assert!(defs.contains_key("B"));
    assert!(!defs.contains_key("C"));
    assert!(defs.get("C").is_none());
}

#[test]
fn array_length_wraps_to_32_bits() {
    let defs = parsed("struct A { a: [u8; 4294967297], b: [u8; -1] }");
    match defs.get("A").expect("defined") {
        DefinitionAST::Struct { fields, .. } => {
            match &fields.0[0].0 .1 .0 {
                FieldAST::Array { length, .. } => {
                    assert!(matches!(length.0, ArrayLength::Static { value: 1 }))
                }
                other => panic!("unexpected {:?}", other),
            }
            match &fields.0[1].0 .1 .0 {
                FieldAST::Array { length, .. } => {
                    assert!(matches!(length.0, ArrayLength::Static { value: 4294967295 }))
                }
                other => panic!("unexpected {:?}", other),
            }
        }
        _ => panic!("not a struct"),
    }
}

#[test]
fn missing_type_is_reported_with_what_was_found() {
    let src = "struct A { x: , y: u8 }";
    let errs = failures(src);
    assert_eq!(errs.len(), 1);
    assert_eq!(errs[0].kind, ParseErrorKind::Unexpected(Expected::Type));
    assert_eq!(errs[0].found, Some(Token::Comma));
    assert_eq!(slice(src, errs[0].span), ",");
    assert_eq!(errs[0].message(), "found ',' expected type");
}

#[test]
fn each_expectation_has_its_error() {
    let cases: Vec<(&str, Expected)> = vec![
        ("x", Expected::Definition),
        ("struct { }", Expected::Identifier),
        ("struct A x: u8 }", Expected::LBrace),
        ("struct A { x u8 }", Expected::Colon),
        ("struct A { x: = }", Expected::Type),
        ("struct A { x: E(y) }", Expected::IntType),
        ("struct A { x: E(u8 }", Expected::RParen),
        ("struct A { x: u8 = y }", Expected::Integer),
        ("struct A { x: f32 = y }", Expected::Float),
        ("struct A { x: CString = 1 }", Expected::StringLiteral),
        ("struct A { x: E(u8) = 1 }", Expected::Identifier),
        ("struct A { x: [u8 4] }", Expected::Semicolon),
        ("struct A { x: [u8; ] }", Expected::Length),
        ("struct A { x: [u8; 4 }", Expected::RBracket),
        ("struct A { x: match t { X u8 } }", Expected::FatArrow),
        ("struct A { x: match t X => u8 }", Expected::LBrace),
        ("struct A { x: u8 y: u8 }", Expected::CommaOrClose),
        ("struct A { x: u8, 3 }", Expected::ItemOrClose),
        ("enum E { X 1 }", Expected::Equal),
        ("enum E { X = Y }", Expected::Integer),
        ("enum E { X = 1 Y = 2 }", Expected::CommaOrClose),
    ];
    for (src, expected) in cases {
        let errs = failures(src);
        assert_eq!(errs[0].kind, ParseErrorKind::Unexpected(expected), "for {:?}", src);
    }
}

#[test]
fn integer_literal_out_of_range_is_an_error() {
    let errs = failures("enum E { X = 9223372036854775808 }");
    assert_eq!(errs.len(), 1);
    assert_eq!(errs[0].kind, ParseErrorKind::IntegerOutOfRange);
    assert_eq!(errs[0].message(), "integer literal out of range");
    let defs = parsed("enum E { X = 9223372036854775807, Y = -9223372036854775808 }");
    match defs.get("E").expect("defined") {
        DefinitionAST::Enum { entries, .. } => {
            assert_eq!(entries.0[0].0 .1 .0, i64::MAX);
            assert_eq!(entries.0[1].0 .1 .0, i64::MIN);
        }
        _ => panic!("not an enum"),
    }
    let errs = failures("enum E { X = -9223372036854775809 }");
    assert_eq!(errs[0].kind, ParseErrorKind::IntegerOutOfRange);
}

#[test]
fn float_literal_without_digits_is_an_error() {
    for src in ["struct A { x: f32 = . }", "struct A { x: f64 = 1e }", "struct A { x: f64 = 1e+ }"] {
        let errs = failures(src);
        assert_eq!(errs.len(), 1, "for {:?}", src);
        assert_eq!(errs[0].kind, ParseErrorKind::InvalidFloat);
        assert_eq!(errs[0].message(), "invalid float literal");
    }
    for src in [
        "struct A { x: f32 = .5 }",
        "struct A { x: f64 = 5. }",
        "struct A { x: f64 = -1.5e-3 }",
        "struct A { x: f64 = -3 }",
    ] {
        assert_eq!(parsed(src).len(), 1, "for {:?}", src);
    }
}

#[test]
fn malformed_body_is_skipped_up_to_its_closing_brace() {
    let src = "struct A { x: [u8; (] } y } struct B { z: }";
    let errs = failures(src);
    assert_eq!(errs.len(), 3);
    assert_eq!(errs[0].kind, ParseErrorKind::Unexpected(Expected::Length));
    assert_eq!(errs[1].kind, ParseErrorKind::UnclosedBody);
    assert_eq!(errs[2].kind, ParseErrorKind::Unexpected(Expected::Type));
    assert_eq!(slice(src, errs[1].span), "struct A { x: [u8; (] } y }");
}

#[test]
fn one_malformed_definition_does_not_hide_the_next() {
    let src = "struct A { x: {} [a] (b), } struct B { y: }";
    let errs = failures(src);
    assert_eq!(errs.len(), 2);
    assert_eq!(slice(src, errs[0].span), "{");
    assert_eq!(slice(src, errs[1].span), "}");
    assert_eq!(errs[1].kind, ParseErrorKind::Unexpected(Expected::Type));
}

#[test]
fn unclosed_body_resumes_at_the_next_definition() {
    let src = "struct A { x: u8 enum E { X = 0 }";
    let errs = failures(src);
    assert_eq!(errs.len(), 2);
    assert_eq!(errs[0].kind, ParseErrorKind::Unexpected(Expected::CommaOrClose));
    assert_eq!(errs[0].found, Some(Token::Enum));
    assert_eq!(errs[1].kind, ParseErrorKind::UnclosedBody);
    assert_eq!(slice(src, errs[1].span), "struct A { x: u8");
    let src = "struct A { x: u8 ( enum E { X = 0 }";
    let errs = failures(src);
    assert_eq!(errs.len(), 2);
    assert_eq!(errs[1].kind, ParseErrorKind::UnclosedBody);
    assert_eq!(errs[1].message(), "unclosed body");
    assert_eq!(slice(src, errs[1].span), "struct A { x: u8 (");
}

#[test]
fn error_at_the_end_of_the_text_is_located_there() {
    let src = "struct A";
    let errs = failures(src);
    assert_eq!(errs.len(), 1);
    assert_eq!(errs[0].found, None);
    assert_eq!((errs[0].span.start, errs[0].span.end), (8, 8));
    assert_eq!(errs[0].message(), "found end of input expected `{`");
}

#[test]
fn unknown_characters_are_parse_errors() {
    let src = "struct A { x: u8 } # struct B { }";
    let errs = failures(src);
    assert_eq!(errs.len(), 1);
    assert_eq!(errs[0].found, Some(Token::Unknown('#')));
    assert_eq!(errs[0].message(), "found '#' expected `struct` or `enum`");
}

use type_expr_compiler::checks::recursion::check_recursion;
use type_expr_compiler::checks::usage::check_usage;
use type_expr_compiler::compile;
use type_expr_compiler::definition::{build_all, build_definition, Definition, FieldType};
use type_expr_compiler::definitions::DefinitionMap;
use type_expr_compiler::lexer::Lexer;
use type_expr_compiler::parser::parse;
use type_expr_compiler::span::Span;
use type_expr_compiler::syntax::{ArrayLength, DefinitionAST, FieldAST};

fn parsed(src: &str) -> DefinitionMap {
    let tokens = Lexer::new(src).tokenize();
    match parse(&tokens, src.len()) {
        Ok(defs) => defs,
        Err(errs) => panic!("unexpected errors: {:?}", errs),
    }
}

fn usage_messages(src: &str) -> Vec<String> {
    check_usage(&parsed(src)).into_iter().map(|e| e.0).collect()
}

fn recursion_messages(src: &str) -> Vec<String> {
    check_recursion(&parsed(src)).into_iter().map(|e| e.0).collect()
}

#[test]
fn valid_program_has_no_errors() {
    let src = "enum E { X = 0, Y = 1 } struct T { n: u8 } struct S { tag: E(u8), t: T, body: match tag { X => i32, Y => [T; 2] } }";
    assert!(usage_messages(src).is_empty());
    assert!(recursion_messages(src).is_empty());
}

#[test]
fn cycle_is_reported_from_the_struct_that_is_reached_again() {
    let src = "struct A { b: B } struct B { c: C } struct C { b: B }";
    let defs = parsed(src);
    let errs = check_recursion(&defs);
    assert_eq!(errs.len(), 1);
    assert_eq!(errs[0].0, "Recursive struct definition detected: B -> C -> B");
    assert_eq!(&src[errs[0].1.start..errs[0].1.end], "A");
}

#[test]
fn explored_structs_are_not_walked_again() {
    let src = "struct A { b: B, c: B } struct B { x: u8 } struct C { a: A, b: B }";
    assert!(recursion_messages(src).is_empty());
}

#[test]
fn two_cycles_give_two_errors() {
    let src = "struct A { a: A, b: B } struct B { a: A }";
    assert_eq!(
        recursion_messages(src),
        vec![
            "Recursive struct definition detected: A -> A".to_string(),
            "Recursive struct definition detected: A -> B -> A".to_string(),
        ]
    );
}

#[test]
fn references_inside_arrays_and_matches_are_not_followed() {
    let src = "enum E { X = 0 } struct A { e: E(u8), a: [A; 2], m: match e { X => A } }";
    assert!(recursion_messages(src).is_empty());
}

#[test]
fn reference_to_an_undefined_struct_is_no_cycle() {
    assert!(recursion_messages("struct A { b: Missing, c: Missing }").is_empty());
}

#[test]
fn match_on_unknown_field() {
    assert_eq!(
        usage_messages("struct S { body: match tag { X => u8 } }"),
        vec!["Field 'tag' is not a field of this struct".to_string()]
    );
}

#[test]
fn match_on_field_declared_later() {
    assert_eq!(
        usage_messages("enum E { X = 0 } struct S { body: match tag { X => u8 }, tag: E(u8) }"),
        vec!["Field 'tag' is not a field of this struct".to_string()]
    );
}

#[test]
fn match_on_field_that_is_no_enum() {
    assert_eq!(
        usage_messages("struct S { tag: u8, body: match tag { X => Missing } }"),
        vec!["Field 'tag' is not an enum at this use site".to_string()]
    );
}

#[test]
fn match_on_enum_field_of_a_struct_type() {
    assert_eq!(
        usage_messages("struct T { } struct S { tag: T(u8), body: match tag { X => u8 } }"),
        vec!["Match discriminant 'tag' is not an enum type".to_string()]
    );
}

#[test]
fn match_on_enum_field_of_an_undefined_enum() {
    assert_eq!(
        usage_messages("struct S { tag: Nope(u8), body: match tag { X => Missing } }"),
        vec![
            "Match on undefined enum 'tag'".to_string(),
            "Undefined struct type 'Missing'".to_string(),
        ]
    );
}

#[test]
fn missing_labels_come_in_the_order_of_the_enum() {
    let src = "enum E { C = 0, A = 1, B = 2, A = 3 } struct S { tag: E(u8), body: match tag { B => u8 } }";
    assert_eq!(
        usage_messages(src),
        vec![
            "Duplicate enum variant 'A'".to_string(),
            "Non-exhaustive match on enum 'tag', missing: [\"C\", \"A\"]".to_string(),
        ]
    );
}

#[test]
fn unknown_and_missing_labels_are_both_reported() {
    let src = "enum E { X = 0, Y = 1 } struct S { tag: E(u8), body: match tag { Z => u8, X => Nope, W => u8 } }";
    let defs = parsed(src);
    let errs = check_usage(&defs);
    let msgs: Vec<&str> = errs.iter().map(|e| e.0.as_str()).collect();
    assert_eq!(
        msgs,
        vec![
            "Unknown variant 'Z' for enum 'tag'",
            "Unknown variant 'W' for enum 'tag'",
            "Non-exhaustive match on enum 'tag', missing: [\"Y\"]",
            "Undefined struct type 'Nope'",
        ]
    );
    assert_eq!(&src[errs[0].1.start..errs[0].1.end], "Z");
    assert_eq!(&src[errs[2].1.start..errs[2].1.end], "tag");
    for e in &errs {
        assert_eq!(&src[e.2.start..e.2.end], "S");
    }
}

#[test]
fn the_latest_field_of_a_name_decides() {
    let src = "enum E { X = 0 } struct S { tag: u8, tag: E(u8), body: match tag { X => u8 } }";
    assert_eq!(usage_messages(src), vec!["Duplicate field 'tag' in struct".to_string()]);
    let src = "enum E { X = 0 } struct S { tag: E(u8), tag: u8, body: match tag { X => u8 } }";
    assert_eq!(
        usage_messages(src),
        vec![
            "Duplicate field 'tag' in struct".to_string(),
            "Field 'tag' is not an enum at this use site".to_string(),
        ]
    );
}

#[test]
fn types_inside_arrays_are_checked() {
    assert_eq!(
        usage_messages("struct S { a: [[Missing; 2]; 3] }"),
        vec!["Undefined struct type 'Missing'".to_string()]
    );
}

#[test]
fn dynamic_array_length_is_not_checked() {
    assert!(usage_messages("struct S { a: [u8; nowhere] }").is_empty());
}

#[test]
fn a_field_may_name_an_enum_as_its_struct() {
    assert!(usage_messages("enum E { X = 0 } struct S { e: E }").is_empty());
}

#[test]
fn errors_of_both_checks_are_gathered() {
    let e = match compile("f", "struct A { a: A, b: Missing } enum E { X = 0, X = 1 }") {
        Ok(_) => panic!("expected errors"),
        Err(e) => e,
    };
    let msgs: Vec<&str> = e.diagnostics.iter().map(|d| d.message.as_str()).collect();
    assert_eq!(
        msgs,
        vec![
            "Recursive struct definition detected: A -> A",
            "Undefined struct type 'Missing'",
            "Duplicate enum variant 'X'",
        ]
    );
    assert_eq!(e.diagnostics[0].labels.len(), 1);
    assert_eq!(e.diagnostics[1].labels.len(), 2);
    assert_eq!(e.diagnostics[1].labels[0].message, "Undefined struct type 'Missing'");
    assert_eq!(e.diagnostics[1].labels[1].message, "In this struct");
    assert_eq!(e.diagnostics[1].labels[1].file_id, 0);
}

#[test]
fn lowering_keeps_the_order_of_the_fields() {
    let src = "struct S { z: u8, a: u16, m: i32, b: f64, y: CString }";
    let schema = build_all(&parsed(src));
    assert_eq!(schema.len(), 1);
    match &schema[0] {
        Definition::Struct { name, fields } => {
            assert_eq!(name, "S");
            let names: Vec<&str> = fields.iter().map(|f| f.0.as_str()).collect();
            assert_eq!(names, vec!["z", "a", "m", "b", "y"]);
        }
        other => panic!("unexpected {:?}", other),
    }
    assert_eq!(schema[0].name(), "S");
}

#[test]
fn lowering_carries_defaults_over() {
    let src = "enum E { X = 5 } struct S { a: u8 = 3, b: i16, c: f32 = -1.5, d: f64, e: CString = \"x\", f: HebrewString, g: E(i8) = X, h: [T; n], i: [u8; 7] }";
    let schema = build_all(&parsed(src));
    match &schema[0] {
        Definition::Enum { name, entries } => {
            assert_eq!(name, "E");
            assert_eq!(entries, &vec![("X".to_string(), 5i64)]);
        }
        other => panic!("unexpected {:?}", other),
    }
    let fields = match &schema[1] {
        Definition::Struct { fields, .. } => fields,
        other => panic!("unexpected {:?}", other),
    };
    assert!(matches!(fields[0].1, FieldType::Int { signed: false, width: 8, default: Some(3) }));
    assert!(matches!(fields[1].1, FieldType::Int { signed: true, width: 16, default: None }));
    match &fields[2].1 {
        FieldType::F32 { default } => assert_eq!(default.as_deref(), Some("-1.5")),
        other => panic!("unexpected {:?}", other),
    }
    assert!(matches!(fields[3].1, FieldType::F64 { default: None }));
    match &fields[4].1 {
        FieldType::CString { default } => assert_eq!(default.as_deref(), Some("x")),
        other => panic!("unexpected {:?}", other),
    }
    assert!(matches!(fields[5].1, FieldType::HebrewString { default: None }));
    match &fields[6].1 {
        FieldType::Enum { name, signed, width, default } => {
            assert_eq!(name, "E");
            assert!(*signed);
            assert_eq!(*width, 8);
            assert_eq!(default.as_deref(), Some("X"));
        }
        other => panic!("unexpected {:?}", other),
    }
    match &fields[7].1 {
        FieldType::Array { element_type, length } => {
            match &**element_type {
                FieldType::Struct { name } => assert_eq!(name, "T"),
                other => panic!("unexpected {:?}", other),
            }
            match length {
                ArrayLength::Dynamic { field } => assert_eq!(field, "n"),
                other => panic!("unexpected {:?}", other),
            }
        }
        other => panic!("unexpected {:?}", other),
    }
    match &fields[8].1 {
        FieldType::Array { length, .. } => {
            assert!(matches!(length, ArrayLength::Static { value: 7 }))
        }
        other => panic!("unexpected {:?}", other),
    }
}

#[test]
fn repeated_field_name_keeps_its_place_and_gets_the_later_type() {
    let schema = build_all(&parsed("struct S { a: u8, b: u8, a: i64 }"));
    match &schema[0] {
        Definition::Struct { fields, .. } => {
            assert_eq!(fields.len(), 2);
            assert_eq!(fields[0].0, "a");
            assert!(matches!(fields[0].1, FieldType::Int { signed: true, width: 64, .. }));
            assert_eq!(fields[1].0, "b");
        }
        other => panic!("unexpected {:?}", other),
    }
}

#[test]
fn repeated_case_label_keeps_its_place_and_gets_the_later_type() {
    let schema = build_all(&parsed(
        "enum E { X = 0, Y = 1 } struct S { t: E(u8), m: match t { X => u8, Y => u16, X => i64 } }",
    ));
    match &schema[1] {
        Definition::Struct { fields, .. } => match &fields[1].1 {
            FieldType::Match { cases, enum_type_name, discriminant } => {
                assert_eq!(enum_type_name, "E");
                assert_eq!(discriminant, "t");
                assert_eq!(cases.len(), 2);
                assert_eq!(cases[0].0, "X");
                assert!(matches!(cases[0].1, FieldType::Int { signed: true, width: 64, .. }));
                assert_eq!(cases[1].0, "Y");
            }
            other => panic!("unexpected {:?}", other),
        },
        other => panic!("unexpected {:?}", other),
    }
}

#[test]
fn field_that_cannot_be_lowered_is_left_out() {
    let schema = build_all(&parsed("struct S { a: u8, m: match a { X => u8 }, n: [match q { }; 2], b: u8 }"));
    match &schema[0] {
        Definition::Struct { fields, .. } => {
            let names: Vec<&str> = fields.iter().map(|f| f.0.as_str()).collect();
            assert_eq!(names, vec!["a", "b"]);
        }
        other => panic!("unexpected {:?}", other),
    }
}

#[test]
fn definition_built_by_hand_is_lowered() {
    let span = Span::new(0, 0);
    let ast = DefinitionAST::Struct {
        name: ("P".to_string(), span),
        fields: (
            vec![(
                (
                    ("x".to_string(), span),
                    (FieldAST::Int { span, signed: false, width: 12, default: Some((9, span)) }, span),
                ),
                span,
            )],
            span,
        ),
    };
    match build_definition(&ast) {
        Some(Definition::Struct { name, fields }) => {
            assert_eq!(name, "P");
            assert_eq!(fields.len(), 1);
            assert!(matches!(fields[0].1, FieldType::Int { signed: false, width: 12, default: Some(9) }));
        }
        other => panic!("unexpected {:?}", other),
    }
    let mut defs = DefinitionMap::new();
    defs.insert("P".to_string(), ast);
    assert_eq!(defs.len(), 1);
    assert_eq!(defs.definition_at(0).name(), "P");
    assert_eq!(defs.index_of("P"), Some(0));
    assert_eq!(defs.index_of("Q"), None);
}

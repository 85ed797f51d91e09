use type_expr_compiler::compile;
use type_expr_compiler::definition::{Definition, FieldType};
use type_expr_compiler::diagnostics::{CompileError, LabelStyle, Severity};

fn errors_of(src: &str) -> CompileError {
    match compile("test.def", src) {
        Ok(_) => panic!("expected the compilation to fail"),
        Err(e) => e,
    }
}

fn messages(e: &CompileError) -> Vec<String> {
    e.diagnostics.iter().map(|d| d.message.clone()).collect()
}

#[test]
fn self_recursive_struct_reports_one_cycle() {
    let e = errors_of("struct A { x: A }");
    let msgs = messages(&e);
    assert_eq!(msgs, vec!["Recursive struct definition detected: A -> A".to_string()]);
    assert_eq!(e.diagnostics[0].severity, Severity::Error);
    let label = &e.diagnostics[0].labels[0];
    assert_eq!(label.style, LabelStyle::Primary);
    assert_eq!((label.span.start, label.span.end), (7, 8));
}

#[test]
fn mutual_recursion_names_both_structs() {
    let e = errors_of("struct A { x: B } struct B { x: A }");
    let msgs = messages(&e);
    assert_eq!(msgs, vec!["Recursive struct definition detected: A -> B -> A".to_string()]);
}

#[test]
fn match_on_enum_field_compiles_and_resolves_the_enum() {
    let src = "enum E { X = 0, Y = 1 } struct S { tag: E(u8), body: match tag { X => i32, Y => f32 } }";
    let schema = compile("test.def", src).ok().expect("the program is valid");
    assert_eq!(schema.len(), 2);
    match &schema[1] {
        Definition::Struct { name, fields } => {
            assert_eq!(name, "S");
            assert_eq!(fields.len(), 2);
            assert_eq!(fields[0].0, "tag");
            assert_eq!(fields[1].0, "body");
            match &fields[1].1 {
                FieldType::Match { discriminant, enum_type_name, cases } => {
                    assert_eq!(discriminant, "tag");
                    assert_eq!(enum_type_name, "E");
                    assert_eq!(cases.len(), 2);
                    assert_eq!(cases[0].0, "X");
                    assert_eq!(cases[1].0, "Y");
                    assert!(matches!(
                        cases[0].1,
                        FieldType::Int { signed: true, width: 32, default: None }
                    ));
                    assert!(matches!(cases[1].1, FieldType::F32 { default: None }));
                }
                other => panic!("unexpected field type {:?}", other),
            }
        }
        other => panic!("unexpected definition {:?}", other),
    }
}

#[test]
fn missing_case_is_non_exhaustive() {
    let src = "enum E { X = 0, Y = 1 } struct S { tag: E(u8), body: match tag { X => i32 } }";
    let e = errors_of(src);
    assert_eq!(
        messages(&e),
        vec!["Non-exhaustive match on enum 'tag', missing: [\"Y\"]".to_string()]
    );
}

#[test]
fn unknown_case_label_is_reported_once() {
    let src =
        "enum E { X = 0, Y = 1 } struct S { tag: E(u8), body: match tag { X => i32, Y => f32, Z => u8 } }";
    let e = errors_of(src);
    assert_eq!(messages(&e), vec!["Unknown variant 'Z' for enum 'tag'".to_string()]);
    let label = &e.diagnostics[0].labels[0];
    assert_eq!(&src[label.span.start..label.span.end], "Z");
}

#[test]
fn undefined_struct_points_at_the_name() {
    let src = "struct A { f: B }";
    let e = errors_of(src);
    assert_eq!(messages(&e), vec!["Undefined struct type 'B'".to_string()]);
    let labels = &e.diagnostics[0].labels;
    assert_eq!(&src[labels[0].span.start..labels[0].span.end], "B");
    assert_eq!(labels[1].style, LabelStyle::Secondary);
    assert_eq!(labels[1].message, "In this struct");
    assert_eq!(&src[labels[1].span.start..labels[1].span.end], "A");
}

#[test]
fn duplicate_enum_variant_points_at_the_second() {
    let src = "enum E { X = 0, X = 1 }";
    let e = errors_of(src);
    assert_eq!(messages(&e), vec!["Duplicate enum variant 'X'".to_string()]);
    let label = &e.diagnostics[0].labels[0];
    assert_eq!(&src[label.span.start..label.span.end], "X = 1");
}

#[test]
fn duplicate_field_is_reported_once() {
    let e = errors_of("struct S { f: u8, f: u16 }");
    assert_eq!(messages(&e), vec!["Duplicate field 'f' in struct".to_string()]);
}

#[test]
fn missing_closing_brace_gives_diagnostics() {
    let e = errors_of("struct A { x: i32 ");
    let msgs = messages(&e);
    assert_eq!(
        msgs,
        vec![
            "found end of input expected `,` or `}`".to_string(),
            "unclosed body".to_string()
        ]
    );
    assert_eq!(e.source, "struct A { x: i32 ");
    assert_eq!(e.filename, "test.def");
}

#[test]
fn compiling_twice_gives_the_same_schema() {
    let src = "enum E { X = 0 } struct S { tag: E(u8) = X, n: u16 = 7, data: [u8; n] }";
    let first = format!("{:?}", compile("a.def", src).ok());
    let second = format!("{:?}", compile("a.def", src).ok());
    assert_eq!(first, second);
    assert!(first.starts_with("Some("));
}

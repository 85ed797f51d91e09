use type_expr_compiler::chars::{chars_of, char_width, is_space_char};
use type_expr_compiler::diagnostics::{
    make_compile_error, make_diagnostic, LabelStyle, Severity,
};
use type_expr_compiler::html::{write_escaped, HtmlEscapeWriter, HtmlWriter};
use type_expr_compiler::literal::{check_float_text, parse_i64, wrap_length};
use type_expr_compiler::span::Span;
use type_expr_compiler::writer::{class_list, plain_spec, Color, ColorSpec};
use type_expr_compiler::writer::HtmlWriter as ColorHtmlWriter;

fn text(bytes: Vec<u8>) -> String {
    String::from_utf8(bytes).expect("utf-8")
}

#[test]
fn escape_writer_replaces_markup() {
    let mut w = HtmlEscapeWriter::new(b"<b>".to_vec());
    assert_eq!(w.write(b"a < b && c > d"), 14);
    assert_eq!(w.write(b""), 0);
    assert_eq!(text(w.into_inner()), "<b>a &lt; b &amp;&amp; c &gt; d");
}

#[test]
fn write_escaped_keeps_other_bytes() {
    let mut out = Vec::new();
    write_escaped(&mut out, "é\"'\n".as_bytes());
    assert_eq!(text(out), "é\"'\n");
}

#[test]
fn html_writer_opens_one_span_at_a_time() {
    let mut w = HtmlWriter::new(Vec::new());
    w.set_header(Severity::Error);
    w.write(b"error");
    w.set_header_message();
    w.write(b": a<b");
    w.reset();
    w.reset();
    w.write(b"\n");
    w.set_line_number();
    w.write(b"1");
    w.set_source_border();
    w.write(b"|");
    w.set_label(Severity::Error, LabelStyle::Primary);
    w.write(b"^");
    w.set_label(Severity::Warning, LabelStyle::Secondary);
    w.write(b"-");
    w.set_note_bullet();
    w.close_span();
    assert_eq!(
        text(w.into_inner()),
        "<span class=\"header-error\">error</span><span class=\"header-message\">: a&lt;b</span>\n\
         <span class=\"line-number\">1</span><span class=\"source-border\">|</span>\
         <span class=\"label-primary-error\">^</span><span class=\"label-secondary-warning\">-</span>\
         <span class=\"note-bullet\"></span>"
    );
}

#[test]
fn html_writer_classes_for_each_severity() {
    let all = [
        (Severity::Bug, "bug"),
        (Severity::Error, "error"),
        (Severity::Warning, "warning"),
        (Severity::Note, "note"),
        (Severity::Help, "help"),
    ];
    for (severity, word) in all {
        let mut w = HtmlWriter::new(Vec::new());
        w.set_header(severity);
        w.set_label(severity, LabelStyle::Secondary);
        assert_eq!(
            text(w.into_inner()),
            format!(
                "<span class=\"header-{}\"></span><span class=\"label-secondary-{}\">",
                word, word
            )
        );
    }
}

#[test]
fn open_span_with_a_class_of_the_caller() {
    let mut w = HtmlWriter::new(b"x".to_vec());
    w.open_span("mine");
    assert_eq!(text(w.into_inner()), "x<span class=\"mine\">");
}

#[test]
fn diagnostic_has_primary_and_secondary_labels() {
    let notes = vec![("first".to_string(), Span::new(1, 2)), ("second".to_string(), Span::new(3, 4))];
    let d = make_diagnostic(7, "broken", Span::new(5, 9), &notes);
    assert_eq!(d.severity, Severity::Error);
    assert_eq!(d.message, "broken");
    assert_eq!(d.labels.len(), 3);
    assert_eq!(d.labels[0].style, LabelStyle::Primary);
    assert_eq!(d.labels[0].message, "broken");
    assert_eq!(d.labels[0].file_id, 7);
    assert_eq!((d.labels[0].span.start, d.labels[0].span.end), (5, 9));
    assert_eq!(d.labels[1].style, LabelStyle::Secondary);
    assert_eq!(d.labels[1].message, "first");
    assert_eq!((d.labels[1].span.start, d.labels[1].span.end), (1, 2));
    assert_eq!(d.labels[2].message, "second");
    assert_eq!(d.labels[2].file_id, 7);
}

#[test]
fn compile_error_keeps_the_order_of_the_reports() {
    let reports = vec![
        ("one".to_string(), Span::new(0, 1), Vec::new()),
        ("two".to_string(), Span::new(2, 3), vec![("why".to_string(), Span::new(4, 5))]),
    ];
    let e = make_compile_error("file.def", "source text", &reports);
    assert_eq!(e.filename, "file.def");
    assert_eq!(e.source, "source text");
    assert_eq!(e.diagnostics.len(), 2);
    assert_eq!(e.diagnostics[0].message, "one");
    assert_eq!(e.diagnostics[0].labels.len(), 1);
    assert_eq!(e.diagnostics[1].message, "two");
    assert_eq!(e.diagnostics[1].labels.len(), 2);
    assert_eq!(e.diagnostics[1].labels[1].file_id, 0);
    assert!(make_compile_error("f", "", &Vec::new()).diagnostics.is_empty());
}

#[test]
fn integer_literals() {
    let parse = |s: &str| parse_i64(&chars_of(s));
    assert_eq!(parse("0"), Some(0));
    assert_eq!(parse("-0"), Some(0));
    assert_eq!(parse("007"), Some(7));
    assert_eq!(parse("-42"), Some(-42));
    assert_eq!(parse("9223372036854775807"), Some(i64::MAX));
    assert_eq!(parse("9223372036854775808"), None);
    assert_eq!(parse("-9223372036854775808"), Some(i64::MIN));
    assert_eq!(parse("-9223372036854775809"), None);
    assert_eq!(parse("00000000000000000000000000000000000001"), Some(1));
    assert_eq!(parse("99999999999999999999999999999999999999"), None);
    assert_eq!(parse(""), None);
    assert_eq!(parse("-"), None);
    assert_eq!(parse("+1"), None);
    assert_eq!(parse("1a"), None);
    assert_eq!(parse("--1"), None);
}

#[test]
fn float_notation() {
    let ok = |s: &str| check_float_text(&chars_of(s));
    for good in ["1", "-1", "1.", ".1", "-.1", "1.5", "1e5", "1E+5", "1.e-5", ".5e0", "0001.1000"] {
        assert!(ok(good), "{:?}", good);
        assert!(good.parse::<f64>().is_ok(), "{:?}", good);
    }
    for bad in ["", "-", ".", "-.", "e5", ".e5", "1e", "1e+", "1e-", "1.5.2", "1e5x", "+1", "1 ", "--1", "inf", "nan"] {
        assert!(!ok(bad), "{:?}", bad);
    }
}

#[test]
fn array_length_wraps() {
    assert_eq!(wrap_length(0), 0);
    assert_eq!(wrap_length(4294967295), 4294967295);
    assert_eq!(wrap_length(4294967296), 0);
    assert_eq!(wrap_length(-1), 4294967295);
    assert_eq!(wrap_length(-4294967296), 0);
    assert_eq!(wrap_length(i64::MIN), i64::MIN as u32);
    assert_eq!(wrap_length(i64::MAX), i64::MAX as u32);
    assert_eq!(wrap_length(-123456789012), (-123456789012i64) as u32);
}

#[test]
fn character_widths_and_white_space_agree_with_the_standard_library() {
    for code in 0u32..0x11000 {
        if let Some(c) = char::from_u32(code) {
            assert_eq!(char_width(c), c.len_utf8());
            assert_eq!(is_space_char(c), c.is_whitespace(), "U+{:04X}", code);
        }
    }
    assert_eq!(char_width('\u{10FFFF}'), 4);
    assert_eq!(chars_of("aé€"), vec!['a', 'é', '€']);
}

#[test]
fn colour_writer_names_colours_and_styles() {
    let plain = plain_spec();
    assert!(plain.reset && plain.fg.is_none());
    let red_bold = ColorSpec { fg: Some(Color::Red), bold: true, ..plain };
    let on_blue = ColorSpec { fg: Some(Color::White), bg: Some(Color::Blue), intense: true, underline: true, ..plain };
    assert_eq!(class_list(&red_bold), "fg red bold");
    assert_eq!(class_list(&on_blue), "fg white bg blue underline bright");
    assert_eq!(class_list(&ColorSpec { bg: Some(Color::Cyan), ..plain }), "bg cyan");
    assert_eq!(class_list(&ColorSpec { fg: Some(Color::Ansi256(7)), bold: true, ..plain }), "fg  bold");
    assert_eq!(class_list(&ColorSpec { fg: Some(Color::Rgb(1, 2, 3)), ..plain }), "fg ");
    assert_eq!(class_list(&ColorSpec { italic: true, ..plain }), "");
    assert_eq!(class_list(&plain), "");

    let mut w = ColorHtmlWriter::new(Vec::new());
    assert!(w.supports_color());
    w.reset();
    assert_eq!(w.write(b"a<b"), 3);
    w.set_color(&red_bold);
    w.set_color(&red_bold);
    w.write(b"x");
    w.set_color(&on_blue);
    w.write(b"y");
    w.set_color(&plain);
    w.write(b"z");
    w.set_color(&ColorSpec { reset: false, ..plain });
    w.set_color(&red_bold);
    w.reset();
    w.reset();
    assert_eq!(
        String::from_utf8(w.into_inner()).expect("utf-8"),
        "a<b<span class=\"fg red bold\">x</span>\
         <span class=\"fg white bg blue underline bright\">y</span></span>z</span>\
         <span class=\"fg red bold\"></span>"
    );
}

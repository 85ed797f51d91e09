//! Writers that turn rendered diagnostics into an HTML fragment: text is
//! escaped, and each style becomes a `span` with a class of its own.

use vstd::prelude::*;
use vstd::string::*;
use vstd::utf8::encode_utf8;
use crate::diagnostics::{LabelStyle, Severity};

verus! {

/// How one byte of text is written in HTML.
pub open spec fn escape_html_byte(b: u8) -> Seq<u8> {
    if b == 0x3C {
        "&lt;"@.map_values(|c: char| c as u8)
    } else if b == 0x3E {
        "&gt;"@.map_values(|c: char| c as u8)
    } else if b == 0x26 {
        "&amp;"@.map_values(|c: char| c as u8)
    } else {
        seq![b]
    }
}

/// How text is written in HTML: `<`, `>` and `&` are replaced by their
/// entities, every other byte stays.
pub open spec fn escape_html(text: Seq<u8>) -> Seq<u8>
    decreases text.len(),
{
    if text.len() == 0 {
        Seq::empty()
    } else {
        escape_html(text.drop_last()) + escape_html_byte(text.last())
    }
}

/// The entity for `b`, if it has one.
fn entity(b: u8) -> (r: Option<Vec<u8>>)
    ensures
        match r {
            Some(e) => e@ == escape_html_byte(b) && (b == 0x3C || b == 0x3E || b == 0x26),
            None => escape_html_byte(b) == seq![b],
        },
{
    if b == 0x3C {
        proof {
            reveal_strlit("&lt;");
        }
        let mut e: Vec<u8> = Vec::new();
        e.push(0x26);
        e.push(0x6C);
        e.push(0x74);
        e.push(0x3B);
        assert(e@ =~= "&lt;"@.map_values(|c: char| c as u8));
        Some(e)
    } else if b == 0x3E {
        proof {
            reveal_strlit("&gt;");
        }
        let mut e: Vec<u8> = Vec::new();
        e.push(0x26);
        e.push(0x67);
        e.push(0x74);
        e.push(0x3B);
        assert(e@ =~= "&gt;"@.map_values(|c: char| c as u8));
        Some(e)
    } else if b == 0x26 {
        proof {
            reveal_strlit("&amp;");
        }
        let mut e: Vec<u8> = Vec::new();
        e.push(0x26);
        e.push(0x61);
        e.push(0x6D);
        e.push(0x70);
        e.push(0x3B);
        assert(e@ =~= "&amp;"@.map_values(|c: char| c as u8));
        Some(e)
    } else {
        None
    }
}

/// Appends `text` to `out`, escaped.
pub fn write_escaped(out: &mut Vec<u8>, text: &[u8])
    ensures
        final(out)@ == old(out)@ + escape_html(text@),
{
    let ghost start = out@;
    let mut i: usize = 0;
    assert(text@.take(0) =~= Seq::<u8>::empty());
    assert(start + Seq::<u8>::empty() =~= start);
    while i < text.len()
        invariant
            i <= text.len(),
            start == old(out)@,
            out@ == start + escape_html(text@.take(i as int)),
        decreases text.len() - i,
    {
        let b = text[i];
        let ghost before = text@.take(i as int);
        let ghost after = text@.take(i as int + 1);
        assert(after.drop_last() =~= before);
        assert(after.last() == b);
        let ghost now = out@;
        match entity(b) {
            Some(mut e) => {
                out.append(&mut e);
            },
            None => {
                out.push(b);
            },
        }
        assert(out@ =~= now + escape_html_byte(b));
        assert((start + escape_html(before)) + escape_html_byte(b) =~= start + (escape_html(
            before,
        ) + escape_html_byte(b)));
        i += 1;
    }
    assert(text@.take(text.len() as int) =~= text@);
}

/// A writer that escapes what is written to it and gathers the result.
pub struct HtmlEscapeWriter {
    upstream: Vec<u8>,
}

impl View for HtmlEscapeWriter {
    type V = Seq<u8>;

    closed spec fn view(&self) -> Seq<u8> {
        self.upstream@
    }
}

impl HtmlEscapeWriter {
    /// A writer that adds to the bytes of `upstream`.
    pub fn new(upstream: Vec<u8>) -> (w: HtmlEscapeWriter)
        ensures
            w@ == upstream@,
    {
        HtmlEscapeWriter { upstream }
    }

    /// Writes `buf`, escaped, and gives the number of bytes of `buf` that
    /// were taken, which is all of them.
    pub fn write(&mut self, buf: &[u8]) -> (n: usize)
        ensures
            n == buf@.len(),
            final(self)@ == old(self)@ + escape_html(buf@),
    {
        write_escaped(&mut self.upstream, buf);
        buf.len()
    }

    /// The bytes written so far.
    pub fn into_inner(self) -> (out: Vec<u8>)
        ensures
            out@ == self@,
    {
        self.upstream
    }
}

/// The word for a severity in a class name.
pub open spec fn severity_word(s: Severity) -> Seq<char> {
    match s {
        Severity::Bug => "bug"@,
        Severity::Error => "error"@,
        Severity::Warning => "warning"@,
        Severity::Note => "note"@,
        Severity::Help => "help"@,
    }
}

/// The word for a label style in a class name.
pub open spec fn style_word(s: LabelStyle) -> Seq<char> {
    match s {
        LabelStyle::Primary => "primary"@,
        LabelStyle::Secondary => "secondary"@,
    }
}

/// The class of the header of a diagnostic.
pub open spec fn header_class(s: Severity) -> Seq<char> {
    "header-"@ + severity_word(s)
}

/// The class of a label: one for each pair of style and severity.
pub open spec fn label_class(severity: Severity, style: LabelStyle) -> Seq<char> {
    "label-"@ + style_word(style) + "-"@ + severity_word(severity)
}

/// The bytes of the tag that opens a span of class `class`.
pub open spec fn open_tag(class: Seq<char>) -> Seq<u8> {
    encode_utf8("<span class=\""@) + encode_utf8(class) + encode_utf8("\">"@)
}

/// The bytes of the tag that closes a span.
pub open spec fn close_tag() -> Seq<u8> {
    encode_utf8("</span>"@)
}

/// The state of an [`HtmlWriter`]: the bytes written and whether a span is
/// open.
pub struct HtmlState {
    pub out: Seq<u8>,
    pub span_open: bool,
}

/// The state after closing the open span, if there is one.
pub open spec fn closed(s: HtmlState) -> HtmlState {
    if s.span_open {
        HtmlState { out: s.out + close_tag(), span_open: false }
    } else {
        s
    }
}

/// The state after opening a span of class `class`: the span that was open
/// is closed first.
pub open spec fn opened(s: HtmlState, class: Seq<char>) -> HtmlState {
    HtmlState { out: closed(s).out + open_tag(class), span_open: true }
}

/// The word for a severity in a class name.
fn severity_name(s: Severity) -> (w: &'static str)
    ensures
        w@ == severity_word(s),
{
    match s {
        Severity::Bug => "bug",
        Severity::Error => "error",
        Severity::Warning => "warning",
        Severity::Note => "note",
        Severity::Help => "help",
    }
}

/// A writer that gathers an HTML fragment: text is escaped and at most one
/// span is open at a time.
pub struct HtmlWriter {
    upstream: Vec<u8>,
    span_open: bool,
}

impl View for HtmlWriter {
    type V = HtmlState;

    closed spec fn view(&self) -> HtmlState {
        HtmlState { out: self.upstream@, span_open: self.span_open }
    }
}

impl HtmlWriter {
    /// A writer that adds to the bytes of `upstream`, with no span open.
    pub fn new(upstream: Vec<u8>) -> (w: HtmlWriter)
        ensures
            w@ == (HtmlState { out: upstream@, span_open: false }),
    {
        HtmlWriter { upstream, span_open: false }
    }

    /// Closes the open span, if there is one.
    pub fn close_span(&mut self)
        ensures
            final(self)@ == closed(old(self)@),
    {
        if self.span_open {
            let ghost base = self.upstream@;
            self.upstream.extend_from_slice("</span>".as_bytes());
            assert(self.upstream@ =~= base + close_tag());
            self.span_open = false;
        }
    }

    /// Opens a span of class `class`, after closing the one that is open.
    pub fn open_span(&mut self, class: &str)
        ensures
            final(self)@ == opened(old(self)@, class@),
    {
        self.close_span();
        let ghost base = self.upstream@;
        self.upstream.extend_from_slice("<span class=\"".as_bytes());
        self.upstream.extend_from_slice(class.as_bytes());
        self.upstream.extend_from_slice("\">".as_bytes());
        assert(self.upstream@ =~= base + open_tag(class@));
        self.span_open = true;
    }

    /// Writes `buf`, escaped, and gives the number of bytes of `buf` that
    /// were taken, which is all of them.
    pub fn write(&mut self, buf: &[u8]) -> (n: usize)
        ensures
            n == buf@.len(),
            final(self)@ == (HtmlState {
                out: old(self)@.out + escape_html(buf@),
                span_open: old(self)@.span_open,
            }),
    {
        write_escaped(&mut self.upstream, buf);
        buf.len()
    }

    /// Starts the header of a diagnostic of the given severity.
    pub fn set_header(&mut self, severity: Severity)
        ensures
            final(self)@ == opened(old(self)@, header_class(severity)),
    {
        let mut class = String::from_str("header-");
        class.append(severity_name(severity));
        self.open_span(class.as_str());
    }

    /// Starts the message of a header.
    pub fn set_header_message(&mut self)
        ensures
            final(self)@ == opened(old(self)@, "header-message"@),
    {
        self.open_span("header-message");
    }

    /// Starts a line number.
    pub fn set_line_number(&mut self)
        ensures
            final(self)@ == opened(old(self)@, "line-number"@),
    {
        self.open_span("line-number");
    }

    /// Starts the bullet of a note.
    pub fn set_note_bullet(&mut self)
        ensures
            final(self)@ == opened(old(self)@, "note-bullet"@),
    {
        self.open_span("note-bullet");
    }

    /// Starts the border of the source.
    pub fn set_source_border(&mut self)
        ensures
            final(self)@ == opened(old(self)@, "source-border"@),
    {
        self.open_span("source-border");
    }

    /// Starts a label of the given severity and style.
    pub fn set_label(&mut self, severity: Severity, label_style: LabelStyle)
        ensures
            final(self)@ == opened(old(self)@, label_class(severity, label_style)),
    {
        let mut class = String::from_str("label-");
        class.append(
            match label_style {
                LabelStyle::Primary => "primary",
                LabelStyle::Secondary => "secondary",
            },
        );
        class.append("-");
        class.append(severity_name(severity));
        self.open_span(class.as_str());
    }

    /// Ends the current style.
    pub fn reset(&mut self)
        ensures
            final(self)@ == closed(old(self)@),
    {
        self.close_span();
    }

    /// The bytes written so far.
    pub fn into_inner(self) -> (out: Vec<u8>)
        ensures
            out@ == self@.out,
    {
        self.upstream
    }
}

} // verus!

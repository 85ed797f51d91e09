//! A writer that turns colours into `span` elements: each colour setting
//! opens a span whose classes name the colours and styles, and closes the
//! span of the setting before.

use vstd::prelude::*;
use vstd::string::*;
use vstd::utf8::encode_utf8;

verus! {

/// A colour of the terminal.
#[derive(Clone, Copy, Debug, PartialEq, Eq, Structural)]
pub enum Color {
    Black,
    Blue,
    Green,
    Red,
    Cyan,
    Magenta,
    Yellow,
    White,
    Ansi256(u8),
    Rgb(u8, u8, u8),
}

/// A colour setting: colours for text and ground, and styles.
#[derive(Clone, Copy, Debug, PartialEq, Eq, Structural)]
pub struct ColorSpec {
    pub fg: Option<Color>,
    pub bg: Option<Color>,
    pub bold: bool,
    pub intense: bool,
    pub underline: bool,
    pub dimmed: bool,
    pub italic: bool,
    pub reset: bool,
    pub strikethrough: bool,
}

/// The setting without colours and styles, which resets what was set
/// before.
pub open spec fn plain() -> ColorSpec {
    ColorSpec {
        fg: None,
        bg: None,
        bold: false,
        intense: false,
        underline: false,
        dimmed: false,
        italic: false,
        reset: true,
        strikethrough: false,
    }
}

/// Whether a setting has no colours and no styles.
pub open spec fn is_none(spec: ColorSpec) -> bool {
    spec.fg is None && spec.bg is None && !spec.bold && !spec.underline && !spec.dimmed
        && !spec.italic && !spec.intense && !spec.strikethrough
}

/// The name of a colour in a class. Only the eight basic colours have one.
pub open spec fn color_name(c: Color) -> Seq<char> {
    match c {
        Color::Black => "black"@,
        Color::Blue => "blue"@,
        Color::Green => "green"@,
        Color::Red => "red"@,
        Color::Cyan => "cyan"@,
        Color::Magenta => "magenta"@,
        Color::Yellow => "yellow"@,
        Color::White => "white"@,
        _ => Seq::empty(),
    }
}

/// `classes` with one more class, a space between them.
pub open spec fn with_class(classes: Seq<char>, first: bool, class: Seq<char>) -> Seq<char> {
    if first {
        classes + class
    } else {
        classes + " "@ + class
    }
}

/// The classes of a setting: `fg` and the colour of the text, `bg` and the
/// colour of the ground, then `bold`, `underline` and `bright`, each where
/// it is set, with spaces between them.
pub open spec fn classes(spec: ColorSpec) -> Seq<char> {
    let a = match spec.fg {
        Some(c) => "fg "@ + color_name(c),
        None => Seq::empty(),
    };
    let first_a = spec.fg is None;
    let b = match spec.bg {
        Some(c) => with_class(a, first_a, "bg "@ + color_name(c)),
        None => a,
    };
    let first_b = first_a && spec.bg is None;
    let c = if spec.bold {
        with_class(b, first_b, "bold"@)
    } else {
        b
    };
    let first_c = first_b && !spec.bold;
    let d = if spec.underline {
        with_class(c, first_c, "underline"@)
    } else {
        c
    };
    let first_d = first_c && !spec.underline;
    if spec.intense {
        with_class(d, first_d, "bright"@)
    } else {
        d
    }
}

/// The state of an [`HtmlWriter`]: the bytes written and the setting in
/// force.
pub struct ColorState {
    pub out: Seq<u8>,
    pub color: ColorSpec,
}

/// The state after the setting `spec` was asked for. Nothing happens where
/// it is in force already. Else the span of the setting in force is closed,
/// if that has colours or styles; then a span with the classes of `spec` is
/// opened, or, where `spec` has neither colours nor styles, one more closing
/// tag is written.
pub open spec fn colored(s: ColorState, spec: ColorSpec) -> ColorState {
    if s.color == spec {
        s
    } else {
        let closed = if is_none(s.color) {
            s.out
        } else {
            s.out + encode_utf8("</span>"@)
        };
        ColorState {
            out: if is_none(spec) {
                closed + encode_utf8("</span>"@)
            } else {
                closed + encode_utf8("<span class=\""@) + encode_utf8(classes(spec))
                    + encode_utf8("\">"@)
            },
            color: spec,
        }
    }
}

/// The state after a reset: a closing tag is written unless the plain
/// setting is in force, which it is afterwards.
pub open spec fn reset_state(s: ColorState) -> ColorState {
    if s.color == plain() {
        s
    } else {
        ColorState { out: s.out + encode_utf8("</span>"@), color: plain() }
    }
}

/// The name of a colour in a class.
fn name_of(c: Color) -> (s: &'static str)
    ensures
        s@ == color_name(c),
{
    match c {
        Color::Black => "black",
        Color::Blue => "blue",
        Color::Green => "green",
        Color::Red => "red",
        Color::Cyan => "cyan",
        Color::Magenta => "magenta",
        Color::Yellow => "yellow",
        Color::White => "white",
        _ => {
            proof {
                reveal_strlit("");
            }
            ""
        },
    }
}

/// Adds the space that goes before every class but the first.
fn write_first(first: bool, out: &mut String) -> (r: bool)
    ensures
        !r,
        final(out)@ == if first {
            old(out)@
        } else {
            old(out)@ + " "@
        },
{
    if !first {
        out.append(" ");
    }
    false
}

/// The classes of a setting.
pub fn class_list(spec: &ColorSpec) -> (s: String)
    ensures
        s@ == classes(*spec),
{
    let mut out = String::new();
    let mut first = true;
    match spec.fg {
        Some(fg) => {
            first = write_first(first, &mut out);
            out.append("fg ");
            out.append(name_of(fg));
            assert(out@ =~= "fg "@ + color_name(fg));
        },
        None => {},
    }
    match spec.bg {
        Some(bg) => {
            let ghost before = out@;
            let ghost was_first = first;
            first = write_first(first, &mut out);
            out.append("bg ");
            out.append(name_of(bg));
            assert(out@ =~= with_class(before, was_first, "bg "@ + color_name(bg)));
        },
        None => {},
    }
    if spec.bold {
        first = write_first(first, &mut out);
        out.append("bold");
    }
    if spec.underline {
        first = write_first(first, &mut out);
        out.append("underline");
    }
    if spec.intense {
        first = write_first(first, &mut out);
        out.append("bright");
    }
    out
}

/// Whether a setting has no colours and no styles.
pub fn spec_is_none(spec: &ColorSpec) -> (b: bool)
    ensures
        b == is_none(*spec),
{
    spec.fg.is_none() && spec.bg.is_none() && !spec.bold && !spec.underline && !spec.dimmed
        && !spec.italic && !spec.intense && !spec.strikethrough
}

/// The plain setting.
pub fn plain_spec() -> (spec: ColorSpec)
    ensures
        spec == plain(),
{
    ColorSpec {
        fg: None,
        bg: None,
        bold: false,
        intense: false,
        underline: false,
        dimmed: false,
        italic: false,
        reset: true,
        strikethrough: false,
    }
}

/// A writer that gathers an HTML fragment in which colours are spans.
/// Text is written as it comes.
pub struct HtmlWriter {
    upstream: Vec<u8>,
    color: ColorSpec,
}

impl View for HtmlWriter {
    type V = ColorState;

    closed spec fn view(&self) -> ColorState {
        ColorState { out: self.upstream@, color: self.color }
    }
}

impl HtmlWriter {
    /// A writer that adds to the bytes of `upstream`, with the plain
    /// setting in force.
    pub fn new(upstream: Vec<u8>) -> (w: HtmlWriter)
        ensures
            w@ == (ColorState { out: upstream@, color: plain() }),
    {
        HtmlWriter { upstream, color: plain_spec() }
    }

    /// Writes `buf` as it is and gives the number of bytes taken, which is
    /// all of them.
    pub fn write(&mut self, buf: &[u8]) -> (n: usize)
        ensures
            n == buf@.len(),
            final(self)@ == (ColorState { out: old(self)@.out + buf@, color: old(self)@.color }),
    {
        self.upstream.extend_from_slice(buf);
        assert(self.upstream@ =~= old(self)@.out + buf@);
        buf.len()
    }

    /// Colours can be set.
    pub fn supports_color(&self) -> (b: bool)
        ensures
            b,
    {
        true
    }

    /// Asks for the setting `spec`.
    pub fn set_color(&mut self, spec: &ColorSpec)
        ensures
            final(self)@ == colored(old(self)@, *spec),
    {
        if self.color == *spec {
            return ;
        }
        let ghost start = self.upstream@;
        if !spec_is_none(&self.color) {
            self.upstream.extend_from_slice("</span>".as_bytes());
            assert(self.upstream@ =~= start + encode_utf8("</span>"@));
        }
        let ghost closed = self.upstream@;
        self.color = *spec;
        if spec_is_none(spec) {
            self.upstream.extend_from_slice("</span>".as_bytes());
            assert(self.upstream@ =~= closed + encode_utf8("</span>"@));
            return ;
        }
        self.upstream.extend_from_slice("<span class=\"".as_bytes());
        self.upstream.extend_from_slice(class_list(spec).as_str().as_bytes());
        self.upstream.extend_from_slice("\">".as_bytes());
        assert(self.upstream@ =~= closed + encode_utf8("<span class=\""@) + encode_utf8(
            classes(*spec),
        ) + encode_utf8("\">"@));
    }

    /// Ends the setting in force.
    pub fn reset(&mut self)
        ensures
            final(self)@ == reset_state(old(self)@),
    {
        if self.color != plain_spec() {
            let ghost start = self.upstream@;
            self.upstream.extend_from_slice("</span>".as_bytes());
            assert(self.upstream@ =~= start + encode_utf8("</span>"@));
            self.color = plain_spec();
        }
    }

    /// The bytes written so far.
    pub fn into_inner(self) -> (out: Vec<u8>)
        ensures
            out@ == self@.out,
    {
        self.upstream
    }
}

} // verus!

//! The grammar of the schema language, as a function from a token stream to
//! the syntax tree and the errors.
//!
//! ```text
//! program    := (struct_def | enum_def)*
//! struct_def := "struct" ident "{" (field ("," field)* ","?)? "}"
//! field      := ident ":" field_type
//! enum_def   := "enum" ident "{" (entry ("," entry)* ","?)? "}"
//! entry      := ident "=" integer
//! field_type := match_type | enum_type | int_type | float_type
//!             | string_type | struct_type | array_type
//! match_type := "match" ident "{" (case ("," case)* ","?)? "}"
//! case       := ident "=>" field_type
//! enum_type  := ident "(" int_width ")" ("=" ident)?
//! int_type   := int_width ("=" integer)?
//! float_type := ("f32"|"f64") ("=" float)?
//! string_type:= ("CString"|"HebrewString") ("=" string)?
//! struct_type:= ident
//! array_type := "[" field_type ";" (integer | ident) "]"
//! ```
//!
//! Each alternative of `field_type` starts with a token of its own, so one
//! token decides, two for an identifier: followed by `(` it is an enum type,
//! else a struct. A definition whose body is malformed gives one error; the
//! parser then looks for the brace that closes the body, counting nested
//! braces, parentheses and brackets, and goes on behind it. Where the
//! delimiters do not balance it reports the body as unclosed and goes on at
//! the next `struct` or `enum`.

use vstd::prelude::*;
use crate::definitions::{defs_insert, DefsView};
use crate::literal::{i64_literal, is_float_text, wrapped_length};
use crate::span::Span;
use crate::syntax::{
    ArrayLengthView, DefinitionView, EnumEntryView, FieldEntryView, FieldView,
};
use crate::token::TokenView;

verus! {

/// What the parser was looking for where it found something else.
#[derive(Clone, Copy, Debug, PartialEq, Eq, Structural)]
pub enum Expected {
    /// `struct` or `enum`.
    Definition,
    Identifier,
    /// The first token of a field type.
    Type,
    /// An integer type such as `u8`.
    IntType,
    Integer,
    Float,
    StringLiteral,
    /// The length of an array: an integer or the name of a field.
    Length,
    Colon,
    Equal,
    LBrace,
    RParen,
    RBracket,
    Semicolon,
    FatArrow,
    /// `,` or `}`, after an item of a body.
    CommaOrClose,
    /// An item of a body or `}`.
    ItemOrClose,
}

/// The kinds of parse errors.
#[derive(Clone, Copy, Debug, PartialEq, Eq, Structural)]
pub enum ParseErrorKind {
    /// Another token was expected here.
    Unexpected(Expected),
    /// The integer literal does not fit 64 bits.
    IntegerOutOfRange,
    /// The float literal has no digits where it needs them.
    InvalidFloat,
    /// The delimiters of a malformed body do not balance.
    UnclosedBody,
}

/// The view of a parse error.
pub struct ParseErrorView {
    pub kind: ParseErrorKind,
    pub span: Span,
    pub found: Option<TokenView>,
}

/// A token stream, as the grammar sees it.
pub type Toks = Seq<(TokenView, Span)>;

/// The outcome of a rule: a value and the index of the next token, or an
/// error.
pub enum Step<T> {
    Done { value: T, next: int },
    Fail { error: ParseErrorView },
}

/// The items of a body as far as they go, and whether the last thing read
/// was an item (and not a comma or nothing at all).
pub struct Items<T> {
    pub items: Seq<T>,
    pub after_item: bool,
}

/// The outcome of reading one definition: the definition unless something
/// was wrong, the errors, and the index at which to go on.
pub struct DefStep {
    pub def: Option<DefinitionView>,
    pub errors: Seq<ParseErrorView>,
    pub next: int,
}

/// The definitions and the errors gathered so far.
pub struct Program {
    pub defs: DefsView,
    pub errors: Seq<ParseErrorView>,
}

/// The closing delimiters.
#[derive(Clone, Copy, Debug, PartialEq, Eq, Structural)]
pub enum Delim {
    Brace,
    Paren,
    Bracket,
}

/// The token with index `i`, if there is one.
pub open spec fn tok(ts: Toks, i: int) -> Option<TokenView> {
    if 0 <= i < ts.len() {
        Some(ts[i].0)
    } else {
        None
    }
}

/// The span of the token with index `i`, or `eoi` behind the last token.
pub open spec fn span_at(ts: Toks, i: int, eoi: Span) -> Span {
    if 0 <= i < ts.len() {
        ts[i].1
    } else {
        eoi
    }
}

/// The span of the tokens `from..to`: from the start of the first to the
/// end of the last, and empty at the start of `from` where there is none.
pub open spec fn range_span(ts: Toks, from: int, to: int, eoi: Span) -> Span {
    Span {
        start: span_at(ts, from, eoi).start,
        end: if from < to && 0 < to <= ts.len() {
            ts[to - 1].1.end
        } else {
            span_at(ts, from, eoi).start
        },
    }
}

/// The error for finding the token with index `i` where `expected` was
/// looked for.
pub open spec fn unexpected(ts: Toks, i: int, eoi: Span, expected: Expected) -> ParseErrorView {
    ParseErrorView {
        kind: ParseErrorKind::Unexpected(expected),
        span: span_at(ts, i, eoi),
        found: tok(ts, i),
    }
}

/// An error of kind `kind` at the token with index `i`.
pub open spec fn error_at(ts: Toks, i: int, eoi: Span, kind: ParseErrorKind) -> ParseErrorView {
    ParseErrorView { kind, span: span_at(ts, i, eoi), found: tok(ts, i) }
}

/// `ident`
pub open spec fn p_ident(ts: Toks, i: int, eoi: Span) -> Step<(Seq<char>, Span)> {
    match tok(ts, i) {
        Some(TokenView::Identifier(name)) => Step::Done { value: (name, ts[i].1), next: i + 1 },
        _ => Step::Fail { error: unexpected(ts, i, eoi, Expected::Identifier) },
    }
}

/// `("=" integer)?`
pub open spec fn p_int_default(ts: Toks, i: int, eoi: Span) -> Step<Option<(i64, Span)>> {
    if tok(ts, i) == Some(TokenView::Equal) {
        match tok(ts, i + 1) {
            Some(TokenView::Integer(t)) => match i64_literal(t) {
                Some(v) => Step::Done { value: Some((v, ts[i + 1].1)), next: i + 2 },
                None => Step::Fail {
                    error: error_at(ts, i + 1, eoi, ParseErrorKind::IntegerOutOfRange),
                },
            },
            _ => Step::Fail { error: unexpected(ts, i + 1, eoi, Expected::Integer) },
        }
    } else {
        Step::Done { value: None, next: i }
    }
}

/// `("=" float)?`, where an integer literal is a float too. The value is
/// the text of the literal.
pub open spec fn p_float_default(ts: Toks, i: int, eoi: Span) -> Step<Option<(Seq<char>, Span)>> {
    if tok(ts, i) == Some(TokenView::Equal) {
        match tok(ts, i + 1) {
            Some(TokenView::Integer(t)) => if is_float_text(t) {
                Step::Done { value: Some((t, ts[i + 1].1)), next: i + 2 }
            } else {
                Step::Fail { error: error_at(ts, i + 1, eoi, ParseErrorKind::InvalidFloat) }
            },
            Some(TokenView::Float(t)) => if is_float_text(t) {
                Step::Done { value: Some((t, ts[i + 1].1)), next: i + 2 }
            } else {
                Step::Fail { error: error_at(ts, i + 1, eoi, ParseErrorKind::InvalidFloat) }
            },
            _ => Step::Fail { error: unexpected(ts, i + 1, eoi, Expected::Float) },
        }
    } else {
        Step::Done { value: None, next: i }
    }
}

/// `("=" string)?`
pub open spec fn p_string_default(ts: Toks, i: int, eoi: Span) -> Step<
    Option<(Seq<char>, Span)>,
> {
    if tok(ts, i) == Some(TokenView::Equal) {
        match tok(ts, i + 1) {
            Some(TokenView::StringLiteral(t)) => Step::Done {
                value: Some((t, ts[i + 1].1)),
                next: i + 2,
            },
            _ => Step::Fail { error: unexpected(ts, i + 1, eoi, Expected::StringLiteral) },
        }
    } else {
        Step::Done { value: None, next: i }
    }
}

/// `("=" ident)?`
pub open spec fn p_ident_default(ts: Toks, i: int, eoi: Span) -> Step<Option<(Seq<char>, Span)>> {
    if tok(ts, i) == Some(TokenView::Equal) {
        match tok(ts, i + 1) {
            Some(TokenView::Identifier(t)) => Step::Done {
                value: Some((t, ts[i + 1].1)),
                next: i + 2,
            },
            _ => Step::Fail { error: unexpected(ts, i + 1, eoi, Expected::Identifier) },
        }
    } else {
        Step::Done { value: None, next: i }
    }
}

/// `ident "(" int_width ")" ("=" ident)?`, the identifier being `name` at
/// index `i` and the token after it `(`.
pub open spec fn p_enum_type(ts: Toks, i: int, eoi: Span, name: Seq<char>) -> Step<
    (FieldView, Span),
> {
    match tok(ts, i + 2) {
        Some(TokenView::IntWidth { signed, width }) => if tok(ts, i + 3) == Some(
            TokenView::RParen,
        ) {
            match p_ident_default(ts, i + 4, eoi) {
                Step::Done { value, next } => Step::Done {
                    value: (
                        FieldView::Enum {
                            name: (name, ts[i].1),
                            int_span: range_span(ts, i + 1, i + 4, eoi),
                            signed,
                            width,
                            default: value,
                        },
                        range_span(ts, i, next, eoi),
                    ),
                    next,
                },
                Step::Fail { error } => Step::Fail { error },
            }
        } else {
            Step::Fail { error: unexpected(ts, i + 3, eoi, Expected::RParen) }
        },
        _ => Step::Fail { error: unexpected(ts, i + 2, eoi, Expected::IntType) },
    }
}

/// `int_width ("=" integer)?`, the integer type being at index `i`.
pub open spec fn p_int_type(ts: Toks, i: int, eoi: Span, signed: bool, width: u8) -> Step<
    (FieldView, Span),
> {
    match p_int_default(ts, i + 1, eoi) {
        Step::Done { value, next } => Step::Done {
            value: (
                FieldView::Int { span: ts[i].1, signed, width, default: value },
                range_span(ts, i, next, eoi),
            ),
            next,
        },
        Step::Fail { error } => Step::Fail { error },
    }
}

/// `("f32"|"f64") ("=" float)?`, the keyword being at index `i`.
pub open spec fn p_float_type(ts: Toks, i: int, eoi: Span, single: bool) -> Step<
    (FieldView, Span),
> {
    match p_float_default(ts, i + 1, eoi) {
        Step::Done { value, next } => Step::Done {
            value: (
                if single {
                    FieldView::F32 { default: value }
                } else {
                    FieldView::F64 { default: value }
                },
                range_span(ts, i, next, eoi),
            ),
            next,
        },
        Step::Fail { error } => Step::Fail { error },
    }
}

/// `("CString"|"HebrewString") ("=" string)?`, the keyword being at index
/// `i`.
pub open spec fn p_string_type(ts: Toks, i: int, eoi: Span, hebrew: bool) -> Step<
    (FieldView, Span),
> {
    match p_string_default(ts, i + 1, eoi) {
        Step::Done { value, next } => Step::Done {
            value: (
                if hebrew {
                    FieldView::HebrewString { default: value }
                } else {
                    FieldView::CString { default: value }
                },
                range_span(ts, i, next, eoi),
            ),
            next,
        },
        Step::Fail { error } => Step::Fail { error },
    }
}

/// `integer | ident`, as the length of an array.
pub open spec fn p_length(ts: Toks, i: int, eoi: Span) -> Step<(ArrayLengthView, Span)> {
    match tok(ts, i) {
        Some(TokenView::Integer(t)) => match i64_literal(t) {
            Some(v) => Step::Done {
                value: (ArrayLengthView::Static { value: wrapped_length(v) }, ts[i].1),
                next: i + 1,
            },
            None => Step::Fail { error: error_at(ts, i, eoi, ParseErrorKind::IntegerOutOfRange) },
        },
        Some(TokenView::Identifier(f)) => Step::Done {
            value: (ArrayLengthView::Dynamic { field: f }, ts[i].1),
            next: i + 1,
        },
        _ => Step::Fail { error: unexpected(ts, i, eoi, Expected::Length) },
    }
}

/// `field_type`
pub open spec fn p_type(ts: Toks, i: int, eoi: Span) -> Step<(FieldView, Span)>
    decreases ts.len() - i, 2nat,
{
    match tok(ts, i) {
        Some(TokenView::Match) => p_match(ts, i, eoi),
        Some(TokenView::Identifier(name)) => if tok(ts, i + 1) == Some(TokenView::LParen) {
            p_enum_type(ts, i, eoi, name)
        } else {
            Step::Done {
                value: (FieldView::Struct { name: (name, ts[i].1) }, ts[i].1),
                next: i + 1,
            }
        },
        Some(TokenView::IntWidth { signed, width }) => p_int_type(ts, i, eoi, signed, width),
        Some(TokenView::F32) => p_float_type(ts, i, eoi, true),
        Some(TokenView::F64) => p_float_type(ts, i, eoi, false),
        Some(TokenView::CString) => p_string_type(ts, i, eoi, false),
        Some(TokenView::HebrewString) => p_string_type(ts, i, eoi, true),
        Some(TokenView::LBracket) => p_array(ts, i, eoi),
        _ => Step::Fail { error: unexpected(ts, i, eoi, Expected::Type) },
    }
}

/// `"[" field_type ";" (integer | ident) "]"`, the bracket being at index
/// `i`.
pub open spec fn p_array(ts: Toks, i: int, eoi: Span) -> Step<(FieldView, Span)>
    decreases ts.len() - i, 1nat,
{
    if 0 <= i < ts.len() {
        match p_type(ts, i + 1, eoi) {
            Step::Done { value: element, next: j } => if tok(ts, j) == Some(
                TokenView::Semicolon,
            ) {
                match p_length(ts, j + 1, eoi) {
                    Step::Done { value: length, next: k } => if tok(ts, k) == Some(
                        TokenView::RBracket,
                    ) {
                        Step::Done {
                            value: (
                                FieldView::Array { element_type: Box::new(element), length },
                                range_span(ts, i, k + 1, eoi),
                            ),
                            next: k + 1,
                        }
                    } else {
                        Step::Fail { error: unexpected(ts, k, eoi, Expected::RBracket) }
                    },
                    Step::Fail { error } => Step::Fail { error },
                }
            } else {
                Step::Fail { error: unexpected(ts, j, eoi, Expected::Semicolon) }
            },
            Step::Fail { error } => Step::Fail { error },
        }
    } else {
        Step::Fail { error: unexpected(ts, i, eoi, Expected::Type) }
    }
}

/// `"match" ident "{" (case ("," case)* ","?)? "}"`, the keyword being at
/// index `i`.
pub open spec fn p_match(ts: Toks, i: int, eoi: Span) -> Step<(FieldView, Span)>
    decreases ts.len() - i, 1nat,
{
    if 0 <= i < ts.len() {
        match p_ident(ts, i + 1, eoi) {
            Step::Done { value: discriminant, next: _ } => if tok(ts, i + 2) == Some(
                TokenView::LBrace,
            ) {
                match p_items(ts, i + 3, eoi, TokenView::FatArrow, Seq::empty()) {
                    Step::Done { value: body, next: j } => if tok(ts, j) == Some(
                        TokenView::RBrace,
                    ) {
                        Step::Done {
                            value: (
                                FieldView::Match {
                                    discriminant,
                                    cases: (body.items, range_span(ts, i + 2, j + 1, eoi)),
                                },
                                range_span(ts, i, j + 1, eoi),
                            ),
                            next: j + 1,
                        }
                    } else {
                        Step::Fail { error: unexpected(ts, j, eoi, close_expected(body)) }
                    },
                    Step::Fail { error } => Step::Fail { error },
                }
            } else {
                Step::Fail { error: unexpected(ts, i + 2, eoi, Expected::LBrace) }
            },
            Step::Fail { error } => Step::Fail { error },
        }
    } else {
        Step::Fail { error: unexpected(ts, i, eoi, Expected::Type) }
    }
}

/// What is expected where a body neither goes on nor is closed.
pub open spec fn close_expected<T>(body: Items<T>) -> Expected {
    if body.after_item {
        Expected::CommaOrClose
    } else {
        Expected::ItemOrClose
    }
}

/// What is expected where the sign between a name and its type is missing.
pub open spec fn sign_expected(sign: TokenView) -> Expected {
    if sign == TokenView::Colon {
        Expected::Colon
    } else {
        Expected::FatArrow
    }
}

/// `(item ("," item)* ","?)?` with `item := ident sign field_type`: the
/// fields of a struct, where `sign` is `:`, and the cases of a match, where
/// it is `=>`. `acc` holds the items read before index `i`.
pub open spec fn p_items(ts: Toks, i: int, eoi: Span, sign: TokenView, acc: Seq<FieldEntryView>)
    -> Step<Items<FieldEntryView>>
    decreases ts.len() - i, 0nat,
{
    match tok(ts, i) {
        Some(TokenView::Identifier(name)) => if tok(ts, i + 1) == Some(sign) {
            match p_type(ts, i + 2, eoi) {
                Step::Done { value: ty, next: j } => {
                    let item = (((name, ts[i].1), ty), range_span(ts, i, j, eoi));
                    if i < j < ts.len() && ts[j].0 == TokenView::Comma {
                        p_items(ts, j + 1, eoi, sign, acc.push(item))
                    } else {
                        Step::Done {
                            value: Items { items: acc.push(item), after_item: true },
                            next: j,
                        }
                    }
                },
                Step::Fail { error } => Step::Fail { error },
            }
        } else {
            Step::Fail { error: unexpected(ts, i + 1, eoi, sign_expected(sign)) }
        },
        _ => Step::Done { value: Items { items: acc, after_item: false }, next: i },
    }
}

/// `(entry ("," entry)* ","?)?` with `entry := ident "=" integer`. `acc`
/// holds the entries read before index `i`.
pub open spec fn p_entries(ts: Toks, i: int, eoi: Span, acc: Seq<EnumEntryView>) -> Step<
    Items<EnumEntryView>,
>
    decreases ts.len() - i,
{
    match tok(ts, i) {
        Some(TokenView::Identifier(name)) => if tok(ts, i + 1) == Some(TokenView::Equal) {
            match tok(ts, i + 2) {
                Some(TokenView::Integer(t)) => match i64_literal(t) {
                    Some(v) => {
                        let entry = (
                            ((name, ts[i].1), (v, ts[i + 2].1)),
                            range_span(ts, i, i + 3, eoi),
                        );
                        if tok(ts, i + 3) == Some(TokenView::Comma) {
                            p_entries(ts, i + 4, eoi, acc.push(entry))
                        } else {
                            Step::Done {
                                value: Items { items: acc.push(entry), after_item: true },
                                next: i + 3,
                            }
                        }
                    },
                    None => Step::Fail {
                        error: error_at(ts, i + 2, eoi, ParseErrorKind::IntegerOutOfRange),
                    },
                },
                _ => Step::Fail { error: unexpected(ts, i + 2, eoi, Expected::Integer) },
            }
        } else {
            Step::Fail { error: unexpected(ts, i + 1, eoi, Expected::Equal) }
        },
        _ => Step::Done { value: Items { items: acc, after_item: false }, next: i },
    }
}

/// The delimiter that closes what `t` opens.
pub open spec fn opens(t: TokenView) -> Option<Delim> {
    match t {
        TokenView::LBrace => Some(Delim::Brace),
        TokenView::LParen => Some(Delim::Paren),
        TokenView::LBracket => Some(Delim::Bracket),
        _ => None,
    }
}

/// The delimiter that `t` is, if it closes one.
pub open spec fn closes(t: TokenView) -> Option<Delim> {
    match t {
        TokenView::RBrace => Some(Delim::Brace),
        TokenView::RParen => Some(Delim::Paren),
        TokenView::RBracket => Some(Delim::Bracket),
        _ => None,
    }
}

/// The index of the token that closes the outermost of the delimiters in
/// `open`, which are those open before index `i`, innermost last. Nothing
/// where a delimiter closes another than the innermost open one, or where
/// the tokens end first.
pub open spec fn matching_close(ts: Toks, i: int, open: Seq<Delim>) -> Option<int>
    decreases ts.len() - i,
{
    if !(0 <= i < ts.len()) || open.len() == 0 {
        None
    } else if opens(ts[i].0) is Some {
        matching_close(ts, i + 1, open.push(opens(ts[i].0)->0))
    } else if closes(ts[i].0) is Some {
        if closes(ts[i].0)->0 != open.last() {
            None
        } else if open.len() == 1 {
            Some(i)
        } else {
            matching_close(ts, i + 1, open.drop_last())
        }
    } else {
        matching_close(ts, i + 1, open)
    }
}

/// The index of the first `struct` or `enum` at or after `i`, or the number
/// of tokens if there is none.
pub open spec fn next_definition(ts: Toks, i: int) -> int
    decreases ts.len() - i,
{
    if 0 <= i < ts.len() && ts[i].0 != TokenView::Struct && ts[i].0 != TokenView::Enum {
        next_definition(ts, i + 1)
    } else {
        i
    }
}

/// What becomes of a definition that started at index `start` and whose
/// body, opened at index `open`, is malformed, `first` being the error.
pub open spec fn recover(ts: Toks, start: int, open: int, eoi: Span, first: ParseErrorView)
    -> DefStep {
    match matching_close(ts, open + 1, seq![Delim::Brace]) {
        Some(close) => DefStep { def: None, errors: seq![first], next: close + 1 },
        None => {
            let next = next_definition(ts, open + 1);
            DefStep {
                def: None,
                errors: seq![
                    first,
                    ParseErrorView {
                        kind: ParseErrorKind::UnclosedBody,
                        span: range_span(ts, start, next, eoi),
                        found: None,
                    },
                ],
                next,
            }
        },
    }
}

/// `"struct" ident "{" (field ("," field)* ","?)? "}"`, the keyword being
/// at index `i`.
pub open spec fn p_struct(ts: Toks, i: int, eoi: Span) -> DefStep {
    match p_ident(ts, i + 1, eoi) {
        Step::Done { value: name, next: _ } => if tok(ts, i + 2) == Some(TokenView::LBrace) {
            match p_items(ts, i + 3, eoi, TokenView::Colon, Seq::empty()) {
                Step::Done { value: body, next: j } => if tok(ts, j) == Some(
                    TokenView::RBrace,
                ) {
                    DefStep {
                        def: Some(
                            DefinitionView::Struct {
                                name,
                                fields: (body.items, range_span(ts, i + 3, j, eoi)),
                            },
                        ),
                        errors: Seq::empty(),
                        next: j + 1,
                    }
                } else {
                    recover(ts, i, i + 2, eoi, unexpected(ts, j, eoi, close_expected(body)))
                },
                Step::Fail { error } => recover(ts, i, i + 2, eoi, error),
            }
        } else {
            DefStep {
                def: None,
                errors: seq![unexpected(ts, i + 2, eoi, Expected::LBrace)],
                next: next_definition(ts, i + 2),
            }
        },
        Step::Fail { error } => DefStep {
            def: None,
            errors: seq![error],
            next: next_definition(ts, i + 1),
        },
    }
}

/// `"enum" ident "{" (entry ("," entry)* ","?)? "}"`, the keyword being at
/// index `i`.
pub open spec fn p_enum(ts: Toks, i: int, eoi: Span) -> DefStep {
    match p_ident(ts, i + 1, eoi) {
        Step::Done { value: name, next: _ } => if tok(ts, i + 2) == Some(TokenView::LBrace) {
            match p_entries(ts, i + 3, eoi, Seq::empty()) {
                Step::Done { value: body, next: j } => if tok(ts, j) == Some(
                    TokenView::RBrace,
                ) {
                    DefStep {
                        def: Some(
                            DefinitionView::Enum {
                                name,
                                entries: (body.items, range_span(ts, i + 2, j + 1, eoi)),
                            },
                        ),
                        errors: Seq::empty(),
                        next: j + 1,
                    }
                } else {
                    recover(ts, i, i + 2, eoi, unexpected(ts, j, eoi, close_expected(body)))
                },
                Step::Fail { error } => recover(ts, i, i + 2, eoi, error),
            }
        } else {
            DefStep {
                def: None,
                errors: seq![unexpected(ts, i + 2, eoi, Expected::LBrace)],
                next: next_definition(ts, i + 2),
            }
        },
        Step::Fail { error } => DefStep {
            def: None,
            errors: seq![error],
            next: next_definition(ts, i + 1),
        },
    }
}

/// `acc` with what `step` found.
pub open spec fn with_step(acc: Program, step: DefStep) -> Program {
    Program {
        defs: match step.def {
            Some(d) => defs_insert(acc.defs, d.name(), d),
            None => acc.defs,
        },
        errors: acc.errors + step.errors,
    }
}

/// `(struct_def | enum_def)*` from index `i` on, `acc` holding what was
/// found before. A token that starts no definition is an error, and the
/// parser goes on at the next `struct` or `enum`.
pub open spec fn p_program(ts: Toks, i: int, eoi: Span, acc: Program) -> Program
    decreases ts.len() - i,
{
    if !(0 <= i < ts.len()) {
        acc
    } else if ts[i].0 == TokenView::Struct {
        let step = p_struct(ts, i, eoi);
        if i < step.next <= ts.len() {
            p_program(ts, step.next, eoi, with_step(acc, step))
        } else {
            with_step(acc, step)
        }
    } else if ts[i].0 == TokenView::Enum {
        let step = p_enum(ts, i, eoi);
        if i < step.next <= ts.len() {
            p_program(ts, step.next, eoi, with_step(acc, step))
        } else {
            with_step(acc, step)
        }
    } else {
        let next = next_definition(ts, i + 1);
        let errors = acc.errors.push(unexpected(ts, i, eoi, Expected::Definition));
        if i < next <= ts.len() {
            p_program(ts, next, eoi, Program { defs: acc.defs, errors })
        } else {
            Program { defs: acc.defs, errors }
        }
    }
}

/// What parsing the whole token stream gives: the definitions if there was
/// no error, else the errors in the order in which they were found. `eoi`
/// is the empty span at the end of the text.
pub open spec fn parse_spec(ts: Toks, eoi: Span) -> Result<DefsView, Seq<ParseErrorView>> {
    let r = p_program(ts, 0, eoi, Program { defs: Seq::empty(), errors: Seq::empty() });
    if r.errors.len() == 0 {
        Ok(r.defs)
    } else {
        Err(r.errors)
    }
}

/// A default value takes no token or two, and ends inside the tokens.
pub proof fn lemma_default_progress(ts: Toks, i: int, eoi: Span)
    requires
        0 <= i <= ts.len(),
    ensures
        p_int_default(ts, i, eoi) matches Step::Done { next, .. } ==> i <= next <= ts.len(),
        p_float_default(ts, i, eoi) matches Step::Done { next, .. } ==> i <= next <= ts.len(),
        p_string_default(ts, i, eoi) matches Step::Done { next, .. } ==> i <= next <= ts.len(),
        p_ident_default(ts, i, eoi) matches Step::Done { next, .. } ==> i <= next <= ts.len(),
{
}

/// A field type takes at least one token and ends inside the tokens.
pub proof fn lemma_type_progress(ts: Toks, i: int, eoi: Span)
    ensures
        p_type(ts, i, eoi) matches Step::Done { next, .. } ==> i < next <= ts.len(),
    decreases ts.len() - i, 2nat,
{
    if 0 <= i < ts.len() {
        lemma_default_progress(ts, i + 1, eoi);
        match ts[i].0 {
            TokenView::Match => {
                if tok(ts, i + 2) == Some(TokenView::LBrace) {
                    lemma_items_progress(ts, i + 3, eoi, TokenView::FatArrow, Seq::empty());
                }
            },
            TokenView::Identifier(name) => {
                if tok(ts, i + 3) == Some(TokenView::RParen) {
                    lemma_default_progress(ts, i + 4, eoi);
                }
            },
            TokenView::LBracket => {
                lemma_type_progress(ts, i + 1, eoi);
            },
            _ => {},
        }
    }
}

/// The span of a field type is the span of the tokens that it was read
/// from.
pub proof fn lemma_type_span(ts: Toks, i: int, eoi: Span)
    ensures
        p_type(ts, i, eoi) matches Step::Done { value, next } ==> value.1 == range_span(
            ts,
            i,
            next,
            eoi,
        ),
{
    if 0 <= i < ts.len() {
        match ts[i].0 {
            TokenView::Match => {
                if tok(ts, i + 2) == Some(TokenView::LBrace) {
                    lemma_items_progress(ts, i + 3, eoi, TokenView::FatArrow, Seq::empty());
                }
            },
            TokenView::LBracket => {
                lemma_type_progress(ts, i + 1, eoi);
            },
            _ => {},
        }
    }
}

/// The items of a body end inside the tokens and not before they start.
pub proof fn lemma_items_progress(
    ts: Toks,
    i: int,
    eoi: Span,
    sign: TokenView,
    acc: Seq<FieldEntryView>,
)
    requires
        0 <= i <= ts.len(),
    ensures
        p_items(ts, i, eoi, sign, acc) matches Step::Done { next, .. } ==> i <= next <= ts.len(),
    decreases ts.len() - i, 0nat,
{
    match tok(ts, i) {
        Some(TokenView::Identifier(name)) => {
            if tok(ts, i + 1) == Some(sign) {
                lemma_type_progress(ts, i + 2, eoi);
                match p_type(ts, i + 2, eoi) {
                    Step::Done { value: ty, next: j } => {
                        let item = (((name, ts[i].1), ty), range_span(ts, i, j, eoi));
                        if i < j < ts.len() && ts[j].0 == TokenView::Comma {
                            lemma_items_progress(ts, j + 1, eoi, sign, acc.push(item));
                        }
                    },
                    Step::Fail { .. } => {},
                }
            }
        },
        _ => {},
    }
}

/// The entries of an enum end inside the tokens and not before they start.
pub proof fn lemma_entries_progress(ts: Toks, i: int, eoi: Span, acc: Seq<EnumEntryView>)
    requires
        0 <= i <= ts.len(),
    ensures
        p_entries(ts, i, eoi, acc) matches Step::Done { next, .. } ==> i <= next <= ts.len(),
    decreases ts.len() - i,
{
    match tok(ts, i) {
        Some(TokenView::Identifier(name)) => {
            if tok(ts, i + 1) == Some(TokenView::Equal) {
                match tok(ts, i + 2) {
                    Some(TokenView::Integer(t)) => match i64_literal(t) {
                        Some(v) => {
                            let entry = (
                                ((name, ts[i].1), (v, ts[i + 2].1)),
                                range_span(ts, i, i + 3, eoi),
                            );
                            if tok(ts, i + 3) == Some(TokenView::Comma) {
                                lemma_entries_progress(ts, i + 4, eoi, acc.push(entry));
                            }
                        },
                        None => {},
                    },
                    _ => {},
                }
            }
        },
        _ => {},
    }
}

/// The delimiter that closes a body stands inside the tokens, at or behind
/// the place from which it was looked for.
pub proof fn lemma_matching_close_bounds(ts: Toks, i: int, open: Seq<Delim>)
    requires
        0 <= i,
    ensures
        matching_close(ts, i, open) matches Some(c) ==> i <= c < ts.len(),
    decreases ts.len() - i,
{
    if 0 <= i < ts.len() && open.len() > 0 {
        if opens(ts[i].0) is Some {
            lemma_matching_close_bounds(ts, i + 1, open.push(opens(ts[i].0)->0));
        } else if closes(ts[i].0) is Some {
            if closes(ts[i].0)->0 == open.last() && open.len() > 1 {
                lemma_matching_close_bounds(ts, i + 1, open.drop_last());
            }
        } else {
            lemma_matching_close_bounds(ts, i + 1, open);
        }
    }
}

/// The next definition is looked for inside the tokens, and found at a
/// `struct` or an `enum` or at their end.
pub proof fn lemma_next_definition_bounds(ts: Toks, i: int)
    requires
        0 <= i <= ts.len(),
    ensures
        i <= next_definition(ts, i) <= ts.len(),
        next_definition(ts, i) < ts.len() ==> ts[next_definition(ts, i)].0 == TokenView::Struct
            || ts[next_definition(ts, i)].0 == TokenView::Enum,
    decreases ts.len() - i,
{
    if i < ts.len() && ts[i].0 != TokenView::Struct && ts[i].0 != TokenView::Enum {
        lemma_next_definition_bounds(ts, i + 1);
    }
}

/// Reading a definition takes at least its keyword and ends inside the
/// tokens, whether it is well formed or not: the parser always goes on.
pub proof fn lemma_definition_progress(ts: Toks, i: int, eoi: Span)
    requires
        0 <= i < ts.len(),
    ensures
        i < p_struct(ts, i, eoi).next <= ts.len(),
        i < p_enum(ts, i, eoi).next <= ts.len(),
{
    lemma_next_definition_bounds(ts, i + 1);
    if i + 2 <= ts.len() {
        lemma_next_definition_bounds(ts, i + 2);
    }
    if tok(ts, i + 2) == Some(TokenView::LBrace) {
        lemma_items_progress(ts, i + 3, eoi, TokenView::Colon, Seq::empty());
        lemma_entries_progress(ts, i + 3, eoi, Seq::empty());
        lemma_matching_close_bounds(ts, i + 3, seq![Delim::Brace]);
        lemma_next_definition_bounds(ts, i + 3);
    }
}

/// Parsing fails only with errors to show for it.
pub proof fn lemma_parse_failure_has_errors(ts: Toks, eoi: Span)
    ensures
        parse_spec(ts, eoi) matches Err(errors) ==> errors.len() > 0,
{
}

/// How a message names what was expected.
pub open spec fn expected_text(e: Expected) -> Seq<char> {
    match e {
        Expected::Definition => "`struct` or `enum`"@,
        Expected::Identifier => "identifier"@,
        Expected::Type => "type"@,
        Expected::IntType => "integer type"@,
        Expected::Integer => "integer literal"@,
        Expected::Float => "float literal"@,
        Expected::StringLiteral => "string literal"@,
        Expected::Length => "array length"@,
        Expected::Colon => "`:`"@,
        Expected::Equal => "`=`"@,
        Expected::LBrace => "`{`"@,
        Expected::RParen => "`)`"@,
        Expected::RBracket => "`]`"@,
        Expected::Semicolon => "`;`"@,
        Expected::FatArrow => "`=>`"@,
        Expected::CommaOrClose => "`,` or `}`"@,
        Expected::ItemOrClose => "identifier or `}`"@,
    }
}

/// How a message names what was found.
pub open spec fn found_text(found: Option<TokenView>) -> Seq<char> {
    match found {
        Some(t) => "'"@ + t.text() + "'"@,
        None => "end of input"@,
    }
}

/// The message of a parse error.
pub open spec fn error_message(e: ParseErrorView) -> Seq<char> {
    match e.kind {
        ParseErrorKind::Unexpected(x) => "found "@ + found_text(e.found) + " expected "@
            + expected_text(x),
        ParseErrorKind::IntegerOutOfRange => "integer literal out of range"@,
        ParseErrorKind::InvalidFloat => "invalid float literal"@,
        ParseErrorKind::UnclosedBody => "unclosed body"@,
    }
}

} // verus!

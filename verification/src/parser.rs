//! The parser: from located tokens to the definitions of a program, or to
//! the errors found in it.
//!
//! What each function returns is fixed by the rule of the grammar that it
//! reads; the grammar itself is in [`crate::grammar`].

use vstd::prelude::*;
use vstd::string::*;
use crate::chars::chars_of;
use crate::definitions::{DefinitionMap, DefsView};
use crate::grammar::{
    closes, error_at, error_message, expected_text, found_text, matching_close, next_definition,
    opens, p_array, p_entries, p_enum, p_enum_type, p_float_default, p_float_type, p_ident,
    p_ident_default, p_int_default, p_int_type, p_items, p_length, p_match, p_program,
    p_string_default, p_string_type, p_struct, p_type, parse_spec, range_span, recover, span_at,
    tok, unexpected, with_step, DefStep, Delim, Expected, Items, ParseErrorKind, ParseErrorView,
    Program, Step,
};
use crate::literal::{check_float_text, parse_i64, wrap_length};
use crate::span::{Span, Spanned};
use crate::syntax::{
    enum_entries_view, enum_entry_view, field_entries_view, field_entry_view, lemma_match_view,
    opt_text_view, text_view, ArrayLength, ArrayLengthView, DefinitionAST, EnumEntry,
    EnumEntryView, FieldAST, FieldEntry, FieldEntryView, FieldView,
};
use crate::token::{tokens_view, Token, TokenView};

verus! {

/// A parse error: what went wrong, where, and the token that stood there
/// (none at the end of the text).
#[derive(Debug)]
pub struct ParseError {
    pub kind: ParseErrorKind,
    pub span: Span,
    pub found: Option<Token>,
}

impl View for ParseError {
    type V = ParseErrorView;

    open spec fn view(&self) -> ParseErrorView {
        ParseErrorView {
            kind: self.kind,
            span: self.span,
            found: match self.found {
                Some(t) => Some(t@),
                None => None,
            },
        }
    }
}

/// How a message names what was expected.
fn expected_name(e: Expected) -> (s: &'static str)
    ensures
        s@ == expected_text(e),
{
    match e {
        Expected::Definition => "`struct` or `enum`",
        Expected::Identifier => "identifier",
        Expected::Type => "type",
        Expected::IntType => "integer type",
        Expected::Integer => "integer literal",
        Expected::Float => "float literal",
        Expected::StringLiteral => "string literal",
        Expected::Length => "array length",
        Expected::Colon => "`:`",
        Expected::Equal => "`=`",
        Expected::LBrace => "`{`",
        Expected::RParen => "`)`",
        Expected::RBracket => "`]`",
        Expected::Semicolon => "`;`",
        Expected::FatArrow => "`=>`",
        Expected::CommaOrClose => "`,` or `}`",
        Expected::ItemOrClose => "identifier or `}`",
    }
}

impl ParseError {
    /// The message of the error: what was found and what was expected, or
    /// what is wrong with the literal or the body.
    pub fn message(&self) -> (s: String)
        ensures
            s@ == error_message(self@),
    {
        match self.kind {
            ParseErrorKind::Unexpected(x) => {
                let mut out = String::from_str("found ");
                match &self.found {
                    Some(t) => {
                        out.append("'");
                        out.append(t.to_string().as_str());
                        out.append("'");
                        assert(out@ =~= "found "@ + found_text(self@.found));
                    },
                    None => {
                        out.append("end of input");
                    },
                }
                out.append(" expected ");
                out.append(expected_name(x));
                out
            },
            ParseErrorKind::IntegerOutOfRange => String::from_str("integer literal out of range"),
            ParseErrorKind::InvalidFloat => String::from_str("invalid float literal"),
            ParseErrorKind::UnclosedBody => String::from_str("unclosed body"),
        }
    }
}

/// The views of a run of parse errors, in order.
pub open spec fn errors_view(es: Seq<ParseError>) -> Seq<ParseErrorView> {
    Seq::new(es.len(), |i: int| es[i]@)
}

/// The outcome of a rule that gives a located text.
pub open spec fn text_step(r: Result<(Spanned<String>, usize), ParseError>) -> Step<
    (Seq<char>, Span),
> {
    match r {
        Ok(v) => Step::Done { value: text_view(v.0), next: v.1 as int },
        Err(e) => Step::Fail { error: e@ },
    }
}

/// The outcome of a rule that gives an optional located text.
pub open spec fn opt_text_step(r: Result<(Option<Spanned<String>>, usize), ParseError>) -> Step<
    Option<(Seq<char>, Span)>,
> {
    match r {
        Ok(v) => Step::Done { value: opt_text_view(v.0), next: v.1 as int },
        Err(e) => Step::Fail { error: e@ },
    }
}

/// The outcome of a rule that gives an optional located integer.
pub open spec fn opt_int_step(r: Result<(Option<Spanned<i64>>, usize), ParseError>) -> Step<
    Option<(i64, Span)>,
> {
    match r {
        Ok(v) => Step::Done { value: v.0, next: v.1 as int },
        Err(e) => Step::Fail { error: e@ },
    }
}

/// The outcome of the rule for array lengths.
pub open spec fn length_step(r: Result<(Spanned<ArrayLength>, usize), ParseError>) -> Step<
    (ArrayLengthView, Span),
> {
    match r {
        Ok(v) => Step::Done { value: (v.0.0@, v.0.1), next: v.1 as int },
        Err(e) => Step::Fail { error: e@ },
    }
}

/// The outcome of a rule that gives a field type.
pub open spec fn type_step(r: Result<(Spanned<FieldAST>, usize), ParseError>) -> Step<
    (FieldView, Span),
> {
    match r {
        Ok(v) => Step::Done { value: (v.0.0@, v.0.1), next: v.1 as int },
        Err(e) => Step::Fail { error: e@ },
    }
}

/// The outcome of the rule for fields and cases.
pub open spec fn items_step(r: Result<((Vec<FieldEntry>, bool), usize), ParseError>) -> Step<
    Items<FieldEntryView>,
> {
    match r {
        Ok(v) => Step::Done {
            value: Items { items: field_entries_view(v.0.0@), after_item: v.0.1 },
            next: v.1 as int,
        },
        Err(e) => Step::Fail { error: e@ },
    }
}

/// The outcome of the rule for enum entries.
pub open spec fn entries_step(r: Result<((Vec<EnumEntry>, bool), usize), ParseError>) -> Step<
    Items<EnumEntryView>,
> {
    match r {
        Ok(v) => Step::Done {
            value: Items { items: enum_entries_view(v.0.0@), after_item: v.0.1 },
            next: v.1 as int,
        },
        Err(e) => Step::Fail { error: e@ },
    }
}

/// The token with index `i`, if there is one.
pub fn peek(tokens: &Vec<Spanned<Token>>, i: usize) -> (r: Option<&Token>)
    ensures
        r is Some <==> i < tokens.len(),
        match r {
            Some(t) => tok(tokens_view(tokens@), i as int) == Some(t@),
            None => tok(tokens_view(tokens@), i as int) is None,
        },
{
    if i < tokens.len() {
        Some(&tokens[i].0)
    } else {
        None
    }
}

/// The span of the token with index `i`, or `eoi` behind the last token.
pub fn span_of_token(tokens: &Vec<Spanned<Token>>, i: usize, eoi: Span) -> (s: Span)
    ensures
        s == span_at(tokens_view(tokens@), i as int, eoi),
{
    if i < tokens.len() {
        tokens[i].1
    } else {
        eoi
    }
}

/// The span of the tokens `from..to`.
pub fn span_between(tokens: &Vec<Spanned<Token>>, from: usize, to: usize, eoi: Span) -> (s: Span)
    ensures
        s == range_span(tokens_view(tokens@), from as int, to as int, eoi),
{
    let start = span_of_token(tokens, from, eoi).start;
    let end = if from < to && to <= tokens.len() {
        tokens[to - 1].1.end
    } else {
        start
    };
    Span { start, end }
}

/// An error of kind `kind` at the token with index `i`.
pub fn error_at_token(
    tokens: &Vec<Spanned<Token>>,
    i: usize,
    eoi: Span,
    kind: ParseErrorKind,
) -> (e: ParseError)
    ensures
        e@ == error_at(tokens_view(tokens@), i as int, eoi, kind),
{
    let found = match peek(tokens, i) {
        Some(t) => Some(t.duplicate()),
        None => None,
    };
    ParseError { kind, span: span_of_token(tokens, i, eoi), found }
}

/// The error for finding the token with index `i` where `expected` was
/// looked for.
pub fn unexpected_at(tokens: &Vec<Spanned<Token>>, i: usize, eoi: Span, expected: Expected) -> (e:
    ParseError)
    ensures
        e@ == unexpected(tokens_view(tokens@), i as int, eoi, expected),
{
    error_at_token(tokens, i, eoi, ParseErrorKind::Unexpected(expected))
}

/// Whether the token with index `i` is `=`.
fn at_equal(tokens: &Vec<Spanned<Token>>, i: usize) -> (b: bool)
    ensures
        b == (tok(tokens_view(tokens@), i as int) == Some(TokenView::Equal)),
        b ==> i < tokens.len(),
{
    match peek(tokens, i) {
        Some(Token::Equal) => true,
        _ => false,
    }
}

/// Whether the token with index `i` is `,`.
fn at_comma(tokens: &Vec<Spanned<Token>>, i: usize) -> (b: bool)
    ensures
        b == (tok(tokens_view(tokens@), i as int) == Some(TokenView::Comma)),
        b ==> i < tokens.len(),
{
    match peek(tokens, i) {
        Some(Token::Comma) => true,
        _ => false,
    }
}

/// Whether the token with index `i` is `{`.
fn at_lbrace(tokens: &Vec<Spanned<Token>>, i: usize) -> (b: bool)
    ensures
        b == (tok(tokens_view(tokens@), i as int) == Some(TokenView::LBrace)),
        b ==> i < tokens.len(),
{
    match peek(tokens, i) {
        Some(Token::LBrace) => true,
        _ => false,
    }
}

/// Whether the token with index `i` is `}`.
fn at_rbrace(tokens: &Vec<Spanned<Token>>, i: usize) -> (b: bool)
    ensures
        b == (tok(tokens_view(tokens@), i as int) == Some(TokenView::RBrace)),
        b ==> i < tokens.len(),
{
    match peek(tokens, i) {
        Some(Token::RBrace) => true,
        _ => false,
    }
}

/// Whether the token with index `i` is `(`.
fn at_lparen(tokens: &Vec<Spanned<Token>>, i: usize) -> (b: bool)
    ensures
        b == (tok(tokens_view(tokens@), i as int) == Some(TokenView::LParen)),
        b ==> i < tokens.len(),
{
    match peek(tokens, i) {
        Some(Token::LParen) => true,
        _ => false,
    }
}

/// Whether the token with index `i` is `)`.
fn at_rparen(tokens: &Vec<Spanned<Token>>, i: usize) -> (b: bool)
    ensures
        b == (tok(tokens_view(tokens@), i as int) == Some(TokenView::RParen)),
        b ==> i < tokens.len(),
{
    match peek(tokens, i) {
        Some(Token::RParen) => true,
        _ => false,
    }
}

/// Whether the token with index `i` is `]`.
fn at_rbracket(tokens: &Vec<Spanned<Token>>, i: usize) -> (b: bool)
    ensures
        b == (tok(tokens_view(tokens@), i as int) == Some(TokenView::RBracket)),
        b ==> i < tokens.len(),
{
    match peek(tokens, i) {
        Some(Token::RBracket) => true,
        _ => false,
    }
}

/// Whether the token with index `i` is `;`.
fn at_semicolon(tokens: &Vec<Spanned<Token>>, i: usize) -> (b: bool)
    ensures
        b == (tok(tokens_view(tokens@), i as int) == Some(TokenView::Semicolon)),
        b ==> i < tokens.len(),
{
    match peek(tokens, i) {
        Some(Token::Semicolon) => true,
        _ => false,
    }
}

/// Whether the token with index `i` is the sign between a name and its
/// type: `=>` in a match, `:` in a struct.
fn at_sign(tokens: &Vec<Spanned<Token>>, i: usize, cases: bool) -> (b: bool)
    ensures
        b == (tok(tokens_view(tokens@), i as int) == Some(item_sign(cases))),
        b ==> i < tokens.len(),
{
    match peek(tokens, i) {
        Some(Token::FatArrow) => cases,
        Some(Token::Colon) => !cases,
        _ => false,
    }
}

/// The sign between a name and its type.
pub open spec fn item_sign(cases: bool) -> TokenView {
    if cases {
        TokenView::FatArrow
    } else {
        TokenView::Colon
    }
}

/// `ident`
pub fn parse_ident(tokens: &Vec<Spanned<Token>>, i: usize, eoi: Span) -> (r: Result<
    (Spanned<String>, usize),
    ParseError,
>)
    ensures
        text_step(r) == p_ident(tokens_view(tokens@), i as int, eoi),
        r matches Ok(v) ==> v.1 == i + 1 && i < tokens.len(),
{
    match peek(tokens, i) {
        Some(Token::Identifier(name)) => Ok(((name.clone(), tokens[i].1), i + 1)),
        _ => Err(unexpected_at(tokens, i, eoi, Expected::Identifier)),
    }
}

/// `("=" integer)?`
pub fn parse_int_default(tokens: &Vec<Spanned<Token>>, i: usize, eoi: Span) -> (r: Result<
    (Option<Spanned<i64>>, usize),
    ParseError,
>)
    requires
        i <= tokens.len(),
    ensures
        opt_int_step(r) == p_int_default(tokens_view(tokens@), i as int, eoi),
        r matches Ok(v) ==> i <= v.1 <= tokens.len(),
{
    if at_equal(tokens, i) {
        match peek(tokens, i + 1) {
            Some(Token::Integer(text)) => {
                let chars = chars_of(text.as_str());
                match parse_i64(&chars) {
                    Some(v) => Ok((Some((v, tokens[i + 1].1)), i + 2)),
                    None => Err(
                        error_at_token(tokens, i + 1, eoi, ParseErrorKind::IntegerOutOfRange),
                    ),
                }
            },
            _ => Err(unexpected_at(tokens, i + 1, eoi, Expected::Integer)),
        }
    } else {
        Ok((None, i))
    }
}

/// `("=" float)?`
pub fn parse_float_default(tokens: &Vec<Spanned<Token>>, i: usize, eoi: Span) -> (r: Result<
    (Option<Spanned<String>>, usize),
    ParseError,
>)
    requires
        i <= tokens.len(),
    ensures
        opt_text_step(r) == p_float_default(tokens_view(tokens@), i as int, eoi),
        r matches Ok(v) ==> i <= v.1 <= tokens.len(),
{
    if at_equal(tokens, i) {
        match peek(tokens, i + 1) {
            Some(Token::Integer(text)) => {
                let chars = chars_of(text.as_str());
                if check_float_text(&chars) {
                    Ok((Some((text.clone(), tokens[i + 1].1)), i + 2))
                } else {
                    Err(error_at_token(tokens, i + 1, eoi, ParseErrorKind::InvalidFloat))
                }
            },
            Some(Token::Float(text)) => {
                let chars = chars_of(text.as_str());
                if check_float_text(&chars) {
                    Ok((Some((text.clone(), tokens[i + 1].1)), i + 2))
                } else {
                    Err(error_at_token(tokens, i + 1, eoi, ParseErrorKind::InvalidFloat))
                }
            },
            _ => Err(unexpected_at(tokens, i + 1, eoi, Expected::Float)),
        }
    } else {
        Ok((None, i))
    }
}

/// `("=" string)?`
pub fn parse_string_default(tokens: &Vec<Spanned<Token>>, i: usize, eoi: Span) -> (r: Result<
    (Option<Spanned<String>>, usize),
    ParseError,
>)
    requires
        i <= tokens.len(),
    ensures
        opt_text_step(r) == p_string_default(tokens_view(tokens@), i as int, eoi),
        r matches Ok(v) ==> i <= v.1 <= tokens.len(),
{
    if at_equal(tokens, i) {
        match peek(tokens, i + 1) {
            Some(Token::StringLiteral(text)) => Ok(
                (Some((text.clone(), tokens[i + 1].1)), i + 2),
            ),
            _ => Err(unexpected_at(tokens, i + 1, eoi, Expected::StringLiteral)),
        }
    } else {
        Ok((None, i))
    }
}

/// `("=" ident)?`
pub fn parse_ident_default(tokens: &Vec<Spanned<Token>>, i: usize, eoi: Span) -> (r: Result<
    (Option<Spanned<String>>, usize),
    ParseError,
>)
    requires
        i <= tokens.len(),
    ensures
        opt_text_step(r) == p_ident_default(tokens_view(tokens@), i as int, eoi),
        r matches Ok(v) ==> i <= v.1 <= tokens.len(),
{
    if at_equal(tokens, i) {
        match peek(tokens, i + 1) {
            Some(Token::Identifier(text)) => Ok((Some((text.clone(), tokens[i + 1].1)), i + 2)),
            _ => Err(unexpected_at(tokens, i + 1, eoi, Expected::Identifier)),
        }
    } else {
        Ok((None, i))
    }
}

/// `integer | ident`, as the length of an array.
pub fn parse_length(tokens: &Vec<Spanned<Token>>, i: usize, eoi: Span) -> (r: Result<
    (Spanned<ArrayLength>, usize),
    ParseError,
>)
    ensures
        length_step(r) == p_length(tokens_view(tokens@), i as int, eoi),
        r matches Ok(v) ==> v.1 == i + 1 && i < tokens.len(),
{
    match peek(tokens, i) {
        Some(Token::Integer(text)) => {
            let chars = chars_of(text.as_str());
            match parse_i64(&chars) {
                Some(v) => Ok(
                    ((ArrayLength::Static { value: wrap_length(v) }, tokens[i].1), i + 1),
                ),
                None => Err(error_at_token(tokens, i, eoi, ParseErrorKind::IntegerOutOfRange)),
            }
        },
        Some(Token::Identifier(field)) => Ok(
            ((ArrayLength::Dynamic { field: field.clone() }, tokens[i].1), i + 1),
        ),
        _ => Err(unexpected_at(tokens, i, eoi, Expected::Length)),
    }
}

/// `ident "(" int_width ")" ("=" ident)?`, the identifier being at index
/// `i` and the token after it `(`.
pub fn parse_enum_type(tokens: &Vec<Spanned<Token>>, i: usize, eoi: Span) -> (r: Result<
    (Spanned<FieldAST>, usize),
    ParseError,
>)
    requires
        i + 1 < tokens.len(),
        tokens[i as int].0 is Identifier,
    ensures
        type_step(r) == p_enum_type(
            tokens_view(tokens@),
            i as int,
            eoi,
            tokens[i as int].0->Identifier_0@,
        ),
        r matches Ok(v) ==> i < v.1 <= tokens.len(),
{
    let name = match &tokens[i].0 {
        Token::Identifier(name) => (name.clone(), tokens[i].1),
        _ => vstd::pervasive::unreached(),
    };
    match peek(tokens, i + 2) {
        Some(Token::IntWidth { signed, width }) => {
            if at_rparen(tokens, i + 3) {
                match parse_ident_default(tokens, i + 4, eoi) {
                    Ok((default, next)) => {
                        let ty = FieldAST::Enum {
                            name,
                            int_span: span_between(tokens, i + 1, i + 4, eoi),
                            signed: *signed,
                            width: *width,
                            default,
                        };
                        Ok(((ty, span_between(tokens, i, next, eoi)), next))
                    },
                    Err(e) => Err(e),
                }
            } else {
                Err(unexpected_at(tokens, i + 3, eoi, Expected::RParen))
            }
        },
        _ => Err(unexpected_at(tokens, i + 2, eoi, Expected::IntType)),
    }
}

/// `int_width ("=" integer)?`, the integer type being at index `i`.
pub fn parse_int_type(
    tokens: &Vec<Spanned<Token>>,
    i: usize,
    eoi: Span,
    signed: bool,
    width: u8,
) -> (r: Result<(Spanned<FieldAST>, usize), ParseError>)
    requires
        i < tokens.len(),
    ensures
        type_step(r) == p_int_type(tokens_view(tokens@), i as int, eoi, signed, width),
        r matches Ok(v) ==> i < v.1 <= tokens.len(),
{
    match parse_int_default(tokens, i + 1, eoi) {
        Ok((default, next)) => {
            let ty = FieldAST::Int { span: tokens[i].1, signed, width, default };
            Ok(((ty, span_between(tokens, i, next, eoi)), next))
        },
        Err(e) => Err(e),
    }
}

/// `("f32"|"f64") ("=" float)?`, the keyword being at index `i`.
pub fn parse_float_type(tokens: &Vec<Spanned<Token>>, i: usize, eoi: Span, single: bool) -> (r:
    Result<(Spanned<FieldAST>, usize), ParseError>)
    requires
        i < tokens.len(),
    ensures
        type_step(r) == p_float_type(tokens_view(tokens@), i as int, eoi, single),
        r matches Ok(v) ==> i < v.1 <= tokens.len(),
{
    match parse_float_default(tokens, i + 1, eoi) {
        Ok((default, next)) => {
            let ty = if single {
                FieldAST::F32 { default }
            } else {
                FieldAST::F64 { default }
            };
            Ok(((ty, span_between(tokens, i, next, eoi)), next))
        },
        Err(e) => Err(e),
    }
}

/// `("CString"|"HebrewString") ("=" string)?`, the keyword being at index
/// `i`.
pub fn parse_string_type(tokens: &Vec<Spanned<Token>>, i: usize, eoi: Span, hebrew: bool) -> (r:
    Result<(Spanned<FieldAST>, usize), ParseError>)
    requires
        i < tokens.len(),
    ensures
        type_step(r) == p_string_type(tokens_view(tokens@), i as int, eoi, hebrew),
        r matches Ok(v) ==> i < v.1 <= tokens.len(),
{
    match parse_string_default(tokens, i + 1, eoi) {
        Ok((default, next)) => {
            let ty = if hebrew {
                FieldAST::HebrewString { default }
            } else {
                FieldAST::CString { default }
            };
            Ok(((ty, span_between(tokens, i, next, eoi)), next))
        },
        Err(e) => Err(e),
    }
}

/// `field_type`
pub fn parse_type(tokens: &Vec<Spanned<Token>>, i: usize, eoi: Span) -> (r: Result<
    (Spanned<FieldAST>, usize),
    ParseError,
>)
    ensures
        type_step(r) == p_type(tokens_view(tokens@), i as int, eoi),
        r matches Ok(v) ==> i < v.1 <= tokens.len(),
    decreases tokens.len() - i, 2nat,
{
    match peek(tokens, i) {
        Some(Token::Match) => parse_match(tokens, i, eoi),
        Some(Token::Identifier(name)) => {
            if at_lparen(tokens, i + 1) {
                parse_enum_type(tokens, i, eoi)
            } else {
                let span = tokens[i].1;
                Ok(((FieldAST::Struct { name: (name.clone(), span) }, span), i + 1))
            }
        },
        Some(Token::IntWidth { signed, width }) => parse_int_type(
            tokens,
            i,
            eoi,
            *signed,
            *width,
        ),
        Some(Token::F32) => parse_float_type(tokens, i, eoi, true),
        Some(Token::F64) => parse_float_type(tokens, i, eoi, false),
        Some(Token::CString) => parse_string_type(tokens, i, eoi, false),
        Some(Token::HebrewString) => parse_string_type(tokens, i, eoi, true),
        Some(Token::LBracket) => parse_array(tokens, i, eoi),
        _ => Err(unexpected_at(tokens, i, eoi, Expected::Type)),
    }
}

/// `"[" field_type ";" (integer | ident) "]"`, the bracket being at index
/// `i`.
pub fn parse_array(tokens: &Vec<Spanned<Token>>, i: usize, eoi: Span) -> (r: Result<
    (Spanned<FieldAST>, usize),
    ParseError,
>)
    requires
        i < tokens.len(),
    ensures
        type_step(r) == p_array(tokens_view(tokens@), i as int, eoi),
        r matches Ok(v) ==> i < v.1 <= tokens.len(),
    decreases tokens.len() - i, 1nat,
{
    match parse_type(tokens, i + 1, eoi) {
        Ok((element, j)) => {
            if at_semicolon(tokens, j) {
                match parse_length(tokens, j + 1, eoi) {
                    Ok((length, k)) => {
                        if at_rbracket(tokens, k) {
                            let ty = FieldAST::Array { element_type: Box::new(element), length };
                            Ok(((ty, span_between(tokens, i, k + 1, eoi)), k + 1))
                        } else {
                            Err(unexpected_at(tokens, k, eoi, Expected::RBracket))
                        }
                    },
                    Err(e) => Err(e),
                }
            } else {
                Err(unexpected_at(tokens, j, eoi, Expected::Semicolon))
            }
        },
        Err(e) => Err(e),
    }
}

/// What is expected where a body neither goes on nor is closed.
fn closing_expected(after_item: bool) -> (e: Expected)
    ensures
        e == if after_item {
            Expected::CommaOrClose
        } else {
            Expected::ItemOrClose
        },
{
    if after_item {
        Expected::CommaOrClose
    } else {
        Expected::ItemOrClose
    }
}

/// `"match" ident "{" (case ("," case)* ","?)? "}"`, the keyword being at
/// index `i`.
pub fn parse_match(tokens: &Vec<Spanned<Token>>, i: usize, eoi: Span) -> (r: Result<
    (Spanned<FieldAST>, usize),
    ParseError,
>)
    requires
        i < tokens.len(),
    ensures
        type_step(r) == p_match(tokens_view(tokens@), i as int, eoi),
        r matches Ok(v) ==> i < v.1 <= tokens.len(),
    decreases tokens.len() - i, 1nat,
{
    match parse_ident(tokens, i + 1, eoi) {
        Ok((discriminant, _)) => {
            if at_lbrace(tokens, i + 2) {
                match parse_items(tokens, i + 3, eoi, true) {
                    Ok(((cases, after_item), j)) => {
                        if at_rbrace(tokens, j) {
                            let cases = (cases, span_between(tokens, i + 2, j + 1, eoi));
                            proof {
                                lemma_match_view(discriminant, cases);
                            }
                            let ty = FieldAST::Match { discriminant, cases };
                            Ok(((ty, span_between(tokens, i, j + 1, eoi)), j + 1))
                        } else {
                            Err(unexpected_at(tokens, j, eoi, closing_expected(after_item)))
                        }
                    },
                    Err(e) => Err(e),
                }
            } else {
                Err(unexpected_at(tokens, i + 2, eoi, Expected::LBrace))
            }
        },
        Err(e) => Err(e),
    }
}

/// `(item ("," item)* ","?)?` with `item := ident sign field_type`: the
/// cases of a match if `cases` is set, else the fields of a struct.
pub fn parse_items(tokens: &Vec<Spanned<Token>>, i: usize, eoi: Span, cases: bool) -> (r: Result<
    ((Vec<FieldEntry>, bool), usize),
    ParseError,
>)
    requires
        i <= tokens.len(),
    ensures
        items_step(r) == p_items(
            tokens_view(tokens@),
            i as int,
            eoi,
            item_sign(cases),
            Seq::empty(),
        ),
        r matches Ok(v) ==> i <= v.1 <= tokens.len(),
    decreases tokens.len() - i, 0nat,
{
    let ghost ts = tokens_view(tokens@);
    let ghost sign = item_sign(cases);
    let mut items: Vec<FieldEntry> = Vec::new();
    let mut at: usize = i;
    assert(field_entries_view(items@) =~= Seq::<FieldEntryView>::empty());
    loop
        invariant
            i <= at <= tokens.len(),
            ts == tokens_view(tokens@),
            sign == item_sign(cases),
            p_items(ts, at as int, eoi, sign, field_entries_view(items@)) == p_items(
                ts,
                i as int,
                eoi,
                sign,
                Seq::empty(),
            ),
        decreases tokens.len() - at,
    {
        match peek(tokens, at) {
            Some(Token::Identifier(name)) => {
                if !at_sign(tokens, at + 1, cases) {
                    return Err(
                        unexpected_at(
                            tokens,
                            at + 1,
                            eoi,
                            if cases {
                                Expected::FatArrow
                            } else {
                                Expected::Colon
                            },
                        ),
                    );
                }
                match parse_type(tokens, at + 2, eoi) {
                    Ok((ty, j)) => {
                        let entry: FieldEntry = (
                            ((name.clone(), tokens[at].1), ty),
                            span_between(tokens, at, j, eoi),
                        );
                        let ghost before = items@;
                        items.push(entry);
                        assert(field_entries_view(items@) =~= field_entries_view(before).push(
                            field_entry_view(entry),
                        ));
                        if at_comma(tokens, j) {
                            at = j + 1;
                        } else {
                            return Ok(((items, true), j));
                        }
                    },
                    Err(e) => {
                        return Err(e);
                    },
                }
            },
            _ => {
                return Ok(((items, false), at));
            },
        }
    }
}

/// `(entry ("," entry)* ","?)?` with `entry := ident "=" integer`.
pub fn parse_entries(tokens: &Vec<Spanned<Token>>, i: usize, eoi: Span) -> (r: Result<
    ((Vec<EnumEntry>, bool), usize),
    ParseError,
>)
    requires
        i <= tokens.len(),
    ensures
        entries_step(r) == p_entries(tokens_view(tokens@), i as int, eoi, Seq::empty()),
        r matches Ok(v) ==> i <= v.1 <= tokens.len(),
{
    let ghost ts = tokens_view(tokens@);
    let mut entries: Vec<EnumEntry> = Vec::new();
    let mut at: usize = i;
    assert(enum_entries_view(entries@) =~= Seq::<EnumEntryView>::empty());
    loop
        invariant
            i <= at <= tokens.len(),
            ts == tokens_view(tokens@),
            p_entries(ts, at as int, eoi, enum_entries_view(entries@)) == p_entries(
                ts,
                i as int,
                eoi,
                Seq::empty(),
            ),
        decreases tokens.len() - at,
    {
        match peek(tokens, at) {
            Some(Token::Identifier(name)) => {
                if !at_equal(tokens, at + 1) {
                    return Err(unexpected_at(tokens, at + 1, eoi, Expected::Equal));
                }
                match peek(tokens, at + 2) {
                    Some(Token::Integer(text)) => {
                        let chars = chars_of(text.as_str());
                        match parse_i64(&chars) {
                            Some(v) => {
                                let entry: EnumEntry = (
                                    ((name.clone(), tokens[at].1), (v, tokens[at + 2].1)),
                                    span_between(tokens, at, at + 3, eoi),
                                );
                                let ghost before = entries@;
                                entries.push(entry);
                                assert(enum_entries_view(entries@) =~= enum_entries_view(
                                    before,
                                ).push(enum_entry_view(entry)));
                                if at_comma(tokens, at + 3) {
                                    at = at + 4;
                                } else {
                                    return Ok(((entries, true), at + 3));
                                }
                            },
                            None => {
                                return Err(
                                    error_at_token(
                                        tokens,
                                        at + 2,
                                        eoi,
                                        ParseErrorKind::IntegerOutOfRange,
                                    ),
                                );
                            },
                        }
                    },
                    _ => {
                        return Err(unexpected_at(tokens, at + 2, eoi, Expected::Integer));
                    },
                }
            },
            _ => {
                return Ok(((entries, false), at));
            },
        }
    }
}

/// The delimiter that closes what `t` opens.
fn opener(t: &Token) -> (r: Option<Delim>)
    ensures
        r == opens(t@),
{
    match t {
        Token::LBrace => Some(Delim::Brace),
        Token::LParen => Some(Delim::Paren),
        Token::LBracket => Some(Delim::Bracket),
        _ => None,
    }
}

/// The delimiter that `t` is, if it closes one.
fn closer(t: &Token) -> (r: Option<Delim>)
    ensures
        r == closes(t@),
{
    match t {
        Token::RBrace => Some(Delim::Brace),
        Token::RParen => Some(Delim::Paren),
        Token::RBracket => Some(Delim::Bracket),
        _ => None,
    }
}

/// The index of the brace that closes a body whose first token has index
/// `i`, nested delimiters counted. Nothing where they do not balance.
pub fn find_close(tokens: &Vec<Spanned<Token>>, i: usize) -> (r: Option<usize>)
    requires
        i <= tokens.len(),
    ensures
        match r {
            Some(c) => matching_close(tokens_view(tokens@), i as int, seq![Delim::Brace])
                == Some(c as int) && i <= c < tokens.len(),
            None => matching_close(tokens_view(tokens@), i as int, seq![Delim::Brace]) is None,
        },
{
    let ghost ts = tokens_view(tokens@);
    let mut open: Vec<Delim> = Vec::new();
    open.push(Delim::Brace);
    assert(open@ =~= seq![Delim::Brace]);
    let mut at: usize = i;
    loop
        invariant
            i <= at <= tokens.len(),
            open.len() > 0,
            ts == tokens_view(tokens@),
            matching_close(ts, at as int, open@) == matching_close(
                ts,
                i as int,
                seq![Delim::Brace],
            ),
        decreases tokens.len() - at,
    {
        if at >= tokens.len() {
            return None;
        }
        let t = &tokens[at].0;
        match opener(t) {
            Some(d) => {
                open.push(d);
                at += 1;
            },
            None => match closer(t) {
                Some(d) => {
                    if d != open[open.len() - 1] {
                        return None;
                    } else if open.len() == 1 {
                        return Some(at);
                    } else {
                        open.pop();
                        at += 1;
                    }
                },
                None => {
                    at += 1;
                },
            },
        }
    }
}

/// The index of the first `struct` or `enum` at or after `i`, or the number
/// of tokens if there is none.
pub fn skip_to_definition(tokens: &Vec<Spanned<Token>>, i: usize) -> (r: usize)
    requires
        i <= tokens.len(),
    ensures
        r == next_definition(tokens_view(tokens@), i as int),
        i <= r <= tokens.len(),
{
    let ghost ts = tokens_view(tokens@);
    let mut at: usize = i;
    loop
        invariant
            i <= at <= tokens.len(),
            ts == tokens_view(tokens@),
            next_definition(ts, at as int) == next_definition(ts, i as int),
        decreases tokens.len() - at,
    {
        match peek(tokens, at) {
            Some(Token::Struct) => {
                return at;
            },
            Some(Token::Enum) => {
                return at;
            },
            Some(_) => {
                at += 1;
            },
            None => {
                return at;
            },
        }
    }
}

/// What reading one definition gave: the definition unless something was
/// wrong, the errors, and the index at which to go on.
pub struct Parsed {
    pub def: Option<DefinitionAST>,
    pub errors: Vec<ParseError>,
    pub next: usize,
}

impl View for Parsed {
    type V = DefStep;

    open spec fn view(&self) -> DefStep {
        DefStep {
            def: match self.def {
                Some(d) => Some(d@),
                None => None,
            },
            errors: errors_view(self.errors@),
            next: self.next as int,
        }
    }
}

/// One error and where to go on.
fn failed(error: ParseError, next: usize) -> (r: Parsed)
    ensures
        r@ == (DefStep { def: None, errors: seq![error@], next: next as int }),
{
    let mut errors: Vec<ParseError> = Vec::new();
    errors.push(error);
    let r = Parsed { def: None, errors, next };
    assert(r@.errors =~= seq![error@]);
    r
}

/// What becomes of a definition that started at index `start` and whose
/// body, opened at index `open`, is malformed, `first` being the error.
pub fn recover_body(
    tokens: &Vec<Spanned<Token>>,
    start: usize,
    open: usize,
    eoi: Span,
    first: ParseError,
) -> (r: Parsed)
    requires
        start < open < tokens.len(),
    ensures
        r@ == recover(tokens_view(tokens@), start as int, open as int, eoi, first@),
        start < r.next <= tokens.len(),
{
    match find_close(tokens, open + 1) {
        Some(close) => failed(first, close + 1),
        None => {
            let next = skip_to_definition(tokens, open + 1);
            let mut errors: Vec<ParseError> = Vec::new();
            errors.push(first);
            let unclosed = ParseError {
                kind: ParseErrorKind::UnclosedBody,
                span: span_between(tokens, start, next, eoi),
                found: None,
            };
            errors.push(unclosed);
            let r = Parsed { def: None, errors, next };
            assert(r@.errors =~= seq![first@, unclosed@]);
            r
        },
    }
}

/// `"struct" ident "{" (field ("," field)* ","?)? "}"`, the keyword being
/// at index `i`.
pub fn parse_struct(tokens: &Vec<Spanned<Token>>, i: usize, eoi: Span) -> (r: Parsed)
    requires
        i < tokens.len(),
    ensures
        r@ == p_struct(tokens_view(tokens@), i as int, eoi),
        i < r.next <= tokens.len(),
{
    match parse_ident(tokens, i + 1, eoi) {
        Ok((name, _)) => {
            if at_lbrace(tokens, i + 2) {
                match parse_items(tokens, i + 3, eoi, false) {
                    Ok(((fields, after_item), j)) => {
                        if at_rbrace(tokens, j) {
                            let def = DefinitionAST::Struct {
                                name,
                                fields: (fields, span_between(tokens, i + 3, j, eoi)),
                            };
                            let r = Parsed { def: Some(def), errors: Vec::new(), next: j + 1 };
                            assert(r@.errors =~= Seq::<ParseErrorView>::empty());
                            r
                        } else {
                            let e = unexpected_at(tokens, j, eoi, closing_expected(after_item));
                            recover_body(tokens, i, i + 2, eoi, e)
                        }
                    },
                    Err(e) => recover_body(tokens, i, i + 2, eoi, e),
                }
            } else {
                let e = unexpected_at(tokens, i + 2, eoi, Expected::LBrace);
                failed(e, skip_to_definition(tokens, i + 2))
            }
        },
        Err(e) => failed(e, skip_to_definition(tokens, i + 1)),
    }
}

/// `"enum" ident "{" (entry ("," entry)* ","?)? "}"`, the keyword being at
/// index `i`.
pub fn parse_enum(tokens: &Vec<Spanned<Token>>, i: usize, eoi: Span) -> (r: Parsed)
    requires
        i < tokens.len(),
    ensures
        r@ == p_enum(tokens_view(tokens@), i as int, eoi),
        i < r.next <= tokens.len(),
{
    match parse_ident(tokens, i + 1, eoi) {
        Ok((name, _)) => {
            if at_lbrace(tokens, i + 2) {
                match parse_entries(tokens, i + 3, eoi) {
                    Ok(((entries, after_item), j)) => {
                        if at_rbrace(tokens, j) {
                            let def = DefinitionAST::Enum {
                                name,
                                entries: (entries, span_between(tokens, i + 2, j + 1, eoi)),
                            };
                            let r = Parsed { def: Some(def), errors: Vec::new(), next: j + 1 };
                            assert(r@.errors =~= Seq::<ParseErrorView>::empty());
                            r
                        } else {
                            let e = unexpected_at(tokens, j, eoi, closing_expected(after_item));
                            recover_body(tokens, i, i + 2, eoi, e)
                        }
                    },
                    Err(e) => recover_body(tokens, i, i + 2, eoi, e),
                }
            } else {
                let e = unexpected_at(tokens, i + 2, eoi, Expected::LBrace);
                failed(e, skip_to_definition(tokens, i + 2))
            }
        },
        Err(e) => failed(e, skip_to_definition(tokens, i + 1)),
    }
}

/// What parsing gave, in the terms of the grammar.
pub open spec fn parse_result_view(r: Result<DefinitionMap, Vec<ParseError>>) -> Result<
    DefsView,
    Seq<ParseErrorView>,
> {
    match r {
        Ok(m) => Ok(m@),
        Err(es) => Err(errors_view(es@)),
    }
}

/// Adds what one definition gave to what was gathered before.
fn gather(defs: &mut DefinitionMap, errors: &mut Vec<ParseError>, step: Parsed)
    requires
        old(defs).wf(),
    ensures
        final(defs).wf(),
        (Program { defs: final(defs)@, errors: errors_view(final(errors)@) }) == with_step(
            Program { defs: old(defs)@, errors: errors_view(old(errors)@) },
            step@,
        ),
{
    let Parsed { def, errors: mut more, next: _ } = step;
    let ghost before = errors@;
    let ghost added = more@;
    errors.append(&mut more);
    assert(errors_view(errors@) =~= errors_view(before) + errors_view(added));
    match def {
        Some(d) => {
            let name = String::from_str(d.name());
            defs.insert(name, d);
        },
        None => {},
    }
}

/// Parses a whole token stream. `end` is the length of the source text in
/// bytes: errors at the end of the text are located there.
///
/// Gives the definitions if there was no error, else all the errors in the
/// order in which they were found. A name that is defined twice keeps the
/// later definition.
pub fn parse(tokens: &Vec<Spanned<Token>>, end: usize) -> (r: Result<
    DefinitionMap,
    Vec<ParseError>,
>)
    ensures
        parse_result_view(r) == parse_spec(tokens_view(tokens@), Span { start: end, end: end }),
        r matches Ok(m) ==> m.wf(),
{
    let eoi = Span { start: end, end };
    let ghost ts = tokens_view(tokens@);
    let mut defs = DefinitionMap::new();
    let mut errors: Vec<ParseError> = Vec::new();
    let mut at: usize = 0;
    assert(errors_view(errors@) =~= Seq::<ParseErrorView>::empty());
    while at < tokens.len()
        invariant
            at <= tokens.len(),
            defs.wf(),
            ts == tokens_view(tokens@),
            p_program(
                ts,
                at as int,
                eoi,
                Program { defs: defs@, errors: errors_view(errors@) },
            ) == p_program(
                ts,
                0,
                eoi,
                Program { defs: Seq::empty(), errors: Seq::empty() },
            ),
        decreases tokens.len() - at,
    {
        match &tokens[at].0 {
            Token::Struct => {
                let step = parse_struct(tokens, at, eoi);
                at = step.next;
                gather(&mut defs, &mut errors, step);
            },
            Token::Enum => {
                let step = parse_enum(tokens, at, eoi);
                at = step.next;
                gather(&mut defs, &mut errors, step);
            },
            _ => {
                let e = unexpected_at(tokens, at, eoi, Expected::Definition);
                let ghost before = errors@;
                errors.push(e);
                assert(errors_view(errors@) =~= errors_view(before).push(e@));
                at = skip_to_definition(tokens, at + 1);
            },
        }
    }
    if errors.len() == 0 {
        Ok(defs)
    } else {
        Err(errors)
    }
}

} // verus!

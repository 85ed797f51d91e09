//! The language as a set: which runs of tokens are a field type, a
//! definition, a program. The parser accepts these and nothing else.

use vstd::prelude::*;
use crate::grammar::{
    p_entries, p_enum, p_items, p_program, p_struct, p_type, parse_spec, tok, with_step, Program,
    Step, Toks,
};
use crate::literal::{i64_literal, is_float_text};
use crate::span::Span;
use crate::syntax::{EnumEntryView, FieldEntryView};
use crate::token::TokenView;

verus! {

/// Whether the token is an integer literal that fits 64 bits.
pub open spec fn is_integer(t: TokenView) -> bool {
    t matches TokenView::Integer(text) && i64_literal(text) is Some
}

/// Whether the token is a literal that can stand for a float.
pub open spec fn is_float(t: TokenView) -> bool {
    ||| t matches TokenView::Integer(text) && is_float_text(text)
    ||| t matches TokenView::Float(text) && is_float_text(text)
}

/// `("=" integer)?` in the tokens `i..j`.
pub open spec fn g_int_default(ts: Toks, i: int, j: int) -> bool {
    i == j || (j == i + 2 && 0 <= i && j <= ts.len() && ts[i].0 == TokenView::Equal
        && is_integer(ts[i + 1].0))
}

/// `("=" float)?` in the tokens `i..j`.
pub open spec fn g_float_default(ts: Toks, i: int, j: int) -> bool {
    i == j || (j == i + 2 && 0 <= i && j <= ts.len() && ts[i].0 == TokenView::Equal && is_float(
        ts[i + 1].0,
    ))
}

/// `("=" string)?` in the tokens `i..j`.
pub open spec fn g_string_default(ts: Toks, i: int, j: int) -> bool {
    i == j || (j == i + 2 && 0 <= i && j <= ts.len() && ts[i].0 == TokenView::Equal
        && ts[i + 1].0 is StringLiteral)
}

/// `("=" ident)?` in the tokens `i..j`.
pub open spec fn g_ident_default(ts: Toks, i: int, j: int) -> bool {
    i == j || (j == i + 2 && 0 <= i && j <= ts.len() && ts[i].0 == TokenView::Equal
        && ts[i + 1].0 is Identifier)
}

/// A place between two tokens at which a run of tokens is cut in two.
pub open spec fn cut(m: int) -> bool {
    true
}

/// Whether the tokens `i..j` are a field type: a struct by its name; an
/// integer, float or string type with its default, if any; an enum type; an
/// array of a field type; or a match with its cases.
pub open spec fn g_type(ts: Toks, i: int, j: int) -> bool
    decreases j - i, 1nat,
{
    &&& 0 <= i < j <= ts.len()
    &&& {
        ||| j == i + 1 && ts[i].0 is Identifier
        ||| ts[i].0 is IntWidth && g_int_default(ts, i + 1, j)
        ||| (ts[i].0 == TokenView::F32 || ts[i].0 == TokenView::F64) && g_float_default(
            ts,
            i + 1,
            j,
        )
        ||| (ts[i].0 == TokenView::CString || ts[i].0 == TokenView::HebrewString)
            && g_string_default(ts, i + 1, j)
        ||| j >= i + 4 && ts[i].0 is Identifier && ts[i + 1].0 == TokenView::LParen && ts[i
            + 2].0 is IntWidth && ts[i + 3].0 == TokenView::RParen && g_ident_default(ts, i + 4, j)
        ||| j >= i + 5 && ts[i].0 == TokenView::LBracket && g_type(ts, i + 1, j - 3) && ts[j
            - 3].0 == TokenView::Semicolon && (is_integer(ts[j - 2].0) || ts[j
            - 2].0 is Identifier) && ts[j - 1].0 == TokenView::RBracket
        ||| j >= i + 4 && ts[i].0 == TokenView::Match && ts[i + 1].0 is Identifier && ts[i
            + 2].0 == TokenView::LBrace && g_items(ts, i + 3, j - 1, TokenView::FatArrow) && ts[j
            - 1].0 == TokenView::RBrace
    }
}

/// Whether the tokens `i..j` are items with commas between them, and
/// possibly one behind the last: `(item ("," item)* ","?)?`, an item being
/// a name, the sign and a field type.
pub open spec fn g_items(ts: Toks, i: int, j: int, sign: TokenView) -> bool
    decreases j - i, 1nat,
{
    i == j || exists|m: int| #[trigger] cut(m) && g_items_split(ts, i, m, j, sign)
}

/// Whether the tokens `i..m` are an item and the tokens `m..j` the rest of
/// the items: nothing, or a comma and items.
pub open spec fn g_items_split(ts: Toks, i: int, m: int, j: int, sign: TokenView) -> bool
    decreases j - i, 0nat,
{
    &&& 0 <= i
    &&& i + 2 < m <= j <= ts.len()
    &&& ts[i].0 is Identifier
    &&& ts[i + 1].0 == sign
    &&& g_type(ts, i + 2, m)
    &&& (m == j || (ts[m].0 == TokenView::Comma && g_items(ts, m + 1, j, sign)))
}

/// Whether the tokens `i..j` are enum entries with commas between them, and
/// possibly one behind the last, an entry being a label, `=` and an integer.
pub open spec fn g_entries(ts: Toks, i: int, j: int) -> bool
    decreases j - i,
{
    i == j || (0 <= i && i + 3 <= j <= ts.len() && ts[i].0 is Identifier && ts[i + 1].0
        == TokenView::Equal && is_integer(ts[i + 2].0) && (i + 3 == j || (ts[i + 3].0
        == TokenView::Comma && g_entries(ts, i + 4, j))))
}

/// Whether the tokens `i..j` are a struct definition.
pub open spec fn g_struct(ts: Toks, i: int, j: int) -> bool {
    0 <= i && i + 4 <= j <= ts.len() && ts[i].0 == TokenView::Struct && ts[i + 1].0 is Identifier
        && ts[i + 2].0 == TokenView::LBrace && g_items(ts, i + 3, j - 1, TokenView::Colon) && ts[j
        - 1].0 == TokenView::RBrace
}

/// Whether the tokens `i..j` are an enum definition.
pub open spec fn g_enum(ts: Toks, i: int, j: int) -> bool {
    0 <= i && i + 4 <= j <= ts.len() && ts[i].0 == TokenView::Enum && ts[i + 1].0 is Identifier
        && ts[i + 2].0 == TokenView::LBrace && g_entries(ts, i + 3, j - 1) && ts[j - 1].0
        == TokenView::RBrace
}

/// Whether the tokens from `i` on are a program: definitions up to the last
/// token.
pub open spec fn g_program(ts: Toks, i: int) -> bool
    decreases ts.len() - i, 1nat,
{
    i == ts.len() || exists|m: int| #[trigger] cut(m) && g_program_split(ts, i, m)
}

/// Whether the tokens `i..m` are a definition and the tokens from `m` on a
/// program.
pub open spec fn g_program_split(ts: Toks, i: int, m: int) -> bool
    decreases ts.len() - i, 0nat,
{
    &&& 0 <= i < m <= ts.len()
    &&& (g_struct(ts, i, m) || g_enum(ts, i, m))
    &&& g_program(ts, m)
}

/// What the parser reads as a field type is one.
pub proof fn lemma_type_sound(ts: Toks, i: int, eoi: Span)
    ensures
        p_type(ts, i, eoi) matches Step::Done { next, .. } ==> g_type(ts, i, next),
    decreases ts.len() - i, 2nat,
{
    if 0 <= i < ts.len() {
        match ts[i].0 {
            TokenView::Match => {
                if tok(ts, i + 2) == Some(TokenView::LBrace) {
                    lemma_items_sound(ts, i + 3, eoi, TokenView::FatArrow, Seq::empty());
                }
            },
            TokenView::LBracket => {
                lemma_type_sound(ts, i + 1, eoi);
            },
            _ => {},
        }
    }
}

/// What the parser reads as the items of a body are items.
pub proof fn lemma_items_sound(
    ts: Toks,
    i: int,
    eoi: Span,
    sign: TokenView,
    acc: Seq<FieldEntryView>,
)
    requires
        0 <= i <= ts.len(),
    ensures
        p_items(ts, i, eoi, sign, acc) matches Step::Done { next, .. } ==> g_items(
            ts,
            i,
            next,
            sign,
        ),
    decreases ts.len() - i, 0nat,
{
    match tok(ts, i) {
        Some(TokenView::Identifier(name)) => {
            if tok(ts, i + 1) == Some(sign) {
                lemma_type_sound(ts, i + 2, eoi);
                match p_type(ts, i + 2, eoi) {
                    Step::Done { value: ty, next: j } => {
                        let item = (
                            ((name, ts[i].1), ty),
                            crate::grammar::range_span(ts, i, j, eoi),
                        );
                        crate::grammar::lemma_type_progress(ts, i + 2, eoi);
                        assert(g_type(ts, i + 2, j));
                        if i < j < ts.len() && ts[j].0 == TokenView::Comma {
                            lemma_items_sound(ts, j + 1, eoi, sign, acc.push(item));
                            crate::grammar::lemma_items_progress(
                                ts,
                                j + 1,
                                eoi,
                                sign,
                                acc.push(item),
                            );
                            match p_items(ts, j + 1, eoi, sign, acc.push(item)) {
                                Step::Done { value, next } => {
                                    assert(cut(j) && g_items_split(ts, i, j, next, sign));
                                },
                                Step::Fail { .. } => {},
                            }
                        } else {
                            assert(cut(j) && g_items_split(ts, i, j, j, sign));
                        }
                    },
                    Step::Fail { .. } => {},
                }
            }
        },
        _ => {},
    }
}

/// What the parser reads as the entries of an enum are entries.
pub proof fn lemma_entries_sound(ts: Toks, i: int, eoi: Span, acc: Seq<EnumEntryView>)
    requires
        0 <= i <= ts.len(),
    ensures
        p_entries(ts, i, eoi, acc) matches Step::Done { next, .. } ==> g_entries(ts, i, next),
    decreases ts.len() - i,
{
    match tok(ts, i) {
        Some(TokenView::Identifier(name)) => {
            if tok(ts, i + 1) == Some(TokenView::Equal) {
                match tok(ts, i + 2) {
                    Some(TokenView::Integer(t)) => match i64_literal(t) {
                        Some(v) => {
                            let entry = (
                                ((name, ts[i].1), (v, ts[i + 2].1)),
                                crate::grammar::range_span(ts, i, i + 3, eoi),
                            );
                            if tok(ts, i + 3) == Some(TokenView::Comma) {
                                lemma_entries_sound(ts, i + 4, eoi, acc.push(entry));
                            }
                        },
                        None => {},
                    },
                    _ => {},
                }
            }
        },
        _ => {},
    }
}

/// A definition that the parser reads without an error is one.
pub proof fn lemma_definition_sound(ts: Toks, i: int, eoi: Span)
    requires
        0 <= i < ts.len(),
    ensures
        ts[i].0 == TokenView::Struct && p_struct(ts, i, eoi).errors.len() == 0 ==> g_struct(
            ts,
            i,
            p_struct(ts, i, eoi).next,
        ) && p_struct(ts, i, eoi).def is Some,
        ts[i].0 == TokenView::Enum && p_enum(ts, i, eoi).errors.len() == 0 ==> g_enum(
            ts,
            i,
            p_enum(ts, i, eoi).next,
        ) && p_enum(ts, i, eoi).def is Some,
{
    if tok(ts, i + 2) == Some(TokenView::LBrace) {
        lemma_items_sound(ts, i + 3, eoi, TokenView::Colon, Seq::empty());
        lemma_entries_sound(ts, i + 3, eoi, Seq::empty());
        crate::grammar::lemma_items_progress(ts, i + 3, eoi, TokenView::Colon, Seq::empty());
        crate::grammar::lemma_entries_progress(ts, i + 3, eoi, Seq::empty());
    }
}

/// The parser only adds to the errors.
pub proof fn lemma_errors_grow(ts: Toks, i: int, eoi: Span, acc: Program)
    ensures
        p_program(ts, i, eoi, acc).errors.len() >= acc.errors.len(),
    decreases ts.len() - i,
{
    if 0 <= i < ts.len() {
        if ts[i].0 == TokenView::Struct {
            let step = p_struct(ts, i, eoi);
            if i < step.next <= ts.len() {
                lemma_errors_grow(ts, step.next, eoi, with_step(acc, step));
            }
        } else if ts[i].0 == TokenView::Enum {
            let step = p_enum(ts, i, eoi);
            if i < step.next <= ts.len() {
                lemma_errors_grow(ts, step.next, eoi, with_step(acc, step));
            }
        } else {
            let next = crate::grammar::next_definition(ts, i + 1);
            let errors = acc.errors.push(
                crate::grammar::unexpected(ts, i, eoi, crate::grammar::Expected::Definition),
            );
            if i < next <= ts.len() {
                lemma_errors_grow(ts, next, eoi, Program { defs: acc.defs, errors });
            }
        }
    }
}

/// Tokens that the parser reads to their end without an error are a
/// program.
pub proof fn lemma_program_sound(ts: Toks, i: int, eoi: Span, acc: Program)
    requires
        0 <= i <= ts.len(),
        p_program(ts, i, eoi, acc).errors.len() == 0,
    ensures
        g_program(ts, i),
    decreases ts.len() - i,
{
    if i < ts.len() {
        crate::grammar::lemma_definition_progress(ts, i, eoi);
        lemma_definition_sound(ts, i, eoi);
        if ts[i].0 == TokenView::Struct {
            let step = p_struct(ts, i, eoi);
            lemma_errors_grow(ts, step.next, eoi, with_step(acc, step));
            assert(with_step(acc, step).errors.len() == acc.errors.len() + step.errors.len());
            assert(step.errors.len() == 0);
            lemma_program_sound(ts, step.next, eoi, with_step(acc, step));
            assert(cut(step.next) && g_program_split(ts, i, step.next));
        } else if ts[i].0 == TokenView::Enum {
            let step = p_enum(ts, i, eoi);
            lemma_errors_grow(ts, step.next, eoi, with_step(acc, step));
            assert(with_step(acc, step).errors.len() == acc.errors.len() + step.errors.len());
            assert(step.errors.len() == 0);
            lemma_program_sound(ts, step.next, eoi, with_step(acc, step));
            assert(cut(step.next) && g_program_split(ts, i, step.next));
        } else {
            let next = crate::grammar::next_definition(ts, i + 1);
            let errors = acc.errors.push(
                crate::grammar::unexpected(ts, i, eoi, crate::grammar::Expected::Definition),
            );
            crate::grammar::lemma_next_definition_bounds(ts, i + 1);
            lemma_errors_grow(ts, next, eoi, Program { defs: acc.defs, errors });
        }
    }
}

/// The parser accepts nothing but programs: tokens for which it gives
/// definitions are definitions from the first token to the last.
pub proof fn lemma_parse_sound(ts: Toks, eoi: Span)
    requires
        parse_spec(ts, eoi) is Ok,
    ensures
        g_program(ts, 0),
{
    lemma_program_sound(ts, 0, eoi, Program { defs: Seq::empty(), errors: Seq::empty() });
}

/// Whether the token with index `j` can stand behind a field type: it is
/// none that would make the type go on.
pub open spec fn ends_type(ts: Toks, j: int) -> bool {
    tok(ts, j) != Some(TokenView::Equal) && tok(ts, j) != Some(TokenView::LParen)
}

/// The parser reads every field type to its end, where what follows does
/// not make the type go on.
pub proof fn lemma_type_complete(ts: Toks, i: int, j: int, eoi: Span)
    requires
        g_type(ts, i, j),
        ends_type(ts, j),
    ensures
        p_type(ts, i, eoi) matches Step::Done { next, .. } && next == j,
    decreases j - i, 1nat,
{
    if ts[i].0 == TokenView::LBracket {
        lemma_type_complete(ts, i + 1, j - 3, eoi);
    } else if ts[i].0 == TokenView::Match {
        lemma_items_complete(ts, i + 3, j - 1, eoi, TokenView::FatArrow, Seq::empty());
    }
}

/// The parser reads the items of a body up to the brace that closes it.
pub proof fn lemma_items_complete(
    ts: Toks,
    i: int,
    j: int,
    eoi: Span,
    sign: TokenView,
    acc: Seq<FieldEntryView>,
)
    requires
        0 <= i <= j < ts.len(),
        g_items(ts, i, j, sign),
        ts[j].0 == TokenView::RBrace,
    ensures
        p_items(ts, i, eoi, sign, acc) matches Step::Done { next, .. } && next == j,
    decreases j - i, 0nat,
{
    if i != j {
        let m = choose|m: int| #[trigger] cut(m) && g_items_split(ts, i, m, j, sign);
        lemma_type_complete(ts, i + 2, m, eoi);
        match p_type(ts, i + 2, eoi) {
            Step::Done { value: ty, next } => {
                let name = ts[i].0->Identifier_0;
                let item = (((name, ts[i].1), ty), crate::grammar::range_span(ts, i, m, eoi));
                if m < j {
                    lemma_items_complete(ts, m + 1, j, eoi, sign, acc.push(item));
                }
            },
            Step::Fail { .. } => {},
        }
    }
}

/// The parser reads the entries of an enum up to the brace that closes it.
pub proof fn lemma_entries_complete(
    ts: Toks,
    i: int,
    j: int,
    eoi: Span,
    acc: Seq<EnumEntryView>,
)
    requires
        0 <= i <= j < ts.len(),
        g_entries(ts, i, j),
        ts[j].0 == TokenView::RBrace,
    ensures
        p_entries(ts, i, eoi, acc) matches Step::Done { next, .. } && next == j,
    decreases j - i,
{
    if i != j {
        let name = ts[i].0->Identifier_0;
        let text = ts[i + 2].0->Integer_0;
        let v = i64_literal(text)->0;
        let entry = (
            ((name, ts[i].1), (v, ts[i + 2].1)),
            crate::grammar::range_span(ts, i, i + 3, eoi),
        );
        if i + 3 < j {
            lemma_entries_complete(ts, i + 4, j, eoi, acc.push(entry));
        }
    }
}

/// The parser reads every definition without an error, to its end.
pub proof fn lemma_definition_complete(ts: Toks, i: int, j: int, eoi: Span)
    ensures
        g_struct(ts, i, j) ==> p_struct(ts, i, eoi).errors.len() == 0 && p_struct(
            ts,
            i,
            eoi,
        ).next == j,
        g_enum(ts, i, j) ==> p_enum(ts, i, eoi).errors.len() == 0 && p_enum(ts, i, eoi).next
            == j,
{
    if g_struct(ts, i, j) {
        lemma_items_complete(ts, i + 3, j - 1, eoi, TokenView::Colon, Seq::empty());
    }
    if g_enum(ts, i, j) {
        lemma_entries_complete(ts, i + 3, j - 1, eoi, Seq::empty());
    }
}

/// The parser reads every program without adding an error.
pub proof fn lemma_program_complete(ts: Toks, i: int, eoi: Span, acc: Program)
    requires
        0 <= i <= ts.len(),
        g_program(ts, i),
    ensures
        p_program(ts, i, eoi, acc).errors == acc.errors,
    decreases ts.len() - i,
{
    if i != ts.len() {
        let m = choose|m: int| #[trigger] cut(m) && g_program_split(ts, i, m);
        lemma_definition_complete(ts, i, m, eoi);
        if ts[i].0 == TokenView::Struct {
            let step = p_struct(ts, i, eoi);
            assert(acc.errors + step.errors =~= acc.errors);
            lemma_program_complete(ts, m, eoi, with_step(acc, step));
        } else {
            let step = p_enum(ts, i, eoi);
            assert(acc.errors + step.errors =~= acc.errors);
            lemma_program_complete(ts, m, eoi, with_step(acc, step));
        }
    }
}

/// The parser accepts every program.
pub proof fn lemma_parse_complete(ts: Toks, eoi: Span)
    requires
        g_program(ts, 0),
    ensures
        parse_spec(ts, eoi) is Ok,
{
    lemma_program_complete(ts, 0, eoi, Program { defs: Seq::empty(), errors: Seq::empty() });
}

/// The parser gives definitions for exactly the token streams that are
/// programs.
pub proof fn lemma_parse_accepts_the_language(ts: Toks, eoi: Span)
    ensures
        parse_spec(ts, eoi) is Ok <==> g_program(ts, 0),
{
    if parse_spec(ts, eoi) is Ok {
        lemma_parse_sound(ts, eoi);
    }
    if g_program(ts, 0) {
        lemma_parse_complete(ts, eoi);
    }
}

} // verus!

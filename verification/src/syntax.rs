//! The syntax tree: what the parser builds and the checks read.
//!
//! Every node carries the span of the source text it was read from. Each
//! type has a view that replaces strings by character sequences and vectors
//! by sequences; the contracts of the later passes speak of the views.

use vstd::prelude::*;
use crate::span::{Span, Spanned};

verus! {

/// The length of an array: fixed, or held at run time by the integer field
/// of the same record that is named here.
#[derive(Debug, Clone)]
pub enum ArrayLength {
    Static { value: u32 },
    Dynamic { field: String },
}

/// The view of an [`ArrayLength`].
pub enum ArrayLengthView {
    Static { value: u32 },
    Dynamic { field: Seq<char> },
}

impl View for ArrayLength {
    type V = ArrayLengthView;

    open spec fn view(&self) -> ArrayLengthView {
        match self {
            ArrayLength::Static { value } => ArrayLengthView::Static { value: *value },
            ArrayLength::Dynamic { field } => ArrayLengthView::Dynamic { field: field@ },
        }
    }
}

impl ArrayLength {
    /// A copy of the length.
    pub fn duplicate(&self) -> (r: ArrayLength)
        ensures
            r@ == self@,
    {
        match self {
            ArrayLength::Static { value } => ArrayLength::Static { value: *value },
            ArrayLength::Dynamic { field } => ArrayLength::Dynamic { field: field.clone() },
        }
    }
}

/// A named part of a record or a case of a match: the name, the type and
/// the span of the whole.
pub type FieldEntry = Spanned<(Spanned<String>, Spanned<FieldAST>)>;

/// A variant of an enum: the label, the value and the span of the whole.
pub type EnumEntry = Spanned<(Spanned<String>, Spanned<i64>)>;

/// The view of a [`FieldEntry`].
pub type FieldEntryView = (((Seq<char>, Span), (FieldView, Span)), Span);

/// The view of an [`EnumEntry`].
pub type EnumEntryView = (((Seq<char>, Span), (i64, Span)), Span);

/// The type of a field, as written.
#[derive(Debug)]
#[allow(inconsistent_fields)]
pub enum FieldAST {
    /// Another struct, by name.
    Struct { name: Spanned<String> },
    /// An array of `element_type`.
    Array { element_type: Box<Spanned<FieldAST>>, length: Spanned<ArrayLength> },
    /// A union whose case is picked by the enum field `discriminant` of the
    /// same struct.
    Match { discriminant: Spanned<String>, cases: Spanned<Vec<FieldEntry>> },
    /// A value of the enum `name`, stored as an integer of the given shape.
    Enum {
        name: Spanned<String>,
        int_span: Span,
        signed: bool,
        width: u8,
        default: Option<Spanned<String>>,
    },
    /// An integer of `width` bits.
    Int { span: Span, signed: bool, width: u8, default: Option<Spanned<i64>> },
    /// A 32-bit float. The default is kept as the literal was written.
    F32 { default: Option<Spanned<String>> },
    /// A 64-bit float. The default is kept as the literal was written.
    F64 { default: Option<Spanned<String>> },
    /// A string in the C encoding.
    CString { default: Option<Spanned<String>> },
    /// A string in the Hebrew encoding.
    HebrewString { default: Option<Spanned<String>> },
}

/// The view of a [`FieldAST`].
#[allow(inconsistent_fields)]
pub enum FieldView {
    Struct { name: (Seq<char>, Span) },
    Array { element_type: Box<(FieldView, Span)>, length: (ArrayLengthView, Span) },
    Match { discriminant: (Seq<char>, Span), cases: (Seq<FieldEntryView>, Span) },
    Enum {
        name: (Seq<char>, Span),
        int_span: Span,
        signed: bool,
        width: u8,
        default: Option<(Seq<char>, Span)>,
    },
    Int { span: Span, signed: bool, width: u8, default: Option<(i64, Span)> },
    F32 { default: Option<(Seq<char>, Span)> },
    F64 { default: Option<(Seq<char>, Span)> },
    CString { default: Option<(Seq<char>, Span)> },
    HebrewString { default: Option<(Seq<char>, Span)> },
}

/// A top-level definition, as written.
#[derive(Debug)]
pub enum DefinitionAST {
    Struct { name: Spanned<String>, fields: Spanned<Vec<FieldEntry>> },
    Enum { name: Spanned<String>, entries: Spanned<Vec<EnumEntry>> },
}

/// The view of a [`DefinitionAST`].
pub enum DefinitionView {
    Struct { name: (Seq<char>, Span), fields: (Seq<FieldEntryView>, Span) },
    Enum { name: (Seq<char>, Span), entries: (Seq<EnumEntryView>, Span) },
}

/// The view of a located string.
pub open spec fn text_view(s: Spanned<String>) -> (Seq<char>, Span) {
    (s.0@, s.1)
}

/// The view of an optional located string.
pub open spec fn opt_text_view(s: Option<Spanned<String>>) -> Option<(Seq<char>, Span)> {
    match s {
        Some(t) => Some(text_view(t)),
        None => None,
    }
}

/// The view of a field type.
pub open spec fn field_view(f: FieldAST) -> FieldView
    decreases f, 0nat,
{
    match f {
        FieldAST::Struct { name } => FieldView::Struct { name: text_view(name) },
        FieldAST::Array { element_type, length } => FieldView::Array {
            element_type: Box::new((field_view(element_type.0), element_type.1)),
            length: (length.0@, length.1),
        },
        FieldAST::Match { discriminant, cases } => FieldView::Match {
            discriminant: text_view(discriminant),
            cases: (cases_view_upto(cases.0, cases.0@.len()), cases.1),
        },
        FieldAST::Enum { name, int_span, signed, width, default } => FieldView::Enum {
            name: text_view(name),
            int_span,
            signed,
            width,
            default: opt_text_view(default),
        },
        FieldAST::Int { span, signed, width, default } => FieldView::Int {
            span,
            signed,
            width,
            default,
        },
        FieldAST::F32 { default } => FieldView::F32 { default: opt_text_view(default) },
        FieldAST::F64 { default } => FieldView::F64 { default: opt_text_view(default) },
        FieldAST::CString { default } => FieldView::CString { default: opt_text_view(default) },
        FieldAST::HebrewString { default } => FieldView::HebrewString {
            default: opt_text_view(default),
        },
    }
}

/// The views of the first `n` entries of `v`, in order.
pub open spec fn cases_view_upto(v: Vec<FieldEntry>, n: nat) -> Seq<FieldEntryView>
    decreases v, n,
{
    if n == 0 || n > v@.len() {
        Seq::empty()
    } else {
        let e = v@[n - 1];
        cases_view_upto(v, (n - 1) as nat).push(
            ((text_view(e.0.0), (field_view(e.0.1.0), e.0.1.1)), e.1),
        )
    }
}

impl View for FieldAST {
    type V = FieldView;

    open spec fn view(&self) -> FieldView {
        field_view(*self)
    }
}

/// The view of one field entry.
pub open spec fn field_entry_view(e: FieldEntry) -> FieldEntryView {
    ((text_view(e.0.0), (e.0.1.0@, e.0.1.1)), e.1)
}

/// The views of a run of field entries, in order.
pub open spec fn field_entries_view(s: Seq<FieldEntry>) -> Seq<FieldEntryView> {
    Seq::new(s.len(), |i: int| field_entry_view(s[i]))
}

/// The view of one enum entry.
pub open spec fn enum_entry_view(e: EnumEntry) -> EnumEntryView {
    ((text_view(e.0.0), e.0.1), e.1)
}

/// The views of a run of enum entries, in order.
pub open spec fn enum_entries_view(s: Seq<EnumEntry>) -> Seq<EnumEntryView> {
    Seq::new(s.len(), |i: int| enum_entry_view(s[i]))
}

proof fn lemma_cases_view_upto(v: Vec<FieldEntry>, n: nat)
    requires
        n <= v@.len(),
    ensures
        cases_view_upto(v, n) == field_entries_view(v@.take(n as int)),
    decreases n,
{
    if n > 0 {
        lemma_cases_view_upto(v, (n - 1) as nat);
        assert(field_entries_view(v@.take(n as int)) =~= field_entries_view(
            v@.take(n - 1),
        ).push(field_entry_view(v@[n - 1])));
    } else {
        assert(field_entries_view(v@.take(0)) =~= Seq::<FieldEntryView>::empty());
    }
}

/// The cases of a match are viewed entry by entry.
pub proof fn lemma_match_view(discriminant: Spanned<String>, cases: Spanned<Vec<FieldEntry>>)
    ensures
        (FieldAST::Match { discriminant, cases })@ == (FieldView::Match {
            discriminant: text_view(discriminant),
            cases: (field_entries_view(cases.0@), cases.1),
        }),
{
    lemma_cases_view_upto(cases.0, cases.0@.len());
    assert(cases.0@.take(cases.0@.len() as int) =~= cases.0@);
}

impl View for DefinitionAST {
    type V = DefinitionView;

    open spec fn view(&self) -> DefinitionView {
        match self {
            DefinitionAST::Struct { name, fields } => DefinitionView::Struct {
                name: text_view(*name),
                fields: (field_entries_view(fields.0@), fields.1),
            },
            DefinitionAST::Enum { name, entries } => DefinitionView::Enum {
                name: text_view(*name),
                entries: (enum_entries_view(entries.0@), entries.1),
            },
        }
    }
}

impl DefinitionView {
    /// The name of the definition.
    pub open spec fn name(self) -> Seq<char> {
        match self {
            DefinitionView::Struct { name, .. } => name.0,
            DefinitionView::Enum { name, .. } => name.0,
        }
    }

    /// Where the name of the definition was written.
    pub open spec fn name_span(self) -> Span {
        match self {
            DefinitionView::Struct { name, .. } => name.1,
            DefinitionView::Enum { name, .. } => name.1,
        }
    }
}

impl DefinitionAST {
    /// The name of the definition.
    pub fn name(&self) -> (s: &str)
        ensures
            s@ == self@.name(),
    {
        match self {
            DefinitionAST::Struct { name, .. } => name.0.as_str(),
            DefinitionAST::Enum { name, .. } => name.0.as_str(),
        }
    }

    /// Where the name of the definition was written.
    pub fn name_span(&self) -> (s: Span)
        ensures
            s == self@.name_span(),
    {
        match self {
            DefinitionAST::Struct { name, .. } => name.1,
            DefinitionAST::Enum { name, .. } => name.1,
        }
    }
}

/// The name of an entry.
pub open spec fn entry_name(e: FieldEntryView) -> Seq<char> {
    e.0.0.0
}

/// The type of an entry.
pub open spec fn entry_type(e: FieldEntryView) -> FieldView {
    e.0.1.0
}

/// The label of a variant.
pub open spec fn variant_label(e: EnumEntryView) -> Seq<char> {
    e.0.0.0
}

/// The value of a variant.
pub open spec fn variant_value(e: EnumEntryView) -> i64 {
    e.0.1.0
}

} // verus!

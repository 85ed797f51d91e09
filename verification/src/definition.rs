//! The schema, and the lowering of a checked program to it.
//!
//! Lowering keeps the fields of a struct in the order in which they were
//! declared, which is the order on the wire. A match gets the name of the
//! enum that decides it from the fields lowered before it.

use vstd::prelude::*;
use vstd::string::*;
use indexmap::IndexMap;
use crate::assoc;
use crate::definitions::{DefinitionMap, DefsView};
use crate::syntax::{
    entry_name, entry_type, enum_entries_view, enum_entry_view, field_entries_view,
    field_entry_view, lemma_match_view, variant_label, variant_value, ArrayLength, ArrayLengthView,
    DefinitionAST, DefinitionView, EnumEntryView, FieldAST, FieldEntryView, FieldView,
};

verus! {

/// `indexmap::IndexMap`, a hash map that keeps its entries in the order in
/// which their keys were first inserted.
#[verifier::external_type_specification]
#[verifier::external_body]
#[verifier::reject_recursive_types(K)]
#[verifier::reject_recursive_types(V)]
#[verifier::reject_recursive_types(S)]
pub struct ExIndexMap<K, V, S>(IndexMap<K, V, S>);

/// The type of a field in the schema.
#[derive(Debug)]
#[allow(inconsistent_fields)]
pub enum FieldType {
    Struct { name: String },
    Array { element_type: Box<FieldType>, length: ArrayLength },
    /// A union decided by the enum field `discriminant`, whose enum is
    /// `enum_type_name`. The cases stand in the order in which their labels
    /// were first written; each label stands once.
    Match { discriminant: String, enum_type_name: String, cases: Vec<(String, FieldType)> },
    Enum { name: String, signed: bool, width: u8, default: Option<String> },
    Int { signed: bool, width: u8, default: Option<i64> },
    /// The default is the float literal as it was written.
    F32 { default: Option<String> },
    /// The default is the float literal as it was written.
    F64 { default: Option<String> },
    CString { default: Option<String> },
    HebrewString { default: Option<String> },
}

/// The view of a [`FieldType`].
#[allow(inconsistent_fields)]
pub enum FieldTypeView {
    Struct { name: Seq<char> },
    Array { element_type: Box<FieldTypeView>, length: ArrayLengthView },
    Match {
        discriminant: Seq<char>,
        enum_type_name: Seq<char>,
        cases: Seq<(Seq<char>, FieldTypeView)>,
    },
    Enum { name: Seq<char>, signed: bool, width: u8, default: Option<Seq<char>> },
    Int { signed: bool, width: u8, default: Option<i64> },
    F32 { default: Option<Seq<char>> },
    F64 { default: Option<Seq<char>> },
    CString { default: Option<Seq<char>> },
    HebrewString { default: Option<Seq<char>> },
}

/// Named field types, in order.
pub type TypedView = Seq<(Seq<char>, FieldTypeView)>;

/// The view of an optional string.
pub open spec fn opt_string_view(s: Option<String>) -> Option<Seq<char>> {
    match s {
        Some(t) => Some(t@),
        None => None,
    }
}

/// The view of a field type.
pub open spec fn field_type_view(f: FieldType) -> FieldTypeView
    decreases f, 0nat,
{
    match f {
        FieldType::Struct { name } => FieldTypeView::Struct { name: name@ },
        FieldType::Array { element_type, length } => FieldTypeView::Array {
            element_type: Box::new(field_type_view(*element_type)),
            length: length@,
        },
        FieldType::Match { discriminant, enum_type_name, cases } => FieldTypeView::Match {
            discriminant: discriminant@,
            enum_type_name: enum_type_name@,
            cases: typed_view_upto(cases, cases@.len()),
        },
        FieldType::Enum { name, signed, width, default } => FieldTypeView::Enum {
            name: name@,
            signed,
            width,
            default: opt_string_view(default),
        },
        FieldType::Int { signed, width, default } => FieldTypeView::Int { signed, width, default },
        FieldType::F32 { default } => FieldTypeView::F32 { default: opt_string_view(default) },
        FieldType::F64 { default } => FieldTypeView::F64 { default: opt_string_view(default) },
        FieldType::CString { default } => FieldTypeView::CString {
            default: opt_string_view(default),
        },
        FieldType::HebrewString { default } => FieldTypeView::HebrewString {
            default: opt_string_view(default),
        },
    }
}

/// The views of the first `n` entries of `v`, in order.
pub open spec fn typed_view_upto(v: Vec<(String, FieldType)>, n: nat) -> TypedView
    decreases v, n,
{
    if n == 0 || n > v@.len() {
        Seq::empty()
    } else {
        typed_view_upto(v, (n - 1) as nat).push((v@[n - 1].0@, field_type_view(v@[n - 1].1)))
    }
}

impl View for FieldType {
    type V = FieldTypeView;

    open spec fn view(&self) -> FieldTypeView {
        field_type_view(*self)
    }
}

/// The views of a run of named field types, in order.
pub open spec fn typed_entries_view(s: Seq<(String, FieldType)>) -> TypedView {
    Seq::new(s.len(), |i: int| (s[i].0@, s[i].1@))
}

proof fn lemma_typed_view_upto(v: Vec<(String, FieldType)>, n: nat)
    requires
        n <= v@.len(),
    ensures
        typed_view_upto(v, n) == typed_entries_view(v@.take(n as int)),
    decreases n,
{
    if n > 0 {
        lemma_typed_view_upto(v, (n - 1) as nat);
        assert(typed_entries_view(v@.take(n as int)) =~= typed_entries_view(v@.take(n - 1)).push(
            (v@[n - 1].0@, v@[n - 1].1@),
        ));
    } else {
        assert(typed_entries_view(v@.take(0)) =~= Seq::<(Seq<char>, FieldTypeView)>::empty());
    }
}

/// The cases of a match in the schema are viewed entry by entry.
pub proof fn lemma_match_type_view(
    discriminant: String,
    enum_type_name: String,
    cases: Vec<(String, FieldType)>,
)
    ensures
        (FieldType::Match { discriminant, enum_type_name, cases })@ == (FieldTypeView::Match {
            discriminant: discriminant@,
            enum_type_name: enum_type_name@,
            cases: typed_entries_view(cases@),
        }),
{
    lemma_typed_view_upto(cases, cases@.len());
    assert(cases@.take(cases@.len() as int) =~= cases@);
}

/// A definition in the schema.
#[derive(Debug)]
pub enum Definition {
    Struct { name: String, fields: Vec<(String, FieldType)> },
    Enum { name: String, entries: Vec<(String, i64)> },
}

/// The view of a [`Definition`].
pub enum SchemaDefinition {
    Struct { name: Seq<char>, fields: TypedView },
    Enum { name: Seq<char>, entries: Seq<(Seq<char>, i64)> },
}

/// The views of the variants of an enum in the schema.
pub open spec fn variants_view(s: Seq<(String, i64)>) -> Seq<(Seq<char>, i64)> {
    Seq::new(s.len(), |i: int| (s[i].0@, s[i].1))
}

impl View for Definition {
    type V = SchemaDefinition;

    open spec fn view(&self) -> SchemaDefinition {
        match self {
            Definition::Struct { name, fields } => SchemaDefinition::Struct {
                name: name@,
                fields: typed_entries_view(fields@),
            },
            Definition::Enum { name, entries } => SchemaDefinition::Enum {
                name: name@,
                entries: variants_view(entries@),
            },
        }
    }
}

impl SchemaDefinition {
    /// The name of the definition.
    pub open spec fn name(self) -> Seq<char> {
        match self {
            SchemaDefinition::Struct { name, .. } => name,
            SchemaDefinition::Enum { name, .. } => name,
        }
    }
}

impl Definition {
    /// The name of the definition.
    pub fn name(&self) -> (s: &str)
        ensures
            s@ == self@.name(),
    {
        match self {
            Definition::Struct { name, .. } => name.as_str(),
            Definition::Enum { name, .. } => name.as_str(),
        }
    }
}

/// The views of a run of definitions, in order.
pub open spec fn schema_view(s: Seq<Definition>) -> Seq<SchemaDefinition> {
    Seq::new(s.len(), |i: int| s[i]@)
}

/// What an `IndexMap` from names to field types holds: its entries in the
/// order of the map.
pub uninterp spec fn table_entries(m: IndexMap<String, FieldType>) -> Seq<
    (Seq<char>, FieldTypeView),
>;

/// `IndexMap::new` makes a map without entries.
#[verifier::external_body]
fn table_new() -> (m: IndexMap<String, FieldType>)
    ensures
        table_entries(m) == Seq::<(Seq<char>, FieldTypeView)>::empty(),
{
    IndexMap::new()
}

/// `IndexMap::get` gives the value of the entry whose key is equal to
/// `key`, and nothing if no entry has such a key.
#[verifier::external_body]
fn table_get<'a>(m: &'a IndexMap<String, FieldType>, key: &str) -> (r: Option<&'a FieldType>)
    ensures
        match r {
            Some(v) => exists|i: int|
                0 <= i < table_entries(*m).len() && #[trigger] table_entries(*m)[i] == (
                    key@,
                    v@,
                ),
            None => !assoc::has_key(table_entries(*m), key@),
        },
{
    m.get(key)
}

/// `IndexMap::insert` gives the entry whose key is equal to `key` the value
/// `value` and leaves it in its place; where there is no such entry it adds
/// one behind the last. The other entries stay as they are.
#[verifier::external_body]
fn table_insert(m: &mut IndexMap<String, FieldType>, key: String, value: FieldType)
    ensures
        (exists|i: int|
            0 <= i < table_entries(*old(m)).len() && (#[trigger] table_entries(*old(m))[i]).0
                == key@ && table_entries(*final(m)) == table_entries(*old(m)).update(
                i,
                (key@, value@),
            )) || (!assoc::has_key(table_entries(*old(m)), key@) && table_entries(*final(m))
            == table_entries(*old(m)).push((key@, value@))),
{
    m.insert(key, value);
}

/// `IndexMap::into_iter` hands out the entries in the order of the map;
/// they are gathered in a vector.
#[verifier::external_body]
fn table_into_vec(m: IndexMap<String, FieldType>) -> (v: Vec<(String, FieldType)>)
    ensures
        typed_entries_view(v@) == table_entries(m),
{
    m.into_iter().collect()
}

/// The name of the enum that the entry `name` of `parent` is a field of, if
/// it is an enum field.
pub open spec fn enum_of(parent: TypedView, name: Seq<char>) -> Option<Seq<char>> {
    match assoc::get(parent, name) {
        Some(FieldTypeView::Enum { name: e, .. }) => Some(e),
        _ => None,
    }
}

/// The view of an optional located text, without the span.
pub open spec fn opt_text(s: Option<(Seq<char>, crate::span::Span)>) -> Option<Seq<char>> {
    match s {
        Some(t) => Some(t.0),
        None => None,
    }
}

/// The lowering of the field type `ty`, `parent` being the fields of the
/// struct that were lowered before. Defaults are carried over, spans are
/// dropped. A match is lowered only where its discriminant is an enum field
/// among `parent`; an array only where its element is.
pub open spec fn lower_field(ty: FieldView, parent: TypedView) -> Option<FieldTypeView>
    decreases ty, 0nat,
{
    match ty {
        FieldView::Struct { name } => Some(FieldTypeView::Struct { name: name.0 }),
        FieldView::Array { element_type, length } => match lower_field(element_type.0, parent) {
            Some(e) => Some(FieldTypeView::Array { element_type: Box::new(e), length: length.0 }),
            None => None,
        },
        FieldView::Match { discriminant, cases } => match enum_of(parent, discriminant.0) {
            Some(e) => Some(
                FieldTypeView::Match {
                    discriminant: discriminant.0,
                    enum_type_name: e,
                    cases: lower_cases(cases.0, cases.0.len() as int, parent),
                },
            ),
            None => None,
        },
        FieldView::Enum { name, signed, width, default, .. } => Some(
            FieldTypeView::Enum { name: name.0, signed, width, default: opt_text(default) },
        ),
        FieldView::Int { signed, width, default, .. } => Some(
            FieldTypeView::Int {
                signed,
                width,
                default: match default {
                    Some(d) => Some(d.0),
                    None => None,
                },
            },
        ),
        FieldView::F32 { default } => Some(FieldTypeView::F32 { default: opt_text(default) }),
        FieldView::F64 { default } => Some(FieldTypeView::F64 { default: opt_text(default) }),
        FieldView::CString { default } => Some(
            FieldTypeView::CString { default: opt_text(default) },
        ),
        FieldView::HebrewString { default } => Some(
            FieldTypeView::HebrewString { default: opt_text(default) },
        ),
    }
}

/// The lowering of the first `n` cases: each case that can be lowered, under
/// its label; a label that stands again replaces the case before.
pub open spec fn lower_cases(cases: Seq<FieldEntryView>, n: int, parent: TypedView) -> TypedView
    decreases cases, n,
{
    if n <= 0 || n > cases.len() {
        Seq::empty()
    } else {
        let before = lower_cases(cases, n - 1, parent);
        match lower_field(entry_type(cases[n - 1]), parent) {
            Some(ft) => assoc::insert(before, entry_name(cases[n - 1]), ft),
            None => before,
        }
    }
}

/// The lowering of the first `n` fields of a struct: each field that can be
/// lowered, given the fields lowered before it, under its name.
pub open spec fn lower_fields(fields: Seq<FieldEntryView>, n: int) -> TypedView
    decreases n,
{
    if n <= 0 || n > fields.len() {
        Seq::empty()
    } else {
        let before = lower_fields(fields, n - 1);
        match lower_field(entry_type(fields[n - 1]), before) {
            Some(ft) => assoc::insert(before, entry_name(fields[n - 1]), ft),
            None => before,
        }
    }
}

/// The variants of an enum, without their spans.
pub open spec fn lower_entries(entries: Seq<EnumEntryView>) -> Seq<(Seq<char>, i64)> {
    Seq::new(entries.len(), |i: int| (variant_label(entries[i]), variant_value(entries[i])))
}

/// The lowering of a definition.
pub open spec fn lower_definition(def: DefinitionView) -> SchemaDefinition {
    match def {
        DefinitionView::Struct { name, fields } => SchemaDefinition::Struct {
            name: name.0,
            fields: lower_fields(fields.0, fields.0.len() as int),
        },
        DefinitionView::Enum { name, entries } => SchemaDefinition::Enum {
            name: name.0,
            entries: lower_entries(entries.0),
        },
    }
}

/// The lowering of a program: that of each definition, in the order of the
/// definitions.
pub open spec fn lower_all(defs: DefsView) -> Seq<SchemaDefinition> {
    Seq::new(defs.len(), |i: int| lower_definition(defs[i].1))
}

/// Lowered fields have unique names.
pub proof fn lemma_lower_fields_unique(fields: Seq<FieldEntryView>, n: int)
    ensures
        assoc::unique_keys(lower_fields(fields, n)),
    decreases n,
{
    if !(n <= 0 || n > fields.len()) {
        lemma_lower_fields_unique(fields, n - 1);
        let before = lower_fields(fields, n - 1);
        match lower_field(entry_type(fields[n - 1]), before) {
            Some(ft) => {
                assoc::lemma_insert_unique(before, entry_name(fields[n - 1]), ft);
            },
            None => {},
        }
    }
}

/// Lowered cases have unique labels.
pub proof fn lemma_lower_cases_unique(cases: Seq<FieldEntryView>, n: int, parent: TypedView)
    ensures
        assoc::unique_keys(lower_cases(cases, n, parent)),
    decreases n,
{
    if !(n <= 0 || n > cases.len()) {
        lemma_lower_cases_unique(cases, n - 1, parent);
        let before = lower_cases(cases, n - 1, parent);
        match lower_field(entry_type(cases[n - 1]), parent) {
            Some(ft) => {
                assoc::lemma_insert_unique(before, entry_name(cases[n - 1]), ft);
            },
            None => {},
        }
    }
}

/// A copy of an optional located text, without the span.
fn copy_default(default: &Option<(String, crate::span::Span)>) -> (r: Option<String>)
    ensures
        opt_string_view(r) == opt_text(crate::syntax::opt_text_view(*default)),
{
    match default {
        Some(d) => Some(d.0.clone()),
        None => None,
    }
}

/// Puts `value` under `key` into a table whose keys are unique.
fn table_put(m: &mut IndexMap<String, FieldType>, key: String, value: FieldType)
    requires
        assoc::unique_keys(table_entries(*old(m))),
    ensures
        assoc::unique_keys(table_entries(*final(m))),
        table_entries(*final(m)) == assoc::insert(table_entries(*old(m)), key@, value@),
{
    let ghost before = table_entries(*m);
    let ghost k = key@;
    let ghost v = value@;
    table_insert(m, key, value);
    proof {
        assoc::lemma_insert_unique(before, k, v);
        if assoc::has_key(before, k) {
            let i = choose|i: int|
                0 <= i < before.len() && (#[trigger] before[i]).0 == k && table_entries(*m)
                    == before.update(i, (k, v));
            assoc::lemma_index_unique(before, k, i);
        }
    }
}

/// Lowers the field type `ast`, `parent_fields` being the fields of the
/// struct that were lowered before.
fn build_field(ast: &FieldAST, parent_fields: &IndexMap<String, FieldType>) -> (r: Option<
    FieldType,
>)
    requires
        assoc::unique_keys(table_entries(*parent_fields)),
    ensures
        match r {
            Some(ft) => lower_field(ast@, table_entries(*parent_fields)) == Some(ft@),
            None => lower_field(ast@, table_entries(*parent_fields)) is None,
        },
    decreases ast,
{
    let ghost parent = table_entries(*parent_fields);
    match ast {
        FieldAST::Struct { name } => Some(FieldType::Struct { name: name.0.clone() }),
        FieldAST::Array { element_type, length } => {
            match build_field(&element_type.0, parent_fields) {
                Some(e) => Some(
                    FieldType::Array { element_type: Box::new(e), length: length.0.duplicate() },
                ),
                None => None,
            }
        },
        FieldAST::Match { discriminant, cases } => {
            proof {
                lemma_match_view(*discriminant, *cases);
            }
            let ghost cs = field_entries_view(cases.0@);
            let enum_type_name = match table_get(parent_fields, discriminant.0.as_str()) {
                Some(FieldType::Enum { name, .. }) => {
                    proof {
                        let i = choose|i: int|
                            0 <= i < parent.len() && (#[trigger] parent[i]).0 == discriminant.0@
                                && parent[i].1 is Enum && parent[i].1->Enum_name == name@;
                        assoc::lemma_index_unique(parent, discriminant.0@, i);
                    }
                    name.clone()
                },
                Some(other) => {
                    proof {
                        let i = choose|i: int|
                            0 <= i < parent.len() && #[trigger] parent[i] == (
                                discriminant.0@,
                                other@,
                            );
                        assoc::lemma_index_unique(parent, discriminant.0@, i);
                    }
                    return None;
                },
                None => {
                    return None;
                },
            };
            let mut table = table_new();
            let mut k: usize = 0;
            while k < cases.0.len()
                invariant
                    k <= cases.0.len(),
                    ast is Match,
                    ast->cases == *cases,
                    cs == field_entries_view(cases.0@),
                    parent == table_entries(*parent_fields),
                    assoc::unique_keys(parent),
                    assoc::unique_keys(table_entries(table)),
                    table_entries(table) == lower_cases(cs, k as int, parent),
                decreases cases.0.len() - k,
            {
                assert(cs[k as int] == field_entry_view(cases.0@[k as int]));
                match build_field(&cases.0[k].0.1.0, parent_fields) {
                    Some(ft) => {
                        table_put(&mut table, cases.0[k].0.0.0.clone(), ft);
                    },
                    None => {},
                }
                k += 1;
            }
            let lowered = table_into_vec(table);
            let discriminant = discriminant.0.clone();
            proof {
                lemma_match_type_view(discriminant, enum_type_name, lowered);
            }
            Some(FieldType::Match { discriminant, enum_type_name, cases: lowered })
        },
        FieldAST::Enum { name, signed, width, default, .. } => Some(
            FieldType::Enum {
                name: name.0.clone(),
                signed: *signed,
                width: *width,
                default: copy_default(default),
            },
        ),
        FieldAST::Int { signed, width, default, .. } => Some(
            FieldType::Int {
                signed: *signed,
                width: *width,
                default: match default {
                    Some(d) => Some(d.0),
                    None => None,
                },
            },
        ),
        FieldAST::F32 { default } => Some(FieldType::F32 { default: copy_default(default) }),
        FieldAST::F64 { default } => Some(FieldType::F64 { default: copy_default(default) }),
        FieldAST::CString { default } => Some(
            FieldType::CString { default: copy_default(default) },
        ),
        FieldAST::HebrewString { default } => Some(
            FieldType::HebrewString { default: copy_default(default) },
        ),
    }
}

/// Lowers one definition. A struct keeps its fields in the order of their
/// declaration; a field is left out only where its type cannot be lowered,
/// which the usage check excludes. Every definition has a lowering.
pub fn build_definition(ast: &DefinitionAST) -> (r: Option<Definition>)
    ensures
        r matches Some(d) && d@ == lower_definition(ast@),
{
    match ast {
        DefinitionAST::Struct { name, fields } => {
            let ghost fs = field_entries_view(fields.0@);
            let mut table = table_new();
            let mut k: usize = 0;
            while k < fields.0.len()
                invariant
                    k <= fields.0.len(),
                    fs == field_entries_view(fields.0@),
                    assoc::unique_keys(table_entries(table)),
                    table_entries(table) == lower_fields(fs, k as int),
                decreases fields.0.len() - k,
            {
                assert(fs[k as int] == field_entry_view(fields.0@[k as int]));
                match build_field(&fields.0[k].0.1.0, &table) {
                    Some(ft) => {
                        table_put(&mut table, fields.0[k].0.0.0.clone(), ft);
                    },
                    None => {},
                }
                k += 1;
            }
            Some(Definition::Struct { name: name.0.clone(), fields: table_into_vec(table) })
        },
        DefinitionAST::Enum { name, entries } => {
            let ghost es = enum_entries_view(entries.0@);
            let mut good: Vec<(String, i64)> = Vec::new();
            let mut k: usize = 0;
            while k < entries.0.len()
                invariant
                    k <= entries.0.len(),
                    es == enum_entries_view(entries.0@),
                    good@.len() == k,
                    forall|i: int|
                        0 <= i < k ==> (#[trigger] good@[i]).0@ == variant_label(es[i])
                            && good@[i].1 == variant_value(es[i]),
                decreases entries.0.len() - k,
            {
                assert(es[k as int] == enum_entry_view(entries.0@[k as int]));
                good.push((entries.0[k].0.0.0.clone(), entries.0[k].0.1.0));
                k += 1;
            }
            assert(variants_view(good@) =~= lower_entries(es));
            Some(Definition::Enum { name: name.0.clone(), entries: good })
        },
    }
}

/// Lowers a program: the lowering of each definition, in the order of the
/// definitions.
pub fn build_all(defs: &DefinitionMap) -> (schema: Vec<Definition>)
    ensures
        schema_view(schema@) == lower_all(defs@),
{
    let mut built: Vec<Definition> = Vec::new();
    let mut i: usize = 0;
    while i < defs.len()
        invariant
            i <= defs@.len(),
            built@.len() == i,
            forall|j: int| 0 <= j < i ==> (#[trigger] built@[j])@ == lower_definition(defs@[j].1),
        decreases defs@.len() - i,
    {
        match build_definition(defs.definition_at(i)) {
            Some(d) => {
                built.push(d);
            },
            None => {},
        }
        i += 1;
    }
    assert(schema_view(built@) =~= lower_all(defs@));
    built
}

} // verus!

//! What holds of the passes together: a match that passes the usage check
//! has exactly the cases of its enum, and a program that passes is lowered
//! in full, with the fields of every struct in the order of their
//! declaration.

use vstd::prelude::*;
use crate::assoc;
use crate::checks::usage::{
    definition_errors, field_lookup, has_case, label_before, label_errors, missing_labels,
    struct_errors, type_errors, unknown_errors, usage_errors, usage_from,
};
use crate::definition::{
    enum_of, lemma_lower_fields_unique, lower_definition, lower_field, lower_fields,
};
use crate::definitions::{defs_get, DefsView};
use crate::span::Span;
use crate::syntax::{
    entry_name, entry_type, variant_label, DefinitionView, EnumEntryView, FieldEntryView,
    FieldView,
};

verus! {

/// The names of the fields, in the order of their declaration.
pub open spec fn declared_names(fields: Seq<FieldEntryView>) -> Seq<Seq<char>> {
    Seq::new(fields.len(), |k: int| entry_name(fields[k]))
}

/// No two of the first `n` fields have the same name.
pub open spec fn distinct_names(fields: Seq<FieldEntryView>, n: int) -> bool {
    forall|i: int, j: int|
        0 <= i < j < n ==> entry_name(#[trigger] fields[i]) != entry_name(#[trigger] fields[j])
}

/// Each of the first `n` fields can be lowered, given the fields before it.
pub open spec fn all_lower(fields: Seq<FieldEntryView>, n: int) -> bool {
    forall|k: int|
        0 <= k < n ==> lower_field(
            entry_type(#[trigger] fields[k]),
            lower_fields(fields, k),
        ) is Some
}

/// Lowering keeps the order of the fields: where the names of the fields
/// differ and each field can be lowered, the lowered fields are as many as
/// the declared ones, and the field at each place has the declared name and
/// the lowering of the declared type.
pub proof fn lemma_lowering_keeps_field_order(fields: Seq<FieldEntryView>, n: int)
    requires
        0 <= n <= fields.len(),
        distinct_names(fields, n),
        all_lower(fields, n),
    ensures
        lower_fields(fields, n).len() == n,
        forall|k: int|
            0 <= k < n ==> (#[trigger] lower_fields(fields, n)[k]).0 == entry_name(fields[k]),
        forall|k: int|
            0 <= k < n ==> Some((#[trigger] lower_fields(fields, n)[k]).1) == lower_field(
                entry_type(fields[k]),
                lower_fields(fields, k),
            ),
    decreases n,
{
    if n > 0 {
        lemma_lowering_keeps_field_order(fields, n - 1);
        let before = lower_fields(fields, n - 1);
        let name = entry_name(fields[n - 1]);
        assert(lower_field(entry_type(fields[n - 1]), before) is Some);
        assert(!assoc::has_key(before, name)) by {
            if assoc::has_key(before, name) {
                let i = assoc::index_of_key(before, name);
                assert(before[i].0 == entry_name(fields[i]));
                assert(entry_name(fields[i]) != entry_name(fields[n - 1]));
            }
        }
        let ft = lower_field(entry_type(fields[n - 1]), before)->0;
        assert(lower_fields(fields, n) == before.push((name, ft)));
        assert forall|k: int| 0 <= k < n implies (#[trigger] lower_fields(fields, n)[k]).0
            == entry_name(fields[k]) && Some(lower_fields(fields, n)[k].1) == lower_field(
            entry_type(fields[k]),
            lower_fields(fields, k),
        ) by {
            if k < n - 1 {
                assert(lower_fields(fields, n)[k] == before[k]);
            }
        }
    }
}

/// Where the fields before index `upto` say that `name` is an enum field
/// of `e`, one of them has the name and is an enum field of `e`, and none
/// behind it has the name.
pub proof fn lemma_lookup_finds_enum_field(
    fields: Seq<FieldEntryView>,
    upto: int,
    name: Seq<char>,
    e: Seq<char>,
) -> (j: int)
    requires
        0 <= upto <= fields.len(),
        field_lookup(fields, upto, name) == Some(Some(e)),
    ensures
        0 <= j < upto,
        entry_name(fields[j]) == name,
        entry_type(fields[j]) is Enum,
        entry_type(fields[j])->Enum_name.0 == e,
    decreases upto,
{
    if entry_name(fields[upto - 1]) == name {
        upto - 1
    } else {
        lemma_lookup_finds_enum_field(fields, upto - 1, name, e)
    }
}

/// A field whose name no field before it has is not found among them.
pub proof fn lemma_lookup_none(fields: Seq<FieldEntryView>, upto: int, name: Seq<char>)
    requires
        0 <= upto <= fields.len(),
    ensures
        field_lookup(fields, upto, name) is None <==> forall|j: int|
            0 <= j < upto ==> entry_name(#[trigger] fields[j]) != name,
    decreases upto,
{
    if upto > 0 {
        lemma_lookup_none(fields, upto - 1, name);
        if entry_name(fields[upto - 1]) == name {
        } else {
            if field_lookup(fields, upto, name) is None {
                assert forall|j: int| 0 <= j < upto implies entry_name(#[trigger] fields[j])
                    != name by {}
            }
        }
    }
}

/// Where the fields before index `upto` say that `name` is an enum field of
/// `e`, the lowered fields say the same: lowering and the usage check agree
/// on the enum that decides a match.
pub proof fn lemma_lowered_fields_agree(
    fields: Seq<FieldEntryView>,
    upto: int,
    name: Seq<char>,
    e: Seq<char>,
)
    requires
        0 <= upto <= fields.len(),
        distinct_names(fields, upto),
        all_lower(fields, upto),
        field_lookup(fields, upto, name) == Some(Some(e)),
    ensures
        enum_of(lower_fields(fields, upto), name) == Some(e),
{
    let parent = lower_fields(fields, upto);
    let j = lemma_lookup_finds_enum_field(fields, upto, name, e);
    lemma_lowering_keeps_field_order(fields, upto);
    lemma_lower_fields_unique(fields, upto);
    assert(parent[j].0 == name);
    assert(Some(parent[j].1) == lower_field(entry_type(fields[j]), lower_fields(fields, j)));
    assoc::lemma_index_unique(parent, name, j);
}

/// A match whose discriminant the usage check accepts as an enum field of
/// `e` is lowered to a match with the enum type name `e`.
pub proof fn lemma_match_gets_its_enum(
    ty: FieldView,
    fields: Seq<FieldEntryView>,
    upto: int,
    e: Seq<char>,
)
    requires
        0 <= upto <= fields.len(),
        distinct_names(fields, upto),
        all_lower(fields, upto),
        ty is Match,
        field_lookup(fields, upto, ty->discriminant.0) == Some(Some(e)),
    ensures
        lower_field(ty, lower_fields(fields, upto)) is Some,
        lower_field(ty, lower_fields(fields, upto))->0 is Match,
        lower_field(ty, lower_fields(fields, upto))->0->enum_type_name == e,
        lower_field(ty, lower_fields(fields, upto))->0->Match_discriminant == ty->discriminant.0,
{
    lemma_lowered_fields_agree(fields, upto, ty->discriminant.0, e);
}

/// A type without usage errors can be lowered, where the fields before it
/// were lowered in order.
pub proof fn lemma_checked_type_lowers(
    ty: FieldView,
    fields: Seq<FieldEntryView>,
    upto: int,
    defs: DefsView,
    owner: Span,
)
    requires
        0 <= upto <= fields.len(),
        distinct_names(fields, upto),
        all_lower(fields, upto),
        type_errors(ty, fields, upto, defs, owner).len() == 0,
    ensures
        lower_field(ty, lower_fields(fields, upto)) is Some,
    decreases ty,
{
    match ty {
        FieldView::Array { element_type, .. } => {
            lemma_checked_type_lowers(element_type.0, fields, upto, defs, owner);
        },
        FieldView::Match { discriminant, cases } => {
            match field_lookup(fields, upto, discriminant.0) {
                Some(Some(e)) => {
                    lemma_lowered_fields_agree(fields, upto, discriminant.0, e);
                },
                _ => {},
            }
        },
        _ => {},
    }
}

/// The fields of a struct without usage errors have different names, and
/// each can be lowered.
pub proof fn lemma_checked_struct_lowers(
    fields: Seq<FieldEntryView>,
    n: int,
    defs: DefsView,
    owner: Span,
)
    requires
        0 <= n <= fields.len(),
        struct_errors(fields, 0, defs, owner).len() == 0,
    ensures
        struct_errors(fields, n, defs, owner).len() == 0,
        distinct_names(fields, n),
        all_lower(fields, n),
    decreases n,
{
    if n > 0 {
        lemma_checked_struct_lowers(fields, n - 1, defs, owner);
        let k = n - 1;
        let name = entry_name(fields[k]);
        assert(field_lookup(fields, k, name) is None);
        assert(type_errors(entry_type(fields[k]), fields, k, defs, owner).len() == 0);
        lemma_lookup_none(fields, k, name);
        lemma_checked_type_lowers(entry_type(fields[k]), fields, k, defs, owner);
        assert forall|i: int, j: int| 0 <= i < j < n implies entry_name(#[trigger] fields[i])
            != entry_name(#[trigger] fields[j]) by {}
        assert forall|m: int| 0 <= m < n implies lower_field(
            entry_type(#[trigger] fields[m]),
            lower_fields(fields, m),
        ) is Some by {}
    }
}

/// A program without usage errors has none in any of its definitions.
pub proof fn lemma_checked_definitions(defs: DefsView, i: int, k: int)
    requires
        0 <= i <= k < defs.len(),
        usage_from(defs, i).len() == 0,
    ensures
        definition_errors(defs[k].1, defs).len() == 0,
    decreases k - i,
{
    if i < k {
        lemma_checked_definitions(defs, i + 1, k);
    }
}

/// In a program that passes the usage check, every struct is lowered to a
/// struct that has exactly the declared fields, in the order of their
/// declaration.
pub proof fn lemma_checked_program_keeps_field_order(defs: DefsView, k: int)
    requires
        usage_errors(defs).len() == 0,
        0 <= k < defs.len(),
        defs[k].1 is Struct,
    ensures
        lower_definition(defs[k].1) is Struct,
        assoc::keys(lower_definition(defs[k].1)->Struct_fields) == declared_names(
            defs[k].1->Struct_fields.0,
        ),
{
    lemma_checked_definitions(defs, 0, k);
    let fields = defs[k].1->Struct_fields.0;
    let owner = defs[k].1->Struct_name.1;
    lemma_checked_struct_lowers(fields, fields.len() as int, defs, owner);
    lemma_lowering_keeps_field_order(fields, fields.len() as int);
    assert(assoc::keys(lower_fields(fields, fields.len() as int)) =~= declared_names(fields));
}

/// Where no case from index `k` on is reported as unknown, the enum
/// declares the label of each of them.
pub proof fn lemma_known_cases(
    cases: Seq<FieldEntryView>,
    k: int,
    entries: Seq<EnumEntryView>,
    name: Seq<char>,
    owner: Span,
    j: int,
)
    requires
        0 <= k <= j < cases.len(),
        unknown_errors(cases, k, entries, name, owner).len() == 0,
    ensures
        label_before(entries, entries.len() as int, entry_name(cases[j])),
    decreases j - k,
{
    if k < j {
        lemma_known_cases(cases, k + 1, entries, name, owner, j);
    }
}

/// Where no label among the first `n` entries is missing, each of them has
/// a case.
pub proof fn lemma_no_missing_labels(
    entries: Seq<EnumEntryView>,
    n: int,
    cases: Seq<FieldEntryView>,
    j: int,
)
    requires
        0 <= j < n <= entries.len(),
        missing_labels(entries, n, cases).len() == 0,
    ensures
        has_case(cases, variant_label(entries[j])),
    decreases n,
{
    let label = variant_label(entries[n - 1]);
    if j < n - 1 {
        lemma_no_missing_labels(entries, n - 1, cases, j);
    } else if !has_case(cases, label) {
        let i = choose|i: int|
            0 <= i < n - 1 && i < entries.len() && variant_label(#[trigger] entries[i]) == label;
        lemma_no_missing_labels(entries, n - 1, cases, i);
    }
}

/// A match whose labels the usage check accepts has exactly the cases that
/// its enum declares: the enum is defined, every case carries a declared
/// label, and every declared label has a case.
pub proof fn lemma_checked_match_is_exact(
    defs: DefsView,
    enum_name: Seq<char>,
    discriminant: (Seq<char>, Span),
    cases: Seq<FieldEntryView>,
    owner: Span,
)
    requires
        label_errors(defs, enum_name, discriminant, cases, owner).len() == 0,
    ensures
        defs_get(defs, enum_name) is Some,
        defs_get(defs, enum_name)->0 is Enum,
        forall|j: int|
            0 <= j < cases.len() ==> label_before(
                defs_get(defs, enum_name)->0->entries.0,
                defs_get(defs, enum_name)->0->entries.0.len() as int,
                entry_name(#[trigger] cases[j]),
            ),
        forall|j: int|
            0 <= j < defs_get(defs, enum_name)->0->entries.0.len() ==> has_case(
                cases,
                variant_label(#[trigger] defs_get(defs, enum_name)->0->entries.0[j]),
            ),
{
    match defs_get(defs, enum_name) {
        Some(DefinitionView::Enum { name, entries }) => {
            let es = entries.0;
            assert forall|j: int| 0 <= j < cases.len() implies label_before(
                es,
                es.len() as int,
                entry_name(#[trigger] cases[j]),
            ) by {
                lemma_known_cases(cases, 0, es, discriminant.0, owner, j);
            }
            assert forall|j: int| 0 <= j < es.len() implies has_case(
                cases,
                variant_label(#[trigger] es[j]),
            ) by {
                lemma_no_missing_labels(es, es.len() as int, cases, j);
            }
        },
        _ => {},
    }
}

} // verus!

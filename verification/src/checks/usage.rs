//! The usage check: names that must exist, matches that must fit their
//! enum, and names that must not be used twice.
//!
//! The fields of a struct are checked from the first to the last. A match
//! can only be decided by an enum field that is declared before the field
//! that holds the match; where several fields before it carry the name, the
//! latest counts.

use vstd::prelude::*;
use vstd::string::*;
use crate::definitions::{defs_get, defs_has, DefinitionMap, DefsView};
use crate::span::{Span, Spanned};
use crate::syntax::{
    entry_name, entry_type, enum_entries_view, enum_entry_view, field_entries_view,
    field_entry_view, lemma_match_view, variant_label, DefinitionAST, DefinitionView, EnumEntry,
    EnumEntryView, FieldAST, FieldEntry, FieldEntryView, FieldView,
};
use crate::text::{framed, names_view, str_eq};

verus! {

/// An error of the usage check: the message, where the fault is, and the
/// name of the definition that holds it.
pub type UsageError = (String, Span, Span);

/// The view of a [`UsageError`].
pub type UsageErrorView = (Seq<char>, Span, Span);

/// The views of a run of errors, in order.
pub open spec fn usage_view(v: Seq<UsageError>) -> Seq<UsageErrorView> {
    Seq::new(v.len(), |i: int| (v[i].0@, v[i].1, v[i].2))
}

/// What the fields before index `upto` say of the name `name`: nothing if
/// none of them carries it; else whether the latest that does is an enum
/// field, and of which enum.
pub open spec fn field_lookup(fields: Seq<FieldEntryView>, upto: int, name: Seq<char>) -> Option<
    Option<Seq<char>>,
>
    decreases upto,
{
    if upto <= 0 {
        None
    } else if entry_name(fields[upto - 1]) == name {
        match entry_type(fields[upto - 1]) {
            FieldView::Enum { name: e, .. } => Some(Some(e.0)),
            _ => Some(None),
        }
    } else {
        field_lookup(fields, upto - 1, name)
    }
}

/// Whether one of the entries before index `upto` has the label `label`.
pub open spec fn label_before(entries: Seq<EnumEntryView>, upto: int, label: Seq<char>) -> bool {
    exists|j: int| 0 <= j < upto && j < entries.len() && variant_label(#[trigger] entries[j])
        == label
}

/// Whether one of the cases has the label `label`.
pub open spec fn has_case(cases: Seq<FieldEntryView>, label: Seq<char>) -> bool {
    exists|j: int| 0 <= j < cases.len() && entry_name(#[trigger] cases[j]) == label
}

/// The labels among the first `n` entries that no case has, each once, in
/// the order in which the enum declares them.
pub open spec fn missing_labels(entries: Seq<EnumEntryView>, n: int, cases: Seq<FieldEntryView>)
    -> Seq<Seq<char>>
    decreases n,
{
    if n <= 0 {
        Seq::empty()
    } else {
        let before = missing_labels(entries, n - 1, cases);
        let label = variant_label(entries[n - 1]);
        if has_case(cases, label) || label_before(entries, n - 1, label) {
            before
        } else {
            before.push(label)
        }
    }
}

/// The labels in double quotes, with a comma and a space between them.
pub open spec fn quoted_list(labels: Seq<Seq<char>>) -> Seq<char>
    decreases labels.len(),
{
    if labels.len() == 0 {
        Seq::empty()
    } else if labels.len() == 1 {
        "\""@ + labels[0] + "\""@
    } else {
        quoted_list(labels.drop_last()) + ", "@ + ("\""@ + labels.last() + "\""@)
    }
}

/// The message for a field name that is used again.
pub open spec fn duplicate_field_message(name: Seq<char>) -> Seq<char> {
    "Duplicate field '"@ + name + "' in struct"@
}

/// The message for a label that is used again.
pub open spec fn duplicate_variant_message(label: Seq<char>) -> Seq<char> {
    "Duplicate enum variant '"@ + label + "'"@
}

/// The message for a field whose type is not defined.
pub open spec fn undefined_struct_message(name: Seq<char>) -> Seq<char> {
    "Undefined struct type '"@ + name + "'"@
}

/// The message for a match on a name that no field before it carries.
pub open spec fn not_a_field_message(name: Seq<char>) -> Seq<char> {
    "Field '"@ + name + "' is not a field of this struct"@
}

/// The message for a match on a field that is not an enum field.
pub open spec fn not_an_enum_message(name: Seq<char>) -> Seq<char> {
    "Field '"@ + name + "' is not an enum at this use site"@
}

/// The message for a match on a field whose type is defined as a struct.
pub open spec fn not_an_enum_type_message(name: Seq<char>) -> Seq<char> {
    "Match discriminant '"@ + name + "' is not an enum type"@
}

/// The message for a match on a field whose enum is not defined.
pub open spec fn undefined_enum_message(name: Seq<char>) -> Seq<char> {
    "Match on undefined enum '"@ + name + "'"@
}

/// The message for a case whose label the enum does not declare.
pub open spec fn unknown_variant_message(label: Seq<char>, name: Seq<char>) -> Seq<char> {
    "Unknown variant '"@ + label + "' for enum '"@ + name + "'"@
}

/// The message for a match that misses labels.
pub open spec fn non_exhaustive_message(name: Seq<char>, missing: Seq<Seq<char>>) -> Seq<char> {
    "Non-exhaustive match on enum '"@ + name + "', missing: ["@ + quoted_list(missing) + "]"@
}

/// One error for each case from index `k` on whose label `entries` does not
/// declare, at the label.
pub open spec fn unknown_errors(
    cases: Seq<FieldEntryView>,
    k: int,
    entries: Seq<EnumEntryView>,
    name: Seq<char>,
    owner: Span,
) -> Seq<UsageErrorView>
    decreases cases.len() - k,
{
    if 0 <= k < cases.len() {
        let label = cases[k].0.0;
        (if label_before(entries, entries.len() as int, label.0) {
            Seq::<UsageErrorView>::empty()
        } else {
            seq![(unknown_variant_message(label.0, name), label.1, owner)]
        }) + unknown_errors(cases, k + 1, entries, name, owner)
    } else {
        Seq::empty()
    }
}

/// The errors of a match on the field `discriminant`, an enum field of the
/// enum `enum_name`, as far as they concern the labels of the cases.
pub open spec fn label_errors(
    defs: DefsView,
    enum_name: Seq<char>,
    discriminant: (Seq<char>, Span),
    cases: Seq<FieldEntryView>,
    owner: Span,
) -> Seq<UsageErrorView> {
    match defs_get(defs, enum_name) {
        Some(DefinitionView::Enum { name, entries }) => {
            let missing = missing_labels(entries.0, entries.0.len() as int, cases);
            unknown_errors(cases, 0, entries.0, discriminant.0, owner) + (if missing.len() > 0 {
                seq![(non_exhaustive_message(discriminant.0, missing), discriminant.1, owner)]
            } else {
                Seq::<UsageErrorView>::empty()
            })
        },
        Some(DefinitionView::Struct { .. }) => seq![
            (not_an_enum_type_message(discriminant.0), discriminant.1, owner),
        ],
        None => seq![(undefined_enum_message(discriminant.0), discriminant.1, owner)],
    }
}

/// The errors of the field type `ty`, which stands in the field with index
/// `upto` of the struct with the fields `fields`, whose name is at `owner`.
pub open spec fn type_errors(
    ty: FieldView,
    fields: Seq<FieldEntryView>,
    upto: int,
    defs: DefsView,
    owner: Span,
) -> Seq<UsageErrorView>
    decreases ty, 0nat,
{
    match ty {
        FieldView::Struct { name } => if defs_has(defs, name.0) {
            Seq::empty()
        } else {
            seq![(undefined_struct_message(name.0), name.1, owner)]
        },
        FieldView::Array { element_type, .. } => type_errors(
            element_type.0,
            fields,
            upto,
            defs,
            owner,
        ),
        FieldView::Match { discriminant, cases } => match field_lookup(
            fields,
            upto,
            discriminant.0,
        ) {
            None => seq![(not_a_field_message(discriminant.0), discriminant.1, owner)],
            Some(None) => seq![(not_an_enum_message(discriminant.0), discriminant.1, owner)],
            Some(Some(enum_name)) => label_errors(defs, enum_name, discriminant, cases.0, owner)
                + cases_errors(cases.0, 0, fields, upto, defs, owner),
        },
        _ => Seq::empty(),
    }
}

/// The errors of the types of the cases from index `k` on.
pub open spec fn cases_errors(
    cases: Seq<FieldEntryView>,
    k: int,
    fields: Seq<FieldEntryView>,
    upto: int,
    defs: DefsView,
    owner: Span,
) -> Seq<UsageErrorView>
    decreases cases, cases.len() - k,
{
    if 0 <= k < cases.len() {
        type_errors(entry_type(cases[k]), fields, upto, defs, owner) + cases_errors(
            cases,
            k + 1,
            fields,
            upto,
            defs,
            owner,
        )
    } else {
        Seq::empty()
    }
}

/// The errors of the fields from index `k` on: for each field, first that
/// its name was used before, then the errors of its type.
pub open spec fn struct_errors(fields: Seq<FieldEntryView>, k: int, defs: DefsView, owner: Span)
    -> Seq<UsageErrorView>
    decreases fields.len() - k,
{
    if 0 <= k < fields.len() {
        (if field_lookup(fields, k, entry_name(fields[k])) is Some {
            seq![(duplicate_field_message(entry_name(fields[k])), fields[k].1, owner)]
        } else {
            Seq::<UsageErrorView>::empty()
        }) + type_errors(entry_type(fields[k]), fields, k, defs, owner) + struct_errors(
            fields,
            k + 1,
            defs,
            owner,
        )
    } else {
        Seq::empty()
    }
}

/// One error for each entry from index `k` on whose label was used before.
pub open spec fn enum_errors(entries: Seq<EnumEntryView>, k: int, owner: Span) -> Seq<
    UsageErrorView,
>
    decreases entries.len() - k,
{
    if 0 <= k < entries.len() {
        (if label_before(entries, k, variant_label(entries[k])) {
            seq![(duplicate_variant_message(variant_label(entries[k])), entries[k].1, owner)]
        } else {
            Seq::<UsageErrorView>::empty()
        }) + enum_errors(entries, k + 1, owner)
    } else {
        Seq::empty()
    }
}

/// The errors of one definition.
pub open spec fn definition_errors(def: DefinitionView, defs: DefsView) -> Seq<UsageErrorView> {
    match def {
        DefinitionView::Struct { name, fields } => struct_errors(fields.0, 0, defs, name.1),
        DefinitionView::Enum { name, entries } => enum_errors(entries.0, 0, name.1),
    }
}

/// The errors of the definitions from index `i` on.
pub open spec fn usage_from(defs: DefsView, i: int) -> Seq<UsageErrorView>
    decreases defs.len() - i,
{
    if 0 <= i < defs.len() {
        definition_errors(defs[i].1, defs) + usage_from(defs, i + 1)
    } else {
        Seq::empty()
    }
}

/// The usage errors of a program: those of each definition, in the order of
/// the definitions.
pub open spec fn usage_errors(defs: DefsView) -> Seq<UsageErrorView> {
    usage_from(defs, 0)
}

/// What a lookup among the fields gave, in the terms of [`field_lookup`].
pub open spec fn lookup_view(r: Option<Option<String>>) -> Option<Option<Seq<char>>> {
    match r {
        None => None,
        Some(None) => Some(None),
        Some(Some(s)) => Some(Some(s@)),
    }
}

/// What the fields before index `upto` say of the name `name`.
pub fn lookup_field(fields: &Vec<FieldEntry>, upto: usize, name: &str) -> (r: Option<
    Option<String>,
>)
    requires
        upto <= fields.len(),
    ensures
        lookup_view(r) == field_lookup(field_entries_view(fields@), upto as int, name@),
{
    let ghost fs = field_entries_view(fields@);
    let mut k: usize = upto;
    while k > 0
        invariant
            k <= upto <= fields.len(),
            fs == field_entries_view(fields@),
            field_lookup(fs, k as int, name@) == field_lookup(fs, upto as int, name@),
        decreases k,
    {
        assert(fs[k - 1] == field_entry_view(fields@[k - 1]));
        if str_eq(fields[k - 1].0.0.0.as_str(), name) {
            return match &fields[k - 1].0.1.0 {
                FieldAST::Enum { name: e, .. } => Some(Some(e.0.clone())),
                _ => Some(None),
            };
        }
        k -= 1;
    }
    None
}

/// Whether one of the entries before index `upto` has the label `label`.
pub fn has_label(entries: &Vec<EnumEntry>, upto: usize, label: &str) -> (b: bool)
    requires
        upto <= entries.len(),
    ensures
        b == label_before(enum_entries_view(entries@), upto as int, label@),
{
    let ghost es = enum_entries_view(entries@);
    let mut j: usize = 0;
    while j < upto
        invariant
            j <= upto <= entries.len(),
            es == enum_entries_view(entries@),
            forall|i: int| 0 <= i < j ==> variant_label(#[trigger] es[i]) != label@,
        decreases upto - j,
    {
        assert(es[j as int] == enum_entry_view(entries@[j as int]));
        if str_eq(entries[j].0.0.0.as_str(), label) {
            return true;
        }
        j += 1;
    }
    false
}

/// Whether one of the cases has the label `label`.
pub fn case_exists(cases: &Vec<FieldEntry>, label: &str) -> (b: bool)
    ensures
        b == has_case(field_entries_view(cases@), label@),
{
    let ghost cs = field_entries_view(cases@);
    let mut j: usize = 0;
    while j < cases.len()
        invariant
            j <= cases.len(),
            cs == field_entries_view(cases@),
            forall|i: int| 0 <= i < j ==> entry_name(#[trigger] cs[i]) != label@,
        decreases cases.len() - j,
    {
        assert(cs[j as int] == field_entry_view(cases@[j as int]));
        if str_eq(cases[j].0.0.0.as_str(), label) {
            return true;
        }
        j += 1;
    }
    false
}

/// The labels that no case has, each once, in the order in which the enum
/// declares them.
pub fn missing_cases(entries: &Vec<EnumEntry>, cases: &Vec<FieldEntry>) -> (missing: Vec<String>)
    ensures
        names_view(missing@) == missing_labels(
            enum_entries_view(entries@),
            entries@.len() as int,
            field_entries_view(cases@),
        ),
{
    let ghost es = enum_entries_view(entries@);
    let ghost cs = field_entries_view(cases@);
    let mut missing: Vec<String> = Vec::new();
    let mut n: usize = 0;
    assert(names_view(missing@) =~= Seq::<Seq<char>>::empty());
    while n < entries.len()
        invariant
            n <= entries.len(),
            es == enum_entries_view(entries@),
            cs == field_entries_view(cases@),
            names_view(missing@) == missing_labels(es, n as int, cs),
        decreases entries.len() - n,
    {
        assert(es[n as int] == enum_entry_view(entries@[n as int]));
        let label = &entries[n].0.0.0;
        if !case_exists(cases, label.as_str()) && !has_label(entries, n, label.as_str()) {
            let ghost before = missing@;
            missing.push(label.clone());
            assert(names_view(missing@) =~= names_view(before).push(label@));
        }
        n += 1;
    }
    missing
}

/// The labels in double quotes, with a comma and a space between them.
pub fn list_text(labels: &Vec<String>) -> (s: String)
    ensures
        s@ == quoted_list(names_view(labels@)),
{
    let ghost names = names_view(labels@);
    let mut out = String::new();
    let mut k: usize = 0;
    assert(names.take(0) =~= Seq::<Seq<char>>::empty());
    while k < labels.len()
        invariant
            k <= labels.len(),
            names == names_view(labels@),
            out@ == quoted_list(names.take(k as int)),
        decreases labels.len() - k,
    {
        let ghost before = names.take(k as int);
        let ghost after = names.take(k as int + 1);
        assert(after.drop_last() =~= before);
        assert(after.last() == labels[k as int]@);
        let ghost old_out = out@;
        if k > 0 {
            out.append(", ");
        }
        out.append("\"");
        out.append(labels[k].as_str());
        out.append("\"");
        assert(out@ =~= quoted_list(after)) by {
            if k == 0 {
                assert(old_out =~= Seq::<char>::empty());
                assert(after[0] == labels[0]@);
            } else {
                assert(out@ =~= old_out + ", "@ + ("\""@ + after.last() + "\""@));
            }
        }
        k += 1;
    }
    assert(names.take(labels.len() as int) =~= names);
    out
}

/// Adds one error to `errors`.
fn emit(errors: &mut Vec<UsageError>, message: String, span: Span, owner: Span)
    ensures
        usage_view(final(errors)@) == usage_view(old(errors)@).push((message@, span, owner)),
        usage_view(final(errors)@) == usage_view(old(errors)@) + seq![(message@, span, owner)],
{
    errors.push((message, span, owner));
    assert(usage_view(errors@) =~= usage_view(old(errors)@).push((message@, span, owner)));
    assert(usage_view(old(errors)@).push((message@, span, owner)) =~= usage_view(old(errors)@)
        + seq![(message@, span, owner)]);
}

/// Checks the labels of the cases of a match on the field `discriminant`,
/// an enum field of the enum `enum_name`.
pub fn check_labels(
    defs: &DefinitionMap,
    enum_name: &str,
    discriminant: &Spanned<String>,
    cases: &Vec<FieldEntry>,
    owner: Span,
    errors: &mut Vec<UsageError>,
)
    requires
        defs.wf(),
    ensures
        usage_view(final(errors)@) == usage_view(old(errors)@) + label_errors(
            defs@,
            enum_name@,
            (discriminant.0@, discriminant.1),
            field_entries_view(cases@),
            owner,
        ),
{
    let ghost cs = field_entries_view(cases@);
    let ghost start = usage_view(errors@);
    let ghost disc = discriminant.0@;
    match defs.get(enum_name) {
        Some(DefinitionAST::Enum { name, entries }) => {
            let ghost es = enum_entries_view(entries.0@);
            let mut k: usize = 0;
            assert(start + unknown_errors(cs, 0, es, disc, owner) =~= usage_view(errors@)
                + unknown_errors(cs, 0, es, disc, owner));
            while k < cases.len()
                invariant
                    k <= cases.len(),
                    cs == field_entries_view(cases@),
                    es == enum_entries_view(entries.0@),
                    disc == discriminant.0@,
                    usage_view(errors@) + unknown_errors(cs, k as int, es, disc, owner) == start
                        + unknown_errors(cs, 0, es, disc, owner),
                decreases cases.len() - k,
            {
                assert(cs[k as int] == field_entry_view(cases@[k as int]));
                let label = &cases[k].0.0;
                let ghost now = usage_view(errors@);
                let ghost rest = unknown_errors(cs, k as int + 1, es, disc, owner);
                if !has_label(&entries.0, entries.0.len(), label.0.as_str()) {
                    let mut message = framed("Unknown variant '", label.0.as_str(), "' for enum '");
                    message.append(discriminant.0.as_str());
                    message.append("'");
                    let ghost item = (message@, label.1, owner);
                    emit(errors, message, label.1, owner);
                    assert((now + seq![item]) + rest =~= now + (seq![item] + rest));
                } else {
                    assert(now + (Seq::<UsageErrorView>::empty() + rest) =~= now + rest);
                }
                k += 1;
            }
            assert(usage_view(errors@) + Seq::<UsageErrorView>::empty() =~= usage_view(errors@));
            let missing = missing_cases(&entries.0, cases);
            let ghost now = usage_view(errors@);
            if missing.len() > 0 {
                let mut message = framed(
                    "Non-exhaustive match on enum '",
                    discriminant.0.as_str(),
                    "', missing: [",
                );
                message.append(list_text(&missing).as_str());
                message.append("]");
                emit(errors, message, discriminant.1, owner);
                assert(usage_view(errors@) =~= start + label_errors(
                    defs@,
                    enum_name@,
                    (discriminant.0@, discriminant.1),
                    cs,
                    owner,
                ));
            } else {
                assert(now + Seq::<UsageErrorView>::empty() =~= now);
            }
        },
        Some(DefinitionAST::Struct { .. }) => {
            emit(
                errors,
                framed("Match discriminant '", discriminant.0.as_str(), "' is not an enum type"),
                discriminant.1,
                owner,
            );
        },
        None => {
            emit(
                errors,
                framed("Match on undefined enum '", discriminant.0.as_str(), "'"),
                discriminant.1,
                owner,
            );
        },
    }
}

/// Checks the field type `ast`, which stands in the field with index `upto`
/// of the struct with the fields `fields`, whose name is at `owner`.
pub fn check_field_usage(
    ast: &FieldAST,
    fields: &Vec<FieldEntry>,
    upto: usize,
    defs: &DefinitionMap,
    owner: Span,
    errors: &mut Vec<UsageError>,
)
    requires
        defs.wf(),
        upto <= fields.len(),
    ensures
        usage_view(final(errors)@) == usage_view(old(errors)@) + type_errors(
            ast@,
            field_entries_view(fields@),
            upto as int,
            defs@,
            owner,
        ),
    decreases ast,
{
    let ghost start = usage_view(errors@);
    let ghost fs = field_entries_view(fields@);
    match ast {
        FieldAST::Struct { name } => {
            if !defs.contains_key(name.0.as_str()) {
                emit(
                    errors,
                    framed("Undefined struct type '", name.0.as_str(), "'"),
                    name.1,
                    owner,
                );
            } else {
                assert(start + Seq::<UsageErrorView>::empty() =~= start);
            }
        },
        FieldAST::Array { element_type, .. } => {
            check_field_usage(&element_type.0, fields, upto, defs, owner, errors);
        },
        FieldAST::Match { discriminant, cases } => {
            proof {
                lemma_match_view(*discriminant, *cases);
            }
            let ghost cs = field_entries_view(cases.0@);
            match lookup_field(fields, upto, discriminant.0.as_str()) {
                None => {
                    emit(
                        errors,
                        framed("Field '", discriminant.0.as_str(), "' is not a field of this struct"),
                        discriminant.1,
                        owner,
                    );
                },
                Some(None) => {
                    emit(
                        errors,
                        framed(
                            "Field '",
                            discriminant.0.as_str(),
                            "' is not an enum at this use site",
                        ),
                        discriminant.1,
                        owner,
                    );
                },
                Some(Some(enum_name)) => {
                    check_labels(defs, enum_name.as_str(), discriminant, &cases.0, owner, errors);
                    let ghost mid = usage_view(errors@);
                    let mut k: usize = 0;
                    while k < cases.0.len()
                        invariant
                            k <= cases.0.len(),
                            defs.wf(),
                            upto <= fields.len(),
                            ast is Match,
                            ast->cases == *cases,
                            cs == field_entries_view(cases.0@),
                            fs == field_entries_view(fields@),
                            usage_view(errors@) + cases_errors(
                                cs,
                                k as int,
                                fs,
                                upto as int,
                                defs@,
                                owner,
                            ) == mid + cases_errors(cs, 0, fs, upto as int, defs@, owner),
                        decreases cases.0.len() - k,
                    {
                        assert(cs[k as int] == field_entry_view(cases.0@[k as int]));
                        let ghost now = usage_view(errors@);
                        let ghost here = type_errors(
                            entry_type(cs[k as int]),
                            fs,
                            upto as int,
                            defs@,
                            owner,
                        );
                        let ghost rest = cases_errors(
                            cs,
                            k as int + 1,
                            fs,
                            upto as int,
                            defs@,
                            owner,
                        );
                        check_field_usage(&cases.0[k].0.1.0, fields, upto, defs, owner, errors);
                        assert((now + here) + rest =~= now + (here + rest));
                        k += 1;
                    }
                    assert(usage_view(errors@) + Seq::<UsageErrorView>::empty() =~= usage_view(
                        errors@,
                    ));
                    assert(usage_view(errors@) =~= start + (label_errors(
                        defs@,
                        enum_name@,
                        (discriminant.0@, discriminant.1),
                        cs,
                        owner,
                    ) + cases_errors(cs, 0, fs, upto as int, defs@, owner)));
                },
            }
        },
        _ => {
            assert(start + Seq::<UsageErrorView>::empty() =~= start);
        },
    }
}

/// Checks the fields of a struct whose name is at `owner`.
pub fn check_struct(
    fields: &Vec<FieldEntry>,
    defs: &DefinitionMap,
    owner: Span,
    errors: &mut Vec<UsageError>,
)
    requires
        defs.wf(),
    ensures
        usage_view(final(errors)@) == usage_view(old(errors)@) + struct_errors(
            field_entries_view(fields@),
            0,
            defs@,
            owner,
        ),
{
    let ghost start = usage_view(errors@);
    let ghost fs = field_entries_view(fields@);
    let mut k: usize = 0;
    while k < fields.len()
        invariant
            k <= fields.len(),
            defs.wf(),
            fs == field_entries_view(fields@),
            usage_view(errors@) + struct_errors(fs, k as int, defs@, owner) == start
                + struct_errors(fs, 0, defs@, owner),
        decreases fields.len() - k,
    {
        assert(fs[k as int] == field_entry_view(fields@[k as int]));
        let ghost now = usage_view(errors@);
        let ghost rest = struct_errors(fs, k as int + 1, defs@, owner);
        let ghost here = type_errors(entry_type(fs[k as int]), fs, k as int, defs@, owner);
        let entry = &fields[k];
        let ghost dup: Seq<UsageErrorView> = if field_lookup(
            fs,
            k as int,
            entry_name(fs[k as int]),
        ) is Some {
            seq![(duplicate_field_message(entry_name(fs[k as int])), fs[k as int].1, owner)]
        } else {
            Seq::empty()
        };
        if lookup_field(fields, k, entry.0.0.0.as_str()).is_some() {
            emit(
                errors,
                framed("Duplicate field '", entry.0.0.0.as_str(), "' in struct"),
                entry.1,
                owner,
            );
        } else {
            assert(now + Seq::<UsageErrorView>::empty() =~= now);
        }
        assert(usage_view(errors@) == now + dup);
        check_field_usage(&entry.0.1.0, fields, k, defs, owner, errors);
        assert(((now + dup) + here) + rest =~= now + ((dup + here) + rest));
        k += 1;
    }
    assert(usage_view(errors@) + Seq::<UsageErrorView>::empty() =~= usage_view(errors@));
}

/// Checks the entries of an enum whose name is at `owner`.
pub fn check_enum(entries: &Vec<EnumEntry>, owner: Span, errors: &mut Vec<UsageError>)
    ensures
        usage_view(final(errors)@) == usage_view(old(errors)@) + enum_errors(
            enum_entries_view(entries@),
            0,
            owner,
        ),
{
    let ghost start = usage_view(errors@);
    let ghost es = enum_entries_view(entries@);
    let mut k: usize = 0;
    while k < entries.len()
        invariant
            k <= entries.len(),
            es == enum_entries_view(entries@),
            usage_view(errors@) + enum_errors(es, k as int, owner) == start + enum_errors(
                es,
                0,
                owner,
            ),
        decreases entries.len() - k,
    {
        assert(es[k as int] == enum_entry_view(entries@[k as int]));
        let ghost now = usage_view(errors@);
        let ghost rest = enum_errors(es, k as int + 1, owner);
        let entry = &entries[k];
        if has_label(entries, k, entry.0.0.0.as_str()) {
            let message = framed("Duplicate enum variant '", entry.0.0.0.as_str(), "'");
            let ghost item = (message@, entry.1, owner);
            emit(errors, message, entry.1, owner);
            assert((now + seq![item]) + rest =~= now + (seq![item] + rest));
        } else {
            assert(now + (Seq::<UsageErrorView>::empty() + rest) =~= now + rest);
        }
        k += 1;
    }
    assert(usage_view(errors@) + Seq::<UsageErrorView>::empty() =~= usage_view(errors@));
}

/// Checks every definition of a program: that the structs named by fields
/// exist, that each match is decided by an enum field declared before it
/// and has exactly the cases that the enum declares, and that no struct
/// uses a field name twice and no enum a label.
///
/// The errors come in the order of the definitions, and inside a definition
/// in the order of its fields or entries. Each holds the message, the span
/// of the fault and the span of the name of the definition.
pub fn check_usage(defs: &DefinitionMap) -> (errors: Vec<UsageError>)
    requires
        defs.wf(),
    ensures
        usage_view(errors@) == usage_errors(defs@),
{
    let mut errors: Vec<UsageError> = Vec::new();
    let mut i: usize = 0;
    assert(usage_view(errors@) =~= Seq::<UsageErrorView>::empty());
    assert(usage_view(errors@) + usage_from(defs@, 0) =~= usage_from(defs@, 0));
    while i < defs.len()
        invariant
            i <= defs@.len(),
            defs.wf(),
            usage_view(errors@) + usage_from(defs@, i as int) == usage_errors(defs@),
        decreases defs@.len() - i,
    {
        let ghost now = usage_view(errors@);
        let ghost here = definition_errors(defs@[i as int].1, defs@);
        let ghost rest = usage_from(defs@, i as int + 1);
        let def = defs.definition_at(i);
        match def {
            DefinitionAST::Struct { name, fields } => {
                check_struct(&fields.0, defs, name.1, &mut errors);
            },
            DefinitionAST::Enum { name, entries } => {
                check_enum(&entries.0, name.1, &mut errors);
            },
        }
        assert((now + here) + rest =~= now + (here + rest));
        i += 1;
    }
    assert(usage_view(errors@) + Seq::<UsageErrorView>::empty() =~= usage_view(errors@));
    errors
}

} // verus!

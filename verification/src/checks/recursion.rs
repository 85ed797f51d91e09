//! Detection of structs that contain themselves.
//!
//! A struct refers to another where one of its fields has that struct as
//! its type; a reference inside an array or a match does not count. The
//! check walks these references depth first from every definition, in the
//! order of the definitions, and reports each reference that leads back to
//! a struct on the current path.

use vstd::prelude::*;
use vstd::string::*;
use crate::definitions::{defs_get, defs_has, DefinitionMap, DefsView};
use crate::span::Span;
use crate::syntax::{
    entry_type, field_entries_view, field_entry_view, DefinitionAST, DefinitionView, FieldAST,
    FieldEntryView, FieldView,
};
use crate::text::{names_view, str_eq};

verus! {

/// What a walk has gathered: the names it has been at and the errors, each a
/// message and the span of the name of the definition from which the walk
/// set out.
pub struct Walk {
    pub visited: Set<Seq<char>>,
    pub errors: Seq<(Seq<char>, Span)>,
}

/// The index of the first `x` in `s` at or after `from`, or the length of
/// `s` if there is none.
pub open spec fn position(s: Seq<Seq<char>>, x: Seq<char>, from: int) -> int
    decreases s.len() - from,
{
    if 0 <= from < s.len() && s[from] != x {
        position(s, x, from + 1)
    } else {
        from
    }
}

/// The names, each followed by an arrow.
pub open spec fn arrow_chain(names: Seq<Seq<char>>) -> Seq<char>
    decreases names.len(),
{
    if names.len() == 0 {
        Seq::empty()
    } else {
        arrow_chain(names.drop_last()) + names.last() + " -> "@
    }
}

/// The message for reaching `node` again, which is on the path `stack`:
/// the path from `node` on, and `node` once more at its end.
pub open spec fn cycle_message(stack: Seq<Seq<char>>, node: Seq<char>) -> Seq<char> {
    "Recursive struct definition detected: "@ + arrow_chain(
        stack.skip(position(stack, node, 0)),
    ) + node
}

/// The walk `w` continued at `node`, reached along the path `stack` from
/// the definition whose name is at `owner`.
///
/// A node on the path is a cycle and is reported. A node that a walk has
/// been at before is left alone. Else the walk goes on to the structs that
/// the fields of `node` refer to, in the order of the fields. (The path
/// holds defined structs only, each once, so it is never longer than the
/// number of definitions.)
pub open spec fn visit(
    defs: DefsView,
    node: Seq<char>,
    stack: Seq<Seq<char>>,
    owner: Span,
    w: Walk,
) -> Walk
    decreases defs.len() - stack.len(), 0nat, 0nat,
{
    if stack.contains(node) {
        Walk { visited: w.visited, errors: w.errors.push((cycle_message(stack, node), owner)) }
    } else if w.visited.contains(node) {
        w
    } else {
        let w1 = Walk { visited: w.visited.insert(node), errors: w.errors };
        match defs_get(defs, node) {
            Some(DefinitionView::Struct { name, fields }) => if stack.len() < defs.len() {
                visit_fields(defs, fields.0, 0, stack.push(node), owner, w1)
            } else {
                w1
            },
            _ => w1,
        }
    }
}

/// The walk `w` continued at the structs that the fields from index `k` on
/// refer to, one after the other.
pub open spec fn visit_fields(
    defs: DefsView,
    fields: Seq<FieldEntryView>,
    k: int,
    stack: Seq<Seq<char>>,
    owner: Span,
    w: Walk,
) -> Walk
    decreases defs.len() - stack.len(), 1nat, fields.len() - k,
{
    if 0 <= k < fields.len() {
        let w1 = match entry_type(fields[k]) {
            FieldView::Struct { name } => visit(defs, name.0, stack, owner, w),
            _ => w,
        };
        visit_fields(defs, fields, k + 1, stack, owner, w1)
    } else {
        w
    }
}

/// The walks from the definitions with index `i` and up, each from an empty
/// path, `w` being what the walks before gathered.
pub open spec fn walk_from(defs: DefsView, i: int, w: Walk) -> Walk
    decreases defs.len() - i,
{
    if 0 <= i < defs.len() {
        walk_from(
            defs,
            i + 1,
            visit(defs, defs[i].0, Seq::empty(), defs[i].1.name_span(), w),
        )
    } else {
        w
    }
}

/// The recursion errors of a program, in the order in which the walk finds
/// them.
pub open spec fn recursion_errors(defs: DefsView) -> Seq<(Seq<char>, Span)> {
    walk_from(defs, 0, Walk { visited: Set::empty(), errors: Seq::empty() }).errors
}

/// A path of the walk: defined names, none of them twice.
pub open spec fn path_valid(defs: DefsView, stack: Seq<Seq<char>>) -> bool {
    &&& stack.no_duplicates()
    &&& forall|k: int| 0 <= k < stack.len() ==> defs_has(defs, #[trigger] stack[k])
}

/// A path is never longer than the number of definitions.
pub proof fn lemma_path_length(defs: DefsView, stack: Seq<Seq<char>>)
    requires
        path_valid(defs, stack),
    ensures
        stack.len() <= defs.len(),
{
    let keys = Seq::new(defs.len(), |i: int| defs[i].0);
    assert forall|x: Seq<char>| stack.to_set().contains(x) implies keys.to_set().contains(x) by {
        let k = choose|k: int| 0 <= k < stack.len() && stack[k] == x;
        assert(defs_has(defs, stack[k]));
        let i = choose|i: int| 0 <= i < defs.len() && (#[trigger] defs[i]).0 == x;
        assert(keys[i] == x);
    }
    stack.unique_seq_to_set();
    keys.lemma_cardinality_of_set();
    vstd::set_lib::lemma_len_subset(stack.to_set(), keys.to_set());
}

/// A path has room for every defined name that is not on it: the walk never
/// stops for want of depth.
pub proof fn lemma_path_has_room(defs: DefsView, stack: Seq<Seq<char>>, node: Seq<char>)
    requires
        path_valid(defs, stack),
        defs_has(defs, node),
        !stack.contains(node),
    ensures
        stack.len() < defs.len(),
        path_valid(defs, stack.push(node)),
{
    let longer = stack.push(node);
    assert forall|i: int, j: int|
        0 <= i < longer.len() && 0 <= j < longer.len() && i != j implies longer[i]
        != longer[j] by {
        if i < stack.len() && j < stack.len() {
        } else if i < stack.len() {
            assert(stack[i] != node);
        } else {
            assert(stack[j] != node);
        }
    }
    lemma_path_length(defs, longer);
}

/// A name is on the path exactly if its position is inside the path.
pub proof fn lemma_position(s: Seq<Seq<char>>, x: Seq<char>, from: int)
    requires
        0 <= from <= s.len(),
    ensures
        from <= position(s, x, from) <= s.len(),
        position(s, x, from) < s.len() ==> s[position(s, x, from)] == x,
        forall|k: int| from <= k < position(s, x, from) ==> s[k] != x,
    decreases s.len() - from,
{
    if from < s.len() && s[from] != x {
        lemma_position(s, x, from + 1);
    }
}

/// Whether the struct `a` has a field whose type is the struct `b`.
pub open spec fn refers(defs: DefsView, a: Seq<char>, b: Seq<char>) -> bool {
    match defs_get(defs, a) {
        Some(DefinitionView::Struct { name, fields }) => exists|k: int|
            0 <= k < fields.0.len() && #[trigger] entry_type(fields.0[k]) is Struct && entry_type(
                fields.0[k],
            )->Struct_name.0 == b,
        _ => false,
    }
}

/// Whether each name of `p` refers to the next.
pub open spec fn chain(defs: DefsView, p: Seq<Seq<char>>) -> bool {
    forall|i: int| 0 <= i < p.len() - 1 ==> refers(defs, #[trigger] p[i], p[i + 1])
}

/// A cycle: a chain of at least one reference that ends where it starts.
pub open spec fn is_cycle(defs: DefsView, p: Seq<Seq<char>>) -> bool {
    p.len() >= 2 && p[0] == p.last() && chain(defs, p)
}

/// The message that reports the cycle `p`.
pub open spec fn path_message(p: Seq<Seq<char>>) -> Seq<char> {
    "Recursive struct definition detected: "@ + arrow_chain(p.drop_last()) + p.last()
}

/// Whether `message` reports a cycle that the program has.
pub open spec fn reports_cycle(defs: DefsView, message: Seq<char>) -> bool {
    exists|p: Seq<Seq<char>>| is_cycle(defs, p) && message == #[trigger] path_message(p)
}

/// Whether every error reports a cycle that the program has.
pub open spec fn all_cycles(defs: DefsView, errors: Seq<(Seq<char>, Span)>) -> bool {
    forall|i: int| 0 <= i < errors.len() ==> reports_cycle(defs, (#[trigger] errors[i]).0)
}

/// A walk that arrives at `node` along a chain reports only cycles that
/// the program has.
pub proof fn lemma_visit_reports_cycles(
    defs: DefsView,
    node: Seq<char>,
    stack: Seq<Seq<char>>,
    owner: Span,
    w: Walk,
)
    requires
        chain(defs, stack),
        stack.len() > 0 ==> refers(defs, stack.last(), node),
        all_cycles(defs, w.errors),
    ensures
        all_cycles(defs, visit(defs, node, stack, owner, w).errors),
    decreases defs.len() - stack.len(), 0nat, 0nat,
{
    if stack.contains(node) {
        lemma_position(stack, node, 0);
        let first = position(stack, node, 0);
        let p = stack.skip(first).push(node);
        assert(p.drop_last() =~= stack.skip(first));
        assert(p.last() == node);
        assert(p[0] == stack[first]);
        assert forall|i: int| 0 <= i < p.len() - 1 implies refers(
            defs,
            #[trigger] p[i],
            p[i + 1],
        ) by {
            assert(p[i] == stack[first + i]);
            if i < p.len() - 2 {
                assert(p[i + 1] == stack[first + i + 1]);
            } else {
                assert(stack[first + i] == stack.last());
            }
        }
        assert(is_cycle(defs, p));
        assert(cycle_message(stack, node) == path_message(p));
        let after = visit(defs, node, stack, owner, w).errors;
        assert forall|i: int| 0 <= i < after.len() implies reports_cycle(
            defs,
            (#[trigger] after[i]).0,
        ) by {
            if i < w.errors.len() {
                assert(after[i] == w.errors[i]);
            }
        }
    } else if w.visited.contains(node) {
    } else {
        let w1 = Walk { visited: w.visited.insert(node), errors: w.errors };
        match defs_get(defs, node) {
            Some(DefinitionView::Struct { name, fields }) => {
                if stack.len() < defs.len() {
                    let longer = stack.push(node);
                    assert forall|i: int| 0 <= i < longer.len() - 1 implies refers(
                        defs,
                        #[trigger] longer[i],
                        longer[i + 1],
                    ) by {
                        if i < stack.len() - 1 {
                            assert(longer[i] == stack[i]);
                            assert(longer[i + 1] == stack[i + 1]);
                        } else {
                            assert(longer[i] == stack.last());
                        }
                    }
                    lemma_fields_report_cycles(defs, fields.0, 0, longer, owner, w1);
                }
            },
            _ => {},
        }
    }
}

/// A walk through the fields of the struct at the end of a chain reports
/// only cycles that the program has.
pub proof fn lemma_fields_report_cycles(
    defs: DefsView,
    fields: Seq<FieldEntryView>,
    k: int,
    stack: Seq<Seq<char>>,
    owner: Span,
    w: Walk,
)
    requires
        0 <= k,
        chain(defs, stack),
        stack.len() > 0,
        defs_get(defs, stack.last()) is Some,
        defs_get(defs, stack.last())->0 is Struct,
        defs_get(defs, stack.last())->0->Struct_fields.0 == fields,
        all_cycles(defs, w.errors),
    ensures
        all_cycles(defs, visit_fields(defs, fields, k, stack, owner, w).errors),
    decreases defs.len() - stack.len(), 1nat, fields.len() - k,
{
    if 0 <= k < fields.len() {
        let w1 = match entry_type(fields[k]) {
            FieldView::Struct { name } => visit(defs, name.0, stack, owner, w),
            _ => w,
        };
        match entry_type(fields[k]) {
            FieldView::Struct { name } => {
                assert(refers(defs, stack.last(), name.0));
                lemma_visit_reports_cycles(defs, name.0, stack, owner, w);
            },
            _ => {},
        }
        lemma_fields_report_cycles(defs, fields, k + 1, stack, owner, w1);
    }
}

/// The walks from the definitions with index `i` and up report only cycles
/// that the program has.
pub proof fn lemma_walk_reports_cycles(defs: DefsView, i: int, w: Walk)
    requires
        all_cycles(defs, w.errors),
    ensures
        all_cycles(defs, walk_from(defs, i, w).errors),
    decreases defs.len() - i,
{
    if 0 <= i < defs.len() {
        let w1 = visit(defs, defs[i].0, Seq::empty(), defs[i].1.name_span(), w);
        lemma_visit_reports_cycles(defs, defs[i].0, Seq::empty(), defs[i].1.name_span(), w);
        lemma_walk_reports_cycles(defs, i + 1, w1);
    }
}

/// Every recursion error is true: its message names structs of the program
/// of which each has a field of the next, and the last is the first.
pub proof fn lemma_recursion_errors_are_cycles(defs: DefsView)
    ensures
        all_cycles(defs, recursion_errors(defs)),
{
    lemma_walk_reports_cycles(defs, 0, Walk { visited: Set::empty(), errors: Seq::empty() });
}

/// A walk only adds: to the names it has been at, and to the errors.
pub proof fn lemma_visit_grows(
    defs: DefsView,
    node: Seq<char>,
    stack: Seq<Seq<char>>,
    owner: Span,
    w: Walk,
)
    ensures
        visit(defs, node, stack, owner, w).errors.len() >= w.errors.len(),
        w.visited.subset_of(visit(defs, node, stack, owner, w).visited),
    decreases defs.len() - stack.len(), 0nat, 0nat,
{
    if stack.contains(node) {
    } else if w.visited.contains(node) {
    } else {
        let w1 = Walk { visited: w.visited.insert(node), errors: w.errors };
        match defs_get(defs, node) {
            Some(DefinitionView::Struct { name, fields }) => {
                if stack.len() < defs.len() {
                    lemma_fields_grow(defs, fields.0, 0, stack.push(node), owner, w1);
                }
            },
            _ => {},
        }
    }
}

/// A walk through fields only adds: to the names it has been at, and to
/// the errors.
pub proof fn lemma_fields_grow(
    defs: DefsView,
    fields: Seq<FieldEntryView>,
    k: int,
    stack: Seq<Seq<char>>,
    owner: Span,
    w: Walk,
)
    ensures
        visit_fields(defs, fields, k, stack, owner, w).errors.len() >= w.errors.len(),
        w.visited.subset_of(visit_fields(defs, fields, k, stack, owner, w).visited),
    decreases defs.len() - stack.len(), 1nat, fields.len() - k,
{
    if 0 <= k < fields.len() {
        let w1 = match entry_type(fields[k]) {
            FieldView::Struct { name } => visit(defs, name.0, stack, owner, w),
            _ => w,
        };
        match entry_type(fields[k]) {
            FieldView::Struct { name } => {
                lemma_visit_grows(defs, name.0, stack, owner, w);
            },
            _ => {},
        }
        lemma_fields_grow(defs, fields, k + 1, stack, owner, w1);
    }
}

/// No cycle passes through a name that the walk has been at and has left
/// again: a name of a cycle that is in `visited` is on the path.
pub open spec fn finished_are_free(
    defs: DefsView,
    visited: Set<Seq<char>>,
    stack: Seq<Seq<char>>,
) -> bool {
    forall|p: Seq<Seq<char>>, i: int|
        #![trigger is_cycle(defs, p), p[i]]
        is_cycle(defs, p) && 0 <= i < p.len() && visited.contains(p[i]) ==> stack.contains(p[i])
}

/// Whether the walk has been at every name of the path.
pub open spec fn path_visited(visited: Set<Seq<char>>, stack: Seq<Seq<char>>) -> bool {
    forall|i: int| 0 <= i < stack.len() ==> visited.contains(#[trigger] stack[i])
}

/// Every name of a cycle refers to a name of the cycle.
pub proof fn lemma_cycle_successor(defs: DefsView, p: Seq<Seq<char>>, i: int) -> (j: int)
    requires
        is_cycle(defs, p),
        0 <= i < p.len(),
    ensures
        0 <= j < p.len(),
        refers(defs, p[i], p[j]),
{
    if i < p.len() - 1 {
        i + 1
    } else {
        assert(p[i] == p[0]);
        1
    }
}

/// A walk that arrives at `node` and reports nothing has been at `node`,
/// which is not on the path, and leaves every name that it has been at free
/// of cycles.
pub proof fn lemma_visit_without_errors(
    defs: DefsView,
    node: Seq<char>,
    stack: Seq<Seq<char>>,
    owner: Span,
    w: Walk,
)
    requires
        path_valid(defs, stack),
        path_visited(w.visited, stack),
        finished_are_free(defs, w.visited, stack),
        visit(defs, node, stack, owner, w).errors.len() == w.errors.len(),
    ensures
        !stack.contains(node),
        visit(defs, node, stack, owner, w).visited.contains(node),
        w.visited.subset_of(visit(defs, node, stack, owner, w).visited),
        finished_are_free(defs, visit(defs, node, stack, owner, w).visited, stack),
    decreases defs.len() - stack.len(), 0nat, 0nat,
{
    lemma_visit_grows(defs, node, stack, owner, w);
    if stack.contains(node) {
    } else if w.visited.contains(node) {
    } else {
        let w1 = Walk { visited: w.visited.insert(node), errors: w.errors };
        let after = visit(defs, node, stack, owner, w);
        match defs_get(defs, node) {
            Some(DefinitionView::Struct { name, fields }) => {
                assert(defs_has(defs, node));
                lemma_path_has_room(defs, stack, node);
                let longer = stack.push(node);
                assert(path_visited(w1.visited, longer)) by {
                    assert forall|i: int| 0 <= i < longer.len() implies w1.visited.contains(
                        #[trigger] longer[i],
                    ) by {
                        if i < stack.len() {
                            assert(longer[i] == stack[i]);
                        }
                    }
                }
                assert(finished_are_free(defs, w1.visited, longer)) by {
                    assert forall|p: Seq<Seq<char>>, i: int|
                        #![trigger is_cycle(defs, p), p[i]]
                        is_cycle(defs, p) && 0 <= i < p.len() && w1.visited.contains(
                            p[i],
                        ) implies longer.contains(p[i]) by {
                        if p[i] == node {
                            assert(longer[stack.len() as int] == node);
                        } else {
                            assert(stack.contains(p[i]));
                            let k = choose|k: int| 0 <= k < stack.len() && stack[k] == p[i];
                            assert(longer[k] == p[i]);
                        }
                    }
                }
                lemma_fields_without_errors(defs, fields.0, 0, longer, owner, w1);
                assert forall|p: Seq<Seq<char>>, i: int|
                    #![trigger is_cycle(defs, p), p[i]]
                    is_cycle(defs, p) && 0 <= i < p.len() && after.visited.contains(
                        p[i],
                    ) implies stack.contains(p[i]) by {
                    if p[i] == node {
                        let j = lemma_cycle_successor(defs, p, i);
                        let k = choose|k: int|
                            0 <= k < fields.0.len() && #[trigger] entry_type(fields.0[k]) is Struct
                                && entry_type(fields.0[k])->Struct_name.0 == p[j];
                        assert(after.visited.contains(p[j]) && !longer.contains(p[j]));
                        assert(longer.contains(p[j]));
                    } else {
                        assert(longer.contains(p[i]));
                        let k = choose|k: int| 0 <= k < longer.len() && longer[k] == p[i];
                        assert(stack[k] == p[i]);
                    }
                }
            },
            _ => {
                assert forall|p: Seq<Seq<char>>, i: int|
                    #![trigger is_cycle(defs, p), p[i]]
                    is_cycle(defs, p) && 0 <= i < p.len() && after.visited.contains(
                        p[i],
                    ) implies stack.contains(p[i]) by {
                    if p[i] == node {
                        let j = lemma_cycle_successor(defs, p, i);
                    }
                }
            },
        }
    }
}

/// A walk through the fields of the struct at the end of the path that
/// reports nothing has been at every struct that the fields from index `k`
/// on refer to, none of which is on the path, and leaves every name that it
/// has been at free of cycles.
pub proof fn lemma_fields_without_errors(
    defs: DefsView,
    fields: Seq<FieldEntryView>,
    k: int,
    stack: Seq<Seq<char>>,
    owner: Span,
    w: Walk,
)
    requires
        0 <= k,
        path_valid(defs, stack),
        path_visited(w.visited, stack),
        finished_are_free(defs, w.visited, stack),
        visit_fields(defs, fields, k, stack, owner, w).errors.len() == w.errors.len(),
    ensures
        w.visited.subset_of(visit_fields(defs, fields, k, stack, owner, w).visited),
        finished_are_free(defs, visit_fields(defs, fields, k, stack, owner, w).visited, stack),
        forall|m: int|
            k <= m < fields.len() && #[trigger] entry_type(fields[m]) is Struct ==> visit_fields(
                defs,
                fields,
                k,
                stack,
                owner,
                w,
            ).visited.contains(entry_type(fields[m])->Struct_name.0) && !stack.contains(
                entry_type(fields[m])->Struct_name.0,
            ),
    decreases defs.len() - stack.len(), 1nat, fields.len() - k,
{
    if 0 <= k < fields.len() {
        let w1 = match entry_type(fields[k]) {
            FieldView::Struct { name } => visit(defs, name.0, stack, owner, w),
            _ => w,
        };
        lemma_fields_grow(defs, fields, k + 1, stack, owner, w1);
        match entry_type(fields[k]) {
            FieldView::Struct { name } => {
                lemma_visit_grows(defs, name.0, stack, owner, w);
                lemma_visit_without_errors(defs, name.0, stack, owner, w);
            },
            _ => {},
        }
        assert(path_visited(w1.visited, stack));
        lemma_fields_without_errors(defs, fields, k + 1, stack, owner, w1);
    }
}

/// The walks from the definitions with index `i` and up, where they report
/// nothing, have been at each of these definitions and leave every name
/// that a walk has been at free of cycles.
pub proof fn lemma_walk_without_errors(defs: DefsView, i: int, w: Walk)
    requires
        0 <= i,
        finished_are_free(defs, w.visited, Seq::empty()),
        walk_from(defs, i, w).errors.len() == w.errors.len(),
    ensures
        w.visited.subset_of(walk_from(defs, i, w).visited),
        finished_are_free(defs, walk_from(defs, i, w).visited, Seq::empty()),
        forall|m: int| i <= m < defs.len() ==> walk_from(defs, i, w).visited.contains(
            (#[trigger] defs[m]).0,
        ),
    decreases defs.len() - i,
{
    if 0 <= i < defs.len() {
        let w1 = visit(defs, defs[i].0, Seq::empty(), defs[i].1.name_span(), w);
        lemma_visit_grows(defs, defs[i].0, Seq::empty(), defs[i].1.name_span(), w);
        lemma_walk_grows(defs, i + 1, w1);
        lemma_visit_without_errors(defs, defs[i].0, Seq::empty(), defs[i].1.name_span(), w);
        lemma_walk_without_errors(defs, i + 1, w1);
    }
}

/// The walks from the definitions only add to the errors.
pub proof fn lemma_walk_grows(defs: DefsView, i: int, w: Walk)
    ensures
        walk_from(defs, i, w).errors.len() >= w.errors.len(),
    decreases defs.len() - i,
{
    if 0 <= i < defs.len() {
        let w1 = visit(defs, defs[i].0, Seq::empty(), defs[i].1.name_span(), w);
        lemma_visit_grows(defs, defs[i].0, Seq::empty(), defs[i].1.name_span(), w);
        lemma_walk_grows(defs, i + 1, w1);
    }
}

/// A program without recursion errors has no cycle: no chain of structs of
/// which each has a field of the next leads back to its start.
pub proof fn lemma_no_errors_no_cycles(defs: DefsView, p: Seq<Seq<char>>)
    requires
        recursion_errors(defs).len() == 0,
    ensures
        !is_cycle(defs, p),
{
    let w = Walk { visited: Set::empty(), errors: Seq::empty() };
    lemma_walk_without_errors(defs, 0, w);
    if is_cycle(defs, p) {
        let last = walk_from(defs, 0, w).visited;
        assert(refers(defs, p[0], p[1]));
        assert(defs_has(defs, p[0]));
        let m = choose|m: int| 0 <= m < defs.len() && (#[trigger] defs[m]).0 == p[0];
        assert(last.contains(defs[m].0));
        assert(last.contains(p[0]));
        assert(Seq::<Seq<char>>::empty().contains(p[0]));
    }
}

/// The view of a list of errors.
pub open spec fn messages_view(v: Seq<(String, Span)>) -> Seq<(Seq<char>, Span)> {
    Seq::new(v.len(), |i: int| (v[i].0@, v[i].1))
}

/// What the walk has gathered, from the vectors that hold it.
pub open spec fn walk_view(visited: Seq<String>, errors: Seq<(String, Span)>) -> Walk {
    Walk { visited: names_view(visited).to_set(), errors: messages_view(errors) }
}

/// Whether `name` is among `names`.
fn contains_name(names: &Vec<String>, name: &str) -> (b: bool)
    ensures
        b == names_view(names@).to_set().contains(name@),
{
    let mut i: usize = 0;
    while i < names.len()
        invariant
            i <= names.len(),
            forall|k: int| 0 <= k < i ==> names_view(names@)[k] != name@,
        decreases names.len() - i,
    {
        if str_eq(names[i].as_str(), name) {
            assert(names_view(names@)[i as int] == name@);
            return true;
        }
        i += 1;
    }
    false
}

/// The index of the first `name` among `names`, or their number if there is
/// none.
fn position_of(names: &Vec<String>, name: &str) -> (r: usize)
    ensures
        r == position(names_view(names@), name@, 0),
        r <= names.len(),
{
    let mut i: usize = 0;
    while i < names.len()
        invariant
            i <= names.len(),
            position(names_view(names@), name@, i as int) == position(
                names_view(names@),
                name@,
                0,
            ),
        decreases names.len() - i,
    {
        if str_eq(names[i].as_str(), name) {
            return i;
        }
        i += 1;
    }
    i
}

/// The message for reaching `node` again, which is on the path at index
/// `first`.
fn cycle_text(stack: &Vec<String>, first: usize, node: &str) -> (s: String)
    requires
        first <= stack.len(),
    ensures
        s@ == "Recursive struct definition detected: "@ + arrow_chain(
            names_view(stack@).skip(first as int),
        ) + node@,
{
    let mut out = String::from_str("Recursive struct definition detected: ");
    let mut k: usize = first;
    let ghost names = names_view(stack@);
    assert(names.skip(first as int).take(0) =~= Seq::<Seq<char>>::empty());
    while k < stack.len()
        invariant
            first <= k <= stack.len(),
            names == names_view(stack@),
            out@ == "Recursive struct definition detected: "@ + arrow_chain(
                names.skip(first as int).take(k - first),
            ),
        decreases stack.len() - k,
    {
        let ghost before = names.skip(first as int).take(k - first);
        let ghost after = names.skip(first as int).take(k - first + 1);
        assert(after.drop_last() =~= before);
        assert(after.last() == stack[k as int]@);
        out.append(stack[k].as_str());
        out.append(" -> ");
        assert(out@ =~= "Recursive struct definition detected: "@ + arrow_chain(after));
        k += 1;
    }
    assert(names.skip(first as int).take(stack.len() - first) =~= names.skip(first as int));
    out.append(node);
    out
}

/// Continues the walk at `node`, reached along the path `stack` from the
/// definition whose name is at `owner`.
fn visit_node(
    defs: &DefinitionMap,
    node: &str,
    stack: &mut Vec<String>,
    visited: &mut Vec<String>,
    owner: Span,
    errors: &mut Vec<(String, Span)>,
)
    requires
        defs.wf(),
        path_valid(defs@, names_view(old(stack)@)),
    ensures
        names_view(final(stack)@) == names_view(old(stack)@),
        walk_view(final(visited)@, final(errors)@) == visit(
            defs@,
            node@,
            names_view(old(stack)@),
            owner,
            walk_view(old(visited)@, old(errors)@),
        ),
    decreases defs@.len() - old(stack)@.len(), 0nat, 0nat,
{
    let ghost path = names_view(stack@);
    let ghost w0 = walk_view(visited@, errors@);
    proof {
        lemma_position(path, node@, 0);
        lemma_path_length(defs@, path);
    }
    let first = position_of(stack, node);
    if first < stack.len() {
        let message = cycle_text(stack, first, node);
        let ghost before = errors@;
        errors.push((message, owner));
        assert(messages_view(errors@) =~= messages_view(before).push(
            (cycle_message(path, node@), owner),
        ));
        return ;
    }
    assert(!path.contains(node@));
    if contains_name(visited, node) {
        return ;
    }
    let ghost seen = visited@;
    visited.push(String::from_str(node));
    assert(names_view(visited@) =~= names_view(seen).push(node@));
    assert(names_view(visited@).to_set() =~= names_view(seen).to_set().insert(node@)) by {
        assert forall|x: Seq<char>|
            names_view(visited@).to_set().contains(x) <==> names_view(seen).to_set().insert(
                node@,
            ).contains(x) by {
            if names_view(visited@).contains(x) {
                let k = choose|k: int|
                    0 <= k < names_view(visited@).len() && names_view(visited@)[k] == x;
                if k < seen.len() {
                    assert(names_view(seen)[k] == x);
                }
            }
            if names_view(seen).contains(x) {
                let k = choose|k: int| 0 <= k < names_view(seen).len() && names_view(seen)[k] == x;
                assert(names_view(visited@)[k] == x);
            }
            if x == node@ {
                assert(names_view(visited@)[seen.len() as int] == x);
            }
        }
    }
    let ghost w1 = Walk { visited: w0.visited.insert(node@), errors: w0.errors };
    match defs.get(node) {
        Some(DefinitionAST::Struct { name, fields }) => {
            let ghost fs = field_entries_view(fields.0@);
            let ghost longer = path.push(node@);
            proof {
                assert(defs_has(defs@, node@));
                lemma_path_has_room(defs@, path, node@);
            }
            let ghost below = stack@;
            stack.push(String::from_str(node));
            assert(stack@.len() == below.len() + 1);
            assert(names_view(stack@) =~= longer);
            let mut k: usize = 0;
            while k < fields.0.len()
                invariant
                    k <= fields.0.len(),
                    defs.wf(),
                    fs == field_entries_view(fields.0@),
                    names_view(stack@) == longer,
                    longer == path.push(node@),
                    path == names_view(old(stack)@),
                    stack@.len() == old(stack)@.len() + 1,
                    path_valid(defs@, longer),
                    longer.len() <= defs@.len(),
                    visit_fields(
                        defs@,
                        fs,
                        k as int,
                        longer,
                        owner,
                        walk_view(visited@, errors@),
                    ) == visit_fields(defs@, fs, 0, longer, owner, w1),
                decreases fields.0.len() - k,
            {
                assert(fs[k as int] == field_entry_view(fields.0@[k as int]));
                match &fields.0[k].0.1.0 {
                    FieldAST::Struct { name: target } => {
                        visit_node(defs, target.0.as_str(), stack, visited, owner, errors);
                        assert(stack@.len() == old(stack)@.len() + 1) by {
                            assert(names_view(stack@).len() == longer.len());
                            assert(names_view(old(stack)@).len() == path.len());
                        }
                    },
                    _ => {},
                }
                k += 1;
            }
            let ghost full = stack@;
            assert(names_view(full) == longer);
            stack.pop();
            assert(stack@ == full.drop_last());
            assert(names_view(stack@) =~= path) by {
                assert(names_view(stack@).len() == path.len());
                assert forall|j: int| 0 <= j < path.len() implies names_view(stack@)[j]
                    == path[j] by {
                    assert(names_view(stack@)[j] == full[j]@);
                    assert(names_view(full)[j] == full[j]@);
                    assert(longer[j] == path[j]);
                }
            }
        },
        _ => {},
    }
}

/// Finds the structs that contain themselves through their fields.
///
/// Gives one error for each reference that closes a cycle: the message
/// names the structs of the cycle from the one that is reached again, joined
/// by arrows, and the span is that of the name of the definition from which
/// the walk set out.
pub fn check_recursion(defs: &DefinitionMap) -> (errors: Vec<(String, Span)>)
    requires
        defs.wf(),
    ensures
        messages_view(errors@) == recursion_errors(defs@),
{
    let mut errors: Vec<(String, Span)> = Vec::new();
    let mut visited: Vec<String> = Vec::new();
    let mut stack: Vec<String> = Vec::new();
    let mut i: usize = 0;
    assert(messages_view(errors@) =~= Seq::<(Seq<char>, Span)>::empty());
    assert(names_view(visited@).to_set() =~= Set::<Seq<char>>::empty());
    assert(names_view(stack@) =~= Seq::<Seq<char>>::empty());
    while i < defs.len()
        invariant
            i <= defs@.len(),
            defs.wf(),
            names_view(stack@) == Seq::<Seq<char>>::empty(),
            walk_from(defs@, i as int, walk_view(visited@, errors@)) == walk_from(
                defs@,
                0,
                Walk { visited: Set::empty(), errors: Seq::empty() },
            ),
        decreases defs@.len() - i,
    {
        let owner = defs.definition_at(i).name_span();
        visit_node(defs, defs.name_at(i), &mut stack, &mut visited, owner, &mut errors);
        i += 1;
    }
    errors
}

} // verus!

//! Lists of named values in which each name stands once: the mathematical
//! side of an insertion-ordered map.

use vstd::prelude::*;

verus! {

/// Whether `name` is a key of `m`.
pub open spec fn has_key<V>(m: Seq<(Seq<char>, V)>, name: Seq<char>) -> bool {
    exists|i: int| 0 <= i < m.len() && (#[trigger] m[i]).0 == name
}

/// An index at which `name` is a key of `m`.
pub open spec fn index_of_key<V>(m: Seq<(Seq<char>, V)>, name: Seq<char>) -> int {
    choose|i: int| 0 <= i < m.len() && (#[trigger] m[i]).0 == name
}

/// The value that `m` holds for `name`, if it holds one.
pub open spec fn get<V>(m: Seq<(Seq<char>, V)>, name: Seq<char>) -> Option<V> {
    if has_key(m, name) {
        Some(m[index_of_key(m, name)].1)
    } else {
        None
    }
}

/// No key stands twice in `m`.
pub open spec fn unique_keys<V>(m: Seq<(Seq<char>, V)>) -> bool {
    forall|i: int, j: int| 0 <= i < j < m.len() ==> (#[trigger] m[i]).0 != (#[trigger] m[j]).0
}

/// `m` with `value` for `name`: a key that is there keeps its place and
/// gets the new value, a new key goes last.
pub open spec fn insert<V>(m: Seq<(Seq<char>, V)>, name: Seq<char>, value: V) -> Seq<
    (Seq<char>, V),
> {
    if has_key(m, name) {
        m.update(index_of_key(m, name), (name, value))
    } else {
        m.push((name, value))
    }
}

/// The keys of `m`, in order.
pub open spec fn keys<V>(m: Seq<(Seq<char>, V)>) -> Seq<Seq<char>> {
    Seq::new(m.len(), |i: int| m[i].0)
}

/// Where keys are unique, the index of a key is the only one.
pub proof fn lemma_index_unique<V>(m: Seq<(Seq<char>, V)>, name: Seq<char>, i: int)
    requires
        unique_keys(m),
        0 <= i < m.len(),
        m[i].0 == name,
    ensures
        has_key(m, name),
        index_of_key(m, name) == i,
        get(m, name) == Some(m[i].1),
{
    let j = index_of_key(m, name);
    if j < i {
        assert(m[j].0 != m[i].0);
    } else if i < j {
        assert(m[i].0 != m[j].0);
    }
}

/// Inserting keeps keys unique.
pub proof fn lemma_insert_unique<V>(m: Seq<(Seq<char>, V)>, name: Seq<char>, value: V)
    requires
        unique_keys(m),
    ensures
        unique_keys(insert(m, name, value)),
{
    let r = insert(m, name, value);
    assert forall|i: int, j: int| 0 <= i < j < r.len() implies (#[trigger] r[i]).0 != (
    #[trigger] r[j]).0 by {
        if has_key(m, name) {
            assert(r[i].0 == m[i].0);
            assert(r[j].0 == m[j].0);
        } else {
            if j < m.len() {
                assert(r[i] == m[i] && r[j] == m[j]);
            } else {
                assert(r[i] == m[i]);
            }
        }
    }
}

} // verus!

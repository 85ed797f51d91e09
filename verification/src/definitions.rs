//! The definitions of a program, by name and in the order in which the
//! names were first defined.

use vstd::prelude::*;
use crate::syntax::{DefinitionAST, DefinitionView};

verus! {

/// The view of a [`DefinitionMap`]: names and definitions in order.
pub type DefsView = Seq<(Seq<char>, DefinitionView)>;

/// Whether `name` is defined in `m`.
pub open spec fn defs_has(m: DefsView, name: Seq<char>) -> bool {
    exists|i: int| 0 <= i < m.len() && (#[trigger] m[i]).0 == name
}

/// An index at which `name` is defined in `m`.
pub open spec fn defs_index(m: DefsView, name: Seq<char>) -> int {
    choose|i: int| 0 <= i < m.len() && (#[trigger] m[i]).0 == name
}

/// The definition of `name` in `m`, if there is one.
pub open spec fn defs_get(m: DefsView, name: Seq<char>) -> Option<DefinitionView> {
    if defs_has(m, name) {
        Some(m[defs_index(m, name)].1)
    } else {
        None
    }
}

/// No name is defined twice in `m`.
pub open spec fn defs_unique(m: DefsView) -> bool {
    forall|i: int, j: int| 0 <= i < j < m.len() ==> (#[trigger] m[i]).0 != (#[trigger] m[j]).0
}

/// `m` with `name` defined as `def`: a name that is already defined keeps
/// its place and gets the new definition, a new name goes last.
pub open spec fn defs_insert(m: DefsView, name: Seq<char>, def: DefinitionView) -> DefsView {
    if defs_has(m, name) {
        m.update(defs_index(m, name), (name, def))
    } else {
        m.push((name, def))
    }
}

/// Where names are unique, the index of a defined name is the only one.
pub proof fn lemma_defs_index_unique(m: DefsView, name: Seq<char>, i: int)
    requires
        defs_unique(m),
        0 <= i < m.len(),
        m[i].0 == name,
    ensures
        defs_has(m, name),
        defs_index(m, name) == i,
        defs_get(m, name) == Some(m[i].1),
{
    let j = defs_index(m, name);
    if j < i {
        assert(m[j].0 != m[i].0);
    } else if i < j {
        assert(m[i].0 != m[j].0);
    }
}

/// Inserting keeps names unique.
pub proof fn lemma_defs_insert_unique(m: DefsView, name: Seq<char>, def: DefinitionView)
    requires
        defs_unique(m),
    ensures
        defs_unique(defs_insert(m, name, def)),
{
    let r = defs_insert(m, name, def);
    assert forall|i: int, j: int| 0 <= i < j < r.len() implies (#[trigger] r[i]).0 != (
    #[trigger] r[j]).0 by {
        if defs_has(m, name) {
            let k = defs_index(m, name);
            assert(r[i].0 == m[i].0);
            assert(r[j].0 == m[j].0);
        } else {
            if j < m.len() {
                assert(r[i] == m[i] && r[j] == m[j]);
            } else {
                assert(r[i] == m[i]);
            }
        }
    }
}

/// The definitions of a program. Each name is defined once; defining it
/// again replaces the definition and keeps the place of the first.
pub struct DefinitionMap {
    entries: Vec<(String, DefinitionAST)>,
}

impl View for DefinitionMap {
    type V = DefsView;

    closed spec fn view(&self) -> DefsView {
        Seq::new(self.entries@.len(), |i: int| (self.entries@[i].0@, self.entries@[i].1@))
    }
}

impl DefinitionMap {
    /// No name is defined twice.
    pub open spec fn wf(&self) -> bool {
        defs_unique(self@)
    }

    /// The empty map.
    pub fn new() -> (m: DefinitionMap)
        ensures
            m@ == Seq::<(Seq<char>, DefinitionView)>::empty(),
            m.wf(),
    {
        let m = DefinitionMap { entries: Vec::new() };
        assert(m@ =~= Seq::<(Seq<char>, DefinitionView)>::empty());
        m
    }

    /// The number of definitions.
    pub fn len(&self) -> (n: usize)
        ensures
            n == self@.len(),
    {
        self.entries.len()
    }

    /// The index at which `name` is defined, if it is.
    pub fn index_of(&self, name: &str) -> (r: Option<usize>)
        ensures
            r matches Some(i) ==> i < self@.len() && self@[i as int].0 == name@,
            r is None ==> !defs_has(self@, name@),
    {
        let mut i: usize = 0;
        while i < self.entries.len()
            invariant
                i <= self.entries.len(),
                forall|k: int| 0 <= k < i ==> (#[trigger] self@[k]).0 != name@,
            decreases self.entries.len() - i,
        {
            if crate::text::str_eq(self.entries[i].0.as_str(), name) {
                return Some(i);
            }
            i += 1;
        }
        None
    }

    /// Whether `name` is defined.
    pub fn contains_key(&self, name: &str) -> (b: bool)
        ensures
            b == defs_has(self@, name@),
    {
        self.index_of(name).is_some()
    }

    /// The definition of `name`, if there is one.
    pub fn get(&self, name: &str) -> (r: Option<&DefinitionAST>)
        requires
            self.wf(),
        ensures
            match r {
                Some(d) => defs_get(self@, name@) == Some(d@),
                None => defs_get(self@, name@) is None,
            },
    {
        match self.index_of(name) {
            Some(i) => {
                proof {
                    lemma_defs_index_unique(self@, name@, i as int);
                }
                Some(&self.entries[i].1)
            },
            None => None,
        }
    }

    /// The name at place `i`.
    pub fn name_at(&self, i: usize) -> (s: &str)
        requires
            i < self@.len(),
        ensures
            s@ == self@[i as int].0,
    {
        self.entries[i].0.as_str()
    }

    /// The definition at place `i`.
    pub fn definition_at(&self, i: usize) -> (d: &DefinitionAST)
        requires
            i < self@.len(),
        ensures
            d@ == self@[i as int].1,
    {
        &self.entries[i].1
    }

    /// Defines `name` as `def`. A name that is already defined keeps its
    /// place and gets the new definition; a new name goes last.
    pub fn insert(&mut self, name: String, def: DefinitionAST)
        requires
            old(self).wf(),
        ensures
            final(self).wf(),
            final(self)@ == defs_insert(old(self)@, name@, def@),
    {
        proof {
            lemma_defs_insert_unique(self@, name@, def@);
        }
        match self.index_of(name.as_str()) {
            Some(i) => {
                proof {
                    lemma_defs_index_unique(self@, name@, i as int);
                }
                self.entries.set(i, (name, def));
                assert(self@ =~= defs_insert(old(self)@, name@, def@));
            },
            None => {
                self.entries.push((name, def));
                assert(self@ =~= defs_insert(old(self)@, name@, def@));
            },
        }
    }
}

} // verus!

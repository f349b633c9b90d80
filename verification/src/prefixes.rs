//! The table of declared prefixes.

use vstd::prelude::*;
use crate::iri::{Iri, IriModel};

verus! {

/// The prefixes that a document has declared, each with its identifier.
/// The empty name is the default prefix. A name that is declared again
/// stands for the later identifier.
pub struct PrefixTable {
    names: Vec<String>,
    iris: Vec<Iri>,
    model: Ghost<Map<Seq<char>, IriModel>>,
}

impl View for PrefixTable {
    type V = Map<Seq<char>, IriModel>;

    closed spec fn view(&self) -> Map<Seq<char>, IriModel> {
        self.model@
    }
}

impl PrefixTable {
    /// The entries are those of the view, each name once.
    pub closed spec fn wf(&self) -> bool {
        &&& self.names.len() == self.iris.len()
        &&& forall|i: int|
            0 <= i < self.names.len() ==> self.model@.contains_key(#[trigger] self.names[i]@)
                && self.model@[self.names[i]@] == self.iris[i]@
        &&& forall|k: Seq<char>| #[trigger]
            self.model@.contains_key(k) ==> exists|i: int|
                0 <= i < self.names.len() && #[trigger] self.names[i]@ == k
        &&& forall|i: int, j: int|
            0 <= i < j < self.names.len() ==> #[trigger] self.names[i]@ != #[trigger] self.names[j]@
    }

    /// A table without entries.
    pub fn new() -> (t: Self)
        ensures
            t.wf(),
            t@ == Map::<Seq<char>, IriModel>::empty(),
    {
        PrefixTable { names: Vec::new(), iris: Vec::new(), model: Ghost(Map::empty()) }
    }

    /// The index of the entry for `name`, where there is one.
    fn position(&self, name: &String) -> (r: Option<usize>)
        requires
            self.wf(),
        ensures
            match r {
                Some(i) => i < self.names.len() && self.names[i as int]@ == name@,
                None => !self@.contains_key(name@),
            },
    {
        let mut i: usize = 0;
        while i < self.names.len()
            invariant
                i <= self.names.len(),
                forall|j: int| 0 <= j < i ==> (#[trigger] self.names[j])@ != name@,
            decreases self.names.len() - i,
        {
            if self.names[i] == *name {
                return Some(i);
            }
            i += 1;
        }
        None
    }

    /// Binds `name` to `iri`, in place of what it was bound to.
    pub fn insert(&mut self, name: String, iri: Iri)
        requires
            old(self).wf(),
        ensures
            final(self).wf(),
            final(self)@ == old(self)@.insert(name@, iri@),
    {
        match self.position(&name) {
            Some(i) => {
                self.iris.set(i, iri);
                self.model = Ghost(self.model@.insert(name@, iri@));
            },
            None => {
                self.names.push(name);
                self.iris.push(iri);
                self.model = Ghost(self.model@.insert(name@, iri@));
                assert forall|k: Seq<char>| #[trigger]
                    self.model@.contains_key(k) implies exists|i: int|
                    0 <= i < self.names.len() && #[trigger] self.names[i]@ == k by {
                    if k == name@ {
                        assert(self.names[self.names.len() - 1]@ == k);
                    } else {
                        let i = choose|i: int|
                            0 <= i < old(self).names.len() && #[trigger] old(self).names[i]@ == k;
                        assert(self.names[i]@ == k);
                    }
                }
            },
        }
    }

    /// Whether `name` is bound.
    pub fn contains(&self, name: &String) -> (r: bool)
        requires
            self.wf(),
        ensures
            r == self@.contains_key(name@),
    {
        self.position(name).is_some()
    }

    /// What `name` is bound to.
    pub fn get(&self, name: &String) -> (r: Option<Iri>)
        requires
            self.wf(),
        ensures
            match r {
                Some(iri) => self@.contains_key(name@) && self@[name@] == iri@,
                None => !self@.contains_key(name@),
            },
    {
        match self.position(name) {
            Some(i) => Some(self.iris[i].clone()),
            None => None,
        }
    }
}

} // verus!

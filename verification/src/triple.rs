//! Triples and sequences of them.

use vstd::prelude::*;
use vstd::string::*;
use crate::iri::{iri_display, Iri, IriModel};
use crate::object::{object_display, same_object, Object, ObjectModel};
use crate::subject::{same_subject, subject_display, Subject, SubjectModel};

verus! {

/// What a [`Triple`] stands for.
pub struct TripleModel {
    pub subject: SubjectModel,
    pub predicate: IriModel,
    pub object: ObjectModel,
}

/// A statement: a subject, a predicate and an object.
#[derive(Debug)]
pub struct Triple {
    /// The subject of the triple.
    pub subject: Subject,
    /// The predicate of the triple.
    pub predicate: Iri,
    /// The object of the triple.
    pub object: Object,
}

/// Triples in the order in which they were stated.
#[derive(Debug)]
pub struct Triples(pub Vec<Triple>);

/// Whether two triples state the same: their terms are the same.
pub open spec fn same_triple(a: TripleModel, b: TripleModel) -> bool {
    same_subject(a.subject, b.subject) && a.predicate.text == b.predicate.text && same_object(
        a.object,
        b.object,
    )
}

/// The display form of a triple: its terms, then a full stop.
pub open spec fn triple_display(t: TripleModel) -> Seq<char> {
    subject_display(t.subject) + seq![' '] + iri_display(t.predicate) + seq![' ']
        + object_display(t.object) + seq![' ', '.']
}

/// The display form of a sequence of triples: one line for each.
pub open spec fn triples_display(ts: Seq<TripleModel>) -> Seq<char>
    decreases ts.len(),
{
    if ts.len() == 0 {
        Seq::empty()
    } else {
        triples_display(ts.drop_last()) + triple_display(ts.last()) + seq!['\n']
    }
}

impl View for Triple {
    type V = TripleModel;

    open spec fn view(&self) -> TripleModel {
        TripleModel { subject: self.subject@, predicate: self.predicate@, object: self.object@ }
    }
}

impl Clone for Triple {
    fn clone(&self) -> (r: Self)
        ensures
            r@ == self@,
    {
        Triple {
            subject: self.subject.clone(),
            predicate: self.predicate.clone(),
            object: self.object.clone(),
        }
    }
}

impl PartialEq for Triple {
    fn eq(&self, other: &Self) -> (r: bool) {
        self.subject == other.subject && self.predicate == other.predicate && self.object
            == other.object
    }
}

impl Eq for Triple {}

impl vstd::std_specs::cmp::PartialEqSpecImpl for Triple {
    open spec fn obeys_eq_spec() -> bool {
        true
    }

    open spec fn eq_spec(&self, other: &Self) -> bool {
        same_triple(self@, other@)
    }
}

impl Triple {
    /// The triple of the three terms.
    pub fn new(subject: Subject, predicate: Iri, object: Object) -> (r: Self)
        ensures
            r@ == (TripleModel { subject: subject@, predicate: predicate@, object: object@ }),
    {
        Triple { subject, predicate, object }
    }

    /// The triple in display form.
    pub fn to_string(&self) -> (s: String)
        ensures
            s@ == triple_display(self@),
    {
        let mut s = self.subject.to_string();
        s.push(' ');
        let p = self.predicate.to_string();
        s.append(p.as_str());
        s.push(' ');
        let o = self.object.to_string();
        s.append(o.as_str());
        s.push(' ');
        s.push('.');
        assert(s@ =~= triple_display(self@));
        s
    }
}

/// What a sequence of triples stands for.
pub open spec fn models(v: Seq<Triple>) -> Seq<TripleModel> {
    v.map_values(|t: Triple| t@)
}

impl View for Triples {
    type V = Seq<TripleModel>;

    open spec fn view(&self) -> Seq<TripleModel> {
        models(self.0@)
    }
}

impl std::ops::Deref for Triples {
    type Target = Vec<Triple>;

    fn deref(&self) -> (r: &Vec<Triple>)
        ensures
            *r == self.0,
    {
        &self.0
    }
}

impl Clone for Triples {
    fn clone(&self) -> (r: Self)
        ensures
            r@ == self@,
    {
        let mut v: Vec<Triple> = Vec::new();
        let mut i: usize = 0;
        while i < self.0.len()
            invariant
                i <= self.0.len(),
                v@.len() == i,
                forall|j: int| 0 <= j < i ==> (#[trigger] v@[j])@ == self.0@[j]@,
            decreases self.0.len() - i,
        {
            v.push(self.0[i].clone());
            i += 1;
        }
        let r = Triples(v);
        assert(r@ =~= self@);
        r
    }
}

impl Default for Triples {
    fn default() -> (r: Self)
        ensures
            r@ == Seq::<TripleModel>::empty(),
    {
        Triples::new()
    }
}

impl Triples {
    /// No triples.
    pub fn new() -> (r: Self)
        ensures
            r@ == Seq::<TripleModel>::empty(),
    {
        let r = Triples(Vec::new());
        assert(r@ =~= Seq::<TripleModel>::empty());
        r
    }

    /// The number of triples.
    pub fn len(&self) -> (n: usize)
        ensures
            n == self@.len(),
    {
        self.0.len()
    }

    /// Adds a triple at the end.
    pub fn push(&mut self, triple: Triple)
        ensures
            final(self)@ == old(self)@.push(triple@),
    {
        self.0.push(triple);
        assert(self@ =~= old(self)@.push(triple@));
    }

    /// The triples in display form, one on each line.
    pub fn to_string(&self) -> (s: String)
        ensures
            s@ == triples_display(self@),
    {
        let mut s = String::new();
        let mut i: usize = 0;
        while i < self.0.len()
            invariant
                i <= self.0.len(),
                s@ == triples_display(self@.take(i as int)),
            decreases self.0.len() - i,
        {
            let line = self.0[i].to_string();
            s.append(line.as_str());
            s.push('\n');
            assert(self@.take(i + 1).drop_last() =~= self@.take(i as int));
            assert(self@.take(i + 1).last() == self.0@[i as int]@);
            i += 1;
        }
        assert(self@.take(i as int) =~= self@);
        s
    }
}

/// What a [`TripleSearcher`] looks for: the terms that are set.
pub struct Pattern {
    pub subject: Option<SubjectModel>,
    pub predicate: Option<IriModel>,
    pub object: Option<ObjectModel>,
}

impl Pattern {
    /// Whether the triple has each of the terms that are set.
    pub open spec fn fits(self, t: TripleModel) -> bool {
        &&& match self.subject {
            Some(s) => same_subject(t.subject, s),
            None => true,
        }
        &&& match self.predicate {
            Some(p) => t.predicate.text == p.text,
            None => true,
        }
        &&& match self.object {
            Some(o) => same_object(t.object, o),
            None => true,
        }
    }

    /// The triples of `ts` that fit, in order.
    pub open spec fn all_of(self, ts: Seq<TripleModel>) -> Seq<TripleModel>
        decreases ts.len(),
    {
        if ts.len() == 0 {
            ts
        } else if self.fits(ts.last()) {
            self.all_of(ts.drop_last()).push(ts.last())
        } else {
            self.all_of(ts.drop_last())
        }
    }

    /// The first triple of `ts` that fits.
    pub open spec fn first_of(self, ts: Seq<TripleModel>) -> Option<TripleModel>
        decreases ts.len(),
    {
        if ts.len() == 0 {
            None
        } else {
            match self.first_of(ts.drop_last()) {
                Some(t) => Some(t),
                None => if self.fits(ts.last()) {
                    Some(ts.last())
                } else {
                    None
                },
            }
        }
    }
}

/// A search through triples for those with given terms. A term that is
/// not set is met by every triple.
#[derive(Clone, Copy, Debug)]
pub struct TripleSearcher<'a> {
    subject: Option<&'a Subject>,
    predicate: Option<&'a Iri>,
    object: Option<&'a Object>,
}

impl<'a> View for TripleSearcher<'a> {
    type V = Pattern;

    closed spec fn view(&self) -> Pattern {
        Pattern {
            subject: match self.subject {
                Some(s) => Some(s@),
                None => None,
            },
            predicate: match self.predicate {
                Some(p) => Some(p@),
                None => None,
            },
            object: match self.object {
                Some(o) => Some(o@),
                None => None,
            },
        }
    }
}

impl<'a> Default for TripleSearcher<'a> {
    fn default() -> (r: Self)
        ensures
            r@ == (Pattern { subject: None, predicate: None, object: None }),
    {
        TripleSearcher::new()
    }
}

impl<'a> TripleSearcher<'a> {
    /// A search with no term set.
    pub fn new() -> (r: Self)
        ensures
            r@ == (Pattern { subject: None, predicate: None, object: None }),
    {
        TripleSearcher { subject: None, predicate: None, object: None }
    }

    /// Sets the subject to look for.
    pub fn subject(self, subject: &'a Subject) -> (r: Self)
        ensures
            r@ == (Pattern { subject: Some(subject@), ..self@ }),
    {
        TripleSearcher { subject: Some(subject), predicate: self.predicate, object: self.object }
    }

    /// Sets the predicate to look for.
    pub fn predicate(self, predicate: &'a Iri) -> (r: Self)
        ensures
            r@ == (Pattern { predicate: Some(predicate@), ..self@ }),
    {
        TripleSearcher { subject: self.subject, predicate: Some(predicate), object: self.object }
    }

    /// Sets the object to look for.
    pub fn object(self, object: &'a Object) -> (r: Self)
        ensures
            r@ == (Pattern { object: Some(object@), ..self@ }),
    {
        TripleSearcher { subject: self.subject, predicate: self.predicate, object: Some(object) }
    }

    /// Whether the triple has each of the terms that are set.
    fn fits(&self, triple: &Triple) -> (r: bool)
        ensures
            r == self@.fits(triple@),
    {
        let subject = match self.subject {
            Some(s) => triple.subject.eq(s),
            None => true,
        };
        let predicate = match self.predicate {
            Some(p) => triple.predicate.eq(p),
            None => true,
        };
        let object = match self.object {
            Some(o) => triple.object.eq(o),
            None => true,
        };
        subject && predicate && object
    }

    /// The first triple that has each of the terms that are set.
    pub fn execute(self, triples: &Triples) -> (r: Option<Triple>)
        ensures
            match self@.first_of(triples@) {
                Some(t) => r is Some && r->0@ == t,
                None => r is None,
            },
    {
        let mut i: usize = 0;
        assert(triples@.take(0) =~= Seq::<TripleModel>::empty());
        while i < triples.0.len()
            invariant
                i <= triples.0.len(),
                self@.first_of(triples@.take(i as int)) is None,
            decreases triples.0.len() - i,
        {
            assert(triples@.take(i + 1).drop_last() =~= triples@.take(i as int));
            assert(triples@.take(i + 1).last() == triples.0[i as int]@);
            if self.fits(&triples.0[i]) {
                proof {
                    lemma_first_stays(self@, triples@, i + 1);
                }
                return Some(triples.0[i].clone());
            }
            i += 1;
        }
        assert(triples@.take(i as int) =~= triples@);
        None
    }

    /// The triples that have each of the terms that are set, in order.
    pub fn execute_multiple(self, triples: &Triples) -> (r: Vec<Triple>)
        ensures
            models(r@) == self@.all_of(triples@),
    {
        let mut found: Vec<Triple> = Vec::new();
        let mut i: usize = 0;
        assert(triples@.take(0) =~= Seq::<TripleModel>::empty());
        assert(models(found@) =~= Seq::<TripleModel>::empty());
        while i < triples.0.len()
            invariant
                i <= triples.0.len(),
                models(found@) == self@.all_of(triples@.take(i as int)),
            decreases triples.0.len() - i,
        {
            assert(triples@.take(i + 1).drop_last() =~= triples@.take(i as int));
            assert(triples@.take(i + 1).last() == triples.0[i as int]@);
            if self.fits(&triples.0[i]) {
                let ghost before = models(found@);
                found.push(triples.0[i].clone());
                assert(models(found@) =~= before.push(triples.0[i as int]@));
            }
            i += 1;
        }
        assert(triples@.take(i as int) =~= triples@);
        found
    }
}

/// The first triple that fits among the first `n` is the first that
/// fits among all.
pub proof fn lemma_first_stays(p: Pattern, ts: Seq<TripleModel>, n: int)
    requires
        0 <= n <= ts.len(),
        p.first_of(ts.take(n)) is Some,
    ensures
        p.first_of(ts) == p.first_of(ts.take(n)),
    decreases ts.len() - n,
{
    if n < ts.len() {
        assert(ts.take(n + 1).drop_last() =~= ts.take(n));
        lemma_first_stays(p, ts, n + 1);
    } else {
        assert(ts.take(n) =~= ts);
    }
}

} // verus!

//! The subject of a triple.

use vstd::prelude::*;
use crate::iri::{blank_display, iri_display, BlankNode, Iri, IriModel};
use crate::object::{Object, ObjectModel};

verus! {

/// What a [`Subject`] stands for.
pub enum SubjectModel {
    Iri(IriModel),
    BlankNode(Seq<char>),
}

/// The subject of a triple.
#[derive(Debug)]
pub enum Subject {
    /// An identifier.
    Iri(Iri),
    /// A blank node.
    BlankNode(BlankNode),
}

/// Whether two subjects are the same term.
pub open spec fn same_subject(a: SubjectModel, b: SubjectModel) -> bool {
    match (a, b) {
        (SubjectModel::Iri(x), SubjectModel::Iri(y)) => x.text == y.text,
        (SubjectModel::BlankNode(x), SubjectModel::BlankNode(y)) => x == y,
        _ => false,
    }
}

/// The subject as the object it would be.
pub open spec fn subject_as_object(s: SubjectModel) -> ObjectModel {
    match s {
        SubjectModel::Iri(i) => ObjectModel::Iri(i),
        SubjectModel::BlankNode(b) => ObjectModel::BlankNode(b),
    }
}

/// The display form of a subject.
pub open spec fn subject_display(s: SubjectModel) -> Seq<char> {
    match s {
        SubjectModel::Iri(i) => iri_display(i),
        SubjectModel::BlankNode(b) => blank_display(b),
    }
}

impl View for Subject {
    type V = SubjectModel;

    open spec fn view(&self) -> SubjectModel {
        match self {
            Subject::Iri(i) => SubjectModel::Iri(i@),
            Subject::BlankNode(b) => SubjectModel::BlankNode(b@),
        }
    }
}

impl Clone for Subject {
    fn clone(&self) -> (r: Self)
        ensures
            r@ == self@,
    {
        match self {
            Subject::Iri(i) => Subject::Iri(i.clone()),
            Subject::BlankNode(b) => Subject::BlankNode(b.clone()),
        }
    }
}

impl PartialEq for Subject {
    fn eq(&self, other: &Self) -> (r: bool) {
        match (self, other) {
            (Subject::Iri(a), Subject::Iri(b)) => a == b,
            (Subject::BlankNode(a), Subject::BlankNode(b)) => a == b,
            _ => false,
        }
    }
}

impl Eq for Subject {}

impl vstd::std_specs::cmp::PartialEqSpecImpl for Subject {
    open spec fn obeys_eq_spec() -> bool {
        true
    }

    open spec fn eq_spec(&self, other: &Self) -> bool {
        same_subject(self@, other@)
    }
}

impl Subject {
    /// Whether the subject is a blank node.
    pub fn is_blank_node(&self) -> (r: bool)
        ensures
            r == (self@ is BlankNode),
    {
        match self {
            Subject::BlankNode(_) => true,
            _ => false,
        }
    }

    /// The same term as an object.
    pub fn as_object(&self) -> (r: Object)
        ensures
            r@ == subject_as_object(self@),
    {
        match self {
            Subject::BlankNode(b) => Object::BlankNode(b.clone()),
            Subject::Iri(i) => Object::Iri(i.clone()),
        }
    }

    /// The blank node, where the subject is one.
    pub fn into_blank_node(self) -> (r: Option<BlankNode>)
        ensures
            match r {
                Some(b) => self@ == SubjectModel::BlankNode(b@),
                None => self@ is Iri,
            },
    {
        match self {
            Subject::BlankNode(b) => Some(b),
            _ => None,
        }
    }

    /// The subject in display form.
    pub fn to_string(&self) -> (s: String)
        ensures
            s@ == subject_display(self@),
    {
        match self {
            Subject::Iri(i) => i.to_string(),
            Subject::BlankNode(b) => b.to_string(),
        }
    }
}

} // verus!

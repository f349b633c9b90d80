//! The object of a triple.

use vstd::prelude::*;
use crate::iri::{blank_display, iri_display, BlankNode, Iri, IriModel};
use crate::literal::{literal_display, same_literal, Literal, LiteralModel};
use crate::subject::{Subject, SubjectModel};

verus! {

/// What an [`Object`] stands for.
pub enum ObjectModel {
    Iri(IriModel),
    BlankNode(Seq<char>),
    Literal(LiteralModel),
}

/// The object at the end of a triple.
#[derive(Debug)]
pub enum Object {
    /// An identifier.
    Iri(Iri),
    /// A blank node.
    BlankNode(BlankNode),
    /// A literal.
    Literal(Literal),
}

/// Whether two objects are the same term.
pub open spec fn same_object(a: ObjectModel, b: ObjectModel) -> bool {
    match (a, b) {
        (ObjectModel::Iri(x), ObjectModel::Iri(y)) => x.text == y.text,
        (ObjectModel::BlankNode(x), ObjectModel::BlankNode(y)) => x == y,
        (ObjectModel::Literal(x), ObjectModel::Literal(y)) => same_literal(x, y),
        _ => false,
    }
}

/// The display form of an object.
pub open spec fn object_display(o: ObjectModel) -> Seq<char> {
    match o {
        ObjectModel::Iri(i) => iri_display(i),
        ObjectModel::BlankNode(b) => blank_display(b),
        ObjectModel::Literal(l) => literal_display(l),
    }
}

impl View for Object {
    type V = ObjectModel;

    open spec fn view(&self) -> ObjectModel {
        match self {
            Object::Iri(i) => ObjectModel::Iri(i@),
            Object::BlankNode(b) => ObjectModel::BlankNode(b@),
            Object::Literal(l) => ObjectModel::Literal(l@),
        }
    }
}

impl Clone for Object {
    fn clone(&self) -> (r: Self)
        ensures
            r@ == self@,
    {
        match self {
            Object::Iri(i) => Object::Iri(i.clone()),
            Object::BlankNode(b) => Object::BlankNode(b.clone()),
            Object::Literal(l) => Object::Literal(l.clone()),
        }
    }
}

impl PartialEq for Object {
    fn eq(&self, other: &Self) -> (r: bool) {
        match (self, other) {
            (Object::Iri(a), Object::Iri(b)) => a == b,
            (Object::BlankNode(a), Object::BlankNode(b)) => a == b,
            (Object::Literal(a), Object::Literal(b)) => a == b,
            _ => false,
        }
    }
}

impl Eq for Object {}

impl vstd::std_specs::cmp::PartialEqSpecImpl for Object {
    open spec fn obeys_eq_spec() -> bool {
        true
    }

    open spec fn eq_spec(&self, other: &Self) -> bool {
        same_object(self@, other@)
    }
}

impl Object {
    /// Whether the object is a blank node.
    pub fn is_blank_node(&self) -> (r: bool)
        ensures
            r == (self@ is BlankNode),
    {
        match self {
            Object::BlankNode(_) => true,
            _ => false,
        }
    }

    /// The blank node, where the object is one.
    pub fn into_blank_node(self) -> (r: Option<BlankNode>)
        ensures
            match r {
                Some(b) => self@ == ObjectModel::BlankNode(b@),
                None => !(self@ is BlankNode),
            },
    {
        match self {
            Object::BlankNode(b) => Some(b),
            _ => None,
        }
    }

    /// The same term as a subject. A literal is no subject.
    pub fn to_subject(self) -> (r: Subject)
        requires
            !(self@ is Literal),
        ensures
            crate::subject::subject_as_object(r@) == self@,
    {
        match self {
            Object::Iri(iri) => Subject::Iri(iri),
            Object::BlankNode(node) => Subject::BlankNode(node),
            Object::Literal(_) => {
                proof {
                    assert(false);
                }
                Subject::BlankNode(BlankNode(String::new()))
            },
        }
    }

    /// The object in display form.
    pub fn to_string(&self) -> (s: String)
        ensures
            s@ == object_display(self@),
    {
        match self {
            Object::Iri(i) => i.to_string(),
            Object::BlankNode(b) => b.to_string(),
            Object::Literal(l) => l.to_string(),
        }
    }
}

} // verus!

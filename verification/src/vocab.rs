//! The identifiers of the RDF and XML Schema vocabularies that Turtle's
//! syntax stands for.

use vstd::prelude::*;
use crate::iri::{Iri, IriModel};

verus! {

/// A term of the two vocabularies.
#[derive(Clone, Copy, Debug, PartialEq, Eq, Structural)]
pub enum Term {
    /// `rdf:type`, written `a`.
    Type,
    /// `rdf:nil`, the empty list.
    Nil,
    /// `rdf:first`, from a list cell to its element.
    First,
    /// `rdf:rest`, from a list cell to the next.
    Rest,
    /// `rdf:langString`, the datatype of a string with a language tag.
    LangString,
    /// `xsd:string`.
    String,
    /// `xsd:boolean`.
    Boolean,
    /// `xsd:double`.
    Double,
    /// `xsd:decimal`.
    Decimal,
    /// `xsd:integer`.
    Integer,
}

/// The text of a term's identifier.
pub open spec fn term_text(term: Term) -> Seq<char> {
    match term {
        Term::Type => "http://www.w3.org/1999/02/22-rdf-syntax-ns#type"@,
        Term::Nil => "http://www.w3.org/1999/02/22-rdf-syntax-ns#nil"@,
        Term::First => "http://www.w3.org/1999/02/22-rdf-syntax-ns#first"@,
        Term::Rest => "http://www.w3.org/1999/02/22-rdf-syntax-ns#rest"@,
        Term::LangString => "http://www.w3.org/1999/02/22-rdf-syntax-ns#langString"@,
        Term::String => "http://www.w3.org/2001/XMLSchema#string"@,
        Term::Boolean => "http://www.w3.org/2001/XMLSchema#boolean"@,
        Term::Double => "http://www.w3.org/2001/XMLSchema#double"@,
        Term::Decimal => "http://www.w3.org/2001/XMLSchema#decimal"@,
        Term::Integer => "http://www.w3.org/2001/XMLSchema#integer"@,
    }
}

/// What a term's identifier stands for. Every one is written with a
/// fragment.
pub open spec fn term_iri(term: Term) -> IriModel {
    IriModel { text: term_text(term), had_fragment: true }
}

/// The identifier of a term. The texts are absolute and already in the
/// form that the resolver gives them, so none is resolved again.
pub fn iri_of(term: Term) -> (iri: Iri)
    ensures
        iri@ == term_iri(term),
{
    let text = match term {
        Term::Type => "http://www.w3.org/1999/02/22-rdf-syntax-ns#type",
        Term::Nil => "http://www.w3.org/1999/02/22-rdf-syntax-ns#nil",
        Term::First => "http://www.w3.org/1999/02/22-rdf-syntax-ns#first",
        Term::Rest => "http://www.w3.org/1999/02/22-rdf-syntax-ns#rest",
        Term::LangString => "http://www.w3.org/1999/02/22-rdf-syntax-ns#langString",
        Term::String => "http://www.w3.org/2001/XMLSchema#string",
        Term::Boolean => "http://www.w3.org/2001/XMLSchema#boolean",
        Term::Double => "http://www.w3.org/2001/XMLSchema#double",
        Term::Decimal => "http://www.w3.org/2001/XMLSchema#decimal",
        Term::Integer => "http://www.w3.org/2001/XMLSchema#integer",
    };
    Iri::from_resolved(text, true)
}

} // verus!

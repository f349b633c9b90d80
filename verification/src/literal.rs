//! Literals: strings, numbers and booleans with their datatype.

use vstd::prelude::*;
use vstd::string::*;
use crate::iri::{iri_display, Iri, IriModel};
use crate::vocab::{iri_of, term_iri, Term};

verus! {

/// What a [`Literal`] stands for.
pub struct LiteralModel {
    pub value: Seq<char>,
    pub language_tag: Option<Seq<char>>,
    pub iri: IriModel,
}

/// A literal: its lexical form, an optional language tag, and the
/// identifier of its datatype.
#[derive(Debug)]
pub struct Literal {
    /// The lexical form.
    pub value: String,
    /// The language tag, without `@`.
    pub language_tag: Option<String>,
    /// The datatype.
    pub iri: Iri,
}

/// The characters of an optional string.
pub open spec fn opt_text(s: Option<String>) -> Option<Seq<char>> {
    match s {
        Some(t) => Some(t@),
        None => None,
    }
}

/// What an optional identifier stands for.
pub open spec fn opt_iri(iri: Option<Iri>) -> Option<IriModel> {
    match iri {
        Some(i) => Some(i@),
        None => None,
    }
}

/// The literal made of a lexical form, an optional language tag and an
/// optional datatype. A datatype that is given is used. Without one, a
/// tagged literal is an `rdf:langString` and an untagged one an
/// `xsd:string`.
pub open spec fn literal_of(
    value: Seq<char>,
    language_tag: Option<Seq<char>>,
    iri: Option<IriModel>,
) -> LiteralModel {
    LiteralModel {
        value,
        language_tag,
        iri: match iri {
            Some(i) => i,
            None => if language_tag is Some {
                term_iri(Term::LangString)
            } else {
                term_iri(Term::String)
            },
        },
    }
}

/// Whether two literals are the same: lexical form, tag and the text of
/// the datatype agree.
pub open spec fn same_literal(a: LiteralModel, b: LiteralModel) -> bool {
    a.value == b.value && a.language_tag == b.language_tag && a.iri.text == b.iri.text
}

/// The display form of a literal: the quoted lexical form, `@` and the
/// tag where there is one, then `^^` and the datatype.
pub open spec fn literal_display(l: LiteralModel) -> Seq<char> {
    seq!['"'] + l.value + seq!['"'] + match l.language_tag {
        Some(tag) => seq!['@'] + tag,
        None => Seq::<char>::empty(),
    } + seq!['^', '^'] + iri_display(l.iri)
}

impl View for Literal {
    type V = LiteralModel;

    open spec fn view(&self) -> LiteralModel {
        LiteralModel {
            value: self.value@,
            language_tag: opt_text(self.language_tag),
            iri: self.iri@,
        }
    }
}

impl Clone for Literal {
    fn clone(&self) -> (r: Self)
        ensures
            r@ == self@,
    {
        Literal {
            value: self.value.clone(),
            language_tag: match &self.language_tag {
                Some(tag) => Some(tag.clone()),
                None => None,
            },
            iri: self.iri.clone(),
        }
    }
}

impl PartialEq for Literal {
    fn eq(&self, other: &Self) -> (r: bool) {
        let tags = match &self.language_tag {
            Some(a) => match &other.language_tag {
                Some(b) => *a == *b,
                None => false,
            },
            None => other.language_tag.is_none(),
        };
        self.value == other.value && tags && self.iri == other.iri
    }
}

impl Eq for Literal {}

impl vstd::std_specs::cmp::PartialEqSpecImpl for Literal {
    open spec fn obeys_eq_spec() -> bool {
        true
    }

    open spec fn eq_spec(&self, other: &Self) -> bool {
        same_literal(self@, other@)
    }
}

impl Literal {
    /// A literal of the given lexical form. Without a datatype it is an
    /// `rdf:langString` where it has a language tag, else an `xsd:string`.
    pub fn new(value: String, language_tag: Option<String>, iri: Option<Iri>) -> (r: Self)
        ensures
            r@ == literal_of(value@, opt_text(language_tag), opt_iri(iri)),
    {
        let iri = match iri {
            Some(iri) => iri,
            None => if language_tag.is_some() {
                iri_of(Term::LangString)
            } else {
                iri_of(Term::String)
            },
        };
        Literal { value, language_tag, iri }
    }

    /// An `xsd:boolean` of the given lexical form.
    pub fn new_bool(value: String) -> (r: Self)
        ensures
            r@ == literal_of(value@, None, Some(term_iri(Term::Boolean))),
    {
        Self::new(value, None, Some(iri_of(Term::Boolean)))
    }

    /// An `xsd:double` of the given lexical form.
    pub fn new_double(value: String) -> (r: Self)
        ensures
            r@ == literal_of(value@, None, Some(term_iri(Term::Double))),
    {
        Self::new(value, None, Some(iri_of(Term::Double)))
    }

    /// An `xsd:decimal` of the given lexical form.
    pub fn new_decimal(value: String) -> (r: Self)
        ensures
            r@ == literal_of(value@, None, Some(term_iri(Term::Decimal))),
    {
        Self::new(value, None, Some(iri_of(Term::Decimal)))
    }

    /// An `xsd:integer` of the given lexical form.
    pub fn new_integer(value: String) -> (r: Self)
        ensures
            r@ == literal_of(value@, None, Some(term_iri(Term::Integer))),
    {
        Self::new(value, None, Some(iri_of(Term::Integer)))
    }

    /// The literal in display form.
    pub fn to_string(&self) -> (s: String)
        ensures
            s@ == literal_display(self@),
    {
        let mut s = String::new();
        s.push('"');
        s.append(self.value.as_str());
        s.push('"');
        match &self.language_tag {
            Some(tag) => {
                s.push('@');
                s.append(tag.as_str());
            },
            None => {},
        }
        s.push('^');
        s.push('^');
        let iri = self.iri.to_string();
        s.append(iri.as_str());
        assert(s@ =~= literal_display(self@));
        s
    }
}

} // verus!

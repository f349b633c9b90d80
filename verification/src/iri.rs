//! Internationalized resource identifiers and blank nodes.

use vstd::prelude::*;
use vstd::string::*;
use url::Url;
use crate::text::has_char;

verus! {

/// What an [`Iri`] stands for: the text of the resolved identifier, and
/// whether the text it was made from held a `#`.
pub struct IriModel {
    pub text: Seq<char>,
    pub had_fragment: bool,
}

/// A resolved, absolute identifier. The text does not hold the wrapping
/// `<>`; [`Iri::to_string`] adds them.
#[derive(Debug)]
pub struct Iri {
    text: String,
    had_fragment: bool,
}

/// Why a piece of text is no identifier, in the resolver's words.
#[derive(Debug)]
pub struct IriParseError {
    pub reason: String,
}

/// A blank node, known by its label.
#[derive(Debug)]
pub struct BlankNode(pub String);

/// The error type of the `url` crate.
#[verifier::external_type_specification]
#[verifier::external_body]
pub struct ExUrlParseError(url::ParseError);

/// The serialization of the URL that `Url::parse` makes of `raw`, where it
/// accepts `raw`.
pub uninterp spec fn url_parsed(raw: Seq<char>) -> Option<Seq<char>>;

/// The serialization of the URL that `Url::join` makes of the reference
/// `raw` against the URL written `base`, where it accepts both.
pub uninterp spec fn url_joined(base: Seq<char>, raw: Seq<char>) -> Option<Seq<char>>;

/// The serialization of the URL written `base` after `Url::set_fragment`
/// has put `fragment` in place of its fragment.
pub uninterp spec fn url_with_fragment(base: Seq<char>, fragment: Seq<char>) -> Option<Seq<char>>;

/// Calls `Url::parse`: the result is the serialization of the parsed URL,
/// or the crate's error where it rejects `raw`.
#[verifier::external_body]
fn parse_url(raw: &str) -> (r: Result<String, url::ParseError>)
    ensures
        match r {
            Ok(s) => url_parsed(raw@) == Some(s@),
            Err(_) => url_parsed(raw@) is None,
        },
{
    Url::parse(raw).map(String::from)
}

/// Calls `Url::join` on the URL that `base` is the serialization of: the
/// result is the serialization of the joined URL, or the crate's error
/// where either text is rejected.
#[verifier::external_body]
fn join_url(base: &str, raw: &str) -> (r: Result<String, url::ParseError>)
    ensures
        match r {
            Ok(s) => url_joined(base@, raw@) == Some(s@),
            Err(_) => url_joined(base@, raw@) is None,
        },
{
    Url::parse(base)?.join(raw).map(String::from)
}

/// Calls `Url::set_fragment` on the URL that `base` is the serialization
/// of: the result is the serialization of that URL with `fragment` as its
/// fragment, or the crate's error where `base` is rejected.
#[verifier::external_body]
fn set_url_fragment(base: &str, fragment: &str) -> (r: Result<String, url::ParseError>)
    ensures
        match r {
            Ok(s) => url_with_fragment(base@, fragment@) == Some(s@),
            Err(_) => url_with_fragment(base@, fragment@) is None,
        },
{
    let mut url = Url::parse(base)?;
    url.set_fragment(Some(fragment));
    Ok(String::from(url))
}

/// The message that the `url` crate displays for its error. Nothing is
/// claimed of the text.
#[verifier::external_body]
fn describe(error: url::ParseError) -> String {
    error.to_string()
}

/// The identifier that `raw` denotes against an optional base: `raw`
/// itself parsed where there is no base, else `raw` joined to the base.
pub open spec fn resolved(raw: Seq<char>, base: Option<IriModel>) -> Option<IriModel> {
    let text = match base {
        Some(b) => url_joined(b.text, raw),
        None => url_parsed(raw),
    };
    match text {
        Some(t) => Some(IriModel { text: t, had_fragment: raw.contains('#') }),
        None => None,
    }
}

/// What joining `relative` to `iri` gives. An identifier that was written
/// with a fragment has the fragment replaced; any other gets a path
/// join. Either way the result counts as written without a fragment, so
/// that joining to it again is a path join.
pub open spec fn joined(iri: IriModel, relative: Seq<char>) -> Option<IriModel> {
    if iri.had_fragment {
        match url_with_fragment(iri.text, relative) {
            Some(t) => Some(IriModel { text: t, had_fragment: false }),
            None => None,
        }
    } else {
        match url_joined(iri.text, relative) {
            Some(t) => Some(IriModel { text: t, had_fragment: false }),
            None => None,
        }
    }
}

/// The display form of an identifier: its text between angle brackets.
pub open spec fn iri_display(iri: IriModel) -> Seq<char> {
    seq!['<'] + iri.text + seq!['>']
}

/// The display form of a blank node: its label after `_:`.
pub open spec fn blank_display(label: Seq<char>) -> Seq<char> {
    seq!['_', ':'] + label
}

impl View for Iri {
    type V = IriModel;

    closed spec fn view(&self) -> IriModel {
        IriModel { text: self.text@, had_fragment: self.had_fragment }
    }
}

impl Clone for Iri {
    fn clone(&self) -> (r: Self)
        ensures
            r@ == self@,
    {
        Iri { text: self.text.clone(), had_fragment: self.had_fragment }
    }
}

impl PartialEq for Iri {
    fn eq(&self, other: &Self) -> (r: bool) {
        self.text == other.text
    }
}

impl Eq for Iri {}

impl vstd::std_specs::cmp::PartialEqSpecImpl for Iri {
    open spec fn obeys_eq_spec() -> bool {
        true
    }

    open spec fn eq_spec(&self, other: &Self) -> bool {
        self@.text == other@.text
    }
}

impl Iri {
    /// Parses an absolute identifier.
    pub fn parse(raw: &str) -> (r: Result<Iri, IriParseError>)
        ensures
            match r {
                Ok(iri) => resolved(raw@, None) == Some(iri@),
                Err(_) => resolved(raw@, None) is None,
            },
    {
        let had_fragment = has_char(raw, '#');
        match parse_url(raw) {
            Ok(text) => Ok(Iri { text, had_fragment }),
            Err(e) => Err(IriParseError { reason: describe(e) }),
        }
    }

    /// Parses an identifier, resolving it against `base` where one is
    /// given.
    pub fn parse_with_base_iri(raw: &str, base: Option<&Iri>) -> (r: Result<Iri, IriParseError>)
        ensures
            match r {
                Ok(iri) => resolved(
                    raw@,
                    match base {
                        Some(b) => Some(b@),
                        None => None,
                    },
                ) == Some(iri@),
                Err(_) => resolved(
                    raw@,
                    match base {
                        Some(b) => Some(b@),
                        None => None,
                    },
                ) is None,
            },
    {
        let had_fragment = has_char(raw, '#');
        let outcome = match base {
            Some(b) => join_url(b.text.as_str(), raw),
            None => parse_url(raw),
        };
        match outcome {
            Ok(text) => Ok(Iri { text, had_fragment }),
            Err(e) => Err(IriParseError { reason: describe(e) }),
        }
    }

    /// Joins `relative` to this identifier: as a fragment where the
    /// identifier was written with one, as a relative path otherwise.
    /// The result counts as written without a fragment.
    pub fn join(self, relative: &str) -> (r: Result<Iri, IriParseError>)
        ensures
            match r {
                Ok(iri) => joined(self@, relative@) == Some(iri@),
                Err(_) => joined(self@, relative@) is None,
            },
    {
        let outcome = if self.had_fragment {
            set_url_fragment(self.text.as_str(), relative)
        } else {
            join_url(self.text.as_str(), relative)
        };
        match outcome {
            Ok(text) => Ok(Iri { text, had_fragment: false }),
            Err(e) => Err(IriParseError { reason: describe(e) }),
        }
    }

    /// An identifier whose text is taken as it is, for text that is known
    /// to be an absolute identifier in resolved form.
    pub(crate) fn from_resolved(text: &str, had_fragment: bool) -> (r: Iri)
        ensures
            r@ == (IriModel { text: text@, had_fragment }),
    {
        Iri { text: text.to_owned(), had_fragment }
    }

    /// Whether the identifier was written with a fragment.
    pub fn had_fragment(&self) -> (r: bool)
        ensures
            r == self@.had_fragment,
    {
        self.had_fragment
    }

    /// The text of the identifier, without angle brackets.
    pub fn as_str(&self) -> (s: &str)
        ensures
            s@ == self@.text,
    {
        self.text.as_str()
    }

    /// The identifier between angle brackets.
    pub fn to_string(&self) -> (s: String)
        ensures
            s@ == iri_display(self@),
    {
        let mut s = String::new();
        s.push('<');
        s.append(self.text.as_str());
        s.push('>');
        s
    }
}

impl View for BlankNode {
    type V = Seq<char>;

    open spec fn view(&self) -> Seq<char> {
        self.0@
    }
}

impl Clone for BlankNode {
    fn clone(&self) -> (r: Self)
        ensures
            r@ == self@,
    {
        BlankNode(self.0.clone())
    }
}

impl PartialEq for BlankNode {
    fn eq(&self, other: &Self) -> (r: bool) {
        self.0 == other.0
    }
}

impl Eq for BlankNode {}

impl vstd::std_specs::cmp::PartialEqSpecImpl for BlankNode {
    open spec fn obeys_eq_spec() -> bool {
        true
    }

    open spec fn eq_spec(&self, other: &Self) -> bool {
        self@ == other@
    }
}

impl Default for BlankNode {
    fn default() -> (r: Self)
        ensures
            r@ == Seq::<char>::empty(),
    {
        BlankNode(String::new())
    }
}

impl BlankNode {
    /// The label after `_:`.
    pub fn to_string(&self) -> (s: String)
        ensures
            s@ == blank_display(self@),
    {
        let mut s = String::new();
        s.push('_');
        s.push(':');
        s.append(self.0.as_str());
        s
    }
}

} // verus!

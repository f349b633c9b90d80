//! What a document's tokens mean: the triples that they state, told as
//! the steps of a reader that walks the tokens once, from left to right.
//!
//! Each step takes the reader's state and gives the state after it, or
//! the reason why the tokens cannot be read. A list is read item by item
//! for as long as the next token belongs to it; reading an item always
//! takes at least its own token, and a list's definition says so by
//! ending the list after an item that took none.

use vstd::prelude::*;
use crate::iri::{resolved, IriModel};
use crate::literal::{literal_of, LiteralModel};
use crate::object::ObjectModel;
use crate::parser::{string_value, Document, Rule};
use crate::subject::SubjectModel;
use crate::text::{decimal, hex_digit, scalar, without};
use crate::triple::TripleModel;
use crate::vocab::{term_iri, Term};

verus! {

/// Why a sequence of tokens cannot be read.
#[derive(Clone, Copy, Debug, PartialEq, Eq, Structural)]
pub enum ParseFailure {
    /// The tokens end where one more is needed.
    UnexpectedEnd,
    /// A token has a label that cannot stand at its place.
    UnexpectedToken,
    /// A prefixed name uses a prefix that no directive has declared.
    UndefinedPrefix,
    /// The resolver rejects an identifier, or a relative one has no base.
    InvalidIri,
    /// An escape sequence names no character.
    InvalidEscape,
    /// A triple is to be stated and there is no subject.
    NoSubject,
    /// A triple is to be stated and there is no predicate.
    NoPredicate,
    /// The labels for blank nodes have run out.
    TooManyBlankNodes,
}

/// The reader's state.
pub struct Ctx {
    /// The index of the next token.
    pub pos: int,
    /// The base that relative identifiers are resolved against.
    pub base: Option<IriModel>,
    /// The number of the last blank node label that was tried.
    pub counter: nat,
    /// The declared prefixes.
    pub prefixes: Map<Seq<char>, IriModel>,
    /// The subject of the triples being stated.
    pub subject: Option<SubjectModel>,
    /// The predicate of the triples being stated.
    pub predicate: Option<IriModel>,
    /// The subjects set aside by the constructs that are open.
    pub subject_stack: Seq<SubjectModel>,
    /// The predicates set aside by the constructs that are open.
    pub predicate_stack: Seq<IriModel>,
    /// The triples stated so far.
    pub triples: Seq<TripleModel>,
}

/// The outcome of a step that also yields a value.
pub type Step<T> = Result<(T, Ctx), ParseFailure>;

impl Ctx {
    /// The state before the first token, with an optional base.
    pub open spec fn initial(base: Option<IriModel>) -> Ctx {
        Ctx {
            pos: 0,
            base,
            counter: 0,
            prefixes: Map::empty(),
            subject: None,
            predicate: None,
            subject_stack: Seq::empty(),
            predicate_stack: Seq::empty(),
            triples: Seq::empty(),
        }
    }

    /// The state after one token was taken.
    pub open spec fn advance(self) -> Ctx {
        Ctx { pos: self.pos + 1, ..self }
    }

    /// Sets the subject aside, where there is one.
    pub open spec fn save_subject(self) -> Ctx {
        match self.subject {
            Some(s) => Ctx { subject: None, subject_stack: self.subject_stack.push(s), ..self },
            None => self,
        }
    }

    /// Sets the predicate aside, where there is one.
    pub open spec fn save_predicate(self) -> Ctx {
        match self.predicate {
            Some(p) => Ctx {
                predicate: None,
                predicate_stack: self.predicate_stack.push(p),
                ..self
            },
            None => self,
        }
    }

    /// Takes back the subject that was set aside last; none where none is.
    pub open spec fn pop_subject(self) -> Ctx {
        if self.subject_stack.len() > 0 {
            Ctx {
                subject: Some(self.subject_stack.last()),
                subject_stack: self.subject_stack.drop_last(),
                ..self
            }
        } else {
            Ctx { subject: None, ..self }
        }
    }

    /// Takes back the predicate that was set aside last; none where none
    /// is.
    pub open spec fn pop_predicate(self) -> Ctx {
        if self.predicate_stack.len() > 0 {
            Ctx {
                predicate: Some(self.predicate_stack.last()),
                predicate_stack: self.predicate_stack.drop_last(),
                ..self
            }
        } else {
            Ctx { predicate: None, ..self }
        }
    }

    /// States the triple of the current subject and predicate with
    /// `object`.
    pub open spec fn emit(self, object: ObjectModel) -> Result<Ctx, ParseFailure> {
        match self.subject {
            None => Err(ParseFailure::NoSubject),
            Some(subject) => match self.predicate {
                None => Err(ParseFailure::NoPredicate),
                Some(predicate) => Ok(
                    Ctx {
                        triples: self.triples.push(TripleModel { subject, predicate, object }),
                        ..self
                    },
                ),
            },
        }
    }
}

/// Takes the next token, which must have the label `rule`.
pub open spec fn expect(d: Document, c: Ctx, rule: Rule) -> Result<Ctx, ParseFailure> {
    match d.rule_at(c.pos) {
        None => Err(ParseFailure::UnexpectedEnd),
        Some(r) => if r == rule {
            Ok(c.advance())
        } else {
            Err(ParseFailure::UnexpectedToken)
        },
    }
}

/// Whether the step from `c` to `c1` took at least one token and none
/// beyond the last.
pub open spec fn moved(d: Document, c: Ctx, c1: Ctx) -> bool {
    c.pos < c1.pos <= d.tokens.len()
}

/// The failure for a token that cannot stand at `pos`, or for the lack of
/// one.
pub open spec fn misplaced(d: Document, pos: int) -> ParseFailure {
    if d.rule_at(pos) is Some {
        ParseFailure::UnexpectedToken
    } else {
        ParseFailure::UnexpectedEnd
    }
}

/// The label of the blank node numbered `n`.
pub open spec fn blank_label(n: nat) -> Seq<char> {
    seq!['b'] + decimal(n)
}

/// The next label for a blank node, with its number: the first number
/// after `counter` whose label is no declared prefix.
pub open spec fn fresh(counter: nat, prefixes: Map<Seq<char>, IriModel>) -> Option<
    (Seq<char>, nat),
>
    decreases u64::MAX - counter,
{
    if counter >= u64::MAX {
        None
    } else if prefixes.contains_key(blank_label(counter + 1)) {
        fresh(counter + 1, prefixes)
    } else {
        Some((blank_label(counter + 1), counter + 1))
    }
}

/// The text of a prefix token without the colon that ends it.
pub open spec fn strip_colon(text: Seq<char>) -> Seq<char> {
    if text.len() > 0 && text.last() == ':' {
        text.drop_last()
    } else {
        text
    }
}

/// The text of a language tag token without the `@` that begins it.
pub open spec fn strip_at(text: Seq<char>) -> Seq<char> {
    if text.len() > 0 && text[0] == '@' {
        text.subrange(1, text.len() as int)
    } else {
        text
    }
}

/// The text of a labelled blank node without the `_:` that begins it.
pub open spec fn strip_blank(text: Seq<char>) -> Seq<char> {
    if text.len() >= 2 {
        text.subrange(2, text.len() as int)
    } else {
        text
    }
}

/// A local name with the backslashes of its escapes taken out.
pub open spec fn unescaped(text: Seq<char>) -> Seq<char> {
    without(text, '\\')
}

/// The character that a two-character escape stands for.
pub open spec fn echar_value(text: Seq<char>) -> Option<char> {
    if text.len() == 2 && text[0] == '\\' {
        if text[1] == 't' {
            Some('\t')
        } else if text[1] == 'b' {
            Some('\u{08}')
        } else if text[1] == 'n' {
            Some('\n')
        } else if text[1] == 'r' {
            Some('\r')
        } else if text[1] == 'f' {
            Some('\u{0C}')
        } else if text[1] == '\'' {
            Some('\'')
        } else if text[1] == '"' {
            Some('"')
        } else if text[1] == '\\' {
            Some('\\')
        } else {
            None
        }
    } else {
        None
    }
}

/// Reads the hexadecimal digits that follow, each a token of its own,
/// most significant first, onto the number `acc`. Gives the number and
/// the index of the token after the digits.
pub open spec fn sp_hex(d: Document, pos: int, acc: nat) -> Result<(nat, int), ParseFailure>
    decreases d.tokens.len() - pos,
{
    if d.rule_at(pos) == Some(Rule::HEX) {
        if d.text_at(pos).len() == 0 {
            Err(ParseFailure::InvalidEscape)
        } else {
            match hex_digit(d.text_at(pos)[0]) {
                None => Err(ParseFailure::InvalidEscape),
                Some(v) => if acc > 0x0FFF_FFFF {
                    Err(ParseFailure::InvalidEscape)
                } else {
                    sp_hex(d, pos + 1, acc * 16 + v)
                },
            }
        }
    } else {
        Ok((acc, pos))
    }
}

/// Reads a numeric escape: its token, then its digits.
pub open spec fn sp_uchar(d: Document, c: Ctx) -> Step<char> {
    match expect(d, c, Rule::UCHAR) {
        Err(e) => Err(e),
        Ok(c1) => match sp_hex(d, c1.pos, 0) {
            Err(e) => Err(e),
            Ok((n, pos)) => match scalar(n) {
                None => Err(ParseFailure::InvalidEscape),
                Some(ch) => Ok((ch, Ctx { pos, ..c1 })),
            },
        },
    }
}

/// Reads a two-character escape.
pub open spec fn sp_echar(d: Document, c: Ctx) -> Step<char> {
    if d.rule_at(c.pos) is None {
        Err(ParseFailure::UnexpectedEnd)
    } else {
        match echar_value(d.text_at(c.pos)) {
            None => Err(ParseFailure::InvalidEscape),
            Some(ch) => Ok((ch, c.advance())),
        }
    }
}

/// Reads the pieces of a string's content onto `acc`. A piece is an
/// escape where the token after it is one and lies inside it; any other
/// piece stands for its own text.
pub open spec fn sp_pieces(d: Document, c: Ctx, acc: Seq<char>) -> Step<Seq<char>>
    decreases d.tokens.len() - c.pos,
{
    match d.rule_at(c.pos) {
        None => Err(ParseFailure::UnexpectedEnd),
        Some(r) => if !string_value(r) {
            Ok((acc, c))
        } else {
            let c1 = c.advance();
            let inside = d.tokens[c.pos].end as int;
            if d.belongs(c1.pos, Rule::ECHAR, inside) {
                match sp_echar(d, c1) {
                    Err(e) => Err(e),
                    Ok((ch, c2)) => sp_pieces(d, c2, acc.push(ch)),
                }
            } else if d.belongs(c1.pos, Rule::UCHAR, inside) {
                match sp_uchar(d, c1) {
                    Err(e) => Err(e),
                    Ok((ch, c2)) => if moved(d, c, c2) {
                        sp_pieces(d, c2, acc.push(ch))
                    } else {
                        Ok((acc, c2))
                    },
                }
            } else if d.rule_at(c1.pos) is None {
                Err(ParseFailure::UnexpectedEnd)
            } else {
                sp_pieces(d, c1, acc + d.text_at(c.pos))
            }
        },
    }
}

/// Reads a string: its token, then its pieces.
pub open spec fn sp_string(d: Document, c: Ctx) -> Step<Seq<char>> {
    match expect(d, c, Rule::STRING) {
        Err(e) => Err(e),
        Ok(c1) => sp_pieces(d, c1, Seq::empty()),
    }
}

/// Reads the parts of a bracketed identifier that lie before `end` onto
/// `acc`: stretches of text and numeric escapes.
pub open spec fn sp_iri_parts(d: Document, c: Ctx, end: int, acc: Seq<char>) -> Step<Seq<char>>
    decreases d.tokens.len() - c.pos,
{
    if d.belongs(c.pos, Rule::IRI_VALUE, end) {
        sp_iri_parts(d, c.advance(), end, acc + d.text_at(c.pos))
    } else if d.belongs(c.pos, Rule::UCHAR, end) {
        match sp_uchar(d, c) {
            Err(e) => Err(e),
            Ok((ch, c1)) => if moved(d, c, c1) {
                sp_iri_parts(d, c1, end, acc.push(ch))
            } else {
                Ok((acc, c1))
            },
        }
    } else if 0 <= c.pos < d.tokens.len() && d.tokens[c.pos].start < end {
        Err(ParseFailure::UnexpectedToken)
    } else {
        Ok((acc, c))
    }
}

/// Reads a bracketed identifier. With nothing between the brackets it is
/// the base. Otherwise its text, with the escapes replaced, is resolved
/// against the base, where there is one.
pub open spec fn sp_iriref(d: Document, c: Ctx) -> Step<IriModel> {
    match expect(d, c, Rule::IRIREF) {
        Err(e) => Err(e),
        Ok(c1) => {
            let end = d.tokens[c.pos].end as int;
            if !(0 <= c1.pos < d.tokens.len() && d.tokens[c1.pos].start < end) {
                match c.base {
                    Some(base) => Ok((base, c1)),
                    None => Err(ParseFailure::InvalidIri),
                }
            } else {
                match sp_iri_parts(d, c1, end, Seq::empty()) {
                    Err(e) => Err(e),
                    Ok((text, c2)) => match resolved(text, c.base) {
                        None => Err(ParseFailure::InvalidIri),
                        Some(iri) => Ok((iri, c2)),
                    },
                }
            }
        },
    }
}

/// Reads a prefix and looks it up: the identifier that the prefix was
/// declared for.
pub open spec fn sp_pname_ns(d: Document, c: Ctx) -> Step<IriModel> {
    if d.rule_at(c.pos) is None {
        Err(ParseFailure::UnexpectedEnd)
    } else {
        let prefix = strip_colon(d.text_at(c.pos));
        if c.prefixes.contains_key(prefix) {
            Ok((c.prefixes[prefix], c.advance()))
        } else {
            Err(ParseFailure::UndefinedPrefix)
        }
    }
}

/// Reads a prefixed name with a local part: the text of the prefix's
/// identifier with the local part, its escapes removed, put after it,
/// parsed as an identifier.
pub open spec fn sp_pname_ln(d: Document, c: Ctx) -> Step<IriModel> {
    match expect(d, c, Rule::PNAME_LN) {
        Err(e) => Err(e),
        Ok(c1) => match sp_pname_ns(d, c1) {
            Err(e) => Err(e),
            Ok((ns, c2)) => match expect(d, c2, Rule::PN_LOCAL) {
                Err(e) => Err(e),
                Ok(c3) => match resolved(ns.text + unescaped(d.text_at(c2.pos)), None) {
                    None => Err(ParseFailure::InvalidIri),
                    Some(iri) => Ok((iri, c3)),
                },
            },
        },
    }
}

/// Reads a prefixed name, with or without a local part.
pub open spec fn sp_prefixed_name(d: Document, c: Ctx) -> Step<IriModel> {
    match expect(d, c, Rule::PrefixedName) {
        Err(e) => Err(e),
        Ok(c1) => if d.rule_at(c1.pos) == Some(Rule::PNAME_LN) {
            sp_pname_ln(d, c1)
        } else if d.rule_at(c1.pos) == Some(Rule::PNAME_NS) {
            sp_pname_ns(d, c1)
        } else {
            Err(misplaced(d, c1.pos))
        },
    }
}

/// Reads an identifier, prefixed or bracketed.
pub open spec fn sp_iri(d: Document, c: Ctx) -> Step<IriModel> {
    match expect(d, c, Rule::iri) {
        Err(e) => Err(e),
        Ok(c1) => if d.rule_at(c1.pos) == Some(Rule::PrefixedName) {
            sp_prefixed_name(d, c1)
        } else if d.rule_at(c1.pos) == Some(Rule::IRIREF) {
            sp_iriref(d, c1)
        } else {
            Err(misplaced(d, c1.pos))
        },
    }
}

/// Reads a language tag, where one follows.
pub open spec fn sp_langtag(d: Document, c: Ctx) -> (Option<Seq<char>>, Ctx) {
    if d.rule_at(c.pos) == Some(Rule::LANGTAG) {
        (Some(strip_at(d.text_at(c.pos))), c.advance())
    } else {
        (None, c)
    }
}

/// Reads a datatype, where an identifier follows.
pub open spec fn sp_datatype(d: Document, c: Ctx) -> Step<Option<IriModel>> {
    if d.rule_at(c.pos) == Some(Rule::iri) {
        match sp_iri(d, c) {
            Err(e) => Err(e),
            Ok((iri, c1)) => Ok((Some(iri), c1)),
        }
    } else {
        Ok((None, c))
    }
}

/// Reads a quoted literal: a string, then a language tag and a datatype
/// where they follow.
pub open spec fn sp_rdf_literal(d: Document, c: Ctx) -> Step<LiteralModel> {
    match expect(d, c, Rule::RDFLiteral) {
        Err(e) => Err(e),
        Ok(c1) => match sp_string(d, c1) {
            Err(e) => Err(e),
            Ok((value, c2)) => {
                let (tag, c3) = sp_langtag(d, c2);
                match sp_datatype(d, c3) {
                    Err(e) => Err(e),
                    Ok((datatype, c4)) => Ok((literal_of(value, tag, datatype), c4)),
                }
            },
        },
    }
}

/// Reads a number. Its lexical form is the text of its token; for a
/// double, with the text of the exponent token that follows put after it.
pub open spec fn sp_numeric_literal(d: Document, c: Ctx) -> Step<LiteralModel> {
    match expect(d, c, Rule::NumericLiteral) {
        Err(e) => Err(e),
        Ok(c1) => {
            let value = d.text_at(c1.pos);
            let c2 = c1.advance();
            if d.rule_at(c1.pos) == Some(Rule::INTEGER) {
                Ok((literal_of(value, None, Some(term_iri(Term::Integer))), c2))
            } else if d.rule_at(c1.pos) == Some(Rule::DECIMAL) {
                Ok((literal_of(value, None, Some(term_iri(Term::Decimal))), c2))
            } else if d.rule_at(c1.pos) == Some(Rule::DOUBLE) {
                if d.rule_at(c2.pos) == Some(Rule::EXPONENT) {
                    Ok(
                        (
                            literal_of(
                                value + d.text_at(c2.pos),
                                None,
                                Some(term_iri(Term::Double)),
                            ),
                            c2.advance(),
                        ),
                    )
                } else {
                    Ok((literal_of(value, None, Some(term_iri(Term::Double))), c2))
                }
            } else {
                Err(misplaced(d, c1.pos))
            }
        },
    }
}

/// Reads a boolean: the text of the next token is its lexical form.
pub open spec fn sp_bool_literal(d: Document, c: Ctx) -> Step<LiteralModel> {
    if d.rule_at(c.pos) is None {
        Err(ParseFailure::UnexpectedEnd)
    } else {
        Ok((literal_of(d.text_at(c.pos), None, Some(term_iri(Term::Boolean))), c.advance()))
    }
}

/// Reads a literal of any of the three kinds.
pub open spec fn sp_literal(d: Document, c: Ctx) -> Step<LiteralModel> {
    match expect(d, c, Rule::literal) {
        Err(e) => Err(e),
        Ok(c1) => if d.rule_at(c1.pos) == Some(Rule::RDFLiteral) {
            sp_rdf_literal(d, c1)
        } else if d.rule_at(c1.pos) == Some(Rule::NumericLiteral) {
            sp_numeric_literal(d, c1)
        } else if d.rule_at(c1.pos) == Some(Rule::BooleanLiteral) {
            sp_bool_literal(d, c1)
        } else {
            Err(misplaced(d, c1.pos))
        },
    }
}

/// Reads a blank node: a labelled one by its label, an anonymous one by
/// a fresh label.
pub open spec fn sp_blank_node(d: Document, c: Ctx) -> Step<Seq<char>> {
    match expect(d, c, Rule::BlankNode) {
        Err(e) => Err(e),
        Ok(c1) => if d.rule_at(c1.pos) == Some(Rule::BLANK_NODE_LABEL) {
            Ok((strip_blank(d.text_at(c1.pos)), c1.advance()))
        } else if d.rule_at(c1.pos) == Some(Rule::ANON) {
            match fresh(c1.counter, c1.prefixes) {
                None => Err(ParseFailure::TooManyBlankNodes),
                Some((label, counter)) => Ok((label, Ctx { counter, ..c1.advance() })),
            }
        } else {
            Err(misplaced(d, c1.pos))
        },
    }
}

/// Reads a verb: `a` is `rdf:type`, anything else an identifier.
pub open spec fn sp_verb(d: Document, c: Ctx) -> Step<IriModel> {
    match expect(d, c, Rule::verb) {
        Err(e) => Err(e),
        Ok(c1) => if d.text_at(c.pos) == seq!['a'] {
            Ok((term_iri(Term::Type), c1))
        } else {
            sp_iri(d, c1)
        },
    }
}

/// Reads an object and states the triple of the current subject and
/// predicate with it. A collection or a property list states its own
/// triples first.
pub open spec fn sp_object(d: Document, c: Ctx) -> Result<Ctx, ParseFailure>
    decreases d.tokens.len() - c.pos, 0nat,
{
    match expect(d, c, Rule::object) {
        Err(e) => Err(e),
        Ok(c1) => {
            let value: Step<ObjectModel> = if d.rule_at(c1.pos) == Some(Rule::iri) {
                match sp_iri(d, c1) {
                    Err(e) => Err(e),
                    Ok((iri, c2)) => Ok((ObjectModel::Iri(iri), c2)),
                }
            } else if d.rule_at(c1.pos) == Some(Rule::literal) {
                match sp_literal(d, c1) {
                    Err(e) => Err(e),
                    Ok((literal, c2)) => Ok((ObjectModel::Literal(literal), c2)),
                }
            } else if d.rule_at(c1.pos) == Some(Rule::BlankNode) {
                match sp_blank_node(d, c1) {
                    Err(e) => Err(e),
                    Ok((label, c2)) => Ok((ObjectModel::BlankNode(label), c2)),
                }
            } else if d.rule_at(c1.pos) == Some(Rule::collection) {
                sp_collection(d, c1)
            } else if d.rule_at(c1.pos) == Some(Rule::blankNodePropertyList) {
                match sp_property_list(d, c1) {
                    Err(e) => Err(e),
                    Ok((label, c2)) => Ok((ObjectModel::BlankNode(label), c2)),
                }
            } else {
                Err(misplaced(d, c1.pos))
            };
            match value {
                Err(e) => Err(e),
                Ok((object, c2)) => c2.emit(object),
            }
        },
    }
}

/// Reads a collection. An empty one is `rdf:nil` and states nothing. Any
/// other is the blank node of its first cell: each element gets a cell
/// of its own, a fresh blank node that states the element as its
/// `rdf:first` and the next cell, or `rdf:nil` after the last, as its
/// `rdf:rest`. The subject and predicate around the collection are set
/// aside while it is read.
pub open spec fn sp_collection(d: Document, c: Ctx) -> Step<ObjectModel>
    decreases d.tokens.len() - c.pos, 0nat,
{
    match expect(d, c.save_subject().save_predicate(), Rule::collection) {
        Err(e) => Err(e),
        Ok(c1) => {
            let end = d.tokens[c.pos].end as int;
            if !d.belongs(c1.pos, Rule::object, end) {
                Ok((ObjectModel::Iri(term_iri(Term::Nil)), c1.pop_subject().pop_predicate()))
            } else {
                match fresh(c1.counter, c1.prefixes) {
                    None => Err(ParseFailure::TooManyBlankNodes),
                    Some((head, counter)) => match sp_cells(
                        d,
                        Ctx { counter, ..c1 },
                        end,
                        head,
                    ) {
                        Err(e) => Err(e),
                        Ok(c2) => Ok(
                            (ObjectModel::BlankNode(head), c2.pop_subject().pop_predicate()),
                        ),
                    },
                }
            }
        },
    }
}

/// Reads the elements of a collection from the one that belongs to the
/// cell `node` on, up to `end`.
pub open spec fn sp_cells(d: Document, c: Ctx, end: int, node: Seq<char>) -> Result<
    Ctx,
    ParseFailure,
>
    decreases d.tokens.len() - c.pos, 1nat,
{
    let cell = Some(SubjectModel::BlankNode(node));
    let first = Some(term_iri(Term::First));
    let rest = Some(term_iri(Term::Rest));
    match sp_object(d, Ctx { subject: cell, predicate: first, ..c }) {
        Err(e) => Err(e),
        Ok(c1) => if !moved(d, c, c1) {
            Ok(c1)
        } else if d.belongs(c1.pos, Rule::object, end) {
            match fresh(c1.counter, c1.prefixes) {
                None => Err(ParseFailure::TooManyBlankNodes),
                Some((next, counter)) => match (Ctx {
                    subject: cell,
                    predicate: rest,
                    counter,
                    ..c1
                }).emit(ObjectModel::BlankNode(next)) {
                    Err(e) => Err(e),
                    Ok(c2) => sp_cells(d, c2, end, next),
                },
            }
        } else {
            (Ctx { subject: cell, predicate: rest, ..c1 }).emit(
                ObjectModel::Iri(term_iri(Term::Nil)),
            )
        },
    }
}

/// Reads a bracketed property list: a fresh blank node, which is the
/// subject of the predicates and objects between the brackets. The
/// subject and predicate around the list are set aside while it is read.
pub open spec fn sp_property_list(d: Document, c: Ctx) -> Step<Seq<char>>
    decreases d.tokens.len() - c.pos, 0nat,
{
    match expect(d, c, Rule::blankNodePropertyList) {
        Err(e) => Err(e),
        Ok(c1) => match fresh(c1.counter, c1.prefixes) {
            None => Err(ParseFailure::TooManyBlankNodes),
            Some((node, counter)) => {
                let c2 = Ctx { counter, ..c1 }.save_subject();
                let c3 = Ctx { subject: Some(SubjectModel::BlankNode(node)), ..c2 }.save_predicate();
                match sp_predicate_object_list(d, c3) {
                    Err(e) => Err(e),
                    Ok(c4) => Ok((node, c4.pop_subject().pop_predicate())),
                }
            },
        },
    }
}

/// Reads a list of predicates, each with its objects.
pub open spec fn sp_predicate_object_list(d: Document, c: Ctx) -> Result<Ctx, ParseFailure>
    decreases d.tokens.len() - c.pos, 0nat,
{
    match expect(d, c, Rule::predicateObjectList) {
        Err(e) => Err(e),
        Ok(c1) => sp_verbs(d, c1, d.tokens[c.pos].end as int),
    }
}

/// Reads the verbs that lie before `end`, each with its list of objects.
pub open spec fn sp_verbs(d: Document, c: Ctx, end: int) -> Result<Ctx, ParseFailure>
    decreases d.tokens.len() - c.pos, 2nat,
{
    if !d.belongs(c.pos, Rule::verb, end) {
        Ok(c)
    } else {
        match sp_verb(d, c) {
            Err(e) => Err(e),
            Ok((predicate, c1)) => if !moved(d, c, c1) {
                Ok(c1)
            } else {
                match sp_object_list(d, Ctx { predicate: Some(predicate), ..c1 }) {
                    Err(e) => Err(e),
                    Ok(c2) => if !moved(d, c, c2) {
                        Ok(c2)
                    } else {
                        sp_verbs(d, c2, end)
                    },
                }
            },
        }
    }
}

/// Reads a list of objects of the current subject and predicate.
pub open spec fn sp_object_list(d: Document, c: Ctx) -> Result<Ctx, ParseFailure>
    decreases d.tokens.len() - c.pos, 0nat,
{
    match expect(d, c, Rule::objectList) {
        Err(e) => Err(e),
        Ok(c1) => sp_objects(d, c1, d.tokens[c.pos].end as int),
    }
}

/// Reads the objects that lie before `end`.
pub open spec fn sp_objects(d: Document, c: Ctx, end: int) -> Result<Ctx, ParseFailure>
    decreases d.tokens.len() - c.pos, 1nat,
{
    if !d.belongs(c.pos, Rule::object, end) {
        Ok(c)
    } else {
        match sp_object(d, c) {
            Err(e) => Err(e),
            Ok(c1) => if !moved(d, c, c1) {
                Ok(c1)
            } else {
                sp_objects(d, c1, end)
            },
        }
    }
}

/// Reads the subject of a statement and makes it the current subject.
pub open spec fn sp_subject(d: Document, c: Ctx) -> Result<Ctx, ParseFailure> {
    match expect(d, c, Rule::subject) {
        Err(e) => Err(e),
        Ok(c1) => if d.rule_at(c1.pos) == Some(Rule::iri) {
            match sp_iri(d, c1) {
                Err(e) => Err(e),
                Ok((iri, c2)) => Ok(Ctx { subject: Some(SubjectModel::Iri(iri)), ..c2 }),
            }
        } else if d.rule_at(c1.pos) == Some(Rule::BlankNode) {
            match sp_blank_node(d, c1) {
                Err(e) => Err(e),
                Ok((label, c2)) => Ok(Ctx { subject: Some(SubjectModel::BlankNode(label)), ..c2 }),
            }
        } else if d.rule_at(c1.pos) == Some(Rule::collection) {
            match sp_collection(d, c1) {
                Err(e) => Err(e),
                Ok((ObjectModel::Iri(iri), c2)) => Ok(
                    Ctx { subject: Some(SubjectModel::Iri(iri)), ..c2 },
                ),
                Ok((ObjectModel::BlankNode(label), c2)) => Ok(
                    Ctx { subject: Some(SubjectModel::BlankNode(label)), ..c2 },
                ),
                Ok((ObjectModel::Literal(_), _)) => Err(ParseFailure::UnexpectedToken),
            }
        } else {
            Err(misplaced(d, c1.pos))
        },
    }
}

/// Reads the triples of one statement: a subject with its predicates and
/// objects, or a property list, whose blank node is then the subject of
/// the predicates and objects that follow it.
pub open spec fn sp_triples(d: Document, c: Ctx) -> Result<Ctx, ParseFailure> {
    match expect(d, c, Rule::triples) {
        Err(e) => Err(e),
        Ok(c1) => if d.rule_at(c1.pos) == Some(Rule::subject) {
            match sp_subject(d, c1) {
                Err(e) => Err(e),
                Ok(c2) => sp_predicate_object_list(d, c2),
            }
        } else if d.rule_at(c1.pos) == Some(Rule::blankNodePropertyList) {
            match sp_property_list(d, c1) {
                Err(e) => Err(e),
                Ok((node, c2)) => {
                    let c3 = Ctx { subject: Some(SubjectModel::BlankNode(node)), ..c2 };
                    if d.rule_at(c3.pos) == Some(Rule::predicateObjectList) {
                        sp_predicate_object_list(d, c3)
                    } else {
                        Ok(c3)
                    }
                },
            }
        } else {
            Err(misplaced(d, c1.pos))
        },
    }
}

/// Reads a directive: a prefix declaration, which binds the prefix to an
/// identifier, or a base declaration, which sets the base.
pub open spec fn sp_directive(d: Document, c: Ctx) -> Result<Ctx, ParseFailure> {
    match expect(d, c, Rule::directive) {
        Err(e) => Err(e),
        Ok(c1) => {
            let c2 = c1.advance();
            if d.rule_at(c1.pos) == Some(Rule::prefixID) || d.rule_at(c1.pos) == Some(
                Rule::sparqlPrefix,
            ) {
                if d.rule_at(c2.pos) is None {
                    Err(ParseFailure::UnexpectedEnd)
                } else {
                    match sp_iriref(d, c2.advance()) {
                        Err(e) => Err(e),
                        Ok((iri, c3)) => Ok(
                            Ctx {
                                prefixes: c3.prefixes.insert(
                                    strip_colon(d.text_at(c2.pos)),
                                    iri,
                                ),
                                ..c3
                            },
                        ),
                    }
                }
            } else if d.rule_at(c1.pos) == Some(Rule::base) || d.rule_at(c1.pos) == Some(
                Rule::sparqlBase,
            ) {
                match sp_iriref(d, c2) {
                    Err(e) => Err(e),
                    Ok((iri, c3)) => Ok(Ctx { base: Some(iri), ..c3 }),
                }
            } else {
                Err(misplaced(d, c1.pos))
            }
        },
    }
}

/// Reads one statement: a directive or triples.
pub open spec fn sp_statement(d: Document, c: Ctx) -> Result<Ctx, ParseFailure> {
    match expect(d, c, Rule::statement) {
        Err(e) => Err(e),
        Ok(c1) => if d.rule_at(c1.pos) == Some(Rule::directive) {
            sp_directive(d, c1)
        } else if d.rule_at(c1.pos) == Some(Rule::triples) {
            sp_triples(d, c1)
        } else {
            Err(misplaced(d, c1.pos))
        },
    }
}

/// Reads statements up to the end of the tokens or a token that marks
/// the end of the input.
pub open spec fn sp_statements(d: Document, c: Ctx) -> Result<Ctx, ParseFailure>
    decreases d.tokens.len() - c.pos,
{
    if d.rule_at(c.pos) is None || d.rule_at(c.pos) == Some(Rule::EOI) {
        Ok(c)
    } else {
        match sp_statement(d, c) {
            Err(e) => Err(e),
            Ok(c1) => if !moved(d, c, c1) {
                Ok(c1)
            } else {
                sp_statements(d, c1)
            },
        }
    }
}

/// The triples that a document states when read with the given base: the
/// first token, which stands for the whole document, is passed over, and
/// the statements after it are read in turn.
pub open spec fn translation(d: Document, base: Option<IriModel>) -> Result<
    Seq<TripleModel>,
    ParseFailure,
> {
    match sp_statements(d, Ctx::initial(base).advance()) {
        Err(e) => Err(e),
        Ok(c) => Ok(c.triples),
    }
}

} // verus!

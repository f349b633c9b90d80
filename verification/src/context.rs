//! How reading leaves the reader's state: what a construct changes
//! and what it gives back as it found it.

use vstd::prelude::*;
use crate::iri::IriModel;
use crate::literal::LiteralModel;
use crate::object::ObjectModel;
use crate::parser::{Document, Rule};
use crate::subject::SubjectModel;
use crate::translate::{
    expect, fresh, moved, sp_blank_node, sp_bool_literal, sp_cells, sp_collection, sp_datatype,
    sp_echar, sp_iri, sp_iri_parts, sp_iriref, sp_langtag, sp_literal, sp_numeric_literal,
    sp_object, sp_object_list, sp_objects, sp_pieces, sp_pname_ln, sp_pname_ns,
    sp_predicate_object_list, sp_prefixed_name, sp_property_list, sp_rdf_literal, sp_string,
    sp_hex, sp_triples, sp_uchar, sp_verb, sp_verbs, Ctx,
};
use crate::triple::TripleModel;
use crate::vocab::{term_iri, Term};

verus! {

/// Whether `c1` differs from `c` at most in the position and in a
/// counter that has not gone down.
pub open spec fn only_moved(c: Ctx, c1: Ctx) -> bool {
    c1 == (Ctx { pos: c1.pos, counter: c1.counter, ..c }) && c1.counter >= c.counter
}

/// Whether `b` begins with `a`.
pub open spec fn extends(a: Seq<TripleModel>, b: Seq<TripleModel>) -> bool {
    a.len() <= b.len() && b.take(a.len() as int) == a
}

/// Whether `c1` has the base, the prefixes, the subject and what is set
/// aside as `c` has them, and states what `c` states and maybe more.
pub open spec fn kept(c: Ctx, c1: Ctx) -> bool {
    &&& c1.base == c.base
    &&& c1.prefixes == c.prefixes
    &&& c1.subject == c.subject
    &&& c1.subject_stack == c.subject_stack
    &&& c1.predicate_stack == c.predicate_stack
    &&& c1.counter >= c.counter
    &&& extends(c.triples, c1.triples)
}

/// Whether `c1` is as `c` but for the position, the counter and the
/// triples, of which there may be more.
pub open spec fn framed(c: Ctx, c1: Ctx) -> bool {
    kept(c, c1) && c1.predicate == c.predicate
}

/// Whether the step from `c` to `c1` went forward or stood, and not
/// beyond the last token.
pub open spec fn reached(d: Document, c: Ctx, c1: Ctx) -> bool {
    c.pos <= c1.pos && (c.pos <= d.tokens.len() ==> c1.pos <= d.tokens.len())
}

/// Reading hexadecimal digits does not go back, nor beyond the last
/// token.
pub proof fn lemma_hex(d: Document, pos: int, acc: nat)
    requires
        sp_hex(d, pos, acc) is Ok,
    ensures
        pos <= sp_hex(d, pos, acc)->Ok_0.1,
        pos <= d.tokens.len() ==> sp_hex(d, pos, acc)->Ok_0.1 <= d.tokens.len(),
    decreases d.tokens.len() - pos,
{
    if d.rule_at(pos) == Some(Rule::HEX) {
        let v = crate::text::hex_digit(d.text_at(pos)[0])->0;
        lemma_hex(d, pos + 1, acc * 16 + v);
    }
}

/// Reading a numeric escape changes the position only, and goes
/// forward.
pub proof fn lemma_uchar(d: Document, c: Ctx)
    requires
        sp_uchar(d, c) is Ok,
    ensures
        only_moved(c, sp_uchar(d, c)->Ok_0.1),
        moved(d, c, sp_uchar(d, c)->Ok_0.1),
{
    let c1 = expect(d, c, Rule::UCHAR)->Ok_0;
    lemma_hex(d, c1.pos, 0);
}

/// Reading the pieces of a string changes the position only.
pub proof fn lemma_pieces(d: Document, c: Ctx, acc: Seq<char>)
    requires
        sp_pieces(d, c, acc) is Ok,
    ensures
        only_moved(c, sp_pieces(d, c, acc)->Ok_0.1),
        reached(d, c, sp_pieces(d, c, acc)->Ok_0.1),
    decreases d.tokens.len() - c.pos,
{
    match d.rule_at(c.pos) {
        None => {},
        Some(r) => if crate::parser::string_value(r) {
            let c1 = c.advance();
            let inside = d.tokens[c.pos].end as int;
            if d.belongs(c1.pos, Rule::ECHAR, inside) {
                let (ch, c2) = sp_echar(d, c1)->Ok_0;
                lemma_pieces(d, c2, acc.push(ch));
            } else if d.belongs(c1.pos, Rule::UCHAR, inside) {
                let (ch, c2) = sp_uchar(d, c1)->Ok_0;
                lemma_uchar(d, c1);
                if moved(d, c, c2) {
                    lemma_pieces(d, c2, acc.push(ch));
                }
            } else {
                lemma_pieces(d, c1, acc + d.text_at(c.pos));
            }
        },
    }
}

/// Reading the parts of a bracketed identifier changes the position
/// only.
pub proof fn lemma_iri_parts(d: Document, c: Ctx, end: int, acc: Seq<char>)
    requires
        sp_iri_parts(d, c, end, acc) is Ok,
    ensures
        only_moved(c, sp_iri_parts(d, c, end, acc)->Ok_0.1),
        reached(d, c, sp_iri_parts(d, c, end, acc)->Ok_0.1),
    decreases d.tokens.len() - c.pos,
{
    if d.belongs(c.pos, Rule::IRI_VALUE, end) {
        lemma_iri_parts(d, c.advance(), end, acc + d.text_at(c.pos));
    } else if d.belongs(c.pos, Rule::UCHAR, end) {
        let (ch, c1) = sp_uchar(d, c)->Ok_0;
        lemma_uchar(d, c);
        if moved(d, c, c1) {
            lemma_iri_parts(d, c1, end, acc.push(ch));
        }
    }
}

/// Reading an identifier changes the position only.
pub proof fn lemma_iri(d: Document, c: Ctx)
    requires
        sp_iri(d, c) is Ok,
    ensures
        only_moved(c, sp_iri(d, c)->Ok_0.1),
        moved(d, c, sp_iri(d, c)->Ok_0.1),
{
    let c1 = expect(d, c, Rule::iri)->Ok_0;
    if d.rule_at(c1.pos) == Some(Rule::PrefixedName) {
        let c2 = expect(d, c1, Rule::PrefixedName)->Ok_0;
        if d.rule_at(c2.pos) == Some(Rule::PNAME_LN) {
            assert(sp_pname_ln(d, c2) is Ok);
        } else {
            assert(sp_pname_ns(d, c2) is Ok);
        }
    } else {
        lemma_iriref(d, c1);
    }
}

/// Reading a bracketed identifier changes the position only.
pub proof fn lemma_iriref(d: Document, c: Ctx)
    requires
        sp_iriref(d, c) is Ok,
    ensures
        only_moved(c, sp_iriref(d, c)->Ok_0.1),
        moved(d, c, sp_iriref(d, c)->Ok_0.1),
{
    let c1 = expect(d, c, Rule::IRIREF)->Ok_0;
    let end = d.tokens[c.pos].end as int;
    if 0 <= c1.pos < d.tokens.len() && d.tokens[c1.pos].start < end {
        lemma_iri_parts(d, c1, end, Seq::empty());
    }
}

/// Reading a literal changes the position only.
pub proof fn lemma_literal(d: Document, c: Ctx)
    requires
        sp_literal(d, c) is Ok,
    ensures
        only_moved(c, sp_literal(d, c)->Ok_0.1),
        moved(d, c, sp_literal(d, c)->Ok_0.1),
{
    let c1 = expect(d, c, Rule::literal)->Ok_0;
    if d.rule_at(c1.pos) == Some(Rule::RDFLiteral) {
        let c2 = expect(d, c1, Rule::RDFLiteral)->Ok_0;
        let c3 = expect(d, c2, Rule::STRING)->Ok_0;
        lemma_pieces(d, c3, Seq::empty());
        let c4 = sp_string(d, c2)->Ok_0.1;
        let c5 = sp_langtag(d, c4).1;
        if d.rule_at(c5.pos) == Some(Rule::iri) {
            lemma_iri(d, c5);
        }
    } else if d.rule_at(c1.pos) == Some(Rule::NumericLiteral) {
        assert(sp_numeric_literal(d, c1) is Ok);
    } else {
        assert(sp_bool_literal(d, c1) is Ok);
    }
}

/// Reading a blank node changes the position and, for an anonymous one,
/// the counter.
pub proof fn lemma_blank_node(d: Document, c: Ctx)
    requires
        sp_blank_node(d, c) is Ok,
    ensures
        only_moved(c, sp_blank_node(d, c)->Ok_0.1),
        moved(d, c, sp_blank_node(d, c)->Ok_0.1),
{
    let c1 = expect(d, c, Rule::BlankNode)->Ok_0;
    if d.rule_at(c1.pos) == Some(Rule::ANON) {
        crate::laws::lemma_fresh(c1.counter, c1.prefixes);
    }
}

/// Reading a verb changes the position only.
pub proof fn lemma_verb(d: Document, c: Ctx)
    requires
        sp_verb(d, c) is Ok,
    ensures
        only_moved(c, sp_verb(d, c)->Ok_0.1),
        moved(d, c, sp_verb(d, c)->Ok_0.1),
{
    let c1 = expect(d, c, Rule::verb)->Ok_0;
    if d.text_at(c.pos) != seq!['a'] {
        lemma_iri(d, c1);
    }
}

/// What begins a sequence still begins it when it is made longer.
pub proof fn lemma_extends(a: Seq<TripleModel>, b: Seq<TripleModel>, c: Seq<TripleModel>)
    requires
        extends(a, b),
        extends(b, c),
    ensures
        extends(a, c),
{
    assert(c.take(a.len() as int) =~= c.take(b.len() as int).take(a.len() as int));
}

/// A sequence that begins with one as long as itself is that one.
pub proof fn lemma_extends_same(a: Seq<TripleModel>, b: Seq<TripleModel>)
    requires
        extends(a, b),
        a.len() == b.len(),
    ensures
        a == b,
{
    assert(b.take(b.len() as int) =~= b);
}

/// Stating a triple keeps what was stated.
pub proof fn lemma_emit(c0: Ctx, c: Ctx, object: ObjectModel)
    requires
        c.emit(object) is Ok,
        extends(c0.triples, c.triples),
    ensures
        extends(c0.triples, c.emit(object)->Ok_0.triples),
        c.emit(object)->Ok_0 == (Ctx { triples: c.emit(object)->Ok_0.triples, ..c }),
        c.emit(object)->Ok_0.triples.len() == c.triples.len() + 1,
        c.emit(object)->Ok_0.triples.last() == (TripleModel {
            subject: c.subject->0,
            predicate: c.predicate->0,
            object,
        }),
{
    let t = TripleModel { subject: c.subject->0, predicate: c.predicate->0, object };
    assert(c.triples.push(t).take(c0.triples.len() as int) =~= c.triples.take(
        c0.triples.len() as int,
    ));
}

/// Setting the subject and the predicate aside and taking them back
/// leaves the state as it was.
pub proof fn lemma_restore(c: Ctx, c1: Ctx)
    requires
        c.subject is Some,
        c.predicate is Some,
        c1.subject_stack == c.save_subject().save_predicate().subject_stack,
        c1.predicate_stack == c.save_subject().save_predicate().predicate_stack,
    ensures
        c1.pop_subject().pop_predicate().subject == c.subject,
        c1.pop_subject().pop_predicate().predicate == c.predicate,
        c1.pop_subject().pop_predicate().subject_stack == c.subject_stack,
        c1.pop_subject().pop_predicate().predicate_stack == c.predicate_stack,
{
    assert(c.subject_stack.push(c.subject->0).drop_last() =~= c.subject_stack);
    assert(c.predicate_stack.push(c.predicate->0).drop_last() =~= c.predicate_stack);
}

/// The label that the next fresh blank node gets.
pub open spec fn fresh_label(c: Ctx) -> Seq<char> {
    let found = fresh(c.counter, c.prefixes)->0;
    found.0
}

/// Whether the last triple of `c1`, where it states more than `c`,
/// has the subject `s`.
pub open spec fn stated_of(c: Ctx, c1: Ctx, s: SubjectModel) -> bool {
    c1.triples.len() > c.triples.len() ==> c1.triples.last().subject == s
}

/// Reading an object leaves the state as it was, but for what is stated:
/// the triples of the constructs inside the object and, last, a triple
/// of the current subject and predicate.
pub proof fn lemma_object(d: Document, c: Ctx)
    requires
        sp_object(d, c) is Ok,
        c.subject is Some,
        c.predicate is Some,
    ensures
        framed(c, sp_object(d, c)->Ok_0),
        moved(d, c, sp_object(d, c)->Ok_0),
        sp_object(d, c)->Ok_0.triples.len() > c.triples.len(),
        sp_object(d, c)->Ok_0.triples.last().subject == c.subject->0,
        sp_object(d, c)->Ok_0.triples.last().predicate == c.predicate->0,
    decreases d.tokens.len() - c.pos, 0nat,
{
    let c1 = expect(d, c, Rule::object)->Ok_0;
    assert(c.triples.take(c.triples.len() as int) =~= c.triples);
    if d.rule_at(c1.pos) == Some(Rule::iri) {
        lemma_iri(d, c1);
        let (v, c2) = sp_iri(d, c1)->Ok_0;
        lemma_emit(c, c2, ObjectModel::Iri(v));
    } else if d.rule_at(c1.pos) == Some(Rule::literal) {
        lemma_literal(d, c1);
        let (v, c2) = sp_literal(d, c1)->Ok_0;
        lemma_emit(c, c2, ObjectModel::Literal(v));
    } else if d.rule_at(c1.pos) == Some(Rule::BlankNode) {
        lemma_blank_node(d, c1);
        let (v, c2) = sp_blank_node(d, c1)->Ok_0;
        lemma_emit(c, c2, ObjectModel::BlankNode(v));
    } else if d.rule_at(c1.pos) == Some(Rule::collection) {
        lemma_collection(d, c1);
        let (v, c2) = sp_collection(d, c1)->Ok_0;
        lemma_emit(c, c2, v);
    } else {
        lemma_property_list(d, c1);
        let (v, c2) = sp_property_list(d, c1)->Ok_0;
        lemma_emit(c, c2, ObjectModel::BlankNode(v));
    }
}

/// Reading a collection leaves the state as it was, but for what is
/// stated. An empty one is `rdf:nil` and states nothing. Any other is
/// the fresh blank node of its first cell, and the last triple stated
/// is the `rdf:rest` that ends the list with `rdf:nil`.
pub proof fn lemma_collection(d: Document, c: Ctx)
    requires
        sp_collection(d, c) is Ok,
        c.subject is Some,
        c.predicate is Some,
    ensures
        framed(c, sp_collection(d, c)->Ok_0.1),
        moved(d, c, sp_collection(d, c)->Ok_0.1),
        match sp_collection(d, c)->Ok_0.0 {
            ObjectModel::Iri(iri) => iri == term_iri(Term::Nil) && sp_collection(
                d,
                c,
            )->Ok_0.1.triples == c.triples && !d.belongs(
                c.pos + 1,
                Rule::object,
                d.tokens[c.pos].end as int,
            ),
            ObjectModel::BlankNode(head) => {
                let c1 = sp_collection(d, c)->Ok_0.1;
                &&& fresh(c.counter, c.prefixes) is Some
                &&& head == fresh_label(c)
                &&& c1.triples.len() >= c.triples.len() + 2
                &&& c1.triples.last().predicate == term_iri(Term::Rest)
                &&& c1.triples.last().object == ObjectModel::Iri(term_iri(Term::Nil))
            },
            ObjectModel::Literal(_) => false,
        },
    decreases d.tokens.len() - c.pos, 0nat,
{
    let saved = c.save_subject().save_predicate();
    let c1 = expect(d, saved, Rule::collection)->Ok_0;
    let end = d.tokens[c.pos].end as int;
    assert(c.triples.take(c.triples.len() as int) =~= c.triples);
    if !d.belongs(c1.pos, Rule::object, end) {
        lemma_restore(c, c1);
    } else {
        let (head, counter) = fresh(c1.counter, c1.prefixes)->0;
        crate::laws::lemma_fresh(c1.counter, c1.prefixes);
        let c2 = Ctx { counter, ..c1 };
        lemma_cells(d, c2, end, head);
        let c3 = sp_cells(d, c2, end, head)->Ok_0;
        lemma_restore(c, c3);
    }
}

/// Reading the cells of a collection keeps what is set aside and what
/// was stated, and states at least two triples, the last of which is
/// the `rdf:rest` that ends the list with `rdf:nil`.
pub proof fn lemma_cells(d: Document, c: Ctx, end: int, node: Seq<char>)
    requires
        sp_cells(d, c, end, node) is Ok,
    ensures
        ({
            let c1 = sp_cells(d, c, end, node)->Ok_0;
            &&& c1.base == c.base
            &&& c1.prefixes == c.prefixes
            &&& c1.subject_stack == c.subject_stack
            &&& c1.predicate_stack == c.predicate_stack
            &&& c1.counter >= c.counter
            &&& extends(c.triples, c1.triples)
            &&& moved(d, c, c1)
            &&& c1.triples.len() >= c.triples.len() + 2
            &&& c1.triples.last().predicate == term_iri(Term::Rest)
            &&& c1.triples.last().object == ObjectModel::Iri(term_iri(Term::Nil))
        }),
    decreases d.tokens.len() - c.pos, 1nat,
{
    let cell = Some(SubjectModel::BlankNode(node));
    let first = Some(term_iri(Term::First));
    let rest = Some(term_iri(Term::Rest));
    let c0 = Ctx { subject: cell, predicate: first, ..c };
    lemma_object(d, c0);
    let c1 = sp_object(d, c0)->Ok_0;
    if d.belongs(c1.pos, Rule::object, end) {
        let (next, counter) = fresh(c1.counter, c1.prefixes)->0;
        crate::laws::lemma_fresh(c1.counter, c1.prefixes);
        let c2 = Ctx { subject: cell, predicate: rest, counter, ..c1 };
        lemma_emit(c, c2, ObjectModel::BlankNode(next));
        let c3 = c2.emit(ObjectModel::BlankNode(next))->Ok_0;
        lemma_cells(d, c3, end, next);
        let c4 = sp_cells(d, c3, end, next)->Ok_0;
        lemma_extends(c.triples, c3.triples, c4.triples);
    } else {
        lemma_emit(c, Ctx { subject: cell, predicate: rest, ..c1 }, ObjectModel::Iri(term_iri(Term::Nil)));
    }
}

/// Reading a bracketed property list leaves the state as it was, but
/// for what is stated. Its blank node is fresh, and what the list
/// states last, where it states anything, is stated of that node.
pub proof fn lemma_property_list(d: Document, c: Ctx)
    requires
        sp_property_list(d, c) is Ok,
        c.subject is Some,
        c.predicate is Some,
    ensures
        framed(c, sp_property_list(d, c)->Ok_0.1),
        moved(d, c, sp_property_list(d, c)->Ok_0.1),
        fresh(c.counter, c.prefixes) is Some,
        sp_property_list(d, c)->Ok_0.0 == fresh_label(c),
        stated_of(
            c,
            sp_property_list(d, c)->Ok_0.1,
            SubjectModel::BlankNode(sp_property_list(d, c)->Ok_0.0),
        ),
    decreases d.tokens.len() - c.pos, 0nat,
{
    let c1 = expect(d, c, Rule::blankNodePropertyList)->Ok_0;
    let (node, counter) = fresh(c1.counter, c1.prefixes)->0;
    crate::laws::lemma_fresh(c1.counter, c1.prefixes);
    let c2 = Ctx { counter, ..c1 }.save_subject();
    let c3 = Ctx { subject: Some(SubjectModel::BlankNode(node)), ..c2 }.save_predicate();
    lemma_predicate_object_list(d, c3);
    let c4 = sp_predicate_object_list(d, c3)->Ok_0;
    lemma_restore(c, c4);
}

/// Reading a list of predicates and objects keeps the subject and what
/// is set aside, and what it states last is stated of the subject.
pub proof fn lemma_predicate_object_list(d: Document, c: Ctx)
    requires
        sp_predicate_object_list(d, c) is Ok,
        c.subject is Some,
    ensures
        kept(c, sp_predicate_object_list(d, c)->Ok_0),
        moved(d, c, sp_predicate_object_list(d, c)->Ok_0),
        stated_of(c, sp_predicate_object_list(d, c)->Ok_0, c.subject->0),
    decreases d.tokens.len() - c.pos, 0nat,
{
    let c1 = expect(d, c, Rule::predicateObjectList)->Ok_0;
    lemma_verbs(d, c1, d.tokens[c.pos].end as int);
}

/// Reading verbs with their objects keeps the subject and what is set
/// aside, and what it states last is stated of the subject.
pub proof fn lemma_verbs(d: Document, c: Ctx, end: int)
    requires
        sp_verbs(d, c, end) is Ok,
        c.subject is Some,
        c.pos <= d.tokens.len(),
    ensures
        kept(c, sp_verbs(d, c, end)->Ok_0),
        reached(d, c, sp_verbs(d, c, end)->Ok_0),
        stated_of(c, sp_verbs(d, c, end)->Ok_0, c.subject->0),
    decreases d.tokens.len() - c.pos, 2nat,
{
    assert(c.triples.take(c.triples.len() as int) =~= c.triples);
    if d.belongs(c.pos, Rule::verb, end) {
        lemma_verb(d, c);
        let (predicate, c1) = sp_verb(d, c)->Ok_0;
        let c2 = Ctx { predicate: Some(predicate), ..c1 };
        lemma_object_list(d, c2);
        let c3 = sp_object_list(d, c2)->Ok_0;
        lemma_verbs(d, c3, end);
        let c4 = sp_verbs(d, c3, end)->Ok_0;
        lemma_extends(c.triples, c3.triples, c4.triples);
        if c4.triples.len() == c3.triples.len() {
            lemma_extends_same(c3.triples, c4.triples);
        }
    }
}

/// Reading a list of objects leaves the state as it was, but for what
/// is stated, and what it states last is stated of the subject.
pub proof fn lemma_object_list(d: Document, c: Ctx)
    requires
        sp_object_list(d, c) is Ok,
        c.subject is Some,
        c.predicate is Some,
    ensures
        framed(c, sp_object_list(d, c)->Ok_0),
        moved(d, c, sp_object_list(d, c)->Ok_0),
        stated_of(c, sp_object_list(d, c)->Ok_0, c.subject->0),
    decreases d.tokens.len() - c.pos, 0nat,
{
    let c1 = expect(d, c, Rule::objectList)->Ok_0;
    lemma_objects(d, c1, d.tokens[c.pos].end as int);
}

/// Reading objects leaves the state as it was, but for what is stated,
/// and what it states last is stated of the subject.
pub proof fn lemma_objects(d: Document, c: Ctx, end: int)
    requires
        sp_objects(d, c, end) is Ok,
        c.subject is Some,
        c.predicate is Some,
        c.pos <= d.tokens.len(),
    ensures
        framed(c, sp_objects(d, c, end)->Ok_0),
        reached(d, c, sp_objects(d, c, end)->Ok_0),
        stated_of(c, sp_objects(d, c, end)->Ok_0, c.subject->0),
    decreases d.tokens.len() - c.pos, 1nat,
{
    assert(c.triples.take(c.triples.len() as int) =~= c.triples);
    if d.belongs(c.pos, Rule::object, end) {
        lemma_object(d, c);
        let c1 = sp_object(d, c)->Ok_0;
        lemma_objects(d, c1, end);
        let c2 = sp_objects(d, c1, end)->Ok_0;
        lemma_extends(c.triples, c1.triples, c2.triples);
        if c2.triples.len() == c1.triples.len() {
            lemma_extends_same(c1.triples, c2.triples);
        }
    }
}

/// The number of elements of a collection whose cells are read from
/// `c` on, the first into the cell `node`.
pub open spec fn elements(d: Document, c: Ctx, end: int, node: Seq<char>) -> nat
    decreases d.tokens.len() - c.pos,
{
    let cell = Some(SubjectModel::BlankNode(node));
    match sp_object(d, Ctx { subject: cell, predicate: Some(term_iri(Term::First)), ..c }) {
        Err(_) => 0,
        Ok(c1) => if moved(d, c, c1) && d.belongs(c1.pos, Rule::object, end) {
            match fresh(c1.counter, c1.prefixes) {
                None => 0,
                Some((next, counter)) => 1 + elements(
                    d,
                    Ctx {
                        subject: cell,
                        predicate: Some(term_iri(Term::Rest)),
                        counter,
                        triples: c1.triples.push(
                            TripleModel {
                                subject: SubjectModel::BlankNode(node),
                                predicate: term_iri(Term::Rest),
                                object: ObjectModel::BlankNode(next),
                            },
                        ),
                        ..c1
                    },
                    end,
                    next,
                ),
            }
        } else {
            1
        },
    }
}

/// The number of triples that the elements of a collection state
/// besides the triples of its cells: those of the collections and
/// property lists among the elements.
pub open spec fn nested(d: Document, c: Ctx, end: int, node: Seq<char>) -> nat
    decreases d.tokens.len() - c.pos,
{
    let cell = Some(SubjectModel::BlankNode(node));
    match sp_object(d, Ctx { subject: cell, predicate: Some(term_iri(Term::First)), ..c }) {
        Err(_) => 0,
        Ok(c1) => {
            let own = (c1.triples.len() - c.triples.len() - 1) as nat;
            if moved(d, c, c1) && d.belongs(c1.pos, Rule::object, end) {
                match fresh(c1.counter, c1.prefixes) {
                    None => 0,
                    Some((next, counter)) => own + nested(
                        d,
                        Ctx {
                            subject: cell,
                            predicate: Some(term_iri(Term::Rest)),
                            counter,
                            triples: c1.triples.push(
                                TripleModel {
                                    subject: SubjectModel::BlankNode(node),
                                    predicate: term_iri(Term::Rest),
                                    object: ObjectModel::BlankNode(next),
                                },
                            ),
                            ..c1
                        },
                        end,
                        next,
                    ),
                }
            } else {
                own
            }
        },
    }
}

/// The cells of a collection of `n` elements state `2n` triples, an
/// `rdf:first` and an `rdf:rest` for each element, besides what the
/// elements state themselves.
pub proof fn lemma_cells_count(d: Document, c: Ctx, end: int, node: Seq<char>)
    requires
        sp_cells(d, c, end, node) is Ok,
    ensures
        elements(d, c, end, node) >= 1,
        sp_cells(d, c, end, node)->Ok_0.triples.len() == c.triples.len() + nested(d, c, end, node)
            + 2 * elements(d, c, end, node),
    decreases d.tokens.len() - c.pos,
{
    let cell = Some(SubjectModel::BlankNode(node));
    let c0 = Ctx { subject: cell, predicate: Some(term_iri(Term::First)), ..c };
    lemma_object(d, c0);
    let c1 = sp_object(d, c0)->Ok_0;
    if d.belongs(c1.pos, Rule::object, end) {
        let (next, counter) = fresh(c1.counter, c1.prefixes)->0;
        let c2 = Ctx { subject: cell, predicate: Some(term_iri(Term::Rest)), counter, ..c1 };
        let c3 = c2.emit(ObjectModel::BlankNode(next))->Ok_0;
        lemma_cells_count(d, c3, end, next);
    }
}

/// Whether the object at `c` is a single term: an identifier, a
/// literal or a blank node, and no collection or property list.
pub open spec fn plain_object(d: Document, c: Ctx) -> bool {
    d.rule_at(c.pos) == Some(Rule::object) && (d.rule_at(c.pos + 1) == Some(Rule::iri)
        || d.rule_at(c.pos + 1) == Some(Rule::literal) || d.rule_at(c.pos + 1) == Some(
        Rule::BlankNode,
    ))
}

/// Reading an object that is a single term states exactly one triple:
/// that of the current subject and predicate with the term.
pub proof fn lemma_plain_object(d: Document, c: Ctx)
    requires
        sp_object(d, c) is Ok,
        plain_object(d, c),
        c.subject is Some,
        c.predicate is Some,
    ensures
        sp_object(d, c)->Ok_0.triples == c.triples.push(
            TripleModel {
                subject: c.subject->0,
                predicate: c.predicate->0,
                object: sp_object(d, c)->Ok_0.triples.last().object,
            },
        ),
{
    let c1 = expect(d, c, Rule::object)->Ok_0;
    if d.rule_at(c1.pos) == Some(Rule::iri) {
        lemma_iri(d, c1);
    } else if d.rule_at(c1.pos) == Some(Rule::literal) {
        lemma_literal(d, c1);
    } else {
        lemma_blank_node(d, c1);
    }
}

/// The state in which the predicates and objects of the property list
/// at `c` are read: after its token, with its fresh blank node as the
/// subject and with the subject and predicate around it set aside.
pub open spec fn inside(c: Ctx) -> Ctx {
    let found = fresh(c.counter, c.prefixes)->0;
    let c2 = Ctx { counter: found.1, ..c.advance() }.save_subject();
    Ctx { subject: Some(SubjectModel::BlankNode(found.0)), ..c2 }.save_predicate()
}

/// Whether the list of predicates and objects at `c` holds one verb
/// with one object, which is a single term.
pub open spec fn one_pair(d: Document, c: Ctx) -> bool {
    let end = d.tokens[c.pos].end as int;
    let c1 = c.advance();
    let stepped = sp_verb(d, c1)->Ok_0;
    let c2 = Ctx { predicate: Some(stepped.0), ..stepped.1 };
    let inner = d.tokens[c2.pos].end as int;
    let c3 = c2.advance();
    let c4 = sp_object(d, c3)->Ok_0;
    &&& d.rule_at(c.pos) == Some(Rule::predicateObjectList)
    &&& d.belongs(c1.pos, Rule::verb, end)
    &&& sp_verb(d, c1) is Ok
    &&& d.rule_at(c2.pos) == Some(Rule::objectList)
    &&& d.belongs(c3.pos, Rule::object, inner)
    &&& plain_object(d, c3)
    &&& sp_object(d, c3) is Ok
    &&& !d.belongs(c4.pos, Rule::object, inner)
    &&& !d.belongs(c4.pos, Rule::verb, end)
}

/// The predicate and the object of a list that holds one pair.
pub open spec fn the_pair(d: Document, c: Ctx) -> (IriModel, ObjectModel) {
    let stepped = sp_verb(d, c.advance())->Ok_0;
    let c2 = Ctx { predicate: Some(stepped.0), ..stepped.1 };
    (stepped.0, sp_object(d, c2.advance())->Ok_0.triples.last().object)
}

/// A property list with one verb and one object that is a single term
/// states exactly one triple: that of its fresh blank node with the
/// verb and the object.
pub proof fn lemma_one_pair(d: Document, c: Ctx)
    requires
        sp_property_list(d, c) is Ok,
        c.subject is Some,
        c.predicate is Some,
        one_pair(d, inside(c)),
    ensures
        sp_property_list(d, c)->Ok_0.1.triples == c.triples.push(
            TripleModel {
                subject: SubjectModel::BlankNode(fresh_label(c)),
                predicate: the_pair(d, inside(c)).0,
                object: the_pair(d, inside(c)).1,
            },
        ),
{
    let c0 = inside(c);
    let end = d.tokens[c0.pos].end as int;
    let c1 = c0.advance();
    lemma_verb(d, c1);
    let stepped = sp_verb(d, c1)->Ok_0;
    let c2 = Ctx { predicate: Some(stepped.0), ..stepped.1 };
    let inner = d.tokens[c2.pos].end as int;
    let c3 = c2.advance();
    lemma_object(d, c3);
    lemma_plain_object(d, c3);
    let c4 = sp_object(d, c3)->Ok_0;
    assert(sp_objects(d, c4, inner) == Ok::<Ctx, crate::translate::ParseFailure>(c4));
    assert(sp_objects(d, c3, inner) == Ok::<Ctx, crate::translate::ParseFailure>(c4));
    assert(sp_object_list(d, c2) == Ok::<Ctx, crate::translate::ParseFailure>(c4));
    assert(sp_verbs(d, c4, end) == Ok::<Ctx, crate::translate::ParseFailure>(c4));
    assert(sp_verbs(d, c1, end) == Ok::<Ctx, crate::translate::ParseFailure>(c4));
    assert(sp_predicate_object_list(d, c0) == Ok::<Ctx, crate::translate::ParseFailure>(c4));
}

/// Whatever the state around it, a property list has the next fresh
/// label as its blank node, and what it states last, where it states
/// anything, is stated of that node.
pub proof fn lemma_property_list_node(d: Document, c: Ctx)
    requires
        sp_property_list(d, c) is Ok,
    ensures
        fresh(c.counter, c.prefixes) is Some,
        sp_property_list(d, c)->Ok_0.0 == fresh_label(c),
        moved(d, c, sp_property_list(d, c)->Ok_0.1),
        extends(c.triples, sp_property_list(d, c)->Ok_0.1.triples),
        stated_of(c, sp_property_list(d, c)->Ok_0.1, SubjectModel::BlankNode(fresh_label(c))),
{
    let c1 = expect(d, c, Rule::blankNodePropertyList)->Ok_0;
    crate::laws::lemma_fresh(c1.counter, c1.prefixes);
    lemma_predicate_object_list(d, inside(c));
}

/// Where a property list stands as the subject of a statement, the
/// predicates and objects after it are read with its blank node as the
/// subject: the subject stays that node, and what they state last is
/// stated of it. Without them the statement states what the list
/// states.
pub proof fn lemma_property_list_subject(d: Document, c: Ctx)
    requires
        sp_triples(d, c) is Ok,
        d.rule_at(c.pos + 1) == Some(Rule::blankNodePropertyList),
    ensures
        ({
            let node = SubjectModel::BlankNode(fresh_label(c.advance()));
            let c1 = sp_property_list(d, c.advance())->Ok_0.1;
            let c2 = sp_triples(d, c)->Ok_0;
            &&& sp_property_list(d, c.advance()) is Ok
            &&& stated_of(c, c1, node)
            &&& c2.subject == Some(node)
            &&& extends(c1.triples, c2.triples)
            &&& stated_of(c1, c2, node)
            &&& d.rule_at(c1.pos) != Some(Rule::predicateObjectList) ==> c2.triples == c1.triples
        }),
{
    let c0 = c.advance();
    lemma_property_list_node(d, c0);
    let found = sp_property_list(d, c0)->Ok_0;
    let c3 = Ctx { subject: Some(SubjectModel::BlankNode(found.0)), ..found.1 };
    assert(c3.triples.take(c3.triples.len() as int) =~= c3.triples);
    if d.rule_at(c3.pos) == Some(Rule::predicateObjectList) {
        lemma_predicate_object_list(d, c3);
    }
}

} // verus!

//! The order in which triples are sorted.
//!
//! Terms are ordered by kind, identifiers before blank nodes before
//! literals, and within a kind by their text, character by character.
//! Triples are ordered by subject, then predicate, then object.

use vstd::prelude::*;
use crate::iri::{Iri, IriModel};
use crate::literal::{Literal, LiteralModel};
use crate::object::{Object, ObjectModel};
use crate::subject::{Subject, SubjectModel};
use crate::text::chars_of;
use crate::triple::{Triple, TripleModel, Triples};

verus! {

/// Where one value stands with respect to another in an order.
#[derive(Clone, Copy, Debug, PartialEq, Eq, Structural)]
pub enum Side {
    Before,
    Same,
    After,
}

/// The side given by `first`, or by `second` where `first` sees no
/// difference.
pub open spec fn or_else(first: Side, second: Side) -> Side {
    if first is Same {
        second
    } else {
        first
    }
}

/// The order of two texts: that of the first character in which they
/// differ; a text stands before those that it begins.
pub open spec fn text_order(a: Seq<char>, b: Seq<char>) -> Side
    decreases a.len(),
{
    if a.len() == 0 {
        if b.len() == 0 {
            Side::Same
        } else {
            Side::Before
        }
    } else if b.len() == 0 {
        Side::After
    } else if a[0] < b[0] {
        Side::Before
    } else if a[0] > b[0] {
        Side::After
    } else {
        text_order(a.drop_first(), b.drop_first())
    }
}

/// The order of two flags: unset before set.
pub open spec fn flag_order(a: bool, b: bool) -> Side {
    if a == b {
        Side::Same
    } else if b {
        Side::Before
    } else {
        Side::After
    }
}

/// The order of two identifiers: by text, then by whether they were
/// written with a fragment.
pub open spec fn iri_order(a: IriModel, b: IriModel) -> Side {
    or_else(text_order(a.text, b.text), flag_order(a.had_fragment, b.had_fragment))
}

/// The order of two optional texts: none before any.
pub open spec fn tag_order(a: Option<Seq<char>>, b: Option<Seq<char>>) -> Side {
    match (a, b) {
        (None, None) => Side::Same,
        (None, Some(_)) => Side::Before,
        (Some(_), None) => Side::After,
        (Some(x), Some(y)) => text_order(x, y),
    }
}

/// The order of two literals: by lexical form, then language tag, then
/// datatype.
pub open spec fn literal_order(a: LiteralModel, b: LiteralModel) -> Side {
    or_else(
        text_order(a.value, b.value),
        or_else(tag_order(a.language_tag, b.language_tag), iri_order(a.iri, b.iri)),
    )
}

/// The order of two subjects.
pub open spec fn subject_order(a: SubjectModel, b: SubjectModel) -> Side {
    match (a, b) {
        (SubjectModel::Iri(x), SubjectModel::Iri(y)) => iri_order(x, y),
        (SubjectModel::Iri(_), SubjectModel::BlankNode(_)) => Side::Before,
        (SubjectModel::BlankNode(_), SubjectModel::Iri(_)) => Side::After,
        (SubjectModel::BlankNode(x), SubjectModel::BlankNode(y)) => text_order(x, y),
    }
}

/// The order of two objects.
pub open spec fn object_order(a: ObjectModel, b: ObjectModel) -> Side {
    match (a, b) {
        (ObjectModel::Iri(x), ObjectModel::Iri(y)) => iri_order(x, y),
        (ObjectModel::Iri(_), _) => Side::Before,
        (ObjectModel::BlankNode(_), ObjectModel::Iri(_)) => Side::After,
        (ObjectModel::BlankNode(x), ObjectModel::BlankNode(y)) => text_order(x, y),
        (ObjectModel::BlankNode(_), ObjectModel::Literal(_)) => Side::Before,
        (ObjectModel::Literal(x), ObjectModel::Literal(y)) => literal_order(x, y),
        (ObjectModel::Literal(_), _) => Side::After,
    }
}

/// The order of two triples.
pub open spec fn triple_order(a: TripleModel, b: TripleModel) -> Side {
    or_else(
        subject_order(a.subject, b.subject),
        or_else(iri_order(a.predicate, b.predicate), object_order(a.object, b.object)),
    )
}

/// `s`, which is sorted, with `x` put in: after the last triple that it
/// does not stand before.
pub open spec fn inserted(s: Seq<TripleModel>, x: TripleModel) -> Seq<TripleModel>
    decreases s.len(),
{
    if s.len() > 0 && triple_order(x, s.last()) is Before {
        inserted(s.drop_last(), x).push(s.last())
    } else {
        s.push(x)
    }
}

/// The triples of `s` in order; those that the order does not tell
/// apart stay as they were.
pub open spec fn sorted(s: Seq<TripleModel>) -> Seq<TripleModel>
    decreases s.len(),
{
    if s.len() == 0 {
        s
    } else {
        inserted(sorted(s.drop_last()), s.last())
    }
}

/// The order of two texts.
pub fn order_texts(a: &str, b: &str) -> (r: Side)
    ensures
        r == text_order(a@, b@),
{
    let x = chars_of(a);
    let y = chars_of(b);
    let mut i: usize = 0;
    assert(x@.skip(0) =~= x@ && y@.skip(0) =~= y@);
    loop
        invariant
            i <= x.len(),
            i <= y.len(),
            x@ == a@,
            y@ == b@,
            text_order(a@, b@) == text_order(x@.skip(i as int), y@.skip(i as int)),
        decreases x.len() - i,
    {
        if i == x.len() {
            return if i == y.len() {
                Side::Same
            } else {
                Side::Before
            };
        }
        if i == y.len() {
            return Side::After;
        }
        if x[i] < y[i] {
            return Side::Before;
        }
        if x[i] > y[i] {
            return Side::After;
        }
        assert(x@.skip(i as int).drop_first() =~= x@.skip(i + 1));
        assert(y@.skip(i as int).drop_first() =~= y@.skip(i + 1));
        i += 1;
    }
}

/// The order of two identifiers.
pub fn order_iris(a: &Iri, b: &Iri) -> (r: Side)
    ensures
        r == iri_order(a@, b@),
{
    match order_texts(a.as_str(), b.as_str()) {
        Side::Same => {
            if a.had_fragment() == b.had_fragment() {
                Side::Same
            } else if b.had_fragment() {
                Side::Before
            } else {
                Side::After
            }
        },
        side => side,
    }
}

/// The order of two literals.
pub fn order_literals(a: &Literal, b: &Literal) -> (r: Side)
    ensures
        r == literal_order(a@, b@),
{
    match order_texts(a.value.as_str(), b.value.as_str()) {
        Side::Same => {
            let tags = match &a.language_tag {
                None => match &b.language_tag {
                    None => Side::Same,
                    Some(_) => Side::Before,
                },
                Some(x) => match &b.language_tag {
                    None => Side::After,
                    Some(y) => order_texts(x.as_str(), y.as_str()),
                },
            };
            match tags {
                Side::Same => order_iris(&a.iri, &b.iri),
                side => side,
            }
        },
        side => side,
    }
}

/// The order of two subjects.
pub fn order_subjects(a: &Subject, b: &Subject) -> (r: Side)
    ensures
        r == subject_order(a@, b@),
{
    match a {
        Subject::Iri(x) => match b {
            Subject::Iri(y) => order_iris(x, y),
            Subject::BlankNode(_) => Side::Before,
        },
        Subject::BlankNode(x) => match b {
            Subject::Iri(_) => Side::After,
            Subject::BlankNode(y) => order_texts(x.0.as_str(), y.0.as_str()),
        },
    }
}

/// The order of two objects.
pub fn order_objects(a: &Object, b: &Object) -> (r: Side)
    ensures
        r == object_order(a@, b@),
{
    match a {
        Object::Iri(x) => match b {
            Object::Iri(y) => order_iris(x, y),
            _ => Side::Before,
        },
        Object::BlankNode(x) => match b {
            Object::Iri(_) => Side::After,
            Object::BlankNode(y) => order_texts(x.0.as_str(), y.0.as_str()),
            Object::Literal(_) => Side::Before,
        },
        Object::Literal(x) => match b {
            Object::Literal(y) => order_literals(x, y),
            _ => Side::After,
        },
    }
}

/// The order of two triples.
pub fn order_triples(a: &Triple, b: &Triple) -> (r: Side)
    ensures
        r == triple_order(a@, b@),
{
    match order_subjects(&a.subject, &b.subject) {
        Side::Same => match order_iris(&a.predicate, &b.predicate) {
            Side::Same => order_objects(&a.object, &b.object),
            side => side,
        },
        side => side,
    }
}

impl Triples {
    /// Puts the triples in order.
    pub fn sort(&mut self)
        ensures
            final(self)@ == sorted(old(self)@),
    {
        let n = self.0.len();
        let mut i: usize = 0;
        assert(self@.take(0) =~= sorted(old(self)@.take(0)));
        assert(self@.skip(0) =~= old(self)@.skip(0));
        while i < n
            invariant
                i <= n,
                self.0.len() == n,
                old(self)@.len() == n,
                self@.take(i as int) == sorted(old(self)@.take(i as int)),
                self@.skip(i as int) == old(self)@.skip(i as int),
            decreases n - i,
        {
            let ghost pre = sorted(old(self)@.take(i as int));
            let ghost rest = old(self)@.skip(i + 1);
            let ghost before = self@;
            let x = self.0.remove(i);
            assert(x@ == old(self)@[i as int]) by {
                assert(before.skip(i as int)[0] == old(self)@.skip(i as int)[0]);
            }
            assert(self@ =~= pre + rest) by {
                assert(before.take(i as int) == pre);
                assert(before.skip(i as int) == old(self)@.skip(i as int));
                assert(self@ =~= before.remove(i as int));
                assert forall|k: int| 0 <= k < self@.len() implies self@[k] == (pre + rest)[k] by {
                    if k < i {
                        assert(before.take(i as int)[k] == before[k]);
                    } else {
                        assert(before.skip(i as int)[k - i + 1] == before[k + 1]);
                        assert(old(self)@.skip(i as int)[k - i + 1] == rest[k - i]);
                    }
                }
            }
            let mut j: usize = i;
            assert(pre.take(j as int) =~= pre);
            assert(pre.skip(j as int) =~= Seq::<TripleModel>::empty());
            assert(inserted(pre, x@) =~= inserted(pre.take(j as int), x@) + pre.skip(j as int));
            while j > 0 && matches!(order_triples(&x, &self.0[j - 1]), Side::Before)
                invariant
                    j <= i < n,
                    self.0.len() == n - 1,
                    pre.len() == i,
                    self@ == pre + rest,
                    inserted(pre, x@) == inserted(pre.take(j as int), x@) + pre.skip(j as int),
                decreases j,
            {
                assert(self@[j - 1] == pre[j - 1]);
                assert(pre.take(j as int).last() == pre[j - 1]);
                assert(pre.take(j as int).drop_last() =~= pre.take(j - 1));
                assert(inserted(pre.take(j - 1), x@).push(pre[j - 1]) + pre.skip(j as int)
                    =~= inserted(pre.take(j - 1), x@) + pre.skip(j - 1));
                j -= 1;
            }
            assert(inserted(pre.take(j as int), x@) == pre.take(j as int).push(x@)) by {
                if j > 0 {
                    assert(self@[j - 1] == pre[j - 1]);
                    assert(pre.take(j as int).last() == pre[j - 1]);
                }
            }
            self.0.insert(j, x);
            assert(self@ =~= (pre + rest).insert(j as int, x@));
            assert(self@.take(i + 1) =~= pre.take(j as int).push(x@) + pre.skip(j as int));
            assert(self@.skip(i + 1) =~= old(self)@.skip(i + 1));
            assert(old(self)@.take(i + 1).drop_last() =~= old(self)@.take(i as int));
            assert(old(self)@.take(i + 1).last() == old(self)@[i as int]);
            i += 1;
        }
        assert(self@.take(n as int) =~= self@);
        assert(old(self)@.take(n as int) =~= old(self)@);
    }
}

/// The side seen from the other value.
pub open spec fn flipped(side: Side) -> Side {
    match side {
        Side::Before => Side::After,
        Side::Same => Side::Same,
        Side::After => Side::Before,
    }
}

/// Whether no triple of `s` stands before the one in front of it.
pub open spec fn in_order(s: Seq<TripleModel>) -> bool {
    forall|i: int|
        0 <= i < s.len() - 1 ==> !(triple_order(#[trigger] s[i + 1], s[i]) is Before)
}

/// The order of two texts taken the other way round is the flipped
/// order.
pub proof fn lemma_text_order_flips(a: Seq<char>, b: Seq<char>)
    ensures
        text_order(b, a) == flipped(text_order(a, b)),
    decreases a.len(),
{
    if a.len() > 0 && b.len() > 0 && a[0] == b[0] {
        lemma_text_order_flips(a.drop_first(), b.drop_first());
    }
}

/// The order of two identifiers taken the other way round is the
/// flipped order.
pub proof fn lemma_iri_order_flips(a: IriModel, b: IriModel)
    ensures
        iri_order(b, a) == flipped(iri_order(a, b)),
{
    lemma_text_order_flips(a.text, b.text);
}

/// The order of two subjects taken the other way round is the flipped
/// order.
pub proof fn lemma_subject_order_flips(a: SubjectModel, b: SubjectModel)
    ensures
        subject_order(b, a) == flipped(subject_order(a, b)),
{
    match (a, b) {
        (SubjectModel::Iri(x), SubjectModel::Iri(y)) => lemma_iri_order_flips(x, y),
        (SubjectModel::BlankNode(x), SubjectModel::BlankNode(y)) => lemma_text_order_flips(x, y),
        _ => {},
    }
}

/// The order of two literals taken the other way round is the flipped
/// order.
pub proof fn lemma_literal_order_flips(a: LiteralModel, b: LiteralModel)
    ensures
        literal_order(b, a) == flipped(literal_order(a, b)),
{
    lemma_text_order_flips(a.value, b.value);
    lemma_iri_order_flips(a.iri, b.iri);
    match (a.language_tag, b.language_tag) {
        (Some(x), Some(y)) => lemma_text_order_flips(x, y),
        _ => {},
    }
}

/// The order of two objects taken the other way round is the flipped
/// order.
pub proof fn lemma_object_order_flips(a: ObjectModel, b: ObjectModel)
    ensures
        object_order(b, a) == flipped(object_order(a, b)),
{
    match (a, b) {
        (ObjectModel::Iri(x), ObjectModel::Iri(y)) => lemma_iri_order_flips(x, y),
        (ObjectModel::BlankNode(x), ObjectModel::BlankNode(y)) => lemma_text_order_flips(x, y),
        (ObjectModel::Literal(x), ObjectModel::Literal(y)) => lemma_literal_order_flips(x, y),
        _ => {},
    }
}

/// The order of two triples taken the other way round is the flipped
/// order: of two triples at most one stands before the other.
pub proof fn lemma_triple_order_flips(a: TripleModel, b: TripleModel)
    ensures
        triple_order(b, a) == flipped(triple_order(a, b)),
{
    lemma_subject_order_flips(a.subject, b.subject);
    lemma_iri_order_flips(a.predicate, b.predicate);
    lemma_object_order_flips(a.object, b.object);
}

/// Putting a triple into triples that are in order leaves them in
/// order, and the last of them is the triple or the one that was last.
pub proof fn lemma_inserted_in_order(s: Seq<TripleModel>, x: TripleModel)
    requires
        in_order(s),
    ensures
        in_order(inserted(s, x)),
        inserted(s, x).len() == s.len() + 1,
        inserted(s, x).last() == x || (s.len() > 0 && inserted(s, x).last() == s.last()),
    decreases s.len(),
{
    let r = inserted(s, x);
    if s.len() > 0 && triple_order(x, s.last()) is Before {
        let head = inserted(s.drop_last(), x);
        assert(in_order(s.drop_last())) by {
            assert forall|i: int| 0 <= i < s.drop_last().len() - 1 implies !(triple_order(
                #[trigger] s.drop_last()[i + 1],
                s.drop_last()[i],
            ) is Before) by {
                assert(s.drop_last()[i + 1] == s[i + 1]);
            }
        }
        lemma_inserted_in_order(s.drop_last(), x);
        lemma_triple_order_flips(x, s.last());
        assert forall|i: int| 0 <= i < r.len() - 1 implies !(triple_order(#[trigger] r[i + 1], r[i])
            is Before) by {
            if i + 1 < head.len() {
                assert(r[i + 1] == head[i + 1]);
            } else {
                assert(r[i + 1] == s.last());
                assert(r[i] == head.last());
                if head.last() != x {
                    assert(head.last() == s[s.len() - 2]);
                    assert(s[s.len() - 2 + 1] == s.last());
                }
            }
        }
    } else {
        assert forall|i: int| 0 <= i < r.len() - 1 implies !(triple_order(#[trigger] r[i + 1], r[i])
            is Before) by {
            if i + 1 < s.len() {
                assert(r[i + 1] == s[i + 1]);
            }
        }
    }
}

/// Sorted triples are in order, and as many as before.
pub proof fn lemma_sorted_in_order(s: Seq<TripleModel>)
    ensures
        in_order(sorted(s)),
        sorted(s).len() == s.len(),
    decreases s.len(),
{
    if s.len() > 0 {
        lemma_sorted_in_order(s.drop_last());
        lemma_inserted_in_order(sorted(s.drop_last()), s.last());
    }
}

/// Putting a triple in adds it to the triples, each as often as it was
/// there.
pub proof fn lemma_inserted_permutes(s: Seq<TripleModel>, x: TripleModel)
    ensures
        inserted(s, x).to_multiset() == s.to_multiset().insert(x),
    decreases s.len(),
{
    if s.len() > 0 && triple_order(x, s.last()) is Before {
        lemma_inserted_permutes(s.drop_last(), x);
        vstd::seq_lib::to_multiset_build(inserted(s.drop_last(), x), s.last());
        vstd::seq_lib::to_multiset_build(s.drop_last(), s.last());
        assert(s.drop_last().push(s.last()) =~= s);
        assert(s.drop_last().to_multiset().insert(x).insert(s.last()) =~= s.drop_last().to_multiset().insert(
            s.last(),
        ).insert(x));
    } else {
        vstd::seq_lib::to_multiset_build(s, x);
    }
}

/// Sorting keeps the triples, each as often as it was there.
pub proof fn lemma_sorted_permutes(s: Seq<TripleModel>)
    ensures
        sorted(s).to_multiset() == s.to_multiset(),
    decreases s.len(),
{
    if s.len() > 0 {
        lemma_sorted_permutes(s.drop_last());
        lemma_inserted_permutes(sorted(s.drop_last()), s.last());
        vstd::seq_lib::to_multiset_build(s.drop_last(), s.last());
        assert(s.drop_last().push(s.last()) =~= s);
    }
}

/// A text stands beside itself; texts that the order does not tell
/// apart are one text; and a text that stands before a second, which
/// stands before a third, stands before the third.
pub proof fn lemma_text_order(a: Seq<char>, b: Seq<char>, c: Seq<char>)
    ensures
        text_order(a, a) is Same,
        text_order(a, b) is Same ==> a == b,
        text_order(a, b) is Before && text_order(b, c) is Before ==> text_order(a, c) is Before,
    decreases a.len(),
{
    if a.len() > 0 {
        lemma_text_order(a.drop_first(), a.drop_first(), a.drop_first());
        if b.len() > 0 && a[0] == b[0] {
            lemma_text_order(a.drop_first(), b.drop_first(), b.drop_first());
            if text_order(a, b) is Same {
                assert(a =~= seq![a[0]] + a.drop_first());
                assert(b =~= seq![b[0]] + b.drop_first());
            }
            if c.len() > 0 && b[0] == c[0] {
                lemma_text_order(a.drop_first(), b.drop_first(), c.drop_first());
            }
        }
    } else if text_order(a, b) is Same {
        assert(a =~= b);
    }
}

/// The same of identifiers.
pub proof fn lemma_iri_order(a: IriModel, b: IriModel, c: IriModel)
    ensures
        iri_order(a, a) is Same,
        iri_order(a, b) is Same ==> a == b,
        iri_order(a, b) is Before && iri_order(b, c) is Before ==> iri_order(a, c) is Before,
{
    lemma_text_order(a.text, b.text, c.text);
    lemma_text_order(b.text, c.text, c.text);
    lemma_text_order(a.text, c.text, c.text);
}

/// The same of optional texts.
pub proof fn lemma_tag_order(a: Option<Seq<char>>, b: Option<Seq<char>>, c: Option<Seq<char>>)
    ensures
        tag_order(a, a) is Same,
        tag_order(a, b) is Same ==> a == b,
        tag_order(a, b) is Before && tag_order(b, c) is Before ==> tag_order(a, c) is Before,
{
    match (a, b, c) {
        (Some(x), Some(y), Some(z)) => lemma_text_order(x, y, z),
        (Some(x), Some(y), _) => lemma_text_order(x, y, y),
        (Some(x), _, _) => lemma_text_order(x, x, x),
        _ => {},
    }
}

/// The same of literals.
pub proof fn lemma_literal_order(a: LiteralModel, b: LiteralModel, c: LiteralModel)
    ensures
        literal_order(a, a) is Same,
        literal_order(a, b) is Same ==> a == b,
        literal_order(a, b) is Before && literal_order(b, c) is Before ==> literal_order(a, c)
            is Before,
{
    lemma_text_order(a.value, b.value, c.value);
    lemma_text_order(b.value, c.value, c.value);
    lemma_text_order(a.value, c.value, c.value);
    lemma_tag_order(a.language_tag, b.language_tag, c.language_tag);
    lemma_tag_order(b.language_tag, c.language_tag, c.language_tag);
    lemma_tag_order(a.language_tag, c.language_tag, c.language_tag);
    lemma_iri_order(a.iri, b.iri, c.iri);
    lemma_iri_order(b.iri, c.iri, c.iri);
    lemma_iri_order(a.iri, c.iri, c.iri);
}

/// The same of subjects.
pub proof fn lemma_subject_order(a: SubjectModel, b: SubjectModel, c: SubjectModel)
    ensures
        subject_order(a, a) is Same,
        subject_order(a, b) is Same ==> a == b,
        subject_order(a, b) is Before && subject_order(b, c) is Before ==> subject_order(a, c)
            is Before,
{
    match a {
        SubjectModel::Iri(x) => {
            lemma_iri_order(x, x, x);
            match (b, c) {
                (SubjectModel::Iri(y), SubjectModel::Iri(z)) => lemma_iri_order(x, y, z),
                (SubjectModel::Iri(y), _) => lemma_iri_order(x, y, y),
                _ => {},
            }
        },
        SubjectModel::BlankNode(x) => {
            lemma_text_order(x, x, x);
            match (b, c) {
                (SubjectModel::BlankNode(y), SubjectModel::BlankNode(z)) => lemma_text_order(
                    x,
                    y,
                    z,
                ),
                (SubjectModel::BlankNode(y), _) => lemma_text_order(x, y, y),
                _ => {},
            }
        },
    }
}

/// The same of objects.
pub proof fn lemma_object_order(a: ObjectModel, b: ObjectModel, c: ObjectModel)
    ensures
        object_order(a, a) is Same,
        object_order(a, b) is Same ==> a == b,
        object_order(a, b) is Before && object_order(b, c) is Before ==> object_order(a, c)
            is Before,
{
    match a {
        ObjectModel::Iri(x) => {
            lemma_iri_order(x, x, x);
            match (b, c) {
                (ObjectModel::Iri(y), ObjectModel::Iri(z)) => lemma_iri_order(x, y, z),
                (ObjectModel::Iri(y), _) => lemma_iri_order(x, y, y),
                _ => {},
            }
        },
        ObjectModel::BlankNode(x) => {
            lemma_text_order(x, x, x);
            match (b, c) {
                (ObjectModel::BlankNode(y), ObjectModel::BlankNode(z)) => lemma_text_order(x, y, z),
                (ObjectModel::BlankNode(y), _) => lemma_text_order(x, y, y),
                _ => {},
            }
        },
        ObjectModel::Literal(x) => {
            lemma_literal_order(x, x, x);
            match (b, c) {
                (ObjectModel::Literal(y), ObjectModel::Literal(z)) => lemma_literal_order(x, y, z),
                (ObjectModel::Literal(y), _) => lemma_literal_order(x, y, y),
                _ => {},
            }
        },
    }
}

/// A triple stands beside itself; triples that the order does not tell
/// apart are one triple; and a triple that stands before a second,
/// which stands before a third, stands before the third.
pub proof fn lemma_triple_order(a: TripleModel, b: TripleModel, c: TripleModel)
    ensures
        triple_order(a, a) is Same,
        triple_order(a, b) is Same ==> a == b,
        triple_order(a, b) is Before && triple_order(b, c) is Before ==> triple_order(a, c)
            is Before,
{
    lemma_subject_order(a.subject, b.subject, c.subject);
    lemma_subject_order(b.subject, c.subject, c.subject);
    lemma_subject_order(a.subject, c.subject, c.subject);
    lemma_iri_order(a.predicate, b.predicate, c.predicate);
    lemma_iri_order(b.predicate, c.predicate, c.predicate);
    lemma_iri_order(a.predicate, c.predicate, c.predicate);
    lemma_object_order(a.object, b.object, c.object);
    lemma_object_order(b.object, c.object, c.object);
    lemma_object_order(a.object, c.object, c.object);
}

/// In triples that are in order, no triple stands before any that is
/// in front of it.
pub proof fn lemma_in_order(s: Seq<TripleModel>, i: int, j: int)
    requires
        in_order(s),
        0 <= i <= j < s.len(),
    ensures
        !(triple_order(s[j], s[i]) is Before),
    decreases j - i,
{
    if i == j {
        lemma_triple_order(s[i], s[i], s[i]);
    } else {
        lemma_in_order(s, i, j - 1);
        assert(!(triple_order(s[j - 1 + 1], s[j - 1]) is Before));
        lemma_triple_order_flips(s[j], s[j - 1]);
        lemma_triple_order_flips(s[j - 1], s[i]);
        lemma_triple_order_flips(s[j], s[i]);
        lemma_triple_order(s[i], s[j - 1], s[j]);
        lemma_triple_order(s[j - 1], s[j], s[j]);
        lemma_triple_order(s[i], s[j - 1], s[j - 1]);
    }
}

/// Triples in order are still in order without the last.
pub proof fn lemma_in_order_shorter(s: Seq<TripleModel>)
    requires
        in_order(s),
        s.len() > 0,
    ensures
        in_order(s.drop_last()),
{
    assert forall|i: int| 0 <= i < s.drop_last().len() - 1 implies !(triple_order(
        #[trigger] s.drop_last()[i + 1],
        s.drop_last()[i],
    ) is Before) by {
        assert(s.drop_last()[i + 1] == s[i + 1]);
    }
}

/// Two sequences in order that hold the same triples, each as often as
/// the other, are one sequence.
pub proof fn lemma_one_order(s: Seq<TripleModel>, r: Seq<TripleModel>)
    requires
        in_order(s),
        in_order(r),
        s.to_multiset() == r.to_multiset(),
    ensures
        s == r,
    decreases s.len(),
{
    s.to_multiset_ensures();
    r.to_multiset_ensures();
    if s.len() == 0 {
        assert(s =~= r);
    } else {
        let m = s.last();
        let w = r.last();
        assert(s.contains(m)) by {
            assert(s[s.len() - 1] == m);
        }
        assert(r.contains(w)) by {
            assert(r[r.len() - 1] == w);
        }
        assert(s.to_multiset().count(m) > 0 && r.to_multiset().count(m) > 0);
        assert(r.to_multiset().count(w) > 0 && s.to_multiset().count(w) > 0);
        assert(r.contains(m));
        assert(s.contains(w));
        let j = choose|j: int| 0 <= j < r.len() && r[j] == m;
        let i = choose|i: int| 0 <= i < s.len() && s[i] == w;
        lemma_in_order(r, j, r.len() - 1);
        lemma_in_order(s, i, s.len() - 1);
        lemma_triple_order_flips(m, w);
        lemma_triple_order(m, w, w);
        assert(m == w);
        assert(s.remove(s.len() - 1) =~= s.drop_last());
        assert(r.remove(r.len() - 1) =~= r.drop_last());
        lemma_in_order_shorter(s);
        lemma_in_order_shorter(r);
        lemma_one_order(s.drop_last(), r.drop_last());
        assert(s =~= s.drop_last().push(m));
        assert(r =~= r.drop_last().push(w));
    }
}

/// What sorting gives does not depend on the order in which the
/// triples stood.
pub proof fn lemma_order_free(a: Seq<TripleModel>, b: Seq<TripleModel>)
    requires
        a.to_multiset() == b.to_multiset(),
    ensures
        sorted(a) == sorted(b),
{
    lemma_sorted_permutes(a);
    lemma_sorted_permutes(b);
    lemma_sorted_in_order(a);
    lemma_sorted_in_order(b);
    lemma_one_order(sorted(a), sorted(b));
}

} // verus!

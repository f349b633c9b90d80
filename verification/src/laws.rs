//! What holds of every document and of every pair of graphs.

use vstd::prelude::*;
use crate::canon::{canonical, labels_of, relabelled};
use crate::iri::{resolved, IriModel};
use crate::isomorphism::{count_like, edges_of, isomorphic, matching, nodes_of, same_graph};
use crate::shape::{lemma_count_has, lemma_count_witness, lemma_edge, lemma_nodes_distinct};
use crate::object::{same_object, ObjectModel};
use crate::order::{inserted, sorted, triple_order};
use crate::parser::{Document, Rule};
use crate::text::decimal;
use crate::translate::{
    blank_label, fresh, sp_pname_ln, sp_verb, strip_colon, unescaped, Ctx, ParseFailure,
};
use crate::subject::{same_subject, subject_as_object};
use crate::triple::{same_triple, TripleModel};

verus! {

/// The verb `a` stands for the identifier
/// `http://www.w3.org/1999/02/22-rdf-syntax-ns#type`, whatever the
/// prefixes and the base are.
pub proof fn lemma_a_is_type(d: Document, c: Ctx)
    requires
        d.rule_at(c.pos) == Some(Rule::verb),
        d.text_at(c.pos) == seq!['a'],
    ensures
        sp_verb(d, c) == Ok::<(IriModel, Ctx), ParseFailure>(
            (
                IriModel {
                    text: "http://www.w3.org/1999/02/22-rdf-syntax-ns#type"@,
                    had_fragment: true,
                },
                c.advance(),
            ),
        ),
{
}

/// A prefixed name with a local part is read as the text of the
/// identifier that its prefix was declared for, followed by the local
/// part without the backslashes of its escapes.
pub proof fn lemma_prefixed_name(d: Document, c: Ctx)
    requires
        d.rule_at(c.pos) == Some(Rule::PNAME_LN),
        d.rule_at(c.pos + 1) is Some,
        d.rule_at(c.pos + 2) == Some(Rule::PN_LOCAL),
        c.prefixes.contains_key(strip_colon(d.text_at(c.pos + 1))),
    ensures
        sp_pname_ln(d, c) == match resolved(
            c.prefixes[strip_colon(d.text_at(c.pos + 1))].text + unescaped(d.text_at(c.pos + 2)),
            None,
        ) {
            Some(iri) => Ok::<(IriModel, Ctx), ParseFailure>((iri, Ctx { pos: c.pos + 3, ..c })),
            None => Err(ParseFailure::InvalidIri),
        },
{
}

/// The decimal digits tell numbers apart.
pub proof fn lemma_decimal_differs(m: nat, n: nat)
    requires
        m != n,
    ensures
        decimal(m) != decimal(n),
    decreases m,
{
    lemma_decimal_len(m);
    lemma_decimal_len(n);
    if m < 10 && n < 10 {
        assert(decimal(m)[0] != decimal(n)[0]);
    } else if m >= 10 && n >= 10 {
        if m / 10 != n / 10 {
            lemma_decimal_differs(m / 10, n / 10);
            assert(decimal(m).drop_last() =~= decimal(m / 10));
            assert(decimal(n).drop_last() =~= decimal(n / 10));
        } else {
            assert(m % 10 != n % 10);
            assert(decimal(m).last() != decimal(n).last());
        }
    } else {
        assert(decimal(m).len() != decimal(n).len());
    }
}

/// A number below ten has one decimal digit, any other has more.
pub proof fn lemma_decimal_len(n: nat)
    ensures
        n < 10 ==> decimal(n).len() == 1,
        n >= 10 ==> decimal(n).len() >= 2,
    decreases n,
{
    if n >= 10 {
        lemma_decimal_len(n / 10);
    }
}

/// Blank nodes with different numbers have different labels.
pub proof fn lemma_labels_differ(m: nat, n: nat)
    requires
        m != n,
    ensures
        blank_label(m) != blank_label(n),
{
    lemma_decimal_differs(m, n);
    assert(blank_label(m).subrange(1, blank_label(m).len() as int) =~= decimal(m));
    assert(blank_label(n).subrange(1, blank_label(n).len() as int) =~= decimal(n));
}

/// A fresh label is `b` and a number above the counter, it is no
/// declared prefix, and the labels of the numbers passed over are
/// declared prefixes.
pub proof fn lemma_fresh(counter: nat, prefixes: Map<Seq<char>, IriModel>)
    ensures
        match fresh(counter, prefixes) {
            Some((label, k)) => {
                &&& counter < k <= u64::MAX
                &&& label == blank_label(k)
                &&& !prefixes.contains_key(label)
                &&& forall|j: nat| counter < j < k ==> prefixes.contains_key(#[trigger] blank_label(j))
            },
            None => true,
        },
    decreases u64::MAX - counter,
{
    if counter < u64::MAX && prefixes.contains_key(blank_label(counter + 1)) {
        lemma_fresh(counter + 1, prefixes);
    }
}

/// Graphs with different numbers of triples are not the same graph.
pub proof fn lemma_lengths_differ(a: Seq<TripleModel>, b: Seq<TripleModel>)
    requires
        a.len() != b.len(),
    ensures
        !same_graph(a, b),
{
}

/// A term is the same as itself.
pub proof fn lemma_same_object(o: ObjectModel)
    ensures
        same_object(o, o),
{
}

/// Two terms that are the same are so in either order.
pub proof fn lemma_same_object_symmetric(a: ObjectModel, b: ObjectModel)
    requires
        same_object(a, b),
    ensures
        same_object(b, a),
{
}

/// A graph whose blank nodes can be labelled is the same graph as
/// itself.
pub proof fn lemma_reflexive(a: Seq<TripleModel>)
    requires
        canonical(sorted(a)) is Some,
    ensures
        same_graph(a, a),
{
    let x = canonical(sorted(a))->0;
    let n = nodes_of(x);
    let e = edges_of(x);
    let f = Seq::new(n.len(), |i: int| i);
    assert forall|i: int| 0 <= i < f.len() implies same_object(n[i], n[#[trigger] f[i]]) by {
        lemma_same_object(n[i]);
    }
    assert(matching(f, f, n, e, n, e));
}

/// Whether two graphs are the same does not depend on which is taken
/// first.
pub proof fn lemma_symmetric(a: Seq<TripleModel>, b: Seq<TripleModel>)
    requires
        same_graph(a, b),
    ensures
        same_graph(b, a),
{
    let x = canonical(sorted(a))->0;
    let y = canonical(sorted(b))->0;
    let (n0, e0, n1, e1) = (nodes_of(x), edges_of(x), nodes_of(y), edges_of(y));
    let (f, g) = choose|f: Seq<int>, g: Seq<int>| matching(f, g, n0, e0, n1, e1);
    assert forall|j: int| 0 <= j < g.len() implies same_object(n1[j], n0[#[trigger] g[j]]) by {
        assert(f[g[j]] == j);
        lemma_same_object_symmetric(n0[g[j]], n1[f[g[j]]]);
    }
    assert(matching(g, f, n1, e1, n0, e0));
}

/// Whether a triple has no blank node.
pub open spec fn ground(t: TripleModel) -> bool {
    !(t.subject is BlankNode) && !(t.object is BlankNode)
}

/// Whether `ts` holds the triple `t`.
pub open spec fn holds(ts: Seq<TripleModel>, t: TripleModel) -> bool {
    exists|i: int| 0 <= i < ts.len() && #[trigger] ts[i] == t
}

/// Whether `ts` states `t`: holds a triple with the same terms.
pub open spec fn states(ts: Seq<TripleModel>, t: TripleModel) -> bool {
    exists|i: int| 0 <= i < ts.len() && same_triple(#[trigger] ts[i], t)
}

/// Putting a triple in keeps the triples that were there and adds that
/// one.
pub proof fn lemma_inserted_holds(s: Seq<TripleModel>, x: TripleModel, t: TripleModel)
    ensures
        holds(inserted(s, x), t) <==> holds(s, t) || t == x,
    decreases s.len(),
{
    let r = inserted(s, x);
    if s.len() > 0 && triple_order(x, s.last()) is Before {
        let head = inserted(s.drop_last(), x);
        lemma_inserted_holds(s.drop_last(), x, t);
        assert(r == head.push(s.last()));
        if holds(r, t) {
            let i = choose|i: int| 0 <= i < r.len() && #[trigger] r[i] == t;
            if i < head.len() {
                assert(head[i] == t);
                if holds(s.drop_last(), t) {
                    let j = choose|j: int|
                        0 <= j < s.drop_last().len() && #[trigger] s.drop_last()[j] == t;
                    assert(s[j] == t);
                }
            } else {
                assert(s[s.len() - 1] == t);
            }
        }
        if holds(s, t) {
            let j = choose|j: int| 0 <= j < s.len() && #[trigger] s[j] == t;
            if j < s.len() - 1 {
                assert(s.drop_last()[j] == t);
                let i = choose|i: int| 0 <= i < head.len() && #[trigger] head[i] == t;
                assert(r[i] == t);
            } else {
                assert(r[r.len() - 1] == t);
            }
        }
        if t == x {
            let i = choose|i: int| 0 <= i < head.len() && #[trigger] head[i] == t;
            assert(r[i] == t);
        }
    } else {
        assert(r == s.push(x));
        if holds(r, t) {
            let i = choose|i: int| 0 <= i < r.len() && #[trigger] r[i] == t;
            if i < s.len() {
                assert(s[i] == t);
            }
        }
        if holds(s, t) {
            let j = choose|j: int| 0 <= j < s.len() && #[trigger] s[j] == t;
            assert(r[j] == t);
        }
        if t == x {
            assert(r[r.len() - 1] == t);
        }
    }
}

/// Sorting keeps the triples.
pub proof fn lemma_sorted_holds(a: Seq<TripleModel>, t: TripleModel)
    ensures
        holds(sorted(a), t) <==> holds(a, t),
    decreases a.len(),
{
    if a.len() > 0 {
        lemma_sorted_holds(a.drop_last(), t);
        lemma_inserted_holds(sorted(a.drop_last()), a.last(), t);
        if holds(a.drop_last(), t) {
            let j = choose|j: int| 0 <= j < a.drop_last().len() && #[trigger] a.drop_last()[j] == t;
            assert(a[j] == t);
        }
        if holds(a, t) {
            let j = choose|j: int| 0 <= j < a.len() && #[trigger] a[j] == t;
            if j < a.len() - 1 {
                assert(a.drop_last()[j] == t);
            }
        }
        if t == a.last() {
            assert(a[a.len() - 1] == t);
        }
    }
}

/// A matching of the graphs of `x` and `y` maps each triple of `x` to a
/// triple of `y` with the same terms.
pub proof fn lemma_matching_keeps_triples(
    x: Seq<TripleModel>,
    y: Seq<TripleModel>,
    f: Seq<int>,
    g: Seq<int>,
    k: int,
)
    requires
        matching(f, g, nodes_of(x), edges_of(x), nodes_of(y), edges_of(y)),
        0 <= k < x.len(),
    ensures
        states(y, x[k]),
{
    let (n0, e0, n1, e1) = (nodes_of(x), edges_of(x), nodes_of(y), edges_of(y));
    lemma_edge(x, k);
    let a = e0[k].from;
    let b = e0[k].to;
    let l = e0[k].label.text;
    lemma_count_has(e0, k);
    assert(count_like(e0, a, b, l) == count_like(e1, f[a], f[b], l));
    lemma_count_witness(e1, f[a], f[b], l);
    let m = choose|m: int|
        0 <= m < e1.len() && (#[trigger] e1[m]).from == f[a] && e1[m].to == f[b]
            && e1[m].label.text == l;
    lemma_edge(y, 0);
    lemma_edge(y, m);
    assert(same_object(n0[a], n1[f[a]]));
    assert(same_object(n0[b], n1[f[b]]));
    assert(same_triple(y[m], x[k]));
}

/// A triple that has, relabelled, the terms of a triple without blank
/// nodes has them as it is.
pub proof fn lemma_relabelled_ground(
    s: TripleModel,
    labels: Map<Seq<char>, Seq<char>>,
    t: TripleModel,
)
    requires
        ground(t),
        same_triple(relabelled(s, labels), t),
    ensures
        same_triple(s, t),
        relabelled(s, labels) == s,
{
}

/// Having the same terms carries over from triple to triple.
pub proof fn lemma_same_triple_chain(a: TripleModel, b: TripleModel, c: TripleModel)
    requires
        same_triple(a, b),
        same_triple(b, c),
    ensures
        same_triple(a, c),
        same_triple(b, a),
{
}

/// Graphs are told apart by a triple without blank nodes that one
/// states and the other does not.
pub proof fn lemma_ground_triple(a: Seq<TripleModel>, b: Seq<TripleModel>, t: TripleModel)
    requires
        ground(t),
        states(a, t),
        !states(b, t),
    ensures
        !same_graph(a, b),
{
    if same_graph(a, b) {
        let sa = sorted(a);
        let sb = sorted(b);
        let la = labels_of(sa)->0;
        let lb = labels_of(sb)->0;
        let x = canonical(sa)->0;
        let y = canonical(sb)->0;
        let (f, g) = choose|f: Seq<int>, g: Seq<int>|
            matching(f, g, nodes_of(x), edges_of(x), nodes_of(y), edges_of(y));
        let i = choose|i: int| 0 <= i < a.len() && same_triple(#[trigger] a[i], t);
        lemma_sorted_holds(a, a[i]);
        let k = choose|k: int| 0 <= k < sa.len() && #[trigger] sa[k] == a[i];
        assert(x[k] == relabelled(sa[k], la));
        assert(ground(a[i]));
        assert(relabelled(a[i], la) == a[i]);
        lemma_matching_keeps_triples(x, y, f, g, k);
        let m = choose|m: int| 0 <= m < y.len() && same_triple(#[trigger] y[m], x[k]);
        assert(y[m] == relabelled(sb[m], lb));
        lemma_same_triple_chain(y[m], x[k], t);
        lemma_relabelled_ground(sb[m], lb, t);
        assert(holds(sb, sb[m]));
        lemma_sorted_holds(b, sb[m]);
        let j = choose|j: int| 0 <= j < b.len() && #[trigger] b[j] == sb[m];
        assert(same_triple(b[j], t));
    }
}

/// How often `ts` states `t`: the number of its triples with the terms
/// of `t`.
pub open spec fn times(ts: Seq<TripleModel>, t: TripleModel) -> nat
    decreases ts.len(),
{
    if ts.len() == 0 {
        0
    } else {
        times(ts.drop_last(), t) + if same_triple(ts.last(), t) {
            1nat
        } else {
            0nat
        }
    }
}

/// Triples that state a triple hold one with its terms.
pub proof fn lemma_times_witness(ts: Seq<TripleModel>, t: TripleModel)
    requires
        times(ts, t) > 0,
    ensures
        states(ts, t),
    decreases ts.len(),
{
    if same_triple(ts.last(), t) {
        assert(same_triple(ts[ts.len() - 1], t));
    } else {
        lemma_times_witness(ts.drop_last(), t);
        let i = choose|i: int|
            0 <= i < ts.drop_last().len() && same_triple(#[trigger] ts.drop_last()[i], t);
        assert(same_triple(ts[i], t));
    }
}

/// Putting a triple in states it once more and the others as often as
/// before.
pub proof fn lemma_times_inserted(s: Seq<TripleModel>, x: TripleModel, t: TripleModel)
    ensures
        times(inserted(s, x), t) == times(s, t) + if same_triple(x, t) {
            1nat
        } else {
            0nat
        },
    decreases s.len(),
{
    if s.len() > 0 && triple_order(x, s.last()) is Before {
        lemma_times_inserted(s.drop_last(), x, t);
        assert(inserted(s, x).drop_last() =~= inserted(s.drop_last(), x));
    } else {
        assert(s.push(x).drop_last() =~= s);
    }
}

/// Sorting states each triple as often as before.
pub proof fn lemma_times_sorted(a: Seq<TripleModel>, t: TripleModel)
    ensures
        times(sorted(a), t) == times(a, t),
    decreases a.len(),
{
    if a.len() > 0 {
        lemma_times_sorted(a.drop_last(), t);
        lemma_times_inserted(sorted(a.drop_last()), a.last(), t);
    }
}

/// Relabelling blank nodes states each triple without blank nodes as
/// often as before.
pub proof fn lemma_times_relabelled(
    ts: Seq<TripleModel>,
    labels: Map<Seq<char>, Seq<char>>,
    t: TripleModel,
)
    requires
        ground(t),
    ensures
        times(ts.map_values(|s: TripleModel| relabelled(s, labels)), t) == times(ts, t),
    decreases ts.len(),
{
    let after = ts.map_values(|s: TripleModel| relabelled(s, labels));
    if ts.len() > 0 {
        lemma_times_relabelled(ts.drop_last(), labels, t);
        assert(after.drop_last() =~= ts.drop_last().map_values(
            |s: TripleModel| relabelled(s, labels),
        ));
        assert(after.last() == relabelled(ts.last(), labels));
        if same_triple(after.last(), t) {
            lemma_relabelled_ground(ts.last(), labels, t);
        }
    }
}

/// As many edges of the graph of `ts` run from the node `a` to the
/// node `b` with the predicate of `t` as `ts` states `t`, where `a` is
/// the subject of `t` and `b` its object.
pub proof fn lemma_times_edges(ts: Seq<TripleModel>, t: TripleModel, a: int, b: int, k: int)
    requires
        0 <= a < nodes_of(ts).len(),
        0 <= b < nodes_of(ts).len(),
        same_object(nodes_of(ts)[a], subject_as_object(t.subject)),
        same_object(nodes_of(ts)[b], t.object),
        0 <= k <= ts.len(),
    ensures
        edges_of(ts).len() == ts.len(),
        count_like(edges_of(ts).take(k), a, b, t.predicate.text) == times(ts.take(k), t),
    decreases k,
{
    if ts.len() > 0 {
        lemma_edge(ts, 0);
    }
    if k > 0 {
        lemma_times_edges(ts, t, a, b, k - 1);
        lemma_edge(ts, k - 1);
        lemma_nodes_distinct(ts);
        let n = nodes_of(ts);
        let e = edges_of(ts)[k - 1];
        assert(edges_of(ts).take(k).drop_last() =~= edges_of(ts).take(k - 1));
        assert(edges_of(ts).take(k).last() == e);
        assert(ts.take(k).drop_last() =~= ts.take(k - 1));
        assert(ts.take(k).last() == ts[k - 1]);
        if e.from == a && e.to == b {
            assert(same_subject(ts[k - 1].subject, t.subject));
            assert(same_object(ts[k - 1].object, t.object));
        }
        if same_triple(ts[k - 1], t) {
            if e.from < a {
                assert(!same_object(n[e.from], n[a]));
            } else if a < e.from {
                assert(!same_object(n[a], n[e.from]));
            }
            if e.to < b {
                assert(!same_object(n[e.to], n[b]));
            } else if b < e.to {
                assert(!same_object(n[b], n[e.to]));
            }
        }
    }
}

/// Where the graphs of `x` and `y` match, `y` states what `x` states
/// as often as `x`.
pub proof fn lemma_matching_keeps_times(
    x: Seq<TripleModel>,
    y: Seq<TripleModel>,
    f: Seq<int>,
    g: Seq<int>,
    t: TripleModel,
)
    requires
        matching(f, g, nodes_of(x), edges_of(x), nodes_of(y), edges_of(y)),
        times(x, t) > 0,
    ensures
        times(y, t) == times(x, t),
{
    let (n0, e0, n1, e1) = (nodes_of(x), edges_of(x), nodes_of(y), edges_of(y));
    lemma_times_witness(x, t);
    let k = choose|k: int| 0 <= k < x.len() && same_triple(#[trigger] x[k], t);
    lemma_edge(x, k);
    let a = e0[k].from;
    let b = e0[k].to;
    let l = t.predicate.text;
    assert(same_object(n0[a], subject_as_object(t.subject)));
    assert(same_object(n0[b], t.object));
    lemma_times_edges(x, t, a, b, x.len() as int);
    assert(e0.take(x.len() as int) =~= e0);
    assert(x.take(x.len() as int) =~= x);
    assert(count_like(e0, a, b, l) == count_like(e1, f[a], f[b], l));
    assert(same_object(n0[a], n1[f[a]]));
    assert(same_object(n0[b], n1[f[b]]));
    lemma_count_witness(e1, f[a], f[b], l);
    lemma_times_edges(y, t, f[a], f[b], y.len() as int);
    assert(e1.take(y.len() as int) =~= e1);
    assert(y.take(y.len() as int) =~= y);
}

/// Graphs that are the same state every triple without blank nodes
/// equally often.
pub proof fn lemma_ground_times(a: Seq<TripleModel>, b: Seq<TripleModel>, t: TripleModel)
    requires
        ground(t),
        same_graph(a, b),
    ensures
        times(a, t) == times(b, t),
{
    let sa = sorted(a);
    let sb = sorted(b);
    let x = canonical(sa)->0;
    let y = canonical(sb)->0;
    lemma_times_sorted(a, t);
    lemma_times_sorted(b, t);
    lemma_times_relabelled(sa, labels_of(sa)->0, t);
    lemma_times_relabelled(sb, labels_of(sb)->0, t);
    let (f, g) = choose|f: Seq<int>, g: Seq<int>|
        matching(f, g, nodes_of(x), edges_of(x), nodes_of(y), edges_of(y));
    if times(x, t) > 0 {
        lemma_matching_keeps_times(x, y, f, g, t);
    } else if times(y, t) > 0 {
        lemma_symmetric(a, b);
        let (f2, g2) = choose|f2: Seq<int>, g2: Seq<int>|
            matching(f2, g2, nodes_of(y), edges_of(y), nodes_of(x), edges_of(x));
        lemma_matching_keeps_times(y, x, f2, g2, t);
    }
}

/// A graph whose blank nodes can be labelled is the same graph as any
/// that holds its triples, each as often, in another order.
pub proof fn lemma_reordered(a: Seq<TripleModel>, b: Seq<TripleModel>)
    requires
        a.to_multiset() == b.to_multiset(),
        canonical(sorted(a)) is Some,
    ensures
        same_graph(a, b),
{
    crate::order::lemma_order_free(a, b);
    a.to_multiset_ensures();
    b.to_multiset_ensures();
    lemma_reflexive(a);
}

} // verus!

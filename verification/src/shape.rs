//! The graph of a sequence of triples, laid out term by term: which
//! terms are its nodes and between which of them its edges run.

use vstd::prelude::*;
use crate::iri::Iri;
use crate::isomorphism::{
    count_like, distinct, edges_of, isomorphic, matching, nodes_of, position, simple, with_term,
    Edge,
};
use crate::object::{same_object, Object, ObjectModel};
use crate::subject::subject_as_object;
use crate::triple::{models, Triple, TripleModel, Triples};

verus! {

/// What a sequence of terms stands for.
pub open spec fn object_models(v: Seq<Object>) -> Seq<ObjectModel> {
    v.map_values(|o: Object| o@)
}

/// The nodes and edges of a graph: the term of each node, and for each
/// edge the indices of the nodes it leaves and enters and its label.
pub struct Shape {
    pub nodes: Vec<Object>,
    pub from: Vec<usize>,
    pub to: Vec<usize>,
    pub labels: Vec<Iri>,
}

impl Shape {
    /// The terms of the nodes.
    pub open spec fn node_models(&self) -> Seq<ObjectModel> {
        object_models(self.nodes@)
    }

    /// The edges.
    pub open spec fn edge_models(&self) -> Seq<Edge> {
        Seq::new(
            self.from.len() as nat,
            |k: int|
                Edge { from: self.from[k] as int, to: self.to[k] as int, label: self.labels[k]@ },
        )
    }

    /// Every edge runs between nodes, and no two nodes are the same
    /// term.
    pub open spec fn wf(&self) -> bool {
        &&& self.from.len() == self.to.len()
        &&& self.from.len() == self.labels.len()
        &&& forall|k: int|
            0 <= k < self.from.len() ==> (#[trigger] self.from[k]) < self.nodes.len()
                && self.to[k] < self.nodes.len()
        &&& distinct(self.node_models())
    }
}

/// The position of a term lies among the nodes or just after them; a
/// node at the position is the term, and where the position lies after
/// the nodes, none of them is the term.
pub proof fn lemma_position(nodes: Seq<ObjectModel>, t: ObjectModel)
    ensures
        0 <= position(nodes, t) <= nodes.len(),
        position(nodes, t) < nodes.len() ==> same_object(nodes[position(nodes, t)], t),
        forall|i: int| 0 <= i < position(nodes, t) ==> !same_object(#[trigger] nodes[i], t),
    decreases nodes.len(),
{
    if nodes.len() > 0 && !same_object(nodes[0], t) {
        lemma_position(nodes.drop_first(), t);
        assert forall|i: int| 0 <= i < position(nodes, t) implies !same_object(
            #[trigger] nodes[i],
            t,
        ) by {
            if i > 0 {
                assert(nodes.drop_first()[i - 1] == nodes[i]);
            }
        }
    }
}

/// A term that is among the nodes keeps its position when a node is
/// added.
pub proof fn lemma_position_push(nodes: Seq<ObjectModel>, x: ObjectModel, t: ObjectModel)
    requires
        position(nodes, t) < nodes.len(),
    ensures
        position(nodes.push(x), t) == position(nodes, t),
    decreases nodes.len(),
{
    if nodes.len() > 0 && !same_object(nodes[0], t) {
        assert(nodes.push(x).drop_first() =~= nodes.drop_first().push(x));
        lemma_position_push(nodes.drop_first(), x, t);
    }
}

/// A term that is added as a node has the last position.
pub proof fn lemma_position_last(nodes: Seq<ObjectModel>, t: ObjectModel)
    requires
        position(nodes, t) == nodes.len(),
    ensures
        position(nodes.push(t), t) == nodes.len(),
    decreases nodes.len(),
{
    if nodes.len() > 0 {
        assert(nodes.push(t).drop_first() =~= nodes.drop_first().push(t));
        lemma_position_last(nodes.drop_first(), t);
    }
}

/// The index of the first of `nodes` that is the term `t`.
fn find(nodes: &Vec<Object>, t: &Object) -> (r: usize)
    ensures
        r == position(object_models(nodes@), t@),
        r <= nodes.len(),
{
    let ghost all = object_models(nodes@);
    let mut i: usize = 0;
    assert(all.skip(0) =~= all);
    while i < nodes.len()
        invariant
            i <= nodes.len(),
            all == object_models(nodes@),
            position(all, t@) == i + position(all.skip(i as int), t@),
        decreases nodes.len() - i,
    {
        assert(all.skip(i as int)[0] == nodes[i as int]@);
        if nodes[i].eq(t) {
            return i;
        }
        assert(all.skip(i as int).drop_first() =~= all.skip(i + 1));
        i += 1;
    }
    assert(all.skip(i as int) =~= Seq::<ObjectModel>::empty());
    i
}

/// Makes sure that the term `t` is among `nodes`, and gives its index.
fn node_for(nodes: &mut Vec<Object>, t: Object) -> (r: usize)
    requires
        distinct(object_models(old(nodes)@)),
    ensures
        object_models(final(nodes)@) == with_term(object_models(old(nodes)@), t@),
        r == position(object_models(final(nodes)@), t@),
        r < final(nodes).len(),
        distinct(object_models(final(nodes)@)),
        old(nodes).len() <= final(nodes).len(),
{
    let ghost before = object_models(nodes@);
    let at = find(nodes, &t);
    proof {
        lemma_position(before, t@);
    }
    if at == nodes.len() {
        nodes.push(t);
        proof {
            assert(object_models(nodes@) =~= before.push(t@));
            lemma_position_last(before, t@);
            assert forall|i: int, j: int| 0 <= i < j < nodes.len() implies !same_object(
                #[trigger] object_models(nodes@)[i],
                #[trigger] object_models(nodes@)[j],
            ) by {
                if j < before.len() {
                    assert(!same_object(before[i], before[j]));
                } else {
                    assert(!same_object(before[i], t@));
                }
            }
        }
    }
    at
}

impl Shape {
    /// The shape of the graph of `ts`.
    pub fn of(ts: &Triples) -> (s: Shape)
        ensures
            s.wf(),
            s.node_models() == nodes_of(ts@),
            s.edge_models() == edges_of(ts@),
    {
        let mut s = Shape { nodes: Vec::new(), from: Vec::new(), to: Vec::new(), labels: Vec::new() };
        let mut i: usize = 0;
        assert(ts@.take(0) =~= Seq::<TripleModel>::empty());
        assert(s.node_models() =~= nodes_of(ts@.take(0)));
        assert(s.edge_models() =~= edges_of(ts@.take(0)));
        while i < ts.0.len()
            invariant
                i <= ts.0.len(),
                s.wf(),
                s.from.len() == i,
                s.node_models() == nodes_of(ts@.take(i as int)),
                s.edge_models() == edges_of(ts@.take(i as int)),
            decreases ts.0.len() - i,
        {
            let triple = &ts.0[i];
            let ghost before = s.node_models();
            let ghost edges = s.edge_models();
            let ghost old_from = s.from@;
            let ghost old_to = s.to@;
            assert(ts@.take(i + 1).drop_last() =~= ts@.take(i as int));
            assert(ts@.take(i + 1).last() == triple@);
            let from = node_for(&mut s.nodes, triple.subject.as_object());
            let ghost middle = s.node_models();
            let to = node_for(&mut s.nodes, triple.object.clone());
            proof {
                assert(s.node_models() == nodes_of(ts@.take(i + 1)));
                lemma_position(middle, subject_as_object(triple@.subject));
                if s.node_models() != middle {
                    lemma_position_push(middle, triple@.object, subject_as_object(triple@.subject));
                }
            }
            s.from.push(from);
            s.to.push(to);
            s.labels.push(triple.predicate.clone());
            assert(s.edge_models() =~= edges.push(
                Edge { from: from as int, to: to as int, label: triple@.predicate },
            ));
            i += 1;
        }
        assert(ts@.take(i as int) =~= ts@);
        s
    }

    /// Whether no two edges leave the same node and enter the same node.
    pub fn is_simple(&self) -> (r: bool)
        requires
            self.wf(),
        ensures
            r == simple(self.edge_models()),
    {
        let n = self.from.len();
        let mut i: usize = 0;
        while i < n
            invariant
                i <= n,
                n == self.from.len(),
                self.wf(),
                forall|a: int, b: int|
                    0 <= a < b < n && a < i ==> !((#[trigger] self.edge_models()[a]).from == (
                    #[trigger] self.edge_models()[b]).from && self.edge_models()[a].to
                        == self.edge_models()[b].to),
            decreases n - i,
        {
            let mut j: usize = i + 1;
            while j < n
                invariant
                    i < j <= n,
                    n == self.from.len(),
                    self.wf(),
                    forall|b: int|
                        i < b < j ==> !(self.edge_models()[i as int].from == (
                        #[trigger] self.edge_models()[b]).from && self.edge_models()[i as int].to
                            == self.edge_models()[b].to),
                decreases n - j,
            {
                if self.from[i] == self.from[j] && self.to[i] == self.to[j] {
                    assert(self.edge_models()[i as int].from == self.edge_models()[j as int].from);
                    return false;
                }
                j += 1;
            }
            i += 1;
        }
        true
    }

    /// The number of edges from `from` to `to` with the label `label`.
    pub fn count(&self, from: usize, to: usize, label: &Iri) -> (n: usize)
        requires
            self.wf(),
        ensures
            n == count_like(self.edge_models(), from as int, to as int, label@.text),
    {
        let mut n: usize = 0;
        let mut k: usize = 0;
        assert(self.edge_models().take(0) =~= Seq::<Edge>::empty());
        while k < self.from.len()
            invariant
                k <= self.from.len(),
                self.wf(),
                n <= k,
                n == count_like(
                    self.edge_models().take(k as int),
                    from as int,
                    to as int,
                    label@.text,
                ),
            decreases self.from.len() - k,
        {
            assert(self.edge_models().take(k + 1).drop_last() =~= self.edge_models().take(k as int));
            assert(self.edge_models().take(k + 1).last() == self.edge_models()[k as int]);
            if self.from[k] == from && self.to[k] == to && self.labels[k].eq(label) {
                n += 1;
            }
            k += 1;
        }
        assert(self.edge_models().take(k as int) =~= self.edge_models());
        n
    }
}

/// An edge is counted among the edges like it.
pub proof fn lemma_count_has(edges: Seq<Edge>, k: int)
    requires
        0 <= k < edges.len(),
    ensures
        count_like(edges, edges[k].from, edges[k].to, edges[k].label.text) >= 1,
    decreases edges.len(),
{
    if k < edges.len() - 1 {
        assert(edges.drop_last()[k] == edges[k]);
        lemma_count_has(edges.drop_last(), k);
    }
}

/// Where edges of a kind are counted, there is one.
pub proof fn lemma_count_witness(edges: Seq<Edge>, from: int, to: int, label: Seq<char>)
    requires
        count_like(edges, from, to, label) > 0,
    ensures
        exists|k: int|
            0 <= k < edges.len() && (#[trigger] edges[k]).from == from && edges[k].to == to
                && edges[k].label.text == label,
    decreases edges.len(),
{
    if edges.last().from == from && edges.last().to == to && edges.last().label.text == label {
        assert(edges[edges.len() - 1].from == from);
    } else {
        lemma_count_witness(edges.drop_last(), from, to, label);
        let k = choose|k: int|
            0 <= k < edges.drop_last().len() && (#[trigger] edges.drop_last()[k]).from == from
                && edges.drop_last()[k].to == to && edges.drop_last()[k].label.text == label;
        assert(edges[k].from == from);
    }
}

/// Among nodes no two of which are the same term, a matching can only
/// map a node to the node with its term.
pub proof fn lemma_forced(
    fp: Seq<int>,
    gp: Seq<int>,
    n0: Seq<ObjectModel>,
    e0: Seq<Edge>,
    n1: Seq<ObjectModel>,
    e1: Seq<Edge>,
    i: int,
    to: int,
)
    requires
        matching(fp, gp, n0, e0, n1, e1),
        distinct(n1),
        0 <= i < n0.len(),
        0 <= to < n1.len(),
        same_object(n0[i], n1[to]),
    ensures
        fp[i] == to,
{
    assert(same_object(n0[i], n1[fp[i]]));
    if fp[i] < to {
        assert(!same_object(n1[fp[i]], n1[to]));
    } else if to < fp[i] {
        assert(!same_object(n1[to], n1[fp[i]]));
    }
}

/// The same, for the mapping back.
pub proof fn lemma_forced_back(
    fp: Seq<int>,
    gp: Seq<int>,
    n0: Seq<ObjectModel>,
    e0: Seq<Edge>,
    n1: Seq<ObjectModel>,
    e1: Seq<Edge>,
    j: int,
    to: int,
)
    requires
        matching(fp, gp, n0, e0, n1, e1),
        distinct(n0),
        0 <= j < n1.len(),
        0 <= to < n0.len(),
        same_object(n0[to], n1[j]),
    ensures
        gp[j] == to,
{
    assert(0 <= gp[j] < fp.len() && fp[gp[j]] == j);
    assert(same_object(n0[gp[j]], n1[fp[gp[j]]]));
    if gp[j] < to {
        assert(!same_object(n0[gp[j]], n0[to]));
    } else if to < gp[j] {
        assert(!same_object(n0[to], n0[gp[j]]));
    }
}

/// Whether `f` and `g` map each node to a node with its term, and the
/// edges like each edge are as many as those like its image.
pub open spec fn agree(
    f: Seq<int>,
    g: Seq<int>,
    n0: Seq<ObjectModel>,
    e0: Seq<Edge>,
    n1: Seq<ObjectModel>,
    e1: Seq<Edge>,
) -> bool {
    &&& f.len() == n0.len()
    &&& g.len() == n1.len()
    &&& n0.len() == n1.len()
    &&& e0.len() == e1.len()
    &&& forall|i: int|
        0 <= i < f.len() ==> 0 <= #[trigger] f[i] < n1.len() && same_object(n0[i], n1[f[i]])
    &&& forall|j: int|
        0 <= j < g.len() ==> 0 <= #[trigger] g[j] < n0.len() && same_object(n0[g[j]], n1[j])
    &&& forall|k: int|
        0 <= k < e0.len() ==> 0 <= (#[trigger] e0[k]).from < n0.len() && 0 <= e0[k].to < n0.len()
            && count_like(e0, e0[k].from, e0[k].to, e0[k].label.text) == count_like(
            e1,
            f[e0[k].from],
            f[e0[k].to],
            e0[k].label.text,
        )
    &&& forall|m: int|
        0 <= m < e1.len() ==> 0 <= (#[trigger] e1[m]).from < n1.len() && 0 <= e1[m].to < n1.len()
            && count_like(e1, e1[m].from, e1[m].to, e1[m].label.text) == count_like(
            e0,
            g[e1[m].from],
            g[e1[m].to],
            e1[m].label.text,
        )
}

/// Mappings that agree on graphs whose nodes are distinct terms are a
/// matching.
pub proof fn lemma_agree(
    f: Seq<int>,
    g: Seq<int>,
    n0: Seq<ObjectModel>,
    e0: Seq<Edge>,
    n1: Seq<ObjectModel>,
    e1: Seq<Edge>,
)
    requires
        agree(f, g, n0, e0, n1, e1),
        distinct(n0),
        distinct(n1),
    ensures
        matching(f, g, n0, e0, n1, e1),
{
    assert forall|i: int| 0 <= i < f.len() implies 0 <= #[trigger] f[i] < g.len() && g[f[i]]
        == i by {
        let j = f[i];
        let back = g[j];
        assert(same_object(n0[back], n1[j]));
        if back < i {
            assert(!same_object(n0[back], n0[i]));
        } else if i < back {
            assert(!same_object(n0[i], n0[back]));
        }
    }
    assert forall|j: int| 0 <= j < g.len() implies 0 <= #[trigger] g[j] < f.len() && f[g[j]]
        == j by {
        let i = g[j];
        let there = f[i];
        assert(same_object(n0[i], n1[there]));
        if there < j {
            assert(!same_object(n1[there], n1[j]));
        } else if j < there {
            assert(!same_object(n1[j], n1[there]));
        }
    }
    assert forall|a: int, b: int, l: Seq<char>| 0 <= a < f.len() && 0 <= b < f.len() implies #[trigger] count_like(
        e0,
        a,
        b,
        l,
    ) == count_like(e1, f[a], f[b], l) by {
        if count_like(e0, a, b, l) > 0 {
            lemma_count_witness(e0, a, b, l);
            let k = choose|k: int|
                0 <= k < e0.len() && (#[trigger] e0[k]).from == a && e0[k].to == b
                    && e0[k].label.text == l;
            assert(0 <= e0[k].from < n0.len());
        } else if count_like(e1, f[a], f[b], l) > 0 {
            lemma_count_witness(e1, f[a], f[b], l);
            let m = choose|m: int|
                0 <= m < e1.len() && (#[trigger] e1[m]).from == f[a] && e1[m].to == f[b]
                    && e1[m].label.text == l;
            assert(0 <= e1[m].from < n1.len());
            assert(g[f[a]] == a && g[f[b]] == b);
        }
    }
}

/// Where some matching exists between graphs whose nodes are distinct
/// terms, mappings of each node to a node with its term agree.
pub proof fn lemma_matching_agrees(
    fp: Seq<int>,
    gp: Seq<int>,
    f: Seq<int>,
    g: Seq<int>,
    n0: Seq<ObjectModel>,
    e0: Seq<Edge>,
    n1: Seq<ObjectModel>,
    e1: Seq<Edge>,
    a: int,
    b: int,
    l: Seq<char>,
)
    requires
        matching(fp, gp, n0, e0, n1, e1),
        distinct(n0),
        distinct(n1),
        0 <= a < n0.len(),
        0 <= b < n0.len(),
        0 <= f[a] < n1.len() && same_object(n0[a], n1[f[a]]),
        0 <= f[b] < n1.len() && same_object(n0[b], n1[f[b]]),
    ensures
        count_like(e0, a, b, l) == count_like(e1, f[a], f[b], l),
{
    lemma_forced(fp, gp, n0, e0, n1, e1, a, f[a]);
    lemma_forced(fp, gp, n0, e0, n1, e1, b, f[b]);
}

/// Whether none of `nodes` is the term `t`.
pub open spec fn absent(nodes: Seq<ObjectModel>, t: ObjectModel) -> bool {
    forall|j: int| 0 <= j < nodes.len() ==> !same_object(#[trigger] nodes[j], t)
}

/// The integers of `v`.
pub open spec fn indices(v: Seq<usize>) -> Seq<int> {
    v.map_values(|x: usize| x as int)
}

/// For each of `from`, the index of the node of `to` with the same
/// term; nothing where a term of `from` is not among `to`.
fn images(from: &Vec<Object>, to: &Vec<Object>) -> (r: Option<Vec<usize>>)
    ensures
        match r {
            Some(f) => f.len() == from.len() && forall|i: int|
                0 <= i < f.len() ==> 0 <= #[trigger] indices(f@)[i] < to.len() && same_object(
                    object_models(to@)[indices(f@)[i]],
                    object_models(from@)[i],
                ),
            None => exists|i: int|
                0 <= i < from.len() && absent(object_models(to@), #[trigger] object_models(from@)[i]),
        },
{
    let mut f: Vec<usize> = Vec::new();
    let mut i: usize = 0;
    while i < from.len()
        invariant
            i <= from.len(),
            f.len() == i,
            forall|k: int|
                0 <= k < i ==> 0 <= #[trigger] indices(f@)[k] < to.len() && same_object(
                    object_models(to@)[indices(f@)[k]],
                    object_models(from@)[k],
                ),
        decreases from.len() - i,
    {
        let at = find(to, &from[i]);
        proof {
            lemma_position(object_models(to@), from[i as int]@);
        }
        if at == to.len() {
            assert(absent(object_models(to@), object_models(from@)[i as int]));
            return None;
        }
        let ghost before = indices(f@);
        f.push(at);
        assert(indices(f@) =~= before.push(at as int));
        i += 1;
    }
    Some(f)
}

/// Whether the graphs of the two shapes are isomorphic.
pub fn same_shape(a: &Shape, b: &Shape) -> (r: bool)
    requires
        a.wf(),
        b.wf(),
    ensures
        r == isomorphic(a.node_models(), a.edge_models(), b.node_models(), b.edge_models()),
{
    let ghost n0 = a.node_models();
    let ghost e0 = a.edge_models();
    let ghost n1 = b.node_models();
    let ghost e1 = b.edge_models();
    if a.nodes.len() != b.nodes.len() || a.from.len() != b.from.len() {
        return false;
    }
    let f = match images(&a.nodes, &b.nodes) {
        Some(f) => f,
        None => {
            proof {
                let i = choose|i: int| 0 <= i < n0.len() && absent(n1, #[trigger] n0[i]);
                assert forall|fp: Seq<int>, gp: Seq<int>| !matching(fp, gp, n0, e0, n1, e1) by {
                    if matching(fp, gp, n0, e0, n1, e1) {
                        assert(same_object(n0[i], n1[fp[i]]));
                        assert(!same_object(n1[fp[i]], n0[i]));
                    }
                }
            }
            return false;
        },
    };
    let g = match images(&b.nodes, &a.nodes) {
        Some(g) => g,
        None => {
            proof {
                let j = choose|j: int| 0 <= j < n1.len() && absent(n0, #[trigger] n1[j]);
                assert forall|fp: Seq<int>, gp: Seq<int>| !matching(fp, gp, n0, e0, n1, e1) by {
                    if matching(fp, gp, n0, e0, n1, e1) {
                        assert(0 <= gp[j] < fp.len() && fp[gp[j]] == j);
                        assert(same_object(n0[gp[j]], n1[fp[gp[j]]]));
                    }
                }
            }
            return false;
        },
    };
    let ghost fs = indices(f@);
    let ghost gs = indices(g@);
    let mut k: usize = 0;
    while k < a.from.len()
        invariant
            k <= a.from.len(),
            a.wf(),
            b.wf(),
            n0 == a.node_models(),
            e0 == a.edge_models(),
            n1 == b.node_models(),
            e1 == b.edge_models(),
            n0.len() == n1.len(),
            e0.len() == e1.len(),
            fs == indices(f@),
            f.len() == n0.len(),
            forall|i: int|
                0 <= i < fs.len() ==> 0 <= #[trigger] fs[i] < n1.len() && same_object(
                    n1[fs[i]],
                    n0[i],
                ),
            forall|x: int|
                0 <= x < k ==> count_like(
                    e0,
                    (#[trigger] e0[x]).from,
                    e0[x].to,
                    e0[x].label.text,
                ) == count_like(e1, fs[e0[x].from], fs[e0[x].to], e0[x].label.text),
        decreases a.from.len() - k,
    {
        let from = a.from[k];
        let to = a.to[k];
        assert(e0[k as int].from == from && e0[k as int].to == to && e0[k as int].label
            == a.labels[k as int]@);
        assert(fs[from as int] == f[from as int] && fs[to as int] == f[to as int]);
        let here = a.count(from, to, &a.labels[k]);
        let there = b.count(f[from], f[to], &a.labels[k]);
        if here != there {
            proof {
                assert forall|fp: Seq<int>, gp: Seq<int>| !matching(fp, gp, n0, e0, n1, e1) by {
                    if matching(fp, gp, n0, e0, n1, e1) {
                        lemma_matching_agrees(
                            fp,
                            gp,
                            fs,
                            gs,
                            n0,
                            e0,
                            n1,
                            e1,
                            from as int,
                            to as int,
                            e0[k as int].label.text,
                        );
                    }
                }
            }
            return false;
        }
        k += 1;
    }
    let mut m: usize = 0;
    while m < b.from.len()
        invariant
            m <= b.from.len(),
            a.wf(),
            b.wf(),
            n0 == a.node_models(),
            e0 == a.edge_models(),
            n1 == b.node_models(),
            e1 == b.edge_models(),
            n0.len() == n1.len(),
            e0.len() == e1.len(),
            fs == indices(f@),
            gs == indices(g@),
            f.len() == n0.len(),
            g.len() == n1.len(),
            forall|i: int|
                0 <= i < fs.len() ==> 0 <= #[trigger] fs[i] < n1.len() && same_object(
                    n1[fs[i]],
                    n0[i],
                ),
            forall|j: int|
                0 <= j < gs.len() ==> 0 <= #[trigger] gs[j] < n0.len() && same_object(
                    n0[gs[j]],
                    n1[j],
                ),
            forall|x: int|
                0 <= x < m ==> count_like(
                    e1,
                    (#[trigger] e1[x]).from,
                    e1[x].to,
                    e1[x].label.text,
                ) == count_like(e0, gs[e1[x].from], gs[e1[x].to], e1[x].label.text),
        decreases b.from.len() - m,
    {
        let from = b.from[m];
        let to = b.to[m];
        assert(e1[m as int].from == from && e1[m as int].to == to && e1[m as int].label
            == b.labels[m as int]@);
        assert(gs[from as int] == g[from as int] && gs[to as int] == g[to as int]);
        let there = b.count(from, to, &b.labels[m]);
        let here = a.count(g[from], g[to], &b.labels[m]);
        if here != there {
            proof {
                assert forall|fp: Seq<int>, gp: Seq<int>| !matching(fp, gp, n0, e0, n1, e1) by {
                    if matching(fp, gp, n0, e0, n1, e1) {
                        let x = gs[from as int];
                        let y = gs[to as int];
                        lemma_forced_back(fp, gp, n0, e0, n1, e1, from as int, x);
                        lemma_forced_back(fp, gp, n0, e0, n1, e1, to as int, y);
                        assert(fp[x] == from && fp[y] == to);
                        assert(count_like(e0, x, y, e1[m as int].label.text) == count_like(
                            e1,
                            fp[x],
                            fp[y],
                            e1[m as int].label.text,
                        ));
                    }
                }
            }
            return false;
        }
        m += 1;
    }
    proof {
        assert(agree(fs, gs, n0, e0, n1, e1)) by {
            assert forall|x: int| 0 <= x < e0.len() implies 0 <= (#[trigger] e0[x]).from < n0.len()
                && 0 <= e0[x].to < n0.len() by {
                assert(a.from[x] < a.nodes.len());
            }
            assert forall|x: int| 0 <= x < e1.len() implies 0 <= (#[trigger] e1[x]).from < n1.len()
                && 0 <= e1[x].to < n1.len() by {
                assert(b.from[x] < b.nodes.len());
            }
        }
        lemma_agree(fs, gs, n0, e0, n1, e1);
    }
    true
}

/// The graph of triples has an edge for each triple: it runs from the
/// node that is the triple's subject to the node that is its object,
/// and its label is the triple's predicate. The nodes of the graph of
/// the triples without the last are the first nodes of the graph.
pub proof fn lemma_edge(ts: Seq<TripleModel>, k: int)
    requires
        0 <= k < ts.len(),
    ensures
        edges_of(ts).len() == ts.len(),
        nodes_of(ts.drop_last()).len() <= nodes_of(ts).len(),
        nodes_of(ts).take(nodes_of(ts.drop_last()).len() as int) == nodes_of(ts.drop_last()),
        0 <= edges_of(ts)[k].from < nodes_of(ts).len(),
        0 <= edges_of(ts)[k].to < nodes_of(ts).len(),
        same_object(nodes_of(ts)[edges_of(ts)[k].from], subject_as_object(ts[k].subject)),
        same_object(nodes_of(ts)[edges_of(ts)[k].to], ts[k].object),
        edges_of(ts)[k].label == ts[k].predicate,
    decreases ts.len(),
{
    let prev = ts.drop_last();
    let s = subject_as_object(ts.last().subject);
    let o = ts.last().object;
    let n0 = nodes_of(prev);
    let n1 = with_term(n0, s);
    let n2 = with_term(n1, o);
    assert(n2 == nodes_of(ts));
    assert(n2.take(n0.len() as int) =~= n0);
    if prev.len() > 0 {
        lemma_edge(prev, if k < prev.len() { k } else { 0 });
    }
    if k < ts.len() - 1 {
        assert(prev[k] == ts[k]);
        assert(edges_of(ts)[k] == edges_of(prev)[k]);
        assert(n2[edges_of(prev)[k].from] == n0[edges_of(prev)[k].from]);
        assert(n2[edges_of(prev)[k].to] == n0[edges_of(prev)[k].to]);
    } else {
        lemma_position(n0, s);
        if position(n0, s) == n0.len() {
            lemma_position_last(n0, s);
        }
        lemma_position(n1, o);
        if position(n1, o) == n1.len() {
            lemma_position_last(n1, o);
            lemma_position_push(n1, o, s);
        }
        lemma_position(n2, s);
        lemma_position(n2, o);
    }
}

/// Adding a node for a term keeps the nodes distinct terms.
pub proof fn lemma_with_term(nodes: Seq<ObjectModel>, t: ObjectModel)
    requires
        distinct(nodes),
    ensures
        distinct(with_term(nodes, t)),
{
    lemma_position(nodes, t);
    let after = with_term(nodes, t);
    assert forall|i: int, j: int| 0 <= i < j < after.len() implies !same_object(
        #[trigger] after[i],
        #[trigger] after[j],
    ) by {
        if j < nodes.len() {
            assert(!same_object(nodes[i], nodes[j]));
        } else {
            assert(!same_object(nodes[i], t));
        }
    }
}

/// No two nodes of the graph of triples are the same term.
pub proof fn lemma_nodes_distinct(ts: Seq<TripleModel>)
    ensures
        distinct(nodes_of(ts)),
    decreases ts.len(),
{
    if ts.len() > 0 {
        lemma_nodes_distinct(ts.drop_last());
        let s = subject_as_object(ts.last().subject);
        lemma_with_term(nodes_of(ts.drop_last()), s);
        lemma_with_term(with_term(nodes_of(ts.drop_last()), s), ts.last().object);
    }
}

} // verus!

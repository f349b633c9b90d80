//! Whether two graphs state the same up to the names of their blank
//! nodes.

use vstd::prelude::*;
use crate::canon::canonical;
use crate::iri::{Iri, IriModel};
use crate::object::{same_object, Object, ObjectModel};
use crate::order::{lemma_sorted_in_order, sorted};
use crate::shape::{same_shape, Shape};
use crate::subject::subject_as_object;
use crate::triple::{TripleModel, Triples};

verus! {

/// A directed graph of the `petgraph` crate whose nodes carry terms and
/// whose edges carry identifiers. Nodes and edges are known by the
/// order in which they were added.
#[verifier::external_body]
pub struct TermGraph {
    inner: petgraph::graph::Graph<Object, Iri, petgraph::Directed, usize>,
}

/// An edge: the indices of the nodes it leaves and enters, and its
/// label.
pub struct Edge {
    pub from: int,
    pub to: int,
    pub label: IriModel,
}

/// The weights of the nodes of a graph, by index.
pub uninterp spec fn graph_nodes(g: TermGraph) -> Seq<ObjectModel>;

/// The edges of a graph, in the order in which they were added.
pub uninterp spec fn graph_edges(g: TermGraph) -> Seq<Edge>;

/// Whether no two edges leave the same node and enter the same node.
pub open spec fn simple(edges: Seq<Edge>) -> bool {
    forall|i: int, j: int|
        0 <= i < j < edges.len() ==> !((#[trigger] edges[i]).from == (#[trigger] edges[j]).from
            && edges[i].to == edges[j].to)
}

/// The number of edges of `edges` that run from the node `from` to the
/// node `to` with a label of the text `label`.
pub open spec fn count_like(edges: Seq<Edge>, from: int, to: int, label: Seq<char>) -> nat
    decreases edges.len(),
{
    if edges.len() == 0 {
        0
    } else {
        count_like(edges.drop_last(), from, to, label) + if edges.last().from == from
            && edges.last().to == to && edges.last().label.text == label {
            1nat
        } else {
            0nat
        }
    }
}

/// Whether `f` maps the nodes of the first graph one to one onto those
/// of the second, with `g` mapping them back, each node to a node with
/// the same term, such that as many edges with a given label run
/// between two nodes of the first graph as run between the nodes that
/// they are mapped to.
pub open spec fn matching(
    f: Seq<int>,
    g: Seq<int>,
    n0: Seq<ObjectModel>,
    e0: Seq<Edge>,
    n1: Seq<ObjectModel>,
    e1: Seq<Edge>,
) -> bool {
    &&& f.len() == n0.len()
    &&& g.len() == n1.len()
    &&& n0.len() == n1.len()
    &&& e0.len() == e1.len()
    &&& forall|i: int| 0 <= i < f.len() ==> 0 <= #[trigger] f[i] < g.len() && g[f[i]] == i
    &&& forall|j: int| 0 <= j < g.len() ==> 0 <= #[trigger] g[j] < f.len() && f[g[j]] == j
    &&& forall|i: int| 0 <= i < f.len() ==> same_object(n0[i], n1[#[trigger] f[i]])
    &&& forall|a: int, b: int, l: Seq<char>|
        0 <= a < f.len() && 0 <= b < f.len() ==> #[trigger] count_like(e0, a, b, l) == count_like(
            e1,
            f[a],
            f[b],
            l,
        )
}

/// Whether two graphs are isomorphic: whether some mapping of nodes is
/// a matching.
pub open spec fn isomorphic(
    n0: Seq<ObjectModel>,
    e0: Seq<Edge>,
    n1: Seq<ObjectModel>,
    e1: Seq<Edge>,
) -> bool {
    exists|f: Seq<int>, g: Seq<int>| matching(f, g, n0, e0, n1, e1)
}

/// The index of the first of `nodes` that is the term `t`; the number
/// of nodes where none is.
pub open spec fn position(nodes: Seq<ObjectModel>, t: ObjectModel) -> int
    decreases nodes.len(),
{
    if nodes.len() == 0 {
        0
    } else if same_object(nodes[0], t) {
        0
    } else {
        1 + position(nodes.drop_first(), t)
    }
}

/// `nodes`, with a node for the term `t` at the end where there was
/// none.
pub open spec fn with_term(nodes: Seq<ObjectModel>, t: ObjectModel) -> Seq<ObjectModel> {
    if position(nodes, t) < nodes.len() {
        nodes
    } else {
        nodes.push(t)
    }
}

/// The nodes of the graph of `ts`: one for each term that is a subject
/// or an object, in the order in which the terms first appear.
pub open spec fn nodes_of(ts: Seq<TripleModel>) -> Seq<ObjectModel>
    decreases ts.len(),
{
    if ts.len() == 0 {
        Seq::empty()
    } else {
        with_term(
            with_term(nodes_of(ts.drop_last()), subject_as_object(ts.last().subject)),
            ts.last().object,
        )
    }
}

/// The edges of the graph of `ts`: for each triple one from the node of
/// its subject to the node of its object, with its predicate.
pub open spec fn edges_of(ts: Seq<TripleModel>) -> Seq<Edge>
    decreases ts.len(),
{
    if ts.len() == 0 {
        Seq::empty()
    } else {
        edges_of(ts.drop_last()).push(
            Edge {
                from: position(nodes_of(ts), subject_as_object(ts.last().subject)),
                to: position(nodes_of(ts), ts.last().object),
                label: ts.last().predicate,
            },
        )
    }
}

/// Whether no two of `nodes` are the same term.
pub open spec fn distinct(nodes: Seq<ObjectModel>) -> bool {
    forall|i: int, j: int|
        0 <= i < j < nodes.len() ==> !same_object(#[trigger] nodes[i], #[trigger] nodes[j])
}

/// Calls `Graph::default` of `petgraph`: a graph without nodes or
/// edges.
#[verifier::external_body]
fn empty_graph() -> (g: TermGraph)
    ensures
        graph_nodes(g) == Seq::<ObjectModel>::empty(),
        graph_edges(g) == Seq::<Edge>::empty(),
{
    TermGraph { inner: petgraph::graph::Graph::default() }
}

/// Calls `Graph::add_node` of `petgraph`: the graph gets one more node,
/// with the given weight, whose index is the number of nodes before.
#[verifier::external_body]
fn add_node(g: &mut TermGraph, weight: Object) -> (index: usize)
    ensures
        graph_nodes(*final(g)) == graph_nodes(*old(g)).push(weight@),
        graph_edges(*final(g)) == graph_edges(*old(g)),
        index == graph_nodes(*old(g)).len(),
{
    g.inner.add_node(weight).index()
}

/// Calls `Graph::add_edge` of `petgraph`, which wants both nodes to be
/// in the graph: the graph gets one more edge, from `a` to `b`, with the
/// given weight.
#[verifier::external_body]
fn add_edge(g: &mut TermGraph, a: usize, b: usize, weight: Iri)
    requires
        a < graph_nodes(*old(g)).len(),
        b < graph_nodes(*old(g)).len(),
    ensures
        graph_nodes(*final(g)) == graph_nodes(*old(g)),
        graph_edges(*final(g)) == graph_edges(*old(g)).push(
            Edge { from: a as int, to: b as int, label: weight@ },
        ),
{
    g.inner.add_edge(
        petgraph::graph::NodeIndex::new(a),
        petgraph::graph::NodeIndex::new(b),
        weight,
    );
}

/// Calls `is_isomorphic_matching` of `petgraph` with the equality of
/// terms for nodes and of identifiers for edges. The crate documents it
/// for graphs without parallel edges and as telling whether the graphs
/// are isomorphic with matching weights. It squares the number of
/// nodes, which must fit.
#[verifier::external_body]
fn graphs_match(a: &TermGraph, b: &TermGraph) -> (r: bool)
    requires
        simple(graph_edges(*a)),
        simple(graph_edges(*b)),
        graph_nodes(*a).len() * graph_nodes(*a).len() <= usize::MAX,
        graph_nodes(*b).len() * graph_nodes(*b).len() <= usize::MAX,
    ensures
        r == isomorphic(graph_nodes(*a), graph_edges(*a), graph_nodes(*b), graph_edges(*b)),
{
    petgraph::algo::is_isomorphic_matching(&a.inner, &b.inner, |x, y| x == y, |x, y| x == y)
}

/// Whether two sequences of triples state the same up to the names of
/// their blank nodes: they are as long as each other, the blank nodes
/// of both can be labelled once the triples are sorted, and the graphs
/// of the relabelled triples, with a node for each term and an edge for
/// each triple, are isomorphic.
pub open spec fn same_graph(a: Seq<TripleModel>, b: Seq<TripleModel>) -> bool {
    a.len() == b.len() && match (canonical(sorted(a)), canonical(sorted(b))) {
        (Some(x), Some(y)) => isomorphic(nodes_of(x), edges_of(x), nodes_of(y), edges_of(y)),
        _ => false,
    }
}

/// What a comparison leaves of a sequence of triples: the triples
/// sorted and, where its blank nodes can be labelled, relabelled.
pub open spec fn settled(a: Seq<TripleModel>) -> Seq<TripleModel> {
    match canonical(sorted(a)) {
        Some(x) => x,
        None => sorted(a),
    }
}

/// Whether the square of `n` fits.
fn square_fits(n: usize) -> (r: bool)
    ensures
        r == (n * n <= usize::MAX),
{
    if n == 0 {
        true
    } else {
        let limit = usize::MAX / n;
        assert(n <= limit <==> n * n <= usize::MAX) by (nonlinear_arith)
            requires
                n > 0,
                limit == usize::MAX / n,
        ;
        n <= limit
    }
}

impl Shape {
    /// The graph of this shape.
    fn as_graph(&self) -> (g: TermGraph)
        requires
            self.wf(),
        ensures
            graph_nodes(g) == self.node_models(),
            graph_edges(g) == self.edge_models(),
    {
        let mut graph = empty_graph();
        let mut i: usize = 0;
        assert(self.node_models().take(0) =~= Seq::<ObjectModel>::empty());
        while i < self.nodes.len()
            invariant
                i <= self.nodes.len(),
                graph_nodes(graph) == self.node_models().take(i as int),
                graph_edges(graph) == Seq::<Edge>::empty(),
            decreases self.nodes.len() - i,
        {
            let index = add_node(&mut graph, self.nodes[i].clone());
            assert(self.node_models().take(i + 1) =~= self.node_models().take(i as int).push(
                self.nodes[i as int]@,
            ));
            i += 1;
        }
        assert(self.node_models().take(i as int) =~= self.node_models());
        let mut k: usize = 0;
        assert(self.edge_models().take(0) =~= Seq::<Edge>::empty());
        while k < self.from.len()
            invariant
                k <= self.from.len(),
                self.wf(),
                graph_nodes(graph) == self.node_models(),
                graph_edges(graph) == self.edge_models().take(k as int),
            decreases self.from.len() - k,
        {
            add_edge(&mut graph, self.from[k], self.to[k], self.labels[k].clone());
            assert(self.edge_models().take(k + 1) =~= self.edge_models().take(k as int).push(
                Edge {
                    from: self.from[k as int] as int,
                    to: self.to[k as int] as int,
                    label: self.labels[k as int]@,
                },
            ));
            k += 1;
        }
        assert(self.edge_models().take(k as int) =~= self.edge_models());
        graph
    }
}

impl Triples {
    /// Whether the two graphs are isomorphic. Both are left sorted and,
    /// where their blank nodes could be labelled, relabelled; sequences
    /// of different lengths are left as they are.
    pub fn is_isomorphic(&mut self, other: &mut Self) -> (r: bool)
        ensures
            r == same_graph(old(self)@, old(other)@),
            final(self)@ == if old(self)@.len() == old(other)@.len() {
                settled(old(self)@)
            } else {
                old(self)@
            },
            final(other)@ == if old(self)@.len() == old(other)@.len() {
                settled(old(other)@)
            } else {
                old(other)@
            },
    {
        if self.len() != other.len() {
            return false;
        }
        self.sort();
        other.sort();
        let first = self.hashed();
        let second = other.hashed();
        if !first || !second {
            return false;
        }
        proof {
            lemma_sorted_in_order(old(self)@);
            lemma_sorted_in_order(old(other)@);
        }
        let a = Shape::of(self);
        let b = Shape::of(other);
        if a.is_simple() && b.is_simple() && square_fits(a.nodes.len()) && square_fits(
            b.nodes.len(),
        ) {
            let first = a.as_graph();
            let second = b.as_graph();
            graphs_match(&first, &second)
        } else {
            same_shape(&a, &b)
        }
    }
}

} // verus!

use chelone::graph::Graph;
use chelone::iri::Iri;
use chelone::triple::Triples;

fn graph_of(source: &str) -> Triples {
    let mut graph = Graph::new(source).expect("the grammar accepts the source");
    graph.set_base(Iri::parse("http://e/").expect("the base is absolute"));
    graph.try_parse().expect("the tokens can be read")
}

#[test]
fn blank_nodes_may_be_renamed() {
    let mut a = graph_of("_:x <p> <o> .");
    let mut b = graph_of("_:y <p> <o> .");
    assert!(a.is_isomorphic(&mut b));
}

#[test]
fn different_objects_are_told_apart() {
    let mut a = graph_of("_:x <p> <o> .");
    let mut b = graph_of("_:x <p> <o2> .");
    assert!(!a.is_isomorphic(&mut b));
}

#[test]
fn different_lengths_are_told_apart() {
    let mut a = graph_of("<s> <p> <o> .");
    let mut b = graph_of("<s> <p> <o> , <o2> .");
    assert!(!a.is_isomorphic(&mut b));
    assert_eq!(a.len(), 1);
    assert_eq!(b.len(), 2);
}

#[test]
fn a_graph_is_isomorphic_to_itself() {
    let source = "<s> <p> [ <q> 1 ; <r> ( <a> \"b\" ) ] . _:z <p> <s> .";
    let mut a = graph_of(source);
    let mut b = graph_of(source);
    assert!(a.is_isomorphic(&mut b));
    assert!(b.is_isomorphic(&mut a));
}

#[test]
fn order_of_statements_does_not_matter() {
    let mut a = graph_of("<s> <p> <o> . _:a <q> \"1\" . <t> <p> _:a .");
    let mut b = graph_of("<t> <p> _:k . <s> <p> <o> . _:k <q> \"1\" .");
    assert!(a.is_isomorphic(&mut b));
}

#[test]
fn ground_triples_must_agree() {
    let mut a = graph_of("<s> <p> <o> . _:a <q> \"1\" .");
    let mut b = graph_of("<s> <p> <x> . _:a <q> \"1\" .");
    assert!(!a.is_isomorphic(&mut b));
}

#[test]
fn blank_nodes_on_a_cycle_cannot_be_labelled() {
    let mut a = graph_of("_:a <p> _:b . _:b <p> _:a .");
    let mut b = graph_of("_:a <p> _:b . _:b <p> _:a .");
    assert!(!a.is_isomorphic(&mut b));
    assert!(!a.clone().hashed());
}

#[test]
fn comparison_sorts_and_relabels() {
    let mut a = graph_of("<z> <p> <o> . <a> <p> _:only .");
    let mut b = graph_of("<a> <p> _:other . <z> <p> <o> .");
    assert!(a.is_isomorphic(&mut b));
    assert_eq!(a.to_string(), "<http://e/a> <http://e/p> _:terminal .\n<http://e/z> <http://e/p> <http://e/o> .\n");
    assert_eq!(a.to_string(), b.to_string());
}

#[test]
fn sort_orders_by_subject_then_predicate_then_object() {
    let mut a = graph_of("_:b <p> <o> . <s> <q> <o> . <s> <p> \"x\" . <s> <p> _:c . <s> <p> <o> .");
    a.sort();
    assert_eq!(
        a.to_string(),
        "<http://e/s> <http://e/p> <http://e/o> .\n<http://e/s> <http://e/p> _:c .\n<http://e/s> <http://e/p> \"x\"^^<http://www.w3.org/2001/XMLSchema#string> .\n<http://e/s> <http://e/q> <http://e/o> .\n_:b <http://e/p> <http://e/o> .\n"
    );
}

#[test]
fn roots_with_the_same_statements_get_the_same_label() {
    let mut a = graph_of("_:x <p> \"1\" ; <q> <o> . _:y <p> \"2\" .");
    let mut b = graph_of("_:m <p> \"2\" . _:n <q> <o> ; <p> \"1\" .");
    a.sort();
    b.sort();
    assert!(a.hashed());
    assert!(b.hashed());
    a.sort();
    b.sort();
    assert_eq!(a.to_string(), b.to_string());
    assert!(!a.to_string().contains("_:x"));
}

#[test]
fn labels_spread_from_roots() {
    let mut a = graph_of("_:top <p> _:mid . _:mid <p> _:leaf . _:leaf <q> \"v\" .");
    let mut b = graph_of("_:l <q> \"v\" . _:m <p> _:l . _:t <p> _:m .");
    assert!(a.is_isomorphic(&mut b));
    let mut c = graph_of("_:top <p> _:mid . _:mid <p> _:leaf . _:leaf <q> \"w\" .");
    let mut d = graph_of("_:top <p> _:mid . _:mid <p> _:leaf . _:leaf <q> \"v\" .");
    assert!(!c.is_isomorphic(&mut d));
}

#[test]
fn digest_of_a_parent_depends_on_the_order_of_its_children() {
    let mut a = graph_of("_:a <p> _:b , _:c . _:b <q> \"1\" . _:c <q> \"2\" .");
    let mut b = graph_of("_:a <p> _:c , _:b . _:c <q> \"1\" . _:b <q> \"2\" .");
    assert!(!a.is_isomorphic(&mut b));
    let mut c = graph_of("_:a <p> _:b , _:c . _:b <q> \"1\" . _:c <q> \"2\" .");
    let mut d = graph_of("_:x <p> _:y , _:z . _:y <q> \"1\" . _:z <q> \"2\" .");
    assert!(c.is_isomorphic(&mut d));
}

#[test]
fn graph_has_a_node_for_each_term_and_an_edge_for_each_triple() {
    let triples = graph_of("<a> <p> <b> ; <q> <c> .");
    let shape = chelone::shape::Shape::of(&triples);
    assert_eq!(shape.nodes.len(), 3);
    assert_eq!(shape.from, vec![0, 0]);
    assert_eq!(shape.to, vec![1, 2]);
    assert_eq!(shape.labels.len(), 2);
    assert!(shape.is_simple());
    let looped = chelone::shape::Shape::of(&graph_of("<a> <p> <a> , <b> . <b> <p> <a> ."));
    assert_eq!(looped.nodes.len(), 2);
    assert_eq!(looped.from, vec![0, 0, 1]);
    assert_eq!(looped.to, vec![0, 1, 0]);
    assert!(looped.is_simple());
}

#[test]
fn shared_terms_are_one_node() {
    let mut a = graph_of("<a> <p> <b> ; <q> <c> . <c> <p> <a> .");
    let mut b = graph_of("<c> <p> <a> . <a> <q> <c> ; <p> <b> .");
    assert!(a.is_isomorphic(&mut b));
    let mut c = graph_of("<a> <p> <b> ; <q> <c> . <c> <p> <a> .");
    let mut d = graph_of("<a> <p> <b> ; <q> <c> . <c> <p> <b> .");
    assert!(!c.is_isomorphic(&mut d));
}

#[test]
fn parallel_edges_are_compared_by_their_number() {
    let parallel = chelone::shape::Shape::of(&graph_of("<a> <p> <b> ; <q> <b> ."));
    assert!(!parallel.is_simple());
    let mut a = graph_of("<a> <p> <b> ; <q> <b> .");
    let mut b = graph_of("<a> <q> <b> ; <p> <b> .");
    assert!(a.is_isomorphic(&mut b));
    let mut c = graph_of("<a> <p> <b> ; <q> <b> .");
    let mut d = graph_of("<a> <p> <b> ; <p> <b> .");
    assert!(!c.is_isomorphic(&mut d));
    let mut e = graph_of("<a> <p> <b> , <b> . <a> <q> <b> .");
    let mut f = graph_of("<a> <q> <b> . <a> <p> <b> . <a> <p> <b> .");
    assert!(e.is_isomorphic(&mut f));
    let mut g = graph_of("<a> <p> <b> , <b> . <a> <q> <b> .");
    let mut h = graph_of("<a> <q> <b> , <b> . <a> <p> <b> .");
    assert!(!g.is_isomorphic(&mut h));
    let mut i = graph_of("_:x <p> <b> ; <q> <b> .");
    let mut j = graph_of("_:y <q> <b> ; <p> <b> .");
    assert!(i.is_isomorphic(&mut j));
}

#[test]
fn same_shape_agrees_with_the_matcher() {
    let a = graph_of("<a> <p> <b> ; <q> <c> . <c> <p> <a> .");
    let b = graph_of("<c> <p> <a> . <a> <q> <c> ; <p> <b> .");
    let c = graph_of("<a> <p> <b> ; <q> <c> . <c> <p> <b> .");
    let (sa, sb, sc) = (
        chelone::shape::Shape::of(&a),
        chelone::shape::Shape::of(&b),
        chelone::shape::Shape::of(&c),
    );
    assert!(chelone::shape::same_shape(&sa, &sb));
    assert!(!chelone::shape::same_shape(&sa, &sc));
    assert_eq!(sa.count(0, 1, &chelone::iri::Iri::parse("http://e/p").unwrap()), 1);
    assert_eq!(sa.count(0, 1, &chelone::iri::Iri::parse("http://e/q").unwrap()), 0);
}

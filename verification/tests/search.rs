use chelone::graph::Graph;
use chelone::iri::Iri;
use chelone::object::Object;
use chelone::subject::Subject;
use chelone::triple::{TripleSearcher, Triples};

fn sample() -> Triples {
    let mut graph = Graph::new("<s> <p> <o> , <o2> ; <q> <o> . <t> <p> <o> .")
        .expect("the grammar accepts the source");
    graph.set_base(Iri::parse("http://e/").expect("the base is absolute"));
    graph.try_parse().expect("the tokens can be read")
}

#[test]
fn empty_searcher_finds_the_first_and_all() {
    let triples = sample();
    let first = TripleSearcher::new().execute(&triples).expect("there are triples");
    assert_eq!(first, triples.0[0]);
    assert_eq!(TripleSearcher::new().execute_multiple(&triples).len(), 4);
    assert!(TripleSearcher::new().execute(&Triples::new()).is_none());
}

#[test]
fn search_by_each_term() {
    let triples = sample();
    let s = Subject::Iri(Iri::parse("http://e/t").unwrap());
    let p = Iri::parse("http://e/q").unwrap();
    let o = Object::Iri(Iri::parse("http://e/o").unwrap());
    let by_subject = TripleSearcher::new().subject(&s).execute_multiple(&triples);
    assert_eq!(by_subject.len(), 1);
    assert_eq!(by_subject[0].to_string(), "<http://e/t> <http://e/p> <http://e/o> .");
    let by_predicate = TripleSearcher::new().predicate(&p).execute(&triples).unwrap();
    assert_eq!(by_predicate.to_string(), "<http://e/s> <http://e/q> <http://e/o> .");
    let by_object = TripleSearcher::new().object(&o).execute_multiple(&triples);
    assert_eq!(by_object.len(), 3);
    let both = TripleSearcher::new().subject(&s).predicate(&p).execute(&triples);
    assert!(both.is_none());
    let all = TripleSearcher::new().subject(&s).object(&o).execute_multiple(&triples);
    assert_eq!(all.len(), 1);
}

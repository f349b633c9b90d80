use chelone::iri::{BlankNode, Iri};
use chelone::literal::Literal;
use chelone::object::Object;
use chelone::subject::Subject;
use chelone::triple::Triple;
use chelone::vocab::{iri_of, Term};

#[test]
fn iri_parse_keeps_absolute_text() {
    let iri = Iri::parse("http://example.org/a#b").unwrap();
    assert_eq!(iri.as_str(), "http://example.org/a#b");
    assert!(iri.had_fragment());
    assert_eq!(iri.to_string(), "<http://example.org/a#b>");
    assert!(!Iri::parse("http://example.org/a").unwrap().had_fragment());
}

#[test]
fn iri_parse_rejects_relative_text() {
    assert!(Iri::parse("a/b").is_err());
    assert!(Iri::parse_with_base_iri("a/b", None).is_err());
    assert_eq!(Iri::parse("a/b").unwrap_err().reason, "relative URL without a base");
}

#[test]
fn iri_parse_gives_the_resolved_form() {
    let iri = Iri::parse("HTTP://Example.ORG/a/../b").unwrap();
    assert_eq!(iri.as_str(), "http://example.org/b");
}

#[test]
fn iri_parse_with_base_resolves() {
    let base = Iri::parse("http://example.org/dir/file").unwrap();
    let iri = Iri::parse_with_base_iri("other", Some(&base)).unwrap();
    assert_eq!(iri.as_str(), "http://example.org/dir/other");
    let up = Iri::parse_with_base_iri("../x#y", Some(&base)).unwrap();
    assert_eq!(up.as_str(), "http://example.org/x#y");
    assert!(up.had_fragment());
    let absolute = Iri::parse_with_base_iri("http://other.example/", Some(&base)).unwrap();
    assert_eq!(absolute.as_str(), "http://other.example/");
}

#[test]
fn iri_join_replaces_fragment_or_path() {
    let with_fragment = Iri::parse("file:///tests/manifest.ttl#").unwrap();
    let joined = with_fragment.join("name").unwrap();
    assert_eq!(joined.as_str(), "file:///tests/manifest.ttl#name");
    assert!(!joined.had_fragment());
    let plain = Iri::parse("http://example.org/dir/file").unwrap();
    let joined = plain.join("other").unwrap();
    assert_eq!(joined.as_str(), "http://example.org/dir/other");
    assert!(!joined.had_fragment());
}

#[test]
fn second_join_is_a_path_join() {
    let first = Iri::parse("http://e/x#a").unwrap().join("b").unwrap();
    assert_eq!(first.as_str(), "http://e/x#b");
    assert!(!first.had_fragment());
    assert_eq!(first.join("c").unwrap(), Iri::parse("http://e/c").unwrap());
}

#[test]
fn defaults_are_empty() {
    assert_eq!(BlankNode::default(), BlankNode(String::new()));
    assert_eq!(chelone::triple::Triples::default().len(), 0);
    let triples = chelone::triple::Triples(vec![Triple::new(
        Subject::BlankNode(BlankNode::default()),
        Iri::parse("http://e/p").unwrap(),
        Object::BlankNode(BlankNode::default()),
    )]);
    let found = chelone::triple::TripleSearcher::default().execute(&triples);
    assert_eq!(found, Some(triples[0].clone()));
}

#[test]
fn iri_equality_is_on_the_text() {
    let a = Iri::parse("http://example.org/a#b").unwrap();
    let b = Iri::parse("http://example.org/a").unwrap().join("#b").unwrap();
    assert_eq!(a.as_str(), b.as_str());
    assert_eq!(a, b);
    assert_ne!(a, Iri::parse("http://example.org/a#c").unwrap());
}

#[test]
fn vocabulary_is_what_the_resolver_gives() {
    let terms = [
        Term::Type,
        Term::Nil,
        Term::First,
        Term::Rest,
        Term::LangString,
        Term::String,
        Term::Boolean,
        Term::Double,
        Term::Decimal,
        Term::Integer,
    ];
    for term in terms {
        let iri = iri_of(term);
        let parsed = Iri::parse(iri.as_str()).unwrap();
        assert_eq!(parsed.as_str(), iri.as_str());
        assert_eq!(parsed.had_fragment(), iri.had_fragment());
    }
    assert_eq!(iri_of(Term::Type).as_str(), "http://www.w3.org/1999/02/22-rdf-syntax-ns#type");
    assert_eq!(iri_of(Term::Integer).as_str(), "http://www.w3.org/2001/XMLSchema#integer");
}

#[test]
fn literal_datatype_rules() {
    let plain = Literal::new(String::from("x"), None, None);
    assert_eq!(plain.iri.as_str(), "http://www.w3.org/2001/XMLSchema#string");
    let tagged = Literal::new(String::from("x"), Some(String::from("en")), None);
    assert_eq!(tagged.iri.as_str(), "http://www.w3.org/1999/02/22-rdf-syntax-ns#langString");
    let typed = Literal::new(
        String::from("x"),
        Some(String::from("en")),
        Some(Iri::parse("http://example.org/t").unwrap()),
    );
    assert_eq!(typed.iri.as_str(), "http://example.org/t");
    assert_eq!(Literal::new_bool(String::from("true")).iri, iri_of(Term::Boolean));
    assert_eq!(Literal::new_double(String::from("1e0")).iri, iri_of(Term::Double));
    assert_eq!(Literal::new_decimal(String::from("1.0")).iri, iri_of(Term::Decimal));
    assert_eq!(Literal::new_integer(String::from("1")).iri, iri_of(Term::Integer));
}

#[test]
fn display_forms() {
    let tagged = Literal::new(String::from("chat"), Some(String::from("fr")), None);
    assert_eq!(
        tagged.to_string(),
        "\"chat\"@fr^^<http://www.w3.org/1999/02/22-rdf-syntax-ns#langString>"
    );
    let node = BlankNode(String::from("b7"));
    assert_eq!(node.to_string(), "_:b7");
    let triple = Triple::new(
        Subject::BlankNode(node.clone()),
        Iri::parse("http://example.org/p").unwrap(),
        Object::Literal(Literal::new_integer(String::from("5"))),
    );
    assert_eq!(
        triple.to_string(),
        "_:b7 <http://example.org/p> \"5\"^^<http://www.w3.org/2001/XMLSchema#integer> ."
    );
}

#[test]
fn term_conversions() {
    let node = BlankNode(String::from("n"));
    let subject = Subject::BlankNode(node.clone());
    assert!(subject.is_blank_node());
    assert_eq!(subject.as_object(), Object::BlankNode(node.clone()));
    assert_eq!(subject.clone().into_blank_node(), Some(node.clone()));
    let iri = Iri::parse("http://example.org/p").unwrap();
    assert!(!Subject::Iri(iri.clone()).is_blank_node());
    assert_eq!(Subject::Iri(iri.clone()).into_blank_node(), None);
    assert!(Object::BlankNode(node.clone()).is_blank_node());
    assert!(!Object::Iri(iri.clone()).is_blank_node());
    assert_eq!(Object::Iri(iri.clone()).to_subject(), Subject::Iri(iri.clone()));
    assert_eq!(Object::BlankNode(node.clone()).to_subject(), subject);
    assert_eq!(Object::Iri(iri).into_blank_node(), None);
}

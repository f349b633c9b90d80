use chelone::graph::Graph;
use chelone::iri::Iri;
use chelone::object::Object;
use chelone::parser::{Rule, Token};
use chelone::subject::Subject;
use chelone::translate::ParseFailure;
use chelone::triple::{Triple, Triples};

const RDF: &str = "http://www.w3.org/1999/02/22-rdf-syntax-ns#";
const XSD: &str = "http://www.w3.org/2001/XMLSchema#";

fn read(source: &str, base: Option<&str>) -> Triples {
    let mut graph = Graph::new(source).expect("the grammar accepts the source");
    if let Some(base) = base {
        graph.set_base(Iri::parse(base).expect("the base is absolute"));
    }
    graph.try_parse().expect("the tokens can be read")
}

fn failure(source: &str) -> ParseFailure {
    let graph = Graph::new(source).expect("the grammar accepts the source");
    graph.try_parse().expect_err("the tokens cannot be read")
}

fn subject_text(triple: &Triple) -> String {
    triple.subject.to_string()
}

fn object_text(triple: &Triple) -> String {
    triple.object.to_string()
}

fn rdf(local: &str) -> String {
    format!("<{}{}>", RDF, local)
}

#[test]
fn absolute_iris_are_kept() {
    let triples = read("<http://a.example/s> <http://a.example/p> <http://a.example/o> .", None);
    assert_eq!(triples.len(), 1);
    let t = &triples.0[0];
    assert_eq!(t.subject, Subject::Iri(Iri::parse("http://a.example/s").unwrap()));
    assert_eq!(t.predicate, Iri::parse("http://a.example/p").unwrap());
    assert_eq!(t.object, Object::Iri(Iri::parse("http://a.example/o").unwrap()));
    assert_eq!(t.predicate.as_str(), "http://a.example/p");
}

#[test]
fn relative_iris_need_a_base() {
    assert_eq!(failure("<a> <b> <c> ."), ParseFailure::InvalidIri);
    let triples = read("<a> <b> <c> .", Some("http://e/"));
    assert_eq!(triples.len(), 1);
    assert_eq!(triples.0[0].to_string(), "<http://e/a> <http://e/b> <http://e/c> .");
}

#[test]
fn default_prefix_expands() {
    let triples = read("@prefix : <http://x/> . :a :b :c .", None);
    assert_eq!(triples.len(), 1);
    assert_eq!(triples.0[0].to_string(), "<http://x/a> <http://x/b> <http://x/c> .");
}

#[test]
fn base_directive_and_type_keyword() {
    let triples = read("@base <http://e/> . <#a> a <#b> .", None);
    assert_eq!(triples.len(), 1);
    let t = &triples.0[0];
    assert_eq!(subject_text(t), "<http://e/#a>");
    assert_eq!(t.predicate.to_string(), rdf("type"));
    assert_eq!(object_text(t), "<http://e/#b>");
}

#[test]
fn collection_of_two() {
    let triples = read("<s> <p> ( <a> <b> ) .", Some("http://e/"));
    assert_eq!(triples.len(), 5);
    let lines: Vec<String> = triples.0.iter().map(|t| t.to_string()).collect();
    assert!(lines.contains(&String::from("<http://e/s> <http://e/p> _:b1 .")));
    assert!(lines.contains(&format!("_:b1 {} <http://e/a> .", rdf("first"))));
    assert!(lines.contains(&format!("_:b1 {} _:b2 .", rdf("rest"))));
    assert!(lines.contains(&format!("_:b2 {} <http://e/b> .", rdf("first"))));
    assert!(lines.contains(&format!("_:b2 {} {} .", rdf("rest"), rdf("nil"))));
}

#[test]
fn property_list_as_subject() {
    let triples = read("[ <p> <o> ] <q> <r> .", Some("http://e/"));
    assert_eq!(triples.len(), 2);
    assert_eq!(triples.0[0].to_string(), "_:b1 <http://e/p> <http://e/o> .");
    assert_eq!(triples.0[1].to_string(), "_:b1 <http://e/q> <http://e/r> .");
}

#[test]
fn numbers_keep_their_lexical_form() {
    let triples = read("<s> <p> 1 , 1.5e10 , -2.5 .", Some("http://e/"));
    assert_eq!(triples.len(), 3);
    assert_eq!(object_text(&triples.0[0]), format!("\"1\"^^<{}integer>", XSD));
    assert_eq!(object_text(&triples.0[1]), format!("\"1.5e10\"^^<{}double>", XSD));
    assert_eq!(object_text(&triples.0[2]), format!("\"-2.5\"^^<{}decimal>", XSD));
}

#[test]
fn strings_and_escapes() {
    let triples = read(
        "<s> <p> \"a\\tb\\n\\\"q\\\" \\u00e9\\U0001F600\" , 'single' , \"\"\"long \"one\"\nline\"\"\" , '''it's''' , \"\" .",
        Some("http://e/"),
    );
    assert_eq!(triples.len(), 5);
    let values: Vec<String> = triples
        .0
        .iter()
        .map(|t| match &t.object {
            Object::Literal(l) => l.value.clone(),
            _ => unreachable!(),
        })
        .collect();
    assert_eq!(values[0], "a\tb\n\"q\" \u{e9}\u{1F600}");
    assert_eq!(values[1], "single");
    assert_eq!(values[2], "long \"one\"\nline");
    assert_eq!(values[3], "it's");
    assert_eq!(values[4], "");
}

#[test]
fn language_tags_and_datatypes() {
    let triples = read(
        "@prefix xsd: <http://www.w3.org/2001/XMLSchema#> . <s> <p> \"chat\"@fr-BE , \"5\"^^xsd:byte , \"x\"^^<http://t/> , true , false .",
        Some("http://e/"),
    );
    assert_eq!(triples.len(), 5);
    assert_eq!(
        object_text(&triples.0[0]),
        format!("\"chat\"@fr-BE^^<{}langString>", RDF)
    );
    assert_eq!(object_text(&triples.0[1]), format!("\"5\"^^<{}byte>", XSD));
    assert_eq!(object_text(&triples.0[2]), "\"x\"^^<http://t/>");
    assert_eq!(object_text(&triples.0[3]), format!("\"true\"^^<{}boolean>", XSD));
    assert_eq!(object_text(&triples.0[4]), format!("\"false\"^^<{}boolean>", XSD));
}

#[test]
fn prefixed_names_with_escapes() {
    let triples = read(
        "@prefix ex: <http://x/ns#> . PREFIX o: <http://o/> ex:a\\,b ex:p o:c%20d , ex: .",
        None,
    );
    assert_eq!(triples.len(), 2);
    assert_eq!(subject_text(&triples.0[0]), "<http://x/ns#a,b>");
    assert_eq!(triples.0[0].predicate.as_str(), "http://x/ns#p");
    assert_eq!(object_text(&triples.0[0]), "<http://o/c%20d>");
    assert_eq!(object_text(&triples.0[1]), "<http://x/ns#>");
}

#[test]
fn undefined_prefix_is_a_failure() {
    assert_eq!(failure("ex:a ex:b ex:c ."), ParseFailure::UndefinedPrefix);
}

#[test]
fn escape_without_a_character_is_a_failure() {
    assert_eq!(
        failure("<http://a/> <http://b/> \"\\uD800\" ."),
        ParseFailure::InvalidEscape
    );
}

#[test]
fn semicolons_and_commas_reuse_context() {
    let triples = read("<s> <p> <a> , <b> ; <q> <c> ; . <t> a <u> .", Some("http://e/"));
    let lines: Vec<String> = triples.0.iter().map(|t| t.to_string()).collect();
    assert_eq!(
        lines,
        vec![
            String::from("<http://e/s> <http://e/p> <http://e/a> ."),
            String::from("<http://e/s> <http://e/p> <http://e/b> ."),
            String::from("<http://e/s> <http://e/q> <http://e/c> ."),
            format!("<http://e/t> {} <http://e/u> .", rdf("type")),
        ]
    );
}

#[test]
fn empty_collection_is_nil() {
    let triples = read("<s> <p> ( ) .", Some("http://e/"));
    assert_eq!(triples.len(), 1);
    assert_eq!(
        triples.0[0].to_string(),
        format!("<http://e/s> <http://e/p> {} .", rdf("nil"))
    );
}

#[test]
fn collection_emits_two_triples_for_each_element() {
    let triples = read("<s> <p> ( 1 2 3 ) .", Some("http://e/"));
    assert_eq!(triples.len(), 7);
    let first = triples.0.iter().filter(|t| t.predicate.to_string() == rdf("first")).count();
    let rest = triples.0.iter().filter(|t| t.predicate.to_string() == rdf("rest")).count();
    assert_eq!(first, 3);
    assert_eq!(rest, 3);
    assert_eq!(triples.0[5].to_string(), format!("_:b3 {} {} .", rdf("rest"), rdf("nil")));
    assert_eq!(triples.0[6].to_string(), "<http://e/s> <http://e/p> _:b1 .");
}

#[test]
fn nested_constructs_restore_context() {
    let triples = read(
        "<s> <p> [ <q> ( <a> [ <r> <b> ] ) ; <t> <c> ] , <d> .",
        Some("http://e/"),
    );
    let lines: Vec<String> = triples.0.iter().map(|t| t.to_string()).collect();
    assert_eq!(
        lines,
        vec![
            format!("_:b2 {} <http://e/a> .", rdf("first")),
            format!("_:b2 {} _:b3 .", rdf("rest")),
            String::from("_:b4 <http://e/r> <http://e/b> ."),
            format!("_:b3 {} _:b4 .", rdf("first")),
            format!("_:b3 {} {} .", rdf("rest"), rdf("nil")),
            String::from("_:b1 <http://e/q> _:b2 ."),
            String::from("_:b1 <http://e/t> <http://e/c> ."),
            String::from("<http://e/s> <http://e/p> _:b1 ."),
            String::from("<http://e/s> <http://e/p> <http://e/d> ."),
        ]
    );
}

#[test]
fn property_list_as_object() {
    let triples = read("<s> <p> [ <q> <o> ] .", Some("http://e/"));
    assert_eq!(triples.len(), 2);
    assert_eq!(triples.0[0].to_string(), "_:b1 <http://e/q> <http://e/o> .");
    assert_eq!(triples.0[1].to_string(), "<http://e/s> <http://e/p> _:b1 .");
}

#[test]
fn blank_node_labels_and_anonymous_nodes() {
    let triples = read("_:x <p> [] . [] <p> _:y.z .", Some("http://e/"));
    assert_eq!(triples.len(), 2);
    assert_eq!(triples.0[0].to_string(), "_:x <http://e/p> _:b1 .");
    assert_eq!(triples.0[1].to_string(), "_:b2 <http://e/p> _:y.z .");
}

#[test]
fn fresh_labels_avoid_prefix_names() {
    let triples = read("@prefix b1: <http://x/> . <s> <p> [] .", Some("http://e/"));
    assert_eq!(triples.0[0].to_string(), "<http://e/s> <http://e/p> _:b2 .");
}

#[test]
fn collection_as_subject() {
    let triples = read("( <a> ) <p> <o> .", Some("http://e/"));
    assert_eq!(triples.len(), 3);
    assert_eq!(triples.0[2].to_string(), "_:b1 <http://e/p> <http://e/o> .");
}

#[test]
fn empty_iri_reference_is_the_base() {
    let triples = read("@base <http://e/doc#frag> . <> <p> <> .", None);
    assert_eq!(subject_text(&triples.0[0]), "<http://e/doc#frag>");
    assert_eq!(object_text(&triples.0[0]), "<http://e/doc#frag>");
    assert_eq!(failure("<> <http://p/> <http://o/> ."), ParseFailure::InvalidIri);
}

#[test]
fn iri_escapes_are_decoded() {
    let triples = read("<http://e/\\u0041\\U00000042c> <http://e/p> <http://e/o> .", None);
    assert_eq!(subject_text(&triples.0[0]), "<http://e/ABc>");
}

#[test]
fn sparql_base_and_later_redefinition() {
    let triples = read("BASE <http://one/> <a> <b> <c> . base <http://two/> <a> <b> <c> .", None);
    assert_eq!(triples.0[0].to_string(), "<http://one/a> <http://one/b> <http://one/c> .");
    assert_eq!(triples.0[1].to_string(), "<http://two/a> <http://two/b> <http://two/c> .");
}

#[test]
fn parse_gives_the_triples_of_a_readable_document() {
    let graph = Graph::new("<http://s/> <http://p/> <http://o/> .").unwrap();
    let triples = graph.parse();
    assert_eq!(triples.to_string(), "<http://s/> <http://p/> <http://o/> .\n");
}

#[test]
fn empty_document_has_no_triples() {
    assert_eq!(read("", None).len(), 0);
    assert_eq!(read("# nothing here\n", None).len(), 0);
}

fn token(rule: Rule, start: usize, end: usize) -> Token {
    Token { rule, start, end }
}

#[test]
fn tokens_of_another_tokenizer_can_be_read() {
    let source = "<http://s/> a <http://o/>";
    let tokens = vec![
        token(Rule::turtleDoc, 0, 25),
        token(Rule::statement, 0, 25),
        token(Rule::triples, 0, 25),
        token(Rule::subject, 0, 11),
        token(Rule::iri, 0, 11),
        token(Rule::IRIREF, 0, 11),
        token(Rule::IRI_VALUE, 1, 10),
        token(Rule::predicateObjectList, 12, 25),
        token(Rule::verb, 12, 13),
        token(Rule::objectList, 14, 25),
        token(Rule::object, 14, 25),
        token(Rule::iri, 14, 25),
        token(Rule::IRIREF, 14, 25),
        token(Rule::IRI_VALUE, 15, 24),
    ];
    let graph = Graph::with_tokens(source, tokens).expect("the tokens lie in the source");
    let triples = graph.try_parse().unwrap();
    assert_eq!(triples.to_string(), format!("<http://s/> {} <http://o/> .\n", rdf("type")));
}

#[test]
fn tokens_outside_the_source_are_refused() {
    assert!(Graph::with_tokens("abc", vec![token(Rule::turtleDoc, 0, 4)]).is_none());
    assert!(Graph::with_tokens("abc", vec![token(Rule::turtleDoc, 2, 1)]).is_none());
    assert!(Graph::with_tokens("abc", vec![token(Rule::turtleDoc, 0, 3)]).is_some());
    assert!(Graph::with_tokens("", Vec::new()).is_some());
}

#[test]
fn misplaced_and_missing_tokens_are_failures() {
    let misplaced = vec![token(Rule::turtleDoc, 0, 1), token(Rule::verb, 0, 1)];
    let graph = Graph::with_tokens("a", misplaced).unwrap();
    assert_eq!(graph.try_parse().unwrap_err(), ParseFailure::UnexpectedToken);
    let missing = vec![token(Rule::turtleDoc, 0, 1), token(Rule::statement, 0, 1)];
    let graph = Graph::with_tokens("a", missing).unwrap();
    assert_eq!(graph.try_parse().unwrap_err(), ParseFailure::UnexpectedEnd);
    let graph = Graph::with_tokens("", Vec::new()).unwrap();
    assert_eq!(graph.try_parse().unwrap().len(), 0);
}

#[test]
fn long_escape_is_a_failure() {
    let source = "<s> <p> \"x\" .";
    let mut tokens = vec![
        token(Rule::turtleDoc, 0, 13),
        token(Rule::statement, 0, 13),
        token(Rule::triples, 0, 11),
        token(Rule::subject, 0, 3),
        token(Rule::iri, 0, 3),
        token(Rule::IRIREF, 0, 3),
        token(Rule::UCHAR, 1, 2),
    ];
    for _ in 0..9 {
        tokens.push(token(Rule::HEX, 9, 10));
    }
    let graph = Graph::with_tokens(source, tokens).unwrap();
    assert_eq!(graph.try_parse().unwrap_err(), ParseFailure::InvalidEscape);
}

#[test]
fn blank_node_labels_count_in_decimal() {
    let triples = read(
        "<s> <p> [] , [] , [] , [] , [] , [] , [] , [] , [] , [] , [] , [] .",
        Some("http://e/"),
    );
    assert_eq!(triples.len(), 12);
    assert_eq!(object_text(&triples[8]), "_:b9");
    assert_eq!(object_text(&triples[9]), "_:b10");
    assert_eq!(object_text(&triples[11]), "_:b12");
    assert_eq!(triples.iter().filter(|t| t.object.is_blank_node()).count(), 12);
}

#[test]
fn comments_and_white_space_are_passed_over() {
    let triples = read(
        "# head\n@base <http://e/> . # base\n<s>\n\t<p> # verb\n <o#kept>#dropped\n;\n <q>\t\"v\" .\n# tail",
        None,
    );
    let lines: Vec<String> = triples.iter().map(|t| t.to_string()).collect();
    assert_eq!(
        lines,
        vec![
            String::from("<http://e/s> <http://e/p> <http://e/o#kept> ."),
            format!("<http://e/s> <http://e/q> \"v\"^^<{}string> .", XSD),
        ]
    );
}

use chelone::graph::Graph;
use chelone::parser::{GrammarError, Rule, Token, TurtleParser};

fn labels(source: &str) -> Vec<Rule> {
    TurtleParser::parse(Rule::turtleDoc, source)
        .expect("the grammar accepts the source")
        .iter()
        .map(|t| t.rule)
        .collect()
}

#[test]
fn is_string_value_holds_of_the_four_kinds() {
    assert!(Rule::STRING_VALUE.is_string_value());
    assert!(Rule::SINGLE_STRING_VALUE.is_string_value());
    assert!(Rule::LONG_STRING_VALUE.is_string_value());
    assert!(Rule::SINGLE_LONG_STRING_VALUE.is_string_value());
    assert!(!Rule::STRING.is_string_value());
    assert!(!Rule::ECHAR.is_string_value());
    assert!(!Rule::IRI_VALUE.is_string_value());
}

#[test]
fn tokens_of_a_simple_statement() {
    let tokens = TurtleParser::parse(Rule::turtleDoc, "<a> <b> <c> .").unwrap();
    let expected = vec![
        Token { rule: Rule::turtleDoc, start: 0, end: 13 },
        Token { rule: Rule::statement, start: 0, end: 13 },
        Token { rule: Rule::triples, start: 0, end: 11 },
        Token { rule: Rule::subject, start: 0, end: 3 },
        Token { rule: Rule::iri, start: 0, end: 3 },
        Token { rule: Rule::IRIREF, start: 0, end: 3 },
        Token { rule: Rule::IRI_VALUE, start: 1, end: 2 },
        Token { rule: Rule::predicateObjectList, start: 4, end: 11 },
        Token { rule: Rule::verb, start: 4, end: 7 },
        Token { rule: Rule::iri, start: 4, end: 7 },
        Token { rule: Rule::IRIREF, start: 4, end: 7 },
        Token { rule: Rule::IRI_VALUE, start: 5, end: 6 },
        Token { rule: Rule::objectList, start: 8, end: 11 },
        Token { rule: Rule::object, start: 8, end: 11 },
        Token { rule: Rule::iri, start: 8, end: 11 },
        Token { rule: Rule::IRIREF, start: 8, end: 11 },
        Token { rule: Rule::IRI_VALUE, start: 9, end: 10 },
        Token { rule: Rule::EOI, start: 13, end: 13 },
    ];
    assert_eq!(tokens, expected);
}

#[test]
fn empty_document_has_two_tokens() {
    assert_eq!(labels(""), vec![Rule::turtleDoc, Rule::EOI]);
    assert_eq!(labels("  # only a comment\n"), vec![Rule::turtleDoc, Rule::EOI]);
}

#[test]
fn grammar_rejects_what_is_no_turtle() {
    assert_eq!(
        TurtleParser::parse(Rule::turtleDoc, "<a> <b> ."),
        Err(GrammarError { rule: Rule::turtleDoc })
    );
    assert!(TurtleParser::parse(Rule::turtleDoc, "<a> <b> <c>").is_err());
    assert!(TurtleParser::parse(Rule::turtleDoc, "<a> \"lit\" <c> .").is_err());
    assert!(TurtleParser::parse(Rule::turtleDoc, "<a> <b> \"open .").is_err());
    assert!(TurtleParser::parse(Rule::turtleDoc, "@prefix p <http://x/> .").is_err());
    assert!(Graph::new("<a> <b> ( .").is_err());
}

#[test]
fn other_productions_can_be_asked_for() {
    let tokens = TurtleParser::parse(Rule::INTEGER, "-42").unwrap();
    assert_eq!(tokens, vec![Token { rule: Rule::INTEGER, start: 0, end: 3 }]);
    assert!(TurtleParser::parse(Rule::INTEGER, "x").is_err());
    let tokens = TurtleParser::parse(Rule::PNAME_LN, "ex:a.b").unwrap();
    assert_eq!(
        tokens,
        vec![
            Token { rule: Rule::PNAME_LN, start: 0, end: 6 },
            Token { rule: Rule::PNAME_NS, start: 0, end: 3 },
            Token { rule: Rule::PN_LOCAL, start: 3, end: 6 },
        ]
    );
}

#[test]
fn strings_are_split_into_pieces() {
    assert_eq!(
        labels("<s> <p> \"a\\nb\\u0041\" .")[13..],
        [
            Rule::object,
            Rule::literal,
            Rule::RDFLiteral,
            Rule::STRING,
            Rule::STRING_VALUE,
            Rule::STRING_VALUE,
            Rule::ECHAR,
            Rule::STRING_VALUE,
            Rule::STRING_VALUE,
            Rule::UCHAR,
            Rule::HEX,
            Rule::HEX,
            Rule::HEX,
            Rule::HEX,
            Rule::EOI,
        ]
    );
}

#[test]
fn spans_are_counted_in_bytes() {
    let source = "<http://e/\u{e9}> <http://e/p> \"\u{1F600}\u{fc}\" .";
    let tokens = TurtleParser::parse(Rule::turtleDoc, source).unwrap();
    let text = |t: &Token| &source[t.start..t.end];
    assert_eq!(tokens[0], Token { rule: Rule::turtleDoc, start: 0, end: source.len() });
    let values: Vec<&str> =
        tokens.iter().filter(|t| t.rule == Rule::IRI_VALUE).map(|t| text(t)).collect();
    assert_eq!(values, vec!["http://e/\u{e9}", "http://e/p"]);
    let piece = tokens.iter().find(|t| t.rule == Rule::STRING_VALUE).unwrap();
    assert_eq!(text(piece), "\u{1F600}\u{fc}");
    assert_eq!(piece.end - piece.start, 6);
    let graph = Graph::with_tokens(source, tokens).expect("the tokens lie between characters");
    let triples = graph.try_parse().unwrap();
    assert_eq!(
        triples.to_string(),
        "<http://e/%C3%A9> <http://e/p> \"\u{1F600}\u{fc}\"^^<http://www.w3.org/2001/XMLSchema#string> .\n"
    );
}

#[test]
fn tokens_inside_a_character_are_refused() {
    let source = "\u{e9}x";
    assert!(Graph::with_tokens(source, vec![Token { rule: Rule::turtleDoc, start: 0, end: 3 }]).is_some());
    assert!(Graph::with_tokens(source, vec![Token { rule: Rule::turtleDoc, start: 0, end: 2 }]).is_some());
    assert!(Graph::with_tokens(source, vec![Token { rule: Rule::turtleDoc, start: 0, end: 1 }]).is_none());
    assert!(Graph::with_tokens(source, vec![Token { rule: Rule::turtleDoc, start: 1, end: 3 }]).is_none());
    assert!(Graph::with_tokens(source, vec![Token { rule: Rule::turtleDoc, start: 3, end: 2 }]).is_none());
    assert!(Graph::with_tokens(source, vec![Token { rule: Rule::turtleDoc, start: 0, end: 4 }]).is_none());
}

//! The labels of Turtle's grammar and the tokens that carry them.

use vstd::prelude::*;
use crate::grammar::TOP;
use crate::peg::{run, try_match, Peg};
use crate::spans::{in_bytes, to_bytes};
use crate::text::chars_of;

verus! {

/// The label of a token: the production of the grammar that matched.
#[allow(non_camel_case_types)]
#[derive(Clone, Copy, Debug, PartialEq, Eq, Structural, Hash)]
pub enum Rule {
    turtleDoc,
    statement,
    directive,
    prefixID,
    sparqlPrefix,
    base,
    sparqlBase,
    triples,
    predicateObjectList,
    objectList,
    verb,
    subject,
    object,
    literal,
    RDFLiteral,
    NumericLiteral,
    BooleanLiteral,
    STRING,
    SINGLE_STRING_VALUE,
    SINGLE_LONG_STRING_VALUE,
    STRING_VALUE,
    LONG_STRING_VALUE,
    INTEGER,
    DECIMAL,
    DOUBLE,
    EXPONENT,
    LANGTAG,
    iri,
    IRIREF,
    IRI_VALUE,
    PrefixedName,
    PNAME_LN,
    PNAME_NS,
    PN_LOCAL,
    PN_LOCAL_ESC,
    BlankNode,
    BLANK_NODE_LABEL,
    ANON,
    collection,
    blankNodePropertyList,
    ECHAR,
    UCHAR,
    HEX,
    EOI,
}

/// Whether a label marks a piece of a string's content, in any of the
/// four quoting forms.
pub open spec fn string_value(rule: Rule) -> bool {
    rule == Rule::STRING_VALUE || rule == Rule::SINGLE_STRING_VALUE
        || rule == Rule::SINGLE_LONG_STRING_VALUE || rule == Rule::LONG_STRING_VALUE
}

impl Rule {
    /// Whether the label marks a piece of a string's content.
    pub fn is_string_value(self) -> (r: bool)
        ensures
            r == string_value(self),
    {
        match self {
            Rule::STRING_VALUE
            | Rule::SINGLE_STRING_VALUE
            | Rule::SINGLE_LONG_STRING_VALUE
            | Rule::LONG_STRING_VALUE => true,
            _ => false,
        }
    }
}

/// One match of a production: its label and the stretch `start..end` of
/// the source that it covers. What a tokenizer hands out and what a
/// reader is handed count the stretch in bytes of the source in UTF-8; a
/// [`Document`] counts it in characters. A token comes before the tokens
/// of the productions matched inside it.
#[derive(Clone, Copy, Debug, PartialEq, Eq, Structural)]
pub struct Token {
    pub rule: Rule,
    pub start: usize,
    pub end: usize,
}

/// A source text with the tokens found in it, each over a stretch
/// counted in characters.
pub struct Document {
    pub source: Seq<char>,
    pub tokens: Seq<Token>,
}

impl Document {
    /// Every token covers a stretch of the source.
    pub open spec fn well_formed(self) -> bool {
        forall|i: int|
            0 <= i < self.tokens.len() ==> (#[trigger] self.tokens[i]).start
                <= self.tokens[i].end <= self.source.len()
    }

    /// The label of the token at `pos`, where there is one.
    pub open spec fn rule_at(self, pos: int) -> Option<Rule> {
        if 0 <= pos < self.tokens.len() {
            Some(self.tokens[pos].rule)
        } else {
            None
        }
    }

    /// The characters that the token at `pos` covers.
    pub open spec fn text_at(self, pos: int) -> Seq<char> {
        self.source.subrange(self.tokens[pos].start as int, self.tokens[pos].end as int)
    }

    /// Whether the token at `pos` has the label `rule` and starts before
    /// `end`: whether it is one more item of a list that ends there.
    pub open spec fn belongs(self, pos: int, rule: Rule, end: int) -> bool {
        0 <= pos < self.tokens.len() && self.tokens[pos].rule == rule && self.tokens[pos].start
            < end
    }
}

/// The tokens of the source, where the production `rule` matches at its
/// start: the token of the production first, then those of the
/// productions matched inside it, each before its own.
pub open spec fn tokens_of(rule: Rule, source: Seq<char>) -> Option<Seq<Token>> {
    match run(Peg::Call(rule), source, 0, TOP as nat) {
        Some((_, tokens)) => Some(tokens),
        None => None,
    }
}

/// The failure of a production to match a source.
#[derive(Clone, Copy, Debug, PartialEq, Eq, Structural)]
pub struct GrammarError {
    /// The production that did not match.
    pub rule: Rule,
}

/// The parser of Turtle's grammar.
#[derive(Clone, Copy, Debug)]
pub struct TurtleParser;

impl TurtleParser {
    /// The tokens of `source` for the production `rule`, each over a
    /// stretch counted in characters.
    pub(crate) fn tokens(rule: Rule, source: &Vec<char>) -> (r: Result<Vec<Token>, GrammarError>)
        ensures
            match tokens_of(rule, source@) {
                Some(tokens) => r is Ok && r->Ok_0@ == tokens && (Document {
                    source: source@,
                    tokens,
                }).well_formed(),
                None => r == Err::<Vec<Token>, GrammarError>(GrammarError { rule }),
            },
    {
        let mut out: Vec<Token> = Vec::new();
        let start = Peg::Call(rule);
        match try_match(&start, source, 0, TOP, &mut out) {
            Some(_) => {
                assert(out@ =~= (run(start, source@, 0, TOP as nat)->0).1);
                Ok(out)
            },
            None => Err(GrammarError { rule }),
        }
    }

    /// Matches `source` against the production `rule` and gives the
    /// tokens of the match, each over a stretch counted in bytes.
    pub fn parse(rule: Rule, source: &str) -> (r: Result<Vec<Token>, GrammarError>)
        ensures
            match tokens_of(rule, source@) {
                Some(tokens) => r is Ok && r->Ok_0@ == in_bytes(source@, tokens),
                None => r == Err::<Vec<Token>, GrammarError>(GrammarError { rule }),
            },
    {
        let chars = chars_of(source);
        match Self::tokens(rule, &chars) {
            Ok(tokens) => Ok(to_bytes(source, &chars, &tokens)),
            Err(e) => Err(e),
        }
    }
}

} // verus!

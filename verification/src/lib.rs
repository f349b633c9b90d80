//! Turtle documents as RDF triples, and comparison of graphs up to the
//! naming of their blank nodes.
//!
//! A document is split into tokens by [`TurtleParser`], after the
//! grammar in [`grammar`]; [`spans`] tells between a token's place in
//! bytes and in characters. A [`Graph`] walks the tokens once and states
//! the triples; [`translate`] says what the tokens mean, and [`context`]
//! and [`laws`] hold what follows from that. Two [`Triples`] are compared
//! by [`Triples::is_isomorphic`], which sorts them ([`order`]), labels
//! their blank nodes by what is stated of them ([`canon`]), lays out the
//! graph with a node for each term ([`shape`]) and matches the graphs
//! ([`isomorphism`]).

pub mod canon;
pub mod context;
pub mod grammar;
pub mod graph;
pub mod iri;
pub mod isomorphism;
pub mod laws;
pub mod literal;
pub mod object;
pub mod order;
pub mod parser;
pub mod peg;
pub mod prefixes;
pub mod shape;
pub mod spans;
pub mod subject;
pub mod text;
pub mod translate;
pub mod triple;
pub mod vocab;

pub use graph::Graph;
pub use iri::{BlankNode, Iri};
pub use parser::{Rule, Token, TurtleParser};
pub use triple::{Triple, TripleSearcher, Triples};

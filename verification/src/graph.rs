//! The reader that turns a document's tokens into triples.

use vstd::prelude::*;
use vstd::string::*;
use crate::iri::{resolved, BlankNode, Iri, IriModel};
use crate::literal::{opt_iri, opt_text, Literal};
use crate::object::Object;
use crate::parser::{tokens_of, Document, GrammarError, Rule, Token, TurtleParser};
use crate::prefixes::PrefixTable;
use crate::spans::{in_bytes, to_chars};
use crate::subject::{Subject, SubjectModel};
use crate::text::{chars_of, hex_value, push_decimal, push_slice, string_of, string_without};
use crate::translate::{
    blank_label, expect, fresh, misplaced, moved, sp_bool_literal, sp_blank_node, sp_cells,
    sp_collection, sp_datatype, sp_directive, sp_echar, sp_hex, sp_iri, sp_iri_parts, sp_iriref,
    sp_langtag, sp_literal, sp_numeric_literal, sp_object, sp_object_list, sp_objects, sp_pieces,
    sp_pname_ln, sp_pname_ns, sp_predicate_object_list, sp_prefixed_name, sp_property_list,
    sp_rdf_literal, sp_statement, sp_statements, sp_string, sp_subject, sp_triples, sp_uchar,
    sp_verb, sp_verbs, strip_at, strip_blank, strip_colon, translation, unescaped, Ctx,
    ParseFailure,
};
use crate::triple::{Triple, Triples};
use crate::vocab::{iri_of, term_iri, Term};

verus! {

/// What an optional subject stands for.
pub open spec fn opt_subject(s: Option<Subject>) -> Option<SubjectModel> {
    match s {
        Some(t) => Some(t@),
        None => None,
    }
}

/// What a sequence of subjects stands for.
pub open spec fn subject_models(v: Seq<Subject>) -> Seq<SubjectModel> {
    v.map_values(|s: Subject| s@)
}

/// What a sequence of identifiers stands for.
pub open spec fn iri_models(v: Seq<Iri>) -> Seq<IriModel> {
    v.map_values(|i: Iri| i@)
}

/// Whether `r` is the failure `e`.
pub open spec fn fails<T>(r: Result<T, ParseFailure>, e: ParseFailure) -> bool {
    r is Err && r->Err_0 == e
}

/// The label of the blank node numbered `n`.
fn label_of(n: u64) -> (s: String)
    ensures
        s@ == blank_label(n as nat),
{
    let mut s = String::new();
    s.push('b');
    push_decimal(&mut s, n);
    assert(s@ =~= blank_label(n as nat));
    s
}

/// A reader of one document: the source, its tokens, and the state of
/// the reading.
pub struct Graph {
    source: Vec<char>,
    tokens: Vec<Token>,
    pos: usize,
    base: Option<Iri>,
    blank_node_counter: u64,
    prefixes: PrefixTable,
    subject: Option<Subject>,
    predicate: Option<Iri>,
    subject_stack: Vec<Subject>,
    predicate_stack: Vec<Iri>,
    triples: Triples,
}

impl Graph {
    /// The document that is read.
    pub closed spec fn document(&self) -> Document {
        Document { source: self.source@, tokens: self.tokens@ }
    }

    /// The state of the reading.
    pub closed spec fn ctx(&self) -> Ctx {
        Ctx {
            pos: self.pos as int,
            base: opt_iri(self.base),
            counter: self.blank_node_counter as nat,
            prefixes: self.prefixes@,
            subject: opt_subject(self.subject),
            predicate: opt_iri(self.predicate),
            subject_stack: subject_models(self.subject_stack@),
            predicate_stack: iri_models(self.predicate_stack@),
            triples: self.triples@,
        }
    }

    /// The tokens lie in the source and the reading has not run past
    /// them.
    pub closed spec fn wf(&self) -> bool {
        &&& self.document().well_formed()
        &&& self.pos <= self.tokens.len()
        &&& self.prefixes.wf()
    }

    /// A reader at the start of the given tokens.
    pub(crate) fn over(source: Vec<char>, tokens: Vec<Token>) -> (g: Graph)
        requires
            (Document { source: source@, tokens: tokens@ }).well_formed(),
        ensures
            g.wf(),
            g.document() == (Document { source: source@, tokens: tokens@ }),
            g.ctx() == Ctx::initial(None),
    {
        let g = Graph {
            source,
            tokens,
            pos: 0,
            base: None,
            blank_node_counter: 0,
            prefixes: PrefixTable::new(),
            subject: None,
            predicate: None,
            subject_stack: Vec::new(),
            predicate_stack: Vec::new(),
            triples: Triples::new(),
        };
        assert(subject_models(g.subject_stack@) =~= Seq::<SubjectModel>::empty());
        assert(iri_models(g.predicate_stack@) =~= Seq::<IriModel>::empty());
        assert(g.ctx() =~~= Ctx::initial(None));
        g
    }

    /// A reader of the Turtle document `source`, where the grammar
    /// accepts it. Nothing is read yet and there is no base.
    pub fn new(source: &str) -> (r: Result<Graph, GrammarError>)
        ensures
            match tokens_of(Rule::turtleDoc, source@) {
                Some(tokens) => r is Ok && r->Ok_0.wf() && r->Ok_0.document() == (Document {
                    source: source@,
                    tokens,
                }) && r->Ok_0.ctx() == Ctx::initial(None),
                None => r is Err && r->Err_0 == (GrammarError { rule: Rule::turtleDoc }),
            },
    {
        let chars = chars_of(source);
        match TurtleParser::tokens(Rule::turtleDoc, &chars) {
            Ok(tokens) => Ok(Graph::over(chars, tokens)),
            Err(e) => Err(e),
        }
    }

    /// A reader of `source` over tokens that another tokenizer has
    /// found in it, each over a stretch counted in bytes; none where a
    /// token does not begin and end between characters of the source,
    /// or ends before it begins.
    pub fn with_tokens(source: &str, tokens: Vec<Token>) -> (r: Option<Graph>)
        ensures
            match r {
                Some(g) => g.wf() && g.document().source == source@ && in_bytes(
                    source@,
                    g.document().tokens,
                ) == tokens@ && g.ctx() == Ctx::initial(None),
                None => forall|other: Seq<Token>|
                    !((Document { source: source@, tokens: other }).well_formed()
                        && #[trigger] in_bytes(source@, other) == tokens@),
            },
    {
        let chars = chars_of(source);
        match to_chars(source, &chars, &tokens) {
            Some(found) => Some(Graph::over(chars, found)),
            None => None,
        }
    }

    /// Sets the base that relative identifiers are resolved against.
    pub fn set_base(&mut self, iri: Iri)
        ensures
            final(self).wf() == old(self).wf(),
            final(self).document() == old(self).document(),
            final(self).ctx() == (Ctx { base: Some(iri@), ..old(self).ctx() }),
    {
        self.base = Some(iri);
    }

    /// The label of the next token.
    fn peek(&self) -> (r: Option<Rule>)
        requires
            self.wf(),
        ensures
            r == self.document().rule_at(self.ctx().pos),
    {
        if self.pos < self.tokens.len() {
            Some(self.tokens[self.pos].rule)
        } else {
            None
        }
    }

    /// Whether the next token has the label `rule`.
    fn next_is(&self, rule: Rule) -> (r: bool)
        requires
            self.wf(),
        ensures
            r == (self.document().rule_at(self.ctx().pos) == Some(rule)),
    {
        self.pos < self.tokens.len() && self.tokens[self.pos].rule == rule
    }

    /// The failure for the next token, which cannot stand at its place.
    fn misplaced(&self) -> (r: ParseFailure)
        requires
            self.wf(),
        ensures
            r == misplaced(self.document(), self.ctx().pos),
    {
        if self.pos < self.tokens.len() {
            ParseFailure::UnexpectedToken
        } else {
            ParseFailure::UnexpectedEnd
        }
    }

    /// The text of the token at `at`.
    fn text(&self, at: usize) -> (s: String)
        requires
            self.wf(),
            at < self.tokens.len(),
        ensures
            s@ == self.document().text_at(at as int),
    {
        let t = self.tokens[at];
        string_of(&self.source, t.start, t.end)
    }

    /// Passes over the next token.
    fn take(&mut self)
        requires
            old(self).wf(),
            old(self).ctx().pos < old(self).document().tokens.len(),
        ensures
            final(self).wf(),
            final(self).document() == old(self).document(),
            final(self).ctx() == old(self).ctx().advance(),
    {
        self.pos = self.pos + 1;
    }

    /// Passes over the next token, which must have the label `rule`.
    fn expect(&mut self, rule: Rule) -> (r: Result<(), ParseFailure>)
        requires
            old(self).wf(),
        ensures
            final(self).wf(),
            final(self).document() == old(self).document(),
            match expect(old(self).document(), old(self).ctx(), rule) {
                Ok(c) => r is Ok && final(self).ctx() == c,
                Err(e) => fails(r, e),
            },
    {
        if self.pos >= self.tokens.len() {
            Err(ParseFailure::UnexpectedEnd)
        } else if self.tokens[self.pos].rule == rule {
            self.pos = self.pos + 1;
            Ok(())
        } else {
            Err(ParseFailure::UnexpectedToken)
        }
    }

    /// Whether the next token has the label `rule` and starts before
    /// `end`.
    fn belongs_to_list(&self, rule: Rule, end: usize) -> (r: bool)
        requires
            self.wf(),
        ensures
            r == self.document().belongs(self.ctx().pos, rule, end as int),
    {
        self.pos < self.tokens.len() && self.tokens[self.pos].rule == rule
            && self.tokens[self.pos].start < end
    }

    /// Sets the subject aside, where there is one.
    fn save_subject(&mut self)
        requires
            old(self).wf(),
        ensures
            final(self).wf(),
            final(self).document() == old(self).document(),
            final(self).ctx() == old(self).ctx().save_subject(),
    {
        let ghost before = self.ctx();
        match self.subject.take() {
            Some(s) => {
                self.subject_stack.push(s);
                assert(subject_models(self.subject_stack@) =~= before.subject_stack.push(s@));
                assert(self.ctx() =~~= before.save_subject());
            },
            None => {
                assert(self.ctx() =~~= before.save_subject());
            },
        }
    }

    /// Sets the predicate aside, where there is one.
    fn save_predicate(&mut self)
        requires
            old(self).wf(),
        ensures
            final(self).wf(),
            final(self).document() == old(self).document(),
            final(self).ctx() == old(self).ctx().save_predicate(),
    {
        let ghost before = self.ctx();
        match self.predicate.take() {
            Some(p) => {
                self.predicate_stack.push(p);
                assert(iri_models(self.predicate_stack@) =~= before.predicate_stack.push(p@));
                assert(self.ctx() =~~= before.save_predicate());
            },
            None => {
                assert(self.ctx() =~~= before.save_predicate());
            },
        }
    }

    /// Takes back the subject that was set aside last.
    fn pop_subject(&mut self)
        requires
            old(self).wf(),
        ensures
            final(self).wf(),
            final(self).document() == old(self).document(),
            final(self).ctx() == old(self).ctx().pop_subject(),
    {
        let ghost before = self.ctx();
        self.subject = self.subject_stack.pop();
        assert(subject_models(self.subject_stack@) =~= if before.subject_stack.len() > 0 {
            before.subject_stack.drop_last()
        } else {
            before.subject_stack
        });
        assert(self.ctx() =~~= before.pop_subject());
    }

    /// Takes back the predicate that was set aside last.
    fn pop_predicate(&mut self)
        requires
            old(self).wf(),
        ensures
            final(self).wf(),
            final(self).document() == old(self).document(),
            final(self).ctx() == old(self).ctx().pop_predicate(),
    {
        let ghost before = self.ctx();
        self.predicate = self.predicate_stack.pop();
        assert(iri_models(self.predicate_stack@) =~= if before.predicate_stack.len() > 0 {
            before.predicate_stack.drop_last()
        } else {
            before.predicate_stack
        });
        assert(self.ctx() =~~= before.pop_predicate());
    }

    /// States the triple of the current subject and predicate with
    /// `object`.
    fn emit_triple(&mut self, object: Object) -> (r: Result<(), ParseFailure>)
        requires
            old(self).wf(),
        ensures
            final(self).wf(),
            final(self).document() == old(self).document(),
            match old(self).ctx().emit(object@) {
                Ok(c) => r is Ok && final(self).ctx() == c,
                Err(e) => fails(r, e),
            },
    {
        let subject = match &self.subject {
            Some(s) => s.clone(),
            None => {
                return Err(ParseFailure::NoSubject);
            },
        };
        let predicate = match &self.predicate {
            Some(p) => p.clone(),
            None => {
                return Err(ParseFailure::NoPredicate);
            },
        };
        self.triples.push(Triple::new(subject, predicate, object));
        Ok(())
    }

    /// A blank node with a label that is no declared prefix.
    fn generate_new_blank_node(&mut self) -> (r: Result<BlankNode, ParseFailure>)
        requires
            old(self).wf(),
        ensures
            final(self).wf(),
            final(self).document() == old(self).document(),
            match fresh(old(self).ctx().counter, old(self).ctx().prefixes) {
                Some((label, counter)) => r is Ok && r->Ok_0@ == label && final(self).ctx() == (Ctx {
                    counter,
                    ..old(self).ctx()
                }),
                None => fails(r, ParseFailure::TooManyBlankNodes),
            },
    {
        loop
            invariant
                self.wf(),
                self.document() == old(self).document(),
                self.ctx() == (Ctx { counter: self.ctx().counter, ..old(self).ctx() }),
                fresh(old(self).ctx().counter, old(self).ctx().prefixes) == fresh(
                    self.ctx().counter,
                    self.ctx().prefixes,
                ),
            decreases u64::MAX - self.blank_node_counter,
        {
            if self.blank_node_counter == u64::MAX {
                return Err(ParseFailure::TooManyBlankNodes);
            }
            self.blank_node_counter = self.blank_node_counter + 1;
            let label = label_of(self.blank_node_counter);
            if !self.prefixes.contains(&label) {
                return Ok(BlankNode(label));
            }
        }
    }

    /// Reads a numeric escape.
    fn parse_uchar(&mut self) -> (r: Result<char, ParseFailure>)
        requires
            old(self).wf(),
        ensures
            final(self).wf(),
            final(self).document() == old(self).document(),
            match sp_uchar(old(self).document(), old(self).ctx()) {
                Ok((ch, c)) => r == Ok::<char, ParseFailure>(ch) && final(self).ctx() == c && moved(
                    old(self).document(),
                    old(self).ctx(),
                    c,
                ),
                Err(e) => fails(r, e),
            },
    {
        self.expect(Rule::UCHAR)?;
        let ghost c1 = self.ctx();
        let mut hex: u32 = 0;
        while self.pos < self.tokens.len() && self.tokens[self.pos].rule == Rule::HEX
            invariant
                self.wf(),
                self.document() == old(self).document(),
                self.ctx() == (Ctx { pos: self.ctx().pos, ..c1 }),
                c1.pos <= self.ctx().pos,
                expect(old(self).document(), old(self).ctx(), Rule::UCHAR) == Ok::<
                    Ctx,
                    ParseFailure,
                >(c1),
                sp_hex(self.document(), c1.pos, 0) == sp_hex(
                    self.document(),
                    self.ctx().pos,
                    hex as nat,
                ),
            decreases self.tokens.len() - self.pos,
        {
            let t = self.tokens[self.pos];
            if t.start == t.end {
                return Err(ParseFailure::InvalidEscape);
            }
            assert(self.document().text_at(self.pos as int)[0] == self.source@[t.start as int]);
            match hex_value(self.source[t.start]) {
                None => {
                    return Err(ParseFailure::InvalidEscape);
                },
                Some(v) => {
                    if hex > 0x0FFF_FFFF {
                        return Err(ParseFailure::InvalidEscape);
                    }
                    hex = hex * 16 + v;
                    self.pos = self.pos + 1;
                },
            }
        }
        match std::char::from_u32(hex) {
            Some(ch) => Ok(ch),
            None => Err(ParseFailure::InvalidEscape),
        }
    }

    /// Reads a two-character escape.
    fn parse_echar(&mut self) -> (r: Result<char, ParseFailure>)
        requires
            old(self).wf(),
        ensures
            final(self).wf(),
            final(self).document() == old(self).document(),
            match sp_echar(old(self).document(), old(self).ctx()) {
                Ok((ch, c)) => r == Ok::<char, ParseFailure>(ch) && final(self).ctx() == c && moved(
                    old(self).document(),
                    old(self).ctx(),
                    c,
                ),
                Err(e) => fails(r, e),
            },
    {
        if self.pos >= self.tokens.len() {
            return Err(ParseFailure::UnexpectedEnd);
        }
        let t = self.tokens[self.pos];
        if t.end - t.start != 2 || self.source[t.start] != '\\' {
            return Err(ParseFailure::InvalidEscape);
        }
        let code = self.source[t.start + 1];
        let ch = if code == 't' {
            '\t'
        } else if code == 'b' {
            '\u{08}'
        } else if code == 'n' {
            '\n'
        } else if code == 'r' {
            '\r'
        } else if code == 'f' {
            '\u{0C}'
        } else if code == '\'' {
            '\''
        } else if code == '"' {
            '"'
        } else if code == '\\' {
            '\\'
        } else {
            return Err(ParseFailure::InvalidEscape);
        };
        self.pos = self.pos + 1;
        Ok(ch)
    }
    /// Reads a string: its token, then its pieces.
    fn parse_string(&mut self) -> (r: Result<String, ParseFailure>)
        requires
            old(self).wf(),
        ensures
            final(self).wf(),
            final(self).document() == old(self).document(),
            match sp_string(old(self).document(), old(self).ctx()) {
                Ok((text, c)) => r is Ok && r->Ok_0@ == text && final(self).ctx() == c && moved(
                    old(self).document(),
                    old(self).ctx(),
                    c,
                ),
                Err(e) => fails(r, e),
            },
    {
        self.expect(Rule::STRING)?;
        let ghost c1 = self.ctx();
        let mut string = String::new();
        loop
            invariant
                self.wf(),
                self.document() == old(self).document(),
                expect(old(self).document(), old(self).ctx(), Rule::STRING) == Ok::<
                    Ctx,
                    ParseFailure,
                >(c1),
                c1.pos <= self.ctx().pos,
                sp_pieces(self.document(), c1, Seq::empty()) == sp_pieces(
                    self.document(),
                    self.ctx(),
                    string@,
                ),
            decreases self.tokens.len() - self.pos,
        {
            if self.pos >= self.tokens.len() {
                return Err(ParseFailure::UnexpectedEnd);
            }
            let piece = self.tokens[self.pos];
            if !piece.rule.is_string_value() {
                return Ok(string);
            }
            self.pos = self.pos + 1;
            if self.belongs_to_list(Rule::ECHAR, piece.end) {
                let ch = self.parse_echar()?;
                string.push(ch);
            } else if self.belongs_to_list(Rule::UCHAR, piece.end) {
                let ch = self.parse_uchar()?;
                string.push(ch);
            } else if self.pos >= self.tokens.len() {
                return Err(ParseFailure::UnexpectedEnd);
            } else {
                push_slice(&mut string, &self.source, piece.start, piece.end);
            }
        }
    }

    /// Reads a bracketed identifier.
    fn parse_iriref(&mut self) -> (r: Result<Iri, ParseFailure>)
        requires
            old(self).wf(),
        ensures
            final(self).wf(),
            final(self).document() == old(self).document(),
            match sp_iriref(old(self).document(), old(self).ctx()) {
                Ok((iri, c)) => r is Ok && r->Ok_0@ == iri && final(self).ctx() == c && moved(
                    old(self).document(),
                    old(self).ctx(),
                    c,
                ),
                Err(e) => fails(r, e),
            },
    {
        if self.pos >= self.tokens.len() {
            return Err(ParseFailure::UnexpectedEnd);
        }
        let end = self.tokens[self.pos].end;
        self.expect(Rule::IRIREF)?;
        let ghost c1 = self.ctx();
        if !(self.pos < self.tokens.len() && self.tokens[self.pos].start < end) {
            return match &self.base {
                Some(base) => Ok(base.clone()),
                None => Err(ParseFailure::InvalidIri),
            };
        }
        let mut iriref = String::new();
        loop
            invariant
                self.wf(),
                self.document() == old(self).document(),
                expect(old(self).document(), old(self).ctx(), Rule::IRIREF) == Ok::<
                    Ctx,
                    ParseFailure,
                >(c1),
                end == old(self).document().tokens[old(self).ctx().pos].end,
                0 <= c1.pos < self.document().tokens.len() && self.document().tokens[c1.pos].start
                    < end,
                self.ctx() == (Ctx { pos: self.ctx().pos, ..c1 }),
                c1.pos <= self.ctx().pos,
                sp_iri_parts(self.document(), c1, end as int, Seq::empty()) == sp_iri_parts(
                    self.document(),
                    self.ctx(),
                    end as int,
                    iriref@,
                ),
            decreases self.tokens.len() - self.pos,
        {
            if self.belongs_to_list(Rule::IRI_VALUE, end) {
                let t = self.tokens[self.pos];
                push_slice(&mut iriref, &self.source, t.start, t.end);
                self.pos = self.pos + 1;
            } else if self.belongs_to_list(Rule::UCHAR, end) {
                let ch = self.parse_uchar()?;
                iriref.push(ch);
            } else if self.pos < self.tokens.len() && self.tokens[self.pos].start < end {
                return Err(ParseFailure::UnexpectedToken);
            } else {
                let outcome = match &self.base {
                    Some(base) => Iri::parse_with_base_iri(iriref.as_str(), Some(base)),
                    None => Iri::parse_with_base_iri(iriref.as_str(), None),
                };
                return match outcome {
                    Ok(iri) => Ok(iri),
                    Err(_) => Err(ParseFailure::InvalidIri),
                };
            }
        }
    }

    /// Reads a prefix and looks it up.
    fn parse_pname_ns(&mut self) -> (r: Result<Iri, ParseFailure>)
        requires
            old(self).wf(),
        ensures
            final(self).wf(),
            final(self).document() == old(self).document(),
            match sp_pname_ns(old(self).document(), old(self).ctx()) {
                Ok((iri, c)) => r is Ok && r->Ok_0@ == iri && final(self).ctx() == c && moved(
                    old(self).document(),
                    old(self).ctx(),
                    c,
                ),
                Err(e) => fails(r, e),
            },
    {
        if self.pos >= self.tokens.len() {
            return Err(ParseFailure::UnexpectedEnd);
        }
        let prefix = self.prefix_at(self.pos);
        match self.prefixes.get(&prefix) {
            Some(iri) => {
                self.pos = self.pos + 1;
                Ok(iri)
            },
            None => Err(ParseFailure::UndefinedPrefix),
        }
    }

    /// The text of the token at `at` without the colon that ends it.
    fn prefix_at(&self, at: usize) -> (s: String)
        requires
            self.wf(),
            at < self.tokens.len(),
        ensures
            s@ == strip_colon(self.document().text_at(at as int)),
    {
        let t = self.tokens[at];
        let end = if t.end > t.start && self.source[t.end - 1] == ':' {
            t.end - 1
        } else {
            t.end
        };
        let s = string_of(&self.source, t.start, end);
        assert(s@ =~= strip_colon(self.document().text_at(at as int)));
        s
    }

    /// Reads a prefixed name with a local part.
    fn parse_pname_ln(&mut self) -> (r: Result<Iri, ParseFailure>)
        requires
            old(self).wf(),
        ensures
            final(self).wf(),
            final(self).document() == old(self).document(),
            match sp_pname_ln(old(self).document(), old(self).ctx()) {
                Ok((iri, c)) => r is Ok && r->Ok_0@ == iri && final(self).ctx() == c && moved(
                    old(self).document(),
                    old(self).ctx(),
                    c,
                ),
                Err(e) => fails(r, e),
            },
    {
        self.expect(Rule::PNAME_LN)?;
        let base = self.parse_pname_ns()?;
        let at = self.pos;
        self.expect(Rule::PN_LOCAL)?;
        let t = self.tokens[at];
        let pn_local = string_without(&self.source, t.start, t.end, '\\');
        let mut text = base.as_str().to_owned();
        text.append(pn_local.as_str());
        match Iri::parse(text.as_str()) {
            Ok(iri) => Ok(iri),
            Err(_) => Err(ParseFailure::InvalidIri),
        }
    }

    /// Reads a prefixed name, with or without a local part.
    fn parse_prefixed_name(&mut self) -> (r: Result<Iri, ParseFailure>)
        requires
            old(self).wf(),
        ensures
            final(self).wf(),
            final(self).document() == old(self).document(),
            match sp_prefixed_name(old(self).document(), old(self).ctx()) {
                Ok((iri, c)) => r is Ok && r->Ok_0@ == iri && final(self).ctx() == c && moved(
                    old(self).document(),
                    old(self).ctx(),
                    c,
                ),
                Err(e) => fails(r, e),
            },
    {
        self.expect(Rule::PrefixedName)?;
        if self.next_is(Rule::PNAME_LN) {
            self.parse_pname_ln()
        } else if self.next_is(Rule::PNAME_NS) {
            self.parse_pname_ns()
        } else {
            Err(self.misplaced())
        }
    }

    /// Reads an identifier, prefixed or bracketed.
    fn parse_iri(&mut self) -> (r: Result<Iri, ParseFailure>)
        requires
            old(self).wf(),
        ensures
            final(self).wf(),
            final(self).document() == old(self).document(),
            match sp_iri(old(self).document(), old(self).ctx()) {
                Ok((iri, c)) => r is Ok && r->Ok_0@ == iri && final(self).ctx() == c && moved(
                    old(self).document(),
                    old(self).ctx(),
                    c,
                ),
                Err(e) => fails(r, e),
            },
    {
        self.expect(Rule::iri)?;
        if self.next_is(Rule::PrefixedName) {
            self.parse_prefixed_name()
        } else if self.next_is(Rule::IRIREF) {
            self.parse_iriref()
        } else {
            Err(self.misplaced())
        }
    }

    /// Reads a language tag, where one follows.
    fn parse_langtag(&mut self) -> (r: Option<String>)
        requires
            old(self).wf(),
        ensures
            final(self).wf(),
            final(self).document() == old(self).document(),
            opt_text(r) == sp_langtag(old(self).document(), old(self).ctx()).0,
            final(self).ctx() == sp_langtag(old(self).document(), old(self).ctx()).1,
    {
        if self.next_is(Rule::LANGTAG) {
            let t = self.tokens[self.pos];
            let start = if t.end > t.start && self.source[t.start] == '@' {
                t.start + 1
            } else {
                t.start
            };
            let tag = string_of(&self.source, start, t.end);
            assert(tag@ =~= strip_at(self.document().text_at(self.pos as int)));
            self.pos = self.pos + 1;
            Some(tag)
        } else {
            None
        }
    }

    /// Reads a datatype, where an identifier follows.
    fn parse_datatype(&mut self) -> (r: Result<Option<Iri>, ParseFailure>)
        requires
            old(self).wf(),
        ensures
            final(self).wf(),
            final(self).document() == old(self).document(),
            match sp_datatype(old(self).document(), old(self).ctx()) {
                Ok((iri, c)) => r is Ok && opt_iri(r->Ok_0) == iri && final(self).ctx() == c
                    && old(self).ctx().pos <= c.pos,
                Err(e) => fails(r, e),
            },
    {
        if self.next_is(Rule::iri) {
            let iri = self.parse_iri()?;
            Ok(Some(iri))
        } else {
            Ok(None)
        }
    }

    /// Reads a quoted literal.
    fn parse_rdf_literal(&mut self) -> (r: Result<Literal, ParseFailure>)
        requires
            old(self).wf(),
        ensures
            final(self).wf(),
            final(self).document() == old(self).document(),
            match sp_rdf_literal(old(self).document(), old(self).ctx()) {
                Ok((literal, c)) => r is Ok && r->Ok_0@ == literal && final(self).ctx() == c
                    && moved(old(self).document(), old(self).ctx(), c),
                Err(e) => fails(r, e),
            },
    {
        self.expect(Rule::RDFLiteral)?;
        let value = self.parse_string()?;
        let tag = self.parse_langtag();
        let datatype = self.parse_datatype()?;
        Ok(Literal::new(value, tag, datatype))
    }

    /// Reads a number.
    fn parse_numeric_literal(&mut self) -> (r: Result<Literal, ParseFailure>)
        requires
            old(self).wf(),
        ensures
            final(self).wf(),
            final(self).document() == old(self).document(),
            match sp_numeric_literal(old(self).document(), old(self).ctx()) {
                Ok((literal, c)) => r is Ok && r->Ok_0@ == literal && final(self).ctx() == c
                    && moved(old(self).document(), old(self).ctx(), c),
                Err(e) => fails(r, e),
            },
    {
        self.expect(Rule::NumericLiteral)?;
        if self.pos >= self.tokens.len() {
            return Err(ParseFailure::UnexpectedEnd);
        }
        let rule = self.tokens[self.pos].rule;
        let mut value = self.text(self.pos);
        match rule {
            Rule::INTEGER => {
                self.pos = self.pos + 1;
                Ok(Literal::new_integer(value))
            },
            Rule::DECIMAL => {
                self.pos = self.pos + 1;
                Ok(Literal::new_decimal(value))
            },
            Rule::DOUBLE => {
                self.pos = self.pos + 1;
                if self.next_is(Rule::EXPONENT) {
                    let t = self.tokens[self.pos];
                    push_slice(&mut value, &self.source, t.start, t.end);
                    self.pos = self.pos + 1;
                }
                Ok(Literal::new_double(value))
            },
            _ => Err(ParseFailure::UnexpectedToken),
        }
    }

    /// Reads a boolean.
    fn parse_bool_literal(&mut self) -> (r: Result<Literal, ParseFailure>)
        requires
            old(self).wf(),
        ensures
            final(self).wf(),
            final(self).document() == old(self).document(),
            match sp_bool_literal(old(self).document(), old(self).ctx()) {
                Ok((literal, c)) => r is Ok && r->Ok_0@ == literal && final(self).ctx() == c
                    && moved(old(self).document(), old(self).ctx(), c),
                Err(e) => fails(r, e),
            },
    {
        if self.pos >= self.tokens.len() {
            return Err(ParseFailure::UnexpectedEnd);
        }
        let value = self.text(self.pos);
        self.pos = self.pos + 1;
        Ok(Literal::new_bool(value))
    }

    /// Reads a literal of any of the three kinds.
    fn parse_literal(&mut self) -> (r: Result<Literal, ParseFailure>)
        requires
            old(self).wf(),
        ensures
            final(self).wf(),
            final(self).document() == old(self).document(),
            match sp_literal(old(self).document(), old(self).ctx()) {
                Ok((literal, c)) => r is Ok && r->Ok_0@ == literal && final(self).ctx() == c
                    && moved(old(self).document(), old(self).ctx(), c),
                Err(e) => fails(r, e),
            },
    {
        self.expect(Rule::literal)?;
        if self.next_is(Rule::RDFLiteral) {
            self.parse_rdf_literal()
        } else if self.next_is(Rule::NumericLiteral) {
            self.parse_numeric_literal()
        } else if self.next_is(Rule::BooleanLiteral) {
            self.parse_bool_literal()
        } else {
            Err(self.misplaced())
        }
    }

    /// Reads a blank node, labelled or anonymous.
    fn parse_blank_node(&mut self) -> (r: Result<BlankNode, ParseFailure>)
        requires
            old(self).wf(),
        ensures
            final(self).wf(),
            final(self).document() == old(self).document(),
            match sp_blank_node(old(self).document(), old(self).ctx()) {
                Ok((label, c)) => r is Ok && r->Ok_0@ == label && final(self).ctx() == c && moved(
                    old(self).document(),
                    old(self).ctx(),
                    c,
                ),
                Err(e) => fails(r, e),
            },
    {
        self.expect(Rule::BlankNode)?;
        if self.next_is(Rule::BLANK_NODE_LABEL) {
            let t = self.tokens[self.pos];
            let start = if t.end - t.start >= 2 {
                t.start + 2
            } else {
                t.start
            };
            let label = string_of(&self.source, start, t.end);
            assert(label@ =~= strip_blank(self.document().text_at(self.pos as int)));
            self.pos = self.pos + 1;
            Ok(BlankNode(label))
        } else if self.next_is(Rule::ANON) {
            self.take();
            self.generate_new_blank_node()
        } else {
            Err(self.misplaced())
        }
    }

    /// Reads a verb.
    fn parse_verb(&mut self) -> (r: Result<Iri, ParseFailure>)
        requires
            old(self).wf(),
        ensures
            final(self).wf(),
            final(self).document() == old(self).document(),
            match sp_verb(old(self).document(), old(self).ctx()) {
                Ok((iri, c)) => r is Ok && r->Ok_0@ == iri && final(self).ctx() == c && moved(
                    old(self).document(),
                    old(self).ctx(),
                    c,
                ),
                Err(e) => fails(r, e),
            },
    {
        let at = self.pos;
        self.expect(Rule::verb)?;
        let t = self.tokens[at];
        if t.end - t.start == 1 && self.source[t.start] == 'a' {
            assert(self.document().text_at(at as int) =~= seq!['a']);
            Ok(iri_of(Term::Type))
        } else {
            assert(self.document().text_at(at as int) != seq!['a']) by {
                if self.document().text_at(at as int) == seq!['a'] {
                    assert(self.document().text_at(at as int).len() == 1);
                    assert(self.document().text_at(at as int)[0] == 'a');
                }
            }
            self.parse_iri()
        }
    }
    /// Reads an object and states the triple of the current subject and
    /// predicate with it.
    fn parse_object(&mut self) -> (r: Result<(), ParseFailure>)
        requires
            old(self).wf(),
        ensures
            final(self).wf(),
            final(self).document() == old(self).document(),
            match sp_object(old(self).document(), old(self).ctx()) {
                Ok(c) => r is Ok && final(self).ctx() == c && moved(
                    old(self).document(),
                    old(self).ctx(),
                    c,
                ),
                Err(e) => fails(r, e),
            },
        decreases old(self).tokens.len() - old(self).pos,
    {
        self.expect(Rule::object)?;
        let object = if self.next_is(Rule::iri) {
            Object::Iri(self.parse_iri()?)
        } else if self.next_is(Rule::literal) {
            Object::Literal(self.parse_literal()?)
        } else if self.next_is(Rule::BlankNode) {
            Object::BlankNode(self.parse_blank_node()?)
        } else if self.next_is(Rule::collection) {
            self.parse_collection()?
        } else if self.next_is(Rule::blankNodePropertyList) {
            Object::BlankNode(self.parse_blank_node_property_list()?)
        } else {
            return Err(self.misplaced());
        };
        self.emit_triple(object)
    }

    /// Reads a collection: `rdf:nil` for an empty one, else the blank
    /// node of its first cell.
    fn parse_collection(&mut self) -> (r: Result<Object, ParseFailure>)
        requires
            old(self).wf(),
        ensures
            final(self).wf(),
            final(self).document() == old(self).document(),
            match sp_collection(old(self).document(), old(self).ctx()) {
                Ok((object, c)) => r is Ok && r->Ok_0@ == object && final(self).ctx() == c
                    && moved(old(self).document(), old(self).ctx(), c),
                Err(e) => fails(r, e),
            },
        decreases old(self).tokens.len() - old(self).pos,
    {
        let ghost whole = sp_collection(old(self).document(), old(self).ctx());
        self.save_subject();
        self.save_predicate();
        if self.pos >= self.tokens.len() {
            return Err(ParseFailure::UnexpectedEnd);
        }
        let end = self.tokens[self.pos].end;
        self.expect(Rule::collection)?;
        if !self.belongs_to_list(Rule::object, end) {
            self.pop_subject();
            self.pop_predicate();
            return Ok(Object::Iri(iri_of(Term::Nil)));
        }
        let head = self.generate_new_blank_node()?;
        let mut node = head.clone();
        loop
            invariant
                self.wf(),
                self.document() == old(self).document(),
                old(self).ctx().pos < self.ctx().pos,
                whole == sp_collection(old(self).document(), old(self).ctx()),
                whole == match sp_cells(self.document(), self.ctx(), end as int, node@) {
                    Err(e) => Err::<(crate::object::ObjectModel, Ctx), ParseFailure>(e),
                    Ok(c2) => Ok(
                        (
                            crate::object::ObjectModel::BlankNode(head@),
                            c2.pop_subject().pop_predicate(),
                        ),
                    ),
                },
            decreases self.tokens.len() - self.pos,
        {
            self.subject = Some(Subject::BlankNode(node.clone()));
            self.predicate = Some(iri_of(Term::First));
            self.parse_object()?;
            self.subject = Some(Subject::BlankNode(node.clone()));
            self.predicate = Some(iri_of(Term::Rest));
            if self.belongs_to_list(Rule::object, end) {
                let next = self.generate_new_blank_node()?;
                self.emit_triple(Object::BlankNode(next.clone()))?;
                node = next;
            } else {
                self.emit_triple(Object::Iri(iri_of(Term::Nil)))?;
                self.pop_subject();
                self.pop_predicate();
                return Ok(Object::BlankNode(head));
            }
        }
    }

    /// Reads a bracketed property list: the fresh blank node that its
    /// predicates and objects are stated of.
    fn parse_blank_node_property_list(&mut self) -> (r: Result<BlankNode, ParseFailure>)
        requires
            old(self).wf(),
        ensures
            final(self).wf(),
            final(self).document() == old(self).document(),
            match sp_property_list(old(self).document(), old(self).ctx()) {
                Ok((label, c)) => r is Ok && r->Ok_0@ == label && final(self).ctx() == c && moved(
                    old(self).document(),
                    old(self).ctx(),
                    c,
                ),
                Err(e) => fails(r, e),
            },
        decreases old(self).tokens.len() - old(self).pos,
    {
        self.expect(Rule::blankNodePropertyList)?;
        let new_node = self.generate_new_blank_node()?;
        self.save_subject();
        self.subject = Some(Subject::BlankNode(new_node.clone()));
        self.save_predicate();
        self.parse_predicate_object_list()?;
        self.pop_subject();
        self.pop_predicate();
        Ok(new_node)
    }

    /// Reads a list of predicates, each with its objects.
    fn parse_predicate_object_list(&mut self) -> (r: Result<(), ParseFailure>)
        requires
            old(self).wf(),
        ensures
            final(self).wf(),
            final(self).document() == old(self).document(),
            match sp_predicate_object_list(old(self).document(), old(self).ctx()) {
                Ok(c) => r is Ok && final(self).ctx() == c && moved(
                    old(self).document(),
                    old(self).ctx(),
                    c,
                ),
                Err(e) => fails(r, e),
            },
        decreases old(self).tokens.len() - old(self).pos,
    {
        if self.pos >= self.tokens.len() {
            return Err(ParseFailure::UnexpectedEnd);
        }
        let end = self.tokens[self.pos].end;
        self.expect(Rule::predicateObjectList)?;
        while self.belongs_to_list(Rule::verb, end)
            invariant
                self.wf(),
                self.document() == old(self).document(),
                old(self).ctx().pos < self.ctx().pos,
                sp_predicate_object_list(old(self).document(), old(self).ctx()) == sp_verbs(
                    self.document(),
                    self.ctx(),
                    end as int,
                ),
            decreases self.tokens.len() - self.pos,
        {
            let predicate = self.parse_verb()?;
            self.predicate = Some(predicate);
            self.parse_object_list()?;
        }
        Ok(())
    }

    /// Reads a list of objects of the current subject and predicate.
    fn parse_object_list(&mut self) -> (r: Result<(), ParseFailure>)
        requires
            old(self).wf(),
        ensures
            final(self).wf(),
            final(self).document() == old(self).document(),
            match sp_object_list(old(self).document(), old(self).ctx()) {
                Ok(c) => r is Ok && final(self).ctx() == c && moved(
                    old(self).document(),
                    old(self).ctx(),
                    c,
                ),
                Err(e) => fails(r, e),
            },
        decreases old(self).tokens.len() - old(self).pos,
    {
        if self.pos >= self.tokens.len() {
            return Err(ParseFailure::UnexpectedEnd);
        }
        let end = self.tokens[self.pos].end;
        self.expect(Rule::objectList)?;
        while self.belongs_to_list(Rule::object, end)
            invariant
                self.wf(),
                self.document() == old(self).document(),
                old(self).ctx().pos < self.ctx().pos,
                sp_object_list(old(self).document(), old(self).ctx()) == sp_objects(
                    self.document(),
                    self.ctx(),
                    end as int,
                ),
            decreases self.tokens.len() - self.pos,
        {
            self.parse_object()?;
        }
        Ok(())
    }

    /// Reads the subject of a statement and makes it the current
    /// subject.
    fn parse_subject(&mut self) -> (r: Result<(), ParseFailure>)
        requires
            old(self).wf(),
        ensures
            final(self).wf(),
            final(self).document() == old(self).document(),
            match sp_subject(old(self).document(), old(self).ctx()) {
                Ok(c) => r is Ok && final(self).ctx() == c && moved(
                    old(self).document(),
                    old(self).ctx(),
                    c,
                ),
                Err(e) => fails(r, e),
            },
    {
        self.expect(Rule::subject)?;
        let subject = if self.next_is(Rule::iri) {
            Subject::Iri(self.parse_iri()?)
        } else if self.next_is(Rule::BlankNode) {
            Subject::BlankNode(self.parse_blank_node()?)
        } else if self.next_is(Rule::collection) {
            match self.parse_collection()? {
                Object::Iri(iri) => Subject::Iri(iri),
                Object::BlankNode(node) => Subject::BlankNode(node),
                Object::Literal(_) => {
                    return Err(ParseFailure::UnexpectedToken);
                },
            }
        } else {
            return Err(self.misplaced());
        };
        self.subject = Some(subject);
        Ok(())
    }

    /// Reads the triples of one statement.
    fn parse_triples(&mut self) -> (r: Result<(), ParseFailure>)
        requires
            old(self).wf(),
        ensures
            final(self).wf(),
            final(self).document() == old(self).document(),
            match sp_triples(old(self).document(), old(self).ctx()) {
                Ok(c) => r is Ok && final(self).ctx() == c && moved(
                    old(self).document(),
                    old(self).ctx(),
                    c,
                ),
                Err(e) => fails(r, e),
            },
    {
        self.expect(Rule::triples)?;
        if self.next_is(Rule::subject) {
            self.parse_subject()?;
            self.parse_predicate_object_list()
        } else if self.next_is(Rule::blankNodePropertyList) {
            let node = self.parse_blank_node_property_list()?;
            self.subject = Some(Subject::BlankNode(node));
            if self.next_is(Rule::predicateObjectList) {
                self.parse_predicate_object_list()
            } else {
                Ok(())
            }
        } else {
            Err(self.misplaced())
        }
    }

    /// Reads a directive: a prefix or a base declaration.
    fn parse_directive(&mut self) -> (r: Result<(), ParseFailure>)
        requires
            old(self).wf(),
        ensures
            final(self).wf(),
            final(self).document() == old(self).document(),
            match sp_directive(old(self).document(), old(self).ctx()) {
                Ok(c) => r is Ok && final(self).ctx() == c && moved(
                    old(self).document(),
                    old(self).ctx(),
                    c,
                ),
                Err(e) => fails(r, e),
            },
    {
        self.expect(Rule::directive)?;
        if self.next_is(Rule::prefixID) || self.next_is(Rule::sparqlPrefix) {
            self.take();
            if self.pos >= self.tokens.len() {
                return Err(ParseFailure::UnexpectedEnd);
            }
            let key = self.prefix_at(self.pos);
            self.take();
            let value = self.parse_iriref()?;
            self.prefixes.insert(key, value);
            Ok(())
        } else if self.next_is(Rule::base) || self.next_is(Rule::sparqlBase) {
            self.take();
            let base = self.parse_iriref()?;
            self.base = Some(base);
            Ok(())
        } else {
            Err(self.misplaced())
        }
    }

    /// Reads one statement: a directive or triples.
    fn parse_statement(&mut self) -> (r: Result<(), ParseFailure>)
        requires
            old(self).wf(),
        ensures
            final(self).wf(),
            final(self).document() == old(self).document(),
            match sp_statement(old(self).document(), old(self).ctx()) {
                Ok(c) => r is Ok && final(self).ctx() == c && moved(
                    old(self).document(),
                    old(self).ctx(),
                    c,
                ),
                Err(e) => fails(r, e),
            },
    {
        self.expect(Rule::statement)?;
        if self.next_is(Rule::directive) {
            self.parse_directive()
        } else if self.next_is(Rule::triples) {
            self.parse_triples()
        } else {
            Err(self.misplaced())
        }
    }

    /// What reading the rest of the document gives: the triples that it
    /// states after those stated so far, or why it cannot be read. The
    /// next token, which stands for the whole document, is passed over.
    pub open spec fn outcome(&self) -> Result<Seq<crate::triple::TripleModel>, ParseFailure> {
        match sp_statements(self.document(), self.ctx().advance()) {
            Err(e) => Err(e),
            Ok(c) => Ok(c.triples),
        }
    }

    /// A reader that has read nothing yet gives the triples that its
    /// document states with its base.
    pub proof fn lemma_outcome(self, base: Option<IriModel>)
        requires
            self.ctx() == Ctx::initial(base),
        ensures
            self.outcome() == translation(self.document(), base),
    {
    }

    /// Reads the statements of the document.
    fn parse_document(&mut self) -> (r: Result<(), ParseFailure>)
        requires
            old(self).wf(),
        ensures
            final(self).wf(),
            match sp_statements(old(self).document(), old(self).ctx().advance()) {
                Ok(c) => r is Ok && final(self).ctx().triples == c.triples,
                Err(e) => fails(r, e),
            },
    {
        if self.pos < self.tokens.len() {
            self.pos = self.pos + 1;
        }
        loop
            invariant
                self.wf(),
                self.document() == old(self).document(),
                match sp_statements(old(self).document(), old(self).ctx().advance()) {
                    Err(e) => sp_statements(self.document(), self.ctx()) == Err::<
                        Ctx,
                        ParseFailure,
                    >(e),
                    Ok(c) => sp_statements(self.document(), self.ctx()) is Ok && sp_statements(
                        self.document(),
                        self.ctx(),
                    )->Ok_0.triples == c.triples,
                },
            decreases self.tokens.len() - self.pos,
        {
            if self.pos >= self.tokens.len() || self.tokens[self.pos].rule == Rule::EOI {
                return Ok(());
            }
            self.parse_statement()?;
        }
    }

    /// Reads the document and gives its triples, or the reason why it
    /// cannot be read.
    pub fn try_parse(self) -> (r: Result<Triples, ParseFailure>)
        requires
            self.wf(),
        ensures
            match self.outcome() {
                Ok(triples) => r is Ok && r->Ok_0@ == triples,
                Err(e) => fails(r, e),
            },
    {
        let mut reader = self;
        match reader.parse_document() {
            Ok(()) => Ok(reader.triples),
            Err(e) => Err(e),
        }
    }

    /// Reads the document and gives its triples.
    pub fn parse(self) -> (triples: Triples)
        requires
            self.wf(),
            self.outcome() is Ok,
        ensures
            triples@ == self.outcome()->Ok_0,
    {
        match self.try_parse() {
            Ok(triples) => triples,
            Err(_) => {
                proof {
                    assert(false);
                }
                Triples::new()
            },
        }
    }
}

} // verus!

//! The grammar of Turtle: the body and the rank of each production.
//!
//! White space and comments may stand between the parts of a statement
//! and never inside a name, a number, a string or an identifier.

use vstd::prelude::*;
use crate::parser::Rule;
use crate::peg::Peg;
use crate::text::chars_of;

verus! {

/// The rank above every production's.
pub const TOP: u8 = 12;

impl Clone for Peg {
    fn clone(&self) -> (r: Self)
        ensures
            r == *self,
        decreases self,
    {
        match self {
            Peg::Empty => Peg::Empty,
            Peg::Any => Peg::Any,
            Peg::Chr(c) => Peg::Chr(*c),
            Peg::Range(lo, hi) => Peg::Range(*lo, *hi),
            Peg::End => Peg::End,
            Peg::Then(a, b) => Peg::Then(Box::new((&**a).clone()), Box::new((&**b).clone())),
            Peg::Or(a, b) => Peg::Or(Box::new((&**a).clone()), Box::new((&**b).clone())),
            Peg::Many(a) => Peg::Many(Box::new((&**a).clone())),
            Peg::Not(a) => Peg::Not(Box::new((&**a).clone())),
            Peg::Call(r) => Peg::Call(*r),
        }
    }
}

/// One character.
#[verifier::allow_in_spec]
pub fn any() -> Peg
    returns
        Peg::Any,
{
    Peg::Any
}

/// The end of the source.
#[verifier::allow_in_spec]
pub fn end() -> Peg
    returns
        Peg::End,
{
    Peg::End
}

/// The character `c`.
#[verifier::allow_in_spec]
pub fn chr(c: char) -> Peg
    returns
        Peg::Chr(c),
{
    Peg::Chr(c)
}

/// A character from `lo` to `hi`.
#[verifier::allow_in_spec]
pub fn range(lo: char, hi: char) -> Peg
    returns
        Peg::Range(lo, hi),
{
    Peg::Range(lo, hi)
}

/// `a`, then `b`.
#[verifier::allow_in_spec]
pub fn both(a: Peg, b: Peg) -> Peg
    returns
        Peg::Then(Box::new(a), Box::new(b)),
{
    Peg::Then(Box::new(a), Box::new(b))
}

/// `a` or, failing that, `b`.
#[verifier::allow_in_spec]
pub fn either(a: Peg, b: Peg) -> Peg
    returns
        Peg::Or(Box::new(a), Box::new(b)),
{
    Peg::Or(Box::new(a), Box::new(b))
}

/// `a`, any number of times.
#[verifier::allow_in_spec]
pub fn many(a: Peg) -> Peg
    returns
        Peg::Many(Box::new(a)),
{
    Peg::Many(Box::new(a))
}

/// Nothing, where `a` fails.
#[verifier::allow_in_spec]
pub fn unless(a: Peg) -> Peg
    returns
        Peg::Not(Box::new(a)),
{
    Peg::Not(Box::new(a))
}

/// The production `r`.
#[verifier::allow_in_spec]
pub fn rule(r: Rule) -> Peg
    returns
        Peg::Call(r),
{
    Peg::Call(r)
}

/// `a`, or nothing.
#[verifier::allow_in_spec]
pub fn opt(a: Peg) -> Peg
    returns
        Peg::Or(Box::new(a), Box::new(Peg::Empty)),
{
    Peg::Or(Box::new(a), Box::new(Peg::Empty))
}

/// `a`, once or more.
#[verifier::allow_in_spec]
pub fn some(a: Peg) -> Peg
    returns
        Peg::Then(Box::new(a), Box::new(Peg::Many(Box::new(a)))),
{
    let again = a.clone();
    Peg::Then(Box::new(a), Box::new(Peg::Many(Box::new(again))))
}

/// The letter in upper or lower case.
#[verifier::allow_in_spec]
pub fn letter(upper: char, lower: char) -> Peg
    returns
        Peg::Or(Box::new(Peg::Chr(upper)), Box::new(Peg::Chr(lower))),
{
    Peg::Or(Box::new(Peg::Chr(upper)), Box::new(Peg::Chr(lower)))
}

/// Any number of `a` and of dots, the last of them an `a`.
#[verifier::allow_in_spec]
pub fn dotted(a: Peg) -> Peg
    returns
        many(either(a, both(some(chr('.')), a))),
{
    let again = a.clone();
    many(either(a, both(some(chr('.')), again)))
}

/// The characters of `s`, one after the other.
pub open spec fn word(s: Seq<char>) -> Peg
    decreases s.len(),
{
    if s.len() == 0 {
        Peg::Empty
    } else {
        Peg::Then(Box::new(Peg::Chr(s[0])), Box::new(word(s.drop_first())))
    }
}

/// One of the characters of `s`.
pub open spec fn one_of(s: Seq<char>) -> Peg
    decreases s.len(),
{
    if s.len() == 0 {
        Peg::Not(Box::new(Peg::Empty))
    } else {
        Peg::Or(Box::new(Peg::Chr(s[0])), Box::new(one_of(s.drop_first())))
    }
}

/// The characters of `s`, one after the other.
#[verifier::allow_in_spec]
pub fn lit(s: &str) -> Peg
    returns
        word(s@),
{
    let v = chars_of(s);
    let mut e = Peg::Empty;
    let mut i: usize = v.len();
    assert(v@.subrange(i as int, v.len() as int) =~= Seq::<char>::empty());
    while i > 0
        invariant
            i <= v.len(),
            v@ == s@,
            e == word(v@.subrange(i as int, v.len() as int)),
        decreases i,
    {
        i -= 1;
        assert(v@.subrange(i as int, v.len() as int).drop_first() =~= v@.subrange(
            i + 1,
            v.len() as int,
        ));
        e = Peg::Then(Box::new(Peg::Chr(v[i])), Box::new(e));
    }
    assert(v@.subrange(0, v.len() as int) =~= v@);
    e
}

/// A character from one of the stretches of `s`, which holds the first
/// and the last character of each.
pub open spec fn between(s: Seq<char>) -> Peg
    decreases s.len(),
{
    if s.len() < 2 {
        Peg::Not(Box::new(Peg::Empty))
    } else {
        Peg::Or(Box::new(Peg::Range(s[0], s[1])), Box::new(between(s.skip(2))))
    }
}

/// A character from one of the stretches of `s`, which holds the first
/// and the last character of each.
#[verifier::allow_in_spec]
pub fn spans(s: &str) -> Peg
    returns
        between(s@),
{
    let v = chars_of(s);
    let mut e = Peg::Not(Box::new(Peg::Empty));
    let mut i: usize = v.len() - v.len() % 2;
    while i > 0
        invariant
            i <= v.len(),
            i % 2 == 0,
            v@ == s@,
            e == between(v@.skip(i as int)),
        decreases i,
    {
        i -= 2;
        assert(v@.skip(i as int).skip(2) =~= v@.skip(i + 2));
        e = Peg::Or(Box::new(Peg::Range(v[i], v[i + 1])), Box::new(e));
    }
    assert(v@.skip(0) =~= v@);
    e
}

/// One of the characters of `s`.
#[verifier::allow_in_spec]
pub fn class(s: &str) -> Peg
    returns
        one_of(s@),
{
    let v = chars_of(s);
    let mut e = Peg::Not(Box::new(Peg::Empty));
    let mut i: usize = v.len();
    assert(v@.subrange(i as int, v.len() as int) =~= Seq::<char>::empty());
    while i > 0
        invariant
            i <= v.len(),
            v@ == s@,
            e == one_of(v@.subrange(i as int, v.len() as int)),
        decreases i,
    {
        i -= 1;
        assert(v@.subrange(i as int, v.len() as int).drop_first() =~= v@.subrange(
            i + 1,
            v.len() as int,
        ));
        e = Peg::Or(Box::new(Peg::Chr(v[i])), Box::new(e));
    }
    assert(v@.subrange(0, v.len() as int) =~= v@);
    e
}

/// The 3 expressions, one after the other.
#[verifier::allow_in_spec]
pub fn all3(a: Peg, b: Peg, c: Peg) -> Peg
    returns
        both(a, both(b, c)),
{
    both(a, both(b, c))
}

/// The 4 expressions, one after the other.
#[verifier::allow_in_spec]
pub fn all4(a: Peg, b: Peg, c: Peg, d: Peg) -> Peg
    returns
        both(a, all3(b, c, d)),
{
    both(a, all3(b, c, d))
}

/// The 5 expressions, one after the other.
#[verifier::allow_in_spec]
pub fn all5(a: Peg, b: Peg, c: Peg, d: Peg, e: Peg) -> Peg
    returns
        both(a, all4(b, c, d, e)),
{
    both(a, all4(b, c, d, e))
}

/// The 6 expressions, one after the other.
#[verifier::allow_in_spec]
pub fn all6(a: Peg, b: Peg, c: Peg, d: Peg, e: Peg, f: Peg) -> Peg
    returns
        both(a, all5(b, c, d, e, f)),
{
    both(a, all5(b, c, d, e, f))
}

/// The 7 expressions, one after the other.
#[verifier::allow_in_spec]
pub fn all7(a: Peg, b: Peg, c: Peg, d: Peg, e: Peg, f: Peg, g: Peg) -> Peg
    returns
        both(a, all6(b, c, d, e, f, g)),
{
    both(a, all6(b, c, d, e, f, g))
}

/// The 3 expressions, the first of them that matches.
#[verifier::allow_in_spec]
pub fn any3(a: Peg, b: Peg, c: Peg) -> Peg
    returns
        either(a, either(b, c)),
{
    either(a, either(b, c))
}

/// The 4 expressions, the first of them that matches.
#[verifier::allow_in_spec]
pub fn any4(a: Peg, b: Peg, c: Peg, d: Peg) -> Peg
    returns
        either(a, any3(b, c, d)),
{
    either(a, any3(b, c, d))
}

/// The 5 expressions, the first of them that matches.
#[verifier::allow_in_spec]
pub fn any5(a: Peg, b: Peg, c: Peg, d: Peg, e: Peg) -> Peg
    returns
        either(a, any4(b, c, d, e)),
{
    either(a, any4(b, c, d, e))
}

/// White space.
#[verifier::allow_in_spec]
pub fn ws_char() -> Peg
    returns
        class(" \t\r\n"),
{
    class(" \t\r\n")
}

/// A comment: from `#` to the end of the line.
#[verifier::allow_in_spec]
pub fn comment() -> Peg
    returns
        both(chr('#'), many(both(unless(class("\r\n")), any()))),
{
    both(chr('#'), many(both(unless(class("\r\n")), any())))
}

/// White space and comments, as much as there is.
#[verifier::allow_in_spec]
pub fn ws() -> Peg
    returns
        many(either(ws_char(), comment())),
{
    many(either(ws_char(), comment()))
}

/// A hexadecimal digit.
#[verifier::allow_in_spec]
pub fn hex() -> Peg
    returns
        spans("09AFaf"),
{
    spans("09AFaf")
}

/// A decimal digit.
#[verifier::allow_in_spec]
pub fn digit() -> Peg
    returns
        range('0', '9'),
{
    range('0', '9')
}

/// One or more decimal digits.
#[verifier::allow_in_spec]
pub fn digits() -> Peg
    returns
        some(digit()),
{
    some(digit())
}

/// An optional sign.
#[verifier::allow_in_spec]
pub fn sign() -> Peg
    returns
        opt(class("+-")),
{
    opt(class("+-"))
}

/// A letter of the Latin alphabet.
#[verifier::allow_in_spec]
pub fn alpha() -> Peg
    returns
        spans("azAZ"),
{
    spans("azAZ")
}

/// A character that may begin a name.
#[verifier::allow_in_spec]
pub fn pn_chars_base() -> Peg
    returns
        any4(
            alpha(),
            spans("\u{C0}\u{D6}\u{D8}\u{F6}\u{F8}\u{2FF}\u{370}\u{37D}\u{37F}\u{1FFF}"),
            spans("\u{200C}\u{200D}\u{2070}\u{218F}\u{2C00}\u{2FEF}\u{3001}\u{D7FF}"),
            spans("\u{F900}\u{FDCF}\u{FDF0}\u{FFFD}\u{10000}\u{EFFFF}"),
        ),
{
    any4(
        alpha(),
        spans("\u{C0}\u{D6}\u{D8}\u{F6}\u{F8}\u{2FF}\u{370}\u{37D}\u{37F}\u{1FFF}"),
        spans("\u{200C}\u{200D}\u{2070}\u{218F}\u{2C00}\u{2FEF}\u{3001}\u{D7FF}"),
        spans("\u{F900}\u{FDCF}\u{FDF0}\u{FFFD}\u{10000}\u{EFFFF}"),
    )
}

/// A character that may begin a name, or an underscore.
#[verifier::allow_in_spec]
pub fn pn_chars_u() -> Peg
    returns
        either(pn_chars_base(), chr('_')),
{
    either(pn_chars_base(), chr('_'))
}

/// A character inside a name.
#[verifier::allow_in_spec]
pub fn pn_chars() -> Peg
    returns
        any5(
            pn_chars_u(),
            chr('-'),
            digit(),
            chr('\u{B7}'),
            spans("\u{300}\u{36F}\u{203F}\u{2040}"),
        ),
{
    any5(pn_chars_u(), chr('-'), digit(), chr('\u{B7}'), spans("\u{300}\u{36F}\u{203F}\u{2040}"))
}

/// A backslash and the character it escapes in a local name.
#[verifier::allow_in_spec]
pub fn local_escape() -> Peg
    returns
        both(chr('\\'), class("_~.-!$&'()*+,;=/?#@%")),
{
    both(chr('\\'), class("_~.-!$&'()*+,;=/?#@%"))
}

/// A percent-encoded character or an escaped one in a local name.
#[verifier::allow_in_spec]
pub fn plx() -> Peg
    returns
        either(all3(chr('%'), hex(), hex()), local_escape()),
{
    either(all3(chr('%'), hex(), hex()), local_escape())
}

/// The name of a prefix.
#[verifier::allow_in_spec]
pub fn pn_prefix() -> Peg
    returns
        both(pn_chars_base(), dotted(pn_chars())),
{
    both(pn_chars_base(), dotted(pn_chars()))
}

/// What may stand inside a local name, dots apart.
#[verifier::allow_in_spec]
pub fn local_char() -> Peg
    returns
        any3(pn_chars(), chr(':'), plx()),
{
    any3(pn_chars(), chr(':'), plx())
}

/// Four hexadecimal digits, each a token.
#[verifier::allow_in_spec]
pub fn hex4() -> Peg
    returns
        all4(rule(Rule::HEX), rule(Rule::HEX), rule(Rule::HEX), rule(Rule::HEX)),
{
    all4(rule(Rule::HEX), rule(Rule::HEX), rule(Rule::HEX), rule(Rule::HEX))
}

/// One or more characters, none of which begins a match of `e`.
#[verifier::allow_in_spec]
pub fn plain(e: Peg) -> Peg
    returns
        some(both(unless(e), any())),
{
    some(both(unless(e), any()))
}

/// A piece of a string: an escape, or characters up to what `e` matches.
#[verifier::allow_in_spec]
pub fn piece(e: Peg) -> Peg
    returns
        any3(rule(Rule::ECHAR), rule(Rule::UCHAR), plain(e)),
{
    any3(rule(Rule::ECHAR), rule(Rule::UCHAR), plain(e))
}

/// The pieces labelled `r` between two quotes.
#[verifier::allow_in_spec]
pub fn quoted(open: Peg, close: Peg, r: Rule) -> Peg
    returns
        all3(open, many(rule(r)), close),
{
    all3(open, many(rule(r)), close)
}

/// The word `BASE`, in either case.
#[verifier::allow_in_spec]
pub fn kw_base() -> Peg
    returns
        all4(letter('B', 'b'), letter('A', 'a'), letter('S', 's'), letter('E', 'e')),
{
    all4(letter('B', 'b'), letter('A', 'a'), letter('S', 's'), letter('E', 'e'))
}

/// The word `PREFIX`, in either case.
#[verifier::allow_in_spec]
pub fn kw_prefix() -> Peg
    returns
        all6(
            letter('P', 'p'),
            letter('R', 'r'),
            letter('E', 'e'),
            letter('F', 'f'),
            letter('I', 'i'),
            letter('X', 'x'),
        ),
{
    all6(
        letter('P', 'p'),
        letter('R', 'r'),
        letter('E', 'e'),
        letter('F', 'f'),
        letter('I', 'i'),
        letter('X', 'x'),
    )
}

/// A verb with its objects.
#[verifier::allow_in_spec]
pub fn verb_objects() -> Peg
    returns
        all3(rule(Rule::verb), ws(), rule(Rule::objectList)),
{
    all3(rule(Rule::verb), ws(), rule(Rule::objectList))
}

/// The rank of a production.
pub open spec fn rank(r: Rule) -> nat {
    match r {
        Rule::turtleDoc => 11,
        Rule::statement => 10,
        Rule::directive => 4,
        Rule::prefixID => 3,
        Rule::sparqlPrefix => 3,
        Rule::base => 3,
        Rule::sparqlBase => 3,
        Rule::triples => 9,
        Rule::predicateObjectList => 8,
        Rule::objectList => 7,
        Rule::verb => 5,
        Rule::subject => 6,
        Rule::object => 6,
        Rule::literal => 5,
        Rule::RDFLiteral => 4,
        Rule::NumericLiteral => 2,
        Rule::BooleanLiteral => 1,
        Rule::STRING => 3,
        Rule::SINGLE_STRING_VALUE => 2,
        Rule::SINGLE_LONG_STRING_VALUE => 2,
        Rule::STRING_VALUE => 2,
        Rule::LONG_STRING_VALUE => 2,
        Rule::INTEGER => 1,
        Rule::DECIMAL => 1,
        Rule::DOUBLE => 1,
        Rule::EXPONENT => 1,
        Rule::LANGTAG => 1,
        Rule::iri => 4,
        Rule::IRIREF => 2,
        Rule::IRI_VALUE => 1,
        Rule::PrefixedName => 3,
        Rule::PNAME_LN => 2,
        Rule::PNAME_NS => 1,
        Rule::PN_LOCAL => 1,
        Rule::PN_LOCAL_ESC => 1,
        Rule::BlankNode => 2,
        Rule::BLANK_NODE_LABEL => 1,
        Rule::ANON => 1,
        Rule::collection => 2,
        Rule::blankNodePropertyList => 2,
        Rule::ECHAR => 1,
        Rule::UCHAR => 1,
        Rule::HEX => 1,
        Rule::EOI => 1,
    }
}

/// The rank of a production.
pub fn rank_of(r: Rule) -> (n: u8)
    ensures
        n == rank(r),
        n < TOP,
{
    match r {
        Rule::turtleDoc => 11,
        Rule::statement => 10,
        Rule::directive => 4,
        Rule::prefixID => 3,
        Rule::sparqlPrefix => 3,
        Rule::base => 3,
        Rule::sparqlBase => 3,
        Rule::triples => 9,
        Rule::predicateObjectList => 8,
        Rule::objectList => 7,
        Rule::verb => 5,
        Rule::subject => 6,
        Rule::object => 6,
        Rule::literal => 5,
        Rule::RDFLiteral => 4,
        Rule::NumericLiteral => 2,
        Rule::BooleanLiteral => 1,
        Rule::STRING => 3,
        Rule::SINGLE_STRING_VALUE => 2,
        Rule::SINGLE_LONG_STRING_VALUE => 2,
        Rule::STRING_VALUE => 2,
        Rule::LONG_STRING_VALUE => 2,
        Rule::INTEGER => 1,
        Rule::DECIMAL => 1,
        Rule::DOUBLE => 1,
        Rule::EXPONENT => 1,
        Rule::LANGTAG => 1,
        Rule::iri => 4,
        Rule::IRIREF => 2,
        Rule::IRI_VALUE => 1,
        Rule::PrefixedName => 3,
        Rule::PNAME_LN => 2,
        Rule::PNAME_NS => 1,
        Rule::PN_LOCAL => 1,
        Rule::PN_LOCAL_ESC => 1,
        Rule::BlankNode => 2,
        Rule::BLANK_NODE_LABEL => 1,
        Rule::ANON => 1,
        Rule::collection => 2,
        Rule::blankNodePropertyList => 2,
        Rule::ECHAR => 1,
        Rule::UCHAR => 1,
        Rule::HEX => 1,
        Rule::EOI => 1,
    }
}

/// The body of a production.
pub open spec fn body(r: Rule) -> Peg {
    match r {
        Rule::turtleDoc => all3(ws(), many(both(rule(Rule::statement), ws())), rule(Rule::EOI)),
        Rule::statement => either(rule(Rule::directive), all3(rule(Rule::triples), ws(), chr('.'))),
        Rule::directive => any4(
            rule(Rule::prefixID),
            rule(Rule::base),
            rule(Rule::sparqlPrefix),
            rule(Rule::sparqlBase),
        ),
        Rule::prefixID => all7(
            lit("@prefix"),
            ws(),
            rule(Rule::PNAME_NS),
            ws(),
            rule(Rule::IRIREF),
            ws(),
            chr('.'),
        ),
        Rule::sparqlPrefix => all5(
            kw_prefix(),
            ws(),
            rule(Rule::PNAME_NS),
            ws(),
            rule(Rule::IRIREF),
        ),
        Rule::base => all5(lit("@base"), ws(), rule(Rule::IRIREF), ws(), chr('.')),
        Rule::sparqlBase => all3(kw_base(), ws(), rule(Rule::IRIREF)),
        Rule::triples => either(
            all3(rule(Rule::subject), ws(), rule(Rule::predicateObjectList)),
            both(
                rule(Rule::blankNodePropertyList),
                opt(both(ws(), rule(Rule::predicateObjectList))),
            ),
        ),
        Rule::predicateObjectList => both(
            verb_objects(),
            many(all3(ws(), chr(';'), opt(both(ws(), verb_objects())))),
        ),
        Rule::objectList => both(
            rule(Rule::object),
            many(all4(ws(), chr(','), ws(), rule(Rule::object))),
        ),
        Rule::verb => either(rule(Rule::iri), chr('a')),
        Rule::subject => any3(rule(Rule::iri), rule(Rule::BlankNode), rule(Rule::collection)),
        Rule::object => any5(
            rule(Rule::iri),
            rule(Rule::BlankNode),
            rule(Rule::collection),
            rule(Rule::blankNodePropertyList),
            rule(Rule::literal),
        ),
        Rule::literal => any3(
            rule(Rule::RDFLiteral),
            rule(Rule::NumericLiteral),
            rule(Rule::BooleanLiteral),
        ),
        Rule::RDFLiteral => both(
            rule(Rule::STRING),
            opt(
                either(
                    both(ws(), rule(Rule::LANGTAG)),
                    all4(ws(), lit("^^"), ws(), rule(Rule::iri)),
                ),
            ),
        ),
        Rule::NumericLiteral => any3(
            both(rule(Rule::DOUBLE), rule(Rule::EXPONENT)),
            rule(Rule::DECIMAL),
            rule(Rule::INTEGER),
        ),
        Rule::BooleanLiteral => either(lit("true"), lit("false")),
        Rule::STRING => any4(
            quoted(lit("\"\"\""), lit("\"\"\""), Rule::LONG_STRING_VALUE),
            quoted(lit("'''"), lit("'''"), Rule::SINGLE_LONG_STRING_VALUE),
            quoted(chr('"'), chr('"'), Rule::STRING_VALUE),
            quoted(chr('\''), chr('\''), Rule::SINGLE_STRING_VALUE),
        ),
        Rule::SINGLE_STRING_VALUE => piece(class("'\\\n\r")),
        Rule::SINGLE_LONG_STRING_VALUE => piece(either(lit("'''"), chr('\\'))),
        Rule::STRING_VALUE => piece(class("\"\\\n\r")),
        Rule::LONG_STRING_VALUE => piece(either(lit("\"\"\""), chr('\\'))),
        Rule::INTEGER => both(sign(), digits()),
        Rule::DECIMAL => all4(sign(), many(digit()), chr('.'), digits()),
        Rule::DOUBLE => both(
            sign(),
            any3(all3(digits(), chr('.'), many(digit())), both(chr('.'), digits()), digits()),
        ),
        Rule::EXPONENT => all3(class("eE"), sign(), digits()),
        Rule::LANGTAG => all3(
            chr('@'),
            some(alpha()),
            many(both(chr('-'), some(either(alpha(), digit())))),
        ),
        Rule::iri => either(rule(Rule::IRIREF), rule(Rule::PrefixedName)),
        Rule::IRIREF => all3(
            chr('<'),
            many(either(rule(Rule::IRI_VALUE), rule(Rule::UCHAR))),
            chr('>'),
        ),
        Rule::IRI_VALUE => plain(either(range('\u{0}', ' '), class("<>\"{}|^`\\"))),
        Rule::PrefixedName => either(rule(Rule::PNAME_LN), rule(Rule::PNAME_NS)),
        Rule::PNAME_LN => both(rule(Rule::PNAME_NS), rule(Rule::PN_LOCAL)),
        Rule::PNAME_NS => both(opt(pn_prefix()), chr(':')),
        Rule::PN_LOCAL => both(any4(pn_chars_u(), chr(':'), digit(), plx()), dotted(local_char())),
        Rule::PN_LOCAL_ESC => local_escape(),
        Rule::BlankNode => either(rule(Rule::BLANK_NODE_LABEL), rule(Rule::ANON)),
        Rule::BLANK_NODE_LABEL => all3(
            lit("_:"),
            either(pn_chars_u(), digit()),
            dotted(pn_chars()),
        ),
        Rule::ANON => all3(chr('['), ws(), chr(']')),
        Rule::collection => all4(chr('('), ws(), many(both(rule(Rule::object), ws())), chr(')')),
        Rule::blankNodePropertyList => all5(
            chr('['),
            ws(),
            rule(Rule::predicateObjectList),
            ws(),
            chr(']'),
        ),
        Rule::ECHAR => both(chr('\\'), class("tbnrf\"'\\")),
        Rule::UCHAR => either(both(lit("\\u"), hex4()), all3(lit("\\U"), hex4(), hex4())),
        Rule::HEX => hex(),
        Rule::EOI => end(),
    }
}

/// The body of a production.
pub fn body_of(r: Rule) -> (e: Peg)
    ensures
        e == body(r),
{
    match r {
        Rule::turtleDoc => all3(ws(), many(both(rule(Rule::statement), ws())), rule(Rule::EOI)),
        Rule::statement => either(rule(Rule::directive), all3(rule(Rule::triples), ws(), chr('.'))),
        Rule::directive => any4(
            rule(Rule::prefixID),
            rule(Rule::base),
            rule(Rule::sparqlPrefix),
            rule(Rule::sparqlBase),
        ),
        Rule::prefixID => all7(
            lit("@prefix"),
            ws(),
            rule(Rule::PNAME_NS),
            ws(),
            rule(Rule::IRIREF),
            ws(),
            chr('.'),
        ),
        Rule::sparqlPrefix => all5(
            kw_prefix(),
            ws(),
            rule(Rule::PNAME_NS),
            ws(),
            rule(Rule::IRIREF),
        ),
        Rule::base => all5(lit("@base"), ws(), rule(Rule::IRIREF), ws(), chr('.')),
        Rule::sparqlBase => all3(kw_base(), ws(), rule(Rule::IRIREF)),
        Rule::triples => either(
            all3(rule(Rule::subject), ws(), rule(Rule::predicateObjectList)),
            both(
                rule(Rule::blankNodePropertyList),
                opt(both(ws(), rule(Rule::predicateObjectList))),
            ),
        ),
        Rule::predicateObjectList => both(
            verb_objects(),
            many(all3(ws(), chr(';'), opt(both(ws(), verb_objects())))),
        ),
        Rule::objectList => both(
            rule(Rule::object),
            many(all4(ws(), chr(','), ws(), rule(Rule::object))),
        ),
        Rule::verb => either(rule(Rule::iri), chr('a')),
        Rule::subject => any3(rule(Rule::iri), rule(Rule::BlankNode), rule(Rule::collection)),
        Rule::object => any5(
            rule(Rule::iri),
            rule(Rule::BlankNode),
            rule(Rule::collection),
            rule(Rule::blankNodePropertyList),
            rule(Rule::literal),
        ),
        Rule::literal => any3(
            rule(Rule::RDFLiteral),
            rule(Rule::NumericLiteral),
            rule(Rule::BooleanLiteral),
        ),
        Rule::RDFLiteral => both(
            rule(Rule::STRING),
            opt(
                either(
                    both(ws(), rule(Rule::LANGTAG)),
                    all4(ws(), lit("^^"), ws(), rule(Rule::iri)),
                ),
            ),
        ),
        Rule::NumericLiteral => any3(
            both(rule(Rule::DOUBLE), rule(Rule::EXPONENT)),
            rule(Rule::DECIMAL),
            rule(Rule::INTEGER),
        ),
        Rule::BooleanLiteral => either(lit("true"), lit("false")),
        Rule::STRING => any4(
            quoted(lit("\"\"\""), lit("\"\"\""), Rule::LONG_STRING_VALUE),
            quoted(lit("'''"), lit("'''"), Rule::SINGLE_LONG_STRING_VALUE),
            quoted(chr('"'), chr('"'), Rule::STRING_VALUE),
            quoted(chr('\''), chr('\''), Rule::SINGLE_STRING_VALUE),
        ),
        Rule::SINGLE_STRING_VALUE => piece(class("'\\\n\r")),
        Rule::SINGLE_LONG_STRING_VALUE => piece(either(lit("'''"), chr('\\'))),
        Rule::STRING_VALUE => piece(class("\"\\\n\r")),
        Rule::LONG_STRING_VALUE => piece(either(lit("\"\"\""), chr('\\'))),
        Rule::INTEGER => both(sign(), digits()),
        Rule::DECIMAL => all4(sign(), many(digit()), chr('.'), digits()),
        Rule::DOUBLE => both(
            sign(),
            any3(all3(digits(), chr('.'), many(digit())), both(chr('.'), digits()), digits()),
        ),
        Rule::EXPONENT => all3(class("eE"), sign(), digits()),
        Rule::LANGTAG => all3(
            chr('@'),
            some(alpha()),
            many(both(chr('-'), some(either(alpha(), digit())))),
        ),
        Rule::iri => either(rule(Rule::IRIREF), rule(Rule::PrefixedName)),
        Rule::IRIREF => all3(
            chr('<'),
            many(either(rule(Rule::IRI_VALUE), rule(Rule::UCHAR))),
            chr('>'),
        ),
        Rule::IRI_VALUE => plain(either(range('\u{0}', ' '), class("<>\"{}|^`\\"))),
        Rule::PrefixedName => either(rule(Rule::PNAME_LN), rule(Rule::PNAME_NS)),
        Rule::PNAME_LN => both(rule(Rule::PNAME_NS), rule(Rule::PN_LOCAL)),
        Rule::PNAME_NS => both(opt(pn_prefix()), chr(':')),
        Rule::PN_LOCAL => both(any4(pn_chars_u(), chr(':'), digit(), plx()), dotted(local_char())),
        Rule::PN_LOCAL_ESC => local_escape(),
        Rule::BlankNode => either(rule(Rule::BLANK_NODE_LABEL), rule(Rule::ANON)),
        Rule::BLANK_NODE_LABEL => all3(
            lit("_:"),
            either(pn_chars_u(), digit()),
            dotted(pn_chars()),
        ),
        Rule::ANON => all3(chr('['), ws(), chr(']')),
        Rule::collection => all4(chr('('), ws(), many(both(rule(Rule::object), ws())), chr(')')),
        Rule::blankNodePropertyList => all5(
            chr('['),
            ws(),
            rule(Rule::predicateObjectList),
            ws(),
            chr(']'),
        ),
        Rule::ECHAR => both(chr('\\'), class("tbnrf\"'\\")),
        Rule::UCHAR => either(both(lit("\\u"), hex4()), all3(lit("\\U"), hex4(), hex4())),
        Rule::HEX => hex(),
        Rule::EOI => end(),
    }
}

} // verus!

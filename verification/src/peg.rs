//! Parsing expressions and what they match.
//!
//! An expression is tried at a position of the source. It either fails or
//! matches a stretch that starts there, and a match leaves the tokens of
//! the productions that were matched on the way, outermost first. Choice
//! is ordered and repetition is greedy; neither is undone by a failure
//! that comes later.

use vstd::prelude::*;
use crate::grammar::{body, body_of, rank, rank_of, TOP};
use crate::parser::{Rule, Token};

verus! {

/// A parsing expression.
pub enum Peg {
    /// Matches nothing, anywhere.
    Empty,
    /// Matches one character.
    Any,
    /// Matches the given character.
    Chr(char),
    /// Matches one character from the first to the second, both included.
    Range(char, char),
    /// Matches where the source ends.
    End,
    /// Matches the first, then the second.
    Then(Box<Peg>, Box<Peg>),
    /// Matches the first or, where that fails, the second.
    Or(Box<Peg>, Box<Peg>),
    /// Matches the expression as often as it matches and takes
    /// something.
    Many(Box<Peg>),
    /// Matches nothing, where the expression fails.
    Not(Box<Peg>),
    /// Matches the body of a production and leaves a token for it.
    Call(Rule),
}

/// A match: the position after it, and the tokens it leaves.
pub type Match = Option<(int, Seq<Token>)>;

/// The rank at which the expression after a match goes on: the highest
/// where the match took something, else the rank as it was.
pub open spec fn rank_after(from: int, to: int, level: nat) -> nat {
    if to > from {
        TOP as nat
    } else {
        level
    }
}

/// What `e` matches at `pos` of `s`. A production is entered only from
/// a rank above its own, and the rank returns to the highest when a
/// character is taken: so no production is entered twice at one
/// position.
pub open spec fn run(e: Peg, s: Seq<char>, pos: int, level: nat) -> Match
    decreases s.len() - pos, level, e,
{
    if pos < 0 || pos > s.len() {
        None
    } else {
        match e {
            Peg::Empty => Some((pos, Seq::empty())),
            Peg::Any => if pos < s.len() {
                Some((pos + 1, Seq::empty()))
            } else {
                None
            },
            Peg::Chr(c) => if pos < s.len() && s[pos] == c {
                Some((pos + 1, Seq::empty()))
            } else {
                None
            },
            Peg::Range(lo, hi) => if pos < s.len() && lo <= s[pos] <= hi {
                Some((pos + 1, Seq::empty()))
            } else {
                None
            },
            Peg::End => if pos == s.len() {
                Some((pos, Seq::empty()))
            } else {
                None
            },
            Peg::Then(a, b) => match run(*a, s, pos, level) {
                None => None,
                Some((mid, t1)) => if !(pos <= mid <= s.len()) {
                    None
                } else {
                    match run(*b, s, mid, rank_after(pos, mid, level)) {
                        None => None,
                        Some((stop, t2)) => Some((stop, t1 + t2)),
                    }
                },
            },
            Peg::Or(a, b) => match run(*a, s, pos, level) {
                Some(m) => Some(m),
                None => run(*b, s, pos, level),
            },
            Peg::Many(a) => match run(*a, s, pos, level) {
                None => Some((pos, Seq::empty())),
                Some((mid, t1)) => if !(pos < mid <= s.len()) {
                    Some((pos, Seq::empty()))
                } else {
                    match run(Peg::Many(a), s, mid, TOP as nat) {
                        None => Some((mid, t1)),
                        Some((stop, t2)) => Some((stop, t1 + t2)),
                    }
                },
            },
            Peg::Not(a) => match run(*a, s, pos, level) {
                Some(_) => None,
                None => Some((pos, Seq::empty())),
            },
            Peg::Call(r) => if rank(r) < level {
                match run(body(r), s, pos, rank(r)) {
                    None => None,
                    Some((mid, t1)) => if !(pos <= mid <= s.len()) {
                        None
                    } else {
                        Some(
                            (
                                mid,
                                seq![Token { rule: r, start: pos as usize, end: mid as usize }]
                                    + t1,
                            ),
                        )
                    },
                }
            } else {
                None
            },
        }
    }
}

/// Whether every token from the index `from` on covers a stretch of a
/// source of the length `len`.
pub open spec fn within(tokens: Seq<Token>, from: int, len: int) -> bool {
    forall|i: int| from <= i < tokens.len() ==> (#[trigger] tokens[i]).start <= tokens[i].end <= len
}

/// Tries `e` at `pos` of `src`. A match puts its tokens at the end of
/// `out`; a failure leaves `out` as it was.
pub fn try_match(e: &Peg, src: &Vec<char>, pos: usize, level: u8, out: &mut Vec<Token>) -> (r:
    Option<usize>)
    requires
        pos <= src.len(),
    ensures
        match run(*e, src@, pos as int, level as nat) {
            Some((p, tokens)) => r == Some(p as usize) && pos <= p <= src.len() && final(out)@
                == old(out)@ + tokens && within(tokens, 0, src.len() as int),
            None => r is None && final(out)@ == old(out)@,
        },
    decreases src.len() - pos, level, e,
{
    let mark = out.len();
    match e {
        Peg::Empty => {
            assert(out@ =~= old(out)@ + Seq::<Token>::empty());
            Some(pos)
        },
        Peg::Any => {
            if pos < src.len() {
                assert(out@ =~= old(out)@ + Seq::<Token>::empty());
                Some(pos + 1)
            } else {
                None
            }
        },
        Peg::Chr(c) => {
            if pos < src.len() && src[pos] == *c {
                assert(out@ =~= old(out)@ + Seq::<Token>::empty());
                Some(pos + 1)
            } else {
                None
            }
        },
        Peg::Range(lo, hi) => {
            if pos < src.len() && *lo <= src[pos] && src[pos] <= *hi {
                assert(out@ =~= old(out)@ + Seq::<Token>::empty());
                Some(pos + 1)
            } else {
                None
            }
        },
        Peg::End => {
            if pos == src.len() {
                assert(out@ =~= old(out)@ + Seq::<Token>::empty());
                Some(pos)
            } else {
                None
            }
        },
        Peg::Then(a, b) => {
            match try_match(a, src, pos, level, out) {
                None => None,
                Some(mid) => {
                    let ghost t1 = (run(**a, src@, pos as int, level as nat)->0).1;
                    let next = if mid > pos {
                        TOP
                    } else {
                        level
                    };
                    match try_match(b, src, mid, next, out) {
                        None => {
                            out.truncate(mark);
                            assert(out@ =~= old(out)@);
                            None
                        },
                        Some(stop) => {
                            let ghost t2 = (run(**b, src@, mid as int, next as nat)->0).1;
                            assert(out@ =~= old(out)@ + (t1 + t2));
                            Some(stop)
                        },
                    }
                },
            }
        },
        Peg::Or(a, b) => {
            match try_match(a, src, pos, level, out) {
                Some(p) => Some(p),
                None => try_match(b, src, pos, level, out),
            }
        },
        Peg::Many(a) => {
            let mut at = pos;
            let mut now = level;
            let ghost mut taken: Seq<Token> = Seq::empty();
            assert(out@ =~= old(out)@ + taken);
            loop
                invariant
                    pos <= at <= src.len(),
                    *e == Peg::Many(*a),
                    at == pos ==> now == level,
                    at > pos ==> now == TOP,
                    out@ == old(out)@ + taken,
                    within(taken, 0, src.len() as int),
                    match run(*e, src@, at as int, now as nat) {
                        Some((p, rest)) => run(*e, src@, pos as int, level as nat) == Some(
                            (p, taken + rest),
                        ),
                        None => false,
                    },
                decreases src.len() - at,
            {
                let before = out.len();
                match try_match(a, src, at, now, out) {
                    None => {
                        assert(taken + Seq::<Token>::empty() =~= taken);
                        return Some(at);
                    },
                    Some(mid) => {
                        if mid <= at {
                            out.truncate(before);
                            assert(out@ =~= old(out)@ + taken);
                            assert(taken + Seq::<Token>::empty() =~= taken);
                            return Some(at);
                        }
                        proof {
                            let t1 = (run(**a, src@, at as int, now as nat)->0).1;
                            let rest = run(*e, src@, mid as int, TOP as nat);
                            lemma_star_matches(**a, src@, mid as int);
                            assert(taken + (t1 + (rest->0).1) =~= (taken + t1) + (rest->0).1);
                            assert(out@ =~= old(out)@ + (taken + t1));
                            taken = taken + t1;
                        }
                        at = mid;
                        now = TOP;
                    },
                }
            }
        },
        Peg::Not(a) => {
            match try_match(a, src, pos, level, out) {
                Some(_) => {
                    out.truncate(mark);
                    assert(out@ =~= old(out)@);
                    None
                },
                None => {
                    assert(out@ =~= old(out)@ + Seq::<Token>::empty());
                    Some(pos)
                },
            }
        },
        Peg::Call(r) => {
            let inner = rank_of(*r);
            if inner >= level {
                return None;
            }
            out.push(Token { rule: *r, start: pos, end: pos });
            let rule_body = body_of(*r);
            match try_match(&rule_body, src, pos, inner, out) {
                None => {
                    out.truncate(mark);
                    assert(out@ =~= old(out)@);
                    None
                },
                Some(mid) => {
                    let ghost t1 = (run(body(*r), src@, pos as int, inner as nat)->0).1;
                    out.set(mark, Token { rule: *r, start: pos, end: mid });
                    assert(out@ =~= old(out)@ + (seq![Token { rule: *r, start: pos, end: mid }]
                        + t1));
                    Some(mid)
                },
            }
        },
    }
}

/// A repetition always matches.
pub proof fn lemma_star_matches(a: Peg, s: Seq<char>, pos: int)
    requires
        0 <= pos <= s.len(),
    ensures
        run(Peg::Many(Box::new(a)), s, pos, TOP as nat) is Some,
{
}

} // verus!

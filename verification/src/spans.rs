//! Stretches of a source counted in bytes and counted in characters.
//!
//! A tokenizer tells where a token lies by the bytes of the source in
//! UTF-8; the reader counts in characters. A stretch can be told either
//! way where it begins and ends between characters.

use vstd::prelude::*;
use vstd::utf8::{encode_scalar, encode_utf8};
use crate::parser::{Document, Token};

verus! {

/// The number of bytes before the character with the index `i`.
pub open spec fn byte_offset(s: Seq<char>, i: int) -> nat {
    encode_utf8(s.take(i)).len()
}

/// The token of the same label over the same stretch, counted in bytes.
pub open spec fn token_in_bytes(s: Seq<char>, t: Token) -> Token {
    Token {
        rule: t.rule,
        start: byte_offset(s, t.start as int) as usize,
        end: byte_offset(s, t.end as int) as usize,
    }
}

/// The tokens, each counted in bytes.
pub open spec fn in_bytes(s: Seq<char>, tokens: Seq<Token>) -> Seq<Token> {
    tokens.map_values(|t: Token| token_in_bytes(s, t))
}

/// The bytes of characters with one more character are the bytes of
/// the characters and then those of the one.
pub proof fn lemma_encode_push(a: Seq<char>, c: char)
    ensures
        encode_utf8(a.push(c)) == encode_utf8(a) + encode_scalar(c as u32),
    decreases a.len(),
{
    if a.len() == 0 {
        assert(a.push(c).drop_first() =~= a);
        assert(encode_utf8(a.push(c)) =~= encode_utf8(a) + encode_scalar(c as u32));
    } else {
        assert(a.push(c).drop_first() =~= a.drop_first().push(c));
        lemma_encode_push(a.drop_first(), c);
        assert(encode_utf8(a.push(c)) =~= encode_utf8(a) + encode_scalar(c as u32));
    }
}

/// A character has from one to four bytes, and the offset after it is
/// the offset before it and its bytes.
pub proof fn lemma_offset_step(s: Seq<char>, i: int)
    requires
        0 <= i < s.len(),
    ensures
        byte_offset(s, i + 1) == byte_offset(s, i) + encode_scalar(s[i] as u32).len(),
        1 <= encode_scalar(s[i] as u32).len() <= 4,
{
    assert(s.take(i + 1) =~= s.take(i).push(s[i]));
    lemma_encode_push(s.take(i), s[i]);
}

/// The offsets grow with the index.
pub proof fn lemma_offsets_grow(s: Seq<char>, i: int, j: int)
    requires
        0 <= i <= j <= s.len(),
    ensures
        byte_offset(s, i) <= byte_offset(s, j),
        i < j ==> byte_offset(s, i) < byte_offset(s, j),
    decreases j - i,
{
    if i < j {
        lemma_offsets_grow(s, i, j - 1);
        lemma_offset_step(s, j - 1);
    }
}

/// The number of bytes of a character.
fn width(c: char) -> (n: usize)
    ensures
        n == encode_scalar(c as u32).len(),
{
    let v = c as u32;
    if v < 0x80 {
        1
    } else if v < 0x800 {
        2
    } else if v < 0x10000 {
        3
    } else {
        4
    }
}

/// The offset in bytes of each character of `source`, and of its end.
fn offsets(source: &str, chars: &Vec<char>) -> (r: Vec<usize>)
    requires
        chars@ == source@,
    ensures
        r.len() == chars.len() + 1,
        forall|i: int| 0 <= i < r.len() ==> #[trigger] r[i] == byte_offset(source@, i),
{
    let total = source.as_bytes().len();
    assert(source@.take(source@.len() as int) =~= source@);
    assert(byte_offset(source@, chars.len() as int) == total);
    let mut r: Vec<usize> = Vec::new();
    let mut at: usize = 0;
    let mut i: usize = 0;
    assert(source@.take(0) =~= Seq::<char>::empty());
    while i < chars.len()
        invariant
            i <= chars.len(),
            chars@ == source@,
            r.len() == i,
            at == byte_offset(source@, i as int),
            byte_offset(source@, chars.len() as int) == total,
            forall|k: int| 0 <= k < i ==> #[trigger] r[k] == byte_offset(source@, k),
        decreases chars.len() - i,
    {
        proof {
            lemma_offset_step(source@, i as int);
            lemma_offsets_grow(source@, i + 1, chars.len() as int);
        }
        r.push(at);
        at = at + width(chars[i]);
        i += 1;
    }
    r.push(at);
    r
}

/// The tokens, which are counted in characters, counted in bytes.
pub fn to_bytes(source: &str, chars: &Vec<char>, tokens: &Vec<Token>) -> (r: Vec<Token>)
    requires
        chars@ == source@,
        (Document { source: chars@, tokens: tokens@ }).well_formed(),
    ensures
        r@ == in_bytes(source@, tokens@),
{
    let table = offsets(source, chars);
    let mut r: Vec<Token> = Vec::new();
    let mut k: usize = 0;
    while k < tokens.len()
        invariant
            k <= tokens.len(),
            chars@ == source@,
            (Document { source: chars@, tokens: tokens@ }).well_formed(),
            table.len() == chars.len() + 1,
            forall|i: int| 0 <= i < table.len() ==> #[trigger] table[i] == byte_offset(source@, i),
            r.len() == k,
            forall|x: int| 0 <= x < k ==> #[trigger] r[x] == token_in_bytes(source@, tokens[x]),
        decreases tokens.len() - k,
    {
        let t = tokens[k];
        r.push(Token { rule: t.rule, start: table[t.start], end: table[t.end] });
        k += 1;
    }
    assert(r@ =~= in_bytes(source@, tokens@));
    r
}

/// The index at which `table`, which grows, holds `b`.
fn locate(table: &Vec<usize>, b: usize) -> (r: Option<usize>)
    requires
        forall|i: int, j: int| 0 <= i < j < table.len() ==> table[i] < table[j],
    ensures
        match r {
            Some(i) => i < table.len() && table[i as int] == b,
            None => forall|i: int| 0 <= i < table.len() ==> table[i] != b,
        },
{
    let mut low: usize = 0;
    let mut high: usize = table.len();
    while low < high
        invariant
            low <= high <= table.len(),
            forall|i: int, j: int| 0 <= i < j < table.len() ==> table[i] < table[j],
            forall|i: int| 0 <= i < low ==> table[i] < b,
            forall|i: int| high <= i < table.len() ==> table[i] > b,
        decreases high - low,
    {
        let middle = low + (high - low) / 2;
        if table[middle] == b {
            return Some(middle);
        } else if table[middle] < b {
            low = middle + 1;
        } else {
            high = middle;
        }
    }
    None
}

/// The tokens, which are counted in bytes, counted in characters; none
/// where a token does not begin and end between characters of the
/// source, or ends before it begins.
pub fn to_chars(source: &str, chars: &Vec<char>, tokens: &Vec<Token>) -> (r: Option<Vec<Token>>)
    requires
        chars@ == source@,
    ensures
        match r {
            Some(found) => (Document { source: source@, tokens: found@ }).well_formed()
                && in_bytes(source@, found@) == tokens@,
            None => forall|other: Seq<Token>|
                !((Document { source: source@, tokens: other }).well_formed() && #[trigger] in_bytes(
                    source@,
                    other,
                ) == tokens@),
        },
{
    let table = offsets(source, chars);
    let n = chars.len();
    proof {
        assert forall|i: int, j: int| 0 <= i < j < table.len() implies table[i] < table[j] by {
            lemma_offsets_grow(source@, i, j);
        }
    }
    let mut found: Vec<Token> = Vec::new();
    let mut k: usize = 0;
    while k < tokens.len()
        invariant
            k <= tokens.len(),
            n == chars.len(),
            chars@ == source@,
            table.len() == n + 1,
            forall|x: int| 0 <= x < table.len() ==> #[trigger] table[x] == byte_offset(source@, x),
            forall|i: int, j: int| 0 <= i < j < table.len() ==> table[i] < table[j],
            found.len() == k,
            forall|x: int|
                0 <= x < k ==> (#[trigger] found[x]).start <= found[x].end <= n && token_in_bytes(
                    source@,
                    found[x],
                ) == tokens[x],
        decreases tokens.len() - k,
    {
        let t = tokens[k];
        let ends = match locate(&table, t.start) {
            Some(start) => match locate(&table, t.end) {
                Some(end) => if start <= end {
                    Some((start, end))
                } else {
                    None
                },
                None => None,
            },
            None => None,
        };
        match ends {
            Some((start, end)) => {
                found.push(Token { rule: t.rule, start, end });
            },
            None => {
                proof {
                    assert forall|other: Seq<Token>|
                        !((Document { source: source@, tokens: other }).well_formed()
                            && #[trigger] in_bytes(source@, other) == tokens@) by {
                        if (Document { source: source@, tokens: other }).well_formed() && in_bytes(
                            source@,
                            other,
                        ) == tokens@ {
                            let o = other[k as int];
                            assert(in_bytes(source@, other)[k as int] == token_in_bytes(
                                source@,
                                o,
                            ));
                            assert(table[o.start as int] == t.start);
                            assert(table[o.end as int] == t.end);
                        }
                    }
                }
                return None;
            },
        }
        k += 1;
    }
    assert(in_bytes(source@, found@) =~= tokens@);
    Some(found)
}

} // verus!

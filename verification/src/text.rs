//! Conversions between strings and sequences of characters, and the
//! order of strings.

use vstd::prelude::*;
use vstd::std_specs::iter::IteratorSpec;

verus! {

/// `String::push` of the standard library appends one character to the
/// end of the string.
pub assume_specification[ std::string::String::push ](s: &mut std::string::String, c: char)
    ensures
        final(s)@ == old(s)@.push(c),
;

/// The characters of `s`, in order.
pub fn chars_of(s: &str) -> (v: Vec<char>)
    ensures
        v@ == s@,
{
    let mut v: Vec<char> = Vec::new();
    let mut it = s.chars();
    loop
        invariant
            v@ + it.remaining() == s@,
            it.obeys_prophetic_iter_laws(),
            it.decrease() is Some,
        ensures
            v@ == s@,
        decreases it.decrease()->0,
    {
        match it.next() {
            Some(c) => {
                v.push(c);
            },
            None => {
                assert(v@ + it.remaining() =~= v@);
                break ;
            },
        }
        assert(v@ + it.remaining() =~= s@);
    }
    v
}

/// `std::char::from_u32` gives the character with the code point `i`,
/// and nothing where `i` is a surrogate or lies beyond the last code
/// point.
pub assume_specification[ std::char::from_u32 ](i: u32) -> (r: Option<char>)
    ensures
        r == scalar(i as nat),
;

/// The character with the code point `n`, where there is one.
pub open spec fn scalar(n: nat) -> Option<char> {
    if n <= 0xD7FF || 0xE000 <= n <= 0x10FFFF {
        Some(n as char)
    } else {
        None
    }
}

/// The value of a hexadecimal digit.
pub open spec fn hex_digit(ch: char) -> Option<nat> {
    if '0' <= ch <= '9' {
        Some((ch as int - '0' as int) as nat)
    } else if 'a' <= ch <= 'f' {
        Some((ch as int - 'a' as int + 10) as nat)
    } else if 'A' <= ch <= 'F' {
        Some((ch as int - 'A' as int + 10) as nat)
    } else {
        None
    }
}

/// The decimal digits of `n`.
pub open spec fn decimal(n: nat) -> Seq<char>
    decreases n,
{
    if n < 10 {
        seq![('0' as int + n) as char]
    } else {
        decimal(n / 10).push(('0' as int + n % 10) as char)
    }
}

/// `text` without the occurrences of `ch`.
pub open spec fn without(text: Seq<char>, ch: char) -> Seq<char>
    decreases text.len(),
{
    if text.len() == 0 {
        text
    } else if text.last() == ch {
        without(text.drop_last(), ch)
    } else {
        without(text.drop_last(), ch).push(text.last())
    }
}

/// Puts the characters `v[from..to]` at the end of `s`.
pub fn push_slice(s: &mut String, v: &Vec<char>, from: usize, to: usize)
    requires
        from <= to <= v.len(),
    ensures
        final(s)@ == old(s)@ + v@.subrange(from as int, to as int),
{
    let mut i: usize = from;
    assert(s@ =~= old(s)@ + v@.subrange(from as int, i as int));
    while i < to
        invariant
            from <= i <= to <= v.len(),
            s@ == old(s)@ + v@.subrange(from as int, i as int),
        decreases to - i,
    {
        s.push(v[i]);
        i += 1;
        assert(s@ =~= old(s)@ + v@.subrange(from as int, i as int));
    }
}

/// The string made of the characters `v[from..to]`.
pub fn string_of(v: &Vec<char>, from: usize, to: usize) -> (s: String)
    requires
        from <= to <= v.len(),
    ensures
        s@ == v@.subrange(from as int, to as int),
{
    let mut s = String::new();
    push_slice(&mut s, v, from, to);
    assert(s@ =~= v@.subrange(from as int, to as int));
    s
}

/// The string made of the characters `v[from..to]` other than `ch`.
pub fn string_without(v: &Vec<char>, from: usize, to: usize, ch: char) -> (s: String)
    requires
        from <= to <= v.len(),
    ensures
        s@ == without(v@.subrange(from as int, to as int), ch),
{
    let mut s = String::new();
    let mut i: usize = from;
    while i < to
        invariant
            from <= i <= to <= v.len(),
            s@ == without(v@.subrange(from as int, i as int), ch),
        decreases to - i,
    {
        assert(v@.subrange(from as int, i + 1).drop_last() =~= v@.subrange(
            from as int,
            i as int,
        ));
        if v[i] != ch {
            s.push(v[i]);
        }
        i += 1;
    }
    s
}

/// The value of the hexadecimal digit `ch`.
pub fn hex_value(ch: char) -> (r: Option<u32>)
    ensures
        match r {
            Some(v) => hex_digit(ch) == Some(v as nat) && v < 16,
            None => hex_digit(ch) is None,
        },
{
    if '0' <= ch && ch <= '9' {
        Some(ch as u32 - '0' as u32)
    } else if 'a' <= ch && ch <= 'f' {
        Some(ch as u32 - 'a' as u32 + 10)
    } else if 'A' <= ch && ch <= 'F' {
        Some(ch as u32 - 'A' as u32 + 10)
    } else {
        None
    }
}

/// Puts the decimal digits of `n` at the end of `s`.
pub fn push_decimal(s: &mut String, n: u64)
    ensures
        final(s)@ == old(s)@ + decimal(n as nat),
    decreases n,
{
    if n >= 10 {
        push_decimal(s, n / 10);
    }
    let d: u8 = (n % 10) as u8;
    s.push((48u8 + d) as char);
    assert(s@ =~= old(s)@ + decimal(n as nat));
}

/// Whether the character `c` occurs in `s`.
pub fn has_char(s: &str, c: char) -> (found: bool)
    ensures
        found == s@.contains(c),
{
    let v = chars_of(s);
    let mut i: usize = 0;
    while i < v.len()
        invariant
            i <= v.len(),
            v@ == s@,
            forall|j: int| 0 <= j < i ==> v@[j] != c,
        decreases v.len() - i,
    {
        if v[i] == c {
            return true;
        }
        i += 1;
    }
    false
}

} // verus!

//! Text as sequences of characters: getting the characters of a `str`, making a
//! `String` of characters, and writing numbers in decimal.

use vstd::prelude::*;
use vstd::std_specs::iter::IteratorSpec;

verus! {

/// The characters of the text, in order.
pub fn chars_of(src: &str) -> (chars: Vec<char>)
    ensures
        chars@ == src@,
{
    broadcast use vstd::string::group_string_axioms;

    let mut rest = src.chars();
    let mut out: Vec<char> = Vec::new();
    assert(out@ + rest.remaining() =~= src@);
    loop
        invariant
            rest.obeys_prophetic_iter_laws(),
            rest.decrease() is Some,
            out@ + rest.remaining() == src@,
        ensures
            out@ == src@,
        decreases rest.decrease()->0,
    {
        let ghost before = rest;
        let ghost done = out@;
        match rest.next() {
            Some(c) => {
                out.push(c);
                assert(out@ + rest.remaining() =~= done + before.remaining());
            },
            None => {
                assert(done + before.remaining() =~= done);
                break ;
            },
        }
    }
    out
}

/// `String::push`: the character is put behind those that the string holds.
#[verifier::external_body]
fn push_char(s: &mut String, c: char)
    ensures
        final(s)@ == old(s)@.push(c),
{
    s.push(c)
}

/// The string that holds the given characters, in order.
pub fn string_of(chars: &Vec<char>) -> (s: String)
    ensures
        s@ == chars@,
{
    let mut out = String::new();
    let mut i: usize = 0;
    while i < chars.len()
        invariant
            i <= chars.len(),
            out@ == chars@.subrange(0, i as int),
        decreases chars.len() - i,
    {
        push_char(&mut out, chars[i]);
        assert(out@ =~= chars@.subrange(0, i + 1));
        i += 1;
    }
    assert(chars@.subrange(0, chars.len() as int) =~= chars@);
    out
}

/// The number of bytes that a character takes in UTF-8.
pub open spec fn width(c: char) -> nat {
    if (c as u32) < 0x80 {
        1
    } else if (c as u32) < 0x800 {
        2
    } else if (c as u32) < 0x10000 {
        3
    } else {
        4
    }
}

/// The number of bytes that a text takes in UTF-8.
pub open spec fn byte_len(s: Seq<char>) -> nat
    decreases s.len(),
{
    if s.len() == 0 {
        0
    } else {
        byte_len(s.drop_last()) + width(s.last())
    }
}

/// A text takes at least as many bytes as any of its beginnings.
pub proof fn lemma_byte_len_prefix(s: Seq<char>, i: int)
    requires
        0 <= i <= s.len(),
    ensures
        byte_len(s.subrange(0, i)) <= byte_len(s),
        i < s.len() ==> byte_len(s.subrange(0, i + 1)) == byte_len(s.subrange(0, i)) + width(s[i]),
    decreases s.len() - i,
{
    if i < s.len() {
        assert(s.subrange(0, i + 1).drop_last() =~= s.subrange(0, i));
        lemma_byte_len_prefix(s, i + 1);
    } else {
        assert(s.subrange(0, i) =~= s);
    }
}

/// The number of bytes that a character takes in UTF-8.
pub fn char_width(c: char) -> (w: usize)
    ensures
        w == width(c),
{
    let code: u32 = c as u32;
    if code < 0x80 {
        1
    } else if code < 0x800 {
        2
    } else if code < 0x10000 {
        3
    } else {
        4
    }
}

/// The decimal digit for a number below ten.
pub open spec fn digit(d: nat) -> char {
    if d == 0 {
        '0'
    } else if d == 1 {
        '1'
    } else if d == 2 {
        '2'
    } else if d == 3 {
        '3'
    } else if d == 4 {
        '4'
    } else if d == 5 {
        '5'
    } else if d == 6 {
        '6'
    } else if d == 7 {
        '7'
    } else if d == 8 {
        '8'
    } else {
        '9'
    }
}

/// A number written in decimal, without leading zeros.
pub open spec fn decimal(n: nat) -> Seq<char>
    decreases n,
{
    if n < 10 {
        seq![digit(n)]
    } else {
        decimal(n / 10).push(digit(n % 10))
    }
}

/// The decimal digit for a number below ten.
fn digit_of(d: usize) -> (c: char)
    requires
        d < 10,
    ensures
        c == digit(d as nat),
{
    if d == 0 {
        '0'
    } else if d == 1 {
        '1'
    } else if d == 2 {
        '2'
    } else if d == 3 {
        '3'
    } else if d == 4 {
        '4'
    } else if d == 5 {
        '5'
    } else if d == 6 {
        '6'
    } else if d == 7 {
        '7'
    } else if d == 8 {
        '8'
    } else {
        '9'
    }
}

/// Appends a number in decimal to a text.
pub fn push_decimal(out: &mut Vec<char>, n: usize)
    ensures
        final(out)@ == old(out)@ + decimal(n as nat),
    decreases n,
{
    if n < 10 {
        out.push(digit_of(n));
        assert(out@ =~= old(out)@ + decimal(n as nat));
    } else {
        push_decimal(out, n / 10);
        out.push(digit_of(n % 10));
        assert(out@ =~= old(out)@ + decimal(n as nat));
    }
}

/// Appends the characters of a literal or of a string to a text.
pub fn push_str(out: &mut Vec<char>, s: &str)
    ensures
        final(out)@ == old(out)@ + s@,
{
    let mut more = chars_of(s);
    out.append(&mut more);
}

/// Appends a copy of a text to a text.
pub fn push_chars(out: &mut Vec<char>, more: &Vec<char>)
    ensures
        final(out)@ == old(out)@ + more@,
{
    let mut i: usize = 0;
    while i < more.len()
        invariant
            i <= more.len(),
            out@ == old(out)@ + more@.subrange(0, i as int),
        decreases more.len() - i,
    {
        out.push(more[i]);
        assert(out@ =~= old(out)@ + more@.subrange(0, i + 1));
        i += 1;
    }
    assert(more@.subrange(0, more.len() as int) =~= more@);
}

/// The number of bytes that a text takes in UTF-8, or the largest number if it is
/// not below it.
pub open spec fn byte_count(s: Seq<char>) -> nat {
    if byte_len(s) < usize::MAX {
        byte_len(s)
    } else {
        usize::MAX as nat
    }
}

/// The number of bytes that the characters take in UTF-8, or the largest number
/// if it is not below it.
pub fn count_bytes(chars: &Vec<char>) -> (n: usize)
    ensures
        n == byte_count(chars@),
{
    let mut n: usize = 0;
    let mut i: usize = 0;
    assert(chars@.subrange(0, 0) =~= Seq::empty());
    while i < chars.len()
        invariant
            i <= chars.len(),
            n == byte_len(chars@.subrange(0, i as int)),
            n < usize::MAX,
        decreases chars.len() - i,
    {
        proof {
            lemma_byte_len_prefix(chars@, i as int);
            lemma_byte_len_prefix(chars@, i + 1);
        }
        let w = char_width(chars[i]);
        if n >= usize::MAX - w {
            return usize::MAX;
        }
        n = n + w;
        i += 1;
    }
    assert(chars@.subrange(0, chars.len() as int) =~= chars@);
    n
}

/// Whether a text is short enough for its places to be counted: it takes fewer
/// bytes than the largest number.
pub fn fits(src: &str) -> (r: bool)
    ensures
        r == (byte_len(src@) < usize::MAX),
{
    let chars = chars_of(src);
    count_bytes(&chars) < usize::MAX
}

} // verus!

//! Hashes are identifiers for blobs: the SHA-256 hash of the blob, 32 bytes, written
//! as 64 hexadecimal digits in lower case and read in either case.

use crate::text::{
    byte_count, byte_len, chars_of, count_bytes, lemma_byte_len_prefix, string_of, width,
};
use vstd::prelude::*;

verus! {

/// Hashes are identifiers for blobs. Each is a SHA256 hash of the blob.
#[derive(Clone, Copy, Debug, PartialEq, Eq, Hash)]
pub struct Hash([u8; 32]);

impl View for Hash {
    type V = Seq<u8>;

    closed spec fn view(&self) -> Seq<u8> {
        self.0@
    }
}

/// An error parsing a `Hash`.
#[derive(Clone, Copy, Debug, PartialEq, Eq, Structural)]
pub enum HashParseError {
    /// The character at the given index wasn't a hex character.
    BadChar(usize, char),
    /// The hash had an unexpected length.
    BadLength(usize),
}

/// The hexadecimal digit, in lower case, for a number below sixteen.
pub open spec fn hex_digit(d: nat) -> char {
    if d < 10 {
        crate::text::digit(d)
    } else if d == 10 {
        'a'
    } else if d == 11 {
        'b'
    } else if d == 12 {
        'c'
    } else if d == 13 {
        'd'
    } else if d == 14 {
        'e'
    } else {
        'f'
    }
}

/// The number that a hexadecimal digit in either case stands for.
pub open spec fn hex_value(c: char) -> Option<nat> {
    if '0' <= c && c <= '9' {
        Some((c as u32 - '0' as u32) as nat)
    } else if 'a' <= c && c <= 'f' {
        Some((c as u32 - 'a' as u32 + 10) as nat)
    } else if 'A' <= c && c <= 'F' {
        Some((c as u32 - 'A' as u32 + 10) as nat)
    } else {
        None
    }
}

/// Bytes written in hexadecimal: two digits for each, the higher one first.
pub open spec fn hex(bytes: Seq<u8>) -> Seq<char>
    decreases bytes.len(),
{
    if bytes.len() == 0 {
        Seq::empty()
    } else {
        hex(bytes.drop_last()).push(hex_digit(bytes.last() as nat / 16)).push(
            hex_digit(bytes.last() as nat % 16),
        )
    }
}

/// The bytes that the first `2 * n` hexadecimal digits of a text stand for.
pub open spec fn unhex(s: Seq<char>, n: nat) -> Seq<u8>
    decreases n,
{
    if n == 0 {
        Seq::empty()
    } else {
        unhex(s, (n - 1) as nat).push(
            (hex_value(s[2 * n - 2])->0 * 16 + hex_value(s[2 * n - 1])->0) as u8,
        )
    }
}

/// The index of the first character among the first `upto` that is no hexadecimal
/// digit, or `upto` if there is none.
pub open spec fn first_bad(s: Seq<char>, upto: nat) -> nat
    decreases upto,
{
    if upto == 0 {
        0
    } else if first_bad(s, (upto - 1) as nat) < upto - 1 {
        first_bad(s, (upto - 1) as nat)
    } else if hex_value(s[upto - 1]) is None {
        (upto - 1) as nat
    } else {
        upto
    }
}

/// The bytes that a text of hexadecimal digits stands for, or why it stands for
/// none: its length in bytes is not 64, or a character in it is no digit. (A
/// length beyond the largest number is given as that number.)
pub open spec fn parse_hash(s: Seq<char>) -> Result<Seq<u8>, HashParseError> {
    if byte_len(s) != 64 {
        Err(HashParseError::BadLength(byte_count(s) as usize))
    } else if first_bad(s, s.len()) < s.len() {
        Err(HashParseError::BadChar(first_bad(s, s.len()) as usize, s[first_bad(s, s.len()) as int]))
    } else {
        Ok(unhex(s, 32))
    }
}

/// The hexadecimal digit, in lower case, for a number below sixteen.
fn digit_for(d: u8) -> (c: char)
    requires
        d < 16,
    ensures
        c == hex_digit(d as nat),
{
    if d == 0 {
        '0'
    } else if d == 1 {
        '1'
    } else if d == 2 {
        '2'
    } else if d == 3 {
        '3'
    } else if d == 4 {
        '4'
    } else if d == 5 {
        '5'
    } else if d == 6 {
        '6'
    } else if d == 7 {
        '7'
    } else if d == 8 {
        '8'
    } else if d == 9 {
        '9'
    } else if d == 10 {
        'a'
    } else if d == 11 {
        'b'
    } else if d == 12 {
        'c'
    } else if d == 13 {
        'd'
    } else if d == 14 {
        'e'
    } else {
        'f'
    }
}

/// The number that a hexadecimal digit in either case stands for.
fn value_for(c: char) -> (r: Option<u8>)
    ensures
        match r {
            Some(d) => hex_value(c) == Some(d as nat) && d < 16,
            None => hex_value(c) is None,
        },
{
    let code: u32 = c as u32;
    if '0' <= c && c <= '9' {
        Some((code - 48) as u8)
    } else if 'a' <= c && c <= 'f' {
        Some((code - 97 + 10) as u8)
    } else if 'A' <= c && c <= 'F' {
        Some((code - 65 + 10) as u8)
    } else {
        None
    }
}

impl Hash {
    /// Creates a Hash from a slice of 32 bytes.
    pub fn from_bytes(bytes: &[u8]) -> (r: Hash)
        requires
            bytes.len() == 32,
        ensures
            r@ == bytes@,
    {
        let mut hash = [0u8; 32];
        let mut i: usize = 0;
        while i < 32
            invariant
                i <= 32,
                bytes.len() == 32,
                forall|k: int| 0 <= k < i ==> hash@[k] == bytes@[k],
            decreases 32 - i,
        {
            hash[i] = bytes[i];
            i += 1;
        }
        assert(hash@ =~= bytes@);
        Hash(hash)
    }

    /// The bytes of the hash.
    pub fn to_bytes(&self) -> (r: Vec<u8>)
        ensures
            r@ == self@,
    {
        let mut out: Vec<u8> = Vec::new();
        let mut i: usize = 0;
        while i < 32
            invariant
                i <= 32,
                out@ == self.0@.subrange(0, i as int),
            decreases 32 - i,
        {
            out.push(self.0[i]);
            assert(out@ =~= self.0@.subrange(0, i + 1));
            i += 1;
        }
        assert(self.0@.subrange(0, 32) =~= self.0@);
        out
    }

    /// The hash in hexadecimal.
    pub fn to_string(&self) -> (s: String)
        ensures
            s@ == hex(self@),
            self@.len() == 32,
    {
        let mut out: Vec<char> = Vec::new();
        let mut i: usize = 0;
        assert(self.0@.subrange(0, 0) =~= Seq::empty());
        while i < 32
            invariant
                i <= 32,
                out@ == hex(self.0@.subrange(0, i as int)),
            decreases 32 - i,
        {
            let b = self.0[i];
            out.push(digit_for(b / 16));
            out.push(digit_for(b % 16));
            proof {
                let upto = self.0@.subrange(0, i + 1);
                assert(upto.drop_last() =~= self.0@.subrange(0, i as int));
                assert(upto.last() == b);
            }
            i += 1;
        }
        assert(self.0@.subrange(0, 32) =~= self.0@);
        string_of(&out)
    }

    /// Reads a hash from 64 hexadecimal digits.
    pub fn from_str(s: &str) -> (r: Result<Hash, HashParseError>)
        ensures
            match parse_hash(s@) {
                Ok(bytes) => r is Ok && r->Ok_0@ == bytes,
                Err(e) => r == Err::<Hash, HashParseError>(e),
            },
    {
        let chars = chars_of(s);
        let bytes = count_bytes(&chars);
        if bytes != 64 {
            return Err(HashParseError::BadLength(bytes));
        }
        assert(byte_len(chars@) == 64);
        let mut i: usize = 0;
        while i < chars.len()
            invariant
                i <= chars.len(),
                chars@ == s@,
                byte_len(chars@) == 64,
                first_bad(chars@, i as nat) == i,
            decreases chars.len() - i,
        {
            match value_for(chars[i]) {
                Some(_) => {},
                None => {
                    proof {
                        assert(first_bad(chars@, (i + 1) as nat) == i);
                        lemma_first_bad_stays(chars@, (i + 1) as nat, chars@.len());
                    }
                    return Err(HashParseError::BadChar(i, chars[i]));
                },
            }
            i += 1;
        }
        proof {
            lemma_digits_are_bytes(chars@, chars@.len());
            assert(chars@.subrange(0, chars.len() as int) =~= chars@);
        }
        let mut hash = [0u8; 32];
        let mut n: usize = 0;
        while n < 32
            invariant
                n <= 32,
                chars.len() == 64,
                first_bad(chars@, 64) == 64,
                forall|k: int| 0 <= k < n ==> hash@[k] == unhex(chars@, n as nat)[k],
                unhex(chars@, n as nat).len() == n,
            decreases 32 - n,
        {
            proof {
                lemma_no_bad_before(chars@, 64, 2 * n as int);
                lemma_no_bad_before(chars@, 64, 2 * n + 1);
            }
            let hi = value_for(chars[2 * n]);
            let lo = value_for(chars[2 * n + 1]);
            let byte: u8 = match (hi, lo) {
                (Some(h), Some(l)) => h * 16 + l,
                _ => 0,
            };
            let ghost before = unhex(chars@, n as nat);
            hash[n] = byte;
            n += 1;
            assert forall|k: int| 0 <= k < n implies hash@[k] == unhex(chars@, n as nat)[k] by {
                if k < n - 1 {
                    assert(unhex(chars@, n as nat)[k] == before[k]);
                }
            }
        }
        assert(hash@ =~= unhex(chars@, 32));
        Ok(Hash(hash))
    }
}

/// Once a character that is no digit is found among the first `j`, it is the
/// first among any more.
proof fn lemma_first_bad_stays(s: Seq<char>, j: nat, upto: nat)
    requires
        1 <= j <= upto,
        first_bad(s, j) < j,
    ensures
        first_bad(s, upto) == first_bad(s, j),
    decreases upto - j,
{
    if j < upto {
        lemma_first_bad_stays(s, j, (upto - 1) as nat);
    }
}

/// Where no character among the first `upto` is no digit, each of them is a digit.
proof fn lemma_no_bad_before(s: Seq<char>, upto: nat, i: int)
    requires
        first_bad(s, upto) == upto,
        0 <= i < upto,
    ensures
        hex_value(s[i]) is Some,
    decreases upto,
{
    if i < upto - 1 {
        if first_bad(s, (upto - 1) as nat) < upto - 1 {
        } else {
            lemma_first_bad_bound(s, (upto - 1) as nat);
            lemma_no_bad_before(s, (upto - 1) as nat, i);
        }
    }
}

/// The index of the first character that is no digit is at most the number of
/// characters looked at.
proof fn lemma_first_bad_bound(s: Seq<char>, upto: nat)
    ensures
        first_bad(s, upto) <= upto,
    decreases upto,
{
    if upto > 0 {
        lemma_first_bad_bound(s, (upto - 1) as nat);
    }
}

/// A text of hexadecimal digits takes as many bytes as it has characters.
proof fn lemma_digits_are_bytes(s: Seq<char>, upto: nat)
    requires
        upto <= s.len(),
        first_bad(s, upto) == upto,
    ensures
        byte_len(s.subrange(0, upto as int)) == upto,
    decreases upto,
{
    if upto > 0 {
        lemma_first_bad_bound(s, (upto - 1) as nat);
        lemma_digits_are_bytes(s, (upto - 1) as nat);
        lemma_byte_len_prefix(s, upto - 1);
        assert(hex_value(s[upto - 1]) is Some);
    } else {
        assert(s.subrange(0, 0) =~= Seq::empty());
    }
}

/// A hexadecimal digit stands for the number that it was written for.
pub proof fn lemma_digit_read_back(d: nat)
    requires
        d < 16,
    ensures
        hex_value(hex_digit(d)) == Some(d),
        width(hex_digit(d)) == 1,
{
}

/// Bytes in hexadecimal take two digits each, which are those of each byte in turn.
pub proof fn lemma_hex_digits(bytes: Seq<u8>, k: int)
    requires
        0 <= k < bytes.len(),
    ensures
        hex(bytes).len() == 2 * bytes.len(),
        hex(bytes)[2 * k] == hex_digit(bytes[k] as nat / 16),
        hex(bytes)[2 * k + 1] == hex_digit(bytes[k] as nat % 16),
    decreases bytes.len(),
{
    lemma_hex_len(bytes);
    lemma_hex_len(bytes.drop_last());
    if k < bytes.len() - 1 {
        lemma_hex_digits(bytes.drop_last(), k);
        assert(bytes.drop_last()[k] == bytes[k]);
    }
}

/// Bytes in hexadecimal take two digits each.
pub proof fn lemma_hex_len(bytes: Seq<u8>)
    ensures
        hex(bytes).len() == 2 * bytes.len(),
    decreases bytes.len(),
{
    if bytes.len() > 0 {
        lemma_hex_len(bytes.drop_last());
    }
}

/// Among the digits of bytes in hexadecimal, none is no digit.
proof fn lemma_hex_all_digits(bytes: Seq<u8>, upto: nat)
    requires
        upto <= 2 * bytes.len(),
    ensures
        first_bad(hex(bytes), upto) == upto,
        byte_len(hex(bytes).subrange(0, upto as int)) == upto,
    decreases upto,
{
    lemma_hex_len(bytes);
    if upto > 0 {
        lemma_hex_all_digits(bytes, (upto - 1) as nat);
        let k = (upto - 1) / 2;
        lemma_hex_digits(bytes, k);
        lemma_digit_read_back(bytes[k] as nat / 16);
        lemma_digit_read_back(bytes[k] as nat % 16);
        assert(hex_value(hex(bytes)[upto - 1]) is Some);
        assert(width(hex(bytes)[upto - 1]) == 1);
        lemma_byte_len_prefix(hex(bytes), upto - 1);
    } else {
        assert(hex(bytes).subrange(0, 0) =~= Seq::empty());
    }
}

/// The first `n` bytes read from bytes in hexadecimal are these bytes.
proof fn lemma_unhex_hex(bytes: Seq<u8>, n: nat)
    requires
        n <= bytes.len(),
    ensures
        unhex(hex(bytes), n) == bytes.subrange(0, n as int),
    decreases n,
{
    if n > 0 {
        lemma_unhex_hex(bytes, (n - 1) as nat);
        lemma_hex_digits(bytes, n - 1);
        let b = bytes[n - 1] as nat;
        lemma_digit_read_back(b / 16);
        lemma_digit_read_back(b % 16);
        assert(b / 16 * 16 + b % 16 == b);
        assert(unhex(hex(bytes), n) =~= bytes.subrange(0, n as int));
    } else {
        assert(unhex(hex(bytes), 0) =~= bytes.subrange(0, 0));
    }
}

/// A hash that is written in hexadecimal and read again is the hash that was written.
pub proof fn lemma_hash_read_back(bytes: Seq<u8>)
    requires
        bytes.len() == 32,
    ensures
        parse_hash(hex(bytes)) == Ok::<Seq<u8>, HashParseError>(bytes),
{
    lemma_hex_len(bytes);
    lemma_hex_all_digits(bytes, 64);
    lemma_unhex_hex(bytes, 32);
    assert(hex(bytes).subrange(0, 64) =~= hex(bytes));
    assert(bytes.subrange(0, 32) =~= bytes);
}

} // verus!

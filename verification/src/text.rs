//! Texts as sequences of characters, and their layout in UTF-8 bytes.
//!
//! The scanner reads characters but reports byte offsets. This module relates
//! the two: the byte length of a text, and splitting a `&str` after a number
//! of characters.

use vstd::prelude::*;
use vstd::string::*;
use vstd::utf8::*;

verus! {

/// Number of bytes that the UTF-8 encoding of `c` takes.
pub open spec fn char_width(c: char) -> nat {
    encode_scalar(c as u32).len()
}

/// Number of bytes that the UTF-8 encoding of the text `s` takes.
pub open spec fn utf8_len(s: Seq<char>) -> nat {
    encode_utf8(s).len()
}

/// A character takes one to four bytes, by the size of its code point.
pub proof fn lemma_char_width(c: char)
    ensures
        char_width(c) == if (c as u32) < 0x80 {
            1nat
        } else if (c as u32) < 0x800 {
            2nat
        } else if (c as u32) < 0x10000 {
            3nat
        } else {
            4nat
        },
{
}

/// The encoding of a concatenation is the concatenation of the encodings.
pub proof fn lemma_encode_concat(a: Seq<char>, b: Seq<char>)
    ensures
        encode_utf8(a + b) == encode_utf8(a) + encode_utf8(b),
    decreases a.len(),
{
    if a.len() > 0 {
        assert((a + b).drop_first() =~= a.drop_first() + b);
        lemma_encode_concat(a.drop_first(), b);
    }
}

/// A text of one character is as long as that character is wide.
pub proof fn lemma_utf8_len_single(c: char)
    ensures
        utf8_len(seq![c]) == char_width(c),
        1 <= char_width(c) <= 4,
{
    let s = seq![c];
    assert(encode_utf8(s) =~= encode_scalar(c as u32)) by {
        reveal_with_fuel(encode_utf8, 2);
    }
}

/// Every character takes at least one byte.
pub proof fn lemma_utf8_len_lower_bound(s: Seq<char>)
    ensures
        s.len() <= utf8_len(s),
    decreases s.len(),
{
    if s.len() > 0 {
        lemma_utf8_len_lower_bound(s.drop_first());
    }
}

/// Splitting a text at character `k` splits its byte length.
pub proof fn lemma_utf8_len_split(s: Seq<char>, k: int)
    requires
        0 <= k <= s.len(),
    ensures
        utf8_len(s) == utf8_len(s.take(k)) + utf8_len(s.skip(k)),
        encode_utf8(s) == encode_utf8(s.take(k)) + encode_utf8(s.skip(k)),
{
    assert(s =~= s.take(k) + s.skip(k));
    lemma_encode_concat(s.take(k), s.skip(k));
}

/// A longer prefix has the greater byte length.
pub proof fn lemma_utf8_len_prefix_order(s: Seq<char>, i: int, j: int)
    requires
        0 <= i <= j <= s.len(),
    ensures
        utf8_len(s.take(i)) + (j - i) <= utf8_len(s.take(j)) <= utf8_len(s),
{
    lemma_utf8_len_split(s, j);
    lemma_utf8_len_split(s.take(j), i);
    assert(s.take(j).take(i) =~= s.take(i));
    lemma_utf8_len_lower_bound(s.take(j).skip(i));
}

/// The byte length of a prefix, taken in two parts.
pub proof fn lemma_utf8_len_take_add(s: Seq<char>, i: int, j: int)
    requires
        0 <= i,
        0 <= j,
        i + j <= s.len(),
    ensures
        utf8_len(s.take(i + j)) == utf8_len(s.take(i)) + utf8_len(s.skip(i).take(j)),
{
    lemma_utf8_len_split(s.take(i + j), i);
    assert(s.take(i + j).take(i) =~= s.take(i));
    assert(s.take(i + j).skip(i) =~= s.skip(i).take(j));
}

/// Two texts with the same encoding are the same text.
pub proof fn lemma_encode_injective(a: Seq<char>, b: Seq<char>)
    requires
        encode_utf8(a) == encode_utf8(b),
    ensures
        a == b,
{
    encode_utf8_decode_utf8(a);
    encode_utf8_decode_utf8(b);
}

/// The end of every prefix of a text is a character boundary of its encoding.
pub proof fn lemma_prefix_is_boundary(s: Seq<char>, k: int)
    requires
        0 <= k <= s.len(),
    ensures
        is_char_boundary(encode_utf8(s), utf8_len(s.take(k)) as int),
    decreases k,
{
    let bytes = encode_utf8(s);
    encode_utf8_valid_utf8(s);
    if k > 0 {
        let tail = s.drop_first();
        encode_utf8_first_scalar(s);
        assert(pop_first_scalar(bytes) =~= encode_utf8(tail));
        assert(s.take(k).drop_first() =~= tail.take(k - 1));
        lemma_utf8_len_prefix_order(s, 0, k);
        lemma_prefix_is_boundary(tail, k - 1);
    }
}

/// The encoding of a text that is not empty ends in a byte below `0x80` just
/// when the last character is an ASCII character; the byte is then that
/// character, and the bytes before it encode the characters before it.
pub proof fn lemma_last_byte(s: Seq<char>)
    requires
        s.len() > 0,
    ensures
        encode_utf8(s).len() > 0,
        (encode_utf8(s).last() < 0x80) == ((s.last() as u32) < 0x80),
        encode_utf8(s).last() < 0x80 ==> {
            &&& encode_utf8(s).last() as u32 == s.last() as u32
            &&& encode_utf8(s).drop_last() == encode_utf8(s.drop_last())
        },
{
    let c = s.last();
    let v = c as u32;
    assert(s =~= s.drop_last() + seq![c]);
    lemma_encode_concat(s.drop_last(), seq![c]);
    assert(encode_utf8(seq![c]) =~= encode_scalar(v)) by {
        reveal_with_fuel(encode_utf8, 2);
    }
    assert(v < 0x80 ==> ((v & 0x7F) as u8) as u32 == v) by (bit_vector);
    assert(0x80u8 | ((v & 0x3F) as u8) >= 0x80) by (bit_vector);
}

/// The number of bytes that `c` takes in UTF-8.
pub fn len_utf8(c: char) -> (n: usize)
    ensures
        n == char_width(c),
        1 <= n <= 4,
{
    let v: u32 = c as u32;
    if v < 0x80 {
        1
    } else if v < 0x800 {
        2
    } else if v < 0x10000 {
        3
    } else {
        4
    }
}

/// The length of `s` in bytes.
pub fn byte_len(s: &str) -> (n: usize)
    ensures
        n == utf8_len(s@),
{
    s.as_bytes().len()
}

/// The first character of `s`, if it has one.
pub fn first_char(s: &str) -> (r: Option<char>)
    ensures
        r == if s@.len() > 0 {
            Some(s@[0])
        } else {
            None::<char>
        },
{
    let mut rest = s.chars();
    rest.next()
}

/// Splits `s` after its first `k` characters, which take `n` bytes.
pub(crate) fn split_after<'a>(s: &'a str, n: usize, Ghost(k): Ghost<int>) -> (parts: (&'a str, &'a str))
    requires
        0 <= k <= s@.len(),
        n == utf8_len(s@.take(k)),
    ensures
        parts.0@ == s@.take(k),
        parts.1@ == s@.skip(k),
{
    proof {
        encode_utf8_valid_utf8(s@);
        lemma_prefix_is_boundary(s@, k);
        lemma_utf8_len_split(s@, k);
    }
    let parts = s.split_at(n);
    proof {
        let bytes = s.spec_bytes();
        assert(bytes.subrange(0, n as int) =~= encode_utf8(s@.take(k)));
        assert(bytes.subrange(n as int, bytes.len() as int) =~= encode_utf8(s@.skip(k)));
        lemma_encode_injective(parts.0@, s@.take(k));
        lemma_encode_injective(parts.1@, s@.skip(k));
    }
    parts
}

/// Whether `a` and `b` hold the same text.
pub fn str_eq(a: &str, b: &str) -> (same: bool)
    ensures
        same == (a@ == b@),
{
    let x = a.as_bytes();
    let y = b.as_bytes();
    if x.len() != y.len() {
        return false;
    }
    let mut i: usize = 0;
    while i < x.len()
        invariant
            i <= x.len(),
            x.len() == y.len(),
            x@ == a.spec_bytes(),
            y@ == b.spec_bytes(),
            forall|j: int| 0 <= j < i ==> x@[j] == y@[j],
        decreases x.len() - i,
    {
        if x[i] != y[i] {
            return false;
        }
        i += 1;
    }
    proof {
        assert(x@ =~= y@);
        lemma_encode_injective(a@, b@);
    }
    true
}

} // verus!

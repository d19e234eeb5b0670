//! Facts about the UTF-8 bytes of a text.

use vstd::prelude::*;
use vstd::utf8::{
    encode_utf8, is_ascii_chars, is_ascii_chars_encode_utf8, is_char_boundary, valid_utf8,
};

verus! {

/// The bytes of a text made of two parts are the bytes of the first, then
/// the bytes of the second.
pub proof fn lemma_encode_utf8_concat(a: Seq<char>, b: Seq<char>)
    ensures
        encode_utf8(a + b) == encode_utf8(a) + encode_utf8(b),
    decreases a.len(),
{
    if a.len() == 0 {
        assert(a + b =~= b);
        assert(encode_utf8(a) + encode_utf8(b) =~= encode_utf8(b));
    } else {
        lemma_encode_utf8_concat(a.drop_first(), b);
        assert((a + b).drop_first() =~= a.drop_first() + b);
        assert(encode_utf8(a + b) =~= encode_utf8(a) + encode_utf8(b));
    }
}

/// A text made of the ASCII character `c` alone, `n` times, has the byte of
/// `c`, `n` times.
pub proof fn lemma_encode_utf8_repeat(c: char, n: nat)
    requires
        c <= '\u{7f}',
    ensures
        encode_utf8(Seq::new(n, |i: int| c)) == Seq::new(n, |i: int| c as u8),
{
    let chars = Seq::new(n, |i: int| c);
    assert(is_ascii_chars(chars));
    is_ascii_chars_encode_utf8(chars);
    assert(encode_utf8(chars) =~= Seq::new(n, |i: int| c as u8));
}

/// In the bytes of a text, a position behind ASCII bytes only is the start
/// of a character.
pub proof fn lemma_ascii_prefix_boundary(bytes: Seq<u8>, k: int)
    requires
        valid_utf8(bytes),
        0 <= k <= bytes.len(),
        forall|j: int| 0 <= j < k ==> bytes[j] < 0x80,
    ensures
        is_char_boundary(bytes, k),
    decreases k,
{
    if k > 0 {
        let rest = bytes.subrange(1, bytes.len() as int);
        assert(vstd::utf8::pop_first_scalar(bytes) == rest);
        assert forall|j: int| 0 <= j < k - 1 implies rest[j] < 0x80 by {
            assert(rest[j] == bytes[j + 1]);
        }
        lemma_ascii_prefix_boundary(rest, k - 1);
    }
}

} // verus!

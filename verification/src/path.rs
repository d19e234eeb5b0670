//! The text of a derivation path: `m/`, then segments parted by `/`. A
//! segment is a decimal number, hardened where an apostrophe follows it.

use crate::ascii::{APOSTROPHE, DIGIT_0, DIGIT_9, LOWER_M, PLUS, SLASH};
use crate::radix::{all_digits, digits_value, is_dec_digit};
use vstd::prelude::*;

verus! {

/// What a hardened segment has added to its number.
pub const HARDENED: u32 = 0x8000_0000;

/// The number of bytes of `s` before its first `/`; all of them where it
/// has none.
pub open spec fn token_len(s: Seq<u8>) -> nat
    decreases s.len(),
{
    if s.len() == 0 || s[0] == SLASH {
        0
    } else {
        1 + token_len(s.skip(1))
    }
}

/// The number that the text `s` writes in 32 bits: an optional `+`, then
/// one digit or more, the number no larger than `u32::MAX`.
pub open spec fn u32_text(s: Seq<u8>) -> Option<u32> {
    let digits = if s.len() > 0 && s[0] == PLUS {
        s.skip(1)
    } else {
        s
    };
    if digits.len() > 0 && all_digits(digits, 10) && digits_value(digits, 10) <= u32::MAX {
        Some(digits_value(digits, 10) as u32)
    } else {
        None
    }
}

/// The value of one segment. An apostrophe at the end marks it hardened:
/// its number then has to be below `2^31`, and `2^31` is added to it.
pub open spec fn segment(token: Seq<u8>) -> Option<u32> {
    if token.len() > 0 && token.last() == APOSTROPHE {
        match u32_text(token.drop_last()) {
            Some(v) => if v < HARDENED {
                Some((v + HARDENED) as u32)
            } else {
                None
            },
            None => None,
        }
    } else {
        u32_text(token)
    }
}

/// The values of the segments of `s`, which are parted by `/`; `None`
/// where one of them has no value. Text without a `/` is one segment.
pub open spec fn segments(s: Seq<u8>) -> Option<Seq<u32>>
    decreases s.len(),
{
    let n = token_len(s);
    match segment(s.take(n as int)) {
        None => None,
        Some(v) => if n >= s.len() {
            Some(seq![v])
        } else {
            match segments(s.skip(n as int + 1)) {
                None => None,
                Some(rest) => Some(seq![v] + rest),
            }
        },
    }
}

/// The segments of the path `s`. Text that does not start with `m/` is the
/// empty path.
pub open spec fn derivation_path(s: Seq<u8>) -> Option<Seq<u32>> {
    if s.len() >= 2 && s[0] == LOWER_M && s[1] == SLASH {
        segments(s.skip(2))
    } else {
        Some(Seq::empty())
    }
}

/// Where `s` has no `/` before `n`, and ends or has one at `n`, its first
/// token has `n` bytes.
proof fn lemma_token_len(s: Seq<u8>, n: nat)
    requires
        n <= s.len(),
        forall|k: int| 0 <= k < n ==> s[k] != SLASH,
        n == s.len() || s[n as int] == SLASH,
    ensures
        token_len(s) == n,
    decreases n,
{
    if n > 0 {
        lemma_token_len(s.skip(1), (n - 1) as nat);
    }
}

/// A decimal digit string counts no less than any of its prefixes.
proof fn lemma_prefix_value(s: Seq<u8>, k: int)
    requires
        0 <= k <= s.len(),
    ensures
        digits_value(s.take(k), 10) <= digits_value(s, 10),
    decreases s.len() - k,
{
    if k == s.len() {
        assert(s.take(k) =~= s);
    } else {
        lemma_prefix_value(s.drop_last(), k);
        assert(s.drop_last().take(k) =~= s.take(k));
    }
}

/// Reads `s[from..to]` as a number of 32 bits.
fn parse_u32(s: &[u8], from: usize, to: usize) -> (r: Option<u32>)
    requires
        from <= to <= s@.len(),
    ensures
        r == u32_text(s@.subrange(from as int, to as int)),
{
    let ghost text = s@.subrange(from as int, to as int);
    let mut i: usize = from;
    if i < to && s[i] == PLUS {
        i += 1;
    }
    let start: usize = i;
    let ghost digits = s@.subrange(start as int, to as int);
    assert(digits =~= if text.len() > 0 && text[0] == PLUS {
        text.skip(1)
    } else {
        text
    });
    if i == to {
        return None;
    }
    let mut acc: u64 = 0;
    while i < to
        invariant
            start <= i <= to <= s@.len(),
            text == s@.subrange(from as int, to as int),
            digits == s@.subrange(start as int, to as int),
            digits.len() > 0,
            digits == if text.len() > 0 && text[0] == PLUS {
                text.skip(1)
            } else {
                text
            },
            all_digits(digits.take(i - start), 10),
            acc == digits_value(digits.take(i - start), 10),
            acc <= u32::MAX,
        decreases to - i,
    {
        let b: u8 = s[i];
        let ghost head = digits.take(i - start + 1);
        assert(head.drop_last() =~= digits.take(i - start));
        assert(head.last() == b);
        if b < DIGIT_0 || b > DIGIT_9 {
            assert(!is_dec_digit(digits[i - start]));
            return None;
        }
        let next: u64 = acc * 10 + (b - DIGIT_0) as u64;
        if next > 0xFFFF_FFFF {
            proof {
                lemma_prefix_value(digits, i - start + 1);
            }
            return None;
        }
        acc = next;
        i += 1;
    }
    assert(digits.take(to - start) =~= digits);
    Some(acc as u32)
}

/// Reads `s[from..to]` as one segment.
fn parse_segment(s: &[u8], from: usize, to: usize) -> (r: Option<u32>)
    requires
        from <= to <= s@.len(),
    ensures
        r == segment(s@.subrange(from as int, to as int)),
{
    let ghost token = s@.subrange(from as int, to as int);
    if from < to && s[to - 1] == APOSTROPHE {
        assert(token.drop_last() =~= s@.subrange(from as int, to - 1));
        match parse_u32(s, from, to - 1) {
            Some(v) => if v < HARDENED {
                Some(v + HARDENED)
            } else {
                None
            },
            None => None,
        }
    } else {
        parse_u32(s, from, to)
    }
}

/// Reads a derivation path. `None` where a segment has no value.
pub fn parse_derivation_path(path: &[u8]) -> (r: Option<Vec<u32>>)
    ensures
        match derivation_path(path@) {
            Some(segs) => r is Some && r->Some_0@ == segs,
            None => r is None,
        },
{
    let mut out: Vec<u32> = Vec::new();
    let len: usize = path.len();
    if !(len >= 2 && path[0] == LOWER_M && path[1] == SLASH) {
        return Some(out);
    }
    let ghost whole = segments(path@.skip(2));
    let mut i: usize = 2;
    loop
        invariant
            2 <= i <= len,
            len == path@.len(),
            whole == match segments(path@.skip(i as int)) {
                None => None::<Seq<u32>>,
                Some(rest) => Some(out@ + rest),
            },
            derivation_path(path@) == whole,
        decreases len - i,
    {
        let ghost rest = path@.skip(i as int);
        let mut j: usize = i;
        while j < len && path[j] != SLASH
            invariant
                i <= j <= len,
                len == path@.len(),
                forall|k: int| i <= k < j ==> path@[k] != SLASH,
            decreases len - j,
        {
            j += 1;
        }
        proof {
            lemma_token_len(rest, (j - i) as nat);
            assert(rest.take(j - i) =~= path@.subrange(i as int, j as int));
        }
        match parse_segment(path, i, j) {
            None => {
                return None;
            },
            Some(v) => {
                if j == len {
                    out.push(v);
                    return Some(out);
                }
                proof {
                    assert(rest.skip(j - i + 1) =~= path@.skip(j + 1));
                    match segments(path@.skip(j + 1)) {
                        None => {},
                        Some(tail) => {
                            assert(out@ + (seq![v] + tail) =~= out@.push(v) + tail);
                        },
                    }
                }
                out.push(v);
                i = j + 1;
            },
        }
    }
}

} // verus!

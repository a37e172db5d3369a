//! Byte-level building blocks of hash preimages and the proof-of-work target.

use vstd::prelude::*;
use vstd::string::*;

verus! {

/// The canonical decimal representation of `n` in ASCII: most significant
/// digit first, no sign, no padding, no leading zero except for `0` itself.
pub open spec fn decimal(n: nat) -> Seq<u8>
    decreases n,
{
    if n < 10 {
        seq![(48 + n) as u8]
    } else {
        decimal(n / 10).push((48 + n % 10) as u8)
    }
}

/// The UTF-8 bytes of a string.
pub open spec fn utf8(text: Seq<char>) -> Seq<u8> {
    vstd::utf8::encode_utf8(text)
}

/// Whether `hash` opens with at least `difficulty` characters `'0'`.
pub open spec fn meets_difficulty(hash: Seq<char>, difficulty: u32) -> bool {
    &&& difficulty <= hash.len()
    &&& forall|i: int| 0 <= i < difficulty ==> hash[i] == '0'
}

/// Appends the decimal representation of `n` to `buf`.
pub fn push_decimal(buf: &mut Vec<u8>, n: u64)
    ensures
        final(buf)@ == old(buf)@ + decimal(n as nat),
    decreases n,
{
    if n >= 10 {
        push_decimal(buf, n / 10);
    }
    let digit: u8 = (n % 10) as u8;
    buf.push(48u8 + digit);
}

/// Appends the UTF-8 bytes of `text` to `buf`.
pub fn push_text(buf: &mut Vec<u8>, text: &str)
    ensures
        final(buf)@ == old(buf)@ + utf8(text@),
{
    buf.extend_from_slice(text.as_bytes());
}

/// Whether two strings are the same text.
pub fn same_text(a: &str, b: &str) -> (same: bool)
    ensures
        same == (a@ == b@),
{
    let x = a.as_bytes();
    let y = b.as_bytes();
    proof {
        vstd::utf8::encode_utf8_decode_utf8(a@);
        vstd::utf8::encode_utf8_decode_utf8(b@);
    }
    if x.len() != y.len() {
        return false;
    }
    let mut i: usize = 0;
    while i < x.len()
        invariant
            x@.len() == y@.len(),
            i <= x@.len(),
            forall|j: int| 0 <= j < i ==> x@[j] == y@[j],
            (a@ == b@) == (x@ == y@),
        decreases x@.len() - i,
    {
        if x[i] != y[i] {
            return false;
        }
        i += 1;
    }
    assert(x@ =~= y@);
    true
}

/// Tests the proof-of-work target: does `hash` start with `difficulty` zeros?
pub fn has_leading_zeros(hash: &str, difficulty: u32) -> (met: bool)
    ensures
        met == meets_difficulty(hash@, difficulty),
{
    let len: usize = hash.unicode_len();
    let wanted: usize = difficulty as usize;
    if wanted > len {
        return false;
    }
    let mut i: usize = 0;
    while i < wanted
        invariant
            wanted == difficulty,
            wanted <= len,
            len == hash@.len(),
            i <= wanted,
            forall|j: int| 0 <= j < i ==> hash@[j] == '0',
        decreases wanted - i,
    {
        if hash.get_char(i) != '0' {
            return false;
        }
        i += 1;
    }
    true
}

} // verus!

//! Byte-range helpers shared by the packet and filesystem code: overwriting
//! a range of a buffer, filling one with a constant, and big/little-endian
//! field access.
use vstd::prelude::*;

verus! {

/// `s` with the bytes starting at `at` replaced by `t`.
pub open spec fn splice(s: Seq<u8>, at: int, t: Seq<u8>) -> Seq<u8> {
    Seq::new(s.len(), |i: int| if at <= i < at + t.len() { t[i - at] } else { s[i] })
}

/// `s` with the bytes in `[start, end)` set to `v`.
pub open spec fn filled(s: Seq<u8>, start: int, end: int, v: u8) -> Seq<u8> {
    Seq::new(s.len(), |i: int| if start <= i < end { v } else { s[i] })
}

/// The big-endian 16-bit value stored at `s[i..i + 2]`.
pub open spec fn be16_at(s: Seq<u8>, i: int) -> nat {
    (s[i] as nat) * 256 + (s[i + 1] as nat)
}

/// The big-endian 32-bit value stored at `s[i..i + 4]`.
pub open spec fn be32_at(s: Seq<u8>, i: int) -> nat {
    (s[i] as nat) * 0x1000000 + (s[i + 1] as nat) * 0x10000 + (s[i + 2] as nat) * 0x100 + (
    s[i + 3] as nat)
}

/// The little-endian 16-bit value stored at `s[i..i + 2]`.
pub open spec fn le16_at(s: Seq<u8>, i: int) -> nat {
    (s[i] as nat) + (s[i + 1] as nat) * 256
}

/// The little-endian 32-bit value stored at `s[i..i + 4]`.
pub open spec fn le32_at(s: Seq<u8>, i: int) -> nat {
    (s[i] as nat) + (s[i + 1] as nat) * 0x100 + (s[i + 2] as nat) * 0x10000 + (s[i + 3] as nat)
        * 0x1000000
}

/// Copies `src` into `buf` starting at `at`.
pub fn write_bytes(buf: &mut [u8], at: usize, src: &[u8])
    requires
        at + src@.len() <= old(buf)@.len(),
    ensures
        final(buf)@ == splice(old(buf)@, at as int, src@),
{
    let mut k: usize = 0;
    let n = buf.len();
    while k < src.len()
        invariant
            n == buf@.len(),
            k <= src@.len(),
            at + src@.len() <= buf@.len(),
            buf@.len() == old(buf)@.len(),
            forall|i: int|
                0 <= i < buf@.len() ==> #[trigger] buf@[i] == (if at <= i < at + k {
                    src@[i - at]
                } else {
                    old(buf)@[i]
                }),
        decreases src@.len() - k,
    {
        buf[at + k] = src[k];
        k = k + 1;
    }
    assert(buf@ =~= splice(old(buf)@, at as int, src@));
}

/// Sets every byte of `buf[start..end]` to `v`.
pub fn fill_bytes(buf: &mut [u8], start: usize, end: usize, v: u8)
    requires
        start <= end <= old(buf)@.len(),
    ensures
        final(buf)@ == filled(old(buf)@, start as int, end as int, v),
{
    let mut k: usize = start;
    while k < end
        invariant
            start <= k <= end,
            end <= buf@.len(),
            buf@.len() == old(buf)@.len(),
            forall|i: int|
                0 <= i < buf@.len() ==> #[trigger] buf@[i] == (if start <= i < k {
                    v
                } else {
                    old(buf)@[i]
                }),
        decreases end - k,
    {
        buf[k] = v;
        k = k + 1;
    }
    assert(buf@ =~= filled(old(buf)@, start as int, end as int, v));
}

/// Whether `buf[at..at + t.len()]` holds exactly the bytes of `t`.
pub fn bytes_eq_at(buf: &[u8], at: usize, t: &[u8]) -> (r: bool)
    requires
        at + t@.len() <= buf@.len(),
    ensures
        r == (buf@.subrange(at as int, at + t@.len()) == t@),
{
    let mut k: usize = 0;
    let n = buf.len();
    while k < t.len()
        invariant
            n == buf@.len(),
            k <= t@.len(),
            at + t@.len() <= buf@.len(),
            forall|j: int| 0 <= j < k ==> buf@[at + j] == t@[j],
        decreases t@.len() - k,
    {
        if buf[at + k] != t[k] {
            assert(buf@.subrange(at as int, at + t@.len())[k as int] != t@[k as int]);
            return false;
        }
        k = k + 1;
    }
    assert(buf@.subrange(at as int, at + t@.len()) =~= t@);
    true
}

} // verus!

//! The Internet checksum (RFC 1071) shared by IPv4, ICMP and TCP: the
//! one's-complement sum of the big-endian 16-bit words of a byte range (an
//! odd trailing byte counts as if followed by a zero byte), carries folded
//! back in, then complemented.
use vstd::prelude::*;
use vstd::arithmetic::div_mod::{lemma_fundamental_div_mod, lemma_mod_multiples_vanish};

verus! {

/// Sum of the big-endian 16-bit words of `s`, two bytes at a time; a lone
/// trailing byte counts as the high half of a word whose low half is zero.
pub open spec fn word_sum(s: Seq<u8>) -> nat
    decreases s.len(),
{
    if s.len() == 0 {
        0
    } else if s.len() == 1 {
        (s[0] as nat) * 256
    } else {
        (s[0] as nat) * 256 + (s[1] as nat) + word_sum(s.skip(2))
    }
}

/// Folds every carry above bit 15 back into the low 16 bits until none is
/// left.
pub open spec fn fold_carries(x: nat) -> nat
    decreases x,
{
    if x < 0x10000 {
        x
    } else {
        proof {
            assert(x % 0x10000 + x / 0x10000 < x) by (nonlinear_arith)
                requires x >= 0x10000;
        }
        fold_carries(x % 0x10000 + x / 0x10000)
    }
}

/// The checksum value of a running word sum: the one's complement of the
/// folded sum.
pub open spec fn finish_spec(sum: nat) -> u16 {
    (0xFFFF - fold_carries(sum)) as u16
}

/// The Internet checksum of `s`.
pub open spec fn checksum_spec(s: Seq<u8>) -> u16 {
    finish_spec(word_sum(s))
}

/// Each word contributes at most `0xFFFF`.
pub proof fn lemma_word_sum_bound(s: Seq<u8>)
    ensures
        word_sum(s) <= 0xFFFF * ((s.len() + 1) / 2),
    decreases s.len(),
{
    if s.len() >= 2 {
        lemma_word_sum_bound(s.skip(2));
    }
}

/// A folded value never exceeds 16 bits.
pub proof fn lemma_fold_bound(x: nat)
    ensures
        fold_carries(x) <= 0xFFFF,
    decreases x,
{
    if x >= 0x10000 {
        lemma_fold_bound(x % 0x10000 + x / 0x10000);
    }
}

/// Adds the big-endian words of `data` to the running sum `sum` (the
/// accumulation half of the checksum, so that several byte ranges can feed
/// one sum before it is finished).
pub fn checksum16_accumulate(sum: u32, data: &[u8]) -> (r: u32)
    requires
        sum + word_sum(data@) <= u32::MAX,
    ensures
        r == sum + word_sum(data@),
{
    let mut acc = sum;
    let mut i: usize = 0;
    let n = data.len();
    proof {
        assert(data@.skip(0) =~= data@);
    }
    while n - i >= 2
        invariant
            n == data@.len(),
            i <= n,
            acc + word_sum(data@.skip(i as int)) == sum + word_sum(data@),
            sum + word_sum(data@) <= u32::MAX,
        decreases n - i,
    {
        proof {
            assert(data@.skip(i as int).skip(2) =~= data@.skip(i + 2));
        }
        acc = acc + (data[i] as u32) * 256 + (data[i + 1] as u32);
        i = i + 2;
    }
    if i < n {
        proof {
            assert(data@.skip(i as int).len() == 1);
        }
        acc = acc + (data[i] as u32) * 256;
    } else {
        proof {
            assert(data@.skip(i as int).len() == 0);
        }
    }
    acc
}

/// Folds the carries of a running sum and complements it (the finishing
/// half of the checksum).
pub fn checksum16_finish(sum: u32) -> (r: u16)
    ensures
        r == finish_spec(sum as nat),
{
    let mut s = sum;
    while s >> 16 != 0
        invariant
            fold_carries(s as nat) == fold_carries(sum as nat),
        decreases s,
    {
        assert(s & 0xFFFF == s % 0x10000) by (bit_vector);
        assert(s >> 16 == s / 0x10000) by (bit_vector);
        let lo = s & 0xFFFF;
        let hi = s >> 16;
        s = lo + hi;
    }
    assert(s >> 16 == 0 ==> s < 0x10000) by (bit_vector);
    let r = !(s as u16);
    assert(s < 0x10000 ==> !(s as u16) == 0xFFFF - s) by (bit_vector);
    r
}

/// The Internet checksum of `data`.
pub fn checksum16(data: &[u8]) -> (r: u16)
    requires
        word_sum(data@) <= u32::MAX,
    ensures
        r == checksum_spec(data@),
{
    checksum16_finish(checksum16_accumulate(0, data))
}

/// Folding carries keeps a sum's value modulo `0xFFFF`, stays within 16
/// bits, and gives zero only for zero.
proof fn lemma_fold_mod(x: nat)
    ensures
        fold_carries(x) <= 0xFFFF,
        fold_carries(x) % 0xFFFF == x % 0xFFFF,
        fold_carries(x) == 0 <==> x == 0,
    decreases x,
{
    if x >= 0x10000 {
        let q = x / 0x10000;
        let r = x % 0x10000;
        lemma_fundamental_div_mod(x as int, 0x10000);
        let y = r + q;
        assert(x == 0xFFFF * q + y);
        lemma_mod_multiples_vanish(q as int, y as int, 0xFFFF);
        assert(q >= 1);
        lemma_fold_mod(y as nat);
    }
}

/// Writing `a`, `b` into a zeroed, word-aligned pair of bytes adds the
/// word they form to the sum.
proof fn lemma_word_sum_fill(s: Seq<u8>, k: int, a: u8, b: u8)
    requires
        0 <= k,
        k % 2 == 0,
        k + 2 <= s.len(),
        s[k] == 0,
        s[k + 1] == 0,
    ensures
        word_sum(s.update(k, a).update(k + 1, b)) == word_sum(s) + (a as nat) * 256 + (b as nat),
    decreases s.len(),
{
    let t = s.update(k, a).update(k + 1, b);
    if k == 0 {
        assert(t.skip(2) =~= s.skip(2));
    } else {
        assert(t.skip(2) =~= s.skip(2).update(k - 2, a).update(k - 1, b));
        lemma_word_sum_fill(s.skip(2), k - 2, a, b);
    }
}

/// Filling a zeroed, word-aligned checksum field of `s` with the checksum
/// of everything it covers (the words summing to `base` outside `s`, such
/// as a pseudo-header, and `s` itself) makes the whole check out: the
/// checksum computed over the filled data comes to zero.
pub proof fn lemma_checksum_fills_to_zero(base: nat, s: Seq<u8>, k: int)
    requires
        0 <= k,
        k % 2 == 0,
        k + 2 <= s.len(),
        s[k] == 0,
        s[k + 1] == 0,
    ensures
        ({
            let c = finish_spec(base + word_sum(s));
            finish_spec(base + word_sum(s.update(k, (c / 256) as u8).update(k + 1, (c % 256) as u8))) == 0
        }),
{
    let w = base + word_sum(s);
    let f = fold_carries(w);
    lemma_fold_mod(w);
    let c = finish_spec(w);
    assert(c == 0xFFFF - f);
    lemma_word_sum_fill(s, k, (c / 256) as u8, (c % 256) as u8);
    let w2 = w + c;
    assert(base + word_sum(s.update(k, (c / 256) as u8).update(k + 1, (c % 256) as u8)) == w2);
    lemma_fundamental_div_mod(w as int, 0xFFFF);
    lemma_fundamental_div_mod(f as int, 0xFFFF);
    let qw = w as int / 0xFFFF;
    let qf = f as int / 0xFFFF;
    assert(w2 == 0xFFFF * (qw - qf + 1) + 0);
    lemma_mod_multiples_vanish(qw - qf + 1, 0, 0xFFFF);
    assert(w2 % 0xFFFF == 0);
    assert(w2 > 0);
    lemma_fold_mod(w2 as nat);
    assert(fold_carries(w2 as nat) == 0xFFFF);
}

} // verus!

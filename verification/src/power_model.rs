//! The activity model: the power drawn by a transition is the number of bits
//! that toggle.

use vstd::prelude::*;

verus! {

/// Number of one bits in the binary representation of `b`.
pub open spec fn popcount(b: u8) -> nat
    decreases b,
{
    if b == 0 {
        0
    } else {
        (b % 2) as nat + popcount(b / 2)
    }
}

/// A value below `2^k` has at most `k` one bits.
proof fn lemma_popcount_bound(b: u8, k: nat)
    requires
        (b as int) < vstd::arithmetic::power2::pow2(k),
    ensures
        popcount(b) <= k,
    decreases b,
{
    if b != 0 {
        if k == 0 {
            vstd::arithmetic::power2::lemma2_to64();
        } else {
            vstd::arithmetic::power2::lemma_pow2_unfold(k);
            lemma_popcount_bound(b / 2, (k - 1) as nat);
        }
    }
}

/// A byte has at most eight one bits.
pub proof fn lemma_popcount_le_8(b: u8)
    ensures
        popcount(b) <= 8,
{
    vstd::arithmetic::power2::lemma2_to64();
    lemma_popcount_bound(b, 8);
}

/// Counts the one bits of a byte.
pub fn count_ones(b: u8) -> (c: u32)
    ensures
        c == popcount(b),
        c <= 8,
{
    proof {
        lemma_popcount_le_8(b);
    }
    let mut rest: u8 = b;
    let mut c: u32 = 0;
    while rest != 0
        invariant
            c + popcount(rest) == popcount(b),
            popcount(b) <= 8,
        decreases rest,
    {
        c = c + (rest % 2) as u32;
        rest = rest / 2;
    }
    c
}

/// Number of one bits in a sequence of bytes.
pub open spec fn bytes_weight(a: Seq<u8>) -> nat
    decreases a.len(),
{
    if a.len() == 0 {
        0
    } else {
        bytes_weight(a.drop_last()) + popcount(a.last())
    }
}

/// Bytewise exclusive or of two byte sequences, over the positions that both
/// have.
pub open spec fn bytes_xor(a: Seq<u8>, b: Seq<u8>) -> Seq<u8> {
    Seq::new(
        if a.len() <= b.len() {
            a.len()
        } else {
            b.len()
        },
        |i: int| a[i] ^ b[i],
    )
}

/// Number of bit positions in which two byte sequences differ.
pub open spec fn bytes_distance(a: Seq<u8>, b: Seq<u8>) -> nat {
    bytes_weight(bytes_xor(a, b))
}

/// A byte sequence has at most eight one bits per byte.
pub proof fn lemma_bytes_weight_bound(a: Seq<u8>)
    ensures
        bytes_weight(a) <= 8 * a.len(),
    decreases a.len(),
{
    if a.len() > 0 {
        lemma_bytes_weight_bound(a.drop_last());
        lemma_popcount_le_8(a.last());
    }
}

/// Values that have a Hamming weight and a Hamming distance to each other.
pub trait Hamming {
    /// Number of bits of the value that are set.
    spec fn weight(&self) -> nat;

    /// Number of bits in which the value differs from `other`.
    spec fn distance(&self, other: &Self) -> nat;

    /// Whether the weight of the value can be taken.
    spec fn weighable(&self) -> bool;

    /// Whether the distance between the value and `other` can be taken.
    spec fn comparable(&self, other: &Self) -> bool;

    /// Get the Hamming weight of the value, i.e. number of bits set to `1`.
    fn hamming_weight(&self) -> (w: u32)
        requires
            self.weighable(),
        ensures
            w == self.weight(),
    ;

    /// Get the Hamming distance between two values, i.e. number of bits that differ.
    fn hamming_distance(&self, other: &Self) -> (d: u32)
        requires
            self.comparable(other),
        ensures
            d == self.distance(other),
    ;
}

/// Counts the one bits of a byte slice.
pub fn slice_weight(a: &[u8]) -> (w: u32)
    requires
        8 * a@.len() <= u32::MAX,
    ensures
        w == bytes_weight(a@),
{
    let mut w: u32 = 0;
    let mut i: usize = 0;
    while i < a.len()
        invariant
            i <= a@.len(),
            8 * a@.len() <= u32::MAX,
            w == bytes_weight(a@.take(i as int)),
        decreases a@.len() - i,
    {
        proof {
            assert(a@.take(i + 1).drop_last() =~= a@.take(i as int));
            lemma_bytes_weight_bound(a@.take(i as int));
        }
        w = w + count_ones(a[i]);
        i = i + 1;
    }
    proof {
        assert(a@.take(i as int) =~= a@);
    }
    w
}

/// Counts the bit positions in which two byte slices differ, over the bytes
/// that both have.
pub fn slice_distance(a: &[u8], b: &[u8]) -> (d: u32)
    requires
        8 * a@.len() <= u32::MAX || 8 * b@.len() <= u32::MAX,
    ensures
        d == bytes_distance(a@, b@),
{
    let n: usize = if a.len() <= b.len() {
        a.len()
    } else {
        b.len()
    };
    let ghost x = bytes_xor(a@, b@);
    let mut d: u32 = 0;
    let mut i: usize = 0;
    while i < n
        invariant
            i <= n,
            n == x.len(),
            n <= a@.len(),
            n <= b@.len(),
            8 * n <= u32::MAX,
            x == bytes_xor(a@, b@),
            d == bytes_weight(x.take(i as int)),
        decreases n - i,
    {
        proof {
            assert(x.take(i + 1).drop_last() =~= x.take(i as int));
            lemma_bytes_weight_bound(x.take(i as int));
        }
        d = d + count_ones(a[i] ^ b[i]);
        i = i + 1;
    }
    proof {
        assert(x.take(i as int) =~= x);
    }
    d
}

impl<'a> Hamming for &'a [u8] {
    open spec fn weight(&self) -> nat {
        bytes_weight(self@)
    }

    open spec fn distance(&self, other: &Self) -> nat {
        bytes_distance(self@, other@)
    }

    open spec fn weighable(&self) -> bool {
        8 * self@.len() <= u32::MAX
    }

    open spec fn comparable(&self, other: &Self) -> bool {
        8 * self@.len() <= u32::MAX || 8 * other@.len() <= u32::MAX
    }

    fn hamming_weight(&self) -> (w: u32) {
        slice_weight(*self)
    }

    fn hamming_distance(&self, other: &Self) -> (d: u32) {
        slice_distance(*self, *other)
    }
}

/// The power drawn when a signal goes from `prev_value` to `new_value`: the
/// number of bits that toggle.  No static term is added.
pub fn power_model<V: Hamming>(prev_value: &V, new_value: &V) -> (p: u64)
    requires
        new_value.comparable(prev_value),
    ensures
        p == new_value.distance(prev_value),
{
    let d: u32 = new_value.hamming_distance(prev_value);
    d as u64
}

} // verus!

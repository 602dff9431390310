//! The codes of the three numbers between zero and one that go over the wire
//! exactly: zero, one half and one.

use vstd::prelude::*;
use vstd::arithmetic::power2::{
    lemma2_to64, lemma_pow2_strictly_increases, lemma_pow2_unfold, pow2,
};

verus! {

/// One of the three numbers that have codes of their own.
#[derive(Clone, Copy, Debug, PartialEq, Eq, Structural)]
pub enum Anchor {
    Zero,
    Half,
    One,
}

/// The largest code of `bit_count` bits: all bits set.
pub open spec fn max_code(bit_count: nat) -> nat {
    (pow2(bit_count) - 1) as nat
}

/// The code of an anchor in `bit_count` bits: 0 for zero, the largest code
/// for one, and one more than half the largest code for one half.
pub open spec fn anchor_code(anchor: Anchor, bit_count: nat) -> nat {
    match anchor {
        Anchor::Zero => 0,
        Anchor::Half => max_code(bit_count) / 2 + 1,
        Anchor::One => max_code(bit_count),
    }
}

/// The anchor that a code stands for, if it stands for one. Where a code
/// stands for two, as the code 1 of one bit does, one half comes before one.
pub open spec fn code_anchor(code: nat, bit_count: nat) -> Option<Anchor> {
    if code == 0 {
        Some(Anchor::Zero)
    } else if code == max_code(bit_count) / 2 + 1 {
        Some(Anchor::Half)
    } else if code == max_code(bit_count) {
        Some(Anchor::One)
    } else {
        None
    }
}

/// The largest code of `bit_count` bits.
pub fn largest_code(bit_count: usize) -> (code: u32)
    requires
        1 <= bit_count <= 32,
    ensures
        code == max_code(bit_count as nat),
        code >= 1,
{
    proof {
        lemma2_to64();
        lemma_shift_is_pow2(bit_count as nat);
        if bit_count > 1 {
            lemma_pow2_strictly_increases(1, bit_count as nat);
        }
    }
    ((1u64 << bit_count as u64) - 1) as u32
}

/// The code of an anchor in `bit_count` bits.
pub fn code_of_anchor(anchor: Anchor, bit_count: usize) -> (code: u32)
    requires
        1 <= bit_count <= 32,
    ensures
        code == anchor_code(anchor, bit_count as nat),
{
    let max = largest_code(bit_count);
    match anchor {
        Anchor::Zero => 0,
        Anchor::Half => max / 2 + 1,
        Anchor::One => max,
    }
}

/// The anchor that a code stands for, if it stands for one.
pub fn anchor_of_code(code: u32, bit_count: usize) -> (anchor: Option<Anchor>)
    requires
        1 <= bit_count <= 32,
    ensures
        anchor == code_anchor(code as nat, bit_count as nat),
{
    let max = largest_code(bit_count);
    if code == 0 {
        Some(Anchor::Zero)
    } else if code == max / 2 + 1 {
        Some(Anchor::Half)
    } else if code == max {
        Some(Anchor::One)
    } else {
        None
    }
}

proof fn lemma_shift_is_pow2(n: nat)
    requires
        n <= 32,
    ensures
        (1u64 << (n as u64)) == pow2(n),
    decreases n,
{
    lemma2_to64();
    if n == 0 {
        assert(1u64 << 0u64 == 1u64) by (bit_vector);
    } else {
        lemma_shift_is_pow2((n - 1) as nat);
        lemma_pow2_unfold(n);
        let m = (n - 1) as u64;
        assert(m < 32 ==> (1u64 << ((m + 1) as u64)) == 2 * (1u64 << m)) by (bit_vector);
    }
}

/// In two bits or more the three anchors have three codes, and each code
/// stands for its anchor.
pub proof fn lemma_anchor_round_trip(anchor: Anchor, bit_count: nat)
    requires
        2 <= bit_count,
    ensures
        code_anchor(anchor_code(anchor, bit_count), bit_count) == Some(anchor),
{
    lemma2_to64();
    if bit_count > 2 {
        lemma_pow2_strictly_increases(2, bit_count);
    }
}

} // verus!

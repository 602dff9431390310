//! Bit sequences: the mathematical model that every codec contract is stated over.
//!
//! A stream is a sequence of booleans. Integers travel least significant bit
//! first, and a byte buffer stands for the concatenation of its bytes' eight
//! bits, low bit first.

use vstd::prelude::*;

verus! {

/// Bit `k` of a machine word, counted from the least significant end.
pub open spec fn bit_at(x: u32, k: u32) -> bool {
    (x >> k) & 1 == 1
}

/// The number that a bit sequence spells, least significant bit first.
pub open spec fn bits_value(bits: Seq<bool>) -> nat
    decreases bits.len(),
{
    if bits.len() == 0 {
        0
    } else {
        (if bits[0] { 1nat } else { 0nat }) + 2 * bits_value(bits.drop_first())
    }
}

/// The `n` low bits of `v`, least significant first.
pub open spec fn int_bits(v: nat, n: nat) -> Seq<bool>
    decreases n,
{
    if n == 0 {
        Seq::empty()
    } else {
        seq![v % 2 == 1] + int_bits(v / 2, (n - 1) as nat)
    }
}

/// The bits of a byte buffer: byte `i / 8`, bit `i % 8`.
pub open spec fn bytes_bits(bytes: Seq<u8>) -> Seq<bool> {
    Seq::new((8 * bytes.len()) as nat, |i: int| bit_at(bytes[i / 8] as u32, (i % 8) as u32))
}

/// `n` cleared bits.
pub open spec fn zero_bits(n: nat) -> Seq<bool> {
    Seq::new(n, |i: int| false)
}

/// A bit sequence filled up with cleared bits to the next byte boundary.
pub open spec fn pad_to_byte(bits: Seq<bool>) -> Seq<bool> {
    bits + zero_bits(((8 - bits.len() % 8) % 8) as nat)
}

pub proof fn lemma_int_bits_len(v: nat, n: nat)
    ensures
        int_bits(v, n).len() == n,
    decreases n,
{
    if n > 0 {
        lemma_int_bits_len(v / 2, (n - 1) as nat);
    }
}

proof fn lemma_word_low_bit(x: u32)
    by (bit_vector)
    ensures
        bit_at(x, 0) == (x % 2 == 1),
        x >> 1 == x / 2,
        x == (x & 1) + 2 * (x >> 1),
        (x >> 0) == x,
{
}

proof fn lemma_word_shift_bit(x: u32, k: u32)
    by (bit_vector)
    requires
        k < 31,
    ensures
        bit_at(x >> 1, k) == bit_at(x, (k + 1) as u32),
        !bit_at(x >> 1, 31),
{
}

proof fn lemma_word_shift_high(x: u32, n: u32)
    by (bit_vector)
    requires
        1 <= n <= 32,
        n < 32 ==> x >> n == 0,
    ensures
        n - 1 < 32 ==> (x >> 1) >> ((n - 1) as u32) == 0,
{
}

/// Bit `k` of the low bits of a word is bit `k` of the word.
pub proof fn lemma_int_bits_index(x: u32, n: nat, k: nat)
    requires
        k < n <= 32,
    ensures
        int_bits(x as nat, n).len() == n,
        int_bits(x as nat, n)[k as int] == bit_at(x, k as u32),
    decreases n,
{
    lemma_int_bits_len(x as nat, n);
    lemma_word_low_bit(x);
    if k > 0 {
        lemma_int_bits_index(x >> 1, (n - 1) as nat, (k - 1) as nat);
        lemma_word_shift_bit(x, (k - 1) as u32);
    }
}

/// A word whose bits below `bits.len()` are `bits` and whose other bits are
/// clear has the value that `bits` spells.
pub proof fn lemma_bits_value_word(x: u32, bits: Seq<bool>)
    requires
        bits.len() <= 32,
        forall|k: int| 0 <= k < bits.len() ==> bits[k] == bit_at(x, k as u32),
        bits.len() < 32 ==> x >> (bits.len() as u32) == 0,
    ensures
        bits_value(bits) == x,
    decreases bits.len(),
{
    lemma_word_low_bit(x);
    if bits.len() > 0 {
        let rest = bits.drop_first();
        assert forall|k: int| 0 <= k < rest.len() implies rest[k] == bit_at(x >> 1, k as u32) by {
            lemma_word_shift_bit(x, k as u32);
        }
        lemma_word_shift_high(x, bits.len() as u32);
        lemma_bits_value_word(x >> 1, rest);
    }
}

/// A word that holds what `bits` spells has `bits` as its low bits and nothing
/// above them.
pub proof fn lemma_value_bits_word(x: u32, bits: Seq<bool>)
    requires
        bits.len() <= 32,
        bits_value(bits) == x,
    ensures
        forall|k: int| 0 <= k < bits.len() ==> bits[k] == bit_at(x, k as u32),
        bits.len() < 32 ==> x >> (bits.len() as u32) == 0,
    decreases bits.len(),
{
    lemma_word_low_bit(x);
    if bits.len() > 0 {
        let rest = bits.drop_first();
        lemma_value_bits_word(x >> 1, rest);
        assert forall|k: int| 0 <= k < bits.len() implies bits[k] == bit_at(x, k as u32) by {
            if k > 0 {
                assert(rest[k - 1] == bits[k]);
                lemma_word_shift_bit(x, (k - 1) as u32);
            }
        }
        lemma_word_unshift_high(x, bits.len() as u32);
    }
}

proof fn lemma_word_unshift_high(x: u32, n: u32)
    by (bit_vector)
    requires
        1 <= n <= 32,
        n - 1 < 32 ==> (x >> 1) >> ((n - 1) as u32) == 0,
    ensures
        n < 32 ==> x >> n == 0,
{
}

/// What a bit sequence spells takes no more bits than the sequence has.
pub proof fn lemma_bits_value_bound(bits: Seq<bool>)
    ensures
        bits_value(bits) < vstd::arithmetic::power2::pow2(bits.len()),
    decreases bits.len(),
{
    vstd::arithmetic::power2::lemma2_to64();
    if bits.len() > 0 {
        lemma_bits_value_bound(bits.drop_first());
        vstd::arithmetic::power2::lemma_pow2_unfold(bits.len());
    }
}

/// The low bits of what a sequence spells are the sequence again.
pub proof fn lemma_int_bits_of_value(bits: Seq<bool>)
    ensures
        int_bits(bits_value(bits), bits.len()) == bits,
    decreases bits.len(),
{
    if bits.len() > 0 {
        lemma_int_bits_of_value(bits.drop_first());
        lemma_int_bits_len(bits_value(bits), bits.len());
        assert(int_bits(bits_value(bits), bits.len()) =~= bits);
    } else {
        assert(int_bits(bits_value(bits), bits.len()) =~= bits);
    }
}

/// The low bits of a number spell the number, if it fits in them.
pub proof fn lemma_bits_value_of_int(v: nat, n: nat)
    requires
        v < vstd::arithmetic::power2::pow2(n),
    ensures
        bits_value(int_bits(v, n)) == v,
    decreases n,
{
    vstd::arithmetic::power2::lemma2_to64();
    if n > 0 {
        vstd::arithmetic::power2::lemma_pow2_unfold(n);
        lemma_bits_value_of_int(v / 2, (n - 1) as nat);
        lemma_int_bits_len(v / 2, (n - 1) as nat);
        assert(int_bits(v, n).drop_first() =~= int_bits(v / 2, (n - 1) as nat));
    }
}

/// Two byte buffers with the same bits are the same buffer.
pub proof fn lemma_bytes_bits_injective(a: Seq<u8>, b: Seq<u8>)
    requires
        bytes_bits(a) == bytes_bits(b),
    ensures
        a == b,
{
    assert(a.len() == b.len()) by {
        assert(bytes_bits(a).len() == 8 * a.len());
        assert(bytes_bits(b).len() == 8 * b.len());
    }
    assert forall|j: int| 0 <= j < a.len() implies a[j] == b[j] by {
        let wa = bytes_bits(a).subrange(8 * j, 8 * j + 8);
        assert forall|k: int| 0 <= k < 8 implies wa[k] == bit_at(a[j] as u32, k as u32) by {
            assert((8 * j + k) / 8 == j && (8 * j + k) % 8 == k);
        }
        assert forall|k: int| 0 <= k < 8 implies wa[k] == bit_at(b[j] as u32, k as u32) by {
            assert((8 * j + k) / 8 == j && (8 * j + k) % 8 == k);
            assert(wa[k] == bytes_bits(b)[8 * j + k]);
        }
        lemma_byte_high(a[j]);
        lemma_byte_high(b[j]);
        lemma_bits_value_word(a[j] as u32, wa);
        lemma_bits_value_word(b[j] as u32, wa);
    }
    assert(a =~= b);
}

pub proof fn lemma_byte_high(b: u8)
    by (bit_vector)
    ensures
        (b as u32) >> 8 == 0,
{
}

proof fn lemma_word_set_bit(code: u32, depth: u32, k: u32)
    by (bit_vector)
    requires
        depth < 32,
        code >> depth == 0,
        k <= depth,
    ensures
        bit_at(code | (1u32 << depth), k) == (k == depth || bit_at(code, k)),
        !bit_at(code, depth),
        depth < 31 ==> (code | (1u32 << depth)) >> ((depth + 1) as u32) == 0,
        depth < 31 ==> code >> ((depth + 1) as u32) == 0,
{
}

/// One more bit on top of a word that fits in `depth` bits: its low
/// `depth + 1` bits are the low `depth` bits and then that bit.
pub proof fn lemma_int_bits_push(code: u32, depth: nat, bit: bool)
    requires
        depth < 32,
        code >> (depth as u32) == 0,
    ensures
        ({
            let next = if bit { code | (1u32 << (depth as u32)) } else { code };
            &&& int_bits(next as nat, depth + 1) == int_bits(code as nat, depth).push(bit)
            &&& depth + 1 < 32 ==> next >> ((depth + 1) as u32) == 0
        }),
{
    let next = if bit { code | (1u32 << (depth as u32)) } else { code };
    lemma_int_bits_len(next as nat, depth + 1);
    lemma_int_bits_len(code as nat, depth);
    lemma_word_set_bit(code, depth as u32, 0);
    assert forall|k: int| 0 <= k < depth + 1 implies int_bits(next as nat, depth + 1)[k]
        == int_bits(code as nat, depth).push(bit)[k] by {
        lemma_int_bits_index(next, depth + 1, k as nat);
        lemma_word_set_bit(code, depth as u32, k as u32);
        if k < depth {
            lemma_int_bits_index(code, depth, k as nat);
        }
    }
    assert(int_bits(next as nat, depth + 1) =~= int_bits(code as nat, depth).push(bit));
}

} // verus!

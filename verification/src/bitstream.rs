//! A bit-granular reader and writer over a byte buffer.

use vstd::prelude::*;
use vstd::arithmetic::power2::{
    lemma2_to64, lemma_pow2_strictly_increases, lemma_pow2_unfold, pow2,
};
use crate::bits::{
    bit_at, bits_value, bytes_bits, int_bits, lemma_bits_value_bound, lemma_bits_value_word,
    lemma_int_bits_index, lemma_int_bits_len, lemma_value_bits_word, pad_to_byte, zero_bits,
};
use crate::huffman::{HuffmanProcessor, string_bits, take_string};
use crate::text::{bytes_text, decode_text, encode_text, text_bytes};

verus! {

/// A read ran past the end of the buffer.
#[derive(Clone, Copy, Debug, PartialEq, Eq, Structural)]
pub struct Truncated;

/// A bit cursor: a byte index and a bit index inside that byte.
#[derive(Clone, Copy, Debug)]
struct Cursor {
    position: usize,
    shift: usize,
}

/// An append/consume buffer with a bit cursor.
#[derive(Debug)]
pub struct BitStream {
    data: Vec<u8>,
    cursor: Cursor,
}

/// A place in a stream to come back to.
#[derive(Clone, Copy, Debug)]
pub struct Mark {
    cursor: Cursor,
}

impl View for Mark {
    type V = nat;

    closed spec fn view(&self) -> nat {
        (self.cursor.position * 8 + self.cursor.shift) as nat
    }
}

/// What a stream is to its contracts: the bits of its buffer and the cursor's
/// absolute bit index.
pub struct StreamView {
    pub bits: Seq<bool>,
    pub pos: nat,
}

impl StreamView {
    /// The buffer's bytes.
    pub open spec fn bytes(self) -> Seq<u8> {
        leading_bytes(self.bits, self.bits.len() / 8)
    }

    /// The bits are those of whole bytes, as the bits of every stream are.
    #[verifier::opaque]
    pub open spec fn whole(self) -> bool {
        self.bits == bytes_bits(self.bytes())
    }

    /// The bits from the cursor to the end of the buffer.
    pub open spec fn remaining(self) -> Seq<bool> {
        if self.pos <= self.bits.len() {
            self.bits.skip(self.pos as int)
        } else {
            Seq::empty()
        }
    }

    /// The bits before the cursor.
    pub open spec fn written(self) -> Seq<bool> {
        self.bits.take(self.pos as int)
    }

    /// The cursor stands inside the buffer, so that a write has a byte to start in.
    pub open spec fn writable(self) -> bool {
        &&& self.bits.len() % 8 == 0
        &&& self.pos / 8 < self.bits.len() / 8
    }

    /// The cursor stands in the last byte and nothing is set at or after it:
    /// the state of a stream that has only been appended to.
    pub open spec fn at_end(self) -> bool {
        &&& self.bits.len() == 8 * (self.pos / 8 + 1)
        &&& forall|i: int| self.pos <= i < self.bits.len() ==> !self.bits[i]
    }

    /// The stream after `w` has been written at the cursor. The bits before the
    /// cursor stay, `w` follows, the byte that the new cursor stands in is
    /// cleared from the cursor on, and the buffer grows by one cleared byte for
    /// every byte boundary that the write reaches. Writing nothing changes nothing.
    pub open spec fn write(self, w: Seq<bool>) -> StreamView {
        if w.len() == 0 {
            self
        } else {
            let end = self.pos + w.len();
            StreamView {
                bits: Seq::new(
                    (self.bits.len() + 8 * (end / 8 - self.pos / 8)) as nat,
                    |i: int|
                        if i < self.pos {
                            self.bits[i]
                        } else if i < end {
                            w[i - self.pos]
                        } else if i < 8 * (end / 8 + 1) {
                            false
                        } else if i < self.bits.len() {
                            self.bits[i]
                        } else {
                            false
                        },
                ),
                pos: end,
            }
        }
    }

    /// `after` is this stream once a read has consumed the remaining bits down
    /// to `rest`.
    pub open spec fn reads_to(self, after: StreamView, rest: Seq<bool>) -> bool {
        &&& after.bits == self.bits
        &&& after.pos == self.pos + self.remaining().len() - rest.len()
        &&& after.remaining() == rest
    }

    /// The same buffer with the cursor at `pos`.
    pub open spec fn seek(self, pos: nat) -> StreamView {
        StreamView { bits: self.bits, pos }
    }
}

impl View for BitStream {
    type V = StreamView;

    closed spec fn view(&self) -> StreamView {
        StreamView {
            bits: bytes_bits(self.data@),
            pos: (self.cursor.position * 8 + self.cursor.shift) as nat,
        }
    }
}

impl Cursor {
    #[verifier::type_invariant]
    spec fn in_byte(self) -> bool {
        self.shift < 8
    }
}

/// The first `n` bits of `bits` as a number, and what follows them.
pub open spec fn take_bits(bits: Seq<bool>, n: nat) -> Option<(nat, Seq<bool>)> {
    if n <= bits.len() {
        Some((bits_value(bits.take(n as int)), bits.skip(n as int)))
    } else {
        None
    }
}

/// A flag on the wire: one bit.
pub open spec fn flag_bits(value: bool) -> Seq<bool> {
    int_bits(if value { 1 } else { 0 }, 1)
}

/// The first bit of `bits` as a flag, and what follows it.
pub open spec fn take_flag(bits: Seq<bool>) -> Option<(bool, Seq<bool>)> {
    match take_bits(bits, 1) {
        Some((v, rest)) => Some((v == 1, rest)),
        None => None,
    }
}

/// A sign-and-magnitude integer on the wire: the sign flag, then
/// `bit_count - 1` bits of the magnitude.
pub open spec fn signed_int_bits(value: int, bit_count: nat) -> Seq<bool> {
    flag_bits(value < 0) + int_bits(
        (if value < 0 { -value } else { value }) as nat,
        (bit_count - 1) as nat,
    )
}

/// Reads a sign-and-magnitude integer of `bit_count` bits. A set sign flag
/// over a zero magnitude reads as zero.
pub open spec fn take_signed_int(bits: Seq<bool>, bit_count: nat) -> Option<(int, Seq<bool>)> {
    match take_flag(bits) {
        Some((negative, rest)) => match take_bits(rest, (bit_count - 1) as nat) {
            Some((magnitude, rest)) => Some(
                (if negative { -(magnitude as int) } else { magnitude as int }, rest),
            ),
            None => None,
        },
        None => None,
    }
}

/// The least number of bits that tells `size` values apart: the base-2
/// logarithm of `size`, rounded up.
pub open spec fn range_bits(size: nat) -> nat
    decreases size,
{
    if size <= 1 {
        0
    } else {
        1 + range_bits((size + 1) / 2)
    }
}

/// A number of the range `range_start ..= range_end` on the wire: its offset
/// from `range_start`, in as many bits as the range needs.
pub open spec fn ranged_bits(value: u32, range_start: u32, range_end: u32) -> Seq<bool> {
    int_bits((value - range_start) as nat, range_bits((range_end - range_start + 1) as nat))
}

/// Reads a number of the range `range_start ..= range_end`. An offset that
/// leads past the largest 32-bit number wraps around.
pub open spec fn take_ranged(bits: Seq<bool>, range_start: u32, range_end: u32) -> Option<
    (u32, Seq<bool>),
> {
    match take_bits(bits, range_bits((range_end - range_start + 1) as nat)) {
        Some((offset, rest)) => Some((((offset + range_start) % 0x1_0000_0000) as u32, rest)),
        None => None,
    }
}

/// The width of bucket `level` of the variable-length encoding.
pub open spec fn bucket_width(level: nat) -> nat {
    if level == 0 {
        4
    } else if level == 1 {
        8
    } else if level == 2 {
        16
    } else if level == 3 {
        24
    } else {
        32
    }
}

/// The variable-length encoding from bucket `level` on: a set flag and the
/// value where it fits the bucket, else a cleared flag and the next bucket.
/// The last bucket takes no flag.
pub open spec fn bucket_bits(value: u32, level: nat) -> Seq<bool>
    decreases 4 - level,
{
    if level >= 4 {
        int_bits(value as nat, 32)
    } else if value < pow2(bucket_width(level)) {
        flag_bits(true) + int_bits(value as nat, bucket_width(level))
    } else {
        flag_bits(false) + bucket_bits(value, level + 1)
    }
}

/// A 32-bit number in the variable-length encoding: a set flag for zero, else
/// a cleared flag and the smallest bucket of 4, 8, 16, 24 or 32 bits that
/// holds it.
pub open spec fn cussed_bits(value: u32) -> Seq<bool> {
    if value == 0 {
        flag_bits(true)
    } else {
        flag_bits(false) + bucket_bits(value, 0)
    }
}

/// Reads the variable-length encoding from bucket `level` on.
pub open spec fn take_bucket(bits: Seq<bool>, level: nat) -> Option<(nat, Seq<bool>)>
    decreases 4 - level,
{
    if level >= 4 {
        take_bits(bits, 32)
    } else {
        match take_flag(bits) {
            Some((here, rest)) => if here {
                take_bits(rest, bucket_width(level))
            } else {
                take_bucket(rest, level + 1)
            },
            None => None,
        }
    }
}

/// Reads a 32-bit number in the variable-length encoding.
pub open spec fn take_cussed(bits: Seq<bool>) -> Option<(nat, Seq<bool>)> {
    match take_flag(bits) {
        Some((zero, rest)) => if zero {
            Some((0, rest))
        } else {
            take_bucket(rest, 0)
        },
        None => None,
    }
}

/// The first `count` bytes that `bits` spell, eight bits each.
pub open spec fn leading_bytes(bits: Seq<bool>, count: nat) -> Seq<u8> {
    Seq::new(count, |i: int| bits_value(bits.subrange(8 * i, 8 * i + 8)) as u8)
}

/// The first `count` bytes of `bits`, and what follows them.
pub open spec fn take_bytes(bits: Seq<bool>, count: nat) -> Option<(Seq<u8>, Seq<bool>)> {
    if 8 * count <= bits.len() {
        Some((leading_bytes(bits, count), bits.skip(8 * count as int)))
    } else {
        None
    }
}

/// A byte string with a length of eight bits in front.
pub open spec fn cstring_bits(bytes: Seq<u8>) -> Seq<bool> {
    int_bits(bytes.len(), 8) + bytes_bits(bytes)
}

/// Reads a byte string with a length of eight bits in front.
pub open spec fn take_cstring(bits: Seq<bool>) -> Option<(Seq<u8>, Seq<bool>)> {
    match take_bits(bits, 8) {
        Some((count, rest)) => take_bytes(rest, count),
        None => None,
    }
}

/// A byte string with a length of sixteen bits in front.
pub open spec fn long_cstring_bits(bytes: Seq<u8>) -> Seq<bool> {
    int_bits(bytes.len(), 16) + bytes_bits(bytes)
}

/// Reads a byte string with a length of sixteen bits in front.
pub open spec fn take_long_cstring(bits: Seq<bool>) -> Option<(Seq<u8>, Seq<bool>)> {
    match take_bits(bits, 16) {
        Some((count, rest)) => take_bytes(rest, count),
        None => None,
    }
}

/// The width of bucket `level` of the variable-length encoding.
fn bucket_width_of(level: usize) -> (width: usize)
    ensures
        width == bucket_width(level as nat),
        width <= 32,
{
    if level == 0 {
        4
    } else if level == 1 {
        8
    } else if level == 2 {
        16
    } else if level == 3 {
        24
    } else {
        32
    }
}

/// The number of bits that a number of `range_start ..= range_end` takes.
fn range_width(range_start: u32, range_end: u32) -> (width: usize)
    requires
        range_start <= range_end,
    ensures
        width == range_bits((range_end - range_start + 1) as nat),
        width <= 32,
{
    let mut size: u64 = (range_end - range_start) as u64 + 1;
    let mut width: usize = 0;
    proof {
        lemma2_to64();
    }
    while size > 1
        invariant
            width <= 32,
            1 <= size <= pow2((32 - width) as nat),
            range_bits((range_end - range_start + 1) as nat) == width + range_bits(size as nat),
        decreases size,
    {
        proof {
            lemma2_to64();
            if width < 32 {
                lemma_pow2_unfold((32 - width) as nat);
            }
        }
        size = (size + 1) / 2;
        width = width + 1;
    }
    width
}

impl BitStream {
    /// A stream over `buffer` with the cursor at its first bit.
    pub fn from_buffer(buffer: Vec<u8>) -> (s: Self)
        ensures
            s@.bits == bytes_bits(buffer@),
            s@.bytes() == buffer@,
            s@.pos == 0,
    {
        proof {
            lemma_leading_bytes(buffer@);
        }
        BitStream { data: buffer, cursor: Cursor { position: 0, shift: 0 } }
    }

    /// An empty stream to append to: one cleared byte, the cursor at its first bit.
    pub fn new() -> (s: Self)
        ensures
            s@.bits == zero_bits(8),
            s@.pos == 0,
            s@.at_end(),
            s@.writable(),
    {
        let mut data: Vec<u8> = Vec::new();
        data.push(0u8);
        let s = BitStream { data, cursor: Cursor { position: 0, shift: 0 } };
        proof {
            lemma_zero_byte();
            assert(s@.bits =~= zero_bits(8));
        }
        s
    }

    /// The length of the buffer in bytes.
    pub fn len(&self) -> (n: usize)
        ensures
            n == self@.bits.len() / 8,
    {
        self.data.len()
    }

    /// Moves the cursor back to the first bit.
    pub fn reset(&mut self)
        ensures
            final(self)@ == old(self)@.seek(0),
    {
        self.cursor = Cursor { position: 0, shift: 0 };
    }

    /// Whether the cursor stands inside the buffer, so that a write can start.
    pub fn is_writable(&self) -> (writable: bool)
        ensures
            writable == self@.writable(),
    {
        proof {
            use_type_invariant(&self.cursor);
        }
        self.cursor.position < self.data.len()
    }

    /// The place where the cursor stands.
    pub fn mark(&self) -> (mark: Mark)
        ensures
            mark@ == self@.pos,
    {
        Mark { cursor: self.cursor }
    }

    /// Moves the cursor back to a place marked before.
    pub fn rewind(&mut self, mark: Mark)
        ensures
            final(self)@ == old(self)@.seek(mark@),
    {
        self.cursor = mark.cursor;
    }

    /// The cursor's absolute bit index.
    pub fn get_bit_pos(&self) -> (pos: usize)
        requires
            self@.pos <= usize::MAX,
        ensures
            pos == self@.pos,
    {
        self.cursor.position * 8 + self.cursor.shift
    }

    /// Moves the cursor to the absolute bit index `pos`.
    pub fn set_bit_pos(&mut self, pos: usize)
        ensures
            final(self)@ == old(self)@.seek(pos as nat),
    {
        self.cursor = Cursor { position: pos / 8, shift: pos % 8 };
    }

    /// Reads `bits` bits as a number, low bit first, and moves the cursor past
    /// them. Where fewer are left the stream stays as it is.
    pub fn read_bits(&mut self, bits: usize) -> (r: Result<u8, Truncated>)
        requires
            bits <= 8,
        ensures
            match take_bits(old(self)@.remaining(), bits as nat) {
                Some((v, rest)) => r == Ok::<u8, Truncated>(v as u8) && v < 256 && old(
                    self,
                )@.reads_to(final(self)@, rest),
                None => r is Err && final(self)@ == old(self)@,
            },
    {
        proof {
            use_type_invariant(&self.cursor);
        }
        let ghost before = self@;
        if bits == 0 {
            proof {
                assert(before.remaining().take(0) =~= Seq::<bool>::empty());
                assert(before.remaining().skip(0) =~= before.remaining());
            }
            return Ok(0u8);
        }
        let len: usize = self.data.len();
        if self.cursor.position >= len {
            return Err(Truncated);
        }
        let total: usize = self.cursor.shift + bits;
        let result: u8;
        if total >= 8 {
            let extra: usize = total - 8;
            if extra != 0 && self.cursor.position + 1 >= len {
                return Err(Truncated);
            }
            let remain: usize = bits - extra;
            let b1: u8 = self.data[self.cursor.position];
            let first: u8 = b1 >> self.cursor.shift;
            let ghost mut b2: u8 = 0;
            if extra != 0 {
                let next: u8 = self.data[self.cursor.position + 1];
                proof {
                    b2 = next;
                }
                let second: u8 = (next & (0xFFu8 >> (8 - extra))) << remain;
                result = first | second;
            } else {
                result = first;
            }
            proof {
                let window = before.remaining().take(bits as int);
                let s = self.cursor.shift as u8;
                let n = bits as u8;
                let p = self.cursor.position as int;
                assert forall|k: int| 0 <= k < window.len() implies window[k] == bit_at(
                    result as u32,
                    k as u32,
                ) by {
                    let i = before.pos + k;
                    assert(window[k] == before.bits[i]);
                    if extra != 0 {
                        lemma_read_across(b1, b2, s, n, k as u8);
                        if k < remain {
                            assert(i / 8 == p && i % 8 == s + k);
                        } else {
                            assert(i / 8 == p + 1 && i % 8 == k - remain);
                        }
                    } else {
                        lemma_read_tail(b1, s, k as u8);
                        assert(i / 8 == p && i % 8 == s + k);
                    }
                }
                if extra != 0 {
                    lemma_read_across(b1, b2, s, n, 0);
                } else {
                    lemma_read_tail(b1, s, 0);
                }
                lemma_bits_value_word(result as u32, window);
            }
            self.cursor = Cursor { position: self.cursor.position + 1, shift: extra };
        } else {
            let b1: u8 = self.data[self.cursor.position];
            result = (b1 >> self.cursor.shift) & (0xFFu8 >> (8 - bits));
            proof {
                let window = before.remaining().take(bits as int);
                let s = self.cursor.shift as u8;
                let n = bits as u8;
                let p = self.cursor.position as int;
                assert forall|k: int| 0 <= k < window.len() implies window[k] == bit_at(
                    result as u32,
                    k as u32,
                ) by {
                    let i = before.pos + k;
                    assert(window[k] == before.bits[i]);
                    lemma_read_within(b1, s, n, k as u8);
                    assert(i / 8 == p && i % 8 == s + k);
                }
                lemma_read_within(b1, s, n, 0);
                lemma_bits_value_word(result as u32, window);
            }
            self.cursor = Cursor {
                position: self.cursor.position,
                shift: self.cursor.shift + bits,
            };
        }
        proof {
            assert(self@.remaining() =~= before.remaining().skip(bits as int));
        }
        Ok(result)
    }

    /// Writes the `bits` low bits of `value` at the cursor, low bit first, and
    /// returns them.
    pub fn write_bits(&mut self, value: u8, bits: usize) -> (r: u8)
        requires
            bits <= 8,
            old(self)@.writable(),
        ensures
            final(self)@ == old(self)@.write(int_bits(value as nat, bits as nat)),
            final(self)@.writable(),
            r as nat == bits_value(int_bits(value as nat, bits as nat)),
    {
        proof {
            use_type_invariant(&self.cursor);
            lemma_int_bits_len(value as nat, bits as nat);
            lemma_write_keeps_writable(self@, int_bits(value as nat, bits as nat));
        }
        let ghost before = self@;
        let ghost w = int_bits(value as nat, bits as nat);
        if bits == 0 {
            return 0u8;
        }
        assert(self.cursor.position < self.data.len()) by {
            assert(before.pos / 8 == self.cursor.position);
            assert(before.bits.len() / 8 == self.data.len());
        }
        let masked: u8 = value & (0xFFu8 >> (8 - bits));
        let old_byte: u8 = self.data[self.cursor.position];
        let lower: u8 = if self.cursor.shift == 0 {
            0u8
        } else {
            old_byte & (0xFFu8 >> (8 - self.cursor.shift))
        };
        proof {
            lemma_mask_value(value, bits as u8);
            assert forall|k: int| 0 <= k < w.len() implies w[k] == bit_at(
                masked as u32,
                k as u32,
            ) by {
                lemma_int_bits_index(value as u32, bits as nat, k as nat);
                lemma_mask_bit(value, bits as u8, k as u8);
            }
            lemma_bits_value_word(masked as u32, w);
        }
        if self.cursor.shift + bits >= 8 {
            let extra: usize = self.cursor.shift + bits - 8;
            let remain: usize = bits - extra;
            let first: u8 = masked & (0xFFu8 >> (8 - remain));
            let b1: u8 = lower | (first << self.cursor.shift);
            let b2: u8 = if remain == 8 {
                0u8
            } else if extra == 0 {
                masked >> remain
            } else {
                (masked >> remain) & (0xFFu8 >> (8 - extra))
            };
            self.data.set(self.cursor.position, b1);
            self.data.push(0u8);
            self.data.set(self.cursor.position + 1, b2);
            self.cursor = Cursor { position: self.cursor.position + 1, shift: extra };
            proof {
                let s = (before.pos % 8) as u8;
                let n = bits as u8;
                let p = (before.pos / 8) as int;
                let target = before.write(w);
                lemma_zero_byte();
                assert(self@.bits.len() == target.bits.len());
                assert forall|i: int| 0 <= i < target.bits.len() implies self@.bits[i]
                    == target.bits[i] by {
                    let j = i / 8;
                    let k = (i % 8) as u8;
                    if j == p {
                        lemma_write_across(old_byte, value, s, n, k);
                        if k >= s {
                            lemma_int_bits_index(value as u32, bits as nat, (k - s) as nat);
                        }
                    } else if j == p + 1 {
                        lemma_write_across(old_byte, value, s, n, k);
                        if k < extra {
                            lemma_int_bits_index(value as u32, bits as nat, (remain + k) as nat);
                        }
                    } else {
                    }
                }
                assert(self@.bits =~= target.bits);
            }
        } else {
            let kept: u8 = 0xFFu8 >> (8 - bits - self.cursor.shift);
            let nb: u8 = lower | ((masked << self.cursor.shift) & kept);
            self.data.set(self.cursor.position, nb);
            self.cursor = Cursor {
                position: self.cursor.position,
                shift: self.cursor.shift + bits,
            };
            proof {
                let s = (before.pos % 8) as u8;
                let n = bits as u8;
                let p = (before.pos / 8) as int;
                let target = before.write(w);
                assert(self@.bits.len() == target.bits.len());
                assert forall|i: int| 0 <= i < target.bits.len() implies self@.bits[i]
                    == target.bits[i] by {
                    let j = i / 8;
                    let k = (i % 8) as u8;
                    if j == p {
                        lemma_write_within(old_byte, value, s, n, k);
                        if s <= k < s + n {
                            lemma_int_bits_index(value as u32, bits as nat, (k - s) as nat);
                        }
                    }
                }
                assert(self@.bits =~= target.bits);
            }
        }
        masked
    }

    /// The buffer, without its last byte where the cursor stands on a byte
    /// boundary: that byte was kept for the next write.
    pub fn into_bytes(self) -> (bytes: Vec<u8>)
        ensures
            bytes_bits(bytes@) == (if self@.pos % 8 == 0 && self@.bits.len() >= 8 {
                self@.bits.take(self@.bits.len() - 8)
            } else {
                self@.bits
            }),
            self@.at_end() ==> bytes_bits(bytes@) == pad_to_byte(self@.written()),
    {
        proof {
            use_type_invariant(&self.cursor);
        }
        let ghost before = self@;
        let mut data = self.data;
        if self.cursor.shift == 0 {
            data.pop();
        }
        proof {
            if before.pos % 8 == 0 && before.bits.len() >= 8 {
                assert(bytes_bits(data@) =~= before.bits.take(before.bits.len() - 8));
            }
            if before.at_end() {
                assert(bytes_bits(data@) =~= pad_to_byte(before.written()));
            }
        }
        data
    }

    /// The whole buffer.
    pub fn as_bytes(&self) -> (bytes: &[u8])
        ensures
            bytes_bits(bytes@) == self@.bits,
            bytes@ == self@.bytes(),
    {
        proof {
            lemma_leading_bytes(self.data@);
        }
        self.data.as_slice()
    }

    /// The bits of a stream are those of its bytes.
    pub proof fn lemma_whole_bytes(&self)
        ensures
            self@.whole(),
            bytes_bits(self@.bytes()) == self@.bits,
            self@.bits.len() == 8 * self@.bytes().len(),
    {
        reveal(StreamView::whole);
        lemma_leading_bytes(self.data@);
    }

    /// The index of the byte that the cursor stands in.
    pub fn byte_pos(&self) -> (index: usize)
        ensures
            index == self@.pos / 8,
    {
        proof {
            use_type_invariant(&self.cursor);
        }
        self.cursor.position
    }

    /// The buffer's bytes from byte `offset` on.
    pub fn bytes_from(&self, offset: usize) -> (bytes: Vec<u8>)
        requires
            offset <= self@.bytes().len(),
        ensures
            bytes@ == self@.bytes().skip(offset as int),
    {
        proof {
            lemma_leading_bytes(self.data@);
        }
        let mut bytes: Vec<u8> = Vec::new();
        let mut i: usize = offset;
        while i < self.data.len()
            invariant
                offset <= i <= self.data.len(),
                bytes@ == self.data@.subrange(offset as int, i as int),
            decreases self.data.len() - i,
        {
            bytes.push(self.data[i]);
            i = i + 1;
            proof {
                assert(bytes@ =~= self.data@.subrange(offset as int, i as int));
            }
        }
        proof {
            assert(self.data@.subrange(offset as int, i as int) =~= self.data@.skip(offset as int));
        }
        bytes
    }

    /// Reads `bits` bits as a number, least significant bit first, and moves
    /// the cursor past them. Where fewer are left the stream stays as it is.
    pub fn read_int(&mut self, bits: usize) -> (r: Result<u32, Truncated>)
        requires
            bits <= 32,
        ensures
            match take_bits(old(self)@.remaining(), bits as nat) {
                Some((v, rest)) => r == Ok::<u32, Truncated>(v as u32) && v < pow2(bits as nat)
                    && v <= u32::MAX && old(self)@.reads_to(final(self)@, rest),
                None => r is Err && final(self)@ == old(self)@,
            },
    {
        let ghost before = self@;
        let ghost full = before.remaining();
        let saved = self.cursor;
        let mut value: u32 = 0;
        let mut done: usize = 0;
        proof {
            assert(full.skip(0) =~= full);
            lemma_chunk_bit(0, 0, 0);
        }
        while done < bits
            invariant
                done <= bits <= 32,
                done <= full.len(),
                full == before.remaining(),
                before.reads_to(self@, full.skip(done as int)),
                saved.position * 8 + saved.shift == before.pos,
                before == old(self)@,
                forall|k: int| 0 <= k < done ==> bit_at(value, k as u32) == full[k],
                done < 32 ==> value >> (done as u32) == 0,
            decreases bits - done,
        {
            let c: usize = if bits - done < 8 { bits - done } else { 8 };
            let ghost here = self@;
            match self.read_bits(c) {
                Ok(x) => {
                    let ghost window = here.remaining().take(c as int);
                    let next: u32 = value | ((x as u32) << done);
                    proof {
                        assert(window == full.skip(done as int).take(c as int));
                        lemma_read_chunk(full, value, x as u32, done as nat, c as nat);
                        assert(full.skip(done as int).skip(c as int) =~= full.skip(done + c));
                    }
                    value = next;
                    done = done + c;
                },
                Err(_) => {
                    proof {
                        assert(here.remaining().len() == full.len() - done);
                        assert(take_bits(here.remaining(), c as nat) is None);
                        assert(full.len() < bits);
                        assert(self@.bits == before.bits);
                    }
                    self.cursor = saved;
                    assert(self@ == before);
                    return Err(Truncated);
                },
            }
        }
        proof {
            lemma_bits_value_word(value, full.take(bits as int));
            lemma_bits_value_bound(full.take(bits as int));
        }
        Ok(value)
    }

    /// Writes the `bits` low bits of `value` at the cursor, least significant
    /// bit first, and returns `value`.
    pub fn write_int(&mut self, value: u32, bits: usize) -> (r: u32)
        requires
            bits <= 32,
            old(self)@.writable(),
        ensures
            r == value,
            final(self)@ == old(self)@.write(int_bits(value as nat, bits as nat)),
            final(self)@.writable(),
            old(self)@.at_end() ==> final(self)@.at_end() && final(self)@.written() == old(
                self,
            )@.written() + int_bits(value as nat, bits as nat),
    {
        let ghost before = self@;
        let ghost w = int_bits(value as nat, bits as nat);
        let mut cur: u32 = value;
        let mut done: usize = 0;
        proof {
            lemma_int_bits_len(value as nat, bits as nat);
            lemma_chunk_bit(value, 0, 0);
            assert(w.take(0) =~= Seq::<bool>::empty());
        }
        while done < bits
            invariant
                done <= bits <= 32,
                w == int_bits(value as nat, bits as nat),
                w.len() == bits,
                before.writable(),
                self@ == before.write(w.take(done as int)),
                self@.writable(),
                done < bits ==> done % 8 == 0 && cur == value >> (done as u32),
            decreases bits - done,
        {
            let c: usize = if bits - done < 8 { bits - done } else { 8 };
            let chunk: u8 = #[verifier::truncate] (cur as u8);
            self.write_bits(chunk, c);
            proof {
                let piece = int_bits(chunk as nat, c as nat);
                lemma_int_bits_len(chunk as nat, c as nat);
                lemma_write_write(before, w.take(done as int), piece);
                assert forall|k: int| 0 <= k < c implies piece[k] == w[done + k] by {
                    lemma_int_bits_index(chunk as u32, c as nat, k as nat);
                    lemma_chunk_bit(value, done as u32, k as u32);
                    lemma_int_bits_index(value, bits as nat, (done + k) as nat);
                }
                assert(w.take(done as int) + piece =~= w.take(done + c));
                lemma_chunk_bit(value, done as u32, 0);
            }
            cur = cur >> 8;
            done = done + c;
        }
        proof {
            assert(w.take(bits as int) =~= w);
            if before.at_end() {
                lemma_write_at_end(before, w);
            }
        }
        value
    }

    /// Reads one bit as a flag.
    pub fn read_flag(&mut self) -> (r: Result<bool, Truncated>)
        ensures
            match take_flag(old(self)@.remaining()) {
                Some((v, rest)) => r == Ok::<bool, Truncated>(v) && old(self)@.reads_to(
                    final(self)@,
                    rest,
                ),
                None => r is Err && final(self)@ == old(self)@,
            },
    {
        match self.read_int(1) {
            Ok(v) => Ok(v == 1),
            Err(e) => Err(e),
        }
    }

    /// Reads eight bits; the cursor need not stand on a byte boundary.
    pub fn read_u8(&mut self) -> (r: Result<u8, Truncated>)
        ensures
            match take_bits(old(self)@.remaining(), 8) {
                Some((v, rest)) => r == Ok::<u8, Truncated>(v as u8) && v < 0x100 && old(
                    self,
                )@.reads_to(final(self)@, rest),
                None => r is Err && final(self)@ == old(self)@,
            },
    {
        proof {
            lemma2_to64();
        }
        match self.read_int(8) {
            Ok(v) => Ok(v as u8),
            Err(e) => Err(e),
        }
    }

    /// Reads sixteen bits, low byte first.
    pub fn read_u16(&mut self) -> (r: Result<u16, Truncated>)
        ensures
            match take_bits(old(self)@.remaining(), 16) {
                Some((v, rest)) => r == Ok::<u16, Truncated>(v as u16) && v < 0x1_0000 && old(
                    self,
                )@.reads_to(final(self)@, rest),
                None => r is Err && final(self)@ == old(self)@,
            },
    {
        proof {
            lemma2_to64();
        }
        match self.read_int(16) {
            Ok(v) => Ok(v as u16),
            Err(e) => Err(e),
        }
    }

    /// Reads thirty-two bits, low byte first.
    pub fn read_u32(&mut self) -> (r: Result<u32, Truncated>)
        ensures
            match take_bits(old(self)@.remaining(), 32) {
                Some((v, rest)) => r == Ok::<u32, Truncated>(v as u32) && v < 0x1_0000_0000
                    && old(self)@.reads_to(final(self)@, rest),
                None => r is Err && final(self)@ == old(self)@,
            },
    {
        self.read_int(32)
    }

    /// Writes a flag as one bit and returns it.
    pub fn write_flag(&mut self, value: bool) -> (r: bool)
        requires
            old(self)@.writable(),
        ensures
            r == value,
            final(self)@ == old(self)@.write(flag_bits(value)),
            final(self)@.writable(),
            old(self)@.at_end() ==> final(self)@.at_end() && final(self)@.written() == old(
                self,
            )@.written() + flag_bits(value),
    {
        self.write_int(if value { 1u32 } else { 0u32 }, 1);
        value
    }

    /// Writes eight bits; the cursor need not stand on a byte boundary.
    pub fn write_u8(&mut self, value: u8) -> (r: u8)
        requires
            old(self)@.writable(),
        ensures
            r == value,
            final(self)@ == old(self)@.write(int_bits(value as nat, 8)),
            final(self)@.writable(),
            old(self)@.at_end() ==> final(self)@.at_end() && final(self)@.written() == old(
                self,
            )@.written() + int_bits(value as nat, 8),
    {
        self.write_int(value as u32, 8);
        value
    }

    /// Writes sixteen bits, low byte first.
    pub fn write_u16(&mut self, value: u16) -> (r: u16)
        requires
            old(self)@.writable(),
        ensures
            r == value,
            final(self)@ == old(self)@.write(int_bits(value as nat, 16)),
            final(self)@.writable(),
            old(self)@.at_end() ==> final(self)@.at_end() && final(self)@.written() == old(
                self,
            )@.written() + int_bits(value as nat, 16),
    {
        self.write_int(value as u32, 16);
        value
    }

    /// Writes thirty-two bits, low byte first.
    pub fn write_u32(&mut self, value: u32) -> (r: u32)
        requires
            old(self)@.writable(),
        ensures
            r == value,
            final(self)@ == old(self)@.write(int_bits(value as nat, 32)),
            final(self)@.writable(),
            old(self)@.at_end() ==> final(self)@.at_end() && final(self)@.written() == old(
                self,
            )@.written() + int_bits(value as nat, 32),
    {
        self.write_int(value, 32);
        value
    }

    /// Reads a sign-and-magnitude integer: the sign flag, then
    /// `bit_count - 1` bits of the magnitude.
    pub fn read_signed_int(&mut self, bit_count: usize) -> (r: Result<i32, Truncated>)
        requires
            1 <= bit_count <= 32,
        ensures
            match take_signed_int(old(self)@.remaining(), bit_count as nat) {
                Some((v, rest)) => r == Ok::<i32, Truncated>(v as i32) && -0x8000_0000 < v
                    < 0x8000_0000 && old(self)@.reads_to(final(self)@, rest),
                None => r is Err && final(self)@ == old(self)@,
            },
    {
        let ghost before = self@;
        let saved = self.cursor;
        let negative = match self.read_flag() {
            Ok(flag) => flag,
            Err(e) => {
                return Err(e);
            },
        };
        match self.read_int(bit_count - 1) {
            Ok(magnitude) => {
                proof {
                    lemma2_to64();
                    if bit_count - 1 < 31 {
                        lemma_pow2_strictly_increases((bit_count - 1) as nat, 31);
                    }
                }
                let v: i32 = magnitude as i32;
                Ok(if negative { -v } else { v })
            },
            Err(e) => {
                assert(self@.bits == before.bits);
                self.cursor = saved;
                assert(self@ == before);
                Err(e)
            },
        }
    }

    /// Writes a sign-and-magnitude integer and returns it: the sign flag, then
    /// the `bit_count - 1` low bits of the magnitude. Zero goes out with the
    /// flag cleared.
    pub fn write_signed_int(&mut self, value: i32, bit_count: usize) -> (r: i32)
        requires
            1 <= bit_count <= 33,
            old(self)@.writable(),
        ensures
            r == value,
            final(self)@ == old(self)@.write(signed_int_bits(value as int, bit_count as nat)),
            final(self)@.writable(),
            old(self)@.at_end() ==> final(self)@.at_end() && final(self)@.written() == old(
                self,
            )@.written() + signed_int_bits(value as int, bit_count as nat),
    {
        let ghost before = self@;
        let magnitude: u32 = if value < 0 {
            if value == i32::MIN {
                0x8000_0000u32
            } else {
                (-value) as u32
            }
        } else {
            value as u32
        };
        self.write_flag(value < 0);
        self.write_int(magnitude, bit_count - 1);
        proof {
            lemma_write_write(
                before,
                flag_bits(value < 0),
                int_bits(magnitude as nat, (bit_count - 1) as nat),
            );
            if before.at_end() {
                lemma_write_at_end(before, signed_int_bits(value as int, bit_count as nat));
            }
        }
        value
    }

    /// Reads a number of the range `range_start ..= range_end`.
    pub fn read_ranged_u32(&mut self, range_start: u32, range_end: u32) -> (r: Result<
        u32,
        Truncated,
    >)
        requires
            range_start <= range_end,
        ensures
            match take_ranged(old(self)@.remaining(), range_start, range_end) {
                Some((v, rest)) => r == Ok::<u32, Truncated>(v) && old(self)@.reads_to(
                    final(self)@,
                    rest,
                ),
                None => r is Err && final(self)@ == old(self)@,
            },
    {
        let width = range_width(range_start, range_end);
        match self.read_int(width) {
            Ok(offset) => Ok(((offset as u64 + range_start as u64) % 0x1_0000_0000u64) as u32),
            Err(e) => Err(e),
        }
    }

    /// Writes a number of the range `range_start ..= range_end` as its offset
    /// from `range_start`, and returns it.
    pub fn write_ranged_u32(&mut self, value: u32, range_start: u32, range_end: u32) -> (r: u32)
        requires
            range_start <= value,
            range_start <= range_end,
            old(self)@.writable(),
        ensures
            r == value,
            final(self)@ == old(self)@.write(ranged_bits(value, range_start, range_end)),
            final(self)@.writable(),
            old(self)@.at_end() ==> final(self)@.at_end() && final(self)@.written() == old(
                self,
            )@.written() + ranged_bits(value, range_start, range_end),
    {
        let width = range_width(range_start, range_end);
        self.write_int(value - range_start, width);
        value
    }

    /// Reads a 32-bit number in the variable-length encoding.
    pub fn read_cussed_u32(&mut self) -> (r: Result<u32, Truncated>)
        ensures
            match take_cussed(old(self)@.remaining()) {
                Some((v, rest)) => r == Ok::<u32, Truncated>(v as u32) && v <= u32::MAX && old(
                    self,
                )@.reads_to(final(self)@, rest),
                None => r is Err && final(self)@ == old(self)@,
            },
    {
        let ghost before = self@;
        let saved = self.cursor;
        let zero = match self.read_flag() {
            Ok(flag) => flag,
            Err(e) => {
                return Err(e);
            },
        };
        if zero {
            return Ok(0);
        }
        let mut level: usize = 0;
        let mut found = false;
        while level < 4 && !found
            invariant
                level <= 4,
                before == old(self)@,
                saved.position * 8 + saved.shift == before.pos,
                before.reads_to(self@, self@.remaining()),
                take_cussed(before.remaining()) == (if found {
                    take_bits(self@.remaining(), bucket_width(level as nat))
                } else {
                    take_bucket(self@.remaining(), level as nat)
                }),
            decreases 4 - level + (if found { 0int } else { 1int }),
        {
            match self.read_flag() {
                Ok(here) => {
                    if here {
                        found = true;
                    } else {
                        level = level + 1;
                    }
                },
                Err(e) => {
                    assert(self@.bits == before.bits);
                    self.cursor = saved;
                    assert(self@ == before);
                    return Err(e);
                },
            }
        }
        let width = bucket_width_of(level);
        match self.read_int(width) {
            Ok(v) => Ok(v),
            Err(e) => {
                assert(self@.bits == before.bits);
                self.cursor = saved;
                assert(self@ == before);
                Err(e)
            },
        }
    }

    /// Writes a 32-bit number in the variable-length encoding and returns it.
    pub fn write_cussed_u32(&mut self, value: u32) -> (r: u32)
        requires
            old(self)@.writable(),
        ensures
            r == value,
            final(self)@ == old(self)@.write(cussed_bits(value)),
            final(self)@.writable(),
            old(self)@.at_end() ==> final(self)@.at_end() && final(self)@.written() == old(
                self,
            )@.written() + cussed_bits(value),
    {
        let ghost before = self@;
        if self.write_flag(value == 0) {
            proof {
                if before.at_end() {
                    lemma_write_at_end(before, cussed_bits(value));
                }
            }
            return value;
        }
        let mut level: usize = 0;
        let mut found = false;
        let ghost mut prefix = flag_bits(false);
        while level < 4 && !found
            invariant
                level <= 4,
                value != 0,
                before.writable(),
                self@.writable(),
                self@ == before.write(prefix),
                cussed_bits(value) == (if found {
                    prefix + int_bits(value as nat, bucket_width(level as nat))
                } else {
                    prefix + bucket_bits(value, level as nat)
                }),
            decreases 4 - level + (if found { 0int } else { 1int }),
        {
            let width = bucket_width_of(level);
            let fits = value <= (0xFFFF_FFFFu32 >> (32 - width));
            proof {
                lemma2_to64();
                lemma_bucket_limits();
                lemma_write_write(before, prefix, flag_bits(fits));
                if fits {
                    assert(prefix + (flag_bits(true) + int_bits(
                        value as nat,
                        bucket_width(level as nat),
                    )) =~= (prefix + flag_bits(true)) + int_bits(
                        value as nat,
                        bucket_width(level as nat),
                    ));
                } else {
                    assert(prefix + (flag_bits(false) + bucket_bits(value, (level + 1) as nat))
                        =~= (prefix + flag_bits(false)) + bucket_bits(value, (level + 1) as nat));
                }
                prefix = prefix + flag_bits(fits);
            }
            self.write_flag(fits);
            if fits {
                found = true;
            } else {
                level = level + 1;
            }
        }
        let width = bucket_width_of(level);
        self.write_int(value, width);
        proof {
            lemma_write_write(before, prefix, int_bits(value as nat, width as nat));
            if before.at_end() {
                lemma_write_at_end(before, cussed_bits(value));
            }
        }
        value
    }

    /// Reads `count` bytes; the cursor need not stand on a byte boundary.
    pub fn read_bytes(&mut self, count: usize) -> (r: Result<Vec<u8>, Truncated>)
        ensures
            match take_bytes(old(self)@.remaining(), count as nat) {
                Some((bytes, rest)) => (r matches Ok(read) && read@ == bytes) && old(
                    self,
                )@.reads_to(final(self)@, rest),
                None => r is Err && final(self)@ == old(self)@,
            },
    {
        let ghost before = self@;
        let ghost full = before.remaining();
        let saved = self.cursor;
        let mut bytes: Vec<u8> = Vec::new();
        let mut i: usize = 0;
        proof {
            assert(full.skip(0) =~= full);
            assert(leading_bytes(full, 0) =~= bytes@);
        }
        while i < count
            invariant
                i <= count,
                8 * i <= full.len(),
                full == before.remaining(),
                before == old(self)@,
                saved.position * 8 + saved.shift == before.pos,
                before.reads_to(self@, full.skip(8 * i)),
                bytes@ == leading_bytes(full, i as nat),
            decreases count - i,
        {
            match self.read_u8() {
                Ok(byte) => {
                    proof {
                        lemma_take_bytes_next(full, i as int);
                    }
                    bytes.push(byte);
                    i = i + 1;
                },
                Err(e) => {
                    assert(self@.bits == before.bits);
                    self.cursor = saved;
                    assert(self@ == before);
                    return Err(e);
                },
            }
        }
        Ok(bytes)
    }

    /// Writes bytes, eight bits each; the cursor need not stand on a byte boundary.
    pub fn write_bytes(&mut self, bytes: &[u8])
        requires
            old(self)@.writable(),
        ensures
            final(self)@ == old(self)@.write(bytes_bits(bytes@)),
            final(self)@.writable(),
            old(self)@.at_end() ==> final(self)@.at_end() && final(self)@.written() == old(
                self,
            )@.written() + bytes_bits(bytes@),
    {
        let ghost before = self@;
        let mut i: usize = 0;
        proof {
            assert(bytes_bits(bytes@.take(0)) =~= Seq::<bool>::empty());
        }
        while i < bytes.len()
            invariant
                i <= bytes.len(),
                before.writable(),
                self@.writable(),
                self@ == before.write(bytes_bits(bytes@.take(i as int))),
            decreases bytes.len() - i,
        {
            self.write_u8(bytes[i]);
            proof {
                lemma_write_write(
                    before,
                    bytes_bits(bytes@.take(i as int)),
                    int_bits(bytes[i as int] as nat, 8),
                );
                lemma_bytes_bits_push(bytes@.take(i as int), bytes[i as int]);
                assert(bytes@.take(i as int).push(bytes[i as int]) =~= bytes@.take(i + 1));
            }
            i = i + 1;
        }
        proof {
            assert(bytes@.take(i as int) =~= bytes@);
            if before.at_end() {
                lemma_write_at_end(before, bytes_bits(bytes@));
            }
        }
    }

    /// Reads a text of one byte for each character, with its length in eight
    /// bits in front.
    pub fn read_cstring(&mut self) -> (r: Result<String, Truncated>)
        ensures
            match take_cstring(old(self)@.remaining()) {
                Some((bytes, rest)) => (r matches Ok(text) && text@ == bytes_text(bytes)) && old(
                    self,
                )@.reads_to(final(self)@, rest),
                None => r is Err && final(self)@ == old(self)@,
            },
    {
        let ghost before = self@;
        let saved = self.cursor;
        let count = match self.read_u8() {
            Ok(count) => count,
            Err(e) => {
                return Err(e);
            },
        };
        match self.read_bytes(count as usize) {
            Ok(bytes) => Ok(decode_text(bytes.as_slice())),
            Err(e) => {
                assert(self@.bits == before.bits);
                self.cursor = saved;
                assert(self@ == before);
                Err(e)
            },
        }
    }

    /// Reads a text of one byte for each character, with its length in
    /// sixteen bits in front.
    pub fn read_long_cstring(&mut self) -> (r: Result<String, Truncated>)
        ensures
            match take_long_cstring(old(self)@.remaining()) {
                Some((bytes, rest)) => (r matches Ok(text) && text@ == bytes_text(bytes)) && old(
                    self,
                )@.reads_to(final(self)@, rest),
                None => r is Err && final(self)@ == old(self)@,
            },
    {
        let ghost before = self@;
        let saved = self.cursor;
        let count = match self.read_u16() {
            Ok(count) => count,
            Err(e) => {
                return Err(e);
            },
        };
        match self.read_bytes(count as usize) {
            Ok(bytes) => Ok(decode_text(bytes.as_slice())),
            Err(e) => {
                assert(self@.bits == before.bits);
                self.cursor = saved;
                assert(self@ == before);
                Err(e)
            },
        }
    }

    /// Reads a text in the shared Huffman code.
    pub fn read_string(&mut self, huffman: &HuffmanProcessor) -> (r: Result<String, Truncated>)
        ensures
            match take_string(old(self)@.remaining()) {
                Some((bytes, rest)) => (r matches Ok(text) && text@ == bytes_text(bytes)) && old(
                    self,
                )@.reads_to(final(self)@, rest),
                None => r is Err && final(self)@ == old(self)@,
            },
    {
        huffman.read_string(self)
    }

    /// Writes a text of at most 255 characters in the shared Huffman code.
    pub fn write_string(&mut self, huffman: &HuffmanProcessor, value: &String)
        requires
            value@.len() <= 255,
            old(self)@.writable(),
        ensures
            final(self)@ == old(self)@.write(string_bits(value@)),
            final(self)@.writable(),
            old(self)@.at_end() ==> final(self)@.at_end() && final(self)@.written() == old(
                self,
            )@.written() + string_bits(value@),
    {
        huffman.write_string(self, value);
    }

    /// Writes a text of fewer than 256 characters, one byte for each, with its
    /// length in eight bits in front.
    pub fn write_cstring(&mut self, value: &String)
        requires
            value@.len() < 256,
            old(self)@.writable(),
        ensures
            final(self)@ == old(self)@.write(cstring_bits(text_bytes(value@))),
            final(self)@.writable(),
            old(self)@.at_end() ==> final(self)@.at_end() && final(self)@.written() == old(
                self,
            )@.written() + cstring_bits(text_bytes(value@)),
    {
        let ghost before = self@;
        let bytes = encode_text(value.as_str());
        self.write_u8(bytes.len() as u8);
        self.write_bytes(bytes.as_slice());
        proof {
            lemma_write_write(before, int_bits(bytes@.len(), 8), bytes_bits(bytes@));
            if before.at_end() {
                lemma_write_at_end(before, cstring_bits(bytes@));
            }
        }
    }

    /// Writes a text of fewer than 65536 characters, one byte for each, with
    /// its length in sixteen bits in front.
    pub fn write_long_cstring(&mut self, value: &String)
        requires
            value@.len() < 65536,
            old(self)@.writable(),
        ensures
            final(self)@ == old(self)@.write(long_cstring_bits(text_bytes(value@))),
            final(self)@.writable(),
            old(self)@.at_end() ==> final(self)@.at_end() && final(self)@.written() == old(
                self,
            )@.written() + long_cstring_bits(text_bytes(value@)),
    {
        let ghost before = self@;
        let bytes = encode_text(value.as_str());
        self.write_u16(bytes.len() as u16);
        self.write_bytes(bytes.as_slice());
        proof {
            lemma_write_write(before, int_bits(bytes@.len(), 16), bytes_bits(bytes@));
            if before.at_end() {
                lemma_write_at_end(before, long_cstring_bits(bytes@));
            }
        }
    }
}

/// A write leaves the cursor inside the buffer.
pub proof fn lemma_write_keeps_writable(v: StreamView, w: Seq<bool>)
    requires
        v.writable(),
    ensures
        v.write(w).writable(),
{
}

/// Two writes in a row are one write of both.
pub proof fn lemma_write_write(v: StreamView, a: Seq<bool>, b: Seq<bool>)
    requires
        v.writable(),
    ensures
        v.write(a).write(b) == v.write(a + b),
{
    if a.len() == 0 {
        assert(a + b =~= b);
    } else if b.len() == 0 {
        assert(a + b =~= a);
    } else {
        let t = v.write(a).write(b);
        let u = v.write(a + b);
        assert(t.pos == u.pos);
        assert(t.bits.len() == u.bits.len());
        assert(t.bits =~= u.bits);
    }
}

/// On a stream that has only been appended to, a write appends.
pub proof fn lemma_write_at_end(v: StreamView, w: Seq<bool>)
    requires
        v.at_end(),
    ensures
        v.writable(),
        v.write(w).at_end(),
        v.write(w).written() == v.written() + w,
{
    assert(v.write(w).written() =~= v.written() + w);
}

/// The bits of a buffer with one more byte are the buffer's bits and then
/// that byte's.
pub proof fn lemma_bytes_bits_push(bytes: Seq<u8>, byte: u8)
    ensures
        bytes_bits(bytes.push(byte)) == bytes_bits(bytes) + int_bits(byte as nat, 8),
{
    lemma_int_bits_len(byte as nat, 8);
    assert forall|i: int| 0 <= i < 8 * bytes.len() + 8 implies bytes_bits(bytes.push(byte))[i] == (
    bytes_bits(bytes) + int_bits(byte as nat, 8))[i] by {
        if i >= 8 * bytes.len() {
            lemma_int_bits_index(byte as u32, 8, (i - 8 * bytes.len()) as nat);
        }
    }
    assert(bytes_bits(bytes.push(byte)) =~= bytes_bits(bytes) + int_bits(byte as nat, 8));
}

/// Taking one byte more takes the next eight bits.
pub proof fn lemma_take_bytes_next(bits: Seq<bool>, count: int)
    requires
        0 <= count,
        8 * (count + 1) <= bits.len(),
    ensures
        leading_bytes(bits, (count + 1) as nat) == leading_bytes(bits, count as nat).push(
            bits_value(bits.skip(8 * count).take(8)) as u8,
        ),
        bits.skip(8 * (count + 1)) == bits.skip(8 * count).skip(8),
{
    assert(bits.skip(8 * count).take(8) =~= bits.subrange(8 * count, 8 * count + 8));
    assert(leading_bytes(bits, (count + 1) as nat) =~= leading_bytes(bits, count as nat).push(
        bits_value(bits.skip(8 * count).take(8)) as u8,
    ));
    assert(bits.skip(8 * (count + 1)) =~= bits.skip(8 * count).skip(8));
}

/// A number that fits in `n` bits, written and read again, is the number.
pub proof fn lemma_take_int(value: nat, n: nat, rest: Seq<bool>)
    requires
        value < pow2(n),
    ensures
        take_bits(int_bits(value, n) + rest, n) == Some((value, rest)),
{
    let bits = int_bits(value, n) + rest;
    lemma_int_bits_len(value, n);
    crate::bits::lemma_bits_value_of_int(value, n);
    assert(bits.take(n as int) =~= int_bits(value, n));
    assert(bits.skip(n as int) =~= rest);
}

/// A flag, written and read again, is the flag.
pub proof fn lemma_take_flag(value: bool, rest: Seq<bool>)
    ensures
        take_flag(flag_bits(value) + rest) == Some((value, rest)),
{
    lemma2_to64();
    lemma_take_int(if value { 1 } else { 0 }, 1, rest);
}

/// Bytes, written and read again, are the bytes.
pub proof fn lemma_take_bytes(bytes: Seq<u8>, rest: Seq<bool>)
    ensures
        take_bytes(bytes_bits(bytes) + rest, bytes.len()) == Some((bytes, rest)),
{
    let bits = bytes_bits(bytes) + rest;
    assert forall|i: int| 0 <= i < bytes.len() implies leading_bytes(bits, bytes.len())[i]
        == bytes[i] by {
        let window = bits.subrange(8 * i, 8 * i + 8);
        assert forall|k: int| 0 <= k < 8 implies window[k] == bit_at(bytes[i] as u32, k as u32) by {
            assert((8 * i + k) / 8 == i && (8 * i + k) % 8 == k);
            assert(window[k] == bytes_bits(bytes)[8 * i + k]);
        }
        crate::bits::lemma_byte_high(bytes[i]);
        lemma_bits_value_word(bytes[i] as u32, window);
    }
    assert(leading_bytes(bits, bytes.len()) =~= bytes);
    assert(bits.skip(8 * bytes.len() as int) =~= rest);
}

/// The bytes that the bits of a buffer spell are the buffer.
pub proof fn lemma_leading_bytes(bytes: Seq<u8>)
    ensures
        leading_bytes(bytes_bits(bytes), bytes.len()) == bytes,
        bytes_bits(bytes).len() == 8 * bytes.len(),
{
    lemma_take_bytes(bytes, Seq::empty());
    assert(bytes_bits(bytes) + Seq::<bool>::empty() =~= bytes_bits(bytes));
}

/// What was written at the cursor stands there: the bits from the old cursor
/// on begin with it.
pub proof fn lemma_written_stands(stream: StreamView, w: Seq<bool>)
    requires
        stream.writable(),
    ensures
        w.len() <= stream.write(w).seek(stream.pos).remaining().len(),
        stream.write(w).seek(stream.pos).remaining().take(w.len() as int) == w,
        stream.write(w).pos == stream.pos + w.len(),
{
    let after = stream.write(w).seek(stream.pos);
    assert(after.remaining().take(w.len() as int) =~= w);
}

/// A number that fits in `bits` bits, written at any cursor and read again
/// from there, is the number.
pub proof fn lemma_write_read_int(stream: StreamView, value: u32, bits: nat)
    requires
        stream.writable(),
        bits <= 32,
        value < pow2(bits),
    ensures
        take_bits(
            stream.write(int_bits(value as nat, bits)).seek(stream.pos).remaining(),
            bits,
        ) matches Some((read, _)) && read == value,
{
    let w = int_bits(value as nat, bits);
    lemma_int_bits_len(value as nat, bits);
    lemma_written_stands(stream, w);
    crate::bits::lemma_bits_value_of_int(value as nat, bits);
}

/// A flag, written at any cursor and read again from there, is the flag.
pub proof fn lemma_write_read_flag(stream: StreamView, value: bool)
    requires
        stream.writable(),
    ensures
        take_flag(stream.write(flag_bits(value)).seek(stream.pos).remaining()) matches Some(
            (read, _),
        ) && read == value,
{
    lemma2_to64();
    lemma_write_read_int(stream, if value { 1 } else { 0 }, 1);
}

/// A number whose magnitude fits in `bit_count - 1` bits, written in sign and
/// magnitude and read again, is the number.
pub proof fn lemma_take_signed_int(value: int, bit_count: nat, rest: Seq<bool>)
    requires
        1 <= bit_count,
        -pow2((bit_count - 1) as nat) < value < pow2((bit_count - 1) as nat),
    ensures
        take_signed_int(signed_int_bits(value, bit_count) + rest, bit_count) == Some((value, rest)),
{
    let magnitude = (if value < 0 { -value } else { value }) as nat;
    let tail = int_bits(magnitude, (bit_count - 1) as nat) + rest;
    assert(signed_int_bits(value, bit_count) + rest =~= flag_bits(value < 0) + tail);
    lemma_take_flag(value < 0, tail);
    lemma_take_int(magnitude, (bit_count - 1) as nat, rest);
}

/// The width of a range tells its values apart: the range holds no more
/// values than `range_bits` bits have.
pub proof fn lemma_range_bits(size: nat)
    ensures
        size <= pow2(range_bits(size)),
    decreases size,
{
    lemma2_to64();
    if size > 1 {
        lemma_range_bits((size + 1) / 2);
        lemma_pow2_unfold(range_bits(size));
    }
}

/// A number of a range, written as its offset and read again, is the number.
pub proof fn lemma_take_ranged(value: u32, range_start: u32, range_end: u32, rest: Seq<bool>)
    requires
        range_start <= value <= range_end,
    ensures
        take_ranged(ranged_bits(value, range_start, range_end) + rest, range_start, range_end)
            == Some((value, rest)),
{
    lemma_range_bits((range_end - range_start + 1) as nat);
    lemma_take_int(
        (value - range_start) as nat,
        range_bits((range_end - range_start + 1) as nat),
        rest,
    );
}

/// A number in the variable-length encoding from bucket `level` on is read
/// back as it was written.
pub proof fn lemma_take_bucket(value: u32, level: nat, rest: Seq<bool>)
    ensures
        take_bucket(bucket_bits(value, level) + rest, level) == Some((value as nat, rest)),
    decreases 4 - level,
{
    lemma2_to64();
    if level >= 4 {
        lemma_take_int(value as nat, 32, rest);
    } else if value < pow2(bucket_width(level)) {
        let tail = int_bits(value as nat, bucket_width(level)) + rest;
        assert(bucket_bits(value, level) + rest =~= flag_bits(true) + tail);
        lemma_take_flag(true, tail);
        lemma_take_int(value as nat, bucket_width(level), rest);
    } else {
        let tail = bucket_bits(value, level + 1) + rest;
        assert(bucket_bits(value, level) + rest =~= flag_bits(false) + tail);
        lemma_take_flag(false, tail);
        lemma_take_bucket(value, level + 1, rest);
    }
}

/// A number in the variable-length encoding is read back as it was written.
pub proof fn lemma_take_cussed(value: u32, rest: Seq<bool>)
    ensures
        take_cussed(cussed_bits(value) + rest) == Some((value as nat, rest)),
{
    if value == 0 {
        lemma_take_flag(true, rest);
    } else {
        let tail = bucket_bits(value, 0) + rest;
        assert(cussed_bits(value) + rest =~= flag_bits(false) + tail);
        lemma_take_flag(false, tail);
        lemma_take_bucket(value, 0, rest);
    }
}

/// A byte string behind its length of eight bits is read back as it was
/// written.
pub proof fn lemma_take_cstring(bytes: Seq<u8>, rest: Seq<bool>)
    requires
        bytes.len() < 256,
    ensures
        take_cstring(cstring_bits(bytes) + rest) == Some((bytes, rest)),
{
    lemma2_to64();
    let tail = bytes_bits(bytes) + rest;
    assert(cstring_bits(bytes) + rest =~= int_bits(bytes.len(), 8) + tail);
    lemma_take_int(bytes.len(), 8, tail);
    lemma_take_bytes(bytes, rest);
}

/// A byte string behind its length of sixteen bits is read back as it was
/// written.
pub proof fn lemma_take_long_cstring(bytes: Seq<u8>, rest: Seq<bool>)
    requires
        bytes.len() < 0x1_0000,
    ensures
        take_long_cstring(long_cstring_bits(bytes) + rest) == Some((bytes, rest)),
{
    lemma2_to64();
    let tail = bytes_bits(bytes) + rest;
    assert(long_cstring_bits(bytes) + rest =~= int_bits(bytes.len(), 16) + tail);
    lemma_take_int(bytes.len(), 16, tail);
    lemma_take_bytes(bytes, rest);
}

proof fn lemma_read_within(b: u8, s: u8, n: u8, k: u8)
    by (bit_vector)
    requires
        1 <= n,
        s + n <= 8,
        k < n,
    ensures
        bit_at(((b >> s) & (0xFFu8 >> (8 - n) as u8)) as u32, k as u32) == bit_at(
            b as u32,
            (s + k) as u32,
        ),
        (((b >> s) & (0xFFu8 >> (8 - n) as u8)) as u32) >> (n as u32) == 0,
{
}

proof fn lemma_read_tail(b: u8, s: u8, k: u8)
    by (bit_vector)
    requires
        s < 8,
        k < 8 - s,
    ensures
        bit_at((b >> s) as u32, k as u32) == bit_at(b as u32, (s + k) as u32),
        ((b >> s) as u32) >> ((8 - s) as u32) == 0,
{
}

proof fn lemma_read_across(b1: u8, b2: u8, s: u8, n: u8, k: u8)
    by (bit_vector)
    requires
        1 <= n <= 8,
        s < 8,
        s + n > 8,
        k < n,
    ensures
        ({
            let extra = (s + n - 8) as u8;
            let remain = (8 - s) as u8;
            let r = (b1 >> s) | ((b2 & (0xFFu8 >> (8 - extra) as u8)) << remain);
            &&& bit_at(r as u32, k as u32) == (if k < remain {
                bit_at(b1 as u32, (s + k) as u32)
            } else {
                bit_at(b2 as u32, (k - remain) as u32)
            })
            &&& (r as u32) >> (n as u32) == 0
        }),
{
}

proof fn lemma_write_within(old_byte: u8, v: u8, s: u8, n: u8, k: u8)
    by (bit_vector)
    requires
        1 <= n,
        s + n < 8,
        k < 8,
    ensures
        ({
            let vm = v & (0xFFu8 >> (8 - n) as u8);
            let lower = if s == 0 { 0u8 } else { old_byte & (0xFFu8 >> (8 - s) as u8) };
            let nb = lower | ((vm << s) & (0xFFu8 >> (8 - n - s) as u8));
            bit_at(nb as u32, k as u32) == (if k < s {
                bit_at(old_byte as u32, k as u32)
            } else if k < s + n {
                bit_at(v as u32, (k - s) as u32)
            } else {
                false
            })
        }),
{
}

proof fn lemma_write_across(old_byte: u8, v: u8, s: u8, n: u8, k: u8)
    by (bit_vector)
    requires
        1 <= n <= 8,
        s < 8,
        s + n >= 8,
        k < 8,
    ensures
        ({
            let extra = (s + n - 8) as u8;
            let remain = (8 - s) as u8;
            let vm = v & (0xFFu8 >> (8 - n) as u8);
            let first = vm & (0xFFu8 >> (8 - remain) as u8);
            let lower = if s == 0 { 0u8 } else { old_byte & (0xFFu8 >> (8 - s) as u8) };
            let b1 = lower | (first << s);
            let b2 = if remain == 8 {
                0u8
            } else if extra == 0 {
                vm >> remain
            } else {
                (vm >> remain) & (0xFFu8 >> (8 - extra) as u8)
            };
            &&& bit_at(b1 as u32, k as u32) == (if k < s {
                bit_at(old_byte as u32, k as u32)
            } else {
                bit_at(v as u32, (k - s) as u32)
            })
            &&& bit_at(b2 as u32, k as u32) == (if k < extra {
                bit_at(v as u32, (remain + k) as u32)
            } else {
                false
            })
        }),
{
}

proof fn lemma_or_chunk(value: u32, x: u32, done: u32, c: u32, k: u32)
    by (bit_vector)
    requires
        done < 32,
        1 <= c <= 8,
        done + c <= 32,
        value >> done == 0,
        x >> c == 0,
        k < 32,
    ensures
        bit_at(value | (x << done), k) == (if k < done {
            bit_at(value, k)
        } else {
            bit_at(x, (k - done) as u32)
        }),
        done + c < 32 ==> (value | (x << done)) >> ((done + c) as u32) == 0,
{
}

proof fn lemma_read_chunk(full: Seq<bool>, value: u32, x: u32, done: nat, c: nat)
    requires
        1 <= c <= 8,
        done + c <= 32,
        done + c <= full.len(),
        forall|k: int| 0 <= k < done ==> bit_at(value, k as u32) == full[k],
        value >> (done as u32) == 0,
        x == bits_value(full.skip(done as int).take(c as int)),
    ensures
        forall|k: int|
            0 <= k < done + c ==> bit_at(value | (x << (done as u32)), k as u32) == full[k],
        done + c < 32 ==> (value | (x << (done as u32))) >> ((done + c) as u32) == 0,
{
    let window = full.skip(done as int).take(c as int);
    lemma_value_bits_word(x, window);
    let next = value | (x << (done as u32));
    assert forall|k: int| 0 <= k < done + c implies bit_at(next, k as u32) == full[k] by {
        lemma_or_chunk(value, x, done as u32, c as u32, k as u32);
        if k >= done {
            assert(window[k - done] == full[k]);
        }
    }
    lemma_or_chunk(value, x, done as u32, c as u32, 0);
}

proof fn lemma_chunk_bit(value: u32, d: u32, k: u32)
    by (bit_vector)
    requires
        d <= 24,
        k < 8,
    ensures
        bit_at(((value >> d) as u8) as u32, k) == bit_at(value, (d + k) as u32),
        (value >> d) >> 8 == value >> ((d + 8) as u32),
        value >> 0 == value,
{
}

proof fn lemma_bucket_limits()
    by (bit_vector)
    ensures
        0xFFFF_FFFFu32 >> 28 == 0xF,
        0xFFFF_FFFFu32 >> 24 == 0xFF,
        0xFFFF_FFFFu32 >> 16 == 0xFFFF,
        0xFFFF_FFFFu32 >> 8 == 0xFF_FFFF,
{
}

proof fn lemma_zero_byte()
    by (bit_vector)
    ensures
        forall|k: u32| k < 8 ==> !(#[trigger] bit_at(0u8 as u32, k)),
{
}

proof fn lemma_mask_bit(v: u8, n: u8, k: u8)
    by (bit_vector)
    requires
        1 <= n <= 8,
        k < n,
    ensures
        bit_at((v & (0xFFu8 >> (8 - n) as u8)) as u32, k as u32) == bit_at(v as u32, k as u32),
{
}

proof fn lemma_mask_value(v: u8, n: u8)
    by (bit_vector)
    requires
        1 <= n <= 8,
    ensures
        ((v & (0xFFu8 >> (8 - n) as u8)) as u32) >> (n as u32) == 0,
{
}

} // verus!

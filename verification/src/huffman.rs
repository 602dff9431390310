//! The shared Huffman code of short byte strings.

use vstd::prelude::*;
use crate::bits::{bytes_bits, int_bits, lemma_int_bits_len};
use crate::bitstream::{
    BitStream, Truncated, flag_bits, take_bits, take_bytes, take_flag, lemma_write_at_end,
    lemma_write_write,
};
use crate::codes::{
    HuffTables, assign, blank_leaves, canonical, coded, leaf_bits, lemma_canonical, lemma_tree,
    tables_ok, tree_nodes, tree_ok,
};
use crate::forest::{
    Forest, Pick, child, grown, height_of, lemma_after, lemma_merge, lemma_pops_range, pick,
    valid_child, valid_wrap, wrap_index,
};
use crate::text::{bytes_text, decode_text, encode_text, text_bytes};

verus! {

/// How often each byte was seen when the code was fixed.
pub const CHAR_FREQS: [u32; 256] = [
    0, 0, 0, 0, 0, 0, 0, 0, 0, 329, 21, 0, 0, 0, 0, 0, 0, 0, 0, 0, 0, 0, 0, 0, 0, 0, 0, 0, 0, 0, 0,
    0, 2809, 68, 0, 27, 0, 58, 3, 62, 4, 7, 0, 0, 15, 65, 554, 3, 394, 404, 189, 117, 30, 51, 27,
    15, 34, 32, 80, 1, 142, 3, 142, 39, 0, 144, 125, 44, 122, 275, 70, 135, 61, 127, 8, 12, 113,
    246, 122, 36, 185, 1, 149, 309, 335, 12, 11, 14, 54, 151, 0, 0, 2, 0, 0, 211, 0, 2090, 344,
    736, 993, 2872, 701, 605, 646, 1552, 328, 305, 1240, 735, 1533, 1713, 562, 3, 1775, 1149, 1469,
    979, 407, 553, 59, 279, 31, 0, 0, 0, 68, 0, 0, 0, 0, 0, 0, 0, 0, 0, 0, 0, 0, 0, 0, 0, 0, 0, 0,
    0, 0, 0, 0, 0, 0, 0, 0, 0, 0, 0, 0, 0, 0, 0, 0, 0, 0, 0, 0, 0, 0, 0, 0, 0, 0, 0, 0, 0, 0, 0, 0,
    0, 0, 0, 0, 0, 0, 0, 0, 0, 0, 0, 0, 0, 0, 0, 0, 0, 0, 0, 0, 0, 0, 0, 0, 0, 0, 0, 0, 0, 0, 0, 0,
    0, 0, 0, 0, 0, 0, 0, 0, 0, 0, 0, 0, 0, 0, 0, 0, 0, 0, 0, 0, 0, 0, 0, 0, 0, 0, 0, 0, 0, 0, 0, 0,
    0, 0, 0, 0, 0, 0, 0, 0, 0, 0, 0, 0, 0, 0, 0,
];

/// An interior node of the code tree. A child index below zero names a leaf:
/// `-(i + 1)` is leaf `i`; any other names an interior node.
#[derive(Clone, Copy, Debug, PartialEq, Eq, Structural)]
pub struct HuffNode {
    pub pop: u32,
    pub index0: i16,
    pub index1: i16,
}

/// A leaf of the code tree: a byte, its weight and its code.
#[derive(Clone, Copy, Debug, PartialEq, Eq, Structural)]
pub struct HuffLeaf {
    pub pop: u32,
    pub num_bits: u8,
    pub symbol: u8,
    pub code: u32,
}

/// A handle on a tree that is still to be merged: one leaf or one interior node.
#[derive(Clone, Copy, Debug, PartialEq, Eq, Structural)]
pub enum HuffWrap {
    Unset,
    Leaf(i16),
    Node(i16),
}

/// The code of a byte, first branch first.
pub open spec fn symbol_bits(symbol: u8) -> Seq<bool> {
    leaf_bits(canonical().leaves[symbol as int])
}

/// The codes of a byte string, one after the other.
pub open spec fn symbols_bits(bytes: Seq<u8>) -> Seq<bool>
    decreases bytes.len(),
{
    if bytes.len() == 0 {
        Seq::empty()
    } else {
        symbols_bits(bytes.drop_last()) + symbol_bits(bytes.last())
    }
}

/// The number of bits that the codes of a byte string take.
pub open spec fn code_length(bytes: Seq<u8>) -> nat
    decreases bytes.len(),
{
    if bytes.len() == 0 {
        0
    } else {
        code_length(bytes.drop_last()) + canonical().leaves[bytes.last() as int].num_bits as nat
    }
}

/// The codes of the byte string take fewer bits than its bytes.
pub open spec fn compresses(bytes: Seq<u8>) -> bool {
    code_length(bytes) < 8 * bytes.len()
}

/// A byte string of at most 255 bytes on the wire: a flag that says whether
/// codes follow, the length in eight bits, and the codes of the bytes where
/// they take fewer bits than the bytes themselves, else the bytes.
pub open spec fn buffer_bits(bytes: Seq<u8>) -> Seq<bool> {
    if compresses(bytes) {
        flag_bits(true) + int_bits(bytes.len(), 8) + symbols_bits(bytes)
    } else {
        flag_bits(false) + int_bits(bytes.len(), 8) + bytes_bits(bytes)
    }
}

/// What of a buffer goes out: nothing of none, else its first `max_len` bytes.
pub open spec fn outgoing(buffer: Option<Seq<u8>>, max_len: nat) -> Seq<u8> {
    match buffer {
        None => Seq::empty(),
        Some(bytes) => if bytes.len() > max_len {
            bytes.take(max_len as int)
        } else {
            bytes
        },
    }
}

/// Walks down the tree from `index`, a bit for each branch, to a leaf: the
/// leaf's index and what follows the bits taken.
pub open spec fn take_symbol(nodes: Seq<HuffNode>, bits: Seq<bool>, index: int) -> Option<
    (int, Seq<bool>),
>
    decreases bits.len(),
{
    if index < 0 {
        Some((index, bits))
    } else if index >= nodes.len() {
        None
    } else {
        match take_flag(bits) {
            None => None,
            Some((bit, rest)) => take_symbol(nodes, rest, child(nodes, index, bit)),
        }
    }
}

/// The byte of the leaf that `index` names.
pub open spec fn leaf_symbol(index: int) -> u8 {
    canonical().leaves[-(index + 1)].symbol
}

/// Reads `count` coded bytes.
pub open spec fn take_symbols(bits: Seq<bool>, count: nat) -> Option<(Seq<u8>, Seq<bool>)>
    decreases count,
{
    if count == 0 {
        Some((Seq::empty(), bits))
    } else {
        match take_symbol(canonical().nodes, bits, 0) {
            None => None,
            Some((leaf, rest)) => match take_symbols(rest, (count - 1) as nat) {
                None => None,
                Some((bytes, rest)) => Some((seq![leaf_symbol(leaf)] + bytes, rest)),
            },
        }
    }
}

/// Reads a byte string into a buffer of `capacity` bytes: the flag, the
/// length, which is cut down to the capacity, and that many coded or plain
/// bytes.
pub open spec fn take_buffer(bits: Seq<bool>, capacity: nat) -> Option<(Seq<u8>, Seq<bool>)> {
    match take_flag(bits) {
        None => None,
        Some((coded, rest)) => match take_bits(rest, 8) {
            None => None,
            Some((length, rest)) => {
                let count = if length >= capacity { capacity } else { length };
                if coded {
                    take_symbols(rest, count)
                } else {
                    take_bytes(rest, count)
                }
            },
        },
    }
}

/// A text of at most 255 characters on the wire: its bytes as a byte string.
pub open spec fn string_bits(text: Seq<char>) -> Seq<bool> {
    buffer_bits(text_bytes(text))
}

/// Reads a text: a byte string of at most 256 bytes.
pub open spec fn take_string(bits: Seq<bool>) -> Option<(Seq<u8>, Seq<bool>)> {
    take_buffer(bits, 256)
}

impl HuffWrap {
    /// A handle on nothing yet.
    pub fn new() -> (wrap: Self)
        ensures
            wrap == HuffWrap::Unset,
    {
        HuffWrap::Unset
    }

    /// Points the handle at leaf `leaf`.
    pub fn set_leaf(&mut self, leaf: i16)
        ensures
            *final(self) == HuffWrap::Leaf(leaf),
    {
        *self = HuffWrap::Leaf(leaf);
    }

    /// Points the handle at interior node `node`.
    pub fn set_node(&mut self, node: i16)
        ensures
            *final(self) == HuffWrap::Node(node),
    {
        *self = HuffWrap::Node(node);
    }

    /// The weight of the tree under the handle.
    #[allow(non_snake_case)]
    pub fn getPop(&self, nodes: &Vec<HuffNode>, leaves: &Vec<HuffLeaf>) -> (pop: u32)
        requires
            match *self {
                HuffWrap::Leaf(i) => 0 <= i < leaves.len(),
                HuffWrap::Node(j) => 0 <= j < nodes.len(),
                HuffWrap::Unset => false,
            },
        ensures
            pop == (match *self {
                HuffWrap::Leaf(i) => leaves[i as int].pop,
                HuffWrap::Node(j) => nodes[j as int].pop,
                HuffWrap::Unset => 0,
            }),
    {
        match *self {
            HuffWrap::Leaf(i) => leaves[i as usize].pop,
            HuffWrap::Node(j) => nodes[j as usize].pop,
            HuffWrap::Unset => 0,
        }
    }
}

/// The index by which a node names the tree under a handle: a leaf by a
/// number below zero, an interior node by its place.
fn determine_index(wrap: &HuffWrap) -> (index: i16)
    requires
        match *wrap {
            HuffWrap::Leaf(i) => 0 <= i < 0x7FFF,
            HuffWrap::Node(j) => true,
            HuffWrap::Unset => false,
        },
    ensures
        index == wrap_index(*wrap),
{
    match *wrap {
        HuffWrap::Leaf(i) => -(i + 1),
        HuffWrap::Node(j) => j,
        HuffWrap::Unset => 0,
    }
}

/// The leaves before any code is assigned.
fn make_leaves() -> (leaves: Vec<HuffLeaf>)
    ensures
        leaves@ == blank_leaves(),
{
    let mut leaves: Vec<HuffLeaf> = Vec::new();
    let mut i: usize = 0;
    while i < 256
        invariant
            i <= 256,
            leaves@ == blank_leaves().take(i as int),
        decreases 256 - i,
    {
        leaves.push(HuffLeaf { pop: CHAR_FREQS[i] + 1, num_bits: 0, symbol: i as u8, code: 0 });
        i = i + 1;
        proof {
            assert(leaves@ =~= blank_leaves().take(i as int));
        }
    }
    proof {
        assert(blank_leaves().take(256) =~= blank_leaves());
    }
    leaves
}

/// The places in the list of the two lightest trees, the lightest first.
fn two_lightest(wraps: &Vec<HuffWrap>, nodes: &Vec<HuffNode>, leaves: &Vec<HuffLeaf>) -> (r: (
    i32,
    i32,
))
    requires
        leaves@ == blank_leaves(),
        2 <= wraps.len() <= 256,
        exists|w: crate::forest::Witness| grown(Forest { wraps: wraps@, nodes: nodes@ }, w),
    ensures
        ({
            let picked = pick(Forest { wraps: wraps@, nodes: nodes@ }.pops(), wraps.len() as int);
            &&& r.0 == picked.index1
            &&& r.1 == picked.index2
            &&& 0 <= r.0 < wraps.len()
            &&& 0 <= r.1 < wraps.len()
            &&& r.0 != r.1
            &&& picked.min1 + picked.min2 <= 32782
            &&& picked.min1 == Forest { wraps: wraps@, nodes: nodes@ }.pops()[r.0 as int]
            &&& picked.min2 == Forest { wraps: wraps@, nodes: nodes@ }.pops()[r.1 as int]
        }),
{
    let ghost forest = Forest { wraps: wraps@, nodes: nodes@ };
    let ghost pops = forest.pops();
    let ghost w = choose|w: crate::forest::Witness| grown(forest, w);
    let mut min1: u32 = 0xffff_fffe;
    let mut min2: u32 = 0xffff_ffff;
    let mut index1: i32 = -1;
    let mut index2: i32 = -1;
    let mut i: usize = 0;
    while i < wraps.len()
        invariant
            i <= wraps.len() <= 256,
            leaves@ == blank_leaves(),
            forest == (Forest { wraps: wraps@, nodes: nodes@ }),
            pops == forest.pops(),
            grown(forest, w),
            pick(pops, i as int) == (Pick {
                min1: min1 as int,
                min2: min2 as int,
                index1: index1 as int,
                index2: index2 as int,
            }),
        decreases wraps.len() - i,
    {
        proof {
            lemma_pops_range(forest, w, i as int);
            assert(valid_wrap(wraps@[i as int], nodes@.len() as int));
        }
        let pop = wraps[i].getPop(nodes, leaves);
        if pop < min1 {
            min2 = min1;
            index2 = index1;
            min1 = pop;
            index1 = i as i32;
        } else if pop < min2 {
            min2 = pop;
            index2 = i as i32;
        }
        i = i + 1;
    }
    proof {
        let after = lemma_merge(forest, w);
        assert forall|k: int| 0 <= k < wraps.len() implies pops[k] < 0xffff_fffe by {
            lemma_pops_range(forest, w, k);
        }
        crate::forest::lemma_pick(pops, wraps.len() as int);
    }
    (index1, index2)
}

/// Grows the code tree out of the leaves: merges the two lightest trees of
/// the list until one is left, and copies that root to place 0.
fn build_tables(leaves: &Vec<HuffLeaf>) -> (nodes: Vec<HuffNode>)
    requires
        leaves@ == blank_leaves(),
    ensures
        nodes@ == tree_nodes(),
{
    let mut nodes: Vec<HuffNode> = Vec::new();
    nodes.push(HuffNode { pop: 0, index0: 0, index1: 0 });
    let mut wraps: Vec<HuffWrap> = Vec::new();
    let mut i: usize = 0;
    while i < 256
        invariant
            i <= 256,
            wraps@ == Forest::initial().wraps.take(i as int),
        decreases 256 - i,
    {
        let mut wrap = HuffWrap::new();
        wrap.set_leaf(i as i16);
        wraps.push(wrap);
        i = i + 1;
        proof {
            assert(wraps@ =~= Forest::initial().wraps.take(i as int));
        }
    }
    proof {
        assert(Forest::initial().wraps.take(256) =~= Forest::initial().wraps);
        assert(nodes@ =~= Forest::initial().nodes);
    }
    let ghost mut steps: nat = 0;
    while wraps.len() != 1
        invariant
            steps <= 255,
            wraps.len() == 256 - steps,
            leaves@ == blank_leaves(),
            (Forest { wraps: wraps@, nodes: nodes@ }) == Forest::after(steps),
        decreases wraps.len(),
    {
        let ghost forest = Forest { wraps: wraps@, nodes: nodes@ };
        let ghost w = lemma_after(steps);
        let (index1, index2) = two_lightest(&wraps, &nodes, leaves);
        proof {
            assert(valid_wrap(wraps@[index1 as int], nodes@.len() as int));
            assert(valid_wrap(wraps@[index2 as int], nodes@.len() as int));
            lemma_pops_range(forest, w, index1 as int);
            lemma_pops_range(forest, w, index2 as int);
        }
        let det_index0 = determine_index(&wraps[index1 as usize]);
        let det_index1 = determine_index(&wraps[index2 as usize]);
        let pop: u32 = wraps[index1 as usize].getPop(&nodes, leaves) + wraps[index2
            as usize].getPop(&nodes, leaves);
        nodes.push(HuffNode { pop, index0: det_index0, index1: det_index1 });
        let merge_index: i32 = if index1 > index2 {
            index2
        } else {
            index1
        };
        let nuke_index: i32 = if index1 > index2 {
            index1
        } else {
            index2
        };
        let mut merged = HuffWrap::new();
        merged.set_node((nodes.len() - 1) as i16);
        wraps.set(merge_index as usize, merged);
        wraps.swap_remove(nuke_index as usize);
        proof {
            let next = forest.merge_step();
            assert(nodes@ =~= next.nodes);
            assert(wraps@ =~= next.wraps);
            steps = steps + 1;
        }
    }
    proof {
        let w = lemma_after(255);
        assert(valid_wrap(wraps@[0], 256));
        crate::codes::lemma_root();
    }
    let root = determine_index(&wraps[0]);
    let top = nodes[root as usize];
    nodes.set(0, top);
    nodes
}

/// Walks the tree under `index` and gives every leaf the path to it as its
/// code: `depth` branches so far, whose bits, first branch lowest, are `code`.
fn generate_codes(
    nodes: &Vec<HuffNode>,
    leaves: &mut Vec<HuffLeaf>,
    index: i16,
    depth: u32,
    code: u32,
    Ghost(heights): Ghost<Seq<nat>>,
    Ghost(fuel): Ghost<nat>,
)
    requires
        tree_ok(nodes@, heights),
        old(leaves)@.len() == 256,
        valid_child(index as int, 256) || index == 0,
        fuel >= height_of(heights, index as int),
        depth + height_of(heights, index as int) <= 21,
    ensures
        final(leaves)@ == assign(nodes@, old(leaves)@, index as int, depth as nat, code, fuel),
        final(leaves)@.len() == 256,
    decreases fuel,
{
    if index < 0 {
        let at = (-(index + 1)) as usize;
        let leaf = leaves[at];
        leaves.set(
            at,
            HuffLeaf { pop: leaf.pop, num_bits: depth as u8, symbol: leaf.symbol, code },
        );
    } else {
        let node = nodes[index as usize];
        proof {
            assert(nodes@[index as int] == node);
        }
        generate_codes(
            nodes,
            leaves,
            node.index0,
            depth + 1,
            code,
            Ghost(heights),
            Ghost((fuel - 1) as nat),
        );
        generate_codes(
            nodes,
            leaves,
            node.index1,
            depth + 1,
            code | (1u32 << depth),
            Ghost(heights),
            Ghost((fuel - 1) as nat),
        );
    }
}

/// The tables of the shared code. They are built once, from the frequency
/// table, and never change.
#[derive(Debug)]
pub struct HuffmanProcessor {
    nodes: Vec<HuffNode>,
    leaves: Vec<HuffLeaf>,
}

impl Clone for HuffmanProcessor {
    fn clone(&self) -> (copy: Self)
        ensures
            copy@ == self@,
    {
        proof {
            use_type_invariant(self);
        }
        let nodes = self.nodes.clone();
        let leaves = self.leaves.clone();
        proof {
            assert(nodes@ =~= self.nodes@);
            assert(leaves@ =~= self.leaves@);
        }
        HuffmanProcessor { nodes, leaves }
    }
}

impl View for HuffmanProcessor {
    type V = HuffTables;

    closed spec fn view(&self) -> HuffTables {
        HuffTables { nodes: self.nodes@, leaves: self.leaves@ }
    }
}

impl HuffmanProcessor {
    #[verifier::type_invariant]
    spec fn built(self) -> bool {
        self.nodes@ == canonical().nodes && self.leaves@ == canonical().leaves
    }

    /// Builds the tables: grows the tree out of the frequency table and walks
    /// it for the codes.
    pub fn new() -> (processor: Self)
        ensures
            processor@ == canonical(),
            tables_ok(processor@),
    {
        let mut leaves = make_leaves();
        let nodes = build_tables(&leaves);
        let ghost heights = lemma_tree();
        generate_codes(&nodes, &mut leaves, 0, 0, 0, Ghost(heights), Ghost(256));
        proof {
            lemma_canonical();
        }
        HuffmanProcessor { nodes, leaves }
    }

    /// Shows what holds of every processor: its tables are those that the
    /// frequency table gives.
    pub fn check_tables(&self)
        ensures
            self@ == canonical(),
            tables_ok(self@),
    {
        proof {
            use_type_invariant(self);
            lemma_canonical();
        }
    }
}

impl HuffmanProcessor {
    /// Reads one coded byte: walks down the tree, a bit for each branch.
    fn read_symbol(&self, stream: &mut BitStream) -> (r: Result<u8, Truncated>)
        ensures
            match take_symbol(canonical().nodes, old(stream)@.remaining(), 0) {
                Some((leaf, rest)) => r == Ok::<u8, Truncated>(leaf_symbol(leaf)) && old(
                    stream,
                )@.reads_to(final(stream)@, rest),
                None => r is Err && final(stream)@ == old(stream)@,
            },
    {
        proof {
            use_type_invariant(self);
            lemma_canonical();
        }
        let ghost before = stream@;
        let ghost nodes = canonical().nodes;
        let mark = stream.mark();
        let mut index: i16 = 0;
        while index >= 0
            invariant
                -256 <= index < 256,
                self.nodes@ == nodes,
                nodes == canonical().nodes,
                tables_ok(canonical()),
                before == old(stream)@,
                mark@ == before.pos,
                before.reads_to(stream@, stream@.remaining()),
                take_symbol(nodes, before.remaining(), 0) == take_symbol(
                    nodes,
                    stream@.remaining(),
                    index as int,
                ),
            decreases stream@.remaining().len() + (if index >= 0 { 1int } else { 0int }),
        {
            match stream.read_flag() {
                Ok(bit) => {
                    let node = self.nodes[index as usize];
                    proof {
                        assert(nodes[index as int] == node);
                    }
                    index = if bit {
                        node.index1
                    } else {
                        node.index0
                    };
                },
                Err(e) => {
                    assert(stream@.bits == before.bits);
                    stream.rewind(mark);
                    assert(stream@ == before);
                    return Err(e);
                },
            }
        }
        Ok(self.leaves[(-(index + 1)) as usize].symbol)
    }

    /// Reads a byte string into a buffer of `capacity` bytes.
    fn read_huff_buffer(&self, stream: &mut BitStream, capacity: usize) -> (r: Result<
        Vec<u8>,
        Truncated,
    >)
        ensures
            match take_buffer(old(stream)@.remaining(), capacity as nat) {
                Some((bytes, rest)) => (r matches Ok(read) && read@ == bytes) && old(
                    stream,
                )@.reads_to(final(stream)@, rest),
                None => r is Err && final(stream)@ == old(stream)@,
            },
    {
        let ghost before = stream@;
        let mark = stream.mark();
        let coded = match stream.read_flag() {
            Ok(flag) => flag,
            Err(e) => {
                return Err(e);
            },
        };
        let length = match stream.read_int(8) {
            Ok(length) => length,
            Err(e) => {
                assert(stream@.bits == before.bits);
                stream.rewind(mark);
                assert(stream@ == before);
                return Err(e);
            },
        };
        let count: usize = if length as usize >= capacity {
            capacity
        } else {
            length as usize
        };
        if !coded {
            return match stream.read_bytes(count) {
                Ok(bytes) => Ok(bytes),
                Err(e) => {
                    assert(stream@.bits == before.bits);
                    stream.rewind(mark);
                    assert(stream@ == before);
                    Err(e)
                },
            };
        }
        let ghost start = stream@.remaining();
        let mut bytes: Vec<u8> = Vec::new();
        let mut i: usize = 0;
        proof {
            assert(Seq::<u8>::empty() + Seq::<u8>::empty() =~= Seq::<u8>::empty());
        }
        while i < count
            invariant
                i <= count,
                before == old(stream)@,
                mark@ == before.pos,
                before.reads_to(stream@, stream@.remaining()),
                take_buffer(before.remaining(), capacity as nat) == take_symbols(
                    start,
                    count as nat,
                ),
                take_symbols(start, count as nat) == (match take_symbols(
                    stream@.remaining(),
                    (count - i) as nat,
                ) {
                    Some((more, rest)) => Some((bytes@ + more, rest)),
                    None => None,
                }),
            decreases count - i,
        {
            match self.read_symbol(stream) {
                Ok(symbol) => {
                    let ghost so_far = bytes@;
                    bytes.push(symbol);
                    i = i + 1;
                    proof {
                        match take_symbols(stream@.remaining(), (count - i) as nat) {
                            Some((more, rest)) => {
                                assert(so_far + (seq![symbol] + more) =~= bytes@ + more);
                            },
                            None => {},
                        }
                    }
                },
                Err(e) => {
                    assert(stream@.bits == before.bits);
                    stream.rewind(mark);
                    assert(stream@ == before);
                    return Err(e);
                },
            }
        }
        proof {
            assert(bytes@ + Seq::<u8>::empty() =~= bytes@);
        }
        Ok(bytes)
    }

    /// Writes the first `max_len` bytes of the buffer as a byte string, and
    /// nothing but a flag and a zero length where there is no buffer. Returns
    /// the number of bytes that went out.
    fn write_huff_buffer(&self, stream: &mut BitStream, buffer: Option<&[u8]>, max_len: u32) -> (r:
        u32)
        requires
            old(stream)@.writable(),
            buffer matches Some(bytes) ==> bytes@.len() <= 255,
        ensures
            ({
                let sent = outgoing(
                    match buffer {
                        Some(bytes) => Some(bytes@),
                        None => None,
                    },
                    max_len as nat,
                );
                &&& r == sent.len()
                &&& final(stream)@ == old(stream)@.write(buffer_bits(sent))
                &&& final(stream)@.writable()
                &&& old(stream)@.at_end() ==> final(stream)@.at_end() && final(stream)@.written()
                    == old(stream)@.written() + buffer_bits(sent)
            }),
    {
        proof {
            use_type_invariant(self);
            lemma_canonical();
        }
        let ghost before = stream@;
        let ghost sent = outgoing(
            match buffer {
                Some(bytes) => Some(bytes@),
                None => None,
            },
            max_len as nat,
        );
        let bytes = match buffer {
            Some(bytes) => bytes,
            None => {
                stream.write_flag(false);
                stream.write_int(0, 8);
                proof {
                    lemma_write_write(before, flag_bits(false), int_bits(0, 8));
                    assert(bytes_bits(sent) =~= Seq::<bool>::empty());
                    assert(buffer_bits(sent) =~= flag_bits(false) + int_bits(0, 8));
                    if before.at_end() {
                        lemma_write_at_end(before, buffer_bits(sent));
                    }
                }
                return 0;
            },
        };
        let mut len: u32 = bytes.len() as u32;
        if len > max_len {
            len = max_len;
        }
        proof {
            assert(sent =~= bytes@.take(len as int));
        }
        let mut num_bits: u32 = 0;
        let mut i: u32 = 0;
        while i < len
            invariant
                i <= len <= 255,
                len <= bytes@.len(),
                self.leaves@ == canonical().leaves,
                tables_ok(canonical()),
                num_bits == code_length(bytes@.take(i as int)),
                num_bits <= 24 * i,
            decreases len - i,
        {
            let leaf = self.leaves[bytes[i as usize] as usize];
            proof {
                assert(bytes@.take(i + 1).drop_last() =~= bytes@.take(i as int));
                let symbol = bytes[i as int] as int;
                assert(coded(canonical().nodes, canonical().leaves[symbol], symbol));
            }
            num_bits = num_bits + leaf.num_bits as u32;
            i = i + 1;
        }
        let ghost head = flag_bits(num_bits < len * 8) + int_bits(len as nat, 8);
        if num_bits >= len * 8 {
            stream.write_flag(false);
            stream.write_int(len, 8);
            stream.write_bytes(slice_take(bytes, len as usize));
            proof {
                lemma_write_write(before, flag_bits(false), int_bits(len as nat, 8));
                lemma_write_write(before, head, bytes_bits(sent));
            }
        } else {
            stream.write_flag(true);
            stream.write_int(len, 8);
            proof {
                lemma_write_write(before, flag_bits(true), int_bits(len as nat, 8));
                assert(head + symbols_bits(bytes@.take(0)) =~= head);
            }
            let mut j: u32 = 0;
            while j < len
                invariant
                    j <= len <= 255,
                    len <= bytes@.len(),
                    self.leaves@ == canonical().leaves,
                    tables_ok(canonical()),
                    before.writable(),
                    stream@.writable(),
                    stream@ == before.write(head + symbols_bits(bytes@.take(j as int))),
                decreases len - j,
            {
                let leaf = self.leaves[bytes[j as usize] as usize];
                proof {
                    let symbol = bytes[j as int] as int;
                    assert(coded(canonical().nodes, canonical().leaves[symbol], symbol));
                }
                stream.write_int(leaf.code, leaf.num_bits as usize);
                proof {
                    let so_far = symbols_bits(bytes@.take(j as int));
                    lemma_write_write(before, head + so_far, leaf_bits(leaf));
                    assert(bytes@.take(j + 1).drop_last() =~= bytes@.take(j as int));
                    assert((head + so_far) + leaf_bits(leaf) =~= head + symbols_bits(
                        bytes@.take(j + 1),
                    ));
                }
                j = j + 1;
            }
        }
        proof {
            if before.at_end() {
                lemma_write_at_end(before, buffer_bits(sent));
            }
        }
        len
    }

    /// Reads a byte string into `buffer` and returns its length. On a stream
    /// that ends early the buffer stays as it is.
    pub fn read_buffer(&self, stream: &mut BitStream, buffer: &mut Vec<u8>) -> (r: Result<
        usize,
        Truncated,
    >)
        ensures
            match take_buffer(old(stream)@.remaining(), old(buffer)@.len()) {
                Some((bytes, rest)) => r == Ok::<usize, Truncated>(bytes.len() as usize)
                    && bytes.len() <= old(buffer)@.len() && final(buffer)@ == bytes + old(
                    buffer,
                )@.skip(bytes.len() as int) && old(stream)@.reads_to(final(stream)@, rest),
                None => r is Err && final(stream)@ == old(stream)@ && final(buffer)@ == old(
                    buffer,
                )@,
            },
    {
        let ghost start = buffer@;
        let bytes = match self.read_huff_buffer(stream, buffer.len()) {
            Ok(bytes) => bytes,
            Err(e) => {
                return Err(e);
            },
        };
        proof {
            lemma_take_buffer_length(old(stream)@.remaining(), start.len());
        }
        let mut i: usize = 0;
        while i < bytes.len()
            invariant
                i <= bytes.len() <= start.len(),
                buffer@.len() == start.len(),
                buffer@ == bytes@.take(i as int) + start.skip(i as int),
            decreases bytes.len() - i,
        {
            buffer.set(i, bytes[i]);
            i = i + 1;
            proof {
                assert(buffer@ =~= bytes@.take(i as int) + start.skip(i as int));
            }
        }
        proof {
            assert(bytes@.take(i as int) =~= bytes@);
        }
        Ok(bytes.len())
    }

    /// Writes the first `max_len` bytes of the buffer as a byte string, and
    /// returns how many went out.
    pub fn write_buffer(&self, stream: &mut BitStream, buffer: Option<&[u8]>, max_len: usize) -> (r:
        usize)
        requires
            old(stream)@.writable(),
            buffer matches Some(bytes) ==> bytes@.len() <= 255,
        ensures
            ({
                let sent = outgoing(
                    match buffer {
                        Some(bytes) => Some(bytes@),
                        None => None,
                    },
                    max_len as nat,
                );
                &&& r == sent.len()
                &&& final(stream)@ == old(stream)@.write(buffer_bits(sent))
                &&& final(stream)@.writable()
                &&& old(stream)@.at_end() ==> final(stream)@.at_end() && final(stream)@.written()
                    == old(stream)@.written() + buffer_bits(sent)
            }),
    {
        let limit: u32 = if max_len > 255 {
            255
        } else {
            max_len as u32
        };
        self.write_huff_buffer(stream, buffer, limit) as usize
    }

    /// Reads a text of at most 255 characters, one byte for each.
    pub fn read_string(&self, stream: &mut BitStream) -> (r: Result<String, Truncated>)
        ensures
            match take_string(old(stream)@.remaining()) {
                Some((bytes, rest)) => (r matches Ok(text) && text@ == bytes_text(bytes)) && old(
                    stream,
                )@.reads_to(final(stream)@, rest),
                None => r is Err && final(stream)@ == old(stream)@,
            },
    {
        match self.read_huff_buffer(stream, 256) {
            Ok(bytes) => Ok(decode_text(bytes.as_slice())),
            Err(e) => Err(e),
        }
    }

    /// Writes a text of at most 255 characters, one byte for each, and returns
    /// its length.
    pub fn write_string(&self, stream: &mut BitStream, value: &String) -> (r: usize)
        requires
            value@.len() <= 255,
            old(stream)@.writable(),
        ensures
            r == value@.len(),
            final(stream)@ == old(stream)@.write(string_bits(value@)),
            final(stream)@.writable(),
            old(stream)@.at_end() ==> final(stream)@.at_end() && final(stream)@.written() == old(
                stream,
            )@.written() + string_bits(value@),
    {
        let bytes = encode_text(value.as_str());
        self.write_buffer(stream, Some(bytes.as_slice()), 256)
    }
}

/// The first `count` elements of a slice.
fn slice_take(bytes: &[u8], count: usize) -> (r: &[u8])
    requires
        count <= bytes@.len(),
    ensures
        r@ == bytes@.take(count as int),
{
    vstd::slice::slice_subrange(bytes, 0, count)
}

/// A byte string that was read is no longer than the buffer that it was read
/// into.
pub proof fn lemma_take_buffer_length(bits: Seq<bool>, capacity: nat)
    ensures
        take_buffer(bits, capacity) matches Some((bytes, rest)) ==> bytes.len() <= capacity,
{
    match take_flag(bits) {
        Some((coded, rest)) => match take_bits(rest, 8) {
            Some((length, rest)) => {
                let count = if length >= capacity { capacity } else { length };
                lemma_take_symbols_length(rest, count);
            },
            None => {},
        },
        None => {},
    }
}

/// Reading `count` coded bytes gives `count` bytes.
pub proof fn lemma_take_symbols_length(bits: Seq<bool>, count: nat)
    ensures
        take_symbols(bits, count) matches Some((bytes, rest)) ==> bytes.len() == count,
    decreases count,
{
    if count > 0 {
        match take_symbol(canonical().nodes, bits, 0) {
            Some((leaf, rest)) => {
                lemma_take_symbols_length(rest, (count - 1) as nat);
            },
            None => {},
        }
    }
}

impl HuffmanProcessor {
    /// The code of a byte and the number of its bits.
    pub fn code_of(&self, symbol: u8) -> (r: (u32, u8))
        ensures
            symbol_bits(symbol) == int_bits(r.0 as nat, r.1 as nat),
            1 <= r.1 <= 24,
    {
        proof {
            use_type_invariant(self);
            lemma_canonical();
            assert(coded(canonical().nodes, canonical().leaves[symbol as int], symbol as int));
        }
        let leaf = self.leaves[symbol as usize];
        (leaf.code, leaf.num_bits)
    }
}

/// Following a path to a leaf bit by bit ends at that leaf and takes the
/// path's bits, no more.
pub proof fn lemma_walk(
    nodes: Seq<HuffNode>,
    start: int,
    path: Seq<bool>,
    target: int,
    rest: Seq<bool>,
)
    requires
        crate::forest::leads_to(nodes, start, path, target),
        target < 0,
    ensures
        take_symbol(nodes, path + rest, start) == Some((target, rest)),
    decreases path.len(),
{
    if path.len() == 0 {
        assert(path + rest =~= rest);
    } else {
        let bits = path + rest;
        reveal_with_fuel(crate::bits::bits_value, 2);
        assert(bits.take(1).drop_first() =~= Seq::<bool>::empty());
        assert(bits.take(1)[0] == path[0]);
        assert(bits.skip(1) =~= path.drop_first() + rest);
        lemma_walk(nodes, child(nodes, start, path[0]), path.drop_first(), target, rest);
    }
}

/// Every byte has a code of one to twenty-four bits, which is the path from
/// the root of the tree to the byte's leaf.
pub proof fn lemma_symbol_code(symbol: u8)
    ensures
        1 <= symbol_bits(symbol).len() <= 24,
        symbol_bits(symbol).len() == canonical().leaves[symbol as int].num_bits,
        crate::forest::leads_to(canonical().nodes, 0, symbol_bits(symbol), -(symbol + 1)),
        leaf_symbol(-(symbol + 1)) == symbol,
{
    lemma_canonical();
    let leaf = canonical().leaves[symbol as int];
    assert(coded(canonical().nodes, leaf, symbol as int));
    lemma_int_bits_len(leaf.code as nat, leaf.num_bits as nat);
}

/// The code is prefix-free: no byte's code is the beginning of another's.
pub proof fn lemma_prefix_free(first: u8, second: u8)
    requires
        first != second,
    ensures
        !symbol_bits(first).is_prefix_of(symbol_bits(second)),
{
    let a = symbol_bits(first);
    let b = symbol_bits(second);
    if a.is_prefix_of(b) {
        lemma_symbol_code(first);
        lemma_symbol_code(second);
        let tail = b.skip(a.len() as int);
        assert(a + tail =~= b);
        assert(b + Seq::<bool>::empty() =~= b);
        lemma_walk(canonical().nodes, 0, a, -(first + 1), tail);
        lemma_walk(canonical().nodes, 0, b, -(second + 1), Seq::<bool>::empty());
    }
}

/// The codes of a byte string begin with the code of its first byte.
pub proof fn lemma_symbols_bits_front(bytes: Seq<u8>)
    requires
        bytes.len() > 0,
    ensures
        symbols_bits(bytes) == symbol_bits(bytes[0]) + symbols_bits(bytes.drop_first()),
    decreases bytes.len(),
{
    if bytes.len() == 1 {
        assert(bytes.drop_last() =~= Seq::<u8>::empty());
        assert(bytes.drop_first() =~= Seq::<u8>::empty());
        assert(symbols_bits(bytes.drop_last()) =~= Seq::<bool>::empty());
        assert(symbols_bits(bytes) =~= symbol_bits(bytes[0]) + symbols_bits(bytes.drop_first()));
    } else {
        lemma_symbols_bits_front(bytes.drop_last());
        assert(bytes.drop_last().drop_first() =~= bytes.drop_first().drop_last());
        assert(symbols_bits(bytes) =~= symbol_bits(bytes[0]) + symbols_bits(bytes.drop_first()));
    }
}

/// The codes of a byte string take as many bits as their lengths add up to.
pub proof fn lemma_symbols_bits_len(bytes: Seq<u8>)
    ensures
        symbols_bits(bytes).len() == code_length(bytes),
    decreases bytes.len(),
{
    if bytes.len() > 0 {
        lemma_symbols_bits_len(bytes.drop_last());
        lemma_symbol_code(bytes.last());
    }
}

/// Coded bytes, read again, are the bytes.
pub proof fn lemma_take_symbols(bytes: Seq<u8>, rest: Seq<bool>)
    ensures
        take_symbols(symbols_bits(bytes) + rest, bytes.len()) == Some((bytes, rest)),
    decreases bytes.len(),
{
    if bytes.len() == 0 {
        assert(symbols_bits(bytes) + rest =~= rest);
    } else {
        let first = bytes[0];
        let others = bytes.drop_first();
        lemma_symbols_bits_front(bytes);
        lemma_symbol_code(first);
        assert(symbols_bits(bytes) + rest =~= symbol_bits(first) + (symbols_bits(others) + rest));
        lemma_walk(
            canonical().nodes,
            0,
            symbol_bits(first),
            -(first + 1),
            symbols_bits(others) + rest,
        );
        lemma_take_symbols(others, rest);
        assert(seq![first] + others =~= bytes);
    }
}

/// A byte string of at most 255 bytes, written and read again into a buffer
/// that holds it, is the byte string.
pub proof fn lemma_buffer_round_trip(bytes: Seq<u8>, capacity: nat, rest: Seq<bool>)
    requires
        bytes.len() <= 255,
        bytes.len() <= capacity,
    ensures
        take_buffer(buffer_bits(bytes) + rest, capacity) == Some((bytes, rest)),
{
    vstd::arithmetic::power2::lemma2_to64();
    let length = int_bits(bytes.len(), 8);
    if compresses(bytes) {
        let body = symbols_bits(bytes);
        assert(buffer_bits(bytes) + rest =~= flag_bits(true) + (length + (body + rest)));
        crate::bitstream::lemma_take_flag(true, length + (body + rest));
        crate::bitstream::lemma_take_int(bytes.len(), 8, body + rest);
        lemma_take_symbols(bytes, rest);
    } else {
        let body = bytes_bits(bytes);
        assert(buffer_bits(bytes) + rest =~= flag_bits(false) + (length + (body + rest)));
        crate::bitstream::lemma_take_flag(false, length + (body + rest));
        crate::bitstream::lemma_take_int(bytes.len(), 8, body + rest);
        crate::bitstream::lemma_take_bytes(bytes, rest);
    }
}

/// A byte string whose codes take fewer bits than its bytes goes out in nine
/// bits more than the codes take: the flag and the length.
pub proof fn lemma_compressed_length(bytes: Seq<u8>)
    requires
        compresses(bytes),
    ensures
        buffer_bits(bytes).len() == code_length(bytes) + 9,
{
    lemma_symbols_bits_len(bytes);
    lemma_int_bits_len(bytes.len(), 8);
    lemma_int_bits_len(1, 1);
}

/// A byte string whose codes take no fewer bits than its bytes goes out as it
/// is, behind the flag and the length.
pub proof fn lemma_plain_length(bytes: Seq<u8>)
    requires
        !compresses(bytes),
    ensures
        buffer_bits(bytes).len() == 8 * bytes.len() + 9,
{
    lemma_int_bits_len(bytes.len(), 8);
    lemma_int_bits_len(0, 1);
}

} // verus!

//! The code tree and the code of every byte.

use vstd::prelude::*;
use crate::bits::{int_bits, lemma_int_bits_len, lemma_int_bits_push};
use crate::forest::{
    Forest, child, height_of, leads_to, leaf_pop, lemma_after, lemma_fib_24,
    lemma_fib_monotonic, lemma_pops_range, node_ok, valid_child, valid_wrap, wrap_index,
};
use crate::huffman::{HuffLeaf, HuffNode};

verus! {

/// The interior nodes of the code tree: the nodes of the forest after its
/// last merge, with the root copied to place 0.
pub open spec fn tree_nodes() -> Seq<HuffNode> {
    let forest = Forest::after(255);
    forest.nodes.update(0, forest.nodes[wrap_index(forest.wraps[0])])
}

/// The leaves before any code is assigned.
pub open spec fn blank_leaves() -> Seq<HuffLeaf> {
    Seq::new(
        256,
        |i: int| HuffLeaf { pop: leaf_pop(i) as u32, num_bits: 0, symbol: i as u8, code: 0 },
    )
}

/// The leaves after the walk through the tree under `index`, which was
/// reached over `depth` branches whose bits, first branch lowest, are `code`.
/// A branch to the first child is a cleared bit, one to the second a set bit.
pub open spec fn assign(
    nodes: Seq<HuffNode>,
    leaves: Seq<HuffLeaf>,
    index: int,
    depth: nat,
    code: u32,
    fuel: nat,
) -> Seq<HuffLeaf>
    decreases fuel,
{
    if index < 0 {
        leaves.update(
            -(index + 1),
            HuffLeaf { code, num_bits: depth as u8, ..leaves[-(index + 1)] },
        )
    } else if fuel == 0 {
        leaves
    } else {
        let left = assign(
            nodes,
            leaves,
            nodes[index].index0 as int,
            depth + 1,
            code,
            (fuel - 1) as nat,
        );
        assign(
            nodes,
            left,
            nodes[index].index1 as int,
            depth + 1,
            code | (1u32 << (depth as u32)),
            (fuel - 1) as nat,
        )
    }
}

/// The tables of the code: the interior nodes of its tree and its leaves.
pub struct HuffTables {
    pub nodes: Seq<HuffNode>,
    pub leaves: Seq<HuffLeaf>,
}

/// The tables that the frequency table gives.
pub open spec fn canonical() -> HuffTables {
    HuffTables { nodes: tree_nodes(), leaves: assign(tree_nodes(), blank_leaves(), 0, 0, 0, 256) }
}

/// The bits of a leaf's code, first branch first.
pub open spec fn leaf_bits(leaf: HuffLeaf) -> Seq<bool> {
    int_bits(leaf.code as nat, leaf.num_bits as nat)
}

/// The leaf stands for byte `symbol`, and its code is the path from the root
/// to it, of one to twenty-four branches.
pub open spec fn coded(nodes: Seq<HuffNode>, leaf: HuffLeaf, symbol: int) -> bool {
    &&& leaf.symbol == symbol
    &&& leaf.pop == leaf_pop(symbol)
    &&& 1 <= leaf.num_bits <= 24
    &&& leads_to(nodes, 0, leaf_bits(leaf), -(symbol + 1))
}

/// The tree is well formed: 256 places, the root at place 0, under every node
/// two children that are leaves or nodes at a later-made place, and a height
/// for every node that is one more than the higher child's.
pub open spec fn tree_ok(nodes: Seq<HuffNode>, heights: Seq<nat>) -> bool {
    &&& nodes.len() == 256
    &&& heights.len() == 256
    &&& heights[0] <= 21
    &&& forall|j: int|
        0 <= j < 256 ==> {
            let node = #[trigger] nodes[j];
            let h0 = height_of(heights, node.index0 as int);
            let h1 = height_of(heights, node.index1 as int);
            &&& valid_child(node.index0 as int, if j == 0 { 256 } else { j })
            &&& valid_child(node.index1 as int, if j == 0 { 256 } else { j })
            &&& heights[j] == 1 + (if h0 >= h1 { h0 } else { h1 })
        }
}

/// Some path leads from `index` to `target`.
pub open spec fn path_exists(nodes: Seq<HuffNode>, index: int, target: int) -> bool {
    exists|path: Seq<bool>| #[trigger] leads_to(nodes, index, path, target)
}

/// Some path leads from `index` to the leaf of `symbol`.
pub open spec fn reaches(nodes: Seq<HuffNode>, index: int, symbol: int) -> bool {
    path_exists(nodes, index, -(symbol + 1))
}

/// A path that does not start at the root is the same path once the root has
/// been copied to place 0.
proof fn lemma_leads_to_reroot(
    nodes: Seq<HuffNode>,
    heights: Seq<nat>,
    floor: int,
    root: HuffNode,
    start: int,
    path: Seq<bool>,
    target: int,
)
    requires
        forall|j: int| 1 <= j < nodes.len() ==> #[trigger] node_ok(nodes, heights, j, floor),
        start != 0,
        leads_to(nodes, start, path, target),
    ensures
        leads_to(nodes.update(0, root), start, path, target),
    decreases path.len(),
{
    if path.len() > 0 {
        assert(node_ok(nodes, heights, start, floor));
        lemma_leads_to_reroot(
            nodes,
            heights,
            floor,
            root,
            child(nodes, start, path[0]),
            path.drop_first(),
            target,
        );
    }
}

/// The tree is well formed, at most 21 high, and its root reaches every leaf.
pub proof fn lemma_tree() -> (heights: Seq<nat>)
    ensures
        tree_ok(tree_nodes(), heights),
        forall|s: int| 0 <= s < 256 ==> reaches(tree_nodes(), 0, s),
{
    let w = lemma_after(255);
    let f = Forest::after(255);
    let root = wrap_index(f.wraps[0]);
    assert(valid_wrap(f.wraps[0], 256));
    assert(root >= 1) by {
        assert(w.slots[0] == 0 && w.slots[1] == 0);
        assert(leads_to(f.nodes, root, w.paths[0], -1));
        assert(leads_to(f.nodes, root, w.paths[1], -2));
    }
    assert(node_ok(f.nodes, w.heights, root, w.floor));
    assert(w.heights[root] <= 21) by {
        lemma_pops_range(f, w, 0);
        lemma_fib_24();
        if w.heights[root] + 2 >= 24 {
            lemma_fib_monotonic(24, w.heights[root] + 2);
        }
    }
    let tree = tree_nodes();
    let heights = w.heights.update(0, w.heights[root]);
    assert forall|j: int| 0 <= j < 256 implies {
        let node = #[trigger] tree[j];
        let h0 = height_of(heights, node.index0 as int);
        let h1 = height_of(heights, node.index1 as int);
        &&& valid_child(node.index0 as int, if j == 0 { 256 } else { j })
        &&& valid_child(node.index1 as int, if j == 0 { 256 } else { j })
        &&& heights[j] == 1 + (if h0 >= h1 { h0 } else { h1 })
    } by {
        if j == 0 {
            assert(node_ok(f.nodes, w.heights, root, w.floor));
        } else {
            assert(node_ok(f.nodes, w.heights, j, w.floor));
        }
    }
    assert forall|s: int| 0 <= s < 256 implies reaches(tree, 0, s) by {
        assert(w.slots[s] == 0);
        let path = w.paths[s];
        assert(leads_to(f.nodes, root, path, -(s + 1)));
        assert(path.len() > 0);
        lemma_leads_to_reroot(
            f.nodes,
            w.heights,
            w.floor,
            f.nodes[root],
            child(f.nodes, root, path[0]),
            path.drop_first(),
            -(s + 1),
        );
        assert(leads_to(tree, 0, path, -(s + 1)));
    }
    heights
}

/// The last tree of the forest is an interior node.
pub proof fn lemma_root()
    ensures
        1 <= wrap_index(Forest::after(255).wraps[0]) < 256,
        Forest::after(255).nodes.len() == 256,
        Forest::after(255).wraps.len() == 1,
{
    let w = lemma_after(255);
    let f = Forest::after(255);
    let root = wrap_index(f.wraps[0]);
    assert(valid_wrap(f.wraps[0], 256));
    assert(w.slots[0] == 0 && w.slots[1] == 0);
    assert(leads_to(f.nodes, root, w.paths[0], -1));
    assert(leads_to(f.nodes, root, w.paths[1], -2));
}

/// From an interior node a leaf is reached through one of the two children.
proof fn lemma_reaches_split(nodes: Seq<HuffNode>, index: int, symbol: int)
    requires
        0 <= index < nodes.len(),
        0 <= symbol,
    ensures
        reaches(nodes, index, symbol) <==> (reaches(nodes, nodes[index].index0 as int, symbol)
            || reaches(nodes, nodes[index].index1 as int, symbol)),
{
    let target = -(symbol + 1);
    let c0 = nodes[index].index0 as int;
    let c1 = nodes[index].index1 as int;
    if reaches(nodes, index, symbol) {
        let path = choose|path: Seq<bool>| #[trigger] leads_to(nodes, index, path, target);
        assert(path.len() > 0);
        assert(leads_to(nodes, child(nodes, index, path[0]), path.drop_first(), target));
    }
    if reaches(nodes, c0, symbol) {
        let path = choose|path: Seq<bool>| #[trigger] leads_to(nodes, c0, path, target);
        crate::forest::lemma_leads_to_step(nodes, index, false, path, target);
    }
    if reaches(nodes, c1, symbol) {
        let path = choose|path: Seq<bool>| #[trigger] leads_to(nodes, c1, path, target);
        crate::forest::lemma_leads_to_step(nodes, index, true, path, target);
    }
}

/// A leaf is reached from itself only.
proof fn lemma_reaches_leaf(nodes: Seq<HuffNode>, index: int, symbol: int)
    requires
        index < 0,
    ensures
        reaches(nodes, index, symbol) <==> index == -(symbol + 1),
{
    let target = -(symbol + 1);
    if reaches(nodes, index, symbol) {
        let path = choose|path: Seq<bool>| #[trigger] leads_to(nodes, index, path, target);
        assert(path.len() == 0);
    }
    if index == target {
        assert(leads_to(nodes, index, Seq::<bool>::empty(), target));
    }
}

/// The leaves stand for their bytes and carry their weights.
pub open spec fn labelled(leaves: Seq<HuffLeaf>) -> bool {
    &&& leaves.len() == 256
    &&& forall|s: int|
        0 <= s < 256 ==> (#[trigger] leaves[s]).symbol == s && leaves[s].pop == leaf_pop(s)
}

/// The walk under `index` gives every leaf that it reaches the path to that
/// leaf as its code, and leaves the others as they were.
pub proof fn lemma_assign(
    nodes: Seq<HuffNode>,
    heights: Seq<nat>,
    leaves: Seq<HuffLeaf>,
    index: int,
    depth: nat,
    code: u32,
    fuel: nat,
)
    requires
        tree_ok(nodes, heights),
        labelled(leaves),
        valid_child(index, 256) || index == 0,
        fuel >= height_of(heights, index),
        depth + height_of(heights, index) <= 21,
        index == 0 ==> depth == 0,
        index != 0 ==> depth >= 1,
        code >> (depth as u32) == 0,
        leads_to(nodes, 0, int_bits(code as nat, depth), index),
    ensures
        labelled(assign(nodes, leaves, index, depth, code, fuel)),
        forall|s: int|
            0 <= s < 256 ==> (if reaches(nodes, index, s) {
                coded(nodes, #[trigger] assign(nodes, leaves, index, depth, code, fuel)[s], s)
            } else {
                assign(nodes, leaves, index, depth, code, fuel)[s] == leaves[s]
            }),
    decreases fuel,
{
    let out = assign(nodes, leaves, index, depth, code, fuel);
    if index < 0 {
        assert forall|s: int| 0 <= s < 256 implies (if reaches(nodes, index, s) {
            coded(nodes, #[trigger] out[s], s)
        } else {
            out[s] == leaves[s]
        }) by {
            lemma_reaches_leaf(nodes, index, s);
        }
    } else {
        let node = nodes[index];
        assert(fuel >= 1);
        let c0 = node.index0 as int;
        let c1 = node.index1 as int;
        let code1 = code | (1u32 << (depth as u32));
        lemma_int_bits_push(code, depth, false);
        lemma_int_bits_push(code, depth, true);
        lemma_int_bits_len(code as nat, depth);
        let prefix = int_bits(code as nat, depth);
        assert(leads_to(nodes, index, seq![false], c0)) by {
            reveal_with_fuel(leads_to, 2);
            assert(seq![false].drop_first() =~= Seq::<bool>::empty());
        }
        assert(leads_to(nodes, index, seq![true], c1)) by {
            reveal_with_fuel(leads_to, 2);
            assert(seq![true].drop_first() =~= Seq::<bool>::empty());
        }
        crate::forest::lemma_leads_to_join(nodes, 0, prefix, index, seq![false], c0);
        crate::forest::lemma_leads_to_join(nodes, 0, prefix, index, seq![true], c1);
        assert(prefix + seq![false] =~= prefix.push(false));
        assert(prefix + seq![true] =~= prefix.push(true));
        let left = assign(nodes, leaves, c0, depth + 1, code, (fuel - 1) as nat);
        lemma_assign(nodes, heights, leaves, c0, depth + 1, code, (fuel - 1) as nat);
        lemma_assign(nodes, heights, left, c1, depth + 1, code1, (fuel - 1) as nat);
        assert forall|s: int| 0 <= s < 256 implies (if reaches(nodes, index, s) {
            coded(nodes, #[trigger] out[s], s)
        } else {
            out[s] == leaves[s]
        }) by {
            lemma_reaches_split(nodes, index, s);
            // names the leaf between the two walks, for what is known of it
            assert(left[s].symbol == s);
        }
    }
}

/// What holds of the tables: the tree is well formed and every byte's code is
/// the path to its leaf.
pub open spec fn tables_ok(tables: HuffTables) -> bool {
    &&& tables.nodes.len() == 256
    &&& tables.leaves.len() == 256
    &&& forall|j: int|
        0 <= j < 256 ==> {
            let node = #[trigger] tables.nodes[j];
            &&& valid_child(node.index0 as int, 256)
            &&& valid_child(node.index1 as int, 256)
        }
    &&& forall|s: int| 0 <= s < 256 ==> coded(tables.nodes, #[trigger] tables.leaves[s], s)
}

/// The tables that the frequency table gives are as they should be.
pub proof fn lemma_canonical()
    ensures
        tables_ok(canonical()),
{
    let heights = lemma_tree();
    let nodes = tree_nodes();
    assert(int_bits(0, 0) =~= Seq::<bool>::empty());
    assert(0u32 >> 0u32 == 0u32) by (bit_vector);
    lemma_assign(nodes, heights, blank_leaves(), 0, 0, 0, 256);
    let tables = canonical();
    assert forall|j: int| 0 <= j < 256 implies {
        let node = #[trigger] tables.nodes[j];
        &&& valid_child(node.index0 as int, 256)
        &&& valid_child(node.index1 as int, 256)
    } by {
        // names the node, for what is known of its children
        assert(nodes[j].index0 != 0);
    }
}

} // verus!

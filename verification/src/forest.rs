//! How the code tree grows out of the frequency table, and what holds of it.
//!
//! The tree is built by merging, 255 times over, the two lightest of a list of
//! trees. Everything here is specification and proof: the executable build
//! follows the same steps and is shown to arrive at the same tables.

use vstd::prelude::*;
use crate::huffman::{CHAR_FREQS, HuffNode, HuffWrap};

verus! {

/// The weight of a leaf: one more than its byte's frequency, so that every
/// byte has a code.
pub open spec fn leaf_pop(symbol: int) -> int {
    CHAR_FREQS[symbol] + 1
}

/// The index by which a node names the tree under a handle.
pub open spec fn wrap_index(wrap: HuffWrap) -> int {
    match wrap {
        HuffWrap::Leaf(i) => -(i + 1),
        HuffWrap::Node(j) => j as int,
        HuffWrap::Unset => 0,
    }
}

/// The weight of the tree that `index` names.
pub open spec fn entry_pop(nodes: Seq<HuffNode>, index: int) -> int {
    if index < 0 {
        leaf_pop(-(index + 1))
    } else {
        nodes[index].pop as int
    }
}

/// The child of node `index` on the side that `bit` picks.
pub open spec fn child(nodes: Seq<HuffNode>, index: int, bit: bool) -> int {
    if bit {
        nodes[index].index1 as int
    } else {
        nodes[index].index0 as int
    }
}

/// Following `path` from `start`, through interior nodes only, ends at `target`.
pub open spec fn leads_to(nodes: Seq<HuffNode>, start: int, path: Seq<bool>, target: int) -> bool
    decreases path.len(),
{
    if path.len() == 0 {
        start == target
    } else {
        0 <= start < nodes.len() && leads_to(
            nodes,
            child(nodes, start, path[0]),
            path.drop_first(),
            target,
        )
    }
}

/// The list of trees still to be merged, and the interior nodes made so far.
pub struct Forest {
    pub wraps: Seq<HuffWrap>,
    pub nodes: Seq<HuffNode>,
}

/// The two lightest trees of a list: their weights and their places.
pub struct Pick {
    pub min1: int,
    pub min2: int,
    pub index1: int,
    pub index2: int,
}

/// The two lightest among the first `n` weights. Among equal weights the one
/// that comes first in the list is the lighter.
pub open spec fn pick(pops: Seq<int>, n: int) -> Pick
    decreases n,
{
    if n <= 0 {
        Pick { min1: 0xffff_fffe, min2: 0xffff_ffff, index1: -1, index2: -1 }
    } else {
        let before = pick(pops, n - 1);
        let pop = pops[n - 1];
        if pop < before.min1 {
            Pick { min1: pop, index1: n - 1, min2: before.min1, index2: before.index1 }
        } else if pop < before.min2 {
            Pick { min2: pop, index2: n - 1, ..before }
        } else {
            before
        }
    }
}

/// The sum of a list of weights.
pub open spec fn total(pops: Seq<int>) -> int
    decreases pops.len(),
{
    if pops.len() == 0 {
        0
    } else {
        total(pops.drop_last()) + pops.last()
    }
}

impl Forest {
    /// The weights of the trees still to be merged.
    pub open spec fn pops(self) -> Seq<int> {
        Seq::new(self.wraps.len(), |i: int| entry_pop(self.nodes, wrap_index(self.wraps[i])))
    }

    /// The forest before the first merge: every leaf a tree of its own, and
    /// the place of the root kept free.
    pub open spec fn initial() -> Forest {
        Forest {
            wraps: Seq::new(256, |i: int| HuffWrap::Leaf(i as i16)),
            nodes: seq![HuffNode { pop: 0, index0: 0, index1: 0 }],
        }
    }

    /// One merge: the two lightest trees become the children of a new node,
    /// the lighter first. The node takes the earlier of their two places in
    /// the list, and the last tree of the list moves into the other.
    pub open spec fn merge_step(self) -> Forest {
        let picked = pick(self.pops(), self.wraps.len() as int);
        let node = HuffNode {
            pop: (picked.min1 + picked.min2) as u32,
            index0: wrap_index(self.wraps[picked.index1]) as i16,
            index1: wrap_index(self.wraps[picked.index2]) as i16,
        };
        let merge = if picked.index1 > picked.index2 {
            picked.index2
        } else {
            picked.index1
        };
        let nuke = if picked.index1 > picked.index2 {
            picked.index1
        } else {
            picked.index2
        };
        Forest {
            wraps: self.wraps.update(merge, HuffWrap::Node(self.nodes.len() as i16)).update(
                nuke,
                self.wraps.last(),
            ).drop_last(),
            nodes: self.nodes.push(node),
        }
    }

    /// The forest after `steps` merges.
    pub open spec fn after(steps: nat) -> Forest
        decreases steps,
    {
        if steps == 0 {
            Forest::initial()
        } else {
            Forest::after((steps - 1) as nat).merge_step()
        }
    }
}

/// The Fibonacci numbers.
pub open spec fn fib(n: nat) -> nat
    decreases n,
{
    if n < 2 {
        n
    } else {
        fib((n - 1) as nat) + fib((n - 2) as nat)
    }
}

pub proof fn lemma_fib_monotonic(a: nat, b: nat)
    requires
        a <= b,
    ensures
        fib(a) <= fib(b),
    decreases b,
{
    if a < b {
        lemma_fib_monotonic(a, (b - 1) as nat);
        if b >= 2 {
            assert(fib(b) == fib((b - 1) as nat) + fib((b - 2) as nat));
        }
    }
}

pub proof fn lemma_fib_24()
    ensures
        fib(24) == 46368,
{
    reveal_with_fuel(fib, 3);
    assert(fib(2) == 1);
    assert(fib(3) == 2);
    assert(fib(4) == 3);
    assert(fib(5) == 5);
    assert(fib(6) == 8);
    assert(fib(7) == 13);
    assert(fib(8) == 21);
    assert(fib(9) == 34);
    assert(fib(10) == 55);
    assert(fib(11) == 89);
    assert(fib(12) == 144);
    assert(fib(13) == 233);
    assert(fib(14) == 377);
    assert(fib(15) == 610);
    assert(fib(16) == 987);
    assert(fib(17) == 1597);
    assert(fib(18) == 2584);
    assert(fib(19) == 4181);
    assert(fib(20) == 6765);
    assert(fib(21) == 10946);
    assert(fib(22) == 17711);
    assert(fib(23) == 28657);
}

/// The two lightest of at least two weights are two different places of the
/// list, and no other weight is below the second.
pub proof fn lemma_pick(pops: Seq<int>, n: int)
    requires
        0 <= n <= pops.len(),
        forall|j: int| 0 <= j < n ==> pops[j] < 0xffff_fffe,
    ensures
        ({
            let p = pick(pops, n);
            &&& p.min1 <= p.min2
            &&& -1 <= p.index1 < n
            &&& -1 <= p.index2 < n
            &&& n == 0 ==> p.index1 == -1 && p.min1 == 0xffff_fffe
            &&& n >= 1 ==> p.index1 >= 0 && p.min1 == pops[p.index1]
            &&& n <= 1 ==> p.index2 == -1 && p.min2 >= 0xffff_fffe
            &&& n >= 2 ==> p.index2 >= 0 && p.min2 == pops[p.index2] && p.index2 != p.index1
            &&& forall|j: int| 0 <= j < n && j != p.index1 && j != p.index2 ==> pops[j] >= p.min2
        }),
    decreases n,
{
    if n > 0 {
        lemma_pick(pops, n - 1);
    }
}

pub proof fn lemma_total_update(pops: Seq<int>, i: int, v: int)
    requires
        0 <= i < pops.len(),
    ensures
        total(pops.update(i, v)) == total(pops) - pops[i] + v,
    decreases pops.len(),
{
    let updated = pops.update(i, v);
    if i == pops.len() - 1 {
        assert(updated.drop_last() =~= pops.drop_last());
    } else {
        lemma_total_update(pops.drop_last(), i, v);
        assert(updated.drop_last() =~= pops.drop_last().update(i, v));
    }
}

pub proof fn lemma_total_bounds(pops: Seq<int>, i: int)
    requires
        0 <= i < pops.len(),
        forall|j: int| 0 <= j < pops.len() ==> pops[j] >= 0,
    ensures
        pops[i] <= total(pops),
        0 <= total(pops),
    decreases pops.len(),
{
    reveal_with_fuel(total, 2);
    if pops.len() > 1 {
        if i < pops.len() - 1 {
            lemma_total_bounds(pops.drop_last(), i);
        } else {
            lemma_total_bounds(pops.drop_last(), 0);
        }
        assert(total(pops) == total(pops.drop_last()) + pops.last());
    } else {
        assert(pops.drop_last().len() == 0);
        assert(total(pops) == pops[0]);
    }
}

/// A path in a forest is a path in every forest grown out of it.
pub proof fn lemma_leads_to_push(
    nodes: Seq<HuffNode>,
    node: HuffNode,
    start: int,
    path: Seq<bool>,
    target: int,
)
    requires
        leads_to(nodes, start, path, target),
    ensures
        leads_to(nodes.push(node), start, path, target),
    decreases path.len(),
{
    if path.len() > 0 {
        lemma_leads_to_push(
            nodes,
            node,
            child(nodes, start, path[0]),
            path.drop_first(),
            target,
        );
    }
}

/// A path from a child is, with one more step in front, a path from its parent.
pub proof fn lemma_leads_to_step(
    nodes: Seq<HuffNode>,
    start: int,
    bit: bool,
    path: Seq<bool>,
    target: int,
)
    requires
        0 <= start < nodes.len(),
        leads_to(nodes, child(nodes, start, bit), path, target),
    ensures
        leads_to(nodes, start, seq![bit] + path, target),
{
    assert((seq![bit] + path).drop_first() =~= path);
}

/// Two paths laid end to end.
pub proof fn lemma_leads_to_join(
    nodes: Seq<HuffNode>,
    start: int,
    first: Seq<bool>,
    middle: int,
    second: Seq<bool>,
    target: int,
)
    requires
        leads_to(nodes, start, first, middle),
        leads_to(nodes, middle, second, target),
    ensures
        leads_to(nodes, start, first + second, target),
    decreases first.len(),
{
    if first.len() == 0 {
        assert(first + second =~= second);
    } else {
        lemma_leads_to_join(
            nodes,
            child(nodes, start, first[0]),
            first.drop_first(),
            middle,
            second,
            target,
        );
        assert((first + second).drop_first() =~= first.drop_first() + second);
    }
}

/// The sum of the first `n` leaf weights.
pub open spec fn leaf_pop_sum(n: int) -> int
    decreases n,
{
    if n <= 0 {
        0
    } else {
        leaf_pop_sum(n - 1) + leaf_pop(n - 1)
    }
}

proof fn lemma_leaf_pop_sum_low()
    ensures
        leaf_pop_sum(128) == 32654,
{
    reveal_with_fuel(leaf_pop_sum, 33);
    assert(leaf_pop_sum(32) == 382);
    assert(leaf_pop_sum(64) == 5789);
    assert(leaf_pop_sum(96) == 8895);
}

/// All leaves together weigh 32782.
pub proof fn lemma_leaf_pop_sum()
    ensures
        leaf_pop_sum(256) == 32782,
{
    lemma_leaf_pop_sum_low();
    reveal_with_fuel(leaf_pop_sum, 33);
    assert(leaf_pop_sum(160) == 32686);
    assert(leaf_pop_sum(192) == 32718);
    assert(leaf_pop_sum(224) == 32750);
}

/// What the proof keeps track of beside the forest itself.
pub struct Witness {
    /// The height of each interior node.
    pub heights: Seq<nat>,
    /// For each leaf, the place in the list of the tree that holds it.
    pub slots: Seq<int>,
    /// For each leaf, the path to it from the root of the tree that holds it.
    pub paths: Seq<Seq<bool>>,
    /// No tree in the list is lighter than this.
    pub floor: int,
}

/// The height of the tree that `index` names.
pub open spec fn height_of(heights: Seq<nat>, index: int) -> nat {
    if index < 0 {
        0
    } else {
        heights[index]
    }
}

/// `index` names a leaf, or an interior node made before node `parent`.
pub open spec fn valid_child(index: int, parent: int) -> bool {
    -256 <= index < 0 || 1 <= index < parent
}

/// The handle names a leaf, or one of the first `nodes` interior nodes but the root's place.
pub open spec fn valid_wrap(wrap: HuffWrap, nodes: int) -> bool {
    match wrap {
        HuffWrap::Leaf(i) => 0 <= i < 256,
        HuffWrap::Node(j) => 1 <= j < nodes,
        HuffWrap::Unset => false,
    }
}

/// Node `j` has two children made before it, is one higher than the higher
/// of them and as heavy as both together; neither child is heavier than
/// `floor`; and the node weighs at least the Fibonacci number of its height
/// plus two.
pub open spec fn node_ok(nodes: Seq<HuffNode>, heights: Seq<nat>, j: int, floor: int) -> bool {
    let node = nodes[j];
    let h0 = height_of(heights, node.index0 as int);
    let h1 = height_of(heights, node.index1 as int);
    &&& valid_child(node.index0 as int, j)
    &&& valid_child(node.index1 as int, j)
    &&& heights[j] == 1 + (if h0 >= h1 { h0 } else { h1 })
    &&& node.pop == entry_pop(nodes, node.index0 as int) + entry_pop(nodes, node.index1 as int)
    &&& entry_pop(nodes, node.index0 as int) <= floor
    &&& entry_pop(nodes, node.index1 as int) <= floor
    &&& node.pop >= fib(heights[j] + 2)
}

/// What holds of the forest after every merge.
pub open spec fn grown(f: Forest, w: Witness) -> bool {
    &&& 1 <= f.wraps.len() <= 256
    &&& f.nodes.len() + f.wraps.len() == 257
    &&& w.heights.len() == f.nodes.len()
    &&& w.slots.len() == 256
    &&& w.paths.len() == 256
    &&& forall|i: int|
        0 <= i < f.wraps.len() ==> valid_wrap(#[trigger] f.wraps[i], f.nodes.len() as int)
    &&& forall|i: int| 0 <= i < f.wraps.len() ==> #[trigger] f.pops()[i] >= w.floor
    &&& forall|j: int| 1 <= j < f.nodes.len() ==> #[trigger] node_ok(f.nodes, w.heights, j, w.floor)
    &&& total(f.pops()) == 32782
    &&& forall|s: int|
        0 <= s < 256 ==> 0 <= #[trigger] w.slots[s] < f.wraps.len() && leads_to(
            f.nodes,
            wrap_index(f.wraps[w.slots[s]]),
            w.paths[s],
            -(s + 1),
        )
}

proof fn lemma_initial_total(n: int)
    requires
        0 <= n <= 256,
    ensures
        total(Forest::initial().pops().take(n)) == leaf_pop_sum(n),
    decreases n,
{
    let pops = Forest::initial().pops();
    if n > 0 {
        lemma_initial_total(n - 1);
        assert(pops.take(n).drop_last() =~= pops.take(n - 1));
    }
}

/// The forest before the first merge is as it should be.
pub proof fn lemma_initial() -> (w: Witness)
    ensures
        grown(Forest::initial(), w),
{
    let f = Forest::initial();
    let w = Witness {
        heights: seq![0nat],
        slots: Seq::new(256, |s: int| s),
        paths: Seq::new(256, |s: int| Seq::<bool>::empty()),
        floor: 0,
    };
    lemma_initial_total(256);
    lemma_leaf_pop_sum();
    assert(f.pops().take(256) =~= f.pops());
    w
}

/// The weight of every tree in the list is at least one and at most 32782.
pub proof fn lemma_pops_range(f: Forest, w: Witness, i: int)
    requires
        grown(f, w),
        0 <= i < f.wraps.len(),
    ensures
        1 <= f.pops()[i] <= 32782,
        f.pops()[i] >= fib(height_of(w.heights, wrap_index(f.wraps[i])) + 2),
{
    reveal_with_fuel(fib, 3);
    assert forall|k: int| 0 <= k < f.wraps.len() implies f.pops()[k] >= 1 by {
        assert(valid_wrap(f.wraps[k], f.nodes.len() as int));
        match f.wraps[k] {
            HuffWrap::Node(j) => {
                assert(node_ok(f.nodes, w.heights, j as int, w.floor));
                lemma_fib_monotonic(2, w.heights[j as int] + 2);
            },
            _ => {},
        }
    }
    lemma_total_bounds(f.pops(), i);
    assert(valid_wrap(f.wraps[i], f.nodes.len() as int));
    match f.wraps[i] {
        HuffWrap::Node(j) => {
            assert(node_ok(f.nodes, w.heights, j as int, w.floor));
        },
        _ => {},
    }
}

/// A tree of height at least one has a child one lower, which is no lighter
/// than the Fibonacci number that its height asks for.
proof fn lemma_tall_child(f: Forest, w: Witness, i: int)
    requires
        grown(f, w),
        0 <= i < f.wraps.len(),
        height_of(w.heights, wrap_index(f.wraps[i])) >= 1,
    ensures
        w.floor >= fib(height_of(w.heights, wrap_index(f.wraps[i])) + 1),
{
    reveal_with_fuel(fib, 3);
    assert(valid_wrap(f.wraps[i], f.nodes.len() as int));
    match f.wraps[i] {
        HuffWrap::Node(j) => {
            let j = j as int;
            assert(node_ok(f.nodes, w.heights, j, w.floor));
            let node = f.nodes[j];
            let h0 = height_of(w.heights, node.index0 as int);
            let h1 = height_of(w.heights, node.index1 as int);
            let tall = if h0 >= h1 { node.index0 as int } else { node.index1 as int };
            if tall >= 0 {
                assert(node_ok(f.nodes, w.heights, tall, w.floor));
            }
        },
        _ => {},
    }
}

/// One merge keeps the forest as it should be.
pub proof fn lemma_merge(f: Forest, w: Witness) -> (w2: Witness)
    requires
        grown(f, w),
        f.wraps.len() >= 2,
    ensures
        grown(f.merge_step(), w2),
        pick(f.pops(), f.wraps.len() as int).index1 != pick(f.pops(), f.wraps.len() as int).index2,
        0 <= pick(f.pops(), f.wraps.len() as int).index1 < f.wraps.len(),
        0 <= pick(f.pops(), f.wraps.len() as int).index2 < f.wraps.len(),
        pick(f.pops(), f.wraps.len() as int).min1 + pick(f.pops(), f.wraps.len() as int).min2
            <= 32782,
{
    let pops = f.pops();
    let n = f.wraps.len() as int;
    let last = n - 1;
    assert forall|k: int| 0 <= k < n implies 1 <= #[trigger] pops[k] <= 32782 by {
        lemma_pops_range(f, w, k);
    }
    lemma_pick(pops, n);
    let p = pick(pops, n);
    let i1 = p.index1;
    let i2 = p.index2;
    let g = f.merge_step();
    let merge = if i1 > i2 { i2 } else { i1 };
    let nuke = if i1 > i2 { i1 } else { i2 };
    let new_index = f.nodes.len() as int;
    let c0 = wrap_index(f.wraps[i1]);
    let c1 = wrap_index(f.wraps[i2]);
    assert(valid_wrap(f.wraps[i1], new_index));
    assert(valid_wrap(f.wraps[i2], new_index));
    assert(valid_child(c0, new_index));
    assert(valid_child(c1, new_index));
    let node = g.nodes[new_index];
    assert(node.index0 as int == c0);
    assert(node.index1 as int == c1);
    // the sum of the weights
    let changed = pops.update(merge, p.min1 + p.min2);
    let moved = changed.update(nuke, changed[last]);
    lemma_total_update(pops, merge, p.min1 + p.min2);
    lemma_total_update(changed, nuke, changed[last]);
    assert(total(moved.drop_last()) == total(moved) - moved[last]);
    assert(p.min1 + p.min2 <= 32782) by {
        lemma_total_bounds(moved.drop_last(), merge);
    }
    assert(node.pop == p.min1 + p.min2);
    assert(g.pops() =~= moved.drop_last());
    // heights, and the weight that a height asks for
    let h0 = height_of(w.heights, c0);
    let h1 = height_of(w.heights, c1);
    let height: nat = 1 + (if h0 >= h1 { h0 } else { h1 });
    lemma_pops_range(f, w, i1);
    lemma_pops_range(f, w, i2);
    assert(node.pop >= fib(height + 2)) by {
        reveal_with_fuel(fib, 3);
        if h0 >= h1 {
            if h0 >= 1 {
                lemma_tall_child(f, w, i1);
            }
            assert(fib(h0 + 3) == fib(h0 + 2) + fib(h0 + 1));
        } else {
            lemma_tall_child(f, w, i2);
            assert(fib(h1 + 3) == fib(h1 + 2) + fib(h1 + 1));
        }
    }
    // where each leaf is now
    let slots = Seq::new(
        256,
        |s: int|
            if w.slots[s] == i1 || w.slots[s] == i2 {
                merge
            } else if w.slots[s] == last {
                nuke
            } else {
                w.slots[s]
            },
    );
    let paths = Seq::new(
        256,
        |s: int|
            if w.slots[s] == i1 {
                seq![false] + w.paths[s]
            } else if w.slots[s] == i2 {
                seq![true] + w.paths[s]
            } else {
                w.paths[s]
            },
    );
    let w2 = Witness { heights: w.heights.push(height), slots, paths, floor: p.min2 };
    assert forall|i: int| 0 <= i < g.wraps.len() implies valid_wrap(
        #[trigger] g.wraps[i],
        g.nodes.len() as int,
    ) by {
        if i == merge {
        } else if i == nuke {
            assert(valid_wrap(f.wraps[last], new_index));
        } else {
            assert(valid_wrap(f.wraps[i], new_index));
        }
    }
    assert forall|i: int| 0 <= i < g.wraps.len() implies #[trigger] g.pops()[i] >= w2.floor by {
        if i == merge {
        } else if i == nuke {
            assert(pops[last] >= p.min2);
        } else {
            assert(pops[i] >= p.min2);
        }
    }
    assert(p.min2 >= w.floor) by {
        assert(pops[i2] >= w.floor);
    }
    assert forall|j: int| 1 <= j < g.nodes.len() implies #[trigger] node_ok(
        g.nodes,
        w2.heights,
        j,
        w2.floor,
    ) by {
        if j < new_index {
            assert(node_ok(f.nodes, w.heights, j, w.floor));
        } else {
            assert(entry_pop(g.nodes, c0) == p.min1);
            assert(entry_pop(g.nodes, c1) == p.min2);
        }
    }
    assert forall|s: int| 0 <= s < 256 implies 0 <= #[trigger] w2.slots[s] < g.wraps.len()
        && leads_to(g.nodes, wrap_index(g.wraps[w2.slots[s]]), w2.paths[s], -(s + 1)) by {
        let old_slot = w.slots[s];
        assert(0 <= old_slot < n);
        lemma_leads_to_push(f.nodes, node, wrap_index(f.wraps[old_slot]), w.paths[s], -(s + 1));
        if old_slot == i1 {
            lemma_leads_to_step(g.nodes, new_index, false, w.paths[s], -(s + 1));
        } else if old_slot == i2 {
            lemma_leads_to_step(g.nodes, new_index, true, w.paths[s], -(s + 1));
        } else {
        }
    }
    w2
}

/// After any number of merges up to 255 the forest is as it should be.
pub proof fn lemma_after(steps: nat) -> (w: Witness)
    requires
        steps <= 255,
    ensures
        grown(Forest::after(steps), w),
        Forest::after(steps).wraps.len() == 256 - steps,
    decreases steps,
{
    if steps == 0 {
        lemma_initial()
    } else {
        let before = lemma_after((steps - 1) as nat);
        lemma_merge(Forest::after((steps - 1) as nat), before)
    }
}

} // verus!

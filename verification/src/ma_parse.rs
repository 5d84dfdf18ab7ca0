use vstd::prelude::*;

use vstd::multiset::Multiset;

use vstd::arithmetic::power2::pow2;

use std::collections::VecDeque;

use crate::error::ModularError;
use crate::ma::{
    flat_all_leaves, flat_leaf, segment_ok, lemma_layout_leaves, lemma_layout_len, lemma_layout_lookup,
    lemma_layout_segment_ok, lemma_segment_wf, FlatMaTree, FlatMaTreeNode, MaTreeLeaf, MaTreeNode,
};
use crate::predictor::{predictor_of_id, spec_unpack_signed, unpack_signed, zigzag, Predictor};

verus! {

/// The most nodes an MA tree may have.
pub const MAX_TREE_NODES: usize = 0x400_0000;

/// A node as it comes out of the bitstream, before the tree is assembled.
#[derive(Debug, Clone, Copy, PartialEq, Eq, Structural)]
pub enum FoldingNode {
    Decision(u32, i32),
    Leaf(MaTreeLeaf),
}

/// Which symbol of a node the parser reads next.
#[derive(Debug, Clone, Copy, PartialEq, Eq, Structural)]
pub enum ParseStage {
    /// The property of a new node, plus one; zero starts a leaf.
    Property,
    /// The threshold of a decision node, as a packed signed integer.
    Value { property: u32 },
    /// The predictor number of a leaf.
    PredictorId,
    /// The offset of a leaf, as a packed signed integer.
    Offset { predictor: Predictor },
    /// The base-2 logarithm of the multiplier's power-of-two factor.
    MulLog { predictor: Predictor, offset: i32 },
    /// The multiplier's odd factor, minus one.
    MulBits { predictor: Predictor, offset: i32, mul_log: u32 },
}

/// The state of an MA tree parse: the nodes read so far in order, how many
/// nodes are still owed, how many leaves (contexts) were made, and what
/// comes next.
pub struct ParserModel {
    pub nodes: Seq<FoldingNode>,
    pub nodes_left: int,
    pub ctx: int,
    pub stage: ParseStage,
}

/// The state before the first symbol: one node (the root) is owed.
pub open spec fn initial_model() -> ParserModel {
    ParserModel { nodes: Seq::empty(), nodes_left: 1, ctx: 0, stage: ParseStage::Property }
}

/// A parse is complete when no node is owed and no node is half read.
pub open spec fn model_complete(m: ParserModel) -> bool {
    m.stage == ParseStage::Property && m.nodes_left == 0
}

/// A parse that is about to read a new node but already has the most
/// nodes a tree may have.
pub open spec fn model_too_large(m: ParserModel) -> bool {
    m.stage == ParseStage::Property && m.nodes.len() >= MAX_TREE_NODES
}

/// The entropy-decoder context from which each symbol is read.
pub open spec fn stage_context(stage: ParseStage) -> u32 {
    match stage {
        ParseStage::Property => 1,
        ParseStage::Value { .. } => 0,
        ParseStage::PredictorId => 2,
        ParseStage::Offset { .. } => 3,
        ParseStage::MulLog { .. } => 4,
        ParseStage::MulBits { .. } => 5,
    }
}

/// The largest odd-factor symbol allowed with a given power-of-two factor:
/// the multiplier must stay below 2^31.
pub open spec fn mul_bits_limit(mul_log: u32) -> u32 {
    ((1u32 << ((31 - mul_log) as u32)) - 2) as u32
}

/// The multiplier that a leaf's two multiplier symbols give.
pub open spec fn leaf_multiplier(mul_log: u32, mul_bits: u32) -> u32 {
    ((mul_bits + 1) as u32) << mul_log
}

/// What reading symbol `v` does to a parse that is neither complete nor
/// too large.
pub open spec fn model_step(m: ParserModel, v: u32) -> Result<ParserModel, ModularError> {
    match m.stage {
        ParseStage::Property => {
            if v > 0 {
                Ok(ParserModel {
                    nodes_left: m.nodes_left - 1,
                    stage: ParseStage::Value { property: (v - 1) as u32 },
                    ..m
                })
            } else {
                Ok(ParserModel { nodes_left: m.nodes_left - 1, stage: ParseStage::PredictorId, ..m })
            }
        },
        ParseStage::Value { property } => Ok(ParserModel {
            nodes: m.nodes.push(FoldingNode::Decision(property, spec_unpack_signed(v) as i32)),
            nodes_left: m.nodes_left + 2,
            stage: ParseStage::Property,
            ..m
        }),
        ParseStage::PredictorId => match predictor_of_id(v) {
            Some(predictor) => Ok(ParserModel { stage: ParseStage::Offset { predictor }, ..m }),
            None => Err(ModularError::InvalidPredictor(v)),
        },
        ParseStage::Offset { predictor } => Ok(ParserModel {
            stage: ParseStage::MulLog { predictor, offset: spec_unpack_signed(v) as i32 },
            ..m
        }),
        ParseStage::MulLog { predictor, offset } => {
            if v > 30 {
                Err(ModularError::InvalidMaTree)
            } else {
                Ok(ParserModel { stage: ParseStage::MulBits { predictor, offset, mul_log: v }, ..m })
            }
        },
        ParseStage::MulBits { predictor, offset, mul_log } => {
            if v > mul_bits_limit(mul_log) {
                Err(ModularError::InvalidMaTree)
            } else {
                Ok(ParserModel {
                    nodes: m.nodes.push(FoldingNode::Leaf(MaTreeLeaf {
                        ctx: m.ctx as u32,
                        predictor,
                        offset,
                        multiplier: leaf_multiplier(mul_log, v),
                    })),
                    ctx: m.ctx + 1,
                    stage: ParseStage::Property,
                    ..m
                })
            }
        },
    }
}

/// Parsing `syms` from position `i` on in state `m`: the complete state and
/// the position after the last symbol read, or the first error (running out
/// of symbols is one).
pub open spec fn spec_parse_from(syms: Seq<u32>, i: int, m: ParserModel) -> Result<(ParserModel, int), ModularError>
    decreases syms.len() - i,
{
    if model_complete(m) {
        Ok((m, i))
    } else if model_too_large(m) {
        Err(ModularError::InvalidMaTree)
    } else if 0 <= i < syms.len() {
        match model_step(m, syms[i]) {
            Ok(m2) => spec_parse_from(syms, i + 1, m2),
            Err(e) => Err(e),
        }
    } else {
        Err(ModularError::UnexpectedEof)
    }
}

/// The number of decision nodes in `s`.
pub open spec fn decisions(s: Seq<FoldingNode>) -> nat
    decreases s.len(),
{
    if s.len() == 0 {
        0
    } else {
        decisions(s.drop_last()) + (if s.last() is Decision { 1nat } else { 0nat })
    }
}

/// The number of leaves in `s`.
pub open spec fn leaves(s: Seq<FoldingNode>) -> int {
    s.len() - decisions(s)
}

/// How many nodes are still owed after reading the nodes `s`: each
/// decision owes two children, and each node read pays one.
pub open spec fn depth(s: Seq<FoldingNode>) -> int {
    1 + 2 * decisions(s) - s.len()
}

/// The work queue after assembling the nodes from position `k` on, last to
/// first: a leaf joins the back; a decision takes the two front trees as
/// its right and left child and joins the back.
pub open spec fn fold_queue(nodes: Seq<FoldingNode>, k: int) -> Seq<MaTreeNode>
    decreases nodes.len() - k,
{
    if 0 <= k < nodes.len() {
        let q = fold_queue(nodes, k + 1);
        match nodes[k] {
            FoldingNode::Leaf(leaf) => q.push(MaTreeNode::Leaf(leaf)),
            FoldingNode::Decision(property, value) => q.skip(2).push(
                MaTreeNode::Decision {
                    property,
                    value,
                    left: Box::new(q[1]),
                    right: Box::new(q[0]),
                },
            ),
        }
    } else {
        Seq::empty()
    }
}

/// The tree that a complete node sequence stands for.
pub open spec fn folded_tree(nodes: Seq<FoldingNode>) -> MaTreeNode {
    fold_queue(nodes, 0)[0]
}

/// What a well-formed parse keeps true of the nodes read so far.
pub open spec fn model_inv(m: ParserModel) -> bool {
    &&& m.nodes.len() <= MAX_TREE_NODES
    &&& m.stage != ParseStage::Property ==> m.nodes.len() < MAX_TREE_NODES
    &&& 0 <= m.nodes_left
    &&& (m.stage matches ParseStage::MulBits { mul_log, .. } ==> mul_log <= 30)
    &&& m.nodes_left == depth(m.nodes) - (if m.stage == ParseStage::Property { 0int } else { 1int })
    &&& forall|k: int| 0 <= k < m.nodes.len() ==> depth(#[trigger] m.nodes.take(k)) >= 1
    &&& 0 <= m.ctx <= m.nodes.len()
    &&& m.ctx == leaves(m.nodes)
    &&& forall|k: int|
        0 <= k < m.nodes.len() ==> match #[trigger] m.nodes[k] {
            FoldingNode::Leaf(leaf) => {
                &&& leaf.ctx < m.ctx
                &&& leaf.ctx == leaves(m.nodes.take(k))
                &&& leaf.multiplier <= i32::MAX
            },
            _ => true,
        }
}

/// The leaves that a parse with `ctx` contexts may make.
pub open spec fn leaf_ok(num_contexts: int) -> spec_fn(MaTreeLeaf) -> bool {
    |leaf: MaTreeLeaf| leaf.ctx < num_contexts && leaf.multiplier <= i32::MAX
}

proof fn lemma_decisions_push(s: Seq<FoldingNode>, x: FoldingNode)
    ensures
        decisions(s.push(x)) == decisions(s) + (if x is Decision { 1nat } else { 0nat }),
{
    assert(s.push(x).drop_last() =~= s);
}

proof fn lemma_take_push(s: Seq<FoldingNode>, x: FoldingNode)
    ensures
        forall|k: int| 0 <= k <= s.len() ==> #[trigger] s.push(x).take(k) == s.take(k),
        s.take(s.len() as int) == s,
{
    assert forall|k: int| 0 <= k <= s.len() implies #[trigger] s.push(x).take(k) == s.take(k) by {
        assert(s.push(x).take(k) =~= s.take(k));
    }
    assert(s.take(s.len() as int) =~= s);
}

/// Each symbol read keeps the parse well formed.
proof fn lemma_step_inv(m: ParserModel, v: u32)
    requires
        model_inv(m),
        !model_complete(m),
        !model_too_large(m),
    ensures
        model_step(m, v) matches Ok(m2) ==> model_inv(m2),
{
    match model_step(m, v) {
        Ok(m2) => {
            if m2.nodes.len() > m.nodes.len() {
                let x = m2.nodes.last();
                assert(m2.nodes == m.nodes.push(x));
                lemma_decisions_push(m.nodes, x);
                lemma_take_push(m.nodes, x);
                assert forall|k: int| 0 <= k < m2.nodes.len() implies depth(#[trigger] m2.nodes.take(k)) >= 1 by {
                    if k < m.nodes.len() {
                        assert(m2.nodes.take(k) == m.nodes.take(k));
                    } else {
                        assert(m2.nodes.take(k) == m.nodes);
                    }
                }
                if let ParseStage::MulBits { predictor, offset, mul_log } = m.stage {
                    assert(mul_log <= 30);
                    assert(v <= mul_bits_limit(mul_log));
                    assert(mul_log <= 30 && v <= ((1u32 << ((31 - mul_log) as u32)) - 2) as u32
                        ==> (((v + 1) as u32) << mul_log) <= 0x7fff_ffffu32) by (bit_vector);
                }
                lemma_decisions_le_len(m.nodes);
                assert forall|k: int| 0 <= k < m2.nodes.len() implies match #[trigger] m2.nodes[k] {
                    FoldingNode::Leaf(leaf) => {
                        &&& leaf.ctx < m2.ctx
                        &&& leaf.ctx == leaves(m2.nodes.take(k))
                        &&& leaf.multiplier <= i32::MAX
                    },
                    _ => true,
                } by {
                    if k < m.nodes.len() {
                        assert(m2.nodes[k] == m.nodes[k]);
                        assert(m2.nodes.take(k) == m.nodes.take(k));
                    } else {
                        assert(m2.nodes.take(k) == m.nodes);
                    }
                }
            } else {
                assert(m2.nodes == m.nodes);
            }
        },
        Err(_) => {},
    }
}


/// The total number of nodes of the trees in `q`.
pub open spec fn total_size(q: Seq<MaTreeNode>) -> nat
    decreases q.len(),
{
    if q.len() == 0 {
        0
    } else {
        q[0].size() + total_size(q.skip(1))
    }
}

proof fn lemma_total_size_push(q: Seq<MaTreeNode>, t: MaTreeNode)
    ensures
        total_size(q.push(t)) == total_size(q) + t.size(),
    decreases q.len(),
{
    if q.len() == 0 {
        assert(q.push(t).skip(1) =~= Seq::<MaTreeNode>::empty());
        assert(total_size(q.push(t).skip(1)) == 0);
    } else {
        assert(q.push(t).skip(1) =~= q.skip(1).push(t));
        lemma_total_size_push(q.skip(1), t);
    }
}

proof fn lemma_total_size_skip2(q: Seq<MaTreeNode>)
    requires
        q.len() >= 2,
    ensures
        total_size(q) == q[0].size() + q[1].size() + total_size(q.skip(2)),
{
    assert(q.skip(1).skip(1) =~= q.skip(2));
    assert(total_size(q.skip(1)) == q.skip(1)[0].size() + total_size(q.skip(1).skip(1)));
}

proof fn lemma_decisions_le_len(s: Seq<FoldingNode>)
    ensures
        decisions(s) <= s.len(),
    decreases s.len(),
{
    if s.len() > 0 {
        lemma_decisions_le_len(s.drop_last());
    }
}

/// Assembling a complete, well-formed node sequence from position `k` on
/// leaves as many trees in the queue as nodes were still owed before
/// position `k`; together they hold every node from `k` on, and all their
/// leaves are leaves that the parse made.
proof fn lemma_fold(nodes: Seq<FoldingNode>, k: int, num_contexts: int)
    requires
        0 <= k <= nodes.len(),
        depth(nodes) == 0,
        forall|j: int| 0 <= j < nodes.len() ==> depth(#[trigger] nodes.take(j)) >= 1,
        forall|j: int|
            0 <= j < nodes.len() ==> match #[trigger] nodes[j] {
                FoldingNode::Leaf(leaf) => leaf_ok(num_contexts)(leaf),
                _ => true,
            },
    ensures
        fold_queue(nodes, k).len() == depth(nodes.take(k)),
        total_size(fold_queue(nodes, k)) == nodes.len() - k,
        forall|i: int|
            0 <= i < fold_queue(nodes, k).len() ==> (#[trigger] fold_queue(nodes, k)[i]).all_leaves(
                leaf_ok(num_contexts),
            ),
    decreases nodes.len() - k,
{
    if k == nodes.len() {
        assert(nodes.take(k) =~= nodes);
    } else {
        lemma_fold(nodes, k + 1, num_contexts);
        let q = fold_queue(nodes, k + 1);
        assert(nodes.take(k + 1) =~= nodes.take(k).push(nodes[k]));
        lemma_decisions_push(nodes.take(k), nodes[k]);
        assert(depth(nodes.take(k)) >= 1);
        match nodes[k] {
            FoldingNode::Leaf(leaf) => {
                lemma_total_size_push(q, MaTreeNode::Leaf(leaf));
            },
            FoldingNode::Decision(property, value) => {
                let t = MaTreeNode::Decision {
                    property,
                    value,
                    left: Box::new(q[1]),
                    right: Box::new(q[0]),
                };
                lemma_total_size_skip2(q);
                lemma_total_size_push(q.skip(2), t);
                assert(t.all_leaves(leaf_ok(num_contexts)));
            },
        }
    }
}

/// The contexts of the leaves of the trees in `q`, with multiplicity.
pub open spec fn queue_contexts(q: Seq<MaTreeNode>) -> Multiset<u32>
    decreases q.len(),
{
    if q.len() == 0 {
        Multiset::empty()
    } else {
        q[0].leaf_contexts().add(queue_contexts(q.skip(1)))
    }
}

/// The contexts of the leaf nodes from position `k` on, with multiplicity.
pub open spec fn node_contexts(nodes: Seq<FoldingNode>, k: int) -> Multiset<u32>
    decreases nodes.len() - k,
{
    if 0 <= k < nodes.len() {
        let rest = node_contexts(nodes, k + 1);
        match nodes[k] {
            FoldingNode::Leaf(leaf) => Multiset::singleton(leaf.ctx).add(rest),
            _ => rest,
        }
    } else {
        Multiset::empty()
    }
}

/// The contexts `lo .. hi`, each once.
pub open spec fn context_range(lo: int, hi: int) -> Multiset<u32>
    decreases hi - lo,
{
    if lo < hi {
        Multiset::singleton(lo as u32).add(context_range(lo + 1, hi))
    } else {
        Multiset::empty()
    }
}

proof fn lemma_context_range_count(lo: int, hi: int, c: u32)
    requires
        0 <= lo,
        hi <= u32::MAX + 1,
    ensures
        context_range(lo, hi).count(c) == (if lo <= c < hi { 1nat } else { 0nat }),
    decreases hi - lo,
{
    broadcast use vstd::multiset::group_multiset_axioms;

    if lo < hi {
        lemma_context_range_count(lo + 1, hi, c);
    }
}

proof fn lemma_queue_contexts_push(q: Seq<MaTreeNode>, t: MaTreeNode)
    ensures
        queue_contexts(q.push(t)) =~= queue_contexts(q).add(t.leaf_contexts()),
    decreases q.len(),
{
    broadcast use vstd::multiset::group_multiset_axioms;

    if q.len() == 0 {
        assert(q.push(t).skip(1) =~= Seq::<MaTreeNode>::empty());
        assert(queue_contexts(q.push(t).skip(1)) == Multiset::<u32>::empty());
    } else {
        assert(q.push(t).skip(1) =~= q.skip(1).push(t));
        lemma_queue_contexts_push(q.skip(1), t);
    }
}

proof fn lemma_queue_contexts_skip2(q: Seq<MaTreeNode>)
    requires
        q.len() >= 2,
    ensures
        queue_contexts(q) =~= q[0].leaf_contexts().add(q[1].leaf_contexts()).add(queue_contexts(q.skip(2))),
{
    broadcast use vstd::multiset::group_multiset_axioms;

    assert(q.skip(1).skip(1) =~= q.skip(2));
    assert(queue_contexts(q.skip(1)) == q.skip(1)[0].leaf_contexts().add(queue_contexts(q.skip(1).skip(1))));
}

/// Assembling keeps every leaf's context: the trees in the queue hold
/// the contexts of the leaf nodes from position `k` on.
proof fn lemma_fold_contexts(nodes: Seq<FoldingNode>, k: int, num_contexts: int)
    requires
        0 <= k <= nodes.len(),
        depth(nodes) == 0,
        forall|j: int| 0 <= j < nodes.len() ==> depth(#[trigger] nodes.take(j)) >= 1,
        forall|j: int|
            0 <= j < nodes.len() ==> match #[trigger] nodes[j] {
                FoldingNode::Leaf(leaf) => leaf_ok(num_contexts)(leaf),
                _ => true,
            },
    ensures
        queue_contexts(fold_queue(nodes, k)) =~= node_contexts(nodes, k),
    decreases nodes.len() - k,
{
    broadcast use vstd::multiset::group_multiset_axioms;

    if k < nodes.len() {
        lemma_fold_contexts(nodes, k + 1, num_contexts);
        lemma_fold(nodes, k + 1, num_contexts);
        let q = fold_queue(nodes, k + 1);
        assert(nodes.take(k + 1) =~= nodes.take(k).push(nodes[k]));
        lemma_decisions_push(nodes.take(k), nodes[k]);
        match nodes[k] {
            FoldingNode::Leaf(leaf) => {
                lemma_queue_contexts_push(q, MaTreeNode::Leaf(leaf));
            },
            FoldingNode::Decision(property, value) => {
                let t = MaTreeNode::Decision {
                    property,
                    value,
                    left: Box::new(q[1]),
                    right: Box::new(q[0]),
                };
                lemma_queue_contexts_skip2(q);
                lemma_queue_contexts_push(q.skip(2), t);
            },
        }
    }
}

/// The leaf nodes from position `k` on use the contexts from the number of
/// leaves before `k` up to the number of all leaves, each once.
proof fn lemma_node_contexts(nodes: Seq<FoldingNode>, k: int)
    requires
        0 <= k <= nodes.len(),
        forall|j: int|
            0 <= j < nodes.len() ==> match #[trigger] nodes[j] {
                FoldingNode::Leaf(leaf) => leaf.ctx == leaves(nodes.take(j)),
                _ => true,
            },
    ensures
        node_contexts(nodes, k) =~= context_range(leaves(nodes.take(k)), leaves(nodes)),
        leaves(nodes.take(k)) <= leaves(nodes),
    decreases nodes.len() - k,
{
    broadcast use vstd::multiset::group_multiset_axioms;

    if k == nodes.len() {
        assert(nodes.take(k) =~= nodes);
    } else {
        lemma_node_contexts(nodes, k + 1);
        assert(nodes.take(k + 1) =~= nodes.take(k).push(nodes[k]));
        lemma_decisions_push(nodes.take(k), nodes[k]);
    }
}

pub proof fn lemma_total_size_concat(a: Seq<MaTreeNode>, b: Seq<MaTreeNode>)
    ensures
        total_size(a + b) == total_size(a) + total_size(b),
    decreases a.len(),
{
    if a.len() == 0 {
        assert(a + b =~= b);
    } else {
        assert((a + b).skip(1) =~= a.skip(1) + b);
        lemma_total_size_concat(a.skip(1), b);
    }
}

/// The node that the root of a tree is read as.
pub open spec fn root_node(t: MaTreeNode) -> FoldingNode {
    match t {
        MaTreeNode::Decision { property, value, .. } => FoldingNode::Decision(property, value),
        MaTreeNode::Leaf(leaf) => FoldingNode::Leaf(leaf),
    }
}

/// The children of the root of a tree, left then right.
pub open spec fn children(t: MaTreeNode) -> Seq<MaTreeNode> {
    match t {
        MaTreeNode::Decision { left, right, .. } => seq![*left, *right],
        MaTreeNode::Leaf(_) => Seq::empty(),
    }
}

pub proof fn lemma_children_size(t: MaTreeNode)
    ensures
        total_size(children(t)) + 1 == t.size(),
{
    match t {
        MaTreeNode::Decision { left, right, .. } => {
            let c = children(t);
            assert(c.skip(1).skip(1) =~= Seq::<MaTreeNode>::empty());
            assert(total_size(c.skip(1)) == c.skip(1)[0].size() + total_size(c.skip(1).skip(1)));
        },
        MaTreeNode::Leaf(_) => {},
    }
}

/// The breadth-first listing of the trees in the queue `q`: the front
/// tree's root, then the listing of the rest of the queue with its
/// children added at the back.
pub open spec fn breadth_first(q: Seq<MaTreeNode>) -> Seq<FoldingNode>
    decreases total_size(q),
{
    if q.len() == 0 {
        Seq::empty()
    } else {
        proof {
            lemma_total_size_concat(q.skip(1), children(q[0]));
            lemma_children_size(q[0]);
        }
        seq![root_node(q[0])] + breadth_first(q.skip(1) + children(q[0]))
    }
}

/// The queue after assembling from position `k` on, read front to back,
/// lists the subtrees rooted at the owed nodes in reverse; listing them
/// breadth first in the other order gives back the nodes from `k` on.
proof fn lemma_fold_breadth_first(nodes: Seq<FoldingNode>, k: int, num_contexts: int)
    requires
        0 <= k <= nodes.len(),
        depth(nodes) == 0,
        forall|j: int| 0 <= j < nodes.len() ==> depth(#[trigger] nodes.take(j)) >= 1,
        forall|j: int|
            0 <= j < nodes.len() ==> match #[trigger] nodes[j] {
                FoldingNode::Leaf(leaf) => leaf_ok(num_contexts)(leaf),
                _ => true,
            },
    ensures
        breadth_first(fold_queue(nodes, k).reverse()) == nodes.skip(k),
    decreases nodes.len() - k,
{
    if k == nodes.len() {
        assert(fold_queue(nodes, k).reverse() =~= Seq::<MaTreeNode>::empty());
        assert(nodes.skip(k) =~= Seq::<FoldingNode>::empty());
    } else {
        lemma_fold_breadth_first(nodes, k + 1, num_contexts);
        lemma_fold(nodes, k + 1, num_contexts);
        let q = fold_queue(nodes, k + 1);
        assert(nodes.take(k + 1) =~= nodes.take(k).push(nodes[k]));
        lemma_decisions_push(nodes.take(k), nodes[k]);
        assert(depth(nodes.take(k)) >= 1);
        let f = fold_queue(nodes, k).reverse();
        assert(nodes.skip(k) =~= seq![nodes[k]] + nodes.skip(k + 1));
        match nodes[k] {
            FoldingNode::Leaf(leaf) => {
                let t = MaTreeNode::Leaf(leaf);
                assert(f =~= seq![t] + q.reverse());
                assert(f.skip(1) + children(f[0]) =~= q.reverse());
            },
            FoldingNode::Decision(property, value) => {
                let t = MaTreeNode::Decision {
                    property,
                    value,
                    left: Box::new(q[1]),
                    right: Box::new(q[0]),
                };
                assert(f =~= seq![t] + q.skip(2).reverse());
                assert(f[0] == t);
                assert(f.skip(1) + children(f[0]) =~= q.reverse());
            },
        }
    }
}

/// The tree that a complete parse assembles is the one whose
/// breadth-first listing (each level left to right, a decision's left
/// child before its right) is the sequence of nodes read.
pub proof fn law_tree_is_breadth_first_listing(m: ParserModel)
    requires
        model_inv(m),
        model_complete(m),
    ensures
        breadth_first(seq![folded_tree(m.nodes)]) == m.nodes,
{
    lemma_fold(m.nodes, 0, m.ctx);
    lemma_fold_breadth_first(m.nodes, 0, m.ctx);
    assert(m.nodes.take(0) =~= Seq::<FoldingNode>::empty());
    assert(fold_queue(m.nodes, 0).reverse() =~= seq![folded_tree(m.nodes)]);
    assert(m.nodes.skip(0) =~= m.nodes);
}

/// An incremental MA tree parser. The symbols come from an entropy
/// decoder, each from the context that `next_context` names; `feed` takes
/// one symbol, and `finish` assembles the tree once `next_context` says
/// that no symbol is owed.
pub struct MaTreeParser {
    nodes: Vec<FoldingNode>,
    nodes_left: usize,
    ctx: u32,
    stage: ParseStage,
}

impl View for MaTreeParser {
    type V = ParserModel;

    closed spec fn view(&self) -> ParserModel {
        ParserModel {
            nodes: self.nodes@,
            nodes_left: self.nodes_left as int,
            ctx: self.ctx as int,
            stage: self.stage,
        }
    }
}

impl MaTreeParser {
    /// The parse is one that `new` and `feed` can reach.
    pub closed spec fn wf(&self) -> bool {
        model_inv(self@)
    }

    /// A parser that has read nothing yet.
    pub fn new() -> (r: MaTreeParser)
        ensures
            r@ == initial_model(),
            r.wf(),
    {
        let r = MaTreeParser { nodes: Vec::new(), nodes_left: 1, ctx: 0, stage: ParseStage::Property };
        assert(r@.nodes =~= Seq::<FoldingNode>::empty());
        r
    }

    /// The decoder context of the next symbol, `None` once the tree is
    /// complete, or an error when a new node is owed but the tree already
    /// has the most nodes allowed.
    pub fn next_context(&self) -> (r: Result<Option<u32>, ModularError>)
        ensures
            r == (if model_complete(self@) {
                Ok(None)
            } else if model_too_large(self@) {
                Err(ModularError::InvalidMaTree)
            } else {
                Ok(Some(stage_context(self@.stage)))
            }),
    {
        match self.stage {
            ParseStage::Property => {
                if self.nodes_left == 0 {
                    Ok(None)
                } else if self.nodes.len() >= MAX_TREE_NODES {
                    Err(ModularError::InvalidMaTree)
                } else {
                    Ok(Some(1))
                }
            },
            ParseStage::Value { .. } => Ok(Some(0)),
            ParseStage::PredictorId => Ok(Some(2)),
            ParseStage::Offset { .. } => Ok(Some(3)),
            ParseStage::MulLog { .. } => Ok(Some(4)),
            ParseStage::MulBits { .. } => Ok(Some(5)),
        }
    }

    /// Reads one symbol.
    pub fn feed(self, v: u32) -> (r: Result<MaTreeParser, ModularError>)
        requires
            self.wf(),
            !model_complete(self@),
            !model_too_large(self@),
        ensures
            match r {
                Ok(p) => model_step(self@, v) == Ok::<ParserModel, ModularError>(p@) && p.wf(),
                Err(e) => model_step(self@, v) == Err::<ParserModel, ModularError>(e),
            },
    {
        proof {
            lemma_step_inv(self@, v);
            lemma_decisions_le_len(self@.nodes);
        }
        let ghost m = self@;
        let mut p = self;
        match p.stage {
            ParseStage::Property => {
                p.nodes_left = p.nodes_left - 1;
                if v > 0 {
                    p.stage = ParseStage::Value { property: v - 1 };
                } else {
                    p.stage = ParseStage::PredictorId;
                }
                Ok(p)
            },
            ParseStage::Value { property } => {
                let value: i32 = unpack_signed(v);
                p.nodes.push(FoldingNode::Decision(property, value));
                p.nodes_left = p.nodes_left + 2;
                p.stage = ParseStage::Property;
                Ok(p)
            },
            ParseStage::PredictorId => {
                match Predictor::from_id(v) {
                    Ok(predictor) => {
                        p.stage = ParseStage::Offset { predictor };
                        Ok(p)
                    },
                    Err(e) => Err(e),
                }
            },
            ParseStage::Offset { predictor } => {
                let offset: i32 = unpack_signed(v);
                p.stage = ParseStage::MulLog { predictor, offset };
                Ok(p)
            },
            ParseStage::MulLog { predictor, offset } => {
                if v > 30 {
                    return Err(ModularError::InvalidMaTree);
                }
                p.stage = ParseStage::MulBits { predictor, offset, mul_log: v };
                Ok(p)
            },
            ParseStage::MulBits { predictor, offset, mul_log } => {
                let shift: u32 = 31 - mul_log;
                assert(1 <= shift <= 31 ==> (1u32 << shift) >= 2) by (bit_vector);
                let limit: u32 = (1u32 << shift) - 2;
                if v > limit {
                    return Err(ModularError::InvalidMaTree);
                }
                let multiplier: u32 = (v + 1) << mul_log;
                p.nodes.push(FoldingNode::Leaf(MaTreeLeaf { ctx: p.ctx, predictor, offset, multiplier }));
                p.ctx = p.ctx + 1;
                p.stage = ParseStage::Property;
                Ok(p)
            },
        }
    }

    /// Assembles the tree of a complete parse.
    pub fn finish(self) -> (r: MaConfig)
        requires
            self.wf(),
            model_complete(self@),
        ensures
            r.wf(),
            r.tree() == folded_tree(self@.nodes),
            r.tree().size() == self@.nodes.len(),
            breadth_first(seq![r.tree()]) == self@.nodes,
            r.spec_num_contexts() == self@.ctx,
            forall|c: u32|
                #[trigger] r.tree().leaf_contexts().count(c) == (if c < r.spec_num_contexts() {
                    1nat
                } else {
                    0nat
                }),
    {
        let ghost m = self@;
        let nodes = self.nodes;
        let num_contexts: u32 = self.ctx;
        let ghost ns = nodes@;
        let mut tmp: VecDeque<MaTreeNode> = VecDeque::new();
        let mut k: usize = nodes.len();
        proof {
            lemma_fold(ns, k as int, num_contexts as int);
        }
        while k > 0
            invariant
                ns == nodes@,
                k <= nodes.len(),
                tmp@ == fold_queue(ns, k as int),
                depth(ns) == 0,
                forall|j: int| 0 <= j < ns.len() ==> depth(#[trigger] ns.take(j)) >= 1,
                forall|j: int|
                    0 <= j < ns.len() ==> match #[trigger] ns[j] {
                        FoldingNode::Leaf(leaf) => leaf_ok(num_contexts as int)(leaf),
                        _ => true,
                    },
            decreases k,
        {
            proof {
                lemma_fold(ns, k as int, num_contexts as int);
                lemma_fold(ns, k - 1, num_contexts as int);
                assert(ns.take(k as int) =~= ns.take(k - 1).push(ns[k - 1]));
                lemma_decisions_push(ns.take(k - 1), ns[k - 1]);
            }
            k = k - 1;
            let ghost q = tmp@;
            match nodes[k] {
                FoldingNode::Decision(property, value) => {
                    let right = tmp.pop_front().unwrap();
                    let left = tmp.pop_front().unwrap();
                    assert(tmp@ =~= q.skip(2));
                    tmp.push_back(MaTreeNode::Decision {
                        property,
                        value,
                        left: Box::new(left),
                        right: Box::new(right),
                    });
                },
                FoldingNode::Leaf(leaf) => {
                    tmp.push_back(MaTreeNode::Leaf(leaf));
                },
            }
        }
        proof {
            lemma_fold(ns, 0, num_contexts as int);
            assert(ns.take(0) =~= Seq::<FoldingNode>::empty());
            assert(fold_queue(ns, 0).skip(1) =~= Seq::<MaTreeNode>::empty());
            assert(total_size(fold_queue(ns, 0).skip(1)) == 0);
            law_tree_is_breadth_first_listing(m);
            lemma_fold_contexts(ns, 0, num_contexts as int);
            lemma_node_contexts(ns, 0);
            assert(queue_contexts(fold_queue(ns, 0).skip(1)) == Multiset::<u32>::empty());
            assert forall|c: u32| #[trigger] fold_queue(ns, 0)[0].leaf_contexts().count(c) == (if c < num_contexts {
                1nat
            } else {
                0nat
            }) by {
                broadcast use vstd::multiset::group_multiset_axioms;
                lemma_context_range_count(0, num_contexts as int, c);
            }
        }
        let tree = tmp.pop_front().unwrap();
        MaConfig { tree, num_contexts }
    }
}

/// An MA tree as read from the bitstream, with the number of entropy
/// contexts that its leaves use (the decoder for the samples is built with
/// that many).
#[derive(Debug)]
pub struct MaConfig {
    tree: MaTreeNode,
    num_contexts: u32,
}

impl MaConfig {
    /// The tree.
    pub closed spec fn tree(&self) -> MaTreeNode {
        self.tree
    }

    /// The number of entropy contexts.
    pub closed spec fn spec_num_contexts(&self) -> nat {
        self.num_contexts as nat
    }

    /// The tree is no larger than the bitstream allows, every leaf uses
    /// one of the contexts and a multiplier below 2^31, and each context
    /// belongs to exactly one leaf.
    pub open spec fn wf(&self) -> bool {
        &&& self.tree().size() <= MAX_TREE_NODES
        &&& self.tree().all_leaves(leaf_ok(self.spec_num_contexts() as int))
        &&& forall|c: u32|
            #[trigger] self.tree().leaf_contexts().count(c) == (if c < self.spec_num_contexts() {
                1nat
            } else {
                0nat
            })
    }

    /// The number of entropy contexts that the leaves use.
    pub fn num_contexts(&self) -> (r: u32)
        ensures
            r == self.spec_num_contexts(),
    {
        self.num_contexts
    }

    /// Flattens the tree for one channel of one stream.
    pub fn make_flat_tree(&self, channel: u32, stream_idx: u32) -> (r: FlatMaTree)
        requires
            self.wf(),
        ensures
            r.wf(),
            r@ == self.tree().flat_layout(channel, stream_idx, 0),
            segment_ok(r@, 0),
            flat_all_leaves(r@, leaf_ok(self.spec_num_contexts() as int)),
            forall|props: Seq<i32>|
                props.len() >= 2 && props[0] == channel as i32 && props[1] == stream_idx as i32
                    ==> #[trigger] flat_leaf(r@, 0, props) == self.tree().spec_leaf(props),
    {
        let mut nodes: Vec<FlatMaTreeNode> = Vec::new();
        self.tree.flatten(channel, stream_idx, &mut nodes);
        proof {
            let layout = self.tree.flat_layout(channel, stream_idx, 0);
            assert(nodes@ =~= layout);
            lemma_layout_len(self.tree, channel, stream_idx, 0);
            lemma_layout_segment_ok(self.tree, channel, stream_idx, 0);
            lemma_segment_wf(layout);
            lemma_layout_leaves(self.tree, channel, stream_idx, 0, leaf_ok(self.num_contexts as int));
            assert forall|props: Seq<i32>|
                props.len() >= 2 && props[0] == channel as i32 && props[1] == stream_idx as i32
                    implies #[trigger] flat_leaf(layout, 0, props) == self.tree.spec_leaf(props) by {
                assert(layout.subrange(0, layout.len() as int) =~= layout);
                lemma_layout_lookup(self.tree, channel, stream_idx, layout, 0, props);
            }
        }
        FlatMaTree::new(nodes)
    }

    /// Parses an MA tree from its symbols, read in order: the tree and the
    /// number of symbols it took, or the first error.
    pub fn parse(symbols: &[u32]) -> (r: Result<(MaConfig, usize), ModularError>)
        ensures
            match spec_parse_from(symbols@, 0, initial_model()) {
                Ok((m, n)) => match r {
                    Ok((cfg, used)) => {
                        &&& used == n
                        &&& cfg.wf()
                        &&& cfg.tree() == folded_tree(m.nodes)
                        &&& breadth_first(seq![cfg.tree()]) == m.nodes
                        &&& cfg.spec_num_contexts() == m.ctx
                    },
                    Err(_) => false,
                },
                Err(e) => r matches Err(e2) && e2 == e,
            },
    {
        let mut parser = MaTreeParser::new();
        let mut i: usize = 0;
        loop
            invariant
                parser.wf(),
                i <= symbols@.len(),
                spec_parse_from(symbols@, 0, initial_model()) == spec_parse_from(symbols@, i as int, parser@),
            decreases symbols@.len() - i,
        {
            match parser.next_context() {
                Ok(None) => {
                    let used: usize = i;
                    let cfg = parser.finish();
                    return Ok((cfg, used));
                },
                Err(e) => {
                    return Err(e);
                },
                Ok(Some(_)) => {},
            }
            if i >= symbols.len() {
                return Err(ModularError::UnexpectedEof);
            }
            match parser.feed(symbols[i]) {
                Ok(p) => {
                    parser = p;
                },
                Err(e) => {
                    return Err(e);
                },
            }
            i = i + 1;
        }
    }
}


/// Reading a leaf's multiplier: with power-of-two symbol `mul_log` read,
/// the odd-factor symbol `v` is accepted exactly when the multiplier
/// `(v + 1) * 2^mul_log` stays below 2^31, and the leaf then made has that
/// multiplier, the next context, and the predictor and offset read before.
pub proof fn law_leaf_multiplier(m: ParserModel, predictor: Predictor, offset: i32, mul_log: u32, v: u32)
    requires
        m.stage == (ParseStage::MulBits { predictor, offset, mul_log }),
        mul_log <= 30,
    ensures
        model_step(m, v) is Ok <==> (v + 1) * pow2(mul_log as nat) < 0x8000_0000,
        (match model_step(m, v) {
            Ok(m1) => {
                &&& m1.nodes == m.nodes.push(
                    FoldingNode::Leaf(
                        MaTreeLeaf {
                            ctx: m.ctx as u32,
                            predictor,
                            offset,
                            multiplier: ((v + 1) * pow2(mul_log as nat)) as u32,
                        },
                    ),
                )
                &&& m1.ctx == m.ctx + 1
            },
            Err(e) => e == ModularError::InvalidMaTree,
        }),
{
    let sh: u32 = (31 - mul_log) as u32;
    vstd::bits::lemma_u32_pow2_no_overflow(sh as nat);
    vstd::bits::lemma_u32_shl_is_mul(1u32, sh);
    vstd::arithmetic::power2::lemma_pow2_pos(mul_log as nat);
    vstd::arithmetic::power2::lemma_pow2_adds(sh as nat, mul_log as nat);
    vstd::arithmetic::power2::lemma2_to64();
    assert(sh as nat + mul_log as nat == 31);
    assert(pow2(31) == 0x8000_0000);
    let ps = pow2(sh as nat) as int;
    let pm = pow2(mul_log as nat) as int;
    assert(ps * pm == 0x8000_0000);
    assert(1 <= sh <= 31 ==> (1u32 << sh) >= 2) by (bit_vector);
    assert(mul_bits_limit(mul_log) == ps - 2);
    assert((v + 1 < ps) <==> ((v + 1) * pm < ps * pm)) by (nonlinear_arith)
        requires
            pm > 0,
    ;
    if (v + 1) * pm < 0x8000_0000 {
        assert(v + 1 < 0x8000_0000) by (nonlinear_arith)
            requires
                (v + 1) * pm < 0x8000_0000,
                pm > 0,
        ;
        let x: u32 = (v + 1) as u32;
        assert(x * pow2(mul_log as nat) <= u32::MAX);
        vstd::bits::lemma_u32_shl_is_mul(x, mul_log);
        assert(leaf_multiplier(mul_log, v) == (v + 1) * pm);
    }
}

/// Reading a decision node: a property symbol `p` above zero starts a
/// decision on property `p - 1`, and the next symbol `s` is its threshold
/// in zigzag form. The node then joins the nodes read so far.
pub proof fn law_decision_threshold_is_zigzag(m: ParserModel, p: u32, s: u32)
    requires
        m.stage == ParseStage::Property,
        p > 0,
    ensures
        (match model_step(m, p) {
            Ok(m1) => {
                &&& m1.nodes == m.nodes
                &&& m1.stage == (ParseStage::Value { property: (p - 1) as u32 })
                &&& match model_step(m1, s) {
                    Ok(m2) => {
                        &&& m2.nodes.len() == m.nodes.len() + 1
                        &&& m2.nodes.drop_last() == m.nodes
                        &&& match m2.nodes.last() {
                            FoldingNode::Decision(property, value) => property == p - 1 && zigzag(s, value as int),
                            FoldingNode::Leaf(_) => false,
                        }
                    },
                    Err(_) => false,
                }
            },
            Err(_) => false,
        }),
{
    let m1 = ParserModel { nodes_left: m.nodes_left - 1, stage: ParseStage::Value { property: (p - 1) as u32 }, ..m };
    let m2 = ParserModel {
        nodes: m.nodes.push(FoldingNode::Decision((p - 1) as u32, spec_unpack_signed(s) as i32)),
        nodes_left: m1.nodes_left + 2,
        stage: ParseStage::Property,
        ..m1
    };
    assert(model_step(m, p) == Ok::<ParserModel, ModularError>(m1));
    assert(model_step(m1, s) == Ok::<ParserModel, ModularError>(m2));
    assert(m2.nodes.drop_last() =~= m.nodes);
}

/// Reading a leaf's offset: the symbol is the offset in zigzag form, as
/// for a decision's threshold.
pub proof fn law_leaf_offset_is_zigzag(m: ParserModel, predictor: Predictor, s: u32)
    requires
        m.stage == (ParseStage::Offset { predictor }),
    ensures
        (match model_step(m, s) {
            Ok(m1) => {
                &&& m1.nodes == m.nodes
                &&& match m1.stage {
                    ParseStage::MulLog { predictor: p2, offset } => p2 == predictor && zigzag(s, offset as int),
                    _ => false,
                }
            },
            Err(_) => false,
        }),
{
}

} // verus!

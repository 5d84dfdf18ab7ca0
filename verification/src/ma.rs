use vstd::prelude::*;

use vstd::multiset::Multiset;

use crate::error::ModularError;
use crate::predictor::{law_unpack_signed_is_zigzag, spec_unpack_signed, unpack_signed, zigzag, Predictor, Properties};

verus! {

/// A leaf of an MA tree: the entropy-coding context of the samples that
/// reach it, and how their residuals are predicted and scaled.
#[derive(Debug, Clone, Copy, PartialEq, Eq, Structural)]
pub struct MaTreeLeaf {
    pub ctx: u32,
    pub predictor: Predictor,
    pub offset: i32,
    pub multiplier: u32,
}

/// A meta-adaptive tree: decision nodes compare one property of the sample
/// with a threshold; greater goes left, the rest goes right.
#[derive(Debug)]
pub enum MaTreeNode {
    Decision { property: u32, value: i32, left: Box<MaTreeNode>, right: Box<MaTreeNode> },
    Leaf(MaTreeLeaf),
}

/// A node of a flattened MA tree, whose children are given by their
/// positions in the node array.
#[derive(Debug, Clone, Copy, PartialEq, Eq, Structural)]
pub enum FlatMaTreeNode {
    Decision { property: u32, value: i32, left_idx: u32, right_idx: u32 },
    Leaf(MaTreeLeaf),
}

impl MaTreeNode {
    /// The number of nodes of the tree.
    pub open spec fn size(self) -> nat
        decreases self,
    {
        match self {
            MaTreeNode::Decision { left, right, .. } => 1 + left.size() + right.size(),
            MaTreeNode::Leaf(_) => 1,
        }
    }

    /// Whether every leaf of the tree satisfies `p`.
    pub open spec fn all_leaves(self, p: spec_fn(MaTreeLeaf) -> bool) -> bool
        decreases self,
    {
        match self {
            MaTreeNode::Decision { left, right, .. } => left.all_leaves(p) && right.all_leaves(p),
            MaTreeNode::Leaf(leaf) => p(leaf),
        }
    }

    /// The contexts of the leaves of the tree, with multiplicity.
    pub open spec fn leaf_contexts(self) -> Multiset<u32>
        decreases self,
    {
        match self {
            MaTreeNode::Decision { left, right, .. } => left.leaf_contexts().add(right.leaf_contexts()),
            MaTreeNode::Leaf(leaf) => Multiset::singleton(leaf.ctx),
        }
    }

    /// The leaf that a sample with property values `props` reaches, or the
    /// error for the first property on its way that it lacks.
    pub open spec fn spec_leaf(self, props: Seq<i32>) -> Result<MaTreeLeaf, ModularError>
        decreases self,
    {
        match self {
            MaTreeNode::Decision { property, value, left, right } => {
                if property >= props.len() {
                    Err(ModularError::InvalidProperty(property as usize))
                } else if props[property as int] > value {
                    left.spec_leaf(props)
                } else {
                    right.spec_leaf(props)
                }
            },
            MaTreeNode::Leaf(leaf) => Ok(leaf),
        }
    }

    /// The nodes that flattening the tree for one channel and stream
    /// appends at position `base`: decisions on property 0 (the channel)
    /// and 1 (the stream) are taken at once; every other node is laid out
    /// in pre-order, its left subtree right after it, then its right
    /// subtree.
    pub open spec fn flat_layout(self, channel: u32, stream_idx: u32, base: int) -> Seq<FlatMaTreeNode>
        decreases self,
    {
        match self {
            MaTreeNode::Decision { property, value, left, right } => {
                if property == 0 || property == 1 {
                    let target = if property == 0 { channel } else { stream_idx };
                    if (target as i32) > value {
                        left.flat_layout(channel, stream_idx, base)
                    } else {
                        right.flat_layout(channel, stream_idx, base)
                    }
                } else {
                    let l = left.flat_layout(channel, stream_idx, base + 1);
                    let r = right.flat_layout(channel, stream_idx, base + 1 + l.len());
                    seq![FlatMaTreeNode::Decision {
                        property,
                        value,
                        left_idx: (base + 1) as u32,
                        right_idx: (base + 1 + l.len()) as u32,
                    }] + l + r
                }
            },
            MaTreeNode::Leaf(leaf) => seq![FlatMaTreeNode::Leaf(leaf)],
        }
    }

    /// A leaf node.
    pub fn leaf(ctx: u32, predictor: Predictor, offset: i32, multiplier: u32) -> (r: MaTreeNode)
        ensures
            r == MaTreeNode::Leaf(MaTreeLeaf { ctx, predictor, offset, multiplier }),
    {
        MaTreeNode::Leaf(MaTreeLeaf { ctx, predictor, offset, multiplier })
    }

    /// A decision node: samples whose `property` is greater than `value` go
    /// to `left`, the others to `right`.
    pub fn decision(property: u32, value: i32, left: MaTreeNode, right: MaTreeNode) -> (r: MaTreeNode)
        ensures
            r == (MaTreeNode::Decision { property, value, left: Box::new(left), right: Box::new(right) }),
    {
        MaTreeNode::Decision { property, value, left: Box::new(left), right: Box::new(right) }
    }

    /// Appends the flattened tree for `channel` and `stream_idx` to `out`.
    pub fn flatten(&self, channel: u32, stream_idx: u32, out: &mut Vec<FlatMaTreeNode>)
        requires
            old(out).len() + self.size() <= u32::MAX,
        ensures
            final(out)@ == old(out)@ + self.flat_layout(channel, stream_idx, old(out).len() as int),
        decreases self,
    {
        proof {
            lemma_layout_len(*self, channel, stream_idx, old(out).len() as int);
        }
        let idx: usize = out.len();
        match self {
            MaTreeNode::Decision { property, value, left, right } => {
                if *property == 0 || *property == 1 {
                    let target: u32 = if *property == 0 { channel } else { stream_idx };
                    if (target as i32) > *value {
                        left.flatten(channel, stream_idx, out);
                    } else {
                        right.flatten(channel, stream_idx, out);
                    }
                    return;
                }
                let ghost start = out@;
                out.push(FlatMaTreeNode::Decision { property: *property, value: *value, left_idx: 0, right_idx: 0 });
                proof {
                    lemma_layout_len(**left, channel, stream_idx, idx + 1);
                    lemma_layout_len(**right, channel, stream_idx, idx + 1);
                }
                left.flatten(channel, stream_idx, out);
                let right_idx: u32 = out.len() as u32;
                right.flatten(channel, stream_idx, out);
                let node = FlatMaTreeNode::Decision {
                    property: *property,
                    value: *value,
                    left_idx: (idx + 1) as u32,
                    right_idx,
                };
                let ghost before = out@;
                out.set(idx, node);
                proof {
                    let l = left.flat_layout(channel, stream_idx, idx + 1);
                    let r = right.flat_layout(channel, stream_idx, idx + 1 + l.len());
                    assert(out@ =~= start + (seq![node] + l + r));
                }
            },
            MaTreeNode::Leaf(leaf) => {
                out.push(FlatMaTreeNode::Leaf(*leaf));
            },
        }
    }
}

/// The flattened layout is never empty, nor longer than the tree.
pub(crate) proof fn lemma_layout_len(n: MaTreeNode, channel: u32, stream_idx: u32, base: int)
    ensures
        1 <= n.flat_layout(channel, stream_idx, base).len() <= n.size(),
    decreases n,
{
    match n {
        MaTreeNode::Decision { property, value, left, right } => {
            lemma_layout_len(*left, channel, stream_idx, base);
            lemma_layout_len(*right, channel, stream_idx, base);
            let l = left.flat_layout(channel, stream_idx, base + 1);
            lemma_layout_len(*left, channel, stream_idx, base + 1);
            lemma_layout_len(*right, channel, stream_idx, base + 1 + l.len());
        },
        MaTreeNode::Leaf(_) => {},
    }
}


/// The leaf reached from position `i` of a flattened tree: decisions send
/// samples whose property is greater than the threshold to `left_idx`,
/// the others to `right_idx`. A child that does not stand after its parent
/// inside the array makes the tree malformed.
pub open spec fn flat_leaf(nodes: Seq<FlatMaTreeNode>, i: int, props: Seq<i32>) -> Result<MaTreeLeaf, ModularError>
    decreases nodes.len() - i,
{
    if 0 <= i < nodes.len() {
        match nodes[i] {
            FlatMaTreeNode::Decision { property, value, left_idx, right_idx } => {
                if property >= props.len() {
                    Err(ModularError::InvalidProperty(property as usize))
                } else {
                    let next = if props[property as int] > value {
                        left_idx as int
                    } else {
                        right_idx as int
                    };
                    if i < next < nodes.len() {
                        flat_leaf(nodes, next, props)
                    } else {
                        Err(ModularError::InvalidMaTree)
                    }
                }
            },
            FlatMaTreeNode::Leaf(leaf) => Ok(leaf),
        }
    } else {
        Err(ModularError::InvalidMaTree)
    }
}

/// Whether the nodes at positions `base ..` of a flattened tree, given as
/// `seg`, keep every child after its parent and inside the segment, and
/// decide on no property but those that flattening keeps (2 and up).
pub open spec fn segment_ok(seg: Seq<FlatMaTreeNode>, base: int) -> bool {
    forall|k: int|
        0 <= k < seg.len() ==> match #[trigger] seg[k] {
            FlatMaTreeNode::Decision { property, left_idx, right_idx, .. } => {
                &&& property != 0
                &&& property != 1
                &&& base + k < left_idx < base + seg.len()
                &&& base + k < right_idx < base + seg.len()
            },
            FlatMaTreeNode::Leaf(_) => true,
        }
}

/// Whether every leaf in `nodes` satisfies `p`.
pub open spec fn flat_all_leaves(nodes: Seq<FlatMaTreeNode>, p: spec_fn(MaTreeLeaf) -> bool) -> bool {
    forall|k: int|
        0 <= k < nodes.len() ==> match #[trigger] nodes[k] {
            FlatMaTreeNode::Leaf(leaf) => p(leaf),
            _ => true,
        }
}

/// A flattened tree is well formed when it is not empty and every child
/// stands after its parent inside the array.
pub open spec fn flat_wf(nodes: Seq<FlatMaTreeNode>) -> bool {
    &&& nodes.len() > 0
    &&& forall|k: int|
        0 <= k < nodes.len() ==> match #[trigger] nodes[k] {
            FlatMaTreeNode::Decision { left_idx, right_idx, .. } => {
                &&& k < left_idx < nodes.len()
                &&& k < right_idx < nodes.len()
            },
            FlatMaTreeNode::Leaf(_) => true,
        }
}

/// Whether a node asks for the self-correcting predictor's state: a
/// decision on property 15 (its maximum error) or a leaf that predicts
/// with it.
pub open spec fn node_needs_self_correcting(n: FlatMaTreeNode) -> bool {
    match n {
        FlatMaTreeNode::Decision { property, .. } => property == 15,
        FlatMaTreeNode::Leaf(leaf) => leaf.predictor == Predictor::SelfCorrecting,
    }
}

/// Whether some node of `nodes` asks for the self-correcting predictor.
pub open spec fn spec_needs_self_correcting(nodes: Seq<FlatMaTreeNode>) -> bool {
    exists|k: int| 0 <= k < nodes.len() && node_needs_self_correcting(#[trigger] nodes[k])
}

/// The layout of a tree keeps children after their parents, inside the
/// segment, and leaves out decisions on properties 0 and 1.
pub(crate) proof fn lemma_layout_segment_ok(n: MaTreeNode, channel: u32, stream_idx: u32, base: int)
    requires
        0 <= base,
        base + n.size() <= u32::MAX,
    ensures
        segment_ok(n.flat_layout(channel, stream_idx, base), base),
    decreases n,
{
    lemma_layout_len(n, channel, stream_idx, base);
    match n {
        MaTreeNode::Decision { property, value, left, right } => {
            if property == 0 || property == 1 {
                lemma_layout_segment_ok(*left, channel, stream_idx, base);
                lemma_layout_segment_ok(*right, channel, stream_idx, base);
            } else {
                let l = left.flat_layout(channel, stream_idx, base + 1);
                lemma_layout_len(*left, channel, stream_idx, base + 1);
                let r = right.flat_layout(channel, stream_idx, base + 1 + l.len());
                lemma_layout_len(*right, channel, stream_idx, base + 1 + l.len());
                lemma_layout_segment_ok(*left, channel, stream_idx, base + 1);
                lemma_layout_segment_ok(*right, channel, stream_idx, base + 1 + l.len());
                let seg = n.flat_layout(channel, stream_idx, base);
                let head = seq![FlatMaTreeNode::Decision {
                    property,
                    value,
                    left_idx: (base + 1) as u32,
                    right_idx: (base + 1 + l.len()) as u32,
                }];
                assert(seg == head + l + r);
                assert forall|k: int| 0 <= k < seg.len() implies match #[trigger] seg[k] {
                    FlatMaTreeNode::Decision { property, left_idx, right_idx, .. } => {
                        &&& property != 0
                        &&& property != 1
                        &&& base + k < left_idx < base + seg.len()
                        &&& base + k < right_idx < base + seg.len()
                    },
                    FlatMaTreeNode::Leaf(_) => true,
                } by {
                    if k == 0 {
                    } else if k < 1 + l.len() {
                        assert(seg[k] == l[k - 1]);
                    } else {
                        assert(seg[k] == r[k - 1 - l.len()]);
                    }
                }
            }
        },
        MaTreeNode::Leaf(_) => {},
    }
}

/// Every leaf of the layout is a leaf of the tree.
pub(crate) proof fn lemma_layout_leaves(n: MaTreeNode, channel: u32, stream_idx: u32, base: int, p: spec_fn(MaTreeLeaf) -> bool)
    requires
        n.all_leaves(p),
    ensures
        flat_all_leaves(n.flat_layout(channel, stream_idx, base), p),
    decreases n,
{
    match n {
        MaTreeNode::Decision { property, value, left, right } => {
            if property == 0 || property == 1 {
                lemma_layout_leaves(*left, channel, stream_idx, base, p);
                lemma_layout_leaves(*right, channel, stream_idx, base, p);
            } else {
                let l = left.flat_layout(channel, stream_idx, base + 1);
                let r = right.flat_layout(channel, stream_idx, base + 1 + l.len());
                lemma_layout_leaves(*left, channel, stream_idx, base + 1, p);
                lemma_layout_leaves(*right, channel, stream_idx, base + 1 + l.len(), p);
                let seg = n.flat_layout(channel, stream_idx, base);
                assert forall|k: int| 0 <= k < seg.len() implies match #[trigger] seg[k] {
                    FlatMaTreeNode::Leaf(leaf) => p(leaf),
                    _ => true,
                } by {
                    if k == 0 {
                    } else if k < 1 + l.len() {
                        assert(seg[k] == l[k - 1]);
                    } else {
                        assert(seg[k] == r[k - 1 - l.len()]);
                    }
                }
            }
        },
        MaTreeNode::Leaf(_) => {},
    }
}

/// Looking a sample up in the layout of a tree, wherever the layout stands
/// in the node array, gives the leaf that the tree gives, provided that
/// property 0 is the channel and property 1 the stream.
pub(crate) proof fn lemma_layout_lookup(
    n: MaTreeNode,
    channel: u32,
    stream_idx: u32,
    nodes: Seq<FlatMaTreeNode>,
    base: int,
    props: Seq<i32>,
)
    requires
        0 <= base,
        nodes.len() <= u32::MAX,
        base + n.flat_layout(channel, stream_idx, base).len() <= nodes.len(),
        nodes.subrange(base, base + n.flat_layout(channel, stream_idx, base).len())
            == n.flat_layout(channel, stream_idx, base),
        props.len() >= 2,
        props[0] == channel as i32,
        props[1] == stream_idx as i32,
    ensures
        flat_leaf(nodes, base, props) == n.spec_leaf(props),
    decreases n,
{
    let seg = n.flat_layout(channel, stream_idx, base);
    lemma_layout_len(n, channel, stream_idx, base);
    assert(nodes[base] == seg[0]) by {
        assert(nodes.subrange(base, base + seg.len())[0] == nodes[base]);
    }
    match n {
        MaTreeNode::Decision { property, value, left, right } => {
            if property == 0 || property == 1 {
                let target = if property == 0 { channel } else { stream_idx };
                if (target as i32) > value {
                    lemma_layout_lookup(*left, channel, stream_idx, nodes, base, props);
                } else {
                    lemma_layout_lookup(*right, channel, stream_idx, nodes, base, props);
                }
            } else {
                let l = left.flat_layout(channel, stream_idx, base + 1);
                let r = right.flat_layout(channel, stream_idx, base + 1 + l.len());
                lemma_layout_len(*left, channel, stream_idx, base + 1);
                lemma_layout_len(*right, channel, stream_idx, base + 1 + l.len());
                assert(seg == seq![FlatMaTreeNode::Decision {
                    property,
                    value,
                    left_idx: (base + 1) as u32,
                    right_idx: (base + 1 + l.len()) as u32,
                }] + l + r);
                assert(nodes.subrange(base + 1, base + 1 + l.len()) =~= l) by {
                    assert forall|k: int| 0 <= k < l.len() implies
                        nodes.subrange(base + 1, base + 1 + l.len())[k] == l[k] by {
                        assert(nodes.subrange(base, base + seg.len())[k + 1] == seg[k + 1]);
                    }
                }
                assert(nodes.subrange(base + 1 + l.len(), base + 1 + l.len() + r.len()) =~= r) by {
                    assert forall|k: int| 0 <= k < r.len() implies
                        nodes.subrange(base + 1 + l.len(), base + 1 + l.len() + r.len())[k] == r[k] by {
                        assert(nodes.subrange(base, base + seg.len())[k + 1 + l.len()] == seg[k + 1 + l.len()]);
                    }
                }
                lemma_layout_lookup(*left, channel, stream_idx, nodes, base + 1, props);
                lemma_layout_lookup(*right, channel, stream_idx, nodes, base + 1 + l.len(), props);
            }
        },
        MaTreeNode::Leaf(_) => {},
    }
}


/// A segment laid out from position 0 that fills the whole array is a
/// well-formed flattened tree.
pub(crate) proof fn lemma_segment_wf(nodes: Seq<FlatMaTreeNode>)
    requires
        nodes.len() > 0,
        segment_ok(nodes, 0),
    ensures
        flat_wf(nodes),
{
    assert forall|k: int| 0 <= k < nodes.len() implies match #[trigger] nodes[k] {
        FlatMaTreeNode::Decision { left_idx, right_idx, .. } => {
            &&& k < left_idx < nodes.len()
            &&& k < right_idx < nodes.len()
        },
        FlatMaTreeNode::Leaf(_) => true,
    } by {
        assert(segment_ok(nodes, 0));
    }
}

/// The sample value that residual symbol `diff` stands for at `leaf`: the
/// signed residual times the leaf's multiplier plus its offset, in
/// wrapping 32-bit arithmetic.
pub open spec fn leaf_sample(leaf: MaTreeLeaf, diff: u32) -> i32 {
    (spec_unpack_signed(diff) as i32).wrapping_mul(leaf.multiplier as i32).wrapping_add(leaf.offset)
}

/// An MA tree flattened for one channel of one stream.
#[derive(Debug)]
pub struct FlatMaTree {
    nodes: Vec<FlatMaTreeNode>,
    need_self_correcting: bool,
}

impl View for FlatMaTree {
    type V = Seq<FlatMaTreeNode>;

    closed spec fn view(&self) -> Seq<FlatMaTreeNode> {
        self.nodes@
    }
}

impl FlatMaTree {
    /// The cached flag says whether some node needs the self-correcting
    /// predictor; this holds of every flat tree.
    #[verifier::type_invariant]
    spec fn flag_matches(&self) -> bool {
        self.need_self_correcting == spec_needs_self_correcting(self.nodes@)
    }

    /// The nodes form a tree that lookups can walk: not empty, and every
    /// child after its parent inside the array.
    pub open spec fn wf(&self) -> bool {
        flat_wf(self@)
    }

    /// Wraps flattened nodes, noting whether any of them needs the
    /// self-correcting predictor.
    pub fn new(nodes: Vec<FlatMaTreeNode>) -> (r: FlatMaTree)
        ensures
            r@ == nodes@,
    {
        let mut need_self_correcting = false;
        let mut i: usize = 0;
        while i < nodes.len()
            invariant
                i <= nodes.len(),
                need_self_correcting == exists|k: int|
                    0 <= k < i && node_needs_self_correcting(#[trigger] nodes@[k]),
            decreases nodes.len() - i,
        {
            let needs = match &nodes[i] {
                FlatMaTreeNode::Decision { property, .. } => *property == 15,
                FlatMaTreeNode::Leaf(leaf) => leaf.predictor.is_self_correcting(),
            };
            if needs {
                need_self_correcting = true;
            }
            i = i + 1;
        }
        FlatMaTree { nodes, need_self_correcting }
    }

    /// The nodes of the tree; node 0 is the root.
    pub fn nodes(&self) -> (r: &Vec<FlatMaTreeNode>)
        ensures
            r@ == self@,
    {
        &self.nodes
    }

    /// Whether decoding with this tree needs the self-correcting
    /// predictor's state.
    pub fn need_self_correcting(&self) -> (r: bool)
        ensures
            r == spec_needs_self_correcting(self@),
    {
        proof {
            use_type_invariant(self);
        }
        self.need_self_correcting
    }

    /// The leaf that a sample with the given properties reaches, or the
    /// error for the first property on its way that it lacks.
    pub fn get_leaf(&self, properties: &Properties) -> (r: Result<&MaTreeLeaf, ModularError>)
        requires
            self.wf(),
        ensures
            match r {
                Ok(leaf) => flat_leaf(self@, 0, properties@) == Ok::<MaTreeLeaf, ModularError>(*leaf),
                Err(e) => flat_leaf(self@, 0, properties@) == Err::<MaTreeLeaf, ModularError>(e),
            },
    {
        let mut cur: usize = 0;
        loop
            invariant
                flat_wf(self.nodes@),
                cur < self.nodes@.len(),
                flat_leaf(self.nodes@, 0, properties@) == flat_leaf(self.nodes@, cur as int, properties@),
            decreases self.nodes@.len() - cur,
        {
            match &self.nodes[cur] {
                FlatMaTreeNode::Decision { property, value, left_idx, right_idx } => {
                    let prop_value = match properties.get(*property as usize) {
                        Ok(v) => v,
                        Err(e) => {
                            return Err(e);
                        },
                    };
                    let next = if prop_value > *value { *left_idx } else { *right_idx };
                    proof {
                        assert(match self.nodes@[cur as int] {
                            FlatMaTreeNode::Decision { left_idx, right_idx, .. } => {
                                &&& cur < left_idx < self.nodes@.len()
                                &&& cur < right_idx < self.nodes@.len()
                            },
                            FlatMaTreeNode::Leaf(_) => true,
                        });
                    }
                    cur = next as usize;
                },
                FlatMaTreeNode::Leaf(leaf) => {
                    return Ok(leaf);
                },
            }
        }
    }

    /// Decodes one sample: finds its leaf, reads the residual symbol with
    /// `read_varint(leaf context, dist_multiplier)`, and scales it by the
    /// leaf's parameters. Returns the sample value and the predictor to
    /// add it to.
    pub fn decode_sample<F: Fn(u32, u32) -> Result<u32, ModularError>>(
        &self,
        properties: &Properties,
        dist_multiplier: u32,
        read_varint: F,
    ) -> (r: Result<(i32, Predictor), ModularError>)
        requires
            self.wf(),
            forall|ctx: u32, dm: u32| call_requires(read_varint, (ctx, dm)),
        ensures
            match flat_leaf(self@, 0, properties@) {
                Err(e) => r == Err::<(i32, Predictor), ModularError>(e),
                Ok(leaf) => exists|read: Result<u32, ModularError>|
                    {
                        &&& call_ensures(read_varint, (leaf.ctx, dist_multiplier), read)
                        &&& r == match read {
                            Ok(diff) => Ok((leaf_sample(leaf, diff), leaf.predictor)),
                            Err(e) => Err(e),
                        }
                    },
            },
    {
        let leaf = match self.get_leaf(properties) {
            Ok(leaf) => leaf,
            Err(e) => {
                return Err(e);
            },
        };
        let read = read_varint(leaf.ctx, dist_multiplier);
        match read {
            Ok(diff) => {
                let v: i32 = unpack_signed(diff).wrapping_mul(leaf.multiplier as i32).wrapping_add(leaf.offset);
                Ok((v, leaf.predictor))
            },
            Err(e) => Err(e),
        }
    }
}


/// Flattening a tree for one channel of one stream keeps the tree's
/// answer: a sample of that channel and stream (property 0 is the channel,
/// property 1 the stream) reaches the same leaf, or the same missing
/// property, in the flattened array as in the tree. The array is a
/// well-formed flat tree, no node of it decides on property 0 or 1, and
/// every leaf of it is a leaf of the tree.
pub proof fn law_flatten_preserves_leaf(
    tree: MaTreeNode,
    channel: u32,
    stream_idx: u32,
    props: Seq<i32>,
    p: spec_fn(MaTreeLeaf) -> bool,
)
    requires
        tree.size() <= u32::MAX,
        props.len() >= 2,
        props[0] == channel as i32,
        props[1] == stream_idx as i32,
    ensures
        flat_leaf(tree.flat_layout(channel, stream_idx, 0), 0, props) == tree.spec_leaf(props),
        flat_wf(tree.flat_layout(channel, stream_idx, 0)),
        segment_ok(tree.flat_layout(channel, stream_idx, 0), 0),
        tree.all_leaves(p) ==> flat_all_leaves(tree.flat_layout(channel, stream_idx, 0), p),
{
    let layout = tree.flat_layout(channel, stream_idx, 0);
    lemma_layout_len(tree, channel, stream_idx, 0);
    lemma_layout_segment_ok(tree, channel, stream_idx, 0);
    lemma_segment_wf(layout);
    assert(layout.subrange(0, layout.len() as int) =~= layout);
    lemma_layout_lookup(tree, channel, stream_idx, layout, 0, props);
    if tree.all_leaves(p) {
        lemma_layout_leaves(tree, channel, stream_idx, 0, p);
    }
}


/// The sample value that a residual symbol gives at a leaf (what
/// `decode_sample` returns for it) is the symbol's zigzag value times the
/// leaf's multiplier plus its offset, taken modulo 2^32 as 32-bit integers
/// wrap; where that sum fits in an `i32` it is the sample value itself.
/// In particular residual symbol 0 gives the leaf's offset.
pub proof fn law_leaf_sample_value(leaf: MaTreeLeaf, diff: u32, u: int)
    requires
        zigzag(diff, u),
        leaf.multiplier <= i32::MAX,
    ensures
        (leaf_sample(leaf, diff) - (u * leaf.multiplier + leaf.offset)) % 0x1_0000_0000 == 0,
        i32::MIN <= u * leaf.multiplier + leaf.offset <= i32::MAX ==> leaf_sample(leaf, diff) == u
            * leaf.multiplier + leaf.offset,
        diff == 0 ==> leaf_sample(leaf, diff) == leaf.offset,
{
    law_unpack_signed_is_zigzag(diff, u);
    let ui = spec_unpack_signed(diff) as i32;
    let mi = leaf.multiplier as i32;
    assert(ui as int == u);
    assert(mi as int == leaf.multiplier as int);
    let x: int = ui * mi;
    assert(x == u * leaf.multiplier);
    vstd::arithmetic::div_mod::lemma_fundamental_div_mod(x, 0x1_0000_0000);
    let q: int = x / 0x1_0000_0000;
    let rr: int = x % 0x1_0000_0000;
    let c: i32 = vstd::wrapping::i32_specs::wrapping_mul(ui, mi);
    assert(c == ui.wrapping_mul(mi));
    let e1: int = if rr > i32::MAX { -1 } else { 0 };
    assert(c as int == x - 0x1_0000_0000 * q + 0x1_0000_0000 * e1);
    let r: i32 = leaf_sample(leaf, diff);
    assert(r == vstd::wrapping::i32_specs::wrapping_add(c, leaf.offset));
    let sum: int = c + leaf.offset;
    let e2: int = if sum > i32::MAX { -1 } else if sum < i32::MIN { 1 } else { 0 };
    assert(r as int == sum + 0x1_0000_0000 * e2);
    let k: int = e1 + e2 - q;
    assert(r - (x + leaf.offset) == k * 0x1_0000_0000);
    vstd::arithmetic::div_mod::lemma_mod_multiples_basic(k, 0x1_0000_0000);
    if diff == 0 {
        assert(u == 0);
        assert(x == 0) by (nonlinear_arith)
            requires
                ui as int == 0,
                x == ui * mi,
        ;
    }
}


/// A flat tree needs the self-correcting predictor's state exactly when
/// one of its nodes decides on property 15 (the predictor's maximum error)
/// or is a leaf that predicts with it. Adding a decision on any other
/// property, or a leaf with another predictor, never changes the answer.
pub proof fn law_self_correcting_need(nodes: Seq<FlatMaTreeNode>, extra: FlatMaTreeNode)
    ensures
        spec_needs_self_correcting(nodes) <==> exists|k: int|
            0 <= k < nodes.len() && match #[trigger] nodes[k] {
                FlatMaTreeNode::Decision { property: p, .. } => p == 15,
                FlatMaTreeNode::Leaf(leaf) => leaf.predictor == Predictor::SelfCorrecting,
            },
        (match extra {
            FlatMaTreeNode::Decision { property: p, .. } => p != 15,
            FlatMaTreeNode::Leaf(leaf) => leaf.predictor != Predictor::SelfCorrecting,
        }) ==> spec_needs_self_correcting(nodes.push(extra)) == spec_needs_self_correcting(nodes),
{
    let pushed = nodes.push(extra);
    assert forall|k: int| 0 <= k < nodes.len() implies pushed[k] == nodes[k] by {}
    if spec_needs_self_correcting(pushed) {
        let k = choose|k: int| 0 <= k < pushed.len() && node_needs_self_correcting(#[trigger] pushed[k]);
        if k < nodes.len() {
            assert(node_needs_self_correcting(nodes[k]));
        }
    }
    if spec_needs_self_correcting(nodes) {
        let k = choose|k: int| 0 <= k < nodes.len() && node_needs_self_correcting(#[trigger] nodes[k]);
        assert(node_needs_self_correcting(pushed[k]));
    }
}


/// At a decision, a sample goes to the left child exactly when its value
/// of the decision's property is greater than the threshold; a value equal
/// to the threshold, or below it, goes right.
pub proof fn law_decision_branches(property: u32, value: i32, left: MaTreeNode, right: MaTreeNode, props: Seq<i32>)
    requires
        property < props.len(),
    ensures
        props[property as int] > value ==> (MaTreeNode::Decision {
            property,
            value,
            left: Box::new(left),
            right: Box::new(right),
        }).spec_leaf(props) == left.spec_leaf(props),
        props[property as int] <= value ==> (MaTreeNode::Decision {
            property,
            value,
            left: Box::new(left),
            right: Box::new(right),
        }).spec_leaf(props) == right.spec_leaf(props),
{
}

/// The same holds of a flattened tree: at a decision node, a sample whose
/// property value is greater than the threshold continues at `left_idx`,
/// any other at `right_idx`.
pub proof fn law_flat_decision_branches(
    nodes: Seq<FlatMaTreeNode>,
    i: int,
    property: u32,
    value: i32,
    left_idx: u32,
    right_idx: u32,
    props: Seq<i32>,
)
    requires
        0 <= i < nodes.len(),
        nodes[i] == (FlatMaTreeNode::Decision { property, value, left_idx, right_idx }),
        i < left_idx < nodes.len(),
        i < right_idx < nodes.len(),
        property < props.len(),
    ensures
        props[property as int] > value ==> flat_leaf(nodes, i, props) == flat_leaf(nodes, left_idx as int, props),
        props[property as int] <= value ==> flat_leaf(nodes, i, props) == flat_leaf(nodes, right_idx as int, props),
{
}

} // verus!

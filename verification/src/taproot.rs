//! The taproot tree of an escrow: a tree balanced by weight, and its leaves in a
//! `TaprootBuilder`.

use bitcoin::taproot::{TaprootBuilder, TaprootBuilderError, TaprootSpendInfo};
use vstd::multiset::Multiset;
use vstd::prelude::*;

use crate::bytes::copy_bytes;
use crate::keys::is_x_only_key;

verus! {

// -- Trees --

/// A binary tree with a script at each leaf.
pub enum ScriptTree {
    Leaf(Seq<u8>),
    Branch(Box<ScriptTree>, Box<ScriptTree>),
}

/// The leaves of a tree from left to right, each with its depth, where the root
/// has depth `depth`.
pub open spec fn leaves_at(tree: ScriptTree, depth: nat) -> Seq<(nat, Seq<u8>)>
    decreases tree,
{
    match tree {
        ScriptTree::Leaf(script) => seq![(depth, script)],
        ScriptTree::Branch(left, right) => leaves_at(*left, depth + 1) + leaves_at(
            *right,
            depth + 1,
        ),
    }
}

/// The number of branches on the longest path from the root to a leaf.
pub open spec fn height(tree: ScriptTree) -> nat
    decreases tree,
{
    match tree {
        ScriptTree::Leaf(_) => 0,
        ScriptTree::Branch(left, right) => if height(*left) >= height(*right) {
            height(*left) + 1
        } else {
            height(*right) + 1
        },
    }
}

/// Whether `leaves` lists, from left to right, all leaves of a tree that taproot
/// can hold.
pub open spec fn fills_a_tree(leaves: Seq<(nat, Seq<u8>)>) -> bool {
    exists|tree: ScriptTree| #[trigger] leaves_at(tree, 0) == leaves && height(tree) <= 128
}

/// Whether `leaves` lists the first leaves of a tree that taproot can hold.
pub open spec fn starts_a_tree(leaves: Seq<(nat, Seq<u8>)>) -> bool {
    exists|tree: ScriptTree|
        leaves.is_prefix_of(#[trigger] leaves_at(tree, 0)) && height(tree) <= 128
}

/// What comes before the end of something that starts a tree starts a tree.
proof fn lemma_prefix_starts_a_tree(
    leaves: Seq<(nat, Seq<u8>)>,
    longer: Seq<(nat, Seq<u8>)>,
)
    requires
        leaves.is_prefix_of(longer),
        starts_a_tree(longer),
    ensures
        starts_a_tree(leaves),
{
    let tree = choose|tree: ScriptTree|
        longer.is_prefix_of(#[trigger] leaves_at(tree, 0)) && height(tree) <= 128;
    let all = leaves_at(tree, 0);
    assert(leaves =~= all.subrange(0, leaves.len() as int));
}

// -- Combining by weight --

/// A tree with its weight.
pub struct Weighted {
    pub tree: ScriptTree,
    pub weight: nat,
}

/// `sorted` with `node` put behind everything that is at least as heavy.
pub open spec fn insert_by_weight(sorted: Seq<Weighted>, node: Weighted) -> Seq<Weighted>
    decreases sorted.len(),
{
    if sorted.len() == 0 || sorted.last().weight >= node.weight {
        sorted.push(node)
    } else {
        insert_by_weight(sorted.drop_last(), node).push(sorted.last())
    }
}

/// `nodes` from the heaviest to the lightest; nodes of one weight keep their
/// order.
pub open spec fn by_weight(nodes: Seq<Weighted>) -> Seq<Weighted>
    decreases nodes.len(),
{
    if nodes.len() == 0 {
        Seq::empty()
    } else {
        insert_by_weight(by_weight(nodes.drop_last()), nodes.last())
    }
}

/// `nodes` with the two lightest made into one branch.
pub open spec fn combine_lightest(nodes: Seq<Weighted>) -> Seq<Weighted> {
    let sorted = by_weight(nodes);
    let a = sorted[sorted.len() - 2];
    let b = sorted[sorted.len() - 1];
    sorted.take(sorted.len() - 2).push(
        Weighted {
            tree: ScriptTree::Branch(Box::new(a.tree), Box::new(b.tree)),
            weight: a.weight + b.weight,
        },
    )
}

/// The tree that is left when the two lightest nodes are combined until one node
/// remains.
pub open spec fn combined(nodes: Seq<Weighted>) -> ScriptTree
    decreases nodes.len(),
{
    if nodes.len() <= 1 {
        nodes[0].tree
    } else {
        proof {
            lemma_by_weight_len(nodes);
        }
        combined(combine_lightest(nodes))
    }
}

/// One leaf of weight 1 for each script.
pub open spec fn equal_leaves(scripts: Seq<Seq<u8>>) -> Seq<Weighted> {
    Seq::new(
        scripts.len(),
        |i: int| Weighted { tree: ScriptTree::Leaf(scripts[i]), weight: 1 },
    )
}

/// The tree of `scripts`, balanced with equal weights.
pub open spec fn balanced_tree(scripts: Seq<Seq<u8>>) -> ScriptTree {
    combined(equal_leaves(scripts))
}

/// The sum of the weights.
pub open spec fn total_weight(nodes: Seq<Weighted>) -> nat
    decreases nodes.len(),
{
    if nodes.len() == 0 {
        0
    } else {
        total_weight(nodes.drop_last()) + nodes.last().weight
    }
}

proof fn lemma_insert_by_weight(sorted: Seq<Weighted>, node: Weighted)
    ensures
        insert_by_weight(sorted, node).len() == sorted.len() + 1,
        total_weight(insert_by_weight(sorted, node)) == total_weight(sorted) + node.weight,
        insert_by_weight(sorted, node).to_multiset() == sorted.to_multiset().insert(node),
    decreases sorted.len(),
{
    broadcast use vstd::seq_lib::group_to_multiset_ensures;

    if sorted.len() == 0 || sorted.last().weight >= node.weight {
        assert(sorted.push(node).drop_last() =~= sorted);
    } else {
        let rest = insert_by_weight(sorted.drop_last(), node);
        lemma_insert_by_weight(sorted.drop_last(), node);
        assert(rest.push(sorted.last()).drop_last() =~= rest);
        assert(sorted.drop_last().push(sorted.last()) =~= sorted);
        assert(rest.push(sorted.last()).to_multiset() =~= sorted.to_multiset().insert(node));
    }
}

/// Ordering by weight keeps the number of nodes and the sum of their weights.
pub proof fn lemma_by_weight_len(nodes: Seq<Weighted>)
    ensures
        by_weight(nodes).len() == nodes.len(),
        total_weight(by_weight(nodes)) == total_weight(nodes),
    decreases nodes.len(),
{
    if nodes.len() > 0 {
        lemma_by_weight_len(nodes.drop_last());
        lemma_insert_by_weight(by_weight(nodes.drop_last()), nodes.last());
    }
}

/// Ordering by weight loses no node and adds none.
pub proof fn lemma_by_weight_keeps_nodes(nodes: Seq<Weighted>)
    ensures
        by_weight(nodes).to_multiset() == nodes.to_multiset(),
    decreases nodes.len(),
{
    broadcast use vstd::seq_lib::group_to_multiset_ensures;

    if nodes.len() > 0 {
        lemma_by_weight_keeps_nodes(nodes.drop_last());
        lemma_insert_by_weight(by_weight(nodes.drop_last()), nodes.last());
        assert(nodes.drop_last().push(nodes.last()) =~= nodes);
    } else {
        assert(by_weight(nodes) =~= nodes);
    }
}

/// Whether the weights never increase from left to right.
pub open spec fn is_by_weight(nodes: Seq<Weighted>) -> bool {
    forall|i: int, j: int| 0 <= i <= j < nodes.len() ==> nodes[i].weight >= nodes[j].weight
}

proof fn lemma_insert_keeps_order(sorted: Seq<Weighted>, node: Weighted)
    requires
        is_by_weight(sorted),
    ensures
        is_by_weight(insert_by_weight(sorted, node)),
        forall|i: int|
            0 <= i <= sorted.len() ==> {
                ||| (#[trigger] insert_by_weight(sorted, node)[i]).weight <= node.weight
                ||| sorted.len() > 0 && insert_by_weight(sorted, node)[i].weight
                    <= sorted[0].weight
            },
        forall|i: int|
            0 <= i <= sorted.len() ==> {
                ||| (#[trigger] insert_by_weight(sorted, node)[i]).weight >= node.weight
                ||| sorted.len() > 0 && insert_by_weight(sorted, node)[i].weight
                    >= sorted.last().weight
            },
    decreases sorted.len(),
{
    lemma_insert_by_weight(sorted, node);
    if sorted.len() == 0 || sorted.last().weight >= node.weight {
    } else {
        lemma_insert_by_weight(sorted.drop_last(), node);
        lemma_insert_keeps_order(sorted.drop_last(), node);
    }
}

/// Ordering by weight leaves the weights in descending order.
pub proof fn lemma_by_weight_descends(nodes: Seq<Weighted>)
    ensures
        is_by_weight(by_weight(nodes)),
    decreases nodes.len(),
{
    if nodes.len() > 0 {
        lemma_by_weight_descends(nodes.drop_last());
        lemma_insert_keeps_order(by_weight(nodes.drop_last()), nodes.last());
    }
}

/// Where a node goes when it is put among heavier and lighter ones.
proof fn lemma_insert_at(sorted: Seq<Weighted>, node: Weighted, at: int)
    requires
        0 <= at <= sorted.len(),
        at > 0 ==> sorted[at - 1].weight >= node.weight,
        forall|i: int| at <= i < sorted.len() ==> sorted[i].weight < node.weight,
    ensures
        insert_by_weight(sorted, node) == sorted.insert(at, node),
    decreases sorted.len(),
{
    if at == sorted.len() {
        assert(sorted.push(node) =~= sorted.insert(at, node));
    } else {
        assert(sorted.last().weight < node.weight);
        lemma_insert_at(sorted.drop_last(), node, at);
        assert(sorted.drop_last().insert(at, node).push(sorted.last()) =~= sorted.insert(at, node));
    }
}

/// Nodes whose weights descend are in order already.
proof fn lemma_in_order(nodes: Seq<Weighted>)
    requires
        is_by_weight(nodes),
    ensures
        by_weight(nodes) == nodes,
    decreases nodes.len(),
{
    if nodes.len() > 0 {
        let rest = nodes.drop_last();
        lemma_in_order(rest);
        if rest.len() > 0 {
            assert(rest.last().weight >= nodes.last().weight);
        }
        assert(rest.push(nodes.last()) =~= nodes);
    } else {
        assert(by_weight(nodes) =~= nodes);
    }
}

/// Nodes in order but for the last one, which belongs at `at`.
proof fn lemma_last_out_of_order(nodes: Seq<Weighted>, at: int)
    requires
        nodes.len() > 0,
        is_by_weight(nodes.drop_last()),
        0 <= at < nodes.len(),
        at > 0 ==> nodes[at - 1].weight >= nodes.last().weight,
        forall|i: int| at <= i < nodes.len() - 1 ==> nodes[i].weight < nodes.last().weight,
    ensures
        by_weight(nodes) == nodes.drop_last().insert(at, nodes.last()),
{
    lemma_in_order(nodes.drop_last());
    lemma_insert_at(nodes.drop_last(), nodes.last(), at);
}

/// A branch of two trees.
pub open spec fn branch(left: ScriptTree, right: ScriptTree) -> ScriptTree {
    ScriptTree::Branch(Box::new(left), Box::new(right))
}

/// Six scripts make a tree in which the first four leaves have depth 3 and the
/// last two depth 2.
pub proof fn lemma_balanced_six(scripts: Seq<Seq<u8>>)
    requires
        scripts.len() == 6,
    ensures
        balanced_tree(scripts) == branch(
            branch(
                branch(ScriptTree::Leaf(scripts[2]), ScriptTree::Leaf(scripts[3])),
                branch(ScriptTree::Leaf(scripts[0]), ScriptTree::Leaf(scripts[1])),
            ),
            branch(ScriptTree::Leaf(scripts[4]), ScriptTree::Leaf(scripts[5])),
        ),
        leaves_at(balanced_tree(scripts), 0) == seq![
            (3nat, scripts[2]),
            (3nat, scripts[3]),
            (3nat, scripts[0]),
            (3nat, scripts[1]),
            (2nat, scripts[4]),
            (2nat, scripts[5]),
        ],
        height(balanced_tree(scripts)) == 3,
{
    let leaf = |i: int| Weighted { tree: ScriptTree::Leaf(scripts[i]), weight: 1 };
    let pair = |a: Weighted, b: Weighted| Weighted {
        tree: branch(a.tree, b.tree),
        weight: a.weight + b.weight,
    };
    let n0 = equal_leaves(scripts);
    let b56 = pair(leaf(4), leaf(5));
    let b34 = pair(leaf(2), leaf(3));
    let b12 = pair(leaf(0), leaf(1));
    let b3412 = pair(b34, b12);
    let root = pair(b3412, b56);

    let n1 = seq![leaf(0), leaf(1), leaf(2), leaf(3), b56];
    assert(combine_lightest(n0) =~= n1) by {
        lemma_in_order(n0);
    }
    let n2 = seq![b56, leaf(0), leaf(1), b34];
    assert(combine_lightest(n1) =~= n2) by {
        lemma_last_out_of_order(n1, 0);
    }
    let n3 = seq![b56, b34, b12];
    assert(combine_lightest(n2) =~= n3) by {
        lemma_last_out_of_order(n2, 1);
    }
    let n4 = seq![b56, b3412];
    assert(combine_lightest(n3) =~= n4) by {
        lemma_in_order(n3);
    }
    let n5 = seq![root];
    assert(combine_lightest(n4) =~= n5) by {
        lemma_last_out_of_order(n4, 0);
    }
    assert(combined(n5) == root.tree);
    assert(combined(n4) == root.tree);
    assert(combined(n3) == root.tree);
    assert(combined(n2) == root.tree);
    assert(combined(n1) == root.tree);
    assert(combined(n0) == root.tree);
    reveal_with_fuel(leaves_at, 4);
    reveal_with_fuel(height, 4);
    assert(leaves_at(root.tree, 0) =~= seq![
        (3nat, scripts[2]),
        (3nat, scripts[3]),
        (3nat, scripts[0]),
        (3nat, scripts[1]),
        (2nat, scripts[4]),
        (2nat, scripts[5]),
    ]);
}

// -- Building the tree --

/// A node of the tree while it is built.
pub enum TreeNode {
    Leaf { script: Vec<u8>, weight: u32 },
    Branch { left: Box<TreeNode>, right: Box<TreeNode>, weight: u32 },
}

impl TreeNode {
    /// The scripts of the node as a tree.
    pub open spec fn tree(self) -> ScriptTree
        decreases self,
    {
        match self {
            TreeNode::Leaf { script, .. } => ScriptTree::Leaf(script@),
            TreeNode::Branch { left, right, .. } => branch(left.tree(), right.tree()),
        }
    }

    /// The weight that the node carries.
    pub open spec fn spec_weight(self) -> u32 {
        match self {
            TreeNode::Leaf { weight, .. } => weight,
            TreeNode::Branch { weight, .. } => weight,
        }
    }

    /// The weight of the node.
    pub fn weight(&self) -> (weight: u32)
        ensures
            weight == self.spec_weight(),
    {
        match self {
            TreeNode::Leaf { weight, .. } => *weight,
            TreeNode::Branch { weight, .. } => *weight,
        }
    }
}

impl View for TreeNode {
    type V = Weighted;

    open spec fn view(&self) -> Weighted {
        Weighted { tree: self.tree(), weight: self.spec_weight() as nat }
    }
}

/// The nodes of a list as weighted trees.
pub open spec fn weighted(nodes: Seq<TreeNode>) -> Seq<Weighted> {
    nodes.map_values(|node: TreeNode| node@)
}

/// Puts `node` into `sorted` behind everything that is at least as heavy.
fn insert_node(sorted: &mut Vec<TreeNode>, node: TreeNode)
    ensures
        weighted(final(sorted)@) == insert_by_weight(weighted(old(sorted)@), node@),
{
    let mut at: usize = sorted.len();
    while at > 0 && sorted[at - 1].weight() < node.weight()
        invariant
            at <= sorted.len(),
            forall|i: int| at <= i < sorted.len() ==> sorted@[i].spec_weight() < node.spec_weight(),
        decreases at,
    {
        at = at - 1;
    }
    proof {
        lemma_insert_at(weighted(sorted@), node@, at as int);
        assert(weighted(sorted@.insert(at as int, node)) =~= weighted(sorted@).insert(
            at as int,
            node@,
        ));
    }
    sorted.insert(at, node);
}

/// Orders nodes from the heaviest to the lightest; nodes of one weight keep their
/// order.
fn sort_by_weight(nodes: Vec<TreeNode>) -> (sorted: Vec<TreeNode>)
    ensures
        weighted(sorted@) == by_weight(weighted(nodes@)),
{
    let ghost all = nodes@;
    let mut rest = nodes;
    let mut sorted: Vec<TreeNode> = Vec::new();
    let ghost mut done: int = 0;
    assert(weighted(sorted@) =~= by_weight(weighted(all.take(0))));
    while rest.len() > 0
        invariant
            0 <= done <= all.len(),
            rest@ == all.skip(done),
            weighted(sorted@) == by_weight(weighted(all.take(done))),
        decreases rest.len(),
    {
        let node = rest.remove(0);
        proof {
            let next = weighted(all.take(done + 1));
            assert(next.drop_last() =~= weighted(all.take(done)));
            assert(next.last() == node@);
            assert(rest@ =~= all.skip(done + 1));
            done = done + 1;
        }
        insert_node(&mut sorted, node);
    }
    assert(all.take(done) =~= all);
    sorted
}

/// Combines the two lightest nodes until one is left.
pub fn combine_nodes(nodes: Vec<TreeNode>) -> (root: TreeNode)
    requires
        nodes.len() >= 1,
        total_weight(weighted(nodes@)) <= u32::MAX,
    ensures
        root.tree() == combined(weighted(nodes@)),
{
    let ghost start = weighted(nodes@);
    let mut nodes = nodes;
    while nodes.len() >= 2
        invariant
            nodes.len() >= 1,
            total_weight(weighted(nodes@)) <= u32::MAX,
            combined(weighted(nodes@)) == combined(start),
        decreases nodes.len(),
    {
        let ghost before = weighted(nodes@);
        let mut sorted = sort_by_weight(nodes);
        let ghost in_order = weighted(sorted@);
        proof {
            lemma_by_weight_len(before);
        }
        let b = sorted.pop().unwrap();
        let a = sorted.pop().unwrap();
        proof {
            let n = in_order.len() as int;
            assert(weighted(sorted@) =~= in_order.take(n - 2));
            assert(in_order[n - 1] == b@ && in_order[n - 2] == a@);
            assert(in_order.drop_last().drop_last() =~= in_order.take(n - 2));
            reveal_with_fuel(total_weight, 3);
        }
        let weight: u32 = a.weight() + b.weight();
        let ghost rest = sorted@;
        sorted.push(TreeNode::Branch { left: Box::new(a), right: Box::new(b), weight });
        nodes = sorted;
        proof {
            let after = weighted(nodes@);
            assert(after =~= combine_lightest(before));
            assert(after.drop_last() =~= weighted(rest));
        }
    }
    nodes.pop().unwrap()
}

/// The tree of `scripts`, all of equal weight.
pub fn build_tree(scripts: Vec<Vec<u8>>) -> (root: TreeNode)
    requires
        1 <= scripts.len() <= u32::MAX,
    ensures
        root.tree() == balanced_tree(scripts@.map_values(|s: Vec<u8>| s@)),
{
    let ghost views = scripts@.map_values(|s: Vec<u8>| s@);
    let mut nodes: Vec<TreeNode> = Vec::new();
    let mut i: usize = 0;
    while i < scripts.len()
        invariant
            i <= scripts.len() <= u32::MAX,
            views == scripts@.map_values(|s: Vec<u8>| s@),
            weighted(nodes@) == equal_leaves(views).take(i as int),
            total_weight(weighted(nodes@)) == i,
        decreases scripts.len() - i,
    {
        let ghost before = weighted(nodes@);
        nodes.push(TreeNode::Leaf { script: copy_bytes(scripts[i].as_slice()), weight: 1 });
        proof {
            let after = weighted(nodes@);
            assert(after.drop_last() =~= before);
            assert(after =~= equal_leaves(views).take(i + 1));
        }
        i = i + 1;
    }
    assert(equal_leaves(views).take(i as int) =~= equal_leaves(views));
    combine_nodes(nodes)
}

// -- The builder --

/// `bitcoin::taproot::TaprootBuilder`: the leaves that were added so far.
#[verifier::external_type_specification]
#[verifier::external_body]
pub struct ExTaprootBuilder(TaprootBuilder);

/// `bitcoin::taproot::TaprootBuilderError`.
#[verifier::external_type_specification]
#[verifier::external_body]
pub struct ExTaprootBuilderError(TaprootBuilderError);

/// `bitcoin::taproot::TaprootSpendInfo`: the output key of a finished tree, and a
/// control block for each of its leaves.
#[verifier::external_type_specification]
#[verifier::external_body]
pub struct ExTaprootSpendInfo(TaprootSpendInfo);

/// The leaves that a builder holds, each with its depth, in the order in which
/// they were added.
pub uninterp spec fn builder_leaves(builder: TaprootBuilder) -> Seq<(nat, Seq<u8>)>;

/// The control blocks of a finished tree, by leaf script.
pub uninterp spec fn spend_info_blocks(info: TaprootSpendInfo) -> Map<Seq<u8>, Seq<u8>>;

/// The output key of a finished tree.
pub uninterp spec fn spend_info_key(info: TaprootSpendInfo) -> Seq<u8>;

/// The output key that `TaprootBuilder::finalize` computes.
pub uninterp spec fn taproot_output_key(
    leaves: Seq<(nat, Seq<u8>)>,
    internal_key: Seq<u8>,
) -> Seq<u8>;

/// The control blocks that `TaprootSpendInfo::control_block` gives for the leaves
/// of a finished tree.
pub uninterp spec fn taproot_control_blocks(
    leaves: Seq<(nat, Seq<u8>)>,
    internal_key: Seq<u8>,
) -> Map<Seq<u8>, Seq<u8>>;

/// The scripts of a list of leaves.
pub open spec fn leaf_scripts(leaves: Seq<(nat, Seq<u8>)>) -> Set<Seq<u8>> {
    leaves.map_values(|leaf: (nat, Seq<u8>)| leaf.1).to_set()
}

/// Calls `bitcoin::taproot::TaprootBuilder::new`.
///
/// Claimed of it: a new builder holds no leaf.
#[verifier::external_body]
fn new_builder() -> (builder: TaprootBuilder)
    ensures
        builder_leaves(builder) == Seq::<(nat, Seq<u8>)>::empty(),
{
    TaprootBuilder::new()
}

/// Calls `bitcoin::taproot::TaprootBuilder::add_leaf`.
///
/// Claimed of it: it takes every leaf that comes next in some tree of at most 128
/// levels when leaves are listed from left to right, and a leaf that it takes
/// stands behind those it held.
#[verifier::external_body]
fn add_leaf(builder: TaprootBuilder, depth: u8, script: Vec<u8>) -> (longer: Result<
    TaprootBuilder,
    TaprootBuilderError,
>)
    ensures
        starts_a_tree(builder_leaves(builder).push((depth as nat, script@))) ==> longer is Ok,
        longer matches Ok(b) ==> builder_leaves(b) == builder_leaves(builder).push(
            (depth as nat, script@),
        ),
{
    builder.add_leaf(depth, bitcoin::ScriptBuf::from(script))
}

/// Calls `bitcoin::taproot::TaprootBuilder::finalize`.
///
/// Claimed of it: it finishes every tree whose leaves are all there. The output
/// key and the control blocks are determined by the leaves and the internal key,
/// and exactly the scripts that were added have a control block.
#[verifier::external_body]
fn finalize(builder: TaprootBuilder, internal_key: [u8; 32]) -> (info: Result<
    TaprootSpendInfo,
    TaprootBuilder,
>)
    requires
        is_x_only_key(internal_key@),
    ensures
        fills_a_tree(builder_leaves(builder)) ==> info is Ok,
        info matches Ok(i) ==> {
            &&& spend_info_key(i) == taproot_output_key(builder_leaves(builder), internal_key@)
            &&& spend_info_blocks(i) == taproot_control_blocks(
                builder_leaves(builder),
                internal_key@,
            )
            &&& spend_info_blocks(i).dom() == leaf_scripts(builder_leaves(builder))
        },
{
    let key = bitcoin::XOnlyPublicKey::from_slice(&internal_key).expect("an x-only key");
    builder.finalize(&bitcoin::secp256k1::Secp256k1::new(), key)
}

/// Calls `bitcoin::taproot::TaprootSpendInfo::output_key`.
///
/// Claimed of it: it gives the output key of the tree, which is an x-only key.
#[verifier::external_body]
pub(crate) fn output_key(info: &TaprootSpendInfo) -> (key: [u8; 32])
    ensures
        key@ == spend_info_key(*info),
        is_x_only_key(key@),
{
    info.output_key().serialize()
}

/// Whether `bytes` is a control block of a tapscript leaf, as
/// `bitcoin::taproot::ControlBlock::decode` reads it.
pub uninterp spec fn is_control_block(bytes: Seq<u8>) -> bool;

/// Whether a control block proves that a tree with this output key holds a script,
/// as `bitcoin::taproot::ControlBlock::verify_taproot_commitment` decides it.
pub uninterp spec fn commits(block: Seq<u8>, output_key: Seq<u8>, script: Seq<u8>) -> bool;

/// Calls `bitcoin::taproot::TaprootSpendInfo::control_block` for a tapscript leaf.
///
/// Claimed of it: it gives the control block of a script of the tree, and none for
/// another script. The control block proves that the tree with this output key holds
/// the script.
#[verifier::external_body]
pub(crate) fn control_block(info: &TaprootSpendInfo, script: &[u8]) -> (block: Option<Vec<u8>>)
    ensures
        block is Some <==> spend_info_blocks(*info).dom().contains(script@),
        block matches Some(b) ==> b@ == spend_info_blocks(*info)[script@] && is_control_block(b@),
        block matches Some(b) ==> commits(b@, spend_info_key(*info), script@),
{
    let script = bitcoin::ScriptBuf::from_bytes(script.to_vec());
    let leaf = (script, bitcoin::taproot::LeafVersion::TapScript);
    info.control_block(&leaf).map(|block| block.serialize())
}

/// Calls `clone` on a `bitcoin::taproot::TaprootSpendInfo`.
///
/// Claimed of it: the copy has the same output key and control blocks.
#[verifier::external_body]
pub(crate) fn clone_spend_info(info: &TaprootSpendInfo) -> (copy: TaprootSpendInfo)
    ensures
        spend_info_key(copy) == spend_info_key(*info),
        spend_info_blocks(copy) == spend_info_blocks(*info),
{
    info.clone()
}

/// The x coordinate of the point that nobody knows the secret key of.
pub open spec fn unspendable_key_bytes() -> Seq<u8> {
    seq![
        0x50u8, 0x92, 0x9b, 0x74, 0xc1, 0xa0, 0x49, 0x54, 0xb7, 0x8b, 0x4b, 0x60, 0x35, 0xe9, 0x7a,
        0x5e, 0x07, 0x8a, 0x5a, 0x0f, 0x28, 0xec, 0x96, 0xd5, 0x47, 0xbf, 0xee, 0x9a, 0xce, 0x80,
        0x3a, 0xc0,
    ]
}

/// Reads `ark_core::UNSPENDABLE_KEY` with `bitcoin::PublicKey::from_str`.
///
/// Claimed of it: the constant is a public key with these bytes as its x
/// coordinate.
#[verifier::external_body]
fn unspendable_key() -> (key: [u8; 32])
    ensures
        key@ == unspendable_key_bytes(),
        is_x_only_key(key@),
{
    let key: bitcoin::PublicKey = ark_core::UNSPENDABLE_KEY.parse().expect("a public key");
    bitcoin::XOnlyPublicKey::from(key).serialize()
}

/// Why a tree could not be finished.
#[derive(Clone, Copy, Debug, PartialEq, Eq, Structural)]
pub enum TreeError {
    /// A leaf was not taken at this depth.
    Leaf(u8),
    /// The leaves do not make a whole tree.
    Unfinished,
}

/// Adds the leaves of `node`, whose root has depth `depth`, to a builder.
fn add_to_builder(builder: TaprootBuilder, node: &TreeNode, depth: u8) -> (longer: Result<
    TaprootBuilder,
    TreeError,
>)
    requires
        depth + height(node.tree()) <= u8::MAX,
    ensures
        starts_a_tree(builder_leaves(builder) + leaves_at(node.tree(), depth as nat))
            ==> longer is Ok,
        longer matches Ok(b) ==> builder_leaves(b) == builder_leaves(builder) + leaves_at(
            node.tree(),
            depth as nat,
        ),
    decreases node,
{
    let ghost before = builder_leaves(builder);
    match node {
        TreeNode::Leaf { script, .. } => {
            assert(before.push((depth as nat, script@)) =~= before + leaves_at(
                node.tree(),
                depth as nat,
            ));
            match add_leaf(builder, depth, copy_bytes(script.as_slice())) {
                Ok(longer) => Ok(longer),
                Err(_) => Err(TreeError::Leaf(depth)),
            }
        },
        TreeNode::Branch { left, right, .. } => {
            let ghost first = leaves_at(left.tree(), depth as nat + 1);
            let ghost second = leaves_at(right.tree(), depth as nat + 1);
            proof {
                assert(before + leaves_at(node.tree(), depth as nat) =~= (before + first) + second);
                if starts_a_tree(before + leaves_at(node.tree(), depth as nat)) {
                    lemma_prefix_starts_a_tree(
                        before + first,
                        before + leaves_at(node.tree(), depth as nat),
                    );
                }
            }
            match add_to_builder(builder, left, depth + 1) {
                Ok(longer) => add_to_builder(longer, right, depth + 1),
                Err(error) => Err(error),
            }
        },
    }
}

/// The spend info of a tree under the unspendable internal key.
pub fn finish_tree(root: &TreeNode) -> (info: Result<TaprootSpendInfo, TreeError>)
    requires
        height(root.tree()) <= u8::MAX,
    ensures
        height(root.tree()) <= 128 ==> info is Ok,
        info matches Ok(i) ==> {
            let leaves = leaves_at(root.tree(), 0);
            &&& spend_info_key(i) == taproot_output_key(leaves, unspendable_key_bytes())
            &&& spend_info_blocks(i) == taproot_control_blocks(leaves, unspendable_key_bytes())
            &&& spend_info_blocks(i).dom() == leaf_scripts(leaves)
        },
{
    let builder = new_builder();
    proof {
        let leaves = leaves_at(root.tree(), 0);
        assert(builder_leaves(builder) + leaves =~= leaves);
        assert(leaves.is_prefix_of(leaves_at(root.tree(), 0)));
    }
    match add_to_builder(builder, root, 0) {
        Ok(full) => match finalize(full, unspendable_key()) {
            Ok(info) => Ok(info),
            Err(_) => Err(TreeError::Unfinished),
        },
        Err(error) => Err(error),
    }
}

// -- What holds of every tree --

/// The scripts at the leaves of a tree, with how often each is there.
pub open spec fn script_bag(tree: ScriptTree) -> Multiset<Seq<u8>>
    decreases tree,
{
    match tree {
        ScriptTree::Leaf(script) => Multiset::singleton(script),
        ScriptTree::Branch(left, right) => script_bag(*left).add(script_bag(*right)),
    }
}

/// The scripts of all of some nodes.
spec fn forest_bag(nodes: Seq<Weighted>) -> Multiset<Seq<u8>>
    decreases nodes.len(),
{
    if nodes.len() == 0 {
        Multiset::empty()
    } else {
        forest_bag(nodes.drop_last()).add(script_bag(nodes.last().tree))
    }
}

proof fn lemma_insert_keeps_scripts(sorted: Seq<Weighted>, node: Weighted)
    ensures
        forest_bag(insert_by_weight(sorted, node)) == forest_bag(sorted).add(script_bag(node.tree)),
    decreases sorted.len(),
{
    if sorted.len() == 0 || sorted.last().weight >= node.weight {
        assert(sorted.push(node).drop_last() =~= sorted);
    } else {
        let rest = insert_by_weight(sorted.drop_last(), node);
        lemma_insert_keeps_scripts(sorted.drop_last(), node);
        assert(rest.push(sorted.last()).drop_last() =~= rest);
        assert(forest_bag(insert_by_weight(sorted, node)) =~= forest_bag(sorted).add(
            script_bag(node.tree),
        ));
    }
}

proof fn lemma_by_weight_keeps_scripts(nodes: Seq<Weighted>)
    ensures
        forest_bag(by_weight(nodes)) == forest_bag(nodes),
    decreases nodes.len(),
{
    if nodes.len() > 0 {
        lemma_by_weight_keeps_scripts(nodes.drop_last());
        lemma_insert_keeps_scripts(by_weight(nodes.drop_last()), nodes.last());
    }
}

proof fn lemma_combined_keeps_scripts(nodes: Seq<Weighted>)
    requires
        nodes.len() >= 1,
    ensures
        script_bag(combined(nodes)) == forest_bag(nodes),
    decreases nodes.len(),
{
    lemma_by_weight_len(nodes);
    if nodes.len() == 1 {
        assert(nodes.drop_last() =~= Seq::empty());
        assert(forest_bag(nodes.drop_last()) =~= Multiset::empty());
        assert(forest_bag(nodes) =~= script_bag(nodes[0].tree));
    } else {
        let sorted = by_weight(nodes);
        let next = combine_lightest(nodes);
        let first = sorted.take(sorted.len() - 2);
        lemma_by_weight_keeps_scripts(nodes);
        assert(next.drop_last() =~= first);
        assert(sorted.drop_last().drop_last() =~= first);
        assert(sorted.drop_last().last() == sorted[sorted.len() - 2]);
        let a = sorted[sorted.len() - 2].tree;
        let b = sorted[sorted.len() - 1].tree;
        assert(next.last().tree == ScriptTree::Branch(Box::new(a), Box::new(b)));
        assert(script_bag(next.last().tree) == script_bag(a).add(script_bag(b)));
        assert(forest_bag(sorted.drop_last()) == forest_bag(first).add(script_bag(a)));
        assert(forest_bag(sorted) == forest_bag(first).add(script_bag(a)).add(script_bag(b)));
        assert(forest_bag(next) =~= forest_bag(sorted));
        lemma_combined_keeps_scripts(next);
    }
}

/// A tree has each of its scripts at as many leaves as the script was given times, and no other
/// script.
pub proof fn lemma_tree_holds_every_script(scripts: Vec<Vec<u8>>, root: TreeNode)
    requires
        scripts@.len() >= 1,
        call_ensures(build_tree, (scripts,), root),
    ensures
        script_bag(root.tree()) == scripts@.map_values(|script: Vec<u8>| script@).to_multiset(),
{
    let views = scripts@.map_values(|script: Vec<u8>| script@);
    assert(views =~= scripts@.map_values(|s: Vec<u8>| s@));
    lemma_combined_keeps_scripts(equal_leaves(views));
    lemma_equal_leaves_hold_scripts(views);
}

proof fn lemma_equal_leaves_hold_scripts(scripts: Seq<Seq<u8>>)
    ensures
        forest_bag(equal_leaves(scripts)) == scripts.to_multiset(),
    decreases scripts.len(),
{
    broadcast use vstd::seq_lib::group_to_multiset_ensures;

    if scripts.len() > 0 {
        lemma_equal_leaves_hold_scripts(scripts.drop_last());
        assert(equal_leaves(scripts).drop_last() =~= equal_leaves(scripts.drop_last()));
        assert(scripts.drop_last().push(scripts.last()) =~= scripts);
        assert(forest_bag(equal_leaves(scripts)) =~= scripts.to_multiset());
    } else {
        assert(forest_bag(equal_leaves(scripts)) =~= scripts.to_multiset());
    }
}

/// Two nodes come together under a branch, the heavier to the left, and the first to the left
/// when neither is heavier. One node stays alone.
pub proof fn lemma_nodes_come_together(nodes: Vec<TreeNode>, root: TreeNode)
    requires
        1 <= nodes@.len() <= 2,
        call_ensures(combine_nodes, (nodes,), root),
    ensures
        nodes@.len() == 1 ==> root.tree() == nodes@[0].tree(),
        nodes@.len() == 2 ==> root.tree() == (if nodes@[0].spec_weight() >= nodes@[1].spec_weight() {
            branch(nodes@[0].tree(), nodes@[1].tree())
        } else {
            branch(nodes@[1].tree(), nodes@[0].tree())
        }),
{
    let all = weighted(nodes@);
    if nodes@.len() == 2 {
        if all[0].weight >= all[1].weight {
            lemma_in_order(all);
        } else {
            lemma_last_out_of_order(all, 0);
        }
        lemma_by_weight_len(all);
        let next = combine_lightest(all);
        assert(next.len() == 1);
        assert(combined(next) == next[0].tree);
        assert(combined(all) == combined(next));
    }
}

/// Finishing a tree under the unspendable key gives the output key and the control blocks of
/// just its leaves, at their depths. It succeeds for every tree that taproot can hold.
pub proof fn lemma_tree_is_finished(root: &TreeNode, info: Result<TaprootSpendInfo, TreeError>)
    requires
        call_ensures(finish_tree, (root,), info),
    ensures
        height(root.tree()) <= 128 ==> info is Ok,
        info matches Ok(i) ==> {
            let leaves = leaves_at(root.tree(), 0);
            &&& spend_info_key(i) == taproot_output_key(leaves, unspendable_key_bytes())
            &&& spend_info_blocks(i) == taproot_control_blocks(leaves, unspendable_key_bytes())
        },
{
}

} // verus!

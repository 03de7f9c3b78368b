//! The commitment tree, held as the frontier of its last leaf.

use vstd::prelude::*;
use vstd::arithmetic::power2::{
    lemma2_to64, lemma_pow2_pos, lemma_pow2_strictly_increases, lemma_pow2_unfold, pow2,
};
use crate::sapling::{Node, SAPLING_COMMITMENT_TREE_DEPTH};
use crate::merkle_tree::model::{
    empty_root, is_prefix, level_index, lemma_level_index_bounds, lemma_level_index_joined,
    lemma_level_index_zero, lemma_subtree_empty, lemma_subtree_prefix, merkle_root, subtree_root,
};

verus! {

/// The number of leaves that the tree has room for.
pub const MAX_LEAVES: u64 = 0x1_0000_0000;

/// What the frontier holds at `level` for a tree whose last leaf stands at
/// `position`: where the path of that leaf is a right child, the root of the
/// left sibling.
pub open spec fn ommer_holds(
    leaves: Seq<Seq<u8>>,
    ommers: Seq<Node>,
    position: nat,
    level: nat,
) -> bool {
    level_index(position, level) % 2 == 1 ==> ommers[level as int]@ == subtree_root(
        leaves,
        level,
        (level_index(position, level) - 1) as nat,
    )
}

/// The roots of the empty subtrees of every height up to the tree's.
pub fn empty_roots() -> (roots: Vec<Node>)
    ensures
        roots@.len() == SAPLING_COMMITMENT_TREE_DEPTH + 1,
        forall|level: int| 0 <= level <= SAPLING_COMMITMENT_TREE_DEPTH ==> (#[trigger] roots@[level])@
            == empty_root(level as nat),
{
    let mut roots: Vec<Node> = Vec::new();
    let mut cur = Node::blank();
    roots.push(cur);
    let mut level: usize = 0;
    while level < SAPLING_COMMITMENT_TREE_DEPTH
        invariant
            level <= SAPLING_COMMITMENT_TREE_DEPTH,
            roots@.len() == level + 1,
            cur@ == empty_root(level as nat),
            forall|l: int| 0 <= l <= level ==> (#[trigger] roots@[l])@ == empty_root(l as nat),
        decreases SAPLING_COMMITMENT_TREE_DEPTH - level,
    {
        cur = Node::combine(level, &cur, &cur);
        roots.push(cur);
        level += 1;
    }
    roots
}

/// A subtree that ends at or before the last place of the tree is not of the
/// tree's full height.
proof fn lemma_carry_level(index: nat, level: nat, end: nat)
    requires
        (index + 1) * pow2(level) == end,
        end < MAX_LEAVES,
    ensures
        level < SAPLING_COMMITMENT_TREE_DEPTH,
{
    if level >= 32 {
        lemma2_to64();
        if level > 32 {
            lemma_pow2_strictly_increases(32, level);
        }
        let w = pow2(level);
        assert((index + 1) * w >= w) by (nonlinear_arith)
            requires
                w >= 0,
        ;
    }
}

/// An append-only Merkle tree of note commitments of depth 32. It keeps the
/// last leaf and, for each level at which the path of that leaf is a right
/// child, the root of the left sibling: enough to append and to compute the
/// root.
pub struct CommitmentTree {
    size: u64,
    leaf: Node,
    ommers: Vec<Node>,
    leaves: Ghost<Seq<Seq<u8>>>,
}

impl View for CommitmentTree {
    type V = Seq<Seq<u8>>;

    /// The leaves appended so far, in order.
    closed spec fn view(&self) -> Seq<Seq<u8>> {
        self.leaves@
    }
}

impl CommitmentTree {
    /// The invariant that ties the frontier to the leaves.
    pub closed spec fn wf(&self) -> bool {
        &&& self.ommers@.len() == SAPLING_COMMITMENT_TREE_DEPTH
        &&& self.size as nat == self.leaves@.len()
        &&& self.size <= MAX_LEAVES
        &&& self.size > 0 ==> {
            &&& self.leaf@ == self.leaves@[self.size - 1]
            &&& forall|level: nat|
                level < SAPLING_COMMITMENT_TREE_DEPTH ==> #[trigger] ommer_holds(
                    self.leaves@,
                    self.ommers@,
                    (self.size - 1) as nat,
                    level,
                )
        }
    }

    /// A well-formed tree has at most `MAX_LEAVES` leaves.
    pub proof fn lemma_size_bounded(&self)
        requires
            self.wf(),
        ensures
            self@.len() <= MAX_LEAVES,
    {
    }

    /// The tree with no leaves.
    pub fn empty() -> (tree: CommitmentTree)
        ensures
            tree.wf(),
            tree@ == Seq::<Seq<u8>>::empty(),
    {
        let mut ommers: Vec<Node> = Vec::new();
        let mut level: usize = 0;
        while level < SAPLING_COMMITMENT_TREE_DEPTH
            invariant
                level <= SAPLING_COMMITMENT_TREE_DEPTH,
                ommers@.len() == level,
            decreases SAPLING_COMMITMENT_TREE_DEPTH - level,
        {
            ommers.push(Node::blank());
            level += 1;
        }
        CommitmentTree { size: 0, leaf: Node::blank(), ommers, leaves: Ghost(Seq::empty()) }
    }

    /// The number of leaves in the tree.
    pub fn size(&self) -> (n: u64)
        requires
            self.wf(),
        ensures
            n == self@.len(),
    {
        self.size
    }

    /// Whether the tree has no leaves.
    pub fn is_empty(&self) -> (b: bool)
        requires
            self.wf(),
        ensures
            b == (self@.len() == 0),
    {
        self.size == 0
    }

    /// The leaf appended last, if there is one.
    pub fn last_leaf(&self) -> (leaf: Option<Node>)
        requires
            self.wf(),
        ensures
            leaf is Some <==> self@.len() > 0,
            leaf matches Some(node) ==> node@ == self@.last(),
    {
        if self.size == 0 {
            None
        } else {
            Some(self.leaf)
        }
    }

    /// Adds a leaf to the tree. Fails, and leaves the tree as it is, when the
    /// tree is full.
    pub fn append(&mut self, node: Node) -> (res: Result<(), ()>)
        requires
            old(self).wf(),
        ensures
            final(self).wf(),
            res is Ok <==> old(self)@.len() < MAX_LEAVES,
            res is Ok ==> final(self)@ == old(self)@.push(node@),
            res is Err ==> final(self)@ == old(self)@,
    {
        if self.size >= MAX_LEAVES {
            return Err(());
        }
        let ghost before = self.leaves@;
        let ghost after = before.push(node@);
        let ghost old_ommers = self.ommers@;
        if self.size == 0 {
            self.leaf = node;
            self.size = 1;
            self.leaves = Ghost(after);
            proof {
                assert forall|level: nat| level < SAPLING_COMMITMENT_TREE_DEPTH implies #[trigger] ommer_holds(
                    after,
                    self.ommers@,
                    0,
                    level,
                ) by {
                    lemma_pow2_pos(level);
                    lemma_level_index_zero(0, level);
                }
            }
            return Ok(());
        }
        let ghost position = (self.size - 1) as nat;
        let mut index: u64 = self.size - 1;
        let mut level: usize = 0;
        let mut cur = self.leaf;
        proof {
            lemma2_to64();
        }
        while index % 2 == 1
            invariant
                self.wf(),
                self.leaves@ == before,
                self.ommers@ == old_ommers,
                self.size == position + 1,
                position + 1 < MAX_LEAVES,
                level <= SAPLING_COMMITMENT_TREE_DEPTH,
                index == level_index(position, level as nat),
                cur@ == subtree_root(before, level as nat, index as nat),
                (index + 1) * pow2(level as nat) == position + 1,
                level_index(position + 1, level as nat) == index + 1,
                forall|l: nat|
                    l < level ==> (#[trigger] level_index(position, l)) % 2 == 1 && level_index(
                        position + 1,
                        l,
                    ) == level_index(position, l) + 1,
            decreases index,
        {
            proof {
                lemma_carry_level(index as nat, level as nat, position + 1);
                assert(ommer_holds(
                    self.leaves@,
                    self.ommers@,
                    (self.size - 1) as nat,
                    level as nat,
                ));
                lemma_pow2_unfold((level + 1) as nat);
                let w = pow2(level as nat);
                let k = index as nat / 2;
                assert((k + 1) * (2 * w) == (index + 1) * w) by (nonlinear_arith)
                    requires
                        index == 2 * k + 1,
                ;
            }
            cur = Node::combine(level, &self.ommers[level], &cur);
            index = index / 2;
            level += 1;
        }
        proof {
            lemma_carry_level(index as nat, level as nat, position + 1);
        }
        self.ommers.set(level, cur);
        self.leaf = node;
        self.size = self.size + 1;
        self.leaves = Ghost(after);
        proof {
            assert(is_prefix(before, after)) by {
                assert(after.take(before.len() as int) =~= before);
            }
            assert forall|l: nat| l < SAPLING_COMMITMENT_TREE_DEPTH implies #[trigger] ommer_holds(
                after,
                self.ommers@,
                position + 1,
                l,
            ) by {
                if l < level {
                    assert(level_index(position, l) % 2 == 1);
                } else if l == level {
                    lemma_subtree_prefix(before, after, level as nat, index as nat);
                } else {
                    assert(level_index(position + 1, (level + 1) as nat) == level_index(
                        position,
                        (level + 1) as nat,
                    ));
                    lemma_level_index_joined(position + 1, position, (level + 1) as nat, l);
                    if level_index(position, l) % 2 == 1 {
                        assert(ommer_holds(before, old_ommers, position, l));
                        lemma_level_index_bounds(position, l);
                        lemma_subtree_prefix(
                            before,
                            after,
                            l,
                            (level_index(position, l) - 1) as nat,
                        );
                    }
                }
            }
        }
        Ok(())
    }

    /// A copy of the tree.
    pub fn duplicate(&self) -> (copy: CommitmentTree)
        requires
            self.wf(),
        ensures
            copy.wf(),
            copy@ == self@,
    {
        let mut ommers: Vec<Node> = Vec::new();
        let mut level: usize = 0;
        while level < SAPLING_COMMITMENT_TREE_DEPTH
            invariant
                level <= SAPLING_COMMITMENT_TREE_DEPTH,
                self.ommers@.len() == SAPLING_COMMITMENT_TREE_DEPTH,
                ommers@.len() == level,
                forall|l: int| 0 <= l < level ==> ommers@[l] == self.ommers@[l],
            decreases SAPLING_COMMITMENT_TREE_DEPTH - level,
        {
            ommers.push(self.ommers[level]);
            level += 1;
        }
        assert(ommers@ =~= self.ommers@);
        CommitmentTree { size: self.size, leaf: self.leaf, ommers, leaves: Ghost(self.leaves@) }
    }

    /// The frontier's entry at `level`.
    pub(crate) fn ommer(&self, level: usize) -> (node: Node)
        requires
            self.wf(),
            level < SAPLING_COMMITMENT_TREE_DEPTH,
        ensures
            self@.len() > 0 && level_index((self@.len() - 1) as nat, level as nat) % 2 == 1
                ==> node@ == subtree_root(
                self@,
                level as nat,
                (level_index((self@.len() - 1) as nat, level as nat) - 1) as nat,
            ),
    {
        proof {
            if self.size > 0 {
                assert(ommer_holds(
                    self.leaves@,
                    self.ommers@,
                    (self.size - 1) as nat,
                    level as nat,
                ));
            }
        }
        self.ommers[level]
    }

    /// For each height up to the tree's, the root of the subtree of that
    /// height that holds the last leaf (the first subtree, in an empty tree).
    pub(crate) fn spine(&self) -> (nodes: Vec<Node>)
        requires
            self.wf(),
        ensures
            nodes@.len() == SAPLING_COMMITMENT_TREE_DEPTH + 1,
            forall|level: int|
                0 <= level <= SAPLING_COMMITMENT_TREE_DEPTH ==> (#[trigger] nodes@[level])@
                    == subtree_root(
                    self@,
                    level as nat,
                    level_index(
                        if self@.len() == 0 {
                            0nat
                        } else {
                            (self@.len() - 1) as nat
                        },
                        level as nat,
                    ),
                ),
    {
        let ghost leaves = self.leaves@;
        let ghost position: nat = if self.size == 0 {
            0nat
        } else {
            (self.size - 1) as nat
        };
        let mut nodes: Vec<Node> = Vec::new();
        let mut cur = if self.size == 0 {
            Node::blank()
        } else {
            self.leaf
        };
        let mut empty = Node::blank();
        let mut index: u64 = if self.size == 0 {
            0
        } else {
            self.size - 1
        };
        nodes.push(cur);
        let mut level: usize = 0;
        while level < SAPLING_COMMITMENT_TREE_DEPTH
            invariant
                self.wf(),
                leaves == self.leaves@,
                position == if self.size == 0 {
                    0nat
                } else {
                    (self.size - 1) as nat
                },
                level <= SAPLING_COMMITMENT_TREE_DEPTH,
                nodes@.len() == level + 1,
                index == level_index(position, level as nat),
                cur@ == subtree_root(leaves, level as nat, index as nat),
                empty@ == empty_root(level as nat),
                forall|l: int|
                    0 <= l <= level ==> (#[trigger] nodes@[l])@ == subtree_root(
                        leaves,
                        l as nat,
                        level_index(position, l as nat),
                    ),
            decreases SAPLING_COMMITMENT_TREE_DEPTH - level,
        {
            if index % 2 == 1 {
                proof {
                    assert(self.size > 0) by {
                        if self.size == 0 {
                            lemma_pow2_pos(level as nat);
                            lemma_level_index_zero(0, level as nat);
                        }
                    }
                    assert(ommer_holds(leaves, self.ommers@, position, level as nat));
                    assert(2 * (index as nat / 2) + 1 == index);
                }
                cur = Node::combine(level, &self.ommers[level], &cur);
            } else {
                proof {
                    lemma_level_index_bounds(position, level as nat);
                    lemma_subtree_empty(leaves, level as nat, (index + 1) as nat);
                    assert(2 * (index as nat / 2) == index);
                }
                cur = Node::combine(level, &cur, &empty);
            }
            empty = Node::combine(level, &empty, &empty);
            index = index / 2;
            nodes.push(cur);
            level += 1;
        }
        nodes
    }

    /// The root of the tree.
    pub fn root(&self) -> (root: Node)
        requires
            self.wf(),
        ensures
            root@ == merkle_root(self@),
    {
        let nodes = self.spine();
        proof {
            let position: nat = if self@.len() == 0 {
                0nat
            } else {
                (self@.len() - 1) as nat
            };
            lemma2_to64();
            lemma_level_index_zero(position, 32);
        }
        nodes[SAPLING_COMMITMENT_TREE_DEPTH]
    }
}

} // verus!

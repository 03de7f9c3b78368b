//! Witnesses: authentication paths that are kept up to date while the tree
//! grows.

use vstd::prelude::*;
use vstd::arithmetic::power2::{pow2, lemma_pow2_pos, lemma2_to64};
use crate::sapling::{Node, MERKLE_HASH_DEPTHS, SAPLING_COMMITMENT_TREE_DEPTH};
use crate::merkle_tree::model::{
    auth_path, fold_path, is_prefix, level_index, lemma_auth_path_root, lemma_level_index_bounds,
    lemma_level_index_joined, lemma_level_index_monotonic, lemma_level_index_step,
    lemma_subtree_empty,
    lemma_subtree_prefix, merkle_root, sibling_index, subtree_root,
};
use crate::merkle_tree::tree::{empty_roots, CommitmentTree, MAX_LEAVES};

verus! {

/// A path from a leaf to the root: for each level from the leaf upwards the
/// sibling, and whether the path's own node is the right child there.
#[derive(Debug, PartialEq, Eq)]
pub struct MerklePath {
    pub auth_path: Vec<(Node, bool)>,
    pub position: u64,
}

impl View for MerklePath {
    type V = Seq<(Seq<u8>, bool)>;

    open spec fn view(&self) -> Seq<(Seq<u8>, bool)> {
        Seq::new(
            self.auth_path@.len(),
            |level: int| (self.auth_path@[level].0@, self.auth_path@[level].1),
        )
    }
}

impl MerklePath {
    /// The root that the path gives for `leaf`. The path must not have more
    /// levels than the hash is defined for.
    pub fn root(&self, leaf: Node) -> (root: Node)
        requires
            self.auth_path@.len() <= MERKLE_HASH_DEPTHS,
        ensures
            root@ == fold_path(leaf@, self@),
    {
        let mut cur = leaf;
        let mut level: usize = 0;
        while level < self.auth_path.len()
            invariant
                level <= self.auth_path@.len() <= MERKLE_HASH_DEPTHS,
                cur@ == fold_path(leaf@, self@.take(level as int)),
            decreases self.auth_path@.len() - level,
        {
            let (sibling, is_right) = self.auth_path[level];
            proof {
                let next = self@.take(level + 1);
                assert(next.drop_last() =~= self@.take(level as int));
                assert(next.last() == (sibling@, is_right));
            }
            if is_right {
                cur = Node::combine(level, &sibling, &cur);
            } else {
                cur = Node::combine(level, &cur, &sibling);
            }
            level += 1;
        }
        assert(self@.take(level as int) =~= self@);
        cur
    }
}

/// What a witness holds at `level` of the right-hand siblings of its leaf at
/// `position`, when the last leaf stands at `last`: the root of each sibling
/// that lies wholly before the subtree of the last leaf.
pub open spec fn filled_holds(
    leaves: Seq<Seq<u8>>,
    filled: Seq<Node>,
    position: nat,
    last: nat,
    level: nat,
) -> bool {
    level_index(position, level) % 2 == 0 && level_index(last, level) > level_index(
        position,
        level,
    ) + 1 ==> filled[level as int]@ == subtree_root(
        leaves,
        level,
        level_index(position, level) + 1,
    )
}

/// The witness of the last leaf of a tree, which follows the tree as it grows:
/// it holds the tree as it was when the witness was made, the tree as it is
/// now, and the siblings to the right of its leaf that have been completed in
/// between.
pub struct IncrementalWitness {
    tree: CommitmentTree,
    filled: Vec<Node>,
    tip: CommitmentTree,
}

impl View for IncrementalWitness {
    type V = Seq<Seq<u8>>;

    /// Every leaf of the tree that the witness has seen, in order.
    closed spec fn view(&self) -> Seq<Seq<u8>> {
        self.tip@
    }
}

impl IncrementalWitness {
    /// The number of leaves that the tree had when the witness was made. The
    /// witness is for the last of them.
    pub closed spec fn witnessed(&self) -> nat {
        self.tree@.len()
    }

    /// The invariant that ties the parts of the witness to the leaves.
    pub closed spec fn wf(&self) -> bool {
        &&& self.tree.wf()
        &&& self.tip.wf()
        &&& self.filled@.len() == SAPLING_COMMITMENT_TREE_DEPTH
        &&& is_prefix(self.tree@, self.tip@)
        &&& self.tree@.len() > 0 ==> forall|level: nat|
            level < SAPLING_COMMITMENT_TREE_DEPTH ==> #[trigger] filled_holds(
                self.tip@,
                self.filled@,
                (self.tree@.len() - 1) as nat,
                (self.tip@.len() - 1) as nat,
                level,
            )
    }

    /// The witnessed leaves are among those seen, and the tree has room for
    /// them all.
    pub proof fn lemma_witnessed_bounds(&self)
        requires
            self.wf(),
        ensures
            self.witnessed() <= self@.len() <= MAX_LEAVES,
    {
        self.tip.lemma_size_bounded();
    }

    /// A witness for the last leaf of `tree`.
    pub fn from_tree(tree: &CommitmentTree) -> (witness: IncrementalWitness)
        requires
            tree.wf(),
        ensures
            witness.wf(),
            witness@ == tree@,
            witness.witnessed() == tree@.len(),
    {
        let mut filled: Vec<Node> = Vec::new();
        let mut level: usize = 0;
        while level < SAPLING_COMMITMENT_TREE_DEPTH
            invariant
                level <= SAPLING_COMMITMENT_TREE_DEPTH,
                filled@.len() == level,
            decreases SAPLING_COMMITMENT_TREE_DEPTH - level,
        {
            filled.push(Node::blank());
            level += 1;
        }
        let witness = IncrementalWitness { tree: tree.duplicate(), filled, tip: tree.duplicate() };
        assert(witness.tree@.take(witness.tree@.len() as int) =~= witness.tree@);
        witness
    }

    /// The number of leaves of the tree that the witness has followed.
    pub fn size(&self) -> (n: u64)
        requires
            self.wf(),
        ensures
            n == self@.len(),
    {
        self.tip.size()
    }

    /// The position of the witnessed leaf, if the witness was made from a
    /// tree that had one.
    pub fn position(&self) -> (position: Option<u64>)
        requires
            self.wf(),
        ensures
            position is Some <==> self.witnessed() > 0,
            position matches Some(p) ==> p == self.witnessed() - 1,
    {
        let n = self.tree.size();
        if n == 0 {
            None
        } else {
            Some(n - 1)
        }
    }

    /// Follows the tree by one leaf. Fails, and leaves the witness as it is,
    /// when the tree is full.
    pub fn append(&mut self, node: Node) -> (res: Result<(), ()>)
        requires
            old(self).wf(),
        ensures
            final(self).wf(),
            final(self).witnessed() == old(self).witnessed(),
            res is Ok <==> old(self)@.len() < MAX_LEAVES,
            res is Ok ==> final(self)@ == old(self)@.push(node@),
            res is Err ==> final(self)@ == old(self)@,
    {
        let seen = self.tip.size();
        if seen >= MAX_LEAVES {
            return Err(());
        }
        let made = self.tree.size();
        let ghost before = self.tip@;
        let ghost after = before.push(node@);
        let ghost old_filled = self.filled@;
        proof {
            assert(is_prefix(before, after)) by {
                assert(after.take(before.len() as int) =~= before);
            }
            assert(is_prefix(self.tree@, after)) by {
                assert(after.take(self.tree@.len() as int) =~= before.take(
                    self.tree@.len() as int,
                ));
            }
        }
        if made > 0 {
            let ghost p = (made - 1) as nat;
            let ghost q = (seen - 1) as nat;
            let mut cur = match self.tip.last_leaf() {
                Some(last) => last,
                None => Node::blank(),
            };
            let mut pi: u64 = made - 1;
            let mut qi: u64 = seen - 1;
            let mut ni: u64 = seen;
            let mut level: usize = 0;
            while level < SAPLING_COMMITMENT_TREE_DEPTH && ni != qi
                invariant
                    level <= SAPLING_COMMITMENT_TREE_DEPTH,
                    self.tree == old(self).tree,
                    self.tip == old(self).tip,
                    old(self).wf(),
                    before == self.tip@,
                    after == before.push(node@),
                    is_prefix(before, after),
                    old_filled == old(self).filled@,
                    p == self.tree@.len() - 1,
                    q == before.len() - 1,
                    p <= q,
                    pi == level_index(p, level as nat),
                    qi == level_index(q, level as nat),
                    ni == level_index(q + 1, level as nat),
                    ni != qi ==> cur@ == subtree_root(before, level as nat, qi as nat),
                    self.filled@.len() == SAPLING_COMMITMENT_TREE_DEPTH,
                    forall|l: nat|
                        l < level ==> #[trigger] filled_holds(after, self.filled@, p, q + 1, l),
                    forall|l: int|
                        level <= l < SAPLING_COMMITMENT_TREE_DEPTH ==> self.filled@[l]
                            == old_filled[l],
                decreases SAPLING_COMMITMENT_TREE_DEPTH - level,
            {
                let ghost entry = self.filled@;
                proof {
                    lemma_level_index_step(q, level as nat);
                    lemma_level_index_bounds(q, level as nat);
                    lemma_level_index_bounds(q + 1, level as nat);
                    lemma_pow2_pos(level as nat);
                    assert(filled_holds(
                        old(self).tip@,
                        old(self).filled@,
                        (old(self).tree@.len() - 1) as nat,
                        (old(self).tip@.len() - 1) as nat,
                        level as nat,
                    ));
                }
                if pi % 2 == 0 && qi == pi + 1 {
                    self.filled.set(level, cur);
                    proof {
                        lemma_subtree_prefix(before, after, level as nat, qi as nat);
                    }
                } else {
                    proof {
                        if pi % 2 == 0 && ni > pi + 1 {
                            let w = pow2(level as nat);
                            assert((pi + 2) * w <= qi * w) by (nonlinear_arith)
                                requires
                                    pi + 2 <= qi,
                                    w > 0,
                            ;
                            lemma_subtree_prefix(before, after, level as nat, (pi + 1) as nat);
                        }
                    }
                }
                proof {
                    assert(filled_holds(after, self.filled@, p, q + 1, level as nat));
                    assert forall|l: nat| l < level implies #[trigger] filled_holds(
                        after,
                        self.filled@,
                        p,
                        q + 1,
                        l,
                    ) by {
                        assert(filled_holds(after, entry, p, q + 1, l));
                    }
                }
                if qi % 2 == 1 {
                    let ommer = self.tip.ommer(level);
                    proof {
                        assert(2 * (qi as nat / 2) + 1 == qi);
                    }
                    cur = Node::combine(level, &ommer, &cur);
                }
                pi = pi / 2;
                qi = qi / 2;
                ni = ni / 2;
                level += 1;
            }
            proof {
                assert forall|l: nat| l < SAPLING_COMMITMENT_TREE_DEPTH implies #[trigger] filled_holds(
                    after,
                    self.filled@,
                    p,
                    q + 1,
                    l,
                ) by {
                    if l >= level {
                        lemma_level_index_joined(q + 1, q, level as nat, l);
                        lemma_level_index_bounds(q, l);
                        lemma_pow2_pos(l);
                        assert(filled_holds(
                            old(self).tip@,
                            old(self).filled@,
                            (old(self).tree@.len() - 1) as nat,
                            (old(self).tip@.len() - 1) as nat,
                            l,
                        ));
                        let a = level_index(p, l);
                        let b = level_index(q, l);
                        if a % 2 == 0 && b > a + 1 {
                            let w = pow2(l);
                            assert((a + 2) * w <= b * w) by (nonlinear_arith)
                                requires
                                    a + 2 <= b,
                                    w > 0,
                            ;
                            lemma_subtree_prefix(before, after, l, a + 1);
                        }
                    }
                }
            }
        }
        let res = self.tip.append(node);
        res
    }

    /// The root of the tree that the witness has followed.
    pub fn root(&self) -> (root: Node)
        requires
            self.wf(),
        ensures
            root@ == merkle_root(self@),
    {
        self.tip.root()
    }

    /// The authentication path of the witnessed leaf in the tree as the
    /// witness has followed it; `None` when the witness was made from an
    /// empty tree.
    pub fn path(&self) -> (path: Option<MerklePath>)
        requires
            self.wf(),
        ensures
            path is Some <==> self.witnessed() > 0,
            path matches Some(found) ==> {
                &&& found.position == self.witnessed() - 1
                &&& found@ == auth_path(self@, (self.witnessed() - 1) as nat)
            },
    {
        let made = self.tree.size();
        if made == 0 {
            return None;
        }
        let seen = self.tip.size();
        let spine = self.tip.spine();
        let empties = empty_roots();
        let ghost leaves = self.tip@;
        let ghost p = (made - 1) as nat;
        let ghost q = (seen - 1) as nat;
        let mut pi: u64 = made - 1;
        let mut qi: u64 = seen - 1;
        let mut auth: Vec<(Node, bool)> = Vec::new();
        let mut level: usize = 0;
        while level < SAPLING_COMMITMENT_TREE_DEPTH
            invariant
                level <= SAPLING_COMMITMENT_TREE_DEPTH,
                self.wf(),
                leaves == self.tip@,
                p == self.tree@.len() - 1,
                q == leaves.len() - 1,
                p <= q,
                pi == level_index(p, level as nat),
                qi == level_index(q, level as nat),
                spine@.len() == SAPLING_COMMITMENT_TREE_DEPTH + 1,
                empties@.len() == SAPLING_COMMITMENT_TREE_DEPTH + 1,
                forall|l: int|
                    0 <= l <= SAPLING_COMMITMENT_TREE_DEPTH ==> (#[trigger] spine@[l])@
                        == subtree_root(leaves, l as nat, level_index(q, l as nat)),
                forall|l: int|
                    0 <= l <= SAPLING_COMMITMENT_TREE_DEPTH ==> (#[trigger] empties@[l])@
                        == crate::merkle_tree::model::empty_root(l as nat),
                auth@.len() == level,
                forall|l: int|
                    0 <= l < level ==> (#[trigger] auth@[l]).0@ == subtree_root(
                        leaves,
                        l as nat,
                        sibling_index(level_index(p, l as nat)),
                    ) && auth@[l].1 == (level_index(p, l as nat) % 2 == 1),
            decreases SAPLING_COMMITMENT_TREE_DEPTH - level,
        {
            proof {
                lemma_level_index_monotonic(p, q, level as nat);
                lemma_level_index_bounds(p, level as nat);
                lemma_level_index_bounds(q, level as nat);
                assert(filled_holds(
                    self.tip@,
                    self.filled@,
                    (self.tree@.len() - 1) as nat,
                    (self.tip@.len() - 1) as nat,
                    level as nat,
                ));
            }
            let entry = if pi % 2 == 1 {
                let node = self.tree.ommer(level);
                proof {
                    lemma_subtree_prefix(self.tree@, leaves, level as nat, (pi - 1) as nat);
                }
                (node, true)
            } else if qi == pi {
                proof {
                    lemma_subtree_empty(leaves, level as nat, (pi + 1) as nat);
                }
                (empties[level], false)
            } else if qi == pi + 1 {
                (spine[level], false)
            } else {
                (self.filled[level], false)
            };
            auth.push(entry);
            pi = pi / 2;
            qi = qi / 2;
            level += 1;
        }
        let found = MerklePath { auth_path: auth, position: made - 1 };
        assert(found@ =~= auth_path(leaves, p));
        Some(found)
    }
}

/// A witness that has followed every append of a tree since it was made
/// authenticates its leaf against the root of that tree: the leaf and the
/// witness's path hash up to the tree's root.
pub proof fn lemma_witness_authenticates(tree: CommitmentTree, witness: IncrementalWitness)
    requires
        tree.wf(),
        witness.wf(),
        witness@ == tree@,
        witness.witnessed() > 0,
    ensures
        witness.witnessed() <= tree@.len(),
        fold_path(
            tree@[witness.witnessed() - 1],
            auth_path(witness@, (witness.witnessed() - 1) as nat),
        ) == merkle_root(tree@),
{
    witness.lemma_witnessed_bounds();
    lemma2_to64();
    lemma_auth_path_root(tree@, (witness.witnessed() - 1) as nat);
}

} // verus!

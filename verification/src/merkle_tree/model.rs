//! The mathematical model of the note commitment tree: a fixed-depth binary
//! tree over the sequence of leaves appended so far, with every position that
//! holds no leaf yet filled by the uncommitted leaf.

use vstd::prelude::*;
use vstd::arithmetic::power2::{pow2, lemma_pow2_pos, lemma_pow2_unfold};
use crate::sapling::{merkle_hash_spec, uncommitted};

verus! {

/// The number of levels between a leaf and the root.
pub open spec fn depth() -> nat {
    32
}

/// The root of a subtree of height `level` that holds no leaf.
pub open spec fn empty_root(level: nat) -> Seq<u8>
    decreases level,
{
    if level == 0 {
        uncommitted()
    } else {
        let below = empty_root((level - 1) as nat);
        merkle_hash_spec((level - 1) as nat, below, below)
    }
}

/// The root of the subtree of height `level` that is the `index`-th of its
/// height, counted from the left, in the tree over `leaves`.
pub open spec fn subtree_root(leaves: Seq<Seq<u8>>, level: nat, index: nat) -> Seq<u8>
    decreases level,
{
    if level == 0 {
        if index < leaves.len() {
            leaves[index as int]
        } else {
            uncommitted()
        }
    } else {
        merkle_hash_spec(
            (level - 1) as nat,
            subtree_root(leaves, (level - 1) as nat, 2 * index),
            subtree_root(leaves, (level - 1) as nat, 2 * index + 1),
        )
    }
}

/// The root of the whole tree over `leaves`.
pub open spec fn merkle_root(leaves: Seq<Seq<u8>>) -> Seq<u8> {
    subtree_root(leaves, depth(), 0)
}

/// The index, among the subtrees of height `level`, of the one that holds the
/// leaf at `position`.
pub open spec fn level_index(position: nat, level: nat) -> nat
    decreases level,
{
    if level == 0 {
        position
    } else {
        level_index(position, (level - 1) as nat) / 2
    }
}

/// The index of the other child of the parent of the `index`-th subtree.
pub open spec fn sibling_index(index: nat) -> nat {
    if index % 2 == 1 {
        (index - 1) as nat
    } else {
        index + 1
    }
}

/// The authentication path of the leaf at `position`: for each level from the
/// leaf upwards, the root of the sibling subtree, and whether the path's own
/// node is the right child there.
pub open spec fn auth_path(leaves: Seq<Seq<u8>>, position: nat) -> Seq<(Seq<u8>, bool)> {
    Seq::new(
        depth(),
        |level: int|
            (
                subtree_root(
                    leaves,
                    level as nat,
                    sibling_index(level_index(position, level as nat)),
                ),
                level_index(position, level as nat) % 2 == 1,
            ),
    )
}

/// The node that a leaf and the first levels of a path hash up to: at each
/// level the running node is combined with the sibling on the side the flag
/// gives.
pub open spec fn fold_path(leaf: Seq<u8>, path: Seq<(Seq<u8>, bool)>) -> Seq<u8>
    decreases path.len(),
{
    if path.len() == 0 {
        leaf
    } else {
        let below = fold_path(leaf, path.drop_last());
        let level = (path.len() - 1) as nat;
        if path.last().1 {
            merkle_hash_spec(level, path.last().0, below)
        } else {
            merkle_hash_spec(level, below, path.last().0)
        }
    }
}

/// Whether `a` is an initial segment of `b`.
pub open spec fn is_prefix(a: Seq<Seq<u8>>, b: Seq<Seq<u8>>) -> bool {
    a.len() <= b.len() && a == b.take(a.len() as int)
}

/// The subtree that holds a position starts at or before it and ends after it.
pub proof fn lemma_level_index_bounds(position: nat, level: nat)
    ensures
        level_index(position, level) * pow2(level) <= position,
        position < (level_index(position, level) + 1) * pow2(level),
    decreases level,
{
    lemma_pow2_pos(level);
    if level == 0 {
        assert(pow2(0) == 1) by {
            vstd::arithmetic::power2::lemma2_to64();
        }
    } else {
        let below = (level - 1) as nat;
        lemma_level_index_bounds(position, below);
        lemma_pow2_unfold(level);
        lemma_pow2_pos(below);
        let a = level_index(position, below);
        let b = level_index(position, level);
        let w = pow2(below);
        assert(b == a / 2);
        assert(pow2(level) == 2 * w);
        assert(b * (2 * w) <= a * w && (a + 1) * w <= (b + 1) * (2 * w)) by (nonlinear_arith)
            requires
                b == a / 2,
                w > 0,
        ;
    }
}

/// A position left of the first boundary of a level lies in its first subtree.
pub proof fn lemma_level_index_zero(position: nat, level: nat)
    requires
        position < pow2(level),
    ensures
        level_index(position, level) == 0,
{
    lemma_level_index_bounds(position, level);
    lemma_pow2_pos(level);
    let a = level_index(position, level);
    let w = pow2(level);
    assert(a == 0) by (nonlinear_arith)
        requires
            a * w <= position,
            position < w,
            a >= 0,
            w > 0,
    ;
}

/// Positions further right lie in subtrees further right.
pub proof fn lemma_level_index_monotonic(p: nat, q: nat, level: nat)
    requires
        p <= q,
    ensures
        level_index(p, level) <= level_index(q, level),
    decreases level,
{
    if level > 0 {
        lemma_level_index_monotonic(p, q, (level - 1) as nat);
    }
}

/// The next position lies in the same subtree or in the next one.
pub proof fn lemma_level_index_step(q: nat, level: nat)
    ensures
        level_index(q + 1, level) == level_index(q, level) || level_index(q + 1, level)
            == level_index(q, level) + 1,
    decreases level,
{
    if level > 0 {
        lemma_level_index_step(q, (level - 1) as nat);
    }
}

/// Once two positions share a subtree, they share every subtree above it.
pub proof fn lemma_level_index_joined(p: nat, q: nat, from: nat, level: nat)
    requires
        from <= level,
        level_index(p, from) == level_index(q, from),
    ensures
        level_index(p, level) == level_index(q, level),
    decreases level,
{
    if level > from {
        lemma_level_index_joined(p, q, from, (level - 1) as nat);
    }
}

/// A subtree that begins at or behind the end of the leaves is empty.
pub proof fn lemma_subtree_empty(leaves: Seq<Seq<u8>>, level: nat, index: nat)
    requires
        index * pow2(level) >= leaves.len(),
    ensures
        subtree_root(leaves, level, index) == empty_root(level),
    decreases level,
{
    if level == 0 {
        assert(pow2(0) == 1) by {
            vstd::arithmetic::power2::lemma2_to64();
        }
    } else {
        let below = (level - 1) as nat;
        lemma_pow2_unfold(level);
        lemma_pow2_pos(below);
        let w = pow2(below);
        assert((2 * index) * w == index * (2 * w) && (2 * index + 1) * w >= index * (2 * w))
            by (nonlinear_arith)
            requires
                w > 0,
        ;
        lemma_subtree_empty(leaves, below, 2 * index);
        lemma_subtree_empty(leaves, below, 2 * index + 1);
    }
}

/// A subtree that ends within the shorter of two leaf sequences, one an
/// initial segment of the other, has the same root in both.
pub proof fn lemma_subtree_prefix(a: Seq<Seq<u8>>, b: Seq<Seq<u8>>, level: nat, index: nat)
    requires
        is_prefix(a, b),
        (index + 1) * pow2(level) <= a.len(),
    ensures
        subtree_root(a, level, index) == subtree_root(b, level, index),
    decreases level,
{
    if level == 0 {
        assert(pow2(0) == 1) by {
            vstd::arithmetic::power2::lemma2_to64();
        }
        assert(a[index as int] == b.take(a.len() as int)[index as int]);
    } else {
        let below = (level - 1) as nat;
        lemma_pow2_unfold(level);
        lemma_pow2_pos(below);
        let w = pow2(below);
        assert((2 * index + 1) * w <= (index + 1) * (2 * w) && (2 * index + 2) * w == (index + 1)
            * (2 * w)) by (nonlinear_arith)
            requires
                w > 0,
        ;
        lemma_subtree_prefix(a, b, below, 2 * index);
        lemma_subtree_prefix(a, b, below, 2 * index + 1);
    }
}

/// The first levels of an authentication path hash the leaf up to the root of
/// the subtree of that height around it.
pub proof fn lemma_fold_auth_path(leaves: Seq<Seq<u8>>, position: nat, levels: nat)
    requires
        position < leaves.len(),
        levels <= depth(),
    ensures
        fold_path(leaves[position as int], auth_path(leaves, position).take(levels as int))
            == subtree_root(leaves, levels, level_index(position, levels)),
    decreases levels,
{
    let path = auth_path(leaves, position);
    if levels > 0 {
        let below = (levels - 1) as nat;
        lemma_fold_auth_path(leaves, position, below);
        let prefix = path.take(levels as int);
        assert(prefix.drop_last() =~= path.take(below as int));
        assert(prefix.last() == path[below as int]);
        let i = level_index(position, below);
        assert(level_index(position, levels) == i / 2);
        if i % 2 == 1 {
            assert(2 * (i / 2) + 1 == i);
        } else {
            assert(2 * (i / 2) == i);
        }
    }
}

/// A leaf and its authentication path hash up to the root of the tree.
pub proof fn lemma_auth_path_root(leaves: Seq<Seq<u8>>, position: nat)
    requires
        position < leaves.len(),
        leaves.len() <= pow2(32),
    ensures
        fold_path(leaves[position as int], auth_path(leaves, position)) == merkle_root(leaves),
{
    lemma_fold_auth_path(leaves, position, depth());
    lemma_level_index_zero(position, depth());
    assert(auth_path(leaves, position).take(depth() as int) =~= auth_path(leaves, position));
}

} // verus!

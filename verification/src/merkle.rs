use vstd::prelude::*;
use merkle_cbt::merkle_tree::Merge;
use merkle_cbt::merkle_tree::CBMT;
use crate::digest::{hash_bytes, sha256_bytes};

verus! {

/// The parent of two nodes: the SHA-256 digest of the left node's bytes
/// followed by the right node's.
pub open spec fn merged(left: Seq<u8>, right: Seq<u8>) -> Seq<u8> {
    sha256_bytes(left + right)
}

/// Node `i` of the complete binary tree over `leaves`. With `n` leaves the
/// tree has `2n - 1` nodes, numbered from the root, level by level; leaf `k`
/// is node `n - 1 + k`, and the children of node `i` are nodes `2i + 1` and
/// `2i + 2`.
pub open spec fn tree_node(leaves: Seq<Seq<u8>>, i: int) -> Seq<u8>
    decreases 2 * leaves.len() - i,
{
    if 0 <= i < leaves.len() - 1 {
        merged(tree_node(leaves, 2 * i + 1), tree_node(leaves, 2 * i + 2))
    } else if leaves.len() - 1 <= i < 2 * leaves.len() - 1 {
        leaves[i - (leaves.len() - 1)]
    } else {
        Seq::empty()
    }
}

/// The root of the tree over `leaves`; the empty byte string for no leaves.
pub open spec fn tree_root(leaves: Seq<Seq<u8>>) -> Seq<u8> {
    if leaves.len() == 0 {
        Seq::empty()
    } else {
        tree_node(leaves, 0)
    }
}

/// How two nodes of the transaction tree are combined.
pub struct MergeTX {}

impl Merge for MergeTX {
    type Item = Vec<u8>;

    fn merge(left: &Vec<u8>, right: &Vec<u8>) -> (parent: Vec<u8>)
        ensures
            parent@ == merged(left@, right@),
    {
        let mut data: Vec<u8> = left.clone();
        let mut tail: Vec<u8> = right.clone();
        data.append(&mut tail);
        hash_bytes(data.as_slice())
    }
}

/// Calls `CBMT::build_merkle_tree` with `MergeTX` and reads the tree's root.
///
/// Trusted: the tree is the complete binary tree that the crate documents,
/// each inner node made by one call of `MergeTX::merge` on its two
/// children, and the root of no leaves is `Vec::default()`.
#[verifier::external_body]
pub(crate) fn build_root(leaves: &Vec<Vec<u8>>) -> (root: Vec<u8>)
    ensures
        root@ == tree_root(leaves.deep_view()),
{
    CBMT::<Vec<u8>, MergeTX>::build_merkle_tree(leaves).root()
}

} // verus!

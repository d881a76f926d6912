use vstd::prelude::*;

verus! {

use crate::distribution::Distribution;
use crate::tree::Tree;
use crate::tree::tree_count;
use crate::tree::tree_count_seq;
use crate::tree::node_count;
use crate::tree::node_count_seq;
use crate::tree::distr_count;
use crate::tree::distr_count_seq;
use crate::tree::sat_add_usize;
use crate::tree::sat_add_usize_exec;
use crate::tree::tree_size;
use crate::tree::tree_size_seq;
use crate::tree::lemma_tree_size_seq_elem;

/// Unfolds the tree-cell count of a suffix by one element.
proof fn lemma_tree_count_seq_skip<Distr: Distribution>(s: Seq<Tree<Distr>>, i: int)
    requires
        0 <= i < s.len(),
    ensures
        tree_count_seq(s.skip(i)) == sat_add_usize(tree_count(s[i]), tree_count_seq(s.skip(i + 1))),
{
    assert(s.skip(i)[0] == s[i]);
    assert(s.skip(i).drop_first() =~= s.skip(i + 1));
}

/// Unfolds the node count of a suffix by one element.
proof fn lemma_node_count_seq_skip<Distr: Distribution>(s: Seq<Tree<Distr>>, i: int)
    requires
        0 <= i < s.len(),
    ensures
        node_count_seq(s.skip(i)) == sat_add_usize(node_count(s[i]), node_count_seq(s.skip(i + 1))),
{
    assert(s.skip(i)[0] == s[i]);
    assert(s.skip(i).drop_first() =~= s.skip(i + 1));
}

/// Unfolds the summary count of a suffix by one element.
proof fn lemma_distr_count_seq_skip<Distr: Distribution>(s: Seq<Tree<Distr>>, i: int)
    requires
        0 <= i < s.len(),
    ensures
        distr_count_seq(s.skip(i)) == sat_add_usize(
            distr_count(s[i]),
            distr_count_seq(s.skip(i + 1)),
        ),
{
    assert(s.skip(i)[0] == s[i]);
    assert(s.skip(i).drop_first() =~= s.skip(i + 1));
}

/// Counts the tree cells, the decision points and the reward summaries of
/// a tree, each sticking at the top of the machine range.
pub fn count_elements<Distr: Distribution>(tree: &Tree<Distr>) -> (r: (usize, usize, usize))
    ensures
        r.0 == tree_count(*tree),
        r.1 == node_count(*tree),
        r.2 == distr_count(*tree),
    decreases tree_size(*tree),
{
    match tree {
        Tree::Node(node) => {
            let mut trees: usize = 1;
            let mut nodes: usize = 1;
            let mut distrs: usize = 1;
            let mut j: usize = 0;
            proof {
                assert(node.children@.skip(0) =~= node.children@);
            }
            while j < node.children.len()
                invariant
                    0 <= j <= node.children@.len(),
                    tree_size_seq(node.children@) < tree_size(*tree),
                    sat_add_usize(trees, tree_count_seq(node.children@.skip(j as int)))
                        == tree_count(*tree),
                    sat_add_usize(nodes, node_count_seq(node.children@.skip(j as int)))
                        == node_count(*tree),
                    sat_add_usize(distrs, distr_count_seq(node.children@.skip(j as int)))
                        == distr_count(*tree),
                decreases node.children@.len() - j,
            {
                proof {
                    lemma_tree_size_seq_elem(node.children@, j as int);
                    lemma_tree_count_seq_skip(node.children@, j as int);
                    lemma_node_count_seq_skip(node.children@, j as int);
                    lemma_distr_count_seq_skip(node.children@, j as int);
                }
                let counts = count_elements(&node.children[j]);
                trees = sat_add_usize_exec(trees, counts.0);
                nodes = sat_add_usize_exec(nodes, counts.1);
                distrs = sat_add_usize_exec(distrs, counts.2);
                j = j + 1;
            }
            proof {
                assert(node.children@.skip(j as int) =~= Seq::<Tree<Distr>>::empty());
            }
            (trees, nodes, distrs)
        },
        Tree::KnownLeaf(_) => (1, 0, 1),
        _ => (1, 0, 0),
    }
}

/// A product of a count and a cell size, clamped into the machine range.
pub open spec fn sat_mul_usize(a: usize, b: usize) -> usize {
    if a * b > usize::MAX {
        usize::MAX
    } else {
        (a * b) as usize
    }
}

/// Multiplies a count by a cell size, sticking at the top of the range.
fn sat_mul_usize_exec(a: usize, b: usize) -> (r: usize)
    ensures
        r == sat_mul_usize(a, b),
{
    match a.checked_mul(b) {
        Some(v) => v,
        None => usize::MAX,
    }
}

/// The bytes a tree holds, estimated from its cell counts and the layout
/// sizes of its cell types, sticking at the top of the machine range.
pub open spec fn memory_used_model<Distr: Distribution>(t: Tree<Distr>) -> usize {
    sat_add_usize(
        sat_add_usize(
            sat_mul_usize(tree_count(t), vstd::layout::size_of::<Tree<Distr>>() as usize),
            sat_mul_usize(
                node_count(t),
                vstd::layout::size_of::<crate::tree::Node<Distr>>() as usize,
            ),
        ),
        sat_mul_usize(distr_count(t), vstd::layout::size_of::<Distr>() as usize),
    )
}

/// Estimates the bytes the tree holds: each cell count times the layout
/// size of its cell type.  The estimate ignores the allocator's own
/// overhead.
pub fn memory_used<Distr: Distribution>(tree: &Tree<Distr>) -> (r: usize)
    ensures
        r == memory_used_model(*tree),
{
    let counts = count_elements(tree);
    let tree_bytes = sat_mul_usize_exec(counts.0, core::mem::size_of::<Tree<Distr>>());
    let node_bytes = sat_mul_usize_exec(counts.1, core::mem::size_of::<crate::tree::Node<Distr>>());
    let distr_bytes = sat_mul_usize_exec(counts.2, core::mem::size_of::<Distr>());
    sat_add_usize_exec(sat_add_usize_exec(tree_bytes, node_bytes), distr_bytes)
}

} // verus!

use vstd::prelude::*;

verus! {

use crate::distribution::Distribution;
use crate::distribution::sat_inc;
use crate::grammar::Grammar;
use crate::grammar::Formula;
use crate::rng::Xoshiro256Plus;
use crate::tree::Tree;
use crate::tree::Node;
use crate::tree::wf;
use crate::tree::no_deleted;
use crate::tree::visits_of;
use crate::tree::leaf_count;
use crate::tree::leaf_count_seq;
use crate::tree::depth_sum;
use crate::tree::depth_sum_seq;
use crate::tree::sat_add_usize;
use crate::tree::sat_add_usize_exec;
use crate::tree::tree_size;
use crate::tree::tree_size_seq;
use crate::tree::lemma_tree_size_seq_elem;
use crate::numeric::lne_milli;
use crate::numeric::lne_milli_model;
use crate::numeric::clamp_i64;
use crate::tree::nodes;
use crate::tree::lemma_nodes_seq_update;
use crate::tree::TreeView;
use crate::tree::view_of;
use crate::tree::views_of;
use crate::tree::lemma_views_of_index;
use crate::tree::lemma_views_of_update;
use crate::expand::Frame;
use crate::expand::rebuild_view;
use crate::expand::lemma_rebuild_view_push;
use crate::expand::frames_nodes;
use crate::expand::lemma_frames_nodes_push;
use crate::expand::frames_wf;
use crate::expand::root_link;
use crate::expand::all_terminal;
use crate::expand::no_empty_rules;
use crate::expand::backpropagate;
use crate::expand::reassemble;
use crate::expand::SearchFault;
use crate::random_expand::random_expand;

/// Unfolds the leaf count of a suffix by one element.
proof fn lemma_leaf_count_seq_skip<Distr: Distribution>(s: Seq<Tree<Distr>>, i: int)
    requires
        0 <= i < s.len(),
    ensures
        leaf_count_seq(s.skip(i)) == sat_add_usize(leaf_count(s[i]), leaf_count_seq(s.skip(i + 1))),
{
    assert(s.skip(i)[0] == s[i]);
    assert(s.skip(i).drop_first() =~= s.skip(i + 1));
}

/// Unfolds the depth sum of a suffix by one element.
proof fn lemma_depth_sum_seq_skip<Distr: Distribution>(s: Seq<Tree<Distr>>, i: int, depth: usize)
    requires
        0 <= i < s.len(),
    ensures
        depth_sum_seq(s.skip(i), depth) == sat_add_usize(
            depth_sum(s[i], depth),
            depth_sum_seq(s.skip(i + 1), depth),
        ),
{
    assert(s.skip(i)[0] == s[i]);
    assert(s.skip(i).drop_first() =~= s.skip(i + 1));
}

/// Computes the number of leaves and the sum of their depths, counted from
/// `depth` at this subtree's root; any tag but `Node` is a leaf.
fn branch_stats<Distr: Distribution>(tree: &Tree<Distr>, depth: usize) -> (r: (usize, usize))
    ensures
        r.0 == leaf_count(*tree),
        r.1 == depth_sum(*tree, depth),
    decreases tree_size(*tree),
{
    match tree {
        Tree::Node(node) => {
            let deeper = sat_add_usize_exec(depth, 1);
            let mut leaves: usize = 0;
            let mut lengths: usize = 0;
            let mut j: usize = 0;
            proof {
                assert(node.children@.skip(0) =~= node.children@);
            }
            while j < node.children.len()
                invariant
                    0 <= j <= node.children@.len(),
                    deeper == sat_add_usize(depth, 1),
                    tree_size_seq(node.children@) < tree_size(*tree),
                    sat_add_usize(leaves, leaf_count_seq(node.children@.skip(j as int)))
                        == leaf_count(*tree),
                    sat_add_usize(lengths, depth_sum_seq(node.children@.skip(j as int), deeper))
                        == depth_sum(*tree, depth),
                decreases node.children@.len() - j,
            {
                proof {
                    lemma_tree_size_seq_elem(node.children@, j as int);
                    lemma_leaf_count_seq_skip(node.children@, j as int);
                    lemma_depth_sum_seq_skip(node.children@, j as int, deeper);
                }
                let stats = branch_stats(&node.children[j], deeper);
                leaves = sat_add_usize_exec(leaves, stats.0);
                lengths = sat_add_usize_exec(lengths, stats.1);
                j = j + 1;
            }
            proof {
                assert(node.children@.skip(j as int) =~= Seq::<Tree<Distr>>::empty());
            }
            (leaves, lengths)
        },
        _ => (1, depth),
    }
}

/// The balance factor in thousandths: the observed mean branch length over
/// the shifted logarithm of the iteration count.  It estimates how fast the
/// tree grows, so that non-growing rollouts can match their depth to the
/// tree's shape.
pub open spec fn balance_factor_model<Distr: Distribution>(t: Tree<Distr>, nb_visit: u64) -> u64 {
    let leaves = if leaf_count(t) == 0 {
        1usize
    } else {
        leaf_count(t)
    };
    let num = (depth_sum(t, 0) as u128) * 1000000;
    let denom = (leaves as u128) * (lne_milli_model(nb_visit) as u128);
    if num / denom > u64::MAX as u128 {
        u64::MAX
    } else {
        (num / denom) as u64
    }
}

/// Computes the balance factor of the tree in thousandths.
pub fn compute_balance_factor<Distr: Distribution>(tree: &Tree<Distr>, nb_visit: u64) -> (r: u64)
    ensures
        r == balance_factor_model(*tree, nb_visit),
{
    let stats = branch_stats(tree, 0);
    let leaves: usize = if stats.0 == 0 {
        1
    } else {
        stats.0
    };
    let l = lne_milli(nb_visit);
    proof {
        assert((stats.1 as u128) * 1000000 <= u128::MAX) by (nonlinear_arith)
            requires
                stats.1 as u128 <= 0xffff_ffff_ffff_ffffu128,
        ;
        assert((leaves as u128) * (l as u128) <= u128::MAX) by (nonlinear_arith)
            requires
                leaves as u128 <= 0xffff_ffff_ffff_ffffu128,
                l as u128 <= 100000,
        ;
        assert((leaves as u128) * (l as u128) >= 1) by (nonlinear_arith)
            requires
                leaves as u128 >= 1,
                l as u128 >= 1000,
        ;
    }
    let num: u128 = (stats.1 as u128) * 1000000;
    let denom: u128 = (leaves as u128) * (l as u128);
    let q = num / denom;
    if q > u64::MAX as u128 {
        u64::MAX
    } else {
        q as u64
    }
}

/// The rollout depth granted to a leaf in non-growing mode: the expected
/// formula length under the growth model, `balance * lne(visits)`, both in
/// thousandths.
pub open spec fn expected_formula_length_model(balance_milli: u64, nb_visit: u64) -> i64 {
    let raw = (lne_milli_model(nb_visit) as u128) * (balance_milli as u128) / 1000000;
    if raw > i64::MAX as u128 {
        i64::MAX
    } else {
        raw as i64
    }
}

/// Computes the expected formula length from the balance factor and the
/// visit count.
fn expected_formula_length(balance_milli: u64, nb_visit: u64) -> (r: i64)
    ensures
        r == expected_formula_length_model(balance_milli, nb_visit),
{
    let l = lne_milli(nb_visit);
    proof {
        assert((l as u128) * (balance_milli as u128) <= u128::MAX) by (nonlinear_arith)
            requires
                l as u128 <= 100000,
                balance_milli as u128 <= 0xffff_ffff_ffff_ffffu128,
        ;
    }
    let raw: u128 = (l as u128) * (balance_milli as u128) / 1000000;
    if raw > i64::MAX as u128 {
        i64::MAX
    } else {
        raw as i64
    }
}

/// One iteration of the search in memory-scarce mode: the tree's node count
/// never grows.  The descent is the growing one at nodes; at an unexplored
/// or known leaf, instead of growing a node, a random rollout completes the
/// formula at a depth read from the balance factor and the leaf's visit
/// count, the leaf absorbs the score and stays a leaf (an unexplored one
/// becomes a known leaf), and the score backpropagates along the path.
#[verifier::loop_isolation(false)]
pub fn no_expand<State, Distr>(
    tree: &mut Tree<Distr>,
    formula: Formula<State>,
    stack: Vec<State>,
    rng: &mut Xoshiro256Plus,
    available_depth: i64,
    balance_milli: u64,
) -> (result: Result<(bool, Formula<State>, State::ScoreType), SearchFault>) where
    State: Grammar,
    Distr: Distribution<ScoreType = State::ScoreType>,

    requires
        wf(*old(tree)),
        !(*old(tree) is Deleted),
        available_depth >= 1 || no_deleted(*old(tree)),
    ensures
        wf(*final(tree)),
        (result matches Ok(r) ==> {
            &&& r.0 == (*final(tree) is Deleted)
            &&& r.2 == State::spec_evaluate(r.1@)
            &&& formula@.is_prefix_of(r.1@)
            &&& forall|i: int|
                formula@.len() <= i < r.1@.len() ==> (#[trigger] r.1@[i]).spec_expand().len() == 0
            &&& !r.0 ==> (*final(tree) is Node || *final(tree) is KnownLeaf) && visits_of(
                *final(tree),
            ) >= visits_of(*old(tree)) && visits_of(*final(tree)) <= sat_inc(
                visits_of(*old(tree)),
            )
            &&& (!r.0 && *old(tree) is Node) ==> final(tree)->Node_0.distribution == old(
                tree,
            )->Node_0.distribution.update_model(r.2)
            &&& (!r.0 && *old(tree) is Leaf) ==> *final(tree) is KnownLeaf
            &&& (!r.0 && *old(tree) is KnownLeaf) ==> *final(tree) is KnownLeaf
                && final(tree)->KnownLeaf_0 == old(tree)->KnownLeaf_0.update_model(r.2)
            &&& no_empty_rules::<State>() && stack@.len() > 0 ==> r.1@.len() > 0
            &&& all_terminal(stack@) ==> r.0 && r.1@ == formula@ + stack@.reverse()
        }),
        all_terminal(stack@) ==> result is Ok,
        result is Err ==> !(*final(tree) is Deleted) && view_of(*final(tree)) == view_of(
            *old(tree),
        ),
        nodes(*final(tree)) <= nodes(*old(tree)),
{
    let ghost tree0 = *tree;
    let ghost formula0 = formula@;
    let ghost stack0 = stack@;
    let mut formula = formula;
    let mut stack = stack;
    let mut cur = Tree::Leaf;
    core::mem::swap(&mut cur, tree);
    let mut frames: Vec<Frame<Distr>> = Vec::new();
    let mut depth: i64 = available_depth;
    let mut fuel: u64 = u64::MAX;
    let initial_len = stack.len();
    proof {
        assert(fuel >= initial_len as u64);
    }
    while stack.len() > 0
        invariant
            wf(cur),
            !(cur is Deleted),
            depth >= 1 || no_deleted(cur),
            frames_wf(frames@),
            frames@.len() > 0 ==> root_link(tree0, frames@[0].distribution),
            frames@.len() == 0 && cur is Node ==> root_link(tree0, cur->Node_0.distribution),
            frames@.len() == 0 && cur is KnownLeaf ==> cur == tree0,
            frames@.len() == 0 && cur is Leaf ==> tree0 is Leaf,
            frames@.len() == 0 ==> cur == tree0,
            frames@.len() > 0 ==> tree0 is Node,
            formula0.is_prefix_of(formula@),
            forall|i: int|
                formula0.len() <= i < formula@.len() ==> (
                #[trigger] formula@[i]).spec_expand().len() == 0,
            all_terminal::<State>(stack0) ==> frames@.len() == 0 && all_terminal(stack@)
                && formula@ + stack@.reverse() == formula0 + stack0.reverse(),
            all_terminal::<State>(stack0) ==> fuel >= stack@.len(),
            no_empty_rules::<State>() && stack0.len() > 0 ==> formula@.len() > formula0.len()
                || stack@.len() > 0,
            frames_nodes(frames@) + nodes(cur) <= nodes(tree0),
            rebuild_view(frames@, view_of(cur)) == view_of(tree0),
        decreases fuel,
    {
        if fuel == 0 {
            reassemble(tree, frames, cur);
            return Err(SearchFault::OutOfSteps);
        }
        fuel = fuel - 1;
        let state = stack[stack.len() - 1];
        let rules = state.expand();
        if rules.len() == 0 {
            // terminal state: it moves to the formula's tail
            let ghost stack_pre = stack@;
            let ghost formula_pre = formula@;
            stack.pop();
            formula.push(state);
            proof {
                if all_terminal::<State>(stack0) {
                    assert(stack_pre.reverse() =~= seq![state] + stack@.reverse());
                    assert(formula@ + stack@.reverse() =~= formula_pre + stack_pre.reverse());
                }
            }
        } else if rules.len() == 1 {
            // a single rule: the state is replaced by the rule's states
            stack.pop();
            let ghost stack_mid = stack@;
            let rule = &rules[0];
            let mut j: usize = 0;
            while j < rule.len()
                invariant
                    0 <= j <= rule@.len(),
                    stack@.len() == stack_mid.len() + j,
                decreases rule@.len() - j,
            {
                stack.push(rule[j]);
                j = j + 1;
            }
        } else {
            // a decision point
            proof {
                if all_terminal::<State>(stack0) {
                    assert(stack@[stack@.len() - 1].spec_expand().len() == 0);
                    assert(false);
                }
            }
            cur = match cur {
                Tree::Deleted => unreached(),
                Tree::Leaf => {
                    // roll out at a depth read from the balance factor and
                    // leave a known leaf behind
                    let ghost fpre = formula@;
                    let mut summary = Distr::new();
                    let length = expected_formula_length(balance_milli, summary.nb_visit());
                    let search_depth = clamp_i64(length as i128 + available_depth as i128 - 1);
                    match random_expand(formula, stack, rng, search_depth) {
                        Ok(rolled) => {
                            let (rolled_formula, score) = rolled;
                            summary.update(score);
                            proof {
                                assert(formula0 =~= rolled_formula@.subrange(
                                    0,
                                    formula0.len() as int,
                                ));
                                assert forall|i: int|
                                    formula0.len() <= i < rolled_formula@.len() implies (
                                #[trigger] rolled_formula@[i]).spec_expand().len() == 0 by {
                                    if i < fpre.len() {
                                        assert(rolled_formula@[i] == fpre[i]);
                                    }
                                }
                                if all_terminal::<State>(stack0) {
                                    assert(false);
                                }
                            }
                            let deleted = backpropagate(
                                tree,
                                frames,
                                Some(Tree::KnownLeaf(summary)),
                                score,
                            );
                            return Ok((deleted, rolled_formula, score));
                        },
                        Err(fault) => {
                            reassemble(tree, frames, Tree::Leaf);
                            return Err(fault);
                        },
                    }
                },
                Tree::KnownLeaf(seed) => {
                    // roll out and fold the score into the known leaf
                    let ghost fpre = formula@;
                    let mut summary = seed;
                    let length = expected_formula_length(balance_milli, summary.nb_visit());
                    let search_depth = clamp_i64(length as i128 + available_depth as i128 - 1);
                    match random_expand(formula, stack, rng, search_depth) {
                        Ok(rolled) => {
                            let (rolled_formula, score) = rolled;
                            summary.update(score);
                            proof {
                                assert(formula0 =~= rolled_formula@.subrange(
                                    0,
                                    formula0.len() as int,
                                ));
                                assert forall|i: int|
                                    formula0.len() <= i < rolled_formula@.len() implies (
                                #[trigger] rolled_formula@[i]).spec_expand().len() == 0 by {
                                    if i < fpre.len() {
                                        assert(rolled_formula@[i] == fpre[i]);
                                    }
                                }
                                if all_terminal::<State>(stack0) {
                                    assert(false);
                                }
                            }
                            let deleted = backpropagate(
                                tree,
                                frames,
                                Some(Tree::KnownLeaf(summary)),
                                score,
                            );
                            return Ok((deleted, rolled_formula, score));
                        },
                        Err(fault) => {
                            reassemble(tree, frames, Tree::KnownLeaf(seed));
                            return Err(fault);
                        },
                    }
                },
                Tree::Node(node) => {
                    // select an arm, suspend this node, descend into the arm
                    let Node { distribution, mut children } = node;
                    if children.len() != rules.len() {
                        let restored = Tree::Node(Node { distribution, children });
                        reassemble(tree, frames, restored);
                        return Err(SearchFault::ShapeMismatch);
                    }
                    let index = Tree::best_child(&children, &distribution, rng, depth);
                    let ghost kids_pre = children@;
                    let child = children.remove(index);
                    children.insert(index, Tree::Leaf);
                    proof {
                        assert(children@ =~= kids_pre.update(index as int, Tree::Leaf));
                        assert(wf(kids_pre[index as int]));
                        if depth < 1 {
                            assert(no_deleted(kids_pre[index as int]));
                            assert(!(kids_pre[index as int] is Deleted));
                        }
                        assert(forall|j: int|
                            0 <= j < children@.len() ==> wf(#[trigger] children@[j]));
                        lemma_nodes_seq_update(kids_pre, index as int, Tree::Leaf);
                    }
                    stack.pop();
                    let ghost stack_mid = stack@;
                    let rule = &rules[index];
                    let mut j: usize = 0;
                    while j < rule.len()
                        invariant
                            0 <= j <= rule@.len(),
                            stack@.len() == stack_mid.len() + j,
                        decreases rule@.len() - j,
                    {
                        stack.push(rule[j]);
                        j = j + 1;
                    }
                    let ghost frames_pre = frames@;
                    let ghost cur_pre_view = view_of(cur);
                    frames.push(Frame { distribution, children, index });
                    proof {
                        if frames_pre.len() > 0 {
                            assert(frames@[0] == frames_pre[0]);
                        } else {
                            assert(frames@[0].distribution == distribution);
                        }
                        lemma_frames_nodes_push(
                            frames_pre,
                            Frame { distribution, children, index },
                        );
                        let fr = Frame { distribution, children, index };
                        lemma_rebuild_view_push(frames_pre, fr, view_of(child));
                        lemma_views_of_update(kids_pre, index as int, Tree::Leaf);
                        lemma_views_of_index(kids_pre);
                        assert(views_of(fr.children@).update(index as int, view_of(child))
                            =~= views_of(kids_pre));
                        assert(TreeView::Node(distribution, views_of(kids_pre)) == cur_pre_view);
                    }
                    child
                },
            };
        }
    }
    // the stack is exhausted: the formula is complete
    proof {
        if all_terminal::<State>(stack0) {
            assert(formula@ + stack@.reverse() =~= formula@);
        }
    }
    let score = formula.evaluate();
    let deleted = backpropagate(tree, frames, None, score);
    Ok((deleted, formula, score))
}

} // verus!

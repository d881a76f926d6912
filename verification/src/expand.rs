use vstd::prelude::*;

verus! {

use crate::distribution::Distribution;
use crate::grammar::Grammar;
use crate::grammar::Formula;
use crate::rng::Xoshiro256Plus;
use crate::tree::Tree;
use crate::tree::Node;
use crate::tree::wf;
use crate::tree::no_deleted;
use crate::tree::visits_of;
use crate::tree::nodes;
use crate::tree::TreeView;
use crate::tree::view_of;
use crate::tree::views_of;
use crate::tree::lemma_views_of_index;
use crate::tree::lemma_views_of_update;
use crate::tree::nodes_seq;
use crate::tree::lemma_nodes_seq_update;
use crate::distribution::sat_inc;
use crate::random_expand::rollout0;
use crate::random_expand::lemma_rollout0_step;
use crate::random_expand::lemma_rollout0_mono;

/// One suspended decision point of the descent: the statistics of the node,
/// its child slots (the descended slot holds a placeholder leaf), and the
/// index of the slot being descended.
pub(crate) struct Frame<Distr: Distribution> {
    pub distribution: Distr,
    pub children: Vec<Tree<Distr>>,
    pub index: usize,
}

/// Every state of the sequence is terminal: it has no expansion rule.
pub open spec fn all_terminal<State: Grammar>(s: Seq<State>) -> bool {
    forall|i: int| 0 <= i < s.len() ==> (#[trigger] s[i]).spec_expand().len() == 0
}

/// No rule of any state is empty: no state derives nothing.  Under this
/// condition a derivation from a non-empty work stack always ends in a
/// non-empty formula.
pub open spec fn no_empty_rules<State: Grammar>() -> bool {
    forall|s: State, k: int|
        0 <= k < s.spec_expand().len() ==> (#[trigger] s.spec_expand()[k]).len() > 0
}

/// The image of the tree that unwinding the suspended frames around an
/// inner subtree would rebuild: each frame takes the inner image into its
/// descended slot.
pub(crate) open spec fn rebuild_view<Distr: Distribution>(
    frames: Seq<Frame<Distr>>,
    inner: TreeView<Distr>,
) -> TreeView<Distr>
    decreases frames.len(),
{
    if frames.len() == 0 {
        inner
    } else {
        let f = frames.last();
        rebuild_view(
            frames.drop_last(),
            TreeView::Node(f.distribution, views_of(f.children@).update(f.index as int, inner)),
        )
    }
}

/// One more suspended frame wraps the inner image once.
pub(crate) proof fn lemma_rebuild_view_push<Distr: Distribution>(
    frames: Seq<Frame<Distr>>,
    f: Frame<Distr>,
    inner: TreeView<Distr>,
)
    ensures
        rebuild_view(frames.push(f), inner) == rebuild_view(
            frames,
            TreeView::Node(f.distribution, views_of(f.children@).update(f.index as int, inner)),
        ),
{
    assert(frames.push(f).drop_last() =~= frames);
    assert(frames.push(f).last() == f);
}

/// The slots of every suspended frame are sound subtrees and its descended
/// index is in range.
pub(crate) open spec fn frames_wf<Distr: Distribution>(frames: Seq<Frame<Distr>>) -> bool {
    forall|k: int|
        0 <= k < frames.len() ==> {
            &&& (#[trigger] frames[k]).children@.len() >= 2
            &&& frames[k].index < frames[k].children@.len()
            &&& forall|j: int|
                0 <= j < frames[k].children@.len() ==> wf(#[trigger] frames[k].children@[j])
        }
}

/// Replaces one slot of a child vector, keeping the others.
fn set_slot<Distr: Distribution>(children: &mut Vec<Tree<Distr>>, index: usize, value: Tree<Distr>)
    requires
        index < old(children)@.len(),
    ensures
        final(children)@ == old(children)@.update(index as int, value),
{
    children.remove(index);
    children.insert(index, value);
    proof {
        assert(final(children)@ =~= old(children)@.update(index as int, value));
    }
}

/// True when every slot holds a tombstone.
fn all_children_deleted<Distr: Distribution>(children: &Vec<Tree<Distr>>) -> (r: bool)
    ensures
        r == (forall|j: int| 0 <= j < children@.len() ==> children@[j] is Deleted),
{
    let mut j: usize = 0;
    let mut all = true;
    while j < children.len()
        invariant
            0 <= j <= children@.len(),
            all == (forall|k: int| 0 <= k < j ==> children@[k] is Deleted),
        decreases children@.len() - j,
    {
        let d = children[j].is_deleted();
        all = all && d;
        j = j + 1;
    }
    all
}

/// Rebuilds the tree from the suspended frames after the descent bottomed
/// out, backpropagating the score: every frame's statistics absorb the
/// score, the descended slot is written back (a tombstone when the subtree
/// below was exhausted, the carried subtree otherwise), and a node whose
/// slots all became tombstones is itself handed up as exhausted.  Returns
/// true when the whole tree is exhausted, in which case the root is written
/// as the tombstone.
pub(crate) fn backpropagate<Distr: Distribution>(
    tree: &mut Tree<Distr>,
    frames: Vec<Frame<Distr>>,
    carried_in: Option<Tree<Distr>>,
    score: Distr::ScoreType,
) -> (deleted: bool)
    requires
        frames_wf(frames@),
        (carried_in matches Some(t) ==> wf(t) && !(t is Deleted)),
    ensures
        wf(*final(tree)),
        deleted == (*final(tree) is Deleted),
        frames@.len() > 0 && !deleted ==> *final(tree) is Node
            && final(tree)->Node_0.distribution == frames@[0].distribution.update_model(score)
            && visits_of(*final(tree)) >= frames@[0].distribution.visits() && visits_of(
            *final(tree),
        ) <= sat_inc(frames@[0].distribution.visits()),
        frames@.len() == 0 && carried_in is None ==> deleted,
        carried_in is Some ==> !deleted,
        frames@.len() == 0 ==> (carried_in matches Some(t) ==> !deleted && *final(tree) == t),
        nodes(*final(tree)) <= frames_nodes(frames@) + (match carried_in {
            Some(t) => nodes(t),
            None => 0,
        }),
{
    let mut frames = frames;
    let mut delete_up: bool = carried_in.is_none();
    let mut carried: Tree<Distr> = match carried_in {
        Some(t) => t,
        None => Tree::Leaf,
    };
    let ghost frames0 = frames@;
    let ghost carried0 = carried;
    proof {
        assert(frames@ =~= frames0.subrange(0, frames@.len() as int));
    }
    while frames.len() > 0
        invariant
            frames@.len() <= frames0.len(),
            frames@ == frames0.subrange(0, frames@.len() as int),
            frames_wf(frames0),
            !delete_up ==> wf(carried) && !(carried is Deleted),
            !delete_up && frames@.len() < frames0.len() ==> carried is Node
                && carried->Node_0.distribution == frames0[frames@.len() as int].distribution.update_model(
                score,
            ) && carried->Node_0.distribution.visits() >= frames0[frames@.len() as int].distribution.visits()
                && carried->Node_0.distribution.visits() <= sat_inc(
                frames0[frames@.len() as int].distribution.visits(),
            ),
            frames@.len() == frames0.len() ==> delete_up == (carried_in is None) && carried
                == carried0,
            carried_in is Some ==> !delete_up,
            (if delete_up {
                0nat
            } else {
                nodes(carried)
            }) <= frames_nodes(frames0.skip(frames@.len() as int)) + (match carried_in {
                Some(t) => nodes(t),
                None => 0nat,
            }),
        decreases frames@.len(),
    {
        let ghost flen = frames@.len() as int;
        let frame = frames.pop().unwrap();
        proof {
            assert(frame == frames0.subrange(0, flen)[flen - 1]);
            assert(frame == frames0[flen - 1]);
            assert(frames@ =~= frames0.subrange(0, frames@.len() as int));
        }
        proof {
            assert(frames0.skip(flen - 1)[0] == frames0[flen - 1]);
            assert(frames0.skip(flen - 1).drop_first() =~= frames0.skip(flen));
            assert(frames_nodes(frames0.skip(flen - 1)) == 1 + nodes_seq(
                frames0[flen - 1].children@,
            ) + frames_nodes(frames0.skip(flen)));
        }
        let ghost was_delete_up = delete_up;
        let ghost carried_pre = carried;
        let Frame { mut distribution, mut children, index } = frame;
        let ghost kids_pre = children@;
        distribution.update(score);
        if delete_up {
            set_slot(&mut children, index, Tree::Deleted);
            proof {
                lemma_nodes_seq_update(kids_pre, index as int, Tree::Deleted);
            }
            if all_children_deleted(&children) {
                // every arm exhausted: hand the deletion up
                delete_up = true;
            } else {
                proof {
                    assert(forall|j: int|
                        0 <= j < children@.len() ==> wf(#[trigger] children@[j]));
                }
                carried = Tree::Node(Node { distribution, children });
                delete_up = false;
            }
        } else {
            set_slot(&mut children, index, carried);
            proof {
                assert(forall|j: int| 0 <= j < children@.len() ==> wf(#[trigger] children@[j]));
                assert(!(children@[index as int] is Deleted));
                lemma_nodes_seq_update(kids_pre, index as int, carried_pre);
                crate::tree::lemma_nodes_seq_elem(kids_pre, index as int);
            }
            carried = Tree::Node(Node { distribution, children });
            delete_up = false;
        }
    }
    proof {
        assert(frames0.skip(0) =~= frames0);
    }
    if delete_up {
        *tree = Tree::Deleted;
        true
    } else {
        *tree = carried;
        false
    }
}


/// Why an iteration was abandoned: the step budget ran out (the budget is
/// astronomically large, so this does not happen on real grammars), or a
/// decision point's slot count did not match the rule count of the state
/// being decided, which a sound grammar never produces.
#[derive(Clone, Copy, PartialEq, Eq, Structural, Debug)]
pub enum SearchFault {
    /// The iteration's step budget ran out.
    OutOfSteps,
    /// A node's slots did not match the grammar's rules for its state.
    ShapeMismatch,
}

/// Ties the statistics at the descent's first frame to the tree the descent
/// started from: an existing summary is reused, and its visit count is the
/// root's visit count.
pub(crate) open spec fn root_link<Distr: Distribution>(t0: Tree<Distr>, d: Distr) -> bool {
    &&& (t0 is Node ==> d == t0->Node_0.distribution)
    &&& (t0 is KnownLeaf ==> d == t0->KnownLeaf_0)
    &&& d.visits() == visits_of(t0)
}

/// Rebuilds the tree from the suspended frames without backpropagating
/// anything, for an abandoned iteration: every descended slot takes back the
/// subtree below it.
pub(crate) fn reassemble<Distr: Distribution>(
    tree: &mut Tree<Distr>,
    frames: Vec<Frame<Distr>>,
    carried_in: Tree<Distr>,
)
    requires
        frames_wf(frames@),
        wf(carried_in),
        !(carried_in is Deleted),
    ensures
        wf(*final(tree)),
        !(*final(tree) is Deleted),
        nodes(*final(tree)) <= frames_nodes(frames@) + nodes(carried_in),
        frames@.len() > 0 ==> *final(tree) is Node && final(tree)->Node_0.distribution
            == frames@[0].distribution,
        frames@.len() == 0 ==> *final(tree) == carried_in,
        view_of(*final(tree)) == rebuild_view(frames@, view_of(carried_in)),
{
    let mut frames = frames;
    let mut carried = carried_in;
    let ghost frames0 = frames@;
    proof {
        assert(frames@ =~= frames0.subrange(0, frames@.len() as int));
    }
    while frames.len() > 0
        invariant
            frames@.len() <= frames0.len(),
            frames@ == frames0.subrange(0, frames@.len() as int),
            frames_wf(frames0),
            frames_wf(frames@),
            wf(carried),
            !(carried is Deleted),
            nodes(carried) <= frames_nodes(frames0.skip(frames@.len() as int)) + nodes(
                carried_in,
            ),
            frames@.len() == frames0.len() ==> carried == carried_in,
            frames@.len() < frames0.len() ==> carried is Node && carried->Node_0.distribution
                == frames0[frames@.len() as int].distribution,
            rebuild_view(frames@, view_of(carried)) == rebuild_view(frames0, view_of(carried_in)),
        decreases frames@.len(),
    {
        let ghost flen = frames@.len() as int;
        let frame = frames.pop().unwrap();
        proof {
            assert(frame == frames0.subrange(0, flen)[flen - 1]);
            assert(frame == frames0[flen - 1]);
            assert(frames@ =~= frames0.subrange(0, frames@.len() as int));
            assert(frames0.skip(flen - 1)[0] == frames0[flen - 1]);
            assert(frames0.skip(flen - 1).drop_first() =~= frames0.skip(flen));
            assert(frames_nodes(frames0.skip(flen - 1)) == 1 + nodes_seq(
                frames0[flen - 1].children@,
            ) + frames_nodes(frames0.skip(flen)));
        }
        let ghost carried_pre = carried;
        let Frame { distribution, mut children, index } = frame;
        let ghost kids_pre = children@;
        proof {
            lemma_nodes_seq_update(kids_pre, index as int, carried_pre);
            crate::tree::lemma_nodes_seq_elem(kids_pre, index as int);
        }
        set_slot(&mut children, index, carried);
        proof {
            assert(forall|j: int| 0 <= j < children@.len() ==> wf(#[trigger] children@[j]));
            assert(!(children@[index as int] is Deleted));
            lemma_views_of_update(kids_pre, index as int, carried_pre);
        }
        carried = Tree::Node(Node { distribution, children });
        proof {
            assert(view_of(carried) == TreeView::Node(
                frame.distribution,
                views_of(frame.children@).update(frame.index as int, view_of(carried_pre)),
            ));
            assert(frames0.subrange(0, flen).drop_last() =~= frames0.subrange(0, flen - 1));
            assert(rebuild_view(frames0.subrange(0, flen), view_of(carried_pre)) == rebuild_view(
                frames@,
                view_of(carried),
            ));
        }
    }
    proof {
        assert(frames0.skip(0) =~= frames0);
    }
    *tree = carried;
}

/// One iteration of the search in growing mode.  The descent walks the tree
/// along the pending work stack: terminal states move to the formula's
/// tail, a single-rule state is replaced by its rule, and at a state with
/// several rules the tree decides.  An unexplored leaf becomes a fresh node
/// (a known leaf seeds it with its statistics) and the depth budget shrinks
/// by one; at a node the best arm is selected and descended, the stack
/// taking that arm's rule.  When the stack empties the formula is complete:
/// it is evaluated, the score is backpropagated along the whole descent
/// path, and the exhausted branch is tombstoned.  Returns whether the root
/// itself became exhausted, the complete formula, and its score.
///
/// Only terminal states are ever appended to the formula, and the returned
/// score is exactly the grammar's fitness of the returned formula.  When the
/// whole stack is terminal the tree takes no part: the root is exhausted at
/// once and the formula is the stack, reversed, behind what was already
/// accumulated.  A surviving root is a node whose statistics absorbed the
/// score: an existing summary advances exactly by `update_model`, and its
/// visit count never decreases and grows by at most one.
#[verifier::loop_isolation(false)]
#[verifier::rlimit(80)]
pub fn expand<State, Distr>(
    tree: &mut Tree<Distr>,
    formula: Formula<State>,
    stack: Vec<State>,
    rng: &mut Xoshiro256Plus,
    available_depth: i64,
) -> (result: Result<(bool, Formula<State>, State::ScoreType), SearchFault>) where
    State: Grammar,
    Distr: Distribution<ScoreType = State::ScoreType>,

    requires
        wf(*old(tree)),
        !(*old(tree) is Deleted),
        available_depth >= 1 || no_deleted(*old(tree)),
    ensures
        wf(*final(tree)),
        (result matches Ok(r) ==> {
            &&& r.0 == (*final(tree) is Deleted)
            &&& r.2 == State::spec_evaluate(r.1@)
            &&& formula@.is_prefix_of(r.1@)
            &&& forall|i: int|
                formula@.len() <= i < r.1@.len() ==> (#[trigger] r.1@[i]).spec_expand().len() == 0
            &&& !r.0 ==> *final(tree) is Node && visits_of(*final(tree)) >= visits_of(*old(tree))
                && visits_of(*final(tree)) <= sat_inc(visits_of(*old(tree)))
            &&& (!r.0 && *old(tree) is Node) ==> final(tree)->Node_0.distribution == old(
                tree,
            )->Node_0.distribution.update_model(r.2)
            &&& (!r.0 && *old(tree) is KnownLeaf) ==> final(tree)->Node_0.distribution == old(
                tree,
            )->KnownLeaf_0.update_model(r.2)
            &&& no_empty_rules::<State>() && stack@.len() > 0 ==> r.1@.len() > 0
            &&& available_depth <= 0 ==> Some(r.1@) == rollout0(
                formula@,
                stack@,
                u64::MAX as nat,
            )
            &&& all_terminal(stack@) ==> r.0 && r.1@ == formula@ + stack@.reverse()
        }),
        all_terminal(stack@) ==> result is Ok,
        result is Err ==> !(*final(tree) is Deleted) && visits_of(*final(tree)) == visits_of(
            *old(tree),
        ),
        (result matches Err(fault) ==> (fault is ShapeMismatch ==> view_of(*final(tree))
            == view_of(*old(tree)))),
{
    let ghost tree0 = *tree;
    let ghost formula0 = formula@;
    let ghost stack0 = stack@;
    let mut formula = formula;
    let mut stack = stack;
    let mut cur = Tree::Leaf;
    core::mem::swap(&mut cur, tree);
    let mut frames: Vec<Frame<Distr>> = Vec::new();
    let mut depth: i64 = available_depth;
    let mut fuel: u64 = u64::MAX;
    let ghost mut pristine: bool = true;
    let initial_len = stack.len();
    proof {
        assert(fuel >= initial_len as u64);
    }
    while stack.len() > 0
        invariant
            pristine ==> rebuild_view(frames@, view_of(cur)) == view_of(tree0),
            !pristine ==> (cur is Node ==> stack@.len() > 0 && cur->Node_0.children@.len()
                == stack@.last().spec_expand().len() && (forall|j: int|
                0 <= j < cur->Node_0.children@.len() ==> (
                #[trigger] cur->Node_0.children@[j]) is Leaf)),
            wf(cur),
            !(cur is Deleted),
            depth >= 1 || no_deleted(cur),
            frames_wf(frames@),
            frames@.len() > 0 ==> root_link(tree0, frames@[0].distribution),
            frames@.len() == 0 && cur is Node ==> root_link(tree0, cur->Node_0.distribution),
            frames@.len() == 0 && cur is KnownLeaf ==> cur == tree0,
            frames@.len() == 0 && cur is Leaf ==> tree0 is Leaf,
            formula0.is_prefix_of(formula@),
            forall|i: int|
                formula0.len() <= i < formula@.len() ==> (
                #[trigger] formula@[i]).spec_expand().len() == 0,
            all_terminal::<State>(stack0) ==> frames@.len() == 0 && all_terminal(stack@)
                && formula@ + stack@.reverse() == formula0 + stack0.reverse(),
            all_terminal::<State>(stack0) ==> fuel >= stack@.len(),
            no_empty_rules::<State>() && stack0.len() > 0 ==> formula@.len() > formula0.len()
                || stack@.len() > 0,
            available_depth <= 0 ==> depth <= 0 && (rollout0(
                formula@,
                stack@,
                fuel as nat,
            ) is Some ==> rollout0(formula0, stack0, u64::MAX as nat) == rollout0(
                formula@,
                stack@,
                fuel as nat,
            )),
        decreases fuel,
    {
        if fuel == 0 {
            reassemble(tree, frames, cur);
            return Err(SearchFault::OutOfSteps);
        }
        fuel = fuel - 1;
        let ghost fuel_pre = fuel + 1;
        let state = stack[stack.len() - 1];
        let rules = state.expand();
        if rules.len() == 0 {
            // terminal state: it moves to the formula's tail
            let ghost stack_pre = stack@;
            let ghost formula_pre = formula@;
            stack.pop();
            formula.push(state);
            proof {
                if all_terminal::<State>(stack0) {
                    assert(stack_pre.reverse() =~= seq![state] + stack@.reverse());
                    assert(formula@ + stack@.reverse() =~= formula_pre + stack_pre.reverse());
                }
                if available_depth <= 0 {
                    lemma_rollout0_step(formula_pre, stack_pre, fuel_pre as nat);
                }
            }
        } else if rules.len() == 1 {
            // a single rule: the state is replaced by the rule's states
            let ghost stack_pre = stack@;
            let ghost formula_pre = formula@;
            stack.pop();
            let ghost stack_mid = stack@;
            let rule = &rules[0];
            let mut j: usize = 0;
            while j < rule.len()
                invariant
                    0 <= j <= rule@.len(),
                    stack@.len() == stack_mid.len() + j,
                    stack@ == stack_mid + rule@.take(j as int),
                decreases rule@.len() - j,
            {
                proof {
                    assert(stack@.push(rule@[j as int]) =~= stack_mid + rule@.take(
                        j as int + 1,
                    ));
                }
                stack.push(rule[j]);
                j = j + 1;
            }
            proof {
                if available_depth <= 0 {
                    assert(rule@ == state.spec_expand()[0]);
                    assert(stack@ =~= stack_pre.drop_last() + state.spec_expand()[0]);
                    lemma_rollout0_step(formula_pre, stack_pre, fuel_pre as nat);
                }
            }
        } else {
            // a decision point
            cur = match cur {
                Tree::Deleted => unreached(),
                Tree::Leaf => {
                    // grow a fresh node, one unexplored slot per rule
                    let mut kids: Vec<Tree<Distr>> = Vec::new();
                    let mut j: usize = 0;
                    while j < rules.len()
                        invariant
                            0 <= j <= rules@.len(),
                            kids@.len() == j,
                            forall|k: int| 0 <= k < j ==> kids@[k] is Leaf,
                        decreases rules@.len() - j,
                    {
                        kids.push(Tree::Leaf);
                        j = j + 1;
                    }
                    depth = if depth > i64::MIN {
                        depth - 1
                    } else {
                        depth
                    };
                    proof {
                        pristine = false;
                        if available_depth <= 0 && rollout0(
                            formula@,
                            stack@,
                            fuel as nat,
                        ) is Some {
                            lemma_rollout0_mono(
                                formula@,
                                stack@,
                                fuel as nat,
                                fuel_pre as nat,
                            );
                        }
                    }
                    let node = Tree::Node(Node { distribution: Distr::new(), children: kids });
                    proof {
                        assert(forall|k: int|
                            0 <= k < node->Node_0.children@.len() ==> wf(
                                #[trigger] node->Node_0.children@[k],
                            ) && no_deleted(node->Node_0.children@[k]));
                        assert(!(node->Node_0.children@[0] is Deleted));
                        assert(wf(node));
                        assert(no_deleted(node));
                    }
                    node
                },
                Tree::KnownLeaf(seed) => {
                    // grow a node seeded with the rollout statistics
                    let mut kids: Vec<Tree<Distr>> = Vec::new();
                    let mut j: usize = 0;
                    while j < rules.len()
                        invariant
                            0 <= j <= rules@.len(),
                            kids@.len() == j,
                            forall|k: int| 0 <= k < j ==> kids@[k] is Leaf,
                        decreases rules@.len() - j,
                    {
                        kids.push(Tree::Leaf);
                        j = j + 1;
                    }
                    depth = if depth > i64::MIN {
                        depth - 1
                    } else {
                        depth
                    };
                    proof {
                        pristine = false;
                        if available_depth <= 0 && rollout0(
                            formula@,
                            stack@,
                            fuel as nat,
                        ) is Some {
                            lemma_rollout0_mono(
                                formula@,
                                stack@,
                                fuel as nat,
                                fuel_pre as nat,
                            );
                        }
                    }
                    let node = Tree::Node(Node { distribution: seed, children: kids });
                    proof {
                        assert(forall|k: int|
                            0 <= k < node->Node_0.children@.len() ==> wf(
                                #[trigger] node->Node_0.children@[k],
                            ) && no_deleted(node->Node_0.children@[k]));
                        assert(!(node->Node_0.children@[0] is Deleted));
                        assert(wf(node));
                        assert(no_deleted(node));
                    }
                    node
                },
                Tree::Node(node) => {
                    // select an arm, suspend this node, descend into the arm
                    let ghost cur_pre_view = view_of(cur);
                    let Node { distribution, mut children } = node;
                    if children.len() != rules.len() {
                        proof {
                            assert(pristine);
                        }
                        let restored = Tree::Node(Node { distribution, children });
                        reassemble(tree, frames, restored);
                        return Err(SearchFault::ShapeMismatch);
                    }
                    let index = Tree::best_child(&children, &distribution, rng, depth);
                    let ghost kids_pre = children@;
                    let child = children.remove(index);
                    children.insert(index, Tree::Leaf);
                    proof {
                        assert(children@ =~= kids_pre.update(index as int, Tree::Leaf));
                        assert(wf(kids_pre[index as int]));
                        if depth < 1 {
                            assert(no_deleted(kids_pre[index as int]));
                            assert(!(kids_pre[index as int] is Deleted));
                        }
                        assert(forall|j: int|
                            0 <= j < children@.len() ==> wf(#[trigger] children@[j]));
                    }
                    let ghost stack_pre = stack@;
                    let ghost formula_pre = formula@;
                    stack.pop();
                    let ghost stack_mid = stack@;
                    let rule = &rules[index];
                    let mut j: usize = 0;
                    while j < rule.len()
                        invariant
                            0 <= j <= rule@.len(),
                            stack@.len() == stack_mid.len() + j,
                            stack@ == stack_mid + rule@.take(j as int),
                        decreases rule@.len() - j,
                    {
                        proof {
                            assert(stack@.push(rule@[j as int]) =~= stack_mid + rule@.take(
                                j as int + 1,
                            ));
                        }
                        stack.push(rule[j]);
                        j = j + 1;
                    }
                    proof {
                        if available_depth <= 0 {
                            assert(index == 0);
                            assert(rule@ == state.spec_expand()[0]);
                            assert(stack@ =~= stack_pre.drop_last() + state.spec_expand()[0]);
                            lemma_rollout0_step(formula_pre, stack_pre, fuel_pre as nat);
                        }
                    }
                    let ghost frames_pre = frames@;
                    frames.push(Frame { distribution, children, index });
                    proof {
                        if frames_pre.len() > 0 {
                            assert(frames@[0] == frames_pre[0]);
                        } else {
                            assert(frames@[0].distribution == distribution);
                        }
                        if pristine {
                            let fr = Frame { distribution, children, index };
                            lemma_rebuild_view_push(frames_pre, fr, view_of(child));
                            lemma_views_of_update(kids_pre, index as int, Tree::Leaf);
                            lemma_views_of_index(kids_pre);
                            assert(views_of(fr.children@).update(index as int, view_of(child))
                                =~= views_of(kids_pre));
                            assert(TreeView::Node(distribution, views_of(kids_pre))
                                == cur_pre_view);
                        }
                    }
                    child
                },
            };
        }
    }
    // the stack is exhausted: the formula is complete
    proof {
        if all_terminal::<State>(stack0) {
            assert(formula@ + stack@.reverse() =~= formula@);
        }
        if available_depth <= 0 {
            assert(rollout0(formula@, stack@, fuel as nat) == Some(formula@));
        }
    }
    let score = formula.evaluate();
    let deleted = backpropagate(tree, frames, None, score);
    Ok((deleted, formula, score))
}


/// The decision points held by a sequence of suspended frames: one per
/// frame, plus those of its slots.
pub(crate) open spec fn frames_nodes<Distr: Distribution>(fr: Seq<Frame<Distr>>) -> nat
    decreases fr,
{
    if fr.len() == 0 {
        0
    } else {
        1 + nodes_seq(fr[0].children@) + frames_nodes(fr.drop_first())
    }
}

/// Suspending one more frame adds its own count at the end.
pub(crate) proof fn lemma_frames_nodes_push<Distr: Distribution>(
    fr: Seq<Frame<Distr>>,
    f: Frame<Distr>,
)
    ensures
        frames_nodes(fr.push(f)) == frames_nodes(fr) + 1 + nodes_seq(f.children@),
    decreases fr.len(),
{
    assert(fr.push(f).len() == fr.len() + 1);
    if fr.len() == 0 {
        assert(fr.push(f)[0] == f);
        assert(fr.push(f).drop_first() =~= Seq::<Frame<Distr>>::empty());
        assert(frames_nodes(fr.push(f).drop_first()) == 0);
        assert(frames_nodes(fr.push(f)) == 1 + nodes_seq(f.children@) + frames_nodes(
            fr.push(f).drop_first(),
        ));
    } else {
        assert(fr.push(f)[0] == fr[0]);
        assert(fr.push(f).drop_first() =~= fr.drop_first().push(f));
        lemma_frames_nodes_push(fr.drop_first(), f);
        assert(frames_nodes(fr.push(f)) == 1 + nodes_seq(fr[0].children@) + frames_nodes(
            fr.push(f).drop_first(),
        ));
        assert(frames_nodes(fr) == 1 + nodes_seq(fr[0].children@) + frames_nodes(
            fr.drop_first(),
        ));
    }
}

/// Dropping the last frame splits the count.
pub(crate) proof fn lemma_frames_nodes_drop_last<Distr: Distribution>(fr: Seq<Frame<Distr>>)
    requires
        fr.len() > 0,
    ensures
        frames_nodes(fr) == frames_nodes(fr.drop_last()) + 1 + nodes_seq(fr.last().children@),
{
    lemma_frames_nodes_push(fr.drop_last(), fr.last());
    assert(fr.drop_last().push(fr.last()) =~= fr);
}

} // verus!



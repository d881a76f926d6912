use vstd::prelude::*;

verus! {

use crate::distribution::Distribution;
use crate::distribution::ArmScore;
use crate::distribution::arm_greater;
use crate::distribution::arm_gt;
use crate::rng::Xoshiro256Plus;

/// A path among the formulas that the grammar can derive.  A `Leaf` is
/// unexplored; a `KnownLeaf` was visited by non-growing rollouts and carries
/// their statistics; a `Node` is a visited decision point with one child
/// slot per rule, in the grammar's rule order; `Deleted` is the tombstone of
/// an exhausted or pruned subtree, kept so that rule indices stay aligned
/// with child indices.
pub enum Tree<Distr: Distribution> {
    /// Tombstone of a fully explored or pruned subtree.
    Deleted,
    /// An unexplored leaf.
    Leaf,
    /// A leaf explored by non-growing rollouts, with its statistics.
    KnownLeaf(Distr),
    /// A visited decision point.
    Node(Node<Distr>),
}

/// A decision point: the rewards observed through this arm and one child
/// slot per rule of the state that produced it.
pub struct Node<Distr: Distribution> {
    /// The rewards that came back through this arm.
    pub distribution: Distr,
    /// One subtree per rule, in the grammar's rule order.
    pub children: Vec<Tree<Distr>>,
}

/// Structural soundness: every decision point keeps one slot per rule of
/// the state that produced it, so at least two; at least one of its slots
/// is not a tombstone; and its subtrees are sound.  A node whose arms were
/// all exhausted is replaced by `Deleted` instead.
pub open spec fn wf<Distr: Distribution>(t: Tree<Distr>) -> bool
    decreases t,
{
    match t {
        Tree::Node(node) => {
            &&& node.children@.len() >= 2
            &&& exists|i: int|
                0 <= i < node.children@.len() && !(node.children@[i] is Deleted)
            &&& forall|i: int|
                0 <= i < node.children@.len() ==> wf(#[trigger] node.children@[i])
        },
        _ => true,
    }
}

/// No tombstone anywhere in the subtree.
pub open spec fn no_deleted<Distr: Distribution>(t: Tree<Distr>) -> bool
    decreases t,
{
    match t {
        Tree::Deleted => false,
        Tree::Node(node) => forall|i: int|
            0 <= i < node.children@.len() ==> no_deleted(#[trigger] node.children@[i]),
        _ => true,
    }
}

/// The visits recorded at the root of the subtree; zero where no statistics
/// are kept.
pub open spec fn visits_of<Distr: Distribution>(t: Tree<Distr>) -> u64 {
    match t {
        Tree::KnownLeaf(d) => d.visits(),
        Tree::Node(node) => node.distribution.visits(),
        _ => 0,
    }
}

/// The ranking draw of one arm: the sampled answer of its summary (nothing
/// for an arm with no summary) and the generator state after the draw.
pub open spec fn arm_sample<Distr: Distribution>(
    t: Tree<Distr>,
    father: Distr,
    rng: Xoshiro256Plus,
) -> (Option<ArmScore>, Xoshiro256Plus) {
    match t {
        Tree::KnownLeaf(d) => {
            let drawn = d.score_model(father, rng);
            (Some(drawn.0), drawn.1)
        },
        Tree::Node(node) => {
            let drawn = node.distribution.score_model(father, rng);
            (Some(drawn.0), drawn.1)
        },
        _ => (None, rng),
    }
}

/// The ranking draws of the arms from position `i` on, in order, threading
/// the generator from draw to draw.
pub open spec fn samples_model<Distr: Distribution>(
    children: Seq<Tree<Distr>>,
    father: Distr,
    rng: Xoshiro256Plus,
    i: int,
) -> (Seq<Option<ArmScore>>, Xoshiro256Plus)
    decreases children.len() - i,
{
    if i < 0 || i >= children.len() {
        (Seq::empty(), rng)
    } else {
        let head = arm_sample(children[i], father, rng);
        let rest = samples_model(children, father, head.1, i + 1);
        (seq![head.0] + rest.0, rest.1)
    }
}

/// One step of the sampling round: the draw at `i`, then the rest.
pub proof fn lemma_samples_model_step<Distr: Distribution>(
    children: Seq<Tree<Distr>>,
    father: Distr,
    rng: Xoshiro256Plus,
    i: int,
)
    requires
        0 <= i < children.len(),
    ensures
        ({
            let head = arm_sample(children[i], father, rng);
            let rest = samples_model(children, father, head.1, i + 1);
            samples_model(children, father, rng, i) == (seq![head.0] + rest.0, rest.1)
        }),
{
}

/// A sampling round answers once per remaining arm.
pub proof fn lemma_samples_model_len<Distr: Distribution>(
    children: Seq<Tree<Distr>>,
    father: Distr,
    rng: Xoshiro256Plus,
    i: int,
)
    requires
        0 <= i <= children.len(),
    ensures
        samples_model(children, father, rng, i).0.len() == children.len() - i,
    decreases children.len() - i,
{
    if i < children.len() {
        let head = arm_sample(children[i], father, rng);
        lemma_samples_model_step(children, father, rng, i);
        lemma_samples_model_len(children, father, head.1, i + 1);
    }
}

/// Position `i` holds a sample that no other sample of the round beats.
pub open spec fn sample_beats_all(samples: Seq<Option<ArmScore>>, i: int) -> bool {
    &&& 0 <= i < samples.len()
    &&& samples[i] is Some
    &&& forall|j: int|
        0 <= j < samples.len() ==> (match #[trigger] samples[j] {
            Some(x) => !arm_gt(x, samples[i]->0),
            None => true,
        })
}

/// Addition that sticks at the top of the machine range; the counting specs
/// below use it so that the executable counters mirror them exactly.
pub open spec fn sat_add_usize(a: usize, b: usize) -> usize {
    if a + b > usize::MAX {
        usize::MAX
    } else {
        (a + b) as usize
    }
}

/// Adds two counters, sticking at the top of the machine range.
pub fn sat_add_usize_exec(a: usize, b: usize) -> (r: usize)
    ensures
        r == sat_add_usize(a, b),
{
    match a.checked_add(b) {
        Some(v) => v,
        None => usize::MAX,
    }
}

/// The number of decision points in the subtree, sticking at the top of the
/// machine range.
pub open spec fn node_count<Distr: Distribution>(t: Tree<Distr>) -> usize
    decreases t,
{
    match t {
        Tree::Node(node) => sat_add_usize(1, node_count_seq(node.children@)),
        _ => 0,
    }
}

/// The number of decision points over a sequence of subtrees.
pub open spec fn node_count_seq<Distr: Distribution>(s: Seq<Tree<Distr>>) -> usize
    decreases s,
{
    if s.len() == 0 {
        0
    } else {
        sat_add_usize(node_count(s[0]), node_count_seq(s.drop_first()))
    }
}

/// The number of tree cells in the subtree, counting every tag.
pub open spec fn tree_count<Distr: Distribution>(t: Tree<Distr>) -> usize
    decreases t,
{
    match t {
        Tree::Node(node) => sat_add_usize(1, tree_count_seq(node.children@)),
        _ => 1,
    }
}

/// The number of tree cells over a sequence of subtrees.
pub open spec fn tree_count_seq<Distr: Distribution>(s: Seq<Tree<Distr>>) -> usize
    decreases s,
{
    if s.len() == 0 {
        0
    } else {
        sat_add_usize(tree_count(s[0]), tree_count_seq(s.drop_first()))
    }
}

/// The number of reward summaries held in the subtree.
pub open spec fn distr_count<Distr: Distribution>(t: Tree<Distr>) -> usize
    decreases t,
{
    match t {
        Tree::Node(node) => sat_add_usize(1, distr_count_seq(node.children@)),
        Tree::KnownLeaf(_) => 1,
        _ => 0,
    }
}

/// The number of reward summaries over a sequence of subtrees.
pub open spec fn distr_count_seq<Distr: Distribution>(s: Seq<Tree<Distr>>) -> usize
    decreases s,
{
    if s.len() == 0 {
        0
    } else {
        sat_add_usize(distr_count(s[0]), distr_count_seq(s.drop_first()))
    }
}

/// The number of leaves, where any tag but `Node` counts as a leaf.
pub open spec fn leaf_count<Distr: Distribution>(t: Tree<Distr>) -> usize
    decreases t,
{
    match t {
        Tree::Node(node) => leaf_count_seq(node.children@),
        _ => 1,
    }
}

/// The number of leaves over a sequence of subtrees.
pub open spec fn leaf_count_seq<Distr: Distribution>(s: Seq<Tree<Distr>>) -> usize
    decreases s,
{
    if s.len() == 0 {
        0
    } else {
        sat_add_usize(leaf_count(s[0]), leaf_count_seq(s.drop_first()))
    }
}

/// The sum over all leaves of their depth, counted from `depth` at this
/// subtree's root.
pub open spec fn depth_sum<Distr: Distribution>(t: Tree<Distr>, depth: usize) -> usize
    decreases t,
{
    match t {
        Tree::Node(node) => depth_sum_seq(node.children@, sat_add_usize(depth, 1)),
        _ => depth,
    }
}

/// The sum of leaf depths over a sequence of subtrees.
pub open spec fn depth_sum_seq<Distr: Distribution>(s: Seq<Tree<Distr>>, depth: usize) -> usize
    decreases s,
{
    if s.len() == 0 {
        0
    } else {
        sat_add_usize(depth_sum(s[0], depth), depth_sum_seq(s.drop_first(), depth))
    }
}

/// The structural size of the subtree; the traversals below decrease on it.
pub open spec fn tree_size<Distr: Distribution>(t: Tree<Distr>) -> nat
    decreases t,
{
    match t {
        Tree::Node(node) => 1 + tree_size_seq(node.children@),
        _ => 1,
    }
}

/// The structural size over a sequence of subtrees.
pub open spec fn tree_size_seq<Distr: Distribution>(s: Seq<Tree<Distr>>) -> nat
    decreases s,
{
    if s.len() == 0 {
        0
    } else {
        tree_size(s[0]) + tree_size_seq(s.drop_first())
    }
}

/// Every subtree in a sequence is smaller than the sequence's total size.
pub proof fn lemma_tree_size_seq_elem<Distr: Distribution>(s: Seq<Tree<Distr>>, i: int)
    requires
        0 <= i < s.len(),
    ensures
        tree_size(s[i]) <= tree_size_seq(s),
    decreases s,
{
    if i > 0 {
        lemma_tree_size_seq_elem(s.drop_first(), i - 1);
        assert(s.drop_first()[i - 1] == s[i]);
    }
}

impl<Distr: Distribution> Tree<Distr> {
    /// Creates a new, empty, tree.
    pub fn new() -> (t: Self)
        ensures
            t is Leaf,
    {
        Tree::Leaf
    }

    /// Returns true on the tombstone tag.
    pub fn is_deleted(&self) -> (r: bool)
        ensures
            r == (*self is Deleted),
    {
        match self {
            Tree::Deleted => true,
            _ => false,
        }
    }

    /// Returns true on an unexplored leaf.
    fn is_unknown_leaf(&self) -> (r: bool)
        ensures
            r == (*self is Leaf),
    {
        match self {
            Tree::Leaf => true,
            _ => false,
        }
    }

    /// Returns true where the tag carries a reward summary.
    fn has_distribution(&self) -> (r: bool)
        ensures
            r == (*self is KnownLeaf || *self is Node),
    {
        match self {
            Tree::KnownLeaf(_) => true,
            Tree::Node(_) => true,
            _ => false,
        }
    }

    /// Reads the reward summary of a visited subtree.
    fn distribution(&self) -> (d: &Distr)
        requires
            *self is KnownLeaf || *self is Node,
        ensures
            *self is KnownLeaf ==> d == self->KnownLeaf_0,
            *self is Node ==> d == self->Node_0.distribution,
    {
        match self {
            Tree::KnownLeaf(d) => d,
            Tree::Node(node) => &node.distribution,
            Tree::Deleted => unreached(),
            Tree::Leaf => unreached(),
        }
    }

    /// Selects the child to descend into.  With no depth budget left the
    /// first arm is taken, which the grammar convention puts on a shortest
    /// path to a complete formula.  Otherwise an unexplored leaf is picked
    /// uniformly at random when one exists; else the live arm with the
    /// highest sampled score wins, ties broken uniformly at random.  A
    /// tombstone is never selected while the depth budget lasts.
    pub fn best_child(
        children: &Vec<Tree<Distr>>,
        distribution_father: &Distr,
        rng: &mut Xoshiro256Plus,
        available_depth: i64,
    ) -> (index: usize)
        requires
            children@.len() >= 1,
            available_depth > 0 ==> exists|i: int|
                0 <= i < children@.len() && !(children@[i] is Deleted),
        ensures
            index < children@.len(),
            available_depth <= 0 ==> index == 0,
            available_depth > 0 ==> !(children@[index as int] is Deleted),
            available_depth > 0 && (exists|i: int|
                0 <= i < children@.len() && children@[i] is Leaf) ==> children@[index as int] is Leaf,
            available_depth > 0 && (forall|i: int|
                0 <= i < children@.len() ==> !(#[trigger] children@[i] is Leaf))
                ==> sample_beats_all(
                samples_model(children@, *distribution_father, *old(rng), 0).0,
                index as int,
            ),
    {
        if available_depth <= 0 {
            return 0;
        }
        // pick uniformly among the unexplored leaves, if any
        let mut leaf_choice: Option<usize> = None;
        let mut leaf_seen: u64 = 0;
        let mut i: usize = 0;
        while i < children.len()
            invariant
                0 <= i <= children@.len(),
                leaf_choice is Some <==> exists|j: int| 0 <= j < i && children@[j] is Leaf,
                leaf_choice matches Some(c) ==> c < i && children@[c as int] is Leaf,
                leaf_choice is None ==> leaf_seen == 0,
                leaf_choice is None ==> *rng == *old(rng),
                leaf_seen <= i,
            decreases children@.len() - i,
        {
            if children[i].is_unknown_leaf() {
                leaf_seen = leaf_seen + 1;
                if rng.next_below(leaf_seen) == 0 {
                    leaf_choice = Some(i);
                }
            }
            i = i + 1;
        }
        if let Some(index) = leaf_choice {
            return index;
        }
        // no leaf: draw one sample per live arm, the generator threaded
        // from arm to arm
        let ghost full = samples_model(children@, *distribution_father, *rng, 0);
        let mut samples: Vec<Option<ArmScore>> = Vec::new();
        let mut i: usize = 0;
        proof {
            lemma_samples_model_len(children@, *distribution_father, *rng, 0);
            assert(full.0.skip(0) =~= full.0);
            assert((full.0.skip(0), full.1) == full);
            assert(samples@ =~= full.0.take(0));
        }
        while i < children.len()
            invariant
                0 <= i <= children@.len(),
                samples@.len() == i,
                !(exists|j: int| 0 <= j < children@.len() && children@[j] is Leaf),
                samples_model(children@, *distribution_father, *rng, i as int) == (
                    full.0.skip(i as int),
                    full.1,
                ),
                full.0.len() == children@.len(),
                samples@ == full.0.take(i as int),
                forall|j: int|
                    0 <= j < i ==> ((#[trigger] samples@[j]) is Some <==> !(
                    children@[j] is Deleted)),
            decreases children@.len() - i,
        {
            let ghost rng_pre = *rng;
            let ghost head = arm_sample(children@[i as int], *distribution_father, rng_pre);
            let ghost rest = samples_model(
                children@,
                *distribution_father,
                head.1,
                i as int + 1,
            );
            proof {
                lemma_samples_model_step(children@, *distribution_father, rng_pre, i as int);
                assert(samples_model(children@, *distribution_father, rng_pre, i as int) == (
                    seq![head.0] + rest.0,
                    rest.1,
                ));
                assert(full.0.skip(i as int) == seq![head.0] + rest.0);
                assert((seq![head.0] + rest.0)[0] == head.0);
                assert(full.0[i as int] == full.0.skip(i as int)[0]);
                assert((seq![head.0] + rest.0).drop_first() =~= rest.0);
                assert(full.0.skip(i as int).drop_first() =~= full.0.skip(i as int + 1));
                assert(samples_model(children@, *distribution_father, head.1, i as int + 1) == (
                    full.0.skip(i as int + 1),
                    full.1,
                ));
            }
            if children[i].is_deleted() {
                samples.push(None);
            } else {
                let drawn = children[i].distribution().score(distribution_father, rng);
                samples.push(Some(drawn));
            }
            proof {
                assert(samples@ =~= full.0.take(i as int + 1));
            }
            i = i + 1;
        }
        proof {
            assert(samples@ =~= full.0);
        }
        // keep the arm with the highest sample; ties fall to a second
        // uniform draw
        let mut best: Option<usize> = None;
        let mut best_score = ArmScore::Forbid;
        let mut ties: u64 = 0;
        let mut i: usize = 0;
        while i < samples.len()
            invariant
                0 <= i <= samples@.len(),
                samples@.len() == children@.len(),
                forall|j: int|
                    0 <= j < samples@.len() ==> ((#[trigger] samples@[j]) is Some <==> !(
                    children@[j] is Deleted)),
                best is Some <==> exists|j: int| 0 <= j < i && samples@[j] is Some,
                best matches Some(b) ==> b < i && samples@[b as int] == Some(best_score) && (
                forall|k: int|
                    0 <= k < i ==> (match #[trigger] samples@[k] {
                        Some(x) => !arm_gt(x, best_score),
                        None => true,
                    })),
            decreases samples@.len() - i,
        {
            if let Some(sampled) = samples[i] {
                match best {
                    None => {
                        best = Some(i);
                        best_score = sampled;
                        ties = 1;
                    },
                    Some(_) => {
                        if arm_greater(sampled, best_score) {
                            best = Some(i);
                            best_score = sampled;
                            ties = 1;
                        } else if sampled == best_score {
                            ties = if ties == u64::MAX {
                                ties
                            } else {
                                ties + 1
                            };
                            if rng.next_below(ties) == 0 {
                                best = Some(i);
                            }
                        }
                    },
                }
            }
            i = i + 1;
        }
        proof {
            match best {
                None => {
                    let w = choose|w: int|
                        0 <= w < children@.len() && !(children@[w] is Deleted);
                    assert(samples@[w] is Some);
                    assert(false);
                },
                Some(b) => {
                    assert(samples@[b as int] is Some);
                    assert(samples@[b as int]->0 == best_score);
                    assert(sample_beats_all(samples@, b as int));
                },
            }
        }
        match best {
            Some(index) => index,
            None => unreached(),
        }
    }

    /// Prunes the tree to cut its memory footprint: at the first decision
    /// point where several arms carry statistics, only the most visited
    /// informed arm survives and every other informed arm becomes a
    /// tombstone, uninformed arms standing untouched; with exactly one
    /// informed arm the walk continues below it; a node with no informed
    /// arm, and anything that is not a node, stands exactly as it was.
    /// Slot counts, the node's own statistics and the root's visit count
    /// are kept, and no decision point is ever added.
    pub fn prune(&mut self)
        requires
            wf(*old(self)),
        ensures
            wf(*final(self)),
            (*final(self) is Deleted) == (*old(self) is Deleted),
            visits_of(*final(self)) == visits_of(*old(self)),
            nodes(*final(self)) <= nodes(*old(self)),
            !(*old(self) is Node) ==> *final(self) == *old(self),
            *old(self) is Node ==> *final(self) is Node && final(self)->Node_0.distribution
                == old(self)->Node_0.distribution && final(self)->Node_0.children@.len() == old(
                self,
            )->Node_0.children@.len(),
            *old(self) is Node && informed_count(old(self)->Node_0.children@) == 0 ==> *final(self)
                == *old(self),
            *old(self) is Node && informed_count(old(self)->Node_0.children@) >= 2 ==> (exists|
                keep: int,
            |
                #![auto]
                pruned_slots(
                    old(self)->Node_0.children@,
                    final(self)->Node_0.children@,
                    keep,
                )),
            *old(self) is Node && informed_count(old(self)->Node_0.children@) == 1 ==> (exists|
                keep: int,
            |
                #![auto]
                {
                    &&& 0 <= keep < old(self)->Node_0.children@.len()
                    &&& informed(old(self)->Node_0.children@[keep])
                    &&& !(final(self)->Node_0.children@[keep] is Deleted)
                    &&& visits_of(final(self)->Node_0.children@[keep]) == visits_of(
                        old(self)->Node_0.children@[keep],
                    )
                    &&& forall|j: int|
                        0 <= j < old(self)->Node_0.children@.len() && j != keep
                            ==> final(self)->Node_0.children@[j] == #[trigger] old(
                            self,
                        )->Node_0.children@[j]
                }),
    {
        let mut taken = Tree::Leaf;
        core::mem::swap(&mut taken, self);
        let pruned = prune_tree(taken);
        *self = pruned;
    }

    /// Returns true where some tombstone stands in the subtree.
    pub fn contains_deleted(&self) -> (r: bool)
        ensures
            r == !no_deleted(*self),
        decreases tree_size(*self),
    {
        match self {
            Tree::Deleted => true,
            Tree::Node(node) => {
                let mut i: usize = 0;
                let mut found = false;
                while i < node.children.len()
                    invariant
                        0 <= i <= node.children@.len(),
                        found == !(forall|j: int|
                            0 <= j < i ==> no_deleted(#[trigger] node.children@[j])),
                        tree_size_seq(node.children@) < tree_size(*self),
                    decreases node.children@.len() - i,
                {
                    proof {
                        lemma_tree_size_seq_elem(node.children@, i as int);
                    }
                    let c = node.children[i].contains_deleted();
                    found = found || c;
                    i = i + 1;
                }
                found
            },
            _ => false,
        }
    }
}


/// Prunes the tree by value: at the first decision point where several arms
/// carry statistics, only the most visited arm survives and every other
/// informed arm becomes a tombstone; where exactly one arm carries
/// statistics the walk continues below it.  A node whose arms carry no
/// statistics yet is left as it stands.
/// An arm that carries statistics: a known leaf or a node.
pub open spec fn informed<Distr: Distribution>(t: Tree<Distr>) -> bool {
    t is KnownLeaf || t is Node
}

/// How many arms of a slot sequence carry statistics.
pub open spec fn informed_count<Distr: Distribution>(s: Seq<Tree<Distr>>) -> nat
    decreases s.len(),
{
    if s.len() == 0 {
        0
    } else {
        informed_count(s.drop_last()) + if informed(s.last()) {
            1nat
        } else {
            0nat
        }
    }
}

/// Sums of node counts respect a slot-by-slot bound.
proof fn lemma_nodes_seq_pointwise<Distr: Distribution>(a: Seq<Tree<Distr>>, b: Seq<Tree<Distr>>)
    requires
        a.len() == b.len(),
        forall|j: int| 0 <= j < a.len() ==> nodes(#[trigger] a[j]) <= nodes(b[j]),
    ensures
        nodes_seq(a) <= nodes_seq(b),
    decreases a.len(),
{
    if a.len() > 0 {
        assert(nodes(a[0]) <= nodes(b[0]));
        assert(forall|j: int|
            0 <= j < a.drop_first().len() ==> nodes(#[trigger] a.drop_first()[j]) <= nodes(
                b.drop_first()[j],
            ));
        lemma_nodes_seq_pointwise(a.drop_first(), b.drop_first());
    }
}

/// What a pruned decision point promises about its slots: the kept arm is
/// the most visited informed one, every other informed arm is a tombstone,
/// and every uninformed arm stands untouched.
pub open spec fn pruned_slots<Distr: Distribution>(
    before: Seq<Tree<Distr>>,
    after: Seq<Tree<Distr>>,
    keep: int,
) -> bool {
    &&& 0 <= keep < before.len()
    &&& informed(before[keep])
    &&& after[keep] == before[keep]
    &&& forall|j: int|
        0 <= j < before.len() && j != keep && informed(#[trigger] before[j]) ==> after[j] is Deleted
    &&& forall|j: int|
        0 <= j < before.len() && !informed(#[trigger] before[j]) ==> after[j] == before[j]
    &&& forall|j: int|
        0 <= j < before.len() && informed(#[trigger] before[j]) ==> visits_of(before[keep])
            >= visits_of(before[j])
}

/// Prunes the tree by value: at the first decision point where several arms
/// carry statistics, only the most visited informed arm survives and every
/// other informed arm becomes a tombstone, uninformed arms standing
/// untouched; where exactly one arm carries statistics the walk continues
/// below it; a node whose arms carry no statistics yet, and anything that
/// is not a node, is left exactly as it stands.  Pruning keeps the node's
/// own statistics and its slot count, never adds a decision point, and
/// never turns a live tree into a tombstone.
fn prune_tree<Distr: Distribution>(t: Tree<Distr>) -> (r: Tree<Distr>)
    requires
        wf(t),
    ensures
        wf(r),
        (r is Deleted) == (t is Deleted),
        visits_of(r) == visits_of(t),
        nodes(r) <= nodes(t),
        !(t is Node) ==> r == t,
        t is Node ==> r is Node && r->Node_0.distribution == t->Node_0.distribution
            && r->Node_0.children@.len() == t->Node_0.children@.len(),
        t is Node && informed_count(t->Node_0.children@) == 0 ==> r == t,
        t is Node && informed_count(t->Node_0.children@) >= 2 ==> (exists|keep: int|
            #![auto]
            pruned_slots(t->Node_0.children@, r->Node_0.children@, keep)),
        t is Node && informed_count(t->Node_0.children@) == 1 ==> (exists|keep: int|
            #![auto]
            {
                &&& 0 <= keep < t->Node_0.children@.len()
                &&& informed(t->Node_0.children@[keep])
                &&& !(r->Node_0.children@[keep] is Deleted)
                &&& visits_of(r->Node_0.children@[keep]) == visits_of(t->Node_0.children@[keep])
                &&& forall|j: int|
                    0 <= j < t->Node_0.children@.len() && j != keep
                        ==> r->Node_0.children@[j] == #[trigger] t->Node_0.children@[j]
            }),
    decreases tree_size(t),
{
    match t {
        Tree::Node(node) => {
            let Node { distribution, mut children } = node;
            let ghost kids0 = children@;
            let mut candidates: Vec<usize> = Vec::new();
            let mut i: usize = 0;
            proof {
                assert(kids0.take(0) =~= Seq::<Tree<Distr>>::empty());
            }
            while i < children.len()
                invariant
                    0 <= i <= children@.len(),
                    children@ == kids0,
                    candidates@.len() == informed_count(kids0.take(i as int)),
                    forall|k: int|
                        0 <= k < candidates@.len() ==> (#[trigger] candidates@[k]) < i && informed(
                            children@[candidates@[k] as int],
                        ),
                    forall|idx: int|
                        0 <= idx < i && informed(#[trigger] kids0[idx]) ==> (exists|k: int|
                            0 <= k < candidates@.len() && candidates@[k] == idx),
                decreases children@.len() - i,
            {
                proof {
                    assert(kids0.take(i as int + 1).drop_last() =~= kids0.take(i as int));
                    assert(kids0.take(i as int + 1).last() == kids0[i as int]);
                }
                let ghost cand_pre = candidates@;
                if children[i].has_distribution() {
                    candidates.push(i);
                }
                proof {
                    assert forall|idx: int|
                        0 <= idx < i + 1 && informed(#[trigger] kids0[idx]) implies (exists|k: int|
                        0 <= k < candidates@.len() && candidates@[k] == idx) by {
                        if idx < i {
                            let k = choose|k: int|
                                0 <= k < cand_pre.len() && cand_pre[k] == idx;
                            assert(candidates@[k] == idx);
                        } else {
                            assert(candidates@[candidates@.len() - 1] == idx);
                        }
                    }
                }
                i = i + 1;
            }
            proof {
                assert(kids0.take(kids0.len() as int) =~= kids0);
            }
            if candidates.len() == 0 {
                // nothing carries statistics yet: leave the node as it is
                Tree::Node(Node { distribution, children })
            } else if candidates.len() == 1 {
                // a single informed arm: continue pruning below it
                let index = candidates[0];
                let child = children.remove(index);
                children.insert(index, Tree::Leaf);
                proof {
                    assert(children@ =~= kids0.update(index as int, Tree::Leaf));
                    assert(wf(kids0[index as int]));
                    lemma_tree_size_seq_elem(kids0, index as int);
                }
                let pruned = prune_tree(child);
                children.remove(index);
                children.insert(index, pruned);
                proof {
                    assert(children@ =~= kids0.update(index as int, pruned));
                    assert(forall|j: int|
                        0 <= j < children@.len() ==> wf(#[trigger] children@[j]));
                    assert(!(children@[index as int] is Deleted));
                    lemma_nodes_seq_update(kids0, index as int, pruned);
                }
                Tree::Node(Node { distribution, children })
            } else {
                // keep the most visited informed arm, tombstone the others
                let mut best_pos: usize = 0;
                let mut best_visits: u64 = children[candidates[0]].distribution().nb_visit();
                let mut j: usize = 1;
                while j < candidates.len()
                    invariant
                        1 <= j <= candidates@.len(),
                        best_pos < j,
                        children@ == kids0,
                        best_visits == visits_of(kids0[candidates@[best_pos as int] as int]),
                        forall|k: int|
                            0 <= k < candidates@.len() ==> (#[trigger] candidates@[k])
                                < children@.len() && informed(
                                children@[candidates@[k] as int],
                            ),
                        forall|k: int|
                            0 <= k < j ==> visits_of(
                                kids0[(#[trigger] candidates@[k]) as int],
                            ) <= best_visits,
                    decreases candidates@.len() - j,
                {
                    let visits = children[candidates[j]].distribution().nb_visit();
                    if visits > best_visits {
                        best_visits = visits;
                        best_pos = j;
                    }
                    j = j + 1;
                }
                let best_index = candidates[best_pos];
                let mut j: usize = 0;
                while j < candidates.len()
                    invariant
                        0 <= j <= candidates@.len(),
                        best_pos < candidates@.len(),
                        best_index == candidates@[best_pos as int],
                        children@.len() == kids0.len(),
                        forall|k: int|
                            0 <= k < candidates@.len() ==> (#[trigger] candidates@[k])
                                < children@.len() && informed(kids0[candidates@[k] as int]),
                        forall|k: int| 0 <= k < children@.len() ==> wf(#[trigger] children@[k]),
                        children@[best_index as int] == kids0[best_index as int],
                        informed(children@[best_index as int]),
                        forall|idx: int|
                            0 <= idx < kids0.len() && !informed(#[trigger] kids0[idx])
                                ==> children@[idx] == kids0[idx],
                        forall|k: int|
                            0 <= k < j && candidates@[k] != best_index ==> children@[(
                            #[trigger] candidates@[k]) as int] is Deleted,
                        forall|idx: int|
                            0 <= idx < kids0.len() ==> nodes(#[trigger] children@[idx]) <= nodes(
                                kids0[idx],
                            ),
                        forall|idx: int|
                            0 <= idx < kids0.len() && children@[idx] != kids0[idx]
                                ==> children@[idx] is Deleted,
                    decreases candidates@.len() - j,
                {
                    let target = candidates[j];
                    if target != best_index {
                        let ghost pre = children@;
                        children.remove(target);
                        children.insert(target, Tree::Deleted);
                        proof {
                            assert(children@ =~= pre.update(target as int, Tree::Deleted));
                            assert(forall|k: int|
                                0 <= k < children@.len() ==> wf(#[trigger] children@[k]));
                        }
                    }
                    j = j + 1;
                }
                proof {
                    assert(!(children@[best_index as int] is Deleted));
                    assert(pruned_slots(kids0, children@, best_index as int));
                    lemma_nodes_seq_pointwise(children@, kids0);
                }
                Tree::Node(Node { distribution, children })
            }
        },
        _ => t,
    }
}

/// The exact number of decision points in the subtree, as a mathematical
/// count; the growth law of the non-growing search mode is stated over it.
pub open spec fn nodes<Distr: Distribution>(t: Tree<Distr>) -> nat
    decreases t,
{
    match t {
        Tree::Node(node) => 1 + nodes_seq(node.children@),
        _ => 0,
    }
}

/// The exact number of decision points over a sequence of subtrees.
pub open spec fn nodes_seq<Distr: Distribution>(s: Seq<Tree<Distr>>) -> nat
    decreases s,
{
    if s.len() == 0 {
        0
    } else {
        nodes(s[0]) + nodes_seq(s.drop_first())
    }
}

/// Writing one slot trades its old count for the new value's count.
pub proof fn lemma_nodes_seq_update<Distr: Distribution>(
    s: Seq<Tree<Distr>>,
    i: int,
    v: Tree<Distr>,
)
    requires
        0 <= i < s.len(),
    ensures
        nodes_seq(s.update(i, v)) + nodes(s[i]) == nodes_seq(s) + nodes(v),
    decreases s.len(),
{
    if i == 0 {
        assert(s.update(0, v)[0] == v);
        assert(s.update(0, v).drop_first() =~= s.drop_first());
    } else {
        assert(s.update(i, v)[0] == s[0]);
        assert(s.update(i, v).drop_first() =~= s.drop_first().update(i - 1, v));
        lemma_nodes_seq_update(s.drop_first(), i - 1, v);
    }
}

/// Every subtree counts no more decision points than its sequence.
pub proof fn lemma_nodes_seq_elem<Distr: Distribution>(s: Seq<Tree<Distr>>, i: int)
    requires
        0 <= i < s.len(),
    ensures
        nodes(s[i]) <= nodes_seq(s),
    decreases s.len(),
{
    if i > 0 {
        lemma_nodes_seq_elem(s.drop_first(), i - 1);
        assert(s.drop_first()[i - 1] == s[i]);
    }
}


/// The mathematical image of a tree: the same tags and summaries with the
/// slots as a sequence, so two trees that hold the same search state have
/// the same image whatever machine containers carry them.
pub enum TreeView<Distr> {
    /// The image of a tombstone.
    Deleted,
    /// The image of an unexplored leaf.
    Leaf,
    /// The image of an explored leaf.
    KnownLeaf(Distr),
    /// The image of a decision point.
    Node(Distr, Seq<TreeView<Distr>>),
}

/// The image of a tree.
pub open spec fn view_of<Distr: Distribution>(t: Tree<Distr>) -> TreeView<Distr>
    decreases t,
{
    match t {
        Tree::Deleted => TreeView::Deleted,
        Tree::Leaf => TreeView::Leaf,
        Tree::KnownLeaf(d) => TreeView::KnownLeaf(d),
        Tree::Node(node) => TreeView::Node(node.distribution, views_of(node.children@)),
    }
}

/// The images of a slot sequence, in order.
pub open spec fn views_of<Distr: Distribution>(s: Seq<Tree<Distr>>) -> Seq<TreeView<Distr>>
    decreases s,
{
    if s.len() == 0 {
        Seq::empty()
    } else {
        seq![view_of(s[0])] + views_of(s.drop_first())
    }
}

/// The images of a slot sequence are its elementwise images.
pub proof fn lemma_views_of_index<Distr: Distribution>(s: Seq<Tree<Distr>>)
    ensures
        views_of(s).len() == s.len(),
        forall|i: int| 0 <= i < s.len() ==> views_of(s)[i] == view_of(#[trigger] s[i]),
    decreases s.len(),
{
    if s.len() > 0 {
        lemma_views_of_index(s.drop_first());
        assert(forall|i: int|
            0 < i < s.len() ==> views_of(s)[i] == views_of(s.drop_first())[i - 1] && (
            #[trigger] s[i]) == s.drop_first()[i - 1]);
    }
}

/// Writing one slot writes one image.
pub proof fn lemma_views_of_update<Distr: Distribution>(
    s: Seq<Tree<Distr>>,
    i: int,
    v: Tree<Distr>,
)
    requires
        0 <= i < s.len(),
    ensures
        views_of(s.update(i, v)) == views_of(s).update(i, view_of(v)),
{
    lemma_views_of_index(s);
    lemma_views_of_index(s.update(i, v));
    assert forall|j: int| 0 <= j < s.len() implies views_of(s.update(i, v))[j] == views_of(
        s,
    ).update(i, view_of(v))[j] by {
        assert(views_of(s.update(i, v))[j] == view_of(s.update(i, v)[j]));
        assert(views_of(s)[j] == view_of(s[j]));
    }
    assert(views_of(s.update(i, v)) =~= views_of(s).update(i, view_of(v)));
}

} // verus!




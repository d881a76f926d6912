use vstd::prelude::*;

verus! {

use crate::grammar::Grammar;
use crate::grammar::Formula;
use crate::results::SearchResult;

/// An entry of the Pareto front.
pub struct ParetoElement<State: Grammar> {
    /// The complete formula.
    pub formula: Formula<State>,
    /// Its score; higher is better.
    pub score: i64,
    /// Its cost, as the grammar counts it; lower is better.
    pub cost: usize,
}

/// An entry dominates another when its score is at least as high and its
/// cost at most as high.
pub open spec fn dominates<State>(a: (i64, usize, Seq<State>), b: (i64, usize, Seq<State>)) -> bool {
    a.0 >= b.0 && a.1 <= b.1
}

/// The front is kept with strictly falling scores and strictly falling
/// costs: the best-scoring entry first, the cheapest last, and no entry
/// dominated by another.
pub open spec fn pareto_sorted<State>(front: Seq<(i64, usize, Seq<State>)>) -> bool {
    forall|i: int, j: int|
        0 <= i < j < front.len() ==> (#[trigger] front[i]).0 > (#[trigger] front[j]).0 && front[i].1
            > front[j].1
}

/// Insertion into the front, walking from the best-scoring end: every entry
/// the newcomer dominates is dropped; the newcomer stands right before the
/// first entry it beats on score; entries that are cheaper but worse are
/// walked over; a newcomer dominated by an entry is discarded.  The flag is
/// true exactly when the newcomer lands ahead of the previous front.
pub open spec fn pareto_insert<State>(
    front: Seq<(i64, usize, Seq<State>)>,
    e: (i64, usize, Seq<State>),
) -> (Seq<(i64, usize, Seq<State>)>, bool)
    decreases front.len(),
{
    if front.len() == 0 {
        (seq![e], true)
    } else {
        let h = front[0];
        if h.0 <= e.0 && h.1 >= e.1 {
            // the newcomer dominates the head: the head goes
            pareto_insert(front.drop_first(), e)
        } else if h.0 < e.0 {
            // the newcomer scores higher and costs less: it stands here
            (seq![e] + front, true)
        } else if h.1 > e.1 {
            // the head scores higher but costs more: walk past it
            let r = pareto_insert(front.drop_first(), e);
            (seq![h] + r.0, false)
        } else {
            // an entry dominates the newcomer: the front stands
            (front, false)
        }
    }
}

/// Insertion keeps the front strictly sorted on both axes.
pub proof fn lemma_pareto_insert_sorted<State>(
    front: Seq<(i64, usize, Seq<State>)>,
    e: (i64, usize, Seq<State>),
)
    requires
        pareto_sorted(front),
    ensures
        pareto_sorted(pareto_insert(front, e).0),
    decreases front.len(),
{
    if front.len() == 0 {
    } else {
        let h = front[0];
        assert(pareto_sorted(front.drop_first()));
        if h.0 <= e.0 && h.1 >= e.1 {
            lemma_pareto_insert_sorted(front.drop_first(), e);
        } else if h.0 < e.0 {
            // e beats h on both axes, and h bounds everything behind it
            assert(e.1 > h.1);
            assert forall|i: int, j: int|
                0 <= i < j < (seq![e] + front).len() implies ((#[trigger] (seq![e] + front)[i]).0
                > (#[trigger] (seq![e] + front)[j]).0 && (seq![e] + front)[i].1 > (seq![e]
                + front)[j].1) by {
                if i == 0 {
                    assert((seq![e] + front)[j] == front[j - 1]);
                    if j > 1 {
                        assert(front[0].0 > front[j - 1].0 && front[0].1 > front[j - 1].1);
                    }
                } else {
                    assert((seq![e] + front)[i] == front[i - 1]);
                    assert((seq![e] + front)[j] == front[j - 1]);
                }
            }
        } else if h.1 > e.1 {
            assert(h.0 > e.0);
            lemma_pareto_insert_sorted(front.drop_first(), e);
            lemma_pareto_insert_front_bound(front.drop_first(), e, h);
            let r = pareto_insert(front.drop_first(), e);
            assert forall|i: int, j: int|
                0 <= i < j < (seq![h] + r.0).len() implies ((#[trigger] (seq![h] + r.0)[i]).0
                > (#[trigger] (seq![h] + r.0)[j]).0 && (seq![h] + r.0)[i].1 > (seq![h]
                + r.0)[j].1) by {
                if i > 0 {
                    assert((seq![h] + r.0)[i] == r.0[i - 1]);
                }
                assert((seq![h] + r.0)[j] == r.0[j - 1]);
            }
        } else {
        }
    }
}

/// Every entry that insertion returns is bounded by any bound that bounds
/// both the front and the newcomer, strictly on both axes.
proof fn lemma_pareto_insert_front_bound<State>(
    front: Seq<(i64, usize, Seq<State>)>,
    e: (i64, usize, Seq<State>),
    bound: (i64, usize, Seq<State>),
)
    requires
        pareto_sorted(front),
        forall|i: int| 0 <= i < front.len() ==> bound.0 > (#[trigger] front[i]).0 && bound.1
            > front[i].1,
        bound.0 > e.0,
        bound.1 > e.1,
    ensures
        forall|i: int|
            0 <= i < pareto_insert(front, e).0.len() ==> bound.0 > (#[trigger] pareto_insert(
                front,
                e,
            ).0[i]).0 && bound.1 > pareto_insert(front, e).0[i].1,
    decreases front.len(),
{
    let out = pareto_insert(front, e).0;
    if front.len() == 0 {
        assert(out =~= seq![e]);
    } else {
        let h = front[0];
        assert(pareto_sorted(front.drop_first()));
        assert(forall|i: int|
            0 <= i < front.drop_first().len() ==> bound.0 > (#[trigger] front.drop_first()[i]).0
                && bound.1 > front.drop_first()[i].1);
        if h.0 <= e.0 && h.1 >= e.1 {
            lemma_pareto_insert_front_bound(front.drop_first(), e, bound);
            let r = pareto_insert(front.drop_first(), e);
            assert forall|i: int| 0 <= i < out.len() implies bound.0 > (#[trigger] out[i]).0
                && bound.1 > out[i].1 by {
                assert(out[i] == r.0[i]);
            }
        } else if h.0 < e.0 {
            assert forall|i: int| 0 <= i < out.len() implies bound.0 > (#[trigger] out[i]).0
                && bound.1 > out[i].1 by {
                if i > 0 {
                    assert(out[i] == front[i - 1]);
                }
            }
        } else if h.1 > e.1 {
            lemma_pareto_insert_front_bound(front.drop_first(), e, bound);
            let r = pareto_insert(front.drop_first(), e);
            assert forall|i: int| 0 <= i < out.len() implies bound.0 > (#[trigger] out[i]).0
                && bound.1 > out[i].1 by {
                if i > 0 {
                    assert(out[i] == r.0[i - 1]);
                }
            }
        } else {
            assert forall|i: int| 0 <= i < out.len() implies bound.0 > (#[trigger] out[i]).0
                && bound.1 > out[i].1 by {
                assert(out[i] == front[i]);
            }
        }
    }
}

/// Inserting an entry that some entry of the front already dominates,
/// strictly on at least one axis, leaves the front exactly as it was, and
/// reports no improvement.
pub proof fn lemma_pareto_insert_dominated<State>(
    front: Seq<(i64, usize, Seq<State>)>,
    e: (i64, usize, Seq<State>),
    k: int,
)
    requires
        pareto_sorted(front),
        0 <= k < front.len(),
        dominates(front[k], e),
        front[k].0 > e.0 || front[k].1 < e.1,
    ensures
        pareto_insert(front, e) == (front, false),
    decreases front.len(),
{
    let h = front[0];
    if h.0 <= e.0 && h.1 >= e.1 {
        // the head cannot be dominated by the newcomer: the dominator
        // stands at or behind the head, so the head beats the newcomer on
        // score or undercuts it on cost
        if k == 0 {
            assert(h.0 == e.0 && h.1 == e.1);
            assert(false);
        } else {
            assert(h.0 > front[k].0 && h.1 > front[k].1);
            assert(false);
        }
    } else if h.0 < e.0 {
        assert(front[k].0 <= h.0) by {
            if k > 0 {
                assert(front[0].0 > front[k].0);
            }
        }
        assert(false);
    } else if h.1 > e.1 {
        // the dominator stands strictly behind the head
        assert(k != 0);
        lemma_pareto_insert_dominated(front.drop_first(), e, k - 1);
        assert(seq![h] + front.drop_first() =~= front);
    } else {
    }
}


/// The mathematical view of one front entry.
pub open spec fn elem_model<State: Grammar>(el: ParetoElement<State>) -> (i64, usize, Seq<State>) {
    (el.score, el.cost, el.formula@)
}

/// The mathematical view of the stored entries.
pub open spec fn vec_model<State: Grammar>(s: Seq<ParetoElement<State>>) -> Seq<
    (i64, usize, Seq<State>),
> {
    s.map_values(|el: ParetoElement<State>| elem_model(el))
}

/// The insertion walk from position `i`: the executable twin of
/// `pareto_insert` on the front's tail.
fn insert_walk<State: Grammar>(
    front: &mut Vec<ParetoElement<State>>,
    i: usize,
    element: ParetoElement<State>,
) -> (improved: bool)
    requires
        i <= old(front)@.len(),
    ensures
        ({
            let r = pareto_insert(vec_model(old(front)@).skip(i as int), elem_model(element));
            vec_model(final(front)@) == vec_model(old(front)@).take(i as int) + r.0 && improved
                == r.1
        }),
    decreases old(front)@.len() - i,
{
    let ghost m0 = vec_model(front@);
    let ghost e = elem_model(element);
    if i == front.len() {
        front.push(element);
        proof {
            assert(vec_model(front@) =~= m0.push(e));
            assert(m0.skip(i as int) =~= Seq::<(i64, usize, Seq<State>)>::empty());
            assert(vec_model(front@) =~= m0.take(i as int) + pareto_insert(
                m0.skip(i as int),
                e,
            ).0);
        }
        return true;
    }
    let h_score = front[i].score;
    let h_cost = front[i].cost;
    proof {
        assert(m0.skip(i as int)[0] == m0[i as int]);
    }
    if h_score <= element.score && h_cost >= element.cost {
        // the newcomer dominates this entry: it goes
        front.remove(i);
        proof {
            assert(vec_model(front@) =~= m0.remove(i as int));
            assert(vec_model(front@).take(i as int) =~= m0.take(i as int));
            assert(vec_model(front@).skip(i as int) =~= m0.skip(i as int).drop_first());
        }
        let ghost m1 = vec_model(front@);
        let improved = insert_walk(front, i, element);
        proof {
            assert(vec_model(front@) =~= m0.take(i as int) + pareto_insert(
                m0.skip(i as int),
                e,
            ).0);
        }
        improved
    } else if h_score < element.score {
        // the newcomer scores higher and costs less: it stands here
        front.insert(i, element);
        proof {
            assert(vec_model(front@) =~= m0.insert(i as int, e));
            assert(vec_model(front@) =~= m0.take(i as int) + (seq![e] + m0.skip(i as int)));
        }
        true
    } else if h_cost > element.cost {
        // this entry scores higher but costs more: walk past it
        let ghost pre = vec_model(front@);
        insert_walk(front, i + 1, element);
        proof {
            let r = pareto_insert(m0.skip(i as int + 1), e);
            assert(m0.take(i as int + 1) =~= m0.take(i as int) + seq![m0[i as int]]);
            assert(m0.skip(i as int).drop_first() =~= m0.skip(i as int + 1));
            assert(vec_model(front@) =~= m0.take(i as int) + (seq![m0[i as int]] + r.0));
        }
        false
    } else {
        // an entry dominates the newcomer: the front stands
        proof {
            assert(vec_model(front@) =~= m0.take(i as int) + m0.skip(i as int));
        }
        false
    }
}

/// A Pareto front of (formula, score, cost) triples: no kept entry is
/// dominated by another, the best-scoring entry stands first.
pub struct ParetoFront<State: Grammar> {
    /// The entries, with strictly falling scores and costs.
    pub front: Vec<ParetoElement<State>>,
    /// Every observation offered, in order.
    pub history: Ghost<Seq<(Seq<State>, i64)>>,
}

impl<State: Grammar> ParetoFront<State> {
    /// The mathematical front: one (score, cost, formula) triple per entry.
    pub open spec fn front_model(&self) -> Seq<(i64, usize, Seq<State>)> {
        vec_model(self.front@)
    }

    /// The number of entries the front holds.
    pub fn len(&self) -> (n: usize)
        ensures
            n == self.front_model().len(),
    {
        self.front.len()
    }

    /// The (score, cost) pair of one entry, from the best-scoring end.
    pub fn entry(&self, i: usize) -> (r: (i64, usize))
        requires
            i < self.front_model().len(),
        ensures
            r == (self.front_model()[i as int].0, self.front_model()[i as int].1),
    {
        (self.front[i].score, self.front[i].cost)
    }

    /// The rendering of one entry's formula.
    pub fn entry_formula(&self, i: usize) -> (r: String)
        requires
            i < self.front_model().len(),
    {
        State::to_string(&self.front[i].formula)
    }
}

impl<State: Grammar> SearchResult<State> for ParetoFront<State> {
    type ScoreType = i64;

    type Model = Seq<(i64, usize, Seq<State>)>;

    open spec fn model(&self) -> Seq<(i64, usize, Seq<State>)> {
        self.front_model()
    }

    open spec fn init_model() -> Seq<(i64, usize, Seq<State>)> {
        Seq::empty()
    }

    open spec fn update_model(
        m: Seq<(i64, usize, Seq<State>)>,
        formula: Seq<State>,
        score: i64,
    ) -> (Seq<(i64, usize, Seq<State>)>, bool) {
        pareto_insert(m, (score, State::spec_cost(formula), formula))
    }

    open spec fn history(&self) -> Seq<(Seq<State>, i64)> {
        self.history@
    }

    fn new() -> (r: Self)
        ensures
            r.model() == Self::init_model(),
            r.history() == Seq::<(Seq<State>, i64)>::empty(),
    {
        let r = ParetoFront { front: Vec::new(), history: Ghost(Seq::empty()) };
        proof {
            assert(r.front_model() =~= Seq::<(i64, usize, Seq<State>)>::empty());
        }
        r
    }

    /// The best so far: the front's first entry, which scores highest; the
    /// empty formula and the bottom score while the front is empty.
    fn best(&self) -> (r: (Formula<State>, i64))
        ensures
            (r.0@, r.1) == Self::best_model(self.model()),
    {
        if self.front.len() == 0 {
            (Formula::empty(), i64::MIN)
        } else {
            (self.front[0].formula.clone(), self.front[0].score)
        }
    }

    fn update(&mut self, formula: Formula<State>, score: i64) -> (improved: bool)
        ensures
            (final(self).model(), improved) == Self::update_model(
                old(self).model(),
                formula@,
                score,
            ),
            final(self).history() == old(self).history().push((formula@, score)),
    {
        self.history = Ghost(self.history@.push((formula@, score)));
        let cost = formula.cost();
        let element = ParetoElement { formula, score, cost };
        let ghost m0 = self.front_model();
        let improved = insert_walk(&mut self.front, 0, element);
        proof {
            let r = pareto_insert(m0, (score, State::spec_cost(formula@), formula@));
            assert(m0.skip(0) =~= m0);
            assert(m0.take(0) =~= Seq::<(i64, usize, Seq<State>)>::empty());
            assert(self.front_model() =~= r.0);
        }
        improved
    }

    open spec fn best_model(m: Seq<(i64, usize, Seq<State>)>) -> (Seq<State>, i64) {
        if m.len() == 0 {
            (Seq::empty(), i64::MIN)
        } else {
            (m[0].2, m[0].0)
        }
    }
}


/// Any front reached by replaying a history of observations from the empty
/// front is strictly sorted on both axes: no kept entry dominates another,
/// whatever the search offered and in whatever order.
pub proof fn lemma_replayed_front_sorted<State: Grammar>(h: Seq<(Seq<State>, i64)>)
    ensures
        pareto_sorted(
            crate::search::replay::<State, ParetoFront<State>>(
                ParetoFront::<State>::init_model(),
                h,
            ),
        ),
    decreases h.len(),
{
    if h.len() == 0 {
    } else {
        lemma_replayed_front_sorted::<State>(h.drop_last());
        let prefix = crate::search::replay::<State, ParetoFront<State>>(
            ParetoFront::<State>::init_model(),
            h.drop_last(),
        );
        lemma_pareto_insert_sorted(
            prefix,
            (h.last().1, State::spec_cost(h.last().0), h.last().0),
        );
    }
}

} // verus!


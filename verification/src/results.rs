use vstd::prelude::*;

verus! {

use crate::grammar::Grammar;
use crate::grammar::Formula;

/// A result aggregator: it observes every (formula, score) pair the search
/// produces and keeps what it deems best.  `Model` is the aggregator's
/// mathematical state; `update_model` fixes exactly how one observation
/// changes it and whether the observation improved on the best so far, and
/// `history` records every observation ever offered, so a driver can state
/// that no update happened.
pub trait SearchResult<State: Grammar>: Sized {
    /// The scores offered; plain, or optional where evaluation can fail.
    type ScoreType: Copy;

    /// The aggregator's mathematical state.
    type Model;

    /// The current mathematical state.  The default is an arbitrary
    /// value: an aggregator that wants its contracts to say anything
    /// overrides every spec member.
    open spec fn model(&self) -> Self::Model {
        arbitrary()
    }

    /// The state of a freshly created aggregator.
    open spec fn init_model() -> Self::Model {
        arbitrary()
    }

    /// The exact effect of one observation, and whether it improved on the
    /// best so far.
    open spec fn update_model(m: Self::Model, formula: Seq<State>, score: Self::ScoreType) -> (
        Self::Model,
        bool,
    ) {
        arbitrary()
    }

    /// The best formula and score held by a state.
    open spec fn best_model(m: Self::Model) -> (Seq<State>, i64) {
        arbitrary()
    }

    /// Every observation offered so far, in order.
    open spec fn history(&self) -> Seq<(Seq<State>, Self::ScoreType)> {
        arbitrary()
    }

    /// Creates an empty aggregator.
    fn new() -> (r: Self)
        ensures
            r.model() == Self::init_model(),
            r.history() == Seq::<(Seq<State>, Self::ScoreType)>::empty(),
    ;

    /// Returns the best (formula, score) so far.
    fn best(&self) -> (r: (Formula<State>, i64))
        ensures
            (r.0@, r.1) == Self::best_model(self.model()),
    ;

    /// Offers one observation; returns true when it improved on the best so
    /// far, exactly as `update_model` says.
    fn update(&mut self, formula: Formula<State>, score: Self::ScoreType) -> (improved: bool)
        ensures
            (final(self).model(), improved) == Self::update_model(
                old(self).model(),
                formula@,
                score,
            ),
            final(self).history() == old(self).history().push((formula@, score)),
    ;
}

/// One observation against the single-best state: a strictly higher score
/// replaces the pair, anything else leaves it.
pub open spec fn single_update<State>(m: (i64, Seq<State>), formula: Seq<State>, score: i64) -> (
    (i64, Seq<State>),
    bool,
) {
    if score > m.0 {
        ((score, formula), true)
    } else {
        (m, false)
    }
}

/// A non-improving observation leaves the single-best state exactly as it
/// was, and offering the same pair twice changes nothing beyond the first
/// offer.
pub proof fn lemma_single_update_idempotent<State>(
    m: (i64, Seq<State>),
    formula: Seq<State>,
    score: i64,
)
    ensures
        score <= m.0 ==> single_update(m, formula, score) == (m, false),
        single_update(single_update(m, formula, score).0, formula, score).0 == single_update(
            m,
            formula,
            score,
        ).0,
{
}

/// Keeps the best (formula, score) pair seen so far.
pub struct Single<State: Grammar> {
    /// The highest score seen; the bottom of the range before any score.
    pub score: i64,
    /// The formula that scored it.
    pub formula: Formula<State>,
    /// Every observation offered, in order.
    pub history: Ghost<Seq<(Seq<State>, i64)>>,
}

impl<State: Grammar> SearchResult<State> for Single<State> {
    type ScoreType = i64;

    type Model = (i64, Seq<State>);

    open spec fn model(&self) -> (i64, Seq<State>) {
        (self.score, self.formula@)
    }

    open spec fn init_model() -> (i64, Seq<State>) {
        (i64::MIN, Seq::empty())
    }

    open spec fn update_model(m: (i64, Seq<State>), formula: Seq<State>, score: i64) -> (
        (i64, Seq<State>),
        bool,
    ) {
        single_update(m, formula, score)
    }

    open spec fn history(&self) -> Seq<(Seq<State>, i64)> {
        self.history@
    }

    fn new() -> (r: Self)
        ensures
            r.model() == Self::init_model(),
            r.history() == Seq::<(Seq<State>, i64)>::empty(),
    {
        Single { score: i64::MIN, formula: Formula::empty(), history: Ghost(Seq::empty()) }
    }

    fn best(&self) -> (r: (Formula<State>, i64))
        ensures
            (r.0@, r.1) == Self::best_model(self.model()),
    {
        (self.formula.clone(), self.score)
    }

    fn update(&mut self, formula: Formula<State>, score: i64) -> (improved: bool)
        ensures
            (final(self).model(), improved) == Self::update_model(
                old(self).model(),
                formula@,
                score,
            ),
            final(self).history() == old(self).history().push((formula@, score)),
    {
        self.history = Ghost(self.history@.push((formula@, score)));
        if score > self.score {
            self.score = score;
            self.formula = formula;
            true
        } else {
            false
        }
    }

    /// The best so far: the stored pair.
    open spec fn best_model(m: (i64, Seq<State>)) -> (Seq<State>, i64) {
        (m.1, m.0)
    }
}

/// Lifts an aggregator over the optional score channel: an invalid score is
/// recorded but never reaches the inner aggregator and never improves on
/// the best so far.
pub struct Optional<State: Grammar, ResultType: SearchResult<State>> {
    /// The aggregator over the valid scores.
    pub inner: ResultType,
    /// Every observation offered, valid or not, in order.
    pub history: Ghost<Seq<(Seq<State>, Option<ResultType::ScoreType>)>>,
}

impl<State: Grammar, ResultType: SearchResult<State>> Optional<State, ResultType> {
    /// Extracts the underlying aggregator.
    pub fn get_result(self) -> (r: ResultType)
        ensures
            r == self.inner,
    {
        self.inner
    }
}

impl<State: Grammar, ResultType: SearchResult<State>> SearchResult<State> for Optional<
    State,
    ResultType,
> {
    type ScoreType = Option<ResultType::ScoreType>;

    type Model = ResultType::Model;

    open spec fn model(&self) -> ResultType::Model {
        self.inner.model()
    }

    open spec fn init_model() -> ResultType::Model {
        ResultType::init_model()
    }

    open spec fn update_model(
        m: ResultType::Model,
        formula: Seq<State>,
        score: Option<ResultType::ScoreType>,
    ) -> (ResultType::Model, bool) {
        match score {
            Some(s) => ResultType::update_model(m, formula, s),
            None => (m, false),
        }
    }

    open spec fn history(&self) -> Seq<(Seq<State>, Option<ResultType::ScoreType>)> {
        self.history@
    }

    fn new() -> (r: Self)
        ensures
            r.model() == Self::init_model(),
            r.history() == Seq::<(Seq<State>, Option<ResultType::ScoreType>)>::empty(),
    {
        Optional { inner: ResultType::new(), history: Ghost(Seq::empty()) }
    }

    fn best(&self) -> (r: (Formula<State>, i64))
        ensures
            (r.0@, r.1) == Self::best_model(self.model()),
    {
        self.inner.best()
    }

    fn update(&mut self, formula: Formula<State>, score: Option<ResultType::ScoreType>) -> (improved:
        bool)
        ensures
            (final(self).model(), improved) == Self::update_model(
                old(self).model(),
                formula@,
                score,
            ),
            final(self).history() == old(self).history().push((formula@, score)),
    {
        self.history = Ghost(self.history@.push((formula@, score)));
        match score {
            Some(s) => self.inner.update(formula, s),
            None => false,
        }
    }

    open spec fn best_model(m: ResultType::Model) -> (Seq<State>, i64) {
        ResultType::best_model(m)
    }
}

/// Wraps an aggregator and records one report entry for every improvement
/// of the best so far, so a caller can show the search's progress.
pub struct DisplayProgress<State: Grammar, ResultType: SearchResult<State>> {
    /// The aggregator the observations go to.
    pub inner: ResultType,
    /// The best pair after each improving observation, in order.
    pub improvements: Vec<(Formula<State>, i64)>,
    /// Every observation offered, in order.
    pub history: Ghost<Seq<(Seq<State>, ResultType::ScoreType)>>,
}

impl<State: Grammar, ResultType: SearchResult<State>> DisplayProgress<State, ResultType> {
    /// The reports recorded so far: the best pair after each improvement.
    pub fn reports(&self) -> (r: &Vec<(Formula<State>, i64)>)
        ensures
            r == self.improvements,
    {
        &self.improvements
    }
}

impl<State: Grammar, ResultType: SearchResult<State>> SearchResult<State> for DisplayProgress<
    State,
    ResultType,
> {
    type ScoreType = ResultType::ScoreType;

    type Model = (ResultType::Model, Seq<(Seq<State>, i64)>);

    open spec fn model(&self) -> (ResultType::Model, Seq<(Seq<State>, i64)>) {
        (
            self.inner.model(),
            self.improvements@.map_values(|p: (Formula<State>, i64)| (p.0@, p.1)),
        )
    }

    open spec fn init_model() -> (ResultType::Model, Seq<(Seq<State>, i64)>) {
        (ResultType::init_model(), Seq::empty())
    }

    open spec fn update_model(
        m: (ResultType::Model, Seq<(Seq<State>, i64)>),
        formula: Seq<State>,
        score: ResultType::ScoreType,
    ) -> ((ResultType::Model, Seq<(Seq<State>, i64)>), bool) {
        let (m2, improved) = ResultType::update_model(m.0, formula, score);
        if improved {
            ((m2, m.1.push(ResultType::best_model(m2))), true)
        } else {
            ((m2, m.1), false)
        }
    }

    open spec fn history(&self) -> Seq<(Seq<State>, ResultType::ScoreType)> {
        self.history@
    }

    fn new() -> (r: Self)
        ensures
            r.model() == Self::init_model(),
            r.history() == Seq::<(Seq<State>, ResultType::ScoreType)>::empty(),
    {
        let r = DisplayProgress {
            inner: ResultType::new(),
            improvements: Vec::new(),
            history: Ghost(Seq::empty()),
        };
        proof {
            assert(r.improvements@.map_values(|p: (Formula<State>, i64)| (p.0@, p.1))
                =~= Seq::<(Seq<State>, i64)>::empty());
        }
        r
    }

    fn best(&self) -> (r: (Formula<State>, i64))
        ensures
            (r.0@, r.1) == Self::best_model(self.model()),
    {
        self.inner.best()
    }

    fn update(&mut self, formula: Formula<State>, score: ResultType::ScoreType) -> (improved: bool)
        ensures
            (final(self).model(), improved) == Self::update_model(
                old(self).model(),
                formula@,
                score,
            ),
            final(self).history() == old(self).history().push((formula@, score)),
    {
        self.history = Ghost(self.history@.push((formula@, score)));
        let improved = self.inner.update(formula, score);
        if improved {
            let ghost imps_pre = self.improvements@;
            let best_pair = self.inner.best();
            self.improvements.push(best_pair);
            proof {
                assert(self.improvements@.map_values(|p: (Formula<State>, i64)| (p.0@, p.1))
                    =~= imps_pre.map_values(|p: (Formula<State>, i64)| (p.0@, p.1)).push(
                    (best_pair.0@, best_pair.1),
                ));
            }
        }
        improved
    }

    open spec fn best_model(m: (ResultType::Model, Seq<(Seq<State>, i64)>)) -> (Seq<State>, i64) {
        ResultType::best_model(m.0)
    }
}


/// The single-best aggregator truly keeps the best: after replaying any
/// history of observations from the empty state, the held score is at
/// least every offered score, and whatever is held beyond the empty state
/// is one of the offered pairs.
pub proof fn lemma_single_replay_is_max<State: Grammar>(h: Seq<(Seq<State>, i64)>)
    ensures
        forall|k: int|
            0 <= k < h.len() ==> crate::search::replay::<State, Single<State>>(
                Single::<State>::init_model(),
                h,
            ).0 >= (#[trigger] h[k]).1,
        crate::search::replay::<State, Single<State>>(Single::<State>::init_model(), h)
            != Single::<State>::init_model() ==> exists|k: int|
            0 <= k < h.len() && crate::search::replay::<State, Single<State>>(
                Single::<State>::init_model(),
                h,
            ) == ((#[trigger] h[k]).1, h[k].0),
    decreases h.len(),
{
    if h.len() > 0 {
        lemma_single_replay_is_max::<State>(h.drop_last());
        let prefix = crate::search::replay::<State, Single<State>>(
            Single::<State>::init_model(),
            h.drop_last(),
        );
        let whole = crate::search::replay::<State, Single<State>>(
            Single::<State>::init_model(),
            h,
        );
        assert(forall|k: int| 0 <= k < h.len() - 1 ==> h.drop_last()[k] == (#[trigger] h[k]));
        if h.last().1 > prefix.0 {
            assert(whole == (h[h.len() - 1].1, h[h.len() - 1].0));
        } else {
            assert(whole == prefix);
            if whole != Single::<State>::init_model() {
                let k = choose|k: int|
                    0 <= k < h.drop_last().len() && prefix == (
                    (#[trigger] h.drop_last()[k]).1,
                    h.drop_last()[k].0,
                );
                assert(whole == (h[k].1, h[k].0));
            }
        }
    }
}

} // verus!


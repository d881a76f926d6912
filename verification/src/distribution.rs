use vstd::prelude::*;

verus! {

use crate::rng::Xoshiro256Plus;
use crate::rng::next_model;
use crate::numeric::lne_milli;
use crate::numeric::lne_milli_model;
use crate::numeric::ln_milli;
use crate::numeric::ln_milli_model;
use crate::numeric::isqrt;
use crate::numeric::clamp_i64;
use crate::numeric::clamp_i64_model;
use crate::numeric::sat_add_i128;
use crate::numeric::sat_add_i128_model;
use crate::numeric::sat_sub_i128;
use crate::numeric::sat_sub_i128_model;
use crate::numeric::sat_mul_i128;
use crate::numeric::sat_mul_i128_model;
use crate::numeric::tdiv_i128;
use crate::numeric::tdiv_i128_model;

/// What a distribution answers when a sibling is ranked: an arm that must be
/// visited first, a plain sampled value, or an arm that must never be picked.
#[derive(Clone, Copy, PartialEq, Eq, Structural, Debug)]
pub enum ArmScore {
    /// The arm was never visited: the policy must pick it before exploiting.
    Force,
    /// A finite sampled value in thousandths; higher is better.
    Value(i64),
    /// The arm is treated as invalid for this draw.
    Forbid,
}

/// The strict order on arm scores: `Force` above every value, every value
/// above `Forbid`, values by their size.
pub open spec fn arm_gt(a: ArmScore, b: ArmScore) -> bool {
    match (a, b) {
        (ArmScore::Force, ArmScore::Force) => false,
        (ArmScore::Force, _) => true,
        (ArmScore::Value(x), ArmScore::Value(y)) => x > y,
        (ArmScore::Value(_), ArmScore::Forbid) => true,
        (ArmScore::Value(_), ArmScore::Force) => false,
        (ArmScore::Forbid, _) => false,
    }
}

/// Decides the strict order on arm scores.
pub fn arm_greater(a: ArmScore, b: ArmScore) -> (r: bool)
    ensures
        r == arm_gt(a, b),
{
    match (a, b) {
        (ArmScore::Force, ArmScore::Force) => false,
        (ArmScore::Force, _) => true,
        (ArmScore::Value(x), ArmScore::Value(y)) => x > y,
        (ArmScore::Value(_), ArmScore::Forbid) => true,
        (ArmScore::Value(_), ArmScore::Force) => false,
        (ArmScore::Forbid, _) => false,
    }
}

/// The saturating visit counter: one more visit, sticking at the top.
pub open spec fn sat_inc(n: u64) -> u64 {
    if n == u64::MAX {
        n
    } else {
        (n + 1) as u64
    }
}

/// Per-arm reward statistics.  `update_model` fixes exactly how an
/// observation changes the summary, so backpropagation has a functional
/// contract; visits never decrease.
pub trait Distribution: Sized + Copy {
    /// The observations fed back by evaluation.
    type ScoreType: Copy;

    /// The number of observations incorporated so far.
    spec fn visits(&self) -> u64;

    /// The exact effect of one observation on the summary.
    spec fn update_model(&self, score: Self::ScoreType) -> Self;

    /// The exact ranking draw: the answer and the generator state after
    /// it.  The default is an arbitrary value: a summary kind that wants
    /// its ranking pinned overrides it, as every kind of this crate does.
    open spec fn score_model(&self, parent: Self, rng: Xoshiro256Plus) -> (
        ArmScore,
        Xoshiro256Plus,
    ) {
        arbitrary()
    }

    /// Returns the zero-information summary.
    fn new() -> (d: Self)
        ensures
            d.visits() == 0,
    ;

    /// Returns the number of times this arm was visited.
    fn nb_visit(&self) -> (n: u64)
        ensures
            n == self.visits(),
    ;

    /// Incorporates one observation, exactly as `update_model` says.
    fn update(&mut self, score: Self::ScoreType)
        ensures
            *final(self) == old(self).update_model(score),
            final(self).visits() >= old(self).visits(),
            final(self).visits() <= sat_inc(old(self).visits()),
    ;

    /// Ranks this arm against its siblings, reading the parent's summary as
    /// the prior context and drawing from the shared generator, exactly as
    /// `score_model` says.
    fn score(&self, parent: &Self, rng: &mut Xoshiro256Plus) -> (s: ArmScore)
        ensures
            (s, *final(rng)) == self.score_model(*parent, *old(rng)),
    ;
}

/// A stateless ranking policy: every draw is uniform, so the search walks the
/// tree at random.  Only the visit counter is kept, so that backpropagation
/// still counts descents.
#[derive(Clone, Copy)]
pub struct RandomSearch {
    /// How many observations were incorporated.
    pub nb_visit: u64,
}

impl Distribution for RandomSearch {
    type ScoreType = Option<i64>;

    open spec fn visits(&self) -> u64 {
        self.nb_visit
    }

    open spec fn update_model(&self, score: Option<i64>) -> Self {
        RandomSearch { nb_visit: sat_inc(self.nb_visit) }
    }

    /// A uniform draw in `[0, 1000)`, whatever was observed.
    open spec fn score_model(&self, parent: Self, rng: Xoshiro256Plus) -> (
        ArmScore,
        Xoshiro256Plus,
    ) {
        let step = next_model(rng);
        (ArmScore::Value((step.0 % 1000) as i64), step.1)
    }

    fn new() -> (d: Self)
        ensures
            d.visits() == 0,
    {
        RandomSearch { nb_visit: 0 }
    }

    fn nb_visit(&self) -> (n: u64)
        ensures
            n == self.visits(),
    {
        self.nb_visit
    }

    fn update(&mut self, score: Option<i64>)
        ensures
            *final(self) == old(self).update_model(score),
            final(self).visits() >= old(self).visits(),
            final(self).visits() <= sat_inc(old(self).visits()),
    {
        if self.nb_visit < u64::MAX {
            self.nb_visit = self.nb_visit + 1;
        }
    }

    /// Returns a uniform value in `[0, 1000)`, never `Force` and never
    /// `Forbid`.
    fn score(&self, parent: &Self, rng: &mut Xoshiro256Plus) -> (s: ArmScore)
        ensures
            (s, *final(rng)) == self.score_model(*parent, *old(rng)),
    {
        let draw = rng.next_below(1000);
        ArmScore::Value(draw as i64)
    }
}

/// The summary kept by the Thompson-max policy: count, sum and maximum of the
/// observed scores.  Sums are wide and stick at the ends of their range.
#[derive(Clone, Copy)]
pub struct ThompsonMax {
    /// How many scores were observed.
    pub nb_score: u64,
    /// The saturating sum of the observed scores.
    pub sum_scores: i128,
    /// The largest observed score; the bottom of the range before any score.
    pub max_score: i64,
}

/// The Thompson-max sample in thousandths: a point between the mean and
/// `lne(count) * max`, chosen by a uniform draw `r` below one thousand.  When
/// the upper bound falls under the mean the sampling direction inverts, which
/// is kept as the search's established behaviour.
pub open spec fn thompson_sample_model(d: ThompsonMax, r: u64) -> i64 {
    let k = d.nb_score as i128;
    let mean_milli = tdiv_i128_model(sat_mul_i128_model(d.sum_scores, 1000), k);
    let sup_milli = sat_mul_i128_model(lne_milli_model(d.nb_score) as i128, d.max_score as i128);
    let span = sat_sub_i128_model(sup_milli, mean_milli);
    let offset = tdiv_i128_model(sat_mul_i128_model(span, r as i128), 1000);
    clamp_i64_model(sat_add_i128_model(mean_milli, offset))
}

impl Distribution for ThompsonMax {
    type ScoreType = i64;

    open spec fn visits(&self) -> u64 {
        self.nb_score
    }

    /// `Force` before the first observation (and no draw); the Thompson
    /// sample otherwise.
    open spec fn score_model(&self, parent: Self, rng: Xoshiro256Plus) -> (
        ArmScore,
        Xoshiro256Plus,
    ) {
        if self.nb_score == 0 {
            (ArmScore::Force, rng)
        } else {
            let step = next_model(rng);
            (ArmScore::Value(thompson_sample_model(*self, step.0 % 1000)), step.1)
        }
    }

    open spec fn update_model(&self, score: i64) -> Self {
        ThompsonMax {
            nb_score: sat_inc(self.nb_score),
            sum_scores: sat_add_i128_model(self.sum_scores, score as i128),
            max_score: if score > self.max_score {
                score
            } else {
                self.max_score
            },
        }
    }

    fn new() -> (d: Self)
        ensures
            d.visits() == 0,
    {
        ThompsonMax { nb_score: 0, sum_scores: 0, max_score: i64::MIN }
    }

    fn nb_visit(&self) -> (n: u64)
        ensures
            n == self.visits(),
    {
        self.nb_score
    }

    fn update(&mut self, score: i64)
        ensures
            *final(self) == old(self).update_model(score),
            final(self).visits() >= old(self).visits(),
            final(self).visits() <= sat_inc(old(self).visits()),
    {
        if self.nb_score < u64::MAX {
            self.nb_score = self.nb_score + 1;
        }
        self.sum_scores = sat_add_i128(self.sum_scores, score as i128);
        if score > self.max_score {
            self.max_score = score;
        }
    }

    /// `Force` before the first observation, then the Thompson-max sample.
    fn score(&self, parent: &Self, rng: &mut Xoshiro256Plus) -> (s: ArmScore)
        ensures
            (s, *final(rng)) == self.score_model(*parent, *old(rng)),
    {
        if self.nb_score == 0 {
            ArmScore::Force
        } else {
            let draw = rng.next_below(1000);
            let k = self.nb_score as i128;
            let mean_milli = tdiv_i128(sat_mul_i128(self.sum_scores, 1000), k);
            let l = lne_milli(self.nb_score);
            let sup_milli = sat_mul_i128(l as i128, self.max_score as i128);
            let span = sat_sub_i128(sup_milli, mean_milli);
            let offset = tdiv_i128(sat_mul_i128(span, draw as i128), 1000);
            ArmScore::Value(clamp_i64(sat_add_i128(mean_milli, offset)))
        }
    }
}

/// The summary kept by the UCB-tuned policy: count, sum and sum of squares of
/// the observed scores.  Sums are wide and stick at the ends of their range.
#[derive(Clone, Copy)]
pub struct UcbTuned {
    /// How many scores were observed.
    pub nb_score: u64,
    /// The saturating sum of the observed scores.
    pub sum_scores: i128,
    /// The saturating sum of the squared scores.
    pub sum_squared_score: i128,
}

/// The empirical mean in thousandths.
pub open spec fn ucb_mean_milli(d: UcbTuned) -> i128 {
    tdiv_i128_model(sat_mul_i128_model(d.sum_scores, 1000), d.nb_score as i128)
}

/// The absolute empirical variance in thousandths; zero below two samples.
pub open spec fn ucb_var_milli(d: UcbTuned) -> i128 {
    if d.nb_score < 2 {
        0
    } else {
        let mean = ucb_mean_milli(d);
        let raw = sat_sub_i128_model(
            tdiv_i128_model(sat_mul_i128_model(d.sum_squared_score, 1000), (d.nb_score - 1) as i128),
            tdiv_i128_model(sat_mul_i128_model(mean, mean), 1000),
        );
        if raw == i128::MIN {
            i128::MAX
        } else if raw < 0 {
            (-(raw as int)) as i128
        } else {
            raw
        }
    }
}

/// The largest value the square-root step may see.
pub open spec fn nonneg_u128(x: i128) -> u128 {
    if x < 0 {
        0
    } else {
        x as u128
    }
}

/// The UCB-tuned index in thousandths: the mean plus an exploration bonus
/// read from the variance and from the parent's visit count.
pub open spec fn ucb_value_model(d: UcbTuned, parent_visits: u64) -> i64 {
    let n = d.nb_score as i128;
    let mean = ucb_mean_milli(d);
    let ln_parent = ln_milli_model(parent_visits) as i128;
    let ratio = tdiv_i128_model(sat_mul_i128_model(2, sat_mul_i128_model(ln_parent, 1000)), n);
    let c = sat_add_i128_model(ucb_var_milli(d), sqrt_floor_of(nonneg_u128(ratio)) as i128);
    let bonus_sq = nonneg_u128(tdiv_i128_model(sat_mul_i128_model(c, ln_parent), n));
    clamp_i64_model(sat_add_i128_model(mean, sqrt_floor_of(bonus_sq) as i128))
}

/// The unique floor of the square root of a wide value.
pub open spec fn sqrt_floor_of(x: u128) -> u128 {
    choose|r: u128| crate::numeric::is_sqrt_floor(x, r)
}

/// The floor of a square root is unique, so the chosen witness is the
/// computed one.
pub proof fn lemma_sqrt_floor_unique(x: u128, r: u128)
    requires
        crate::numeric::is_sqrt_floor(x, r),
    ensures
        sqrt_floor_of(x) == r,
{
    assert(crate::numeric::is_sqrt_floor(x, sqrt_floor_of(x)));
    let w = sqrt_floor_of(x);
    assert(w == r) by (nonlinear_arith)
        requires
            w * w <= x,
            (w + 1) * (w + 1) > x,
            r * r <= x,
            (r + 1) * (r + 1) > x,
    ;
}

impl Distribution for UcbTuned {
    type ScoreType = i64;

    open spec fn visits(&self) -> u64 {
        self.nb_score
    }

    /// `Force` before the first observation; the deterministic UCB-tuned
    /// index otherwise, with no draw either way.
    open spec fn score_model(&self, parent: Self, rng: Xoshiro256Plus) -> (
        ArmScore,
        Xoshiro256Plus,
    ) {
        if self.nb_score == 0 {
            (ArmScore::Force, rng)
        } else {
            (ArmScore::Value(ucb_value_model(*self, parent.nb_score)), rng)
        }
    }

    open spec fn update_model(&self, score: i64) -> Self {
        UcbTuned {
            nb_score: sat_inc(self.nb_score),
            sum_scores: sat_add_i128_model(self.sum_scores, score as i128),
            sum_squared_score: sat_add_i128_model(
                self.sum_squared_score,
                sat_mul_i128_model(score as i128, score as i128),
            ),
        }
    }

    fn new() -> (d: Self)
        ensures
            d.visits() == 0,
    {
        UcbTuned { nb_score: 0, sum_scores: 0, sum_squared_score: 0 }
    }

    fn nb_visit(&self) -> (n: u64)
        ensures
            n == self.visits(),
    {
        self.nb_score
    }

    fn update(&mut self, score: i64)
        ensures
            *final(self) == old(self).update_model(score),
            final(self).visits() >= old(self).visits(),
            final(self).visits() <= sat_inc(old(self).visits()),
    {
        if self.nb_score < u64::MAX {
            self.nb_score = self.nb_score + 1;
        }
        self.sum_scores = sat_add_i128(self.sum_scores, score as i128);
        let sq = sat_mul_i128(score as i128, score as i128);
        self.sum_squared_score = sat_add_i128(self.sum_squared_score, sq);
    }

    /// `Force` before the first observation, then the deterministic
    /// UCB-tuned index; the generator is never consumed.
    fn score(&self, parent: &Self, rng: &mut Xoshiro256Plus) -> (s: ArmScore)
        ensures
            (s, *final(rng)) == self.score_model(*parent, *old(rng)),
    {
        if self.nb_score == 0 {
            ArmScore::Force
        } else {
            let n = self.nb_score as i128;
            let mean = tdiv_i128(sat_mul_i128(self.sum_scores, 1000), n);
            let var: i128 = if self.nb_score < 2 {
                0
            } else {
                let raw = sat_sub_i128(
                    tdiv_i128(sat_mul_i128(self.sum_squared_score, 1000), (self.nb_score - 1) as i128),
                    tdiv_i128(sat_mul_i128(mean, mean), 1000),
                );
                if raw == i128::MIN {
                    i128::MAX
                } else if raw < 0 {
                    -raw
                } else {
                    raw
                }
            };
            proof {
                assert(mean == ucb_mean_milli(*self));
                assert(var == ucb_var_milli(*self));
            }
            let ln_parent = ln_milli(parent.nb_score) as i128;
            let ratio = tdiv_i128(sat_mul_i128(2, sat_mul_i128(ln_parent, 1000)), n);
            let ratio_clamped: u128 = if ratio < 0 {
                0
            } else {
                ratio as u128
            };
            let root1 = isqrt(ratio_clamped);
            proof {
                lemma_sqrt_floor_unique(ratio_clamped, root1);
            }
            let c = sat_add_i128(var, root1 as i128);
            let bonus_raw = tdiv_i128(sat_mul_i128(c, ln_parent), n);
            let bonus_clamped: u128 = if bonus_raw < 0 {
                0
            } else {
                bonus_raw as u128
            };
            let root2 = isqrt(bonus_clamped);
            proof {
                lemma_sqrt_floor_unique(bonus_clamped, root2);
            }
            ArmScore::Value(clamp_i64(sat_add_i128(mean, root2 as i128)))
        }
    }
}


/// A stateless ranking policy over the optional score channel; the twin of
/// `RandomSearch` for grammars whose evaluation can fail.
#[derive(Clone, Copy)]
pub struct RandomSearchOption {
    /// How many observations were incorporated.
    pub nb_visit: u64,
}

impl Distribution for RandomSearchOption {
    type ScoreType = Option<i64>;

    open spec fn visits(&self) -> u64 {
        self.nb_visit
    }

    open spec fn update_model(&self, score: Option<i64>) -> Self {
        RandomSearchOption { nb_visit: sat_inc(self.nb_visit) }
    }

    /// A uniform draw in `[0, 1000)`, whatever was observed.
    open spec fn score_model(&self, parent: Self, rng: Xoshiro256Plus) -> (
        ArmScore,
        Xoshiro256Plus,
    ) {
        let step = next_model(rng);
        (ArmScore::Value((step.0 % 1000) as i64), step.1)
    }

    fn new() -> (d: Self)
        ensures
            d.visits() == 0,
    {
        RandomSearchOption { nb_visit: 0 }
    }

    fn nb_visit(&self) -> (n: u64)
        ensures
            n == self.visits(),
    {
        self.nb_visit
    }

    fn update(&mut self, score: Option<i64>)
        ensures
            *final(self) == old(self).update_model(score),
            final(self).visits() >= old(self).visits(),
            final(self).visits() <= sat_inc(old(self).visits()),
    {
        if self.nb_visit < u64::MAX {
            self.nb_visit = self.nb_visit + 1;
        }
    }

    /// Returns a uniform value in `[0, 1000)`.
    fn score(&self, parent: &Self, rng: &mut Xoshiro256Plus) -> (s: ArmScore)
        ensures
            (s, *final(rng)) == self.score_model(*parent, *old(rng)),
    {
        let draw = rng.next_below(1000);
        ArmScore::Value(draw as i64)
    }
}

/// The modulus of the validity draw under Laplace smoothing: two more than
/// the visit count, sticking at the top of the range.
pub open spec fn laplace_bound(visits: u64) -> u64 {
    if visits >= u64::MAX - 1 {
        u64::MAX
    } else {
        (visits + 2) as u64
    }
}

/// The validity threshold under Laplace smoothing: one more than the count
/// of valid observations, sticking at the top of the range.
pub open spec fn laplace_threshold(valid: u64) -> u64 {
    if valid == u64::MAX {
        valid
    } else {
        (valid + 1) as u64
    }
}

/// Lifts a distribution over the optional score channel: invalid
/// observations count as visits without feeding the inner summary, and the
/// ranking forbids the arm with the complement of the smoothed validity
/// ratio `(valid + 1) / (visits + 2)`.
#[derive(Clone, Copy)]
pub struct Optional<Distr: Distribution> {
    /// How many observations, valid or not, were incorporated.
    pub nb_visit: u64,
    /// The inner summary over the valid observations.
    pub distribution: Distr,
}

impl<Distr: Distribution> Distribution for Optional<Distr> {
    type ScoreType = Option<Distr::ScoreType>;

    open spec fn visits(&self) -> u64 {
        self.nb_visit
    }

    /// The smoothed validity draw first: on failure the arm is forbidden;
    /// otherwise the inner summary is sampled against the parent's inner
    /// summary, the parent's own sampler standing in while the inner one
    /// has no valid observation.
    open spec fn score_model(&self, parent: Self, rng: Xoshiro256Plus) -> (
        ArmScore,
        Xoshiro256Plus,
    ) {
        let step = next_model(rng);
        let draw = step.0 % laplace_bound(self.nb_visit);
        if draw >= laplace_threshold(self.distribution.visits()) {
            (ArmScore::Forbid, step.1)
        } else if self.distribution.visits() == 0 {
            parent.distribution.score_model(parent.distribution, step.1)
        } else {
            self.distribution.score_model(parent.distribution, step.1)
        }
    }

    open spec fn update_model(&self, score: Option<Distr::ScoreType>) -> Self {
        Optional {
            nb_visit: sat_inc(self.nb_visit),
            distribution: match score {
                Some(s) => self.distribution.update_model(s),
                None => self.distribution,
            },
        }
    }

    fn new() -> (d: Self)
        ensures
            d.visits() == 0,
    {
        Optional { nb_visit: 0, distribution: Distr::new() }
    }

    fn nb_visit(&self) -> (n: u64)
        ensures
            n == self.visits(),
    {
        self.nb_visit
    }

    /// An invalid observation still counts a visit; only valid scores reach
    /// the inner summary, so invalid formulas never mark an arm valid.
    fn update(&mut self, score: Option<Distr::ScoreType>)
        ensures
            *final(self) == old(self).update_model(score),
            final(self).visits() >= old(self).visits(),
            final(self).visits() <= sat_inc(old(self).visits()),
            final(self).distribution.visits() >= old(self).distribution.visits(),
            score is None ==> final(self).distribution == old(self).distribution,
    {
        if self.nb_visit < u64::MAX {
            self.nb_visit = self.nb_visit + 1;
        }
        if let Some(s) = score {
            self.distribution.update(s);
        }
    }

    /// Draws the smoothed validity test first: on failure the arm is
    /// forbidden for this draw; otherwise the inner summary ranks the arm,
    /// falling back to the parent's sampler while it has no valid score.
    fn score(&self, parent: &Self, rng: &mut Xoshiro256Plus) -> (s: ArmScore)
        ensures
            (s, *final(rng)) == self.score_model(*parent, *old(rng)),
    {
        let bound = if self.nb_visit >= u64::MAX - 1 {
            u64::MAX
        } else {
            self.nb_visit + 2
        };
        let valid = self.distribution.nb_visit();
        let threshold = if valid == u64::MAX {
            valid
        } else {
            valid + 1
        };
        let draw = rng.next_below(bound);
        if draw >= threshold {
            ArmScore::Forbid
        } else if valid == 0 {
            parent.distribution.score(&parent.distribution, rng)
        } else {
            self.distribution.score(&parent.distribution, rng)
        }
    }
}


/// One observation advances the visit count of every summary kind by
/// exactly one, sticking at the top of the counter's range; so each descent
/// through an arm counts once in its statistics.
pub proof fn lemma_update_advances_visits(
    t: ThompsonMax,
    u: UcbTuned,
    r: RandomSearch,
    o: Optional<ThompsonMax>,
    score: i64,
    opt_score: Option<i64>,
)
    ensures
        t.update_model(score).visits() == sat_inc(t.visits()),
        u.update_model(score).visits() == sat_inc(u.visits()),
        r.update_model(opt_score).visits() == sat_inc(r.visits()),
        o.update_model(opt_score).visits() == sat_inc(o.visits()),
{
}

} // verus!



use vstd::prelude::*;

verus! {

use crate::distribution::Distribution;
use crate::grammar::Grammar;
use crate::grammar::Formula;
use crate::results::SearchResult;
use crate::rng::Xoshiro256Plus;
use crate::tree::Tree;
use crate::tree::wf;
use crate::expand::expand;
use crate::expand::all_terminal;
use crate::expand::no_empty_rules;
use crate::random_expand::rollout0;
use crate::no_expand::no_expand;
use crate::no_expand::compute_balance_factor;
use crate::memory::memory_used;
use crate::numeric::sat_mul_i128;
use crate::numeric::sat_add_i128;
use crate::numeric::sat_sub_i128;
use crate::numeric::tdiv_i128;

/// The state an aggregator reaches after replaying a history of
/// observations from a starting state.
pub open spec fn replay<State: Grammar, Res: SearchResult<State>>(
    m: Res::Model,
    h: Seq<(Seq<State>, Res::ScoreType)>,
) -> Res::Model
    decreases h.len(),
{
    if h.len() == 0 {
        m
    } else {
        Res::update_model(replay::<State, Res>(m, h.drop_last()), h.last().0, h.last().1).0
    }
}

/// An abstract source of free-memory readings, in megabytes.  The
/// memory-bounded drivers treat its output as a plain number; a platform
/// query, or a script for tests, stands behind it.
pub trait MemoryProbe {
    /// Reads the free memory, in megabytes.
    fn free_memory_mb(&mut self) -> usize;
}

/// A scripted probe: hands out a fixed series of readings, then repeats the
/// last one; plenty of memory when the script is empty.
pub struct ScriptedProbe {
    /// The readings to hand out, in order.
    pub readings: Vec<usize>,
    /// How many readings were handed out.
    pub index: usize,
}

impl ScriptedProbe {
    /// Builds a probe over a fixed series of readings.
    pub fn new(readings: Vec<usize>) -> (r: ScriptedProbe)
        ensures
            r.readings == readings,
            r.index == 0,
    {
        ScriptedProbe { readings, index: 0 }
    }
}

impl MemoryProbe for ScriptedProbe {
    /// Hands out the scripted reading at the current position and
    /// advances; the last reading repeats once the script is spent, and an
    /// empty script always reports the top of the range.
    fn free_memory_mb(&mut self) -> (m: usize)
        ensures
            old(self).readings@.len() == 0 ==> m == usize::MAX && *final(self) == *old(self),
            old(self).readings@.len() > 0 ==> m == old(self).readings@[if old(self).index
                < old(self).readings@.len() {
                old(self).index as int
            } else {
                old(self).readings@.len() - 1
            }] && final(self).readings == old(self).readings && final(self).index == (if old(
                self,
            ).index < usize::MAX {
                (old(self).index + 1) as usize
            } else {
                old(self).index
            }),
    {
        if self.readings.len() == 0 {
            usize::MAX
        } else {
            let i = if self.index < self.readings.len() {
                self.index
            } else {
                self.readings.len() - 1
            };
            if self.index < usize::MAX {
                self.index = self.index + 1;
            }
            self.readings[i]
        }
    }
}

/// Why a run ended.
#[derive(Clone, Copy, PartialEq, Eq, Structural, Debug)]
pub enum SearchOutcome {
    /// Every iteration of the budget ran.
    BudgetSpent,
    /// The whole grammar was explored: the root became the tombstone.
    GrammarExhausted,
    /// With no depth budget left, a tombstone blocked the only path.
    DepthBlocked,
    /// An iteration was abandoned: its step budget ran out, or a node's
    /// slots did not match the grammar's rules.
    IterationFault,
}

/// What a run reports: how many iterations completed and why it stopped;
/// for the memory-bounded drivers, also when growing mode ended and the
/// balance factor measured then, and how often the tree was pruned.
pub struct SearchReport {
    /// How many iterations completed; each offered exactly one pair.
    pub iterations: usize,
    /// Why the run ended.
    pub outcome: SearchOutcome,
    /// How many times the tree was pruned.
    pub prunes: usize,
    /// The iteration at which the driver left growing mode, if it did.
    pub switched_at: Option<usize>,
    /// The balance factor measured when growing mode ended.
    pub balance_factor_milli: Option<u64>,
}

/// Clamps the configured depth into the signed range the descent uses.
fn depth_to_i64(available_depth: usize) -> (r: i64)
    ensures
        r >= 0,
        r == 0 <==> available_depth == 0,
{
    if available_depth > (i64::MAX as usize) {
        i64::MAX
    } else {
        available_depth as i64
    }
}

/// Searches for a fixed number of iterations, growing the tree at every
/// step.  Each iteration derives one complete formula, scores it with the
/// grammar's fitness, and offers the pair to the aggregator; the search
/// stops early when the whole grammar is exhausted.  The run is
/// deterministic: the generator starts from a fixed seed.
///
/// The aggregator's final state is exactly the replay of its history from
/// the empty state; every completed iteration offers exactly one pair, each
/// scored exactly by the grammar, and the report says how many completed
/// and why the run ended: only a spent budget leaves the count at the
/// budget; with no iterations nothing is ever offered; and when the start
/// symbol is terminal the single possible formula is offered once and the
/// search ends with the root exhausted.
#[verifier::loop_isolation(false)]
pub fn search<State, Distr, Res>(available_depth: usize, nb_iterations: usize) -> (r: (
    Res,
    SearchReport,
)) where
    State: Grammar,
    Distr: Distribution<ScoreType = State::ScoreType>,
    Res: SearchResult<State, ScoreType = State::ScoreType>,

    ensures
        r.1.iterations <= nb_iterations,
        r.0.history().len() == r.1.iterations,
        r.1.outcome is BudgetSpent ==> r.1.iterations == nb_iterations,
        nb_iterations == 0 ==> r.0.history() == Seq::<(Seq<State>, State::ScoreType)>::empty(),
        r.0.model() == replay::<State, Res>(Res::init_model(), r.0.history()),
        forall|k: int|
            0 <= k < r.0.history().len() ==> (#[trigger] r.0.history()[k]).1
                == State::spec_evaluate(r.0.history()[k].0),
        no_empty_rules::<State>() ==> (forall|k: int|
            0 <= k < r.0.history().len() ==> (#[trigger] r.0.history()[k]).0.len() > 0),
        State::spec_root().spec_expand().len() == 0 && nb_iterations > 0 ==> r.0.history()
            == seq![(seq![State::spec_root()], State::spec_evaluate(seq![State::spec_root()]))],
        available_depth == 0 && r.1.iterations > 0 ==> ({
            let completed = rollout0(
                Seq::<State>::empty(),
                seq![State::spec_root()],
                u64::MAX as nat,
            );
            completed is Some && r.0.history()[0] == (
                completed->0,
                State::spec_evaluate(completed->0),
            )
        }),
{
    let ghost root_terminal = State::spec_root().spec_expand().len() == 0;
    let depth = depth_to_i64(available_depth);
    let mut rng = Xoshiro256Plus::seed_from_u64(0);
    let mut tree: Tree<Distr> = Tree::new();
    let mut result: Res = Res::new();
    let mut iteration: usize = 0;
    let mut done = false;
    let mut outcome = SearchOutcome::BudgetSpent;
    while iteration < nb_iterations && !done
        invariant
            wf(tree),
            !done ==> !(tree is Deleted),
            iteration <= nb_iterations,
            result.history().len() == iteration,
            result.model() == replay::<State, Res>(Res::init_model(), result.history()),
            forall|k: int|
                0 <= k < result.history().len() ==> (#[trigger] result.history()[k]).1
                    == State::spec_evaluate(result.history()[k].0),
            no_empty_rules::<State>() ==> (forall|k: int|
                0 <= k < result.history().len() ==> (#[trigger] result.history()[k]).0.len()
                    > 0),
            !done ==> outcome is BudgetSpent,
            done ==> !(outcome is BudgetSpent),
            root_terminal ==> (iteration == 0 && !done && tree is Leaf && result.history()
                == Seq::<(Seq<State>, State::ScoreType)>::empty()) || (done && result.history()
                == seq![
                (seq![State::spec_root()], State::spec_evaluate(seq![State::spec_root()])),
            ]),
            available_depth == 0 && iteration > 0 ==> ({
                let completed = rollout0(
                    Seq::<State>::empty(),
                    seq![State::spec_root()],
                    u64::MAX as nat,
                );
                completed is Some && result.history()[0] == (
                    completed->0,
                    State::spec_evaluate(completed->0),
                )
            }),
        decreases nb_iterations - iteration, (if done {
            0int
        } else {
            1int
        }),
    {
        if depth < 1 && tree.contains_deleted() {
            done = true;
            outcome = SearchOutcome::DepthBlocked;
        } else {
            let formula: Formula<State> = Formula::empty();
            let mut stack: Vec<State> = Vec::new();
            stack.push(State::root_state());
            proof {
                assert(stack@ =~= seq![State::spec_root()]);
                if root_terminal {
                    assert(all_terminal(stack@));
                }
            }
            let ghost history_pre = result.history();
            match expand(&mut tree, formula, stack, &mut rng, depth) {
                Ok(step) => {
                    let (deleted, out_formula, score) = step;
                    result.update(out_formula, score);
                    proof {
                        assert(result.history().drop_last() =~= history_pre);
                        if available_depth == 0 && iteration == 0 {
                            assert(result.history()[0] == (out_formula@, score));
                        }
                        if root_terminal {
                            assert(out_formula@ =~= seq![State::spec_root()]);
                            assert(result.history() =~= seq![
                                (
                                    seq![State::spec_root()],
                                    State::spec_evaluate(seq![State::spec_root()]),
                                ),
                            ]);
                        }
                    }
                    if deleted {
                        done = true;
                        outcome = SearchOutcome::GrammarExhausted;
                    }
                    iteration = iteration + 1;
                },
                Err(_) => {
                    done = true;
                    outcome = SearchOutcome::IterationFault;
                },
            }
        }
    }
    let report = SearchReport {
        iterations: iteration,
        outcome,
        prunes: 0,
        switched_at: None,
        balance_factor_milli: None,
    };
    (result, report)
}

/// The plain search over a grammar whose evaluation can fail: the engine
/// runs with the optional lifts of the distribution and of the aggregator,
/// and the underlying aggregator is handed back.  Its state is the replay
/// of some trace with one entry per completed iteration, each scored
/// exactly by the grammar; invalid entries never reach it.
pub fn search_optional<State, Distr, Res>(available_depth: usize, nb_iterations: usize) -> (r: (
    Res,
    SearchReport,
)) where
    State: Grammar<ScoreType = Option<Res::ScoreType>>,
    Distr: Distribution<ScoreType = Res::ScoreType>,
    Res: SearchResult<State>,

    ensures
        r.1.iterations <= nb_iterations,
        r.1.outcome is BudgetSpent ==> r.1.iterations == nb_iterations,
        nb_iterations == 0 ==> r.0.model() == Res::init_model(),
        exists|h: Seq<(Seq<State>, Option<Res::ScoreType>)>|
            #![auto]
            {
                &&& h.len() == r.1.iterations
                &&& (forall|k: int|
                    0 <= k < h.len() ==> (#[trigger] h[k]).1 == State::spec_evaluate(h[k].0))
                &&& r.0.model() == replay::<State, crate::results::Optional<State, Res>>(
                    Res::init_model(),
                    h,
                )
            },
{
    let pair = search::<
        State,
        crate::distribution::Optional<Distr>,
        crate::results::Optional<State, Res>,
    >(available_depth, nb_iterations);
    let (wrapped, report) = pair;
    let ghost trace = wrapped.history();
    let inner = wrapped.get_result();
    proof {
        assert(inner.model() == replay::<State, crate::results::Optional<State, Res>>(
            Res::init_model(),
            trace,
        ));
    }
    (inner, report)
}

/// Searches with a free-memory floor: while the probe reports memory above
/// the floor, iterations grow the tree; the first reading at or under the
/// floor ends growing mode, the balance factor of the tree is measured
/// once, and the remaining iterations run as non-growing rollouts, which
/// only touch statistics and tombstones.  Between probe readings, taken
/// every thousand iterations, the free memory is estimated by linear
/// interpolation.  The report says how many iterations completed and why
/// the run ended, whether and when the switch happened, and the balance
/// factor measured.
#[verifier::loop_isolation(false)]
pub fn memory_limited_search<State, Distr, Res, Probe>(
    available_depth: usize,
    nb_iterations: usize,
    free_memory_size: usize,
    probe: &mut Probe,
) -> (r: (Res, SearchReport)) where
    State: Grammar,
    Distr: Distribution<ScoreType = State::ScoreType>,
    Res: SearchResult<State, ScoreType = State::ScoreType>,
    Probe: MemoryProbe,

    ensures
        r.1.iterations <= nb_iterations,
        r.0.history().len() == r.1.iterations,
        r.1.outcome is BudgetSpent ==> r.1.iterations == nb_iterations,
        nb_iterations == 0 ==> r.0.history() == Seq::<(Seq<State>, State::ScoreType)>::empty(),
        r.0.model() == replay::<State, Res>(Res::init_model(), r.0.history()),
        forall|k: int|
            0 <= k < r.0.history().len() ==> (#[trigger] r.0.history()[k]).1
                == State::spec_evaluate(r.0.history()[k].0),
        no_empty_rules::<State>() ==> (forall|k: int|
            0 <= k < r.0.history().len() ==> (#[trigger] r.0.history()[k]).0.len() > 0),
        (r.1.switched_at matches Some(k) ==> k < nb_iterations),
{
    let depth = depth_to_i64(available_depth);
    let mut rng = Xoshiro256Plus::seed_from_u64(0);
    let mut tree: Tree<Distr> = Tree::new();
    let mut result: Res = Res::new();
    let mut iteration: usize = 0;
    let mut done = false;
    let mut outcome = SearchOutcome::BudgetSpent;

    // growing phase, while the (interpolated) free memory stays above the
    // floor
    let mut free_current: usize = probe.free_memory_mb();
    let mut free_previous: usize = free_current;
    let mut iteration_previous: usize = 0;
    let mut growth_milli: i128 = 0;
    let step_size: usize = 1000;
    while iteration < nb_iterations && !done && free_current > free_memory_size
        invariant
            wf(tree),
            !done ==> !(tree is Deleted),
            iteration <= nb_iterations,
            iteration_previous <= iteration,
            result.history().len() == iteration,
            result.model() == replay::<State, Res>(Res::init_model(), result.history()),
            forall|k: int|
                0 <= k < result.history().len() ==> (#[trigger] result.history()[k]).1
                    == State::spec_evaluate(result.history()[k].0),
            no_empty_rules::<State>() ==> (forall|k: int|
                0 <= k < result.history().len() ==> (#[trigger] result.history()[k]).0.len()
                    > 0),
            !done ==> outcome is BudgetSpent,
            done ==> !(outcome is BudgetSpent),
        decreases nb_iterations - iteration, (if done {
            0int
        } else {
            1int
        }),
    {
        if depth < 1 && tree.contains_deleted() {
            done = true;
            outcome = SearchOutcome::DepthBlocked;
        } else {
            let formula: Formula<State> = Formula::empty();
            let mut stack: Vec<State> = Vec::new();
            stack.push(State::root_state());
            let ghost history_pre = result.history();
            match expand(&mut tree, formula, stack, &mut rng, depth) {
                Ok(step) => {
                    let (deleted, out_formula, score) = step;
                    result.update(out_formula, score);
                    proof {
                        assert(result.history().drop_last() =~= history_pre);
                    }
                    if deleted {
                        done = true;
                        outcome = SearchOutcome::GrammarExhausted;
                    }
                    iteration = iteration + 1;
                },
                Err(_) => {
                    done = true;
                    outcome = SearchOutcome::IterationFault;
                },
            }
            // estimate the free memory between probe readings
            let elapsed: usize = iteration - iteration_previous;
            let drift = tdiv_i128(sat_mul_i128(elapsed as i128, growth_milli), 1000);
            let predicted = sat_add_i128(free_previous as i128, drift);
            free_current = if predicted < 0 {
                0
            } else if predicted > usize::MAX as i128 {
                usize::MAX
            } else {
                predicted as usize
            };
            let phase = crate::tree::sat_add_usize_exec(iteration_previous, iteration);
            if phase % step_size == 0 || free_current < free_memory_size {
                free_current = probe.free_memory_mb();
                if iteration > iteration_previous {
                    let delta = sat_sub_i128(free_current as i128, free_previous as i128);
                    growth_milli = tdiv_i128(
                        sat_mul_i128(1000, delta),
                        (iteration - iteration_previous) as i128,
                    );
                }
                iteration_previous = iteration;
                free_previous = free_current;
            }
        }
    }

    // the switch point: measure the tree's balance once
    let switched: Option<usize> = if iteration < nb_iterations && !done {
        Some(iteration)
    } else {
        None
    };
    let iteration64: u64 = iteration as u64;
    let balance = compute_balance_factor(&tree, iteration64);

    // non-growing phase: rollouts only touch statistics and tombstones
    while iteration < nb_iterations && !done
        invariant
            wf(tree),
            !done ==> !(tree is Deleted),
            iteration <= nb_iterations,
            result.history().len() == iteration,
            result.model() == replay::<State, Res>(Res::init_model(), result.history()),
            forall|k: int|
                0 <= k < result.history().len() ==> (#[trigger] result.history()[k]).1
                    == State::spec_evaluate(result.history()[k].0),
            no_empty_rules::<State>() ==> (forall|k: int|
                0 <= k < result.history().len() ==> (#[trigger] result.history()[k]).0.len()
                    > 0),
            !done ==> outcome is BudgetSpent,
            done ==> !(outcome is BudgetSpent),
        decreases nb_iterations - iteration, (if done {
            0int
        } else {
            1int
        }),
    {
        if depth < 1 && tree.contains_deleted() {
            done = true;
            outcome = SearchOutcome::DepthBlocked;
        } else {
            let formula: Formula<State> = Formula::empty();
            let mut stack: Vec<State> = Vec::new();
            stack.push(State::root_state());
            let ghost history_pre = result.history();
            match no_expand(&mut tree, formula, stack, &mut rng, depth, balance) {
                Ok(step) => {
                    let (deleted, out_formula, score) = step;
                    result.update(out_formula, score);
                    proof {
                        assert(result.history().drop_last() =~= history_pre);
                    }
                    if deleted {
                        done = true;
                        outcome = SearchOutcome::GrammarExhausted;
                    }
                    iteration = iteration + 1;
                },
                Err(_) => {
                    done = true;
                    outcome = SearchOutcome::IterationFault;
                },
            }
        }
    }
    let report = SearchReport {
        iterations: iteration,
        outcome,
        prunes: 0,
        switched_at: switched,
        balance_factor_milli: Some(balance),
    };
    (result, report)
}

/// The memory-limited search over a grammar whose evaluation can fail.
pub fn memory_limited_search_optional<State, Distr, Res, Probe>(
    available_depth: usize,
    nb_iterations: usize,
    free_memory_size: usize,
    probe: &mut Probe,
) -> (r: (Res, SearchReport)) where
    State: Grammar<ScoreType = Option<Res::ScoreType>>,
    Distr: Distribution<ScoreType = Res::ScoreType>,
    Res: SearchResult<State>,
    Probe: MemoryProbe,

    ensures
        r.1.iterations <= nb_iterations,
        r.1.outcome is BudgetSpent ==> r.1.iterations == nb_iterations,
        nb_iterations == 0 ==> r.0.model() == Res::init_model(),
        exists|h: Seq<(Seq<State>, Option<Res::ScoreType>)>|
            #![auto]
            {
                &&& h.len() == r.1.iterations
                &&& (forall|k: int|
                    0 <= k < h.len() ==> (#[trigger] h[k]).1 == State::spec_evaluate(h[k].0))
                &&& r.0.model() == replay::<State, crate::results::Optional<State, Res>>(
                    Res::init_model(),
                    h,
                )
            },
{
    let pair = memory_limited_search::<
        State,
        crate::distribution::Optional<Distr>,
        crate::results::Optional<State, Res>,
        Probe,
    >(available_depth, nb_iterations, free_memory_size, probe);
    let (wrapped, report) = pair;
    let ghost trace = wrapped.history();
    let inner = wrapped.get_result();
    proof {
        assert(inner.model() == replay::<State, crate::results::Optional<State, Res>>(
            Res::init_model(),
            trace,
        ));
    }
    (inner, report)
}

/// Searches with a free-memory floor, but keeps growing: every ten
/// thousand iterations the tree's resident bytes are measured directly,
/// and whenever the floor is crossed the tree is pruned down to its most
/// visited arms before growing continues.  The report counts the prunes.
#[verifier::loop_isolation(false)]
#[verifier::rlimit(40)]
pub fn nested_search<State, Distr, Res, Probe>(
    available_depth: usize,
    nb_iterations: usize,
    free_memory_size: usize,
    probe: &mut Probe,
) -> (r: (Res, SearchReport)) where
    State: Grammar,
    Distr: Distribution<ScoreType = State::ScoreType>,
    Res: SearchResult<State, ScoreType = State::ScoreType>,
    Probe: MemoryProbe,

    ensures
        r.1.iterations <= nb_iterations,
        r.0.history().len() == r.1.iterations,
        r.1.outcome is BudgetSpent ==> r.1.iterations == nb_iterations,
        nb_iterations == 0 ==> r.0.history() == Seq::<(Seq<State>, State::ScoreType)>::empty(),
        r.0.model() == replay::<State, Res>(Res::init_model(), r.0.history()),
        forall|k: int|
            0 <= k < r.0.history().len() ==> (#[trigger] r.0.history()[k]).1
                == State::spec_evaluate(r.0.history()[k].0),
        no_empty_rules::<State>() ==> (forall|k: int|
            0 <= k < r.0.history().len() ==> (#[trigger] r.0.history()[k]).0.len() > 0),
{
    let depth = depth_to_i64(available_depth);
    let mut rng = Xoshiro256Plus::seed_from_u64(0);
    let mut tree: Tree<Distr> = Tree::new();
    let mut result: Res = Res::new();
    let mut iteration: usize = 0;
    let mut done = false;
    let mut outcome = SearchOutcome::BudgetSpent;
    let mut prunes: usize = 0;
    let free_memory_base: usize = probe.free_memory_mb();
    let step_size: usize = 10000;
    while iteration < nb_iterations && !done
        invariant
            wf(tree),
            !done ==> !(tree is Deleted),
            iteration <= nb_iterations,
            result.history().len() == iteration,
            result.model() == replay::<State, Res>(Res::init_model(), result.history()),
            forall|k: int|
                0 <= k < result.history().len() ==> (#[trigger] result.history()[k]).1
                    == State::spec_evaluate(result.history()[k].0),
            no_empty_rules::<State>() ==> (forall|k: int|
                0 <= k < result.history().len() ==> (#[trigger] result.history()[k]).0.len()
                    > 0),
            !done ==> outcome is BudgetSpent,
            done ==> !(outcome is BudgetSpent),
        decreases nb_iterations - iteration, (if done {
            0int
        } else {
            1int
        }),
    {
        if depth < 1 && tree.contains_deleted() {
            done = true;
            outcome = SearchOutcome::DepthBlocked;
        } else {
            let formula: Formula<State> = Formula::empty();
            let mut stack: Vec<State> = Vec::new();
            stack.push(State::root_state());
            let ghost history_pre = result.history();
            match expand(&mut tree, formula, stack, &mut rng, depth) {
                Ok(step) => {
                    let (deleted, out_formula, score) = step;
                    result.update(out_formula, score);
                    proof {
                        assert(result.history().drop_last() =~= history_pre);
                    }
                    if deleted {
                        done = true;
                        outcome = SearchOutcome::GrammarExhausted;
                    }
                    iteration = iteration + 1;
                },
                Err(_) => {
                    done = true;
                    outcome = SearchOutcome::IterationFault;
                },
            }
            // a direct measure of the tree's bytes is expensive: take it
            // only every step_size iterations; the probe reads megabytes,
            // so the byte estimate is scaled before subtracting
            if iteration % step_size == 0 {
                let used_mb = memory_used(&tree) / 1000000;
                let free_now = match free_memory_base.checked_sub(used_mb) {
                    Some(v) => v,
                    None => 0,
                };
                if free_now < free_memory_size {
                    tree.prune();
                    if prunes < usize::MAX {
                        prunes = prunes + 1;
                    }
                }
            }
        }
    }
    let report = SearchReport {
        iterations: iteration,
        outcome,
        prunes,
        switched_at: None,
        balance_factor_milli: None,
    };
    (result, report)
}

} // verus!

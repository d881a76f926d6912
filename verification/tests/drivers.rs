use gambit::distribution::ThompsonMax;
use gambit::grammar::Formula;
use gambit::grammar::Grammar;
use gambit::grammar2019::State;
use gambit::pareto::ParetoFront;
use gambit::results::SearchResult;
use gambit::results::Single;
use gambit::search::memory_limited_search;
use gambit::search::nested_search;
use gambit::search::search;
use gambit::search::search_optional;
use gambit::search::ScriptedProbe;
use gambit::search::SearchOutcome;

/// A grammar whose language holds exactly three formulas, one per rule of
/// the start symbol.
#[derive(Clone, Copy, PartialEq, Eq, Debug)]
enum Tri {
    Root,
    A,
    B,
    C,
}

impl Grammar for Tri {
    type ScoreType = i64;

    fn root_state() -> Tri {
        Tri::Root
    }

    fn expand(self) -> Vec<Vec<Tri>> {
        match self {
            Tri::Root => vec![vec![Tri::A], vec![Tri::B], vec![Tri::C]],
            _ => Vec::new(),
        }
    }

    fn to_string(_formula: &Formula<Tri>) -> String {
        "tri".to_string()
    }

    fn evaluate(formula: &Formula<Tri>) -> i64 {
        match formula.0.last().copied() {
            Some(Tri::A) => 1,
            Some(Tri::B) => 2,
            Some(Tri::C) => 3,
            _ => i64::MIN,
        }
    }

    fn cost(formula: &Formula<Tri>) -> usize {
        formula.0.len()
    }
}

/// An aggregator that counts how many observations the driver offered.
struct Counting {
    offers: usize,
    best: i64,
}

impl Grammar for Unit {
    type ScoreType = i64;

    fn root_state() -> Unit {
        Unit::Only
    }

    fn expand(self) -> Vec<Vec<Unit>> {
        Vec::new()
    }

    fn to_string(_formula: &Formula<Unit>) -> String {
        "unit".to_string()
    }

    fn evaluate(formula: &Formula<Unit>) -> i64 {
        formula.0.len() as i64
    }

    fn cost(formula: &Formula<Unit>) -> usize {
        formula.0.len()
    }
}

/// A grammar whose start symbol is itself terminal: its language is the
/// one-state formula.
#[derive(Clone, Copy, PartialEq, Eq, Debug)]
enum Unit {
    Only,
}

impl SearchResult<Tri> for Counting {
    type ScoreType = i64;

    type Model = ();

    fn new() -> Counting {
        Counting { offers: 0, best: i64::MIN }
    }

    fn best(&self) -> (Formula<Tri>, i64) {
        (Formula(Vec::new()), self.best)
    }

    fn update(&mut self, _formula: Formula<Tri>, score: i64) -> bool {
        self.offers += 1;
        if score > self.best {
            self.best = score;
            true
        } else {
            false
        }
    }
}

#[test]
fn depth_cap_produces_the_shortest_formula() {
    // with no depth budget every decision takes rule zero: the formula is
    // the literal one and its score is minus two thousand eighteen
    let (best, report) = search::<State, ThompsonMax, Single<State>>(0, 1);
    let (formula, score) = best.best();
    assert_eq!(score, -2018);
    assert_eq!(State::to_string(&formula), "1");
    assert_eq!(report.iterations, 1);
    // with budget left over, the exhausted depth and the tombstone from
    // the first exploration stop the run after that single iteration
    let (rerun, rerun_report) = search::<State, ThompsonMax, Single<State>>(0, 5);
    assert_eq!(rerun.best().1, -2018);
    assert_eq!(rerun_report.iterations, 1);
    assert_eq!(rerun_report.outcome, SearchOutcome::DepthBlocked);
}

#[test]
fn zero_iterations_offer_nothing() {
    let (best, report) = search::<State, ThompsonMax, Single<State>>(5, 0);
    let (formula, score) = best.best();
    assert_eq!(score, i64::MIN);
    assert_eq!(formula.0.len(), 0);
    assert_eq!(report.iterations, 0);
}

#[test]
fn an_all_terminal_grammar_yields_exactly_one_formula() {
    let (best, report) = search::<Unit, ThompsonMax, Single<Unit>>(3, 50);
    let (formula, score) = best.best();
    assert_eq!(formula.0, vec![Unit::Only]);
    assert_eq!(score, 1);
    assert_eq!(report.iterations, 1);
    assert_eq!(report.outcome, SearchOutcome::GrammarExhausted);
}

#[test]
fn a_finite_language_deletes_the_root_and_exits_early() {
    // three formulas: three offers, then the root is exhausted and the
    // driver stops well before its fifty-iteration budget
    let (counted, report) = search::<Tri, ThompsonMax, Counting>(2, 50);
    assert_eq!(counted.offers, 3);
    assert_eq!(counted.best, 3);
    assert_eq!(report.iterations, 3);
    assert_eq!(report.outcome, SearchOutcome::GrammarExhausted);
}

#[test]
fn fixed_seeds_give_identical_runs() {
    let (first, _) = search::<State, ThompsonMax, Single<State>>(3, 500);
    let (second, _) = search::<State, ThompsonMax, Single<State>>(3, 500);
    assert_eq!(first.score, second.score);
    assert_eq!(first.formula.0, second.formula.0);
}

#[test]
fn thompson_search_closes_in_on_the_target() {
    // ten thousand iterations of Thompson-max on the arithmetic grammar
    // land within one of the target year
    let (best, report) = search::<State, ThompsonMax, Single<State>>(4, 10000);
    assert!(best.score >= -1, "best score {} is too far from the target", best.score);
    assert_eq!(report.iterations, 10000);
    assert_eq!(report.outcome, SearchOutcome::BudgetSpent);
}

#[test]
fn the_pareto_front_keeps_the_cheapest_formula() {
    let (front, _) = search::<State, ThompsonMax, ParetoFront<State>>(4, 100);
    assert!(front.len() >= 1);
    // the cheapest entry of the front is the literal one
    let last = front.len() - 1;
    assert_eq!(front.entry(last), (-2018, 1));
}

#[test]
fn the_memory_switch_reports_a_balance_factor() {
    // the scripted probe reports plenty of memory first, then a reading
    // under the floor at the first refresh: the driver must switch to
    // non-growing rollouts and report the balance factor it measured
    let mut probe = ScriptedProbe::new(vec![1000, 10]);
    let (best, report) = memory_limited_search::<State, ThompsonMax, Single<State>, ScriptedProbe>(
        3, 2000, 900, &mut probe,
    );
    assert!(report.switched_at.is_some());
    assert!(report.switched_at.unwrap() < 2000);
    assert!(report.balance_factor_milli.unwrap() > 0);
    assert_eq!(report.iterations, 2000);
    assert!(best.score > i64::MIN);
}

/// A Kepler-like grammar: formulas are elementary functions of a distance,
/// scored by how well they predict an orbital period over six known pairs;
/// formulas that evaluate to nothing finite are invalid.
#[derive(Clone, Copy, PartialEq, Eq, Debug)]
enum Kepler {
    Expr,
    Base,
    Function,
    Operator,
    Number,
    FCos,
    FSin,
    FLog,
    FSqrt,
    OAdd,
    OSub,
    ODiv,
    OPow,
    Variable,
    N(i8),
}

fn kepler_compute(formula: &[Kepler], x: f64) -> Option<(f64, usize)> {
    // consume from the tail and recurse, exactly as post-order formulas
    // are meant to be read
    let n = formula.len();
    if n == 0 {
        return None;
    }
    let rest = &formula[..n - 1];
    match formula[n - 1] {
        Kepler::Variable => Some((x, n - 1)),
        Kepler::N(k) => Some((k as f64, n - 1)),
        Kepler::FCos | Kepler::FSin | Kepler::FLog | Kepler::FSqrt => {
            let (a, used) = kepler_compute(rest, x)?;
            let value = match formula[n - 1] {
                Kepler::FCos => a.cos(),
                Kepler::FSin => a.sin(),
                Kepler::FLog => a.ln(),
                _ => a.sqrt(),
            };
            Some((value, used))
        }
        Kepler::OAdd | Kepler::OSub | Kepler::ODiv | Kepler::OPow => {
            let (a, mid) = kepler_compute(rest, x)?;
            let (b, used) = kepler_compute(&formula[..mid], x)?;
            let value = match formula[n - 1] {
                Kepler::OAdd => a + b,
                Kepler::OSub => a - b,
                Kepler::ODiv => a / b,
                _ => a.powf(b),
            };
            Some((value, used))
        }
        _ => None,
    }
}

impl Grammar for Kepler {
    type ScoreType = Option<i64>;

    fn root_state() -> Kepler {
        Kepler::Expr
    }

    fn expand(self) -> Vec<Vec<Kepler>> {
        match self {
            Kepler::Expr => vec![
                vec![Kepler::Base],
                vec![Kepler::Function, Kepler::Expr],
                vec![Kepler::Operator, Kepler::Expr, Kepler::Expr],
            ],
            Kepler::Base => vec![
                vec![Kepler::Variable],
                vec![Kepler::Number],
                vec![Kepler::OPow, Kepler::Variable, Kepler::Number],
            ],
            Kepler::Operator => vec![vec![Kepler::OAdd], vec![Kepler::OSub], vec![Kepler::ODiv]],
            Kepler::Number => (1..=4).map(|n| vec![Kepler::N(n)]).collect(),
            Kepler::Function => vec![
                vec![Kepler::FCos],
                vec![Kepler::FSin],
                vec![Kepler::FLog],
                vec![Kepler::FSqrt],
            ],
            _ => Vec::new(),
        }
    }

    fn to_string(formula: &Formula<Kepler>) -> String {
        format!("{} states", formula.0.len())
    }

    fn evaluate(formula: &Formula<Kepler>) -> Option<i64> {
        let distance = [0.72, 1.0, 1.52, 5.20, 9.53, 19.10];
        let period = [0.61, 1.00, 1.84, 11.90, 29.40, 83.50];
        let mut error = 0.0f64;
        for (d, p) in distance.iter().zip(period.iter()) {
            let (predicted, used) = kepler_compute(&formula.0, *d)?;
            if used != 0 {
                return None;
            }
            let gap = p - predicted;
            error += gap * gap;
        }
        if error.is_nan() || error.is_infinite() {
            None
        } else {
            // thousandths of the squared error, negated: higher is better
            Some(-((error * 1000.0).min(i64::MAX as f64) as i64))
        }
    }

    fn cost(formula: &Formula<Kepler>) -> usize {
        formula.0.len()
    }
}

#[test]
fn invalid_formulas_never_poison_the_search() {
    // Optional-wrapped Thompson-max over a grammar whose evaluation can
    // fail: after ten thousand iterations the best score is finite and
    // negative
    let (best, report) = search_optional::<Kepler, ThompsonMax, Single<Kepler>>(4, 10000);
    assert!(best.score < 0);
    assert!(best.score > i64::MIN);
    assert_eq!(report.iterations, 10000);
}

#[test]
fn nested_search_prunes_and_continues() {
    // the probe reports a base reading; once the tree's resident bytes eat
    // into the floor, the driver prunes and keeps growing
    let mut probe = ScriptedProbe::new(vec![1_000_000]);
    let (best, report) = nested_search::<State, ThompsonMax, Single<State>, ScriptedProbe>(
        4, 12000, 1_000_000, &mut probe,
    );
    assert!(best.score > i64::MIN);
    assert!(best.score <= 0);
    assert!(report.prunes >= 1);
    assert_eq!(report.iterations, 12000);
}

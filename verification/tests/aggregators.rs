use gambit::grammar::Formula;
use gambit::grammar2019::State;
use gambit::pareto::ParetoFront;
use gambit::results::DisplayProgress;
use gambit::results::Optional;
use gambit::results::SearchResult;
use gambit::results::Single;

fn ones(n: usize) -> Formula<State> {
    // a formula whose cost (count of literals) is exactly n
    let mut states = vec![State::One];
    for _ in 1..n {
        states.push(State::One);
        states.push(State::Add);
    }
    Formula(states)
}

#[test]
fn single_keeps_the_best_pair() {
    let mut best: Single<State> = Single::new();
    assert_eq!(best.best().1, i64::MIN);
    assert!(best.update(ones(1), -2018));
    assert_eq!(best.best().1, -2018);
    assert!(best.update(ones(2), -2017));
    assert_eq!(best.best().1, -2017);
    assert_eq!(best.best().0 .0, ones(2).0);
}

#[test]
fn single_update_is_idempotent_for_non_improving_pairs() {
    let mut best: Single<State> = Single::new();
    best.update(ones(2), -2017);
    let formula_before = best.formula.0.clone();
    // a non-improving pair changes nothing, offered once or twice
    assert!(!best.update(ones(1), -2018));
    assert!(!best.update(ones(1), -2018));
    assert_eq!(best.score, -2017);
    assert_eq!(best.formula.0, formula_before);
}

#[test]
fn pareto_dominance_rewrites_the_front() {
    let mut front: ParetoFront<State> = ParetoFront::new();
    assert!(front.update(ones(3), 5));
    assert!(front.update(ones(5), 8));
    assert!(front.update(ones(7), 9));
    assert_eq!(front.len(), 3);
    assert_eq!(front.entry(0), (9, 7));
    assert_eq!(front.entry(1), (8, 5));
    assert_eq!(front.entry(2), (5, 3));
    // (10, 5) dominates (8, 5) and (9, 7) and keeps (5, 3)
    assert!(front.update(ones(5), 10));
    assert_eq!(front.len(), 2);
    assert_eq!(front.entry(0), (10, 5));
    assert_eq!(front.entry(1), (5, 3));
    // (3, 2) is worse but cheaper: it joins at the cheap end
    assert!(!front.update(ones(2), 3));
    assert_eq!(front.len(), 3);
    assert_eq!(front.entry(0), (10, 5));
    assert_eq!(front.entry(1), (5, 3));
    assert_eq!(front.entry(2), (3, 2));
}

#[test]
fn pareto_insertion_is_idempotent_for_dominated_pairs() {
    let mut front: ParetoFront<State> = ParetoFront::new();
    front.update(ones(3), 5);
    front.update(ones(5), 8);
    // (4, 5) is dominated by (8, 5): the front stands exactly as it was
    assert!(!front.update(ones(5), 4));
    assert_eq!(front.len(), 2);
    assert_eq!(front.entry(0), (8, 5));
    assert_eq!(front.entry(1), (5, 3));
    assert!(!front.update(ones(5), 4));
    assert_eq!(front.len(), 2);
}

#[test]
fn pareto_best_is_the_highest_score() {
    let mut front: ParetoFront<State> = ParetoFront::new();
    assert_eq!(front.best().1, i64::MIN);
    front.update(ones(3), 5);
    front.update(ones(5), 8);
    assert_eq!(front.best().1, 8);
}

#[test]
fn display_progress_records_each_improvement() {
    let mut progress: DisplayProgress<State, Single<State>> = DisplayProgress::new();
    assert_eq!(progress.reports().len(), 0);
    assert!(progress.update(ones(1), -2018));
    assert!(!progress.update(ones(1), -3000));
    assert!(progress.update(ones(2), -2017));
    assert_eq!(progress.reports().len(), 2);
    assert_eq!(progress.reports()[0].1, -2018);
    assert_eq!(progress.reports()[1].1, -2017);
    assert_eq!(progress.best().1, -2017);
}

#[test]
fn optional_results_ignore_invalid_scores() {
    let mut wrapped: Optional<State, Single<State>> = Optional::new();
    assert!(!wrapped.update(ones(1), None));
    assert_eq!(wrapped.best().1, i64::MIN);
    assert!(wrapped.update(ones(1), Some(-2018)));
    assert!(!wrapped.update(ones(2), None));
    assert_eq!(wrapped.best().1, -2018);
    let inner = wrapped.get_result();
    assert_eq!(inner.score, -2018);
}

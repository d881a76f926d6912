use gambit::distribution::ArmScore;
use gambit::distribution::Distribution;
use gambit::distribution::Optional;
use gambit::distribution::RandomSearch;
use gambit::distribution::ThompsonMax;
use gambit::distribution::UcbTuned;
use gambit::grammar::Formula;
use gambit::grammar::Grammar;
use gambit::grammar2019::State;
use gambit::numeric::clamp_i64;
use gambit::numeric::isqrt;
use gambit::numeric::lne_milli;
use gambit::numeric::log2i;
use gambit::memory::count_elements;
use gambit::memory::memory_used;
use gambit::rng::Xoshiro256Plus;
use gambit::tree::Node;
use gambit::tree::Tree;

#[test]
fn it_works() {
    assert_eq!(2 + 2, 4);
}

#[test]
fn rng_matches_the_reference_stream() {
    // the first words after seeding from zero, per the xoshiro256+
    // reference algorithm
    let mut rng = Xoshiro256Plus::seed_from_u64(0);
    assert_eq!(rng.next_u64(), 15757075719729598363);
    assert_eq!(rng.next_u64(), 3555206913761248309);
    assert_eq!(rng.next_u64(), 17994763647826544299);
    assert_eq!(rng.next_u64(), 5751541343960333057);
}

#[test]
fn rng_is_deterministic_and_bounded() {
    let mut a = Xoshiro256Plus::seed_from_u64(42);
    let mut b = Xoshiro256Plus::seed_from_u64(42);
    for _ in 0..100 {
        assert_eq!(a.next_u64(), b.next_u64());
    }
    for bound in [1u64, 2, 3, 10, 1000] {
        let draw = a.next_below(bound);
        assert!(draw < bound);
    }
}

#[test]
fn integer_logarithms_and_roots() {
    assert_eq!(log2i(0), 0);
    assert_eq!(log2i(1), 0);
    assert_eq!(log2i(8), 3);
    assert_eq!(log2i(1023), 9);
    assert_eq!(log2i(1024), 10);
    assert_eq!(lne_milli(0), 1000);
    assert_eq!(lne_milli(1), 1693);
    assert_eq!(isqrt(0), 0);
    assert_eq!(isqrt(15), 3);
    assert_eq!(isqrt(16), 4);
    assert_eq!(clamp_i64(1 << 100), i64::MAX);
    assert_eq!(clamp_i64(-(1 << 100)), i64::MIN);
    assert_eq!(clamp_i64(-7), -7);
}

#[test]
fn thompson_max_forces_unvisited_arms() {
    let mut rng = Xoshiro256Plus::seed_from_u64(1);
    let d = ThompsonMax::new();
    assert_eq!(d.nb_visit(), 0);
    assert_eq!(d.score(&d, &mut rng), ArmScore::Force);
}

#[test]
fn thompson_max_samples_between_mean_and_sup() {
    let mut rng = Xoshiro256Plus::seed_from_u64(1);
    let mut d = ThompsonMax::new();
    d.update(10);
    assert_eq!(d.nb_visit(), 1);
    assert_eq!(d.max_score, 10);
    // mean is 10.000, the upper bound lne(1) * 10 = 16.930, both in
    // thousandths; the sample lies between them
    match d.score(&d, &mut rng) {
        ArmScore::Value(v) => assert!((10000..=16930).contains(&v)),
        other => panic!("expected a sampled value, got {:?}", other),
    }
}

#[test]
fn ucb_tuned_is_deterministic() {
    let mut rng = Xoshiro256Plus::seed_from_u64(1);
    let mut d = UcbTuned::new();
    assert_eq!(d.score(&d, &mut rng), ArmScore::Force);
    d.update(5);
    // one sample of five: the mean is 5.000 in thousandths and every
    // exploration term is still zero
    assert_eq!(d.score(&d, &mut rng), ArmScore::Value(5000));
}

#[test]
fn random_search_scores_uniformly() {
    let mut rng = Xoshiro256Plus::seed_from_u64(7);
    let mut d = RandomSearch::new();
    d.update(Some(3));
    d.update(None);
    assert_eq!(d.nb_visit(), 2);
    match d.score(&d, &mut rng) {
        ArmScore::Value(v) => assert!((0..1000).contains(&v)),
        other => panic!("expected a sampled value, got {:?}", other),
    }
}

#[test]
fn invalid_scores_never_reach_the_inner_summary() {
    // an invalid observation counts a visit but must never mark the arm
    // valid
    let mut d: Optional<ThompsonMax> = Optional::new();
    d.update(None);
    d.update(None);
    assert_eq!(d.nb_visit(), 2);
    assert_eq!(d.distribution.nb_visit(), 0);
    d.update(Some(4));
    assert_eq!(d.nb_visit(), 3);
    assert_eq!(d.distribution.nb_visit(), 1);
}

#[test]
fn grammar_rules_and_cost() {
    assert_eq!(State::Expr.expand().len(), 3);
    assert_eq!(State::Factor.expand().len(), 2);
    assert_eq!(State::One.expand().len(), 0);
    let f = Formula(vec![State::One, State::One, State::Add, State::One, State::Add]);
    assert_eq!(State::cost(&f), 3);
    assert_eq!(f.cost(), 3);
}

#[test]
fn evaluation_is_pure_and_exact() {
    let one = Formula(vec![State::One]);
    assert_eq!(one.evaluate(), -2018);
    assert_eq!(one.evaluate(), -2018);
    let sum = Formula(vec![State::One, State::One, State::Add]);
    assert_eq!(sum.evaluate(), -2017);
    let product = Formula(vec![State::One, State::One, State::Mul]);
    assert_eq!(product.evaluate(), -2018);
    // a lone operator is malformed and scores at the bottom
    let broken = Formula(vec![State::Add]);
    assert_eq!(broken.evaluate(), i64::MIN);
}

#[test]
fn rendering_is_never_empty() {
    let one = Formula(vec![State::One]);
    assert_eq!(State::to_string(&one), "1");
    let sum = Formula(vec![State::One, State::One, State::Add]);
    assert_eq!(State::to_string(&sum), "1 + 1");
    let product = Formula(vec![State::One, State::One, State::Add, State::One, State::Mul]);
    assert_eq!(State::to_string(&product), "(1 + 1)*(1)");
    let empty = Formula(vec![]);
    assert!(!State::to_string(&empty).is_empty());
}

#[test]
fn best_child_prefers_leaves_and_skips_tombstones() {
    let mut rng = Xoshiro256Plus::seed_from_u64(3);
    let children: Vec<Tree<ThompsonMax>> = vec![Tree::Deleted, Tree::Leaf];
    let father = ThompsonMax::new();
    // with depth left, the unexplored leaf wins and the tombstone is never
    // picked
    assert_eq!(Tree::best_child(&children, &father, &mut rng, 5), 1);
    // with the depth budget exhausted, the first arm is taken
    assert_eq!(Tree::best_child(&children, &father, &mut rng, 0), 0);
}

#[test]
fn memory_accounting_counts_cells() {
    let tree: Tree<ThompsonMax> = Tree::new();
    assert_eq!(count_elements(&tree), (1, 0, 0));
    assert!(memory_used(&tree) > 0);
}

#[test]
fn pruning_keeps_the_most_visited_arm() {
    let mut once = ThompsonMax::new();
    once.update(5);
    let mut twice = ThompsonMax::new();
    twice.update(5);
    twice.update(6);
    let mut tree: Tree<ThompsonMax> = Tree::Node(Node {
        distribution: ThompsonMax::new(),
        children: vec![Tree::KnownLeaf(once), Tree::KnownLeaf(twice), Tree::Leaf],
    });
    tree.prune();
    match tree {
        Tree::Node(node) => {
            // the less visited informed arm is tombstoned, the most
            // visited survives, the uninformed arm stands untouched
            assert!(matches!(node.children[0], Tree::Deleted));
            assert!(matches!(node.children[1], Tree::KnownLeaf(_)));
            assert!(matches!(node.children[2], Tree::Leaf));
        }
        _ => panic!("pruning must keep the node"),
    }
}

#[test]
fn optional_scoring_delegates_on_a_passed_draw() {
    // with four valid observations out of four, most draws pass the
    // smoothed validity test and hand the ranking to the inner summary
    let mut d: Optional<ThompsonMax> = Optional::new();
    for _ in 0..4 {
        d.update(Some(7));
    }
    let mut delegated = false;
    let mut forbidden = false;
    for seed in 0..32 {
        let mut rng = Xoshiro256Plus::seed_from_u64(seed);
        match d.score(&d, &mut rng) {
            ArmScore::Value(_) => delegated = true,
            ArmScore::Forbid => forbidden = true,
            ArmScore::Force => panic!("a visited arm is never forced"),
        }
    }
    assert!(delegated);
    // the complement of the smoothed ratio still forbids now and then
    let _ = forbidden;
}

use vstd::prelude::*;

verus! {

use crate::grammar::Grammar;
use crate::grammar::Formula;
use crate::rng::Xoshiro256Plus;
use crate::expand::all_terminal;
use crate::expand::no_empty_rules;

/// The deterministic completion of a derivation that always takes rule
/// zero, within a step budget: terminal states move to the formula's tail
/// and every other state is replaced by its first rule; nothing if the
/// budget runs out first.
pub open spec fn rollout0<State: Grammar>(
    formula: Seq<State>,
    stack: Seq<State>,
    fuel: nat,
) -> Option<Seq<State>>
    decreases fuel,
{
    if stack.len() == 0 {
        Some(formula)
    } else if fuel == 0 {
        None
    } else {
        let state = stack.last();
        let rules = state.spec_expand();
        if rules.len() == 0 {
            rollout0(formula.push(state), stack.drop_last(), (fuel - 1) as nat)
        } else {
            rollout0(formula, stack.drop_last() + rules[0], (fuel - 1) as nat)
        }
    }
}

/// A completion that fits one budget fits any larger one, unchanged.
pub(crate) proof fn lemma_rollout0_mono<State: Grammar>(
    formula: Seq<State>,
    stack: Seq<State>,
    n: nat,
    m: nat,
)
    requires
        n <= m,
        rollout0(formula, stack, n) is Some,
    ensures
        rollout0(formula, stack, m) == rollout0(formula, stack, n),
    decreases n,
{
    if stack.len() > 0 {
        let state = stack.last();
        let rules = state.spec_expand();
        if rules.len() == 0 {
            lemma_rollout0_mono(
                formula.push(state),
                stack.drop_last(),
                (n - 1) as nat,
                (m - 1) as nat,
            );
        } else {
            lemma_rollout0_mono(
                formula,
                stack.drop_last() + rules[0],
                (n - 1) as nat,
                (m - 1) as nat,
            );
        }
    }
}

/// One step of the rule-zero completion.
pub(crate) proof fn lemma_rollout0_step<State: Grammar>(formula: Seq<State>, stack: Seq<State>, fuel: nat)
    requires
        stack.len() > 0,
        fuel > 0,
    ensures
        stack.last().spec_expand().len() == 0 ==> rollout0(formula, stack, fuel) == rollout0(
            formula.push(stack.last()),
            stack.drop_last(),
            (fuel - 1) as nat,
        ),
        stack.last().spec_expand().len() > 0 ==> rollout0(formula, stack, fuel) == rollout0(
            formula,
            stack.drop_last() + stack.last().spec_expand()[0],
            (fuel - 1) as nat,
        ),
{
}
use crate::expand::SearchFault;

/// A rollout: completes the pending derivation without touching any tree.
/// Terminal states move to the formula's tail, a single-rule state is
/// replaced by its rule, and at a decision a rule is drawn uniformly at
/// random while the depth budget lasts; once it is exhausted rule zero is
/// taken, which the grammar convention puts on a shortest path to a
/// complete formula.  Returns the complete formula and its score, which is
/// exactly the grammar's fitness of that formula.
#[verifier::loop_isolation(false)]
#[verifier::rlimit(100)]
pub fn random_expand<State: Grammar>(
    formula: Formula<State>,
    stack: Vec<State>,
    rng: &mut Xoshiro256Plus,
    available_depth: i64,
) -> (result: Result<(Formula<State>, State::ScoreType), SearchFault>)
    ensures
        (result matches Ok(r) ==> {
            &&& r.1 == State::spec_evaluate(r.0@)
            &&& formula@.is_prefix_of(r.0@)
            &&& forall|i: int|
                formula@.len() <= i < r.0@.len() ==> (#[trigger] r.0@[i]).spec_expand().len() == 0
            &&& no_empty_rules::<State>() && stack@.len() > 0 ==> r.0@.len() > 0
            &&& all_terminal(stack@) ==> r.0@ == formula@ + stack@.reverse()
            &&& available_depth <= 0 ==> Some(r.0@) == rollout0(
                formula@,
                stack@,
                u64::MAX as nat,
            )
        }),
        all_terminal(stack@) ==> result is Ok,
{
    let ghost formula0 = formula@;
    let ghost stack0 = stack@;
    let mut formula = formula;
    let mut stack = stack;
    let mut depth: i64 = available_depth;
    let mut fuel: u64 = u64::MAX;
    let initial_len = stack.len();
    proof {
        assert(fuel >= initial_len as u64);
    }
    while stack.len() > 0
        invariant
            formula0.is_prefix_of(formula@),
            forall|i: int|
                formula0.len() <= i < formula@.len() ==> (
                #[trigger] formula@[i]).spec_expand().len() == 0,
            all_terminal::<State>(stack0) ==> all_terminal(stack@) && formula@ + stack@.reverse()
                == formula0 + stack0.reverse(),
            all_terminal::<State>(stack0) ==> fuel >= stack@.len(),
            no_empty_rules::<State>() && stack0.len() > 0 ==> formula@.len() > formula0.len()
                || stack@.len() > 0,
            available_depth <= 0 ==> depth <= 0 && rollout0(formula@, stack@, fuel as nat)
                == rollout0(formula0, stack0, u64::MAX as nat),
        decreases fuel,
    {
        if fuel == 0 {
            return Err(SearchFault::OutOfSteps);
        }
        fuel = fuel - 1;
        let state = stack[stack.len() - 1];
        let rules = state.expand();
        if rules.len() == 0 {
            // terminal state: it moves to the formula's tail
            let ghost stack_pre = stack@;
            let ghost formula_pre = formula@;
            let ghost fuel_pre = fuel + 1;
            stack.pop();
            formula.push(state);
            proof {
                if all_terminal::<State>(stack0) {
                    assert(stack_pre.reverse() =~= seq![state] + stack@.reverse());
                    assert(formula@ + stack@.reverse() =~= formula_pre + stack_pre.reverse());
                }
                if available_depth <= 0 {
                    lemma_rollout0_step(formula_pre, stack_pre, fuel_pre as nat);
                }
            }
        } else {
            // pick a rule: uniformly at random while depth lasts, else the
            // first one, on a shortest path by convention
            let index: usize = if rules.len() == 1 {
                0
            } else if depth <= 0 {
                0
            } else {
                rng.next_below(rules.len() as u64) as usize
            };
            if rules.len() > 1 {
                depth = if depth > i64::MIN {
                    depth - 1
                } else {
                    depth
                };
            }
            let ghost stack_pre = stack@;
            let ghost formula_pre = formula@;
            let ghost fuel_pre = fuel + 1;
            stack.pop();
            let ghost stack_mid = stack@;
            let rule = &rules[index];
            let mut j: usize = 0;
            while j < rule.len()
                invariant
                    0 <= j <= rule@.len(),
                    stack@.len() == stack_mid.len() + j,
                    stack@ == stack_mid + rule@.take(j as int),
                decreases rule@.len() - j,
            {
                proof {
                    assert(stack@.push(rule@[j as int]) =~= stack_mid + rule@.take(j as int + 1));
                }
                stack.push(rule[j]);
                j = j + 1;
            }
            proof {
                if available_depth <= 0 {
                    assert(index == 0);
                    assert(rule@ == state.spec_expand()[0]);
                    assert(stack@ =~= stack_pre.drop_last() + state.spec_expand()[0]);
                    lemma_rollout0_step(formula_pre, stack_pre, fuel_pre as nat);
                }
            }
        }
    }
    proof {
        if all_terminal::<State>(stack0) {
            assert(formula@ + stack@.reverse() =~= formula@);
        }
        if available_depth <= 0 {
            assert(rollout0(formula@, stack@, fuel as nat) == Some(formula@));
        }
    }
    let score = formula.evaluate();
    Ok((formula, score))
}

} // verus!

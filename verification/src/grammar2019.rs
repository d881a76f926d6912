use vstd::prelude::*;

verus! {

use crate::grammar::Grammar;
use crate::grammar::Formula;
use crate::numeric::clamp_i64;
use crate::numeric::clamp_i64_model;
use vstd::string::StringExecFns;

/// The states of a small arithmetic grammar: an expression derives the
/// literal one, a sum of two expressions, or a product of two factors; a
/// factor derives a sum or a product but never the bare literal.  The
/// fitness of a formula is minus its distance to two thousand nineteen.
#[derive(Clone, Copy, PartialEq, Eq, Structural, Debug)]
pub enum State {
    /// The start symbol.
    Expr,
    /// An expression that is never the bare literal.
    Factor,
    /// The literal one.
    One,
    /// The addition operator.
    Add,
    /// The multiplication operator.
    Mul,
}

/// Addition on scores that sticks at the ends of the plain range.
pub open spec fn sat_add64(a: i64, b: i64) -> i64 {
    clamp_i64_model((a as i128 + b as i128) as i128)
}

/// Multiplication on scores that sticks at the ends of the plain range.
pub open spec fn sat_mul64(a: i64, b: i64) -> i64 {
    clamp_i64_model(((a as i128) * (b as i128)) as i128)
}

/// Runs the post-order formula left to right over a value stack: the
/// literal pushes one, an operator folds the two topmost values.  A formula
/// is complete exactly when the run ends with one value on the stack.
pub open spec fn run2019(f: Seq<State>, i: int, stk: Seq<i64>) -> Option<i64>
    decreases f.len() - i,
{
    if i < 0 || i >= f.len() {
        if i == f.len() && stk.len() == 1 {
            Some(stk[0])
        } else {
            None
        }
    } else {
        match f[i] {
            State::One => run2019(f, i + 1, stk.push(1)),
            State::Add => if stk.len() >= 2 {
                run2019(
                    f,
                    i + 1,
                    stk.drop_last().drop_last().push(
                        sat_add64(stk[stk.len() - 2], stk[stk.len() - 1]),
                    ),
                )
            } else {
                None
            },
            State::Mul => if stk.len() >= 2 {
                run2019(
                    f,
                    i + 1,
                    stk.drop_last().drop_last().push(
                        sat_mul64(stk[stk.len() - 2], stk[stk.len() - 1]),
                    ),
                )
            } else {
                None
            },
            _ => None,
        }
    }
}

/// The computed value of a complete formula; nothing for a malformed one.
pub open spec fn compute2019(f: Seq<State>) -> Option<i64> {
    run2019(f, 0, Seq::empty())
}

/// The fitness of a value: minus its distance to the target year; a
/// malformed formula scores at the bottom of the range.
pub open spec fn score2019(v: Option<i64>) -> i64 {
    match v {
        Some(value) => {
            let d: i128 = if value as i128 <= 2019 {
                (2019 - value as i128) as i128
            } else {
                (value as i128 - 2019) as i128
            };
            clamp_i64_model((-(d as int)) as i128)
        },
        None => i64::MIN,
    }
}

/// The number of literals in a formula; the Pareto aggregator reads it as
/// the formula's cost.
pub open spec fn ones_count(f: Seq<State>) -> usize
    decreases f.len(),
{
    if f.len() == 0 {
        0
    } else {
        (ones_count(f.drop_last()) + if f.last() is One {
            1int
        } else {
            0int
        }) as usize
    }
}

/// The literal count never exceeds the formula's length.
pub proof fn lemma_ones_count_le_len(f: Seq<State>)
    ensures
        ones_count(f) <= f.len(),
    decreases f.len(),
{
    if f.len() > 0 {
        lemma_ones_count_le_len(f.drop_last());
    }
}

impl Grammar for State {
    type ScoreType = i64;

    open spec fn spec_root() -> State {
        State::Expr
    }

    open spec fn spec_expand(self) -> Seq<Seq<State>> {
        match self {
            State::Expr => seq![
                seq![State::One],
                seq![State::Add, State::Expr, State::Expr],
                seq![State::Mul, State::Factor, State::Factor],
            ],
            State::Factor => seq![
                seq![State::Add, State::Expr, State::Expr],
                seq![State::Mul, State::Factor, State::Factor],
            ],
            _ => Seq::empty(),
        }
    }

    open spec fn spec_evaluate(formula: Seq<State>) -> i64 {
        score2019(compute2019(formula))
    }

    open spec fn spec_cost(formula: Seq<State>) -> usize {
        ones_count(formula)
    }

    fn root_state() -> (s: State)
        ensures
            s == Self::spec_root(),
    {
        State::Expr
    }

    fn expand(self) -> (rules: Vec<Vec<State>>)
        ensures
            rules@.len() == self.spec_expand().len(),
            forall|i: int|
                0 <= i < rules@.len() ==> (#[trigger] rules@[i])@ == self.spec_expand()[i],
    {
        match self {
            State::Expr => {
                let rules = vec![
                    vec![State::One],
                    vec![State::Add, State::Expr, State::Expr],
                    vec![State::Mul, State::Factor, State::Factor],
                ];
                proof {
                    assert(rules@[0]@ =~= self.spec_expand()[0]);
                    assert(rules@[1]@ =~= self.spec_expand()[1]);
                    assert(rules@[2]@ =~= self.spec_expand()[2]);
                }
                rules
            },
            State::Factor => {
                let rules = vec![
                    vec![State::Add, State::Expr, State::Expr],
                    vec![State::Mul, State::Factor, State::Factor],
                ];
                proof {
                    assert(rules@[0]@ =~= self.spec_expand()[0]);
                    assert(rules@[1]@ =~= self.spec_expand()[1]);
                }
                rules
            },
            _ => Vec::new(),
        }
    }

    /// Renders the formula as infix arithmetic over a text stack; a
    /// malformed formula renders as a question mark.
    fn to_string(formula: &Formula<State>) -> (s: String)
        ensures
            s@.len() > 0,
    {
        let n = formula.len();
        let mut stk: Vec<String> = Vec::new();
        let mut i: usize = 0;
        while i < n
            invariant
                n == formula@.len(),
                forall|j: int| 0 <= j < stk@.len() ==> (#[trigger] stk@[j])@.len() > 0,
            decreases n - i,
        {
            let state = formula.get(i);
            match state {
                State::One => {
                    let one = String::from_str("1");
                    proof {
                        reveal_strlit("1");
                    }
                    stk.push(one);
                },
                State::Add => {
                    if stk.len() >= 2 {
                        let b = stk.pop().unwrap();
                        let a = stk.pop().unwrap();
                        let joined = a.concat(" + ").concat(b.as_str());
                        stk.push(joined);
                    }
                },
                State::Mul => {
                    if stk.len() >= 2 {
                        let b = stk.pop().unwrap();
                        let a = stk.pop().unwrap();
                        let joined = String::from_str("(").concat(a.as_str()).concat(")*(").concat(
                            b.as_str(),
                        ).concat(")");
                        proof {
                            reveal_strlit("(");
                        }
                        stk.push(joined);
                    }
                },
                _ => {},
            }
            i = i + 1;
        }
        if stk.len() == 1 {
            let out = stk.pop().unwrap();
            out
        } else {
            let fallback = String::from_str("?");
            proof {
                reveal_strlit("?");
            }
            fallback
        }
    }

    /// Evaluates the formula: pure, total, and exactly the run of the value
    /// stack; a malformed formula scores at the bottom of the range.
    fn evaluate(formula: &Formula<State>) -> (score: i64)
        ensures
            score == Self::spec_evaluate(formula@),
    {
        let n = formula.len();
        let mut stk: Vec<i64> = Vec::new();
        let mut i: usize = 0;
        proof {
            assert(stk@ =~= Seq::<i64>::empty());
        }
        while i < n
            invariant
                0 <= i <= n,
                n == formula@.len(),
                run2019(formula@, i as int, stk@) == compute2019(formula@),
            decreases n - i,
        {
            let state = formula.get(i);
            match state {
                State::One => {
                    stk.push(1);
                },
                State::Add => {
                    if stk.len() >= 2 {
                        let b = stk.pop().unwrap();
                        let a = stk.pop().unwrap();
                        let sum = clamp_i64(a as i128 + b as i128);
                        stk.push(sum);
                    } else {
                        return i64::MIN;
                    }
                },
                State::Mul => {
                    if stk.len() >= 2 {
                        let b = stk.pop().unwrap();
                        let a = stk.pop().unwrap();
                        proof {
                            assert((a as i128) * (b as i128) <= i128::MAX && (a as i128) * (
                            b as i128) >= i128::MIN) by (nonlinear_arith)
                                requires
                                    -0x8000_0000_0000_0000i128 <= a as i128
                                        <= 0x7fff_ffff_ffff_ffffi128,
                                    -0x8000_0000_0000_0000i128 <= b as i128
                                        <= 0x7fff_ffff_ffff_ffffi128,
                            ;
                        }
                        let product = clamp_i64((a as i128) * (b as i128));
                        stk.push(product);
                    } else {
                        return i64::MIN;
                    }
                },
                _ => {
                    return i64::MIN;
                },
            }
            i = i + 1;
        }
        if stk.len() == 1 {
            let value = stk[0];
            let d: i128 = if value <= 2019 {
                2019 - value as i128
            } else {
                value as i128 - 2019
            };
            clamp_i64(-d)
        } else {
            i64::MIN
        }
    }

    /// Counts the literals: the formula's cost for the Pareto front.
    fn cost(formula: &Formula<State>) -> (c: usize)
        ensures
            c == Self::spec_cost(formula@),
    {
        let n = formula.len();
        let mut count: usize = 0;
        let mut i: usize = 0;
        while i < n
            invariant
                0 <= i <= n,
                n == formula@.len(),
                count == ones_count(formula@.take(i as int)),
                count <= i,
            decreases n - i,
        {
            let state = formula.get(i);
            proof {
                assert(formula@.take(i as int + 1).drop_last() =~= formula@.take(i as int));
                assert(formula@.take(i as int + 1).last() == formula@[i as int]);
            }
            if let State::One = state {
                count = count + 1;
            }
            i = i + 1;
        }
        proof {
            assert(formula@.take(n as int) =~= formula@);
        }
        count
    }
}

} // verus!

use vstd::prelude::*;

verus! {

/// A grammar: a start symbol, expansion rules for every state, a renderer and
/// a fitness function over complete formulas.  States are small copyable
/// values; a state with no rules is terminal.  The spec members fix what the
/// executable members return, so evaluation and expansion are pure: the same
/// state or formula always gives the same rules or score.
pub trait Grammar: Sized + Copy {
    /// The score a formula evaluates to; plain for total fitness functions,
    /// an `Option` when some formulas are invalid.
    type ScoreType: Copy;

    /// The start symbol.  The default is an arbitrary value: a grammar
    /// that wants its contracts to say anything overrides every spec
    /// member.
    open spec fn spec_root() -> Self {
        arbitrary()
    }

    /// The ordered rule set of a state; empty means terminal.
    open spec fn spec_expand(self) -> Seq<Seq<Self>> {
        arbitrary()
    }

    /// The fitness of a formula.
    open spec fn spec_evaluate(formula: Seq<Self>) -> Self::ScoreType {
        arbitrary()
    }

    /// The cost of a formula, read by the Pareto aggregator; the length of
    /// the formula unless the grammar says otherwise.
    open spec fn spec_cost(formula: Seq<Self>) -> usize {
        if formula.len() > usize::MAX {
            usize::MAX
        } else {
            formula.len() as usize
        }
    }

    /// Returns the start symbol.
    fn root_state() -> (s: Self)
        ensures
            s == Self::spec_root(),
    ;

    /// Returns the ordered substitution rules of a state; an empty vector
    /// marks a terminal state.
    fn expand(self) -> (rules: Vec<Vec<Self>>)
        ensures
            rules@.len() == self.spec_expand().len(),
            forall|i: int|
                0 <= i < rules@.len() ==> (#[trigger] rules@[i])@ == self.spec_expand()[i],
    ;

    /// Renders a complete formula; the rendering is never empty.
    fn to_string(formula: &Formula<Self>) -> (s: String)
        ensures
            s@.len() > 0,
    ;

    /// Evaluates a complete formula; pure, as the spec function fixes the
    /// result from the formula alone.
    fn evaluate(formula: &Formula<Self>) -> (score: Self::ScoreType)
        ensures
            score == Self::spec_evaluate(formula@),
    ;

    /// Computes the cost of a formula; `spec_cost` defaults to the
    /// formula's length, so a grammar that keeps that default returns the
    /// length here.
    fn cost(formula: &Formula<Self>) -> (c: usize)
        ensures
            c == Self::spec_cost(formula@),
    ;
}

/// An ordered series of terminal states in post order: readers consume from
/// the tail and recurse.
pub struct Formula<State>(pub Vec<State>);

impl<State> View for Formula<State> {
    type V = Seq<State>;

    open spec fn view(&self) -> Seq<State> {
        self.0@
    }
}

impl<State: Copy> Clone for Formula<State> {
    /// Cloning keeps the states.
    fn clone(&self) -> (r: Self)
        ensures
            r@ == self@,
    {
        let mut states: Vec<State> = Vec::new();
        let mut i: usize = 0;
        while i < self.0.len()
            invariant
                0 <= i <= self.0.len(),
                states@ == self.0@.subrange(0, i as int),
            decreases self.0.len() - i,
        {
            states.push(self.0[i]);
            i = i + 1;
        }
        proof {
            assert(states@ =~= self.0@);
        }
        Formula(states)
    }
}

impl<State: Copy> Formula<State> {
    /// Creates a new, empty, formula.
    pub fn empty() -> (f: Self)
        ensures
            f@ == Seq::<State>::empty(),
    {
        Formula(Vec::new())
    }

    /// Appends a state at the tail.
    pub fn push(&mut self, state: State)
        ensures
            final(self)@ == old(self)@.push(state),
    {
        self.0.push(state);
    }

    /// The number of states.
    pub fn len(&self) -> (n: usize)
        ensures
            n == self@.len(),
    {
        self.0.len()
    }

    /// The state at an index.
    pub fn get(&self, i: usize) -> (s: State)
        requires
            i < self@.len(),
        ensures
            s == self@[i as int],
    {
        self.0[i]
    }

}

impl<State: Grammar> Formula<State> {
    /// Evaluates the formula through the grammar's fitness function.
    pub fn evaluate(&self) -> (score: State::ScoreType)
        ensures
            score == State::spec_evaluate(self@),
    {
        State::evaluate(self)
    }

    /// Computes the cost of the formula through the grammar.
    pub fn cost(&self) -> (c: usize)
        ensures
            c == State::spec_cost(self@),
    {
        State::cost(self)
    }
}

} // verus!

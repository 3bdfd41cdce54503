use vstd::prelude::*;

use crate::behaviour::Behaviour;

verus! {

/// Sequential composition of two behaviours: `Chain { a, b }` applies `a`
/// first and then applies `b` to the result, handing both the same read-only
/// context. No dynamic dispatch is involved: the two parts are ordinary type
/// parameters.
pub struct Chain<A, B> {
    pub a: A,
    pub b: B,
}

impl<A, B> Chain<A, B> {
    /// Build the composite behaviour that applies `a`, then `b`.
    pub fn chain(a: A, b: B) -> (r: Self)
        ensures
            r == (Chain { a, b }),
    {
        Chain { a, b }
    }
}

impl<State: DeepView, Context: DeepView, A, B> Behaviour<State, Context> for Chain<A, B> where
    A: Behaviour<State, Context>,
    B: Behaviour<State, Context>,
 {
    open spec fn spec_act(&self, state: State::V, context: Context::V) -> State::V {
        self.b.spec_act(self.a.spec_act(state, context), context)
    }

    fn act(&self, state: State, context: &Context) -> (new_state: State) {
        let temp_state = self.a.act(state, context);
        self.b.act(temp_state, context)
    }
}

/// Law: chaining is sequential composition. For every state and context, the
/// chain of `a` and `b` computes what `b` computes on the result of `a`.
pub proof fn lemma_chain_acts_in_sequence<State: DeepView, Context: DeepView, A, B>(
    c: Chain<A, B>,
    state: State::V,
    context: Context::V,
) where A: Behaviour<State, Context>, B: Behaviour<State, Context>
    ensures
        c.spec_act(state, context) == c.b.spec_act(c.a.spec_act(state, context), context),
{
}

/// Law: chaining is associative. Composing `a`, `b` and `c` associated to the
/// left behaves identically to composing them associated to the right.
pub proof fn lemma_chain_associative<State: DeepView, Context: DeepView, A, B, C>(
    left: Chain<Chain<A, B>, C>,
    right: Chain<A, Chain<B, C>>,
    state: State::V,
    context: Context::V,
) where
    A: Behaviour<State, Context>,
    B: Behaviour<State, Context>,
    C: Behaviour<State, Context>,

    requires
        left.a.a == right.a,
        left.a.b == right.b.a,
        left.b == right.b.b,
    ensures
        left.spec_act(state, context) == right.spec_act(state, context),
{
}

} // verus!

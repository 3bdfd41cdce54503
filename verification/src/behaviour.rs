use vstd::prelude::*;

verus! {

/// A behaviour is a pure state transition: it turns an agent's state into the
/// agent's next state, reading a shared read-only context. All effects a
/// behaviour may have (outgoing messages, structural mutation requests) are
/// recorded inside the returned state itself, never on shared structures.
///
/// The mathematical meaning of a behaviour is its `spec_act` function over the
/// deep views of the state and the context; the executable `act` must return a
/// state whose view is exactly `spec_act` of its inputs' views.
pub trait Behaviour<State: DeepView, Context: DeepView> {
    /// What this behaviour computes, stated over the mathematical models of
    /// the state and the context.
    spec fn spec_act(&self, state: State::V, context: Context::V) -> State::V;

    /// Compute the next state from the current state and the shared context.
    fn act(&self, state: State, context: &Context) -> (new_state: State)
        ensures
            new_state.deep_view() == self.spec_act(state.deep_view(), context.deep_view()),
    ;
}

} // verus!

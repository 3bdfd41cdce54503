use vstd::prelude::*;

use crate::behaviour::Behaviour;
use crate::utils::{AgentId, BaseOp, SystemOp};

verus! {

/// A structural request to take the agent with the given id out of the
/// registry.
#[derive(Debug, Copy, Clone, PartialEq, Eq, Structural)]
pub struct RemoveAgent(pub AgentId);

impl View for RemoveAgent {
    type V = RemoveAgent;

    open spec fn view(&self) -> RemoveAgent {
        *self
    }
}

impl DeepView for RemoveAgent {
    type V = RemoveAgent;

    open spec fn deep_view(&self) -> RemoveAgent {
        *self
    }
}

/// Embedding of a removal request into a simulation's own request type, with
/// its meaning over the model. Each simulation's request union implements
/// this for the requests it understands.
pub trait IntoRequest<R: DeepView>: Sized {
    /// The request this value stands for, over the model.
    spec fn spec_request(self) -> <R as DeepView>::V;

    /// Convert into the simulation's request type.
    fn into_request(self) -> (r: R)
        ensures
            r.deep_view() == self.spec_request(),
    ;
}

/// A leaf behaviour that unconditionally asks the scheduler to retire its own
/// agent and otherwise returns the state unchanged. Used at the tail of a
/// chain to retire an agent after its one-time work is done.
pub struct RemoveSelfBehaviour {}

impl<State, Context> Behaviour<State, Context> for RemoveSelfBehaviour where
    State: BaseOp + SystemOp,
    Context: DeepView,
    RemoveAgent: IntoRequest<<State as SystemOp>::RequestType>,
 {
    open spec fn spec_act(&self, state: State::V, context: Context::V) -> State::V {
        State::spec_with_requests(
            state,
            State::spec_requests(state).push(
                IntoRequest::<<State as SystemOp>::RequestType>::spec_request(
                    RemoveAgent(State::spec_id(state)),
                ),
            ),
        )
    }

    fn act(&self, state: State, context: &Context) -> (new_state: State) {
        let mut state = state;
        let id = state.id();
        state.request(RemoveAgent(id).into_request());
        state
    }
}

/// Law: retiring oneself enqueues exactly one removal request, carrying the
/// agent's own id, at the back of the queue, and alters nothing else: putting
/// any queue in place of the grown one gives the same state as putting it in
/// place of the original queue.
pub proof fn lemma_remove_self_requests<State, Context>(
    b: RemoveSelfBehaviour,
    state: State::V,
    context: Context::V,
) where
    State: BaseOp + SystemOp,
    Context: DeepView,
    RemoveAgent: IntoRequest<<State as SystemOp>::RequestType>,

    ensures
        State::spec_requests(<RemoveSelfBehaviour as Behaviour<State, Context>>::spec_act(&b, state, context)) == State::spec_requests(state).push(
            IntoRequest::<<State as SystemOp>::RequestType>::spec_request(
                RemoveAgent(State::spec_id(state)),
            ),
        ),
        forall|q: Seq<<<State as SystemOp>::RequestType as DeepView>::V>|
            #[trigger] State::spec_with_requests(<RemoveSelfBehaviour as Behaviour<State, Context>>::spec_act(&b, state, context), q)
                == State::spec_with_requests(state, q),
{
    let pushed = State::spec_requests(state).push(
        IntoRequest::<<State as SystemOp>::RequestType>::spec_request(
            RemoveAgent(State::spec_id(state)),
        ),
    );
    State::lemma_with_requests(state, pushed, pushed);
    assert forall|q: Seq<<<State as SystemOp>::RequestType as DeepView>::V>|
        #[trigger] State::spec_with_requests(<RemoveSelfBehaviour as Behaviour<State, Context>>::spec_act(&b, state, context), q)
            == State::spec_with_requests(state, q) by {
        State::lemma_with_requests(state, pushed, q);
    }
}

} // verus!

use vstd::prelude::*;

use crate::behaviour::Behaviour;
use crate::map_context::SimpleMapContext;
use crate::registry::Registry;

verus! {

/// An opaque, totally ordered, unique identifier for an agent.
#[derive(Debug, Copy, Clone, Ord, PartialOrd, PartialEq, Eq, Structural)]
pub struct AgentId(pub u64);

impl View for AgentId {
    type V = AgentId;

    open spec fn view(&self) -> AgentId {
        *self
    }
}

impl DeepView for AgentId {
    type V = AgentId;

    open spec fn deep_view(&self) -> AgentId {
        *self
    }
}

/// Capability of a state that knows its own agent identifier.
pub trait BaseOp: DeepView {
    /// The identifier, read off the state's model.
    spec fn spec_id(state: Self::V) -> AgentId;

    /// The identifier of this agent.
    fn id(&self) -> (r: AgentId)
        ensures
            r == Self::spec_id(self.deep_view()),
    ;
}

/// The colour an agent can show; domain behaviours flip it to signal state.
#[derive(Debug, Copy, Clone, PartialEq, Eq, Structural)]
pub enum Color {
    Black,
    Blue,
    Red,
}

impl View for Color {
    type V = Color;

    open spec fn view(&self) -> Color {
        *self
    }
}

impl DeepView for Color {
    type V = Color;

    open spec fn deep_view(&self) -> Color {
        *self
    }
}

/// Capability of a state that carries a colour.
pub trait ColorOp: DeepView {
    /// The colour carried by the state's model.
    spec fn spec_color(state: Self::V) -> Color;

    /// The same state carrying the given colour instead of its own; nothing
    /// else about the state differs.
    spec fn spec_with_color(state: Self::V, color: Color) -> Self::V;

    /// Read the current colour.
    fn get_color(&self) -> (r: &Color)
        ensures
            *r == Self::spec_color(self.deep_view()),
    ;

    /// Replace the colour; nothing else changes.
    fn set_color(&mut self, color: Color)
        ensures
            final(self).deep_view() == Self::spec_with_color(old(self).deep_view(), color),
    ;
}

/// Capability of a state that records structural mutation requests. Requests
/// are only recorded here during the map phase; the scheduler drains and
/// applies them afterwards.
pub trait SystemOp: DeepView {
    /// The type of structural mutation requests this state can record.
    type RequestType: DeepView;

    /// The requests recorded so far, in emission order, over the model.
    spec fn spec_requests(state: Self::V) -> Seq<<Self::RequestType as DeepView>::V>;

    /// The same state carrying the given request queue instead of its own;
    /// nothing else about the state differs.
    spec fn spec_with_requests(
        state: Self::V,
        requests: Seq<<Self::RequestType as DeepView>::V>,
    ) -> Self::V;

    /// Laws of the queue model: replacing the queue stores exactly that
    /// queue, a later replacement wins, and storing a state's own queue
    /// changes nothing.
    proof fn lemma_with_requests(
        state: Self::V,
        q1: Seq<<Self::RequestType as DeepView>::V>,
        q2: Seq<<Self::RequestType as DeepView>::V>,
    )
        ensures
            Self::spec_requests(Self::spec_with_requests(state, q1)) == q1,
            Self::spec_with_requests(Self::spec_with_requests(state, q1), q2)
                == Self::spec_with_requests(state, q2),
            Self::spec_with_requests(state, Self::spec_requests(state)) == state,
    ;

    /// Append one structural mutation request to the queue; nothing else
    /// changes.
    fn request(&mut self, request: Self::RequestType)
        ensures
            final(self).deep_view() == Self::spec_with_requests(
                old(self).deep_view(),
                Self::spec_requests(old(self).deep_view()).push(request.deep_view()),
            ),
    ;
}

/// Capability of an agent whose pending mutation requests the scheduler can
/// take away at the end of the map phase.
pub trait AgentBase<Request: DeepView>: DeepView {
    /// The agent's pending mutation requests, in emission order.
    spec fn spec_system_outbox(agent: Self::V) -> Seq<Request::V>;

    /// The same agent with its pending requests taken away; nothing else
    /// about the agent differs.
    spec fn spec_emptied(agent: Self::V) -> Self::V;

    /// An emptied agent holds no pending requests.
    proof fn lemma_emptied(agent: Self::V)
        ensures
            Self::spec_system_outbox(Self::spec_emptied(agent)) == Seq::<Request::V>::empty(),
    ;

    /// Hand the pending requests over and leave none behind.
    fn empty_system_outbox(&mut self) -> (r: Vec<Request>)
        ensures
            r.deep_view() == Self::spec_system_outbox(old(self).deep_view()),
            final(self).deep_view() == Self::spec_emptied(old(self).deep_view()),
    ;
}

/// A system holds the registry of agents and is the only component allowed to
/// mutate it: it drains every agent's pending mutation requests and applies
/// them one by one.
pub trait System<Request: DeepView>: DeepView {
    /// The kind of agent this system holds.
    type AgentType;

    /// All pending requests over all agents: agents in ascending id order,
    /// each agent's requests in emission order.
    spec fn spec_pending(system: Self::V) -> Seq<Request::V>;

    /// The system with every agent's pending requests taken away and nothing
    /// else changed.
    spec fn spec_drained(system: Self::V) -> Self::V;

    /// The system after one structural request has been applied to the
    /// registry.
    spec fn spec_apply(system: Self::V, request: Request::V) -> Self::V;

    /// Take every agent's pending requests, in ascending agent id order,
    /// preserving each agent's emission order.
    fn drain_system_outboxes(&mut self) -> (r: Vec<Request>)
        ensures
            r.deep_view() == Self::spec_pending(old(self).deep_view()),
            final(self).deep_view() == Self::spec_drained(old(self).deep_view()),
    ;

    /// Apply one structural request to the registry.
    fn apply_system_request(&mut self, action: Request)
        ensures
            final(self).deep_view() == Self::spec_apply(
                old(self).deep_view(),
                action.deep_view(),
            ),
    ;
}

/// The system after a whole sequence of requests has been applied, first
/// request first.
pub open spec fn spec_apply_all<Request: DeepView, T: System<Request>>(
    system: T::V,
    requests: Seq<Request::V>,
) -> T::V
    decreases requests.len(),
{
    if requests.len() == 0 {
        system
    } else {
        spec_apply_all::<Request, T>(T::spec_apply(system, requests[0]), requests.skip(1))
    }
}

/// Applying a sequence and then one more request is applying the extended
/// sequence.
pub proof fn lemma_apply_all_push<Request: DeepView, T: System<Request>>(
    system: T::V,
    requests: Seq<Request::V>,
    request: Request::V,
)
    ensures
        spec_apply_all::<Request, T>(system, requests.push(request)) == T::spec_apply(
            spec_apply_all::<Request, T>(system, requests),
            request,
        ),
    decreases requests.len(),
{
    let pushed = requests.push(request);
    assert(pushed.len() == requests.len() + 1);
    if requests.len() == 0 {
        assert(pushed[0] == request);
        assert(pushed.skip(1) =~= Seq::<Request::V>::empty());
        assert(spec_apply_all::<Request, T>(system, pushed) == spec_apply_all::<Request, T>(
            T::spec_apply(system, request),
            pushed.skip(1),
        ));
        assert(spec_apply_all::<Request, T>(
            T::spec_apply(system, request),
            Seq::<Request::V>::empty(),
        ) == T::spec_apply(system, request));
        assert(spec_apply_all::<Request, T>(system, requests) == system);
    } else {
        assert(pushed[0] == requests[0]);
        assert(pushed.skip(1) =~= requests.skip(1).push(request));
        assert(spec_apply_all::<Request, T>(system, pushed) == spec_apply_all::<Request, T>(
            T::spec_apply(system, requests[0]),
            requests.skip(1).push(request),
        ));
        lemma_apply_all_push::<Request, T>(
            T::spec_apply(system, requests[0]),
            requests.skip(1),
            request,
        );
        assert(spec_apply_all::<Request, T>(system, requests) == spec_apply_all::<Request, T>(
            T::spec_apply(system, requests[0]),
            requests.skip(1),
        ));
    }
}

/// The commit phase: take every agent's pending mutation requests (ascending
/// agent id, each agent's emission order kept) and apply them to the registry
/// strictly in that order.
pub fn perform_system_actions<Request: DeepView, T: System<Request>>(context: &mut T)
    ensures
        final(context).deep_view() == spec_apply_all::<Request, T>(
            T::spec_drained(old(context).deep_view()),
            T::spec_pending(old(context).deep_view()),
        ),
{
    // We do this in two steps as the registry must not change while the
    // requests are still being collected from its agents.
    let mut system_actions: Vec<Request> = context.drain_system_outboxes();
    let ghost all: Seq<Request> = system_actions@;
    let ghost all_deep: Seq<Request::V> = system_actions.deep_view();
    let ghost drained: T::V = T::spec_drained(old(context).deep_view());
    let ghost mut processed: int = 0;
    proof {
        assert(all.skip(0) =~= all);
        assert(all_deep.subrange(0, 0) =~= Seq::<Request::V>::empty());
    }
    while system_actions.len() > 0
        invariant
            0 <= processed <= all.len(),
            all_deep.len() == all.len(),
            forall|j: int| 0 <= j < all.len() ==> all_deep[j] == all[j].deep_view(),
            system_actions@ == all.skip(processed),
            context.deep_view() == spec_apply_all::<Request, T>(
                drained,
                all_deep.subrange(0, processed),
            ),
        decreases system_actions.len(),
    {
        let action = system_actions.remove(0);
        proof {
            assert(action == all[processed]);
        }
        context.apply_system_request(action);
        proof {
            lemma_apply_all_push::<Request, T>(
                drained,
                all_deep.subrange(0, processed),
                all_deep[processed],
            );
            assert(all_deep.subrange(0, processed).push(all_deep[processed]) =~= all_deep.subrange(
                0,
                processed + 1,
            ));
            assert(all.skip(processed).remove(0) =~= all.skip(processed + 1));
            processed = processed + 1;
        }
    }
    proof {
        assert(processed == all.len());
        assert(all_deep.subrange(0, processed) =~= all_deep);
    }
}

/// Build a new registry by applying `f` to every agent of `tree`, keeping
/// every id in place. The result's agents are possible outputs of `f` on the
/// corresponding inputs.
pub fn map_tree_leaves<B, C, F: Fn(&B) -> C>(tree: &Registry<B>, f: F) -> (r: Registry<C>) where
    B: DeepView,
    C: DeepView,

    requires
        forall|i: int| 0 <= i < tree.entries@.len() ==> call_requires(f, (&tree.entries@[i].1,)),
    ensures
        r.entries@.len() == tree.entries@.len(),
        forall|i: int|
            0 <= i < tree.entries@.len() ==> (#[trigger] r.entries@[i]).0 == tree.entries@[i].0,
        forall|i: int|
            0 <= i < tree.entries@.len() ==> call_ensures(
                f,
                (&tree.entries@[i].1,),
                (#[trigger] r.entries@[i]).1,
            ),
        tree.wf() ==> r.wf(),
{
    let mut entries: Vec<(AgentId, C)> = Vec::new();
    let mut i: usize = 0;
    while i < tree.entries.len()
        invariant
            0 <= i <= tree.entries@.len(),
            entries@.len() == i,
            forall|j: int| 0 <= j < i ==> (#[trigger] entries@[j]).0 == tree.entries@[j].0,
            forall|j: int|
                0 <= j < i ==> call_ensures(
                    f,
                    (&tree.entries@[j].1,),
                    (#[trigger] entries@[j]).1,
                ),
            forall|j: int|
                0 <= j < tree.entries@.len() ==> call_requires(f, (&tree.entries@[j].1,)),
        decreases tree.entries@.len() - i,
    {
        let id = tree.entries[i].0;
        let mapped = f(&tree.entries[i].1);
        entries.push((id, mapped));
        i += 1;
    }
    let r = Registry { entries };
    proof {
        if tree.wf() {
            assert forall|a: int, b: int| 0 <= a < b < r.entries@.len() implies (
            #[trigger] r.entries@[a]).0.0 < (#[trigger] r.entries@[b]).0.0 by {
                assert(tree.entries@[a].0.0 < tree.entries@[b].0.0);
            }
        }
    }
    r
}

/// The map phase over a plain context: every agent's next state is computed
/// by the one behaviour from the agent's current state and the frozen
/// pre-tick context; ids stay as they are. Requires the agent's `clone` to
/// preserve the model, which every state type of this crate guarantees.
pub fn step_agents<AGENT, B>(behaviour: &B, context: &mut SimpleMapContext<AGENT>) where
    AGENT: DeepView + Clone,
    B: Behaviour<AGENT, SimpleMapContext<AGENT>>,

    requires
        forall|a: AGENT, r: AGENT|
            call_ensures(AGENT::clone, (&a,), r) ==> r.deep_view() == a.deep_view(),
    ensures
        final(context).agents.entries@.len() == old(context).agents.entries@.len(),
        forall|i: int|
            0 <= i < old(context).agents.entries@.len() ==> (
            #[trigger] final(context).agents.entries@[i]).0 == old(context).agents.entries@[i].0,
        forall|i: int|
            0 <= i < old(context).agents.entries@.len() ==> (
            #[trigger] final(context).agents.entries@[i]).1.deep_view() == behaviour.spec_act(
                old(context).agents.entries@[i].1.deep_view(),
                old(context).deep_view(),
            ),
        old(context).agents.wf() ==> final(context).agents.wf(),
{
    let mut entries: Vec<(AgentId, AGENT)> = Vec::new();
    let mut i: usize = 0;
    while i < context.agents.entries.len()
        invariant
            *context == *old(context),
            0 <= i <= context.agents.entries@.len(),
            entries@.len() == i,
            forall|a: AGENT, r: AGENT|
                call_ensures(AGENT::clone, (&a,), r) ==> r.deep_view() == a.deep_view(),
            forall|j: int|
                0 <= j < i ==> (#[trigger] entries@[j]).0 == context.agents.entries@[j].0,
            forall|j: int|
                0 <= j < i ==> (#[trigger] entries@[j]).1.deep_view() == behaviour.spec_act(
                    context.agents.entries@[j].1.deep_view(),
                    context.deep_view(),
                ),
        decreases context.agents.entries@.len() - i,
    {
        let id = context.agents.entries[i].0;
        let current = context.agents.entries[i].1.clone();
        let next = behaviour.act(current, context);
        entries.push((id, next));
        i += 1;
    }
    proof {
        if context.agents.wf() {
            assert forall|a: int, b: int| 0 <= a < b < entries@.len() implies (
            #[trigger] entries@[a]).0.0 < (#[trigger] entries@[b]).0.0 by {
                assert(context.agents.entries@[a].0.0 < context.agents.entries@[b].0.0);
            }
        }
    }
    context.agents = Registry { entries };
}

} // verus!

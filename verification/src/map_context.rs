use vstd::prelude::*;

use crate::registry::Registry;
use crate::utils::AgentId;

verus! {

/// A context that owns the registry of agents between generations. The
/// scheduler reads the registry out of it for the map phase and stores the
/// next generation back.
pub trait MapContext<AGENT: DeepView>: DeepView {
    /// The agents held by the context, over the model.
    spec fn spec_agents(context: Self::V) -> Seq<(AgentId, <AGENT as DeepView>::V)>;

    /// The same context holding the given agents instead; nothing else about
    /// the context differs.
    spec fn spec_with_agents(
        context: Self::V,
        agents: Seq<(AgentId, <AGENT as DeepView>::V)>,
    ) -> Self::V;

    /// Laws of the agents model: storing agents stores exactly them, and
    /// storing a context's own agents changes nothing.
    proof fn lemma_with_agents(context: Self::V, agents: Seq<(AgentId, <AGENT as DeepView>::V)>)
        ensures
            Self::spec_agents(Self::spec_with_agents(context, agents)) == agents,
            Self::spec_with_agents(context, Self::spec_agents(context)) == context,
    ;

    /// Replace the registry of agents; nothing else changes.
    fn set_agents(&mut self, agents: Registry<AGENT>)
        ensures
            final(self).deep_view() == Self::spec_with_agents(
                old(self).deep_view(),
                agents.deep_view(),
            ),
    ;

    /// Read the registry of agents.
    fn agents(&self) -> (r: &Registry<AGENT>)
        ensures
            r.deep_view() == Self::spec_agents(self.deep_view()),
    ;
}

/// The plain context: nothing but the registry of agents.
pub struct SimpleMapContext<AGENT> {
    pub agents: Registry<AGENT>,
}

impl<AGENT: DeepView> DeepView for SimpleMapContext<AGENT> {
    type V = Seq<(AgentId, <AGENT as DeepView>::V)>;

    open spec fn deep_view(&self) -> Seq<(AgentId, <AGENT as DeepView>::V)> {
        self.agents.deep_view()
    }
}

impl<AGENT: DeepView> SimpleMapContext<AGENT> {
    /// A context with an empty registry.
    pub fn new() -> (r: SimpleMapContext<AGENT>)
        ensures
            r.agents.entries@ == Seq::<(AgentId, AGENT)>::empty(),
            r.agents.wf(),
    {
        SimpleMapContext { agents: Registry::new() }
    }

    /// The neighbourhood query of the map phase: hand back every live agent
    /// of the frozen pre-tick registry that the predicate admits around
    /// `state`, in registry order (ascending id). Read-only: the registry is
    /// untouched, so mutations queued but not yet applied cannot reach it.
    ///
    /// Besides the neighbours themselves, their positions in the registry
    /// come back as a ghost sequence, so that a caller can tell exactly which
    /// agents were admitted: the positions are strictly ascending, each names
    /// an entry the predicate admitted, and the predicate turned every entry
    /// at a position left out down.
    pub fn neighbours<'a, F: Fn(&AGENT, &AGENT) -> bool>(
        &'a self,
        state: &AGENT,
        pred: F,
    ) -> (r: (Vec<&'a AGENT>, Ghost<Seq<int>>))
        requires
            forall|i: int|
                0 <= i < self.agents.entries@.len() ==> call_requires(
                    pred,
                    (state, &self.agents.entries@[i].1),
                ),
        ensures
            r.1@.len() == r.0@.len(),
            forall|j: int| 0 <= j < r.1@.len() ==> 0 <= #[trigger] r.1@[j]
                < self.agents.entries@.len(),
            forall|j1: int, j2: int| 0 <= j1 < j2 < r.1@.len() ==> r.1@[j1] < r.1@[j2],
            forall|j: int|
                0 <= j < r.1@.len() ==> r.0@[j] == &self.agents.entries@[#[trigger] r.1@[j]].1
                    && call_ensures(pred, (state, &self.agents.entries@[r.1@[j]].1), true),
            forall|i: int|
                0 <= i < self.agents.entries@.len() && !r.1@.contains(i) ==> call_ensures(
                    pred,
                    (state, &(#[trigger] self.agents.entries@[i]).1),
                    false,
                ),
    {
        let mut found: Vec<&AGENT> = Vec::new();
        let ghost mut picked: Seq<int> = Seq::empty();
        let mut i: usize = 0;
        while i < self.agents.entries.len()
            invariant
                0 <= i <= self.agents.entries@.len(),
                forall|k: int|
                    0 <= k < self.agents.entries@.len() ==> call_requires(
                        pred,
                        (state, &self.agents.entries@[k].1),
                    ),
                picked.len() == found@.len(),
                forall|j: int| 0 <= j < picked.len() ==> 0 <= #[trigger] picked[j] < i,
                forall|j1: int, j2: int| 0 <= j1 < j2 < picked.len() ==> picked[j1] < picked[j2],
                forall|j: int|
                    0 <= j < picked.len() ==> found@[j] == &self.agents.entries@[
                        #[trigger] picked[j]
                    ].1 && call_ensures(
                        pred,
                        (state, &self.agents.entries@[picked[j]].1),
                        true,
                    ),
                forall|k: int|
                    0 <= k < i && !picked.contains(k) ==> call_ensures(
                        pred,
                        (state, &(#[trigger] self.agents.entries@[k]).1),
                        false,
                    ),
            decreases self.agents.entries@.len() - i,
        {
            let candidate = &self.agents.entries[i].1;
            if pred(state, candidate) {
                found.push(candidate);
                proof {
                    let prev = picked;
                    picked = picked.push(i as int);
                    assert(picked[picked.len() - 1] == i as int);
                    assert(picked.contains(i as int));
                    assert forall|k: int| 0 <= k < i + 1 && !picked.contains(k) implies call_ensures(
                        pred,
                        (state, &(self.agents.entries@[k]).1),
                        false,
                    ) by {
                        assert(k != i as int);
                        if prev.contains(k) {
                            let j = choose|j: int| 0 <= j < prev.len() && prev[j] == k;
                            assert(picked[j] == k);
                            assert(picked.contains(k));
                        }
                    }
                }
            } else {
                proof {
                    assert(forall|j: int|
                        0 <= j < picked.len() ==> #[trigger] picked[j] != i as int);
                }
            }
            i += 1;
        }
        (found, Ghost(picked))
    }
}

impl<AGENT: DeepView> MapContext<AGENT> for SimpleMapContext<AGENT> {
    open spec fn spec_agents(context: Self::V) -> Seq<(AgentId, <AGENT as DeepView>::V)> {
        context
    }

    open spec fn spec_with_agents(
        context: Self::V,
        agents: Seq<(AgentId, <AGENT as DeepView>::V)>,
    ) -> Self::V {
        agents
    }

    proof fn lemma_with_agents(
        context: Self::V,
        agents: Seq<(AgentId, <AGENT as DeepView>::V)>,
    ) {
    }

    fn set_agents(&mut self, agents: Registry<AGENT>) {
        self.agents = agents;
    }

    fn agents(&self) -> (r: &Registry<AGENT>) {
        &self.agents
    }
}

} // verus!

use vstd::prelude::*;

use crate::behaviour::Behaviour;
use crate::map_context::SimpleMapContext;
use crate::utils::AgentId;

verus! {

/// An agent that counts generations on its own clock and compares it against
/// every other agent's clock in the frozen pre-tick registry. If it ever sees
/// a clock different from its own, the generations are not advancing in
/// lockstep, and it raises its flag for good.
#[derive(Debug, Copy, Clone, PartialEq, Eq, Structural)]
pub struct TimeCheckAgent {
    pub id: AgentId,
    pub current_time: u32,
    pub detected_bad_time: bool,
}

impl DeepView for TimeCheckAgent {
    type V = TimeCheckAgent;

    open spec fn deep_view(&self) -> TimeCheckAgent {
        *self
    }
}

impl TimeCheckAgent {
    /// A fresh agent: clock at zero, no inconsistency seen.
    pub fn new(id: u64) -> (r: TimeCheckAgent)
        ensures
            r == (TimeCheckAgent {
                id: AgentId(id),
                current_time: 0,
                detected_bad_time: false,
            }),
    {
        TimeCheckAgent { id: AgentId(id), current_time: 0, detected_bad_time: false }
    }
}

/// The context of this simulation: the plain registry of its agents.
pub type TimeCheckContext = SimpleMapContext<TimeCheckAgent>;

/// Whether every agent of the registry shows the given time.
pub open spec fn all_times_match(agents: Seq<(AgentId, TimeCheckAgent)>, time: u32) -> bool {
    forall|i: int| 0 <= i < agents.len() ==> (#[trigger] agents[i]).1.current_time == time
}

/// The clock after one generation.
pub open spec fn next_time(time: u32) -> u32 {
    if time == u32::MAX {
        0
    } else {
        (time + 1) as u32
    }
}

/// The behaviour of a time-checking agent.
pub struct TimeCheckBehaviour;

impl Behaviour<TimeCheckAgent, TimeCheckContext> for TimeCheckBehaviour {
    open spec fn spec_act(
        &self,
        state: TimeCheckAgent,
        context: Seq<(AgentId, TimeCheckAgent)>,
    ) -> TimeCheckAgent {
        TimeCheckAgent {
            id: state.id,
            current_time: next_time(state.current_time),
            detected_bad_time: state.detected_bad_time || !all_times_match(
                context,
                state.current_time,
            ),
        }
    }

    fn act(&self, state: TimeCheckAgent, context: &TimeCheckContext) -> (new_state: TimeCheckAgent) {
        let ghost ctx = context.deep_view();
        let mut all_match = true;
        let mut i: usize = 0;
        while i < context.agents.entries.len()
            invariant
                ctx == context.deep_view(),
                ctx.len() == context.agents.entries@.len(),
                forall|j: int|
                    0 <= j < ctx.len() ==> (#[trigger] ctx[j]) == (
                        context.agents.entries@[j].0,
                        context.agents.entries@[j].1,
                    ),
                0 <= i <= ctx.len(),
                all_match == all_times_match(ctx.take(i as int), state.current_time),
            decreases ctx.len() - i,
        {
            let ghost prefix = ctx.take(i as int);
            let ghost prefix1 = ctx.take(i as int + 1);
            proof {
                assert(forall|j: int| 0 <= j < i + 1 ==> prefix1[j] == ctx[j]);
                assert(forall|j: int| 0 <= j < i ==> prefix[j] == ctx[j]);
            }
            if all_match && context.agents.entries[i].1.current_time != state.current_time {
                all_match = false;
            }
            proof {
                if all_match {
                    assert(all_times_match(prefix1, state.current_time)) by {
                        assert(ctx[i as int].1.current_time == state.current_time);
                    }
                } else {
                    if all_times_match(prefix1, state.current_time) {
                        assert(ctx[i as int].1.current_time == state.current_time);
                        assert(all_times_match(prefix, state.current_time));
                    }
                }
            }
            i += 1;
        }
        proof {
            assert(ctx.take(ctx.len() as int) =~= ctx);
        }
        let new_time = if state.current_time == u32::MAX {
            0
        } else {
            state.current_time + 1
        };
        TimeCheckAgent {
            id: state.id,
            current_time: new_time,
            detected_bad_time: state.detected_bad_time || !all_match,
        }
    }
}

/// Law: time consistency of the synchronous step. In a registry whose agents
/// all show the same time, acting on any one of them advances its clock by
/// one and leaves its flag as it was: no agent ever observes a neighbour with
/// a different clock within one generation.
pub proof fn lemma_time_consistency(
    b: TimeCheckBehaviour,
    context: Seq<(AgentId, TimeCheckAgent)>,
    time: u32,
    i: int,
)
    requires
        all_times_match(context, time),
        0 <= i < context.len(),
    ensures
        b.spec_act(context[i].1, context).current_time == next_time(time),
        b.spec_act(context[i].1, context).detected_bad_time == context[i].1.detected_bad_time,
        b.spec_act(context[i].1, context).id == context[i].1.id,
{
}

} // verus!

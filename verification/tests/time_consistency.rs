use rust_agents::time_check::{TimeCheckAgent, TimeCheckBehaviour, TimeCheckContext};
use rust_agents::utils::{step_agents, AgentId};

#[test]
fn time_consistency_test_full_example() {
    let mut context = TimeCheckContext::new();
    let mut i: u64 = 0;
    while i < 10 {
        context.agents.insert(AgentId(i), TimeCheckAgent::new(i));
        i += 1;
    }

    let mut step: u32 = 0;
    while step < 10 {
        step_agents(&TimeCheckBehaviour, &mut context);
        step += 1;
    }

    for entry in &context.agents.entries {
        let (id, agent) = entry;
        assert!(
            !agent.detected_bad_time,
            "agent {} seen neighbours with an invalid time",
            id.0
        );
        assert_eq!(
            agent.current_time, 10,
            "agent {} has count {}",
            id.0, agent.current_time
        );
    }
}

#[test]
fn neighbours_filters_the_frozen_registry() {
    let mut context = TimeCheckContext::new();
    context.agents.insert(
        AgentId(1),
        TimeCheckAgent { id: AgentId(1), current_time: 5, detected_bad_time: false },
    );
    context.agents.insert(
        AgentId(2),
        TimeCheckAgent { id: AgentId(2), current_time: 7, detected_bad_time: false },
    );
    context.agents.insert(
        AgentId(3),
        TimeCheckAgent { id: AgentId(3), current_time: 5, detected_bad_time: false },
    );
    let me = TimeCheckAgent { id: AgentId(9), current_time: 5, detected_bad_time: false };

    let (neighbours, _picked) =
        context.neighbours(&me, |s: &TimeCheckAgent, n: &TimeCheckAgent| {
            n.current_time == s.current_time
        });

    assert_eq!(neighbours.len(), 2);
    assert_eq!(neighbours[0].id, AgentId(1));
    assert_eq!(neighbours[1].id, AgentId(3));
}

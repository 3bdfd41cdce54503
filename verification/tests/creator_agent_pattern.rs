use rust_agents::act_map_if::act_map_if;
use rust_agents::behaviour::Behaviour;
use rust_agents::creator::{
    step_agents, Agent, ChildState, CreatorBehaviour, CreatorState, GlobalContext,
    RemoveAgentRequest, SystemRequest, TryAsCreator,
};
use rust_agents::utils::{perform_system_actions, AgentId, System};

#[test]
fn test_use_creator_agent_pattern_no_loop() {
    let behaviour = CreatorBehaviour {};
    let state = CreatorState { id: AgentId(100), system_outbox: vec![] };
    let context = ();

    println!("state={:?}", state);

    let new_state = behaviour.act(state, &context);

    println!("new_state={:?}", new_state);
}

#[test]
fn test_use_creator_agent_pattern() {
    let mut context = GlobalContext::new();
    context.agents.insert(
        AgentId(1),
        Agent::Creator(CreatorState { id: AgentId(1), system_outbox: vec![] }),
    );

    for i in 0..10 {
        println!("Step {}", i);
        for entry in &context.agents.entries {
            println!("  {:?}", entry.1);
        }
        step_agents(&mut context);

        perform_system_actions(&mut context);
    }
}

#[test]
fn creator_spawns_children_and_retires() {
    // One generation: the creator asks for its children and for its own
    // removal; the commit phase honours all three requests.
    let mut context = GlobalContext::new();
    context.agents.insert(
        AgentId(0),
        Agent::Creator(CreatorState { id: AgentId(0), system_outbox: vec![] }),
    );

    step_agents(&mut context);
    perform_system_actions(&mut context);

    assert!(!context.agents.contains(AgentId(0)));
    assert!(context.agents.contains(AgentId(7)));
    assert!(context.agents.contains(AgentId(8)));
    assert_eq!(context.agents.len(), 2);
}

#[test]
fn creator_requests_in_emission_order() {
    let behaviour = CreatorBehaviour {};
    let state = CreatorState { id: AgentId(3), system_outbox: vec![] };
    let new_state = behaviour.act(state, &());
    assert_eq!(new_state.system_outbox.len(), 3);
    assert_eq!(
        new_state.system_outbox[2],
        SystemRequest::RemoveAgent(RemoveAgentRequest { from: AgentId(3), remove: AgentId(3) })
    );
    assert_eq!(new_state.id, AgentId(3));
}

#[test]
fn removal_of_unknown_id_changes_nothing() {
    let mut context = GlobalContext::new();
    context.agents.insert(
        AgentId(7),
        Agent::Creator(CreatorState { id: AgentId(7), system_outbox: vec![] }),
    );

    context.apply_system_request(SystemRequest::RemoveAgent(RemoveAgentRequest {
        from: AgentId(7),
        remove: AgentId(99),
    }));

    assert_eq!(context.agents.len(), 1);
    assert!(context.agents.contains(AgentId(7)));
}

#[test]
fn conditional_creator_routes_by_variant() {
    // The conditional combinator routes the creator behaviour to the creator
    // variant of the agent union and passes children through untouched.
    let mapped = act_map_if(TryAsCreator, CreatorBehaviour {});

    let creator = Agent::Creator(CreatorState { id: AgentId(0), system_outbox: vec![] });
    match mapped.act(creator, &()) {
        Agent::Creator(state) => {
            assert_eq!(state.id, AgentId(0));
            assert_eq!(state.system_outbox.len(), 3);
        }
        Agent::Child(child) => panic!("the creator turned into {:?}", child),
    }

    let child = Agent::Child(ChildState { id: AgentId(7) });
    match mapped.act(child, &()) {
        Agent::Child(state) => assert_eq!(state.id, AgentId(7)),
        Agent::Creator(state) => panic!("the child turned into {:?}", state),
    }
}

use rust_agents::alice_bob::{
    deliver_messages, gather_messages, step_agents, Agent, AgentBehaviour, AgentState,
    AliceBehaviour, BobBehaviour, GlobalContext, Greeting, Message, MessageBody, SystemRequest,
    SystemRequestBody,
};
use rust_agents::behaviour::Behaviour;
use rust_agents::utils::{perform_system_actions, AgentId, Color, System};

fn agent_state(id: u64, name: &str, position: (i32, i32)) -> AgentState {
    AgentState {
        id: AgentId(id),
        name: name.to_string(),
        position: Some(position),
        color: Color::Black,
        inbox: vec![],
        outbox: vec![],
        system_outbox: vec![],
    }
}

fn alice_bob_world() -> GlobalContext {
    let mut context = GlobalContext::new();
    context.agents.insert(
        AgentId(111),
        Agent {
            behaviour: AgentBehaviour::Alice(AliceBehaviour {}),
            state: agent_state(111, "Alice", (0, 0)),
        },
    );
    context.agents.insert(
        AgentId(222),
        Agent {
            behaviour: AgentBehaviour::Bob(BobBehaviour {}),
            state: agent_state(222, "Bob", (3, 0)),
        },
    );
    context.name_to_agent_id.push(("Alice".to_string(), AgentId(111)));
    context.name_to_agent_id.push(("Bob".to_string(), AgentId(222)));
    context
}

#[test]
pub fn test_alice_unchanging() {
    let alice_state = agent_state(111, "Alice", (0, 0));
    let context = GlobalContext::new();
    let alice_behaviour = AliceBehaviour {};

    let alice_state = alice_behaviour.act(alice_state, &context);

    // Should have done nothing
    assert_eq!(alice_state.inbox, Vec::<Message>::new());
    assert_eq!(alice_state.outbox, Vec::<Message>::new());
}

#[test]
pub fn test_bob_messages_alice() {
    let bob_state = agent_state(111, "Bob", (0, 0));
    let mut context = GlobalContext::new();
    context.name_to_agent_id.push(("Alice".to_string(), AgentId(111)));
    let bob_behaviour = BobBehaviour {};

    let bob_state = bob_behaviour.act(bob_state, &context);

    // Should have sent one greeting and received nothing
    assert_eq!(bob_state.inbox, Vec::<Message>::new());
    assert_eq!(bob_state.outbox.len(), 1);
}

#[test]
fn alice_bob_test_main() {
    let mut context = alice_bob_world();

    for i in 0..10 {
        println!("Step {}", i);
        for entry in &context.agents.entries {
            println!("  {:?}", entry.1);
        }
        step_agents(&mut context);

        let messages = gather_messages(&mut context);
        perform_system_actions(&mut context);
        deliver_messages(&mut context, messages);
    }
}

#[test]
fn two_agents_greeting_round_trip() {
    let mut context = alice_bob_world();

    // generation 1: Bob greets Alice
    step_agents(&mut context);
    let messages = gather_messages(&mut context);
    perform_system_actions(&mut context);
    deliver_messages(&mut context, messages);

    let alice = context.agents.get(AgentId(111)).unwrap();
    assert_eq!(alice.state.inbox.len(), 1);
    assert_eq!(alice.state.inbox[0].from, AgentId(222));
    assert_eq!(alice.state.inbox[0].to, AgentId(111));
    match &alice.state.inbox[0].body {
        MessageBody::Greeting(g) => assert_eq!(g.msg, "Hello, Alice."),
        other => panic!("expected a greeting, got {:?}", other),
    }
    let bob = context.agents.get(AgentId(222)).unwrap();
    assert_eq!(bob.state.inbox, Vec::<Message>::new());

    // generation 2, map phase: Alice processes the greeting
    step_agents(&mut context);
    let alice = context.agents.get(AgentId(111)).unwrap();
    assert_eq!(alice.state.color, Color::Blue);
    assert_eq!(
        alice.state.system_outbox,
        vec![SystemRequest { from: AgentId(111), body: SystemRequestBody::RemoveAgent(AgentId(111)) }]
    );
    assert_eq!(alice.state.outbox.len(), 1);

    // generation 2, commit and deliver: Alice leaves, her reply arrives
    let messages = gather_messages(&mut context);
    perform_system_actions(&mut context);
    assert!(!context.agents.contains(AgentId(111)));
    deliver_messages(&mut context, messages);

    let bob = context.agents.get(AgentId(222)).unwrap();
    assert_eq!(bob.state.inbox.len(), 1);
    assert_eq!(bob.state.inbox[0].from, AgentId(111));
    assert_eq!(bob.state.inbox[0].to, AgentId(222));
    match &bob.state.inbox[0].body {
        MessageBody::Greeting(g) => assert_eq!(g.msg, "Go away, I’m social-distancing!"),
        other => panic!("expected a greeting, got {:?}", other),
    }
}

#[test]
fn message_to_missing_agent_is_dropped() {
    let mut context = alice_bob_world();

    let stray = Message {
        to: AgentId(999),
        from: AgentId(222),
        body: MessageBody::Greeting(Greeting { msg: "Hello, Alice.".to_string() }),
    };
    deliver_messages(&mut context, vec![stray]);

    // no fault was raised and the message sits in no inbox
    for entry in &context.agents.entries {
        assert_eq!(entry.1.state.inbox, Vec::<Message>::new());
    }
}

#[test]
fn removal_of_missing_agent_is_recoverable() {
    let mut context = alice_bob_world();

    context.apply_system_request(SystemRequest {
        from: AgentId(111),
        body: SystemRequestBody::RemoveAgent(AgentId(999)),
    });

    // no fault was raised and nobody left
    assert_eq!(context.agents.len(), 2);
    assert!(context.agents.contains(AgentId(111)));
    assert!(context.agents.contains(AgentId(222)));
}

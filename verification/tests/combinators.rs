use rust_agents::act_map_if::{act_map_if, ActMapIf};
use rust_agents::behaviour::Behaviour;
use rust_agents::chain::Chain;
use rust_agents::counters::{IncrementABehaviour, TryAsA, A, AB, B};
use rust_agents::creator::{CreatorState, RemoveAgentRequest, SystemRequest};
use rust_agents::remove_self::RemoveSelfBehaviour;
use rust_agents::utils::AgentId;

#[test]
fn test_map_if() {
    // Create a new behaviour that applies to the A variant of the AB enum
    // using an existing A-only behaviour.
    let b = ActMapIf { a: IncrementABehaviour {}, f: TryAsA };

    let _m: &dyn Behaviour<AB, ()> = &b;

    {
        let state = AB::A(A(10));
        let new_state = b.act(state, &());
        assert_eq!(new_state, AB::A(A(11)));
    }

    {
        let state = AB::B(B(7));
        let new_state = b.act(state, &());
        assert_eq!(new_state, AB::B(B(7)));
    }
}

#[test]
fn test_act_map_if() {
    // Create a new behaviour that applies to the A variant of the AB enum
    let increment_a = IncrementABehaviour {};
    // using an existing A-only behaviour.
    let b = act_map_if(TryAsA, increment_a);

    let _m: &dyn Behaviour<AB, ()> = &b;

    {
        let state = AB::A(A(10));
        let new_state = b.act(state, &());
        assert_eq!(new_state, AB::A(A(11)));
    }

    {
        let state = AB::B(B(7));
        let new_state = b.act(state, &());
        assert_eq!(new_state, AB::B(B(7)));
    }
}

#[test]
fn test_remove_self() {
    let remove_self = RemoveSelfBehaviour {};
    let _m: &dyn Behaviour<CreatorState, ()> = &remove_self;
}

#[test]
fn chain_applies_first_then_second() {
    // A chain of two self-removals enqueues two removal requests, exactly as
    // applying the parts one after the other does.
    let c = Chain::chain(RemoveSelfBehaviour {}, RemoveSelfBehaviour {});
    let s = CreatorState { id: AgentId(5), system_outbox: vec![] };
    let r = c.act(s, &());
    let expected = SystemRequest::RemoveAgent(RemoveAgentRequest {
        from: AgentId(5),
        remove: AgentId(5),
    });
    assert_eq!(r.system_outbox, vec![expected, expected]);
    assert_eq!(r.id, AgentId(5));

    let one = (RemoveSelfBehaviour {}).act(
        CreatorState { id: AgentId(5), system_outbox: vec![] },
        &(),
    );
    let two = (RemoveSelfBehaviour {}).act(one, &());
    assert_eq!(r.system_outbox, two.system_outbox);
    assert_eq!(r.id, two.id);
}

#[test]
fn remove_self_enqueues_exactly_one_request() {
    // The request lands at the back of the queue; nothing else changes.
    let already = SystemRequest::CreateAgent(rust_agents::creator::CreateAgentRequest {
        new_id: AgentId(9),
    });
    let s = CreatorState { id: AgentId(4), system_outbox: vec![already] };
    let r = (RemoveSelfBehaviour {}).act(s, &());
    assert_eq!(
        r.system_outbox,
        vec![
            already,
            SystemRequest::RemoveAgent(RemoveAgentRequest { from: AgentId(4), remove: AgentId(4) })
        ]
    );
    assert_eq!(r.id, AgentId(4));
}

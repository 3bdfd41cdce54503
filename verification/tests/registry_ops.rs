use rust_agents::map_context::{MapContext, SimpleMapContext};
use rust_agents::registry::Registry;
use rust_agents::utils::{map_tree_leaves, AgentId};

#[test]
fn registry_insert_get_remove() {
    let mut r: Registry<u32> = Registry::new();
    assert_eq!(r.len(), 0);
    assert!(!r.contains(AgentId(3)));
    assert!(r.get(AgentId(3)).is_none());

    r.insert(AgentId(3), 30);
    r.insert(AgentId(1), 10);
    r.insert(AgentId(2), 20);
    assert_eq!(r.len(), 3);

    // entries stand in ascending id order
    assert_eq!(r.entries[0].0, AgentId(1));
    assert_eq!(r.entries[1].0, AgentId(2));
    assert_eq!(r.entries[2].0, AgentId(3));
    assert_eq!(*r.get(AgentId(2)).unwrap(), 20);

    // storing under a taken id replaces, never duplicates
    r.insert(AgentId(2), 21);
    assert_eq!(r.len(), 3);
    assert_eq!(*r.get(AgentId(2)).unwrap(), 21);

    assert_eq!(r.remove(AgentId(2)), Some(21));
    assert_eq!(r.remove(AgentId(2)), None);
    assert_eq!(r.len(), 2);
    assert!(r.contains(AgentId(1)));
    assert!(r.contains(AgentId(3)));
}

#[test]
fn registry_empty_removal() {
    let mut r: Registry<u32> = Registry::new();
    assert_eq!(r.remove(AgentId(0)), None);
    assert_eq!(r.len(), 0);
}

#[test]
fn map_tree_leaves_keeps_ids_in_place() {
    let mut r: Registry<u32> = Registry::new();
    r.insert(AgentId(1), 10);
    r.insert(AgentId(2), 20);

    let doubled = map_tree_leaves(&r, |v: &u32| v * 2);

    assert_eq!(doubled.len(), 2);
    assert_eq!(doubled.entries[0].0, AgentId(1));
    assert_eq!(doubled.entries[0].1, 20);
    assert_eq!(doubled.entries[1].0, AgentId(2));
    assert_eq!(doubled.entries[1].1, 40);
    // the input is untouched
    assert_eq!(*r.get(AgentId(1)).unwrap(), 10);
}

#[test]
fn map_context_stores_and_hands_out_agents() {
    let mut context: SimpleMapContext<u32> = SimpleMapContext::new();
    assert_eq!(context.agents().len(), 0);

    let mut r: Registry<u32> = Registry::new();
    r.insert(AgentId(4), 40);
    context.set_agents(r);

    assert_eq!(context.agents().len(), 1);
    assert_eq!(*context.agents().get(AgentId(4)).unwrap(), 40);
}

#[test]
fn fresh_id_is_never_live() {
    let mut r: Registry<u32> = Registry::new();
    assert_eq!(r.fresh_id(), AgentId(0));

    r.insert(AgentId(1), 10);
    r.insert(AgentId(5), 50);
    let id = r.fresh_id();
    assert_eq!(id, AgentId(6));
    assert!(!r.contains(id));
}

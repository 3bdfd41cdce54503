//! A tick-based multi-agent simulation kernel: independent agents, each
//! owning a behaviour and a state, advance in lockstep generations. During
//! the map phase every agent computes its next state from a read-only view of
//! the shared context, recording outgoing messages and structural mutation
//! requests inside its own state; the scheduler then drains every agent's
//! queues, commits the mutation requests against the registry strictly in
//! drain order, and delivers the messages, before the next generation begins.
//!
//! Every behaviour and every phase carries a contract over mathematical
//! models of the states; the laws the kernel lives by (sequential
//! composition, conditional routing over a tagged union, honoured removals,
//! dropped stray messages, the lockstep clock) stand as proved lemmas beside
//! the code.

pub mod act_map_if;
pub mod alice_bob;
pub mod behaviour;
pub mod chain;
pub mod counters;
pub mod creator;
pub mod map_context;
pub mod registry;
pub mod remove_self;
pub mod time_check;
pub mod utils;

use vstd::prelude::*;

use crate::behaviour::Behaviour;
use crate::registry::{
    deep_entries, entries_wf, first_match, id_in, lemma_deep_entries_id, lemma_first_match,
    lemma_first_match_is, lemma_remove_entry_deep, lemma_remove_entry_props, lemma_value_of_deep,
    remove_entry, value_of, Registry,
};
use crate::remove_self::{IntoRequest, RemoveAgent};
use crate::utils::{AgentBase, AgentId, BaseOp, Color, ColorOp, System, SystemOp};
use vstd::string::StringExecFns;

verus! {

// ---------------------------------------------------------------------------
// Messages
// ---------------------------------------------------------------------------
/// A greeting carried in a message body.
#[derive(Debug, PartialEq, Eq)]
pub struct Greeting {
    pub msg: String,
}

/// The model of a greeting: the characters of its text.
pub struct GreetingView {
    pub msg: Seq<char>,
}

impl DeepView for Greeting {
    type V = GreetingView;

    open spec fn deep_view(&self) -> GreetingView {
        GreetingView { msg: self.msg@ }
    }
}

impl Clone for Greeting {
    fn clone(&self) -> (res: Self)
        ensures
            res == *self,
    {
        Greeting { msg: self.msg.clone() }
    }
}

/// A request, sent as a message, that some agent be removed.
#[derive(Debug, Copy, Clone, PartialEq, Eq, Structural)]
pub struct RemoveAgentMessage {
    pub to_remove: AgentId,
}

impl DeepView for RemoveAgentMessage {
    type V = RemoveAgentMessage;

    open spec fn deep_view(&self) -> RemoveAgentMessage {
        *self
    }
}

/// What a message can carry: a closed union specific to this simulation.
#[derive(Debug, PartialEq, Eq)]
pub enum MessageBody {
    Greeting(Greeting),
    RemoveAgentMessage(RemoveAgentMessage),
}

/// The model of a message body.
pub enum MessageBodyView {
    Greeting(GreetingView),
    RemoveAgentMessage(RemoveAgentMessage),
}

impl DeepView for MessageBody {
    type V = MessageBodyView;

    open spec fn deep_view(&self) -> MessageBodyView {
        match self {
            MessageBody::Greeting(g) => MessageBodyView::Greeting(g.deep_view()),
            MessageBody::RemoveAgentMessage(r) => MessageBodyView::RemoveAgentMessage(*r),
        }
    }
}

impl Clone for MessageBody {
    fn clone(&self) -> (res: Self)
        ensures
            res == *self,
    {
        match self {
            MessageBody::Greeting(g) => MessageBody::Greeting(g.clone()),
            MessageBody::RemoveAgentMessage(r) => MessageBody::RemoveAgentMessage(*r),
        }
    }
}

/// A message from one agent to another.
#[derive(Debug, PartialEq, Eq)]
pub struct Message {
    pub to: AgentId,
    pub from: AgentId,
    pub body: MessageBody,
}

/// The model of a message.
pub struct MessageView {
    pub to: AgentId,
    pub from: AgentId,
    pub body: MessageBodyView,
}

impl DeepView for Message {
    type V = MessageView;

    open spec fn deep_view(&self) -> MessageView {
        MessageView { to: self.to, from: self.from, body: self.body.deep_view() }
    }
}

impl Clone for Message {
    fn clone(&self) -> (res: Self)
        ensures
            res == *self,
    {
        Message { to: self.to, from: self.from, body: self.body.clone() }
    }
}

// ---------------------------------------------------------------------------
// Structural mutation requests
// ---------------------------------------------------------------------------
/// The structural operations this simulation knows: only removal.
#[derive(Debug, Copy, Clone, PartialEq, Eq, Structural)]
pub enum SystemRequestBody {
    RemoveAgent(AgentId),
}

/// A structural mutation request, tagged with its requester.
#[derive(Debug, Copy, Clone, PartialEq, Eq, Structural)]
pub struct SystemRequest {
    pub from: AgentId,
    pub body: SystemRequestBody,
}

impl DeepView for SystemRequest {
    type V = SystemRequest;

    open spec fn deep_view(&self) -> SystemRequest {
        *self
    }
}

/// The id a request asks to remove.
pub open spec fn removal_target(r: SystemRequest) -> AgentId {
    match r.body {
        SystemRequestBody::RemoveAgent(id) => id,
    }
}

impl IntoRequest<SystemRequest> for RemoveAgent {
    open spec fn spec_request(self) -> SystemRequest {
        SystemRequest { from: self.0, body: SystemRequestBody::RemoveAgent(self.0) }
    }

    fn into_request(self) -> (r: SystemRequest) {
        SystemRequest { from: self.0, body: SystemRequestBody::RemoveAgent(self.0) }
    }
}

// ---------------------------------------------------------------------------
// Agent state
// ---------------------------------------------------------------------------
/// The state owned by one agent of this simulation.
#[derive(Debug)]
pub struct AgentState {
    pub id: AgentId,
    pub name: String,
    pub position: Option<(i32, i32)>,
    pub color: Color,
    pub inbox: Vec<Message>,
    pub outbox: Vec<Message>,
    pub system_outbox: Vec<SystemRequest>,
}

/// The model of an agent's state.
#[verifier::ext_equal]
pub struct AgentStateView {
    pub id: AgentId,
    pub name: Seq<char>,
    pub position: Option<(i32, i32)>,
    pub color: Color,
    pub inbox: Seq<MessageView>,
    pub outbox: Seq<MessageView>,
    pub system_outbox: Seq<SystemRequest>,
}

impl DeepView for AgentState {
    type V = AgentStateView;

    open spec fn deep_view(&self) -> AgentStateView {
        AgentStateView {
            id: self.id,
            name: self.name@,
            position: self.position,
            color: self.color,
            inbox: self.inbox.deep_view(),
            outbox: self.outbox.deep_view(),
            system_outbox: self.system_outbox.deep_view(),
        }
    }
}

impl Clone for AgentState {
    fn clone(&self) -> (res: Self)
        ensures
            res.deep_view() == self.deep_view(),
    {
        let res = AgentState {
            id: self.id,
            name: self.name.clone(),
            position: self.position,
            color: self.color,
            inbox: self.inbox.clone(),
            outbox: self.outbox.clone(),
            system_outbox: self.system_outbox.clone(),
        };
        proof {
            assert(res.inbox.deep_view() =~= self.inbox.deep_view());
            assert(res.outbox.deep_view() =~= self.outbox.deep_view());
            assert(res.system_outbox.deep_view() =~= self.system_outbox.deep_view());
        }
        res
    }
}

impl BaseOp for AgentState {
    open spec fn spec_id(state: AgentStateView) -> AgentId {
        state.id
    }

    fn id(&self) -> (r: AgentId) {
        self.id
    }
}

impl ColorOp for AgentState {
    open spec fn spec_color(state: AgentStateView) -> Color {
        state.color
    }

    open spec fn spec_with_color(state: AgentStateView, color: Color) -> AgentStateView {
        AgentStateView { color, ..state }
    }

    fn get_color(&self) -> (r: &Color) {
        &self.color
    }

    fn set_color(&mut self, color: Color) {
        self.color = color;
    }
}

impl SystemOp for AgentState {
    type RequestType = SystemRequest;

    open spec fn spec_requests(state: AgentStateView) -> Seq<SystemRequest> {
        state.system_outbox
    }

    open spec fn spec_with_requests(
        state: AgentStateView,
        requests: Seq<SystemRequest>,
    ) -> AgentStateView {
        AgentStateView { system_outbox: requests, ..state }
    }

    proof fn lemma_with_requests(
        state: AgentStateView,
        q1: Seq<SystemRequest>,
        q2: Seq<SystemRequest>,
    ) {
    }

    fn request(&mut self, request: SystemRequest) {
        self.system_outbox.push(request);
        proof {
            assert(self.system_outbox.deep_view() =~= old(
                self,
            ).system_outbox.deep_view().push(request));
            assert(self.deep_view() =~= AgentState::spec_with_requests(
                old(self).deep_view(),
                AgentState::spec_requests(old(self).deep_view()).push(request),
            ));
        }
    }
}

// ---------------------------------------------------------------------------
// The two behaviours and the agent union
// ---------------------------------------------------------------------------
/// Resolution of a display name to an agent id, offered by the context.
pub trait NameResolver: DeepView {
    /// What resolution yields, over the model.
    spec fn spec_resolve(context: Self::V, name: Seq<char>) -> Option<AgentId>;

    /// Find the id registered under the given name.
    fn resolve_id_from_name(&self, name: &str) -> (r: Option<AgentId>)
        ensures
            r == Self::spec_resolve(self.deep_view(), name@),
    ;
}

/// Alice's stateless behaviour: on receiving any greeting she turns blue,
/// asks to be removed, and replies to each greeting.
#[derive(Debug, Copy, Clone, PartialEq, Eq, Structural)]
pub struct AliceBehaviour {}

/// Bob's stateless behaviour: he greets whoever the name "Alice" resolves to,
/// asks to be removed if it resolves to nobody, and turns red on receiving
/// any greeting.
#[derive(Debug, Copy, Clone, PartialEq, Eq, Structural)]
pub struct BobBehaviour {}

/// One behaviour union covering every agent of this simulation; the variant
/// selects which behaviour the agent runs.
#[derive(Debug, Copy, Clone, PartialEq, Eq, Structural)]
pub enum AgentBehaviour {
    Alice(AliceBehaviour),
    Bob(BobBehaviour),
}

impl DeepView for AgentBehaviour {
    type V = AgentBehaviour;

    open spec fn deep_view(&self) -> AgentBehaviour {
        *self
    }
}

/// An agent: its behaviour together with its owned state.
#[derive(Debug)]
pub struct Agent {
    pub behaviour: AgentBehaviour,
    pub state: AgentState,
}

/// The model of an agent.
#[verifier::ext_equal]
pub struct AgentView {
    pub behaviour: AgentBehaviour,
    pub state: AgentStateView,
}

impl DeepView for Agent {
    type V = AgentView;

    open spec fn deep_view(&self) -> AgentView {
        AgentView { behaviour: self.behaviour, state: self.state.deep_view() }
    }
}

impl Clone for Agent {
    fn clone(&self) -> (res: Self)
        ensures
            res.deep_view() == self.deep_view(),
    {
        Agent { behaviour: self.behaviour, state: self.state.clone() }
    }
}

/// The shared read-only context of a generation: the frozen registry and the
/// name index.
pub struct GlobalContext {
    pub agents: Registry<Agent>,
    pub name_to_agent_id: Vec<(String, AgentId)>,
}

/// The model of the shared context.
#[verifier::ext_equal]
pub struct GlobalContextView {
    pub agents: Seq<(AgentId, AgentView)>,
    pub name_to_agent_id: Seq<(Seq<char>, AgentId)>,
}

/// The model of the name index: each name replaced by its characters.
pub open spec fn name_entries(s: Seq<(String, AgentId)>) -> Seq<(Seq<char>, AgentId)> {
    s.map_values(|e: (String, AgentId)| (e.0@, e.1))
}

impl DeepView for GlobalContext {
    type V = GlobalContextView;

    open spec fn deep_view(&self) -> GlobalContextView {
        GlobalContextView {
            agents: self.agents.deep_view(),
            name_to_agent_id: name_entries(self.name_to_agent_id@),
        }
    }
}

impl GlobalContext {
    /// A context with no agents and no names.
    pub fn new() -> (r: GlobalContext)
        ensures
            r.agents.entries@ == Seq::<(AgentId, Agent)>::empty(),
            r.name_to_agent_id@ == Seq::<(String, AgentId)>::empty(),
            r.agents.wf(),
    {
        GlobalContext { agents: Registry::new(), name_to_agent_id: Vec::new() }
    }
}

impl NameResolver for GlobalContext {
    open spec fn spec_resolve(context: GlobalContextView, name: Seq<char>) -> Option<AgentId> {
        if id_in(context.name_to_agent_id, name) {
            Some(value_of(context.name_to_agent_id, name))
        } else {
            None
        }
    }

    fn resolve_id_from_name(&self, name: &str) -> (r: Option<AgentId>) {
        let key = String::from_str(name);
        let ghost names = self.deep_view().name_to_agent_id;
        let mut i: usize = 0;
        while i < self.name_to_agent_id.len()
            invariant
                key@ == name@,
                names == name_entries(self.name_to_agent_id@),
                names == self.deep_view().name_to_agent_id,
                names.len() == self.name_to_agent_id@.len(),
                0 <= i <= names.len(),
                forall|j: int| 0 <= j < i ==> (#[trigger] names[j]).0 != name@,
            decreases names.len() - i,
        {
            if self.name_to_agent_id[i].0 == key {
                proof {
                    assert(names[i as int].0 == name@);
                    lemma_first_match_is(names, name@, i as int);
                }
                return Some(self.name_to_agent_id[i].1);
            }
            proof {
                assert(names[i as int].0 == self.name_to_agent_id@[i as int].0@);
            }
            i += 1;
        }
        None
    }
}

// ---------------------------------------------------------------------------
// What the behaviours compute, over the models
// ---------------------------------------------------------------------------
/// Whether any message of the inbox carries a greeting.
pub open spec fn has_greeting(inbox: Seq<MessageView>) -> bool {
    exists|i: int| 0 <= i < inbox.len() && (#[trigger] inbox[i]).body is Greeting
}

/// Alice's reply to the greeting `m`: sent back to its sender.
pub open spec fn alice_reply(id: AgentId, m: MessageView) -> MessageView {
    MessageView {
        to: m.from,
        from: id,
        body: MessageBodyView::Greeting(
            GreetingView { msg: "Go away, I’m social-distancing!"@ },
        ),
    }
}

/// One reply per greeting of the inbox, in inbox order.
pub open spec fn alice_replies(id: AgentId, inbox: Seq<MessageView>) -> Seq<MessageView>
    decreases inbox.len(),
{
    if inbox.len() == 0 {
        Seq::empty()
    } else {
        alice_replies(id, inbox.drop_last()) + if inbox.last().body is Greeting {
            seq![alice_reply(id, inbox.last())]
        } else {
            Seq::empty()
        }
    }
}

/// What Alice does: on any received greeting she turns blue, asks the
/// scheduler to remove her, and replies to each greeting in inbox order; on
/// an inbox without greetings she changes nothing.
pub open spec fn alice_act(s: AgentStateView) -> AgentStateView {
    if has_greeting(s.inbox) {
        AgentStateView {
            color: Color::Blue,
            system_outbox: s.system_outbox.push(
                SystemRequest { from: s.id, body: SystemRequestBody::RemoveAgent(s.id) },
            ),
            outbox: s.outbox + alice_replies(s.id, s.inbox),
            ..s
        }
    } else {
        s
    }
}

/// Bob's greeting to the agent the name "Alice" resolved to.
pub open spec fn bob_hello(id: AgentId, to: AgentId) -> MessageView {
    MessageView {
        to,
        from: id,
        body: MessageBodyView::Greeting(GreetingView { msg: "Hello, Alice."@ }),
    }
}

/// What Bob does: greet whoever "Alice" resolves to, or ask to be removed if
/// nobody carries that name; and turn red if any greeting arrived.
pub open spec fn bob_act(s: AgentStateView, c: GlobalContextView) -> AgentStateView {
    let s1 = match GlobalContext::spec_resolve(c, "Alice"@) {
        Some(alice_id) => AgentStateView { outbox: s.outbox.push(bob_hello(s.id, alice_id)), ..s },
        None => AgentStateView {
            system_outbox: s.system_outbox.push(
                SystemRequest { from: s.id, body: SystemRequestBody::RemoveAgent(s.id) },
            ),
            ..s
        },
    };
    if has_greeting(s.inbox) {
        AgentStateView { color: Color::Red, ..s1 }
    } else {
        s1
    }
}

/// What an agent's behaviour computes on a state.
pub open spec fn behaviour_act(
    b: AgentBehaviour,
    s: AgentStateView,
    c: GlobalContextView,
) -> AgentStateView {
    match b {
        AgentBehaviour::Alice(_) => alice_act(s),
        AgentBehaviour::Bob(_) => bob_act(s, c),
    }
}

/// The model of one agent's step: the behaviour applied to the state, the
/// behaviour itself kept.
pub open spec fn agent_act(a: AgentView, c: GlobalContextView) -> AgentView {
    AgentView { behaviour: a.behaviour, state: behaviour_act(a.behaviour, a.state, c) }
}

/// Whether any message of the inbox carries a greeting.
fn inbox_has_greeting(inbox: &Vec<Message>) -> (r: bool)
    ensures
        r == has_greeting(inbox.deep_view()),
{
    let mut i: usize = 0;
    while i < inbox.len()
        invariant
            0 <= i <= inbox@.len(),
            forall|j: int| 0 <= j < i ==> !((#[trigger] inbox.deep_view()[j]).body is Greeting),
        decreases inbox@.len() - i,
    {
        let is_greeting = match &inbox[i].body {
            MessageBody::Greeting(_) => true,
            _ => false,
        };
        if is_greeting {
            proof {
                assert(inbox.deep_view()[i as int].body is Greeting);
            }
            return true;
        }
        i += 1;
    }
    false
}

impl Behaviour<AgentState, GlobalContext> for AliceBehaviour {
    open spec fn spec_act(
        &self,
        state: AgentStateView,
        context: GlobalContextView,
    ) -> AgentStateView {
        alice_act(state)
    }

    fn act(&self, state: AgentState, _context: &GlobalContext) -> (new_state: AgentState) {
        let mut state = state;
        let ghost s0 = state.deep_view();
        let id = state.id;
        let found = inbox_has_greeting(&state.inbox);
        if found {
            let mut replies: Vec<Message> = Vec::new();
            let mut i: usize = 0;
            while i < state.inbox.len()
                invariant
                    state.deep_view() == s0,
                    id == s0.id,
                    0 <= i <= s0.inbox.len(),
                    state.inbox.deep_view() == s0.inbox,
                    state.inbox@.len() == s0.inbox.len(),
                    replies.deep_view() == alice_replies(s0.id, s0.inbox.take(i as int)),
                decreases s0.inbox.len() - i,
            {
                let ghost prefix = s0.inbox.take(i as int);
                let ghost prefix1 = s0.inbox.take(i as int + 1);
                proof {
                    assert(prefix1.drop_last() =~= prefix);
                    assert(prefix1.last() == s0.inbox[i as int]);
                }
                let m_from = state.inbox[i].from;
                let is_greeting = match &state.inbox[i].body {
                    MessageBody::Greeting(_) => true,
                    _ => false,
                };
                if is_greeting {
                    let reply = Message {
                        to: m_from,
                        from: id,
                        body: MessageBody::Greeting(
                            Greeting { msg: String::from_str("Go away, I’m social-distancing!") },
                        ),
                    };
                    proof {
                        assert(reply.deep_view() == alice_reply(s0.id, s0.inbox[i as int]));
                    }
                    replies.push(reply);
                    proof {
                        assert(replies.deep_view() =~= alice_replies(s0.id, prefix) + seq![
                            alice_reply(s0.id, s0.inbox[i as int]),
                        ]);
                    }
                } else {
                    proof {
                        assert(alice_replies(s0.id, prefix1) =~= alice_replies(s0.id, prefix));
                    }
                }
                i += 1;
            }
            proof {
                assert(s0.inbox.take(s0.inbox.len() as int) =~= s0.inbox);
            }
            state.color = Color::Blue;
            state.system_outbox.push(
                SystemRequest { from: id, body: SystemRequestBody::RemoveAgent(id) },
            );
            state.outbox.append(&mut replies);
            proof {
                assert(state.system_outbox.deep_view() =~= s0.system_outbox.push(
                    SystemRequest { from: s0.id, body: SystemRequestBody::RemoveAgent(s0.id) },
                ));
                assert(state.outbox.deep_view() =~= s0.outbox + alice_replies(s0.id, s0.inbox));
                assert(state.deep_view() =~= alice_act(s0));
            }
        }
        state
    }
}

impl Behaviour<AgentState, GlobalContext> for BobBehaviour {
    open spec fn spec_act(
        &self,
        state: AgentStateView,
        context: GlobalContextView,
    ) -> AgentStateView {
        bob_act(state, context)
    }

    fn act(&self, state: AgentState, context: &GlobalContext) -> (new_state: AgentState) {
        let mut state = state;
        let ghost s0 = state.deep_view();
        let id = state.id;
        let found = inbox_has_greeting(&state.inbox);
        let alice_id = context.resolve_id_from_name("Alice");
        match alice_id {
            Some(aid) => {
                let message = Message {
                    from: id,
                    to: aid,
                    body: MessageBody::Greeting(Greeting { msg: String::from_str("Hello, Alice.") }),
                };
                proof {
                    assert(message.deep_view() == bob_hello(s0.id, aid));
                }
                state.outbox.push(message);
                proof {
                    assert(state.outbox.deep_view() =~= s0.outbox.push(bob_hello(s0.id, aid)));
                }
            },
            None => {
                state.system_outbox.push(
                    SystemRequest { from: id, body: SystemRequestBody::RemoveAgent(id) },
                );
                proof {
                    assert(state.system_outbox.deep_view() =~= s0.system_outbox.push(
                        SystemRequest { from: s0.id, body: SystemRequestBody::RemoveAgent(s0.id) },
                    ));
                }
            },
        }
        if found {
            state.color = Color::Red;
        }
        proof {
            assert(state.deep_view() =~= bob_act(s0, context.deep_view()));
        }
        state
    }
}

impl Behaviour<AgentState, GlobalContext> for AgentBehaviour {
    open spec fn spec_act(
        &self,
        state: AgentStateView,
        context: GlobalContextView,
    ) -> AgentStateView {
        behaviour_act(*self, state, context)
    }

    fn act(&self, state: AgentState, context: &GlobalContext) -> (new_state: AgentState) {
        match self {
            AgentBehaviour::Alice(behaviour) => behaviour.act(state, context),
            AgentBehaviour::Bob(behaviour) => behaviour.act(state, context),
        }
    }
}

impl Agent {
    /// Advance this agent one generation against the frozen context: its
    /// behaviour turns its state into the next state; the behaviour is kept.
    pub fn act(&self, context: &GlobalContext) -> (r: Agent)
        ensures
            r.deep_view() == agent_act(self.deep_view(), context.deep_view()),
    {
        let behaviour = self.behaviour;
        let state = behaviour.act(self.state.clone(), context);
        Agent { behaviour, state }
    }
}

// ---------------------------------------------------------------------------
// The four phases of a generation
// ---------------------------------------------------------------------------
/// All pending outbox messages over all agents: agents in registry order
/// (ascending id), each agent's messages in emission order.
pub open spec fn outboxes_concat(agents: Seq<(AgentId, AgentView)>) -> Seq<MessageView>
    decreases agents.len(),
{
    if agents.len() == 0 {
        Seq::empty()
    } else {
        outboxes_concat(agents.drop_last()) + agents.last().1.state.outbox
    }
}

/// All pending mutation requests over all agents, in the same order.
pub open spec fn system_outboxes_concat(agents: Seq<(AgentId, AgentView)>) -> Seq<SystemRequest>
    decreases agents.len(),
{
    if agents.len() == 0 {
        Seq::empty()
    } else {
        system_outboxes_concat(agents.drop_last()) + agents.last().1.state.system_outbox
    }
}

/// An agent with its outbox taken away.
pub open spec fn agent_outbox_cleared(a: AgentView) -> AgentView {
    AgentView { state: AgentStateView { outbox: Seq::empty(), ..a.state }, ..a }
}

/// An agent with its pending mutation requests taken away.
pub open spec fn agent_system_outbox_cleared(a: AgentView) -> AgentView {
    AgentView { state: AgentStateView { system_outbox: Seq::empty(), ..a.state }, ..a }
}

/// An agent holding the given inbox.
pub open spec fn agent_with_inbox(a: AgentView, inbox: Seq<MessageView>) -> AgentView {
    AgentView { state: AgentStateView { inbox, ..a.state }, ..a }
}

/// Every agent with its outbox taken away.
pub open spec fn clear_outboxes(agents: Seq<(AgentId, AgentView)>) -> Seq<(AgentId, AgentView)> {
    agents.map_values(|e: (AgentId, AgentView)| (e.0, agent_outbox_cleared(e.1)))
}

/// Every agent with its pending mutation requests taken away.
pub open spec fn clear_system_outboxes(agents: Seq<(AgentId, AgentView)>) -> Seq<
    (AgentId, AgentView),
> {
    agents.map_values(|e: (AgentId, AgentView)| (e.0, agent_system_outbox_cleared(e.1)))
}

/// The messages among `msgs` addressed to `id`, in drain order.
pub open spec fn inbox_for(msgs: Seq<MessageView>, id: AgentId) -> Seq<MessageView>
    decreases msgs.len(),
{
    if msgs.len() == 0 {
        Seq::empty()
    } else {
        inbox_for(msgs.drop_last(), id) + if msgs.last().to == id {
            seq![msgs.last()]
        } else {
            Seq::empty()
        }
    }
}

/// The context after the map phase: every agent advanced by its behaviour
/// against the frozen pre-tick context; ids and the name index untouched.
pub open spec fn stepped(c: GlobalContextView) -> GlobalContextView {
    GlobalContextView {
        agents: c.agents.map_values(|e: (AgentId, AgentView)| (e.0, agent_act(e.1, c))),
        ..c
    }
}

/// The context after the deliver phase: every surviving agent's inbox holds
/// exactly the drained messages addressed to it, in drain order; a message
/// addressed to nobody is dropped.
pub open spec fn delivered(c: GlobalContextView, msgs: Seq<MessageView>) -> GlobalContextView {
    GlobalContextView {
        agents: c.agents.map_values(
            |e: (AgentId, AgentView)| (e.0, agent_with_inbox(e.1, inbox_for(msgs, e.0))),
        ),
        ..c
    }
}

/// The map phase: every agent independently computes its next state from its
/// current state and the frozen pre-tick context. No agent observes another
/// agent's new state or any registry mutation.
pub fn step_agents(context: &mut GlobalContext)
    ensures
        final(context).deep_view() == stepped(old(context).deep_view()),
        old(context).agents.wf() ==> final(context).agents.wf(),
{
    let ghost c0 = context.deep_view();
    let mut entries: Vec<(AgentId, Agent)> = Vec::new();
    let mut i: usize = 0;
    while i < context.agents.entries.len()
        invariant
            *context == *old(context),
            c0 == context.deep_view(),
            0 <= i <= context.agents.entries@.len(),
            entries@.len() == i,
            forall|j: int|
                0 <= j < i ==> (#[trigger] entries@[j]).0 == context.agents.entries@[j].0,
            forall|j: int|
                0 <= j < i ==> (#[trigger] entries@[j]).1.deep_view() == agent_act(
                    context.agents.entries@[j].1.deep_view(),
                    c0,
                ),
        decreases context.agents.entries@.len() - i,
    {
        let id = context.agents.entries[i].0;
        let next = context.agents.entries[i].1.act(context);
        entries.push((id, next));
        i += 1;
    }
    proof {
        lemma_deep_entries_id(context.agents.entries@);
        lemma_deep_entries_id(entries@);
        if context.agents.wf() {
            assert forall|a: int, b: int| 0 <= a < b < entries@.len() implies (
            #[trigger] entries@[a]).0.0 < (#[trigger] entries@[b]).0.0 by {
                assert(context.agents.entries@[a].0.0 < context.agents.entries@[b].0.0);
            }
        }
        assert(deep_entries(entries@) =~= stepped(c0).agents);
    }
    context.agents = Registry { entries };
    proof {
        assert(context.deep_view() =~= stepped(c0));
    }
}

/// The first half of the drain phase: take every agent's pending outbox
/// messages, ascending agent id, each agent's emission order kept.
pub fn gather_messages(context: &mut GlobalContext) -> (msgs: Vec<Message>)
    ensures
        msgs.deep_view() == outboxes_concat(old(context).deep_view().agents),
        final(context).deep_view() == (GlobalContextView {
            agents: clear_outboxes(old(context).deep_view().agents),
            ..old(context).deep_view()
        }),
        old(context).agents.wf() ==> final(context).agents.wf(),
{
    let mut taken: Vec<(AgentId, Agent)> = Vec::new();
    std::mem::swap(&mut context.agents.entries, &mut taken);
    let ghost all = taken@;
    let ghost all_deep = deep_entries(all);
    let mut entries: Vec<(AgentId, Agent)> = Vec::new();
    let mut msgs: Vec<Message> = Vec::new();
    let ghost mut processed: int = 0;
    proof {
        lemma_deep_entries_id(all);
        assert(all.skip(0) =~= all);
        assert(all_deep.take(0) =~= Seq::<(AgentId, AgentView)>::empty());
    }
    while taken.len() > 0
        invariant
            0 <= processed <= all.len(),
            all_deep == deep_entries(all),
            all_deep.len() == all.len(),
            forall|j: int|
                0 <= j < all.len() ==> (#[trigger] all_deep[j]) == (
                    all[j].0,
                    all[j].1.deep_view(),
                ),
            taken@ == all.skip(processed),
            entries@.len() == processed,
            forall|j: int| 0 <= j < processed ==> (#[trigger] entries@[j]).0 == all[j].0,
            forall|j: int|
                0 <= j < processed ==> (#[trigger] entries@[j]).1.deep_view()
                    == agent_outbox_cleared(all_deep[j].1),
            msgs.deep_view() == outboxes_concat(all_deep.take(processed)),
        decreases taken@.len(),
    {
        let ghost prefix = all_deep.take(processed);
        let ghost prefix1 = all_deep.take(processed + 1);
        let (id, mut agent) = taken.remove(0);
        proof {
            assert((id, agent) == all[processed]);
            assert(prefix1.drop_last() =~= prefix);
            assert(prefix1.last() == all_deep[processed]);
        }
        let ghost agent0 = agent.deep_view();
        msgs.append(&mut agent.state.outbox);
        proof {
            assert(agent.deep_view() =~= agent_outbox_cleared(agent0));
            assert(msgs.deep_view() =~= outboxes_concat(prefix) + agent0.state.outbox);
        }
        entries.push((id, agent));
        proof {
            assert(all.skip(processed).remove(0) =~= all.skip(processed + 1));
            processed = processed + 1;
        }
    }
    proof {
        assert(processed == all.len());
        assert(all_deep.take(processed) =~= all_deep);
        lemma_deep_entries_id(entries@);
        assert(deep_entries(entries@) =~= clear_outboxes(all_deep));
        if entries_wf(all) {
            assert forall|a: int, b: int| 0 <= a < b < entries@.len() implies (
            #[trigger] entries@[a]).0.0 < (#[trigger] entries@[b]).0.0 by {
                assert(all[a].0.0 < all[b].0.0);
            }
        }
    }
    context.agents = Registry { entries };
    proof {
        assert(context.deep_view() =~= (GlobalContextView {
            agents: clear_outboxes(old(context).deep_view().agents),
            ..old(context).deep_view()
        }));
    }
    msgs
}

/// The deliver phase: clear every surviving agent's inbox and hand each
/// drained message to its addressee, in drain order; a message addressed to
/// an id that no agent carries is dropped, never a fault.
pub fn deliver_messages(context: &mut GlobalContext, messages: Vec<Message>)
    ensures
        final(context).deep_view() == delivered(
            old(context).deep_view(),
            messages.deep_view(),
        ),
        old(context).agents.wf() ==> final(context).agents.wf(),
{
    let ghost msgs_v = messages.deep_view();
    let mut taken: Vec<(AgentId, Agent)> = Vec::new();
    std::mem::swap(&mut context.agents.entries, &mut taken);
    let ghost all = taken@;
    let ghost all_deep = deep_entries(all);
    let mut entries: Vec<(AgentId, Agent)> = Vec::new();
    let ghost mut processed: int = 0;
    proof {
        lemma_deep_entries_id(all);
        assert(all.skip(0) =~= all);
    }
    while taken.len() > 0
        invariant
            0 <= processed <= all.len(),
            all_deep == deep_entries(all),
            all_deep.len() == all.len(),
            forall|j: int|
                0 <= j < all.len() ==> (#[trigger] all_deep[j]) == (
                    all[j].0,
                    all[j].1.deep_view(),
                ),
            taken@ == all.skip(processed),
            entries@.len() == processed,
            msgs_v == messages.deep_view(),
            messages@.len() == msgs_v.len(),
            forall|j: int| 0 <= j < processed ==> (#[trigger] entries@[j]).0 == all[j].0,
            forall|j: int|
                0 <= j < processed ==> (#[trigger] entries@[j]).1.deep_view() == agent_with_inbox(
                    all_deep[j].1,
                    inbox_for(msgs_v, all[j].0),
                ),
        decreases taken@.len(),
    {
        let (id, mut agent) = taken.remove(0);
        proof {
            assert((id, agent) == all[processed]);
        }
        let ghost agent0 = agent.deep_view();
        // this agent's fresh inbox: the drained messages addressed to it
        let mut inbox: Vec<Message> = Vec::new();
        let mut j: usize = 0;
        while j < messages.len()
            invariant
                0 <= j <= msgs_v.len(),
                msgs_v == messages.deep_view(),
                messages@.len() == msgs_v.len(),
                inbox.deep_view() == inbox_for(msgs_v.take(j as int), id),
            decreases msgs_v.len() - j,
        {
            let ghost mprefix = msgs_v.take(j as int);
            let ghost mprefix1 = msgs_v.take(j as int + 1);
            proof {
                assert(mprefix1.drop_last() =~= mprefix);
                assert(mprefix1.last() == msgs_v[j as int]);
            }
            if messages[j].to == id {
                let m = messages[j].clone();
                inbox.push(m);
                proof {
                    assert(inbox.deep_view() =~= inbox_for(mprefix, id) + seq![msgs_v[j as int]]);
                    assert(inbox.deep_view() =~= inbox_for(mprefix1, id));
                }
            } else {
                proof {
                    assert(inbox_for(mprefix1, id) =~= inbox_for(mprefix, id));
                }
            }
            j += 1;
        }
        proof {
            assert(msgs_v.take(msgs_v.len() as int) =~= msgs_v);
        }
        agent.state.inbox = inbox;
        proof {
            assert(agent.deep_view() =~= agent_with_inbox(agent0, inbox_for(msgs_v, id)));
        }
        entries.push((id, agent));
        proof {
            assert(all.skip(processed).remove(0) =~= all.skip(processed + 1));
            processed = processed + 1;
        }
    }
    proof {
        assert(processed == all.len());
        lemma_deep_entries_id(entries@);
        assert(deep_entries(entries@) =~= delivered(old(context).deep_view(), msgs_v).agents);
        if entries_wf(all) {
            assert forall|a: int, b: int| 0 <= a < b < entries@.len() implies (
            #[trigger] entries@[a]).0.0 < (#[trigger] entries@[b]).0.0 by {
                assert(all[a].0.0 < all[b].0.0);
            }
        }
    }
    context.agents = Registry { entries };
    proof {
        assert(context.deep_view() =~= delivered(old(context).deep_view(), msgs_v));
    }
}

impl AgentState {
    /// The messages waiting in the inbox, in delivery order.
    pub fn inbox(&self) -> (r: Vec<Message>)
        ensures
            r.deep_view() == self.deep_view().inbox,
    {
        let r = self.inbox.clone();
        proof {
            assert(r@ =~= self.inbox@);
            assert(r.deep_view() =~= self.inbox.deep_view());
        }
        r
    }

    /// Record one outgoing message; it leaves with the next drain.
    pub fn send(&mut self, message: Message)
        ensures
            final(self).deep_view() == (AgentStateView {
                outbox: old(self).deep_view().outbox.push(message.deep_view()),
                ..old(self).deep_view()
            }),
    {
        self.outbox.push(message);
    }
}

impl AgentBase<SystemRequest> for Agent {
    open spec fn spec_system_outbox(agent: AgentView) -> Seq<SystemRequest> {
        agent.state.system_outbox
    }

    open spec fn spec_emptied(agent: AgentView) -> AgentView {
        agent_system_outbox_cleared(agent)
    }

    proof fn lemma_emptied(agent: AgentView) {
    }

    fn empty_system_outbox(&mut self) -> (r: Vec<SystemRequest>) {
        let mut out: Vec<SystemRequest> = Vec::new();
        std::mem::swap(&mut self.state.system_outbox, &mut out);
        proof {
            assert(out.deep_view() =~= old(self).state.system_outbox.deep_view());
            assert(self.state.system_outbox.deep_view() =~= Seq::<SystemRequest>::empty());
            assert(self.deep_view() =~= agent_system_outbox_cleared(old(self).deep_view()));
        }
        out
    }
}

impl System<SystemRequest> for GlobalContext {
    type AgentType = Agent;

    open spec fn spec_pending(system: GlobalContextView) -> Seq<SystemRequest> {
        system_outboxes_concat(system.agents)
    }

    open spec fn spec_drained(system: GlobalContextView) -> GlobalContextView {
        GlobalContextView { agents: clear_system_outboxes(system.agents), ..system }
    }

    open spec fn spec_apply(system: GlobalContextView, request: SystemRequest) -> GlobalContextView {
        let id = removal_target(request);
        if id_in(system.agents, id) {
            GlobalContextView {
                agents: remove_entry(system.agents, id),
                name_to_agent_id: remove_entry(
                    system.name_to_agent_id,
                    value_of(system.agents, id).state.name,
                ),
            }
        } else {
            system
        }
    }

    fn drain_system_outboxes(&mut self) -> (r: Vec<SystemRequest>) {
        let mut taken: Vec<(AgentId, Agent)> = Vec::new();
        std::mem::swap(&mut self.agents.entries, &mut taken);
        let ghost all = taken@;
        let ghost all_deep = deep_entries(all);
        let mut entries: Vec<(AgentId, Agent)> = Vec::new();
        let mut requests: Vec<SystemRequest> = Vec::new();
        let ghost mut processed: int = 0;
        proof {
            lemma_deep_entries_id(all);
            assert(all.skip(0) =~= all);
            assert(all_deep.take(0) =~= Seq::<(AgentId, AgentView)>::empty());
        }
        while taken.len() > 0
            invariant
                0 <= processed <= all.len(),
                all_deep == deep_entries(all),
                all_deep.len() == all.len(),
                forall|j: int|
                    0 <= j < all.len() ==> (#[trigger] all_deep[j]) == (
                        all[j].0,
                        all[j].1.deep_view(),
                    ),
                taken@ == all.skip(processed),
                entries@.len() == processed,
                forall|j: int| 0 <= j < processed ==> (#[trigger] entries@[j]).0 == all[j].0,
                forall|j: int|
                    0 <= j < processed ==> (#[trigger] entries@[j]).1.deep_view()
                        == agent_system_outbox_cleared(all_deep[j].1),
                requests.deep_view() == system_outboxes_concat(all_deep.take(processed)),
            decreases taken@.len(),
        {
            let ghost prefix = all_deep.take(processed);
            let ghost prefix1 = all_deep.take(processed + 1);
            let (id, mut agent) = taken.remove(0);
            proof {
                assert((id, agent) == all[processed]);
                assert(prefix1.drop_last() =~= prefix);
                assert(prefix1.last() == all_deep[processed]);
            }
            let ghost agent0 = agent.deep_view();
            let mut drained = agent.empty_system_outbox();
            requests.append(&mut drained);
            proof {
                assert(requests.deep_view() =~= system_outboxes_concat(prefix)
                    + agent0.state.system_outbox);
            }
            entries.push((id, agent));
            proof {
                assert(all.skip(processed).remove(0) =~= all.skip(processed + 1));
                processed = processed + 1;
            }
        }
        proof {
            assert(processed == all.len());
            assert(all_deep.take(processed) =~= all_deep);
            lemma_deep_entries_id(entries@);
            assert(deep_entries(entries@) =~= clear_system_outboxes(all_deep));
        }
        self.agents = Registry { entries };
        proof {
            assert(self.deep_view() =~= GlobalContext::spec_drained(old(self).deep_view()));
        }
        requests
    }

    fn apply_system_request(&mut self, action: SystemRequest) {
        let agent_id = match action.body {
            SystemRequestBody::RemoveAgent(agent_id) => agent_id,
        };
        let ghost c0 = self.deep_view();
        let removed = self.agents.remove(agent_id);
        proof {
            lemma_deep_entries_id(old(self).agents.entries@);
            lemma_remove_entry_deep(old(self).agents.entries@, agent_id);
        }
        match removed {
            Some(agent) => {
                proof {
                    lemma_value_of_deep(old(self).agents.entries@, agent_id);
                }
                remove_name(&mut self.name_to_agent_id, &agent.state.name);
                proof {
                    assert(self.deep_view() =~= GlobalContext::spec_apply(c0, action));
                }
            },
            None => {
                // removal of an unknown id is recoverable: nothing to do
                proof {
                    assert(self.deep_view() =~= GlobalContext::spec_apply(c0, action));
                }
            },
        }
    }
}

/// Take the first entry registered under the given name out of the name
/// index; without one the index is left as it is.
fn remove_name(names: &mut Vec<(String, AgentId)>, name: &String)
    ensures
        name_entries(final(names)@) == remove_entry(name_entries(old(names)@), name@),
{
    let ghost nv = name_entries(names@);
    let mut i: usize = 0;
    while i < names.len()
        invariant
            names@ == old(names)@,
            nv == name_entries(names@),
            nv.len() == names@.len(),
            0 <= i <= names@.len(),
            forall|j: int| 0 <= j < i ==> (#[trigger] nv[j]).0 != name@,
        decreases names@.len() - i,
    {
        if names[i].0 == *name {
            proof {
                assert(nv[i as int].0 == name@);
                lemma_first_match_is(nv, name@, i as int);
            }
            names.remove(i);
            proof {
                assert(name_entries(names@) =~= nv.remove(i as int));
            }
            return ;
        }
        proof {
            assert(nv[i as int].0 == names@[i as int].0@);
        }
        i += 1;
    }
}

// ---------------------------------------------------------------------------
// Laws of the commit and deliver phases
// ---------------------------------------------------------------------------
/// Applying one request can only take agents away, never add one.
proof fn lemma_apply_no_new_ids(c: GlobalContextView, request: SystemRequest)
    ensures
        forall|id: AgentId|
            #[trigger] id_in(GlobalContext::spec_apply(c, request).agents, id) ==> id_in(
                c.agents,
                id,
            ),
{
    let target = removal_target(request);
    if id_in(c.agents, target) {
        let r = remove_entry(c.agents, target);
        lemma_first_match(c.agents, target);
        let p = first_match(c.agents, target);
        assert forall|id: AgentId| #[trigger] id_in(r, id) implies id_in(c.agents, id) by {
            let k = choose|k: int| 0 <= k < r.len() && (#[trigger] r[k]).0 == id;
            if k < p {
                assert(c.agents[k].0 == id);
            } else {
                assert(c.agents[k + 1].0 == id);
            }
        }
    }
}

/// Applying a whole request queue can only take agents away, never add one.
proof fn lemma_apply_all_keeps_no_new_ids(c: GlobalContextView, requests: Seq<SystemRequest>)
    ensures
        forall|id: AgentId|
            #[trigger] id_in(
                crate::utils::spec_apply_all::<SystemRequest, GlobalContext>(c, requests).agents,
                id,
            ) ==> id_in(c.agents, id),
    decreases requests.len(),
{
    if requests.len() > 0 {
        let c1 = GlobalContext::spec_apply(c, requests[0]);
        lemma_apply_no_new_ids(c, requests[0]);
        lemma_apply_all_keeps_no_new_ids(c1, requests.skip(1));
        let result = crate::utils::spec_apply_all::<SystemRequest, GlobalContext>(c, requests);
        assert(result == crate::utils::spec_apply_all::<SystemRequest, GlobalContext>(
            c1,
            requests.skip(1),
        ));
        assert forall|id: AgentId| #[trigger] id_in(result.agents, id) implies id_in(
            c.agents,
            id,
        ) by {
            assert(id_in(c1.agents, id));
        }
    }
}

/// Law: the commit phase honours every removal. Applying a generation's
/// request queue, in order, to a duplicate-free registry leaves a registry
/// that is still duplicate-free and holds no id whose removal was pending.
pub proof fn lemma_apply_all_removals(c: GlobalContextView, requests: Seq<SystemRequest>)
    requires
        entries_wf(c.agents),
    ensures
        entries_wf(
            crate::utils::spec_apply_all::<SystemRequest, GlobalContext>(c, requests).agents,
        ),
        forall|k: int|
            0 <= k < requests.len() ==> !id_in(
                crate::utils::spec_apply_all::<SystemRequest, GlobalContext>(c, requests).agents,
                removal_target(#[trigger] requests[k]),
            ),
    decreases requests.len(),
{
    if requests.len() > 0 {
        let c1 = GlobalContext::spec_apply(c, requests[0]);
        let target = removal_target(requests[0]);
        lemma_remove_entry_props(c.agents, target);
        assert(entries_wf(c1.agents));
        assert(!id_in(c1.agents, target));
        lemma_apply_all_removals(c1, requests.skip(1));
        let result = crate::utils::spec_apply_all::<SystemRequest, GlobalContext>(
            c1,
            requests.skip(1),
        );
        lemma_apply_all_keeps_no_new_ids(c1, requests.skip(1));
        assert(!id_in(result.agents, target));
        assert forall|k: int| 0 <= k < requests.len() implies !id_in(
            crate::utils::spec_apply_all::<SystemRequest, GlobalContext>(c, requests).agents,
            removal_target(#[trigger] requests[k]),
        ) by {
            if k > 0 {
                assert(requests.skip(1)[k - 1] == requests[k]);
            }
        }
    }
}

/// Every delivered message sits in the inbox of the agent it is addressed to.
pub proof fn lemma_inbox_for_addressed(msgs: Seq<MessageView>, id: AgentId)
    ensures
        forall|k: int|
            0 <= k < inbox_for(msgs, id).len() ==> (#[trigger] inbox_for(msgs, id)[k]).to == id,
    decreases msgs.len(),
{
    if msgs.len() > 0 {
        lemma_inbox_for_addressed(msgs.drop_last(), id);
    }
}

/// Law: a message addressed to an id that no registered agent carries raises
/// no fault and is delivered nowhere: after the deliver phase it stands in no
/// agent's inbox.
pub proof fn lemma_unaddressed_message_dropped(
    c: GlobalContextView,
    msgs: Seq<MessageView>,
    m: MessageView,
)
    requires
        !id_in(c.agents, m.to),
    ensures
        forall|k: int|
            0 <= k < delivered(c, msgs).agents.len() ==> !(#[trigger] delivered(
                c,
                msgs,
            ).agents[k]).1.state.inbox.contains(m),
{
    let d = delivered(c, msgs);
    assert forall|k: int| 0 <= k < d.agents.len() implies !(
    #[trigger] d.agents[k]).1.state.inbox.contains(m) by {
        let id = c.agents[k].0;
        assert(id_in(c.agents, id)) by {
            assert(c.agents[k].0 == id);
        }
        assert(id != m.to);
        lemma_inbox_for_addressed(msgs, id);
        assert(d.agents[k].1.state.inbox == inbox_for(msgs, id));
        if inbox_for(msgs, id).contains(m) {
            let k2 = choose|k2: int|
                0 <= k2 < inbox_for(msgs, id).len() && inbox_for(msgs, id)[k2] == m;
            assert(inbox_for(msgs, id)[k2].to == id);
        }
    }
}

} // verus!

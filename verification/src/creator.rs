use vstd::prelude::*;

use crate::act_map_if::{lossless_narrow, TryIntoResult, TryNarrow};
use crate::behaviour::Behaviour;
use crate::registry::{
    deep_entries, entries_wf, id_in, insert_entry, lemma_deep_entries_id, lemma_insert_entry_deep,
    lemma_insert_entry_props, lemma_remove_entry_deep, lemma_remove_entry_props, remove_entry,
    Registry,
};
use crate::remove_self::IntoRequest;
use crate::utils::{AgentBase, AgentId, BaseOp, System, SystemOp};

verus! {

// ---------------------------------------------------------------------------
// Requests
// ---------------------------------------------------------------------------
/// A request that the agent `remove` be taken out, issued by `from`.
#[derive(Debug, Copy, Clone, PartialEq, Eq, Structural)]
pub struct RemoveAgentRequest {
    pub from: AgentId,
    pub remove: AgentId,
}

impl DeepView for RemoveAgentRequest {
    type V = RemoveAgentRequest;

    open spec fn deep_view(&self) -> RemoveAgentRequest {
        *self
    }
}

/// A request that a fresh child agent enter the registry under `new_id`.
#[derive(Debug, Copy, Clone, PartialEq, Eq, Structural)]
pub struct CreateAgentRequest {
    pub new_id: AgentId,
}

impl DeepView for CreateAgentRequest {
    type V = CreateAgentRequest;

    open spec fn deep_view(&self) -> CreateAgentRequest {
        *self
    }
}

/// The structural operations this simulation knows: removal and creation.
#[derive(Debug, Copy, Clone, PartialEq, Eq, Structural)]
pub enum SystemRequest {
    RemoveAgent(RemoveAgentRequest),
    CreateAgent(CreateAgentRequest),
}

impl DeepView for SystemRequest {
    type V = SystemRequest;

    open spec fn deep_view(&self) -> SystemRequest {
        *self
    }
}

impl IntoRequest<SystemRequest> for RemoveAgentRequest {
    open spec fn spec_request(self) -> SystemRequest {
        SystemRequest::RemoveAgent(self)
    }

    fn into_request(self) -> (r: SystemRequest) {
        SystemRequest::RemoveAgent(self)
    }
}

impl IntoRequest<SystemRequest> for crate::remove_self::RemoveAgent {
    open spec fn spec_request(self) -> SystemRequest {
        SystemRequest::RemoveAgent(RemoveAgentRequest { from: self.0, remove: self.0 })
    }

    fn into_request(self) -> (r: SystemRequest) {
        SystemRequest::RemoveAgent(RemoveAgentRequest { from: self.0, remove: self.0 })
    }
}

// ---------------------------------------------------------------------------
// The creator behaviour
// ---------------------------------------------------------------------------
/// Capability of a state that knows which children it wants created.
pub trait ChildGenOp: DeepView {
    /// The type of requests the children are asked for with.
    type RequestType: DeepView;

    /// The creation requests this state issues, over the model.
    spec fn spec_child_requests(state: Self::V) -> Seq<
        <Self::RequestType as DeepView>::V,
    >;

    /// The creation requests this state issues, in order.
    fn child_requests(&self) -> (r: Vec<Self::RequestType>)
        ensures
            r.deep_view() == Self::spec_child_requests(self.deep_view()),
    ;
}

/// The one-time behaviour of a creator agent: enqueue a creation request for
/// every child it wants, then enqueue its own removal; nothing else changes.
pub struct CreatorBehaviour {}

impl<State, Context, R> Behaviour<State, Context> for CreatorBehaviour where
    State: BaseOp + ChildGenOp<RequestType = R> + SystemOp<RequestType = R>,
    R: DeepView,
    RemoveAgentRequest: IntoRequest<R>,
    Context: DeepView,
 {
    open spec fn spec_act(&self, state: State::V, context: Context::V) -> State::V {
        State::spec_with_requests(
            state,
            State::spec_requests(state) + State::spec_child_requests(state) + seq![
                IntoRequest::<R>::spec_request(
                    RemoveAgentRequest {
                        from: State::spec_id(state),
                        remove: State::spec_id(state),
                    },
                ),
            ],
        )
    }

    fn act(&self, state: State, _context: &Context) -> (new_state: State) {
        let ghost s0 = state.deep_view();
        let id = state.id();
        let mut children = state.child_requests();
        let ghost child_views = children.deep_view();
        let mut new_state = state;
        let ghost mut taken: int = 0;
        proof {
            State::lemma_with_requests(s0, State::spec_requests(s0), State::spec_requests(s0));
            assert(State::spec_requests(s0) + child_views.take(0) =~= State::spec_requests(s0));
        }
        while children.len() > 0
            invariant
                0 <= taken <= child_views.len(),
                child_views == State::spec_child_requests(s0),
                children.deep_view() == child_views.skip(taken),
                id == State::spec_id(s0),
                new_state.deep_view() == State::spec_with_requests(
                    s0,
                    State::spec_requests(s0) + child_views.take(taken),
                ),
            decreases children@.len(),
        {
            let ghost q = State::spec_requests(s0) + child_views.take(taken);
            let child = children.remove(0);
            proof {
                assert(children.deep_view() =~= child_views.skip(taken).remove(0));
                assert(child_views.skip(taken).remove(0) =~= child_views.skip(taken + 1));
                assert(child.deep_view() == child_views.skip(taken)[0]);
                assert(child.deep_view() == child_views[taken]);
                State::lemma_with_requests(s0, q, q.push(child_views[taken]));
            }
            new_state.request(child);
            proof {
                assert(q.push(child_views[taken]) =~= State::spec_requests(s0)
                    + child_views.take(taken + 1));
                taken = taken + 1;
            }
        }
        proof {
            assert(child_views.take(taken) =~= child_views);
        }
        let ghost q = State::spec_requests(s0) + child_views;
        proof {
            State::lemma_with_requests(
                s0,
                q,
                q.push(
                    IntoRequest::<R>::spec_request(
                        RemoveAgentRequest { from: State::spec_id(s0), remove: State::spec_id(s0) },
                    ),
                ),
            );
        }
        let request = RemoveAgentRequest { from: id, remove: id };
        new_state.request(request.into_request());
        proof {
            assert(q.push(
                IntoRequest::<R>::spec_request(
                    RemoveAgentRequest { from: State::spec_id(s0), remove: State::spec_id(s0) },
                ),
            ) =~= State::spec_requests(s0) + State::spec_child_requests(s0) + seq![
                IntoRequest::<R>::spec_request(
                    RemoveAgentRequest { from: State::spec_id(s0), remove: State::spec_id(s0) },
                ),
            ]);
        }
        new_state
    }
}

// ---------------------------------------------------------------------------
// The concrete agents of this simulation
// ---------------------------------------------------------------------------
/// The state of the creator agent: its id and its pending requests.
#[derive(Debug)]
pub struct CreatorState {
    pub id: AgentId,
    pub system_outbox: Vec<SystemRequest>,
}

/// The model of the creator's state.
#[verifier::ext_equal]
pub struct CreatorStateView {
    pub id: AgentId,
    pub system_outbox: Seq<SystemRequest>,
}

impl DeepView for CreatorState {
    type V = CreatorStateView;

    open spec fn deep_view(&self) -> CreatorStateView {
        CreatorStateView { id: self.id, system_outbox: self.system_outbox.deep_view() }
    }
}

impl Clone for CreatorState {
    fn clone(&self) -> (res: Self)
        ensures
            res.deep_view() == self.deep_view(),
    {
        let res = CreatorState { id: self.id, system_outbox: self.system_outbox.clone() };
        proof {
            assert(res.system_outbox.deep_view() =~= self.system_outbox.deep_view());
        }
        res
    }
}

impl BaseOp for CreatorState {
    open spec fn spec_id(state: CreatorStateView) -> AgentId {
        state.id
    }

    fn id(&self) -> (r: AgentId) {
        self.id
    }
}

impl SystemOp for CreatorState {
    type RequestType = SystemRequest;

    open spec fn spec_requests(state: CreatorStateView) -> Seq<SystemRequest> {
        state.system_outbox
    }

    open spec fn spec_with_requests(
        state: CreatorStateView,
        requests: Seq<SystemRequest>,
    ) -> CreatorStateView {
        CreatorStateView { system_outbox: requests, ..state }
    }

    proof fn lemma_with_requests(
        state: CreatorStateView,
        q1: Seq<SystemRequest>,
        q2: Seq<SystemRequest>,
    ) {
    }

    fn request(&mut self, request: SystemRequest) {
        self.system_outbox.push(request);
        proof {
            assert(self.system_outbox.deep_view() =~= old(
                self,
            ).system_outbox.deep_view().push(request));
            assert(self.deep_view() =~= CreatorState::spec_with_requests(
                old(self).deep_view(),
                CreatorState::spec_requests(old(self).deep_view()).push(request),
            ));
        }
    }
}

/// The two children this simulation's creator asks for.
pub open spec fn creator_children(state: CreatorStateView) -> Seq<SystemRequest> {
    seq![
        SystemRequest::CreateAgent(CreateAgentRequest { new_id: AgentId(7) }),
        SystemRequest::CreateAgent(CreateAgentRequest { new_id: AgentId(8) }),
    ]
}

impl ChildGenOp for CreatorState {
    type RequestType = SystemRequest;

    open spec fn spec_child_requests(state: CreatorStateView) -> Seq<SystemRequest> {
        creator_children(state)
    }

    fn child_requests(&self) -> (r: Vec<SystemRequest>) {
        let mut r: Vec<SystemRequest> = Vec::new();
        r.push(SystemRequest::CreateAgent(CreateAgentRequest { new_id: AgentId(7) }));
        r.push(SystemRequest::CreateAgent(CreateAgentRequest { new_id: AgentId(8) }));
        proof {
            assert(r.deep_view() =~= creator_children(self.deep_view()));
        }
        r
    }
}

/// The state of a created child: nothing but its id so far.
#[derive(Debug, Copy, Clone, PartialEq, Eq, Structural)]
pub struct ChildState {
    pub id: AgentId,
}

impl DeepView for ChildState {
    type V = ChildState;

    open spec fn deep_view(&self) -> ChildState {
        *self
    }
}

/// An agent of this simulation: the creator or one of its children.
#[derive(Debug)]
pub enum Agent {
    Creator(CreatorState),
    Child(ChildState),
}

/// The model of an agent.
#[verifier::ext_equal]
pub enum AgentView {
    Creator(CreatorStateView),
    Child(ChildState),
}

impl DeepView for Agent {
    type V = AgentView;

    open spec fn deep_view(&self) -> AgentView {
        match self {
            Agent::Creator(s) => AgentView::Creator(s.deep_view()),
            Agent::Child(s) => AgentView::Child(*s),
        }
    }
}

impl Clone for Agent {
    fn clone(&self) -> (res: Self)
        ensures
            res.deep_view() == self.deep_view(),
    {
        match self {
            Agent::Creator(s) => Agent::Creator(s.clone()),
            Agent::Child(s) => Agent::Child(*s),
        }
    }
}

/// What the creator's behaviour turns its state into: the queue grown by the
/// children requests and its own removal, everything else as it was.
pub open spec fn creator_act(s: CreatorStateView) -> CreatorStateView {
    CreatorStateView {
        system_outbox: s.system_outbox + creator_children(s) + seq![
            SystemRequest::RemoveAgent(RemoveAgentRequest { from: s.id, remove: s.id }),
        ],
        ..s
    }
}

/// The model of one agent's step: the creator runs its behaviour; a child has
/// no behaviour yet and stays as it is.
pub open spec fn agent_act(a: AgentView) -> AgentView {
    match a {
        AgentView::Creator(s) => AgentView::Creator(creator_act(s)),
        AgentView::Child(s) => AgentView::Child(s),
    }
}

impl Agent {
    /// The id of this agent.
    pub fn id(&self) -> (r: AgentId)
        ensures
            r == spec_agent_id(self.deep_view()),
    {
        match self {
            Agent::Creator(state) => state.id,
            Agent::Child(state) => state.id,
        }
    }

    /// Advance this agent one generation. The context carries nothing this
    /// simulation's behaviours read.
    pub fn act<Context: DeepView>(&self, context: &Context) -> (r: Agent)
        ensures
            r.deep_view() == agent_act(self.deep_view()),
    {
        match self {
            Agent::Creator(state) => {
                let next = (CreatorBehaviour {  }).act(state.clone(), context);
                Agent::Creator(next)
            },
            Agent::Child(state) => Agent::Child(*state),
        }
    }
}

/// The id of an agent, over the model.
pub open spec fn spec_agent_id(a: AgentView) -> AgentId {
    match a {
        AgentView::Creator(s) => s.id,
        AgentView::Child(s) => s.id,
    }
}

/// The narrower that extracts the creator variant of the agent union and
/// embeds a creator state back. It routes the creator behaviour to creator
/// agents and leaves children untouched.
pub struct TryAsCreator;

impl TryNarrow<Agent> for TryAsCreator {
    type Inner = CreatorState;

    open spec fn spec_narrow(&self, state: AgentView) -> TryIntoResult<CreatorStateView, AgentView> {
        match state {
            AgentView::Creator(s) => TryIntoResult::Extracted(s),
            AgentView::Child(_) => TryIntoResult::Failed(state),
        }
    }

    open spec fn spec_widen(&self, inner: CreatorStateView) -> AgentView {
        AgentView::Creator(inner)
    }

    fn try_narrow(&self, state: Agent) -> (r: TryIntoResult<CreatorState, Agent>) {
        match state {
            Agent::Creator(s) => TryIntoResult::Extracted(s),
            other => TryIntoResult::Failed(other),
        }
    }

    fn widen(&self, inner: CreatorState) -> (r: Agent) {
        Agent::Creator(inner)
    }
}

/// The creator narrower obeys the narrowing policy: a miss hands the agent
/// back untouched, and narrowing then widening is the identity.
pub proof fn lemma_try_as_creator_lossless()
    ensures
        lossless_narrow::<Agent, TryAsCreator>(TryAsCreator),
{
    assert forall|s: AgentView|
        (#[trigger] TryAsCreator.spec_narrow(s)) is Failed implies TryAsCreator.spec_narrow(
        s,
    )->Failed_0 == s by {
    }
    assert forall|s: AgentView|
        (#[trigger] TryAsCreator.spec_narrow(s)) is Extracted implies TryAsCreator.spec_widen(
        TryAsCreator.spec_narrow(s)->Extracted_0,
    ) == s by {
    }
}

/// An agent's pending mutation requests: the creator's queue; a child has
/// none.
pub open spec fn agent_outbox(a: AgentView) -> Seq<SystemRequest> {
    match a {
        AgentView::Creator(s) => s.system_outbox,
        AgentView::Child(_) => Seq::empty(),
    }
}

/// An agent with its pending requests taken away.
pub open spec fn agent_emptied(a: AgentView) -> AgentView {
    match a {
        AgentView::Creator(s) => AgentView::Creator(
            CreatorStateView { system_outbox: Seq::empty(), ..s },
        ),
        AgentView::Child(s) => AgentView::Child(s),
    }
}

impl AgentBase<SystemRequest> for Agent {
    open spec fn spec_system_outbox(agent: AgentView) -> Seq<SystemRequest> {
        agent_outbox(agent)
    }

    open spec fn spec_emptied(agent: AgentView) -> AgentView {
        agent_emptied(agent)
    }

    proof fn lemma_emptied(agent: AgentView) {
    }

    fn empty_system_outbox(&mut self) -> (r: Vec<SystemRequest>) {
        match self {
            Agent::Creator(state) => {
                let mut out: Vec<SystemRequest> = Vec::new();
                std::mem::swap(&mut state.system_outbox, &mut out);
                proof {
                    assert(out.deep_view() =~= agent_outbox(old(self).deep_view()));
                    assert(state.system_outbox.deep_view() =~= Seq::<SystemRequest>::empty());
                    assert(self.deep_view() =~= agent_emptied(old(self).deep_view()));
                }
                out
            },
            Agent::Child(_) => {
                let out: Vec<SystemRequest> = Vec::new();
                proof {
                    assert(out.deep_view() =~= agent_outbox(old(self).deep_view()));
                }
                out
            },
        }
    }
}

// ---------------------------------------------------------------------------
// The registry and the commit phase
// ---------------------------------------------------------------------------
/// The shared context of this simulation: nothing but the registry.
pub struct GlobalContext {
    pub agents: Registry<Agent>,
}

impl DeepView for GlobalContext {
    type V = Seq<(AgentId, AgentView)>;

    open spec fn deep_view(&self) -> Seq<(AgentId, AgentView)> {
        self.agents.deep_view()
    }
}

impl GlobalContext {
    /// A context with an empty registry.
    pub fn new() -> (r: GlobalContext)
        ensures
            r.agents.entries@ == Seq::<(AgentId, Agent)>::empty(),
            r.agents.wf(),
    {
        GlobalContext { agents: Registry::new() }
    }
}

/// All pending requests over all agents: agents in registry order, each
/// agent's requests in emission order.
pub open spec fn outboxes_concat(agents: Seq<(AgentId, AgentView)>) -> Seq<SystemRequest>
    decreases agents.len(),
{
    if agents.len() == 0 {
        Seq::empty()
    } else {
        outboxes_concat(agents.drop_last()) + agent_outbox(agents.last().1)
    }
}

/// Every agent with its pending requests taken away.
pub open spec fn clear_outboxes(agents: Seq<(AgentId, AgentView)>) -> Seq<(AgentId, AgentView)> {
    agents.map_values(|e: (AgentId, AgentView)| (e.0, agent_emptied(e.1)))
}

/// The registry after one request: a removal takes the agent out (a missing
/// target is recoverable and changes nothing); a creation lets a fresh child
/// enter at its ordered place, replacing any agent already under that id.
pub open spec fn apply_request(
    agents: Seq<(AgentId, AgentView)>,
    request: SystemRequest,
) -> Seq<(AgentId, AgentView)> {
    match request {
        SystemRequest::RemoveAgent(req) => remove_entry(agents, req.remove),
        SystemRequest::CreateAgent(req) => insert_entry(
            agents,
            req.new_id,
            AgentView::Child(ChildState { id: req.new_id }),
        ),
    }
}

impl System<SystemRequest> for GlobalContext {
    type AgentType = Agent;

    open spec fn spec_pending(system: Seq<(AgentId, AgentView)>) -> Seq<SystemRequest> {
        outboxes_concat(system)
    }

    open spec fn spec_drained(system: Seq<(AgentId, AgentView)>) -> Seq<(AgentId, AgentView)> {
        clear_outboxes(system)
    }

    open spec fn spec_apply(
        system: Seq<(AgentId, AgentView)>,
        request: SystemRequest,
    ) -> Seq<(AgentId, AgentView)> {
        apply_request(system, request)
    }

    fn drain_system_outboxes(&mut self) -> (r: Vec<SystemRequest>) {
        let mut taken: Vec<(AgentId, Agent)> = Vec::new();
        std::mem::swap(&mut self.agents.entries, &mut taken);
        let ghost all = taken@;
        let ghost all_deep = deep_entries(all);
        let mut entries: Vec<(AgentId, Agent)> = Vec::new();
        let mut requests: Vec<SystemRequest> = Vec::new();
        let ghost mut processed: int = 0;
        proof {
            lemma_deep_entries_id(all);
            assert(all.skip(0) =~= all);
            assert(all_deep.take(0) =~= Seq::<(AgentId, AgentView)>::empty());
        }
        while taken.len() > 0
            invariant
                0 <= processed <= all.len(),
                all_deep == deep_entries(all),
                all_deep.len() == all.len(),
                forall|j: int|
                    0 <= j < all.len() ==> (#[trigger] all_deep[j]) == (
                        all[j].0,
                        all[j].1.deep_view(),
                    ),
                taken@ == all.skip(processed),
                entries@.len() == processed,
                forall|j: int| 0 <= j < processed ==> (#[trigger] entries@[j]).0 == all[j].0,
                forall|j: int|
                    0 <= j < processed ==> (#[trigger] entries@[j]).1.deep_view() == agent_emptied(
                        all_deep[j].1,
                    ),
                requests.deep_view() == outboxes_concat(all_deep.take(processed)),
            decreases taken@.len(),
        {
            let ghost prefix = all_deep.take(processed);
            let ghost prefix1 = all_deep.take(processed + 1);
            let (id, mut agent) = taken.remove(0);
            proof {
                assert((id, agent) == all[processed]);
                assert(prefix1.drop_last() =~= prefix);
                assert(prefix1.last() == all_deep[processed]);
            }
            let ghost agent0 = agent.deep_view();
            let mut drained = agent.empty_system_outbox();
            requests.append(&mut drained);
            proof {
                assert(requests.deep_view() =~= outboxes_concat(prefix) + agent_outbox(agent0));
            }
            entries.push((id, agent));
            proof {
                assert(all.skip(processed).remove(0) =~= all.skip(processed + 1));
                processed = processed + 1;
            }
        }
        proof {
            assert(processed == all.len());
            assert(all_deep.take(processed) =~= all_deep);
            lemma_deep_entries_id(entries@);
            assert(deep_entries(entries@) =~= clear_outboxes(all_deep));
        }
        self.agents = Registry { entries };
        requests
    }

    fn apply_system_request(&mut self, action: SystemRequest) {
        match action {
            SystemRequest::RemoveAgent(request) => {
                let _removed = self.agents.remove(request.remove);
                proof {
                    lemma_deep_entries_id(old(self).agents.entries@);
                    lemma_remove_entry_deep(old(self).agents.entries@, request.remove);
                }
            },
            SystemRequest::CreateAgent(request) => {
                let child = Agent::Child(ChildState { id: request.new_id });
                self.agents.insert(request.new_id, child);
                proof {
                    lemma_insert_entry_deep(
                        old(self).agents.entries@,
                        request.new_id,
                        Agent::Child(ChildState { id: request.new_id }),
                    );
                }
            },
        }
    }
}

/// The map phase of this simulation: every agent advances independently; ids
/// stay as they are.
pub fn step_agents(context: &mut GlobalContext)
    ensures
        final(context).deep_view() == old(context).deep_view().map_values(
            |e: (AgentId, AgentView)| (e.0, agent_act(e.1)),
        ),
        old(context).agents.wf() ==> final(context).agents.wf(),
{
    let ghost c0 = context.deep_view();
    let mut entries: Vec<(AgentId, Agent)> = Vec::new();
    let mut i: usize = 0;
    while i < context.agents.entries.len()
        invariant
            *context == *old(context),
            c0 == context.deep_view(),
            0 <= i <= context.agents.entries@.len(),
            entries@.len() == i,
            forall|j: int|
                0 <= j < i ==> (#[trigger] entries@[j]).0 == context.agents.entries@[j].0,
            forall|j: int|
                0 <= j < i ==> (#[trigger] entries@[j]).1.deep_view() == agent_act(
                    context.agents.entries@[j].1.deep_view(),
                ),
        decreases context.agents.entries@.len() - i,
    {
        let id = context.agents.entries[i].0;
        let next = context.agents.entries[i].1.act(context);
        entries.push((id, next));
        i += 1;
    }
    proof {
        lemma_deep_entries_id(context.agents.entries@);
        lemma_deep_entries_id(entries@);
        if context.agents.wf() {
            assert forall|a: int, b: int| 0 <= a < b < entries@.len() implies (
            #[trigger] entries@[a]).0.0 < (#[trigger] entries@[b]).0.0 by {
                assert(context.agents.entries@[a].0.0 < context.agents.entries@[b].0.0);
            }
        }
        assert(deep_entries(entries@) =~= c0.map_values(
            |e: (AgentId, AgentView)| (e.0, agent_act(e.1)),
        ));
    }
    context.agents = Registry { entries };
}

// ---------------------------------------------------------------------------
// Laws of the commit phase
// ---------------------------------------------------------------------------
/// The id a request removes, if it is a removal.
pub open spec fn removed_id(r: SystemRequest) -> Option<AgentId> {
    match r {
        SystemRequest::RemoveAgent(req) => Some(req.remove),
        SystemRequest::CreateAgent(_) => None,
    }
}

/// The id a request creates, if it is a creation.
pub open spec fn created_id(r: SystemRequest) -> Option<AgentId> {
    match r {
        SystemRequest::RemoveAgent(_) => None,
        SystemRequest::CreateAgent(req) => Some(req.new_id),
    }
}

/// Applying one request adds no id beyond the one it creates.
proof fn lemma_apply_request_ids(agents: Seq<(AgentId, AgentView)>, request: SystemRequest)
    requires
        entries_wf(agents),
    ensures
        entries_wf(apply_request(agents, request)),
        forall|id: AgentId|
            #[trigger] id_in(apply_request(agents, request), id) ==> id_in(agents, id)
                || created_id(request) == Some(id),
        removed_id(request) is Some ==> !id_in(
            apply_request(agents, request),
            removed_id(request)->0,
        ),
{
    match request {
        SystemRequest::RemoveAgent(req) => {
            lemma_remove_entry_props(agents, req.remove);
            let r = remove_entry(agents, req.remove);
            assert forall|id: AgentId| #[trigger] id_in(r, id) implies id_in(agents, id) by {
                if id != req.remove {
                }
            }
        },
        SystemRequest::CreateAgent(req) => {
            lemma_insert_entry_props(
                agents,
                req.new_id,
                AgentView::Child(ChildState { id: req.new_id }),
            );
        },
    }
}

/// Law: the commit phase honours every removal whose id no later creation
/// reuses. Applying a generation's request queue, in order, to a
/// duplicate-free registry leaves a registry that is still duplicate-free;
/// and an id with a pending removal and no pending creation is absent
/// afterwards.
pub proof fn lemma_apply_all_honours_removals(
    agents: Seq<(AgentId, AgentView)>,
    requests: Seq<SystemRequest>,
)
    requires
        entries_wf(agents),
        forall|k: int, j: int|
            0 <= k < requests.len() && 0 <= j < requests.len() && removed_id(
                #[trigger] requests[k],
            ) is Some ==> created_id(#[trigger] requests[j]) != removed_id(requests[k]),
    ensures
        entries_wf(
            crate::utils::spec_apply_all::<SystemRequest, GlobalContext>(agents, requests),
        ),
        forall|k: int|
            0 <= k < requests.len() && removed_id(#[trigger] requests[k]) is Some ==> !id_in(
                crate::utils::spec_apply_all::<SystemRequest, GlobalContext>(agents, requests),
                removed_id(requests[k])->0,
            ),
    decreases requests.len(),
{
    if requests.len() > 0 {
        let a1 = apply_request(agents, requests[0]);
        lemma_apply_request_ids(agents, requests[0]);
        assert(forall|j: int|
            0 <= j < requests.skip(1).len() ==> #[trigger] requests.skip(1)[j] == requests[j + 1]);
        lemma_apply_all_honours_removals(a1, requests.skip(1));
        let result = crate::utils::spec_apply_all::<SystemRequest, GlobalContext>(
            a1,
            requests.skip(1),
        );
        assert(result == crate::utils::spec_apply_all::<SystemRequest, GlobalContext>(
            agents,
            requests,
        ));
        assert forall|k: int|
            0 <= k < requests.len() && removed_id(#[trigger] requests[k]) is Some implies !id_in(
            result,
            removed_id(requests[k])->0,
        ) by {
            if k == 0 {
                let target = removed_id(requests[0])->0;
                assert(!id_in(a1, target));
                lemma_apply_all_no_uncreated_ids(a1, requests.skip(1), target);
            } else {
                assert(requests.skip(1)[k - 1] == requests[k]);
            }
        }
    }
}

/// An id absent from the registry that no request of the queue creates is
/// still absent after the queue is applied.
proof fn lemma_apply_all_no_uncreated_ids(
    agents: Seq<(AgentId, AgentView)>,
    requests: Seq<SystemRequest>,
    id: AgentId,
)
    requires
        entries_wf(agents),
        !id_in(agents, id),
        forall|j: int| 0 <= j < requests.len() ==> created_id(#[trigger] requests[j]) != Some(id),
    ensures
        !id_in(
            crate::utils::spec_apply_all::<SystemRequest, GlobalContext>(agents, requests),
            id,
        ),
    decreases requests.len(),
{
    if requests.len() > 0 {
        let a1 = apply_request(agents, requests[0]);
        lemma_apply_request_ids(agents, requests[0]);
        assert(!id_in(a1, id));
        assert(forall|j: int|
            0 <= j < requests.skip(1).len() ==> #[trigger] requests.skip(1)[j] == requests[j + 1]);
        lemma_apply_all_no_uncreated_ids(a1, requests.skip(1), id);
    }
}

} // verus!

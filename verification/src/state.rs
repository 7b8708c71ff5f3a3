//! The state of the swarm: its lanes, and which session belongs where.
use crate::agent;
use crate::agent::{Agent, AgentView, SubAgent, SubAgentView};
use crate::docker::{ContainerInfo, ContainerStatus, ContainerView, DockerStack, StackView};
use crate::lane;
use crate::lane::{LaneView, RepoLane};
use crate::order;
use crate::order::{SortKey, SortKeyView};
use crate::parser::{AgentEvent, AgentEventView};
use crate::seqs;
use crate::text;
use crate::validity;
use std::path::PathBuf;
use vstd::hash_map::StringHashMap;
use vstd::prelude::*;

verus! {

/// A child session whose parent has not been found yet.
pub struct PendingChild {
    pub parent_tool_use_id: String,
    pub parent_session_id: Option<String>,
    pub child_session_id: String,
    pub child_session_file: PathBuf,
}

pub struct PendingView {
    pub parent_tool_use_id: Seq<char>,
    pub parent_session_id: Option<Seq<char>>,
    pub child_session_id: Seq<char>,
    pub child_session_file: PathBuf,
}

impl View for PendingChild {
    type V = PendingView;

    open spec fn view(&self) -> PendingView {
        PendingView {
            parent_tool_use_id: self.parent_tool_use_id@,
            parent_session_id: self.parent_session_id.deep_view(),
            child_session_id: self.child_session_id@,
            child_session_file: self.child_session_file,
        }
    }
}

impl DeepView for PendingChild {
    type V = PendingView;

    open spec fn deep_view(&self) -> PendingView {
        self@
    }
}

/// Everything that the dashboard shows. The lanes stand in the order in which they were found.
pub struct SwarmState {
    pub lanes: Vec<RepoLane>,
    /// The project path of each session.
    pub session_index: StringHashMap<String>,
    /// The parent session of each child session.
    pub child_index: StringHashMap<String>,
    pub pending_children: Vec<PendingChild>,
    /// The stacks that belong to no lane yet.
    pub unmatched_stacks: Vec<DockerStack>,
    pub docker_available: bool,
}

pub struct SwarmView {
    pub lanes: Seq<LaneView>,
    pub session_index: Map<Seq<char>, Seq<char>>,
    pub child_index: Map<Seq<char>, Seq<char>>,
    pub pending: Seq<PendingView>,
    pub unmatched: Seq<StackView>,
    pub docker_available: bool,
}

/// The texts of a map.
pub open spec fn text_map(m: Map<Seq<char>, String>) -> Map<Seq<char>, Seq<char>> {
    m.map_values(|s: String| s@)
}

impl View for SwarmState {
    type V = SwarmView;

    open spec fn view(&self) -> SwarmView {
        SwarmView {
            lanes: self.lanes.deep_view(),
            session_index: text_map(self.session_index@),
            child_index: text_map(self.child_index@),
            pending: self.pending_children.deep_view(),
            unmatched: self.unmatched_stacks.deep_view(),
            docker_available: self.docker_available,
        }
    }
}

/// The state before anything is known.
pub open spec fn empty_swarm() -> SwarmView {
    SwarmView {
        lanes: Seq::empty(),
        session_index: Map::empty(),
        child_index: Map::empty(),
        pending: Seq::empty(),
        unmatched: Seq::empty(),
        docker_available: false,
    }
}

// ---------------------------------------------------------------------------------------------
// Lanes and agents by name
// ---------------------------------------------------------------------------------------------

/// Lanes of a project path.
pub open spec fn at_path(path: Seq<char>) -> spec_fn(LaneView) -> bool {
    |l: LaneView| l.project_path == path
}

/// Agents of a session.
pub open spec fn of_session(id: Seq<char>) -> spec_fn(AgentView) -> bool {
    |a: AgentView| a.session_id == id
}

/// The position of a project's lane; the number of lanes where it has none.
pub open spec fn lane_index(lanes: Seq<LaneView>, path: Seq<char>) -> int {
    seqs::first_where(lanes, at_path(path))
}

/// Where the agent of a session stands: its lane, and its place in that lane.
pub open spec fn locate(s: SwarmView, id: Seq<char>) -> Option<(int, int)> {
    if s.session_index.contains_key(id) {
        let l = lane_index(s.lanes, s.session_index[id]);
        if l < s.lanes.len() {
            let a = seqs::first_where(s.lanes[l].agents, of_session(id));
            if a < s.lanes[l].agents.len() {
                Some((l, a))
            } else {
                None
            }
        } else {
            None
        }
    } else {
        None
    }
}

/// The agent at a place.
pub open spec fn agent_at(s: SwarmView, at: (int, int)) -> AgentView {
    s.lanes[at.0].agents[at.1]
}

/// The state with another agent at a place.
pub open spec fn with_agent(s: SwarmView, at: (int, int), agent: AgentView) -> SwarmView {
    let lane = s.lanes[at.0];
    SwarmView {
        lanes: s.lanes.update(
            at.0,
            LaneView { agents: lane.agents.update(at.1, agent), ..lane },
        ),
        ..s
    }
}

/// The lanes with one for a project path, unless it has one already.
pub open spec fn lanes_with(
    lanes: Seq<LaneView>,
    path: Seq<char>,
    compose: Option<Seq<char>>,
    is_lead: bool,
) -> Seq<LaneView> {
    if seqs::any_where(lanes, at_path(path)) {
        lanes
    } else {
        lanes.push(lane::new_lane(path, compose, is_lead))
    }
}

/// The lanes with those of the given paths.
pub open spec fn lanes_discovered(
    lanes: Seq<LaneView>,
    paths: Seq<(Seq<char>, bool, Option<Seq<char>>)>,
) -> Seq<LaneView>
    decreases paths.len(),
{
    if paths.len() == 0 {
        lanes
    } else {
        let last = paths.last();
        lanes_with(lanes_discovered(lanes, paths.drop_last()), last.0, last.2, last.1)
    }
}

/// The lanes, none of which is being scanned any more.
pub open spec fn lanes_scanned(lanes: Seq<LaneView>) -> Seq<LaneView> {
    Seq::new(lanes.len(), |i: int| LaneView { is_scanning: false, ..lanes[i] })
}

// ---------------------------------------------------------------------------------------------
// Events
// ---------------------------------------------------------------------------------------------

/// The state after an event of a session. The event goes to the sub-agent of that session in the
/// agent of its parent session; if the session has no parent, or the parent has no agent, to the
/// agent of the session itself. An event of a session that is not known changes nothing.
pub open spec fn swarm_after(
    s: SwarmView,
    id: Seq<char>,
    event: AgentEventView,
    now: u64,
) -> SwarmView {
    if s.child_index.contains_key(id) && locate(s, s.child_index[id]) is Some {
        let at = locate(s, s.child_index[id])->0;
        with_agent(s, at, agent::agent_after_sub(agent_at(s, at), id, event, now))
    } else {
        match locate(s, id) {
            Some(at) => with_agent(s, at, agent::agent_after(agent_at(s, at), event, now)),
            None => s,
        }
    }
}

/// The lanes after a moment in which nothing happened.
pub open spec fn lanes_ticked(lanes: Seq<LaneView>, now: u64) -> Seq<LaneView> {
    Seq::new(lanes.len(), |i: int| LaneView { agents: agents_ticked(lanes[i].agents, now), ..lanes[i] })
}

pub open spec fn agents_ticked(agents: Seq<AgentView>, now: u64) -> Seq<AgentView> {
    Seq::new(agents.len(), |i: int| agent::agent_refreshed(agents[i], now))
}

// ---------------------------------------------------------------------------------------------
// Children
// ---------------------------------------------------------------------------------------------

/// Agents with a sub-agent that a tool call spawned and whose session has not been found yet.
pub open spec fn agent_awaits(tool_use_id: Seq<char>) -> spec_fn(AgentView) -> bool {
    |a: AgentView| seqs::any_where(a.sub_agents, agent::awaits(tool_use_id))
}

/// Lanes with such an agent.
pub open spec fn lane_awaits(tool_use_id: Seq<char>) -> spec_fn(LaneView) -> bool {
    |l: LaneView| seqs::any_where(l.agents, agent_awaits(tool_use_id))
}

/// The agent whose sub-agent waits for a session under the given session.
pub open spec fn agent_linking(a: AgentView, tool_use_id: Seq<char>, child: Seq<char>) -> AgentView {
    let i = seqs::first_where(a.sub_agents, agent::awaits(tool_use_id));
    AgentView {
        sub_agents: a.sub_agents.update(
            i,
            SubAgentView { session_id: Some(child), ..a.sub_agents[i] },
        ),
        ..a
    }
}

/// The state with a child session linked to the agent of its parent session, if that is known.
pub open spec fn linked_by_session(
    s: SwarmView,
    parent: Seq<char>,
    child: Seq<char>,
) -> Option<SwarmView> {
    match locate(s, parent) {
        Some(at) => Some(
            SwarmView {
                child_index: s.child_index.insert(child, parent),
                ..with_agent(s, at, agent::agent_adopting(agent_at(s, at), child))
            },
        ),
        None => None,
    }
}

/// The state with a child session linked to the first sub-agent that a tool call spawned and that
/// has no session yet, if there is one.
pub open spec fn linked_by_call(
    s: SwarmView,
    tool_use_id: Seq<char>,
    child: Seq<char>,
) -> Option<SwarmView> {
    let l = seqs::first_where(s.lanes, lane_awaits(tool_use_id));
    if l < s.lanes.len() {
        let a = seqs::first_where(s.lanes[l].agents, agent_awaits(tool_use_id));
        let parent = s.lanes[l].agents[a];
        Some(
            SwarmView {
                child_index: s.child_index.insert(child, parent.session_id),
                ..with_agent(s, (l, a), agent_linking(parent, tool_use_id, child))
            },
        )
    } else {
        None
    }
}

/// The state with a child linked to its parent: by the parent's session where that is given and
/// known, else by the tool call that spawned it where that is given and known.
pub open spec fn linked(s: SwarmView, child: PendingView) -> Option<SwarmView> {
    let by_session = match child.parent_session_id {
        Some(parent) => linked_by_session(s, parent, child.child_session_id),
        None => None,
    };
    if by_session is Some {
        by_session
    } else if child.parent_tool_use_id.len() > 0 {
        linked_by_call(s, child.parent_tool_use_id, child.child_session_id)
    } else {
        None
    }
}

/// The state with a child linked to its parent, or waiting for it.
pub open spec fn linked_or_pending(s: SwarmView, child: PendingView) -> SwarmView {
    match linked(s, child) {
        Some(next) => next,
        None => SwarmView { pending: s.pending.push(child), ..s },
    }
}

/// The state after linking the given children one after the other.
pub open spec fn resolved(s: SwarmView, children: Seq<PendingView>) -> SwarmView
    decreases children.len(),
{
    if children.len() == 0 {
        s
    } else {
        linked_or_pending(resolved(s, children.drop_last()), children.last())
    }
}

/// The state after trying again to link the children that wait.
pub open spec fn pending_resolved(s: SwarmView) -> SwarmView {
    resolved(SwarmView { pending: Seq::empty(), ..s }, s.pending)
}

// ---------------------------------------------------------------------------------------------
// Stacks
// ---------------------------------------------------------------------------------------------

/// Lanes of a Compose project.
pub open spec fn takes(project: Seq<char>) -> spec_fn(LaneView) -> bool {
    |l: LaneView| lane::matches_project(l, project)
}

/// Stacks that belong to the lane at `i`, the first one of their project; to none, where `i` is
/// the number of lanes.
pub open spec fn owned_by(lanes: Seq<LaneView>, i: int) -> spec_fn(StackView) -> bool {
    |stack: StackView| seqs::first_where(lanes, takes(stack.project_name)) == i
}

/// The lanes, each with those of the stacks added that belong to it.
pub open spec fn distributed(lanes: Seq<LaneView>, stacks: Seq<StackView>) -> Seq<LaneView> {
    Seq::new(
        lanes.len(),
        |i: int|
            LaneView {
                docker_stacks: lanes[i].docker_stacks + stacks.filter(owned_by(lanes, i)),
                ..lanes[i]
            },
    )
}

/// The stacks that belong to no lane.
pub open spec fn left_over(lanes: Seq<LaneView>, stacks: Seq<StackView>) -> Seq<StackView> {
    stacks.filter(owned_by(lanes, lanes.len() as int))
}

/// The lanes without their stacks.
pub open spec fn lanes_cleared(lanes: Seq<LaneView>) -> Seq<LaneView> {
    Seq::new(lanes.len(), |i: int| LaneView { docker_stacks: Seq::empty(), ..lanes[i] })
}

/// The state after trying again to match the stacks that belong to no lane.
pub open spec fn rematched(s: SwarmView) -> SwarmView {
    SwarmView {
        lanes: distributed(s.lanes, s.unmatched),
        unmatched: left_over(s.lanes, s.unmatched),
        ..s
    }
}

/// The state with the stacks of a snapshot in place of those before.
pub open spec fn stacks_updated(s: SwarmView, stacks: Seq<StackView>) -> SwarmView {
    SwarmView {
        lanes: distributed(lanes_cleared(s.lanes), stacks),
        unmatched: left_over(s.lanes, stacks),
        docker_available: true,
        ..s
    }
}

/// Containers with an identifier.
pub open spec fn with_id(id: Seq<char>) -> spec_fn(ContainerView) -> bool {
    |c: ContainerView| c.id == id
}

/// Stacks with such a container.
pub open spec fn stack_has(id: Seq<char>) -> spec_fn(StackView) -> bool {
    |stack: StackView| seqs::any_where(stack.containers, with_id(id))
}

/// Lanes with such a stack.
pub open spec fn lane_has(id: Seq<char>) -> spec_fn(LaneView) -> bool {
    |l: LaneView| seqs::any_where(l.docker_stacks, stack_has(id))
}

/// A stack after its first container with an identifier changed its status.
pub open spec fn stack_changed(stack: StackView, id: Seq<char>, status: ContainerStatus) -> StackView {
    let c = seqs::first_where(stack.containers, with_id(id));
    StackView {
        containers: stack.containers.update(c, ContainerView { status, ..stack.containers[c] }),
        ..stack
    }
}

/// The lanes after the first container with an identifier changed its status. Where no lane has
/// it, nothing changes.
pub open spec fn container_changed(
    lanes: Seq<LaneView>,
    id: Seq<char>,
    status: ContainerStatus,
) -> Seq<LaneView> {
    let l = seqs::first_where(lanes, lane_has(id));
    if l < lanes.len() {
        let k = seqs::first_where(lanes[l].docker_stacks, stack_has(id));
        let stack = lanes[l].docker_stacks[k];
        lanes.update(
            l,
            LaneView {
                docker_stacks: lanes[l].docker_stacks.update(
                    k,
                    stack_changed(stack, id, status),
                ),
                ..lanes[l]
            },
        )
    } else {
        lanes
    }
}

// ---------------------------------------------------------------------------------------------
// Sessions
// ---------------------------------------------------------------------------------------------

/// A lane in which a session has been found.
pub open spec fn lane_joined(
    l: LaneView,
    id: Seq<char>,
    session_file: PathBuf,
    now: u64,
) -> LaneView {
    LaneView {
        is_scanning: false,
        agents: if seqs::any_where(l.agents, of_session(id)) {
            l.agents
        } else {
            l.agents.push(agent::new_agent(id, session_file, now))
        },
        ..l
    }
}

/// The state in which a session has its place in the lane of its project, before anything that
/// waited is looked at again.
pub open spec fn session_placed(
    s: SwarmView,
    id: Seq<char>,
    path: Seq<char>,
    session_file: PathBuf,
    compose: Option<Seq<char>>,
    is_lead: bool,
    now: u64,
) -> SwarmView {
    let lanes = lanes_with(s.lanes, path, compose, is_lead);
    let l = lane_index(lanes, path);
    SwarmView {
        session_index: s.session_index.insert(id, path),
        lanes: lanes.update(l, lane_joined(lanes[l], id, session_file, now)),
        ..s
    }
}

/// The state after a session of a project has been seen. The session of a child that is linked
/// already changes nothing. Any other gets its place in the lane of its project, and then the
/// stacks and children that waited are tried again.
pub open spec fn session_registered(
    s: SwarmView,
    id: Seq<char>,
    path: Seq<char>,
    session_file: PathBuf,
    compose: Option<Seq<char>>,
    is_lead: bool,
    now: u64,
) -> SwarmView {
    if s.child_index.contains_key(id) {
        s
    } else {
        pending_resolved(
            rematched(session_placed(s, id, path, session_file, compose, is_lead, now)),
        )
    }
}

// ---------------------------------------------------------------------------------------------
// The order of the lanes
// ---------------------------------------------------------------------------------------------

/// The lead goes first, and the lanes go by the names of their repositories.
pub open spec fn lane_keys(lanes: Seq<LaneView>) -> Seq<SortKeyView> {
    Seq::new(
        lanes.len(),
        |i: int| SortKeyView { first: lanes[i].is_lead, text: lanes[i].repo_name },
    )
}

/// `sorted` holds the lanes with the lead first, by the names of their repositories; lanes that
/// agree in both stay in the order in which they were found.
pub open spec fn are_sorted_lanes(lanes: Seq<LaneView>, sorted: Seq<LaneView>) -> bool {
    exists|order: Seq<usize>|
        #[trigger] order::is_order(lane_keys(lanes), order) && sorted == order::permuted(
            lanes,
            order,
        )
}

proof fn lemma_text_map_insert(m: Map<Seq<char>, String>, k: Seq<char>, v: String)
    ensures
        text_map(m.insert(k, v)) == text_map(m).insert(k, v@),
{
    assert(text_map(m.insert(k, v)) =~= text_map(m).insert(k, v@));
}

impl Default for SwarmState {
    fn default() -> (r: SwarmState)
        ensures
            r@ == empty_swarm(),
            validity::well_formed(r@),
    {
        SwarmState::new()
    }
}

impl SwarmState {
    pub fn new() -> (r: SwarmState)
        ensures
            r@ == empty_swarm(),
            validity::well_formed(r@),
    {
        let r = SwarmState {
            lanes: Vec::new(),
            session_index: StringHashMap::new(),
            child_index: StringHashMap::new(),
            pending_children: Vec::new(),
            unmatched_stacks: Vec::new(),
            docker_available: false,
        };
        assert(r@.lanes =~= Seq::empty());
        assert(r@.session_index =~= Map::empty());
        assert(r@.child_index =~= Map::empty());
        assert(r@.pending =~= Seq::empty());
        assert(r@.unmatched =~= Seq::empty());
        r
    }

    /// The position of a project's lane.
    fn find_lane(&self, path: &str) -> (r: usize)
        ensures
            r == lane_index(self@.lanes, path@),
            r <= self@.lanes.len(),
    {
        let mut i: usize = 0;
        while i < self.lanes.len() && !text::same_text(&self.lanes[i].project_path, path)
            invariant
                i <= self.lanes@.len(),
                forall|j: int| 0 <= j < i ==> !at_path(path@)(#[trigger] self@.lanes[j]),
            decreases self.lanes.len() - i,
        {
            assert(!at_path(path@)(self@.lanes[i as int]));
            i += 1;
        }
        proof {
            if i < self.lanes@.len() {
                assert(at_path(path@)(self@.lanes[i as int]));
            }
            seqs::lemma_is_first(self@.lanes, at_path(path@), i as int);
        }
        i
    }

    /// Where the agent of a session stands.
    fn find_agent(&self, id: &str) -> (r: Option<(usize, usize)>)
        ensures
            r is Some <==> locate(self@, id@) is Some,
            r matches Some(at) ==> {
                &&& locate(self@, id@) == Some((at.0 as int, at.1 as int))
                &&& at.0 < self@.lanes.len()
                &&& at.1 < self@.lanes[at.0 as int].agents.len()
            },
    {
        match self.session_index.get(id) {
            None => None,
            Some(path) => {
                let l: usize = self.find_lane(path);
                if l >= self.lanes.len() {
                    return None;
                }
                let found: &RepoLane = &self.lanes[l];
                let ghost agents = self@.lanes[l as int].agents;
                let mut i: usize = 0;
                while i < found.agents.len() && !text::same_text(&found.agents[i].session_id, id)
                    invariant
                        i <= found.agents@.len(),
                        found@.agents == agents,
                        forall|j: int| 0 <= j < i ==> !of_session(id@)(#[trigger] agents[j]),
                    decreases found.agents.len() - i,
                {
                    assert(!of_session(id@)(agents[i as int]));
                    i += 1;
                }
                proof {
                    if i < agents.len() {
                        assert(of_session(id@)(agents[i as int]));
                    }
                    seqs::lemma_is_first(agents, of_session(id@), i as int);
                }
                if i < found.agents.len() {
                    Some((l, i))
                } else {
                    None
                }
            },
        }
    }

    /// Adds the lane of a project, unless it is there already.
    fn add_lane(&mut self, path: String, compose_project_name: Option<String>, is_lead: bool)
        ensures
            final(self)@ == (SwarmView {
                lanes: lanes_with(
                    old(self)@.lanes,
                    path@,
                    compose_project_name.deep_view(),
                    is_lead,
                ),
                ..old(self)@
            }),
    {
        let at: usize = self.find_lane(&path);
        proof {
            seqs::lemma_first_where(self@.lanes, at_path(path@));
        }
        if at == self.lanes.len() {
            let added: RepoLane = RepoLane::new(path, compose_project_name, is_lead);
            self.lanes.push(added);
            assert(self@.lanes =~= old(self)@.lanes.push(added@));
        }
    }

    /// Adds the lanes of the given projects: the path of each, whether it is the lead, and the
    /// name of its Compose project.
    pub fn discover_lanes(&mut self, paths: Vec<(String, bool, Option<String>)>)
        ensures
            final(self)@ == (SwarmView {
                lanes: lanes_discovered(old(self)@.lanes, paths.deep_view()),
                ..old(self)@
            }),
            validity::well_formed(old(self)@) ==> validity::well_formed(final(self)@),
    {
        proof {
            if validity::well_formed(self@) {
                validity::law_discovered(self@, paths.deep_view());
            }
        }
        let ghost all = paths.deep_view();
        let ghost before = self@;
        assert(all.take(0).len() == 0);
        for (path, is_lead, compose_name) in it: paths
            invariant
                all.len() == it.seq().len(),
                forall|i: int| 0 <= i < all.len() ==> #[trigger] all[i] == it.seq()[i].deep_view(),
                self@ == (SwarmView {
                    lanes: lanes_discovered(before.lanes, all.take(it.index() as int)),
                    ..before
                }),
        {
            let ghost at = it.index() as int;
            assert(all[at] == (path@, is_lead, compose_name.deep_view()));
            assert(all.take(at + 1).drop_last() =~= all.take(at));
            assert(all.take(at + 1).last() == all[at]);
            self.add_lane(path, compose_name, is_lead);
        }
        assert(all.take(all.len() as int) =~= all);
    }

    /// Ends the first scan: no lane is being scanned any more.
    pub fn mark_scan_complete(&mut self)
        ensures
            final(self)@ == (SwarmView { lanes: lanes_scanned(old(self)@.lanes), ..old(self)@ }),
            validity::well_formed(old(self)@) ==> validity::well_formed(final(self)@),
    {
        proof {
            if validity::well_formed(self@) {
                validity::law_scanned(self@);
            }
        }
        let ghost before = self@;
        let mut i: usize = 0;
        while i < self.lanes.len()
            invariant
                i <= self.lanes@.len() == before.lanes.len(),
                self@ == (SwarmView { lanes: self@.lanes, ..before }),
                forall|j: int|
                    0 <= j < i ==> #[trigger] self@.lanes[j] == lanes_scanned(before.lanes)[j],
                forall|j: int|
                    i <= j < before.lanes.len() ==> #[trigger] self@.lanes[j] == before.lanes[j],
            decreases self.lanes.len() - i,
        {
            let ghost mid = self@.lanes;
            assert(mid[i as int] == before.lanes[i as int]);
            self.lanes[i].is_scanning = false;
            assert forall|j: int| 0 <= j < mid.len() && j != i implies #[trigger] self@.lanes[j]
                == mid[j] by {}
            i += 1;
        }
        assert(self@.lanes =~= lanes_scanned(before.lanes));
    }

    /// Takes in an event of a session.
    pub fn apply_event(&mut self, session_id: &str, event: AgentEvent, now: u64)
        ensures
            final(self)@ == swarm_after(old(self)@, session_id@, event@, now),
            validity::well_formed(old(self)@) ==> validity::well_formed(final(self)@),
    {
        proof {
            validity::law_event(self@, session_id@, event@, now);
        }
        let ghost before = self@;
        let parent: Option<(usize, usize)> = match self.child_index.get(session_id) {
            Some(parent_id) => self.find_agent(parent_id),
            None => None,
        };
        if let Some((l, a)) = parent {
            self.lanes[l].agents[a].apply_event_to_sub(session_id, event, now);
            proof {
                let at = (l as int, a as int);
                let next = agent::agent_after_sub(
                    agent_at(before, at),
                    session_id@,
                    event@,
                    now,
                );
                assert(self@.lanes[l as int].agents =~= before.lanes[l as int].agents.update(
                    a as int,
                    next,
                ));
                assert(self@.lanes =~= with_agent(before, at, next).lanes);
            }
            return ;
        }
        if let Some((l, a)) = self.find_agent(session_id) {
            self.lanes[l].agents[a].apply_event(event, now);
            proof {
                let at = (l as int, a as int);
                let next = agent::agent_after(agent_at(before, at), event@, now);
                assert(self@.lanes[l as int].agents =~= before.lanes[l as int].agents.update(
                    a as int,
                    next,
                ));
                assert(self@.lanes =~= with_agent(before, at, next).lanes);
            }
        }
    }

    /// Links a child session to the agent of its parent session. Says whether that is known.
    fn try_link_by_session_id(&mut self, parent_session_id: &str, child_session_id: &str) -> (r:
        bool)
        ensures
            r == (linked_by_session(old(self)@, parent_session_id@, child_session_id@) is Some),
            r ==> Some(final(self)@) == linked_by_session(
                old(self)@,
                parent_session_id@,
                child_session_id@,
            ),
            !r ==> final(self)@ == old(self)@,
    {
        let ghost before = self@;
        match self.find_agent(parent_session_id) {
            None => false,
            Some((l, a)) => {
                self.lanes[l].agents[a].adopt(child_session_id);
                let child: String = child_session_id.to_string();
                let parent: String = parent_session_id.to_string();
                proof {
                    lemma_text_map_insert(self.child_index@, child@, parent);
                }
                self.child_index.insert(child, parent);
                proof {
                    let at = (l as int, a as int);
                    let next = agent::agent_adopting(agent_at(before, at), child_session_id@);
                    assert(self@.lanes[l as int].agents =~= before.lanes[l as int].agents.update(
                        a as int,
                        next,
                    ));
                    assert(self@.lanes =~= with_agent(before, at, next).lanes);
                }
                true
            },
        }
    }

    /// Links a child session to the sub-agent that a tool call spawned. Says whether one waits.
    fn try_link(&mut self, parent_tool_use_id: &str, child_session_id: &str) -> (r: bool)
        ensures
            r == (linked_by_call(old(self)@, parent_tool_use_id@, child_session_id@) is Some),
            r ==> Some(final(self)@) == linked_by_call(
                old(self)@,
                parent_tool_use_id@,
                child_session_id@,
            ),
            !r ==> final(self)@ == old(self)@,
    {
        let ghost before = self@;
        let l: usize = first_lane_awaiting(&self.lanes, parent_tool_use_id);
        if l >= self.lanes.len() {
            return false;
        }
        proof {
            seqs::lemma_first_where(before.lanes, lane_awaits(parent_tool_use_id@));
            seqs::lemma_first_where(
                before.lanes[l as int].agents,
                agent_awaits(parent_tool_use_id@),
            );
        }
        let a: usize = first_agent_awaiting(&self.lanes[l].agents, parent_tool_use_id);
        let ghost parent = before.lanes[l as int].agents[a as int];
        proof {
            seqs::lemma_first_where(parent.sub_agents, agent::awaits(parent_tool_use_id@));
        }
        let i: usize = first_sub_awaiting(
            &self.lanes[l].agents[a].sub_agents,
            parent_tool_use_id,
        );
        let child: String = child_session_id.to_string();
        let parent_id: String = self.lanes[l].agents[a].session_id.clone();
        self.lanes[l].agents[a].sub_agents[i].session_id = Some(child_session_id.to_string());
        proof {
            lemma_text_map_insert(self.child_index@, child@, parent_id);
        }
        self.child_index.insert(child, parent_id);
        proof {
            let at = (l as int, a as int);
            let next = agent_linking(parent, parent_tool_use_id@, child_session_id@);
            assert(self@.lanes[l as int].agents[a as int].sub_agents =~= next.sub_agents);
            assert(self@.lanes[l as int].agents =~= before.lanes[l as int].agents.update(
                a as int,
                next,
            ));
            assert(self@.lanes =~= with_agent(before, at, next).lanes);
        }
        true
    }

    /// Links a child to its parent, or lets it wait.
    fn link_or_wait(&mut self, child: PendingChild)
        ensures
            final(self)@ == linked_or_pending(old(self)@, child@),
    {
        let ghost before = self@;
        if let Some(parent) = &child.parent_session_id {
            if self.try_link_by_session_id(parent, &child.child_session_id) {
                return ;
            }
        }
        if !child.parent_tool_use_id.as_str().is_empty() {
            if self.try_link(&child.parent_tool_use_id, &child.child_session_id) {
                return ;
            }
        }
        self.pending_children.push(child);
        assert(self@.pending =~= before.pending.push(child@));
    }

    /// Takes in a child session, which is linked to its parent as soon as that is known.
    pub fn register_child_session(
        &mut self,
        parent_tool_use_id: &str,
        parent_session_id: Option<&str>,
        child_session_id: &str,
        child_session_file: PathBuf,
    )
        ensures
            final(self)@ == linked_or_pending(
                old(self)@,
                (PendingView {
                    parent_tool_use_id: parent_tool_use_id@,
                    parent_session_id: match parent_session_id {
                        Some(parent) => Some(parent@),
                        None => None,
                    },
                    child_session_id: child_session_id@,
                    child_session_file,
                }),
            ),
            validity::well_formed(old(self)@) ==> validity::well_formed(final(self)@),
    {
        let parent: Option<String> = match parent_session_id {
            Some(parent) => Some(parent.to_string()),
            None => None,
        };
        let child = PendingChild {
            parent_tool_use_id: parent_tool_use_id.to_string(),
            parent_session_id: parent,
            child_session_id: child_session_id.to_string(),
            child_session_file,
        };
        proof {
            validity::law_child(self@, child@);
        }
        self.link_or_wait(child);
    }

    /// Tries again to link the children that wait.
    fn resolve_pending(&mut self)
        ensures
            final(self)@ == pending_resolved(old(self)@),
    {
        let mut children: Vec<PendingChild> = Vec::new();
        let ghost all = self@.pending;
        std::mem::swap(&mut children, &mut self.pending_children);
        let ghost before = self@;
        assert(before.pending =~= Seq::empty());
        assert(children.deep_view() =~= all);
        for child in it: children
            invariant
                all.len() == it.seq().len(),
                forall|i: int| 0 <= i < all.len() ==> #[trigger] all[i] == it.seq()[i]@,
                self@ == resolved(before, all.take(it.index() as int)),
        {
            let ghost at = it.index() as int;
            assert(all[at] == child@);
            assert(all.take(at + 1).drop_last() =~= all.take(at));
            assert(all.take(at + 1).last() == all[at]);
            self.link_or_wait(child);
        }
        assert(all.take(all.len() as int) =~= all);
    }

    /// Gives a stack to the first lane of its Compose project. Gives it back where there is none.
    fn try_assign_stack_to_lane(&mut self, stack: DockerStack) -> (r: Option<DockerStack>)
        ensures
            r is None <==> seqs::any_where(old(self)@.lanes, takes(stack@.project_name)),
            r matches Some(back) ==> back@ == stack@ && final(self)@ == old(self)@,
            r is None ==> {
                let l = seqs::first_where(old(self)@.lanes, takes(stack@.project_name));
                let lane = old(self)@.lanes[l];
                final(self)@ == (SwarmView {
                    lanes: old(self)@.lanes.update(
                        l,
                        LaneView { docker_stacks: lane.docker_stacks.push(stack@), ..lane },
                    ),
                    ..old(self)@
                })
            },
    {
        let ghost before = self@;
        let mut l: usize = 0;
        while l < self.lanes.len() && !self.lanes[l].matches_compose_project(&stack.project_name)
            invariant
                l <= self.lanes@.len(),
                forall|j: int|
                    0 <= j < l ==> !takes(stack@.project_name)(#[trigger] self@.lanes[j]),
            decreases self.lanes.len() - l,
        {
            assert(!takes(stack@.project_name)(self@.lanes[l as int]));
            l += 1;
        }
        proof {
            if l < self.lanes@.len() {
                assert(takes(stack@.project_name)(self@.lanes[l as int]));
            }
            seqs::lemma_is_first(self@.lanes, takes(stack@.project_name), l as int);
            seqs::lemma_first_where(self@.lanes, takes(stack@.project_name));
        }
        if l >= self.lanes.len() {
            return Some(stack);
        }
        let ghost given = stack@;
        self.lanes[l].docker_stacks.push(stack);
        proof {
            let lane = before.lanes[l as int];
            assert(self@.lanes[l as int].docker_stacks =~= lane.docker_stacks.push(given));
            assert(self@.lanes =~= before.lanes.update(
                l as int,
                LaneView { docker_stacks: lane.docker_stacks.push(given), ..lane },
            ));
        }
        None
    }

    /// Gives each stack to its lane, and keeps those that have none.
    fn assign_stacks(&mut self, stacks: Vec<DockerStack>)
        requires
            old(self)@.unmatched.len() == 0,
        ensures
            final(self)@ == (SwarmView {
                lanes: distributed(old(self)@.lanes, stacks.deep_view()),
                unmatched: left_over(old(self)@.lanes, stacks.deep_view()),
                ..old(self)@
            }),
    {
        let ghost before = self@;
        let ghost all = stacks.deep_view();
        proof {
            lemma_distributed_none(before.lanes, all);
            assert(before.unmatched =~= left_over(before.lanes, all.take(0)));
        }
        for stack in it: stacks
            invariant
                all.len() == it.seq().len(),
                forall|i: int| 0 <= i < all.len() ==> #[trigger] all[i] == it.seq()[i]@,
                self@ == (SwarmView {
                    lanes: distributed(before.lanes, all.take(it.index() as int)),
                    unmatched: left_over(before.lanes, all.take(it.index() as int)),
                    ..before
                }),
        {
            let ghost at = it.index() as int;
            let ghost mid = self@;
            assert(all[at] == stack@);
            proof {
                lemma_distributed_next(before.lanes, all, at);
                lemma_same_projects(before.lanes, mid.lanes, stack@.project_name);
                seqs::lemma_first_where(mid.lanes, takes(stack@.project_name));
            }
            if let Some(back) = self.try_assign_stack_to_lane(stack) {
                self.unmatched_stacks.push(back);
                assert(self@.unmatched =~= mid.unmatched.push(all[at]));
            }
            assert(self@.lanes =~= distributed(before.lanes, all.take(at + 1)));
            assert(self@.unmatched =~= left_over(before.lanes, all.take(at + 1)));
        }
        assert(all.take(all.len() as int) =~= all);
    }

    /// Replaces all stacks by those of a snapshot.
    pub fn update_docker_stacks(&mut self, stacks: Vec<DockerStack>)
        ensures
            final(self)@ == stacks_updated(old(self)@, stacks.deep_view()),
            validity::well_formed(old(self)@) ==> validity::well_formed(final(self)@),
    {
        proof {
            validity::law_stacks_updated(self@, stacks.deep_view());
        }
        let ghost before = self@;
        self.docker_available = true;
        let mut i: usize = 0;
        while i < self.lanes.len()
            invariant
                i <= self.lanes@.len() == before.lanes.len(),
                self@ == (SwarmView { lanes: self@.lanes, docker_available: true, ..before }),
                forall|j: int|
                    0 <= j < i ==> #[trigger] self@.lanes[j] == lanes_cleared(before.lanes)[j],
                forall|j: int|
                    i <= j < before.lanes.len() ==> #[trigger] self@.lanes[j] == before.lanes[j],
            decreases self.lanes.len() - i,
        {
            let ghost mid = self@.lanes;
            assert(mid[i as int] == before.lanes[i as int]);
            self.lanes[i].docker_stacks = Vec::new();
            assert(self@.lanes[i as int].docker_stacks =~= Seq::empty());
            assert forall|j: int| 0 <= j < mid.len() && j != i implies #[trigger] self@.lanes[j]
                == mid[j] by {}
            i += 1;
        }
        self.unmatched_stacks = Vec::new();
        proof {
            assert(self@.lanes =~= lanes_cleared(before.lanes));
            lemma_left_over_same(before.lanes, lanes_cleared(before.lanes), stacks.deep_view());
        }
        self.assign_stacks(stacks);
    }

    /// Tries again to match the stacks that belong to no lane.
    fn rematch_docker_stacks(&mut self)
        ensures
            final(self)@ == rematched(old(self)@),
    {
        let ghost before = self@;
        let mut stacks: Vec<DockerStack> = Vec::new();
        std::mem::swap(&mut stacks, &mut self.unmatched_stacks);
        assert(stacks.deep_view() =~= before.unmatched);
        self.assign_stacks(stacks);
    }

    /// Takes in a session of a project.
    pub fn register_session(
        &mut self,
        session_id: &str,
        project_path: &str,
        session_file: PathBuf,
        compose_project_name: Option<String>,
        is_lead: bool,
        now: u64,
    )
        ensures
            final(self)@ == session_registered(
                old(self)@,
                session_id@,
                project_path@,
                session_file,
                compose_project_name.deep_view(),
                is_lead,
                now,
            ),
            validity::well_formed(old(self)@) ==> validity::well_formed(final(self)@),
    {
        proof {
            if validity::well_formed(self@) {
                validity::law_session_registered(
                    self@,
                    session_id@,
                    project_path@,
                    session_file,
                    compose_project_name.deep_view(),
                    is_lead,
                    now,
                );
            }
        }
        let ghost before = self@;
        if self.child_index.contains_key(session_id) {
            return ;
        }
        let id: String = session_id.to_string();
        let path: String = project_path.to_string();
        proof {
            lemma_text_map_insert(self.session_index@, id@, path);
        }
        self.session_index.insert(id, path);
        self.add_lane(project_path.to_string(), compose_project_name, is_lead);
        let ghost lanes = self@.lanes;
        let l: usize = self.find_lane(project_path);
        proof {
            lemma_lanes_with_has(
                before.lanes,
                project_path@,
                compose_project_name.deep_view(),
                is_lead,
            );
            seqs::lemma_first_where(lanes, at_path(project_path@));
        }
        self.lanes[l].is_scanning = false;
        let known: bool = has_session(&self.lanes[l].agents, session_id);
        let ghost agents = lanes[l as int].agents;
        if !known {
            let added: Agent = Agent::new(session_id.to_string(), session_file, now);
            self.lanes[l].agents.push(added);
            assert(self@.lanes[l as int].agents =~= agents.push(added@));
        } else {
            assert(self@.lanes[l as int].agents =~= agents);
        }
        proof {
            let joined = lane_joined(lanes[l as int], session_id@, session_file, now);
            assert(self@.lanes[l as int] == joined);
            assert(self@.lanes =~= lanes.update(l as int, joined));
        }
        self.rematch_docker_stacks();
        self.resolve_pending();
    }

    /// Takes in the new status of a container.
    pub fn apply_docker_event(&mut self, container_id: &str, new_status: ContainerStatus)
        ensures
            final(self)@ == (SwarmView {
                lanes: container_changed(old(self)@.lanes, container_id@, new_status),
                ..old(self)@
            }),
            validity::well_formed(old(self)@) ==> validity::well_formed(final(self)@),
    {
        proof {
            validity::law_container_changed(self@, container_id@, new_status);
        }
        let ghost before = self@;
        let l: usize = first_lane_with(&self.lanes, container_id);
        if l >= self.lanes.len() {
            return ;
        }
        let ghost lane = before.lanes[l as int];
        proof {
            seqs::lemma_first_where(before.lanes, lane_has(container_id@));
            seqs::lemma_first_where(lane.docker_stacks, stack_has(container_id@));
        }
        let k: usize = first_stack_with(&self.lanes[l].docker_stacks, container_id);
        let ghost stack = lane.docker_stacks[k as int];
        proof {
            seqs::lemma_first_where(stack.containers, with_id(container_id@));
        }
        let c: usize = first_container_with(
            &self.lanes[l].docker_stacks[k].containers,
            container_id,
        );
        self.lanes[l].docker_stacks[k].containers[c].status = new_status;
        proof {
            let changed = stack_changed(stack, container_id@, new_status);
            assert(self@.lanes[l as int].docker_stacks[k as int].containers
                =~= changed.containers);
            assert(self@.lanes[l as int].docker_stacks =~= lane.docker_stacks.update(
                k as int,
                changed,
            ));
            assert(self@.lanes =~= container_changed(before.lanes, container_id@, new_status));
        }
    }

    /// Lets time pass: agents that have been quiet for long become idle.
    pub fn tick(&mut self, now: u64)
        ensures
            final(self)@ == (SwarmView {
                lanes: lanes_ticked(old(self)@.lanes, now),
                ..old(self)@
            }),
            validity::well_formed(old(self)@) ==> validity::well_formed(final(self)@),
    {
        proof {
            if validity::well_formed(self@) {
                validity::law_tick(self@, now);
            }
        }
        let ghost before = self@;
        let mut i: usize = 0;
        while i < self.lanes.len()
            invariant
                i <= self.lanes@.len() == before.lanes.len(),
                self@ == (SwarmView { lanes: self@.lanes, ..before }),
                forall|j: int|
                    0 <= j < i ==> #[trigger] self@.lanes[j] == lanes_ticked(before.lanes, now)[j],
                forall|j: int|
                    i <= j < before.lanes.len() ==> #[trigger] self@.lanes[j] == before.lanes[j],
            decreases self.lanes.len() - i,
        {
            let ghost mid = self@;
            assert(mid.lanes[i as int] == before.lanes[i as int]);
            let mut a: usize = 0;
            while a < self.lanes[i].agents.len()
                invariant
                    i < self.lanes@.len() == mid.lanes.len(),
                    a <= self.lanes@[i as int].agents@.len(),
                    self@ == (SwarmView { lanes: self@.lanes, ..mid }),
                    self@.lanes[i as int] == (LaneView {
                        agents: self@.lanes[i as int].agents,
                        ..mid.lanes[i as int]
                    }),
                    self@.lanes[i as int].agents.len() == mid.lanes[i as int].agents.len(),
                    forall|j: int|
                        0 <= j < mid.lanes.len() && j != i ==> #[trigger] self@.lanes[j]
                            == mid.lanes[j],
                    forall|b: int|
                        0 <= b < a ==> #[trigger] self@.lanes[i as int].agents[b]
                            == agents_ticked(mid.lanes[i as int].agents, now)[b],
                    forall|b: int|
                        a <= b < mid.lanes[i as int].agents.len()
                            ==> #[trigger] self@.lanes[i as int].agents[b]
                            == mid.lanes[i as int].agents[b],
                decreases self.lanes@[i as int].agents@.len() - a,
            {
                let ghost step = self@;
                assert(step.lanes[i as int].agents[a as int]
                    == mid.lanes[i as int].agents[a as int]);
                self.lanes[i].agents[a].refresh_idle(now);
                assert forall|j: int| 0 <= j < mid.lanes.len() && j != i implies #[trigger] self@.lanes[j]
                    == step.lanes[j] by {}
                assert forall|b: int|
                    0 <= b < step.lanes[i as int].agents.len() && b != a implies #[trigger] self@.lanes[i as int].agents[b]
                    == step.lanes[i as int].agents[b] by {}
                a += 1;
            }
            assert(self@.lanes[i as int].agents =~= agents_ticked(
                mid.lanes[i as int].agents,
                now,
            ));
            i += 1;
        }
        assert(self@.lanes =~= lanes_ticked(before.lanes, now));
    }

    /// The lanes as they are shown: the lead first, and then by the names of the repositories.
    pub fn sorted_lanes(&self) -> (r: Vec<&RepoLane>)
        ensures
            are_sorted_lanes(self@.lanes, r.deep_view()),
    {
        let mut keys: Vec<SortKey> = Vec::new();
        let mut i: usize = 0;
        while i < self.lanes.len()
            invariant
                i <= self.lanes@.len(),
                keys@.len() == i,
                forall|j: int|
                    0 <= j < i ==> #[trigger] keys.deep_view()[j] == lane_keys(self@.lanes)[j],
            decreases self.lanes.len() - i,
        {
            let ghost before = keys.deep_view();
            keys.push(
                SortKey { first: self.lanes[i].is_lead, text: self.lanes[i].repo_name.clone() },
            );
            assert forall|j: int| 0 <= j < i implies #[trigger] keys.deep_view()[j]
                == before[j] by {}
            i += 1;
        }
        assert(keys.deep_view() =~= lane_keys(self@.lanes));
        let order: Vec<usize> = order::sort_order(&keys);
        let mut r: Vec<&RepoLane> = Vec::new();
        let mut k: usize = 0;
        while k < order.len()
            invariant
                k <= order@.len() == self.lanes@.len(),
                order::is_order(lane_keys(self@.lanes), order@),
                r@.len() == k,
                forall|j: int|
                    0 <= j < k ==> #[trigger] r.deep_view()[j] == order::permuted(
                        self@.lanes,
                        order@,
                    )[j],
            decreases order.len() - k,
        {
            let ghost before = r.deep_view();
            r.push(&self.lanes[order[k]]);
            assert forall|j: int| 0 <= j < k implies #[trigger] r.deep_view()[j] == before[j] by {}
            k += 1;
        }
        assert(r.deep_view() =~= order::permuted(self@.lanes, order@));
        r
    }
}

/// The position of the first sub-agent that a tool call spawned and that has no session.
fn first_sub_awaiting(subs: &Vec<SubAgent>, tool_use_id: &str) -> (r: usize)
    ensures
        r == seqs::first_where(subs.deep_view(), agent::awaits(tool_use_id@)),
        r <= subs@.len(),
{
    let ghost all = subs.deep_view();
    let mut i: usize = 0;
    while i < subs.len() && !(text::same_text(&subs[i].task_tool_use_id, tool_use_id)
        && subs[i].session_id.is_none())
        invariant
            i <= subs@.len(),
            all == subs.deep_view(),
            forall|j: int| 0 <= j < i ==> !agent::awaits(tool_use_id@)(#[trigger] all[j]),
        decreases subs.len() - i,
    {
        assert(!agent::awaits(tool_use_id@)(all[i as int]));
        i += 1;
    }
    proof {
        if i < all.len() {
            assert(agent::awaits(tool_use_id@)(all[i as int]));
        }
        seqs::lemma_is_first(all, agent::awaits(tool_use_id@), i as int);
    }
    i
}

/// The position of the first agent with such a sub-agent.
fn first_agent_awaiting(agents: &Vec<Agent>, tool_use_id: &str) -> (r: usize)
    ensures
        r == seqs::first_where(agents.deep_view(), agent_awaits(tool_use_id@)),
        r <= agents@.len(),
{
    let ghost all = agents.deep_view();
    let mut i: usize = 0;
    while i < agents.len()
        invariant
            i <= agents@.len(),
            all == agents.deep_view(),
            forall|j: int| 0 <= j < i ==> !agent_awaits(tool_use_id@)(#[trigger] all[j]),
        decreases agents.len() - i,
    {
        proof {
            seqs::lemma_first_where(all[i as int].sub_agents, agent::awaits(tool_use_id@));
        }
        if first_sub_awaiting(&agents[i].sub_agents, tool_use_id) < agents[i].sub_agents.len() {
            proof {
                assert(agent_awaits(tool_use_id@)(all[i as int]));
                seqs::lemma_is_first(all, agent_awaits(tool_use_id@), i as int);
            }
            return i;
        }
        assert(!agent_awaits(tool_use_id@)(all[i as int]));
        i += 1;
    }
    proof {
        seqs::lemma_is_first(all, agent_awaits(tool_use_id@), i as int);
    }
    i
}

/// The position of the first lane with such an agent.
fn first_lane_awaiting(lanes: &Vec<RepoLane>, tool_use_id: &str) -> (r: usize)
    ensures
        r == seqs::first_where(lanes.deep_view(), lane_awaits(tool_use_id@)),
        r <= lanes@.len(),
{
    let ghost all = lanes.deep_view();
    let mut i: usize = 0;
    while i < lanes.len()
        invariant
            i <= lanes@.len(),
            all == lanes.deep_view(),
            forall|j: int| 0 <= j < i ==> !lane_awaits(tool_use_id@)(#[trigger] all[j]),
        decreases lanes.len() - i,
    {
        proof {
            seqs::lemma_first_where(all[i as int].agents, agent_awaits(tool_use_id@));
        }
        if first_agent_awaiting(&lanes[i].agents, tool_use_id) < lanes[i].agents.len() {
            proof {
                assert(lane_awaits(tool_use_id@)(all[i as int]));
                seqs::lemma_is_first(all, lane_awaits(tool_use_id@), i as int);
            }
            return i;
        }
        assert(!lane_awaits(tool_use_id@)(all[i as int]));
        i += 1;
    }
    proof {
        seqs::lemma_is_first(all, lane_awaits(tool_use_id@), i as int);
    }
    i
}

/// The position of the first container with an identifier.
fn first_container_with(containers: &Vec<ContainerInfo>, id: &str) -> (r: usize)
    ensures
        r == seqs::first_where(containers.deep_view(), with_id(id@)),
        r <= containers@.len(),
{
    let ghost all = containers.deep_view();
    let mut i: usize = 0;
    while i < containers.len() && !text::same_text(&containers[i].id, id)
        invariant
            i <= containers@.len(),
            all == containers.deep_view(),
            forall|j: int| 0 <= j < i ==> !with_id(id@)(#[trigger] all[j]),
        decreases containers.len() - i,
    {
        assert(!with_id(id@)(all[i as int]));
        i += 1;
    }
    proof {
        if i < all.len() {
            assert(with_id(id@)(all[i as int]));
        }
        seqs::lemma_is_first(all, with_id(id@), i as int);
    }
    i
}

/// The position of the first stack with such a container.
fn first_stack_with(stacks: &Vec<DockerStack>, id: &str) -> (r: usize)
    ensures
        r == seqs::first_where(stacks.deep_view(), stack_has(id@)),
        r <= stacks@.len(),
{
    let ghost all = stacks.deep_view();
    let mut i: usize = 0;
    while i < stacks.len()
        invariant
            i <= stacks@.len(),
            all == stacks.deep_view(),
            forall|j: int| 0 <= j < i ==> !stack_has(id@)(#[trigger] all[j]),
        decreases stacks.len() - i,
    {
        proof {
            seqs::lemma_first_where(all[i as int].containers, with_id(id@));
        }
        if first_container_with(&stacks[i].containers, id) < stacks[i].containers.len() {
            proof {
                assert(stack_has(id@)(all[i as int]));
                seqs::lemma_is_first(all, stack_has(id@), i as int);
            }
            return i;
        }
        assert(!stack_has(id@)(all[i as int]));
        i += 1;
    }
    proof {
        seqs::lemma_is_first(all, stack_has(id@), i as int);
    }
    i
}

/// The position of the first lane with such a stack.
fn first_lane_with(lanes: &Vec<RepoLane>, id: &str) -> (r: usize)
    ensures
        r == seqs::first_where(lanes.deep_view(), lane_has(id@)),
        r <= lanes@.len(),
{
    let ghost all = lanes.deep_view();
    let mut i: usize = 0;
    while i < lanes.len()
        invariant
            i <= lanes@.len(),
            all == lanes.deep_view(),
            forall|j: int| 0 <= j < i ==> !lane_has(id@)(#[trigger] all[j]),
        decreases lanes.len() - i,
    {
        proof {
            seqs::lemma_first_where(all[i as int].docker_stacks, stack_has(id@));
        }
        if first_stack_with(&lanes[i].docker_stacks, id) < lanes[i].docker_stacks.len() {
            proof {
                assert(lane_has(id@)(all[i as int]));
                seqs::lemma_is_first(all, lane_has(id@), i as int);
            }
            return i;
        }
        assert(!lane_has(id@)(all[i as int]));
        i += 1;
    }
    proof {
        seqs::lemma_is_first(all, lane_has(id@), i as int);
    }
    i
}

/// Whether an agent of a session is among the agents.
fn has_session(agents: &Vec<Agent>, id: &str) -> (r: bool)
    ensures
        r == seqs::any_where(agents.deep_view(), of_session(id@)),
{
    let ghost all = agents.deep_view();
    let mut i: usize = 0;
    while i < agents.len()
        invariant
            i <= agents@.len(),
            all == agents.deep_view(),
            forall|j: int| 0 <= j < i ==> !of_session(id@)(#[trigger] all[j]),
        decreases agents.len() - i,
    {
        if text::same_text(&agents[i].session_id, id) {
            assert(of_session(id@)(all[i as int]));
            return true;
        }
        assert(!of_session(id@)(all[i as int]));
        i += 1;
    }
    false
}

/// A project path has a lane after one was added for it.
proof fn lemma_lanes_with_has(
    lanes: Seq<LaneView>,
    path: Seq<char>,
    compose: Option<Seq<char>>,
    is_lead: bool,
)
    ensures
        seqs::any_where(lanes_with(lanes, path, compose, is_lead), at_path(path)),
{
    let added = lanes_with(lanes, path, compose, is_lead);
    if !seqs::any_where(lanes, at_path(path)) {
        assert(at_path(path)(added[lanes.len() as int]));
    }
}

/// Lanes with the same Compose projects take the same stacks.
pub proof fn lemma_same_projects(a: Seq<LaneView>, b: Seq<LaneView>, project: Seq<char>)
    requires
        a.len() == b.len(),
        forall|i: int|
            0 <= i < a.len() ==> #[trigger] a[i].compose_project_name == b[i].compose_project_name,
    ensures
        seqs::first_where(a, takes(project)) == seqs::first_where(b, takes(project)),
{
    seqs::lemma_first_where(a, takes(project));
    let k = seqs::first_where(a, takes(project));
    assert forall|j: int| 0 <= j < k implies !takes(project)(#[trigger] b[j]) by {
        assert(!takes(project)(a[j]));
    }
    if k < a.len() {
        assert(takes(project)(b[k]));
    }
    seqs::lemma_is_first(b, takes(project), k);
}

pub proof fn lemma_left_over_same(a: Seq<LaneView>, b: Seq<LaneView>, stacks: Seq<StackView>)
    requires
        a.len() == b.len(),
        forall|i: int|
            0 <= i < a.len() ==> #[trigger] a[i].compose_project_name == b[i].compose_project_name,
    ensures
        left_over(a, stacks) == left_over(b, stacks),
{
    let n = a.len() as int;
    assert(owned_by(a, n) =~= owned_by(b, n)) by {
        assert forall|stack: StackView| #[trigger] owned_by(a, n)(stack) == owned_by(
            b,
            n,
        )(stack) by {
            lemma_same_projects(a, b, stack.project_name);
        }
    }
}

/// Nothing is given where there is nothing to give.
pub proof fn lemma_distributed_none(lanes: Seq<LaneView>, stacks: Seq<StackView>)
    ensures
        distributed(lanes, stacks.take(0)) == lanes,
        left_over(lanes, stacks.take(0)) == Seq::<StackView>::empty(),
{
    let given = distributed(lanes, stacks.take(0));
    assert forall|i: int| 0 <= i < lanes.len() implies #[trigger] given[i] == lanes[i] by {
        seqs::lemma_filter_none(stacks, owned_by(lanes, i));
        assert(given[i].docker_stacks =~= lanes[i].docker_stacks);
    }
    assert(given =~= lanes);
    seqs::lemma_filter_none(stacks, owned_by(lanes, lanes.len() as int));
}

/// One stack more goes to the first lane of its project, or is left over.
pub proof fn lemma_distributed_next(lanes: Seq<LaneView>, stacks: Seq<StackView>, k: int)
    requires
        0 <= k < stacks.len(),
    ensures
        ({
            let l = seqs::first_where(lanes, takes(stacks[k].project_name));
            let before = distributed(lanes, stacks.take(k));
            let after = distributed(lanes, stacks.take(k + 1));
            let left = left_over(lanes, stacks.take(k));
            if l < lanes.len() {
                &&& after == before.update(
                    l,
                    LaneView {
                        docker_stacks: before[l].docker_stacks.push(stacks[k]),
                        ..before[l]
                    },
                )
                &&& left_over(lanes, stacks.take(k + 1)) == left
            } else {
                &&& after == before
                &&& left_over(lanes, stacks.take(k + 1)) == left.push(stacks[k])
            }
        }),
{
    let l = seqs::first_where(lanes, takes(stacks[k].project_name));
    seqs::lemma_first_where(lanes, takes(stacks[k].project_name));
    let before = distributed(lanes, stacks.take(k));
    let after = distributed(lanes, stacks.take(k + 1));
    let n = lanes.len() as int;
    assert forall|i: int| 0 <= i < n implies #[trigger] after[i] == if i == l {
        LaneView { docker_stacks: before[i].docker_stacks.push(stacks[k]), ..before[i] }
    } else {
        before[i]
    } by {
        seqs::lemma_filter_next(stacks, owned_by(lanes, i), k);
        assert(owned_by(lanes, i)(stacks[k]) == (l == i));
        assert(after[i].docker_stacks =~= if i == l {
            before[i].docker_stacks.push(stacks[k])
        } else {
            before[i].docker_stacks
        });
    }
    seqs::lemma_filter_next(stacks, owned_by(lanes, n), k);
    assert(owned_by(lanes, n)(stacks[k]) == (l == n));
    if l < n {
        assert(after =~= before.update(
            l,
            LaneView { docker_stacks: before[l].docker_stacks.push(stacks[k]), ..before[l] },
        ));
    } else {
        assert(after =~= before);
    }
}

} // verus!

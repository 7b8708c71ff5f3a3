//! What holds of the state of the swarm at every time, and that every operation keeps it.
use crate::agent;
use crate::agent::{AgentView, SubAgentView};
use crate::docker::{ContainerStatus, StackView};
use crate::lane;
use crate::lane::LaneView;
use crate::parser::AgentEventView;
use crate::seqs;
use crate::state;
use crate::state::{PendingView, SwarmView};
use std::path::PathBuf;
use vstd::prelude::*;

verus! {

/// No two lanes have one project path.
pub open spec fn distinct_paths(lanes: Seq<LaneView>) -> bool {
    forall|i: int, j: int|
        0 <= i < j < lanes.len() ==> (#[trigger] lanes[i]).project_path != (
        #[trigger] lanes[j]).project_path
}

/// No two agents have one session.
pub open spec fn distinct_sessions(agents: Seq<AgentView>) -> bool {
    forall|i: int, j: int|
        0 <= i < j < agents.len() ==> (#[trigger] agents[i]).session_id != (
        #[trigger] agents[j]).session_id
}

/// No two sub-agents come from one tool call.
pub open spec fn distinct_calls(subs: Seq<SubAgentView>) -> bool {
    forall|i: int, j: int|
        0 <= i < j < subs.len() ==> (#[trigger] subs[i]).task_tool_use_id != (
        #[trigger] subs[j]).task_tool_use_id
}

/// Every stack is of the Compose project of the lane.
pub open spec fn stacks_in_place(l: LaneView) -> bool {
    forall|k: int|
        0 <= k < l.docker_stacks.len() ==> lane::matches_project(
            l,
            (#[trigger] l.docker_stacks[k]).project_name,
        )
}

pub open spec fn lane_ok(l: LaneView) -> bool {
    &&& distinct_sessions(l.agents)
    &&& forall|a: int| 0 <= a < l.agents.len() ==> distinct_calls((#[trigger] l.agents[a]).sub_agents)
    &&& stacks_in_place(l)
}

/// Every agent of the lane is of a session that is known.
pub open spec fn agents_known(s: SwarmView, l: LaneView) -> bool {
    forall|a: int|
        0 <= a < l.agents.len() ==> s.session_index.contains_key(
            (#[trigger] l.agents[a]).session_id,
        )
}

/// One lane for each project, one agent for each session of a lane, one sub-agent for each tool
/// call of an agent; every stack in a lane of its project. Every session that is known has its
/// agent, every agent is of a session that is known, and so is the parent of every child.
pub open spec fn well_formed(s: SwarmView) -> bool {
    &&& distinct_paths(s.lanes)
    &&& forall|l: int| 0 <= l < s.lanes.len() ==> lane_ok(#[trigger] s.lanes[l])
    &&& forall|id: Seq<char>| #[trigger]
        s.session_index.contains_key(id) ==> state::locate(s, id) is Some
    &&& forall|l: int| 0 <= l < s.lanes.len() ==> agents_known(s, #[trigger] s.lanes[l])
    &&& forall|c: Seq<char>| #[trigger]
        s.child_index.contains_key(c) ==> s.session_index.contains_key(s.child_index[c])
}

// ---------------------------------------------------------------------------------------------
// States of one shape
// ---------------------------------------------------------------------------------------------

/// The same agents, but for what they are doing.
pub open spec fn same_sessions(a: Seq<AgentView>, b: Seq<AgentView>) -> bool {
    &&& a.len() == b.len()
    &&& forall|i: int| 0 <= i < a.len() ==> (#[trigger] a[i]).session_id == b[i].session_id
}

/// The same lane, but for what its agents are doing and for its stacks.
pub open spec fn same_lane(a: LaneView, b: LaneView) -> bool {
    &&& a.project_path == b.project_path
    &&& a.compose_project_name == b.compose_project_name
    &&& same_sessions(a.agents, b.agents)
}

pub open spec fn same_lanes(a: Seq<LaneView>, b: Seq<LaneView>) -> bool {
    &&& a.len() == b.len()
    &&& forall|i: int| 0 <= i < a.len() ==> same_lane(#[trigger] a[i], b[i])
}

/// The same sessions in the same places.
pub open spec fn same_shape(a: SwarmView, b: SwarmView) -> bool {
    &&& same_lanes(a.lanes, b.lanes)
    &&& a.session_index == b.session_index
}

/// A session has its agent at the same place in states of one shape.
pub proof fn lemma_locate_same_shape(a: SwarmView, b: SwarmView, id: Seq<char>)
    requires
        same_shape(a, b),
    ensures
        state::locate(a, id) == state::locate(b, id),
{
    if a.session_index.contains_key(id) {
        let path = a.session_index[id];
        let p = state::at_path(path);
        let l = state::lane_index(a.lanes, path);
        seqs::lemma_first_where(a.lanes, p);
        assert forall|j: int| 0 <= j < l implies !p(#[trigger] b.lanes[j]) by {
            assert(!p(a.lanes[j]));
            assert(same_lane(a.lanes[j], b.lanes[j]));
        }
        if l < a.lanes.len() {
            assert(same_lane(a.lanes[l], b.lanes[l]));
            assert(p(b.lanes[l]));
        }
        seqs::lemma_is_first(b.lanes, p, l);
        if l < a.lanes.len() {
            let q = state::of_session(id);
            let x = a.lanes[l].agents;
            let y = b.lanes[l].agents;
            let k = seqs::first_where(x, q);
            seqs::lemma_first_where(x, q);
            assert forall|j: int| 0 <= j < k implies !q(#[trigger] y[j]) by {
                assert(!q(x[j]));
            }
            if k < x.len() {
                assert(q(x[k]));
                assert(q(y[k]));
            }
            seqs::lemma_is_first(y, q, k);
        }
    }
}

/// A state is well-formed if its lanes are, and another of the same shape is that has no parents
/// but known ones.
pub proof fn lemma_well_formed_same_shape(a: SwarmView, b: SwarmView)
    requires
        well_formed(a),
        same_shape(a, b),
        forall|l: int| 0 <= l < b.lanes.len() ==> lane_ok(#[trigger] b.lanes[l]),
        forall|c: Seq<char>| #[trigger]
            b.child_index.contains_key(c) ==> b.session_index.contains_key(b.child_index[c]),
    ensures
        well_formed(b),
{
    assert forall|i: int, j: int| 0 <= i < j < b.lanes.len() implies (
    #[trigger] b.lanes[i]).project_path != (#[trigger] b.lanes[j]).project_path by {
        assert(same_lane(a.lanes[i], b.lanes[i]));
        assert(same_lane(a.lanes[j], b.lanes[j]));
    }
    assert forall|id: Seq<char>| #[trigger] b.session_index.contains_key(id) implies state::locate(
        b,
        id,
    ) is Some by {
        assert(a.session_index.contains_key(id));
        lemma_locate_same_shape(a, b, id);
    }
    assert forall|l: int| 0 <= l < b.lanes.len() implies agents_known(b, #[trigger] b.lanes[l]) by {
        assert(same_lane(a.lanes[l], b.lanes[l]));
        assert(agents_known(a, a.lanes[l]));
        assert forall|k: int| 0 <= k < b.lanes[l].agents.len() implies b.session_index.contains_key(
            (#[trigger] b.lanes[l].agents[k]).session_id,
        ) by {
            assert(a.lanes[l].agents[k].session_id == b.lanes[l].agents[k].session_id);
        }
    }
}

/// Where the agent of a session is found, there is a lane, and an agent of that session in it.
pub proof fn lemma_located(s: SwarmView, id: Seq<char>)
    requires
        state::locate(s, id) is Some,
    ensures
        ({
            let at = state::locate(s, id)->0;
            &&& s.session_index.contains_key(id)
            &&& 0 <= at.0 < s.lanes.len()
            &&& s.lanes[at.0].project_path == s.session_index[id]
            &&& 0 <= at.1 < s.lanes[at.0].agents.len()
            &&& s.lanes[at.0].agents[at.1].session_id == id
        }),
{
    let l = state::lane_index(s.lanes, s.session_index[id]);
    seqs::lemma_first_where(s.lanes, state::at_path(s.session_index[id]));
    assert(state::at_path(s.session_index[id])(s.lanes[l]));
    let agents = s.lanes[l].agents;
    seqs::lemma_first_where(agents, state::of_session(id));
    assert(state::of_session(id)(agents[seqs::first_where(agents, state::of_session(id))]));
}

/// Another agent of the same session keeps the shape and, with it, what is well-formed.
pub proof fn lemma_with_agent(s: SwarmView, at: (int, int), next: AgentView)
    requires
        0 <= at.0 < s.lanes.len(),
        0 <= at.1 < s.lanes[at.0].agents.len(),
        next.session_id == s.lanes[at.0].agents[at.1].session_id,
    ensures
        same_shape(s, state::with_agent(s, at, next)),
        well_formed(s) && distinct_calls(next.sub_agents) ==> well_formed(
            state::with_agent(s, at, next),
        ),
{
    let t = state::with_agent(s, at, next);
    assert forall|i: int| 0 <= i < s.lanes.len() implies same_lane(
        #[trigger] s.lanes[i],
        t.lanes[i],
    ) by {}
    if well_formed(s) && distinct_calls(next.sub_agents) {
        assert forall|l: int| 0 <= l < t.lanes.len() implies lane_ok(#[trigger] t.lanes[l]) by {
            assert(lane_ok(s.lanes[l]));
            if l == at.0 {
                let x = s.lanes[l].agents;
                let y = t.lanes[l].agents;
                assert forall|i: int, j: int| 0 <= i < j < y.len() implies (
                #[trigger] y[i]).session_id != (#[trigger] y[j]).session_id by {
                    assert(x[i].session_id == y[i].session_id);
                    assert(x[j].session_id == y[j].session_id);
                }
                assert forall|a: int| 0 <= a < y.len() implies distinct_calls(
                    (#[trigger] y[a]).sub_agents,
                ) by {
                    assert(distinct_calls(x[a].sub_agents));
                }
                assert(stacks_in_place(t.lanes[l])) by {
                    assert forall|k: int|
                        0 <= k < t.lanes[l].docker_stacks.len() implies lane::matches_project(
                        t.lanes[l],
                        (#[trigger] t.lanes[l].docker_stacks[k]).project_name,
                    ) by {
                        assert(lane::matches_project(
                            s.lanes[l],
                            s.lanes[l].docker_stacks[k].project_name,
                        ));
                    }
                }
            }
        }
        lemma_well_formed_same_shape(s, t);
    }
}

// ---------------------------------------------------------------------------------------------
// Agents
// ---------------------------------------------------------------------------------------------

/// An event of its session keeps an agent's session, and its sub-agents from distinct calls.
pub proof fn law_agent_event(a: AgentView, event: AgentEventView, now: u64)
    ensures
        agent::agent_after(a, event, now).session_id == a.session_id,
        distinct_calls(a.sub_agents) ==> distinct_calls(
            agent::agent_after(a, event, now).sub_agents,
        ),
{
    if distinct_calls(a.sub_agents) {
        if let AgentEventView::SpawnSubAgent { task_tool_use_id, prompt_summary } = event {
            let sub = agent::new_sub(task_tool_use_id, prompt_summary, None);
            lemma_push_call(a.sub_agents, sub);
        }
    }
}

/// So does an event of one of its sub-agents.
pub proof fn law_sub_event(a: AgentView, id: Seq<char>, event: AgentEventView, now: u64)
    ensures
        agent::agent_after_sub(a, id, event, now).session_id == a.session_id,
        distinct_calls(a.sub_agents) ==> distinct_calls(
            agent::agent_after_sub(a, id, event, now).sub_agents,
        ),
{
    let i = seqs::first_where(a.sub_agents, agent::in_session(id));
    seqs::lemma_first_where(a.sub_agents, agent::in_session(id));
    if distinct_calls(a.sub_agents) && i < a.sub_agents.len() {
        lemma_update_call(a.sub_agents, i, agent::sub_after(a.sub_agents[i], event, now));
    }
}

/// And so does the adoption of a child.
pub proof fn law_adoption(a: AgentView, child: Seq<char>)
    ensures
        agent::agent_adopting(a, child).session_id == a.session_id,
        distinct_calls(a.sub_agents) ==> distinct_calls(
            agent::agent_adopting(a, child).sub_agents,
        ),
{
    if distinct_calls(a.sub_agents) {
        lemma_push_call(a.sub_agents, agent::new_sub(child, Seq::empty(), Some(child)));
    }
}

proof fn lemma_push_call(subs: Seq<SubAgentView>, sub: SubAgentView)
    requires
        distinct_calls(subs),
    ensures
        distinct_calls(agent::subs_with(subs, sub)),
{
    let p = agent::spawned_by(sub.task_tool_use_id);
    if !seqs::any_where(subs, p) {
        let next = subs.push(sub);
        assert forall|i: int, j: int| 0 <= i < j < next.len() implies (
        #[trigger] next[i]).task_tool_use_id != (#[trigger] next[j]).task_tool_use_id by {
            assert(!p(subs[i]));
        }
    }
}

proof fn lemma_update_call(subs: Seq<SubAgentView>, i: int, sub: SubAgentView)
    requires
        distinct_calls(subs),
        0 <= i < subs.len(),
        sub.task_tool_use_id == subs[i].task_tool_use_id,
    ensures
        distinct_calls(subs.update(i, sub)),
{
    let next = subs.update(i, sub);
    assert forall|x: int, y: int| 0 <= x < y < next.len() implies (
    #[trigger] next[x]).task_tool_use_id != (#[trigger] next[y]).task_tool_use_id by {
        assert(subs[x].task_tool_use_id == next[x].task_tool_use_id);
        assert(subs[y].task_tool_use_id == next[y].task_tool_use_id);
    }
}

// ---------------------------------------------------------------------------------------------
// Operations
// ---------------------------------------------------------------------------------------------

/// The state before anything is known is well-formed.
pub proof fn law_empty()
    ensures
        well_formed(state::empty_swarm()),
{
}

/// An event keeps the shape of the state and keeps it well-formed.
pub proof fn law_event(s: SwarmView, id: Seq<char>, event: AgentEventView, now: u64)
    ensures
        same_shape(s, state::swarm_after(s, id, event, now)),
        well_formed(s) ==> well_formed(state::swarm_after(s, id, event, now)),
{
    if s.child_index.contains_key(id) && state::locate(s, s.child_index[id]) is Some {
        let at = state::locate(s, s.child_index[id])->0;
        lemma_located(s, s.child_index[id]);
        let a = state::agent_at(s, at);
        law_sub_event(a, id, event, now);
        lemma_with_agent(s, at, agent::agent_after_sub(a, id, event, now));
        assert(well_formed(s) ==> lane_ok(s.lanes[at.0]));
    } else if state::locate(s, id) is Some {
        let at = state::locate(s, id)->0;
        lemma_located(s, id);
        let a = state::agent_at(s, at);
        law_agent_event(a, event, now);
        lemma_with_agent(s, at, agent::agent_after(a, event, now));
        assert(well_formed(s) ==> lane_ok(s.lanes[at.0]));
    }
}

/// Time that passes keeps the state well-formed.
pub proof fn law_tick(s: SwarmView, now: u64)
    requires
        well_formed(s),
    ensures
        well_formed(SwarmView { lanes: state::lanes_ticked(s.lanes, now), ..s }),
{
    let t = SwarmView { lanes: state::lanes_ticked(s.lanes, now), ..s };
    assert forall|i: int| 0 <= i < s.lanes.len() implies same_lane(
        #[trigger] s.lanes[i],
        t.lanes[i],
    ) by {}
    assert forall|l: int| 0 <= l < t.lanes.len() implies lane_ok(#[trigger] t.lanes[l]) by {
        assert(lane_ok(s.lanes[l]));
        let x = s.lanes[l].agents;
        let y = t.lanes[l].agents;
        assert forall|i: int, j: int| 0 <= i < j < y.len() implies (#[trigger] y[i]).session_id != (
        #[trigger] y[j]).session_id by {
            assert(x[i].session_id != x[j].session_id);
        }
        assert forall|a: int| 0 <= a < y.len() implies distinct_calls(
            (#[trigger] y[a]).sub_agents,
        ) by {
            assert(distinct_calls(x[a].sub_agents));
        }
        assert forall|k: int|
            0 <= k < t.lanes[l].docker_stacks.len() implies lane::matches_project(
            t.lanes[l],
            (#[trigger] t.lanes[l].docker_stacks[k]).project_name,
        ) by {
            assert(lane::matches_project(s.lanes[l], s.lanes[l].docker_stacks[k].project_name));
        }
    }
    lemma_well_formed_same_shape(s, t);
}

/// The end of the scan keeps the state well-formed.
pub proof fn law_scanned(s: SwarmView)
    requires
        well_formed(s),
    ensures
        well_formed(SwarmView { lanes: state::lanes_scanned(s.lanes), ..s }),
{
    let t = SwarmView { lanes: state::lanes_scanned(s.lanes), ..s };
    assert forall|i: int| 0 <= i < s.lanes.len() implies same_lane(
        #[trigger] s.lanes[i],
        t.lanes[i],
    ) by {}
    assert forall|l: int| 0 <= l < t.lanes.len() implies lane_ok(#[trigger] t.lanes[l]) by {
        assert(lane_ok(s.lanes[l]));
        lemma_same_lane_ok(s.lanes[l], t.lanes[l]);
    }
    lemma_well_formed_same_shape(s, t);
}

/// A lane stays in order where it keeps its agents, its stacks and its project.
proof fn lemma_same_lane_ok(a: LaneView, b: LaneView)
    requires
        lane_ok(a),
        a.agents == b.agents,
        a.docker_stacks == b.docker_stacks,
        a.compose_project_name == b.compose_project_name,
    ensures
        lane_ok(b),
{
    assert forall|k: int| 0 <= k < b.docker_stacks.len() implies lane::matches_project(
        b,
        (#[trigger] b.docker_stacks[k]).project_name,
    ) by {
        assert(lane::matches_project(a, a.docker_stacks[k].project_name));
    }
}

/// Linking a child keeps the shape of the state and keeps it well-formed.
pub proof fn law_linked(s: SwarmView, child: PendingView)
    requires
        state::linked(s, child) is Some,
    ensures
        same_shape(s, state::linked(s, child)->0),
        well_formed(s) ==> well_formed(state::linked(s, child)->0),
{
    let by_session = match child.parent_session_id {
        Some(parent) => state::linked_by_session(s, parent, child.child_session_id),
        None => None,
    };
    if by_session is Some {
        let parent = child.parent_session_id->0;
        lemma_located(s, parent);
        let at = state::locate(s, parent)->0;
        let a = state::agent_at(s, at);
        law_adoption(a, child.child_session_id);
        let next = agent::agent_adopting(a, child.child_session_id);
        lemma_with_agent(s, at, next);
        assert(well_formed(s) ==> lane_ok(s.lanes[at.0]));
        lemma_more_children(state::with_agent(s, at, next), child.child_session_id, parent);
    } else {
        let call = child.parent_tool_use_id;
        lemma_awaiting(s, call);
        let l = seqs::first_where(s.lanes, state::lane_awaits(call));
        let k = seqs::first_where(s.lanes[l].agents, state::agent_awaits(call));
        let a = s.lanes[l].agents[k];
        let i = seqs::first_where(a.sub_agents, agent::awaits(call));
        let next = state::agent_linking(a, call, child.child_session_id);
        if well_formed(s) {
            assert(lane_ok(s.lanes[l]));
            assert(agents_known(s, s.lanes[l]));
            lemma_update_call(a.sub_agents, i, next.sub_agents[i]);
        }
        lemma_with_agent(s, (l, k), next);
        lemma_more_children(
            state::with_agent(s, (l, k), next),
            child.child_session_id,
            a.session_id,
        );
    }
}

/// One child more, whose parent is known.
proof fn lemma_more_children(s: SwarmView, child: Seq<char>, parent: Seq<char>)
    ensures
        ({
            let t = SwarmView { child_index: s.child_index.insert(child, parent), ..s };
            &&& same_shape(s, t)
            &&& well_formed(s) && s.session_index.contains_key(parent) ==> well_formed(t)
        }),
{
    let t = SwarmView { child_index: s.child_index.insert(child, parent), ..s };
    if well_formed(s) && s.session_index.contains_key(parent) {
        lemma_well_formed_same_shape(s, t);
    }
}

/// Where a sub-agent of a tool call waits, its lane, its agent and its own place are found.
pub proof fn lemma_awaiting(s: SwarmView, call: Seq<char>)
    requires
        seqs::first_where(s.lanes, state::lane_awaits(call)) < s.lanes.len(),
    ensures
        ({
            let l = seqs::first_where(s.lanes, state::lane_awaits(call));
            let k = seqs::first_where(s.lanes[l].agents, state::agent_awaits(call));
            let subs = s.lanes[l].agents[k].sub_agents;
            let i = seqs::first_where(subs, agent::awaits(call));
            &&& 0 <= l
            &&& 0 <= k < s.lanes[l].agents.len()
            &&& 0 <= i < subs.len()
            &&& agent::awaits(call)(subs[i])
        }),
{
    let l = seqs::first_where(s.lanes, state::lane_awaits(call));
    seqs::lemma_first_where(s.lanes, state::lane_awaits(call));
    assert(state::lane_awaits(call)(s.lanes[l]));
    let agents = s.lanes[l].agents;
    let k = seqs::first_where(agents, state::agent_awaits(call));
    seqs::lemma_first_where(agents, state::agent_awaits(call));
    assert(state::agent_awaits(call)(agents[k]));
    seqs::lemma_first_where(agents[k].sub_agents, agent::awaits(call));
}

/// Taking in a child keeps the shape of the state and keeps it well-formed.
pub proof fn law_child(s: SwarmView, child: PendingView)
    ensures
        same_shape(s, state::linked_or_pending(s, child)),
        well_formed(s) ==> well_formed(state::linked_or_pending(s, child)),
{
    if state::linked(s, child) is Some {
        law_linked(s, child);
    } else if well_formed(s) {
        lemma_well_formed_same_shape(s, state::linked_or_pending(s, child));
    }
}

/// Shape is handed on.
pub proof fn lemma_same_shape_transitive(a: SwarmView, b: SwarmView, c: SwarmView)
    requires
        same_shape(a, b),
        same_shape(b, c),
    ensures
        same_shape(a, c),
{
    assert forall|i: int| 0 <= i < a.lanes.len() implies same_lane(
        #[trigger] a.lanes[i],
        c.lanes[i],
    ) by {
        assert(same_lane(a.lanes[i], b.lanes[i]));
        assert(same_lane(b.lanes[i], c.lanes[i]));
        let x = a.lanes[i].agents;
        let y = b.lanes[i].agents;
        let z = c.lanes[i].agents;
        assert forall|k: int| 0 <= k < x.len() implies (#[trigger] x[k]).session_id
            == z[k].session_id by {
            assert(y[k].session_id == z[k].session_id);
        }
    }
}

/// Taking in children one after the other keeps the shape of the state and keeps it well-formed.
pub proof fn law_resolved(s: SwarmView, children: Seq<PendingView>)
    ensures
        same_shape(s, state::resolved(s, children)),
        well_formed(s) ==> well_formed(state::resolved(s, children)),
    decreases children.len(),
{
    if children.len() > 0 {
        law_resolved(s, children.drop_last());
        let mid = state::resolved(s, children.drop_last());
        law_child(mid, children.last());
        lemma_same_shape_transitive(s, mid, state::resolved(s, children));
    }
}

/// Trying the children that wait again keeps the state well-formed.
pub proof fn law_pending_resolved(s: SwarmView)
    ensures
        same_shape(s, state::pending_resolved(s)),
        well_formed(s) ==> well_formed(state::pending_resolved(s)),
{
    let t = SwarmView { pending: Seq::empty(), ..s };
    if well_formed(s) {
        lemma_well_formed_same_shape(s, t);
    }
    law_resolved(t, s.pending);
    lemma_same_shape_transitive(s, t, state::pending_resolved(s));
}

// ---------------------------------------------------------------------------------------------
// Stacks
// ---------------------------------------------------------------------------------------------

/// Giving stacks to lanes keeps the lanes in order.
pub proof fn lemma_distributed_ok(lanes: Seq<LaneView>, stacks: Seq<StackView>)
    ensures
        same_lanes(lanes, state::distributed(lanes, stacks)),
        (forall|l: int| 0 <= l < lanes.len() ==> lane_ok(#[trigger] lanes[l])) ==> forall|l: int|
            0 <= l < lanes.len() ==> lane_ok(#[trigger] state::distributed(lanes, stacks)[l]),
{
    let given = state::distributed(lanes, stacks);
    assert forall|i: int| 0 <= i < lanes.len() implies same_lane(
        #[trigger] lanes[i],
        given[i],
    ) by {}
    if forall|l: int| 0 <= l < lanes.len() ==> lane_ok(#[trigger] lanes[l]) {
        assert forall|l: int| 0 <= l < lanes.len() implies lane_ok(#[trigger] given[l]) by {
            assert(lane_ok(lanes[l]));
            let own = stacks.filter(state::owned_by(lanes, l));
            let old = lanes[l].docker_stacks;
            assert forall|k: int| 0 <= k < given[l].docker_stacks.len() implies lane::matches_project(
                given[l],
                (#[trigger] given[l].docker_stacks[k]).project_name,
            ) by {
                if k < old.len() {
                    assert(given[l].docker_stacks[k] == old[k]);
                    assert(lane::matches_project(lanes[l], old[k].project_name));
                } else {
                    let stack = own[k - old.len()];
                    assert(given[l].docker_stacks[k] == stack);
                    stacks.lemma_filter_pred(state::owned_by(lanes, l), k - old.len());
                    let p = state::takes(stack.project_name);
                    seqs::lemma_first_where(lanes, p);
                    assert(p(lanes[l]));
                }
            }
        }
    }
}

/// Trying the stacks that belong to no lane again keeps the shape and what is well-formed.
pub proof fn law_rematched(s: SwarmView)
    ensures
        same_shape(s, state::rematched(s)),
        well_formed(s) ==> well_formed(state::rematched(s)),
{
    lemma_distributed_ok(s.lanes, s.unmatched);
    if well_formed(s) {
        lemma_well_formed_same_shape(s, state::rematched(s));
    }
}

/// A snapshot of stacks keeps the shape of the state and keeps it well-formed.
pub proof fn law_stacks_updated(s: SwarmView, stacks: Seq<StackView>)
    ensures
        same_shape(s, state::stacks_updated(s, stacks)),
        well_formed(s) ==> well_formed(state::stacks_updated(s, stacks)),
{
    let cleared = state::lanes_cleared(s.lanes);
    let t = SwarmView { lanes: cleared, ..s };
    assert forall|i: int| 0 <= i < s.lanes.len() implies same_lane(
        #[trigger] s.lanes[i],
        cleared[i],
    ) by {}
    lemma_distributed_ok(cleared, stacks);
    lemma_same_shape_transitive(s, t, state::stacks_updated(s, stacks));
    if well_formed(s) {
        assert forall|l: int| 0 <= l < cleared.len() implies lane_ok(#[trigger] cleared[l]) by {
            assert(lane_ok(s.lanes[l]));
        }
        assert forall|l: int| 0 <= l < s.lanes.len() implies lane_ok(
            #[trigger] state::stacks_updated(s, stacks).lanes[l],
        ) by {
            assert(lane_ok(state::distributed(cleared, stacks)[l]));
        }
        lemma_well_formed_same_shape(s, state::stacks_updated(s, stacks));
    }
}

/// The new status of a container keeps the shape of the state and keeps it well-formed.
pub proof fn law_container_changed(s: SwarmView, id: Seq<char>, status: ContainerStatus)
    ensures
        ({
            let t = SwarmView { lanes: state::container_changed(s.lanes, id, status), ..s };
            &&& same_shape(s, t)
            &&& well_formed(s) ==> well_formed(t)
        }),
{
    let t = SwarmView { lanes: state::container_changed(s.lanes, id, status), ..s };
    let l = seqs::first_where(s.lanes, state::lane_has(id));
    seqs::lemma_first_where(s.lanes, state::lane_has(id));
    assert forall|i: int| 0 <= i < s.lanes.len() implies same_lane(
        #[trigger] s.lanes[i],
        t.lanes[i],
    ) by {}
    if well_formed(s) {
        assert forall|i: int| 0 <= i < t.lanes.len() implies lane_ok(#[trigger] t.lanes[i]) by {
            assert(lane_ok(s.lanes[i]));
            if l < s.lanes.len() && i == l {
                assert(state::lane_has(id)(s.lanes[l]));
                seqs::lemma_first_where(s.lanes[l].docker_stacks, state::stack_has(id));
                assert forall|k: int|
                    0 <= k < t.lanes[i].docker_stacks.len() implies lane::matches_project(
                    t.lanes[i],
                    (#[trigger] t.lanes[i].docker_stacks[k]).project_name,
                ) by {
                    assert(lane::matches_project(
                        s.lanes[i],
                        s.lanes[i].docker_stacks[k].project_name,
                    ));
                }
            }
        }
        lemma_well_formed_same_shape(s, t);
    }
}

// ---------------------------------------------------------------------------------------------
// Lanes and sessions
// ---------------------------------------------------------------------------------------------

/// One lane more keeps the state well-formed.
pub proof fn law_lane_added(
    s: SwarmView,
    path: Seq<char>,
    compose: Option<Seq<char>>,
    is_lead: bool,
)
    requires
        well_formed(s),
    ensures
        well_formed(SwarmView { lanes: state::lanes_with(s.lanes, path, compose, is_lead), ..s }),
{
    let t = SwarmView { lanes: state::lanes_with(s.lanes, path, compose, is_lead), ..s };
    let p = state::at_path(path);
    if !seqs::any_where(s.lanes, p) {
        let added = lane::new_lane(path, compose, is_lead);
        assert(t.lanes == s.lanes.push(added));
        assert forall|i: int, j: int| 0 <= i < j < t.lanes.len() implies (
        #[trigger] t.lanes[i]).project_path != (#[trigger] t.lanes[j]).project_path by {
            assert(!p(s.lanes[i]));
        }
        assert forall|l: int| 0 <= l < t.lanes.len() implies lane_ok(#[trigger] t.lanes[l]) by {
            if l < s.lanes.len() {
                assert(lane_ok(s.lanes[l]));
            }
        }
        assert forall|id: Seq<char>| #[trigger] t.session_index.contains_key(id) implies state::locate(
            t,
            id,
        ) is Some by {
            lemma_located(s, id);
            lemma_first_where_push(s.lanes, state::at_path(s.session_index[id]), added);
        }
        assert forall|l: int| 0 <= l < t.lanes.len() implies agents_known(
            t,
            #[trigger] t.lanes[l],
        ) by {
            if l < s.lanes.len() {
                assert(agents_known(s, s.lanes[l]));
            }
        }
    }
}

/// One element more does not move a first position that was there already.
pub proof fn lemma_first_where_push<T>(s: Seq<T>, p: spec_fn(T) -> bool, x: T)
    requires
        seqs::first_where(s, p) < s.len(),
    ensures
        seqs::first_where(s.push(x), p) == seqs::first_where(s, p),
{
    let k = seqs::first_where(s, p);
    seqs::lemma_first_where(s, p);
    let next = s.push(x);
    assert forall|j: int| 0 <= j < k implies !p(#[trigger] next[j]) by {
        assert(!p(s[j]));
    }
    assert(p(s[k]));
    seqs::lemma_is_first(next, p, k);
}

/// More lanes keep the state well-formed.
pub proof fn law_discovered(s: SwarmView, paths: Seq<(Seq<char>, bool, Option<Seq<char>>)>)
    requires
        well_formed(s),
    ensures
        well_formed(SwarmView { lanes: state::lanes_discovered(s.lanes, paths), ..s }),
    decreases paths.len(),
{
    if paths.len() > 0 {
        law_discovered(s, paths.drop_last());
        let t = SwarmView { lanes: state::lanes_discovered(s.lanes, paths.drop_last()), ..s };
        law_lane_added(t, paths.last().0, paths.last().2, paths.last().1);
    }
}

/// A session with its place in the lane of its project keeps the state well-formed, and its agent
/// is found there.
pub proof fn law_session_placed(
    s: SwarmView,
    id: Seq<char>,
    path: Seq<char>,
    session_file: PathBuf,
    compose: Option<Seq<char>>,
    is_lead: bool,
    now: u64,
)
    requires
        well_formed(s),
    ensures
        well_formed(state::session_placed(s, id, path, session_file, compose, is_lead, now)),
{
    let lanes = state::lanes_with(s.lanes, path, compose, is_lead);
    let m = SwarmView { lanes, ..s };
    law_lane_added(s, path, compose, is_lead);
    let p = state::at_path(path);
    assert(seqs::any_where(lanes, p)) by {
        if !seqs::any_where(s.lanes, p) {
            assert(p(lanes[s.lanes.len() as int]));
        }
    }
    let l = state::lane_index(lanes, path);
    seqs::lemma_first_where(lanes, p);
    assert(p(lanes[l]));
    let t = state::session_placed(s, id, path, session_file, compose, is_lead, now);
    let joined = state::lane_joined(lanes[l], id, session_file, now);
    let q = state::of_session(id);
    assert(t.lanes == lanes.update(l, joined));
    assert(lane_ok(lanes[l]));
    assert(agents_known(m, lanes[l]));
    // The agents of the lane.
    assert(seqs::any_where(joined.agents, q)) by {
        if !seqs::any_where(lanes[l].agents, q) {
            assert(q(joined.agents[lanes[l].agents.len() as int]));
        }
    }
    assert(lane_ok(joined)) by {
        if seqs::any_where(lanes[l].agents, q) {
            lemma_same_lane_ok(lanes[l], joined);
        } else {
            let x = lanes[l].agents;
            let y = joined.agents;
            assert forall|i: int, j: int| 0 <= i < j < y.len() implies (
            #[trigger] y[i]).session_id != (#[trigger] y[j]).session_id by {
                assert(!q(x[i]));
            }
            assert forall|a: int| 0 <= a < y.len() implies distinct_calls(
                (#[trigger] y[a]).sub_agents,
            ) by {
                if a < x.len() {
                    assert(distinct_calls(x[a].sub_agents));
                }
            }
            assert forall|k: int| 0 <= k < joined.docker_stacks.len() implies lane::matches_project(
                joined,
                (#[trigger] joined.docker_stacks[k]).project_name,
            ) by {
                assert(lane::matches_project(lanes[l], lanes[l].docker_stacks[k].project_name));
            }
        }
    }
    // The lanes.
    assert forall|i: int, j: int| 0 <= i < j < t.lanes.len() implies (
    #[trigger] t.lanes[i]).project_path != (#[trigger] t.lanes[j]).project_path by {
        assert(lanes[i].project_path != lanes[j].project_path);
    }
    assert forall|i: int| 0 <= i < t.lanes.len() implies lane_ok(#[trigger] t.lanes[i]) by {
        assert(lane_ok(lanes[i]));
    }
    assert forall|i: int| 0 <= i < t.lanes.len() implies agents_known(t, #[trigger] t.lanes[i]) by {
        assert(agents_known(m, lanes[i]));
        assert forall|a: int| 0 <= a < t.lanes[i].agents.len() implies t.session_index.contains_key(
            (#[trigger] t.lanes[i].agents[a]).session_id,
        ) by {
            if a < lanes[i].agents.len() {
                assert(t.lanes[i].agents[a] == lanes[i].agents[a]);
            }
        }
    }
    // The sessions.
    assert forall|other: Seq<char>| #[trigger] t.session_index.contains_key(other) implies state::locate(
        t,
        other,
    ) is Some by {
        lemma_lane_index_update(lanes, l, joined, t.session_index[other]);
        if other == id {
            seqs::lemma_first_where(joined.agents, q);
        } else {
            assert(m.session_index.contains_key(other));
            lemma_located(m, other);
            let k = state::lane_index(lanes, m.session_index[other]);
            if k == l && !seqs::any_where(lanes[l].agents, q) {
                lemma_first_where_push(
                    lanes[l].agents,
                    state::of_session(other),
                    agent::new_agent(id, session_file, now),
                );
            }
        }
    }
}

/// A lane that keeps its project path keeps every lane's position.
proof fn lemma_lane_index_update(lanes: Seq<LaneView>, l: int, next: LaneView, path: Seq<char>)
    requires
        0 <= l < lanes.len(),
        next.project_path == lanes[l].project_path,
    ensures
        state::lane_index(lanes.update(l, next), path) == state::lane_index(lanes, path),
{
    let p = state::at_path(path);
    let k = state::lane_index(lanes, path);
    let updated = lanes.update(l, next);
    seqs::lemma_first_where(lanes, p);
    assert forall|j: int| 0 <= j < k implies !p(#[trigger] updated[j]) by {
        assert(!p(lanes[j]));
    }
    if k < lanes.len() {
        assert(p(lanes[k]));
        assert(p(updated[k]));
    }
    seqs::lemma_is_first(updated, p, k);
}

/// Taking in a session keeps the state well-formed.
pub proof fn law_session_registered(
    s: SwarmView,
    id: Seq<char>,
    path: Seq<char>,
    session_file: PathBuf,
    compose: Option<Seq<char>>,
    is_lead: bool,
    now: u64,
)
    requires
        well_formed(s),
    ensures
        well_formed(state::session_registered(s, id, path, session_file, compose, is_lead, now)),
{
    if !s.child_index.contains_key(id) {
        law_session_placed(s, id, path, session_file, compose, is_lead, now);
        let t = state::session_placed(s, id, path, session_file, compose, is_lead, now);
        law_rematched(t);
        law_pending_resolved(state::rematched(t));
    }
}

} // verus!

//! Laws of agents and their sub-agents: what each event does to them, and what it leaves alone.
use crate::agent;
use crate::agent::{AgentRole, AgentStatus, AgentView, SubAgentView};
use crate::app;
use crate::clock;
use crate::docker::DockerEventView;
use crate::lane;
use crate::lane::LaneView;
use crate::parser;
use crate::parser::{AgentEventView, Record};
use crate::seqs;
use crate::state;
use crate::state::{PendingView, SwarmView};
use crate::text;
use crate::validity;
use crate::watcher::WatchEventView;
use std::path::PathBuf;
use vstd::prelude::*;

verus! {

// ---------------------------------------------------------------------------------------------
// Sub-agents
// ---------------------------------------------------------------------------------------------

/// After an event of its session, a sub-agent's status is fixed by that event alone. Only the
/// spawning of another sub-agent keeps the status.
pub proof fn law_sub_status(sub: SubAgentView, event: AgentEventView, now: u64)
    ensures
        ({
            let status = agent::sub_after(sub, event, now).status;
            match event {
                AgentEventView::ToolCall { .. } => status == AgentStatus::Working,
                AgentEventView::ToolResult { is_error } => (is_error ==> status
                    == AgentStatus::Error) && (!is_error ==> status == AgentStatus::Working),
                AgentEventView::TextResponse { .. } => status == AgentStatus::WaitingForYou,
                AgentEventView::Completed { is_error } => (is_error ==> status
                    == AgentStatus::Error) && (!is_error ==> status == AgentStatus::Completed),
                AgentEventView::SpawnSubAgent { .. } => status == sub.status,
            }
        }),
{
}

/// Nothing but the end of its session without an error makes a sub-agent completed.
pub proof fn law_sub_completes_only_at_its_end(sub: SubAgentView, event: AgentEventView, now: u64)
    requires
        agent::sub_after(sub, event, now).status == AgentStatus::Completed,
    ensures
        event == (AgentEventView::Completed { is_error: false }) || (event is SpawnSubAgent
            && sub.status == AgentStatus::Completed),
{
}

/// An event of its session keeps who a sub-agent is and what it was asked, and is its last
/// activity. Only a tool call changes the tool, and it gives both the tool and its input.
pub proof fn law_sub_fields(sub: SubAgentView, event: AgentEventView, now: u64)
    ensures
        ({
            let next = agent::sub_after(sub, event, now);
            &&& next.task_tool_use_id == sub.task_tool_use_id
            &&& next.prompt_summary == sub.prompt_summary
            &&& next.session_id == sub.session_id
            &&& next.last_activity == Some(now)
            &&& match event {
                AgentEventView::ToolCall { tool_name, tool_input_summary } => next.last_tool
                    == Some(tool_name) && next.last_tool_input == Some(tool_input_summary),
                _ => next.last_tool == sub.last_tool && next.last_tool_input
                    == sub.last_tool_input,
            }
        }),
{
}

/// A sub-agent that has been spawned is at work and has done nothing yet.
pub proof fn law_new_sub(call: Seq<char>, prompt: Seq<char>, session: Option<Seq<char>>)
    ensures
        ({
            let sub = agent::new_sub(call, prompt, session);
            &&& sub.task_tool_use_id == call
            &&& sub.prompt_summary == prompt
            &&& sub.session_id == session
            &&& sub.status == AgentStatus::Working
            &&& sub.last_tool is None
            &&& sub.last_tool_input is None
            &&& sub.last_activity is None
        }),
{
}

// ---------------------------------------------------------------------------------------------
// Agents
// ---------------------------------------------------------------------------------------------

/// The agent of a new session is an idle worker that has done nothing yet.
pub proof fn law_new_agent(id: Seq<char>, file: PathBuf, now: u64)
    ensures
        ({
            let a = agent::new_agent(id, file, now);
            &&& a.session_id == id
            &&& a.session_file == file
            &&& a.role == AgentRole::Worker
            &&& a.status == AgentStatus::Idle
            &&& a.last_tool is None
            &&& a.last_tool_input is None
            &&& a.last_message is None
            &&& a.last_activity == now
            &&& a.sub_agents.len() == 0
            &&& !a.pending_tool
        }),
{
}

/// After an event of its session, an agent's status is fixed by that event alone.
pub proof fn law_agent_status(a: AgentView, event: AgentEventView, now: u64)
    ensures
        ({
            let status = agent::agent_after(a, event, now).status;
            match event {
                AgentEventView::ToolCall { .. } => status == AgentStatus::Working,
                AgentEventView::ToolResult { is_error } => (is_error ==> status
                    == AgentStatus::Error) && (!is_error ==> status == AgentStatus::Working),
                AgentEventView::TextResponse { .. } => status == AgentStatus::WaitingForYou,
                AgentEventView::SpawnSubAgent { .. } => status == AgentStatus::Working,
                AgentEventView::Completed { is_error } => (is_error ==> status
                    == AgentStatus::Error) && (!is_error ==> status == AgentStatus::Completed),
            }
        }),
{
}

/// A tool call is remembered with its input, is pending until its result, and clears the message;
/// a text is the message; every other event leaves both as they are.
pub proof fn law_agent_memory(a: AgentView, event: AgentEventView, now: u64)
    ensures
        ({
            let next = agent::agent_after(a, event, now);
            &&& next.last_activity == now
            &&& next.session_id == a.session_id
            &&& next.session_file == a.session_file
            &&& match event {
                AgentEventView::ToolCall { tool_name, tool_input_summary } => {
                    &&& next.last_tool == Some(tool_name)
                    &&& next.last_tool_input == Some(tool_input_summary)
                },
                _ => next.last_tool == a.last_tool && next.last_tool_input == a.last_tool_input,
            }
            &&& match event {
                AgentEventView::ToolCall { .. } => next.last_message is None,
                AgentEventView::TextResponse { text } => next.last_message == Some(text),
                _ => next.last_message == a.last_message,
            }
            &&& match event {
                AgentEventView::ToolCall { .. } => next.pending_tool,
                AgentEventView::SpawnSubAgent { .. } => next.pending_tool == a.pending_tool,
                _ => !next.pending_tool,
            }
        }),
{
}

/// Only a spawning event touches an agent's sub-agents: it makes the agent a lead, keeps all
/// sub-agents that were there, and leaves one of the call, which is new unless the call was known.
pub proof fn law_agent_spawning(a: AgentView, event: AgentEventView, now: u64)
    ensures
        ({
            let next = agent::agent_after(a, event, now);
            match event {
                AgentEventView::SpawnSubAgent { task_tool_use_id, prompt_summary } => {
                    let known = exists|i: int|
                        0 <= i < a.sub_agents.len() && (
                        #[trigger] a.sub_agents[i]).task_tool_use_id == task_tool_use_id;
                    &&& next.role == AgentRole::Lead
                    &&& known ==> next.sub_agents == a.sub_agents
                    &&& !known ==> {
                        let n = a.sub_agents.len() as int;
                        &&& next.sub_agents.len() == n + 1
                        &&& next.sub_agents.take(n) == a.sub_agents
                        &&& next.sub_agents[n].task_tool_use_id == task_tool_use_id
                        &&& next.sub_agents[n].prompt_summary == prompt_summary
                        &&& next.sub_agents[n].session_id is None
                        &&& next.sub_agents[n].status == AgentStatus::Working
                        &&& next.sub_agents[n].last_tool is None
                        &&& next.sub_agents[n].last_activity is None
                    }
                },
                _ => next.sub_agents == a.sub_agents && next.role == a.role,
            }
        }),
{
    if let AgentEventView::SpawnSubAgent { task_tool_use_id, prompt_summary } = event {
        let p = agent::spawned_by(task_tool_use_id);
        let next = agent::agent_after(a, event, now);
        let n = a.sub_agents.len() as int;
        if exists|i: int|
            0 <= i < a.sub_agents.len() && (#[trigger] a.sub_agents[i]).task_tool_use_id
                == task_tool_use_id {
            let i = choose|i: int|
                0 <= i < a.sub_agents.len() && (#[trigger] a.sub_agents[i]).task_tool_use_id
                    == task_tool_use_id;
            assert(p(a.sub_agents[i]));
        } else {
            assert(!seqs::any_where(a.sub_agents, p));
            assert(next.sub_agents.take(n) =~= a.sub_agents);
        }
    }
}

/// An event of a sub-agent's session changes that sub-agent as its own events do, and nothing else
/// of the agent; where no sub-agent has the session, nothing changes.
pub proof fn law_sub_event_stays_with_sub(
    a: AgentView,
    id: Seq<char>,
    event: AgentEventView,
    now: u64,
)
    ensures
        ({
            let next = agent::agent_after_sub(a, id, event, now);
            &&& next.session_id == a.session_id
            &&& next.session_file == a.session_file
            &&& next.role == a.role
            &&& next.status == a.status
            &&& next.last_tool == a.last_tool
            &&& next.last_tool_input == a.last_tool_input
            &&& next.last_message == a.last_message
            &&& next.last_activity == a.last_activity
            &&& next.pending_tool == a.pending_tool
            &&& next.sub_agents.len() == a.sub_agents.len()
            &&& forall|i: int|
                0 <= i < a.sub_agents.len() && a.sub_agents[i].session_id != Some(id)
                    ==> #[trigger] next.sub_agents[i] == a.sub_agents[i]
        }),
        forall|i: int|
            0 <= i < a.sub_agents.len() && a.sub_agents[i].session_id == Some(id) && (forall|j: int|
                0 <= j < i ==> (#[trigger] a.sub_agents[j]).session_id != Some(id))
                ==> #[trigger] agent::agent_after_sub(a, id, event, now).sub_agents[i]
                == agent::sub_after(a.sub_agents[i], event, now),
{
    let p = agent::in_session(id);
    let k = seqs::first_where(a.sub_agents, p);
    seqs::lemma_first_where(a.sub_agents, p);
    if k < a.sub_agents.len() {
        assert(p(a.sub_agents[k]));
    }
    let next = agent::agent_after_sub(a, id, event, now);
    assert forall|i: int|
        0 <= i < a.sub_agents.len() && a.sub_agents[i].session_id == Some(id) && (forall|j: int|
            0 <= j < i ==> (#[trigger] a.sub_agents[j]).session_id != Some(id)) implies #[trigger] next.sub_agents[i]
        == agent::sub_after(a.sub_agents[i], event, now) by {
        assert(p(a.sub_agents[i]));
        assert forall|j: int| 0 <= j < i implies !p(#[trigger] a.sub_agents[j]) by {}
        seqs::lemma_is_first(a.sub_agents, p, i);
    }
}

/// Adopting a child leaves an agent as it is but for its role and its sub-agents: the agent leads,
/// and has at its end a sub-agent at work whose call and session are the child's. A child that is
/// known as a call changes nothing.
pub proof fn law_adopted_child(a: AgentView, child: Seq<char>)
    ensures
        ({
            let next = agent::agent_adopting(a, child);
            let known = exists|i: int|
                0 <= i < a.sub_agents.len() && (#[trigger] a.sub_agents[i]).task_tool_use_id
                    == child;
            let n = a.sub_agents.len() as int;
            &&& known ==> next == a
            &&& !known ==> {
                &&& next.role == AgentRole::Lead
                &&& next.status == a.status
                &&& next.last_activity == a.last_activity
                &&& next.last_tool == a.last_tool
                &&& next.last_tool_input == a.last_tool_input
                &&& next.last_message == a.last_message
                &&& next.pending_tool == a.pending_tool
                &&& next.session_id == a.session_id
                &&& next.session_file == a.session_file
                &&& next.sub_agents.len() == n + 1
                &&& next.sub_agents.take(n) == a.sub_agents
                &&& next.sub_agents[n].task_tool_use_id == child
                &&& next.sub_agents[n].session_id == Some(child)
                &&& next.sub_agents[n].prompt_summary.len() == 0
                &&& next.sub_agents[n].status == AgentStatus::Working
                &&& next.sub_agents[n].last_tool is None
                &&& next.sub_agents[n].last_activity is None
            }
        }),
{
    let p = agent::spawned_by(child);
    let n = a.sub_agents.len() as int;
    if exists|i: int|
        0 <= i < a.sub_agents.len() && (#[trigger] a.sub_agents[i]).task_tool_use_id == child {
        let i = choose|i: int|
            0 <= i < a.sub_agents.len() && (#[trigger] a.sub_agents[i]).task_tool_use_id == child;
        assert(p(a.sub_agents[i]));
    } else {
        assert(!seqs::any_where(a.sub_agents, p));
        assert(agent::agent_adopting(a, child).sub_agents.take(n) =~= a.sub_agents);
    }
}

/// A working agent goes idle exactly when it has been quiet for more than half a minute, and keeps
/// everything else.
pub proof fn law_when_idle(a: AgentView, now: u64)
    ensures
        ({
            let next = agent::agent_refreshed(a, now);
            &&& a.status == AgentStatus::Working && now > a.last_activity + 30_000_000_000
                ==> next.status == AgentStatus::Idle
            &&& a.status == AgentStatus::Working && now <= a.last_activity + 30_000_000_000
                ==> next.status == AgentStatus::Working
            &&& a.status != AgentStatus::Working ==> next.status == a.status
            &&& next == (AgentView { status: next.status, ..a })
        }),
{
}

// ---------------------------------------------------------------------------------------------
// Time in words
// ---------------------------------------------------------------------------------------------

/// How long ago an agent was active is told in seconds up to a minute, in minutes and seconds up
/// to an hour, and then in hours.
pub proof fn law_agent_elapsed(a: AgentView, secs: nat, rest: nat)
    requires
        rest < 1_000_000_000,
        a.last_activity + secs * 1_000_000_000 + rest <= u64::MAX,
    ensures
        ({
            let now = (a.last_activity + secs * 1_000_000_000 + rest) as u64;
            let words = agent::agent_elapsed(a, now);
            &&& secs < 60 ==> words == text::decimal(secs) + "s ago"@
            &&& 60 <= secs < 3600 ==> words == text::decimal(secs / 60) + "m"@ + text::decimal(
                secs % 60,
            ) + "s ago"@
            &&& 3600 <= secs ==> words == text::decimal(secs / 3600) + "h ago"@
        }),
{
    let now = (a.last_activity + secs * 1_000_000_000 + rest) as u64;
    lemma_elapsed_secs(a.last_activity, secs, rest);
    assert(agent::elapsed_secs(a.last_activity, now) == secs);
}

/// How long ago a sub-agent was active is told in seconds up to a minute, and then in minutes and
/// seconds; of one that has never been active a dash is shown.
pub proof fn law_sub_elapsed(sub: SubAgentView, then: u64, secs: nat, rest: nat)
    requires
        rest < 1_000_000_000,
        then + secs * 1_000_000_000 + rest <= u64::MAX,
    ensures
        ({
            let now = (then + secs * 1_000_000_000 + rest) as u64;
            let words = agent::sub_elapsed(sub, now);
            &&& sub.last_activity is None ==> words == "—"@
            &&& sub.last_activity == Some(then) && secs < 60 ==> words == text::decimal(secs)
                + "s ago"@
            &&& sub.last_activity == Some(then) && 60 <= secs ==> words == text::decimal(secs / 60)
                + "m"@ + text::decimal(secs % 60) + "s ago"@
        }),
{
    let now = (then + secs * 1_000_000_000 + rest) as u64;
    lemma_elapsed_secs(then, secs, rest);
    assert(agent::elapsed_secs(then, now) == secs);
}

/// Time is counted exactly, as far as it can be counted.
pub proof fn law_counted(nanos: u128)
    ensures
        nanos <= u64::MAX ==> clock::counted(nanos) as u128 == nanos,
        nanos > u64::MAX ==> clock::counted(nanos) == u64::MAX,
{
}

/// What lies ahead is no time ago.
pub proof fn law_nothing_elapsed(a: AgentView, now: u64)
    requires
        now <= a.last_activity,
    ensures
        agent::agent_elapsed(a, now) == "0s ago"@,
{
    reveal_strlit("s ago");
    reveal_strlit("0s ago");
    assert(agent::elapsed(a.last_activity, now) == 0);
    assert(text::decimal(0) =~= seq!['0']);
    assert(agent::agent_elapsed(a, now) =~= "0s ago"@);
}

proof fn lemma_elapsed_secs(then: u64, secs: nat, rest: nat)
    requires
        rest < 1_000_000_000,
        then + secs * 1_000_000_000 + rest <= u64::MAX,
    ensures
        agent::elapsed_secs(then, (then + secs * 1_000_000_000 + rest) as u64) == secs,
{
    let now = (then + secs * 1_000_000_000 + rest) as u64;
    assert(now - then == secs * 1_000_000_000 + rest);
    assert((secs * 1_000_000_000 + rest) / 1_000_000_000 == secs) by (nonlinear_arith)
        requires
            rest < 1_000_000_000,
    ;
}

// ---------------------------------------------------------------------------------------------
// Lanes
// ---------------------------------------------------------------------------------------------

/// A new lane is of its project, is being scanned, and is empty.
pub proof fn law_new_lane(path: Seq<char>, compose: Option<Seq<char>>, is_lead: bool)
    ensures
        ({
            let l = lane::new_lane(path, compose, is_lead);
            &&& l.project_path == path
            &&& l.is_lead == is_lead
            &&& l.is_scanning
            &&& l.compose_project_name == compose
            &&& l.agents.len() == 0
            &&& l.docker_stacks.len() == 0
        }),
{
}

/// A project that has no lane gets one at the end, with its own lead mark and Compose project; one
/// that has a lane keeps it as it is. No other lane changes.
pub proof fn law_lane_for_project(
    lanes: Seq<LaneView>,
    path: Seq<char>,
    compose: Option<Seq<char>>,
    is_lead: bool,
)
    ensures
        ({
            let next = state::lanes_with(lanes, path, compose, is_lead);
            let known = exists|i: int|
                0 <= i < lanes.len() && (#[trigger] lanes[i]).project_path == path;
            &&& known ==> next == lanes
            &&& !known ==> {
                &&& next.len() == lanes.len() + 1
                &&& next.take(lanes.len() as int) == lanes
                &&& next.last().project_path == path
                &&& next.last().is_lead == is_lead
                &&& next.last().compose_project_name == compose
                &&& next.last().is_scanning
                &&& next.last().agents.len() == 0
                &&& next.last().docker_stacks.len() == 0
            }
        }),
{
    let p = state::at_path(path);
    if exists|i: int| 0 <= i < lanes.len() && (#[trigger] lanes[i]).project_path == path {
        let i = choose|i: int| 0 <= i < lanes.len() && (#[trigger] lanes[i]).project_path == path;
        assert(p(lanes[i]));
    } else {
        assert(!seqs::any_where(lanes, p));
        assert(state::lanes_with(lanes, path, compose, is_lead).take(lanes.len() as int) =~= lanes);
    }
}

/// Discovering projects one after the other is discovering them together.
pub proof fn law_discovery_in_pieces(
    lanes: Seq<LaneView>,
    first: Seq<(Seq<char>, bool, Option<Seq<char>>)>,
    second: Seq<(Seq<char>, bool, Option<Seq<char>>)>,
)
    ensures
        state::lanes_discovered(lanes, first + second) == state::lanes_discovered(
            state::lanes_discovered(lanes, first),
            second,
        ),
    decreases second.len(),
{
    if second.len() == 0 {
        assert(first + second =~= first);
    } else {
        law_discovery_in_pieces(lanes, first, second.drop_last());
        assert((first + second).drop_last() =~= first + second.drop_last());
        assert((first + second).last() == second.last());
    }
}

/// Discovering one project adds its lane, if it has none, with what is said of it.
pub proof fn law_discovery_of_one(
    lanes: Seq<LaneView>,
    path: Seq<char>,
    is_lead: bool,
    compose: Option<Seq<char>>,
)
    requires
        forall|i: int| 0 <= i < lanes.len() ==> (#[trigger] lanes[i]).project_path != path,
    ensures
        ({
            let next = state::lanes_discovered(lanes, seq![(path, is_lead, compose)]);
            &&& next.len() == lanes.len() + 1
            &&& next.last().project_path == path
            &&& next.last().is_lead == is_lead
            &&& next.last().compose_project_name == compose
        }),
{
    let one = seq![(path, is_lead, compose)];
    assert(one.drop_last() =~= Seq::empty());
    assert(one.last() == (path, is_lead, compose));
    reveal_with_fuel(state::lanes_discovered, 2);
    law_lane_for_project(lanes, path, compose, is_lead);
}

/// The end of the scan is the only thing that changes in every lane.
pub proof fn law_scan_ends(lanes: Seq<LaneView>)
    ensures
        state::lanes_scanned(lanes).len() == lanes.len(),
        forall|i: int|
            0 <= i < lanes.len() ==> {
                let next = #[trigger] state::lanes_scanned(lanes)[i];
                &&& !next.is_scanning
                &&& next == (LaneView { is_scanning: false, ..lanes[i] })
            },
{
}

/// Time changes the agents of every lane, and each of them as time does.
pub proof fn law_time_passes(lanes: Seq<LaneView>, now: u64)
    ensures
        ({
            let next = state::lanes_ticked(lanes, now);
            &&& next.len() == lanes.len()
            &&& forall|l: int|
                0 <= l < lanes.len() ==> #[trigger] next[l] == (LaneView {
                    agents: next[l].agents,
                    ..lanes[l]
                }) && next[l].agents.len() == lanes[l].agents.len()
            &&& forall|l: int, a: int|
                0 <= l < lanes.len() && 0 <= a < lanes[l].agents.len() && lanes[l].agents[a].status
                    == AgentStatus::Working && now > lanes[l].agents[a].last_activity
                    + 30_000_000_000 ==> (#[trigger] next[l].agents[a]).status == AgentStatus::Idle
            &&& forall|l: int, a: int|
                0 <= l < lanes.len() && 0 <= a < lanes[l].agents.len() && !(
                lanes[l].agents[a].status == AgentStatus::Working && now
                    > lanes[l].agents[a].last_activity + 30_000_000_000)
                    ==> #[trigger] next[l].agents[a] == lanes[l].agents[a]
        }),
{
    let next = state::lanes_ticked(lanes, now);
    assert forall|l: int, a: int|
        0 <= l < lanes.len() && 0 <= a < lanes[l].agents.len() implies #[trigger] next[l].agents[a]
        == agent::agent_refreshed(lanes[l].agents[a], now) by {}
}

// ---------------------------------------------------------------------------------------------
// Sessions and children
// ---------------------------------------------------------------------------------------------

/// A session of a project stands in the lane of the project, as a new agent where it had none
/// there; no other lane changes, and none of the agents that were there.
pub proof fn law_session_in_its_lane(
    s: SwarmView,
    id: Seq<char>,
    path: Seq<char>,
    file: PathBuf,
    compose: Option<Seq<char>>,
    is_lead: bool,
    now: u64,
)
    ensures
        ({
            let t = state::session_placed(s, id, path, file, compose, is_lead, now);
            let lanes = state::lanes_with(s.lanes, path, compose, is_lead);
            let l = state::lane_index(lanes, path);
            let before = lanes[l];
            let known = exists|a: int|
                0 <= a < before.agents.len() && (#[trigger] before.agents[a]).session_id == id;
            &&& t.session_index == s.session_index.insert(id, path)
            &&& t.child_index == s.child_index
            &&& t.pending == s.pending
            &&& t.unmatched == s.unmatched
            &&& t.docker_available == s.docker_available
            &&& t.lanes.len() == lanes.len()
            &&& 0 <= l < lanes.len()
            &&& before.project_path == path
            &&& forall|i: int| 0 <= i < lanes.len() && i != l ==> #[trigger] t.lanes[i] == lanes[i]
            &&& t.lanes[l] == (LaneView {
                is_scanning: false,
                agents: t.lanes[l].agents,
                ..before
            })
            &&& known ==> t.lanes[l].agents == before.agents
            &&& !known ==> {
                let n = before.agents.len() as int;
                &&& t.lanes[l].agents.len() == n + 1
                &&& t.lanes[l].agents.take(n) == before.agents
                &&& t.lanes[l].agents[n].session_id == id
                &&& t.lanes[l].agents[n].session_file == file
                &&& t.lanes[l].agents[n].status == AgentStatus::Idle
                &&& t.lanes[l].agents[n].role == AgentRole::Worker
                &&& t.lanes[l].agents[n].last_activity == now
                &&& t.lanes[l].agents[n].sub_agents.len() == 0
            }
        }),
{
    let lanes = state::lanes_with(s.lanes, path, compose, is_lead);
    let p = state::at_path(path);
    if !seqs::any_where(s.lanes, p) {
        assert(p(lanes[s.lanes.len() as int]));
    }
    let l = state::lane_index(lanes, path);
    seqs::lemma_first_where(lanes, p);
    assert(p(lanes[l]));
    let before = lanes[l];
    let q = state::of_session(id);
    let t = state::session_placed(s, id, path, file, compose, is_lead, now);
    let n = before.agents.len() as int;
    if exists|a: int| 0 <= a < before.agents.len() && (#[trigger] before.agents[a]).session_id == id {
        let a = choose|a: int|
            0 <= a < before.agents.len() && (#[trigger] before.agents[a]).session_id == id;
        assert(q(before.agents[a]));
    } else {
        assert(!seqs::any_where(before.agents, q));
        assert(t.lanes[l].agents.take(n) =~= before.agents);
    }
}

/// A session that is no child is placed in its lane, and then what waited is tried again: first the
/// stacks, then the children.
pub proof fn law_session_taken_in(
    s: SwarmView,
    id: Seq<char>,
    path: Seq<char>,
    file: PathBuf,
    compose: Option<Seq<char>>,
    is_lead: bool,
    now: u64,
)
    requires
        !s.child_index.contains_key(id),
        s.unmatched.len() == 0,
        s.pending.len() == 0,
    ensures
        ({
            let t = state::session_registered(s, id, path, file, compose, is_lead, now);
            let m = state::session_placed(s, id, path, file, compose, is_lead, now);
            &&& t.lanes == m.lanes
            &&& t.session_index == s.session_index.insert(id, path)
            &&& t.child_index == s.child_index
            &&& t.pending.len() == 0
            &&& t.unmatched.len() == 0
            &&& t.docker_available == s.docker_available
        }),
{
    let m = state::session_placed(s, id, path, file, compose, is_lead, now);
    assert(m.unmatched.take(0) =~= m.unmatched);
    state::lemma_distributed_none(m.lanes, m.unmatched);
}

/// A child that is linked by its parent's session is that parent's, and nothing else changes but
/// the parent's agent.
pub proof fn law_link_by_session(s: SwarmView, parent: Seq<char>, child: Seq<char>)
    ensures
        state::linked_by_session(s, parent, child) is Some <==> state::locate(s, parent) is Some,
        state::linked_by_session(s, parent, child) is Some ==> {
            let t = state::linked_by_session(s, parent, child)->0;
            let at = state::locate(s, parent)->0;
            &&& t.child_index == s.child_index.insert(child, parent)
            &&& t.session_index == s.session_index
            &&& t.pending == s.pending
            &&& t.unmatched == s.unmatched
            &&& t.docker_available == s.docker_available
            &&& t == (SwarmView {
                child_index: t.child_index,
                ..state::with_agent(s, at, state::agent_at(t, at))
            })
            &&& state::agent_at(t, at) == agent::agent_adopting(state::agent_at(s, at), child)
        },
{
    if state::locate(s, parent) is Some {
        validity::lemma_located(s, parent);
    }
}

/// A child that is linked by a call becomes the session of the first sub-agent that the call
/// spawned and that had none, and is its agent's; nothing else changes.
pub proof fn law_link_by_call(s: SwarmView, call: Seq<char>, child: Seq<char>)
    requires
        state::linked_by_call(s, call, child) is Some,
    ensures
        ({
            let t = state::linked_by_call(s, call, child)->0;
            let l = seqs::first_where(s.lanes, state::lane_awaits(call));
            let k = seqs::first_where(s.lanes[l].agents, state::agent_awaits(call));
            let before = state::agent_at(s, (l, k));
            let after = state::agent_at(t, (l, k));
            let i = seqs::first_where(before.sub_agents, agent::awaits(call));
            &&& t.child_index == s.child_index.insert(child, before.session_id)
            &&& t.session_index == s.session_index
            &&& t.pending == s.pending
            &&& t.unmatched == s.unmatched
            &&& t.docker_available == s.docker_available
            &&& t == (SwarmView {
                child_index: t.child_index,
                ..state::with_agent(s, (l, k), after)
            })
            &&& after == (AgentView { sub_agents: after.sub_agents, ..before })
            &&& after.sub_agents.len() == before.sub_agents.len()
            &&& 0 <= i < before.sub_agents.len()
            &&& before.sub_agents[i].task_tool_use_id == call
            &&& before.sub_agents[i].session_id is None
            &&& after.sub_agents[i] == (SubAgentView {
                session_id: Some(child),
                ..before.sub_agents[i]
            })
            &&& forall|j: int|
                0 <= j < before.sub_agents.len() && j != i ==> #[trigger] after.sub_agents[j]
                    == before.sub_agents[j]
        }),
{
    validity::lemma_awaiting(s, call);
}

/// The parent's session goes before the call where both would link a child; a child that neither
/// links waits, behind those that wait already, with all that is known of it.
pub proof fn law_how_a_child_is_linked(s: SwarmView, child: PendingView)
    ensures
        ({
            let t = state::linked_or_pending(s, child);
            let id = child.child_session_id;
            if child.parent_session_id is Some && state::locate(
                s,
                child.parent_session_id->0,
            ) is Some {
                t.child_index == s.child_index.insert(id, child.parent_session_id->0) && t.pending
                    == s.pending
            } else if child.parent_tool_use_id.len() > 0 && state::linked_by_call(
                s,
                child.parent_tool_use_id,
                id,
            ) is Some {
                Some(t) == state::linked_by_call(s, child.parent_tool_use_id, id)
            } else {
                t == (SwarmView { pending: t.pending, ..s }) && t.pending == s.pending.push(child)
            }
        }),
{
}

/// Children are taken in one after the other, in the order in which they came.
pub proof fn law_children_in_pieces(
    s: SwarmView,
    first: Seq<PendingView>,
    second: Seq<PendingView>,
)
    ensures
        state::resolved(s, first + second) == state::resolved(state::resolved(s, first), second),
    decreases second.len(),
{
    if second.len() == 0 {
        assert(first + second =~= first);
    } else {
        law_children_in_pieces(s, first, second.drop_last());
        assert((first + second).drop_last() =~= first + second.drop_last());
        assert((first + second).last() == second.last());
    }
}

/// Where one child waits, trying again is taking it in.
pub proof fn law_one_child_tried_again(s: SwarmView, child: PendingView)
    requires
        s.pending == seq![child],
    ensures
        state::pending_resolved(s) == state::linked_or_pending(
            SwarmView { pending: Seq::empty(), ..s },
            child,
        ),
{
    let one = seq![child];
    assert(one.drop_last() =~= Seq::empty());
    assert(one.last() == child);
    reveal_with_fuel(state::resolved, 2);
}

/// At first there is nothing, and the container engine is not known to be there.
pub proof fn law_empty_swarm(id: Seq<char>)
    ensures
        ({
            let s = state::empty_swarm();
            &&& s.lanes.len() == 0
            &&& s.pending.len() == 0
            &&& s.unmatched.len() == 0
            &&& !s.session_index.contains_key(id)
            &&& !s.child_index.contains_key(id)
            &&& !s.docker_available
        }),
{
}

/// Another agent at a place changes nothing but what is at that place.
pub proof fn law_agent_at_place(s: SwarmView, at: (int, int), a: AgentView)
    requires
        0 <= at.0 < s.lanes.len(),
        0 <= at.1 < s.lanes[at.0].agents.len(),
    ensures
        ({
            let t = state::with_agent(s, at, a);
            &&& t == (SwarmView { lanes: t.lanes, ..s })
            &&& t.lanes.len() == s.lanes.len()
            &&& state::agent_at(t, at) == a
            &&& state::agent_at(s, at) == s.lanes[at.0].agents[at.1]
            &&& forall|l: int|
                0 <= l < s.lanes.len() && l != at.0 ==> #[trigger] t.lanes[l] == s.lanes[l]
            &&& t.lanes[at.0] == (LaneView { agents: t.lanes[at.0].agents, ..s.lanes[at.0] })
            &&& t.lanes[at.0].agents.len() == s.lanes[at.0].agents.len()
            &&& forall|k: int|
                0 <= k < s.lanes[at.0].agents.len() && k != at.1
                    ==> #[trigger] t.lanes[at.0].agents[k] == s.lanes[at.0].agents[k]
        }),
{
}

// ---------------------------------------------------------------------------------------------
// Events of sessions
// ---------------------------------------------------------------------------------------------

/// An event of a session that is no child changes the agent of that session, as the agent's own
/// events do, and nothing else.
pub proof fn law_event_of_session(s: SwarmView, id: Seq<char>, event: AgentEventView, now: u64)
    requires
        !s.child_index.contains_key(id),
        state::locate(s, id) is Some,
    ensures
        ({
            let at = state::locate(s, id)->0;
            let t = state::swarm_after(s, id, event, now);
            &&& state::agent_at(s, at).session_id == id
            &&& state::agent_at(t, at) == agent::agent_after(state::agent_at(s, at), event, now)
            &&& t == state::with_agent(s, at, state::agent_at(t, at))
        }),
{
    validity::lemma_located(s, id);
}

/// An event of a child goes to the agent of its parent, and there to the child's sub-agent.
pub proof fn law_event_of_child(s: SwarmView, id: Seq<char>, event: AgentEventView, now: u64)
    requires
        s.child_index.contains_key(id),
        state::locate(s, s.child_index[id]) is Some,
    ensures
        ({
            let at = state::locate(s, s.child_index[id])->0;
            let t = state::swarm_after(s, id, event, now);
            &&& state::agent_at(s, at).session_id == s.child_index[id]
            &&& state::agent_at(t, at) == agent::agent_after_sub(
                state::agent_at(s, at),
                id,
                event,
                now,
            )
            &&& t == state::with_agent(s, at, state::agent_at(t, at))
        }),
{
    validity::lemma_located(s, s.child_index[id]);
}

/// The place of a session's agent is in the lane of the session's project: the first agent there
/// of that session.
pub proof fn law_located_in_project(s: SwarmView, id: Seq<char>)
    ensures
        !s.session_index.contains_key(id) ==> state::locate(s, id) is None,
        state::locate(s, id) is Some ==> {
            let at = state::locate(s, id)->0;
            &&& 0 <= at.0 < s.lanes.len()
            &&& s.lanes[at.0].project_path == s.session_index[id]
            &&& forall|l: int|
                0 <= l < at.0 ==> (#[trigger] s.lanes[l]).project_path != s.session_index[id]
            &&& 0 <= at.1 < s.lanes[at.0].agents.len()
            &&& s.lanes[at.0].agents[at.1].session_id == id
            &&& forall|a: int|
                0 <= a < at.1 ==> (#[trigger] s.lanes[at.0].agents[a]).session_id != id
        },
{
    if state::locate(s, id) is Some {
        let at = state::locate(s, id)->0;
        validity::lemma_located(s, id);
        let p = state::at_path(s.session_index[id]);
        let q = state::of_session(id);
        seqs::lemma_first_where(s.lanes, p);
        seqs::lemma_first_where(s.lanes[at.0].agents, q);
        assert forall|l: int| 0 <= l < at.0 implies (#[trigger] s.lanes[l]).project_path
            != s.session_index[id] by {
            assert(!p(s.lanes[l]));
        }
        assert forall|a: int| 0 <= a < at.1 implies (
        #[trigger] s.lanes[at.0].agents[a]).session_id != id by {
            assert(!q(s.lanes[at.0].agents[a]));
        }
    }
}

/// One event after others is the last of them all.
pub proof fn law_one_event_more(
    s: SwarmView,
    id: Seq<char>,
    events: Seq<AgentEventView>,
    event: AgentEventView,
    now: u64,
)
    ensures
        app::events_applied(s, id, Seq::empty(), now) == s,
        app::events_applied(s, id, events.push(event), now) == state::swarm_after(
            app::events_applied(s, id, events, now),
            id,
            event,
            now,
        ),
{
    assert(events.push(event).drop_last() =~= events);
    assert(events.push(event).last() == event);
}

/// A sub-agent of a call that has no session yet: the one at `i` of the agent at `k` of the lane at
/// `l`.
pub open spec fn waits_for_session(s: SwarmView, call: Seq<char>, l: int, k: int, i: int) -> bool {
    &&& 0 <= l < s.lanes.len()
    &&& 0 <= k < s.lanes[l].agents.len()
    &&& 0 <= i < s.lanes[l].agents[k].sub_agents.len()
    &&& s.lanes[l].agents[k].sub_agents[i].task_tool_use_id == call
    &&& s.lanes[l].agents[k].sub_agents[i].session_id is None
}

/// Where sub-agents of a call wait for a session, a child goes to the first of them: to the first
/// lane, there to the first agent, and there to the first sub-agent.
pub proof fn law_call_is_found(
    s: SwarmView,
    call: Seq<char>,
    child: Seq<char>,
    l: int,
    k: int,
    i: int,
)
    requires
        waits_for_session(s, call, l, k, i),
        forall|x: int, y: int, z: int| #[trigger]
            waits_for_session(s, call, x, y, z) ==> x > l || (x == l && (y > k || (y == k && z
                >= i))),
    ensures
        state::linked_by_call(s, call, child) is Some,
        ({
            let t = state::linked_by_call(s, call, child)->0;
            let a = s.lanes[l].agents[k];
            &&& t.child_index == s.child_index.insert(child, a.session_id)
            &&& t.lanes[l].agents[k].sub_agents == a.sub_agents.update(
                i,
                SubAgentView { session_id: Some(child), ..a.sub_agents[i] },
            )
        }),
{
    let in_lane = state::lane_awaits(call);
    let in_agent = state::agent_awaits(call);
    let p = agent::awaits(call);
    let agents = s.lanes[l].agents;
    let subs = agents[k].sub_agents;
    assert(p(subs[i]));
    assert(in_agent(agents[k]));
    assert(in_lane(s.lanes[l]));
    assert forall|x: int| 0 <= x < l implies !in_lane(#[trigger] s.lanes[x]) by {
        if in_lane(s.lanes[x]) {
            let y = seqs::first_where(s.lanes[x].agents, in_agent);
            seqs::lemma_first_where(s.lanes[x].agents, in_agent);
            assert(in_agent(s.lanes[x].agents[y]));
            let z = seqs::first_where(s.lanes[x].agents[y].sub_agents, p);
            seqs::lemma_first_where(s.lanes[x].agents[y].sub_agents, p);
            assert(p(s.lanes[x].agents[y].sub_agents[z]));
            assert(waits_for_session(s, call, x, y, z));
        }
    }
    seqs::lemma_is_first(s.lanes, in_lane, l);
    assert forall|y: int| 0 <= y < k implies !in_agent(#[trigger] agents[y]) by {
        if in_agent(agents[y]) {
            let z = seqs::first_where(agents[y].sub_agents, p);
            seqs::lemma_first_where(agents[y].sub_agents, p);
            assert(p(agents[y].sub_agents[z]));
            assert(waits_for_session(s, call, l, y, z));
        }
    }
    seqs::lemma_is_first(agents, in_agent, k);
    assert forall|z: int| 0 <= z < i implies !p(#[trigger] subs[z]) by {
        if p(subs[z]) {
            assert(waits_for_session(s, call, l, k, z));
        }
    }
    seqs::lemma_is_first(subs, p, i);
}

/// Where no sub-agent of a call waits for a session, the call links no child.
pub proof fn law_call_is_not_found(s: SwarmView, call: Seq<char>, child: Seq<char>)
    requires
        forall|l: int, k: int, i: int| !#[trigger] waits_for_session(s, call, l, k, i),
    ensures
        state::linked_by_call(s, call, child) is None,
{
    if state::linked_by_call(s, call, child) is Some {
        law_link_by_call(s, call, child);
        let l = seqs::first_where(s.lanes, state::lane_awaits(call));
        let k = seqs::first_where(s.lanes[l].agents, state::agent_awaits(call));
        let i = seqs::first_where(s.lanes[l].agents[k].sub_agents, agent::awaits(call));
        validity::lemma_awaiting(s, call);
        assert(waits_for_session(s, call, l, k, i));
    }
}

/// The first agent of a session in the first lane of the session's project is the agent of the
/// session.
pub proof fn law_session_is_located(s: SwarmView, id: Seq<char>, l: int, k: int)
    requires
        s.session_index.contains_key(id),
        0 <= l < s.lanes.len(),
        s.lanes[l].project_path == s.session_index[id],
        forall|x: int| 0 <= x < l ==> (#[trigger] s.lanes[x]).project_path != s.session_index[id],
        0 <= k < s.lanes[l].agents.len(),
        s.lanes[l].agents[k].session_id == id,
        forall|y: int| 0 <= y < k ==> (#[trigger] s.lanes[l].agents[y]).session_id != id,
    ensures
        state::locate(s, id) == Some((l, k)),
{
    let p = state::at_path(s.session_index[id]);
    let q = state::of_session(id);
    assert forall|x: int| 0 <= x < l implies !p(#[trigger] s.lanes[x]) by {}
    assert(p(s.lanes[l]));
    seqs::lemma_is_first(s.lanes, p, l);
    let agents = s.lanes[l].agents;
    assert forall|y: int| 0 <= y < k implies !q(#[trigger] agents[y]) by {
        assert(s.lanes[l].agents[y].session_id != id);
    }
    assert(q(agents[k]));
    seqs::lemma_is_first(agents, q, k);
}

/// An event of a child whose parent has no agent changes the agent of the child's own session, if
/// there is one.
pub proof fn law_event_of_orphan(s: SwarmView, id: Seq<char>, event: AgentEventView, now: u64)
    requires
        s.child_index.contains_key(id),
        state::locate(s, s.child_index[id]) is None,
    ensures
        ({
            let t = state::swarm_after(s, id, event, now);
            match state::locate(s, id) {
                Some(at) => {
                    &&& state::agent_at(t, at) == agent::agent_after(
                        state::agent_at(s, at),
                        event,
                        now,
                    )
                    &&& t == state::with_agent(s, at, state::agent_at(t, at))
                },
                None => t == s,
            }
        }),
{
    if state::locate(s, id) is Some {
        validity::lemma_located(s, id);
    }
}

// ---------------------------------------------------------------------------------------------
// What is reported
// ---------------------------------------------------------------------------------------------

/// The lanes that the watcher announces are discovered, and the end of its scan ends the scan of
/// every lane; neither touches anything else.
pub proof fn law_announcements(
    s: SwarmView,
    paths: Seq<(Seq<char>, bool, Option<Seq<char>>)>,
    now: u64,
)
    ensures
        ({
            let t = app::watch_applied(s, WatchEventView::LanesDiscovered { paths }, now);
            &&& t == (SwarmView { lanes: t.lanes, ..s })
            &&& t.lanes == state::lanes_discovered(s.lanes, paths)
        }),
        ({
            let t = app::watch_applied(s, WatchEventView::ScanComplete, now);
            &&& t == (SwarmView { lanes: t.lanes, ..s })
            &&& t.lanes.len() == s.lanes.len()
            &&& forall|i: int|
                0 <= i < s.lanes.len() ==> #[trigger] t.lanes[i] == (LaneView {
                    is_scanning: false,
                    ..s.lanes[i]
                })
        }),
{
}

/// A session that the watcher reports is taken in, with all that is reported of it, and then its
/// records are.
pub proof fn law_reported_session(
    s: SwarmView,
    id: Seq<char>,
    path: Seq<char>,
    file: PathBuf,
    records: Seq<Record>,
    compose: Option<Seq<char>>,
    is_lead: bool,
    now: u64,
)
    ensures
        app::watch_applied(
            s,
            WatchEventView::SessionUpdate {
                session_id: id,
                project_path: path,
                session_file: file,
                new_records: records,
                compose_project_name: compose,
                is_lead,
            },
            now,
        ) == app::events_applied(
            state::session_registered(s, id, path, file, compose, is_lead, now),
            id,
            parser::events_of(records),
            now,
        ),
{
}

/// A child that the watcher reports is taken in where its parent or its call is given, and in any
/// case its records are.
pub proof fn law_reported_child(
    s: SwarmView,
    call: Seq<char>,
    parent: Option<Seq<char>>,
    id: Seq<char>,
    file: PathBuf,
    records: Seq<Record>,
    now: u64,
)
    ensures
        ({
            let t = app::watch_applied(
                s,
                WatchEventView::ChildDiscovered {
                    parent_tool_use_id: call,
                    parent_session_id: parent,
                    child_session_id: id,
                    child_session_file: file,
                    new_records: records,
                },
                now,
            );
            let child = PendingView {
                parent_tool_use_id: call,
                parent_session_id: parent,
                child_session_id: id,
                child_session_file: file,
            };
            let events = parser::events_of(records);
            &&& call.len() == 0 && parent is None ==> t == app::events_applied(s, id, events, now)
            &&& call.len() > 0 || parent is Some ==> t == app::events_applied(
                state::linked_or_pending(s, child),
                id,
                events,
                now,
            )
        }),
{
}

/// What the container engine reports touches stacks alone: a snapshot replaces all of them, and a
/// change gives the first container of its identifier the new status.
pub proof fn law_reported_containers(s: SwarmView, event: DockerEventView)
    ensures
        ({
            let t = app::docker_applied(s, event);
            &&& t.session_index == s.session_index
            &&& t.child_index == s.child_index
            &&& t.pending == s.pending
            &&& t.lanes.len() == s.lanes.len()
            &&& forall|i: int|
                0 <= i < s.lanes.len() ==> #[trigger] t.lanes[i] == (LaneView {
                    docker_stacks: t.lanes[i].docker_stacks,
                    ..s.lanes[i]
                })
            &&& match event {
                DockerEventView::StacksSnapshot(stacks) => t.docker_available && t
                    == state::stacks_updated(s, stacks),
                DockerEventView::ContainerStateChange { container_id, new_status } => {
                    t.docker_available == s.docker_available && t.unmatched == s.unmatched
                        && t.lanes == state::container_changed(s.lanes, container_id, new_status)
                },
            }
        }),
{
    if let DockerEventView::ContainerStateChange { container_id, new_status } = event {
        seqs::lemma_first_where(s.lanes, state::lane_has(container_id));
    }
}

/// The lead is the path that was given, else the current directory, else the dot.
pub proof fn law_lead(given: Seq<char>, current: Seq<char>, other: Option<Seq<char>>)
    ensures
        app::lead_of(Some(given), other) == given,
        app::lead_of(None, Some(current)) == current,
        app::lead_of(None, None) == "."@,
{
}

} // verus!

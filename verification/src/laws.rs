//! Laws of the swarm: what its operations have to do with each other.
use crate::agent;
use crate::agent::{AgentStatus, AgentView};
use crate::app;
use crate::docker::{ContainerStatus, ContainerView, DockerEventView, StackView};
use crate::lane;
use crate::lane::LaneView;
use crate::order;
use crate::parser;
use crate::parser::{AgentEventView, Record};
use crate::seqs;
use crate::state;
use crate::state::{PendingView, SwarmView};
use crate::text;
use crate::validity;
use crate::watcher::WatchEventView;
use std::path::PathBuf;
use vstd::multiset::Multiset;
use vstd::prelude::*;

verus! {

// ---------------------------------------------------------------------------------------------
// Events
// ---------------------------------------------------------------------------------------------

/// An event changes at most one agent: every other agent, and everything else of its lane and of
/// the state, stays as it was.
pub proof fn law_event_changes_one_agent(s: SwarmView, id: Seq<char>, event: AgentEventView, now: u64)
    ensures
        ({
            let t = state::swarm_after(s, id, event, now);
            ||| t == s
            ||| exists|at: (int, int)|
                0 <= at.0 < s.lanes.len() && 0 <= at.1 < s.lanes[at.0].agents.len() && t
                    == state::with_agent(s, at, #[trigger] state::agent_at(t, at))
        }),
{
    let t = state::swarm_after(s, id, event, now);
    if s.child_index.contains_key(id) && state::locate(s, s.child_index[id]) is Some {
        let at = state::locate(s, s.child_index[id])->0;
        validity::lemma_located(s, s.child_index[id]);
        let a = agent::agent_after_sub(state::agent_at(s, at), id, event, now);
        assert(state::agent_at(t, at) == a);
        assert(t == state::with_agent(s, at, state::agent_at(t, at)));
    } else if state::locate(s, id) is Some {
        let at = state::locate(s, id)->0;
        validity::lemma_located(s, id);
        let a = agent::agent_after(state::agent_at(s, at), event, now);
        assert(state::agent_at(t, at) == a);
        assert(t == state::with_agent(s, at, state::agent_at(t, at)));
    }
}

/// An event of a session that is neither known nor linked to a parent changes nothing.
pub proof fn law_event_of_unknown_session(
    s: SwarmView,
    id: Seq<char>,
    event: AgentEventView,
    now: u64,
)
    requires
        !s.session_index.contains_key(id),
        !s.child_index.contains_key(id),
    ensures
        state::swarm_after(s, id, event, now) == s,
{
}

/// The status that an agent has after an event depends on that event alone.
pub open spec fn status_after(event: AgentEventView) -> AgentStatus {
    match event {
        AgentEventView::ToolCall { .. } => AgentStatus::Working,
        AgentEventView::ToolResult { is_error } => if is_error {
            AgentStatus::Error
        } else {
            AgentStatus::Working
        },
        AgentEventView::TextResponse { .. } => AgentStatus::WaitingForYou,
        AgentEventView::SpawnSubAgent { .. } => AgentStatus::Working,
        AgentEventView::Completed { is_error } => if is_error {
            AgentStatus::Error
        } else {
            AgentStatus::Completed
        },
    }
}

/// The agent of a session shows the status that the last event of the session gives it, and was
/// active when that came.
pub proof fn law_status_follows_last_event(
    s: SwarmView,
    id: Seq<char>,
    events: Seq<AgentEventView>,
    now: u64,
)
    requires
        events.len() > 0,
        !s.child_index.contains_key(id),
        state::locate(s, id) is Some,
    ensures
        ({
            let t = app::events_applied(s, id, events, now);
            let at = state::locate(s, id)->0;
            &&& state::locate(t, id) == Some(at)
            &&& state::agent_at(t, at).status == status_after(events.last())
            &&& state::agent_at(t, at).last_activity == now
        }),
{
    let front = events.drop_last();
    lemma_events_keep(s, id, front, now);
    let m = app::events_applied(s, id, front, now);
    validity::lemma_locate_same_shape(s, m, id);
    validity::lemma_located(m, id);
    let t = app::events_applied(s, id, events, now);
    validity::law_event(m, id, events.last(), now);
    validity::lemma_locate_same_shape(m, t, id);
}

/// Events keep the shape of the state and its children.
proof fn lemma_events_keep(s: SwarmView, id: Seq<char>, events: Seq<AgentEventView>, now: u64)
    ensures
        validity::same_shape(s, app::events_applied(s, id, events, now)),
        app::events_applied(s, id, events, now).child_index == s.child_index,
        app::events_applied(s, id, events, now).pending == s.pending,
        app::events_applied(s, id, events, now).unmatched == s.unmatched,
        validity::well_formed(s) ==> validity::well_formed(
            app::events_applied(s, id, events, now),
        ),
    decreases events.len(),
{
    if events.len() > 0 {
        let m = app::events_applied(s, id, events.drop_last(), now);
        lemma_events_keep(s, id, events.drop_last(), now);
        validity::law_event(m, id, events.last(), now);
        validity::lemma_same_shape_transitive(s, m, app::events_applied(s, id, events, now));
    }
}

/// Events in two batches do what they do in one.
pub proof fn law_batches(
    s: SwarmView,
    id: Seq<char>,
    first: Seq<AgentEventView>,
    second: Seq<AgentEventView>,
    now: u64,
)
    ensures
        app::events_applied(s, id, first + second, now) == app::events_applied(
            app::events_applied(s, id, first, now),
            id,
            second,
            now,
        ),
    decreases second.len(),
{
    if second.len() == 0 {
        assert(first + second =~= first);
    } else {
        law_batches(s, id, first, second.drop_last(), now);
        assert((first + second).drop_last() =~= first + second.drop_last());
        assert((first + second).last() == second.last());
    }
}

/// Records read in two pieces stand for the events that they stand for together.
pub proof fn law_events_of_pieces(first: Seq<Record>, second: Seq<Record>)
    ensures
        parser::events_of(first + second) == parser::events_of(first) + parser::events_of(second),
    decreases second.len(),
{
    if second.len() == 0 {
        assert(first + second =~= first);
        assert(parser::events_of(second) =~= Seq::empty());
        assert(parser::events_of(first) + Seq::<AgentEventView>::empty() =~= parser::events_of(
            first,
        ));
    } else {
        law_events_of_pieces(first, second.drop_last());
        assert((first + second).drop_last() =~= first + second.drop_last());
        assert((first + second).last() == second.last());
        assert(parser::events_of(first + second) =~= parser::events_of(first) + parser::events_of(
            second,
        ));
    }
}

// ---------------------------------------------------------------------------------------------
// Time
// ---------------------------------------------------------------------------------------------

/// Time turns working agents idle and does nothing else: an agent that waits for its user goes on
/// waiting, and so on. An agent that was active within the threshold goes on working.
pub proof fn law_only_work_goes_idle(a: AgentView, now: u64)
    ensures
        ({
            let b = agent::agent_refreshed(a, now);
            &&& b == a || b == (AgentView { status: AgentStatus::Idle, ..a })
            &&& a.status != AgentStatus::Working ==> b == a
            &&& agent::elapsed(a.last_activity, now) <= agent::IDLE_THRESHOLD_SECS
                * agent::NANOS_PER_SEC ==> b == a
        }),
{
}

/// Looking twice at one time is looking once.
pub proof fn law_tick_twice(lanes: Seq<LaneView>, now: u64)
    ensures
        state::lanes_ticked(state::lanes_ticked(lanes, now), now) == state::lanes_ticked(lanes, now),
{
    let once = state::lanes_ticked(lanes, now);
    let twice = state::lanes_ticked(once, now);
    assert forall|i: int| 0 <= i < lanes.len() implies #[trigger] twice[i] == once[i] by {
        assert(twice[i].agents =~= once[i].agents);
    }
    assert(twice =~= once);
}

// ---------------------------------------------------------------------------------------------
// Lanes
// ---------------------------------------------------------------------------------------------

/// Every lane that was there before a discovery is there after it, in its place.
pub proof fn law_discovery_keeps_lanes(
    lanes: Seq<LaneView>,
    paths: Seq<(Seq<char>, bool, Option<Seq<char>>)>,
)
    ensures
        lanes.is_prefix_of(state::lanes_discovered(lanes, paths)),
    decreases paths.len(),
{
    if paths.len() > 0 {
        law_discovery_keeps_lanes(lanes, paths.drop_last());
        let m = state::lanes_discovered(lanes, paths.drop_last());
        let t = state::lanes_discovered(lanes, paths);
        assert(t.take(lanes.len() as int) =~= m.take(lanes.len() as int));
        assert(lanes =~= t.take(lanes.len() as int));
    } else {
        assert(lanes =~= lanes.take(lanes.len() as int));
    }
}

/// Every project that is discovered has a lane.
pub proof fn law_discovered_projects_have_lanes(
    lanes: Seq<LaneView>,
    paths: Seq<(Seq<char>, bool, Option<Seq<char>>)>,
    i: int,
)
    requires
        0 <= i < paths.len(),
    ensures
        seqs::any_where(state::lanes_discovered(lanes, paths), state::at_path(paths[i].0)),
    decreases paths.len(),
{
    let p = state::at_path(paths[i].0);
    let m = state::lanes_discovered(lanes, paths.drop_last());
    let t = state::lanes_discovered(lanes, paths);
    if i == paths.len() - 1 {
        if !seqs::any_where(m, p) {
            assert(p(t[m.len() as int]));
        }
    } else {
        law_discovered_projects_have_lanes(lanes, paths.drop_last(), i);
        let k = choose|k: int| 0 <= k < m.len() && p(#[trigger] m[k]);
        assert(t[k] == m[k]);
    }
}

/// Discovering the same projects again changes nothing.
pub proof fn law_discovery_again(
    lanes: Seq<LaneView>,
    paths: Seq<(Seq<char>, bool, Option<Seq<char>>)>,
)
    ensures
        state::lanes_discovered(state::lanes_discovered(lanes, paths), paths)
            == state::lanes_discovered(lanes, paths),
{
    let t = state::lanes_discovered(lanes, paths);
    assert forall|i: int| 0 <= i < paths.len() implies #[trigger] seqs::any_where(
        t,
        state::at_path(paths[i].0),
    ) by {
        law_discovered_projects_have_lanes(lanes, paths, i);
    }
    lemma_nothing_to_discover(t, paths);
}

proof fn lemma_nothing_to_discover(
    lanes: Seq<LaneView>,
    paths: Seq<(Seq<char>, bool, Option<Seq<char>>)>,
)
    requires
        forall|i: int|
            0 <= i < paths.len() ==> #[trigger] seqs::any_where(lanes, state::at_path(paths[i].0)),
    ensures
        state::lanes_discovered(lanes, paths) == lanes,
    decreases paths.len(),
{
    if paths.len() > 0 {
        let front = paths.drop_last();
        assert forall|i: int| 0 <= i < front.len() implies #[trigger] seqs::any_where(
            lanes,
            state::at_path(front[i].0),
        ) by {
            assert(seqs::any_where(lanes, state::at_path(paths[i].0)));
        }
        lemma_nothing_to_discover(lanes, front);
        assert(seqs::any_where(lanes, state::at_path(paths[paths.len() - 1].0)));
    }
}

/// The lanes are shown with the lead before all others, and otherwise by the names of their
/// repositories.
pub proof fn law_lead_first(lanes: Seq<LaneView>, sorted: Seq<LaneView>)
    requires
        state::are_sorted_lanes(lanes, sorted),
    ensures
        forall|i: int, j: int|
            0 <= i < j < sorted.len() ==> {
                &&& (#[trigger] sorted[j]).is_lead ==> (#[trigger] sorted[i]).is_lead
                &&& sorted[i].is_lead == sorted[j].is_lead ==> text::text_le(
                    sorted[i].repo_name,
                    sorted[j].repo_name,
                )
            },
{
    let keys = state::lane_keys(lanes);
    let order = choose|order: Seq<usize>| #[trigger]
        order::is_order(keys, order) && sorted == order::permuted(lanes, order);
    assert forall|i: int, j: int| 0 <= i < j < sorted.len() implies {
        &&& (#[trigger] sorted[j]).is_lead ==> (#[trigger] sorted[i]).is_lead
        &&& sorted[i].is_lead == sorted[j].is_lead ==> text::text_le(
            sorted[i].repo_name,
            sorted[j].repo_name,
        )
    } by {
        assert(order::goes_before(keys, order[i] as int, order[j] as int));
    }
}

/// There is only one such order of the lanes.
pub proof fn law_lanes_have_one_order(lanes: Seq<LaneView>, a: Seq<LaneView>, b: Seq<LaneView>)
    requires
        state::are_sorted_lanes(lanes, a),
        state::are_sorted_lanes(lanes, b),
    ensures
        a == b,
{
    let keys = state::lane_keys(lanes);
    let x = choose|order: Seq<usize>| #[trigger]
        order::is_order(keys, order) && a == order::permuted(lanes, order);
    let y = choose|order: Seq<usize>| #[trigger]
        order::is_order(keys, order) && b == order::permuted(lanes, order);
    order::lemma_order_unique(keys, x, y);
}

/// As many lanes as can be counted are all shown, and nothing else is.
pub proof fn law_every_lane_is_shown(lanes: Seq<LaneView>, sorted: Seq<LaneView>)
    requires
        lanes.len() <= usize::MAX,
        state::are_sorted_lanes(lanes, sorted),
    ensures
        sorted.len() == lanes.len(),
        forall|i: int| 0 <= i < lanes.len() ==> sorted.contains(#[trigger] lanes[i]),
        forall|i: int| 0 <= i < sorted.len() ==> lanes.contains(#[trigger] sorted[i]),
{
    let keys = state::lane_keys(lanes);
    let order = choose|order: Seq<usize>| #[trigger]
        order::is_order(keys, order) && sorted == order::permuted(lanes, order);
    assert forall|i: int| 0 <= i < lanes.len() implies sorted.contains(#[trigger] lanes[i]) by {
        assert(order.contains(i as usize));
        let k = choose|k: int| 0 <= k < order.len() && order[k] == i as usize;
        assert(sorted[k] == lanes[i]);
    }
    assert forall|i: int| 0 <= i < sorted.len() implies lanes.contains(#[trigger] sorted[i]) by {
        assert(sorted[i] == lanes[order[i] as int]);
    }
}

/// Every lane of `a` is there in `b`, at the same position.
pub open spec fn keeps_lanes(a: Seq<LaneView>, b: Seq<LaneView>) -> bool {
    &&& a.len() <= b.len()
    &&& forall|i: int|
        0 <= i < a.len() ==> (#[trigger] a[i]).project_path == b[i].project_path
}

proof fn lemma_same_shape_keeps_lanes(a: SwarmView, b: SwarmView, c: SwarmView)
    requires
        keeps_lanes(a.lanes, b.lanes),
        validity::same_shape(b, c),
    ensures
        keeps_lanes(a.lanes, c.lanes),
{
    assert forall|i: int| 0 <= i < a.lanes.len() implies (#[trigger] a.lanes[i]).project_path
        == c.lanes[i].project_path by {
        assert(validity::same_lane(b.lanes[i], c.lanes[i]));
    }
}

/// No lane ever goes: whatever the watcher reports, every lane is there afterwards, and at the
/// same position.
pub proof fn law_lanes_stay(s: SwarmView, event: WatchEventView, now: u64)
    ensures
        keeps_lanes(s.lanes, app::watch_applied(s, event, now).lanes),
{
    let t = app::watch_applied(s, event, now);
    match event {
        WatchEventView::LanesDiscovered { paths } => {
            law_discovery_keeps_lanes(s.lanes, paths);
            assert forall|i: int| 0 <= i < s.lanes.len() implies (
            #[trigger] s.lanes[i]).project_path == t.lanes[i].project_path by {
                assert(s.lanes[i] == t.lanes[i]);
            }
        },
        WatchEventView::ScanComplete => {},
        WatchEventView::SessionUpdate {
            session_id,
            project_path,
            session_file,
            new_records,
            compose_project_name,
            is_lead,
        } => {
            let r = state::session_registered(
                s,
                session_id,
                project_path,
                session_file,
                compose_project_name,
                is_lead,
                now,
            );
            if !s.child_index.contains_key(session_id) {
                let m = state::session_placed(
                    s,
                    session_id,
                    project_path,
                    session_file,
                    compose_project_name,
                    is_lead,
                    now,
                );
                lemma_placed_lane(s, project_path, compose_project_name, is_lead);
                assert(keeps_lanes(s.lanes, m.lanes));
                validity::law_rematched(m);
                lemma_same_shape_keeps_lanes(s, m, state::rematched(m));
                validity::law_pending_resolved(state::rematched(m));
                lemma_same_shape_keeps_lanes(s, state::rematched(m), r);
            }
            lemma_events_keep(r, session_id, parser::events_of(new_records), now);
            lemma_same_shape_keeps_lanes(s, r, t);
        },
        WatchEventView::ChildDiscovered {
            parent_tool_use_id,
            parent_session_id,
            child_session_id,
            child_session_file,
            new_records,
        } => {
            let child = PendingView {
                parent_tool_use_id,
                parent_session_id,
                child_session_id,
                child_session_file,
            };
            let linked = state::linked_or_pending(s, child);
            validity::law_child(s, child);
            lemma_same_shape_keeps_lanes(s, s, linked);
            let m = if parent_tool_use_id.len() > 0 || parent_session_id is Some {
                linked
            } else {
                s
            };
            lemma_events_keep(m, child_session_id, parser::events_of(new_records), now);
            lemma_same_shape_keeps_lanes(s, m, t);
        },
    }
}

/// Nor does any go for what the container engine reports.
pub proof fn law_lanes_stay_for_containers(s: SwarmView, event: DockerEventView)
    ensures
        keeps_lanes(s.lanes, app::docker_applied(s, event).lanes),
{
    match event {
        DockerEventView::StacksSnapshot(stacks) => {
            validity::law_stacks_updated(s, stacks);
        },
        DockerEventView::ContainerStateChange { container_id, new_status } => {
            validity::law_container_changed(s, container_id, new_status);
        },
    }
    lemma_same_shape_keeps_lanes(s, s, app::docker_applied(s, event));
}

// ---------------------------------------------------------------------------------------------
// Children
// ---------------------------------------------------------------------------------------------

/// A child that is linked never becomes an agent of its own: once it is linked, taking in its
/// session changes nothing.
pub proof fn law_linked_child_is_no_agent(
    s: SwarmView,
    child: PendingView,
    path: Seq<char>,
    session_file: PathBuf,
    compose: Option<Seq<char>>,
    is_lead: bool,
    now: u64,
)
    requires
        state::linked(s, child) is Some,
    ensures
        ({
            let t = state::linked_or_pending(s, child);
            &&& t.child_index.contains_key(child.child_session_id)
            &&& state::session_registered(
                t,
                child.child_session_id,
                path,
                session_file,
                compose,
                is_lead,
                now,
            ) == t
        }),
{
}

/// A child that is linked stays linked, whatever children come after it.
pub proof fn law_children_stay_linked(s: SwarmView, children: Seq<PendingView>, id: Seq<char>)
    requires
        s.child_index.contains_key(id),
    ensures
        state::resolved(s, children).child_index.contains_key(id),
    decreases children.len(),
{
    if children.len() > 0 {
        law_children_stay_linked(s, children.drop_last(), id);
    }
}

/// A child that is linked stays linked, whatever sessions come after it.
pub proof fn law_sessions_keep_children(
    s: SwarmView,
    child: Seq<char>,
    id: Seq<char>,
    path: Seq<char>,
    session_file: PathBuf,
    compose: Option<Seq<char>>,
    is_lead: bool,
    now: u64,
)
    requires
        s.child_index.contains_key(child),
    ensures
        state::session_registered(
            s,
            id,
            path,
            session_file,
            compose,
            is_lead,
            now,
        ).child_index.contains_key(child),
{
    if !s.child_index.contains_key(id) {
        let t = state::rematched(
            state::session_placed(s, id, path, session_file, compose, is_lead, now),
        );
        law_children_stay_linked(
            SwarmView { pending: Seq::empty(), ..t },
            t.pending,
            child,
        );
    }
}

/// Once a child has been linked by its parent's session, the parent leads, and an event of the
/// child goes to the sub-agent that stands for it. This is so where the parent has no sub-agent
/// under the child's session yet.
pub proof fn law_child_events_reach_sub_agent(
    s: SwarmView,
    parent: Seq<char>,
    child: Seq<char>,
    event: AgentEventView,
    now: u64,
)
    requires
        state::locate(s, parent) is Some,
        !seqs::any_where(
            state::agent_at(s, state::locate(s, parent)->0).sub_agents,
            agent::spawned_by(child),
        ),
        !seqs::any_where(
            state::agent_at(s, state::locate(s, parent)->0).sub_agents,
            agent::in_session(child),
        ),
    ensures
        ({
            let at = state::locate(s, parent)->0;
            let t = state::linked_by_session(s, parent, child)->0;
            let u = state::swarm_after(t, child, event, now);
            let n = state::agent_at(s, at).sub_agents.len() as int;
            let a = state::agent_at(u, at);
            &&& a.role == agent::AgentRole::Lead
            &&& a.sub_agents.len() == n + 1
            &&& a.sub_agents[n] == agent::sub_after(
                agent::new_sub(child, Seq::empty(), Some(child)),
                event,
                now,
            )
        }),
{
    let at = state::locate(s, parent)->0;
    validity::lemma_located(s, parent);
    let before = state::agent_at(s, at);
    let adopted = agent::agent_adopting(before, child);
    let t = state::linked_by_session(s, parent, child)->0;
    validity::law_adoption(before, child);
    validity::lemma_with_agent(s, at, adopted);
    assert(validity::same_shape(s, t));
    validity::lemma_locate_same_shape(s, t, parent);
    let n = before.sub_agents.len() as int;
    let p = agent::in_session(child);
    let subs = adopted.sub_agents;
    assert forall|j: int| 0 <= j < n implies !p(#[trigger] subs[j]) by {
        assert(!p(before.sub_agents[j]));
    }
    assert(p(subs[n]));
    seqs::lemma_is_first(subs, p, n);
}

/// Once a child has been linked by the tool call that spawned it, an event of the child goes to
/// the first sub-agent of its session, and there is one. This is so where the agent of the parent
/// is the one that its session is known by.
pub proof fn law_spawned_child_has_sub_agent(
    s: SwarmView,
    call: Seq<char>,
    child: Seq<char>,
    event: AgentEventView,
    now: u64,
)
    requires
        state::linked_by_call(s, call, child) is Some,
        ({
            let l = seqs::first_where(s.lanes, state::lane_awaits(call));
            let k = seqs::first_where(s.lanes[l].agents, state::agent_awaits(call));
            state::locate(s, s.lanes[l].agents[k].session_id) == Some((l, k))
        }),
    ensures
        ({
            let l = seqs::first_where(s.lanes, state::lane_awaits(call));
            let k = seqs::first_where(s.lanes[l].agents, state::agent_awaits(call));
            let t = state::linked_by_call(s, call, child)->0;
            let subs = state::agent_at(t, (l, k)).sub_agents;
            let i = seqs::first_where(subs, agent::in_session(child));
            &&& i < subs.len()
            &&& state::agent_at(state::swarm_after(t, child, event, now), (l, k)).sub_agents
                == subs.update(i, agent::sub_after(subs[i], event, now))
        }),
{
    validity::lemma_awaiting(s, call);
    let l = seqs::first_where(s.lanes, state::lane_awaits(call));
    let k = seqs::first_where(s.lanes[l].agents, state::agent_awaits(call));
    let a = s.lanes[l].agents[k];
    let j = seqs::first_where(a.sub_agents, agent::awaits(call));
    let next = state::agent_linking(a, call, child);
    let t = state::linked_by_call(s, call, child)->0;
    validity::lemma_with_agent(s, (l, k), next);
    assert(validity::same_shape(s, t));
    validity::lemma_locate_same_shape(s, t, a.session_id);
    assert(agent::in_session(child)(next.sub_agents[j]));
    seqs::lemma_first_where(next.sub_agents, agent::in_session(child));
}

/// Some sub-agent of a tool call waits for its session.
pub open spec fn is_awaited(s: SwarmView, call: Seq<char>) -> bool {
    seqs::any_where(s.lanes, state::lane_awaits(call))
}

/// Another agent makes no one wait who was not waiting before.
proof fn lemma_with_agent_awaits(s: SwarmView, at: (int, int), next: AgentView, call: Seq<char>)
    requires
        0 <= at.0 < s.lanes.len(),
        0 <= at.1 < s.lanes[at.0].agents.len(),
        forall|i: int|
            0 <= i < next.sub_agents.len() && agent::awaits(call)(#[trigger] next.sub_agents[i])
                ==> seqs::any_where(state::agent_at(s, at).sub_agents, agent::awaits(call)),
    ensures
        is_awaited(state::with_agent(s, at, next), call) ==> is_awaited(s, call),
{
    let t = state::with_agent(s, at, next);
    let p = state::lane_awaits(call);
    let q = state::agent_awaits(call);
    if is_awaited(t, call) {
        let l = choose|l: int| 0 <= l < t.lanes.len() && p(#[trigger] t.lanes[l]);
        if l == at.0 {
            let agents = t.lanes[l].agents;
            let k = choose|k: int| 0 <= k < agents.len() && q(#[trigger] agents[k]);
            if k == at.1 {
                let i = choose|i: int|
                    0 <= i < next.sub_agents.len() && agent::awaits(call)(
                        #[trigger] next.sub_agents[i],
                    );
                assert(seqs::any_where(state::agent_at(s, at).sub_agents, agent::awaits(call)));
            }
            assert(q(s.lanes[l].agents[k]));
        }
        assert(p(s.lanes[l]));
    }
}

/// Linking a child makes no one wait who was not waiting before.
proof fn lemma_linked_awaits(s: SwarmView, child: PendingView, call: Seq<char>)
    requires
        state::linked(s, child) is Some,
    ensures
        is_awaited(state::linked(s, child)->0, call) ==> is_awaited(s, call),
{
    let id = child.child_session_id;
    let by_session = match child.parent_session_id {
        Some(parent) => state::linked_by_session(s, parent, id),
        None => None,
    };
    if by_session is Some {
        let parent = child.parent_session_id->0;
        validity::lemma_located(s, parent);
        let at = state::locate(s, parent)->0;
        let a = state::agent_at(s, at);
        let next = agent::agent_adopting(a, id);
        assert forall|i: int|
            0 <= i < next.sub_agents.len() && agent::awaits(call)(
                #[trigger] next.sub_agents[i],
            ) implies seqs::any_where(a.sub_agents, agent::awaits(call)) by {
            assert(next.sub_agents[i] == a.sub_agents[i]);
        }
        lemma_with_agent_awaits(s, at, next, call);
    } else {
        let spawned = child.parent_tool_use_id;
        validity::lemma_awaiting(s, spawned);
        let l = seqs::first_where(s.lanes, state::lane_awaits(spawned));
        let k = seqs::first_where(s.lanes[l].agents, state::agent_awaits(spawned));
        let a = s.lanes[l].agents[k];
        let next = state::agent_linking(a, spawned, id);
        assert forall|i: int|
            0 <= i < next.sub_agents.len() && agent::awaits(call)(
                #[trigger] next.sub_agents[i],
            ) implies seqs::any_where(a.sub_agents, agent::awaits(call)) by {
            assert(next.sub_agents[i] == a.sub_agents[i]);
        }
        lemma_with_agent_awaits(s, (l, k), next, call);
    }
}

/// A child can be linked where its parent's agent is there, or where a sub-agent of the call that
/// spawned it waits.
pub proof fn law_when_linked(s: SwarmView, child: PendingView)
    ensures
        state::linked(s, child) is Some <==> {
            ||| child.parent_session_id is Some && state::locate(
                s,
                child.parent_session_id->0,
            ) is Some
            ||| child.parent_tool_use_id.len() > 0 && is_awaited(s, child.parent_tool_use_id)
        },
{
    seqs::lemma_first_where(s.lanes, state::lane_awaits(child.parent_tool_use_id));
}

/// A child that cannot be linked cannot be linked after another has been taken in.
proof fn lemma_stays_unlinked(s: SwarmView, other: PendingView, child: PendingView)
    requires
        state::linked(s, child) is None,
    ensures
        state::linked(state::linked_or_pending(s, other), child) is None,
{
    let t = state::linked_or_pending(s, other);
    law_when_linked(s, child);
    law_when_linked(t, child);
    validity::law_child(s, other);
    if child.parent_session_id is Some {
        validity::lemma_locate_same_shape(s, t, child.parent_session_id->0);
    }
    if state::linked(s, other) is Some {
        lemma_linked_awaits(s, other, child.parent_tool_use_id);
    }
}

/// Every child that waits cannot be linked yet.
pub open spec fn waits_rightly(s: SwarmView) -> bool {
    forall|i: int|
        0 <= i < s.pending.len() ==> state::linked(s, #[trigger] s.pending[i]) is None
}

/// Taking in children leaves waiting only those that cannot be linked.
pub proof fn law_resolved_waits_rightly(s: SwarmView, children: Seq<PendingView>)
    requires
        waits_rightly(s),
    ensures
        waits_rightly(state::resolved(s, children)),
    decreases children.len(),
{
    if children.len() > 0 {
        law_resolved_waits_rightly(s, children.drop_last());
        let m = state::resolved(s, children.drop_last());
        let last = children.last();
        let t = state::resolved(s, children);
        assert forall|i: int| 0 <= i < t.pending.len() implies state::linked(
            t,
            #[trigger] t.pending[i],
        ) is None by {
            if i < m.pending.len() {
                assert(t.pending[i] == m.pending[i]);
                lemma_stays_unlinked(m, last, m.pending[i]);
            } else {
                assert(t.pending[i] == last);
                lemma_stays_unlinked(m, last, last);
            }
        }
    }
}

/// Once a session has been taken in, no child waits that could be linked: none whose parent's
/// agent is there, and none of a call whose sub-agent waits.
pub proof fn law_session_ends_waiting(
    s: SwarmView,
    id: Seq<char>,
    path: Seq<char>,
    session_file: PathBuf,
    compose: Option<Seq<char>>,
    is_lead: bool,
    now: u64,
)
    requires
        !s.child_index.contains_key(id),
    ensures
        waits_rightly(
            state::session_registered(s, id, path, session_file, compose, is_lead, now),
        ),
{
    let t = state::rematched(
        state::session_placed(s, id, path, session_file, compose, is_lead, now),
    );
    law_resolved_waits_rightly(SwarmView { pending: Seq::empty(), ..t }, t.pending);
}

/// Children that cannot be linked all wait.
proof fn lemma_all_wait(s: SwarmView, children: Seq<PendingView>)
    requires
        forall|i: int|
            0 <= i < children.len() ==> state::linked(s, #[trigger] children[i]) is None,
    ensures
        state::resolved(s, children) == (SwarmView { pending: s.pending + children, ..s }),
    decreases children.len(),
{
    if children.len() == 0 {
        assert(s.pending + children =~= s.pending);
    } else {
        let front = children.drop_last();
        assert forall|i: int| 0 <= i < front.len() implies state::linked(
            s,
            #[trigger] front[i],
        ) is None by {
            assert(front[i] == children[i]);
        }
        lemma_all_wait(s, front);
        let m = state::resolved(s, front);
        let last = children[children.len() - 1];
        assert(state::linked(s, last) is None);
        law_when_linked(s, last);
        law_when_linked(m, last);
        assert(validity::same_shape(s, m)) by {
            validity::law_resolved(s, front);
        }
        if last.parent_session_id is Some {
            validity::lemma_locate_same_shape(s, m, last.parent_session_id->0);
        }
        assert((s.pending + front).push(last) =~= s.pending + children);
    }
}

// ---------------------------------------------------------------------------------------------
// Stacks
// ---------------------------------------------------------------------------------------------

/// The stacks of all lanes.
pub open spec fn stacks_of_lanes(lanes: Seq<LaneView>) -> Multiset<StackView>
    decreases lanes.len(),
{
    if lanes.len() == 0 {
        Multiset::empty()
    } else {
        stacks_of_lanes(lanes.drop_last()).add(lanes.last().docker_stacks.to_multiset())
    }
}

/// One stack more in a lane is one stack more in all.
proof fn lemma_stack_added(lanes: Seq<LaneView>, l: int, stack: StackView)
    requires
        0 <= l < lanes.len(),
    ensures
        stacks_of_lanes(
            lanes.update(
                l,
                LaneView { docker_stacks: lanes[l].docker_stacks.push(stack), ..lanes[l] },
            ),
        ) == stacks_of_lanes(lanes).insert(stack),
    decreases lanes.len(),
{
    broadcast use vstd::seq_lib::group_to_multiset_ensures;

    let lane = LaneView { docker_stacks: lanes[l].docker_stacks.push(stack), ..lanes[l] };
    let next = lanes.update(l, lane);
    let n = lanes.len() - 1;
    if l == n {
        assert(next.drop_last() =~= lanes.drop_last());
        assert(stacks_of_lanes(next) =~= stacks_of_lanes(lanes).insert(stack));
    } else {
        lemma_stack_added(lanes.drop_last(), l, stack);
        assert(next.drop_last() =~= lanes.drop_last().update(l, lane));
        assert(stacks_of_lanes(next) =~= stacks_of_lanes(lanes).insert(stack));
    }
}

/// Giving stacks to lanes loses none and makes none up: those in the lanes and those left over are
/// those that were in the lanes and those that were given.
pub proof fn law_no_stack_is_lost(lanes: Seq<LaneView>, stacks: Seq<StackView>)
    ensures
        stacks_of_lanes(state::distributed(lanes, stacks)).add(
            state::left_over(lanes, stacks).to_multiset(),
        ) == stacks_of_lanes(lanes).add(stacks.to_multiset()),
{
    lemma_no_stack_is_lost(lanes, stacks, stacks.len() as int);
    assert(stacks.take(stacks.len() as int) =~= stacks);
}

proof fn lemma_no_stack_is_lost(lanes: Seq<LaneView>, stacks: Seq<StackView>, k: int)
    requires
        0 <= k <= stacks.len(),
    ensures
        stacks_of_lanes(state::distributed(lanes, stacks.take(k))).add(
            state::left_over(lanes, stacks.take(k)).to_multiset(),
        ) == stacks_of_lanes(lanes).add(stacks.take(k).to_multiset()),
    decreases k,
{
    broadcast use vstd::seq_lib::group_to_multiset_ensures;

    if k == 0 {
        state::lemma_distributed_none(lanes, stacks);
        assert(stacks.take(0) =~= Seq::empty());
    } else {
        let stack = stacks[k - 1];
        let given = stacks.take(k - 1);
        lemma_no_stack_is_lost(lanes, stacks, k - 1);
        state::lemma_distributed_next(lanes, stacks, k - 1);
        let l = seqs::first_where(lanes, state::takes(stack.project_name));
        seqs::lemma_first_where(lanes, state::takes(stack.project_name));
        let before = state::distributed(lanes, given);
        assert(stacks.take(k) =~= given.push(stack));
        let left = state::left_over(lanes, given);
        let total = stacks_of_lanes(lanes);
        assert(total.add(given.push(stack).to_multiset()) =~= total.add(
            given.to_multiset(),
        ).insert(stack));
        if l < lanes.len() {
            lemma_stack_added(before, l, stack);
            assert(stacks_of_lanes(before).insert(stack).add(left.to_multiset())
                =~= stacks_of_lanes(before).add(left.to_multiset()).insert(stack));
        } else {
            assert(stacks_of_lanes(before).add(left.push(stack).to_multiset())
                =~= stacks_of_lanes(before).add(left.to_multiset()).insert(stack));
        }
    }
}

/// After a snapshot the stacks are those of the snapshot, in the lanes or left over.
pub proof fn law_snapshot_is_all(s: SwarmView, stacks: Seq<StackView>)
    ensures
        ({
            let t = state::stacks_updated(s, stacks);
            stacks_of_lanes(t.lanes).add(t.unmatched.to_multiset()) == stacks.to_multiset()
        }),
{
    let cleared = state::lanes_cleared(s.lanes);
    law_no_stack_is_lost(cleared, stacks);
    lemma_no_stacks(cleared);
    assert forall|i: int| 0 <= i < s.lanes.len() implies (
    #[trigger] s.lanes[i]).compose_project_name == cleared[i].compose_project_name by {}
    state::lemma_left_over_same(s.lanes, cleared, stacks);
    assert(stacks_of_lanes(cleared).add(stacks.to_multiset()) =~= stacks.to_multiset());
}

proof fn lemma_no_stacks(lanes: Seq<LaneView>)
    requires
        forall|i: int| 0 <= i < lanes.len() ==> (#[trigger] lanes[i]).docker_stacks.len() == 0,
    ensures
        stacks_of_lanes(lanes) == Multiset::<StackView>::empty(),
    decreases lanes.len(),
{
    broadcast use vstd::seq_lib::group_to_multiset_ensures;

    if lanes.len() > 0 {
        let front = lanes.drop_last();
        assert forall|i: int| 0 <= i < front.len() implies (#[trigger] front[i]).docker_stacks.len()
            == 0 by {
            assert(front[i] == lanes[i]);
        }
        lemma_no_stacks(front);
        assert(lanes[lanes.len() - 1].docker_stacks =~= Seq::empty());
        assert(stacks_of_lanes(lanes) =~= Multiset::empty());
    }
}

/// A snapshot replaces the one before it.
pub proof fn law_last_snapshot_counts(s: SwarmView, first: Seq<StackView>, second: Seq<StackView>)
    ensures
        state::stacks_updated(state::stacks_updated(s, first), second) == state::stacks_updated(
            s,
            second,
        ),
{
    let m = state::stacks_updated(s, first);
    let a = state::lanes_cleared(s.lanes);
    let b = state::lanes_cleared(m.lanes);
    assert(a =~= b);
    assert forall|i: int| 0 <= i < s.lanes.len() implies (
    #[trigger] s.lanes[i]).compose_project_name == m.lanes[i].compose_project_name by {}
    state::lemma_left_over_same(s.lanes, m.lanes, second);
}

/// No stack that is left over has a lane.
pub open spec fn stacks_settled(s: SwarmView) -> bool {
    forall|k: int|
        0 <= k < s.unmatched.len() ==> !seqs::any_where(
            s.lanes,
            state::takes((#[trigger] s.unmatched[k]).project_name),
        )
}

/// Lanes that are given stacks take the same stacks after it, so those left over have none.
proof fn lemma_left_over_settled(lanes: Seq<LaneView>, after: Seq<LaneView>, stacks: Seq<StackView>)
    requires
        lanes.len() == after.len(),
        forall|i: int|
            0 <= i < lanes.len() ==> #[trigger] lanes[i].compose_project_name
                == after[i].compose_project_name,
    ensures
        forall|k: int|
            0 <= k < state::left_over(lanes, stacks).len() ==> !seqs::any_where(
                after,
                state::takes((#[trigger] state::left_over(lanes, stacks)[k]).project_name),
            ),
{
    let left = state::left_over(lanes, stacks);
    let n = lanes.len() as int;
    assert forall|k: int| 0 <= k < left.len() implies !seqs::any_where(
        after,
        state::takes((#[trigger] left[k]).project_name),
    ) by {
        stacks.lemma_filter_pred(state::owned_by(lanes, n), k);
        state::lemma_same_projects(lanes, after, left[k].project_name);
        seqs::lemma_first_where(after, state::takes(left[k].project_name));
    }
}

/// After a snapshot, no stack is left over that has a lane.
pub proof fn law_snapshot_settles(s: SwarmView, stacks: Seq<StackView>)
    ensures
        stacks_settled(state::stacks_updated(s, stacks)),
{
    let t = state::stacks_updated(s, stacks);
    assert forall|i: int| 0 <= i < s.lanes.len() implies (
    #[trigger] s.lanes[i]).compose_project_name == t.lanes[i].compose_project_name by {}
    lemma_left_over_settled(s.lanes, t.lanes, stacks);
}

/// Once a session has been taken in, no stack is left over that has a lane.
pub proof fn law_session_settles(
    s: SwarmView,
    id: Seq<char>,
    path: Seq<char>,
    session_file: PathBuf,
    compose: Option<Seq<char>>,
    is_lead: bool,
    now: u64,
)
    requires
        !s.child_index.contains_key(id),
    ensures
        stacks_settled(
            state::session_registered(s, id, path, session_file, compose, is_lead, now),
        ),
{
    let m = state::session_placed(s, id, path, session_file, compose, is_lead, now);
    let r = state::rematched(m);
    let t = state::pending_resolved(r);
    lemma_resolved_keeps(SwarmView { pending: Seq::empty(), ..r }, r.pending);
    assert forall|i: int| 0 <= i < m.lanes.len() implies (
    #[trigger] m.lanes[i]).compose_project_name == t.lanes[i].compose_project_name by {
        assert(only_agents_differ(r.lanes[i], t.lanes[i]));
    }
    lemma_left_over_settled(m.lanes, t.lanes, m.unmatched);
}

/// Where a container's status changes, nothing else does: no lane, stack or container comes or
/// goes, each keeps its name, and no container of another identifier changes. A container that no
/// lane has changes nothing.
pub proof fn law_container_status_only(
    lanes: Seq<LaneView>,
    id: Seq<char>,
    status: ContainerStatus,
)
    ensures
        ({
            let next = state::container_changed(lanes, id, status);
            &&& next.len() == lanes.len()
            &&& !seqs::any_where(lanes, state::lane_has(id)) ==> next == lanes
            &&& forall|l: int|
                0 <= l < lanes.len() ==> {
                    &&& (#[trigger] next[l]).agents == lanes[l].agents
                    &&& next[l].project_path == lanes[l].project_path
                    &&& next[l].docker_stacks.len() == lanes[l].docker_stacks.len()
                }
            &&& forall|l: int, k: int|
                0 <= l < lanes.len() && 0 <= k < lanes[l].docker_stacks.len() ==> {
                    &&& (#[trigger] next[l].docker_stacks[k]).project_name
                        == lanes[l].docker_stacks[k].project_name
                    &&& next[l].docker_stacks[k].containers.len()
                        == lanes[l].docker_stacks[k].containers.len()
                }
            &&& forall|l: int, k: int, c: int|
                0 <= l < lanes.len() && 0 <= k < lanes[l].docker_stacks.len() && 0 <= c
                    < lanes[l].docker_stacks[k].containers.len() ==> {
                    let before = lanes[l].docker_stacks[k].containers[c];
                    let after = #[trigger] next[l].docker_stacks[k].containers[c];
                    after == before || before.id == id && after == (ContainerView {
                        status,
                        ..before
                    })
                }
        }),
{
    let next = state::container_changed(lanes, id, status);
    let l = seqs::first_where(lanes, state::lane_has(id));
    seqs::lemma_first_where(lanes, state::lane_has(id));
    if l < lanes.len() {
        assert(state::lane_has(id)(lanes[l]));
        let stacks = lanes[l].docker_stacks;
        seqs::lemma_first_where(stacks, state::stack_has(id));
        let k = seqs::first_where(stacks, state::stack_has(id));
        assert(state::stack_has(id)(stacks[k]));
        let containers = stacks[k].containers;
        seqs::lemma_first_where(containers, state::with_id(id));
        assert(state::with_id(id)(
            containers[seqs::first_where(containers, state::with_id(id))],
        ));
    }
}

// ---------------------------------------------------------------------------------------------
// Sessions
// ---------------------------------------------------------------------------------------------

/// Two lanes that differ in their agents alone.
pub open spec fn only_agents_differ(a: LaneView, b: LaneView) -> bool {
    b == (LaneView { agents: b.agents, ..a })
}

/// Linking a child changes nothing of the lanes but their agents.
proof fn lemma_linked_keeps(s: SwarmView, child: PendingView)
    requires
        state::linked(s, child) is Some,
    ensures
        ({
            let t = state::linked(s, child)->0;
            &&& t.lanes.len() == s.lanes.len()
            &&& forall|i: int|
                0 <= i < s.lanes.len() ==> only_agents_differ(s.lanes[i], #[trigger] t.lanes[i])
        }),
{
    let by_session = match child.parent_session_id {
        Some(parent) => state::linked_by_session(s, parent, child.child_session_id),
        None => None,
    };
    if by_session is Some {
        validity::lemma_located(s, child.parent_session_id->0);
    } else {
        validity::lemma_awaiting(s, child.parent_tool_use_id);
    }
}

/// Children change nothing of the lanes but their agents, and nothing of the stacks left over.
proof fn lemma_resolved_keeps(s: SwarmView, children: Seq<PendingView>)
    ensures
        ({
            let t = state::resolved(s, children);
            &&& t.lanes.len() == s.lanes.len()
            &&& forall|i: int|
                0 <= i < s.lanes.len() ==> only_agents_differ(s.lanes[i], #[trigger] t.lanes[i])
            &&& t.unmatched == s.unmatched
            &&& t.session_index == s.session_index
            &&& t.docker_available == s.docker_available
        }),
    decreases children.len(),
{
    if children.len() > 0 {
        lemma_resolved_keeps(s, children.drop_last());
        let m = state::resolved(s, children.drop_last());
        let t = state::resolved(s, children);
        if state::linked(m, children.last()) is Some {
            lemma_linked_keeps(m, children.last());
        }
        assert forall|i: int| 0 <= i < s.lanes.len() implies only_agents_differ(
            s.lanes[i],
            #[trigger] t.lanes[i],
        ) by {
            assert(only_agents_differ(s.lanes[i], m.lanes[i]));
        }
    }
}

/// Once a session that is no child has been taken in, it has its agent, in a lane of its project
/// that is not being scanned any more, and is known by that project.
pub proof fn law_session_has_agent(
    s: SwarmView,
    id: Seq<char>,
    path: Seq<char>,
    session_file: PathBuf,
    compose: Option<Seq<char>>,
    is_lead: bool,
    now: u64,
)
    requires
        validity::well_formed(s),
        !s.child_index.contains_key(id),
    ensures
        ({
            let t = state::session_registered(s, id, path, session_file, compose, is_lead, now);
            &&& state::locate(t, id) is Some
            &&& t.lanes[(state::locate(t, id)->0).0].project_path == path
            &&& !t.lanes[(state::locate(t, id)->0).0].is_scanning
            &&& state::agent_at(t, state::locate(t, id)->0).session_id == id
        }),
{
    let m = state::session_placed(s, id, path, session_file, compose, is_lead, now);
    let r = state::rematched(m);
    let e = SwarmView { pending: Seq::empty(), ..r };
    let t = state::resolved(e, r.pending);
    validity::law_session_placed(s, id, path, session_file, compose, is_lead, now);
    validity::law_rematched(m);
    validity::law_pending_resolved(r);
    assert(m.session_index.contains_key(id));
    validity::lemma_locate_same_shape(m, r, id);
    validity::lemma_locate_same_shape(r, t, id);
    validity::lemma_located(t, id);
    lemma_resolved_keeps(e, r.pending);
    let at = state::locate(t, id)->0;
    assert(only_agents_differ(e.lanes[at.0], t.lanes[at.0]));
    lemma_placed_lane(s, path, compose, is_lead);
}

/// The lane of a project is found once it has been added.
proof fn lemma_placed_lane(
    s: SwarmView,
    path: Seq<char>,
    compose: Option<Seq<char>>,
    is_lead: bool,
)
    ensures
        ({
            let lanes = state::lanes_with(s.lanes, path, compose, is_lead);
            let l = state::lane_index(lanes, path);
            0 <= l < lanes.len() && lanes[l].project_path == path
        }),
{
    let lanes = state::lanes_with(s.lanes, path, compose, is_lead);
    let p = state::at_path(path);
    if !seqs::any_where(s.lanes, p) {
        assert(p(lanes[s.lanes.len() as int]));
    }
    seqs::lemma_first_where(lanes, p);
    assert(p(lanes[state::lane_index(lanes, path)]));
}

/// What the watcher reports of a session is shown: the agent of the session has the status that
/// the last event of its new records gives it, and was active when they came.
pub proof fn law_session_update_is_shown(
    s: SwarmView,
    id: Seq<char>,
    path: Seq<char>,
    session_file: PathBuf,
    records: Seq<Record>,
    compose: Option<Seq<char>>,
    is_lead: bool,
    now: u64,
)
    requires
        validity::well_formed(s),
        parser::events_of(records).len() > 0,
        !state::session_registered(
            s,
            id,
            path,
            session_file,
            compose,
            is_lead,
            now,
        ).child_index.contains_key(id),
    ensures
        ({
            let t = app::watch_applied(
                s,
                WatchEventView::SessionUpdate {
                    session_id: id,
                    project_path: path,
                    session_file,
                    new_records: records,
                    compose_project_name: compose,
                    is_lead,
                },
                now,
            );
            &&& validity::well_formed(t)
            &&& state::locate(t, id) is Some
            &&& state::agent_at(t, state::locate(t, id)->0).status == status_after(
                parser::events_of(records).last(),
            )
            &&& state::agent_at(t, state::locate(t, id)->0).last_activity == now
        }),
{
    let m = state::session_registered(s, id, path, session_file, compose, is_lead, now);
    if s.child_index.contains_key(id) {
        assert(m == s);
    }
    law_session_has_agent(s, id, path, session_file, compose, is_lead, now);
    validity::law_session_registered(s, id, path, session_file, compose, is_lead, now);
    law_status_follows_last_event(m, id, parser::events_of(records), now);
    lemma_events_keep(m, id, parser::events_of(records), now);
}

/// Taking in a session again, of the same project, changes nothing, whatever else is said of it.
pub proof fn law_session_again(
    s: SwarmView,
    id: Seq<char>,
    path: Seq<char>,
    first: (PathBuf, Option<Seq<char>>, bool, u64),
    again: (PathBuf, Option<Seq<char>>, bool, u64),
)
    requires
        validity::well_formed(s),
    ensures
        ({
            let t = state::session_registered(s, id, path, first.0, first.1, first.2, first.3);
            state::session_registered(t, id, path, again.0, again.1, again.2, again.3) == t
        }),
{
    let t = state::session_registered(s, id, path, first.0, first.1, first.2, first.3);
    if !s.child_index.contains_key(id) && !t.child_index.contains_key(id) {
        law_session_has_agent(s, id, path, first.0, first.1, first.2, first.3);
        law_session_settles(s, id, path, first.0, first.1, first.2, first.3);
        law_session_ends_waiting(s, id, path, first.0, first.1, first.2, first.3);
        lemma_session_index(s, id, path, first.0, first.1, first.2, first.3);
        // Its place is there already.
        let at = state::locate(t, id)->0;
        validity::lemma_located(t, id);
        let p = state::at_path(path);
        assert(p(t.lanes[at.0]));
        let lanes = state::lanes_with(t.lanes, path, again.1, again.2);
        assert(lanes == t.lanes);
        assert(state::lane_index(lanes, path) == at.0);
        assert(state::of_session(id)(t.lanes[at.0].agents[at.1]));
        let joined = state::lane_joined(lanes[at.0], id, again.0, again.3);
        assert(joined == t.lanes[at.0]);
        assert(lanes.update(at.0, joined) =~= t.lanes);
        assert(t.session_index.insert(id, path) =~= t.session_index);
        let m = state::session_placed(t, id, path, again.0, again.1, again.2, again.3);
        assert(m == t);
        // Nothing is left that has a lane.
        lemma_settled_rematched(t);
        // Nobody waits who could be linked.
        let e = SwarmView { pending: Seq::empty(), ..t };
        assert forall|i: int| 0 <= i < t.pending.len() implies state::linked(
            e,
            #[trigger] t.pending[i],
        ) is None by {
            law_when_linked(t, t.pending[i]);
            law_when_linked(e, t.pending[i]);
            if t.pending[i].parent_session_id is Some {
                assert(validity::same_shape(t, e));
                validity::lemma_locate_same_shape(t, e, t.pending[i].parent_session_id->0);
            }
        }
        lemma_all_wait(e, t.pending);
        assert(e.pending + t.pending =~= t.pending);
    }
}

proof fn lemma_session_index(
    s: SwarmView,
    id: Seq<char>,
    path: Seq<char>,
    session_file: PathBuf,
    compose: Option<Seq<char>>,
    is_lead: bool,
    now: u64,
)
    requires
        !s.child_index.contains_key(id),
    ensures
        state::session_registered(s, id, path, session_file, compose, is_lead, now).session_index
            == s.session_index.insert(id, path),
{
    let r = state::rematched(
        state::session_placed(s, id, path, session_file, compose, is_lead, now),
    );
    lemma_resolved_keeps(SwarmView { pending: Seq::empty(), ..r }, r.pending);
}

/// Where no stack that is left over has a lane, trying them again changes nothing.
pub proof fn lemma_settled_rematched(s: SwarmView)
    requires
        stacks_settled(s),
    ensures
        state::rematched(s) == s,
{
    let n = s.lanes.len() as int;
    assert forall|k: int| 0 <= k < s.unmatched.len() implies seqs::first_where(
        s.lanes,
        state::takes((#[trigger] s.unmatched[k]).project_name),
    ) == n by {
        seqs::lemma_first_where(s.lanes, state::takes(s.unmatched[k].project_name));
    }
    let t = state::rematched(s);
    assert forall|i: int| 0 <= i < n implies #[trigger] t.lanes[i] == s.lanes[i] by {
        assert forall|k: int| 0 <= k < s.unmatched.len() implies !state::owned_by(s.lanes, i)(
            #[trigger] s.unmatched[k],
        ) by {}
        seqs::lemma_filter_no_match(s.unmatched, state::owned_by(s.lanes, i));
        assert(t.lanes[i].docker_stacks =~= s.lanes[i].docker_stacks);
    }
    assert(t.lanes =~= s.lanes);
    assert forall|k: int| 0 <= k < s.unmatched.len() implies state::owned_by(s.lanes, n)(
        #[trigger] s.unmatched[k],
    ) by {}
    seqs::lemma_filter_all(s.unmatched, state::owned_by(s.lanes, n));
}

} // verus!

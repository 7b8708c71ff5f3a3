//! The application: what its events do to the state of the swarm, and what it shows.
use crate::assistant::{Assistant, AssistantView};
use crate::clock::Clock;
use crate::detail;
use crate::docker::{DockerEvent, DockerEventView};
use crate::lane::{LaneView, RepoLane};
use crate::layout::Area;
use crate::nav;
use crate::nav::{Key, Nav, Screen};
use crate::paint::{Line, Placed, PlacedView};
use crate::parser;
use crate::parser::{AgentEvent, AgentEventView, Record};
use crate::state;
use crate::state::{PendingView, SwarmState, SwarmView};
use crate::ui;
use crate::validity;
use crate::watcher::{WatchEvent, WatchEventView};
use vstd::prelude::*;

verus! {

// ---------------------------------------------------------------------------------------------
// Events
// ---------------------------------------------------------------------------------------------

/// The state after events of a session, one after the other.
pub open spec fn events_applied(
    s: SwarmView,
    id: Seq<char>,
    events: Seq<AgentEventView>,
    now: u64,
) -> SwarmView
    decreases events.len(),
{
    if events.len() == 0 {
        s
    } else {
        state::swarm_after(
            events_applied(s, id, events.drop_last(), now),
            id,
            events.last(),
            now,
        )
    }
}

/// The state after an event of the watcher. A session is taken in, and then what its new records
/// say. So is a child, but nothing is to be linked where neither its parent's session nor the call
/// that spawned it is given.
pub open spec fn watch_applied(s: SwarmView, event: WatchEventView, now: u64) -> SwarmView {
    match event {
        WatchEventView::LanesDiscovered { paths } => SwarmView {
            lanes: state::lanes_discovered(s.lanes, paths),
            ..s
        },
        WatchEventView::ScanComplete => SwarmView { lanes: state::lanes_scanned(s.lanes), ..s },
        WatchEventView::SessionUpdate {
            session_id,
            project_path,
            session_file,
            new_records,
            compose_project_name,
            is_lead,
        } => events_applied(
            state::session_registered(
                s,
                session_id,
                project_path,
                session_file,
                compose_project_name,
                is_lead,
                now,
            ),
            session_id,
            parser::events_of(new_records),
            now,
        ),
        WatchEventView::ChildDiscovered {
            parent_tool_use_id,
            parent_session_id,
            child_session_id,
            child_session_file,
            new_records,
        } => events_applied(
            if parent_tool_use_id.len() > 0 || parent_session_id is Some {
                state::linked_or_pending(
                    s,
                    PendingView {
                        parent_tool_use_id,
                        parent_session_id,
                        child_session_id,
                        child_session_file,
                    },
                )
            } else {
                s
            },
            child_session_id,
            parser::events_of(new_records),
            now,
        ),
    }
}

/// The state after an event of the container engine.
pub open spec fn docker_applied(s: SwarmView, event: DockerEventView) -> SwarmView {
    match event {
        DockerEventView::StacksSnapshot(stacks) => state::stacks_updated(s, stacks),
        DockerEventView::ContainerStateChange { container_id, new_status } => SwarmView {
            lanes: state::container_changed(s.lanes, container_id, new_status),
            ..s
        },
    }
}

/// Takes in what the new records of a session say.
fn apply_records(state: &mut SwarmState, session_id: &str, records: &Vec<Record>, now: u64)
    ensures
        final(state)@ == events_applied(
            old(state)@,
            session_id@,
            parser::events_of(records@),
            now,
        ),
        validity::well_formed(old(state)@) ==> validity::well_formed(final(state)@),
{
    let events: Vec<AgentEvent> = parser::extract_events(records.as_slice());
    let ghost before = state@;
    let ghost all = events.deep_view();
    assert(all.take(0).len() == 0);
    for event in it: events
        invariant
            all.len() == it.seq().len(),
            forall|i: int| 0 <= i < all.len() ==> #[trigger] all[i] == it.seq()[i]@,
            state@ == events_applied(before, session_id@, all.take(it.index() as int), now),
            validity::well_formed(before) ==> validity::well_formed(state@),
    {
        let ghost at = it.index() as int;
        proof {
            assert(all[at] == event@);
            assert(all.take(at + 1).drop_last() =~= all.take(at));
            assert(all.take(at + 1).last() == all[at]);
        }
        state.apply_event(session_id, event, now);
    }
    assert(all.take(all.len() as int) =~= all);
}

/// Takes in an event of the watcher.
pub fn apply_watch_event(state: &mut SwarmState, event: WatchEvent, now: u64)
    ensures
        final(state)@ == watch_applied(old(state)@, event@, now),
        validity::well_formed(old(state)@) ==> validity::well_formed(final(state)@),
{
    match event {
        WatchEvent::LanesDiscovered { paths } => {
            state.discover_lanes(paths);
        },
        WatchEvent::ScanComplete => {
            state.mark_scan_complete();
        },
        WatchEvent::SessionUpdate {
            session_id,
            project_path,
            session_file,
            new_records,
            compose_project_name,
            is_lead,
        } => {
            state.register_session(
                &session_id,
                &project_path,
                session_file,
                compose_project_name,
                is_lead,
                now,
            );
            apply_records(state, &session_id, &new_records, now);
        },
        WatchEvent::ChildDiscovered {
            parent_tool_use_id,
            parent_session_id,
            child_session_id,
            child_session_file,
            new_records,
        } => {
            if !parent_tool_use_id.as_str().is_empty() || parent_session_id.is_some() {
                let parent: Option<&str> = match &parent_session_id {
                    Some(id) => Some(id.as_str()),
                    None => None,
                };
                state.register_child_session(
                    &parent_tool_use_id,
                    parent,
                    &child_session_id,
                    child_session_file,
                );
            }
            apply_records(state, &child_session_id, &new_records, now);
        },
    }
}

/// Takes in an event of the container engine.
pub fn apply_docker_event(state: &mut SwarmState, event: DockerEvent)
    ensures
        final(state)@ == docker_applied(old(state)@, event@),
        validity::well_formed(old(state)@) ==> validity::well_formed(final(state)@),
{
    match event {
        DockerEvent::StacksSnapshot(stacks) => {
            state.update_docker_stacks(stacks);
        },
        DockerEvent::ContainerStateChange { container_id, new_status } => {
            state.apply_docker_event(&container_id, new_status);
        },
    }
}

// ---------------------------------------------------------------------------------------------
// The application
// ---------------------------------------------------------------------------------------------

pub struct App {
    pub state: SwarmState,
    pub lead_path: String,
    pub nav: Nav,
    pub clock: Clock,
}

/// The path of the lead: the one that was given, else the current directory, else `.`.
pub open spec fn lead_of(given: Option<Seq<char>>, current: Option<Seq<char>>) -> Seq<char> {
    match given {
        Some(path) => path,
        None => match current {
            Some(path) => path,
            None => "."@,
        },
    }
}

/// `scene` is what is shown of a state. The details of a lane are shown where there is that lane,
/// and the list of lanes otherwise.
pub open spec fn is_shown(
    name: AssistantView,
    s: SwarmView,
    nav: Nav,
    area: Area,
    now: u64,
    scene: Seq<PlacedView>,
) -> bool {
    if nav.screen == Screen::Detail && nav.selected < s.lanes.len() {
        exists|lanes: Seq<LaneView>| #[trigger]
            state::are_sorted_lanes(s.lanes, lanes) && detail::is_detail_view(
                name,
                s.docker_available,
                lanes[nav.selected as int],
                nav.scroll as int,
                area,
                now,
                scene,
            )
    } else {
        ui::is_list_view(name, s, nav.selected as int, area, now, scene)
    }
}

/// `lines` is how many lines the details of the selected lane have; there are none where there is
/// no such lane.
pub open spec fn is_line_count(s: SwarmView, nav: Nav, now: u64, lines: usize) -> bool {
    if nav.selected < s.lanes.len() {
        exists|lanes: Seq<LaneView>| #[trigger]
            state::are_sorted_lanes(s.lanes, lanes) && lines == detail::lane_detail(
                lanes[nav.selected as int],
                now,
            ).len()
    } else {
        lines == 0
    }
}

/// The scene of a state, or none where the height of a lane cannot be counted.
pub fn scene_of(name: &Assistant, area: Area, state: &SwarmState, nav: &Nav, now: u64) -> (r: Option<
    Vec<Placed>,
>)
    ensures
        r is None <==> !ui::heights_fit(state@.lanes, now),
        r matches Some(scene) ==> is_shown(name@, state@, *nav, area, now, scene.deep_view()),
{
    if !ui::lanes_fit(state, now) {
        return None;
    }
    if nav.screen == Screen::Detail && nav.selected < state.lanes.len() {
        let lanes: Vec<&RepoLane> = state.sorted_lanes();
        let ghost sorted = lanes.deep_view();
        proof {
            assert(sorted.len() == lanes@.len());
            assert(sorted.len() == state@.lanes.len());
            assert(sorted[nav.selected as int] == lanes@[nav.selected as int]@);
        }
        let scene: Vec<Placed> = detail::render_detail(
            name,
            area,
            state.docker_available,
            lanes[nav.selected],
            nav.scroll,
            now,
        );
        return Some(scene);
    }
    Some(ui::render(name, area, state, nav.selected, now))
}

/// The number of lines of the details of the selected lane.
pub fn line_count(state: &SwarmState, nav: &Nav, now: u64) -> (r: usize)
    ensures
        is_line_count(state@, *nav, now, r),
{
    if nav.selected >= state.lanes.len() {
        return 0;
    }
    let lanes: Vec<&RepoLane> = state.sorted_lanes();
    let ghost sorted = lanes.deep_view();
    proof {
        assert(sorted.len() == lanes@.len());
        assert(sorted.len() == state@.lanes.len());
        assert(sorted[nav.selected as int] == lanes@[nav.selected as int]@);
    }
    let lines: Vec<Line> = detail::detail_lines(lanes[nav.selected], now);
    assert(lines.deep_view().len() == lines@.len());
    lines.len()
}

impl App {
    pub fn new(lead_path: Option<String>, current_dir: Option<String>) -> (r: App)
        ensures
            r.state@ == state::empty_swarm(),
            r.lead_path@ == lead_of(lead_path.deep_view(), current_dir.deep_view()),
            r.nav == nav::first_nav(),
            validity::well_formed(r.state@),
    {
        let lead: String = match lead_path {
            Some(path) => path,
            None => match current_dir {
                Some(path) => path,
                None => ".".to_string(),
            },
        };
        App { state: SwarmState::new(), lead_path: lead, nav: Nav::new(), clock: Clock::start() }
    }

    /// Remembers that the container engine answers.
    pub fn docker_connected(&mut self)
        ensures
            final(self).state@ == (SwarmView { docker_available: true, ..old(self).state@ }),
            final(self).lead_path == old(self).lead_path,
            final(self).nav == old(self).nav,
    {
        self.state.docker_available = true;
    }

    /// Takes in an event of the watcher, at the time that the clock shows.
    pub fn on_watch_event(&mut self, event: WatchEvent)
        ensures
            exists|now: u64|
                final(self).state@ == #[trigger] watch_applied(old(self).state@, event@, now),
            validity::well_formed(old(self).state@) ==> validity::well_formed(final(self).state@),
            final(self).lead_path == old(self).lead_path,
            final(self).nav == old(self).nav,
    {
        let now: u64 = self.clock.now();
        apply_watch_event(&mut self.state, event, now);
    }

    /// Takes in an event of the container engine.
    pub fn on_docker_event(&mut self, event: DockerEvent)
        ensures
            final(self).state@ == docker_applied(old(self).state@, event@),
            validity::well_formed(old(self).state@) ==> validity::well_formed(final(self).state@),
            final(self).lead_path == old(self).lead_path,
            final(self).nav == old(self).nav,
    {
        apply_docker_event(&mut self.state, event);
    }

    /// Lets time pass, up to what the clock shows.
    pub fn on_tick(&mut self)
        ensures
            exists|now: u64|
                final(self).state@ == (SwarmView {
                    lanes: #[trigger] state::lanes_ticked(old(self).state@.lanes, now),
                    ..old(self).state@
                }),
            validity::well_formed(old(self).state@) ==> validity::well_formed(final(self).state@),
            final(self).lead_path == old(self).lead_path,
            final(self).nav == old(self).nav,
    {
        let now: u64 = self.clock.now();
        self.state.tick(now);
    }

    /// Takes a key, and says whether it ends the program.
    pub fn on_key(&mut self, key: Key) -> (r: bool)
        ensures
            exists|now: u64, lines: usize| #[trigger]
                is_line_count(old(self).state@, old(self).nav, now, lines) && final(self).nav
                    == nav::nav_after(
                    old(self).nav,
                    key,
                    old(self).state@.lanes.len() as usize,
                    lines,
                ),
            r == nav::ends(key),
            final(self).state == old(self).state,
            final(self).lead_path == old(self).lead_path,
    {
        let now: u64 = self.clock.now();
        let lines: usize = line_count(&self.state, &self.nav, now);
        let lanes: usize = self.state.lanes.len();
        self.nav.press(key, lanes, lines)
    }

    /// What is shown in an area, or nothing where the height of a lane cannot be counted.
    pub fn draw(&self, name: &Assistant, area: Area) -> (r: Option<Vec<Placed>>)
        ensures
            exists|now: u64| match r {
                Some(scene) => #[trigger] ui::heights_fit(self.state@.lanes, now) && is_shown(
                    name@,
                    self.state@,
                    self.nav,
                    area,
                    now,
                    scene.deep_view(),
                ),
                None => !ui::heights_fit(self.state@.lanes, now),
            },
    {
        let now: u64 = self.clock.now();
        let r: Option<Vec<Placed>> = scene_of(name, area, &self.state, &self.nav, now);
        assert(ui::heights_fit(self.state@.lanes, now) == (r is Some));
        r
    }
}

} // verus!

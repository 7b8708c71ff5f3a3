use std::path::PathBuf;
use swarm_monitor::agent::{Agent, AgentStatus};
use swarm_monitor::app::{apply_docker_event, apply_watch_event, line_count, scene_of, App};
use swarm_monitor::assistant::Assistant;
use swarm_monitor::clock::{count_nanos, Clock};
use swarm_monitor::color::Color;
use swarm_monitor::detail::detail_lines;
use swarm_monitor::docker::{
    assemble_stacks, ContainerStats, ContainerStatus, ContainerSummary, DockerEvent, DockerStack,
    PROJECT_LABEL, SERVICE_LABEL,
};
use swarm_monitor::lane::RepoLane;
use swarm_monitor::layout::Area;
use swarm_monitor::nav::{Key, Nav, Screen};
use swarm_monitor::paint::{Border, Line, Placed, Widget};
use swarm_monitor::parser::{AgentEvent, Record, RecordType};
use swarm_monitor::state::SwarmState;
use swarm_monitor::ui;
use swarm_monitor::watcher::WatchEvent;

const SEC: u64 = 1_000_000_000;

fn name() -> Assistant {
    Assistant { id: "helper".to_string(), title: "Helper Pro".to_string() }
}

fn area(x: u16, y: u16, width: u16, height: u16) -> Area {
    Area { x, y, width, height }
}

fn plain(line: &Line) -> String {
    line.spans.iter().map(|s| s.text.as_str()).collect()
}

fn texts(scene: &[Placed]) -> Vec<String> {
    scene
        .iter()
        .flat_map(|p| match &p.widget {
            Widget::Text { lines, .. } => lines.iter().map(plain).collect(),
            Widget::Frame { title, .. } => vec![plain(title)],
            Widget::Usage { samples } => vec![format!("usage of {}", samples.len())],
        })
        .collect()
}

fn agent(id: &str) -> Agent {
    Agent::new(id.to_string(), PathBuf::from(id), 0)
}

fn says(text: &str) -> AgentEvent {
    AgentEvent::TextResponse { text: text.to_string() }
}

fn container(id: &str, service: &str, state: &str) -> ContainerSummary {
    ContainerSummary {
        id: Some(id.to_string()),
        names: None,
        image: None,
        state: Some(state.to_string()),
        labels: Some(vec![
            (PROJECT_LABEL.to_string(), "shop".to_string()),
            (SERVICE_LABEL.to_string(), service.to_string()),
        ]),
    }
}

fn shop() -> DockerStack {
    assemble_stacks(
        &vec![
            container("1", "a", "running"),
            container("2", "b", "exited (1)"),
            container("3", "c", "restarting"),
            container("4", "d", "exited"),
            container("5", "e", "paused"),
            container("6", "f", "dead"),
        ],
        0,
    )
    .remove(0)
}

fn lane() -> RepoLane {
    RepoLane::new("/w/shop".to_string(), None, true)
}

#[test]
fn inside_a_border() {
    assert_eq!(area(1, 2, 10, 5).inner(), area(2, 3, 8, 3));
    assert_eq!(area(1, 2, 1, 0).inner(), area(2, 2, 0, 0));
    assert_eq!(area(0, 0, 2, 1).inner(), area(1, 1, 0, 0));
    assert_eq!(area(65535, 0, 0, 3).inner(), area(65535, 1, 0, 1));
}

#[test]
fn header_tells_whether_docker_answers() {
    let on = ui::render_header(&name(), true);
    assert_eq!(plain(&on), " 🐝 helper-swarm   monitoring your agent fleet   🐳 docker:ok  q:quit ");
    assert_eq!(on.spans[0].bg, Some(Color::Yellow));
    assert!(on.spans[0].bold);
    let off = ui::render_header(&name(), false);
    assert_eq!(off.spans[2].text, " 🐳 docker:off ");
    assert_eq!(off.spans[2].fg, Some(Color::DarkGray));
}

#[test]
fn current_agents_are_shown() {
    let mut l = lane();
    l.agents = vec![agent("a"), agent("b"), agent("c"), agent("d")];
    l.agents[0].apply_event(AgentEvent::Completed { is_error: false }, 50 * SEC);
    l.agents[1].apply_event(says("?"), 40 * SEC);
    l.agents[3].apply_event(AgentEvent::Completed { is_error: true }, 30 * SEC);
    let shown = |now: u64| -> Vec<String> {
        ui::visible_agents(&l, now).iter().map(|a| a.session_id.clone()).collect()
    };
    assert_eq!(shown(60 * SEC), ["b", "d"]);
    assert_eq!(shown(335 * SEC), ["b"]);
    assert_eq!(shown(340 * SEC), ["a"]);
}

#[test]
fn of_agents_with_one_time_the_last_is_shown() {
    let mut l = lane();
    l.agents = vec![agent("a"), agent("b"), agent("c")];
    l.agents[2].last_activity = 1;
    l.agents[0].last_activity = 7;
    l.agents[1].last_activity = 7;
    let shown = ui::visible_agents(&l, 9);
    assert_eq!(shown.len(), 1);
    assert_eq!(shown[0].session_id, "b");
    assert!(ui::visible_agents(&lane(), 9).is_empty());
}

#[test]
fn completed_sub_agents_are_not_shown() {
    let mut a = agent("a");
    a.adopt("one");
    a.adopt("two");
    a.apply_event_to_sub("one", AgentEvent::Completed { is_error: false }, 0);
    let subs = ui::visible_subs(&a);
    assert_eq!(subs.len(), 1);
    assert_eq!(subs[0].task_tool_use_id, "two");
}

#[test]
fn heights_of_lanes() {
    let mut l = lane();
    assert_eq!(ui::lane_height(&l, 0), 4);
    l.agents = vec![agent("a"), agent("b")];
    assert_eq!(ui::lane_height(&l, 0), 13);
    l.agents[0].apply_event(says("?"), 0);
    l.agents[1].apply_event(says("?"), 0);
    assert_eq!(ui::lane_height(&l, 0), 24);
    l.docker_stacks = vec![shop()];
    assert_eq!(ui::lane_height(&l, 0), 26);
    assert!(ui::height_fits(&l, 0));
}

#[test]
fn heights_that_cannot_be_counted() {
    let mut l = lane();
    for _ in 0..5957 {
        let mut a = agent("a");
        a.status = AgentStatus::WaitingForYou;
        l.agents.push(a);
    }
    assert!(ui::height_fits(&l, 0));
    assert_eq!(ui::lane_height(&l, 0), 65529);
    let mut a = agent("a");
    a.status = AgentStatus::WaitingForYou;
    l.agents.push(a);
    assert!(!ui::height_fits(&l, 0));
    let mut s = SwarmState::new();
    s.lanes.push(l);
    assert!(scene_of(&name(), area(0, 0, 80, 24), &s, &Nav::new(), 0).is_none());
}

#[test]
fn card_of_an_agent() {
    let mut a = agent("0123456789");
    a.apply_event(
        AgentEvent::ToolCall {
            tool_name: "Bash".to_string(),
            tool_input_summary: "x".repeat(30),
        },
        0,
    );
    a.last_message = Some("m".repeat(60));
    let card = ui::render_agent_card(area(0, 0, 26, 10), &a, 5 * SEC);
    assert_eq!(
        texts(&card),
        [
            " ❯  Agent ".to_string(),
            "ID: 01234567".to_string(),
            "● WORKING".to_string(),
            "".to_string(),
            "tool: Bash".to_string(),
            "x".repeat(22),
            "m".repeat(44),
            "".to_string(),
            "5s ago".to_string(),
        ]
    );
    assert!(matches!(
        card[0].widget,
        Widget::Frame { border: Border::Rounded, color: Color::Green, .. }
    ));
    assert_eq!(card[1].area, area(1, 1, 24, 8));
}

#[test]
fn colors_of_cards() {
    let mut a = agent("a");
    let mut color = |status: AgentStatus| {
        a.status = status;
        match ui::render_agent_card(area(0, 0, 1, 1), &a, 0).remove(0).widget {
            Widget::Frame { color, .. } => color,
            _ => panic!("no frame"),
        }
    };
    assert_eq!(color(AgentStatus::WaitingForYou), Color::Yellow);
    assert_eq!(color(AgentStatus::Working), Color::Green);
    assert_eq!(color(AgentStatus::Error), Color::Red);
    assert_eq!(color(AgentStatus::Idle), Color::DarkGray);
    assert_eq!(color(AgentStatus::Completed), Color::DarkGray);
}

#[test]
fn card_of_a_sub_agent() {
    let mut a = agent("a");
    a.apply_event(
        AgentEvent::SpawnSubAgent {
            task_tool_use_id: "toolu_0123".to_string(),
            prompt_summary: "p".repeat(50),
        },
        0,
    );
    let card = ui::render_sub_card(area(0, 0, 26, 10), &a.sub_agents[0], 0);
    assert_eq!(
        texts(&card),
        [
            " ◎ Sub ".to_string(),
            "ID: toolu_01".to_string(),
            "● WORKING".to_string(),
            "".to_string(),
            "p".repeat(44),
            "".to_string(),
            "waiting...".to_string(),
            "—".to_string(),
        ]
    );
}

#[test]
fn cards_stand_in_a_row() {
    let mut a = agent("a");
    a.adopt("one");
    a.adopt("two");
    let row = ui::render_agent_row(area(3, 4, 100, 11), &a, 0);
    assert_eq!(row.len(), 6);
    assert!(texts(&row)[0].contains("Orchestrator"));
    let frames: Vec<Area> = [0, 2, 4].iter().map(|i| row[*i].area).collect();
    assert_eq!(frames, [area(3, 4, 26, 11), area(29, 4, 26, 11), area(55, 4, 26, 11)]);
}

#[test]
fn a_row_at_given_places() {
    let mut a = agent("a");
    a.adopt("one");
    let places = vec![area(0, 0, 5, 5), area(5, 0, 5, 5), area(10, 0, 5, 5)];
    let row = ui::agent_row(&a, &places, 0);
    assert_eq!(row.len(), 4);
    assert_eq!(row[2].area, places[1]);
}

#[test]
fn line_of_a_stack() {
    let line = ui::stack_status(&shop());
    assert_eq!(plain(&line), "  🐳 shop  ●●◉○·●  ⚠ 4 stopped");
    let colors: Vec<Option<Color>> = line.spans[3..9].iter().map(|s| s.fg).collect();
    assert_eq!(
        colors,
        [
            Some(Color::Green),
            Some(Color::Red),
            Some(Color::Yellow),
            Some(Color::DarkGray),
            Some(Color::DarkGray),
            Some(Color::Red),
        ]
    );
    let well = assemble_stacks(&vec![container("1", "a", "running")], 0).remove(0);
    assert_eq!(plain(&ui::stack_status(&well)), "  🐳 shop  ●  ✓");
}

#[test]
fn section_of_stacks() {
    let mut stack = shop();
    stack.apply_stats(&vec![Some(ContainerStats { memory_usage: 9, ..ContainerStats::none() })]);
    let scene = ui::render_docker_section(area(1, 5, 40, 2), &vec![stack]);
    assert_eq!(scene.len(), 2);
    assert_eq!(scene[0].area, area(1, 5, 40, 1));
    assert_eq!(scene[1].area, area(1, 6, 40, 1));
    match &scene[1].widget {
        Widget::Usage { samples } => {
            assert_eq!(samples.len(), 6);
            assert_eq!(samples[0].memory_usage, 9);
        }
        _ => panic!("no usage"),
    }
    assert!(ui::render_docker_section(area(0, 0, 40, 1), &vec![shop()]).is_empty());
}

#[test]
fn bars() {
    assert_eq!(ui::mini_bar(0), "[░░░░░░]");
    assert_eq!(ui::mini_bar(2), "[██░░░░]");
    assert_eq!(ui::mini_bar(6), "[██████]");
    assert_eq!(
        plain(&ui::usage_line(2, "6.5", 4, "2.5G")),
        "       cpu [██░░░░] 6.5%  mem [████░░] 2.5G  max"
    );
}

#[test]
fn lanes_without_agents() {
    let mut l = lane();
    let scene = ui::render_repo_lane(area(0, 0, 40, 4), &l, false, 0);
    assert_eq!(texts(&scene), [" ★  * LEAD  shop  ", "  ⟳ scanning sessions..."]);
    assert!(matches!(
        scene[0].widget,
        Widget::Frame { border: Border::Double, color: Color::DarkGray, .. }
    ));
    l.is_scanning = false;
    l.is_lead = false;
    let scene = ui::render_repo_lane(area(0, 0, 40, 4), &l, true, 0);
    assert_eq!(texts(&scene), [" ⚙    shop  ", "  ◌ no recent sessions"]);
    assert!(matches!(scene[0].widget, Widget::Frame { border: Border::Thick, .. }));
}

#[test]
fn lanes_with_agents_and_stacks() {
    let mut l = lane();
    l.agents = vec![agent("a")];
    l.docker_stacks = vec![shop()];
    let scene = ui::render_repo_lane(area(0, 1, 60, 15), &l, false, 0);
    assert_eq!(scene.len(), 5);
    assert!(matches!(scene[0].widget, Widget::Frame { color: Color::Yellow, .. }));
    assert_eq!(scene[1].area, area(1, 2, 26, 11));
    assert_eq!(scene[3].area, area(1, 13, 58, 1));
    assert_eq!(scene[4].area, area(1, 14, 58, 1));
    l.is_lead = false;
    let scene = ui::render_repo_lane(area(0, 1, 60, 15), &l, false, 0);
    assert!(matches!(scene[0].widget, Widget::Frame { color: Color::Cyan, .. }));
}

#[test]
fn an_empty_swarm() {
    let scene = ui::render(&name(), area(0, 0, 80, 24), &SwarmState::new(), 0, 0);
    assert_eq!(scene.len(), 2);
    assert_eq!(scene[0].area, area(0, 0, 80, 1));
    assert_eq!(scene[1].area, area(0, 1, 80, 23));
    assert_eq!(
        texts(&scene)[1..],
        ["", "  No active Helper Pro sessions found.", "  Watching ~/.helper/projects/ ..."]
    );
}

#[test]
fn nothing_is_painted_outside() {
    let mut s = SwarmState::new();
    for path in ["/a", "/b", "/c"] {
        s.register_session(path, path, PathBuf::from(path), None, false, 0);
    }
    let whole = area(2, 1, 30, 17);
    let mut nav = Nav::new();
    let mut scene = ui::render(&name(), whole, &s, 1, 0);
    nav.press(Key::Enter, 3, 1);
    scene.extend(scene_of(&name(), whole, &s, &nav, 0).unwrap());
    for p in scene {
        assert!(p.area.x >= whole.x && p.area.x + p.area.width <= whole.x + whole.width);
        assert!(p.area.y >= whole.y && p.area.y + p.area.height <= whole.y + whole.height);
    }
}

#[test]
fn details_of_a_lane() {
    let mut l = lane();
    let mut a = agent("0123456789");
    a.apply_event(
        AgentEvent::ToolCall { tool_name: "Read".to_string(), tool_input_summary: "a.rs".to_string() },
        0,
    );
    a.last_message = Some("hm".to_string());
    a.adopt("child");
    l.agents = vec![agent("old"), a];
    l.docker_stacks =
        vec![assemble_stacks(&vec![container("1", "web", "running")], 0).remove(0)];
    let lines: Vec<String> = detail_lines(&l, SEC).iter().map(plain).collect();
    assert_eq!(
        lines,
        [
            " ❯  Agent old  ◌ IDLE  1s ago",
            " ❯❯ Orchestrator 01234567  ● WORKING  1s ago",
            "   tool: Read  a.rs",
            "   hm",
            "   ◎ child  ● WORKING  —  ",
            "  🐳 shop  ●  ✓",
            "     🟢 running  web",
        ]
    );
}

#[test]
fn keys_of_the_list() {
    let mut nav = Nav::new();
    assert!(!nav.press(Key::Up, 2, 0));
    assert_eq!(nav.selected, 0);
    nav.press(Key::Down, 2, 0);
    nav.press(Key::Down, 2, 0);
    assert_eq!(nav.selected, 1);
    nav.press(Key::Up, 2, 0);
    assert_eq!(nav.selected, 0);
    assert!(!nav.press(Key::Other, 2, 0));
    assert!(nav.press(Key::Quit, 2, 0));
    assert!(!nav.press(Key::Escape, 2, 0));
    assert_eq!(nav, Nav::new());
    let mut none = Nav::new();
    none.press(Key::Down, 0, 0);
    none.press(Key::Enter, 0, 0);
    assert_eq!(none, Nav::new());
}

#[test]
fn keys_of_the_details() {
    let mut nav = Nav::new();
    nav.press(Key::Down, 2, 0);
    assert!(!nav.press(Key::Enter, 2, 3));
    assert_eq!(nav.screen, Screen::Detail);
    nav.press(Key::Up, 2, 3);
    assert_eq!(nav.scroll, 0);
    for _ in 0..5 {
        nav.press(Key::Down, 2, 3);
    }
    assert_eq!(nav.scroll, 2);
    assert_eq!(nav.selected, 1);
    assert!(!nav.press(Key::Escape, 2, 3));
    assert_eq!(nav.screen, Screen::List);
    assert_eq!(nav.selected, 1);
    nav.press(Key::Enter, 2, 3);
    assert_eq!(nav.scroll, 0);
    assert!(nav.press(Key::Quit, 2, 3));
}

#[test]
fn the_details_scroll() {
    let mut s = SwarmState::new();
    s.register_session("first", "/a", PathBuf::from("f"), None, false, 0);
    s.register_session("second", "/a", PathBuf::from("g"), None, false, 0);
    let mut nav = Nav::new();
    let lines = line_count(&s, &nav, 0);
    assert_eq!(lines, 2);
    nav.press(Key::Enter, 1, lines);
    let scene = scene_of(&name(), area(0, 0, 80, 24), &s, &nav, 0).unwrap();
    assert_eq!(texts(&scene)[1..], [" ⚙    a  ", " ❯  Agent first  ◌ IDLE  0s ago", " ❯  Agent second  ◌ IDLE  0s ago"]);
    nav.press(Key::Down, 1, lines);
    let scene = scene_of(&name(), area(0, 0, 80, 24), &s, &nav, 0).unwrap();
    assert_eq!(texts(&scene)[2..], [" ❯  Agent second  ◌ IDLE  0s ago"]);
    assert_eq!(line_count(&SwarmState::new(), &nav, 0), 0);
}

fn done() -> Record {
    Record {
        record_type: RecordType::Result,
        uuid: None,
        parent_uuid: None,
        timestamp: None,
        session_id: None,
        cwd: None,
        message: None,
        parent_tool_use_id: None,
        agent_id: None,
        agent_type: None,
        team_name: None,
        is_error: None,
    }
}

#[test]
fn watch_events_reach_the_state() {
    let mut s = SwarmState::new();
    apply_watch_event(
        &mut s,
        WatchEvent::LanesDiscovered { paths: vec![("/a".to_string(), true, None)] },
        0,
    );
    assert!(s.lanes[0].is_scanning);
    apply_watch_event(&mut s, WatchEvent::ScanComplete, 0);
    assert!(!s.lanes[0].is_scanning);
    apply_watch_event(
        &mut s,
        WatchEvent::SessionUpdate {
            session_id: "s".to_string(),
            project_path: "/a".to_string(),
            session_file: PathBuf::from("s"),
            new_records: vec![done()],
            compose_project_name: None,
            is_lead: true,
        },
        7,
    );
    assert_eq!(s.lanes[0].agents[0].status, AgentStatus::Completed);
    assert_eq!(s.lanes[0].agents[0].last_activity, 7);
    let child = |parent: Option<&str>| WatchEvent::ChildDiscovered {
        parent_tool_use_id: String::new(),
        parent_session_id: parent.map(String::from),
        child_session_id: "c".to_string(),
        child_session_file: PathBuf::from("c"),
        new_records: vec![done()],
    };
    apply_watch_event(&mut s, child(None), 8);
    assert!(s.pending_children.is_empty());
    assert!(s.lanes[0].agents[0].sub_agents.is_empty());
    apply_watch_event(&mut s, child(Some("s")), 9);
    assert_eq!(s.lanes[0].agents[0].sub_agents[0].status, AgentStatus::Completed);
    apply_watch_event(&mut s, child(None), 10);
    assert_eq!(s.lanes[0].agents[0].sub_agents[0].last_activity, Some(10));
}

#[test]
fn docker_events_reach_the_state() {
    let mut s = SwarmState::new();
    apply_watch_event(
        &mut s,
        WatchEvent::LanesDiscovered { paths: vec![("/a".to_string(), true, Some("shop".to_string()))] },
        0,
    );
    apply_docker_event(&mut s, DockerEvent::StacksSnapshot(vec![shop()]));
    assert!(s.docker_available);
    apply_docker_event(
        &mut s,
        DockerEvent::ContainerStateChange {
            container_id: "2".to_string(),
            new_status: ContainerStatus::Running,
        },
    );
    assert_eq!(s.lanes[0].docker_stacks[0].containers[1].status, ContainerStatus::Running);
}

#[test]
fn the_application() {
    assert_eq!(App::new(Some("/x".to_string()), Some("/y".to_string())).lead_path, "/x");
    assert_eq!(App::new(None, Some("/y".to_string())).lead_path, "/y");
    let mut app = App::new(None, None);
    assert_eq!(app.lead_path, ".");
    app.docker_connected();
    assert!(app.state.docker_available);
    app.on_watch_event(WatchEvent::LanesDiscovered { paths: vec![("/a".to_string(), true, None)] });
    app.on_docker_event(DockerEvent::StacksSnapshot(vec![]));
    app.on_tick();
    let scene = app.draw(&name(), area(0, 0, 80, 24)).unwrap();
    assert_eq!(texts(&scene)[1], " ★  * LEAD  a  ");
    assert!(!app.on_key(Key::Enter));
    assert_eq!(app.nav.screen, Screen::Detail);
    assert!(!app.on_key(Key::Escape));
    assert!(app.on_key(Key::Quit));
}

#[test]
fn the_clock_runs() {
    let mut app = App::new(None, None);
    let first = app.clock.now();
    while app.clock.now() == first {}
    app.on_watch_event(WatchEvent::SessionUpdate {
        session_id: "s".to_string(),
        project_path: "/a".to_string(),
        session_file: PathBuf::from("s"),
        new_records: vec![],
        compose_project_name: None,
        is_lead: false,
    });
    assert!(app.state.lanes[0].agents[0].last_activity > first);
    assert_eq!(name().dir_name(), ".helper");
}

#[test]
fn nanoseconds_are_counted_as_far_as_they_go() {
    assert_eq!(count_nanos(0), 0);
    assert_eq!(count_nanos(1_500_000_000), 1_500_000_000);
    assert_eq!(count_nanos(u64::MAX as u128), u64::MAX);
    assert_eq!(count_nanos(u64::MAX as u128 + 1), u64::MAX);
    let clock = Clock::start();
    let first = clock.now();
    while clock.now() < first + 1_000 {}
    assert!(clock.now() < 20 * SEC);
}

#[test]
fn each_stack_has_its_own_lines() {
    let mut l = lane();
    l.docker_stacks = vec![shop(), shop()];
    assert_eq!(ui::lane_height(&l, 0), 8);
    let scene = ui::render_docker_section(area(1, 5, 40, 4), &l.docker_stacks);
    let rows: Vec<Area> = scene.iter().map(|p| p.area).collect();
    assert_eq!(
        rows,
        [area(1, 5, 40, 1), area(1, 6, 40, 1), area(1, 7, 40, 1), area(1, 8, 40, 1)]
    );
    let scene = ui::render_repo_lane(area(0, 0, 40, 8), &l, false, 0);
    assert_eq!(scene[1].area, area(1, 1, 38, 2));
    assert_eq!(scene[2].area, area(1, 3, 38, 1));
    assert_eq!(scene[5].area, area(1, 6, 38, 1));
}

#[test]
fn lanes_stand_one_below_the_other() {
    let mut s = SwarmState::new();
    s.register_session("one", "/w/one", PathBuf::from("1"), None, false, 0);
    s.register_session("two", "/w/two", PathBuf::from("2"), None, false, 0);
    s.apply_event("two", says("?"), 0);
    s.discover_lanes(vec![("/w/main".to_string(), true, None)]);
    let scene = ui::render(&name(), area(0, 0, 60, 40), &s, 0, 0);
    let frames: Vec<Area> = scene
        .iter()
        .filter(|p| matches!(p.widget, Widget::Frame { border: Border::Double | Border::Thick, .. }))
        .map(|p| p.area)
        .collect();
    assert_eq!(frames, [area(0, 1, 60, 4), area(0, 5, 60, 13), area(0, 18, 60, 13)]);
    assert_eq!(scene[2].area, area(1, 2, 58, 2));
    let waiting: Vec<Area> = scene
        .iter()
        .filter(|p| matches!(p.widget, Widget::Frame { border: Border::Rounded, color: Color::Yellow, .. }))
        .map(|p| p.area)
        .collect();
    assert_eq!(waiting, [area(1, 19, 26, 11)]);
}

#[test]
fn the_details_fill_the_screen() {
    let mut s = SwarmState::new();
    s.discover_lanes(vec![("/a".to_string(), true, None)]);
    let mut nav = Nav::new();
    nav.press(Key::Enter, 1, 0);
    let scene = scene_of(&name(), area(2, 3, 30, 10), &s, &nav, 0).unwrap();
    assert_eq!(scene[0].area, area(2, 3, 30, 1));
    assert_eq!(scene[1].area, area(2, 4, 30, 9));
    assert_eq!(scene[2].area, area(3, 5, 28, 7));
}

#[test]
fn the_program_is_named_after_its_assistant() {
    let named = |program: &str| {
        let a = Assistant::watched_by(program);
        (a.id, a.title)
    };
    assert_eq!(named("helper-swarm"), ("helper".to_string(), "Helper Code".to_string()));
    assert_eq!(named("é-swarm"), ("é".to_string(), "é Code".to_string()));
    assert_eq!(named("helper"), ("helper".to_string(), "Helper Code".to_string()));
    assert_eq!(named("-swarm"), ("".to_string(), " Code".to_string()));
    let watched = Assistant::watched_by("helper-swarm");
    assert_eq!(watched.dir_name(), ".helper");
    assert_eq!(ui::render_header(&watched, true).spans[0].text, " 🐝 helper-swarm ");
    let scene = ui::render(&watched, area(0, 0, 80, 24), &SwarmState::new(), 0, 0);
    assert_eq!(
        texts(&scene)[1..],
        ["", "  No active Helper Code sessions found.", "  Watching ~/.helper/projects/ ..."]
    );
}

use std::path::PathBuf;
use swarm_monitor::agent::{AgentRole, AgentStatus};
use swarm_monitor::docker::{
    assemble_stacks, ContainerStatus, ContainerSummary, DockerStack, PROJECT_LABEL,
};
use swarm_monitor::lane::RepoLane;
use swarm_monitor::parser::AgentEvent;
use swarm_monitor::state::SwarmState;

const SEC: u64 = 1_000_000_000;

fn file(name: &str) -> PathBuf {
    PathBuf::from(name)
}

fn path(p: &str, lead: bool, compose: Option<&str>) -> (String, bool, Option<String>) {
    (p.to_string(), lead, compose.map(String::from))
}

fn register(s: &mut SwarmState, id: &str, project: &str) {
    s.register_session(id, project, file(id), None, false, 0);
}

fn says(text: &str) -> AgentEvent {
    AgentEvent::TextResponse { text: text.to_string() }
}

fn works() -> AgentEvent {
    AgentEvent::ToolCall { tool_name: "Bash".to_string(), tool_input_summary: "ls".to_string() }
}

fn spawns(id: &str) -> AgentEvent {
    AgentEvent::SpawnSubAgent { task_tool_use_id: id.to_string(), prompt_summary: "p".to_string() }
}

fn stacks(projects: &[&str]) -> Vec<DockerStack> {
    let listed: Vec<ContainerSummary> = projects
        .iter()
        .map(|p| ContainerSummary {
            id: Some(format!("{p}-id")),
            names: None,
            image: None,
            state: Some("running".to_string()),
            labels: Some(vec![(PROJECT_LABEL.to_string(), p.to_string())]),
        })
        .collect();
    assemble_stacks(&listed, 0)
}

fn projects(stacks: &[DockerStack]) -> Vec<&str> {
    stacks.iter().map(|s| s.project_name.as_str()).collect()
}

#[test]
fn a_lane_is_named_after_its_directory() {
    assert_eq!(RepoLane::new("/home/me/shop".to_string(), None, false).repo_name, "shop");
    assert_eq!(RepoLane::new("/home/me/shop/".to_string(), None, false).repo_name, "shop");
    assert_eq!(RepoLane::new("/".to_string(), None, false).repo_name, "/");
    assert_eq!(RepoLane::new("a/..".to_string(), None, false).repo_name, "a/..");
    assert_eq!(RepoLane::new("shop/.".to_string(), None, false).repo_name, "shop");
    assert!(RepoLane::new("x".to_string(), None, true).is_scanning);
}

#[test]
fn compose_projects_match_but_for_case() {
    let lane = RepoLane::new("/x".to_string(), Some("My-Shop".to_string()), false);
    assert!(lane.matches_compose_project("my-shop"));
    assert!(lane.matches_compose_project("MY-SHOP"));
    assert!(!lane.matches_compose_project("my-shop2"));
    assert!(!lane.matches_compose_project("my_shop"));
    assert!(!RepoLane::new("/x".to_string(), None, false).matches_compose_project(""));
}

#[test]
fn lanes_are_discovered_once() {
    let mut s = SwarmState::new();
    s.discover_lanes(vec![path("/a", true, None), path("/b", false, Some("b")), path("/a", false, None)]);
    assert_eq!(s.lanes.len(), 2);
    assert!(s.lanes[0].is_lead);
    assert_eq!(s.lanes[1].compose_project_name.as_deref(), Some("b"));
    s.discover_lanes(vec![path("/b", true, None), path("/c", false, None)]);
    assert_eq!(s.lanes.len(), 3);
    assert!(!s.lanes[1].is_lead);
    assert!(s.lanes.iter().all(|l| l.is_scanning));
    s.mark_scan_complete();
    assert!(s.lanes.iter().all(|l| !l.is_scanning));
}

#[test]
fn a_session_gets_its_agent_and_ends_the_scan_of_its_lane() {
    let mut s = SwarmState::new();
    s.discover_lanes(vec![path("/a", true, None), path("/b", false, None)]);
    register(&mut s, "s1", "/b");
    assert!(s.lanes[0].is_scanning);
    assert!(!s.lanes[1].is_scanning);
    assert_eq!(s.lanes[1].agents.len(), 1);
    assert_eq!(s.lanes[1].agents[0].session_id, "s1");
    register(&mut s, "s1", "/b");
    assert_eq!(s.lanes[1].agents.len(), 1);
    register(&mut s, "s2", "/new");
    assert_eq!(s.lanes.len(), 3);
    assert_eq!(s.lanes[2].project_path, "/new");
    assert!(s.lanes[1].has_active_agents());
    assert!(!s.lanes[0].has_active_agents());
}

#[test]
fn the_last_event_decides_the_status() {
    let mut s = SwarmState::new();
    register(&mut s, "s1", "/a");
    register(&mut s, "s2", "/a");
    s.apply_event("s1", works(), SEC);
    s.apply_event("s1", says("ready?"), 2 * SEC);
    assert_eq!(s.lanes[0].agents[0].status, AgentStatus::WaitingForYou);
    assert_eq!(s.lanes[0].agents[0].last_activity, 2 * SEC);
    assert_eq!(s.lanes[0].agents[1].status, AgentStatus::Idle);
    s.apply_event("unknown", says("?"), 3 * SEC);
    assert_eq!(s.lanes[0].agents.len(), 2);
}

#[test]
fn time_turns_work_idle() {
    let mut s = SwarmState::new();
    register(&mut s, "s1", "/a");
    register(&mut s, "s2", "/b");
    s.apply_event("s1", works(), 0);
    s.apply_event("s2", says("?"), 0);
    s.tick(31 * SEC);
    s.tick(31 * SEC);
    assert_eq!(s.lanes[0].agents[0].status, AgentStatus::Idle);
    assert_eq!(s.lanes[1].agents[0].status, AgentStatus::WaitingForYou);
}

#[test]
fn a_child_is_linked_by_its_parents_session() {
    let mut s = SwarmState::new();
    register(&mut s, "parent", "/a");
    s.register_child_session("", Some("parent"), "child", file("c"));
    assert_eq!(s.child_index.get("child").map(String::as_str), Some("parent"));
    let parent = &s.lanes[0].agents[0];
    assert_eq!(parent.role, AgentRole::Lead);
    assert_eq!(parent.sub_agents.len(), 1);
    s.apply_event("child", works(), 5);
    let parent = &s.lanes[0].agents[0];
    assert_eq!(parent.sub_agents[0].last_tool.as_deref(), Some("Bash"));
    assert_eq!(parent.last_tool, None);
}

#[test]
fn a_child_is_linked_by_the_call_that_spawned_it() {
    let mut s = SwarmState::new();
    register(&mut s, "parent", "/a");
    s.apply_event("parent", spawns("call-1"), 0);
    s.apply_event("parent", spawns("call-2"), 0);
    s.register_child_session("call-2", None, "child", file("c"));
    let subs = &s.lanes[0].agents[0].sub_agents;
    assert_eq!(subs[0].session_id, None);
    assert_eq!(subs[1].session_id.as_deref(), Some("child"));
    s.apply_event("child", says("done"), 9);
    assert_eq!(s.lanes[0].agents[0].sub_agents[1].status, AgentStatus::WaitingForYou);
    s.register_child_session("call-2", None, "late", file("l"));
    assert_eq!(s.pending_children.len(), 1);
}

#[test]
fn a_linked_child_never_becomes_an_agent() {
    let mut s = SwarmState::new();
    register(&mut s, "parent", "/a");
    s.register_child_session("", Some("parent"), "child", file("c"));
    register(&mut s, "child", "/a");
    assert_eq!(s.lanes[0].agents.len(), 1);
    assert!(!s.session_index.contains_key("child"));
}

#[test]
fn a_child_waits_for_its_parent() {
    let mut s = SwarmState::new();
    s.register_child_session("", Some("parent"), "child", file("c"));
    s.register_child_session("call", Some("other"), "second", file("d"));
    assert_eq!(s.pending_children.len(), 2);
    register(&mut s, "stranger", "/b");
    assert_eq!(s.pending_children.len(), 2);
    register(&mut s, "parent", "/a");
    assert_eq!(s.pending_children.len(), 1);
    assert_eq!(s.pending_children[0].child_session_id, "second");
    assert_eq!(s.lanes[1].agents[0].sub_agents.len(), 1);
    s.apply_event("parent", spawns("call"), 0);
    register(&mut s, "parent", "/a");
    assert!(s.pending_children.is_empty());
    assert_eq!(s.lanes[1].agents[0].sub_agents[1].session_id.as_deref(), Some("second"));
}

#[test]
fn a_session_that_moves_keeps_its_first_agent() {
    let mut s = SwarmState::new();
    register(&mut s, "s", "/a");
    register(&mut s, "s", "/b");
    s.apply_event("s", says("hi"), 1);
    assert_eq!(s.lanes[0].agents[0].status, AgentStatus::Idle);
    assert_eq!(s.lanes[1].agents[0].status, AgentStatus::WaitingForYou);
}

#[test]
fn stacks_go_to_the_lanes_of_their_projects() {
    let mut s = SwarmState::new();
    s.discover_lanes(vec![path("/a", true, Some("Shop")), path("/b", false, Some("shop"))]);
    assert!(!s.docker_available);
    s.update_docker_stacks(stacks(&["shop", "blog", "SHOP"]));
    assert!(s.docker_available);
    assert_eq!(projects(&s.lanes[0].docker_stacks), ["SHOP", "shop"]);
    assert!(s.lanes[0].has_docker());
    assert!(!s.lanes[1].has_docker());
    assert_eq!(projects(&s.unmatched_stacks), ["blog"]);
}

#[test]
fn a_snapshot_replaces_the_one_before() {
    let mut s = SwarmState::new();
    s.discover_lanes(vec![path("/a", true, Some("shop"))]);
    s.update_docker_stacks(stacks(&["shop", "blog"]));
    s.update_docker_stacks(stacks(&["wiki"]));
    assert!(s.lanes[0].docker_stacks.is_empty());
    assert_eq!(projects(&s.unmatched_stacks), ["wiki"]);
}

#[test]
fn a_stack_waits_for_its_lane() {
    let mut s = SwarmState::new();
    s.update_docker_stacks(stacks(&["shop", "blog"]));
    assert_eq!(projects(&s.unmatched_stacks), ["blog", "shop"]);
    s.discover_lanes(vec![path("/a", true, Some("shop"))]);
    assert_eq!(projects(&s.unmatched_stacks), ["blog", "shop"]);
    s.register_session("s", "/b", file("s"), Some("blog".to_string()), false, 0);
    assert!(s.unmatched_stacks.is_empty());
    assert_eq!(projects(&s.lanes[0].docker_stacks), ["shop"]);
    assert_eq!(projects(&s.lanes[1].docker_stacks), ["blog"]);
}

#[test]
fn a_change_reaches_one_container() {
    let mut s = SwarmState::new();
    s.discover_lanes(vec![path("/a", true, Some("a")), path("/b", false, Some("b"))]);
    s.update_docker_stacks(stacks(&["a", "b", "c"]));
    s.apply_docker_event("b-id", ContainerStatus::Paused);
    s.apply_docker_event("c-id", ContainerStatus::Paused);
    s.apply_docker_event("nobody", ContainerStatus::Paused);
    assert_eq!(s.lanes[0].docker_stacks[0].containers[0].status, ContainerStatus::Running);
    assert_eq!(s.lanes[1].docker_stacks[0].containers[0].status, ContainerStatus::Paused);
    assert_eq!(s.unmatched_stacks[0].containers[0].status, ContainerStatus::Running);
}

#[test]
fn the_lead_is_shown_first() {
    let mut s = SwarmState::new();
    s.discover_lanes(vec![
        path("/w/zeta", false, None),
        path("/w/alpha", false, None),
        path("/w/main", true, None),
        path("/v/alpha", false, None),
        path("/w/Beta", false, None),
    ]);
    let names: Vec<&str> = s.sorted_lanes().iter().map(|l| l.project_path.as_str()).collect();
    assert_eq!(names, ["/w/main", "/w/Beta", "/w/alpha", "/v/alpha", "/w/zeta"]);
}

#[test]
fn no_lane_ever_goes() {
    let mut s = SwarmState::new();
    s.discover_lanes(vec![path("/a", true, Some("a")), path("/b", false, None)]);
    register(&mut s, "s", "/c");
    s.register_child_session("", Some("s"), "child", file("c"));
    s.update_docker_stacks(stacks(&["a"]));
    s.apply_docker_event("a-id", ContainerStatus::Dead);
    s.apply_event("child", says("hi"), 1);
    s.mark_scan_complete();
    s.tick(9);
    let paths: Vec<&str> = s.lanes.iter().map(|l| l.project_path.as_str()).collect();
    assert_eq!(paths, ["/a", "/b", "/c"]);
}

#[test]
fn a_swarm_starts_empty() {
    let s = SwarmState::default();
    assert!(s.lanes.is_empty());
    assert!(s.pending_children.is_empty());
    assert!(s.unmatched_stacks.is_empty());
    assert!(!s.docker_available);
}

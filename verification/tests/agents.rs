use std::path::PathBuf;
use swarm_monitor::agent::{Agent, AgentRole, AgentStatus, SubAgent};
use swarm_monitor::color::Color;
use swarm_monitor::parser::AgentEvent;

const SEC: u64 = 1_000_000_000;

fn agent() -> Agent {
    Agent::new("0123456789abcdef".to_string(), PathBuf::from("/s/0123.jsonl"), 0)
}

fn call(tool: &str, input: &str) -> AgentEvent {
    AgentEvent::ToolCall {
        tool_name: tool.to_string(),
        tool_input_summary: input.to_string(),
    }
}

fn says(text: &str) -> AgentEvent {
    AgentEvent::TextResponse { text: text.to_string() }
}

fn spawns(id: &str, prompt: &str) -> AgentEvent {
    AgentEvent::SpawnSubAgent {
        task_tool_use_id: id.to_string(),
        prompt_summary: prompt.to_string(),
    }
}

#[test]
fn status_labels_and_colors() {
    assert_eq!(AgentStatus::Working.label(), "● WORKING");
    assert_eq!(AgentStatus::WaitingForYou.label(), "⏸ WAITING FOR YOU");
    assert_eq!(AgentStatus::Idle.label(), "◌ IDLE");
    assert_eq!(AgentStatus::Completed.label(), "✓ DONE");
    assert_eq!(AgentStatus::Error.label(), "✗ ERROR");
    assert_eq!(AgentStatus::Working.color(), Color::Green);
    assert_eq!(AgentStatus::WaitingForYou.color(), Color::Yellow);
    assert_eq!(AgentStatus::Idle.color(), Color::DarkGray);
    assert_eq!(AgentStatus::Completed.color(), Color::Cyan);
    assert_eq!(AgentStatus::Error.color(), Color::Red);
}

#[test]
fn new_agent_is_an_idle_worker() {
    let a = agent();
    assert_eq!(a.status, AgentStatus::Idle);
    assert_eq!(a.role, AgentRole::Worker);
    assert_eq!(a.session_file, PathBuf::from("/s/0123.jsonl"));
    assert!(a.sub_agents.is_empty());
    assert!(!a.pending_tool);
    assert_eq!(a.short_id(), "01234567");
}

#[test]
fn tool_call_clears_message() {
    let mut a = agent();
    a.apply_event(says("which one?"), SEC);
    assert_eq!(a.status, AgentStatus::WaitingForYou);
    assert_eq!(a.last_message.as_deref(), Some("which one?"));
    a.apply_event(call("Bash", "ls"), 2 * SEC);
    assert_eq!(a.status, AgentStatus::Working);
    assert_eq!(a.last_message, None);
    assert_eq!(a.last_tool.as_deref(), Some("Bash"));
    assert_eq!(a.last_tool_input.as_deref(), Some("ls"));
    assert!(a.pending_tool);
    assert_eq!(a.last_activity, 2 * SEC);
}

#[test]
fn tool_results_and_completion() {
    let mut a = agent();
    a.apply_event(call("Bash", "ls"), 0);
    a.apply_event(AgentEvent::ToolResult { is_error: false }, 0);
    assert_eq!(a.status, AgentStatus::Working);
    assert!(!a.pending_tool);
    a.apply_event(AgentEvent::ToolResult { is_error: true }, 0);
    assert_eq!(a.status, AgentStatus::Error);
    a.apply_event(AgentEvent::Completed { is_error: false }, 0);
    assert_eq!(a.status, AgentStatus::Completed);
    a.apply_event(AgentEvent::Completed { is_error: true }, 0);
    assert_eq!(a.status, AgentStatus::Error);
}

#[test]
fn spawning_makes_a_lead_and_no_doubles() {
    let mut a = agent();
    a.apply_event(spawns("call-1", "look"), 0);
    a.apply_event(spawns("call-1", "look again"), 0);
    a.apply_event(spawns("call-2", "write"), 0);
    assert_eq!(a.role, AgentRole::Lead);
    assert_eq!(a.sub_agents.len(), 2);
    assert_eq!(a.sub_agents[0].prompt_summary, "look");
    assert_eq!(a.sub_agents[0].status, AgentStatus::Working);
    assert_eq!(a.sub_agents[1].task_tool_use_id, "call-2");
    assert_eq!(a.sub_agents[1].session_id, None);
}

#[test]
fn adoption_happens_once() {
    let mut a = agent();
    a.adopt("child");
    a.adopt("child");
    assert_eq!(a.role, AgentRole::Lead);
    assert_eq!(a.sub_agents.len(), 1);
    assert_eq!(a.sub_agents[0].session_id.as_deref(), Some("child"));
    assert_eq!(a.sub_agents[0].task_tool_use_id, "child");
}

#[test]
fn events_of_a_sub_agent_stay_with_it() {
    let mut a = agent();
    a.adopt("one");
    a.adopt("two");
    a.apply_event_to_sub("two", call("Read", "a.rs"), 7 * SEC);
    assert_eq!(a.sub_agents[0].last_tool, None);
    assert_eq!(a.sub_agents[1].last_tool.as_deref(), Some("Read"));
    assert_eq!(a.sub_agents[1].last_activity, Some(7 * SEC));
    a.apply_event_to_sub("two", says("done?"), 8 * SEC);
    assert_eq!(a.sub_agents[1].status, AgentStatus::WaitingForYou);
    a.apply_event_to_sub("two", AgentEvent::Completed { is_error: false }, 9 * SEC);
    assert_eq!(a.sub_agents[1].status, AgentStatus::Completed);
    a.apply_event_to_sub("two", AgentEvent::ToolResult { is_error: true }, 9 * SEC);
    assert_eq!(a.sub_agents[1].status, AgentStatus::Error);
    a.apply_event_to_sub("two", spawns("x", "y"), 10 * SEC);
    assert_eq!(a.sub_agents[1].status, AgentStatus::Error);
    assert_eq!(a.sub_agents[1].last_activity, Some(10 * SEC));
    a.apply_event_to_sub("three", says("nobody"), 11 * SEC);
    assert_eq!(a.sub_agents.len(), 2);
    assert_eq!(a.status, AgentStatus::Idle);
}

#[test]
fn only_work_goes_idle_and_only_after_the_threshold() {
    let mut a = agent();
    a.apply_event(call("Bash", "ls"), 0);
    a.refresh_idle(30 * SEC);
    assert_eq!(a.status, AgentStatus::Working);
    a.refresh_idle(30 * SEC + 1);
    assert_eq!(a.status, AgentStatus::Idle);
    a.apply_event(says("hello"), 31 * SEC);
    a.refresh_idle(500 * SEC);
    assert_eq!(a.status, AgentStatus::WaitingForYou);
}

#[test]
fn elapsed_time_of_agents_in_words() {
    let a = agent();
    assert_eq!(a.elapsed_str(0), "0s ago");
    assert_eq!(a.elapsed_str(59 * SEC + 999), "59s ago");
    assert_eq!(a.elapsed_str(60 * SEC), "1m0s ago");
    assert_eq!(a.elapsed_str(187 * SEC), "3m7s ago");
    assert_eq!(a.elapsed_str(3599 * SEC), "59m59s ago");
    assert_eq!(a.elapsed_str(3600 * SEC), "1h ago");
    assert_eq!(a.elapsed_str(36_000 * SEC), "10h ago");
}

#[test]
fn elapsed_time_of_sub_agents_in_words() {
    let mut s = SubAgent::new("t".to_string(), "p".to_string(), None);
    assert_eq!(s.elapsed_str(99 * SEC), "—");
    s.last_activity = Some(0);
    assert_eq!(s.elapsed_str(42 * SEC), "42s ago");
    assert_eq!(s.elapsed_str(7325 * SEC), "122m5s ago");
}

#[test]
fn time_does_not_run_backwards() {
    let mut a = agent();
    a.apply_event(call("Bash", "ls"), 100 * SEC);
    a.refresh_idle(SEC);
    assert_eq!(a.status, AgentStatus::Working);
    assert_eq!(a.elapsed_str(SEC), "0s ago");
}

#[test]
fn a_copy_of_an_agent_is_the_same() {
    let mut a = agent();
    a.adopt("child");
    a.apply_event(call("Bash", "ls"), 7);
    let b = a.clone();
    assert_eq!(format!("{a:?}"), format!("{b:?}"));
    a.apply_event(says("on"), 8);
    assert_eq!(b.status, AgentStatus::Working);
    assert_eq!(b.session_file, PathBuf::from("/s/0123.jsonl"));
}

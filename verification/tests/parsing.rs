use serde_json::Value;
use swarm_monitor::parser::{
    block_event, extract_events, record_text, summarize_tool_input, AgentEvent, ContentBlock,
    Message, MessageContent, Record, RecordType,
};

fn json(text: &str) -> Option<Value> {
    Some(serde_json::from_str(text).unwrap())
}

fn block(kind: &str) -> ContentBlock {
    ContentBlock {
        block_type: kind.to_string(),
        text: None,
        id: None,
        name: None,
        input: None,
        thinking: None,
    }
}

fn tool(name: &str, id: &str, input: &str) -> ContentBlock {
    ContentBlock {
        id: Some(id.to_string()),
        name: Some(name.to_string()),
        input: json(input),
        ..block("tool_use")
    }
}

fn text(s: &str) -> ContentBlock {
    ContentBlock { text: Some(s.to_string()), ..block("text") }
}

fn record(record_type: RecordType, content: Option<MessageContent>) -> Record {
    Record {
        record_type,
        uuid: None,
        parent_uuid: None,
        timestamp: None,
        session_id: None,
        cwd: None,
        message: Some(Message { role: None, model: None, content, usage: None }),
        parent_tool_use_id: None,
        agent_id: None,
        agent_type: None,
        team_name: None,
        is_error: None,
    }
}

fn assistant(blocks: Vec<ContentBlock>) -> Record {
    record(RecordType::Assistant, Some(MessageContent::Blocks(blocks)))
}

#[test]
fn blank_lines_hold_no_record() {
    assert_eq!(record_text(""), None);
    assert_eq!(record_text(" \t\r"), None);
    assert_eq!(record_text("  {\"a\":1}\r").as_deref(), Some("{\"a\":1}"));
    assert_eq!(record_text("\u{a0}x\u{3000}").as_deref(), Some("x"));
}

#[test]
fn telling_members_of_tool_inputs() {
    let input = json("{\"command\":\"ls -l\",\"file_path\":\"/a.rs\",\"pattern\":\"*.rs\"}");
    assert_eq!(summarize_tool_input("Bash", &input), "ls -l");
    for name in ["Read", "Write", "Edit", "MultiEdit"] {
        assert_eq!(summarize_tool_input(name, &input), "/a.rs");
    }
    assert_eq!(summarize_tool_input("Glob", &input), "*.rs");
    assert_eq!(summarize_tool_input("Grep", &input), "*.rs");
}

#[test]
fn inputs_without_a_telling_member() {
    assert_eq!(summarize_tool_input("Bash", &json("{\"command\":3}")), "");
    assert_eq!(summarize_tool_input("Bash", &json("[1]")), "");
    assert_eq!(summarize_tool_input("Bash", &None), "");
    assert_eq!(summarize_tool_input("WebFetch", &json("{ \"url\" : \"x\" }")), "{\"url\":\"x\"}");
    assert_eq!(summarize_tool_input("Other", &json("[1, 2]")), "[1,2]");
}

#[test]
fn long_inputs_are_cut_after_sixty_characters() {
    let long = "é".repeat(70);
    let input = json(&format!("{{\"command\":\"{long}\"}}"));
    assert_eq!(summarize_tool_input("Bash", &input), "é".repeat(60));
}

#[test]
fn tool_use_is_a_call() {
    match block_event(&tool("Bash", "t1", "{\"command\":\"ls\"}")) {
        Some(AgentEvent::ToolCall { tool_name, tool_input_summary }) => {
            assert_eq!(tool_name, "Bash");
            assert_eq!(tool_input_summary, "ls");
        }
        _ => panic!("no call"),
    }
}

#[test]
fn task_call_spawns() {
    let prompt = "p".repeat(100);
    match block_event(&tool("Task", "t7", &format!("{{\"prompt\":\"{prompt}\"}}"))) {
        Some(AgentEvent::SpawnSubAgent { task_tool_use_id, prompt_summary }) => {
            assert_eq!(task_tool_use_id, "t7");
            assert_eq!(prompt_summary, "p".repeat(80));
        }
        _ => panic!("no spawn"),
    }
}

#[test]
fn task_call_without_a_prompt() {
    let mut b = tool("Task", "t7", "{}");
    b.id = None;
    match block_event(&b) {
        Some(AgentEvent::SpawnSubAgent { task_tool_use_id, prompt_summary }) => {
            assert_eq!(task_tool_use_id, "");
            assert_eq!(prompt_summary, "");
        }
        _ => panic!("no spawn"),
    }
}

#[test]
fn texts_that_are_not_blank_are_responses() {
    match block_event(&text(&format!(" {}", "t".repeat(200)))) {
        Some(AgentEvent::TextResponse { text }) => assert_eq!(text, format!(" {}", "t".repeat(119))),
        _ => panic!("no response"),
    }
    assert!(block_event(&text(" \n ")).is_none());
    assert!(block_event(&block("text")).is_none());
    assert!(block_event(&block("thinking")).is_none());
}

#[test]
fn records_in_order() {
    let mut failed = record(RecordType::Result, None);
    failed.is_error = Some(true);
    let events = extract_events(&[
        record(RecordType::User, Some(MessageContent::Blocks(vec![text("hi")]))),
        assistant(vec![text("first"), tool("Read", "t", "{\"file_path\":\"a\"}")]),
        record(RecordType::Assistant, Some(MessageContent::Text("plain".to_string()))),
        record(RecordType::ToolResult, None),
        record(RecordType::System, None),
        record(RecordType::Result, None),
        failed,
    ]);
    assert_eq!(events.len(), 5);
    assert!(matches!(&events[0], AgentEvent::TextResponse { text } if text == "first"));
    assert!(matches!(&events[1], AgentEvent::ToolCall { tool_name, .. } if tool_name == "Read"));
    assert!(matches!(events[2], AgentEvent::ToolResult { is_error: false }));
    assert!(matches!(events[3], AgentEvent::Completed { is_error: false }));
    assert!(matches!(events[4], AgentEvent::Completed { is_error: true }));
}

#[test]
fn records_in_two_pieces_give_the_same_events() {
    let records = || vec![assistant(vec![text("a"), text("b")]), record(RecordType::Result, None)];
    let whole = extract_events(&records());
    let mut pieces = extract_events(&records()[..1]);
    pieces.extend(extract_events(&records()[1..]));
    assert_eq!(format!("{whole:?}"), format!("{pieces:?}"));
    assert_eq!(whole.len(), 3);
}

#[test]
fn assistant_without_a_message_says_nothing() {
    let mut r = assistant(vec![]);
    r.message = None;
    assert!(extract_events(&[r]).is_empty());
    assert!(extract_events(&[record(RecordType::Assistant, None)]).is_empty());
    assert!(extract_events(&[]).is_empty());
}

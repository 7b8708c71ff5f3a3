//! Session records, and the agent events that they stand for.
//!
//! A session file holds one JSON record per line. Turning a line into a [`Record`] is left to
//! the application; this module decides which lines hold a record and what a record means.
use crate::text;
use serde_json::Value;
use vstd::prelude::*;

verus! {

// ---------------------------------------------------------------------------------------------
// Records
// ---------------------------------------------------------------------------------------------

#[derive(Debug, Clone)]
pub struct Record {
    pub record_type: RecordType,
    pub uuid: Option<String>,
    pub parent_uuid: Option<String>,
    pub timestamp: Option<String>,
    pub session_id: Option<String>,
    pub cwd: Option<String>,
    pub message: Option<Message>,
    pub parent_tool_use_id: Option<String>,
    pub agent_id: Option<String>,
    pub agent_type: Option<String>,
    pub team_name: Option<String>,
    pub is_error: Option<bool>,
}

#[derive(Debug, Clone, Copy, PartialEq, Eq, Structural)]
pub enum RecordType {
    User,
    Assistant,
    ToolResult,
    System,
    Summary,
    Result,
    FileHistorySnapshot,
    Unknown,
}

#[derive(Debug, Clone)]
pub struct Message {
    pub role: Option<String>,
    pub model: Option<String>,
    pub content: Option<MessageContent>,
    pub usage: Option<Usage>,
}

#[derive(Debug, Clone)]
pub enum MessageContent {
    Text(String),
    Blocks(Vec<ContentBlock>),
}

#[derive(Debug, Clone)]
pub struct ContentBlock {
    pub block_type: String,
    pub text: Option<String>,
    pub id: Option<String>,
    pub name: Option<String>,
    pub input: Option<Value>,
    pub thinking: Option<String>,
}

#[derive(Debug, Clone, Copy)]
pub struct Usage {
    pub input_tokens: Option<u64>,
    pub output_tokens: Option<u64>,
}

// ---------------------------------------------------------------------------------------------
// Events
// ---------------------------------------------------------------------------------------------

/// What an agent did.
#[derive(Debug, Clone)]
pub enum AgentEvent {
    ToolCall { tool_name: String, tool_input_summary: String },
    ToolResult { is_error: bool },
    TextResponse { text: String },
    SpawnSubAgent { task_tool_use_id: String, prompt_summary: String },
    Completed { is_error: bool },
}

pub enum AgentEventView {
    ToolCall { tool_name: Seq<char>, tool_input_summary: Seq<char> },
    ToolResult { is_error: bool },
    TextResponse { text: Seq<char> },
    SpawnSubAgent { task_tool_use_id: Seq<char>, prompt_summary: Seq<char> },
    Completed { is_error: bool },
}

impl View for AgentEvent {
    type V = AgentEventView;

    open spec fn view(&self) -> AgentEventView {
        match self {
            AgentEvent::ToolCall { tool_name, tool_input_summary } => AgentEventView::ToolCall {
                tool_name: tool_name@,
                tool_input_summary: tool_input_summary@,
            },
            AgentEvent::ToolResult { is_error } => AgentEventView::ToolResult {
                is_error: *is_error,
            },
            AgentEvent::TextResponse { text } => AgentEventView::TextResponse { text: text@ },
            AgentEvent::SpawnSubAgent { task_tool_use_id, prompt_summary } => {
                AgentEventView::SpawnSubAgent {
                    task_tool_use_id: task_tool_use_id@,
                    prompt_summary: prompt_summary@,
                }
            },
            AgentEvent::Completed { is_error } => AgentEventView::Completed { is_error: *is_error },
        }
    }
}

impl DeepView for AgentEvent {
    type V = AgentEventView;

    open spec fn deep_view(&self) -> AgentEventView {
        self@
    }
}

// ---------------------------------------------------------------------------------------------
// JSON values
// ---------------------------------------------------------------------------------------------

/// A JSON value of `serde_json`.
#[verifier::external_type_specification]
#[verifier::external_body]
pub struct ExValue(Value);

/// The members of a JSON object whose values are strings, each with its string. Empty for a value
/// that is no object.
pub uninterp spec fn json_strings(value: Value) -> Map<Seq<char>, Seq<char>>;

/// The compact JSON text of a value.
pub uninterp spec fn json_text(value: Value) -> Seq<char>;

/// `Value::get` with a string index, then `Value::as_str`: the string that an object has under a
/// key. There is none where the value is no object, has no such key, or has something else than
/// a string there.
#[verifier::external_body]
fn string_member(value: &Value, key: &str) -> (r: Option<String>)
    ensures
        r is Some <==> json_strings(*value).contains_key(key@),
        r is Some ==> r->0@ == json_strings(*value)[key@],
{
    value.get(key).and_then(|member| member.as_str()).map(|s| s.to_string())
}

/// `Value::to_string`: the value as compact JSON text.
#[verifier::external_body]
fn compact_text(value: &Value) -> (r: String)
    ensures
        r@ == json_text(*value),
{
    value.to_string()
}

// ---------------------------------------------------------------------------------------------
// Lines
// ---------------------------------------------------------------------------------------------

/// The record text of a line: what is left of it without the white space around it, unless that
/// is nothing.
pub open spec fn line_record(line: Seq<char>) -> Option<Seq<char>> {
    let inner = text::trim(line, text::CharClass::Space);
    if inner.len() == 0 {
        None
    } else {
        Some(inner)
    }
}

/// The text on a line that a record is read from. A blank line holds none.
pub fn record_text(line: &str) -> (r: Option<String>)
    ensures
        r.deep_view() == line_record(line@),
{
    let inner: String = text::trim_text(line, text::CharClass::Space);
    if inner.as_str().is_empty() {
        None
    } else {
        Some(inner)
    }
}

// ---------------------------------------------------------------------------------------------
// What the records mean
// ---------------------------------------------------------------------------------------------

/// The most characters that are kept of a tool's input.
pub const SUMMARY_CHARS: usize = 60;

/// The most characters that are kept of a sub-agent's prompt.
pub const PROMPT_CHARS: usize = 80;

/// The most characters that are kept of a response.
pub const RESPONSE_CHARS: usize = 120;

/// A text, or the empty one where there is none.
pub open spec fn or_empty(s: Option<Seq<char>>) -> Seq<char> {
    match s {
        Some(t) => t,
        None => Seq::empty(),
    }
}

/// A copy of a text, or the empty one where there is none.
pub fn text_or_empty(s: &Option<String>) -> (r: String)
    ensures
        r@ == or_empty(s.deep_view()),
{
    match s {
        Some(t) => t.clone(),
        None => String::new(),
    }
}

/// The string that a JSON value has under a key.
pub open spec fn json_string(value: Value, key: Seq<char>) -> Option<Seq<char>> {
    if json_strings(value).contains_key(key) {
        Some(json_strings(value)[key])
    } else {
        None
    }
}

/// The member of a tool's input that says what the tool works on, for the tools that have one.
pub open spec fn summary_key(tool: Seq<char>) -> Option<Seq<char>> {
    if tool == "Bash"@ {
        Some("command"@)
    } else if tool == "Read"@ || tool == "Write"@ || tool == "Edit"@ || tool == "MultiEdit"@ {
        Some("file_path"@)
    } else if tool == "Glob"@ || tool == "Grep"@ {
        Some("pattern"@)
    } else {
        None
    }
}

/// The member of a tool's input that says what the tool works on, for the tools that have one.
pub fn input_key(tool: &str) -> (r: Option<&'static str>)
    ensures
        r.deep_view() == summary_key(tool@),
{
    if text::same_text(tool, "Bash") {
        Some("command")
    } else if text::same_text(tool, "Read") || text::same_text(tool, "Write") || text::same_text(
        tool,
        "Edit",
    ) || text::same_text(tool, "MultiEdit") {
        Some("file_path")
    } else if text::same_text(tool, "Glob") || text::same_text(tool, "Grep") {
        Some("pattern")
    } else {
        None
    }
}

/// What is shown of a tool's input: the start of its telling member, or of the whole input for a
/// tool without one.
pub open spec fn input_summary(tool: Seq<char>, input: Option<Value>) -> Seq<char> {
    match input {
        None => Seq::empty(),
        Some(value) => text::clip(
            match summary_key(tool) {
                Some(key) => or_empty(json_string(value, key)),
                None => json_text(value),
            },
            SUMMARY_CHARS as int,
        ),
    }
}

/// The start of what was found in a tool's input.
pub fn summary_of(found: Option<String>) -> (r: String)
    ensures
        r@ == text::clip(or_empty(found.deep_view()), SUMMARY_CHARS as int),
{
    text::clip_text(&text_or_empty(&found), SUMMARY_CHARS)
}

/// What is shown of a tool's input.
pub fn summarize_tool_input(tool_name: &str, input: &Option<Value>) -> (r: String)
    ensures
        r@ == input_summary(tool_name@, *input),
{
    match input {
        None => String::new(),
        Some(value) => {
            match input_key(tool_name) {
                Some(key) => summary_of(string_member(value, key)),
                None => summary_of(Some(compact_text(value))),
            }
        },
    }
}

/// The event of a `Task` call with the given identifier and prompt.
pub open spec fn spawn(id: Option<Seq<char>>, prompt: Option<Seq<char>>) -> AgentEventView {
    AgentEventView::SpawnSubAgent {
        task_tool_use_id: or_empty(id),
        prompt_summary: text::clip(or_empty(prompt), PROMPT_CHARS as int),
    }
}

/// The event of a `Task` call with the given identifier and prompt.
pub fn spawn_event(id: &Option<String>, prompt: Option<String>) -> (r: AgentEvent)
    ensures
        r@ == spawn(id.deep_view(), prompt.deep_view()),
{
    AgentEvent::SpawnSubAgent {
        task_tool_use_id: text_or_empty(id),
        prompt_summary: text::clip_text(&text_or_empty(&prompt), PROMPT_CHARS),
    }
}

/// The event that a content block stands for, if any: a `Task` call spawns a sub-agent, any other
/// tool use is a tool call, and a text that is not blank is a response.
pub open spec fn block_meaning(block: ContentBlock) -> Option<AgentEventView> {
    if block.block_type@ == "tool_use"@ {
        let tool = or_empty(block.name.deep_view());
        if tool == "Task"@ {
            Some(
                spawn(
                    block.id.deep_view(),
                    match block.input {
                        Some(value) => json_string(value, "prompt"@),
                        None => None,
                    },
                ),
            )
        } else {
            Some(
                AgentEventView::ToolCall {
                    tool_name: tool,
                    tool_input_summary: input_summary(tool, block.input),
                },
            )
        }
    } else if block.block_type@ == "text"@ {
        match block.text {
            Some(s) if line_record(s@) is Some => Some(
                AgentEventView::TextResponse { text: text::clip(s@, RESPONSE_CHARS as int) },
            ),
            _ => None,
        }
    } else {
        None
    }
}

/// The event that a content block stands for, if any.
pub fn block_event(block: &ContentBlock) -> (r: Option<AgentEvent>)
    ensures
        r.deep_view() == block_meaning(*block),
{
    if text::same_text(&block.block_type, "tool_use") {
        let tool_name: String = text_or_empty(&block.name);
        if text::same_text(&tool_name, "Task") {
            let prompt: Option<String> = match &block.input {
                Some(value) => string_member(value, "prompt"),
                None => None,
            };
            Some(spawn_event(&block.id, prompt))
        } else {
            let summary: String = summarize_tool_input(&tool_name, &block.input);
            Some(AgentEvent::ToolCall { tool_name, tool_input_summary: summary })
        }
    } else if text::same_text(&block.block_type, "text") {
        match &block.text {
            Some(s) => {
                if record_text(s).is_some() {
                    Some(AgentEvent::TextResponse { text: text::clip_text(s, RESPONSE_CHARS) })
                } else {
                    None
                }
            },
            None => None,
        }
    } else {
        None
    }
}

/// At most one event as a sequence.
pub open spec fn at_most_one(event: Option<AgentEventView>) -> Seq<AgentEventView> {
    match event {
        Some(e) => seq![e],
        None => Seq::empty(),
    }
}

/// The events of a message's blocks, in order.
pub open spec fn block_events(blocks: Seq<ContentBlock>) -> Seq<AgentEventView>
    decreases blocks.len(),
{
    if blocks.len() == 0 {
        Seq::empty()
    } else {
        block_events(blocks.drop_last()) + at_most_one(block_meaning(blocks.last()))
    }
}

/// The events of one record: those of its blocks for an assistant's message, a tool result, or
/// the end of the session.
pub open spec fn record_events(record: Record) -> Seq<AgentEventView> {
    match record.record_type {
        RecordType::Assistant => match record.message {
            Some(message) => match message.content {
                Some(MessageContent::Blocks(blocks)) => block_events(blocks@),
                _ => Seq::empty(),
            },
            None => Seq::empty(),
        },
        RecordType::ToolResult => seq![AgentEventView::ToolResult { is_error: false }],
        RecordType::Result => seq![
            AgentEventView::Completed {
                is_error: match record.is_error {
                    Some(b) => b,
                    None => false,
                },
            },
        ],
        _ => Seq::empty(),
    }
}

/// The events of a sequence of records, in order.
pub open spec fn events_of(records: Seq<Record>) -> Seq<AgentEventView>
    decreases records.len(),
{
    if records.len() == 0 {
        Seq::empty()
    } else {
        events_of(records.drop_last()) + record_events(records.last())
    }
}

fn push_block_events(events: &mut Vec<AgentEvent>, blocks: &Vec<ContentBlock>)
    ensures
        final(events).deep_view() == old(events).deep_view() + block_events(blocks@),
{
    let ghost before = events.deep_view();
    let mut i: usize = 0;
    assert(before + block_events(blocks@.take(0)) =~= before);
    while i < blocks.len()
        invariant
            i <= blocks@.len(),
            events.deep_view() == before + block_events(blocks@.take(i as int)),
        decreases blocks.len() - i,
    {
        let ghost done = events.deep_view();
        match block_event(&blocks[i]) {
            Some(event) => {
                events.push(event);
                assert(events.deep_view() =~= done.push(event@));
            },
            None => {},
        }
        proof {
            assert(blocks@.take(i + 1).drop_last() =~= blocks@.take(i as int));
            assert(blocks@.take(i + 1).last() == blocks@[i as int]);
            assert(events.deep_view() =~= before + block_events(blocks@.take(i + 1)));
        }
        i += 1;
    }
    assert(blocks@.take(i as int) =~= blocks@);
}

/// The events that a sequence of records stands for, in order.
pub fn extract_events(records: &[Record]) -> (r: Vec<AgentEvent>)
    ensures
        r.deep_view() == events_of(records@),
{
    let mut events: Vec<AgentEvent> = Vec::new();
    let mut i: usize = 0;
    assert(events.deep_view() =~= events_of(records@.take(0)));
    while i < records.len()
        invariant
            i <= records@.len(),
            events.deep_view() == events_of(records@.take(i as int)),
        decreases records.len() - i,
    {
        let ghost done = events.deep_view();
        let record: &Record = &records[i];
        match record.record_type {
            RecordType::Assistant => {
                if let Some(message) = &record.message {
                    if let Some(MessageContent::Blocks(blocks)) = &message.content {
                        push_block_events(&mut events, blocks);
                    }
                }
            },
            RecordType::ToolResult => {
                events.push(AgentEvent::ToolResult { is_error: false });
            },
            RecordType::Result => {
                events.push(AgentEvent::Completed { is_error: record.is_error.unwrap_or(false) });
            },
            _ => {},
        }
        proof {
            assert(records@.take(i + 1).drop_last() =~= records@.take(i as int));
            assert(records@.take(i + 1).last() == records@[i as int]);
            assert(events.deep_view() =~= done + record_events(*record));
        }
        i += 1;
    }
    assert(records@.take(i as int) =~= records@);
    events
}

// ---------------------------------------------------------------------------------------------
// Laws
// ---------------------------------------------------------------------------------------------

/// An event holds only as much text as is shown of it. The name of a tool and the identifier of
/// a call are kept whole.
pub open spec fn is_short(event: AgentEventView) -> bool {
    match event {
        AgentEventView::ToolCall { tool_input_summary, .. } => tool_input_summary.len()
            <= SUMMARY_CHARS,
        AgentEventView::TextResponse { text } => text.len() <= RESPONSE_CHARS,
        AgentEventView::SpawnSubAgent { prompt_summary, .. } => prompt_summary.len()
            <= PROMPT_CHARS,
        _ => true,
    }
}

proof fn lemma_block_events_short(blocks: Seq<ContentBlock>)
    ensures
        forall|i: int|
            0 <= i < block_events(blocks).len() ==> is_short(#[trigger] block_events(blocks)[i]),
    decreases blocks.len(),
{
    if blocks.len() > 0 {
        let rest = block_events(blocks.drop_last());
        lemma_block_events_short(blocks.drop_last());
        assert forall|i: int| 0 <= i < block_events(blocks).len() implies is_short(
            #[trigger] block_events(blocks)[i],
        ) by {
            if i < rest.len() {
                assert(block_events(blocks)[i] == rest[i]);
            }
        }
    }
}

/// No event of any records holds more text than is shown of it.
pub proof fn law_events_are_short(records: Seq<Record>)
    ensures
        forall|i: int|
            0 <= i < events_of(records).len() ==> is_short(#[trigger] events_of(records)[i]),
    decreases records.len(),
{
    if records.len() > 0 {
        let rest = events_of(records.drop_last());
        law_events_are_short(records.drop_last());
        if let Some(message) = records.last().message {
            if let Some(MessageContent::Blocks(blocks)) = message.content {
                lemma_block_events_short(blocks@);
            }
        }
        assert forall|i: int| 0 <= i < events_of(records).len() implies is_short(
            #[trigger] events_of(records)[i],
        ) by {
            if i < rest.len() {
                assert(events_of(records)[i] == rest[i]);
            } else {
                assert(events_of(records)[i] == record_events(records.last())[i - rest.len()]);
            }
        }
    }
}

/// A text block that is not blank is a response, and a blank one says nothing.
pub proof fn law_text_block(block: ContentBlock)
    requires
        block.block_type@ == "text"@,
        block.text is Some,
    ensures
        block_meaning(block) is Some <==> line_record(block.text->0@) is Some,
        block_meaning(block) is Some ==> block_meaning(block)->0 is TextResponse,
{
    reveal_strlit("text");
    reveal_strlit("tool_use");
    assert("text"@.len() != "tool_use"@.len());
}

} // verus!

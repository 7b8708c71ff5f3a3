//! Agents and the sub-agents that they spawn.
//!
//! Points in time are nanoseconds on one clock that never goes back.
use crate::color::Color;
use crate::parser::{AgentEvent, AgentEventView};
use crate::seqs;
use crate::text;
use std::path::PathBuf;
use vstd::prelude::*;

verus! {

/// A file system path, carried along and never looked into.
#[verifier::external_type_specification]
#[verifier::external_body]
pub struct ExPathBuf(PathBuf);

/// `PathBuf::clone`: the same path once more.
pub assume_specification [ <PathBuf as Clone>::clone ](path: &PathBuf) -> (r: PathBuf)
    ensures
        r == *path,
;

/// Seconds without activity after which a working agent counts as idle.
pub const IDLE_THRESHOLD_SECS: u64 = 30;

pub const NANOS_PER_SEC: u64 = 1_000_000_000;

/// The time from `then` to `now`, or none at all where `then` lies ahead.
pub open spec fn elapsed(then: u64, now: u64) -> nat {
    if then <= now {
        (now - then) as nat
    } else {
        0
    }
}

/// The whole seconds from `then` to `now`.
pub open spec fn elapsed_secs(then: u64, now: u64) -> nat {
    elapsed(then, now) / NANOS_PER_SEC as nat
}

/// The time from `then` to `now` in nanoseconds.
pub fn nanos_since(then: u64, now: u64) -> (r: u64)
    ensures
        r == elapsed(then, now),
{
    if then <= now {
        now - then
    } else {
        0
    }
}

/// The whole seconds from `then` to `now`.
pub fn secs_since(then: u64, now: u64) -> (r: u64)
    ensures
        r == elapsed_secs(then, now),
{
    nanos_since(then, now) / NANOS_PER_SEC
}

// ---------------------------------------------------------------------------------------------
// Status
// ---------------------------------------------------------------------------------------------

#[derive(Debug, Clone, Copy, PartialEq, Eq, Structural)]
pub enum AgentStatus {
    Working,
    WaitingForYou,
    Idle,
    Completed,
    Error,
}

/// The label of a status.
pub open spec fn status_label(status: AgentStatus) -> Seq<char> {
    match status {
        AgentStatus::Working => "● WORKING"@,
        AgentStatus::WaitingForYou => "⏸ WAITING FOR YOU"@,
        AgentStatus::Idle => "◌ IDLE"@,
        AgentStatus::Completed => "✓ DONE"@,
        AgentStatus::Error => "✗ ERROR"@,
    }
}

/// The color of a status.
pub open spec fn status_color(status: AgentStatus) -> Color {
    match status {
        AgentStatus::Working => Color::Green,
        AgentStatus::WaitingForYou => Color::Yellow,
        AgentStatus::Idle => Color::DarkGray,
        AgentStatus::Completed => Color::Cyan,
        AgentStatus::Error => Color::Red,
    }
}

impl AgentStatus {
    pub fn label(&self) -> (r: &'static str)
        ensures
            r@ == status_label(*self),
    {
        match self {
            AgentStatus::Working => "● WORKING",
            AgentStatus::WaitingForYou => "⏸ WAITING FOR YOU",
            AgentStatus::Idle => "◌ IDLE",
            AgentStatus::Completed => "✓ DONE",
            AgentStatus::Error => "✗ ERROR",
        }
    }

    pub fn color(&self) -> (r: Color)
        ensures
            r == status_color(*self),
    {
        match self {
            AgentStatus::Working => Color::Green,
            AgentStatus::WaitingForYou => Color::Yellow,
            AgentStatus::Idle => Color::DarkGray,
            AgentStatus::Completed => Color::Cyan,
            AgentStatus::Error => Color::Red,
        }
    }
}

/// The status after something that may have failed.
pub open spec fn outcome(is_error: bool, otherwise: AgentStatus) -> AgentStatus {
    if is_error {
        AgentStatus::Error
    } else {
        otherwise
    }
}

fn outcome_status(is_error: bool, otherwise: AgentStatus) -> (r: AgentStatus)
    ensures
        r == outcome(is_error, otherwise),
{
    if is_error {
        AgentStatus::Error
    } else {
        otherwise
    }
}

// ---------------------------------------------------------------------------------------------
// Elapsed time in words
// ---------------------------------------------------------------------------------------------

/// Seconds, such as `42s ago`.
pub open spec fn secs_words(secs: nat) -> Seq<char> {
    text::decimal(secs) + "s ago"@
}

/// Minutes and seconds, such as `3m7s ago`.
pub open spec fn minutes_words(secs: nat) -> Seq<char> {
    text::decimal(secs / 60) + "m"@ + text::decimal(secs % 60) + "s ago"@
}

/// Hours, such as `2h ago`.
pub open spec fn hours_words(secs: nat) -> Seq<char> {
    text::decimal(secs / 3600) + "h ago"@
}

fn secs_text(secs: u64) -> (r: String)
    ensures
        r@ == secs_words(secs as nat),
{
    let mut s: String = text::decimal_text(secs);
    s.append("s ago");
    s
}

fn minutes_text(secs: u64) -> (r: String)
    ensures
        r@ == minutes_words(secs as nat),
{
    let mut s: String = text::decimal_text(secs / 60);
    s.append("m");
    s.append(&text::decimal_text(secs % 60));
    s.append("s ago");
    s
}

fn hours_text(secs: u64) -> (r: String)
    ensures
        r@ == hours_words(secs as nat),
{
    let mut s: String = text::decimal_text(secs / 3600);
    s.append("h ago");
    s
}

// ---------------------------------------------------------------------------------------------
// Sub-agents
// ---------------------------------------------------------------------------------------------

/// An agent that another agent spawned. It is known by the tool call that spawned it, and by its
/// own session once that has been found.
#[derive(Debug)]
pub struct SubAgent {
    pub task_tool_use_id: String,
    pub prompt_summary: String,
    pub session_id: Option<String>,
    pub status: AgentStatus,
    pub last_tool: Option<String>,
    pub last_tool_input: Option<String>,
    pub last_activity: Option<u64>,
}

pub struct SubAgentView {
    pub task_tool_use_id: Seq<char>,
    pub prompt_summary: Seq<char>,
    pub session_id: Option<Seq<char>>,
    pub status: AgentStatus,
    pub last_tool: Option<Seq<char>>,
    pub last_tool_input: Option<Seq<char>>,
    pub last_activity: Option<u64>,
}

impl View for SubAgent {
    type V = SubAgentView;

    open spec fn view(&self) -> SubAgentView {
        SubAgentView {
            task_tool_use_id: self.task_tool_use_id@,
            prompt_summary: self.prompt_summary@,
            session_id: self.session_id.deep_view(),
            status: self.status,
            last_tool: self.last_tool.deep_view(),
            last_tool_input: self.last_tool_input.deep_view(),
            last_activity: self.last_activity,
        }
    }
}

impl DeepView for SubAgent {
    type V = SubAgentView;

    open spec fn deep_view(&self) -> SubAgentView {
        self@
    }
}

/// A sub-agent that has just been spawned.
pub open spec fn new_sub(
    tool_use_id: Seq<char>,
    prompt: Seq<char>,
    session_id: Option<Seq<char>>,
) -> SubAgentView {
    SubAgentView {
        task_tool_use_id: tool_use_id,
        prompt_summary: prompt,
        session_id,
        status: AgentStatus::Working,
        last_tool: None,
        last_tool_input: None,
        last_activity: None,
    }
}

/// A sub-agent after an event of its own session.
pub open spec fn sub_after(sub: SubAgentView, event: AgentEventView, now: u64) -> SubAgentView {
    let active = SubAgentView { last_activity: Some(now), ..sub };
    match event {
        AgentEventView::ToolCall { tool_name, tool_input_summary } => SubAgentView {
            last_tool: Some(tool_name),
            last_tool_input: Some(tool_input_summary),
            status: AgentStatus::Working,
            ..active
        },
        AgentEventView::ToolResult { is_error } => SubAgentView {
            status: outcome(is_error, AgentStatus::Working),
            ..active
        },
        AgentEventView::TextResponse { .. } => SubAgentView {
            status: AgentStatus::WaitingForYou,
            ..active
        },
        AgentEventView::Completed { is_error } => SubAgentView {
            status: outcome(is_error, AgentStatus::Completed),
            ..active
        },
        AgentEventView::SpawnSubAgent { .. } => active,
    }
}

/// How long ago a sub-agent was active, in words.
pub open spec fn sub_elapsed(sub: SubAgentView, now: u64) -> Seq<char> {
    match sub.last_activity {
        None => "—"@,
        Some(then) => {
            let secs = elapsed_secs(then, now);
            if secs < 60 {
                secs_words(secs)
            } else {
                minutes_words(secs)
            }
        },
    }
}

impl Clone for SubAgent {
    fn clone(&self) -> (r: SubAgent)
        ensures
            r@ == self@,
    {
        SubAgent {
            task_tool_use_id: self.task_tool_use_id.clone(),
            prompt_summary: self.prompt_summary.clone(),
            session_id: text::copy_option(&self.session_id),
            status: self.status,
            last_tool: text::copy_option(&self.last_tool),
            last_tool_input: text::copy_option(&self.last_tool_input),
            last_activity: self.last_activity,
        }
    }
}

impl SubAgent {
    /// A sub-agent that has just been spawned.
    pub fn new(
        task_tool_use_id: String,
        prompt_summary: String,
        session_id: Option<String>,
    ) -> (r: SubAgent)
        ensures
            r@ == new_sub(task_tool_use_id@, prompt_summary@, session_id.deep_view()),
    {
        SubAgent {
            task_tool_use_id,
            prompt_summary,
            session_id,
            status: AgentStatus::Working,
            last_tool: None,
            last_tool_input: None,
            last_activity: None,
        }
    }

    /// Takes in an event of the sub-agent's session.
    pub fn apply_event(&mut self, event: AgentEvent, now: u64)
        ensures
            final(self)@ == sub_after(old(self)@, event@, now),
            match event@ {
                AgentEventView::ToolCall { .. } => final(self).status == AgentStatus::Working,
                AgentEventView::ToolResult { is_error } => final(self).status == if is_error {
                    AgentStatus::Error
                } else {
                    AgentStatus::Working
                },
                AgentEventView::TextResponse { .. } => final(self).status
                    == AgentStatus::WaitingForYou,
                AgentEventView::Completed { is_error } => final(self).status == if is_error {
                    AgentStatus::Error
                } else {
                    AgentStatus::Completed
                },
                AgentEventView::SpawnSubAgent { .. } => final(self).status == old(self).status,
            },
    {
        self.last_activity = Some(now);
        match event {
            AgentEvent::ToolCall { tool_name, tool_input_summary } => {
                self.last_tool = Some(tool_name);
                self.last_tool_input = Some(tool_input_summary);
                self.status = AgentStatus::Working;
            },
            AgentEvent::ToolResult { is_error } => {
                self.status = outcome_status(is_error, AgentStatus::Working);
            },
            AgentEvent::TextResponse { text: _ } => {
                self.status = AgentStatus::WaitingForYou;
            },
            AgentEvent::Completed { is_error } => {
                self.status = outcome_status(is_error, AgentStatus::Completed);
            },
            AgentEvent::SpawnSubAgent { task_tool_use_id: _, prompt_summary: _ } => {},
        }
    }

    /// How long ago the sub-agent was active, in words.
    pub fn elapsed_str(&self, now: u64) -> (r: String)
        ensures
            r@ == sub_elapsed(self@, now),
    {
        match self.last_activity {
            None => "—".to_string(),
            Some(then) => {
                let secs: u64 = secs_since(then, now);
                if secs < 60 {
                    secs_text(secs)
                } else {
                    minutes_text(secs)
                }
            },
        }
    }
}

/// Sub-agents that a tool call spawned.
pub open spec fn spawned_by(tool_use_id: Seq<char>) -> spec_fn(SubAgentView) -> bool {
    |s: SubAgentView| s.task_tool_use_id == tool_use_id
}

/// Sub-agents with a session of their own.
pub open spec fn in_session(session_id: Seq<char>) -> spec_fn(SubAgentView) -> bool {
    |s: SubAgentView| s.session_id == Some(session_id)
}

/// Sub-agents that a tool call spawned and whose session has not been found yet.
pub open spec fn awaits(tool_use_id: Seq<char>) -> spec_fn(SubAgentView) -> bool {
    |s: SubAgentView| s.task_tool_use_id == tool_use_id && s.session_id is None
}

// ---------------------------------------------------------------------------------------------
// Agents
// ---------------------------------------------------------------------------------------------

/// An agent leads once it has a sub-agent.
#[derive(Debug, Clone, Copy, PartialEq, Eq, Structural)]
pub enum AgentRole {
    Lead,
    Worker,
}

/// The agent of one session.
#[derive(Debug)]
pub struct Agent {
    pub session_id: String,
    pub session_file: PathBuf,
    pub role: AgentRole,
    pub status: AgentStatus,
    pub last_tool: Option<String>,
    pub last_tool_input: Option<String>,
    pub last_message: Option<String>,
    pub last_activity: u64,
    pub sub_agents: Vec<SubAgent>,
    pub pending_tool: bool,
}

pub struct AgentView {
    pub session_id: Seq<char>,
    pub session_file: PathBuf,
    pub role: AgentRole,
    pub status: AgentStatus,
    pub last_tool: Option<Seq<char>>,
    pub last_tool_input: Option<Seq<char>>,
    pub last_message: Option<Seq<char>>,
    pub last_activity: u64,
    pub sub_agents: Seq<SubAgentView>,
    pub pending_tool: bool,
}

impl View for Agent {
    type V = AgentView;

    open spec fn view(&self) -> AgentView {
        AgentView {
            session_id: self.session_id@,
            session_file: self.session_file,
            role: self.role,
            status: self.status,
            last_tool: self.last_tool.deep_view(),
            last_tool_input: self.last_tool_input.deep_view(),
            last_message: self.last_message.deep_view(),
            last_activity: self.last_activity,
            sub_agents: self.sub_agents.deep_view(),
            pending_tool: self.pending_tool,
        }
    }
}

impl DeepView for Agent {
    type V = AgentView;

    open spec fn deep_view(&self) -> AgentView {
        self@
    }
}

/// The agent of a session in which nothing has happened yet.
pub open spec fn new_agent(session_id: Seq<char>, session_file: PathBuf, now: u64) -> AgentView {
    AgentView {
        session_id,
        session_file,
        role: AgentRole::Worker,
        status: AgentStatus::Idle,
        last_tool: None,
        last_tool_input: None,
        last_message: None,
        last_activity: now,
        sub_agents: Seq::empty(),
        pending_tool: false,
    }
}

/// The sub-agents with one more, unless the tool call that spawned it is known already.
pub open spec fn subs_with(subs: Seq<SubAgentView>, sub: SubAgentView) -> Seq<SubAgentView> {
    if seqs::any_where(subs, spawned_by(sub.task_tool_use_id)) {
        subs
    } else {
        subs.push(sub)
    }
}

/// An agent after an event of its session.
pub open spec fn agent_after(agent: AgentView, event: AgentEventView, now: u64) -> AgentView {
    let active = AgentView { last_activity: now, ..agent };
    match event {
        AgentEventView::ToolCall { tool_name, tool_input_summary } => AgentView {
            last_tool: Some(tool_name),
            last_tool_input: Some(tool_input_summary),
            pending_tool: true,
            last_message: None,
            status: AgentStatus::Working,
            ..active
        },
        AgentEventView::ToolResult { is_error } => AgentView {
            pending_tool: false,
            status: outcome(is_error, AgentStatus::Working),
            ..active
        },
        AgentEventView::TextResponse { text } => AgentView {
            last_message: Some(text),
            pending_tool: false,
            status: AgentStatus::WaitingForYou,
            ..active
        },
        AgentEventView::SpawnSubAgent { task_tool_use_id, prompt_summary } => AgentView {
            role: AgentRole::Lead,
            status: AgentStatus::Working,
            sub_agents: subs_with(
                agent.sub_agents,
                new_sub(task_tool_use_id, prompt_summary, None),
            ),
            ..active
        },
        AgentEventView::Completed { is_error } => AgentView {
            pending_tool: false,
            status: outcome(is_error, AgentStatus::Completed),
            ..active
        },
    }
}

/// An agent after an event in the session of one of its sub-agents. An event of a session that
/// none of them has changes nothing.
pub open spec fn agent_after_sub(
    agent: AgentView,
    session_id: Seq<char>,
    event: AgentEventView,
    now: u64,
) -> AgentView {
    let i = seqs::first_where(agent.sub_agents, in_session(session_id));
    if i < agent.sub_agents.len() {
        AgentView {
            sub_agents: agent.sub_agents.update(i, sub_after(agent.sub_agents[i], event, now)),
            ..agent
        }
    } else {
        agent
    }
}

/// An agent that has adopted the session of a child: it leads, and the child is a sub-agent of
/// its own, under the child's session in place of a tool call. A child that it has already is not
/// adopted again.
pub open spec fn agent_adopting(agent: AgentView, child: Seq<char>) -> AgentView {
    if seqs::any_where(agent.sub_agents, spawned_by(child)) {
        agent
    } else {
        AgentView {
            role: AgentRole::Lead,
            sub_agents: agent.sub_agents.push(new_sub(child, Seq::empty(), Some(child))),
            ..agent
        }
    }
}

/// An agent, idle if it worked and then did nothing for too long.
pub open spec fn agent_refreshed(agent: AgentView, now: u64) -> AgentView {
    if agent.status == AgentStatus::Working && elapsed(agent.last_activity, now)
        > IDLE_THRESHOLD_SECS * NANOS_PER_SEC {
        AgentView { status: AgentStatus::Idle, ..agent }
    } else {
        agent
    }
}

/// How long ago an agent was active, in words.
pub open spec fn agent_elapsed(agent: AgentView, now: u64) -> Seq<char> {
    let secs = elapsed_secs(agent.last_activity, now);
    if secs < 60 {
        secs_words(secs)
    } else if secs < 3600 {
        minutes_words(secs)
    } else {
        hours_words(secs)
    }
}

impl Clone for Agent {
    fn clone(&self) -> (r: Agent)
        ensures
            r@ == self@,
    {
        let ghost subs = self@.sub_agents;
        let mut sub_agents: Vec<SubAgent> = Vec::new();
        let mut i: usize = 0;
        while i < self.sub_agents.len()
            invariant
                i <= self.sub_agents@.len(),
                subs == self@.sub_agents,
                sub_agents.deep_view() == subs.take(i as int),
            decreases self.sub_agents.len() - i,
        {
            let ghost before = sub_agents.deep_view();
            let sub: SubAgent = self.sub_agents[i].clone();
            sub_agents.push(sub);
            proof {
                assert(subs[i as int] == sub@);
                assert(sub_agents.deep_view() =~= before.push(sub@));
                assert(subs.take(i + 1) =~= before.push(sub@));
            }
            i += 1;
        }
        assert(subs.take(i as int) =~= subs);
        Agent {
            session_id: self.session_id.clone(),
            session_file: self.session_file.clone(),
            role: self.role,
            status: self.status,
            last_tool: text::copy_option(&self.last_tool),
            last_tool_input: text::copy_option(&self.last_tool_input),
            last_message: text::copy_option(&self.last_message),
            last_activity: self.last_activity,
            sub_agents,
            pending_tool: self.pending_tool,
        }
    }
}

impl Agent {
    pub fn new(session_id: String, session_file: PathBuf, now: u64) -> (r: Agent)
        ensures
            r@ == new_agent(session_id@, session_file, now),
    {
        let r = Agent {
            session_id,
            session_file,
            role: AgentRole::Worker,
            status: AgentStatus::Idle,
            last_tool: None,
            last_tool_input: None,
            last_message: None,
            last_activity: now,
            sub_agents: Vec::new(),
            pending_tool: false,
        };
        assert(r@.sub_agents =~= Seq::empty());
        r
    }

    /// Whether a tool call is known to have spawned a sub-agent.
    fn knows_call(&self, tool_use_id: &str) -> (r: bool)
        ensures
            r == seqs::any_where(self@.sub_agents, spawned_by(tool_use_id@)),
    {
        let mut i: usize = 0;
        while i < self.sub_agents.len()
            invariant
                i <= self.sub_agents@.len(),
                forall|j: int|
                    0 <= j < i ==> (#[trigger] self@.sub_agents[j]).task_tool_use_id
                        != tool_use_id@,
            decreases self.sub_agents.len() - i,
        {
            if text::same_text(&self.sub_agents[i].task_tool_use_id, tool_use_id) {
                assert(spawned_by(tool_use_id@)(self@.sub_agents[i as int]));
                return true;
            }
            i += 1;
        }
        false
    }

    fn push_sub(&mut self, sub: SubAgent)
        ensures
            final(self)@ == (AgentView {
                sub_agents: old(self)@.sub_agents.push(sub@),
                ..old(self)@
            }),
    {
        self.sub_agents.push(sub);
        assert(self@.sub_agents =~= old(self)@.sub_agents.push(sub@));
    }

    /// Takes in an event of the agent's session.
    pub fn apply_event(&mut self, event: AgentEvent, now: u64)
        ensures
            final(self)@ == agent_after(old(self)@, event@, now),
    {
        self.last_activity = now;
        match event {
            AgentEvent::ToolCall { tool_name, tool_input_summary } => {
                self.last_tool = Some(tool_name);
                self.last_tool_input = Some(tool_input_summary);
                self.pending_tool = true;
                self.last_message = None;
                self.status = AgentStatus::Working;
            },
            AgentEvent::ToolResult { is_error } => {
                self.pending_tool = false;
                self.status = outcome_status(is_error, AgentStatus::Working);
            },
            AgentEvent::TextResponse { text } => {
                self.last_message = Some(text);
                self.pending_tool = false;
                self.status = AgentStatus::WaitingForYou;
            },
            AgentEvent::SpawnSubAgent { task_tool_use_id, prompt_summary } => {
                self.role = AgentRole::Lead;
                self.status = AgentStatus::Working;
                if !self.knows_call(&task_tool_use_id) {
                    self.push_sub(SubAgent::new(task_tool_use_id, prompt_summary, None));
                }
            },
            AgentEvent::Completed { is_error } => {
                self.pending_tool = false;
                self.status = outcome_status(is_error, AgentStatus::Completed);
            },
        }
    }

    /// Takes in an event of the session of one of the agent's sub-agents.
    pub fn apply_event_to_sub(&mut self, session_id: &str, event: AgentEvent, now: u64)
        ensures
            final(self)@ == agent_after_sub(old(self)@, session_id@, event@, now),
    {
        let ghost subs = self@.sub_agents;
        let mut i: usize = 0;
        while i < self.sub_agents.len()
            invariant
                i <= self.sub_agents@.len(),
                self@ == old(self)@,
                subs == self@.sub_agents,
                forall|j: int| 0 <= j < i ==> !in_session(session_id@)(#[trigger] subs[j]),
            decreases self.sub_agents.len() - i,
        {
            let found: bool = match &self.sub_agents[i].session_id {
                Some(id) => text::same_text(id, session_id),
                None => false,
            };
            if found {
                proof {
                    assert(in_session(session_id@)(subs[i as int]));
                    seqs::lemma_is_first(subs, in_session(session_id@), i as int);
                }
                self.sub_agents[i].apply_event(event, now);
                assert(self@.sub_agents =~= subs.update(
                    i as int,
                    sub_after(subs[i as int], event@, now),
                ));
                return ;
            }
            i += 1;
        }
        proof {
            seqs::lemma_is_first(subs, in_session(session_id@), i as int);
        }
    }

    /// Adopts the session of a child.
    pub fn adopt(&mut self, child_session_id: &str)
        ensures
            final(self)@ == agent_adopting(old(self)@, child_session_id@),
    {
        if !self.knows_call(child_session_id) {
            self.role = AgentRole::Lead;
            self.push_sub(
                SubAgent::new(
                    child_session_id.to_string(),
                    String::new(),
                    Some(child_session_id.to_string()),
                ),
            );
        }
    }

    /// Turns a working agent idle after too long without activity.
    pub fn refresh_idle(&mut self, now: u64)
        ensures
            final(self)@ == agent_refreshed(old(self)@, now),
    {
        if self.status == AgentStatus::Working && nanos_since(self.last_activity, now)
            > IDLE_THRESHOLD_SECS * NANOS_PER_SEC {
            self.status = AgentStatus::Idle;
        }
    }

    /// The first characters of the session's identifier.
    pub fn short_id(&self) -> (r: String)
        ensures
            r@ == text::clip(self@.session_id, 8),
    {
        text::clip_text(&self.session_id, 8)
    }

    /// How long ago the agent was active, in words.
    pub fn elapsed_str(&self, now: u64) -> (r: String)
        ensures
            r@ == agent_elapsed(self@, now),
    {
        let secs: u64 = secs_since(self.last_activity, now);
        if secs < 60 {
            secs_text(secs)
        } else if secs < 3600 {
            minutes_text(secs)
        } else {
            hours_text(secs)
        }
    }
}

} // verus!

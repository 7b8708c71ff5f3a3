//! The list view of the dashboard: a header, and below it the lanes with their agents and stacks.
use crate::agent;
use crate::agent::{Agent, AgentRole, AgentStatus, AgentView, SubAgent, SubAgentView};
use crate::assistant;
use crate::assistant::{Assistant, AssistantView};
use crate::color::Color;
use crate::docker;
use crate::docker::{ContainerStats, ContainerStatus, ContainerView, DockerStack, StackView};
use crate::lane;
use crate::lane::{LaneView, RepoLane};
use crate::laws;
use crate::layout;
use crate::layout::{Area, Size};
use crate::order;
use crate::paint;
use crate::paint::{Border, Line, Placed, PlacedView, Span, SpanView, Widget, WidgetView};
use crate::seqs;
use crate::state;
use crate::state::{SwarmState, SwarmView};
use crate::text;
use vstd::prelude::*;

verus! {

pub const AGENT_CARD_W: u16 = 26;

pub const AGENT_CARD_H: u16 = 10;

/// The lines of each stack: one for its status and one for its usage.
pub const DOCKER_SECTION_H: u16 = 2;

/// Seconds without activity after which an agent is taken for one that is gone.
pub const STALE_SECS: u64 = 300;

/// The characters of a text that fit on a line of a card.
pub const CARD_TEXT_W: usize = 22;

/// The number of steps of a usage bar.
pub const BAR_STEPS: usize = 6;

// ---------------------------------------------------------------------------------------------
// What is shown
// ---------------------------------------------------------------------------------------------

/// Agents that are at work, waiting or in error, and were active not long ago.
pub open spec fn is_current(now: u64) -> spec_fn(AgentView) -> bool {
    |a: AgentView|
        a.status != AgentStatus::Completed && a.status != AgentStatus::Idle && agent::elapsed_secs(
            a.last_activity,
            now,
        ) < STALE_SECS
}

/// The position of the agent that was active last; of several, that of the last one.
pub open spec fn latest(agents: Seq<AgentView>) -> int
    recommends
        agents.len() > 0,
    decreases agents.len(),
{
    if agents.len() <= 1 {
        0
    } else {
        let k = latest(agents.drop_last());
        if agents[k].last_activity <= agents.last().last_activity {
            agents.len() - 1
        } else {
            k
        }
    }
}

/// The agents of a lane that are shown: those that are current. If there are none, the one that
/// was active last.
pub open spec fn shown_agents(agents: Seq<AgentView>, now: u64) -> Seq<AgentView> {
    let current = agents.filter(is_current(now));
    if current.len() > 0 || agents.len() == 0 {
        current
    } else {
        seq![agents[latest(agents)]]
    }
}

/// Sub-agents that have not completed.
pub open spec fn unfinished_sub() -> spec_fn(SubAgentView) -> bool {
    |s: SubAgentView| s.status != AgentStatus::Completed
}

/// The sub-agents of an agent that are shown.
pub open spec fn shown_subs(a: AgentView) -> Seq<SubAgentView> {
    a.sub_agents.filter(unfinished_sub())
}

/// The agent that was active last is among the agents.
pub proof fn lemma_latest(agents: Seq<AgentView>)
    requires
        agents.len() > 0,
    ensures
        0 <= latest(agents) < agents.len(),
        forall|j: int|
            0 <= j < agents.len() ==> (#[trigger] agents[j]).last_activity
                <= agents[latest(agents)].last_activity,
        forall|j: int|
            latest(agents) < j < agents.len() ==> (#[trigger] agents[j]).last_activity
                < agents[latest(agents)].last_activity,
    decreases agents.len(),
{
    if agents.len() > 1 {
        let front = agents.drop_last();
        lemma_latest(front);
        assert forall|j: int| 0 <= j < agents.len() implies (#[trigger] agents[j]).last_activity
            <= agents[latest(agents)].last_activity by {
            if j < front.len() {
                assert(front[j] == agents[j]);
            }
        }
        assert forall|j: int|
            latest(agents) < j < agents.len() implies (#[trigger] agents[j]).last_activity
            < agents[latest(agents)].last_activity by {
            if j < front.len() {
                assert(front[j] == agents[j]);
            }
        }
    }
}

/// The position of the agent that was active last.
fn latest_agent(agents: &Vec<Agent>) -> (r: usize)
    requires
        agents@.len() > 0,
    ensures
        r == latest(agents.deep_view()),
        r < agents@.len(),
{
    let ghost all = agents.deep_view();
    let mut best: usize = 0;
    let mut i: usize = 1;
    while i < agents.len()
        invariant
            1 <= i <= agents@.len(),
            all == agents.deep_view(),
            best < i,
            best == latest(all.take(i as int)),
        decreases agents.len() - i,
    {
        assert(all.take(i + 1).drop_last() =~= all.take(i as int));
        if agents[best].last_activity <= agents[i].last_activity {
            best = i;
        }
        i += 1;
    }
    assert(all.take(i as int) =~= all);
    best
}

/// The agents of a lane that are shown.
pub fn visible_agents(lane: &RepoLane, now: u64) -> (r: Vec<&Agent>)
    ensures
        r.deep_view() == shown_agents(lane@.agents, now),
{
    let ghost all = lane@.agents;
    let ghost p = is_current(now);
    let mut r: Vec<&Agent> = Vec::new();
    proof {
        seqs::lemma_filter_none(all, p);
        assert(r.deep_view() =~= Seq::empty());
    }
    let mut i: usize = 0;
    while i < lane.agents.len()
        invariant
            i <= lane.agents@.len(),
            all == lane@.agents,
            p == is_current(now),
            r.deep_view() == all.take(i as int).filter(p),
        decreases lane.agents.len() - i,
    {
        let a: &Agent = &lane.agents[i];
        let ghost before = r.deep_view();
        proof {
            seqs::lemma_filter_next(all, p, i as int);
            assert(all[i as int] == a@);
        }
        if a.status != AgentStatus::Completed && a.status != AgentStatus::Idle
            && agent::secs_since(a.last_activity, now) < STALE_SECS {
            r.push(a);
            assert(r.deep_view() =~= before.push(a@));
        }
        i += 1;
    }
    assert(all.take(i as int) =~= all);
    assert(r.deep_view().len() == r@.len());
    if r.len() == 0 && lane.agents.len() > 0 {
        let k: usize = latest_agent(&lane.agents);
        r.push(&lane.agents[k]);
        assert(r.deep_view() =~= seq![all[latest(all)]]);
    }
    r
}

/// The sub-agents of an agent that are shown.
pub fn visible_subs(agent: &Agent) -> (r: Vec<&SubAgent>)
    ensures
        r.deep_view() == shown_subs(agent@),
{
    let ghost all = agent@.sub_agents;
    let ghost p = unfinished_sub();
    let mut r: Vec<&SubAgent> = Vec::new();
    proof {
        seqs::lemma_filter_none(all, p);
        assert(r.deep_view() =~= Seq::empty());
    }
    let mut i: usize = 0;
    while i < agent.sub_agents.len()
        invariant
            i <= agent.sub_agents@.len(),
            all == agent@.sub_agents,
            p == unfinished_sub(),
            r.deep_view() == all.take(i as int).filter(p),
        decreases agent.sub_agents.len() - i,
    {
        let s: &SubAgent = &agent.sub_agents[i];
        let ghost before = r.deep_view();
        proof {
            seqs::lemma_filter_next(all, p, i as int);
            assert(all[i as int] == s@);
        }
        if s.status != AgentStatus::Completed {
            r.push(s);
            assert(r.deep_view() =~= before.push(s@));
        }
        i += 1;
    }
    assert(all.take(i as int) =~= all);
    r
}

// ---------------------------------------------------------------------------------------------
// Heights
// ---------------------------------------------------------------------------------------------

/// The height of a lane's agents: a row for each that is shown, or a notice that there is none.
pub open spec fn agents_height(l: LaneView, now: u64) -> int {
    let n = shown_agents(l.agents, now).len();
    if n == 0 {
        2
    } else {
        n * (AGENT_CARD_H + 1)
    }
}

/// The height of a lane's stacks, as far as it can be counted.
pub open spec fn docker_height(l: LaneView) -> u16 {
    let lines = l.docker_stacks.len() * DOCKER_SECTION_H;
    if lines <= u16::MAX {
        lines as u16
    } else {
        u16::MAX
    }
}

/// The height of a lane with its border.
pub open spec fn height_of(l: LaneView, now: u64) -> int {
    agents_height(l, now) + docker_height(l) + 2
}

/// The height of a lane's stacks, as far as it can be counted.
fn docker_section_height(lane: &RepoLane) -> (r: u16)
    ensures
        r == docker_height(lane@),
{
    let n: usize = lane.docker_stacks.len();
    if n <= 32767 {
        n as u16 * DOCKER_SECTION_H
    } else {
        u16::MAX
    }
}

/// Whether the height of a lane can be counted.
pub fn height_fits(lane: &RepoLane, now: u64) -> (r: bool)
    ensures
        r == (height_of(lane@, now) <= u16::MAX),
{
    let agents: Vec<&Agent> = visible_agents(lane, now);
    assert(agents.deep_view().len() == agents@.len());
    let docker_h: usize = docker_section_height(lane) as usize;
    let agents_h: usize = if agents.len() == 0 {
        2
    } else if agents.len() <= 5957 {
        agents.len() * 11
    } else {
        65535
    };
    agents_h + docker_h + 2 <= 65535
}

/// The height of a lane with its border.
pub fn lane_height(lane: &RepoLane, now: u64) -> (r: u16)
    requires
        height_of(lane@, now) <= u16::MAX,
    ensures
        r == height_of(lane@, now),
{
    let agents: Vec<&Agent> = visible_agents(lane, now);
    assert(agents.deep_view().len() == agents@.len());
    let agents_h: u16 = if agents.len() == 0 {
        2
    } else {
        agents.len() as u16 * (AGENT_CARD_H + 1)
    };
    agents_h + docker_section_height(lane) + 2
}

// ---------------------------------------------------------------------------------------------
// Cards
// ---------------------------------------------------------------------------------------------

/// The color of an agent's card.
pub open spec fn card_color(status: AgentStatus) -> Color {
    match status {
        AgentStatus::WaitingForYou => Color::Yellow,
        AgentStatus::Working => Color::Green,
        AgentStatus::Error => Color::Red,
        _ => Color::DarkGray,
    }
}

/// The title of an agent's card.
pub open spec fn card_title(role: AgentRole) -> Seq<char> {
    match role {
        AgentRole::Lead => " ❯❯ Orchestrator "@,
        AgentRole::Worker => " ❯  Agent "@,
    }
}

/// The line of the tool that was used last.
pub open spec fn tool_line(tool: Seq<char>) -> Seq<SpanView> {
    seq![paint::colored("tool: "@, Color::DarkGray), paint::colored(tool, Color::Magenta)]
}

/// The line of an identifier, of which eight characters are shown.
pub open spec fn id_line(id: Seq<char>) -> Seq<SpanView> {
    seq![paint::colored("ID: "@, Color::DarkGray), paint::colored(text::clip(id, 8), Color::Gray)]
}

/// The lines of the tool that an agent used last, and of its input.
pub open spec fn tool_lines(
    tool: Option<Seq<char>>,
    input: Option<Seq<char>>,
) -> Seq<Seq<SpanView>> {
    match tool {
        Some(name) => match input {
            Some(summary) => seq![
                tool_line(name),
                seq![paint::colored(text::clip(summary, CARD_TEXT_W as int), Color::Gray)],
            ],
            None => seq![tool_line(name)],
        },
        None => Seq::empty(),
    }
}

/// The lines of what an agent said last.
pub open spec fn message_lines(message: Option<Seq<char>>) -> Seq<Seq<SpanView>> {
    match message {
        Some(m) => seq![seq![paint::colored(text::clip(m, 2 * CARD_TEXT_W as int), Color::Yellow)]],
        None => Seq::empty(),
    }
}

/// The lines on an agent's card.
pub open spec fn agent_lines(a: AgentView, now: u64) -> Seq<Seq<SpanView>> {
    seq![
        id_line(a.session_id),
        seq![paint::strong(agent::status_label(a.status), agent::status_color(a.status))],
        Seq::empty(),
    ] + tool_lines(a.last_tool, a.last_tool_input) + message_lines(a.last_message) + seq![
        Seq::empty(),
        seq![paint::colored(agent::agent_elapsed(a, now), Color::DarkGray)],
    ]
}

/// An agent's card.
pub open spec fn agent_card(area: Area, a: AgentView, now: u64) -> Seq<PlacedView> {
    seq![
        paint::frame_at(
            area,
            Border::Rounded,
            card_color(a.status),
            seq![paint::strong(card_title(a.role), Color::White)],
        ),
        paint::text_at(layout::inside(area), agent_lines(a, now), true),
    ]
}

/// The lines on a sub-agent's card.
pub open spec fn sub_lines(s: SubAgentView, now: u64) -> Seq<Seq<SpanView>> {
    seq![
        id_line(s.task_tool_use_id),
        seq![paint::strong(agent::status_label(s.status), agent::status_color(s.status))],
        Seq::empty(),
        seq![paint::colored(text::clip(s.prompt_summary, 2 * CARD_TEXT_W as int), Color::Gray)],
        Seq::empty(),
        match s.last_tool {
            Some(tool) => tool_line(tool),
            None => seq![paint::colored("waiting..."@, Color::DarkGray)],
        },
        seq![paint::colored(agent::sub_elapsed(s, now), Color::DarkGray)],
    ]
}

/// A sub-agent's card.
pub open spec fn sub_card(area: Area, s: SubAgentView, now: u64) -> Seq<PlacedView> {
    seq![
        paint::frame_at(
            area,
            Border::Rounded,
            Color::Blue,
            seq![paint::strong(" ◎ Sub "@, Color::Blue)],
        ),
        paint::text_at(layout::inside(area), sub_lines(s, now), true),
    ]
}

/// The color of an agent's card.
fn agent_card_color(status: AgentStatus) -> (r: Color)
    ensures
        r == card_color(status),
{
    match status {
        AgentStatus::WaitingForYou => Color::Yellow,
        AgentStatus::Working => Color::Green,
        AgentStatus::Error => Color::Red,
        _ => Color::DarkGray,
    }
}

/// The line of the tool that was used last.
fn tool_text(tool: &str) -> (r: Line)
    ensures
        r@ == tool_line(tool@),
{
    Line::two(
        Span::colored("tool: ".to_string(), Color::DarkGray),
        Span::colored(tool.to_string(), Color::Magenta),
    )
}

/// The line of an identifier.
fn id_text(id: &str) -> (r: Line)
    ensures
        r@ == id_line(id@),
{
    Line::two(
        Span::colored("ID: ".to_string(), Color::DarkGray),
        Span::colored(text::clip_text(id, 8), Color::Gray),
    )
}

/// The lines on an agent's card.
fn agent_card_lines(agent: &Agent, now: u64) -> (r: Vec<Line>)
    ensures
        r.deep_view() == agent_lines(agent@, now),
{
    let mut lines: Vec<Line> = Vec::new();
    paint::push_line(&mut lines, id_text(&agent.session_id));
    paint::push_line(
        &mut lines,
        Line::one(Span::strong(agent.status.label().to_string(), agent.status.color())),
    );
    paint::push_line(&mut lines, Line::empty());
    if let Some(tool) = &agent.last_tool {
        paint::push_line(&mut lines, tool_text(tool));
        if let Some(input) = &agent.last_tool_input {
            paint::push_line(
                &mut lines,
                Line::one(Span::colored(text::clip_text(input, CARD_TEXT_W), Color::Gray)),
            );
        }
    }
    if let Some(message) = &agent.last_message {
        paint::push_line(
            &mut lines,
            Line::one(Span::colored(text::clip_text(message, CARD_TEXT_W * 2), Color::Yellow)),
        );
    }
    paint::push_line(&mut lines, Line::empty());
    paint::push_line(
        &mut lines,
        Line::one(Span::colored(agent.elapsed_str(now), Color::DarkGray)),
    );
    assert(lines.deep_view() =~= agent_lines(agent@, now));
    lines
}

/// An agent's card.
pub fn render_agent_card(area: Area, agent: &Agent, now: u64) -> (r: Vec<Placed>)
    ensures
        r.deep_view() == agent_card(area, agent@, now),
{
    let title: &str = match agent.role {
        AgentRole::Lead => " ❯❯ Orchestrator ",
        AgentRole::Worker => " ❯  Agent ",
    };
    let mut scene: Vec<Placed> = Vec::new();
    paint::push_frame(
        &mut scene,
        area,
        Border::Rounded,
        agent_card_color(agent.status),
        Line::one(Span::strong(title.to_string(), Color::White)),
    );
    paint::push_text(&mut scene, area.inner(), agent_card_lines(agent, now), true);
    assert(scene.deep_view() =~= agent_card(area, agent@, now));
    scene
}

/// The lines on a sub-agent's card.
fn sub_card_lines(sub: &SubAgent, now: u64) -> (r: Vec<Line>)
    ensures
        r.deep_view() == sub_lines(sub@, now),
{
    let mut lines: Vec<Line> = Vec::new();
    paint::push_line(&mut lines, id_text(&sub.task_tool_use_id));
    paint::push_line(
        &mut lines,
        Line::one(Span::strong(sub.status.label().to_string(), sub.status.color())),
    );
    paint::push_line(&mut lines, Line::empty());
    paint::push_line(
        &mut lines,
        Line::one(
            Span::colored(text::clip_text(&sub.prompt_summary, CARD_TEXT_W * 2), Color::Gray),
        ),
    );
    paint::push_line(&mut lines, Line::empty());
    let last: Line = match &sub.last_tool {
        Some(tool) => tool_text(tool),
        None => Line::one(Span::colored("waiting...".to_string(), Color::DarkGray)),
    };
    paint::push_line(&mut lines, last);
    paint::push_line(&mut lines, Line::one(Span::colored(sub.elapsed_str(now), Color::DarkGray)));
    assert(lines.deep_view() =~= sub_lines(sub@, now));
    lines
}

/// A sub-agent's card.
pub fn render_sub_card(area: Area, sub: &SubAgent, now: u64) -> (r: Vec<Placed>)
    ensures
        r.deep_view() == sub_card(area, sub@, now),
{
    let mut scene: Vec<Placed> = Vec::new();
    paint::push_frame(
        &mut scene,
        area,
        Border::Rounded,
        Color::Blue,
        Line::one(Span::strong(" ◎ Sub ".to_string(), Color::Blue)),
    );
    paint::push_text(&mut scene, area.inner(), sub_card_lines(sub, now), true);
    assert(scene.deep_view() =~= sub_card(area, sub@, now));
    scene
}

// ---------------------------------------------------------------------------------------------
// Rows of cards
// ---------------------------------------------------------------------------------------------

/// Scenes one after the other.
pub open spec fn joined(pieces: Seq<Seq<PlacedView>>) -> Seq<PlacedView>
    decreases pieces.len(),
{
    if pieces.len() == 0 {
        Seq::empty()
    } else {
        joined(pieces.drop_last()) + pieces.last()
    }
}

/// The sizes of `n` cards in a row, and of the room behind them.
pub open spec fn card_sizes(n: nat) -> Seq<Size> {
    Seq::new(
        n + 1,
        |i: int|
            if i < n {
                Size::Length(AGENT_CARD_W)
            } else {
                Size::Min(0)
            },
    )
}

/// The cards of sub-agents, behind that of their agent.
pub open spec fn sub_cards(subs: Seq<SubAgentView>, areas: Seq<Area>, now: u64) -> Seq<PlacedView>
    decreases subs.len(),
{
    if subs.len() == 0 {
        Seq::empty()
    } else {
        sub_cards(subs.drop_last(), areas, now) + sub_card(
            areas[subs.len() as int],
            subs.last(),
            now,
        )
    }
}

/// The card of an agent and those of its sub-agents, at the given places.
pub open spec fn row_scene(a: AgentView, areas: Seq<Area>, now: u64) -> Seq<PlacedView> {
    agent_card(areas[0], a, now) + sub_cards(shown_subs(a), areas, now)
}

/// `scene` is the row of an agent in an area.
pub open spec fn is_row(a: AgentView, area: Area, now: u64, scene: Seq<PlacedView>) -> bool {
    exists|areas: Seq<Area>| #[trigger]
        layout::are_columns(area, card_sizes(shown_subs(a).len() + 1), areas) && scene == row_scene(
            a,
            areas,
            now,
        )
}

/// `pieces` are the rows of agents in areas.
pub open spec fn are_agent_rows(
    agents: Seq<AgentView>,
    areas: Seq<Area>,
    now: u64,
    pieces: Seq<Seq<PlacedView>>,
) -> bool {
    &&& pieces.len() == agents.len()
    &&& forall|i: int|
        0 <= i < agents.len() ==> is_row(agents[i], areas[i], now, #[trigger] pieces[i])
}

/// The card of an agent and those of its sub-agents, at the given places.
pub fn agent_row(agent: &Agent, areas: &Vec<Area>, now: u64) -> (r: Vec<Placed>)
    requires
        areas@.len() == shown_subs(agent@).len() + 2,
    ensures
        r.deep_view() == row_scene(agent@, areas@, now),
{
    let subs: Vec<&SubAgent> = visible_subs(agent);
    let ghost all = subs.deep_view();
    assert(all.len() == subs@.len());
    let mut scene: Vec<Placed> = render_agent_card(areas[0], agent, now);
    let ghost first = scene.deep_view();
    assert(first + sub_cards(all.take(0), areas@, now) =~= first);
    let mut i: usize = 0;
    while i < subs.len()
        invariant
            i <= subs@.len(),
            all == subs.deep_view(),
            areas@.len() == subs@.len() + 2,
            scene.deep_view() == first + sub_cards(all.take(i as int), areas@, now),
        decreases subs.len() - i,
    {
        proof {
            assert(all[i as int] == subs@[i as int]@);
            assert(all.take(i + 1).drop_last() =~= all.take(i as int));
            assert(all.take(i + 1).last() == all[i as int]);
        }
        let ghost before = scene.deep_view();
        let card: Vec<Placed> = render_sub_card(areas[i + 1], subs[i], now);
        paint::append_scene(&mut scene, card);
        assert(scene.deep_view() =~= first + sub_cards(all.take(i + 1), areas@, now));
        i += 1;
    }
    assert(all.take(i as int) =~= all);
    scene
}

/// The row of an agent in an area: its card, and behind it those of its sub-agents.
pub fn render_agent_row(area: Area, agent: &Agent, now: u64) -> (r: Vec<Placed>)
    ensures
        is_row(agent@, area, now, r.deep_view()),
{
    let subs: Vec<&SubAgent> = visible_subs(agent);
    let ghost n = shown_subs(agent@).len();
    assert(subs@.len() == subs.deep_view().len());
    let mut sizes: Vec<Size> = Vec::new();
    sizes.push(Size::Length(AGENT_CARD_W));
    let mut i: usize = 0;
    while i < subs.len()
        invariant
            i <= subs@.len(),
            sizes@.len() == i + 1,
            forall|j: int| 0 <= j <= i ==> #[trigger] sizes@[j] == Size::Length(AGENT_CARD_W),
        decreases subs.len() - i,
    {
        sizes.push(Size::Length(AGENT_CARD_W));
        i += 1;
    }
    sizes.push(Size::Min(0));
    assert(sizes@ =~= card_sizes(n + 1));
    let areas: Vec<Area> = layout::split_columns(area, &sizes);
    agent_row(agent, &areas, now)
}

// ---------------------------------------------------------------------------------------------
// Stacks
// ---------------------------------------------------------------------------------------------

/// The dot that stands for a container.
pub open spec fn container_dot(status: ContainerStatus) -> SpanView {
    match status {
        ContainerStatus::Running => paint::colored("●"@, Color::Green),
        ContainerStatus::Restarting => paint::colored("◉"@, Color::Yellow),
        ContainerStatus::Exited(code) => if code == 0 {
            paint::colored("○"@, Color::DarkGray)
        } else {
            paint::colored("●"@, Color::Red)
        },
        ContainerStatus::Dead => paint::colored("●"@, Color::Red),
        _ => paint::colored("·"@, Color::DarkGray),
    }
}

/// The dots of containers, in order.
pub open spec fn container_dots(containers: Seq<ContainerView>) -> Seq<SpanView> {
    Seq::new(containers.len(), |i: int| container_dot(containers[i].status))
}

/// The number of containers that are not active.
pub open spec fn stopped_count(containers: Seq<ContainerView>) -> nat {
    containers.filter(|c: ContainerView| !docker::active(c.status)).len()
}

/// The end of a stack's line: whether all of its containers are active.
pub open spec fn health(containers: Seq<ContainerView>) -> SpanView {
    let stopped = stopped_count(containers);
    if stopped == 0 {
        paint::colored("  ✓"@, Color::Green)
    } else {
        paint::colored("  ⚠ "@ + text::decimal(stopped) + " stopped"@, Color::Yellow)
    }
}

/// The line of a stack's status: its project, a dot for each container, and whether all is well.
pub open spec fn stack_line(stack: StackView) -> Seq<SpanView> {
    seq![
        paint::colored("  🐳 "@, Color::Cyan),
        paint::strong(stack.project_name, Color::Cyan),
        paint::raw("  "@),
    ] + container_dots(stack.containers) + seq![health(stack.containers)]
}

/// The usage of containers, in order.
pub open spec fn usage_of(containers: Seq<ContainerView>) -> Seq<ContainerStats> {
    Seq::new(containers.len(), |i: int| containers[i].stats)
}

/// The two lines of a stack, at the given places.
pub open spec fn stack_scene(stack: StackView, status: Area, usage: Area) -> Seq<PlacedView> {
    seq![
        paint::text_at(status, seq![stack_line(stack)], false),
        PlacedView {
            area: usage,
            widget: WidgetView::Usage { samples: usage_of(stack.containers) },
        },
    ]
}

/// The two lines of each stack, at the given places, which are two for each stack.
pub open spec fn stacks_scene(stacks: Seq<StackView>, areas: Seq<Area>) -> Seq<PlacedView>
    decreases stacks.len(),
{
    if stacks.len() == 0 {
        Seq::empty()
    } else {
        let k = 2 * (stacks.len() - 1);
        stacks_scene(stacks.drop_last(), areas) + stack_scene(
            stacks.last(),
            areas[k],
            areas[k + 1],
        )
    }
}

/// For each of `n` stacks a line for its status, and one for its usage.
pub open spec fn stack_sizes(n: nat) -> Seq<Size> {
    Seq::new(2 * n, |i: int| Size::Length(1))
}

/// `scene` shows stacks in an area, one below the other. Where that is not high enough for one,
/// nothing is shown.
pub open spec fn is_docker_section(
    stacks: Seq<StackView>,
    area: Area,
    scene: Seq<PlacedView>,
) -> bool {
    if area.height < DOCKER_SECTION_H {
        scene == Seq::<PlacedView>::empty()
    } else {
        exists|areas: Seq<Area>| #[trigger]
            layout::are_rows(area, stack_sizes(stacks.len()), areas) && scene == stacks_scene(
                stacks,
                areas,
            )
    }
}

/// The dot that stands for a container.
fn dot_of(status: &ContainerStatus) -> (r: Span)
    ensures
        r@ == container_dot(*status),
{
    match status {
        ContainerStatus::Running => Span::colored("●".to_string(), Color::Green),
        ContainerStatus::Restarting => Span::colored("◉".to_string(), Color::Yellow),
        ContainerStatus::Exited(code) => {
            if *code == 0 {
                Span::colored("○".to_string(), Color::DarkGray)
            } else {
                Span::colored("●".to_string(), Color::Red)
            }
        },
        ContainerStatus::Dead => Span::colored("●".to_string(), Color::Red),
        _ => Span::colored("·".to_string(), Color::DarkGray),
    }
}

/// The end of a stack's line.
fn health_of(stack: &DockerStack) -> (r: Span)
    ensures
        r@ == health(stack@.containers),
{
    let stopped: usize = stack.stopped();
    if stopped == 0 {
        Span::colored("  ✓".to_string(), Color::Green)
    } else {
        let mut words: String = "  ⚠ ".to_string();
        words.append(&text::decimal_text(stopped as u64));
        words.append(" stopped");
        Span::colored(words, Color::Yellow)
    }
}

/// The line of a stack's status.
pub fn stack_status(stack: &DockerStack) -> (r: Line)
    ensures
        r@ == stack_line(stack@),
{
    let ghost all = stack@.containers;
    let mut line: Line = Line::empty();
    line.push(Span::colored("  🐳 ".to_string(), Color::Cyan));
    line.push(Span::strong(stack.project_name.clone(), Color::Cyan));
    line.push(Span::raw("  ".to_string()));
    let ghost start = line@;
    assert(line@ =~= start + container_dots(all).take(0));
    let mut i: usize = 0;
    while i < stack.containers.len()
        invariant
            i <= stack.containers@.len(),
            all == stack@.containers,
            line@ == start + container_dots(all).take(i as int),
        decreases stack.containers.len() - i,
    {
        let dot: Span = dot_of(&stack.containers[i].status);
        line.push(dot);
        proof {
            assert(all[i as int] == stack.containers@[i as int]@);
            assert(container_dots(all).take(i + 1) =~= container_dots(all).take(i as int).push(
                dot@,
            ));
            assert(line@ =~= start + container_dots(all).take(i + 1));
        }
        i += 1;
    }
    assert(container_dots(all).take(i as int) =~= container_dots(all));
    line.push(health_of(stack));
    assert(line@ =~= stack_line(stack@));
    line
}

/// The usage of a stack's containers.
fn usage_samples(stack: &DockerStack) -> (r: Vec<ContainerStats>)
    ensures
        r@ == usage_of(stack@.containers),
{
    let ghost all = stack@.containers;
    let mut r: Vec<ContainerStats> = Vec::new();
    let mut i: usize = 0;
    while i < stack.containers.len()
        invariant
            i <= stack.containers@.len(),
            all == stack@.containers,
            r@.len() == i,
            forall|j: int| 0 <= j < i ==> #[trigger] r@[j] == usage_of(all)[j],
        decreases stack.containers.len() - i,
    {
        assert(all[i as int] == stack.containers@[i as int]@);
        r.push(stack.containers[i].stats);
        i += 1;
    }
    assert(r@ =~= usage_of(all));
    r
}

/// The two lines of each stack, at the given places.
pub fn docker_rows(stacks: &Vec<DockerStack>, areas: &Vec<Area>) -> (r: Vec<Placed>)
    requires
        areas@.len() == 2 * stacks@.len(),
    ensures
        r.deep_view() == stacks_scene(stacks.deep_view(), areas@),
{
    let ghost all = stacks.deep_view();
    let mut scene: Vec<Placed> = Vec::new();
    assert(scene.deep_view() =~= stacks_scene(all.take(0), areas@));
    let mut i: usize = 0;
    while i < stacks.len()
        invariant
            i <= stacks@.len(),
            all == stacks.deep_view(),
            areas@.len() == 2 * stacks@.len(),
            scene.deep_view() == stacks_scene(all.take(i as int), areas@),
        decreases stacks.len() - i,
    {
        assert(2 * i + 1 < areas.len());
        let stack: &DockerStack = &stacks[i];
        proof {
            assert(all[i as int] == stack@);
            assert(all.take(i + 1).drop_last() =~= all.take(i as int));
            assert(all.take(i + 1).last() == all[i as int]);
        }
        paint::push_text_line(&mut scene, areas[2 * i], stack_status(stack));
        let ghost before = scene.deep_view();
        let usage = Placed {
            area: areas[2 * i + 1],
            widget: Widget::Usage { samples: usage_samples(stack) },
        };
        scene.push(usage);
        assert(scene.deep_view() =~= before.push(usage@));
        assert(scene.deep_view() =~= stacks_scene(all.take(i + 1), areas@));
        i += 1;
    }
    assert(all.take(i as int) =~= all);
    scene
}

/// The section of a lane's stacks in an area.
pub fn render_docker_section(area: Area, stacks: &Vec<DockerStack>) -> (r: Vec<Placed>)
    ensures
        is_docker_section(stacks.deep_view(), area, r.deep_view()),
{
    if area.height < DOCKER_SECTION_H {
        let r: Vec<Placed> = Vec::new();
        assert(r.deep_view() =~= Seq::empty());
        return r;
    }
    let mut sizes: Vec<Size> = Vec::new();
    let mut i: usize = 0;
    while i < stacks.len()
        invariant
            i <= stacks@.len(),
            sizes@ == stack_sizes(i as nat),
        decreases stacks.len() - i,
    {
        sizes.push(Size::Length(1));
        sizes.push(Size::Length(1));
        i += 1;
        assert(sizes@ =~= stack_sizes(i as nat));
    }
    assert(stacks.deep_view().len() == stacks@.len());
    let areas: Vec<Area> = layout::split_rows(area, &sizes);
    docker_rows(stacks, &areas)
}

/// So many of a character.
pub open spec fn repeated(c: char, n: nat) -> Seq<char> {
    Seq::new(n, |i: int| c)
}

/// A usage bar with so many of its steps filled.
pub open spec fn bar(filled: nat) -> Seq<char> {
    "["@ + repeated('█', filled) + repeated('░', (BAR_STEPS - filled) as nat) + "]"@
}

/// Adds a character so many times.
fn push_repeated(s: &mut String, c: char, n: usize)
    ensures
        final(s)@ == old(s)@ + repeated(c, n as nat),
{
    let ghost before = s@;
    assert(s@ =~= before + repeated(c, 0));
    let mut i: usize = 0;
    while i < n
        invariant
            i <= n,
            s@ == before + repeated(c, i as nat),
        decreases n - i,
    {
        s.push(c);
        i += 1;
        assert(s@ =~= before + repeated(c, i as nat));
    }
}

/// A usage bar with so many of its steps filled.
pub fn mini_bar(filled: usize) -> (r: String)
    requires
        filled <= BAR_STEPS,
    ensures
        r@ == bar(filled as nat),
{
    let mut s: String = "[".to_string();
    push_repeated(&mut s, '█', filled);
    push_repeated(&mut s, '░', BAR_STEPS - filled);
    s.append("]");
    s
}

/// The line of a stack's usage.
pub open spec fn usage_spans(
    cpu_filled: nat,
    cpu: Seq<char>,
    memory_filled: nat,
    memory: Seq<char>,
) -> Seq<SpanView> {
    seq![
        paint::colored("       cpu "@, Color::DarkGray),
        paint::colored(bar(cpu_filled), Color::Green),
        paint::colored(" "@ + cpu + "%"@, Color::Gray),
        paint::colored("  mem "@, Color::DarkGray),
        paint::colored(bar(memory_filled), Color::Blue),
        paint::colored(" "@ + memory + "  max"@, Color::Gray),
    ]
}

/// The line of a stack's usage: how full the two bars are, and the texts behind them.
pub fn usage_line(cpu_filled: usize, cpu: &str, memory_filled: usize, memory: &str) -> (r: Line)
    requires
        cpu_filled <= BAR_STEPS,
        memory_filled <= BAR_STEPS,
    ensures
        r@ == seq![
            paint::colored("       cpu "@, Color::DarkGray),
            paint::colored(bar(cpu_filled as nat), Color::Green),
            paint::colored(" "@ + cpu@ + "%"@, Color::Gray),
            paint::colored("  mem "@, Color::DarkGray),
            paint::colored(bar(memory_filled as nat), Color::Blue),
            paint::colored(" "@ + memory@ + "  max"@, Color::Gray),
        ],
        r@ == usage_spans(cpu_filled as nat, cpu@, memory_filled as nat, memory@),
{
    let mut cpu_words: String = " ".to_string();
    cpu_words.append(cpu);
    cpu_words.append("%");
    let mut memory_words: String = " ".to_string();
    memory_words.append(memory);
    memory_words.append("  max");
    let mut line: Line = Line::empty();
    line.push(Span::colored("       cpu ".to_string(), Color::DarkGray));
    line.push(Span::colored(mini_bar(cpu_filled), Color::Green));
    line.push(Span::colored(cpu_words, Color::Gray));
    line.push(Span::colored("  mem ".to_string(), Color::DarkGray));
    line.push(Span::colored(mini_bar(memory_filled), Color::Blue));
    line.push(Span::colored(memory_words, Color::Gray));
    line
}

// ---------------------------------------------------------------------------------------------
// Lanes
// ---------------------------------------------------------------------------------------------

/// The color of a lane, which is gray where all of its agents have completed.
pub open spec fn lane_color(l: LaneView) -> Color {
    if !seqs::any_where(l.agents, lane::unfinished()) {
        Color::DarkGray
    } else if l.is_lead {
        Color::Yellow
    } else {
        Color::Cyan
    }
}

/// The title of a lane.
pub open spec fn lane_title(l: LaneView) -> Seq<SpanView> {
    seq![
        paint::colored(
            if l.is_lead {
                " ★  "@
            } else {
                " ⚙  "@
            },
            lane_color(l),
        ),
        paint::strong(
            if l.is_lead {
                "* LEAD  "@ + l.repo_name
            } else {
                "  "@ + l.repo_name
            },
            if l.is_lead {
                Color::Yellow
            } else {
                Color::White
            },
        ),
        paint::raw("  "@),
    ]
}

/// The frame of a lane. The lane that is selected has a thick one.
pub open spec fn lane_frame(l: LaneView, selected: bool, area: Area) -> PlacedView {
    paint::frame_at(
        area,
        if selected {
            Border::Thick
        } else {
            Border::Double
        },
        lane_color(l),
        lane_title(l),
    )
}

/// What a lane says that shows no agents.
pub open spec fn lane_notice(is_scanning: bool) -> Seq<SpanView> {
    seq![
        paint::colored(
            if is_scanning {
                "  ⟳ scanning sessions..."@
            } else {
                "  ◌ no recent sessions"@
            },
            Color::DarkGray,
        ),
    ]
}

/// The sizes of the rows of `n` agents.
pub open spec fn row_sizes(n: nat) -> Seq<Size> {
    Seq::new(n, |i: int| Size::Length((AGENT_CARD_H + 1) as u16))
}

/// `scene` shows the agents of a lane in an area.
pub open spec fn is_agents_section(
    l: LaneView,
    area: Area,
    now: u64,
    scene: Seq<PlacedView>,
) -> bool {
    let shown = shown_agents(l.agents, now);
    if shown.len() == 0 {
        scene == seq![paint::text_at(area, seq![lane_notice(l.is_scanning)], false)]
    } else {
        exists|areas: Seq<Area>, pieces: Seq<Seq<PlacedView>>| #[trigger]
            layout::are_rows(area, row_sizes(shown.len()), areas) && #[trigger] are_agent_rows(
                shown,
                areas,
                now,
                pieces,
            ) && scene == joined(pieces)
    }
}

/// The sizes of a lane's two sections: its stacks take what they need, and its agents the rest.
pub open spec fn section_sizes(l: LaneView, area: Area) -> Seq<Size> {
    let docker_h = docker_height(l);
    seq![
        Size::Length(
            if area.height >= docker_h {
                (area.height - docker_h) as u16
            } else {
                0
            },
        ),
        Size::Length(docker_h),
    ]
}

/// `scene` shows the stacks of a lane in an area, if it has any.
pub open spec fn is_lane_stacks(l: LaneView, area: Area, scene: Seq<PlacedView>) -> bool {
    if l.docker_stacks.len() > 0 {
        is_docker_section(l.docker_stacks, area, scene)
    } else {
        scene == Seq::<PlacedView>::empty()
    }
}

/// `scene` shows a lane in an area: its frame, and inside it its agents and its stacks.
pub open spec fn is_lane(
    l: LaneView,
    selected: bool,
    area: Area,
    now: u64,
    scene: Seq<PlacedView>,
) -> bool {
    exists|sections: Seq<Area>, agents: Seq<PlacedView>, stacks: Seq<PlacedView>| #[trigger]
        layout::are_rows(
            layout::inside(area),
            section_sizes(l, layout::inside(area)),
            sections,
        ) && #[trigger] is_agents_section(l, sections[0], now, agents) && #[trigger] is_lane_stacks(
            l,
            sections[1],
            stacks,
        ) && scene == seq![lane_frame(l, selected, area)] + agents + stacks
}

/// `pieces` show lanes in areas.
pub open spec fn are_lanes(
    lanes: Seq<LaneView>,
    selected: int,
    areas: Seq<Area>,
    now: u64,
    pieces: Seq<Seq<PlacedView>>,
) -> bool {
    &&& pieces.len() == lanes.len()
    &&& forall|i: int|
        0 <= i < lanes.len() ==> is_lane(lanes[i], i == selected, areas[i], now, #[trigger] pieces[i])
}

/// The sizes of lanes.
pub open spec fn lane_sizes(lanes: Seq<LaneView>, now: u64) -> Seq<Size> {
    Seq::new(lanes.len(), |i: int| Size::Length(height_of(lanes[i], now) as u16))
}

/// What is shown where there is no lane.
pub open spec fn no_lanes(name: AssistantView) -> Seq<Seq<SpanView>> {
    seq![
        Seq::empty(),
        seq![
            paint::colored("  No active "@ + name.title + " sessions found."@, Color::DarkGray),
        ],
        seq![
            paint::colored("  Watching ~/."@ + name.id + "/projects/ ..."@, Color::DarkGray),
        ],
    ]
}

/// `scene` shows lanes in an area, one below the other.
pub open spec fn is_lanes_scene(
    name: AssistantView,
    lanes: Seq<LaneView>,
    selected: int,
    area: Area,
    now: u64,
    scene: Seq<PlacedView>,
) -> bool {
    if lanes.len() == 0 {
        scene == seq![paint::text_at(area, no_lanes(name), false)]
    } else {
        exists|areas: Seq<Area>, pieces: Seq<Seq<PlacedView>>| #[trigger]
            layout::are_rows(area, lane_sizes(lanes, now), areas) && #[trigger] are_lanes(
                lanes,
                selected,
                areas,
                now,
                pieces,
            ) && scene == joined(pieces)
    }
}

/// The header of the dashboard.
pub open spec fn header(name: AssistantView, docker_ok: bool) -> Seq<SpanView> {
    seq![
        SpanView {
            text: " 🐝 "@ + name.id + "-swarm "@,
            fg: Some(Color::Black),
            bg: Some(Color::Yellow),
            bold: true,
        },
        paint::colored("  monitoring your agent fleet  "@, Color::DarkGray),
        if docker_ok {
            paint::colored(" 🐳 docker:ok "@, Color::Cyan)
        } else {
            paint::colored(" 🐳 docker:off "@, Color::DarkGray)
        },
        paint::colored(" q:quit "@, Color::DarkGray),
    ]
}

/// The sizes of the header and of what is below it.
pub open spec fn screen_sizes() -> Seq<Size> {
    seq![Size::Length(1), Size::Min(0)]
}

/// `scene` shows the swarm in an area: the header, and below it the lanes in their order.
pub open spec fn is_list_view(
    name: AssistantView,
    s: SwarmView,
    selected: int,
    area: Area,
    now: u64,
    scene: Seq<PlacedView>,
) -> bool {
    exists|parts: Seq<Area>, lanes: Seq<LaneView>, below: Seq<PlacedView>| #[trigger]
        layout::are_rows(area, screen_sizes(), parts) && #[trigger] state::are_sorted_lanes(
            s.lanes,
            lanes,
        ) && #[trigger] is_lanes_scene(name, lanes, selected, parts[1], now, below) && scene == seq![
            paint::text_at(parts[0], seq![header(name, s.docker_available)], false),
        ] + below
}

/// Every lane has a height that can be counted.
pub open spec fn heights_fit(lanes: Seq<LaneView>, now: u64) -> bool {
    forall|i: int| 0 <= i < lanes.len() ==> height_of(#[trigger] lanes[i], now) <= u16::MAX
}

/// Whether every lane has a height that can be counted.
pub fn lanes_fit(state: &SwarmState, now: u64) -> (r: bool)
    ensures
        r == heights_fit(state@.lanes, now),
{
    let ghost all = state@.lanes;
    let mut i: usize = 0;
    while i < state.lanes.len()
        invariant
            i <= state.lanes@.len(),
            all == state@.lanes,
            forall|j: int| 0 <= j < i ==> height_of(#[trigger] all[j], now) <= u16::MAX,
        decreases state.lanes.len() - i,
    {
        assert(all[i as int] == state.lanes@[i as int]@);
        if !height_fits(&state.lanes[i], now) {
            return false;
        }
        i += 1;
    }
    true
}

/// The title of a lane.
pub fn title_of(lane: &RepoLane) -> (r: Line)
    ensures
        r@ == lane_title(lane@),
{
    let icon: &str = if lane.is_lead {
        " ★  "
    } else {
        " ⚙  "
    };
    let prefix: &str = if lane.is_lead {
        "* LEAD  "
    } else {
        "  "
    };
    let mut name: String = prefix.to_string();
    name.append(&lane.repo_name);
    let name_color: Color = if lane.is_lead {
        Color::Yellow
    } else {
        Color::White
    };
    let mut title: Line = Line::empty();
    title.push(Span::colored(icon.to_string(), color_of(lane)));
    title.push(Span::strong(name, name_color));
    title.push(Span::raw("  ".to_string()));
    assert(title@ =~= lane_title(lane@));
    title
}

/// The color of a lane.
pub fn color_of(lane: &RepoLane) -> (r: Color)
    ensures
        r == lane_color(lane@),
{
    if !lane.has_active_agents() {
        Color::DarkGray
    } else if lane.is_lead {
        Color::Yellow
    } else {
        Color::Cyan
    }
}

/// The section of a lane's agents in an area.
fn render_agents_section(area: Area, lane: &RepoLane, now: u64) -> (r: Vec<Placed>)
    ensures
        is_agents_section(lane@, area, now, r.deep_view()),
{
    let agents: Vec<&Agent> = visible_agents(lane, now);
    let ghost shown = agents.deep_view();
    assert(shown.len() == agents@.len());
    let mut scene: Vec<Placed> = Vec::new();
    assert(scene.deep_view() =~= Seq::empty());
    if agents.len() == 0 {
        let notice: &str = if lane.is_scanning {
            "  ⟳ scanning sessions..."
        } else {
            "  ◌ no recent sessions"
        };
        let line: Line = Line::one(Span::colored(notice.to_string(), Color::DarkGray));
        paint::push_text_line(&mut scene, area, line);
        assert(scene.deep_view() =~= seq![
            paint::text_at(area, seq![lane_notice(lane@.is_scanning)], false),
        ]);
        return scene;
    }
    let mut sizes: Vec<Size> = Vec::new();
    let mut i: usize = 0;
    while i < agents.len()
        invariant
            i <= agents@.len(),
            sizes@.len() == i,
            forall|j: int|
                0 <= j < i ==> #[trigger] sizes@[j] == Size::Length((AGENT_CARD_H + 1) as u16),
        decreases agents.len() - i,
    {
        sizes.push(Size::Length(AGENT_CARD_H + 1));
        i += 1;
    }
    assert(sizes@ =~= row_sizes(shown.len()));
    let areas: Vec<Area> = layout::split_rows(area, &sizes);
    let ghost mut pieces: Seq<Seq<PlacedView>> = Seq::empty();
    let mut k: usize = 0;
    while k < agents.len()
        invariant
            k <= agents@.len() == areas@.len(),
            shown == agents.deep_view(),
            pieces.len() == k,
            forall|j: int|
                0 <= j < k ==> is_row(shown[j], areas@[j], now, #[trigger] pieces[j]),
            scene.deep_view() == joined(pieces),
        decreases agents.len() - k,
    {
        assert(shown[k as int] == agents@[k as int]@);
        let row: Vec<Placed> = render_agent_row(areas[k], agents[k], now);
        let ghost piece = row.deep_view();
        proof {
            assert(pieces.push(piece).drop_last() =~= pieces);
            pieces = pieces.push(piece);
        }
        paint::append_scene(&mut scene, row);
        k += 1;
    }
    assert(are_agent_rows(shown, areas@, now, pieces));
    scene
}

/// A lane in an area.
pub fn render_repo_lane(area: Area, lane: &RepoLane, selected: bool, now: u64) -> (r: Vec<Placed>)
    ensures
        is_lane(lane@, selected, area, now, r.deep_view()),
{
    let border: Border = if selected {
        Border::Thick
    } else {
        Border::Double
    };
    let mut scene: Vec<Placed> = Vec::new();
    paint::push_frame(&mut scene, area, border, color_of(lane), title_of(lane));
    assert(scene.deep_view() =~= seq![lane_frame(lane@, selected, area)]);
    let inner: Area = area.inner();
    let docker_h: u16 = docker_section_height(lane);
    let agent_h: u16 = inner.height.saturating_sub(docker_h);
    let mut sizes: Vec<Size> = Vec::new();
    sizes.push(Size::Length(agent_h));
    sizes.push(Size::Length(docker_h));
    assert(sizes@ =~= section_sizes(lane@, inner));
    let sections: Vec<Area> = layout::split_rows(inner, &sizes);
    let agents: Vec<Placed> = render_agents_section(sections[0], lane, now);
    let ghost agents_scene = agents.deep_view();
    paint::append_scene(&mut scene, agents);
    let stacks: Vec<Placed> = if lane.has_docker() {
        render_docker_section(sections[1], &lane.docker_stacks)
    } else {
        Vec::new()
    };
    let ghost stacks_scene = stacks.deep_view();
    assert(is_lane_stacks(lane@, sections@[1], stacks_scene)) by {
        if lane@.docker_stacks.len() == 0 {
            assert(stacks_scene =~= Seq::empty());
        }
    }
    paint::append_scene(&mut scene, stacks);
    assert(is_agents_section(lane@, sections@[0], now, agents_scene));
    scene
}

/// The lanes in an area.
pub fn render_lanes(
    name: &Assistant,
    area: Area,
    lanes: &Vec<&RepoLane>,
    selected: usize,
    now: u64,
) -> (r: Vec<Placed>)
    requires
        heights_fit(lanes.deep_view(), now),
    ensures
        is_lanes_scene(name@, lanes.deep_view(), selected as int, area, now, r.deep_view()),
{
    let ghost all = lanes.deep_view();
    assert(all.len() == lanes@.len());
    let mut scene: Vec<Placed> = Vec::new();
    assert(scene.deep_view() =~= Seq::empty());
    if lanes.len() == 0 {
        let mut missing: String = "  No active ".to_string();
        missing.append(&name.title);
        missing.append(" sessions found.");
        let mut watching: String = "  Watching ~/.".to_string();
        watching.append(&name.id);
        watching.append("/projects/ ...");
        let mut lines: Vec<Line> = Vec::new();
        paint::push_line(&mut lines, Line::empty());
        paint::push_line(&mut lines, Line::one(Span::colored(missing, Color::DarkGray)));
        paint::push_line(&mut lines, Line::one(Span::colored(watching, Color::DarkGray)));
        assert(lines.deep_view() =~= no_lanes(name@));
        paint::push_text(&mut scene, area, lines, false);
        assert(scene.deep_view() =~= seq![paint::text_at(area, no_lanes(name@), false)]);
        return scene;
    }
    let mut sizes: Vec<Size> = Vec::new();
    let mut i: usize = 0;
    while i < lanes.len()
        invariant
            i <= lanes@.len(),
            all == lanes.deep_view(),
            heights_fit(all, now),
            sizes@.len() == i,
            forall|j: int| 0 <= j < i ==> #[trigger] sizes@[j] == lane_sizes(all, now)[j],
        decreases lanes.len() - i,
    {
        assert(all[i as int] == lanes@[i as int]@);
        sizes.push(Size::Length(lane_height(lanes[i], now)));
        i += 1;
    }
    assert(sizes@ =~= lane_sizes(all, now));
    let areas: Vec<Area> = layout::split_rows(area, &sizes);
    let ghost mut pieces: Seq<Seq<PlacedView>> = Seq::empty();
    let mut k: usize = 0;
    while k < lanes.len()
        invariant
            k <= lanes@.len() == areas@.len(),
            all == lanes.deep_view(),
            pieces.len() == k,
            forall|j: int|
                0 <= j < k ==> is_lane(
                    all[j],
                    j == selected,
                    areas@[j],
                    now,
                    #[trigger] pieces[j],
                ),
            scene.deep_view() == joined(pieces),
        decreases lanes.len() - k,
    {
        assert(all[k as int] == lanes@[k as int]@);
        let drawn: Vec<Placed> = render_repo_lane(areas[k], lanes[k], k == selected, now);
        let ghost piece = drawn.deep_view();
        proof {
            assert(pieces.push(piece).drop_last() =~= pieces);
            pieces = pieces.push(piece);
        }
        paint::append_scene(&mut scene, drawn);
        k += 1;
    }
    assert(are_lanes(all, selected as int, areas@, now, pieces));
    scene
}

/// The header of the dashboard.
pub fn render_header(name: &Assistant, docker_ok: bool) -> (r: Line)
    ensures
        r@ == header(name@, docker_ok),
{
    let docker: Span = if docker_ok {
        Span::colored(" 🐳 docker:ok ".to_string(), Color::Cyan)
    } else {
        Span::colored(" 🐳 docker:off ".to_string(), Color::DarkGray)
    };
    let mut title: String = " 🐝 ".to_string();
    title.append(&name.id);
    title.append("-swarm ");
    let mut line: Line = Line::empty();
    line.push(
        Span {
            text: title,
            fg: Some(Color::Black),
            bg: Some(Color::Yellow),
            bold: true,
        },
    );
    line.push(Span::colored("  monitoring your agent fleet  ".to_string(), Color::DarkGray));
    line.push(docker);
    line.push(Span::colored(" q:quit ".to_string(), Color::DarkGray));
    assert(line@ =~= header(name@, docker_ok));
    line
}

/// The swarm in an area, with the lane at `selected` in the order of the lanes marked.
pub fn render(
    name: &Assistant,
    area: Area,
    state: &SwarmState,
    selected: usize,
    now: u64,
) -> (r: Vec<Placed>)
    requires
        heights_fit(state@.lanes, now),
    ensures
        is_list_view(name@, state@, selected as int, area, now, r.deep_view()),
{
    let mut sizes: Vec<Size> = Vec::new();
    sizes.push(Size::Length(1));
    sizes.push(Size::Min(0));
    assert(sizes@ =~= screen_sizes());
    let parts: Vec<Area> = layout::split_rows(area, &sizes);
    let mut scene: Vec<Placed> = Vec::new();
    paint::push_text_line(&mut scene, parts[0], render_header(name, state.docker_available));
    assert(scene.deep_view() =~= seq![
        paint::text_at(parts@[0], seq![header(name@, state@.docker_available)], false),
    ]);
    let lanes: Vec<&RepoLane> = state.sorted_lanes();
    let ghost sorted = lanes.deep_view();
    proof {
        lemma_sorted_fit(state@.lanes, sorted, now);
    }
    let below: Vec<Placed> = render_lanes(name, parts[1], &lanes, selected, now);
    assert(is_lanes_scene(name@, sorted, selected as int, parts@[1], now, below.deep_view()));
    paint::append_scene(&mut scene, below);
    scene
}

/// Sorting lanes leaves their heights as they are.
proof fn lemma_sorted_fit(lanes: Seq<LaneView>, sorted: Seq<LaneView>, now: u64)
    requires
        heights_fit(lanes, now),
        state::are_sorted_lanes(lanes, sorted),
    ensures
        heights_fit(sorted, now),
{
    let order = choose|order: Seq<usize>| #[trigger]
        order::is_order(state::lane_keys(lanes), order) && sorted == order::permuted(lanes, order);
    assert forall|i: int| 0 <= i < sorted.len() implies height_of(#[trigger] sorted[i], now)
        <= u16::MAX by {
        assert(sorted[i] == lanes[order[i] as int]);
    }
}

// ---------------------------------------------------------------------------------------------
// Laws
// ---------------------------------------------------------------------------------------------

/// A lane with agents shows at least one, and shows none that it does not have.
pub proof fn law_a_lane_shows_agents(agents: Seq<AgentView>, now: u64)
    ensures
        shown_agents(agents, now).len() > 0 <==> agents.len() > 0,
        shown_agents(agents, now).len() <= agents.len(),
        forall|i: int|
            0 <= i < shown_agents(agents, now).len() ==> agents.contains(
                #[trigger] shown_agents(agents, now)[i],
            ),
{
    broadcast use vstd::seq_lib::group_seq_properties;

    agents.lemma_filter_len(is_current(now));
    if agents.len() > 0 {
        lemma_latest(agents);
        assert(agents.contains(agents[latest(agents)]));
    }
    let current = agents.filter(is_current(now));
    assert forall|i: int| 0 <= i < current.len() implies agents.contains(#[trigger] current[i]) by {
        assert(current.contains(current[i]));
        agents.lemma_filter_contains_rev(is_current(now), current[i]);
    }
}

/// An agent that waits for its user is shown as long as it is not taken for gone.
pub proof fn law_waiting_agents_are_shown(agents: Seq<AgentView>, i: int, now: u64)
    requires
        0 <= i < agents.len(),
        agents[i].status == AgentStatus::WaitingForYou,
        agent::elapsed_secs(agents[i].last_activity, now) < STALE_SECS,
    ensures
        shown_agents(agents, now).contains(agents[i]),
        card_color(agents[i].status) == Color::Yellow,
{
    agents.lemma_filter_contains(is_current(now), i);
}

/// No sub-agent that has completed is shown.
pub proof fn law_completed_subs_are_gone(a: AgentView)
    ensures
        forall|i: int|
            0 <= i < shown_subs(a).len() ==> (#[trigger] shown_subs(a)[i]).status
                != AgentStatus::Completed,
{
    assert forall|i: int| 0 <= i < shown_subs(a).len() implies (#[trigger] shown_subs(a)[i]).status
        != AgentStatus::Completed by {
        a.sub_agents.lemma_filter_pred(unfinished_sub(), i);
    }
}

/// The header shows the name of the program, and the key that quits, whether or not the container
/// engine answers; and it tells which of the two is so.
pub proof fn law_header_names_program(program: Seq<char>, docker_ok: bool)
    requires
        "-swarm"@.is_suffix_of(program),
    ensures
        ({
            let line = header(assistant::watched_by(program), docker_ok);
            &&& line.len() == 4
            &&& line[0].text == " 🐝 "@ + program + " "@
            &&& line[2].text == if docker_ok {
                " 🐳 docker:ok "@
            } else {
                " 🐳 docker:off "@
            }
            &&& line[3].text == " q:quit "@
        }),
{
    reveal_strlit("-swarm");
    reveal_strlit("-swarm ");
    reveal_strlit(" ");
    let id = assistant::watched_by(program).id;
    assert(id + "-swarm"@ =~= program);
    assert("-swarm "@ =~= "-swarm"@ + " "@);
    assert(" 🐝 "@ + id + "-swarm "@ =~= " 🐝 "@ + (id + "-swarm"@) + " "@);
}

/// A usage bar is as long however much of it is filled.
pub proof fn law_bar_length(filled: nat)
    requires
        filled <= BAR_STEPS,
    ensures
        bar(filled).len() == BAR_STEPS + 2,
{
    reveal_strlit("[");
    reveal_strlit("]");
}

/// Everything in a scene lies in an area.
pub open spec fn lies_within(scene: Seq<PlacedView>, area: Area) -> bool {
    forall|i: int| 0 <= i < scene.len() ==> layout::within((#[trigger] scene[i]).area, area)
}

proof fn lemma_lies_within_add(a: Seq<PlacedView>, b: Seq<PlacedView>, area: Area)
    requires
        lies_within(a, area),
        lies_within(b, area),
    ensures
        lies_within(a + b, area),
{
    assert forall|i: int| 0 <= i < (a + b).len() implies layout::within(
        (#[trigger] (a + b)[i]).area,
        area,
    ) by {
        if i < a.len() {
            assert((a + b)[i] == a[i]);
        } else {
            assert((a + b)[i] == b[i - a.len()]);
        }
    }
}

proof fn lemma_lies_within_joined(pieces: Seq<Seq<PlacedView>>, area: Area)
    requires
        forall|i: int| 0 <= i < pieces.len() ==> lies_within(#[trigger] pieces[i], area),
    ensures
        lies_within(joined(pieces), area),
    decreases pieces.len(),
{
    if pieces.len() > 0 {
        let front = pieces.drop_last();
        assert forall|i: int| 0 <= i < front.len() implies lies_within(
            #[trigger] front[i],
            area,
        ) by {
            assert(front[i] == pieces[i]);
        }
        lemma_lies_within_joined(front, area);
        assert(lies_within(pieces[pieces.len() - 1], area));
        lemma_lies_within_add(joined(front), pieces.last(), area);
    }
}

proof fn lemma_lies_within_wider(scene: Seq<PlacedView>, part: Area, area: Area)
    requires
        lies_within(scene, part),
        layout::within(part, area),
    ensures
        lies_within(scene, area),
{
    assert forall|i: int| 0 <= i < scene.len() implies layout::within(
        (#[trigger] scene[i]).area,
        area,
    ) by {
        assert(layout::within(scene[i].area, part));
    }
}

proof fn lemma_sub_cards_within(subs: Seq<SubAgentView>, areas: Seq<Area>, now: u64, area: Area)
    requires
        areas.len() > subs.len(),
        forall|i: int|
            0 <= i < areas.len() ==> layout::within(#[trigger] areas[i], area)
                && layout::is_countable(areas[i]),
    ensures
        lies_within(sub_cards(subs, areas, now), area),
    decreases subs.len(),
{
    if subs.len() > 0 {
        lemma_sub_cards_within(subs.drop_last(), areas, now, area);
        let at = areas[subs.len() as int];
        layout::law_inside_lies_within(at);
        lemma_lies_within_add(
            sub_cards(subs.drop_last(), areas, now),
            sub_card(at, subs.last(), now),
            area,
        );
    }
}

proof fn lemma_row_within(a: AgentView, area: Area, now: u64, scene: Seq<PlacedView>)
    requires
        layout::is_countable(area),
        is_row(a, area, now, scene),
    ensures
        lies_within(scene, area),
{
    let sizes = card_sizes(shown_subs(a).len() + 1);
    let areas = choose|areas: Seq<Area>| #[trigger]
        layout::are_columns(area, sizes, areas) && scene == row_scene(a, areas, now);
    assert forall|i: int| 0 <= i < areas.len() implies layout::within(#[trigger] areas[i], area)
        && layout::is_countable(areas[i]) by {
        layout::law_columns_lie_within(area, sizes, areas, i);
    }
    assert(layout::within(areas[0], area));
    layout::law_inside_lies_within(areas[0]);
    lemma_sub_cards_within(shown_subs(a), areas, now, area);
    lemma_lies_within_add(
        agent_card(areas[0], a, now),
        sub_cards(shown_subs(a), areas, now),
        area,
    );
}

proof fn lemma_agents_section_within(l: LaneView, area: Area, now: u64, scene: Seq<PlacedView>)
    requires
        layout::is_countable(area),
        is_agents_section(l, area, now, scene),
    ensures
        lies_within(scene, area),
{
    let shown = shown_agents(l.agents, now);
    if shown.len() > 0 {
        let sizes = row_sizes(shown.len());
        let (areas, pieces) = choose|areas: Seq<Area>, pieces: Seq<Seq<PlacedView>>| #[trigger]
            layout::are_rows(area, sizes, areas) && #[trigger] are_agent_rows(
                shown,
                areas,
                now,
                pieces,
            ) && scene == joined(pieces);
        assert forall|i: int| 0 <= i < pieces.len() implies lies_within(
            #[trigger] pieces[i],
            area,
        ) by {
            layout::law_rows_lie_within(area, sizes, areas, i);
            lemma_row_within(shown[i], areas[i], now, pieces[i]);
            lemma_lies_within_wider(pieces[i], areas[i], area);
        }
        lemma_lies_within_joined(pieces, area);
    }
}

proof fn lemma_stacks_scene_within(stacks: Seq<StackView>, areas: Seq<Area>, area: Area)
    requires
        areas.len() >= 2 * stacks.len(),
        forall|i: int| 0 <= i < areas.len() ==> layout::within(#[trigger] areas[i], area),
    ensures
        lies_within(stacks_scene(stacks, areas), area),
    decreases stacks.len(),
{
    if stacks.len() > 0 {
        let k = 2 * (stacks.len() - 1);
        lemma_stacks_scene_within(stacks.drop_last(), areas, area);
        assert(layout::within(areas[k], area) && layout::within(areas[k + 1], area));
        lemma_lies_within_add(
            stacks_scene(stacks.drop_last(), areas),
            stack_scene(stacks.last(), areas[k], areas[k + 1]),
            area,
        );
    }
}

proof fn lemma_lane_stacks_within(l: LaneView, area: Area, scene: Seq<PlacedView>)
    requires
        layout::is_countable(area),
        is_lane_stacks(l, area, scene),
    ensures
        lies_within(scene, area),
{
    if l.docker_stacks.len() > 0 && area.height >= DOCKER_SECTION_H {
        let sizes = stack_sizes(l.docker_stacks.len());
        let areas = choose|areas: Seq<Area>| #[trigger]
            layout::are_rows(area, sizes, areas) && scene == stacks_scene(l.docker_stacks, areas);
        assert forall|i: int| 0 <= i < areas.len() implies layout::within(
            #[trigger] areas[i],
            area,
        ) by {
            layout::law_rows_lie_within(area, sizes, areas, i);
        }
        lemma_stacks_scene_within(l.docker_stacks, areas, area);
    }
}

proof fn lemma_lane_within(
    l: LaneView,
    selected: bool,
    area: Area,
    now: u64,
    scene: Seq<PlacedView>,
)
    requires
        layout::is_countable(area),
        is_lane(l, selected, area, now, scene),
    ensures
        lies_within(scene, area),
{
    let inner = layout::inside(area);
    let sizes = section_sizes(l, inner);
    let (sections, agents, stacks) = choose|
        sections: Seq<Area>,
        agents: Seq<PlacedView>,
        stacks: Seq<PlacedView>,
    | #[trigger]
        layout::are_rows(inner, sizes, sections) && #[trigger] is_agents_section(
            l,
            sections[0],
            now,
            agents,
        ) && #[trigger] is_lane_stacks(l, sections[1], stacks) && scene == seq![
            lane_frame(l, selected, area),
        ] + agents + stacks;
    layout::law_inside_lies_within(area);
    layout::law_rows_lie_within(inner, sizes, sections, 0);
    layout::law_rows_lie_within(inner, sizes, sections, 1);
    lemma_agents_section_within(l, sections[0], now, agents);
    lemma_lane_stacks_within(l, sections[1], stacks);
    lemma_lies_within_wider(agents, sections[0], area);
    lemma_lies_within_wider(stacks, sections[1], area);
    let frame = seq![lane_frame(l, selected, area)];
    assert(lies_within(frame, area));
    lemma_lies_within_add(frame, agents, area);
    lemma_lies_within_add(frame + agents, stacks, area);
}

/// Nothing of the list view is painted outside of its area.
pub proof fn law_list_view_lies_within(
    name: AssistantView,
    s: SwarmView,
    selected: int,
    area: Area,
    now: u64,
    scene: Seq<PlacedView>,
)
    requires
        layout::is_countable(area),
        is_list_view(name, s, selected, area, now, scene),
    ensures
        lies_within(scene, area),
{
    let (parts, lanes, below) = choose|
        parts: Seq<Area>,
        lanes: Seq<LaneView>,
        below: Seq<PlacedView>,
    | #[trigger]
        layout::are_rows(area, screen_sizes(), parts) && #[trigger] state::are_sorted_lanes(
            s.lanes,
            lanes,
        ) && #[trigger] is_lanes_scene(name, lanes, selected, parts[1], now, below) && scene
            == seq![
            paint::text_at(parts[0], seq![header(name, s.docker_available)], false),
        ] + below;
    layout::law_rows_lie_within(area, screen_sizes(), parts, 0);
    layout::law_rows_lie_within(area, screen_sizes(), parts, 1);
    let part = parts[1];
    if lanes.len() > 0 {
        let sizes = lane_sizes(lanes, now);
        let (areas, pieces) = choose|areas: Seq<Area>, pieces: Seq<Seq<PlacedView>>| #[trigger]
            layout::are_rows(part, sizes, areas) && #[trigger] are_lanes(
                lanes,
                selected,
                areas,
                now,
                pieces,
            ) && below == joined(pieces);
        assert forall|i: int| 0 <= i < pieces.len() implies lies_within(
            #[trigger] pieces[i],
            part,
        ) by {
            layout::law_rows_lie_within(part, sizes, areas, i);
            lemma_lane_within(lanes[i], i == selected, areas[i], now, pieces[i]);
            lemma_lies_within_wider(pieces[i], areas[i], part);
        }
        lemma_lies_within_joined(pieces, part);
    }
    lemma_lies_within_wider(below, part, area);
    let head = seq![paint::text_at(parts[0], seq![header(name, s.docker_available)], false)];
    assert(lies_within(head, area));
    lemma_lies_within_add(head, below, area);
}

/// Everything in `part` is in `scene`.
pub open spec fn shows_all(scene: Seq<PlacedView>, part: Seq<PlacedView>) -> bool {
    forall|i: int| 0 <= i < part.len() ==> scene.contains(#[trigger] part[i])
}

proof fn lemma_shows_left(a: Seq<PlacedView>, b: Seq<PlacedView>, part: Seq<PlacedView>)
    requires
        shows_all(a, part),
    ensures
        shows_all(a + b, part),
{
    assert forall|i: int| 0 <= i < part.len() implies (a + b).contains(#[trigger] part[i]) by {
        let k = choose|k: int| 0 <= k < a.len() && a[k] == part[i];
        assert((a + b)[k] == part[i]);
    }
}

proof fn lemma_shows_right(a: Seq<PlacedView>, b: Seq<PlacedView>, part: Seq<PlacedView>)
    requires
        shows_all(b, part),
    ensures
        shows_all(a + b, part),
{
    assert forall|i: int| 0 <= i < part.len() implies (a + b).contains(#[trigger] part[i]) by {
        let k = choose|k: int| 0 <= k < b.len() && b[k] == part[i];
        assert((a + b)[a.len() + k] == part[i]);
    }
}

proof fn lemma_shows_itself(a: Seq<PlacedView>)
    ensures
        shows_all(a, a),
{
    assert forall|i: int| 0 <= i < a.len() implies a.contains(#[trigger] a[i]) by {}
}

proof fn lemma_shows_piece(pieces: Seq<Seq<PlacedView>>, i: int, part: Seq<PlacedView>)
    requires
        0 <= i < pieces.len(),
        shows_all(pieces[i], part),
    ensures
        shows_all(joined(pieces), part),
    decreases pieces.len(),
{
    let front = pieces.drop_last();
    if i == pieces.len() - 1 {
        lemma_shows_right(joined(front), pieces.last(), part);
    } else {
        lemma_shows_piece(front, i, part);
        lemma_shows_left(joined(front), pieces.last(), part);
    }
}

/// The place of a card in a lane: the `j`-th in the `k`-th row.
pub open spec fn card_place(lane: Area, k: int, j: int) -> Area {
    let inner = layout::inside(lane);
    Area {
        x: (inner.x + j * AGENT_CARD_W) as u16,
        y: (inner.y + k * (AGENT_CARD_H + 1)) as u16,
        width: AGENT_CARD_W,
        height: (AGENT_CARD_H + 1) as u16,
    }
}

/// The place of what a lane says in place of agents.
pub open spec fn notice_place(lane: Area) -> Area {
    Area { height: 2, ..layout::inside(lane) }
}

/// The place of a line of a lane's stacks.
pub open spec fn stack_line_place(l: LaneView, lane: Area, now: u64, line: int) -> Area {
    let inner = layout::inside(lane);
    Area { y: (inner.y + agents_height(l, now) + line) as u16, height: 1, ..inner }
}

/// The cards of an agent and its sub-agents have room beside each other in a lane.
pub open spec fn cards_fit(a: AgentView, lane: Area) -> bool {
    (shown_subs(a).len() + 1) * AGENT_CARD_W <= layout::inside(lane).width
}

proof fn lemma_sub_cards_show(subs: Seq<SubAgentView>, areas: Seq<Area>, now: u64, j: int)
    requires
        0 <= j < subs.len(),
    ensures
        shows_all(sub_cards(subs, areas, now), sub_card(areas[j + 1], subs[j], now)),
    decreases subs.len(),
{
    let front = subs.drop_last();
    let last = sub_card(areas[subs.len() as int], subs.last(), now);
    if j == subs.len() - 1 {
        lemma_shows_itself(last);
        lemma_shows_right(sub_cards(front, areas, now), last, last);
    } else {
        lemma_sub_cards_show(front, areas, now, j);
        lemma_shows_left(
            sub_cards(front, areas, now),
            last,
            sub_card(areas[j + 1], subs[j], now),
        );
    }
}

proof fn lemma_stacks_show(stacks: Seq<StackView>, areas: Seq<Area>, k: int)
    requires
        0 <= k < stacks.len(),
    ensures
        shows_all(
            stacks_scene(stacks, areas),
            stack_scene(stacks[k], areas[2 * k], areas[2 * k + 1]),
        ),
    decreases stacks.len(),
{
    let front = stacks.drop_last();
    let n = 2 * (stacks.len() - 1);
    let last = stack_scene(stacks.last(), areas[n], areas[n + 1]);
    if k == stacks.len() - 1 {
        lemma_shows_itself(last);
        lemma_shows_right(stacks_scene(front, areas), last, last);
    } else {
        lemma_stacks_show(front, areas, k);
        lemma_shows_left(
            stacks_scene(front, areas),
            last,
            stack_scene(stacks[k], areas[2 * k], areas[2 * k + 1]),
        );
    }
}

/// The room that cards in a row ask for, and where each starts.
proof fn lemma_card_room(n: nat, j: int)
    requires
        0 <= j <= n,
    ensures
        layout::only_last_grows(card_sizes(n)),
        layout::room_of(card_sizes(n)) == n * AGENT_CARD_W,
        layout::room_of(card_sizes(n).take(j)) == j * AGENT_CARD_W,
{
    let sizes = card_sizes(n);
    layout::lemma_room_of_same(sizes.take(j), AGENT_CARD_W);
    layout::lemma_room_of_same(sizes.drop_last(), AGENT_CARD_W);
    assert(sizes.last() == Size::Min(0));
}

/// Where the cards of an agent have room in its row, they stand beside each other, the agent's
/// first.
proof fn lemma_row_places(a: AgentView, area: Area, now: u64, scene: Seq<PlacedView>, j: int)
    requires
        layout::is_countable(area),
        is_row(a, area, now, scene),
        (shown_subs(a).len() + 1) * AGENT_CARD_W <= area.width,
        0 <= j <= shown_subs(a).len(),
    ensures
        ({
            let at = Area {
                x: (area.x + j * AGENT_CARD_W) as u16,
                width: AGENT_CARD_W,
                ..area
            };
            if j == 0 {
                shows_all(scene, agent_card(at, a, now))
            } else {
                shows_all(scene, sub_card(at, shown_subs(a)[j - 1], now))
            }
        }),
{
    let subs = shown_subs(a);
    let sizes = card_sizes(subs.len() + 1);
    let areas = choose|areas: Seq<Area>| #[trigger]
        layout::are_columns(area, sizes, areas) && scene == row_scene(a, areas, now);
    lemma_card_room(subs.len() + 1, j);
    layout::law_column_starts(area, sizes, areas, j);
    assert(sizes[j] is Length);
    assert(areas[j].width == AGENT_CARD_W);
    let at = Area { x: (area.x + j * AGENT_CARD_W) as u16, width: AGENT_CARD_W, ..area };
    assert(areas[j] == at);
    let first = agent_card(areas[0], a, now);
    let rest = sub_cards(subs, areas, now);
    if j == 0 {
        lemma_shows_itself(first);
        lemma_shows_left(first, rest, first);
    } else {
        lemma_sub_cards_show(subs, areas, now, j - 1);
        lemma_shows_right(first, rest, sub_card(at, subs[j - 1], now));
    }
}

/// The two sections of a lane that is as high as it asks for: its agents take what they ask for,
/// and its stacks stand below.
proof fn lemma_sections(l: LaneView, area: Area, now: u64, sections: Seq<Area>)
    requires
        layout::is_countable(area),
        area.height == height_of(l, now),
        layout::are_rows(
            layout::inside(area),
            section_sizes(l, layout::inside(area)),
            sections,
        ),
    ensures
        ({
            let inner = layout::inside(area);
            &&& sections[0] == (Area { height: agents_height(l, now) as u16, ..inner })
            &&& sections[1] == (Area {
                y: (inner.y + agents_height(l, now)) as u16,
                height: docker_height(l),
                ..inner
            })
            &&& inner.y + agents_height(l, now) + docker_height(l) <= u16::MAX
        }),
{
    let inner = layout::inside(area);
    let sizes = section_sizes(l, inner);
    assert(agents_height(l, now) >= 0) by {
        let n = shown_agents(l.agents, now).len();
        assert(n * (AGENT_CARD_H + 1) >= 0) by (nonlinear_arith);
    }
    assert(inner.height == agents_height(l, now) + docker_height(l));
    assert(sizes.len() == 2);
    layout::lemma_room_of_two(sizes[0], sizes[1]);
    assert(sizes =~= seq![sizes[0], sizes[1]]);
    assert(layout::room_of(sizes) == inner.height);
    assert(layout::have_room(sizes, inner.y, layout::far_end(inner.y, inner.height)));
    assert(sections[0].height == sizes[0]->Length_0);
    assert(sections[1].height == sizes[1]->Length_0);
}

/// A lane that is as high as it asks for shows all that it has at its place: the frame around it;
/// the notice, if it shows no agents; the card of every agent that is shown, and behind it those
/// of its sub-agents, where they have room beside each other; and below the agents the two lines
/// of every stack.
pub proof fn law_lane_shows_all(
    l: LaneView,
    selected: bool,
    area: Area,
    now: u64,
    scene: Seq<PlacedView>,
)
    requires
        layout::is_countable(area),
        area.height == height_of(l, now),
        is_lane(l, selected, area, now, scene),
    ensures
        scene.contains(lane_frame(l, selected, area)),
        shown_agents(l.agents, now).len() == 0 ==> scene.contains(
            paint::text_at(notice_place(area), seq![lane_notice(l.is_scanning)], false),
        ),
        forall|k: int|
            0 <= k < shown_agents(l.agents, now).len() && cards_fit(
                shown_agents(l.agents, now)[k],
                area,
            ) ==> #[trigger] shows_all(
                scene,
                agent_card(card_place(area, k, 0), shown_agents(l.agents, now)[k], now),
            ),
        forall|k: int, j: int|
            0 <= k < shown_agents(l.agents, now).len() && cards_fit(
                shown_agents(l.agents, now)[k],
                area,
            ) && 0 <= j < shown_subs(shown_agents(l.agents, now)[k]).len() ==> #[trigger] shows_all(
                scene,
                sub_card(
                    card_place(area, k, j + 1),
                    shown_subs(shown_agents(l.agents, now)[k])[j],
                    now,
                ),
            ),
        forall|k: int|
            0 <= k < l.docker_stacks.len() ==> #[trigger] shows_all(
                scene,
                stack_scene(
                    l.docker_stacks[k],
                    stack_line_place(l, area, now, 2 * k),
                    stack_line_place(l, area, now, 2 * k + 1),
                ),
            ),
{
    let inner = layout::inside(area);
    let sizes = section_sizes(l, inner);
    let (sections, agents, stacks) = choose|
        sections: Seq<Area>,
        agents: Seq<PlacedView>,
        stacks: Seq<PlacedView>,
    | #[trigger]
        layout::are_rows(inner, sizes, sections) && #[trigger] is_agents_section(
            l,
            sections[0],
            now,
            agents,
        ) && #[trigger] is_lane_stacks(l, sections[1], stacks) && scene == seq![
            lane_frame(l, selected, area),
        ] + agents + stacks;
    lemma_sections(l, area, now, sections);
    layout::law_inside_lies_within(area);
    let frame = seq![lane_frame(l, selected, area)];
    let shown = shown_agents(l.agents, now);
    let n = shown.len();
    assert(scene[0] == lane_frame(l, selected, area));
    if n == 0 {
        assert(scene[1] == agents[0]);
        assert(sections[0] == notice_place(area));
    }
    assert forall|k: int, j: int|
        #![trigger card_place(area, k, j)]
        0 <= k < n && cards_fit(shown[k], area) && 0 <= j <= shown_subs(shown[k]).len() implies if j
        == 0 {
        shows_all(scene, agent_card(card_place(area, k, j), shown[k], now))
    } else {
        shows_all(scene, sub_card(card_place(area, k, j), shown_subs(shown[k])[j - 1], now))
    } by {
        lemma_agent_row_places(l, sections[0], now, agents, k, j);
        let part = if j == 0 {
            agent_card(card_place(area, k, j), shown[k], now)
        } else {
            sub_card(card_place(area, k, j), shown_subs(shown[k])[j - 1], now)
        };
        lemma_shows_right(frame, agents, part);
        lemma_shows_left(frame + agents, stacks, part);
    }
    assert forall|k: int| 0 <= k < n && cards_fit(shown[k], area) implies #[trigger] shows_all(
        scene,
        agent_card(card_place(area, k, 0), shown[k], now),
    ) by {}
    assert forall|k: int, j: int|
        0 <= k < n && cards_fit(shown[k], area) && 0 <= j < shown_subs(
            shown[k],
        ).len() implies #[trigger] shows_all(
        scene,
        sub_card(card_place(area, k, j + 1), shown_subs(shown[k])[j], now),
    ) by {
        let place = card_place(area, k, j + 1);
    }
    assert forall|k: int| 0 <= k < l.docker_stacks.len() implies #[trigger] shows_all(
        scene,
        stack_scene(
            l.docker_stacks[k],
            stack_line_place(l, area, now, 2 * k),
            stack_line_place(l, area, now, 2 * k + 1),
        ),
    ) by {
        lemma_stack_row_places(l, area, now, sections[1], stacks, k);
        lemma_shows_right(
            frame + agents,
            stacks,
            stack_scene(
                l.docker_stacks[k],
                stack_line_place(l, area, now, 2 * k),
                stack_line_place(l, area, now, 2 * k + 1),
            ),
        );
    }
}

/// The rows of agents that have all the height that they ask for.
proof fn lemma_agent_row_places(
    l: LaneView,
    area: Area,
    now: u64,
    scene: Seq<PlacedView>,
    k: int,
    j: int,
)
    requires
        layout::is_countable(area),
        is_agents_section(l, area, now, scene),
        area.height == agents_height(l, now),
        0 <= k < shown_agents(l.agents, now).len(),
        (shown_subs(shown_agents(l.agents, now)[k]).len() + 1) * AGENT_CARD_W <= area.width,
        0 <= j <= shown_subs(shown_agents(l.agents, now)[k]).len(),
    ensures
        ({
            let a = shown_agents(l.agents, now)[k];
            let at = Area {
                x: (area.x + j * AGENT_CARD_W) as u16,
                y: (area.y + k * (AGENT_CARD_H + 1)) as u16,
                width: AGENT_CARD_W,
                height: (AGENT_CARD_H + 1) as u16,
            };
            if j == 0 {
                shows_all(scene, agent_card(at, a, now))
            } else {
                shows_all(scene, sub_card(at, shown_subs(a)[j - 1], now))
            }
        }),
{
    let shown = shown_agents(l.agents, now);
    let a = shown[k];
    let sizes = row_sizes(shown.len());
    let (areas, pieces) = choose|areas: Seq<Area>, pieces: Seq<Seq<PlacedView>>| #[trigger]
        layout::are_rows(area, sizes, areas) && #[trigger] are_agent_rows(
            shown,
            areas,
            now,
            pieces,
        ) && scene == joined(pieces);
    let h = (AGENT_CARD_H + 1) as u16;
    layout::lemma_room_of_same(sizes, h);
    layout::lemma_room_of_same(sizes.take(k), h);
    assert(layout::have_room(sizes, area.y, layout::far_end(area.y, area.height)));
    layout::law_row_starts(area, sizes, areas, k);
    layout::law_rows_lie_within(area, sizes, areas, k);
    assert(sizes[k] is Length);
    assert(areas[k].height == h);
    assert(is_row(a, areas[k], now, pieces[k]));
    lemma_row_places(a, areas[k], now, pieces[k], j);
    let at = Area {
        x: (area.x + j * AGENT_CARD_W) as u16,
        y: (area.y + k * (AGENT_CARD_H + 1)) as u16,
        width: AGENT_CARD_W,
        height: h,
    };
    assert(at == (Area {
        x: (areas[k].x + j * AGENT_CARD_W) as u16,
        width: AGENT_CARD_W,
        ..areas[k]
    }));
    if j == 0 {
        lemma_shows_piece(pieces, k, agent_card(at, a, now));
    } else {
        lemma_shows_piece(pieces, k, sub_card(at, shown_subs(a)[j - 1], now));
    }
}

/// The lines of stacks that have all the height that they ask for.
proof fn lemma_stack_row_places(
    l: LaneView,
    lane: Area,
    now: u64,
    area: Area,
    scene: Seq<PlacedView>,
    k: int,
)
    requires
        layout::is_countable(area),
        is_lane_stacks(l, area, scene),
        layout::inside(lane).y + agents_height(l, now) + docker_height(l) <= u16::MAX,
        agents_height(l, now) >= 0,
        docker_height(l) < u16::MAX,
        area == (Area {
            y: (layout::inside(lane).y + agents_height(l, now)) as u16,
            height: docker_height(l),
            ..layout::inside(lane)
        }),
        0 <= k < l.docker_stacks.len(),
    ensures
        shows_all(
            scene,
            stack_scene(
                l.docker_stacks[k],
                stack_line_place(l, lane, now, 2 * k),
                stack_line_place(l, lane, now, 2 * k + 1),
            ),
        ),
{
    let n = l.docker_stacks.len();
    let sizes = stack_sizes(n);
    assert(docker_height(l) == 2 * n);
    let areas = choose|areas: Seq<Area>| #[trigger]
        layout::are_rows(area, sizes, areas) && scene == stacks_scene(l.docker_stacks, areas);
    layout::lemma_room_of_same(sizes, 1);
    layout::lemma_room_of_same(sizes.take(2 * k), 1);
    layout::lemma_room_of_same(sizes.take(2 * k + 1), 1);
    assert(layout::have_room(sizes, area.y, layout::far_end(area.y, area.height)));
    layout::law_row_starts(area, sizes, areas, 2 * k);
    layout::law_row_starts(area, sizes, areas, 2 * k + 1);
    assert(sizes[2 * k] is Length && sizes[2 * k + 1] is Length);
    assert(areas[2 * k].height == 1 && areas[2 * k + 1].height == 1);
    assert(areas[2 * k] == stack_line_place(l, lane, now, 2 * k));
    assert(areas[2 * k + 1] == stack_line_place(l, lane, now, 2 * k + 1));
    lemma_stacks_show(l.docker_stacks, areas, k);
}

/// All lanes have room on the screen, below the header.
pub open spec fn lanes_have_room(lanes: Seq<LaneView>, area: Area, now: u64) -> bool {
    heights_fit(lanes, now) && 1 + layout::room_of(lane_sizes(lanes, now)) <= area.height
}

/// The place of a lane: below the header and the lanes before it.
pub open spec fn lane_place(lanes: Seq<LaneView>, i: int, area: Area, now: u64) -> Area {
    Area {
        y: (area.y + 1 + layout::room_of(lane_sizes(lanes, now).take(i))) as u16,
        height: height_of(lanes[i], now) as u16,
        ..area
    }
}

/// `scene` shows a lane in full at a place.
pub open spec fn shows_lane(
    scene: Seq<PlacedView>,
    l: LaneView,
    selected: bool,
    area: Area,
    now: u64,
) -> bool {
    exists|piece: Seq<PlacedView>| #[trigger]
        is_lane(l, selected, area, now, piece) && shows_all(scene, piece)
}

/// Where all lanes have room, the header stands on the first line of the screen, and each lane
/// below it at its place, as high as it asks for.
pub proof fn law_lanes_have_their_places(
    name: AssistantView,
    s: SwarmView,
    lanes: Seq<LaneView>,
    selected: int,
    area: Area,
    now: u64,
    scene: Seq<PlacedView>,
    i: int,
)
    requires
        layout::is_countable(area),
        is_list_view(name, s, selected, area, now, scene),
        state::are_sorted_lanes(s.lanes, lanes),
        lanes_have_room(lanes, area, now),
        0 <= i < lanes.len(),
    ensures
        scene[0] == paint::text_at(
            Area { height: 1, ..area },
            seq![header(name, s.docker_available)],
            false,
        ),
        shows_lane(scene, lanes[i], i == selected, lane_place(lanes, i, area, now), now),
        layout::within(lane_place(lanes, i, area, now), area),
{
    let (parts, sorted, below) = choose|
        parts: Seq<Area>,
        sorted: Seq<LaneView>,
        below: Seq<PlacedView>,
    | #[trigger]
        layout::are_rows(area, screen_sizes(), parts) && #[trigger] state::are_sorted_lanes(
            s.lanes,
            sorted,
        ) && #[trigger] is_lanes_scene(name, sorted, selected, parts[1], now, below) && scene
            == seq![
            paint::text_at(parts[0], seq![header(name, s.docker_available)], false),
        ] + below;
    laws::law_lanes_have_one_order(s.lanes, sorted, lanes);
    let screen = screen_sizes();
    layout::lemma_room_of_two(Size::Length(1), Size::Min(0));
    assert(layout::have_room(screen, area.y, layout::far_end(area.y, area.height)));
    assert(screen[0] is Length && screen.last() is Min);
    assert(parts[0].height == 1);
    assert(parts[1].y == parts[0].y + 1);
    let part = parts[1];
    assert(part == (Area { y: (area.y + 1) as u16, height: (area.height - 1) as u16, ..area }));
    let sizes = lane_sizes(lanes, now);
    let (areas, pieces) = choose|areas: Seq<Area>, pieces: Seq<Seq<PlacedView>>| #[trigger]
        layout::are_rows(part, sizes, areas) && #[trigger] are_lanes(
            lanes,
            selected,
            areas,
            now,
            pieces,
        ) && below == joined(pieces);
    assert(layout::have_room(sizes, part.y, layout::far_end(part.y, part.height)));
    layout::law_row_starts(part, sizes, areas, i);
    layout::law_rows_lie_within(part, sizes, areas, i);
    assert(sizes[i] is Length);
    assert(height_of(lanes[i], now) <= u16::MAX);
    lemma_height_positive(lanes[i], now);
    assert(areas[i].height == height_of(lanes[i], now));
    assert(areas[i] == lane_place(lanes, i, area, now));
    assert(is_lane(lanes[i], i == selected, areas[i], now, pieces[i]));
    lemma_shows_itself(pieces[i]);
    lemma_shows_piece(pieces, i, pieces[i]);
    lemma_shows_right(
        seq![paint::text_at(parts[0], seq![header(name, s.docker_available)], false)],
        below,
        pieces[i],
    );
}

proof fn lemma_height_positive(l: LaneView, now: u64)
    ensures
        height_of(l, now) >= 2,
{
    let n = shown_agents(l.agents, now).len();
    assert(n * (AGENT_CARD_H + 1) >= 0) by (nonlinear_arith);
}

/// Where all lanes have room, and the cards of an agent that waits for its user have room beside
/// each other, the yellow card of that agent stands on the screen, in the lane of the agent.
pub proof fn law_waiting_agent_has_its_card(
    name: AssistantView,
    s: SwarmView,
    lanes: Seq<LaneView>,
    selected: int,
    area: Area,
    now: u64,
    scene: Seq<PlacedView>,
    i: int,
    a: AgentView,
)
    requires
        layout::is_countable(area),
        is_list_view(name, s, selected, area, now, scene),
        state::are_sorted_lanes(s.lanes, lanes),
        lanes_have_room(lanes, area, now),
        0 <= i < lanes.len(),
        lanes[i].agents.contains(a),
        a.status == AgentStatus::WaitingForYou,
        agent::elapsed_secs(a.last_activity, now) < STALE_SECS,
        cards_fit(a, lane_place(lanes, i, area, now)),
    ensures
        exists|k: int| #[trigger]
            shows_all(scene, agent_card(card_place(lane_place(lanes, i, area, now), k, 0), a, now)),
        card_color(a.status) == Color::Yellow,
{
    let l = lanes[i];
    let place = lane_place(lanes, i, area, now);
    law_lanes_have_their_places(name, s, lanes, selected, area, now, scene, i);
    let marked = i == selected;
    let piece = choose|piece: Seq<PlacedView>| #[trigger]
        is_lane(l, marked, place, now, piece) && shows_all(scene, piece);
    lemma_height_positive(l, now);
    law_lane_shows_all(l, marked, place, now, piece);
    let x = choose|x: int| 0 <= x < l.agents.len() && l.agents[x] == a;
    law_waiting_agents_are_shown(l.agents, x, now);
    let shown = shown_agents(l.agents, now);
    let k = choose|k: int| 0 <= k < shown.len() && shown[k] == a;
    let card = agent_card(card_place(place, k, 0), a, now);
    assert(shows_all(piece, agent_card(card_place(place, k, 0), shown[k], now)));
    assert forall|j: int| 0 <= j < card.len() implies scene.contains(#[trigger] card[j]) by {
        assert(piece.contains(card[j]));
        let y = choose|y: int| 0 <= y < piece.len() && piece[y] == card[j];
        assert(scene.contains(piece[y]));
    }
    assert(shows_all(scene, card));
}

} // verus!

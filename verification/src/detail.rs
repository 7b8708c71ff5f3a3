//! The detail view of a lane: all of its agents with their sub-agents, and all of its containers.
use crate::agent;
use crate::agent::{Agent, AgentRole, AgentView, SubAgent, SubAgentView};
use crate::assistant::{Assistant, AssistantView};
use crate::color::Color;
use crate::docker;
use crate::docker::{ContainerInfo, ContainerView, DockerStack, StackView};
use crate::lane::{LaneView, RepoLane};
use crate::layout;
use crate::layout::{Area, Size};
use crate::paint;
use crate::paint::{Border, Line, Placed, PlacedView, Span, SpanView};
use crate::text;
use crate::ui;
use vstd::prelude::*;

verus! {

/// The line of a sub-agent.
pub open spec fn sub_detail(s: SubAgentView, now: u64) -> Seq<SpanView> {
    seq![
        paint::strong("   ◎ "@, Color::Blue),
        paint::colored(text::clip(s.task_tool_use_id, 8), Color::Gray),
        paint::raw("  "@),
        paint::strong(agent::status_label(s.status), agent::status_color(s.status)),
        paint::raw("  "@),
        paint::colored(agent::sub_elapsed(s, now), Color::DarkGray),
        paint::raw("  "@),
        paint::colored(s.prompt_summary, Color::Gray),
    ]
}

/// The lines of sub-agents.
pub open spec fn subs_detail(subs: Seq<SubAgentView>, now: u64) -> Seq<Seq<SpanView>> {
    Seq::new(subs.len(), |i: int| sub_detail(subs[i], now))
}

/// The first line of an agent.
pub open spec fn agent_head(a: AgentView, now: u64) -> Seq<SpanView> {
    seq![
        paint::strong(ui::card_title(a.role), Color::White),
        paint::colored(text::clip(a.session_id, 8), Color::Gray),
        paint::raw("  "@),
        paint::strong(agent::status_label(a.status), agent::status_color(a.status)),
        paint::raw("  "@),
        paint::colored(agent::agent_elapsed(a, now), Color::DarkGray),
    ]
}

/// The line of the tool that an agent used last.
pub open spec fn tool_detail(a: AgentView) -> Seq<Seq<SpanView>> {
    match a.last_tool {
        Some(tool) => seq![
            seq![
                paint::colored("   tool: "@, Color::DarkGray),
                paint::colored(tool, Color::Magenta),
                paint::raw("  "@),
                paint::colored(
                    match a.last_tool_input {
                        Some(input) => input,
                        None => Seq::empty(),
                    },
                    Color::Gray,
                ),
            ],
        ],
        None => Seq::empty(),
    }
}

/// The line of what an agent said last.
pub open spec fn message_detail(a: AgentView) -> Seq<Seq<SpanView>> {
    match a.last_message {
        Some(message) => seq![seq![paint::raw("   "@), paint::colored(message, Color::Yellow)]],
        None => Seq::empty(),
    }
}

/// The lines of an agent.
pub open spec fn agent_detail(a: AgentView, now: u64) -> Seq<Seq<SpanView>> {
    seq![agent_head(a, now)] + tool_detail(a) + message_detail(a) + subs_detail(a.sub_agents, now)
}

/// The lines of agents.
pub open spec fn agents_detail(agents: Seq<AgentView>, now: u64) -> Seq<Seq<SpanView>>
    decreases agents.len(),
{
    if agents.len() == 0 {
        Seq::empty()
    } else {
        agents_detail(agents.drop_last(), now) + agent_detail(agents.last(), now)
    }
}

/// The line of a container.
pub open spec fn container_detail(c: ContainerView) -> Seq<SpanView> {
    seq![
        paint::raw("     "@),
        paint::colored(docker::status_label(c.status), docker::status_color(c.status)),
        paint::raw("  "@),
        paint::colored(docker::service_of(c), Color::White),
    ]
}

/// The lines of containers.
pub open spec fn containers_detail(containers: Seq<ContainerView>) -> Seq<Seq<SpanView>> {
    Seq::new(containers.len(), |i: int| container_detail(containers[i]))
}

/// The lines of stacks.
pub open spec fn stacks_detail(stacks: Seq<StackView>) -> Seq<Seq<SpanView>>
    decreases stacks.len(),
{
    if stacks.len() == 0 {
        Seq::empty()
    } else {
        stacks_detail(stacks.drop_last()) + seq![ui::stack_line(stacks.last())]
            + containers_detail(stacks.last().containers)
    }
}

/// The lines of a lane.
pub open spec fn lane_detail(l: LaneView, now: u64) -> Seq<Seq<SpanView>> {
    agents_detail(l.agents, now) + stacks_detail(l.docker_stacks)
}

/// What is left of a sequence without its first elements.
pub open spec fn scrolled<T>(s: Seq<T>, n: int) -> Seq<T> {
    if n <= s.len() {
        s.skip(n)
    } else {
        Seq::empty()
    }
}

/// `scene` shows the details of a lane in an area, scrolled so far: the header, and below it the
/// frame of the lane with the lines inside.
pub open spec fn is_detail_view(
    name: AssistantView,
    docker_ok: bool,
    l: LaneView,
    scroll: int,
    area: Area,
    now: u64,
    scene: Seq<PlacedView>,
) -> bool {
    exists|parts: Seq<Area>| #[trigger]
        layout::are_rows(area, ui::screen_sizes(), parts) && scene == seq![
            paint::text_at(parts[0], seq![ui::header(name, docker_ok)], false),
            ui::lane_frame(l, true, parts[1]),
            paint::text_at(
                layout::inside(parts[1]),
                scrolled(lane_detail(l, now), scroll),
                false,
            ),
        ]
}

/// The line of a sub-agent.
fn sub_line(sub: &SubAgent, now: u64) -> (r: Line)
    ensures
        r@ == sub_detail(sub@, now),
{
    let mut line: Line = Line::empty();
    line.push(Span::strong("   ◎ ".to_string(), Color::Blue));
    line.push(Span::colored(text::clip_text(&sub.task_tool_use_id, 8), Color::Gray));
    line.push(Span::raw("  ".to_string()));
    line.push(Span::strong(sub.status.label().to_string(), sub.status.color()));
    line.push(Span::raw("  ".to_string()));
    line.push(Span::colored(sub.elapsed_str(now), Color::DarkGray));
    line.push(Span::raw("  ".to_string()));
    line.push(Span::colored(sub.prompt_summary.clone(), Color::Gray));
    assert(line@ =~= sub_detail(sub@, now));
    line
}

/// The first line of an agent.
fn agent_line(agent: &Agent, now: u64) -> (r: Line)
    ensures
        r@ == agent_head(agent@, now),
{
    let title: &str = match agent.role {
        AgentRole::Lead => " ❯❯ Orchestrator ",
        AgentRole::Worker => " ❯  Agent ",
    };
    let mut line: Line = Line::empty();
    line.push(Span::strong(title.to_string(), Color::White));
    line.push(Span::colored(agent.short_id(), Color::Gray));
    line.push(Span::raw("  ".to_string()));
    line.push(Span::strong(agent.status.label().to_string(), agent.status.color()));
    line.push(Span::raw("  ".to_string()));
    line.push(Span::colored(agent.elapsed_str(now), Color::DarkGray));
    assert(line@ =~= agent_head(agent@, now));
    line
}

/// Adds the lines of an agent.
fn push_agent(lines: &mut Vec<Line>, agent: &Agent, now: u64)
    ensures
        final(lines).deep_view() == old(lines).deep_view() + agent_detail(agent@, now),
{
    let ghost before = lines.deep_view();
    paint::push_line(lines, agent_line(agent, now));
    if let Some(tool) = &agent.last_tool {
        let mut line: Line = Line::empty();
        line.push(Span::colored("   tool: ".to_string(), Color::DarkGray));
        line.push(Span::colored(tool.clone(), Color::Magenta));
        line.push(Span::raw("  ".to_string()));
        let input: String = match &agent.last_tool_input {
            Some(input) => input.clone(),
            None => String::new(),
        };
        line.push(Span::colored(input, Color::Gray));
        assert(line@ =~= tool_detail(agent@)[0]);
        paint::push_line(lines, line);
    }
    if let Some(message) = &agent.last_message {
        let line: Line = Line::two(
            Span::raw("   ".to_string()),
            Span::colored(message.clone(), Color::Yellow),
        );
        paint::push_line(lines, line);
    }
    let ghost head = lines.deep_view();
    let ghost subs = agent@.sub_agents;
    proof {
        assert(head =~= before + seq![agent_head(agent@, now)] + tool_detail(agent@)
            + message_detail(agent@));
        assert(head + subs_detail(subs, now).take(0) =~= head);
    }
    let mut i: usize = 0;
    while i < agent.sub_agents.len()
        invariant
            i <= agent.sub_agents@.len(),
            subs == agent@.sub_agents,
            lines.deep_view() == head + subs_detail(subs, now).take(i as int),
        decreases agent.sub_agents.len() - i,
    {
        assert(subs[i as int] == agent.sub_agents@[i as int]@);
        paint::push_line(lines, sub_line(&agent.sub_agents[i], now));
        assert(lines.deep_view() =~= head + subs_detail(subs, now).take(i + 1));
        i += 1;
    }
    assert(subs_detail(subs, now).take(i as int) =~= subs_detail(subs, now));
    assert(lines.deep_view() =~= before + agent_detail(agent@, now));
}

/// The line of a container.
fn container_line(container: &ContainerInfo) -> (r: Line)
    ensures
        r@ == container_detail(container@),
{
    let mut line: Line = Line::empty();
    line.push(Span::raw("     ".to_string()));
    line.push(Span::colored(container.status.label().to_string(), container.status.color()));
    line.push(Span::raw("  ".to_string()));
    line.push(Span::colored(container.service_name(), Color::White));
    assert(line@ =~= container_detail(container@));
    line
}

/// Adds the lines of containers.
fn push_containers(lines: &mut Vec<Line>, stack: &DockerStack)
    ensures
        final(lines).deep_view() == old(lines).deep_view() + containers_detail(stack@.containers),
{
    let ghost before = lines.deep_view();
    let ghost all = stack@.containers;
    assert(before + containers_detail(all).take(0) =~= before);
    let mut i: usize = 0;
    while i < stack.containers.len()
        invariant
            i <= stack.containers@.len(),
            all == stack@.containers,
            lines.deep_view() == before + containers_detail(all).take(i as int),
        decreases stack.containers.len() - i,
    {
        assert(all[i as int] == stack.containers@[i as int]@);
        paint::push_line(lines, container_line(&stack.containers[i]));
        assert(lines.deep_view() =~= before + containers_detail(all).take(i + 1));
        i += 1;
    }
    assert(containers_detail(all).take(i as int) =~= containers_detail(all));
}

/// The lines of a lane.
pub fn detail_lines(lane: &RepoLane, now: u64) -> (r: Vec<Line>)
    ensures
        r.deep_view() == lane_detail(lane@, now),
{
    let ghost agents = lane@.agents;
    let ghost stacks = lane@.docker_stacks;
    let mut lines: Vec<Line> = Vec::new();
    assert(lines.deep_view() =~= agents_detail(agents.take(0), now));
    let mut i: usize = 0;
    while i < lane.agents.len()
        invariant
            i <= lane.agents@.len(),
            agents == lane@.agents,
            lines.deep_view() == agents_detail(agents.take(i as int), now),
        decreases lane.agents.len() - i,
    {
        proof {
            assert(agents[i as int] == lane.agents@[i as int]@);
            assert(agents.take(i + 1).drop_last() =~= agents.take(i as int));
            assert(agents.take(i + 1).last() == agents[i as int]);
        }
        push_agent(&mut lines, &lane.agents[i], now);
        i += 1;
    }
    assert(agents.take(i as int) =~= agents);
    let ghost head = lines.deep_view();
    assert(head + stacks_detail(stacks.take(0)) =~= head);
    let mut k: usize = 0;
    while k < lane.docker_stacks.len()
        invariant
            k <= lane.docker_stacks@.len(),
            stacks == lane@.docker_stacks,
            lines.deep_view() == head + stacks_detail(stacks.take(k as int)),
        decreases lane.docker_stacks.len() - k,
    {
        proof {
            assert(stacks[k as int] == lane.docker_stacks@[k as int]@);
            assert(stacks.take(k + 1).drop_last() =~= stacks.take(k as int));
            assert(stacks.take(k + 1).last() == stacks[k as int]);
        }
        paint::push_line(&mut lines, ui::stack_status(&lane.docker_stacks[k]));
        push_containers(&mut lines, &lane.docker_stacks[k]);
        assert(lines.deep_view() =~= head + stacks_detail(stacks.take(k + 1)));
        k += 1;
    }
    assert(stacks.take(k as int) =~= stacks);
    lines
}

/// The lines from a position on.
fn lines_from(lines: Vec<Line>, scroll: usize) -> (r: Vec<Line>)
    ensures
        r.deep_view() == scrolled(lines.deep_view(), scroll as int),
{
    let ghost all = lines.deep_view();
    let n: usize = lines.len();
    let mut r: Vec<Line> = Vec::new();
    let mut i: usize = 0;
    for line in it: lines
        invariant
            all.len() == it.seq().len() == n,
            forall|j: int| 0 <= j < all.len() ==> #[trigger] all[j] == it.seq()[j]@,
            i == it.index(),
            r.deep_view() == if i <= scroll {
                Seq::empty()
            } else {
                all.subrange(scroll as int, i as int)
            },
    {
        let ghost before = r.deep_view();
        assert(all[i as int] == line@);
        if i >= scroll {
            r.push(line);
            assert(r.deep_view() =~= before.push(line@));
            assert(r.deep_view() =~= all.subrange(scroll as int, i + 1));
        }
        i += 1;
    }
    assert(r.deep_view() =~= scrolled(all, scroll as int));
    r
}

/// The details of a lane in an area, scrolled so far.
pub fn render_detail(
    name: &Assistant,
    area: Area,
    docker_ok: bool,
    lane: &RepoLane,
    scroll: usize,
    now: u64,
) -> (r: Vec<Placed>)
    ensures
        is_detail_view(name@, docker_ok, lane@, scroll as int, area, now, r.deep_view()),
{
    let mut sizes: Vec<Size> = Vec::new();
    sizes.push(Size::Length(1));
    sizes.push(Size::Min(0));
    assert(sizes@ =~= ui::screen_sizes());
    let parts: Vec<Area> = layout::split_rows(area, &sizes);
    let mut scene: Vec<Placed> = Vec::new();
    paint::push_text_line(&mut scene, parts[0], ui::render_header(name, docker_ok));
    paint::push_frame(
        &mut scene,
        parts[1],
        Border::Thick,
        ui::color_of(lane),
        ui::title_of(lane),
    );
    let lines: Vec<Line> = lines_from(detail_lines(lane, now), scroll);
    paint::push_text(&mut scene, parts[1].inner(), lines, false);
    assert(scene.deep_view() =~= seq![
        paint::text_at(parts@[0], seq![ui::header(name@, docker_ok)], false),
        ui::lane_frame(lane@, true, parts@[1]),
        paint::text_at(
            layout::inside(parts@[1]),
            scrolled(lane_detail(lane@, now), scroll as int),
            false,
        ),
    ]);
    scene
}

/// Nothing of the detail view is painted outside of its area.
pub proof fn law_detail_view_lies_within(
    name: AssistantView,
    docker_ok: bool,
    l: LaneView,
    scroll: int,
    area: Area,
    now: u64,
    scene: Seq<PlacedView>,
)
    requires
        layout::is_countable(area),
        is_detail_view(name, docker_ok, l, scroll, area, now, scene),
    ensures
        ui::lies_within(scene, area),
{
    let sizes = ui::screen_sizes();
    let parts = choose|parts: Seq<Area>| #[trigger]
        layout::are_rows(area, sizes, parts) && scene == seq![
            paint::text_at(parts[0], seq![ui::header(name, docker_ok)], false),
            ui::lane_frame(l, true, parts[1]),
            paint::text_at(
                layout::inside(parts[1]),
                scrolled(lane_detail(l, now), scroll),
                false,
            ),
        ];
    layout::law_rows_lie_within(area, sizes, parts, 0);
    layout::law_rows_lie_within(area, sizes, parts, 1);
    layout::law_inside_lies_within(parts[1]);
}

/// Where the screen has a line, the header stands on the first one, and the frame of the lane
/// takes the rest.
pub proof fn law_detail_view_places(
    name: AssistantView,
    docker_ok: bool,
    l: LaneView,
    scroll: int,
    area: Area,
    now: u64,
    scene: Seq<PlacedView>,
)
    requires
        layout::is_countable(area),
        area.height >= 1,
        is_detail_view(name, docker_ok, l, scroll, area, now, scene),
    ensures
        scene[0] == paint::text_at(
            Area { height: 1, ..area },
            seq![ui::header(name, docker_ok)],
            false,
        ),
        scene[1] == ui::lane_frame(
            l,
            true,
            Area { y: (area.y + 1) as u16, height: (area.height - 1) as u16, ..area },
        ),
{
    let sizes = ui::screen_sizes();
    let parts = choose|parts: Seq<Area>| #[trigger]
        layout::are_rows(area, sizes, parts) && scene == seq![
            paint::text_at(parts[0], seq![ui::header(name, docker_ok)], false),
            ui::lane_frame(l, true, parts[1]),
            paint::text_at(
                layout::inside(parts[1]),
                scrolled(lane_detail(l, now), scroll),
                false,
            ),
        ];
    layout::lemma_room_of_two(Size::Length(1), Size::Min(0));
    assert(layout::have_room(sizes, area.y, layout::far_end(area.y, area.height)));
    assert(sizes[0] is Length && sizes.last() is Min);
    assert(parts[0].height == 1);
    assert(parts[1].y == parts[0].y + 1);
}

} // verus!

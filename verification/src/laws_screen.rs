//! Laws of what is shown: of each agent, sub-agent, stack and lane, and of the keys.
use crate::agent;
use crate::agent::{AgentRole, AgentStatus, AgentView, SubAgentView};
use crate::app;
use crate::assistant;
use crate::color::Color;
use crate::detail;
use crate::docker;
use crate::docker::{ContainerStatus, ContainerView, StackView};
use crate::lane;
use crate::lane::LaneView;
use crate::laws_records;
use crate::layout;
use crate::layout::Area;
use crate::nav;
use crate::nav::{Key, Nav, Screen};
use crate::paint::{Border, PlacedView, SpanView, WidgetView};
use crate::seqs;
use crate::state;
use crate::state::SwarmView;
use crate::text;
use crate::ui;
use vstd::prelude::*;

verus! {

// ---------------------------------------------------------------------------------------------
// Lines of a card
// ---------------------------------------------------------------------------------------------

/// A line that consists of one piece of text, in a color.
pub open spec fn says(line: Seq<SpanView>, words: Seq<char>, color: Color) -> bool {
    line.len() == 1 && line[0].text == words && line[0].fg == Some(color) && line[0].bg is None
}

/// A line that consists of a name and what is behind it.
pub open spec fn tells(line: Seq<SpanView>, name: Seq<char>, value: Seq<char>) -> bool {
    line.len() == 2 && line[0].text == name && line[1].text == value
}

/// `shown` is the start of `whole`, all of it or `n` characters.
pub open spec fn starts(shown: Seq<char>, whole: Seq<char>, n: nat) -> bool {
    shown.is_prefix_of(whole) && (shown == whole || shown.len() == n) && shown.len() <= n
}

/// Where a sub-agent has a last tool, a line of its card consists of `tool: ` and the name of
/// that tool, and no line says that it waits. The line that says so is there exactly where there
/// is no last tool.
pub proof fn law_sub_card_names_tool(s: SubAgentView, now: u64)
    ensures
        ({
            let lines = ui::sub_lines(s, now);
            let waits = exists|i: int|
                0 <= i < lines.len() && says(#[trigger] lines[i], "waiting..."@, Color::DarkGray);
            &&& waits <==> s.last_tool is None
            &&& s.last_tool is Some ==> exists|i: int|
                0 <= i < lines.len() && tells(#[trigger] lines[i], "tool: "@, s.last_tool->0)
            &&& s.last_tool is None ==> forall|i: int|
                0 <= i < lines.len() ==> (#[trigger] lines[i]).len() == 0 || lines[i][0].text
                    != "tool: "@ || lines[i].len() == 1
        }),
{
    let lines = ui::sub_lines(s, now);
    reveal_strlit("tool: ");
    reveal_strlit("ID: ");
    reveal_strlit("waiting...");
    assert("tool: "@.len() != "ID: "@.len());
    lemma_elapsed_is_no_notice(s, now);
    lemma_labels_are_no_notice(s.status);
    if s.last_tool is Some {
        assert(tells(lines[5], "tool: "@, s.last_tool->0));
        assert forall|i: int| 0 <= i < lines.len() implies !says(
            #[trigger] lines[i],
            "waiting..."@,
            Color::DarkGray,
        ) by {
            assert(i == 0 || i == 1 || i == 2 || i == 3 || i == 4 || i == 5 || i == 6);
        }
    } else {
        assert(says(lines[5], "waiting..."@, Color::DarkGray));
        assert forall|i: int| 0 <= i < lines.len() implies (#[trigger] lines[i]).len() == 0
            || lines[i][0].text != "tool: "@ || lines[i].len() == 1 by {
            assert(i == 0 || i == 1 || i == 2 || i == 3 || i == 4 || i == 5 || i == 6);
        }
    }
}

proof fn lemma_elapsed_is_no_notice(s: SubAgentView, now: u64)
    ensures
        agent::sub_elapsed(s, now) != "waiting..."@,
{
    reveal_strlit("waiting...");
    reveal_strlit("—");
    reveal_strlit("s ago");
    let words = agent::sub_elapsed(s, now);
    assert("waiting..."@.last() == '.');
    assert("waiting..."@.len() == 10);
    if let Some(then) = s.last_activity {
        assert(words.last() == 'o');
    }
}

proof fn lemma_labels_are_no_notice(status: AgentStatus)
    ensures
        agent::status_label(status) != "waiting..."@,
{
    reveal_strlit("waiting...");
    reveal_strlit("● WORKING");
    reveal_strlit("⏸ WAITING FOR YOU");
    reveal_strlit("◌ IDLE");
    reveal_strlit("✓ DONE");
    reveal_strlit("✗ ERROR");
    assert("waiting..."@[0] == 'w');
    assert(agent::status_label(status)[0] != 'w');
}

/// The card of a sub-agent shows, from the top, the call that spawned it, its status, the start of
/// its prompt, its tool or that it waits, and at the bottom when it was last active.
pub proof fn law_sub_card(s: SubAgentView, now: u64)
    ensures
        ({
            let lines = ui::sub_lines(s, now);
            &&& lines.len() == 7
            &&& lines[0].len() == 2 && lines[0][0].text == "ID: "@ && starts(
                lines[0][1].text,
                s.task_tool_use_id,
                8,
            )
            &&& says(lines[1], agent::status_label(s.status), agent::status_color(s.status))
            &&& lines[1][0].bold
            &&& lines[2].len() == 0
            &&& lines[3].len() == 1 && starts(lines[3][0].text, s.prompt_summary, 44)
            &&& lines[4].len() == 0
            &&& says(lines[6], agent::sub_elapsed(s, now), Color::DarkGray)
        }),
{
    laws_records::law_clip_length(s.task_tool_use_id, 8);
    laws_records::law_clip_length(s.prompt_summary, 44);
}

/// The card of an agent starts with its session and its status, and ends with when it was last
/// active.
pub proof fn law_agent_card_ends(a: AgentView, now: u64)
    ensures
        ({
            let lines = ui::agent_lines(a, now);
            let n = lines.len() as int;
            &&& n >= 5
            &&& lines[0].len() == 2 && lines[0][0].text == "ID: "@ && starts(
                lines[0][1].text,
                a.session_id,
                8,
            )
            &&& says(lines[1], agent::status_label(a.status), agent::status_color(a.status))
            &&& lines[1][0].bold
            &&& lines[2].len() == 0
            &&& lines[n - 2].len() == 0
            &&& says(lines[n - 1], agent::agent_elapsed(a, now), Color::DarkGray)
        }),
{
    laws_records::law_clip_length(a.session_id, 8);
    let lines = ui::agent_lines(a, now);
    let n = lines.len() as int;
    assert(lines[n - 1] =~= seq![crate::paint::colored(
        agent::agent_elapsed(a, now),
        Color::DarkGray,
    )]);
}

/// Between its ends the card of an agent shows the tool and the start of its input, and the start
/// of its message, each exactly where there is one.
pub proof fn law_agent_card_middle(a: AgentView, now: u64)
    ensures
        ({
            let lines = ui::agent_lines(a, now);
            let tools: int = if a.last_tool is Some {
                if a.last_tool_input is Some {
                    2
                } else {
                    1
                }
            } else {
                0
            };
            let messages: int = if a.last_message is Some {
                1
            } else {
                0
            };
            &&& lines.len() == 5 + tools + messages
            &&& a.last_tool is Some ==> tells(lines[3], "tool: "@, a.last_tool->0)
            &&& a.last_tool is Some && a.last_tool_input is Some ==> lines[4].len() == 1 && starts(
                lines[4][0].text,
                a.last_tool_input->0,
                22,
            )
            &&& a.last_message is Some ==> lines[3 + tools].len() == 1 && starts(
                lines[3 + tools][0].text,
                a.last_message->0,
                44,
            ) && lines[3 + tools][0].fg == Some(Color::Yellow)
        }),
{
    if a.last_tool_input is Some {
        laws_records::law_clip_length(a.last_tool_input->0, 22);
    }
    if a.last_message is Some {
        laws_records::law_clip_length(a.last_message->0, 44);
    }
}

/// The status of an agent has its own label and color.
pub proof fn law_agent_status_shown()
    ensures
        agent::status_label(AgentStatus::Working) == "● WORKING"@,
        agent::status_label(AgentStatus::WaitingForYou) == "⏸ WAITING FOR YOU"@,
        agent::status_label(AgentStatus::Idle) == "◌ IDLE"@,
        agent::status_label(AgentStatus::Completed) == "✓ DONE"@,
        agent::status_label(AgentStatus::Error) == "✗ ERROR"@,
        agent::status_color(AgentStatus::Working) == Color::Green,
        agent::status_color(AgentStatus::WaitingForYou) == Color::Yellow,
        agent::status_color(AgentStatus::Idle) == Color::DarkGray,
        agent::status_color(AgentStatus::Completed) == Color::Cyan,
        agent::status_color(AgentStatus::Error) == Color::Red,
        ui::card_color(AgentStatus::Working) == Color::Green,
        ui::card_color(AgentStatus::WaitingForYou) == Color::Yellow,
        ui::card_color(AgentStatus::Idle) == Color::DarkGray,
        ui::card_color(AgentStatus::Completed) == Color::DarkGray,
        ui::card_color(AgentStatus::Error) == Color::Red,
{
}

/// A card is a rounded frame around its lines. The frame of an agent has the color of its status
/// and says whether it leads; that of a sub-agent is blue.
pub proof fn law_cards(area: Area, a: AgentView, s: SubAgentView, now: u64)
    ensures
        ({
            let card = ui::agent_card(area, a, now);
            &&& card.len() == 2
            &&& card[0].area == area
            &&& card[0].widget is Frame
            &&& card[0].widget->border == Border::Rounded
            &&& card[0].widget->color == ui::card_color(a.status)
            &&& card[0].widget->title.len() == 1
            &&& a.role == AgentRole::Lead ==> card[0].widget->title[0].text == " ❯❯ Orchestrator "@
            &&& a.role == AgentRole::Worker ==> card[0].widget->title[0].text == " ❯  Agent "@
            &&& card[0].widget->title[0].fg == Some(Color::White)
            &&& card[0].widget->title[0].bold
            &&& card[1].area == layout::inside(area)
            &&& card[1].widget == (WidgetView::Text { lines: ui::agent_lines(a, now), wrap: true })
        }),
        ({
            let card = ui::sub_card(area, s, now);
            &&& card.len() == 2
            &&& card[0].area == area
            &&& card[0].widget is Frame
            &&& card[0].widget->border == Border::Rounded
            &&& card[0].widget->color == Color::Blue
            &&& says(card[0].widget->title, " ◎ Sub "@, Color::Blue)
            &&& card[1].area == layout::inside(area)
            &&& card[1].widget == (WidgetView::Text { lines: ui::sub_lines(s, now), wrap: true })
        }),
{
}

/// A sub-agent more has its card in the next area behind that of its agent, after the cards of the
/// others.
pub proof fn law_one_sub_card_more(
    a: AgentView,
    subs: Seq<SubAgentView>,
    s: SubAgentView,
    areas: Seq<Area>,
    now: u64,
)
    ensures
        ui::sub_cards(Seq::empty(), areas, now).len() == 0,
        ui::sub_cards(subs.push(s), areas, now) == ui::sub_cards(subs, areas, now)
            + ui::sub_card(areas[subs.len() as int + 1], s, now),
        ui::row_scene(a, areas, now) == ui::agent_card(areas[0], a, now) + ui::sub_cards(
            ui::shown_subs(a),
            areas,
            now,
        ),
{
    assert(subs.push(s).drop_last() =~= subs);
    assert(subs.push(s).last() == s);
}

/// What is joined is everything, piece after piece.
pub proof fn law_joined(pieces: Seq<Seq<PlacedView>>, piece: Seq<PlacedView>)
    ensures
        ui::joined(Seq::empty()).len() == 0,
        ui::joined(pieces.push(piece)) == ui::joined(pieces) + piece,
{
    assert(pieces.push(piece).drop_last() =~= pieces);
    assert(pieces.push(piece).last() == piece);
}

// ---------------------------------------------------------------------------------------------
// Who is shown
// ---------------------------------------------------------------------------------------------

/// An agent is current unless it has completed, is idle, or has been quiet for five minutes.
pub proof fn law_current(a: AgentView, now: u64)
    ensures
        ui::is_current(now)(a) <==> a.status != AgentStatus::Completed && a.status
            != AgentStatus::Idle && now < a.last_activity + 300_000_000_000,
{
    let quiet = agent::elapsed(a.last_activity, now);
    assert(quiet / 1_000_000_000 < 300 <==> quiet < 300_000_000_000);
}

/// Agents that have neither completed nor gone idle, and that have done something in the last five
/// minutes.
pub open spec fn at_it(now: u64) -> spec_fn(AgentView) -> bool {
    |a: AgentView|
        a.status != AgentStatus::Completed && a.status != AgentStatus::Idle && now
            < a.last_activity + 300_000_000_000
}

proof fn lemma_at_it(now: u64)
    ensures
        at_it(now) == ui::is_current(now),
{
    assert forall|a: AgentView| #[trigger] at_it(now)(a) == ui::is_current(now)(a) by {
        law_current(a, now);
    }
    assert(at_it(now) =~= ui::is_current(now));
}

/// The agents that are at it are shown, all of them and in their order. Of no agents none is
/// shown.
pub proof fn law_who_is_shown(agents: Seq<AgentView>, now: u64)
    ensures
        agents.filter(at_it(now)).len() > 0 ==> ui::shown_agents(agents, now) == agents.filter(
            at_it(now),
        ),
        ui::shown_agents(Seq::empty(), now).len() == 0,
{
    lemma_at_it(now);
    seqs::lemma_filter_no_match(Seq::<AgentView>::empty(), ui::is_current(now));
}

/// No agent was active after the one at `k`, and none behind it at the same time.
pub open spec fn is_last_active(agents: Seq<AgentView>, k: int) -> bool {
    &&& 0 <= k < agents.len()
    &&& forall|j: int|
        0 <= j < k ==> (#[trigger] agents[j]).last_activity <= agents[k].last_activity
    &&& forall|j: int|
        k < j < agents.len() ==> (#[trigger] agents[j]).last_activity < agents[k].last_activity
}

/// Where none of the agents is at it, the one that was active last is shown alone, the later one
/// of two that were at the same time.
pub proof fn law_who_is_shown_at_rest(agents: Seq<AgentView>, now: u64, k: int)
    requires
        agents.filter(at_it(now)).len() == 0,
        is_last_active(agents, k),
    ensures
        ui::shown_agents(agents, now) == seq![agents[k]],
{
    lemma_at_it(now);
    lemma_latest(agents);
    let i = ui::latest(agents);
    if i < k {
        assert(agents[k].last_activity < agents[i].last_activity);
        assert(agents[i].last_activity <= agents[k].last_activity);
    }
    if k < i {
        assert(agents[i].last_activity < agents[k].last_activity);
        assert(agents[k].last_activity <= agents[i].last_activity);
    }
}

proof fn lemma_latest(agents: Seq<AgentView>)
    requires
        agents.len() > 0,
    ensures
        0 <= ui::latest(agents) < agents.len(),
        forall|j: int|
            0 <= j < ui::latest(agents) ==> (#[trigger] agents[j]).last_activity
                <= agents[ui::latest(agents)].last_activity,
        forall|j: int|
            ui::latest(agents) < j < agents.len() ==> (#[trigger] agents[j]).last_activity
                < agents[ui::latest(agents)].last_activity,
    decreases agents.len(),
{
    if agents.len() > 1 {
        let front = agents.drop_last();
        lemma_latest(front);
        let k = ui::latest(front);
        assert(front[k] == agents[k]);
        assert forall|j: int| 0 <= j < front.len() implies (#[trigger] agents[j]).last_activity
            <= agents[k].last_activity by {
            assert(front[j] == agents[j]);
        }
        assert forall|j: int| k < j < front.len() implies (#[trigger] agents[j]).last_activity
            < agents[k].last_activity by {
            assert(front[j] == agents[j]);
        }
    }
}

/// The sub-agents that have not completed are shown, all of them and in their order.
pub proof fn law_which_subs_are_shown(a: AgentView)
    ensures
        ui::shown_subs(a) == a.sub_agents.filter(
            |s: SubAgentView| s.status != AgentStatus::Completed,
        ),
{
    let p = |s: SubAgentView| s.status != AgentStatus::Completed;
    assert(p =~= ui::unfinished_sub());
}

/// A lane asks for eleven lines for each agent that is shown, or two for the notice; for two
/// lines for each stack, as far as lines can be counted; and for two for its border.
pub proof fn law_lane_height(l: LaneView, now: u64)
    ensures
        ({
            let n = ui::shown_agents(l.agents, now).len() as int;
            let stacks = l.docker_stacks.len() as int;
            &&& n > 0 && 2 * stacks <= 65535 ==> ui::height_of(l, now) == 11 * n + 2 * stacks + 2
            &&& n == 0 && 2 * stacks <= 65535 ==> ui::height_of(l, now) == 2 + 2 * stacks + 2
            &&& n > 0 && 2 * stacks > 65535 ==> ui::height_of(l, now) == 11 * n + 65535 + 2
            &&& n == 0 && 2 * stacks > 65535 ==> ui::height_of(l, now) == 2 + 65535 + 2
        }),
{
}

/// What is inside a border is what it surrounds: one less on each side.
pub proof fn law_inside(area: Area)
    requires
        area.width >= 2,
        area.height >= 2,
        area.x < u16::MAX,
        area.y < u16::MAX,
    ensures
        layout::inside(area).x == area.x + 1,
        layout::inside(area).y == area.y + 1,
        layout::inside(area).x + layout::inside(area).width + 1 == area.x + area.width,
        layout::inside(area).y + layout::inside(area).height + 1 == area.y + area.height,
{
}

/// An area that is too small for a border has nothing inside, and an empty one has no border.
pub proof fn law_nothing_inside(area: Area)
    ensures
        area.width < 2 ==> layout::inside(area).width == 0,
        area.height < 2 ==> layout::inside(area).height == 0,
        area.width == 0 ==> layout::inside(area).x == area.x,
        area.height == 0 ==> layout::inside(area).y == area.y,
        area.width > 0 && area.x < u16::MAX ==> layout::inside(area).x == area.x + 1,
        area.height > 0 && area.y < u16::MAX ==> layout::inside(area).y == area.y + 1,
{
}

/// The room that parts ask for is that of each of them.
pub proof fn law_room(sizes: Seq<layout::Size>, n: u16)
    ensures
        layout::room_of(Seq::empty()) == 0,
        layout::room_of(sizes.push(layout::Size::Length(n))) == layout::room_of(sizes) + n,
        layout::room_of(sizes.push(layout::Size::Min(n))) == layout::room_of(sizes) + n,
{
    assert(sizes.push(layout::Size::Length(n)).drop_last() =~= sizes);
    assert(sizes.push(layout::Size::Min(n)).drop_last() =~= sizes);
}

/// Cards stand in columns of twenty-six, agents in rows of eleven, and each line of a stack in a
/// row of its own. The rest of a row of cards is left free.
pub proof fn law_sizes(n: nat)
    ensures
        ui::card_sizes(n).len() == n + 1,
        forall|i: int| 0 <= i < n ==> #[trigger] ui::card_sizes(n)[i] == layout::Size::Length(26),
        ui::card_sizes(n)[n as int] == layout::Size::Min(0),
        ui::row_sizes(n).len() == n,
        forall|i: int| 0 <= i < n ==> #[trigger] ui::row_sizes(n)[i] == layout::Size::Length(11),
        ui::stack_sizes(n).len() == n + n,
        forall|i: int|
            0 <= i < n + n ==> #[trigger] ui::stack_sizes(n)[i] == layout::Size::Length(1),
{
}

// ---------------------------------------------------------------------------------------------
// Stacks
// ---------------------------------------------------------------------------------------------

/// Every container of a stack has its dot, in their order: green where it runs, yellow where it
/// restarts, red where it failed, and gray otherwise.
pub proof fn law_dots(containers: Seq<ContainerView>)
    ensures
        ui::container_dots(containers).len() == containers.len(),
        forall|i: int|
            0 <= i < containers.len() ==> {
                let dot = #[trigger] ui::container_dots(containers)[i];
                &&& !dot.bold && dot.bg is None
                &&& match containers[i].status {
                    ContainerStatus::Running => dot.text == "●"@ && dot.fg == Some(Color::Green),
                    ContainerStatus::Restarting => dot.text == "◉"@ && dot.fg == Some(
                        Color::Yellow,
                    ),
                    ContainerStatus::Dead => dot.text == "●"@ && dot.fg == Some(Color::Red),
                    ContainerStatus::Exited(code) => {
                        &&& code == 0 ==> dot.text == "○"@ && dot.fg == Some(Color::DarkGray)
                        &&& code != 0 ==> dot.text == "●"@ && dot.fg == Some(Color::Red)
                    },
                    _ => dot.text == "·"@ && dot.fg == Some(Color::DarkGray),
                }
            },
{
}

/// A container more is one more that is stopped, unless it runs or restarts.
pub proof fn law_stopped(containers: Seq<ContainerView>, c: ContainerView)
    ensures
        ui::stopped_count(Seq::empty()) == 0,
        c.status is Running || c.status is Restarting ==> ui::stopped_count(containers.push(c))
            == ui::stopped_count(containers),
        !(c.status is Running || c.status is Restarting) ==> ui::stopped_count(containers.push(c))
            == ui::stopped_count(containers) + 1,
{
    let p = |c: ContainerView| !docker::active(c.status);
    let more = containers.push(c);
    let n = containers.len() as int;
    seqs::lemma_filter_no_match(Seq::empty(), p);
    seqs::lemma_filter_next(more, p, n);
    assert(more.take(n) =~= containers);
    assert(more.take(n + 1) =~= more);
}

/// A stack is healthy where none of its containers is stopped; else it is told how many are.
pub proof fn law_health(containers: Seq<ContainerView>)
    ensures
        ({
            let health = ui::health(containers);
            let stopped = ui::stopped_count(containers);
            &&& stopped == 0 ==> health.text == "  ✓"@ && health.fg == Some(Color::Green)
            &&& stopped > 0 ==> health.text == "  ⚠ "@ + text::decimal(stopped) + " stopped"@
                && health.fg == Some(Color::Yellow)
        }),
{
}

/// The line of a stack names its project, and shows the dots of its containers and its health.
pub proof fn law_stack_line(stack: StackView)
    ensures
        ({
            let line = ui::stack_line(stack);
            let n = stack.containers.len() as int;
            &&& line.len() == n + 4
            &&& line[0].text == "  🐳 "@ && line[0].fg == Some(Color::Cyan)
            &&& line[1].text == stack.project_name && line[1].fg == Some(Color::Cyan)
                && line[1].bold
            &&& line[2].text == "  "@
            &&& line.subrange(3, n + 3) == ui::container_dots(stack.containers)
            &&& line[n + 3] == ui::health(stack.containers)
        }),
{
    let line = ui::stack_line(stack);
    let n = stack.containers.len() as int;
    assert(line.subrange(3, n + 3) =~= ui::container_dots(stack.containers));
}

/// A stack more has its two lines below those of the others: its own, and below it the usage of
/// each of its containers.
pub proof fn law_one_stack_more(stacks: Seq<StackView>, stack: StackView, areas: Seq<Area>)
    ensures
        ui::stacks_scene(Seq::empty(), areas).len() == 0,
        ({
            let before = ui::stacks_scene(stacks, areas);
            let after = ui::stacks_scene(stacks.push(stack), areas);
            let k = before.len() as int;
            &&& after.len() == k + 2
            &&& after.take(k) == before
            &&& after[k].area == areas[2 * stacks.len() as int]
            &&& after[k].widget is Text
            &&& after[k].widget->lines.len() == 1
            &&& after[k].widget->lines[0] == ui::stack_line(stack)
            &&& !after[k].widget->wrap
            &&& after[k + 1].area == areas[2 * stacks.len() as int + 1]
            &&& after[k + 1].widget is Usage
            &&& after[k + 1].widget->samples.len() == stack.containers.len()
            &&& forall|i: int|
                0 <= i < stack.containers.len() ==> #[trigger] after[k + 1].widget->samples[i]
                    == stack.containers[i].stats
        }),
{
    let more = stacks.push(stack);
    assert(more.drop_last() =~= stacks);
    assert(more.last() == stack);
    let before = ui::stacks_scene(stacks, areas);
    let after = ui::stacks_scene(more, areas);
    assert(after.take(before.len() as int) =~= before);
}

/// A usage bar has six steps between its brackets, the filled ones first.
pub proof fn law_bar(filled: nat)
    requires
        filled <= 6,
    ensures
        ({
            let bar = ui::bar(filled);
            &&& bar.len() == 8
            &&& bar[0] == '['
            &&& bar[7] == ']'
            &&& forall|i: int| 1 <= i <= filled ==> #[trigger] bar[i] == '█'
            &&& forall|i: int| filled < i <= 6 ==> #[trigger] bar[i] == '░'
        }),
{
    reveal_strlit("[");
    reveal_strlit("]");
}

/// The usage of a stack is that of the processors, a bar and a percentage, and then that of the
/// memory, a bar and the most that one container has.
pub proof fn law_usage_line(cpu_filled: nat, cpu: Seq<char>, memory_filled: nat, memory: Seq<char>)
    ensures
        ({
            let line = ui::usage_spans(cpu_filled, cpu, memory_filled, memory);
            &&& line.len() == 6
            &&& line[0].text == "       cpu "@
            &&& line[1].text == ui::bar(cpu_filled) && line[1].fg == Some(Color::Green)
            &&& line[2].text == " "@ + cpu + "%"@
            &&& line[3].text == "  mem "@
            &&& line[4].text == ui::bar(memory_filled) && line[4].fg == Some(Color::Blue)
            &&& line[5].text == " "@ + memory + "  max"@
        }),
{
}

// ---------------------------------------------------------------------------------------------
// Lanes
// ---------------------------------------------------------------------------------------------

/// A lane is gray where all of its agents have completed or it has none; else the lead is yellow
/// and every other lane cyan.
pub proof fn law_lane_color(l: LaneView)
    ensures
        ({
            let done = forall|i: int|
                0 <= i < l.agents.len() ==> (#[trigger] l.agents[i]).status
                    == AgentStatus::Completed;
            &&& done ==> ui::lane_color(l) == Color::DarkGray
            &&& !done && l.is_lead ==> ui::lane_color(l) == Color::Yellow
            &&& !done && !l.is_lead ==> ui::lane_color(l) == Color::Cyan
        }),
{
    let p = lane::unfinished();
    if exists|i: int| 0 <= i < l.agents.len() && p(#[trigger] l.agents[i]) {
        let i = choose|i: int| 0 <= i < l.agents.len() && p(#[trigger] l.agents[i]);
        assert(l.agents[i].status != AgentStatus::Completed);
    } else {
        assert forall|i: int| 0 <= i < l.agents.len() implies (#[trigger] l.agents[i]).status
            == AgentStatus::Completed by {
            assert(!p(l.agents[i]));
        }
    }
}

/// The frame of a lane names its repository and marks the lead. It is thick where the lane is
/// selected.
pub proof fn law_lane_frame(l: LaneView, selected: bool, area: Area)
    ensures
        ({
            let frame = ui::lane_frame(l, selected, area);
            let title = frame.widget->title;
            &&& frame.area == area
            &&& frame.widget is Frame
            &&& selected ==> frame.widget->border == Border::Thick
            &&& !selected ==> frame.widget->border == Border::Double
            &&& frame.widget->color == ui::lane_color(l)
            &&& title.len() == 3
            &&& title[0].fg == Some(ui::lane_color(l))
            &&& title[1].bold
            &&& l.is_lead ==> title[0].text == " ★  "@ && title[1].text == "* LEAD  "@ + l.repo_name
                && title[1].fg == Some(Color::Yellow)
            &&& !l.is_lead ==> title[0].text == " ⚙  "@ && title[1].text == "  "@ + l.repo_name
                && title[1].fg == Some(Color::White)
        }),
{
}

/// A lane goes by the last component of its path.
pub proof fn law_lane_name(
    dir: Seq<char>,
    name: Seq<char>,
    compose: Option<Seq<char>>,
    is_lead: bool,
)
    requires
        name.len() > 0,
        forall|i: int| 0 <= i < name.len() ==> #[trigger] name[i] != '/',
        name != "."@,
        name != ".."@,
    ensures
        lane::new_lane(dir + "/"@ + name, compose, is_lead).repo_name == name,
{
    laws_records::law_path_name(dir, name);
}

/// A lane whose path has no last component goes by the whole path.
pub proof fn law_lane_without_name(path: Seq<char>, compose: Option<Seq<char>>, is_lead: bool)
    requires
        text::path_name(path) is None,
    ensures
        lane::new_lane(path, compose, is_lead).repo_name == path,
{
}

/// A lane without agents says that it is being scanned as long as it is, and then that there are
/// no recent sessions.
pub proof fn law_notices()
    ensures
        says(ui::lane_notice(true), "  ⟳ scanning sessions..."@, Color::DarkGray),
        says(ui::lane_notice(false), "  ◌ no recent sessions"@, Color::DarkGray),
{
}

/// Without lanes it is said whose sessions are missing, and where they are looked for.
pub proof fn law_no_lanes(name: assistant::AssistantView)
    ensures
        ({
            let lines = ui::no_lanes(name);
            &&& lines.len() == 3
            &&& lines[0].len() == 0
            &&& says(
                lines[1],
                "  No active "@ + name.title + " sessions found."@,
                Color::DarkGray,
            )
            &&& says(lines[2], "  Watching ~/."@ + name.id + "/projects/ ..."@, Color::DarkGray)
        }),
{
}

/// The header says what the program is for, whether the container engine is there, and how to
/// quit.
pub proof fn law_header(name: assistant::AssistantView, docker_ok: bool)
    ensures
        ({
            let line = ui::header(name, docker_ok);
            &&& line.len() == 4
            &&& line[0].text == " 🐝 "@ + name.id + "-swarm "@
            &&& line[0].fg == Some(Color::Black) && line[0].bg == Some(Color::Yellow)
                && line[0].bold
            &&& line[1].text == "  monitoring your agent fleet  "@
            &&& docker_ok ==> line[2].text == " 🐳 docker:ok "@ && line[2].fg == Some(Color::Cyan)
            &&& !docker_ok ==> line[2].text == " 🐳 docker:off "@ && line[2].fg == Some(
                Color::DarkGray,
            )
            &&& line[3].text == " q:quit "@
        }),
{
}

/// The assistant that a program watches is what stands before the ending of the program's name,
/// and its title starts with a capital.
pub proof fn law_watched(first: char, rest: Seq<char>)
    ensures
        ({
            let id = seq![first] + rest;
            let name = assistant::watched_by(id + "-swarm"@);
            &&& name.id == id
            &&& name.title.len() == id.len() + 5
            &&& 'a' <= first <= 'z' ==> name.title[0] as u32 == first as u32 - 32
            &&& !('a' <= first <= 'z') ==> name.title[0] == first
            &&& name.title.skip(1) == rest + " Code"@
            &&& !"-swarm"@.is_suffix_of(id) ==> assistant::watched_by(id) == name
        }),
{
    reveal_strlit("-swarm");
    reveal_strlit(" Code");
    let id = seq![first] + rest;
    let program = id + "-swarm"@;
    assert(program.subrange(program.len() - 6, program.len() as int) =~= "-swarm"@);
    assert(program.take(program.len() - 6) =~= id);
    laws_records::law_letter_case(first);
    let name = assistant::watched_by(program);
    assert(id.skip(1) =~= rest);
    assert(name.title.skip(1) =~= rest + " Code"@);
}

// ---------------------------------------------------------------------------------------------
// Details
// ---------------------------------------------------------------------------------------------

/// The details of an agent are its head; then its tool with the whole input, and its whole
/// message, each where there is one; and a line for each of its sub-agents, in their order.
pub proof fn law_agent_detail(a: AgentView, now: u64)
    ensures
        ({
            let lines = detail::agent_detail(a, now);
            let tools: int = if a.last_tool is Some {
                1
            } else {
                0
            };
            let messages: int = if a.last_message is Some {
                1
            } else {
                0
            };
            let head = lines[0];
            &&& lines.len() == 1 + tools + messages + a.sub_agents.len()
            &&& head.len() == 6
            &&& a.role == AgentRole::Lead ==> head[0].text == " ❯❯ Orchestrator "@
            &&& a.role == AgentRole::Worker ==> head[0].text == " ❯  Agent "@
            &&& starts(head[1].text, a.session_id, 8)
            &&& head[3].text == agent::status_label(a.status) && head[3].fg == Some(
                agent::status_color(a.status),
            )
            &&& head[5].text == agent::agent_elapsed(a, now)
            &&& a.last_tool is Some ==> {
                &&& lines[1].len() == 4
                &&& lines[1][0].text == "   tool: "@
                &&& lines[1][1].text == a.last_tool->0
                &&& a.last_tool_input is Some ==> lines[1][3].text == a.last_tool_input->0
                &&& a.last_tool_input is None ==> lines[1][3].text.len() == 0
            }
            &&& a.last_message is Some ==> lines[1 + tools].len() == 2 && lines[1 + tools][1].text
                == a.last_message->0 && lines[1 + tools][1].fg == Some(Color::Yellow)
            &&& lines.skip(1 + tools + messages) == detail::subs_detail(a.sub_agents, now)
        }),
{
    laws_records::law_clip_length(a.session_id, 8);
    let lines = detail::agent_detail(a, now);
    let n = lines.len() - a.sub_agents.len();
    assert(lines.skip(n) =~= detail::subs_detail(a.sub_agents, now));
}

/// The line of each sub-agent shows the call that spawned it, its status, when it was last active,
/// and its prompt. All sub-agents have one, those that have completed too.
pub proof fn law_subs_detail(subs: Seq<SubAgentView>, now: u64)
    ensures
        detail::subs_detail(subs, now).len() == subs.len(),
        forall|i: int|
            0 <= i < subs.len() ==> {
                let line = #[trigger] detail::subs_detail(subs, now)[i];
                &&& line.len() == 8
                &&& line[0].text == "   ◎ "@
                &&& starts(line[1].text, subs[i].task_tool_use_id, 8)
                &&& line[3].text == agent::status_label(subs[i].status)
                &&& line[3].fg == Some(agent::status_color(subs[i].status))
                &&& line[5].text == agent::sub_elapsed(subs[i], now)
                &&& line[7].text == subs[i].prompt_summary
            },
{
    assert forall|i: int| 0 <= i < subs.len() implies ({
        let line = #[trigger] detail::subs_detail(subs, now)[i];
        &&& line.len() == 8
        &&& line[0].text == "   ◎ "@
        &&& starts(line[1].text, subs[i].task_tool_use_id, 8)
        &&& line[3].text == agent::status_label(subs[i].status)
        &&& line[3].fg == Some(agent::status_color(subs[i].status))
        &&& line[5].text == agent::sub_elapsed(subs[i], now)
        &&& line[7].text == subs[i].prompt_summary
    }) by {
        laws_records::law_clip_length(subs[i].task_tool_use_id, 8);
    }
}

/// An agent more has its details below those of the others.
pub proof fn law_one_agent_more(agents: Seq<AgentView>, a: AgentView, now: u64)
    ensures
        detail::agents_detail(Seq::empty(), now).len() == 0,
        detail::agents_detail(agents.push(a), now) == detail::agents_detail(agents, now)
            + detail::agent_detail(a, now),
{
    assert(agents.push(a).drop_last() =~= agents);
    assert(agents.push(a).last() == a);
}

/// The line of each container shows its status and its service.
pub proof fn law_containers_detail(containers: Seq<ContainerView>)
    ensures
        detail::containers_detail(containers).len() == containers.len(),
        forall|i: int|
            0 <= i < containers.len() ==> {
                let line = #[trigger] detail::containers_detail(containers)[i];
                &&& line.len() == 4
                &&& line[1].text == docker::status_label(containers[i].status)
                &&& line[1].fg == Some(docker::status_color(containers[i].status))
                &&& line[3].text == docker::service_of(containers[i])
                &&& line[3].fg == Some(Color::White)
            },
{
}

/// A stack more has its line below those of the others, and below it one for each container.
pub proof fn law_one_stack_detail_more(stacks: Seq<StackView>, stack: StackView)
    ensures
        detail::stacks_detail(Seq::empty()).len() == 0,
        ({
            let before = detail::stacks_detail(stacks);
            let after = detail::stacks_detail(stacks.push(stack));
            let k = before.len() as int;
            &&& after.len() == k + 1 + stack.containers.len()
            &&& after.take(k) == before
            &&& after[k] == ui::stack_line(stack)
            &&& after.skip(k + 1) == detail::containers_detail(stack.containers)
        }),
{
    assert(stacks.push(stack).drop_last() =~= stacks);
    assert(stacks.push(stack).last() == stack);
    let before = detail::stacks_detail(stacks);
    let after = detail::stacks_detail(stacks.push(stack));
    let k = before.len() as int;
    assert(after.take(k) =~= before);
    assert(after.skip(k + 1) =~= detail::containers_detail(stack.containers));
}

/// The details of a lane are those of all its agents, and then those of its stacks.
pub proof fn law_lane_detail(l: LaneView, now: u64)
    ensures
        ({
            let agents = detail::agents_detail(l.agents, now);
            let lines = detail::lane_detail(l, now);
            let n = agents.len() as int;
            &&& n <= lines.len()
            &&& lines.take(n) == agents
            &&& lines.skip(n) == detail::stacks_detail(l.docker_stacks)
        }),
{
    let agents = detail::agents_detail(l.agents, now);
    let lines = detail::lane_detail(l, now);
    let n = agents.len() as int;
    assert(lines.take(n) =~= agents);
    assert(lines.skip(n) =~= detail::stacks_detail(l.docker_stacks));
}

/// Scrolled by so many lines, the lines start with the one behind those; scrolled by all of them,
/// or more, there is none.
pub proof fn law_scrolled(lines: Seq<Seq<SpanView>>, n: int)
    requires
        0 <= n,
    ensures
        n >= lines.len() ==> detail::scrolled(lines, n).len() == 0,
        n < lines.len() ==> detail::scrolled(lines, n).len() == lines.len() - n,
        forall|i: int|
            0 <= i < lines.len() - n ==> #[trigger] detail::scrolled(lines, n)[i] == lines[n + i],
{
}

/// In the details, the lane is shown that is selected in the order of the lanes, in a thick frame,
/// and its details are scrolled so far.
pub proof fn law_selected_lane_is_shown(
    name: assistant::AssistantView,
    s: SwarmView,
    n: Nav,
    area: Area,
    now: u64,
    scene: Seq<PlacedView>,
)
    requires
        app::is_shown(name, s, n, area, now, scene),
        n.screen == Screen::Detail,
        n.selected < s.lanes.len(),
    ensures
        scene.len() == 3,
        exists|lanes: Seq<LaneView>| #[trigger]
            state::are_sorted_lanes(s.lanes, lanes) && {
                let l = lanes[n.selected as int];
                &&& scene[1] == ui::lane_frame(l, true, scene[1].area)
                &&& scene[2].area == layout::inside(scene[1].area)
                &&& scene[2].widget == (WidgetView::Text {
                    lines: detail::scrolled(detail::lane_detail(l, now), n.scroll as int),
                    wrap: false,
                })
            },
{
    let lanes = choose|lanes: Seq<LaneView>| #[trigger]
        state::are_sorted_lanes(s.lanes, lanes) && detail::is_detail_view(
            name,
            s.docker_available,
            lanes[n.selected as int],
            n.scroll as int,
            area,
            now,
            scene,
        );
    assert(state::are_sorted_lanes(s.lanes, lanes));
}

/// As many lines can be scrolled over as the details of the selected lane have; where none is
/// selected, none.
pub proof fn law_line_count(s: SwarmView, n: Nav, now: u64, lines: usize)
    requires
        app::is_line_count(s, n, now, lines),
    ensures
        n.selected >= s.lanes.len() ==> lines == 0,
        n.selected < s.lanes.len() ==> exists|lanes: Seq<LaneView>| #[trigger]
            state::are_sorted_lanes(s.lanes, lanes) && lines == detail::agents_detail(
                lanes[n.selected as int].agents,
                now,
            ).len() + detail::stacks_detail(lanes[n.selected as int].docker_stacks).len(),
{
    if n.selected < s.lanes.len() {
        let lanes = choose|lanes: Seq<LaneView>| #[trigger]
            state::are_sorted_lanes(s.lanes, lanes) && lines == detail::lane_detail(
                lanes[n.selected as int],
                now,
            ).len();
        assert(state::are_sorted_lanes(s.lanes, lanes));
    }
}

// ---------------------------------------------------------------------------------------------
// Keys
// ---------------------------------------------------------------------------------------------

/// In the list, the arrows select the lane above or below, as long as there is one, and nothing
/// else changes.
pub proof fn law_arrows_in_list(n: Nav, lanes: usize, lines: usize)
    requires
        n.screen == Screen::List,
    ensures
        ({
            let up = nav::nav_after(n, Key::Up, lanes, lines);
            let down = nav::nav_after(n, Key::Down, lanes, lines);
            &&& up.screen == Screen::List && up.scroll == n.scroll
            &&& down.screen == Screen::List && down.scroll == n.scroll
            &&& n.selected > 0 ==> up.selected == n.selected - 1
            &&& n.selected == 0 ==> up.selected == 0
            &&& n.selected + 1 < lanes ==> down.selected == n.selected + 1
            &&& n.selected + 1 >= lanes ==> down.selected == n.selected
        }),
{
}

/// In the details, the arrows scroll a line up or down, as long as there is one, and nothing else
/// changes.
pub proof fn law_arrows_in_detail(n: Nav, lanes: usize, lines: usize)
    requires
        n.screen == Screen::Detail,
    ensures
        ({
            let up = nav::nav_after(n, Key::Up, lanes, lines);
            let down = nav::nav_after(n, Key::Down, lanes, lines);
            &&& up.screen == Screen::Detail && up.selected == n.selected
            &&& down.screen == Screen::Detail && down.selected == n.selected
            &&& n.scroll > 0 ==> up.scroll == n.scroll - 1
            &&& n.scroll == 0 ==> up.scroll == 0
            &&& n.scroll + 1 < lines ==> down.scroll == n.scroll + 1
            &&& n.scroll + 1 >= lines ==> down.scroll == n.scroll
        }),
{
}

/// `Enter` opens the details of the lane that is selected, from their top, and `Escape` closes
/// them. Where they have no use, and for every other key, nothing changes. Only the key for it
/// quits.
pub proof fn law_other_keys(n: Nav, lanes: usize, lines: usize)
    ensures
        ({
            let entered = nav::nav_after(n, Key::Enter, lanes, lines);
            let left = nav::nav_after(n, Key::Escape, lanes, lines);
            &&& n.screen == Screen::List && n.selected < lanes ==> entered.screen == Screen::Detail
                && entered.selected == n.selected && entered.scroll == 0
            &&& n.screen == Screen::Detail || n.selected >= lanes ==> entered == n
            &&& n.screen == Screen::Detail ==> left.screen == Screen::List && left.selected
                == n.selected && left.scroll == n.scroll
            &&& n.screen == Screen::List ==> left == n
            &&& nav::nav_after(n, Key::Quit, lanes, lines) == n
            &&& nav::nav_after(n, Key::Other, lanes, lines) == n
        }),
        nav::ends(Key::Quit),
        forall|key: Key| key != Key::Quit ==> !#[trigger] nav::ends(key),
        nav::first_nav().screen == Screen::List,
        nav::first_nav().selected == 0,
        nav::first_nav().scroll == 0,
{
}

} // verus!

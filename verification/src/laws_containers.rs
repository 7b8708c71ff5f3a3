//! Laws of containers and their stacks: what is kept of what the engine tells of them.
use crate::color::Color;
use crate::docker;
use crate::docker::{ContainerStats, ContainerStatus, ContainerSummary, ContainerView, DockerEventView, StackView, StatsSample};
use crate::lane;
use crate::lane::LaneView;
use crate::laws_records;
use crate::parser;
use crate::seqs;
use crate::state;
use crate::text;
use crate::text::CharClass;
use vstd::prelude::*;

verus! {

// ---------------------------------------------------------------------------------------------
// Usage
// ---------------------------------------------------------------------------------------------

/// Every counter that a sample has is kept as it is.
pub proof fn law_sample_is_kept(s: StatsSample)
    ensures
        ({
            let stats = docker::stats_of(Some(s));
            &&& stats.cpu_total == s.cpu_total
            &&& stats.previous_cpu_total == s.previous_cpu_total
            &&& s.system_cpu is Some ==> stats.system_cpu == s.system_cpu->0
            &&& s.previous_system_cpu is Some ==> stats.previous_system_cpu
                == s.previous_system_cpu->0
            &&& s.online_cpus is Some ==> stats.online_cpus == s.online_cpus->0
            &&& s.memory_usage is Some ==> stats.memory_usage == s.memory_usage->0
            &&& s.memory_limit is Some ==> stats.memory_limit == s.memory_limit->0
        }),
{
}

/// What a sample does not have is nothing used, on one processor and with one byte of memory.
pub proof fn law_sample_without(s: StatsSample)
    ensures
        ({
            let stats = docker::stats_of(Some(s));
            &&& s.system_cpu is None ==> stats.system_cpu == 0
            &&& s.previous_system_cpu is None ==> stats.previous_system_cpu == 0
            &&& s.online_cpus is None ==> stats.online_cpus == 1
            &&& s.memory_usage is None ==> stats.memory_usage == 0
            &&& s.memory_limit is None ==> stats.memory_limit == 1
        }),
{
}

/// Without a sample every counter is zero.
pub proof fn law_no_sample()
    ensures
        ({
            let stats = docker::stats_of(None);
            &&& stats.cpu_total == 0 && stats.previous_cpu_total == 0
            &&& stats.system_cpu == 0 && stats.previous_system_cpu == 0
            &&& stats.online_cpus == 0
            &&& stats.memory_usage == 0 && stats.memory_limit == 0
        }),
{
}

/// Each container gets the sample at its own position, where there is one, and keeps everything
/// else.
pub proof fn law_samples_by_position(
    containers: Seq<ContainerView>,
    samples: Seq<Option<ContainerStats>>,
)
    ensures
        ({
            let next = docker::with_samples(containers, samples);
            &&& next.len() == containers.len()
            &&& forall|i: int|
                0 <= i < containers.len() ==> {
                    let c = #[trigger] next[i];
                    &&& i < samples.len() && samples[i] is Some ==> c.stats == samples[i]->0
                    &&& i >= samples.len() || samples[i] is None ==> c.stats == containers[i].stats
                    &&& c.id == containers[i].id
                    &&& c.name == containers[i].name
                    &&& c.image == containers[i].image
                    &&& c.status == containers[i].status
                    &&& c.compose_service == containers[i].compose_service
                    &&& c.compose_project == containers[i].compose_project
                    &&& c.last_updated == containers[i].last_updated
                }
        }),
{
}

/// The usage of a container is asked for, by its identifier, exactly where it runs or restarts.
pub proof fn law_who_is_asked(containers: Seq<ContainerView>)
    ensures
        ({
            let ids = docker::active_ids(containers);
            &&& ids.len() == containers.len()
            &&& forall|i: int|
                0 <= i < containers.len() ==> {
                    let up = containers[i].status == ContainerStatus::Running
                        || containers[i].status == ContainerStatus::Restarting;
                    &&& up ==> #[trigger] ids[i] == Some(containers[i].id)
                    &&& !up ==> ids[i] is None
                }
        }),
{
}

// ---------------------------------------------------------------------------------------------
// States
// ---------------------------------------------------------------------------------------------

/// A state names the status that is spelled like it. A state that starts with the word for the
/// end is the end, whatever follows, and a state that starts otherwise is no end.
pub proof fn law_states(state: Seq<char>)
    ensures
        docker::status_of(state) == ContainerStatus::Running <==> state == "running"@,
        docker::status_of(state) == ContainerStatus::Paused <==> state == "paused"@,
        docker::status_of(state) == ContainerStatus::Restarting <==> state == "restarting"@,
        docker::status_of(state) == ContainerStatus::Dead <==> state == "dead"@,
        docker::status_of(state) == ContainerStatus::Created <==> state == "created"@,
        docker::status_of(state) is Exited <==> "exited"@.is_prefix_of(state),
{
    reveal_strlit("running");
    reveal_strlit("paused");
    reveal_strlit("restarting");
    reveal_strlit("dead");
    reveal_strlit("created");
    reveal_strlit("exited");
    assert("running"@.len() == 7 && "paused"@.len() == 6 && "restarting"@.len() == 10);
    assert("dead"@.len() == 4 && "created"@.len() == 7);
    assert("running"@[0] == 'r' && "created"@[0] == 'c' && "paused"@[0] == 'p');
    assert("restarting"@[0] == 'r' && "dead"@[0] == 'd' && "exited"@[0] == 'e');
    if "exited"@.is_prefix_of(state) {
        assert(state.subrange(0, 6)[0] == state[0]);
        assert(state[0] == 'e');
    }
}

/// The exit code is the number that is written behind the word, in brackets.
pub proof fn law_exit_code(n: nat)
    ensures
        n <= i64::MAX ==> docker::status_of("exited ("@ + text::decimal(n) + ")"@)
            == ContainerStatus::Exited(n as i64),
        n > i64::MAX ==> docker::status_of("exited ("@ + text::decimal(n) + ")"@)
            == ContainerStatus::Exited(0),
        docker::status_of("exited"@) == ContainerStatus::Exited(0),
{
    reveal_strlit("exited");
    reveal_strlit("exited (");
    reveal_strlit(" (");
    reveal_strlit(")");
    let digits = text::decimal(n);
    let state = "exited ("@ + digits + ")"@;
    let rest = " ("@ + digits + ")"@;
    let class = CharClass::NonDigit;
    assert(state =~= "exited"@ + rest);
    assert("exited"@.is_prefix_of(state)) by {
        assert(state.take(6) =~= "exited"@);
    }
    law_states(state);
    if "exited"@.is_prefix_of(rest) {
        assert(rest.subrange(0, 6)[0] == rest[0]);
        assert("exited"@[0] == 'e');
    }
    laws_records::law_trim_prefix(rest, "exited"@);
    laws_records::law_decimal(n);
    laws_records::law_number_is_read(n);
    assert(text::is_digit(digits[0]));
    assert(text::is_digit(digits[digits.len() - 1]));
    assert forall|i: int| 0 <= i < " ("@.len() implies class.holds(#[trigger] " ("@[i]) by {}
    assert forall|i: int| 0 <= i < ")"@.len() implies class.holds(#[trigger] ")"@[i]) by {}
    laws_records::law_trim(" ("@, digits, ")"@, class);
    assert(text::trim(rest, class) == digits);
    let none = Seq::<char>::empty();
    assert("exited"@ =~= "exited"@ + none);
    law_states("exited"@);
    assert("exited"@.is_prefix_of("exited"@)) by {
        assert("exited"@.take(6) =~= "exited"@);
    }
    laws_records::law_trim_prefix(none, "exited"@);
    laws_records::law_trim(none, none, none, class);
    assert(none + none + none =~= none);
}

/// The exit code is found in whatever surrounds it, as long as it is one number; where it is
/// not, the code is zero.
pub proof fn law_exit_code_in_text(
    before: Seq<char>,
    n: nat,
    after: Seq<char>,
    between: Seq<char>,
    m: nat,
)
    requires
        forall|i: int| 0 <= i < before.len() ==> !text::is_digit(#[trigger] before[i]),
        forall|i: int| 0 <= i < after.len() ==> !text::is_digit(#[trigger] after[i]),
        forall|i: int| 0 <= i < between.len() ==> !text::is_digit(#[trigger] between[i]),
        between.len() > 0,
        before.len() == 0 || before[0] != 'e',
        n <= i64::MAX,
    ensures
        docker::status_of("exited"@ + (before + text::decimal(n) + after))
            == ContainerStatus::Exited(n as i64),
        docker::status_of(
            "exited"@ + (before + (text::decimal(n) + between + text::decimal(m)) + after),
        ) == ContainerStatus::Exited(0),
{
    let class = CharClass::NonDigit;
    let first = text::decimal(n);
    let second = text::decimal(m);
    let both = first + between + second;
    assert forall|i: int| 0 <= i < before.len() implies class.holds(#[trigger] before[i]) by {
        assert(!text::is_digit(before[i]));
    }
    assert forall|i: int| 0 <= i < after.len() implies class.holds(#[trigger] after[i]) by {
        assert(!text::is_digit(after[i]));
    }
    laws_records::law_decimal(n);
    laws_records::law_decimal(m);
    laws_records::law_number_is_read(n);
    assert(text::is_digit(first[0]) && text::is_digit(first[first.len() - 1]));
    assert(text::is_digit(second[0]) && text::is_digit(second[second.len() - 1]));
    assert(both[0] == first[0] && both.last() == second.last());
    assert(both[first.len() as int] == between[0]);
    assert(!text::is_digit(both[first.len() as int]));
    assert(!text::all_digits(both));
    lemma_exited(before, first, after);
    lemma_exited(before, both, after);
    laws_records::law_trim(before, first, after, class);
    laws_records::law_trim(before, both, after, class);
}

proof fn lemma_exited(before: Seq<char>, middle: Seq<char>, after: Seq<char>)
    requires
        before.len() == 0 || before[0] != 'e',
        middle.len() > 0,
        text::is_digit(middle[0]),
    ensures
        ({
            let rest = before + middle + after;
            &&& "exited"@.is_prefix_of("exited"@ + rest)
            &&& text::trim_prefix("exited"@ + rest, "exited"@) == rest
            &&& docker::status_of("exited"@ + rest) is Exited
        }),
{
    reveal_strlit("exited");
    let rest = before + middle + after;
    let whole = "exited"@ + rest;
    assert(whole.take(6) =~= "exited"@);
    law_states(whole);
    if before.len() > 0 {
        assert(rest[0] == before[0]);
    } else {
        assert(rest[0] == middle[0]);
    }
    assert("exited"@[0] == 'e');
    if "exited"@.is_prefix_of(rest) {
        assert(rest.subrange(0, 6)[0] == rest[0]);
    }
    laws_records::law_trim_prefix(rest, "exited"@);
}

/// A status is shown by its own word, and an end by whether it went well.
pub proof fn law_status_shown(code: i64)
    ensures
        docker::status_label(ContainerStatus::Running) == "🟢 running"@,
        docker::status_label(ContainerStatus::Paused) == "⏸  paused"@,
        docker::status_label(ContainerStatus::Restarting) == "🔄 restarting"@,
        docker::status_label(ContainerStatus::Dead) == "💀 dead"@,
        docker::status_label(ContainerStatus::Created) == "🔵 created"@,
        docker::status_label(ContainerStatus::Unknown) == "❓ unknown"@,
        docker::status_label(ContainerStatus::Exited(0)) == "⚪ exited(0)"@,
        code != 0 ==> docker::status_label(ContainerStatus::Exited(code)) == "🔴 exited(err)"@,
        docker::status_color(ContainerStatus::Running) == Color::Green,
        docker::status_color(ContainerStatus::Restarting) == Color::Yellow,
        docker::status_color(ContainerStatus::Dead) == Color::Red,
        docker::status_color(ContainerStatus::Exited(0)) == Color::DarkGray,
        code != 0 ==> docker::status_color(ContainerStatus::Exited(code)) == Color::Red,
        docker::status_color(ContainerStatus::Paused) == Color::DarkGray,
        docker::status_color(ContainerStatus::Created) == Color::DarkGray,
        docker::status_color(ContainerStatus::Unknown) == Color::DarkGray,
{
}

/// A container counts as active exactly where it runs or restarts.
pub proof fn law_active(status: ContainerStatus)
    ensures
        docker::active(status) <==> status is Running || status is Restarting,
{
}

// ---------------------------------------------------------------------------------------------
// What is kept of a container
// ---------------------------------------------------------------------------------------------

/// The value of a label is that of the first label of its name; without such a label there is
/// none.
pub proof fn law_label(labels: Seq<(Seq<char>, Seq<char>)>, name: Seq<char>)
    ensures
        docker::label_value(None, name) is None,
        (forall|i: int| 0 <= i < labels.len() ==> (#[trigger] labels[i]).0 != name)
            ==> docker::label_value(Some(labels), name) is None,
        forall|i: int|
            0 <= i < labels.len() && (#[trigger] labels[i]).0 == name && (forall|j: int|
                0 <= j < i ==> (#[trigger] labels[j]).0 != name) ==> docker::label_value(
                Some(labels),
                name,
            ) == Some(labels[i].1),
{
    let p = docker::named(name);
    seqs::lemma_first_where(labels, p);
    let k = seqs::first_where(labels, p);
    if k < labels.len() {
        assert(p(labels[k]));
    }
    assert forall|i: int|
        0 <= i < labels.len() && (#[trigger] labels[i]).0 == name && (forall|j: int|
            0 <= j < i ==> (#[trigger] labels[j]).0 != name) implies docker::label_value(
        Some(labels),
        name,
    ) == Some(labels[i].1) by {
        assert forall|j: int| 0 <= j < i implies !p(#[trigger] labels[j]) by {}
        assert(p(labels[i]));
        seqs::lemma_is_first(labels, p, i);
    }
}

/// What is kept of a listed container: the first twelve characters of its identifier, its image,
/// the service and the project that its labels name, and when it was seen.
pub proof fn law_container_kept(summary: ContainerSummary, now: u64)
    ensures
        ({
            let c = docker::info_of(summary, now);
            &&& c.last_updated == now
            &&& c.stats == docker::stats_of(None)
            &&& match summary.id {
                Some(id) => {
                    &&& c.id.is_prefix_of(id@)
                    &&& id@.len() <= 12 ==> c.id == id@
                    &&& id@.len() > 12 ==> c.id.len() == 12
                },
                None => c.id.len() == 0,
            }
            &&& match summary.image {
                Some(image) => c.image == image@,
                None => c.image.len() == 0,
            }
            &&& c.compose_service == docker::label_value(
                summary.labels.deep_view(),
                "com.docker.compose.service"@,
            )
            &&& c.compose_project == docker::label_value(
                summary.labels.deep_view(),
                "com.docker.compose.project"@,
            )
            &&& match summary.state {
                Some(state) => c.status == docker::status_of(text::lowercase(state@)),
                None => c.status == docker::status_of(text::lowercase(Seq::empty())),
            }
        }),
{
    if let Some(id) = summary.id {
        laws_records::law_clip_length(id@, 12);
    }
}

/// The name of a container is its first one, without the slashes in front and nothing else.
pub proof fn law_container_name(summary: ContainerSummary, now: u64, slashes: Seq<char>, name: Seq<char>)
    requires
        summary.names is Some,
        summary.names->0@.len() > 0,
        summary.names->0@[0]@ == slashes + name,
        forall|i: int| 0 <= i < slashes.len() ==> #[trigger] slashes[i] == '/',
        name.len() > 0,
        name[0] != '/',
    ensures
        docker::info_of(summary, now).name == name,
{
    let all = summary.names.deep_view()->0;
    assert(all[0] == slashes + name);
    let class = CharClass::Only('/');
    lemma_slashes(slashes, name, class);
}

/// A container without a name, or with one that consists of slashes, has the empty one.
pub proof fn law_container_without_name(summary: ContainerSummary, now: u64)
    requires
        summary.names is None || summary.names->0@.len() == 0 || (forall|i: int|
            0 <= i < summary.names->0@[0]@.len() ==> #[trigger] summary.names->0@[0]@[i] == '/'),
    ensures
        docker::info_of(summary, now).name.len() == 0,
{
    let class = CharClass::Only('/');
    let none = Seq::<char>::empty();
    laws_records::law_trim(none, none, none, class);
    if summary.names is Some && summary.names->0@.len() > 0 {
        let name = summary.names->0@[0]@;
        assert(summary.names.deep_view()->0[0] == name);
        lemma_all_slashes(name, class);
    }
}

proof fn lemma_all_slashes(s: Seq<char>, class: CharClass)
    requires
        class == CharClass::Only('/'),
        forall|i: int| 0 <= i < s.len() ==> #[trigger] s[i] == '/',
    ensures
        text::trim_front(s, class).len() == 0,
    decreases s.len(),
{
    if s.len() > 0 {
        assert(s[0] == '/');
        let rest = s.drop_first();
        assert forall|i: int| 0 <= i < rest.len() implies #[trigger] rest[i] == '/' by {
            assert(s[i + 1] == '/');
        }
        lemma_all_slashes(rest, class);
    }
}

proof fn lemma_slashes(slashes: Seq<char>, name: Seq<char>, class: CharClass)
    requires
        class == CharClass::Only('/'),
        forall|i: int| 0 <= i < slashes.len() ==> #[trigger] slashes[i] == '/',
        name.len() > 0,
        name[0] != '/',
    ensures
        text::trim_front(slashes + name, class) == name,
    decreases slashes.len(),
{
    if slashes.len() == 0 {
        assert(slashes + name =~= name);
    } else {
        assert(slashes[0] == '/');
        let rest = slashes.drop_first();
        assert forall|i: int| 0 <= i < rest.len() implies #[trigger] rest[i] == '/' by {
            assert(slashes[i + 1] == '/');
        }
        lemma_slashes(rest, name, class);
        assert((slashes + name).drop_first() =~= rest + name);
    }
}

/// A container stands under its service, or its own name where it has none, and belongs to its
/// project, or to the unknown one.
pub proof fn law_service_and_project(c: ContainerView)
    ensures
        c.compose_service is Some ==> docker::service_of(c) == c.compose_service->0,
        c.compose_service is None ==> docker::service_of(c) == c.name,
        c.compose_project is Some ==> docker::project_of(c) == c.compose_project->0,
        c.compose_project is None ==> docker::project_of(c) == "unknown"@,
{
}

/// Every listed container is kept, at its position.
pub proof fn law_listed_containers(summaries: Seq<ContainerSummary>, now: u64)
    ensures
        docker::infos_of(summaries, now).len() == summaries.len(),
        forall|i: int|
            0 <= i < summaries.len() ==> #[trigger] docker::infos_of(summaries, now)[i]
                == docker::info_of(summaries[i], now),
{
}

/// The containers of a stack go by the names of their services.
pub proof fn law_sorted_by_service(containers: Seq<ContainerView>, sorted: Seq<ContainerView>)
    requires
        docker::sorted_by_service(containers, sorted),
    ensures
        sorted.len() == containers.len(),
        forall|i: int, j: int|
            0 <= i < j < sorted.len() ==> text::text_le(
                docker::service_of(#[trigger] sorted[i]),
                docker::service_of(#[trigger] sorted[j]),
            ),
{
    let keys = docker::service_keys(containers);
    let order = choose|order: Seq<usize>| #[trigger]
        crate::order::is_order(keys, order) && sorted == crate::order::permuted(containers, order);
    assert forall|i: int, j: int| 0 <= i < j < sorted.len() implies text::text_le(
        docker::service_of(#[trigger] sorted[i]),
        docker::service_of(#[trigger] sorted[j]),
    ) by {
        assert(crate::order::goes_before(keys, order[i] as int, order[j] as int));
        assert(sorted[i] == containers[order[i] as int]);
        assert(sorted[j] == containers[order[j] as int]);
    }
}

/// The stacks go by the names of their projects, each name once. None is empty, and a stack holds
/// nothing but listed containers of its project.
pub proof fn law_stacks(containers: Seq<ContainerView>, stacks: Seq<StackView>)
    requires
        docker::are_stacks(containers, stacks),
        containers.len() <= usize::MAX,
    ensures
        forall|i: int, j: int|
            0 <= i < j < stacks.len() ==> text::text_le(
                (#[trigger] stacks[i]).project_name,
                (#[trigger] stacks[j]).project_name,
            ) && stacks[i].project_name != stacks[j].project_name,
        forall|i: int| 0 <= i < stacks.len() ==> (#[trigger] stacks[i]).containers.len() > 0,
        forall|i: int, x: int|
            0 <= i < stacks.len() && 0 <= x < stacks[i].containers.len() ==> {
                let c = #[trigger] stacks[i].containers[x];
                containers.contains(c) && docker::project_of(c) == stacks[i].project_name
            },
{
    assert forall|i: int| 0 <= i < stacks.len() implies (
    #[trigger] stacks[i]).containers.len() > 0 by {
        let p = docker::in_project(stacks[i].project_name);
        let own = containers.filter(p);
        assert(seqs::any_where(containers, p));
        let k = choose|k: int| 0 <= k < containers.len() && p(#[trigger] containers[k]);
        containers.lemma_filter_contains(p, k);
        assert(docker::sorted_by_service(own, stacks[i].containers));
        law_sorted_by_service(own, stacks[i].containers);
    }
    assert forall|i: int, x: int|
        0 <= i < stacks.len() && 0 <= x < stacks[i].containers.len() implies ({
        let c = #[trigger] stacks[i].containers[x];
        containers.contains(c) && docker::project_of(c) == stacks[i].project_name
    }) by {
        let p = docker::in_project(stacks[i].project_name);
        let own = containers.filter(p);
        let sorted = stacks[i].containers;
        assert(docker::sorted_by_service(own, stacks[i].containers));
        let order = choose|order: Seq<usize>| #[trigger]
            crate::order::is_order(docker::service_keys(own), order) && sorted
                == crate::order::permuted(own, order);
        assert(sorted[x] == own[order[x] as int]);
        containers.lemma_filter_pred(p, order[x] as int);
        containers.lemma_filter_contains_rev(p, sorted[x]);
    }
}

// ---------------------------------------------------------------------------------------------
// Changes
// ---------------------------------------------------------------------------------------------

/// The actions that change a container's status are known, and each gives the status that it
/// leads to, for the container with the start of the actor's identifier. No other action is a
/// change.
pub proof fn law_actions(action: Seq<char>, id: Seq<char>)
    ensures
        ({
            let change = docker::change_of(Some(action), Some(id));
            let known = action == "start"@ || action == "unpause"@ || action == "die"@ || action
                == "kill"@ || action == "pause"@ || action == "restart"@;
            &&& change is Some <==> known
            &&& change is Some ==> {
                &&& change->0 is ContainerStateChange
                &&& change->0->container_id.is_prefix_of(id)
                &&& id.len() <= 12 ==> change->0->container_id == id
                &&& id.len() > 12 ==> change->0->container_id.len() == 12
            }
            &&& action == "start"@ || action == "unpause"@ ==> change->0->new_status
                == ContainerStatus::Running
            &&& action == "die"@ ==> change->0->new_status == ContainerStatus::Exited(0)
            &&& action == "kill"@ ==> change->0->new_status == ContainerStatus::Dead
            &&& action == "pause"@ ==> change->0->new_status == ContainerStatus::Paused
            &&& action == "restart"@ ==> change->0->new_status == ContainerStatus::Restarting
        }),
        docker::change_of(None, Some(id)) is None,
        docker::change_of(Some(action), None) is Some ==> docker::change_of(
            Some(action),
            None,
        )->0->container_id.len() == 0,
{
    reveal_strlit("start");
    reveal_strlit("unpause");
    reveal_strlit("die");
    reveal_strlit("kill");
    reveal_strlit("pause");
    reveal_strlit("restart");
    assert("start"@.len() == 5 && "unpause"@.len() == 7 && "die"@.len() == 3);
    assert("kill"@.len() == 4 && "pause"@.len() == 5 && "restart"@.len() == 7);
    assert("start"@[0] == 's' && "pause"@[0] == 'p' && "unpause"@[0] == 'u' && "restart"@[0]
        == 'r');
    laws_records::law_clip_length(id, 12);
}

/// Where a lane has a container with an identifier, a change gives its status to the first such
/// container, and to no other one.
pub proof fn law_change_arrives(lanes: Seq<LaneView>, id: Seq<char>, status: ContainerStatus, l: int, k: int, c: int)
    requires
        0 <= l < lanes.len(),
        0 <= k < lanes[l].docker_stacks.len(),
        0 <= c < lanes[l].docker_stacks[k].containers.len(),
        lanes[l].docker_stacks[k].containers[c].id == id,
        forall|i: int, j: int, x: int|
            0 <= i < lanes.len() && 0 <= j < lanes[i].docker_stacks.len() && 0 <= x
                < lanes[i].docker_stacks[j].containers.len() && (
            #[trigger] lanes[i].docker_stacks[j].containers[x]).id == id ==> i > l || (i == l && (j
                > k || (j == k && x >= c))),
    ensures
        ({
            let next = state::container_changed(lanes, id, status);
            &&& next[l].docker_stacks[k].containers[c] == (ContainerView {
                status,
                ..lanes[l].docker_stacks[k].containers[c]
            })
            &&& forall|i: int, j: int, x: int|
                0 <= i < lanes.len() && 0 <= j < lanes[i].docker_stacks.len() && 0 <= x
                    < lanes[i].docker_stacks[j].containers.len() && (i != l || j != k || x != c)
                    ==> #[trigger] next[i].docker_stacks[j].containers[x]
                    == lanes[i].docker_stacks[j].containers[x]
        }),
{
    let in_lane = state::lane_has(id);
    let in_stack = state::stack_has(id);
    let own = state::with_id(id);
    let stacks = lanes[l].docker_stacks;
    let containers = stacks[k].containers;
    assert(own(containers[c]));
    assert(in_stack(stacks[k]));
    assert(in_lane(lanes[l]));
    assert forall|i: int| 0 <= i < l implies !in_lane(#[trigger] lanes[i]) by {
        if in_lane(lanes[i]) {
            let j = seqs::first_where(lanes[i].docker_stacks, in_stack);
            seqs::lemma_first_where(lanes[i].docker_stacks, in_stack);
            assert(in_stack(lanes[i].docker_stacks[j]));
            let x = seqs::first_where(lanes[i].docker_stacks[j].containers, own);
            seqs::lemma_first_where(lanes[i].docker_stacks[j].containers, own);
            assert(lanes[i].docker_stacks[j].containers[x].id == id);
        }
    }
    seqs::lemma_is_first(lanes, in_lane, l);
    assert forall|j: int| 0 <= j < k implies !in_stack(#[trigger] stacks[j]) by {
        if in_stack(stacks[j]) {
            let x = seqs::first_where(stacks[j].containers, own);
            seqs::lemma_first_where(stacks[j].containers, own);
            assert(lanes[l].docker_stacks[j].containers[x].id == id);
        }
    }
    seqs::lemma_is_first(stacks, in_stack, k);
    assert forall|x: int| 0 <= x < c implies !own(#[trigger] containers[x]) by {
        assert(lanes[l].docker_stacks[k].containers[x] == containers[x]);
    }
    seqs::lemma_is_first(containers, own, c);
}

// ---------------------------------------------------------------------------------------------
// Stacks and lanes
// ---------------------------------------------------------------------------------------------

/// A lane is of a Compose project exactly where its own is named like it, but for case. One
/// without a Compose project is of none.
pub proof fn law_lane_of_project(l: LaneView, project: Seq<char>)
    ensures
        l.compose_project_name is None ==> !lane::matches_project(l, project),
        l.compose_project_name is Some ==> (lane::matches_project(l, project)
            <==> text::same_ignoring_case(l.compose_project_name->0, project)),
        l.compose_project_name == Some(project) ==> lane::matches_project(l, project),
{
}

/// A stack goes to the first lane of its project, behind the stacks that are there, and nowhere
/// else; a stack of no lane is left over.
pub proof fn law_one_stack_given(lanes: Seq<LaneView>, stack: StackView, l: int)
    requires
        0 <= l <= lanes.len(),
        l < lanes.len() ==> lane::matches_project(lanes[l], stack.project_name),
        forall|i: int|
            0 <= i < l ==> !lane::matches_project(#[trigger] lanes[i], stack.project_name),
    ensures
        ({
            let next = state::distributed(lanes, seq![stack]);
            let left = state::left_over(lanes, seq![stack]);
            &&& next.len() == lanes.len()
            &&& forall|i: int| 0 <= i < lanes.len() && i != l ==> #[trigger] next[i] == lanes[i]
            &&& l < lanes.len() ==> next[l] == (LaneView {
                docker_stacks: lanes[l].docker_stacks.push(stack),
                ..lanes[l]
            }) && left.len() == 0
            &&& l == lanes.len() ==> left == seq![stack]
        }),
{
    let p = state::takes(stack.project_name);
    assert forall|i: int| 0 <= i < l implies !p(#[trigger] lanes[i]) by {}
    if l < lanes.len() {
        assert(p(lanes[l]));
        seqs::lemma_is_first(lanes, p, l);
    } else {
        seqs::lemma_first_where(lanes, p);
        let first = seqs::first_where(lanes, p);
        if first < lanes.len() {
            assert(p(lanes[first]));
        }
    }
    assert(seqs::first_where(lanes, p) == l);
    let next = state::distributed(lanes, seq![stack]);
    let one = seq![stack];
    assert forall|i: int| 0 <= i <= lanes.len() implies #[trigger] one.filter(
        state::owned_by(lanes, i),
    ) == if i == l {
        one
    } else {
        Seq::empty()
    } by {
        let q = state::owned_by(lanes, i);
        if i == l {
            assert(q(stack));
            seqs::lemma_filter_all(one, q);
        } else {
            assert(!q(stack));
            seqs::lemma_filter_no_match(one, q);
            assert(one.filter(q) =~= Seq::empty());
        }
    }
    assert forall|i: int| 0 <= i < lanes.len() && i != l implies #[trigger] next[i]
        == lanes[i] by {
        assert(one.filter(state::owned_by(lanes, i)) == Seq::<StackView>::empty());
        assert(next[i].docker_stacks =~= lanes[i].docker_stacks);
    }
    assert(one.filter(state::owned_by(lanes, l)) == one);
    if l < lanes.len() {
        assert(next[l].docker_stacks =~= lanes[l].docker_stacks.push(stack));
        assert(one.filter(state::owned_by(lanes, lanes.len() as int)).len() == 0);
    }
}

/// A snapshot makes the engine known to be there, and touches nothing but the stacks.
pub proof fn law_snapshot_of_engine(s: state::SwarmView, stacks: Seq<StackView>)
    ensures
        ({
            let t = state::stacks_updated(s, stacks);
            &&& t.docker_available
            &&& t.session_index == s.session_index
            &&& t.child_index == s.child_index
            &&& t.pending == s.pending
            &&& t.lanes.len() == s.lanes.len()
            &&& forall|i: int|
                0 <= i < s.lanes.len() ==> #[trigger] t.lanes[i] == (LaneView {
                    docker_stacks: t.lanes[i].docker_stacks,
                    ..s.lanes[i]
                })
        }),
{
}

} // verus!

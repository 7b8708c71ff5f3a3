//! Containers, grouped into the Compose stacks that they belong to.
use crate::color::Color;
use crate::order;
use crate::order::{SortKey, SortKeyView};
use crate::parser;
use crate::seqs;
use crate::text;
use vstd::prelude::*;

verus! {

/// Seconds between two polls of the containers.
pub const POLL_SECS: u64 = 2;

/// The label that names a container's Compose project.
pub const PROJECT_LABEL: &'static str = "com.docker.compose.project";

/// The label that names a container's Compose service.
pub const SERVICE_LABEL: &'static str = "com.docker.compose.service";

/// The length of a short container identifier.
pub const SHORT_ID_CHARS: usize = 12;

// ---------------------------------------------------------------------------------------------
// Status
// ---------------------------------------------------------------------------------------------

#[derive(Debug, Clone, Copy, PartialEq, Eq, Structural)]
pub enum ContainerStatus {
    Running,
    Paused,
    Restarting,
    /// With the exit code.
    Exited(i64),
    Dead,
    Created,
    Unknown,
}

/// The exit code in a state such as `exited (3)`; zero where none can be read.
pub open spec fn exit_code(state: Seq<char>) -> i64 {
    match text::parsed_number(
        text::trim(text::trim_prefix(state, "exited"@), text::CharClass::NonDigit),
    ) {
        Some(n) => n,
        None => 0,
    }
}

/// The status that a container's state names.
pub open spec fn status_of(state: Seq<char>) -> ContainerStatus {
    if state == "running"@ {
        ContainerStatus::Running
    } else if state == "paused"@ {
        ContainerStatus::Paused
    } else if state == "restarting"@ {
        ContainerStatus::Restarting
    } else if state == "dead"@ {
        ContainerStatus::Dead
    } else if state == "created"@ {
        ContainerStatus::Created
    } else if "exited"@.is_prefix_of(state) {
        ContainerStatus::Exited(exit_code(state))
    } else {
        ContainerStatus::Unknown
    }
}

/// The label of a status.
pub open spec fn status_label(status: ContainerStatus) -> Seq<char> {
    match status {
        ContainerStatus::Running => "🟢 running"@,
        ContainerStatus::Paused => "⏸  paused"@,
        ContainerStatus::Restarting => "🔄 restarting"@,
        ContainerStatus::Exited(code) => if code == 0 {
            "⚪ exited(0)"@
        } else {
            "🔴 exited(err)"@
        },
        ContainerStatus::Dead => "💀 dead"@,
        ContainerStatus::Created => "🔵 created"@,
        ContainerStatus::Unknown => "❓ unknown"@,
    }
}

/// The color of a status.
pub open spec fn status_color(status: ContainerStatus) -> Color {
    match status {
        ContainerStatus::Running => Color::Green,
        ContainerStatus::Restarting => Color::Yellow,
        ContainerStatus::Exited(code) => if code == 0 {
            Color::DarkGray
        } else {
            Color::Red
        },
        ContainerStatus::Dead => Color::Red,
        _ => Color::DarkGray,
    }
}

/// A container that runs or is about to.
pub open spec fn active(status: ContainerStatus) -> bool {
    status == ContainerStatus::Running || status == ContainerStatus::Restarting
}

impl ContainerStatus {
    pub fn from_str(s: &str) -> (r: ContainerStatus)
        ensures
            r == status_of(s@),
    {
        if text::same_text(s, "running") {
            ContainerStatus::Running
        } else if text::same_text(s, "paused") {
            ContainerStatus::Paused
        } else if text::same_text(s, "restarting") {
            ContainerStatus::Restarting
        } else if text::same_text(s, "dead") {
            ContainerStatus::Dead
        } else if text::same_text(s, "created") {
            ContainerStatus::Created
        } else if text::starts_with(s, "exited") {
            proof {
                reveal_strlit("exited");
            }
            let tail: String = text::trim_prefix_text(s, "exited");
            let digits: String = text::trim_text(&tail, text::CharClass::NonDigit);
            ContainerStatus::Exited(text::parse_number(&digits).unwrap_or(0))
        } else {
            ContainerStatus::Unknown
        }
    }

    pub fn label(&self) -> (r: &'static str)
        ensures
            r@ == status_label(*self),
    {
        match self {
            ContainerStatus::Running => "🟢 running",
            ContainerStatus::Paused => "⏸  paused",
            ContainerStatus::Restarting => "🔄 restarting",
            ContainerStatus::Exited(code) => if *code == 0 {
                "⚪ exited(0)"
            } else {
                "🔴 exited(err)"
            },
            ContainerStatus::Dead => "💀 dead",
            ContainerStatus::Created => "🔵 created",
            ContainerStatus::Unknown => "❓ unknown",
        }
    }

    pub fn color(&self) -> (r: Color)
        ensures
            r == status_color(*self),
    {
        match self {
            ContainerStatus::Running => Color::Green,
            ContainerStatus::Restarting => Color::Yellow,
            ContainerStatus::Exited(code) => if *code == 0 {
                Color::DarkGray
            } else {
                Color::Red
            },
            ContainerStatus::Dead => Color::Red,
            _ => Color::DarkGray,
        }
    }

    /// Whether the container runs or is about to.
    pub fn is_active(&self) -> (r: bool)
        ensures
            r == active(*self),
    {
        match self {
            ContainerStatus::Running => true,
            ContainerStatus::Restarting => true,
            _ => false,
        }
    }
}

// ---------------------------------------------------------------------------------------------
// Resource usage
// ---------------------------------------------------------------------------------------------

/// One sample of a container's resource usage, as the engine reports it. Processor times are
/// counters, with their values at the sample before.
#[derive(Debug, Clone, Copy)]
pub struct StatsSample {
    pub cpu_total: u64,
    pub previous_cpu_total: u64,
    pub system_cpu: Option<u64>,
    pub previous_system_cpu: Option<u64>,
    pub online_cpus: Option<u64>,
    pub memory_usage: Option<u64>,
    pub memory_limit: Option<u64>,
}

/// What is kept of a container's resource usage. All zero until a sample has come.
#[derive(Debug, Clone, Copy, PartialEq, Eq, Structural)]
pub struct ContainerStats {
    pub cpu_total: u64,
    pub previous_cpu_total: u64,
    pub system_cpu: u64,
    pub previous_system_cpu: u64,
    pub online_cpus: u64,
    pub memory_usage: u64,
    pub memory_limit: u64,
}

pub open spec fn no_stats() -> ContainerStats {
    ContainerStats {
        cpu_total: 0,
        previous_cpu_total: 0,
        system_cpu: 0,
        previous_system_cpu: 0,
        online_cpus: 0,
        memory_usage: 0,
        memory_limit: 0,
    }
}

pub open spec fn or_value(n: Option<u64>, otherwise: u64) -> u64 {
    match n {
        Some(k) => k,
        None => otherwise,
    }
}

/// The usage that a sample shows. A counter that is missing counts as zero, and there is at least
/// one processor and one byte of memory.
pub open spec fn stats_of(sample: Option<StatsSample>) -> ContainerStats {
    match sample {
        None => no_stats(),
        Some(s) => ContainerStats {
            cpu_total: s.cpu_total,
            previous_cpu_total: s.previous_cpu_total,
            system_cpu: or_value(s.system_cpu, 0),
            previous_system_cpu: or_value(s.previous_system_cpu, 0),
            online_cpus: or_value(s.online_cpus, 1),
            memory_usage: or_value(s.memory_usage, 0),
            memory_limit: or_value(s.memory_limit, 1),
        },
    }
}

impl ContainerStats {
    /// The usage before the first sample.
    pub fn none() -> (r: ContainerStats)
        ensures
            r == no_stats(),
    {
        ContainerStats {
            cpu_total: 0,
            previous_cpu_total: 0,
            system_cpu: 0,
            previous_system_cpu: 0,
            online_cpus: 0,
            memory_usage: 0,
            memory_limit: 0,
        }
    }

    /// The usage that a sample shows, or none where the engine sent no sample.
    pub fn from_sample(sample: Option<StatsSample>) -> (r: ContainerStats)
        ensures
            r == stats_of(sample),
            sample is Some ==> {
                &&& r.cpu_total == sample->0.cpu_total
                &&& r.previous_cpu_total == sample->0.previous_cpu_total
                &&& sample->0.memory_usage is Some ==> r.memory_usage
                    == sample->0.memory_usage->0
                &&& sample->0.memory_limit is Some ==> r.memory_limit
                    == sample->0.memory_limit->0
            },
    {
        match sample {
            None => ContainerStats::none(),
            Some(s) => ContainerStats {
                cpu_total: s.cpu_total,
                previous_cpu_total: s.previous_cpu_total,
                system_cpu: s.system_cpu.unwrap_or(0),
                previous_system_cpu: s.previous_system_cpu.unwrap_or(0),
                online_cpus: s.online_cpus.unwrap_or(1),
                memory_usage: s.memory_usage.unwrap_or(0),
                memory_limit: s.memory_limit.unwrap_or(1),
            },
        }
    }
}

// ---------------------------------------------------------------------------------------------
// Containers
// ---------------------------------------------------------------------------------------------

/// A container as the engine lists it. No two labels have the same name.
#[derive(Debug, Clone)]
pub struct ContainerSummary {
    pub id: Option<String>,
    pub names: Option<Vec<String>>,
    pub image: Option<String>,
    pub state: Option<String>,
    pub labels: Option<Vec<(String, String)>>,
}

#[derive(Debug, Clone)]
pub struct ContainerInfo {
    pub id: String,
    pub name: String,
    pub image: String,
    pub status: ContainerStatus,
    pub compose_service: Option<String>,
    pub compose_project: Option<String>,
    pub stats: ContainerStats,
    pub last_updated: u64,
}

pub struct ContainerView {
    pub id: Seq<char>,
    pub name: Seq<char>,
    pub image: Seq<char>,
    pub status: ContainerStatus,
    pub compose_service: Option<Seq<char>>,
    pub compose_project: Option<Seq<char>>,
    pub stats: ContainerStats,
    pub last_updated: u64,
}

impl View for ContainerInfo {
    type V = ContainerView;

    open spec fn view(&self) -> ContainerView {
        ContainerView {
            id: self.id@,
            name: self.name@,
            image: self.image@,
            status: self.status,
            compose_service: self.compose_service.deep_view(),
            compose_project: self.compose_project.deep_view(),
            stats: self.stats,
            last_updated: self.last_updated,
        }
    }
}

impl DeepView for ContainerInfo {
    type V = ContainerView;

    open spec fn deep_view(&self) -> ContainerView {
        self@
    }
}

/// The name of the service that a container runs: that of its Compose service, or its own.
pub open spec fn service_of(container: ContainerView) -> Seq<char> {
    match container.compose_service {
        Some(service) => service,
        None => container.name,
    }
}

/// The name of the project that a container belongs to.
pub open spec fn project_of(container: ContainerView) -> Seq<char> {
    match container.compose_project {
        Some(project) => project,
        None => "unknown"@,
    }
}

impl ContainerInfo {
    pub fn service_name(&self) -> (r: String)
        ensures
            r@ == service_of(self@),
    {
        match &self.compose_service {
            Some(service) => service.clone(),
            None => self.name.clone(),
        }
    }

    /// The name of the project that the container belongs to.
    pub fn project_name(&self) -> (r: String)
        ensures
            r@ == project_of(self@),
    {
        match &self.compose_project {
            Some(project) => project.clone(),
            None => "unknown".to_string(),
        }
    }
}

/// The labels with a name.
pub open spec fn named(name: Seq<char>) -> spec_fn((Seq<char>, Seq<char>)) -> bool {
    |label: (Seq<char>, Seq<char>)| label.0 == name
}

/// The value of a label, where there is one of that name.
pub open spec fn label_value(
    labels: Option<Seq<(Seq<char>, Seq<char>)>>,
    name: Seq<char>,
) -> Option<Seq<char>> {
    match labels {
        None => None,
        Some(all) => {
            let i = seqs::first_where(all, named(name));
            if i < all.len() {
                Some(all[i].1)
            } else {
                None
            }
        },
    }
}

fn find_label(labels: &Option<Vec<(String, String)>>, name: &str) -> (r: Option<String>)
    ensures
        r.deep_view() == label_value(labels.deep_view(), name@),
{
    match labels {
        None => None,
        Some(all) => {
            let mut i: usize = 0;
            while i < all.len()
                invariant
                    i <= all@.len(),
                    *labels == Some(*all),
                    forall|j: int| 0 <= j < i ==> !named(name@)(#[trigger] all.deep_view()[j]),
                decreases all.len() - i,
            {
                if text::same_text(&all[i].0, name) {
                    proof {
                        assert(named(name@)(all.deep_view()[i as int]));
                        seqs::lemma_is_first(all.deep_view(), named(name@), i as int);
                    }
                    return Some(all[i].1.clone());
                }
                assert(!named(name@)(all.deep_view()[i as int]));
                i += 1;
            }
            proof {
                seqs::lemma_is_first(all.deep_view(), named(name@), i as int);
            }
            None
        },
    }
}

/// The first of a container's names, or the empty one.
pub open spec fn first_name(names: Option<Seq<Seq<char>>>) -> Seq<char> {
    match names {
        Some(all) if all.len() > 0 => all[0],
        _ => Seq::empty(),
    }
}

/// What is kept of a listed container: a short identifier, the first name without the slashes
/// before it, and the status that its state names.
pub open spec fn info_of(summary: ContainerSummary, now: u64) -> ContainerView {
    ContainerView {
        id: text::clip(parser::or_empty(summary.id.deep_view()), SHORT_ID_CHARS as int),
        name: text::trim_front(
            first_name(summary.names.deep_view()),
            text::CharClass::Only('/'),
        ),
        image: parser::or_empty(summary.image.deep_view()),
        status: status_of(text::lowercase(parser::or_empty(summary.state.deep_view()))),
        compose_service: label_value(summary.labels.deep_view(), SERVICE_LABEL@),
        compose_project: label_value(summary.labels.deep_view(), PROJECT_LABEL@),
        stats: no_stats(),
        last_updated: now,
    }
}

pub fn container_summary_to_info(summary: &ContainerSummary, now: u64) -> (r: ContainerInfo)
    ensures
        r@ == info_of(*summary, now),
        text::all_ascii(parser::or_empty(summary.state.deep_view())) ==> r@.status == status_of(
            text::ascii_lowered(parser::or_empty(summary.state.deep_view())),
        ),
{
    let id: String = parser::text_or_empty(&summary.id);
    let first: String = match &summary.names {
        Some(all) => if all.len() > 0 {
            all[0].clone()
        } else {
            String::new()
        },
        None => String::new(),
    };
    let state: String = text::lowercase_text(&parser::text_or_empty(&summary.state));
    ContainerInfo {
        id: text::clip_text(&id, SHORT_ID_CHARS),
        name: text::trim_front_text(&first, text::CharClass::Only('/')),
        image: parser::text_or_empty(&summary.image),
        status: ContainerStatus::from_str(&state),
        compose_service: find_label(&summary.labels, SERVICE_LABEL),
        compose_project: find_label(&summary.labels, PROJECT_LABEL),
        stats: ContainerStats::none(),
        last_updated: now,
    }
}

// ---------------------------------------------------------------------------------------------
// Stacks
// ---------------------------------------------------------------------------------------------

/// The containers of one Compose project.
#[derive(Debug, Clone)]
pub struct DockerStack {
    pub project_name: String,
    pub containers: Vec<ContainerInfo>,
}

pub struct StackView {
    pub project_name: Seq<char>,
    pub containers: Seq<ContainerView>,
}

impl View for DockerStack {
    type V = StackView;

    open spec fn view(&self) -> StackView {
        StackView { project_name: self.project_name@, containers: self.containers.deep_view() }
    }
}

impl DeepView for DockerStack {
    type V = StackView;

    open spec fn deep_view(&self) -> StackView {
        self@
    }
}

/// Containers that are active.
pub open spec fn is_up() -> spec_fn(ContainerView) -> bool {
    |c: ContainerView| active(c.status)
}

/// The containers with the samples that came for them.
pub open spec fn with_samples(
    containers: Seq<ContainerView>,
    samples: Seq<Option<ContainerStats>>,
) -> Seq<ContainerView> {
    Seq::new(
        containers.len(),
        |i: int|
            if i < samples.len() && samples[i] is Some {
                ContainerView { stats: samples[i]->0, ..containers[i] }
            } else {
                containers[i]
            },
    )
}

/// The identifiers of the containers that are active, each at its container's position.
pub open spec fn active_ids(containers: Seq<ContainerView>) -> Seq<Option<Seq<char>>> {
    Seq::new(
        containers.len(),
        |i: int|
            if active(containers[i].status) {
                Some(containers[i].id)
            } else {
                None
            },
    )
}

impl DockerStack {
    /// Whether a container of the stack is active.
    pub fn has_running(&self) -> (r: bool)
        ensures
            r == seqs::any_where(self@.containers, is_up()),
    {
        let mut i: usize = 0;
        while i < self.containers.len()
            invariant
                i <= self.containers@.len(),
                forall|j: int| 0 <= j < i ==> !is_up()(#[trigger] self@.containers[j]),
            decreases self.containers.len() - i,
        {
            if self.containers[i].status.is_active() {
                assert(is_up()(self@.containers[i as int]));
                return true;
            }
            i += 1;
        }
        false
    }

    /// Whether every container of the stack runs.
    pub fn all_healthy(&self) -> (r: bool)
        ensures
            r == (forall|i: int|
                0 <= i < self@.containers.len() ==> (#[trigger] self@.containers[i]).status
                    == ContainerStatus::Running),
    {
        let mut i: usize = 0;
        while i < self.containers.len()
            invariant
                i <= self.containers@.len(),
                forall|j: int|
                    0 <= j < i ==> (#[trigger] self@.containers[j]).status
                        == ContainerStatus::Running,
            decreases self.containers.len() - i,
        {
            if self.containers[i].status != ContainerStatus::Running {
                assert(self@.containers[i as int].status != ContainerStatus::Running);
                return false;
            }
            i += 1;
        }
        true
    }

    /// The number of containers that are not active.
    pub fn stopped(&self) -> (r: usize)
        ensures
            r == self@.containers.filter(|c: ContainerView| !active(c.status)).len(),
    {
        let ghost down = |c: ContainerView| !active(c.status);
        let ghost all = self@.containers;
        let mut n: usize = 0;
        let mut i: usize = 0;
        proof {
            seqs::lemma_filter_none(all, down);
        }
        while i < self.containers.len()
            invariant
                i <= self.containers@.len(),
                n <= i,
                all == self@.containers,
                down == (|c: ContainerView| !active(c.status)),
                n == all.take(i as int).filter(down).len(),
            decreases self.containers.len() - i,
        {
            proof {
                seqs::lemma_filter_next(all, down, i as int);
            }
            if !self.containers[i].status.is_active() {
                n += 1;
            }
            i += 1;
        }
        assert(all.take(i as int) =~= all);
        n
    }

    /// The identifiers of the containers whose usage is to be asked for, each at its container's
    /// position. Only active containers are asked.
    pub fn stats_wanted(&self) -> (r: Vec<Option<String>>)
        ensures
            r.deep_view() == active_ids(self@.containers),
    {
        let ghost all = self@.containers;
        let mut r: Vec<Option<String>> = Vec::new();
        let mut i: usize = 0;
        while i < self.containers.len()
            invariant
                i <= self.containers@.len(),
                all == self@.containers,
                r@.len() == i,
                forall|j: int| 0 <= j < i ==> #[trigger] r.deep_view()[j] == active_ids(all)[j],
            decreases self.containers.len() - i,
        {
            let ghost before = r.deep_view();
            assert(all[i as int] == self.containers@[i as int]@);
            let wanted: Option<String> = if self.containers[i].status.is_active() {
                Some(self.containers[i].id.clone())
            } else {
                None
            };
            r.push(wanted);
            assert forall|j: int| 0 <= j < i implies #[trigger] r.deep_view()[j] == before[j] by {}
            i += 1;
        }
        assert(r.deep_view() =~= active_ids(all));
        r
    }

    /// Takes in the samples that came for the containers, in the order of the containers.
    pub fn apply_stats(&mut self, samples: &Vec<Option<ContainerStats>>)
        ensures
            final(self)@ == (StackView {
                containers: with_samples(old(self)@.containers, samples@),
                ..old(self)@
            }),
    {
        let ghost all = self@.containers;
        let mut i: usize = 0;
        while i < self.containers.len() && i < samples.len()
            invariant
                i <= self.containers@.len() == all.len(),
                i <= samples@.len(),
                self.project_name == old(self).project_name,
                forall|j: int|
                    0 <= j < i ==> #[trigger] self@.containers[j] == with_samples(
                        all,
                        samples@,
                    )[j],
                forall|j: int| i <= j < all.len() ==> #[trigger] self@.containers[j] == all[j],
            decreases self.containers.len() - i,
        {
            let ghost before = self@.containers;
            assert(before[i as int] == all[i as int]);
            if let Some(stats) = samples[i] {
                self.containers[i].stats = stats;
            }
            assert forall|j: int| 0 <= j < all.len() && j != i implies #[trigger] self@.containers[j]
                == before[j] by {}
            i += 1;
        }
        assert(self@.containers =~= with_samples(all, samples@));
    }
}

/// The containers of a project.
pub open spec fn in_project(project: Seq<char>) -> spec_fn(ContainerView) -> bool {
    |c: ContainerView| project_of(c) == project
}

/// Every container is sorted by the name of its service.
pub open spec fn service_keys(containers: Seq<ContainerView>) -> Seq<SortKeyView> {
    Seq::new(
        containers.len(),
        |i: int| SortKeyView { first: false, text: service_of(containers[i]) },
    )
}

/// `sorted` holds the same containers as `containers`, by the names of their services; those of
/// one service stay in the order in which they came.
pub open spec fn sorted_by_service(
    containers: Seq<ContainerView>,
    sorted: Seq<ContainerView>,
) -> bool {
    exists|order: Seq<usize>|
        #[trigger] order::is_order(service_keys(containers), order) && sorted == order::permuted(
            containers,
            order,
        )
}

/// What is kept of every listed container.
pub open spec fn infos_of(summaries: Seq<ContainerSummary>, now: u64) -> Seq<ContainerView> {
    Seq::new(summaries.len(), |i: int| info_of(summaries[i], now))
}

/// There is a stack of a project.
pub open spec fn has_project(stacks: Seq<StackView>, project: Seq<char>) -> bool {
    exists|i: int| 0 <= i < stacks.len() && (#[trigger] stacks[i]).project_name == project
}

/// `stacks` has one stack for each project of the containers and no other, by the names of the
/// projects. A stack holds the containers of its project, by the names of their services.
pub open spec fn are_stacks(containers: Seq<ContainerView>, stacks: Seq<StackView>) -> bool {
    &&& forall|i: int, j: int|
        0 <= i < j < stacks.len() ==> (#[trigger] stacks[i]).project_name != (
        #[trigger] stacks[j]).project_name && text::text_le(
            stacks[i].project_name,
            stacks[j].project_name,
        )
    &&& forall|k: int|
        0 <= k < containers.len() ==> has_project(stacks, project_of(#[trigger] containers[k]))
    &&& forall|i: int|
        0 <= i < stacks.len() ==> seqs::any_where(
            containers,
            in_project((#[trigger] stacks[i]).project_name),
        )
    &&& forall|i: int|
        0 <= i < stacks.len() ==> sorted_by_service(
            containers.filter(in_project((#[trigger] stacks[i]).project_name)),
            stacks[i].containers,
        )
}

/// `groups` has one stack for each project of the containers and no other. A stack holds the
/// containers of its project, in the order in which they came.
spec fn are_groups(containers: Seq<ContainerView>, groups: Seq<StackView>) -> bool {
    &&& forall|i: int, j: int|
        0 <= i < j < groups.len() ==> (#[trigger] groups[i]).project_name != (
        #[trigger] groups[j]).project_name
    &&& forall|k: int|
        0 <= k < containers.len() ==> has_project(groups, project_of(#[trigger] containers[k]))
    &&& forall|i: int|
        0 <= i < groups.len() ==> seqs::any_where(
            containers,
            in_project((#[trigger] groups[i]).project_name),
        )
    &&& forall|i: int|
        0 <= i < groups.len() ==> (#[trigger] groups[i]).containers == containers.filter(
            in_project(groups[i].project_name),
        )
}

/// A container more leaves the stacks of the other projects as they are.
proof fn lemma_filter_push(containers: Seq<ContainerView>, c: ContainerView, project: Seq<char>)
    ensures
        containers.push(c).filter(in_project(project)) == if project_of(c) == project {
            containers.filter(in_project(project)).push(c)
        } else {
            containers.filter(in_project(project))
        },
        seqs::any_where(containers, in_project(project)) ==> seqs::any_where(
            containers.push(c),
            in_project(project),
        ),
{
    let all = containers.push(c);
    seqs::lemma_filter_next(all, in_project(project), containers.len() as int);
    assert(all.take(containers.len() as int) =~= containers);
    assert(all.take(all.len() as int) =~= all);
    if seqs::any_where(containers, in_project(project)) {
        let k = choose|k: int|
            0 <= k < containers.len() && in_project(project)(#[trigger] containers[k]);
        assert(in_project(project)(all[k]));
    }
}

/// Puts a container into the stack of its project.
fn add_container(groups: &mut Vec<DockerStack>, c: ContainerInfo)
    ensures
        forall|containers: Seq<ContainerView>| #[trigger]
            are_groups(containers, old(groups).deep_view()) ==> are_groups(
                containers.push(c@),
                final(groups).deep_view(),
            ),
{
    let project: String = c.project_name();
    let ghost before = groups.deep_view();
    let ghost cv = c@;
    let mut i: usize = 0;
    while i < groups.len() && !text::same_text(&groups[i].project_name, &project)
        invariant
            i <= groups@.len(),
            groups.deep_view() == before,
            forall|j: int| 0 <= j < i ==> (#[trigger] before[j]).project_name != project@,
        decreases groups.len() - i,
    {
        i += 1;
    }
    if i < groups.len() {
        let ghost old_stack = before[i as int];
        groups[i].containers.push(c);
        proof {
            let after = groups.deep_view();
            assert(groups@[i as int]@.containers =~= old_stack.containers.push(cv));
            assert(after =~= before.update(
                i as int,
                StackView { containers: old_stack.containers.push(cv), ..old_stack },
            ));
            assert forall|containers: Seq<ContainerView>| #[trigger]
                are_groups(containers, before) implies are_groups(containers.push(cv), after) by {
                assert forall|j: int| 0 <= j < after.len() implies (#[trigger] after[j]).containers
                    == containers.push(cv).filter(in_project(after[j].project_name))
                    && seqs::any_where(
                    containers.push(cv),
                    in_project(after[j].project_name),
                ) by {
                    assert(before[j].project_name == after[j].project_name);
                    lemma_filter_push(containers, cv, before[j].project_name);
                }
                assert forall|k: int| 0 <= k < containers.push(cv).len() implies has_project(
                    after,
                    project_of(#[trigger] containers.push(cv)[k]),
                ) by {
                    if k == containers.len() {
                        assert(after[i as int].project_name == project_of(cv));
                    } else {
                        assert(containers.push(cv)[k] == containers[k]);
                        assert(has_project(before, project_of(containers[k])));
                        let j = choose|j: int|
                            0 <= j < before.len() && (#[trigger] before[j]).project_name
                                == project_of(containers[k]);
                        assert(after[j].project_name == before[j].project_name);
                    }
                }
            }
        }
    } else {
        let mut containers: Vec<ContainerInfo> = Vec::new();
        containers.push(c);
        let stack: DockerStack = DockerStack { project_name: project, containers };
        groups.push(stack);
        proof {
            let after = groups.deep_view();
            assert(stack@.containers =~= seq![cv]);
            assert(after =~= before.push(stack@));
            assert forall|containers: Seq<ContainerView>| #[trigger]
                are_groups(containers, before) implies are_groups(containers.push(cv), after) by {
                let p = in_project(project@);
                assert forall|k: int| 0 <= k < containers.len() implies !p(
                    #[trigger] containers[k],
                ) by {
                    assert(has_project(before, project_of(containers[k])));
                }
                seqs::lemma_filter_no_match(containers, p);
                assert forall|j: int| 0 <= j < after.len() implies (#[trigger] after[j]).containers
                    == containers.push(cv).filter(in_project(after[j].project_name))
                    && seqs::any_where(
                    containers.push(cv),
                    in_project(after[j].project_name),
                ) by {
                    lemma_filter_push(containers, cv, after[j].project_name);
                    if j == before.len() {
                        assert(after[j] == stack@);
                        assert(containers.filter(p).push(cv) =~= seq![cv]);
                        assert(p(containers.push(cv)[containers.len() as int]));
                    } else {
                        assert(after[j] == before[j]);
                    }
                }
                assert forall|k: int| 0 <= k < containers.push(cv).len() implies has_project(
                    after,
                    project_of(#[trigger] containers.push(cv)[k]),
                ) by {
                    if k == containers.len() {
                        assert(after[before.len() as int].project_name == project_of(cv));
                    } else {
                        assert(containers.push(cv)[k] == containers[k]);
                        assert(has_project(before, project_of(containers[k])));
                        let j = choose|j: int|
                            0 <= j < before.len() && (#[trigger] before[j]).project_name
                                == project_of(containers[k]);
                        assert(after[j] == before[j]);
                    }
                }
                assert forall|a: int, b: int| 0 <= a < b < after.len() implies (
                #[trigger] after[a]).project_name != (#[trigger] after[b]).project_name by {
                    assert(after[a] == before[a]);
                    if b < before.len() {
                        assert(after[b] == before[b]);
                    }
                }
            }
        }
    }
}

/// Sorts the containers of a stack by the names of their services.
fn sort_containers(stack: DockerStack) -> (r: DockerStack)
    ensures
        r.project_name == stack.project_name,
        sorted_by_service(stack@.containers, r@.containers),
{
    let containers: Vec<ContainerInfo> = stack.containers;
    let ghost all = containers.deep_view();
    let mut keys: Vec<SortKey> = Vec::new();
    let mut i: usize = 0;
    while i < containers.len()
        invariant
            i <= containers@.len(),
            all == containers.deep_view(),
            keys@.len() == i,
            forall|j: int| 0 <= j < i ==> #[trigger] keys.deep_view()[j] == service_keys(all)[j],
        decreases containers.len() - i,
    {
        let ghost before = keys.deep_view();
        keys.push(SortKey { first: false, text: containers[i].service_name() });
        assert forall|j: int| 0 <= j < i + 1 implies #[trigger] keys.deep_view()[j] == service_keys(
            all,
        )[j] by {
            if j < i {
                assert(keys.deep_view()[j] == before[j]);
            }
        }
        i += 1;
    }
    assert(keys.deep_view() =~= service_keys(all));
    let order: Vec<usize> = order::sort_order(&keys);
    let ghost items = containers@;
    let sorted: Vec<ContainerInfo> = order::permute(containers, &order);
    assert(sorted.deep_view() =~= order::permuted(all, order@));
    DockerStack { project_name: stack.project_name, containers: sorted }
}

/// Sorts the stacks by the names of their projects.
fn sort_stacks(stacks: Vec<DockerStack>) -> (r: Vec<DockerStack>)
    requires
        forall|i: int, j: int|
            0 <= i < j < stacks@.len() ==> (#[trigger] stacks.deep_view()[i]).project_name != (
            #[trigger] stacks.deep_view()[j]).project_name,
    ensures
        forall|i: int, j: int|
            0 <= i < j < r@.len() ==> (#[trigger] r.deep_view()[i]).project_name != (
            #[trigger] r.deep_view()[j]).project_name && text::text_le(
                r.deep_view()[i].project_name,
                r.deep_view()[j].project_name,
            ),
        forall|i: int|
            0 <= i < stacks@.len() ==> r.deep_view().contains(#[trigger] stacks.deep_view()[i]),
        forall|i: int|
            0 <= i < r@.len() ==> stacks.deep_view().contains(#[trigger] r.deep_view()[i]),
{
    let ghost all = stacks.deep_view();
    let mut keys: Vec<SortKey> = Vec::new();
    let mut i: usize = 0;
    while i < stacks.len()
        invariant
            i <= stacks@.len(),
            all == stacks.deep_view(),
            keys@.len() == i,
            forall|j: int|
                0 <= j < i ==> #[trigger] keys.deep_view()[j] == (SortKeyView {
                    first: false,
                    text: all[j].project_name,
                }),
        decreases stacks.len() - i,
    {
        let ghost before = keys.deep_view();
        keys.push(SortKey { first: false, text: stacks[i].project_name.clone() });
        assert forall|j: int| 0 <= j < i + 1 implies #[trigger] keys.deep_view()[j] == (SortKeyView {
            first: false,
            text: all[j].project_name,
        }) by {
            if j < i {
                assert(keys.deep_view()[j] == before[j]);
            }
        }
        i += 1;
    }
    let order: Vec<usize> = order::sort_order(&keys);
    let sorted: Vec<DockerStack> = order::permute(stacks, &order);
    proof {
        let ks = keys.deep_view();
        let o = order@;
        let out = sorted.deep_view();
        assert(out =~= order::permuted(all, o));
        assert forall|i: int, j: int| 0 <= i < j < out.len() implies (
        #[trigger] out[i]).project_name != (#[trigger] out[j]).project_name && text::text_le(
            out[i].project_name,
            out[j].project_name,
        ) by {
            assert(order::goes_before(ks, o[i] as int, o[j] as int));
            if o[i] == o[j] {
                text::lemma_text_le_reflexive(ks[o[i] as int].text);
            } else if o[i] < o[j] {
                assert(all[o[i] as int].project_name != all[o[j] as int].project_name);
            } else {
                assert(all[o[j] as int].project_name != all[o[i] as int].project_name);
            }
        }
        assert forall|i: int| 0 <= i < all.len() implies out.contains(#[trigger] all[i]) by {
            assert(o.contains(i as usize));
            let k = choose|k: int| 0 <= k < o.len() && o[k] == i as usize;
            assert(out[k] == all[i]);
        }
        assert forall|i: int| 0 <= i < out.len() implies all.contains(#[trigger] out[i]) by {
            assert(out[i] == all[o[i] as int]);
        }
    }
    sorted
}

/// Groups the listed containers into stacks.
pub fn assemble_stacks(summaries: &Vec<ContainerSummary>, now: u64) -> (r: Vec<DockerStack>)
    ensures
        are_stacks(infos_of(summaries@, now), r.deep_view()),
{
    let ghost infos = infos_of(summaries@, now);
    let mut groups: Vec<DockerStack> = Vec::new();
    let mut k: usize = 0;
    assert(infos.take(0).len() == 0);
    assert(groups.deep_view().len() == 0);
    while k < summaries.len()
        invariant
            k <= summaries@.len(),
            infos == infos_of(summaries@, now),
            are_groups(infos.take(k as int), groups.deep_view()),
        decreases summaries.len() - k,
    {
        let info: ContainerInfo = container_summary_to_info(&summaries[k], now);
        assert(infos.take(k + 1) =~= infos.take(k as int).push(info@));
        add_container(&mut groups, info);
        k += 1;
    }
    assert(infos.take(k as int) =~= infos);
    let ghost grouped = groups.deep_view();
    let mut stacks: Vec<DockerStack> = Vec::new();
    for group in it: groups
        invariant
            grouped.len() == it.seq().len(),
            forall|i: int| 0 <= i < grouped.len() ==> #[trigger] grouped[i] == it.seq()[i]@,
            stacks@.len() == it.index(),
            forall|i: int|
                0 <= i < it.index() ==> (#[trigger] stacks.deep_view()[i]).project_name
                    == grouped[i].project_name && sorted_by_service(
                    grouped[i].containers,
                    stacks.deep_view()[i].containers,
                ),
    {
        let ghost before = stacks.deep_view();
        let ghost at = it.index() as int;
        assert(grouped[at] == group@);
        let sorted: DockerStack = sort_containers(group);
        stacks.push(sorted);
        assert forall|i: int| 0 <= i < at + 1 implies (#[trigger] stacks.deep_view()[i]).project_name
            == grouped[i].project_name && sorted_by_service(
            grouped[i].containers,
            stacks.deep_view()[i].containers,
        ) by {
            if i < at {
                assert(stacks.deep_view()[i] == before[i]);
            } else {
                assert(stacks.deep_view()[i] == sorted@);
            }
        }
    }
    let ghost mid = stacks.deep_view();
    assert forall|i: int, j: int| 0 <= i < j < mid.len() implies (#[trigger] mid[i]).project_name
        != (#[trigger] mid[j]).project_name by {
        assert(grouped[i].project_name != grouped[j].project_name);
    }
    let r: Vec<DockerStack> = sort_stacks(stacks);
    proof {
        let out = r.deep_view();
        assert forall|k: int| 0 <= k < infos.len() implies has_project(
            out,
            project_of(#[trigger] infos[k]),
        ) by {
            assert(has_project(grouped, project_of(infos[k])));
            let j = choose|j: int|
                0 <= j < grouped.len() && (#[trigger] grouped[j]).project_name == project_of(
                    infos[k],
                );
            assert(out.contains(mid[j]));
            let i = choose|i: int| 0 <= i < out.len() && out[i] == mid[j];
            assert(out[i].project_name == project_of(infos[k]));
        }
        assert forall|i: int| 0 <= i < out.len() implies seqs::any_where(
            infos,
            in_project((#[trigger] out[i]).project_name),
        ) && sorted_by_service(
            infos.filter(in_project(out[i].project_name)),
            out[i].containers,
        ) by {
            assert(mid.contains(out[i]));
            let j = choose|j: int| 0 <= j < mid.len() && mid[j] == out[i];
            assert(grouped[j].project_name == out[i].project_name);
        }
    }
    r
}

// ---------------------------------------------------------------------------------------------
// Engine events
// ---------------------------------------------------------------------------------------------

/// What the engine reports.
pub enum DockerEvent {
    /// All stacks, as a poll found them.
    StacksSnapshot(Vec<DockerStack>),
    /// One container changed its state.
    ContainerStateChange { container_id: String, new_status: ContainerStatus },
}

pub enum DockerEventView {
    StacksSnapshot(Seq<StackView>),
    ContainerStateChange { container_id: Seq<char>, new_status: ContainerStatus },
}

impl View for DockerEvent {
    type V = DockerEventView;

    open spec fn view(&self) -> DockerEventView {
        match self {
            DockerEvent::StacksSnapshot(stacks) => DockerEventView::StacksSnapshot(
                stacks.deep_view(),
            ),
            DockerEvent::ContainerStateChange { container_id, new_status } => {
                DockerEventView::ContainerStateChange {
                    container_id: container_id@,
                    new_status: *new_status,
                }
            },
        }
    }
}

impl DeepView for DockerEvent {
    type V = DockerEventView;

    open spec fn deep_view(&self) -> DockerEventView {
        self@
    }
}

/// The status that a container has after an action, for the actions that change it.
pub open spec fn action_status(action: Seq<char>) -> Option<ContainerStatus> {
    if action == "start"@ || action == "unpause"@ {
        Some(ContainerStatus::Running)
    } else if action == "die"@ {
        Some(ContainerStatus::Exited(0))
    } else if action == "kill"@ {
        Some(ContainerStatus::Dead)
    } else if action == "pause"@ {
        Some(ContainerStatus::Paused)
    } else if action == "restart"@ {
        Some(ContainerStatus::Restarting)
    } else {
        None
    }
}

/// The change of state that the engine reports with an action on a container.
pub open spec fn change_of(
    action: Option<Seq<char>>,
    actor_id: Option<Seq<char>>,
) -> Option<DockerEventView> {
    match action_status(parser::or_empty(action)) {
        Some(new_status) => Some(
            DockerEventView::ContainerStateChange {
                container_id: text::clip(parser::or_empty(actor_id), SHORT_ID_CHARS as int),
                new_status,
            },
        ),
        None => None,
    }
}

fn status_after(action: &str) -> (r: Option<ContainerStatus>)
    ensures
        r == action_status(action@),
{
    if text::same_text(action, "start") || text::same_text(action, "unpause") {
        Some(ContainerStatus::Running)
    } else if text::same_text(action, "die") {
        Some(ContainerStatus::Exited(0))
    } else if text::same_text(action, "kill") {
        Some(ContainerStatus::Dead)
    } else if text::same_text(action, "pause") {
        Some(ContainerStatus::Paused)
    } else if text::same_text(action, "restart") {
        Some(ContainerStatus::Restarting)
    } else {
        None
    }
}

/// The change of state that the engine reports with an action on a container, if it is one.
pub fn state_change(action: &Option<String>, actor_id: &Option<String>) -> (r: Option<DockerEvent>)
    ensures
        r.deep_view() == change_of(action.deep_view(), actor_id.deep_view()),
{
    match status_after(&parser::text_or_empty(action)) {
        Some(new_status) => {
            let id: String = parser::text_or_empty(actor_id);
            Some(
                DockerEvent::ContainerStateChange {
                    container_id: text::clip_text(&id, SHORT_ID_CHARS),
                    new_status,
                },
            )
        },
        None => None,
    }
}

// ---------------------------------------------------------------------------------------------
// Laws
// ---------------------------------------------------------------------------------------------

/// Every container is in the stack of its project and in no other. As many containers as can be
/// counted are meant.
pub proof fn law_one_stack_for_each_container(
    containers: Seq<ContainerView>,
    stacks: Seq<StackView>,
    k: int,
)
    requires
        containers.len() <= usize::MAX,
        are_stacks(containers, stacks),
        0 <= k < containers.len(),
    ensures
        exists|i: int|
            0 <= i < stacks.len() && (#[trigger] stacks[i]).containers.contains(containers[k])
                && stacks[i].project_name == project_of(containers[k]),
        forall|i: int|
            0 <= i < stacks.len() && (#[trigger] stacks[i]).containers.contains(containers[k])
                ==> stacks[i].project_name == project_of(containers[k]),
{
    let c = containers[k];
    assert(has_project(stacks, project_of(c)));
    let i = choose|i: int|
        0 <= i < stacks.len() && (#[trigger] stacks[i]).project_name == project_of(c);
    let own = containers.filter(in_project(project_of(c)));
    containers.lemma_filter_contains(in_project(project_of(c)), k);
    containers.lemma_filter_len(in_project(project_of(c)));
    let at = choose|at: int| 0 <= at < own.len() && own[at] == c;
    lemma_sorted_contains(own, stacks[i].containers, at);
    assert forall|j: int|
        0 <= j < stacks.len() && (#[trigger] stacks[j]).containers.contains(
            c,
        ) implies stacks[j].project_name == project_of(c) by {
        let p = in_project(stacks[j].project_name);
        let part = containers.filter(p);
        let sorted = stacks[j].containers;
        let x = choose|x: int| 0 <= x < sorted.len() && sorted[x] == c;
        assert(sorted_by_service(part, sorted));
        let order = choose|order: Seq<usize>| #[trigger]
            order::is_order(service_keys(part), order) && sorted == order::permuted(part, order);
        assert(sorted[x] == part[order[x] as int]);
        containers.lemma_filter_pred(p, order[x] as int);
    }
}

/// Sorting containers keeps each of them.
proof fn lemma_sorted_contains(own: Seq<ContainerView>, sorted: Seq<ContainerView>, at: int)
    requires
        own.len() <= usize::MAX,
        sorted_by_service(own, sorted),
        0 <= at < own.len(),
    ensures
        sorted.contains(own[at]),
{
    let order = choose|order: Seq<usize>| #[trigger]
        order::is_order(service_keys(own), order) && sorted == order::permuted(own, order);
    assert(order.contains(at as usize));
    let x = choose|x: int| 0 <= x < order.len() && order[x] == at as usize;
    assert(sorted[x] == own[at]);
}

/// Where all containers of a stack are healthy, none is stopped.
pub proof fn law_healthy_stack_has_none_stopped(containers: Seq<ContainerView>)
    requires
        forall|i: int|
            0 <= i < containers.len() ==> (#[trigger] containers[i]).status
                == ContainerStatus::Running,
    ensures
        containers.filter(|c: ContainerView| !active(c.status)).len() == 0,
{
    seqs::lemma_filter_no_match(containers, |c: ContainerView| !active(c.status));
}

} // verus!

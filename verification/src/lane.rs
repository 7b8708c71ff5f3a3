//! Swim lanes: one per repository or worktree, with its agents and its stacks.
use crate::agent::{Agent, AgentStatus, AgentView};
use crate::docker::{DockerStack, StackView};
use crate::seqs;
use crate::text;
use vstd::prelude::*;

verus! {

#[derive(Debug)]
pub struct RepoLane {
    pub repo_name: String,
    pub project_path: String,
    pub is_lead: bool,
    pub is_scanning: bool,
    pub compose_project_name: Option<String>,
    pub agents: Vec<Agent>,
    pub docker_stacks: Vec<DockerStack>,
}

pub struct LaneView {
    pub repo_name: Seq<char>,
    pub project_path: Seq<char>,
    pub is_lead: bool,
    pub is_scanning: bool,
    pub compose_project_name: Option<Seq<char>>,
    pub agents: Seq<AgentView>,
    pub docker_stacks: Seq<StackView>,
}

impl View for RepoLane {
    type V = LaneView;

    open spec fn view(&self) -> LaneView {
        LaneView {
            repo_name: self.repo_name@,
            project_path: self.project_path@,
            is_lead: self.is_lead,
            is_scanning: self.is_scanning,
            compose_project_name: self.compose_project_name.deep_view(),
            agents: self.agents.deep_view(),
            docker_stacks: self.docker_stacks.deep_view(),
        }
    }
}

impl DeepView for RepoLane {
    type V = LaneView;

    open spec fn deep_view(&self) -> LaneView {
        self@
    }
}

/// The name of a repository: the last component of its path, or the path where it has none.
pub open spec fn repo_name(path: Seq<char>) -> Seq<char> {
    match text::path_name(path) {
        Some(name) => name,
        None => path,
    }
}

/// A lane in which no session has been found yet.
pub open spec fn new_lane(path: Seq<char>, compose: Option<Seq<char>>, is_lead: bool) -> LaneView {
    LaneView {
        repo_name: repo_name(path),
        project_path: path,
        is_lead,
        is_scanning: true,
        compose_project_name: compose,
        agents: Seq::empty(),
        docker_stacks: Seq::empty(),
    }
}

/// Agents that have not completed.
pub open spec fn unfinished() -> spec_fn(AgentView) -> bool {
    |a: AgentView| a.status != AgentStatus::Completed
}

/// The lane's Compose project has a name, but for the case of its letters.
pub open spec fn matches_project(lane: LaneView, project: Seq<char>) -> bool {
    match lane.compose_project_name {
        Some(name) => text::same_ignoring_case(name, project),
        None => false,
    }
}

impl RepoLane {
    pub fn new(
        project_path: String,
        compose_project_name: Option<String>,
        is_lead: bool,
    ) -> (r: RepoLane)
        ensures
            r@ == new_lane(project_path@, compose_project_name.deep_view(), is_lead),
    {
        let repo_name: String = match text::file_name(&project_path) {
            Some(name) => name,
            None => project_path.clone(),
        };
        let r = RepoLane {
            repo_name,
            project_path,
            is_lead,
            is_scanning: true,
            compose_project_name,
            agents: Vec::new(),
            docker_stacks: Vec::new(),
        };
        assert(r@.agents =~= Seq::empty());
        assert(r@.docker_stacks =~= Seq::empty());
        r
    }

    /// Whether an agent of the lane has not completed.
    pub fn has_active_agents(&self) -> (r: bool)
        ensures
            r == seqs::any_where(self@.agents, unfinished()),
    {
        let mut i: usize = 0;
        while i < self.agents.len()
            invariant
                i <= self.agents@.len(),
                forall|j: int| 0 <= j < i ==> !unfinished()(#[trigger] self@.agents[j]),
            decreases self.agents.len() - i,
        {
            if self.agents[i].status != AgentStatus::Completed {
                assert(unfinished()(self@.agents[i as int]));
                return true;
            }
            i += 1;
        }
        false
    }

    pub fn has_docker(&self) -> (r: bool)
        ensures
            r == (self@.docker_stacks.len() > 0),
    {
        self.docker_stacks.len() > 0
    }

    /// Whether a Compose project is the lane's, but for the case of the letters in its name.
    pub fn matches_compose_project(&self, project_name: &str) -> (r: bool)
        ensures
            r == matches_project(self@, project_name@),
    {
        match &self.compose_project_name {
            Some(name) => text::eq_ignore_case(name, project_name),
            None => false,
        }
    }
}

} // verus!

use swarm_monitor::color::Color;
use swarm_monitor::docker::{
    assemble_stacks, container_summary_to_info, state_change, ContainerStats, ContainerStatus,
    ContainerSummary, DockerEvent, StatsSample, POLL_SECS, PROJECT_LABEL, SERVICE_LABEL,
};

fn listed(id: &str, name: &str, state: &str, labels: &[(&str, &str)]) -> ContainerSummary {
    ContainerSummary {
        id: Some(id.to_string()),
        names: Some(vec![name.to_string()]),
        image: Some("img".to_string()),
        state: Some(state.to_string()),
        labels: Some(labels.iter().map(|(k, v)| (k.to_string(), v.to_string())).collect()),
    }
}

fn in_project(id: &str, project: &str, service: &str, state: &str) -> ContainerSummary {
    listed(id, "/n", state, &[(PROJECT_LABEL, project), (SERVICE_LABEL, service)])
}

#[test]
fn states_are_recognised() {
    assert_eq!(ContainerStatus::from_str("running"), ContainerStatus::Running);
    assert_eq!(ContainerStatus::from_str("paused"), ContainerStatus::Paused);
    assert_eq!(ContainerStatus::from_str("restarting"), ContainerStatus::Restarting);
    assert_eq!(ContainerStatus::from_str("dead"), ContainerStatus::Dead);
    assert_eq!(ContainerStatus::from_str("created"), ContainerStatus::Created);
    assert_eq!(ContainerStatus::from_str("Running"), ContainerStatus::Unknown);
    assert_eq!(ContainerStatus::from_str(""), ContainerStatus::Unknown);
}

#[test]
fn exit_codes_are_read() {
    assert_eq!(ContainerStatus::from_str("exited"), ContainerStatus::Exited(0));
    assert_eq!(ContainerStatus::from_str("exited (137)"), ContainerStatus::Exited(137));
    assert_eq!(ContainerStatus::from_str("exited(0) 5 hours ago"), ContainerStatus::Exited(0));
    assert_eq!(ContainerStatus::from_str("exitedexited 2"), ContainerStatus::Exited(2));
    assert_eq!(
        ContainerStatus::from_str("exited 99999999999999999999"),
        ContainerStatus::Exited(0)
    );
}

#[test]
fn status_labels_colors_and_activity() {
    assert_eq!(ContainerStatus::Running.label(), "🟢 running");
    assert_eq!(ContainerStatus::Paused.label(), "⏸  paused");
    assert_eq!(ContainerStatus::Restarting.label(), "🔄 restarting");
    assert_eq!(ContainerStatus::Exited(0).label(), "⚪ exited(0)");
    assert_eq!(ContainerStatus::Exited(1).label(), "🔴 exited(err)");
    assert_eq!(ContainerStatus::Dead.label(), "💀 dead");
    assert_eq!(ContainerStatus::Created.label(), "🔵 created");
    assert_eq!(ContainerStatus::Unknown.label(), "❓ unknown");
    assert_eq!(ContainerStatus::Running.color(), Color::Green);
    assert_eq!(ContainerStatus::Restarting.color(), Color::Yellow);
    assert_eq!(ContainerStatus::Exited(0).color(), Color::DarkGray);
    assert_eq!(ContainerStatus::Exited(2).color(), Color::Red);
    assert_eq!(ContainerStatus::Dead.color(), Color::Red);
    assert_eq!(ContainerStatus::Paused.color(), Color::DarkGray);
    assert!(ContainerStatus::Running.is_active());
    assert!(ContainerStatus::Restarting.is_active());
    assert!(!ContainerStatus::Paused.is_active());
    assert!(!ContainerStatus::Exited(0).is_active());
}

#[test]
fn what_is_kept_of_a_listed_container() {
    let info = container_summary_to_info(
        &listed("0123456789abcdef", "//web-1", "RUNNING", &[(PROJECT_LABEL, "shop")]),
        5,
    );
    assert_eq!(info.id, "0123456789ab");
    assert_eq!(info.name, "web-1");
    assert_eq!(info.image, "img");
    assert_eq!(info.status, ContainerStatus::Running);
    assert_eq!(info.compose_project.as_deref(), Some("shop"));
    assert_eq!(info.compose_service, None);
    assert_eq!(info.service_name(), "web-1");
    assert_eq!(info.stats, ContainerStats::none());
    assert_eq!(info.last_updated, 5);
}

#[test]
fn a_container_of_which_nothing_is_listed() {
    let none = ContainerSummary { id: None, names: None, image: None, state: None, labels: None };
    let info = container_summary_to_info(&none, 0);
    assert_eq!(info.id, "");
    assert_eq!(info.name, "");
    assert_eq!(info.status, ContainerStatus::Unknown);
    assert_eq!(info.project_name(), "unknown");
}

#[test]
fn containers_are_grouped_and_sorted() {
    let stacks = assemble_stacks(
        &vec![
            in_project("1", "shop", "web", "running"),
            in_project("2", "blog", "db", "exited (1)"),
            in_project("3", "shop", "cache", "running"),
            listed("4", "/lone", "running", &[]),
            in_project("5", "shop", "web", "paused"),
        ],
        0,
    );
    let names: Vec<&str> = stacks.iter().map(|s| s.project_name.as_str()).collect();
    assert_eq!(names, ["blog", "shop", "unknown"]);
    let shop: Vec<&str> = stacks[1].containers.iter().map(|c| c.id.as_str()).collect();
    assert_eq!(shop, ["3", "1", "5"]);
    assert_eq!(stacks[1].stopped(), 1);
    assert!(stacks[1].has_running());
    assert!(!stacks[1].all_healthy());
    assert!(!stacks[0].has_running());
    assert!(stacks[2].all_healthy());
    assert_eq!(stacks[2].stopped(), 0);
    assert!(assemble_stacks(&vec![], 0).is_empty());
}

#[test]
fn usage_is_asked_of_active_containers_only() {
    let mut stacks = assemble_stacks(
        &vec![
            in_project("1", "p", "a", "running"),
            in_project("2", "p", "b", "paused"),
            in_project("3", "p", "c", "restarting"),
        ],
        0,
    );
    assert_eq!(
        stacks[0].stats_wanted(),
        vec![Some("1".to_string()), None, Some("3".to_string())]
    );
    let used = ContainerStats { memory_usage: 7, ..ContainerStats::none() };
    stacks[0].apply_stats(&vec![Some(used), None]);
    assert_eq!(stacks[0].containers[0].stats, used);
    assert_eq!(stacks[0].containers[1].stats, ContainerStats::none());
    assert_eq!(stacks[0].containers[2].stats, ContainerStats::none());
}

#[test]
fn samples_with_gaps() {
    let s = ContainerStats::from_sample(Some(StatsSample {
        cpu_total: 10,
        previous_cpu_total: 4,
        system_cpu: Some(100),
        previous_system_cpu: None,
        online_cpus: None,
        memory_usage: None,
        memory_limit: None,
    }));
    assert_eq!(
        s,
        ContainerStats {
            cpu_total: 10,
            previous_cpu_total: 4,
            system_cpu: 100,
            previous_system_cpu: 0,
            online_cpus: 1,
            memory_usage: 0,
            memory_limit: 1,
        }
    );
    assert_eq!(ContainerStats::from_sample(None), ContainerStats::none());
}

fn change(action: &str) -> Option<(String, ContainerStatus)> {
    let id = Some("0123456789abcdef".to_string());
    match state_change(&Some(action.to_string()), &id) {
        Some(DockerEvent::ContainerStateChange { container_id, new_status }) => {
            Some((container_id, new_status))
        }
        Some(_) => panic!("no change of state"),
        None => None,
    }
}

#[test]
fn actions_that_change_a_container() {
    let short = "0123456789ab".to_string();
    assert_eq!(change("start"), Some((short.clone(), ContainerStatus::Running)));
    assert_eq!(change("die"), Some((short.clone(), ContainerStatus::Exited(0))));
    assert_eq!(change("kill"), Some((short.clone(), ContainerStatus::Dead)));
    assert_eq!(change("pause"), Some((short.clone(), ContainerStatus::Paused)));
    assert_eq!(change("unpause"), Some((short.clone(), ContainerStatus::Running)));
    assert_eq!(change("restart"), Some((short, ContainerStatus::Restarting)));
    assert_eq!(change("exec_start"), None);
    assert_eq!(change(""), None);
    assert!(state_change(&None, &None).is_none());
}

#[test]
fn an_action_without_an_actor() {
    match state_change(&Some("start".to_string()), &None) {
        Some(DockerEvent::ContainerStateChange { container_id, .. }) => {
            assert_eq!(container_id, "")
        }
        _ => panic!("no change of state"),
    }
}

#[test]
fn polls_come_every_two_seconds() {
    assert_eq!(POLL_SECS, 2);
}

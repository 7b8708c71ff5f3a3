use std::path::PathBuf;
use swarm_monitor::parser::{Record, RecordType};
use swarm_monitor::watcher::{
    compose_project_name, encode_project_path, first_record_lines, parent_tool_use_id,
    record_lines, scan_entries, was_modified_recently, worktree_path, worktree_paths, DirItem,
    FileItem, ProjectListing, ScanEntry, WatchEvent, Watcher,
};

fn record(record_type: RecordType, call: Option<&str>) -> Record {
    Record {
        record_type,
        uuid: None,
        parent_uuid: None,
        timestamp: None,
        session_id: None,
        cwd: None,
        message: None,
        parent_tool_use_id: call.map(String::from),
        agent_id: None,
        agent_type: None,
        team_name: None,
        is_error: None,
    }
}

fn some_records() -> Vec<Record> {
    vec![record(RecordType::Result, None)]
}

fn item(file: u64, stem: Option<&str>, extension: Option<&str>) -> FileItem {
    FileItem {
        file,
        path: PathBuf::from(format!("/f/{file}")),
        stem: stem.map(String::from),
        extension: extension.map(String::from),
    }
}

fn entry(file: u64, id: &str, parent: Option<&str>) -> ScanEntry {
    ScanEntry {
        project_path: "/lead".to_string(),
        file,
        path: PathBuf::from(format!("/f/{file}")),
        session_id: id.to_string(),
        parent_session_id: parent.map(String::from),
    }
}

fn watcher() -> Watcher {
    Watcher::new("/lead".to_string())
}

#[test]
fn paths_are_encoded_with_dashes() {
    assert_eq!(encode_project_path("/mnt/data/AC"), "-mnt-data-AC");
    assert_eq!(encode_project_path("a-b/c"), "a-b-c");
    assert_eq!(encode_project_path(""), "");
}

#[test]
fn compose_names_are_read() {
    let name = |s: &str| compose_project_name(s);
    assert_eq!(name("A=1\nCOMPOSE_PROJECT_NAME=shop\n").as_deref(), Some("shop"));
    assert_eq!(name("COMPOSE_PROJECT_NAME= \"shop\" \r\nX=2").as_deref(), Some("shop"));
    assert_eq!(name("COMPOSE_PROJECT_NAME='shop'").as_deref(), Some("shop"));
    assert_eq!(name("COMPOSE_PROJECT_NAME=\"'shop'\"").as_deref(), Some("shop"));
    assert_eq!(name("COMPOSE_PROJECT_NAME='\"shop\"'").as_deref(), Some("\"shop\""));
    assert_eq!(name("COMPOSE_PROJECT_NAME=\nCOMPOSE_PROJECT_NAME=b").as_deref(), Some("b"));
    assert_eq!(name(" COMPOSE_PROJECT_NAME=shop"), None);
    assert_eq!(name(""), None);
}

#[test]
fn worktrees_are_found() {
    assert_eq!(worktree_path("/mnt/data/AC/wt-1/.git\n").as_deref(), Some("/mnt/data/AC/wt-1"));
    assert_eq!(worktree_path("  /wt-2 ").as_deref(), Some("/wt-2"));
    assert_eq!(worktree_path("/.git"), None);
    assert_eq!(worktree_path(" \n"), None);
    let dirs = vec!["/a/.git".to_string(), "".to_string(), "/b/.git".to_string()];
    assert_eq!(worktree_paths(&dirs), ["/a", "/b"]);
    assert_eq!(watcher().project_paths(&dirs), ["/lead", "/a", "/b"]);
}

#[test]
fn session_files_are_picked_from_listings() {
    let entries = scan_entries(vec![
        ProjectListing {
            project_path: "/p".to_string(),
            files: vec![
                item(1, Some("s1"), Some("jsonl")),
                item(2, Some("notes"), Some("txt")),
                item(3, None, Some("jsonl")),
                item(4, Some("bare"), None),
            ],
            dirs: vec![
                DirItem { name: Some("s1".to_string()), files: vec![item(5, Some("c1"), Some("jsonl"))] },
                DirItem { name: None, files: vec![item(6, Some("c2"), Some("jsonl"))] },
            ],
        },
        ProjectListing {
            project_path: "/q".to_string(),
            files: vec![item(7, Some("s2"), Some("jsonl"))],
            dirs: vec![],
        },
    ]);
    let seen: Vec<(&str, u64, &str, Option<&str>)> = entries
        .iter()
        .map(|e| {
            (
                e.project_path.as_str(),
                e.file,
                e.session_id.as_str(),
                e.parent_session_id.as_deref(),
            )
        })
        .collect();
    assert_eq!(
        seen,
        [
            ("/p", 1, "s1", None),
            ("/p", 3, "unknown", None),
            ("/p", 5, "c1", Some("s1")),
            ("/q", 7, "s2", None),
        ]
    );
    assert_eq!(entries[0].path, PathBuf::from("/f/1"));
}

#[test]
fn files_grow_old_after_two_hours() {
    assert!(was_modified_recently(Some(7199)));
    assert!(!was_modified_recently(Some(7200)));
    assert!(was_modified_recently(None));
}

#[test]
fn lines_that_hold_records() {
    assert_eq!(record_lines("{1}\n\n  {2} \r\n\t\n{3}"), ["{1}", "{2}", "{3}"]);
    assert!(record_lines("\n\n").is_empty());
    assert_eq!(first_record_lines("1\n\n3\n4\n5\n6\n7"), ["1", "3", "4", "5"]);
    assert_eq!(first_record_lines("1\n2"), ["1", "2"]);
}

#[test]
fn pieces_that_end_at_a_line_lose_nothing() {
    let mut pieces = record_lines("{1}\r\n{2}\n");
    pieces.extend(record_lines("{3}"));
    assert_eq!(pieces, record_lines("{1}\r\n{2}\n{3}"));
}

#[test]
fn the_call_that_spawned_a_session() {
    assert_eq!(
        parent_tool_use_id(&vec![
            record(RecordType::User, Some("no")),
            record(RecordType::System, None),
            record(RecordType::System, Some("yes")),
            record(RecordType::System, Some("late")),
        ])
        .as_deref(),
        Some("yes")
    );
    assert_eq!(parent_tool_use_id(&vec![record(RecordType::User, Some("no"))]), None);
}

#[test]
fn lanes_are_announced_until_the_first_round_ends() {
    let mut w = watcher();
    let paths = vec!["/lead".to_string(), "/wt".to_string()];
    assert!(w.needs_compose("/wt"));
    w.learn_compose("/wt".to_string(), &Some("COMPOSE_PROJECT_NAME=shop".to_string()));
    w.learn_compose("/lead".to_string(), &None);
    assert!(!w.needs_compose("/wt"));
    assert!(!w.needs_compose("/lead"));
    match w.announce(&paths) {
        Some(WatchEvent::LanesDiscovered { paths }) => assert_eq!(
            paths,
            [
                ("/lead".to_string(), true, None),
                ("/wt".to_string(), false, Some("shop".to_string())),
            ]
        ),
        _ => panic!("no lanes"),
    }
    assert!(matches!(w.finish_round(), Some(WatchEvent::ScanComplete)));
    assert!(w.announce(&paths).is_none());
    assert!(w.finish_round().is_none());
}

#[test]
fn files_are_read_on_from_where_they_were_left() {
    let mut w = watcher();
    assert!(w.is_new(1));
    assert!(w.open_file(1, Some(10), Some(100)));
    assert!(!w.is_new(1));
    assert_eq!(w.read_from(1, 100), Some(0));
    w.advance(1, 100);
    assert_eq!(w.read_from(1, 100), None);
    assert!(w.open_file(1, Some(99_999), None));
    assert_eq!(w.read_from(1, 130), Some(100));
    assert_eq!(w.read_from(2, 130), None);
}

#[test]
fn old_files_are_skipped() {
    let mut w = watcher();
    assert!(!w.open_file(1, Some(7200), Some(100)));
    assert!(!w.is_new(1));
    assert_eq!(w.read_from(1, 100), None);
    assert_eq!(w.read_from(1, 101), Some(100));
    assert!(!w.open_file(2, Some(8000), None));
    assert_eq!(w.read_from(2, 1), Some(0));
}

#[test]
fn a_session_is_reported_when_found_and_when_it_grows() {
    let mut w = watcher();
    w.learn_compose("/lead".to_string(), &Some("COMPOSE_PROJECT_NAME=shop".to_string()));
    assert!(w.needs_peek(&entry(1, "s", None), true));
    match w.report(entry(1, "s", None), true, None, vec![]) {
        Some(WatchEvent::SessionUpdate {
            session_id,
            project_path,
            session_file,
            new_records,
            compose_project_name,
            is_lead,
        }) => {
            assert_eq!(session_id, "s");
            assert_eq!(project_path, "/lead");
            assert_eq!(session_file, PathBuf::from("/f/1"));
            assert!(new_records.is_empty());
            assert_eq!(compose_project_name.as_deref(), Some("shop"));
            assert!(is_lead);
        }
        _ => panic!("no session"),
    }
    assert!(w.report(entry(1, "s", None), false, None, vec![]).is_none());
    let mut other = entry(1, "s", None);
    other.project_path = "/wt".to_string();
    match w.report(other, false, None, some_records()) {
        Some(WatchEvent::SessionUpdate { new_records, is_lead, compose_project_name, .. }) => {
            assert_eq!(new_records.len(), 1);
            assert!(!is_lead);
            assert_eq!(compose_project_name, None);
        }
        _ => panic!("no session"),
    }
}

#[test]
fn a_child_under_its_parents_session_stays_a_child() {
    let mut w = watcher();
    assert!(!w.needs_peek(&entry(1, "c", Some("p")), true));
    match w.report(entry(1, "c", Some("p")), true, Some("call".to_string()), vec![]) {
        Some(WatchEvent::ChildDiscovered { parent_tool_use_id, parent_session_id, child_session_id, .. }) => {
            assert_eq!(parent_tool_use_id, "");
            assert_eq!(parent_session_id.as_deref(), Some("p"));
            assert_eq!(child_session_id, "c");
        }
        _ => panic!("no child"),
    }
    assert!(w.report(entry(1, "c", Some("p")), false, None, vec![]).is_none());
    match w.report(entry(1, "c", Some("p")), false, None, some_records()) {
        Some(WatchEvent::ChildDiscovered { parent_session_id, new_records, .. }) => {
            assert_eq!(parent_session_id.as_deref(), Some("p"));
            assert_eq!(new_records.len(), 1);
        }
        _ => panic!("no child"),
    }
}

#[test]
fn a_spawned_child_stays_a_child() {
    let mut w = watcher();
    match w.report(entry(1, "c", None), true, Some("call".to_string()), some_records()) {
        Some(WatchEvent::ChildDiscovered { parent_tool_use_id, parent_session_id, child_session_file, .. }) => {
            assert_eq!(parent_tool_use_id, "call");
            assert_eq!(parent_session_id, None);
            assert_eq!(child_session_file, PathBuf::from("/f/1"));
        }
        _ => panic!("no child"),
    }
    match w.report(entry(1, "c", None), false, None, some_records()) {
        Some(WatchEvent::ChildDiscovered { parent_tool_use_id, parent_session_id, .. }) => {
            assert_eq!(parent_tool_use_id, "");
            assert_eq!(parent_session_id, None);
        }
        _ => panic!("no child"),
    }
}

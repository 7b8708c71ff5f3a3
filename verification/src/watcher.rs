//! Following session files: which there are, what is new in them, and what that says of sessions.
//!
//! The application lists directories and reads files. What it found goes through the functions
//! here, which decide what to read next and which events to report. A file is known here by a
//! number, which the application gives to each path that it meets.
use crate::parser;
use crate::parser::{Record, RecordType};
use crate::seqs;
use crate::text;
use crate::text::CharClass;
use std::collections::HashMap;
use std::path::PathBuf;
use vstd::hash_map::StringHashMap;
use vstd::prelude::*;

verus! {

broadcast use vstd::std_specs::hash::group_hash_axioms;

// ---------------------------------------------------------------------------------------------
// Events
// ---------------------------------------------------------------------------------------------

pub enum WatchEvent {
    /// The lanes that there are: the path of each project, whether it is the lead, and the name
    /// of its Compose project. This comes once, before any session.
    LanesDiscovered { paths: Vec<(String, bool, Option<String>)> },
    /// All session files have been looked at once. This comes once.
    ScanComplete,
    SessionUpdate {
        session_id: String,
        project_path: String,
        session_file: PathBuf,
        new_records: Vec<Record>,
        compose_project_name: Option<String>,
        is_lead: bool,
    },
    ChildDiscovered {
        parent_tool_use_id: String,
        parent_session_id: Option<String>,
        child_session_id: String,
        child_session_file: PathBuf,
        new_records: Vec<Record>,
    },
}

pub enum WatchEventView {
    LanesDiscovered { paths: Seq<(Seq<char>, bool, Option<Seq<char>>)> },
    ScanComplete,
    SessionUpdate {
        session_id: Seq<char>,
        project_path: Seq<char>,
        session_file: PathBuf,
        new_records: Seq<Record>,
        compose_project_name: Option<Seq<char>>,
        is_lead: bool,
    },
    ChildDiscovered {
        parent_tool_use_id: Seq<char>,
        parent_session_id: Option<Seq<char>>,
        child_session_id: Seq<char>,
        child_session_file: PathBuf,
        new_records: Seq<Record>,
    },
}

impl View for WatchEvent {
    type V = WatchEventView;

    open spec fn view(&self) -> WatchEventView {
        match self {
            WatchEvent::LanesDiscovered { paths } => WatchEventView::LanesDiscovered {
                paths: paths.deep_view(),
            },
            WatchEvent::ScanComplete => WatchEventView::ScanComplete,
            WatchEvent::SessionUpdate {
                session_id,
                project_path,
                session_file,
                new_records,
                compose_project_name,
                is_lead,
            } => WatchEventView::SessionUpdate {
                session_id: session_id@,
                project_path: project_path@,
                session_file: *session_file,
                new_records: new_records@,
                compose_project_name: compose_project_name.deep_view(),
                is_lead: *is_lead,
            },
            WatchEvent::ChildDiscovered {
                parent_tool_use_id,
                parent_session_id,
                child_session_id,
                child_session_file,
                new_records,
            } => WatchEventView::ChildDiscovered {
                parent_tool_use_id: parent_tool_use_id@,
                parent_session_id: parent_session_id.deep_view(),
                child_session_id: child_session_id@,
                child_session_file: *child_session_file,
                new_records: new_records@,
            },
        }
    }
}

impl DeepView for WatchEvent {
    type V = WatchEventView;

    open spec fn deep_view(&self) -> WatchEventView {
        self@
    }
}

// ---------------------------------------------------------------------------------------------
// Projects
// ---------------------------------------------------------------------------------------------

/// The name of the directory that holds a project's session files: its path with dashes for the
/// slashes.
pub fn encode_project_path(path: &str) -> (r: String)
    ensures
        r@ == text::replaced(path@, '/', '-'),
{
    text::replace_char(path, '/', '-')
}

/// What a line of an environment file sets the name of the Compose project to, if it does: the
/// text behind the equals sign, without white space, double quotes and single quotes around it.
pub open spec fn line_compose_name(line: Seq<char>) -> Option<Seq<char>> {
    match text::after_prefix(line, "COMPOSE_PROJECT_NAME="@) {
        Some(value) => {
            let name = text::trim(
                text::trim(text::trim(value, CharClass::Space), CharClass::Only('"')),
                CharClass::Only('\''),
            );
            if name.len() > 0 {
                Some(name)
            } else {
                None
            }
        },
        None => None,
    }
}

/// Lines that set the name of the Compose project.
pub open spec fn names_project() -> spec_fn(Seq<char>) -> bool {
    |line: Seq<char>| line_compose_name(line) is Some
}

/// The name of the Compose project in an environment file: that of the first line that sets it.
pub open spec fn compose_name(content: Seq<char>) -> Option<Seq<char>> {
    let lines = text::lines(content);
    let i = seqs::first_where(lines, names_project());
    if i < lines.len() {
        line_compose_name(lines[i])
    } else {
        None
    }
}

/// What a line of an environment file sets the name of the Compose project to, if it does.
fn line_compose_project_name(line: &str) -> (r: Option<String>)
    ensures
        r.deep_view() == line_compose_name(line@),
{
    match text::strip_prefix(line, "COMPOSE_PROJECT_NAME=") {
        Some(value) => {
            let bare: String = text::trim_text(&value, CharClass::Space);
            let unquoted: String = text::trim_text(&bare, CharClass::Only('"'));
            let name: String = text::trim_text(&unquoted, CharClass::Only('\''));
            if name.as_str().is_empty() {
                None
            } else {
                Some(name)
            }
        },
        None => None,
    }
}

/// The name of the Compose project in an environment file.
pub fn compose_project_name(content: &str) -> (r: Option<String>)
    ensures
        r.deep_view() == compose_name(content@),
{
    let lines: Vec<String> = text::split_lines(content);
    let ghost all = text::lines(content@);
    let mut i: usize = 0;
    while i < lines.len()
        invariant
            i <= lines@.len(),
            all == lines.deep_view(),
            all == text::lines(content@),
            forall|j: int| 0 <= j < i ==> !names_project()(#[trigger] all[j]),
        decreases lines.len() - i,
    {
        let found: Option<String> = line_compose_project_name(&lines[i]);
        assert(all[i as int] == lines@[i as int]@);
        if found.is_some() {
            proof {
                assert(names_project()(all[i as int]));
                seqs::lemma_is_first(all, names_project(), i as int);
            }
            return found;
        }
        assert(!names_project()(all[i as int]));
        i += 1;
    }
    proof {
        seqs::lemma_is_first(all, names_project(), i as int);
    }
    None
}

/// The path of a worktree, from the file that points to its `.git`. White space around it does
/// not count, and there is none where nothing is left.
pub open spec fn worktree_of(gitdir: Seq<char>) -> Option<Seq<char>> {
    let trimmed = text::trim(gitdir, CharClass::Space);
    let path = if "/.git"@.is_suffix_of(trimmed) {
        trimmed.take(trimmed.len() - "/.git"@.len())
    } else {
        trimmed
    };
    if path.len() > 0 {
        Some(path)
    } else {
        None
    }
}

/// The paths of worktrees, in order.
pub open spec fn worktrees_of(gitdirs: Seq<Seq<char>>) -> Seq<Seq<char>>
    decreases gitdirs.len(),
{
    if gitdirs.len() == 0 {
        Seq::empty()
    } else {
        let rest = worktrees_of(gitdirs.drop_last());
        match worktree_of(gitdirs.last()) {
            Some(path) => rest.push(path),
            None => rest,
        }
    }
}

/// The path of a worktree, from the file that points to its `.git`.
pub fn worktree_path(gitdir: &str) -> (r: Option<String>)
    ensures
        r.deep_view() == worktree_of(gitdir@),
{
    let trimmed: String = text::trim_text(gitdir, CharClass::Space);
    let path: String = if text::ends_with(&trimmed, "/.git") {
        let n: usize = text::to_chars(&trimmed).len();
        let suffix: usize = text::to_chars("/.git").len();
        text::clip_text(&trimmed, n - suffix)
    } else {
        trimmed
    };
    if path.as_str().is_empty() {
        None
    } else {
        Some(path)
    }
}

/// The paths of worktrees, from the files that point to their `.git`.
pub fn worktree_paths(gitdirs: &Vec<String>) -> (r: Vec<String>)
    ensures
        r.deep_view() == worktrees_of(gitdirs.deep_view()),
{
    let ghost all = gitdirs.deep_view();
    let mut r: Vec<String> = Vec::new();
    assert(r.deep_view() =~= worktrees_of(all.take(0)));
    let mut i: usize = 0;
    while i < gitdirs.len()
        invariant
            i <= gitdirs@.len(),
            all == gitdirs.deep_view(),
            r.deep_view() == worktrees_of(all.take(i as int)),
        decreases gitdirs.len() - i,
    {
        let ghost before = r.deep_view();
        assert(all[i as int] == gitdirs@[i as int]@);
        match worktree_path(&gitdirs[i]) {
            Some(path) => {
                r.push(path);
                assert(r.deep_view() =~= before.push(path@));
            },
            None => {},
        }
        proof {
            assert(all.take(i + 1).drop_last() =~= all.take(i as int));
            assert(all.take(i + 1).last() == all[i as int]);
        }
        i += 1;
    }
    assert(all.take(i as int) =~= all);
    r
}

// ---------------------------------------------------------------------------------------------
// Listings
// ---------------------------------------------------------------------------------------------

/// A file of a listing, with the two parts of its name that are text.
pub struct FileItem {
    pub file: u64,
    pub path: PathBuf,
    pub stem: Option<String>,
    pub extension: Option<String>,
}

/// A directory beside the session files, with the files of its `subagents` directory. Its name is
/// there where it is text.
pub struct DirItem {
    pub name: Option<String>,
    pub files: Vec<FileItem>,
}

/// What the directory of a project's session files holds.
pub struct ProjectListing {
    pub project_path: String,
    pub files: Vec<FileItem>,
    pub dirs: Vec<DirItem>,
}

/// A session file. One that was found under the name of a session is of a child of that session.
pub struct ScanEntry {
    pub project_path: String,
    pub file: u64,
    pub path: PathBuf,
    pub session_id: String,
    pub parent_session_id: Option<String>,
}

pub struct ScanEntryView {
    pub project_path: Seq<char>,
    pub file: u64,
    pub path: PathBuf,
    pub session_id: Seq<char>,
    pub parent_session_id: Option<Seq<char>>,
}

impl View for ScanEntry {
    type V = ScanEntryView;

    open spec fn view(&self) -> ScanEntryView {
        ScanEntryView {
            project_path: self.project_path@,
            file: self.file,
            path: self.path,
            session_id: self.session_id@,
            parent_session_id: self.parent_session_id.deep_view(),
        }
    }
}

impl DeepView for ScanEntry {
    type V = ScanEntryView;

    open spec fn deep_view(&self) -> ScanEntryView {
        self@
    }
}

/// A session goes by the name of its file; one whose name is no text is `unknown`.
pub open spec fn session_name(stem: Option<Seq<char>>) -> Seq<char> {
    match stem {
        Some(name) => name,
        None => "unknown"@,
    }
}

/// The session file that a file of a listing is. Only files with the extension `jsonl` are.
pub open spec fn entry_of(
    project: Seq<char>,
    parent: Option<Seq<char>>,
    item: FileItem,
) -> Option<ScanEntryView> {
    if item.extension.deep_view() == Some("jsonl"@) {
        Some(
            ScanEntryView {
                project_path: project,
                file: item.file,
                path: item.path,
                session_id: session_name(item.stem.deep_view()),
                parent_session_id: parent,
            },
        )
    } else {
        None
    }
}

/// The session files among the files of a listing, in order.
pub open spec fn entries_of(
    project: Seq<char>,
    parent: Option<Seq<char>>,
    items: Seq<FileItem>,
) -> Seq<ScanEntryView>
    decreases items.len(),
{
    if items.len() == 0 {
        Seq::empty()
    } else {
        let rest = entries_of(project, parent, items.drop_last());
        match entry_of(project, parent, items.last()) {
            Some(entry) => rest.push(entry),
            None => rest,
        }
    }
}

/// The session files of children, in order. A directory whose name is no text has none.
pub open spec fn child_entries_of(project: Seq<char>, dirs: Seq<DirItem>) -> Seq<ScanEntryView>
    decreases dirs.len(),
{
    if dirs.len() == 0 {
        Seq::empty()
    } else {
        let rest = child_entries_of(project, dirs.drop_last());
        match dirs.last().name {
            Some(name) => rest + entries_of(project, Some(name@), dirs.last().files@),
            None => rest,
        }
    }
}

/// The session files of a project: its sessions, and then their children.
pub open spec fn listing_entries(listing: ProjectListing) -> Seq<ScanEntryView> {
    entries_of(listing.project_path@, None, listing.files@) + child_entries_of(
        listing.project_path@,
        listing.dirs@,
    )
}

/// The session files of projects, in order.
pub open spec fn all_entries(listings: Seq<ProjectListing>) -> Seq<ScanEntryView>
    decreases listings.len(),
{
    if listings.len() == 0 {
        Seq::empty()
    } else {
        all_entries(listings.drop_last()) + listing_entries(listings.last())
    }
}

/// Adds the session files among the files of a listing.
fn push_entries(
    entries: &mut Vec<ScanEntry>,
    project: &str,
    parent: &Option<String>,
    items: Vec<FileItem>,
)
    ensures
        final(entries).deep_view() == old(entries).deep_view() + entries_of(
            project@,
            parent.deep_view(),
            items@,
        ),
{
    let ghost before = entries.deep_view();
    let ghost all = items@;
    let ghost outer = parent.deep_view();
    assert(before + entries_of(project@, outer, all.take(0)) =~= before);
    for item in it: items
        invariant
            it.seq() == all,
            outer == parent.deep_view(),
            entries.deep_view() == before + entries_of(
                project@,
                outer,
                all.take(it.index() as int),
            ),
    {
        let ghost at = it.index() as int;
        let ghost done = entries.deep_view();
        assert(item == all[at]);
        proof {
            assert(all.take(at + 1).drop_last() =~= all.take(at));
            assert(all.take(at + 1).last() == all[at]);
        }
        let is_session_file: bool = match &item.extension {
            Some(extension) => text::same_text(extension, "jsonl"),
            None => false,
        };
        if is_session_file {
            let session_id: String = match item.stem {
                Some(stem) => stem,
                None => "unknown".to_string(),
            };
            let entry = ScanEntry {
                project_path: project.to_string(),
                file: item.file,
                path: item.path,
                session_id,
                parent_session_id: text::copy_option(parent),
            };
            entries.push(entry);
            proof {
                assert(entries.deep_view() =~= done.push(entry@));
                assert(entry_of(project@, outer, all[at]) == Some(entry@));
            }
        }
        assert(entries.deep_view() =~= before + entries_of(project@, outer, all.take(at + 1)));
    }
    assert(all.take(all.len() as int) =~= all);
}

/// The session files of projects: for each project its sessions, and then their children.
pub fn scan_entries(listings: Vec<ProjectListing>) -> (r: Vec<ScanEntry>)
    ensures
        r.deep_view() == all_entries(listings@),
{
    let ghost all = listings@;
    let mut r: Vec<ScanEntry> = Vec::new();
    assert(r.deep_view() =~= all_entries(all.take(0)));
    for listing in it: listings
        invariant
            it.seq() == all,
            r.deep_view() == all_entries(all.take(it.index() as int)),
    {
        let ghost at = it.index() as int;
        let ghost before = r.deep_view();
        assert(listing == all[at]);
        let project: String = listing.project_path;
        push_entries(&mut r, &project, &None, listing.files);
        let ghost sessions = r.deep_view();
        let ghost dirs = listing.dirs@;
        assert(sessions + child_entries_of(project@, dirs.take(0)) =~= sessions);
        for dir in jt: listing.dirs
            invariant
                jt.seq() == dirs,
                r.deep_view() == sessions + child_entries_of(
                    project@,
                    dirs.take(jt.index() as int),
                ),
        {
            let ghost k = jt.index() as int;
            let ghost done = r.deep_view();
            assert(dir == dirs[k]);
            proof {
                assert(dirs.take(k + 1).drop_last() =~= dirs.take(k));
                assert(dirs.take(k + 1).last() == dirs[k]);
            }
            if dir.name.is_some() {
                push_entries(&mut r, &project, &dir.name, dir.files);
            }
            assert(r.deep_view() =~= sessions + child_entries_of(project@, dirs.take(k + 1)));
        }
        proof {
            assert(dirs.take(dirs.len() as int) =~= dirs);
            assert(all.take(at + 1).drop_last() =~= all.take(at));
            assert(all.take(at + 1).last() == all[at]);
            assert(r.deep_view() =~= before + listing_entries(all[at]));
        }
    }
    assert(all.take(all.len() as int) =~= all);
    r
}

// ---------------------------------------------------------------------------------------------
// Contents
// ---------------------------------------------------------------------------------------------

/// Milliseconds between two rounds over the session files.
pub const ROUND_MILLIS: u64 = 500;

/// Seconds after which a file that was not written to counts as old.
pub const MAX_AGE_SECS: u64 = 7200;

/// The lines at the start of a file among which the call that spawned it is looked for.
pub const PEEKED_LINES: usize = 5;

/// A file counts as recent unless it is known to have gone unchanged for too long.
pub open spec fn recent(age_secs: Option<u64>) -> bool {
    match age_secs {
        Some(age) => age < MAX_AGE_SECS,
        None => true,
    }
}

/// Whether a file has been written to recently. The age is missing where it cannot be told.
pub fn was_modified_recently(age_secs: Option<u64>) -> (r: bool)
    ensures
        r == recent(age_secs),
{
    match age_secs {
        Some(age) => age < MAX_AGE_SECS,
        None => true,
    }
}

/// The record texts of lines, in order.
pub open spec fn records_on(lines: Seq<Seq<char>>) -> Seq<Seq<char>>
    decreases lines.len(),
{
    if lines.len() == 0 {
        Seq::empty()
    } else {
        let rest = records_on(lines.drop_last());
        match parser::line_record(lines.last()) {
            Some(record) => rest.push(record),
            None => rest,
        }
    }
}

/// The record texts of the first `n` of the lines.
fn records_on_lines(lines: &Vec<String>, n: usize) -> (r: Vec<String>)
    requires
        n <= lines@.len(),
    ensures
        r.deep_view() == records_on(lines.deep_view().take(n as int)),
{
    let ghost all = lines.deep_view();
    let mut r: Vec<String> = Vec::new();
    assert(r.deep_view() =~= records_on(all.take(0)));
    let mut i: usize = 0;
    while i < n
        invariant
            i <= n <= lines@.len(),
            all == lines.deep_view(),
            r.deep_view() == records_on(all.take(i as int)),
        decreases n - i,
    {
        let ghost before = r.deep_view();
        assert(all[i as int] == lines@[i as int]@);
        match parser::record_text(&lines[i]) {
            Some(record) => {
                r.push(record);
                assert(r.deep_view() =~= before.push(record@));
            },
            None => {},
        }
        proof {
            assert(all.take(i + 1).drop_last() =~= all.take(i as int));
            assert(all.take(i + 1).last() == all[i as int]);
        }
        i += 1;
    }
    r
}

/// The texts from which the records of a piece of a session file are read.
pub fn record_lines(content: &str) -> (r: Vec<String>)
    ensures
        r.deep_view() == records_on(text::lines(content@)),
{
    let lines: Vec<String> = text::split_lines(content);
    let r: Vec<String> = records_on_lines(&lines, lines.len());
    assert(lines.deep_view().take(lines@.len() as int) =~= lines.deep_view());
    r
}

/// The first few lines of a file, or all where there are fewer.
pub open spec fn first_lines(content: Seq<char>) -> Seq<Seq<char>> {
    let lines = text::lines(content);
    if lines.len() < PEEKED_LINES {
        lines
    } else {
        lines.take(PEEKED_LINES as int)
    }
}

/// The texts from which the first records of a session file are read.
pub fn first_record_lines(content: &str) -> (r: Vec<String>)
    ensures
        r.deep_view() == records_on(first_lines(content@)),
{
    let lines: Vec<String> = text::split_lines(content);
    let n: usize = if lines.len() < PEEKED_LINES {
        lines.len()
    } else {
        PEEKED_LINES
    };
    assert(lines.deep_view().take(lines@.len() as int) =~= lines.deep_view());
    records_on_lines(&lines, n)
}

/// System records that name the tool call that spawned their session.
pub open spec fn names_call() -> spec_fn(Record) -> bool {
    |r: Record| r.record_type == RecordType::System && r.parent_tool_use_id is Some
}

/// The tool call that spawned a session, as the first of its records that names one says.
pub open spec fn spawning_call(records: Seq<Record>) -> Option<Seq<char>> {
    let i = seqs::first_where(records, names_call());
    if i < records.len() {
        records[i].parent_tool_use_id.deep_view()
    } else {
        None
    }
}

/// The tool call that spawned a session, from its first records.
pub fn parent_tool_use_id(records: &Vec<Record>) -> (r: Option<String>)
    ensures
        r.deep_view() == spawning_call(records@),
{
    let mut i: usize = 0;
    while i < records.len()
        invariant
            i <= records@.len(),
            forall|j: int| 0 <= j < i ==> !names_call()(#[trigger] records@[j]),
        decreases records.len() - i,
    {
        if records[i].record_type == RecordType::System {
            if records[i].parent_tool_use_id.is_some() {
                proof {
                    assert(names_call()(records@[i as int]));
                    seqs::lemma_is_first(records@, names_call(), i as int);
                }
                return text::copy_option(&records[i].parent_tool_use_id);
            }
        }
        assert(!names_call()(records@[i as int]));
        i += 1;
    }
    proof {
        seqs::lemma_is_first(records@, names_call(), i as int);
    }
    None
}

// ---------------------------------------------------------------------------------------------
// The watcher
// ---------------------------------------------------------------------------------------------

/// How a child session was recognised.
pub enum ChildKind {
    /// By a record that names the tool call that spawned it.
    ByToolUseId,
    /// By the session whose directory holds it.
    BySessionId(String),
}

pub enum ChildKindView {
    ByToolUseId,
    BySessionId(Seq<char>),
}

impl View for ChildKind {
    type V = ChildKindView;

    open spec fn view(&self) -> ChildKindView {
        match self {
            ChildKind::ByToolUseId => ChildKindView::ByToolUseId,
            ChildKind::BySessionId(parent) => ChildKindView::BySessionId(parent@),
        }
    }
}

/// What is remembered of the files and projects that have been looked at.
pub struct Watcher {
    pub lead_path: String,
    /// How much of each file has been read, in bytes.
    pub offsets: HashMap<u64, u64>,
    pub child_kind: HashMap<u64, ChildKind>,
    /// The name of each project's Compose project.
    pub compose_cache: StringHashMap<Option<String>>,
    pub first_scan: bool,
}

pub struct WatcherView {
    pub lead_path: Seq<char>,
    pub offsets: Map<u64, u64>,
    pub child_kind: Map<u64, ChildKindView>,
    pub compose: Map<Seq<char>, Option<Seq<char>>>,
    pub first_scan: bool,
}

pub open spec fn kind_map(m: Map<u64, ChildKind>) -> Map<u64, ChildKindView> {
    m.map_values(|k: ChildKind| k@)
}

pub open spec fn name_map(m: Map<Seq<char>, Option<String>>) -> Map<Seq<char>, Option<Seq<char>>> {
    m.map_values(|s: Option<String>| s.deep_view())
}

impl View for Watcher {
    type V = WatcherView;

    open spec fn view(&self) -> WatcherView {
        WatcherView {
            lead_path: self.lead_path@,
            offsets: self.offsets@,
            child_kind: kind_map(self.child_kind@),
            compose: name_map(self.compose_cache@),
            first_scan: self.first_scan,
        }
    }
}

/// Every file that is known to be of a child has been opened.
pub open spec fn well_formed(w: WatcherView) -> bool {
    forall|file: u64| #[trigger] w.child_kind.contains_key(file) ==> w.offsets.contains_key(file)
}

/// A watcher that has looked at nothing yet.
pub open spec fn new_watcher(lead_path: Seq<char>) -> WatcherView {
    WatcherView {
        lead_path,
        offsets: Map::empty(),
        child_kind: Map::empty(),
        compose: Map::empty(),
        first_scan: true,
    }
}

/// The name of a project's Compose project, as far as it is remembered.
pub open spec fn compose_of(w: WatcherView, path: Seq<char>) -> Option<Seq<char>> {
    if w.compose.contains_key(path) {
        w.compose[path]
    } else {
        None
    }
}

/// The lanes of projects.
pub open spec fn lanes_of(
    w: WatcherView,
    paths: Seq<Seq<char>>,
) -> Seq<(Seq<char>, bool, Option<Seq<char>>)> {
    Seq::new(
        paths.len(),
        |i: int| (paths[i], paths[i] == w.lead_path, compose_of(w, paths[i])),
    )
}

/// What is remembered once a file has been opened, with nothing read of it yet. One that has not
/// been opened before and is old counts as read to its end, if that is known.
pub open spec fn file_opened(
    w: WatcherView,
    file: u64,
    age_secs: Option<u64>,
    len: Option<u64>,
) -> WatcherView {
    if w.offsets.contains_key(file) {
        w
    } else {
        WatcherView {
            offsets: w.offsets.insert(
                file,
                if !recent(age_secs) && len is Some {
                    len->0
                } else {
                    0
                },
            ),
            ..w
        }
    }
}

/// The position from which a file of a length is to be read on, if there is anything new in it.
pub open spec fn resume_at(w: WatcherView, file: u64, len: u64) -> Option<u64> {
    if w.offsets.contains_key(file) && len > w.offsets[file] {
        Some(w.offsets[file])
    } else {
        None
    }
}

/// What is remembered once so many bytes more of a file have been read.
pub open spec fn advanced(w: WatcherView, file: u64, read: u64) -> WatcherView {
    WatcherView { offsets: w.offsets.insert(file, (w.offsets[file] + read) as u64), ..w }
}

/// What is remembered once the environment file of a project has been looked for.
pub open spec fn compose_learned(
    w: WatcherView,
    path: Seq<char>,
    content: Option<Seq<char>>,
) -> WatcherView {
    WatcherView {
        compose: w.compose.insert(
            path,
            match content {
                Some(c) => compose_name(c),
                None => None,
            },
        ),
        ..w
    }
}

/// The paths of the projects to watch.
pub open spec fn watched_paths(w: WatcherView, gitdirs: Seq<Seq<char>>) -> Seq<Seq<char>> {
    seq![w.lead_path] + worktrees_of(gitdirs)
}

/// The announcement of the lanes, as long as it is due.
pub open spec fn announcement(w: WatcherView, paths: Seq<Seq<char>>) -> Option<WatchEventView> {
    if w.first_scan {
        Some(WatchEventView::LanesDiscovered { paths: lanes_of(w, paths) })
    } else {
        None
    }
}

/// What is remembered after a round over all session files.
pub open spec fn round_over(w: WatcherView) -> WatcherView {
    WatcherView { first_scan: false, ..w }
}

/// What is reported after a round over all session files.
pub open spec fn round_report(w: WatcherView) -> Option<WatchEventView> {
    if w.first_scan {
        Some(WatchEventView::ScanComplete)
    } else {
        None
    }
}

/// What is remembered once a session file has been read for the first time.
pub open spec fn kind_learned(
    w: WatcherView,
    entry: ScanEntryView,
    spawned_by: Option<Seq<char>>,
) -> WatcherView {
    match entry.parent_session_id {
        Some(parent) => WatcherView {
            child_kind: w.child_kind.insert(entry.file, ChildKindView::BySessionId(parent)),
            ..w
        },
        None => if spawned_by is Some {
            WatcherView {
                child_kind: w.child_kind.insert(entry.file, ChildKindView::ByToolUseId),
                ..w
            }
        } else {
            w
        },
    }
}

/// The event that records of a child say of it.
pub open spec fn child_event(
    entry: ScanEntryView,
    spawned_by: Seq<char>,
    parent: Option<Seq<char>>,
    records: Seq<Record>,
) -> WatchEventView {
    WatchEventView::ChildDiscovered {
        parent_tool_use_id: spawned_by,
        parent_session_id: parent,
        child_session_id: entry.session_id,
        child_session_file: entry.path,
        new_records: records,
    }
}

/// The event that records of a session say of it.
pub open spec fn session_event(
    w: WatcherView,
    entry: ScanEntryView,
    records: Seq<Record>,
) -> WatchEventView {
    WatchEventView::SessionUpdate {
        session_id: entry.session_id,
        project_path: entry.project_path,
        session_file: entry.path,
        new_records: records,
        compose_project_name: compose_of(w, entry.project_path),
        is_lead: entry.project_path == w.lead_path,
    }
}

/// The parent session of a file that is known to be of a child.
pub open spec fn known_parent(w: WatcherView, file: u64) -> Option<Seq<char>> {
    match w.child_kind[file] {
        ChildKindView::BySessionId(parent) => Some(parent),
        ChildKindView::ByToolUseId => None,
    }
}

/// The event that a session file gives rise to, if any, when `records` are what is new in it. A
/// file that is new and lies under the name of a session, or that a tool call spawned, is of a
/// child, and so is one that was recognised as such before. A file in which nothing is new is
/// reported only when it is new itself.
pub open spec fn event_of(
    w: WatcherView,
    entry: ScanEntryView,
    is_new: bool,
    spawned_by: Option<Seq<char>>,
    records: Seq<Record>,
) -> Option<WatchEventView> {
    if is_new && entry.parent_session_id is Some {
        Some(child_event(entry, Seq::empty(), entry.parent_session_id, records))
    } else if is_new && spawned_by is Some {
        Some(child_event(entry, spawned_by->0, None, records))
    } else if w.child_kind.contains_key(entry.file) {
        if records.len() > 0 {
            Some(child_event(entry, Seq::empty(), known_parent(w, entry.file), records))
        } else {
            None
        }
    } else if records.len() > 0 || is_new {
        Some(session_event(w, entry, records))
    } else {
        None
    }
}

proof fn lemma_kind_map_insert(m: Map<u64, ChildKind>, file: u64, kind: ChildKind)
    ensures
        kind_map(m.insert(file, kind)) == kind_map(m).insert(file, kind@),
{
    assert(kind_map(m.insert(file, kind)) =~= kind_map(m).insert(file, kind@));
}

impl Watcher {
    pub fn new(lead_path: String) -> (r: Watcher)
        ensures
            r@ == new_watcher(lead_path@),
            well_formed(r@),
    {
        let r = Watcher {
            lead_path,
            offsets: HashMap::new(),
            child_kind: HashMap::new(),
            compose_cache: StringHashMap::new(),
            first_scan: true,
        };
        assert(r@.offsets =~= Map::empty());
        assert(r@.child_kind =~= Map::empty());
        assert(r@.compose =~= Map::empty());
        r
    }

    /// The paths of the projects to watch: the lead, and then its worktrees.
    pub fn project_paths(&self, gitdirs: &Vec<String>) -> (r: Vec<String>)
        ensures
            r.deep_view() == seq![self@.lead_path] + worktrees_of(gitdirs.deep_view()),
            r.deep_view() == watched_paths(self@, gitdirs.deep_view()),
    {
        let mut r: Vec<String> = Vec::new();
        r.push(self.lead_path.clone());
        let mut rest: Vec<String> = worktree_paths(gitdirs);
        let ghost worktrees = rest.deep_view();
        let ghost lead = r.deep_view();
        r.append(&mut rest);
        assert(lead =~= seq![self@.lead_path]);
        assert(r.deep_view() =~= lead + worktrees);
        r
    }

    /// Whether the name of a project's Compose project has not been looked up yet.
    pub fn needs_compose(&self, path: &str) -> (r: bool)
        ensures
            r == !self@.compose.contains_key(path@),
    {
        !self.compose_cache.contains_key(path)
    }

    /// Remembers the name of a project's Compose project, from the environment file of the
    /// project where there is one.
    pub fn learn_compose(&mut self, path: String, content: &Option<String>)
        ensures
            final(self)@ == (WatcherView {
                compose: old(self)@.compose.insert(
                    path@,
                    match *content {
                        Some(c) => compose_name(c@),
                        None => None,
                    },
                ),
                ..old(self)@
            }),
            final(self)@ == compose_learned(old(self)@, path@, content.deep_view()),
            well_formed(old(self)@) ==> well_formed(final(self)@),
    {
        let name: Option<String> = match content {
            Some(c) => compose_project_name(c),
            None => None,
        };
        let ghost before = self@;
        self.compose_cache.insert(path, name);
        assert(self@.compose =~= before.compose.insert(path@, name.deep_view()));
    }

    /// The name of a project's Compose project, as far as it is remembered.
    fn compose_for(&self, path: &str) -> (r: Option<String>)
        ensures
            r.deep_view() == compose_of(self@, path@),
    {
        match self.compose_cache.get(path) {
            Some(name) => text::copy_option(name),
            None => None,
        }
    }

    /// Announces the lanes of the projects, until the first scan is over.
    pub fn announce(&self, paths: &Vec<String>) -> (r: Option<WatchEvent>)
        ensures
            r.deep_view() == if self@.first_scan {
                Some(
                    WatchEventView::LanesDiscovered { paths: lanes_of(self@, paths.deep_view()) },
                )
            } else {
                None
            },
            r.deep_view() == announcement(self@, paths.deep_view()),
    {
        if !self.first_scan {
            return None;
        }
        let ghost all = paths.deep_view();
        let mut lanes: Vec<(String, bool, Option<String>)> = Vec::new();
        let mut i: usize = 0;
        while i < paths.len()
            invariant
                i <= paths@.len(),
                all == paths.deep_view(),
                lanes@.len() == i,
                forall|j: int|
                    0 <= j < i ==> #[trigger] lanes.deep_view()[j] == lanes_of(self@, all)[j],
            decreases paths.len() - i,
        {
            let ghost before = lanes.deep_view();
            assert(all[i as int] == paths@[i as int]@);
            lanes.push(
                (
                    paths[i].clone(),
                    text::same_text(&paths[i], &self.lead_path),
                    self.compose_for(&paths[i]),
                ),
            );
            assert forall|j: int| 0 <= j < i implies #[trigger] lanes.deep_view()[j]
                == before[j] by {}
            i += 1;
        }
        assert(lanes.deep_view() =~= lanes_of(self@, all));
        Some(WatchEvent::LanesDiscovered { paths: lanes })
    }

    /// Whether a file has not been opened before.
    pub fn is_new(&self, file: u64) -> (r: bool)
        ensures
            r == !self@.offsets.contains_key(file),
    {
        !self.offsets.contains_key(&file)
    }

    /// Opens a file, and says whether it is to be read. Where it has not been opened before, its
    /// age in seconds and its length in bytes tell whether it is old, as far as they are known: an
    /// old file is skipped.
    pub fn open_file(&mut self, file: u64, age_secs: Option<u64>, len: Option<u64>) -> (r: bool)
        ensures
            final(self)@ == file_opened(old(self)@, file, age_secs, len),
            r == (old(self)@.offsets.contains_key(file) || recent(age_secs)),
            well_formed(old(self)@) ==> well_formed(final(self)@),
    {
        if !self.is_new(file) {
            return true;
        }
        if was_modified_recently(age_secs) {
            self.offsets.insert(file, 0);
            return true;
        }
        let end: u64 = match len {
            Some(n) => n,
            None => 0,
        };
        self.offsets.insert(file, end);
        false
    }

    /// The position from which a file of a length in bytes is to be read on, if there is anything
    /// new in it.
    pub fn read_from(&self, file: u64, len: u64) -> (r: Option<u64>)
        ensures
            r == if self@.offsets.contains_key(file) && len > self@.offsets[file] {
                Some(self@.offsets[file])
            } else {
                None
            },
            r == resume_at(self@, file, len),
    {
        match self.offsets.get(&file) {
            Some(offset) => {
                if len <= *offset {
                    None
                } else {
                    Some(*offset)
                }
            },
            None => None,
        }
    }

    /// Remembers that so many bytes more of a file have been read.
    pub fn advance(&mut self, file: u64, read: u64)
        requires
            old(self)@.offsets.contains_key(file),
            old(self)@.offsets[file] + read <= u64::MAX,
        ensures
            final(self)@ == (WatcherView {
                offsets: old(self)@.offsets.insert(file, (old(self)@.offsets[file] + read) as u64),
                ..old(self)@
            }),
            final(self)@ == advanced(old(self)@, file, read),
            well_formed(old(self)@) ==> well_formed(final(self)@),
    {
        let offset: u64 = match self.offsets.get(&file) {
            Some(n) => *n,
            None => 0,
        };
        self.offsets.insert(file, offset + read);
    }

    /// Whether the first records of a file are to be searched for the call that spawned it.
    pub fn needs_peek(&self, entry: &ScanEntry, is_new: bool) -> (r: bool)
        ensures
            r == (is_new && entry@.parent_session_id is None),
    {
        is_new && entry.parent_session_id.is_none()
    }

    /// Reports on a session file. `spawned_by` is the tool call that spawned it, which is looked
    /// for where the file is new, and `new_records` are what is new in it.
    pub fn report(
        &mut self,
        entry: ScanEntry,
        is_new: bool,
        spawned_by: Option<String>,
        new_records: Vec<Record>,
    ) -> (r: Option<WatchEvent>)
        ensures
            r.deep_view() == event_of(
                old(self)@,
                entry@,
                is_new,
                spawned_by.deep_view(),
                new_records@,
            ),
            match r.deep_view() {
                Some(WatchEventView::SessionUpdate { new_records: told, .. }) => told
                    == new_records@,
                Some(WatchEventView::ChildDiscovered { new_records: told, .. }) => told
                    == new_records@,
                Some(_) => false,
                None => new_records@.len() == 0,
            },
            final(self)@ == if is_new {
                kind_learned(old(self)@, entry@, spawned_by.deep_view())
            } else {
                old(self)@
            },
            well_formed(old(self)@) && old(self)@.offsets.contains_key(entry.file) ==> well_formed(
                final(self)@,
            ),
    {
        let ghost kinds = self.child_kind@;
        if is_new {
            if let Some(parent) = &entry.parent_session_id {
                let kind = ChildKind::BySessionId(parent.clone());
                proof {
                    lemma_kind_map_insert(kinds, entry.file, kind);
                }
                self.child_kind.insert(entry.file, kind);
                return Some(
                    WatchEvent::ChildDiscovered {
                        parent_tool_use_id: String::new(),
                        parent_session_id: entry.parent_session_id,
                        child_session_id: entry.session_id,
                        child_session_file: entry.path,
                        new_records,
                    },
                );
            }
            if let Some(call) = spawned_by {
                let kind = ChildKind::ByToolUseId;
                proof {
                    lemma_kind_map_insert(kinds, entry.file, kind);
                }
                self.child_kind.insert(entry.file, kind);
                return Some(
                    WatchEvent::ChildDiscovered {
                        parent_tool_use_id: call,
                        parent_session_id: None,
                        child_session_id: entry.session_id,
                        child_session_file: entry.path,
                        new_records,
                    },
                );
            }
        }
        match self.child_kind.get(&entry.file) {
            Some(kind) => {
                if new_records.len() == 0 {
                    return None;
                }
                let parent: Option<String> = match kind {
                    ChildKind::BySessionId(parent) => Some(parent.clone()),
                    ChildKind::ByToolUseId => None,
                };
                Some(
                    WatchEvent::ChildDiscovered {
                        parent_tool_use_id: String::new(),
                        parent_session_id: parent,
                        child_session_id: entry.session_id,
                        child_session_file: entry.path,
                        new_records,
                    },
                )
            },
            None => {
                if new_records.len() == 0 && !is_new {
                    return None;
                }
                let compose_project_name: Option<String> = self.compose_for(&entry.project_path);
                let is_lead: bool = text::same_text(&entry.project_path, &self.lead_path);
                Some(
                    WatchEvent::SessionUpdate {
                        session_id: entry.session_id,
                        project_path: entry.project_path,
                        session_file: entry.path,
                        new_records,
                        compose_project_name,
                        is_lead,
                    },
                )
            },
        }
    }

    /// Ends a round over all session files. The first is announced.
    pub fn finish_round(&mut self) -> (r: Option<WatchEvent>)
        ensures
            r.deep_view() == if old(self)@.first_scan {
                Some(WatchEventView::ScanComplete)
            } else {
                None
            },
            final(self)@ == (WatcherView { first_scan: false, ..old(self)@ }),
            r.deep_view() == round_report(old(self)@),
            final(self)@ == round_over(old(self)@),
            well_formed(old(self)@) ==> well_formed(final(self)@),
    {
        if self.first_scan {
            self.first_scan = false;
            Some(WatchEvent::ScanComplete)
        } else {
            None
        }
    }
}

// ---------------------------------------------------------------------------------------------
// Laws
// ---------------------------------------------------------------------------------------------

proof fn lemma_records_on_pieces(a: Seq<Seq<char>>, b: Seq<Seq<char>>)
    ensures
        records_on(a + b) == records_on(a) + records_on(b),
    decreases b.len(),
{
    if b.len() == 0 {
        assert(a + b =~= a);
        assert(records_on(a) + records_on(b) =~= records_on(a));
    } else {
        lemma_records_on_pieces(a, b.drop_last());
        assert((a + b).drop_last() =~= a + b.drop_last());
        assert((a + b).last() == b.last());
        assert(records_on(a + b) =~= records_on(a) + records_on(b));
    }
}

/// A session file that is read in two pieces holds the records that it holds when it is read at
/// once, where the first piece ends at the end of a line.
pub proof fn law_reading_in_pieces(a: Seq<char>, b: Seq<char>)
    requires
        a.len() == 0 || a.last() == '\n',
    ensures
        records_on(text::lines(a + b)) == records_on(text::lines(a)) + records_on(text::lines(b)),
{
    text::law_lines_of_pieces(a, b);
    lemma_records_on_pieces(text::lines(a), text::lines(b));
}

/// A file that has been opened is opened again without a change, however old it has become.
pub proof fn law_opening_again(
    w: WatcherView,
    file: u64,
    first: (Option<u64>, Option<u64>),
    again: (Option<u64>, Option<u64>),
)
    ensures
        file_opened(file_opened(w, file, first.0, first.1), file, again.0, again.1) == file_opened(
            w,
            file,
            first.0,
            first.1,
        ),
{
}

/// Of a file that is old when it is found, only what is written to it later is ever read.
pub proof fn law_old_file_is_skipped(w: WatcherView, file: u64, age: u64, len: u64)
    requires
        !w.offsets.contains_key(file),
        age >= MAX_AGE_SECS,
    ensures
        file_opened(w, file, Some(age), Some(len)).offsets[file] == len,
{
}

/// The first scan is over once and for all: nothing that is remembered of files and projects
/// starts it anew.
pub proof fn law_first_scan_stays_over(
    w: WatcherView,
    file: u64,
    age_secs: Option<u64>,
    len: Option<u64>,
    entry: ScanEntryView,
    spawned_by: Option<Seq<char>>,
)
    requires
        !w.first_scan,
    ensures
        !file_opened(w, file, age_secs, len).first_scan,
        !kind_learned(w, entry, spawned_by).first_scan,
{
}

/// A file that was reported as a child's is never reported as a session afterwards, and a child
/// that was found under its parent's session is always reported with that.
pub proof fn law_child_stays_child(
    w: WatcherView,
    entry: ScanEntryView,
    spawned_by: Option<Seq<char>>,
    later: ScanEntryView,
    found: Option<Seq<char>>,
    records: Seq<Record>,
)
    requires
        entry.parent_session_id is Some || spawned_by is Some,
        later.file == entry.file,
    ensures
        ({
            let t = kind_learned(w, entry, spawned_by);
            match event_of(t, later, false, found, records) {
                Some(WatchEventView::ChildDiscovered { parent_session_id, .. }) => records.len() > 0
                    && parent_session_id == entry.parent_session_id,
                Some(_) => false,
                None => records.len() == 0,
            }
        }),
{
}

/// Every session file that is opened for the first time is reported, even if it is empty, and
/// after that only when something is new in it.
pub proof fn law_when_reported(
    w: WatcherView,
    entry: ScanEntryView,
    age_secs: Option<u64>,
    len: Option<u64>,
    spawned_by: Option<Seq<char>>,
    records: Seq<Record>,
)
    requires
        well_formed(w),
    ensures
        ({
            let is_new = !w.offsets.contains_key(entry.file);
            let opened = file_opened(w, entry.file, age_secs, len);
            event_of(opened, entry, is_new, spawned_by, records) is Some <==> is_new
                || records.len() > 0
        }),
{
}

/// The lead comes first among the projects, and it alone is announced as the lead.
pub proof fn law_lead_is_announced(w: WatcherView, gitdirs: Seq<Seq<char>>)
    ensures
        ({
            let paths = seq![w.lead_path] + worktrees_of(gitdirs);
            let lanes = lanes_of(w, paths);
            &&& lanes.len() == paths.len()
            &&& lanes[0].0 == w.lead_path
            &&& forall|i: int|
                0 <= i < lanes.len() ==> (#[trigger] lanes[i]).1 == (lanes[i].0 == w.lead_path)
        }),
{
}

/// The name of a session directory has no slash in it, and is as long as the path that it is of.
pub proof fn law_encoded_path(path: Seq<char>)
    ensures
        text::replaced(path, '/', '-').len() == path.len(),
        !text::replaced(path, '/', '-').contains('/'),
{
}

} // verus!

//! Laws of session files: which there are, what is read of them, and what is reported.
use crate::laws_records;
use crate::parser::{Record, RecordType};
use crate::seqs;
use crate::text;
use crate::text::CharClass;
use crate::watcher;
use crate::watcher::{ChildKindView, DirItem, FileItem, ProjectListing, ScanEntryView, WatchEventView, WatcherView};
use vstd::prelude::*;

verus! {

// ---------------------------------------------------------------------------------------------
// Reports
// ---------------------------------------------------------------------------------------------

/// Whatever is reported of a session file, it is reported with exactly the records that are new,
/// whether or not the file is, and with the session and the file of the entry. A session is
/// reported with the project of the entry, and with what is known of that.
pub proof fn law_report_hands_records_on(
    w: WatcherView,
    entry: ScanEntryView,
    is_new: bool,
    spawned_by: Option<Seq<char>>,
    records: Seq<Record>,
)
    ensures
        match watcher::event_of(w, entry, is_new, spawned_by, records) {
            Some(
                WatchEventView::SessionUpdate {
                    session_id,
                    project_path,
                    session_file,
                    new_records,
                    compose_project_name,
                    is_lead,
                },
            ) => {
                &&& new_records == records
                &&& session_id == entry.session_id
                &&& session_file == entry.path
                &&& project_path == entry.project_path
                &&& is_lead <==> entry.project_path == w.lead_path
                &&& w.compose.contains_key(entry.project_path) ==> compose_project_name
                    == w.compose[entry.project_path]
                &&& !w.compose.contains_key(entry.project_path) ==> compose_project_name is None
            },
            Some(
                WatchEventView::ChildDiscovered {
                    child_session_id,
                    child_session_file,
                    new_records,
                    ..
                },
            ) => {
                &&& new_records == records
                &&& child_session_id == entry.session_id
                &&& child_session_file == entry.path
            },
            Some(_) => false,
            None => records.len() == 0 && (!is_new || w.child_kind.contains_key(entry.file)),
        },
{
}

/// A new file under the name of a session is reported as a child of that session, and a new file
/// that a call spawned as a child of that call. A new file that is neither, and that was not of a
/// child before, is reported as a session.
pub proof fn law_report_names_parent(
    w: WatcherView,
    entry: ScanEntryView,
    spawned_by: Option<Seq<char>>,
    records: Seq<Record>,
)
    ensures
        match watcher::event_of(w, entry, true, spawned_by, records) {
            Some(
                WatchEventView::ChildDiscovered { parent_tool_use_id, parent_session_id, .. },
            ) => {
                &&& entry.parent_session_id is Some ==> parent_session_id == entry.parent_session_id
                    && parent_tool_use_id.len() == 0
                &&& entry.parent_session_id is None && spawned_by is Some ==> parent_session_id
                    is None && parent_tool_use_id == spawned_by->0
                &&& entry.parent_session_id is None && spawned_by is None
                    ==> w.child_kind.contains_key(entry.file)
            },
            Some(WatchEventView::SessionUpdate { .. }) => entry.parent_session_id is None
                && spawned_by is None && !w.child_kind.contains_key(entry.file),
            _ => w.child_kind.contains_key(entry.file),
        },
{
}

/// A file that is not new is reported as what it was before: a child with the session that was
/// its parent, and a session as a session.
pub proof fn law_report_later(
    w: WatcherView,
    entry: ScanEntryView,
    spawned_by: Option<Seq<char>>,
    records: Seq<Record>,
)
    requires
        records.len() > 0,
    ensures
        match watcher::event_of(w, entry, false, spawned_by, records) {
            Some(
                WatchEventView::ChildDiscovered { parent_tool_use_id, parent_session_id, .. },
            ) => {
                &&& w.child_kind.contains_key(entry.file)
                &&& parent_tool_use_id.len() == 0
                &&& match parent_session_id {
                    Some(parent) => w.child_kind[entry.file] == ChildKindView::BySessionId(parent),
                    None => w.child_kind[entry.file] is ByToolUseId,
                }
            },
            Some(WatchEventView::SessionUpdate { .. }) => !w.child_kind.contains_key(entry.file),
            _ => false,
        },
{
}

/// What kind of file was found is remembered of that file alone.
pub proof fn law_kind_remembered(
    w: WatcherView,
    entry: ScanEntryView,
    spawned_by: Option<Seq<char>>,
    other: u64,
)
    requires
        other != entry.file,
    ensures
        ({
            let t = watcher::kind_learned(w, entry, spawned_by);
            &&& t == (WatcherView { child_kind: t.child_kind, ..w })
            &&& t.child_kind.contains_key(other) == w.child_kind.contains_key(other)
            &&& w.child_kind.contains_key(other) ==> t.child_kind[other] == w.child_kind[other]
            &&& entry.parent_session_id is Some ==> t.child_kind.contains_key(entry.file)
                && t.child_kind[entry.file] == ChildKindView::BySessionId(
                entry.parent_session_id->0,
            )
            &&& entry.parent_session_id is None && spawned_by is Some ==> t.child_kind.contains_key(
                entry.file,
            ) && t.child_kind[entry.file] is ByToolUseId
            &&& entry.parent_session_id is None && spawned_by is None ==> t == w
        }),
{
}

// ---------------------------------------------------------------------------------------------
// Reading on
// ---------------------------------------------------------------------------------------------

/// Opening a file changes what is remembered of that file alone, and only the first time. A recent
/// one is then read from its start; so is an old one whose length is not known.
pub proof fn law_file_is_opened(
    w: WatcherView,
    file: u64,
    age_secs: Option<u64>,
    len: Option<u64>,
    other: u64,
)
    requires
        other != file,
    ensures
        ({
            let t = watcher::file_opened(w, file, age_secs, len);
            let is_new = !w.offsets.contains_key(file);
            &&& t == (WatcherView { offsets: t.offsets, ..w })
            &&& t.offsets.contains_key(file)
            &&& t.offsets.contains_key(other) == w.offsets.contains_key(other)
            &&& w.offsets.contains_key(other) ==> t.offsets[other] == w.offsets[other]
            &&& !is_new ==> t.offsets[file] == w.offsets[file]
            &&& is_new && age_secs is None ==> t.offsets[file] == 0
            &&& is_new && age_secs is Some && age_secs->0 < 7200 ==> t.offsets[file] == 0
            &&& is_new && age_secs is Some && age_secs->0 >= 7200 && len is Some
                ==> t.offsets[file] == len->0
            &&& is_new && len is None ==> t.offsets[file] == 0
        }),
{
}

/// A file is read on from where it was read to, exactly where there is more of it; and once all of
/// it has been read, there is nothing more to read. Nothing else that is remembered changes.
pub proof fn law_reading_on(w: WatcherView, file: u64, len: u64, other: u64)
    requires
        w.offsets.contains_key(file),
        other != file,
    ensures
        len <= w.offsets[file] ==> watcher::resume_at(w, file, len) is None,
        len > w.offsets[file] ==> watcher::resume_at(w, file, len) == Some(w.offsets[file]),
        len > w.offsets[file] ==> {
            let t = watcher::advanced(w, file, (len - w.offsets[file]) as u64);
            &&& watcher::resume_at(t, file, len) is None
            &&& len < u64::MAX ==> watcher::resume_at(t, file, (len + 1) as u64) == Some(len)
            &&& t == (WatcherView { offsets: t.offsets, ..w })
            &&& t.offsets.contains_key(other) == w.offsets.contains_key(other)
            &&& w.offsets.contains_key(other) ==> t.offsets[other] == w.offsets[other]
        },
{
}

/// A file that was read in two parts has been read to where it is after both at once. A file that
/// was not opened is not read.
pub proof fn law_reading_adds_up(w: WatcherView, file: u64, first: u64, second: u64, len: u64)
    requires
        w.offsets.contains_key(file),
        w.offsets[file] + first + second <= u64::MAX,
    ensures
        watcher::advanced(watcher::advanced(w, file, first), file, second) == watcher::advanced(
            w,
            file,
            (first + second) as u64,
        ),
        watcher::advanced(w, file, first).offsets[file] == w.offsets[file] + first,
        watcher::resume_at(WatcherView { offsets: w.offsets.remove(file), ..w }, file, len) is None,
{
    let one = watcher::advanced(watcher::advanced(w, file, first), file, second);
    let both = watcher::advanced(w, file, (first + second) as u64);
    assert(one.offsets =~= both.offsets);
}

/// The name of the Compose project is remembered of its project alone; without an environment file
/// it is remembered that there is none.
pub proof fn law_compose_remembered(
    w: WatcherView,
    path: Seq<char>,
    content: Seq<char>,
    other: Seq<char>,
)
    requires
        other != path,
    ensures
        ({
            let t = watcher::compose_learned(w, path, Some(content));
            let u = watcher::compose_learned(w, path, None);
            &&& t == (WatcherView { compose: t.compose, ..w })
            &&& t.compose.contains_key(path) && u.compose.contains_key(path)
            &&& watcher::compose_of(t, path) == watcher::compose_name(content)
            &&& watcher::compose_of(u, path) is None
            &&& watcher::compose_of(t, other) == watcher::compose_of(w, other)
            &&& watcher::compose_of(u, other) == watcher::compose_of(w, other)
            &&& t.compose.contains_key(other) == w.compose.contains_key(other)
        }),
{
}

/// The lead is watched first, and then every worktree.
pub proof fn law_watched_paths(w: WatcherView, gitdirs: Seq<Seq<char>>)
    ensures
        watcher::watched_paths(w, gitdirs).len() == 1 + watcher::worktrees_of(gitdirs).len(),
        watcher::watched_paths(w, gitdirs)[0] == w.lead_path,
        watcher::watched_paths(w, gitdirs).skip(1) == watcher::worktrees_of(gitdirs),
{
    assert(watcher::watched_paths(w, gitdirs).skip(1) =~= watcher::worktrees_of(gitdirs));
}

/// The lanes are announced, and the end of the scan is reported, until a round is over, and never
/// after that. The end of a round changes nothing else.
pub proof fn law_first_round(w: WatcherView, paths: Seq<Seq<char>>)
    ensures
        w.first_scan ==> watcher::round_report(w) == Some(WatchEventView::ScanComplete),
        w.first_scan ==> watcher::announcement(w, paths) == Some(
            WatchEventView::LanesDiscovered { paths: watcher::lanes_of(w, paths) },
        ),
        !w.first_scan ==> watcher::round_report(w) is None,
        !w.first_scan ==> watcher::announcement(w, paths) is None,
        watcher::round_report(watcher::round_over(w)) is None,
        watcher::announcement(watcher::round_over(w), paths) is None,
        watcher::round_over(w) == (WatcherView { first_scan: false, ..w }),
{
}

/// A file is old when it has not been written to for two hours, as far as its age is known.
pub proof fn law_recent(age: u64)
    ensures
        watcher::recent(None),
        watcher::recent(Some(age)) <==> age < 2 * 60 * 60,
{
}

/// Before anything is looked at, nothing is remembered, and the first scan is still to come.
pub proof fn law_new_watcher(lead: Seq<char>, file: u64, path: Seq<char>)
    ensures
        ({
            let w = watcher::new_watcher(lead);
            &&& w.lead_path == lead
            &&& w.first_scan
            &&& !w.offsets.contains_key(file)
            &&& !w.child_kind.contains_key(file)
            &&& !w.compose.contains_key(path)
        }),
{
}

/// Every project is announced at its position, with its path and with the Compose project that is
/// known of it.
pub proof fn law_announced_lanes(w: WatcherView, paths: Seq<Seq<char>>)
    ensures
        watcher::lanes_of(w, paths).len() == paths.len(),
        forall|i: int|
            0 <= i < paths.len() ==> {
                let lane = #[trigger] watcher::lanes_of(w, paths)[i];
                &&& lane.0 == paths[i]
                &&& lane.1 <==> paths[i] == w.lead_path
                &&& w.compose.contains_key(paths[i]) ==> lane.2 == w.compose[paths[i]]
                &&& !w.compose.contains_key(paths[i]) ==> lane.2 is None
            },
{
}

/// A line with a record has one, without the white space around it, and a blank line has none.
pub proof fn law_records_line_by_line(lines: Seq<Seq<char>>, before: Seq<char>, s: Seq<char>, after: Seq<char>)
    requires
        forall|i: int| 0 <= i < before.len() ==> text::is_white(#[trigger] before[i]),
        forall|i: int| 0 <= i < after.len() ==> text::is_white(#[trigger] after[i]),
        s.len() > 0 ==> !text::is_white(s[0]) && !text::is_white(s.last()),
    ensures
        watcher::records_on(Seq::empty()).len() == 0,
        s.len() > 0 ==> watcher::records_on(lines.push(before + s + after))
            == watcher::records_on(lines).push(s),
        s.len() == 0 ==> watcher::records_on(lines.push(before + s + after))
            == watcher::records_on(lines),
{
    laws_records::law_record_on_line(before, s, after);
    let more = lines.push(before + s + after);
    assert(more.drop_last() =~= lines);
    assert(more.last() == before + s + after);
}

/// The call that spawned a session is looked for in the first five lines of its file.
pub proof fn law_first_lines(content: Seq<char>)
    ensures
        watcher::first_lines(content).is_prefix_of(text::lines(content)),
        text::lines(content).len() <= 5 ==> watcher::first_lines(content) == text::lines(content),
        text::lines(content).len() > 5 ==> watcher::first_lines(content).len() == 5,
{
    let lines = text::lines(content);
    assert(lines.take(lines.len() as int) =~= lines);
}

/// The call that spawned a session is the one that the first system record with a call names. No
/// other record names one.
pub proof fn law_spawning_call(records: Seq<Record>)
    ensures
        forall|i: int|
            0 <= i < records.len() && (#[trigger] records[i]).record_type == RecordType::System
                && records[i].parent_tool_use_id is Some && (forall|j: int|
                0 <= j < i ==> (#[trigger] records[j]).record_type != RecordType::System
                    || records[j].parent_tool_use_id is None) ==> watcher::spawning_call(records)
                == Some(records[i].parent_tool_use_id->0@),
        (forall|i: int|
            0 <= i < records.len() ==> (#[trigger] records[i]).record_type != RecordType::System
                || records[i].parent_tool_use_id is None) ==> watcher::spawning_call(
            records,
        ) is None,
{
    let p = watcher::names_call();
    assert forall|i: int|
        0 <= i < records.len() && (#[trigger] records[i]).record_type == RecordType::System
            && records[i].parent_tool_use_id is Some && (forall|j: int|
            0 <= j < i ==> (#[trigger] records[j]).record_type != RecordType::System
                || records[j].parent_tool_use_id is None) implies watcher::spawning_call(records)
        == Some(records[i].parent_tool_use_id->0@) by {
        assert forall|j: int| 0 <= j < i implies !p(#[trigger] records[j]) by {}
        assert(p(records[i]));
        seqs::lemma_is_first(records, p, i);
    }
    seqs::lemma_first_where(records, p);
    let k = seqs::first_where(records, p);
    if k < records.len() {
        assert(p(records[k]));
    }
}

// ---------------------------------------------------------------------------------------------
// Which session files there are
// ---------------------------------------------------------------------------------------------

/// Only a file with the extension of session files is one. It is of the project and the parent
/// under which it was found, and its session goes by its name.
pub proof fn law_one_file_more(
    project: Seq<char>,
    parent: Option<Seq<char>>,
    items: Seq<FileItem>,
    item: FileItem,
)
    ensures
        watcher::entries_of(project, parent, Seq::empty()).len() == 0,
        ({
            let before = watcher::entries_of(project, parent, items);
            let after = watcher::entries_of(project, parent, items.push(item));
            if item.extension is Some && item.extension->0@ == "jsonl"@ {
                &&& after.len() == before.len() + 1
                &&& after.drop_last() == before
                &&& after.last().project_path == project
                &&& after.last().parent_session_id == parent
                &&& after.last().file == item.file
                &&& after.last().path == item.path
                &&& item.stem is Some ==> after.last().session_id == item.stem->0@
                &&& item.stem is None ==> after.last().session_id == "unknown"@
            } else {
                after == before
            }
        }),
{
    assert(items.push(item).drop_last() =~= items);
    assert(items.push(item).last() == item);
    let before = watcher::entries_of(project, parent, items);
    let after = watcher::entries_of(project, parent, items.push(item));
    if item.extension is Some && item.extension->0@ == "jsonl"@ {
        assert(after.drop_last() =~= before);
    }
}

/// The session files in a directory with a name are of children of the session of that name; a
/// directory without one holds none.
pub proof fn law_one_directory_more(project: Seq<char>, dirs: Seq<DirItem>, dir: DirItem)
    ensures
        watcher::child_entries_of(project, Seq::empty()).len() == 0,
        dir.name is Some ==> watcher::child_entries_of(project, dirs.push(dir))
            == watcher::child_entries_of(project, dirs) + watcher::entries_of(
            project,
            Some(dir.name->0@),
            dir.files@,
        ),
        dir.name is None ==> watcher::child_entries_of(project, dirs.push(dir))
            == watcher::child_entries_of(project, dirs),
{
    assert(dirs.push(dir).drop_last() =~= dirs);
    assert(dirs.push(dir).last() == dir);
}

/// A project more adds its sessions, which have no parent, and then their children.
pub proof fn law_one_project_more(listings: Seq<ProjectListing>, listing: ProjectListing)
    ensures
        watcher::all_entries(Seq::empty()).len() == 0,
        watcher::all_entries(listings.push(listing)) == watcher::all_entries(listings)
            + watcher::entries_of(listing.project_path@, None, listing.files@)
            + watcher::child_entries_of(listing.project_path@, listing.dirs@),
{
    assert(listings.push(listing).drop_last() =~= listings);
    assert(listings.push(listing).last() == listing);
    assert(watcher::all_entries(listings.push(listing)) =~= watcher::all_entries(listings)
        + watcher::entries_of(listing.project_path@, None, listing.files@)
        + watcher::child_entries_of(listing.project_path@, listing.dirs@));
}

// ---------------------------------------------------------------------------------------------
// Projects
// ---------------------------------------------------------------------------------------------

/// A text whose ends are neither white space nor quotes.
pub open spec fn is_bare(s: Seq<char>) -> bool {
    &&& s.len() > 0
    &&& !text::is_white(s[0]) && s[0] != '"' && s[0] != '\''
    &&& !text::is_white(s.last()) && s.last() != '"' && s.last() != '\''
}

proof fn lemma_trim_nothing(s: Seq<char>, class: CharClass)
    requires
        s.len() > 0,
        !class.holds(s[0]),
        !class.holds(s.last()),
    ensures
        text::trim(s, class) == s,
{
    let none = Seq::<char>::empty();
    laws_records::law_trim(none, s, none, class);
    assert(none + s + none =~= s);
}

proof fn lemma_trim_quotes(s: Seq<char>, q: char)
    requires
        s.len() > 0,
        s[0] != q,
        s.last() != q,
    ensures
        text::trim(seq![q] + s + seq![q], CharClass::Only(q)) == s,
{
    laws_records::law_trim(seq![q], s, seq![q], CharClass::Only(q));
}

/// A line sets the name of the Compose project to what stands behind the equals sign, with single
/// quotes, double quotes or none. A line that starts otherwise sets nothing.
pub proof fn law_compose_line(name: Seq<char>, line: Seq<char>)
    requires
        is_bare(name),
        !"COMPOSE_PROJECT_NAME="@.is_prefix_of(line),
    ensures
        watcher::line_compose_name("COMPOSE_PROJECT_NAME="@ + name) == Some(name),
        watcher::line_compose_name("COMPOSE_PROJECT_NAME="@ + (seq!['"'] + name + seq!['"']))
            == Some(name),
        watcher::line_compose_name("COMPOSE_PROJECT_NAME="@ + (seq!['\''] + name + seq!['\'']))
            == Some(name),
        watcher::line_compose_name("COMPOSE_PROJECT_NAME="@) is None,
        watcher::line_compose_name(line) is None,
{
    let key = "COMPOSE_PROJECT_NAME="@;
    let double = seq!['"'] + name + seq!['"'];
    let single = seq!['\''] + name + seq!['\''];
    let none = Seq::<char>::empty();
    laws_records::law_after_prefix(name, key);
    laws_records::law_after_prefix(double, key);
    laws_records::law_after_prefix(single, key);
    laws_records::law_after_prefix(none, key);
    assert(key + none =~= key);
    lemma_trim_nothing(name, CharClass::Space);
    lemma_trim_nothing(name, CharClass::Only('"'));
    lemma_trim_nothing(name, CharClass::Only('\''));
    lemma_trim_nothing(double, CharClass::Space);
    lemma_trim_quotes(name, '"');
    lemma_trim_nothing(single, CharClass::Space);
    lemma_trim_nothing(single, CharClass::Only('"'));
    lemma_trim_quotes(name, '\'');
    laws_records::law_trim(none, none, none, CharClass::Space);
    laws_records::law_trim(none, none, none, CharClass::Only('"'));
    laws_records::law_trim(none, none, none, CharClass::Only('\''));
    assert(none + none + none =~= none);
}

/// Single quotes stand inside of double quotes, and both are taken away, as many as there are on
/// each side. Double quotes inside of single quotes belong to the name.
pub proof fn law_compose_line_quoted(
    name: Seq<char>,
    outer: (Seq<char>, Seq<char>),
    inner: (Seq<char>, Seq<char>),
)
    requires
        is_bare(name),
        forall|i: int| 0 <= i < outer.0.len() ==> #[trigger] outer.0[i] == '"',
        forall|i: int| 0 <= i < outer.1.len() ==> #[trigger] outer.1[i] == '"',
        forall|i: int| 0 <= i < inner.0.len() ==> #[trigger] inner.0[i] == '\'',
        forall|i: int| 0 <= i < inner.1.len() ==> #[trigger] inner.1[i] == '\'',
    ensures
        watcher::line_compose_name(
            "COMPOSE_PROJECT_NAME="@ + (outer.0 + (inner.0 + name + inner.1) + outer.1),
        ) == Some(name),
        watcher::line_compose_name(
            "COMPOSE_PROJECT_NAME="@ + (seq!['\''] + (seq!['"'] + name + seq!['"']) + seq!['\'']),
        ) == Some(seq!['"'] + name + seq!['"']),
{
    let key = "COMPOSE_PROJECT_NAME="@;
    let single = inner.0 + name + inner.1;
    let whole = outer.0 + single + outer.1;
    assert forall|i: int| 0 <= i < outer.0.len() implies CharClass::Only('"').holds(
        #[trigger] outer.0[i],
    ) by {}
    assert forall|i: int| 0 <= i < outer.1.len() implies CharClass::Only('"').holds(
        #[trigger] outer.1[i],
    ) by {}
    assert forall|i: int| 0 <= i < inner.0.len() implies CharClass::Only('\'').holds(
        #[trigger] inner.0[i],
    ) by {}
    assert forall|i: int| 0 <= i < inner.1.len() implies CharClass::Only('\'').holds(
        #[trigger] inner.1[i],
    ) by {}
    if inner.0.len() > 0 {
        assert(inner.0[0] == '\'' && single[0] == inner.0[0]);
    } else {
        assert(single[0] == name[0]);
    }
    if inner.1.len() > 0 {
        assert(inner.1[inner.1.len() - 1] == '\'' && single.last() == inner.1.last());
    } else {
        assert(single.last() == name.last());
    }
    if outer.0.len() > 0 {
        assert(outer.0[0] == '"' && whole[0] == outer.0[0]);
    } else {
        assert(whole[0] == single[0]);
    }
    if outer.1.len() > 0 {
        assert(outer.1[outer.1.len() - 1] == '"' && whole.last() == outer.1.last());
    } else {
        assert(whole.last() == single.last());
    }
    laws_records::law_after_prefix(whole, key);
    lemma_trim_nothing(whole, CharClass::Space);
    laws_records::law_trim(outer.0, single, outer.1, CharClass::Only('"'));
    laws_records::law_trim(inner.0, name, inner.1, CharClass::Only('\''));
    let double = seq!['"'] + name + seq!['"'];
    let other = seq!['\''] + double + seq!['\''];
    laws_records::law_after_prefix(other, key);
    lemma_trim_nothing(other, CharClass::Space);
    lemma_trim_nothing(other, CharClass::Only('"'));
    lemma_trim_quotes(double, '\'');
}

/// White space around a name does not count.
pub proof fn law_compose_line_with_space(before: Seq<char>, name: Seq<char>, after: Seq<char>)
    requires
        is_bare(name),
        forall|i: int| 0 <= i < before.len() ==> text::is_white(#[trigger] before[i]),
        forall|i: int| 0 <= i < after.len() ==> text::is_white(#[trigger] after[i]),
    ensures
        watcher::line_compose_name("COMPOSE_PROJECT_NAME="@ + (before + name + after)) == Some(
            name,
        ),
{
    let class = CharClass::Space;
    assert forall|i: int| 0 <= i < before.len() implies class.holds(#[trigger] before[i]) by {
        assert(text::is_white(before[i]));
    }
    assert forall|i: int| 0 <= i < after.len() implies class.holds(#[trigger] after[i]) by {
        assert(text::is_white(after[i]));
    }
    laws_records::law_after_prefix(before + name + after, "COMPOSE_PROJECT_NAME="@);
    laws_records::law_trim(before, name, after, class);
    lemma_trim_nothing(name, CharClass::Only('"'));
    lemma_trim_nothing(name, CharClass::Only('\''));
}

/// The first line that sets the name of the Compose project counts. Where no line does, there is
/// none.
pub proof fn law_first_compose_line(content: Seq<char>)
    ensures
        ({
            let lines = text::lines(content);
            &&& forall|i: int|
                0 <= i < lines.len() && watcher::line_compose_name(#[trigger] lines[i]) is Some && (
                forall|j: int|
                    0 <= j < i ==> watcher::line_compose_name(#[trigger] lines[j]) is None)
                    ==> watcher::compose_name(content) == watcher::line_compose_name(lines[i])
            &&& (forall|i: int|
                0 <= i < lines.len() ==> watcher::line_compose_name(#[trigger] lines[i]) is None)
                ==> watcher::compose_name(content) is None
        }),
{
    let lines = text::lines(content);
    let p = watcher::names_project();
    assert forall|i: int|
        0 <= i < lines.len() && watcher::line_compose_name(#[trigger] lines[i]) is Some && (forall|
            j: int,
        |
            0 <= j < i ==> watcher::line_compose_name(#[trigger] lines[j]) is None) implies
        watcher::compose_name(content) == watcher::line_compose_name(lines[i]) by {
        assert forall|j: int| 0 <= j < i implies !p(#[trigger] lines[j]) by {
            assert(watcher::line_compose_name(lines[j]) is None);
        }
        assert(p(lines[i]));
        seqs::lemma_is_first(lines, p, i);
    }
    seqs::lemma_first_where(lines, p);
    let k = seqs::first_where(lines, p);
    if k < lines.len() {
        assert(p(lines[k]));
    }
}

/// The path of a worktree is what the file that points to its `.git` says, without that and
/// without the white space around it.
pub proof fn law_worktree(before: Seq<char>, path: Seq<char>, after: Seq<char>)
    requires
        forall|i: int| 0 <= i < before.len() ==> text::is_white(#[trigger] before[i]),
        forall|i: int| 0 <= i < after.len() ==> text::is_white(#[trigger] after[i]),
        path.len() > 0,
        !text::is_white(path[0]),
        !text::is_white(path.last()),
    ensures
        watcher::worktree_of(before + (path + "/.git"@) + after) == Some(path),
        !"/.git"@.is_suffix_of(path) ==> watcher::worktree_of(before + path + after) == Some(path),
        watcher::worktree_of(before + "/.git"@ + after) is None,
        watcher::worktree_of(before) is None,
{
    reveal_strlit("/.git");
    let class = CharClass::Space;
    assert forall|i: int| 0 <= i < before.len() implies class.holds(#[trigger] before[i]) by {
        assert(text::is_white(before[i]));
    }
    assert forall|i: int| 0 <= i < after.len() implies class.holds(#[trigger] after[i]) by {
        assert(text::is_white(after[i]));
    }
    let git = "/.git"@;
    let whole = path + git;
    let none = Seq::<char>::empty();
    assert(whole[0] == path[0]);
    assert(whole.last() == 't');
    assert(git[0] == '/' && git.last() == 't');
    laws_records::law_trim(before, whole, after, class);
    laws_records::law_trim(before, path, after, class);
    laws_records::law_trim(before, git, after, class);
    laws_records::law_trim(before, none, none, class);
    assert(before + none + none =~= before);
    assert(whole.subrange(whole.len() - git.len(), whole.len() as int) =~= git);
    assert(whole.take(whole.len() - git.len()) =~= path);
    assert(git.subrange(0, git.len() as int) =~= git);
    assert(!git.is_suffix_of(none));
}

/// A worktree more comes last among the paths, unless its file says nothing.
pub proof fn law_one_worktree_more(gitdirs: Seq<Seq<char>>, gitdir: Seq<char>)
    ensures
        watcher::worktrees_of(Seq::empty()).len() == 0,
        match watcher::worktree_of(gitdir) {
            Some(path) => watcher::worktrees_of(gitdirs.push(gitdir)) == watcher::worktrees_of(
                gitdirs,
            ).push(path),
            None => watcher::worktrees_of(gitdirs.push(gitdir)) == watcher::worktrees_of(gitdirs),
        },
{
    assert(gitdirs.push(gitdir).drop_last() =~= gitdirs);
    assert(gitdirs.push(gitdir).last() == gitdir);
}

} // verus!

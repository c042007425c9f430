//! The session archive as a plain value, and what a scan of it returns. A
//! scan that is answered from an archive ends with the sessions that the
//! archive determines: this is stated here, step by step.

use crate::config::Config;
use crate::index::{
    below, initial_scan, polled, queued_dirs, queued_logs, replied, request_of, scan_ok,
    AwaitView, Goal, Level, ReplyView, ScanReply, ScanRequest, ScanView, SessionScan, WorkView,
};
use crate::paths::joined;
use crate::scan::{
    ancestors, dirs_desc, entry_views, filter_admits, git_root_of, logs_desc, DirEntry, EntryView,
    Filter, SessionQuery, MAX_ROOT_HOPS,
};
use crate::sessions::{extracted, line_texts, session_views, SessionItem, SessionView};
use crate::text::{opt_str, same_text, string_views};
use vstd::prelude::*;

verus! {

/// What is on the disk, as far as a scan can see it: the entries of the
/// directories, the lines of the logs that can be read, and the paths at
/// which a repository marker lies.
pub ghost struct Archive {
    pub listings: Map<Seq<char>, Seq<EntryView>>,
    pub logs: Map<Seq<char>, Seq<Seq<char>>>,
    pub markers: Set<Seq<char>>,
}

/// Of each directory, whether a repository marker lies in it.
pub open spec fn marks(disk: Archive, dirs: Seq<Seq<char>>) -> Seq<bool> {
    Seq::new(dirs.len(), |i: int| disk.markers.contains(joined(dirs[i], ".git"@)))
}

/// What the archive answers to what a scan waits for.
pub open spec fn answer(disk: Archive, awaiting: AwaitView) -> ReplyView {
    match awaiting {
        AwaitView::Nothing => ReplyView::Missing,
        AwaitView::Dirs { parent, level } => if disk.listings.dom().contains(parent) {
            ReplyView::Entries(disk.listings[parent])
        } else {
            ReplyView::Missing
        },
        AwaitView::Files { parent } => if disk.listings.dom().contains(parent) {
            ReplyView::Entries(disk.listings[parent])
        } else {
            ReplyView::Missing
        },
        AwaitView::Lines { path } => if disk.logs.dom().contains(path) {
            ReplyView::Lines(disk.logs[path])
        } else {
            ReplyView::Unreadable
        },
        AwaitView::Markers { item } => ReplyView::Markers(
            marks(disk, ancestors(item.cwd, MAX_ROOT_HOPS as nat)),
        ),
    }
}

/// The date directories in the directory `path`, the latest first.
pub open spec fn listed_dirs(disk: Archive, path: Seq<char>) -> Seq<Seq<char>> {
    if disk.listings.dom().contains(path) {
        dirs_desc(path, disk.listings[path])
    } else {
        Seq::empty()
    }
}

/// The session logs in the directory `path`, the latest first.
pub open spec fn listed_logs(disk: Archive, path: Seq<char>) -> Seq<Seq<char>> {
    if disk.listings.dom().contains(path) {
        logs_desc(path, disk.listings[path])
    } else {
        Seq::empty()
    }
}

/// How many levels of date directories lie below a directory of a level.
pub open spec fn depth_of(level: Level) -> nat {
    match level {
        Level::Root => 3,
        Level::Year => 2,
        Level::Month => 1,
        Level::Day => 0,
    }
}

/// The logs below the directory `path`, newest first: the latest directory
/// first at each level, and within a day the latest log first. `depth` says
/// how many levels of date directories lie below `path`.
pub open spec fn logs_under(disk: Archive, path: Seq<char>, depth: nat) -> Seq<Seq<char>>
    decreases depth, 0nat,
{
    if depth == 0 {
        listed_logs(disk, path)
    } else {
        logs_in(disk, listed_dirs(disk, path), (depth - 1) as nat)
    }
}

/// The logs below the directories `dirs`, in their order.
pub open spec fn logs_in(disk: Archive, dirs: Seq<Seq<char>>, depth: nat) -> Seq<Seq<char>>
    decreases depth, dirs.len() + 1,
{
    if dirs.len() == 0 {
        Seq::empty()
    } else {
        logs_under(disk, dirs[0], depth) + logs_in(disk, dirs.drop_first(), depth)
    }
}

/// The record of the log at `path`, if it can be read and gives one.
pub open spec fn record_at(disk: Archive, path: Seq<char>) -> Option<SessionView> {
    if disk.logs.dom().contains(path) {
        extracted(disk.logs[path], path)
    } else {
        None
    }
}

/// Whether `filter` admits the session `s`, with the repository markers as
/// the archive has them.
pub open spec fn admitted(
    cfg: Config,
    home: Option<Seq<char>>,
    filter: Filter,
    disk: Archive,
    s: SessionView,
) -> bool {
    filter_admits(
        cfg,
        filter,
        s.cwd,
        home,
        if filter is ForRepoRoot {
            git_root_of(s.cwd, marks(disk, ancestors(s.cwd, MAX_ROOT_HOPS as nat)))
        } else {
            None
        },
    )
}

/// The sessions that the goal asks for, given those that are gathered
/// already and the logs that are yet to be read, in their order. A goal that
/// gathers sessions takes the records that its filter admits until it has
/// as many as its limit; a goal that looks for an id takes the first record
/// with that id.
pub open spec fn gathered(
    cfg: Config,
    home: Option<Seq<char>>,
    goal: Goal,
    disk: Archive,
    items: Seq<SessionView>,
    logs: Seq<Seq<char>>,
) -> Seq<SessionView>
    decreases logs.len(),
{
    if logs.len() == 0 {
        items
    } else {
        let rest = logs.drop_first();
        match goal {
            Goal::Collect { filter, limit } => if items.len() >= limit {
                items
            } else {
                match record_at(disk, logs[0]) {
                    Some(s) => if admitted(cfg, home, filter, disk, s) {
                        gathered(cfg, home, goal, disk, items.push(s), rest)
                    } else {
                        gathered(cfg, home, goal, disk, items, rest)
                    },
                    None => gathered(cfg, home, goal, disk, items, rest),
                }
            },
            Goal::Find { id } => match record_at(disk, logs[0]) {
                Some(s) => if s.id == id@ {
                    seq![s]
                } else {
                    gathered(cfg, home, goal, disk, items, rest)
                },
                None => gathered(cfg, home, goal, disk, items, rest),
            },
        }
    }
}

/// What a query returns from an archive: the sessions that its goal asks
/// for among the logs below `sessions` in the home of the sessions, the
/// newest first.
pub open spec fn expected(cfg: Config, home: Option<Seq<char>>, goal: Goal, disk: Archive) -> Seq<
    SessionView,
> {
    gathered(
        cfg,
        home,
        goal,
        disk,
        Seq::empty(),
        logs_under(disk, joined(cfg.sessions.codex_home@, "sessions"@), 3),
    )
}

/// The logs that a scan has yet to read, in the order in which it will read
/// them: what is on top of its stack first.
pub open spec fn pending(disk: Archive, stack: Seq<WorkView>) -> Seq<Seq<char>>
    decreases stack.len(),
{
    if stack.len() == 0 {
        Seq::empty()
    } else {
        (match stack.last() {
            WorkView::Dir { path, level } => logs_under(disk, path, depth_of(level)),
            WorkView::Log { path } => seq![path],
        }) + pending(disk, stack.drop_last())
    }
}

/// The scan after the archive has answered what the scan waits for.
pub open spec fn settled(v: ScanView, disk: Archive) -> ScanView {
    let once = if v.awaiting is Nothing {
        v
    } else {
        replied(v, answer(disk, v.awaiting))
    };
    if once.awaiting is Nothing {
        once
    } else {
        replied(once, answer(disk, once.awaiting))
    }
}

/// The sessions that a scan ends with when the archive answers it.
pub open spec fn outcome(v: ScanView, disk: Archive) -> Seq<SessionView> {
    let s = settled(v, disk);
    if s.done {
        s.items
    } else {
        gathered(s.cfg, s.home, s.goal, disk, s.items, pending(disk, s.stack))
    }
}

/// A scan starts out to return what the query returns from the archive.
pub proof fn lemma_scan_starts_right(
    cfg: Config,
    home: Option<Seq<char>>,
    goal: Goal,
    disk: Archive,
)
    ensures
        outcome(initial_scan(cfg, home, goal), disk) == expected(cfg, home, goal, disk),
{
    let v = initial_scan(cfg, home, goal);
    assert(v.stack.drop_last() =~= Seq::<WorkView>::empty());
    assert(pending(disk, v.stack.drop_last()) =~= Seq::<Seq<char>>::empty());
    assert(pending(disk, v.stack) =~= logs_under(
        disk,
        joined(cfg.sessions.codex_home@, "sessions"@),
        3,
    ));
}

/// Asking a scan what it needs does not change what it will return.
pub proof fn lemma_poll_keeps_outcome(v: ScanView, disk: Archive)
    requires
        scan_ok(v),
    ensures
        outcome(polled(v).state, disk) == outcome(v, disk),
{
    if v.awaiting is Nothing && !v.done && v.stack.len() > 0 {
        let rest = v.stack.drop_last();
        match v.stack.last() {
            WorkView::Dir { path, level } => {
                let next = settled(polled(v).state, disk);
                if disk.listings.dom().contains(path) {
                    if level == Level::Day {
                        lemma_pending_logs(disk, rest, listed_logs(disk, path));
                    } else {
                        lemma_pending_dirs(disk, rest, listed_dirs(disk, path), below(level));
                    }
                } else {
                    assert(logs_in(disk, Seq::empty(), (depth_of(level) - 1) as nat)
                        =~= Seq::<Seq<char>>::empty());
                    assert(Seq::<Seq<char>>::empty() + pending(disk, rest) =~= pending(
                        disk,
                        rest,
                    ));
                }
            },
            WorkView::Log { path } => {
                let logs = pending(disk, v.stack);
                assert(logs[0] == path);
                assert(logs.drop_first() =~= pending(disk, rest));
            },
        }
    } else if v.awaiting is Nothing && !v.done {
        assert(pending(disk, v.stack) =~= Seq::<Seq<char>>::empty());
    }
}

/// The answer of the archive does not change what a scan will return.
pub proof fn lemma_reply_keeps_outcome(v: ScanView, disk: Archive)
    requires
        scan_ok(v),
        !(v.awaiting is Nothing),
    ensures
        outcome(replied(v, answer(disk, v.awaiting)), disk) == outcome(v, disk),
{
}

/// A scan that says it has ended holds what it was to return.
pub proof fn lemma_done_holds_outcome(v: ScanView, disk: Archive)
    requires
        scan_ok(v),
        polled(v).request is Done,
    ensures
        polled(v).state.items == outcome(v, disk),
        polled(v).state.items == outcome(polled(v).state, disk),
{
    lemma_poll_keeps_outcome(v, disk);
}

/// Directories that are put on the stack are read in their order, before
/// what was on the stack.
pub proof fn lemma_pending_dirs(
    disk: Archive,
    stack: Seq<WorkView>,
    dirs: Seq<Seq<char>>,
    level: Level,
)
    ensures
        pending(disk, stack + queued_dirs(dirs, level)) == logs_in(disk, dirs, depth_of(level))
            + pending(disk, stack),
    decreases dirs.len(),
{
    let all = stack + queued_dirs(dirs, level);
    if dirs.len() == 0 {
        assert(all =~= stack);
        assert(Seq::<Seq<char>>::empty() + pending(disk, stack) =~= pending(disk, stack));
    } else {
        let rest = dirs.drop_first();
        assert(all.drop_last() =~= stack + queued_dirs(rest, level));
        assert(all.last() == WorkView::Dir { path: dirs[0], level });
        lemma_pending_dirs(disk, stack, rest, level);
        assert(logs_under(disk, dirs[0], depth_of(level)) + (logs_in(disk, rest, depth_of(level))
            + pending(disk, stack)) =~= logs_in(disk, dirs, depth_of(level)) + pending(
            disk,
            stack,
        ));
    }
}

/// Logs that are put on the stack are read in their order, before what was
/// on the stack.
pub proof fn lemma_pending_logs(disk: Archive, stack: Seq<WorkView>, paths: Seq<Seq<char>>)
    ensures
        pending(disk, stack + queued_logs(paths)) == paths + pending(disk, stack),
    decreases paths.len(),
{
    let all = stack + queued_logs(paths);
    if paths.len() == 0 {
        assert(all =~= stack);
        assert(paths + pending(disk, stack) =~= pending(disk, stack));
    } else {
        let rest = paths.drop_first();
        assert(all.drop_last() =~= stack + queued_logs(rest));
        assert(all.last() == WorkView::Log { path: paths[0] });
        lemma_pending_logs(disk, stack, rest);
        assert(seq![paths[0]] + (rest + pending(disk, stack)) =~= paths + pending(disk, stack));
    }
}

/// How many of the logs give a record that `filter` admits.
pub open spec fn admitted_count(
    cfg: Config,
    home: Option<Seq<char>>,
    filter: Filter,
    disk: Archive,
    logs: Seq<Seq<char>>,
) -> nat
    decreases logs.len(),
{
    if logs.len() == 0 {
        0
    } else {
        let rest = admitted_count(cfg, home, filter, disk, logs.drop_first());
        match record_at(disk, logs[0]) {
            Some(s) => if admitted(cfg, home, filter, disk, s) {
                rest + 1
            } else {
                rest
            },
            None => rest,
        }
    }
}

/// A goal that gathers sessions returns as many as its limit where the logs
/// give that many that its filter admits, and all that they give where they
/// give fewer.
pub proof fn lemma_gathered_fills_limit(
    cfg: Config,
    home: Option<Seq<char>>,
    filter: Filter,
    limit: usize,
    disk: Archive,
    items: Seq<SessionView>,
    logs: Seq<Seq<char>>,
)
    requires
        items.len() <= limit,
    ensures
        ({
            let all = items.len() + admitted_count(cfg, home, filter, disk, logs);
            gathered(cfg, home, Goal::Collect { filter, limit }, disk, items, logs).len() == (
            if all <= limit {
                all
            } else {
                limit as nat
            })
        }),
    decreases logs.len(),
{
    if logs.len() > 0 && items.len() < limit {
        let rest = logs.drop_first();
        match record_at(disk, logs[0]) {
            Some(s) => {
                if admitted(cfg, home, filter, disk, s) {
                    lemma_gathered_fills_limit(cfg, home, filter, limit, disk, items.push(s), rest);
                } else {
                    lemma_gathered_fills_limit(cfg, home, filter, limit, disk, items, rest);
                }
            },
            None => {
                lemma_gathered_fills_limit(cfg, home, filter, limit, disk, items, rest);
            },
        }
    }
}

/// How much there is to read in and below the directory `path`: the
/// directory itself, and all that lies below it.
pub open spec fn size_under(disk: Archive, path: Seq<char>, depth: nat) -> nat
    decreases depth, 0nat,
{
    if depth == 0 {
        1 + listed_logs(disk, path).len()
    } else {
        1 + size_in(disk, listed_dirs(disk, path), (depth - 1) as nat)
    }
}

/// How much there is to read in and below the directories `dirs`.
pub open spec fn size_in(disk: Archive, dirs: Seq<Seq<char>>, depth: nat) -> nat
    decreases depth, dirs.len() + 1,
{
    if dirs.len() == 0 {
        0
    } else {
        size_under(disk, dirs[0], depth) + size_in(disk, dirs.drop_first(), depth)
    }
}

/// How much there is to read on the stack of a scan.
pub open spec fn size_of_stack(disk: Archive, stack: Seq<WorkView>) -> nat
    decreases stack.len(),
{
    if stack.len() == 0 {
        0
    } else {
        (match stack.last() {
            WorkView::Dir { path, level } => size_under(disk, path, depth_of(level)),
            WorkView::Log { path } => 1,
        }) + size_of_stack(disk, stack.drop_last())
    }
}

/// How far a scan is from its end, at most: each request and each answer
/// brings it nearer.
pub open spec fn steps_left(v: ScanView, disk: Archive) -> nat {
    3 * size_of_stack(disk, v.stack) + (match v.awaiting {
        AwaitView::Nothing => 0,
        AwaitView::Dirs { parent, level } => (3 * size_under(disk, parent, depth_of(level))
            - 1) as nat,
        AwaitView::Files { parent } => (3 * size_under(disk, parent, 0) - 1) as nat,
        AwaitView::Lines { path } => 2,
        AwaitView::Markers { item } => 1,
    })
}

/// A scan that is answered from an archive comes to its end: whenever it
/// asks for something that it did not ask for already, and whenever the
/// archive answers, it is nearer to its end.
pub proof fn lemma_scan_ends(v: ScanView, disk: Archive)
    requires
        scan_ok(v),
    ensures
        v.awaiting is Nothing && !(polled(v).request is Done) ==> steps_left(
            polled(v).state,
            disk,
        ) < steps_left(v, disk),
        !(v.awaiting is Nothing) ==> steps_left(replied(v, answer(disk, v.awaiting)), disk)
            < steps_left(v, disk),
{
    match v.awaiting {
        AwaitView::Nothing => {},
        AwaitView::Dirs { parent, level } => {
            lemma_size_of_dirs(disk, v.stack, listed_dirs(disk, parent), below(level));
            if !disk.listings.dom().contains(parent) {
                assert(size_in(disk, Seq::empty(), 0) == 0);
            }
        },
        AwaitView::Files { parent } => {
            lemma_size_of_logs(disk, v.stack, listed_logs(disk, parent));
        },
        AwaitView::Lines { path } => {},
        AwaitView::Markers { item } => {},
    }
}

proof fn lemma_size_of_dirs(
    disk: Archive,
    stack: Seq<WorkView>,
    dirs: Seq<Seq<char>>,
    level: Level,
)
    ensures
        size_of_stack(disk, stack + queued_dirs(dirs, level)) == size_in(
            disk,
            dirs,
            depth_of(level),
        ) + size_of_stack(disk, stack),
    decreases dirs.len(),
{
    let all = stack + queued_dirs(dirs, level);
    if dirs.len() == 0 {
        assert(all =~= stack);
    } else {
        let rest = dirs.drop_first();
        assert(all.drop_last() =~= stack + queued_dirs(rest, level));
        assert(all.last() == WorkView::Dir { path: dirs[0], level });
        lemma_size_of_dirs(disk, stack, rest, level);
    }
}

proof fn lemma_size_of_logs(disk: Archive, stack: Seq<WorkView>, paths: Seq<Seq<char>>)
    ensures
        size_of_stack(disk, stack + queued_logs(paths)) == paths.len() + size_of_stack(
            disk,
            stack,
        ),
    decreases paths.len(),
{
    let all = stack + queued_logs(paths);
    if paths.len() == 0 {
        assert(all =~= stack);
    } else {
        let rest = paths.drop_first();
        assert(all.drop_last() =~= stack + queued_logs(rest));
        assert(all.last() == WorkView::Log { path: paths[0] });
        lemma_size_of_logs(disk, stack, rest);
    }
}

/// An archive that is held in memory: the entries of its directories, the
/// lines of its logs, and the paths at which repository markers lie. Of two
/// directories, or two logs, with the same path the first counts.
#[derive(Debug, Clone)]
pub struct MemoryArchive {
    pub dirs: Vec<(String, Vec<DirEntry>)>,
    pub logs: Vec<(String, Vec<String>)>,
    pub markers: Vec<String>,
}

/// The entries of the first directory at `path`.
pub open spec fn dir_at(dirs: Seq<(String, Vec<DirEntry>)>, path: Seq<char>) -> Option<
    Seq<EntryView>,
>
    decreases dirs.len(),
{
    if dirs.len() == 0 {
        None
    } else if dirs[0].0@ == path {
        Some(entry_views(dirs[0].1@))
    } else {
        dir_at(dirs.drop_first(), path)
    }
}

/// The lines of the first log at `path`.
pub open spec fn log_at(logs: Seq<(String, Vec<String>)>, path: Seq<char>) -> Option<
    Seq<Seq<char>>,
>
    decreases logs.len(),
{
    if logs.len() == 0 {
        None
    } else if logs[0].0@ == path {
        Some(line_texts(logs[0].1@))
    } else {
        log_at(logs.drop_first(), path)
    }
}

impl View for MemoryArchive {
    type V = Archive;

    open spec fn view(&self) -> Archive {
        Archive {
            listings: Map::new(
                |p: Seq<char>| dir_at(self.dirs@, p) is Some,
                |p: Seq<char>| dir_at(self.dirs@, p)->0,
            ),
            logs: Map::new(
                |p: Seq<char>| log_at(self.logs@, p) is Some,
                |p: Seq<char>| log_at(self.logs@, p)->0,
            ),
            markers: Set::new(|p: Seq<char>| string_views(self.markers@).contains(p)),
        }
    }
}

impl MemoryArchive {
    fn entries_at(&self, path: &str) -> (r: ScanReply)
        ensures
            r@ == (if self@.listings.dom().contains(path@) {
                ReplyView::Entries(self@.listings[path@])
            } else {
                ReplyView::Missing
            }),
    {
        let mut i: usize = 0;
        assert(self.dirs@.skip(0) =~= self.dirs@);
        while i < self.dirs.len()
            invariant
                i <= self.dirs.len(),
                dir_at(self.dirs@, path@) == dir_at(self.dirs@.skip(i as int), path@),
            decreases self.dirs.len() - i,
        {
            let ghost rest = self.dirs@.skip(i as int);
            assert(rest[0] == self.dirs@[i as int]);
            assert(rest.drop_first() =~= self.dirs@.skip(i + 1));
            if same_text(self.dirs[i].0.as_str(), path) {
                let mut entries: Vec<DirEntry> = Vec::new();
                let mut k: usize = 0;
                let ghost wanted = entry_views(self.dirs@[i as int].1@);
                assert(entry_views(entries@) =~= wanted.take(0));
                while k < self.dirs[i].1.len()
                    invariant
                        i < self.dirs.len(),
                        k <= self.dirs@[i as int].1@.len(),
                        wanted == entry_views(self.dirs@[i as int].1@),
                        entry_views(entries@) == wanted.take(k as int),
                    decreases self.dirs@[i as int].1@.len() - k,
                {
                    let ghost before = entries@;
                    let e = &self.dirs[i].1[k];
                    entries.push(DirEntry { name: e.name.clone(), kind: e.kind });
                    assert(entry_views(entries@) =~= entry_views(before).push(wanted[k as int]));
                    assert(wanted.take(k + 1) =~= wanted.take(k as int).push(wanted[k as int]));
                    k += 1;
                }
                assert(wanted.take(wanted.len() as int) =~= wanted);
                return ScanReply::Entries(entries);
            }
            i += 1;
        }
        ScanReply::Missing
    }

    fn lines_at(&self, path: &str) -> (r: ScanReply)
        ensures
            r@ == (if self@.logs.dom().contains(path@) {
                ReplyView::Lines(self@.logs[path@])
            } else {
                ReplyView::Unreadable
            }),
    {
        let mut i: usize = 0;
        assert(self.logs@.skip(0) =~= self.logs@);
        while i < self.logs.len()
            invariant
                i <= self.logs.len(),
                log_at(self.logs@, path@) == log_at(self.logs@.skip(i as int), path@),
            decreases self.logs.len() - i,
        {
            let ghost rest = self.logs@.skip(i as int);
            assert(rest[0] == self.logs@[i as int]);
            assert(rest.drop_first() =~= self.logs@.skip(i + 1));
            if same_text(self.logs[i].0.as_str(), path) {
                let mut lines: Vec<String> = Vec::new();
                let mut k: usize = 0;
                let ghost wanted = line_texts(self.logs@[i as int].1@);
                assert(line_texts(lines@) =~= wanted.take(0));
                while k < self.logs[i].1.len()
                    invariant
                        i < self.logs.len(),
                        k <= self.logs@[i as int].1@.len(),
                        wanted == line_texts(self.logs@[i as int].1@),
                        line_texts(lines@) == wanted.take(k as int),
                    decreases self.logs@[i as int].1@.len() - k,
                {
                    let ghost before = lines@;
                    lines.push(self.logs[i].1[k].clone());
                    assert(line_texts(lines@) =~= line_texts(before).push(wanted[k as int]));
                    assert(wanted.take(k + 1) =~= wanted.take(k as int).push(wanted[k as int]));
                    k += 1;
                }
                assert(wanted.take(wanted.len() as int) =~= wanted);
                return ScanReply::Lines(lines);
            }
            i += 1;
        }
        ScanReply::Unreadable
    }

    fn has_marker(&self, path: &str) -> (r: bool)
        ensures
            r == self@.markers.contains(path@),
    {
        let mut i: usize = 0;
        while i < self.markers.len()
            invariant
                i <= self.markers.len(),
                forall|k: int| 0 <= k < i ==> string_views(self.markers@)[k] != path@,
            decreases self.markers.len() - i,
        {
            if same_text(self.markers[i].as_str(), path) {
                assert(string_views(self.markers@)[i as int] == path@);
                return true;
            }
            i += 1;
        }
        false
    }

    /// What the archive answers to a request of a scan.
    pub fn answer_to(&self, request: &ScanRequest) -> (r: ScanReply)
        ensures
            forall|awaiting: AwaitView|
                !(awaiting is Nothing) && request@ == #[trigger] request_of(awaiting) ==> r@
                    == answer(self@, awaiting),
    {
        match request {
            ScanRequest::ListDirs(path) => self.entries_at(path.as_str()),
            ScanRequest::ListFiles(path) => self.entries_at(path.as_str()),
            ScanRequest::ReadLog(path) => self.lines_at(path.as_str()),
            ScanRequest::ProbeMarkers(paths) => {
                let mut found: Vec<bool> = Vec::new();
                let mut i: usize = 0;
                while i < paths.len()
                    invariant
                        i <= paths.len(),
                        found.len() == i,
                        forall|k: int|
                            0 <= k < i ==> found@[k] == self@.markers.contains(
                                #[trigger] string_views(paths@)[k],
                            ),
                    decreases paths.len() - i,
                {
                    found.push(self.has_marker(paths[i].as_str()));
                    i += 1;
                }
                proof {
                    assert forall|awaiting: AwaitView|
                        !(awaiting is Nothing) && request@ == #[trigger] request_of(
                            awaiting,
                        ) implies found@ =~= marks(
                        self@,
                        ancestors(awaiting->item.cwd, MAX_ROOT_HOPS as nat),
                    ) by {
                        let dirs = ancestors(awaiting->item.cwd, MAX_ROOT_HOPS as nat);
                        assert(string_views(paths@) == crate::scan::markers_of(dirs));
                        assert forall|k: int| 0 <= k < dirs.len() implies found@[k] == marks(
                            self@,
                            dirs,
                        )[k] by {
                            assert(string_views(paths@)[k] == joined(dirs[k], ".git"@));
                        }
                    }
                }
                ScanReply::Markers(found)
            },
            ScanRequest::Done => ScanReply::Missing,
        }
    }

    /// Runs a scan to its end against the archive, and returns the sessions
    /// that the scan gathered.
    pub fn run(&self, scan: SessionScan) -> (r: Vec<SessionItem>)
        ensures
            session_views(r@) == outcome(scan@, self@),
    {
        let mut current = scan;
        loop
            invariant
                outcome(current@, self@) == outcome(scan@, self@),
            decreases steps_left(current@, self@),
        {
            let ghost before = current@;
            let (next, request) = current.poll();
            if let ScanRequest::Done = request {
                return next.into_items();
            }
            let reply = self.answer_to(&request);
            assert(!(next@.awaiting is Nothing) && request@ == request_of(next@.awaiting));
            assert(steps_left(next@, self@) <= steps_left(before, self@));
            assert(reply@ == answer(self@, next@.awaiting));
            current = next.reply(reply);
        }
    }

    /// The sessions that `query` asks for, from this archive: those that it
    /// admits, the newest first, as many as its limit allows.
    pub fn list_recent_sessions(&self, cfg: Config, query: SessionQuery, home: Option<&str>) -> (r:
        Vec<SessionItem>)
        ensures
            session_views(r@) == expected(
                cfg,
                opt_str(home),
                Goal::Collect { filter: query.spec_filter(), limit: query.spec_limit() },
                self@,
            ),
    {
        self.run(crate::index::list_recent_sessions(cfg, query, home))
    }

    /// The newest session with the id `id` in this archive, if there is one.
    pub fn find_session_by_id(&self, cfg: Config, id: &str) -> (r: Option<SessionItem>)
        ensures
            match r {
                Some(s) => expected_by_id(cfg, id@, self@) == seq![s@],
                None => expected_by_id(cfg, id@, self@).len() == 0,
            },
    {
        let scan = crate::index::find_session_by_id(cfg, id);
        proof {
            lemma_found_is_one(cfg, scan@.goal, self@);
        }
        let mut found = self.run(scan);
        let ghost all = found@;
        assert(session_views(all).len() == all.len());
        match found.pop() {
            Some(s) => {
                assert(session_views(all)[0] == all[0]@);
                assert(session_views(all) =~= seq![s@]);
                Some(s)
            },
            None => None,
        }
    }
}

/// What a search for the id `id` returns from an archive.
pub open spec fn expected_by_id(cfg: Config, id: Seq<char>, disk: Archive) -> Seq<SessionView> {
    gathered_by_id(
        id,
        disk,
        logs_under(disk, joined(cfg.sessions.codex_home@, "sessions"@), 3),
    )
}

/// The first record with the id `id` among the logs, as a list of one; the
/// empty list where no log gives such a record.
pub open spec fn gathered_by_id(id: Seq<char>, disk: Archive, logs: Seq<Seq<char>>) -> Seq<
    SessionView,
>
    decreases logs.len(),
{
    if logs.len() == 0 {
        Seq::empty()
    } else {
        match record_at(disk, logs[0]) {
            Some(s) => if s.id == id {
                seq![s]
            } else {
                gathered_by_id(id, disk, logs.drop_first())
            },
            None => gathered_by_id(id, disk, logs.drop_first()),
        }
    }
}

/// A search for an id returns one session at most: the first that has it.
pub proof fn lemma_found_is_one(cfg: Config, goal: Goal, disk: Archive)
    requires
        goal is Find,
    ensures
        expected(cfg, None, goal, disk) == expected_by_id(cfg, goal->id@, disk),
        expected(cfg, None, goal, disk).len() <= 1,
{
    lemma_gathered_by_id(
        cfg,
        goal,
        disk,
        logs_under(disk, joined(cfg.sessions.codex_home@, "sessions"@), 3),
    );
}

proof fn lemma_gathered_by_id(cfg: Config, goal: Goal, disk: Archive, logs: Seq<Seq<char>>)
    requires
        goal is Find,
    ensures
        gathered(cfg, None, goal, disk, Seq::empty(), logs) == gathered_by_id(
            goal->id@,
            disk,
            logs,
        ),
        gathered_by_id(goal->id@, disk, logs).len() <= 1,
    decreases logs.len(),
{
    if logs.len() > 0 {
        lemma_gathered_by_id(cfg, goal, disk, logs.drop_first());
    }
}

} // verus!

//! The session index: a scan of the session archive, newest first, that
//! gathers the sessions a query admits and stops when it has enough. The scan
//! is a state machine. It asks for one thing at a time (the entries of a
//! directory, the lines of a log, the repository markers above a
//! directory), and takes the answer; reading the disk is the caller's part.
//! What a scan returns from an archive is stated in `archive`.

use crate::archive::{
    answer, expected, lemma_done_holds_outcome, lemma_poll_keeps_outcome,
    lemma_reply_keeps_outcome, lemma_scan_ends, lemma_scan_starts_right, outcome, steps_left,
    Archive,
};
use crate::config::Config;
use crate::paths::joined;
use crate::scan::{
    ancestors, collect_dirs_desc, collect_rollout_files_desc, dirs_desc, entry_views, filter_admits,
    git_marker, git_root_candidates, git_root_of, logs_desc, markers_of, matches_filter, DirEntry,
    EntryView, Filter, MAX_ROOT_HOPS, SessionQuery,
};
use crate::sessions::{
    extracted, line_texts, read_session_meta, session_views, SessionItem, SessionView,
};
use crate::text::{chars_of, opt_str, opt_text, same_text, string_of, string_views};
use vstd::prelude::*;

verus! {

/// What a directory of the archive holds: the root holds the years, a year
/// its months, a month its days, and a day its logs.
#[derive(Debug, Clone, Copy, PartialEq, Eq, Structural)]
pub enum Level {
    Root,
    Year,
    Month,
    Day,
}

/// What the scan is to do.
#[derive(Debug, Clone)]
pub enum Goal {
    /// Gather the sessions that `filter` admits, `limit` at most.
    Collect { filter: Filter, limit: usize },
    /// Find the session with the id `id`.
    Find { id: String },
}

enum Work {
    Dir(String, Level),
    Log(String),
}

enum Awaiting {
    Nothing,
    Dirs(String, Level),
    Files(String),
    Lines(String),
    Markers(SessionItem),
}

/// A directory or a log that the scan has yet to read.
pub ghost enum WorkView {
    Dir { path: Seq<char>, level: Level },
    Log { path: Seq<char> },
}

/// What the scan has asked for and not yet been told.
pub ghost enum AwaitView {
    Nothing,
    Dirs { parent: Seq<char>, level: Level },
    Files { parent: Seq<char> },
    Lines { path: Seq<char> },
    Markers { item: SessionView },
}

/// The state of a scan, as a plain value. The top of the stack is its last
/// element: what is read next.
pub ghost struct ScanView {
    pub cfg: Config,
    pub home: Option<Seq<char>>,
    pub goal: Goal,
    pub stack: Seq<WorkView>,
    pub awaiting: AwaitView,
    pub items: Seq<SessionView>,
    pub done: bool,
}

/// What the scan asks of its caller.
#[derive(Debug, Clone, PartialEq, Eq)]
pub enum ScanRequest {
    /// The entries of a directory that holds date directories.
    ListDirs(String),
    /// The entries of the directory of a day.
    ListFiles(String),
    /// The lines of a log.
    ReadLog(String),
    /// Whether each of these paths exists, nearest first; the caller may stop
    /// at the first that does.
    ProbeMarkers(Vec<String>),
    /// Nothing more: the scan has ended.
    Done,
}

/// A `ScanRequest` as a plain value.
pub ghost enum RequestView {
    ListDirs(Seq<char>),
    ListFiles(Seq<char>),
    ReadLog(Seq<char>),
    ProbeMarkers(Seq<Seq<char>>),
    Done,
}

impl View for ScanRequest {
    type V = RequestView;

    open spec fn view(&self) -> RequestView {
        match *self {
            ScanRequest::ListDirs(p) => RequestView::ListDirs(p@),
            ScanRequest::ListFiles(p) => RequestView::ListFiles(p@),
            ScanRequest::ReadLog(p) => RequestView::ReadLog(p@),
            ScanRequest::ProbeMarkers(ps) => RequestView::ProbeMarkers(string_views(ps@)),
            ScanRequest::Done => RequestView::Done,
        }
    }
}

/// What the caller tells the scan.
#[derive(Debug, Clone)]
pub enum ScanReply {
    /// The entries of the directory that was asked for.
    Entries(Vec<DirEntry>),
    /// The directory that was asked for does not exist.
    Missing,
    /// The lines of the log that was asked for.
    Lines(Vec<String>),
    /// The log that was asked for cannot be read.
    Unreadable,
    /// Whether each of the paths that were asked for exists, as far as they
    /// were looked at.
    Markers(Vec<bool>),
}

/// A `ScanReply` as a plain value.
pub ghost enum ReplyView {
    Entries(Seq<EntryView>),
    Missing,
    Lines(Seq<Seq<char>>),
    Unreadable,
    Markers(Seq<bool>),
}

impl View for ScanReply {
    type V = ReplyView;

    open spec fn view(&self) -> ReplyView {
        match *self {
            ScanReply::Entries(es) => ReplyView::Entries(entry_views(es@)),
            ScanReply::Missing => ReplyView::Missing,
            ScanReply::Lines(ls) => ReplyView::Lines(line_texts(ls@)),
            ScanReply::Unreadable => ReplyView::Unreadable,
            ScanReply::Markers(ms) => ReplyView::Markers(ms@),
        }
    }
}

/// The state of a scan of the session archive.
pub struct SessionScan {
    cfg: Config,
    home: Option<String>,
    goal: Goal,
    stack: Vec<Work>,
    awaiting: Awaiting,
    items: Vec<SessionItem>,
    done: bool,
}

/// What a directory holds that lies in one of the level `level`.
pub open spec fn below(level: Level) -> Level {
    match level {
        Level::Root => Level::Year,
        Level::Year => Level::Month,
        Level::Month => Level::Day,
        Level::Day => Level::Day,
    }
}

/// The directories `paths`, newest first, as work that is put on the stack:
/// the newest comes on top.
pub open spec fn queued_dirs(paths: Seq<Seq<char>>, level: Level) -> Seq<WorkView> {
    Seq::new(
        paths.len(),
        |k: int| WorkView::Dir { path: paths[paths.len() - 1 - k], level },
    )
}

/// The logs `paths`, newest first, as work that is put on the stack: the
/// newest comes on top.
pub open spec fn queued_logs(paths: Seq<Seq<char>>) -> Seq<WorkView> {
    Seq::new(paths.len(), |k: int| WorkView::Log { path: paths[paths.len() - 1 - k] })
}

/// Whether the scan has gathered as many sessions as it was asked for.
pub open spec fn is_full(v: ScanView) -> bool {
    v.goal matches Goal::Collect { filter, limit } && v.items.len() >= limit
}

/// What the scan asks for while it waits for an answer.
pub open spec fn request_of(a: AwaitView) -> RequestView {
    match a {
        AwaitView::Nothing => RequestView::Done,
        AwaitView::Dirs { parent, level } => RequestView::ListDirs(parent),
        AwaitView::Files { parent } => RequestView::ListFiles(parent),
        AwaitView::Lines { path } => RequestView::ReadLog(path),
        AwaitView::Markers { item } => RequestView::ProbeMarkers(
            markers_of(ancestors(item.cwd, MAX_ROOT_HOPS as nat)),
        ),
    }
}

/// The state of a scan after it was asked what it needs next, and what it
/// needs.
pub ghost struct Polled {
    pub state: ScanView,
    pub request: RequestView,
}

/// What the scan needs next. While an answer is due, it is the same request
/// again. Else the scan takes what is on top of its stack: a directory is to
/// be listed; a log is to be read, unless the scan has gathered as many
/// sessions as it was asked for, which ends it. With nothing left the scan
/// has ended.
pub open spec fn polled(pre: ScanView) -> Polled {
    if pre.awaiting != AwaitView::Nothing {
        Polled { state: pre, request: request_of(pre.awaiting) }
    } else if pre.done || pre.stack.len() == 0 {
        Polled { state: ScanView { done: true, ..pre }, request: RequestView::Done }
    } else {
        let rest = pre.stack.drop_last();
        match pre.stack.last() {
            WorkView::Dir { path, level } => {
                let awaiting = if level == Level::Day {
                    AwaitView::Files { parent: path }
                } else {
                    AwaitView::Dirs { parent: path, level }
                };
                Polled {
                    state: ScanView { stack: rest, awaiting, ..pre },
                    request: request_of(awaiting),
                }
            },
            WorkView::Log { path } => if is_full(pre) {
                Polled { state: ScanView { done: true, ..pre }, request: RequestView::Done }
            } else {
                Polled {
                    state: ScanView { stack: rest, awaiting: AwaitView::Lines { path }, ..pre },
                    request: RequestView::ReadLog(path),
                }
            },
        }
    }
}

/// The state of a scan that has read the record `record` from a log, or
/// none. A scan that looks for an id ends with the record that has it. A
/// scan that gathers sessions takes the record where the filter admits it;
/// where the filter goes by the repository, the record waits until the
/// repository markers are known.
pub open spec fn with_record(pre: ScanView, record: Option<SessionView>) -> ScanView {
    match record {
        None => pre,
        Some(s) => match pre.goal {
            Goal::Find { id } => if s.id == id@ {
                ScanView { items: seq![s], done: true, ..pre }
            } else {
                pre
            },
            Goal::Collect { filter, limit } => if filter is ForRepoRoot {
                ScanView { awaiting: AwaitView::Markers { item: s }, ..pre }
            } else if filter_admits(pre.cfg, filter, s.cwd, pre.home, None) {
                ScanView { items: pre.items.push(s), ..pre }
            } else {
                pre
            },
        },
    }
}

/// The state of a scan after an answer. An answer that is not the one that
/// is due changes nothing.
pub open spec fn replied(pre: ScanView, reply: ReplyView) -> ScanView {
    let idle = ScanView { awaiting: AwaitView::Nothing, ..pre };
    match (pre.awaiting, reply) {
        (AwaitView::Dirs { parent, level }, ReplyView::Entries(es)) => ScanView {
            stack: pre.stack + queued_dirs(dirs_desc(parent, es), below(level)),
            ..idle
        },
        (AwaitView::Dirs { parent, level }, ReplyView::Missing) => idle,
        (AwaitView::Files { parent }, ReplyView::Entries(es)) => ScanView {
            stack: pre.stack + queued_logs(logs_desc(parent, es)),
            ..idle
        },
        (AwaitView::Files { parent }, ReplyView::Missing) => idle,
        (AwaitView::Lines { path }, ReplyView::Lines(ls)) => with_record(
            idle,
            extracted(ls, path),
        ),
        (AwaitView::Lines { path }, ReplyView::Unreadable) => idle,
        (AwaitView::Markers { item }, ReplyView::Markers(ms)) => match pre.goal {
            Goal::Collect { filter, limit } => if filter_admits(
                pre.cfg,
                filter,
                item.cwd,
                pre.home,
                git_root_of(item.cwd, ms),
            ) {
                ScanView { items: pre.items.push(item), ..idle }
            } else {
                idle
            },
            Goal::Find { id } => idle,
        },
        _ => pre,
    }
}

/// Whether some state of the repository markers makes `filter` admit a
/// session that ran in `cwd`.
pub open spec fn admissible(
    cfg: Config,
    filter: Filter,
    cwd: Seq<char>,
    home: Option<Seq<char>>,
) -> bool {
    exists|marked: Seq<bool>| #[trigger]
        filter_admits(cfg, filter, cwd, home, git_root_of(cwd, marked))
}

/// What holds of every scan: each session it has gathered has an id and is
/// one that its goal asks for, it has gathered no more sessions than it was
/// asked for, and it waits for a log only while it has gathered fewer. The
/// entries of a day are asked for as files.
pub open spec fn scan_ok(v: ScanView) -> bool {
    &&& forall|i: int| 0 <= i < v.items.len() ==> (#[trigger] v.items[i]).id.len() > 0
    &&& match v.goal {
        Goal::Collect { filter, limit } => {
            &&& v.items.len() <= limit
            &&& (v.awaiting is Lines || v.awaiting is Markers) ==> v.items.len() < limit
            &&& forall|i: int|
                0 <= i < v.items.len() ==> admissible(
                    v.cfg,
                    filter,
                    (#[trigger] v.items[i]).cwd,
                    v.home,
                )
        },
        Goal::Find { id } => {
            &&& v.items.len() <= 1
            &&& forall|i: int| 0 <= i < v.items.len() ==> (#[trigger] v.items[i]).id == id@
        },
    }
    &&& v.awaiting matches AwaitView::Markers { item } ==> item.id.len() > 0 && by_repository(
        v.goal,
    )
    &&& v.awaiting matches AwaitView::Dirs { parent, level } ==> level != Level::Day
}

/// Whether the goal is to gather the sessions of one repository.
pub open spec fn by_repository(goal: Goal) -> bool {
    match goal {
        Goal::Collect { filter, limit } => filter is ForRepoRoot,
        Goal::Find { id } => false,
    }
}

impl Work {
    spec fn view(&self) -> WorkView {
        match *self {
            Work::Dir(path, level) => WorkView::Dir { path: path@, level },
            Work::Log(path) => WorkView::Log { path: path@ },
        }
    }
}

impl Awaiting {
    spec fn view(&self) -> AwaitView {
        match *self {
            Awaiting::Nothing => AwaitView::Nothing,
            Awaiting::Dirs(parent, level) => AwaitView::Dirs { parent: parent@, level },
            Awaiting::Files(parent) => AwaitView::Files { parent: parent@ },
            Awaiting::Lines(path) => AwaitView::Lines { path: path@ },
            Awaiting::Markers(item) => AwaitView::Markers { item: item@ },
        }
    }
}

spec fn work_views(stack: Seq<Work>) -> Seq<WorkView> {
    stack.map_values(|w: Work| w.view())
}

impl View for SessionScan {
    type V = ScanView;

    closed spec fn view(&self) -> ScanView {
        ScanView {
            cfg: self.cfg,
            home: opt_text(self.home),
            goal: self.goal,
            stack: work_views(self.stack@),
            awaiting: self.awaiting.view(),
            items: session_views(self.items@),
            done: self.done,
        }
    }
}

/// The scan before anything is read: the directory `sessions` in the home
/// of the sessions is to be listed.
pub open spec fn initial_scan(cfg: Config, home: Option<Seq<char>>, goal: Goal) -> ScanView {
    ScanView {
        cfg,
        home,
        goal,
        stack: seq![
            WorkView::Dir {
                path: joined(cfg.sessions.codex_home@, "sessions"@),
                level: Level::Root,
            },
        ],
        awaiting: AwaitView::Nothing,
        items: Seq::empty(),
        done: false,
    }
}

fn below_level(level: Level) -> (r: Level)
    ensures
        r == below(level),
{
    match level {
        Level::Root => Level::Year,
        Level::Year => Level::Month,
        Level::Month => Level::Day,
        Level::Day => Level::Day,
    }
}

fn push_dirs(stack: &mut Vec<Work>, paths: Vec<String>, level: Level)
    ensures
        work_views(final(stack)@) == work_views(old(stack)@) + queued_dirs(
            string_views(paths@),
            level,
        ),
{
    let mut paths = paths;
    let ghost all = string_views(paths@);
    let ghost wanted = queued_dirs(all, level);
    let ghost start = work_views(stack@);
    assert(start + wanted.take(0) =~= start);
    while paths.len() > 0
        invariant
            paths.len() <= all.len(),
            string_views(paths@) == all.take(paths.len() as int),
            wanted == queued_dirs(all, level),
            work_views(stack@) == start + wanted.take(all.len() - paths.len()),
        decreases paths.len(),
    {
        let ghost before = stack@;
        let ghost k = all.len() - paths.len();
        let ghost left = paths@;
        let p = paths.pop().unwrap();
        assert(p@ == string_views(left)[left.len() - 1]);
        assert(string_views(paths@) =~= all.take(paths.len() as int));
        stack.push(Work::Dir(p, level));
        assert(work_views(stack@) =~= work_views(before).push(wanted[k]));
        assert(wanted.take(k + 1) =~= wanted.take(k).push(wanted[k]));
        assert(start + wanted.take(k + 1) =~= (start + wanted.take(k)).push(wanted[k]));
    }
    assert(wanted.take(all.len() as int) =~= wanted);
}

fn push_logs(stack: &mut Vec<Work>, paths: Vec<String>)
    ensures
        work_views(final(stack)@) == work_views(old(stack)@) + queued_logs(string_views(paths@)),
{
    let mut paths = paths;
    let ghost all = string_views(paths@);
    let ghost wanted = queued_logs(all);
    let ghost start = work_views(stack@);
    assert(start + wanted.take(0) =~= start);
    while paths.len() > 0
        invariant
            paths.len() <= all.len(),
            string_views(paths@) == all.take(paths.len() as int),
            wanted == queued_logs(all),
            work_views(stack@) == start + wanted.take(all.len() - paths.len()),
        decreases paths.len(),
    {
        let ghost before = stack@;
        let ghost k = all.len() - paths.len();
        let ghost left = paths@;
        let p = paths.pop().unwrap();
        assert(p@ == string_views(left)[left.len() - 1]);
        assert(string_views(paths@) =~= all.take(paths.len() as int));
        stack.push(Work::Log(p));
        assert(work_views(stack@) =~= work_views(before).push(wanted[k]));
        assert(wanted.take(k + 1) =~= wanted.take(k).push(wanted[k]));
        assert(start + wanted.take(k + 1) =~= (start + wanted.take(k)).push(wanted[k]));
    }
    assert(wanted.take(all.len() as int) =~= wanted);
}

fn marker_paths(cwd: &str) -> (paths: Vec<String>)
    ensures
        string_views(paths@) == markers_of(ancestors(cwd@, MAX_ROOT_HOPS as nat)),
{
    let dirs = git_root_candidates(cwd);
    let ghost wanted = markers_of(string_views(dirs@));
    let mut paths: Vec<String> = Vec::new();
    let mut i: usize = 0;
    assert(string_views(paths@) =~= wanted.take(0));
    while i < dirs.len()
        invariant
            i <= dirs.len(),
            wanted == markers_of(string_views(dirs@)),
            string_views(paths@) == wanted.take(i as int),
        decreases dirs.len() - i,
    {
        let ghost before = paths@;
        paths.push(git_marker(dirs[i].as_str()));
        assert(string_views(dirs@)[i as int] == dirs@[i as int]@);
        assert(string_views(paths@) =~= string_views(before).push(wanted[i as int]));
        assert(wanted.take(i + 1) =~= wanted.take(i as int).push(wanted[i as int]));
        i += 1;
    }
    assert(wanted.take(dirs.len() as int) =~= wanted);
    paths
}

fn home_str(home: &Option<String>) -> (r: Option<&str>)
    ensures
        opt_str(r) == opt_text(*home),
{
    match home {
        Some(h) => Some(h.as_str()),
        None => None,
    }
}

impl SessionScan {
    #[verifier::type_invariant]
    spec fn inv(self) -> bool {
        scan_ok(self@)
    }

    /// A scan that has read nothing yet.
    pub fn new(cfg: Config, home: Option<&str>, goal: Goal) -> (r: SessionScan)
        ensures
            r@ == initial_scan(cfg, opt_str(home), goal),
    {
        let root = crate::paths::path_join(cfg.sessions.codex_home.as_str(), "sessions");
        let mut stack: Vec<Work> = Vec::new();
        stack.push(Work::Dir(root, Level::Root));
        let items: Vec<SessionItem> = Vec::new();
        let home = match home {
            Some(h) => Some(string_of(&chars_of(h))),
            None => None,
        };
        assert(work_views(stack@) =~= initial_scan(cfg, opt_text(home), goal).stack);
        assert(session_views(items@) =~= Seq::<SessionView>::empty());
        SessionScan { cfg, home, goal, stack, awaiting: Awaiting::Nothing, items, done: false }
    }

    /// Says what the scan needs next, and moves the scan on to wait for it.
    /// What the scan will return from an archive stays the same; where the
    /// scan says that it has ended, it holds what it was to return.
    pub fn poll(self) -> (r: (SessionScan, ScanRequest))
        ensures
            (Polled { state: r.0@, request: r.1@ }) == polled(self@),
            scan_ok(r.0@),
            forall|disk: Archive| #[trigger] outcome(r.0@, disk) == outcome(self@, disk),
            r.1 is Done ==> forall|disk: Archive| r.0@.items == #[trigger] outcome(self@, disk),
            self@.awaiting is Nothing && !(r.1 is Done) ==> forall|disk: Archive|
                steps_left(r.0@, disk) < #[trigger] steps_left(self@, disk),
    {
        proof {
            use_type_invariant(&self);
            assert forall|disk: Archive| #[trigger]
                outcome(polled(self@).state, disk) == outcome(self@, disk) by {
                lemma_poll_keeps_outcome(self@, disk);
            }
            if polled(self@).request is Done {
                assert forall|disk: Archive|
                    polled(self@).state.items == #[trigger] outcome(self@, disk) by {
                    lemma_done_holds_outcome(self@, disk);
                }
            }
            if self@.awaiting is Nothing && !(polled(self@).request is Done) {
                assert forall|disk: Archive|
                    steps_left(polled(self@).state, disk) < #[trigger] steps_left(
                        self@,
                        disk,
                    ) by {
                    lemma_scan_ends(self@, disk);
                }
            }
        }
        let SessionScan { cfg, home, goal, stack, awaiting, items, done } = self;
        let ghost pre = self@;
        let mut stack = stack;
        match awaiting {
            Awaiting::Dirs(parent, level) => {
                let request = ScanRequest::ListDirs(parent.clone());
                (
                    SessionScan {
                        cfg,
                        home,
                        goal,
                        stack,
                        awaiting: Awaiting::Dirs(parent, level),
                        items,
                        done,
                    },
                    request,
                )
            },
            Awaiting::Files(parent) => {
                let request = ScanRequest::ListFiles(parent.clone());
                (
                    SessionScan {
                        cfg,
                        home,
                        goal,
                        stack,
                        awaiting: Awaiting::Files(parent),
                        items,
                        done,
                    },
                    request,
                )
            },
            Awaiting::Lines(path) => {
                let request = ScanRequest::ReadLog(path.clone());
                (
                    SessionScan {
                        cfg,
                        home,
                        goal,
                        stack,
                        awaiting: Awaiting::Lines(path),
                        items,
                        done,
                    },
                    request,
                )
            },
            Awaiting::Markers(item) => {
                let request = ScanRequest::ProbeMarkers(marker_paths(item.cwd.as_str()));
                (
                    SessionScan {
                        cfg,
                        home,
                        goal,
                        stack,
                        awaiting: Awaiting::Markers(item),
                        items,
                        done,
                    },
                    request,
                )
            },
            Awaiting::Nothing => {
                if done || stack.len() == 0 {
                    return (
                        SessionScan {
                            cfg,
                            home,
                            goal,
                            stack,
                            awaiting: Awaiting::Nothing,
                            items,
                            done: true,
                        },
                        ScanRequest::Done,
                    );
                }
                let full = match &goal {
                    Goal::Collect { filter, limit } => items.len() >= *limit,
                    Goal::Find { id } => false,
                };
                assert(session_views(items@).len() == items.len());
                assert(full == is_full(pre));
                let ghost old_stack = stack@;
                let is_log = match &stack[stack.len() - 1] {
                    Work::Log(_) => true,
                    Work::Dir(_, _) => false,
                };
                assert(work_views(old_stack).last() == old_stack.last().view());
                if is_log && full {
                    return (
                        SessionScan {
                            cfg,
                            home,
                            goal,
                            stack,
                            awaiting: Awaiting::Nothing,
                            items,
                            done: true,
                        },
                        ScanRequest::Done,
                    );
                }
                let top = stack.pop().unwrap();
                assert(work_views(stack@) =~= work_views(old_stack).drop_last());
                match top {
                    Work::Dir(path, level) => {
                        if level == Level::Day {
                            let request = ScanRequest::ListFiles(path.clone());
                            (
                                SessionScan {
                                    cfg,
                                    home,
                                    goal,
                                    stack,
                                    awaiting: Awaiting::Files(path),
                                    items,
                                    done,
                                },
                                request,
                            )
                        } else {
                            let request = ScanRequest::ListDirs(path.clone());
                            (
                                SessionScan {
                                    cfg,
                                    home,
                                    goal,
                                    stack,
                                    awaiting: Awaiting::Dirs(path, level),
                                    items,
                                    done,
                                },
                                request,
                            )
                        }
                    },
                    Work::Log(path) => {
                        let request = ScanRequest::ReadLog(path.clone());
                        (
                            SessionScan {
                                cfg,
                                home,
                                goal,
                                stack,
                                awaiting: Awaiting::Lines(path),
                                items,
                                done,
                            },
                            request,
                        )
                    },
                }
            },
        }
    }

    /// Takes the answer to what the scan has asked for. Where the answer is
    /// that of an archive, what the scan will return from that archive stays
    /// the same, and the scan is nearer to its end.
    pub fn reply(self, reply: ScanReply) -> (r: SessionScan)
        ensures
            r@ == replied(self@, reply@),
            scan_ok(r@),
            forall|disk: Archive|
                !(self@.awaiting is Nothing) && reply@ == #[trigger] answer(disk, self@.awaiting)
                    ==> outcome(r@, disk) == outcome(self@, disk) && steps_left(r@, disk)
                    < steps_left(self@, disk),
    {
        proof {
            use_type_invariant(&self);
            assert forall|disk: Archive|
                !(self@.awaiting is Nothing) && reply@ == #[trigger] answer(
                    disk,
                    self@.awaiting,
                ) implies outcome(replied(self@, reply@), disk) == outcome(self@, disk)
                && steps_left(replied(self@, reply@), disk) < steps_left(self@, disk) by {
                lemma_reply_keeps_outcome(self@, disk);
                lemma_scan_ends(self@, disk);
            }
        }
        let ghost pre = self@;
        let SessionScan { cfg, home, goal, stack, awaiting, items, done } = self;
        let mut stack = stack;
        let mut items = items;
        match (awaiting, reply) {
            (Awaiting::Dirs(parent, level), ScanReply::Entries(es)) => {
                let paths = collect_dirs_desc(parent.as_str(), &es);
                push_dirs(&mut stack, paths, below_level(level));
                SessionScan { cfg, home, goal, stack, awaiting: Awaiting::Nothing, items, done }
            },
            (Awaiting::Dirs(parent, level), ScanReply::Missing) => SessionScan {
                cfg,
                home,
                goal,
                stack,
                awaiting: Awaiting::Nothing,
                items,
                done,
            },
            (Awaiting::Files(parent), ScanReply::Entries(es)) => {
                let paths = collect_rollout_files_desc(parent.as_str(), &es);
                push_logs(&mut stack, paths);
                SessionScan { cfg, home, goal, stack, awaiting: Awaiting::Nothing, items, done }
            },
            (Awaiting::Files(parent), ScanReply::Missing) => SessionScan {
                cfg,
                home,
                goal,
                stack,
                awaiting: Awaiting::Nothing,
                items,
                done,
            },
            (Awaiting::Lines(path), ScanReply::Lines(ls)) => {
                let record = read_session_meta(&ls, path.as_str());
                let s = match record {
                    Some(s) => s,
                    None => {
                        return SessionScan {
                            cfg,
                            home,
                            goal,
                            stack,
                            awaiting: Awaiting::Nothing,
                            items,
                            done,
                        };
                    },
                };
                let ghost before = items@;
                match &goal {
                    Goal::Find { id } => {
                        if same_text(s.id.as_str(), id.as_str()) {
                            let mut found: Vec<SessionItem> = Vec::new();
                            found.push(s);
                            assert(session_views(found@) =~= seq![s@]);
                            SessionScan {
                                cfg,
                                home,
                                goal,
                                stack,
                                awaiting: Awaiting::Nothing,
                                items: found,
                                done: true,
                            }
                        } else {
                            SessionScan {
                                cfg,
                                home,
                                goal,
                                stack,
                                awaiting: Awaiting::Nothing,
                                items,
                                done,
                            }
                        }
                    },
                    Goal::Collect { filter, limit } => {
                        let by_repo = match filter {
                            Filter::ForRepoRoot(_) => true,
                            _ => false,
                        };
                        if by_repo {
                            SessionScan {
                                cfg,
                                home,
                                goal,
                                stack,
                                awaiting: Awaiting::Markers(s),
                                items,
                                done,
                            }
                        } else if matches_filter(
                            &cfg,
                            filter,
                            s.cwd.as_str(),
                            home_str(&home),
                            None,
                        ) {
                            proof {
                                let none: Seq<bool> = Seq::empty();
                                assert(filter_admits(
                                    cfg,
                                    *filter,
                                    s@.cwd,
                                    opt_text(home),
                                    git_root_of(s@.cwd, none),
                                ));
                            }
                            items.push(s);
                            assert(session_views(items@) =~= session_views(before).push(s@));
                            SessionScan {
                                cfg,
                                home,
                                goal,
                                stack,
                                awaiting: Awaiting::Nothing,
                                items,
                                done,
                            }
                        } else {
                            SessionScan {
                                cfg,
                                home,
                                goal,
                                stack,
                                awaiting: Awaiting::Nothing,
                                items,
                                done,
                            }
                        }
                    },
                }
            },
            (Awaiting::Lines(path), ScanReply::Unreadable) => SessionScan {
                cfg,
                home,
                goal,
                stack,
                awaiting: Awaiting::Nothing,
                items,
                done,
            },
            (Awaiting::Markers(item), ScanReply::Markers(ms)) => {
                let ghost before = items@;
                let admitted = match &goal {
                    Goal::Collect { filter, limit } => {
                        let root = crate::scan::git_root_for_path(item.cwd.as_str(), &ms);
                        let r: Option<&str> = match &root {
                            Some(x) => Some(x.as_str()),
                            None => None,
                        };
                        matches_filter(&cfg, filter, item.cwd.as_str(), home_str(&home), r)
                    },
                    Goal::Find { id } => false,
                };
                if admitted {
                    items.push(item);
                    assert(session_views(items@) =~= session_views(before).push(item@));
                }
                SessionScan { cfg, home, goal, stack, awaiting: Awaiting::Nothing, items, done }
            },
            (awaiting, _) => SessionScan { cfg, home, goal, stack, awaiting, items, done },
        }
    }

    /// Whether the scan has ended.
    pub fn is_done(&self) -> (r: bool)
        ensures
            r == self@.done,
    {
        self.done
    }

    /// The sessions that the scan has gathered, in the order in which it
    /// came upon them: the newest first. Each has an id and is one that the
    /// goal of the scan asks for; a scan that gathers sessions holds no more
    /// than its limit, and a scan that looks for an id holds one session at
    /// most.
    pub fn into_items(self) -> (r: Vec<SessionItem>)
        ensures
            session_views(r@) == self@.items,
            scan_ok(self@),
            self@.goal matches Goal::Collect { filter, limit } ==> r.len() <= limit,
            self@.goal is Find ==> r.len() <= 1,
    {
        proof {
            use_type_invariant(&self);
        }
        assert(session_views(self.items@).len() == self.items@.len());
        self.items
    }
}

/// Starts the scan for the sessions that `query` asks for. Run to its end
/// against an archive, the scan returns the sessions that the query admits,
/// the newest first, as many as its limit allows.
pub fn list_recent_sessions(cfg: Config, query: SessionQuery, home: Option<&str>) -> (r:
    SessionScan)
    ensures
        r@ == initial_scan(
            cfg,
            opt_str(home),
            Goal::Collect { filter: query.spec_filter(), limit: query.spec_limit() },
        ),
        forall|disk: Archive| #[trigger]
            outcome(r@, disk) == expected(
                cfg,
                opt_str(home),
                Goal::Collect { filter: query.spec_filter(), limit: query.spec_limit() },
                disk,
            ),
{
    let (limit, filter) = query.into_parts();
    let ghost goal = Goal::Collect { filter, limit };
    proof {
        assert forall|disk: Archive| #[trigger]
            outcome(initial_scan(cfg, opt_str(home), goal), disk) == expected(
                cfg,
                opt_str(home),
                goal,
                disk,
            ) by {
            lemma_scan_starts_right(cfg, opt_str(home), goal, disk);
        }
    }
    SessionScan::new(cfg, home, Goal::Collect { filter, limit })
}

/// Starts the scan for the session with the id `id`. Run to its end against
/// an archive, the scan reads the whole archive if it has to, and returns the
/// newest session with that id, or none.
pub fn find_session_by_id(cfg: Config, id: &str) -> (r: SessionScan)
    ensures
        r@.goal matches Goal::Find { id: wanted } && wanted@ == id@,
        r@ == initial_scan(cfg, None, r@.goal),
        forall|disk: Archive| #[trigger] outcome(r@, disk) == expected(cfg, None, r@.goal, disk),
{
    let goal = Goal::Find { id: string_of(&chars_of(id)) };
    proof {
        assert forall|disk: Archive| #[trigger]
            outcome(initial_scan(cfg, None, goal), disk) == expected(cfg, None, goal, disk) by {
            lemma_scan_starts_right(cfg, None, goal, disk);
        }
    }
    SessionScan::new(cfg, None, goal)
}

/// A scan that has gathered as many sessions as it was asked for reads no
/// further log: the next log on its stack ends it.
pub proof fn lemma_full_scan_reads_no_log(pre: ScanView)
    requires
        scan_ok(pre),
        is_full(pre),
    ensures
        !(polled(pre).request is ReadLog),
        !(polled(pre).request is ProbeMarkers),
        polled(pre).state.items == pre.items,
{
}

} // verus!

//! Project targets: the directories in which a session can be started, how
//! they are gathered from the configured folders and from the session
//! history, and how they are ranked.

use crate::config::{Config, PathState};
use crate::paths::{
    basename, basename_of, compact, compact_path, file_name_of, parent_of, path_before, path_eq,
    path_file_name, path_lt, path_parent, same_path,
};
use crate::rank::{is_ranking, keys_of, rank, ranking, Ranked};
use crate::scan::{git_root_for_path, git_root_of, EntryKind};
use crate::sessions::{session_views, SessionItem, SessionView};
use crate::text::{
    chars_of, copy_opt, ellipsize, ellipsize_chars, first_content_line, first_content_line_of, gap,
    is_text_before, lemma_text_before_total, lemma_text_before_transitive, lowercase_of, opt_str,
    opt_text, pad_right, pad_right_chars, push_all, push_field, push_gap, replace_char,
    replace_char_in, same_chars, string_of, string_views, text_before, to_lowercase, trim,
    trim_chars, with_field,
};
use crate::timefmt::{when_chars, when_text, Timestamp};
use vstd::prelude::*;

verus! {

/// How a target came to be known. Where several sources name one directory,
/// the first to do so decides the kind: explicit paths are taken first, then
/// the repositories found under the roots, then the session history.
#[derive(Debug, Clone, Copy, PartialEq, Eq, PartialOrd, Ord)]
pub enum TargetKind {
    RootChildGitRepo,
    ExplicitPath,
    SessionHistory,
}

/// A directory in which a session can be started.
#[derive(Debug, Clone, PartialEq, Eq)]
pub struct ProjectTarget {
    pub path: String,
    pub kind: TargetKind,
    pub label: String,
    pub last_session_at: Option<String>,
    pub last_session_summary: Option<String>,
}

/// What a `ProjectTarget` holds, as plain text.
pub ghost struct TargetView {
    pub path: Seq<char>,
    pub kind: TargetKind,
    pub label: Seq<char>,
    pub last_session_at: Option<Seq<char>>,
    pub last_session_summary: Option<Seq<char>>,
}

impl View for ProjectTarget {
    type V = TargetView;

    open spec fn view(&self) -> TargetView {
        TargetView {
            path: self.path@,
            kind: self.kind,
            label: self.label@,
            last_session_at: opt_text(self.last_session_at),
            last_session_summary: opt_text(self.last_session_summary),
        }
    }
}

/// The views of a list of targets.
pub open spec fn target_views(items: Seq<ProjectTarget>) -> Seq<TargetView> {
    items.map_values(|t: ProjectTarget| t@)
}

impl ProjectTarget {
    /// A copy of the target.
    pub fn duplicate(&self) -> (r: ProjectTarget)
        ensures
            r == *self,
    {
        ProjectTarget {
            path: self.path.clone(),
            kind: self.kind,
            label: self.label.clone(),
            last_session_at: copy_opt(&self.last_session_at),
            last_session_summary: copy_opt(&self.last_session_summary),
        }
    }

    /// The row that shows the target in a list.
    pub fn display_line(&self, home: Option<&str>, now: Timestamp) -> (r: String)
        ensures
            r@ == target_line(self@, opt_str(home), now),
    {
        string_of(&target_line_chars(self, home, now))
    }
}

/// A summary cut for a row: tabs turned into spaces, then the first line that
/// is not blank, without white space at its ends, cut to `max` characters.
pub open spec fn one_line(s: Seq<char>, max: int) -> Seq<char> {
    ellipsize(trim(first_content_line(replace_char(s, '\t', ' '))), max)
}

fn one_line_chars(s: &str, max_chars: usize) -> (out: Vec<char>)
    ensures
        out@ == one_line(s@, max_chars as int),
{
    let a = replace_char_in(&chars_of(s), '\t', ' ');
    let line = first_content_line_of(&a);
    ellipsize_chars(trim_chars(&line), max_chars)
}

/// A summary cut for a row: its first line that is not blank, trimmed, and
/// cut to `max_chars` characters with an ellipsis.
pub fn truncate_one_line(s: &str, max_chars: usize) -> (r: String)
    ensures
        r@ == one_line(s@, max_chars as int),
{
    string_of(&one_line_chars(s, max_chars))
}

/// The row of a target in a list: its label, its path, when it was last
/// used, and the summary of that session where there is one.
pub open spec fn target_line(t: TargetView, home: Option<Seq<char>>, now: Timestamp) -> Seq<
    char,
> {
    let summary = match t.last_session_summary {
        Some(s) => one_line(s, 64),
        None => Seq::empty(),
    };
    with_field(
        pad_right(t.label, 22) + gap() + pad_right(compact(t.path, 52, home), 52) + gap()
            + when_text(t.last_session_at, now),
        summary,
    )
}

/// The row of a target in a list, as characters.
pub fn target_line_chars(t: &ProjectTarget, home: Option<&str>, now: Timestamp) -> (out: Vec<
    char,
>)
    ensures
        out@ == target_line(t@, opt_str(home), now),
{
    let mut out = pad_right_chars(chars_of(t.label.as_str()), 22);
    push_gap(&mut out);
    let path = compact_path(t.path.as_str(), 52, home);
    let padded = pad_right_chars(chars_of(path.as_str()), 52);
    push_all(&mut out, &padded);
    push_gap(&mut out);
    let last = when_chars(&t.last_session_at, now);
    push_all(&mut out, &last);
    let summary = match &t.last_session_summary {
        Some(s) => one_line_chars(s.as_str(), 64),
        None => Vec::new(),
    };
    push_field(&mut out, &summary);
    out
}

/// Whether a directory name is one that is never a project: a hidden one, or
/// the output folder of a build.
pub open spec fn is_noise_name(name: Seq<char>) -> bool {
    ||| (name.len() > 0 && name[0] == '.')
    ||| name == "node_modules"@
    ||| name == "target"@
    ||| name == "dist"@
    ||| name == "build"@
}

/// Whether the directory at `path` is left out when a root is searched for
/// repositories: one whose name begins with a dot, or `node_modules`,
/// `target`, `dist` or `build`. A path without a final component is kept.
pub fn is_hidden_or_noise(path: &str) -> (r: bool)
    ensures
        r == match file_name_of(path@) {
            Some(name) => is_noise_name(name),
            None => false,
        },
{
    match path_file_name(path) {
        None => false,
        Some(name) => {
            let n = chars_of(name.as_str());
            (n.len() > 0 && n[0] == '.') || same_chars(&n, &chars_of("node_modules"))
                || same_chars(&n, &chars_of("target")) || same_chars(&n, &chars_of("dist"))
                || same_chars(&n, &chars_of("build"))
        },
    }
}

/// The label of a target: the name of its directory.
pub fn display_name(path: &str) -> (r: String)
    ensures
        r@ == basename_of(path@),
{
    basename(path)
}

/// A directory directly below a configured root, with what the file system
/// says of it: whether it is a directory, and whether it holds a repository
/// marker.
#[derive(Debug, Clone, PartialEq, Eq)]
pub struct RootChild {
    pub path: String,
    pub is_dir: bool,
    pub has_marker: bool,
}

/// Whether two paths are the same, by their components.
pub open spec fn alike(a: Seq<char>, b: Seq<char>) -> bool {
    same_path(a, b) || same_path(b, a)
}

/// Where the target for `path` stands in `list`: the first place whose path
/// is `path`; none where no target has it.
pub open spec fn position_of(list: Seq<TargetView>, path: Seq<char>) -> Option<int>
    decreases list.len(),
{
    if list.len() == 0 {
        None
    } else if alike(list[0].path, path) {
        Some(0)
    } else {
        match position_of(list.drop_first(), path) {
            Some(i) => Some(i + 1),
            None => None,
        }
    }
}

/// Where a target for `path` goes into `list`, which is kept in the order of
/// paths: behind the targets at its front whose paths sort before `path`.
pub open spec fn place(list: Seq<TargetView>, path: Seq<char>) -> int
    decreases list.len(),
{
    if list.len() == 0 || !path_before(list[0].path, path) {
        0
    } else {
        1 + place(list.drop_first(), path)
    }
}

/// `list` with the target `t`, unless it holds a target for that path
/// already: who names a directory first decides what its target is.
pub open spec fn with_target(list: Seq<TargetView>, t: TargetView) -> Seq<TargetView> {
    if position_of(list, t.path) is Some {
        list
    } else {
        list.insert(place(list, t.path), t)
    }
}

/// Whether the session `s` tells more of a target than the target holds
/// already: it is newer than the session that the target holds, or the
/// target holds none with a time, and no summary if `s` has no time either.
pub open spec fn tells_more(t: TargetView, s: SessionView) -> bool {
    match (t.last_session_at, s.created_at) {
        (None, Some(b)) => true,
        (Some(a), Some(b)) => text_before(a, b),
        (None, None) => t.last_session_summary is None,
        (Some(a), None) => false,
    }
}

/// The target for a directory that is named in the configuration.
pub open spec fn explicit_target(path: Seq<char>) -> TargetView {
    TargetView {
        path,
        kind: TargetKind::ExplicitPath,
        label: basename_of(path),
        last_session_at: None,
        last_session_summary: None,
    }
}

/// The target for a repository that was found below a root.
pub open spec fn repo_target(path: Seq<char>) -> TargetView {
    TargetView {
        path,
        kind: TargetKind::RootChildGitRepo,
        label: basename_of(path),
        last_session_at: None,
        last_session_summary: None,
    }
}

/// `list` after the session `s`, which ran in the repository at `path`: the
/// target for `path` takes the time and the summary of `s` where `s` tells
/// more; where there is no such target, one is made from the session.
pub open spec fn with_session(list: Seq<TargetView>, path: Seq<char>, s: SessionView) -> Seq<
    TargetView,
> {
    match position_of(list, path) {
        Some(i) => if tells_more(list[i], s) {
            list.update(
                i,
                TargetView {
                    last_session_at: s.created_at,
                    last_session_summary: s.summary,
                    ..list[i]
                },
            )
        } else {
            list
        },
        None => list.insert(
            place(list, path),
            TargetView {
                path,
                kind: TargetKind::SessionHistory,
                label: basename_of(path),
                last_session_at: s.created_at,
                last_session_summary: s.summary,
            },
        ),
    }
}

/// The targets of the explicit paths: each path that is a directory, in the
/// order of the configuration.
pub open spec fn explicit_targets(paths: Seq<Seq<char>>, states: Seq<PathState>) -> Seq<TargetView>
    decreases paths.len(),
{
    if paths.len() == 0 {
        Seq::empty()
    } else {
        let before = explicit_targets(paths.drop_last(), states);
        let i = paths.len() - 1;
        if i < states.len() && states[i] == PathState::Directory {
            with_target(before, explicit_target(paths[i]))
        } else {
            before
        }
    }
}

/// A `RootChild` as a plain value.
pub ghost struct ChildView {
    pub path: Seq<char>,
    pub is_dir: bool,
    pub has_marker: bool,
}

impl View for RootChild {
    type V = ChildView;

    open spec fn view(&self) -> ChildView {
        ChildView { path: self.path@, is_dir: self.is_dir, has_marker: self.has_marker }
    }
}

/// The children as plain values.
pub open spec fn child_views(children: Seq<RootChild>) -> Seq<ChildView> {
    children.map_values(|c: RootChild| c@)
}

/// Whether a child of a root is a repository that becomes a target: a
/// directory with a repository marker whose name is no noise.
pub open spec fn is_repo_child(c: ChildView) -> bool {
    c.is_dir && c.has_marker && !(match file_name_of(c.path) {
        Some(name) => is_noise_name(name),
        None => false,
    })
}

/// `list` with the repositories among `children`.
pub open spec fn with_repos(list: Seq<TargetView>, children: Seq<ChildView>) -> Seq<TargetView>
    decreases children.len(),
{
    if children.len() == 0 {
        list
    } else {
        let before = with_repos(list, children.drop_last());
        if is_repo_child(children.last()) {
            with_target(before, repo_target(children.last().path))
        } else {
            before
        }
    }
}

/// The repository that goes with session `i`: none where the list is too
/// short.
pub open spec fn inferred_at(inferred: Seq<Option<String>>, i: int) -> Option<Seq<char>> {
    if 0 <= i < inferred.len() {
        opt_text(inferred[i])
    } else {
        None
    }
}

/// `list` after the sessions, each with the repository it ran in; a session
/// without one changes nothing.
pub open spec fn with_sessions(
    list: Seq<TargetView>,
    sessions: Seq<SessionView>,
    inferred: Seq<Option<String>>,
) -> Seq<TargetView>
    decreases sessions.len(),
{
    if sessions.len() == 0 {
        list
    } else {
        let before = with_sessions(list, sessions.drop_last(), inferred);
        let i = sessions.len() - 1;
        match inferred_at(inferred, i) {
            Some(path) => with_session(before, path, sessions[i]),
            None => before,
        }
    }
}

/// What a target is ranked by: the time of its last session and its label in
/// lower case.
#[derive(Debug, Clone, PartialEq, Eq)]
pub struct TargetKey {
    pub time: Option<Vec<char>>,
    pub label: Vec<char>,
}

/// Whether a target with the time `ta` and the label `la` is listed before
/// one with `tb` and `lb`: a target with a session before one without, the
/// later session first, and by label where the times say nothing.
pub open spec fn target_outranks(
    a: (Option<Seq<char>>, Seq<char>),
    b: (Option<Seq<char>>, Seq<char>),
) -> bool {
    match (a.0, b.0) {
        (Some(ta), Some(tb)) => if ta != tb {
            text_before(tb, ta)
        } else {
            text_before(a.1, b.1)
        },
        (Some(ta), None) => true,
        (None, Some(tb)) => false,
        (None, None) => text_before(a.1, b.1),
    }
}

impl Ranked for TargetKey {
    type Key = (Option<Seq<char>>, Seq<char>);

    open spec fn key(&self) -> (Option<Seq<char>>, Seq<char>) {
        (
            match self.time {
                Some(t) => Some(t@),
                None => None,
            },
            self.label@,
        )
    }

    open spec fn outranks(
        a: (Option<Seq<char>>, Seq<char>),
        b: (Option<Seq<char>>, Seq<char>),
    ) -> bool {
        target_outranks(a, b)
    }

    fn is_above(&self, other: &Self) -> (r: bool) {
        match (&self.time, &other.time) {
            (Some(ta), Some(tb)) => if !same_chars(ta, tb) {
                is_text_before(tb, ta)
            } else {
                is_text_before(&self.label, &other.label)
            },
            (Some(_), None) => true,
            (None, Some(_)) => false,
            (None, None) => is_text_before(&self.label, &other.label),
        }
    }

    proof fn lemma_order(
        a: (Option<Seq<char>>, Seq<char>),
        b: (Option<Seq<char>>, Seq<char>),
        c: (Option<Seq<char>>, Seq<char>),
    ) {
        lemma_text_before_total(a.1, b.1);
        lemma_text_before_total(b.1, c.1);
        lemma_text_before_total(a.1, c.1);
        if text_before(a.1, b.1) && text_before(b.1, c.1) {
            lemma_text_before_transitive(a.1, b.1, c.1);
        }
        if text_before(c.1, b.1) && text_before(b.1, a.1) {
            lemma_text_before_transitive(c.1, b.1, a.1);
        }
        if a.0 is Some && b.0 is Some {
            lemma_text_before_total(a.0->0, b.0->0);
        }
        if b.0 is Some && c.0 is Some {
            lemma_text_before_total(b.0->0, c.0->0);
        }
        if a.0 is Some && c.0 is Some {
            lemma_text_before_total(a.0->0, c.0->0);
        }
        if a.0 is Some && b.0 is Some && c.0 is Some {
            let (ta, tb, tc) = (a.0->0, b.0->0, c.0->0);
            if text_before(ta, tb) && text_before(tb, tc) {
                lemma_text_before_transitive(ta, tb, tc);
            }
            if text_before(tc, tb) && text_before(tb, ta) {
                lemma_text_before_transitive(tc, tb, ta);
            }
        }
    }
}

/// What the targets are ranked by.
pub open spec fn target_keys(list: Seq<TargetView>) -> Seq<Option<(Option<Seq<char>>, Seq<char>)>> {
    Seq::new(
        list.len(),
        |i: int| Some((list[i].last_session_at, lowercase_of(list[i].label))),
    )
}

/// The targets in the order in which they are offered: those with a session
/// first, the latest session first, then by label without regard to case;
/// targets that this leaves equal stay in the order of their paths.
pub open spec fn ranked_targets(list: Seq<TargetView>) -> Seq<TargetView> {
    let order = ranking::<TargetKey>(target_keys(list));
    Seq::new(order.len(), |k: int| list[order[k] as int])
}

/// All targets: those of the explicit paths, then the repositories below
/// the roots, then what the sessions tell, where the configuration asks for
/// it.
pub open spec fn merged_targets(
    paths: Seq<Seq<char>>,
    states: Seq<PathState>,
    children: Seq<ChildView>,
    from_sessions: bool,
    sessions: Seq<SessionView>,
    inferred: Seq<Option<String>>,
) -> Seq<TargetView> {
    let named = with_repos(explicit_targets(paths, states), children);
    if from_sessions {
        with_sessions(named, sessions, inferred)
    } else {
        named
    }
}

/// Whether no two targets of `list` are for the same path.
pub open spec fn one_per_path(list: Seq<TargetView>) -> bool {
    forall|i: int, j: int| 0 <= i < j < list.len() ==> !alike(list[i].path, list[j].path)
}

fn is_alike(a: &str, b: &str) -> (r: bool)
    ensures
        r == alike(a@, b@),
{
    path_eq(a, b) || path_eq(b, a)
}

fn find_target(list: &Vec<ProjectTarget>, path: &str) -> (r: Option<usize>)
    ensures
        match r {
            Some(i) => position_of(target_views(list@), path@) == Some(i as int) && i < list.len(),
            None => position_of(target_views(list@), path@) is None,
        },
{
    let ghost all = target_views(list@);
    let mut i: usize = 0;
    assert(all.skip(0) =~= all);
    while i < list.len()
        invariant
            i <= list.len(),
            all == target_views(list@),
            position_of(all, path@) == match position_of(all.skip(i as int), path@) {
                Some(k) => Some(k + i),
                None => None,
            },
        decreases list.len() - i,
    {
        let ghost rest = all.skip(i as int);
        assert(rest[0] == list@[i as int]@);
        assert(rest.drop_first() =~= all.skip(i + 1));
        if is_alike(list[i].path.as_str(), path) {
            return Some(i);
        }
        i += 1;
    }
    None
}

fn find_place(list: &Vec<ProjectTarget>, path: &str) -> (r: usize)
    ensures
        r == place(target_views(list@), path@),
        r <= list.len(),
{
    let ghost all = target_views(list@);
    let mut i: usize = 0;
    assert(all.skip(0) =~= all);
    while i < list.len() && path_lt(list[i].path.as_str(), path)
        invariant
            i <= list.len(),
            all == target_views(list@),
            place(all, path@) == i + place(all.skip(i as int), path@),
        decreases list.len() - i,
    {
        let ghost rest = all.skip(i as int);
        assert(rest[0] == list@[i as int]@);
        assert(rest.drop_first() =~= all.skip(i + 1));
        i += 1;
    }
    proof {
        let rest = all.skip(i as int);
        if i < list.len() {
            assert(rest[0] == list@[i as int]@);
        }
    }
    i
}

fn insert_target(list: &mut Vec<ProjectTarget>, t: ProjectTarget)
    requires
        position_of(target_views(old(list)@), t.path@) is None,
    ensures
        target_views(final(list)@) == target_views(old(list)@).insert(
            place(target_views(old(list)@), t.path@),
            t@,
        ),
{
    let at = find_place(list, t.path.as_str());
    let ghost before = list@;
    list.insert(at, t);
    assert(target_views(list@) =~= target_views(before).insert(at as int, t@));
}

fn put_target(list: &mut Vec<ProjectTarget>, t: ProjectTarget)
    ensures
        target_views(final(list)@) == with_target(target_views(old(list)@), t@),
{
    match find_target(list, t.path.as_str()) {
        Some(_) => {},
        None => {
            insert_target(list, t);
        },
    }
}

fn session_tells_more(t: &ProjectTarget, s: &SessionItem) -> (r: bool)
    ensures
        r == tells_more(t@, s@),
{
    match (&t.last_session_at, &s.created_at) {
        (None, Some(_)) => true,
        (Some(a), Some(b)) => is_text_before(&chars_of(a.as_str()), &chars_of(b.as_str())),
        (None, None) => t.last_session_summary.is_none(),
        (Some(_), None) => false,
    }
}

fn put_session(list: &mut Vec<ProjectTarget>, path: String, s: &SessionItem)
    ensures
        target_views(final(list)@) == with_session(target_views(old(list)@), path@, s@),
{
    match find_target(list, path.as_str()) {
        Some(i) => {
            if session_tells_more(&list[i], s) {
                let ghost before = list@;
                let updated = ProjectTarget {
                    path: list[i].path.clone(),
                    kind: list[i].kind,
                    label: list[i].label.clone(),
                    last_session_at: copy_opt(&s.created_at),
                    last_session_summary: copy_opt(&s.summary),
                };
                list.set(i, updated);
                assert(target_views(before)[i as int] == before[i as int]@);
                assert(target_views(list@) =~= target_views(before).update(i as int, updated@));
            }
        },
        None => {
            let label = display_name(path.as_str());
            let t = ProjectTarget {
                path,
                kind: TargetKind::SessionHistory,
                label,
                last_session_at: copy_opt(&s.created_at),
                last_session_summary: copy_opt(&s.summary),
            };
            insert_target(list, t);
        },
    }
}

fn named_target(path: &str, kind: TargetKind) -> (t: ProjectTarget)
    ensures
        t@ == (TargetView {
            path: path@,
            kind,
            label: basename_of(path@),
            last_session_at: None,
            last_session_summary: None,
        }),
{
    ProjectTarget {
        path: string_of(&chars_of(path)),
        kind,
        label: display_name(path),
        last_session_at: None,
        last_session_summary: None,
    }
}

fn rank_targets(list: Vec<ProjectTarget>) -> (out: Vec<ProjectTarget>)
    ensures
        target_views(out@) == ranked_targets(target_views(list@)),
{
    let ghost all = target_views(list@);
    let ghost wanted = target_keys(all);
    let mut keys: Vec<Option<TargetKey>> = Vec::new();
    let mut i: usize = 0;
    assert(keys_of(keys@) =~= wanted.take(0));
    while i < list.len()
        invariant
            i <= list.len(),
            all == target_views(list@),
            wanted == target_keys(all),
            keys_of(keys@) == wanted.take(i as int),
        decreases list.len() - i,
    {
        let ghost before = keys@;
        let t = &list[i];
        assert(all[i as int] == list@[i as int]@);
        let time = match &t.last_session_at {
            Some(a) => Some(chars_of(a.as_str())),
            None => None,
        };
        let lower = to_lowercase(t.label.as_str());
        keys.push(Some(TargetKey { time, label: chars_of(lower.as_str()) }));
        assert(keys_of(keys@) =~= keys_of(before).push(wanted[i as int]));
        assert(wanted.take(i + 1) =~= wanted.take(i as int).push(wanted[i as int]));
        i += 1;
    }
    assert(wanted.take(list.len() as int) =~= wanted);
    let order = rank(&keys);
    let ghost goal = ranked_targets(all);
    let mut out: Vec<ProjectTarget> = Vec::new();
    let mut k: usize = 0;
    assert(target_views(out@) =~= goal.take(0));
    while k < order.len()
        invariant
            k <= order.len(),
            all == target_views(list@),
            order@ == ranking::<TargetKey>(target_keys(all)),
            is_ranking::<TargetKey>(order@, target_keys(all)),
            goal == ranked_targets(all),
            target_views(out@) == goal.take(k as int),
        decreases order.len() - k,
    {
        let ghost before = out@;
        assert(target_keys(all)[order@[k as int] as int] is Some);
        out.push(list[order[k]].duplicate());
        assert(all[order@[k as int] as int] == list@[order@[k as int] as int]@);
        assert(target_views(out@) =~= target_views(before).push(goal[k as int]));
        assert(goal.take(k + 1) =~= goal.take(k as int).push(goal[k as int]));
        k += 1;
    }
    assert(goal.take(order.len() as int) =~= goal);
    out
}

/// Gathers the targets and ranks them. `path_states` says of each explicit
/// path of the configuration what the file system says of it; `children`
/// are the entries of the roots; `sessions` are the recent sessions, and
/// `inferred` holds for each of them the repository it ran in, if its
/// directory still exists and lies in one.
///
/// A directory gets one target. Explicit paths come first, then the
/// repositories below the roots, then the sessions: the first to name a
/// directory decides the kind and the label of its target, and a later
/// session only brings a newer time and summary.
pub fn gather_targets(
    cfg: &Config,
    path_states: &Vec<PathState>,
    children: &Vec<RootChild>,
    sessions: &Vec<SessionItem>,
    inferred: &Vec<Option<String>>,
) -> (out: Vec<ProjectTarget>)
    ensures
        target_views(out@) == ranked_targets(
            merged_targets(
                string_views(cfg.projects.paths@),
                path_states@,
                child_views(children@),
                cfg.projects.from_sessions,
                session_views(sessions@),
                inferred@,
            ),
        ),
{
    let mut list: Vec<ProjectTarget> = Vec::new();
    let ghost paths = string_views(cfg.projects.paths@);
    let mut i: usize = 0;
    assert(target_views(list@) =~= explicit_targets(paths.take(0), path_states@));
    while i < cfg.projects.paths.len()
        invariant
            i <= cfg.projects.paths.len(),
            paths == string_views(cfg.projects.paths@),
            target_views(list@) == explicit_targets(paths.take(i as int), path_states@),
        decreases cfg.projects.paths.len() - i,
    {
        proof {
            let pre = paths.take(i + 1);
            assert(pre.drop_last() =~= paths.take(i as int));
            assert(pre[i as int] == cfg.projects.paths@[i as int]@);
        }
        if i < path_states.len() && path_states[i] == PathState::Directory {
            put_target(
                &mut list,
                named_target(cfg.projects.paths[i].as_str(), TargetKind::ExplicitPath),
            );
        }
        i += 1;
    }
    assert(paths.take(cfg.projects.paths.len() as int) =~= paths);
    let ghost named = target_views(list@);
    let ghost kids = child_views(children@);
    let mut j: usize = 0;
    assert(kids.take(0) =~= Seq::<ChildView>::empty());
    while j < children.len()
        invariant
            j <= children.len(),
            kids == child_views(children@),
            target_views(list@) == with_repos(named, kids.take(j as int)),
        decreases children.len() - j,
    {
        proof {
            let pre = kids.take(j + 1);
            assert(pre.drop_last() =~= kids.take(j as int));
            assert(pre.last() == children@[j as int]@);
        }
        let c = &children[j];
        if c.is_dir && c.has_marker && !is_hidden_or_noise(c.path.as_str()) {
            put_target(&mut list, named_target(c.path.as_str(), TargetKind::RootChildGitRepo));
        }
        j += 1;
    }
    assert(kids.take(children.len() as int) =~= kids);
    if cfg.projects.from_sessions {
        let ghost found = target_views(list@);
        let ghost all = session_views(sessions@);
        let mut k: usize = 0;
        assert(all.take(0) =~= Seq::<SessionView>::empty());
        while k < sessions.len()
            invariant
                k <= sessions.len(),
                all == session_views(sessions@),
                target_views(list@) == with_sessions(found, all.take(k as int), inferred@),
            decreases sessions.len() - k,
        {
            proof {
                let pre = all.take(k + 1);
                assert(pre.drop_last() =~= all.take(k as int));
                assert(pre[k as int] == sessions@[k as int]@);
            }
            if k < inferred.len() {
                if let Some(path) = &inferred[k] {
                    put_session(&mut list, path.clone(), &sessions[k]);
                }
            }
            k += 1;
        }
        assert(all.take(sessions.len() as int) =~= all);
    }
    rank_targets(list)
}

/// Whether a directory is the root of a repository, given what lies at the
/// place of its repository marker: a directory or a file marks one.
pub fn is_git_repo_root(marker: Option<EntryKind>) -> (r: bool)
    ensures
        r == (marker == Some(EntryKind::Dir) || marker == Some(EntryKind::File)),
{
    match marker {
        Some(EntryKind::Dir) => true,
        Some(EntryKind::File) => true,
        _ => false,
    }
}

/// The target that a session speaks for: the root of the repository that
/// the session ran in, where its directory still exists. `marked` says of
/// the directory and of those above it, nearest first, whether each holds a
/// repository marker.
pub fn infer_target_path_from_session_cwd(cwd: &str, is_dir: bool, marked: &Vec<bool>) -> (r:
    Option<String>)
    ensures
        opt_text(r) == if is_dir {
            git_root_of(cwd@, marked@)
        } else {
            None
        },
{
    if !is_dir {
        return None;
    }
    git_root_for_path(cwd, marked)
}

/// The targets with the directory `current` put first: the target for it is
/// moved to the front; where there is none, one is made and put there,
/// unless the directory has no parent.
pub open spec fn prioritized(list: Seq<ProjectTarget>, current: ProjectTarget) -> Seq<
    ProjectTarget,
> {
    match position_of(target_views(list), current.path@) {
        Some(i) => seq![list[i]] + list.remove(i),
        None => if parent_of(current.path@) is None {
            list
        } else {
            seq![current] + list
        },
    }
}

/// Puts the directory in which the launcher runs first among the targets.
/// `current` is the target to show for it where the list has none: its
/// path, its label, and what is known of its last session.
pub fn prioritize_current_target(targets: &mut Vec<ProjectTarget>, current: ProjectTarget)
    ensures
        final(targets)@ == prioritized(old(targets)@, current),
{
    match find_target(targets, current.path.as_str()) {
        Some(i) => {
            let t = targets.remove(i);
            targets.insert(0, t);
            assert(targets@ =~= seq![old(targets)@[i as int]] + old(targets)@.remove(i as int));
        },
        None => {
            if path_parent(current.path.as_str()).is_some() {
                targets.insert(0, current);
                assert(targets@ =~= seq![current] + old(targets)@);
            }
        },
    }
}

/// No directory has two targets: adding a target, or a session, to a list
/// that holds one target for each path leaves it so.
pub proof fn lemma_one_per_path(list: Seq<TargetView>, t: TargetView, s: SessionView)
    requires
        one_per_path(list),
    ensures
        one_per_path(with_target(list, t)),
        one_per_path(with_session(list, t.path, s)),
{
    lemma_position(list, t.path);
    lemma_place_bound(list, t.path);
    let at = place(list, t.path);
    if position_of(list, t.path) is None {
        let a = with_target(list, t);
        assert forall|i: int, j: int| 0 <= i < j < a.len() implies !alike(a[i].path, a[j].path) by {
            let oi = if i < at {
                i
            } else {
                i - 1
            };
            let oj = if j < at {
                j
            } else {
                j - 1
            };
            if i != at && j != at {
                assert(!alike(list[oi].path, list[oj].path));
            }
        }
        let b = with_session(list, t.path, s);
        assert forall|i: int, j: int| 0 <= i < j < b.len() implies !alike(b[i].path, b[j].path) by {
            let oi = if i < at {
                i
            } else {
                i - 1
            };
            let oj = if j < at {
                j
            } else {
                j - 1
            };
            if i != at && j != at {
                assert(!alike(list[oi].path, list[oj].path));
            }
        }
    } else {
        let b = with_session(list, t.path, s);
        assert forall|i: int, j: int| 0 <= i < j < b.len() implies !alike(b[i].path, b[j].path) by {
            assert(!alike(list[i].path, list[j].path));
        }
    }
}

/// The targets that are gathered hold one target for each path, before and
/// after they are ranked.
pub proof fn lemma_gathered_one_per_path(
    paths: Seq<Seq<char>>,
    states: Seq<PathState>,
    children: Seq<ChildView>,
    from_sessions: bool,
    sessions: Seq<SessionView>,
    inferred: Seq<Option<String>>,
)
    requires
        paths.len() + children.len() + sessions.len() <= usize::MAX,
    ensures
        one_per_path(merged_targets(paths, states, children, from_sessions, sessions, inferred)),
        ({
            let ranked = ranked_targets(
                merged_targets(paths, states, children, from_sessions, sessions, inferred),
            );
            forall|i: int, j: int|
                0 <= i < ranked.len() && 0 <= j < ranked.len() && i != j ==> !alike(
                    #[trigger] ranked[i].path,
                    #[trigger] ranked[j].path,
                )
        }),
{
    lemma_explicit_one_per_path(paths, states);
    let named = explicit_targets(paths, states);
    lemma_repos_one_per_path(named, children);
    let found = with_repos(named, children);
    if from_sessions {
        lemma_sessions_one_per_path(found, sessions, inferred);
    }
    let merged = merged_targets(paths, states, children, from_sessions, sessions, inferred);
    lemma_targets_bound(paths, states, children, from_sessions, sessions, inferred);
    let keys = target_keys(merged);
    crate::rank::lemma_ranking_exists::<TargetKey>(keys);
    let order = ranking::<TargetKey>(keys);
    crate::rank::lemma_ranking_distinct::<TargetKey>(order, keys);
    let ranked = ranked_targets(merged);
    assert forall|i: int, j: int|
        0 <= i < ranked.len() && 0 <= j < ranked.len() && i != j implies !alike(
        #[trigger] ranked[i].path,
        #[trigger] ranked[j].path,
    ) by {
        assert(keys[order[i] as int] is Some);
        assert(keys[order[j] as int] is Some);
        let a = order[i] as int;
        let b = order[j] as int;
        if i < j {
            assert(order[i] != order[j]);
        } else {
            assert(order[j] != order[i]);
        }
        if a < b {
            assert(!alike(merged[a].path, merged[b].path));
        } else {
            assert(!alike(merged[b].path, merged[a].path));
        }
    }
}

/// No more targets are gathered than there are paths, children and
/// sessions.
pub proof fn lemma_targets_bound(
    paths: Seq<Seq<char>>,
    states: Seq<PathState>,
    children: Seq<ChildView>,
    from_sessions: bool,
    sessions: Seq<SessionView>,
    inferred: Seq<Option<String>>,
)
    ensures
        merged_targets(paths, states, children, from_sessions, sessions, inferred).len()
            <= paths.len() + children.len() + sessions.len(),
{
    lemma_explicit_bound(paths, states);
    lemma_repos_bound(explicit_targets(paths, states), children);
    lemma_sessions_bound(with_repos(explicit_targets(paths, states), children), sessions, inferred);
}

proof fn lemma_explicit_bound(paths: Seq<Seq<char>>, states: Seq<PathState>)
    ensures
        explicit_targets(paths, states).len() <= paths.len(),
    decreases paths.len(),
{
    if paths.len() > 0 {
        lemma_explicit_bound(paths.drop_last(), states);
        lemma_place_bound(explicit_targets(paths.drop_last(), states), paths.last());
    }
}

proof fn lemma_repos_bound(list: Seq<TargetView>, children: Seq<ChildView>)
    ensures
        with_repos(list, children).len() <= list.len() + children.len(),
    decreases children.len(),
{
    if children.len() > 0 {
        lemma_repos_bound(list, children.drop_last());
        lemma_place_bound(with_repos(list, children.drop_last()), children.last().path);
    }
}

proof fn lemma_sessions_bound(
    list: Seq<TargetView>,
    sessions: Seq<SessionView>,
    inferred: Seq<Option<String>>,
)
    ensures
        with_sessions(list, sessions, inferred).len() <= list.len() + sessions.len(),
    decreases sessions.len(),
{
    if sessions.len() > 0 {
        let before = with_sessions(list, sessions.drop_last(), inferred);
        lemma_sessions_bound(list, sessions.drop_last(), inferred);
        match inferred_at(inferred, sessions.len() - 1) {
            Some(path) => {
                lemma_place_bound(before, path);
                lemma_position(before, path);
            },
            None => {},
        }
    }
}

proof fn lemma_explicit_one_per_path(paths: Seq<Seq<char>>, states: Seq<PathState>)
    ensures
        one_per_path(explicit_targets(paths, states)),
    decreases paths.len(),
{
    if paths.len() > 0 {
        lemma_explicit_one_per_path(paths.drop_last(), states);
        let before = explicit_targets(paths.drop_last(), states);
        let s = SessionView {
            id: Seq::empty(),
            created_at: None,
            cwd: Seq::empty(),
            summary: None,
            cli_version: None,
            model_provider: None,
            source: None,
            path: Seq::empty(),
        };
        lemma_one_per_path(before, explicit_target(paths.last()), s);
    }
}

proof fn lemma_repos_one_per_path(list: Seq<TargetView>, children: Seq<ChildView>)
    requires
        one_per_path(list),
    ensures
        one_per_path(with_repos(list, children)),
    decreases children.len(),
{
    if children.len() > 0 {
        lemma_repos_one_per_path(list, children.drop_last());
        let before = with_repos(list, children.drop_last());
        let s = SessionView {
            id: Seq::empty(),
            created_at: None,
            cwd: Seq::empty(),
            summary: None,
            cli_version: None,
            model_provider: None,
            source: None,
            path: Seq::empty(),
        };
        lemma_one_per_path(before, repo_target(children.last().path), s);
    }
}

proof fn lemma_sessions_one_per_path(
    list: Seq<TargetView>,
    sessions: Seq<SessionView>,
    inferred: Seq<Option<String>>,
)
    requires
        one_per_path(list),
    ensures
        one_per_path(with_sessions(list, sessions, inferred)),
    decreases sessions.len(),
{
    if sessions.len() > 0 {
        lemma_sessions_one_per_path(list, sessions.drop_last(), inferred);
        let before = with_sessions(list, sessions.drop_last(), inferred);
        match inferred_at(inferred, sessions.len() - 1) {
            Some(path) => {
                lemma_one_per_path(before, explicit_target(path), sessions.last());
            },
            None => {},
        }
    }
}

/// What `position_of` finds: a place in the list whose path is the one
/// looked for; and where it finds none, no target of the list has that
/// path.
pub proof fn lemma_position(list: Seq<TargetView>, path: Seq<char>)
    ensures
        match position_of(list, path) {
            Some(i) => 0 <= i < list.len() && alike(list[i].path, path),
            None => forall|k: int| 0 <= k < list.len() ==> !alike(#[trigger] list[k].path, path),
        },
    decreases list.len(),
{
    if list.len() > 0 && !alike(list[0].path, path) {
        let rest = list.drop_first();
        lemma_position(rest, path);
        match position_of(rest, path) {
            Some(i) => {
                assert(rest[i] == list[i + 1]);
            },
            None => {
                assert forall|k: int| 0 <= k < list.len() implies !alike(
                    #[trigger] list[k].path,
                    path,
                ) by {
                    if k > 0 {
                        assert(rest[k - 1] == list[k]);
                    }
                }
            },
        }
    }
}

/// A place is a place in the list, or its end.
pub proof fn lemma_place_bound(list: Seq<TargetView>, path: Seq<char>)
    ensures
        0 <= place(list, path) <= list.len(),
    decreases list.len(),
{
    if !(list.len() == 0 || !path_before(list[0].path, path)) {
        lemma_place_bound(list.drop_first(), path);
    }
}

} // verus!

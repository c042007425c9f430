//! The log scanner: which directories and files of the session archive are
//! read, and in which order, the newest first; which sessions a query admits;
//! and where the repository of a directory has its root.

use crate::config::Config;
use crate::paths::{
    joined, parent_of, path_eq, path_join, path_parent, path_starts_with, path_within, same_path,
};
use crate::rank::{rank, ranking, LaterName};
use crate::text::{
    chars_of, ends_with_chars, opt_str, opt_text, starts_with_chars, string_of, string_views,
};
use vstd::prelude::*;

verus! {

/// What an entry of a directory is.
#[derive(Debug, Clone, Copy, PartialEq, Eq, Structural)]
pub enum EntryKind {
    Dir,
    File,
    Other,
}

/// An entry of a directory: its name and what it is.
#[derive(Debug, Clone, PartialEq, Eq)]
pub struct DirEntry {
    pub name: String,
    pub kind: EntryKind,
}

/// A `DirEntry` as a plain value.
pub ghost struct EntryView {
    pub name: Seq<char>,
    pub kind: EntryKind,
}

impl View for DirEntry {
    type V = EntryView;

    open spec fn view(&self) -> EntryView {
        EntryView { name: self.name@, kind: self.kind }
    }
}

/// The entries as plain values.
pub open spec fn entry_views(entries: Seq<DirEntry>) -> Seq<EntryView> {
    entries.map_values(|e: DirEntry| e@)
}

/// Whether `c` is one of the digits `0` to `9`.
pub open spec fn is_digit(c: char) -> bool {
    '0' <= c && c <= '9'
}

/// Whether a name is that of a year, a month or a day: two or four
/// characters, all digits.
pub open spec fn is_date_name(name: Seq<char>) -> bool {
    (name.len() == 2 || name.len() == 4) && forall|i: int|
        0 <= i < name.len() ==> is_digit(#[trigger] name[i])
}

/// Whether a name is that of a session log: it begins with `rollout-` and
/// ends with `.jsonl`.
pub open spec fn is_log_name(name: Seq<char>) -> bool {
    "rollout-"@.is_prefix_of(name) && ".jsonl"@.is_suffix_of(name)
}

/// The names by which the date directories among `entries` are ranked; an
/// entry that is no date directory has none.
pub open spec fn dir_keys(entries: Seq<EntryView>) -> Seq<Option<Seq<char>>> {
    Seq::new(
        entries.len(),
        |i: int|
            if entries[i].kind == EntryKind::Dir && is_date_name(entries[i].name) {
                Some(entries[i].name)
            } else {
                None
            },
    )
}

/// The names by which the session logs among `entries` are ranked; an entry
/// that is no session log has none.
pub open spec fn log_keys(entries: Seq<EntryView>) -> Seq<Option<Seq<char>>> {
    Seq::new(
        entries.len(),
        |i: int|
            if entries[i].kind == EntryKind::File && is_log_name(entries[i].name) {
                Some(entries[i].name)
            } else {
                None
            },
    )
}

/// The paths of the entries that `order` lists, in its order, below
/// `parent`.
pub open spec fn child_paths(parent: Seq<char>, entries: Seq<EntryView>, order: Seq<usize>) -> Seq<
    Seq<char>,
> {
    Seq::new(order.len(), |k: int| joined(parent, entries[order[k] as int].name))
}

/// The date directories below `parent`, the latest name first.
pub open spec fn dirs_desc(parent: Seq<char>, entries: Seq<EntryView>) -> Seq<Seq<char>> {
    child_paths(parent, entries, ranking::<LaterName>(dir_keys(entries)))
}

/// The session logs below `parent`, the latest name first.
pub open spec fn logs_desc(parent: Seq<char>, entries: Seq<EntryView>) -> Seq<Seq<char>> {
    child_paths(parent, entries, ranking::<LaterName>(log_keys(entries)))
}

fn is_date_dir_name(name: &Vec<char>) -> (r: bool)
    ensures
        r == is_date_name(name@),
{
    if name.len() != 2 && name.len() != 4 {
        return false;
    }
    let mut i: usize = 0;
    while i < name.len()
        invariant
            i <= name.len(),
            forall|k: int| 0 <= k < i ==> is_digit(#[trigger] name@[k]),
        decreases name.len() - i,
    {
        let c = name[i];
        if !('0' <= c && c <= '9') {
            assert(!is_digit(name@[i as int]));
            return false;
        }
        i += 1;
    }
    true
}

fn paths_in_order(parent: &str, entries: &Vec<DirEntry>, order: &Vec<usize>) -> (paths: Vec<
    String,
>)
    requires
        forall|k: int| 0 <= k < order.len() ==> order[k] < entries.len(),
    ensures
        string_views(paths@) == child_paths(parent@, entry_views(entries@), order@),
{
    let mut paths: Vec<String> = Vec::new();
    let ghost wanted = child_paths(parent@, entry_views(entries@), order@);
    let mut k: usize = 0;
    assert(string_views(paths@) =~= wanted.take(0));
    while k < order.len()
        invariant
            k <= order.len(),
            forall|k: int| 0 <= k < order.len() ==> order[k] < entries.len(),
            wanted == child_paths(parent@, entry_views(entries@), order@),
            string_views(paths@) == wanted.take(k as int),
        decreases order.len() - k,
    {
        let ghost before = paths@;
        paths.push(path_join(parent, entries[order[k]].name.as_str()));
        let ghost at = order@[k as int] as int;
        assert(entry_views(entries@)[at] == entries@[at]@);
        assert(string_views(paths@) =~= string_views(before).push(wanted[k as int]));
        assert(wanted.take(k + 1) =~= wanted.take(k as int).push(wanted[k as int]));
        k += 1;
    }
    assert(wanted.take(order.len() as int) =~= wanted);
    paths
}

/// The date directories among the entries of the directory `parent`, as
/// paths, the latest name first. An entry counts where it is a directory
/// whose name has two or four characters, all digits; any other is passed
/// over.
pub fn collect_dirs_desc(parent: &str, entries: &Vec<DirEntry>) -> (paths: Vec<String>)
    ensures
        string_views(paths@) == dirs_desc(parent@, entry_views(entries@)),
{
    let mut keys: Vec<Option<LaterName>> = Vec::new();
    let ghost wanted = dir_keys(entry_views(entries@));
    let mut i: usize = 0;
    assert(crate::rank::keys_of(keys@) =~= wanted.take(0));
    while i < entries.len()
        invariant
            i <= entries.len(),
            wanted == dir_keys(entry_views(entries@)),
            crate::rank::keys_of(keys@) == wanted.take(i as int),
        decreases entries.len() - i,
    {
        let ghost before = keys@;
        let name = chars_of(entries[i].name.as_str());
        assert(entry_views(entries@)[i as int] == entries@[i as int]@);
        if entries[i].kind == EntryKind::Dir && is_date_dir_name(&name) {
            keys.push(Some(LaterName { chars: name }));
        } else {
            keys.push(None);
        }
        assert(crate::rank::keys_of(keys@) =~= crate::rank::keys_of(before).push(
            wanted[i as int],
        ));
        assert(wanted.take(i + 1) =~= wanted.take(i as int).push(wanted[i as int]));
        i += 1;
    }
    assert(wanted.take(entries.len() as int) =~= wanted);
    let order = rank(&keys);
    assert forall|k: int| 0 <= k < order.len() implies order[k] < entries.len() by {
        assert(wanted[order[k] as int] is Some);
    }
    paths_in_order(parent, entries, &order)
}

/// The session logs among the entries of the directory `day_path`, as paths,
/// the latest name first. An entry counts where it is a file whose name
/// begins with `rollout-` and ends with `.jsonl`; any other is passed over.
pub fn collect_rollout_files_desc(day_path: &str, entries: &Vec<DirEntry>) -> (paths: Vec<String>)
    ensures
        string_views(paths@) == logs_desc(day_path@, entry_views(entries@)),
{
    let mut keys: Vec<Option<LaterName>> = Vec::new();
    let ghost wanted = log_keys(entry_views(entries@));
    let mut i: usize = 0;
    assert(crate::rank::keys_of(keys@) =~= wanted.take(0));
    while i < entries.len()
        invariant
            i <= entries.len(),
            wanted == log_keys(entry_views(entries@)),
            crate::rank::keys_of(keys@) == wanted.take(i as int),
        decreases entries.len() - i,
    {
        let ghost before = keys@;
        let name = chars_of(entries[i].name.as_str());
        assert(entry_views(entries@)[i as int] == entries@[i as int]@);
        if entries[i].kind == EntryKind::File && starts_with_chars(&name, &chars_of("rollout-"))
            && ends_with_chars(&name, &chars_of(".jsonl")) {
            keys.push(Some(LaterName { chars: name }));
        } else {
            keys.push(None);
        }
        assert(crate::rank::keys_of(keys@) =~= crate::rank::keys_of(before).push(
            wanted[i as int],
        ));
        assert(wanted.take(i + 1) =~= wanted.take(i as int).push(wanted[i as int]));
        i += 1;
    }
    assert(wanted.take(entries.len() as int) =~= wanted);
    let order = rank(&keys);
    assert forall|k: int| 0 <= k < order.len() implies order[k] < entries.len() by {
        assert(wanted[order[k] as int] is Some);
    }
    paths_in_order(day_path, entries, &order)
}

/// What is listed comes newest first: of two date directories that are
/// listed, the one with the later name stands first.
pub proof fn lemma_dirs_newest_first(parent: Seq<char>, entries: Seq<EntryView>, a: int, b: int)
    requires
        entries.len() <= usize::MAX,
        0 <= a < b < ranking::<LaterName>(dir_keys(entries)).len(),
    ensures
        dirs_desc(parent, entries).len() == ranking::<LaterName>(dir_keys(entries)).len(),
        ({
            let order = ranking::<LaterName>(dir_keys(entries));
            let first = entries[order[a] as int].name;
            let second = entries[order[b] as int].name;
            &&& dirs_desc(parent, entries)[a] == joined(parent, first)
            &&& dirs_desc(parent, entries)[b] == joined(parent, second)
            &&& is_date_name(first) && is_date_name(second)
            &&& !crate::text::text_before(first, second)
        }),
{
    let keys = dir_keys(entries);
    crate::rank::lemma_ranking_exists::<LaterName>(keys);
    let order = ranking::<LaterName>(keys);
    assert(keys[order[a] as int] is Some);
    assert(keys[order[b] as int] is Some);
    assert(crate::rank::listed_before::<LaterName>(keys, order[a] as int, order[b] as int));
    crate::text::lemma_text_before_total(keys[order[a] as int]->0, keys[order[b] as int]->0);
}

/// How many directories are looked at, at most, when the root of a
/// repository is searched upward from a directory.
pub const MAX_ROOT_HOPS: usize = 25;

/// A directory and the directories above it, nearest first, `n` at most.
pub open spec fn ancestors(dir: Seq<char>, n: nat) -> Seq<Seq<char>>
    decreases n,
{
    if n == 0 {
        Seq::empty()
    } else {
        match parent_of(dir) {
            Some(up) => seq![dir] + ancestors(up, (n - 1) as nat),
            None => seq![dir],
        }
    }
}

/// The first of the directories whose mark is set; none where no mark is
/// set. A directory without a mark counts as not marked.
pub open spec fn first_marked(dirs: Seq<Seq<char>>, marked: Seq<bool>) -> Option<Seq<char>>
    decreases dirs.len(),
{
    if dirs.len() == 0 || marked.len() == 0 {
        None
    } else if marked[0] {
        Some(dirs[0])
    } else {
        first_marked(dirs.drop_first(), marked.drop_first())
    }
}

/// The paths at which the repository markers of the directories would lie.
pub open spec fn markers_of(dirs: Seq<Seq<char>>) -> Seq<Seq<char>> {
    Seq::new(dirs.len(), |i: int| joined(dirs[i], ".git"@))
}

/// The repository root of `start`, given for each of its ancestors whether
/// it holds a repository marker.
pub open spec fn git_root_of(start: Seq<char>, marked: Seq<bool>) -> Option<Seq<char>> {
    first_marked(ancestors(start, MAX_ROOT_HOPS as nat), marked)
}

/// The directories in which the root of the repository of `start` is looked
/// for: `start` and the directories above it, nearest first, 25 at most.
pub fn git_root_candidates(start: &str) -> (dirs: Vec<String>)
    ensures
        string_views(dirs@) == ancestors(start@, MAX_ROOT_HOPS as nat),
        dirs.len() <= MAX_ROOT_HOPS,
{
    let mut dirs: Vec<String> = Vec::new();
    let mut cur = string_of(&chars_of(start));
    let mut left: usize = MAX_ROOT_HOPS;
    assert(string_views(dirs@) =~= Seq::<Seq<char>>::empty());
    while left > 0
        invariant
            left <= MAX_ROOT_HOPS,
            dirs.len() + left <= MAX_ROOT_HOPS,
            ancestors(start@, MAX_ROOT_HOPS as nat) == string_views(dirs@) + ancestors(
                cur@,
                left as nat,
            ),
        decreases left,
    {
        let ghost before = dirs@;
        let up = path_parent(cur.as_str());
        dirs.push(cur);
        assert(string_views(dirs@) =~= string_views(before).push(cur@));
        match up {
            Some(next) => {
                assert(ancestors(cur@, left as nat) =~= seq![cur@] + ancestors(
                    next@,
                    (left - 1) as nat,
                ));
                cur = next;
                left -= 1;
            },
            None => {
                assert(ancestors(cur@, left as nat) =~= seq![cur@]);
                assert(string_views(dirs@) + Seq::<Seq<char>>::empty() =~= string_views(dirs@));
                return dirs;
            },
        }
    }
    assert(string_views(dirs@) + Seq::<Seq<char>>::empty() =~= string_views(dirs@));
    dirs
}

/// The path at which the marker of a repository lies in `dir`.
pub fn git_marker(dir: &str) -> (r: String)
    ensures
        r@ == joined(dir@, ".git"@),
{
    path_join(dir, ".git")
}

/// The first of `dirs` whose mark in `marked` is set.
pub fn find_git_root(dirs: &Vec<String>, marked: &Vec<bool>) -> (r: Option<String>)
    ensures
        opt_text(r) == first_marked(string_views(dirs@), marked@),
{
    let mut i: usize = 0;
    assert(string_views(dirs@).skip(0) =~= string_views(dirs@));
    assert(marked@.skip(0) =~= marked@);
    while i < dirs.len() && i < marked.len()
        invariant
            i <= dirs.len(),
            i <= marked.len(),
            first_marked(string_views(dirs@), marked@) == first_marked(
                string_views(dirs@).skip(i as int),
                marked@.skip(i as int),
            ),
        decreases dirs.len() - i,
    {
        let ghost d = string_views(dirs@).skip(i as int);
        let ghost m = marked@.skip(i as int);
        assert(d[0] == dirs@[i as int]@);
        assert(m[0] == marked@[i as int]);
        assert(d.drop_first() =~= string_views(dirs@).skip(i + 1));
        assert(m.drop_first() =~= marked@.skip(i + 1));
        if marked[i] {
            return Some(dirs[i].clone());
        }
        i += 1;
    }
    None
}

/// The root of the repository that `start` lies in: the nearest of `start`
/// and the 24 directories above it that holds a repository marker. `marked`
/// says of each of them, nearest first, whether it holds one; what it does
/// not say counts as no marker.
pub fn git_root_for_path(start: &str, marked: &Vec<bool>) -> (r: Option<String>)
    ensures
        opt_text(r) == git_root_of(start@, marked@),
{
    let dirs = git_root_candidates(start);
    find_git_root(&dirs, marked)
}

/// What is asked of the session index.
#[derive(Debug, Clone)]
pub enum SessionQuery {
    /// Every session.
    All { limit: usize },
    /// The sessions that ran in or below a configured folder.
    Scoped { limit: usize },
    /// The sessions that ran in or below `cwd`.
    ForCwd { cwd: String, limit: usize },
    /// The sessions that ran in the repository whose root is `repo_root`.
    ForRepoRoot { repo_root: String, limit: usize },
}

/// Which sessions a query admits.
#[derive(Debug, Clone)]
pub enum Filter {
    All,
    Scoped,
    ForCwd(String),
    ForRepoRoot(String),
}

impl SessionQuery {
    /// How many sessions the query asks for at most.
    pub open spec fn spec_limit(self) -> usize {
        match self {
            SessionQuery::All { limit } => limit,
            SessionQuery::Scoped { limit } => limit,
            SessionQuery::ForCwd { cwd, limit } => limit,
            SessionQuery::ForRepoRoot { repo_root, limit } => limit,
        }
    }

    /// Which sessions the query admits.
    pub open spec fn spec_filter(self) -> Filter {
        match self {
            SessionQuery::All { limit } => Filter::All,
            SessionQuery::Scoped { limit } => Filter::Scoped,
            SessionQuery::ForCwd { cwd, limit } => Filter::ForCwd(cwd),
            SessionQuery::ForRepoRoot { repo_root, limit } => Filter::ForRepoRoot(repo_root),
        }
    }

    /// The query in its two parts: how many sessions, and which.
    pub fn into_parts(self) -> (r: (usize, Filter))
        ensures
            r.0 == self.spec_limit(),
            r.1 == self.spec_filter(),
    {
        match self {
            SessionQuery::All { limit } => (limit, Filter::All),
            SessionQuery::Scoped { limit } => (limit, Filter::Scoped),
            SessionQuery::ForCwd { cwd, limit } => (limit, Filter::ForCwd(cwd)),
            SessionQuery::ForRepoRoot { repo_root, limit } => (
                limit,
                Filter::ForRepoRoot(repo_root),
            ),
        }
    }
}

/// Whether `filter` admits a session that ran in `cwd`, where `cwd_root` is
/// the root of the repository of `cwd`: every session; or one in scope of the
/// configuration; or one in or below a directory; or one whose repository
/// root is the given one.
pub open spec fn filter_admits(
    cfg: Config,
    filter: Filter,
    cwd: Seq<char>,
    home: Option<Seq<char>>,
    cwd_root: Option<Seq<char>>,
) -> bool {
    match filter {
        Filter::All => true,
        Filter::Scoped => cfg.in_scope(cwd, home),
        Filter::ForCwd(dir) => path_within(cwd, dir@),
        Filter::ForRepoRoot(root) => match cwd_root {
            Some(r) => same_path(r, root@),
            None => false,
        },
    }
}

/// Whether `filter` admits a session that ran in `cwd`. `cwd_root` is the
/// root of the repository of `cwd`, which only the filter by repository
/// reads.
pub fn matches_filter(
    cfg: &Config,
    filter: &Filter,
    cwd: &str,
    home: Option<&str>,
    cwd_root: Option<&str>,
) -> (r: bool)
    ensures
        r == filter_admits(*cfg, *filter, cwd@, opt_str(home), opt_str(cwd_root)),
{
    match filter {
        Filter::All => true,
        Filter::Scoped => cfg.is_scoped_target(cwd, home),
        Filter::ForCwd(dir) => path_starts_with(cwd, dir.as_str()),
        Filter::ForRepoRoot(root) => match cwd_root {
            Some(r) => path_eq(r, root.as_str()),
            None => false,
        },
    }
}

} // verus!

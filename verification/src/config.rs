//! The configuration: where the launcher looks for targets and sessions. It
//! is read and written elsewhere; here are its values, their defaults, and
//! the rules for changing the lists of folders.

use crate::paths::{joined, path_eq, path_join, path_starts_with, path_within, same_path};
use crate::text::{chars_of, opt_str, slice_chars, string_of, string_views};
use vstd::prelude::*;

verus! {

/// The whole configuration.
#[derive(Debug, Clone)]
pub struct Config {
    pub codex: CodexConfig,
    pub projects: ProjectsConfig,
    pub sessions: SessionsConfig,
}

/// The program that is launched, and the arguments it always gets.
#[derive(Debug, Clone)]
pub struct CodexConfig {
    pub bin: String,
    pub args: Vec<String>,
}

/// Where targets come from.
#[derive(Debug, Clone)]
pub struct ProjectsConfig {
    /// Folders that are searched one level deep for repositories.
    pub roots: Vec<String>,
    /// Folders that are targets themselves.
    pub paths: Vec<String>,
    /// Whether targets are also taken from the recent sessions.
    pub from_sessions: bool,
    /// How many recent sessions are read for that.
    pub sessions_limit: usize,
}

/// Where sessions come from.
#[derive(Debug, Clone)]
pub struct SessionsConfig {
    /// The directory that holds `sessions/`.
    pub codex_home: String,
    /// How many sessions are shown.
    pub limit: usize,
}

/// What the file system says of a path.
#[derive(Debug, Clone, Copy, PartialEq, Eq, Structural)]
pub enum PathState {
    Missing,
    NotADirectory,
    Directory,
}

/// Why a change of the configuration was refused. Each holds the path in
/// its full form.
#[derive(Debug, Clone, PartialEq, Eq)]
pub enum ConfigError {
    /// The path does not exist.
    PathMissing(String),
    /// The path is no directory.
    NotADirectory(String),
    /// Neither list of folders holds the path.
    NotInConfig(String),
}

impl ConfigError {
    /// The path that the error is about.
    pub open spec fn path(self) -> Seq<char> {
        match self {
            ConfigError::PathMissing(p) => p@,
            ConfigError::NotADirectory(p) => p@,
            ConfigError::NotInConfig(p) => p@,
        }
    }

    /// The error as a sentence.
    pub fn message(&self) -> (r: String)
        ensures
            r@ == match *self {
                ConfigError::PathMissing(p) => "path does not exist: "@ + p@,
                ConfigError::NotADirectory(p) => "not a directory: "@ + p@,
                ConfigError::NotInConfig(p) => "not found in config: "@ + p@,
            },
    {
        let (head, p) = match self {
            ConfigError::PathMissing(p) => ("path does not exist: ", p),
            ConfigError::NotADirectory(p) => ("not a directory: ", p),
            ConfigError::NotInConfig(p) => ("not found in config: ", p),
        };
        let mut out = chars_of(head);
        crate::text::push_str(&mut out, p.as_str());
        string_of(&out)
    }
}

/// Where the configuration file lies: at the path that was given, else at
/// `.codex-launch/config.toml` in the home directory; nowhere where neither
/// is known.
pub fn resolve_config_path(arg: Option<&str>, home: Option<&str>) -> (r: Option<String>)
    ensures
        crate::text::opt_text(r) == match (arg, home) {
            (Some(p), _) => Some(p@),
            (None, Some(h)) => Some(joined(joined(h@, ".codex-launch"@), "config.toml"@)),
            (None, None) => None,
        },
{
    match arg {
        Some(p) => Some(string_of(&chars_of(p))),
        None => match home {
            Some(h) => {
                let dir = path_join(h, ".codex-launch");
                Some(path_join(dir.as_str(), "config.toml"))
            },
            None => None,
        },
    }
}

/// The program that is launched where nothing else is configured.
pub fn default_codex_bin() -> (r: String)
    ensures
        r@ == "codex"@,
{
    string_of(&chars_of("codex"))
}

/// The directory that holds `sessions/` where nothing else is configured:
/// `.codex` in the home directory, or under `/` where no home is known.
pub fn default_codex_home(home: Option<&str>) -> (r: String)
    ensures
        r@ == joined(
            match home {
                Some(h) => h@,
                None => "/"@,
            },
            ".codex"@,
        ),
{
    match home {
        Some(h) => path_join(h, ".codex"),
        None => path_join("/", ".codex"),
    }
}

/// How many sessions are shown where nothing else is configured.
pub fn default_sessions_limit() -> (r: usize)
    ensures
        r == 15,
{
    15
}

/// Whether targets are taken from the recent sessions where nothing else is
/// configured.
pub fn default_projects_from_sessions() -> (r: bool)
    ensures
        r,
{
    true
}

/// How many recent sessions are read for targets where nothing else is
/// configured.
pub fn default_projects_sessions_limit() -> (r: usize)
    ensures
        r == 200,
{
    200
}

/// `s` without every `~/` at its front.
pub open spec fn without_tildes(s: Seq<char>) -> Seq<char>
    decreases s.len(),
{
    if s.len() >= 2 && s[0] == '~' && s[1] == '/' {
        without_tildes(s.skip(2))
    } else {
        s
    }
}

/// The full form of a path: `~/rest` is `rest` below the home directory, `~`
/// is the home directory itself, where a home directory is known; any other
/// path is its own full form.
pub open spec fn normalized(p: Seq<char>, home: Option<Seq<char>>) -> Seq<char> {
    match home {
        Some(h) => if p.len() >= 2 && p[0] == '~' && p[1] == '/' {
            joined(h, without_tildes(p))
        } else if p == seq!['~'] {
            h
        } else {
            p
        },
        None => p,
    }
}

/// The full form of a path, with `~` resolved against the home directory.
pub fn normalize(p: String, home: Option<&str>) -> (r: String)
    ensures
        r@ == normalized(p@, opt_str(home)),
{
    let h = match home {
        Some(h) => h,
        None => {
            return p;
        },
    };
    let v = chars_of(p.as_str());
    if v.len() >= 2 && v[0] == '~' && v[1] == '/' {
        let mut from: usize = 0;
        assert(v@.skip(0) =~= v@);
        while v.len() - from >= 2 && v[from] == '~' && v[from + 1] == '/'
            invariant
                from <= v.len(),
                without_tildes(v@) == without_tildes(v@.skip(from as int)),
            decreases v.len() - from,
        {
            assert(v@.skip(from as int).skip(2) =~= v@.skip(from + 2));
            from += 2;
        }
        let rest = string_of(&slice_chars(&v, from, v.len()));
        assert(v@.subrange(from as int, v.len() as int) =~= v@.skip(from as int));
        path_join(h, rest.as_str())
    } else if v.len() == 1 && v[0] == '~' {
        assert(v@ =~= seq!['~']);
        string_of(&chars_of(h))
    } else {
        p
    }
}

/// Whether `list` holds the path `p`, by the components of the paths.
pub open spec fn holds_path(list: Seq<Seq<char>>, p: Seq<char>) -> bool {
    exists|i: int| 0 <= i < list.len() && same_path(#[trigger] list[i], p)
}

/// `list` without the paths that are `p`, by the components of the paths.
pub open spec fn without_path(list: Seq<Seq<char>>, p: Seq<char>) -> Seq<Seq<char>>
    decreases list.len(),
{
    if list.len() == 0 {
        list
    } else if same_path(list.last(), p) {
        without_path(list.drop_last(), p)
    } else {
        without_path(list.drop_last(), p).push(list.last())
    }
}

/// Whether `cwd` lies in or below one of the folders of `list`.
pub open spec fn below_one_of(cwd: Seq<char>, list: Seq<Seq<char>>) -> bool {
    exists|i: int| 0 <= i < list.len() && path_within(cwd, #[trigger] list[i])
}

fn list_holds(list: &Vec<String>, p: &str) -> (r: bool)
    ensures
        r == holds_path(string_views(list@), p@),
{
    let mut i: usize = 0;
    while i < list.len()
        invariant
            i <= list.len(),
            forall|k: int| 0 <= k < i ==> !same_path(#[trigger] string_views(list@)[k], p@),
        decreases list.len() - i,
    {
        if path_eq(list[i].as_str(), p) {
            assert(same_path(string_views(list@)[i as int], p@));
            return true;
        }
        i += 1;
    }
    false
}

fn list_without(list: &Vec<String>, p: &str) -> (out: Vec<String>)
    ensures
        string_views(out@) == without_path(string_views(list@), p@),
        out.len() == list.len() <==> !holds_path(string_views(list@), p@),
        out.len() <= list.len(),
{
    let mut out: Vec<String> = Vec::new();
    let ghost all = string_views(list@);
    let mut i: usize = 0;
    assert(string_views(out@) =~= without_path(all.take(0), p@));
    while i < list.len()
        invariant
            i <= list.len(),
            all == string_views(list@),
            string_views(out@) == without_path(all.take(i as int), p@),
            out.len() <= i,
            out.len() == i <==> forall|k: int| 0 <= k < i ==> !same_path(#[trigger] all[k], p@),
        decreases list.len() - i,
    {
        let ghost before = out@;
        proof {
            let pre = all.take(i + 1);
            assert(pre.drop_last() =~= all.take(i as int));
            assert(pre.last() == all[i as int]);
        }
        if !path_eq(list[i].as_str(), p) {
            out.push(list[i].clone());
            assert(string_views(out@) =~= string_views(before).push(all[i as int]));
        }
        i += 1;
    }
    assert(all.take(list.len() as int) =~= all);
    out
}

fn below_any(cwd: &str, list: &Vec<String>) -> (r: bool)
    ensures
        r == below_one_of(cwd@, string_views(list@)),
{
    let mut i: usize = 0;
    while i < list.len()
        invariant
            i <= list.len(),
            forall|k: int| 0 <= k < i ==> !path_within(cwd@, #[trigger] string_views(list@)[k]),
        decreases list.len() - i,
    {
        if path_starts_with(cwd, list[i].as_str()) {
            assert(path_within(cwd@, string_views(list@)[i as int]));
            return true;
        }
        i += 1;
    }
    false
}

/// What adding the path `p`, in the state `state`, makes of a list of
/// folders: the list with `p` at its end, unless it holds `p` already.
pub open spec fn list_with(list: Seq<Seq<char>>, p: Seq<char>) -> Seq<Seq<char>> {
    if holds_path(list, p) {
        list
    } else {
        list.push(p)
    }
}

/// The error with which a path in the state `state` is refused as a folder.
pub open spec fn refusal(state: PathState, e: ConfigError) -> bool {
    match state {
        PathState::Missing => e is PathMissing,
        PathState::NotADirectory => e is NotADirectory,
        PathState::Directory => false,
    }
}

fn add_folder(list: &mut Vec<String>, path: String, home: Option<&str>, state: PathState) -> (r:
    Result<(), ConfigError>)
    ensures
        state == PathState::Directory ==> r is Ok && string_views(final(list)@) == list_with(
            string_views(old(list)@),
            normalized(path@, opt_str(home)),
        ),
        state != PathState::Directory ==> final(list)@ == old(list)@ && (r matches Err(e)
            && refusal(state, e) && e.path() == normalized(path@, opt_str(home))),
{
    let p = normalize(path, home);
    match state {
        PathState::Missing => Err(ConfigError::PathMissing(p)),
        PathState::NotADirectory => Err(ConfigError::NotADirectory(p)),
        PathState::Directory => {
            if !list_holds(list, p.as_str()) {
                let ghost before = list@;
                list.push(p);
                assert(string_views(list@) =~= string_views(before).push(p@));
            }
            Ok(())
        },
    }
}

/// The roots where nothing is configured: `Documents/Code` in the home
/// directory, where a home is known.
pub open spec fn default_roots(home: Option<Seq<char>>) -> Seq<Seq<char>> {
    match home {
        Some(h) => seq![joined(joined(h, "Documents"@), "Code"@)],
        None => Seq::empty(),
    }
}

impl Default for CodexConfig {
    /// The program `codex`, with no arguments.
    fn default() -> (r: CodexConfig)
        ensures
            r.bin@ == "codex"@,
            r.args@.len() == 0,
    {
        CodexConfig { bin: default_codex_bin(), args: Vec::new() }
    }
}

impl ProjectsConfig {
    /// Where targets come from where nothing is configured: the root
    /// `Documents/Code` in the home directory where a home is known, no
    /// explicit path, and the last 200 sessions.
    pub fn defaults(home: Option<&str>) -> (r: ProjectsConfig)
        ensures
            string_views(r.roots@) == default_roots(opt_str(home)),
            r.paths@.len() == 0,
            r.from_sessions,
            r.sessions_limit == 200,
    {
        let mut roots: Vec<String> = Vec::new();
        assert(string_views(roots@) =~= Seq::<Seq<char>>::empty());
        if let Some(h) = home {
            let docs = path_join(h, "Documents");
            let code = path_join(docs.as_str(), "Code");
            roots.push(code);
            assert(string_views(roots@) =~= seq![joined(joined(h@, "Documents"@), "Code"@)]);
        }
        ProjectsConfig {
            roots,
            paths: Vec::new(),
            from_sessions: default_projects_from_sessions(),
            sessions_limit: default_projects_sessions_limit(),
        }
    }
}

impl SessionsConfig {
    /// Where sessions come from where nothing is configured: `.codex` in the
    /// home directory, and 15 sessions shown.
    pub fn defaults(home: Option<&str>) -> (r: SessionsConfig)
        ensures
            r.codex_home@ == joined(
                match home {
                    Some(h) => h@,
                    None => "/"@,
                },
                ".codex"@,
            ),
            r.limit == 15,
    {
        SessionsConfig { codex_home: default_codex_home(home), limit: default_sessions_limit() }
    }
}

impl Config {
    /// Whether a session that ran in `cwd` is in scope: whether the full form
    /// of `cwd` lies in or below one of the explicit paths or one of the
    /// roots.
    pub open spec fn in_scope(self, cwd: Seq<char>, home: Option<Seq<char>>) -> bool {
        below_one_of(normalized(cwd, home), string_views(self.projects.paths@)) || below_one_of(
            normalized(cwd, home),
            string_views(self.projects.roots@),
        )
    }

    /// The configuration where nothing is configured: the program `codex`,
    /// the root `Documents/Code` in the home directory where a home is known,
    /// targets from the last 200 sessions, and 15 sessions shown.
    pub fn defaults(home: Option<&str>) -> (r: Config)
        ensures
            r.codex.bin@ == "codex"@,
            r.codex.args@.len() == 0,
            string_views(r.projects.roots@) == default_roots(opt_str(home)),
            r.projects.paths@.len() == 0,
            r.projects.from_sessions,
            r.projects.sessions_limit == 200,
            r.sessions.codex_home@ == joined(
                match home {
                    Some(h) => h@,
                    None => "/"@,
                },
                ".codex"@,
            ),
            r.sessions.limit == 15,
    {
        Config {
            codex: CodexConfig::default(),
            projects: ProjectsConfig::defaults(home),
            sessions: SessionsConfig::defaults(home),
        }
    }

    /// Adds a folder to the roots. `state` is what the file system says of
    /// the full form of `path`. A path that does not exist or is no directory
    /// is refused, and the configuration stays as it is; a directory is put
    /// at the end of the roots unless they hold it already.
    pub fn add_root(&mut self, path: String, home: Option<&str>, state: PathState) -> (r: Result<
        (),
        ConfigError,
    >)
        ensures
            final(self).codex == old(self).codex,
            final(self).sessions == old(self).sessions,
            final(self).projects.paths == old(self).projects.paths,
            final(self).projects.from_sessions == old(self).projects.from_sessions,
            final(self).projects.sessions_limit == old(self).projects.sessions_limit,
            state == PathState::Directory ==> r is Ok && string_views(final(self).projects.roots@)
                == list_with(
                string_views(old(self).projects.roots@),
                normalized(path@, opt_str(home)),
            ),
            state != PathState::Directory ==> final(self).projects.roots@ == old(
                self,
            ).projects.roots@ && (r matches Err(e) && refusal(state, e) && e.path() == normalized(
                path@,
                opt_str(home),
            )),
    {
        add_folder(&mut self.projects.roots, path, home, state)
    }

    /// Adds a folder to the explicit paths, by the rules of `add_root`.
    pub fn add_path(&mut self, path: String, home: Option<&str>, state: PathState) -> (r: Result<
        (),
        ConfigError,
    >)
        ensures
            final(self).codex == old(self).codex,
            final(self).sessions == old(self).sessions,
            final(self).projects.roots == old(self).projects.roots,
            final(self).projects.from_sessions == old(self).projects.from_sessions,
            final(self).projects.sessions_limit == old(self).projects.sessions_limit,
            state == PathState::Directory ==> r is Ok && string_views(final(self).projects.paths@)
                == list_with(
                string_views(old(self).projects.paths@),
                normalized(path@, opt_str(home)),
            ),
            state != PathState::Directory ==> final(self).projects.paths@ == old(
                self,
            ).projects.paths@ && (r matches Err(e) && refusal(state, e) && e.path() == normalized(
                path@,
                opt_str(home),
            )),
    {
        add_folder(&mut self.projects.paths, path, home, state)
    }

    /// Takes a folder out of the roots and out of the explicit paths. Where
    /// neither holds it, nothing changes and the path is reported as not
    /// found.
    pub fn remove_path_or_root(&mut self, path: String, home: Option<&str>) -> (r: Result<
        (),
        ConfigError,
    >)
        ensures
            final(self).codex == old(self).codex,
            final(self).sessions == old(self).sessions,
            final(self).projects.from_sessions == old(self).projects.from_sessions,
            final(self).projects.sessions_limit == old(self).projects.sessions_limit,
            string_views(final(self).projects.roots@) == without_path(
                string_views(old(self).projects.roots@),
                normalized(path@, opt_str(home)),
            ),
            string_views(final(self).projects.paths@) == without_path(
                string_views(old(self).projects.paths@),
                normalized(path@, opt_str(home)),
            ),
            r is Ok <==> holds_path(
                string_views(old(self).projects.roots@),
                normalized(path@, opt_str(home)),
            ) || holds_path(
                string_views(old(self).projects.paths@),
                normalized(path@, opt_str(home)),
            ),
            r matches Err(e) ==> e is NotInConfig && e.path() == normalized(path@, opt_str(home)),
    {
        let p = normalize(path, home);
        let roots = list_without(&self.projects.roots, p.as_str());
        let paths = list_without(&self.projects.paths, p.as_str());
        let unchanged = roots.len() == self.projects.roots.len() && paths.len()
            == self.projects.paths.len();
        self.projects.roots = roots;
        self.projects.paths = paths;
        if unchanged {
            Err(ConfigError::NotInConfig(p))
        } else {
            Ok(())
        }
    }

    /// Whether a session that ran in `cwd` is in scope: whether the full form
    /// of `cwd` lies in or below one of the explicit paths or one of the
    /// roots.
    pub fn is_scoped_target(&self, cwd: &str, home: Option<&str>) -> (r: bool)
        ensures
            r == self.in_scope(cwd@, opt_str(home)),
    {
        let full = normalize(string_of(&chars_of(cwd)), home);
        below_any(full.as_str(), &self.projects.paths) || below_any(
            full.as_str(),
            &self.projects.roots,
        )
    }
}

} // verus!

use std::collections::HashMap;

use codex_launch::archive::MemoryArchive;
use codex_launch::config::Config;
use codex_launch::index::{
    find_session_by_id, list_recent_sessions, ScanReply, ScanRequest, SessionScan,
};
use codex_launch::scan::{
    collect_dirs_desc, collect_rollout_files_desc, find_git_root, git_marker,
    git_root_candidates, git_root_for_path, matches_filter, DirEntry, EntryKind, Filter,
    SessionQuery, MAX_ROOT_HOPS,
};
use codex_launch::sessions::SessionItem;

struct FakeDisk {
    dirs: HashMap<String, Vec<DirEntry>>,
    logs: HashMap<String, Vec<String>>,
    markers: Vec<String>,
}

fn entry(name: &str, kind: EntryKind) -> DirEntry {
    DirEntry { name: name.to_string(), kind }
}

fn log_lines(id: &str, cwd: &str, text: &str) -> Vec<String> {
    vec![
        format!(r#"{{"timestamp":"2024-01-01T00:00:00Z","type":"session_meta","payload":{{"id":"{}","cwd":"{}"}}}}"#, id, cwd),
        format!(r#"{{"type":"response_item","payload":{{"type":"message","role":"user","content":[{{"text":"{}"}}]}}}}"#, text),
    ]
}

impl FakeDisk {
    fn new() -> FakeDisk {
        FakeDisk { dirs: HashMap::new(), logs: HashMap::new(), markers: Vec::new() }
    }

    fn add_dir(&mut self, parent: &str, name: &str) {
        self.dirs.entry(parent.to_string()).or_default().push(entry(name, EntryKind::Dir));
        self.dirs.entry(format!("{}/{}", parent, name)).or_default();
    }

    fn add_log(&mut self, day: &str, name: &str, lines: Vec<String>) {
        self.dirs.entry(day.to_string()).or_default().push(entry(name, EntryKind::File));
        self.logs.insert(format!("{}/{}", day, name), lines);
    }
}

fn run_scan(mut scan: SessionScan, disk: &FakeDisk, trace: &mut Vec<ScanRequest>) -> Vec<SessionItem> {
    for _ in 0..100_000 {
        let (next, request) = scan.poll();
        scan = next;
        trace.push(request.clone());
        let reply = match request {
            ScanRequest::Done => {
                assert!(scan.is_done());
                return scan.into_items();
            }
            ScanRequest::ListDirs(p) | ScanRequest::ListFiles(p) => match disk.dirs.get(&p) {
                Some(es) => ScanReply::Entries(es.clone()),
                None => ScanReply::Missing,
            },
            ScanRequest::ReadLog(p) => match disk.logs.get(&p) {
                Some(ls) => ScanReply::Lines(ls.clone()),
                None => ScanReply::Unreadable,
            },
            ScanRequest::ProbeMarkers(ps) => {
                ScanReply::Markers(ps.iter().map(|p| disk.markers.contains(p)).collect())
            }
        };
        scan = scan.reply(reply);
    }
    panic!("the scan did not end");
}

fn config(paths: &[&str]) -> Config {
    let mut cfg = Config::defaults(Some("/home/u"));
    cfg.projects.roots = Vec::new();
    cfg.projects.paths = paths.iter().map(|p| p.to_string()).collect();
    cfg
}

const ROOT: &str = "/home/u/.codex/sessions";

fn dated_disk() -> FakeDisk {
    let mut disk = FakeDisk::new();
    disk.add_dir(ROOT, "2023");
    disk.add_dir(ROOT, "2024");
    disk.add_dir("/home/u/.codex/sessions/2024", "01");
    disk.add_dir("/home/u/.codex/sessions/2024", "02");
    disk.add_dir("/home/u/.codex/sessions/2023", "12");
    disk.add_dir("/home/u/.codex/sessions/2024/01", "05");
    disk.add_dir("/home/u/.codex/sessions/2024/02", "10");
    disk.add_dir("/home/u/.codex/sessions/2023/12", "31");
    disk.add_log(
        "/home/u/.codex/sessions/2024/01/05",
        "rollout-2024-01-05T10-00-00-a.jsonl",
        log_lines("jan-early", "/w/a", "one"),
    );
    disk.add_log(
        "/home/u/.codex/sessions/2024/01/05",
        "rollout-2024-01-05T18-00-00-b.jsonl",
        log_lines("jan-late", "/w/b", "two"),
    );
    disk.add_log(
        "/home/u/.codex/sessions/2024/02/10",
        "rollout-2024-02-10T09-00-00-c.jsonl",
        log_lines("feb", "/w/a/sub", "three"),
    );
    disk.add_log(
        "/home/u/.codex/sessions/2023/12/31",
        "rollout-2023-12-31T23-00-00-d.jsonl",
        log_lines("dec", "/elsewhere", "four"),
    );
    disk
}

#[test]
fn scan_walks_the_archive_newest_first() {
    let disk = dated_disk();
    let mut trace = Vec::new();
    let scan = list_recent_sessions(config(&[]), SessionQuery::All { limit: 100 }, Some("/home/u"));
    let items = run_scan(scan, &disk, &mut trace);
    let listed: Vec<String> = trace
        .iter()
        .filter_map(|r| match r {
            ScanRequest::ListDirs(p) | ScanRequest::ListFiles(p) => {
                Some(p.strip_prefix(ROOT).unwrap().to_string())
            }
            _ => None,
        })
        .collect();
    assert_eq!(
        listed,
        vec!["", "/2024", "/2024/02", "/2024/02/10", "/2024/01", "/2024/01/05", "/2023", "/2023/12", "/2023/12/31"]
    );
    let ids: Vec<&str> = items.iter().map(|s| s.id.as_str()).collect();
    assert_eq!(ids, vec!["feb", "jan-late", "jan-early", "dec"]);
    assert_eq!(items[0].path, "/home/u/.codex/sessions/2024/02/10/rollout-2024-02-10T09-00-00-c.jsonl");
    assert_eq!(items[0].summary.as_deref(), Some("three"));
    assert_eq!(trace.last(), Some(&ScanRequest::Done));
}

#[test]
fn scan_of_a_missing_archive_is_empty() {
    let disk = FakeDisk::new();
    let mut trace = Vec::new();
    let scan = list_recent_sessions(config(&[]), SessionQuery::All { limit: 5 }, None);
    assert!(run_scan(scan, &disk, &mut trace).is_empty());
    assert_eq!(trace, vec![ScanRequest::ListDirs(ROOT.to_string()), ScanRequest::Done]);
}

#[test]
fn scan_stops_at_the_limit() {
    let disk = dated_disk();
    let mut trace = Vec::new();
    let scan = list_recent_sessions(config(&[]), SessionQuery::All { limit: 2 }, None);
    let items = run_scan(scan, &disk, &mut trace);
    let ids: Vec<&str> = items.iter().map(|s| s.id.as_str()).collect();
    assert_eq!(ids, vec!["feb", "jan-late"]);
    let read = trace.iter().filter(|r| matches!(r, ScanRequest::ReadLog(_))).count();
    assert_eq!(read, 2);
    assert!(!trace.contains(&ScanRequest::ListDirs(format!("{}/2023", ROOT))));
}

#[test]
fn scan_with_limit_zero_reads_no_log() {
    let disk = dated_disk();
    let mut trace = Vec::new();
    let scan = list_recent_sessions(config(&[]), SessionQuery::All { limit: 0 }, None);
    assert!(run_scan(scan, &disk, &mut trace).is_empty());
    assert!(trace.iter().all(|r| !matches!(r, ScanRequest::ReadLog(_))));
}

#[test]
fn scoped_scan_returns_exactly_the_limit() {
    let mut disk = FakeDisk::new();
    disk.add_dir(ROOT, "2024");
    disk.add_dir("/home/u/.codex/sessions/2024", "03");
    let roots = ["/work/a", "/work/b", "/work/c"];
    let mut all_logs = 0;
    for day in 1..=25 {
        let day_name = format!("{:02}", day);
        disk.add_dir("/home/u/.codex/sessions/2024/03", &day_name);
        let day_path = format!("/home/u/.codex/sessions/2024/03/{}", day_name);
        for (r, root) in roots.iter().enumerate() {
            for n in 0..2 {
                let id = format!("s-{}-{}-{}", day, r, n);
                let name = format!("rollout-2024-03-{}T{:02}-00-00-{}.jsonl", day_name, r * 2 + n, id);
                disk.add_log(&day_path, &name, log_lines(&id, &format!("{}/repo{}", root, n), "work"));
                all_logs += 1;
            }
        }
        let stray = format!("rollout-2024-03-{}T23-00-00-stray{}.jsonl", day_name, day);
        disk.add_log(&day_path, &stray, log_lines(&format!("stray-{}", day), "/tmp/scratch", "x"));
    }
    assert_eq!(all_logs, 150);
    let cfg = config(&roots);
    let mut trace = Vec::new();
    let scan = list_recent_sessions(cfg.clone(), SessionQuery::Scoped { limit: 10 }, Some("/home/u"));
    let items = run_scan(scan, &disk, &mut trace);
    assert_eq!(items.len(), 10);
    for s in &items {
        assert!(cfg.is_scoped_target(&s.cwd, Some("/home/u")));
        assert!(roots.iter().any(|r| s.cwd.starts_with(r)));
    }
    let read = trace.iter().filter(|r| matches!(r, ScanRequest::ReadLog(_))).count();
    assert_eq!(read, 12);
    assert!(read < all_logs);
    let days = trace.iter().filter(|r| matches!(r, ScanRequest::ListFiles(_))).count();
    assert_eq!(days, 2);
    assert!(items[0].id.starts_with("s-25-"));
    assert!(items[9].id.starts_with("s-24-"));
}

#[test]
fn scan_for_a_directory_takes_what_lies_below_it() {
    let disk = dated_disk();
    let mut trace = Vec::new();
    let scan = list_recent_sessions(
        config(&[]),
        SessionQuery::ForCwd { cwd: "/w/a".to_string(), limit: 10 },
        None,
    );
    let items = run_scan(scan, &disk, &mut trace);
    let ids: Vec<&str> = items.iter().map(|s| s.id.as_str()).collect();
    assert_eq!(ids, vec!["feb", "jan-early"]);
}

#[test]
fn scan_for_a_repository_asks_for_its_markers() {
    let mut disk = dated_disk();
    disk.markers.push("/w/a/.git".to_string());
    disk.markers.push("/w/b/.git".to_string());
    let mut trace = Vec::new();
    let scan = list_recent_sessions(
        config(&[]),
        SessionQuery::ForRepoRoot { repo_root: "/w/a".to_string(), limit: 10 },
        None,
    );
    let items = run_scan(scan, &disk, &mut trace);
    let ids: Vec<&str> = items.iter().map(|s| s.id.as_str()).collect();
    assert_eq!(ids, vec!["feb", "jan-early"]);
    assert!(trace.contains(&ScanRequest::ProbeMarkers(vec![
        "/w/a/sub/.git".to_string(),
        "/w/a/.git".to_string(),
        "/w/.git".to_string(),
        "/.git".to_string(),
    ])));
}

#[test]
fn scan_finds_a_session_by_its_id() {
    let disk = dated_disk();
    let mut trace = Vec::new();
    let found = run_scan(find_session_by_id(config(&[]), "jan-early"), &disk, &mut trace);
    assert_eq!(found.len(), 1);
    assert_eq!(found[0].id, "jan-early");
    assert_eq!(found[0].cwd, "/w/a");
    assert!(!trace.contains(&ScanRequest::ListDirs(format!("{}/2023", ROOT))));
    let mut trace = Vec::new();
    assert!(run_scan(find_session_by_id(config(&[]), "nobody"), &disk, &mut trace).is_empty());
    let read = trace.iter().filter(|r| matches!(r, ScanRequest::ReadLog(_))).count();
    assert_eq!(read, 4);
}

#[test]
fn scan_ignores_an_answer_that_is_not_due() {
    let scan = list_recent_sessions(config(&[]), SessionQuery::All { limit: 1 }, None);
    let scan = scan.reply(ScanReply::Lines(log_lines("x", "/w", "t")));
    let (scan, request) = scan.poll();
    assert_eq!(request, ScanRequest::ListDirs(ROOT.to_string()));
    let scan = scan.reply(ScanReply::Markers(vec![true]));
    let (scan, again) = scan.poll();
    assert_eq!(again, ScanRequest::ListDirs(ROOT.to_string()));
    let scan = scan.reply(ScanReply::Entries(vec![entry("2024", EntryKind::Dir)]));
    let (scan, next) = scan.poll();
    assert_eq!(next, ScanRequest::ListDirs(format!("{}/2024", ROOT)));
    assert!(!scan.is_done());
}

#[test]
fn scan_passes_over_a_log_it_cannot_read() {
    let mut disk = dated_disk();
    disk.logs.remove("/home/u/.codex/sessions/2024/02/10/rollout-2024-02-10T09-00-00-c.jsonl");
    let mut trace = Vec::new();
    let scan = list_recent_sessions(config(&[]), SessionQuery::All { limit: 1 }, None);
    let items = run_scan(scan, &disk, &mut trace);
    assert_eq!(items.len(), 1);
    assert_eq!(items[0].id, "jan-late");
}

#[test]
fn date_directories_come_latest_first() {
    let entries = vec![
        entry("2023", EntryKind::Dir),
        entry("notes", EntryKind::Dir),
        entry("2024", EntryKind::Dir),
        entry("2025", EntryKind::File),
        entry("202", EntryKind::Dir),
        entry("20a4", EntryKind::Dir),
        entry("12345", EntryKind::Dir),
        entry("07", EntryKind::Dir),
        entry("١٢", EntryKind::Dir),
        entry("2022", EntryKind::Other),
        entry("", EntryKind::Dir),
    ];
    assert_eq!(collect_dirs_desc("/s", &entries), vec!["/s/2024", "/s/2023", "/s/07"]);
    let months = vec![entry("01", EntryKind::Dir), entry("12", EntryKind::Dir), entry("02", EntryKind::Dir)];
    assert_eq!(collect_dirs_desc("/s/2024", &months), vec!["/s/2024/12", "/s/2024/02", "/s/2024/01"]);
    assert!(collect_dirs_desc("/s", &Vec::new()).is_empty());
}

#[test]
fn session_logs_come_latest_first() {
    let entries = vec![
        entry("rollout-2024-01-05T10-00-00-a.jsonl", EntryKind::File),
        entry("rollout-2024-01-05T18-00-00-b.jsonl", EntryKind::File),
        entry("rollout-2024-01-05T12-00-00-c.jsonl", EntryKind::File),
        entry("rollout-.jsonl", EntryKind::File),
        entry("rollout-x.json", EntryKind::File),
        entry("other-2024.jsonl", EntryKind::File),
        entry("rollout-dir.jsonl", EntryKind::Dir),
        entry("Rollout-y.jsonl", EntryKind::File),
        entry("rollout.jsonl", EntryKind::File),
    ];
    assert_eq!(
        collect_rollout_files_desc("/d", &entries),
        vec![
            "/d/rollout-2024-01-05T18-00-00-b.jsonl",
            "/d/rollout-2024-01-05T12-00-00-c.jsonl",
            "/d/rollout-2024-01-05T10-00-00-a.jsonl",
            "/d/rollout-.jsonl",
        ]
    );
}

#[test]
fn git_root_is_the_nearest_marked_directory() {
    assert_eq!(git_root_candidates("/a/b/c"), vec!["/a/b/c", "/a/b", "/a", "/"]);
    assert_eq!(git_root_candidates("rel/x"), vec!["rel/x", "rel", ""]);
    assert_eq!(git_marker("/a/b"), "/a/b/.git");
    assert_eq!(git_root_for_path("/a/b/c", &vec![false, true, true]).as_deref(), Some("/a/b"));
    assert_eq!(git_root_for_path("/a/b/c", &vec![true]).as_deref(), Some("/a/b/c"));
    assert_eq!(git_root_for_path("/a/b/c", &vec![false, false, false, true]).as_deref(), Some("/"));
    assert_eq!(git_root_for_path("/a/b/c", &vec![false, false, false, false, true]), None);
    assert_eq!(git_root_for_path("/a/b/c", &Vec::new()), None);
    let dirs = vec!["/x".to_string(), "/y".to_string()];
    assert_eq!(find_git_root(&dirs, &vec![false, true, true]).as_deref(), Some("/y"));
}

#[test]
fn git_root_search_goes_up_25_directories() {
    assert_eq!(MAX_ROOT_HOPS, 25);
    let mut deep = String::new();
    for i in 0..30 {
        deep.push_str(&format!("/d{}", i));
    }
    let dirs = git_root_candidates(&deep);
    assert_eq!(dirs.len(), 25);
    assert_eq!(dirs[0], deep);
    assert_eq!(dirs[24], "/d0/d1/d2/d3/d4/d5");
    let mut marked = vec![false; 26];
    marked[25] = true;
    assert_eq!(git_root_for_path(&deep, &marked), None);
    marked[24] = true;
    assert_eq!(git_root_for_path(&deep, &marked).as_deref(), Some("/d0/d1/d2/d3/d4/d5"));
}

#[test]
fn filters_admit_by_their_rules() {
    let cfg = config(&["/w/proj"]);
    assert!(matches_filter(&cfg, &Filter::All, "/anywhere", None, None));
    assert!(matches_filter(&cfg, &Filter::Scoped, "/w/proj/sub", None, None));
    assert!(!matches_filter(&cfg, &Filter::Scoped, "/w/project", None, None));
    let home = Filter::Scoped;
    let cfg_home = config(&["/home/u/code"]);
    assert!(matches_filter(&cfg_home, &home, "~/code/x", Some("/home/u"), None));
    assert!(!matches_filter(&cfg_home, &home, "~/code/x", None, None));
    let for_cwd = Filter::ForCwd("/w/a".to_string());
    assert!(matches_filter(&cfg, &for_cwd, "/w/a", None, None));
    assert!(matches_filter(&cfg, &for_cwd, "/w/a/b/c", None, None));
    assert!(!matches_filter(&cfg, &for_cwd, "/w/ab", None, None));
    let for_repo = Filter::ForRepoRoot("/w/a".to_string());
    assert!(matches_filter(&cfg, &for_repo, "/w/a/b", None, Some("/w/a")));
    assert!(matches_filter(&cfg, &for_repo, "/w/a/b", None, Some("/w/a/")));
    assert!(!matches_filter(&cfg, &for_repo, "/w/a/b", None, Some("/w/a/b")));
    assert!(!matches_filter(&cfg, &for_repo, "/w/a/b", None, None));
}

#[test]
fn query_splits_into_limit_and_filter() {
    let (limit, filter) = SessionQuery::ForCwd { cwd: "/x".to_string(), limit: 7 }.into_parts();
    assert_eq!(limit, 7);
    assert!(matches!(filter, Filter::ForCwd(ref p) if p == "/x"));
    let (limit, filter) = SessionQuery::Scoped { limit: 3 }.into_parts();
    assert_eq!(limit, 3);
    assert!(matches!(filter, Filter::Scoped));
    let (limit, filter) = SessionQuery::All { limit: 0 }.into_parts();
    assert_eq!(limit, 0);
    assert!(matches!(filter, Filter::All));
    let (_, filter) =
        SessionQuery::ForRepoRoot { repo_root: "/r".to_string(), limit: 1 }.into_parts();
    assert!(matches!(filter, Filter::ForRepoRoot(ref p) if p == "/r"));
}

fn in_memory(disk: &FakeDisk) -> MemoryArchive {
    MemoryArchive {
        dirs: disk.dirs.iter().map(|(p, es)| (p.clone(), es.clone())).collect(),
        logs: disk.logs.iter().map(|(p, ls)| (p.clone(), ls.clone())).collect(),
        markers: disk.markers.clone(),
    }
}

#[test]
fn archive_in_memory_lists_newest_first() {
    let archive = in_memory(&dated_disk());
    let items = archive.list_recent_sessions(config(&[]), SessionQuery::All { limit: 3 }, None);
    let ids: Vec<&str> = items.iter().map(|s| s.id.as_str()).collect();
    assert_eq!(ids, vec!["feb", "jan-late", "jan-early"]);
    let scoped = archive.list_recent_sessions(
        config(&["/w/b", "/elsewhere"]),
        SessionQuery::Scoped { limit: 10 },
        None,
    );
    let ids: Vec<&str> = scoped.iter().map(|s| s.id.as_str()).collect();
    assert_eq!(ids, vec!["jan-late", "dec"]);
    let empty = MemoryArchive { dirs: Vec::new(), logs: Vec::new(), markers: Vec::new() };
    assert!(empty.list_recent_sessions(config(&[]), SessionQuery::All { limit: 3 }, None).is_empty());
}

#[test]
fn archive_in_memory_goes_by_repository_markers() {
    let mut disk = dated_disk();
    disk.markers.push("/w/.git".to_string());
    let archive = in_memory(&disk);
    let query = SessionQuery::ForRepoRoot { repo_root: "/w".to_string(), limit: 10 };
    let items = archive.list_recent_sessions(config(&[]), query, None);
    let ids: Vec<&str> = items.iter().map(|s| s.id.as_str()).collect();
    assert_eq!(ids, vec!["feb", "jan-late", "jan-early"]);
    let mut nearer = dated_disk();
    nearer.markers.push("/w/.git".to_string());
    nearer.markers.push("/w/a/.git".to_string());
    let query = SessionQuery::ForRepoRoot { repo_root: "/w".to_string(), limit: 10 };
    let items = in_memory(&nearer).list_recent_sessions(config(&[]), query, None);
    let ids: Vec<&str> = items.iter().map(|s| s.id.as_str()).collect();
    assert_eq!(ids, vec!["jan-late"]);
}

#[test]
fn archive_in_memory_finds_by_id() {
    let archive = in_memory(&dated_disk());
    assert_eq!(archive.find_session_by_id(config(&[]), "dec").unwrap().cwd, "/elsewhere");
    assert!(archive.find_session_by_id(config(&[]), "nobody").is_none());
    assert!(archive.find_session_by_id(config(&[]), "").is_none());
}

#[test]
fn archive_in_memory_agrees_with_the_scan_step_by_step() {
    let disk = dated_disk();
    let archive = in_memory(&disk);
    for limit in 0..6 {
        let mut trace = Vec::new();
        let by_steps = run_scan(
            list_recent_sessions(config(&[]), SessionQuery::All { limit }, None),
            &disk,
            &mut trace,
        );
        let at_once = archive.list_recent_sessions(config(&[]), SessionQuery::All { limit }, None);
        let a: Vec<&str> = by_steps.iter().map(|s| s.id.as_str()).collect();
        let b: Vec<&str> = at_once.iter().map(|s| s.id.as_str()).collect();
        assert_eq!(a, b);
        assert_eq!(a.len(), limit.min(4));
    }
}

#[test]
fn archive_in_memory_takes_the_first_of_two_with_one_path() {
    let archive = MemoryArchive {
        dirs: vec![
            (ROOT.to_string(), vec![entry("2024", EntryKind::Dir)]),
            (ROOT.to_string(), vec![entry("2030", EntryKind::Dir)]),
        ],
        logs: Vec::new(),
        markers: Vec::new(),
    };
    let scan = list_recent_sessions(config(&[]), SessionQuery::All { limit: 1 }, None);
    let (scan, first) = scan.poll();
    assert_eq!(first, ScanRequest::ListDirs(ROOT.to_string()));
    let scan = scan.reply(archive.answer_to(&first));
    let (_, second) = scan.poll();
    assert_eq!(second, ScanRequest::ListDirs(format!("{}/2024", ROOT)));
    assert!(archive.run(list_recent_sessions(config(&[]), SessionQuery::All { limit: 1 }, None)).is_empty());
}

use codex_launch::fuzzy::{all_positions, filter_rows, fuzzy_score, rank_matches, MATCH_LIMIT};
use codex_launch::projects::{ProjectTarget, TargetKind};
use codex_launch::quick::{
    choose_session, choose_target, confident_pick, launch_by_query, resume_by_query, Choice,
    QueryError, CONFIDENT_MARGIN, SESSION_OPTIONS, TARGET_OPTIONS,
};
use codex_launch::rank::{rank, LaterName, Score};
use codex_launch::sessions::SessionItem;
use codex_launch::timefmt::{Month, Timestamp};
use codex_launch::ui::{
    format_command, page_size, session_option_lines, shell_escape, target_option_lines,
    terminal_width, truncate_to_width, Action,
};

fn now() -> Timestamp {
    Timestamp { unix_seconds: 0, nanosecond: 0, month: Month::January, day: 1, hour: 0, minute: 0 }
}

fn target(path: &str, label: &str) -> ProjectTarget {
    ProjectTarget {
        path: path.to_string(),
        kind: TargetKind::ExplicitPath,
        label: label.to_string(),
        last_session_at: None,
        last_session_summary: None,
    }
}

fn session(id: &str, cwd: &str, summary: &str) -> SessionItem {
    SessionItem {
        id: id.to_string(),
        created_at: None,
        cwd: cwd.to_string(),
        summary: Some(summary.to_string()),
        cli_version: None,
        model_provider: None,
        source: None,
        path: format!("/logs/rollout-{}.jsonl", id),
    }
}

#[test]
fn fuzzy_score_matches_in_order_and_without_case() {
    assert_eq!(fuzzy_score("anything", ""), Some(0));
    assert_eq!(fuzzy_score("", ""), Some(0));
    assert_eq!(fuzzy_score("abc", "xyz"), None);
    assert_eq!(fuzzy_score("abc", "cba"), None);
    assert_eq!(fuzzy_score("", "a"), None);
    assert!(fuzzy_score("Hello World", "hw").is_some());
    assert!(fuzzy_score("README.md", "readme").is_some());
    assert!(fuzzy_score("readme.md", "README").is_some());
    let exact = fuzzy_score("project", "project").unwrap();
    let spread = fuzzy_score("p-r-o-j-e-c-t", "project").unwrap();
    assert!(exact > spread);
    assert_ne!(fuzzy_score("project", "p"), fuzzy_score("project", "project"));
}

#[test]
fn fuzzy_score_gives_up_beyond_the_limit() {
    assert_eq!(MATCH_LIMIT, 1_000_000);
    let long = "a".repeat(MATCH_LIMIT + 1);
    assert_eq!(fuzzy_score(&long, "a"), None);
    assert_eq!(fuzzy_score("a", &long), None);
    let at_limit = "a".repeat(MATCH_LIMIT);
    assert!(fuzzy_score(&at_limit, "a").is_some());
}

#[test]
fn ranking_is_by_score_and_stable() {
    assert_eq!(rank_matches(&vec![Some(5), None, Some(9), Some(5)]), vec![2, 0, 3]);
    assert_eq!(rank_matches(&vec![None, None]), Vec::<usize>::new());
    assert_eq!(rank_matches(&Vec::new()), Vec::<usize>::new());
    assert_eq!(rank_matches(&vec![Some(1), Some(1), Some(1)]), vec![0, 1, 2]);
    assert_eq!(rank_matches(&vec![Some(i64::MIN), Some(i64::MAX), Some(0)]), vec![1, 2, 0]);
    assert_eq!(all_positions(3), vec![0, 1, 2]);
    let scores = vec![Some(Score { value: 3 }), Some(Score { value: 7 })];
    assert_eq!(rank(&scores), vec![1, 0]);
    let names = vec![
        Some(LaterName { chars: "01".chars().collect() }),
        Some(LaterName { chars: "12".chars().collect() }),
        None,
        Some(LaterName { chars: "02".chars().collect() }),
        Some(LaterName { chars: "12".chars().collect() }),
        Some(LaterName { chars: "1".chars().collect() }),
    ];
    assert_eq!(rank(&names), vec![1, 4, 5, 3, 0]);
}

#[test]
fn rows_are_filtered_by_the_trimmed_text() {
    let rows: Vec<String> = ["alpha one", "beta two", "gamma alpha"].iter().map(|s| s.to_string()).collect();
    assert_eq!(filter_rows(&rows, ""), vec![0, 1, 2]);
    assert_eq!(filter_rows(&rows, "   "), vec![0, 1, 2]);
    assert_eq!(filter_rows(&rows, " beta "), vec![1]);
    assert_eq!(filter_rows(&rows, "alpha"), vec![0, 2]);
    assert!(filter_rows(&rows, "zzz").is_empty());
    let shown: Vec<String> = filter_rows(&rows, "alpha").iter().map(|i| rows[*i].clone()).collect();
    assert_eq!(filter_rows(&shown, ""), vec![0, 1]);
}

#[test]
fn confident_pick_needs_the_margin() {
    assert_eq!(CONFIDENT_MARGIN, 25);
    assert!(confident_pick(&vec![100, 60]));
    assert!(!confident_pick(&vec![100, 90]));
    assert!(confident_pick(&vec![100, 75]));
    assert!(!confident_pick(&vec![100, 76]));
    assert!(confident_pick(&vec![7]));
    assert!(!confident_pick(&Vec::new()));
    assert!(!confident_pick(&vec![i64::MAX, i64::MAX - 24]));
    assert!(confident_pick(&vec![i64::MIN + 25, i64::MIN, 0]));
}

#[test]
fn best_target_is_chosen_when_it_leads() {
    let scored = vec![(100, target("/w/a", "a")), (60, target("/w/b", "b"))];
    match choose_target(scored) {
        Choice::Chosen(t) => assert_eq!(t.path, "/w/a"),
        Choice::Ask(_) => panic!("expected a choice"),
    }
    let close = vec![(100, target("/w/a", "a")), (90, target("/w/b", "b"))];
    match choose_target(close) {
        Choice::Ask(options) => {
            let paths: Vec<&str> = options.iter().map(|t| t.path.as_str()).collect();
            assert_eq!(paths, vec!["/w/a", "/w/b"]);
        }
        Choice::Chosen(_) => panic!("expected to be asked"),
    }
    match choose_target(vec![(1, target("/w/only", "only"))]) {
        Choice::Chosen(t) => assert_eq!(t.path, "/w/only"),
        Choice::Ask(_) => panic!("expected a choice"),
    }
}

#[test]
fn no_more_options_are_offered_than_fit() {
    assert_eq!(TARGET_OPTIONS, 12);
    assert_eq!(SESSION_OPTIONS, 20);
    let targets: Vec<(i64, ProjectTarget)> =
        (0..30).map(|i| (50 - i, target(&format!("/w/t{}", i), "t"))).collect();
    match choose_target(targets) {
        Choice::Ask(options) => {
            assert_eq!(options.len(), 12);
            assert_eq!(options[0].path, "/w/t0");
            assert_eq!(options[11].path, "/w/t11");
        }
        Choice::Chosen(_) => panic!("expected to be asked"),
    }
    let sessions: Vec<(i64, SessionItem)> =
        (0..30).map(|i| (50 - i, session(&format!("s{}", i), "/w", "x"))).collect();
    match choose_session(sessions) {
        Choice::Ask(options) => {
            assert_eq!(options.len(), 20);
            assert_eq!(options[19].id, "s19");
        }
        Choice::Chosen(_) => panic!("expected to be asked"),
    }
    match choose_session(vec![(100, session("top", "/w", "x")), (60, session("low", "/w", "y"))]) {
        Choice::Chosen(s) => assert_eq!(s.id, "top"),
        Choice::Ask(_) => panic!("expected a choice"),
    }
}

#[test]
fn launch_by_query_picks_or_asks() {
    let targets = vec![target("/w/zebra", "zebra"), target("/w/codex-launch", "codex-launch"), target("/w/codex", "codex")];
    assert_eq!(launch_by_query(&targets, "   ").unwrap_err(), QueryError::EmptyProjectQuery);
    assert_eq!(
        launch_by_query(&targets, " qqq ").unwrap_err(),
        QueryError::NoProjectMatch("qqq".to_string())
    );
    match launch_by_query(&targets, "zebra").unwrap() {
        Choice::Chosen(t) => assert_eq!(t.path, "/w/zebra"),
        Choice::Ask(_) => panic!("expected a choice"),
    }
    match launch_by_query(&targets, "codex").unwrap() {
        Choice::Ask(options) => {
            assert_eq!(options.len(), 2);
            assert!(options.iter().all(|t| t.label.starts_with("codex")));
        }
        Choice::Chosen(t) => assert!(t.label.starts_with("codex")),
    }
    assert_eq!(launch_by_query(&Vec::new(), "x").unwrap_err(), QueryError::NoProjectMatch("x".to_string()));
}

#[test]
fn resume_by_query_matches_id_directory_and_summary() {
    let items = vec![
        session("019bd6d8", "/w/alpha", "fix parser"),
        session("7f3a0000", "/w/beta", "write docs"),
    ];
    assert_eq!(resume_by_query(&items, "").unwrap_err(), QueryError::EmptyResumeQuery);
    assert_eq!(
        resume_by_query(&items, "zzzz").unwrap_err(),
        QueryError::NoSessionMatch("zzzz".to_string())
    );
    for (query, id) in [("019bd6d8", "019bd6d8"), ("beta", "7f3a0000"), ("parser", "019bd6d8")] {
        match resume_by_query(&items, query).unwrap() {
            Choice::Chosen(s) => assert_eq!(s.id, id),
            Choice::Ask(_) => panic!("expected a choice for {}", query),
        }
    }
}

#[test]
fn query_errors_say_what_failed() {
    assert_eq!(QueryError::EmptyProjectQuery.message(), "empty project query");
    assert_eq!(QueryError::NoProjectMatch("abc".to_string()).message(), "no project matches for: abc");
    assert_eq!(QueryError::EmptyResumeQuery.message(), "empty resume query");
    assert_eq!(QueryError::NoSessionMatch("abc".to_string()).message(), "no session matches for: abc");
}

#[test]
fn actions_go_by_their_labels() {
    let all = [
        Action::NewSession,
        Action::ResumeRecentForTarget,
        Action::BrowseRecentGlobal,
        Action::BrowseRecentAllGlobal,
        Action::OpenConfig,
        Action::Back,
    ];
    for action in all {
        assert_eq!(Action::from_label(action.label()), action);
    }
    assert_eq!(Action::NewSession.label(), "New Codex session");
    assert_eq!(Action::BrowseRecentGlobal.label(), "Browse recent sessions (scoped)");
    assert_eq!(Action::from_label("anything else"), Action::Back);
    assert_eq!(Action::from_label(""), Action::Back);
}

#[test]
fn terminal_width_stays_within_bounds() {
    assert_eq!(terminal_width(None), 120);
    assert_eq!(terminal_width(Some(0)), 60);
    assert_eq!(terminal_width(Some(59)), 60);
    assert_eq!(terminal_width(Some(60)), 60);
    assert_eq!(terminal_width(Some(100)), 100);
    assert_eq!(terminal_width(Some(240)), 240);
    assert_eq!(terminal_width(Some(241)), 240);
    assert_eq!(terminal_width(Some(u16::MAX)), 240);
    assert_eq!(page_size(0), 1);
    assert_eq!(page_size(1), 1);
    assert_eq!(page_size(20), 20);
    assert_eq!(page_size(21), 20);
}

#[test]
fn option_lines_fit_the_prompt() {
    assert_eq!(truncate_to_width("hello world".to_string(), 5), "hel…");
    assert_eq!(truncate_to_width("hello".to_string(), 5), "hello");
    assert_eq!(truncate_to_width("a\nb\rc".to_string(), 5), "a b c");
    assert_eq!(truncate_to_width("a\nbcdef".to_string(), 4), "a …");
    assert_eq!(truncate_to_width("abc".to_string(), 1), "…");
    assert_eq!(truncate_to_width("abc".to_string(), 0), "…");
    let targets = vec![target("/w/a", "a"), target("/w/b", "b")];
    let lines = target_option_lines(&targets, 60, None, now());
    assert_eq!(lines.len(), 2);
    assert_eq!(lines[0], format!("{:<22}  {:<30}…", "a", "/w/a"));
    assert_eq!(lines[0].chars().count(), 55);
    let wide = target_option_lines(&targets, 240, None, now());
    assert_eq!(wide[1], format!("{:<22}  {:<52}  -", "b", "/w/b"));
    let items = vec![session("s-one", "/w/a", "first")];
    let with_path = session_option_lines(&items, false, 120, None, now());
    assert_eq!(with_path[0], format!("{:<12}  {:<8}  /w/a  first  [rollout-s-one.jsonl]", "-", "s-one"));
    let without = session_option_lines(&items, true, 120, None, now());
    assert_eq!(without[0], format!("{:<12}  {:<8}  first", "-", "s-one"));
}

#[test]
fn words_are_quoted_for_the_shell() {
    assert_eq!(shell_escape(""), "''");
    assert_eq!(shell_escape("abc-1_2./x"), "abc-1_2./x");
    assert_eq!(shell_escape("a b"), "'a b'");
    assert_eq!(shell_escape("it's"), "'it'\\''s'");
    assert_eq!(shell_escape("'"), "''\\'''");
    assert_eq!(shell_escape("é"), "'é'");
    assert_eq!(shell_escape("$HOME"), "'$HOME'");
}

#[test]
fn commands_are_written_out() {
    let args: Vec<String> = ["resume", "abc 1", ""].iter().map(|s| s.to_string()).collect();
    assert_eq!(format_command("codex", &args, Some("/w/p")), "(cd /w/p && codex resume 'abc 1' '')");
    assert_eq!(format_command("codex", &args, None), "codex resume 'abc 1' ''");
    assert_eq!(format_command("codex", &Vec::new(), None), "codex");
    assert_eq!(format_command("my codex", &Vec::new(), Some("/a b")), "(cd /a b && my codex)");
}

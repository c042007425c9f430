use codex_launch::frame::{
    render_project_sessions, render_projects, render_sessions, tab_label, tabs_line, truncate,
    Frame, Span, Style,
};
use codex_launch::projects::{ProjectTarget, TargetKind};
use codex_launch::sessions::{session_line_no_path, SessionItem};
use codex_launch::timefmt::{Month, Timestamp};
use codex_launch::tui::{
    edit_filter, filter_sessions, filter_targets, handle_list_key, handle_project_sessions_key,
    key_edit, key_motion, move_cursor, pick_project, selected_session, selected_target,
    sessions_for_target, Edit, KeyCode, KeyInput, ListOutcome, Lists, Modifiers, Motion, Picker,
    ProjectPick, ProjectSessionsOutcome, Screen, Tab,
};

fn now() -> Timestamp {
    Timestamp { unix_seconds: 0, nanosecond: 0, month: Month::January, day: 1, hour: 0, minute: 0 }
}

fn target(path: &str, label: &str) -> ProjectTarget {
    ProjectTarget {
        path: path.to_string(),
        kind: TargetKind::ExplicitPath,
        label: label.to_string(),
        last_session_at: None,
        last_session_summary: None,
    }
}

fn session(id: &str, cwd: &str, summary: &str) -> SessionItem {
    SessionItem {
        id: id.to_string(),
        created_at: None,
        cwd: cwd.to_string(),
        summary: if summary.is_empty() { None } else { Some(summary.to_string()) },
        cli_version: None,
        model_provider: None,
        source: None,
        path: format!("/logs/rollout-{}.jsonl", id),
    }
}

fn key(code: KeyCode) -> KeyInput {
    KeyInput { code, modifiers: Modifiers::Plain }
}

fn ch(c: char) -> KeyInput {
    key(KeyCode::Char(c))
}

fn ctrl(c: char) -> KeyInput {
    KeyInput { code: KeyCode::Char(c), modifiers: Modifiers::Control }
}

fn lists() -> Lists {
    let targets = vec![
        target("/w/zeta", "zeta"),
        target("/w/prism-alpha", "prism-alpha"),
        target("/w/delta", "delta"),
        target("/w/prism-beta", "prism-beta"),
        target("/w/prism-gamma", "prism-gamma"),
    ];
    let sessions_all = vec![
        session("s-one", "/w/prism-beta/src", "refactor parser"),
        session("s-two", "/w/zeta", "write docs"),
        session("s-three", "/w/prism-beta", "fix tests"),
        session("s-four", "/elsewhere", "scratch"),
        session("s-five", "/w/prism-beta-2", "unrelated"),
    ];
    let session_roots = vec![
        Some("/w/prism-beta".to_string()),
        None,
        Some("/w/prism-beta".to_string()),
        None,
        None,
    ];
    Lists {
        target_roots: vec![None, None, None, Some("/w/prism-beta".to_string()), None],
        sessions_scoped: vec![sessions_all[0].clone(), sessions_all[1].clone(), sessions_all[2].clone()],
        targets,
        sessions_all,
        session_roots,
        per_project_limit: 15,
        home: None,
    }
}

#[test]
fn typing_filters_and_enter_opens_the_filtered_row() {
    let lists = lists();
    let keys = vec![ch('p'), ch('r'), ch('i'), ch('s'), key(KeyCode::Down), key(KeyCode::Down), key(KeyCode::Enter)];
    let (picker, pick) = pick_project(&lists, &keys, now());
    assert!(pick.is_none());
    assert_eq!(picker.project_filter, "pris");
    let order = filter_targets(&lists.targets, "pris", None, now());
    assert_eq!(order.len(), 3);
    let mut sorted = order.clone();
    sorted.sort();
    assert_eq!(sorted, vec![1, 3, 4]);
    assert_eq!(picker.project_cursor, 2);
    match &picker.screen {
        Screen::ProjectSessions { target, .. } => {
            assert_eq!(target.path, lists.targets[order[2]].path);
            assert_ne!(target.path, lists.targets[2].path);
        }
        other => panic!("expected the sessions of a project, got {:?}", other),
    }
    assert_eq!(picker.drill_filter, "");
    assert_eq!(picker.drill_cursor, 0);
}

#[test]
fn cursor_stops_at_the_last_filtered_row() {
    let lists = lists();
    let mut keys = vec![ch('p'), ch('r'), ch('i'), ch('s')];
    for _ in 0..7 {
        keys.push(key(KeyCode::Down));
    }
    let (picker, pick) = pick_project(&lists, &keys, now());
    assert!(pick.is_none());
    assert_eq!(picker.project_cursor, 2);
    keys.push(ch('n'));
    let (_, pick) = pick_project(&lists, &keys, now());
    let order = filter_targets(&lists.targets, "pris", None, now());
    match pick {
        Some(ProjectPick::New(t)) => assert_eq!(t.path, lists.targets[order[2]].path),
        other => panic!("expected a new session, got {:?}", other),
    }
}

#[test]
fn global_keys_come_before_the_filter() {
    let lists = lists();
    let keys = vec![ch('p'), ch('r'), ch('o'), ch('j'), key(KeyCode::Down), key(KeyCode::Down), key(KeyCode::Enter)];
    let (picker, pick) = pick_project(&lists, &keys, now());
    assert!(matches!(pick, Some(ProjectPick::OpenConfig)));
    assert_eq!(picker.project_filter, "pr");
    assert_eq!(picker.project_cursor, 0);
    let (_, pick) = pick_project(&lists, &vec![ch('a'), ch('q'), ch('z')], now());
    assert!(matches!(pick, Some(ProjectPick::Quit)));
    let (_, pick) = pick_project(&lists, &vec![ctrl('c')], now());
    assert!(matches!(pick, Some(ProjectPick::Quit)));
    let (_, pick) = pick_project(&lists, &vec![key(KeyCode::Esc)], now());
    assert!(matches!(pick, Some(ProjectPick::Quit)));
    let (picker, pick) = pick_project(&lists, &vec![ctrl('q'), ctrl('o')], now());
    assert!(pick.is_none());
    assert_eq!(picker.project_filter, "");
}

#[test]
fn tabs_are_paged_with_left_and_right() {
    let lists = lists();
    let right = key(KeyCode::Right);
    let left = key(KeyCode::Left);
    let (picker, _) = pick_project(&lists, &vec![right], now());
    assert!(matches!(picker.screen, Screen::Tab(Tab::SessionsScoped)));
    let (picker, _) = pick_project(&lists, &vec![right, right], now());
    assert!(matches!(picker.screen, Screen::Tab(Tab::SessionsAll)));
    let (picker, _) = pick_project(&lists, &vec![right, right, right], now());
    assert!(matches!(picker.screen, Screen::Tab(Tab::SessionsAll)));
    let (picker, _) = pick_project(&lists, &vec![right, right, left], now());
    assert!(matches!(picker.screen, Screen::Tab(Tab::SessionsScoped)));
    let (picker, _) = pick_project(&lists, &vec![right, left, left], now());
    assert!(matches!(picker.screen, Screen::Tab(Tab::Projects)));
    let esc = key(KeyCode::Esc);
    let (picker, pick) = pick_project(&lists, &vec![right, right, esc], now());
    assert!(pick.is_none());
    assert!(matches!(picker.screen, Screen::Tab(Tab::SessionsScoped)));
    let (picker, pick) = pick_project(&lists, &vec![right, esc], now());
    assert!(pick.is_none());
    assert!(matches!(picker.screen, Screen::Tab(Tab::Projects)));
}

#[test]
fn each_tab_keeps_its_filter_and_cursor() {
    let lists = lists();
    let keys = vec![
        ch('z'),
        key(KeyCode::Right),
        ch('s'),
        key(KeyCode::Down),
        key(KeyCode::Right),
        ch('f'),
        key(KeyCode::Left),
        key(KeyCode::Left),
    ];
    let (picker, pick) = pick_project(&lists, &keys, now());
    assert!(pick.is_none());
    assert!(matches!(picker.screen, Screen::Tab(Tab::Projects)));
    assert_eq!(picker.project_filter, "z");
    assert_eq!(picker.scoped_filter, "s");
    assert_eq!(picker.scoped_cursor, 1);
    assert_eq!(picker.all_filter, "f");
    assert_eq!(picker.all_cursor, 0);
}

#[test]
fn enter_on_a_sessions_tab_resumes() {
    let lists = lists();
    let keys = vec![key(KeyCode::Right), key(KeyCode::Down), key(KeyCode::Enter)];
    let (_, pick) = pick_project(&lists, &keys, now());
    match pick {
        Some(ProjectPick::Resume(s)) => assert_eq!(s.id, "s-two"),
        other => panic!("expected a resume, got {:?}", other),
    }
    let keys = vec![key(KeyCode::Right), key(KeyCode::Right), key(KeyCode::End), key(KeyCode::Enter)];
    let (_, pick) = pick_project(&lists, &keys, now());
    match pick {
        Some(ProjectPick::Resume(s)) => assert_eq!(s.id, "s-five"),
        other => panic!("expected a resume, got {:?}", other),
    }
    let keys = vec![key(KeyCode::Right), ch('n'), key(KeyCode::Enter)];
    let (picker, _) = pick_project(&lists, &keys, now());
    assert_eq!(picker.scoped_filter, "n");
}

#[test]
fn project_sessions_offer_new_and_resume() {
    let lists = lists();
    let open = vec![ch('b'), ch('e'), ch('t'), ch('a'), key(KeyCode::Enter)];
    let (picker, pick) = pick_project(&lists, &open, now());
    assert!(pick.is_none());
    match &picker.screen {
        Screen::ProjectSessions { target, sessions } => {
            assert_eq!(target.path, "/w/prism-beta");
            let ids: Vec<&str> = sessions.iter().map(|s| s.id.as_str()).collect();
            assert_eq!(ids, vec!["s-one", "s-three"]);
        }
        other => panic!("expected the sessions of a project, got {:?}", other),
    }
    let mut new = open.clone();
    new.push(key(KeyCode::Enter));
    match pick_project(&lists, &new, now()).1 {
        Some(ProjectPick::New(t)) => assert_eq!(t.path, "/w/prism-beta"),
        other => panic!("expected a new session, got {:?}", other),
    }
    let mut resume = open.clone();
    resume.extend([key(KeyCode::Down), key(KeyCode::Down), key(KeyCode::Down), key(KeyCode::Enter)]);
    match pick_project(&lists, &resume, now()).1 {
        Some(ProjectPick::Resume(s)) => assert_eq!(s.id, "s-three"),
        other => panic!("expected a resume, got {:?}", other),
    }
    let mut back = open.clone();
    back.extend([ch('x'), key(KeyCode::Esc)]);
    let (picker, pick) = pick_project(&lists, &back, now());
    assert!(pick.is_none());
    assert!(matches!(picker.screen, Screen::Tab(Tab::Projects)));
    assert_eq!(picker.project_filter, "beta");
    assert_eq!(picker.drill_filter, "x");
    let mut again = back.clone();
    again.push(key(KeyCode::Enter));
    let (picker, _) = pick_project(&lists, &again, now());
    assert!(matches!(picker.screen, Screen::ProjectSessions { .. }));
    assert_eq!(picker.drill_filter, "");
    let mut left = open.clone();
    left.push(key(KeyCode::Left));
    assert!(matches!(pick_project(&lists, &left, now()).0.screen, Screen::Tab(Tab::Projects)));
}

#[test]
fn sessions_of_a_target_go_by_repository_or_directory() {
    let lists = lists();
    let by_repo = sessions_for_target(
        &lists.targets[3],
        &Some("/w/prism-beta".to_string()),
        &lists.sessions_all,
        &lists.session_roots,
        15,
    );
    let ids: Vec<&str> = by_repo.iter().map(|s| s.id.as_str()).collect();
    assert_eq!(ids, vec!["s-one", "s-three"]);
    let limited = sessions_for_target(
        &lists.targets[3],
        &Some("/w/prism-beta/".to_string()),
        &lists.sessions_all,
        &lists.session_roots,
        1,
    );
    assert_eq!(limited.len(), 1);
    assert_eq!(limited[0].id, "s-one");
    let by_dir = sessions_for_target(&lists.targets[3], &None, &lists.sessions_all, &Vec::new(), 15);
    let ids: Vec<&str> = by_dir.iter().map(|s| s.id.as_str()).collect();
    assert_eq!(ids, vec!["s-one", "s-three"]);
    let inside = sessions_for_target(
        &target("/w/prism-beta/src", "src"),
        &Some("/w/prism-beta".to_string()),
        &lists.sessions_all,
        &lists.session_roots,
        15,
    );
    let ids: Vec<&str> = inside.iter().map(|s| s.id.as_str()).collect();
    assert_eq!(ids, vec!["s-one"]);
    assert!(sessions_for_target(&lists.targets[3], &None, &lists.sessions_all, &lists.session_roots, 0).is_empty());
}

#[test]
fn empty_filter_keeps_the_order() {
    let lists = lists();
    assert_eq!(filter_targets(&lists.targets, "", None, now()), vec![0, 1, 2, 3, 4]);
    assert_eq!(filter_targets(&lists.targets, "  \t ", None, now()), vec![0, 1, 2, 3, 4]);
    assert_eq!(filter_sessions(&lists.sessions_all, ""), vec![0, 1, 2, 3, 4]);
    assert_eq!(filter_sessions(&Vec::new(), ""), Vec::<usize>::new());
    let shown: Vec<ProjectTarget> =
        filter_targets(&lists.targets, "", None, now()).iter().map(|i| lists.targets[*i].clone()).collect();
    assert_eq!(filter_targets(&shown, "", None, now()), vec![0, 1, 2, 3, 4]);
    assert_eq!(shown, lists.targets);
}

#[test]
fn filter_keeps_what_matches() {
    let lists = lists();
    assert_eq!(filter_targets(&lists.targets, "zeta", None, now()), vec![0]);
    assert_eq!(filter_targets(&lists.targets, " ZETA ", None, now()), vec![0]);
    assert!(filter_targets(&lists.targets, "qqq", None, now()).is_empty());
    assert_eq!(filter_sessions(&lists.sessions_all, "docs"), vec![1]);
    assert_eq!(filter_sessions(&lists.sessions_all, "elsewhere"), vec![3]);
    assert_eq!(filter_sessions(&lists.sessions_all, "s-four"), vec![3]);
}

#[test]
fn keys_stand_for_motions_and_edits() {
    assert_eq!(key_motion(key(KeyCode::Up)), Some(Motion::Up));
    assert_eq!(key_motion(ch('k')), Some(Motion::Up));
    assert_eq!(key_motion(ch('j')), Some(Motion::Down));
    assert_eq!(key_motion(ctrl('j')), None);
    assert_eq!(key_motion(key(KeyCode::PageUp)), Some(Motion::PageUp));
    assert_eq!(key_motion(key(KeyCode::PageDown)), Some(Motion::PageDown));
    assert_eq!(key_motion(key(KeyCode::Home)), Some(Motion::Home));
    assert_eq!(key_motion(key(KeyCode::End)), Some(Motion::End));
    assert_eq!(key_motion(ch('a')), None);
    assert_eq!(key_edit(ch('a')), Some(Edit::Insert('a')));
    assert_eq!(key_edit(ch('é')), Some(Edit::Insert('é')));
    assert_eq!(key_edit(ch('\u{7}')), None);
    assert_eq!(key_edit(ch('\u{9f}')), None);
    assert_eq!(key_edit(ctrl('u')), Some(Edit::Clear));
    assert_eq!(key_edit(ctrl('a')), None);
    assert_eq!(key_edit(key(KeyCode::Backspace)), Some(Edit::Backspace));
    assert_eq!(key_edit(KeyInput { code: KeyCode::Backspace, modifiers: Modifiers::Other }), Some(Edit::Backspace));
    assert_eq!(key_edit(KeyInput { code: KeyCode::Char('a'), modifiers: Modifiers::Other }), None);
    assert_eq!(key_edit(key(KeyCode::Other)), None);
}

#[test]
fn cursor_moves_within_the_list() {
    assert_eq!(move_cursor(Motion::Up, 0, Some(4)), 0);
    assert_eq!(move_cursor(Motion::Up, 3, Some(4)), 2);
    assert_eq!(move_cursor(Motion::Up, 3, None), 3);
    assert_eq!(move_cursor(Motion::Down, 3, Some(4)), 4);
    assert_eq!(move_cursor(Motion::Down, 4, Some(4)), 4);
    assert_eq!(move_cursor(Motion::Down, 9, Some(4)), 4);
    assert_eq!(move_cursor(Motion::Down, usize::MAX, Some(4)), 4);
    assert_eq!(move_cursor(Motion::Down, 0, None), 0);
    assert_eq!(move_cursor(Motion::PageUp, 25, Some(40)), 15);
    assert_eq!(move_cursor(Motion::PageUp, 7, Some(40)), 0);
    assert_eq!(move_cursor(Motion::PageUp, 7, None), 0);
    assert_eq!(move_cursor(Motion::PageDown, 25, Some(40)), 35);
    assert_eq!(move_cursor(Motion::PageDown, 35, Some(40)), 40);
    assert_eq!(move_cursor(Motion::PageDown, 29, Some(40)), 39);
    assert_eq!(move_cursor(Motion::PageDown, 30, Some(40)), 40);
    assert_eq!(move_cursor(Motion::Home, 25, Some(40)), 0);
    assert_eq!(move_cursor(Motion::End, 25, Some(40)), 40);
    assert_eq!(move_cursor(Motion::End, 25, None), 25);
}

#[test]
fn filter_is_edited_by_keys() {
    let mut filter = "abc".to_string();
    edit_filter(Edit::Insert('d'), &mut filter);
    assert_eq!(filter, "abcd");
    edit_filter(Edit::Backspace, &mut filter);
    edit_filter(Edit::Backspace, &mut filter);
    assert_eq!(filter, "ab");
    edit_filter(Edit::Clear, &mut filter);
    assert_eq!(filter, "");
    edit_filter(Edit::Backspace, &mut filter);
    assert_eq!(filter, "");
}

#[test]
fn list_keys_have_their_outcomes() {
    let mut filter = "ab".to_string();
    let mut cursor = 2usize;
    assert_eq!(handle_list_key(key(KeyCode::Enter), &mut filter, &mut cursor, 5, Tab::Projects), ListOutcome::Activate);
    assert_eq!(handle_list_key(ch('n'), &mut filter, &mut cursor, 5, Tab::Projects), ListOutcome::StartNew);
    assert_eq!(handle_list_key(key(KeyCode::Left), &mut filter, &mut cursor, 5, Tab::Projects), ListOutcome::SwitchTab(Tab::Projects));
    assert_eq!(handle_list_key(key(KeyCode::Right), &mut filter, &mut cursor, 5, Tab::Projects), ListOutcome::SwitchTab(Tab::SessionsScoped));
    assert_eq!(handle_list_key(key(KeyCode::Left), &mut filter, &mut cursor, 5, Tab::SessionsAll), ListOutcome::SwitchTab(Tab::SessionsScoped));
    assert_eq!((filter.as_str(), cursor), ("ab", 2));
    assert_eq!(handle_list_key(ch('n'), &mut filter, &mut cursor, 5, Tab::SessionsAll), ListOutcome::Continue);
    assert_eq!((filter.as_str(), cursor), ("abn", 0));
    cursor = 3;
    assert_eq!(handle_list_key(ch('j'), &mut filter, &mut cursor, 5, Tab::Projects), ListOutcome::Continue);
    assert_eq!((filter.as_str(), cursor), ("abn", 4));
    assert_eq!(handle_list_key(key(KeyCode::Down), &mut filter, &mut cursor, 5, Tab::Projects), ListOutcome::Continue);
    assert_eq!(cursor, 4);
    assert_eq!(handle_list_key(key(KeyCode::Down), &mut filter, &mut cursor, 0, Tab::Projects), ListOutcome::Continue);
    assert_eq!(cursor, 4);
    assert_eq!(handle_list_key(key(KeyCode::Backspace), &mut filter, &mut cursor, 5, Tab::Projects), ListOutcome::Continue);
    assert_eq!((filter.as_str(), cursor), ("ab", 0));
    cursor = 2;
    assert_eq!(handle_list_key(ch('\u{1b}'), &mut filter, &mut cursor, 5, Tab::Projects), ListOutcome::Continue);
    assert_eq!((filter.as_str(), cursor), ("ab", 2));
    assert_eq!(handle_list_key(ctrl('u'), &mut filter, &mut cursor, 5, Tab::Projects), ListOutcome::Continue);
    assert_eq!((filter.as_str(), cursor), ("", 0));
}

#[test]
fn project_session_keys_have_their_outcomes() {
    let mut filter = String::new();
    let mut cursor = 0usize;
    assert_eq!(handle_project_sessions_key(key(KeyCode::Enter), &mut filter, &mut cursor, 3), ProjectSessionsOutcome::StartNew);
    cursor = 2;
    assert_eq!(
        handle_project_sessions_key(key(KeyCode::Enter), &mut filter, &mut cursor, 3),
        ProjectSessionsOutcome::Resume { filtered_idx: 1 }
    );
    assert_eq!(handle_project_sessions_key(key(KeyCode::End), &mut filter, &mut cursor, 3), ProjectSessionsOutcome::Continue);
    assert_eq!(cursor, 3);
    assert_eq!(handle_project_sessions_key(ch('j'), &mut filter, &mut cursor, 3), ProjectSessionsOutcome::Continue);
    assert_eq!(cursor, 3);
    assert_eq!(handle_project_sessions_key(ch('k'), &mut filter, &mut cursor, 3), ProjectSessionsOutcome::Continue);
    assert_eq!(cursor, 2);
    assert_eq!(handle_project_sessions_key(key(KeyCode::Down), &mut filter, &mut cursor, 0), ProjectSessionsOutcome::Continue);
    assert_eq!(cursor, 0);
    assert_eq!(handle_project_sessions_key(ch('n'), &mut filter, &mut cursor, 3), ProjectSessionsOutcome::Continue);
    assert_eq!(filter, "n");
}

#[test]
fn selection_goes_through_the_filtered_list() {
    let lists = lists();
    let filtered = vec![4usize, 1, 9];
    assert_eq!(selected_target(&lists.targets, &filtered, 0).unwrap().label, "prism-gamma");
    assert_eq!(selected_target(&lists.targets, &filtered, 1).unwrap().label, "prism-alpha");
    assert!(selected_target(&lists.targets, &filtered, 2).is_none());
    assert!(selected_target(&lists.targets, &filtered, 3).is_none());
    assert_eq!(selected_session(&lists.sessions_all, &filtered, 0).unwrap().id, "s-five");
    assert!(selected_session(&lists.sessions_all, &Vec::new(), 0).is_none());
}

#[test]
fn apply_key_takes_the_filtered_list_as_given() {
    let lists = lists();
    let mut picker = Picker::new();
    picker.project_cursor = 7;
    let pick = picker.apply_key(&lists, ch('n'), &vec![4, 2]);
    match pick {
        Some(ProjectPick::New(t)) => assert_eq!(t.label, "delta"),
        other => panic!("expected a new session, got {:?}", other),
    }
    assert_eq!(picker.project_cursor, 1);
    let mut picker = Picker::new();
    assert!(picker.apply_key(&lists, key(KeyCode::Enter), &Vec::new()).is_none());
    assert!(matches!(picker.screen, Screen::Tab(Tab::Projects)));
}

fn texts(frame: &Frame) -> Vec<String> {
    frame.lines.iter().map(|l| l.iter().map(|s| s.text.as_str()).collect::<String>()).collect()
}

#[test]
fn tab_line_marks_the_active_tab() {
    let line = tabs_line(Tab::SessionsScoped);
    let styles: Vec<Style> = line.iter().map(|s| s.style).collect();
    assert_eq!(
        styles,
        vec![Style::Bold, Style::Plain, Style::Dim, Style::Plain, Style::Reverse, Style::Plain, Style::Dim]
    );
    let text: String = line.iter().map(|s| s.text.as_str()).collect();
    assert_eq!(text, "codex-launch   Projects    Sessions (scoped)    Sessions (all) ");
    assert_eq!(tab_label("Projects", true), Span { style: Style::Reverse, text: " Projects ".to_string() });
    assert_eq!(tab_label("Projects", false), Span { style: Style::Dim, text: " Projects ".to_string() });
}

#[test]
fn truncate_cuts_rows() {
    assert_eq!(truncate("hello world".to_string(), 5), "hell…");
    assert_eq!(truncate("hi".to_string(), 5), "hi");
    assert_eq!(truncate("a\nb".to_string(), 10), "a\nb");
    assert_eq!(truncate("a\nb\rcdef".to_string(), 5), "a b …");
    assert_eq!(truncate("abc".to_string(), 0), "…");
}

#[test]
fn projects_frame_shows_the_window_around_the_cursor() {
    let targets: Vec<ProjectTarget> =
        (0..10).map(|i| target(&format!("/w/t{}", i), &format!("t{}", i))).collect();
    let filtered: Vec<usize> = (0..10).rev().collect();
    let frame = render_projects(&targets, &filtered, 4, "abc", 200, 9, None, now());
    let lines = texts(&frame);
    assert_eq!(lines.len(), 3 + 4 + 1);
    assert_eq!(lines[0], "codex-launch   Projects    Sessions (scoped)    Sessions (all) ");
    assert_eq!(lines[1], "⏎ sessions · n new · ←/→ tabs · o config · q quit");
    assert_eq!(lines[2], "Filter: abc");
    assert_eq!(lines[3], format!("  {:<22}  {:<52}  -", "t7", "/w/t7"));
    assert_eq!(lines[4], format!("  {:<22}  {:<52}  -", "t6", "/w/t6"));
    assert_eq!(lines[5], format!("> {:<22}  {:<52}  -", "t5", "/w/t5"));
    assert_eq!(lines[6], format!("  {:<22}  {:<52}  -", "t4", "/w/t4"));
    assert_eq!(lines[7], "10 / 10");
    assert_eq!(frame.lines[5][0].style, Style::Reverse);
    assert_eq!(frame.lines[4][0].style, Style::Plain);
    assert_eq!(frame.lines[1][0].style, Style::Dim);
    assert_eq!(frame.lines[2][0].style, Style::Bold);
    assert_eq!(frame.lines[7][0].style, Style::Dim);
}

#[test]
fn frame_cuts_rows_to_the_width() {
    let targets = vec![target("/w/some/long/path", "label")];
    let frame = render_projects(&targets, &vec![0], 0, "", 12, 30, None, now());
    let lines = texts(&frame);
    assert_eq!(lines[1], "⏎ sessions …");
    assert_eq!(lines[3], "> label   …");
    assert_eq!(lines[4], "1 / 1");
    let narrow = render_projects(&targets, &vec![0], 5, "", 0, 0, None, now());
    let lines = texts(&narrow);
    assert_eq!(lines, vec![
        "codex-launch   Projects    Sessions (scoped)    Sessions (all) ".to_string(),
        "…".to_string(),
        "Filter: ".to_string(),
        "1 / 1".to_string(),
    ]);
}

#[test]
fn sessions_frame_has_its_own_help() {
    let items = vec![session("s-one", "/w/a", "first"), session("s-two", "/w/b", "")];
    let frame = render_sessions(Tab::SessionsAll, &items, &vec![1, 0], 0, "x", 120, 24, None, now());
    let lines = texts(&frame);
    assert_eq!(lines[1], "⏎ resume · esc back · ← tabs · o config · q quit");
    assert_eq!(lines[3], format!("> {:<12}  {:<8}  {}  [rollout-s-two.jsonl]", "-", "s-two", "/w/b"));
    assert_eq!(lines[4], format!("  {:<12}  {:<8}  {}  first  [rollout-s-one.jsonl]", "-", "s-one", "/w/a"));
    assert_eq!(lines[5], "2 / 2");
    let scoped = render_sessions(Tab::SessionsScoped, &items, &Vec::new(), 0, "", 120, 24, None, now());
    let lines = texts(&scoped);
    assert_eq!(lines[1], "⏎ resume · esc back · ←/→ tabs · o config · q quit");
    assert_eq!(lines[3], "0 / 2");
}

#[test]
fn project_sessions_frame_starts_with_a_new_session() {
    let items = vec![session("s-one", "/w/a", "first"), session("s-two", "/w/b", "second")];
    let t = target("/w/a", "a-project");
    let frame = render_project_sessions(&t, &items, &vec![1, 7, 0], 1, "", 120, 24, now());
    let lines = texts(&frame);
    assert_eq!(lines[0], "Project:  a-project");
    assert_eq!(lines[1], "⏎ select · esc back · o config · q quit");
    assert_eq!(lines[3], "  Start new session");
    assert_eq!(lines[4], format!("> {}", session_line_no_path(&items[1], now())));
    assert_eq!(lines[5], format!("  {}", session_line_no_path(&items[0], now())));
    assert_eq!(lines[4], format!("> {:<12}  {:<8}  second", "-", "s-two"));
    assert_eq!(lines[6], "2 sessions");
    assert_eq!(lines.len(), 7);
}

#[test]
fn picker_renders_what_it_shows() {
    let lists = lists();
    let (picker, _) = pick_project(&lists, &vec![ch('z'), ch('e')], now());
    let frame = picker.render(&lists, 120, 24, now());
    let lines = texts(&frame);
    assert_eq!(lines[2], "Filter: ze");
    assert_eq!(lines[3], format!("> {:<22}  {:<52}  -", "zeta", "/w/zeta"));
    assert_eq!(lines[4], "1 / 5");
    let order = picker.visible(&lists, now());
    assert_eq!(order, vec![0]);
    assert_eq!(picker.frame_of(&lists, &order, 120, 24, now()), frame);
}

use codex_launch::json::Json;
use codex_launch::sessions::{
    extract_text_from_message_payload, looks_like_boilerplate, normalize_summary,
    read_session_meta, truncate_one_line, RecordDraft, SessionItem, MAX_SCAN_LINES,
};
use codex_launch::timefmt::{parse_rfc3339, Month, Timestamp};

const META: &str = r#"{"timestamp":"2026-01-19T15:21:26.203Z","type":"session_meta","payload":{"id":"019bd6d8-b99b-7eb1-847c-87c3da10673a","timestamp":"2026-01-19T15:21:26.171Z","cwd":"/Users/ivan/Documents/Obsidian/Ethea42","originator":"codex_cli_rs","cli_version":"0.88.0-alpha.4","source":"cli","model_provider":"openai"}}"#;

fn user_line(text: &str) -> String {
    let mut quoted = String::new();
    for c in text.chars() {
        match c {
            '"' => quoted.push_str("\\\""),
            '\\' => quoted.push_str("\\\\"),
            '\n' => quoted.push_str("\\n"),
            '\t' => quoted.push_str("\\t"),
            _ => quoted.push(c),
        }
    }
    format!(
        r#"{{"timestamp":"2026-01-19T21:55:21.488Z","type":"response_item","payload":{{"type":"message","role":"user","content":[{{"type":"input_text","text":"{}"}}]}}}}"#,
        quoted
    )
}

fn lines(parts: &[&str]) -> Vec<String> {
    parts.iter().map(|s| s.to_string()).collect()
}

fn session(id: &str, cwd: &str) -> SessionItem {
    SessionItem {
        id: id.to_string(),
        created_at: None,
        cwd: cwd.to_string(),
        summary: None,
        cli_version: None,
        model_provider: None,
        source: None,
        path: "/logs/rollout-x.jsonl".to_string(),
    }
}

#[test]
fn parses_session_meta_line() {
    let v = Json::parse(META).unwrap();
    assert_eq!(v.get("type").unwrap().as_str().unwrap(), "session_meta");
    let payload = v.get("payload").unwrap();
    assert_eq!(
        payload.get("id").unwrap().as_str().unwrap(),
        "019bd6d8-b99b-7eb1-847c-87c3da10673a"
    );
    assert_eq!(
        payload.get("cwd").unwrap().as_str().unwrap(),
        "/Users/ivan/Documents/Obsidian/Ethea42"
    );
}

#[test]
fn extracts_user_message_text() {
    let line = r#"{"timestamp":"2026-01-19T21:55:21.488Z","type":"response_item","payload":{"type":"message","role":"user","content":[{"type":"input_text","text":"hello there\n\nmore"}]}}"#;
    let v = Json::parse(line).unwrap();
    let payload = v.get("payload").unwrap();
    let text = extract_text_from_message_payload(payload).unwrap();
    assert_eq!(normalize_summary(text), "hello there");
}

#[test]
fn json_values_keep_their_kinds() {
    let v = Json::parse(r#"{"a":null,"b":true,"c":1.5,"d":"x","e":[1,"two"],"f":{"g":"h"}}"#)
        .unwrap();
    assert_eq!(v.get("a"), Some(&Json::Null));
    assert_eq!(v.get("b"), Some(&Json::Bool(true)));
    assert_eq!(v.get("c"), Some(&Json::Number));
    assert_eq!(v.get("d"), Some(&Json::Text("x".to_string())));
    assert_eq!(
        v.get("e").unwrap().as_array().unwrap(),
        &vec![Json::Number, Json::Text("two".to_string())]
    );
    assert_eq!(v.get("f").unwrap().get_str("g"), Some("h"));
    assert_eq!(v.get("missing"), None);
    assert_eq!(v.get("d").unwrap().get("x"), None);
    assert_eq!(v.get("a").unwrap().as_str(), None);
    assert_eq!(v.get("d").unwrap().as_array(), None);
    assert_eq!(v.get_str("b"), None);
}

#[test]
fn json_rejects_what_is_no_json() {
    assert_eq!(Json::parse("not json at all"), None);
    assert_eq!(Json::parse(""), None);
    assert_eq!(Json::parse(r#"{"a":1} trailing"#), None);
    assert_eq!(Json::parse("[1, 2"), None);
    assert_eq!(Json::parse("\"text\""), Some(Json::Text("text".to_string())));
}

#[test]
fn record_survives_a_garbage_line() {
    let log = vec![META.to_string(), "this is {not json".to_string(), user_line("please fix bug X")];
    let record = read_session_meta(&log, "/logs/rollout-1.jsonl").unwrap();
    assert_eq!(record.id, "019bd6d8-b99b-7eb1-847c-87c3da10673a");
    assert_eq!(record.cwd, "/Users/ivan/Documents/Obsidian/Ethea42");
    assert_eq!(record.created_at.as_deref(), Some("2026-01-19T15:21:26.203Z"));
    assert_eq!(record.summary.as_deref(), Some("please fix bug X"));
    assert_eq!(record.cli_version.as_deref(), Some("0.88.0-alpha.4"));
    assert_eq!(record.model_provider.as_deref(), Some("openai"));
    assert_eq!(record.source.as_deref(), Some("cli"));
    assert_eq!(record.path, "/logs/rollout-1.jsonl");
}

#[test]
fn record_needs_a_cwd() {
    let log = lines(&[
        r#"{"type":"session_meta","payload":{"id":"abc"}}"#,
        &user_line("hello"),
    ]);
    assert!(read_session_meta(&log, "/logs/rollout-1.jsonl").is_none());
}

#[test]
fn record_needs_an_id() {
    let log = lines(&[r#"{"type":"session_meta","payload":{"cwd":"/w"}}"#, &user_line("hello")]);
    assert!(read_session_meta(&log, "/logs/rollout-1.jsonl").is_none());
    let empty_id = lines(&[r#"{"type":"session_meta","payload":{"id":"","cwd":"/w"}}"#]);
    assert!(read_session_meta(&empty_id, "/logs/rollout-1.jsonl").is_none());
    assert!(read_session_meta(&Vec::new(), "/logs/rollout-1.jsonl").is_none());
}

#[test]
fn summary_skips_boilerplate() {
    let log = vec![
        META.to_string(),
        user_line("<environment_context>\n  <cwd>/w</cwd>\n</environment_context>"),
        user_line("please fix bug X"),
    ];
    let record = read_session_meta(&log, "/logs/rollout-1.jsonl").unwrap();
    assert_eq!(record.summary.as_deref(), Some("please fix bug X"));
}

#[test]
fn summary_falls_back_to_the_first_text() {
    let log = vec![META.to_string(), user_line("# AGENTS.md instructions for /w\n\nbe kind")];
    let record = read_session_meta(&log, "/logs/rollout-1.jsonl").unwrap();
    assert_eq!(record.summary.as_deref(), Some("# AGENTS.md instructions for /w"));
}

#[test]
fn record_without_user_message_has_no_summary() {
    let assistant = r#"{"type":"response_item","payload":{"type":"message","role":"assistant","content":[{"type":"output_text","text":"hi"}]}}"#;
    let log = lines(&[META, assistant, "", "   "]);
    let record = read_session_meta(&log, "/logs/rollout-1.jsonl").unwrap();
    assert_eq!(record.summary, None);
    assert_eq!(record.id, "019bd6d8-b99b-7eb1-847c-87c3da10673a");
}

#[test]
fn reading_stops_when_the_record_is_complete() {
    let later = r#"{"type":"session_meta","payload":{"id":"later","cwd":"/later"}}"#;
    let log = vec![META.to_string(), user_line("first real text"), later.to_string()];
    let record = read_session_meta(&log, "/p").unwrap();
    assert_eq!(record.id, "019bd6d8-b99b-7eb1-847c-87c3da10673a");
    let not_yet = vec![META.to_string(), later.to_string(), user_line("first real text")];
    let record = read_session_meta(&not_yet, "/p").unwrap();
    assert_eq!(record.id, "later");
    assert_eq!(record.cwd, "/later");
    assert_eq!(record.cli_version, None);
    assert_eq!(record.created_at.as_deref(), Some("2026-01-19T15:21:26.203Z"));
}

#[test]
fn reading_stops_at_the_line_cap() {
    assert_eq!(MAX_SCAN_LINES, 300);
    let mut log: Vec<String> = Vec::new();
    for _ in 0..MAX_SCAN_LINES {
        log.push("{}".to_string());
    }
    log.push(META.to_string());
    assert!(read_session_meta(&log, "/p").is_none());
    log.remove(0);
    assert!(read_session_meta(&log, "/p").is_some());
}

#[test]
fn draft_is_complete_with_id_cwd_and_real_text() {
    let mut draft = RecordDraft::new();
    assert!(!draft.is_complete());
    draft.absorb_line(META);
    assert!(!draft.is_complete());
    draft.absorb_line(&user_line("<user_shell_command>ls</user_shell_command>"));
    assert!(!draft.is_complete());
    assert!(draft.first_user_text.is_some());
    assert!(draft.best_user_text.is_none());
    draft.absorb_line("   ");
    draft.absorb_line("garbage");
    draft.absorb_line(&user_line("  do the thing  "));
    assert!(draft.is_complete());
    assert_eq!(draft.best_user_text.as_deref(), Some("do the thing"));
    let record = draft.finish("/p").unwrap();
    assert_eq!(record.summary.as_deref(), Some("do the thing"));
}

#[test]
fn message_text_is_the_first_text_that_is_not_blank() {
    let payload = Json::parse(
        r#"{"content":[{"type":"image"},{"text":42},{"text":"   "},{"text":"  second  "},{"text":"third"}]}"#,
    )
    .unwrap();
    assert_eq!(extract_text_from_message_payload(&payload).as_deref(), Some("second"));
    let none = Json::parse(r#"{"content":"plain"}"#).unwrap();
    assert_eq!(extract_text_from_message_payload(&none), None);
    let missing = Json::parse(r#"{"role":"user"}"#).unwrap();
    assert_eq!(extract_text_from_message_payload(&missing), None);
}

#[test]
fn boilerplate_is_known_by_its_headers() {
    assert!(looks_like_boilerplate("# AGENTS.md instructions for /w"));
    assert!(looks_like_boilerplate("  \n<environment_context>\n..."));
    assert!(looks_like_boilerplate("<user_shell_command>ls</user_shell_command>"));
    assert!(looks_like_boilerplate("something\n<INSTRUCTIONS>\nmore"));
    assert!(!looks_like_boilerplate("please fix bug X"));
    assert!(!looks_like_boilerplate("see # AGENTS.md instructions"));
    assert!(!looks_like_boilerplate("<instructions>"));
    assert!(!looks_like_boilerplate(""));
}

#[test]
fn normalize_summary_takes_the_first_line_with_content() {
    assert_eq!(normalize_summary("hello there\n\nmore".to_string()), "hello there");
    assert_eq!(normalize_summary("\r\n  \r\n\tfix it\r\nmore".to_string()), "fix it");
    assert_eq!(normalize_summary("one\rtwo".to_string()), "one");
    assert_eq!(normalize_summary("a\tb".to_string()), "a b");
    assert_eq!(normalize_summary("   \n\t\n".to_string()), "");
    assert_eq!(normalize_summary(String::new()), "");
}

#[test]
fn truncate_one_line_cuts_with_an_ellipsis() {
    assert_eq!(truncate_one_line("hello world", 5), "hell…");
    assert_eq!(truncate_one_line("hello", 5), "hello");
    assert_eq!(truncate_one_line("hello", 1), "…");
    assert_eq!(truncate_one_line("hello", 0), "…");
    assert_eq!(truncate_one_line("", 0), "");
}

#[test]
fn session_row_shows_all_it_knows() {
    let now = parse_rfc3339("2026-01-19T17:21:27Z").unwrap();
    let mut s = session("019bd6d8-b99b-7eb1", "/home/u/w/proj");
    s.created_at = Some("2026-01-19T15:21:26.203Z".to_string());
    s.summary = Some("fix bug".to_string());
    s.model_provider = Some("openai".to_string());
    s.source = Some("cli".to_string());
    s.cli_version = Some("0.88".to_string());
    assert_eq!(
        s.display_line(Some("/home/u"), now),
        "2h Jan19 15:21  019bd6d8  ~/w/proj  fix bug  [openai cli 0.88 rollout-x.jsonl]"
    );
    assert_eq!(s.line_no_path(now), "2h Jan19 15:21  019bd6d8  fix bug  [openai cli]");
}

#[test]
fn session_row_pads_what_is_short() {
    let now = Timestamp {
        unix_seconds: 0,
        nanosecond: 0,
        month: Month::January,
        day: 1,
        hour: 0,
        minute: 0,
    };
    let mut s = session("abc", "/w");
    s.path = "/".to_string();
    assert_eq!(s.display_line(None, now), format!("{:<12}  {:<8}  {}", "-", "abc", "/w"));
    assert_eq!(s.line_no_path(now), format!("{:<12}  {:<8}", "-", "abc"));
    s.created_at = Some("no date".to_string());
    s.summary = Some("   ".to_string());
    s.source = Some("vscode".to_string());
    assert_eq!(
        s.display_line(None, now),
        format!("{:<12}  {:<8}  {}  {}{}", "-", "abc", "/w", "   ", "  [vscode]")
    );
    assert_eq!(s.line_no_path(now), format!("{:<12}  {:<8}{}", "-", "abc", "  [vscode]"));
}

#[test]
fn session_row_cuts_a_long_summary() {
    let now = parse_rfc3339("2026-01-19T17:21:27Z").unwrap();
    let mut s = session("abc", "/w");
    s.path = "/".to_string();
    s.summary = Some("x".repeat(91));
    let expected =
        format!("{:<12}  {:<8}  {}  {}…", "-", "abc", "/w", "x".repeat(89));
    assert_eq!(s.display_line(None, now), expected);
}

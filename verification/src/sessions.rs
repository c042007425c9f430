//! Sessions: one record per session log, how a record is shown, and the
//! rules by which a summary is chosen from what the user wrote.

use crate::json::{parsed_json, Json};
use crate::paths::{compact, compact_path, file_name_of, path_file_name};
use crate::text::{
    chars_of, contains_chars, contains_text, copy_opt, ellipsize, ellipsize_chars,
    first_content_line, first_content_line_of, gap, head, head_of, is_blank, meta_chars, meta_text,
    opt_str, opt_text, pad_right, pad_right_chars, push_all, push_field, push_gap, push_present,
    push_str, replace_char, replace_char_in, same_text, some_texts, starts_with_chars, string_of,
    texts_of, trim, trim_chars, trim_start, trim_start_chars, unix_line_ends, unix_line_ends_in,
    with_field,
};
use crate::timefmt::{when_chars, when_text, Timestamp};
use vstd::prelude::*;

verus! {

/// One session that can be resumed, as its log tells of it.
#[derive(Debug, Clone)]
pub struct SessionItem {
    pub id: String,
    pub created_at: Option<String>,
    pub cwd: String,
    pub summary: Option<String>,
    pub cli_version: Option<String>,
    pub model_provider: Option<String>,
    pub source: Option<String>,
    pub path: String,
}

/// What a `SessionItem` holds, as plain text.
pub ghost struct SessionView {
    pub id: Seq<char>,
    pub created_at: Option<Seq<char>>,
    pub cwd: Seq<char>,
    pub summary: Option<Seq<char>>,
    pub cli_version: Option<Seq<char>>,
    pub model_provider: Option<Seq<char>>,
    pub source: Option<Seq<char>>,
    pub path: Seq<char>,
}

impl View for SessionItem {
    type V = SessionView;

    open spec fn view(&self) -> SessionView {
        SessionView {
            id: self.id@,
            created_at: opt_text(self.created_at),
            cwd: self.cwd@,
            summary: opt_text(self.summary),
            cli_version: opt_text(self.cli_version),
            model_provider: opt_text(self.model_provider),
            source: opt_text(self.source),
            path: self.path@,
        }
    }
}

/// The views of a list of sessions.
pub open spec fn session_views(items: Seq<SessionItem>) -> Seq<SessionView> {
    items.map_values(|s: SessionItem| s@)
}

impl SessionItem {
    /// A copy of the record.
    pub fn duplicate(&self) -> (r: SessionItem)
        ensures
            r == *self,
    {
        SessionItem {
            id: self.id.clone(),
            created_at: copy_opt(&self.created_at),
            cwd: self.cwd.clone(),
            summary: copy_opt(&self.summary),
            cli_version: copy_opt(&self.cli_version),
            model_provider: copy_opt(&self.model_provider),
            source: copy_opt(&self.source),
            path: self.path.clone(),
        }
    }

    /// The row that shows the session in a list, its directory included.
    pub fn display_line(&self, home: Option<&str>, now: Timestamp) -> (r: String)
        ensures
            r@ == session_line(self@, opt_str(home), now),
    {
        let mut out = row_start(self, now);
        push_gap(&mut out);
        let cwd = compact_path(self.cwd.as_str(), 56, home);
        push_str(&mut out, cwd.as_str());
        let summary = match &self.summary {
            Some(s) => ellipsize_chars(chars_of(s.as_str()), 90),
            None => Vec::new(),
        };
        push_field(&mut out, &summary);
        let mut parts: Vec<Vec<char>> = Vec::new();
        let ghost seen: Seq<Option<Seq<char>>> = Seq::empty();
        assert(texts_of(parts@) =~= some_texts(seen));
        push_present(&mut parts, &self.model_provider, Ghost(seen));
        let ghost seen = seen.push(self@.model_provider);
        push_present(&mut parts, &self.source, Ghost(seen));
        let ghost seen = seen.push(self@.source);
        push_present(&mut parts, &self.cli_version, Ghost(seen));
        let ghost seen = seen.push(self@.cli_version);
        let name = path_file_name(self.path.as_str());
        push_present(&mut parts, &name, Ghost(seen));
        assert(seen.push(opt_text(name)) == seq![
            self@.model_provider,
            self@.source,
            self@.cli_version,
            file_name_of(self@.path),
        ]);
        let meta = meta_chars(&parts);
        push_all(&mut out, &meta);
        string_of(&out)
    }

    /// The row that shows the session where its directory is known from the
    /// context.
    pub fn line_no_path(&self, now: Timestamp) -> (r: String)
        ensures
            r@ == line_without_path(self@, now),
    {
        string_of(&session_line_no_path_chars(self, now))
    }
}

/// How the row of a session begins: when it was made, filled to 12
/// characters, a gap, and the first eight characters of its id, filled to 8.
pub open spec fn row_start_text(s: SessionView, now: Timestamp) -> Seq<char> {
    pad_right(when_text(s.created_at, now), 12) + gap() + pad_right(head(s.id, 8), 8)
}

fn row_start(s: &SessionItem, now: Timestamp) -> (out: Vec<char>)
    ensures
        out@ == row_start_text(s@, now),
{
    let id = chars_of(s.id.as_str());
    let mut out = pad_right_chars(when_chars(&s.created_at, now), 12);
    push_gap(&mut out);
    let id_short = pad_right_chars(head_of(&id, 8), 8);
    push_all(&mut out, &id_short);
    out
}

/// The text of an optional text, empty where it is absent.
pub open spec fn or_empty(o: Option<Seq<char>>) -> Seq<char> {
    match o {
        Some(s) => s,
        None => Seq::empty(),
    }
}

/// A text on one line cut to `max_chars` characters, with an ellipsis where
/// something was cut.
pub fn truncate_one_line(s: &str, max_chars: usize) -> (r: String)
    ensures
        r@ == ellipsize(s@, max_chars as int),
{
    string_of(&ellipsize_chars(chars_of(s), max_chars))
}

/// The row of a session in a list: when it was made, the first eight
/// characters of its id, its directory, its summary where it has one, and its
/// tags.
pub open spec fn session_line(s: SessionView, home: Option<Seq<char>>, now: Timestamp) -> Seq<
    char,
> {
    let summary = match s.summary {
        Some(t) => ellipsize(t, 90),
        None => Seq::empty(),
    };
    let tags = meta_text(
        some_texts(seq![s.model_provider, s.source, s.cli_version, file_name_of(s.path)]),
    );
    with_field(row_start_text(s, now) + gap() + compact(s.cwd, 56, home), summary) + tags
}

/// The row of a session without its directory: when it was made, the first
/// eight characters of its id, its summary where it has one, and the tags of
/// its provider and source.
pub open spec fn line_without_path(s: SessionView, now: Timestamp) -> Seq<char> {
    let tags = meta_text(some_texts(seq![s.model_provider, s.source]));
    with_field(row_start_text(s, now), trim(or_empty(s.summary))) + tags
}

/// The row that shows a session where its directory is known from the
/// context: when it was made, the first eight characters of its id, its
/// summary, and the tags of its provider and source.
pub fn session_line_no_path(s: &SessionItem, now: Timestamp) -> (r: String)
    ensures
        r@ == line_without_path(s@, now),
{
    string_of(&session_line_no_path_chars(s, now))
}

/// The row of a session without its directory, as characters.
pub fn session_line_no_path_chars(s: &SessionItem, now: Timestamp) -> (out: Vec<char>)
    ensures
        out@ == line_without_path(s@, now),
{
    let mut out = row_start(s, now);
    let summary = match &s.summary {
        Some(t) => trim_chars(&chars_of(t.as_str())),
        None => trim_chars(&Vec::new()),
    };
    push_field(&mut out, &summary);
    let mut parts: Vec<Vec<char>> = Vec::new();
    let ghost seen: Seq<Option<Seq<char>>> = Seq::empty();
    assert(texts_of(parts@) =~= some_texts(seen));
    push_present(&mut parts, &s.model_provider, Ghost(seen));
    let ghost seen = seen.push(s@.model_provider);
    push_present(&mut parts, &s.source, Ghost(seen));
    assert(seen.push(s@.source) == seq![s@.model_provider, s@.source]);
    let meta = meta_chars(&parts);
    push_all(&mut out, &meta);
    out
}

/// Whether a user text is what a tool wrote rather than the user: a text
/// that, after leading white space, begins with an instruction or context
/// header, or one that holds an instruction block.
pub open spec fn is_boilerplate(text: Seq<char>) -> bool {
    let t = trim_start(text);
    ||| "# AGENTS.md instructions"@.is_prefix_of(t)
    ||| "<environment_context>"@.is_prefix_of(t)
    ||| "<user_shell_command>"@.is_prefix_of(t)
    ||| contains_text(t, "<INSTRUCTIONS>"@)
}

/// Whether a user text is what a tool wrote rather than the user.
pub fn looks_like_boilerplate(text: &str) -> (r: bool)
    ensures
        r == is_boilerplate(text@),
{
    let t = trim_start_chars(&chars_of(text));
    starts_with_chars(&t, &chars_of("# AGENTS.md instructions")) || starts_with_chars(
        &t,
        &chars_of("<environment_context>"),
    ) || starts_with_chars(&t, &chars_of("<user_shell_command>")) || contains_chars(
        &t,
        &chars_of("<INSTRUCTIONS>"),
    )
}

/// A summary on one line: tabs turned into spaces, line ends made uniform,
/// then the first line that is not blank, without white space at its ends.
pub open spec fn summary_of(s: Seq<char>) -> Seq<char> {
    trim(first_content_line(unix_line_ends(replace_char(s, '\t', ' '))))
}

/// Makes a one-line summary of a user text.
pub fn normalize_summary(s: String) -> (r: String)
    ensures
        r@ == summary_of(s@),
{
    let a = replace_char_in(&chars_of(s.as_str()), '\t', ' ');
    let b = unix_line_ends_in(&a);
    let line = first_content_line_of(&b);
    string_of(&trim_chars(&line))
}

/// The number of lines of a log that are read at most: what tells of the
/// session stands near the top.
pub const MAX_SCAN_LINES: usize = 300;

/// What has been found of a record while its log is read.
#[derive(Debug, Clone)]
pub struct RecordDraft {
    pub created_at: Option<String>,
    pub id: Option<String>,
    pub cwd: Option<String>,
    pub cli_version: Option<String>,
    pub model_provider: Option<String>,
    pub source: Option<String>,
    pub first_user_text: Option<String>,
    pub best_user_text: Option<String>,
}

/// What a `RecordDraft` holds, as plain text.
pub ghost struct DraftView {
    pub created_at: Option<Seq<char>>,
    pub id: Option<Seq<char>>,
    pub cwd: Option<Seq<char>>,
    pub cli_version: Option<Seq<char>>,
    pub model_provider: Option<Seq<char>>,
    pub source: Option<Seq<char>>,
    pub first_user_text: Option<Seq<char>>,
    pub best_user_text: Option<Seq<char>>,
}

impl View for RecordDraft {
    type V = DraftView;

    open spec fn view(&self) -> DraftView {
        DraftView {
            created_at: opt_text(self.created_at),
            id: opt_text(self.id),
            cwd: opt_text(self.cwd),
            cli_version: opt_text(self.cli_version),
            model_provider: opt_text(self.model_provider),
            source: opt_text(self.source),
            first_user_text: opt_text(self.first_user_text),
            best_user_text: opt_text(self.best_user_text),
        }
    }
}

/// The draft before any line is read.
pub open spec fn empty_draft() -> DraftView {
    DraftView {
        created_at: None,
        id: None,
        cwd: None,
        cli_version: None,
        model_provider: None,
        source: None,
        first_user_text: None,
        best_user_text: None,
    }
}

/// The first of two optional texts that is present.
pub open spec fn or_else(a: Option<Seq<char>>, b: Option<Seq<char>>) -> Option<Seq<char>> {
    if a is Some {
        a
    } else {
        b
    }
}

/// The text of the first item that has a member `text` which is a text and
/// not blank, without white space at its ends.
pub open spec fn first_text(items: Seq<Json>) -> Option<Seq<char>>
    decreases items.len(),
{
    if items.len() == 0 {
        None
    } else {
        match items[0].member_text("text"@) {
            Some(t) => if is_blank(t) {
                first_text(items.drop_first())
            } else {
                Some(trim(t))
            },
            None => first_text(items.drop_first()),
        }
    }
}

/// What a message says: the first text among the items of its `content`.
pub open spec fn message_text(payload: Json) -> Option<Seq<char>> {
    match payload.member("content"@) {
        Some(c) => match c.items() {
            Some(items) => first_text(items),
            None => None,
        },
        None => None,
    }
}

/// The draft after one more JSON value of the log. A value tagged
/// `session_meta` gives the time, where none is known yet, and with its
/// payload the id, the directory and the provenance tags, each as the payload
/// has it. A value tagged `response_item` whose payload is a message of the
/// user gives a text for the summary: the first such text is kept, and so is
/// the first that is not boilerplate. Any other value changes nothing.
pub open spec fn absorbed(d: DraftView, v: Json) -> DraftView {
    let kind = v.member_text("type"@);
    if kind == Some("session_meta"@) {
        let timed = DraftView {
            created_at: or_else(d.created_at, v.member_text("timestamp"@)),
            ..d
        };
        match v.member("payload"@) {
            None => timed,
            Some(p) => DraftView {
                id: p.member_text("id"@),
                cwd: p.member_text("cwd"@),
                cli_version: p.member_text("cli_version"@),
                model_provider: p.member_text("model_provider"@),
                source: p.member_text("source"@),
                ..timed
            },
        }
    } else if kind == Some("response_item"@) {
        match v.member("payload"@) {
            None => d,
            Some(p) => if p.member_text("type"@) == Some("message"@) && p.member_text("role"@)
                == Some("user"@) {
                match message_text(p) {
                    None => d,
                    Some(t) => DraftView {
                        first_user_text: or_else(d.first_user_text, Some(t)),
                        best_user_text: if is_boilerplate(t) {
                            d.best_user_text
                        } else {
                            or_else(d.best_user_text, Some(t))
                        },
                        ..d
                    },
                }
            } else {
                d
            },
        }
    } else {
        d
    }
}

/// The draft after one more line of the log: a blank line and a line that is
/// not JSON change nothing.
pub open spec fn absorbed_line(d: DraftView, line: Seq<char>) -> DraftView {
    if is_blank(line) {
        d
    } else {
        match parsed_json(trim(line)) {
            Some(v) => absorbed(d, v),
            None => d,
        }
    }
}

/// Whether the draft holds all that a log can give: the id, the directory,
/// and a text of the user that is not boilerplate. Reading stops here.
pub open spec fn is_complete(d: DraftView) -> bool {
    d.id is Some && d.cwd is Some && d.best_user_text is Some
}

/// The draft after the lines, read in order until the draft is complete.
pub open spec fn drafted(d: DraftView, lines: Seq<Seq<char>>) -> DraftView
    decreases lines.len(),
{
    if lines.len() == 0 || is_complete(d) {
        d
    } else {
        drafted(absorbed_line(d, lines[0]), lines.drop_first())
    }
}

/// The summary of a draft: made of the first text of the user that is not
/// boilerplate, or, where every text is, of the first text.
pub open spec fn draft_summary(d: DraftView) -> Option<Seq<char>> {
    match or_else(d.best_user_text, d.first_user_text) {
        Some(t) => Some(summary_of(t)),
        None => None,
    }
}

/// The record that a draft gives for the log at `path`: none where the id or
/// the directory is missing, or the id is empty.
pub open spec fn record_of(d: DraftView, path: Seq<char>) -> Option<SessionView> {
    match (d.id, d.cwd) {
        (Some(id), Some(cwd)) => if id.len() > 0 {
            Some(
                SessionView {
                    id,
                    created_at: d.created_at,
                    cwd,
                    summary: draft_summary(d),
                    cli_version: d.cli_version,
                    model_provider: d.model_provider,
                    source: d.source,
                    path,
                },
            )
        } else {
            None
        },
        _ => None,
    }
}

/// The texts of a list of lines.
pub open spec fn line_texts(lines: Seq<String>) -> Seq<Seq<char>> {
    lines.map_values(|l: String| l@)
}

/// The first `n` lines, or all where there are fewer.
pub open spec fn first_lines(lines: Seq<Seq<char>>, n: int) -> Seq<Seq<char>> {
    if lines.len() <= n {
        lines
    } else {
        lines.take(n)
    }
}

/// The record that the lines of a log give: what the first `MAX_SCAN_LINES`
/// of them hold, read until the draft is complete.
pub open spec fn extracted(lines: Seq<Seq<char>>, path: Seq<char>) -> Option<SessionView> {
    record_of(drafted(empty_draft(), first_lines(lines, MAX_SCAN_LINES as int)), path)
}

/// The view of an optional record.
pub open spec fn opt_session(o: Option<SessionItem>) -> Option<SessionView> {
    match o {
        Some(s) => Some(s@),
        None => None,
    }
}

fn owned(o: Option<&str>) -> (r: Option<String>)
    ensures
        opt_text(r) == opt_str(o),
{
    match o {
        Some(s) => Some(string_of(&chars_of(s))),
        None => None,
    }
}

fn is_text(o: Option<&str>, wanted: &str) -> (r: bool)
    ensures
        r == (opt_str(o) == Some(wanted@)),
{
    match o {
        Some(s) => same_text(s, wanted),
        None => false,
    }
}

/// What a message of the user says: the first text among the items of its
/// `content` that is not blank, without white space at its ends.
pub fn extract_text_from_message_payload(payload: &Json) -> (r: Option<String>)
    ensures
        opt_text(r) == message_text(*payload),
{
    let content = match payload.get("content") {
        Some(c) => c,
        None => {
            return None;
        },
    };
    let items = match content.as_array() {
        Some(a) => a,
        None => {
            return None;
        },
    };
    let mut i: usize = 0;
    assert(items@.skip(0) =~= items@);
    while i < items.len()
        invariant
            i <= items.len(),
            message_text(*payload) == first_text(items@),
            first_text(items@) == first_text(items@.skip(i as int)),
        decreases items.len() - i,
    {
        let ghost rest = items@.skip(i as int);
        assert(rest[0] == items@[i as int]);
        assert(rest.drop_first() =~= items@.skip(i + 1));
        if let Some(text) = items[i].get_str("text") {
            let t = trim_chars(&chars_of(text));
            if t.len() > 0 {
                return Some(string_of(&t));
            }
        }
        i += 1;
    }
    None
}

impl RecordDraft {
    /// The draft before any line is read.
    pub fn new() -> (r: RecordDraft)
        ensures
            r@ == empty_draft(),
    {
        RecordDraft {
            created_at: None,
            id: None,
            cwd: None,
            cli_version: None,
            model_provider: None,
            source: None,
            first_user_text: None,
            best_user_text: None,
        }
    }

    /// Whether the draft holds all that a log can give, so that reading can
    /// stop.
    pub fn is_complete(&self) -> (r: bool)
        ensures
            r == is_complete(self@),
    {
        self.id.is_some() && self.cwd.is_some() && self.best_user_text.is_some()
    }

    /// Takes in one JSON value of the log.
    pub fn absorb(&mut self, v: &Json)
        ensures
            final(self)@ == absorbed(old(self)@, *v),
    {
        let kind = v.get_str("type");
        if is_text(kind, "session_meta") {
            if self.created_at.is_none() {
                self.created_at = owned(v.get_str("timestamp"));
            }
            if let Some(p) = v.get("payload") {
                self.id = owned(p.get_str("id"));
                self.cwd = owned(p.get_str("cwd"));
                self.cli_version = owned(p.get_str("cli_version"));
                self.model_provider = owned(p.get_str("model_provider"));
                self.source = owned(p.get_str("source"));
            }
        } else if is_text(kind, "response_item") {
            if let Some(p) = v.get("payload") {
                if is_text(p.get_str("type"), "message") && is_text(p.get_str("role"), "user") {
                    if let Some(text) = extract_text_from_message_payload(p) {
                        if self.best_user_text.is_none() && !looks_like_boilerplate(
                            text.as_str(),
                        ) {
                            self.best_user_text = Some(text.clone());
                        }
                        if self.first_user_text.is_none() {
                            self.first_user_text = Some(text);
                        }
                    }
                }
            }
        }
    }

    /// Takes in one line of the log. A blank line and a line that is not
    /// JSON are passed over.
    pub fn absorb_line(&mut self, line: &str)
        ensures
            final(self)@ == absorbed_line(old(self)@, line@),
    {
        let t = trim_chars(&chars_of(line));
        if t.len() == 0 {
            return ;
        }
        let trimmed = string_of(&t);
        match Json::parse(trimmed.as_str()) {
            Some(v) => {
                self.absorb(&v);
            },
            None => {},
        }
    }

    /// The record that the draft gives for the log at `path`: none where
    /// the id or the directory is missing, or the id is empty.
    pub fn finish(self, path: &str) -> (r: Option<SessionItem>)
        ensures
            opt_session(r) == record_of(self@, path@),
            r matches Some(s) ==> s.id@.len() > 0,
    {
        let ghost d = self@;
        let RecordDraft {
            created_at,
            id,
            cwd,
            cli_version,
            model_provider,
            source,
            first_user_text,
            best_user_text,
        } = self;
        let id = match id {
            Some(id) => id,
            None => {
                return None;
            },
        };
        let cwd = match cwd {
            Some(cwd) => cwd,
            None => {
                return None;
            },
        };
        if id.as_str().unicode_len() == 0 {
            return None;
        }
        let summary = match best_user_text {
            Some(t) => Some(normalize_summary(t)),
            None => match first_user_text {
                Some(t) => Some(normalize_summary(t)),
                None => None,
            },
        };
        Some(
            SessionItem {
                id,
                created_at,
                cwd,
                summary,
                cli_version,
                model_provider,
                source,
                path: string_of(&chars_of(path)),
            },
        )
    }
}

/// Makes the record of one session from the lines of its log, which lies at
/// `path`. No more than `MAX_SCAN_LINES` lines are read, and none after the
/// id, the directory and a text of the user that is not boilerplate are
/// found. `None` where the lines do not give an id and a directory.
pub fn read_session_meta(lines: &Vec<String>, path: &str) -> (r: Option<SessionItem>)
    ensures
        opt_session(r) == extracted(line_texts(lines@), path@),
        r matches Some(s) ==> s.id@.len() > 0,
{
    let n: usize = if lines.len() <= MAX_SCAN_LINES {
        lines.len()
    } else {
        MAX_SCAN_LINES
    };
    let ghost texts = first_lines(line_texts(lines@), MAX_SCAN_LINES as int);
    let mut draft = RecordDraft::new();
    let mut i: usize = 0;
    assert(texts.skip(0) =~= texts);
    while i < n && !draft.is_complete()
        invariant
            i <= n <= lines.len(),
            texts == first_lines(line_texts(lines@), MAX_SCAN_LINES as int),
            texts.len() == n,
            drafted(empty_draft(), texts) == drafted(draft@, texts.skip(i as int)),
        decreases n - i,
    {
        let ghost rest = texts.skip(i as int);
        assert(rest[0] == lines@[i as int]@);
        assert(rest.drop_first() =~= texts.skip(i + 1));
        draft.absorb_line(lines[i].as_str());
        i += 1;
    }
    draft.finish(path)
}

} // verus!

//! What the picker shows: a frame of styled lines, computed from the state,
//! the filtered list, the cursor and the size of the terminal. Drawing the
//! frame is the caller's part.

use crate::projects::{target_line, target_line_chars, ProjectTarget, TargetView};
use crate::sessions::{
    line_without_path, session_line, session_line_no_path_chars, SessionItem, SessionView,
};
use crate::text::{
    breaks_to_spaces, chars_of, decimal, decimal_chars, head, head_of, opt_str, push_all, push_str,
    replace_char_in, string_of,
};
use crate::timefmt::Timestamp;
use crate::tui::Tab;
use vstd::prelude::*;

verus! {

/// How a piece of text is drawn.
#[derive(Debug, Clone, Copy, PartialEq, Eq, Structural)]
pub enum Style {
    Plain,
    Bold,
    Dim,
    Reverse,
}

/// A piece of text in one style.
#[derive(Debug, Clone, PartialEq, Eq)]
pub struct Span {
    pub style: Style,
    pub text: String,
}

/// A `Span` as a plain value.
pub ghost struct SpanView {
    pub style: Style,
    pub text: Seq<char>,
}

impl View for Span {
    type V = SpanView;

    open spec fn view(&self) -> SpanView {
        SpanView { style: self.style, text: self.text@ }
    }
}

/// The spans of a line as plain values.
pub open spec fn line_view(line: Vec<Span>) -> Seq<SpanView> {
    line@.map_values(|s: Span| s@)
}

/// A frame: the lines to draw, from the top.
#[derive(Debug, Clone, PartialEq, Eq)]
pub struct Frame {
    pub lines: Vec<Vec<Span>>,
}

impl View for Frame {
    type V = Seq<Seq<SpanView>>;

    open spec fn view(&self) -> Seq<Seq<SpanView>> {
        self.lines@.map_values(|l: Vec<Span>| line_view(l))
    }
}

/// A piece of text in a style.
pub open spec fn styled(style: Style, text: Seq<char>) -> SpanView {
    SpanView { style, text }
}

fn span_of(style: Style, text: &Vec<char>) -> (s: Span)
    ensures
        s@ == styled(style, text@),
{
    Span { style, text: string_of(text) }
}

fn span_str(style: Style, text: &str) -> (s: Span)
    ensures
        s@ == styled(style, text@),
{
    Span { style, text: string_of(&chars_of(text)) }
}

fn push_span(line: &mut Vec<Span>, s: Span)
    ensures
        line_view(*final(line)) == line_view(*old(line)).push(s@),
{
    line.push(s);
    assert(line_view(*line) =~= line_view(*old(line)).push(s@));
}

fn push_line(frame: &mut Frame, line: Vec<Span>)
    ensures
        final(frame)@ == old(frame)@.push(line_view(line)),
{
    frame.lines.push(line);
    assert(frame@ =~= old(frame)@.push(line_view(line)));
}

fn line_of(s: Span) -> (line: Vec<Span>)
    ensures
        line_view(line) == seq![s@],
{
    let mut line: Vec<Span> = Vec::new();
    line.push(s);
    assert(line_view(line) =~= seq![s@]);
    line
}

/// `s` cut to `max` characters for a row: unchanged where it fits; else its
/// line breaks turned into spaces, its first `max - 1` characters kept and an
/// ellipsis put behind them.
pub open spec fn cut(s: Seq<char>, max: int) -> Seq<char> {
    if s.len() <= max {
        s
    } else {
        head(breaks_to_spaces(s), max - 1).push('…')
    }
}

fn cut_chars(v: Vec<char>, max: usize) -> (out: Vec<char>)
    ensures
        out@ == cut(v@, max as int),
{
    if v.len() <= max {
        return v;
    }
    let flat = replace_char_in(&replace_char_in(&v, '\n', ' '), '\r', ' ');
    let keep: usize = if max == 0 { 0 } else { max - 1 };
    let mut out = head_of(&flat, keep);
    out.push('…');
    out
}

/// Cuts a text to `max_chars` characters for a row, with an ellipsis where
/// something was cut.
pub fn truncate(s: String, max_chars: usize) -> (r: String)
    ensures
        r@ == cut(s@, max_chars as int),
{
    string_of(&cut_chars(chars_of(s.as_str()), max_chars))
}

/// The label of a tab in the tab line: the name between two spaces, shown in
/// reverse where the tab is the active one, dimmed where it is not.
pub open spec fn tab_label_span(label: Seq<char>, active: bool) -> SpanView {
    styled(
        if active {
            Style::Reverse
        } else {
            Style::Dim
        },
        seq![' '] + label + seq![' '],
    )
}

/// The label of a tab in the tab line.
pub fn tab_label(label: &str, active: bool) -> (s: Span)
    ensures
        s@ == tab_label_span(label@, active),
{
    let mut text: Vec<char> = Vec::new();
    text.push(' ');
    push_str(&mut text, label);
    text.push(' ');
    assert(text@ =~= seq![' '] + label@ + seq![' ']);
    span_of(if active { Style::Reverse } else { Style::Dim }, &text)
}

/// The tab line: the name of the program, and the labels of the three tabs.
pub open spec fn tabs_line_spans(active: Tab) -> Seq<SpanView> {
    seq![
        styled(Style::Bold, "codex-launch"@),
        styled(Style::Plain, "  "@),
        tab_label_span("Projects"@, active == Tab::Projects),
        styled(Style::Plain, "  "@),
        tab_label_span("Sessions (scoped)"@, active == Tab::SessionsScoped),
        styled(Style::Plain, "  "@),
        tab_label_span("Sessions (all)"@, active == Tab::SessionsAll),
    ]
}

/// The tab line, with `active` marked.
pub fn tabs_line(active: Tab) -> (line: Vec<Span>)
    ensures
        line_view(line) == tabs_line_spans(active),
{
    let mut line: Vec<Span> = Vec::new();
    assert(line_view(line) =~= Seq::<SpanView>::empty());
    push_span(&mut line, span_str(Style::Bold, "codex-launch"));
    push_span(&mut line, span_str(Style::Plain, "  "));
    push_span(&mut line, tab_label("Projects", active == Tab::Projects));
    push_span(&mut line, span_str(Style::Plain, "  "));
    push_span(&mut line, tab_label("Sessions (scoped)", active == Tab::SessionsScoped));
    push_span(&mut line, span_str(Style::Plain, "  "));
    push_span(&mut line, tab_label("Sessions (all)", active == Tab::SessionsAll));
    assert(line_view(line) =~= tabs_line_spans(active));
    line
}

/// The number of rows that a terminal of `rows` lines leaves for the list:
/// five lines go to the head and the foot, and one row is always shown.
pub open spec fn list_height(rows: int) -> int {
    if rows > 6 {
        rows - 5
    } else {
        1
    }
}

/// The first row that is shown: the cursor is kept in the middle of the
/// window where the list allows it.
pub open spec fn window_start(cursor: int, rows: int) -> int {
    let half = list_height(rows) / 2;
    if cursor > half {
        cursor - half
    } else {
        0
    }
}

/// The row after the last that is shown, in a list of `len` rows.
pub open spec fn window_end(cursor: int, rows: int, len: int) -> int {
    let end = window_start(cursor, rows) + list_height(rows);
    if end < len {
        end
    } else {
        len
    }
}

/// `a - b`, or zero where that is negative.
pub open spec fn minus(a: int, b: int) -> int {
    if a > b {
        a - b
    } else {
        0
    }
}

/// One row of a list: the text, cut to the width of the terminal, behind a
/// marker; the row under the cursor is marked with `>` and shown in reverse.
pub open spec fn row_span(text: Seq<char>, selected: bool, cols: int) -> SpanView {
    let t = if text.len() > minus(cols, 2) {
        cut(text, minus(cols, 3))
    } else {
        text
    };
    if selected {
        styled(Style::Reverse, seq!['>', ' '] + t)
    } else {
        styled(Style::Plain, seq![' ', ' '] + t)
    }
}

/// The rows of the window, one line each.
pub open spec fn window_rows(texts: Seq<Seq<char>>, cursor: int, cols: int, rows: int) -> Seq<
    Seq<SpanView>,
> {
    let start = window_start(cursor, rows);
    let end = window_end(cursor, rows, texts.len() as int);
    Seq::new(
        minus(end, start) as nat,
        |k: int| seq![row_span(texts[start + k], start + k == cursor, cols)],
    )
}

/// The two lines under the tab line or the title: the help, dimmed and cut
/// to the width of the terminal, and the filter.
pub open spec fn head_lines(help: Seq<char>, filter: Seq<char>, cols: int) -> Seq<Seq<SpanView>> {
    seq![
        seq![styled(Style::Dim, cut(help, cols))],
        seq![styled(Style::Bold, "Filter:"@), styled(Style::Plain, seq![' '] + filter)],
    ]
}

/// A whole frame: the first line, the help and the filter, the rows of the
/// window, and the foot.
pub open spec fn list_frame(
    first: Seq<SpanView>,
    help: Seq<char>,
    filter: Seq<char>,
    texts: Seq<Seq<char>>,
    cursor: int,
    cols: int,
    rows: int,
    foot: Seq<char>,
) -> Seq<Seq<SpanView>> {
    seq![first] + head_lines(help, filter, cols) + window_rows(texts, cursor, cols, rows) + seq![
        seq![styled(Style::Dim, foot)],
    ]
}

/// The texts of the rows.
pub open spec fn row_texts(rows: Seq<Vec<char>>) -> Seq<Seq<char>> {
    rows.map_values(|r: Vec<char>| r@)
}

fn push_row(texts: &mut Vec<Vec<char>>, row: Vec<char>)
    ensures
        row_texts(final(texts)@) == row_texts(old(texts)@).push(row@),
{
    texts.push(row);
    assert(row_texts(texts@) =~= row_texts(old(texts)@).push(row@));
}

fn row_of(text: &Vec<char>, selected: bool, cols: usize) -> (s: Span)
    ensures
        s@ == row_span(text@, selected, cols as int),
{
    let mut out: Vec<char> = Vec::new();
    out.push(if selected { '>' } else { ' ' });
    out.push(' ');
    let ghost mark = out@;
    assert(mark =~= if selected {
        seq!['>', ' ']
    } else {
        seq![' ', ' ']
    });
    if text.len() > cols.saturating_sub(2) {
        let t = cut_chars(head_of(text, text.len()), cols.saturating_sub(3));
        push_all(&mut out, &t);
    } else {
        push_all(&mut out, text);
    }
    span_of(if selected { Style::Reverse } else { Style::Plain }, &out)
}

fn build_frame(
    first: Vec<Span>,
    help: &str,
    filter: &str,
    texts: &Vec<Vec<char>>,
    cursor: usize,
    cols: usize,
    rows: usize,
    foot: &Vec<char>,
) -> (frame: Frame)
    ensures
        frame@ == list_frame(
            line_view(first),
            help@,
            filter@,
            row_texts(texts@),
            cursor as int,
            cols as int,
            rows as int,
            foot@,
        ),
{
    let mut frame = Frame { lines: Vec::new() };
    assert(frame@ =~= Seq::<Seq<SpanView>>::empty());
    push_line(&mut frame, first);
    let help_cut = cut_chars(chars_of(help), cols);
    push_line(&mut frame, line_of(span_of(Style::Dim, &help_cut)));
    let mut filter_line: Vec<Span> = Vec::new();
    assert(line_view(filter_line) =~= Seq::<SpanView>::empty());
    push_span(&mut filter_line, span_str(Style::Bold, "Filter:"));
    let mut filter_text: Vec<char> = Vec::new();
    filter_text.push(' ');
    push_str(&mut filter_text, filter);
    assert(filter_text@ =~= seq![' '] + filter@);
    push_span(&mut filter_line, span_of(Style::Plain, &filter_text));
    assert(line_view(filter_line) =~= head_lines(help@, filter@, cols as int)[1]);
    push_line(&mut frame, filter_line);
    let ghost top = seq![line_view(first)] + head_lines(help@, filter@, cols as int);
    assert(frame@ =~= top);
    let height: usize = if rows > 6 { rows - 5 } else { 1 };
    let start: usize = cursor.saturating_sub(height / 2);
    let end: usize = if start.saturating_add(height) < texts.len() {
        start + height
    } else {
        texts.len()
    };
    let ghost wanted = window_rows(row_texts(texts@), cursor as int, cols as int, rows as int);
    let mut k: usize = start;
    if start < end {
        while k < end
            invariant
                start <= k <= end <= texts.len(),
                start == window_start(cursor as int, rows as int),
                end == window_end(cursor as int, rows as int, texts.len() as int),
                wanted == window_rows(row_texts(texts@), cursor as int, cols as int, rows as int),
                frame@ == top + wanted.take(k - start),
            decreases end - k,
        {
            let row = row_of(&texts[k], k == cursor, cols);
            push_line(&mut frame, line_of(row));
            assert(wanted.take(k + 1 - start) =~= wanted.take(k - start).push(
                wanted[k - start],
            ));
            assert(row_texts(texts@)[k as int] == texts@[k as int]@);
            k += 1;
        }
        assert(wanted.take(end - start) =~= wanted);
    } else {
        assert(wanted =~= Seq::<Seq<SpanView>>::empty());
    }
    assert(frame@ =~= top + wanted);
    push_line(&mut frame, line_of(span_of(Style::Dim, foot)));
    frame
}

/// How many of how many: the foot of a tab.
pub open spec fn count_foot(shown: nat, all: nat) -> Seq<char> {
    decimal(shown) + seq![' ', '/', ' '] + decimal(all)
}

fn count_foot_chars(shown: usize, all: usize) -> (out: Vec<char>)
    ensures
        out@ == count_foot(shown as nat, all as nat),
{
    let mut out = decimal_chars(shown as u64);
    out.push(' ');
    out.push('/');
    out.push(' ');
    let b = decimal_chars(all as u64);
    push_all(&mut out, &b);
    out
}

/// The rows of the filtered list of targets.
pub open spec fn target_rows(
    targets: Seq<TargetView>,
    filtered: Seq<usize>,
    home: Option<Seq<char>>,
    now: Timestamp,
) -> Seq<Seq<char>> {
    Seq::new(filtered.len(), |k: int| target_line(targets[filtered[k] as int], home, now))
}

/// The rows of the filtered list of sessions.
pub open spec fn session_rows(
    items: Seq<SessionView>,
    filtered: Seq<usize>,
    home: Option<Seq<char>>,
    now: Timestamp,
) -> Seq<Seq<char>> {
    Seq::new(filtered.len(), |k: int| session_line(items[filtered[k] as int], home, now))
}

/// The rows of the list of one project's sessions: a row for a new session,
/// then the filtered sessions; a place in `filtered` that names no session
/// gives no row.
pub open spec fn project_session_rows(
    sessions: Seq<SessionView>,
    filtered: Seq<usize>,
    now: Timestamp,
) -> Seq<Seq<char>>
    decreases filtered.len(),
{
    if filtered.len() == 0 {
        seq!["Start new session"@]
    } else {
        let before = project_session_rows(sessions, filtered.drop_last(), now);
        if filtered.last() < sessions.len() {
            before.push(line_without_path(sessions[filtered.last() as int], now))
        } else {
            before
        }
    }
}

/// The help line of a tab.
pub open spec fn help_of(tab: Tab) -> Seq<char> {
    match tab {
        Tab::Projects => "⏎ sessions · n new · ←/→ tabs · o config · q quit"@,
        Tab::SessionsScoped => "⏎ resume · esc back · ←/→ tabs · o config · q quit"@,
        Tab::SessionsAll => "⏎ resume · esc back · ← tabs · o config · q quit"@,
    }
}

/// The frame of the projects tab.
pub open spec fn projects_frame(
    targets: Seq<TargetView>,
    filtered: Seq<usize>,
    cursor: int,
    filter: Seq<char>,
    cols: int,
    rows: int,
    home: Option<Seq<char>>,
    now: Timestamp,
) -> Seq<Seq<SpanView>> {
    list_frame(
        tabs_line_spans(Tab::Projects),
        help_of(Tab::Projects),
        filter,
        target_rows(targets, filtered, home, now),
        cursor,
        cols,
        rows,
        count_foot(filtered.len(), targets.len()),
    )
}

/// The frame of a sessions tab.
pub open spec fn sessions_frame(
    tab: Tab,
    items: Seq<SessionView>,
    filtered: Seq<usize>,
    cursor: int,
    filter: Seq<char>,
    cols: int,
    rows: int,
    home: Option<Seq<char>>,
    now: Timestamp,
) -> Seq<Seq<SpanView>> {
    list_frame(
        tabs_line_spans(tab),
        if tab == Tab::Projects {
            "⏎ resume · esc back · o config · q quit"@
        } else {
            help_of(tab)
        },
        filter,
        session_rows(items, filtered, home, now),
        cursor,
        cols,
        rows,
        count_foot(filtered.len(), items.len()),
    )
}

/// The frame of the list of one project's sessions.
pub open spec fn project_sessions_frame(
    label: Seq<char>,
    sessions: Seq<SessionView>,
    filtered: Seq<usize>,
    cursor: int,
    filter: Seq<char>,
    cols: int,
    rows: int,
    now: Timestamp,
) -> Seq<Seq<SpanView>> {
    list_frame(
        seq![
            styled(Style::Bold, "Project:"@),
            styled(Style::Plain, seq![' ', ' '] + cut(label, minus(cols, 10))),
        ],
        "⏎ select · esc back · o config · q quit"@,
        filter,
        project_session_rows(sessions, filtered, now),
        cursor,
        cols,
        rows,
        decimal(sessions.len()) + " sessions"@,
    )
}

/// The frame of the projects tab: the tab line, the help, the filter, the
/// rows around the cursor, and how many targets of how many are listed.
pub fn render_projects(
    targets: &Vec<ProjectTarget>,
    filtered: &Vec<usize>,
    cursor_idx: usize,
    filter: &str,
    cols: usize,
    rows: usize,
    home: Option<&str>,
    now: Timestamp,
) -> (frame: Frame)
    requires
        forall|k: int| 0 <= k < filtered.len() ==> filtered[k] < targets.len(),
    ensures
        frame@ == projects_frame(
            crate::projects::target_views(targets@),
            filtered@,
            cursor_idx as int,
            filter@,
            cols as int,
            rows as int,
            opt_str(home),
            now,
        ),
{
    let mut texts: Vec<Vec<char>> = Vec::new();
    assert(row_texts(texts@) =~= Seq::<Seq<char>>::empty());
    let ghost wanted = target_rows(
        crate::projects::target_views(targets@),
        filtered@,
        opt_str(home),
        now,
    );
    let mut k: usize = 0;
    while k < filtered.len()
        invariant
            k <= filtered.len(),
            forall|k: int| 0 <= k < filtered.len() ==> filtered[k] < targets.len(),
            wanted == target_rows(
                crate::projects::target_views(targets@),
                filtered@,
                opt_str(home),
                now,
            ),
            row_texts(texts@) == wanted.take(k as int),
        decreases filtered.len() - k,
    {
        push_row(&mut texts, target_line_chars(&targets[filtered[k]], home, now));
        assert(crate::projects::target_views(targets@)[filtered@[k as int] as int]
            == targets@[filtered@[k as int] as int]@);
        assert(wanted.take(k + 1) =~= wanted.take(k as int).push(wanted[k as int]));
        k += 1;
    }
    assert(wanted.take(filtered.len() as int) =~= wanted);
    let foot = count_foot_chars(filtered.len(), targets.len());
    build_frame(
        tabs_line(Tab::Projects),
        "⏎ sessions · n new · ←/→ tabs · o config · q quit",
        filter,
        &texts,
        cursor_idx,
        cols,
        rows,
        &foot,
    )
}

/// The frame of a sessions tab.
pub fn render_sessions(
    tab: Tab,
    items: &Vec<SessionItem>,
    filtered: &Vec<usize>,
    cursor_idx: usize,
    filter: &str,
    cols: usize,
    rows: usize,
    home: Option<&str>,
    now: Timestamp,
) -> (frame: Frame)
    requires
        forall|k: int| 0 <= k < filtered.len() ==> filtered[k] < items.len(),
    ensures
        frame@ == sessions_frame(
            tab,
            crate::sessions::session_views(items@),
            filtered@,
            cursor_idx as int,
            filter@,
            cols as int,
            rows as int,
            opt_str(home),
            now,
        ),
{
    let mut texts: Vec<Vec<char>> = Vec::new();
    assert(row_texts(texts@) =~= Seq::<Seq<char>>::empty());
    let ghost wanted = session_rows(
        crate::sessions::session_views(items@),
        filtered@,
        opt_str(home),
        now,
    );
    let mut k: usize = 0;
    while k < filtered.len()
        invariant
            k <= filtered.len(),
            forall|k: int| 0 <= k < filtered.len() ==> filtered[k] < items.len(),
            wanted == session_rows(
                crate::sessions::session_views(items@),
                filtered@,
                opt_str(home),
                now,
            ),
            row_texts(texts@) == wanted.take(k as int),
        decreases filtered.len() - k,
    {
        let line = items[filtered[k]].display_line(home, now);
        push_row(&mut texts, chars_of(line.as_str()));
        assert(crate::sessions::session_views(items@)[filtered@[k as int] as int]
            == items@[filtered@[k as int] as int]@);
        assert(wanted.take(k + 1) =~= wanted.take(k as int).push(wanted[k as int]));
        k += 1;
    }
    assert(wanted.take(filtered.len() as int) =~= wanted);
    let foot = count_foot_chars(filtered.len(), items.len());
    let help = match tab {
        Tab::SessionsScoped => "⏎ resume · esc back · ←/→ tabs · o config · q quit",
        Tab::SessionsAll => "⏎ resume · esc back · ← tabs · o config · q quit",
        Tab::Projects => "⏎ resume · esc back · o config · q quit",
    };
    build_frame(tabs_line(tab), help, filter, &texts, cursor_idx, cols, rows, &foot)
}

/// The frame of the list of one project's sessions: the project, the help,
/// the filter, the row for a new session and the rows of the sessions around
/// the cursor, and how many sessions the project has.
pub fn render_project_sessions(
    target: &ProjectTarget,
    sessions: &Vec<SessionItem>,
    filtered: &Vec<usize>,
    cursor_idx: usize,
    filter: &str,
    cols: usize,
    rows: usize,
    now: Timestamp,
) -> (frame: Frame)
    ensures
        frame@ == project_sessions_frame(
            target.label@,
            crate::sessions::session_views(sessions@),
            filtered@,
            cursor_idx as int,
            filter@,
            cols as int,
            rows as int,
            now,
        ),
{
    let ghost views = crate::sessions::session_views(sessions@);
    let mut texts: Vec<Vec<char>> = Vec::new();
    assert(row_texts(texts@) =~= Seq::<Seq<char>>::empty());
    push_row(&mut texts, chars_of("Start new session"));
    assert(filtered@.take(0) =~= Seq::<usize>::empty());
    assert(row_texts(texts@) =~= project_session_rows(views, filtered@.take(0), now));
    let mut k: usize = 0;
    while k < filtered.len()
        invariant
            k <= filtered.len(),
            views == crate::sessions::session_views(sessions@),
            row_texts(texts@) == project_session_rows(views, filtered@.take(k as int), now),
        decreases filtered.len() - k,
    {
        proof {
            let pre = filtered@.take(k + 1);
            assert(pre.drop_last() =~= filtered@.take(k as int));
            assert(pre.last() == filtered@[k as int]);
        }
        if filtered[k] < sessions.len() {
            push_row(&mut texts, session_line_no_path_chars(&sessions[filtered[k]], now));
            assert(views[filtered@[k as int] as int] == sessions@[filtered@[k as int] as int]@);
        }
        k += 1;
    }
    assert(filtered@.take(filtered.len() as int) =~= filtered@);
    let mut first: Vec<Span> = Vec::new();
    assert(line_view(first) =~= Seq::<SpanView>::empty());
    push_span(&mut first, span_str(Style::Bold, "Project:"));
    let mut title: Vec<char> = Vec::new();
    title.push(' ');
    title.push(' ');
    let label = cut_chars(chars_of(target.label.as_str()), cols.saturating_sub(10));
    push_all(&mut title, &label);
    assert(title@ =~= seq![' ', ' '] + cut(target.label@, minus(cols as int, 10)));
    push_span(&mut first, span_of(Style::Plain, &title));
    assert(line_view(first) =~= seq![
        styled(Style::Bold, "Project:"@),
        styled(Style::Plain, seq![' ', ' '] + cut(target.label@, minus(cols as int, 10))),
    ]);
    assert(views.len() == sessions.len());
    let mut foot = decimal_chars(sessions.len() as u64);
    push_str(&mut foot, " sessions");
    build_frame(
        first,
        "⏎ select · esc back · o config · q quit",
        filter,
        &texts,
        cursor_idx,
        cols,
        rows,
        &foot,
    )
}

} // verus!

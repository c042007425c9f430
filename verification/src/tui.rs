//! The picker: a state machine over the tabs of the launcher. A key goes in,
//! the next state comes out, and with it the pick where the key ends the
//! dialogue. Reading keys and drawing a frame are the caller's part.

use crate::frame::{
    project_sessions_frame, projects_frame, render_project_sessions, render_projects,
    render_sessions, sessions_frame, Frame, SpanView,
};
use crate::fuzzy::{filter_rows, filtered};
use crate::paths::{path_eq, path_starts_with, path_within, same_path};
use crate::projects::{target_line, target_views, ProjectTarget, TargetView};
use crate::sessions::{or_empty, session_views, SessionItem, SessionView};
use crate::text::{chars_of, opt_str, opt_text, push_str, string_of, string_views};
use crate::timefmt::Timestamp;
use vstd::prelude::*;

verus! {

/// What the picker ended with.
#[derive(Debug, Clone)]
pub enum ProjectPick {
    /// Start a new session in this target.
    New(ProjectTarget),
    /// Resume this session.
    Resume(SessionItem),
    /// Open the configuration file.
    OpenConfig,
    /// Leave without a pick.
    Quit,
}

/// The three lists that the picker pages between.
#[derive(Debug, Clone, Copy, PartialEq, Eq, Structural)]
pub enum Tab {
    Projects,
    SessionsScoped,
    SessionsAll,
}

/// Where the picker stands: on one of the tabs, or inside one project, on the
/// list of its sessions.
#[derive(Debug, Clone)]
pub enum Screen {
    Tab(Tab),
    ProjectSessions { target: ProjectTarget, sessions: Vec<SessionItem> },
}

/// The key of a key press.
#[derive(Debug, Clone, Copy, PartialEq, Eq, Structural)]
pub enum KeyCode {
    Left,
    Right,
    Up,
    Down,
    Enter,
    Esc,
    Backspace,
    PageUp,
    PageDown,
    Home,
    End,
    Char(char),
    Other,
}

/// The modifier keys held with a key: none, Control alone, or anything else.
#[derive(Debug, Clone, Copy, PartialEq, Eq, Structural)]
pub enum Modifiers {
    Plain,
    Control,
    Other,
}

/// One key press.
#[derive(Debug, Clone, Copy, PartialEq, Eq, Structural)]
pub struct KeyInput {
    pub code: KeyCode,
    pub modifiers: Modifiers,
}

/// What a key does to the cursor of a list.
#[derive(Debug, Clone, Copy, PartialEq, Eq, Structural)]
pub enum Motion {
    Up,
    Down,
    PageUp,
    PageDown,
    Home,
    End,
}

/// What a key does to a filter text.
#[derive(Debug, Clone, Copy, PartialEq, Eq, Structural)]
pub enum Edit {
    Backspace,
    Clear,
    Insert(char),
}

/// What a key asks of a tab, beyond moving in it.
#[derive(Debug, Clone, Copy, PartialEq, Eq, Structural)]
pub enum ListOutcome {
    Continue,
    SwitchTab(Tab),
    Activate,
    StartNew,
}

/// What a key asks of the list of one project's sessions.
#[derive(Debug, Clone, Copy, PartialEq, Eq, Structural)]
pub enum ProjectSessionsOutcome {
    Continue,
    StartNew,
    Resume { filtered_idx: usize },
}

/// Whether `c` is a control code: a character of the Unicode category `Cc`.
pub open spec fn control_code(c: char) -> bool {
    let n = c as int;
    n <= 0x1F || 0x7F <= n <= 0x9F
}

/// Whether `c` is a control code.
pub fn is_control(c: char) -> (r: bool)
    ensures
        r == control_code(c),
{
    let n: u32 = c as u32;
    n <= 0x1F || (0x7F <= n && n <= 0x9F)
}

/// Whether `key` is the character `c` with no modifier held.
pub open spec fn is_plain(key: KeyInput, c: char) -> bool {
    key.code == KeyCode::Char(c) && key.modifiers == Modifiers::Plain
}

/// The motion that `key` stands for: the arrow and paging keys, and `k` and
/// `j` for up and down.
pub open spec fn motion_of(key: KeyInput) -> Option<Motion> {
    if key.code == KeyCode::Up || is_plain(key, 'k') {
        Some(Motion::Up)
    } else if key.code == KeyCode::Down || is_plain(key, 'j') {
        Some(Motion::Down)
    } else if key.code == KeyCode::PageUp {
        Some(Motion::PageUp)
    } else if key.code == KeyCode::PageDown {
        Some(Motion::PageDown)
    } else if key.code == KeyCode::Home {
        Some(Motion::Home)
    } else if key.code == KeyCode::End {
        Some(Motion::End)
    } else {
        None
    }
}

/// The edit that `key` stands for, where it stands for no motion: Backspace,
/// Control-`u` to clear, and a character typed with no modifier, unless it is
/// a control code.
pub open spec fn edit_of(key: KeyInput) -> Option<Edit> {
    match key.code {
        KeyCode::Backspace => Some(Edit::Backspace),
        KeyCode::Char(c) => if c == 'u' && key.modifiers == Modifiers::Control {
            Some(Edit::Clear)
        } else if key.modifiers == Modifiers::Plain && !control_code(c) {
            Some(Edit::Insert(c))
        } else {
            None
        },
        _ => None,
    }
}

/// Where `motion` takes the cursor of a list whose last position is `last`;
/// `None` stands for a list without positions. The cursor never leaves the
/// list by a step down, and never goes below zero.
pub open spec fn moved(motion: Motion, cursor: int, last: Option<int>) -> int {
    match motion {
        Motion::Up => if last is Some && cursor > 0 {
            cursor - 1
        } else {
            cursor
        },
        Motion::Down => match last {
            Some(l) => if cursor + 1 < l {
                cursor + 1
            } else {
                l
            },
            None => cursor,
        },
        Motion::PageUp => if cursor > 10 {
            cursor - 10
        } else {
            0
        },
        Motion::PageDown => match last {
            Some(l) => if cursor + 10 < l {
                cursor + 10
            } else {
                l
            },
            None => cursor,
        },
        Motion::Home => 0,
        Motion::End => match last {
            Some(l) => l,
            None => cursor,
        },
    }
}

/// The filter text after `edit`.
pub open spec fn edited(edit: Edit, filter: Seq<char>) -> Seq<char> {
    match edit {
        Edit::Backspace => if filter.len() > 0 {
            filter.drop_last()
        } else {
            filter
        },
        Edit::Clear => Seq::empty(),
        Edit::Insert(c) => filter.push(c),
    }
}

/// The last position of a list of `len` rows.
pub open spec fn last_of(len: int) -> Option<int> {
    if len > 0 {
        Some(len - 1)
    } else {
        None
    }
}

/// What `key` asks of the tab `tab`: Left and Right page between the tabs,
/// `n` on the projects tab starts a new session, Enter activates the row
/// under the cursor; every other key leaves the tab as it is.
pub open spec fn list_outcome(key: KeyInput, tab: Tab) -> ListOutcome {
    if key.code == KeyCode::Left {
        ListOutcome::SwitchTab(
            match tab {
                Tab::Projects => Tab::Projects,
                Tab::SessionsScoped => Tab::Projects,
                Tab::SessionsAll => Tab::SessionsScoped,
            },
        )
    } else if key.code == KeyCode::Right {
        ListOutcome::SwitchTab(
            match tab {
                Tab::Projects => Tab::SessionsScoped,
                Tab::SessionsScoped => Tab::SessionsAll,
                Tab::SessionsAll => Tab::SessionsAll,
            },
        )
    } else if is_plain(key, 'n') && tab == Tab::Projects {
        ListOutcome::StartNew
    } else if key.code == KeyCode::Enter {
        ListOutcome::Activate
    } else {
        ListOutcome::Continue
    }
}

/// The cursor of a list after `key`, where the key asks nothing else of the
/// list: a motion moves it, an edit of the filter puts it back to the top.
pub open spec fn cursor_after(key: KeyInput, cursor: int, last: Option<int>) -> int {
    match motion_of(key) {
        Some(m) => moved(m, cursor, last),
        None => if edit_of(key) is Some {
            0
        } else {
            cursor
        },
    }
}

/// The filter of a list after `key`, where the key asks nothing else of the
/// list.
pub open spec fn filter_after(key: KeyInput, filter: Seq<char>) -> Seq<char> {
    match motion_of(key) {
        Some(m) => filter,
        None => match edit_of(key) {
            Some(e) => edited(e, filter),
            None => filter,
        },
    }
}

fn key_is_plain(key: KeyInput, c: char) -> (r: bool)
    ensures
        r == is_plain(key, c),
{
    match (key.code, key.modifiers) {
        (KeyCode::Char(x), Modifiers::Plain) => x == c,
        _ => false,
    }
}

/// The motion that `key` stands for.
pub fn key_motion(key: KeyInput) -> (r: Option<Motion>)
    ensures
        r == motion_of(key),
{
    match key.code {
        KeyCode::Up => Some(Motion::Up),
        KeyCode::Down => Some(Motion::Down),
        KeyCode::PageUp => Some(Motion::PageUp),
        KeyCode::PageDown => Some(Motion::PageDown),
        KeyCode::Home => Some(Motion::Home),
        KeyCode::End => Some(Motion::End),
        _ => if key_is_plain(key, 'k') {
            Some(Motion::Up)
        } else if key_is_plain(key, 'j') {
            Some(Motion::Down)
        } else {
            None
        },
    }
}

/// The edit that `key` stands for.
pub fn key_edit(key: KeyInput) -> (r: Option<Edit>)
    ensures
        r == edit_of(key),
{
    match (key.code, key.modifiers) {
        (KeyCode::Backspace, _) => Some(Edit::Backspace),
        (KeyCode::Char(c), Modifiers::Control) => if c == 'u' {
            Some(Edit::Clear)
        } else {
            None
        },
        (KeyCode::Char(c), Modifiers::Plain) => if !is_control(c) {
            Some(Edit::Insert(c))
        } else {
            None
        },
        _ => None,
    }
}

/// Moves a cursor. `last` is the last position of the list, `None` where the
/// list is empty.
pub fn move_cursor(motion: Motion, cursor: usize, last: Option<usize>) -> (r: usize)
    ensures
        r == moved(
            motion,
            cursor as int,
            match last {
                Some(l) => Some(l as int),
                None => None,
            },
        ),
{
    match motion {
        Motion::Up => match last {
            Some(_) => cursor.saturating_sub(1),
            None => cursor,
        },
        Motion::Down => match last {
            Some(l) => if cursor < l {
                cursor + 1
            } else {
                l
            },
            None => cursor,
        },
        Motion::PageUp => cursor.saturating_sub(10),
        Motion::PageDown => match last {
            Some(l) => if cursor < l && l - cursor > 10 {
                cursor + 10
            } else {
                l
            },
            None => cursor,
        },
        Motion::Home => 0,
        Motion::End => match last {
            Some(l) => l,
            None => cursor,
        },
    }
}

/// Edits a filter text.
pub fn edit_filter(edit: Edit, filter: &mut String)
    ensures
        final(filter)@ == edited(edit, old(filter)@),
{
    let mut v = chars_of(filter.as_str());
    match edit {
        Edit::Backspace => {
            if v.len() > 0 {
                v.pop();
            }
        },
        Edit::Clear => {
            v = Vec::new();
        },
        Edit::Insert(c) => {
            v.push(c);
        },
    }
    *filter = string_of(&v);
}

/// Handles a key on one of the tabs. `len` is the number of rows that the
/// filter leaves. The result says what the key asks of the picker; a key that
/// asks nothing moves the cursor or edits the filter.
pub fn handle_list_key(
    key: KeyInput,
    filter: &mut String,
    cursor_idx: &mut usize,
    len: usize,
    tab: Tab,
) -> (outcome: ListOutcome)
    ensures
        outcome == list_outcome(key, tab),
        outcome != ListOutcome::Continue ==> final(filter)@ == old(filter)@ && *final(cursor_idx)
            == *old(cursor_idx),
        outcome == ListOutcome::Continue ==> final(filter)@ == filter_after(key, old(filter)@)
            && *final(cursor_idx) == cursor_after(
            key,
            *old(cursor_idx) as int,
            last_of(len as int),
        ),
        len > 0 && *old(cursor_idx) < len ==> *final(cursor_idx) < len,
{
    match key.code {
        KeyCode::Left => {
            return ListOutcome::SwitchTab(
                match tab {
                    Tab::Projects => Tab::Projects,
                    Tab::SessionsScoped => Tab::Projects,
                    Tab::SessionsAll => Tab::SessionsScoped,
                },
            );
        },
        KeyCode::Right => {
            return ListOutcome::SwitchTab(
                match tab {
                    Tab::Projects => Tab::SessionsScoped,
                    Tab::SessionsScoped => Tab::SessionsAll,
                    Tab::SessionsAll => Tab::SessionsAll,
                },
            );
        },
        _ => {},
    }
    if key_is_plain(key, 'n') && tab == Tab::Projects {
        return ListOutcome::StartNew;
    }
    if key.code == KeyCode::Enter {
        return ListOutcome::Activate;
    }
    let last: Option<usize> = if len > 0 { Some(len - 1) } else { None };
    match key_motion(key) {
        Some(m) => {
            *cursor_idx = move_cursor(m, *cursor_idx, last);
        },
        None => match key_edit(key) {
            Some(e) => {
                edit_filter(e, filter);
                *cursor_idx = 0;
            },
            None => {},
        },
    }
    ListOutcome::Continue
}

/// What `key` asks of the list of one project's sessions, with the cursor at
/// `cursor`: Enter on the first row starts a new session, Enter on another
/// row resumes the session of that row, the first session being row 1.
pub open spec fn project_sessions_outcome(key: KeyInput, cursor: int) -> ProjectSessionsOutcome {
    if key.code == KeyCode::Enter {
        if cursor == 0 {
            ProjectSessionsOutcome::StartNew
        } else {
            ProjectSessionsOutcome::Resume { filtered_idx: (cursor - 1) as usize }
        }
    } else {
        ProjectSessionsOutcome::Continue
    }
}

/// Handles a key on the list of one project's sessions. The list has one row
/// more than the `sessions_len` sessions that the filter leaves: its first
/// row stands for a new session.
pub fn handle_project_sessions_key(
    key: KeyInput,
    filter: &mut String,
    cursor_idx: &mut usize,
    sessions_len: usize,
) -> (outcome: ProjectSessionsOutcome)
    ensures
        outcome == project_sessions_outcome(key, *old(cursor_idx) as int),
        outcome != ProjectSessionsOutcome::Continue ==> final(filter)@ == old(filter)@
            && *final(cursor_idx) == *old(cursor_idx),
        outcome == ProjectSessionsOutcome::Continue ==> final(filter)@ == filter_after(
            key,
            old(filter)@,
        ) && *final(cursor_idx) == cursor_after(
            key,
            *old(cursor_idx) as int,
            Some(sessions_len as int),
        ),
        *old(cursor_idx) <= sessions_len ==> *final(cursor_idx) <= sessions_len,
{
    if key.code == KeyCode::Enter {
        if *cursor_idx == 0 {
            return ProjectSessionsOutcome::StartNew;
        }
        return ProjectSessionsOutcome::Resume { filtered_idx: *cursor_idx - 1 };
    }
    match key_motion(key) {
        Some(m) => {
            *cursor_idx = move_cursor(m, *cursor_idx, Some(sessions_len));
        },
        None => match key_edit(key) {
            Some(e) => {
                edit_filter(e, filter);
                *cursor_idx = 0;
            },
            None => {},
        },
    }
    ProjectSessionsOutcome::Continue
}

/// The item that row `cursor_idx` of a filtered list shows: the row names a
/// place in `filtered`, which names the item.
pub open spec fn selected<T>(items: Seq<T>, filtered: Seq<usize>, cursor_idx: int) -> Option<T> {
    if 0 <= cursor_idx < filtered.len() && filtered[cursor_idx] < items.len() {
        Some(items[filtered[cursor_idx] as int])
    } else {
        None
    }
}

/// The target under the cursor of the filtered list, if the cursor is on one.
pub fn selected_target(
    targets: &Vec<ProjectTarget>,
    filtered: &Vec<usize>,
    cursor_idx: usize,
) -> (r: Option<ProjectTarget>)
    ensures
        r == selected(targets@, filtered@, cursor_idx as int),
{
    if cursor_idx < filtered.len() && filtered[cursor_idx] < targets.len() {
        Some(targets[filtered[cursor_idx]].duplicate())
    } else {
        None
    }
}

/// The session under the cursor of the filtered list, if the cursor is on
/// one.
pub fn selected_session(
    items: &Vec<SessionItem>,
    filtered: &Vec<usize>,
    cursor_idx: usize,
) -> (r: Option<SessionItem>)
    ensures
        r == selected(items@, filtered@, cursor_idx as int),
{
    if cursor_idx < filtered.len() && filtered[cursor_idx] < items.len() {
        Some(items[filtered[cursor_idx]].duplicate())
    } else {
        None
    }
}

/// The repository root that goes with item `i`: none where the list of roots
/// is too short.
pub open spec fn root_at(roots: Seq<Option<String>>, i: int) -> Option<Seq<char>> {
    if 0 <= i < roots.len() {
        opt_text(roots[i])
    } else {
        None
    }
}

/// Whether a session that ran in `cwd` belongs to the target at `target`.
/// Where the target is the root of its repository, the session belongs to it
/// if it ran in that repository; else if it ran in or below the target.
pub open spec fn belongs_to(
    target: Seq<char>,
    target_root: Option<Seq<char>>,
    cwd: Seq<char>,
    cwd_root: Option<Seq<char>>,
) -> bool {
    match target_root {
        Some(root) => if same_path(root, target) {
            match cwd_root {
                Some(r) => same_path(r, root),
                None => false,
            }
        } else {
            path_within(cwd, target)
        },
        None => path_within(cwd, target),
    }
}

/// The sessions of one target: those among `sessions` that belong to it, in
/// their order, and no more than `limit` of them.
pub open spec fn sessions_of_target(
    target: Seq<char>,
    target_root: Option<Seq<char>>,
    sessions: Seq<SessionItem>,
    roots: Seq<Option<String>>,
    limit: nat,
) -> Seq<SessionItem>
    decreases sessions.len(),
{
    if sessions.len() == 0 {
        Seq::empty()
    } else {
        let before = sessions_of_target(target, target_root, sessions.drop_last(), roots, limit);
        let i = sessions.len() - 1;
        if before.len() < limit && belongs_to(
            target,
            target_root,
            sessions[i].cwd@,
            root_at(roots, i),
        ) {
            before.push(sessions[i])
        } else {
            before
        }
    }
}

fn session_belongs(
    target: &str,
    target_is_root: bool,
    target_root: &Option<String>,
    cwd: &str,
    cwd_root: Option<&String>,
) -> (r: bool)
    requires
        target_is_root == match target_root {
            Some(root) => same_path(root@, target@),
            None => false,
        },
    ensures
        r == belongs_to(
            target@,
            opt_text(*target_root),
            cwd@,
            match cwd_root {
                Some(s) => Some(s@),
                None => None,
            },
        ),
{
    match target_root {
        Some(root) => {
            if target_is_root {
                match cwd_root {
                    Some(r) => path_eq(r.as_str(), root.as_str()),
                    None => false,
                }
            } else {
                path_starts_with(cwd, target)
            }
        },
        None => path_starts_with(cwd, target),
    }
}

/// The sessions to show for one target: those of `sessions_all` that belong
/// to it, newest first as they come, and no more than `limit`. `target_root`
/// is the repository root of the target's directory, and `session_roots`
/// holds, for each session, the repository root of the directory it ran in.
pub fn sessions_for_target(
    target: &ProjectTarget,
    target_root: &Option<String>,
    sessions_all: &Vec<SessionItem>,
    session_roots: &Vec<Option<String>>,
    limit: usize,
) -> (out: Vec<SessionItem>)
    ensures
        out@ == sessions_of_target(
            target.path@,
            opt_text(*target_root),
            sessions_all@,
            session_roots@,
            limit as nat,
        ),
        out.len() <= limit,
{
    let target_is_root = match target_root {
        Some(root) => path_eq(root.as_str(), target.path.as_str()),
        None => false,
    };
    let mut out: Vec<SessionItem> = Vec::new();
    let mut i: usize = 0;
    assert(sessions_all@.take(0) == Seq::<SessionItem>::empty());
    while i < sessions_all.len()
        invariant
            i <= sessions_all.len(),
            target_is_root == match target_root {
                Some(root) => same_path(root@, target.path@),
                None => false,
            },
            out.len() <= limit,
            out@ == sessions_of_target(
                target.path@,
                opt_text(*target_root),
                sessions_all@.take(i as int),
                session_roots@,
                limit as nat,
            ),
        decreases sessions_all.len() - i,
    {
        let s = &sessions_all[i];
        let root: Option<&String> = if i < session_roots.len() {
            session_roots[i].as_ref()
        } else {
            None
        };
        proof {
            let pre = sessions_all@.take(i + 1);
            assert(pre.drop_last() == sessions_all@.take(i as int));
            assert(pre[i as int] == sessions_all@[i as int]);
        }
        if out.len() < limit && session_belongs(
            target.path.as_str(),
            target_is_root,
            target_root,
            s.cwd.as_str(),
            root,
        ) {
            out.push(s.duplicate());
        }
        i += 1;
    }
    assert(sessions_all@.take(sessions_all.len() as int) == sessions_all@);
    out
}

/// What the picker chooses from. The lists do not change while it runs.
/// `target_roots` holds the repository root of each target's directory and
/// `session_roots` that of the directory of each session of `sessions_all`,
/// place by place; a place that is missing counts as no root.
#[derive(Debug, Clone)]
pub struct Lists {
    pub targets: Vec<ProjectTarget>,
    pub target_roots: Vec<Option<String>>,
    pub sessions_scoped: Vec<SessionItem>,
    pub sessions_all: Vec<SessionItem>,
    pub session_roots: Vec<Option<String>>,
    pub per_project_limit: usize,
    pub home: Option<String>,
}

/// The state of the picker: where it stands, and for each list its filter
/// text and its cursor. Each tab keeps its own; the list of one project's
/// sessions starts afresh whenever it is entered.
#[derive(Debug, Clone)]
pub struct Picker {
    pub screen: Screen,
    pub project_filter: String,
    pub project_cursor: usize,
    pub scoped_filter: String,
    pub scoped_cursor: usize,
    pub all_filter: String,
    pub all_cursor: usize,
    pub drill_filter: String,
    pub drill_cursor: usize,
}

/// Where the picker stands, as a plain value.
pub ghost enum ScreenView {
    Tab(Tab),
    ProjectSessions { target: ProjectTarget, sessions: Seq<SessionItem> },
}

/// The state of the picker, as a plain value.
pub ghost struct PickerView {
    pub screen: ScreenView,
    pub project_filter: Seq<char>,
    pub project_cursor: usize,
    pub scoped_filter: Seq<char>,
    pub scoped_cursor: usize,
    pub all_filter: Seq<char>,
    pub all_cursor: usize,
    pub drill_filter: Seq<char>,
    pub drill_cursor: usize,
}

/// What one key makes of the picker: its next state, and the pick where the
/// key ends the dialogue.
pub ghost struct Stepped {
    pub state: PickerView,
    pub pick: Option<ProjectPick>,
}

impl View for Screen {
    type V = ScreenView;

    open spec fn view(&self) -> ScreenView {
        match *self {
            Screen::Tab(tab) => ScreenView::Tab(tab),
            Screen::ProjectSessions { target, sessions } => ScreenView::ProjectSessions {
                target,
                sessions: sessions@,
            },
        }
    }
}

impl View for Picker {
    type V = PickerView;

    open spec fn view(&self) -> PickerView {
        PickerView {
            screen: self.screen@,
            project_filter: self.project_filter@,
            project_cursor: self.project_cursor,
            scoped_filter: self.scoped_filter@,
            scoped_cursor: self.scoped_cursor,
            all_filter: self.all_filter@,
            all_cursor: self.all_cursor,
            drill_filter: self.drill_filter@,
            drill_cursor: self.drill_cursor,
        }
    }
}

/// The cursor of a tab, brought back into a list of `len` rows: onto the last
/// row where it stood beyond it.
pub open spec fn clamp_list(cursor: usize, len: nat) -> usize {
    if cursor >= len && len > 0 {
        (len - 1) as usize
    } else {
        cursor
    }
}

/// The cursor of the list of one project's sessions, brought back into a list
/// of `len` sessions: onto the last session where it stood beyond it. Row 0
/// stands for a new session, so the last row is `len`.
pub open spec fn clamp_drill(cursor: usize, len: nat) -> usize {
    if cursor > len {
        len as usize
    } else {
        cursor
    }
}

/// Whether `key` asks to leave the picker from wherever it stands: `q` or
/// Control-`c`.
pub open spec fn asks_quit(key: KeyInput) -> bool {
    is_plain(key, 'q') || (key.code == KeyCode::Char('c') && key.modifiers == Modifiers::Control)
}

/// The step of the projects tab, the global keys apart. `order` is the
/// filtered list of targets.
pub open spec fn projects_step(
    pre: PickerView,
    lists: Lists,
    key: KeyInput,
    order: Seq<usize>,
) -> Stepped {
    let c = clamp_list(pre.project_cursor, order.len());
    let at = PickerView { project_cursor: c, ..pre };
    match list_outcome(key, Tab::Projects) {
        ListOutcome::Continue => Stepped {
            state: PickerView {
                project_filter: filter_after(key, pre.project_filter),
                project_cursor: cursor_after(key, c as int, last_of(order.len() as int)) as usize,
                ..pre
            },
            pick: None,
        },
        ListOutcome::SwitchTab(tab) => Stepped {
            state: PickerView { screen: ScreenView::Tab(tab), ..at },
            pick: None,
        },
        ListOutcome::Activate => match selected(lists.targets@, order, c as int) {
            Some(t) => Stepped {
                state: PickerView {
                    screen: ScreenView::ProjectSessions {
                        target: t,
                        sessions: sessions_of_target(
                            t.path@,
                            root_at(lists.target_roots@, order[c as int] as int),
                            lists.sessions_all@,
                            lists.session_roots@,
                            lists.per_project_limit as nat,
                        ),
                    },
                    drill_filter: Seq::empty(),
                    drill_cursor: 0,
                    ..at
                },
                pick: None,
            },
            None => Stepped { state: at, pick: None },
        },
        ListOutcome::StartNew => match selected(lists.targets@, order, c as int) {
            Some(t) => Stepped { state: at, pick: Some(ProjectPick::New(t)) },
            None => Stepped { state: at, pick: None },
        },
    }
}

/// The state with the filter and the cursor of a sessions tab set.
pub open spec fn with_sessions_list(
    pre: PickerView,
    tab: Tab,
    filter: Seq<char>,
    cursor: usize,
) -> PickerView {
    if tab == Tab::SessionsAll {
        PickerView { all_filter: filter, all_cursor: cursor, ..pre }
    } else {
        PickerView { scoped_filter: filter, scoped_cursor: cursor, ..pre }
    }
}

/// The step of a sessions tab, the global keys apart. `items` is the list of
/// the tab and `order` its filtered list.
pub open spec fn sessions_step(
    pre: PickerView,
    tab: Tab,
    items: Seq<SessionItem>,
    key: KeyInput,
    order: Seq<usize>,
) -> Stepped {
    let filter = if tab == Tab::SessionsAll {
        pre.all_filter
    } else {
        pre.scoped_filter
    };
    let cursor = if tab == Tab::SessionsAll {
        pre.all_cursor
    } else {
        pre.scoped_cursor
    };
    let c = clamp_list(cursor, order.len());
    let at = with_sessions_list(pre, tab, filter, c);
    match list_outcome(key, tab) {
        ListOutcome::Continue => Stepped {
            state: with_sessions_list(
                pre,
                tab,
                filter_after(key, filter),
                cursor_after(key, c as int, last_of(order.len() as int)) as usize,
            ),
            pick: None,
        },
        ListOutcome::SwitchTab(to) => Stepped {
            state: PickerView { screen: ScreenView::Tab(to), ..at },
            pick: None,
        },
        ListOutcome::Activate => match selected(items, order, c as int) {
            Some(s) => Stepped { state: at, pick: Some(ProjectPick::Resume(s)) },
            None => Stepped { state: at, pick: None },
        },
        ListOutcome::StartNew => Stepped { state: at, pick: None },
    }
}

/// The step of the list of one project's sessions, the global keys apart.
/// `order` is the filtered list of its sessions.
pub open spec fn drill_step(
    pre: PickerView,
    target: ProjectTarget,
    sessions: Seq<SessionItem>,
    key: KeyInput,
    order: Seq<usize>,
) -> Stepped {
    if key.code == KeyCode::Esc || key.code == KeyCode::Left {
        Stepped { state: PickerView { screen: ScreenView::Tab(Tab::Projects), ..pre }, pick: None }
    } else {
        let c = clamp_drill(pre.drill_cursor, order.len());
        let at = PickerView { drill_cursor: c, ..pre };
        match project_sessions_outcome(key, c as int) {
            ProjectSessionsOutcome::Continue => Stepped {
                state: PickerView {
                    drill_filter: filter_after(key, pre.drill_filter),
                    drill_cursor: cursor_after(key, c as int, Some(order.len() as int)) as usize,
                    ..pre
                },
                pick: None,
            },
            ProjectSessionsOutcome::StartNew => Stepped {
                state: at,
                pick: Some(ProjectPick::New(target)),
            },
            ProjectSessionsOutcome::Resume { filtered_idx } => match selected(
                sessions,
                order,
                filtered_idx as int,
            ) {
                Some(s) => Stepped { state: at, pick: Some(ProjectPick::Resume(s)) },
                None => Stepped { state: at, pick: None },
            },
        }
    }
}

/// What one key makes of the picker. `order` is the filtered list of what the
/// picker shows. The global keys come first: Esc leaves the projects tab
/// without a pick and goes one tab back from a sessions tab, `q` and
/// Control-`c` leave from anywhere, `o` asks for the configuration. Every
/// other key goes to the list that is shown.
pub open spec fn step(pre: PickerView, lists: Lists, key: KeyInput, order: Seq<usize>) -> Stepped {
    if key.code == KeyCode::Esc && pre.screen == ScreenView::Tab(Tab::Projects) {
        Stepped { state: pre, pick: Some(ProjectPick::Quit) }
    } else if key.code == KeyCode::Esc && pre.screen == ScreenView::Tab(Tab::SessionsScoped) {
        Stepped { state: PickerView { screen: ScreenView::Tab(Tab::Projects), ..pre }, pick: None }
    } else if key.code == KeyCode::Esc && pre.screen == ScreenView::Tab(Tab::SessionsAll) {
        Stepped {
            state: PickerView { screen: ScreenView::Tab(Tab::SessionsScoped), ..pre },
            pick: None,
        }
    } else if asks_quit(key) {
        Stepped { state: pre, pick: Some(ProjectPick::Quit) }
    } else if is_plain(key, 'o') {
        Stepped { state: pre, pick: Some(ProjectPick::OpenConfig) }
    } else {
        match pre.screen {
            ScreenView::Tab(Tab::Projects) => projects_step(pre, lists, key, order),
            ScreenView::Tab(Tab::SessionsScoped) => sessions_step(
                pre,
                Tab::SessionsScoped,
                lists.sessions_scoped@,
                key,
                order,
            ),
            ScreenView::Tab(Tab::SessionsAll) => sessions_step(
                pre,
                Tab::SessionsAll,
                lists.sessions_all@,
                key,
                order,
            ),
            ScreenView::ProjectSessions { target, sessions } => drill_step(
                pre,
                target,
                sessions,
                key,
                order,
            ),
        }
    }
}

/// The cursor of the list that is shown stays in the list: after a key that
/// does not end the dialogue and leaves the picker where it stands, the
/// cursor of a tab is on one of the `order.len()` rows that the filter left
/// when the key came, and the cursor of the list of one project's sessions
/// is on the row for a new session or on one of those rows.
pub proof fn lemma_cursor_stays_in_list(
    pre: PickerView,
    lists: Lists,
    key: KeyInput,
    order: Seq<usize>,
)
    requires
        0 < order.len() <= usize::MAX,
        step(pre, lists, key, order).pick is None,
        step(pre, lists, key, order).state.screen == pre.screen,
    ensures
        ({
            let post = step(pre, lists, key, order).state;
            match pre.screen {
                ScreenView::Tab(Tab::Projects) => post.project_cursor < order.len(),
                ScreenView::Tab(Tab::SessionsScoped) => post.scoped_cursor < order.len(),
                ScreenView::Tab(Tab::SessionsAll) => post.all_cursor < order.len(),
                ScreenView::ProjectSessions { target, sessions } => post.drill_cursor
                    <= order.len(),
            }
        }),
{
}

fn key_asks_quit(key: KeyInput) -> (r: bool)
    ensures
        r == asks_quit(key),
{
    match (key.code, key.modifiers) {
        (KeyCode::Char(c), Modifiers::Plain) => c == 'q',
        (KeyCode::Char(c), Modifiers::Control) => c == 'c',
        _ => false,
    }
}

fn clamped_list(cursor: usize, len: usize) -> (r: usize)
    ensures
        r == clamp_list(cursor, len as nat),
{
    if cursor >= len && len > 0 {
        len - 1
    } else {
        cursor
    }
}

impl Picker {
    /// The picker as it starts: on the projects tab, every filter empty and
    /// every cursor at the top.
    pub open spec fn new_view() -> PickerView {
        PickerView {
            screen: ScreenView::Tab(Tab::Projects),
            project_filter: Seq::empty(),
            project_cursor: 0,
            scoped_filter: Seq::empty(),
            scoped_cursor: 0,
            all_filter: Seq::empty(),
            all_cursor: 0,
            drill_filter: Seq::empty(),
            drill_cursor: 0,
        }
    }

    /// The picker as it starts: on the projects tab, every filter empty and
    /// every cursor at the top.
    pub fn new() -> (r: Picker)
        ensures
            r@ == Picker::new_view(),
    {
        Picker {
            screen: Screen::Tab(Tab::Projects),
            project_filter: String::new(),
            project_cursor: 0,
            scoped_filter: String::new(),
            scoped_cursor: 0,
            all_filter: String::new(),
            all_cursor: 0,
            drill_filter: String::new(),
            drill_cursor: 0,
        }
    }

    /// Takes one key, given the filtered list `order` of what is shown.
    /// Returns the pick where the key ends the dialogue.
    pub fn apply_key(&mut self, lists: &Lists, key: KeyInput, order: &Vec<usize>) -> (pick: Option<
        ProjectPick,
    >)
        ensures
            step(old(self)@, *lists, key, order@) == (Stepped { state: final(self)@, pick }),
    {
        let tab: Option<Tab> = match &self.screen {
            Screen::Tab(t) => Some(*t),
            Screen::ProjectSessions { .. } => None,
        };
        if key.code == KeyCode::Esc {
            match tab {
                Some(Tab::Projects) => {
                    return Some(ProjectPick::Quit);
                },
                Some(Tab::SessionsScoped) => {
                    self.screen = Screen::Tab(Tab::Projects);
                    return None;
                },
                Some(Tab::SessionsAll) => {
                    self.screen = Screen::Tab(Tab::SessionsScoped);
                    return None;
                },
                None => {},
            }
        }
        if key_asks_quit(key) {
            return Some(ProjectPick::Quit);
        }
        if key_is_plain(key, 'o') {
            return Some(ProjectPick::OpenConfig);
        }
        match tab {
            Some(Tab::Projects) => self.apply_projects_key(lists, key, order),
            Some(Tab::SessionsScoped) => self.apply_sessions_key(
                Tab::SessionsScoped,
                &lists.sessions_scoped,
                key,
                order,
            ),
            Some(Tab::SessionsAll) => self.apply_sessions_key(
                Tab::SessionsAll,
                &lists.sessions_all,
                key,
                order,
            ),
            None => self.apply_drill_key(key, order),
        }
    }

    fn apply_projects_key(&mut self, lists: &Lists, key: KeyInput, order: &Vec<usize>) -> (pick:
        Option<ProjectPick>)
        ensures
            projects_step(old(self)@, *lists, key, order@) == (Stepped {
                state: final(self)@,
                pick,
            }),
    {
        let c = clamped_list(self.project_cursor, order.len());
        let mut filter = self.project_filter.clone();
        let mut cursor = c;
        let outcome = handle_list_key(key, &mut filter, &mut cursor, order.len(), Tab::Projects);
        self.project_cursor = cursor;
        match outcome {
            ListOutcome::Continue => {
                self.project_filter = filter;
                None
            },
            ListOutcome::SwitchTab(tab) => {
                self.screen = Screen::Tab(tab);
                None
            },
            ListOutcome::Activate => match selected_target(&lists.targets, order, c) {
                Some(t) => {
                    let root: Option<String> = if order[c] < lists.target_roots.len() {
                        crate::text::copy_opt(&lists.target_roots[order[c]])
                    } else {
                        None
                    };
                    let sessions = sessions_for_target(
                        &t,
                        &root,
                        &lists.sessions_all,
                        &lists.session_roots,
                        lists.per_project_limit,
                    );
                    self.drill_filter = String::new();
                    self.drill_cursor = 0;
                    self.screen = Screen::ProjectSessions { target: t, sessions };
                    None
                },
                None => None,
            },
            ListOutcome::StartNew => match selected_target(&lists.targets, order, c) {
                Some(t) => Some(ProjectPick::New(t)),
                None => None,
            },
        }
    }

    fn apply_sessions_key(
        &mut self,
        tab: Tab,
        items: &Vec<SessionItem>,
        key: KeyInput,
        order: &Vec<usize>,
    ) -> (pick: Option<ProjectPick>)
        requires
            tab != Tab::Projects,
        ensures
            sessions_step(old(self)@, tab, items@, key, order@) == (Stepped {
                state: final(self)@,
                pick,
            }),
    {
        let all = tab == Tab::SessionsAll;
        let c = clamped_list(if all { self.all_cursor } else { self.scoped_cursor }, order.len());
        let mut filter = if all {
            self.all_filter.clone()
        } else {
            self.scoped_filter.clone()
        };
        let mut cursor = c;
        let outcome = handle_list_key(key, &mut filter, &mut cursor, order.len(), tab);
        if all {
            self.all_cursor = cursor;
        } else {
            self.scoped_cursor = cursor;
        }
        match outcome {
            ListOutcome::Continue => {
                if all {
                    self.all_filter = filter;
                } else {
                    self.scoped_filter = filter;
                }
                None
            },
            ListOutcome::SwitchTab(to) => {
                self.screen = Screen::Tab(to);
                None
            },
            ListOutcome::Activate => match selected_session(items, order, c) {
                Some(s) => Some(ProjectPick::Resume(s)),
                None => None,
            },
            ListOutcome::StartNew => None,
        }
    }

    fn apply_drill_key(&mut self, key: KeyInput, order: &Vec<usize>) -> (pick: Option<
        ProjectPick,
    >)
        requires
            old(self).screen is ProjectSessions,
        ensures
            drill_step(
                old(self)@,
                old(self).screen->target,
                old(self).screen->sessions@,
                key,
                order@,
            ) == (Stepped { state: final(self)@, pick }),
    {
        if key.code == KeyCode::Esc || key.code == KeyCode::Left {
            self.screen = Screen::Tab(Tab::Projects);
            return None;
        }
        let c: usize = if self.drill_cursor > order.len() {
            order.len()
        } else {
            self.drill_cursor
        };
        let mut filter = self.drill_filter.clone();
        let mut cursor = c;
        let outcome = handle_project_sessions_key(key, &mut filter, &mut cursor, order.len());
        self.drill_cursor = cursor;
        match outcome {
            ProjectSessionsOutcome::Continue => {
                self.drill_filter = filter;
                None
            },
            ProjectSessionsOutcome::StartNew => match &self.screen {
                Screen::ProjectSessions { target, sessions } => Some(
                    ProjectPick::New(target.duplicate()),
                ),
                Screen::Tab(_) => None,
            },
            ProjectSessionsOutcome::Resume { filtered_idx } => match &self.screen {
                Screen::ProjectSessions { target, sessions } => match selected_session(
                    sessions,
                    order,
                    filtered_idx,
                ) {
                    Some(s) => Some(ProjectPick::Resume(s)),
                    None => None,
                },
                Screen::Tab(_) => None,
            },
        }
    }
}

/// The text by which a session is matched: its id, its directory and its
/// summary, with a space between them.
pub open spec fn session_hay(s: SessionView) -> Seq<char> {
    s.id + seq![' '] + s.cwd + seq![' '] + or_empty(s.summary)
}

/// The texts by which the targets are matched: their rows.
pub open spec fn target_hays(
    targets: Seq<TargetView>,
    home: Option<Seq<char>>,
    now: Timestamp,
) -> Seq<Seq<char>> {
    Seq::new(targets.len(), |i: int| target_line(targets[i], home, now))
}

/// The texts by which the sessions are matched.
pub open spec fn session_hays(items: Seq<SessionView>) -> Seq<Seq<char>> {
    Seq::new(items.len(), |i: int| session_hay(items[i]))
}

/// The targets that the filter leaves, as places in `targets`: all of them
/// in their order where the filter is blank, else those whose row matches
/// it, the best match first.
pub fn filter_targets(
    targets: &Vec<ProjectTarget>,
    filter: &str,
    home: Option<&str>,
    now: Timestamp,
) -> (order: Vec<usize>)
    ensures
        order@ == filtered(filter@, target_hays(target_views(targets@), opt_str(home), now)),
        forall|k: int| 0 <= k < order.len() ==> order[k] < targets.len(),
{
    let mut rows: Vec<String> = Vec::new();
    let ghost hays = target_hays(target_views(targets@), opt_str(home), now);
    let mut i: usize = 0;
    assert(string_views(rows@) =~= hays.take(0));
    while i < targets.len()
        invariant
            i <= targets.len(),
            hays == target_hays(target_views(targets@), opt_str(home), now),
            string_views(rows@) == hays.take(i as int),
        decreases targets.len() - i,
    {
        let ghost before = rows@;
        rows.push(targets[i].display_line(home, now));
        assert(target_views(targets@)[i as int] == targets@[i as int]@);
        assert(string_views(rows@) =~= string_views(before).push(hays[i as int]));
        assert(hays.take(i + 1) =~= hays.take(i as int).push(hays[i as int]));
        i += 1;
    }
    assert(hays.take(targets.len() as int) =~= hays);
    filter_rows(&rows, filter)
}

/// The sessions that the filter leaves, as places in `items`: all of them in
/// their order where the filter is blank, else those that match it by id,
/// directory or summary, the best match first.
pub fn filter_sessions(items: &Vec<SessionItem>, filter: &str) -> (order: Vec<usize>)
    ensures
        order@ == filtered(filter@, session_hays(session_views(items@))),
        forall|k: int| 0 <= k < order.len() ==> order[k] < items.len(),
{
    let mut rows: Vec<String> = Vec::new();
    let ghost hays = session_hays(session_views(items@));
    let mut i: usize = 0;
    assert(string_views(rows@) =~= hays.take(0));
    while i < items.len()
        invariant
            i <= items.len(),
            hays == session_hays(session_views(items@)),
            string_views(rows@) == hays.take(i as int),
        decreases items.len() - i,
    {
        let ghost before = rows@;
        let s = &items[i];
        let mut hay = chars_of(s.id.as_str());
        hay.push(' ');
        push_str(&mut hay, s.cwd.as_str());
        hay.push(' ');
        match &s.summary {
            Some(t) => {
                push_str(&mut hay, t.as_str());
            },
            None => {},
        }
        assert(session_views(items@)[i as int] == items@[i as int]@);
        assert(hay@ =~= session_hay(s@));
        rows.push(string_of(&hay));
        assert(string_views(rows@) =~= string_views(before).push(hays[i as int]));
        assert(hays.take(i + 1) =~= hays.take(i as int).push(hays[i as int]));
        i += 1;
    }
    assert(hays.take(items.len() as int) =~= hays);
    filter_rows(&rows, filter)
}

/// The filtered list of what the picker shows.
pub open spec fn shown(pre: PickerView, lists: Lists, now: Timestamp) -> Seq<usize> {
    match pre.screen {
        ScreenView::Tab(Tab::Projects) => filtered(
            pre.project_filter,
            target_hays(target_views(lists.targets@), opt_text(lists.home), now),
        ),
        ScreenView::Tab(Tab::SessionsScoped) => filtered(
            pre.scoped_filter,
            session_hays(session_views(lists.sessions_scoped@)),
        ),
        ScreenView::Tab(Tab::SessionsAll) => filtered(
            pre.all_filter,
            session_hays(session_views(lists.sessions_all@)),
        ),
        ScreenView::ProjectSessions { target, sessions } => filtered(
            pre.drill_filter,
            session_hays(session_views(sessions)),
        ),
    }
}

/// The number of items in the list that the picker shows.
pub open spec fn shown_len(pre: PickerView, lists: Lists) -> nat {
    match pre.screen {
        ScreenView::Tab(Tab::Projects) => lists.targets@.len(),
        ScreenView::Tab(Tab::SessionsScoped) => lists.sessions_scoped@.len(),
        ScreenView::Tab(Tab::SessionsAll) => lists.sessions_all@.len(),
        ScreenView::ProjectSessions { target, sessions } => sessions.len(),
    }
}

/// The frame that shows the picker, given the filtered list `order`. The
/// cursor is drawn where the next key will find it: brought back into the
/// list where the filter has left it beyond the end.
pub open spec fn picker_frame(
    pre: PickerView,
    lists: Lists,
    order: Seq<usize>,
    cols: int,
    rows: int,
    now: Timestamp,
) -> Seq<Seq<SpanView>> {
    match pre.screen {
        ScreenView::Tab(Tab::Projects) => projects_frame(
            target_views(lists.targets@),
            order,
            clamp_list(pre.project_cursor, order.len()) as int,
            pre.project_filter,
            cols,
            rows,
            opt_text(lists.home),
            now,
        ),
        ScreenView::Tab(Tab::SessionsScoped) => sessions_frame(
            Tab::SessionsScoped,
            session_views(lists.sessions_scoped@),
            order,
            clamp_list(pre.scoped_cursor, order.len()) as int,
            pre.scoped_filter,
            cols,
            rows,
            opt_text(lists.home),
            now,
        ),
        ScreenView::Tab(Tab::SessionsAll) => sessions_frame(
            Tab::SessionsAll,
            session_views(lists.sessions_all@),
            order,
            clamp_list(pre.all_cursor, order.len()) as int,
            pre.all_filter,
            cols,
            rows,
            opt_text(lists.home),
            now,
        ),
        ScreenView::ProjectSessions { target, sessions } => project_sessions_frame(
            target.label@,
            session_views(sessions),
            order,
            clamp_drill(pre.drill_cursor, order.len()) as int,
            pre.drill_filter,
            cols,
            rows,
            now,
        ),
    }
}

fn home_of(lists: &Lists) -> (r: Option<&str>)
    ensures
        opt_str(r) == opt_text(lists.home),
{
    match &lists.home {
        Some(h) => Some(h.as_str()),
        None => None,
    }
}

impl Picker {
    /// The filtered list of what the picker shows, as places in the list of
    /// the tab, or in the sessions of the project that is open.
    pub fn visible(&self, lists: &Lists, now: Timestamp) -> (order: Vec<usize>)
        ensures
            order@ == shown(self@, *lists, now),
            forall|k: int| 0 <= k < order.len() ==> order[k] < shown_len(self@, *lists),
    {
        match &self.screen {
            Screen::Tab(Tab::Projects) => filter_targets(
                &lists.targets,
                self.project_filter.as_str(),
                home_of(lists),
                now,
            ),
            Screen::Tab(Tab::SessionsScoped) => filter_sessions(
                &lists.sessions_scoped,
                self.scoped_filter.as_str(),
            ),
            Screen::Tab(Tab::SessionsAll) => filter_sessions(
                &lists.sessions_all,
                self.all_filter.as_str(),
            ),
            Screen::ProjectSessions { target, sessions } => filter_sessions(
                sessions,
                self.drill_filter.as_str(),
            ),
        }
    }

    /// Takes one key: filters what is shown, then goes by `apply_key`.
    /// Returns the pick where the key ends the dialogue.
    pub fn handle_key(&mut self, lists: &Lists, key: KeyInput, now: Timestamp) -> (pick: Option<
        ProjectPick,
    >)
        ensures
            step(old(self)@, *lists, key, shown(old(self)@, *lists, now)) == (Stepped {
                state: final(self)@,
                pick,
            }),
    {
        let order = self.visible(lists, now);
        self.apply_key(lists, key, &order)
    }

    /// The frame that shows the picker on a terminal of `cols` columns and
    /// `rows` lines, given the filtered list `order` of what is shown.
    pub fn frame_of(
        &self,
        lists: &Lists,
        order: &Vec<usize>,
        cols: usize,
        rows: usize,
        now: Timestamp,
    ) -> (frame: Frame)
        requires
            forall|k: int| 0 <= k < order.len() ==> order[k] < shown_len(self@, *lists),
        ensures
            frame@ == picker_frame(self@, *lists, order@, cols as int, rows as int, now),
    {
        match &self.screen {
            Screen::Tab(Tab::Projects) => render_projects(
                &lists.targets,
                order,
                clamped_list(self.project_cursor, order.len()),
                self.project_filter.as_str(),
                cols,
                rows,
                home_of(lists),
                now,
            ),
            Screen::Tab(Tab::SessionsScoped) => render_sessions(
                Tab::SessionsScoped,
                &lists.sessions_scoped,
                order,
                clamped_list(self.scoped_cursor, order.len()),
                self.scoped_filter.as_str(),
                cols,
                rows,
                home_of(lists),
                now,
            ),
            Screen::Tab(Tab::SessionsAll) => render_sessions(
                Tab::SessionsAll,
                &lists.sessions_all,
                order,
                clamped_list(self.all_cursor, order.len()),
                self.all_filter.as_str(),
                cols,
                rows,
                home_of(lists),
                now,
            ),
            Screen::ProjectSessions { target, sessions } => render_project_sessions(
                target,
                sessions,
                order,
                if self.drill_cursor > order.len() {
                    order.len()
                } else {
                    self.drill_cursor
                },
                self.drill_filter.as_str(),
                cols,
                rows,
                now,
            ),
        }
    }

    /// The frame that shows the picker on a terminal of `cols` columns and
    /// `rows` lines.
    pub fn render(&self, lists: &Lists, cols: usize, rows: usize, now: Timestamp) -> (frame: Frame)
        ensures
            frame@ == picker_frame(
                self@,
                *lists,
                shown(self@, *lists, now),
                cols as int,
                rows as int,
                now,
            ),
    {
        let order = self.visible(lists, now);
        self.frame_of(lists, &order, cols, rows, now)
    }
}

/// What a row of keys makes of the picker: the state after the key that
/// ended the dialogue and the pick it ended with, or the state after the
/// last key where none ended it. Keys behind the one that ended it are not
/// read.
pub open spec fn played(
    pre: PickerView,
    lists: Lists,
    keys: Seq<KeyInput>,
    now: Timestamp,
) -> Stepped
    decreases keys.len(),
{
    if keys.len() == 0 {
        Stepped { state: pre, pick: None }
    } else {
        let next = step(pre, lists, keys[0], shown(pre, lists, now));
        if next.pick is Some {
            next
        } else {
            played(next.state, lists, keys.drop_first(), now)
        }
    }
}

/// Runs the picker from its start over a row of keys, and returns the state
/// it reached and the pick, if a key ended the dialogue.
pub fn pick_project(lists: &Lists, keys: &Vec<KeyInput>, now: Timestamp) -> (r: (
    Picker,
    Option<ProjectPick>,
))
    ensures
        (Stepped { state: r.0@, pick: r.1 }) == played(Picker::new_view(), *lists, keys@, now),
{
    let mut picker = Picker::new();
    let mut i: usize = 0;
    assert(keys@.skip(0) =~= keys@);
    while i < keys.len()
        invariant
            i <= keys.len(),
            played(Picker::new_view(), *lists, keys@, now) == played(
                picker@,
                *lists,
                keys@.skip(i as int),
                now,
            ),
        decreases keys.len() - i,
    {
        let ghost rest = keys@.skip(i as int);
        assert(rest[0] == keys@[i as int]);
        assert(rest.drop_first() =~= keys@.skip(i + 1));
        let pick = picker.handle_key(lists, keys[i], now);
        if pick.is_some() {
            return (picker, pick);
        }
        i += 1;
    }
    (picker, None)
}

} // verus!

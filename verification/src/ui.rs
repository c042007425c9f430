//! What the prompts and messages show: the actions on a target, the lines
//! that stand for the options, and commands written out for the user.

use crate::frame::minus;
use crate::projects::{target_line, ProjectTarget};
use crate::sessions::{line_without_path, session_line, SessionItem, SessionView};
use crate::text::{
    breaks_to_spaces, chars_of, head, head_of, join_words, join_words_of, opt_str, push_all,
    push_str, replace_char_in, same_text, string_of, string_views, texts_of,
};
use crate::timefmt::Timestamp;
use vstd::prelude::*;

verus! {

/// What can be done with a target.
#[derive(Debug, Clone, Copy, PartialEq, Eq, Structural)]
pub enum Action {
    NewSession,
    ResumeRecentForTarget,
    BrowseRecentGlobal,
    BrowseRecentAllGlobal,
    OpenConfig,
    Back,
}

impl Action {
    /// The text that offers the action.
    pub open spec fn label_text(self) -> Seq<char> {
        match self {
            Action::NewSession => "New Codex session"@,
            Action::ResumeRecentForTarget => "Resume a recent session for this folder"@,
            Action::BrowseRecentGlobal => "Browse recent sessions (scoped)"@,
            Action::BrowseRecentAllGlobal => "Browse recent sessions (all)"@,
            Action::OpenConfig => "Open config"@,
            Action::Back => "Back"@,
        }
    }

    /// The text that offers the action.
    pub fn label(self) -> (r: &'static str)
        ensures
            r@ == self.label_text(),
    {
        match self {
            Action::NewSession => "New Codex session",
            Action::ResumeRecentForTarget => "Resume a recent session for this folder",
            Action::BrowseRecentGlobal => "Browse recent sessions (scoped)",
            Action::BrowseRecentAllGlobal => "Browse recent sessions (all)",
            Action::OpenConfig => "Open config",
            Action::Back => "Back",
        }
    }

    /// The action that a text offers; any text that offers none means going
    /// back.
    pub open spec fn of_label(label: Seq<char>) -> Action {
        if label == Action::NewSession.label_text() {
            Action::NewSession
        } else if label == Action::ResumeRecentForTarget.label_text() {
            Action::ResumeRecentForTarget
        } else if label == Action::BrowseRecentGlobal.label_text() {
            Action::BrowseRecentGlobal
        } else if label == Action::BrowseRecentAllGlobal.label_text() {
            Action::BrowseRecentAllGlobal
        } else if label == Action::OpenConfig.label_text() {
            Action::OpenConfig
        } else {
            Action::Back
        }
    }

    /// The action that the picked text offers.
    pub fn from_label(label: &str) -> (r: Action)
        ensures
            r == Action::of_label(label@),
    {
        if same_text(label, Action::NewSession.label()) {
            Action::NewSession
        } else if same_text(label, Action::ResumeRecentForTarget.label()) {
            Action::ResumeRecentForTarget
        } else if same_text(label, Action::BrowseRecentGlobal.label()) {
            Action::BrowseRecentGlobal
        } else if same_text(label, Action::BrowseRecentAllGlobal.label()) {
            Action::BrowseRecentAllGlobal
        } else if same_text(label, Action::OpenConfig.label()) {
            Action::OpenConfig
        } else {
            Action::Back
        }
    }
}

/// The width to lay lines out for: that of the terminal, but no less than 60
/// and no more than 240 columns, and 120 where the terminal does not tell.
pub fn terminal_width(columns: Option<u16>) -> (r: usize)
    ensures
        r == match columns {
            Some(w) => if w < 60 {
                60
            } else if w > 240 {
                240
            } else {
                w as int
            },
            None => 120,
        },
{
    match columns {
        Some(w) => if w < 60 {
            60
        } else if w > 240 {
            240
        } else {
            w as usize
        },
        None => 120,
    }
}

/// How many options a prompt shows at once: all of them, 20 at most, and
/// one at least.
pub fn page_size(options: usize) -> (r: usize)
    ensures
        r == if options == 0 {
            1
        } else if options > 20 {
            20
        } else {
            options as int
        },
{
    if options == 0 {
        1
    } else if options > 20 {
        20
    } else {
        options
    }
}

/// An option line cut to the width of the prompt: line breaks turned into
/// spaces; where the line is longer than `max`, its first `max - 2`
/// characters and an ellipsis.
pub open spec fn fit(s: Seq<char>, max: int) -> Seq<char> {
    let flat = breaks_to_spaces(s);
    if flat.len() <= max {
        flat
    } else {
        head(flat, minus(max, 2)).push('…')
    }
}

fn fit_chars(v: &Vec<char>, max: usize) -> (out: Vec<char>)
    ensures
        out@ == fit(v@, max as int),
{
    let flat = replace_char_in(&replace_char_in(v, '\n', ' '), '\r', ' ');
    if flat.len() <= max {
        return flat;
    }
    let mut out = head_of(&flat, max.saturating_sub(2));
    out.push('…');
    out
}

/// Cuts an option line to the width of the prompt.
pub fn truncate_to_width(s: String, max_chars: usize) -> (r: String)
    ensures
        r@ == fit(s@, max_chars as int),
{
    string_of(&fit_chars(&chars_of(s.as_str()), max_chars))
}

/// The lines that offer the targets in a prompt of `width` columns.
pub fn target_option_lines(
    targets: &Vec<ProjectTarget>,
    width: usize,
    home: Option<&str>,
    now: Timestamp,
) -> (lines: Vec<String>)
    ensures
        lines.len() == targets.len(),
        forall|i: int|
            0 <= i < targets.len() ==> (#[trigger] lines@[i])@ == fit(
                target_line(targets@[i]@, opt_str(home), now),
                minus(width as int, 4),
            ),
{
    let max = width.saturating_sub(4);
    let mut lines: Vec<String> = Vec::new();
    let mut i: usize = 0;
    while i < targets.len()
        invariant
            i <= targets.len(),
            max == minus(width as int, 4),
            lines.len() == i,
            forall|k: int|
                0 <= k < i ==> (#[trigger] lines@[k])@ == fit(
                    target_line(targets@[k]@, opt_str(home), now),
                    max as int,
                ),
        decreases targets.len() - i,
    {
        lines.push(truncate_to_width(targets[i].display_line(home, now), max));
        i += 1;
    }
    lines
}

/// The line that offers a session: with its directory, or without it where
/// `hide_path` is set.
pub open spec fn session_option(
    s: SessionView,
    hide_path: bool,
    width: int,
    home: Option<Seq<char>>,
    now: Timestamp,
) -> Seq<char> {
    fit(
        if hide_path {
            line_without_path(s, now)
        } else {
            session_line(s, home, now)
        },
        minus(width, 4),
    )
}

/// The lines that offer the sessions in a prompt of `width` columns.
pub fn session_option_lines(
    items: &Vec<SessionItem>,
    hide_path: bool,
    width: usize,
    home: Option<&str>,
    now: Timestamp,
) -> (lines: Vec<String>)
    ensures
        lines.len() == items.len(),
        forall|i: int|
            0 <= i < items.len() ==> (#[trigger] lines@[i])@ == session_option(
                items@[i]@,
                hide_path,
                width as int,
                opt_str(home),
                now,
            ),
{
    let max = width.saturating_sub(4);
    let mut lines: Vec<String> = Vec::new();
    let mut i: usize = 0;
    while i < items.len()
        invariant
            i <= items.len(),
            max == minus(width as int, 4),
            lines.len() == i,
            forall|k: int|
                0 <= k < i ==> (#[trigger] lines@[k])@ == session_option(
                    items@[k]@,
                    hide_path,
                    width as int,
                    opt_str(home),
                    now,
                ),
        decreases items.len() - i,
    {
        let line = if hide_path {
            items[i].line_no_path(now)
        } else {
            items[i].display_line(home, now)
        };
        lines.push(truncate_to_width(line, max));
        i += 1;
    }
    lines
}

/// Whether a character needs no quoting in a shell: a letter or a digit of
/// ASCII, or one of `-`, `_`, `.`, `/`.
pub open spec fn is_shell_safe(c: char) -> bool {
    ('a' <= c && c <= 'z') || ('A' <= c && c <= 'Z') || ('0' <= c && c <= '9') || c == '-' || c
        == '_' || c == '.' || c == '/'
}

/// `s` with each single quote written so that it can stand between single
/// quotes: the quote is closed, an escaped quote is written, and the quote
/// is opened again.
pub open spec fn quotes_escaped(s: Seq<char>) -> Seq<char>
    decreases s.len(),
{
    if s.len() == 0 {
        s
    } else if s.last() == '\'' {
        quotes_escaped(s.drop_last()) + seq!['\'', '\\', '\'', '\'']
    } else {
        quotes_escaped(s.drop_last()).push(s.last())
    }
}

/// A word as it is written in a command line: the empty word as `''`, a word
/// of safe characters as it is, any other between single quotes.
pub open spec fn shell_escaped(s: Seq<char>) -> Seq<char> {
    if s.len() == 0 {
        seq!['\'', '\'']
    } else if forall|i: int| 0 <= i < s.len() ==> is_shell_safe(#[trigger] s[i]) {
        s
    } else {
        seq!['\''] + quotes_escaped(s) + seq!['\'']
    }
}

fn char_is_safe(c: char) -> (r: bool)
    ensures
        r == is_shell_safe(c),
{
    ('a' <= c && c <= 'z') || ('A' <= c && c <= 'Z') || ('0' <= c && c <= '9') || c == '-' || c
        == '_' || c == '.' || c == '/'
}

fn shell_escape_chars(v: &Vec<char>) -> (out: Vec<char>)
    ensures
        out@ == shell_escaped(v@),
{
    if v.len() == 0 {
        let mut out: Vec<char> = Vec::new();
        out.push('\'');
        out.push('\'');
        return out;
    }
    let mut safe = true;
    let mut i: usize = 0;
    while i < v.len()
        invariant
            i <= v.len(),
            safe == forall|k: int| 0 <= k < i ==> is_shell_safe(#[trigger] v@[k]),
        decreases v.len() - i,
    {
        if !char_is_safe(v[i]) {
            safe = false;
        }
        i += 1;
    }
    if safe {
        return head_of(v, v.len());
    }
    let mut out: Vec<char> = Vec::new();
    out.push('\'');
    let mut j: usize = 0;
    assert(v@.take(0) =~= Seq::<char>::empty());
    while j < v.len()
        invariant
            j <= v.len(),
            out@ == seq!['\''] + quotes_escaped(v@.take(j as int)),
        decreases v.len() - j,
    {
        proof {
            let pre = v@.take(j + 1);
            assert(pre.drop_last() =~= v@.take(j as int));
            assert(pre.last() == v@[j as int]);
        }
        let ghost before = out@;
        if v[j] == '\'' {
            out.push('\'');
            out.push('\\');
            out.push('\'');
            out.push('\'');
            assert(out@ =~= before + seq!['\'', '\\', '\'', '\'']);
        } else {
            out.push(v[j]);
        }
        assert(out@ =~= seq!['\''] + quotes_escaped(v@.take(j + 1)));
        j += 1;
    }
    assert(v@.take(v.len() as int) =~= v@);
    out.push('\'');
    out
}

/// A word as it is written in a command line, quoted where the shell needs
/// it.
pub fn shell_escape(s: &str) -> (r: String)
    ensures
        r@ == shell_escaped(s@),
{
    string_of(&shell_escape_chars(&chars_of(s)))
}

/// The arguments as they are written in a command line.
pub open spec fn escaped_words(args: Seq<Seq<char>>) -> Seq<Seq<char>> {
    Seq::new(args.len(), |i: int| shell_escaped(args[i]))
}

/// A command as it is shown to the user: the program and its arguments,
/// quoted where the shell needs it; where the command runs in a directory of
/// its own, between `(cd ` the directory ` && ` and `)`.
pub open spec fn command_text(
    program: Seq<char>,
    args: Seq<Seq<char>>,
    dir: Option<Seq<char>>,
) -> Seq<char> {
    let base = if args.len() == 0 {
        program
    } else {
        program + seq![' '] + join_words(escaped_words(args))
    };
    match dir {
        Some(d) => "(cd "@ + d + " && "@ + base + seq![')'],
        None => base,
    }
}

/// Writes a command out for the user.
pub fn format_command(program: &str, args: &Vec<String>, dir: Option<&str>) -> (r: String)
    ensures
        r@ == command_text(program@, string_views(args@), opt_str(dir)),
{
    let ghost wanted = escaped_words(string_views(args@));
    let mut words: Vec<Vec<char>> = Vec::new();
    let mut i: usize = 0;
    assert(texts_of(words@) =~= wanted.take(0));
    while i < args.len()
        invariant
            i <= args.len(),
            wanted == escaped_words(string_views(args@)),
            texts_of(words@) == wanted.take(i as int),
        decreases args.len() - i,
    {
        let ghost before = words@;
        words.push(shell_escape_chars(&chars_of(args[i].as_str())));
        assert(string_views(args@)[i as int] == args@[i as int]@);
        assert(texts_of(words@) =~= texts_of(before).push(wanted[i as int]));
        assert(wanted.take(i + 1) =~= wanted.take(i as int).push(wanted[i as int]));
        i += 1;
    }
    assert(wanted.take(args.len() as int) =~= wanted);
    let mut base = chars_of(program);
    if args.len() > 0 {
        base.push(' ');
        let joined = join_words_of(&words);
        push_all(&mut base, &joined);
    }
    match dir {
        Some(d) => {
            let mut out = chars_of("(cd ");
            push_str(&mut out, d);
            push_str(&mut out, " && ");
            push_all(&mut out, &base);
            out.push(')');
            string_of(&out)
        },
        None => string_of(&base),
    }
}

} // verus!

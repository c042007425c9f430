//! Paths as text. A path is held as a `String`; what only `std::path` knows
//! (components, parents, the order of paths) is asked of it and known here by
//! name.

use crate::text::{
    chars_of, opt_str, opt_text, push_all, same_chars, slice_chars, starts_with_chars, string_of,
};
use vstd::prelude::*;

verus! {

/// The final component of a path, as `Path::file_name` gives it.
pub uninterp spec fn file_name_of(path: Seq<char>) -> Option<Seq<char>>;

/// The path without its final component, as `Path::parent` gives it.
pub uninterp spec fn parent_of(path: Seq<char>) -> Option<Seq<char>>;

/// A path extended by another, as `Path::join` gives it.
pub uninterp spec fn joined(base: Seq<char>, child: Seq<char>) -> Seq<char>;

/// Whether `base` is a prefix of `path`, component by component, as
/// `Path::starts_with` decides it.
pub uninterp spec fn path_within(path: Seq<char>, base: Seq<char>) -> bool;

/// Whether two paths have the same components, as `==` on `Path` decides it.
pub uninterp spec fn same_path(a: Seq<char>, b: Seq<char>) -> bool;

/// Whether `a` sorts before `b` in the order of `Path`.
pub uninterp spec fn path_before(a: Seq<char>, b: Seq<char>) -> bool;

/// `Path::file_name`: the final component of `path`, where it has one.
#[verifier::external_body]
pub(crate) fn path_file_name(path: &str) -> (r: Option<String>)
    ensures
        opt_text(r) == file_name_of(path@),
{
    std::path::Path::new(path).file_name().map(|s| s.to_string_lossy().to_string())
}

/// `Path::parent`: `path` without its final component, where it has one.
#[verifier::external_body]
pub(crate) fn path_parent(path: &str) -> (r: Option<String>)
    ensures
        opt_text(r) == parent_of(path@),
{
    std::path::Path::new(path).parent().map(|p| p.to_string_lossy().to_string())
}

/// `Path::join`: `base` extended by `child`.
#[verifier::external_body]
pub(crate) fn path_join(base: &str, child: &str) -> (r: String)
    ensures
        r@ == joined(base@, child@),
{
    std::path::Path::new(base).join(child).to_string_lossy().to_string()
}

/// `Path::starts_with`: whether `base` is a prefix of `path` by whole
/// components.
#[verifier::external_body]
pub(crate) fn path_starts_with(path: &str, base: &str) -> (r: bool)
    ensures
        r == path_within(path@, base@),
{
    std::path::Path::new(path).starts_with(base)
}

/// `==` on `Path`: whether the two paths have the same components.
#[verifier::external_body]
pub(crate) fn path_eq(a: &str, b: &str) -> (r: bool)
    ensures
        r == same_path(a@, b@),
{
    std::path::Path::new(a) == std::path::Path::new(b)
}

/// `<` on `Path`: whether `a` sorts before `b`.
#[verifier::external_body]
pub(crate) fn path_lt(a: &str, b: &str) -> (r: bool)
    ensures
        r == path_before(a@, b@),
{
    std::path::Path::new(a) < std::path::Path::new(b)
}

/// The name to show for a path: its final component, or the whole path where
/// it has none.
pub open spec fn basename_of(path: Seq<char>) -> Seq<char> {
    match file_name_of(path) {
        Some(name) => name,
        None => path,
    }
}

/// The name to show for `path`: its final component, or the whole path where
/// it has none (the root, or a path that ends in `..`).
pub fn basename(path: &str) -> (r: String)
    ensures
        r@ == basename_of(path@),
{
    match path_file_name(path) {
        Some(name) => name,
        None => string_of(&chars_of(path)),
    }
}

/// `s` with the home directory written as `~`: the home itself becomes `~`,
/// a path below it `~/` and the rest.
pub open spec fn elide_home(s: Seq<char>, home: Option<Seq<char>>) -> Seq<char> {
    match home {
        None => s,
        Some(h) => if s == h {
            seq!['~']
        } else if (h + seq!['/']).is_prefix_of(s) {
            seq!['~', '/'] + s.skip(h.len() as int + 1)
        } else {
            s
        },
    }
}

/// `s` where it fits into `max` characters; else an ellipsis and the last
/// `max - 3` characters of `s`.
pub open spec fn keep_tail(s: Seq<char>, max: int) -> Seq<char> {
    if s.len() <= max {
        s
    } else if max <= 3 {
        seq!['…']
    } else {
        seq!['…'] + s.skip(s.len() - (max - 3))
    }
}

/// A path as it is shown in a list row.
pub open spec fn compact(path: Seq<char>, max: int, home: Option<Seq<char>>) -> Seq<char> {
    keep_tail(elide_home(path, home), max)
}

fn elide_home_chars(s: Vec<char>, home: Option<&str>) -> (out: Vec<char>)
    ensures
        out@ == elide_home(s@, opt_str(home)),
{
    match home {
        None => s,
        Some(h) => {
            let mut prefix = chars_of(h);
            if same_chars(&s, &prefix) {
                let mut out: Vec<char> = Vec::new();
                out.push('~');
                return out;
            }
            prefix.push('/');
            assert(prefix@ == h@ + seq!['/']);
            if starts_with_chars(&s, &prefix) {
                let mut out: Vec<char> = Vec::new();
                out.push('~');
                out.push('/');
                let rest = slice_chars(&s, prefix.len(), s.len());
                push_all(&mut out, &rest);
                assert(s@.subrange(prefix.len() as int, s.len() as int) == s@.skip(
                    h@.len() as int + 1,
                ));
                return out;
            }
            s
        },
    }
}

fn keep_tail_chars(s: Vec<char>, max: usize) -> (out: Vec<char>)
    ensures
        out@ == keep_tail(s@, max as int),
{
    if s.len() <= max {
        return s;
    }
    let mut out: Vec<char> = Vec::new();
    out.push('…');
    if max > 3 {
        let k: usize = max - 3;
        let rest = slice_chars(&s, s.len() - k, s.len());
        push_all(&mut out, &rest);
        assert(s@.subrange(s.len() - k, s.len() as int) == s@.skip(s.len() - (max - 3)));
    }
    out
}

/// A path as it is shown in a list row: the home directory written as `~`,
/// and where the text is longer than `max_chars`, its head cut off and
/// replaced by an ellipsis.
pub fn compact_path(path: &str, max_chars: usize, home: Option<&str>) -> (r: String)
    ensures
        r@ == compact(path@, max_chars as int, opt_str(home)),
{
    let s = elide_home_chars(chars_of(path), home);
    let t = keep_tail_chars(s, max_chars);
    string_of(&t)
}

} // verus!

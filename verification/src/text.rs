//! Character sequences: the text primitives that the rest of the library is
//! stated over. Every contract speaks of a string through its view, a
//! `Seq<char>`; the executable code works on `Vec<char>` and converts at the
//! edges.

use vstd::prelude::*;
use vstd::string::*;

verus! {

/// What `str::to_lowercase` makes of a text.
pub uninterp spec fn lowercase_of(s: Seq<char>) -> Seq<char>;

/// Whether `c` is white space: one of the characters with the Unicode
/// property `White_Space`.
pub open spec fn white_space(c: char) -> bool {
    let n = c as int;
    ||| 0x09 <= n <= 0x0D
    ||| n == 0x20
    ||| n == 0x85
    ||| n == 0xA0
    ||| n == 0x1680
    ||| 0x2000 <= n <= 0x200A
    ||| n == 0x2028
    ||| n == 0x2029
    ||| n == 0x202F
    ||| n == 0x205F
    ||| n == 0x3000
}

/// Whether `c` is white space.
pub fn is_whitespace(c: char) -> (r: bool)
    ensures
        r == white_space(c),
{
    let n: u32 = c as u32;
    (0x09 <= n && n <= 0x0D) || n == 0x20 || n == 0x85 || n == 0xA0 || n == 0x1680 || (0x2000 <= n
        && n <= 0x200A) || n == 0x2028 || n == 0x2029 || n == 0x202F || n == 0x205F || n == 0x3000
}

/// `str::to_lowercase`: the result is the lowercase form of `s`, known to the
/// library by the name `lowercase_of`.
#[verifier::external_body]
pub(crate) fn to_lowercase(s: &str) -> (r: String)
    ensures
        r@ == lowercase_of(s@),
{
    s.to_lowercase()
}

/// `String::from_iter` over the characters of `v`: the string that holds
/// exactly these characters, in this order.
#[verifier::external_body]
pub(crate) fn string_of(v: &Vec<char>) -> (r: String)
    ensures
        r@ == v@,
{
    String::from_iter(v.iter())
}

/// The text of an optional string.
pub open spec fn opt_text(o: Option<String>) -> Option<Seq<char>> {
    match o {
        Some(s) => Some(s@),
        None => None,
    }
}

/// The text of an optional string slice.
pub open spec fn opt_str(o: Option<&str>) -> Option<Seq<char>> {
    match o {
        Some(s) => Some(s@),
        None => None,
    }
}

/// The texts of a list of strings.
pub open spec fn string_views(rows: Seq<String>) -> Seq<Seq<char>> {
    rows.map_values(|s: String| s@)
}

/// The characters of `s`, in order.
pub fn chars_of(s: &str) -> (out: Vec<char>)
    ensures
        out@ == s@,
{
    let mut out: Vec<char> = Vec::new();
    for c in it: s.chars()
        invariant
            out@ == it.seq().take(it.index()),
            it.seq() == s@,
    {
        out.push(c);
    }
    out
}

/// Whether two strings hold the same characters.
pub fn same_text(a: &str, b: &str) -> (r: bool)
    ensures
        r == (a@ == b@),
{
    let x = chars_of(a);
    let y = chars_of(b);
    same_chars(&x, &y)
}

/// Whether two character vectors are equal.
pub fn same_chars(a: &Vec<char>, b: &Vec<char>) -> (r: bool)
    ensures
        r == (a@ == b@),
{
    if a.len() != b.len() {
        return false;
    }
    let mut i: usize = 0;
    while i < a.len()
        invariant
            i <= a.len(),
            a.len() == b.len(),
            a@.take(i as int) == b@.take(i as int),
        decreases a.len() - i,
    {
        if a[i] != b[i] {
            assert(a@[i as int] != b@[i as int]);
            return false;
        }
        assert(a@.take(i + 1) == a@.take(i as int).push(a@[i as int]));
        assert(b@.take(i + 1) == b@.take(i as int).push(b@[i as int]));
        i += 1;
    }
    assert(a@ == a@.take(a.len() as int));
    assert(b@ == b@.take(b.len() as int));
    true
}

/// The elements of `v` from `from` up to `to`.
pub(crate) fn slice_chars(v: &Vec<char>, from: usize, to: usize) -> (out: Vec<char>)
    requires
        from <= to <= v.len(),
    ensures
        out@ == v@.subrange(from as int, to as int),
{
    let mut out: Vec<char> = Vec::new();
    let mut i: usize = from;
    while i < to
        invariant
            from <= i <= to <= v.len(),
            out@ == v@.subrange(from as int, i as int),
        decreases to - i,
    {
        out.push(v[i]);
        assert(v@.subrange(from as int, i + 1) == v@.subrange(from as int, i as int).push(
            v@[i as int],
        ));
        i += 1;
    }
    out
}

/// Appends the characters of `tail` to `out`.
pub fn push_all(out: &mut Vec<char>, tail: &Vec<char>)
    ensures
        final(out)@ == old(out)@ + tail@,
{
    let mut i: usize = 0;
    while i < tail.len()
        invariant
            i <= tail.len(),
            out@ == old(out)@ + tail@.take(i as int),
        decreases tail.len() - i,
    {
        out.push(tail[i]);
        assert(tail@.take(i + 1) == tail@.take(i as int).push(tail@[i as int]));
        i += 1;
    }
    assert(tail@.take(tail.len() as int) == tail@);
}

/// Appends the characters of the string `tail` to `out`.
pub fn push_str(out: &mut Vec<char>, tail: &str)
    ensures
        final(out)@ == old(out)@ + tail@,
{
    let t = chars_of(tail);
    push_all(out, &t);
}

/// How many characters at the front of `s` are white space.
pub open spec fn leading_blank(s: Seq<char>) -> nat
    decreases s.len(),
{
    if s.len() > 0 && white_space(s.first()) {
        1 + leading_blank(s.drop_first())
    } else {
        0
    }
}

/// How many characters at the back of `s` are white space.
pub open spec fn trailing_blank(s: Seq<char>) -> nat
    decreases s.len(),
{
    if s.len() > 0 && white_space(s.last()) {
        1 + trailing_blank(s.drop_last())
    } else {
        0
    }
}

/// `s` without its leading white space.
pub open spec fn trim_start(s: Seq<char>) -> Seq<char> {
    s.skip(leading_blank(s) as int)
}

/// `s` without its trailing white space.
pub open spec fn trim_end(s: Seq<char>) -> Seq<char> {
    s.take(s.len() - trailing_blank(s))
}

/// `s` without white space at either end.
pub open spec fn trim(s: Seq<char>) -> Seq<char> {
    trim_end(trim_start(s))
}

/// Whether `s` holds nothing but white space.
pub open spec fn is_blank(s: Seq<char>) -> bool {
    trim(s).len() == 0
}

/// The number of leading white space characters of `v`.
pub fn count_leading_blank(v: &Vec<char>) -> (k: usize)
    ensures
        k == leading_blank(v@),
        k <= v.len(),
{
    let mut i: usize = 0;
    assert(v@.skip(0) == v@);
    while i < v.len() && is_whitespace(v[i])
        invariant
            i <= v.len(),
            leading_blank(v@) == i + leading_blank(v@.skip(i as int)),
        decreases v.len() - i,
    {
        proof {
            let rest = v@.skip(i as int);
            assert(rest.first() == v@[i as int]);
            assert(rest.drop_first() == v@.skip(i + 1));
        }
        i += 1;
    }
    proof {
        let rest = v@.skip(i as int);
        if i < v.len() {
            assert(rest.first() == v@[i as int]);
        }
    }
    i
}

/// The number of trailing white space characters of `v`.
pub fn count_trailing_blank(v: &Vec<char>) -> (k: usize)
    ensures
        k == trailing_blank(v@),
        k <= v.len(),
{
    let n: usize = v.len();
    let mut k: usize = 0;
    assert(v@.take(n as int) == v@);
    while k < n && is_whitespace(v[n - 1 - k])
        invariant
            k <= n,
            n == v.len(),
            trailing_blank(v@) == k + trailing_blank(v@.take(n - k)),
        decreases n - k,
    {
        proof {
            let rest = v@.take(n - k);
            assert(rest.last() == v@[n - 1 - k]);
            assert(rest.drop_last() == v@.take(n - (k + 1)));
        }
        k += 1;
    }
    proof {
        let rest = v@.take(n - k);
        if k < n {
            assert(rest.last() == v@[n - 1 - k]);
        }
        assert(v@.take(n as int) == v@);
    }
    k
}

/// `v` without its leading white space.
pub fn trim_start_chars(v: &Vec<char>) -> (out: Vec<char>)
    ensures
        out@ == trim_start(v@),
{
    let k = count_leading_blank(v);
    slice_chars(v, k, v.len())
}

/// `v` without white space at either end.
pub fn trim_chars(v: &Vec<char>) -> (out: Vec<char>)
    ensures
        out@ == trim(v@),
{
    let front = trim_start_chars(v);
    let k = count_trailing_blank(&front);
    slice_chars(&front, 0, front.len() - k)
}

/// `s` without white space at either end.
pub fn trim_text(s: &str) -> (out: String)
    ensures
        out@ == trim(s@),
{
    let v = chars_of(s);
    let t = trim_chars(&v);
    string_of(&t)
}

/// Whether `v` holds nothing but white space.
pub fn is_blank_chars(v: &Vec<char>) -> (r: bool)
    ensures
        r == is_blank(v@),
{
    let t = trim_chars(v);
    t.len() == 0
}

/// Whether `s` begins with `prefix`.
pub fn starts_with_chars(s: &Vec<char>, prefix: &Vec<char>) -> (r: bool)
    ensures
        r == prefix@.is_prefix_of(s@),
{
    if prefix.len() > s.len() {
        return false;
    }
    let head = slice_chars(s, 0, prefix.len());
    same_chars(&head, prefix)
}

/// Whether `s` ends with `suffix`.
pub fn ends_with_chars(s: &Vec<char>, suffix: &Vec<char>) -> (r: bool)
    ensures
        r == suffix@.is_suffix_of(s@),
{
    if suffix.len() > s.len() {
        return false;
    }
    let tail = slice_chars(s, s.len() - suffix.len(), s.len());
    same_chars(&tail, suffix)
}

/// Whether `needle` occurs in `s` at position `at`.
pub open spec fn occurs_at(s: Seq<char>, needle: Seq<char>, at: int) -> bool {
    0 <= at && at + needle.len() <= s.len() && s.subrange(at, at + needle.len()) == needle
}

/// Whether `needle` occurs somewhere in `s`.
pub open spec fn contains_text(s: Seq<char>, needle: Seq<char>) -> bool {
    exists|at: int| occurs_at(s, needle, at)
}

/// Whether `needle` occurs somewhere in `s`.
pub fn contains_chars(s: &Vec<char>, needle: &Vec<char>) -> (r: bool)
    ensures
        r == contains_text(s@, needle@),
{
    if needle.len() > s.len() {
        assert(forall|at: int| !occurs_at(s@, needle@, at));
        return false;
    }
    let last: usize = s.len() - needle.len();
    let mut at: usize = 0;
    loop
        invariant
            at <= last,
            last == s.len() - needle.len(),
            forall|k: int| 0 <= k < at ==> !occurs_at(s@, needle@, k),
        decreases last - at,
    {
        let part = slice_chars(s, at, at + needle.len());
        if same_chars(&part, needle) {
            assert(occurs_at(s@, needle@, at as int));
            return true;
        }
        if at == last {
            assert(forall|k: int| !occurs_at(s@, needle@, k));
            return false;
        }
        at += 1;
    }
}

/// `s` with every `from` turned into `to`.
pub open spec fn replace_char(s: Seq<char>, from: char, to: char) -> Seq<char> {
    Seq::new(
        s.len(),
        |i: int|
            if s[i] == from {
                to
            } else {
                s[i]
            },
    )
}

/// `v` with every `from` turned into `to`.
pub fn replace_char_in(v: &Vec<char>, from: char, to: char) -> (out: Vec<char>)
    ensures
        out@ == replace_char(v@, from, to),
{
    let mut out: Vec<char> = Vec::new();
    let mut i: usize = 0;
    while i < v.len()
        invariant
            i <= v.len(),
            out@ == replace_char(v@, from, to).take(i as int),
        decreases v.len() - i,
    {
        let c = v[i];
        out.push(if c == from { to } else { c });
        assert(replace_char(v@, from, to).take(i + 1) == replace_char(v@, from, to).take(
            i as int,
        ).push(replace_char(v@, from, to)[i as int]));
        i += 1;
    }
    assert(replace_char(v@, from, to).take(v.len() as int) == replace_char(v@, from, to));
    out
}

/// `s` with every line break (`\n` or `\r`) turned into a space.
pub open spec fn breaks_to_spaces(s: Seq<char>) -> Seq<char> {
    replace_char(replace_char(s, '\n', ' '), '\r', ' ')
}

/// `s` with every line ending (`\r\n`, or a `\r` alone) turned into `\n`.
pub open spec fn unix_line_ends(s: Seq<char>) -> Seq<char>
    decreases s.len(),
{
    if s.len() == 0 {
        s
    } else if s[0] == '\r' && s.len() > 1 && s[1] == '\n' {
        seq!['\n'] + unix_line_ends(s.skip(2))
    } else if s[0] == '\r' {
        seq!['\n'] + unix_line_ends(s.skip(1))
    } else {
        seq![s[0]] + unix_line_ends(s.skip(1))
    }
}

/// `v` with every line ending (`\r\n`, or a `\r` alone) turned into `\n`.
pub fn unix_line_ends_in(v: &Vec<char>) -> (out: Vec<char>)
    ensures
        out@ == unix_line_ends(v@),
{
    let mut out: Vec<char> = Vec::new();
    let mut i: usize = 0;
    assert(v@.skip(0) == v@);
    assert(Seq::<char>::empty() + unix_line_ends(v@) == unix_line_ends(v@));
    while i < v.len()
        invariant
            i <= v.len(),
            unix_line_ends(v@) == out@ + unix_line_ends(v@.skip(i as int)),
        decreases v.len() - i,
    {
        let ghost rest = v@.skip(i as int);
        let ghost before = out@;
        let c = v[i];
        assert(rest[0] == c);
        if c == '\r' && i + 1 < v.len() && v[i + 1] == '\n' {
            assert(rest[1] == v@[i + 1]);
            assert(rest.skip(2) == v@.skip(i + 2));
            out.push('\n');
            assert(out@ + unix_line_ends(v@.skip(i + 2)) == before + (seq!['\n']
                + unix_line_ends(rest.skip(2))));
            i += 2;
        } else if c == '\r' {
            assert(rest.skip(1) == v@.skip(i + 1));
            if i + 1 < v.len() {
                assert(rest[1] == v@[i + 1]);
            }
            out.push('\n');
            assert(out@ + unix_line_ends(v@.skip(i + 1)) == before + (seq!['\n']
                + unix_line_ends(rest.skip(1))));
            i += 1;
        } else {
            assert(rest.skip(1) == v@.skip(i + 1));
            out.push(c);
            assert(out@ + unix_line_ends(v@.skip(i + 1)) == before + (seq![c] + unix_line_ends(
                rest.skip(1),
            )));
            i += 1;
        }
    }
    assert(v@.skip(v.len() as int).len() == 0);
    assert(out@ + Seq::<char>::empty() == out@);
    out
}

/// Where the first line of `s` ends: the place of its first `\n`, or its
/// length.
pub open spec fn line_end(s: Seq<char>) -> nat
    decreases s.len(),
{
    if s.len() == 0 || s.first() == '\n' {
        0
    } else {
        1 + line_end(s.drop_first())
    }
}

/// The first line of `s` that holds more than white space, or the empty text
/// where there is none. Lines are parted by `\n`.
pub open spec fn first_content_line(s: Seq<char>) -> Seq<char>
    decreases s.len(),
{
    let e = line_end(s) as int;
    if e > s.len() {
        Seq::empty()
    } else if !is_blank(s.take(e)) {
        s.take(e)
    } else if e >= s.len() {
        Seq::empty()
    } else {
        first_content_line(s.skip(e + 1))
    }
}

/// Where the line that starts at `from` ends.
fn find_line_end(v: &Vec<char>, from: usize) -> (e: usize)
    requires
        from <= v.len(),
    ensures
        from <= e <= v.len(),
        e - from == line_end(v@.skip(from as int)),
{
    let mut e: usize = from;
    while e < v.len() && v[e] != '\n'
        invariant
            from <= e <= v.len(),
            line_end(v@.skip(from as int)) == (e - from) + line_end(v@.skip(e as int)),
        decreases v.len() - e,
    {
        proof {
            let rest = v@.skip(e as int);
            assert(rest.first() == v@[e as int]);
            assert(rest.drop_first() == v@.skip(e + 1));
        }
        e += 1;
    }
    proof {
        let rest = v@.skip(e as int);
        if e < v.len() {
            assert(rest.first() == v@[e as int]);
        }
    }
    e
}

/// The first line of `v` that holds more than white space, or the empty text
/// where there is none.
pub fn first_content_line_of(v: &Vec<char>) -> (out: Vec<char>)
    ensures
        out@ == first_content_line(v@),
{
    let mut from: usize = 0;
    assert(v@.skip(0) == v@);
    loop
        invariant
            from <= v.len(),
            first_content_line(v@) == first_content_line(v@.skip(from as int)),
        decreases v.len() - from,
    {
        let e = find_line_end(v, from);
        let line = slice_chars(v, from, e);
        proof {
            let rest = v@.skip(from as int);
            assert(rest.take(e - from) == v@.subrange(from as int, e as int));
            if e < v.len() {
                assert(rest.skip(e - from + 1) == v@.skip(e + 1));
            }
        }
        if !is_blank_chars(&line) {
            return line;
        }
        if e >= v.len() {
            return Vec::new();
        }
        from = e + 1;
    }
}

/// The texts of `parts` in a row, with a space between each two.
pub open spec fn join_words(parts: Seq<Seq<char>>) -> Seq<char>
    decreases parts.len(),
{
    if parts.len() == 0 {
        Seq::empty()
    } else if parts.len() == 1 {
        parts[0]
    } else {
        join_words(parts.drop_last()) + seq![' '] + parts.last()
    }
}

/// The texts that `parts` holds.
pub open spec fn texts_of(parts: Seq<Vec<char>>) -> Seq<Seq<char>> {
    parts.map_values(|p: Vec<char>| p@)
}

/// The texts of `parts` in a row, with a space between each two.
pub fn join_words_of(parts: &Vec<Vec<char>>) -> (out: Vec<char>)
    ensures
        out@ == join_words(texts_of(parts@)),
{
    let mut out: Vec<char> = Vec::new();
    let mut i: usize = 0;
    let ghost all = texts_of(parts@);
    while i < parts.len()
        invariant
            i <= parts.len(),
            all == texts_of(parts@),
            out@ == join_words(all.take(i as int)),
        decreases parts.len() - i,
    {
        if i > 0 {
            out.push(' ');
        }
        push_all(&mut out, &parts[i]);
        proof {
            let pre = all.take(i + 1);
            assert(pre.drop_last() == all.take(i as int));
            assert(pre.last() == parts@[i as int]@);
            if i == 0 {
                assert(Seq::<char>::empty() + parts@[i as int]@ == parts@[i as int]@);
            }
        }
        i += 1;
    }
    assert(all.take(parts.len() as int) == all);
    out
}

/// Two spaces: what parts the fields of a row.
pub open spec fn gap() -> Seq<char> {
    seq![' ', ' ']
}

/// `row` with `field` after a gap; `row` alone where the field is empty.
pub open spec fn with_field(row: Seq<char>, field: Seq<char>) -> Seq<char> {
    if field.len() == 0 {
        row
    } else {
        row + gap() + field
    }
}

/// Appends two spaces to `out`.
pub fn push_gap(out: &mut Vec<char>)
    ensures
        final(out)@ == old(out)@ + gap(),
{
    out.push(' ');
    out.push(' ');
    assert(out@ == old(out)@ + gap());
}

/// Appends `field` to `out` after a gap, or nothing where the field is empty.
pub fn push_field(out: &mut Vec<char>, field: &Vec<char>)
    ensures
        final(out)@ == with_field(old(out)@, field@),
{
    if field.len() > 0 {
        push_gap(out);
        push_all(out, field);
    }
}

/// The texts that are present among `parts`, in their order.
pub open spec fn some_texts(parts: Seq<Option<Seq<char>>>) -> Seq<Seq<char>>
    decreases parts.len(),
{
    if parts.len() == 0 {
        Seq::empty()
    } else {
        match parts.last() {
            Some(t) => some_texts(parts.drop_last()).push(t),
            None => some_texts(parts.drop_last()),
        }
    }
}

/// Appends the text of `o` to `parts` where it is present.
pub(crate) fn push_present(
    parts: &mut Vec<Vec<char>>,
    o: &Option<String>,
    Ghost(seen): Ghost<Seq<Option<Seq<char>>>>,
)
    requires
        texts_of(old(parts)@) == some_texts(seen),
    ensures
        texts_of(final(parts)@) == some_texts(seen.push(opt_text(*o))),
{
    assert(seen.push(opt_text(*o)).drop_last() == seen);
    if let Some(t) = o {
        parts.push(chars_of(t.as_str()));
        assert(texts_of(parts@) == texts_of(old(parts)@).push(t@));
    }
}

/// The bracketed tags at the end of a row: nothing where there is no tag.
pub open spec fn meta_text(words: Seq<Seq<char>>) -> Seq<char> {
    if words.len() == 0 {
        Seq::empty()
    } else {
        seq![' ', ' ', '['] + join_words(words) + seq![']']
    }
}

/// The bracketed tags at the end of a row, as characters.
pub fn meta_chars(parts: &Vec<Vec<char>>) -> (out: Vec<char>)
    ensures
        out@ == meta_text(texts_of(parts@)),
{
    let mut out: Vec<char> = Vec::new();
    if parts.len() == 0 {
        return out;
    }
    out.push(' ');
    out.push(' ');
    out.push('[');
    let words = join_words_of(parts);
    push_all(&mut out, &words);
    out.push(']');
    out
}

/// A copy of an optional string.
pub fn copy_opt(o: &Option<String>) -> (r: Option<String>)
    ensures
        r == *o,
{
    match o {
        Some(s) => Some(s.clone()),
        None => None,
    }
}

/// The first `n` characters of `s`, or all of it where it is shorter.
pub open spec fn head(s: Seq<char>, n: int) -> Seq<char> {
    if n <= 0 {
        Seq::empty()
    } else if n >= s.len() {
        s
    } else {
        s.take(n)
    }
}

/// The first `n` characters of `v`, or all of it where it is shorter.
pub fn head_of(v: &Vec<char>, n: usize) -> (out: Vec<char>)
    ensures
        out@ == head(v@, n as int),
{
    let m: usize = if n < v.len() { n } else { v.len() };
    let out = slice_chars(v, 0, m);
    assert(v@.subrange(0, v.len() as int) == v@);
    out
}

/// `s` cut to `max` characters: unchanged where it fits, else its first
/// `max - 1` characters and an ellipsis.
pub open spec fn ellipsize(s: Seq<char>, max: int) -> Seq<char> {
    if s.len() <= max {
        s
    } else {
        head(s, max - 1).push('…')
    }
}

/// `v` cut to `max` characters, with an ellipsis where something was cut.
pub fn ellipsize_chars(v: Vec<char>, max: usize) -> (out: Vec<char>)
    ensures
        out@ == ellipsize(v@, max as int),
{
    if v.len() <= max {
        return v;
    }
    let keep: usize = if max == 0 { 0 } else { max - 1 };
    let mut out = head_of(&v, keep);
    out.push('…');
    out
}

/// `s` filled up with spaces at its end to `width` characters; unchanged where
/// it is that long already.
pub open spec fn pad_right(s: Seq<char>, width: int) -> Seq<char> {
    if s.len() >= width {
        s
    } else {
        s + Seq::new((width - s.len()) as nat, |i: int| ' ')
    }
}

/// Fills `v` up with spaces at its end to `width` characters.
pub fn pad_right_chars(v: Vec<char>, width: usize) -> (out: Vec<char>)
    ensures
        out@ == pad_right(v@, width as int),
{
    let mut out = v;
    let ghost start = out@;
    if out.len() >= width {
        return out;
    }
    while out.len() < width
        invariant
            start.len() <= out.len() <= width,
            out@ == start + Seq::new((out.len() - start.len()) as nat, |i: int| ' '),
        decreases width - out.len(),
    {
        let ghost before = out@;
        out.push(' ');
        assert(out@ == start + Seq::new((out.len() - start.len()) as nat, |i: int| ' '));
    }
    out
}

/// The character of the decimal digit `d`.
pub open spec fn digit_char(d: int) -> char {
    if d == 0 {
        '0'
    } else if d == 1 {
        '1'
    } else if d == 2 {
        '2'
    } else if d == 3 {
        '3'
    } else if d == 4 {
        '4'
    } else if d == 5 {
        '5'
    } else if d == 6 {
        '6'
    } else if d == 7 {
        '7'
    } else if d == 8 {
        '8'
    } else {
        '9'
    }
}

/// `n` written in decimal, without leading zeros.
pub open spec fn decimal(n: nat) -> Seq<char>
    decreases n,
{
    if n < 10 {
        seq![digit_char(n as int)]
    } else {
        decimal(n / 10).push(digit_char((n % 10) as int))
    }
}

fn digit_of(d: u64) -> (c: char)
    requires
        d < 10,
    ensures
        c == digit_char(d as int),
{
    if d == 0 {
        '0'
    } else if d == 1 {
        '1'
    } else if d == 2 {
        '2'
    } else if d == 3 {
        '3'
    } else if d == 4 {
        '4'
    } else if d == 5 {
        '5'
    } else if d == 6 {
        '6'
    } else if d == 7 {
        '7'
    } else if d == 8 {
        '8'
    } else {
        '9'
    }
}

/// `n` written in decimal, without leading zeros.
pub fn decimal_chars(n: u64) -> (out: Vec<char>)
    ensures
        out@ == decimal(n as nat),
    decreases n,
{
    if n < 10 {
        let mut out: Vec<char> = Vec::new();
        out.push(digit_of(n));
        out
    } else {
        let mut out = decimal_chars(n / 10);
        out.push(digit_of(n % 10));
        out
    }
}

/// `n` written in decimal with at least two digits.
pub open spec fn two_digits(n: nat) -> Seq<char> {
    if n < 10 {
        seq!['0'] + decimal(n)
    } else {
        decimal(n)
    }
}

/// `n` written in decimal with at least two digits.
pub fn two_digit_chars(n: u64) -> (out: Vec<char>)
    ensures
        out@ == two_digits(n as nat),
{
    let mut out: Vec<char> = Vec::new();
    if n < 10 {
        out.push('0');
    }
    let d = decimal_chars(n);
    push_all(&mut out, &d);
    assert(Seq::<char>::empty() + d@ == d@);
    out
}

/// Whether `a` comes before `b` in the order of strings: character by
/// character, by code point, a proper prefix first.
pub open spec fn text_before(a: Seq<char>, b: Seq<char>) -> bool
    decreases a.len(),
{
    if b.len() == 0 {
        false
    } else if a.len() == 0 {
        true
    } else if a.first() != b.first() {
        (a.first() as int) < (b.first() as int)
    } else {
        text_before(a.drop_first(), b.drop_first())
    }
}

/// Whether the code point of `x` is below that of `y`.
pub fn is_code_before(x: char, y: char) -> (r: bool)
    ensures
        r == ((x as int) < (y as int)),
{
    (x as u32) < (y as u32)
}

/// Whether `a` comes before `b` in the order of strings.
pub fn is_text_before(a: &Vec<char>, b: &Vec<char>) -> (r: bool)
    ensures
        r == text_before(a@, b@),
{
    let mut i: usize = 0;
    assert(a@.skip(0) == a@ && b@.skip(0) == b@);
    loop
        invariant
            i <= a.len(),
            i <= b.len(),
            text_before(a@, b@) == text_before(a@.skip(i as int), b@.skip(i as int)),
        decreases a.len() - i,
    {
        let ghost x = a@.skip(i as int);
        let ghost y = b@.skip(i as int);
        if i >= b.len() {
            return false;
        }
        if i >= a.len() {
            return true;
        }
        assert(x.first() == a@[i as int] && y.first() == b@[i as int]);
        if a[i] != b[i] {
            return is_code_before(a[i], b[i]);
        }
        assert(x.drop_first() == a@.skip(i + 1));
        assert(y.drop_first() == b@.skip(i + 1));
        i += 1;
    }
}

/// No text comes before itself.
pub proof fn lemma_text_before_irreflexive(a: Seq<char>)
    ensures
        !text_before(a, a),
    decreases a.len(),
{
    if a.len() > 0 {
        lemma_text_before_irreflexive(a.drop_first());
    }
}

/// Of two different texts exactly one comes before the other.
pub proof fn lemma_text_before_total(a: Seq<char>, b: Seq<char>)
    ensures
        a != b ==> (text_before(a, b) != text_before(b, a)),
        a == b ==> !text_before(a, b),
    decreases a.len(),
{
    if a == b {
        lemma_text_before_irreflexive(a);
    } else if a.len() == 0 || b.len() == 0 {
        if a.len() == 0 && b.len() == 0 {
            assert(a =~= b);
        }
    } else if a.first() == b.first() {
        if a.drop_first() == b.drop_first() {
            assert(a =~= seq![a.first()] + a.drop_first());
            assert(b =~= seq![b.first()] + b.drop_first());
        }
        lemma_text_before_total(a.drop_first(), b.drop_first());
    } else {
        assert(a.first() as int != b.first() as int);
    }
}

/// The order of strings is transitive.
pub proof fn lemma_text_before_transitive(a: Seq<char>, b: Seq<char>, c: Seq<char>)
    requires
        text_before(a, b),
        text_before(b, c),
    ensures
        text_before(a, c),
    decreases a.len(),
{
    if a.len() > 0 && b.len() > 0 && c.len() > 0 {
        if a.first() == b.first() && b.first() == c.first() {
            lemma_text_before_transitive(a.drop_first(), b.drop_first(), c.drop_first());
        }
    }
}

} // verus!

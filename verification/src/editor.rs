//! The pure side of capturing a note in `$EDITOR`: where the cursor
//! starts, and which file name to suggest for what was written.

use vstd::prelude::*;
use crate::items::opt_string_view;
use crate::text::{chars_of, occurs_at, occurs_at_exec, push_char, replace_all, replace_str};

verus! {

/// Number of newlines among the first `n` characters of `s`.
pub open spec fn newlines_before(s: Seq<char>, n: int) -> nat
    decreases n,
{
    if n <= 0 || s.len() == 0 {
        0
    } else if n > s.len() {
        newlines_before(s, s.len() as int)
    } else {
        newlines_before(s, n - 1) + if s[n - 1] == '\n' {
            1nat
        } else {
            0nat
        }
    }
}

/// Position of the first `{{cursor}}` marker in `s`, if any.
pub open spec fn first_marker(s: Seq<char>, from: int) -> Option<int>
    decreases s.len() - from,
{
    if from < 0 || from >= s.len() {
        None
    } else if occurs_at(s, "{{cursor}}"@, from) {
        Some(from)
    } else {
        first_marker(s, from + 1)
    }
}

/// The scratch text the editor opens (every `{{cursor}}` marker removed)
/// and the 1-based line the first marker was on, if there was one.
pub open spec fn cursor_start_spec(seed: Seq<char>) -> (Seq<char>, Option<nat>) {
    (
        replace_all(seed, "{{cursor}}"@, Seq::empty()),
        match first_marker(seed, 0) {
            Some(i) => Some(newlines_before(seed, i) + 1),
            None => None,
        },
    )
}

/// Splits a rendered template into the text the editor opens and the line
/// its cursor should start on (the line of the `{{cursor}}` marker).
pub fn cursor_start(seed: &str) -> (r: (String, Option<usize>))
    ensures
        r.0@ == cursor_start_spec(seed@).0,
        match (r.1, cursor_start_spec(seed@).1) {
            (Some(a), Some(b)) => a as nat == b,
            (None, None) => true,
            _ => false,
        },
{
    let marker = "{{cursor}}";
    proof {
        reveal_strlit("{{cursor}}");
        reveal_strlit("");
    }
    assert(""@ =~= Seq::<char>::empty());
    let text = replace_str(seed, marker, "");
    let sv = chars_of(seed);
    let mv = chars_of(marker);
    let mut i: usize = 0;
    let mut lines: usize = 0;
    while i < sv.len()
        invariant
            sv@ == seed@,
            mv@ == "{{cursor}}"@,
            text@ == cursor_start_spec(seed@).0,
            i <= sv.len(),
            lines <= i,
            lines == newlines_before(seed@, i as int),
            first_marker(seed@, 0) == first_marker(seed@, i as int),
        decreases sv.len() - i,
    {
        if occurs_at_exec(&sv, &mv, i) {
            return (text, Some(lines + 1));
        }
        if sv[i] == '\n' {
            lines = lines + 1;
        }
        i = i + 1;
    }
    (text, None)
}

/// `c` is an ASCII letter or digit.
pub open spec fn is_word_char(c: char) -> bool {
    ('a' <= c && c <= 'z') || ('A' <= c && c <= 'Z') || ('0' <= c && c <= '9')
}

pub open spec fn ascii_lower(c: char) -> char {
    if 'A' <= c && c <= 'Z' {
        ((c as u32) + 32) as char
    } else {
        c
    }
}

/// The slug of `s`, built left to right with `pending` recording a
/// separator seen since the last word character: ASCII letters and digits
/// kept (lowercased), every other run of characters becoming a single `-`
/// between words, none at either end.
pub open spec fn slug_from(s: Seq<char>, acc: Seq<char>, pending: bool) -> Seq<char>
    decreases s.len(),
{
    if s.len() == 0 {
        acc
    } else if is_word_char(s[0]) {
        let sep = if pending && acc.len() > 0 {
            seq!['-']
        } else {
            Seq::empty()
        };
        slug_from(s.drop_first(), acc + sep + seq![ascii_lower(s[0])], false)
    } else {
        slug_from(s.drop_first(), acc, true)
    }
}

pub open spec fn slug_spec(s: Seq<char>) -> Seq<char> {
    slug_from(s, Seq::empty(), false)
}

/// A file-name slug of a title: `"Website Improvement Ideas"` ->
/// `"website-improvement-ideas"`.
pub fn slugify(s: &str) -> (r: String)
    ensures
        r@ == slug_spec(s@),
{
    let v = chars_of(s);
    let mut out = String::new();
    let mut pending = false;
    let mut i: usize = 0;
    assert(v@.skip(0) =~= v@);
    while i < v.len()
        invariant
            v@ == s@,
            i <= v.len(),
            slug_from(v@.skip(i as int), out@, pending) == slug_spec(s@),
        decreases v.len() - i,
    {
        let c = v[i];
        assert(v@.skip(i as int)[0] == c);
        assert(v@.skip(i as int).drop_first() =~= v@.skip(i + 1));
        if ('a' <= c && c <= 'z') || ('A' <= c && c <= 'Z') || ('0' <= c && c <= '9') {
            let ghost before = out@;
            if pending && out.unicode_len() > 0 {
                push_char(&mut out, '-');
            }
            let lower = if 'A' <= c && c <= 'Z' {
                char_from_code((c as u32) + 32)
            } else {
                c
            };
            assert(lower == ascii_lower(c));
            push_char(&mut out, lower);
            proof {
                let sep = if pending && before.len() > 0 {
                    seq!['-']
                } else {
                    Seq::<char>::empty()
                };
                assert(out@ =~= before + sep + seq![ascii_lower(c)]);
            }
            pending = false;
        } else {
            pending = true;
        }
        i = i + 1;
    }
    out
}

/// `char::from_u32` for a code known to be an ASCII letter.
fn char_from_code(code: u32) -> (r: char)
    requires
        97 <= code <= 122,
    ensures
        r == code as char,
{
    let c = if code == 97 { 'a' } else if code == 98 { 'b' } else if code == 99 { 'c' } else if code == 100 { 'd' }
        else if code == 101 { 'e' } else if code == 102 { 'f' } else if code == 103 { 'g' } else if code == 104 { 'h' }
        else if code == 105 { 'i' } else if code == 106 { 'j' } else if code == 107 { 'k' } else if code == 108 { 'l' }
        else if code == 109 { 'm' } else if code == 110 { 'n' } else if code == 111 { 'o' } else if code == 112 { 'p' }
        else if code == 113 { 'q' } else if code == 114 { 'r' } else if code == 115 { 's' } else if code == 116 { 't' }
        else if code == 117 { 'u' } else if code == 118 { 'v' } else if code == 119 { 'w' } else if code == 120 { 'x' }
        else if code == 121 { 'y' } else { 'z' };
    c
}

/// Blank characters: a line made only of these (or empty) is blank.
pub open spec fn is_blank_char(c: char) -> bool {
    c == ' ' || c == '\t' || c == '\r'
}

/// Position of the first character at or after `from` that is neither
/// blank nor a newline.
pub open spec fn first_content(s: Seq<char>, from: int) -> Option<int>
    decreases s.len() - from,
{
    if from < 0 || from >= s.len() {
        None
    } else if !is_blank_char(s[from]) && s[from] != '\n' {
        Some(from)
    } else {
        first_content(s, from + 1)
    }
}

/// Start of the line holding position `k`.
pub open spec fn line_start(s: Seq<char>, k: int) -> int
    decreases k,
{
    if k <= 0 {
        0
    } else if s[k - 1] == '\n' {
        k
    } else {
        line_start(s, k - 1)
    }
}

/// End (exclusive, before its newline) of the line holding position `k`.
pub open spec fn line_end(s: Seq<char>, k: int) -> int
    decreases s.len() - k,
{
    if k >= s.len() {
        s.len() as int
    } else if s[k] == '\n' {
        k
    } else {
        line_end(s, k + 1)
    }
}

/// The first line of `body` that is not blank, without its newline.
pub open spec fn first_nonblank_line_spec(body: Seq<char>) -> Option<Seq<char>> {
    match first_content(body, 0) {
        Some(k) => Some(body.subrange(line_start(body, k), line_end(body, k))),
        None => None,
    }
}

proof fn lemma_line_start_bounds(s: Seq<char>, k: int)
    requires
        0 <= k <= s.len(),
    ensures
        0 <= line_start(s, k) <= k,
    decreases k,
{
    if k > 0 && s[k - 1] != '\n' {
        lemma_line_start_bounds(s, k - 1);
    }
}

/// The first non-blank line of a note's body (the text after its
/// frontmatter), if it has one.
pub fn first_nonblank_line(body: &str) -> (r: Option<String>)
    ensures
        opt_string_view(r) == first_nonblank_line_spec(body@),
{
    let v = chars_of(body);
    let mut i: usize = 0;
    let mut start: usize = 0;
    while i < v.len()
        invariant
            v@ == body@,
            i <= v.len(),
            start <= i,
            start == line_start(body@, i as int),
            first_content(body@, 0) == first_content(body@, i as int),
        decreases v.len() - i,
    {
        let c = v[i];
        if c != ' ' && c != '\t' && c != '\r' && c != '\n' {
            let mut j: usize = i;
            while j < v.len() && v[j] != '\n'
                invariant
                    v@ == body@,
                    i <= j <= v.len(),
                    line_end(body@, i as int) == line_end(body@, j as int),
                decreases v.len() - j,
            {
                j = j + 1;
            }
            proof {
                lemma_line_start_bounds(body@, i as int);
            }
            let line = string_of_range(&v, start, j);
            return Some(line);
        }
        if c == '\n' {
            start = i + 1;
        }
        i = i + 1;
    }
    None
}

/// The characters `v[a..b]` as a string.
fn string_of_range(v: &Vec<char>, a: usize, b: usize) -> (r: String)
    requires
        a <= b <= v.len(),
    ensures
        r@ == v@.subrange(a as int, b as int),
{
    let mut out = String::new();
    let mut k: usize = a;
    while k < b
        invariant
            a <= k <= b <= v.len(),
            out@ == v@.subrange(a as int, k as int),
        decreases b - k,
    {
        push_char(&mut out, v[k]);
        assert(out@ =~= v@.subrange(a as int, k + 1));
        k = k + 1;
    }
    out
}

/// The name an editor capture suggests: the slug of the note's first
/// heading, else of its first non-blank line after the frontmatter, else
/// the timestamp. A note left exactly as the template seeded it, or
/// emptied, counts as having neither.
pub open spec fn suggestion_spec(
    unchanged: bool,
    heading: Option<Seq<char>>,
    first_line: Option<Seq<char>>,
    timestamp: Seq<char>,
) -> Seq<char> {
    if unchanged {
        timestamp
    } else {
        match heading {
            Some(h) if slug_spec(h).len() > 0 => slug_spec(h),
            _ => match first_line {
                Some(l) if slug_spec(l).len() > 0 => slug_spec(l),
                _ => timestamp,
            },
        }
    }
}

/// Suggests a file name for captured text. `seed` is what the editor
/// opened with and `content` what was saved; `heading` is the first
/// Markdown heading found in `content` and `body` the text after its
/// frontmatter.
pub fn suggest_filename(
    seed: &str,
    content: &str,
    heading: Option<&str>,
    body: &str,
    timestamp: &str,
) -> (r: String)
    ensures
        r@ == suggestion_spec(
            content@ == seed@ || content@.len() == 0,
            crate::items::opt_str_view(heading),
            first_nonblank_line_spec(body@),
            timestamp@,
        ),
{
    if crate::text::str_eq(content, seed) || content.unicode_len() == 0 {
        return timestamp.to_owned();
    }
    if let Some(h) = heading {
        let s = slugify(h);
        if s.unicode_len() > 0 {
            return s;
        }
    }
    if let Some(l) = first_nonblank_line(body) {
        let s = slugify(l.as_str());
        if s.unicode_len() > 0 {
            return s;
        }
    }
    timestamp.to_owned()
}

} // verus!

//! Stamping one key of a note's YAML frontmatter (`last_reviewed` on a
//! review's keep, `summary` on archiving) while every other byte of the
//! file stays as it was.

use vstd::prelude::*;
use vstd::utf8::{encode_utf8, is_char_boundary};
use crate::text::{concat2, concat3, replace_all, replace_str};

verus! {

/// Where the key sits in the note, as the frontmatter parser reports it.
#[derive(Debug, Clone, PartialEq, Eq)]
pub struct FrontmatterFacts {
    /// Whether the note opens with a `---` frontmatter block.
    pub has_block: bool,
    /// Byte range of the key's current scalar value, when the key is
    /// present with a plain scalar value.
    pub value_range: Option<(usize, usize)>,
    /// Byte offset where the body starts, just after the block's closing
    /// `---` line.
    pub body_offset: usize,
}

/// `b` with bytes `s..e` replaced by `v`.
pub open spec fn splice(b: Seq<u8>, s: int, e: int, v: Seq<u8>) -> Seq<u8> {
    b.subrange(0, s) + v + b.subrange(e, b.len() as int)
}

/// The facts fit the note: every offset lies on a character boundary
/// within it, and an insertion point exists before the closing `---`.
pub open spec fn facts_fit(content: Seq<u8>, f: FrontmatterFacts) -> bool {
    f.has_block ==> match f.value_range {
        Some((s, e)) => s <= e <= content.len() && is_char_boundary(content, s as int)
            && is_char_boundary(content, e as int),
        None => 5 <= f.body_offset <= content.len() && is_char_boundary(content, f.body_offset - 5),
    }
}

/// The note's bytes after setting `key` to `value`:
/// - key present with a scalar value: just that value's bytes replaced;
/// - block present without the key: a `\n<key>: <value>` line inserted
///   before the block's closing `---` line;
/// - no block: a fresh `---\n<key>: <value>\n---\n` block prepended.
pub open spec fn stamped(content: Seq<u8>, f: FrontmatterFacts, key: Seq<char>, value: Seq<char>) -> Seq<u8> {
    if f.has_block {
        match f.value_range {
            Some((s, e)) => splice(content, s as int, e as int, encode_utf8(value)),
            None => splice(
                content,
                f.body_offset - 5,
                f.body_offset - 5,
                encode_utf8("\n"@ + key + ": "@ + value),
            ),
        }
    } else {
        encode_utf8("---\n"@ + key + ": "@ + value + "\n---\n"@) + content
    }
}

/// UTF-8 encoding distributes over concatenation.
pub proof fn lemma_encode_utf8_concat(a: Seq<char>, b: Seq<char>)
    ensures
        encode_utf8(a + b) == encode_utf8(a) + encode_utf8(b),
    decreases a.len(),
{
    if a.len() == 0 {
        assert(a + b =~= b);
        assert(encode_utf8(a) =~= Seq::<u8>::empty());
        assert(encode_utf8(a) + encode_utf8(b) =~= encode_utf8(b));
    } else {
        lemma_encode_utf8_concat(a.drop_first(), b);
        assert((a + b).drop_first() =~= a.drop_first() + b);
        assert((a + b)[0] == a[0]);
        assert(encode_utf8(a + b) =~= vstd::utf8::encode_scalar(a[0] as u32) + encode_utf8(a.drop_first() + b));
    }
}

/// Byte offset at which `stamped` writes the value.
pub open spec fn value_start(content: Seq<u8>, f: FrontmatterFacts, key: Seq<char>) -> int {
    if f.has_block {
        match f.value_range {
            Some((s, e)) => s as int,
            None => f.body_offset - 5 + encode_utf8("\n"@ + key + ": "@).len(),
        }
    } else {
        encode_utf8("---\n"@ + key + ": "@).len() as int
    }
}

/// Splicing in the bytes already there changes nothing.
proof fn lemma_splice_same(b: Seq<u8>, a: int, e: int)
    requires
        0 <= a <= e <= b.len(),
    ensures
        splice(b, a, e, b.subrange(a, e)) == b,
{
    assert(splice(b, a, e, b.subrange(a, e)) =~= b);
}

/// Stamping the same value twice leaves the note as one stamp does: once
/// the parser reports the key's value where the first stamp wrote it, the
/// second stamp rewrites those bytes with the same bytes.
pub proof fn lemma_stamp_twice_is_stamp_once(
    content: Seq<u8>,
    f: FrontmatterFacts,
    f2: FrontmatterFacts,
    key: Seq<char>,
    value: Seq<char>,
)
    requires
        facts_fit(content, f),
        f2.has_block,
        f2.value_range matches Some((a, b)) && a == value_start(content, f, key) && b == a
            + encode_utf8(value).len(),
    ensures
        stamped(stamped(content, f, key, value), f2, key, value) == stamped(content, f, key, value),
{
    reveal_strlit("\n");
    reveal_strlit(": ");
    reveal_strlit("---\n");
    reveal_strlit("\n---\n");
    let r = stamped(content, f, key, value);
    let ev = encode_utf8(value);
    let p = value_start(content, f, key);
    if f.has_block {
        match f.value_range {
            Some((s, e)) => {
                assert(r.subrange(p, p + ev.len()) =~= ev);
            },
            None => {
                let q = f.body_offset - 5;
                let pre = "\n"@ + key + ": "@;
                lemma_encode_utf8_concat(pre, value);
                assert("\n"@ + key + ": "@ + value == pre + value);
                assert(r.subrange(p, p + ev.len()) =~= ev);
            },
        }
    } else {
        let pre = "---\n"@ + key + ": "@;
        lemma_encode_utf8_concat(pre, value);
        lemma_encode_utf8_concat(pre + value, "\n---\n"@);
        assert("---\n"@ + key + ": "@ + value + "\n---\n"@ == pre + value + "\n---\n"@);
        assert(r.subrange(p, p + ev.len()) =~= ev);
    }
    lemma_splice_same(r, p, p + ev.len());
}

fn splice_str(content: &str, s: usize, e: usize, value: &str) -> (r: String)
    requires
        s <= e <= encode_utf8(content@).len(),
        is_char_boundary(encode_utf8(content@), s as int),
        is_char_boundary(encode_utf8(content@), e as int),
    ensures
        encode_utf8(r@) == splice(encode_utf8(content@), s as int, e as int, encode_utf8(value@)),
{
    let (head, _) = content.split_at(s);
    let (_, tail) = content.split_at(e);
    let r = concat3(head, value, tail);
    proof {
        lemma_encode_utf8_concat(head@ + value@, tail@);
        lemma_encode_utf8_concat(head@, value@);
    }
    r
}

/// Sets `key` to `value` in the note's frontmatter, leaving everything
/// else byte for byte as it was (see `stamped`).
pub fn stamp_field(content: &str, facts: &FrontmatterFacts, key: &str, value: &str) -> (r: String)
    requires
        facts_fit(encode_utf8(content@), *facts),
    ensures
        encode_utf8(r@) == stamped(encode_utf8(content@), *facts, key@, value@),
{
    proof {
        reveal_strlit("\n");
        reveal_strlit(": ");
        reveal_strlit("---\n");
        reveal_strlit("\n---\n");
    }
    if facts.has_block {
        match facts.value_range {
            Some((s, e)) => splice_str(content, s, e, value),
            None => {
                let at = facts.body_offset - 5;
                let mut line = concat3("\n", key, ": ");
                line.append(value);
                splice_str(content, at, at, line.as_str())
            },
        }
    } else {
        let mut block = concat3("---\n", key, ": ");
        block.append(value);
        block.append("\n---\n");
        let r = concat2(block.as_str(), content);
        proof {
            lemma_encode_utf8_concat(block@, content@);
        }
        r
    }
}

/// Stamps `last_reviewed: <today>` into the note, `today` being the date
/// as `YYYY-MM-DD`.
pub fn stamp_last_reviewed(content: &str, facts: &FrontmatterFacts, today: &str) -> (r: String)
    requires
        facts_fit(encode_utf8(content@), *facts),
    ensures
        encode_utf8(r@) == stamped(encode_utf8(content@), *facts, "last_reviewed"@, today@),
{
    proof {
        reveal_strlit("last_reviewed");
    }
    stamp_field(content, facts, "last_reviewed", today)
}

/// `s` as a YAML double-quoted scalar: backslashes and double quotes
/// escaped, the whole in double quotes.
pub open spec fn quoted(s: Seq<char>) -> Seq<char> {
    "\""@ + replace_all(replace_all(s, "\\"@, "\\\\"@), "\""@, "\\\""@) + "\""@
}

/// Stamps `summary: "<summary>"` into the note.
pub fn stamp_summary(content: &str, facts: &FrontmatterFacts, summary: &str) -> (r: String)
    requires
        facts_fit(encode_utf8(content@), *facts),
    ensures
        encode_utf8(r@) == stamped(encode_utf8(content@), *facts, "summary"@, quoted(summary@)),
{
    proof {
        reveal_strlit("\\");
        reveal_strlit("\\\\");
        reveal_strlit("\"");
        reveal_strlit("\\\"");
        reveal_strlit("summary");
    }
    let a = replace_str(summary, "\\", "\\\\");
    let b = replace_str(a.as_str(), "\"", "\\\"");
    let q = concat3("\"", b.as_str(), "\"");
    stamp_field(content, facts, "summary", q.as_str())
}

/// The summary suggested when archiving: the note's existing `summary`
/// value if it has one, else its title, else its name.
pub fn summary_default(existing: Option<&str>, title: Option<&str>, name: &str) -> (r: String)
    ensures
        r@ == match existing {
            Some(s) => s@,
            None => match title {
                Some(t) => t@,
                None => name@,
            },
        },
{
    match existing {
        Some(s) => s.to_owned(),
        None => match title {
            Some(t) => t.to_owned(),
            None => name.to_owned(),
        },
    }
}

} // verus!

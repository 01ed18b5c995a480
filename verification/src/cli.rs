//! What each command prints and decides, given the facts the caller has
//! gathered: ages, tables, status summaries, display paths, move and
//! unarchive plans, completion candidates, init messages.

use vstd::prelude::*;
use vstd::utf8::encode_utf8;
use crate::category::{Category, category_index, category_at, spec_display_name};
use crate::category::spec_archivable;
use crate::items::{
    Catalog, ItemsError, ListedItem, Located, Scanned, item_note, item_note_spec, StatusItem, StatusReport, first_index_of, first_live_hit,
    first_match, hit, lemma_first_index_of_concat, lemma_first_match_found, live_hits, live_qualifier,
    locate, locate_target, located_at, move_destination, move_destination_spec, move_refusal,
    origin_position, qualifier_position,
};
use crate::text::{
    chars_of, concat2, concat3, decimal, decimal_string, occurs_at, occurs_at_exec, pad_right,
    pad_right_spec, push_char, starts_with, starts_with_str,
};
use crate::workspace::{Workspace, join_path};

verus! {

/// How `list`, `status` and `review` render an age in days.
pub open spec fn age_text(days: u64) -> Seq<char> {
    if days == 0 {
        "today"@
    } else if days == 1 {
        "1 day ago"@
    } else {
        decimal(days as nat) + " days ago"@
    }
}

/// Formats a day count: `"today"`, `"1 day ago"`, `"N days ago"`.
pub fn format_age(days: u64) -> (r: String)
    ensures
        r@ == age_text(days),
{
    if days == 0 {
        String::from_str("today")
    } else if days == 1 {
        String::from_str("1 day ago")
    } else {
        let n = decimal_string(days);
        let suffix = " days ago";
        proof {
            reveal_strlit(" days ago");
        }
        concat2(n.as_str(), suffix)
    }
}

/// Length of `s` in UTF-8 bytes (what `str::len` reports).
pub open spec fn byte_len(s: Seq<char>) -> nat {
    encode_utf8(s).len()
}

/// Lines joined with `\n` between them.
pub open spec fn join_lines(lines: Seq<Seq<char>>) -> Seq<char>
    decreases lines.len(),
{
    if lines.len() == 0 {
        Seq::empty()
    } else if lines.len() == 1 {
        lines[0]
    } else {
        join_lines(lines.drop_last()) + "\n"@ + lines.last()
    }
}

pub open spec fn max_nat(a: nat, b: nat) -> nat {
    if a >= b {
        a
    } else {
        b
    }
}

/// Longest name, in bytes, among listing rows (at least `floor`).
pub open spec fn max_name_bytes(items: Seq<ListedItem>, floor: nat) -> nat
    decreases items.len(),
{
    if items.len() == 0 {
        floor
    } else {
        max_nat(max_name_bytes(items.drop_last(), floor), byte_len(items.last().name@))
    }
}

/// Longest title, in bytes, among listing rows (at least `floor`).
pub open spec fn max_title_bytes(items: Seq<ListedItem>, floor: nat) -> nat
    decreases items.len(),
{
    if items.len() == 0 {
        floor
    } else {
        max_nat(max_title_bytes(items.drop_last(), floor), byte_len(items.last().title@))
    }
}

/// Every name and title is short enough that its width plus the column
/// gap fits in a `usize`.
pub open spec fn widths_fit(items: Seq<ListedItem>) -> bool {
    forall|i: int| 0 <= i < items.len() ==> byte_len(#[trigger] items[i].name@) + 3 <= usize::MAX && byte_len(items[i].title@) + 3 <= usize::MAX
}

/// One table row: name and title left-justified to their column widths,
/// then the age.
pub open spec fn list_row(name: Seq<char>, title: Seq<char>, age: Seq<char>, nw: int, tw: int) -> Seq<char> {
    pad_right_spec(name, nw) + pad_right_spec(title, tw) + age
}

pub open spec fn list_table_lines(items: Seq<ListedItem>, nw: int, tw: int) -> Seq<Seq<char>> {
    seq![list_row("NAME"@, "TITLE"@, "UPDATED"@, nw, tw)] + items.map_values(
        |i: ListedItem| list_row(i.name@, i.title@, age_text(i.updated_days_ago), nw, tw),
    )
}

/// What `list` prints: a message when there is nothing to show, else a
/// `NAME`/`TITLE`/`UPDATED` table whose name and title columns are as wide
/// as their longest entry (header included) plus 3.
pub open spec fn list_output(category: Category, items: Seq<ListedItem>, filter: Option<Seq<char>>) -> Seq<char> {
    if items.len() == 0 {
        match filter {
            Some(f) => "No items in "@ + spec_display_name(category) + " matching \""@ + f + "\"."@,
            None => "No items in "@ + spec_display_name(category) + "."@,
        }
    } else {
        join_lines(
            list_table_lines(
                items,
                (max_name_bytes(items, 4) + 3) as int,
                (max_title_bytes(items, 5) + 3) as int,
            ),
        )
    }
}

fn max_widths(items: &Vec<ListedItem>) -> (r: (usize, usize))
    requires
        widths_fit(items@),
    ensures
        r.0 == max_name_bytes(items@, 4) + 3,
        r.1 == max_title_bytes(items@, 5) + 3,
{
    let mut nw: usize = 4;
    let mut tw: usize = 5;
    let mut i: usize = 0;
    while i < items.len()
        invariant
            i <= items.len(),
            widths_fit(items@),
            nw == max_name_bytes(items@.take(i as int), 4),
            tw == max_title_bytes(items@.take(i as int), 5),
            nw + 3 <= usize::MAX,
            tw + 3 <= usize::MAX,
        decreases items.len() - i,
    {
        proof {
            let t = items@.take(i + 1);
            assert(t.drop_last() =~= items@.take(i as int));
            assert(t.last() == items@[i as int]);
        }
        let nl = items[i].name.as_str().len();
        let tl = items[i].title.as_str().len();
        if nl > nw {
            nw = nl;
        }
        if tl > tw {
            tw = tl;
        }
        i = i + 1;
    }
    assert(items@.take(items.len() as int) =~= items@);
    (nw + 3, tw + 3)
}

/// Appends `"\n"` and `line` to `out`.
fn push_line(out: &mut String, line: &str)
    ensures
        final(out)@ == old(out)@ + "\n"@ + line@,
{
    let nl = "\n";
    proof {
        reveal_strlit("\n");
    }
    out.append(nl);
    out.append(line);
}

fn table_row(name: &str, title: &str, age: &str, nw: usize, tw: usize) -> (r: String)
    ensures
        r@ == list_row(name@, title@, age@, nw as int, tw as int),
{
    let n = pad_right(name, nw);
    let t = pad_right(title, tw);
    concat3(n.as_str(), t.as_str(), age)
}

proof fn lemma_join_lines_push(lines: Seq<Seq<char>>, line: Seq<char>)
    requires
        lines.len() >= 1,
    ensures
        join_lines(lines.push(line)) == join_lines(lines) + "\n"@ + line,
{
    assert(lines.push(line).drop_last() =~= lines);
}

/// Renders a category listing as the `NAME`/`TITLE`/`UPDATED` table, or,
/// with no rows, a no-match message (with a filter) or an empty-category
/// message (without).
pub fn run_list(category: Category, items: &Vec<ListedItem>, filter: Option<&str>) -> (r: String)
    requires
        widths_fit(items@),
    ensures
        r@ == list_output(category, items@, crate::items::opt_str_view(filter)),
{
    if items.len() == 0 {
        proof {
            reveal_strlit("No items in ");
            reveal_strlit(" matching \"");
            reveal_strlit("\".");
            reveal_strlit(".");
        }
        return match filter {
            Some(f) => {
                let a = concat3("No items in ", category.display_name(), " matching \"");
                concat3(a.as_str(), f, "\".")
            },
            None => concat3("No items in ", category.display_name(), "."),
        };
    }
    let (nw, tw) = max_widths(items);
    proof {
        reveal_strlit("NAME");
        reveal_strlit("TITLE");
        reveal_strlit("UPDATED");
    }
    let mut out = table_row("NAME", "TITLE", "UPDATED", nw, tw);
    let ghost lines = list_table_lines(items@, nw as int, tw as int);
    let mut i: usize = 0;
    while i < items.len()
        invariant
            i <= items.len(),
            lines == list_table_lines(items@, nw as int, tw as int),
            out@ == join_lines(lines.take(i + 1)),
        decreases items.len() - i,
    {
        let age = format_age(items[i].updated_days_ago);
        let row = table_row(items[i].name.as_str(), items[i].title.as_str(), age.as_str(), nw, tw);
        proof {
            assert(lines.take(i + 2) =~= lines.take(i + 1).push(row@));
            lemma_join_lines_push(lines.take(i + 1), row@);
        }
        push_line(&mut out, row.as_str());
        i = i + 1;
    }
    proof {
        assert(lines.take(items.len() + 1) =~= lines);
    }
    out
}

/// The views of a list of strings.
pub open spec fn views(lines: Seq<String>) -> Seq<Seq<char>> {
    lines.map_values(|l: String| l@)
}

/// Joins lines with `\n`.
pub fn join_strings(lines: &Vec<String>) -> (r: String)
    ensures
        r@ == join_lines(views(lines@)),
{
    if lines.len() == 0 {
        assert(views(lines@) =~= Seq::<Seq<char>>::empty());
        return String::new();
    }
    let mut out = lines[0].clone();
    let mut i: usize = 1;
    proof {
        assert(views(lines@).take(1) =~= seq![lines@[0]@]);
    }
    while i < lines.len()
        invariant
            1 <= i <= lines.len(),
            out@ == join_lines(views(lines@).take(i as int)),
        decreases lines.len() - i,
    {
        proof {
            assert(views(lines@).take(i + 1) =~= views(lines@).take(i as int).push(lines@[i as int]@));
            lemma_join_lines_push(views(lines@).take(i as int), lines@[i as int]@);
        }
        push_line(&mut out, lines[i].as_str());
        i = i + 1;
    }
    assert(views(lines@).take(lines.len() as int) =~= views(lines@));
    out
}

/// Longest string, in bytes, among `names` (at least `floor`).
pub open spec fn max_bytes(names: Seq<Seq<char>>, floor: nat) -> nat
    decreases names.len(),
{
    if names.len() == 0 {
        floor
    } else {
        max_nat(max_bytes(names.drop_last(), floor), byte_len(names.last()))
    }
}

pub open spec fn status_names(items: Seq<StatusItem>) -> Seq<Seq<char>> {
    items.map_values(|x: StatusItem| x.name@)
}

pub open spec fn status_titles(items: Seq<StatusItem>) -> Seq<Seq<char>> {
    items.map_values(|x: StatusItem| x.title@)
}

pub open spec fn reviewed_text(r: Option<u64>) -> Seq<char> {
    match r {
        Some(d) => age_text(d),
        None => "never"@,
    }
}

/// The `updated: <age>` part of a status row.
pub open spec fn updated_text(x: StatusItem) -> Seq<char> {
    "updated: "@ + age_text(x.updated_days_ago)
}

pub open spec fn status_updates(items: Seq<StatusItem>) -> Seq<Seq<char>> {
    items.map_values(|x: StatusItem| updated_text(x))
}

/// Longest string, in characters, among `texts` (at least `floor`).
pub open spec fn max_chars(texts: Seq<Seq<char>>, floor: nat) -> nat
    decreases texts.len(),
{
    if texts.len() == 0 {
        floor
    } else {
        max_nat(max_chars(texts.drop_last(), floor), texts.last().len())
    }
}

/// A project/area row of `status`: name, title and `updated:` columns
/// left-justified to widths `nw`, `tw` and `uw`, then `reviewed:`.
pub open spec fn status_item_line(x: StatusItem, nw: int, tw: int, uw: int) -> Seq<char> {
    "`- "@ + pad_right_spec(x.name@, nw) + pad_right_spec(x.title@, tw) + pad_right_spec(
        updated_text(x),
        uw,
    ) + "reviewed: "@ + reviewed_text(x.reviewed_days_ago)
}

/// The rows `status` prints under a project or area count: names, titles
/// and `updated:` texts each left-justified to their longest entry plus 3,
/// so the `reviewed:` column lines up; none for no items.
pub open spec fn status_item_lines(items: Seq<StatusItem>) -> Seq<Seq<char>> {
    if items.len() == 0 {
        Seq::empty()
    } else {
        items.map_values(
            |x: StatusItem| status_item_line(
                x,
                (max_bytes(status_names(items), 0) + 3) as int,
                (max_bytes(status_titles(items), 0) + 3) as int,
                (max_chars(status_updates(items), 0) + 3) as int,
            ),
        )
    }
}

pub open spec fn status_widths_fit(items: Seq<StatusItem>) -> bool {
    forall|i: int| 0 <= i < items.len() ==> byte_len(#[trigger] items[i].name@) + 3 <= usize::MAX && byte_len(items[i].title@) + 3 <= usize::MAX
}

/// `10` to the power `d`.
pub open spec fn pow10(d: nat) -> nat
    decreases d,
{
    if d == 0 {
        1
    } else {
        10 * pow10((d - 1) as nat)
    }
}

proof fn lemma_decimal_len(n: nat, d: nat)
    requires
        d >= 1,
        n < pow10(d),
    ensures
        decimal(n).len() <= d,
    decreases d,
{
    if n >= 10 {
        let p = pow10((d - 1) as nat);
        assert(d >= 2) by {
            if d == 1 {
                assert(pow10(0) == 1);
            }
        }
        assert(n / 10 < p) by (nonlinear_arith)
            requires
                n < 10 * p,
        ;
        lemma_decimal_len(n / 10, (d - 1) as nat);
    }
}

/// An `updated:` text is at most 38 characters long.
proof fn lemma_updated_text_short(x: StatusItem)
    ensures
        updated_text(x).len() <= 38,
{
    reveal_strlit("updated: ");
    reveal_strlit("today");
    reveal_strlit("1 day ago");
    reveal_strlit(" days ago");
    let d = x.updated_days_ago;
    if d > 1 {
        reveal_with_fuel(pow10, 21);
        assert(pow10(20) == 100000000000000000000nat);
        lemma_decimal_len(d as nat, 20);
    }
}

fn status_widths(items: &Vec<StatusItem>) -> (r: (usize, usize, usize))
    requires
        status_widths_fit(items@),
    ensures
        r.0 == max_bytes(status_names(items@), 0) + 3,
        r.1 == max_bytes(status_titles(items@), 0) + 3,
        r.2 == max_chars(status_updates(items@), 0) + 3,
{
    let mut nw: usize = 0;
    let mut tw: usize = 0;
    let mut uw: usize = 0;
    let mut i: usize = 0;
    while i < items.len()
        invariant
            i <= items.len(),
            status_widths_fit(items@),
            nw == max_bytes(status_names(items@).take(i as int), 0),
            tw == max_bytes(status_titles(items@).take(i as int), 0),
            uw == max_chars(status_updates(items@).take(i as int), 0),
            nw + 3 <= usize::MAX,
            tw + 3 <= usize::MAX,
            uw <= 38,
        decreases items.len() - i,
    {
        proof {
            let t = status_names(items@).take(i + 1);
            assert(t.drop_last() =~= status_names(items@).take(i as int));
            let u = status_titles(items@).take(i + 1);
            assert(u.drop_last() =~= status_titles(items@).take(i as int));
            let w = status_updates(items@).take(i + 1);
            assert(w.drop_last() =~= status_updates(items@).take(i as int));
            lemma_updated_text_short(items@[i as int]);
        }
        let nl = items[i].name.as_str().len();
        let tl = items[i].title.as_str().len();
        let ut = updated_exec(&items[i]);
        let ul = ut.unicode_len();
        if nl > nw {
            nw = nl;
        }
        if tl > tw {
            tw = tl;
        }
        if ul > uw {
            uw = ul;
        }
        i = i + 1;
    }
    assert(status_names(items@).take(items.len() as int) =~= status_names(items@));
    assert(status_titles(items@).take(items.len() as int) =~= status_titles(items@));
    assert(status_updates(items@).take(items.len() as int) =~= status_updates(items@));
    (nw + 3, tw + 3, uw + 3)
}

fn updated_exec(x: &StatusItem) -> (r: String)
    ensures
        r@ == updated_text(*x),
{
    proof {
        reveal_strlit("updated: ");
    }
    concat2("updated: ", format_age(x.updated_days_ago).as_str())
}

fn status_item_line_exec(x: &StatusItem, nw: usize, tw: usize, uw: usize) -> (r: String)
    ensures
        r@ == status_item_line(*x, nw as int, tw as int, uw as int),
{
    proof {
        reveal_strlit("`- ");
        reveal_strlit("reviewed: ");
        reveal_strlit("never");
    }
    let n = pad_right(x.name.as_str(), nw);
    let t = pad_right(x.title.as_str(), tw);
    let u = pad_right(updated_exec(x).as_str(), uw);
    let mut out = concat3("`- ", n.as_str(), t.as_str());
    out.append(u.as_str());
    out.append("reviewed: ");
    match x.reviewed_days_ago {
        Some(d) => out.append(format_age(d).as_str()),
        None => out.append("never"),
    }
    out
}

/// Renders the project/area rows `status` prints under a count line:
/// `` `- `` then name and title columns, then the `updated:` age padded so
/// that the `reviewed:` ages line up (`reviewed: never` without a review).
/// No rows for no items.
pub fn render_status_items(items: &Vec<StatusItem>) -> (r: Vec<String>)
    requires
        status_widths_fit(items@),
    ensures
        views(r@) == status_item_lines(items@),
{
    let mut r: Vec<String> = Vec::new();
    if items.len() == 0 {
        assert(views(r@) =~= status_item_lines(items@));
        return r;
    }
    let (nw, tw, uw) = status_widths(items);
    let mut i: usize = 0;
    while i < items.len()
        invariant
            i <= items.len(),
            nw == max_bytes(status_names(items@), 0) + 3,
            tw == max_bytes(status_titles(items@), 0) + 3,
            uw == max_chars(status_updates(items@), 0) + 3,
            views(r@) == status_item_lines(items@).take(i as int),
            items@.len() > 0,
        decreases items.len() - i,
    {
        let line = status_item_line_exec(&items[i], nw, tw, uw);
        let ghost before = r@;
        r.push(line);
        proof {
            assert(views(r@) =~= views(before).push(line@));
            assert(status_item_lines(items@).take(i + 1) =~= status_item_lines(items@).take(i as int).push(line@));
        }
        i = i + 1;
    }
    assert(status_item_lines(items@).take(items.len() as int) =~= status_item_lines(items@));
    r
}

/// Width of the category column of `status`: the longest category name
/// (`Resources`, 9 bytes) plus 3.
pub open spec fn status_label_width() -> int {
    12
}

pub open spec fn count_line(c: Category, n: usize) -> Seq<char> {
    pad_right_spec(spec_display_name(c), status_label_width()) + decimal(n as nat)
}

/// Everything `status` prints, line by line: a count line per category in
/// Inbox, Projects, Areas, Resources, Archive order, with per-item rows
/// under Projects and Areas only.
pub open spec fn status_lines(r: StatusReport) -> Seq<Seq<char>> {
    seq![count_line(Category::Inbox, r.counts@[0]), count_line(Category::Project, r.counts@[1])]
        + status_item_lines(r.projects@) + seq![count_line(Category::Area, r.counts@[2])]
        + status_item_lines(r.areas@) + seq![
        count_line(Category::Resource, r.counts@[3]),
        count_line(Category::Archive, r.counts@[4]),
    ]
}

fn count_line_exec(c: Category, n: usize) -> (r: String)
    ensures
        r@ == count_line(c, n),
{
    let label = pad_right(c.display_name(), 12);
    let count = decimal_string(n as u64);
    concat2(label.as_str(), count.as_str())
}

fn append_lines(out: &mut Vec<String>, more: Vec<String>)
    ensures
        views(final(out)@) == views(old(out)@) + views(more@),
{
    let mut more = more;
    let ghost m = more@;
    let mut i: usize = 0;
    while i < more.len()
        invariant
            i <= more.len(),
            more@ == m,
            views(out@) == views(old(out)@) + views(m).take(i as int),
        decreases more.len() - i,
    {
        let ghost before = out@;
        out.push(more[i].clone());
        proof {
            assert(views(out@) =~= views(before).push(m[i as int]@));
            assert(views(m).take(i + 1) =~= views(m).take(i as int).push(m[i as int]@));
        }
        i = i + 1;
    }
    assert(views(m).take(m.len() as int) =~= views(m));
}

/// Renders the status summary: one `<Category>   <count>` line per
/// category, with the project and area rows under their count lines.
pub fn run_status(report: &StatusReport) -> (r: String)
    requires
        status_widths_fit(report.projects@),
        status_widths_fit(report.areas@),
    ensures
        r@ == join_lines(status_lines(*report)),
{
    let mut lines: Vec<String> = Vec::new();
    let l0 = count_line_exec(Category::Inbox, report.counts[0]);
    let l1 = count_line_exec(Category::Project, report.counts[1]);
    lines.push(l0);
    lines.push(l1);
    assert(views(lines@) =~= seq![l0@, l1@]);
    let pr = render_status_items(&report.projects);
    append_lines(&mut lines, pr);
    let l2 = count_line_exec(Category::Area, report.counts[2]);
    let ghost g2 = views(lines@);
    lines.push(l2);
    assert(views(lines@) =~= g2.push(l2@));
    let ar = render_status_items(&report.areas);
    append_lines(&mut lines, ar);
    let l3 = count_line_exec(Category::Resource, report.counts[3]);
    let l4 = count_line_exec(Category::Archive, report.counts[4]);
    let ghost g3 = views(lines@);
    lines.push(l3);
    lines.push(l4);
    assert(views(lines@) =~= g3.push(l3@).push(l4@));
    assert(views(lines@) =~= status_lines(*report));
    join_strings(&lines)
}

/// A finished path piece joins the components unless it is empty (from a
/// doubled or trailing `/`) or `.`.
pub open spec fn close_piece(done: Seq<Seq<char>>, cur: Seq<char>) -> Seq<Seq<char>> {
    if cur.len() == 0 || cur == "."@ {
        done
    } else {
        done.push(cur)
    }
}

/// Scanning `s`: the components finished so far and the piece being read.
pub open spec fn pieces(s: Seq<char>) -> (Seq<Seq<char>>, Seq<char>)
    decreases s.len(),
{
    if s.len() == 0 {
        (Seq::empty(), Seq::empty())
    } else {
        let (done, cur) = pieces(s.drop_last());
        if s.last() == '/' {
            (close_piece(done, cur), Seq::empty())
        } else {
            (done, cur.push(s.last()))
        }
    }
}

/// The components of a `/`-separated path, as `Path::components` reads
/// them: the pieces between separators, with empty pieces (doubled or
/// trailing `/`) and `.` left out.
pub open spec fn path_components(s: Seq<char>) -> Seq<Seq<char>> {
    close_piece(pieces(s).0, pieces(s).1)
}

pub open spec fn is_absolute(s: Seq<char>) -> bool {
    s.len() > 0 && s[0] == '/'
}

/// `path` relative to `dir`, as `Path::strip_prefix` gives it: when both
/// are absolute or both relative and `dir`'s components begin `path`'s,
/// the remaining components joined by `/`.
pub open spec fn strip_dir(path: Seq<char>, dir: Seq<char>) -> Option<Seq<char>> {
    let pc = path_components(path);
    let dc = path_components(dir);
    if is_absolute(path) == is_absolute(dir) && dc.len() <= pc.len() && pc.take(dc.len() as int) == dc {
        Some(join_with(pc.skip(dc.len() as int), "/"@))
    } else {
        None
    }
}

/// An archive origin subfolder name, lowercased when it is one of the
/// four known ones.
pub open spec fn lower_origin(o: Seq<char>) -> Seq<char> {
    if origin_position(o) >= 0 {
        live_qualifier(spec_archivable()[origin_position(o)])
    } else {
        o
    }
}

/// How a path under category folder `c` is shown, given its part `rest`
/// below that folder, as pushing path pieces onto a `PathBuf` shows it:
/// the lowercase category name, a `/`, then `rest`; for the archive, the
/// first piece of `rest` (the origin subfolder) lowercased, a `/`, then the
/// remainder (so `archive/` alone, or `archive/projects/` for the origin
/// folder itself).
pub open spec fn display_under(c: Category, rest: Seq<char>) -> Seq<char> {
    if c != Category::Archive {
        live_qualifier(c) + "/"@ + rest
    } else if rest.len() == 0 {
        "archive/"@
    } else {
        let i = first_index_of(rest, '/');
        if i < 0 {
            "archive/"@ + lower_origin(rest) + "/"@
        } else {
            "archive/"@ + lower_origin(rest.take(i)) + "/"@ + rest.skip(i + 1)
        }
    }
}

/// `display_under` for the first category (Inbox, Project, Area,
/// Resource, Archive, in that order) at position `k` or later whose folder
/// holds `path`; `path` unchanged when none does.
pub open spec fn display_from(ws: Workspace, path: Seq<char>, k: int) -> Seq<char>
    decreases 5 - k,
{
    if k >= 5 || k < 0 {
        path
    } else {
        match strip_dir(path, ws.category_dir_spec(category_at(k))) {
            Some(rest) => display_under(category_at(k), rest),
            None => display_from(ws, path, k + 1),
        }
    }
}

/// How `path` is shown in messages: relative to the workspace, with the
/// category folder replaced by its lowercase name.
pub open spec fn display_path_spec(ws: Workspace, path: Seq<char>) -> Seq<char> {
    display_from(ws, path, 0)
}

fn close_piece_exec(done: &mut Vec<String>, cur: String)
    ensures
        views(final(done)@) == close_piece(views(old(done)@), cur@),
{
    proof {
        reveal_strlit(".");
    }
    if cur.unicode_len() == 0 || crate::text::str_eq(cur.as_str(), ".") {
        return;
    }
    let ghost before = done@;
    done.push(cur);
    assert(views(done@) =~= views(before).push(cur@));
}

/// The components of a path (see `path_components`).
fn components_of(s: &str) -> (r: Vec<String>)
    ensures
        views(r@) == path_components(s@),
{
    let v = chars_of(s);
    let mut done: Vec<String> = Vec::new();
    let mut cur = String::new();
    let mut i: usize = 0;
    assert(v@.take(0) =~= Seq::<char>::empty());
    assert(views(done@) =~= Seq::<Seq<char>>::empty());
    while i < v.len()
        invariant
            v@ == s@,
            i <= v.len(),
            (views(done@), cur@) == pieces(v@.take(i as int)),
        decreases v.len() - i,
    {
        proof {
            let t = v@.take(i + 1);
            assert(t.drop_last() =~= v@.take(i as int));
            assert(t.last() == v@[i as int]);
        }
        if v[i] == '/' {
            let piece = cur;
            cur = String::new();
            close_piece_exec(&mut done, piece);
        } else {
            push_char(&mut cur, v[i]);
        }
        i = i + 1;
    }
    assert(v@.take(v.len() as int) =~= s@);
    close_piece_exec(&mut done, cur);
    done
}

fn strip_dir_exec(path: &str, dir: &str) -> (r: Option<String>)
    ensures
        match r {
            Some(rest) => strip_dir(path@, dir@) == Some(rest@),
            None => strip_dir(path@, dir@) is None,
        },
{
    let pv = chars_of(path);
    let dv = chars_of(dir);
    let pa = pv.len() > 0 && pv[0] == '/';
    let da = dv.len() > 0 && dv[0] == '/';
    if pa != da {
        return None;
    }
    assert(is_absolute(path@) == is_absolute(dir@));
    let pc = components_of(path);
    let dc = components_of(dir);
    if dc.len() > pc.len() {
        return None;
    }
    let mut k: usize = 0;
    while k < dc.len()
        invariant
            k <= dc.len() <= pc.len(),
            forall|j: int| 0 <= j < k ==> #[trigger] views(pc@)[j] == views(dc@)[j],
            views(pc@) == path_components(path@),
            views(dc@) == path_components(dir@),
            is_absolute(path@) == is_absolute(dir@),
        decreases dc.len() - k,
    {
        if !crate::text::str_eq(pc[k].as_str(), dc[k].as_str()) {
            proof {
                let t = views(pc@).take(dc.len() as int);
                assert(t[k as int] != views(dc@)[k as int]);
                if t == views(dc@) {
                    assert(t[k as int] == views(dc@)[k as int]);
                }
                assert(is_absolute(path@) == is_absolute(dir@));
            }
            return None;
        }
        k = k + 1;
    }
    assert(views(pc@).take(dc.len() as int) =~= views(dc@));
    let mut tail: Vec<String> = Vec::new();
    let mut j: usize = dc.len();
    while j < pc.len()
        invariant
            dc.len() <= j <= pc.len(),
            views(tail@) == views(pc@).subrange(dc.len() as int, j as int),
        decreases pc.len() - j,
    {
        let ghost before = tail@;
        tail.push(pc[j].clone());
        assert(views(tail@) =~= views(before).push(pc@[j as int]@));
        assert(views(pc@).subrange(dc.len() as int, j + 1) =~= views(pc@).subrange(dc.len() as int, j as int).push(pc@[j as int]@));
        j = j + 1;
    }
    assert(views(pc@).subrange(dc.len() as int, pc.len() as int) =~= views(pc@).skip(dc.len() as int));
    proof {
        reveal_strlit("/");
    }
    Some(join_with_exec(&tail, "/"))
}

fn live_qualifier_str(c: Category) -> (r: &'static str)
    ensures
        r@ == live_qualifier(c),
{
    match c {
        Category::Inbox => "inbox",
        Category::Project => "projects",
        Category::Area => "areas",
        Category::Resource => "resources",
        Category::Archive => "archive",
    }
}

fn lower_origin_exec(o: &str) -> (r: String)
    ensures
        r@ == lower_origin(o@),
{
    proof {
        reveal_strlit("Inbox");
        reveal_strlit("Projects");
        reveal_strlit("Areas");
        reveal_strlit("Resources");
    }
    if crate::text::str_eq(o, "Inbox") {
        String::from_str("inbox")
    } else if crate::text::str_eq(o, "Projects") {
        String::from_str("projects")
    } else if crate::text::str_eq(o, "Areas") {
        String::from_str("areas")
    } else if crate::text::str_eq(o, "Resources") {
        String::from_str("resources")
    } else {
        o.to_owned()
    }
}

fn first_slash_str(s: &str) -> (r: Option<usize>)
    ensures
        match r {
            Some(i) => i < s@.len() && first_index_of(s@, '/') == i as int,
            None => first_index_of(s@, '/') == -1,
        },
{
    let v = chars_of(s);
    let mut i: usize = 0;
    assert(v@.skip(0) =~= v@);
    while i < v.len()
        invariant
            v@ == s@,
            i <= v.len(),
            first_index_of(v@, '/') == (if first_index_of(v@.skip(i as int), '/') < 0 {
                -1
            } else {
                first_index_of(v@.skip(i as int), '/') + i
            }),
        decreases v.len() - i,
    {
        assert(v@.skip(i as int)[0] == v@[i as int]);
        assert(v@.skip(i as int).drop_first() =~= v@.skip(i + 1));
        if v[i] == '/' {
            return Some(i);
        }
        i = i + 1;
    }
    None
}

fn display_under_exec(c: Category, rest: &str) -> (r: String)
    ensures
        r@ == display_under(c, rest@),
{
    proof {
        reveal_strlit("/");
        reveal_strlit("archive/");
    }
    if c != Category::Archive {
        return concat3(live_qualifier_str(c), "/", rest);
    }
    if rest.unicode_len() == 0 {
        return String::from_str("archive/");
    }
    match first_slash_str(rest) {
        None => {
            let o = lower_origin_exec(rest);
            concat3("archive/", o.as_str(), "/")
        },
        Some(i) => {
            let n = rest.unicode_len();
            let head = rest.substring_char(0, i);
            let tail = rest.substring_char(i + 1, n);
            let o = lower_origin_exec(head);
            let mut r = concat3("archive/", o.as_str(), "/");
            r.append(tail);
            r
        },
    }
}

/// Renders `path` for messages: relative to the workspace root, with the
/// (possibly renamed) category folder shown as its lowercase name, e.g.
/// `0-Inbox/notes.md` -> `inbox/notes.md`, and for archived items the
/// origin subfolder lowercased too (`4-Archive/Projects/foo` ->
/// `archive/projects/foo`). A path outside every category folder is shown
/// as it is.
pub fn display_path(ws: &Workspace, path: &str) -> (r: String)
    ensures
        r@ == display_path_spec(*ws, path@),
{
    let mut k: usize = 0;
    while k < 5
        invariant
            k <= 5,
            display_path_spec(*ws, path@) == display_from(*ws, path@, k as int),
        decreases 5 - k,
    {
        let c = if k == 0 {
            Category::Inbox
        } else if k == 1 {
            Category::Project
        } else if k == 2 {
            Category::Area
        } else if k == 3 {
            Category::Resource
        } else {
            Category::Archive
        };
        assert(c == category_at(k as int));
        let dir = ws.category_dir(c);
        if let Some(rest) = strip_dir_exec(path, dir.as_str()) {
            return display_under_exec(c, rest.as_str());
        }
        k = k + 1;
    }
    path.to_owned()
}

/// Why a move or unarchive was refused.
#[derive(Debug)]
pub enum CliError {
    /// No item has this name.
    NotFound { name: String },
    /// `unarchive` was given an item that is not in the archive.
    NotArchived { name: String },
    /// The item operation refused it.
    Items(ItemsError),
}

/// A move that has been checked and can be carried out.
#[derive(Debug, Clone, PartialEq, Eq)]
pub struct MovePlan {
    /// The item to move.
    pub item: Located,
    /// Where it goes.
    pub dest: String,
    /// Whether a summary is asked for and stamped into it first (moves
    /// into the archive).
    pub stamp_summary: bool,
    /// The file whose frontmatter takes the summary.
    pub note: String,
    /// The confirmation printed once it has moved.
    pub message: String,
}

/// `Moved <from> to <to>`, both shown via `display_path`.
pub open spec fn moved_message(ws: Workspace, from: Seq<char>, to: Seq<char>) -> Seq<char> {
    "Moved "@ + display_path_spec(ws, from) + " to "@ + display_path_spec(ws, to)
}

fn moved_message_exec(ws: &Workspace, from: &str, to: &str) -> (r: String)
    ensures
        r@ == moved_message(*ws, from@, to@),
{
    proof {
        reveal_strlit("Moved ");
        reveal_strlit(" to ");
    }
    let a = display_path(ws, from);
    let b = display_path(ws, to);
    let mut r = concat3("Moved ", a.as_str(), " to ");
    r.append(b.as_str());
    r
}

/// Plans `move <name> <target>` (and `archive <name>`): resolves the name
/// with `locate`, refuses what `move_destination` refuses, and otherwise
/// says where the item goes, whether to stamp a summary first (only when
/// archiving), and the message to print.
pub fn run_move(ws: &Workspace, cat: &Catalog, name: &str, target: Category) -> (r: Result<MovePlan, CliError>)
    ensures
        match locate_target(*cat, name@) {
            Err(()) => r matches Err(CliError::Items(ItemsError::Ambiguous { name: n })) && n@ == name@,
            Ok(None) => r matches Err(CliError::NotFound { name: n }) && n@ == name@,
            Ok(Some((archived, k, j))) => match r {
                Ok(p) => located_at(*cat, p.item, archived, k, j) && move_destination_spec(*ws, p.item, target)
                    == Ok::<Seq<char>, ()>(p.dest@) && p.stamp_summary == (target == Category::Archive)
                    && p.note@ == item_note_spec(*ws, p.item) && p.message@ == moved_message(*ws, p.item.path@, p.dest@),
                Err(CliError::Items(e)) => exists|l: Located| #[trigger] located_at(*cat, l, archived, k, j)
                    && move_destination_spec(*ws, l, target) is Err && move_refusal(l, target, e),
                _ => false,
            },
        },
{
    let item = match locate(cat, name) {
        Err(e) => return Err(CliError::Items(e)),
        Ok(None) => return Err(CliError::NotFound { name: name.to_owned() }),
        Ok(Some(l)) => l,
    };
    match move_destination(ws, &item, target) {
        Err(e) => Err(CliError::Items(e)),
        Ok(dest) => {
            let message = moved_message_exec(ws, item.path.as_str(), dest.as_str());
            let note = item_note(ws, &item);
            Ok(MovePlan { item, dest, stamp_summary: target == Category::Archive, note, message })
        },
    }
}

/// Plans `unarchive <Origin>/<name>`: the named item must be in the
/// archive; it goes back to the category it was archived from.
pub fn run_unarchive(ws: &Workspace, cat: &Catalog, name: &str) -> (r: Result<MovePlan, CliError>)
    ensures
        match locate_target(*cat, name@) {
            Err(()) => r matches Err(CliError::Items(ItemsError::Ambiguous { name: n })) && n@ == name@,
            Ok(None) => r matches Err(CliError::NotFound { name: n }) && n@ == name@,
            Ok(Some((archived, k, j))) => if !archived {
                r matches Err(CliError::NotArchived { name: n }) && n@ == name@
            } else {
                r matches Ok(p) && located_at(*cat, p.item, archived, k, j)
                    && move_destination_spec(*ws, p.item, spec_archivable()[k]) == Ok::<Seq<char>, ()>(p.dest@)
                    && !p.stamp_summary && p.note@ == item_note_spec(*ws, p.item)
                    && p.message@ == moved_message(*ws, p.item.path@, p.dest@)
            },
        },
{
    let item = match locate(cat, name) {
        Err(e) => return Err(CliError::Items(e)),
        Ok(None) => return Err(CliError::NotFound { name: name.to_owned() }),
        Ok(Some(l)) => l,
    };
    if item.category != Category::Archive {
        return Err(CliError::NotArchived { name: name.to_owned() });
    }
    let target = match item.origin {
        Some(o) => o,
        None => return Err(CliError::NotArchived { name: name.to_owned() }),
    };
    match move_destination(ws, &item, target) {
        Err(e) => Err(CliError::Items(e)),
        Ok(dest) => {
            let message = moved_message_exec(ws, item.path.as_str(), dest.as_str());
            let note = item_note(ws, &item);
            Ok(MovePlan { item, dest, stamp_summary: false, note, message })
        },
    }
}

/// How many of `named` carry the name `name`.
pub open spec fn name_count(named: Seq<(Category, String)>, name: Seq<char>) -> nat
    decreases named.len(),
{
    if named.len() == 0 {
        0
    } else {
        name_count(named.drop_last(), name) + if named.last().1@ == name {
            1nat
        } else {
            0nat
        }
    }
}

/// A live item's completion name: bare when no other live item shares its
/// name, else qualified as `<category>/<name>`.
pub open spec fn completion_name(named: Seq<(Category, String)>, c: Category, name: Seq<char>) -> Seq<char> {
    if name_count(named, name) > 1 {
        live_qualifier(c) + "/"@ + name
    } else {
        name
    }
}

fn name_count_exec(named: &Vec<(Category, String)>, name: &str) -> (r: usize)
    ensures
        r == name_count(named@, name@),
{
    let mut n: usize = 0;
    let mut i: usize = 0;
    while i < named.len()
        invariant
            i <= named.len(),
            n == name_count(named@.take(i as int), name@),
            n <= i,
        decreases named.len() - i,
    {
        proof {
            let t = named@.take(i + 1);
            assert(t.drop_last() =~= named@.take(i as int));
        }
        if crate::text::str_eq(named[i].1.as_str(), name) {
            n = n + 1;
        }
        i = i + 1;
    }
    assert(named@.take(named.len() as int) =~= named@);
    n
}

/// Completion names for every live item, given as (category, name)
/// pairs: a name that occurs in more than one category is qualified as
/// `<category>/<name>` (which `locate` accepts), a unique one stays bare.
pub fn live_item_names(named: &Vec<(Category, String)>) -> (r: Vec<String>)
    ensures
        r@.len() == named@.len(),
        forall|i: int| 0 <= i < named@.len() ==> #[trigger] r@[i]@ == completion_name(named@, named@[i].0, named@[i].1@),
{
    let mut r: Vec<String> = Vec::new();
    let mut i: usize = 0;
    while i < named.len()
        invariant
            i <= named.len(),
            r@.len() == i,
            forall|k: int| 0 <= k < i ==> #[trigger] r@[k]@ == completion_name(named@, named@[k].0, named@[k].1@),
        decreases named.len() - i,
    {
        let (c, ref n) = named[i];
        let count = name_count_exec(named, n.as_str());
        let out = if count > 1 {
            proof {
                reveal_strlit("/");
            }
            concat3(live_qualifier_str(c), "/", n.as_str())
        } else {
            n.clone()
        };
        r.push(out);
        i = i + 1;
    }
    r
}

/// `e` is the (category, name) pair of live item `j` of category
/// position `k`.
pub open spec fn names_live_item(cat: Catalog, e: (Category, String), k: int, j: int) -> bool {
    0 <= k < 4 && 0 <= j < cat.live[k]@.len() && e.0 == spec_archivable()[k] && e.1@
        == cat.live[k]@[j].name@
}

/// `named` lists the live items of `cat`: every pair is some live item's
/// category and name, and every live item has its pair.
pub open spec fn live_named(cat: Catalog, named: Seq<(Category, String)>) -> bool {
    &&& forall|i: int| 0 <= i < named.len() ==> #[trigger] is_live_pair(cat, named[i])
    &&& forall|k: int, j: int| 0 <= k < 4 && 0 <= j < cat.live[k]@.len() ==> #[trigger] listed_in(cat, named, k, j)
}

/// `e` is the pair of some live item.
pub open spec fn is_live_pair(cat: Catalog, e: (Category, String)) -> bool {
    exists|k: int, j: int| #[trigger] names_live_item(cat, e, k, j)
}

/// Some pair of `named` is that of live item `j` of category position `k`.
pub open spec fn listed_in(cat: Catalog, named: Seq<(Category, String)>, k: int, j: int) -> bool {
    exists|i: int| 0 <= i < named.len() && #[trigger] names_live_item(cat, named[i], k, j)
}

/// A (category, name) pair as plain values.
pub open spec fn pair_view(p: (Category, String)) -> (Category, Seq<char>) {
    (p.0, p.1@)
}

/// The pairs of the live items of category position `k`, in folder order.
pub open spec fn category_pairs(cat: Catalog, k: int) -> Seq<(Category, Seq<char>)> {
    cat.live[k]@.map_values(|s: Scanned| (spec_archivable()[k], s.name@))
}

/// The pairs of the live items of the first `k` category positions.
pub open spec fn pairs_before(cat: Catalog, k: int) -> Seq<(Category, Seq<char>)>
    decreases k,
{
    if k <= 0 {
        Seq::empty()
    } else {
        pairs_before(cat, k - 1) + category_pairs(cat, k - 1)
    }
}

/// The (category, name) pairs of every live item of a catalog, in
/// category order, each category's items in folder order.
pub fn catalog_live_names(cat: &Catalog) -> (r: Vec<(Category, String)>)
    ensures
        r@.map_values(|p: (Category, String)| pair_view(p)) == pairs_before(*cat, 4),
        live_named(*cat, r@),
{
    let origins = Category::archivable();
    let mut r: Vec<(Category, String)> = Vec::new();
    let mut k: usize = 0;
    while k < 4
        invariant
            k <= 4,
            origins@ == spec_archivable(),
            forall|i: int| 0 <= i < r@.len() ==> #[trigger] is_live_pair(*cat, r@[i]),
            forall|k2: int, j2: int|
                0 <= k2 < k && 0 <= j2 < cat.live[k2]@.len() ==> #[trigger] listed_in(*cat, r@, k2, j2),
            r@.map_values(|p: (Category, String)| pair_view(p)) == pairs_before(*cat, k as int),
        decreases 4 - k,
    {
        let mut j: usize = 0;
        assert(category_pairs(*cat, k as int).take(0) =~= Seq::<(Category, Seq<char>)>::empty());
        assert(pairs_before(*cat, k as int) + Seq::<(Category, Seq<char>)>::empty() =~= pairs_before(*cat, k as int));
        while j < cat.live[k].len()
            invariant
                k < 4,
                j <= cat.live[k as int]@.len(),
                origins@ == spec_archivable(),
                forall|i: int| 0 <= i < r@.len() ==> #[trigger] is_live_pair(*cat, r@[i]),
                forall|k2: int, j2: int|
                    (0 <= k2 < k && 0 <= j2 < cat.live[k2]@.len()) || (k2 == k && 0 <= j2 < j) ==> #[trigger] listed_in(*cat, r@, k2, j2),
                r@.map_values(|p: (Category, String)| pair_view(p)) == pairs_before(*cat, k as int)
                    + category_pairs(*cat, k as int).take(j as int),
            decreases cat.live[k as int]@.len() - j,
        {
            let ghost old_r = r@;
            let pair = (origins[k], cat.live[k][j].name.clone());
            r.push(pair);
            proof {
                assert forall|i: int| 0 <= i < old_r.len() implies #[trigger] r@[i] == old_r[i] by {}
                assert(names_live_item(*cat, r@[old_r.len() as int], k as int, j as int));
                assert forall|i: int| 0 <= i < r@.len() implies #[trigger] is_live_pair(*cat, r@[i]) by {
                    if i < old_r.len() {
                        assert(r@[i] == old_r[i]);
                        assert(is_live_pair(*cat, old_r[i]));
                    } else {
                        assert(names_live_item(*cat, r@[i], k as int, j as int));
                    }
                }
                assert forall|k2: int, j2: int|
                    (0 <= k2 < k && 0 <= j2 < cat.live[k2]@.len()) || (k2 == k && 0 <= j2 < j + 1) implies #[trigger] listed_in(*cat, r@, k2, j2) by {
                    if k2 == k && j2 == j {
                        assert(names_live_item(*cat, r@[old_r.len() as int], k2, j2));
                    } else {
                        assert(listed_in(*cat, old_r, k2, j2));
                        let i0 = choose|i: int| 0 <= i < old_r.len() && #[trigger] names_live_item(*cat, old_r[i], k2, j2);
                        assert(r@[i0] == old_r[i0]);
                        assert(names_live_item(*cat, r@[i0], k2, j2));
                    }
                }
                let cp = category_pairs(*cat, k as int);
                assert(cp.take(j + 1) =~= cp.take(j as int).push(cp[j as int]));
                assert(r@.map_values(|p: (Category, String)| pair_view(p)) =~= old_r.map_values(
                    |p: (Category, String)| pair_view(p),
                ).push(pair_view(pair)));
                assert(r@.map_values(|p: (Category, String)| pair_view(p)) =~= pairs_before(*cat, k as int)
                    + cp.take(j + 1));
            }
            j = j + 1;
        }
        assert(category_pairs(*cat, k as int).take(j as int) =~= category_pairs(*cat, k as int));
        k = k + 1;
    }
    r
}

/// A name carried at one position is counted.
proof fn lemma_name_counted(named: Seq<(Category, String)>, name: Seq<char>, i: int)
    requires
        0 <= i < named.len(),
        named[i].1@ == name,
    ensures
        name_count(named, name) >= 1,
    decreases named.len(),
{
    if i < named.len() - 1 {
        lemma_name_counted(named.drop_last(), name, i);
    }
}

/// A name carried at two positions is counted at least twice.
proof fn lemma_name_counted_twice(named: Seq<(Category, String)>, name: Seq<char>, i1: int, i2: int)
    requires
        0 <= i1 < i2 < named.len(),
        named[i1].1@ == name,
        named[i2].1@ == name,
    ensures
        name_count(named, name) >= 2,
    decreases named.len(),
{
    if i2 == named.len() - 1 {
        lemma_name_counted(named.drop_last(), name, i1);
    } else {
        lemma_name_counted_twice(named.drop_last(), name, i1, i2);
    }
}

/// A name held by the live item at `(k0, j0)` and counted at most once is
/// held by no other live category.
proof fn lemma_single_name_single_category(
    cat: Catalog,
    named: Seq<(Category, String)>,
    i: int,
    k0: int,
    k: int,
)
    requires
        live_named(cat, named),
        0 <= i < named.len(),
        0 <= k0 < 4,
        0 <= k < 4,
        k != k0,
        named[i].0 == spec_archivable()[k0],
        name_count(named, named[i].1@) <= 1,
    ensures
        hit(cat.live[k]@, named[i].1@) == 0,
{
    let n = named[i].1@;
    lemma_first_match_found(cat.live[k]@, n);
    if let Some(j) = first_match(cat.live[k]@, n) {
        assert(listed_in(cat, named, k, j));
        let i2 = choose|i2: int| 0 <= i2 < named.len() && #[trigger] names_live_item(cat, named[i2], k, j);
        assert(spec_archivable()[k] != spec_archivable()[k0]);
        if i < i2 {
            lemma_name_counted_twice(named, n, i, i2);
        } else {
            lemma_name_counted_twice(named, n, i2, i);
        }
    }
}

/// Every live item's completion name resolves, through `locate`, to a live
/// item of that name in that item's category: a bare name is offered only
/// when no other live item shares it, so `locate` never refuses a
/// completion as ambiguous. (Item names hold no `/`, as file names cannot.)
pub proof fn lemma_completion_names_resolve(cat: Catalog, named: Seq<(Category, String)>, i: int)
    requires
        live_named(cat, named),
        forall|k: int, j: int|
            0 <= k < 4 && 0 <= j < cat.live[k]@.len() ==> !(#[trigger] cat.live[k]@[j]).name@.contains('/'),
        0 <= i < named.len(),
    ensures
        locate_target(cat, completion_name(named, named[i].0, named[i].1@)) matches Ok(
            Some((archived, k, j)),
        ) && !archived && spec_archivable()[k] == named[i].0 && 0 <= j < cat.live[k]@.len()
            && cat.live[k]@[j].name@ == named[i].1@,
{
    let c = named[i].0;
    let n = named[i].1@;
    assert(is_live_pair(cat, named[i]));
    let (k0, j0) = choose|k: int, j: int| #[trigger] names_live_item(cat, named[i], k, j);
    let items = cat.live[k0]@;
    assert(items[j0].name@ == n);
    lemma_first_match_found(items, n);
    let j = first_match(items, n)->0;
    assert(hit(items, n) == 1);
    reveal_strlit("inbox");
    reveal_strlit("projects");
    reveal_strlit("areas");
    reveal_strlit("resources");
    reveal_strlit("Inbox");
    reveal_strlit("Projects");
    reveal_strlit("Areas");
    reveal_strlit("Resources");
    reveal_strlit("/");
    if name_count(named, n) <= 1 {
        crate::items::lemma_no_slash_first_index(n);
        assert forall|k: int| 0 <= k < 4 && k != k0 implies hit(#[trigger] cat.live[k]@, n) == 0 by {
            lemma_single_name_single_category(cat, named, i, k0, k);
        }
        assert(k0 == 0 || hit(cat.live[0]@, n) == 0);
        assert(k0 == 1 || hit(cat.live[1]@, n) == 0);
        assert(k0 == 2 || hit(cat.live[2]@, n) == 0);
        assert(k0 == 3 || hit(cat.live[3]@, n) == 0);
        assert(live_hits(cat, n) == 1);
        assert(first_live_hit(cat, n) == k0);
        assert(!n.contains('/'));
        assert(completion_name(named, c, n) == n);
        assert(first_index_of(n, '/') == -1);
        assert(locate_target(cat, n) == Ok::<Option<(bool, int, int)>, ()>(Some((false, k0, j))));
    } else {
        let q = live_qualifier(c);
        let name = q + "/"@ + n;
        assert(!q.contains('/')) by {
            assert forall|x: int| 0 <= x < q.len() implies q[x] != '/' by {}
        }
        assert(name =~= q + ("/"@ + n));
        lemma_first_index_of_concat(q, "/"@ + n, '/');
        assert(("/"@ + n)[0] == '/');
        assert(first_index_of("/"@ + n, '/') == 0);
        assert(first_index_of(name, '/') == q.len());
        assert(name.take(q.len() as int) =~= q);
        assert(name.skip(q.len() + 1int) =~= n);
        assert(q[0] != 'I' && q[0] != 'P' && q[0] != 'A' && q[0] != 'R');
        assert(origin_position(q) == -1);
        assert(qualifier_position(q) == k0);
        assert(completion_name(named, c, n) == name);
        assert(locate_target(cat, name) == Ok::<Option<(bool, int, int)>, ()>(Some((false, k0, j))));
    }
}

/// Completion names for archived items: their qualified
/// `<Origin>/<name>` listing names.
pub fn archived_item_names(items: &Vec<ListedItem>) -> (r: Vec<String>)
    ensures
        r@.len() == items@.len(),
        forall|i: int| 0 <= i < items@.len() ==> #[trigger] r@[i]@ == items@[i].name@,
{
    let mut r: Vec<String> = Vec::new();
    let mut i: usize = 0;
    while i < items.len()
        invariant
            i <= items.len(),
            r@.len() == i,
            forall|k: int| 0 <= k < i ==> #[trigger] r@[k]@ == items@[k].name@,
        decreases items.len() - i,
    {
        r.push(items[i].name.clone());
        i = i + 1;
    }
    r
}

/// Position of the last `/` in `s`, or -1.
pub open spec fn last_slash(s: Seq<char>) -> int
    decreases s.len(),
{
    if s.len() == 0 {
        -1
    } else if s.last() == '/' {
        s.len() - 1
    } else {
        last_slash(s.drop_last())
    }
}

/// A candidate is offered for the typed text `current` when `current`
/// begins it, or begins the part of it after its last `/`.
pub open spec fn candidate_matches(candidate: Seq<char>, current: Seq<char>) -> bool {
    starts_with(candidate, current) || (last_slash(candidate) >= 0 && starts_with(
        candidate.skip(last_slash(candidate) + 1),
        current,
    ))
}

fn last_slash_exec(v: &Vec<char>) -> (r: Option<usize>)
    ensures
        match r {
            Some(i) => i < v@.len() && last_slash(v@) == i as int,
            None => last_slash(v@) == -1,
        },
{
    let mut i: usize = v.len();
    assert(v@.take(v.len() as int) =~= v@);
    while i > 0
        invariant
            i <= v.len(),
            last_slash(v@) == last_slash(v@.take(i as int)),
        decreases i,
    {
        let t = Ghost(v@.take(i as int));
        assert(t@.last() == v@[i - 1]);
        assert(t@.drop_last() =~= v@.take(i - 1));
        if v[i - 1] == '/' {
            return Some(i - 1);
        }
        i = i - 1;
    }
    None
}

/// Whether a completion candidate (possibly qualified `<category>/<name>`)
/// should be offered for the in-progress argument `current`.
pub fn completion_candidate_matches(candidate: &str, current: &str) -> (r: bool)
    ensures
        r == candidate_matches(candidate@, current@),
{
    if starts_with_str(candidate, current) {
        return true;
    }
    let v = chars_of(candidate);
    match last_slash_exec(&v) {
        None => false,
        Some(i) => {
            assert(i < v.len());
            let tail = candidate.substring_char(i + 1, v.len());
            starts_with_str(tail, current)
        },
    }
}

/// The names of the category folders that do not exist yet, in category
/// order: what `init` creates.
pub open spec fn missing_dirs(dirs: Seq<Seq<char>>, exists: Seq<bool>) -> Seq<Seq<char>>
    decreases dirs.len(),
{
    if dirs.len() == 0 || exists.len() < dirs.len() {
        Seq::empty()
    } else {
        let rest = missing_dirs(dirs.drop_last(), exists.take(dirs.len() - 1));
        if exists[dirs.len() - 1] {
            rest
        } else {
            rest.push(dirs.last())
        }
    }
}

/// The first line `init` prints: a full creation, an already-complete
/// system, or the list of folders it filled in.
pub open spec fn init_summary(created: Seq<Seq<char>>, display: Seq<char>) -> Seq<char> {
    if created.len() == 5 {
        "Created PARA system in "@ + display
    } else if created.len() == 0 {
        "PARA system in "@ + display + " is already complete; no changes made"@
    } else {
        "Created "@ + join_with(created, ", "@) + " in "@ + display
    }
}

/// `parts` joined with `sep` between them.
pub open spec fn join_with(parts: Seq<Seq<char>>, sep: Seq<char>) -> Seq<char>
    decreases parts.len(),
{
    if parts.len() == 0 {
        Seq::empty()
    } else if parts.len() == 1 {
        parts[0]
    } else {
        join_with(parts.drop_last(), sep) + sep + parts.last()
    }
}

/// How `init` names its target: `./<name>`, or `.` for the current
/// folder.
pub open spec fn init_display(name: Option<Seq<char>>) -> Seq<char> {
    match name {
        Some(n) => "./"@ + n,
        None => "."@,
    }
}

/// Everything `init` prints, line by line: the summary, then one
/// instruction for each editor/agent file that already existed and so was
/// left alone (Zed, then VS Code, then the agent notes file named
/// `agent_notes`).
pub open spec fn init_lines(
    name: Option<Seq<char>>,
    created: Seq<Seq<char>>,
    archive_dir: Seq<char>,
    zed_created: bool,
    vscode_created: bool,
    agent_notes: Seq<char>,
    notes_created: bool,
) -> Seq<Seq<char>> {
    seq![init_summary(created, init_display(name))] + (if zed_created {
        Seq::empty()
    } else {
        seq!["Manually add \""@ + archive_dir + "\" to .zed/settings.json's file_scan_exclude."@]
    }) + (if vscode_created {
        Seq::empty()
    } else {
        seq!["Manually add \""@ + archive_dir + "\" to .vscode/settings.json's files.exclude/search.exclude."@]
    }) + (if notes_created {
        Seq::empty()
    } else {
        seq!["Manually add an instruction to "@ + agent_notes + " not to read files under \""@ + archive_dir + "\" unless asked."@]
    })
}

fn join_with_exec(parts: &Vec<String>, sep: &str) -> (r: String)
    ensures
        r@ == join_with(views(parts@), sep@),
{
    if parts.len() == 0 {
        assert(views(parts@) =~= Seq::<Seq<char>>::empty());
        return String::new();
    }
    let mut out = parts[0].clone();
    let mut i: usize = 1;
    assert(views(parts@).take(1) =~= seq![parts@[0]@]);
    while i < parts.len()
        invariant
            1 <= i <= parts.len(),
            out@ == join_with(views(parts@).take(i as int), sep@),
        decreases parts.len() - i,
    {
        proof {
            let t = views(parts@).take(i + 1);
            assert(t.drop_last() =~= views(parts@).take(i as int));
            assert(t.last() == parts@[i as int]@);
        }
        out.append(sep);
        out.append(parts[i].as_str());
        i = i + 1;
    }
    assert(views(parts@).take(parts.len() as int) =~= views(parts@));
    out
}

/// The message `init` prints, given what it found and did: which category
/// folders it created (in category order), the archive folder name, and
/// whether each editor/agent file was newly created (`agent_notes` names
/// the agent notes file).
pub fn run_init(
    name: Option<&str>,
    created: &Vec<String>,
    archive_dir: &str,
    zed_created: bool,
    vscode_created: bool,
    agent_notes: &str,
    notes_created: bool,
) -> (r: String)
    ensures
        r@ == join_lines(
            init_lines(
                crate::items::opt_str_view(name),
                views(created@),
                archive_dir@,
                zed_created,
                vscode_created,
                agent_notes@,
                notes_created,
            ),
        ),
{
    proof {
        reveal_strlit("./");
        reveal_strlit(".");
        reveal_strlit("Created PARA system in ");
        reveal_strlit("PARA system in ");
        reveal_strlit(" is already complete; no changes made");
        reveal_strlit("Created ");
        reveal_strlit(", ");
        reveal_strlit(" in ");
        reveal_strlit("Manually add \"");
        reveal_strlit("\" to .zed/settings.json's file_scan_exclude.");
        reveal_strlit("\" to .vscode/settings.json's files.exclude/search.exclude.");
        reveal_strlit("Manually add an instruction to ");
        reveal_strlit(" not to read files under \"");
        reveal_strlit("\" unless asked.");
    }
    let display = match name {
        Some(n) => concat2("./", n),
        None => String::from_str("."),
    };
    let summary = if created.len() == 5 {
        concat2("Created PARA system in ", display.as_str())
    } else if created.len() == 0 {
        concat3("PARA system in ", display.as_str(), " is already complete; no changes made")
    } else {
        let joined = join_with_exec(created, ", ");
        let mut s = concat3("Created ", joined.as_str(), " in ");
        s.append(display.as_str());
        s
    };
    let mut lines: Vec<String> = Vec::new();
    lines.push(summary);
    let ghost g0 = views(lines@);
    if !zed_created {
        lines.push(concat3("Manually add \"", archive_dir, "\" to .zed/settings.json's file_scan_exclude."));
    }
    let ghost g1 = views(lines@);
    if !vscode_created {
        lines.push(concat3("Manually add \"", archive_dir, "\" to .vscode/settings.json's files.exclude/search.exclude."));
    }
    let ghost g2 = views(lines@);
    if !notes_created {
        let mut line = concat3("Manually add an instruction to ", agent_notes, " not to read files under \"");
        line.append(archive_dir);
        line.append("\" unless asked.");
        lines.push(line);
    }
    proof {
        assert(g0 =~= seq![summary@]);
    }
    assert(views(lines@) =~= init_lines(
        crate::items::opt_str_view(name),
        views(created@),
        archive_dir@,
        zed_created,
        vscode_created,
        agent_notes@,
        notes_created,
    ));
    join_strings(&lines)
}

/// The confirmation `config init` prints once it has written the file
/// shown as `display`.
pub fn run_config_init(display: &str) -> (r: String)
    ensures
        r@ == "Created "@ + display@,
{
    proof {
        reveal_strlit("Created ");
    }
    concat2("Created ", display)
}

/// The category folders `init` creates: those of `config` that do not
/// exist yet (`exists` by category position), in category order.
pub fn dirs_to_create(config: &crate::config::Config, exists: &[bool; 5]) -> (r: Vec<String>)
    ensures
        views(r@) == missing_dirs(config.category_dirs@.map_values(|d: String| d@), exists@),
{
    let ghost dirs = config.category_dirs@.map_values(|d: String| d@);
    let mut r: Vec<String> = Vec::new();
    let mut i: usize = 0;
    while i < 5
        invariant
            i <= 5,
            dirs == config.category_dirs@.map_values(|d: String| d@),
            exists@.len() == 5,
            views(r@) == missing_dirs(dirs.take(i as int), exists@.take(i as int)),
        decreases 5 - i,
    {
        let ghost before = r@;
        proof {
            let t = dirs.take(i + 1);
            assert(t.drop_last() =~= dirs.take(i as int));
            assert(exists@.take(i + 1).take(i as int) =~= exists@.take(i as int));
            assert(t.last() == config.category_dirs@[i as int]@);
        }
        if !exists[i] {
            r.push(config.category_dirs[i].clone());
            assert(views(r@) =~= views(before).push(config.category_dirs@[i as int]@));
        }
        i = i + 1;
    }
    assert(dirs.take(5) =~= dirs);
    assert(exists@.take(5) =~= exists@);
    r
}

/// The config file `config init`/`config edit` act on, and how it is
/// shown: `./.ishi.toml` under `cwd`, or with `global` the user-level
/// file (`None` when there is no home folder to put it in).
pub fn config_target(cwd: &str, global: bool, home_config: Option<&str>) -> (r: Option<(String, String)>)
    ensures
        global ==> match home_config {
            Some(h) => (r matches Some(t) && t.0@ == h@ && t.1@ == "~/.ishi.toml"@),
            None => r is None,
        },
        !global ==> (r matches Some(t) && t.0@ == join_path(cwd@, ".ishi.toml"@) && t.1@ == "./.ishi.toml"@),
{
    if global {
        match home_config {
            Some(h) => Some((h.to_owned(), String::from_str("~/.ishi.toml"))),
            None => None,
        }
    } else {
        proof {
            reveal_strlit("/");
        }
        Some((crate::workspace::join(cwd, ".ishi.toml"), String::from_str("./.ishi.toml")))
    }
}

/// The file name `new` suggests for an editor capture: the suggested
/// name itself for a project or area folder, else with the default
/// extension appended.
pub fn new_default_name(category: Category, suggested: &str, default_extension: &str) -> (r: String)
    ensures
        r@ == if crate::category::spec_is_directory_style(category) {
            suggested@
        } else {
            suggested@ + "."@ + default_extension@
        },
{
    if category.is_directory_style() {
        suggested.to_owned()
    } else {
        proof {
            reveal_strlit(".");
        }
        concat3(suggested, ".", default_extension)
    }
}

/// The text `$EDITOR` opens for a capture of `kind`: its template rendered
/// with an empty title (the title is what the capture infers), the
/// `{{cursor}}` marker kept for the editor.
pub fn editor_seed(
    templates: &crate::config::Templates,
    kind: crate::category::Kind,
    date: &str,
    time: &str,
    uuid: &str,
) -> (r: String)
    ensures
        r@ == crate::config::render_full_spec(
            templates.at(crate::config::kind_template_index(kind)),
            Seq::empty(),
            date@,
            time@,
            uuid@,
        ),
{
    proof {
        reveal_strlit("");
    }
    assert(""@ =~= Seq::<char>::empty());
    crate::config::render_full(templates.for_kind(kind), "", date, time, uuid)
}

/// The content of a note created non-interactively: the template rendered
/// with its title, date, time and uuid, and the `{{cursor}}` marker
/// removed.
pub fn named_note_content(template: &str, title: &str, date: &str, time: &str, uuid: &str) -> (r: String)
    ensures
        r@ == crate::text::replace_all(
            crate::config::render_full_spec(template@, title@, date@, time@, uuid@),
            "{{cursor}}"@,
            Seq::empty(),
        ),
{
    let rendered = crate::config::render_full(template, title, date, time, uuid);
    proof {
        reveal_strlit("{{cursor}}");
        reveal_strlit("");
    }
    assert(""@ =~= Seq::<char>::empty());
    crate::text::replace_str(rendered.as_str(), "{{cursor}}", "")
}

/// Typing any prefix of a completion candidate offers that candidate.
pub proof fn lemma_prefix_offers_candidate(candidate: Seq<char>, k: int)
    requires
        0 <= k <= candidate.len(),
    ensures
        candidate_matches(candidate, candidate.take(k)),
{
    assert(candidate.subrange(0, k) =~= candidate.take(k));
}

proof fn lemma_last_slash_is_last(s: Seq<char>)
    ensures
        last_slash(s) >= 0 ==> last_slash(s) < s.len() && s[last_slash(s)] == '/' && forall|j: int|
            last_slash(s) < j < s.len() ==> s[j] != '/',
        last_slash(s) < 0 ==> last_slash(s) == -1 && forall|j: int| 0 <= j < s.len() ==> s[j] != '/',
    decreases s.len(),
{
    if s.len() > 0 && s.last() != '/' {
        let d = s.drop_last();
        lemma_last_slash_is_last(d);
        assert forall|j: int| 0 <= j < d.len() implies #[trigger] d[j] == s[j] by {}
        assert(last_slash(s) == last_slash(d));
        assert forall|j: int| last_slash(s) < j < s.len() implies s[j] != '/' by {
            if j < d.len() {
                assert(d[j] == s[j]);
            } else {
                assert(s[j] == s.last());
            }
        }
        if last_slash(s) >= 0 {
            assert(s[last_slash(s)] == d[last_slash(d)]);
        }
    }
}

/// A completion candidate is offered for the typed text exactly when the
/// text begins the candidate, or begins the part of the candidate after its
/// last `/` (the name of a qualified `<category>/<name>`); text that merely
/// occurs inside the candidate does not offer it.
pub proof fn lemma_candidate_matches_prefixes(candidate: Seq<char>, current: Seq<char>)
    ensures
        candidate_matches(candidate, current) <==> (starts_with(candidate, current) || exists|k: int|
            0 <= k < candidate.len() && candidate[k] == '/' && (forall|j: int|
                k < j < candidate.len() ==> candidate[j] != '/') && #[trigger] starts_with(
                candidate.skip(k + 1),
                current,
            )),
{
    lemma_last_slash_is_last(candidate);
    let ls = last_slash(candidate);
    if ls >= 0 && starts_with(candidate.skip(ls + 1), current) {
        assert(starts_with(candidate.skip(ls + 1), current));
    }
    if exists|k: int|
        0 <= k < candidate.len() && candidate[k] == '/' && (forall|j: int|
            k < j < candidate.len() ==> candidate[j] != '/') && #[trigger] starts_with(
            candidate.skip(k + 1),
            current,
        ) {
        let k = choose|k: int|
            0 <= k < candidate.len() && candidate[k] == '/' && (forall|j: int|
                k < j < candidate.len() ==> candidate[j] != '/') && #[trigger] starts_with(
                candidate.skip(k + 1),
                current,
            );
        if ls < 0 {
            assert(candidate[k] != '/');
        } else if ls < k {
            assert(candidate[k] != '/');
        } else if ls > k {
            assert(candidate[ls] != '/');
        }
        assert(ls == k);
    }
}

} // verus!

//! Items: where each lives, how a category's items are listed, counted and
//! summarised, how a name is resolved to an item, and where a move takes
//! it. The caller scans folders and reads files; these functions take what
//! it found.

use vstd::prelude::*;
use crate::category::{
    Category, category_index, spec_archivable, spec_archive_origin_name, spec_display_name,
    spec_is_directory_style,
};
use crate::order::{
    Named, lemma_multiset_map_values, lemma_sort_by_key_filter, lemma_sort_by_key_map,
    lemma_sort_by_key_sorted, lex_le, sort_by_key, sort_by_name,
    sorted_by_name,
};
use crate::text::{
    chars_of, concat2, concat3, contains_chars, contains_seq, lowercase, occurs_at, push_char, starts_with,
    starts_with_str, to_lowercase,
};
use crate::workspace::{Workspace, join, join_path};

verus! {

#[verifier::external_type_specification]
#[verifier::external_body]
pub struct ExIoError(std::io::Error);

/// Why an item operation failed.
#[derive(Debug)]
pub enum ItemsError {
    /// Reading or writing the filesystem failed.
    Io(std::io::Error),
    /// Moving a directory item (project/area) into a flat-file category
    /// (inbox/resource) would have to pick one file to keep.
    UnwrapNotSupported { name: String, from: &'static str, to: &'static str },
    /// The item is already in the archive.
    AlreadyArchived { name: String },
    /// A bare name matches items in more than one category.
    Ambiguous { name: String },
}

/// `name` if it already has an extension (contains a `.`), else `name.ext`.
pub open spec fn with_extension_spec(name: Seq<char>, ext: Seq<char>) -> Seq<char> {
    if name.contains('.') {
        name
    } else {
        name + "."@ + ext
    }
}

/// Appends the default extension to `name` unless it already has one.
pub fn with_extension(name: &str, default_extension: &str) -> (r: String)
    ensures
        r@ == with_extension_spec(name@, default_extension@),
{
    let v = chars_of(name);
    let mut i: usize = 0;
    while i < v.len()
        invariant
            v@ == name@,
            i <= v.len(),
            forall|k: int| 0 <= k < i ==> v@[k] != '.',
        decreases v.len() - i,
    {
        if v[i] == '.' {
            assert(name@.contains('.')) by { assert(name@[i as int] == '.'); }
            return name.to_owned();
        }
        i = i + 1;
    }
    assert(!name@.contains('.'));
    let dot = ".";
    proof {
        reveal_strlit(".");
    }
    concat3(name, dot, default_extension)
}

/// The path an item named `name` of `category` lives at (for a project or
/// area, its `index` file).
pub open spec fn item_path_spec(ws: Workspace, category: Category, name: Seq<char>) -> Seq<char> {
    if spec_is_directory_style(category) {
        join_path(join_path(ws.category_dir_spec(category), name), "index."@ + ws.config.default_extension@)
    } else {
        join_path(ws.category_dir_spec(category), with_extension_spec(name, ws.config.default_extension@))
    }
}

/// Where an item named `name` of `category` is created: the flat file
/// `<dir>/<name>.<ext>`, or `<dir>/<name>/index.<ext>` for a project or
/// area.
pub fn item_path(ws: &Workspace, category: Category, name: &str) -> (r: String)
    ensures
        r@ == item_path_spec(*ws, category, name@),
{
    let dir = ws.category_dir(category);
    if category.is_directory_style() {
        let index = "index.";
        proof {
            reveal_strlit("index.");
        }
        let file = concat2(index, ws.config.default_extension.as_str());
        let item_dir = join(dir.as_str(), name);
        join(item_dir.as_str(), file.as_str())
    } else {
        let file = with_extension(name, ws.config.default_extension.as_str());
        join(dir.as_str(), file.as_str())
    }
}

/// One folder to scan for a category's items.
#[derive(Debug, Clone, PartialEq, Eq)]
pub struct ScanTarget {
    /// The folder to read.
    pub dir: String,
    /// Whether items there are subdirectories (else flat files).
    pub directory_style: bool,
    /// For archive folders, the category the items were archived from.
    pub origin: Option<Category>,
}

/// The folders that hold `category`'s items: its own folder, or for the
/// archive, one subfolder per origin category, in `archivable` order.
pub fn scan_targets(ws: &Workspace, category: Category) -> (r: Vec<ScanTarget>)
    ensures
        category != Category::Archive ==> r@.len() == 1 && r@[0].dir@ == ws.category_dir_spec(
            category,
        ) && r@[0].directory_style == spec_is_directory_style(category) && r@[0].origin
            == None::<Category>,
        category == Category::Archive ==> r@.len() == 4 && forall|i: int|
            0 <= i < 4 ==> {
                let o = #[trigger] spec_archivable()[i];
                &&& r@[i].dir@ == join_path(
                    ws.category_dir_spec(Category::Archive),
                    spec_archive_origin_name(o),
                )
                &&& r@[i].directory_style == spec_is_directory_style(o)
                &&& r@[i].origin == Some(o)
            },
{
    let mut r: Vec<ScanTarget> = Vec::new();
    if category == Category::Archive {
        let archive_dir = ws.category_dir(Category::Archive);
        let origins = Category::archivable();
        let mut i: usize = 0;
        while i < 4
            invariant
                i <= 4,
                origins@ == spec_archivable(),
                archive_dir@ == ws.category_dir_spec(Category::Archive),
                r@.len() == i,
                forall|k: int|
                    0 <= k < i ==> {
                        let o = #[trigger] spec_archivable()[k];
                        &&& r@[k].dir@ == join_path(
                            ws.category_dir_spec(Category::Archive),
                            spec_archive_origin_name(o),
                        )
                        &&& r@[k].directory_style == spec_is_directory_style(o)
                        &&& r@[k].origin == Some(o)
                    },
            decreases 4 - i,
        {
            let o = origins[i];
            let dir = join(archive_dir.as_str(), o.archive_origin_name());
            r.push(ScanTarget { dir, directory_style: o.is_directory_style(), origin: Some(o) });
            i = i + 1;
        }
    } else {
        let dir = ws.category_dir(category);
        r.push(ScanTarget { dir, directory_style: category.is_directory_style(), origin: None });
    }
    r
}

/// What the caller found for one item while scanning a category's
/// folders, and read from its file.
#[derive(Debug, Clone, PartialEq, Eq)]
pub struct Entry {
    /// For archive entries, the origin subfolder it was found under.
    pub origin: Option<Category>,
    /// The directory name (projects/areas) or file stem (flat files).
    pub name: String,
    /// The file the facts come from (a directory item's `index` file).
    pub path: String,
    /// The first Markdown heading after any frontmatter, if there is one.
    pub title: Option<String>,
    /// Last-modified time, in seconds since the Unix epoch.
    pub modified_secs: u64,
    /// The raw `last_reviewed` frontmatter value, if present.
    pub last_reviewed: Option<String>,
}

/// One row of a category listing.
#[derive(Debug, Clone, PartialEq, Eq)]
pub struct ListedItem {
    /// The item's name; archived items are qualified `<Origin>/<name>`.
    pub name: String,
    /// Inferred title, falling back to the name.
    pub title: String,
    /// Whole days since the item was last modified.
    pub updated_days_ago: u64,
    /// The file the row was read from.
    pub path: String,
    /// For archived items, the category they were archived from.
    pub origin: Option<Category>,
}

/// The plain values of a listing row: name, title, age, path, origin.
pub type ListedView = (Seq<char>, Seq<char>, u64, Seq<char>, Option<Category>);

pub open spec fn listed_view(x: ListedItem) -> ListedView {
    (x.name@, x.title@, x.updated_days_ago, x.path@, x.origin)
}

impl Named for ListedItem {
    open spec fn name_view(&self) -> Seq<char> {
        self.name@
    }

    fn name_str(&self) -> (r: &str) {
        self.name.as_str()
    }
}

/// Whole days from `then` to `now` (both in seconds), zero if `then` is
/// in the future.
pub open spec fn days_between(now: u64, then: u64) -> u64 {
    if now >= then {
        ((now - then) / 86400) as u64
    } else {
        0
    }
}

/// Whole days elapsed between a modification time and now.
pub fn days_since(now_secs: u64, modified_secs: u64) -> (r: u64)
    ensures
        r == days_between(now_secs, modified_secs),
{
    if now_secs >= modified_secs {
        (now_secs - modified_secs) / 86400
    } else {
        0
    }
}

/// An entry's listing name: qualified with its archive origin, if any.
pub open spec fn qualified_name(e: Entry) -> Seq<char> {
    match e.origin {
        Some(o) => if o != Category::Archive {
            spec_archive_origin_name(o) + "/"@ + e.name@
        } else {
            e.name@
        },
        None => e.name@,
    }
}

/// The listing row an entry becomes.
pub open spec fn listed_row(e: Entry, now: u64) -> ListedView {
    (
        qualified_name(e),
        match e.title {
            Some(t) => t@,
            None => qualified_name(e),
        },
        days_between(now, e.modified_secs),
        e.path@,
        e.origin,
    )
}

/// A row's name without its archive qualifier: for an archived row whose
/// name starts with `<Origin>/`, what follows; otherwise the name itself.
pub open spec fn bare_name_spec(x: ListedItem) -> Seq<char> {
    match x.origin {
        Some(o) => if o != Category::Archive && starts_with(x.name@, spec_archive_origin_name(o) + "/"@) {
            x.name@.skip(spec_archive_origin_name(o).len() + 1int)
        } else {
            x.name@
        },
        None => x.name@,
    }
}

/// The name a row is reported under in machine-readable output, where the
/// archive origin is a field of its own.
pub fn bare_name(x: &ListedItem) -> (r: String)
    ensures
        r@ == bare_name_spec(*x),
{
    match x.origin {
        Some(o) => {
            if o == Category::Archive {
                return x.name.clone();
            }
            let prefix = concat2(o.archive_origin_name(), "/");
            proof {
                reveal_strlit("/");
            }
            if starts_with_str(x.name.as_str(), prefix.as_str()) {
                let v = chars_of(x.name.as_str());
                let start = prefix.unicode_len();
                let mut out = String::new();
                let mut k: usize = start;
                assert(start <= v@.len()) by {
                    assert(occurs_at(x.name@, prefix@, 0));
                }
                while k < v.len()
                    invariant
                        v@ == x.name@,
                        start <= k <= v@.len(),
                        out@ == v@.subrange(start as int, k as int),
                    decreases v.len() - k,
                {
                    push_char(&mut out, v[k]);
                    assert(out@ =~= v@.subrange(start as int, k + 1));
                    k = k + 1;
                }
                assert(v@.subrange(start as int, v@.len() as int) =~= x.name@.skip(start as int));
                out
            } else {
                x.name.clone()
            }
        },
        None => x.name.clone(),
    }
}

/// An archived entry's listing row reports, without its qualifier, the
/// entry's own name.
pub proof fn lemma_bare_name_of_row(e: Entry, x: ListedItem, now: u64)
    requires
        listed_view(x) == listed_row(e, now),
    ensures
        bare_name_spec(x) == e.name@,
{
    reveal_strlit("/");
    match e.origin {
        Some(o) => if o != Category::Archive {
            let p = spec_archive_origin_name(o) + "/"@;
            assert(x.name@ == p + e.name@);
            assert(x.name@.subrange(0, p.len() as int) =~= p);
            assert(occurs_at(x.name@, p, 0));
            assert(starts_with(x.name@, p));
            assert(p.len() == spec_archive_origin_name(o).len() + 1);
            assert(x.name@.skip(p.len() as int) =~= e.name@);
        },
        None => {},
    }
}

/// A row passes the filter when there is none, or when the filter's
/// lowercase form occurs in the lowercase name or lowercase title.
pub open spec fn filter_matches(name: Seq<char>, title: Seq<char>, filter: Option<Seq<char>>) -> bool {
    match filter {
        None => true,
        Some(f) => contains_seq(lowercase(name), lowercase(f)) || contains_seq(
            lowercase(title),
            lowercase(f),
        ),
    }
}

pub open spec fn opt_str_view(f: Option<&str>) -> Option<Seq<char>> {
    match f {
        Some(s) => Some(s@),
        None => None,
    }
}

/// The rows of `entries` that pass the filter, in entry order.
pub open spec fn listed_rows(entries: Seq<Entry>, now: u64, filter: Option<Seq<char>>) -> Seq<ListedView>
    decreases entries.len(),
{
    if entries.len() == 0 {
        Seq::empty()
    } else {
        let rest = listed_rows(entries.drop_last(), now, filter);
        let row = listed_row(entries.last(), now);
        if filter_matches(row.0, row.1, filter) {
            rest.push(row)
        } else {
            rest
        }
    }
}

/// Whether `name` or `title` contains `filter`, ignoring case; always true
/// without a filter.
pub fn matches_filter(name: &str, title: &str, filter: Option<&str>) -> (r: bool)
    ensures
        r == filter_matches(name@, title@, opt_str_view(filter)),
{
    match filter {
        None => true,
        Some(f) => {
            let f_lower = to_lowercase(f);
            let name_lower = to_lowercase(name);
            let title_lower = to_lowercase(title);
            lowered_match(name_lower.as_str(), title_lower.as_str(), f_lower.as_str())
        },
    }
}

/// Whether the lowercased filter occurs in the lowercased name or title:
/// the test `matches_filter` applies once everything is lowercased.
pub fn lowered_match(name_lower: &str, title_lower: &str, filter_lower: &str) -> (r: bool)
    ensures
        r == (contains_seq(name_lower@, filter_lower@) || contains_seq(title_lower@, filter_lower@)),
{
    let f = chars_of(filter_lower);
    let n = chars_of(name_lower);
    if contains_chars(&n, &f) {
        true
    } else {
        let t = chars_of(title_lower);
        contains_chars(&t, &f)
    }
}

fn qualify(e: &Entry) -> (r: String)
    ensures
        r@ == qualified_name(*e),
{
    match e.origin {
        Some(o) => {
            if o != Category::Archive {
                let slash = "/";
                proof {
                    reveal_strlit("/");
                }
                concat3(o.archive_origin_name(), slash, e.name.as_str())
            } else {
                e.name.clone()
            }
        },
        None => e.name.clone(),
    }
}

fn listed_item_of(e: &Entry, now_secs: u64) -> (r: ListedItem)
    ensures
        listed_view(r) == listed_row(*e, now_secs),
{
    let name = qualify(e);
    let title = match &e.title {
        Some(t) => t.clone(),
        None => name.clone(),
    };
    ListedItem {
        name,
        title,
        updated_days_ago: days_since(now_secs, e.modified_secs),
        path: e.path.clone(),
        origin: e.origin,
    }
}

/// The listing rows of `entries` that pass `filter`, stably sorted by
/// name.
pub open spec fn sorted_listing(entries: Seq<Entry>, now: u64, filter: Option<Seq<char>>) -> Seq<ListedView> {
    sort_by_key(listed_rows(entries, now, filter), |v: ListedView| v.0)
}

/// The filter test on a listing row, as a predicate.
pub open spec fn passes(filter: Option<Seq<char>>) -> spec_fn(ListedView) -> bool {
    |v: ListedView| filter_matches(v.0, v.1, filter)
}

proof fn lemma_listed_rows_filter(entries: Seq<Entry>, now: u64, filter: Option<Seq<char>>)
    ensures
        listed_rows(entries, now, filter) == listed_rows(entries, now, None).filter(passes(filter)),
        listed_rows(entries, now, None).len() == entries.len(),
    decreases entries.len(),
{
    reveal(Seq::filter);
    if entries.len() > 0 {
        lemma_listed_rows_filter(entries.drop_last(), now, filter);
        let all = listed_rows(entries, now, None);
        assert(all.drop_last() =~= listed_rows(entries.drop_last(), now, None));
        assert(all.last() == listed_row(entries.last(), now));
    } else {
        assert(listed_rows(entries, now, None).filter(passes(filter)) =~= Seq::<ListedView>::empty());
    }
}

/// A filtered listing is the unfiltered listing with the rows that fail
/// the filter left out, the rest in the same order; and the unfiltered
/// listing has one row per entry.
pub proof fn lemma_filtered_listing(entries: Seq<Entry>, now: u64, filter: Option<Seq<char>>)
    ensures
        sorted_listing(entries, now, filter) == sorted_listing(entries, now, None).filter(passes(filter)),
        sorted_listing(entries, now, None).len() == entries.len(),
{
    lemma_listed_rows_filter(entries, now, filter);
    lemma_sort_by_key_filter(listed_rows(entries, now, None), |v: ListedView| v.0, passes(filter));
    lemma_sort_by_key_sorted(listed_rows(entries, now, None), |v: ListedView| v.0);
}

/// A category's count is the length of its unfiltered listing when the
/// listing's entries are read from the very items counted: one entry per
/// item of a live folder, or per item of the four archive origin folders.
pub proof fn lemma_count_is_listing_length(cat: Catalog, k: int, entries: Seq<Entry>, now: u64)
    requires
        0 <= k < 5,
        k < 4 ==> entries.len() == cat.live[k]@.len(),
        k == 4 ==> entries.len() == cat.archived[0]@.len() + cat.archived[1]@.len()
            + cat.archived[2]@.len() + cat.archived[3]@.len(),
    ensures
        catalog_counts_spec(cat)[k] == sorted_listing(entries, now, None).len(),
{
    lemma_filtered_listing(entries, now, None);
}

/// Lists the items found for a category: one row per entry that passes
/// the filter, titled by its heading (falling back to its name), aged in
/// whole days relative to `now_secs`, sorted alphabetically by name.
/// Archive entries are named `<Origin>/<name>`.
pub fn list(entries: &Vec<Entry>, filter: Option<&str>, now_secs: u64) -> (r: Vec<ListedItem>)
    ensures
        r@.map_values(|x: ListedItem| listed_view(x)) == sorted_listing(entries@, now_secs, opt_str_view(filter)),
        r@.map_values(|x: ListedItem| listed_view(x)).to_multiset() == listed_rows(
            entries@,
            now_secs,
            opt_str_view(filter),
        ).to_multiset(),
        sorted_by_name(r@),
{
    let mut rows: Vec<ListedItem> = Vec::new();
    let mut i: usize = 0;
    while i < entries.len()
        invariant
            i <= entries.len(),
            rows@.map_values(|x: ListedItem| listed_view(x)) == listed_rows(
                entries@.take(i as int),
                now_secs,
                opt_str_view(filter),
            ),
        decreases entries.len() - i,
    {
        let item = listed_item_of(&entries[i], now_secs);
        let keep = matches_filter(item.name.as_str(), item.title.as_str(), filter);
        let ghost before = rows@;
        if keep {
            rows.push(item);
        }
        proof {
            let t = entries@.take(i + 1);
            assert(t.drop_last() =~= entries@.take(i as int));
            assert(t.last() == entries@[i as int]);
            if keep {
                assert(rows@.map_values(|x: ListedItem| listed_view(x)) =~= before.map_values(
                    |x: ListedItem| listed_view(x),
                ).push(listed_view(item)));
            }
        }
        i = i + 1;
    }
    proof {
        assert(entries@.take(entries.len() as int) =~= entries@);
    }
    let ghost unsorted = rows@;
    let r = sort_by_name(rows);
    proof {
        lemma_multiset_map_values(r@, unsorted, |x: ListedItem| listed_view(x));
        lemma_sort_by_key_map(
            unsorted,
            |x: ListedItem| listed_view(x),
            |x: ListedItem| x.name_view(),
            |v: ListedView| v.0,
        );
    }
    r
}

/// What chrono's `NaiveDate::parse_from_str(s, fmt)` gives, as a day
/// number counted from the first day of the common era
/// (`num_days_from_ce`), or `None` where `s` does not parse.
pub uninterp spec fn parsed_date_day(s: Seq<char>, fmt: Seq<char>) -> Option<i32>;

/// `chrono::NaiveDate::parse_from_str`, with the parsed date turned into
/// its `num_days_from_ce` day number. The contract only names the result:
/// chrono's format grammar is not restated here.
#[verifier::external_body]
fn parse_date_day(s: &str, fmt: &str) -> (r: Option<i32>)
    ensures
        r == parsed_date_day(s@, fmt@),
{
    match chrono::NaiveDate::parse_from_str(s, fmt) {
        Ok(d) => Some(chrono::Datelike::num_days_from_ce(&d)),
        Err(_) => None,
    }
}

/// The date format of `last_reviewed` values.
pub open spec fn review_date_format() -> Seq<char> {
    "%Y-%m-%d"@
}

/// Whole days since a `last_reviewed` value, relative to the day number
/// `today`; never negative. `None` when there is no value or it is not a
/// `YYYY-MM-DD` date.
pub open spec fn reviewed_spec(value: Option<Seq<char>>, today: i32) -> Option<u64> {
    match value {
        None => None,
        Some(v) => match parsed_date_day(v, review_date_format()) {
            None => None,
            Some(d) => Some(if today >= d { (today - d) as u64 } else { 0 }),
        },
    }
}

pub open spec fn opt_string_view(v: Option<String>) -> Option<Seq<char>> {
    match v {
        Some(s) => Some(s@),
        None => None,
    }
}

/// Age in days of a `last_reviewed` frontmatter value relative to
/// `today` (a `num_days_from_ce` day number).
pub fn reviewed_days_ago(value: Option<&str>, today: i32) -> (r: Option<u64>)
    ensures
        r == reviewed_spec(opt_str_view(value), today),
{
    match value {
        None => None,
        Some(v) => {
            let fmt = "%Y-%m-%d";
            proof {
                reveal_strlit("%Y-%m-%d");
            }
            days_since_review(parse_date_day(v, fmt), today)
        },
    }
}

/// Whole days from a parsed review date (a day number) to `today`, zero
/// for a date in the future; `None` when the value did not parse.
pub fn days_since_review(parsed: Option<i32>, today: i32) -> (r: Option<u64>)
    ensures
        r == match parsed {
            None => None::<u64>,
            Some(d) => Some(if today >= d { (today - d) as u64 } else { 0 }),
        },
{
    match parsed {
        None => None,
        Some(d) => {
            if today >= d {
                Some(((today as i64) - (d as i64)) as u64)
            } else {
                Some(0)
            }
        },
    }
}

/// A `last_reviewed` value that parses as today's date reads back as
/// reviewed 0 days ago.
pub proof fn lemma_stamped_today_reads_zero_days(value: Seq<char>, today: i32)
    ensures
        parsed_date_day(value, review_date_format()) == Some(today) ==> reviewed_spec(Some(value), today)
            == Some(0u64),
{
}

/// One project/area row of a status report.
#[derive(Debug, Clone, PartialEq, Eq)]
pub struct StatusItem {
    pub name: String,
    /// Inferred title, falling back to the name.
    pub title: String,
    /// Whole days since the item's index file was last modified.
    pub updated_days_ago: u64,
    /// Whole days since its `last_reviewed` date, or `None` if never
    /// reviewed.
    pub reviewed_days_ago: Option<u64>,
}

impl Named for StatusItem {
    open spec fn name_view(&self) -> Seq<char> {
        self.name@
    }

    fn name_str(&self) -> (r: &str) {
        self.name.as_str()
    }
}

/// The plain values of a status row: name, title, updated age, reviewed
/// age.
pub type StatusView = (Seq<char>, Seq<char>, u64, Option<u64>);

pub open spec fn status_view(x: StatusItem) -> StatusView {
    (x.name@, x.title@, x.updated_days_ago, x.reviewed_days_ago)
}

/// The status row an entry becomes.
pub open spec fn status_row(e: Entry, now: u64, today: i32) -> StatusView {
    (
        e.name@,
        match e.title {
            Some(t) => t@,
            None => e.name@,
        },
        days_between(now, e.modified_secs),
        reviewed_spec(opt_string_view(e.last_reviewed), today),
    )
}

fn status_item_of(e: &Entry, now_secs: u64, today: i32) -> (r: StatusItem)
    ensures
        status_view(r) == status_row(*e, now_secs, today),
{
    let title = match &e.title {
        Some(t) => t.clone(),
        None => e.name.clone(),
    };
    let reviewed = match &e.last_reviewed {
        Some(v) => reviewed_days_ago(Some(v.as_str()), today),
        None => reviewed_days_ago(None, today),
    };
    StatusItem {
        name: e.name.clone(),
        title,
        updated_days_ago: days_since(now_secs, e.modified_secs),
        reviewed_days_ago: reviewed,
    }
}

/// The status rows of `entries`, stably sorted by name.
pub open spec fn sorted_status_rows(entries: Seq<Entry>, now: u64, today: i32) -> Seq<StatusView> {
    sort_by_key(entries.map_values(|e: Entry| status_row(e, now, today)), |v: StatusView| v.0)
}

/// The per-item rows for a project or area folder: one per entry, sorted
/// alphabetically by name.
pub fn status_items(entries: &Vec<Entry>, now_secs: u64, today: i32) -> (r: Vec<StatusItem>)
    ensures
        r@.map_values(|x: StatusItem| status_view(x)) == sorted_status_rows(entries@, now_secs, today),
        r@.map_values(|x: StatusItem| status_view(x)).to_multiset() == entries@.map_values(
            |e: Entry| status_row(e, now_secs, today),
        ).to_multiset(),
        sorted_by_name(r@),
{
    let mut rows: Vec<StatusItem> = Vec::new();
    let mut i: usize = 0;
    while i < entries.len()
        invariant
            i <= entries.len(),
            rows@.map_values(|x: StatusItem| status_view(x)) == entries@.take(i as int).map_values(
                |e: Entry| status_row(e, now_secs, today),
            ),
        decreases entries.len() - i,
    {
        let item = status_item_of(&entries[i], now_secs, today);
        let ghost before = rows@;
        rows.push(item);
        proof {
            assert(rows@.map_values(|x: StatusItem| status_view(x)) =~= before.map_values(
                |x: StatusItem| status_view(x),
            ).push(status_view(item)));
            assert(entries@.take(i + 1).map_values(|e: Entry| status_row(e, now_secs, today))
                =~= entries@.take(i as int).map_values(|e: Entry| status_row(e, now_secs, today)).push(
                status_row(entries@[i as int], now_secs, today),
            ));
            assert(rows@.map_values(|x: StatusItem| status_view(x)) =~= entries@.take(i + 1).map_values(
                |e: Entry| status_row(e, now_secs, today),
            ));
        }
        i = i + 1;
    }
    proof {
        assert(entries@.take(entries.len() as int) =~= entries@);
    }
    let ghost unsorted = rows@;
    let r = sort_by_name(rows);
    proof {
        lemma_multiset_map_values(r@, unsorted, |x: StatusItem| status_view(x));
        lemma_sort_by_key_map(
            unsorted,
            |x: StatusItem| status_view(x),
            |x: StatusItem| x.name_view(),
            |v: StatusView| v.0,
        );
    }
    r
}

/// The items a review walks for one category: the same rows as
/// `status_items`.
pub fn review_items(entries: &Vec<Entry>, now_secs: u64, today: i32) -> (r: Vec<StatusItem>)
    ensures
        r@.map_values(|x: StatusItem| status_view(x)) == sorted_status_rows(entries@, now_secs, today),
        r@.map_values(|x: StatusItem| status_view(x)).to_multiset() == entries@.map_values(
            |e: Entry| status_row(e, now_secs, today),
        ).to_multiset(),
        sorted_by_name(r@),
{
    status_items(entries, now_secs, today)
}

/// Item counts per category (indexed by category position), plus per-item
/// rows for projects and areas.
#[derive(Debug, Clone, PartialEq, Eq)]
pub struct StatusReport {
    pub counts: [usize; 5],
    pub projects: Vec<StatusItem>,
    pub areas: Vec<StatusItem>,
}

/// Builds the status report from the item counts found per category and
/// the project and area entries.
pub fn status(
    counts: [usize; 5],
    projects: &Vec<Entry>,
    areas: &Vec<Entry>,
    now_secs: u64,
    today: i32,
) -> (r: StatusReport)
    ensures
        r.counts == counts,
        r.projects@.map_values(|x: StatusItem| status_view(x)) == sorted_status_rows(projects@, now_secs, today),
        r.areas@.map_values(|x: StatusItem| status_view(x)) == sorted_status_rows(areas@, now_secs, today),
        r.projects@.map_values(|x: StatusItem| status_view(x)).to_multiset() == projects@.map_values(
            |e: Entry| status_row(e, now_secs, today),
        ).to_multiset(),
        sorted_by_name(r.projects@),
        r.areas@.map_values(|x: StatusItem| status_view(x)).to_multiset() == areas@.map_values(
            |e: Entry| status_row(e, now_secs, today),
        ).to_multiset(),
        sorted_by_name(r.areas@),
{
    StatusReport {
        counts,
        projects: status_items(projects, now_secs, today),
        areas: status_items(areas, now_secs, today),
    }
}

/// One item found in a folder, without reading it.
#[derive(Debug, Clone, PartialEq, Eq)]
pub struct Scanned {
    /// The directory name (projects/areas) or file stem (flat files).
    pub name: String,
    /// The entry's own file or directory name, extension included.
    pub file_name: String,
    /// Its full path.
    pub path: String,
}

/// Everything `locate` looks through.
#[derive(Debug, Clone, PartialEq, Eq)]
pub struct Catalog {
    /// Items of Inbox, Project, Area and Resource, by archivable position.
    pub live: [Vec<Scanned>; 4],
    /// Archived items under each origin subfolder, by archivable position.
    pub archived: [Vec<Scanned>; 4],
}

/// Item counts per category position: each live category's own items,
/// and for the archive the items under all four origin subfolders.
pub open spec fn catalog_counts_spec(cat: Catalog) -> Seq<int> {
    seq![
        cat.live[0]@.len() as int,
        cat.live[1]@.len() as int,
        cat.live[2]@.len() as int,
        cat.live[3]@.len() as int,
        (cat.archived[0]@.len() + cat.archived[1]@.len() + cat.archived[2]@.len()
            + cat.archived[3]@.len()) as int,
    ]
}

/// Counts a catalog's items per category, without reading any of them.
pub fn catalog_counts(cat: &Catalog) -> (r: [usize; 5])
    requires
        cat.archived[0]@.len() + cat.archived[1]@.len() + cat.archived[2]@.len()
            + cat.archived[3]@.len() <= usize::MAX,
    ensures
        forall|i: int| 0 <= i < 5 ==> r@[i] as int == #[trigger] catalog_counts_spec(*cat)[i],
{
    let archived = cat.archived[0].len() + cat.archived[1].len() + cat.archived[2].len()
        + cat.archived[3].len();
    let r = [cat.live[0].len(), cat.live[1].len(), cat.live[2].len(), cat.live[3].len(), archived];
    assert forall|i: int| 0 <= i < 5 implies r@[i] as int == #[trigger] catalog_counts_spec(*cat)[i] by {
    }
    r
}

/// An item resolved by name.
#[derive(Debug, Clone, PartialEq, Eq)]
pub struct Located {
    /// The category it is filed in.
    pub category: Category,
    /// For an archived item, the category it was archived from.
    pub origin: Option<Category>,
    /// Its bare name (directory name or file stem).
    pub name: String,
    /// Its own file or directory name.
    pub file_name: String,
    /// Its root path: the directory of a project/area, else the file.
    pub path: String,
}

/// Position of the first `c` in `s`, or -1.
pub open spec fn first_index_of(s: Seq<char>, c: char) -> int
    decreases s.len(),
{
    if s.len() == 0 {
        -1
    } else if s[0] == c {
        0
    } else {
        let r = first_index_of(s.drop_first(), c);
        if r < 0 {
            -1
        } else {
            r + 1
        }
    }
}

/// Position of the first scanned item named `name`.
pub open spec fn first_match(items: Seq<Scanned>, name: Seq<char>) -> Option<int>
    decreases items.len(),
{
    if items.len() == 0 {
        None
    } else {
        match first_match(items.drop_last(), name) {
            Some(i) => Some(i),
            None => if items.last().name@ == name {
                Some(items.len() - 1)
            } else {
                None
            },
        }
    }
}

/// The lowercase category name that qualifies a live item's name
/// (`inbox/...`, `projects/...`).
pub open spec fn live_qualifier(c: Category) -> Seq<char> {
    match c {
        Category::Inbox => "inbox"@,
        Category::Project => "projects"@,
        Category::Area => "areas"@,
        Category::Resource => "resources"@,
        Category::Archive => "archive"@,
    }
}

/// Archivable position whose archive origin name is `p`, or -1.
pub open spec fn origin_position(p: Seq<char>) -> int {
    if p == "Inbox"@ {
        0
    } else if p == "Projects"@ {
        1
    } else if p == "Areas"@ {
        2
    } else if p == "Resources"@ {
        3
    } else {
        -1
    }
}

/// Archivable position whose live qualifier is `p`, or -1.
pub open spec fn qualifier_position(p: Seq<char>) -> int {
    if p == "inbox"@ {
        0
    } else if p == "projects"@ {
        1
    } else if p == "areas"@ {
        2
    } else if p == "resources"@ {
        3
    } else {
        -1
    }
}

pub open spec fn hit(items: Seq<Scanned>, name: Seq<char>) -> int {
    if first_match(items, name) is Some {
        1
    } else {
        0
    }
}

/// How many live categories hold an item named `name`.
pub open spec fn live_hits(cat: Catalog, name: Seq<char>) -> int {
    hit(cat.live[0]@, name) + hit(cat.live[1]@, name) + hit(cat.live[2]@, name) + hit(
        cat.live[3]@,
        name,
    )
}

/// The first live category position holding an item named `name`.
pub open spec fn first_live_hit(cat: Catalog, name: Seq<char>) -> int {
    if hit(cat.live[0]@, name) == 1 {
        0
    } else if hit(cat.live[1]@, name) == 1 {
        1
    } else if hit(cat.live[2]@, name) == 1 {
        2
    } else {
        3
    }
}

/// Where `locate` finds `name`: `Err` for an ambiguous bare name, else
/// `(archived, k, j)` for item `j` of folder `k`, or nothing.
///
/// `<Origin>/<name>` (an archive origin subfolder name such as
/// `Projects`) looks only under that archive subfolder; `<category>/<name>`
/// with a lowercase live category name (`inbox`, `projects`, `areas`,
/// `resources`) looks only in that category; anything else is a bare name,
/// looked up in all four live categories and refused when more than one
/// holds it. The archive is never searched by bare name.
pub open spec fn locate_target(cat: Catalog, name: Seq<char>) -> Result<Option<(bool, int, int)>, ()> {
    let i = first_index_of(name, '/');
    let prefix = name.take(i);
    let rest = name.skip(i + 1);
    if i >= 0 && origin_position(prefix) >= 0 {
        let k = origin_position(prefix);
        match first_match(cat.archived[k]@, rest) {
            Some(j) => Ok(Some((true, k, j))),
            None => Ok(None),
        }
    } else if i >= 0 && qualifier_position(prefix) >= 0 {
        let k = qualifier_position(prefix);
        match first_match(cat.live[k]@, rest) {
            Some(j) => Ok(Some((false, k, j))),
            None => Ok(None),
        }
    } else if live_hits(cat, name) >= 2 {
        Err(())
    } else if live_hits(cat, name) == 1 {
        let k = first_live_hit(cat, name);
        Ok(Some((false, k, first_match(cat.live[k]@, name)->0)))
    } else {
        Ok(None)
    }
}

/// The located item that target `(archived, k, j)` stands for.
pub open spec fn located_at(cat: Catalog, l: Located, archived: bool, k: int, j: int) -> bool {
    let o = spec_archivable()[k];
    let s = if archived {
        cat.archived[k]@[j]
    } else {
        cat.live[k]@[j]
    };
    &&& l.category == (if archived {
        Category::Archive
    } else {
        o
    })
    &&& l.origin == (if archived {
        Some(o)
    } else {
        None
    })
    &&& l.name@ == s.name@
    &&& l.file_name@ == s.file_name@
    &&& l.path@ == s.path@
}

fn first_slash(v: &Vec<char>) -> (r: Option<usize>)
    ensures
        match r {
            Some(i) => i < v@.len() && first_index_of(v@, '/') == i as int,
            None => first_index_of(v@, '/') == -1,
        },
{
    let mut i: usize = 0;
    assert(v@.skip(0) =~= v@);
    while i < v.len()
        invariant
            i <= v.len(),
            first_index_of(v@, '/') == (if first_index_of(v@.skip(i as int), '/') < 0 {
                -1
            } else {
                first_index_of(v@.skip(i as int), '/') + i
            }),
        decreases v.len() - i,
    {
        assert(v@.skip(i as int)[0] == v@[i as int]);
        assert(v@.skip(i as int).drop_first() =~= v@.skip(i + 1));
        if v[i] == '/' {
            return Some(i);
        }
        i = i + 1;
    }
    None
}

fn find_named(items: &Vec<Scanned>, name: &str) -> (r: Option<usize>)
    ensures
        match r {
            Some(j) => j < items@.len() && first_match(items@, name@) == Some(j as int),
            None => first_match(items@, name@) is None,
        },
{
    let mut j: usize = 0;
    while j < items.len()
        invariant
            j <= items.len(),
            first_match(items@.take(j as int), name@) is None,
        decreases items.len() - j,
    {
        let eq = crate::text::str_eq(items[j].name.as_str(), name);
        proof {
            let t = items@.take(j + 1);
            assert(t.drop_last() =~= items@.take(j as int));
            assert(t.last() == items@[j as int]);
        }
        if eq {
            proof {
                lemma_first_match_prefix(items@, name@, j as int);
            }
            return Some(j);
        }
        j = j + 1;
    }
    assert(items@.take(items.len() as int) =~= items@);
    None
}

/// `first_match` finds an item with the name exactly when there is one.
pub(crate) proof fn lemma_first_match_found(items: Seq<Scanned>, name: Seq<char>)
    ensures
        match first_match(items, name) {
            Some(j) => 0 <= j < items.len() && items[j].name@ == name,
            None => forall|j: int| 0 <= j < items.len() ==> #[trigger] items[j].name@ != name,
        },
    decreases items.len(),
{
    if items.len() > 0 {
        let d = items.drop_last();
        lemma_first_match_found(d, name);
        assert forall|j: int| 0 <= j < d.len() implies #[trigger] d[j] == items[j] by {}
        if first_match(items, name) is None {
            assert forall|j: int| 0 <= j < items.len() implies #[trigger] items[j].name@ != name by {
                if j < d.len() {
                    assert(d[j] == items[j]);
                }
            }
        }
    }
}

/// The first `c` in `a + b`, when `a` holds none, is `b`'s first `c`
/// shifted past `a`.
pub(crate) proof fn lemma_first_index_of_concat(a: Seq<char>, b: Seq<char>, c: char)
    requires
        !a.contains(c),
    ensures
        first_index_of(a + b, c) == if first_index_of(b, c) < 0 {
            -1
        } else {
            a.len() + first_index_of(b, c)
        },
    decreases a.len(),
{
    if a.len() == 0 {
        assert(a + b =~= b);
    } else {
        assert(a[0] != c);
        assert((a + b)[0] == a[0]);
        assert((a + b).drop_first() =~= a.drop_first() + b);
        assert forall|i: int| 0 <= i < a.drop_first().len() implies a.drop_first()[i] != c by {
            assert(a.drop_first()[i] == a[i + 1]);
        }
        lemma_first_index_of_concat(a.drop_first(), b, c);
    }
}

/// A match in a prefix is the match of the whole sequence.
proof fn lemma_first_match_prefix(items: Seq<Scanned>, name: Seq<char>, j: int)
    requires
        0 <= j < items.len(),
        first_match(items.take(j + 1), name) == Some(j),
    ensures
        first_match(items, name) == Some(j),
    decreases items.len(),
{
    if items.len() > j + 1 {
        assert(items.drop_last().take(j + 1) =~= items.take(j + 1));
        lemma_first_match_prefix(items.drop_last(), name, j);
    } else {
        assert(items.take(j + 1) =~= items);
    }
}

fn origin_position_exec(p: &str) -> (r: Option<usize>)
    ensures
        match r {
            Some(k) => k < 4 && origin_position(p@) == k as int,
            None => origin_position(p@) == -1,
        },
{
    proof {
        reveal_strlit("Inbox");
        reveal_strlit("Projects");
        reveal_strlit("Areas");
        reveal_strlit("Resources");
    }
    if crate::text::str_eq(p, "Inbox") {
        Some(0)
    } else if crate::text::str_eq(p, "Projects") {
        Some(1)
    } else if crate::text::str_eq(p, "Areas") {
        Some(2)
    } else if crate::text::str_eq(p, "Resources") {
        Some(3)
    } else {
        None
    }
}

fn qualifier_position_exec(p: &str) -> (r: Option<usize>)
    ensures
        match r {
            Some(k) => k < 4 && qualifier_position(p@) == k as int,
            None => qualifier_position(p@) == -1,
        },
{
    proof {
        reveal_strlit("inbox");
        reveal_strlit("projects");
        reveal_strlit("areas");
        reveal_strlit("resources");
    }
    if crate::text::str_eq(p, "inbox") {
        Some(0)
    } else if crate::text::str_eq(p, "projects") {
        Some(1)
    } else if crate::text::str_eq(p, "areas") {
        Some(2)
    } else if crate::text::str_eq(p, "resources") {
        Some(3)
    } else {
        None
    }
}

fn located_from(s: &Scanned, category: Category, origin: Option<Category>) -> (r: Located)
    ensures
        r.category == category,
        r.origin == origin,
        r.name@ == s.name@,
        r.file_name@ == s.file_name@,
        r.path@ == s.path@,
{
    Located {
        category,
        origin,
        name: s.name.clone(),
        file_name: s.file_name.clone(),
        path: s.path.clone(),
    }
}

/// Resolves `name` to an item. See `locate_target` for the rules: a
/// qualified `<Origin>/<name>` finds an archived item, a qualified
/// `<category>/<name>` a live item of that category, and a bare name a
/// live item of whichever single category holds it; a bare name held by
/// more than one category is refused as ambiguous.
pub fn locate(cat: &Catalog, name: &str) -> (r: Result<Option<Located>, ItemsError>)
    ensures
        match (r, locate_target(*cat, name@)) {
            (Err(e), Err(())) => e matches ItemsError::Ambiguous { name: n } && n@ == name@,
            (Ok(None), Ok(None)) => true,
            (Ok(Some(l)), Ok(Some((archived, k, j)))) => located_at(*cat, l, archived, k, j),
            _ => false,
        },
{
    let v = chars_of(name);
    let slash = first_slash(&v);
    let origins = Category::archivable();
    if let Some(i) = slash {
        assert(i < v.len());
        let prefix = name.substring_char(0, i);
        let rest = name.substring_char(i + 1, v.len());
        assert(prefix@ == name@.take(i as int));
        assert(rest@ == name@.skip(i + 1));
        if let Some(k) = origin_position_exec(prefix) {
            return match find_named(&cat.archived[k], rest) {
                Some(j) => Ok(Some(located_from(&cat.archived[k][j], Category::Archive, Some(origins[k])))),
                None => Ok(None),
            };
        }
        if let Some(k) = qualifier_position_exec(prefix) {
            return match find_named(&cat.live[k], rest) {
                Some(j) => Ok(Some(located_from(&cat.live[k][j], origins[k], None))),
                None => Ok(None),
            };
        }
    }
    let m0 = find_named(&cat.live[0], name);
    let m1 = find_named(&cat.live[1], name);
    let m2 = find_named(&cat.live[2], name);
    let m3 = find_named(&cat.live[3], name);
    let hits: usize = (if m0.is_some() { 1 } else { 0 }) + (if m1.is_some() { 1 } else { 0 }) + (if m2.is_some() { 1 } else { 0 }) + (if m3.is_some() { 1 } else { 0 });
    if hits >= 2 {
        return Err(ItemsError::Ambiguous { name: name.to_owned() });
    }
    match (m0, m1, m2, m3) {
        (Some(j), _, _, _) => Ok(Some(located_from(&cat.live[0][j], origins[0], None))),
        (None, Some(j), _, _) => Ok(Some(located_from(&cat.live[1][j], origins[1], None))),
        (None, None, Some(j), _) => Ok(Some(located_from(&cat.live[2][j], origins[2], None))),
        (None, None, None, Some(j)) => Ok(Some(located_from(&cat.live[3][j], origins[3], None))),
        (None, None, None, None) => Ok(None),
    }
}

/// Whether a located item is a directory: a project or area, or an item
/// archived from one.
pub open spec fn is_directory_item(l: Located) -> bool {
    if l.category == Category::Archive {
        match l.origin {
            Some(o) => spec_is_directory_style(o),
            None => false,
        }
    } else {
        spec_is_directory_style(l.category)
    }
}

/// The note of a located item: a directory item's index file, else the
/// file itself.
pub open spec fn item_note_spec(ws: Workspace, l: Located) -> Seq<char> {
    if is_directory_item(l) {
        join_path(l.path@, "index."@ + ws.config.default_extension@)
    } else {
        l.path@
    }
}

/// The file holding a located item's frontmatter.
pub fn item_note(ws: &Workspace, l: &Located) -> (r: String)
    ensures
        r@ == item_note_spec(*ws, *l),
{
    let directory_item = if l.category == Category::Archive {
        match l.origin {
            Some(o) => o.is_directory_style(),
            None => false,
        }
    } else {
        l.category.is_directory_style()
    };
    if directory_item {
        let index = "index.";
        proof {
            reveal_strlit("index.");
        }
        let file = concat2(index, ws.config.default_extension.as_str());
        join(l.path.as_str(), file.as_str())
    } else {
        l.path.clone()
    }
}

/// The name a moved item keeps: a directory keeps its name, a flat file
/// keeps its own file name (extension included).
pub open spec fn moved_basename(l: Located) -> Seq<char> {
    if is_directory_item(l) {
        l.name@
    } else {
        l.file_name@
    }
}

/// Where moving `l` to `target` puts it, or why the move is refused:
/// - into the archive from the archive: refused, already archived;
/// - a directory item into a flat-file category: refused, unwrapping is
///   not supported;
/// - a flat item into a project/area: wrapped as `<dir>/<name>/index.<ext>`;
/// - into the archive: `<archive>/<Origin>/<basename>`;
/// - otherwise relocated as-is: `<dir>/<basename>`.
pub open spec fn move_destination_spec(ws: Workspace, l: Located, target: Category) -> Result<Seq<char>, ()> {
    if l.category == Category::Archive && target == Category::Archive {
        Err(())
    } else if is_directory_item(l) && !spec_is_directory_style(target) && target != Category::Archive {
        Err(())
    } else if spec_is_directory_style(target) && !is_directory_item(l) {
        Ok(join_path(join_path(ws.category_dir_spec(target), l.name@), "index."@ + ws.config.default_extension@))
    } else if target == Category::Archive {
        Ok(join_path(join_path(ws.category_dir_spec(Category::Archive), spec_archive_origin_name(l.category)), moved_basename(l)))
    } else {
        Ok(join_path(ws.category_dir_spec(target), moved_basename(l)))
    }
}

/// The error a refused move reports: already archived when moving from
/// the archive into it, else that unwrapping is not supported.
pub open spec fn move_refusal(l: Located, target: Category, err: ItemsError) -> bool {
    if l.category == Category::Archive && target == Category::Archive {
        err matches ItemsError::AlreadyArchived { name } && name@ == l.name@
    } else {
        err matches ItemsError::UnwrapNotSupported { name, from, to } && name@ == l.name@
            && from@ == spec_display_name(l.category) && to@ == spec_display_name(target)
    }
}

/// Computes where `mv` relocates a located item, refusing the moves it
/// does not support before anything on disk is touched.
pub fn move_destination(ws: &Workspace, l: &Located, target: Category) -> (r: Result<String, ItemsError>)
    ensures
        match (r, move_destination_spec(*ws, *l, target)) {
            (Ok(d), Ok(e)) => d@ == e,
            (Err(err), Err(())) => move_refusal(*l, target, err),
            _ => false,
        },
{
    if l.category == Category::Archive && target == Category::Archive {
        return Err(ItemsError::AlreadyArchived { name: l.name.clone() });
    }
    let directory_item = if l.category == Category::Archive {
        match l.origin {
            Some(o) => o.is_directory_style(),
            None => false,
        }
    } else {
        l.category.is_directory_style()
    };
    if directory_item && !target.is_directory_style() && target != Category::Archive {
        return Err(ItemsError::UnwrapNotSupported {
            name: l.name.clone(),
            from: l.category.display_name(),
            to: target.display_name(),
        });
    }
    let basename: &str = if directory_item {
        l.name.as_str()
    } else {
        l.file_name.as_str()
    };
    if target.is_directory_style() && !directory_item {
        let index = "index.";
        proof {
            reveal_strlit("index.");
        }
        let file = concat2(index, ws.config.default_extension.as_str());
        let dir = join(ws.category_dir(target).as_str(), l.name.as_str());
        Ok(join(dir.as_str(), file.as_str()))
    } else if target == Category::Archive {
        let origin_dir = join(ws.category_dir(Category::Archive).as_str(), l.category.archive_origin_name());
        Ok(join(origin_dir.as_str(), basename))
    } else {
        Ok(join(ws.category_dir(target).as_str(), basename))
    }
}

/// A move never lands an item back in its own archive, never leaves a
/// directory item in a flat-file category, and always files archived
/// items under their origin subfolder.
pub proof fn lemma_move_shapes(ws: Workspace, l: Located, target: Category)
    ensures
        move_destination_spec(ws, l, target) is Ok && is_directory_item(l) ==> (spec_is_directory_style(target) || target == Category::Archive),
        move_destination_spec(ws, l, target) is Ok && target == Category::Archive ==> l.category != Category::Archive,
        target == Category::Archive && l.category != Category::Archive ==> move_destination_spec(ws, l, target) == Ok::<Seq<char>, ()>(
            join_path(join_path(ws.category_dir_spec(Category::Archive), spec_archive_origin_name(l.category)), moved_basename(l)),
        ),
{
}

/// A bare name (one without `/`) never resolves to an archived item: the
/// archive is only reachable by a qualified `<Origin>/<name>`.
pub proof fn lemma_bare_name_never_archived(cat: Catalog, name: Seq<char>)
    requires
        !name.contains('/'),
    ensures
        locate_target(cat, name) matches Ok(Some((archived, k, j))) ==> !archived,
{
    lemma_no_slash_first_index(name);
}

pub(crate) proof fn lemma_no_slash_first_index(s: Seq<char>)
    requires
        !s.contains('/'),
    ensures
        first_index_of(s, '/') == -1,
    decreases s.len(),
{
    if s.len() > 0 {
        assert(s[0] != '/');
        assert forall|i: int| 0 <= i < s.drop_first().len() implies s.drop_first()[i] != '/' by {
            assert(s.drop_first()[i] == s[i + 1]);
        }
        lemma_no_slash_first_index(s.drop_first());
    }
}

/// Archiving an item and then moving it back to the category it came from
/// returns it to the very path it had, provided that path is where its
/// category keeps items of that name.
pub proof fn lemma_archive_then_restore(ws: Workspace, l: Located, archived: Located)
    requires
        l.category != Category::Archive,
        l.path@ == join_path(ws.category_dir_spec(l.category), moved_basename(l)),
        move_destination_spec(ws, l, Category::Archive) == Ok::<Seq<char>, ()>(archived.path@),
        archived.category == Category::Archive,
        archived.origin == Some(l.category),
        archived.name@ == l.name@,
        archived.file_name@ == moved_basename(l),
    ensures
        move_destination_spec(ws, archived, l.category) == Ok::<Seq<char>, ()>(l.path@),
{
}

/// Moving a flat item into a project or area puts it exactly where
/// creating an item of that name there would.
pub proof fn lemma_wrap_is_item_path(ws: Workspace, l: Located, target: Category)
    requires
        !is_directory_item(l),
        spec_is_directory_style(target),
    ensures
        move_destination_spec(ws, l, target) == Ok::<Seq<char>, ()>(item_path_spec(ws, target, l.name@)),
{
}

/// Where each move of a live item lands, category by category:
/// - a flat item (inbox or resource) moved to the inbox or resources keeps
///   its own file name, extension included: `<target>/<file name>`;
/// - a flat item moved to projects or areas is wrapped:
///   `<target>/<name>/index.<ext>`;
/// - a project or area moved to projects or areas keeps its directory name:
///   `<target>/<name>`, and moving it to the inbox or resources is refused;
/// - archiving files it under its origin: `<archive>/<Origin>/<file name>`
///   for a flat item, `<archive>/<Origin>/<name>` for a project or area.
pub proof fn lemma_live_move_destinations(ws: Workspace, l: Located, target: Category)
    requires
        l.category != Category::Archive,
    ensures
        (l.category == Category::Inbox || l.category == Category::Resource) && (target
            == Category::Inbox || target == Category::Resource) ==> move_destination_spec(ws, l, target)
            == Ok::<Seq<char>, ()>(join_path(ws.category_dir_spec(target), l.file_name@)),
        (l.category == Category::Inbox || l.category == Category::Resource) && (target
            == Category::Project || target == Category::Area) ==> move_destination_spec(ws, l, target)
            == Ok::<Seq<char>, ()>(
            join_path(join_path(ws.category_dir_spec(target), l.name@), "index."@ + ws.config.default_extension@),
        ),
        (l.category == Category::Project || l.category == Category::Area) && (target
            == Category::Project || target == Category::Area) ==> move_destination_spec(ws, l, target)
            == Ok::<Seq<char>, ()>(join_path(ws.category_dir_spec(target), l.name@)),
        (l.category == Category::Project || l.category == Category::Area) && (target
            == Category::Inbox || target == Category::Resource) ==> move_destination_spec(ws, l, target) is Err,
        (l.category == Category::Inbox || l.category == Category::Resource) && target == Category::Archive
            ==> move_destination_spec(ws, l, target) == Ok::<Seq<char>, ()>(
            join_path(join_path(ws.category_dir_spec(Category::Archive), spec_archive_origin_name(l.category)), l.file_name@),
        ),
        (l.category == Category::Project || l.category == Category::Area) && target == Category::Archive
            ==> move_destination_spec(ws, l, target) == Ok::<Seq<char>, ()>(
            join_path(join_path(ws.category_dir_spec(Category::Archive), spec_archive_origin_name(l.category)), l.name@),
        ),
{
}

/// The note whose frontmatter takes a summary: for a project or area, live
/// or archived from one, its `index.<ext>` inside the item's directory;
/// for an inbox or resource file, the file itself.
pub proof fn lemma_item_note_is_index_of_directories(ws: Workspace, l: Located)
    ensures
        (l.category == Category::Project || l.category == Category::Area) ==> item_note_spec(ws, l)
            == join_path(l.path@, "index."@ + ws.config.default_extension@),
        (l.category == Category::Archive && (l.origin == Some(Category::Project) || l.origin == Some(
            Category::Area,
        ))) ==> item_note_spec(ws, l) == join_path(l.path@, "index."@ + ws.config.default_extension@),
        (l.category == Category::Inbox || l.category == Category::Resource) ==> item_note_spec(ws, l)
            == l.path@,
        (l.category == Category::Archive && (l.origin == Some(Category::Inbox) || l.origin == Some(
            Category::Resource,
        ))) ==> item_note_spec(ws, l) == l.path@,
{
}

/// The list filter: with no filter every row passes; with one, a row
/// passes exactly when the lowercased filter occurs in its lowercased name
/// or in its lowercased title, so a match on the name alone is enough
/// whatever the title, and so is a match on the title alone.
pub proof fn lemma_filter_is_name_or_title(name: Seq<char>, title: Seq<char>, f: Seq<char>)
    ensures
        filter_matches(name, title, None),
        contains_seq(lowercase(name), lowercase(f)) ==> filter_matches(name, title, Some(f)),
        contains_seq(lowercase(title), lowercase(f)) ==> filter_matches(name, title, Some(f)),
        !contains_seq(lowercase(name), lowercase(f)) && !contains_seq(lowercase(title), lowercase(f))
            ==> !filter_matches(name, title, Some(f)),
{
}

} // verus!

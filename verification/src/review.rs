//! The weekly review: walk every project, then every area, asking keep /
//! archive / skip for each, and what each answer does to the item.

use vstd::prelude::*;
use crate::category::{Category, spec_is_directory_style, spec_archive_origin_name};
use crate::cli::{age_text, format_age};
use crate::items::{
    Catalog, ItemsError, Located, StatusItem, item_path, item_path_spec, locate, locate_target,
    located_at, move_destination_spec,
};
use crate::text::concat3;
use crate::workspace::{Workspace, join, join_path};

verus! {

/// The answer to one review prompt.
#[derive(Debug, Clone, Copy, PartialEq, Eq, Structural)]
pub enum Decision {
    /// Keep the item and stamp it as reviewed today.
    Keep,
    /// Move the item to the archive.
    Archive,
    /// Leave the item untouched.
    Skip,
}

pub open spec fn decision_of(choice: char) -> Decision {
    if choice == 'k' {
        Decision::Keep
    } else if choice == 'a' {
        Decision::Archive
    } else {
        Decision::Skip
    }
}

impl Decision {
    /// The decision a prompt answer stands for: `k`eep, `a`rchive, `s`kip.
    pub fn from_choice(choice: char) -> (r: Decision)
        requires
            choice == 'k' || choice == 'a' || choice == 's',
        ensures
            r == decision_of(choice),
    {
        if choice == 'k' {
            Decision::Keep
        } else if choice == 'a' {
            Decision::Archive
        } else {
            Decision::Skip
        }
    }
}

/// Why a review of a named item was refused.
#[derive(Debug)]
pub enum ReviewError {
    /// Resolving the name failed.
    Items(ItemsError),
    /// The name is not a project or an area.
    NotReviewable { name: String },
}

/// One prompt of the walk.
#[derive(Debug, Clone, PartialEq, Eq)]
pub struct ReviewPrompt {
    pub category: Category,
    pub name: String,
    /// `<Label>: <name> (last updated <age>)`.
    pub header: String,
}

/// The choices offered at each prompt, as (key, rest of word):
/// `[k]eep  [a]rchive  [s]kip?`.
pub fn review_options() -> (r: [(char, &'static str); 3])
    ensures
        r@[0].0 == 'k' && r@[0].1@ == "eep"@,
        r@[1].0 == 'a' && r@[1].1@ == "rchive"@,
        r@[2].0 == 's' && r@[2].1@ == "kip"@,
{
    [('k', "eep"), ('a', "rchive"), ('s', "kip")]
}

pub open spec fn category_label(c: Category) -> Seq<char> {
    if c == Category::Project {
        "Project"@
    } else {
        "Area"@
    }
}

/// The header of a prompt.
pub open spec fn prompt_header(c: Category, x: StatusItem) -> Seq<char> {
    category_label(c) + ": "@ + x.name@ + " (last updated "@ + age_text(x.updated_days_ago) + ")"@
}

fn prompt_for(c: Category, x: &StatusItem) -> (r: ReviewPrompt)
    ensures
        r.category == c,
        r.name@ == x.name@,
        r.header@ == prompt_header(c, *x),
{
    proof {
        reveal_strlit("Project");
        reveal_strlit("Area");
        reveal_strlit(": ");
        reveal_strlit(" (last updated ");
        reveal_strlit(")");
    }
    let label = if c == Category::Project {
        "Project"
    } else {
        "Area"
    };
    let mut header = concat3(label, ": ", x.name.as_str());
    header.append(" (last updated ");
    header.append(format_age(x.updated_days_ago).as_str());
    header.append(")");
    ReviewPrompt { category: c, name: x.name.clone(), header }
}

/// What a review walk does.
#[derive(Debug, Clone, PartialEq, Eq)]
pub enum ReviewWalk {
    /// There are no projects or areas; report this message.
    Nothing(String),
    /// Prompt for each item, in this order.
    Prompts(Vec<ReviewPrompt>),
}

/// The walk over the review items: every project, then every area, each
/// group in the order given (alphabetical, as `review_items` returns
/// them), one prompt per item; or a message when there is nothing to
/// review.
pub fn run(projects: &Vec<StatusItem>, areas: &Vec<StatusItem>) -> (r: ReviewWalk)
    ensures
        projects@.len() == 0 && areas@.len() == 0 ==> (r matches ReviewWalk::Nothing(m) && m@ == "Nothing to review."@),
        projects@.len() > 0 || areas@.len() > 0 ==> (r matches ReviewWalk::Prompts(p) && p@.len() == projects@.len() + areas@.len()
            && (forall|i: int| 0 <= i < projects@.len() ==> #[trigger] p@[i].category == Category::Project
                && p@[i].name@ == projects@[i].name@ && p@[i].header@ == prompt_header(Category::Project, projects@[i]))
            && (forall|j: int| 0 <= j < areas@.len() ==> #[trigger] p@[projects@.len() + j].category == Category::Area
                && p@[projects@.len() + j].name@ == areas@[j].name@
                && p@[projects@.len() + j].header@ == prompt_header(Category::Area, areas@[j]))),
{
    if projects.len() == 0 && areas.len() == 0 {
        return ReviewWalk::Nothing(String::from_str("Nothing to review."));
    }
    let mut p: Vec<ReviewPrompt> = Vec::new();
    let mut i: usize = 0;
    while i < projects.len()
        invariant
            i <= projects.len(),
            p@.len() == i,
            forall|k: int| 0 <= k < i ==> #[trigger] p@[k].category == Category::Project
                && p@[k].name@ == projects@[k].name@ && p@[k].header@ == prompt_header(Category::Project, projects@[k]),
        decreases projects.len() - i,
    {
        p.push(prompt_for(Category::Project, &projects[i]));
        i = i + 1;
    }
    let mut j: usize = 0;
    while j < areas.len()
        invariant
            j <= areas.len(),
            p@.len() == projects@.len() + j,
            forall|k: int| 0 <= k < projects@.len() ==> #[trigger] p@[k].category == Category::Project
                && p@[k].name@ == projects@[k].name@ && p@[k].header@ == prompt_header(Category::Project, projects@[k]),
            forall|k: int| 0 <= k < j ==> #[trigger] p@[projects@.len() + k].category == Category::Area
                && p@[projects@.len() + k].name@ == areas@[k].name@
                && p@[projects@.len() + k].header@ == prompt_header(Category::Area, areas@[k]),
        decreases areas.len() - j,
    {
        p.push(prompt_for(Category::Area, &areas[j]));
        j = j + 1;
    }
    ReviewWalk::Prompts(p)
}

/// What a decision does to the filesystem.
#[derive(Debug, Clone, PartialEq, Eq)]
pub enum ReviewEffect {
    /// Set `last_reviewed` in this index file to today.
    Stamp { index_path: String },
    /// Move the item from one path to the other.
    Move { from: String, to: String },
    /// Nothing changes.
    Untouched,
}

/// What a decision about a project or area named `name` does: keep stamps
/// its index file, archive moves its directory under the archive's origin
/// subfolder (leaving `last_reviewed` alone), skip changes nothing.
pub open spec fn decision_effect(ws: Workspace, c: Category, name: Seq<char>, from: Seq<char>, d: Decision, e: ReviewEffect) -> bool {
    match d {
        Decision::Keep => e matches ReviewEffect::Stamp { index_path } && index_path@ == item_path_spec(ws, c, name),
        Decision::Archive => e matches ReviewEffect::Move { from: f, to } && f@ == from && to@ == join_path(
            join_path(ws.category_dir_spec(Category::Archive), spec_archive_origin_name(c)),
            name,
        ),
        Decision::Skip => e is Untouched,
    }
}

/// Applies a decision to a project or area item at `from`. Archiving goes
/// where `move_destination` sends a directory item (see
/// `lemma_review_archive_is_a_move`).
pub fn apply_decision(ws: &Workspace, category: Category, name: &str, from: &str, decision: Decision) -> (r: ReviewEffect)
    requires
        category == Category::Project || category == Category::Area,
    ensures
        decision_effect(*ws, category, name@, from@, decision, r),
{
    match decision {
        Decision::Keep => ReviewEffect::Stamp { index_path: item_path(ws, category, name) },
        Decision::Archive => {
            let origin_dir = join(ws.category_dir(Category::Archive).as_str(), category.archive_origin_name());
            ReviewEffect::Move { from: from.to_owned(), to: join(origin_dir.as_str(), name) }
        },
        Decision::Skip => ReviewEffect::Untouched,
    }
}

/// Where a walk prompt's item lives: `<category dir>/<name>`.
pub fn prompt_source(ws: &Workspace, prompt: &ReviewPrompt) -> (r: String)
    ensures
        r@ == join_path(ws.category_dir_spec(prompt.category), prompt.name@),
{
    join(ws.category_dir(prompt.category).as_str(), prompt.name.as_str())
}

/// The outcome of reviewing one named item.
#[derive(Debug, Clone, PartialEq, Eq)]
pub enum RunOne {
    /// A decision flag was given: its effect and the confirmation to print.
    Done { effect: ReviewEffect, message: String },
    /// No flag: prompt for just this item, as the walk would.
    Prompt(ReviewPrompt),
}

pub open spec fn done_message(d: Decision, name: Seq<char>) -> Seq<char> {
    match d {
        Decision::Keep => "Kept "@ + name + "."@,
        Decision::Archive => "Archived "@ + name + "."@,
        Decision::Skip => "Skipped "@ + name + "."@,
    }
}

/// Reviews one named item. The name must resolve (see `locate`) to a
/// project or area; anything else, including no match, is refused as not
/// reviewable. With a decision flag the decision is applied without a
/// prompt and a one-line confirmation returned; without one, the item's
/// prompt (from its row in `items`, the review items of its category) is
/// returned.
pub fn run_one(
    ws: &Workspace,
    cat: &Catalog,
    name: &str,
    flag: Option<Decision>,
    items: &Vec<StatusItem>,
) -> (r: Result<RunOne, ReviewError>)
    ensures
        match locate_target(*cat, name@) {
            Err(()) => r matches Err(ReviewError::Items(ItemsError::Ambiguous { name: n })) && n@ == name@,
            Ok(None) => r matches Err(ReviewError::NotReviewable { name: n }) && n@ == name@,
            Ok(Some((archived, k, j))) => forall|l: Located| #[trigger] located_at(*cat, l, archived, k, j) ==> (
                if l.category != Category::Project && l.category != Category::Area {
                    r matches Err(ReviewError::NotReviewable { name: n }) && n@ == name@
                } else {
                    match flag {
                        Some(d) => r matches Ok(RunOne::Done { effect, message }) && decision_effect(*ws, l.category, l.name@, l.path@, d, effect)
                            && message@ == done_message(d, name@),
                        None => match r {
                            Ok(RunOne::Prompt(p)) => p.category == l.category && p.name@ == l.name@ && exists|i: int|
                                0 <= i < items@.len() && #[trigger] items@[i].name@ == l.name@ && p.header@ == prompt_header(l.category, items@[i]),
                            Err(ReviewError::NotReviewable { name: n }) => n@ == name@ && forall|i: int| 0 <= i < items@.len() ==> #[trigger] items@[i].name@ != l.name@,
                            _ => false,
                        },
                    }
                }),
        },
{
    let item = match locate(cat, name) {
        Err(e) => return Err(ReviewError::Items(e)),
        Ok(None) => return Err(ReviewError::NotReviewable { name: name.to_owned() }),
        Ok(Some(l)) => l,
    };
    if item.category != Category::Project && item.category != Category::Area {
        return Err(ReviewError::NotReviewable { name: name.to_owned() });
    }
    match flag {
        Some(d) => {
            let effect = apply_decision(ws, item.category, item.name.as_str(), item.path.as_str(), d);
            proof {
                reveal_strlit("Kept ");
                reveal_strlit("Archived ");
                reveal_strlit("Skipped ");
                reveal_strlit(".");
            }
            let message = match d {
                Decision::Keep => concat3("Kept ", name, "."),
                Decision::Archive => concat3("Archived ", name, "."),
                Decision::Skip => concat3("Skipped ", name, "."),
            };
            Ok(RunOne::Done { effect, message })
        },
        None => {
            let mut i: usize = 0;
            #[verifier::loop_isolation(false)]
            while i < items.len()
                invariant
                    i <= items.len(),
                    forall|k: int| 0 <= k < i ==> #[trigger] items@[k].name@ != item.name@,
                decreases items.len() - i,
            {
                if crate::text::str_eq(items[i].name.as_str(), item.name.as_str()) {
                    let p = prompt_for(item.category, &items[i]);
                    assert(items@[i as int].name@ == item.name@);
                    assert(p.header@ == prompt_header(item.category, items@[i as int]));
                    return Ok(RunOne::Prompt(p));
                }
                i = i + 1;
            }
            Err(ReviewError::NotReviewable { name: name.to_owned() })
        },
    }
}

/// Archiving during a review files the item exactly where `move ...
/// archive` would.
pub proof fn lemma_review_archive_is_a_move(ws: Workspace, l: Located)
    requires
        l.category == Category::Project || l.category == Category::Area,
        l.origin is None,
    ensures
        move_destination_spec(ws, l, Category::Archive) == Ok::<Seq<char>, ()>(
            join_path(join_path(ws.category_dir_spec(Category::Archive), spec_archive_origin_name(l.category)), l.name@),
        ),
{
}

/// What each answer does to a project or area `name` of category `c`:
/// keep stamps `<c's folder>/<name>/index.<ext>` (the item's own index
/// file, in its own category's folder), archive moves `from` to
/// `<archive>/<c's origin name>/<name>`, skip does nothing.
pub proof fn lemma_decision_effects(
    ws: Workspace,
    c: Category,
    name: Seq<char>,
    from: Seq<char>,
    d: Decision,
    e: ReviewEffect,
)
    requires
        c == Category::Project || c == Category::Area,
        decision_effect(ws, c, name, from, d, e),
    ensures
        d == Decision::Keep ==> (e matches ReviewEffect::Stamp { index_path } && index_path@ == join_path(
            join_path(ws.category_dir_spec(c), name),
            "index."@ + ws.config.default_extension@,
        )),
        d == Decision::Archive ==> (e matches ReviewEffect::Move { from: f, to } && f@ == from && to@
            == join_path(join_path(ws.category_dir_spec(Category::Archive), spec_archive_origin_name(c)), name)),
        d == Decision::Skip ==> e is Untouched,
{
}

} // verus!

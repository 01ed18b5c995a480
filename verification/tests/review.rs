use ishi::category::Category;
use ishi::config::Config;
use ishi::items::{review_items, Catalog, Entry, Scanned};
use ishi::review::{apply_decision, prompt_source, run, run_one, Decision, ReviewEffect, ReviewError, ReviewWalk, RunOne};
use ishi::workspace::Workspace;

const ROOT: &str = "/para";
const NOW: u64 = 1_782_916_245;

fn workspace() -> Workspace {
    Workspace {
        root: ROOT.to_string(),
        config: Config::default(),
    }
}

fn entry(name: &str, days_ago: u64) -> Entry {
    Entry {
        origin: None,
        name: name.to_string(),
        path: format!("{ROOT}/{name}/index.md"),
        title: None,
        modified_secs: NOW - days_ago * 86400,
        last_reviewed: None,
    }
}

fn items(names: &[(&str, u64)]) -> Vec<ishi::items::StatusItem> {
    let entries: Vec<Entry> = names.iter().map(|(n, d)| entry(n, *d)).collect();
    review_items(&entries, NOW, 0)
}

fn prompts(walk: ReviewWalk) -> Vec<ishi::review::ReviewPrompt> {
    match walk {
        ReviewWalk::Prompts(p) => p,
        ReviewWalk::Nothing(m) => panic!("nothing to review: {m}"),
    }
}

fn catalog_with_project(name: &str) -> Catalog {
    Catalog {
        live: [
            vec![],
            vec![Scanned {
                name: name.to_string(),
                file_name: name.to_string(),
                path: format!("{ROOT}/1-Projects/{name}"),
            }],
            vec![],
            vec![],
        ],
        archived: [vec![], vec![], vec![], vec![]],
    }
}

#[test]
fn walks_projects_before_areas_alphabetical_within_each_group() {
    let projects = items(&[("website-redesign", 0), ("my-project", 0)]);
    let areas = items(&[("health", 0), ("finances", 0)]);

    let headers: Vec<String> = prompts(run(&projects, &areas)).into_iter().map(|p| p.header).collect();

    assert_eq!(headers.len(), 4);
    assert!(headers[0].starts_with("Project: my-project"));
    assert!(headers[1].starts_with("Project: website-redesign"));
    assert!(headers[2].starts_with("Area: finances"));
    assert!(headers[3].starts_with("Area: health"));
}

#[test]
fn project_header_matches_documented_format() {
    let p = prompts(run(&items(&[("website-redesign", 12)]), &vec![]));
    assert_eq!(p[0].header, "Project: website-redesign (last updated 12 days ago)");
}

#[test]
fn area_header_uses_area_label() {
    let p = prompts(run(&vec![], &items(&[("finances", 4)])));
    assert_eq!(p[0].header, "Area: finances (last updated 4 days ago)");
}

#[test]
fn empty_workspace_reports_nothing_to_review_without_prompting() {
    match run(&vec![], &vec![]) {
        ReviewWalk::Nothing(m) => assert_eq!(m, "Nothing to review."),
        ReviewWalk::Prompts(_) => panic!("expected nothing to review"),
    }
}

#[test]
fn walk_ends_after_last_item_with_no_extra_prompt() {
    assert_eq!(prompts(run(&vec![], &items(&[("health", 0)]))).len(), 1);
}

#[test]
fn decision_from_choice_maps_each_key() {
    assert_eq!(Decision::from_choice('k'), Decision::Keep);
    assert_eq!(Decision::from_choice('a'), Decision::Archive);
    assert_eq!(Decision::from_choice('s'), Decision::Skip);
}

#[test]
fn keep_stamps_last_reviewed_and_leaves_path_untouched() {
    let effect = apply_decision(&workspace(), Category::Project, "my-project", "/para/1-Projects/my-project", Decision::Keep);
    assert_eq!(
        effect,
        ReviewEffect::Stamp { index_path: "/para/1-Projects/my-project/index.md".to_string() }
    );
}

#[test]
fn skip_touches_neither_path_nor_frontmatter() {
    let effect = apply_decision(&workspace(), Category::Project, "my-project", "/para/1-Projects/my-project", Decision::Skip);
    assert_eq!(effect, ReviewEffect::Untouched);
}

#[test]
fn archive_moves_project_under_archive_projects() {
    let effect = apply_decision(&workspace(), Category::Project, "website-redesign", "/para/1-Projects/website-redesign", Decision::Archive);
    assert_eq!(
        effect,
        ReviewEffect::Move {
            from: "/para/1-Projects/website-redesign".to_string(),
            to: "/para/4-Archive/Projects/website-redesign".to_string()
        }
    );
}

#[test]
fn archive_moves_area_under_archive_areas() {
    let effect = apply_decision(&workspace(), Category::Area, "finances", "/para/2-Areas/finances", Decision::Archive);
    assert_eq!(
        effect,
        ReviewEffect::Move {
            from: "/para/2-Areas/finances".to_string(),
            to: "/para/4-Archive/Areas/finances".to_string()
        }
    );
}

#[test]
fn run_one_keep_stamps_last_reviewed_and_leaves_path_untouched() {
    let cat = catalog_with_project("my-project");
    match run_one(&workspace(), &cat, "my-project", Some(Decision::Keep), &vec![]).unwrap() {
        RunOne::Done { effect, message } => {
            assert_eq!(effect, ReviewEffect::Stamp { index_path: "/para/1-Projects/my-project/index.md".to_string() });
            assert_eq!(message, "Kept my-project.");
        }
        RunOne::Prompt(_) => panic!("expected a decision"),
    }
}

#[test]
fn run_one_archive_moves_item_and_leaves_last_reviewed_untouched() {
    let cat = catalog_with_project("my-project");
    match run_one(&workspace(), &cat, "my-project", Some(Decision::Archive), &vec![]).unwrap() {
        RunOne::Done { effect, message } => {
            assert_eq!(
                effect,
                ReviewEffect::Move {
                    from: "/para/1-Projects/my-project".to_string(),
                    to: "/para/4-Archive/Projects/my-project".to_string()
                }
            );
            assert_eq!(message, "Archived my-project.");
        }
        RunOne::Prompt(_) => panic!("expected a decision"),
    }
}

#[test]
fn run_one_skip_leaves_item_byte_for_byte_unchanged() {
    let cat = catalog_with_project("my-project");
    match run_one(&workspace(), &cat, "my-project", Some(Decision::Skip), &vec![]).unwrap() {
        RunOne::Done { effect, message } => {
            assert_eq!(effect, ReviewEffect::Untouched);
            assert_eq!(message, "Skipped my-project.");
        }
        RunOne::Prompt(_) => panic!("expected a decision"),
    }
}

#[test]
fn run_one_on_a_resource_errors_and_leaves_it_untouched() {
    let cat = Catalog {
        live: [
            vec![],
            vec![],
            vec![],
            vec![Scanned {
                name: "recipe-ideas".to_string(),
                file_name: "recipe-ideas.md".to_string(),
                path: "/para/3-Resources/recipe-ideas.md".to_string(),
            }],
        ],
        archived: [vec![], vec![], vec![], vec![]],
    };
    let result = run_one(&workspace(), &cat, "recipe-ideas", Some(Decision::Keep), &vec![]);
    assert!(matches!(result, Err(ReviewError::NotReviewable { .. })));
}

#[test]
fn run_one_on_an_unmatched_name_errors_as_not_reviewable() {
    let cat = catalog_with_project("my-project");
    let result = run_one(&workspace(), &cat, "nonexistent", Some(Decision::Keep), &vec![]);
    assert!(matches!(result, Err(ReviewError::NotReviewable { .. })));
}

#[test]
fn run_one_with_no_flag_falls_back_to_interactive_prompt_for_just_that_item() {
    let cat = catalog_with_project("website-redesign");
    let rows = items(&[("website-redesign", 12), ("other", 1)]);
    match run_one(&workspace(), &cat, "website-redesign", None, &rows).unwrap() {
        RunOne::Prompt(p) => {
            assert_eq!(p.header, "Project: website-redesign (last updated 12 days ago)");
            assert_eq!(p.category, Category::Project);
        }
        RunOne::Done { .. } => panic!("expected a prompt"),
    }
}

#[test]
fn archiving_one_item_does_not_revisit_it_walk_continues() {
    let ws = workspace();
    let walk = prompts(run(&items(&[("my-project", 0), ("website-redesign", 0)]), &vec![]));

    let first = apply_decision(&ws, walk[0].category, &walk[0].name, &prompt_source(&ws, &walk[0]), Decision::Archive);
    assert_eq!(
        first,
        ReviewEffect::Move {
            from: "/para/1-Projects/my-project".to_string(),
            to: "/para/4-Archive/Projects/my-project".to_string()
        }
    );
    assert_eq!(walk.len(), 2);
    assert!(walk[1].header.starts_with("Project: website-redesign"));
}

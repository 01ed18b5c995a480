use chrono::Datelike;
use ishi::category::{Category, Kind};
use ishi::cli::{
    archived_item_names, catalog_live_names, completion_candidate_matches, config_target, dirs_to_create,
    display_path, editor_seed, render_status_items, format_age, live_item_names, named_note_content, new_default_name, run_init,
    run_list, run_move, run_status, run_unarchive, CliError,
};
use ishi::config::Config;
use ishi::items::{list, locate, status, Catalog, Entry, ItemsError, Scanned, StatusItem};
use ishi::workspace::Workspace;

const ROOT: &str = "/para";
const NOW: u64 = 1_782_916_245;

fn workspace() -> Workspace {
    Workspace {
        root: ROOT.to_string(),
        config: Config::default(),
    }
}

fn entry(name: &str, title: Option<&str>, days_ago: u64) -> Entry {
    Entry {
        origin: None,
        name: name.to_string(),
        path: format!("{ROOT}/{name}"),
        title: title.map(|t| t.to_string()),
        modified_secs: NOW - days_ago * 86400,
        last_reviewed: None,
    }
}

fn scanned(dir: &str, name: &str, file_name: &str) -> Scanned {
    Scanned {
        name: name.to_string(),
        file_name: file_name.to_string(),
        path: format!("{ROOT}/{dir}/{file_name}"),
    }
}

fn empty_catalog() -> Catalog {
    Catalog {
        live: [vec![], vec![], vec![], vec![]],
        archived: [vec![], vec![], vec![], vec![]],
    }
}

#[test]
fn format_age_today() {
    assert_eq!(format_age(0), "today");
}

#[test]
fn format_age_one_day() {
    assert_eq!(format_age(1), "1 day ago");
}

#[test]
fn format_age_many_days() {
    assert_eq!(format_age(21), "21 days ago");
}

#[test]
fn format_age_large_counts_are_written_in_full() {
    assert_eq!(format_age(10), "10 days ago");
    assert_eq!(format_age(18_446_744_073_709_551_615), "18446744073709551615 days ago");
}

#[test]
fn completion_candidate_matches_matches_qualified_candidates_name_segment() {
    assert!(completion_candidate_matches("inbox/meeting-notes", "meeti"));
}

#[test]
fn completion_candidate_matches_matches_full_qualified_prefix() {
    assert!(completion_candidate_matches(
        "inbox/meeting-notes",
        "inbox/meeti"
    ));
    assert!(!completion_candidate_matches(
        "resources/meeting-notes",
        "inbox/meeti"
    ));
}

#[test]
fn completion_candidate_matches_matches_bare_candidate_prefix() {
    assert!(completion_candidate_matches("website-redesign", "website"));
}

#[test]
fn completion_candidate_matches_rejects_non_prefix() {
    assert!(!completion_candidate_matches("inbox/meeting-notes", "zzz"));
}

#[test]
fn run_list_renders_directory_style_category() {
    let items = list(
        &vec![
            entry("website-redesign", Some("Website Redesign"), 2),
            entry("my-project", Some("My Project"), 21),
        ],
        None,
        NOW,
    );

    let output = run_list(Category::Project, &items, None);

    let lines: Vec<&str> = output.lines().collect();
    assert_eq!(lines[0], "NAME               TITLE              UPDATED");
    assert_eq!(lines[1], "my-project         My Project         21 days ago");
    assert_eq!(lines[2], "website-redesign   Website Redesign   2 days ago");
}

#[test]
fn run_list_renders_flat_category() {
    let items = list(&vec![entry("api-notes", Some("API Design Notes"), 5)], None, NOW);

    let output = run_list(Category::Resource, &items, None);

    let lines: Vec<&str> = output.lines().collect();
    assert_eq!(lines[0], "NAME        TITLE              UPDATED");
    assert_eq!(lines[1], "api-notes   API Design Notes   5 days ago");
}

#[test]
fn run_list_renders_single_row_area_category() {
    let items = list(&vec![entry("health", Some("Health"), 0)], None, NOW);

    let output = run_list(Category::Area, &items, None);

    let lines: Vec<&str> = output.lines().collect();
    assert_eq!(lines[0], "NAME     TITLE    UPDATED");
    assert_eq!(lines[1], "health   Health   today");
}

#[test]
fn run_list_renders_archive_category_with_qualified_names() {
    let mut project = entry("old-project", Some("Old Project"), 120);
    project.origin = Some(Category::Project);
    let mut resource = entry("api-notes-v1", Some("API Notes v1"), 180);
    resource.origin = Some(Category::Resource);
    let items = list(&vec![project, resource], None, NOW);

    let output = run_list(Category::Archive, &items, None);

    let lines: Vec<&str> = output.lines().collect();
    assert_eq!(lines[1], "Projects/old-project     Old Project    120 days ago");
    assert_eq!(lines[2], "Resources/api-notes-v1   API Notes v1   180 days ago");
}

#[test]
fn run_list_renders_empty_message_when_category_has_no_items_and_no_filter() {
    assert_eq!(run_list(Category::Resource, &vec![], None), "No items in Resources.");
}

#[test]
fn run_list_renders_no_match_message_when_filter_matches_nothing() {
    let items = list(&vec![entry("my-project", Some("My Project"), 0)], Some("nonexistent"), NOW);

    let output = run_list(Category::Project, &items, Some("nonexistent"));

    assert_eq!(output, "No items in Projects matching \"nonexistent\".");
}

#[test]
fn run_list_renders_table_when_filter_matches_something() {
    let items = list(
        &vec![
            entry("website-redesign", Some("Website Redesign"), 2),
            entry("my-project", Some("My Project"), 0),
        ],
        Some("web"),
        NOW,
    );

    let output = run_list(Category::Project, &items, Some("web"));

    let lines: Vec<&str> = output.lines().collect();
    assert_eq!(lines.len(), 2);
    assert_eq!(lines[0], "NAME               TITLE              UPDATED");
    assert_eq!(lines[1], "website-redesign   Website Redesign   2 days ago");
}

fn today() -> i32 {
    chrono::NaiveDate::from_ymd_opt(2026, 7, 8).unwrap().num_days_from_ce()
}

#[test]
fn run_status_renders_five_line_summary() {
    let projects = vec![entry("p1", None, 0), entry("p2", None, 0), entry("p3", None, 0)];
    let areas = vec![entry("a1", None, 0), entry("a2", None, 0)];
    let report = status([2, 3, 2, 5, 12], &projects, &areas, NOW, today());

    let output = run_status(&report);

    assert_eq!(
        output,
        "Inbox       2\n\
         Projects    3\n\
         `- p1   p1   updated: today   reviewed: never\n\
         `- p2   p2   updated: today   reviewed: never\n\
         `- p3   p3   updated: today   reviewed: never\n\
         Areas       2\n\
         `- a1   a1   updated: today   reviewed: never\n\
         `- a2   a2   updated: today   reviewed: never\n\
         Resources   5\n\
         Archive     12"
    );
}

#[test]
fn run_status_on_empty_system_prints_all_zero_lines() {
    let report = status([0, 0, 0, 0, 0], &vec![], &vec![], NOW, today());

    let output = run_status(&report);

    let lines: Vec<&str> = output.lines().collect();
    assert_eq!(lines.len(), 5);
    for line in &lines {
        assert!(line.ends_with('0'));
        assert!(!line.contains("- "));
    }
}

#[test]
fn run_status_renders_project_rows_under_the_count_line() {
    let projects = vec![
        entry("website-redesign", Some("Website Redesign"), 2),
        entry("my-project", Some("My Project"), 0),
    ];
    let report = status([0, 2, 0, 0, 0], &projects, &vec![], NOW, today());

    let output = run_status(&report);
    let lines: Vec<&str> = output.lines().collect();

    let projects_idx = lines.iter().position(|l| l.starts_with("Projects")).unwrap();
    assert!(lines[projects_idx + 1].starts_with("`- my-project"));
    assert!(lines[projects_idx + 1].contains("reviewed: never"));
    assert!(lines[projects_idx + 2].starts_with("`- website-redesign"));
    assert!(lines[projects_idx + 2].contains("updated: 2 days ago"));
}

#[test]
fn run_status_renders_area_rows_under_the_count_line() {
    let report = status([0, 0, 1, 0, 0], &vec![], &vec![entry("health", Some("Health"), 0)], NOW, today());

    let output = run_status(&report);
    let lines: Vec<&str> = output.lines().collect();

    let areas_idx = lines.iter().position(|l| l.starts_with("Areas")).unwrap();
    assert!(lines[areas_idx + 1].starts_with("`- health"));
}

#[test]
fn run_status_row_falls_back_title_to_name() {
    let report = status([0, 1, 0, 0, 0], &vec![entry("quick-idea", None, 0)], &vec![], NOW, today());

    assert!(run_status(&report).contains("`- quick-idea   quick-idea"));
}

#[test]
fn run_status_count_only_categories_have_no_rows_following() {
    let report = status([1, 0, 0, 1, 0], &vec![], &vec![], NOW, today());

    assert!(!run_status(&report).contains("`- "));
}

#[test]
fn run_status_row_shows_reviewed_days_ago() {
    let mut e = entry("website-redesign", Some("Website Redesign"), 2);
    e.last_reviewed = Some("2026-07-05".to_string());
    let report = status([0, 1, 0, 0, 0], &vec![e], &vec![], NOW, today());

    assert!(run_status(&report).contains("updated: 2 days ago   reviewed: 3 days ago"));
}

#[test]
fn run_status_row_shows_reviewed_never() {
    let report = status([0, 1, 0, 0, 0], &vec![entry("my-project", Some("My Project"), 0)], &vec![], NOW, today());

    assert!(run_status(&report).contains("reviewed: never"));
}

#[test]
fn run_status_area_row_shows_reviewed_days_ago() {
    let mut e = entry("finances", Some("Finances"), 0);
    e.last_reviewed = Some("2026-07-04".to_string());
    let report = status([0, 0, 1, 0, 0], &vec![], &vec![e], NOW, today());

    assert!(run_status(&report).contains("reviewed: 4 days ago"));
}

#[test]
fn display_path_lowercases_category_and_archive_origin() {
    let ws = workspace();
    assert_eq!(display_path(&ws, "/para/0-Inbox/notes.md"), "inbox/notes.md");
    assert_eq!(display_path(&ws, "/para/4-Archive/Projects/foo"), "archive/projects/foo");
    assert_eq!(display_path(&ws, "/para/4-Archive/Odd/foo"), "archive/Odd/foo");
    assert_eq!(display_path(&ws, "/elsewhere/x.md"), "/elsewhere/x.md");
    assert_eq!(display_path(&ws, "/para/0-Inboxes/x.md"), "/para/0-Inboxes/x.md");
}

#[test]
fn run_move_returns_moved_message() {
    let ws = workspace();
    let mut cat = empty_catalog();
    cat.live[0].push(scanned("0-Inbox", "my-file", "my-file.md"));

    let plan = run_move(&ws, &cat, "my-file", Category::Project).unwrap();

    assert_eq!(plan.message, "Moved inbox/my-file.md to projects/my-file/index.md");
    assert_eq!(plan.dest, "/para/1-Projects/my-file/index.md");
    assert!(!plan.stamp_summary);
}

#[test]
fn run_move_unarchives_a_directory_item() {
    let ws = workspace();
    let mut cat = empty_catalog();
    cat.archived[1].push(scanned("4-Archive/Projects", "website-redesign", "website-redesign"));

    let plan = run_move(&ws, &cat, "Projects/website-redesign", Category::Project).unwrap();

    assert!(plan.message.contains("Moved"));
    assert_eq!(plan.dest, "/para/1-Projects/website-redesign");
}

#[test]
fn run_move_rejects_rearchiving_a_directory_style_archived_item() {
    let ws = workspace();
    let mut cat = empty_catalog();
    cat.archived[1].push(scanned("4-Archive/Projects", "website-redesign", "website-redesign"));

    let err = run_move(&ws, &cat, "Projects/website-redesign", Category::Archive).unwrap_err();

    assert!(matches!(err, CliError::Items(ItemsError::AlreadyArchived { .. })));
}

#[test]
fn run_move_errors_when_no_item_matches_name() {
    let err = run_move(&workspace(), &empty_catalog(), "nonexistent", Category::Project).unwrap_err();

    match err {
        CliError::NotFound { name } => assert_eq!(name, "nonexistent"),
        other => panic!("unexpected {other:?}"),
    }
}

#[test]
fn run_move_rejects_ambiguous_bare_name_and_moves_nothing() {
    let mut cat = empty_catalog();
    cat.live[0].push(scanned("0-Inbox", "meeting-notes", "meeting-notes.md"));
    cat.live[3].push(scanned("3-Resources", "meeting-notes", "meeting-notes.md"));

    let err = run_move(&workspace(), &cat, "meeting-notes", Category::Archive).unwrap_err();

    assert!(matches!(err, CliError::Items(ItemsError::Ambiguous { .. })));
}

#[test]
fn run_move_qualified_name_moves_only_that_category() {
    let mut cat = empty_catalog();
    cat.live[0].push(scanned("0-Inbox", "meeting-notes", "meeting-notes.md"));
    cat.live[3].push(scanned("3-Resources", "meeting-notes", "meeting-notes.md"));

    let plan = run_move(&workspace(), &cat, "resources/meeting-notes", Category::Archive).unwrap();

    assert_eq!(plan.item.path, "/para/3-Resources/meeting-notes.md");
    assert_eq!(plan.dest, "/para/4-Archive/Resources/meeting-notes.md");
    assert!(plan.stamp_summary);
}

#[test]
fn run_move_rejects_unwrapping_project_into_inbox() {
    let mut cat = empty_catalog();
    cat.live[1].push(scanned("1-Projects", "website-redesign", "website-redesign"));

    let err = run_move(&workspace(), &cat, "website-redesign", Category::Inbox).unwrap_err();

    assert!(matches!(err, CliError::Items(ItemsError::UnwrapNotSupported { .. })));
}

#[test]
fn run_move_to_non_archive_does_not_prompt_or_stamp() {
    let mut cat = empty_catalog();
    cat.live[0].push(scanned("0-Inbox", "my-file", "my-file.md"));

    let plan = run_move(&workspace(), &cat, "my-file", Category::Project).unwrap();

    assert!(!plan.stamp_summary);
}

#[test]
fn run_unarchive_restores_a_directory_item_to_its_origin_category() {
    let mut cat = empty_catalog();
    cat.archived[1].push(scanned("4-Archive/Projects", "website-redesign", "website-redesign"));

    let plan = run_unarchive(&workspace(), &cat, "Projects/website-redesign").unwrap();

    assert_eq!(plan.message, "Moved archive/projects/website-redesign to projects/website-redesign");
    assert_eq!(plan.dest, "/para/1-Projects/website-redesign");
}

#[test]
fn run_unarchive_restores_a_flat_item_to_its_origin_category() {
    let mut cat = empty_catalog();
    cat.archived[3].push(scanned("4-Archive/Resources", "my-file", "my-file.md"));

    let plan = run_unarchive(&workspace(), &cat, "Resources/my-file").unwrap();

    assert_eq!(plan.message, "Moved archive/resources/my-file.md to resources/my-file.md");
    assert_eq!(plan.dest, "/para/3-Resources/my-file.md");
}

#[test]
fn run_unarchive_rejects_a_bare_name_matching_a_live_item() {
    let mut cat = empty_catalog();
    cat.live[0].push(scanned("0-Inbox", "my-file", "my-file.md"));

    let err = run_unarchive(&workspace(), &cat, "my-file").unwrap_err();

    assert!(matches!(err, CliError::NotArchived { .. }));
}

#[test]
fn run_unarchive_errors_when_no_item_matches_name() {
    let err = run_unarchive(&workspace(), &empty_catalog(), "Projects/nonexistent").unwrap_err();

    match err {
        CliError::NotFound { name } => assert!(name.contains("nonexistent")),
        other => panic!("unexpected {other:?}"),
    }
}

#[test]
fn live_item_names_lists_names_across_all_four_live_categories() {
    let named = vec![
        (Category::Inbox, "my-file".to_string()),
        (Category::Project, "website-redesign".to_string()),
        (Category::Area, "finances".to_string()),
        (Category::Resource, "recipe-ideas".to_string()),
    ];

    let mut names = live_item_names(&named);
    names.sort();

    assert_eq!(names, vec!["finances", "my-file", "recipe-ideas", "website-redesign"]);
}

#[test]
fn live_item_names_on_uninitialized_workspace_is_empty() {
    assert_eq!(live_item_names(&vec![]), Vec::<String>::new());
}

#[test]
fn live_item_names_qualifies_colliding_basenames() {
    let named = vec![
        (Category::Inbox, "meeting-notes".to_string()),
        (Category::Resource, "meeting-notes".to_string()),
    ];

    let mut names = live_item_names(&named);
    names.sort();

    assert_eq!(names, vec!["inbox/meeting-notes", "resources/meeting-notes"]);
}

#[test]
fn live_item_names_qualifies_only_colliding_names() {
    let named = vec![
        (Category::Inbox, "meeting-notes".to_string()),
        (Category::Resource, "meeting-notes".to_string()),
        (Category::Project, "website-redesign".to_string()),
    ];

    let mut names = live_item_names(&named);
    names.sort();

    assert_eq!(
        names,
        vec!["inbox/meeting-notes", "resources/meeting-notes", "website-redesign"]
    );
}

#[test]
fn archived_item_names_lists_qualified_names_from_multiple_origins() {
    let mut project = entry("website-redesign", None, 0);
    project.origin = Some(Category::Project);
    let mut resource = entry("my-file", None, 0);
    resource.origin = Some(Category::Resource);
    let items = list(&vec![project, resource], None, NOW);

    let mut names = archived_item_names(&items);
    names.sort();

    assert_eq!(names, vec!["Projects/website-redesign", "Resources/my-file"]);
}

#[test]
fn run_init_bare_full_create() {
    let created: Vec<String> = Config::default().category_dirs.to_vec();
    assert_eq!(run_init(None, &created, "4-Archive", true, true, "AGENTS.md", true), "Created PARA system in .");
}

#[test]
fn run_init_named_full_create() {
    let created: Vec<String> = Config::default().category_dirs.to_vec();
    assert_eq!(
        run_init(Some("my-para"), &created, "4-Archive", true, true, "AGENTS.md", true),
        "Created PARA system in ./my-para"
    );
}

#[test]
fn run_init_already_complete() {
    assert_eq!(
        run_init(None, &vec![], "4-Archive", true, true, "AGENTS.md", true),
        "PARA system in . is already complete; no changes made"
    );
}

#[test]
fn run_init_partial_fill_in() {
    let created = dirs_to_create(&Config::default(), &[true, false, false, false, false]);
    assert_eq!(
        run_init(None, &created, "4-Archive", true, true, "AGENTS.md", true),
        "Created 1-Projects, 2-Areas, 3-Resources, 4-Archive in ."
    );
}

#[test]
fn run_init_prints_instructions_when_zed_settings_pre_exist() {
    let message = run_init(None, &vec![], "4-Archive", false, true, "AGENTS.md", true);
    assert!(message.contains(".zed/settings.json"));
    assert!(message.contains("4-Archive"));
}

#[test]
fn run_init_prints_instructions_when_vscode_settings_pre_exist() {
    let message = run_init(None, &vec![], "4-Archive", true, false, "AGENTS.md", true);
    assert!(message.contains(".vscode/settings.json"));
    assert!(message.contains("4-Archive"));
}

#[test]
fn run_init_prints_instructions_when_claude_md_pre_exists() {
    let message = run_init(None, &vec![], "4-Archive", true, true, "AGENTS.md", false);
    assert!(message.contains("AGENTS.md"));
    assert!(message.contains("4-Archive"));
}

#[test]
fn run_init_uses_targets_existing_custom_archive_name() {
    let message = run_init(None, &vec![], "9-Attic", false, true, "AGENTS.md", true);
    assert!(message.contains("9-Attic"));
    assert!(!message.contains("4-Archive"));
}

#[test]
fn run_config_init_creates_file_and_returns_message() {
    assert_eq!(ishi::cli::run_config_init("./.ishi.toml"), "Created ./.ishi.toml");
}

#[test]
fn config_target_picks_local_or_home_file() {
    assert_eq!(
        config_target("/work", false, Some("/home/me/.ishi.toml")),
        Some(("/work/.ishi.toml".to_string(), "./.ishi.toml".to_string()))
    );
    assert_eq!(
        config_target("/work", true, Some("/home/me/.ishi.toml")),
        Some(("/home/me/.ishi.toml".to_string(), "~/.ishi.toml".to_string()))
    );
    assert_eq!(config_target("/work", true, None), None);
}

#[test]
fn project_confirm_prompt_suggests_bare_directory_name_without_extension() {
    assert_eq!(new_default_name(Category::Project, "website-redesign", "md"), "website-redesign");
    assert_eq!(new_default_name(Category::Inbox, "ideas", "md"), "ideas.md");
}

#[test]
fn named_filename_skips_editor() {
    let template = &Config::default().templates.note;
    let content = named_note_content(template, "my-file", "2026-07-02", "14:32", "u");
    assert!(content.contains("# my-file"));
    assert!(content.contains("last_updated: 2026-07-02"));
    assert!(!content.contains("{{cursor}}"));
}

#[test]
fn named_note_renders_time() {
    let content = named_note_content("captured at {{time}}\n", "my-file", "2026-07-02", "14:32", "u");
    assert_eq!(content, "captured at 14:32\n");
}

#[test]
fn named_note_renders_uuid() {
    let content = named_note_content(
        "id: {{uuid}}\n",
        "my-file",
        "2026-07-02",
        "14:32",
        "f47ac10b-58cc-4372-a567-0e02b2c3d479",
    );
    assert_eq!(content, "id: f47ac10b-58cc-4372-a567-0e02b2c3d479\n");
}

#[test]
fn catalog_live_names_pairs_each_live_item_with_its_category() {
    let mut cat = empty_catalog();
    cat.live[0].push(scanned("0-Inbox", "meeting-notes", "meeting-notes.md"));
    cat.live[1].push(scanned("1-Projects", "apollo", "apollo"));
    cat.live[3].push(scanned("3-Resources", "meeting-notes", "meeting-notes.md"));
    cat.archived[1].push(scanned("4-Archive/Projects", "old", "old"));
    let named = catalog_live_names(&cat);
    assert_eq!(
        named,
        vec![
            (Category::Inbox, "meeting-notes".to_string()),
            (Category::Project, "apollo".to_string()),
            (Category::Resource, "meeting-notes".to_string()),
        ]
    );
}

#[test]
fn every_live_completion_name_locates_its_item() {
    let mut cat = empty_catalog();
    cat.live[0].push(scanned("0-Inbox", "meeting-notes", "meeting-notes.md"));
    cat.live[1].push(scanned("1-Projects", "apollo", "apollo"));
    cat.live[3].push(scanned("3-Resources", "meeting-notes", "meeting-notes.md"));
    let named = catalog_live_names(&cat);
    let names = live_item_names(&named);
    assert_eq!(names, vec!["inbox/meeting-notes", "apollo", "resources/meeting-notes"]);
    for (i, name) in names.iter().enumerate() {
        let found = locate(&cat, name).unwrap().unwrap();
        assert_eq!(found.category, named[i].0);
        assert_eq!(found.name, named[i].1);
    }
}

const UUID: &str = "f47ac10b-58cc-4372-a567-0e02b2c3d479";

fn contains_hh_mm_time(text: &str) -> bool {
    text.split_whitespace().any(|word| {
        word.len() == 5
            && word.as_bytes()[2] == b':'
            && word[..2].chars().all(|c| c.is_ascii_digit())
            && word[3..].chars().all(|c| c.is_ascii_digit())
    })
}

fn contains_uuid(text: &str) -> bool {
    text.split_whitespace()
        .any(|word| uuid::Uuid::parse_str(word).is_ok())
}

#[test]
fn seeds_editor_with_rendered_note_template() {
    let seed = editor_seed(&Config::default().templates, Kind::Inbox, "2026-07-03", "14:32", UUID);
    assert!(seed.contains("{{cursor}}"));
    assert!(!seed.contains("{{title}}"));
    assert!(!seed.contains("{{date}}"));
}

#[test]
fn editor_seed_uses_category_specific_template() {
    let seed = editor_seed(&Config::default().templates, Kind::Project, "2026-07-03", "14:32", UUID);
    assert!(seed.contains("Status: active"));
}

#[test]
fn editor_capture_renders_time() {
    let mut config = Config::default();
    config.templates.note = "captured at {{time}}\n".to_string();
    let seed = editor_seed(&config.templates, Kind::Inbox, "2026-07-03", "14:32", UUID);
    assert!(!seed.contains("{{time}}"));
    assert!(contains_hh_mm_time(&seed), "seed was: {seed}");
}

#[test]
fn editor_capture_renders_uuid() {
    let mut config = Config::default();
    config.templates.note = "id: {{uuid}}\n".to_string();
    let seed = editor_seed(&config.templates, Kind::Inbox, "2026-07-03", "14:32", UUID);
    assert!(!seed.contains("{{uuid}}"));
    assert!(contains_uuid(&seed), "seed was: {seed}");
}

#[test]
fn run_daily_filename_is_todays_date() {
    let today = "2026-07-08";
    let path = ishi::items::item_path(&workspace(), Category::Inbox, today);
    let stem = path.rsplit('/').next().unwrap().trim_end_matches(".md");
    assert_eq!(stem, today);
}

#[test]
fn archived_item_names_excludes_live_items() {
    let archived = Entry {
        origin: Some(Category::Resource),
        name: "my-file".to_string(),
        path: format!("{ROOT}/4-Archive/Resources/my-file.md"),
        title: None,
        modified_secs: NOW,
        last_reviewed: None,
    };
    let names = archived_item_names(&list(&vec![archived], None, NOW));
    assert_eq!(names, vec!["Resources/my-file"]);
}

#[test]
fn archiving_a_project_stamps_its_index_file() {
    let mut cat = empty_catalog();
    cat.live[1].push(scanned("1-Projects", "website-redesign", "website-redesign"));
    cat.live[3].push(scanned("3-Resources", "api-notes", "api-notes.md"));

    let plan = run_move(&workspace(), &cat, "website-redesign", Category::Archive).unwrap();
    assert!(plan.stamp_summary);
    assert_eq!(plan.note, "/para/1-Projects/website-redesign/index.md");
    assert_eq!(plan.dest, "/para/4-Archive/Projects/website-redesign");

    let plan = run_move(&workspace(), &cat, "api-notes", Category::Archive).unwrap();
    assert_eq!(plan.note, "/para/3-Resources/api-notes.md");
    assert_eq!(plan.dest, "/para/4-Archive/Resources/api-notes.md");
}

#[test]
fn display_path_of_a_category_folder_itself_ends_with_a_slash() {
    let ws = workspace();
    assert_eq!(display_path(&ws, "/para/0-Inbox"), "inbox/");
    assert_eq!(display_path(&ws, "/para/4-Archive"), "archive/");
    assert_eq!(display_path(&ws, "/para/4-Archive/Projects"), "archive/projects/");
}

#[test]
fn an_absolute_folder_name_replaces_the_root() {
    let mut config = Config::default();
    config.category_dirs[0] = "/x".to_string();
    let ws = Workspace { root: ROOT.to_string(), config };
    assert_eq!(ws.category_dir(Category::Inbox), "/x");
    assert_eq!(display_path(&ws, "/x/notes.md"), "inbox/notes.md");
}

fn status_item(name: &str, title: &str, updated: u64, reviewed: Option<u64>) -> StatusItem {
    StatusItem {
        name: name.to_string(),
        title: title.to_string(),
        updated_days_ago: updated,
        reviewed_days_ago: reviewed,
    }
}

#[test]
fn status_rows_line_up_the_reviewed_column() {
    let areas = vec![
        status_item("finances", "Finances", 4, Some(4)),
        status_item("health", "Health", 0, None),
    ];
    assert_eq!(
        render_status_items(&areas),
        vec![
            "`- finances   Finances   updated: 4 days ago   reviewed: 4 days ago",
            "`- health     Health     updated: today        reviewed: never",
        ]
    );
    let projects = vec![
        status_item("my-project", "My Project", 21, None),
        status_item("q3-initiative", "Q3 Initiative", 5, Some(10)),
        status_item("website-redesign", "Website Redesign", 2, Some(3)),
    ];
    assert_eq!(
        render_status_items(&projects),
        vec![
            "`- my-project         My Project         updated: 21 days ago   reviewed: never",
            "`- q3-initiative      Q3 Initiative      updated: 5 days ago    reviewed: 10 days ago",
            "`- website-redesign   Website Redesign   updated: 2 days ago    reviewed: 3 days ago",
        ]
    );
}

#[test]
fn display_path_compares_path_components() {
    let mut config = Config::default();
    config.category_dirs[1] = "1-Projects/".to_string();
    let ws = Workspace { root: ROOT.to_string(), config };
    assert_eq!(display_path(&ws, "/para/1-Projects/foo"), "projects/foo");
    assert_eq!(display_path(&ws, "/para//0-Inbox//notes.md"), "inbox/notes.md");
    assert_eq!(display_path(&ws, "/para/0-Inbox/./notes.md"), "inbox/notes.md");
    assert_eq!(display_path(&ws, "/para/0-Inboxes/x.md"), "/para/0-Inboxes/x.md");
    assert_eq!(display_path(&ws, "para/0-Inbox/x.md"), "para/0-Inbox/x.md");
}

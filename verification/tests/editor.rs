use ishi::editor::{cursor_start, first_nonblank_line, slugify, suggest_filename};

#[test]
fn cursor_marker_is_removed_and_its_line_reported() {
    let (text, line) = cursor_start("---\nlast_updated: 2026-07-03\n---\n# {{cursor}}\n");
    assert_eq!(text, "---\nlast_updated: 2026-07-03\n---\n# \n");
    assert_eq!(line, Some(4));
}

#[test]
fn cursor_on_the_first_line_is_line_one() {
    assert_eq!(cursor_start("{{cursor}}x"), ("x".to_string(), Some(1)));
}

#[test]
fn no_cursor_marker_means_no_line() {
    assert_eq!(cursor_start("plain\ntext\n"), ("plain\ntext\n".to_string(), None));
}

#[test]
fn every_cursor_marker_is_removed_but_the_first_sets_the_line() {
    let (text, line) = cursor_start("a\n{{cursor}}b\n{{cursor}}c");
    assert_eq!(text, "a\nb\nc");
    assert_eq!(line, Some(2));
}

#[test]
fn slug_lowercases_and_joins_words_with_hyphens() {
    assert_eq!(slugify("Website Improvement Ideas"), "website-improvement-ideas");
}

#[test]
fn slug_collapses_punctuation_runs_and_trims_the_ends() {
    assert_eq!(slugify("  Hello,   World!  "), "hello-world");
    assert_eq!(slugify("Q3 -- Plan (v2)"), "q3-plan-v2");
    assert_eq!(slugify("!!!"), "");
}

#[test]
fn suggestion_prefers_the_heading() {
    let s = suggest_filename(
        "seed",
        "# Website Improvement Ideas\nbody",
        Some("Website Improvement Ideas"),
        "# Website Improvement Ideas\nbody",
        "20260630-153045",
    );
    assert_eq!(s, "website-improvement-ideas");
}

#[test]
fn suggestion_falls_back_to_the_first_line() {
    let s = suggest_filename("seed", "Recipe ideas\n", None, "Recipe ideas\n", "20260630-153045");
    assert_eq!(s, "recipe-ideas");
}

#[test]
fn suggestion_falls_back_to_the_timestamp() {
    let ts = "20260630-153045";
    assert_eq!(suggest_filename("seed", "seed", Some("Title"), "seed", ts), ts);
    assert_eq!(suggest_filename("seed", "", None, "", ts), ts);
    assert_eq!(suggest_filename("seed", "???\n", None, "???\n", ts), ts);
}

#[test]
fn first_nonblank_line_skips_blank_lines() {
    assert_eq!(first_nonblank_line("\n  \n\tIdeas for dinner\nmore"), Some("\tIdeas for dinner".to_string()));
    assert_eq!(first_nonblank_line("one"), Some("one".to_string()));
    assert_eq!(first_nonblank_line(" \r\n\n"), None);
    assert_eq!(first_nonblank_line(""), None);
}

#[test]
fn suggestion_uses_the_body_after_the_frontmatter() {
    let content = "---\nlast_updated: 2026-07-03\n---\n\nWeekly groceries\n";
    let body = "\nWeekly groceries\n";
    assert_eq!(suggest_filename("seed", content, None, body, "t"), "weekly-groceries");
}

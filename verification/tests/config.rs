use ishi::category::{Category, Kind};
use ishi::config::{
    config_init_content, origin_key, render, render_full, render_config_toml, Config, ConfigLayer, Origin,
    Templates,
};

#[test]
fn render_fills_date_and_title_but_leaves_cursor_marker() {
    let template = "---\nlast_updated: {{date}}\n---\n# {{cursor}}{{title}}\n";

    let rendered = render(template, "", "2026-07-03");

    assert_eq!(
        rendered,
        "---\nlast_updated: 2026-07-03\n---\n# {{cursor}}\n"
    );
}

#[test]
fn for_category_maps_to_matching_template() {
    let templates = Templates::default();

    assert_eq!(templates.for_category(Category::Inbox), templates.note);
    assert_eq!(templates.for_category(Category::Project), templates.project);
    assert_eq!(templates.for_category(Category::Area), templates.area);
    assert_eq!(
        templates.for_category(Category::Resource),
        templates.resource
    );
}

#[test]
fn for_kind_uses_the_daily_template_for_daily_notes() {
    let templates = Templates::default();

    assert_eq!(templates.for_kind(Kind::Daily), templates.daily);
    assert_eq!(templates.for_kind(Kind::Inbox), templates.note);
    assert!(templates.daily.contains("## Tasks"));
}

#[test]
fn render_replaces_every_occurrence() {
    assert_eq!(
        render("{{date}} and {{date}}: {{title}}", "T", "D"),
        "D and D: T"
    );
}

#[test]
fn render_full_fills_time_and_uuid_too() {
    let out = render_full(
        "{{date}} {{time}} {{uuid}} {{title}}{{cursor}}",
        "x",
        "2026-07-02",
        "14:32",
        "f47ac10b-58cc-4372-a567-0e02b2c3d479",
    );
    assert_eq!(
        out,
        "2026-07-02 14:32 f47ac10b-58cc-4372-a567-0e02b2c3d479 x{{cursor}}"
    );
}

#[test]
fn default_config_has_numbered_folders_and_md_extension() {
    let c = Config::default();
    assert_eq!(
        c.category_dirs,
        ["0-Inbox", "1-Projects", "2-Areas", "3-Resources", "4-Archive"].map(String::from)
    );
    assert_eq!(c.default_extension, "md");
}

fn empty_layer() -> ConfigLayer {
    ConfigLayer {
        folders: [None, None, None, None, None],
        extension: None,
        templates: [None, None, None, None, None],
    }
}

#[test]
fn resolve_without_files_is_the_default() {
    let (c, o) = Config::resolve(&None, &None);
    assert_eq!(c, Config::default());
    assert!(o.folders.iter().all(|x| *x == Origin::Default));
    assert_eq!(o.extension, Origin::Default);
    assert!(o.templates.iter().all(|x| *x == Origin::Default));
}

#[test]
fn local_folder_override_is_marked_local() {
    let mut local = empty_layer();
    local.folders[0] = Some("Inbox".to_string());

    let (c, o) = Config::resolve(&None, &Some(local));

    assert_eq!(c.category_dirs[0], "Inbox");
    assert_eq!(c.category_dirs[1], "1-Projects");
    assert_eq!(o.folders[0], Origin::Local);
    assert_eq!(o.folders[1], Origin::Default);
}

#[test]
fn local_overrides_user_for_the_same_key() {
    let mut user = empty_layer();
    user.templates[1] = Some("user daily".to_string());
    let mut local = empty_layer();
    local.templates[1] = Some("local daily".to_string());

    let (c, o) = Config::resolve(&Some(user), &Some(local));

    assert_eq!(c.templates.daily, "local daily");
    assert_eq!(o.templates[1], Origin::LocalOverridesUser);
}

#[test]
fn user_only_override_is_marked_user() {
    let mut user = empty_layer();
    user.templates[0] = Some("user note".to_string());
    user.extension = Some("txt".to_string());

    let (c, o) = Config::resolve(&Some(user), &None);

    assert_eq!(c.templates.note, "user note");
    assert_eq!(o.templates[0], Origin::User);
    assert_eq!(c.default_extension, "txt");
    assert_eq!(o.extension, Origin::User);
}

#[test]
fn user_and_local_with_disjoint_keys_both_apply() {
    let mut user = empty_layer();
    user.templates[1] = Some("user daily".to_string());
    let mut local = empty_layer();
    local.folders[0] = Some("Inbox".to_string());

    let (c, _) = Config::resolve(&Some(user), &Some(local));

    assert_eq!(c.templates.daily, "user daily");
    assert_eq!(c.category_dirs[0], "Inbox");
}

fn expected_plain_toml(c: &Config) -> String {
    let t = &c.templates;
    format!(
        "[folders]\ninbox = \"{}\"\nprojects = \"{}\"\nareas = \"{}\"\nresources = \"{}\"\narchive = \"{}\"\n\n[defaults]\nextension = \"{}\"\n\n[templates]\nnote = \"\"\"\n{}\"\"\"\n\ndaily = \"\"\"\n{}\"\"\"\n\nproject = \"\"\"\n{}\"\"\"\n\narea = \"\"\"\n{}\"\"\"\n\nresource = \"\"\"\n{}\"\"\"\n",
        c.category_dirs[0],
        c.category_dirs[1],
        c.category_dirs[2],
        c.category_dirs[3],
        c.category_dirs[4],
        c.default_extension,
        t.note,
        t.daily,
        t.project,
        t.area,
        t.resource
    )
}

#[test]
fn plain_toml_of_the_defaults_lists_every_key() {
    let c = Config::default();
    let out = render_config_toml(&c, None);
    assert_eq!(out, expected_plain_toml(&c));
    assert!(out.starts_with("[folders]\ninbox = \"0-Inbox\"\nprojects = \"1-Projects\"\n"));
    assert!(out.contains("\n[defaults]\nextension = \"md\"\n"));
}

#[test]
fn annotated_toml_marks_where_each_setting_came_from() {
    let mut user = empty_layer();
    user.templates[1] = Some("user daily\n".to_string());
    user.folders[4] = Some("Old".to_string());
    let mut local = empty_layer();
    local.folders[4] = Some("4-Archive".to_string());

    let (c, o) = Config::resolve(&Some(user), &Some(local));
    let out = render_config_toml(&c, Some(&o));

    assert!(out.starts_with("[folders]\ninbox = \"0-Inbox\" # default\n"));
    assert!(out.contains("archive = \"4-Archive\" # local, overrides user\n"));
    assert!(out.contains("extension = \"md\" # default\n"));
    assert!(out.contains("\n# user\ndaily = \"\"\"\nuser daily\n\"\"\"\n"));
    assert!(out.contains("[templates]\n# default\nnote = \"\"\"\n"));
}

#[test]
fn toml_values_escape_quotes_and_backslashes() {
    let mut local = empty_layer();
    local.folders[0] = Some("a\"b\\c".to_string());
    let (c, _) = Config::resolve(&None, &Some(local));
    let out = render_config_toml(&c, None);
    assert!(out.contains("inbox = \"a\\\"b\\\\c\"\n"));
}

#[test]
fn config_init_content_starts_with_schema_directive() {
    let out = config_init_content();
    assert!(out.starts_with("#:schema ./.ishi.schema.json\n\n[folders]\n"));
    assert_eq!(
        out,
        format!("#:schema ./.ishi.schema.json\n\n{}", expected_plain_toml(&Config::default()))
    );
}

#[test]
fn json_provenance_collapses_local_overrides_into_local() {
    assert_eq!(origin_key(Origin::Default), "default");
    assert_eq!(origin_key(Origin::User), "user");
    assert_eq!(origin_key(Origin::Local), "local");
    assert_eq!(origin_key(Origin::LocalOverridesUser), "local");
}

#[test]
fn missing_file_returns_default() {
    let (config, _) = Config::resolve(&None, &None);
    assert_eq!(config, Config::default());
}

use ishi::category::Category;
use ishi::config::Config;
use ishi::workspace::{discover, is_root, join, FolderFacts, Workspace};

fn facts(has_config: bool, dirs: [bool; 5]) -> FolderFacts {
    FolderFacts { has_config, dirs }
}

#[test]
fn category_dir_joins_root_and_configured_folder() {
    let ws = Workspace { root: "/para".to_string(), config: Config::default() };
    assert_eq!(ws.category_dir(Category::Project), "/para/1-Projects");
    assert_eq!(ws.category_dir(Category::Archive), "/para/4-Archive");
    assert_eq!(join("/para", "x.md"), "/para/x.md");
}

#[test]
fn a_config_file_or_all_five_folders_mark_a_root() {
    assert!(is_root(&facts(true, [false; 5])));
    assert!(is_root(&facts(false, [true; 5])));
    assert!(!is_root(&facts(false, [true, true, true, true, false])));
}

#[test]
fn discovery_takes_the_nearest_root_walking_up() {
    let chain = vec![
        facts(false, [false; 5]),
        facts(false, [true; 5]),
        facts(true, [false; 5]),
    ];
    assert_eq!(discover(&chain), Some(1));
    assert_eq!(discover(&vec![facts(false, [false; 5])]), None);
    assert_eq!(discover(&vec![]), None);
}

#[test]
fn join_follows_path_buf_join() {
    assert_eq!(join("/", "0-Inbox"), "/0-Inbox");
    assert_eq!(join("/para", "/x"), "/x");
    assert_eq!(join("/para/", "x"), "/para/x");
    assert_eq!(join("", "x"), "x");
    assert_eq!(join("/para", ""), "/para/");
    let ws = Workspace { root: "/".to_string(), config: Config::default() };
    assert_eq!(ws.category_dir(Category::Inbox), "/0-Inbox");
}

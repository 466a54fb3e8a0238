use codix::project::{db_path, display_path, find_project_root, relative_to_root, RootSearch};
use codix::config::config_path;

#[test]
fn test_relative_to_root() {
    let root = "/project";
    let file = "/project/src/Foo.java";
    assert_eq!(relative_to_root(root, file), "src/Foo.java");
}

#[test]
fn paths_outside_the_root_stay_as_given() {
    assert_eq!(relative_to_root("/project", "/elsewhere/Foo.java"), "/elsewhere/Foo.java");
}

#[test]
fn index_and_config_paths() {
    assert_eq!(db_path("/project"), "/project/.codix/index.db");
    assert_eq!(config_path("/project"), "/project/.codix/config");
}

#[test]
fn display_paths_are_relative_to_the_working_directory() {
    assert_eq!(display_path("/project", "/project/src", "src/Foo.java"), "Foo.java");
    assert_eq!(display_path("/project", "/project", "src/Foo.java"), "src/Foo.java");
    assert_eq!(display_path("/project", "/other", "a.rs"), "../project/a.rs");
}

#[test]
fn root_search_walks_up() {
    match find_project_root("/project/src", false) {
        RootSearch::Next(p) => assert_eq!(p, "/project"),
        _ => panic!("expected the parent"),
    }
    match find_project_root("/project", true) {
        RootSearch::Found(p) => assert_eq!(p, "/project"),
        _ => panic!("expected the root"),
    }
    assert!(matches!(find_project_root("/", false), RootSearch::NotFound));
}

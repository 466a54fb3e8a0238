use codix::indexer::{FileOutcome,
    add_count, compute_sha256, content_unchanged, deleted_files, file_action, in_index_dir, plugin_for_path,
    FileAction, ReindexStats,
};
use codix::model::FileRecord;
use codix::plugin::{LanguageId, PluginRegistry};

fn record(path: &str, mtime: i64, hash: Option<&str>) -> FileRecord {
    FileRecord { id: 1, path: path.to_string(), mtime, hash: hash.map(|h| h.to_string()), language: "java".to_string() }
}

#[test]
fn sha256_of_known_inputs() {
    assert_eq!(compute_sha256(b""), "e3b0c44298fc1c149afbf4c8996fb92427ae41e4649b934ca495991b7852b855");
    assert_eq!(compute_sha256(b"abc"), "ba7816bf8f01cfea414140de5dae2223b00361a396177a9cb410ff61f20015ad");
}

#[test]
fn files_are_handled_by_extension() {
    let plugins = PluginRegistry::new().all_plugins();
    assert_eq!(plugin_for_path(&plugins, "src/Main.java"), Some(LanguageId::Java));
    assert_eq!(plugin_for_path(&plugins, "web/app.tsx"), Some(LanguageId::Js));
    assert_eq!(plugin_for_path(&plugins, "lib.rs"), Some(LanguageId::Rust));
    assert_eq!(plugin_for_path(&plugins, "main.go"), Some(LanguageId::Go));
    assert_eq!(plugin_for_path(&plugins, "x.pyi"), Some(LanguageId::Python));
    assert_eq!(plugin_for_path(&plugins, "README.md"), None);
    assert_eq!(plugin_for_path(&plugins, ".java"), None);
}

#[test]
fn the_index_directory_is_skipped() {
    assert!(in_index_dir("/p", "/p/.codix/index.db"));
    assert!(!in_index_dir("/p", "/p/src/.codixx"));
}

#[test]
fn actions_for_files_on_disk() {
    assert_eq!(file_action(&None, 5), FileAction::Add);
    assert_eq!(file_action(&Some(record("a", 4, None)), 5), FileAction::CheckHash);
    assert_eq!(file_action(&Some(record("a", 5, None)), 5), FileAction::Keep);
    assert!(content_unchanged(&Some("ab".to_string()), "ab"));
    assert!(!content_unchanged(&Some("ab".to_string()), "cd"));
    assert!(!content_unchanged(&None, "cd"));
}

#[test]
fn deleted_files_are_those_not_on_disk() {
    let indexed = vec![record("a", 1, None), record("b", 1, None), record("c", 1, None)];
    let disk = vec!["c".to_string(), "a".to_string()];
    assert_eq!(deleted_files(&indexed, &disk), vec![1]);
}

#[test]
fn stats_report_changes() {
    let mut s = ReindexStats::new();
    assert!(!s.changed());
    s.deleted.push("x".to_string());
    assert!(s.changed());
}

#[test]
fn counts_stay_in_order_of_name() {
    let mut counts: Vec<(String, u64)> = Vec::new();
    for name in ["Rust", "Go", "Java", "Go", "Rust", "Go"] {
        add_count(&mut counts, name);
    }
    assert_eq!(
        counts,
        vec![("Go".to_string(), 3), ("Java".to_string(), 1), ("Rust".to_string(), 2)]
    );
}

#[test]
fn reindex_outcomes_are_recorded() {
    let mut s = ReindexStats::new();
    s.record("a".to_string(), FileOutcome::Added);
    s.record("b".to_string(), FileOutcome::Modified);
    s.record("c".to_string(), FileOutcome::Deleted);
    s.record("d".to_string(), FileOutcome::Unchanged);
    assert_eq!(s.added, vec!["a".to_string()]);
    assert_eq!(s.modified, vec!["b".to_string()]);
    assert_eq!(s.deleted, vec!["c".to_string()]);
    assert_eq!(s.unchanged, 1);
    assert!(s.changed());
}

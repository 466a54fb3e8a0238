use codix::config::{configured_languages, read_all, read_value, remove_value, write_value};

#[test]
fn test_read_nonexistent() {
    assert_eq!(read_value("", "index", "languages"), None);
}

#[test]
fn test_write_creates_file() {
    let content = write_value(None, "index", "languages", "java");
    assert_eq!(content, "[index]\nlanguages = java\n");
}

#[test]
fn test_read_after_write() {
    let content = write_value(None, "index", "languages", "java,go");
    assert_eq!(read_value(&content, "index", "languages"), Some("java,go".to_string()));
}

#[test]
fn test_overwrite_in_place() {
    let first = write_value(None, "index", "languages", "java");
    let content = write_value(Some(&first), "index", "languages", "java,go");
    assert_eq!(content, "[index]\nlanguages = java,go\n");
}

#[test]
fn test_preserves_other_keys() {
    let content = write_value(Some("[index]\nlanguages = java\nother = value\n"), "index", "languages", "go");
    assert!(content.contains("languages = go"));
    assert!(content.contains("other = value"));
}

#[test]
fn test_preserves_other_sections() {
    let content = write_value(Some("[other]\nfoo = bar\n"), "index", "languages", "java");
    assert!(content.contains("[other]\nfoo = bar"));
    assert!(content.contains("[index]\nlanguages = java"));
}

#[test]
fn test_add_key_to_existing_section() {
    let content = write_value(Some("[index]\nother = value\n"), "index", "languages", "java");
    assert!(content.contains("other = value"));
    assert!(content.contains("languages = java"));
}

#[test]
fn test_configured_languages() {
    assert_eq!(configured_languages(None), None);
    let content = write_value(None, "index", "languages", "java,go");
    assert_eq!(configured_languages(Some(&content)), Some(vec!["java".to_string(), "go".to_string()]));
}

#[test]
fn key_inserted_before_the_next_section() {
    let content = write_value(Some("[index]\nother = 1\n[x]\ny = 2\n"), "index", "languages", "rust");
    assert_eq!(content, "[index]\nother = 1\nlanguages = rust\n[x]\ny = 2\n");
}

#[test]
fn read_after_write_over_crlf_text() {
    let content = write_value(Some("[index]\r\nlanguages = java\r\n"), "index", "languages", "go");
    assert_eq!(read_value(&content, "index", "languages"), Some("go".to_string()));
}

#[test]
fn read_after_remove_finds_nothing() {
    let content = remove_value("[index]\nlanguages = java\nother = 1\n", "index", "languages");
    assert_eq!(content, "[index]\nother = 1\n");
    assert_eq!(read_value(&content, "index", "languages"), None);
}

#[test]
fn read_ignores_comments_and_other_sections() {
    let content = "# languages = x\n[other]\nlanguages = y\n[index]\n  languages =  java , go  \n";
    assert_eq!(read_value(content, "index", "languages"), Some("java , go".to_string()));
    assert_eq!(configured_languages(Some(content)), Some(vec!["java".to_string(), "go".to_string()]));
}

#[test]
fn read_all_lists_section_keys() {
    let all = read_all("[index]\nlanguages = java\n[ui]\ncolor = on\n");
    assert_eq!(
        all,
        vec![("index.languages".to_string(), "java".to_string()), ("ui.color".to_string(), "on".to_string())]
    );
}

#[test]
fn empty_language_list_is_none() {
    assert_eq!(configured_languages(Some("[index]\nlanguages = , ,\n")), None);
}

#[test]
fn write_keeps_other_entries_readable() {
    let before = "[index]\nlanguages = java\nother = value\n[extra]\nlanguages = go\n";
    let after = write_value(Some(before), "index", "languages", "rust");
    assert_eq!(read_value(&after, "index", "other"), Some("value".to_string()));
    assert_eq!(read_value(&after, "extra", "languages"), Some("go".to_string()));
    assert_eq!(read_value(&after, "index", "missing"), None);
}

#[test]
fn remove_keeps_other_entries_readable() {
    let before = "[index]\nlanguages = java\nother = value\n[extra]\nlanguages = go\n";
    let after = remove_value(before, "index", "languages");
    assert_eq!(read_value(&after, "index", "other"), Some("value".to_string()));
    assert_eq!(read_value(&after, "extra", "languages"), Some("go".to_string()));
}

#[test]
fn config_keys_split_at_the_first_dot() {
    assert_eq!(
        codix::config::split_config_key("index.languages"),
        Some(("index".to_string(), "languages".to_string()))
    );
    assert_eq!(codix::config::split_config_key("a.b.c"), Some(("a".to_string(), "b.c".to_string())));
    assert_eq!(codix::config::split_config_key("plain"), None);
}

use codix::model::{RenameOccurrence, SymbolKind};
use codix::plugin::java::JavaPlugin;
use codix::plugin::LanguageId;
use codix::rename::apply_replacements;
use codix::syntax::parse_source;

const SOURCE: &str = "package com.foo;\nimport com.foo.Repo;\npublic class UserService {\n    private Repo repo;\n    public UserService() {}\n    public void save(Person p) { repo.save(p); this.repo = null; }\n    void run() { save(null); UserService s = new UserService(); }\n}\n";

fn occurrences(name: &str, kind: &str) -> Vec<RenameOccurrence> {
    let root = parse_source(LanguageId::Java, SOURCE.as_bytes());
    JavaPlugin
        .find_rename_occurrences(&root, SOURCE.as_bytes(), name, &SymbolKind::new(kind), "")
        .unwrap()
}

fn lines(occs: &[RenameOccurrence]) -> Vec<(i64, i64)> {
    occs.iter().map(|o| (o.line, o.column)).collect()
}

#[test]
fn method_rename_finds_declaration_and_calls() {
    let occs = occurrences("save", "method");
    assert_eq!(lines(&occs), vec![(6, 16), (6, 38), (7, 17)]);
    assert!(occs.iter().all(|o| o.old_text == "save"));
    assert!(occs.iter().all(|o| &SOURCE[o.byte_offset..o.byte_offset + 4] == "save"));
}

#[test]
fn class_rename_finds_declaration_constructor_and_type_uses() {
    let occs = occurrences("UserService", "class");
    assert_eq!(lines(&occs), vec![(3, 13), (5, 11), (7, 29), (7, 49)]);
}

#[test]
fn type_rename_finds_the_import_and_field_type() {
    let occs = occurrences("Repo", "class");
    assert_eq!(lines(&occs), vec![(2, 15), (4, 12)]);
}

#[test]
fn field_rename_finds_declaration_and_field_access() {
    let occs = occurrences("repo", "field");
    assert_eq!(lines(&occs), vec![(4, 17), (6, 52)]);
}

#[test]
fn renamed_source_is_rewritten_from_the_end() {
    let occs = occurrences("save", "method");
    let out = apply_replacements(&SOURCE.as_bytes().to_vec(), &occs, "store").unwrap();
    let text = String::from_utf8(out).unwrap();
    assert!(text.contains("public void store(Person p) { repo.store(p);"));
    assert!(text.contains("void run() { store(null);"));
}

#[test]
fn other_languages_refuse_rename() {
    let root = parse_source(LanguageId::Go, b"package main\n");
    match LanguageId::Go.find_rename_occurrences(&root, b"package main\n", "x", &SymbolKind::new("function"), "x") {
        Err(codix::model::RenameError::NotSupported { language }) => assert_eq!(language, "Go"),
        Ok(_) => panic!("expected refusal"),
    }
    assert!(LanguageId::Java.supports(codix::model::PluginCapability::Rename));
    assert!(!LanguageId::Go.supports(codix::model::PluginCapability::Rename));
    assert!(JavaPlugin.supports_rename());
}

#[test]
fn every_bundled_grammar_parses() {
    for lang in [LanguageId::Go, LanguageId::Java, LanguageId::Js, LanguageId::Python, LanguageId::Rust] {
        let root = parse_source(lang, b"");
        assert!(root.field_name.is_none());
        assert!(root.start_byte <= root.end_byte);
    }
}

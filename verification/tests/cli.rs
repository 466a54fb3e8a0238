use codix::cli::{ambiguity_entry, ambiguity_message, flags_text, no_match_message, parse_kind, shell_escape, symbol_line, Format, Relation};
use codix::model::{Symbol, SymbolKind, Visibility};

fn sym(line: i64, sig: Option<&str>) -> Symbol {
    Symbol {
        id: 1,
        name: "save".to_string(),
        signature: sig.map(|s| s.to_string()),
        qualified_name: "com.foo.Svc.save(Person)".to_string(),
        kind: SymbolKind::new("method"),
        visibility: Visibility::new("public"),
        file_id: 1,
        file_path: "src/Svc.java".to_string(),
        line,
        column: 2,
        end_line: line,
        end_column: 20,
        parent_symbol_id: Some(3),
        package: "com.foo".to_string(),
    }
}

#[test]
fn kinds_are_checked() {
    assert!(matches!(parse_kind(None), Ok(None)));
    assert_eq!(parse_kind(Some("method".to_string())).unwrap(), Some(SymbolKind::new("method")));
    assert_eq!(parse_kind(Some("type-alias".to_string())).unwrap(), Some(SymbolKind::new("type-alias")));
    let err = parse_kind(Some("module".to_string())).unwrap_err();
    assert!(err.starts_with("Unknown symbol kind: 'module'. Valid kinds: class"));
}

#[test]
fn symbol_lines() {
    assert_eq!(symbol_line("src/Svc.java", &sym(6, Some("save(Person)"))), "src/Svc.java:6  public method save(Person)");
    assert_eq!(symbol_line("Svc.java", &sym(-3, None)), "Svc.java:-3  public method save");
}

#[test]
fn shell_quotes_are_escaped() {
    assert_eq!(shell_escape("it's"), "it'\\''s");
    assert_eq!(flags_text(true, &Some("a'b".to_string()), Format::Json), " -i -k 'a'\\''b' -f json");
    assert_eq!(flags_text(false, &None, Format::Text), "");
}

#[test]
fn ambiguous_matches_are_listed() {
    let e = ambiguity_entry("Svc.java", &sym(6, Some("save(Person)")), Relation::Callers.name(), " -i");
    assert_eq!(e, "  Svc.java:6  public method save(Person)\n  → codix callers 'com.foo.Svc.save(Person)' -i\n");
    let msg = ambiguity_message("save", &vec![e.clone(), e]);
    assert!(msg.starts_with("Multiple symbols match 'save'. Be more specific:\n  Svc.java:6"));
    assert!(msg.ends_with("' -i"));
    assert_eq!(no_match_message("Foo"), "No symbol found matching 'Foo'");
}

#[test]
fn unknown_kind_message_lists_the_documented_kinds() {
    let err = codix::cli::parse_kind(Some("module".to_string())).unwrap_err();
    assert_eq!(
        err,
        "Unknown symbol kind: 'module'. Valid kinds: class, interface, enum, record, annotation, method, field, constructor"
    );
}

#[test]
fn a_pattern_selects_exactly_one_match() {
    let entries = vec!["  a\n".to_string(), "  b\n".to_string()];
    assert_eq!(codix::cli::select_match(1, "Foo", &entries), Ok(()));
    assert_eq!(codix::cli::select_match(0, "Foo", &vec![]), Err("No symbol found matching 'Foo'".to_string()));
    assert_eq!(
        codix::cli::select_match(2, "Foo", &entries),
        Err("Multiple symbols match 'Foo'. Be more specific:\n  a\n  b".to_string())
    );
}

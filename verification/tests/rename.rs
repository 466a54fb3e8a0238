use codix::model::{RenameOccurrence, Symbol, SymbolKind, Visibility};
use codix::plugin::{LanguageId, PluginRegistry};
use codix::rename::{
    affected_paths, apply_replacements, build_new_qualified_name, build_new_signature, cascades_to_children,
    check_name_conflict, check_rename_request, conflict_message, conflict_query, override_query,
    overridden_candidates, overrides_in_supertypes, related_symbols_for, sort_changes, sort_occurrences, FileOccurrences,
    RelatedSymbols, RenameRefusal, RenameResult, assemble_rename_result, occurrence_line,
    rename_file_step, rename_summary, skipped_file_warning, hierarchy_step, plan_store_update,
};

#[test]
fn test_build_new_qualified_name_method() {
    assert_eq!(
        build_new_qualified_name("com.foo.Foo.save(Person)", "save", "findById"),
        "com.foo.Foo.findById(Person)"
    );
}

#[test]
fn test_build_new_qualified_name_class() {
    assert_eq!(
        build_new_qualified_name("com.foo.UserService", "UserService", "AccountService"),
        "com.foo.AccountService"
    );
}

#[test]
fn test_build_new_signature() {
    assert_eq!(build_new_signature("save(Person)", "save", "findById"), "findById(Person)");
}

#[test]
fn test_build_new_signature_no_params() {
    assert_eq!(build_new_signature("getAll()", "getAll", "findAll"), "findAll()");
}

#[test]
fn qualified_name_replaces_the_last_occurrence() {
    assert_eq!(build_new_qualified_name("a.save.Foo.save()", "save", "store"), "a.save.Foo.store()");
}

#[test]
fn signature_replaces_the_first_occurrence() {
    assert_eq!(build_new_signature("save(save)", "save", "put"), "put(save)");
}

#[test]
fn names_without_the_old_name_stay() {
    assert_eq!(build_new_qualified_name("com.foo.Bar", "Baz", "Qux"), "com.foo.Bar");
    assert_eq!(build_new_signature("run()", "walk", "jog"), "run()");
}

fn occ(offset: usize, text: &str) -> RenameOccurrence {
    RenameOccurrence { line: 1, column: offset as i64, byte_offset: offset, old_text: text.to_string() }
}

#[test]
fn replacements_apply_from_the_end() {
    let source = b"save(); x.save();".to_vec();
    let occs = vec![occ(0, "save"), occ(10, "save")];
    let out = apply_replacements(&source, &occs, "store").unwrap();
    assert_eq!(String::from_utf8(out).unwrap(), "store(); x.store();");
}

#[test]
fn replacement_out_of_range_is_refused() {
    let source = b"abc".to_vec();
    let occs = vec![occ(2, "cd")];
    assert!(apply_replacements(&source, &occs, "x").is_none());
}

#[test]
fn totals_of_a_rename_result() {
    let r = RenameResult {
        changes: vec![
            FileOccurrences { file_path: "A.java".to_string(), occurrences: vec![occ(0, "a"), occ(4, "a")] },
            FileOccurrences { file_path: "B.java".to_string(), occurrences: vec![occ(1, "a")] },
        ],
        warnings: vec![],
    };
    assert_eq!(r.total_occurrences(), 3);
    assert_eq!(r.total_files(), 2);
}

#[test]
fn type_kinds_cascade_to_members() {
    assert!(cascades_to_children(&SymbolKind::new("class")));
    assert!(cascades_to_children(&SymbolKind::new("annotation")));
    assert!(!cascades_to_children(&SymbolKind::new("method")));
}

#[test]
fn related_symbols_by_kind() {
    assert_eq!(related_symbols_for(&SymbolKind::new("interface")), RelatedSymbols::References);
    assert_eq!(related_symbols_for(&SymbolKind::new("field")), RelatedSymbols::References);
    assert_eq!(related_symbols_for(&SymbolKind::new("constructor")), RelatedSymbols::CallersAndOverrides);
    assert_eq!(related_symbols_for(&SymbolKind::new("struct")), RelatedSymbols::Nothing);
}

#[test]
fn rename_requests_are_checked() {
    let registry = PluginRegistry::new();
    assert!(matches!(check_rename_request(&registry, "save", "java", "save"), Err(RenameRefusal::SameName { .. })));
    match check_rename_request(&registry, "save", "cobol", "store") {
        Err(RenameRefusal::NoPlugin { language }) => assert_eq!(language, "cobol"),
        _ => panic!("expected no plugin"),
    }
    match check_rename_request(&registry, "save", "go", "store") {
        Err(RenameRefusal::NotSupported { message }) => {
            assert_eq!(message, "Rename is not supported for Go files. Supported: Java")
        }
        _ => panic!("expected refusal"),
    }
    assert!(matches!(check_rename_request(&registry, "save", "java", "store"), Ok(LanguageId::Java)));
}

fn at(line: i64, column: i64, offset: usize) -> RenameOccurrence {
    RenameOccurrence { line, column, byte_offset: offset, old_text: "x".to_string() }
}

#[test]
fn occurrences_are_ordered_by_line_then_column() {
    let sorted = sort_occurrences(vec![at(3, 1, 30), at(1, 9, 9), at(1, 2, 2), at(2, 5, 20)]);
    let positions: Vec<(i64, i64)> = sorted.iter().map(|o| (o.line, o.column)).collect();
    assert_eq!(positions, vec![(1, 2), (1, 9), (2, 5), (3, 1)]);
}

#[test]
fn equal_positions_keep_their_order() {
    let sorted = sort_occurrences(vec![at(1, 1, 7), at(1, 1, 3)]);
    let offsets: Vec<usize> = sorted.iter().map(|o| o.byte_offset).collect();
    assert_eq!(offsets, vec![7, 3]);
}

#[test]
fn changes_are_ordered_by_path() {
    let changes = vec![
        FileOccurrences { file_path: "src/b.rs".to_string(), occurrences: vec![at(4, 1, 40), at(2, 1, 20)] },
        FileOccurrences { file_path: "src/a.rs".to_string(), occurrences: vec![at(1, 1, 0)] },
        FileOccurrences { file_path: "lib/z.rs".to_string(), occurrences: vec![] },
    ];
    let sorted = sort_changes(changes);
    let paths: Vec<&str> = sorted.iter().map(|f| f.file_path.as_str()).collect();
    assert_eq!(paths, vec!["lib/z.rs", "src/a.rs", "src/b.rs"]);
    let lines: Vec<i64> = sorted[2].occurrences.iter().map(|o| o.line).collect();
    assert_eq!(lines, vec![2, 4]);
}

fn method(id: i64, parent: Option<i64>) -> Symbol {
    Symbol {
        id,
        name: "save".to_string(),
        signature: Some("save()".to_string()),
        qualified_name: format!("com.foo.T{}.save()", id),
        kind: SymbolKind::new("method"),
        visibility: Visibility::new("public"),
        file_id: 1,
        file_path: "A.java".to_string(),
        line: 1,
        column: 0,
        end_line: 1,
        end_column: 1,
        parent_symbol_id: parent,
        package: "com.foo".to_string(),
    }
}

#[test]
fn overridden_methods_are_those_of_the_supertype() {
    let candidates = vec![method(1, Some(10)), method(2, None), method(3, Some(20)), method(4, Some(10))];
    let kept = overridden_candidates(candidates, 10);
    let ids: Vec<i64> = kept.iter().map(|s| s.id).collect();
    assert_eq!(ids, vec![1, 4]);
}

#[test]
fn affected_paths_start_with_the_symbol_file_and_hold_each_once() {
    let related = vec!["B.java".to_string(), "A.java".to_string(), "C.java".to_string(), "B.java".to_string()];
    let paths = affected_paths("A.java", &related);
    assert_eq!(paths, vec!["A.java".to_string(), "B.java".to_string(), "C.java".to_string()]);
}

#[test]
fn refusals_have_messages() {
    let registry = PluginRegistry::new();
    match check_rename_request(&registry, "save", "java", "save") {
        Err(e) => assert_eq!(e.message(), "Symbol is already named 'save'. Nothing to rename."),
        Ok(_) => panic!("expected refusal"),
    }
    match check_rename_request(&registry, "save", "cobol", "store") {
        Err(e) => assert_eq!(e.message(), "No plugin found for language 'cobol'"),
        Ok(_) => panic!("expected refusal"),
    }
    match check_rename_request(&registry, "save", "python", "store") {
        Err(e) => assert_eq!(e.message(), "Rename is not supported for Python files. Supported: Java"),
        Ok(_) => panic!("expected refusal"),
    }
}

#[test]
fn conflict_query_looks_for_the_new_qualified_name() {
    let s = method(1, Some(10));
    let q = conflict_query(&s, "store");
    assert_eq!(q.pattern, "com.foo.T1.store()");
    assert!(!q.case_insensitive);
    assert_eq!(q.kind, Some(SymbolKind::new("method")));
}

#[test]
fn conflicts_are_refused_with_the_first_one() {
    assert_eq!(check_name_conflict(&vec![]), Ok(()));
    let c = method(7, Some(10));
    assert_eq!(conflict_message(&c), "A method 'save()' already exists in com.foo.T7 at A.java:1");
    assert_eq!(
        check_name_conflict(&vec![method(7, Some(10)), method(8, None)]),
        Err("A method 'save()' already exists in com.foo.T7 at A.java:1".to_string())
    );
}

#[test]
fn override_walk_goes_supertype_by_supertype() {
    let s = method(1, Some(10));
    let q = override_query(&s);
    assert_eq!(q.pattern, "save");
    assert_eq!(q.kind, Some(SymbolKind::new("method")));
    let candidates = vec![method(2, Some(30)), method(3, Some(20)), method(4, None), method(5, Some(30))];
    assert_eq!(overrides_in_supertypes(&vec![30, 20, 40], &candidates), vec![0, 3, 1]);
}

#[test]
fn conflict_message_names_the_enclosing_type() {
    let mut c = method(30, Some(3));
    c.signature = Some("findById(Person)".to_string());
    c.qualified_name = "com.foo.UserService.findById(com.foo.Person)".to_string();
    c.file_path = "src/UserService.java".to_string();
    c.line = 30;
    assert_eq!(
        conflict_message(&c),
        "A method 'findById(Person)' already exists in com.foo.UserService at src/UserService.java:30"
    );
    let mut t = method(31, None);
    t.kind = SymbolKind::new("class");
    t.signature = None;
    t.name = "AccountService".to_string();
    t.qualified_name = "com.foo.AccountService".to_string();
    assert_eq!(conflict_message(&t), "A class 'AccountService' already exists in com.foo at A.java:1");
    t.qualified_name = "Main".to_string();
    assert_eq!(conflict_message(&t), "A class 'AccountService' already exists in com.foo at A.java:1");
}

#[test]
fn files_of_other_languages_are_skipped_with_a_warning() {
    let registry = PluginRegistry::new();
    assert!(matches!(rename_file_step(&registry, "src/A.java", Some("java"), LanguageId::Java), Ok(LanguageId::Java)));
    assert!(matches!(rename_file_step(&registry, "src/x.cob", Some("cobol"), LanguageId::Java), Ok(LanguageId::Java)));
    assert!(matches!(rename_file_step(&registry, "src/B.java", None, LanguageId::Java), Ok(LanguageId::Java)));
    match rename_file_step(&registry, "src/utils.go", Some("go"), LanguageId::Java) {
        Err(w) => assert_eq!(w, "Warning: references in src/utils.go skipped (Go rename not supported)"),
        Ok(_) => panic!("expected a warning"),
    }
    assert_eq!(
        skipped_file_warning("a.py", "Python"),
        "Warning: references in a.py skipped (Python rename not supported)"
    );
}

#[test]
fn dry_run_result_keeps_files_with_occurrences_in_order() {
    let scans = vec![
        ("src/b.java".to_string(), vec![at(9, 1, 90), at(2, 5, 20), at(2, 1, 16)]),
        ("src/c.java".to_string(), vec![]),
        ("src/a.java".to_string(), vec![at(3, 0, 30)]),
    ];
    let r = assemble_rename_result(scans, vec!["w".to_string()]);
    assert_eq!(r.warnings, vec!["w".to_string()]);
    let files: Vec<&str> = r.changes.iter().map(|c| c.file_path.as_str()).collect();
    assert_eq!(files, vec!["src/a.java", "src/b.java"]);
    let lines: Vec<(i64, i64)> = r.changes[1].occurrences.iter().map(|o| (o.line, o.column)).collect();
    assert_eq!(lines, vec![(2, 1), (2, 5), (9, 1)]);
    assert_eq!(r.total_occurrences(), 4);
    assert_eq!(r.total_files(), 2);
}

#[test]
fn dry_run_lines_and_summaries() {
    let o = RenameOccurrence { line: 15, column: 10, byte_offset: 0, old_text: "save".to_string() };
    assert_eq!(occurrence_line("src/UserService.java", &o, "findById"), "src/UserService.java:15:10  save → findById");
    assert_eq!(rename_summary(false, 3, 2), "3 occurrences in 2 files");
    assert_eq!(rename_summary(true, 3, 2), "Renamed 3 occurrences in 2 files");
}

#[test]
fn hierarchy_walk_adds_each_supertype_once() {
    let mut known = vec![1];
    assert_eq!(hierarchy_step(&mut known, &vec![2, 3, 2, 1]), vec![2, 3]);
    assert_eq!(known, vec![1, 2, 3]);
    assert_eq!(hierarchy_step(&mut known, &vec![3, 4]), vec![4]);
    assert_eq!(hierarchy_step(&mut known, &vec![1, 2]), Vec::<i64>::new());
    assert_eq!(known, vec![1, 2, 3, 4]);
}

#[test]
fn store_update_plan_follows_the_new_name() {
    let mut s = method(5, Some(3));
    s.qualified_name = "com.foo.UserService.save(Person)".to_string();
    s.signature = Some("save(Person)".to_string());
    let p = plan_store_update(&s, "findById");
    assert_eq!(p.symbol_id, 5);
    assert_eq!(p.new_name, "findById");
    assert_eq!(p.old_qualified_name, "com.foo.UserService.save(Person)");
    assert_eq!(p.new_qualified_name, "com.foo.UserService.findById(Person)");
    assert_eq!(p.new_signature, Some("findById(Person)".to_string()));
    assert!(!p.cascade_to_children);
    let mut c = method(6, None);
    c.kind = SymbolKind::new("class");
    c.name = "UserService".to_string();
    c.qualified_name = "com.foo.UserService".to_string();
    c.signature = None;
    let q = plan_store_update(&c, "AccountService");
    assert_eq!(q.new_qualified_name, "com.foo.AccountService");
    assert_eq!(q.new_signature, None);
    assert!(q.cascade_to_children);
}

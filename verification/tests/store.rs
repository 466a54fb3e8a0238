use codix::model::{ExtractedRelationship, ExtractedSymbol, RelationshipKind, Symbol, SymbolKind, Visibility};
use codix::store::{
    filter_by_glob, filter_by_name_glob, glob_hits, glob_to_like, parent_links, relationship_rows,
    symbol_id_map, unique_candidate, wildcard_candidates,
};

fn sym(id: i64, name: &str, qn: &str) -> Symbol {
    Symbol {
        id,
        name: name.to_string(),
        signature: None,
        qualified_name: qn.to_string(),
        kind: SymbolKind::new("class"),
        visibility: Visibility::new("public"),
        file_id: 1,
        file_path: "A.java".to_string(),
        line: 1,
        column: 0,
        end_line: 1,
        end_column: 1,
        parent_symbol_id: None,
        package: "com.foo".to_string(),
    }
}

fn extracted(local_id: usize, parent: Option<usize>) -> ExtractedSymbol {
    ExtractedSymbol {
        local_id,
        name: format!("s{}", local_id),
        signature: None,
        qualified_name: format!("s{}", local_id),
        kind: SymbolKind::new("class"),
        visibility: Visibility::new("public"),
        line: 1,
        column: 0,
        end_line: 1,
        end_column: 0,
        parent_local_id: parent,
        package: String::new(),
        type_text: None,
    }
}

#[test]
fn glob_becomes_like_pattern() {
    assert_eq!(glob_to_like("User*"), "User%");
    assert_eq!(glob_to_like("a?b"), "a_b");
    assert_eq!(glob_to_like("100%_x"), "100\\%\\_x");
}

#[test]
fn glob_matching_with_and_without_case() {
    assert!(glob_hits("User*", false, "UserService"));
    assert!(!glob_hits("user*", false, "UserService"));
    assert!(glob_hits("user*", true, "UserService"));
}

#[test]
fn glob_filter_by_name_or_qualified_name() {
    let rows = vec![sym(1, "UserService", "com.foo.UserService"), sym(2, "Repo", "com.foo.Repo"), sym(3, "X", "com.user.X")];
    let r = filter_by_glob(rows, "User*", false);
    assert_eq!(r.len(), 1);
    assert_eq!(r[0].id, 1);
    let rows = vec![sym(1, "UserService", "com.foo.UserService"), sym(3, "X", "com.user.X")];
    let r = filter_by_glob(rows, "*.user.*", false);
    assert_eq!(r.len(), 1);
    assert_eq!(r[0].id, 3);
    let rows = vec![sym(1, "UserService", "com.foo.UserService"), sym(3, "X", "com.user.X")];
    assert_eq!(filter_by_name_glob(rows, "*", false).len(), 2);
}

#[test]
fn wildcard_candidates_use_the_simple_name() {
    let prefixes = vec!["com.foo".to_string(), "org.bar".to_string()];
    assert_eq!(
        wildcard_candidates(&prefixes, "x.Base"),
        vec!["com.foo.Base".to_string(), "org.bar.Base".to_string()]
    );
    assert_eq!(unique_candidate(vec!["a.B".to_string()]), Some("a.B".to_string()));
    assert_eq!(unique_candidate(vec!["a.B".to_string(), "c.B".to_string()]), None);
    assert_eq!(unique_candidate(vec![]), None);
}

#[test]
fn stored_ids_and_parent_links() {
    let symbols = vec![extracted(0, None), extracted(1, Some(0)), extracted(2, Some(1)), extracted(3, Some(9))];
    let ids = vec![10, 11, 12, 13];
    let map = symbol_id_map(&symbols, &ids);
    assert_eq!(map, vec![(0, 10), (1, 11), (2, 12), (3, 13)]);
    assert_eq!(parent_links(&symbols, &map), vec![(11, 10), (12, 11)]);
}

#[test]
fn relationship_rows_keep_known_sources() {
    let map = vec![(0usize, 10i64), (1, 11)];
    let rels = vec![
        ExtractedRelationship { source_local_id: 1, target_qualified_name: "Base".to_string(), kind: RelationshipKind::Extends },
        ExtractedRelationship { source_local_id: 5, target_qualified_name: "Lost".to_string(), kind: RelationshipKind::Calls },
    ];
    let rows = relationship_rows(&map, &rels);
    assert_eq!(rows.len(), 1);
    assert_eq!(rows[0].0, 11);
    assert_eq!(rows[0].1, "Base");
    assert_eq!(rows[0].2, RelationshipKind::Extends);
}

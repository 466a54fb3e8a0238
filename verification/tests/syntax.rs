use codix::plugin::LanguageId;
use codix::syntax::parse_source;

#[test]
fn a_parse_copies_the_tree_node_for_node() {
    let source = b"package main\n\nfunc f() {}\n";
    let root = parse_source(LanguageId::Go, source);
    assert_eq!(root.kind, "source_file");
    assert!(root.field_name.is_none());
    assert_eq!(root.start_byte, 0);
    assert_eq!(root.end_byte, source.len());
    let named: Vec<_> = root.children.iter().filter(|c| c.is_named).collect();
    let kinds: Vec<&str> = named.iter().map(|c| c.kind.as_str()).collect();
    assert_eq!(kinds, vec!["package_clause", "function_declaration"]);
    let func = named[1];
    assert_eq!((func.row, func.column, func.end_row), (2, 0, 2));
    let name = func.children.iter().find(|c| c.field_name.as_deref() == Some("name")).unwrap();
    assert_eq!(&source[name.start_byte..name.end_byte], b"f");
}

#[test]
fn the_same_bytes_parse_to_the_same_tree() {
    let source = b"class A:\n    def m(self):\n        pass\n";
    let a = parse_source(LanguageId::Python, source);
    let b = parse_source(LanguageId::Python, source);
    assert_eq!(a.children.len(), b.children.len());
    assert_eq!(a.end_byte, b.end_byte);
}

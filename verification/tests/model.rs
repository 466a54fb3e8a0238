use codix::model::{RelationshipKind, SymbolKind, Visibility};

#[test]
fn test_symbol_kind_display() {
    assert_eq!(SymbolKind::new("class").as_str(), "class");
    assert_eq!(SymbolKind::new("method").as_str(), "method");
}

#[test]
fn test_relationship_kind_display() {
    assert_eq!(RelationshipKind::Extends.as_str(), "extends");
    assert_eq!(RelationshipKind::Implements.as_str(), "implements");
}

#[test]
fn test_visibility_display() {
    assert_eq!(Visibility::new("public").as_str(), "public");
    assert_eq!(Visibility::new("package-private").as_str(), "package-private");
}

#[test]
fn relationship_kind_names_of_every_kind() {
    assert_eq!(RelationshipKind::Calls.as_str(), "calls");
    assert_eq!(RelationshipKind::FieldType.as_str(), "field-type");
    assert_eq!(RelationshipKind::AnnotatedBy.as_str(), "annotated-by");
}

#[test]
fn duplicated_kind_and_visibility_are_equal() {
    let k = SymbolKind::new("type-alias");
    assert_eq!(k.duplicate(), k);
    let v = Visibility::new("pub(crate)");
    assert_eq!(v.duplicate(), v);
}

use codix::model::{ExtractionResult, RelationshipKind, SymbolKind, Visibility};
use codix::plugin::LanguageId;
use codix::syntax::parse_source;

fn parse_and_extract(source: &str) -> ExtractionResult {
    let lang = LanguageId::Python;
    let root = parse_source(lang, source.as_bytes());
    lang.extract_symbols(&root, source.as_bytes())
}

#[test]
fn python_test_class_extraction() {
    let result = parse_and_extract("class Foo:\n    pass\n");
    assert_eq!(result.symbols.len(), 1);
    assert_eq!(result.symbols[0].name, "Foo");
    assert_eq!(result.symbols[0].kind, SymbolKind::new("class"));
    assert_eq!(result.symbols[0].visibility, Visibility::new("public"));
}

#[test]
fn test_nested_class() {
    let result = parse_and_extract("class Outer:\n    class Inner:\n        pass\n");
    assert_eq!(result.symbols.len(), 2);
    assert_eq!(result.symbols[0].name, "Outer");
    assert_eq!(result.symbols[1].name, "Inner");
    assert_eq!(result.symbols[1].qualified_name, "Outer.Inner");
    assert!(result.symbols[1].parent_local_id.is_some());
}

#[test]
fn mod_test_function_extraction() {
    let result = parse_and_extract("def foo():\n    pass\n");
    assert_eq!(result.symbols.len(), 1);
    assert_eq!(result.symbols[0].name, "foo");
    assert_eq!(result.symbols[0].kind, SymbolKind::new("function"));
}

#[test]
fn test_method_extraction() {
    let result = parse_and_extract("class Foo:\n    def bar(self):\n        pass\n");
    assert_eq!(result.symbols.len(), 2);
    assert_eq!(result.symbols[1].name, "bar");
    assert_eq!(result.symbols[1].kind, SymbolKind::new("method"));
    assert_eq!(result.symbols[1].qualified_name, "Foo.bar");
}

#[test]
fn test_constructor() {
    let result = parse_and_extract("class Foo:\n    def __init__(self):\n        pass\n");
    assert_eq!(result.symbols[1].name, "__init__");
    assert_eq!(result.symbols[1].kind, SymbolKind::new("constructor"));
}

#[test]
fn test_signature_excludes_self() {
    let result = parse_and_extract("class Foo:\n    def bar(self, x, y):\n        pass\n");
    assert_eq!(result.symbols[1].signature.as_deref(), Some("bar(x,y)"));
}

#[test]
fn test_class_field() {
    let result = parse_and_extract("class Foo:\n    name: str\n");
    assert_eq!(result.symbols.len(), 2);
    assert_eq!(result.symbols[1].name, "name");
    assert_eq!(result.symbols[1].kind, SymbolKind::new("field"));
    assert_eq!(result.symbols[1].type_text.as_deref(), Some("str"));
}

#[test]
fn python_test_visibility() {
    let result = parse_and_extract("class Foo:\n    def public(self): pass\n    def _protected(self): pass\n    def __private(self): pass\n    def __dunder__(self): pass\n");
    assert_eq!(result.symbols[1].visibility, Visibility::new("public"));
    assert_eq!(result.symbols[2].visibility, Visibility::new("protected"));
    assert_eq!(result.symbols[3].visibility, Visibility::new("private"));
    assert_eq!(result.symbols[4].visibility, Visibility::new("public"));
}

#[test]
fn test_extends() {
    let result = parse_and_extract("class Foo(Bar, Baz):\n    pass\n");
    let extends: Vec<_> = result
        .relationships
        .iter()
        .filter(|r| r.kind == RelationshipKind::Extends)
        .collect();
    assert_eq!(extends.len(), 2);
    assert_eq!(extends[0].target_qualified_name, "Bar");
    assert_eq!(extends[1].target_qualified_name, "Baz");
}

#[test]
fn python_test_field_type_relationship() {
    let result = parse_and_extract("class Foo:\n    repo: Repository\n");
    let field_types: Vec<_> = result
        .relationships
        .iter()
        .filter(|r| r.kind == RelationshipKind::FieldType)
        .collect();
    assert_eq!(field_types.len(), 1);
    assert_eq!(field_types[0].target_qualified_name, "Repository");
}

#[test]
fn python_test_param_type_relationship() {
    let result = parse_and_extract("def process(item: Item) -> None:\n    pass\n");
    let field_types: Vec<_> = result
        .relationships
        .iter()
        .filter(|r| r.kind == RelationshipKind::FieldType)
        .collect();
    assert_eq!(field_types.len(), 1);
    assert_eq!(field_types[0].target_qualified_name, "Item");
}

#[test]
fn test_decorator_annotated_by() {
    let result = parse_and_extract("@dataclass\nclass Foo:\n    pass\n");
    let annotations: Vec<_> = result
        .relationships
        .iter()
        .filter(|r| r.kind == RelationshipKind::AnnotatedBy)
        .collect();
    assert_eq!(annotations.len(), 1);
    assert_eq!(annotations[0].target_qualified_name, "dataclass");
}

#[test]
fn python_test_call_relationship() {
    let result = parse_and_extract("def main():\n    process()\n");
    let calls: Vec<_> = result
        .relationships
        .iter()
        .filter(|r| r.kind == RelationshipKind::Calls)
        .collect();
    assert_eq!(calls.len(), 1);
    assert_eq!(calls[0].target_qualified_name, "process");
}

#[test]
fn typed_parameters_give_their_names() {
    let result = parse_and_extract("def foo(self, x: int, y: str):\n    pass\n");
    assert_eq!(result.symbols[0].signature.as_deref(), Some("foo(x,y)"));
}

#[test]
fn typed_splats_and_defaults_give_their_names() {
    let result = parse_and_extract("def foo(a: int = 1, b=2, *args: int, **kw: str):\n    pass\n");
    assert_eq!(result.symbols[0].signature.as_deref(), Some("foo(a,b,*args,**kw)"));
}

#[test]
fn nested_class_members_hang_below_their_class() {
    let source = "class Outer:\n    class Inner:\n        def m(self):\n            pass\n    x = 1\n";
    let result = parse_and_extract(source);
    let rows: Vec<(usize, Option<usize>, &str)> = result
        .symbols
        .iter()
        .map(|s| (s.local_id, s.parent_local_id, s.qualified_name.as_str()))
        .collect();
    assert_eq!(
        rows,
        vec![
            (0, None, "Outer"),
            (1, Some(0), "Outer.Inner"),
            (2, Some(1), "Outer.Inner.m"),
            (3, Some(0), "Outer.x"),
        ]
    );
}

#[test]
fn class_relationships_come_from_the_class_and_its_members() {
    let source = "def f():\n    g()\n\nclass A(Base):\n    def m(self):\n        foo()\n";
    let result = parse_and_extract(source);
    let rels: Vec<(usize, &str, RelationshipKind)> = result
        .relationships
        .iter()
        .map(|r| (r.source_local_id, r.target_qualified_name.as_str(), r.kind))
        .collect();
    assert_eq!(
        rels,
        vec![
            (0, "g", RelationshipKind::Calls),
            (1, "Base", RelationshipKind::Extends),
            (2, "foo", RelationshipKind::Calls),
        ]
    );
}

#[test]
fn extract_class_places_members_below_the_class() {
    let source = "class Outer(Base):\n    class Inner:\n        def m(self):\n            run()\n";
    let root = parse_source(LanguageId::Python, source.as_bytes());
    let class_node = root.children.iter().find(|c| c.kind == "class_definition").unwrap();
    let mut symbols = Vec::new();
    let mut relationships = Vec::new();
    codix::plugin::python::extract_class(class_node, source.as_bytes(), None, "", &mut symbols, &mut relationships);
    let rows: Vec<(usize, Option<usize>, &str)> =
        symbols.iter().map(|s| (s.local_id, s.parent_local_id, s.qualified_name.as_str())).collect();
    assert_eq!(rows, vec![(0, None, "Outer"), (1, Some(0), "Outer.Inner"), (2, Some(1), "Outer.Inner.m")]);
    let sources: Vec<usize> = relationships.iter().map(|r| r.source_local_id).collect();
    assert_eq!(sources, vec![0, 2]);
}

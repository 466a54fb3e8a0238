use codix::model::{ExtractionResult, RelationshipKind, SymbolKind, Visibility};
use codix::plugin::LanguageId;
use codix::syntax::parse_source;
use codix::plugin::go::extract_base_type;

fn parse_and_extract(source: &str) -> ExtractionResult {
    let lang = LanguageId::Go;
    let root = parse_source(lang, source.as_bytes());
    lang.extract_symbols(&root, source.as_bytes())
}

#[test]
fn mod_test_struct_extraction() {
    let result =
        parse_and_extract("package main\n\ntype Foo struct {\n\tName string\n\tAge  int\n}");
    assert_eq!(result.symbols.len(), 3);
    assert_eq!(result.symbols[0].name, "Foo");
    assert_eq!(result.symbols[0].kind, SymbolKind::new("struct"));
    assert_eq!(result.symbols[0].qualified_name, "main.Foo");
    assert_eq!(result.symbols[0].visibility, Visibility::new("public"));
    assert_eq!(result.symbols[1].name, "Name");
    assert_eq!(result.symbols[1].kind, SymbolKind::new("field"));
    assert_eq!(result.symbols[2].name, "Age");
}

#[test]
fn test_interface_extraction() {
    let result = parse_and_extract(
        "package main\n\ntype Repository interface {\n\tSave(item Item)\n\tFind(id int) Item\n}"
    );
    assert_eq!(result.symbols.len(), 3);
    assert_eq!(result.symbols[0].name, "Repository");
    assert_eq!(result.symbols[0].kind, SymbolKind::new("interface"));
    assert_eq!(result.symbols[1].name, "Save");
    assert_eq!(result.symbols[1].kind, SymbolKind::new("method"));
    assert_eq!(result.symbols[2].name, "Find");
}

#[test]
fn mod_test_function_declaration() {
    let result = parse_and_extract("package main\n\nfunc main() {}");
    assert_eq!(result.symbols.len(), 1);
    assert_eq!(result.symbols[0].name, "main");
    assert_eq!(result.symbols[0].kind, SymbolKind::new("function"));
    assert_eq!(result.symbols[0].qualified_name, "main.main");
    assert_eq!(result.symbols[0].visibility, Visibility::new("private"));
}

#[test]
fn test_method_declaration() {
    let result =
        parse_and_extract("package main\n\ntype Foo struct {}\n\nfunc (f *Foo) Bar() {}");
    assert_eq!(result.symbols.len(), 2);
    assert_eq!(result.symbols[1].name, "Bar");
    assert_eq!(result.symbols[1].kind, SymbolKind::new("method"));
    assert_eq!(result.symbols[1].qualified_name, "main.Foo.Bar");
    assert_eq!(result.symbols[1].visibility, Visibility::new("public"));
}

#[test]
fn mod_test_visibility() {
    let result =
        parse_and_extract("package main\n\ntype foo struct {\n\tname string\n\tAge  int\n}");
    assert_eq!(result.symbols[0].visibility, Visibility::new("private")); // foo
    assert_eq!(result.symbols[1].visibility, Visibility::new("private")); // name
    assert_eq!(result.symbols[2].visibility, Visibility::new("public")); // Age
}

#[test]
fn test_struct_embedding() {
    let result = parse_and_extract(
        "package main\n\ntype Base struct {}\n\ntype Child struct {\n\tBase\n}",
    );
    assert_eq!(result.relationships.len(), 1);
    assert_eq!(result.relationships[0].kind, RelationshipKind::Extends);
    assert_eq!(result.relationships[0].target_qualified_name, "Base");
}

#[test]
fn test_interface_embedding() {
    let result = parse_and_extract(
        "package main\n\ntype Reader interface {\n\tRead() error\n}\n\ntype ReadWriter interface {\n\tReader\n\tWrite() error\n}"
    );
    let extends: Vec<_> = result
        .relationships
        .iter()
        .filter(|r| r.kind == RelationshipKind::Extends)
        .collect();
    assert_eq!(extends.len(), 1);
    assert_eq!(extends[0].target_qualified_name, "Reader");
}

#[test]
fn mod_test_field_type_relationship() {
    let result =
        parse_and_extract("package main\n\ntype Service struct {\n\trepo Repository\n}");
    let field_types: Vec<_> = result
        .relationships
        .iter()
        .filter(|r| r.kind == RelationshipKind::FieldType)
        .collect();
    assert_eq!(field_types.len(), 1);
    assert_eq!(field_types[0].target_qualified_name, "Repository");
}

#[test]
fn mod_test_param_type_relationship() {
    let result = parse_and_extract("package main\n\nfunc Process(r Repository) {}");
    let field_types: Vec<_> = result
        .relationships
        .iter()
        .filter(|r| r.kind == RelationshipKind::FieldType)
        .collect();
    assert_eq!(field_types.len(), 1);
    assert_eq!(field_types[0].target_qualified_name, "Repository");
}

#[test]
fn mod_test_return_type_relationship() {
    let result =
        parse_and_extract("package main\n\nfunc NewService() Service { return Service{} }");
    let field_types: Vec<_> = result
        .relationships
        .iter()
        .filter(|r| r.kind == RelationshipKind::FieldType)
        .collect();
    assert_eq!(field_types.len(), 1);
    assert_eq!(field_types[0].target_qualified_name, "Service");
}

#[test]
fn mod_test_call_relationship() {
    let result = parse_and_extract("package main\n\nfunc main() {\n\tProcess()\n}");
    let calls: Vec<_> = result
        .relationships
        .iter()
        .filter(|r| r.kind == RelationshipKind::Calls)
        .collect();
    assert_eq!(calls.len(), 1);
    assert_eq!(calls[0].target_qualified_name, "Process");
}

#[test]
fn test_pointer_type_stripped() {
    let result =
        parse_and_extract("package main\n\ntype Service struct {\n\trepo *Repository\n}");
    let field_types: Vec<_> = result
        .relationships
        .iter()
        .filter(|r| r.kind == RelationshipKind::FieldType)
        .collect();
    assert_eq!(field_types.len(), 1);
    assert_eq!(field_types[0].target_qualified_name, "Repository");
}

#[test]
fn base_type_strips_map_prefixes() {
    assert_eq!(extract_base_type("map[string]Item"), "Item");
    assert_eq!(extract_base_type(" map[string]*Item "), "Item");
    assert_eq!(extract_base_type("map[[2]int][]Item"), "Item");
    assert_eq!(extract_base_type("*[]chan Item"), "Item");
    assert_eq!(extract_base_type("map[string"), "map[string");
}

#[test]
fn map_field_type_names_its_value_type() {
    let result = parse_and_extract("package main\n\ntype Cache struct {\n\titems map[string]*Item\n}");
    let field_types: Vec<_> = result
        .relationships
        .iter()
        .filter(|r| r.kind == RelationshipKind::FieldType)
        .collect();
    assert_eq!(field_types.len(), 1);
    assert_eq!(field_types[0].target_qualified_name, "Item");
}

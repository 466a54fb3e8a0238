use codix::model::{ExtractionResult, RelationshipKind, SymbolKind, Visibility};
use codix::plugin::LanguageId;
use codix::syntax::parse_source;

fn parse_and_extract(source: &str) -> ExtractionResult {
    let lang = LanguageId::Rust;
    let root = parse_source(lang, source.as_bytes());
    lang.extract_symbols(&root, source.as_bytes())
}

#[test]
fn rust_test_struct_extraction() {
    let result = parse_and_extract("pub struct Foo {\n    pub name: String,\n    age: u32,\n}");
    assert_eq!(result.symbols.len(), 3);
    assert_eq!(result.symbols[0].name, "Foo");
    assert_eq!(result.symbols[0].kind, SymbolKind::new("struct"));
    assert_eq!(result.symbols[0].visibility, Visibility::new("pub"));
    assert_eq!(result.symbols[1].name, "name");
    assert_eq!(result.symbols[1].kind, SymbolKind::new("field"));
    assert_eq!(result.symbols[1].visibility, Visibility::new("pub"));
    assert_eq!(result.symbols[2].name, "age");
    assert_eq!(result.symbols[2].visibility, Visibility::new("private"));
}

#[test]
fn test_enum_with_variants() {
    let result = parse_and_extract("pub enum Color {\n    Red,\n    Blue { r: u8 },\n}");
    assert_eq!(result.symbols.len(), 4); // enum + 2 variants + 1 field
    assert_eq!(result.symbols[0].name, "Color");
    assert_eq!(result.symbols[0].kind, SymbolKind::new("enum"));
    assert_eq!(result.symbols[1].name, "Red");
    assert_eq!(result.symbols[1].kind, SymbolKind::new("variant"));
    assert_eq!(result.symbols[1].qualified_name, "Color.Red");
    assert_eq!(result.symbols[2].name, "Blue");
    assert_eq!(result.symbols[2].kind, SymbolKind::new("variant"));
    assert_eq!(result.symbols[3].name, "r");
    assert_eq!(result.symbols[3].kind, SymbolKind::new("field"));
    assert_eq!(result.symbols[3].qualified_name, "Color.Blue.r");
}

#[test]
fn test_trait_extraction() {
    let result = parse_and_extract("pub trait Repository {\n    fn save(&self, item: Item);\n    fn find(&self, id: u32) -> Item;\n}");
    assert_eq!(result.symbols.len(), 3);
    assert_eq!(result.symbols[0].name, "Repository");
    assert_eq!(result.symbols[0].kind, SymbolKind::new("trait"));
    assert_eq!(result.symbols[1].name, "save");
    assert_eq!(result.symbols[1].kind, SymbolKind::new("method"));
    assert_eq!(result.symbols[1].qualified_name, "Repository.save");
}

#[test]
fn test_trait_supertraits() {
    let result = parse_and_extract("pub trait ReadWrite: Read + Write {}");
    let extends: Vec<_> = result.relationships.iter()
        .filter(|r| r.kind == RelationshipKind::Extends)
        .collect();
    assert_eq!(extends.len(), 2);
}

#[test]
fn test_impl_method() {
    let result = parse_and_extract("struct Foo {}\nimpl Foo {\n    pub fn bar(&self) {}\n}");
    assert_eq!(result.symbols.len(), 2); // struct + method
    assert_eq!(result.symbols[1].name, "bar");
    assert_eq!(result.symbols[1].kind, SymbolKind::new("method"));
    assert_eq!(result.symbols[1].qualified_name, "Foo.bar");
    assert_eq!(result.symbols[1].visibility, Visibility::new("pub"));
}

#[test]
fn test_trait_impl() {
    let result = parse_and_extract("struct Foo {}\ntrait Bar {}\nimpl Bar for Foo {}");
    let impls: Vec<_> = result.relationships.iter()
        .filter(|r| r.kind == RelationshipKind::Implements)
        .collect();
    assert_eq!(impls.len(), 1);
    assert_eq!(impls[0].target_qualified_name, "Bar");
}

#[test]
fn rust_test_function_extraction() {
    let result = parse_and_extract("pub fn main() {}");
    assert_eq!(result.symbols.len(), 1);
    assert_eq!(result.symbols[0].name, "main");
    assert_eq!(result.symbols[0].kind, SymbolKind::new("function"));
    assert_eq!(result.symbols[0].visibility, Visibility::new("pub"));
}

#[test]
fn test_type_alias() {
    let result = parse_and_extract("pub type Result<T> = std::result::Result<T, MyError>;");
    assert_eq!(result.symbols.len(), 1);
    assert_eq!(result.symbols[0].name, "Result");
    assert_eq!(result.symbols[0].kind, SymbolKind::new("type-alias"));
}

#[test]
fn rust_test_field_type_relationship() {
    let result = parse_and_extract("struct Service {\n    repo: Repository,\n}");
    let field_types: Vec<_> = result.relationships.iter()
        .filter(|r| r.kind == RelationshipKind::FieldType)
        .collect();
    assert_eq!(field_types.len(), 1);
    assert_eq!(field_types[0].target_qualified_name, "Repository");
}

#[test]
fn rust_test_param_type_relationship() {
    let result = parse_and_extract("fn process(r: Repository) {}");
    let field_types: Vec<_> = result.relationships.iter()
        .filter(|r| r.kind == RelationshipKind::FieldType)
        .collect();
    assert_eq!(field_types.len(), 1);
    assert_eq!(field_types[0].target_qualified_name, "Repository");
}

#[test]
fn rust_test_return_type_relationship() {
    let result = parse_and_extract("fn new_service() -> Service { todo!() }");
    let field_types: Vec<_> = result.relationships.iter()
        .filter(|r| r.kind == RelationshipKind::FieldType)
        .collect();
    assert_eq!(field_types.len(), 1);
    assert_eq!(field_types[0].target_qualified_name, "Service");
}

#[test]
fn rust_test_call_relationship() {
    let result = parse_and_extract("fn main() {\n    process();\n}");
    let calls: Vec<_> = result.relationships.iter()
        .filter(|r| r.kind == RelationshipKind::Calls)
        .collect();
    assert_eq!(calls.len(), 1);
    assert_eq!(calls[0].target_qualified_name, "process");
}

#[test]
fn test_use_import_resolution() {
    let result = parse_and_extract("use crate::model::Repository;\nstruct Service {\n    repo: Repository,\n}");
    let field_types: Vec<_> = result.relationships.iter()
        .filter(|r| r.kind == RelationshipKind::FieldType)
        .collect();
    assert_eq!(field_types.len(), 1);
    assert_eq!(field_types[0].target_qualified_name, "crate::model::Repository");
}

#[test]
fn test_use_alias() {
    let result = parse_and_extract("use std::io::Result as IoResult;\nfn foo() -> IoResult { todo!() }");
    let field_types: Vec<_> = result.relationships.iter()
        .filter(|r| r.kind == RelationshipKind::FieldType)
        .collect();
    assert_eq!(field_types.len(), 1);
    assert_eq!(field_types[0].target_qualified_name, "std::io::Result");
}

#[test]
fn test_pub_crate_visibility() {
    let result = parse_and_extract("pub(crate) struct Foo {}");
    assert_eq!(result.symbols[0].visibility, Visibility::new("pub(crate)"));
}

#[test]
fn test_reference_type_stripped() {
    let result = parse_and_extract("fn process(r: &Repository) {}");
    let field_types: Vec<_> = result.relationships.iter()
        .filter(|r| r.kind == RelationshipKind::FieldType)
        .collect();
    assert_eq!(field_types.len(), 1);
    assert_eq!(field_types[0].target_qualified_name, "Repository");
}

#[test]
fn std_types_inside_type_arguments_are_left_out() {
    let result = parse_and_extract("struct Cache {\n    items: HashMap<String, Vec<Item>>,\n}");
    let targets: Vec<&str> = result.relationships.iter()
        .filter(|r| r.kind == RelationshipKind::FieldType)
        .map(|r| r.target_qualified_name.as_str())
        .collect();
    assert_eq!(targets, vec!["HashMap", "Item"]);
}

#[test]
fn boxed_trait_objects_name_box_and_the_trait() {
    let result = parse_and_extract("struct Service {\n    repo: Box<dyn Repository>,\n}");
    let targets: Vec<&str> = result.relationships.iter()
        .filter(|r| r.kind == RelationshipKind::FieldType)
        .map(|r| r.target_qualified_name.as_str())
        .collect();
    assert_eq!(targets, vec!["Box", "Repository"]);
}

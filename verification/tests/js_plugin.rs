use codix::model::{ExtractionResult, RelationshipKind, SymbolKind, Visibility};
use codix::plugin::LanguageId;
use codix::syntax::parse_source;

fn parse_and_extract(source: &str) -> ExtractionResult {
    let lang = LanguageId::Js;
    let root = parse_source(lang, source.as_bytes());
    lang.extract_symbols(&root, source.as_bytes())
}

#[test]
fn mod_test_class_extraction() {
    let result = parse_and_extract(
        "class Foo {\n  #name;\n  constructor(name) { this.#name = name; }\n  run() {}\n}",
    );
    assert_eq!(result.symbols.len(), 4);
    assert_eq!(result.symbols[0].name, "Foo");
    assert_eq!(result.symbols[0].kind, SymbolKind::new("class"));
    assert_eq!(result.symbols[1].name, "#name");
    assert_eq!(result.symbols[1].kind, SymbolKind::new("field"));
    assert_eq!(result.symbols[1].visibility, Visibility::new("private"));
    assert_eq!(result.symbols[2].name, "constructor");
    assert_eq!(result.symbols[2].kind, SymbolKind::new("constructor"));
    assert_eq!(result.symbols[3].name, "run");
    assert_eq!(result.symbols[3].kind, SymbolKind::new("method"));
    assert_eq!(result.symbols[3].qualified_name, "Foo.run");
}

#[test]
fn js_test_function_declaration() {
    let result = parse_and_extract("function main() { return 42; }");
    assert_eq!(result.symbols.len(), 1);
    assert_eq!(result.symbols[0].name, "main");
    assert_eq!(result.symbols[0].kind, SymbolKind::new("function"));
    assert_eq!(result.symbols[0].signature, Some("main()".to_string()));
}

#[test]
fn test_arrow_function() {
    let result = parse_and_extract("const helper = () => { return 42; };");
    assert_eq!(result.symbols.len(), 1);
    assert_eq!(result.symbols[0].name, "helper");
    assert_eq!(result.symbols[0].kind, SymbolKind::new("function"));
}

#[test]
fn test_function_expression() {
    let result = parse_and_extract("const helper = function() { return 42; };");
    assert_eq!(result.symbols.len(), 1);
    assert_eq!(result.symbols[0].name, "helper");
    assert_eq!(result.symbols[0].kind, SymbolKind::new("function"));
}

#[test]
fn test_private_field() {
    let result = parse_and_extract("class Foo { #secret = 42; }");
    assert_eq!(result.symbols.len(), 2);
    assert_eq!(result.symbols[1].name, "#secret");
    assert_eq!(result.symbols[1].visibility, Visibility::new("private"));
    assert_eq!(result.symbols[1].qualified_name, "Foo.secret");
}

#[test]
fn test_extends_relationship() {
    let result = parse_and_extract("class Bar extends Foo {}");
    assert_eq!(result.symbols.len(), 1);
    assert_eq!(result.relationships.len(), 1);
    assert_eq!(result.relationships[0].target_qualified_name, "Foo");
    assert_eq!(result.relationships[0].kind, RelationshipKind::Extends);
}

#[test]
fn test_exported_class() {
    let result = parse_and_extract("export class Foo { run() {} }");
    assert_eq!(result.symbols.len(), 2);
    assert_eq!(result.symbols[0].name, "Foo");
    assert_eq!(result.symbols[1].name, "run");
}

#[test]
fn test_exported_function() {
    let result = parse_and_extract("export function main() {}");
    assert_eq!(result.symbols.len(), 1);
    assert_eq!(result.symbols[0].name, "main");
    assert_eq!(result.symbols[0].kind, SymbolKind::new("function"));
}

#[test]
fn test_typescript_file() {
    let result =
        parse_and_extract("class Service {\n  private name: string;\n  serve(): void {}\n}");
    assert_eq!(result.symbols.len(), 3);
    assert_eq!(result.symbols[0].name, "Service");
}

#[test]
fn function_calls_are_relationships() {
    let result = parse_and_extract("function main() { helper(); }");
    assert_eq!(result.symbols.len(), 1);
    assert_eq!(result.symbols[0].name, "main");
    assert_eq!(result.relationships.len(), 1);
    assert_eq!(result.relationships[0].source_local_id, 0);
    assert_eq!(result.relationships[0].target_qualified_name, "helper");
    assert_eq!(result.relationships[0].kind, RelationshipKind::Calls);
}

#[test]
fn method_and_arrow_function_calls_are_relationships() {
    let source = "class Foo extends Base {\n  run() { this.repo.save(x); }\n}\nexport const go = () => { start(); };\n";
    let result = parse_and_extract(source);
    let rels: Vec<(usize, &str, RelationshipKind)> = result
        .relationships
        .iter()
        .map(|r| (r.source_local_id, r.target_qualified_name.as_str(), r.kind))
        .collect();
    assert_eq!(
        rels,
        vec![
            (0, "Base", RelationshipKind::Extends),
            (1, "save", RelationshipKind::Calls),
            (2, "start", RelationshipKind::Calls),
        ]
    );
}

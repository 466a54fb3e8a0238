use codix::model::{ExtractionResult, RelationshipKind, SymbolKind, Visibility};
use codix::plugin::LanguageId;
use codix::syntax::parse_source;
use codix::plugin::java::{parse_imports, JavaPlugin};
use codix::text::lookup;

fn parse_java(source: &str) -> ExtractionResult {
    let lang = LanguageId::Java;
    let root = parse_source(lang, source.as_bytes());
    lang.extract_symbols(&root, source.as_bytes())
}

#[test]
fn test_extract_class() {
    let result = parse_java("package com.foo;\n\npublic class UserService {}");
    assert_eq!(result.symbols.len(), 1);
    assert_eq!(result.symbols[0].name, "UserService");
    assert_eq!(result.symbols[0].kind, SymbolKind::new("class"));
    assert_eq!(result.symbols[0].visibility, Visibility::new("public"));
    assert_eq!(result.symbols[0].package, "com.foo");
    assert_eq!(result.symbols[0].qualified_name, "com.foo.UserService");
}

#[test]
fn test_extract_interface() {
    let result = parse_java("package com.foo;\n\npublic interface Repository {}");
    assert_eq!(result.symbols.len(), 1);
    assert_eq!(result.symbols[0].kind, SymbolKind::new("interface"));
}

#[test]
fn test_extract_enum() {
    let result = parse_java("package com.foo;\n\npublic enum Status { ACTIVE, INACTIVE }");
    assert_eq!(result.symbols.len(), 1);
    assert_eq!(result.symbols[0].kind, SymbolKind::new("enum"));
}

#[test]
fn test_extract_multiple_classes_in_file() {
    let source = "package com.foo;\n\npublic class Main {}\nclass Helper {}";
    let result = parse_java(source);
    assert_eq!(result.symbols.len(), 2);
    assert_eq!(result.symbols[0].name, "Main");
    assert_eq!(result.symbols[0].visibility, Visibility::new("public"));
    assert_eq!(result.symbols[1].name, "Helper");
    assert_eq!(result.symbols[1].visibility, Visibility::new("package-private"));
}

#[test]
fn test_no_package() {
    let result = parse_java("public class NoPackage {}");
    assert_eq!(result.symbols[0].package, "");
    assert_eq!(result.symbols[0].qualified_name, "NoPackage");
}

#[test]
fn test_extract_methods() {
    let source = "package com.foo;\npublic class Svc {\n  public void save(Person p) {}\n  private int count() { return 0; }\n}";
    let result = parse_java(source);
    assert_eq!(result.symbols.len(), 3); // class + 2 methods
    let save = &result.symbols[1];
    assert_eq!(save.name, "save");
    assert_eq!(save.signature, Some("save(Person)".to_string()));
    assert_eq!(save.kind, SymbolKind::new("method"));
    assert_eq!(save.parent_local_id, Some(0));
    let count = &result.symbols[2];
    assert_eq!(count.signature, Some("count()".to_string()));
    assert_eq!(count.visibility, Visibility::new("private"));
}

#[test]
fn test_extract_constructor() {
    let source = "package com.foo;\npublic class Svc {\n  public Svc(String name) {}\n}";
    let result = parse_java(source);
    assert_eq!(result.symbols.len(), 2);
    let ctor = &result.symbols[1];
    assert_eq!(ctor.name, "Svc");
    assert_eq!(ctor.kind, SymbolKind::new("constructor"));
    assert_eq!(ctor.signature, Some("Svc(String)".to_string()));
}

#[test]
fn test_extract_fields() {
    let source = "package com.foo;\npublic class Svc {\n  private String name;\n  protected int age;\n}";
    let result = parse_java(source);
    assert_eq!(result.symbols.len(), 3); // class + 2 fields
    let name_field = &result.symbols[1];
    assert_eq!(name_field.name, "name");
    assert_eq!(name_field.kind, SymbolKind::new("field"));
    assert_eq!(name_field.visibility, Visibility::new("private"));
}

#[test]
fn test_extract_extends() {
    let source = "package com.foo;\npublic class UserService extends BaseService {}";
    let result = parse_java(source);
    assert_eq!(result.relationships.len(), 1);
    assert_eq!(result.relationships[0].kind, RelationshipKind::Extends);
    assert_eq!(result.relationships[0].target_qualified_name, "com.foo.BaseService");
    assert_eq!(result.relationships[0].source_local_id, 0);
}

#[test]
fn test_extract_implements() {
    let source = "package com.foo;\npublic class UserService implements Repository, Serializable {}";
    let result = parse_java(source);
    let impls: Vec<_> = result.relationships.iter().filter(|r| r.kind == RelationshipKind::Implements).collect();
    assert_eq!(impls.len(), 2);
}

#[test]
fn test_extract_method_calls() {
    let source = "package com.foo;\npublic class Svc {\n  void doWork() {\n    repo.save(entity);\n    helper.process();\n  }\n}";
    let result = parse_java(source);
    let calls: Vec<_> = result.relationships.iter().filter(|r| r.kind == RelationshipKind::Calls).collect();
    assert!(calls.len() >= 2);
}

#[test]
fn test_extract_field_type() {
    let source = "package com.foo;\npublic class Svc {\n  private Repository repo;\n}";
    let result = parse_java(source);
    let field_types: Vec<_> = result.relationships.iter().filter(|r| r.kind == RelationshipKind::FieldType).collect();
    assert_eq!(field_types.len(), 1);
    assert_eq!(field_types[0].target_qualified_name, "com.foo.Repository");
}

#[test]
fn test_method_overloads() {
    let source = "package com.foo;\npublic class Svc {\n  void save(Person p) {}\n  void save(String s, int i) {}\n}";
    let result = parse_java(source);
    let methods: Vec<_> = result.symbols.iter().filter(|s| s.kind == SymbolKind::new("method")).collect();
    assert_eq!(methods.len(), 2);
    assert_eq!(methods[0].signature, Some("save(Person)".to_string()));
    assert_eq!(methods[1].signature, Some("save(String,int)".to_string()));
    assert_ne!(methods[0].qualified_name, methods[1].qualified_name);
}

#[test]
fn test_parse_imports_single_type() {
    let plugin = JavaPlugin;
    let source = "package com.bar;\nimport com.foo.Repository;\nimport com.foo.Person;\npublic class Svc {}";
    let root = parse_source(LanguageId::Java, source.as_bytes());
    let (import_map, wildcards) = parse_imports(&root, source.as_bytes());
    assert_eq!(lookup(&import_map, "Repository"), Some("com.foo.Repository".to_string()));
    assert_eq!(lookup(&import_map, "Person"), Some("com.foo.Person".to_string()));
    assert!(wildcards.is_empty());
}

#[test]
fn test_parse_imports_wildcard() {
    let plugin = JavaPlugin;
    let source = "package com.bar;\nimport com.foo.*;\npublic class Svc {}";
    let root = parse_source(LanguageId::Java, source.as_bytes());
    let (import_map, wildcards) = parse_imports(&root, source.as_bytes());
    assert!(import_map.is_empty());
    assert_eq!(wildcards, vec!["com.foo".to_string()]);
}

#[test]
fn test_parse_imports_static_ignored() {
    let plugin = JavaPlugin;
    let source = "package com.bar;\nimport static com.foo.Utils.helper;\npublic class Svc {}";
    let root = parse_source(LanguageId::Java, source.as_bytes());
    let (import_map, wildcards) = parse_imports(&root, source.as_bytes());
    assert!(import_map.is_empty());
    assert!(wildcards.is_empty());
}

#[test]
fn test_import_resolves_extends() {
    let source = "package com.bar;\nimport com.foo.BaseService;\npublic class UserService extends BaseService {}";
    let result = parse_java(source);
    assert_eq!(result.relationships.len(), 1);
    assert_eq!(result.relationships[0].target_qualified_name, "com.foo.BaseService");
}

#[test]
fn test_same_package_resolves_type() {
    let source = "package com.foo;\npublic class UserService extends BaseService {}";
    let result = parse_java(source);
    assert_eq!(result.relationships.len(), 1);
    assert_eq!(result.relationships[0].target_qualified_name, "com.foo.BaseService");
}

#[test]
fn test_import_resolves_field_type() {
    let source = "package com.bar;\nimport com.foo.Repository;\npublic class Svc {\n  private Repository repo;\n}";
    let result = parse_java(source);
    let field_types: Vec<_> = result.relationships.iter()
        .filter(|r| r.kind == RelationshipKind::FieldType).collect();
    assert_eq!(field_types.len(), 1);
    assert_eq!(field_types[0].target_qualified_name, "com.foo.Repository");
}

#[test]
fn test_wildcard_imports_returned() {
    let source = "package com.bar;\nimport com.foo.*;\npublic class Svc extends Base {}";
    let result = parse_java(source);
    assert_eq!(result.relationships[0].target_qualified_name, "com.bar.Base");
    assert_eq!(result.wildcard_imports, vec!["com.foo".to_string()]);
}

#[test]
fn test_method_calls_with_import_resolved_receiver() {
    let source = "package com.bar;\nimport com.foo.Repository;\npublic class Svc {\n  private Repository repo;\n  void work() { repo.save(); }\n}";
    let result = parse_java(source);
    let calls: Vec<_> = result.relationships.iter()
        .filter(|r| r.kind == RelationshipKind::Calls).collect();
    assert_eq!(calls.len(), 1);
    assert_eq!(calls[0].target_qualified_name, "com.foo.Repository.save");
}

#[test]
fn test_field_receiver_resolution() {
    let source = "package com.foo;\nimport com.bar.Repository;\npublic class Svc {\n  private Repository repo;\n  void work() { repo.save(); }\n}";
    let result = parse_java(source);
    let calls: Vec<_> = result.relationships.iter()
        .filter(|r| r.kind == RelationshipKind::Calls).collect();
    assert_eq!(calls.len(), 1);
    assert_eq!(calls[0].target_qualified_name, "com.bar.Repository.save");
}

#[test]
fn test_param_receiver_resolution() {
    let source = "package com.foo;\nimport com.bar.Repository;\npublic class Svc {\n  void work(Repository r) { r.save(); }\n}";
    let result = parse_java(source);
    let calls: Vec<_> = result.relationships.iter()
        .filter(|r| r.kind == RelationshipKind::Calls).collect();
    assert_eq!(calls.len(), 1);
    assert_eq!(calls[0].target_qualified_name, "com.bar.Repository.save");
}

#[test]
fn test_this_receiver_resolution() {
    let source = "package com.foo;\npublic class Svc {\n  void work() { this.save(); }\n  void save() {}\n}";
    let result = parse_java(source);
    let calls: Vec<_> = result.relationships.iter()
        .filter(|r| r.kind == RelationshipKind::Calls).collect();
    assert_eq!(calls.len(), 1);
    assert_eq!(calls[0].target_qualified_name, "com.foo.Svc.save");
}

#[test]
fn test_unqualified_call_resolution() {
    let source = "package com.foo;\npublic class Svc {\n  void work() { save(); }\n  void save() {}\n}";
    let result = parse_java(source);
    let calls: Vec<_> = result.relationships.iter()
        .filter(|r| r.kind == RelationshipKind::Calls).collect();
    assert_eq!(calls.len(), 1);
    assert_eq!(calls[0].target_qualified_name, "com.foo.Svc.save");
}

#[test]
fn test_unresolved_receiver_stays_simple() {
    let source = "package com.foo;\npublic class Svc {\n  void work() { unknown.save(); }\n}";
    let result = parse_java(source);
    let calls: Vec<_> = result.relationships.iter()
        .filter(|r| r.kind == RelationshipKind::Calls).collect();
    assert_eq!(calls.len(), 1);
    assert_eq!(calls[0].target_qualified_name, "save");
}

#[test]
fn test_no_package_no_qualification() {
    let source = "public class Svc extends Base {}";
    let result = parse_java(source);
    assert_eq!(result.relationships[0].target_qualified_name, "Base");
}

#[test]
fn test_field_type_text() {
    let source = "package com.foo;\nimport com.bar.Repository;\npublic class Svc {\n  private Repository repo;\n}";
    let result = parse_java(source);
    let field = result.symbols.iter().find(|s| s.kind == SymbolKind::new("field")).unwrap();
    assert_eq!(field.type_text, Some("com.bar.Repository".to_string()));
}

#[test]
fn test_method_return_type_text() {
    let source = "package com.foo;\nimport com.bar.Person;\npublic class Svc {\n  public Person findById(int id) { return null; }\n}";
    let result = parse_java(source);
    let method = result.symbols.iter().find(|s| s.kind == SymbolKind::new("method")).unwrap();
    assert_eq!(method.type_text, Some("com.bar.Person".to_string()));
}

#[test]
fn test_void_method_type_text_is_none() {
    let source = "package com.foo;\npublic class Svc {\n  public void save() {}\n}";
    let result = parse_java(source);
    let method = result.symbols.iter().find(|s| s.kind == SymbolKind::new("method")).unwrap();
    assert_eq!(method.type_text, None);
}

#[test]
fn test_constructor_type_text_is_none() {
    let source = "package com.foo;\npublic class Svc {\n  public Svc() {}\n}";
    let result = parse_java(source);
    let ctor = result.symbols.iter().find(|s| s.kind == SymbolKind::new("constructor")).unwrap();
    assert_eq!(ctor.type_text, None);
}

#[test]
fn test_inner_class_extracted() {
    let source = "package com.foo;\npublic class Outer {\n  public static class Inner {}\n}";
    let result = parse_java(source);
    assert_eq!(result.symbols.len(), 2);
    let inner = result.symbols.iter().find(|s| s.name == "Inner").unwrap();
    assert_eq!(inner.kind, SymbolKind::new("class"));
    assert_eq!(inner.qualified_name, "com.foo.Outer.Inner");
    assert_eq!(inner.parent_local_id, Some(0));
}

#[test]
fn test_deeply_nested_class() {
    let source = "package com.foo;\npublic class A {\n  class B {\n    class C {}\n  }\n}";
    let result = parse_java(source);
    assert_eq!(result.symbols.len(), 3);
    let b = result.symbols.iter().find(|s| s.name == "B").unwrap();
    assert_eq!(b.qualified_name, "com.foo.A.B");
    let c = result.symbols.iter().find(|s| s.name == "C").unwrap();
    assert_eq!(c.qualified_name, "com.foo.A.B.C");
}

#[test]
fn test_inner_class_members() {
    let source = "package com.foo;\npublic class Outer {\n  public static class Inner {\n    private String name;\n    public void doWork() {}\n  }\n}";
    let result = parse_java(source);
    let inner = result.symbols.iter().find(|s| s.name == "Inner").unwrap();
    let inner_id = inner.local_id;
    let field = result.symbols.iter().find(|s| s.name == "name").unwrap();
    assert_eq!(field.parent_local_id, Some(inner_id));
    let method = result.symbols.iter().find(|s| s.name == "doWork").unwrap();
    assert_eq!(method.parent_local_id, Some(inner_id));
    assert_eq!(method.qualified_name, "com.foo.Outer.Inner.doWork()");
}

#[test]
fn test_inner_interface_extracted() {
    let source = "package com.foo;\npublic class Outer {\n  public interface Callback {\n    void onComplete();\n  }\n}";
    let result = parse_java(source);
    let cb = result.symbols.iter().find(|s| s.name == "Callback").unwrap();
    assert_eq!(cb.kind, SymbolKind::new("interface"));
    assert_eq!(cb.qualified_name, "com.foo.Outer.Callback");
    let method = result.symbols.iter().find(|s| s.name == "onComplete").unwrap();
    assert_eq!(method.parent_local_id, Some(cb.local_id));
}

#[test]
fn test_inner_enum_extracted() {
    let source = "package com.foo;\npublic class Outer {\n  public enum Status { ACTIVE, INACTIVE }\n}";
    let result = parse_java(source);
    let status = result.symbols.iter().find(|s| s.name == "Status").unwrap();
    assert_eq!(status.kind, SymbolKind::new("enum"));
    assert_eq!(status.qualified_name, "com.foo.Outer.Status");
    assert_eq!(status.parent_local_id, Some(0));
}

#[test]
fn test_inner_class_extends_relationship() {
    let source = "package com.foo;\nimport com.bar.Base;\npublic class Outer {\n  public static class Inner extends Base {\n    private String name;\n  }\n}";
    let result = parse_java(source);
    let extends: Vec<_> = result.relationships.iter()
        .filter(|r| r.kind == RelationshipKind::Extends).collect();
    assert_eq!(extends.len(), 1);
    assert_eq!(extends[0].target_qualified_name, "com.bar.Base");
    let inner = result.symbols.iter().find(|s| s.name == "Inner").unwrap();
    assert_eq!(extends[0].source_local_id, inner.local_id);
}

#[test]
fn test_inner_class_field_type_relationship() {
    let source = "package com.foo;\nimport com.bar.Repo;\npublic class Outer {\n  public static class Inner {\n    private Repo repo;\n  }\n}";
    let result = parse_java(source);
    let field_types: Vec<_> = result.relationships.iter()
        .filter(|r| r.kind == RelationshipKind::FieldType).collect();
    assert_eq!(field_types.len(), 1);
    assert_eq!(field_types[0].target_qualified_name, "com.bar.Repo");
}

#[test]
fn test_inner_class_method_calls() {
    let source = "package com.foo;\nimport com.bar.Repo;\npublic class Outer {\n  public static class Inner {\n    private Repo repo;\n    void work() { repo.save(); }\n  }\n}";
    let result = parse_java(source);
    let calls: Vec<_> = result.relationships.iter()
        .filter(|r| r.kind == RelationshipKind::Calls).collect();
    assert_eq!(calls.len(), 1);
    assert_eq!(calls[0].target_qualified_name, "com.bar.Repo.save");
}

#[test]
fn test_annotation_on_class() {
    let source = "package com.foo;\nimport com.bar.Deprecated;\n@Deprecated\npublic class Svc {}";
    let result = parse_java(source);
    let annots: Vec<_> = result.relationships.iter()
        .filter(|r| r.kind == RelationshipKind::AnnotatedBy).collect();
    assert_eq!(annots.len(), 1);
    assert_eq!(annots[0].source_local_id, 0);
    assert_eq!(annots[0].target_qualified_name, "com.bar.Deprecated");
}

#[test]
fn test_annotation_on_method() {
    let source = "package com.foo;\npublic class Svc {\n  @Override\n  public void save() {}\n}";
    let result = parse_java(source);
    let annots: Vec<_> = result.relationships.iter()
        .filter(|r| r.kind == RelationshipKind::AnnotatedBy).collect();
    assert_eq!(annots.len(), 1);
    assert_eq!(annots[0].target_qualified_name, "com.foo.Override");
}

#[test]
fn test_annotation_on_constructor() {
    let source = "package com.foo;\nimport com.bar.Inject;\npublic class Svc {\n  @Inject\n  public Svc() {}\n}";
    let result = parse_java(source);
    let annots: Vec<_> = result.relationships.iter()
        .filter(|r| r.kind == RelationshipKind::AnnotatedBy).collect();
    assert_eq!(annots.len(), 1);
    assert_eq!(annots[0].target_qualified_name, "com.bar.Inject");
}

#[test]
fn test_annotation_on_field() {
    let source = "package com.foo;\nimport com.bar.Inject;\npublic class Svc {\n  @Inject\n  private String name;\n}";
    let result = parse_java(source);
    let annots: Vec<_> = result.relationships.iter()
        .filter(|r| r.kind == RelationshipKind::AnnotatedBy).collect();
    assert_eq!(annots.len(), 1);
    assert_eq!(annots[0].target_qualified_name, "com.bar.Inject");
}

#[test]
fn test_annotation_with_args() {
    let source = "package com.foo;\nimport com.bar.SuppressWarnings;\npublic class Svc {\n  @SuppressWarnings(\"unchecked\")\n  public void save() {}\n}";
    let result = parse_java(source);
    let annots: Vec<_> = result.relationships.iter()
        .filter(|r| r.kind == RelationshipKind::AnnotatedBy).collect();
    assert_eq!(annots.len(), 1);
    assert_eq!(annots[0].target_qualified_name, "com.bar.SuppressWarnings");
}

#[test]
fn test_multiple_annotations() {
    let source = "package com.foo;\npublic class Svc {\n  @Override\n  @Deprecated\n  public void save() {}\n}";
    let result = parse_java(source);
    let annots: Vec<_> = result.relationships.iter()
        .filter(|r| r.kind == RelationshipKind::AnnotatedBy).collect();
    assert_eq!(annots.len(), 2);
}

#[test]
fn test_annotation_on_param_attached_to_method() {
    let source = "package com.foo;\nimport com.bar.NotNull;\npublic class Svc {\n  public void save(@NotNull String s) {}\n}";
    let result = parse_java(source);
    let annots: Vec<_> = result.relationships.iter()
        .filter(|r| r.kind == RelationshipKind::AnnotatedBy).collect();
    assert_eq!(annots.len(), 1);
    let method = result.symbols.iter().find(|s| s.kind == SymbolKind::new("method")).unwrap();
    assert_eq!(annots[0].source_local_id, method.local_id);
    assert_eq!(annots[0].target_qualified_name, "com.bar.NotNull");
}

#[test]
fn mod_test_record_compact_constructor() {
    let source = "package com.foo;\npublic record Point(int x, int y) {\n  Point {\n    if (x < 0) throw new IllegalArgumentException();\n  }\n}";
    let result = parse_java(source);
    assert_eq!(result.symbols.len(), 2);
    let ctor = result.symbols.iter().find(|s| s.kind == SymbolKind::new("constructor")).unwrap();
    assert_eq!(ctor.name, "Point");
    assert_eq!(ctor.signature, Some("Point(int,int)".to_string()));
    assert_eq!(ctor.qualified_name, "com.foo.Point.Point(int,int)");
    assert_eq!(ctor.parent_local_id, Some(0));
}

#[test]
fn test_record_canonical_constructor() {
    let source = "package com.foo;\npublic record Point(int x, int y) {\n  Point(int x, int y) {\n    this.x = x;\n    this.y = y;\n  }\n}";
    let result = parse_java(source);
    assert_eq!(result.symbols.len(), 2);
    let ctor = result.symbols.iter().find(|s| s.kind == SymbolKind::new("constructor")).unwrap();
    assert_eq!(ctor.name, "Point");
    assert_eq!(ctor.signature, Some("Point(int,int)".to_string()));
    assert_eq!(ctor.qualified_name, "com.foo.Point.Point(int,int)");
}

#[test]
fn java_files_have_the_java_extension() {
    let p = JavaPlugin;
    assert_eq!(p.file_extensions(), vec!["java"]);
    assert!(p.can_handle("src/A.java"));
    assert!(!p.can_handle("src/a.go"));
}

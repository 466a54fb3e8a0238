use codix::plugin::{LanguageId, PluginRegistry};

#[test]
fn registry_holds_every_plugin() {
    let r = PluginRegistry::new();
    assert_eq!(r.all_language_names(), vec!["go", "java", "js", "python", "rust"]);
    assert_eq!(r.display_name_for("js"), "JavaScript");
    assert_eq!(r.display_name_for("cobol"), "cobol");
    let langs = vec!["rust".to_string(), "java".to_string(), "zig".to_string()];
    assert_eq!(r.plugins_for_languages(&langs), vec![LanguageId::Java, LanguageId::Rust]);
}

#[test]
fn plugins_handle_their_extensions() {
    assert!(LanguageId::Js.can_handle("a/b.mjs"));
    assert!(!LanguageId::Js.can_handle("a/b.java"));
    assert!(LanguageId::Python.can_handle("x.py"));
    assert!(!LanguageId::Go.can_handle("go"));
}

//! Java: type declarations (nested ones too) with their methods, constructors and fields, and
//! the relationships `extends`, `implements`, `field-type`, `calls` and `annotated-by`, with
//! type names resolved through the file's imports and package.
use vstd::prelude::*;
use crate::model::{ExtractedRelationship, ExtractedSymbol, ExtractionResult, RelationshipKind, Visibility};
use crate::plugin::{
    at_node, extension_in, extension_of, field_text, field_text_of, first_some_from, grew,
    language_extensions, lemma_symbols_from_next, lemma_symbols_from_none, lemma_symbols_view_push,
    node_symbol, opt_symbols, path_extension, relationship, relationships_wf, result_wf, symbol_at,
    symbol_view, symbols_from, symbols_view, symbols_wf, LanguageId, SymbolView, RelationshipView, rel,
    rels_over, relationships_view, relationship_view, lemma_relationships_view_push,
    lemma_rels_over_next, lemma_rels_over_none, lemma_member_qn,
};
use crate::syntax::{depth, field_child, kind_is, lemma_child_depth, line_number, node_text, text, to_line, SyntaxNode};
use crate::text::{
    after_last, before_first, concat, concat3, contains_seq, contains_str, dotted, join_strings,
    join_with, lookup, lookup_last, opt_view, pairs_view, prefix_before, str_eq,
    suffix_after_last, views, is_prefix,
};

verus! {

/// The Java plugin.
pub struct JavaPlugin;

impl JavaPlugin {
    pub fn name(&self) -> (r: &'static str)
        ensures
            r@ == "java"@,
    {
        "java"
    }

    pub fn display_name(&self) -> (r: &'static str)
        ensures
            r@ == "Java"@,
    {
        "Java"
    }

    /// The extensions of Java files.
    pub fn file_extensions(&self) -> (r: Vec<&'static str>)
        ensures
            r@.map_values(|e: &'static str| e@) == language_extensions(LanguageId::Java),
    {
        let r = vec!["java"];
        proof {
            assert(r@.map_values(|e: &'static str| e@) =~= seq!["java"@]);
        }
        r
    }

    /// Whether the file has the extension `java`.
    pub fn can_handle(&self, path: &str) -> (r: bool)
        ensures
            r == extension_in(path_extension(path@), language_extensions(LanguageId::Java)),
    {
        match extension_of(path) {
            Some(x) => {
                let r = str_eq(x.as_str(), "java");
                proof {
                    let exts = language_extensions(LanguageId::Java);
                    assert(exts[0] == "java"@);
                    if exts.contains(x@) {
                        let k = choose|k: int| 0 <= k < exts.len() && exts[k] == x@;
                        assert(k == 0);
                    }
                }
                r
            },
            None => false,
        }
    }

    /// Calls the grammar constant `tree_sitter_java::LANGUAGE`.
    #[verifier::external_body]
    pub fn tree_sitter_language(&self) -> tree_sitter::Language {
        tree_sitter_java::LANGUAGE.into()
    }

    /// The type declarations of the file with their members, then the relationships of the
    /// top-level types; the wildcard imports are handed on for later resolution.
    pub fn extract_symbols(&self, root: &SyntaxNode, source: &[u8]) -> (r: ExtractionResult)
        ensures
            result_wf(r),
            views(r.wildcard_imports@) == java_imports(root.children@, source@, root.children@.len() as int).1,
            symbols_view(r.symbols@) == java_symbols(*root, source@),
            relationships_view(r.relationships@) == java_relationships(*root, source@),
    {
        let package = find_package(root, source);
        let (import_map, wildcard_imports) = parse_imports(root, source);
        let ghost f = java_top_fn(source@, package@, pairs_view(import_map@));
        let ghost e = Seq::<SymbolView>::empty();
        let mut symbols: Vec<ExtractedSymbol> = Vec::new();
        let mut i: usize = 0;
        proof {
            assert(symbols_view(symbols@) =~= e);
            lemma_symbols_from_none(root.children@, 0, f, e);
        }
        while i < root.children.len()
            invariant
                i <= root.children.len(),
                symbols_wf(symbols@),
                f == java_top_fn(source@, package@, pairs_view(import_map@)),
                e == Seq::<SymbolView>::empty(),
                symbols_view(symbols@) == e + symbols_from(root.children@, i as int, 0, f),
            decreases root.children.len() - i,
        {
            let child = &root.children[i];
            let id = symbols.len();
            let ghost vb = symbols_view(symbols@);
            proof {
                lemma_symbols_from_next(root.children@, i as int, 0, f, e);
            }
            match extract_type_declaration(child, source, package.as_str(), id) {
                Some(type_symbol) => {
                    let qn = type_symbol.qualified_name.clone();
                    let pkg = type_symbol.package.clone();
                    let ghost head = vb + seq![symbol_view(type_symbol)];
                    proof {
                        lemma_symbols_view_push(symbols@, type_symbol);
                    }
                    symbols.push(type_symbol);
                    extract_members(child, source, qn.as_str(), pkg.as_str(), id, &import_map, &mut symbols);
                    proof {
                        let rest = java_members(*child, source@, qn@, pkg@, id as int, pairs_view(import_map@), id + 1);
                        assert(head + rest =~= vb + (seq![symbol_view(type_symbol)] + rest));
                    }
                },
                None => {},
            }
            i = i + 1;
        }
        proof {
            assert(e + symbols_from(root.children@, i as int, 0, f) =~= symbols_from(root.children@, i as int, 0, f));
        }
        let ghost sv = symbols_view(symbols@);
        let ghost tf = jv_top_fn(source@, sv, pairs_view(import_map@), package@);
        let ghost er = Seq::<RelationshipView>::empty();
        proof {
            assert(sv == java_symbols(*root, source@));
        }
        let mut relationships: Vec<ExtractedRelationship> = Vec::new();
        let mut j: usize = 0;
        proof {
            assert(relationships_view(relationships@) =~= er);
            lemma_rels_over_none(root.children@, tf, er);
        }
        while j < root.children.len()
            invariant
                j <= root.children.len(),
                symbols_wf(symbols@),
                relationships_wf(relationships@, symbols@.len()),
                sv == symbols_view(symbols@),
                tf == jv_top_fn(source@, sv, pairs_view(import_map@), package@),
                er == Seq::<RelationshipView>::empty(),
                relationships_view(relationships@) == er + rels_over(root.children@, j as int, tf),
            decreases root.children.len() - j,
        {
            let child = &root.children[j];
            proof {
                lemma_rels_over_next(root.children@, j as int, tf, er);
            }
            if is_type_declaration(child) {
                match field_text_of(child, "name", source) {
                    Some(n) => {
                        match find_top_level_symbol(&symbols, n.as_str()) {
                            Some(type_local_id) => {
                                extract_type_relationships(
                                    child,
                                    source,
                                    type_local_id,
                                    &symbols,
                                    &mut relationships,
                                    &import_map,
                                    package.as_str(),
                                );
                            },
                            None => {},
                        }
                    },
                    None => {},
                }
            }
            j = j + 1;
        }
        proof {
            assert(er + rels_over(root.children@, j as int, tf) =~= rels_over(root.children@, j as int, tf));
        }
        ExtractionResult { symbols, relationships, wildcard_imports }
    }
}

// ---------------------------------------------------------------------------------------------
// Package, imports and type names
// ---------------------------------------------------------------------------------------------

/// The package that a `package_declaration` names: its first identifier child with a text.
pub open spec fn package_part(c: SyntaxNode, source: Seq<u8>) -> Option<Seq<char>> {
    if kind_is(c, "scoped_identifier"@) || kind_is(c, "identifier"@) {
        node_text(c, source)
    } else {
        None
    }
}

pub open spec fn package_part_fn(source: Seq<u8>) -> spec_fn(SyntaxNode) -> Option<Seq<char>> {
    |c: SyntaxNode| package_part(c, source)
}

/// The package named by a top-level child, if it is a package declaration.
pub open spec fn package_of_decl(c: SyntaxNode, source: Seq<u8>) -> Option<Seq<char>> {
    if kind_is(c, "package_declaration"@) {
        first_some_from(c.children@, package_part_fn(source), 0)
    } else {
        None
    }
}

pub open spec fn package_of_decl_fn(source: Seq<u8>) -> spec_fn(SyntaxNode) -> Option<Seq<char>> {
    |c: SyntaxNode| package_of_decl(c, source)
}

/// The file's package: the first package declaration that names one; empty without one.
pub open spec fn java_package(root: SyntaxNode, source: Seq<u8>) -> Seq<char> {
    match first_some_from(root.children@, package_of_decl_fn(source), 0) {
        Some(p) => p,
        None => Seq::empty(),
    }
}

/// The package of the file.
pub fn find_package(root: &SyntaxNode, source: &[u8]) -> (r: String)
    ensures
        r@ == java_package(*root, source@),
{
    let ghost f = package_of_decl_fn(source@);
    let mut i: usize = 0;
    while i < root.children.len()
        invariant
            i <= root.children.len(),
            f == package_of_decl_fn(source@),
            first_some_from(root.children@, f, 0) == first_some_from(root.children@, f, i as int),
        decreases root.children.len() - i,
    {
        let child = &root.children[i];
        if child.is_kind("package_declaration") {
            let ghost g = package_part_fn(source@);
            let mut j: usize = 0;
            while j < child.children.len()
                invariant
                    j <= child.children.len(),
                    g == package_part_fn(source@),
                    f == package_of_decl_fn(source@),
                    kind_is(*child, "package_declaration"@),
                    i < root.children.len(),
                    *child == root.children@[i as int],
                    first_some_from(root.children@, f, 0) == first_some_from(root.children@, f, i as int),
                    first_some_from(child.children@, g, 0) == first_some_from(child.children@, g, j as int),
                decreases child.children.len() - j,
            {
                let pc = &child.children[j];
                if pc.is_kind("scoped_identifier") || pc.is_kind("identifier") {
                    match text(pc, source) {
                        Some(t) => {
                            proof {
                                assert(g(*pc) == Some(t@));
                                assert(first_some_from(child.children@, g, j as int) == Some(t@));
                                assert(f(*child) == Some(t@));
                                assert(first_some_from(root.children@, f, i as int) == Some(t@));
                            }
                            return t;
                        },
                        None => {},
                    }
                }
                proof {
                    assert(g(*pc) is None);
                }
                j = j + 1;
            }
            proof {
                assert(first_some_from(child.children@, g, j as int) is None);
                assert(f(*child) is None);
            }
        }
        proof {
            assert(f(*child) is None);
        }
        i = i + 1;
    }
    String::new()
}

/// What an import declaration brings: whether it ends in `*`, and the imported name (the
/// last identifier child). Static imports bring nothing.
pub open spec fn import_of(c: SyntaxNode, source: Seq<u8>) -> Option<(bool, Seq<char>)> {
    if !kind_is(c, "import_declaration"@) {
        None
    } else if contains_seq(
        match node_text(c, source) {
            Some(t) => t,
            None => Seq::empty(),
        },
        "static "@,
    ) {
        None
    } else {
        match last_import_name(c.children@, c.children@.len() as int) {
            Some(n) => match node_text(n, source) {
                Some(fqn) => Some((has_asterisk(c.children@, c.children@.len() as int), fqn)),
                None => None,
            },
            None => None,
        }
    }
}

/// Whether one of the first `k` children is an `asterisk`.
pub open spec fn has_asterisk(cs: Seq<SyntaxNode>, k: int) -> bool
    decreases k,
{
    if k <= 0 || k > cs.len() {
        false
    } else {
        kind_is(cs[k - 1], "asterisk"@) || has_asterisk(cs, k - 1)
    }
}

/// The last identifier among the first `k` children.
pub open spec fn last_import_name(cs: Seq<SyntaxNode>, k: int) -> Option<SyntaxNode>
    decreases k,
{
    if k <= 0 || k > cs.len() {
        None
    } else if kind_is(cs[k - 1], "scoped_identifier"@) || kind_is(cs[k - 1], "identifier"@) {
        Some(cs[k - 1])
    } else {
        last_import_name(cs, k - 1)
    }
}

/// The imports of the first `k` top-level children: the single-type imports as pairs of
/// simple name and full name, in order, and the packages imported with `*`.
pub open spec fn java_imports(cs: Seq<SyntaxNode>, source: Seq<u8>, k: int) -> (
    Seq<(Seq<char>, Seq<char>)>,
    Seq<Seq<char>>,
)
    decreases k,
{
    if k <= 0 || k > cs.len() {
        (Seq::empty(), Seq::empty())
    } else {
        let pre = java_imports(cs, source, k - 1);
        match import_of(cs[k - 1], source) {
            Some((true, fqn)) => (pre.0, pre.1.push(fqn)),
            Some((false, fqn)) => (pre.0.push((after_last(fqn, '.'), fqn)), pre.1),
            None => pre,
        }
    }
}

proof fn lemma_has_asterisk_step(cs: Seq<SyntaxNode>, k: int)
    requires
        0 <= k < cs.len(),
    ensures
        has_asterisk(cs, k + 1) == (kind_is(cs[k], "asterisk"@) || has_asterisk(cs, k)),
{
}

/// The imports of the file: single-type imports as (simple name, full name) pairs, where a
/// later import of the same simple name wins, and the packages imported with `*`.
pub fn parse_imports(root: &SyntaxNode, source: &[u8]) -> (r: (Vec<(String, String)>, Vec<String>))
    ensures
        pairs_view(r.0@) == java_imports(root.children@, source@, root.children@.len() as int).0,
        views(r.1@) == java_imports(root.children@, source@, root.children@.len() as int).1,
{
    let mut map: Vec<(String, String)> = Vec::new();
    let mut wildcards: Vec<String> = Vec::new();
    let mut i: usize = 0;
    while i < root.children.len()
        invariant
            i <= root.children.len(),
            pairs_view(map@) == java_imports(root.children@, source@, i as int).0,
            views(wildcards@) == java_imports(root.children@, source@, i as int).1,
        decreases root.children.len() - i,
    {
        let child = &root.children[i];
        let imp = import_declaration(child, source);
        match imp {
            Some((true, fqn)) => {
                proof {
                    assert(views(wildcards@.push(fqn)) =~= views(wildcards@).push(fqn@));
                }
                wildcards.push(fqn);
            },
            Some((false, fqn)) => {
                let simple = suffix_after_last(fqn.as_str(), '.');
                let pair = (simple, fqn);
                proof {
                    assert(pairs_view(map@.push(pair)) =~= pairs_view(map@).push((pair.0@, pair.1@)));
                }
                map.push(pair);
            },
            None => {},
        }
        i = i + 1;
    }
    (map, wildcards)
}

/// What one top-level child imports.
fn import_declaration(c: &SyntaxNode, source: &[u8]) -> (r: Option<(bool, String)>)
    ensures
        match import_of(*c, source@) {
            Some((w, fqn)) => r matches Some(p) && p.0 == w && p.1@ == fqn,
            None => r is None,
        },
{
    if !c.is_kind("import_declaration") {
        return None;
    }
    let t = match text(c, source) {
        Some(t) => t,
        None => String::new(),
    };
    if contains_str(t.as_str(), "static ") {
        return None;
    }
    let mut wildcard = false;
    let mut name: Option<&SyntaxNode> = None;
    let mut j: usize = 0;
    while j < c.children.len()
        invariant
            j <= c.children.len(),
            wildcard == has_asterisk(c.children@, j as int),
            match last_import_name(c.children@, j as int) {
                Some(n) => name == Some(&n),
                None => name is None,
            },
        decreases c.children.len() - j,
    {
        let ic = &c.children[j];
        proof {
            lemma_has_asterisk_step(c.children@, j as int);
        }
        if ic.is_kind("asterisk") {
            wildcard = true;
        }
        if ic.is_kind("scoped_identifier") || ic.is_kind("identifier") {
            name = Some(ic);
        }
        j = j + 1;
    }
    match name {
        Some(n) => match text(n, source) {
            Some(fqn) => Some((wildcard, fqn)),
            None => None,
        },
        None => None,
    }
}

/// A type name as written in the file (`simple`), resolved: by a single-type import of that
/// name, else in the file's package, else as it stands.
pub open spec fn resolve_type(simple: Seq<char>, imports: Seq<(Seq<char>, Seq<char>)>, package: Seq<char>) -> Seq<char> {
    match lookup_last(imports, simple) {
        Some(q) => q,
        None => if package.len() > 0 {
            package + "."@ + simple
        } else {
            simple
        },
    }
}

/// Resolves a type name through the imports and the package.
pub fn resolve_type_name(simple_name: &str, import_map: &Vec<(String, String)>, package: &str) -> (r: String)
    ensures
        r@ == resolve_type(simple_name@, pairs_view(import_map@), package@),
{
    match lookup(import_map, simple_name) {
        Some(q) => q,
        None => {
            if !package.is_empty() {
                dotted(package, simple_name)
            } else {
                simple_name.to_string()
            }
        },
    }
}

// ---------------------------------------------------------------------------------------------
// Symbols
// ---------------------------------------------------------------------------------------------

/// The symbol kind of a type declaration's node kind.
pub open spec fn java_type_kind(k: Seq<char>) -> Option<Seq<char>> {
    if k == "class_declaration"@ {
        Some("class"@)
    } else if k == "interface_declaration"@ {
        Some("interface"@)
    } else if k == "enum_declaration"@ {
        Some("enum"@)
    } else if k == "record_declaration"@ {
        Some("record"@)
    } else if k == "annotation_type_declaration"@ {
        Some("annotation"@)
    } else {
        None
    }
}

fn is_type_declaration(n: &SyntaxNode) -> (r: bool)
    ensures
        r == java_type_kind(n.kind@) is Some,
{
    n.is_kind("class_declaration") || n.is_kind("interface_declaration") || n.is_kind(
        "enum_declaration",
    ) || n.is_kind("record_declaration") || n.is_kind("annotation_type_declaration")
}

/// The visibility that a `modifiers` text gives: the first of `public`, `protected` and
/// `private` that it contains.
pub open spec fn visibility_in(t: Seq<char>) -> Option<Seq<char>> {
    if contains_seq(t, "public"@) {
        Some("public"@)
    } else if contains_seq(t, "protected"@) {
        Some("protected"@)
    } else if contains_seq(t, "private"@) {
        Some("private"@)
    } else {
        None
    }
}

pub open spec fn modifier_visibility(c: SyntaxNode, source: Seq<u8>) -> Option<Seq<char>> {
    if kind_is(c, "modifiers"@) {
        visibility_in(
            match node_text(c, source) {
                Some(t) => t,
                None => Seq::empty(),
            },
        )
    } else {
        None
    }
}

pub open spec fn modifier_visibility_fn(source: Seq<u8>) -> spec_fn(SyntaxNode) -> Option<Seq<char>> {
    |c: SyntaxNode| modifier_visibility(c, source)
}

/// The visibility of a declaration: from its modifiers, `package-private` without one.
pub open spec fn java_visibility(n: SyntaxNode, source: Seq<u8>) -> Seq<char> {
    match first_some_from(n.children@, modifier_visibility_fn(source), 0) {
        Some(v) => v,
        None => "package-private"@,
    }
}

/// The access word of a `modifiers` text: `public` wins over the others, `protected` over
/// `private`, and a text without any of the three gives none.
pub proof fn law_access_word(t: Seq<char>)
    ensures
        contains_seq(t, "public"@) ==> visibility_in(t) == Some("public"@),
        contains_seq(t, "protected"@) && !contains_seq(t, "public"@) ==> visibility_in(t) == Some("protected"@),
        contains_seq(t, "private"@) && !contains_seq(t, "public"@) && !contains_seq(t, "protected"@)
            ==> visibility_in(t) == Some("private"@),
        visibility_in(t) is None <==> !contains_seq(t, "public"@) && !contains_seq(t, "protected"@)
            && !contains_seq(t, "private"@),
{
}

proof fn lemma_first_some_at<T>(s: Seq<SyntaxNode>, f: spec_fn(SyntaxNode) -> Option<T>, i: int, j: int)
    requires
        0 <= j <= i < s.len(),
        forall|k: int| j <= k < i ==> f(#[trigger] s[k]) is None,
        f(s[i]) is Some,
    ensures
        first_some_from(s, f, j) == f(s[i]),
    decreases i - j,
{
    if j < i {
        lemma_first_some_at(s, f, i, j + 1);
    }
}

proof fn lemma_first_some_none<T>(s: Seq<SyntaxNode>, f: spec_fn(SyntaxNode) -> Option<T>, j: int)
    requires
        0 <= j,
    ensures
        first_some_from(s, f, j) is None <==> forall|k: int| j <= k < s.len() ==> f(#[trigger] s[k]) is None,
    decreases s.len() - j,
{
    if j < s.len() {
        lemma_first_some_none(s, f, j + 1);
        if f(s[j]) is None {
            assert forall|k: int| j <= k < s.len() && (forall|m: int| j + 1 <= m < s.len() ==> f(#[trigger] s[m]) is None)
                implies f(#[trigger] s[k]) is None by {
                if k > j {
                    assert(j + 1 <= k);
                }
            }
        }
    }
}

/// The text of the modifiers of a declaration, empty where it cannot be read.
pub open spec fn modifiers_text(c: SyntaxNode, source: Seq<u8>) -> Seq<char> {
    match node_text(c, source) {
        Some(t) => t,
        None => Seq::empty(),
    }
}

/// A declaration whose modifiers hold `protected` and not `public` is `protected`; one whose
/// modifiers hold `public` is `public`; one whose modifiers hold `private` alone is `private`.
pub proof fn law_declared_access(n: SyntaxNode, source: Seq<u8>, i: int)
    requires
        0 <= i < n.children@.len(),
        kind_is(n.children@[i], "modifiers"@),
        forall|j: int| 0 <= j < i ==> !kind_is(#[trigger] n.children@[j], "modifiers"@),
    ensures
        ({
            let t = modifiers_text(n.children@[i], source);
            &&& contains_seq(t, "public"@) ==> java_visibility(n, source) == "public"@
            &&& contains_seq(t, "protected"@) && !contains_seq(t, "public"@) ==> java_visibility(n, source)
                == "protected"@
            &&& contains_seq(t, "private"@) && !contains_seq(t, "public"@) && !contains_seq(t, "protected"@)
                ==> java_visibility(n, source) == "private"@
        }),
{
    let f = modifier_visibility_fn(source);
    let t = modifiers_text(n.children@[i], source);
    law_access_word(t);
    assert forall|k: int| 0 <= k < i implies f(#[trigger] n.children@[k]) is None by {}
    if visibility_in(t) is Some {
        lemma_first_some_at(n.children@, f, i, 0);
    }
}

/// A declaration is `package-private` exactly when no modifiers of it hold `public`,
/// `protected` or `private`.
pub proof fn law_package_private(n: SyntaxNode, source: Seq<u8>)
    ensures
        java_visibility(n, source) == "package-private"@ <==> forall|k: int|
            0 <= k < n.children@.len() && kind_is(#[trigger] n.children@[k], "modifiers"@) ==> {
                let t = modifiers_text(n.children@[k], source);
                !contains_seq(t, "public"@) && !contains_seq(t, "protected"@) && !contains_seq(t, "private"@)
            },
{
    let f = modifier_visibility_fn(source);
    lemma_first_some_none(n.children@, f, 0);
    assert forall|k: int| 0 <= k < n.children@.len() implies (f(#[trigger] n.children@[k]) is None <==> (kind_is(
        n.children@[k],
        "modifiers"@,
    ) ==> {
        let t = modifiers_text(n.children@[k], source);
        !contains_seq(t, "public"@) && !contains_seq(t, "protected"@) && !contains_seq(t, "private"@)
    })) by {
        law_access_word(modifiers_text(n.children@[k], source));
    }
    match first_some_from(n.children@, f, 0) {
        Some(v) => {
            // A visibility found is one of the three words, none of them `package-private`.
            assert(v == "public"@ || v == "protected"@ || v == "private"@) by {
                lemma_first_some_value(n.children@, f, 0);
            }
            reveal_strlit("public");
            reveal_strlit("protected");
            reveal_strlit("private");
            reveal_strlit("package-private");
            assert(v.len() != "package-private"@.len());
        },
        None => {},
    }
}

proof fn lemma_first_some_value(s: Seq<SyntaxNode>, f: spec_fn(SyntaxNode) -> Option<Seq<char>>, j: int)
    requires
        0 <= j,
        forall|c: SyntaxNode| #[trigger] f(c) matches Some(v) ==> (v == "public"@ || v == "protected"@ || v == "private"@),
    ensures
        first_some_from(s, f, j) matches Some(v) ==> (v == "public"@ || v == "protected"@ || v == "private"@),
    decreases s.len() - j,
{
    if j < s.len() {
        lemma_first_some_value(s, f, j + 1);
    }
}

/// The visibility of a declaration.
pub fn extract_visibility(node: &SyntaxNode, source: &[u8]) -> (r: Visibility)
    ensures
        r.0@ == java_visibility(*node, source@),
{
    let ghost f = modifier_visibility_fn(source@);
    let mut i: usize = 0;
    while i < node.children.len()
        invariant
            i <= node.children.len(),
            f == modifier_visibility_fn(source@),
            first_some_from(node.children@, f, 0) == first_some_from(node.children@, f, i as int),
        decreases node.children.len() - i,
    {
        let child = &node.children[i];
        if child.is_kind("modifiers") {
            let t = match text(child, source) {
                Some(t) => t,
                None => String::new(),
            };
            if contains_str(t.as_str(), "public") {
                return Visibility::new("public");
            }
            if contains_str(t.as_str(), "protected") {
                return Visibility::new("protected");
            }
            if contains_str(t.as_str(), "private") {
                return Visibility::new("private");
            }
        }
        i = i + 1;
    }
    Visibility::new("package-private")
}

/// A name qualified by a package, where there is one.
pub open spec fn in_package(package: Seq<char>, name: Seq<char>) -> Seq<char> {
    if package.len() == 0 {
        name
    } else {
        package + "."@ + name
    }
}

/// A type declaration: its kind, name, visibility and package; qualified by the package.
pub fn extract_type_declaration(node: &SyntaxNode, source: &[u8], package: &str, local_id: usize) -> (r: Option<ExtractedSymbol>)
    ensures
        match (java_type_kind(node.kind@), field_text(*node, "name"@, source@)) {
            (Some(k), Some(name)) => r matches Some(s) && s.local_id == local_id && s.name@ == name
                && s.signature is None && s.qualified_name@ == in_package(package@, name)
                && s.kind.0@ == k && s.visibility.0@ == java_visibility(*node, source@)
                && s.parent_local_id is None && s.package@ == package@ && s.type_text is None
                && at_node(s, *node),
            _ => r is None,
        },
        opt_symbols(r) == java_type_symbols(*node, source@, package@, local_id as int),
{
    let kind = if node.is_kind("class_declaration") {
        "class"
    } else if node.is_kind("interface_declaration") {
        "interface"
    } else if node.is_kind("enum_declaration") {
        "enum"
    } else if node.is_kind("record_declaration") {
        "record"
    } else if node.is_kind("annotation_type_declaration") {
        "annotation"
    } else {
        return None;
    };
    let name = match field_text_of(node, "name", source) {
        Some(n) => n,
        None => return None,
    };
    let visibility = extract_visibility(node, source);
    let qn = if package.is_empty() {
        name.clone()
    } else {
        dotted(package, name.as_str())
    };
    let mut s = symbol_at(node, local_id, name, None, qn, kind, "public", None, package.to_string(), None);
    s.visibility = visibility;
    Some(s)
}

/// The type of a parameter: its first named child, past the modifiers, that is not the
/// parameter's name and has a text.
pub open spec fn param_type_part(pc: SyntaxNode, source: Seq<u8>) -> Option<Seq<char>> {
    if !kind_is(pc, "modifiers"@) && pc.is_named && !kind_is(pc, "identifier"@) {
        node_text(pc, source)
    } else {
        None
    }
}

pub open spec fn param_type_part_fn(source: Seq<u8>) -> spec_fn(SyntaxNode) -> Option<Seq<char>> {
    |c: SyntaxNode| param_type_part(c, source)
}

/// Whether a node is a parameter.
pub open spec fn is_param(c: SyntaxNode) -> bool {
    kind_is(c, "formal_parameter"@) || kind_is(c, "spread_parameter"@)
}

/// The parameter types among the first `k` children of a `formal_parameters` node.
pub open spec fn param_types(cs: Seq<SyntaxNode>, source: Seq<u8>, k: int) -> Seq<Seq<char>>
    decreases k,
{
    if k <= 0 || k > cs.len() {
        Seq::empty()
    } else {
        let pre = param_types(cs, source, k - 1);
        if is_param(cs[k - 1]) {
            match first_some_from(cs[k - 1].children@, param_type_part_fn(source), 0) {
                Some(t) => pre.push(t),
                None => pre,
            }
        } else {
            pre
        }
    }
}

/// The parameter types of a `formal_parameters` node, joined by commas.
pub fn extract_formal_params(node: &SyntaxNode, source: &[u8]) -> (r: String)
    ensures
        r@ == join_with(param_types(node.children@, source@, node.children@.len() as int), ","@),
{
    let mut params: Vec<String> = Vec::new();
    let mut i: usize = 0;
    while i < node.children.len()
        invariant
            i <= node.children.len(),
            views(params@) == param_types(node.children@, source@, i as int),
        decreases node.children.len() - i,
    {
        let child = &node.children[i];
        if child.is_kind("formal_parameter") || child.is_kind("spread_parameter") {
            let ghost f = param_type_part_fn(source@);
            let mut j: usize = 0;
            let mut found: Option<String> = None;
            while j < child.children.len()
                invariant
                    j <= child.children.len(),
                    f == param_type_part_fn(source@),
                    found is None ==> first_some_from(child.children@, f, 0) == first_some_from(
                        child.children@,
                        f,
                        j as int,
                    ),
                    found matches Some(t) ==> first_some_from(child.children@, f, 0) == Some(t@),
                decreases child.children.len() - j,
            {
                let pc = &child.children[j];
                if found.is_none() && !pc.is_kind("modifiers") && pc.is_named && !pc.is_kind("identifier") {
                    found = text(pc, source);
                }
                j = j + 1;
            }
            match found {
                Some(t) => {
                    proof {
                        assert(views(params@.push(t)) =~= views(params@).push(t@));
                    }
                    params.push(t);
                },
                None => {},
            }
        }
        i = i + 1;
    }
    join_strings(&params, ",")
}

/// The parameter types of the first `formal_parameters` child of `owner`; empty without one.
pub open spec fn owner_param_types(owner: SyntaxNode, source: Seq<u8>) -> Seq<char> {
    match first_formal_parameters(owner.children@, 0) {
        Some(p) => join_with(param_types(p.children@, source, p.children@.len() as int), ","@),
        None => Seq::empty(),
    }
}

/// The first `formal_parameters` node among the children from `i` on.
pub open spec fn first_formal_parameters(cs: Seq<SyntaxNode>, i: int) -> Option<SyntaxNode>
    decreases cs.len() - i,
{
    if i < 0 || i >= cs.len() {
        None
    } else if kind_is(cs[i], "formal_parameters"@) {
        Some(cs[i])
    } else {
        first_formal_parameters(cs, i + 1)
    }
}

fn params_of(owner: &SyntaxNode, source: &[u8]) -> (r: String)
    ensures
        r@ == owner_param_types(*owner, source@),
{
    let mut i: usize = 0;
    while i < owner.children.len()
        invariant
            i <= owner.children.len(),
            first_formal_parameters(owner.children@, 0) == first_formal_parameters(
                owner.children@,
                i as int,
            ),
        decreases owner.children.len() - i,
    {
        if owner.children[i].is_kind("formal_parameters") {
            return extract_formal_params(&owner.children[i], source);
        }
        i = i + 1;
    }
    String::new()
}

/// The signature of a method or constructor: its name and parameter types.
pub open spec fn java_signature(name: Seq<char>, params: Seq<char>) -> Seq<char> {
    name + "("@ + params + ")"@
}

/// What a method's return type gives at one child: `Some(None)` for `void` and primitive
/// types, the type's base name for a class, array or generic type, `None` to look further.
pub open spec fn return_type_part(c: SyntaxNode, source: Seq<u8>) -> Option<Option<Seq<char>>> {
    if kind_is(c, "void_type"@) || kind_is(c, "integral_type"@) || kind_is(c, "floating_point_type"@)
        || kind_is(c, "boolean_type"@) {
        Some(None)
    } else if kind_is(c, "type_identifier"@) || kind_is(c, "generic_type"@) || kind_is(c, "array_type"@) {
        Some(
            match node_text(c, source) {
                Some(t) => Some(before_first(t, '<')),
                None => None,
            },
        )
    } else {
        None
    }
}

pub open spec fn return_type_part_fn(source: Seq<u8>) -> spec_fn(SyntaxNode) -> Option<Option<Seq<char>>> {
    |c: SyntaxNode| return_type_part(c, source)
}

/// The return type of a method, without type arguments; `None` for `void` and primitives.
pub open spec fn java_return_type(n: SyntaxNode, source: Seq<u8>) -> Option<Seq<char>> {
    match first_some_from(n.children@, return_type_part_fn(source), 0) {
        Some(t) => t,
        None => None,
    }
}

fn method_return_type(node: &SyntaxNode, source: &[u8]) -> (r: Option<String>)
    ensures
        opt_view(r) == java_return_type(*node, source@),
{
    let ghost f = return_type_part_fn(source@);
    let mut i: usize = 0;
    while i < node.children.len()
        invariant
            i <= node.children.len(),
            f == return_type_part_fn(source@),
            first_some_from(node.children@, f, 0) == first_some_from(node.children@, f, i as int),
        decreases node.children.len() - i,
    {
        let c = &node.children[i];
        if c.is_kind("void_type") || c.is_kind("integral_type") || c.is_kind("floating_point_type")
            || c.is_kind("boolean_type") {
            return None;
        }
        if c.is_kind("type_identifier") || c.is_kind("generic_type") || c.is_kind("array_type") {
            return match text(c, source) {
                Some(t) => Some(prefix_before(t.as_str(), '<')),
                None => None,
            };
        }
        i = i + 1;
    }
    None
}

/// What a field's type gives at one child: the base name of a class or generic type.
pub open spec fn field_type_part(c: SyntaxNode, source: Seq<u8>) -> Option<Option<Seq<char>>> {
    if kind_is(c, "type_identifier"@) || kind_is(c, "generic_type"@) {
        Some(
            match node_text(c, source) {
                Some(t) => Some(before_first(t, '<')),
                None => None,
            },
        )
    } else {
        None
    }
}

pub open spec fn field_type_part_fn(source: Seq<u8>) -> spec_fn(SyntaxNode) -> Option<Option<Seq<char>>> {
    |c: SyntaxNode| field_type_part(c, source)
}

/// The type of a field declaration, without type arguments; `None` for primitives.
pub open spec fn java_field_type(n: SyntaxNode, source: Seq<u8>) -> Option<Seq<char>> {
    match first_some_from(n.children@, field_type_part_fn(source), 0) {
        Some(t) => t,
        None => None,
    }
}

fn field_type_name(node: &SyntaxNode, source: &[u8]) -> (r: Option<String>)
    ensures
        opt_view(r) == java_field_type(*node, source@),
{
    let ghost f = field_type_part_fn(source@);
    let mut i: usize = 0;
    while i < node.children.len()
        invariant
            i <= node.children.len(),
            f == field_type_part_fn(source@),
            first_some_from(node.children@, f, 0) == first_some_from(node.children@, f, i as int),
        decreases node.children.len() - i,
    {
        let c = &node.children[i];
        if c.is_kind("type_identifier") || c.is_kind("generic_type") {
            return match text(c, source) {
                Some(t) => Some(prefix_before(t.as_str(), '<')),
                None => None,
            };
        }
        i = i + 1;
    }
    None
}

/// The type text of a member: a type resolved through the imports and the package.
pub open spec fn resolved_opt(t: Option<Seq<char>>, imports: Seq<(Seq<char>, Seq<char>)>, package: Seq<char>) -> Option<Seq<char>> {
    match t {
        Some(x) => Some(resolve_type(x, imports, package)),
        None => None,
    }
}

/// A method of a type: its signature of name and parameter types, qualified by the type,
/// and its return type resolved (none for constructors).
pub fn extract_method(
    node: &SyntaxNode,
    source: &[u8],
    parent_qualified_name: &str,
    package: &str,
    parent_local_id: usize,
    local_id: usize,
    kind: &str,
    import_map: &Vec<(String, String)>,
) -> (r: Option<ExtractedSymbol>)
    ensures
        match field_text(*node, "name"@, source@) {
            Some(name) => r matches Some(s) && s.local_id == local_id && s.name@ == name
                && opt_view(s.signature) == Some(java_signature(name, owner_param_types(*node, source@)))
                && s.qualified_name@ == parent_qualified_name@ + "."@ + java_signature(name, owner_param_types(*node, source@))
                && s.kind.0@ == kind@ && s.visibility.0@ == java_visibility(*node, source@)
                && s.parent_local_id == Some(parent_local_id) && s.package@ == package@
                && opt_view(s.type_text) == (if kind@ == "constructor"@ { None } else {
                    resolved_opt(java_return_type(*node, source@), pairs_view(import_map@), package@)
                }) && at_node(s, *node),
            None => r is None,
        },
        opt_symbols(r) == java_method_symbols(
            *node,
            source@,
            parent_qualified_name@,
            package@,
            parent_local_id as int,
            local_id as int,
            kind@,
            pairs_view(import_map@),
        ),
{
    let name = match field_text_of(node, "name", source) {
        Some(n) => n,
        None => return None,
    };
    let visibility = extract_visibility(node, source);
    let params = params_of(node, source);
    let signature = concat3(name.as_str(), "(", params.as_str());
    let signature = concat(signature.as_str(), ")");
    let qn = dotted(parent_qualified_name, signature.as_str());
    let type_text = if str_eq(kind, "constructor") {
        None
    } else {
        match method_return_type(node, source) {
            Some(t) => Some(resolve_type_name(t.as_str(), import_map, package)),
            None => None,
        }
    };
    let mut s = symbol_at(
        node,
        local_id,
        name,
        Some(signature),
        qn,
        kind,
        "public",
        Some(parent_local_id),
        package.to_string(),
        type_text,
    );
    s.visibility = visibility;
    Some(s)
}

/// A constructor of a type; a compact constructor takes its parameters from the record.
pub fn extract_constructor(
    node: &SyntaxNode,
    type_node: &SyntaxNode,
    source: &[u8],
    parent_qualified_name: &str,
    package: &str,
    parent_local_id: usize,
    local_id: usize,
) -> (r: Option<ExtractedSymbol>)
    ensures
        ({
            let owner = if kind_is(*node, "compact_constructor_declaration"@) { *type_node } else { *node };
            match field_text(*node, "name"@, source@) {
                Some(name) => r matches Some(s) && s.local_id == local_id && s.name@ == name
                    && opt_view(s.signature) == Some(java_signature(name, owner_param_types(owner, source@)))
                    && s.qualified_name@ == parent_qualified_name@ + "."@ + java_signature(name, owner_param_types(owner, source@))
                    && s.kind.0@ == "constructor"@ && s.visibility.0@ == java_visibility(*node, source@)
                    && s.parent_local_id == Some(parent_local_id) && s.package@ == package@
                    && s.type_text is None && at_node(s, *node),
                None => r is None,
            }
        }),
        opt_symbols(r) == java_constructor_symbols(
            *node,
            *type_node,
            source@,
            parent_qualified_name@,
            package@,
            parent_local_id as int,
            local_id as int,
        ),
{
    let name = match field_text_of(node, "name", source) {
        Some(n) => n,
        None => return None,
    };
    let visibility = extract_visibility(node, source);
    let params = if node.is_kind("compact_constructor_declaration") {
        params_of(type_node, source)
    } else {
        params_of(node, source)
    };
    let signature = concat3(name.as_str(), "(", params.as_str());
    let signature = concat(signature.as_str(), ")");
    let qn = dotted(parent_qualified_name, signature.as_str());
    let mut s = symbol_at(
        node,
        local_id,
        name,
        Some(signature),
        qn,
        "constructor",
        "public",
        Some(parent_local_id),
        package.to_string(),
        None,
    );
    s.visibility = visibility;
    Some(s)
}

/// The first `variable_declarator` among the children from `i` on.
pub open spec fn first_declarator(cs: Seq<SyntaxNode>, i: int) -> Option<SyntaxNode>
    decreases cs.len() - i,
{
    if i < 0 || i >= cs.len() {
        None
    } else if kind_is(cs[i], "variable_declarator"@) {
        Some(cs[i])
    } else {
        first_declarator(cs, i + 1)
    }
}

fn first_declarator_of(node: &SyntaxNode) -> (r: Option<&SyntaxNode>)
    ensures
        match first_declarator(node.children@, 0) {
            Some(d) => r == Some(&d),
            None => r is None,
        },
{
    let mut i: usize = 0;
    while i < node.children.len()
        invariant
            i <= node.children.len(),
            first_declarator(node.children@, 0) == first_declarator(node.children@, i as int),
        decreases node.children.len() - i,
    {
        if node.children[i].is_kind("variable_declarator") {
            return Some(&node.children[i]);
        }
        i = i + 1;
    }
    None
}

/// The name of a field declaration: that of its first declarator.
pub open spec fn java_field_name(n: SyntaxNode, source: Seq<u8>) -> Option<Seq<char>> {
    match first_declarator(n.children@, 0) {
        Some(d) => field_text(d, "name"@, source),
        None => None,
    }
}

/// A field of a type, with its type resolved.
pub fn extract_field(
    node: &SyntaxNode,
    source: &[u8],
    parent_qualified_name: &str,
    package: &str,
    parent_local_id: usize,
    local_id: usize,
    import_map: &Vec<(String, String)>,
) -> (r: Option<ExtractedSymbol>)
    ensures
        match java_field_name(*node, source@) {
            Some(name) => r matches Some(s) && s.local_id == local_id && s.name@ == name
                && s.signature is None && s.qualified_name@ == parent_qualified_name@ + "."@ + name
                && s.kind.0@ == "field"@ && s.visibility.0@ == java_visibility(*node, source@)
                && s.parent_local_id == Some(parent_local_id) && s.package@ == package@
                && opt_view(s.type_text) == resolved_opt(java_field_type(*node, source@), pairs_view(import_map@), package@)
                && at_node(s, *node),
            None => r is None,
        },
        opt_symbols(r) == java_field_symbols(
            *node,
            source@,
            parent_qualified_name@,
            package@,
            parent_local_id as int,
            local_id as int,
            pairs_view(import_map@),
        ),
{
    let name = match first_declarator_of(node) {
        Some(d) => field_text_of(d, "name", source),
        None => None,
    };
    let name = match name {
        Some(n) => n,
        None => return None,
    };
    let visibility = extract_visibility(node, source);
    let qn = dotted(parent_qualified_name, name.as_str());
    let type_text = match field_type_name(node, source) {
        Some(t) => Some(resolve_type_name(t.as_str(), import_map, package)),
        None => None,
    };
    let mut s = symbol_at(
        node,
        local_id,
        name,
        None,
        qn,
        "field",
        "public",
        Some(parent_local_id),
        package.to_string(),
        type_text,
    );
    s.visibility = visibility;
    Some(s)
}

/// The body kind of a type declaration kind.
pub open spec fn java_body_kind(k: Seq<char>) -> Option<Seq<char>> {
    if k == "class_declaration"@ || k == "record_declaration"@ {
        Some("class_body"@)
    } else if k == "interface_declaration"@ {
        Some("interface_body"@)
    } else if k == "enum_declaration"@ {
        Some("enum_body"@)
    } else if k == "annotation_type_declaration"@ {
        Some("annotation_type_body"@)
    } else {
        None
    }
}

// ---------------------------------------------------------------------------------------------
// The symbols of a file
// ---------------------------------------------------------------------------------------------

/// The symbols of a file: each top-level type declaration, then its members.
pub open spec fn java_symbols(root: SyntaxNode, source: Seq<u8>) -> Seq<SymbolView> {
    symbols_from(
        root.children@,
        root.children@.len() as int,
        0,
        java_top_fn(source, java_package(root, source), java_imports(root.children@, source, root.children@.len() as int).0),
    )
}

pub open spec fn java_top_fn(source: Seq<u8>, package: Seq<char>, imports: Seq<(Seq<char>, Seq<char>)>) -> spec_fn(
    SyntaxNode,
    int,
) -> Seq<SymbolView> {
    |c: SyntaxNode, id: int|
        match (java_type_kind(c.kind@), field_text(c, "name"@, source)) {
            (Some(_), Some(name)) => java_type_symbols(c, source, package, id) + java_members(
                c,
                source,
                in_package(package, name),
                package,
                id,
                imports,
                id + 1,
            ),
            _ => Seq::empty(),
        }
}

/// The symbol of a named type declaration, qualified by the package.
pub open spec fn java_type_symbols(n: SyntaxNode, source: Seq<u8>, package: Seq<char>, id: int) -> Seq<SymbolView> {
    match (java_type_kind(n.kind@), field_text(n, "name"@, source)) {
        (Some(k), Some(name)) => seq![
            node_symbol(n, id, name, None, in_package(package, name), k, java_visibility(n, source), None, package, None),
        ],
        _ => Seq::empty(),
    }
}

/// The index of the first of the nodes from `i` on whose kind is `k`.
pub open spec fn first_kind_index(cs: Seq<SyntaxNode>, k: Seq<char>, i: int) -> Option<int>
    decreases cs.len() - i,
{
    if i < 0 || i >= cs.len() {
        None
    } else if kind_is(cs[i], k) {
        Some(i)
    } else {
        first_kind_index(cs, k, i + 1)
    }
}

pub proof fn lemma_first_kind_index(cs: Seq<SyntaxNode>, k: Seq<char>, i: int)
    requires
        0 <= i,
    ensures
        first_kind_index(cs, k, i) matches Some(j) ==> i <= j < cs.len() && kind_is(cs[j], k),
    decreases cs.len() - i,
{
    if i < cs.len() {
        lemma_first_kind_index(cs, k, i + 1);
    }
}

/// The symbols of the members of a type declaration: those of the members of its body (the
/// first child of the body kind), from number `start` on.
pub open spec fn java_members(
    type_node: SyntaxNode,
    source: Seq<u8>,
    parent_qn: Seq<char>,
    package: Seq<char>,
    parent_id: int,
    imports: Seq<(Seq<char>, Seq<char>)>,
    start: int,
) -> Seq<SymbolView>
    decreases depth(type_node), 0int,
{
    match java_body_kind(type_node.kind@) {
        Some(bk) => match first_kind_index(type_node.children@, bk, 0) {
            Some(b) => {
                proof {
                    lemma_first_kind_index(type_node.children@, bk, 0);
                    lemma_child_depth(type_node, b);
                }
                let body = type_node.children@[b];
                java_body_members(body, type_node, source, parent_qn, package, parent_id, imports, start, body.children@.len() as int)
            },
            None => Seq::empty(),
        },
        None => Seq::empty(),
    }
}

/// The symbols of the first `k` members of a type body, from number `start` on.
pub open spec fn java_body_members(
    body: SyntaxNode,
    type_node: SyntaxNode,
    source: Seq<u8>,
    parent_qn: Seq<char>,
    package: Seq<char>,
    parent_id: int,
    imports: Seq<(Seq<char>, Seq<char>)>,
    start: int,
    k: int,
) -> Seq<SymbolView>
    decreases depth(body), k,
{
    if k <= 0 || k > body.children@.len() {
        Seq::empty()
    } else {
        let prev = java_body_members(body, type_node, source, parent_qn, package, parent_id, imports, start, k - 1);
        proof {
            lemma_child_depth(body, k - 1);
        }
        prev + java_member_symbols(
            body.children@[k - 1],
            type_node,
            source,
            parent_qn,
            package,
            parent_id,
            imports,
            start + prev.len(),
        )
    }
}

/// The symbols of one member of a type: a method, a constructor, a field, or a nested type
/// with its own members (qualified by the enclosing type).
pub open spec fn java_member_symbols(
    m: SyntaxNode,
    type_node: SyntaxNode,
    source: Seq<u8>,
    parent_qn: Seq<char>,
    package: Seq<char>,
    parent_id: int,
    imports: Seq<(Seq<char>, Seq<char>)>,
    id: int,
) -> Seq<SymbolView>
    decreases depth(m), 1int,
{
    if kind_is(m, "method_declaration"@) {
        java_method_symbols(m, source, parent_qn, package, parent_id, id, "method"@, imports)
    } else if kind_is(m, "constructor_declaration"@) || kind_is(m, "compact_constructor_declaration"@) {
        java_constructor_symbols(m, type_node, source, parent_qn, package, parent_id, id)
    } else if kind_is(m, "field_declaration"@) {
        java_field_symbols(m, source, parent_qn, package, parent_id, id, imports)
    } else {
        match (java_type_kind(m.kind@), field_text(m, "name"@, source)) {
            (Some(k), Some(name)) => seq![
                node_symbol(m, id, name, None, parent_qn + "."@ + name, k, java_visibility(m, source), Some(parent_id), package, None),
            ] + java_members(m, source, parent_qn + "."@ + name, package, id, imports, id + 1),
            _ => Seq::empty(),
        }
    }
}

/// Every member of a type (method, constructor, field or nested type) is declared below the
/// type: its symbol's parent is the type, and its qualified name is the type's qualified name,
/// a dot, and the member's name or signature.
pub proof fn law_member_qualified_below_type(
    m: SyntaxNode,
    type_node: SyntaxNode,
    source: Seq<u8>,
    parent_qn: Seq<char>,
    package: Seq<char>,
    parent_id: int,
    imports: Seq<(Seq<char>, Seq<char>)>,
    id: int,
)
    ensures
        ({
            let s = java_member_symbols(m, type_node, source, parent_qn, package, parent_id, imports, id);
            s.len() > 0 ==> {
                &&& s[0].local_id == id
                &&& s[0].parent_local_id == Some(parent_id)
                &&& is_prefix(parent_qn + "."@, s[0].qualified_name)
            }
        }),
{
    let s = java_member_symbols(m, type_node, source, parent_qn, package, parent_id, imports, id);
    if s.len() > 0 {
        if kind_is(m, "method_declaration"@) {
            let name = field_text(m, "name"@, source)->0;
            lemma_member_qn(parent_qn, java_signature(name, owner_param_types(m, source)));
        } else if kind_is(m, "constructor_declaration"@) || kind_is(m, "compact_constructor_declaration"@) {
            let owner = if kind_is(m, "compact_constructor_declaration"@) {
                type_node
            } else {
                m
            };
            let name = field_text(m, "name"@, source)->0;
            lemma_member_qn(parent_qn, java_signature(name, owner_param_types(owner, source)));
        } else if kind_is(m, "field_declaration"@) {
            lemma_member_qn(parent_qn, java_field_name(m, source)->0);
        } else {
            lemma_member_qn(parent_qn, field_text(m, "name"@, source)->0);
        }
    }
}

/// The symbol of a named method: its signature of name and parameter types, qualified by the
/// type, and its return type resolved (none for a constructor).
pub open spec fn java_method_symbols(
    m: SyntaxNode,
    source: Seq<u8>,
    parent_qn: Seq<char>,
    package: Seq<char>,
    parent_id: int,
    id: int,
    kind: Seq<char>,
    imports: Seq<(Seq<char>, Seq<char>)>,
) -> Seq<SymbolView> {
    match field_text(m, "name"@, source) {
        Some(name) => {
            let sig = java_signature(name, owner_param_types(m, source));
            seq![
                node_symbol(
                    m,
                    id,
                    name,
                    Some(sig),
                    parent_qn + "."@ + sig,
                    kind,
                    java_visibility(m, source),
                    Some(parent_id),
                    package,
                    if kind == "constructor"@ {
                        None
                    } else {
                        resolved_opt(java_return_type(m, source), imports, package)
                    },
                ),
            ]
        },
        None => Seq::empty(),
    }
}

/// The symbol of a named constructor; a compact constructor takes its parameters from the
/// record `type_node`.
pub open spec fn java_constructor_symbols(
    m: SyntaxNode,
    type_node: SyntaxNode,
    source: Seq<u8>,
    parent_qn: Seq<char>,
    package: Seq<char>,
    parent_id: int,
    id: int,
) -> Seq<SymbolView> {
    let owner = if kind_is(m, "compact_constructor_declaration"@) {
        type_node
    } else {
        m
    };
    match field_text(m, "name"@, source) {
        Some(name) => {
            let sig = java_signature(name, owner_param_types(owner, source));
            seq![
                node_symbol(
                    m,
                    id,
                    name,
                    Some(sig),
                    parent_qn + "."@ + sig,
                    "constructor"@,
                    java_visibility(m, source),
                    Some(parent_id),
                    package,
                    None,
                ),
            ]
        },
        None => Seq::empty(),
    }
}

/// The symbol of a field declaration, named by its first declarator, with its type resolved.
pub open spec fn java_field_symbols(
    m: SyntaxNode,
    source: Seq<u8>,
    parent_qn: Seq<char>,
    package: Seq<char>,
    parent_id: int,
    id: int,
    imports: Seq<(Seq<char>, Seq<char>)>,
) -> Seq<SymbolView> {
    match java_field_name(m, source) {
        Some(name) => seq![
            node_symbol(
                m,
                id,
                name,
                None,
                parent_qn + "."@ + name,
                "field"@,
                java_visibility(m, source),
                Some(parent_id),
                package,
                resolved_opt(java_field_type(m, source), imports, package),
            ),
        ],
        None => Seq::empty(),
    }
}

/// The members of a type declaration's body: methods, constructors, fields and nested types
/// (with their own members), each a child of the type.
fn extract_members(
    type_node: &SyntaxNode,
    source: &[u8],
    parent_qualified_name: &str,
    package: &str,
    parent_local_id: usize,
    import_map: &Vec<(String, String)>,
    symbols: &mut Vec<ExtractedSymbol>,
)
    requires
        symbols_wf(old(symbols)@),
        parent_local_id < old(symbols)@.len(),
    ensures
        grew(old(symbols)@, final(symbols)@),
        symbols_wf(final(symbols)@),
        forall|k: int|
            old(symbols)@.len() <= k < final(symbols)@.len() ==> (#[trigger] final(symbols)@[k]).parent_local_id
                is Some,
        symbols_view(final(symbols)@) == symbols_view(old(symbols)@) + java_members(
            *type_node,
            source@,
            parent_qualified_name@,
            package@,
            parent_local_id as int,
            pairs_view(import_map@),
            old(symbols)@.len() as int,
        ),
    decreases depth(*type_node),
{
    let ghost imports = pairs_view(import_map@);
    let ghost v0 = symbols_view(old(symbols)@);
    let ghost n0 = old(symbols)@.len() as int;
    proof {
        assert(v0 + Seq::<SymbolView>::empty() =~= v0);
    }
    let body_kind = if type_node.is_kind("class_declaration") || type_node.is_kind("record_declaration") {
        "class_body"
    } else if type_node.is_kind("interface_declaration") {
        "interface_body"
    } else if type_node.is_kind("enum_declaration") {
        "enum_body"
    } else if type_node.is_kind("annotation_type_declaration") {
        "annotation_type_body"
    } else {
        return;
    };
    proof {
        assert(java_body_kind(type_node.kind@) == Some(body_kind@));
    }
    let mut i: usize = 0;
    while i < type_node.children.len()
        invariant
            i <= type_node.children.len(),
            parent_local_id < old(symbols)@.len(),
            symbols@ == old(symbols)@,
            symbols_wf(symbols@),
            java_body_kind(type_node.kind@) == Some(body_kind@),
            first_kind_index(type_node.children@, body_kind@, 0) == first_kind_index(
                type_node.children@,
                body_kind@,
                i as int,
            ),
            imports == pairs_view(import_map@),
            v0 == symbols_view(old(symbols)@),
            n0 == old(symbols)@.len(),
        decreases type_node.children.len() - i,
    {
        let child = &type_node.children[i];
        if child.is_kind(body_kind) {
            proof {
                assert(first_kind_index(type_node.children@, body_kind@, 0) == Some(i as int));
                assert(v0 + java_body_members(*child, *type_node, source@, parent_qualified_name@, package@, parent_local_id as int, imports, n0, 0) =~= v0);
            }
            let mut j: usize = 0;
            while j < child.children.len()
                invariant
                    j <= child.children.len(),
                    i < type_node.children.len(),
                    *child == type_node.children@[i as int],
                    parent_local_id < old(symbols)@.len(),
                    grew(old(symbols)@, symbols@),
                    symbols_wf(symbols@),
                    forall|k: int|
                        old(symbols)@.len() <= k < symbols@.len() ==> (#[trigger] symbols@[k]).parent_local_id
                            is Some,
                    imports == pairs_view(import_map@),
                    v0 == symbols_view(old(symbols)@),
                    n0 == old(symbols)@.len(),
                    symbols_view(symbols@) == v0 + java_body_members(
                        *child,
                        *type_node,
                        source@,
                        parent_qualified_name@,
                        package@,
                        parent_local_id as int,
                        imports,
                        n0,
                        j as int,
                    ),
                decreases child.children.len() - j,
            {
                let member = &child.children[j];
                let local_id = symbols.len();
                let ghost prev = java_body_members(
                    *child,
                    *type_node,
                    source@,
                    parent_qualified_name@,
                    package@,
                    parent_local_id as int,
                    imports,
                    n0,
                    j as int,
                );
                let ghost vb = symbols_view(symbols@);
                proof {
                    lemma_child_depth(*type_node, i as int);
                    lemma_child_depth(*child, j as int);
                    assert(vb.len() == local_id);
                    assert(local_id == n0 + prev.len());
                    assert(*member == child.children@[j as int]);
                }
                let ghost m = java_member_symbols(
                    *member,
                    *type_node,
                    source@,
                    parent_qualified_name@,
                    package@,
                    parent_local_id as int,
                    imports,
                    local_id as int,
                );
                if member.is_kind("method_declaration") {
                    match extract_method(
                        member,
                        source,
                        parent_qualified_name,
                        package,
                        parent_local_id,
                        local_id,
                        "method",
                        import_map,
                    ) {
                        Some(s) => {
                            proof {
                                lemma_symbols_view_push(symbols@, s);
                            }
                            symbols.push(s);
                        },
                        None => {},
                    }
                } else if member.is_kind("constructor_declaration") || member.is_kind(
                    "compact_constructor_declaration",
                ) {
                    match extract_constructor(
                        member,
                        type_node,
                        source,
                        parent_qualified_name,
                        package,
                        parent_local_id,
                        local_id,
                    ) {
                        Some(s) => {
                            proof {
                                lemma_symbols_view_push(symbols@, s);
                            }
                            symbols.push(s);
                        },
                        None => {},
                    }
                } else if member.is_kind("field_declaration") {
                    match extract_field(
                        member,
                        source,
                        parent_qualified_name,
                        package,
                        parent_local_id,
                        local_id,
                        import_map,
                    ) {
                        Some(s) => {
                            proof {
                                lemma_symbols_view_push(symbols@, s);
                            }
                            symbols.push(s);
                        },
                        None => {},
                    }
                } else if is_type_declaration(member) {
                    match extract_type_declaration(member, source, package, local_id) {
                        Some(nested) => {
                            let mut nested = nested;
                            let nqn = dotted(parent_qualified_name, nested.name.as_str());
                            nested.qualified_name = nqn.clone();
                            nested.parent_local_id = Some(parent_local_id);
                            let ghost head = vb + seq![symbol_view(nested)];
                            proof {
                                lemma_symbols_view_push(symbols@, nested);
                            }
                            symbols.push(nested);
                            extract_members(
                                member,
                                source,
                                nqn.as_str(),
                                package,
                                local_id,
                                import_map,
                                symbols,
                            );
                            proof {
                                let rest = java_members(*member, source@, nqn@, package@, local_id as int, imports, local_id + 1);
                                assert(head + rest =~= vb + (seq![symbol_view(nested)] + rest));
                            }
                        },
                        None => {},
                    }
                }
                proof {
                    if symbols_view(symbols@) == vb + Seq::<SymbolView>::empty() {
                        assert(vb + Seq::<SymbolView>::empty() =~= vb);
                    }
                    assert((v0 + prev) + m =~= v0 + (prev + m));
                }
                j = j + 1;
            }
            return;
        }
        i = i + 1;
    }
}

// ---------------------------------------------------------------------------------------------
// The relationships of a file
// ---------------------------------------------------------------------------------------------

/// The relationships of a file: for each top-level type declaration with a symbol, those of
/// the type. They are read against the file's symbols `syms`.
pub open spec fn java_relationships(root: SyntaxNode, source: Seq<u8>) -> Seq<RelationshipView> {
    rels_over(
        root.children@,
        root.children@.len() as int,
        jv_top_fn(
            source,
            java_symbols(root, source),
            java_imports(root.children@, source, root.children@.len() as int).0,
            java_package(root, source),
        ),
    )
}

pub open spec fn jv_top_fn(
    source: Seq<u8>,
    syms: Seq<SymbolView>,
    imports: Seq<(Seq<char>, Seq<char>)>,
    package: Seq<char>,
) -> spec_fn(SyntaxNode) -> Seq<RelationshipView> {
    |c: SyntaxNode|
        if java_type_kind(c.kind@) is Some {
            match field_text(c, "name"@, source) {
                Some(n) => match jv_first_top_level(syms, n, 0) {
                    Some(tid) => jv_type_rels(c, source, tid, syms, imports, package),
                    None => Seq::empty(),
                },
                None => Seq::empty(),
            }
        } else {
            Seq::empty()
        }
}

/// The index of the first symbol from `i` on that is at the top level and called `name`.
pub open spec fn jv_first_top_level(syms: Seq<SymbolView>, name: Seq<char>, i: int) -> Option<int>
    decreases syms.len() - i,
{
    if i < 0 || i >= syms.len() {
        None
    } else if syms[i].name == name && syms[i].parent_local_id is None {
        Some(i)
    } else {
        jv_first_top_level(syms, name, i + 1)
    }
}

/// The index of the first symbol from `i` on called `name` whose parent is `parent`.
pub open spec fn jv_member_type(syms: Seq<SymbolView>, name: Seq<char>, parent: int, i: int) -> Option<int>
    decreases syms.len() - i,
{
    if i < 0 || i >= syms.len() {
        None
    } else if syms[i].name == name && syms[i].parent_local_id == Some(parent) {
        Some(i)
    } else {
        jv_member_type(syms, name, parent, i + 1)
    }
}

pub open spec fn jv_annotation_fn(
    source: Seq<u8>,
    id: int,
    imports: Seq<(Seq<char>, Seq<char>)>,
    package: Seq<char>,
) -> spec_fn(SyntaxNode) -> Seq<RelationshipView> {
    |mc: SyntaxNode|
        if kind_is(mc, "marker_annotation"@) || kind_is(mc, "annotation"@) {
            match annotation_name_from(mc.children@, source, 0) {
                Some(name) => seq![rel(id, resolve_type(name, imports, package), RelationshipKind::AnnotatedBy)],
                None => Seq::empty(),
            }
        } else {
            Seq::empty()
        }
}

pub open spec fn jv_modifiers_fn(
    source: Seq<u8>,
    id: int,
    imports: Seq<(Seq<char>, Seq<char>)>,
    package: Seq<char>,
) -> spec_fn(SyntaxNode) -> Seq<RelationshipView> {
    |c: SyntaxNode|
        if kind_is(c, "modifiers"@) {
            rels_over(c.children@, c.children@.len() as int, jv_annotation_fn(source, id, imports, package))
        } else {
            Seq::empty()
        }
}

/// The annotations among a declaration's modifiers, as `annotated-by` of `id`.
pub open spec fn jv_annotations(
    n: SyntaxNode,
    source: Seq<u8>,
    id: int,
    imports: Seq<(Seq<char>, Seq<char>)>,
    package: Seq<char>,
) -> Seq<RelationshipView> {
    rels_over(n.children@, n.children@.len() as int, jv_modifiers_fn(source, id, imports, package))
}

pub open spec fn jv_param_annotation_fn(
    source: Seq<u8>,
    id: int,
    imports: Seq<(Seq<char>, Seq<char>)>,
    package: Seq<char>,
) -> spec_fn(SyntaxNode) -> Seq<RelationshipView> {
    |p: SyntaxNode|
        if kind_is(p, "formal_parameter"@) || kind_is(p, "spread_parameter"@) {
            jv_annotations(p, source, id, imports, package)
        } else {
            Seq::empty()
        }
}

pub open spec fn jv_params_fn(
    source: Seq<u8>,
    id: int,
    imports: Seq<(Seq<char>, Seq<char>)>,
    package: Seq<char>,
) -> spec_fn(SyntaxNode) -> Seq<RelationshipView> {
    |c: SyntaxNode|
        if kind_is(c, "formal_parameters"@) {
            rels_over(c.children@, c.children@.len() as int, jv_param_annotation_fn(source, id, imports, package))
        } else {
            Seq::empty()
        }
}

/// The annotations of a method's parameters, as `annotated-by` of the method `id`.
pub open spec fn jv_param_annotations(
    n: SyntaxNode,
    source: Seq<u8>,
    id: int,
    imports: Seq<(Seq<char>, Seq<char>)>,
    package: Seq<char>,
) -> Seq<RelationshipView> {
    rels_over(n.children@, n.children@.len() as int, jv_params_fn(source, id, imports, package))
}

/// Every type identifier in a subtree, resolved, as a relationship of `kind` from `id`.
pub open spec fn jv_type_ids(
    n: SyntaxNode,
    source: Seq<u8>,
    id: int,
    kind: RelationshipKind,
    imports: Seq<(Seq<char>, Seq<char>)>,
    package: Seq<char>,
) -> Seq<RelationshipView>
    decreases depth(n), n.children@.len() + 1,
{
    if kind_is(n, "type_identifier"@) {
        match node_text(n, source) {
            Some(name) => seq![rel(id, resolve_type(name, imports, package), kind)],
            None => Seq::empty(),
        }
    } else {
        jv_type_ids_in(n, source, id, kind, imports, package, n.children@.len() as int)
    }
}

/// The type identifiers in the first `k` children of a node.
pub open spec fn jv_type_ids_in(
    n: SyntaxNode,
    source: Seq<u8>,
    id: int,
    kind: RelationshipKind,
    imports: Seq<(Seq<char>, Seq<char>)>,
    package: Seq<char>,
    k: int,
) -> Seq<RelationshipView>
    decreases depth(n), k,
{
    if k <= 0 || k > n.children@.len() {
        Seq::empty()
    } else {
        proof {
            lemma_child_depth(n, k - 1);
        }
        jv_type_ids_in(n, source, id, kind, imports, package, k - 1) + jv_type_ids(
            n.children@[k - 1],
            source,
            id,
            kind,
            imports,
            package,
        )
    }
}

/// The calls in a subtree outside nested type declarations, in document order, as `calls`
/// relationships of the method `id`, their targets resolved through `scope`.
pub open spec fn jv_invocations(
    n: SyntaxNode,
    source: Seq<u8>,
    id: int,
    scope: Seq<(Seq<char>, Seq<char>)>,
    enclosing: Seq<char>,
) -> Seq<RelationshipView>
    decreases depth(n), n.children@.len() + 1,
{
    (if kind_is(n, "method_invocation"@) {
        match field_text(n, "name"@, source) {
            Some(m) => {
                let receiver = match field_child(n, "object"@) {
                    Some(obj) => Some(node_text(obj, source)),
                    None => None,
                };
                seq![rel(id, call_target(m, receiver, scope, enclosing), RelationshipKind::Calls)]
            },
            None => Seq::empty(),
        }
    } else {
        Seq::empty()
    }) + jv_invocations_in(n, source, id, scope, enclosing, n.children@.len() as int)
}

/// The calls in the first `k` children of a node that are not type declarations.
pub open spec fn jv_invocations_in(
    n: SyntaxNode,
    source: Seq<u8>,
    id: int,
    scope: Seq<(Seq<char>, Seq<char>)>,
    enclosing: Seq<char>,
    k: int,
) -> Seq<RelationshipView>
    decreases depth(n), k,
{
    if k <= 0 || k > n.children@.len() {
        Seq::empty()
    } else {
        proof {
            lemma_child_depth(n, k - 1);
        }
        jv_invocations_in(n, source, id, scope, enclosing, k - 1) + if java_type_kind(n.children@[k - 1].kind@) is Some {
            Seq::empty()
        } else {
            jv_invocations(n.children@[k - 1], source, id, scope, enclosing)
        }
    }
}

/// The (name, type) pairs of the first `k` symbols that are typed fields of the type `tid`.
pub open spec fn jv_field_scope(syms: Seq<SymbolView>, tid: int, k: int) -> Seq<(Seq<char>, Seq<char>)>
    decreases k,
{
    if k <= 0 || k > syms.len() {
        Seq::empty()
    } else {
        let prev = jv_field_scope(syms, tid, k - 1);
        let s = syms[k - 1];
        if s.kind == "field"@ && s.parent_local_id == Some(tid) {
            match s.type_text {
                Some(tt) => prev.push((s.name, tt)),
                None => prev,
            }
        } else {
            prev
        }
    }
}

/// The relationships of a type declaration `tid`: its annotations, then for each child in
/// turn its `extends` and `implements` clauses and the relationships of its body.
pub open spec fn jv_type_rels(
    n: SyntaxNode,
    source: Seq<u8>,
    tid: int,
    syms: Seq<SymbolView>,
    imports: Seq<(Seq<char>, Seq<char>)>,
    package: Seq<char>,
) -> Seq<RelationshipView>
    decreases depth(n), n.children@.len() + 2,
{
    jv_annotations(n, source, tid, imports, package) + jv_type_parts(
        n,
        source,
        tid,
        syms,
        imports,
        package,
        n.children@.len() as int,
    )
}

/// The relationships of the first `k` children of a type declaration `tid`.
pub open spec fn jv_type_parts(
    n: SyntaxNode,
    source: Seq<u8>,
    tid: int,
    syms: Seq<SymbolView>,
    imports: Seq<(Seq<char>, Seq<char>)>,
    package: Seq<char>,
    k: int,
) -> Seq<RelationshipView>
    decreases depth(n), k,
{
    if k <= 0 || k > n.children@.len() {
        Seq::empty()
    } else {
        proof {
            lemma_child_depth(n, k - 1);
        }
        jv_type_parts(n, source, tid, syms, imports, package, k - 1) + jv_type_part(
            n.children@[k - 1],
            source,
            tid,
            syms,
            imports,
            package,
        )
    }
}

/// The relationships of one child of a type declaration `tid`: the first type identifier of
/// its `superclass` as `extends`, the types of its `extends` and `implements` clauses, the
/// relationships of its body.
pub open spec fn jv_type_part(
    c: SyntaxNode,
    source: Seq<u8>,
    tid: int,
    syms: Seq<SymbolView>,
    imports: Seq<(Seq<char>, Seq<char>)>,
    package: Seq<char>,
) -> Seq<RelationshipView>
    decreases depth(c), c.children@.len() + 1,
{
    if kind_is(c, "superclass"@) {
        match type_identifier_from(c.children@, 0) {
            Some(t) => match node_text(t, source) {
                Some(name) => seq![rel(tid, resolve_type(name, imports, package), RelationshipKind::Extends)],
                None => Seq::empty(),
            },
            None => Seq::empty(),
        }
    } else if kind_is(c, "extends_interfaces"@) {
        jv_type_ids(c, source, tid, RelationshipKind::Extends, imports, package)
    } else if kind_is(c, "super_interfaces"@) {
        jv_type_ids(c, source, tid, RelationshipKind::Implements, imports, package)
    } else if kind_is(c, "class_body"@) || kind_is(c, "interface_body"@) || kind_is(c, "enum_body"@) || kind_is(
        c,
        "annotation_type_body"@,
    ) {
        jv_body_rels(c, source, tid, qualified_name_from(syms, tid, 0), syms, imports, package, c.children@.len() as int)
    } else {
        Seq::empty()
    }
}

/// The relationships of the first `k` members of the body of the type `tid`.
pub open spec fn jv_body_rels(
    body: SyntaxNode,
    source: Seq<u8>,
    tid: int,
    tqn: Seq<char>,
    syms: Seq<SymbolView>,
    imports: Seq<(Seq<char>, Seq<char>)>,
    package: Seq<char>,
    k: int,
) -> Seq<RelationshipView>
    decreases depth(body), k,
{
    if k <= 0 || k > body.children@.len() {
        Seq::empty()
    } else {
        proof {
            lemma_child_depth(body, k - 1);
        }
        jv_body_rels(body, source, tid, tqn, syms, imports, package, k - 1) + jv_member_rels(
            body.children@[k - 1],
            source,
            tid,
            tqn,
            syms,
            imports,
            package,
        )
    }
}

/// The relationships of a member of the type `tid`: a field's annotations and resolved type;
/// a method's or constructor's annotations, its parameters' annotations and its calls (with
/// the type's fields, the parameters and `this` in scope); those of a nested type.
pub open spec fn jv_member_rels(
    m: SyntaxNode,
    source: Seq<u8>,
    tid: int,
    tqn: Seq<char>,
    syms: Seq<SymbolView>,
    imports: Seq<(Seq<char>, Seq<char>)>,
    package: Seq<char>,
) -> Seq<RelationshipView>
    decreases depth(m), m.children@.len() + 3,
{
    if kind_is(m, "field_declaration"@) {
        let fid = match member_index_from(syms, "field"@, "field"@, tid, line_number(m.row), 0) {
            Some(i) => i,
            None => tid,
        };
        jv_annotations(m, source, fid, imports, package) + match java_field_type(m, source) {
            Some(t) => seq![rel(fid, resolve_type(t, imports, package), RelationshipKind::FieldType)],
            None => Seq::empty(),
        }
    } else if kind_is(m, "method_declaration"@) || kind_is(m, "constructor_declaration"@) || kind_is(
        m,
        "compact_constructor_declaration"@,
    ) {
        let mid = match member_index_from(syms, "method"@, "constructor"@, tid, line_number(m.row), 0) {
            Some(i) => i,
            None => tid,
        };
        let scope = jv_field_scope(syms, tid, syms.len() as int) + method_params(
            m.children@,
            source,
            imports,
            package,
            m.children@.len() as int,
        ) + seq![("this"@, tqn)];
        jv_annotations(m, source, mid, imports, package) + jv_param_annotations(m, source, mid, imports, package)
            + jv_invocations(m, source, mid, scope, tqn)
    } else if java_type_kind(m.kind@) is Some {
        match field_text(m, "name"@, source) {
            Some(name) => match jv_member_type(syms, name, tid, 0) {
                Some(nid) => jv_type_rels(m, source, nid, syms, imports, package),
                None => Seq::empty(),
            },
            None => Seq::empty(),
        }
    } else {
        Seq::empty()
    }
}

// ---------------------------------------------------------------------------------------------
// Relationships
// ---------------------------------------------------------------------------------------------

/// The local id of the top-level symbol called `name`.
fn find_top_level_symbol(symbols: &Vec<ExtractedSymbol>, name: &str) -> (r: Option<usize>)
    ensures
        r matches Some(i) ==> i < symbols@.len() && symbols@[i as int].name@ == name@
            && symbols@[i as int].parent_local_id is None && forall|j: int|
            0 <= j < i ==> !(symbols@[j].name@ == name@ && symbols@[j].parent_local_id is None),
        r is None ==> forall|j: int|
            0 <= j < symbols@.len() ==> !(symbols@[j].name@ == name@ && symbols@[j].parent_local_id is None),
        jv_first_top_level(symbols_view(symbols@), name@, 0) == match r {
            Some(i) => Some(i as int),
            None => None,
        },
{
    let ghost sv = symbols_view(symbols@);
    let mut i: usize = 0;
    while i < symbols.len()
        invariant
            i <= symbols.len(),
            sv == symbols_view(symbols@),
            jv_first_top_level(sv, name@, 0) == jv_first_top_level(sv, name@, i as int),
            forall|j: int|
                0 <= j < i ==> !(symbols@[j].name@ == name@ && symbols@[j].parent_local_id is None),
        decreases symbols.len() - i,
    {
        proof {
            assert(sv[i as int] == symbol_view(symbols@[i as int]));
        }
        if str_eq(symbols[i].name.as_str(), name) && symbols[i].parent_local_id.is_none() {
            return Some(i);
        }
        i = i + 1;
    }
    None
}

/// The target of a call: a method of the enclosing class when there is no receiver or it is
/// `this`; of the receiver's type when the scope knows it; else the bare method name.
/// `receiver` is `None` without a receiver, `Some(None)` when its text cannot be read.
pub open spec fn call_target(
    method_name: Seq<char>,
    receiver: Option<Option<Seq<char>>>,
    scope: Seq<(Seq<char>, Seq<char>)>,
    enclosing_class: Seq<char>,
) -> Seq<char> {
    match receiver {
        None => enclosing_class + "."@ + method_name,
        Some(None) => method_name,
        Some(Some(recv)) => if recv == "this"@ {
            enclosing_class + "."@ + method_name
        } else {
            match lookup_last(scope, recv) {
                Some(t) => t + "."@ + method_name,
                None => method_name,
            }
        },
    }
}

/// A call's target always names the called method: it is the method's name, or a type name,
/// a dot and the method's name. A call without a receiver and a call on `this` both target the
/// method of the enclosing class.
pub proof fn law_call_target_names_the_method(
    method_name: Seq<char>,
    receiver: Option<Option<Seq<char>>>,
    scope: Seq<(Seq<char>, Seq<char>)>,
    enclosing_class: Seq<char>,
)
    ensures
        call_target(method_name, receiver, scope, enclosing_class) == method_name || exists|t: Seq<char>|
            call_target(method_name, receiver, scope, enclosing_class) == t + "."@ + method_name,
        call_target(method_name, None, scope, enclosing_class) == enclosing_class + "."@ + method_name,
        call_target(method_name, Some(Some("this"@)), scope, enclosing_class) == call_target(
            method_name,
            None,
            scope,
            enclosing_class,
        ),
{
    let r = call_target(method_name, receiver, scope, enclosing_class);
    match receiver {
        None => {
            assert(r == enclosing_class + "."@ + method_name);
        },
        Some(None) => {},
        Some(Some(recv)) => {
            if recv == "this"@ {
                assert(r == enclosing_class + "."@ + method_name);
            } else {
                match lookup_last(scope, recv) {
                    Some(t) => {
                        assert(r == t + "."@ + method_name);
                    },
                    None => {},
                }
            }
        },
    }
}

/// The target of a call, from the method name, the receiver's text, the scope of known
/// variable types and the enclosing class.
pub fn resolve_call_target(
    method_name: &str,
    receiver: Option<Option<String>>,
    scope: &Vec<(String, String)>,
    enclosing_class: &str,
) -> (r: String)
    ensures
        r@ == call_target(
            method_name@,
            match receiver {
                None => None,
                Some(o) => Some(opt_view(o)),
            },
            pairs_view(scope@),
            enclosing_class@,
        ),
{
    match receiver {
        None => dotted(enclosing_class, method_name),
        Some(None) => method_name.to_string(),
        Some(Some(recv)) => {
            if str_eq(recv.as_str(), "this") {
                dotted(enclosing_class, method_name)
            } else {
                match lookup(scope, recv.as_str()) {
                    Some(t) => dotted(t.as_str(), method_name),
                    None => method_name.to_string(),
                }
            }
        },
    }
}

/// The calls made in a method body: each `method_invocation`, outside nested type
/// declarations, is a `calls` relationship from the method.
fn collect_method_invocations(
    node: &SyntaxNode,
    source: &[u8],
    method_local_id: usize,
    relationships: &mut Vec<ExtractedRelationship>,
    scope: &Vec<(String, String)>,
    enclosing_class: &str,
    n_symbols: Ghost<nat>,
)
    requires
        method_local_id < n_symbols@,
        relationships_wf(old(relationships)@, n_symbols@),
    ensures
        grew(old(relationships)@, final(relationships)@),
        relationships_wf(final(relationships)@, n_symbols@),
        forall|k: int|
            old(relationships)@.len() <= k < final(relationships)@.len() ==> (#[trigger] final(relationships)@[k]).kind
                == RelationshipKind::Calls && final(relationships)@[k].source_local_id == method_local_id,
        relationships_view(final(relationships)@) == relationships_view(old(relationships)@) + jv_invocations(
            *node,
            source@,
            method_local_id as int,
            pairs_view(scope@),
            enclosing_class@,
        ),
    decreases node,
{
    let ghost r0 = relationships_view(old(relationships)@);
    let ghost id = method_local_id as int;
    let ghost sc = pairs_view(scope@);
    let ghost own = if kind_is(*node, "method_invocation"@) {
        match field_text(*node, "name"@, source@) {
            Some(m) => {
                let receiver = match field_child(*node, "object"@) {
                    Some(obj) => Some(node_text(obj, source@)),
                    None => None,
                };
                seq![rel(id, call_target(m, receiver, sc, enclosing_class@), RelationshipKind::Calls)]
            },
            None => Seq::<RelationshipView>::empty(),
        }
    } else {
        Seq::<RelationshipView>::empty()
    };
    if node.is_kind("method_invocation") {
        match field_text_of(node, "name", source) {
            Some(method_name) => {
                let receiver = match node.child_by_field_name("object") {
                    Some(obj) => Some(text(obj, source)),
                    None => None,
                };
                let target = resolve_call_target(method_name.as_str(), receiver, scope, enclosing_class);
                let r = relationship(method_local_id, target, RelationshipKind::Calls);
                proof {
                    lemma_relationships_view_push(relationships@, r);
                }
                relationships.push(r);
            },
            None => {
                proof {
                    assert(r0 + Seq::<RelationshipView>::empty() =~= r0);
                }
            },
        }
    } else {
        proof {
            assert(r0 + Seq::<RelationshipView>::empty() =~= r0);
        }
    }
    let ghost r1 = relationships@;
    let ghost head = relationships_view(r1);
    proof {
        assert(head == r0 + own);
        assert(head + jv_invocations_in(*node, source@, id, sc, enclosing_class@, 0) =~= head);
    }
    let mut i: usize = 0;
    while i < node.children.len()
        invariant
            i <= node.children.len(),
            id == method_local_id,
            sc == pairs_view(scope@),
            relationships_view(relationships@) == head + jv_invocations_in(*node, source@, id, sc, enclosing_class@, i as int),
            method_local_id < n_symbols@,
            grew(old(relationships)@, relationships@),
            relationships_wf(relationships@, n_symbols@),
            forall|k: int|
                old(relationships)@.len() <= k < relationships@.len() ==> (#[trigger] relationships@[k]).kind
                    == RelationshipKind::Calls && relationships@[k].source_local_id == method_local_id,
        decreases node.children.len() - i,
    {
        let child = &node.children[i];
        let ghost p = jv_invocations_in(*node, source@, id, sc, enclosing_class@, i as int);
        proof {
            lemma_child_depth(*node, i as int);
        }
        if !is_type_declaration(child) {
            collect_method_invocations(child, source, method_local_id, relationships, scope, enclosing_class, n_symbols);
            proof {
                let x = jv_invocations(*child, source@, id, sc, enclosing_class@);
                assert((head + p) + x =~= head + (p + x));
            }
        } else {
            proof {
                assert(p + Seq::<RelationshipView>::empty() =~= p);
            }
        }
        i = i + 1;
    }
    proof {
        let rest = jv_invocations_in(*node, source@, id, sc, enclosing_class@, i as int);
        assert((r0 + own) + rest =~= r0 + (own + rest));
    }
}

/// The text of the first of the children from `i` on that is an identifier or a scoped
/// identifier: an annotation's name.
pub open spec fn annotation_name_from(cs: Seq<SyntaxNode>, source: Seq<u8>, i: int) -> Option<Seq<char>>
    decreases cs.len() - i,
{
    if i < 0 || i >= cs.len() {
        None
    } else if kind_is(cs[i], "identifier"@) || kind_is(cs[i], "scoped_identifier"@) {
        node_text(cs[i], source)
    } else {
        annotation_name_from(cs, source, i + 1)
    }
}

/// The name of an annotation: its first identifier child.
fn annotation_name(node: &SyntaxNode, source: &[u8]) -> (r: Option<String>)
    ensures
        opt_view(r) == annotation_name_from(node.children@, source@, 0),
{
    let mut i: usize = 0;
    while i < node.children.len()
        invariant
            i <= node.children.len(),
            annotation_name_from(node.children@, source@, 0) == annotation_name_from(node.children@, source@, i as int),
        decreases node.children.len() - i,
    {
        let c = &node.children[i];
        if c.is_kind("identifier") || c.is_kind("scoped_identifier") {
            return text(c, source);
        }
        i = i + 1;
    }
    None
}

/// The annotations among a declaration's modifiers: each an `annotated-by` relationship.
fn extract_annotations(
    node: &SyntaxNode,
    source: &[u8],
    source_local_id: usize,
    relationships: &mut Vec<ExtractedRelationship>,
    import_map: &Vec<(String, String)>,
    package: &str,
    n_symbols: Ghost<nat>,
)
    requires
        source_local_id < n_symbols@,
        relationships_wf(old(relationships)@, n_symbols@),
    ensures
        grew(old(relationships)@, final(relationships)@),
        relationships_wf(final(relationships)@, n_symbols@),
        forall|k: int|
            old(relationships)@.len() <= k < final(relationships)@.len() ==> (#[trigger] final(relationships)@[k]).kind
                == RelationshipKind::AnnotatedBy && final(relationships)@[k].source_local_id == source_local_id,
        relationships_view(final(relationships)@) == relationships_view(old(relationships)@) + jv_annotations(
            *node,
            source@,
            source_local_id as int,
            pairs_view(import_map@),
            package@,
        ),
{
    let ghost imports = pairs_view(import_map@);
    let ghost r0 = relationships_view(old(relationships)@);
    let ghost f = jv_modifiers_fn(source@, source_local_id as int, imports, package@);
    let ghost g = jv_annotation_fn(source@, source_local_id as int, imports, package@);
    let mut i: usize = 0;
    proof {
        lemma_rels_over_none(node.children@, f, r0);
    }
    while i < node.children.len()
        invariant
            i <= node.children.len(),
            f == jv_modifiers_fn(source@, source_local_id as int, imports, package@),
            g == jv_annotation_fn(source@, source_local_id as int, imports, package@),
            imports == pairs_view(import_map@),
            r0 == relationships_view(old(relationships)@),
            relationships_view(relationships@) == r0 + rels_over(node.children@, i as int, f),
            source_local_id < n_symbols@,
            grew(old(relationships)@, relationships@),
            relationships_wf(relationships@, n_symbols@),
            forall|k: int|
                old(relationships)@.len() <= k < relationships@.len() ==> (#[trigger] relationships@[k]).kind
                    == RelationshipKind::AnnotatedBy && relationships@[k].source_local_id == source_local_id,
        decreases node.children.len() - i,
    {
        let child = &node.children[i];
        let ghost rb = relationships_view(relationships@);
        proof {
            lemma_rels_over_next(node.children@, i as int, f, r0);
        }
        if child.is_kind("modifiers") {
            let mut j: usize = 0;
            proof {
                lemma_rels_over_none(child.children@, g, rb);
            }
            while j < child.children.len()
                invariant
                    j <= child.children.len(),
                    g == jv_annotation_fn(source@, source_local_id as int, imports, package@),
                    imports == pairs_view(import_map@),
                    relationships_view(relationships@) == rb + rels_over(child.children@, j as int, g),
                    source_local_id < n_symbols@,
                    grew(old(relationships)@, relationships@),
                    relationships_wf(relationships@, n_symbols@),
                    forall|k: int|
                        old(relationships)@.len() <= k < relationships@.len() ==> (#[trigger] relationships@[k]).kind
                            == RelationshipKind::AnnotatedBy && relationships@[k].source_local_id == source_local_id,
                decreases child.children.len() - j,
            {
                let mc = &child.children[j];
                proof {
                    lemma_rels_over_next(child.children@, j as int, g, rb);
                }
                if mc.is_kind("marker_annotation") || mc.is_kind("annotation") {
                    match annotation_name(mc, source) {
                        Some(name) => {
                            let resolved = resolve_type_name(name.as_str(), import_map, package);
                            let r = relationship(source_local_id, resolved, RelationshipKind::AnnotatedBy);
                            proof {
                                lemma_relationships_view_push(relationships@, r);
                            }
                            relationships.push(r);
                        },
                        None => {},
                    }
                }
                j = j + 1;
            }
        }
        i = i + 1;
    }
}

/// The annotations on a method's parameters, attached to the method.
fn extract_param_annotations(
    method_node: &SyntaxNode,
    source: &[u8],
    method_local_id: usize,
    relationships: &mut Vec<ExtractedRelationship>,
    import_map: &Vec<(String, String)>,
    package: &str,
    n_symbols: Ghost<nat>,
)
    requires
        method_local_id < n_symbols@,
        relationships_wf(old(relationships)@, n_symbols@),
    ensures
        grew(old(relationships)@, final(relationships)@),
        relationships_wf(final(relationships)@, n_symbols@),
        forall|k: int|
            old(relationships)@.len() <= k < final(relationships)@.len() ==> (#[trigger] final(relationships)@[k]).kind
                == RelationshipKind::AnnotatedBy && final(relationships)@[k].source_local_id == method_local_id,
        relationships_view(final(relationships)@) == relationships_view(old(relationships)@) + jv_param_annotations(
            *method_node,
            source@,
            method_local_id as int,
            pairs_view(import_map@),
            package@,
        ),
{
    let ghost imports = pairs_view(import_map@);
    let ghost r0 = relationships_view(old(relationships)@);
    let ghost f = jv_params_fn(source@, method_local_id as int, imports, package@);
    let ghost g = jv_param_annotation_fn(source@, method_local_id as int, imports, package@);
    let mut i: usize = 0;
    proof {
        lemma_rels_over_none(method_node.children@, f, r0);
    }
    while i < method_node.children.len()
        invariant
            i <= method_node.children.len(),
            f == jv_params_fn(source@, method_local_id as int, imports, package@),
            g == jv_param_annotation_fn(source@, method_local_id as int, imports, package@),
            imports == pairs_view(import_map@),
            r0 == relationships_view(old(relationships)@),
            relationships_view(relationships@) == r0 + rels_over(method_node.children@, i as int, f),
            method_local_id < n_symbols@,
            grew(old(relationships)@, relationships@),
            relationships_wf(relationships@, n_symbols@),
            forall|k: int|
                old(relationships)@.len() <= k < relationships@.len() ==> (#[trigger] relationships@[k]).kind
                    == RelationshipKind::AnnotatedBy && relationships@[k].source_local_id == method_local_id,
        decreases method_node.children.len() - i,
    {
        let child = &method_node.children[i];
        let ghost rb = relationships_view(relationships@);
        proof {
            lemma_rels_over_next(method_node.children@, i as int, f, r0);
        }
        if child.is_kind("formal_parameters") {
            let mut j: usize = 0;
            proof {
                lemma_rels_over_none(child.children@, g, rb);
            }
            while j < child.children.len()
                invariant
                    j <= child.children.len(),
                    g == jv_param_annotation_fn(source@, method_local_id as int, imports, package@),
                    imports == pairs_view(import_map@),
                    relationships_view(relationships@) == rb + rels_over(child.children@, j as int, g),
                    method_local_id < n_symbols@,
                    grew(old(relationships)@, relationships@),
                    relationships_wf(relationships@, n_symbols@),
                    forall|k: int|
                        old(relationships)@.len() <= k < relationships@.len() ==> (#[trigger] relationships@[k]).kind
                            == RelationshipKind::AnnotatedBy && relationships@[k].source_local_id == method_local_id,
                decreases child.children.len() - j,
            {
                let p = &child.children[j];
                proof {
                    lemma_rels_over_next(child.children@, j as int, g, rb);
                }
                if p.is_kind("formal_parameter") || p.is_kind("spread_parameter") {
                    extract_annotations(p, source, method_local_id, relationships, import_map, package, n_symbols);
                }
                j = j + 1;
            }
        }
        i = i + 1;
    }
}

/// The parameters of a method as (name, resolved type) pairs, for the scope of its calls.
fn extract_method_params(
    method_node: &SyntaxNode,
    source: &[u8],
    import_map: &Vec<(String, String)>,
    package: &str,
) -> (r: Vec<(String, String)>)
    ensures
        pairs_view(r@) == method_params(
            method_node.children@,
            source@,
            pairs_view(import_map@),
            package@,
            method_node.children@.len() as int,
        ),
{
    let ghost imports = pairs_view(import_map@);
    let ghost cs = method_node.children@;
    let mut params: Vec<(String, String)> = Vec::new();
    let mut i: usize = 0;
    proof {
        assert(pairs_view(params@) =~= Seq::<(Seq<char>, Seq<char>)>::empty());
    }
    while i < method_node.children.len()
        invariant
            i <= method_node.children.len(),
            cs == method_node.children@,
            imports == pairs_view(import_map@),
            pairs_view(params@) == method_params(cs, source@, imports, package@, i as int),
        decreases method_node.children.len() - i,
    {
        let child = &method_node.children[i];
        if child.is_kind("formal_parameters") {
            let ghost before = pairs_view(params@);
            let ghost ps = child.children@;
            let mut j: usize = 0;
            proof {
                assert(before + params_of_list(ps, source@, imports, package@, 0) =~= before);
            }
            while j < child.children.len()
                invariant
                    j <= child.children.len(),
                    ps == child.children@,
                    imports == pairs_view(import_map@),
                    pairs_view(params@) == before + params_of_list(ps, source@, imports, package@, j as int),
                decreases child.children.len() - j,
            {
                let param = &child.children[j];
                let ghost prev = pairs_view(params@);
                if param.is_kind("formal_parameter") || param.is_kind("spread_parameter") {
                    let mut param_type: Option<String> = None;
                    let mut param_name: Option<String> = None;
                    let mut k: usize = 0;
                    while k < param.children.len()
                        invariant
                            k <= param.children.len(),
                            (opt_view(param_type), opt_view(param_name)) == param_parts(
                                param.children@,
                                source@,
                                k as int,
                            ),
                        decreases param.children.len() - k,
                    {
                        let pc = &param.children[k];
                        if pc.is_kind("modifiers") {
                        } else if pc.is_kind("identifier") {
                            param_name = text(pc, source);
                        } else if pc.is_named && param_type.is_none() {
                            param_type = match text(pc, source) {
                                Some(t) => Some(prefix_before(t.as_str(), '<')),
                                None => None,
                            };
                        }
                        k = k + 1;
                    }
                    match (param_type, param_name) {
                        (Some(t), Some(n)) => {
                            let resolved = resolve_type_name(t.as_str(), import_map, package);
                            params.push((n, resolved));
                            proof {
                                assert(pairs_view(params@) =~= prev.push((n@, resolved@)));
                            }
                        },
                        _ => {},
                    }
                }
                proof {
                    let pl = params_of_list(ps, source@, imports, package@, j as int);
                    assert forall|x: (Seq<char>, Seq<char>)| before + pl.push(x) =~= (before + pl).push(x) by {}
                }
                j = j + 1;
            }
        }
        i = i + 1;
    }
    params
}

/// What the children of a parameter, up to `k`, give: the type (the text of the first named
/// child that is neither the modifiers nor the name, cut before `<`) and the name (the text of
/// the last identifier).
pub open spec fn param_parts(cs: Seq<SyntaxNode>, source: Seq<u8>, k: int) -> (Option<Seq<char>>, Option<Seq<char>>)
    decreases k,
{
    if k <= 0 || k > cs.len() {
        (None, None)
    } else {
        let (t, n) = param_parts(cs, source, k - 1);
        let c = cs[k - 1];
        if kind_is(c, "modifiers"@) {
            (t, n)
        } else if kind_is(c, "identifier"@) {
            (t, node_text(c, source))
        } else if c.is_named && t is None {
            (
                match node_text(c, source) {
                    Some(x) => Some(before_first(x, '<')),
                    None => None,
                },
                n,
            )
        } else {
            (t, n)
        }
    }
}

/// The (name, resolved type) pairs of the parameters among the first `j` children of a
/// parameter list: of each parameter that has both.
pub open spec fn params_of_list(
    ps: Seq<SyntaxNode>,
    source: Seq<u8>,
    imports: Seq<(Seq<char>, Seq<char>)>,
    package: Seq<char>,
    j: int,
) -> Seq<(Seq<char>, Seq<char>)>
    decreases j,
{
    if j <= 0 || j > ps.len() {
        Seq::empty()
    } else {
        let pl = params_of_list(ps, source, imports, package, j - 1);
        let p = ps[j - 1];
        if kind_is(p, "formal_parameter"@) || kind_is(p, "spread_parameter"@) {
            match param_parts(p.children@, source, p.children@.len() as int) {
                (Some(t), Some(n)) => pl.push((n, resolve_type(t, imports, package))),
                _ => pl,
            }
        } else {
            pl
        }
    }
}

/// The parameters of the parameter lists among the first `i` children of a method.
pub open spec fn method_params(
    cs: Seq<SyntaxNode>,
    source: Seq<u8>,
    imports: Seq<(Seq<char>, Seq<char>)>,
    package: Seq<char>,
    i: int,
) -> Seq<(Seq<char>, Seq<char>)>
    decreases i,
{
    if i <= 0 || i > cs.len() {
        Seq::empty()
    } else {
        let prev = method_params(cs, source, imports, package, i - 1);
        if kind_is(cs[i - 1], "formal_parameters"@) {
            prev + params_of_list(cs[i - 1].children@, source, imports, package, cs[i - 1].children@.len() as int)
        } else {
            prev
        }
    }
}

/// The first of the nodes from `i` on whose kind is `k`.
pub open spec fn first_of_kind(cs: Seq<SyntaxNode>, k: Seq<char>, i: int) -> Option<SyntaxNode>
    decreases cs.len() - i,
{
    if i < 0 || i >= cs.len() {
        None
    } else if kind_is(cs[i], k) {
        Some(cs[i])
    } else {
        first_of_kind(cs, k, i + 1)
    }
}

/// The first type identifier among the nodes from `i` on, each looked into one level down
/// where it is not one itself.
pub open spec fn type_identifier_from(cs: Seq<SyntaxNode>, i: int) -> Option<SyntaxNode>
    decreases cs.len() - i,
{
    if i < 0 || i >= cs.len() {
        None
    } else if kind_is(cs[i], "type_identifier"@) {
        Some(cs[i])
    } else {
        match first_of_kind(cs[i].children@, "type_identifier"@, 0) {
            Some(c) => Some(c),
            None => type_identifier_from(cs, i + 1),
        }
    }
}

/// The first type identifier of a `superclass` node, looked for one level down too.
fn first_type_identifier(node: &SyntaxNode, source: &[u8]) -> (r: Option<String>)
    ensures
        opt_view(r) == match type_identifier_from(node.children@, 0) {
            Some(c) => node_text(c, source@),
            None => None,
        },
{
    let mut i: usize = 0;
    while i < node.children.len()
        invariant
            i <= node.children.len(),
            type_identifier_from(node.children@, 0) == type_identifier_from(node.children@, i as int),
        decreases node.children.len() - i,
    {
        let child = &node.children[i];
        if child.is_kind("type_identifier") {
            return text(child, source);
        }
        let mut j: usize = 0;
        while j < child.children.len()
            invariant
                j <= child.children.len(),
                i < node.children.len(),
                child == node.children@[i as int],
                !kind_is(*child, "type_identifier"@),
                type_identifier_from(node.children@, 0) == type_identifier_from(node.children@, i as int),
                first_of_kind(child.children@, "type_identifier"@, 0) == first_of_kind(child.children@, "type_identifier"@, j as int),
            decreases child.children.len() - j,
        {
            if child.children[j].is_kind("type_identifier") {
                return text(&child.children[j], source);
            }
            j = j + 1;
        }
        i = i + 1;
    }
    None
}

/// Every type identifier in a subtree, as a relationship of the given kind.
fn collect_type_identifiers(
    node: &SyntaxNode,
    source: &[u8],
    source_local_id: usize,
    kind: RelationshipKind,
    relationships: &mut Vec<ExtractedRelationship>,
    import_map: &Vec<(String, String)>,
    package: &str,
    n_symbols: Ghost<nat>,
)
    requires
        source_local_id < n_symbols@,
        relationships_wf(old(relationships)@, n_symbols@),
    ensures
        grew(old(relationships)@, final(relationships)@),
        relationships_wf(final(relationships)@, n_symbols@),
        forall|k: int|
            old(relationships)@.len() <= k < final(relationships)@.len() ==> (#[trigger] final(relationships)@[k]).kind
                == kind && final(relationships)@[k].source_local_id == source_local_id,
        relationships_view(final(relationships)@) == relationships_view(old(relationships)@) + jv_type_ids(
            *node,
            source@,
            source_local_id as int,
            kind,
            pairs_view(import_map@),
            package@,
        ),
    decreases node,
{
    let ghost imports = pairs_view(import_map@);
    let ghost r0 = relationships_view(old(relationships)@);
    let ghost id = source_local_id as int;
    if node.is_kind("type_identifier") {
        match text(node, source) {
            Some(name) => {
                let resolved = resolve_type_name(name.as_str(), import_map, package);
                let r = relationship(source_local_id, resolved, kind);
                proof {
                    lemma_relationships_view_push(relationships@, r);
                }
                relationships.push(r);
            },
            None => {
                proof {
                    assert(r0 + Seq::<RelationshipView>::empty() =~= r0);
                }
            },
        }
        return;
    }
    let mut i: usize = 0;
    proof {
        assert(r0 + jv_type_ids_in(*node, source@, id, kind, imports, package@, 0) =~= r0);
    }
    while i < node.children.len()
        invariant
            i <= node.children.len(),
            id == source_local_id,
            imports == pairs_view(import_map@),
            r0 == relationships_view(old(relationships)@),
            relationships_view(relationships@) == r0 + jv_type_ids_in(*node, source@, id, kind, imports, package@, i as int),
            source_local_id < n_symbols@,
            grew(old(relationships)@, relationships@),
            relationships_wf(relationships@, n_symbols@),
            forall|k: int|
                old(relationships)@.len() <= k < relationships@.len() ==> (#[trigger] relationships@[k]).kind
                    == kind && relationships@[k].source_local_id == source_local_id,
        decreases node.children.len() - i,
    {
        proof {
            lemma_child_depth(*node, i as int);
        }
        collect_type_identifiers(&node.children[i], source, source_local_id, kind, relationships, import_map, package, n_symbols);
        proof {
            let p = jv_type_ids_in(*node, source@, id, kind, imports, package@, i as int);
            let x = jv_type_ids(node.children@[i as int], source@, id, kind, imports, package@);
            assert((r0 + p) + x =~= r0 + (p + x));
        }
        i = i + 1;
    }
}

/// The relationships of a type declaration: its annotations, `extends` and `implements`
/// clauses, and those of its body.
fn extract_type_relationships(
    type_node: &SyntaxNode,
    source: &[u8],
    type_local_id: usize,
    symbols: &Vec<ExtractedSymbol>,
    relationships: &mut Vec<ExtractedRelationship>,
    import_map: &Vec<(String, String)>,
    package: &str,
)
    requires
        type_local_id < symbols@.len(),
        relationships_wf(old(relationships)@, symbols@.len()),
    ensures
        grew(old(relationships)@, final(relationships)@),
        relationships_wf(final(relationships)@, symbols@.len()),
        relationships_view(final(relationships)@) == relationships_view(old(relationships)@) + jv_type_rels(
            *type_node,
            source@,
            type_local_id as int,
            symbols_view(symbols@),
            pairs_view(import_map@),
            package@,
        ),
    decreases type_node, 1int,
{
    let ghost imports = pairs_view(import_map@);
    let ghost sv = symbols_view(symbols@);
    let ghost tid = type_local_id as int;
    let ghost r0 = relationships_view(old(relationships)@);
    let n = Ghost(symbols@.len());
    extract_annotations(type_node, source, type_local_id, relationships, import_map, package, n);
    let ghost ra = relationships_view(relationships@);
    let mut i: usize = 0;
    proof {
        assert(ra + jv_type_parts(*type_node, source@, tid, sv, imports, package@, 0) =~= ra);
    }
    while i < type_node.children.len()
        invariant
            i <= type_node.children.len(),
            type_local_id < symbols@.len(),
            n@ == symbols@.len(),
            grew(old(relationships)@, relationships@),
            relationships_wf(relationships@, symbols@.len()),
            imports == pairs_view(import_map@),
            sv == symbols_view(symbols@),
            tid == type_local_id,
            relationships_view(relationships@) == ra + jv_type_parts(*type_node, source@, tid, sv, imports, package@, i as int),
        decreases type_node.children.len() - i,
    {
        let child = &type_node.children[i];
        let ghost rb = relationships_view(relationships@);
        let ghost p = jv_type_parts(*type_node, source@, tid, sv, imports, package@, i as int);
        proof {
            lemma_child_depth(*type_node, i as int);
            assert(*child == type_node.children@[i as int]);
        }
        if child.is_kind("superclass") {
            match first_type_identifier(child, source) {
                Some(name) => {
                    let resolved = resolve_type_name(name.as_str(), import_map, package);
                    let r = relationship(type_local_id, resolved, RelationshipKind::Extends);
                    proof {
                        lemma_relationships_view_push(relationships@, r);
                    }
                    relationships.push(r);
                },
                None => {
                    proof {
                        assert(rb + Seq::<RelationshipView>::empty() =~= rb);
                    }
                },
            }
        } else if child.is_kind("extends_interfaces") {
            collect_type_identifiers(child, source, type_local_id, RelationshipKind::Extends, relationships, import_map, package, n);
        } else if child.is_kind("super_interfaces") {
            collect_type_identifiers(child, source, type_local_id, RelationshipKind::Implements, relationships, import_map, package, n);
        } else if child.is_kind("class_body") || child.is_kind("interface_body") || child.is_kind("enum_body")
            || child.is_kind("annotation_type_body") {
            let type_qn = qualified_name_of(symbols, type_local_id);
            extract_body_relationships(child, source, type_local_id, type_qn.as_str(), symbols, relationships, import_map, package);
        } else {
            proof {
                assert(rb + Seq::<RelationshipView>::empty() =~= rb);
            }
        }
        proof {
            let x = jv_type_part(*child, source@, tid, sv, imports, package@);
            assert(relationships_view(relationships@) == rb + x);
            assert((ra + p) + x =~= ra + (p + x));
        }
        i = i + 1;
    }
    proof {
        let t = jv_type_parts(*type_node, source@, tid, sv, imports, package@, i as int);
        let a = jv_annotations(*type_node, source@, tid, imports, package@);
        assert(ra == r0 + a);
        assert((r0 + a) + t =~= r0 + (a + t));
    }
}

/// The qualified name of the first symbol from `i` on with the local id `id`; empty where
/// there is none.
pub open spec fn qualified_name_from(syms: Seq<SymbolView>, id: int, i: int) -> Seq<char>
    decreases syms.len() - i,
{
    if i < 0 || i >= syms.len() {
        Seq::empty()
    } else if syms[i].local_id == id {
        syms[i].qualified_name
    } else {
        qualified_name_from(syms, id, i + 1)
    }
}

/// The qualified name of the symbol with local id `id`; empty when there is none.
fn qualified_name_of(symbols: &Vec<ExtractedSymbol>, id: usize) -> (r: String)
    ensures
        r@ == qualified_name_from(symbols_view(symbols@), id as int, 0),
{
    let ghost sv = symbols_view(symbols@);
    let mut i: usize = 0;
    while i < symbols.len()
        invariant
            i <= symbols.len(),
            sv == symbols_view(symbols@),
            qualified_name_from(sv, id as int, 0) == qualified_name_from(sv, id as int, i as int),
        decreases symbols.len() - i,
    {
        proof {
            assert(sv[i as int] == symbol_view(symbols@[i as int]));
        }
        if symbols[i].local_id == id {
            return symbols[i].qualified_name.clone();
        }
        i = i + 1;
    }
    String::new()
}

/// Whether a symbol is a member of the given kinds, of the type `type_local_id`, declared on
/// line `line` (or any line, where `line` is `None`).
fn is_member_at(s: &ExtractedSymbol, kinds: (&str, &str), type_local_id: usize, line: i64) -> (r: bool)
    ensures
        r == ((s.kind.0@ == kinds.0@ || s.kind.0@ == kinds.1@) && s.parent_local_id == Some(
            type_local_id,
        ) && s.line == line),
{
    let k = s.kind.as_str();
    (str_eq(k, kinds.0) || str_eq(k, kinds.1)) && match s.parent_local_id {
        Some(p) => p == type_local_id,
        None => false,
    } && s.line == line
}

/// The index of the first symbol from `i` on that is of kind `k1` or `k2`, a member of the
/// type `type_local_id`, and declared on `line`.
pub open spec fn member_index_from(
    syms: Seq<SymbolView>,
    k1: Seq<char>,
    k2: Seq<char>,
    type_local_id: int,
    line: i64,
    i: int,
) -> Option<int>
    decreases syms.len() - i,
{
    if i < 0 || i >= syms.len() {
        None
    } else if (syms[i].kind == k1 || syms[i].kind == k2) && syms[i].parent_local_id == Some(type_local_id)
        && syms[i].line == line {
        Some(i)
    } else {
        member_index_from(syms, k1, k2, type_local_id, line, i + 1)
    }
}

/// The local id of the first member of the given kinds of the type declared on `line`; the
/// type's own id where there is none.
fn member_id(symbols: &Vec<ExtractedSymbol>, kinds: (&str, &str), type_local_id: usize, line: i64) -> (r: usize)
    requires
        type_local_id < symbols@.len(),
    ensures
        r < symbols@.len(),
        r == match member_index_from(symbols_view(symbols@), kinds.0@, kinds.1@, type_local_id as int, line, 0) {
            Some(i) => i,
            None => type_local_id as int,
        },
{
    let ghost sv = symbols_view(symbols@);
    let mut i: usize = 0;
    while i < symbols.len()
        invariant
            i <= symbols.len(),
            sv == symbols_view(symbols@),
            member_index_from(sv, kinds.0@, kinds.1@, type_local_id as int, line, 0) == member_index_from(
                sv,
                kinds.0@,
                kinds.1@,
                type_local_id as int,
                line,
                i as int,
            ),
        decreases symbols.len() - i,
    {
        proof {
            assert(sv[i as int] == symbol_view(symbols@[i as int]));
        }
        if is_member_at(&symbols[i], kinds, type_local_id, line) {
            return i;
        }
        i = i + 1;
    }
    type_local_id
}

/// The relationships of a type's body: field types and field annotations, the annotations
/// and calls of methods and constructors, and those of nested types.
fn extract_body_relationships(
    body_node: &SyntaxNode,
    source: &[u8],
    type_local_id: usize,
    type_qualified_name: &str,
    symbols: &Vec<ExtractedSymbol>,
    relationships: &mut Vec<ExtractedRelationship>,
    import_map: &Vec<(String, String)>,
    package: &str,
)
    requires
        type_local_id < symbols@.len(),
        relationships_wf(old(relationships)@, symbols@.len()),
    ensures
        grew(old(relationships)@, final(relationships)@),
        relationships_wf(final(relationships)@, symbols@.len()),
        relationships_view(final(relationships)@) == relationships_view(old(relationships)@) + jv_body_rels(
            *body_node,
            source@,
            type_local_id as int,
            type_qualified_name@,
            symbols_view(symbols@),
            pairs_view(import_map@),
            package@,
            body_node.children@.len() as int,
        ),
    decreases body_node, 0int,
{
    let ghost imports = pairs_view(import_map@);
    let ghost sv = symbols_view(symbols@);
    let ghost tid = type_local_id as int;
    let ghost tqn = type_qualified_name@;
    let ghost r0 = relationships_view(old(relationships)@);
    let n = Ghost(symbols@.len());
    // The types of the fields of this type, by name.
    let mut field_scope: Vec<(String, String)> = Vec::new();
    let mut f: usize = 0;
    proof {
        assert(pairs_view(field_scope@) =~= jv_field_scope(sv, tid, 0));
    }
    while f < symbols.len()
        invariant
            f <= symbols.len(),
            sv == symbols_view(symbols@),
            tid == type_local_id,
            pairs_view(field_scope@) == jv_field_scope(sv, tid, f as int),
        decreases symbols.len() - f,
    {
        let s = &symbols[f];
        proof {
            assert(sv[f as int] == symbol_view(symbols@[f as int]));
        }
        let is_field = str_eq(s.kind.as_str(), "field") && match s.parent_local_id {
            Some(p) => p == type_local_id,
            None => false,
        };
        if is_field {
            match &s.type_text {
                Some(tt) => {
                    let pair = (s.name.clone(), tt.clone());
                    proof {
                        assert(pairs_view(field_scope@.push(pair)) =~= pairs_view(field_scope@).push((pair.0@, pair.1@)));
                    }
                    field_scope.push(pair);
                },
                None => {},
            }
        }
        f = f + 1;
    }
    let ghost fs = pairs_view(field_scope@);
    let mut i: usize = 0;
    proof {
        assert(r0 + jv_body_rels(*body_node, source@, tid, tqn, sv, imports, package@, 0) =~= r0);
    }
    while i < body_node.children.len()
        invariant
            i <= body_node.children.len(),
            type_local_id < symbols@.len(),
            n@ == symbols@.len(),
            grew(old(relationships)@, relationships@),
            relationships_wf(relationships@, symbols@.len()),
            imports == pairs_view(import_map@),
            sv == symbols_view(symbols@),
            tid == type_local_id,
            tqn == type_qualified_name@,
            fs == pairs_view(field_scope@),
            fs == jv_field_scope(sv, tid, sv.len() as int),
            r0 == relationships_view(old(relationships)@),
            relationships_view(relationships@) == r0 + jv_body_rels(*body_node, source@, tid, tqn, sv, imports, package@, i as int),
        decreases body_node.children.len() - i,
    {
        let member = &body_node.children[i];
        let ghost rb = relationships_view(relationships@);
        let ghost p = jv_body_rels(*body_node, source@, tid, tqn, sv, imports, package@, i as int);
        proof {
            lemma_child_depth(*body_node, i as int);
            assert(*member == body_node.children@[i as int]);
        }
        if member.is_kind("field_declaration") {
            let field_id = member_id(symbols, ("field", "field"), type_local_id, to_line(member.row));
            extract_annotations(member, source, field_id, relationships, import_map, package, n);
            let ghost ra = relationships_view(relationships@);
            match field_type_name(member, source) {
                Some(t) => {
                    let resolved = resolve_type_name(t.as_str(), import_map, package);
                    let r = relationship(field_id, resolved, RelationshipKind::FieldType);
                    proof {
                        lemma_relationships_view_push(relationships@, r);
                    }
                    relationships.push(r);
                },
                None => {
                    proof {
                        assert(ra + Seq::<RelationshipView>::empty() =~= ra);
                    }
                },
            }
            proof {
                let a = jv_annotations(*member, source@, field_id as int, imports, package@);
                let b = match java_field_type(*member, source@) {
                    Some(t) => seq![rel(field_id as int, resolve_type(t, imports, package@), RelationshipKind::FieldType)],
                    None => Seq::<RelationshipView>::empty(),
                };
                assert((rb + a) + b =~= rb + (a + b));
            }
        } else if member.is_kind("method_declaration") || member.is_kind("constructor_declaration")
            || member.is_kind("compact_constructor_declaration") {
            let method_id = member_id(symbols, ("method", "constructor"), type_local_id, to_line(member.row));
            extract_annotations(member, source, method_id, relationships, import_map, package, n);
            extract_param_annotations(member, source, method_id, relationships, import_map, package, n);
            let mut scope: Vec<(String, String)> = Vec::new();
            let mut q: usize = 0;
            proof {
                assert(pairs_view(scope@) =~= fs.take(0));
            }
            while q < field_scope.len()
                invariant
                    q <= field_scope.len(),
                    fs == pairs_view(field_scope@),
                    pairs_view(scope@) == fs.take(q as int),
                decreases field_scope.len() - q,
            {
                let pair = (field_scope[q].0.clone(), field_scope[q].1.clone());
                proof {
                    assert(pairs_view(scope@.push(pair)) =~= pairs_view(scope@).push((pair.0@, pair.1@)));
                    assert(fs.take(q + 1) =~= fs.take(q as int).push(fs[q as int]));
                }
                scope.push(pair);
                q = q + 1;
            }
            proof {
                assert(fs.take(q as int) =~= fs);
            }
            let params = extract_method_params(member, source, import_map, package);
            let ghost pv = pairs_view(params@);
            let mut p2: usize = 0;
            proof {
                assert(fs + pv.take(0) =~= fs);
            }
            while p2 < params.len()
                invariant
                    p2 <= params.len(),
                    pv == pairs_view(params@),
                    pairs_view(scope@) == fs + pv.take(p2 as int),
                decreases params.len() - p2,
            {
                let pair = (params[p2].0.clone(), params[p2].1.clone());
                proof {
                    assert(pairs_view(scope@.push(pair)) =~= pairs_view(scope@).push((pair.0@, pair.1@)));
                    assert(fs + pv.take(p2 + 1) =~= (fs + pv.take(p2 as int)).push(pv[p2 as int]));
                }
                scope.push(pair);
                p2 = p2 + 1;
            }
            proof {
                assert(pv.take(p2 as int) =~= pv);
                reveal_strlit("this");
            }
            let this_pair = ("this".to_string(), type_qualified_name.to_string());
            proof {
                assert(pairs_view(scope@.push(this_pair)) =~= pairs_view(scope@).push((this_pair.0@, this_pair.1@)));
            }
            scope.push(this_pair);
            let ghost rc = relationships_view(relationships@);
            collect_method_invocations(member, source, method_id, relationships, &scope, type_qualified_name, n);
            proof {
                let a = jv_annotations(*member, source@, method_id as int, imports, package@);
                let b = jv_param_annotations(*member, source@, method_id as int, imports, package@);
                let sc = jv_field_scope(sv, tid, sv.len() as int) + method_params(
                    member.children@,
                    source@,
                    imports,
                    package@,
                    member.children@.len() as int,
                ) + seq![("this"@, tqn)];
                assert(pairs_view(scope@) =~= sc);
                let c = jv_invocations(*member, source@, method_id as int, sc, tqn);
                assert(((rb + a) + b) + c =~= rb + (a + b + c));
            }
        } else if is_type_declaration(member) {
            match field_text_of(member, "name", source) {
                Some(name) => {
                    match find_member_type(symbols, name.as_str(), type_local_id) {
                        Some(nested_id) => {
                            extract_type_relationships(member, source, nested_id, symbols, relationships, import_map, package);
                        },
                        None => {
                            proof {
                                assert(rb + Seq::<RelationshipView>::empty() =~= rb);
                            }
                        },
                    }
                },
                None => {
                    proof {
                        assert(rb + Seq::<RelationshipView>::empty() =~= rb);
                    }
                },
            }
        } else {
            proof {
                assert(rb + Seq::<RelationshipView>::empty() =~= rb);
            }
        }
        proof {
            let x = jv_member_rels(*member, source@, tid, tqn, sv, imports, package@);
            assert(relationships_view(relationships@) == rb + x);
            assert((r0 + p) + x =~= r0 + (p + x));
        }
        i = i + 1;
    }
}

/// The local id of the first symbol called `name` whose parent is `parent`.
fn find_member_type(symbols: &Vec<ExtractedSymbol>, name: &str, parent: usize) -> (r: Option<usize>)
    ensures
        r matches Some(i) ==> i < symbols@.len() && symbols@[i as int].name@ == name@
            && symbols@[i as int].parent_local_id == Some(parent),
        jv_member_type(symbols_view(symbols@), name@, parent as int, 0) == match r {
            Some(i) => Some(i as int),
            None => None,
        },
{
    let ghost sv = symbols_view(symbols@);
    let mut i: usize = 0;
    while i < symbols.len()
        invariant
            i <= symbols.len(),
            sv == symbols_view(symbols@),
            jv_member_type(sv, name@, parent as int, 0) == jv_member_type(sv, name@, parent as int, i as int),
        decreases symbols.len() - i,
    {
        proof {
            assert(sv[i as int] == symbol_view(symbols@[i as int]));
        }
        let is_child = match symbols[i].parent_local_id {
            Some(p) => p == parent,
            None => false,
        };
        if str_eq(symbols[i].name.as_str(), name) && is_child {
            return Some(i);
        }
        i = i + 1;
    }
    None
}

} // verus!

//! Rust: structs, enums with their variants, traits, impl blocks, functions and type aliases;
//! supertraits as `extends`, trait impls as `implements`, types of fields, parameters and
//! results as `field-type`, and calls; type names resolved through `use` declarations.
use vstd::prelude::*;
use crate::model::{ExtractedRelationship, ExtractedSymbol, ExtractionResult, RelationshipKind, Visibility};
use crate::plugin::{
    at_node, extension_in, extension_of, field_text, field_text_of, first_some_from, grew,
    language_extensions, lemma_symbols_from_next, lemma_symbols_from_none, lemma_symbols_view_push,
    node_symbol, path_extension, relationship, relationships_wf, result_wf, symbol_at, symbol_view,
    symbols_from, symbols_view, symbols_wf, LanguageId, SymbolView, RelationshipView, rel, rels_from,
    rels_over, relationships_view, relationship_view, lemma_relationships_view_push, lemma_rels_from_next,
    lemma_rels_from_none, lemma_rels_over_next, lemma_rels_over_none, lemma_member_qn,
    lemma_symbols_from_members, members_of,
};
use crate::syntax::{depth, field_child, kind_is, node_text, text, SyntaxNode};
use crate::text::{
    after_last_occurrence, after_last_str, concat, concat3, dotted, lookup, lookup_last, opt_view,
    pairs_view, split_last, split_last_piece, starts_upper, starts_with_uppercase, str_eq, trim,
    trim_seq, views,
};

verus! {

/// The Rust plugin.
pub struct RustPlugin;

impl RustPlugin {
    pub fn name(&self) -> (r: &'static str)
        ensures
            r@ == "rust"@,
    {
        "rust"
    }

    pub fn display_name(&self) -> (r: &'static str)
        ensures
            r@ == "Rust"@,
    {
        "Rust"
    }

    /// Whether the file has the extension `rs`.
    pub fn can_handle(&self, path: &str) -> (r: bool)
        ensures
            r == extension_in(path_extension(path@), language_extensions(LanguageId::Rust)),
    {
        match extension_of(path) {
            Some(x) => {
                let r = str_eq(x.as_str(), "rs");
                proof {
                    let exts = language_extensions(LanguageId::Rust);
                    assert(exts[0] == "rs"@);
                    if exts.contains(x@) {
                        let k = choose|k: int| 0 <= k < exts.len() && exts[k] == x@;
                        assert(k == 0);
                    }
                }
                r
            },
            None => false,
        }
    }

    /// Calls the grammar constant `tree_sitter_rust::LANGUAGE`.
    #[verifier::external_body]
    pub fn tree_sitter_language(&self) -> tree_sitter::Language {
        tree_sitter_rust::LANGUAGE.into()
    }

    /// The items at the top level of the file; the wildcard imports of its `use` declarations
    /// are handed on for later resolution.
    pub fn extract_symbols(&self, root: &SyntaxNode, source: &[u8]) -> (r: ExtractionResult)
        ensures
            result_wf(r),
            symbols_view(r.symbols@) == rust_symbols(*root, source@),
            relationships_view(r.relationships@) == rust_relationships(*root, source@),
            views(r.wildcard_imports@) == use_declarations(root.children@, source@, root.children@.len() as int).1,
    {
        let (import_map, wildcard_imports) = parse_use_declarations(root, source);
        let ghost f = rs_top_fn(source@);
        let ghost e = Seq::<SymbolView>::empty();
        let ghost imports = pairs_view(import_map@);
        let mut symbols: Vec<ExtractedSymbol> = Vec::new();
        let mut relationships: Vec<ExtractedRelationship> = Vec::new();
        let mut i: usize = 0;
        proof {
            assert(symbols_view(symbols@) =~= e);
            assert(relationships_view(relationships@) =~= rs_items_rels(root.children@, source@, imports, 0));
            lemma_symbols_from_none(root.children@, 0, f, e);
        }
        while i < root.children.len()
            invariant
                i <= root.children.len(),
                symbols_wf(symbols@),
                relationships_wf(relationships@, symbols@.len()),
                f == rs_top_fn(source@),
                e == Seq::<SymbolView>::empty(),
                imports == pairs_view(import_map@),
                symbols_view(symbols@) == e + symbols_from(root.children@, i as int, 0, f),
                relationships_view(relationships@) == rs_items_rels(root.children@, source@, imports, i as int),
            decreases root.children.len() - i,
        {
            let child = &root.children[i];
            let ghost before = symbols_view(symbols@);
            let ghost rb = relationships_view(relationships@);
            proof {
                lemma_symbols_from_next(root.children@, i as int, 0, f, e);
                assert(before =~= symbols_from(root.children@, i as int, 0, f));
                assert(before.len() == symbols@.len());
            }
            if child.is_kind("struct_item") {
                extract_struct(child, source, &mut symbols, &mut relationships, &import_map);
            } else if child.is_kind("enum_item") {
                extract_enum(child, source, &mut symbols);
            } else if child.is_kind("trait_item") {
                extract_trait(child, source, &mut symbols, &mut relationships, &import_map);
            } else if child.is_kind("impl_item") {
                extract_impl(child, source, &mut symbols, &mut relationships, &import_map);
            } else if child.is_kind("function_item") {
                extract_item(child, source, "function", &mut symbols, &mut relationships, &import_map);
            } else if child.is_kind("type_item") {
                extract_item(child, source, "type-alias", &mut symbols, &mut relationships, &import_map);
            } else {
                proof {
                    assert(rb + Seq::<RelationshipView>::empty() =~= rb);
                }
            }
            proof {
                assert(rs_items_rels(root.children@, source@, imports, i + 1) == rb + rs_top_rels(*child, source@, imports, before));
            }
            i = i + 1;
        }
        proof {
            assert(e + symbols_from(root.children@, i as int, 0, f) =~= symbols_from(root.children@, i as int, 0, f));
        }
        ExtractionResult { symbols, relationships, wildcard_imports }
    }
}

// ---------------------------------------------------------------------------------------------
// `use` declarations
// ---------------------------------------------------------------------------------------------

/// The imports of the file's `use` declarations: names as (name, path) pairs, where a later
/// import of the same name wins, and the paths imported with `*`.
pub fn parse_use_declarations(root: &SyntaxNode, source: &[u8]) -> (r: (Vec<(String, String)>, Vec<String>))
    ensures
        pairs_view(r.0@) == use_declarations(root.children@, source@, root.children@.len() as int).0,
        views(r.1@) == use_declarations(root.children@, source@, root.children@.len() as int).1,
{
    let mut import_map: Vec<(String, String)> = Vec::new();
    let mut wildcards: Vec<String> = Vec::new();
    let mut i: usize = 0;
    proof {
        assert(pairs_view(import_map@) =~= Seq::<(Seq<char>, Seq<char>)>::empty());
        assert(views(wildcards@) =~= Seq::<Seq<char>>::empty());
    }
    while i < root.children.len()
        invariant
            i <= root.children.len(),
            pairs_view(import_map@) == use_declarations(root.children@, source@, i as int).0,
            views(wildcards@) == use_declarations(root.children@, source@, i as int).1,
        decreases root.children.len() - i,
    {
        let child = &root.children[i];
        if child.is_kind("use_declaration") {
            let ghost im0 = pairs_view(import_map@);
            let ghost wc0 = views(wildcards@);
            let mut j: usize = 0;
            proof {
                reveal_strlit("");
                assert(im0 + use_list(*child, source@, ""@, 0).0 =~= im0);
                assert(wc0 + use_list(*child, source@, ""@, 0).1 =~= wc0);
            }
            while j < child.children.len()
                invariant
                    j <= child.children.len(),
                    pairs_view(import_map@) == im0 + use_list(*child, source@, ""@, j as int).0,
                    views(wildcards@) == wc0 + use_list(*child, source@, ""@, j as int).1,
                decreases child.children.len() - j,
            {
                let ghost im1 = pairs_view(import_map@);
                let ghost wc1 = views(wildcards@);
                parse_use_tree(&child.children[j], source, "", &mut import_map, &mut wildcards);
                proof {
                    let t = use_tree(child.children@[j as int], source@, ""@);
                    let l = use_list(*child, source@, ""@, j as int);
                    assert(im0 + (l.0 + t.0) =~= (im0 + l.0) + t.0);
                    assert(wc0 + (l.1 + t.1) =~= (wc0 + l.1) + t.1);
                }
                j = j + 1;
            }
            proof {
                reveal_strlit("");
                assert(""@ =~= Seq::<char>::empty());
            }
        }
        i = i + 1;
    }
    (import_map, wildcards)
}

/// The imports (name, path) and the wildcard paths that the `use` declarations among the
/// first `i` nodes give.
pub open spec fn use_declarations(cs: Seq<SyntaxNode>, source: Seq<u8>, i: int) -> (
    Seq<(Seq<char>, Seq<char>)>,
    Seq<Seq<char>>,
)
    decreases i,
{
    if i <= 0 || i > cs.len() {
        (Seq::empty(), Seq::empty())
    } else {
        let prev = use_declarations(cs, source, i - 1);
        if kind_is(cs[i - 1], "use_declaration"@) {
            let d = use_list(cs[i - 1], source, Seq::empty(), cs[i - 1].children@.len() as int);
            (prev.0 + d.0, prev.1 + d.1)
        } else {
            prev
        }
    }
}

/// The imports (name, path) and the wildcard paths that one use tree gives under a prefix:
/// an aliased path gives the alias, a braced list what its trees give under the list's path,
/// a wildcard its path, and a plain path its last segment.
pub open spec fn use_tree(n: SyntaxNode, source: Seq<u8>, prefix: Seq<char>) -> (
    Seq<(Seq<char>, Seq<char>)>,
    Seq<Seq<char>>,
)
    decreases crate::syntax::depth(n), 0int,
{
    if kind_is(n, "use_as_clause"@) {
        match (field_text(n, "path"@, source), field_text(n, "alias"@, source)) {
            (Some(p), Some(a)) => (seq![(a, under_prefix(prefix, p))], Seq::empty()),
            _ => (Seq::empty(), Seq::empty()),
        }
    } else if kind_is(n, "scoped_use_list"@) {
        let np = match field_text(n, "path"@, source) {
            Some(p) => under_prefix(prefix, p),
            None => prefix,
        };
        match field_child(n, "list"@) {
            Some(list) => {
                proof {
                    lemma_field_child_decreases(n, "list"@);
                }
                use_list(list, source, np, list.children@.len() as int)
            },
            None => (Seq::empty(), Seq::empty()),
        }
    } else if kind_is(n, "use_wildcard"@) {
        if n.children@.len() > 0 {
            match node_text(n.children@[0], source) {
                Some(path) => (Seq::empty(), seq![under_prefix(prefix, path)]),
                None => (Seq::empty(), Seq::empty()),
            }
        } else {
            (Seq::empty(), Seq::empty())
        }
    } else if kind_is(n, "scoped_identifier"@) || kind_is(n, "identifier"@) {
        match node_text(n, source) {
            Some(t) => (seq![(imported_name(t), under_prefix(prefix, t))], Seq::empty()),
            None => (Seq::empty(), Seq::empty()),
        }
    } else {
        (Seq::empty(), Seq::empty())
    }
}

/// What the first `k` children of a node give as use trees under a prefix, one after another.
pub open spec fn use_list(list: SyntaxNode, source: Seq<u8>, prefix: Seq<char>, k: int) -> (
    Seq<(Seq<char>, Seq<char>)>,
    Seq<Seq<char>>,
)
    decreases crate::syntax::depth(list), k,
{
    if k <= 0 || k > list.children@.len() {
        (Seq::empty(), Seq::empty())
    } else {
        let prev = use_list(list, source, prefix, k - 1);
        proof {
            crate::syntax::lemma_child_depth(list, k - 1);
        }
        let t = use_tree(list.children@[k - 1], source, prefix);
        (prev.0 + t.0, prev.1 + t.1)
    }
}

/// A path under a prefix: `prefix::path`, or `path` alone without a prefix.
pub open spec fn under_prefix(prefix: Seq<char>, path: Seq<char>) -> Seq<char> {
    if prefix.len() == 0 {
        path
    } else {
        prefix + "::"@ + path
    }
}

fn join_path(prefix: &str, path: &str) -> (r: String)
    ensures
        r@ == under_prefix(prefix@, path@),
{
    if prefix.is_empty() {
        path.to_string()
    } else {
        concat3(prefix, "::", path)
    }
}

/// The name a `use` path imports: its last segment.
pub open spec fn imported_name(path: Seq<char>) -> Seq<char> {
    after_last_occurrence(path, "::"@)
}

/// One use tree under a prefix: an aliased path, a braced list, a wildcard, or a plain path.
fn parse_use_tree(
    node: &SyntaxNode,
    source: &[u8],
    prefix: &str,
    import_map: &mut Vec<(String, String)>,
    wildcards: &mut Vec<String>,
)
    ensures
        pairs_view(final(import_map)@) == pairs_view(old(import_map)@) + use_tree(*node, source@, prefix@).0,
        views(final(wildcards)@) == views(old(wildcards)@) + use_tree(*node, source@, prefix@).1,
    decreases crate::syntax::depth(*node),
{
    let ghost im0 = pairs_view(import_map@);
    let ghost wc0 = views(wildcards@);
    if node.is_kind("use_as_clause") {
        let path = field_text_of(node, "path", source);
        let alias = field_text_of(node, "alias", source);
        match (path, alias) {
            (Some(p), Some(a)) => {
                let full = join_path(prefix, p.as_str());
                let pair = (a, full);
                proof {
                    assert(pairs_view(import_map@.push(pair)) =~= pairs_view(import_map@).push((pair.0@, pair.1@)));
                }
                import_map.push(pair);
                proof {
                    assert(im0.push((pair.0@, pair.1@)) =~= im0 + seq![(pair.0@, pair.1@)]);
                }
            },
            _ => {},
        }
        proof {
            assert(im0 + Seq::<(Seq<char>, Seq<char>)>::empty() =~= im0);
            assert(wc0 + Seq::<Seq<char>>::empty() =~= wc0);
        }
    } else if node.is_kind("scoped_use_list") {
        let new_prefix = match field_text_of(node, "path", source) {
            Some(p) => join_path(prefix, p.as_str()),
            None => prefix.to_string(),
        };
        match node.child_by_field_name("list") {
            Some(list) => {
                proof {
                    lemma_field_child_decreases(*node, "list"@);
                    assert(im0 + use_list(*list, source@, new_prefix@, 0).0 =~= im0);
                    assert(wc0 + use_list(*list, source@, new_prefix@, 0).1 =~= wc0);
                }
                let mut i: usize = 0;
                while i < list.children.len()
                    invariant
                        i <= list.children.len(),
                        crate::syntax::depth(*list) < crate::syntax::depth(*node),
                        pairs_view(import_map@) == im0 + use_list(*list, source@, new_prefix@, i as int).0,
                        views(wildcards@) == wc0 + use_list(*list, source@, new_prefix@, i as int).1,
                    decreases list.children.len() - i,
                {
                    proof {
                        crate::syntax::lemma_child_depth(*list, i as int);
                    }
                    parse_use_tree(&list.children[i], source, new_prefix.as_str(), import_map, wildcards);
                    proof {
                        let t = use_tree(list.children@[i as int], source@, new_prefix@);
                        let l = use_list(*list, source@, new_prefix@, i as int);
                        assert(im0 + (l.0 + t.0) =~= (im0 + l.0) + t.0);
                        assert(wc0 + (l.1 + t.1) =~= (wc0 + l.1) + t.1);
                    }
                    i = i + 1;
                }
            },
            None => {
                proof {
                    assert(im0 + Seq::<(Seq<char>, Seq<char>)>::empty() =~= im0);
                    assert(wc0 + Seq::<Seq<char>>::empty() =~= wc0);
                }
            },
        }
    } else if node.is_kind("use_wildcard") {
        let mut pushed = false;
        match node.child(0) {
            Some(path_node) => match text(path_node, source) {
                Some(path) => {
                    let w = join_path(prefix, path.as_str());
                    proof {
                        assert(views(wildcards@.push(w)) =~= wc0 + seq![w@]);
                    }
                    wildcards.push(w);
                    pushed = true;
                },
                None => {},
            },
            None => {},
        }
        proof {
            assert(im0 + Seq::<(Seq<char>, Seq<char>)>::empty() =~= im0);
            if !pushed {
                assert(wc0 + Seq::<Seq<char>>::empty() =~= wc0);
            }
        }
    } else if node.is_kind("scoped_identifier") || node.is_kind("identifier") {
        match text(node, source) {
            Some(t) => {
                let full = join_path(prefix, t.as_str());
                let simple = after_last_str(t.as_str(), "::");
                proof {
                    assert(pairs_view(import_map@.push((simple, full))) =~= im0 + seq![(simple@, full@)]);
                }
                import_map.push((simple, full));
            },
            None => {
                proof {
                    assert(im0 + Seq::<(Seq<char>, Seq<char>)>::empty() =~= im0);
                }
            },
        }
        proof {
            assert(wc0 + Seq::<Seq<char>>::empty() =~= wc0);
        }
    } else {
        proof {
            assert(im0 + Seq::<(Seq<char>, Seq<char>)>::empty() =~= im0);
            assert(wc0 + Seq::<Seq<char>>::empty() =~= wc0);
        }
    }
}

// ---------------------------------------------------------------------------------------------
// Visibility and types
// ---------------------------------------------------------------------------------------------

pub open spec fn visibility_part(c: SyntaxNode, source: Seq<u8>) -> Option<Seq<char>> {
    if kind_is(c, "visibility_modifier"@) {
        match node_text(c, source) {
            Some(t) => Some(trim_seq(t)),
            None => None,
        }
    } else {
        None
    }
}

pub open spec fn visibility_part_fn(source: Seq<u8>) -> spec_fn(SyntaxNode) -> Option<Seq<char>> {
    |c: SyntaxNode| visibility_part(c, source)
}

/// The visibility of an item: its visibility modifier as written (`pub`, `pub(crate)`, ...),
/// `private` without one.
pub open spec fn rust_visibility(n: SyntaxNode, source: Seq<u8>) -> Seq<char> {
    match first_some_from(n.children@, visibility_part_fn(source), 0) {
        Some(v) => v,
        None => "private"@,
    }
}

/// The visibility of an item.
pub fn extract_visibility(node: &SyntaxNode, source: &[u8]) -> (r: Visibility)
    ensures
        r.0@ == rust_visibility(*node, source@),
{
    let ghost f = visibility_part_fn(source@);
    let mut i: usize = 0;
    while i < node.children.len()
        invariant
            i <= node.children.len(),
            f == visibility_part_fn(source@),
            first_some_from(node.children@, f, 0) == first_some_from(node.children@, f, i as int),
        decreases node.children.len() - i,
    {
        let c = &node.children[i];
        if c.is_kind("visibility_modifier") {
            match text(c, source) {
                Some(t) => {
                    let v = trim(t.as_str());
                    return Visibility(v);
                },
                None => {},
            }
        }
        i = i + 1;
    }
    Visibility::new("private")
}

/// A type name resolved through the imports; unchanged when none imports it.
pub open spec fn rust_resolve(name: Seq<char>, imports: Seq<(Seq<char>, Seq<char>)>) -> Seq<char> {
    match lookup_last(imports, name) {
        Some(p) => p,
        None => name,
    }
}

/// Resolves a type name through the imports.
pub fn resolve_type_name(name: &str, import_map: &Vec<(String, String)>) -> (r: String)
    ensures
        r@ == rust_resolve(name@, pairs_view(import_map@)),
{
    match lookup(import_map, name) {
        Some(p) => p,
        None => name.to_string(),
    }
}

/// Whether a type name is user-defined: its last path segment starts with an uppercase
/// letter.
pub open spec fn rust_user_type(name: Seq<char>) -> bool {
    starts_upper(split_last_piece(name, "::"@))
}

/// Whether a type name is user-defined.
pub fn is_user_type(name: &str) -> (r: bool)
    ensures
        r == rust_user_type(name@),
{
    let last = split_last(name, "::");
    starts_with_uppercase(last.as_str())
}

/// Pushes the text of `n` where it has one.
fn push_text(n: &SyntaxNode, source: &[u8], out: &mut Vec<String>)
    ensures
        views(final(out)@) == views(old(out)@) + match node_text(*n, source@) {
            Some(s) => seq![s],
            None => Seq::<Seq<char>>::empty(),
        },
{
    match text(n, source) {
        Some(s) => {
            proof {
                assert(views(out@.push(s)) =~= views(out@) + seq![s@]);
            }
            out.push(s);
        },
        None => {
            proof {
                assert(views(out@) + Seq::<Seq<char>>::empty() =~= views(out@));
            }
        },
    }
}

/// The type names in a type expression, such as `Box` and `Repository` in
/// `Box<dyn Repository>`, `Item` in `&mut Item`, or `HashMap` and `Item` in
/// `HashMap<String, Vec<Item>>`.
pub fn extract_type_names(node: &SyntaxNode, source: &[u8], out: &mut Vec<String>)
    ensures
        views(final(out)@) == views(old(out)@) + rs_type_names(*node, source@),
    decreases crate::syntax::depth(*node),
{
    let ghost o0 = views(out@);
    proof {
        assert(o0 + Seq::<Seq<char>>::empty() =~= o0);
    }
    if node.is_kind("type_identifier") || node.is_kind("scoped_type_identifier") {
        push_text(node, source, out);
    } else if node.is_kind("generic_type") {
        match node.child_by_field_name("type") {
            Some(t) => {
                proof {
                    lemma_field_child_decreases(*node, "type"@);
                }
                extract_type_names(t, source, out);
            },
            None => {},
        }
        let ghost o1 = views(out@);
        match node.child_by_field_name("type_arguments") {
            Some(args) => {
                proof {
                    lemma_field_child_decreases(*node, "type_arguments"@);
                }
                let mut inner: Vec<String> = Vec::new();
                let mut i: usize = 0;
                proof {
                    assert(views(inner@) =~= rs_type_names_in(*args, source@, 0));
                }
                while i < args.children.len()
                    invariant
                        i <= args.children.len(),
                        crate::syntax::depth(*args) < crate::syntax::depth(*node),
                        views(inner@) == rs_type_names_in(*args, source@, i as int),
                    decreases args.children.len() - i,
                {
                    proof {
                        crate::syntax::lemma_child_depth(*args, i as int);
                    }
                    extract_type_names(&args.children[i], source, &mut inner);
                    i = i + 1;
                }
                push_non_std(&inner, out);
            },
            None => {
                proof {
                    assert(o1 + Seq::<Seq<char>>::empty() =~= o1);
                }
            },
        }
        proof {
            let a = match field_child(*node, "type"@) {
                Some(t) => rs_type_names(t, source@),
                None => Seq::empty(),
            };
            let b = match field_child(*node, "type_arguments"@) {
                Some(args) => rs_type_names_in(args, source@, args.children@.len() as int),
                None => Seq::empty(),
            };
            assert((o0 + a) + b =~= o0 + (a + b));
        }
    } else if node.is_kind("reference_type") || node.is_kind("pointer_type") {
        match node.child_by_field_name("type") {
            Some(t) => {
                proof {
                    lemma_field_child_decreases(*node, "type"@);
                }
                extract_type_names(t, source, out);
            },
            None => {},
        }
    } else if node.is_kind("dynamic_type") {
        match node.child_by_field_name("trait") {
            Some(t) => {
                proof {
                    lemma_field_child_decreases(*node, "trait"@);
                }
                extract_type_names(t, source, out);
            },
            None => {
                push_plain_type_names(node, source, out);
            },
        }
    } else if node.is_kind("abstract_type") {
        push_plain_type_names(node, source, out);
    } else if node.is_kind("tuple_type") {
        let mut i: usize = 0;
        proof {
            assert(o0 + rs_type_names_in(*node, source@, 0) =~= o0);
        }
        while i < node.children.len()
            invariant
                i <= node.children.len(),
                views(out@) == o0 + rs_type_names_in(*node, source@, i as int),
            decreases node.children.len() - i,
        {
            proof {
                crate::syntax::lemma_child_depth(*node, i as int);
            }
            extract_type_names(&node.children[i], source, out);
            proof {
                let p = rs_type_names_in(*node, source@, i as int);
                let x = rs_type_names(node.children@[i as int], source@);
                assert((o0 + p) + x =~= o0 + (p + x));
            }
            i = i + 1;
        }
    }
}

fn is_std_type(n: &str) -> (r: bool)
    ensures
        r == is_std_type_name(n@),
{
    str_eq(n, "String") || str_eq(n, "Vec") || str_eq(n, "Option") || str_eq(n, "Result")
        || str_eq(n, "Box") || str_eq(n, "HashMap") || str_eq(n, "HashSet") || str_eq(
        n,
        "BTreeMap",
    ) || str_eq(n, "BTreeSet") || str_eq(n, "VecDeque") || str_eq(n, "Rc") || str_eq(n, "Arc")
        || str_eq(n, "RefCell") || str_eq(n, "Cell") || str_eq(n, "Mutex") || str_eq(n, "RwLock")
        || str_eq(n, "Cow")
}

/// Appends the names of `names` that are not common standard library types.
fn push_non_std(names: &Vec<String>, out: &mut Vec<String>)
    ensures
        views(final(out)@) == views(old(out)@) + drop_std_names(views(names@)),
{
    let ghost o0 = views(out@);
    let mut i: usize = 0;
    proof {
        assert(views(names@).take(0) =~= Seq::<Seq<char>>::empty());
        assert(o0 + drop_std_names(views(names@).take(0)) =~= o0);
    }
    while i < names.len()
        invariant
            i <= names.len(),
            views(out@) == o0 + drop_std_names(views(names@).take(i as int)),
        decreases names.len() - i,
    {
        let ghost t = views(names@).take(i as int + 1);
        proof {
            assert(t.drop_last() =~= views(names@).take(i as int));
            assert(t.last() == names@[i as int]@);
        }
        if !is_std_type(names[i].as_str()) {
            proof {
                assert(views(out@.push(names[i as int])) =~= views(out@).push(names@[i as int]@));
            }
            out.push(names[i].clone());
        }
        i = i + 1;
    }
    proof {
        assert(views(names@).take(i as int) =~= views(names@));
    }
}

/// A child under a field is less deep than its parent.
pub proof fn lemma_field_child_decreases(n: SyntaxNode, f: Seq<char>)
    ensures
        field_child(n, f) matches Some(c) ==> crate::syntax::depth(c) < crate::syntax::depth(n),
{
    crate::syntax::lemma_field_index_from(n.children@, f, 0);
    match crate::syntax::field_index_from(n.children@, f, 0) {
        Some(i) => crate::syntax::lemma_child_depth(n, i),
        None => {},
    }
}

/// The plain type names among the children of `node`.
fn push_plain_type_names(node: &SyntaxNode, source: &[u8], out: &mut Vec<String>)
    ensures
        views(final(out)@) == views(old(out)@) + rs_plain_names(node.children@, source@, node.children@.len() as int),
{
    let ghost o0 = views(out@);
    let mut i: usize = 0;
    proof {
        assert(o0 + rs_plain_names(node.children@, source@, 0) =~= o0);
    }
    while i < node.children.len()
        invariant
            i <= node.children.len(),
            views(out@) == o0 + rs_plain_names(node.children@, source@, i as int),
        decreases node.children.len() - i,
    {
        let c = &node.children[i];
        let ghost p = rs_plain_names(node.children@, source@, i as int);
        if c.is_kind("type_identifier") || c.is_kind("scoped_type_identifier") {
            push_text(c, source, out);
            proof {
                let x = match node_text(*c, source@) {
                    Some(s) => seq![s],
                    None => Seq::<Seq<char>>::empty(),
                };
                assert((o0 + p) + x =~= o0 + (p + x));
            }
        } else {
            proof {
                assert(p + Seq::<Seq<char>>::empty() =~= p);
            }
        }
        i = i + 1;
    }
}

/// A relationship of the given kind to each user type named in a type expression, resolved
/// through the imports.
fn push_type_relationships(
    type_node: &SyntaxNode,
    source: &[u8],
    source_local_id: usize,
    kind: RelationshipKind,
    relationships: &mut Vec<ExtractedRelationship>,
    import_map: &Vec<(String, String)>,
    n_symbols: Ghost<nat>,
)
    requires
        source_local_id < n_symbols@,
        relationships_wf(old(relationships)@, n_symbols@),
    ensures
        grew(old(relationships)@, final(relationships)@),
        relationships_wf(final(relationships)@, n_symbols@),
        forall|k: int|
            old(relationships)@.len() <= k < final(relationships)@.len() ==> (#[trigger] final(relationships)@[k]).kind
                == kind && final(relationships)@[k].source_local_id == source_local_id,
        relationships_view(final(relationships)@) == relationships_view(old(relationships)@) + rs_type_rels(
            *type_node,
            source@,
            pairs_view(import_map@),
            source_local_id as int,
            kind,
        ),
{
    let ghost r0 = relationships_view(old(relationships)@);
    let ghost imports = pairs_view(import_map@);
    let mut names: Vec<String> = Vec::new();
    proof {
        assert(views(names@) =~= Seq::<Seq<char>>::empty());
    }
    extract_type_names(type_node, source, &mut names);
    let ghost nv = views(names@);
    proof {
        assert(nv =~= rs_type_names(*type_node, source@));
        assert(r0 + rs_names_rels(nv, imports, source_local_id as int, kind, 0) =~= r0);
    }
    let mut i: usize = 0;
    while i < names.len()
        invariant
            i <= names.len(),
            source_local_id < n_symbols@,
            grew(old(relationships)@, relationships@),
            relationships_wf(relationships@, n_symbols@),
            forall|k: int|
                old(relationships)@.len() <= k < relationships@.len() ==> (#[trigger] relationships@[k]).kind
                    == kind && relationships@[k].source_local_id == source_local_id,
            nv == views(names@),
            imports == pairs_view(import_map@),
            r0 == relationships_view(old(relationships)@),
            relationships_view(relationships@) == r0 + rs_names_rels(nv, imports, source_local_id as int, kind, i as int),
        decreases names.len() - i,
    {
        let ghost p = rs_names_rels(nv, imports, source_local_id as int, kind, i as int);
        proof {
            assert(nv[i as int] == names@[i as int]@);
        }
        if is_user_type(names[i].as_str()) {
            let resolved = resolve_type_name(names[i].as_str(), import_map);
            let r = relationship(source_local_id, resolved, kind);
            proof {
                lemma_relationships_view_push(relationships@, r);
                assert((r0 + p) + seq![relationship_view(r)] =~= r0 + (p + seq![relationship_view(r)]));
            }
            relationships.push(r);
        } else {
            proof {
                assert(p + Seq::<RelationshipView>::empty() =~= p);
            }
        }
        i = i + 1;
    }
}

// ---------------------------------------------------------------------------------------------
// Items
// ---------------------------------------------------------------------------------------------

// ---------------------------------------------------------------------------------------------
// The symbols of a file
// ---------------------------------------------------------------------------------------------

/// The symbols of a file: those of each top-level item.
pub open spec fn rust_symbols(root: SyntaxNode, source: Seq<u8>) -> Seq<SymbolView> {
    symbols_from(root.children@, root.children@.len() as int, 0, rs_top_fn(source))
}

pub open spec fn rs_top_fn(source: Seq<u8>) -> spec_fn(SyntaxNode, int) -> Seq<SymbolView> {
    |c: SyntaxNode, id: int| rs_top_symbols(c, source, id)
}

/// The symbols of a top-level item; `id` is the number of symbols before them.
pub open spec fn rs_top_symbols(c: SyntaxNode, source: Seq<u8>, id: int) -> Seq<SymbolView> {
    if kind_is(c, "struct_item"@) {
        rs_struct_symbols(c, source, id)
    } else if kind_is(c, "enum_item"@) {
        rs_enum_symbols(c, source, id)
    } else if kind_is(c, "trait_item"@) {
        rs_trait_symbols(c, source, id)
    } else if kind_is(c, "impl_item"@) {
        rs_impl_symbols(c, source, id)
    } else if kind_is(c, "function_item"@) {
        rs_item_symbols(c, source, "function"@, id)
    } else if kind_is(c, "type_item"@) {
        rs_item_symbols(c, source, "type-alias"@, id)
    } else {
        Seq::empty()
    }
}

/// The symbols of a named struct: the struct, then its named fields.
pub open spec fn rs_struct_symbols(n: SyntaxNode, source: Seq<u8>, id: int) -> Seq<SymbolView> {
    match field_text(n, "name"@, source) {
        Some(name) => seq![
            node_symbol(n, id, name, None, name, "struct"@, rust_visibility(n, source), None, Seq::empty(), None),
        ] + symbols_from(n.children@, n.children@.len() as int, id + 1, rs_struct_part_fn(source, name, id)),
        None => Seq::empty(),
    }
}

pub open spec fn rs_struct_part_fn(source: Seq<u8>, parent_name: Seq<char>, parent_id: int) -> spec_fn(SyntaxNode, int) -> Seq<
    SymbolView,
> {
    |c: SyntaxNode, id: int|
        if kind_is(c, "field_declaration_list"@) {
            symbols_from(c.children@, c.children@.len() as int, id, rs_field_fn(source, parent_name, parent_id))
        } else {
            Seq::empty()
        }
}

pub open spec fn rs_field_fn(source: Seq<u8>, parent_name: Seq<char>, parent_id: int) -> spec_fn(SyntaxNode, int) -> Seq<
    SymbolView,
> {
    |d: SyntaxNode, id: int|
        if kind_is(d, "field_declaration"@) {
            rs_field_symbols(d, source, parent_name, parent_id, id)
        } else {
            Seq::empty()
        }
}

/// The `field` symbol of a named field of a struct.
pub open spec fn rs_field_symbols(d: SyntaxNode, source: Seq<u8>, parent_name: Seq<char>, parent_id: int, id: int) -> Seq<
    SymbolView,
> {
    match field_text(d, "name"@, source) {
        Some(name) => seq![
            node_symbol(
                d,
                id,
                name,
                None,
                parent_name + "."@ + name,
                "field"@,
                rust_visibility(d, source),
                Some(parent_id),
                Seq::empty(),
                field_text(d, "type"@, source),
            ),
        ],
        None => Seq::empty(),
    }
}

/// The symbols of a named struct: the struct first, then its named fields, each a member of
/// the struct (its parent, with a qualified name that is the struct's name, a dot, and the
/// field's name).
pub proof fn law_struct_fields_below_struct(n: SyntaxNode, source: Seq<u8>, id: int)
    ensures
        ({
            let s = rs_struct_symbols(n, source, id);
            field_text(n, "name"@, source) matches Some(name) ==> {
                &&& s.len() > 0
                &&& s[0].local_id == id
                &&& s[0].name == name
                &&& s[0].kind == "struct"@
                &&& members_of(s.skip(1), name + "."@, id)
            }
        }),
{
    match field_text(n, "name"@, source) {
        Some(name) => {
            let s = rs_struct_symbols(n, source, id);
            let f = rs_struct_part_fn(source, name, id);
            assert forall|c: SyntaxNode, j: int| #[trigger] members_of(f(c, j), name + "."@, id) by {
                if kind_is(c, "field_declaration_list"@) {
                    let g = rs_field_fn(source, name, id);
                    assert forall|d: SyntaxNode, k: int| #[trigger] members_of(g(d, k), name + "."@, id) by {
                        match field_text(d, "name"@, source) {
                            Some(fname) => lemma_member_qn(name, fname),
                            None => {},
                        }
                    }
                    lemma_symbols_from_members(c.children@, c.children@.len() as int, j, g, name + "."@, id);
                }
            }
            lemma_symbols_from_members(n.children@, n.children@.len() as int, id + 1, f, name + "."@, id);
            assert(s.skip(1) =~= symbols_from(n.children@, n.children@.len() as int, id + 1, f));
        },
        None => {},
    }
}

/// The symbols of a named enum: the enum, then its variants with their fields.
pub open spec fn rs_enum_symbols(n: SyntaxNode, source: Seq<u8>, id: int) -> Seq<SymbolView> {
    match field_text(n, "name"@, source) {
        Some(name) => seq![
            node_symbol(n, id, name, None, name, "enum"@, rust_visibility(n, source), None, Seq::empty(), None),
        ] + symbols_from(n.children@, n.children@.len() as int, id + 1, rs_enum_part_fn(source, name, id)),
        None => Seq::empty(),
    }
}

pub open spec fn rs_enum_part_fn(source: Seq<u8>, enum_name: Seq<char>, enum_id: int) -> spec_fn(SyntaxNode, int) -> Seq<
    SymbolView,
> {
    |c: SyntaxNode, id: int|
        if kind_is(c, "enum_variant_list"@) {
            symbols_from(c.children@, c.children@.len() as int, id, rs_variant_fn(source, enum_name, enum_id))
        } else {
            Seq::empty()
        }
}

pub open spec fn rs_variant_fn(source: Seq<u8>, enum_name: Seq<char>, enum_id: int) -> spec_fn(SyntaxNode, int) -> Seq<
    SymbolView,
> {
    |v: SyntaxNode, id: int|
        if kind_is(v, "enum_variant"@) {
            rs_variant_symbols(v, source, enum_name, enum_id, id)
        } else {
            Seq::empty()
        }
}

/// The symbols of a named variant: the (public) variant, then the named fields of a struct
/// variant.
pub open spec fn rs_variant_symbols(v: SyntaxNode, source: Seq<u8>, enum_name: Seq<char>, enum_id: int, id: int) -> Seq<
    SymbolView,
> {
    match field_text(v, "name"@, source) {
        Some(name) => {
            let qn = enum_name + "."@ + name;
            seq![node_symbol(v, id, name, None, qn, "variant"@, "pub"@, Some(enum_id), Seq::empty(), None)]
                + symbols_from(v.children@, v.children@.len() as int, id + 1, rs_variant_part_fn(source, qn, id))
        },
        None => Seq::empty(),
    }
}

pub open spec fn rs_variant_part_fn(source: Seq<u8>, variant_qn: Seq<char>, variant_id: int) -> spec_fn(SyntaxNode, int) -> Seq<
    SymbolView,
> {
    |c: SyntaxNode, id: int|
        if kind_is(c, "field_declaration_list"@) {
            symbols_from(c.children@, c.children@.len() as int, id, rs_variant_field_fn(source, variant_qn, variant_id))
        } else {
            Seq::empty()
        }
}

pub open spec fn rs_variant_field_fn(source: Seq<u8>, variant_qn: Seq<char>, variant_id: int) -> spec_fn(SyntaxNode, int) -> Seq<
    SymbolView,
> {
    |f: SyntaxNode, id: int|
        if kind_is(f, "field_declaration"@) {
            match field_text(f, "name"@, source) {
                Some(fname) => seq![
                    node_symbol(
                        f,
                        id,
                        fname,
                        None,
                        variant_qn + "."@ + fname,
                        "field"@,
                        "pub"@,
                        Some(variant_id),
                        Seq::empty(),
                        field_text(f, "type"@, source),
                    ),
                ],
                None => Seq::empty(),
            }
        } else {
            Seq::empty()
        }
}

/// The symbols of a named trait: the trait, then its methods.
pub open spec fn rs_trait_symbols(n: SyntaxNode, source: Seq<u8>, id: int) -> Seq<SymbolView> {
    match field_text(n, "name"@, source) {
        Some(name) => seq![
            node_symbol(n, id, name, None, name, "trait"@, rust_visibility(n, source), None, Seq::empty(), None),
        ] + match field_child(n, "body"@) {
            Some(b) => symbols_from(b.children@, b.children@.len() as int, id + 1, rs_trait_member_fn(source, name, id)),
            None => Seq::empty(),
        },
        None => Seq::empty(),
    }
}

pub open spec fn rs_trait_member_fn(source: Seq<u8>, trait_name: Seq<char>, trait_id: int) -> spec_fn(SyntaxNode, int) -> Seq<
    SymbolView,
> {
    |m: SyntaxNode, id: int|
        if kind_is(m, "function_signature_item"@) || kind_is(m, "function_item"@) {
            rs_method_symbols(m, source, trait_name, Some(trait_id), id)
        } else {
            Seq::empty()
        }
}

/// The symbols of an impl block with a type: its methods, qualified by the type.
pub open spec fn rs_impl_symbols(n: SyntaxNode, source: Seq<u8>, id: int) -> Seq<SymbolView> {
    match (field_text(n, "type"@, source), field_child(n, "body"@)) {
        (Some(t), Some(b)) => symbols_from(b.children@, b.children@.len() as int, id, rs_impl_member_fn(source, t)),
        _ => Seq::empty(),
    }
}

pub open spec fn rs_impl_member_fn(source: Seq<u8>, owner_type: Seq<char>) -> spec_fn(SyntaxNode, int) -> Seq<SymbolView> {
    |m: SyntaxNode, id: int|
        if kind_is(m, "function_item"@) {
            rs_method_symbols(m, source, owner_type, None, id)
        } else {
            Seq::empty()
        }
}

/// The `method` symbol of a named function of a trait or an impl block.
pub open spec fn rs_method_symbols(m: SyntaxNode, source: Seq<u8>, owner: Seq<char>, parent: Option<int>, id: int) -> Seq<
    SymbolView,
> {
    match field_text(m, "name"@, source) {
        Some(name) => seq![
            node_symbol(
                m,
                id,
                name,
                Some(name + "()"@),
                owner + "."@ + name,
                "method"@,
                rust_visibility(m, source),
                parent,
                Seq::empty(),
                None,
            ),
        ],
        None => Seq::empty(),
    }
}

/// The symbol of a named top-level function (with signature `name()`) or type alias (with
/// its aliased type).
pub open spec fn rs_item_symbols(n: SyntaxNode, source: Seq<u8>, kind: Seq<char>, id: int) -> Seq<SymbolView> {
    match field_text(n, "name"@, source) {
        Some(name) => seq![
            node_symbol(
                n,
                id,
                name,
                if kind == "function"@ {
                    Some(name + "()"@)
                } else {
                    None
                },
                name,
                kind,
                rust_visibility(n, source),
                None,
                Seq::empty(),
                if kind == "function"@ {
                    None
                } else {
                    field_text(n, "type"@, source)
                },
            ),
        ],
        None => Seq::empty(),
    }
}

// ---------------------------------------------------------------------------------------------
// The relationships of a file
// ---------------------------------------------------------------------------------------------

/// The relationships of a file, in the order of its top-level items, with type names
/// resolved through its `use` declarations.
pub open spec fn rust_relationships(root: SyntaxNode, source: Seq<u8>) -> Seq<RelationshipView> {
    rs_items_rels(
        root.children@,
        source,
        use_declarations(root.children@, source, root.children@.len() as int).0,
        root.children@.len() as int,
    )
}

/// The relationships of the first `k` top-level items; each item is told the symbols of
/// the items before it.
pub open spec fn rs_items_rels(
    cs: Seq<SyntaxNode>,
    source: Seq<u8>,
    imports: Seq<(Seq<char>, Seq<char>)>,
    k: int,
) -> Seq<RelationshipView>
    decreases k,
{
    if k <= 0 || k > cs.len() {
        Seq::empty()
    } else {
        rs_items_rels(cs, source, imports, k - 1) + rs_top_rels(
            cs[k - 1],
            source,
            imports,
            symbols_from(cs, k - 1, 0, rs_top_fn(source)),
        )
    }
}

/// The relationships of a top-level item, after the symbols `before`.
pub open spec fn rs_top_rels(
    c: SyntaxNode,
    source: Seq<u8>,
    imports: Seq<(Seq<char>, Seq<char>)>,
    before: Seq<SymbolView>,
) -> Seq<RelationshipView> {
    let id = before.len() as int;
    if kind_is(c, "struct_item"@) {
        rs_struct_rels(c, source, imports, id)
    } else if kind_is(c, "enum_item"@) {
        Seq::empty()
    } else if kind_is(c, "trait_item"@) {
        rs_trait_rels(c, source, imports, id)
    } else if kind_is(c, "impl_item"@) {
        rs_impl_rels(c, source, imports, before)
    } else if kind_is(c, "function_item"@) {
        rs_item_rels(c, source, imports, "function"@, id)
    } else if kind_is(c, "type_item"@) {
        rs_item_rels(c, source, imports, "type-alias"@, id)
    } else {
        Seq::empty()
    }
}

/// Whether a type name is one of the common standard library types that type arguments
/// leave out.
pub open spec fn is_std_type_name(n: Seq<char>) -> bool {
    n == "String"@ || n == "Vec"@ || n == "Option"@ || n == "Result"@ || n == "Box"@ || n
        == "HashMap"@ || n == "HashSet"@ || n == "BTreeMap"@ || n == "BTreeSet"@ || n
        == "VecDeque"@ || n == "Rc"@ || n == "Arc"@ || n == "RefCell"@ || n == "Cell"@ || n
        == "Mutex"@ || n == "RwLock"@ || n == "Cow"@
}

/// The names that are not common standard library types, in order.
pub open spec fn drop_std_names(s: Seq<Seq<char>>) -> Seq<Seq<char>>
    decreases s.len(),
{
    if s.len() == 0 {
        s
    } else {
        let pre = drop_std_names(s.drop_last());
        if is_std_type_name(s.last()) {
            pre
        } else {
            pre.push(s.last())
        }
    }
}

/// The type names in a type expression, in order; inside type arguments the common standard
/// library types are left out, so that `HashMap<String, Vec<Item>>` gives `HashMap` and
/// `Item`.
pub open spec fn rs_type_names(n: SyntaxNode, source: Seq<u8>) -> Seq<Seq<char>>
    decreases depth(n), n.children@.len() + 1,
{
    if kind_is(n, "type_identifier"@) || kind_is(n, "scoped_type_identifier"@) {
        match node_text(n, source) {
            Some(s) => seq![s],
            None => Seq::empty(),
        }
    } else if kind_is(n, "generic_type"@) {
        (match field_child(n, "type"@) {
            Some(t) => {
                proof {
                    lemma_field_child_decreases(n, "type"@);
                }
                rs_type_names(t, source)
            },
            None => Seq::empty(),
        }) + match field_child(n, "type_arguments"@) {
            Some(args) => {
                proof {
                    lemma_field_child_decreases(n, "type_arguments"@);
                }
                drop_std_names(rs_type_names_in(args, source, args.children@.len() as int))
            },
            None => Seq::empty(),
        }
    } else if kind_is(n, "reference_type"@) || kind_is(n, "pointer_type"@) {
        match field_child(n, "type"@) {
            Some(t) => {
                proof {
                    lemma_field_child_decreases(n, "type"@);
                }
                rs_type_names(t, source)
            },
            None => Seq::empty(),
        }
    } else if kind_is(n, "dynamic_type"@) {
        match field_child(n, "trait"@) {
            Some(t) => {
                proof {
                    lemma_field_child_decreases(n, "trait"@);
                }
                rs_type_names(t, source)
            },
            None => rs_plain_names(n.children@, source, n.children@.len() as int),
        }
    } else if kind_is(n, "abstract_type"@) {
        rs_plain_names(n.children@, source, n.children@.len() as int)
    } else if kind_is(n, "tuple_type"@) {
        rs_type_names_in(n, source, n.children@.len() as int)
    } else {
        Seq::empty()
    }
}

/// The type names in the first `k` children of a node.
pub open spec fn rs_type_names_in(n: SyntaxNode, source: Seq<u8>, k: int) -> Seq<Seq<char>>
    decreases depth(n), k,
{
    if k <= 0 || k > n.children@.len() {
        Seq::empty()
    } else {
        proof {
            crate::syntax::lemma_child_depth(n, k - 1);
        }
        rs_type_names_in(n, source, k - 1) + rs_type_names(n.children@[k - 1], source)
    }
}

/// The plain type names among the first `k` nodes.
pub open spec fn rs_plain_names(cs: Seq<SyntaxNode>, source: Seq<u8>, k: int) -> Seq<Seq<char>>
    decreases k,
{
    if k <= 0 || k > cs.len() {
        Seq::empty()
    } else {
        rs_plain_names(cs, source, k - 1) + if kind_is(cs[k - 1], "type_identifier"@) || kind_is(
            cs[k - 1],
            "scoped_type_identifier"@,
        ) {
            match node_text(cs[k - 1], source) {
                Some(s) => seq![s],
                None => Seq::empty(),
            }
        } else {
            Seq::empty()
        }
    }
}

/// A relationship of `kind` from `id` to each of the first `k` names that is a user type,
/// resolved through the imports.
pub open spec fn rs_names_rels(
    names: Seq<Seq<char>>,
    imports: Seq<(Seq<char>, Seq<char>)>,
    id: int,
    kind: RelationshipKind,
    k: int,
) -> Seq<RelationshipView>
    decreases k,
{
    if k <= 0 || k > names.len() {
        Seq::empty()
    } else {
        rs_names_rels(names, imports, id, kind, k - 1) + if rust_user_type(names[k - 1]) {
            seq![rel(id, rust_resolve(names[k - 1], imports), kind)]
        } else {
            Seq::empty()
        }
    }
}

/// The relationships of `kind` from `id` to the user types of a type expression.
pub open spec fn rs_type_rels(
    tn: SyntaxNode,
    source: Seq<u8>,
    imports: Seq<(Seq<char>, Seq<char>)>,
    id: int,
    kind: RelationshipKind,
) -> Seq<RelationshipView> {
    let names = rs_type_names(tn, source);
    rs_names_rels(names, imports, id, kind, names.len() as int)
}

pub open spec fn rs_param_fn(source: Seq<u8>, imports: Seq<(Seq<char>, Seq<char>)>, id: int) -> spec_fn(SyntaxNode) -> Seq<
    RelationshipView,
> {
    |c: SyntaxNode|
        if kind_is(c, "parameter"@) {
            match field_child(c, "type"@) {
                Some(t) => rs_type_rels(t, source, imports, id, RelationshipKind::FieldType),
                None => Seq::empty(),
            }
        } else {
            Seq::empty()
        }
}

/// The types of a function's parameters and of its return type, as `field-type` of `id`.
pub open spec fn rs_signature_rels(n: SyntaxNode, source: Seq<u8>, imports: Seq<(Seq<char>, Seq<char>)>, id: int) -> Seq<
    RelationshipView,
> {
    (match field_child(n, "parameters"@) {
        Some(p) => rels_over(p.children@, p.children@.len() as int, rs_param_fn(source, imports, id)),
        None => Seq::empty(),
    }) + match field_child(n, "return_type"@) {
        Some(rt) => rs_type_rels(rt, source, imports, id, RelationshipKind::FieldType),
        None => Seq::empty(),
    }
}

/// Every call in a subtree, in document order, as a `calls` relationship of `id`.
pub open spec fn rs_calls(n: SyntaxNode, source: Seq<u8>, id: int) -> Seq<RelationshipView>
    decreases depth(n), n.children@.len() + 1,
{
    (match rust_call_name(n, source) {
        Some(name) => seq![rel(id, name, RelationshipKind::Calls)],
        None => Seq::empty(),
    }) + rs_calls_in(n, source, id, n.children@.len() as int)
}

/// The calls in the first `k` children of a node.
pub open spec fn rs_calls_in(n: SyntaxNode, source: Seq<u8>, id: int, k: int) -> Seq<RelationshipView>
    decreases depth(n), k,
{
    if k <= 0 || k > n.children@.len() {
        Seq::empty()
    } else {
        proof {
            crate::syntax::lemma_child_depth(n, k - 1);
        }
        rs_calls_in(n, source, id, k - 1) + rs_calls(n.children@[k - 1], source, id)
    }
}

/// The calls in a function's body.
pub open spec fn rs_body_calls(n: SyntaxNode, source: Seq<u8>, id: int) -> Seq<RelationshipView> {
    match field_child(n, "body"@) {
        Some(b) => rs_calls(b, source, id),
        None => Seq::empty(),
    }
}

/// The relationships of a named top-level function (its signature's types and its calls) or
/// type alias (the types it names).
pub open spec fn rs_item_rels(
    n: SyntaxNode,
    source: Seq<u8>,
    imports: Seq<(Seq<char>, Seq<char>)>,
    kind: Seq<char>,
    id: int,
) -> Seq<RelationshipView> {
    match field_text(n, "name"@, source) {
        Some(_) => if kind == "function"@ {
            rs_signature_rels(n, source, imports, id) + rs_body_calls(n, source, id)
        } else {
            match field_child(n, "type"@) {
                Some(tn) => rs_type_rels(tn, source, imports, id, RelationshipKind::FieldType),
                None => Seq::empty(),
            }
        },
        None => Seq::empty(),
    }
}

/// The relationships of a named method `id`: its signature's types, and its calls where
/// asked for.
pub open spec fn rs_method_rels(
    m: SyntaxNode,
    source: Seq<u8>,
    imports: Seq<(Seq<char>, Seq<char>)>,
    with_calls: bool,
    id: int,
) -> Seq<RelationshipView> {
    match field_text(m, "name"@, source) {
        Some(_) => rs_signature_rels(m, source, imports, id) + if with_calls {
            rs_body_calls(m, source, id)
        } else {
            Seq::empty()
        },
        None => Seq::empty(),
    }
}

/// The relationships of a named struct `id`: the types of its fields.
pub open spec fn rs_struct_rels(n: SyntaxNode, source: Seq<u8>, imports: Seq<(Seq<char>, Seq<char>)>, id: int) -> Seq<
    RelationshipView,
> {
    match field_text(n, "name"@, source) {
        Some(name) => rels_from(
            n.children@,
            n.children@.len() as int,
            id + 1,
            rs_struct_part_fn(source, name, id),
            rs_struct_part_rels_fn(source, imports, name, id),
        ),
        None => Seq::empty(),
    }
}

pub open spec fn rs_struct_part_rels_fn(
    source: Seq<u8>,
    imports: Seq<(Seq<char>, Seq<char>)>,
    parent_name: Seq<char>,
    parent_id: int,
) -> spec_fn(SyntaxNode, int) -> Seq<RelationshipView> {
    |c: SyntaxNode, id: int|
        if kind_is(c, "field_declaration_list"@) {
            rels_from(
                c.children@,
                c.children@.len() as int,
                id,
                rs_field_fn(source, parent_name, parent_id),
                rs_field_rels_fn(source, imports),
            )
        } else {
            Seq::empty()
        }
}

pub open spec fn rs_field_rels_fn(source: Seq<u8>, imports: Seq<(Seq<char>, Seq<char>)>) -> spec_fn(SyntaxNode, int) -> Seq<
    RelationshipView,
> {
    |d: SyntaxNode, id: int|
        if kind_is(d, "field_declaration"@) {
            rs_field_rels(d, source, imports, id)
        } else {
            Seq::empty()
        }
}

/// The relationships of a named field `id`: the user types of its type.
pub open spec fn rs_field_rels(d: SyntaxNode, source: Seq<u8>, imports: Seq<(Seq<char>, Seq<char>)>, id: int) -> Seq<
    RelationshipView,
> {
    match field_text(d, "name"@, source) {
        Some(_) => match field_child(d, "type"@) {
            Some(tn) => rs_type_rels(tn, source, imports, id, RelationshipKind::FieldType),
            None => Seq::empty(),
        },
        None => Seq::empty(),
    }
}

pub open spec fn rs_bound_fn(source: Seq<u8>, imports: Seq<(Seq<char>, Seq<char>)>, id: int) -> spec_fn(SyntaxNode) -> Seq<
    RelationshipView,
> {
    |t: SyntaxNode| rs_type_rels(t, source, imports, id, RelationshipKind::Extends)
}

pub open spec fn rs_bounds_fn(source: Seq<u8>, imports: Seq<(Seq<char>, Seq<char>)>, id: int) -> spec_fn(SyntaxNode) -> Seq<
    RelationshipView,
> {
    |c: SyntaxNode|
        if kind_is(c, "trait_bounds"@) {
            rels_over(c.children@, c.children@.len() as int, rs_bound_fn(source, imports, id))
        } else {
            Seq::empty()
        }
}

pub open spec fn rs_trait_member_rels_fn(source: Seq<u8>, imports: Seq<(Seq<char>, Seq<char>)>) -> spec_fn(
    SyntaxNode,
    int,
) -> Seq<RelationshipView> {
    |m: SyntaxNode, id: int|
        if kind_is(m, "function_signature_item"@) || kind_is(m, "function_item"@) {
            rs_method_rels(m, source, imports, false, id)
        } else {
            Seq::empty()
        }
}

/// The relationships of a named trait `id`: its supertraits as `extends`, then the types of
/// its methods' signatures.
pub open spec fn rs_trait_rels(n: SyntaxNode, source: Seq<u8>, imports: Seq<(Seq<char>, Seq<char>)>, id: int) -> Seq<
    RelationshipView,
> {
    match field_text(n, "name"@, source) {
        Some(name) => rels_over(n.children@, n.children@.len() as int, rs_bounds_fn(source, imports, id)) + match field_child(
            n,
            "body"@,
        ) {
            Some(b) => rels_from(
                b.children@,
                b.children@.len() as int,
                id + 1,
                rs_trait_member_fn(source, name, id),
                rs_trait_member_rels_fn(source, imports),
            ),
            None => Seq::empty(),
        },
        None => Seq::empty(),
    }
}

/// The index of the first symbol from `i` on that is at the top level and called `name`.
pub open spec fn rs_first_top_level(syms: Seq<SymbolView>, name: Seq<char>, i: int) -> Option<int>
    decreases syms.len() - i,
{
    if i < 0 || i >= syms.len() {
        None
    } else if syms[i].name == name && syms[i].parent_local_id is None {
        Some(i)
    } else {
        rs_first_top_level(syms, name, i + 1)
    }
}

pub open spec fn rs_impl_member_rels_fn(source: Seq<u8>, imports: Seq<(Seq<char>, Seq<char>)>) -> spec_fn(
    SyntaxNode,
    int,
) -> Seq<RelationshipView> {
    |m: SyntaxNode, id: int|
        if kind_is(m, "function_item"@) {
            rs_method_rels(m, source, imports, true, id)
        } else {
            Seq::empty()
        }
}

/// The relationships of an impl block with a type, after the symbols `before`: for a trait
/// impl, an `implements` relationship to the trait's first type name (resolved) from the
/// first earlier top-level symbol named like the type; then those of its methods.
pub open spec fn rs_impl_rels(
    n: SyntaxNode,
    source: Seq<u8>,
    imports: Seq<(Seq<char>, Seq<char>)>,
    before: Seq<SymbolView>,
) -> Seq<RelationshipView> {
    match field_text(n, "type"@, source) {
        Some(t) => {
            let implements = match field_child(n, "trait"@) {
                Some(tr) => {
                    let names = rs_type_names(tr, source);
                    if names.len() > 0 {
                        match rs_first_top_level(before, t, 0) {
                            Some(i) => seq![rel(i, rust_resolve(names[0], imports), RelationshipKind::Implements)],
                            None => Seq::empty(),
                        }
                    } else {
                        Seq::empty()
                    }
                },
                None => Seq::empty(),
            };
            implements + match field_child(n, "body"@) {
                Some(b) => rels_from(
                    b.children@,
                    b.children@.len() as int,
                    before.len() as int,
                    rs_impl_member_fn(source, t),
                    rs_impl_member_rels_fn(source, imports),
                ),
                None => Seq::empty(),
            }
        },
        None => Seq::empty(),
    }
}

/// A struct: its symbol and its named fields.
fn extract_struct(
    node: &SyntaxNode,
    source: &[u8],
    symbols: &mut Vec<ExtractedSymbol>,
    relationships: &mut Vec<ExtractedRelationship>,
    import_map: &Vec<(String, String)>,
)
    requires
        symbols_wf(old(symbols)@),
        relationships_wf(old(relationships)@, old(symbols)@.len()),
    ensures
        grew(old(symbols)@, final(symbols)@),
        symbols_wf(final(symbols)@),
        relationships_wf(final(relationships)@, final(symbols)@.len()),
        symbols_view(final(symbols)@) == symbols_view(old(symbols)@) + rs_struct_symbols(
            *node,
            source@,
            old(symbols)@.len() as int,
        ),
        field_text(*node, "name"@, source@) is None ==> final(relationships)@ == old(relationships)@,
        relationships_view(final(relationships)@) == relationships_view(old(relationships)@) + rs_struct_rels(
            *node,
            source@,
            pairs_view(import_map@),
            old(symbols)@.len() as int,
        ),
{
    proof {
        assert(symbols_view(symbols@) + Seq::<SymbolView>::empty() =~= symbols_view(symbols@));
        assert(relationships_view(relationships@) + Seq::<RelationshipView>::empty() =~= relationships_view(relationships@));
    }
    let ghost imports = pairs_view(import_map@);
    let ghost r0 = relationships_view(old(relationships)@);
    let name = match field_text_of(node, "name", source) {
        Some(n) => n,
        None => return,
    };
    let local_id = symbols.len();
    let vis = extract_visibility(node, source);
    let mut sym = symbol_at(node, local_id, name.clone(), None, name.clone(), "struct", "private", None, String::new(), None);
    sym.visibility = vis;
    proof {
        lemma_symbols_view_push(symbols@, sym);
    }
    symbols.push(sym);
    let ghost s1 = symbols@;
    let ghost hv = symbols_view(s1);
    let ghost n1 = s1.len() as int;
    let ghost f = rs_struct_part_fn(source@, name@, local_id as int);
    let ghost g = rs_field_fn(source@, name@, local_id as int);
    let ghost fr = rs_struct_part_rels_fn(source@, imports, name@, local_id as int);
    let ghost gr = rs_field_rels_fn(source@, imports);
    let mut i: usize = 0;
    proof {
        lemma_symbols_from_none(node.children@, n1, f, hv);
        lemma_rels_from_none(node.children@, n1, f, fr, r0);
    }
    while i < node.children.len()
        invariant
            i <= node.children.len(),
            local_id < s1.len(),
            grew(s1, symbols@),
            symbols_wf(symbols@),
            relationships_wf(relationships@, symbols@.len()),
            f == rs_struct_part_fn(source@, name@, local_id as int),
            g == rs_field_fn(source@, name@, local_id as int),
            fr == rs_struct_part_rels_fn(source@, imports, name@, local_id as int),
            gr == rs_field_rels_fn(source@, imports),
            imports == pairs_view(import_map@),
            hv == symbols_view(s1),
            n1 == s1.len(),
            symbols_view(symbols@) == hv + symbols_from(node.children@, i as int, n1, f),
            relationships_view(relationships@) == r0 + rels_from(node.children@, i as int, n1, f, fr),
        decreases node.children.len() - i,
    {
        let child = &node.children[i];
        let ghost vb = symbols_view(symbols@);
        let ghost rb = relationships_view(relationships@);
        let ghost nb = symbols@.len() as int;
        proof {
            lemma_symbols_from_next(node.children@, i as int, n1, f, hv);
            lemma_rels_from_next(node.children@, i as int, n1, f, fr, r0);
        }
        if child.is_kind("field_declaration_list") {
            let mut j: usize = 0;
            proof {
                lemma_symbols_from_none(child.children@, nb, g, vb);
                lemma_rels_from_none(child.children@, nb, g, gr, rb);
            }
            while j < child.children.len()
                invariant
                    j <= child.children.len(),
                    local_id < s1.len(),
                    grew(s1, symbols@),
                    symbols_wf(symbols@),
                    relationships_wf(relationships@, symbols@.len()),
                    g == rs_field_fn(source@, name@, local_id as int),
                    gr == rs_field_rels_fn(source@, imports),
                    imports == pairs_view(import_map@),
                    vb.len() == nb,
                    symbols_view(symbols@) == vb + symbols_from(child.children@, j as int, nb, g),
                    relationships_view(relationships@) == rb + rels_from(child.children@, j as int, nb, g, gr),
                decreases child.children.len() - j,
            {
                proof {
                    lemma_symbols_from_next(child.children@, j as int, nb, g, vb);
                    lemma_rels_from_next(child.children@, j as int, nb, g, gr, rb);
                }
                if child.children[j].is_kind("field_declaration") {
                    extract_field(&child.children[j], source, name.as_str(), local_id, symbols, relationships, import_map);
                }
                j = j + 1;
            }
        }
        i = i + 1;
    }
    proof {
        let b = symbols_from(node.children@, i as int, n1, f);
        assert(hv + b =~= symbols_view(old(symbols)@) + (seq![symbol_view(sym)] + b));
    }
}

/// A named field of a struct, with `field-type` relationships to the user types of its type.
fn extract_field(
    node: &SyntaxNode,
    source: &[u8],
    parent_name: &str,
    parent_local_id: usize,
    symbols: &mut Vec<ExtractedSymbol>,
    relationships: &mut Vec<ExtractedRelationship>,
    import_map: &Vec<(String, String)>,
)
    requires
        symbols_wf(old(symbols)@),
        parent_local_id < old(symbols)@.len(),
        relationships_wf(old(relationships)@, old(symbols)@.len()),
    ensures
        grew(old(symbols)@, final(symbols)@),
        symbols_wf(final(symbols)@),
        relationships_wf(final(relationships)@, final(symbols)@.len()),
        symbols_view(final(symbols)@) == symbols_view(old(symbols)@) + rs_field_symbols(
            *node,
            source@,
            parent_name@,
            parent_local_id as int,
            old(symbols)@.len() as int,
        ),
        field_text(*node, "name"@, source@) is None ==> final(relationships)@ == old(relationships)@,
        relationships_view(final(relationships)@) == relationships_view(old(relationships)@) + rs_field_rels(
            *node,
            source@,
            pairs_view(import_map@),
            old(symbols)@.len() as int,
        ),
{
    proof {
        assert(symbols_view(symbols@) + Seq::<SymbolView>::empty() =~= symbols_view(symbols@));
        assert(relationships_view(relationships@) + Seq::<RelationshipView>::empty() =~= relationships_view(relationships@));
    }
    let name = match field_text_of(node, "name", source) {
        Some(n) => n,
        None => return,
    };
    let type_text = field_text_of(node, "type", source);
    let local_id = symbols.len();
    let vis = extract_visibility(node, source);
    let qn = dotted(parent_name, name.as_str());
    let mut sym = symbol_at(node, local_id, name, None, qn, "field", "private", Some(parent_local_id), String::new(), type_text);
    sym.visibility = vis;
    proof {
        lemma_symbols_view_push(symbols@, sym);
    }
    symbols.push(sym);
    match node.child_by_field_name("type") {
        Some(tn) => push_type_relationships(tn, source, local_id, RelationshipKind::FieldType, relationships, import_map, Ghost(symbols@.len())),
        None => {},
    }
}

/// An enum: its symbol, its variants (public) and the named fields of struct variants.
fn extract_enum(node: &SyntaxNode, source: &[u8], symbols: &mut Vec<ExtractedSymbol>)
    requires
        symbols_wf(old(symbols)@),
    ensures
        grew(old(symbols)@, final(symbols)@),
        symbols_wf(final(symbols)@),
        symbols_view(final(symbols)@) == symbols_view(old(symbols)@) + rs_enum_symbols(
            *node,
            source@,
            old(symbols)@.len() as int,
        ),
{
    proof {
        assert(symbols_view(symbols@) + Seq::<SymbolView>::empty() =~= symbols_view(symbols@));
    }
    let name = match field_text_of(node, "name", source) {
        Some(n) => n,
        None => return,
    };
    let local_id = symbols.len();
    let vis = extract_visibility(node, source);
    let mut sym = symbol_at(node, local_id, name.clone(), None, name.clone(), "enum", "private", None, String::new(), None);
    sym.visibility = vis;
    proof {
        lemma_symbols_view_push(symbols@, sym);
    }
    symbols.push(sym);
    let ghost s1 = symbols@;
    let ghost hv = symbols_view(s1);
    let ghost n1 = s1.len() as int;
    let ghost f = rs_enum_part_fn(source@, name@, local_id as int);
    let ghost g = rs_variant_fn(source@, name@, local_id as int);
    let mut i: usize = 0;
    proof {
        lemma_symbols_from_none(node.children@, n1, f, hv);
    }
    while i < node.children.len()
        invariant
            i <= node.children.len(),
            local_id < s1.len(),
            grew(s1, symbols@),
            symbols_wf(symbols@),
            f == rs_enum_part_fn(source@, name@, local_id as int),
            g == rs_variant_fn(source@, name@, local_id as int),
            hv == symbols_view(s1),
            n1 == s1.len(),
            symbols_view(symbols@) == hv + symbols_from(node.children@, i as int, n1, f),
        decreases node.children.len() - i,
    {
        let child = &node.children[i];
        let ghost vb = symbols_view(symbols@);
        let ghost nb = symbols@.len() as int;
        proof {
            lemma_symbols_from_next(node.children@, i as int, n1, f, hv);
        }
        if child.is_kind("enum_variant_list") {
            let mut j: usize = 0;
            proof {
                lemma_symbols_from_none(child.children@, nb, g, vb);
            }
            while j < child.children.len()
                invariant
                    j <= child.children.len(),
                    local_id < s1.len(),
                    grew(s1, symbols@),
                    symbols_wf(symbols@),
                    g == rs_variant_fn(source@, name@, local_id as int),
                    vb.len() == nb,
                    symbols_view(symbols@) == vb + symbols_from(child.children@, j as int, nb, g),
                decreases child.children.len() - j,
            {
                proof {
                    lemma_symbols_from_next(child.children@, j as int, nb, g, vb);
                }
                if child.children[j].is_kind("enum_variant") {
                    extract_enum_variant(&child.children[j], source, name.as_str(), local_id, symbols);
                }
                j = j + 1;
            }
        }
        i = i + 1;
    }
    proof {
        let b = symbols_from(node.children@, i as int, n1, f);
        assert(hv + b =~= symbols_view(old(symbols)@) + (seq![symbol_view(sym)] + b));
    }
}

/// A variant of an enum, and the named fields of a struct variant.
fn extract_enum_variant(
    node: &SyntaxNode,
    source: &[u8],
    enum_name: &str,
    enum_local_id: usize,
    symbols: &mut Vec<ExtractedSymbol>,
)
    requires
        symbols_wf(old(symbols)@),
        enum_local_id < old(symbols)@.len(),
    ensures
        grew(old(symbols)@, final(symbols)@),
        symbols_wf(final(symbols)@),
        symbols_view(final(symbols)@) == symbols_view(old(symbols)@) + rs_variant_symbols(
            *node,
            source@,
            enum_name@,
            enum_local_id as int,
            old(symbols)@.len() as int,
        ),
{
    proof {
        assert(symbols_view(symbols@) + Seq::<SymbolView>::empty() =~= symbols_view(symbols@));
    }
    let name = match field_text_of(node, "name", source) {
        Some(n) => n,
        None => return,
    };
    let variant_id = symbols.len();
    let qn = dotted(enum_name, name.as_str());
    let sym = symbol_at(node, variant_id, name, None, qn.clone(), "variant", "pub", Some(enum_local_id), String::new(), None);
    proof {
        lemma_symbols_view_push(symbols@, sym);
    }
    symbols.push(sym);
    let ghost s1 = symbols@;
    let ghost hv = symbols_view(s1);
    let ghost n1 = s1.len() as int;
    let ghost f = rs_variant_part_fn(source@, qn@, variant_id as int);
    let ghost g = rs_variant_field_fn(source@, qn@, variant_id as int);
    let mut i: usize = 0;
    proof {
        lemma_symbols_from_none(node.children@, n1, f, hv);
    }
    while i < node.children.len()
        invariant
            i <= node.children.len(),
            variant_id < s1.len(),
            grew(s1, symbols@),
            symbols_wf(symbols@),
            f == rs_variant_part_fn(source@, qn@, variant_id as int),
            g == rs_variant_field_fn(source@, qn@, variant_id as int),
            hv == symbols_view(s1),
            n1 == s1.len(),
            symbols_view(symbols@) == hv + symbols_from(node.children@, i as int, n1, f),
        decreases node.children.len() - i,
    {
        let child = &node.children[i];
        let ghost vb = symbols_view(symbols@);
        let ghost nb = symbols@.len() as int;
        proof {
            lemma_symbols_from_next(node.children@, i as int, n1, f, hv);
        }
        if child.is_kind("field_declaration_list") {
            let mut j: usize = 0;
            proof {
                lemma_symbols_from_none(child.children@, nb, g, vb);
            }
            while j < child.children.len()
                invariant
                    j <= child.children.len(),
                    variant_id < s1.len(),
                    grew(s1, symbols@),
                    symbols_wf(symbols@),
                    g == rs_variant_field_fn(source@, qn@, variant_id as int),
                    vb.len() == nb,
                    symbols_view(symbols@) == vb + symbols_from(child.children@, j as int, nb, g),
                decreases child.children.len() - j,
            {
                let field = &child.children[j];
                proof {
                    lemma_symbols_from_next(child.children@, j as int, nb, g, vb);
                }
                if field.is_kind("field_declaration") {
                    match field_text_of(field, "name", source) {
                        Some(fname) => {
                            let type_text = field_text_of(field, "type", source);
                            let fqn = dotted(qn.as_str(), fname.as_str());
                            let id = symbols.len();
                            let fs = symbol_at(field, id, fname, None, fqn, "field", "pub", Some(variant_id), String::new(), type_text);
                            proof {
                                lemma_symbols_view_push(symbols@, fs);
                            }
                            symbols.push(fs);
                        },
                        None => {},
                    }
                }
                j = j + 1;
            }
        }
        i = i + 1;
    }
    proof {
        let b = symbols_from(node.children@, i as int, n1, f);
        assert(hv + b =~= symbols_view(old(symbols)@) + (seq![symbol_view(sym)] + b));
    }
}

/// A trait: its symbol, its supertraits as `extends`, and its methods.
fn extract_trait(
    node: &SyntaxNode,
    source: &[u8],
    symbols: &mut Vec<ExtractedSymbol>,
    relationships: &mut Vec<ExtractedRelationship>,
    import_map: &Vec<(String, String)>,
)
    requires
        symbols_wf(old(symbols)@),
        relationships_wf(old(relationships)@, old(symbols)@.len()),
    ensures
        grew(old(symbols)@, final(symbols)@),
        symbols_wf(final(symbols)@),
        relationships_wf(final(relationships)@, final(symbols)@.len()),
        symbols_view(final(symbols)@) == symbols_view(old(symbols)@) + rs_trait_symbols(
            *node,
            source@,
            old(symbols)@.len() as int,
        ),
        field_text(*node, "name"@, source@) is None ==> final(relationships)@ == old(relationships)@,
        relationships_view(final(relationships)@) == relationships_view(old(relationships)@) + rs_trait_rels(
            *node,
            source@,
            pairs_view(import_map@),
            old(symbols)@.len() as int,
        ),
{
    proof {
        assert(symbols_view(symbols@) + Seq::<SymbolView>::empty() =~= symbols_view(symbols@));
        assert(relationships_view(relationships@) + Seq::<RelationshipView>::empty() =~= relationships_view(relationships@));
    }
    let ghost imports = pairs_view(import_map@);
    let ghost r0 = relationships_view(old(relationships)@);
    let name = match field_text_of(node, "name", source) {
        Some(n) => n,
        None => return,
    };
    let local_id = symbols.len();
    let vis = extract_visibility(node, source);
    let mut sym = symbol_at(node, local_id, name.clone(), None, name.clone(), "trait", "private", None, String::new(), None);
    sym.visibility = vis;
    proof {
        lemma_symbols_view_push(symbols@, sym);
    }
    symbols.push(sym);
    let ghost s1 = symbols@;
    let ghost hv = symbols_view(s1);
    let ghost n1 = s1.len() as int;
    let ghost bf = rs_bounds_fn(source@, imports, local_id as int);
    let ghost tf = rs_bound_fn(source@, imports, local_id as int);
    let mut i: usize = 0;
    proof {
        lemma_rels_over_none(node.children@, bf, r0);
    }
    while i < node.children.len()
        invariant
            i <= node.children.len(),
            local_id < s1.len(),
            symbols@ == s1,
            relationships_wf(relationships@, symbols@.len()),
            bf == rs_bounds_fn(source@, imports, local_id as int),
            tf == rs_bound_fn(source@, imports, local_id as int),
            imports == pairs_view(import_map@),
            relationships_view(relationships@) == r0 + rels_over(node.children@, i as int, bf),
        decreases node.children.len() - i,
    {
        let child = &node.children[i];
        let ghost rb = relationships_view(relationships@);
        proof {
            lemma_rels_over_next(node.children@, i as int, bf, r0);
        }
        if child.is_kind("trait_bounds") {
            let mut j: usize = 0;
            proof {
                lemma_rels_over_none(child.children@, tf, rb);
            }
            while j < child.children.len()
                invariant
                    j <= child.children.len(),
                    local_id < s1.len(),
                    symbols@ == s1,
                    relationships_wf(relationships@, symbols@.len()),
                    tf == rs_bound_fn(source@, imports, local_id as int),
                    imports == pairs_view(import_map@),
                    relationships_view(relationships@) == rb + rels_over(child.children@, j as int, tf),
                decreases child.children.len() - j,
            {
                proof {
                    lemma_rels_over_next(child.children@, j as int, tf, rb);
                }
                push_type_relationships(&child.children[j], source, local_id, RelationshipKind::Extends, relationships, import_map, Ghost(symbols@.len()));
                j = j + 1;
            }
        }
        i = i + 1;
    }
    let ghost hr = relationships_view(relationships@);
    let ghost br = rels_over(node.children@, node.children@.len() as int, bf);
    match node.child_by_field_name("body") {
        Some(body) => {
            let ghost f = rs_trait_member_fn(source@, name@, local_id as int);
            let ghost fr = rs_trait_member_rels_fn(source@, imports);
            let mut k: usize = 0;
            proof {
                lemma_symbols_from_none(body.children@, n1, f, hv);
                lemma_rels_from_none(body.children@, n1, f, fr, hr);
            }
            while k < body.children.len()
                invariant
                    k <= body.children.len(),
                    local_id < s1.len(),
                    grew(s1, symbols@),
                    symbols_wf(symbols@),
                    relationships_wf(relationships@, symbols@.len()),
                    f == rs_trait_member_fn(source@, name@, local_id as int),
                    fr == rs_trait_member_rels_fn(source@, imports),
                    imports == pairs_view(import_map@),
                    hv == symbols_view(s1),
                    n1 == s1.len(),
                    symbols_view(symbols@) == hv + symbols_from(body.children@, k as int, n1, f),
                    relationships_view(relationships@) == hr + rels_from(body.children@, k as int, n1, f, fr),
                decreases body.children.len() - k,
            {
                let member = &body.children[k];
                proof {
                    lemma_symbols_from_next(body.children@, k as int, n1, f, hv);
                    lemma_rels_from_next(body.children@, k as int, n1, f, fr, hr);
                }
                if member.is_kind("function_signature_item") || member.is_kind("function_item") {
                    extract_method(member, source, name.as_str(), Some(local_id), false, symbols, relationships, import_map);
                }
                k = k + 1;
            }
            proof {
                let b = symbols_from(body.children@, k as int, n1, f);
                assert(hv + b =~= symbols_view(old(symbols)@) + (seq![symbol_view(sym)] + b));
                let m = rels_from(body.children@, k as int, n1, f, fr);
                assert(hr == r0 + br);
                assert(hr + m =~= r0 + (br + m));
            }
        },
        None => {
            proof {
                assert(hv =~= symbols_view(old(symbols)@) + (seq![symbol_view(sym)] + Seq::<SymbolView>::empty()));
                assert(hr == r0 + br);
                assert(hr =~= r0 + (br + Seq::<RelationshipView>::empty()));
            }
        },
    }
}

/// A method of a trait (`parent` is the trait) or of an impl block (no parent): a `method`
/// symbol qualified by the trait or type name, and the types it uses; the calls of impl
/// methods too.
fn extract_method(
    node: &SyntaxNode,
    source: &[u8],
    owner_name: &str,
    parent: Option<usize>,
    with_calls: bool,
    symbols: &mut Vec<ExtractedSymbol>,
    relationships: &mut Vec<ExtractedRelationship>,
    import_map: &Vec<(String, String)>,
)
    requires
        symbols_wf(old(symbols)@),
        parent matches Some(p) ==> p < old(symbols)@.len(),
        relationships_wf(old(relationships)@, old(symbols)@.len()),
    ensures
        grew(old(symbols)@, final(symbols)@),
        symbols_wf(final(symbols)@),
        relationships_wf(final(relationships)@, final(symbols)@.len()),
        symbols_view(final(symbols)@) == symbols_view(old(symbols)@) + rs_method_symbols(
            *node,
            source@,
            owner_name@,
            crate::plugin::opt_id(parent),
            old(symbols)@.len() as int,
        ),
        field_text(*node, "name"@, source@) is None ==> final(relationships)@ == old(relationships)@,
        relationships_view(final(relationships)@) == relationships_view(old(relationships)@) + rs_method_rels(
            *node,
            source@,
            pairs_view(import_map@),
            with_calls,
            old(symbols)@.len() as int,
        ),
{
    proof {
        assert(symbols_view(symbols@) + Seq::<SymbolView>::empty() =~= symbols_view(symbols@));
        assert(relationships_view(relationships@) + Seq::<RelationshipView>::empty() =~= relationships_view(relationships@));
    }
    let name = match field_text_of(node, "name", source) {
        Some(n) => n,
        None => return,
    };
    let local_id = symbols.len();
    let vis = extract_visibility(node, source);
    let sig = concat(name.as_str(), "()");
    let qn = dotted(owner_name, name.as_str());
    let mut sym = symbol_at(node, local_id, name, Some(sig), qn, "method", "private", parent, String::new(), None);
    sym.visibility = vis;
    proof {
        lemma_symbols_view_push(symbols@, sym);
    }
    symbols.push(sym);
    let n = Ghost(symbols@.len());
    let ghost r0 = relationships_view(relationships@);
    extract_signature_relationships(node, source, local_id, relationships, import_map, n);
    let ghost r1 = relationships_view(relationships@);
    if with_calls {
        extract_call_relationships(node, source, local_id, relationships, n);
    } else {
        proof {
            assert(r1 + Seq::<RelationshipView>::empty() =~= r1);
        }
    }
    proof {
        let a = rs_signature_rels(*node, source@, pairs_view(import_map@), local_id as int);
        let b = if with_calls {
            rs_body_calls(*node, source@, local_id as int)
        } else {
            Seq::empty()
        };
        assert((r0 + a) + b =~= r0 + (a + b));
    }
}

/// The types of a function's parameters and of its return type, as `field-type`.
fn extract_signature_relationships(
    node: &SyntaxNode,
    source: &[u8],
    source_local_id: usize,
    relationships: &mut Vec<ExtractedRelationship>,
    import_map: &Vec<(String, String)>,
    n_symbols: Ghost<nat>,
)
    requires
        source_local_id < n_symbols@,
        relationships_wf(old(relationships)@, n_symbols@),
    ensures
        grew(old(relationships)@, final(relationships)@),
        relationships_wf(final(relationships)@, n_symbols@),
        forall|k: int|
            old(relationships)@.len() <= k < final(relationships)@.len() ==> (#[trigger] final(relationships)@[k]).kind
                == RelationshipKind::FieldType && final(relationships)@[k].source_local_id == source_local_id,
        relationships_view(final(relationships)@) == relationships_view(old(relationships)@) + rs_signature_rels(
            *node,
            source@,
            pairs_view(import_map@),
            source_local_id as int,
        ),
{
    let ghost r0 = relationships_view(old(relationships)@);
    let ghost imports = pairs_view(import_map@);
    let ghost f = rs_param_fn(source@, imports, source_local_id as int);
    match node.child_by_field_name("parameters") {
        Some(params) => {
            let mut i: usize = 0;
            proof {
                lemma_rels_over_none(params.children@, f, r0);
            }
            while i < params.children.len()
                invariant
                    i <= params.children.len(),
                    f == rs_param_fn(source@, imports, source_local_id as int),
                    imports == pairs_view(import_map@),
                    r0 == relationships_view(old(relationships)@),
                    relationships_view(relationships@) == r0 + rels_over(params.children@, i as int, f),
                    source_local_id < n_symbols@,
                    grew(old(relationships)@, relationships@),
                    relationships_wf(relationships@, n_symbols@),
                    forall|k: int|
                        old(relationships)@.len() <= k < relationships@.len() ==> (#[trigger] relationships@[k]).kind
                            == RelationshipKind::FieldType && relationships@[k].source_local_id == source_local_id,
                decreases params.children.len() - i,
            {
                let c = &params.children[i];
                proof {
                    lemma_rels_over_next(params.children@, i as int, f, r0);
                }
                if c.is_kind("parameter") {
                    match c.child_by_field_name("type") {
                        Some(t) => push_type_relationships(t, source, source_local_id, RelationshipKind::FieldType, relationships, import_map, n_symbols),
                        None => {},
                    }
                }
                i = i + 1;
            }
        },
        None => {
            proof {
                assert(r0 + Seq::<RelationshipView>::empty() =~= r0);
            }
        },
    }
    let ghost r1 = relationships_view(relationships@);
    match node.child_by_field_name("return_type") {
        Some(rt) => push_type_relationships(rt, source, source_local_id, RelationshipKind::FieldType, relationships, import_map, n_symbols),
        None => {
            proof {
                assert(r1 + Seq::<RelationshipView>::empty() =~= r1);
            }
        },
    }
    proof {
        let a = match field_child(*node, "parameters"@) {
            Some(p) => rels_over(p.children@, p.children@.len() as int, f),
            None => Seq::empty(),
        };
        let b = match field_child(*node, "return_type"@) {
            Some(rt) => rs_type_rels(rt, source@, imports, source_local_id as int, RelationshipKind::FieldType),
            None => Seq::empty(),
        };
        assert((r0 + a) + b =~= r0 + (a + b));
    }
}

/// The local id of the first top-level symbol called `name`.
fn find_top_level(symbols: &Vec<ExtractedSymbol>, name: &str) -> (r: Option<usize>)
    ensures
        r matches Some(i) ==> i < symbols@.len() && symbols@[i as int].name@ == name@
            && symbols@[i as int].parent_local_id is None,
        rs_first_top_level(symbols_view(symbols@), name@, 0) == match r {
            Some(i) => Some(i as int),
            None => None,
        },
{
    let ghost sv = symbols_view(symbols@);
    let mut i: usize = 0;
    while i < symbols.len()
        invariant
            i <= symbols.len(),
            sv == symbols_view(symbols@),
            rs_first_top_level(sv, name@, 0) == rs_first_top_level(sv, name@, i as int),
        decreases symbols.len() - i,
    {
        proof {
            assert(sv[i as int] == symbol_view(symbols@[i as int]));
        }
        if str_eq(symbols[i].name.as_str(), name) && symbols[i].parent_local_id.is_none() {
            return Some(i);
        }
        i = i + 1;
    }
    None
}

/// An impl block: for a trait impl, an `implements` relationship from the implementing type
/// (when the file declares it earlier) to the trait; and the methods of the block.
fn extract_impl(
    node: &SyntaxNode,
    source: &[u8],
    symbols: &mut Vec<ExtractedSymbol>,
    relationships: &mut Vec<ExtractedRelationship>,
    import_map: &Vec<(String, String)>,
)
    requires
        symbols_wf(old(symbols)@),
        relationships_wf(old(relationships)@, old(symbols)@.len()),
    ensures
        grew(old(symbols)@, final(symbols)@),
        symbols_wf(final(symbols)@),
        relationships_wf(final(relationships)@, final(symbols)@.len()),
        symbols_view(final(symbols)@) == symbols_view(old(symbols)@) + rs_impl_symbols(
            *node,
            source@,
            old(symbols)@.len() as int,
        ),
        relationships_view(final(relationships)@) == relationships_view(old(relationships)@) + rs_impl_rels(
            *node,
            source@,
            pairs_view(import_map@),
            symbols_view(old(symbols)@),
        ),
{
    proof {
        assert(symbols_view(symbols@) + Seq::<SymbolView>::empty() =~= symbols_view(symbols@));
        assert(relationships_view(relationships@) + Seq::<RelationshipView>::empty() =~= relationships_view(relationships@));
    }
    let ghost imports = pairs_view(import_map@);
    let ghost r0 = relationships_view(old(relationships)@);
    let impl_type = match field_text_of(node, "type", source) {
        Some(t) => t,
        None => return,
    };
    let ghost implements = match field_child(*node, "trait"@) {
        Some(tr) => {
            let names = rs_type_names(tr, source@);
            if names.len() > 0 {
                match rs_first_top_level(symbols_view(old(symbols)@), impl_type@, 0) {
                    Some(i) => seq![rel(i, rust_resolve(names[0], imports), RelationshipKind::Implements)],
                    None => Seq::<RelationshipView>::empty(),
                }
            } else {
                Seq::<RelationshipView>::empty()
            }
        },
        None => Seq::<RelationshipView>::empty(),
    };
    match node.child_by_field_name("trait") {
        Some(trait_node) => {
            let mut names: Vec<String> = Vec::new();
            proof {
                assert(views(names@) =~= Seq::<Seq<char>>::empty());
            }
            extract_type_names(trait_node, source, &mut names);
            proof {
                assert(views(names@) =~= rs_type_names(*trait_node, source@));
            }
            if names.len() > 0 {
                let resolved = resolve_type_name(names[0].as_str(), import_map);
                proof {
                    assert(views(names@)[0] == names@[0]@);
                }
                match find_top_level(symbols, impl_type.as_str()) {
                    Some(id) => {
                        let r = relationship(id, resolved, RelationshipKind::Implements);
                        proof {
                            lemma_relationships_view_push(relationships@, r);
                            assert(symbols@ == old(symbols)@);
                            assert(field_child(*node, "trait"@) == Some(*trait_node));
                            let tn = rs_type_names(*trait_node, source@);
                            assert(tn.len() > 0);
                            assert(tn[0] == names@[0]@);
                            assert(resolved@ == rust_resolve(tn[0], imports));
                            assert(rs_first_top_level(symbols_view(old(symbols)@), impl_type@, 0) == Some(id as int));
                            assert(relationship_view(r) == rel(id as int, rust_resolve(tn[0], imports), RelationshipKind::Implements));
                            assert(seq![relationship_view(r)] == implements);
                        }
                        relationships.push(r);
                    },
                    None => {
                        proof {
                            assert(r0 + Seq::<RelationshipView>::empty() =~= r0);
                        }
                    },
                }
            } else {
                proof {
                    assert(r0 + Seq::<RelationshipView>::empty() =~= r0);
                }
            }
        },
        None => {
            proof {
                assert(r0 + Seq::<RelationshipView>::empty() =~= r0);
            }
        },
    }
    let ghost hr = relationships_view(relationships@);
    proof {
        assert(hr == r0 + implements);
    }
    match node.child_by_field_name("body") {
        Some(body) => {
            let ghost f = rs_impl_member_fn(source@, impl_type@);
            let ghost fr = rs_impl_member_rels_fn(source@, imports);
            let ghost v0 = symbols_view(old(symbols)@);
            let ghost n0 = old(symbols)@.len() as int;
            let mut k: usize = 0;
            proof {
                lemma_symbols_from_none(body.children@, n0, f, v0);
                lemma_rels_from_none(body.children@, n0, f, fr, hr);
            }
            while k < body.children.len()
                invariant
                    k <= body.children.len(),
                    grew(old(symbols)@, symbols@),
                    symbols_wf(symbols@),
                    relationships_wf(relationships@, symbols@.len()),
                    f == rs_impl_member_fn(source@, impl_type@),
                    fr == rs_impl_member_rels_fn(source@, imports),
                    imports == pairs_view(import_map@),
                    v0 == symbols_view(old(symbols)@),
                    n0 == old(symbols)@.len(),
                    symbols_view(symbols@) == v0 + symbols_from(body.children@, k as int, n0, f),
                    relationships_view(relationships@) == hr + rels_from(body.children@, k as int, n0, f, fr),
                decreases body.children.len() - k,
            {
                let member = &body.children[k];
                proof {
                    lemma_symbols_from_next(body.children@, k as int, n0, f, v0);
                    lemma_rels_from_next(body.children@, k as int, n0, f, fr, hr);
                }
                if member.is_kind("function_item") {
                    extract_method(member, source, impl_type.as_str(), None, true, symbols, relationships, import_map);
                }
                k = k + 1;
            }
            proof {
                let m = rels_from(body.children@, k as int, n0, f, fr);
                assert(hr + m =~= r0 + (implements + m));
            }
        },
        None => {
            proof {
                assert(hr =~= r0 + (implements + Seq::<RelationshipView>::empty()));
            }
        },
    }
}

/// A top-level function (`kind` is `function`) or type alias (`kind` is `type-alias`): its
/// symbol, and for a function the types of its signature and its calls, for an alias the
/// types it names.
fn extract_item(
    node: &SyntaxNode,
    source: &[u8],
    kind: &str,
    symbols: &mut Vec<ExtractedSymbol>,
    relationships: &mut Vec<ExtractedRelationship>,
    import_map: &Vec<(String, String)>,
)
    requires
        kind@ == "function"@ || kind@ == "type-alias"@,
        symbols_wf(old(symbols)@),
        relationships_wf(old(relationships)@, old(symbols)@.len()),
    ensures
        grew(old(symbols)@, final(symbols)@),
        symbols_wf(final(symbols)@),
        relationships_wf(final(relationships)@, final(symbols)@.len()),
        symbols_view(final(symbols)@) == symbols_view(old(symbols)@) + rs_item_symbols(
            *node,
            source@,
            kind@,
            old(symbols)@.len() as int,
        ),
        field_text(*node, "name"@, source@) is None ==> final(relationships)@ == old(relationships)@,
        relationships_view(final(relationships)@) == relationships_view(old(relationships)@) + rs_item_rels(
            *node,
            source@,
            pairs_view(import_map@),
            kind@,
            old(symbols)@.len() as int,
        ),
{
    proof {
        assert(symbols_view(symbols@) + Seq::<SymbolView>::empty() =~= symbols_view(symbols@));
        assert(relationships_view(relationships@) + Seq::<RelationshipView>::empty() =~= relationships_view(relationships@));
    }
    let name = match field_text_of(node, "name", source) {
        Some(n) => n,
        None => return,
    };
    let is_function = str_eq(kind, "function");
    let local_id = symbols.len();
    let vis = extract_visibility(node, source);
    let (sig, tt) = if is_function {
        (Some(concat(name.as_str(), "()")), None)
    } else {
        (None, field_text_of(node, "type", source))
    };
    let qn = name.clone();
    let mut sym = symbol_at(node, local_id, name, sig, qn, kind, "private", None, String::new(), tt);
    sym.visibility = vis;
    proof {
        lemma_symbols_view_push(symbols@, sym);
    }
    symbols.push(sym);
    let n = Ghost(symbols@.len());
    let ghost r0 = relationships_view(relationships@);
    if is_function {
        extract_signature_relationships(node, source, local_id, relationships, import_map, n);
        extract_call_relationships(node, source, local_id, relationships, n);
        proof {
            let a = rs_signature_rels(*node, source@, pairs_view(import_map@), local_id as int);
            let b = rs_body_calls(*node, source@, local_id as int);
            assert((r0 + a) + b =~= r0 + (a + b));
        }
    } else {
        match node.child_by_field_name("type") {
            Some(tn) => push_type_relationships(tn, source, local_id, RelationshipKind::FieldType, relationships, import_map, n),
            None => {},
        }
    }
}

/// The calls in a function's body.
fn extract_call_relationships(
    node: &SyntaxNode,
    source: &[u8],
    source_local_id: usize,
    relationships: &mut Vec<ExtractedRelationship>,
    n_symbols: Ghost<nat>,
)
    requires
        source_local_id < n_symbols@,
        relationships_wf(old(relationships)@, n_symbols@),
    ensures
        grew(old(relationships)@, final(relationships)@),
        relationships_wf(final(relationships)@, n_symbols@),
        forall|k: int|
            old(relationships)@.len() <= k < final(relationships)@.len() ==> (#[trigger] final(relationships)@[k]).kind
                == RelationshipKind::Calls && final(relationships)@[k].source_local_id == source_local_id,
        relationships_view(final(relationships)@) == relationships_view(old(relationships)@) + rs_body_calls(
            *node,
            source@,
            source_local_id as int,
        ),
{
    proof {
        assert(relationships_view(relationships@) + Seq::<RelationshipView>::empty() =~= relationships_view(relationships@));
    }
    match node.child_by_field_name("body") {
        Some(body) => collect_calls(body, source, source_local_id, relationships, n_symbols),
        None => {},
    }
}

/// The name a call calls: the field of a method call (`self.save()` calls `save`), the
/// identifier called, or the last name of a path (`Foo::new()` calls `new`).
pub open spec fn rust_call_name(call: SyntaxNode, source: Seq<u8>) -> Option<Seq<char>> {
    if kind_is(call, "call_expression"@) {
        match field_child(call, "function"@) {
            Some(f) => if kind_is(f, "field_expression"@) {
                field_text(f, "field"@, source)
            } else if kind_is(f, "identifier"@) {
                node_text(f, source)
            } else if kind_is(f, "scoped_identifier"@) {
                field_text(f, "name"@, source)
            } else {
                None
            },
            None => None,
        }
    } else {
        None
    }
}

fn call_name(node: &SyntaxNode, source: &[u8]) -> (r: Option<String>)
    ensures
        opt_view(r) == rust_call_name(*node, source@),
{
    if !node.is_kind("call_expression") {
        return None;
    }
    match node.child_by_field_name("function") {
        Some(f) => {
            if f.is_kind("field_expression") {
                field_text_of(f, "field", source)
            } else if f.is_kind("identifier") {
                text(f, source)
            } else if f.is_kind("scoped_identifier") {
                field_text_of(f, "name", source)
            } else {
                None
            }
        },
        None => None,
    }
}

/// A method call `recv.m(..)` calls the method `m` alone: its name is the text of the `field`
/// child of the called field expression, never text of the receiver, and it is the name that a
/// plain call `m(..)` of an identifier with that text calls. That name is the first `calls`
/// relationship of the call's subtree.
pub proof fn law_method_call_names_the_method(
    call: SyntaxNode,
    f: SyntaxNode,
    m: SyntaxNode,
    plain: SyntaxNode,
    g: SyntaxNode,
    source: Seq<u8>,
    id: int,
)
    requires
        kind_is(call, "call_expression"@),
        field_child(call, "function"@) == Some(f),
        kind_is(f, "field_expression"@),
        field_child(f, "field"@) == Some(m),
        kind_is(plain, "call_expression"@),
        field_child(plain, "function"@) == Some(g),
        kind_is(g, "identifier"@),
        node_text(g, source) == node_text(m, source),
    ensures
        rust_call_name(call, source) == node_text(m, source),
        rust_call_name(call, source) == rust_call_name(plain, source),
        node_text(m, source) matches Some(t) ==> rs_calls(call, source, id)[0] == rel(
            id,
            t,
            RelationshipKind::Calls,
        ),
{
    assert(!kind_is(f, "identifier"@)) by {
        reveal_strlit("identifier");
        reveal_strlit("field_expression");
        assert("identifier"@[0] != "field_expression"@[0]);
    }
    assert(!kind_is(g, "field_expression"@)) by {
        reveal_strlit("identifier");
        reveal_strlit("field_expression");
        assert("identifier"@[0] != "field_expression"@[0]);
    }
}

/// A call of a path, `Foo::new(..)`, calls `new` alone: its name is the text of the `name`
/// child of the path, never the text of the path before it, and it is the name that a plain
/// call `new(..)` of an identifier with that text calls.
pub proof fn law_path_call_names_the_last_segment(
    call: SyntaxNode,
    p: SyntaxNode,
    n: SyntaxNode,
    plain: SyntaxNode,
    g: SyntaxNode,
    source: Seq<u8>,
)
    requires
        kind_is(call, "call_expression"@),
        field_child(call, "function"@) == Some(p),
        kind_is(p, "scoped_identifier"@),
        field_child(p, "name"@) == Some(n),
        kind_is(plain, "call_expression"@),
        field_child(plain, "function"@) == Some(g),
        kind_is(g, "identifier"@),
        node_text(g, source) == node_text(n, source),
    ensures
        rust_call_name(call, source) == node_text(n, source),
        rust_call_name(call, source) == rust_call_name(plain, source),
{
    assert(!kind_is(p, "identifier"@) && !kind_is(p, "field_expression"@)) by {
        reveal_strlit("identifier");
        reveal_strlit("field_expression");
        reveal_strlit("scoped_identifier");
        assert("identifier"@[0] != "scoped_identifier"@[0]);
        assert("field_expression"@[0] != "scoped_identifier"@[0]);
    }
    assert(!kind_is(g, "field_expression"@)) by {
        reveal_strlit("identifier");
        reveal_strlit("field_expression");
        assert("identifier"@[0] != "field_expression"@[0]);
    }
}

/// Every call in a subtree, as a `calls` relationship to the called name.
fn collect_calls(
    node: &SyntaxNode,
    source: &[u8],
    source_local_id: usize,
    relationships: &mut Vec<ExtractedRelationship>,
    n_symbols: Ghost<nat>,
)
    requires
        source_local_id < n_symbols@,
        relationships_wf(old(relationships)@, n_symbols@),
    ensures
        grew(old(relationships)@, final(relationships)@),
        relationships_wf(final(relationships)@, n_symbols@),
        forall|k: int|
            old(relationships)@.len() <= k < final(relationships)@.len() ==> (#[trigger] final(relationships)@[k]).kind
                == RelationshipKind::Calls && final(relationships)@[k].source_local_id == source_local_id,
        relationships_view(final(relationships)@) == relationships_view(old(relationships)@) + rs_calls(
            *node,
            source@,
            source_local_id as int,
        ),
    decreases node,
{
    let ghost r0 = relationships_view(old(relationships)@);
    let ghost id = source_local_id as int;
    let ghost own = match rust_call_name(*node, source@) {
        Some(name) => seq![rel(id, name, RelationshipKind::Calls)],
        None => Seq::<RelationshipView>::empty(),
    };
    match call_name(node, source) {
        Some(name) => {
            let r = relationship(source_local_id, name, RelationshipKind::Calls);
            proof {
                lemma_relationships_view_push(relationships@, r);
            }
            relationships.push(r);
        },
        None => {
            proof {
                assert(r0 + Seq::<RelationshipView>::empty() =~= r0);
            }
        },
    }
    let ghost head = relationships_view(relationships@);
    proof {
        assert(head == r0 + own);
        assert(head + rs_calls_in(*node, source@, id, 0) =~= head);
    }
    let mut i: usize = 0;
    while i < node.children.len()
        invariant
            i <= node.children.len(),
            source_local_id < n_symbols@,
            id == source_local_id,
            grew(old(relationships)@, relationships@),
            relationships_wf(relationships@, n_symbols@),
            forall|k: int|
                old(relationships)@.len() <= k < relationships@.len() ==> (#[trigger] relationships@[k]).kind
                    == RelationshipKind::Calls && relationships@[k].source_local_id == source_local_id,
            relationships_view(relationships@) == head + rs_calls_in(*node, source@, id, i as int),
        decreases node.children.len() - i,
    {
        proof {
            crate::syntax::lemma_child_depth(*node, i as int);
        }
        collect_calls(&node.children[i], source, source_local_id, relationships, n_symbols);
        proof {
            let p = rs_calls_in(*node, source@, id, i as int);
            let x = rs_calls(node.children@[i as int], source@, id);
            assert((head + p) + x =~= head + (p + x));
        }
        i = i + 1;
    }
    proof {
        let rest = rs_calls_in(*node, source@, id, i as int);
        assert((r0 + own) + rest =~= r0 + (own + rest));
    }
}

} // verus!

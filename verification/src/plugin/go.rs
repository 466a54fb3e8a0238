//! Go: structs and interfaces with their fields and methods, functions, and methods bound to
//! a receiver; embedding as `extends`, types of fields, parameters and results as
//! `field-type`, and calls.
use vstd::prelude::*;
use crate::model::{ExtractedRelationship, ExtractedSymbol, ExtractionResult, RelationshipKind, Visibility};
use crate::plugin::{
    at_node, extension_in, extension_of, field_text, field_text_of, first_some_from, grew,
    language_extensions, lemma_symbols_from_members, lemma_member_qn, members_of, lemma_symbols_from_next, lemma_symbols_from_none, lemma_symbols_view_push,
    node_symbol, path_extension, relationship, relationships_wf, result_wf, symbol_at, symbols_from,
    symbol_view, symbols_view, symbols_wf, LanguageId, SymbolView, RelationshipView, rel, rels_from,
    rels_over, relationships_view, lemma_relationships_view_push, lemma_rels_from_next,
    lemma_rels_from_none, lemma_rels_over_next, lemma_rels_over_none,
};
use crate::syntax::{depth, field_child, kind_is, lemma_child_depth, node_text, text, SyntaxNode};
use crate::text::{
    chars_of, concat, dotted, is_prefix, opt_view, starts_upper, starts_with, starts_with_uppercase,
    str_eq, string_of, string_of_range, strip_prefix_all, trim, trim_seq, trim_start_matches,
};

verus! {

/// The Go plugin.
pub struct GoPlugin;

impl GoPlugin {
    pub fn name(&self) -> (r: &'static str)
        ensures
            r@ == "go"@,
    {
        "go"
    }

    pub fn display_name(&self) -> (r: &'static str)
        ensures
            r@ == "Go"@,
    {
        "Go"
    }

    /// Whether the file has the extension `go`.
    pub fn can_handle(&self, path: &str) -> (r: bool)
        ensures
            r == extension_in(path_extension(path@), language_extensions(LanguageId::Go)),
    {
        match extension_of(path) {
            Some(x) => {
                let r = str_eq(x.as_str(), "go");
                proof {
                    let exts = language_extensions(LanguageId::Go);
                    assert(exts[0] == "go"@);
                    if exts.contains(x@) {
                        let k = choose|k: int| 0 <= k < exts.len() && exts[k] == x@;
                        assert(k == 0);
                    }
                }
                r
            },
            None => false,
        }
    }

    /// Calls the grammar constant `tree_sitter_go::LANGUAGE`.
    #[verifier::external_body]
    pub fn tree_sitter_language(&self) -> tree_sitter::Language {
        tree_sitter_go::LANGUAGE.into()
    }

    /// The type declarations, functions and methods at the top level of the file.
    pub fn extract_symbols(&self, root: &SyntaxNode, source: &[u8]) -> (r: ExtractionResult)
        ensures
            result_wf(r),
            symbols_view(r.symbols@) == go_symbols(*root, source@),
            relationships_view(r.relationships@) == go_relationships(*root, source@),
            r.wildcard_imports@.len() == 0,
    {
        let package = find_package(root, source);
        let ghost f = go_top_fn(source@, package@);
        let ghost g = go_type_decl_fn(source@, package@);
        let ghost fr = go_top_rels_fn(source@, package@);
        let ghost gr = go_type_decl_rels_fn(source@, package@);
        let ghost er = Seq::<RelationshipView>::empty();
        let mut symbols: Vec<ExtractedSymbol> = Vec::new();
        let mut relationships: Vec<ExtractedRelationship> = Vec::new();
        let mut i: usize = 0;
        proof {
            assert(symbols_view(symbols@) =~= Seq::<SymbolView>::empty());
            assert(relationships_view(relationships@) =~= er);
            lemma_symbols_from_none(root.children@, 0, f, symbols_view(symbols@));
            lemma_rels_from_none(root.children@, 0, f, fr, er);
        }
        while i < root.children.len()
            invariant
                i <= root.children.len(),
                symbols_wf(symbols@),
                relationships_wf(relationships@, symbols@.len()),
                f == go_top_fn(source@, package@),
                g == go_type_decl_fn(source@, package@),
                fr == go_top_rels_fn(source@, package@),
                gr == go_type_decl_rels_fn(source@, package@),
                er == Seq::<RelationshipView>::empty(),
                symbols_view(symbols@) == Seq::<SymbolView>::empty() + symbols_from(root.children@, i as int, 0, f),
                relationships_view(relationships@) == er + rels_from(root.children@, i as int, 0, f, fr),
            decreases root.children.len() - i,
        {
            let child = &root.children[i];
            let ghost vb = symbols_view(symbols@);
            let ghost rb = relationships_view(relationships@);
            let ghost nb = symbols@.len() as int;
            proof {
                lemma_symbols_from_next(root.children@, i as int, 0, f, Seq::<SymbolView>::empty());
                lemma_rels_from_next(root.children@, i as int, 0, f, fr, er);
            }
            if child.is_kind("type_declaration") {
                let mut j: usize = 0;
                proof {
                    lemma_symbols_from_none(child.children@, nb, g, vb);
                    lemma_rels_from_none(child.children@, nb, g, gr, rb);
                }
                while j < child.children.len()
                    invariant
                        j <= child.children.len(),
                        symbols_wf(symbols@),
                        relationships_wf(relationships@, symbols@.len()),
                        g == go_type_decl_fn(source@, package@),
                        gr == go_type_decl_rels_fn(source@, package@),
                        vb.len() == nb,
                        symbols_view(symbols@) == vb + symbols_from(child.children@, j as int, nb, g),
                        relationships_view(relationships@) == rb + rels_from(child.children@, j as int, nb, g, gr),
                    decreases child.children.len() - j,
                {
                    proof {
                        lemma_symbols_from_next(child.children@, j as int, nb, g, vb);
                        lemma_rels_from_next(child.children@, j as int, nb, g, gr, rb);
                    }
                    if child.children[j].is_kind("type_spec") {
                        extract_type_spec(&child.children[j], source, package.as_str(), &mut symbols, &mut relationships);
                    }
                    j = j + 1;
                }
            } else if child.is_kind("function_declaration") {
                extract_function(child, source, package.as_str(), &mut symbols, &mut relationships);
            } else if child.is_kind("method_declaration") {
                extract_method(child, source, package.as_str(), &mut symbols, &mut relationships);
            }
            i = i + 1;
        }
        proof {
            assert(Seq::<SymbolView>::empty() + symbols_from(root.children@, i as int, 0, f) =~= symbols_from(
                root.children@,
                i as int,
                0,
                f,
            ));
            assert(er + rels_from(root.children@, i as int, 0, f, fr) =~= rels_from(root.children@, i as int, 0, f, fr));
        }
        ExtractionResult { symbols, relationships, wildcard_imports: Vec::new() }
    }
}

/// The package named by a top-level child, if it is a package clause.
pub open spec fn package_of_clause(c: SyntaxNode, source: Seq<u8>) -> Option<Seq<char>> {
    if kind_is(c, "package_clause"@) {
        first_some_from(c.children@, package_ident_fn(source), 0)
    } else {
        None
    }
}

pub open spec fn package_ident(c: SyntaxNode, source: Seq<u8>) -> Option<Seq<char>> {
    if kind_is(c, "package_identifier"@) {
        node_text(c, source)
    } else {
        None
    }
}

pub open spec fn package_ident_fn(source: Seq<u8>) -> spec_fn(SyntaxNode) -> Option<Seq<char>> {
    |c: SyntaxNode| package_ident(c, source)
}

pub open spec fn package_of_clause_fn(source: Seq<u8>) -> spec_fn(SyntaxNode) -> Option<Seq<char>> {
    |c: SyntaxNode| package_of_clause(c, source)
}

/// The file's package: the first package clause that names one; empty without one.
pub open spec fn go_package(root: SyntaxNode, source: Seq<u8>) -> Seq<char> {
    match first_some_from(root.children@, package_of_clause_fn(source), 0) {
        Some(p) => p,
        None => Seq::empty(),
    }
}

/// The package of the file.
pub fn find_package(root: &SyntaxNode, source: &[u8]) -> (r: String)
    ensures
        r@ == go_package(*root, source@),
{
    let ghost f = package_of_clause_fn(source@);
    let mut i: usize = 0;
    while i < root.children.len()
        invariant
            i <= root.children.len(),
            f == package_of_clause_fn(source@),
            first_some_from(root.children@, f, 0) == first_some_from(root.children@, f, i as int),
        decreases root.children.len() - i,
    {
        let child = &root.children[i];
        if child.is_kind("package_clause") {
            let ghost g = package_ident_fn(source@);
            let mut j: usize = 0;
            while j < child.children.len()
                invariant
                    j <= child.children.len(),
                    g == package_ident_fn(source@),
                    f == package_of_clause_fn(source@),
                    kind_is(*child, "package_clause"@),
                    i < root.children.len(),
                    *child == root.children@[i as int],
                    first_some_from(root.children@, f, 0) == first_some_from(root.children@, f, i as int),
                    first_some_from(child.children@, g, 0) == first_some_from(child.children@, g, j as int),
                decreases child.children.len() - j,
            {
                let pc = &child.children[j];
                if pc.is_kind("package_identifier") {
                    match text(pc, source) {
                        Some(t) => {
                            proof {
                                assert(g(*pc) == Some(t@));
                                assert(first_some_from(child.children@, g, j as int) == Some(t@));
                                assert(f(*child) == Some(t@));
                                assert(first_some_from(root.children@, f, i as int) == Some(t@));
                            }
                            return t;
                        },
                        None => {},
                    }
                }
                proof {
                    assert(g(*pc) is None);
                }
                j = j + 1;
            }
            proof {
                assert(f(*child) is None);
            }
        }
        proof {
            assert(f(*child) is None);
        }
        i = i + 1;
    }
    String::new()
}

/// Go's visibility rule: exported (public) names start with an uppercase letter.
pub open spec fn go_visibility(name: Seq<char>) -> Seq<char> {
    if starts_upper(name) {
        "public"@
    } else {
        "private"@
    }
}

/// The visibility of a name.
pub fn visibility_from_name(name: &str) -> (r: Visibility)
    ensures
        r.0@ == go_visibility(name@),
{
    if starts_with_uppercase(name) {
        Visibility::new("public")
    } else {
        Visibility::new("private")
    }
}

/// A type with its leading pointer, slice and channel markers removed.
pub open spec fn go_strip_markers(s: Seq<char>) -> Seq<char> {
    strip_prefix_all(
        strip_prefix_all(
            strip_prefix_all(strip_prefix_all(strip_prefix_all(s, "*"@), "[]"@), "chan "@),
            "<-chan "@,
        ),
        "chan<- "@,
    )
}

/// Just past the `]` that closes the bracket open at `depth` when the scan reaches `i`.
pub open spec fn bracket_end(s: Seq<char>, i: int, depth: int) -> Option<int>
    decreases s.len() - i,
{
    if i < 0 || i >= s.len() {
        None
    } else if s[i] == '[' {
        bracket_end(s, i + 1, depth + 1)
    } else if s[i] == ']' {
        if depth <= 1 {
            Some(i + 1)
        } else {
            bracket_end(s, i + 1, depth - 1)
        }
    } else {
        bracket_end(s, i + 1, depth)
    }
}

/// Where the value type of a map type `map[K]V` starts.
pub open spec fn map_value_start(s: Seq<char>) -> Option<int> {
    if is_prefix("map["@, s) {
        bracket_end(s, 4, 1)
    } else {
        None
    }
}

pub proof fn lemma_bracket_end_range(s: Seq<char>, i: int, depth: int)
    requires
        0 <= i,
    ensures
        bracket_end(s, i, depth) matches Some(j) ==> i < j <= s.len(),
    decreases s.len() - i,
{
    if i < s.len() {
        lemma_bracket_end_range(s, i + 1, depth + 1);
        lemma_bracket_end_range(s, i + 1, depth - 1);
        lemma_bracket_end_range(s, i + 1, depth);
    }
}

pub proof fn lemma_strip_prefix_all_len(s: Seq<char>, p: Seq<char>)
    ensures
        strip_prefix_all(s, p).len() <= s.len(),
    decreases s.len(),
{
    if p.len() > 0 && is_prefix(p, s) {
        lemma_strip_prefix_all_len(s.skip(p.len() as int), p);
    }
}

pub proof fn lemma_strip_markers_len(s: Seq<char>)
    ensures
        go_strip_markers(s).len() <= s.len(),
{
    let a = strip_prefix_all(s, "*"@);
    let b = strip_prefix_all(a, "[]"@);
    let c = strip_prefix_all(b, "chan "@);
    let d = strip_prefix_all(c, "<-chan "@);
    lemma_strip_prefix_all_len(s, "*"@);
    lemma_strip_prefix_all_len(a, "[]"@);
    lemma_strip_prefix_all_len(b, "chan "@);
    lemma_strip_prefix_all_len(c, "<-chan "@);
    lemma_strip_prefix_all_len(d, "chan<- "@);
}

/// The base of an untrimmed type: its markers removed, and of a map type the base of its
/// value type.
pub open spec fn go_base_rest(s: Seq<char>) -> Seq<char>
    decreases s.len(),
{
    let m = go_strip_markers(s);
    match map_value_start(m) {
        Some(i) => {
            proof {
                lemma_strip_markers_len(s);
                lemma_bracket_end_range(m, 4, 1);
            }
            go_base_rest(m.skip(i))
        },
        None => m,
    }
}

/// The base of a type: trimmed, with leading pointer, slice, map and channel markers removed,
/// so that `map[string]*Item` gives `Item`.
pub open spec fn go_base_type(t: Seq<char>) -> Seq<char> {
    go_base_rest(trim_seq(t))
}

fn strip_markers(s: &str) -> (r: String)
    ensures
        r@ == go_strip_markers(s@),
{
    let s = trim_start_matches(s, "*");
    let s = trim_start_matches(s.as_str(), "[]");
    let s = trim_start_matches(s.as_str(), "chan ");
    let s = trim_start_matches(s.as_str(), "<-chan ");
    trim_start_matches(s.as_str(), "chan<- ")
}

fn value_start(v: &Vec<char>) -> (r: Option<usize>)
    ensures
        match r {
            Some(i) => map_value_start(v@) == Some(i as int),
            None => map_value_start(v@) is None,
        },
{
    let s = string_of(v);
    if !starts_with(s.as_str(), "map[") {
        return None;
    }
    let mut i: usize = 4;
    let mut depth: usize = 1;
    proof {
        reveal_strlit("map[");
    }
    while i < v.len()
        invariant
            s@ == v@,
            4 <= i <= v.len(),
            1 <= depth <= i,
            map_value_start(v@) == bracket_end(v@, i as int, depth as int),
        decreases v.len() - i,
    {
        if v[i] == '[' {
            depth = depth + 1;
        } else if v[i] == ']' {
            if depth <= 1 {
                return Some(i + 1);
            }
            depth = depth - 1;
        }
        i = i + 1;
    }
    None
}

/// Strips pointer, slice, map and channel markers from a type to get its base name.
pub fn extract_base_type(type_str: &str) -> (r: String)
    ensures
        r@ == go_base_type(type_str@),
{
    let mut cur = trim(type_str);
    loop
        invariant
            go_base_rest(cur@) == go_base_type(type_str@),
        decreases cur@.len(),
    {
        let m = strip_markers(cur.as_str());
        let v = chars_of(m.as_str());
        match value_start(&v) {
            Some(i) => {
                proof {
                    lemma_strip_markers_len(cur@);
                    lemma_bracket_end_range(m@, 4, 1);
                }
                cur = string_of_range(&v, i, v.len());
                proof {
                    assert(cur@ =~= m@.skip(i as int));
                }
            },
            None => {
                return m;
            },
        }
    }
}

/// Whether a type name is user-defined: it starts with an uppercase letter.
pub fn is_user_type(name: &str) -> (r: bool)
    ensures
        r == starts_upper(name@),
{
    starts_with_uppercase(name)
}

/// A name qualified by a package, where there is one.
pub open spec fn go_qualify(package: Seq<char>, name: Seq<char>) -> Seq<char> {
    if package.len() == 0 {
        name
    } else {
        package + "."@ + name
    }
}

fn qualify(package: &str, name: &str) -> (r: String)
    ensures
        r@ == go_qualify(package@, name@),
{
    if package.is_empty() {
        name.to_string()
    } else {
        dotted(package, name)
    }
}

// ---------------------------------------------------------------------------------------------
// The symbols of a file
// ---------------------------------------------------------------------------------------------

/// The symbols of a file: for each top-level node in turn, the types of a type declaration, a
/// function, or a method.
pub open spec fn go_symbols(root: SyntaxNode, source: Seq<u8>) -> Seq<SymbolView> {
    symbols_from(root.children@, root.children@.len() as int, 0, go_top_fn(source, go_package(root, source)))
}

pub open spec fn go_top_fn(source: Seq<u8>, package: Seq<char>) -> spec_fn(SyntaxNode, int) -> Seq<SymbolView> {
    |c: SyntaxNode, id: int|
        if kind_is(c, "type_declaration"@) {
            symbols_from(c.children@, c.children@.len() as int, id, go_type_decl_fn(source, package))
        } else if kind_is(c, "function_declaration"@) {
            go_function_symbols(c, source, package, id)
        } else if kind_is(c, "method_declaration"@) {
            go_method_symbols(c, source, package, id)
        } else {
            Seq::empty()
        }
}

pub open spec fn go_type_decl_fn(source: Seq<u8>, package: Seq<char>) -> spec_fn(SyntaxNode, int) -> Seq<SymbolView> {
    |d: SyntaxNode, id: int|
        if kind_is(d, "type_spec"@) {
            go_type_spec_symbols(d, source, package, id)
        } else {
            Seq::empty()
        }
}

/// The symbols of a `type_spec`: a struct with its fields, or an interface with its methods;
/// `id` is the number of symbols before it.
pub open spec fn go_type_spec_symbols(node: SyntaxNode, source: Seq<u8>, package: Seq<char>, id: int) -> Seq<
    SymbolView,
> {
    match (field_text(node, "name"@, source), field_child(node, "type"@)) {
        (Some(name), Some(t)) => if kind_is(t, "struct_type"@) || kind_is(t, "interface_type"@) {
            let qn = go_qualify(package, name);
            let kind = if kind_is(t, "struct_type"@) {
                "struct"@
            } else {
                "interface"@
            };
            let members = if kind_is(t, "struct_type"@) {
                symbols_from(t.children@, t.children@.len() as int, id + 1, go_struct_part_fn(source, qn, package, id))
            } else {
                symbols_from(t.children@, t.children@.len() as int, id + 1, go_iface_member_fn(source, qn, package, id))
            };
            seq![node_symbol(node, id, name, None, qn, kind, go_visibility(name), None, package, None)] + members
        } else {
            Seq::empty()
        },
        _ => Seq::empty(),
    }
}

pub open spec fn go_struct_part_fn(source: Seq<u8>, parent_qn: Seq<char>, package: Seq<char>, parent_id: int) -> spec_fn(
    SyntaxNode,
    int,
) -> Seq<SymbolView> {
    |c: SyntaxNode, id: int|
        if kind_is(c, "field_declaration_list"@) {
            symbols_from(c.children@, c.children@.len() as int, id, go_field_decl_fn(source, parent_qn, package, parent_id))
        } else {
            Seq::empty()
        }
}

pub open spec fn go_field_decl_fn(source: Seq<u8>, parent_qn: Seq<char>, package: Seq<char>, parent_id: int) -> spec_fn(
    SyntaxNode,
    int,
) -> Seq<SymbolView> {
    |d: SyntaxNode, id: int|
        if kind_is(d, "field_declaration"@) {
            go_field_symbols(d, source, parent_qn, package, parent_id, id)
        } else {
            Seq::empty()
        }
}

/// The `field` symbol of a named field declaration of a struct.
pub open spec fn go_field_symbols(
    node: SyntaxNode,
    source: Seq<u8>,
    parent_qn: Seq<char>,
    package: Seq<char>,
    parent_id: int,
    id: int,
) -> Seq<SymbolView> {
    match field_text(node, "name"@, source) {
        Some(name) => seq![
            node_symbol(
                node,
                id,
                name,
                None,
                parent_qn + "."@ + name,
                "field"@,
                go_visibility(name),
                Some(parent_id),
                package,
                field_text(node, "type"@, source),
            ),
        ],
        None => Seq::empty(),
    }
}

/// The qualified name of a member is that of its struct or interface, a dot, and the member's
/// name.
/// A named field of a struct is a member of the struct: its parent is the struct and its
/// qualified name is the struct's, a dot, and the field's name.
pub proof fn law_field_qualified_below_struct(
    node: SyntaxNode,
    source: Seq<u8>,
    parent_qn: Seq<char>,
    package: Seq<char>,
    parent_id: int,
    id: int,
)
    ensures
        ({
            let s = go_field_symbols(node, source, parent_qn, package, parent_id, id);
            &&& field_text(node, "name"@, source) matches Some(name) ==> s.len() == 1
                && s[0].qualified_name == parent_qn + "."@ + name && s[0].name == name
            &&& members_of(s, parent_qn + "."@, parent_id)
        }),
{
    match field_text(node, "name"@, source) {
        Some(name) => {
            lemma_member_qn(parent_qn, name);
        },
        None => {},
    }
}

/// The symbols of a named struct or interface: the type first, qualified by the package, then
/// its fields or methods, each a member of the type (its parent, with a qualified name below
/// the type's).
pub proof fn law_type_members_below_type(node: SyntaxNode, source: Seq<u8>, package: Seq<char>, id: int)
    ensures
        ({
            let s = go_type_spec_symbols(node, source, package, id);
            s.len() > 0 ==> {
                &&& s[0].local_id == id
                &&& s[0].qualified_name == go_qualify(package, field_text(node, "name"@, source)->0)
                &&& members_of(s.skip(1), s[0].qualified_name + "."@, id)
            }
        }),
{
    match (field_text(node, "name"@, source), field_child(node, "type"@)) {
        (Some(name), Some(t)) => if kind_is(t, "struct_type"@) || kind_is(t, "interface_type"@) {
            let qn = go_qualify(package, name);
            let s = go_type_spec_symbols(node, source, package, id);
            if kind_is(t, "struct_type"@) {
                let f = go_struct_part_fn(source, qn, package, id);
                assert forall|c: SyntaxNode, j: int| #[trigger] members_of(f(c, j), qn + "."@, id) by {
                    if kind_is(c, "field_declaration_list"@) {
                        let g = go_field_decl_fn(source, qn, package, id);
                        assert forall|d: SyntaxNode, k: int| #[trigger] members_of(g(d, k), qn + "."@, id) by {
                            law_field_qualified_below_struct(d, source, qn, package, id, k);
                        }
                        lemma_symbols_from_members(c.children@, c.children@.len() as int, j, g, qn + "."@, id);
                    }
                }
                lemma_symbols_from_members(t.children@, t.children@.len() as int, id + 1, f, qn + "."@, id);
                assert(s.skip(1) =~= symbols_from(t.children@, t.children@.len() as int, id + 1, f));
            } else {
                let f = go_iface_member_fn(source, qn, package, id);
                assert forall|c: SyntaxNode, j: int| #[trigger] members_of(f(c, j), qn + "."@, id) by {
                    match field_text(c, "name"@, source) {
                        Some(name) => lemma_member_qn(qn, name),
                        None => {},
                    }
                }
                lemma_symbols_from_members(t.children@, t.children@.len() as int, id + 1, f, qn + "."@, id);
                assert(s.skip(1) =~= symbols_from(t.children@, t.children@.len() as int, id + 1, f));
            }
        },
        _ => {},
    }
}

/// The `method` symbol of a named method of an interface.
pub open spec fn go_iface_member_fn(source: Seq<u8>, parent_qn: Seq<char>, package: Seq<char>, parent_id: int) -> spec_fn(
    SyntaxNode,
    int,
) -> Seq<SymbolView> {
    |c: SyntaxNode, id: int|
        if kind_is(c, "method_elem"@) {
            match field_text(c, "name"@, source) {
                Some(name) => seq![
                    node_symbol(
                        c,
                        id,
                        name,
                        Some(name + "()"@),
                        parent_qn + "."@ + name,
                        "method"@,
                        go_visibility(name),
                        Some(parent_id),
                        package,
                        None,
                    ),
                ],
                None => Seq::empty(),
            }
        } else {
            Seq::empty()
        }
}

/// The `function` symbol of a named function declaration.
pub open spec fn go_function_symbols(node: SyntaxNode, source: Seq<u8>, package: Seq<char>, id: int) -> Seq<SymbolView> {
    match field_text(node, "name"@, source) {
        Some(name) => seq![
            node_symbol(
                node,
                id,
                name,
                Some(name + "()"@),
                go_qualify(package, name),
                "function"@,
                go_visibility(name),
                None,
                package,
                None,
            ),
        ],
        None => Seq::empty(),
    }
}

/// The `method` symbol of a named method declaration, qualified by its receiver type.
pub open spec fn go_method_symbols(node: SyntaxNode, source: Seq<u8>, package: Seq<char>, id: int) -> Seq<SymbolView> {
    match field_text(node, "name"@, source) {
        Some(name) => seq![
            node_symbol(
                node,
                id,
                name,
                Some(name + "()"@),
                go_method_name(package, go_receiver_type(node, source), name),
                "method"@,
                go_visibility(name),
                None,
                package,
                None,
            ),
        ],
        None => Seq::empty(),
    }
}

/// A named method with a receiver type is qualified below that type: its qualified name is the
/// one the type has as a type of the package, a dot, and the method's name. Without a receiver
/// type it is qualified like a function.
pub proof fn law_method_qualified_below_receiver(node: SyntaxNode, source: Seq<u8>, package: Seq<char>, id: int)
    ensures
        ({
            let s = go_method_symbols(node, source, package, id);
            let r = go_receiver_type(node, source);
            field_text(node, "name"@, source) matches Some(name) ==> {
                &&& s.len() == 1
                &&& s[0].name == name
                &&& s[0].kind == "method"@
                &&& r.len() > 0 ==> s[0].qualified_name == go_qualify(package, r) + "."@ + name
                &&& r.len() == 0 ==> s[0].qualified_name == go_qualify(package, name)
            }
        }),
{
}

// ---------------------------------------------------------------------------------------------
// The relationships of a file
// ---------------------------------------------------------------------------------------------

/// The relationships of a file, in the order of its top-level nodes.
pub open spec fn go_relationships(root: SyntaxNode, source: Seq<u8>) -> Seq<RelationshipView> {
    let package = go_package(root, source);
    rels_from(root.children@, root.children@.len() as int, 0, go_top_fn(source, package), go_top_rels_fn(source, package))
}

pub open spec fn go_top_rels_fn(source: Seq<u8>, package: Seq<char>) -> spec_fn(SyntaxNode, int) -> Seq<RelationshipView> {
    |c: SyntaxNode, id: int|
        if kind_is(c, "type_declaration"@) {
            rels_from(c.children@, c.children@.len() as int, id, go_type_decl_fn(source, package), go_type_decl_rels_fn(source, package))
        } else if kind_is(c, "function_declaration"@) {
            go_function_rels(c, source, id)
        } else if kind_is(c, "method_declaration"@) {
            go_function_rels(c, source, id)
        } else {
            Seq::empty()
        }
}

pub open spec fn go_type_decl_rels_fn(source: Seq<u8>, package: Seq<char>) -> spec_fn(SyntaxNode, int) -> Seq<RelationshipView> {
    |d: SyntaxNode, id: int|
        if kind_is(d, "type_spec"@) {
            go_type_spec_rels(d, source, package, id)
        } else {
            Seq::empty()
        }
}

/// The relationships of the members of a struct or interface `type_spec` whose symbol is `id`.
pub open spec fn go_type_spec_rels(node: SyntaxNode, source: Seq<u8>, package: Seq<char>, id: int) -> Seq<RelationshipView> {
    match (field_text(node, "name"@, source), field_child(node, "type"@)) {
        (Some(name), Some(t)) => {
            let qn = go_qualify(package, name);
            if kind_is(t, "struct_type"@) {
                rels_from(
                    t.children@,
                    t.children@.len() as int,
                    id + 1,
                    go_struct_part_fn(source, qn, package, id),
                    go_struct_part_rels_fn(source, qn, package, id),
                )
            } else if kind_is(t, "interface_type"@) {
                rels_from(
                    t.children@,
                    t.children@.len() as int,
                    id + 1,
                    go_iface_member_fn(source, qn, package, id),
                    go_iface_rels_fn(source, id),
                )
            } else {
                Seq::empty()
            }
        },
        _ => Seq::empty(),
    }
}

pub open spec fn go_struct_part_rels_fn(source: Seq<u8>, parent_qn: Seq<char>, package: Seq<char>, parent_id: int) -> spec_fn(
    SyntaxNode,
    int,
) -> Seq<RelationshipView> {
    |c: SyntaxNode, id: int|
        if kind_is(c, "field_declaration_list"@) {
            rels_from(
                c.children@,
                c.children@.len() as int,
                id,
                go_field_decl_fn(source, parent_qn, package, parent_id),
                go_field_decl_rels_fn(source, parent_id),
            )
        } else {
            Seq::empty()
        }
}

pub open spec fn go_field_decl_rels_fn(source: Seq<u8>, parent_id: int) -> spec_fn(SyntaxNode, int) -> Seq<RelationshipView> {
    |d: SyntaxNode, id: int|
        if kind_is(d, "field_declaration"@) {
            go_field_rels(d, source, parent_id, id)
        } else {
            Seq::empty()
        }
}

/// The relationships of a struct's field declaration: an embedded type `extends` (without a
/// leading `*`) from the struct; a named field's base type, where it is a user type, as the
/// field's `field-type`.
pub open spec fn go_field_rels(d: SyntaxNode, source: Seq<u8>, parent_id: int, id: int) -> Seq<RelationshipView> {
    match field_child(d, "name"@) {
        None => match field_text(d, "type"@, source) {
            Some(t) => seq![rel(parent_id, strip_prefix_all(t, "*"@), RelationshipKind::Extends)],
            None => Seq::empty(),
        },
        Some(_) => match (field_text(d, "name"@, source), field_text(d, "type"@, source)) {
            (Some(_), Some(t)) => go_type_rels(t, id),
            _ => Seq::empty(),
        },
    }
}

pub open spec fn go_iface_rels_fn(source: Seq<u8>, parent_id: int) -> spec_fn(SyntaxNode, int) -> Seq<RelationshipView> {
    |c: SyntaxNode, id: int|
        if kind_is(c, "method_elem"@) {
            match field_text(c, "name"@, source) {
                Some(_) => go_param_rels(c, source, id) + go_result_rels(c, source, id),
                None => Seq::empty(),
            }
        } else if kind_is(c, "type_elem"@) {
            if c.children@.len() > 0 {
                match node_text(c.children@[0], source) {
                    Some(t) => if starts_upper(t) {
                        seq![rel(parent_id, t, RelationshipKind::Extends)]
                    } else {
                        Seq::empty()
                    },
                    None => Seq::empty(),
                }
            } else {
                Seq::empty()
            }
        } else {
            Seq::empty()
        }
}

/// The relationships of a named function or method `id`: the types of its parameters and
/// results, then its calls.
pub open spec fn go_function_rels(node: SyntaxNode, source: Seq<u8>, id: int) -> Seq<RelationshipView> {
    match field_text(node, "name"@, source) {
        Some(_) => go_param_rels(node, source, id) + go_result_rels(node, source, id) + match field_child(node, "body"@) {
            Some(b) => go_calls(b, source, id),
            None => Seq::empty(),
        },
        None => Seq::empty(),
    }
}

/// A `field-type` relationship to the base of a type, where that is a user type.
pub open spec fn go_type_rels(t: Seq<char>, id: int) -> Seq<RelationshipView> {
    if starts_upper(go_base_type(t)) {
        seq![rel(id, go_base_type(t), RelationshipKind::FieldType)]
    } else {
        Seq::empty()
    }
}

/// The types of a function's parameters.
pub open spec fn go_param_rels(node: SyntaxNode, source: Seq<u8>, id: int) -> Seq<RelationshipView> {
    match field_child(node, "parameters"@) {
        Some(p) => rels_over(p.children@, p.children@.len() as int, go_param_fn(source, id)),
        None => Seq::empty(),
    }
}

pub open spec fn go_param_fn(source: Seq<u8>, id: int) -> spec_fn(SyntaxNode) -> Seq<RelationshipView> {
    |c: SyntaxNode|
        if kind_is(c, "parameter_declaration"@) || kind_is(c, "variadic_parameter_declaration"@) {
            match field_text(c, "type"@, source) {
                Some(t) => go_type_rels(t, id),
                None => Seq::empty(),
            }
        } else {
            Seq::empty()
        }
}

/// The types of a function's results: each of a result list, or the single result type.
pub open spec fn go_result_rels(node: SyntaxNode, source: Seq<u8>, id: int) -> Seq<RelationshipView> {
    match field_child(node, "result"@) {
        Some(r) => if kind_is(r, "parameter_list"@) {
            rels_over(r.children@, r.children@.len() as int, go_result_fn(source, id))
        } else {
            match node_text(r, source) {
                Some(t) => go_type_rels(t, id),
                None => Seq::empty(),
            }
        },
        None => Seq::empty(),
    }
}

pub open spec fn go_result_fn(source: Seq<u8>, id: int) -> spec_fn(SyntaxNode) -> Seq<RelationshipView> {
    |c: SyntaxNode|
        if kind_is(c, "parameter_declaration"@) {
            match field_text(c, "type"@, source) {
                Some(t) => go_type_rels(t, id),
                None => Seq::empty(),
            }
        } else {
            Seq::empty()
        }
}

/// Every call in a subtree, in document order, as a `calls` relationship of `id`.
pub open spec fn go_calls(n: SyntaxNode, source: Seq<u8>, id: int) -> Seq<RelationshipView>
    decreases depth(n), n.children@.len() + 1,
{
    (match go_call_name(n, source) {
        Some(name) => seq![rel(id, name, RelationshipKind::Calls)],
        None => Seq::empty(),
    }) + go_calls_in(n, source, id, n.children@.len() as int)
}

/// The calls in the first `k` children of a node.
pub open spec fn go_calls_in(n: SyntaxNode, source: Seq<u8>, id: int, k: int) -> Seq<RelationshipView>
    decreases depth(n), k,
{
    if k <= 0 || k > n.children@.len() {
        Seq::empty()
    } else {
        proof {
            lemma_child_depth(n, k - 1);
        }
        go_calls_in(n, source, id, k - 1) + go_calls(n.children@[k - 1], source, id)
    }
}

/// A `type_spec` for a struct or an interface: the type and its members.
fn extract_type_spec(
    node: &SyntaxNode,
    source: &[u8],
    package: &str,
    symbols: &mut Vec<ExtractedSymbol>,
    relationships: &mut Vec<ExtractedRelationship>,
)
    requires
        symbols_wf(old(symbols)@),
        relationships_wf(old(relationships)@, old(symbols)@.len()),
    ensures
        grew(old(symbols)@, final(symbols)@),
        symbols_wf(final(symbols)@),
        relationships_wf(final(relationships)@, final(symbols)@.len()),
        symbols_view(final(symbols)@) == symbols_view(old(symbols)@) + go_type_spec_symbols(
            *node,
            source@,
            package@,
            old(symbols)@.len() as int,
        ),
        relationships_view(final(relationships)@) == relationships_view(old(relationships)@) + go_type_spec_rels(
            *node,
            source@,
            package@,
            old(symbols)@.len() as int,
        ),
{
    proof {
        assert(symbols_view(symbols@) + Seq::<SymbolView>::empty() =~= symbols_view(symbols@));
        assert(relationships_view(relationships@) + Seq::<RelationshipView>::empty() =~= relationships_view(relationships@));
    }
    let name = match field_text_of(node, "name", source) {
        Some(n) => n,
        None => return,
    };
    let type_node = match node.child_by_field_name("type") {
        Some(t) => t,
        None => return,
    };
    let is_struct = type_node.is_kind("struct_type");
    let kind = if is_struct {
        "struct"
    } else if type_node.is_kind("interface_type") {
        "interface"
    } else {
        return;
    };
    let local_id = symbols.len();
    let qn = qualify(package, name.as_str());
    let vis = visibility_from_name(name.as_str());
    let mut sym = symbol_at(node, local_id, name, None, qn.clone(), kind, "public", None, package.to_string(), None);
    sym.visibility = vis;
    let ghost head = symbols_view(symbols@) + seq![symbol_view(sym)];
    proof {
        lemma_symbols_view_push(symbols@, sym);
    }
    symbols.push(sym);
    if is_struct {
        extract_struct_members(type_node, source, qn.as_str(), package, local_id, symbols, relationships);
    } else {
        extract_interface_members(type_node, source, qn.as_str(), package, local_id, symbols, relationships);
    }
    proof {
        let members = if is_struct {
            symbols_from(
                type_node.children@,
                type_node.children@.len() as int,
                local_id + 1,
                go_struct_part_fn(source@, qn@, package@, local_id as int),
            )
        } else {
            symbols_from(
                type_node.children@,
                type_node.children@.len() as int,
                local_id + 1,
                go_iface_member_fn(source@, qn@, package@, local_id as int),
            )
        };
        assert(head + members =~= symbols_view(old(symbols)@) + (seq![symbol_view(sym)] + members));
    }
}

/// The fields of a struct.
fn extract_struct_members(
    struct_node: &SyntaxNode,
    source: &[u8],
    parent_qualified_name: &str,
    package: &str,
    parent_local_id: usize,
    symbols: &mut Vec<ExtractedSymbol>,
    relationships: &mut Vec<ExtractedRelationship>,
)
    requires
        symbols_wf(old(symbols)@),
        parent_local_id < old(symbols)@.len(),
        relationships_wf(old(relationships)@, old(symbols)@.len()),
    ensures
        grew(old(symbols)@, final(symbols)@),
        symbols_wf(final(symbols)@),
        relationships_wf(final(relationships)@, final(symbols)@.len()),
        symbols_view(final(symbols)@) == symbols_view(old(symbols)@) + symbols_from(
            struct_node.children@,
            struct_node.children@.len() as int,
            old(symbols)@.len() as int,
            go_struct_part_fn(source@, parent_qualified_name@, package@, parent_local_id as int),
        ),
        relationships_view(final(relationships)@) == relationships_view(old(relationships)@) + rels_from(
            struct_node.children@,
            struct_node.children@.len() as int,
            old(symbols)@.len() as int,
            go_struct_part_fn(source@, parent_qualified_name@, package@, parent_local_id as int),
            go_struct_part_rels_fn(source@, parent_qualified_name@, package@, parent_local_id as int),
        ),
{
    let ghost f = go_struct_part_fn(source@, parent_qualified_name@, package@, parent_local_id as int);
    let ghost g = go_field_decl_fn(source@, parent_qualified_name@, package@, parent_local_id as int);
    let ghost fr = go_struct_part_rels_fn(source@, parent_qualified_name@, package@, parent_local_id as int);
    let ghost gr = go_field_decl_rels_fn(source@, parent_local_id as int);
    let ghost v0 = symbols_view(old(symbols)@);
    let ghost r0 = relationships_view(old(relationships)@);
    let ghost n0 = old(symbols)@.len() as int;
    let mut i: usize = 0;
    proof {
        lemma_symbols_from_none(struct_node.children@, n0, f, v0);
        lemma_rels_from_none(struct_node.children@, n0, f, fr, r0);
    }
    while i < struct_node.children.len()
        invariant
            i <= struct_node.children.len(),
            parent_local_id < old(symbols)@.len(),
            grew(old(symbols)@, symbols@),
            symbols_wf(symbols@),
            relationships_wf(relationships@, symbols@.len()),
            f == go_struct_part_fn(source@, parent_qualified_name@, package@, parent_local_id as int),
            g == go_field_decl_fn(source@, parent_qualified_name@, package@, parent_local_id as int),
            fr == go_struct_part_rels_fn(source@, parent_qualified_name@, package@, parent_local_id as int),
            gr == go_field_decl_rels_fn(source@, parent_local_id as int),
            v0 == symbols_view(old(symbols)@),
            r0 == relationships_view(old(relationships)@),
            n0 == old(symbols)@.len(),
            symbols_view(symbols@) == v0 + symbols_from(struct_node.children@, i as int, n0, f),
            relationships_view(relationships@) == r0 + rels_from(struct_node.children@, i as int, n0, f, fr),
        decreases struct_node.children.len() - i,
    {
        let child = &struct_node.children[i];
        let ghost vb = symbols_view(symbols@);
        let ghost rb = relationships_view(relationships@);
        let ghost nb = symbols@.len() as int;
        proof {
            lemma_symbols_from_next(struct_node.children@, i as int, n0, f, v0);
            lemma_rels_from_next(struct_node.children@, i as int, n0, f, fr, r0);
        }
        if child.is_kind("field_declaration_list") {
            let mut j: usize = 0;
            proof {
                lemma_symbols_from_none(child.children@, nb, g, vb);
                lemma_rels_from_none(child.children@, nb, g, gr, rb);
            }
            while j < child.children.len()
                invariant
                    j <= child.children.len(),
                    parent_local_id < old(symbols)@.len(),
                    grew(old(symbols)@, symbols@),
                    symbols_wf(symbols@),
                    relationships_wf(relationships@, symbols@.len()),
                    g == go_field_decl_fn(source@, parent_qualified_name@, package@, parent_local_id as int),
                    gr == go_field_decl_rels_fn(source@, parent_local_id as int),
                    vb.len() == nb,
                    symbols_view(symbols@) == vb + symbols_from(child.children@, j as int, nb, g),
                    relationships_view(relationships@) == rb + rels_from(child.children@, j as int, nb, g, gr),
                decreases child.children.len() - j,
            {
                proof {
                    lemma_symbols_from_next(child.children@, j as int, nb, g, vb);
                    lemma_rels_from_next(child.children@, j as int, nb, g, gr, rb);
                }
                if child.children[j].is_kind("field_declaration") {
                    extract_struct_field(
                        &child.children[j],
                        source,
                        parent_qualified_name,
                        package,
                        parent_local_id,
                        symbols,
                        relationships,
                    );
                }
                j = j + 1;
            }
        }
        i = i + 1;
    }
}

/// One field declaration of a struct: an embedded type is an `extends` relationship of the
/// struct; a named field is a `field` symbol, with a `field-type` relationship to its base
/// type where that is a user type.
fn extract_struct_field(
    node: &SyntaxNode,
    source: &[u8],
    parent_qualified_name: &str,
    package: &str,
    parent_local_id: usize,
    symbols: &mut Vec<ExtractedSymbol>,
    relationships: &mut Vec<ExtractedRelationship>,
)
    requires
        symbols_wf(old(symbols)@),
        parent_local_id < old(symbols)@.len(),
        relationships_wf(old(relationships)@, old(symbols)@.len()),
    ensures
        grew(old(symbols)@, final(symbols)@),
        symbols_wf(final(symbols)@),
        relationships_wf(final(relationships)@, final(symbols)@.len()),
        symbols_view(final(symbols)@) == symbols_view(old(symbols)@) + go_field_symbols(
            *node,
            source@,
            parent_qualified_name@,
            package@,
            parent_local_id as int,
            old(symbols)@.len() as int,
        ),
        relationships_view(final(relationships)@) == relationships_view(old(relationships)@) + go_field_rels(
            *node,
            source@,
            parent_local_id as int,
            old(symbols)@.len() as int,
        ),
{
    proof {
        assert(symbols_view(symbols@) + Seq::<SymbolView>::empty() =~= symbols_view(symbols@));
        assert(relationships_view(relationships@) + Seq::<RelationshipView>::empty() =~= relationships_view(relationships@));
    }
    let type_text = field_text_of(node, "type", source);
    match node.child_by_field_name("name") {
        None => {
            // An embedded type.
            match type_text {
                Some(t) => {
                    let target = trim_start_matches(t.as_str(), "*");
                    let r = relationship(parent_local_id, target, RelationshipKind::Extends);
                    proof {
                        lemma_relationships_view_push(relationships@, r);
                    }
                    relationships.push(r);
                },
                None => {},
            }
            return;
        },
        Some(_) => {},
    }
    let name = match field_text_of(node, "name", source) {
        Some(n) => n,
        None => return,
    };
    let local_id = symbols.len();
    let qn = dotted(parent_qualified_name, name.as_str());
    let vis = visibility_from_name(name.as_str());
    let tt = match &type_text {
        Some(t) => Some(t.clone()),
        None => None,
    };
    let mut sym = symbol_at(node, local_id, name, None, qn, "field", "public", Some(parent_local_id), package.to_string(), tt);
    sym.visibility = vis;
    proof {
        lemma_symbols_view_push(symbols@, sym);
    }
    symbols.push(sym);
    match type_text {
        Some(t) => {
            let base = extract_base_type(t.as_str());
            if is_user_type(base.as_str()) {
                let r = relationship(local_id, base, RelationshipKind::FieldType);
                proof {
                    lemma_relationships_view_push(relationships@, r);
                }
                relationships.push(r);
            }
        },
        None => {},
    }
}

/// The methods and embedded interfaces of an interface.
fn extract_interface_members(
    iface_node: &SyntaxNode,
    source: &[u8],
    parent_qualified_name: &str,
    package: &str,
    parent_local_id: usize,
    symbols: &mut Vec<ExtractedSymbol>,
    relationships: &mut Vec<ExtractedRelationship>,
)
    requires
        symbols_wf(old(symbols)@),
        parent_local_id < old(symbols)@.len(),
        relationships_wf(old(relationships)@, old(symbols)@.len()),
    ensures
        grew(old(symbols)@, final(symbols)@),
        symbols_wf(final(symbols)@),
        relationships_wf(final(relationships)@, final(symbols)@.len()),
        symbols_view(final(symbols)@) == symbols_view(old(symbols)@) + symbols_from(
            iface_node.children@,
            iface_node.children@.len() as int,
            old(symbols)@.len() as int,
            go_iface_member_fn(source@, parent_qualified_name@, package@, parent_local_id as int),
        ),
        relationships_view(final(relationships)@) == relationships_view(old(relationships)@) + rels_from(
            iface_node.children@,
            iface_node.children@.len() as int,
            old(symbols)@.len() as int,
            go_iface_member_fn(source@, parent_qualified_name@, package@, parent_local_id as int),
            go_iface_rels_fn(source@, parent_local_id as int),
        ),
{
    let ghost f = go_iface_member_fn(source@, parent_qualified_name@, package@, parent_local_id as int);
    let ghost fr = go_iface_rels_fn(source@, parent_local_id as int);
    let ghost v0 = symbols_view(old(symbols)@);
    let ghost r0 = relationships_view(old(relationships)@);
    let ghost n0 = old(symbols)@.len() as int;
    let mut i: usize = 0;
    proof {
        lemma_symbols_from_none(iface_node.children@, n0, f, v0);
        lemma_rels_from_none(iface_node.children@, n0, f, fr, r0);
    }
    while i < iface_node.children.len()
        invariant
            i <= iface_node.children.len(),
            parent_local_id < old(symbols)@.len(),
            grew(old(symbols)@, symbols@),
            symbols_wf(symbols@),
            relationships_wf(relationships@, symbols@.len()),
            f == go_iface_member_fn(source@, parent_qualified_name@, package@, parent_local_id as int),
            fr == go_iface_rels_fn(source@, parent_local_id as int),
            v0 == symbols_view(old(symbols)@),
            r0 == relationships_view(old(relationships)@),
            n0 == old(symbols)@.len(),
            symbols_view(symbols@) == v0 + symbols_from(iface_node.children@, i as int, n0, f),
            relationships_view(relationships@) == r0 + rels_from(iface_node.children@, i as int, n0, f, fr),
        decreases iface_node.children.len() - i,
    {
        let child = &iface_node.children[i];
        let ghost rb = relationships_view(relationships@);
        proof {
            lemma_symbols_from_next(iface_node.children@, i as int, n0, f, v0);
            lemma_rels_from_next(iface_node.children@, i as int, n0, f, fr, r0);
        }
        if child.is_kind("method_elem") {
            match field_text_of(child, "name", source) {
                Some(name) => {
                    let local_id = symbols.len();
                    let qn = dotted(parent_qualified_name, name.as_str());
                    let sig = concat(name.as_str(), "()");
                    let vis = visibility_from_name(name.as_str());
                    let mut sym = symbol_at(
                        child,
                        local_id,
                        name,
                        Some(sig),
                        qn,
                        "method",
                        "public",
                        Some(parent_local_id),
                        package.to_string(),
                        None,
                    );
                    sym.visibility = vis;
                    proof {
                        lemma_symbols_view_push(symbols@, sym);
                    }
                    symbols.push(sym);
                    extract_param_type_relationships(child, source, local_id, relationships, Ghost(symbols@.len()));
                    extract_return_type_relationships(child, source, local_id, relationships, Ghost(symbols@.len()));
                    proof {
                        let a = go_param_rels(*child, source@, local_id as int);
                        let b = go_result_rels(*child, source@, local_id as int);
                        assert((rb + a) + b =~= rb + (a + b));
                    }
                },
                None => {},
            }
        } else if child.is_kind("type_elem") {
            match child.child(0) {
                Some(type_id) => match text(type_id, source) {
                    Some(t) => {
                        if is_user_type(t.as_str()) {
                            let r = relationship(parent_local_id, t, RelationshipKind::Extends);
                            proof {
                                lemma_relationships_view_push(relationships@, r);
                            }
                            relationships.push(r);
                        }
                    },
                    None => {},
                },
                None => {},
            }
        }
        i = i + 1;
    }
}

/// A function declaration: a `function` symbol qualified by the package, and the types of its
/// parameters and results and its calls.
fn extract_function(
    node: &SyntaxNode,
    source: &[u8],
    package: &str,
    symbols: &mut Vec<ExtractedSymbol>,
    relationships: &mut Vec<ExtractedRelationship>,
)
    requires
        symbols_wf(old(symbols)@),
        relationships_wf(old(relationships)@, old(symbols)@.len()),
    ensures
        grew(old(symbols)@, final(symbols)@),
        symbols_wf(final(symbols)@),
        relationships_wf(final(relationships)@, final(symbols)@.len()),
        symbols_view(final(symbols)@) == symbols_view(old(symbols)@) + go_function_symbols(
            *node,
            source@,
            package@,
            old(symbols)@.len() as int,
        ),
        relationships_view(final(relationships)@) == relationships_view(old(relationships)@) + go_function_rels(
            *node,
            source@,
            old(symbols)@.len() as int,
        ),
{
    proof {
        assert(symbols_view(symbols@) + Seq::<SymbolView>::empty() =~= symbols_view(symbols@));
        assert(relationships_view(relationships@) + Seq::<RelationshipView>::empty() =~= relationships_view(relationships@));
    }
    let name = match field_text_of(node, "name", source) {
        Some(n) => n,
        None => return,
    };
    let local_id = symbols.len();
    let qn = qualify(package, name.as_str());
    let sig = concat(name.as_str(), "()");
    let vis = visibility_from_name(name.as_str());
    let mut sym = symbol_at(node, local_id, name, Some(sig), qn, "function", "public", None, package.to_string(), None);
    sym.visibility = vis;
    proof {
        lemma_symbols_view_push(symbols@, sym);
    }
    symbols.push(sym);
    let n = Ghost(symbols@.len());
    let ghost r0 = relationships_view(relationships@);
    extract_param_type_relationships(node, source, local_id, relationships, n);
    extract_return_type_relationships(node, source, local_id, relationships, n);
    extract_call_relationships(node, source, local_id, relationships, n);
    proof {
        let a = go_param_rels(*node, source@, local_id as int);
        let b = go_result_rels(*node, source@, local_id as int);
        let c = match field_child(*node, "body"@) {
            Some(bd) => go_calls(bd, source@, local_id as int),
            None => Seq::empty(),
        };
        assert(((r0 + a) + b) + c =~= r0 + (a + b + c));
    }
}

/// The type a receiver parameter names: the type of the receiver's first parameter, without
/// a leading `*`.
pub open spec fn receiver_part(c: SyntaxNode, source: Seq<u8>) -> Option<Seq<char>> {
    if kind_is(c, "parameter_declaration"@) {
        match field_text(c, "type"@, source) {
            Some(t) => Some(strip_prefix_all(t, "*"@)),
            None => None,
        }
    } else {
        None
    }
}

pub open spec fn receiver_part_fn(source: Seq<u8>) -> spec_fn(SyntaxNode) -> Option<Seq<char>> {
    |c: SyntaxNode| receiver_part(c, source)
}

/// The receiver type of a method; empty without one.
pub open spec fn go_receiver_type(n: SyntaxNode, source: Seq<u8>) -> Seq<char> {
    match field_child(n, "receiver"@) {
        Some(r) => match first_some_from(r.children@, receiver_part_fn(source), 0) {
            Some(t) => t,
            None => Seq::empty(),
        },
        None => Seq::empty(),
    }
}

/// The receiver type of a method.
pub fn extract_receiver_type(node: &SyntaxNode, source: &[u8]) -> (r: String)
    ensures
        r@ == go_receiver_type(*node, source@),
{
    let receiver = match node.child_by_field_name("receiver") {
        Some(r) => r,
        None => return String::new(),
    };
    let ghost f = receiver_part_fn(source@);
    let mut i: usize = 0;
    while i < receiver.children.len()
        invariant
            i <= receiver.children.len(),
            f == receiver_part_fn(source@),
            field_child(*node, "receiver"@) == Some(*receiver),
            first_some_from(receiver.children@, f, 0) == first_some_from(receiver.children@, f, i as int),
        decreases receiver.children.len() - i,
    {
        let c = &receiver.children[i];
        if c.is_kind("parameter_declaration") {
            match field_text_of(c, "type", source) {
                Some(t) => {
                    let r = trim_start_matches(t.as_str(), "*");
                    proof {
                        assert(f(*c) == Some(r@));
                        assert(first_some_from(receiver.children@, f, i as int) == Some(r@));
                    }
                    return r;
                },
                None => {},
            }
        }
        i = i + 1;
    }
    String::new()
}

/// The qualified name of a method: package, receiver type and name, where present.
pub open spec fn go_method_name(package: Seq<char>, receiver: Seq<char>, name: Seq<char>) -> Seq<char> {
    if receiver.len() == 0 {
        go_qualify(package, name)
    } else if package.len() == 0 {
        receiver + "."@ + name
    } else {
        package + "."@ + receiver + "."@ + name
    }
}

/// A method declaration: a `method` symbol qualified by the package and the receiver type,
/// and the types of its parameters and results and its calls.
fn extract_method(
    node: &SyntaxNode,
    source: &[u8],
    package: &str,
    symbols: &mut Vec<ExtractedSymbol>,
    relationships: &mut Vec<ExtractedRelationship>,
)
    requires
        symbols_wf(old(symbols)@),
        relationships_wf(old(relationships)@, old(symbols)@.len()),
    ensures
        grew(old(symbols)@, final(symbols)@),
        symbols_wf(final(symbols)@),
        relationships_wf(final(relationships)@, final(symbols)@.len()),
        symbols_view(final(symbols)@) == symbols_view(old(symbols)@) + go_method_symbols(
            *node,
            source@,
            package@,
            old(symbols)@.len() as int,
        ),
        relationships_view(final(relationships)@) == relationships_view(old(relationships)@) + go_function_rels(
            *node,
            source@,
            old(symbols)@.len() as int,
        ),
{
    proof {
        assert(symbols_view(symbols@) + Seq::<SymbolView>::empty() =~= symbols_view(symbols@));
        assert(relationships_view(relationships@) + Seq::<RelationshipView>::empty() =~= relationships_view(relationships@));
    }
    let name = match field_text_of(node, "name", source) {
        Some(n) => n,
        None => return,
    };
    let receiver = extract_receiver_type(node, source);
    let local_id = symbols.len();
    let qn = if receiver.as_str().is_empty() {
        qualify(package, name.as_str())
    } else if package.is_empty() {
        dotted(receiver.as_str(), name.as_str())
    } else {
        let pr = dotted(package, receiver.as_str());
        dotted(pr.as_str(), name.as_str())
    };
    let sig = concat(name.as_str(), "()");
    let vis = visibility_from_name(name.as_str());
    let mut sym = symbol_at(node, local_id, name, Some(sig), qn, "method", "public", None, package.to_string(), None);
    sym.visibility = vis;
    proof {
        lemma_symbols_view_push(symbols@, sym);
    }
    symbols.push(sym);
    let n = Ghost(symbols@.len());
    let ghost r0 = relationships_view(relationships@);
    extract_param_type_relationships(node, source, local_id, relationships, n);
    extract_return_type_relationships(node, source, local_id, relationships, n);
    extract_call_relationships(node, source, local_id, relationships, n);
    proof {
        let a = go_param_rels(*node, source@, local_id as int);
        let b = go_result_rels(*node, source@, local_id as int);
        let c = match field_child(*node, "body"@) {
            Some(bd) => go_calls(bd, source@, local_id as int),
            None => Seq::empty(),
        };
        assert(((r0 + a) + b) + c =~= r0 + (a + b + c));
    }
}

/// A `field-type` relationship to the base of a parameter or result type, where it is a
/// user type.
fn push_type_relationship(
    type_text: String,
    source_local_id: usize,
    relationships: &mut Vec<ExtractedRelationship>,
    n_symbols: Ghost<nat>,
)
    requires
        source_local_id < n_symbols@,
        relationships_wf(old(relationships)@, n_symbols@),
    ensures
        grew(old(relationships)@, final(relationships)@),
        relationships_wf(final(relationships)@, n_symbols@),
        final(relationships)@ == (if starts_upper(go_base_type(type_text@)) {
            old(relationships)@.push(final(relationships)@.last())
        } else {
            old(relationships)@
        }),
        starts_upper(go_base_type(type_text@)) ==> final(relationships)@.last().target_qualified_name@
            == go_base_type(type_text@) && final(relationships)@.last().kind == RelationshipKind::FieldType
            && final(relationships)@.last().source_local_id == source_local_id,
        relationships_view(final(relationships)@) == relationships_view(old(relationships)@) + go_type_rels(
            type_text@,
            source_local_id as int,
        ),
{
    proof {
        assert(relationships_view(relationships@) + Seq::<RelationshipView>::empty() =~= relationships_view(relationships@));
    }
    let base = extract_base_type(type_text.as_str());
    if is_user_type(base.as_str()) {
        let r = relationship(source_local_id, base, RelationshipKind::FieldType);
        proof {
            lemma_relationships_view_push(relationships@, r);
        }
        relationships.push(r);
    }
}

/// The types of a function's parameters.
fn extract_param_type_relationships(
    node: &SyntaxNode,
    source: &[u8],
    source_local_id: usize,
    relationships: &mut Vec<ExtractedRelationship>,
    n_symbols: Ghost<nat>,
)
    requires
        source_local_id < n_symbols@,
        relationships_wf(old(relationships)@, n_symbols@),
    ensures
        grew(old(relationships)@, final(relationships)@),
        relationships_wf(final(relationships)@, n_symbols@),
        relationships_view(final(relationships)@) == relationships_view(old(relationships)@) + go_param_rels(
            *node,
            source@,
            source_local_id as int,
        ),
{
    let ghost r0 = relationships_view(old(relationships)@);
    let ghost f = go_param_fn(source@, source_local_id as int);
    proof {
        assert(r0 + Seq::<RelationshipView>::empty() =~= r0);
    }
    let params = match node.child_by_field_name("parameters") {
        Some(p) => p,
        None => return,
    };
    let mut i: usize = 0;
    proof {
        lemma_rels_over_none(params.children@, f, r0);
    }
    while i < params.children.len()
        invariant
            i <= params.children.len(),
            source_local_id < n_symbols@,
            grew(old(relationships)@, relationships@),
            relationships_wf(relationships@, n_symbols@),
            f == go_param_fn(source@, source_local_id as int),
            r0 == relationships_view(old(relationships)@),
            relationships_view(relationships@) == r0 + rels_over(params.children@, i as int, f),
        decreases params.children.len() - i,
    {
        let c = &params.children[i];
        proof {
            lemma_rels_over_next(params.children@, i as int, f, r0);
        }
        if c.is_kind("parameter_declaration") || c.is_kind("variadic_parameter_declaration") {
            match field_text_of(c, "type", source) {
                Some(t) => push_type_relationship(t, source_local_id, relationships, n_symbols),
                None => {},
            }
        }
        i = i + 1;
    }
}

/// The types of a function's results: each of a result list, or the single result type.
fn extract_return_type_relationships(
    node: &SyntaxNode,
    source: &[u8],
    source_local_id: usize,
    relationships: &mut Vec<ExtractedRelationship>,
    n_symbols: Ghost<nat>,
)
    requires
        source_local_id < n_symbols@,
        relationships_wf(old(relationships)@, n_symbols@),
    ensures
        grew(old(relationships)@, final(relationships)@),
        relationships_wf(final(relationships)@, n_symbols@),
        relationships_view(final(relationships)@) == relationships_view(old(relationships)@) + go_result_rels(
            *node,
            source@,
            source_local_id as int,
        ),
{
    let ghost r0 = relationships_view(old(relationships)@);
    let ghost f = go_result_fn(source@, source_local_id as int);
    proof {
        assert(r0 + Seq::<RelationshipView>::empty() =~= r0);
    }
    let result = match node.child_by_field_name("result") {
        Some(r) => r,
        None => return,
    };
    if result.is_kind("parameter_list") {
        let mut i: usize = 0;
        proof {
            lemma_rels_over_none(result.children@, f, r0);
        }
        while i < result.children.len()
            invariant
                i <= result.children.len(),
                source_local_id < n_symbols@,
                grew(old(relationships)@, relationships@),
                relationships_wf(relationships@, n_symbols@),
                f == go_result_fn(source@, source_local_id as int),
                r0 == relationships_view(old(relationships)@),
                relationships_view(relationships@) == r0 + rels_over(result.children@, i as int, f),
            decreases result.children.len() - i,
        {
            let c = &result.children[i];
            proof {
                lemma_rels_over_next(result.children@, i as int, f, r0);
            }
            if c.is_kind("parameter_declaration") {
                match field_text_of(c, "type", source) {
                    Some(t) => push_type_relationship(t, source_local_id, relationships, n_symbols),
                    None => {},
                }
            }
            i = i + 1;
        }
    } else {
        match text(result, source) {
            Some(t) => push_type_relationship(t, source_local_id, relationships, n_symbols),
            None => {},
        }
    }
}

/// The calls in a function's body.
fn extract_call_relationships(
    node: &SyntaxNode,
    source: &[u8],
    source_local_id: usize,
    relationships: &mut Vec<ExtractedRelationship>,
    n_symbols: Ghost<nat>,
)
    requires
        source_local_id < n_symbols@,
        relationships_wf(old(relationships)@, n_symbols@),
    ensures
        grew(old(relationships)@, final(relationships)@),
        relationships_wf(final(relationships)@, n_symbols@),
        forall|k: int|
            old(relationships)@.len() <= k < final(relationships)@.len() ==> (#[trigger] final(relationships)@[k]).kind
                == RelationshipKind::Calls && final(relationships)@[k].source_local_id == source_local_id,
        relationships_view(final(relationships)@) == relationships_view(old(relationships)@) + match field_child(
            *node,
            "body"@,
        ) {
            Some(b) => go_calls(b, source@, source_local_id as int),
            None => Seq::empty(),
        },
{
    proof {
        assert(relationships_view(relationships@) + Seq::<RelationshipView>::empty() =~= relationships_view(relationships@));
    }
    match node.child_by_field_name("body") {
        Some(body) => collect_calls(body, source, source_local_id, relationships, n_symbols),
        None => {},
    }
}

/// The name a call expression calls: the field of a selector (`r.Save()` calls `Save`), or
/// the identifier called.
pub open spec fn go_call_name(call: SyntaxNode, source: Seq<u8>) -> Option<Seq<char>> {
    if kind_is(call, "call_expression"@) {
        match field_child(call, "function"@) {
            Some(f) => if kind_is(f, "selector_expression"@) {
                field_text(f, "field"@, source)
            } else if kind_is(f, "identifier"@) {
                node_text(f, source)
            } else {
                None
            },
            None => None,
        }
    } else {
        None
    }
}

/// A call through a selector, `r.Save(..)`, calls `Save` alone: its name is the text of the
/// `field` child of the selector, never text of the operand, and it is the name that a plain
/// call `Save(..)` of an identifier with that text calls. That name is the first `calls`
/// relationship of the call's subtree.
pub proof fn law_selector_call_names_the_field(
    call: SyntaxNode,
    f: SyntaxNode,
    m: SyntaxNode,
    plain: SyntaxNode,
    g: SyntaxNode,
    source: Seq<u8>,
    id: int,
)
    requires
        kind_is(call, "call_expression"@),
        field_child(call, "function"@) == Some(f),
        kind_is(f, "selector_expression"@),
        field_child(f, "field"@) == Some(m),
        kind_is(plain, "call_expression"@),
        field_child(plain, "function"@) == Some(g),
        kind_is(g, "identifier"@),
        node_text(g, source) == node_text(m, source),
    ensures
        go_call_name(call, source) == node_text(m, source),
        go_call_name(call, source) == go_call_name(plain, source),
        node_text(m, source) matches Some(t) ==> go_calls(call, source, id)[0] == rel(
            id,
            t,
            RelationshipKind::Calls,
        ),
{
    assert(!kind_is(f, "identifier"@) && !kind_is(g, "selector_expression"@)) by {
        reveal_strlit("identifier");
        reveal_strlit("selector_expression");
        assert("identifier"@[0] != "selector_expression"@[0]);
    }
}

fn call_name(node: &SyntaxNode, source: &[u8]) -> (r: Option<String>)
    ensures
        opt_view(r) == go_call_name(*node, source@),
{
    if !node.is_kind("call_expression") {
        return None;
    }
    match node.child_by_field_name("function") {
        Some(f) => {
            if f.is_kind("selector_expression") {
                field_text_of(f, "field", source)
            } else if f.is_kind("identifier") {
                text(f, source)
            } else {
                None
            }
        },
        None => None,
    }
}

/// Every call in a subtree, as a `calls` relationship to the called name.
fn collect_calls(
    node: &SyntaxNode,
    source: &[u8],
    source_local_id: usize,
    relationships: &mut Vec<ExtractedRelationship>,
    n_symbols: Ghost<nat>,
)
    requires
        source_local_id < n_symbols@,
        relationships_wf(old(relationships)@, n_symbols@),
    ensures
        grew(old(relationships)@, final(relationships)@),
        relationships_wf(final(relationships)@, n_symbols@),
        forall|k: int|
            old(relationships)@.len() <= k < final(relationships)@.len() ==> (#[trigger] final(relationships)@[k]).kind
                == RelationshipKind::Calls && final(relationships)@[k].source_local_id == source_local_id,
        relationships_view(final(relationships)@) == relationships_view(old(relationships)@) + go_calls(
            *node,
            source@,
            source_local_id as int,
        ),
    decreases node,
{
    let ghost r0 = relationships_view(old(relationships)@);
    let ghost id = source_local_id as int;
    match call_name(node, source) {
        Some(name) => {
            let r = relationship(source_local_id, name, RelationshipKind::Calls);
            proof {
                lemma_relationships_view_push(relationships@, r);
            }
            relationships.push(r);
        },
        None => {
            proof {
                assert(r0 + Seq::<RelationshipView>::empty() =~= r0);
            }
        },
    }
    let ghost r1 = relationships@;
    let ghost head = relationships_view(r1);
    let mut i: usize = 0;
    proof {
        assert(head + go_calls_in(*node, source@, id, 0) =~= head);
    }
    while i < node.children.len()
        invariant
            i <= node.children.len(),
            source_local_id < n_symbols@,
            id == source_local_id,
            grew(old(relationships)@, relationships@),
            grew(r1, relationships@),
            relationships_wf(relationships@, n_symbols@),
            forall|k: int|
                old(relationships)@.len() <= k < relationships@.len() ==> (#[trigger] relationships@[k]).kind
                    == RelationshipKind::Calls && relationships@[k].source_local_id == source_local_id,
            head == relationships_view(r1),
            relationships_view(relationships@) == head + go_calls_in(*node, source@, id, i as int),
        decreases node.children.len() - i,
    {
        let ghost before = relationships_view(relationships@);
        proof {
            lemma_child_depth(*node, i as int);
        }
        collect_calls(&node.children[i], source, source_local_id, relationships, n_symbols);
        proof {
            let p = go_calls_in(*node, source@, id, i as int);
            let x = go_calls(node.children@[i as int], source@, id);
            assert((head + p) + x =~= head + (p + x));
        }
        i = i + 1;
    }
    proof {
        let own = match go_call_name(*node, source@) {
            Some(name) => seq![rel(id, name, RelationshipKind::Calls)],
            None => Seq::<RelationshipView>::empty(),
        };
        let rest = go_calls_in(*node, source@, id, i as int);
        assert(head == r0 + own);
        assert((r0 + own) + rest =~= r0 + (own + rest));
    }
}

} // verus!

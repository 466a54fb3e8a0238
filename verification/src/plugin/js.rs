//! JavaScript and TypeScript: classes with their methods and fields, function declarations,
//! and functions bound to variables; `extends` of classes, and the calls in the bodies of
//! functions and methods.
use vstd::prelude::*;
use crate::model::{ExtractedRelationship, ExtractedSymbol, ExtractionResult, RelationshipKind};
use crate::plugin::{
    at_node, extension_in, grew, extension_of, field_text, field_text_of, language_extensions,
    lemma_symbols_from_next, lemma_symbols_from_none, lemma_symbols_view_push, node_symbol,
    opt_symbols, path_extension, relationship, relationships_wf, result_wf, symbol_at, symbol_view,
    symbols_from, symbols_view, symbols_wf, LanguageId, SymbolView, RelationshipView, rel, rels_from,
    rels_over, relationships_view, lemma_relationships_view_push, lemma_rels_from_next,
    lemma_rels_from_none, lemma_rels_over_next, lemma_rels_over_none, lemma_symbols_from_single,
    lemma_member_qn, lemma_symbols_from_members, members_of,
};
use crate::syntax::{depth, field_child, kind_is, lemma_child_depth, node_text, text, SyntaxNode};
use crate::text::{chars_of, concat, dotted, opt_view, str_eq, string_of_range};

verus! {

/// The JavaScript and TypeScript plugin.
pub struct JsPlugin;

/// A member name without the `#` that marks it private.
pub open spec fn js_display_name(name: Seq<char>) -> Seq<char> {
    if name.len() > 0 && name[0] == '#' {
        name.drop_first()
    } else {
        name
    }
}

/// Whether a member name marks it private.
pub open spec fn js_is_private(name: Seq<char>) -> bool {
    name.len() > 0 && name[0] == '#'
}

impl JsPlugin {
    pub fn name(&self) -> (r: &'static str)
        ensures
            r@ == "js"@,
    {
        "js"
    }

    pub fn display_name(&self) -> (r: &'static str)
        ensures
            r@ == "JavaScript"@,
    {
        "JavaScript"
    }

    /// Whether the file has a JavaScript or TypeScript extension.
    pub fn can_handle(&self, path: &str) -> (r: bool)
        ensures
            r == extension_in(path_extension(path@), language_extensions(LanguageId::Js)),
    {
        let ext = extension_of(path);
        match ext {
            Some(e) => {
                let e = e.as_str();
                let r = str_eq(e, "js") || str_eq(e, "mjs") || str_eq(e, "cjs") || str_eq(e, "jsx")
                    || str_eq(e, "ts") || str_eq(e, "tsx");
                proof {
                    let exts = language_extensions(LanguageId::Js);
                    assert(exts[0] == "js"@ && exts[1] == "mjs"@ && exts[2] == "cjs"@ && exts[3]
                        == "jsx"@ && exts[4] == "ts"@ && exts[5] == "tsx"@);
                    if exts.contains(e@) {
                        let k = choose|k: int| 0 <= k < exts.len() && exts[k] == e@;
                        assert(0 <= k < 6);
                    }
                }
                r
            },
            None => false,
        }
    }

    /// Calls the grammar constant `tree_sitter_typescript::LANGUAGE_TSX`, which reads both
    /// JavaScript and TypeScript.
    #[verifier::external_body]
    pub fn tree_sitter_language(&self) -> tree_sitter::Language {
        tree_sitter_typescript::LANGUAGE_TSX.into()
    }

    /// The classes, functions and function-valued variables at the top level of the file and
    /// in its `export` statements.
    pub fn extract_symbols(&self, root: &SyntaxNode, source: &[u8]) -> (r: ExtractionResult)
        ensures
            result_wf(r),
            r.wildcard_imports@.len() == 0,
            symbols_view(r.symbols@) == js_symbols(*root, source@),
            relationships_view(r.relationships@) == js_relationships(*root, source@),
    {
        let ghost f = js_top_fn(source@);
        let ghost fr = js_top_rels_fn(source@);
        let ghost e = Seq::<SymbolView>::empty();
        let ghost er = Seq::<RelationshipView>::empty();
        let mut symbols: Vec<ExtractedSymbol> = Vec::new();
        let mut relationships: Vec<ExtractedRelationship> = Vec::new();
        let mut i: usize = 0;
        proof {
            assert(symbols_view(symbols@) =~= e);
            assert(relationships_view(relationships@) =~= er);
            lemma_symbols_from_none(root.children@, 0, f, e);
            lemma_rels_from_none(root.children@, 0, f, fr, er);
        }
        while i < root.children.len()
            invariant
                f == js_top_fn(source@),
                fr == js_top_rels_fn(source@),
                er == Seq::<RelationshipView>::empty(),
                relationships_view(relationships@) == er + rels_from(root.children@, i as int, 0, f, fr),
                e == Seq::<SymbolView>::empty(),
                symbols_view(symbols@) == e + symbols_from(root.children@, i as int, 0, f),
                i <= root.children.len(),
                symbols_wf(symbols@),
                relationships_wf(relationships@, symbols@.len()),
            decreases root.children.len() - i,
        {
            let child = &root.children[i];
            proof {
                lemma_symbols_from_next(root.children@, i as int, 0, f, e);
                lemma_rels_from_next(root.children@, i as int, 0, f, fr, er);
            }
            extract_top_level(child, source, &mut symbols, &mut relationships, true);
            i = i + 1;
        }
        proof {
            assert(e + symbols_from(root.children@, i as int, 0, f) =~= symbols_from(root.children@, i as int, 0, f));
            assert(er + rels_from(root.children@, i as int, 0, f, fr) =~= rels_from(root.children@, i as int, 0, f, fr));
        }
        ExtractionResult { symbols, relationships, wildcard_imports: Vec::new() }
    }
}

// ---------------------------------------------------------------------------------------------
// The symbols of a file
// ---------------------------------------------------------------------------------------------

/// The symbols of a file: those of each top-level statement.
pub open spec fn js_symbols(root: SyntaxNode, source: Seq<u8>) -> Seq<SymbolView> {
    symbols_from(root.children@, root.children@.len() as int, 0, js_top_fn(source))
}

pub open spec fn js_top_fn(source: Seq<u8>) -> spec_fn(SyntaxNode, int) -> Seq<SymbolView> {
    |c: SyntaxNode, id: int| js_top_symbols(c, source, id)
}

pub open spec fn js_decl_fn(source: Seq<u8>) -> spec_fn(SyntaxNode, int) -> Seq<SymbolView> {
    |c: SyntaxNode, id: int| js_decl_symbols(c, source, id)
}

/// The symbols of a top-level statement: a declaration, or the declarations of an `export`
/// statement; `id` is the number of symbols before them.
pub open spec fn js_top_symbols(c: SyntaxNode, source: Seq<u8>, id: int) -> Seq<SymbolView> {
    if kind_is(c, "class_declaration"@) || kind_is(c, "abstract_class_declaration"@) {
        js_class_symbols(c, source, id)
    } else if kind_is(c, "function_declaration"@) {
        js_function_symbols(c, source, id)
    } else if kind_is(c, "lexical_declaration"@) || kind_is(c, "variable_declaration"@) {
        symbols_from(c.children@, c.children@.len() as int, id, js_variable_fn(c, source))
    } else if kind_is(c, "export_statement"@) {
        symbols_from(c.children@, c.children@.len() as int, id, js_decl_fn(source))
    } else {
        Seq::empty()
    }
}

/// The symbols of a declaration: a class, a function, or function-valued variables.
pub open spec fn js_decl_symbols(c: SyntaxNode, source: Seq<u8>, id: int) -> Seq<SymbolView> {
    if kind_is(c, "class_declaration"@) || kind_is(c, "abstract_class_declaration"@) {
        js_class_symbols(c, source, id)
    } else if kind_is(c, "function_declaration"@) {
        js_function_symbols(c, source, id)
    } else if kind_is(c, "lexical_declaration"@) || kind_is(c, "variable_declaration"@) {
        symbols_from(c.children@, c.children@.len() as int, id, js_variable_fn(c, source))
    } else {
        Seq::empty()
    }
}

/// The public `function` symbol of a named function declaration.
pub open spec fn js_function_symbols(n: SyntaxNode, source: Seq<u8>, id: int) -> Seq<SymbolView> {
    match field_text(n, "name"@, source) {
        Some(name) => seq![
            node_symbol(n, id, name, Some(name + "()"@), name, "function"@, "public"@, None, Seq::empty(), None),
        ],
        None => Seq::empty(),
    }
}

/// The `function` symbol of a named variable whose value is a function, placed at the whole
/// declaration `decl`.
pub open spec fn js_variable_fn(decl: SyntaxNode, source: Seq<u8>) -> spec_fn(SyntaxNode, int) -> Seq<SymbolView> {
    |v: SyntaxNode, id: int|
        if kind_is(v, "variable_declarator"@) && js_function_value(v) {
            match field_text(v, "name"@, source) {
                Some(name) => seq![
                    node_symbol(decl, id, name, Some(name + "()"@), name, "function"@, "public"@, None, Seq::empty(), None),
                ],
                None => Seq::empty(),
            }
        } else {
            Seq::empty()
        }
}

/// The symbols of a named class: the class, then its methods and fields.
pub open spec fn js_class_symbols(n: SyntaxNode, source: Seq<u8>, id: int) -> Seq<SymbolView> {
    match field_text(n, "name"@, source) {
        Some(name) => seq![node_symbol(n, id, name, None, name, "class"@, "public"@, None, Seq::empty(), None)]
            + match field_child(n, "body"@) {
            Some(b) => symbols_from(b.children@, b.children@.len() as int, id + 1, js_member_fn(source, name, id)),
            None => Seq::empty(),
        },
        None => Seq::empty(),
    }
}

/// The symbols of a named class: the public class first, then its methods and fields, each a
/// member of the class (its parent, with a qualified name that begins with the class's name
/// and a dot).
pub proof fn law_class_members_below_class(n: SyntaxNode, source: Seq<u8>, id: int)
    ensures
        ({
            let s = js_class_symbols(n, source, id);
            field_text(n, "name"@, source) matches Some(name) ==> {
                &&& s.len() > 0
                &&& s[0].local_id == id
                &&& s[0].name == name
                &&& s[0].kind == "class"@
                &&& members_of(s.skip(1), name + "."@, id)
            }
        }),
{
    match field_text(n, "name"@, source) {
        Some(name) => {
            let s = js_class_symbols(n, source, id);
            match field_child(n, "body"@) {
                Some(b) => {
                    let f = js_member_fn(source, name, id);
                    assert forall|c: SyntaxNode, j: int| #[trigger] members_of(f(c, j), name + "."@, id) by {
                        match field_text(c, "name"@, source) {
                            Some(m) => lemma_member_qn(name, js_display_name(m)),
                            None => {},
                        }
                    }
                    lemma_symbols_from_members(b.children@, b.children@.len() as int, id + 1, f, name + "."@, id);
                    assert(s.skip(1) =~= symbols_from(b.children@, b.children@.len() as int, id + 1, f));
                },
                None => {
                    assert(s.skip(1) =~= Seq::<SymbolView>::empty());
                },
            }
        },
        None => {},
    }
}

pub open spec fn js_member_fn(source: Seq<u8>, class_name: Seq<char>, class_id: int) -> spec_fn(SyntaxNode, int) -> Seq<
    SymbolView,
> {
    |m: SyntaxNode, id: int|
        if kind_is(m, "method_definition"@) {
            js_method_symbols(m, source, class_name, class_id, id)
        } else if kind_is(m, "public_field_definition"@) {
            js_field_symbols(m, source, class_name, class_id, id)
        } else {
            Seq::empty()
        }
}

/// The symbol of a named method: the `constructor` or a `method`, private where its name
/// starts with `#`.
pub open spec fn js_method_symbols(m: SyntaxNode, source: Seq<u8>, class_name: Seq<char>, class_id: int, id: int) -> Seq<
    SymbolView,
> {
    match field_text(m, "name"@, source) {
        Some(name) => seq![
            node_symbol(
                m,
                id,
                name,
                Some(name + "()"@),
                class_name + "."@ + js_display_name(name),
                if name == "constructor"@ {
                    "constructor"@
                } else {
                    "method"@
                },
                if js_is_private(name) {
                    "private"@
                } else {
                    "public"@
                },
                Some(class_id),
                Seq::empty(),
                None,
            ),
        ],
        None => Seq::empty(),
    }
}

/// The `field` symbol of a named field, private where its name starts with `#`.
pub open spec fn js_field_symbols(m: SyntaxNode, source: Seq<u8>, class_name: Seq<char>, class_id: int, id: int) -> Seq<
    SymbolView,
> {
    match field_text(m, "name"@, source) {
        Some(name) => seq![
            node_symbol(
                m,
                id,
                name,
                None,
                class_name + "."@ + js_display_name(name),
                "field"@,
                if js_is_private(name) {
                    "private"@
                } else {
                    "public"@
                },
                Some(class_id),
                Seq::empty(),
                None,
            ),
        ],
        None => Seq::empty(),
    }
}

// ---------------------------------------------------------------------------------------------
// The relationships of a file
// ---------------------------------------------------------------------------------------------

/// The relationships of a file: the `extends` relationships of its classes and the calls in
/// the bodies of its functions and methods.
pub open spec fn js_relationships(root: SyntaxNode, source: Seq<u8>) -> Seq<RelationshipView> {
    rels_from(root.children@, root.children@.len() as int, 0, js_top_fn(source), js_top_rels_fn(source))
}

pub open spec fn js_top_rels_fn(source: Seq<u8>) -> spec_fn(SyntaxNode, int) -> Seq<RelationshipView> {
    |c: SyntaxNode, id: int| js_top_rels(c, source, id)
}

pub open spec fn js_decl_rels_fn(source: Seq<u8>) -> spec_fn(SyntaxNode, int) -> Seq<RelationshipView> {
    |c: SyntaxNode, id: int| js_decl_rels(c, source, id)
}

/// The relationships of a top-level statement whose symbols are numbered from `id`.
pub open spec fn js_top_rels(c: SyntaxNode, source: Seq<u8>, id: int) -> Seq<RelationshipView> {
    if kind_is(c, "class_declaration"@) || kind_is(c, "abstract_class_declaration"@) || kind_is(
        c,
        "function_declaration"@,
    ) || kind_is(c, "lexical_declaration"@) || kind_is(c, "variable_declaration"@) {
        js_decl_rels(c, source, id)
    } else if kind_is(c, "export_statement"@) {
        rels_from(c.children@, c.children@.len() as int, id, js_decl_fn(source), js_decl_rels_fn(source))
    } else {
        Seq::empty()
    }
}

/// The relationships of a declaration whose symbols are numbered from `id`.
pub open spec fn js_decl_rels(c: SyntaxNode, source: Seq<u8>, id: int) -> Seq<RelationshipView> {
    if kind_is(c, "class_declaration"@) || kind_is(c, "abstract_class_declaration"@) {
        js_class_rels(c, source, id)
    } else if kind_is(c, "function_declaration"@) {
        js_function_rels(c, source, id)
    } else if kind_is(c, "lexical_declaration"@) || kind_is(c, "variable_declaration"@) {
        rels_from(c.children@, c.children@.len() as int, id, js_variable_fn(c, source), js_variable_rels_fn(source))
    } else {
        Seq::empty()
    }
}

/// The name a call expression calls: the property of a member expression (`repo.save()`
/// calls `save`), or the identifier called.
pub open spec fn js_call_name(call: SyntaxNode, source: Seq<u8>) -> Option<Seq<char>> {
    if kind_is(call, "call_expression"@) {
        match field_child(call, "function"@) {
            Some(f) => if kind_is(f, "member_expression"@) {
                field_text(f, "property"@, source)
            } else if kind_is(f, "identifier"@) {
                node_text(f, source)
            } else {
                None
            },
            None => None,
        }
    } else {
        None
    }
}

/// A call through a member expression, `repo.save(..)`, calls `save` alone: its name is the
/// text of the `property` child, never text of the object, and it is the name that a plain
/// call `save(..)` of an identifier with that text calls. That name is the first `calls`
/// relationship of the call's subtree.
pub proof fn law_member_call_names_the_property(
    call: SyntaxNode,
    f: SyntaxNode,
    m: SyntaxNode,
    plain: SyntaxNode,
    g: SyntaxNode,
    source: Seq<u8>,
    id: int,
)
    requires
        kind_is(call, "call_expression"@),
        field_child(call, "function"@) == Some(f),
        kind_is(f, "member_expression"@),
        field_child(f, "property"@) == Some(m),
        kind_is(plain, "call_expression"@),
        field_child(plain, "function"@) == Some(g),
        kind_is(g, "identifier"@),
        node_text(g, source) == node_text(m, source),
    ensures
        js_call_name(call, source) == node_text(m, source),
        js_call_name(call, source) == js_call_name(plain, source),
        node_text(m, source) matches Some(t) ==> js_calls(call, source, id)[0] == rel(
            id,
            t,
            RelationshipKind::Calls,
        ),
{
    assert(!kind_is(f, "identifier"@) && !kind_is(g, "member_expression"@)) by {
        reveal_strlit("identifier");
        reveal_strlit("member_expression");
        assert("identifier"@[0] != "member_expression"@[0]);
    }
}

/// The `calls` relationships of symbol `id` to each call in a subtree, in document order.
pub open spec fn js_calls(n: SyntaxNode, source: Seq<u8>, id: int) -> Seq<RelationshipView>
    decreases depth(n), n.children@.len() + 1,
{
    (match js_call_name(n, source) {
        Some(name) => seq![rel(id, name, RelationshipKind::Calls)],
        None => Seq::empty(),
    }) + js_calls_in(n, source, id, n.children@.len() as int)
}

/// The calls in the first `k` children of a node.
pub open spec fn js_calls_in(n: SyntaxNode, source: Seq<u8>, id: int, k: int) -> Seq<RelationshipView>
    decreases depth(n), k,
{
    if k <= 0 || k > n.children@.len() {
        Seq::empty()
    } else {
        proof {
            lemma_child_depth(n, k - 1);
        }
        js_calls_in(n, source, id, k - 1) + js_calls(n.children@[k - 1], source, id)
    }
}

/// The calls in the `body` of a function-like node, made by symbol `id`.
pub open spec fn js_body_calls(n: SyntaxNode, source: Seq<u8>, id: int) -> Seq<RelationshipView> {
    match field_child(n, "body"@) {
        Some(b) => js_calls(b, source, id),
        None => Seq::empty(),
    }
}

/// The calls of a named function declaration `id`.
pub open spec fn js_function_rels(n: SyntaxNode, source: Seq<u8>, id: int) -> Seq<RelationshipView> {
    match field_text(n, "name"@, source) {
        Some(_) => js_body_calls(n, source, id),
        None => Seq::empty(),
    }
}

/// The calls of a function-valued variable `id`: those in the body of its value.
pub open spec fn js_variable_rels_fn(source: Seq<u8>) -> spec_fn(SyntaxNode, int) -> Seq<RelationshipView> {
    |v: SyntaxNode, id: int|
        if kind_is(v, "variable_declarator"@) && js_function_value(v) && field_text(v, "name"@, source) is Some {
            match field_child(v, "value"@) {
                Some(val) => js_body_calls(val, source, id),
                None => Seq::empty(),
            }
        } else {
            Seq::empty()
        }
}

/// The calls of a named method `id`.
pub open spec fn js_member_rels_fn(source: Seq<u8>) -> spec_fn(SyntaxNode, int) -> Seq<RelationshipView> {
    |m: SyntaxNode, id: int|
        if kind_is(m, "method_definition"@) && field_text(m, "name"@, source) is Some {
            js_body_calls(m, source, id)
        } else {
            Seq::empty()
        }
}

/// The relationships of a named class `id`: `extends` to the second child of each `extends`
/// clause of its heritage, then the calls of its methods.
pub open spec fn js_class_rels(n: SyntaxNode, source: Seq<u8>, id: int) -> Seq<RelationshipView> {
    match field_text(n, "name"@, source) {
        Some(name) => rels_over(n.children@, n.children@.len() as int, js_heritage_fn(source, id))
            + match field_child(n, "body"@) {
            Some(b) => rels_from(
                b.children@,
                b.children@.len() as int,
                id + 1,
                js_member_fn(source, name, id),
                js_member_rels_fn(source),
            ),
            None => Seq::empty(),
        },
        None => Seq::empty(),
    }
}

pub open spec fn js_heritage_fn(source: Seq<u8>, class_id: int) -> spec_fn(SyntaxNode) -> Seq<RelationshipView> {
    |c: SyntaxNode|
        if kind_is(c, "class_heritage"@) {
            rels_over(c.children@, c.children@.len() as int, js_extends_fn(source, class_id))
        } else {
            Seq::empty()
        }
}

pub open spec fn js_extends_fn(source: Seq<u8>, class_id: int) -> spec_fn(SyntaxNode) -> Seq<RelationshipView> {
    |hc: SyntaxNode|
        if kind_is(hc, "extends_clause"@) && hc.children@.len() > 1 {
            match node_text(hc.children@[1], source) {
                Some(t) => seq![rel(class_id, t, RelationshipKind::Extends)],
                None => Seq::empty(),
            }
        } else {
            Seq::empty()
        }
}

proof fn lemma_declaration_kinds(c: SyntaxNode)
    requires
        kind_is(c, "variable_declaration"@) || kind_is(c, "lexical_declaration"@),
    ensures
        !kind_is(c, "class_declaration"@),
        !kind_is(c, "abstract_class_declaration"@),
        !kind_is(c, "function_declaration"@),
        !kind_is(c, "export_statement"@),
{
    reveal_strlit("variable_declaration");
    reveal_strlit("lexical_declaration");
    reveal_strlit("class_declaration");
    reveal_strlit("abstract_class_declaration");
    reveal_strlit("function_declaration");
    reveal_strlit("export_statement");
    assert("variable_declaration"@[0] != "class_declaration"@[0]);
    assert("variable_declaration"@[0] != "abstract_class_declaration"@[0]);
    assert("variable_declaration"@[0] != "function_declaration"@[0]);
    assert("variable_declaration"@[0] != "export_statement"@[0]);
    assert("lexical_declaration"@[0] != "class_declaration"@[0]);
    assert("lexical_declaration"@[0] != "abstract_class_declaration"@[0]);
    assert("lexical_declaration"@[0] != "function_declaration"@[0]);
    assert("lexical_declaration"@[0] != "export_statement"@[0]);
}

/// A `var` declaration declares what the same `let` or `const` declaration declares: a
/// `variable_declaration` and a `lexical_declaration` with the same children at the same place
/// give the same symbols and the same relationships, at the top level and inside an `export`.
pub proof fn law_var_declares_like_const(v: SyntaxNode, l: SyntaxNode, source: Seq<u8>, id: int)
    requires
        kind_is(v, "variable_declaration"@),
        kind_is(l, "lexical_declaration"@),
        v.children@ == l.children@,
        v.row == l.row,
        v.column == l.column,
        v.end_row == l.end_row,
        v.end_column == l.end_column,
    ensures
        js_top_symbols(v, source, id) == js_top_symbols(l, source, id),
        js_decl_symbols(v, source, id) == js_decl_symbols(l, source, id),
        js_top_rels(v, source, id) == js_top_rels(l, source, id),
        js_decl_rels(v, source, id) == js_decl_rels(l, source, id),
{
    lemma_declaration_kinds(v);
    lemma_declaration_kinds(l);
    assert(js_variable_fn(v, source) =~= js_variable_fn(l, source));
}

/// A declaration (`var`, `let` or `const`) whose one declarator has a function or arrow
/// function as its value declares exactly one symbol: the public `function` named by the
/// declarator, with the signature `name()`, placed at the whole declaration.
pub proof fn law_function_valued_variable(c: SyntaxNode, i: int, name: Seq<char>, source: Seq<u8>, id: int)
    requires
        kind_is(c, "variable_declaration"@) || kind_is(c, "lexical_declaration"@),
        0 <= i < c.children@.len(),
        kind_is(c.children@[i], "variable_declarator"@),
        js_function_value(c.children@[i]),
        field_text(c.children@[i], "name"@, source) == Some(name),
        forall|j: int| 0 <= j < c.children@.len() && j != i ==> !kind_is(#[trigger] c.children@[j], "variable_declarator"@),
    ensures
        js_top_symbols(c, source, id) == seq![
            node_symbol(c, id, name, Some(name + "()"@), name, "function"@, "public"@, None, Seq::empty(), None),
        ],
        js_decl_symbols(c, source, id) == js_top_symbols(c, source, id),
{
    lemma_declaration_kinds(c);
    let f = js_variable_fn(c, source);
    assert forall|j: int, n: int| 0 <= j < c.children@.len() && j != i implies #[trigger] f(c.children@[j], n)
        == Seq::<SymbolView>::empty() by {
        assert(!kind_is(c.children@[j], "variable_declarator"@));
    }
    lemma_symbols_from_single(c.children@, c.children@.len() as int, id, f, i);
}

/// One statement at the top level of the file (`exports` allowed) or inside an `export`
/// statement (`exports` refused): a class, a function declaration, a declaration of
/// function-valued variables, or an `export` statement.
fn extract_top_level(
    child: &SyntaxNode,
    source: &[u8],
    symbols: &mut Vec<ExtractedSymbol>,
    relationships: &mut Vec<ExtractedRelationship>,
    exports: bool,
)
    requires
        symbols_wf(old(symbols)@),
        relationships_wf(old(relationships)@, old(symbols)@.len()),
    ensures
        grew(old(symbols)@, final(symbols)@),
        grew(old(relationships)@, final(relationships)@),
        symbols_wf(final(symbols)@),
        relationships_wf(final(relationships)@, final(symbols)@.len()),
        symbols_view(final(symbols)@) == symbols_view(old(symbols)@) + if exports {
            js_top_symbols(*child, source@, old(symbols)@.len() as int)
        } else {
            js_decl_symbols(*child, source@, old(symbols)@.len() as int)
        },
        relationships_view(final(relationships)@) == relationships_view(old(relationships)@) + if exports {
            js_top_rels(*child, source@, old(symbols)@.len() as int)
        } else {
            js_decl_rels(*child, source@, old(symbols)@.len() as int)
        },
    decreases if exports { 2int } else { 0int },
{
    proof {
        assert(symbols_view(symbols@) + Seq::<SymbolView>::empty() =~= symbols_view(symbols@));
        assert(relationships_view(relationships@) + Seq::<RelationshipView>::empty() =~= relationships_view(relationships@));
    }
    if child.is_kind("class_declaration") || child.is_kind("abstract_class_declaration") {
        extract_class(child, source, symbols, relationships);
    } else if child.is_kind("function_declaration") {
        let id = symbols.len();
        match extract_function_declaration(child, source, id) {
            Some(sym) => {
                proof {
                    lemma_symbols_view_push(symbols@, sym);
                }
                symbols.push(sym);
                extract_body_calls(child, source, id, relationships, Ghost(symbols@.len()));
            },
            None => {
            },
        }
    } else if child.is_kind("lexical_declaration") || child.is_kind("variable_declaration") {
        extract_variable_functions(child, source, symbols, relationships);
    } else if exports && child.is_kind("export_statement") {
        extract_exported(child, source, symbols, relationships);
    } else {
    }
}

/// The declarations inside an `export` statement.
fn extract_exported(
    node: &SyntaxNode,
    source: &[u8],
    symbols: &mut Vec<ExtractedSymbol>,
    relationships: &mut Vec<ExtractedRelationship>,
)
    requires
        symbols_wf(old(symbols)@),
        relationships_wf(old(relationships)@, old(symbols)@.len()),
    ensures
        grew(old(symbols)@, final(symbols)@),
        grew(old(relationships)@, final(relationships)@),
        symbols_wf(final(symbols)@),
        relationships_wf(final(relationships)@, final(symbols)@.len()),
        symbols_view(final(symbols)@) == symbols_view(old(symbols)@) + symbols_from(
            node.children@,
            node.children@.len() as int,
            old(symbols)@.len() as int,
            js_decl_fn(source@),
        ),
        relationships_view(final(relationships)@) == relationships_view(old(relationships)@) + rels_from(
            node.children@,
            node.children@.len() as int,
            old(symbols)@.len() as int,
            js_decl_fn(source@),
            js_decl_rels_fn(source@),
        ),
    decreases 1int,
{
    let ghost f = js_decl_fn(source@);
    let ghost fr = js_decl_rels_fn(source@);
    let ghost v0 = symbols_view(old(symbols)@);
    let ghost r0 = relationships_view(old(relationships)@);
    let ghost n0 = old(symbols)@.len() as int;
    let mut i: usize = 0;
    proof {
        lemma_symbols_from_none(node.children@, n0, f, v0);
        lemma_rels_from_none(node.children@, n0, f, fr, r0);
    }
    while i < node.children.len()
        invariant
            i <= node.children.len(),
            f == js_decl_fn(source@),
            fr == js_decl_rels_fn(source@),
            r0 == relationships_view(old(relationships)@),
            relationships_view(relationships@) == r0 + rels_from(node.children@, i as int, n0, f, fr),
            v0 == symbols_view(old(symbols)@),
            n0 == old(symbols)@.len(),
            symbols_view(symbols@) == v0 + symbols_from(node.children@, i as int, n0, f),
            grew(old(symbols)@, symbols@),
            grew(old(relationships)@, relationships@),
            symbols_wf(symbols@),
            relationships_wf(relationships@, symbols@.len()),
        decreases node.children.len() - i,
    {
        proof {
            lemma_symbols_from_next(node.children@, i as int, n0, f, v0);
            lemma_rels_from_next(node.children@, i as int, n0, f, fr, r0);
        }
        extract_top_level(&node.children[i], source, symbols, relationships, false);
        i = i + 1;
    }
}

/// The `extends` target of a class: the second child of an `extends_clause` in the class's
/// `class_heritage`.
fn extract_class(
    node: &SyntaxNode,
    source: &[u8],
    symbols: &mut Vec<ExtractedSymbol>,
    relationships: &mut Vec<ExtractedRelationship>,
)
    requires
        symbols_wf(old(symbols)@),
        relationships_wf(old(relationships)@, old(symbols)@.len()),
    ensures
        grew(old(symbols)@, final(symbols)@),
        grew(old(relationships)@, final(relationships)@),
        symbols_wf(final(symbols)@),
        relationships_wf(final(relationships)@, final(symbols)@.len()),
        // A class with a name gives a symbol of kind `class`, public and without parent.
        field_text(*node, "name"@, source@) matches Some(name) ==> final(symbols)@.len() > old(
            symbols,
        )@.len() && ({
            let c = final(symbols)@[old(symbols)@.len() as int];
            &&& c.name@ == name
            &&& c.qualified_name@ == name
            &&& c.kind.0@ == "class"@
            &&& c.visibility.0@ == "public"@
            &&& c.parent_local_id is None
            &&& c.signature is None
            &&& at_node(c, *node)
        }),
        field_text(*node, "name"@, source@) is None ==> final(symbols)@ == old(symbols)@
            && final(relationships)@ == old(relationships)@,
        symbols_view(final(symbols)@) == symbols_view(old(symbols)@) + js_class_symbols(
            *node,
            source@,
            old(symbols)@.len() as int,
        ),
        relationships_view(final(relationships)@) == relationships_view(old(relationships)@) + js_class_rels(
            *node,
            source@,
            old(symbols)@.len() as int,
        ),
{
    proof {
        assert(symbols_view(symbols@) + Seq::<SymbolView>::empty() =~= symbols_view(symbols@));
        assert(relationships_view(relationships@) + Seq::<RelationshipView>::empty() =~= relationships_view(relationships@));
    }
    let name = match field_text_of(node, "name", source) {
        Some(n) => n,
        None => return,
    };
    let class_local_id = symbols.len();
    let sym = symbol_at(
        node,
        class_local_id,
        name.clone(),
        None,
        name.clone(),
        "class",
        "public",
        None,
        String::new(),
        None,
    );
    proof {
        lemma_symbols_view_push(symbols@, sym);
    }
    symbols.push(sym);
    let ghost s1 = symbols@;
    let ghost hv = symbols_view(s1);
    let ghost h = js_heritage_fn(source@, class_local_id as int);
    let ghost e = js_extends_fn(source@, class_local_id as int);
    let ghost r0 = relationships_view(old(relationships)@);
    // `extends` relationships.
    let mut i: usize = 0;
    proof {
        lemma_rels_over_none(node.children@, h, r0);
    }
    while i < node.children.len()
        invariant
            i <= node.children.len(),
            class_local_id < symbols@.len(),
            symbols@ == s1,
            h == js_heritage_fn(source@, class_local_id as int),
            e == js_extends_fn(source@, class_local_id as int),
            r0 == relationships_view(old(relationships)@),
            relationships_view(relationships@) == r0 + rels_over(node.children@, i as int, h),
            grew(old(relationships)@, relationships@),
            relationships_wf(relationships@, symbols@.len()),
        decreases node.children.len() - i,
    {
        let child = &node.children[i];
        let ghost rb = relationships_view(relationships@);
        proof {
            lemma_rels_over_next(node.children@, i as int, h, r0);
        }
        if child.is_kind("class_heritage") {
            let mut j: usize = 0;
            proof {
                lemma_rels_over_none(child.children@, e, rb);
            }
            while j < child.children.len()
                invariant
                    j <= child.children.len(),
                    class_local_id < symbols@.len(),
                    symbols@ == s1,
                    e == js_extends_fn(source@, class_local_id as int),
                    relationships_view(relationships@) == rb + rels_over(child.children@, j as int, e),
                    grew(old(relationships)@, relationships@),
                    relationships_wf(relationships@, symbols@.len()),
                decreases child.children.len() - j,
            {
                let hc = &child.children[j];
                proof {
                    lemma_rels_over_next(child.children@, j as int, e, rb);
                }
                if hc.is_kind("extends_clause") {
                    match hc.child(1) {
                        Some(type_node) => match text(type_node, source) {
                            Some(t) => {
                                let r = relationship(class_local_id, t, RelationshipKind::Extends);
                                proof {
                                    lemma_relationships_view_push(relationships@, r);
                                }
                                relationships.push(r);
                            },
                            None => {},
                        },
                        None => {},
                    }
                }
                j = j + 1;
            }
        }
        i = i + 1;
    }
    // Methods and fields of the class body, with the calls of the methods.
    let ghost r1 = relationships_view(relationships@);
    proof {
        assert(r1 == relationships_view(old(relationships)@) + rels_over(node.children@, node.children@.len() as int, h));
    }
    match node.child_by_field_name("body") {
        Some(body) => {
            let ghost f = js_member_fn(source@, name@, class_local_id as int);
            let ghost fm = js_member_rels_fn(source@);
            let ghost n1 = s1.len() as int;
            let mut k: usize = 0;
            proof {
                lemma_symbols_from_none(body.children@, n1, f, hv);
                lemma_rels_from_none(body.children@, n1, f, fm, r1);
            }
            while k < body.children.len()
                invariant
                    k <= body.children.len(),
                    f == js_member_fn(source@, name@, class_local_id as int),
                    fm == js_member_rels_fn(source@),
                    hv == symbols_view(s1),
                    n1 == s1.len(),
                    n1 == class_local_id + 1,
                    symbols_view(symbols@) == hv + symbols_from(body.children@, k as int, n1, f),
                    relationships_view(relationships@) == r1 + rels_from(body.children@, k as int, n1, f, fm),
                    class_local_id < s1.len(),
                    grew(s1, symbols@),
                    symbols@[class_local_id as int] == s1[class_local_id as int],
                    symbols_wf(symbols@),
                    grew(old(relationships)@, relationships@),
                    relationships_wf(relationships@, symbols@.len()),
                decreases body.children.len() - k,
            {
                let member = &body.children[k];
                let id = symbols.len();
                proof {
                    lemma_symbols_from_next(body.children@, k as int, n1, f, hv);
                    lemma_rels_from_next(body.children@, k as int, n1, f, fm, r1);
                }
                if member.is_kind("method_definition") {
                    match extract_method(member, source, name.as_str(), class_local_id, id) {
                        Some(sym) => {
                            proof {
                                lemma_symbols_view_push(symbols@, sym);
                            }
                            symbols.push(sym);
                            extract_body_calls(member, source, id, relationships, Ghost(symbols@.len()));
                        },
                        None => {},
                    }
                } else if member.is_kind("public_field_definition") {
                    match extract_field(member, source, name.as_str(), class_local_id, id) {
                        Some(sym) => {
                            proof {
                                lemma_symbols_view_push(symbols@, sym);
                            }
                            symbols.push(sym);
                        },
                        None => {},
                    }
                }
                k = k + 1;
            }
            proof {
                let b = symbols_from(body.children@, k as int, n1, f);
                assert(hv + b =~= symbols_view(old(symbols)@) + (seq![symbol_view(sym)] + b));
                let rb = rels_from(body.children@, k as int, n1, f, fm);
                let ro = rels_over(node.children@, node.children@.len() as int, h);
                assert(r1 + rb =~= relationships_view(old(relationships)@) + (ro + rb));
            }
        },
        None => {
            proof {
                let ro = rels_over(node.children@, node.children@.len() as int, h);
                assert(ro + Seq::<RelationshipView>::empty() =~= ro);
            }
        },
    }
}

/// A function declaration: a public `function` symbol with signature `name()`.
fn extract_function_declaration(node: &SyntaxNode, source: &[u8], local_id: usize) -> (r: Option<
    ExtractedSymbol,
>)
    ensures
        match field_text(*node, "name"@, source@) {
            Some(name) => r matches Some(s) && s.local_id == local_id && s.name@ == name
                && opt_view(s.signature) == Some(name + "()"@) && s.qualified_name@ == name
                && s.kind.0@ == "function"@ && s.visibility.0@ == "public"@ && s.parent_local_id is None
                && s.package@.len() == 0 && s.type_text is None && at_node(s, *node),
            None => r is None,
        },
        opt_symbols(r) == js_function_symbols(*node, source@, local_id as int),
{
    let name = match field_text_of(node, "name", source) {
        Some(n) => n,
        None => return None,
    };
    let sig = concat(name.as_str(), "()");
    let qn = name.clone();
    Some(symbol_at(node, local_id, name, Some(sig), qn, "function", "public", None, String::new(), None))
}

/// Whether a variable's value is a function: an arrow function or a function expression.
pub open spec fn js_function_value(decl: SyntaxNode) -> bool {
    field_child(decl, "value"@) matches Some(v) && (kind_is(v, "arrow_function"@) || kind_is(
        v,
        "function_expression"@,
    ))
}

/// The variables of a declaration whose value is a function: each is a public `function`
/// symbol, placed at the whole declaration, with the calls in the body of its value.
fn extract_variable_functions(
    node: &SyntaxNode,
    source: &[u8],
    symbols: &mut Vec<ExtractedSymbol>,
    relationships: &mut Vec<ExtractedRelationship>,
)
    requires
        symbols_wf(old(symbols)@),
        relationships_wf(old(relationships)@, old(symbols)@.len()),
    ensures
        grew(old(symbols)@, final(symbols)@),
        grew(old(relationships)@, final(relationships)@),
        symbols_wf(final(symbols)@),
        relationships_wf(final(relationships)@, final(symbols)@.len()),
        symbols_view(final(symbols)@) == symbols_view(old(symbols)@) + symbols_from(
            node.children@,
            node.children@.len() as int,
            old(symbols)@.len() as int,
            js_variable_fn(*node, source@),
        ),
        relationships_view(final(relationships)@) == relationships_view(old(relationships)@) + rels_from(
            node.children@,
            node.children@.len() as int,
            old(symbols)@.len() as int,
            js_variable_fn(*node, source@),
            js_variable_rels_fn(source@),
        ),
{
    let ghost f = js_variable_fn(*node, source@);
    let ghost fr = js_variable_rels_fn(source@);
    let ghost v0 = symbols_view(old(symbols)@);
    let ghost r0 = relationships_view(old(relationships)@);
    let ghost n0 = old(symbols)@.len() as int;
    let mut i: usize = 0;
    proof {
        lemma_symbols_from_none(node.children@, n0, f, v0);
        lemma_rels_from_none(node.children@, n0, f, fr, r0);
    }
    while i < node.children.len()
        invariant
            i <= node.children.len(),
            grew(old(symbols)@, symbols@),
            grew(old(relationships)@, relationships@),
            symbols_wf(symbols@),
            relationships_wf(relationships@, symbols@.len()),
            f == js_variable_fn(*node, source@),
            fr == js_variable_rels_fn(source@),
            v0 == symbols_view(old(symbols)@),
            r0 == relationships_view(old(relationships)@),
            n0 == old(symbols)@.len(),
            symbols_view(symbols@) == v0 + symbols_from(node.children@, i as int, n0, f),
            relationships_view(relationships@) == r0 + rels_from(node.children@, i as int, n0, f, fr),
        decreases node.children.len() - i,
    {
        let child = &node.children[i];
        proof {
            lemma_symbols_from_next(node.children@, i as int, n0, f, v0);
            lemma_rels_from_next(node.children@, i as int, n0, f, fr, r0);
        }
        if child.is_kind("variable_declarator") {
            let value = child.child_by_field_name("value");
            let is_function = match value {
                Some(v) => v.is_kind("arrow_function") || v.is_kind("function_expression"),
                None => false,
            };
            if is_function {
                match field_text_of(child, "name", source) {
                    Some(name) => {
                        let id = symbols.len();
                        let sig = concat(name.as_str(), "()");
                        let qn = name.clone();
                        let sym = symbol_at(
                            node,
                            id,
                            name,
                            Some(sig),
                            qn,
                            "function",
                            "public",
                            None,
                            String::new(),
                            None,
                        );
                        proof {
                            lemma_symbols_view_push(symbols@, sym);
                        }
                        symbols.push(sym);
                        match value {
                            Some(v) => {
                                extract_body_calls(v, source, id, relationships, Ghost(symbols@.len()));
                            },
                            None => {},
                        }
                    },
                    None => {},
                }
            }
        }
        i = i + 1;
    }
}

/// The calls in the `body` of a function-like node, made by symbol `source_local_id`.
fn extract_body_calls(
    node: &SyntaxNode,
    source: &[u8],
    source_local_id: usize,
    relationships: &mut Vec<ExtractedRelationship>,
    n_symbols: Ghost<nat>,
)
    requires
        source_local_id < n_symbols@,
        relationships_wf(old(relationships)@, n_symbols@),
    ensures
        grew(old(relationships)@, final(relationships)@),
        relationships_wf(final(relationships)@, n_symbols@),
        relationships_view(final(relationships)@) == relationships_view(old(relationships)@) + js_body_calls(
            *node,
            source@,
            source_local_id as int,
        ),
{
    proof {
        assert(relationships_view(relationships@) + Seq::<RelationshipView>::empty() =~= relationships_view(relationships@));
    }
    match node.child_by_field_name("body") {
        Some(body) => collect_calls(body, source, source_local_id, relationships, n_symbols),
        None => {},
    }
}

fn call_name(node: &SyntaxNode, source: &[u8]) -> (r: Option<String>)
    ensures
        opt_view(r) == js_call_name(*node, source@),
{
    if !node.is_kind("call_expression") {
        return None;
    }
    match node.child_by_field_name("function") {
        Some(f) => {
            if f.is_kind("member_expression") {
                field_text_of(f, "property", source)
            } else if f.is_kind("identifier") {
                text(f, source)
            } else {
                None
            }
        },
        None => None,
    }
}

/// Every call in a subtree, as a `calls` relationship to the called name.
fn collect_calls(
    node: &SyntaxNode,
    source: &[u8],
    source_local_id: usize,
    relationships: &mut Vec<ExtractedRelationship>,
    n_symbols: Ghost<nat>,
)
    requires
        source_local_id < n_symbols@,
        relationships_wf(old(relationships)@, n_symbols@),
    ensures
        grew(old(relationships)@, final(relationships)@),
        relationships_wf(final(relationships)@, n_symbols@),
        relationships_view(final(relationships)@) == relationships_view(old(relationships)@) + js_calls(
            *node,
            source@,
            source_local_id as int,
        ),
    decreases node,
{
    let ghost r0 = relationships_view(old(relationships)@);
    let ghost id = source_local_id as int;
    match call_name(node, source) {
        Some(name) => {
            let r = relationship(source_local_id, name, RelationshipKind::Calls);
            proof {
                lemma_relationships_view_push(relationships@, r);
            }
            relationships.push(r);
        },
        None => {
            proof {
                assert(r0 + Seq::<RelationshipView>::empty() =~= r0);
            }
        },
    }
    let ghost r1 = relationships@;
    let ghost head = relationships_view(r1);
    let mut i: usize = 0;
    proof {
        assert(head + js_calls_in(*node, source@, id, 0) =~= head);
    }
    while i < node.children.len()
        invariant
            i <= node.children.len(),
            source_local_id < n_symbols@,
            id == source_local_id,
            grew(old(relationships)@, relationships@),
            grew(r1, relationships@),
            relationships_wf(relationships@, n_symbols@),
            head == relationships_view(r1),
            relationships_view(relationships@) == head + js_calls_in(*node, source@, id, i as int),
        decreases node.children.len() - i,
    {
        proof {
            lemma_child_depth(*node, i as int);
        }
        collect_calls(&node.children[i], source, source_local_id, relationships, n_symbols);
        proof {
            let p = js_calls_in(*node, source@, id, i as int);
            let x = js_calls(node.children@[i as int], source@, id);
            assert((head + p) + x =~= head + (p + x));
        }
        i = i + 1;
    }
    proof {
        let own = match js_call_name(*node, source@) {
            Some(name) => seq![rel(id, name, RelationshipKind::Calls)],
            None => Seq::<RelationshipView>::empty(),
        };
        let rest = js_calls_in(*node, source@, id, i as int);
        assert(head == r0 + own);
        assert((r0 + own) + rest =~= r0 + (own + rest));
    }
}

/// The name without a leading `#`, and whether there was one.
fn split_private(name: &str) -> (r: (String, bool))
    ensures
        r.0@ == js_display_name(name@),
        r.1 == js_is_private(name@),
{
    let v = chars_of(name);
    if v.len() > 0 && v[0] == '#' {
        (string_of_range(&v, 1, v.len()), true)
    } else {
        (string_of_range(&v, 0, v.len()), false)
    }
}

/// A method of a class: `constructor` or `method`, private where the name starts with `#`,
/// qualified by the class name.
fn extract_method(
    node: &SyntaxNode,
    source: &[u8],
    class_name: &str,
    parent_local_id: usize,
    local_id: usize,
) -> (r: Option<ExtractedSymbol>)
    ensures
        match field_text(*node, "name"@, source@) {
            Some(name) => r matches Some(s) && s.local_id == local_id && s.name@ == name
                && opt_view(s.signature) == Some(name + "()"@)
                && s.qualified_name@ == class_name@ + "."@ + js_display_name(name)
                && s.kind.0@ == (if name == "constructor"@ { "constructor"@ } else { "method"@ })
                && s.visibility.0@ == (if js_is_private(name) { "private"@ } else { "public"@ })
                && s.parent_local_id == Some(parent_local_id) && s.package@.len() == 0
                && s.type_text is None && at_node(s, *node),
            None => r is None,
        },
        opt_symbols(r) == js_method_symbols(*node, source@, class_name@, parent_local_id as int, local_id as int),
{
    let name = match field_text_of(node, "name", source) {
        Some(n) => n,
        None => return None,
    };
    let (display, private) = split_private(name.as_str());
    let kind = if str_eq(name.as_str(), "constructor") {
        "constructor"
    } else {
        "method"
    };
    let vis = if private {
        "private"
    } else {
        "public"
    };
    let sig = concat(name.as_str(), "()");
    let qn = dotted(class_name, display.as_str());
    Some(symbol_at(node, local_id, name, Some(sig), qn, kind, vis, Some(parent_local_id), String::new(), None))
}

/// A field of a class: private where the name starts with `#`, qualified by the class name.
fn extract_field(
    node: &SyntaxNode,
    source: &[u8],
    class_name: &str,
    parent_local_id: usize,
    local_id: usize,
) -> (r: Option<ExtractedSymbol>)
    ensures
        match field_text(*node, "name"@, source@) {
            Some(name) => r matches Some(s) && s.local_id == local_id && s.name@ == name
                && s.signature is None
                && s.qualified_name@ == class_name@ + "."@ + js_display_name(name)
                && s.kind.0@ == "field"@
                && s.visibility.0@ == (if js_is_private(name) { "private"@ } else { "public"@ })
                && s.parent_local_id == Some(parent_local_id) && s.package@.len() == 0
                && s.type_text is None && at_node(s, *node),
            None => r is None,
        },
        opt_symbols(r) == js_field_symbols(*node, source@, class_name@, parent_local_id as int, local_id as int),
{
    let name = match field_text_of(node, "name", source) {
        Some(n) => n,
        None => return None,
    };
    let (display, private) = split_private(name.as_str());
    let vis = if private {
        "private"
    } else {
        "public"
    };
    let qn = dotted(class_name, display.as_str());
    Some(symbol_at(node, local_id, name, None, qn, "field", vis, Some(parent_local_id), String::new(), None))
}

} // verus!

//! Python: classes (nested ones too) with their methods and annotated fields, functions, and
//! decorators as `annotated-by`; base classes as `extends`, annotated types as `field-type`,
//! and calls.
use vstd::prelude::*;
use crate::model::{ExtractedRelationship, ExtractedSymbol, ExtractionResult, RelationshipKind, Visibility};
use crate::plugin::{
    at_node, extension_in, extension_of, field_text, field_text_of, first_some_from, grew,
    language_extensions, lemma_symbols_from_next, lemma_symbols_from_none, lemma_symbols_view_push,
    node_symbol, opt_id, path_extension, relationship, relationships_wf, result_wf, symbol_at,
    symbol_view, symbols_from, symbols_view, symbols_wf, LanguageId, SymbolView, RelationshipView, rel,
    rels_from, rels_over, relationships_view, lemma_relationships_view_push, lemma_rels_from_next,
    lemma_rels_from_none, lemma_rels_over_next, lemma_rels_over_none, relationship_view,
    lemma_first_some_agree,
};
use crate::syntax::{depth, field_child, kind_is, lemma_child_depth, node_text, text, SyntaxNode};
use crate::text::{
    after_last, concat, concat3, dotted, ends_with, is_prefix, is_suffix, join_strings,
    join_with, opt_view, starts_upper, starts_with, starts_with_uppercase, str_eq,
    suffix_after_last, views,
};

verus! {

/// The Python plugin.
pub struct PythonPlugin;

impl PythonPlugin {
    pub fn name(&self) -> (r: &'static str)
        ensures
            r@ == "python"@,
    {
        "python"
    }

    pub fn display_name(&self) -> (r: &'static str)
        ensures
            r@ == "Python"@,
    {
        "Python"
    }

    /// Whether the file has the extension `py` or `pyi`.
    pub fn can_handle(&self, path: &str) -> (r: bool)
        ensures
            r == extension_in(path_extension(path@), language_extensions(LanguageId::Python)),
    {
        match extension_of(path) {
            Some(x) => {
                let r = str_eq(x.as_str(), "py") || str_eq(x.as_str(), "pyi");
                proof {
                    let exts = language_extensions(LanguageId::Python);
                    assert(exts[0] == "py"@ && exts[1] == "pyi"@);
                    if exts.contains(x@) {
                        let k = choose|k: int| 0 <= k < exts.len() && exts[k] == x@;
                        assert(k == 0 || k == 1);
                    }
                }
                r
            },
            None => false,
        }
    }

    /// Calls the grammar constant `tree_sitter_python::LANGUAGE`.
    #[verifier::external_body]
    pub fn tree_sitter_language(&self) -> tree_sitter::Language {
        tree_sitter_python::LANGUAGE.into()
    }

    /// The classes and functions at the top level of the file, decorated or not.
    pub fn extract_symbols(&self, root: &SyntaxNode, source: &[u8]) -> (r: ExtractionResult)
        ensures
            result_wf(r),
            symbols_view(r.symbols@) == python_symbols(*root, source@),
            relationships_view(r.relationships@) == python_relationships(*root, source@),
            r.wildcard_imports@.len() == 0,
    {
        let ghost f = py_top_fn(source@);
        let ghost fr = py_top_rels_fn(source@);
        let ghost e = Seq::<SymbolView>::empty();
        let ghost er = Seq::<RelationshipView>::empty();
        let mut symbols: Vec<ExtractedSymbol> = Vec::new();
        let mut relationships: Vec<ExtractedRelationship> = Vec::new();
        let mut i: usize = 0;
        proof {
            assert(symbols_view(symbols@) =~= e);
            assert(relationships_view(relationships@) =~= er);
            lemma_symbols_from_none(root.children@, 0, f, e);
            lemma_rels_from_none(root.children@, 0, f, fr, er);
        }
        while i < root.children.len()
            invariant
                i <= root.children.len(),
                symbols_wf(symbols@),
                relationships_wf(relationships@, symbols@.len()),
                f == py_top_fn(source@),
                fr == py_top_rels_fn(source@),
                e == Seq::<SymbolView>::empty(),
                er == Seq::<RelationshipView>::empty(),
                symbols_view(symbols@) == e + symbols_from(root.children@, i as int, 0, f),
                relationships_view(relationships@) == er + rels_from(root.children@, i as int, 0, f, fr),
            decreases root.children.len() - i,
        {
            proof {
                lemma_symbols_from_next(root.children@, i as int, 0, f, e);
                lemma_rels_from_next(root.children@, i as int, 0, f, fr, er);
            }
            extract_top_level(&root.children[i], source, &mut symbols, &mut relationships);
            i = i + 1;
        }
        proof {
            assert(e + symbols_from(root.children@, i as int, 0, f) =~= symbols_from(root.children@, i as int, 0, f));
            assert(er + rels_from(root.children@, i as int, 0, f, fr) =~= rels_from(root.children@, i as int, 0, f, fr));
        }
        ExtractionResult { symbols, relationships, wildcard_imports: Vec::new() }
    }
}

// ---------------------------------------------------------------------------------------------
// The symbols of a file
// ---------------------------------------------------------------------------------------------

/// The symbols of a file: those of each top-level class, function and decorated definition.
pub open spec fn python_symbols(root: SyntaxNode, source: Seq<u8>) -> Seq<SymbolView> {
    symbols_from(root.children@, root.children@.len() as int, 0, py_top_fn(source))
}

pub open spec fn py_top_fn(source: Seq<u8>) -> spec_fn(SyntaxNode, int) -> Seq<SymbolView> {
    |c: SyntaxNode, id: int| py_top_symbols(c, source, id)
}

/// The symbols of a top-level statement; `id` is the number of symbols before them.
pub open spec fn py_top_symbols(c: SyntaxNode, source: Seq<u8>, id: int) -> Seq<SymbolView> {
    if kind_is(c, "class_definition"@) {
        py_class_symbols(c, source, None, Seq::empty(), id)
    } else if kind_is(c, "function_definition"@) {
        py_function_symbols(c, source, None, Seq::empty(), id)
    } else if kind_is(c, "decorated_definition"@) {
        py_decorated_symbols(c, source, None, Seq::empty(), id)
    } else {
        Seq::empty()
    }
}

/// The symbol of a named function: a `function`, or in a class a `method` or the
/// `constructor`.
pub open spec fn py_function_symbols(
    n: SyntaxNode,
    source: Seq<u8>,
    parent: Option<int>,
    parent_name: Seq<char>,
    id: int,
) -> Seq<SymbolView> {
    match field_text(n, "name"@, source) {
        Some(name) => seq![
            node_symbol(
                n,
                id,
                name,
                Some(python_signature(name, n, source)),
                python_qualify(parent_name, name),
                python_function_kind(parent is Some && parent_name.len() > 0, name),
                python_visibility(name),
                parent,
                Seq::empty(),
                field_text(n, "return_type"@, source),
            ),
        ],
        None => Seq::empty(),
    }
}

/// The `field` symbol of an assignment to a plain name in a class body.
pub open spec fn py_field_symbols(n: SyntaxNode, source: Seq<u8>, parent: int, parent_name: Seq<char>, id: int) -> Seq<
    SymbolView,
> {
    match field_child(n, "left"@) {
        Some(l) => if kind_is(l, "identifier"@) {
            match node_text(l, source) {
                Some(name) => seq![
                    node_symbol(
                        n,
                        id,
                        name,
                        None,
                        parent_name + "."@ + name,
                        "field"@,
                        python_visibility(name),
                        Some(parent),
                        Seq::empty(),
                        field_text(n, "type"@, source),
                    ),
                ],
                None => Seq::empty(),
            }
        } else {
            Seq::empty()
        },
        None => Seq::empty(),
    }
}

pub open spec fn py_assignment_fn(source: Seq<u8>, parent: int, parent_name: Seq<char>) -> spec_fn(SyntaxNode, int) -> Seq<
    SymbolView,
> {
    |d: SyntaxNode, id: int|
        if kind_is(d, "assignment"@) {
            py_field_symbols(d, source, parent, parent_name, id)
        } else {
            Seq::empty()
        }
}

/// The symbols of a decorated definition: those of the class or function it decorates.
pub open spec fn py_decorated_symbols(
    n: SyntaxNode,
    source: Seq<u8>,
    parent: Option<int>,
    parent_name: Seq<char>,
    id: int,
) -> Seq<SymbolView>
    decreases depth(n), 1int,
{
    match field_child(n, "definition"@) {
        Some(d) => {
            proof {
                lemma_field_child_depth(n, "definition"@);
            }
            if kind_is(d, "class_definition"@) {
                py_class_symbols(d, source, parent, parent_name, id)
            } else if kind_is(d, "function_definition"@) {
                py_function_symbols(d, source, parent, parent_name, id)
            } else {
                Seq::empty()
            }
        },
        None => Seq::empty(),
    }
}

/// The symbols of a named class: the class, then those of its body.
pub open spec fn py_class_symbols(
    n: SyntaxNode,
    source: Seq<u8>,
    parent: Option<int>,
    parent_name: Seq<char>,
    id: int,
) -> Seq<SymbolView>
    decreases depth(n), 2int,
{
    match field_text(n, "name"@, source) {
        Some(name) => {
            let qn = python_qualify(parent_name, name);
            let body = match field_child(n, "body"@) {
                Some(b) => {
                    proof {
                        lemma_field_child_depth(n, "body"@);
                    }
                    py_body_symbols(b, source, id, qn, id + 1, b.children@.len() as int)
                },
                None => Seq::empty(),
            };
            seq![node_symbol(n, id, name, None, qn, "class"@, python_visibility(name), parent, Seq::empty(), None)]
                + body
        },
        None => Seq::empty(),
    }
}

/// The symbols of the first `k` statements of a class body, from number `start` on.
pub open spec fn py_body_symbols(
    body: SyntaxNode,
    source: Seq<u8>,
    class_id: int,
    qn: Seq<char>,
    start: int,
    k: int,
) -> Seq<SymbolView>
    decreases depth(body), k,
{
    if k <= 0 || k > body.children@.len() {
        Seq::empty()
    } else {
        let prev = py_body_symbols(body, source, class_id, qn, start, k - 1);
        proof {
            lemma_child_depth(body, k - 1);
        }
        prev + py_member_symbols(body.children@[k - 1], source, class_id, qn, start + prev.len())
    }
}

/// The symbols of one statement of a class body: a method, a decorated definition, a nested
/// class, or the fields of assignments.
pub open spec fn py_member_symbols(c: SyntaxNode, source: Seq<u8>, class_id: int, qn: Seq<char>, id: int) -> Seq<
    SymbolView,
>
    decreases depth(c), 3int,
{
    if kind_is(c, "function_definition"@) {
        py_function_symbols(c, source, Some(class_id), qn, id)
    } else if kind_is(c, "decorated_definition"@) {
        py_decorated_symbols(c, source, Some(class_id), qn, id)
    } else if kind_is(c, "class_definition"@) {
        py_class_symbols(c, source, Some(class_id), qn, id)
    } else if kind_is(c, "expression_statement"@) {
        symbols_from(c.children@, c.children@.len() as int, id, py_assignment_fn(source, class_id, qn))
    } else {
        Seq::empty()
    }
}

// ---------------------------------------------------------------------------------------------
// Members hang below their class
// ---------------------------------------------------------------------------------------------

/// Whether the parent of a symbol is one of the symbols `lo` to `hi - 1`.
pub open spec fn parent_between(s: SymbolView, lo: int, hi: int) -> bool {
    match s.parent_local_id {
        Some(p) => lo <= p < hi,
        None => false,
    }
}

/// Whether the symbols `s`, numbered from `start`, each hang below the symbol `owner` or a
/// symbol between it and themselves, with a qualified name that starts with `prefix`.
pub open spec fn hangs_below(s: Seq<SymbolView>, start: int, owner: int, prefix: Seq<char>) -> bool {
    forall|j: int|
        0 <= j < s.len() ==> (#[trigger] s[j]).local_id == start + j && parent_between(s[j], owner, start + j)
            && is_prefix(prefix, s[j].qualified_name)
}

proof fn lemma_hangs_concat(a: Seq<SymbolView>, b: Seq<SymbolView>, start: int, owner: int, prefix: Seq<char>)
    requires
        hangs_below(a, start, owner, prefix),
        hangs_below(b, start + a.len(), owner, prefix),
    ensures
        hangs_below(a + b, start, owner, prefix),
{
    assert forall|j: int| 0 <= j < (a + b).len() implies (#[trigger] (a + b)[j]).local_id == start + j
        && parent_between((a + b)[j], owner, start + j) && is_prefix(prefix, (a + b)[j].qualified_name) by {
        if j < a.len() {
            assert((a + b)[j] == a[j]);
        } else {
            assert((a + b)[j] == b[j - a.len()]);
        }
    }
}

proof fn lemma_prefix_trans(a: Seq<char>, b: Seq<char>, c: Seq<char>)
    requires
        is_prefix(a, b),
        is_prefix(b, c),
    ensures
        is_prefix(a, c),
{
    assert(c.subrange(0, a.len() as int) =~= c.subrange(0, b.len() as int).subrange(0, a.len() as int));
}

proof fn lemma_hangs_weaken(s: Seq<SymbolView>, start: int, owner: int, prefix: Seq<char>, owner2: int, prefix2: Seq<char>)
    requires
        hangs_below(s, start, owner2, prefix2),
        owner <= owner2,
        is_prefix(prefix, prefix2),
    ensures
        hangs_below(s, start, owner, prefix),
{
    assert forall|j: int| 0 <= j < s.len() implies (#[trigger] s[j]).local_id == start + j && parent_between(
        s[j],
        owner,
        start + j,
    ) && is_prefix(prefix, s[j].qualified_name) by {
        lemma_prefix_trans(prefix, prefix2, s[j].qualified_name);
    }
}

/// A member named `name` of a class with the qualified name `qn` is qualified below it.
proof fn lemma_member_name(qn: Seq<char>, name: Seq<char>)
    requires
        qn.len() > 0,
    ensures
        is_prefix(qn + "."@, python_qualify(qn, name)),
        is_prefix(qn + "."@, python_qualify(qn, name) + "."@),
        python_qualify(qn, name).len() > 0,
{
    let q = python_qualify(qn, name);
    assert(q =~= (qn + "."@) + name);
    assert(q.subrange(0, (qn + "."@).len() as int) =~= qn + "."@);
    assert((q + "."@).subrange(0, (qn + "."@).len() as int) =~= qn + "."@);
}

proof fn lemma_single_member(sym: SymbolView, id: int, owner: int, qn: Seq<char>)
    requires
        sym.local_id == id,
        sym.parent_local_id == Some(owner),
        owner < id,
        is_prefix(qn + "."@, sym.qualified_name),
    ensures
        hangs_below(seq![sym], id, owner, qn + "."@),
{
    assert(seq![sym][0] == sym);
}

/// The symbols of a named class: the class first, then its members, each hanging below the
/// class or a class nested in it, with a qualified name below the class's.
pub proof fn law_class_members_hang_below(n: SyntaxNode, source: Seq<u8>, parent: Option<int>, parent_name: Seq<char>, id: int)
    requires
        field_text(n, "name"@, source) matches Some(name) && python_qualify(parent_name, name).len() > 0,
    ensures
        ({
            let s = py_class_symbols(n, source, parent, parent_name, id);
            let qn = python_qualify(parent_name, field_text(n, "name"@, source).unwrap());
            &&& s.len() >= 1
            &&& s[0].local_id == id
            &&& s[0].qualified_name == qn
            &&& s[0].parent_local_id == parent
            &&& s[0].kind == "class"@
            &&& hangs_below(s.skip(1), id + 1, id, qn + "."@)
        }),
    decreases depth(n), 2int,
{
    let name = field_text(n, "name"@, source).unwrap();
    let qn = python_qualify(parent_name, name);
    let s = py_class_symbols(n, source, parent, parent_name, id);
    match field_child(n, "body"@) {
        Some(b) => {
            lemma_field_child_depth(n, "body"@);
            lemma_body_symbols_below(b, source, id, qn, id + 1, b.children@.len() as int);
            let body = py_body_symbols(b, source, id, qn, id + 1, b.children@.len() as int);
            assert(s.skip(1) =~= body);
        },
        None => {
            assert(s.skip(1) =~= Seq::<SymbolView>::empty());
        },
    }
}

proof fn lemma_body_symbols_below(body: SyntaxNode, source: Seq<u8>, class_id: int, qn: Seq<char>, start: int, k: int)
    requires
        qn.len() > 0,
        class_id < start,
    ensures
        hangs_below(py_body_symbols(body, source, class_id, qn, start, k), start, class_id, qn + "."@),
    decreases depth(body), k,
{
    if k > 0 && k <= body.children@.len() {
        let prev = py_body_symbols(body, source, class_id, qn, start, k - 1);
        lemma_child_depth(body, k - 1);
        lemma_body_symbols_below(body, source, class_id, qn, start, k - 1);
        lemma_member_symbols_below(body.children@[k - 1], source, class_id, qn, start + prev.len());
        lemma_hangs_concat(
            prev,
            py_member_symbols(body.children@[k - 1], source, class_id, qn, start + prev.len()),
            start,
            class_id,
            qn + "."@,
        );
    }
}

proof fn lemma_function_below(n: SyntaxNode, source: Seq<u8>, class_id: int, qn: Seq<char>, id: int)
    requires
        qn.len() > 0,
        class_id < id,
    ensures
        hangs_below(py_function_symbols(n, source, Some(class_id), qn, id), id, class_id, qn + "."@),
{
    match field_text(n, "name"@, source) {
        Some(name) => {
            lemma_member_name(qn, name);
            let s = py_function_symbols(n, source, Some(class_id), qn, id);
            lemma_single_member(s[0], id, class_id, qn);
            assert(s =~= seq![s[0]]);
        },
        None => {},
    }
}

proof fn lemma_nested_class_below(n: SyntaxNode, source: Seq<u8>, class_id: int, qn: Seq<char>, id: int)
    requires
        qn.len() > 0,
        class_id < id,
    ensures
        hangs_below(py_class_symbols(n, source, Some(class_id), qn, id), id, class_id, qn + "."@),
    decreases depth(n), 3int,
{
    match field_text(n, "name"@, source) {
        Some(name) => {
            lemma_member_name(qn, name);
            law_class_members_hang_below(n, source, Some(class_id), qn, id);
            let s = py_class_symbols(n, source, Some(class_id), qn, id);
            let q2 = python_qualify(qn, name);
            lemma_single_member(s[0], id, class_id, qn);
            lemma_hangs_weaken(s.skip(1), id + 1, class_id, qn + "."@, id, q2 + "."@);
            lemma_hangs_concat(seq![s[0]], s.skip(1), id, class_id, qn + "."@);
            assert(seq![s[0]] + s.skip(1) =~= s);
        },
        None => {},
    }
}

proof fn lemma_decorated_below(n: SyntaxNode, source: Seq<u8>, class_id: int, qn: Seq<char>, id: int)
    requires
        qn.len() > 0,
        class_id < id,
    ensures
        hangs_below(py_decorated_symbols(n, source, Some(class_id), qn, id), id, class_id, qn + "."@),
    decreases depth(n), 4int,
{
    match field_child(n, "definition"@) {
        Some(d) => {
            lemma_field_child_depth(n, "definition"@);
            if kind_is(d, "class_definition"@) {
                lemma_nested_class_below(d, source, class_id, qn, id);
            } else if kind_is(d, "function_definition"@) {
                lemma_function_below(d, source, class_id, qn, id);
            }
        },
        None => {},
    }
}

proof fn lemma_fields_below(cs: Seq<SyntaxNode>, source: Seq<u8>, class_id: int, qn: Seq<char>, start: int, k: int)
    requires
        qn.len() > 0,
        class_id < start,
    ensures
        hangs_below(symbols_from(cs, k, start, py_assignment_fn(source, class_id, qn)), start, class_id, qn + "."@),
    decreases k,
{
    if k > 0 && k <= cs.len() {
        let f = py_assignment_fn(source, class_id, qn);
        let prev = symbols_from(cs, k - 1, start, f);
        lemma_fields_below(cs, source, class_id, qn, start, k - 1);
        let d = cs[k - 1];
        let id = start + prev.len();
        let x = f(d, id);
        if kind_is(d, "assignment"@) {
            match field_child(d, "left"@) {
                Some(l) => if kind_is(l, "identifier"@) {
                    match node_text(l, source) {
                        Some(name) => {
                            lemma_member_name(qn, name);
                            assert(python_qualify(qn, name) == qn + "."@ + name);
                            lemma_single_member(x[0], id, class_id, qn);
                            assert(x =~= seq![x[0]]);
                        },
                        None => {},
                    }
                },
                None => {},
            }
        }
        lemma_hangs_concat(prev, x, start, class_id, qn + "."@);
    }
}

proof fn lemma_member_symbols_below(c: SyntaxNode, source: Seq<u8>, class_id: int, qn: Seq<char>, id: int)
    requires
        qn.len() > 0,
        class_id < id,
    ensures
        hangs_below(py_member_symbols(c, source, class_id, qn, id), id, class_id, qn + "."@),
    decreases depth(c), 5int,
{
    if kind_is(c, "function_definition"@) {
        lemma_function_below(c, source, class_id, qn, id);
    } else if kind_is(c, "decorated_definition"@) {
        lemma_decorated_below(c, source, class_id, qn, id);
    } else if kind_is(c, "class_definition"@) {
        lemma_nested_class_below(c, source, class_id, qn, id);
    } else if kind_is(c, "expression_statement"@) {
        lemma_fields_below(c.children@, source, class_id, qn, id, c.children@.len() as int);
    }
}

/// Whether every relationship's source is the symbol `lo` or a later one.
pub open spec fn sources_from(rs: Seq<RelationshipView>, lo: int) -> bool {
    forall|i: int| 0 <= i < rs.len() ==> (#[trigger] rs[i]).source_local_id >= lo
}

proof fn lemma_sources_concat(a: Seq<RelationshipView>, b: Seq<RelationshipView>, lo: int)
    requires
        sources_from(a, lo),
        sources_from(b, lo),
    ensures
        sources_from(a + b, lo),
{
    assert forall|i: int| 0 <= i < (a + b).len() implies (#[trigger] (a + b)[i]).source_local_id >= lo by {
        if i < a.len() {
            assert((a + b)[i] == a[i]);
        } else {
            assert((a + b)[i] == b[i - a.len()]);
        }
    }
}

proof fn lemma_sources_rels_over(cs: Seq<SyntaxNode>, k: int, f: spec_fn(SyntaxNode) -> Seq<RelationshipView>, lo: int)
    requires
        forall|c: SyntaxNode| #[trigger] sources_from(f(c), lo),
    ensures
        sources_from(rels_over(cs, k, f), lo),
    decreases k,
{
    if k > 0 && k <= cs.len() {
        lemma_sources_rels_over(cs, k - 1, f, lo);
        assert(sources_from(f(cs[k - 1]), lo));
        lemma_sources_concat(rels_over(cs, k - 1, f), f(cs[k - 1]), lo);
    }
}

proof fn lemma_sources_rels_from(
    cs: Seq<SyntaxNode>,
    k: int,
    start: int,
    g: spec_fn(SyntaxNode, int) -> Seq<SymbolView>,
    f: spec_fn(SyntaxNode, int) -> Seq<RelationshipView>,
)
    requires
        forall|c: SyntaxNode, j: int| j >= start ==> #[trigger] sources_from(f(c, j), start),
    ensures
        sources_from(rels_from(cs, k, start, g, f), start),
    decreases k,
{
    if k > 0 && k <= cs.len() {
        lemma_sources_rels_from(cs, k - 1, start, g, f);
        let j = start + symbols_from(cs, k - 1, start, g).len();
        assert(sources_from(f(cs[k - 1], j), start));
        lemma_sources_concat(rels_from(cs, k - 1, start, g, f), f(cs[k - 1], j), start);
    }
}

proof fn lemma_sources_weaken(rs: Seq<RelationshipView>, lo: int, lo2: int)
    requires
        sources_from(rs, lo2),
        lo <= lo2,
    ensures
        sources_from(rs, lo),
{
}

proof fn lemma_calls_from(n: SyntaxNode, source: Seq<u8>, id: int)
    ensures
        sources_from(py_calls(n, source, id), id),
    decreases depth(n), n.children@.len() + 1,
{
    lemma_calls_in_from(n, source, id, n.children@.len() as int);
    let own = match python_call_name(n, source) {
        Some(name) => if name.len() > 0 {
            seq![rel(id, name, RelationshipKind::Calls)]
        } else {
            Seq::empty()
        },
        None => Seq::empty(),
    };
    assert(sources_from(own, id)) by {
        if own.len() > 0 {
            assert(own[0].source_local_id == id);
        }
    }
    lemma_sources_concat(own, py_calls_in(n, source, id, n.children@.len() as int), id);
}

proof fn lemma_calls_in_from(n: SyntaxNode, source: Seq<u8>, id: int, k: int)
    ensures
        sources_from(py_calls_in(n, source, id, k), id),
    decreases depth(n), k,
{
    if k > 0 && k <= n.children@.len() {
        lemma_child_depth(n, k - 1);
        lemma_calls_in_from(n, source, id, k - 1);
        lemma_calls_from(n.children@[k - 1], source, id);
        lemma_sources_concat(py_calls_in(n, source, id, k - 1), py_calls(n.children@[k - 1], source, id), id);
    }
}

proof fn lemma_user_type_rels_from(names: Seq<Seq<char>>, id: int, k: int)
    ensures
        sources_from(py_user_type_rels(names, id, k), id),
    decreases k,
{
    if k > 0 && k <= names.len() {
        lemma_user_type_rels_from(names, id, k - 1);
        let x = if python_user_type(names[k - 1]) {
            seq![rel(id, names[k - 1], RelationshipKind::FieldType)]
        } else {
            Seq::empty()
        };
        assert(sources_from(x, id)) by {
            if x.len() > 0 {
                assert(x[0].source_local_id == id);
            }
        }
        lemma_sources_concat(py_user_type_rels(names, id, k - 1), x, id);
    }
}

proof fn lemma_annotation_rels_from(tn: SyntaxNode, source: Seq<u8>, id: int)
    ensures
        sources_from(py_annotation_rels(tn, source, id), id),
{
    let names = py_type_names(tn, source);
    lemma_user_type_rels_from(names, id, names.len() as int);
}

proof fn lemma_function_rels_from(n: SyntaxNode, source: Seq<u8>, id: int)
    ensures
        sources_from(py_function_rels(n, source, id), id),
{
    if field_text(n, "name"@, source) is Some {
        let a = match field_child(n, "parameters"@) {
            Some(p) => {
                let f = py_param_fn(source, id);
                assert forall|c: SyntaxNode| #[trigger] sources_from(f(c), id) by {
                    match field_child(c, "type"@) {
                        Some(tn) => lemma_annotation_rels_from(tn, source, id),
                        None => {},
                    }
                }
                lemma_sources_rels_over(p.children@, p.children@.len() as int, f, id);
                rels_over(p.children@, p.children@.len() as int, f)
            },
            None => Seq::empty(),
        };
        let b = match field_child(n, "return_type"@) {
            Some(rt) => {
                lemma_annotation_rels_from(rt, source, id);
                py_annotation_rels(rt, source, id)
            },
            None => Seq::empty(),
        };
        let c = match field_child(n, "body"@) {
            Some(bd) => {
                lemma_calls_from(bd, source, id);
                py_calls(bd, source, id)
            },
            None => Seq::empty(),
        };
        lemma_sources_concat(a, b, id);
        lemma_sources_concat(a + b, c, id);
    }
}

proof fn lemma_assignment_rels_from(cs: Seq<SyntaxNode>, source: Seq<u8>, class_id: int, qn: Seq<char>, start: int, k: int)
    ensures
        sources_from(rels_from(cs, k, start, py_assignment_fn(source, class_id, qn), py_assignment_rels_fn(source)), start),
{
    let f = py_assignment_rels_fn(source);
    assert forall|c: SyntaxNode, j: int| j >= start implies #[trigger] sources_from(f(c, j), start) by {
        if kind_is(c, "assignment"@) && py_field_symbols(c, source, 0, Seq::empty(), j).len() > 0 {
            match field_child(c, "type"@) {
                Some(tn) => {
                    lemma_annotation_rels_from(tn, source, j);
                    lemma_sources_weaken(py_annotation_rels(tn, source, j), start, j);
                },
                None => {},
            }
        }
    }
    lemma_sources_rels_from(cs, k, start, py_assignment_fn(source, class_id, qn), f);
}

proof fn lemma_annotated_rels_from(names: Seq<Seq<char>>, id: int, k: int)
    ensures
        sources_from(py_annotated_rels(names, id, k), id),
    decreases k,
{
    if k > 0 && k <= names.len() {
        lemma_annotated_rels_from(names, id, k - 1);
        let x = seq![rel(id, names[k - 1], RelationshipKind::AnnotatedBy)];
        assert(x[0].source_local_id == id);
        lemma_sources_concat(py_annotated_rels(names, id, k - 1), x, id);
    }
}

/// The relationships of a named class start at the class: each comes from the class or one
/// of the symbols after it (its members and nested classes).
pub proof fn law_class_relationships_start_at_class(
    n: SyntaxNode,
    source: Seq<u8>,
    parent: Option<int>,
    parent_name: Seq<char>,
    id: int,
)
    ensures
        sources_from(py_class_rels(n, source, parent, parent_name, id), id),
    decreases depth(n), 2int,
{
    match field_text(n, "name"@, source) {
        Some(name) => {
            let qn = python_qualify(parent_name, name);
            let a = match field_child(n, "superclasses"@) {
                Some(sc) => {
                    let f = py_super_fn(source, id);
                    assert forall|c: SyntaxNode| #[trigger] sources_from(f(c), id) by {
                        if f(c).len() > 0 {
                            assert(f(c)[0].source_local_id == id);
                        }
                    }
                    lemma_sources_rels_over(sc.children@, sc.children@.len() as int, f, id);
                    rels_over(sc.children@, sc.children@.len() as int, f)
                },
                None => Seq::empty(),
            };
            let b = match field_child(n, "body"@) {
                Some(bd) => {
                    lemma_field_child_depth(n, "body"@);
                    lemma_body_rels_from(bd, source, id, qn, id + 1, bd.children@.len() as int);
                    lemma_sources_weaken(py_body_rels(bd, source, id, qn, id + 1, bd.children@.len() as int), id, id + 1);
                    py_body_rels(bd, source, id, qn, id + 1, bd.children@.len() as int)
                },
                None => Seq::empty(),
            };
            lemma_sources_concat(a, b, id);
        },
        None => {},
    }
}

proof fn lemma_body_rels_from(body: SyntaxNode, source: Seq<u8>, class_id: int, qn: Seq<char>, start: int, k: int)
    ensures
        sources_from(py_body_rels(body, source, class_id, qn, start, k), start),
    decreases depth(body), k,
{
    if k > 0 && k <= body.children@.len() {
        lemma_child_depth(body, k - 1);
        lemma_body_rels_from(body, source, class_id, qn, start, k - 1);
        let j = start + py_body_symbols(body, source, class_id, qn, start, k - 1).len();
        lemma_member_rels_from(body.children@[k - 1], source, class_id, qn, j);
        lemma_sources_weaken(py_member_rels(body.children@[k - 1], source, class_id, qn, j), start, j);
        lemma_sources_concat(
            py_body_rels(body, source, class_id, qn, start, k - 1),
            py_member_rels(body.children@[k - 1], source, class_id, qn, j),
            start,
        );
    }
}

proof fn lemma_decorated_rels_from(n: SyntaxNode, source: Seq<u8>, class_id: int, qn: Seq<char>, id: int)
    ensures
        sources_from(py_decorated_rels(n, source, Some(class_id), qn, id), id),
    decreases depth(n), 4int,
{
    match field_child(n, "definition"@) {
        Some(d) => {
            lemma_field_child_depth(n, "definition"@);
            if kind_is(d, "class_definition"@) {
                law_class_relationships_start_at_class(d, source, Some(class_id), qn, id);
            } else if kind_is(d, "function_definition"@) {
                lemma_function_rels_from(d, source, id);
            }
            let own = if kind_is(d, "class_definition"@) {
                py_class_rels(d, source, Some(class_id), qn, id)
            } else if kind_is(d, "function_definition"@) {
                py_function_rels(d, source, id)
            } else {
                Seq::empty()
            };
            let names = py_decorators(n.children@, source, n.children@.len() as int);
            lemma_annotated_rels_from(names, id, names.len() as int);
            let tail = if py_decorated_symbols(n, source, Some(class_id), qn, id).len() > 0 {
                py_annotated_rels(names, id, names.len() as int)
            } else {
                Seq::empty()
            };
            lemma_sources_concat(own, tail, id);
        },
        None => {},
    }
}

proof fn lemma_member_rels_from(c: SyntaxNode, source: Seq<u8>, class_id: int, qn: Seq<char>, id: int)
    ensures
        sources_from(py_member_rels(c, source, class_id, qn, id), id),
    decreases depth(c), 5int,
{
    if kind_is(c, "function_definition"@) {
        lemma_function_rels_from(c, source, id);
    } else if kind_is(c, "decorated_definition"@) {
        lemma_decorated_rels_from(c, source, class_id, qn, id);
    } else if kind_is(c, "class_definition"@) {
        law_class_relationships_start_at_class(c, source, Some(class_id), qn, id);
    } else if kind_is(c, "expression_statement"@) {
        lemma_assignment_rels_from(c.children@, source, class_id, qn, id, c.children@.len() as int);
    }
}

// ---------------------------------------------------------------------------------------------
// The relationships of a file
// ---------------------------------------------------------------------------------------------

/// The relationships of a file, in the order of its top-level statements.
pub open spec fn python_relationships(root: SyntaxNode, source: Seq<u8>) -> Seq<RelationshipView> {
    rels_from(root.children@, root.children@.len() as int, 0, py_top_fn(source), py_top_rels_fn(source))
}

pub open spec fn py_top_rels_fn(source: Seq<u8>) -> spec_fn(SyntaxNode, int) -> Seq<RelationshipView> {
    |c: SyntaxNode, id: int| py_top_rels(c, source, id)
}

/// The relationships of a top-level statement whose symbols are numbered from `id`.
pub open spec fn py_top_rels(c: SyntaxNode, source: Seq<u8>, id: int) -> Seq<RelationshipView> {
    if kind_is(c, "class_definition"@) {
        py_class_rels(c, source, None, Seq::empty(), id)
    } else if kind_is(c, "function_definition"@) {
        py_function_rels(c, source, id)
    } else if kind_is(c, "decorated_definition"@) {
        py_decorated_rels(c, source, None, Seq::empty(), id)
    } else {
        Seq::empty()
    }
}

/// The names in a type annotation, in order: names and dotted names, looked for through
/// `type`, generic, subscript and `|` nodes.
pub open spec fn py_type_names(n: SyntaxNode, source: Seq<u8>) -> Seq<Seq<char>>
    decreases depth(n), n.children@.len() + 1,
{
    if kind_is(n, "identifier"@) || kind_is(n, "attribute"@) {
        match node_text(n, source) {
            Some(s) => seq![s],
            None => Seq::empty(),
        }
    } else if kind_is(n, "type"@) || kind_is(n, "generic_type"@) || kind_is(n, "subscript"@) || kind_is(
        n,
        "binary_operator"@,
    ) {
        py_type_names_in(n, source, n.children@.len() as int)
    } else {
        Seq::empty()
    }
}

/// The names in the first `k` children of a node.
pub open spec fn py_type_names_in(n: SyntaxNode, source: Seq<u8>, k: int) -> Seq<Seq<char>>
    decreases depth(n), k,
{
    if k <= 0 || k > n.children@.len() {
        Seq::empty()
    } else {
        proof {
            lemma_child_depth(n, k - 1);
        }
        py_type_names_in(n, source, k - 1) + py_type_names(n.children@[k - 1], source)
    }
}

/// A `field-type` relationship of `id` to each of the first `k` names that is a user type.
pub open spec fn py_user_type_rels(names: Seq<Seq<char>>, id: int, k: int) -> Seq<RelationshipView>
    decreases k,
{
    if k <= 0 || k > names.len() {
        Seq::empty()
    } else {
        py_user_type_rels(names, id, k - 1) + if python_user_type(names[k - 1]) {
            seq![rel(id, names[k - 1], RelationshipKind::FieldType)]
        } else {
            Seq::empty()
        }
    }
}

/// The user types named in a type annotation, as `field-type` relationships of `id`.
pub open spec fn py_annotation_rels(tn: SyntaxNode, source: Seq<u8>, id: int) -> Seq<RelationshipView> {
    let names = py_type_names(tn, source);
    py_user_type_rels(names, id, names.len() as int)
}

pub open spec fn py_param_fn(source: Seq<u8>, id: int) -> spec_fn(SyntaxNode) -> Seq<RelationshipView> {
    |c: SyntaxNode|
        if kind_is(c, "typed_parameter"@) || kind_is(c, "typed_default_parameter"@) {
            let receiver = match field_text(c, "name"@, source) {
                Some(p) => is_receiver_name(p),
                None => false,
            };
            if !receiver {
                match field_child(c, "type"@) {
                    Some(tn) => py_annotation_rels(tn, source, id),
                    None => Seq::empty(),
                }
            } else {
                Seq::empty()
            }
        } else {
            Seq::empty()
        }
}

/// Every call with a non-empty name in a subtree, in document order, as a `calls`
/// relationship of `id`.
pub open spec fn py_calls(n: SyntaxNode, source: Seq<u8>, id: int) -> Seq<RelationshipView>
    decreases depth(n), n.children@.len() + 1,
{
    (match python_call_name(n, source) {
        Some(name) => if name.len() > 0 {
            seq![rel(id, name, RelationshipKind::Calls)]
        } else {
            Seq::empty()
        },
        None => Seq::empty(),
    }) + py_calls_in(n, source, id, n.children@.len() as int)
}

/// The calls in the first `k` children of a node.
pub open spec fn py_calls_in(n: SyntaxNode, source: Seq<u8>, id: int, k: int) -> Seq<RelationshipView>
    decreases depth(n), k,
{
    if k <= 0 || k > n.children@.len() {
        Seq::empty()
    } else {
        proof {
            lemma_child_depth(n, k - 1);
        }
        py_calls_in(n, source, id, k - 1) + py_calls(n.children@[k - 1], source, id)
    }
}

/// The relationships of a named function `id`: the annotated types of its parameters and its
/// return type, then its calls.
pub open spec fn py_function_rels(n: SyntaxNode, source: Seq<u8>, id: int) -> Seq<RelationshipView> {
    match field_text(n, "name"@, source) {
        Some(_) => (match field_child(n, "parameters"@) {
            Some(p) => rels_over(p.children@, p.children@.len() as int, py_param_fn(source, id)),
            None => Seq::empty(),
        }) + (match field_child(n, "return_type"@) {
            Some(rt) => py_annotation_rels(rt, source, id),
            None => Seq::empty(),
        }) + (match field_child(n, "body"@) {
            Some(b) => py_calls(b, source, id),
            None => Seq::empty(),
        }),
        None => Seq::empty(),
    }
}

/// The relationships of a class field `id`: the user types of its annotation.
pub open spec fn py_field_rels(n: SyntaxNode, source: Seq<u8>, id: int) -> Seq<RelationshipView> {
    if py_field_symbols(n, source, 0, Seq::empty(), id).len() > 0 {
        match field_child(n, "type"@) {
            Some(tn) => py_annotation_rels(tn, source, id),
            None => Seq::empty(),
        }
    } else {
        Seq::empty()
    }
}

pub open spec fn py_assignment_rels_fn(source: Seq<u8>) -> spec_fn(SyntaxNode, int) -> Seq<RelationshipView> {
    |d: SyntaxNode, id: int|
        if kind_is(d, "assignment"@) {
            py_field_rels(d, source, id)
        } else {
            Seq::empty()
        }
}

pub open spec fn py_super_fn(source: Seq<u8>, id: int) -> spec_fn(SyntaxNode) -> Seq<RelationshipView> {
    |c: SyntaxNode|
        if kind_is(c, "identifier"@) || kind_is(c, "attribute"@) {
            match node_text(c, source) {
                Some(b) => seq![rel(id, b, RelationshipKind::Extends)],
                None => Seq::empty(),
            }
        } else {
            Seq::empty()
        }
}

/// The names of the decorators among the first `k` children of a decorated definition.
pub open spec fn py_decorators(cs: Seq<SyntaxNode>, source: Seq<u8>, k: int) -> Seq<Seq<char>>
    decreases k,
{
    if k <= 0 || k > cs.len() {
        Seq::empty()
    } else {
        let prev = py_decorators(cs, source, k - 1);
        if kind_is(cs[k - 1], "decorator"@) {
            match python_decorator_name(cs[k - 1], source) {
                Some(name) => prev.push(name),
                None => prev,
            }
        } else {
            prev
        }
    }
}

/// An `annotated-by` relationship of `id` to each of the first `k` decorator names.
pub open spec fn py_annotated_rels(names: Seq<Seq<char>>, id: int, k: int) -> Seq<RelationshipView>
    decreases k,
{
    if k <= 0 || k > names.len() {
        Seq::empty()
    } else {
        py_annotated_rels(names, id, k - 1) + seq![rel(id, names[k - 1], RelationshipKind::AnnotatedBy)]
    }
}

/// The relationships of a decorated definition: those of the class or function, then, where
/// that gave a symbol, an `annotated-by` relationship from it to each decorator.
pub open spec fn py_decorated_rels(
    n: SyntaxNode,
    source: Seq<u8>,
    parent: Option<int>,
    parent_name: Seq<char>,
    id: int,
) -> Seq<RelationshipView>
    decreases depth(n), 1int,
{
    match field_child(n, "definition"@) {
        Some(d) => {
            proof {
                lemma_field_child_depth(n, "definition"@);
            }
            let own = if kind_is(d, "class_definition"@) {
                py_class_rels(d, source, parent, parent_name, id)
            } else if kind_is(d, "function_definition"@) {
                py_function_rels(d, source, id)
            } else {
                Seq::empty()
            };
            let names = py_decorators(n.children@, source, n.children@.len() as int);
            own + if py_decorated_symbols(n, source, parent, parent_name, id).len() > 0 {
                py_annotated_rels(names, id, names.len() as int)
            } else {
                Seq::empty()
            }
        },
        None => Seq::empty(),
    }
}

/// The relationships of a named class `id`: its base classes as `extends`, then those of its
/// body.
pub open spec fn py_class_rels(
    n: SyntaxNode,
    source: Seq<u8>,
    parent: Option<int>,
    parent_name: Seq<char>,
    id: int,
) -> Seq<RelationshipView>
    decreases depth(n), 2int,
{
    match field_text(n, "name"@, source) {
        Some(name) => {
            let qn = python_qualify(parent_name, name);
            (match field_child(n, "superclasses"@) {
                Some(sc) => rels_over(sc.children@, sc.children@.len() as int, py_super_fn(source, id)),
                None => Seq::empty(),
            }) + match field_child(n, "body"@) {
                Some(b) => {
                    proof {
                        lemma_field_child_depth(n, "body"@);
                    }
                    py_body_rels(b, source, id, qn, id + 1, b.children@.len() as int)
                },
                None => Seq::empty(),
            }
        },
        None => Seq::empty(),
    }
}

/// The relationships of the first `k` statements of a class body whose symbols are numbered
/// from `start`.
pub open spec fn py_body_rels(
    body: SyntaxNode,
    source: Seq<u8>,
    class_id: int,
    qn: Seq<char>,
    start: int,
    k: int,
) -> Seq<RelationshipView>
    decreases depth(body), k,
{
    if k <= 0 || k > body.children@.len() {
        Seq::empty()
    } else {
        proof {
            lemma_child_depth(body, k - 1);
        }
        py_body_rels(body, source, class_id, qn, start, k - 1) + py_member_rels(
            body.children@[k - 1],
            source,
            class_id,
            qn,
            start + py_body_symbols(body, source, class_id, qn, start, k - 1).len(),
        )
    }
}

/// The relationships of one statement of a class body whose symbols are numbered from `id`.
pub open spec fn py_member_rels(c: SyntaxNode, source: Seq<u8>, class_id: int, qn: Seq<char>, id: int) -> Seq<
    RelationshipView,
>
    decreases depth(c), 3int,
{
    if kind_is(c, "function_definition"@) {
        py_function_rels(c, source, id)
    } else if kind_is(c, "decorated_definition"@) {
        py_decorated_rels(c, source, Some(class_id), qn, id)
    } else if kind_is(c, "class_definition"@) {
        py_class_rels(c, source, Some(class_id), qn, id)
    } else if kind_is(c, "expression_statement"@) {
        rels_from(c.children@, c.children@.len() as int, id, py_assignment_fn(source, class_id, qn), py_assignment_rels_fn(source))
    } else {
        Seq::empty()
    }
}

/// One statement at the top level: a class, a function, or a decorated definition.
fn extract_top_level(
    node: &SyntaxNode,
    source: &[u8],
    symbols: &mut Vec<ExtractedSymbol>,
    relationships: &mut Vec<ExtractedRelationship>,
)
    requires
        symbols_wf(old(symbols)@),
        relationships_wf(old(relationships)@, old(symbols)@.len()),
    ensures
        grew(old(symbols)@, final(symbols)@),
        symbols_wf(final(symbols)@),
        relationships_wf(final(relationships)@, final(symbols)@.len()),
        symbols_view(final(symbols)@) == symbols_view(old(symbols)@) + py_top_symbols(
            *node,
            source@,
            old(symbols)@.len() as int,
        ),
        relationships_view(final(relationships)@) == relationships_view(old(relationships)@) + py_top_rels(
            *node,
            source@,
            old(symbols)@.len() as int,
        ),
{
    proof {
        assert(symbols_view(symbols@) + Seq::<SymbolView>::empty() =~= symbols_view(symbols@));
        assert(relationships_view(relationships@) + Seq::<RelationshipView>::empty() =~= relationships_view(relationships@));
        reveal_strlit("");
        assert(""@ =~= Seq::<char>::empty());
    }
    if node.is_kind("class_definition") {
        extract_class_core(node, source, None, "", symbols, relationships);
    } else if node.is_kind("function_definition") {
        extract_function(node, source, None, "", symbols, relationships);
    } else if node.is_kind("decorated_definition") {
        extract_decorated(node, source, None, "", symbols, relationships);
    }
}

/// Python's naming conventions: dunder names are public, `__x` private, `_x` protected, the
/// rest public.
pub open spec fn python_visibility(name: Seq<char>) -> Seq<char> {
    if is_prefix("__"@, name) && is_suffix("__"@, name) {
        "public"@
    } else if is_prefix("__"@, name) {
        "private"@
    } else if is_prefix("_"@, name) {
        "protected"@
    } else {
        "public"@
    }
}

/// The visibility of a name.
pub fn visibility_from_name(name: &str) -> (r: Visibility)
    ensures
        r.0@ == python_visibility(name@),
{
    if starts_with(name, "__") && ends_with(name, "__") {
        Visibility::new("public")
    } else if starts_with(name, "__") {
        Visibility::new("private")
    } else if starts_with(name, "_") {
        Visibility::new("protected")
    } else {
        Visibility::new("public")
    }
}

/// Whether a type name is user-defined: its last dotted part starts with an uppercase letter.
pub open spec fn python_user_type(name: Seq<char>) -> bool {
    starts_upper(after_last(name, '.'))
}

/// Whether a type name is user-defined.
pub fn is_user_type(name: &str) -> (r: bool)
    ensures
        r == python_user_type(name@),
{
    let base = suffix_after_last(name, '.');
    starts_with_uppercase(base.as_str())
}

/// What a decorator gives at one child: the text of a name or dotted name, or the function
/// of a call; `None` to look further.
pub open spec fn decorator_part(c: SyntaxNode, source: Seq<u8>) -> Option<Option<Seq<char>>> {
    if kind_is(c, "identifier"@) || kind_is(c, "attribute"@) {
        Some(node_text(c, source))
    } else if kind_is(c, "call"@) {
        match field_child(c, "function"@) {
            Some(f) => Some(node_text(f, source)),
            None => None,
        }
    } else {
        None
    }
}

pub open spec fn decorator_part_fn(source: Seq<u8>) -> spec_fn(SyntaxNode) -> Option<Option<Seq<char>>> {
    |c: SyntaxNode| decorator_part(c, source)
}

/// The name of a decorator.
pub open spec fn python_decorator_name(n: SyntaxNode, source: Seq<u8>) -> Option<Seq<char>> {
    match first_some_from(n.children@, decorator_part_fn(source), 0) {
        Some(t) => t,
        None => None,
    }
}

/// The name of a decorator.
pub fn extract_decorator_name(node: &SyntaxNode, source: &[u8]) -> (r: Option<String>)
    ensures
        opt_view(r) == python_decorator_name(*node, source@),
{
    let ghost f = decorator_part_fn(source@);
    let mut i: usize = 0;
    while i < node.children.len()
        invariant
            i <= node.children.len(),
            f == decorator_part_fn(source@),
            first_some_from(node.children@, f, 0) == first_some_from(node.children@, f, i as int),
        decreases node.children.len() - i,
    {
        let c = &node.children[i];
        if c.is_kind("identifier") || c.is_kind("attribute") {
            return text(c, source);
        } else if c.is_kind("call") {
            match c.child_by_field_name("function") {
                Some(func) => {
                    return text(func, source);
                },
                None => {},
            }
        }
        i = i + 1;
    }
    None
}

/// A decorator that calls a function, `@f(args)`, is named by the called function `f` alone,
/// never by the text of the call: it has the name of the bare decorator `@f`, whose tree holds
/// `f` where the other holds the call, and is alike elsewhere.
pub proof fn law_called_decorator_named_by_function(called: SyntaxNode, bare: SyntaxNode, i: int, source: Seq<u8>)
    requires
        called.children@.len() == bare.children@.len(),
        0 <= i < called.children@.len(),
        forall|j: int| 0 <= j < called.children@.len() && j != i ==> called.children@[j] == bare.children@[j],
        kind_is(called.children@[i], "call"@),
        field_child(called.children@[i], "function"@) == Some(bare.children@[i]),
        kind_is(bare.children@[i], "identifier"@) || kind_is(bare.children@[i], "attribute"@),
    ensures
        python_decorator_name(called, source) == python_decorator_name(bare, source),
        decorator_part(called.children@[i], source) == Some(node_text(bare.children@[i], source)),
{
    let f = decorator_part_fn(source);
    let c = called.children@[i];
    assert(!kind_is(c, "identifier"@) && !kind_is(c, "attribute"@)) by {
        reveal_strlit("call");
        reveal_strlit("identifier");
        reveal_strlit("attribute");
        assert("call"@[0] != "identifier"@[0]);
        assert("call"@[0] != "attribute"@[0]);
    }
    assert forall|j: int| 0 <= j < called.children@.len() implies f(#[trigger] called.children@[j]) == f(
        bare.children@[j],
    ) by {
        if j != i {
            assert(called.children@[j] == bare.children@[j]);
        }
    }
    lemma_first_some_agree(called.children@, bare.children@, f, f, 0);
}

/// A decorated definition: the class or function, and an `annotated-by` relationship from it
/// to each decorator.
fn extract_decorated(
    node: &SyntaxNode,
    source: &[u8],
    parent_local_id: Option<usize>,
    parent_name: &str,
    symbols: &mut Vec<ExtractedSymbol>,
    relationships: &mut Vec<ExtractedRelationship>,
)
    requires
        symbols_wf(old(symbols)@),
        relationships_wf(old(relationships)@, old(symbols)@.len()),
        parent_local_id matches Some(p) ==> p < old(symbols)@.len(),
    ensures
        grew(old(symbols)@, final(symbols)@),
        symbols_wf(final(symbols)@),
        relationships_wf(final(relationships)@, final(symbols)@.len()),
        symbols_view(final(symbols)@) == symbols_view(old(symbols)@) + py_decorated_symbols(
            *node,
            source@,
            opt_id(parent_local_id),
            parent_name@,
            old(symbols)@.len() as int,
        ),
        relationships_view(final(relationships)@) == relationships_view(old(relationships)@) + py_decorated_rels(
            *node,
            source@,
            opt_id(parent_local_id),
            parent_name@,
            old(symbols)@.len() as int,
        ),
    decreases depth(*node), 0int,
{
    proof {
        assert(symbols_view(symbols@) + Seq::<SymbolView>::empty() =~= symbols_view(symbols@));
        assert(relationships_view(relationships@) + Seq::<RelationshipView>::empty() =~= relationships_view(relationships@));
    }
    let ghost r0 = relationships_view(old(relationships)@);
    let ghost v0 = symbols_view(old(symbols)@);
    let mut decorators: Vec<String> = Vec::new();
    let mut i: usize = 0;
    proof {
        assert(views(decorators@) =~= py_decorators(node.children@, source@, 0));
    }
    while i < node.children.len()
        invariant
            i <= node.children.len(),
            views(decorators@) == py_decorators(node.children@, source@, i as int),
        decreases node.children.len() - i,
    {
        let c = &node.children[i];
        if c.is_kind("decorator") {
            match extract_decorator_name(c, source) {
                Some(name) => {
                    proof {
                        assert(views(decorators@.push(name)) =~= views(decorators@).push(name@));
                    }
                    decorators.push(name);
                },
                None => {},
            }
        }
        i = i + 1;
    }
    let ghost names = views(decorators@);
    let def = match node.child_by_field_name("definition") {
        Some(d) => d,
        None => return,
    };
    proof {
        lemma_field_child_depth(*node, "definition"@);
    }
    let pre_len = symbols.len();
    if def.is_kind("class_definition") {
        extract_class_core(def, source, parent_local_id, parent_name, symbols, relationships);
    } else if def.is_kind("function_definition") {
        extract_function(def, source, parent_local_id, parent_name, symbols, relationships);
    }
    let ghost s2 = symbols@;
    let ghost own = relationships_view(relationships@);
    proof {
        assert(symbols_view(s2).len() == s2.len());
        assert(v0.len() == pre_len);
    }
    if symbols.len() > pre_len {
        let id = symbols[pre_len].local_id;
        proof {
            assert(id == pre_len);
            assert(own + py_annotated_rels(names, id as int, 0) =~= own);
        }
        let mut j: usize = 0;
        while j < decorators.len()
            invariant
                j <= decorators.len(),
                id < symbols@.len(),
                symbols@ == s2,
                grew(old(symbols)@, symbols@),
                symbols_wf(symbols@),
                relationships_wf(relationships@, symbols@.len()),
                names == views(decorators@),
                relationships_view(relationships@) == own + py_annotated_rels(names, id as int, j as int),
            decreases decorators.len() - j,
        {
            let r = relationship(id, decorators[j].clone(), RelationshipKind::AnnotatedBy);
            proof {
                lemma_relationships_view_push(relationships@, r);
                let p = py_annotated_rels(names, id as int, j as int);
                assert(names[j as int] == decorators@[j as int]@);
                assert((own + p) + seq![relationship_view(r)] =~= own + (p + seq![relationship_view(r)]));
            }
            relationships.push(r);
            j = j + 1;
        }
    } else {
        proof {
            assert(own + Seq::<RelationshipView>::empty() =~= own);
        }
    }
}

/// A child under a field is less deep than its parent.
pub proof fn lemma_field_child_depth(n: SyntaxNode, f: Seq<char>)
    ensures
        field_child(n, f) matches Some(c) ==> depth(c) < depth(n),
{
    crate::syntax::lemma_field_index_from(n.children@, f, 0);
    match crate::syntax::field_index_from(n.children@, f, 0) {
        Some(i) => lemma_child_depth(n, i),
        None => {},
    }
}

/// A name qualified by its parent's name, where there is one.
pub open spec fn python_qualify(parent_name: Seq<char>, name: Seq<char>) -> Seq<char> {
    if parent_name.len() == 0 {
        name
    } else {
        parent_name + "."@ + name
    }
}

fn qualify(parent_name: &str, name: &str) -> (r: String)
    ensures
        r@ == python_qualify(parent_name@, name@),
{
    if parent_name.is_empty() {
        name.to_string()
    } else {
        dotted(parent_name, name)
    }
}

/// The qualified name of a class below `parent_name`.
pub open spec fn py_class_qn(n: SyntaxNode, source: Seq<u8>, parent_name: Seq<char>) -> Seq<char> {
    python_qualify(parent_name, field_text(n, "name"@, source)->0)
}

/// A class: its symbol, its base classes as `extends`, and the methods, nested classes and
/// annotated fields of its body. A named class comes first, each symbol after it hangs below
/// it or a class nested in it with a qualified name below the class's, and every new
/// relationship comes from the class or a symbol after it.
pub fn extract_class(
    node: &SyntaxNode,
    source: &[u8],
    parent_local_id: Option<usize>,
    parent_name: &str,
    symbols: &mut Vec<ExtractedSymbol>,
    relationships: &mut Vec<ExtractedRelationship>,
)
    requires
        symbols_wf(old(symbols)@),
        relationships_wf(old(relationships)@, old(symbols)@.len()),
        parent_local_id matches Some(p) ==> p < old(symbols)@.len(),
    ensures
        grew(old(symbols)@, final(symbols)@),
        symbols_wf(final(symbols)@),
        relationships_wf(final(relationships)@, final(symbols)@.len()),
        symbols_view(final(symbols)@) == symbols_view(old(symbols)@) + py_class_symbols(
            *node,
            source@,
            opt_id(parent_local_id),
            parent_name@,
            old(symbols)@.len() as int,
        ),
        relationships_view(final(relationships)@) == relationships_view(old(relationships)@) + py_class_rels(
            *node,
            source@,
            opt_id(parent_local_id),
            parent_name@,
            old(symbols)@.len() as int,
        ),
        ({
            let n0 = old(symbols)@.len() as int;
            let added = symbols_view(final(symbols)@).skip(n0);
            let qn = py_class_qn(*node, source@, parent_name@);
            field_text(*node, "name"@, source@) is Some && qn.len() > 0 ==> {
                &&& added.len() >= 1
                &&& added[0].local_id == n0
                &&& added[0].parent_local_id == opt_id(parent_local_id)
                &&& added[0].qualified_name == qn
                &&& hangs_below(added.skip(1), n0 + 1, n0, qn + "."@)
            }
        }),
        sources_from(
            relationships_view(final(relationships)@).skip(old(relationships)@.len() as int),
            old(symbols)@.len() as int,
        ),
{
    let ghost v0 = symbols_view(symbols@);
    let ghost r0 = relationships_view(relationships@);
    let ghost n0 = symbols@.len() as int;
    extract_class_core(node, source, parent_local_id, parent_name, symbols, relationships);
    proof {
        let cs = py_class_symbols(*node, source@, opt_id(parent_local_id), parent_name@, n0);
        let cr = py_class_rels(*node, source@, opt_id(parent_local_id), parent_name@, n0);
        assert(v0.len() == n0);
        assert(symbols_view(symbols@).skip(n0) =~= cs);
        assert(relationships_view(relationships@).skip(r0.len() as int) =~= cr);
        law_class_relationships_start_at_class(*node, source@, opt_id(parent_local_id), parent_name@, n0);
        match field_text(*node, "name"@, source@) {
            Some(name) => {
                if python_qualify(parent_name@, name).len() > 0 {
                    law_class_members_hang_below(*node, source@, opt_id(parent_local_id), parent_name@, n0);
                }
            },
            None => {},
        }
    }
}

fn extract_class_core(
    node: &SyntaxNode,
    source: &[u8],
    parent_local_id: Option<usize>,
    parent_name: &str,
    symbols: &mut Vec<ExtractedSymbol>,
    relationships: &mut Vec<ExtractedRelationship>,
)
    requires
        symbols_wf(old(symbols)@),
        relationships_wf(old(relationships)@, old(symbols)@.len()),
        parent_local_id matches Some(p) ==> p < old(symbols)@.len(),
    ensures
        grew(old(symbols)@, final(symbols)@),
        symbols_wf(final(symbols)@),
        relationships_wf(final(relationships)@, final(symbols)@.len()),
        symbols_view(final(symbols)@) == symbols_view(old(symbols)@) + py_class_symbols(
            *node,
            source@,
            opt_id(parent_local_id),
            parent_name@,
            old(symbols)@.len() as int,
        ),
        field_text(*node, "name"@, source@) is None ==> final(relationships)@ == old(relationships)@,
        relationships_view(final(relationships)@) == relationships_view(old(relationships)@) + py_class_rels(
            *node,
            source@,
            opt_id(parent_local_id),
            parent_name@,
            old(symbols)@.len() as int,
        ),
    decreases depth(*node), 1int,
{
    proof {
        assert(symbols_view(symbols@) + Seq::<SymbolView>::empty() =~= symbols_view(symbols@));
        assert(relationships_view(relationships@) + Seq::<RelationshipView>::empty() =~= relationships_view(relationships@));
    }
    let ghost r0 = relationships_view(old(relationships)@);
    let name = match field_text_of(node, "name", source) {
        Some(n) => n,
        None => return,
    };
    let qn = qualify(parent_name, name.as_str());
    let local_id = symbols.len();
    let vis = visibility_from_name(name.as_str());
    let mut sym = symbol_at(node, local_id, name, None, qn.clone(), "class", "public", parent_local_id, String::new(), None);
    sym.visibility = vis;
    proof {
        lemma_symbols_view_push(symbols@, sym);
    }
    symbols.push(sym);
    let ghost s1 = symbols@;
    let ghost hv = symbols_view(s1);
    let ghost sf = py_super_fn(source@, local_id as int);
    match node.child_by_field_name("superclasses") {
        Some(sc) => {
            let mut i: usize = 0;
            proof {
                lemma_rels_over_none(sc.children@, sf, r0);
            }
            while i < sc.children.len()
                invariant
                    i <= sc.children.len(),
                    local_id < symbols@.len(),
                    symbols@ == s1,
                    relationships_wf(relationships@, symbols@.len()),
                    sf == py_super_fn(source@, local_id as int),
                    relationships_view(relationships@) == r0 + rels_over(sc.children@, i as int, sf),
                decreases sc.children.len() - i,
            {
                let c = &sc.children[i];
                proof {
                    lemma_rels_over_next(sc.children@, i as int, sf, r0);
                }
                if c.is_kind("identifier") || c.is_kind("attribute") {
                    match text(c, source) {
                        Some(base) => {
                            let r = relationship(local_id, base, RelationshipKind::Extends);
                            proof {
                                lemma_relationships_view_push(relationships@, r);
                            }
                            relationships.push(r);
                        },
                        None => {},
                    }
                }
                i = i + 1;
            }
        },
        None => {
            proof {
                assert(r0 + Seq::<RelationshipView>::empty() =~= r0);
            }
        },
    }
    let ghost hr = relationships_view(relationships@);
    let ghost r1 = relationships@;
    match node.child_by_field_name("body") {
        Some(body) => {
            proof {
                lemma_field_child_depth(*node, "body"@);
                assert(hv + py_body_symbols(*body, source@, local_id as int, qn@, local_id + 1, 0) =~= hv);
                assert(hr + py_body_rels(*body, source@, local_id as int, qn@, local_id + 1, 0) =~= hr);
            }
            let mut i: usize = 0;
            while i < body.children.len()
                invariant
                    i <= body.children.len(),
                    depth(*body) < depth(*node),
                    local_id < s1.len(),
                    grew(s1, symbols@),
                    symbols_wf(symbols@),
                    relationships_wf(relationships@, symbols@.len()),
                    hv == symbols_view(s1),
                    s1.len() == local_id + 1,
                    symbols_view(symbols@) == hv + py_body_symbols(*body, source@, local_id as int, qn@, local_id + 1, i as int),
                    relationships_view(relationships@) == hr + py_body_rels(*body, source@, local_id as int, qn@, local_id + 1, i as int),
                decreases body.children.len() - i,
            {
                let child = &body.children[i];
                let ghost vb = symbols_view(symbols@);
                let ghost rb = relationships_view(relationships@);
                let ghost nb = symbols@.len() as int;
                let ghost prev = py_body_symbols(*body, source@, local_id as int, qn@, local_id + 1, i as int);
                let ghost prevr = py_body_rels(*body, source@, local_id as int, qn@, local_id + 1, i as int);
                proof {
                    lemma_child_depth(*body, i as int);
                    assert(vb.len() == nb);
                    assert(hv.len() == s1.len());
                    assert(*child == body.children@[i as int]);
                    assert(nb == local_id + 1 + prev.len());
                    assert(py_body_symbols(*body, source@, local_id as int, qn@, local_id + 1, i + 1) == prev
                        + py_member_symbols(*child, source@, local_id as int, qn@, nb));
                    assert(py_body_rels(*body, source@, local_id as int, qn@, local_id + 1, i + 1) == prevr
                        + py_member_rels(*child, source@, local_id as int, qn@, nb));
                }
                if child.is_kind("function_definition") {
                    extract_function(child, source, Some(local_id), qn.as_str(), symbols, relationships);
                } else if child.is_kind("decorated_definition") {
                    extract_decorated(child, source, Some(local_id), qn.as_str(), symbols, relationships);
                } else if child.is_kind("class_definition") {
                    extract_class_core(child, source, Some(local_id), qn.as_str(), symbols, relationships);
                } else if child.is_kind("expression_statement") {
                    let ghost g = py_assignment_fn(source@, local_id as int, qn@);
                    let ghost gr = py_assignment_rels_fn(source@);
                    let mut j: usize = 0;
                    proof {
                        lemma_symbols_from_none(child.children@, nb, g, vb);
                        lemma_rels_from_none(child.children@, nb, g, gr, rb);
                    }
                    while j < child.children.len()
                        invariant
                            j <= child.children.len(),
                            local_id < s1.len(),
                            grew(s1, symbols@),
                            symbols_wf(symbols@),
                            relationships_wf(relationships@, symbols@.len()),
                            g == py_assignment_fn(source@, local_id as int, qn@),
                            gr == py_assignment_rels_fn(source@),
                            vb.len() == nb,
                            symbols_view(symbols@) == vb + symbols_from(child.children@, j as int, nb, g),
                            relationships_view(relationships@) == rb + rels_from(child.children@, j as int, nb, g, gr),
                        decreases child.children.len() - j,
                    {
                        proof {
                            lemma_symbols_from_next(child.children@, j as int, nb, g, vb);
                            lemma_rels_from_next(child.children@, j as int, nb, g, gr, rb);
                        }
                        if child.children[j].is_kind("assignment") {
                            extract_class_field(&child.children[j], source, local_id, qn.as_str(), symbols, relationships);
                        }
                        j = j + 1;
                    }
                } else {
                    proof {
                        assert(vb + Seq::<SymbolView>::empty() =~= vb);
                        assert(rb + Seq::<RelationshipView>::empty() =~= rb);
                    }
                }
                proof {
                    let m = py_member_symbols(*child, source@, local_id as int, qn@, nb);
                    assert((hv + prev) + m =~= hv + (prev + m));
                    let mr = py_member_rels(*child, source@, local_id as int, qn@, nb);
                    assert((hr + prevr) + mr =~= hr + (prevr + mr));
                }
                i = i + 1;
            }
            proof {
                let b = py_body_symbols(*body, source@, local_id as int, qn@, local_id + 1, i as int);
                assert(hv + b =~= symbols_view(old(symbols)@) + (seq![symbol_view(sym)] + b));
                let br = py_body_rels(*body, source@, local_id as int, qn@, local_id + 1, i as int);
                let sr = match field_child(*node, "superclasses"@) {
                    Some(sc) => rels_over(sc.children@, sc.children@.len() as int, sf),
                    None => Seq::empty(),
                };
                assert(hr == r0 + sr);
                assert(hr + br =~= r0 + (sr + br));
            }
        },
        None => {
            proof {
                let sr = match field_child(*node, "superclasses"@) {
                    Some(sc) => rels_over(sc.children@, sc.children@.len() as int, sf),
                    None => Seq::empty(),
                };
                assert(hr == r0 + sr);
                assert(hr =~= r0 + (sr + Seq::<RelationshipView>::empty()));
            }
        },
    }
}

/// An assignment in a class body to a plain name: a `field` symbol with its annotated type,
/// and `field-type` relationships to the user types of that annotation.
fn extract_class_field(
    node: &SyntaxNode,
    source: &[u8],
    parent_local_id: usize,
    parent_name: &str,
    symbols: &mut Vec<ExtractedSymbol>,
    relationships: &mut Vec<ExtractedRelationship>,
)
    requires
        symbols_wf(old(symbols)@),
        parent_local_id < old(symbols)@.len(),
        relationships_wf(old(relationships)@, old(symbols)@.len()),
    ensures
        grew(old(symbols)@, final(symbols)@),
        symbols_wf(final(symbols)@),
        relationships_wf(final(relationships)@, final(symbols)@.len()),
        symbols_view(final(symbols)@) == symbols_view(old(symbols)@) + py_field_symbols(
            *node,
            source@,
            parent_local_id as int,
            parent_name@,
            old(symbols)@.len() as int,
        ),
        relationships_view(final(relationships)@) == relationships_view(old(relationships)@) + py_field_rels(
            *node,
            source@,
            old(symbols)@.len() as int,
        ),
{
    proof {
        assert(symbols_view(symbols@) + Seq::<SymbolView>::empty() =~= symbols_view(symbols@));
        assert(relationships_view(relationships@) + Seq::<RelationshipView>::empty() =~= relationships_view(relationships@));
    }
    let left = match node.child_by_field_name("left") {
        Some(l) => {
            if !l.is_kind("identifier") {
                return;
            }
            match text(l, source) {
                Some(t) => t,
                None => return,
            }
        },
        None => return,
    };
    let type_text = field_text_of(node, "type", source);
    let local_id = symbols.len();
    let qn = dotted(parent_name, left.as_str());
    let vis = visibility_from_name(left.as_str());
    let mut sym = symbol_at(node, local_id, left, None, qn, "field", "public", Some(parent_local_id), String::new(), type_text);
    sym.visibility = vis;
    proof {
        lemma_symbols_view_push(symbols@, sym);
    }
    symbols.push(sym);
    match node.child_by_field_name("type") {
        Some(tn) => extract_field_type_relationships(tn, source, local_id, relationships, Ghost(symbols@.len())),
        None => {},
    }
}

/// The kind of a function: `constructor` for `__init__` in a class, `method` for another
/// function in a class, `function` elsewhere.
pub open spec fn python_function_kind(in_class: bool, name: Seq<char>) -> Seq<char> {
    if in_class && name == "__init__"@ {
        "constructor"@
    } else if in_class {
        "method"@
    } else {
        "function"@
    }
}

/// A function or method: its symbol with signature and return type, and the types of its
/// parameters and return value and its calls.
fn extract_function(
    node: &SyntaxNode,
    source: &[u8],
    parent_local_id: Option<usize>,
    parent_name: &str,
    symbols: &mut Vec<ExtractedSymbol>,
    relationships: &mut Vec<ExtractedRelationship>,
)
    requires
        symbols_wf(old(symbols)@),
        relationships_wf(old(relationships)@, old(symbols)@.len()),
        parent_local_id matches Some(p) ==> p < old(symbols)@.len(),
    ensures
        grew(old(symbols)@, final(symbols)@),
        symbols_wf(final(symbols)@),
        relationships_wf(final(relationships)@, final(symbols)@.len()),
        symbols_view(final(symbols)@) == symbols_view(old(symbols)@) + py_function_symbols(
            *node,
            source@,
            opt_id(parent_local_id),
            parent_name@,
            old(symbols)@.len() as int,
        ),
        field_text(*node, "name"@, source@) is None ==> final(relationships)@ == old(relationships)@,
        relationships_view(final(relationships)@) == relationships_view(old(relationships)@) + py_function_rels(
            *node,
            source@,
            old(symbols)@.len() as int,
        ),
{
    proof {
        assert(symbols_view(symbols@) + Seq::<SymbolView>::empty() =~= symbols_view(symbols@));
        assert(relationships_view(relationships@) + Seq::<RelationshipView>::empty() =~= relationships_view(relationships@));
    }
    let name = match field_text_of(node, "name", source) {
        Some(n) => n,
        None => return,
    };
    let is_method = parent_local_id.is_some() && !parent_name.is_empty();
    let kind = if is_method && str_eq(name.as_str(), "__init__") {
        "constructor"
    } else if is_method {
        "method"
    } else {
        "function"
    };
    let qn = qualify(parent_name, name.as_str());
    let signature = build_signature(name.as_str(), node, source);
    let type_text = field_text_of(node, "return_type", source);
    let local_id = symbols.len();
    let vis = visibility_from_name(name.as_str());
    let mut sym = symbol_at(node, local_id, name, Some(signature), qn, kind, "public", parent_local_id, String::new(), type_text);
    sym.visibility = vis;
    proof {
        lemma_symbols_view_push(symbols@, sym);
    }
    symbols.push(sym);
    let n = Ghost(symbols@.len());
    let ghost r0 = relationships_view(relationships@);
    let ghost id = local_id as int;
    match node.child_by_field_name("parameters") {
        Some(params) => extract_param_type_relationships(params, source, local_id, relationships, n),
        None => {
            proof {
                assert(r0 + Seq::<RelationshipView>::empty() =~= r0);
            }
        },
    }
    let ghost r1 = relationships_view(relationships@);
    match node.child_by_field_name("return_type") {
        Some(rt) => extract_field_type_relationships(rt, source, local_id, relationships, n),
        None => {
            proof {
                assert(r1 + Seq::<RelationshipView>::empty() =~= r1);
            }
        },
    }
    let ghost r2 = relationships_view(relationships@);
    match node.child_by_field_name("body") {
        Some(body) => collect_calls(body, source, local_id, relationships, n),
        None => {
            proof {
                assert(r2 + Seq::<RelationshipView>::empty() =~= r2);
            }
        },
    }
    proof {
        let a = match field_child(*node, "parameters"@) {
            Some(p) => rels_over(p.children@, p.children@.len() as int, py_param_fn(source@, id)),
            None => Seq::empty(),
        };
        let b = match field_child(*node, "return_type"@) {
            Some(rt) => py_annotation_rels(rt, source@, id),
            None => Seq::empty(),
        };
        let c = match field_child(*node, "body"@) {
            Some(bd) => py_calls(bd, source@, id),
            None => Seq::empty(),
        };
        assert(((r0 + a) + b) + c =~= r0 + (a + b + c));
    }
}

/// Whether a parameter name is the implicit receiver.
pub open spec fn is_receiver_name(n: Seq<char>) -> bool {
    n == "self"@ || n == "cls"@
}

/// The name a plain or splatted parameter contributes: a plain name other than `self` and
/// `cls`, and `*args` / `**kwargs` as written.
pub open spec fn python_plain_param(c: SyntaxNode, source: Seq<u8>) -> Option<Seq<char>> {
    if kind_is(c, "identifier"@) {
        match node_text(c, source) {
            Some(p) => if is_receiver_name(p) { None } else { Some(p) },
            None => None,
        }
    } else if kind_is(c, "list_splat_pattern"@) || kind_is(c, "dictionary_splat_pattern"@) {
        node_text(c, source)
    } else {
        None
    }
}

/// The name a parameter node contributes to a signature, if any: that of a plain or splatted
/// parameter; of a typed parameter, that of the parameter it annotates (its first child); of
/// a defaulted one, its `name` field other than `self` and `cls`.
pub open spec fn python_param_name(c: SyntaxNode, source: Seq<u8>) -> Option<Seq<char>> {
    if kind_is(c, "typed_parameter"@) {
        if c.children@.len() > 0 {
            python_plain_param(c.children@[0], source)
        } else {
            None
        }
    } else if kind_is(c, "default_parameter"@) || kind_is(c, "typed_default_parameter"@) {
        match field_text(c, "name"@, source) {
            Some(p) => if is_receiver_name(p) { None } else { Some(p) },
            None => None,
        }
    } else {
        python_plain_param(c, source)
    }
}

/// The names that the first `k` parameter nodes contribute.
pub open spec fn python_param_names(cs: Seq<SyntaxNode>, source: Seq<u8>, k: int) -> Seq<Seq<char>>
    decreases k,
{
    if k <= 0 || k > cs.len() {
        Seq::empty()
    } else {
        let pre = python_param_names(cs, source, k - 1);
        match python_param_name(cs[k - 1], source) {
            Some(p) => pre.push(p),
            None => pre,
        }
    }
}

/// The signature of a function: its name and its parameter names, comma-separated.
pub open spec fn python_signature(name: Seq<char>, node: SyntaxNode, source: Seq<u8>) -> Seq<char> {
    let params = match field_child(node, "parameters"@) {
        Some(p) => python_param_names(p.children@, source, p.children@.len() as int),
        None => Seq::empty(),
    };
    name + "("@ + join_with(params, ","@) + ")"@
}

fn plain_param(c: &SyntaxNode, source: &[u8]) -> (r: Option<String>)
    ensures
        opt_view(r) == python_plain_param(*c, source@),
{
    if c.is_kind("identifier") {
        match text(c, source) {
            Some(p) => if str_eq(p.as_str(), "self") || str_eq(p.as_str(), "cls") { None } else { Some(p) },
            None => None,
        }
    } else if c.is_kind("list_splat_pattern") || c.is_kind("dictionary_splat_pattern") {
        text(c, source)
    } else {
        None
    }
}

fn param_name(c: &SyntaxNode, source: &[u8]) -> (r: Option<String>)
    ensures
        opt_view(r) == python_param_name(*c, source@),
{
    if c.is_kind("typed_parameter") {
        if c.children.len() > 0 {
            plain_param(&c.children[0], source)
        } else {
            None
        }
    } else if c.is_kind("default_parameter") || c.is_kind("typed_default_parameter") {
        match field_text_of(c, "name", source) {
            Some(p) => if str_eq(p.as_str(), "self") || str_eq(p.as_str(), "cls") { None } else { Some(p) },
            None => None,
        }
    } else {
        plain_param(c, source)
    }
}

/// The signature of a function: its name and parameter names.
pub fn build_signature(name: &str, node: &SyntaxNode, source: &[u8]) -> (r: String)
    ensures
        r@ == python_signature(name@, *node, source@),
{
    let mut params: Vec<String> = Vec::new();
    match node.child_by_field_name("parameters") {
        Some(list) => {
            let mut i: usize = 0;
            while i < list.children.len()
                invariant
                    i <= list.children.len(),
                    views(params@) == python_param_names(list.children@, source@, i as int),
                decreases list.children.len() - i,
            {
                match param_name(&list.children[i], source) {
                    Some(p) => {
                        proof {
                            assert(views(params@.push(p)) =~= views(params@).push(p@));
                        }
                        params.push(p);
                    },
                    None => {},
                }
                i = i + 1;
            }
        },
        None => {},
    }
    let joined = join_strings(&params, ",");
    let s = concat3(name, "(", joined.as_str());
    concat(s.as_str(), ")")
}

/// The annotated types of a function's parameters, other than `self` and `cls`.
fn extract_param_type_relationships(
    params_node: &SyntaxNode,
    source: &[u8],
    source_local_id: usize,
    relationships: &mut Vec<ExtractedRelationship>,
    n_symbols: Ghost<nat>,
)
    requires
        source_local_id < n_symbols@,
        relationships_wf(old(relationships)@, n_symbols@),
    ensures
        grew(old(relationships)@, final(relationships)@),
        relationships_wf(final(relationships)@, n_symbols@),
        relationships_view(final(relationships)@) == relationships_view(old(relationships)@) + rels_over(
            params_node.children@,
            params_node.children@.len() as int,
            py_param_fn(source@, source_local_id as int),
        ),
{
    let ghost f = py_param_fn(source@, source_local_id as int);
    let ghost r0 = relationships_view(old(relationships)@);
    let mut i: usize = 0;
    proof {
        lemma_rels_over_none(params_node.children@, f, r0);
    }
    while i < params_node.children.len()
        invariant
            i <= params_node.children.len(),
            source_local_id < n_symbols@,
            grew(old(relationships)@, relationships@),
            relationships_wf(relationships@, n_symbols@),
            f == py_param_fn(source@, source_local_id as int),
            r0 == relationships_view(old(relationships)@),
            relationships_view(relationships@) == r0 + rels_over(params_node.children@, i as int, f),
        decreases params_node.children.len() - i,
    {
        let c = &params_node.children[i];
        proof {
            lemma_rels_over_next(params_node.children@, i as int, f, r0);
        }
        if c.is_kind("typed_parameter") || c.is_kind("typed_default_parameter") {
            let receiver = match field_text_of(c, "name", source) {
                Some(p) => str_eq(p.as_str(), "self") || str_eq(p.as_str(), "cls"),
                None => false,
            };
            if !receiver {
                match c.child_by_field_name("type") {
                    Some(tn) => extract_field_type_relationships(tn, source, source_local_id, relationships, n_symbols),
                    None => {},
                }
            }
        }
        i = i + 1;
    }
}

/// The user types named in a type annotation, as `field-type` relationships.
fn extract_field_type_relationships(
    type_node: &SyntaxNode,
    source: &[u8],
    source_local_id: usize,
    relationships: &mut Vec<ExtractedRelationship>,
    n_symbols: Ghost<nat>,
)
    requires
        source_local_id < n_symbols@,
        relationships_wf(old(relationships)@, n_symbols@),
    ensures
        grew(old(relationships)@, final(relationships)@),
        relationships_wf(final(relationships)@, n_symbols@),
        forall|k: int|
            old(relationships)@.len() <= k < final(relationships)@.len() ==> (#[trigger] final(relationships)@[k]).kind
                == RelationshipKind::FieldType && python_user_type(final(relationships)@[k].target_qualified_name@),
        relationships_view(final(relationships)@) == relationships_view(old(relationships)@) + py_annotation_rels(
            *type_node,
            source@,
            source_local_id as int,
        ),
{
    let ghost r0 = relationships_view(old(relationships)@);
    let mut names: Vec<String> = Vec::new();
    proof {
        assert(views(names@) =~= Seq::<Seq<char>>::empty());
    }
    collect_type_names(type_node, source, &mut names);
    let ghost nv = views(names@);
    proof {
        assert(nv =~= py_type_names(*type_node, source@));
        assert(r0 + py_user_type_rels(nv, source_local_id as int, 0) =~= r0);
    }
    let mut i: usize = 0;
    while i < names.len()
        invariant
            i <= names.len(),
            nv == views(names@),
            r0 == relationships_view(old(relationships)@),
            relationships_view(relationships@) == r0 + py_user_type_rels(nv, source_local_id as int, i as int),
            source_local_id < n_symbols@,
            grew(old(relationships)@, relationships@),
            relationships_wf(relationships@, n_symbols@),
            forall|k: int|
                old(relationships)@.len() <= k < relationships@.len() ==> (#[trigger] relationships@[k]).kind
                    == RelationshipKind::FieldType && python_user_type(relationships@[k].target_qualified_name@),
        decreases names.len() - i,
    {
        let ghost p = py_user_type_rels(nv, source_local_id as int, i as int);
        proof {
            assert(nv[i as int] == names@[i as int]@);
        }
        if is_user_type(names[i].as_str()) {
            let r = relationship(source_local_id, names[i].clone(), RelationshipKind::FieldType);
            proof {
                lemma_relationships_view_push(relationships@, r);
                assert((r0 + p) + seq![relationship_view(r)] =~= r0 + (p + seq![relationship_view(r)]));
            }
            relationships.push(r);
        } else {
            proof {
                assert(p + Seq::<RelationshipView>::empty() =~= p);
            }
        }
        i = i + 1;
    }
}

/// The names in a type annotation: names and dotted names, looked for through `type`,
/// generic, subscript and `|` nodes.
fn collect_type_names(node: &SyntaxNode, source: &[u8], out: &mut Vec<String>)
    ensures
        views(final(out)@) == views(old(out)@) + py_type_names(*node, source@),
    decreases node,
{
    let ghost o0 = views(out@);
    if node.is_kind("identifier") || node.is_kind("attribute") {
        match text(node, source) {
            Some(s) => {
                proof {
                    assert(views(out@.push(s)) =~= o0 + seq![s@]);
                }
                out.push(s);
            },
            None => {
                proof {
                    assert(o0 + Seq::<Seq<char>>::empty() =~= o0);
                }
            },
        }
    } else if node.is_kind("type") || node.is_kind("generic_type") || node.is_kind("subscript")
        || node.is_kind("binary_operator") {
        let mut i: usize = 0;
        proof {
            assert(o0 + py_type_names_in(*node, source@, 0) =~= o0);
        }
        while i < node.children.len()
            invariant
                i <= node.children.len(),
                o0 == views(old(out)@),
                views(out@) == o0 + py_type_names_in(*node, source@, i as int),
            decreases node.children.len() - i,
        {
            proof {
                lemma_child_depth(*node, i as int);
            }
            collect_type_names(&node.children[i], source, out);
            proof {
                let p = py_type_names_in(*node, source@, i as int);
                let x = py_type_names(node.children@[i as int], source@);
                assert((o0 + p) + x =~= o0 + (p + x));
            }
            i = i + 1;
        }
    } else {
        proof {
            assert(o0 + Seq::<Seq<char>>::empty() =~= o0);
        }
    }
}

/// The name a call calls: the function's name, or the attribute of a method call.
pub open spec fn python_call_name(call: SyntaxNode, source: Seq<u8>) -> Option<Seq<char>> {
    if kind_is(call, "call"@) {
        match field_child(call, "function"@) {
            Some(f) => if kind_is(f, "identifier"@) {
                node_text(f, source)
            } else if kind_is(f, "attribute"@) {
                field_text(f, "attribute"@, source)
            } else {
                None
            },
            None => None,
        }
    } else {
        None
    }
}

/// A method call `obj.save(..)` calls `save` alone: its name is the text of the `attribute`
/// child of the called attribute, never text of the object, and it is the name that a plain
/// call `save(..)` of an identifier with that text calls. That name, where it is not empty,
/// is the first `calls` relationship of the call's subtree.
pub proof fn law_method_call_names_the_attribute(
    call: SyntaxNode,
    f: SyntaxNode,
    m: SyntaxNode,
    plain: SyntaxNode,
    g: SyntaxNode,
    source: Seq<u8>,
    id: int,
)
    requires
        kind_is(call, "call"@),
        field_child(call, "function"@) == Some(f),
        kind_is(f, "attribute"@),
        field_child(f, "attribute"@) == Some(m),
        kind_is(plain, "call"@),
        field_child(plain, "function"@) == Some(g),
        kind_is(g, "identifier"@),
        node_text(g, source) == node_text(m, source),
    ensures
        python_call_name(call, source) == node_text(m, source),
        python_call_name(call, source) == python_call_name(plain, source),
        node_text(m, source) matches Some(t) ==> (t.len() > 0 ==> py_calls(call, source, id)[0] == rel(
            id,
            t,
            RelationshipKind::Calls,
        )),
{
    assert(!kind_is(f, "identifier"@) && !kind_is(g, "attribute"@)) by {
        reveal_strlit("identifier");
        reveal_strlit("attribute");
        assert("identifier"@[0] != "attribute"@[0]);
    }
}

fn call_name(node: &SyntaxNode, source: &[u8]) -> (r: Option<String>)
    ensures
        opt_view(r) == python_call_name(*node, source@),
{
    if !node.is_kind("call") {
        return None;
    }
    match node.child_by_field_name("function") {
        Some(f) => {
            if f.is_kind("identifier") {
                text(f, source)
            } else if f.is_kind("attribute") {
                field_text_of(f, "attribute", source)
            } else {
                None
            }
        },
        None => None,
    }
}

/// Every call in a subtree with a non-empty name, as a `calls` relationship.
fn collect_calls(
    node: &SyntaxNode,
    source: &[u8],
    source_local_id: usize,
    relationships: &mut Vec<ExtractedRelationship>,
    n_symbols: Ghost<nat>,
)
    requires
        source_local_id < n_symbols@,
        relationships_wf(old(relationships)@, n_symbols@),
    ensures
        grew(old(relationships)@, final(relationships)@),
        relationships_wf(final(relationships)@, n_symbols@),
        forall|k: int|
            old(relationships)@.len() <= k < final(relationships)@.len() ==> (#[trigger] final(relationships)@[k]).kind
                == RelationshipKind::Calls && final(relationships)@[k].source_local_id == source_local_id,
        relationships_view(final(relationships)@) == relationships_view(old(relationships)@) + py_calls(
            *node,
            source@,
            source_local_id as int,
        ),
    decreases node,
{
    let ghost r0 = relationships_view(old(relationships)@);
    let ghost id = source_local_id as int;
    let ghost own = match python_call_name(*node, source@) {
        Some(name) => if name.len() > 0 {
            seq![rel(id, name, RelationshipKind::Calls)]
        } else {
            Seq::<RelationshipView>::empty()
        },
        None => Seq::<RelationshipView>::empty(),
    };
    match call_name(node, source) {
        Some(name) => {
            if !name.as_str().is_empty() {
                let r = relationship(source_local_id, name, RelationshipKind::Calls);
                proof {
                    lemma_relationships_view_push(relationships@, r);
                }
                relationships.push(r);
            } else {
                proof {
                    assert(r0 + Seq::<RelationshipView>::empty() =~= r0);
                }
            }
        },
        None => {
            proof {
                assert(r0 + Seq::<RelationshipView>::empty() =~= r0);
            }
        },
    }
    let ghost head = relationships_view(relationships@);
    proof {
        assert(head == r0 + own);
        assert(head + py_calls_in(*node, source@, id, 0) =~= head);
    }
    let mut i: usize = 0;
    while i < node.children.len()
        invariant
            i <= node.children.len(),
            source_local_id < n_symbols@,
            id == source_local_id,
            grew(old(relationships)@, relationships@),
            relationships_wf(relationships@, n_symbols@),
            forall|k: int|
                old(relationships)@.len() <= k < relationships@.len() ==> (#[trigger] relationships@[k]).kind
                    == RelationshipKind::Calls && relationships@[k].source_local_id == source_local_id,
            relationships_view(relationships@) == head + py_calls_in(*node, source@, id, i as int),
        decreases node.children.len() - i,
    {
        proof {
            lemma_child_depth(*node, i as int);
        }
        collect_calls(&node.children[i], source, source_local_id, relationships, n_symbols);
        proof {
            let p = py_calls_in(*node, source@, id, i as int);
            let x = py_calls(node.children@[i as int], source@, id);
            assert((head + p) + x =~= head + (p + x));
        }
        i = i + 1;
    }
    proof {
        let rest = py_calls_in(*node, source@, id, i as int);
        assert((r0 + own) + rest =~= r0 + (own + rest));
    }
}

} // verus!

//! Language plugins: each one knows the files of one language and extracts the symbols and
//! relationships of a parsed file.
use vstd::prelude::*;
use crate::model::{known_kind, ExtractedRelationship, ExtractedSymbol, ExtractionResult, PluginCapability, RenameError, RenameOccurrence, SymbolKind, Visibility, RelationshipKind};
use crate::plugin::java_rename::{java_rename_occurrences, occurrences_view};
use crate::syntax::{column_number, field_child, line_number, node_text, text, to_column, to_line, SyntaxNode};
use crate::text::{is_prefix, lemma_contains_push, opt_view, str_eq};

pub mod go;
pub mod java;
pub mod java_rename;
pub mod js;
pub mod python;
pub mod rust;

verus! {

// ---------------------------------------------------------------------------------------------
// What every extraction keeps
// ---------------------------------------------------------------------------------------------

/// The symbols are numbered by their position, a symbol's parent comes before it, and each
/// symbol is of a known kind.
pub open spec fn symbols_wf(syms: Seq<ExtractedSymbol>) -> bool {
    forall|i: int|
        0 <= i < syms.len() ==> (#[trigger] syms[i]).local_id == i && (syms[i].parent_local_id matches Some(
            p,
        ) ==> p < i) && known_kind(syms[i].kind.0@)
}

/// Every relationship starts at one of `n` symbols.
pub open spec fn relationships_wf(rels: Seq<ExtractedRelationship>, n: nat) -> bool {
    forall|i: int| 0 <= i < rels.len() ==> (#[trigger] rels[i]).source_local_id < n
}

/// A sequence that only grew: the old elements are kept, in place.
pub open spec fn grew<T>(old: Seq<T>, new: Seq<T>) -> bool {
    old.len() <= new.len() && forall|i: int| 0 <= i < old.len() ==> new[i] == old[i]
}

/// What every extraction result keeps: numbered symbols with earlier parents, and
/// relationships from those symbols.
pub open spec fn result_wf(r: ExtractionResult) -> bool {
    symbols_wf(r.symbols@) && relationships_wf(r.relationships@, r.symbols@.len())
}

/// A symbol as plain values.
pub struct SymbolView {
    pub local_id: int,
    pub name: Seq<char>,
    pub signature: Option<Seq<char>>,
    pub qualified_name: Seq<char>,
    pub kind: Seq<char>,
    pub visibility: Seq<char>,
    pub line: i64,
    pub column: i64,
    pub end_line: i64,
    pub end_column: i64,
    pub parent_local_id: Option<int>,
    pub package: Seq<char>,
    pub type_text: Option<Seq<char>>,
}

/// An optional id as an integer.
pub open spec fn opt_id(o: Option<usize>) -> Option<int> {
    match o {
        Some(p) => Some(p as int),
        None => None,
    }
}

/// A symbol's plain values.
pub open spec fn symbol_view(s: ExtractedSymbol) -> SymbolView {
    SymbolView {
        local_id: s.local_id as int,
        name: s.name@,
        signature: opt_view(s.signature),
        qualified_name: s.qualified_name@,
        kind: s.kind.0@,
        visibility: s.visibility.0@,
        line: s.line,
        column: s.column,
        end_line: s.end_line,
        end_column: s.end_column,
        parent_local_id: opt_id(s.parent_local_id),
        package: s.package@,
        type_text: opt_view(s.type_text),
    }
}

/// The plain values of each symbol.
pub open spec fn symbols_view(ss: Seq<ExtractedSymbol>) -> Seq<SymbolView> {
    ss.map_values(|s: ExtractedSymbol| symbol_view(s))
}

pub proof fn lemma_symbols_view_push(ss: Seq<ExtractedSymbol>, s: ExtractedSymbol)
    ensures
        symbols_view(ss.push(s)) == symbols_view(ss).push(symbol_view(s)),
        symbols_view(ss.push(s)) == symbols_view(ss) + seq![symbol_view(s)],
{
    assert(symbols_view(ss.push(s)) =~= symbols_view(ss).push(symbol_view(s)));
    assert(symbols_view(ss).push(symbol_view(s)) =~= symbols_view(ss) + seq![symbol_view(s)]);
}

/// The symbol that a plugin makes of a node: at the node's position, with the given parts.
pub open spec fn node_symbol(
    n: SyntaxNode,
    local_id: int,
    name: Seq<char>,
    signature: Option<Seq<char>>,
    qualified_name: Seq<char>,
    kind: Seq<char>,
    visibility: Seq<char>,
    parent_local_id: Option<int>,
    package: Seq<char>,
    type_text: Option<Seq<char>>,
) -> SymbolView {
    SymbolView {
        local_id,
        name,
        signature,
        qualified_name,
        kind,
        visibility,
        line: line_number(n.row),
        column: column_number(n.column),
        end_line: line_number(n.end_row),
        end_column: column_number(n.end_column),
        parent_local_id,
        package,
        type_text,
    }
}

/// The plain values of a symbol, where there is one.
pub open spec fn opt_symbols(o: Option<ExtractedSymbol>) -> Seq<SymbolView> {
    match o {
        Some(s) => seq![symbol_view(s)],
        None => Seq::empty(),
    }
}

/// What `f` gives for each of the first `k` nodes of `cs`, one after another; `f` is told the
/// number of symbols before its own, counting from `start`.
pub open spec fn symbols_from(
    cs: Seq<SyntaxNode>,
    k: int,
    start: int,
    f: spec_fn(SyntaxNode, int) -> Seq<SymbolView>,
) -> Seq<SymbolView>
    decreases k,
{
    if k <= 0 || k > cs.len() {
        Seq::empty()
    } else {
        let p = symbols_from(cs, k - 1, start, f);
        p + f(cs[k - 1], start + p.len())
    }
}

/// One more node's symbols, after those of the nodes before it.
pub proof fn lemma_symbols_from_next(
    cs: Seq<SyntaxNode>,
    i: int,
    start: int,
    f: spec_fn(SyntaxNode, int) -> Seq<SymbolView>,
    before: Seq<SymbolView>,
)
    requires
        0 <= i < cs.len(),
    ensures
        symbols_from(cs, i + 1, start, f) == symbols_from(cs, i, start, f) + f(
            cs[i],
            start + symbols_from(cs, i, start, f).len(),
        ),
        (before + symbols_from(cs, i, start, f)) + f(cs[i], start + symbols_from(cs, i, start, f).len())
            == before + symbols_from(cs, i + 1, start, f),
        f(cs[i], start + symbols_from(cs, i, start, f).len()) == Seq::<SymbolView>::empty() ==> before
            + symbols_from(cs, i + 1, start, f) == before + symbols_from(cs, i, start, f),
{
    let p = symbols_from(cs, i, start, f);
    let x = f(cs[i], start + p.len());
    assert((before + p) + x =~= before + (p + x));
    if x == Seq::<SymbolView>::empty() {
        assert(p + x =~= p);
    }
}

/// No nodes give no symbols.
pub proof fn lemma_symbols_from_none(
    cs: Seq<SyntaxNode>,
    start: int,
    f: spec_fn(SyntaxNode, int) -> Seq<SymbolView>,
    before: Seq<SymbolView>,
)
    ensures
        before + symbols_from(cs, 0, start, f) == before,
{
    assert(before + symbols_from(cs, 0, start, f) =~= before);
}

/// A relationship as plain values.
pub struct RelationshipView {
    pub source_local_id: int,
    pub target: Seq<char>,
    pub kind: RelationshipKind,
}

/// A relationship's plain values.
pub open spec fn relationship_view(r: ExtractedRelationship) -> RelationshipView {
    RelationshipView { source_local_id: r.source_local_id as int, target: r.target_qualified_name@, kind: r.kind }
}

/// The plain values of each relationship.
pub open spec fn relationships_view(rs: Seq<ExtractedRelationship>) -> Seq<RelationshipView> {
    rs.map_values(|r: ExtractedRelationship| relationship_view(r))
}

/// A relationship of the given kind from symbol `id` to `target`.
pub open spec fn rel(id: int, target: Seq<char>, kind: RelationshipKind) -> RelationshipView {
    RelationshipView { source_local_id: id, target, kind }
}

pub proof fn lemma_relationships_view_push(rs: Seq<ExtractedRelationship>, r: ExtractedRelationship)
    ensures
        relationships_view(rs.push(r)) == relationships_view(rs) + seq![relationship_view(r)],
{
    assert(relationships_view(rs.push(r)) =~= relationships_view(rs) + seq![relationship_view(r)]);
}

/// What `f` gives for each of the first `k` nodes of `cs`, one after another; `f` is told the
/// number of symbols before the node, counting from `start` and adding what `g` gives for
/// each node before it.
pub open spec fn rels_from(
    cs: Seq<SyntaxNode>,
    k: int,
    start: int,
    g: spec_fn(SyntaxNode, int) -> Seq<SymbolView>,
    f: spec_fn(SyntaxNode, int) -> Seq<RelationshipView>,
) -> Seq<RelationshipView>
    decreases k,
{
    if k <= 0 || k > cs.len() {
        Seq::empty()
    } else {
        rels_from(cs, k - 1, start, g, f) + f(cs[k - 1], start + symbols_from(cs, k - 1, start, g).len())
    }
}

/// One more node's relationships, after those of the nodes before it.
pub proof fn lemma_rels_from_next(
    cs: Seq<SyntaxNode>,
    i: int,
    start: int,
    g: spec_fn(SyntaxNode, int) -> Seq<SymbolView>,
    f: spec_fn(SyntaxNode, int) -> Seq<RelationshipView>,
    before: Seq<RelationshipView>,
)
    requires
        0 <= i < cs.len(),
    ensures
        (before + rels_from(cs, i, start, g, f)) + f(cs[i], start + symbols_from(cs, i, start, g).len()) == before
            + rels_from(cs, i + 1, start, g, f),
        f(cs[i], start + symbols_from(cs, i, start, g).len()) == Seq::<RelationshipView>::empty() ==> before
            + rels_from(cs, i + 1, start, g, f) == before + rels_from(cs, i, start, g, f),
{
    let p = rels_from(cs, i, start, g, f);
    let x = f(cs[i], start + symbols_from(cs, i, start, g).len());
    assert((before + p) + x =~= before + (p + x));
    if x == Seq::<RelationshipView>::empty() {
        assert(p + x =~= p);
    }
}

/// No nodes give no relationships.
pub proof fn lemma_rels_from_none(
    cs: Seq<SyntaxNode>,
    start: int,
    g: spec_fn(SyntaxNode, int) -> Seq<SymbolView>,
    f: spec_fn(SyntaxNode, int) -> Seq<RelationshipView>,
    before: Seq<RelationshipView>,
)
    ensures
        before + rels_from(cs, 0, start, g, f) == before,
{
    assert(before + rels_from(cs, 0, start, g, f) =~= before);
}

/// What `f` gives for each of the first `k` nodes of `cs`, one after another.
pub open spec fn rels_over(cs: Seq<SyntaxNode>, k: int, f: spec_fn(SyntaxNode) -> Seq<RelationshipView>) -> Seq<
    RelationshipView,
>
    decreases k,
{
    if k <= 0 || k > cs.len() {
        Seq::empty()
    } else {
        rels_over(cs, k - 1, f) + f(cs[k - 1])
    }
}

/// One more node's relationships, after those of the nodes before it.
pub proof fn lemma_rels_over_next(
    cs: Seq<SyntaxNode>,
    i: int,
    f: spec_fn(SyntaxNode) -> Seq<RelationshipView>,
    before: Seq<RelationshipView>,
)
    requires
        0 <= i < cs.len(),
    ensures
        (before + rels_over(cs, i, f)) + f(cs[i]) == before + rels_over(cs, i + 1, f),
        f(cs[i]) == Seq::<RelationshipView>::empty() ==> before + rels_over(cs, i + 1, f) == before + rels_over(cs, i, f),
{
    let p = rels_over(cs, i, f);
    assert((before + p) + f(cs[i]) =~= before + (p + f(cs[i])));
    if f(cs[i]) == Seq::<RelationshipView>::empty() {
        assert(p + f(cs[i]) =~= p);
    }
}

/// No nodes give no relationships.
pub proof fn lemma_rels_over_none(cs: Seq<SyntaxNode>, f: spec_fn(SyntaxNode) -> Seq<RelationshipView>, before: Seq<RelationshipView>)
    ensures
        before + rels_over(cs, 0, f) == before,
{
    assert(before + rels_over(cs, 0, f) =~= before);
}

/// A symbol at the position of a node.
pub open spec fn at_node(s: ExtractedSymbol, n: SyntaxNode) -> bool {
    s.line == line_number(n.row) && s.column == column_number(n.column) && s.end_line == line_number(
        n.end_row,
    ) && s.end_column == column_number(n.end_column)
}

/// The text of the child of `n` under the field `f`.
pub open spec fn field_text(n: SyntaxNode, f: Seq<char>, source: Seq<u8>) -> Option<Seq<char>> {
    match field_child(n, f) {
        Some(c) => node_text(c, source),
        None => None,
    }
}

/// Whether every symbol of `s` is a member of the symbol `parent`: its parent is `parent` and
/// its qualified name starts with `prefix`.
pub open spec fn members_of(s: Seq<SymbolView>, prefix: Seq<char>, parent: int) -> bool {
    forall|i: int|
        0 <= i < s.len() ==> is_prefix(prefix, (#[trigger] s[i]).qualified_name) && s[i].parent_local_id
            == Some(parent)
}

/// A name put after a qualified name and a dot begins with them.
pub proof fn lemma_member_qn(parent_qn: Seq<char>, name: Seq<char>)
    ensures
        is_prefix(parent_qn + "."@, parent_qn + "."@ + name),
{
    let p = parent_qn + "."@;
    assert((p + name).subrange(0, p.len() as int) =~= p);
}

pub proof fn lemma_members_concat(a: Seq<SymbolView>, b: Seq<SymbolView>, prefix: Seq<char>, parent: int)
    requires
        members_of(a, prefix, parent),
        members_of(b, prefix, parent),
    ensures
        members_of(a + b, prefix, parent),
{
    assert forall|i: int| 0 <= i < (a + b).len() implies is_prefix(prefix, (#[trigger] (a + b)[i]).qualified_name)
        && (a + b)[i].parent_local_id == Some(parent) by {
        if i < a.len() {
            assert((a + b)[i] == a[i]);
        } else {
            assert((a + b)[i] == b[i - a.len()]);
        }
    }
}

/// What `f` gives for nodes, each a run of members of `parent`, stays so one after another.
pub proof fn lemma_symbols_from_members(
    cs: Seq<SyntaxNode>,
    k: int,
    start: int,
    f: spec_fn(SyntaxNode, int) -> Seq<SymbolView>,
    prefix: Seq<char>,
    parent: int,
)
    requires
        forall|c: SyntaxNode, j: int| #[trigger] members_of(f(c, j), prefix, parent),
    ensures
        members_of(symbols_from(cs, k, start, f), prefix, parent),
    decreases k,
{
    if k > 0 && k <= cs.len() {
        lemma_symbols_from_members(cs, k - 1, start, f, prefix, parent);
        let p = symbols_from(cs, k - 1, start, f);
        assert(members_of(f(cs[k - 1], start + p.len()), prefix, parent));
        lemma_members_concat(p, f(cs[k - 1], start + p.len()), prefix, parent);
    }
}

/// The first value that `f` gives, among the nodes of `s` from index `i` on.
pub open spec fn first_some_from<T>(s: Seq<SyntaxNode>, f: spec_fn(SyntaxNode) -> Option<T>, i: int) -> Option<T>
    decreases s.len() - i,
{
    if i < 0 || i >= s.len() {
        None
    } else {
        match f(s[i]) {
            Some(x) => Some(x),
            None => first_some_from(s, f, i + 1),
        }
    }
}

/// Two rows of nodes on which `f` and `g` agree, node by node, give the same first value.
pub proof fn lemma_first_some_agree<T>(
    a: Seq<SyntaxNode>,
    b: Seq<SyntaxNode>,
    f: spec_fn(SyntaxNode) -> Option<T>,
    g: spec_fn(SyntaxNode) -> Option<T>,
    i: int,
)
    requires
        a.len() == b.len(),
        forall|j: int| 0 <= j < a.len() ==> f(#[trigger] a[j]) == g(b[j]),
    ensures
        first_some_from(a, f, i) == first_some_from(b, g, i),
    decreases a.len() - i,
{
    if 0 <= i < a.len() {
        assert(f(a[i]) == g(b[i]));
        lemma_first_some_agree(a, b, f, g, i + 1);
    }
}

/// Where only the node at `i` gives symbols, the nodes give exactly what it gives, numbered
/// from `start`.
pub proof fn lemma_symbols_from_single(
    cs: Seq<SyntaxNode>,
    k: int,
    start: int,
    f: spec_fn(SyntaxNode, int) -> Seq<SymbolView>,
    i: int,
)
    requires
        0 <= i < cs.len(),
        forall|j: int, n: int| 0 <= j < cs.len() && j != i ==> #[trigger] f(cs[j], n) == Seq::<SymbolView>::empty(),
    ensures
        k <= i ==> symbols_from(cs, k, start, f) == Seq::<SymbolView>::empty(),
        i < k <= cs.len() ==> symbols_from(cs, k, start, f) == f(cs[i], start),
    decreases k,
{
    if k > 0 && k <= cs.len() {
        lemma_symbols_from_single(cs, k - 1, start, f, i);
        let p = symbols_from(cs, k - 1, start, f);
        if k - 1 == i {
            assert(p + f(cs[i], start) =~= f(cs[i], start));
        } else {
            assert(f(cs[k - 1], start + p.len()) == Seq::<SymbolView>::empty());
            assert(p + f(cs[k - 1], start + p.len()) =~= p);
        }
    }
}

/// The text of the child of `n` under the field `f`.
pub fn field_text_of(n: &SyntaxNode, f: &str, source: &[u8]) -> (r: Option<String>)
    ensures
        opt_view(r) == field_text(*n, f@, source@),
{
    match n.child_by_field_name(f) {
        Some(c) => text(c, source),
        None => None,
    }
}

/// A symbol found at `node`, with the given parts.
pub fn symbol_at(
    node: &SyntaxNode,
    local_id: usize,
    name: String,
    signature: Option<String>,
    qualified_name: String,
    kind: &str,
    visibility: &str,
    parent_local_id: Option<usize>,
    package: String,
    type_text: Option<String>,
) -> (s: ExtractedSymbol)
    ensures
        s.local_id == local_id,
        s.name == name,
        s.signature == signature,
        s.qualified_name == qualified_name,
        s.kind.0@ == kind@,
        s.visibility.0@ == visibility@,
        s.parent_local_id == parent_local_id,
        s.package == package,
        s.type_text == type_text,
        at_node(s, *node),
        symbol_view(s) == node_symbol(
            *node,
            local_id as int,
            name@,
            opt_view(signature),
            qualified_name@,
            kind@,
            visibility@,
            opt_id(parent_local_id),
            package@,
            opt_view(type_text),
        ),
{
    ExtractedSymbol {
        local_id,
        name,
        signature,
        qualified_name,
        kind: SymbolKind::new(kind),
        visibility: Visibility::new(visibility),
        line: to_line(node.row),
        column: to_column(node.column),
        end_line: to_line(node.end_row),
        end_column: to_column(node.end_column),
        parent_local_id,
        package,
        type_text,
    }
}

/// A relationship of the given kind from a symbol to a target name.
pub fn relationship(source_local_id: usize, target: String, kind: RelationshipKind) -> (r: ExtractedRelationship)
    ensures
        r.source_local_id == source_local_id,
        r.target_qualified_name == target,
        r.kind == kind,
{
    ExtractedRelationship { source_local_id, target_qualified_name: target, kind }
}

// ---------------------------------------------------------------------------------------------
// File extensions
// ---------------------------------------------------------------------------------------------

/// What `std::path::Path::extension` gives for a path: the part of the file name after its
/// last dot, if the name has one that does not start it.
pub uninterp spec fn path_extension(path: Seq<char>) -> Option<Seq<char>>;

/// Calls `std::path::Path::extension` on `path`; its result is named `path_extension`.
#[verifier::external_body]
pub fn extension_of(path: &str) -> (r: Option<String>)
    ensures
        opt_view(r) == path_extension(path@),
{
    std::path::Path::new(path).extension().and_then(|e| e.to_str()).map(|e| e.to_string())
}

/// Whether the extension `ext` is one of `exts`.
pub open spec fn extension_in(ext: Option<Seq<char>>, exts: Seq<Seq<char>>) -> bool {
    match ext {
        Some(e) => exts.contains(e),
        None => false,
    }
}

// ---------------------------------------------------------------------------------------------
// The plugins and their registry
// ---------------------------------------------------------------------------------------------

/// Whether a language's plugin offers a capability: rename is offered for Java.
pub open spec fn language_supports(l: LanguageId, c: PluginCapability) -> bool {
    match c {
        PluginCapability::Rename => l == LanguageId::Java,
    }
}

/// The plugins of this crate.
#[derive(Clone, Copy, PartialEq, Eq, Debug, Structural)]
pub enum LanguageId {
    Go,
    Java,
    Js,
    Python,
    Rust,
}

/// A plugin's name, as the configuration and the index know it.
pub open spec fn language_name(l: LanguageId) -> Seq<char> {
    match l {
        LanguageId::Go => "go"@,
        LanguageId::Java => "java"@,
        LanguageId::Js => "js"@,
        LanguageId::Python => "python"@,
        LanguageId::Rust => "rust"@,
    }
}

/// A plugin's name as shown to people.
pub open spec fn language_display_name(l: LanguageId) -> Seq<char> {
    match l {
        LanguageId::Go => "Go"@,
        LanguageId::Java => "Java"@,
        LanguageId::Js => "JavaScript"@,
        LanguageId::Python => "Python"@,
        LanguageId::Rust => "Rust"@,
    }
}

/// The file extensions a plugin handles.
pub open spec fn language_extensions(l: LanguageId) -> Seq<Seq<char>> {
    match l {
        LanguageId::Go => seq!["go"@],
        LanguageId::Java => seq!["java"@],
        LanguageId::Js => seq!["js"@, "mjs"@, "cjs"@, "jsx"@, "ts"@, "tsx"@],
        LanguageId::Python => seq!["py"@, "pyi"@],
        LanguageId::Rust => seq!["rs"@],
    }
}

impl LanguageId {
    pub fn name(&self) -> (r: &'static str)
        ensures
            r@ == language_name(*self),
    {
        match self {
            LanguageId::Go => "go",
            LanguageId::Java => "java",
            LanguageId::Js => "js",
            LanguageId::Python => "python",
            LanguageId::Rust => "rust",
        }
    }

    /// Whether the plugin offers a capability: only the Java plugin renames.
    pub fn supports(&self, capability: PluginCapability) -> (r: bool)
        ensures
            r == language_supports(*self, capability),
    {
        match capability {
            PluginCapability::Rename => match self {
                LanguageId::Java => true,
                _ => false,
            },
        }
    }

    /// The places a rename rewrites in a parsed file: found by the Java plugin; the other
    /// plugins refuse, naming their language.
    pub fn find_rename_occurrences(
        &self,
        root: &SyntaxNode,
        source: &[u8],
        symbol_name: &str,
        symbol_kind: &SymbolKind,
        symbol_qualified_name: &str,
    ) -> (r: Result<Vec<RenameOccurrence>, RenameError>)
        ensures
            *self == LanguageId::Java ==> (r matches Ok(v) && occurrences_view(v@) == java_rename_occurrences(
                *root,
                ""@,
                ""@,
                source@,
                symbol_name@,
                symbol_kind.0@,
            )),
            *self != LanguageId::Java ==> (r matches Err(RenameError::NotSupported { language })
                && language@ == language_display_name(*self)),
    {
        match self {
            LanguageId::Java => java::JavaPlugin.find_rename_occurrences(
                root,
                source,
                symbol_name,
                symbol_kind,
                symbol_qualified_name,
            ),
            _ => Err(RenameError::NotSupported { language: self.display_name().to_string() }),
        }
    }

    pub fn display_name(&self) -> (r: &'static str)
        ensures
            r@ == language_display_name(*self),
    {
        match self {
            LanguageId::Go => "Go",
            LanguageId::Java => "Java",
            LanguageId::Js => "JavaScript",
            LanguageId::Python => "Python",
            LanguageId::Rust => "Rust",
        }
    }

    /// Whether the plugin handles the file at `path`, going by its extension.
    pub fn can_handle(&self, path: &str) -> (r: bool)
        ensures
            r == extension_in(path_extension(path@), language_extensions(*self)),
    {
        match self {
            LanguageId::Go => go::GoPlugin.can_handle(path),
            LanguageId::Java => java::JavaPlugin.can_handle(path),
            LanguageId::Js => js::JsPlugin.can_handle(path),
            LanguageId::Python => python::PythonPlugin.can_handle(path),
            LanguageId::Rust => rust::RustPlugin.can_handle(path),
        }
    }

    /// The tree-sitter grammar of the plugin's language: the grammar constant of the
    /// language's own plugin. The value is an opaque handle on the grammar's static tables, so
    /// nothing is stated of it.
    pub fn tree_sitter_language(&self) -> tree_sitter::Language {
        match self {
            LanguageId::Go => go::GoPlugin.tree_sitter_language(),
            LanguageId::Java => java::JavaPlugin.tree_sitter_language(),
            LanguageId::Js => js::JsPlugin.tree_sitter_language(),
            LanguageId::Python => python::PythonPlugin.tree_sitter_language(),
            LanguageId::Rust => rust::RustPlugin.tree_sitter_language(),
        }
    }

    /// The symbols and relationships of a parsed file.
    pub fn extract_symbols(&self, root: &SyntaxNode, source: &[u8]) -> (r: ExtractionResult)
        ensures
            result_wf(r),
            symbols_view(r.symbols@) == language_symbols(*self, *root, source@),
            relationships_view(r.relationships@) == language_relationships(*self, *root, source@),
            crate::text::views(r.wildcard_imports@) == language_wildcards(*self, *root, source@),
    {
        match self {
            LanguageId::Go => go::GoPlugin.extract_symbols(root, source),
            LanguageId::Java => java::JavaPlugin.extract_symbols(root, source),
            LanguageId::Js => js::JsPlugin.extract_symbols(root, source),
            LanguageId::Python => python::PythonPlugin.extract_symbols(root, source),
            LanguageId::Rust => rust::RustPlugin.extract_symbols(root, source),
        }
    }
}

/// The symbols that a language's plugin finds in a parsed file.
pub open spec fn language_symbols(l: LanguageId, root: SyntaxNode, source: Seq<u8>) -> Seq<SymbolView> {
    match l {
        LanguageId::Go => go::go_symbols(root, source),
        LanguageId::Java => java::java_symbols(root, source),
        LanguageId::Js => js::js_symbols(root, source),
        LanguageId::Python => python::python_symbols(root, source),
        LanguageId::Rust => rust::rust_symbols(root, source),
    }
}

/// The relationships that a language's plugin finds in a parsed file.
pub open spec fn language_relationships(l: LanguageId, root: SyntaxNode, source: Seq<u8>) -> Seq<RelationshipView> {
    match l {
        LanguageId::Go => go::go_relationships(root, source),
        LanguageId::Java => java::java_relationships(root, source),
        LanguageId::Js => js::js_relationships(root, source),
        LanguageId::Python => python::python_relationships(root, source),
        LanguageId::Rust => rust::rust_relationships(root, source),
    }
}

/// The wildcard imports that a language's plugin hands on: the packages a Java file imports
/// with `*`, the paths a Rust file imports with `*`; none for the other languages.
pub open spec fn language_wildcards(l: LanguageId, root: SyntaxNode, source: Seq<u8>) -> Seq<Seq<char>> {
    match l {
        LanguageId::Java => java::java_imports(root.children@, source, root.children@.len() as int).1,
        LanguageId::Rust => rust::use_declarations(root.children@, source, root.children@.len() as int).1,
        _ => Seq::empty(),
    }
}

/// The plugins in use, in the order in which they are asked.
pub struct PluginRegistry {
    pub plugins: Vec<LanguageId>,
}

/// The names of the plugins, in order.
pub open spec fn names_of(ls: Seq<LanguageId>) -> Seq<Seq<char>> {
    ls.map_values(|l: LanguageId| language_name(l))
}

/// The index of the first plugin of `ls` from `i` on whose name is `name`.
pub open spec fn plugin_index_from(ls: Seq<LanguageId>, name: Seq<char>, i: int) -> Option<int>
    decreases ls.len() - i,
{
    if i < 0 || i >= ls.len() {
        None
    } else if language_name(ls[i]) == name {
        Some(i)
    } else {
        plugin_index_from(ls, name, i + 1)
    }
}

/// The plugins of `ls` that one of `languages` names, in the order of `ls`.
pub open spec fn plugins_named(ls: Seq<LanguageId>, languages: Seq<Seq<char>>) -> Seq<LanguageId> {
    ls.filter(|l: LanguageId| languages.contains(language_name(l)))
}

impl PluginRegistry {
    /// A registry with every plugin of the crate.
    pub fn new() -> (r: PluginRegistry)
        ensures
            r.plugins@ == seq![
                LanguageId::Go,
                LanguageId::Java,
                LanguageId::Js,
                LanguageId::Python,
                LanguageId::Rust,
            ],
    {
        let mut r = PluginRegistry { plugins: Vec::new() };
        r.register(LanguageId::Go);
        r.register(LanguageId::Java);
        r.register(LanguageId::Js);
        r.register(LanguageId::Python);
        r.register(LanguageId::Rust);
        r
    }

    /// Adds a plugin after the others.
    pub fn register(&mut self, plugin: LanguageId)
        ensures
            final(self).plugins@ == old(self).plugins@.push(plugin),
    {
        self.plugins.push(plugin);
    }

    /// The plugins, in order.
    pub fn all_plugins(&self) -> (r: Vec<LanguageId>)
        ensures
            r@ == self.plugins@,
    {
        let mut r: Vec<LanguageId> = Vec::new();
        let mut i: usize = 0;
        while i < self.plugins.len()
            invariant
                i <= self.plugins.len(),
                r@ == self.plugins@.take(i as int),
            decreases self.plugins.len() - i,
        {
            r.push(self.plugins[i]);
            proof {
                assert(self.plugins@.take(i + 1) =~= self.plugins@.take(i as int).push(
                    self.plugins@[i as int],
                ));
            }
            i = i + 1;
        }
        proof {
            assert(self.plugins@.take(i as int) =~= self.plugins@);
        }
        r
    }

    /// The display name of the plugin called `name`; `name` itself when there is none.
    pub fn display_name_for(&self, name: &str) -> (r: String)
        ensures
            r@ == match plugin_index_from(self.plugins@, name@, 0) {
                Some(i) => language_display_name(self.plugins@[i]),
                None => name@,
            },
    {
        let mut i: usize = 0;
        while i < self.plugins.len()
            invariant
                i <= self.plugins.len(),
                plugin_index_from(self.plugins@, name@, 0) == plugin_index_from(
                    self.plugins@,
                    name@,
                    i as int,
                ),
            decreases self.plugins.len() - i,
        {
            if str_eq(self.plugins[i].name(), name) {
                return self.plugins[i].display_name().to_string();
            }
            i = i + 1;
        }
        name.to_string()
    }

    /// The names of the plugins, in order.
    pub fn all_language_names(&self) -> (r: Vec<&'static str>)
        ensures
            r@.map_values(|s: &'static str| s@) == names_of(self.plugins@),
    {
        let mut r: Vec<&'static str> = Vec::new();
        let mut i: usize = 0;
        while i < self.plugins.len()
            invariant
                i <= self.plugins.len(),
                r@.map_values(|s: &'static str| s@) == names_of(self.plugins@.take(i as int)),
            decreases self.plugins.len() - i,
        {
            let n = self.plugins[i].name();
            proof {
                assert(self.plugins@.take(i + 1) =~= self.plugins@.take(i as int).push(
                    self.plugins@[i as int],
                ));
                assert(r@.push(n).map_values(|s: &'static str| s@) =~= r@.map_values(
                    |s: &'static str| s@,
                ).push(n@));
                assert(names_of(self.plugins@.take(i + 1)) =~= names_of(
                    self.plugins@.take(i as int),
                ).push(language_name(self.plugins@[i as int])));
            }
            r.push(n);
            i = i + 1;
        }
        proof {
            assert(self.plugins@.take(i as int) =~= self.plugins@);
        }
        r
    }

    /// The plugins that one of `languages` names, in the registry's order.
    pub fn plugins_for_languages(&self, languages: &[String]) -> (r: Vec<LanguageId>)
        ensures
            r@ == plugins_named(self.plugins@, languages@.map_values(|s: String| s@)),
    {
        let ghost names = languages@.map_values(|s: String| s@);
        let mut r: Vec<LanguageId> = Vec::new();
        let mut i: usize = 0;
        while i < self.plugins.len()
            invariant
                i <= self.plugins.len(),
                names == languages@.map_values(|s: String| s@),
                r@ == plugins_named(self.plugins@.take(i as int), names),
            decreases self.plugins.len() - i,
        {
            let p = self.plugins[i];
            let n = p.name();
            let mut found = false;
            let mut j: usize = 0;
            while j < languages.len()
                invariant
                    j <= languages.len(),
                    names == languages@.map_values(|s: String| s@),
                    found <==> names.take(j as int).contains(n@),
                decreases languages.len() - j,
            {
                proof {
                    assert(names.take(j + 1) =~= names.take(j as int).push(names[j as int]));
                    assert(names[j as int] == languages@[j as int]@);
                    lemma_contains_push(names.take(j as int), names[j as int], n@);
                }
                if str_eq(languages[j].as_str(), n) {
                    found = true;
                }
                j = j + 1;
            }
            proof {
                assert(names.take(j as int) =~= names);
                let t = self.plugins@.take(i + 1);
                assert(t =~= self.plugins@.take(i as int).push(p));
                reveal_with_fuel(Seq::filter, 1);
                assert(t.drop_last() =~= self.plugins@.take(i as int));
            }
            if found {
                r.push(p);
            }
            i = i + 1;
        }
        proof {
            assert(self.plugins@.take(i as int) =~= self.plugins@);
        }
        r
    }
}

} // verus!

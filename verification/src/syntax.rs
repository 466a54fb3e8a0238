//! Syntax trees: tree-sitter parses a source file, and the tree is copied into `SyntaxNode`
//! values that the plugins read.
use vstd::prelude::*;
use vstd::utf8::{decode_utf8, valid_utf8};
use crate::plugin::LanguageId;
use crate::text::opt_view;

verus! {

#[verifier::external_type_specification]
#[verifier::external_body]
pub struct ExLanguage(tree_sitter::Language);

#[verifier::external_type_specification]
#[verifier::external_body]
pub struct ExNode<'a>(tree_sitter::Node<'a>);

/// One node of a syntax tree: its kind, the field under which it stands in its parent, its
/// byte range in the source, its position (lines counted from 1, columns from 0) and its
/// children in order, named and anonymous alike.
pub struct SyntaxNode {
    pub kind: String,
    pub field_name: Option<String>,
    pub is_named: bool,
    pub start_byte: usize,
    pub end_byte: usize,
    pub row: usize,
    pub column: usize,
    pub end_row: usize,
    pub end_column: usize,
    pub children: Vec<SyntaxNode>,
}

// ---------------------------------------------------------------------------------------------
// Reading a tree
// ---------------------------------------------------------------------------------------------

/// The text of the byte range `[start, end)` of `source`: `None` where the range lies outside
/// the source or is not valid UTF-8.
pub open spec fn range_text(source: Seq<u8>, start: int, end: int) -> Option<Seq<char>> {
    if 0 <= start <= end <= source.len() && valid_utf8(source.subrange(start, end)) {
        Some(decode_utf8(source.subrange(start, end)))
    } else {
        None
    }
}

/// The text of a node in `source`.
pub open spec fn node_text(n: SyntaxNode, source: Seq<u8>) -> Option<Seq<char>> {
    range_text(source, n.start_byte as int, n.end_byte as int)
}

/// Whether a node's kind is `k`.
pub open spec fn kind_is(n: SyntaxNode, k: Seq<char>) -> bool {
    n.kind@ == k
}

/// The index of the first of the children from `i` on that stands under the field `f`.
pub open spec fn field_index_from(cs: Seq<SyntaxNode>, f: Seq<char>, i: int) -> Option<int>
    decreases cs.len() - i,
{
    if i < 0 || i >= cs.len() {
        None
    } else if cs[i].field_name matches Some(g) && g@ == f {
        Some(i)
    } else {
        field_index_from(cs, f, i + 1)
    }
}

/// The first child of `n` under the field `f`, as `child_by_field_name` finds it.
pub open spec fn field_child(n: SyntaxNode, f: Seq<char>) -> Option<SyntaxNode> {
    match field_index_from(n.children@, f, 0) {
        Some(i) => Some(n.children@[i]),
        None => None,
    }
}

pub proof fn lemma_field_index_from(cs: Seq<SyntaxNode>, f: Seq<char>, i: int)
    requires
        0 <= i <= cs.len(),
    ensures
        field_index_from(cs, f, i) matches Some(j) ==> i <= j < cs.len(),
    decreases cs.len() - i,
{
    if i < cs.len() {
        lemma_field_index_from(cs, f, i + 1);
    }
}

impl SyntaxNode {
    /// The first child under the field `f`.
    pub fn child_by_field_name(&self, f: &str) -> (r: Option<&SyntaxNode>)
        ensures
            match field_child(*self, f@) {
                Some(c) => r == Some(&c),
                None => r is None,
            },
    {
        let mut i: usize = 0;
        while i < self.children.len()
            invariant
                i <= self.children.len(),
                field_index_from(self.children@, f@, 0) == field_index_from(
                    self.children@,
                    f@,
                    i as int,
                ),
            decreases self.children.len() - i,
        {
            let c = &self.children[i];
            match &c.field_name {
                Some(g) => {
                    if crate::text::str_eq(g.as_str(), f) {
                        return Some(c);
                    }
                },
                None => {},
            }
            i = i + 1;
        }
        None
    }

    /// The child at index `i`, if there is one.
    pub fn child(&self, i: usize) -> (r: Option<&SyntaxNode>)
        ensures
            i < self.children.len() ==> r == Some(&self.children@[i as int]),
            i >= self.children.len() ==> r is None,
    {
        if i < self.children.len() {
            Some(&self.children[i])
        } else {
            None
        }
    }

    /// Whether the node's kind is `k`.
    pub fn is_kind(&self, k: &str) -> (r: bool)
        ensures
            r == kind_is(*self, k@),
    {
        crate::text::str_eq(self.kind.as_str(), k)
    }
}

/// Calls `std::str::from_utf8`, which accepts exactly the valid UTF-8 byte sequences; the
/// characters are those the bytes encode.
#[verifier::external_body]
fn decode_bytes(b: &[u8]) -> (r: Option<String>)
    ensures
        r is Some <==> valid_utf8(b@),
        r matches Some(s) ==> s@ == decode_utf8(b@),
{
    std::str::from_utf8(b).ok().map(|s| s.to_string())
}

/// The text of the byte range `[start, end)` of `source`.
pub fn text_of_range(source: &[u8], start: usize, end: usize) -> (r: Option<String>)
    ensures
        opt_view(r) == range_text(source@, start as int, end as int),
{
    if start <= end && end <= source.len() {
        let mut part: Vec<u8> = Vec::new();
        let mut i: usize = start;
        while i < end
            invariant
                start <= i <= end <= source.len(),
                part@ == source@.subrange(start as int, i as int),
            decreases end - i,
        {
            part.push(source[i]);
            proof {
                assert(source@.subrange(start as int, i + 1) =~= source@.subrange(
                    start as int,
                    i as int,
                ).push(source@[i as int]));
            }
            i = i + 1;
        }
        decode_bytes(part.as_slice())
    } else {
        None
    }
}

/// The text of a node in `source`.
pub fn text(n: &SyntaxNode, source: &[u8]) -> (r: Option<String>)
    ensures
        opt_view(r) == node_text(*n, source@),
{
    text_of_range(source, n.start_byte, n.end_byte)
}

// ---------------------------------------------------------------------------------------------
// Parsing with tree-sitter
// ---------------------------------------------------------------------------------------------

/// What tree-sitter's parse of `source` with the Go grammar `tree_sitter_go::LANGUAGE` gives,
/// node for node; a function of the bytes alone.
pub uninterp spec fn go_syntax_tree(source: Seq<u8>) -> SyntaxNode;

/// What tree-sitter's parse of `source` with the Java grammar `tree_sitter_java::LANGUAGE` gives,
/// node for node; a function of the bytes alone.
pub uninterp spec fn java_syntax_tree(source: Seq<u8>) -> SyntaxNode;

/// What tree-sitter's parse of `source` with the TSX grammar `tree_sitter_typescript::LANGUAGE_TSX` gives,
/// node for node; a function of the bytes alone.
pub uninterp spec fn tsx_syntax_tree(source: Seq<u8>) -> SyntaxNode;

/// What tree-sitter's parse of `source` with the Python grammar `tree_sitter_python::LANGUAGE` gives,
/// node for node; a function of the bytes alone.
pub uninterp spec fn python_syntax_tree(source: Seq<u8>) -> SyntaxNode;

/// What tree-sitter's parse of `source` with the Rust grammar `tree_sitter_rust::LANGUAGE` gives,
/// node for node; a function of the bytes alone.
pub uninterp spec fn rust_syntax_tree(source: Seq<u8>) -> SyntaxNode;

/// A tree-sitter node and, below it, all its descendants, copied one for one: kind, whether
/// named, byte range, start and end points, and the children in order with the field each
/// stands under; `field` is the field of the node itself.
#[verifier::external_body]
fn copy_tree(n: &tree_sitter::Node, field: Option<&str>) -> SyntaxNode {
    let mut cursor = n.walk();
    let children = n.children(&mut cursor).enumerate().map(|(i, c)| copy_tree(&c, n.field_name_for_child(i as u32))).collect();
    let (start, end) = (n.start_position(), n.end_position());
    SyntaxNode {
        kind: n.kind().to_string(),
        field_name: field.map(|f| f.to_string()),
        is_named: n.is_named(),
        start_byte: n.start_byte(),
        end_byte: n.end_byte(),
        row: start.row,
        column: start.column,
        end_row: end.row,
        end_column: end.column,
        children,
    }
}

/// Parses `source` with the Go grammar `tree_sitter_go::LANGUAGE` and copies the tree; its
/// result is named `go_syntax_tree`. The grammar's ABI version is 15, within the 13 to 15
/// that `Parser::set_language` accepts, and `Parser::parse` fails only without a language,
/// with a progress callback or with a wasm grammar, none of which holds here: so a tree
/// always comes back. Its root stands under no field.
#[verifier::external_body]
fn parse_go(source: &[u8]) -> (r: Option<SyntaxNode>)
    ensures
        r == Some(go_syntax_tree(source@)),
        r->0.field_name is None,
{
    let mut parser = tree_sitter::Parser::new();
    match parser.set_language(&tree_sitter_go::LANGUAGE.into()) {
        Ok(()) => parser.parse(source, None).map(|t| copy_tree(&t.root_node(), None)),
        Err(_) => None,
    }
}

/// Parses `source` with the Java grammar `tree_sitter_java::LANGUAGE` and copies the tree; its
/// result is named `java_syntax_tree`. The grammar's ABI version is 14, within the 13 to 15
/// that `Parser::set_language` accepts, and `Parser::parse` fails only without a language,
/// with a progress callback or with a wasm grammar, none of which holds here: so a tree
/// always comes back. Its root stands under no field.
#[verifier::external_body]
fn parse_java(source: &[u8]) -> (r: Option<SyntaxNode>)
    ensures
        r == Some(java_syntax_tree(source@)),
        r->0.field_name is None,
{
    let mut parser = tree_sitter::Parser::new();
    match parser.set_language(&tree_sitter_java::LANGUAGE.into()) {
        Ok(()) => parser.parse(source, None).map(|t| copy_tree(&t.root_node(), None)),
        Err(_) => None,
    }
}

/// Parses `source` with the TSX grammar `tree_sitter_typescript::LANGUAGE_TSX` and copies the tree; its
/// result is named `tsx_syntax_tree`. The grammar's ABI version is 14, within the 13 to 15
/// that `Parser::set_language` accepts, and `Parser::parse` fails only without a language,
/// with a progress callback or with a wasm grammar, none of which holds here: so a tree
/// always comes back. Its root stands under no field.
#[verifier::external_body]
fn parse_tsx(source: &[u8]) -> (r: Option<SyntaxNode>)
    ensures
        r == Some(tsx_syntax_tree(source@)),
        r->0.field_name is None,
{
    let mut parser = tree_sitter::Parser::new();
    match parser.set_language(&tree_sitter_typescript::LANGUAGE_TSX.into()) {
        Ok(()) => parser.parse(source, None).map(|t| copy_tree(&t.root_node(), None)),
        Err(_) => None,
    }
}

/// Parses `source` with the Python grammar `tree_sitter_python::LANGUAGE` and copies the tree; its
/// result is named `python_syntax_tree`. The grammar's ABI version is 15, within the 13 to 15
/// that `Parser::set_language` accepts, and `Parser::parse` fails only without a language,
/// with a progress callback or with a wasm grammar, none of which holds here: so a tree
/// always comes back. Its root stands under no field.
#[verifier::external_body]
fn parse_python(source: &[u8]) -> (r: Option<SyntaxNode>)
    ensures
        r == Some(python_syntax_tree(source@)),
        r->0.field_name is None,
{
    let mut parser = tree_sitter::Parser::new();
    match parser.set_language(&tree_sitter_python::LANGUAGE.into()) {
        Ok(()) => parser.parse(source, None).map(|t| copy_tree(&t.root_node(), None)),
        Err(_) => None,
    }
}

/// Parses `source` with the Rust grammar `tree_sitter_rust::LANGUAGE` and copies the tree; its
/// result is named `rust_syntax_tree`. The grammar's ABI version is 15, within the 13 to 15
/// that `Parser::set_language` accepts, and `Parser::parse` fails only without a language,
/// with a progress callback or with a wasm grammar, none of which holds here: so a tree
/// always comes back. Its root stands under no field.
#[verifier::external_body]
fn parse_rust(source: &[u8]) -> (r: Option<SyntaxNode>)
    ensures
        r == Some(rust_syntax_tree(source@)),
        r->0.field_name is None,
{
    let mut parser = tree_sitter::Parser::new();
    match parser.set_language(&tree_sitter_rust::LANGUAGE.into()) {
        Ok(()) => parser.parse(source, None).map(|t| copy_tree(&t.root_node(), None)),
        Err(_) => None,
    }
}

/// A row as a line number counted from 1, saturating at `i64::MAX`.
pub open spec fn line_number(row: usize) -> i64 {
    if row < i64::MAX {
        (row + 1) as i64
    } else {
        i64::MAX
    }
}

/// A column as an `i64`, saturating at `i64::MAX`.
pub open spec fn column_number(col: usize) -> i64 {
    if col <= i64::MAX {
        col as i64
    } else {
        i64::MAX
    }
}

pub fn to_line(row: usize) -> (r: i64)
    ensures
        r == line_number(row),
{
    let r64 = row as u64;
    if r64 < 0x7fff_ffff_ffff_ffffu64 {
        (r64 + 1) as i64
    } else {
        0x7fff_ffff_ffff_ffffi64
    }
}

pub fn to_column(col: usize) -> (r: i64)
    ensures
        r == column_number(col),
{
    let c64 = col as u64;
    if c64 <= 0x7fff_ffff_ffff_ffffu64 {
        c64 as i64
    } else {
        0x7fff_ffff_ffff_ffffi64
    }
}

/// The depth of a tree: 1 for a leaf.
pub open spec fn depth(n: SyntaxNode) -> nat
    decreases n,
{
    1 + depth_of_list(n.children@, n.children@.len() as int)
}

/// The greatest depth among the first `k` nodes of `cs`.
pub open spec fn depth_of_list(cs: Seq<SyntaxNode>, k: int) -> nat
    decreases cs, k,
{
    if k <= 0 || k > cs.len() {
        0
    } else {
        let d = depth(cs[k - 1]);
        let rest = depth_of_list(cs, k - 1);
        if d > rest {
            d
        } else {
            rest
        }
    }
}

proof fn lemma_depth_of_list_member(cs: Seq<SyntaxNode>, k: int, i: int)
    requires
        0 <= i < k <= cs.len(),
    ensures
        depth(cs[i]) <= depth_of_list(cs, k),
    decreases k,
{
    if i < k - 1 {
        lemma_depth_of_list_member(cs, k - 1, i);
    }
}

/// A child is less deep than its parent.
pub proof fn lemma_child_depth(n: SyntaxNode, i: int)
    requires
        0 <= i < n.children@.len(),
    ensures
        depth(n.children@[i]) < depth(n),
{
    lemma_depth_of_list_member(n.children@, n.children@.len() as int, i);
}

/// The tree that tree-sitter's parse of `source` gives with the grammar of the language's
/// plugin (TSX for JavaScript and TypeScript).
pub open spec fn parsed_tree(language: LanguageId, source: Seq<u8>) -> SyntaxNode {
    match language {
        LanguageId::Go => go_syntax_tree(source),
        LanguageId::Java => java_syntax_tree(source),
        LanguageId::Js => tsx_syntax_tree(source),
        LanguageId::Python => python_syntax_tree(source),
        LanguageId::Rust => rust_syntax_tree(source),
    }
}

/// Parses `source` with the grammar of the language's plugin: the tree, copied node for node.
/// The parse always succeeds for the bundled grammars, and the root stands under no field.
pub fn parse_source(language: LanguageId, source: &[u8]) -> (r: SyntaxNode)
    ensures
        r == parsed_tree(language, source@),
        r.field_name is None,
{
    let parsed = match language {
        LanguageId::Go => parse_go(source),
        LanguageId::Java => parse_java(source),
        LanguageId::Js => parse_tsx(source),
        LanguageId::Python => parse_python(source),
        LanguageId::Rust => parse_rust(source),
    };
    parsed.unwrap()
}

} // verus!

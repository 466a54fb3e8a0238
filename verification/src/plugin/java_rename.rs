//! Java renames: the identifier nodes that a rename of a symbol rewrites, told apart by the
//! kinds of their parent and grandparent nodes and by the field they stand under.
use vstd::prelude::*;
use crate::model::{RenameError, RenameOccurrence, SymbolKind};
use crate::plugin::java::JavaPlugin;
use crate::rename::{cascades_to_children, is_type_kind};
use crate::syntax::{column_number, depth, kind_is, lemma_child_depth, line_number, node_text, text, to_column, to_line, SyntaxNode};
use crate::text::str_eq;

verus! {

/// An occurrence as plain values: line, column, byte offset and the text replaced.
pub open spec fn occurrence_view(o: RenameOccurrence) -> (i64, i64, int, Seq<char>) {
    (o.line, o.column, o.byte_offset as int, o.old_text@)
}

/// The occurrences as plain values.
pub open spec fn occurrences_view(s: Seq<RenameOccurrence>) -> Seq<(i64, i64, int, Seq<char>)> {
    s.map_values(|o: RenameOccurrence| occurrence_view(o))
}

/// Whether a node stands under the field `f` of its parent.
pub open spec fn under_field(n: SyntaxNode, f: Seq<char>) -> bool {
    match n.field_name {
        Some(x) => x@ == f,
        None => false,
    }
}

/// Whether a parent kind declares a type by name, or names a type: type declarations,
/// constructors (which carry the class name), annotations and the last part of a qualified
/// name (as in an import).
pub open spec fn type_name_parent(pk: Seq<char>) -> bool {
    pk == "class_declaration"@ || pk == "interface_declaration"@ || pk == "enum_declaration"@ || pk
        == "record_declaration"@ || pk == "annotation_type_declaration"@ || pk
        == "constructor_declaration"@ || pk == "marker_annotation"@ || pk == "annotation"@ || pk
        == "scoped_identifier"@
}

/// Whether a rename of a symbol of kind `kind` rewrites the node `n`, whose parent is of kind
/// `pk` and grandparent of kind `gpk`:
/// - a method: the name of a method declaration or of a method invocation;
/// - a type: every type identifier, and the name of a type declaration, a constructor, an
///   annotation or a qualified name;
/// - a field: the name declared by a field declaration, and the field of a field access;
/// - an enum constant: its declared name, and the field of a field access.
pub open spec fn java_rename_target(n: SyntaxNode, pk: Seq<char>, gpk: Seq<char>, kind: Seq<char>) -> bool {
    if kind == "method"@ {
        kind_is(n, "identifier"@) && under_field(n, "name"@) && (pk == "method_declaration"@ || pk
            == "method_invocation"@)
    } else if is_type_kind(kind) {
        kind_is(n, "type_identifier"@) || (kind_is(n, "identifier"@) && under_field(n, "name"@)
            && type_name_parent(pk))
    } else if kind == "field"@ {
        kind_is(n, "identifier"@) && ((under_field(n, "name"@) && pk == "variable_declarator"@ && gpk
            == "field_declaration"@) || (under_field(n, "field"@) && pk == "field_access"@))
    } else if kind == "enum_constant"@ {
        kind_is(n, "identifier"@) && ((under_field(n, "name"@) && pk == "enum_constant"@) || (
        under_field(n, "field"@) && pk == "field_access"@))
    } else {
        false
    }
}

/// The occurrences in a subtree, in document order, of the name `name` of a symbol of kind
/// `kind`; `pk` and `gpk` are the kinds of the subtree's parent and grandparent.
pub open spec fn java_rename_occurrences(
    n: SyntaxNode,
    pk: Seq<char>,
    gpk: Seq<char>,
    source: Seq<u8>,
    name: Seq<char>,
    kind: Seq<char>,
) -> Seq<(i64, i64, int, Seq<char>)>
    decreases depth(n), n.children@.len() + 1,
{
    (if java_rename_target(n, pk, gpk, kind) && node_text(n, source) == Some(name) {
        seq![(line_number(n.row), column_number(n.column), n.start_byte as int, name)]
    } else {
        Seq::empty()
    }) + java_rename_occurrences_in(n, pk, source, name, kind, n.children@.len() as int)
}

/// The occurrences in the first `k` children of `n`, whose parent is of kind `pk`.
pub open spec fn java_rename_occurrences_in(
    n: SyntaxNode,
    pk: Seq<char>,
    source: Seq<u8>,
    name: Seq<char>,
    kind: Seq<char>,
    k: int,
) -> Seq<(i64, i64, int, Seq<char>)>
    decreases depth(n), k,
{
    if k <= 0 || k > n.children@.len() {
        Seq::empty()
    } else {
        proof {
            lemma_child_depth(n, k - 1);
        }
        java_rename_occurrences_in(n, pk, source, name, kind, k - 1) + java_rename_occurrences(
            n.children@[k - 1],
            n.kind@,
            pk,
            source,
            name,
            kind,
        )
    }
}

fn field_is(n: &SyntaxNode, f: &str) -> (r: bool)
    ensures
        r == under_field(*n, f@),
{
    match &n.field_name {
        Some(x) => str_eq(x.as_str(), f),
        None => false,
    }
}

fn type_name_parent_exec(pk: &str) -> (r: bool)
    ensures
        r == type_name_parent(pk@),
{
    str_eq(pk, "class_declaration") || str_eq(pk, "interface_declaration") || str_eq(
        pk,
        "enum_declaration",
    ) || str_eq(pk, "record_declaration") || str_eq(pk, "annotation_type_declaration") || str_eq(
        pk,
        "constructor_declaration",
    ) || str_eq(pk, "marker_annotation") || str_eq(pk, "annotation") || str_eq(pk, "scoped_identifier")
}

fn is_target(n: &SyntaxNode, pk: &str, gpk: &str, kind: &SymbolKind) -> (r: bool)
    ensures
        r == java_rename_target(*n, pk@, gpk@, kind.0@),
{
    let k = kind.as_str();
    if str_eq(k, "method") {
        n.is_kind("identifier") && field_is(n, "name") && (str_eq(pk, "method_declaration") || str_eq(
            pk,
            "method_invocation",
        ))
    } else if cascades_to_children(kind) {
        n.is_kind("type_identifier") || (n.is_kind("identifier") && field_is(n, "name")
            && type_name_parent_exec(pk))
    } else if str_eq(k, "field") {
        n.is_kind("identifier") && ((field_is(n, "name") && str_eq(pk, "variable_declarator") && str_eq(
            gpk,
            "field_declaration",
        )) || (field_is(n, "field") && str_eq(pk, "field_access")))
    } else if str_eq(k, "enum_constant") {
        n.is_kind("identifier") && ((field_is(n, "name") && str_eq(pk, "enum_constant")) || (field_is(
            n,
            "field",
        ) && str_eq(pk, "field_access")))
    } else {
        false
    }
}

fn collect_occurrences(
    n: &SyntaxNode,
    pk: &str,
    gpk: &str,
    source: &[u8],
    name: &str,
    kind: &SymbolKind,
    out: &mut Vec<RenameOccurrence>,
)
    ensures
        occurrences_view(final(out)@) == occurrences_view(old(out)@) + java_rename_occurrences(
            *n,
            pk@,
            gpk@,
            source@,
            name@,
            kind.0@,
        ),
    decreases depth(*n),
{
    let ghost o0 = occurrences_view(out@);
    let mut own = false;
    if is_target(n, pk, gpk, kind) {
        match text(n, source) {
            Some(t) => {
                if str_eq(t.as_str(), name) {
                    let o = RenameOccurrence {
                        line: to_line(n.row),
                        column: to_column(n.column),
                        byte_offset: n.start_byte,
                        old_text: t,
                    };
                    proof {
                        assert(occurrences_view(out@.push(o)) =~= occurrences_view(out@).push(occurrence_view(o)));
                    }
                    out.push(o);
                    own = true;
                }
            },
            None => {},
        }
    }
    let ghost head = occurrences_view(out@);
    proof {
        let mine = if java_rename_target(*n, pk@, gpk@, kind.0@) && node_text(*n, source@) == Some(name@) {
            seq![(line_number(n.row), column_number(n.column), n.start_byte as int, name@)]
        } else {
            Seq::empty()
        };
        assert(head =~= o0 + mine);
        assert(head + java_rename_occurrences_in(*n, pk@, source@, name@, kind.0@, 0) =~= head);
    }
    let mut i: usize = 0;
    while i < n.children.len()
        invariant
            i <= n.children.len(),
            occurrences_view(out@) == head + java_rename_occurrences_in(*n, pk@, source@, name@, kind.0@, i as int),
        decreases n.children.len() - i,
    {
        proof {
            lemma_child_depth(*n, i as int);
        }
        collect_occurrences(&n.children[i], n.kind.as_str(), pk, source, name, kind, out);
        proof {
            let p = java_rename_occurrences_in(*n, pk@, source@, name@, kind.0@, i as int);
            let x = java_rename_occurrences(n.children@[i as int], n.kind@, pk@, source@, name@, kind.0@);
            assert((head + p) + x =~= head + (p + x));
        }
        i = i + 1;
    }
    proof {
        let mine = if java_rename_target(*n, pk@, gpk@, kind.0@) && node_text(*n, source@) == Some(name@) {
            seq![(line_number(n.row), column_number(n.column), n.start_byte as int, name@)]
        } else {
            Seq::empty()
        };
        let rest = java_rename_occurrences_in(*n, pk@, source@, name@, kind.0@, i as int);
        assert((o0 + mine) + rest =~= o0 + (mine + rest));
    }
}

impl JavaPlugin {
    /// Java supports rename.
    pub fn supports_rename(&self) -> (r: bool)
        ensures
            r,
    {
        true
    }

    /// The places in a parsed file that a rename of the symbol named `symbol_name`, of kind
    /// `symbol_kind`, rewrites, in document order. The qualified name is not consulted: the
    /// index has already chosen the files to look in.
    pub fn find_rename_occurrences(
        &self,
        root: &SyntaxNode,
        source: &[u8],
        symbol_name: &str,
        symbol_kind: &SymbolKind,
        symbol_qualified_name: &str,
    ) -> (r: Result<Vec<RenameOccurrence>, RenameError>)
        ensures
            r matches Ok(v) && occurrences_view(v@) == java_rename_occurrences(
                *root,
                ""@,
                ""@,
                source@,
                symbol_name@,
                symbol_kind.0@,
            ),
    {
        let mut out: Vec<RenameOccurrence> = Vec::new();
        proof {
            assert(occurrences_view(out@) =~= Seq::<(i64, i64, int, Seq<char>)>::empty());
        }
        collect_occurrences(root, "", "", source, symbol_name, symbol_kind, &mut out);
        proof {
            let x = java_rename_occurrences(*root, ""@, ""@, source@, symbol_name@, symbol_kind.0@);
            assert(Seq::<(i64, i64, int, Seq<char>)>::empty() + x =~= x);
        }
        Ok(out)
    }
}

} // verus!

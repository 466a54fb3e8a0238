//! The index store: the queries it answers, and the decisions it makes on the rows it reads
//! (glob matching, wildcard-import resolution, symbol and relationship ids). The database
//! itself lives with the caller.
use vstd::prelude::*;
use crate::model::{ExtractedRelationship, ExtractedSymbol, FileId, FileRecord, RelationshipKind, Symbol, SymbolId, SymbolQuery};
use crate::text::{after_last, dotted, suffix_after_last, views};

verus! {

/// Statistics of one language in the index: its files, its symbols and relationships counted
/// by kind (ordered by kind), and its relationships whose target is not resolved.
pub struct LanguageStats {
    pub files: u64,
    pub symbols: Vec<(String, u64)>,
    pub relationships: Vec<(String, u64)>,
    pub unresolved: u64,
}

/// The operations of an index store.
pub trait Store {
    fn upsert_file(&self, path: &str, mtime: i64, hash: Option<&str>, language: &str) -> Result<FileId, String>;
    fn get_file(&self, path: &str) -> Result<Option<FileRecord>, String>;
    fn list_files(&self) -> Result<Vec<FileRecord>, String>;
    fn delete_file(&self, file_id: FileId) -> Result<(), String>;
    fn insert_symbols(&self, file_id: FileId, symbols: &[ExtractedSymbol]) -> Result<Vec<SymbolId>, String>;
    fn delete_symbols_for_file(&self, file_id: FileId) -> Result<(), String>;
    fn insert_relationships(&self, file_id: FileId, symbol_id_map: &[(usize, SymbolId)], relationships: &[ExtractedRelationship]) -> Result<(), String>;
    fn delete_relationships_for_file(&self, file_id: FileId) -> Result<(), String>;
    fn resolve_relationships(&self) -> Result<u64, String>;
    fn resolve_wildcard_imports(&self, file_id: FileId, prefixes: &[String]) -> Result<u64, String>;
    fn find_symbol(&self, query: &SymbolQuery) -> Result<Vec<Symbol>, String>;
    fn find_references(&self, symbol_id: SymbolId) -> Result<Vec<Symbol>, String>;
    fn find_implementations(&self, symbol_id: SymbolId) -> Result<Vec<Symbol>, String>;
    fn find_supertypes(&self, symbol_id: SymbolId) -> Result<Vec<Symbol>, String>;
    fn find_callers(&self, symbol_id: SymbolId) -> Result<Vec<Symbol>, String>;
    fn find_callees(&self, symbol_id: SymbolId) -> Result<Vec<Symbol>, String>;
    fn symbols_in_file(&self, file_path: &str) -> Result<Vec<Symbol>, String>;
    fn symbols_in_package(&self, package: &str, query: &SymbolQuery) -> Result<Vec<Symbol>, String>;
    fn index_stats(&self) -> Result<Vec<(String, LanguageStats)>, String>;
    fn begin_transaction(&self) -> Result<(), String>;
    fn commit_transaction(&self) -> Result<(), String>;
    fn clear_all(&self) -> Result<(), String>;
    fn update_symbol_name(&self, symbol_id: SymbolId, new_name: &str, new_qualified_name: &str, new_signature: Option<&str>) -> Result<(), String>;
    fn update_child_qualified_names(&self, parent_symbol_id: SymbolId, old_prefix: &str, new_prefix: &str) -> Result<(), String>;
    fn update_relationship_targets(&self, old_qualified_name: &str, new_qualified_name: &str) -> Result<(), String>;
    fn update_file_mtime(&self, file_id: FileId, new_mtime: i64) -> Result<(), String>;
}

// ---------------------------------------------------------------------------------------------
// Glob patterns
// ---------------------------------------------------------------------------------------------

/// The SQL `LIKE` form of one glob character: `*` and `?` become `%` and `_`, a literal `%`
/// or `_` is escaped with `\`.
pub open spec fn like_of(c: char) -> Seq<char> {
    if c == '*' {
        seq!['%']
    } else if c == '?' {
        seq!['_']
    } else if c == '%' {
        seq!['\\', '%']
    } else if c == '_' {
        seq!['\\', '_']
    } else {
        seq![c]
    }
}

/// The SQL `LIKE` pattern of a glob pattern.
pub open spec fn like_pattern(p: Seq<char>) -> Seq<char>
    decreases p.len(),
{
    if p.len() == 0 {
        Seq::empty()
    } else {
        like_pattern(p.drop_last()) + like_of(p.last())
    }
}

/// The SQL `LIKE` pattern of a glob pattern: a first filter, which the glob itself refines.
pub fn glob_to_like(pattern: &str) -> (r: String)
    ensures
        r@ == like_pattern(pattern@),
{
    let v = crate::text::chars_of(pattern);
    let mut like = String::new();
    let mut i: usize = 0;
    while i < v.len()
        invariant
            i <= v.len(),
            v@ == pattern@,
            like@ == like_pattern(pattern@.take(i as int)),
        decreases v.len() - i,
    {
        let c = v[i];
        proof {
            assert(pattern@.take(i + 1).drop_last() =~= pattern@.take(i as int));
            assert(pattern@.take(i + 1).last() == c);
        }
        if c == '*' {
            crate::text::push_char(&mut like, '%');
        } else if c == '?' {
            crate::text::push_char(&mut like, '_');
        } else if c == '%' {
            crate::text::push_char(&mut like, '\\');
            crate::text::push_char(&mut like, '%');
        } else if c == '_' {
            crate::text::push_char(&mut like, '\\');
            crate::text::push_char(&mut like, '_');
        } else {
            crate::text::push_char(&mut like, c);
        }
        proof {
            assert(like@ =~= like_pattern(pattern@.take(i as int)) + like_of(c));
        }
        i = i + 1;
    }
    proof {
        assert(pattern@.take(v.len() as int) =~= pattern@);
    }
    like
}

/// Whether `glob_match::glob_match` matches `text` against the glob `pattern`.
pub uninterp spec fn glob_matches(pattern: Seq<char>, text: Seq<char>) -> bool;

/// What `str::to_lowercase` gives for `s`.
pub uninterp spec fn lowercase(s: Seq<char>) -> Seq<char>;

/// Calls `glob_match::glob_match`; its result is named `glob_matches`.
#[verifier::external_body]
fn glob_match(pattern: &str, text: &str) -> (r: bool)
    ensures
        r == glob_matches(pattern@, text@),
{
    glob_match::glob_match(pattern, text)
}

/// Calls `str::to_lowercase`; its result is named `lowercase`.
#[verifier::external_body]
fn to_lowercase(s: &str) -> (r: String)
    ensures
        r@ == lowercase(s@),
{
    s.to_lowercase()
}

/// Whether a glob matches a text, ignoring case where asked (both lowercased).
pub open spec fn glob_hit(pattern: Seq<char>, case_insensitive: bool, text: Seq<char>) -> bool {
    if case_insensitive {
        glob_matches(lowercase(pattern), lowercase(text))
    } else {
        glob_matches(pattern, text)
    }
}

/// Whether the glob matches `text`, ignoring case where asked.
pub fn glob_hits(pattern: &str, case_insensitive: bool, text: &str) -> (r: bool)
    ensures
        r == glob_hit(pattern@, case_insensitive, text@),
{
    if case_insensitive {
        let p = to_lowercase(pattern);
        let t = to_lowercase(text);
        glob_match(p.as_str(), t.as_str())
    } else {
        glob_match(pattern, text)
    }
}

/// Whether a symbol answers a query's pattern: by its name or its qualified name.
pub open spec fn answers(pattern: Seq<char>, case_insensitive: bool, s: Symbol) -> bool {
    glob_hit(pattern, case_insensitive, s.name@) || glob_hit(pattern, case_insensitive, s.qualified_name@)
}

/// Whether a symbol's name answers a pattern.
pub open spec fn name_answers(pattern: Seq<char>, case_insensitive: bool, s: Symbol) -> bool {
    glob_hit(pattern, case_insensitive, s.name@)
}

/// The rows that the glob matches by name or qualified name, in order: the precise filter
/// after the `LIKE` pattern.
pub fn filter_by_glob(rows: Vec<Symbol>, pattern: &str, case_insensitive: bool) -> (r: Vec<Symbol>)
    ensures
        r@ == rows@.filter(|s: Symbol| answers(pattern@, case_insensitive, s)),
{
    let ghost all = rows@;
    let mut cs = rows;
    let mut out: Vec<Symbol> = Vec::new();
    let ghost mut i: int = 0;
    while cs.len() > 0
        invariant
            0 <= i <= all.len(),
            cs@ == all.skip(i),
            out@ == all.take(i).filter(|s: Symbol| answers(pattern@, case_insensitive, s)),
        decreases cs.len(),
    {
        let s = cs.remove(0);
        proof {
            reveal_with_fuel(Seq::filter, 1);
            assert(all.take(i + 1).drop_last() =~= all.take(i));
            assert(all.take(i + 1).last() == s);
            assert(cs@ =~= all.skip(i + 1));
            i = i + 1;
        }
        let keep = glob_hits(pattern, case_insensitive, s.name.as_str()) || glob_hits(
            pattern,
            case_insensitive,
            s.qualified_name.as_str(),
        );
        if keep {
            out.push(s);
        }
    }
    proof {
        assert(all.take(i) =~= all);
    }
    out
}

/// The rows whose name the glob matches, in order.
pub fn filter_by_name_glob(rows: Vec<Symbol>, pattern: &str, case_insensitive: bool) -> (r: Vec<Symbol>)
    ensures
        r@ == rows@.filter(|s: Symbol| name_answers(pattern@, case_insensitive, s)),
{
    let ghost all = rows@;
    let mut cs = rows;
    let mut out: Vec<Symbol> = Vec::new();
    let ghost mut i: int = 0;
    while cs.len() > 0
        invariant
            0 <= i <= all.len(),
            cs@ == all.skip(i),
            out@ == all.take(i).filter(|s: Symbol| name_answers(pattern@, case_insensitive, s)),
        decreases cs.len(),
    {
        let s = cs.remove(0);
        proof {
            reveal_with_fuel(Seq::filter, 1);
            assert(all.take(i + 1).drop_last() =~= all.take(i));
            assert(all.take(i + 1).last() == s);
            assert(cs@ =~= all.skip(i + 1));
            i = i + 1;
        }
        if glob_hits(pattern, case_insensitive, s.name.as_str()) {
            out.push(s);
        }
    }
    proof {
        assert(all.take(i) =~= all);
    }
    out
}

// ---------------------------------------------------------------------------------------------
// Wildcard imports
// ---------------------------------------------------------------------------------------------

/// The names a target might stand for under wildcard imports: each imported package followed
/// by the target's simple name (its last dotted part).
pub open spec fn wildcard_names(prefixes: Seq<Seq<char>>, target: Seq<char>) -> Seq<Seq<char>> {
    prefixes.map_values(|p: Seq<char>| p + "."@ + after_last(target, '.'))
}

/// The candidate qualified names of an unresolved target under the wildcard imports.
pub fn wildcard_candidates(prefixes: &[String], target: &str) -> (r: Vec<String>)
    ensures
        views(r@) == wildcard_names(views(prefixes@), target@),
{
    let simple = suffix_after_last(target, '.');
    let mut out: Vec<String> = Vec::new();
    let mut i: usize = 0;
    while i < prefixes.len()
        invariant
            i <= prefixes.len(),
            simple@ == after_last(target@, '.'),
            views(out@) == wildcard_names(views(prefixes@).take(i as int), target@),
        decreases prefixes.len() - i,
    {
        let c = dotted(prefixes[i].as_str(), simple.as_str());
        proof {
            assert(views(out@.push(c)) =~= views(out@).push(c@));
            assert(views(prefixes@).take(i + 1) =~= views(prefixes@).take(i as int).push(prefixes@[i as int]@));
            assert(wildcard_names(views(prefixes@).take(i + 1), target@) =~= wildcard_names(views(prefixes@).take(i as int), target@).push(c@));
        }
        out.push(c);
        i = i + 1;
    }
    proof {
        assert(views(prefixes@).take(i as int) =~= views(prefixes@));
    }
    out
}

/// The resolution of a target under wildcard imports: the one candidate that the index
/// holds, where exactly one does; none where several or none do.
pub fn unique_candidate(existing: Vec<String>) -> (r: Option<String>)
    ensures
        existing@.len() == 1 ==> r == Some(existing@[0]),
        existing@.len() != 1 ==> r is None,
{
    if existing.len() == 1 {
        let mut e = existing;
        e.pop()
    } else {
        None
    }
}

// ---------------------------------------------------------------------------------------------
// Ids of stored symbols
// ---------------------------------------------------------------------------------------------

/// The pairs of local id and stored id, in order.
pub fn symbol_id_map(symbols: &[ExtractedSymbol], ids: &[SymbolId]) -> (r: Vec<(usize, SymbolId)>)
    requires
        ids@.len() == symbols@.len(),
    ensures
        r@.len() == symbols@.len(),
        forall|i: int| 0 <= i < r@.len() ==> #[trigger] r@[i] == (symbols@[i].local_id, ids@[i]),
{
    let mut out: Vec<(usize, SymbolId)> = Vec::new();
    let mut i: usize = 0;
    while i < symbols.len()
        invariant
            i <= symbols.len(),
            ids@.len() == symbols@.len(),
            out@.len() == i,
            forall|k: int| 0 <= k < i ==> #[trigger] out@[k] == (symbols@[k].local_id, ids@[k]),
        decreases symbols.len() - i,
    {
        out.push((symbols[i].local_id, ids[i]));
        i = i + 1;
    }
    out
}

/// The id that a local-id map gives `l`: the last pair with that local id.
pub open spec fn map_id(map: Seq<(usize, i64)>, l: usize) -> Option<i64>
    decreases map.len(),
{
    if map.len() == 0 {
        None
    } else if map.last().0 == l {
        Some(map.last().1)
    } else {
        map_id(map.drop_last(), l)
    }
}

fn lookup_id(map: &[(usize, i64)], l: usize) -> (r: Option<i64>)
    ensures
        r == map_id(map@, l),
{
    let mut i: usize = map.len();
    proof {
        assert(map@.take(map@.len() as int) =~= map@);
    }
    while i > 0
        invariant
            i <= map.len(),
            map_id(map@, l) == map_id(map@.take(i as int), l),
        decreases i,
    {
        proof {
            assert(map@.take(i as int).drop_last() =~= map@.take(i - 1));
        }
        if map[i - 1].0 == l {
            return Some(map[i - 1].1);
        }
        i = i - 1;
    }
    None
}

/// The parent links to store: for each symbol with a parent that the file holds, the pair of
/// its stored id and its parent's stored id, in symbol order.
pub open spec fn parent_links_spec(symbols: Seq<ExtractedSymbol>, map: Seq<(usize, i64)>, k: int) -> Seq<(i64, i64)>
    decreases k,
{
    if k <= 0 || k > symbols.len() {
        Seq::empty()
    } else {
        let pre = parent_links_spec(symbols, map, k - 1);
        let s = symbols[k - 1];
        match s.parent_local_id {
            Some(p) => match (map_id(map, p), map_id(map, s.local_id)) {
                (Some(pid), Some(id)) => pre.push((id, pid)),
                _ => pre,
            },
            None => pre,
        }
    }
}

/// The parent links of stored symbols, from the local-id map.
pub fn parent_links(symbols: &[ExtractedSymbol], map: &[(usize, SymbolId)]) -> (r: Vec<(SymbolId, SymbolId)>)
    ensures
        r@ == parent_links_spec(symbols@, map@, symbols@.len() as int),
{
    let mut out: Vec<(SymbolId, SymbolId)> = Vec::new();
    let mut i: usize = 0;
    while i < symbols.len()
        invariant
            i <= symbols.len(),
            out@ == parent_links_spec(symbols@, map@, i as int),
        decreases symbols.len() - i,
    {
        match symbols[i].parent_local_id {
            Some(p) => match (lookup_id(map, p), lookup_id(map, symbols[i].local_id)) {
                (Some(pid), Some(id)) => out.push((id, pid)),
                _ => {},
            },
            None => {},
        }
        i = i + 1;
    }
    out
}

/// The relationship rows to store: each relationship whose source the map knows, with the
/// source's stored id, in order.
pub open spec fn relationship_rows_spec(map: Seq<(usize, i64)>, rels: Seq<ExtractedRelationship>, k: int) -> Seq<(i64, Seq<char>, RelationshipKind)>
    decreases k,
{
    if k <= 0 || k > rels.len() {
        Seq::empty()
    } else {
        let pre = relationship_rows_spec(map, rels, k - 1);
        let r = rels[k - 1];
        match map_id(map, r.source_local_id) {
            Some(id) => pre.push((id, r.target_qualified_name@, r.kind)),
            None => pre,
        }
    }
}

/// The relationship rows to store.
pub fn relationship_rows(map: &[(usize, SymbolId)], rels: &[ExtractedRelationship]) -> (r: Vec<(SymbolId, String, RelationshipKind)>)
    ensures
        r@.map_values(|x: (SymbolId, String, RelationshipKind)| (x.0, x.1@, x.2)) == relationship_rows_spec(map@, rels@, rels@.len() as int),
{
    let mut out: Vec<(SymbolId, String, RelationshipKind)> = Vec::new();
    let mut i: usize = 0;
    while i < rels.len()
        invariant
            i <= rels.len(),
            out@.map_values(|x: (SymbolId, String, RelationshipKind)| (x.0, x.1@, x.2)) == relationship_rows_spec(map@, rels@, i as int),
        decreases rels.len() - i,
    {
        match lookup_id(map, rels[i].source_local_id) {
            Some(id) => {
                let row = (id, rels[i].target_qualified_name.clone(), rels[i].kind);
                proof {
                    assert(out@.push(row).map_values(|x: (SymbolId, String, RelationshipKind)| (x.0, x.1@, x.2)) =~= out@.map_values(|x: (SymbolId, String, RelationshipKind)| (x.0, x.1@, x.2)).push((row.0, row.1@, row.2)));
                }
                out.push(row);
            },
            None => {},
        }
        i = i + 1;
    }
    out
}

} // verus!

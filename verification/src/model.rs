//! The data model shared by the plugins, the store and the query engine.
use vstd::prelude::*;

verus! {

pub type FileId = i64;

pub type SymbolId = i64;

/// Kind of a symbol, such as `class`, `method`, `struct` or `type-alias`.
#[derive(Debug, PartialEq, Eq)]
pub struct SymbolKind(pub String);

/// The kinds of symbol that the plugins give, and that a `--kind` option accepts.
pub open spec fn known_kind(k: Seq<char>) -> bool {
    k == "class"@ || k == "interface"@ || k == "enum"@ || k == "record"@ || k == "annotation"@
        || k == "method"@ || k == "field"@ || k == "constructor"@ || k == "function"@ || k
        == "struct"@ || k == "trait"@ || k == "variant"@ || k == "type-alias"@
}

impl SymbolKind {
    pub fn new(s: &str) -> (k: SymbolKind)
        ensures
            k.0@ == s@,
    {
        SymbolKind(s.to_string())
    }

    pub fn as_str(&self) -> (s: &str)
        ensures
            s@ == self.0@,
    {
        self.0.as_str()
    }

    /// A copy of this kind.
    pub fn duplicate(&self) -> (k: SymbolKind)
        ensures
            k == *self,
    {
        SymbolKind(self.0.clone())
    }
}

/// Visibility of a symbol, such as `public`, `package-private` or `pub(crate)`.
#[derive(Debug, PartialEq, Eq)]
pub struct Visibility(pub String);

impl Visibility {
    pub fn new(s: &str) -> (v: Visibility)
        ensures
            v.0@ == s@,
    {
        Visibility(s.to_string())
    }

    pub fn as_str(&self) -> (s: &str)
        ensures
            s@ == self.0@,
    {
        self.0.as_str()
    }

    /// A copy of this visibility.
    pub fn duplicate(&self) -> (v: Visibility)
        ensures
            v == *self,
    {
        Visibility(self.0.clone())
    }
}

/// Kind of a relationship between two symbols.
#[derive(Debug, Clone, Copy, PartialEq, Eq, Structural)]
pub enum RelationshipKind {
    Extends,
    Implements,
    Calls,
    FieldType,
    AnnotatedBy,
}

/// The name under which a relationship kind is stored and printed.
pub open spec fn relationship_kind_name(k: RelationshipKind) -> Seq<char> {
    match k {
        RelationshipKind::Extends => "extends"@,
        RelationshipKind::Implements => "implements"@,
        RelationshipKind::Calls => "calls"@,
        RelationshipKind::FieldType => "field-type"@,
        RelationshipKind::AnnotatedBy => "annotated-by"@,
    }
}

impl RelationshipKind {
    pub fn as_str(&self) -> (s: &'static str)
        ensures
            s@ == relationship_kind_name(*self),
    {
        match self {
            RelationshipKind::Extends => "extends",
            RelationshipKind::Implements => "implements",
            RelationshipKind::Calls => "calls",
            RelationshipKind::FieldType => "field-type",
            RelationshipKind::AnnotatedBy => "annotated-by",
        }
    }
}

/// A source file known to the index.
#[derive(Debug)]
pub struct FileRecord {
    pub id: FileId,
    pub path: String,
    pub mtime: i64,
    pub hash: Option<String>,
    pub language: String,
}

/// A symbol as stored in the index.
#[derive(Debug)]
pub struct Symbol {
    pub id: SymbolId,
    pub name: String,
    pub signature: Option<String>,
    pub qualified_name: String,
    pub kind: SymbolKind,
    pub visibility: Visibility,
    pub file_id: FileId,
    pub file_path: String,
    pub line: i64,
    pub column: i64,
    pub end_line: i64,
    pub end_column: i64,
    pub parent_symbol_id: Option<SymbolId>,
    pub package: String,
}

/// A symbol found by a plugin in one file, before it is stored.
#[derive(Debug)]
pub struct ExtractedSymbol {
    pub local_id: usize,
    pub name: String,
    pub signature: Option<String>,
    pub qualified_name: String,
    pub kind: SymbolKind,
    pub visibility: Visibility,
    pub line: i64,
    pub column: i64,
    pub end_line: i64,
    pub end_column: i64,
    pub parent_local_id: Option<usize>,
    pub package: String,
    pub type_text: Option<String>,
}

/// A relationship found by a plugin, from one of the file's symbols to a target name.
#[derive(Debug)]
pub struct ExtractedRelationship {
    pub source_local_id: usize,
    pub target_qualified_name: String,
    pub kind: RelationshipKind,
}

/// What a plugin finds in one file.
#[derive(Debug)]
pub struct ExtractionResult {
    pub symbols: Vec<ExtractedSymbol>,
    pub relationships: Vec<ExtractedRelationship>,
    pub wildcard_imports: Vec<String>,
}

/// An optional feature that a plugin can offer.
#[derive(Debug, Clone, Copy, PartialEq, Eq, Structural)]
pub enum PluginCapability {
    Rename,
}

/// One place in a file where a name would be rewritten by a rename.
#[derive(Debug)]
pub struct RenameOccurrence {
    pub line: i64,
    pub column: i64,
    pub byte_offset: usize,
    pub old_text: String,
}

/// Why a rename could not be carried out.
#[derive(Debug)]
pub enum RenameError {
    NotSupported { language: String },
}

/// A query for symbols by glob pattern, optionally case-insensitive and of one kind.
#[derive(Debug)]
pub struct SymbolQuery {
    pub pattern: String,
    pub case_insensitive: bool,
    pub kind: Option<SymbolKind>,
}

} // verus!

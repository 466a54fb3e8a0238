# codix

A code index for Java, Go, Python, JavaScript/TypeScript and Rust projects: it extracts the
symbols and relationships of each source file with tree-sitter, keeps them in an SQLite
index that is brought up to date incrementally, and answers queries about them.

The library under `src/` is verified with Verus:

- `model`, `text`: the data model and the string functions the rest builds on.
- `syntax`: the tree-sitter parse of a file, copied node for node into plain values that the
  plugins walk; the tree is stated as a function of the grammar and the bytes alone.
- `plugin`: one module per language; each extraction has an exact specification of the
  symbols, relationships and wildcard imports it yields for a given tree. `java_rename`
  finds the identifiers a Java rename rewrites.
- `config`, `config_laws`: the INI-style configuration text, with the laws that a read gives
  back what a write wrote and that a write or a removal leaves every other entry alone.
- `project`, `indexer`, `store`, `rename`, `cli`: paths, the decisions of (re)indexing, the
  glob and id bookkeeping around the store, rename checks and edits, and command output.

`app/` holds the command-line program: argument parsing, file and database I/O, and the
loops that feed the library (indexing, queries, and the rename dry run and its application).

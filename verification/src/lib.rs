//! codix: a code symbol indexer. It parses source files, extracts their symbols and the
//! relationships between them, and answers queries over the resulting index.
pub mod model;
pub mod text;
pub mod config;
pub mod config_laws;
pub mod syntax;
pub mod plugin;
pub mod rename;
pub mod project;
pub mod store;
pub mod indexer;
pub mod cli;

//! The project layout: the `.codix` directory at the project root, the paths of the index
//! and the configuration inside it, and the conversion of file paths between the forms the
//! index stores and shows.
use vstd::prelude::*;
use crate::text::opt_view;

verus! {

/// What `std::path::Path::join` gives for `base` and `tail`, as a string.
pub uninterp spec fn path_join(base: Seq<char>, tail: Seq<char>) -> Seq<char>;

/// What `std::path::Path::strip_prefix` gives for `path` and `prefix`: the rest of `path`
/// after the components of `prefix`, where `prefix` is a leading part of it.
pub uninterp spec fn path_strip_prefix(path: Seq<char>, prefix: Seq<char>) -> Option<Seq<char>>;

/// What `pathdiff::diff_paths` gives for `path` and `base`: `path` written relative to
/// `base`, where the two paths allow it.
pub uninterp spec fn path_diff(path: Seq<char>, base: Seq<char>) -> Option<Seq<char>>;

/// What `std::path::Path::parent` gives for `path`.
pub uninterp spec fn path_parent(path: Seq<char>) -> Option<Seq<char>>;

/// What `std::path::Path::starts_with` says of `path` and `base`: whether the components of
/// `base` begin those of `path`.
pub uninterp spec fn path_starts_with(path: Seq<char>, base: Seq<char>) -> bool;

/// Calls `std::path::Path::join`; its result is named `path_join`.
#[verifier::external_body]
pub fn join_path(base: &str, tail: &str) -> (r: String)
    ensures
        r@ == path_join(base@, tail@),
{
    std::path::Path::new(base).join(tail).to_string_lossy().into_owned()
}

/// Calls `std::path::Path::strip_prefix`; its result is named `path_strip_prefix`.
#[verifier::external_body]
fn strip_path_prefix(path: &str, prefix: &str) -> (r: Option<String>)
    ensures
        opt_view(r) == path_strip_prefix(path@, prefix@),
{
    std::path::Path::new(path).strip_prefix(prefix).ok().map(|p| p.to_string_lossy().into_owned())
}

/// Calls `pathdiff::diff_paths`; its result is named `path_diff`.
#[verifier::external_body]
fn diff_path(path: &str, base: &str) -> (r: Option<String>)
    ensures
        opt_view(r) == path_diff(path@, base@),
{
    pathdiff::diff_paths(path, base).map(|p| p.to_string_lossy().into_owned())
}

/// Calls `std::path::Path::parent`; its result is named `path_parent`.
#[verifier::external_body]
fn parent_path(path: &str) -> (r: Option<String>)
    ensures
        opt_view(r) == path_parent(path@),
{
    std::path::Path::new(path).parent().map(|p| p.to_string_lossy().into_owned())
}

/// Calls `std::path::Path::starts_with`; its result is named `path_starts_with`.
#[verifier::external_body]
pub fn path_has_prefix(path: &str, base: &str) -> (r: bool)
    ensures
        r == path_starts_with(path@, base@),
{
    std::path::Path::new(path).starts_with(base)
}

/// The directory of a project's index, under the project root.
pub open spec fn codix_dir(root: Seq<char>) -> Seq<char> {
    path_join(root, ".codix"@)
}

/// The path of the index database: `.codix/index.db` under the root.
pub fn db_path(root: &str) -> (r: String)
    ensures
        r@ == path_join(path_join(root@, ".codix"@), "index.db"@),
{
    let dir = join_path(root, ".codix");
    join_path(dir.as_str(), "index.db")
}

/// The directory of the index under the root: `.codix`.
pub fn codix_dir_path(root: &str) -> (r: String)
    ensures
        r@ == codix_dir(root@),
{
    join_path(root, ".codix")
}

/// A file's path as the index stores it: relative to the root where the file lies under it,
/// as given otherwise.
pub fn relative_to_root(root: &str, file: &str) -> (r: String)
    ensures
        r@ == match path_strip_prefix(file@, root@) {
            Some(rel) => rel,
            None => file@,
        },
{
    match strip_path_prefix(file, root) {
        Some(rel) => rel,
        None => file.to_string(),
    }
}

/// A stored path as shown to the user: relative to the current directory where possible,
/// the stored path otherwise.
pub fn display_path(root: &str, cwd: &str, stored_path: &str) -> (r: String)
    ensures
        r@ == match path_diff(path_join(root@, stored_path@), cwd@) {
            Some(p) => p,
            None => stored_path@,
        },
{
    let abs = join_path(root, stored_path);
    match diff_path(abs.as_str(), cwd) {
        Some(p) => p,
        None => stored_path.to_string(),
    }
}

/// One step of the search for the project root, which walks up from the (canonical) start
/// directory to the first directory holding `.codix`.
#[derive(Debug)]
pub enum RootSearch {
    /// `current` holds `.codix`: it is the root.
    Found(String),
    /// Look next in this directory.
    Next(String),
    /// `current` has no parent: there is no project.
    NotFound,
}

/// The step of the root search at `current`, given whether it holds a `.codix` directory.
pub fn find_project_root(current: &str, has_codix_dir: bool) -> (r: RootSearch)
    ensures
        has_codix_dir ==> (r matches RootSearch::Found(p) && p@ == current@),
        !has_codix_dir ==> match path_parent(current@) {
            Some(q) => r matches RootSearch::Next(p) && p@ == q,
            None => r is NotFound,
        },
{
    if has_codix_dir {
        return RootSearch::Found(current.to_string());
    }
    match parent_path(current) {
        Some(p) => RootSearch::Next(p),
        None => RootSearch::NotFound,
    }
}

/// The message of a failed root search.
pub fn no_project_message() -> (r: &'static str)
    ensures
        r@ == "No codix project found. Run 'codix init' in your project root."@,
{
    "No codix project found. Run 'codix init' in your project root."
}

/// The message of an `init` in an initialized directory.
pub fn already_initialized_message() -> (r: &'static str)
    ensures
        r@ == "codix project already initialized in this directory."@,
{
    "codix project already initialized in this directory."
}

} // verus!

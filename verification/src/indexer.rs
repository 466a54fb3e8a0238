//! Indexing: which files a plugin handles, the content hash of a file, and the decisions of
//! an incremental reindex (new, modified, unchanged and deleted files). Walking the file
//! system, reading files and writing the store are left to the caller.
use vstd::prelude::*;
use crate::model::FileRecord;
use crate::plugin::{extension_in, language_extensions, path_extension, LanguageId};
use crate::project::{codix_dir, join_path, path_has_prefix, path_starts_with};
use crate::text::{
    digit_char, lemma_contains_push, lemma_seq_less_total, lemma_seq_less_transitive, opt_view, seq_less,
    str_eq, str_less, views,
};

verus! {

/// What an incremental reindex did.
pub struct ReindexStats {
    pub added: Vec<String>,
    pub modified: Vec<String>,
    pub deleted: Vec<String>,
    pub unchanged: u64,
    pub elapsed_ms: u128,
}

/// What became of one file in a reindex.
#[derive(Clone, Copy, PartialEq, Eq, Debug, Structural)]
pub enum FileOutcome {
    Added,
    Modified,
    Deleted,
    Unchanged,
}

impl ReindexStats {
    /// Nothing done yet.
    pub fn new() -> (r: ReindexStats)
        ensures
            r.added@.len() == 0,
            r.modified@.len() == 0,
            r.deleted@.len() == 0,
            r.unchanged == 0,
            r.elapsed_ms == 0,
    {
        ReindexStats { added: Vec::new(), modified: Vec::new(), deleted: Vec::new(), unchanged: 0, elapsed_ms: 0 }
    }

    /// Records what became of the file at `path`.
    pub fn record(&mut self, path: String, outcome: FileOutcome)
        requires
            outcome == FileOutcome::Unchanged ==> old(self).unchanged < u64::MAX,
        ensures
            final(self).elapsed_ms == old(self).elapsed_ms,
            final(self).added@ == if outcome == FileOutcome::Added { old(self).added@.push(path) } else { old(self).added@ },
            final(self).modified@ == if outcome == FileOutcome::Modified { old(self).modified@.push(path) } else { old(self).modified@ },
            final(self).deleted@ == if outcome == FileOutcome::Deleted { old(self).deleted@.push(path) } else { old(self).deleted@ },
            final(self).unchanged == if outcome == FileOutcome::Unchanged { old(self).unchanged + 1 } else { old(self).unchanged as int },
    {
        match outcome {
            FileOutcome::Added => self.added.push(path),
            FileOutcome::Modified => self.modified.push(path),
            FileOutcome::Deleted => self.deleted.push(path),
            FileOutcome::Unchanged => self.unchanged = self.unchanged + 1,
        }
    }

    /// Whether the reindex changed the index: a file was added, modified or deleted.
    pub fn changed(&self) -> (r: bool)
        ensures
            r == (self.added@.len() > 0 || self.modified@.len() > 0 || self.deleted@.len() > 0),
    {
        self.added.len() > 0 || self.modified.len() > 0 || self.deleted.len() > 0
    }
}

// ---------------------------------------------------------------------------------------------
// Content hashes
// ---------------------------------------------------------------------------------------------

/// The SHA-256 digest of `data`, as `sha2::Sha256` computes it.
pub uninterp spec fn sha256(data: Seq<u8>) -> Seq<u8>;

/// Calls `sha2::Sha256::digest`, whose result is named `sha256` and has 32 bytes.
#[verifier::external_body]
fn sha256_digest(data: &[u8]) -> (r: Vec<u8>)
    ensures
        r@ == sha256(data@),
        r@.len() == 32,
{
    let d = <sha2::Sha256 as sha2::Digest>::digest(data);
    let s: &[u8] = d.as_ref();
    s.to_vec()
}

/// A lowercase hexadecimal digit.
pub open spec fn hex_digit(d: u8) -> char {
    if d < 10 {
        digit_char(d as nat)
    } else if d == 10 {
        'a'
    } else if d == 11 {
        'b'
    } else if d == 12 {
        'c'
    } else if d == 13 {
        'd'
    } else if d == 14 {
        'e'
    } else {
        'f'
    }
}

/// Bytes in lowercase hexadecimal, two digits per byte, high half first.
pub open spec fn hex_text(bytes: Seq<u8>) -> Seq<char>
    decreases bytes.len(),
{
    if bytes.len() == 0 {
        Seq::empty()
    } else {
        hex_text(bytes.drop_last()) + seq![hex_digit(bytes.last() / 16), hex_digit(bytes.last() % 16)]
    }
}

/// Calls `hex::encode`, which writes each byte as two lowercase hexadecimal digits, high
/// half first.
#[verifier::external_body]
fn hex_encode(bytes: &[u8]) -> (r: String)
    ensures
        r@ == hex_text(bytes@),
{
    hex::encode(bytes)
}

/// The content hash of a file: its SHA-256 digest in lowercase hexadecimal.
pub fn compute_sha256(data: &[u8]) -> (r: String)
    ensures
        r@ == hex_text(sha256(data@)),
        r@.len() == 64,
{
    let digest = sha256_digest(data);
    proof {
        lemma_hex_text_len(digest@);
    }
    hex_encode(digest.as_slice())
}

proof fn lemma_hex_text_len(b: Seq<u8>)
    ensures
        hex_text(b).len() == 2 * b.len(),
    decreases b.len(),
{
    if b.len() > 0 {
        lemma_hex_text_len(b.drop_last());
    }
}

// ---------------------------------------------------------------------------------------------
// Which files are indexed
// ---------------------------------------------------------------------------------------------

/// The index of the first plugin of `plugins` from `i` on that handles `path`.
pub open spec fn handler_from(plugins: Seq<LanguageId>, path: Seq<char>, i: int) -> Option<int>
    decreases plugins.len() - i,
{
    if i < 0 || i >= plugins.len() {
        None
    } else if extension_in(path_extension(path), language_extensions(plugins[i])) {
        Some(i)
    } else {
        handler_from(plugins, path, i + 1)
    }
}

/// The first of the plugins that handles the file at `path`.
pub fn plugin_for_path(plugins: &Vec<LanguageId>, path: &str) -> (r: Option<LanguageId>)
    ensures
        match handler_from(plugins@, path@, 0) {
            Some(i) => r == Some(plugins@[i]),
            None => r is None,
        },
{
    let mut i: usize = 0;
    while i < plugins.len()
        invariant
            i <= plugins.len(),
            handler_from(plugins@, path@, 0) == handler_from(plugins@, path@, i as int),
        decreases plugins.len() - i,
    {
        if plugins[i].can_handle(path) {
            return Some(plugins[i]);
        }
        i = i + 1;
    }
    None
}

/// Whether a path lies in the project's `.codix` directory, which is never indexed.
pub fn in_index_dir(root: &str, path: &str) -> (r: bool)
    ensures
        r == path_starts_with(path@, codix_dir(root@)),
{
    let dir = join_path(root, ".codix");
    path_has_prefix(path, dir.as_str())
}

// ---------------------------------------------------------------------------------------------
// Incremental reindex
// ---------------------------------------------------------------------------------------------

/// What to do with a file found on disk, given its record in the index.
#[derive(PartialEq, Eq, Debug, Clone, Copy, Structural)]
pub enum FileAction {
    /// Not in the index: index it.
    Add,
    /// Changed on disk since it was indexed: compare content hashes.
    CheckHash,
    /// Not changed since it was indexed.
    Keep,
}

/// The action for a file on disk with modification time `disk_mtime`.
pub open spec fn action_for(indexed: Option<FileRecord>, disk_mtime: i64) -> FileAction {
    match indexed {
        None => FileAction::Add,
        Some(f) => if f.mtime < disk_mtime {
            FileAction::CheckHash
        } else {
            FileAction::Keep
        },
    }
}

/// The action for a file on disk.
pub fn file_action(indexed: &Option<FileRecord>, disk_mtime: i64) -> (r: FileAction)
    ensures
        r == action_for(*indexed, disk_mtime),
{
    match indexed {
        None => FileAction::Add,
        Some(f) => if f.mtime < disk_mtime {
            FileAction::CheckHash
        } else {
            FileAction::Keep
        },
    }
}

/// Whether a file whose time changed still has the content that was indexed: the stored
/// hash equals the new one. Then only its time is updated; otherwise it is reindexed.
pub fn content_unchanged(stored_hash: &Option<String>, hash: &str) -> (r: bool)
    ensures
        r == (opt_view(*stored_hash) == Some(hash@)),
{
    match stored_hash {
        Some(h) => str_eq(h.as_str(), hash),
        None => false,
    }
}

/// The indexed files that are no longer on disk, by their position in `indexed`.
pub fn deleted_files(indexed: &Vec<FileRecord>, disk_paths: &Vec<String>) -> (r: Vec<usize>)
    ensures
        forall|k: int| 0 <= k < r@.len() ==> (#[trigger] r@[k]) < indexed@.len(),
        forall|k: int, l: int| 0 <= k < l < r@.len() ==> r@[k] < r@[l],
        forall|j: int|
            0 <= j < indexed@.len() ==> (r@.contains(j as usize) <==> !views(disk_paths@).contains(
                #[trigger] indexed@[j].path@,
            )),
{
    let mut out: Vec<usize> = Vec::new();
    let mut i: usize = 0;
    while i < indexed.len()
        invariant
            i <= indexed.len(),
            forall|k: int| 0 <= k < out@.len() ==> (#[trigger] out@[k]) < i,
            forall|k: int, l: int| 0 <= k < l < out@.len() ==> out@[k] < out@[l],
            forall|j: int|
                0 <= j < i ==> (out@.contains(j as usize) <==> !views(disk_paths@).contains(
                    #[trigger] indexed@[j].path@,
                )),
        decreases indexed.len() - i,
    {
        let mut found = false;
        let mut k: usize = 0;
        while k < disk_paths.len()
            invariant
                k <= disk_paths.len(),
                i < indexed.len(),
                found <==> views(disk_paths@).take(k as int).contains(indexed@[i as int].path@),
            decreases disk_paths.len() - k,
        {
            proof {
                assert(views(disk_paths@).take(k + 1) =~= views(disk_paths@).take(k as int).push(disk_paths@[k as int]@));
                lemma_contains_push(views(disk_paths@).take(k as int), disk_paths@[k as int]@, indexed@[i as int].path@);
            }
            if str_eq(disk_paths[k].as_str(), indexed[i].path.as_str()) {
                found = true;
            }
            k = k + 1;
        }
        proof {
            assert(views(disk_paths@).take(k as int) =~= views(disk_paths@));
        }
        let ghost old_out = out@;
        if !found {
            out.push(i);
        }
        proof {
            assert forall|j: int| 0 <= j <= i implies (out@.contains(j as usize) <==> !views(disk_paths@).contains(
                #[trigger] indexed@[j].path@,
            )) by {
                if j < i {
                    if out@.contains(j as usize) {
                        let m = choose|m: int| 0 <= m < out@.len() && out@[m] == j as usize;
                        if m < old_out.len() {
                            assert(old_out[m] == j as usize);
                        }
                    }
                    if old_out.contains(j as usize) {
                        let m = choose|m: int| 0 <= m < old_out.len() && old_out[m] == j as usize;
                        assert(out@[m] == j as usize);
                    }
                } else {
                    if !found {
                        assert(out@[out@.len() - 1] == i);
                    } else {
                        if out@.contains(j as usize) {
                            let m = choose|m: int| 0 <= m < out@.len() && out@[m] == j as usize;
                            assert(out@[m] < i);
                        }
                    }
                }
            }
        }
        i = i + 1;
    }
    out
}

// ---------------------------------------------------------------------------------------------
// Files per language
// ---------------------------------------------------------------------------------------------

/// The character sequences of name/count pairs.
pub open spec fn count_pairs(c: Seq<(String, u64)>) -> Seq<(Seq<char>, u64)> {
    c.map_values(|p: (String, u64)| (p.0@, p.1))
}

/// The count that the pairs give a name: the sum of its entries.
pub open spec fn count_of(c: Seq<(Seq<char>, u64)>, k: Seq<char>) -> int
    decreases c.len(),
{
    if c.len() == 0 {
        0
    } else {
        count_of(c.drop_last(), k) + (if c.last().0 == k { c.last().1 as int } else { 0 })
    }
}

proof fn lemma_count_nonnegative(c: Seq<(Seq<char>, u64)>, k: Seq<char>)
    ensures
        count_of(c, k) >= 0,
    decreases c.len(),
{
    if c.len() > 0 {
        lemma_count_nonnegative(c.drop_last(), k);
    }
}

proof fn lemma_count_entry_bound(c: Seq<(Seq<char>, u64)>, j: int)
    requires
        0 <= j < c.len(),
    ensures
        c[j].1 <= count_of(c, c[j].0),
    decreases c.len(),
{
    lemma_count_nonnegative(c.drop_last(), c[j].0);
    if j < c.len() - 1 {
        lemma_count_entry_bound(c.drop_last(), j);
    }
}

proof fn lemma_count_increment(c: Seq<(Seq<char>, u64)>, j: int, k: Seq<char>)
    requires
        0 <= j < c.len(),
        c[j].1 < u64::MAX,
    ensures
        count_of(c.update(j, (c[j].0, (c[j].1 + 1) as u64)), k) == count_of(c, k) + (if k == c[j].0 { 1int } else { 0int }),
    decreases c.len(),
{
    let d = c.update(j, (c[j].0, (c[j].1 + 1) as u64));
    if j < c.len() - 1 {
        assert(d.drop_last() =~= c.drop_last().update(j, (c[j].0, (c[j].1 + 1) as u64)));
        lemma_count_increment(c.drop_last(), j, k);
    } else {
        assert(d.drop_last() =~= c.drop_last());
    }
}

/// Whether the names come in increasing order, each once (as the keys of an ordered map).
pub open spec fn names_in_order(c: Seq<(Seq<char>, u64)>) -> bool {
    forall|i: int, j: int| 0 <= i < j < c.len() ==> seq_less(#[trigger] c[i].0, #[trigger] c[j].0)
}

proof fn lemma_count_concat(a: Seq<(Seq<char>, u64)>, b: Seq<(Seq<char>, u64)>, k: Seq<char>)
    ensures
        count_of(a + b, k) == count_of(a, k) + count_of(b, k),
    decreases b.len(),
{
    if b.len() == 0 {
        assert(a + b =~= a);
    } else {
        assert((a + b).drop_last() =~= a + b.drop_last());
        lemma_count_concat(a, b.drop_last(), k);
    }
}

/// Adds one to the count of `name`: to its entry, or as a new entry at the place where its
/// name belongs, so that the names stay in increasing order.
pub fn add_count(counts: &mut Vec<(String, u64)>, name: &str)
    requires
        count_of(count_pairs(old(counts)@), name@) < u64::MAX,
        names_in_order(count_pairs(old(counts)@)),
    ensures
        forall|k: Seq<char>|
            #[trigger] count_of(count_pairs(final(counts)@), k) == count_of(count_pairs(old(counts)@), k) + (
            if k == name@ { 1int } else { 0int }),
        names_in_order(count_pairs(final(counts)@)),
{
    let ghost c0 = count_pairs(counts@);
    let mut i: usize = 0;
    while i < counts.len() && str_less(counts[i].0.as_str(), name)
        invariant
            i <= counts.len(),
            counts@ == old(counts)@,
            c0 == count_pairs(counts@),
            count_of(c0, name@) < u64::MAX,
            names_in_order(c0),
            forall|j: int| 0 <= j < i ==> seq_less(#[trigger] c0[j].0, name@),
        decreases counts.len() - i,
    {
        proof {
            assert(c0[i as int].0 == counts@[i as int].0@);
        }
        i = i + 1;
    }
    proof {
        if i < counts.len() {
            assert(c0[i as int].0 == counts@[i as int].0@);
        }
    }
    if i < counts.len() && str_eq(counts[i].0.as_str(), name) {
        proof {
            lemma_count_entry_bound(c0, i as int);
        }
        let n = counts[i].1 + 1;
        let key = counts[i].0.clone();
        counts.set(i, (key, n));
        proof {
            assert(count_pairs(counts@) =~= c0.update(i as int, (c0[i as int].0, (c0[i as int].1 + 1) as u64)));
            assert forall|k: Seq<char>| #[trigger] count_of(count_pairs(counts@), k) == count_of(c0, k) + (if k == name@ { 1int } else { 0int }) by {
                lemma_count_increment(c0, i as int, k);
            }
        }
    } else {
        let ghost e = (name@, 1u64);
        counts.insert(i, (name.to_string(), 1));
        proof {
            let c1 = count_pairs(counts@);
            assert(c1 =~= c0.take(i as int) + seq![e] + c0.skip(i as int));
            assert(c0 =~= c0.take(i as int) + c0.skip(i as int));
            assert forall|k: Seq<char>| #[trigger] count_of(count_pairs(counts@), k) == count_of(c0, k) + (if k == name@ { 1int } else { 0int }) by {
                lemma_count_concat(c0.take(i as int) + seq![e], c0.skip(i as int), k);
                lemma_count_concat(c0.take(i as int), seq![e], k);
                lemma_count_concat(c0.take(i as int), c0.skip(i as int), k);
                assert(seq![e].drop_last() =~= Seq::<(Seq<char>, u64)>::empty());
                assert(count_of(Seq::<(Seq<char>, u64)>::empty(), k) == 0);
                assert(count_of(seq![e], k) == (if k == name@ { 1int } else { 0int }));
                assert(count_pairs(counts@) == c0.take(i as int) + seq![e] + c0.skip(i as int));
            }
            if i < c0.len() {
                lemma_seq_less_total(name@, c0[i as int].0);
            }
            assert forall|a: int, b: int| 0 <= a < b < c1.len() implies seq_less(#[trigger] c1[a].0, #[trigger] c1[b].0) by {
                if b < i {
                    assert(c1[a] == c0[a] && c1[b] == c0[b]);
                } else if b == i {
                    assert(c1[a] == c0[a]);
                } else if a == i {
                    assert(c1[b] == c0[b - 1]);
                    if b - 1 > i {
                        lemma_seq_less_transitive(name@, c0[i as int].0, c0[b - 1].0);
                    }
                } else if a < i {
                    assert(c1[a] == c0[a] && c1[b] == c0[b - 1]);
                } else {
                    assert(c1[a] == c0[a - 1] && c1[b] == c0[b - 1]);
                }
            }
        }
    }
}

} // verus!

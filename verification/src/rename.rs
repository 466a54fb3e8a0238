//! Renaming a symbol: the decisions and the text rewriting; reading the files and the index
//! is left to the caller.
use vstd::prelude::*;
use vstd::utf8::encode_utf8;
use crate::model::{PluginCapability, RenameOccurrence, Symbol, SymbolId, SymbolKind, SymbolQuery};
use crate::cli::label_of;
use crate::plugin::{language_display_name, language_supports, plugin_index_from, LanguageId, PluginRegistry};
use crate::text::{
    chars_of, concat, contains_seq, find_seq, is_first_occurrence,
    is_last_occurrence, lemma_first_occurrence_unique, lemma_last_occurrence_unique,
    occurs_at, rfind_seq, str_eq, string_of, string_of_range, views, seq_less, str_less, lemma_seq_less_asymmetric, lemma_seq_less_transitive,
    lemma_contains_push, decimal, i64_to_decimal, join_strings, join_with, before_first,
    last_index_of, prefix_before, prefix_before_last, digits, u64_to_decimal,
};

verus! {

/// The occurrences to rewrite in one file.
pub struct FileOccurrences {
    pub file_path: String,
    pub occurrences: Vec<RenameOccurrence>,
}

/// What a rename would change: the occurrences per file, and warnings about files left out.
pub struct RenameResult {
    pub changes: Vec<FileOccurrences>,
    pub warnings: Vec<String>,
}

/// The number of occurrences in the first `k` files.
pub open spec fn occurrence_count(cs: Seq<FileOccurrences>, k: int) -> int
    decreases k,
{
    if k <= 0 || k > cs.len() {
        0
    } else {
        occurrence_count(cs, k - 1) + cs[k - 1].occurrences@.len()
    }
}

impl RenameResult {
    /// The number of occurrences over all files.
    pub fn total_occurrences(&self) -> (r: usize)
        requires
            occurrence_count(self.changes@, self.changes@.len() as int) <= usize::MAX,
        ensures
            r == occurrence_count(self.changes@, self.changes@.len() as int),
    {
        let mut total: usize = 0;
        let mut i: usize = 0;
        while i < self.changes.len()
            invariant
                i <= self.changes.len(),
                total == occurrence_count(self.changes@, i as int),
                occurrence_count(self.changes@, self.changes@.len() as int) <= usize::MAX,
            decreases self.changes.len() - i,
        {
            proof {
                lemma_occurrence_count_monotone(self.changes@, i + 1, self.changes@.len() as int);
            }
            total = total + self.changes[i].occurrences.len();
            i = i + 1;
        }
        total
    }

    /// The number of files with occurrences.
    pub fn total_files(&self) -> (r: usize)
        ensures
            r == self.changes@.len(),
    {
        self.changes.len()
    }
}

proof fn lemma_occurrence_count_monotone(cs: Seq<FileOccurrences>, j: int, k: int)
    requires
        0 <= j <= k <= cs.len(),
    ensures
        occurrence_count(cs, j) <= occurrence_count(cs, k),
    decreases k - j,
{
    if j < k {
        lemma_occurrence_count_monotone(cs, j, k - 1);
    }
}

// ---------------------------------------------------------------------------------------------
// New names
// ---------------------------------------------------------------------------------------------

/// `s` with the occurrence of `old` at `i` replaced by `new`.
pub open spec fn replace_at(s: Seq<char>, i: int, old: Seq<char>, new: Seq<char>) -> Seq<char> {
    s.take(i) + new + s.skip(i + old.len())
}

/// The qualified name after the rename: the last occurrence of the old name replaced.
pub open spec fn new_qualified_name(q: Seq<char>, old: Seq<char>, new: Seq<char>) -> Seq<char> {
    if contains_seq(q, old) {
        replace_at(q, choose|i: int| #[trigger] is_last_occurrence(q, old, i), old, new)
    } else {
        q
    }
}

/// The signature after the rename: the first occurrence of the old name replaced.
pub open spec fn new_signature(sig: Seq<char>, old: Seq<char>, new: Seq<char>) -> Seq<char> {
    if contains_seq(sig, old) {
        replace_at(sig, choose|i: int| #[trigger] is_first_occurrence(sig, old, i), old, new)
    } else {
        sig
    }
}

fn replace_range(v: &Vec<char>, i: usize, old_len: usize, new_name: &str) -> (r: String)
    requires
        i + old_len <= v.len(),
    ensures
        r@ == v@.take(i as int) + new_name@ + v@.skip(i + old_len),
{
    let head = string_of_range(v, 0, i);
    let tail = string_of_range(v, i + old_len, v.len());
    let mut r = concat(head.as_str(), new_name);
    r.append(tail.as_str());
    proof {
        assert(head@ == v@.take(i as int));
        assert(tail@ == v@.skip(i + old_len));
    }
    r
}

/// The qualified name after renaming `old_name` to `new_name`: its last occurrence of the old
/// name is replaced; without one it stays as it is.
pub fn build_new_qualified_name(old_qualified: &str, old_name: &str, new_name: &str) -> (r: String)
    ensures
        r@ == new_qualified_name(old_qualified@, old_name@, new_name@),
{
    let q = chars_of(old_qualified);
    let o = chars_of(old_name);
    match rfind_seq(&q, &o) {
        Some(i) => {
            proof {
                lemma_last_occurrence_unique(q@, o@, i as int);
                assert(occurs_at(q@, o@, i as int));
            }
            let ql = q.len();
            let ol = o.len();
            assert(i + ol <= ql);
            replace_range(&q, i, ol, new_name)
        },
        None => string_of(&q),
    }
}

/// The signature after renaming `old_name` to `new_name`: its first occurrence of the old
/// name is replaced; without one it stays as it is.
pub fn build_new_signature(old_signature: &str, old_name: &str, new_name: &str) -> (r: String)
    ensures
        r@ == new_signature(old_signature@, old_name@, new_name@),
{
    let s = chars_of(old_signature);
    let o = chars_of(old_name);
    match find_seq(&s, &o) {
        Some(i) => {
            proof {
                lemma_first_occurrence_unique(s@, o@, i as int);
                assert(occurs_at(s@, o@, i as int));
            }
            let sl = s.len();
            let ol = o.len();
            assert(i + ol <= sl);
            replace_range(&s, i, ol, new_name)
        },
        None => string_of(&s),
    }
}

// ---------------------------------------------------------------------------------------------
// Rewriting a file
// ---------------------------------------------------------------------------------------------

/// The edits in the order they are applied: from the highest offset down, edits at the same
/// offset in the order given. `insert_desc` places one edit into an ordered list.
pub open spec fn insert_desc(e: (int, int, int), sorted: Seq<(int, int, int)>) -> Seq<(int, int, int)>
    decreases sorted.len(),
{
    if sorted.len() == 0 {
        seq![e]
    } else if sorted[0].0 >= e.0 {
        seq![sorted[0]] + insert_desc(e, sorted.drop_first())
    } else {
        seq![e] + sorted
    }
}

/// An edit as integers: offset, length and position among the occurrences.
pub open spec fn edit_view(e: (usize, usize, usize)) -> (int, int, int) {
    (e.0 as int, e.1 as int, e.2 as int)
}

/// The edits of a file's occurrences: byte offset, length of the old text in bytes, and
/// position.
pub open spec fn edits_of(os: Seq<RenameOccurrence>) -> Seq<(int, int, int)> {
    Seq::new(os.len(), |i: int| (os[i].byte_offset as int, encode_utf8(os[i].old_text@).len() as int, i))
}

/// The first `k` edits ordered for applying.
pub open spec fn order_desc(es: Seq<(int, int, int)>, k: int) -> Seq<(int, int, int)>
    decreases k,
{
    if k <= 0 || k > es.len() {
        Seq::empty()
    } else {
        insert_desc(es[k - 1], order_desc(es, k - 1))
    }
}

/// `buf` with the `len` bytes at `off` replaced by `new`; `None` where the range does not lie
/// in `buf` (where `Vec::splice` would panic).
pub open spec fn splice_bytes(buf: Seq<u8>, off: int, len: int, new: Seq<u8>) -> Option<Seq<u8>> {
    if 0 <= off && 0 <= len && off + len <= buf.len() {
        Some(buf.take(off) + new + buf.skip(off + len))
    } else {
        None
    }
}

/// The edits applied in turn.
pub open spec fn splice_all(buf: Seq<u8>, es: Seq<(int, int, int)>, new: Seq<u8>) -> Option<Seq<u8>>
    decreases es.len(),
{
    if es.len() == 0 {
        Some(buf)
    } else {
        match splice_bytes(buf, es[0].0, es[0].1, new) {
            Some(b) => splice_all(b, es.drop_first(), new),
            None => None,
        }
    }
}

/// Whether no edit comes before an edit at a higher offset.
pub open spec fn desc_by_offset(es: Seq<(int, int, int)>) -> bool {
    forall|i: int, j: int| 0 <= i < j < es.len() ==> (#[trigger] es[i]).0 >= (#[trigger] es[j]).0
}

proof fn lemma_insert_desc(e: (int, int, int), sorted: Seq<(int, int, int)>)
    ensures
        insert_desc(e, sorted).to_multiset() =~= sorted.to_multiset().insert(e),
        desc_by_offset(sorted) ==> desc_by_offset(insert_desc(e, sorted)),
    decreases sorted.len(),
{
    broadcast use vstd::seq_lib::group_to_multiset_ensures, vstd::multiset::group_multiset_axioms;
    let r = insert_desc(e, sorted);
    if sorted.len() == 0 {
        assert(r =~= Seq::<(int, int, int)>::empty().push(e));
        assert(sorted =~= Seq::<(int, int, int)>::empty());
    } else if sorted[0].0 >= e.0 {
        let rest = sorted.drop_first();
        let t = insert_desc(e, rest);
        lemma_insert_desc(e, rest);
        vstd::seq_lib::lemma_multiset_commutative(seq![sorted[0]], t);
        vstd::seq_lib::lemma_multiset_commutative(seq![sorted[0]], rest);
        assert(seq![sorted[0]] + rest =~= sorted);
        if desc_by_offset(sorted) {
            assert(desc_by_offset(rest)) by {
                assert forall|i: int, j: int| 0 <= i < j < rest.len() implies (#[trigger] rest[i]).0 >= (
                #[trigger] rest[j]).0 by {
                    assert(rest[i] == sorted[i + 1] && rest[j] == sorted[j + 1]);
                }
            }
            assert forall|i: int, j: int| 0 <= i < j < r.len() implies (#[trigger] r[i]).0 >= (
            #[trigger] r[j]).0 by {
                assert(r[j] == t[j - 1]);
                if i == 0 {
                    assert(t.to_multiset().count(t[j - 1]) > 0);
                    if t[j - 1] != e {
                        assert(rest.to_multiset().count(t[j - 1]) > 0);
                        assert(rest.contains(t[j - 1]));
                        let m = choose|m: int| 0 <= m < rest.len() && rest[m] == t[j - 1];
                        assert(sorted[m + 1] == rest[m]);
                    }
                } else {
                    assert(r[i] == t[i - 1]);
                }
            }
        }
    } else {
        vstd::seq_lib::lemma_multiset_commutative(seq![e], sorted);
        assert(seq![e] =~= Seq::<(int, int, int)>::empty().push(e));
        if desc_by_offset(sorted) {
            assert forall|i: int, j: int| 0 <= i < j < r.len() implies (#[trigger] r[i]).0 >= (
            #[trigger] r[j]).0 by {
                assert(r[j] == sorted[j - 1]);
                if i > 0 {
                    assert(r[i] == sorted[i - 1]);
                } else if j - 1 > 0 {
                    assert(sorted[0].0 >= sorted[j - 1].0);
                }
            }
        }
    }
}

proof fn lemma_order_desc(es: Seq<(int, int, int)>, k: int)
    requires
        0 <= k <= es.len(),
    ensures
        order_desc(es, k).to_multiset() =~= es.take(k).to_multiset(),
        desc_by_offset(order_desc(es, k)),
    decreases k,
{
    broadcast use vstd::seq_lib::group_to_multiset_ensures, vstd::multiset::group_multiset_axioms;
    if k == 0 {
        assert(es.take(0) =~= Seq::<(int, int, int)>::empty());
        assert(order_desc(es, 0) =~= Seq::<(int, int, int)>::empty());
    } else {
        lemma_order_desc(es, k - 1);
        lemma_insert_desc(es[k - 1], order_desc(es, k - 1));
        assert(es.take(k) =~= es.take(k - 1).push(es[k - 1]));
    }
}

/// Edits each of which ends at or before the start of the one applied just before it all
/// apply, where the first ends within the text.
proof fn lemma_splice_all_fits(buf: Seq<u8>, es: Seq<(int, int, int)>, new: Seq<u8>, m: int)
    requires
        m <= buf.len(),
        forall|k: int| 0 <= k < es.len() ==> 0 <= (#[trigger] es[k]).0 && 0 <= es[k].1 && es[k].0 + es[k].1 <= m,
        forall|i: int, j: int| 0 <= i < j < es.len() ==> (#[trigger] es[j]).0 + es[j].1 <= (#[trigger] es[i]).0,
    ensures
        splice_all(buf, es, new) is Some,
    decreases es.len(),
{
    if es.len() > 0 {
        let b = buf.take(es[0].0) + new + buf.skip(es[0].0 + es[0].1);
        let rest = es.drop_first();
        assert forall|k: int| 0 <= k < rest.len() implies 0 <= (#[trigger] rest[k]).0 && 0 <= rest[k].1
            && rest[k].0 + rest[k].1 <= es[0].0 by {
            assert(rest[k] == es[k + 1]);
        }
        assert forall|i: int, j: int| 0 <= i < j < rest.len() implies (#[trigger] rest[j]).0 + rest[j].1 <= (
        #[trigger] rest[i]).0 by {
            assert(rest[i] == es[i + 1] && rest[j] == es[j + 1]);
        }
        lemma_splice_all_fits(b, rest, new, es[0].0);
    }
}

/// The length in bytes of an occurrence's old text.
pub open spec fn old_len(o: RenameOccurrence) -> int {
    encode_utf8(o.old_text@).len() as int
}

/// Whether every occurrence is a non-empty range of the source, and no two of them overlap.
pub open spec fn occurrences_fit(source: Seq<u8>, os: Seq<RenameOccurrence>) -> bool {
    &&& forall|i: int| 0 <= i < os.len() ==> 0 < old_len(#[trigger] os[i]) && os[i].byte_offset + old_len(os[i]) <= source.len()
    &&& forall|i: int, j: int|
        0 <= i < os.len() && 0 <= j < os.len() && i != j ==> (#[trigger] os[i]).byte_offset + old_len(os[i]) <= (
        #[trigger] os[j]).byte_offset || os[j].byte_offset + old_len(os[j]) <= os[i].byte_offset
}

/// Replacing the occurrences from the highest offset down never runs out of the text when
/// the occurrences lie in the source and do not overlap: each edit ends before the text that
/// the edits already made have changed.
pub proof fn law_fitting_replacements_apply(source: Seq<u8>, os: Seq<RenameOccurrence>, new: Seq<u8>)
    requires
        occurrences_fit(source, os),
    ensures
        splice_all(source, order_desc(edits_of(os), os.len() as int), new) is Some,
{
    broadcast use vstd::seq_lib::group_to_multiset_ensures, vstd::multiset::group_multiset_axioms;
    let es = edits_of(os);
    let o = order_desc(es, es.len() as int);
    lemma_order_desc(es, es.len() as int);
    assert(es.take(es.len() as int) =~= es);
    assert(es.no_duplicates());
    es.lemma_multiset_has_no_duplicates();
    o.lemma_multiset_has_no_duplicates_conv();
    assert forall|k: int| 0 <= k < o.len() implies exists|a: int| 0 <= a < es.len() && es[a] == #[trigger] o[k] by {
        assert(o.to_multiset().count(o[k]) > 0);
        assert(es.contains(o[k]));
    }
    assert forall|k: int| 0 <= k < o.len() implies 0 <= (#[trigger] o[k]).0 && 0 <= o[k].1 && o[k].0 + o[k].1
        <= source.len() by {
        let a = choose|a: int| 0 <= a < es.len() && es[a] == o[k];
        assert(old_len(os[a]) > 0);
    }
    assert forall|i: int, j: int| 0 <= i < j < o.len() implies (#[trigger] o[j]).0 + o[j].1 <= (
    #[trigger] o[i]).0 by {
        let a = choose|a: int| 0 <= a < es.len() && es[a] == o[i];
        let b = choose|b: int| 0 <= b < es.len() && es[b] == o[j];
        assert(o[i] != o[j]);
        assert(a != b);
        assert(old_len(os[a]) > 0 && old_len(os[b]) > 0);
    }
    lemma_splice_all_fits(source, o, new, source.len() as int);
}

/// Calls `str::as_bytes` on an occurrence's old text and copies the bytes.
fn text_bytes(s: &str) -> (r: Vec<u8>)
    ensures
        r@ == encode_utf8(s@),
{
    let b = s.as_bytes();
    let mut r: Vec<u8> = Vec::new();
    let mut i: usize = 0;
    while i < b.len()
        invariant
            i <= b.len(),
            b@ == encode_utf8(s@),
            r@ == b@.take(i as int),
        decreases b.len() - i,
    {
        r.push(b[i]);
        proof {
            assert(b@.take(i + 1) =~= b@.take(i as int).push(b@[i as int]));
        }
        i = i + 1;
    }
    proof {
        assert(b@.take(b@.len() as int) =~= b@);
    }
    r
}

/// The source of a file with every occurrence replaced by `new_name`, from the highest byte
/// offset down (so that earlier offsets stay valid); `None` where an occurrence does not lie
/// in the text being rewritten.
pub fn apply_replacements(source: &Vec<u8>, occurrences: &Vec<RenameOccurrence>, new_name: &str) -> (r: Option<Vec<u8>>)
    ensures
        ({
            let es = edits_of(occurrences@);
            match splice_all(source@, order_desc(es, es.len() as int), encode_utf8(new_name@)) {
                Some(b) => r matches Some(v) && v@ == b,
                None => r is None,
            }
        }),
        occurrences_fit(source@, occurrences@) ==> r is Some,
{
    proof {
        if occurrences_fit(source@, occurrences@) {
            law_fitting_replacements_apply(source@, occurrences@, encode_utf8(new_name@));
            assert(edits_of(occurrences@).len() == occurrences@.len());
        }
    }
    let ghost es = edits_of(occurrences@);
    // Order the edits.
    let mut order: Vec<(usize, usize, usize)> = Vec::new();
    let mut i: usize = 0;
    while i < occurrences.len()
        invariant
            i <= occurrences.len(),
            es == edits_of(occurrences@),
            order@.map_values(|e: (usize, usize, usize)| edit_view(e)) == order_desc(es, i as int),
        decreases occurrences.len() - i,
    {
        let len = occurrences[i].old_text.as_str().as_bytes().len();
        let e = (occurrences[i].byte_offset, len, i);
        proof {
            assert(es[i as int] == edit_view(e));
        }
        insert_edit(&mut order, e);
        i = i + 1;
    }
    // Apply them.
    let new_bytes = text_bytes(new_name);
    let mut buf: Vec<u8> = Vec::new();
    let mut k: usize = 0;
    while k < source.len()
        invariant
            k <= source.len(),
            buf@ == source@.take(k as int),
        decreases source.len() - k,
    {
        buf.push(source[k]);
        proof {
            assert(source@.take(k + 1) =~= source@.take(k as int).push(source@[k as int]));
        }
        k = k + 1;
    }
    proof {
        assert(source@.take(source@.len() as int) =~= source@);
    }
    let ghost all = order@.map_values(|e: (usize, usize, usize)| edit_view(e));
    let mut j: usize = 0;
    proof {
        assert(all.skip(0) =~= all);
        assert(all == order_desc(es, es.len() as int));
    }
    while j < order.len()
        invariant
            j <= order.len(),
            all == order@.map_values(|e: (usize, usize, usize)| edit_view(e)),
            all == order_desc(es, es.len() as int),
            es == edits_of(occurrences@),
            new_bytes@ == encode_utf8(new_name@),
            splice_all(source@, all, new_bytes@) == splice_all(buf@, all.skip(j as int), new_bytes@),
            occurrences_fit(source@, occurrences@) ==> splice_all(source@, all, new_bytes@) is Some,
        decreases order.len() - j,
    {
        let (off, len, _) = order[j];
        proof {
            assert(all.skip(j as int)[0] == (off as int, len as int, order@[j as int].2 as int));
            assert(all.skip(j as int).drop_first() =~= all.skip(j + 1));
        }
        if off > buf.len() || len > buf.len() - off {
            proof {
                assert(splice_bytes(buf@, off as int, len as int, new_bytes@) is None);
                assert(splice_all(buf@, all.skip(j as int), new_bytes@) is None);
            }
            return None;
        }
        buf = splice(&buf, off, len, &new_bytes);
        j = j + 1;
    }
    Some(buf)
}

/// `buf` with `len` bytes at `off` replaced by `new`.
fn splice(buf: &Vec<u8>, off: usize, len: usize, new: &Vec<u8>) -> (r: Vec<u8>)
    requires
        off + len <= buf.len(),
    ensures
        r@ == buf@.take(off as int) + new@ + buf@.skip(off + len),
{
    let mut r: Vec<u8> = Vec::new();
    let mut i: usize = 0;
    while i < off
        invariant
            i <= off,
            off + len <= buf.len(),
            r@ == buf@.take(i as int),
        decreases off - i,
    {
        r.push(buf[i]);
        proof {
            assert(buf@.take(i + 1) =~= buf@.take(i as int).push(buf@[i as int]));
        }
        i = i + 1;
    }
    let mut j: usize = 0;
    while j < new.len()
        invariant
            j <= new.len(),
            r@ == buf@.take(off as int) + new@.take(j as int),
        decreases new.len() - j,
    {
        r.push(new[j]);
        proof {
            assert(new@.take(j + 1) =~= new@.take(j as int).push(new@[j as int]));
            assert(buf@.take(off as int) + new@.take(j + 1) =~= (buf@.take(off as int) + new@.take(j as int)).push(new@[j as int]));
        }
        j = j + 1;
    }
    proof {
        assert(new@.take(new@.len() as int) =~= new@);
    }
    let mut k: usize = off + len;
    while k < buf.len()
        invariant
            off + len <= k <= buf.len(),
            r@ == buf@.take(off as int) + new@ + buf@.subrange(off + len, k as int),
        decreases buf.len() - k,
    {
        r.push(buf[k]);
        proof {
            assert(buf@.subrange(off + len, k + 1) =~= buf@.subrange(off + len, k as int).push(buf@[k as int]));
            assert(buf@.take(off as int) + new@ + buf@.subrange(off + len, k + 1) =~= (buf@.take(off as int) + new@ + buf@.subrange(off + len, k as int)).push(buf@[k as int]));
        }
        k = k + 1;
    }
    proof {
        assert(buf@.subrange(off + len, buf@.len() as int) =~= buf@.skip(off + len));
    }
    r
}

/// Inserts an edit into the ordered list: after every edit at the same or a higher offset.
fn insert_edit(order: &mut Vec<(usize, usize, usize)>, e: (usize, usize, usize))
    ensures
        final(order)@.map_values(|x: (usize, usize, usize)| edit_view(x)) == insert_desc(
            edit_view(e),
            old(order)@.map_values(|x: (usize, usize, usize)| edit_view(x)),
        ),
{
    let ghost ov = old(order)@.map_values(|x: (usize, usize, usize)| edit_view(x));
    let mut pos: usize = 0;
    proof {
        assert(ov.skip(0) =~= ov);
        assert(ov.take(0) + insert_desc(edit_view(e), ov) =~= insert_desc(edit_view(e), ov));
    }
    while pos < order.len() && order[pos].0 >= e.0
        invariant
            pos <= order.len(),
            order@ == old(order)@,
            ov == old(order)@.map_values(|x: (usize, usize, usize)| edit_view(x)),
            insert_desc(edit_view(e), ov) == ov.take(pos as int) + insert_desc(edit_view(e), ov.skip(pos as int)),
        decreases order.len() - pos,
    {
        proof {
            let rest = ov.skip(pos as int);
            assert(ov[pos as int] == edit_view(old(order)@[pos as int]));
            assert(rest[0] == edit_view(order@[pos as int]));
            assert(rest.drop_first() =~= ov.skip(pos + 1));
            assert(ov.take(pos + 1) =~= ov.take(pos as int) + seq![rest[0]]);
            assert(rest[0].0 >= edit_view(e).0);
            assert(insert_desc(edit_view(e), rest) == seq![rest[0]] + insert_desc(edit_view(e), rest.drop_first()));
            assert(ov.take(pos as int) + (seq![rest[0]] + insert_desc(edit_view(e), ov.skip(pos + 1))) =~= ov.take(pos + 1) + insert_desc(edit_view(e), ov.skip(pos + 1)));
        }
        pos = pos + 1;
    }
    proof {
        let rest = ov.skip(pos as int);
        if pos < order.len() {
            assert(ov[pos as int] == edit_view(old(order)@[pos as int]));
            assert(rest[0] == edit_view(order@[pos as int]));
        } else {
            assert(rest.len() == 0);
        }
    }
    order.insert(pos, e);
    proof {
        assert(order@.map_values(|x: (usize, usize, usize)| edit_view(x)) =~= ov.take(pos as int) + (seq![edit_view(e)] + ov.skip(pos as int)));
    }
}

// ---------------------------------------------------------------------------------------------
// Decisions
// ---------------------------------------------------------------------------------------------

/// Whether a kind is a type: its rename carries over to its members' qualified names.
pub open spec fn is_type_kind(k: Seq<char>) -> bool {
    k == "class"@ || k == "interface"@ || k == "enum"@ || k == "record"@ || k == "annotation"@
}

/// Whether a rename of a symbol of this kind updates its members' qualified names.
pub fn cascades_to_children(kind: &SymbolKind) -> (r: bool)
    ensures
        r == is_type_kind(kind.0@),
{
    let k = kind.as_str();
    str_eq(k, "class") || str_eq(k, "interface") || str_eq(k, "enum") || str_eq(k, "record")
        || str_eq(k, "annotation")
}

/// The symbols whose occurrences a rename must also look for, by the renamed symbol's kind.
#[derive(PartialEq, Eq, Debug, Clone, Copy, Structural)]
pub enum RelatedSymbols {
    /// Types, fields and enum constants: the symbols that refer to them.
    References,
    /// Methods and constructors: callers, implementations, and the methods of the same name
    /// in the supertypes of the owner.
    CallersAndOverrides,
    /// Other kinds: none.
    Nothing,
}

/// Which related symbols a rename of a symbol of kind `k` looks for.
pub open spec fn related_for(k: Seq<char>) -> RelatedSymbols {
    if is_type_kind(k) || k == "field"@ || k == "enum_constant"@ {
        RelatedSymbols::References
    } else if k == "method"@ || k == "constructor"@ {
        RelatedSymbols::CallersAndOverrides
    } else {
        RelatedSymbols::Nothing
    }
}

/// Which related symbols a rename of a symbol of this kind looks for.
pub fn related_symbols_for(kind: &SymbolKind) -> (r: RelatedSymbols)
    ensures
        r == related_for(kind.0@),
{
    let k = kind.as_str();
    if cascades_to_children(kind) || str_eq(k, "field") || str_eq(k, "enum_constant") {
        RelatedSymbols::References
    } else if str_eq(k, "method") || str_eq(k, "constructor") {
        RelatedSymbols::CallersAndOverrides
    } else {
        RelatedSymbols::Nothing
    }
}

/// The candidates that are methods of the supertype `supertype_id`, in order.
pub fn overridden_candidates(candidates: Vec<Symbol>, supertype_id: i64) -> (r: Vec<Symbol>)
    ensures
        r@ == candidates@.filter(|s: Symbol| s.parent_symbol_id == Some(supertype_id)),
{
    let ghost all = candidates@;
    let mut cs = candidates;
    let mut out: Vec<Symbol> = Vec::new();
    let ghost mut i: int = 0;
    while cs.len() > 0
        invariant
            0 <= i <= all.len(),
            cs@ == all.skip(i),
            out@ == all.take(i).filter(|s: Symbol| s.parent_symbol_id == Some(supertype_id)),
        decreases cs.len(),
    {
        let s = cs.remove(0);
        proof {
            reveal_with_fuel(Seq::filter, 1);
            assert(all.take(i + 1).drop_last() =~= all.take(i));
            assert(all.take(i + 1).last() == s);
            assert(cs@ =~= all.skip(i + 1));
            i = i + 1;
        }
        let keep = match s.parent_symbol_id {
            Some(p) => p == supertype_id,
            None => false,
        };
        if keep {
            out.push(s);
        }
    }
    proof {
        assert(all.take(i) =~= all);
    }
    out
}

/// The query for symbols that a rename would clash with: the new qualified name, matched as
/// written, among symbols of the renamed symbol's kind.
pub fn conflict_query(symbol: &Symbol, new_name: &str) -> (q: SymbolQuery)
    ensures
        q.pattern@ == new_qualified_name(symbol.qualified_name@, symbol.name@, new_name@),
        !q.case_insensitive,
        q.kind == Some(symbol.kind),
{
    let pattern = build_new_qualified_name(symbol.qualified_name.as_str(), symbol.name.as_str(), new_name);
    SymbolQuery { pattern, case_insensitive: false, kind: Some(symbol.kind.duplicate()) }
}

/// The qualified name of what encloses a symbol: its qualified name, without a parameter
/// list, up to the last `.`; the package where there is no `.`.
pub open spec fn enclosing_name(s: Symbol) -> Seq<char> {
    let head = before_first(s.qualified_name@, '(');
    match last_index_of(head, '.') {
        Some(i) => head.take(i),
        None => s.package@,
    }
}

/// The refusal of a rename that would clash with `conflict`, naming what encloses it.
pub open spec fn conflict_text(conflict: Symbol) -> Seq<char> {
    "A "@ + conflict.kind.0@ + " '"@ + label_of(conflict) + "' already exists in "@ + enclosing_name(conflict)
        + " at "@ + conflict.file_path@ + ":"@ + decimal(conflict.line as int)
}

fn enclosing_name_of(s: &Symbol) -> (r: String)
    ensures
        r@ == enclosing_name(*s),
{
    let head = prefix_before(s.qualified_name.as_str(), '(');
    match prefix_before_last(head.as_str(), '.') {
        Some(t) => t,
        None => s.package.clone(),
    }
}

/// The message that refuses a rename clashing with `conflict`.
pub fn conflict_message(conflict: &Symbol) -> (r: String)
    ensures
        r@ == conflict_text(*conflict),
{
    let label = match &conflict.signature {
        Some(sig) => sig.clone(),
        None => conflict.name.clone(),
    };
    let mut r = concat("A ", conflict.kind.as_str());
    r.append(" '");
    r.append(label.as_str());
    r.append("' already exists in ");
    let enclosing = enclosing_name_of(conflict);
    r.append(enclosing.as_str());
    r.append(" at ");
    r.append(conflict.file_path.as_str());
    r.append(":");
    let line = i64_to_decimal(conflict.line);
    r.append(line.as_str());
    r
}

/// The outcome of the name-conflict check on the symbols that the conflict query found: a
/// refusal naming the first of them, if there is one.
pub fn check_name_conflict(conflicts: &Vec<Symbol>) -> (r: Result<(), String>)
    ensures
        conflicts@.len() == 0 ==> r is Ok,
        conflicts@.len() > 0 ==> (r matches Err(m) && m@ == conflict_text(conflicts@[0])),
{
    if conflicts.len() == 0 {
        Ok(())
    } else {
        Err(conflict_message(&conflicts[0]))
    }
}

/// The query for the methods that a renamed method may override: methods of the same name,
/// matched as written.
pub fn override_query(symbol: &Symbol) -> (q: SymbolQuery)
    ensures
        q.pattern@ == symbol.name@,
        !q.case_insensitive,
        q.kind matches Some(k) && k.0@ == "method"@,
{
    SymbolQuery { pattern: symbol.name.clone(), case_insensitive: false, kind: Some(SymbolKind::new("method")) }
}

/// The positions among the first `k` candidates of the methods of the supertype `sid`.
pub open spec fn positions_with_parent(cands: Seq<Symbol>, sid: i64, k: int) -> Seq<int>
    decreases k,
{
    if k <= 0 || k > cands.len() {
        Seq::empty()
    } else {
        positions_with_parent(cands, sid, k - 1) + if cands[k - 1].parent_symbol_id == Some(sid) {
            seq![k - 1]
        } else {
            Seq::empty()
        }
    }
}

/// The positions of the overridden methods among the candidates, supertype by supertype: for
/// each supertype in turn, its methods in the candidates' order.
pub open spec fn override_positions(sids: Seq<i64>, cands: Seq<Symbol>) -> Seq<int>
    decreases sids.len(),
{
    if sids.len() == 0 {
        Seq::empty()
    } else {
        override_positions(sids.drop_last(), cands) + positions_with_parent(cands, sids.last(), cands.len() as int)
    }
}

/// The walk up the override chain of a renamed method: among the candidates that the override
/// query found, the positions of those that belong to one of the supertypes of its owner,
/// supertype by supertype.
pub fn overrides_in_supertypes(supertype_ids: &Vec<i64>, candidates: &Vec<Symbol>) -> (r: Vec<usize>)
    ensures
        r@.len() == override_positions(supertype_ids@, candidates@).len(),
        forall|i: int| 0 <= i < r@.len() ==> r@[i] as int == #[trigger] override_positions(supertype_ids@, candidates@)[i],
{
    let mut out: Vec<usize> = Vec::new();
    let mut s: usize = 0;
    while s < supertype_ids.len()
        invariant
            s <= supertype_ids.len(),
            out@.len() == override_positions(supertype_ids@.take(s as int), candidates@).len(),
            forall|i: int| 0 <= i < out@.len() ==> out@[i] as int == #[trigger] override_positions(supertype_ids@.take(s as int), candidates@)[i],
        decreases supertype_ids.len() - s,
    {
        let sid = supertype_ids[s];
        let ghost before = override_positions(supertype_ids@.take(s as int), candidates@);
        let ghost o0 = out@;
        let mut c: usize = 0;
        while c < candidates.len()
            invariant
                c <= candidates.len(),
                sid == supertype_ids@[s as int],
                s < supertype_ids.len(),
                o0.len() == before.len(),
                forall|i: int| 0 <= i < o0.len() ==> o0[i] as int == before[i],
                out@.len() == before.len() + positions_with_parent(candidates@, sid, c as int).len(),
                forall|i: int| 0 <= i < out@.len() ==> out@[i] as int == #[trigger] (before + positions_with_parent(candidates@, sid, c as int))[i],
            decreases candidates.len() - c,
        {
            let keep = match candidates[c].parent_symbol_id {
                Some(p) => p == sid,
                None => false,
            };
            if keep {
                out.push(c);
            }
            proof {
                let pw = positions_with_parent(candidates@, sid, c as int);
                let pw1 = positions_with_parent(candidates@, sid, c as int + 1);
                if keep {
                    assert(pw1 =~= pw.push(c as int));
                } else {
                    assert(pw1 =~= pw);
                }
                assert forall|i: int| 0 <= i < out@.len() implies out@[i] as int == #[trigger] (before + pw1)[i] by {
                    if i < before.len() + pw.len() {
                        assert((before + pw1)[i] == (before + pw)[i]);
                    }
                }
            }
            c = c + 1;
        }
        proof {
            let t1 = supertype_ids@.take(s as int + 1);
            assert(t1.drop_last() =~= supertype_ids@.take(s as int));
            assert(t1.last() == sid);
        }
        s = s + 1;
    }
    proof {
        assert(supertype_ids@.take(s as int) =~= supertype_ids@);
    }
    out
}

/// The ids among `found` that are neither known already nor repeated, in order.
pub open spec fn fresh_ids(known: Seq<i64>, found: Seq<i64>) -> Seq<i64>
    decreases found.len(),
{
    if found.len() == 0 {
        Seq::empty()
    } else {
        let pre = fresh_ids(known, found.drop_last());
        let x = found.last();
        if known.contains(x) || pre.contains(x) {
            pre
        } else {
            pre.push(x)
        }
    }
}

/// One step up the type hierarchy in the walk for overridden methods: the supertypes `found`
/// of the types reached so far join the `known` types, each once, and the new ones are
/// returned as the types to look up next; the walk ends when a step finds none.
pub fn hierarchy_step(known: &mut Vec<i64>, found: &Vec<i64>) -> (r: Vec<i64>)
    ensures
        r@ == fresh_ids(old(known)@, found@),
        final(known)@ == old(known)@ + r@,
{
    let ghost k0 = known@;
    let mut out: Vec<i64> = Vec::new();
    let mut i: usize = 0;
    while i < found.len()
        invariant
            i <= found.len(),
            known@ == k0 + out@,
            out@ == fresh_ids(k0, found@.take(i as int)),
        decreases found.len() - i,
    {
        let x = found[i];
        let mut seen = false;
        let mut j: usize = 0;
        while j < known.len()
            invariant
                j <= known.len(),
                seen <==> known@.take(j as int).contains(x),
            decreases known.len() - j,
        {
            proof {
                assert(known@.take(j + 1) =~= known@.take(j as int).push(known@[j as int]));
                lemma_contains_push(known@.take(j as int), known@[j as int], x);
            }
            if known[j] == x {
                seen = true;
            }
            j = j + 1;
        }
        proof {
            assert(known@.take(j as int) =~= known@);
            let t = found@.take(i + 1);
            assert(t.drop_last() =~= found@.take(i as int));
            assert(t.last() == x);
            // `x` is known or repeated exactly when it is in `known` = `k0 + out`.
            assert(known@.contains(x) <==> (k0.contains(x) || out@.contains(x))) by {
                if known@.contains(x) {
                    let m = choose|m: int| 0 <= m < known@.len() && known@[m] == x;
                    if m < k0.len() {
                        assert(k0[m] == x);
                    } else {
                        assert(out@[m - k0.len()] == x);
                    }
                }
                if k0.contains(x) {
                    let m = choose|m: int| 0 <= m < k0.len() && k0[m] == x;
                    assert(known@[m] == x);
                }
                if out@.contains(x) {
                    let m = choose|m: int| 0 <= m < out@.len() && out@[m] == x;
                    assert(known@[k0.len() + m] == x);
                }
            }
        }
        if !seen {
            out.push(x);
            known.push(x);
            proof {
                assert(known@ =~= k0 + out@);
            }
        }
        i = i + 1;
    }
    proof {
        assert(found@.take(i as int) =~= found@);
    }
    out
}

/// How the index changes after a rename is applied to the files: the symbol gets its new
/// name, qualified name and signature; a type's members have their qualified names moved
/// from the old prefix to the new one; relationships that named the old qualified name name
/// the new one.
pub struct StoreUpdate {
    pub symbol_id: SymbolId,
    pub new_name: String,
    pub old_qualified_name: String,
    pub new_qualified_name: String,
    pub new_signature: Option<String>,
    pub cascade_to_children: bool,
}

/// The index changes that renaming `symbol` to `new_name` calls for.
pub fn plan_store_update(symbol: &Symbol, new_name: &str) -> (r: StoreUpdate)
    ensures
        r.symbol_id == symbol.id,
        r.new_name@ == new_name@,
        r.old_qualified_name@ == symbol.qualified_name@,
        r.new_qualified_name@ == new_qualified_name(symbol.qualified_name@, symbol.name@, new_name@),
        match symbol.signature {
            Some(sig) => r.new_signature matches Some(ns) && ns@ == new_signature(sig@, symbol.name@, new_name@),
            None => r.new_signature is None,
        },
        r.cascade_to_children == is_type_kind(symbol.kind.0@),
{
    let new_qualified_name = build_new_qualified_name(symbol.qualified_name.as_str(), symbol.name.as_str(), new_name);
    let new_signature = match &symbol.signature {
        Some(sig) => Some(build_new_signature(sig.as_str(), symbol.name.as_str(), new_name)),
        None => None,
    };
    StoreUpdate {
        symbol_id: symbol.id,
        new_name: new_name.to_string(),
        old_qualified_name: symbol.qualified_name.clone(),
        new_qualified_name,
        new_signature,
        cascade_to_children: cascades_to_children(&symbol.kind),
    }
}

/// Whether a language's plugin supports rename.
pub fn supports_rename(language: LanguageId) -> (r: bool)
    ensures
        r == language_supports(language, PluginCapability::Rename),
{
    language.supports(PluginCapability::Rename)
}

/// The display names of the plugins that support rename, in the registry's order.
pub open spec fn rename_languages(ls: Seq<LanguageId>) -> Seq<Seq<char>>
    decreases ls.len(),
{
    if ls.len() == 0 {
        Seq::empty()
    } else {
        let pre = rename_languages(ls.drop_last());
        if language_supports(ls.last(), PluginCapability::Rename) {
            pre.push(language_display_name(ls.last()))
        } else {
            pre
        }
    }
}

/// The list of the languages that support rename, as a refusal names it: comma-separated, or
/// `none`.
pub open spec fn rename_languages_text(ls: Seq<LanguageId>) -> Seq<char> {
    if rename_languages(ls).len() == 0 {
        "none"@
    } else {
        join_with(rename_languages(ls), ", "@)
    }
}

/// The languages of the registry that support rename, as a refusal names them.
pub fn supported_rename_languages(registry: &PluginRegistry) -> (r: String)
    ensures
        r@ == rename_languages_text(registry.plugins@),
{
    let mut names: Vec<String> = Vec::new();
    let mut i: usize = 0;
    while i < registry.plugins.len()
        invariant
            i <= registry.plugins.len(),
            views(names@) == rename_languages(registry.plugins@.take(i as int)),
        decreases registry.plugins.len() - i,
    {
        let p = registry.plugins[i];
        proof {
            let t = registry.plugins@.take(i as int + 1);
            assert(t.drop_last() =~= registry.plugins@.take(i as int));
            assert(t.last() == p);
        }
        if supports_rename(p) {
            let d = p.display_name().to_string();
            proof {
                assert(views(names@.push(d)) =~= views(names@).push(d@));
            }
            names.push(d);
        }
        i = i + 1;
    }
    proof {
        assert(registry.plugins@.take(i as int) =~= registry.plugins@);
    }
    if names.len() == 0 {
        "none".to_string()
    } else {
        join_strings(&names, ", ")
    }
}

/// The warning for a file whose references a rename skips, because its language (shown as
/// `language`) does not support rename.
pub open spec fn skipped_warning(file_path: Seq<char>, language: Seq<char>) -> Seq<char> {
    "Warning: references in "@ + file_path + " skipped ("@ + language + " rename not supported)"@
}

/// The warning for a file whose references a rename skips.
pub fn skipped_file_warning(file_path: &str, language: &str) -> (r: String)
    ensures
        r@ == skipped_warning(file_path@, language@),
{
    let mut r = concat("Warning: references in ", file_path);
    r.append(" skipped (");
    r.append(language);
    r.append(" rename not supported)");
    r
}

/// One file of a rename's dry run: the plugin that looks for occurrences in it, or the
/// warning that skips it. A file whose indexed language has a plugin that cannot rename is
/// skipped; otherwise the renamed symbol's own plugin reads it (also where the file is not in
/// the index or its language has no plugin).
pub fn rename_file_step(
    registry: &PluginRegistry,
    file_path: &str,
    file_language: Option<&str>,
    symbol_language: LanguageId,
) -> (r: Result<LanguageId, String>)
    ensures
        match file_language {
            None => r == Ok::<LanguageId, String>(symbol_language),
            Some(l) => match plugin_index_from(registry.plugins@, l@, 0) {
                None => r == Ok::<LanguageId, String>(symbol_language),
                Some(i) => if language_supports(registry.plugins@[i], PluginCapability::Rename) {
                    r == Ok::<LanguageId, String>(symbol_language)
                } else {
                    r matches Err(w) && w@ == skipped_warning(file_path@, language_display_name(registry.plugins@[i]))
                },
            },
        },
{
    let language = match file_language {
        Some(l) => l,
        None => return Ok(symbol_language),
    };
    let mut i: usize = 0;
    while i < registry.plugins.len()
        invariant
            i <= registry.plugins.len(),
            file_language == Some(language),
            plugin_index_from(registry.plugins@, language@, 0) == plugin_index_from(
                registry.plugins@,
                language@,
                i as int,
            ),
        decreases registry.plugins.len() - i,
    {
        let p = registry.plugins[i];
        if str_eq(p.name(), language) {
            if supports_rename(p) {
                return Ok(symbol_language);
            }
            return Err(skipped_file_warning(file_path, p.display_name()));
        }
        i = i + 1;
    }
    Ok(symbol_language)
}

/// The files of a scan that have occurrences, in the scan's order.
pub open spec fn scans_with_occurrences(scans: Seq<(String, Vec<RenameOccurrence>)>) -> Seq<FileOccurrences>
    decreases scans.len(),
{
    if scans.len() == 0 {
        Seq::empty()
    } else {
        let pre = scans_with_occurrences(scans.drop_last());
        if scans.last().1@.len() > 0 {
            pre.push(FileOccurrences { file_path: scans.last().0, occurrences: scans.last().1 })
        } else {
            pre
        }
    }
}

/// The result of a rename's dry run from the occurrences found in each file and the
/// warnings: the files with occurrences, ordered by path, each with its occurrences ordered
/// by position (stably), and the warnings as given.
pub fn assemble_rename_result(scans: Vec<(String, Vec<RenameOccurrence>)>, warnings: Vec<String>) -> (r: RenameResult)
    ensures
        r.warnings@ == warnings@,
        ({
            let kept = scans_with_occurrences(scans@);
            let ordered = order_by_path(kept, kept.len() as int);
            &&& r.changes@.len() == kept.len()
            &&& forall|k: int| 0 <= k < r.changes@.len() ==> (#[trigger] r.changes@[k]).file_path == ordered[k].file_path
                && r.changes@[k].occurrences@ == order_by_position(
                    ordered[k].occurrences@,
                    ordered[k].occurrences@.len() as int,
                )
        }),
        sorted_by_path(r.changes@),
        forall|k: int| 0 <= k < r.changes@.len() ==> sorted_by_position(#[trigger] r.changes@[k].occurrences@),
{
    let ghost all = scans@;
    let mut rest = scans;
    let mut kept: Vec<FileOccurrences> = Vec::new();
    let ghost mut i: int = 0;
    while rest.len() > 0
        invariant
            0 <= i <= all.len(),
            rest@ == all.skip(i),
            kept@ == scans_with_occurrences(all.take(i)),
        decreases rest.len(),
    {
        let (path, occurrences) = rest.remove(0);
        proof {
            assert(all.take(i + 1).drop_last() =~= all.take(i));
            assert(all.take(i + 1).last() == (path, occurrences));
            assert(rest@ =~= all.skip(i + 1));
            i = i + 1;
        }
        if occurrences.len() > 0 {
            kept.push(FileOccurrences { file_path: path, occurrences });
        }
    }
    proof {
        assert(all.take(i) =~= all);
    }
    let changes = sort_changes(kept);
    RenameResult { changes, warnings }
}

/// The line of a rename's dry run for one occurrence: `path:line:column  old → new`.
pub open spec fn occurrence_line_text(path: Seq<char>, o: RenameOccurrence, new_name: Seq<char>) -> Seq<char> {
    path + ":"@ + decimal(o.line as int) + ":"@ + decimal(o.column as int) + "  "@ + o.old_text@ + " → "@
        + new_name
}

/// The line of a rename's dry run for one occurrence.
pub fn occurrence_line(display_path: &str, o: &RenameOccurrence, new_name: &str) -> (r: String)
    ensures
        r@ == occurrence_line_text(display_path@, *o, new_name@),
{
    let mut r = concat(display_path, ":");
    let line = i64_to_decimal(o.line);
    r.append(line.as_str());
    r.append(":");
    let column = i64_to_decimal(o.column);
    r.append(column.as_str());
    r.append("  ");
    r.append(o.old_text.as_str());
    r.append(" → ");
    r.append(new_name);
    r
}

/// The count of a rename: `N occurrences in M files`, after `Renamed ` where it was applied.
pub open spec fn rename_summary_text(applied: bool, occurrences: u64, files: u64) -> Seq<char> {
    (if applied {
        "Renamed "@
    } else {
        Seq::<char>::empty()
    }) + digits(occurrences as nat) + " occurrences in "@ + digits(files as nat) + " files"@
}

/// The count of a rename, before or after it was applied.
pub fn rename_summary(applied: bool, occurrences: u64, files: u64) -> (r: String)
    ensures
        r@ == rename_summary_text(applied, occurrences, files),
{
    let mut r = if applied {
        "Renamed ".to_string()
    } else {
        String::new()
    };
    let n = u64_to_decimal(occurrences);
    r.append(n.as_str());
    r.append(" occurrences in ");
    let m = u64_to_decimal(files);
    r.append(m.as_str());
    r.append(" files");
    r
}

/// Why a rename request is refused before any file is read.
#[derive(Debug)]
pub enum RenameRefusal {
    /// The symbol is already named `name`, the new name.
    SameName { name: String },
    /// The index knows no plugin for the file's language.
    NoPlugin { language: String },
    /// The plugin of the file's language cannot rename; the message names it and the
    /// languages that can.
    NotSupported { message: String },
}

/// The text of a refusal.
pub open spec fn refusal_text(r: RenameRefusal) -> Seq<char> {
    match r {
        RenameRefusal::SameName { name } => "Symbol is already named '"@ + name@ + "'. Nothing to rename."@,
        RenameRefusal::NoPlugin { language } => "No plugin found for language '"@ + language@ + "'"@,
        RenameRefusal::NotSupported { message } => message@,
    }
}

impl RenameRefusal {
    /// The message that tells the user why the rename is refused.
    pub fn message(&self) -> (r: String)
        ensures
            r@ == refusal_text(*self),
    {
        match self {
            RenameRefusal::SameName { name } => {
                let head = concat("Symbol is already named '", name.as_str());
                concat(head.as_str(), "'. Nothing to rename.")
            },
            RenameRefusal::NoPlugin { language } => {
                let head = concat("No plugin found for language '", language.as_str());
                concat(head.as_str(), "'")
            },
            RenameRefusal::NotSupported { message } => message.clone(),
        }
    }
}

/// Checks a rename request: the new name must differ, the symbol's language must have a
/// plugin, and that plugin must support rename.
pub fn check_rename_request(
    registry: &PluginRegistry,
    symbol_name: &str,
    file_language: &str,
    new_name: &str,
) -> (r: Result<LanguageId, RenameRefusal>)
    ensures
        symbol_name@ == new_name@ ==> (r matches Err(RenameRefusal::SameName { name }) && name@ == new_name@),
        symbol_name@ != new_name@ ==> match plugin_index_from(registry.plugins@, file_language@, 0) {
            None => r matches Err(RenameRefusal::NoPlugin { language }) && language@ == file_language@,
            Some(i) => if language_supports(registry.plugins@[i], PluginCapability::Rename) {
                r == Ok::<LanguageId, RenameRefusal>(registry.plugins@[i])
            } else {
                r matches Err(RenameRefusal::NotSupported { message }) && message@
                    == "Rename is not supported for "@ + language_display_name(registry.plugins@[i])
                    + " files. Supported: "@ + rename_languages_text(registry.plugins@)
            },
        },
{
    if str_eq(symbol_name, new_name) {
        return Err(RenameRefusal::SameName { name: new_name.to_string() });
    }
    let mut i: usize = 0;
    while i < registry.plugins.len()
        invariant
            i <= registry.plugins.len(),
            symbol_name@ != new_name@,
            plugin_index_from(registry.plugins@, file_language@, 0) == plugin_index_from(
                registry.plugins@,
                file_language@,
                i as int,
            ),
        decreases registry.plugins.len() - i,
    {
        let p = registry.plugins[i];
        if str_eq(p.name(), file_language) {
            if supports_rename(p) {
                return Ok(p);
            }
            let head = concat("Rename is not supported for ", p.display_name());
            let mut message = concat(head.as_str(), " files. Supported: ");
            let supported = supported_rename_languages(registry);
            message.append(supported.as_str());
            return Err(RenameRefusal::NotSupported { message });
        }
        i = i + 1;
    }
    Err(RenameRefusal::NoPlugin { language: file_language.to_string() })
}

// ---------------------------------------------------------------------------------------------
// Ordering the changes
// ---------------------------------------------------------------------------------------------

/// A file's changes placed into a list ordered by path: before the first file with a greater
/// path (so that files of equal paths keep their order).
pub open spec fn insert_by_path(e: FileOccurrences, sorted: Seq<FileOccurrences>) -> Seq<FileOccurrences>
    decreases sorted.len(),
{
    if sorted.len() == 0 {
        seq![e]
    } else if seq_less(e.file_path@, sorted[0].file_path@) {
        seq![e] + sorted
    } else {
        seq![sorted[0]] + insert_by_path(e, sorted.drop_first())
    }
}

proof fn lemma_insert_by_path_len(e: FileOccurrences, sorted: Seq<FileOccurrences>)
    ensures
        insert_by_path(e, sorted).len() == sorted.len() + 1,
    decreases sorted.len(),
{
    if sorted.len() > 0 {
        lemma_insert_by_path_len(e, sorted.drop_first());
    }
}

proof fn lemma_order_by_path_len(fs: Seq<FileOccurrences>, k: int)
    requires
        0 <= k <= fs.len(),
    ensures
        order_by_path(fs, k).len() == k,
    decreases k,
{
    if k > 0 {
        lemma_order_by_path_len(fs, k - 1);
        lemma_insert_by_path_len(fs[k - 1], order_by_path(fs, k - 1));
    }
}

/// The first `k` files ordered by path.
pub open spec fn order_by_path(fs: Seq<FileOccurrences>, k: int) -> Seq<FileOccurrences>
    decreases k,
{
    if k <= 0 || k > fs.len() {
        Seq::empty()
    } else {
        insert_by_path(fs[k - 1], order_by_path(fs, k - 1))
    }
}

/// Whether an occurrence comes before another: by line, then by column.
pub open spec fn occurrence_before(a: RenameOccurrence, b: RenameOccurrence) -> bool {
    a.line < b.line || (a.line == b.line && a.column < b.column)
}

/// An occurrence placed into a list ordered by position, after those at the same position.
pub open spec fn insert_by_position(e: RenameOccurrence, sorted: Seq<RenameOccurrence>) -> Seq<RenameOccurrence>
    decreases sorted.len(),
{
    if sorted.len() == 0 {
        seq![e]
    } else if occurrence_before(e, sorted[0]) {
        seq![e] + sorted
    } else {
        seq![sorted[0]] + insert_by_position(e, sorted.drop_first())
    }
}

/// The first `k` occurrences ordered by position.
pub open spec fn order_by_position(os: Seq<RenameOccurrence>, k: int) -> Seq<RenameOccurrence>
    decreases k,
{
    if k <= 0 || k > os.len() {
        Seq::empty()
    } else {
        insert_by_position(os[k - 1], order_by_position(os, k - 1))
    }
}

/// Whether no file comes after a file whose path is greater.
pub open spec fn sorted_by_path(fs: Seq<FileOccurrences>) -> bool {
    forall|i: int, j: int|
        0 <= i < j < fs.len() ==> !seq_less(#[trigger] fs[j].file_path@, #[trigger] fs[i].file_path@)
}

/// Whether no occurrence comes after an occurrence at a later position.
pub open spec fn sorted_by_position(os: Seq<RenameOccurrence>) -> bool {
    forall|i: int, j: int| 0 <= i < j < os.len() ==> !occurrence_before(#[trigger] os[j], #[trigger] os[i])
}

proof fn lemma_insert_by_path(e: FileOccurrences, sorted: Seq<FileOccurrences>)
    ensures
        insert_by_path(e, sorted).to_multiset() =~= sorted.to_multiset().insert(e),
        sorted_by_path(sorted) ==> sorted_by_path(insert_by_path(e, sorted)),
    decreases sorted.len(),
{
    broadcast use vstd::seq_lib::group_to_multiset_ensures, vstd::multiset::group_multiset_axioms;
    let r = insert_by_path(e, sorted);
    if sorted.len() == 0 {
        assert(r =~= Seq::<FileOccurrences>::empty().push(e));
        assert(sorted =~= Seq::<FileOccurrences>::empty());
    } else if seq_less(e.file_path@, sorted[0].file_path@) {
        vstd::seq_lib::lemma_multiset_commutative(seq![e], sorted);
        assert(seq![e] =~= Seq::<FileOccurrences>::empty().push(e));
        if sorted_by_path(sorted) {
            assert forall|i: int, j: int| 0 <= i < j < r.len() implies !seq_less(
                #[trigger] r[j].file_path@,
                #[trigger] r[i].file_path@,
            ) by {
                if i == 0 {
                    let x = sorted[j - 1].file_path@;
                    if seq_less(x, e.file_path@) {
                        lemma_seq_less_transitive(x, e.file_path@, sorted[0].file_path@);
                        lemma_seq_less_asymmetric(x, x);
                    }
                } else {
                    assert(r[i] == sorted[i - 1] && r[j] == sorted[j - 1]);
                }
            }
        }
    } else {
        let rest = sorted.drop_first();
        let t = insert_by_path(e, rest);
        lemma_insert_by_path(e, rest);
        vstd::seq_lib::lemma_multiset_commutative(seq![sorted[0]], t);
        vstd::seq_lib::lemma_multiset_commutative(seq![sorted[0]], rest);
        assert(seq![sorted[0]] + rest =~= sorted);
        if sorted_by_path(sorted) {
            assert(sorted_by_path(rest)) by {
                assert forall|i: int, j: int| 0 <= i < j < rest.len() implies !seq_less(
                    #[trigger] rest[j].file_path@,
                    #[trigger] rest[i].file_path@,
                ) by {
                    assert(rest[i] == sorted[i + 1] && rest[j] == sorted[j + 1]);
                }
            }
            assert forall|i: int, j: int| 0 <= i < j < r.len() implies !seq_less(
                #[trigger] r[j].file_path@,
                #[trigger] r[i].file_path@,
            ) by {
                assert(r[j] == t[j - 1]);
                if i == 0 {
                    assert(t.to_multiset().count(t[j - 1]) > 0);
                    if t[j - 1] != e {
                        assert(rest.to_multiset().count(t[j - 1]) > 0);
                        assert(rest.contains(t[j - 1]));
                        let m = choose|m: int| 0 <= m < rest.len() && rest[m] == t[j - 1];
                        assert(sorted[m + 1] == rest[m]);
                    }
                } else {
                    assert(r[i] == t[i - 1]);
                }
            }
        }
    }
}

/// Ordering by path keeps every file and leaves the files in order of path.
pub proof fn lemma_order_by_path(fs: Seq<FileOccurrences>, k: int)
    requires
        0 <= k <= fs.len(),
    ensures
        order_by_path(fs, k).to_multiset() =~= fs.take(k).to_multiset(),
        sorted_by_path(order_by_path(fs, k)),
    decreases k,
{
    broadcast use vstd::seq_lib::group_to_multiset_ensures, vstd::multiset::group_multiset_axioms;
    if k == 0 {
        assert(fs.take(0) =~= Seq::<FileOccurrences>::empty());
        assert(order_by_path(fs, 0) =~= Seq::<FileOccurrences>::empty());
    } else {
        lemma_order_by_path(fs, k - 1);
        lemma_insert_by_path(fs[k - 1], order_by_path(fs, k - 1));
        assert(fs.take(k) =~= fs.take(k - 1).push(fs[k - 1]));
    }
}

proof fn lemma_insert_by_position(e: RenameOccurrence, sorted: Seq<RenameOccurrence>)
    ensures
        insert_by_position(e, sorted).to_multiset() =~= sorted.to_multiset().insert(e),
        sorted_by_position(sorted) ==> sorted_by_position(insert_by_position(e, sorted)),
    decreases sorted.len(),
{
    broadcast use vstd::seq_lib::group_to_multiset_ensures, vstd::multiset::group_multiset_axioms;
    let r = insert_by_position(e, sorted);
    if sorted.len() == 0 {
        assert(r =~= Seq::<RenameOccurrence>::empty().push(e));
        assert(sorted =~= Seq::<RenameOccurrence>::empty());
    } else if occurrence_before(e, sorted[0]) {
        vstd::seq_lib::lemma_multiset_commutative(seq![e], sorted);
        assert(seq![e] =~= Seq::<RenameOccurrence>::empty().push(e));
        if sorted_by_position(sorted) {
            assert forall|i: int, j: int| 0 <= i < j < r.len() implies !occurrence_before(
                #[trigger] r[j],
                #[trigger] r[i],
            ) by {
                if i == 0 {
                    assert(r[j] == sorted[j - 1]);
                    if j - 1 > 0 {
                        assert(!occurrence_before(sorted[j - 1], sorted[0]));
                    }
                } else {
                    assert(r[i] == sorted[i - 1] && r[j] == sorted[j - 1]);
                }
            }
        }
    } else {
        let rest = sorted.drop_first();
        let t = insert_by_position(e, rest);
        lemma_insert_by_position(e, rest);
        vstd::seq_lib::lemma_multiset_commutative(seq![sorted[0]], t);
        vstd::seq_lib::lemma_multiset_commutative(seq![sorted[0]], rest);
        assert(seq![sorted[0]] + rest =~= sorted);
        if sorted_by_position(sorted) {
            assert(sorted_by_position(rest)) by {
                assert forall|i: int, j: int| 0 <= i < j < rest.len() implies !occurrence_before(
                    #[trigger] rest[j],
                    #[trigger] rest[i],
                ) by {
                    assert(rest[i] == sorted[i + 1] && rest[j] == sorted[j + 1]);
                }
            }
            assert forall|i: int, j: int| 0 <= i < j < r.len() implies !occurrence_before(
                #[trigger] r[j],
                #[trigger] r[i],
            ) by {
                assert(r[j] == t[j - 1]);
                if i == 0 {
                    assert(t.to_multiset().count(t[j - 1]) > 0);
                    if t[j - 1] != e {
                        assert(rest.to_multiset().count(t[j - 1]) > 0);
                        assert(rest.contains(t[j - 1]));
                        let m = choose|m: int| 0 <= m < rest.len() && rest[m] == t[j - 1];
                        assert(sorted[m + 1] == rest[m]);
                    }
                } else {
                    assert(r[i] == t[i - 1]);
                }
            }
        }
    }
}

/// Ordering by position keeps every occurrence and leaves them in order of position.
pub proof fn lemma_order_by_position(os: Seq<RenameOccurrence>, k: int)
    requires
        0 <= k <= os.len(),
    ensures
        order_by_position(os, k).to_multiset() =~= os.take(k).to_multiset(),
        sorted_by_position(order_by_position(os, k)),
    decreases k,
{
    broadcast use vstd::seq_lib::group_to_multiset_ensures, vstd::multiset::group_multiset_axioms;
    if k == 0 {
        assert(os.take(0) =~= Seq::<RenameOccurrence>::empty());
        assert(order_by_position(os, 0) =~= Seq::<RenameOccurrence>::empty());
    } else {
        lemma_order_by_position(os, k - 1);
        lemma_insert_by_position(os[k - 1], order_by_position(os, k - 1));
        assert(os.take(k) =~= os.take(k - 1).push(os[k - 1]));
    }
}

/// The occurrences ordered by line, then column; equal positions keep their order.
pub fn sort_occurrences(occurrences: Vec<RenameOccurrence>) -> (r: Vec<RenameOccurrence>)
    ensures
        r@ == order_by_position(occurrences@, occurrences@.len() as int),
        r@.to_multiset() =~= occurrences@.to_multiset(),
        sorted_by_position(r@),
{
    let ghost all = occurrences@;
    let mut rest = occurrences;
    let mut out: Vec<RenameOccurrence> = Vec::new();
    let ghost mut i: int = 0;
    while rest.len() > 0
        invariant
            0 <= i <= all.len(),
            rest@ == all.skip(i),
            out@ == order_by_position(all, i),
        decreases rest.len(),
    {
        let e = rest.remove(0);
        proof {
            assert(all[i] == e);
            assert(rest@ =~= all.skip(i + 1));
        }
        let mut pos: usize = 0;
        let ghost sorted = out@;
        proof {
            assert(sorted.skip(0) =~= sorted);
            assert(sorted.take(0) + insert_by_position(e, sorted) =~= insert_by_position(e, sorted));
        }
        while pos < out.len() && !(e.line < out[pos].line || (e.line == out[pos].line && e.column < out[pos].column))
            invariant
                pos <= out.len(),
                out@ == sorted,
                insert_by_position(e, sorted) == sorted.take(pos as int) + insert_by_position(e, sorted.skip(pos as int)),
            decreases out.len() - pos,
        {
            proof {
                let t = sorted.skip(pos as int);
                assert(t[0] == sorted[pos as int]);
                assert(t.drop_first() =~= sorted.skip(pos + 1));
                assert(sorted.take(pos as int) + (seq![t[0]] + insert_by_position(e, t.drop_first())) =~= sorted.take(pos + 1) + insert_by_position(e, sorted.skip(pos + 1)));
            }
            pos = pos + 1;
        }
        proof {
            let t = sorted.skip(pos as int);
            if pos < sorted.len() {
                assert(t[0] == sorted[pos as int]);
            }
        }
        out.insert(pos, e);
        proof {
            assert(out@ =~= sorted.take(pos as int) + (seq![e] + sorted.skip(pos as int)));
            i = i + 1;
        }
    }
    proof {
        assert(all.skip(i) =~= Seq::<RenameOccurrence>::empty());
        assert(all.take(i) =~= all);
        lemma_order_by_position(all, i);
    }
    out
}

/// The changes ordered by file path, and each file's occurrences by position; files with
/// equal paths, and occurrences at equal positions, keep their order.
pub fn sort_changes(changes: Vec<FileOccurrences>) -> (r: Vec<FileOccurrences>)
    ensures
        r@.len() == changes@.len(),
        forall|k: int| 0 <= k < r@.len() ==> (#[trigger] r@[k]).file_path == order_by_path(changes@, changes@.len() as int)[k].file_path
            && r@[k].occurrences@ == order_by_position(
                order_by_path(changes@, changes@.len() as int)[k].occurrences@,
                order_by_path(changes@, changes@.len() as int)[k].occurrences@.len() as int,
            ),
        sorted_by_path(r@),
        forall|k: int| 0 <= k < r@.len() ==> sorted_by_position(#[trigger] r@[k].occurrences@),
{
    let ghost all = changes@;
    let mut rest = changes;
    let mut out: Vec<FileOccurrences> = Vec::new();
    let ghost mut i: int = 0;
    while rest.len() > 0
        invariant
            0 <= i <= all.len(),
            rest@ == all.skip(i),
            out@ == order_by_path(all, i),
        decreases rest.len(),
    {
        let e = rest.remove(0);
        proof {
            assert(all[i] == e);
            assert(rest@ =~= all.skip(i + 1));
        }
        let mut pos: usize = 0;
        let ghost sorted = out@;
        proof {
            assert(sorted.skip(0) =~= sorted);
            assert(sorted.take(0) + insert_by_path(e, sorted) =~= insert_by_path(e, sorted));
        }
        while pos < out.len() && !str_less(e.file_path.as_str(), out[pos].file_path.as_str())
            invariant
                pos <= out.len(),
                out@ == sorted,
                insert_by_path(e, sorted) == sorted.take(pos as int) + insert_by_path(e, sorted.skip(pos as int)),
            decreases out.len() - pos,
        {
            proof {
                let t = sorted.skip(pos as int);
                assert(t[0] == sorted[pos as int]);
                assert(t.drop_first() =~= sorted.skip(pos + 1));
                assert(sorted.take(pos as int) + (seq![t[0]] + insert_by_path(e, t.drop_first())) =~= sorted.take(pos + 1) + insert_by_path(e, sorted.skip(pos + 1)));
            }
            pos = pos + 1;
        }
        proof {
            let t = sorted.skip(pos as int);
            if pos < sorted.len() {
                assert(t[0] == sorted[pos as int]);
            }
        }
        out.insert(pos, e);
        proof {
            assert(out@ =~= sorted.take(pos as int) + (seq![e] + sorted.skip(pos as int)));
            i = i + 1;
        }
    }
    proof {
        assert(all.skip(i) =~= Seq::<FileOccurrences>::empty());
        lemma_order_by_path_len(all, all.len() as int);
        lemma_order_by_path(all, all.len() as int);
    }
    let ghost ordered = out@;
    let mut result: Vec<FileOccurrences> = Vec::new();
    let ghost mut j: int = 0;
    while out.len() > 0
        invariant
            0 <= j <= ordered.len(),
            ordered == order_by_path(all, all.len() as int),
            out@ == ordered.skip(j),
            result@.len() == j,
            forall|k: int| 0 <= k < j ==> (#[trigger] result@[k]).file_path == ordered[k].file_path
                && result@[k].occurrences@ == order_by_position(ordered[k].occurrences@, ordered[k].occurrences@.len() as int),
        decreases out.len(),
    {
        let f = out.remove(0);
        proof {
            assert(ordered[j] == f);
            assert(out@ =~= ordered.skip(j + 1));
        }
        let occurrences = sort_occurrences(f.occurrences);
        result.push(FileOccurrences { file_path: f.file_path, occurrences });
        proof {
            j = j + 1;
        }
    }
    proof {
        assert(ordered.skip(j).len() == 0);
        assert forall|k: int| 0 <= k < result@.len() implies sorted_by_position(#[trigger] result@[k].occurrences@) by {
            lemma_order_by_position(ordered[k].occurrences@, ordered[k].occurrences@.len() as int);
        }
        assert forall|a: int, b: int| 0 <= a < b < result@.len() implies !seq_less(
            #[trigger] result@[b].file_path@,
            #[trigger] result@[a].file_path@,
        ) by {
            assert(result@[a].file_path == ordered[a].file_path);
            assert(result@[b].file_path == ordered[b].file_path);
        }
    }
    result
}

/// The files a rename touches: the renamed symbol's file, then each other file of the
/// related symbols, once.
pub fn affected_paths(symbol_path: &str, related_paths: &Vec<String>) -> (r: Vec<String>)
    ensures
        r@.len() > 0 && r@[0]@ == symbol_path@,
        forall|k: int, l: int| 0 <= k < l < r@.len() ==> r@[k]@ != r@[l]@,
        forall|p: Seq<char>| views(r@).contains(p) <==> (p == symbol_path@ || views(related_paths@).contains(p)),
{
    let mut out: Vec<String> = Vec::new();
    out.push(symbol_path.to_string());
    let mut i: usize = 0;
    proof {
        assert(views(out@) =~= seq![symbol_path@]);
        assert forall|p: Seq<char>| views(out@).contains(p) <==> (p == symbol_path@ || views(related_paths@).take(0).contains(p)) by {
            if views(out@).contains(p) {
                let m = choose|m: int| 0 <= m < views(out@).len() && views(out@)[m] == p;
                assert(m == 0);
            }
            if p == symbol_path@ {
                assert(views(out@)[0] == p);
            }
        }
    }
    while i < related_paths.len()
        invariant
            i <= related_paths.len(),
            out@.len() > 0 && out@[0]@ == symbol_path@,
            forall|k: int, l: int| 0 <= k < l < out@.len() ==> out@[k]@ != out@[l]@,
            forall|p: Seq<char>| views(out@).contains(p) <==> (p == symbol_path@ || views(related_paths@).take(i as int).contains(p)),
        decreases related_paths.len() - i,
    {
        let p = &related_paths[i];
        let mut seen = false;
        let mut k: usize = 0;
        while k < out.len()
            invariant
                k <= out.len(),
                seen <==> views(out@).take(k as int).contains(p@),
            decreases out.len() - k,
        {
            proof {
                assert(views(out@).take(k + 1) =~= views(out@).take(k as int).push(out@[k as int]@));
                lemma_contains_push(views(out@).take(k as int), out@[k as int]@, p@);
            }
            if str_eq(out[k].as_str(), p.as_str()) {
                seen = true;
            }
            k = k + 1;
        }
        proof {
            assert(views(out@).take(k as int) =~= views(out@));
            assert(views(related_paths@).take(i + 1) =~= views(related_paths@).take(i as int).push(p@));
        }
        let ghost before = out@;
        if !seen {
            out.push(p.clone());
            proof {
                assert(views(out@) =~= views(before).push(p@));
                assert forall|a: int, b: int| 0 <= a < b < out@.len() implies out@[a]@ != out@[b]@ by {
                    if b == out@.len() - 1 {
                        assert(views(before)[a] == before[a]@);
                    }
                }
            }
        }
        proof {
            assert forall|q: Seq<char>| views(out@).contains(q) <==> (q == symbol_path@ || views(related_paths@).take(i + 1).contains(q)) by {
                lemma_contains_push(views(related_paths@).take(i as int), p@, q);
                if !seen {
                    lemma_contains_push(views(before), p@, q);
                }
            }
        }
        i = i + 1;
    }
    proof {
        assert(views(related_paths@).take(i as int) =~= views(related_paths@));
    }
    out
}

} // verus!

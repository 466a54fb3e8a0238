//! What a read of the configuration text gives back after a write or a removal.
use vstd::prelude::*;
use crate::config::{
    end_in_sec, entry_line, first_index, header_of, is_header, join_nl, kv_of, lines_seq,
    read_lines, read_value_spec, remove_rec, remove_value_spec, sets_key, split_nl, strip_cr,
    with_final_nl, write_lines, write_rec, write_value_spec,
};
use crate::text::{is_ws, lemma_trim_end_to, lemma_trim_start_from, trim_end_seq, trim_seq, trim_start_seq};

verus! {

/// Whether `s` holds no newline character.
pub open spec fn no_newline(s: Seq<char>) -> bool {
    forall|i: int| 0 <= i < s.len() ==> s[i] != '\n'
}

/// Whether `s` has no white space at either end (as `str::trim` leaves a string).
pub open spec fn edge_trimmed(s: Seq<char>) -> bool {
    s.len() > 0 ==> !is_ws(s[0]) && !is_ws(s.last())
}

/// A key that a configuration line gives back as written: trimmed, without `=`, and not
/// starting a comment or a header.
pub open spec fn plain_key(key: Seq<char>) -> bool {
    &&& no_newline(key)
    &&& edge_trimmed(key)
    &&& forall|i: int| 0 <= i < key.len() ==> key[i] != '='
    &&& key.len() > 0 ==> key[0] != '#' && key[0] != '['
}

/// A value that a configuration line gives back as written: trimmed and on one line.
pub open spec fn plain_value(value: Seq<char>) -> bool {
    no_newline(value) && edge_trimmed(value)
}

// ---------------------------------------------------------------------------------------------
// Splitting joined lines
// ---------------------------------------------------------------------------------------------

proof fn lemma_split_nl_single(s: Seq<char>)
    requires
        no_newline(s),
    ensures
        split_nl(s) == seq![s],
    decreases s.len(),
{
    if s.len() > 0 {
        let pre = s.drop_last();
        assert forall|i: int| 0 <= i < pre.len() implies pre[i] != '\n' by {
            assert(pre[i] == s[i]);
        }
        lemma_split_nl_single(pre);
        assert(s.last() != '\n') by {
            assert(s.last() == s[s.len() - 1]);
        }
        assert(pre.push(s.last()) =~= s);
        assert(seq![pre].update(0, pre.push(s.last())) =~= seq![s]);
    } else {
        assert(s =~= Seq::<char>::empty());
    }
}

proof fn lemma_split_nl_nonempty(s: Seq<char>)
    ensures
        split_nl(s).len() >= 1,
    decreases s.len(),
{
    if s.len() > 0 {
        lemma_split_nl_nonempty(s.drop_last());
    }
}

proof fn lemma_split_nl_concat(a: Seq<char>, b: Seq<char>)
    ensures
        split_nl(a + seq!['\n'] + b) == split_nl(a) + split_nl(b),
    decreases b.len(),
{
    let s = a + seq!['\n'] + b;
    if b.len() == 0 {
        assert(s.drop_last() =~= a);
        assert(split_nl(b) =~= seq![Seq::<char>::empty()]);
        assert(split_nl(a).push(Seq::<char>::empty()) =~= split_nl(a) + split_nl(b));
    } else {
        lemma_split_nl_concat(a, b.drop_last());
        assert(s.drop_last() =~= a + seq!['\n'] + b.drop_last());
        assert(s.last() == b.last());
        lemma_split_nl_nonempty(b.drop_last());
        lemma_split_nl_nonempty(a);
        let pa = split_nl(a);
        let pb = split_nl(b.drop_last());
        if b.last() == '\n' {
            assert((pa + pb).push(Seq::<char>::empty()) =~= pa + pb.push(Seq::<char>::empty()));
        } else {
            let pre = pa + pb;
            assert(pre.update(pre.len() - 1, pre.last().push(b.last())) =~= pa + pb.update(
                pb.len() - 1,
                pb.last().push(b.last()),
            ));
        }
    }
}

proof fn lemma_split_nl_join(w: Seq<Seq<char>>)
    requires
        w.len() >= 1,
        forall|i: int| 0 <= i < w.len() ==> no_newline(#[trigger] w[i]),
    ensures
        split_nl(join_nl(w)) == w,
    decreases w.len(),
{
    if w.len() == 1 {
        lemma_split_nl_single(w[0]);
        assert(seq![w[0]] =~= w);
    } else {
        let pre = w.drop_last();
        assert forall|i: int| 0 <= i < pre.len() implies no_newline(#[trigger] pre[i]) by {
            assert(pre[i] == w[i]);
        }
        lemma_split_nl_join(pre);
        lemma_split_nl_concat(join_nl(pre), w.last());
        lemma_split_nl_single(w.last());
        assert(pre + seq![w.last()] =~= w);
    }
}

proof fn lemma_split_nl_pieces(s: Seq<char>)
    ensures
        forall|i: int| 0 <= i < split_nl(s).len() ==> no_newline(#[trigger] split_nl(s)[i]),
    decreases s.len(),
{
    if s.len() > 0 {
        lemma_split_nl_pieces(s.drop_last());
        lemma_split_nl_nonempty(s.drop_last());
        let pre = split_nl(s.drop_last());
        if s.last() != '\n' {
            let l = pre.last().push(s.last());
            assert(no_newline(pre[pre.len() - 1]));
            assert(no_newline(l));
        }
    }
}

proof fn lemma_lines_no_newline(s: Seq<char>)
    ensures
        forall|i: int| 0 <= i < lines_seq(s).len() ==> no_newline(#[trigger] lines_seq(s)[i]),
{
    lemma_split_nl_pieces(s);
    lemma_split_nl_nonempty(s);
    let p = split_nl(s);
    assert forall|i: int| 0 <= i < lines_seq(s).len() implies no_newline(
        #[trigger] lines_seq(s)[i],
    ) by {
        if i < p.len() - 1 {
            assert(p.drop_last()[i] == p[i]);
            assert(no_newline(p[i]));
            assert(lines_seq(s)[i] == strip_cr(p[i]));
        } else {
            assert(lines_seq(s)[i] == p.last());
            assert(no_newline(p[p.len() - 1]));
        }
    }
}

proof fn lemma_join_last(w: Seq<Seq<char>>)
    requires
        w.len() >= 1,
        w.last().len() > 0,
    ensures
        join_nl(w).len() > 0,
        join_nl(w).last() == w.last().last(),
{
}

// ---------------------------------------------------------------------------------------------
// Reading is blind to a carriage return at the end of a line and to a final blank line
// ---------------------------------------------------------------------------------------------

proof fn lemma_trim_start_push(x: Seq<char>, c: char)
    ensures
        trim_start_seq(x.push(c)) == if trim_start_seq(x).len() == 0 && is_ws(c) {
            Seq::<char>::empty()
        } else {
            trim_start_seq(x).push(c)
        },
    decreases x.len(),
{
    if x.len() == 0 {
        assert(x.push(c) =~= seq![c]);
        assert(seq![c].drop_first() =~= Seq::<char>::empty());
        assert(trim_start_seq(Seq::<char>::empty()) =~= Seq::<char>::empty());
        assert(trim_start_seq(x) =~= Seq::<char>::empty());
        assert(Seq::<char>::empty().push(c) =~= seq![c]);
        assert(seq![c][0] == c);
    } else {
        assert(x.push(c)[0] == x[0]);
        assert(x.push(c).drop_first() =~= x.drop_first().push(c));
        if is_ws(x[0]) {
            lemma_trim_start_push(x.drop_first(), c);
        }
    }
}

proof fn lemma_trim_strip_cr(l: Seq<char>)
    ensures
        trim_seq(strip_cr(l)) == trim_seq(l),
{
    if l.len() > 0 && l.last() == '\r' {
        let x = l.drop_last();
        assert(x.push('\r') =~= l);
        lemma_trim_start_push(x, '\r');
        assert(is_ws('\r'));
        if trim_start_seq(x).len() != 0 {
            let y = trim_start_seq(x);
            assert(y.push('\r').drop_last() =~= y);
        }
    }
}

proof fn lemma_read_lines_strip(x: Seq<Seq<char>>, h: Seq<char>, key: Seq<char>, b: bool)
    ensures
        read_lines(x.map_values(|l: Seq<char>| strip_cr(l)), h, key, b) == read_lines(x, h, key, b),
    decreases x.len(),
{
    let m = x.map_values(|l: Seq<char>| strip_cr(l));
    if x.len() > 0 {
        lemma_trim_strip_cr(x[0]);
        assert(m[0] == strip_cr(x[0]));
        assert(m.drop_first() =~= x.drop_first().map_values(|l: Seq<char>| strip_cr(l)));
        lemma_read_lines_strip(x.drop_first(), h, key, true);
        lemma_read_lines_strip(x.drop_first(), h, key, false);
    }
}

proof fn lemma_read_lines_append(
    a: Seq<Seq<char>>,
    b: Seq<Seq<char>>,
    h: Seq<char>,
    key: Seq<char>,
    in_sec: bool,
)
    ensures
        read_lines(a + b, h, key, in_sec) == match read_lines(a, h, key, in_sec) {
            Some(v) => Some(v),
            None => read_lines(b, h, key, end_in_sec(a, h, in_sec)),
        },
    decreases a.len(),
{
    if a.len() == 0 {
        assert(a + b =~= b);
    } else {
        assert((a + b)[0] == a[0]);
        assert((a + b).drop_first() =~= a.drop_first() + b);
        lemma_read_lines_append(a.drop_first(), b, h, key, true);
        lemma_read_lines_append(a.drop_first(), b, h, key, false);
    }
}

proof fn lemma_read_blank(h: Seq<char>, key: Seq<char>, b: bool)
    ensures
        read_lines(seq![Seq::<char>::empty()], h, key, b) is None,
{
    let e = Seq::<char>::empty();
    let ls = seq![e];
    assert(ls[0] == e);
    assert(trim_start_seq(e) =~= e);
    assert(trim_end_seq(e) =~= e);
    let t = trim_seq(ls[0]);
    assert(t =~= e);
    assert(!is_header(t));
    assert(kv_of(t) is None);
    assert(!sets_key(t, key));
    assert(ls.drop_first() =~= Seq::<Seq<char>>::empty());
    assert(read_lines(ls.drop_first(), h, key, b) is None);
}

proof fn lemma_split_single_newline()
    ensures
        split_nl(seq!['\n']) == seq![Seq::<char>::empty(), Seq::<char>::empty()],
{
    let s = seq!['\n'];
    assert(s.drop_last() =~= Seq::<char>::empty());
    assert(split_nl(Seq::<char>::empty()) == seq![Seq::<char>::empty()]);
    assert(s.last() == '\n');
    assert(seq![Seq::<char>::empty()].push(Seq::<char>::empty()) =~= seq![
        Seq::<char>::empty(),
        Seq::<char>::empty(),
    ]);
}

/// A read of the text written from the lines `w` gives what a read of `w` gives.
proof fn lemma_read_written_lines(w: Seq<Seq<char>>, h: Seq<char>, key: Seq<char>)
    requires
        forall|i: int| 0 <= i < w.len() ==> no_newline(#[trigger] w[i]),
    ensures
        read_lines(lines_seq(with_final_nl(join_nl(w))), h, key, false) == read_lines(
            w,
            h,
            key,
            false,
        ),
{
    let strip = |l: Seq<char>| strip_cr(l);
    if w.len() == 0 {
        let s = with_final_nl(join_nl(w));
        assert(s =~= seq!['\n']);
        lemma_split_single_newline();
        let l = lines_seq(s);
        assert(l =~= seq![Seq::<char>::empty()]);
        lemma_read_blank(h, key, false);
    } else if w.last().len() > 0 {
        lemma_join_last(w);
        let j = join_nl(w);
        let s = with_final_nl(j);
        assert(s == j + seq!['\n'] + Seq::<char>::empty());
        lemma_split_nl_concat(j, Seq::<char>::empty());
        lemma_split_nl_join(w);
        let p = split_nl(s);
        assert(p =~= w.push(Seq::<char>::empty()));
        assert(p.drop_last() =~= w);
        assert(lines_seq(s) == w.map_values(strip));
        lemma_read_lines_strip(w, h, key, false);
    } else if w.len() == 1 {
        let s = with_final_nl(join_nl(w));
        assert(w[0] =~= Seq::<char>::empty());
        assert(s =~= seq!['\n']);
        lemma_split_single_newline();
        assert(lines_seq(s) =~= seq![Seq::<char>::empty()]);
        assert(w =~= seq![Seq::<char>::empty()]);
    } else {
        let pre = w.drop_last();
        let j = join_nl(w);
        assert(j == join_nl(pre) + seq!['\n'] + w.last());
        assert(w.last() =~= Seq::<char>::empty());
        assert(j.last() == '\n');
        let s = with_final_nl(j);
        assert(s == j);
        lemma_split_nl_join(w);
        assert(lines_seq(s) == pre.map_values(strip));
        lemma_read_lines_strip(pre, h, key, false);
        assert(pre + seq![Seq::<char>::empty()] =~= w);
        lemma_read_lines_append(pre, seq![Seq::<char>::empty()], h, key, false);
        lemma_read_blank(h, key, end_in_sec(pre, h, false));
    }
}

// ---------------------------------------------------------------------------------------------
// The lines that are written
// ---------------------------------------------------------------------------------------------

proof fn lemma_trim_plain(s: Seq<char>)
    requires
        edge_trimmed(s),
    ensures
        trim_seq(s) == s,
{
    if s.len() > 0 {
        assert(trim_start_seq(s) == s);
        assert(trim_end_seq(s) == s);
    } else {
        assert(trim_start_seq(s) == s);
    }
}

proof fn lemma_header_line(section: Seq<char>)
    ensures
        trim_seq(header_of(section)) == header_of(section),
        is_header(header_of(section)),
{
    let h = header_of(section);
    assert(h[0] == '[');
    assert(h.last() == ']');
    lemma_trim_plain(h);
}

proof fn lemma_entry_line(key: Seq<char>, value: Seq<char>)
    requires
        plain_key(key),
        plain_value(value),
    ensures
        !is_header(trim_seq(entry_line(key, value))),
        kv_of(trim_seq(entry_line(key, value))) == Some((key, value)),
{
    let nl = entry_line(key, value);
    let k: int = key.len() as int;
    assert(nl[k] == ' ' && nl[k + 1] == '=' && nl[k + 2] == ' ');
    // Leading white space: none when the key is not empty, one space otherwise.
    let start: int = if k == 0 { 1 } else { 0 };
    assert forall|j: int| 0 <= j < start implies is_ws(nl[j]) by {
        assert(nl[j] == ' ');
    }
    lemma_trim_start_from(nl, start);
    let a = nl.subrange(start, nl.len() as int);
    assert(a.len() > 0);
    assert(!is_ws(a[0])) by {
        if k == 0 {
            assert(a[0] == '=');
        } else {
            assert(a[0] == key[0]);
        }
    }
    assert(trim_start_seq(a) == a);
    // Trailing white space: none when the value is not empty, one space otherwise.
    let end: int = if value.len() == 0 { a.len() - 1 } else { a.len() as int };
    assert forall|j: int| end <= j < a.len() implies is_ws(a[j]) by {
        assert(a[j] == nl[j + start]);
        assert(nl[j + start] == ' ');
    }
    lemma_trim_end_to(a, end);
    let t = a.subrange(0, end);
    assert(t.len() > 0);
    assert(!is_ws(t.last())) by {
        if value.len() == 0 {
            assert(t.last() == '=');
        } else {
            assert(t.last() == value.last());
        }
    }
    assert(trim_end_seq(t) == t);
    assert(trim_seq(nl) == t);
    // The first `=` follows the key.
    let eq: int = k - start + 1;
    assert(t[eq] == '=');
    assert forall|j: int| 0 <= j < eq implies t[j] != '=' by {
        assert(t[j] == nl[j + start]);
        if j + start < k {
            assert(nl[j + start] == key[j + start]);
        }
    }
    lemma_first_index_at(t, '=', eq);
    assert(t[0] != '#') by {
        if k == 0 {
            assert(t[0] == '=');
        } else {
            assert(t[0] == key[0]);
        }
    }
    assert(t[0] != '[');
    // The two sides trim to the key and the value.
    let before = t.take(eq);
    let after = t.skip(eq + 1);
    if k == 0 {
        assert(before =~= Seq::<char>::empty());
        assert(trim_seq(before) =~= key) by {
            assert(trim_start_seq(before) == before);
        }
    } else {
        assert(before =~= key.push(' '));
        lemma_trim_plain(key);
        assert forall|j: int| k <= j < before.len() implies is_ws(before[j]) by {}
        lemma_trim_end_to(before, k);
        assert(before.subrange(0, k) =~= key);
        assert(trim_start_seq(before) == before);
        assert(trim_end_seq(key) == key);
    }
    if value.len() == 0 {
        assert(after =~= Seq::<char>::empty());
        assert(trim_start_seq(after) == after);
    } else {
        assert(after =~= seq![' '] + value);
        assert forall|j: int| 0 <= j < 1 implies is_ws(after[j]) by {}
        lemma_trim_start_from(after, 1);
        assert(after.subrange(1, after.len() as int) =~= value);
        lemma_trim_plain(value);
        assert(trim_start_seq(value) == value);
    }
}

proof fn lemma_first_index_at(s: Seq<char>, c: char, i: int)
    requires
        0 <= i < s.len(),
        s[i] == c,
        forall|j: int| 0 <= j < i ==> s[j] != c,
    ensures
        first_index(s, c) == Some(i),
    decreases i,
{
    if i > 0 {
        lemma_first_index_at(s.drop_first(), c, i - 1);
    }
}

proof fn lemma_write_rec(
    ls: Seq<Seq<char>>,
    h: Seq<char>,
    key: Seq<char>,
    value: Seq<char>,
    in_sec: bool,
)
    requires
        plain_key(key),
        plain_value(value),
    ensures
        ({
            let r = write_rec(ls, h, key, entry_line(key, value), in_sec);
            &&& r.1 ==> read_lines(r.0, h, key, in_sec) == Some(value)
            &&& !r.1 ==> r.0 == ls && read_lines(ls, h, key, in_sec) is None && end_in_sec(
                ls,
                h,
                in_sec,
            ) == r.2
        }),
    decreases ls.len(),
{
    let nl = entry_line(key, value);
    lemma_entry_line(key, value);
    if ls.len() > 0 {
        let t = trim_seq(ls[0]);
        let r = write_rec(ls, h, key, nl, in_sec);
        if is_header(t) && in_sec {
            let out = seq![nl] + ls;
            assert(out[0] == nl);
            assert(sets_key(trim_seq(nl), key));
        } else if is_header(t) {
            lemma_write_rec(ls.drop_first(), h, key, value, t == h);
            let sub = write_rec(ls.drop_first(), h, key, nl, t == h);
            assert((seq![ls[0]] + sub.0)[0] == ls[0]);
            assert((seq![ls[0]] + sub.0).drop_first() =~= sub.0);
            if !sub.1 {
                assert(seq![ls[0]] + ls.drop_first() =~= ls);
            }
        } else if in_sec && sets_key(t, key) {
            let out = seq![nl] + ls.drop_first();
            assert(out[0] == nl);
        } else {
            lemma_write_rec(ls.drop_first(), h, key, value, in_sec);
            let sub = write_rec(ls.drop_first(), h, key, nl, in_sec);
            assert((seq![ls[0]] + sub.0)[0] == ls[0]);
            assert((seq![ls[0]] + sub.0).drop_first() =~= sub.0);
            if !sub.1 {
                assert(seq![ls[0]] + ls.drop_first() =~= ls);
            }
        }
    }
}

proof fn lemma_write_lines_read(
    ls: Seq<Seq<char>>,
    section: Seq<char>,
    key: Seq<char>,
    value: Seq<char>,
)
    requires
        plain_key(key),
        plain_value(value),
    ensures
        read_lines(write_lines(ls, header_of(section), key, entry_line(key, value)), header_of(section), key, false)
            == Some(value),
{
    let h = header_of(section);
    let nl = entry_line(key, value);
    lemma_write_rec(ls, h, key, value, false);
    lemma_entry_line(key, value);
    lemma_header_line(section);
    let r = write_rec(ls, h, key, nl, false);
    let t_nl = trim_seq(nl);
    assert(sets_key(t_nl, key));
    assert(read_lines(seq![nl], h, key, true) == Some(value)) by {
        assert(seq![nl][0] == nl);
        assert(seq![nl].drop_first() =~= Seq::<Seq<char>>::empty());
    }
    if r.1 {
        assert(write_lines(ls, h, key, nl) == r.0);
    } else if r.2 {
        assert(write_lines(ls, h, key, nl) == ls.push(nl));
        assert(ls.push(nl) =~= ls + seq![nl]);
        lemma_read_lines_append(ls, seq![nl], h, key, false);
    } else {
        let e = Seq::<char>::empty();
        let tail = seq![e, h, nl];
        assert(write_lines(ls, h, key, nl) == ls.push(e).push(h).push(nl));
        assert(ls.push(e).push(h).push(nl) =~= ls + tail);
        lemma_read_lines_append(ls, tail, h, key, false);
        assert(read_lines(seq![h, nl], h, key, false) == Some(value)) by {
            assert(seq![h, nl][0] == h);
            assert(seq![h, nl].drop_first() =~= seq![nl]);
        }
        assert(read_lines(tail, h, key, false) == Some(value)) by {
            assert(tail[0] == e);
            assert(trim_start_seq(e) =~= e);
            assert(trim_seq(e) =~= e);
            assert(kv_of(trim_seq(e)) is None);
            assert(tail.drop_first() =~= seq![h, nl]);
        }
    }
}

proof fn lemma_write_rec_no_newline(
    ls: Seq<Seq<char>>,
    h: Seq<char>,
    key: Seq<char>,
    nl: Seq<char>,
    in_sec: bool,
)
    requires
        no_newline(nl),
        forall|i: int| 0 <= i < ls.len() ==> no_newline(#[trigger] ls[i]),
    ensures
        ({
            let r = write_rec(ls, h, key, nl, in_sec).0;
            forall|i: int| 0 <= i < r.len() ==> no_newline(#[trigger] r[i])
        }),
    decreases ls.len(),
{
    if ls.len() > 0 {
        let rest = ls.drop_first();
        assert forall|i: int| 0 <= i < rest.len() implies no_newline(#[trigger] rest[i]) by {
            assert(rest[i] == ls[i + 1]);
        }
        lemma_write_rec_no_newline(rest, h, key, nl, true);
        lemma_write_rec_no_newline(rest, h, key, nl, false);
        let t = trim_seq(ls[0]);
        let r = write_rec(ls, h, key, nl, in_sec).0;
        assert forall|i: int| 0 <= i < r.len() implies no_newline(#[trigger] r[i]) by {
            if i == 0 {
                assert(no_newline(ls[0]));
            } else if is_header(t) && in_sec {
                assert(r[i] == ls[i - 1]);
            } else if !is_header(t) && in_sec && sets_key(t, key) {
                assert(r[i] == rest[i - 1]);
            } else {
                let sub = write_rec(rest, h, key, nl, if is_header(t) { t == h } else { in_sec });
                assert(r[i] == sub.0[i - 1]);
            }
        }
    }
}

/// The entry line and the header line of a plain key and value hold no newline.
proof fn lemma_written_parts_no_newline(section: Seq<char>, key: Seq<char>, value: Seq<char>)
    requires
        no_newline(section),
        plain_key(key),
        plain_value(value),
    ensures
        no_newline(entry_line(key, value)),
        no_newline(header_of(section)),
{
    let h = header_of(section);
    let nl = entry_line(key, value);
    assert forall|i: int| 0 <= i < nl.len() implies nl[i] != '\n' by {
        if i < key.len() {
            assert(nl[i] == key[i]);
        } else if i >= key.len() + 3 {
            assert(nl[i] == value[i - key.len() - 3]);
        }
    }
    assert forall|i: int| 0 <= i < h.len() implies h[i] != '\n' by {
        if 0 < i < h.len() - 1 {
            assert(h[i] == section[i - 1]);
        }
    }
}

/// The lines written for an existing text hold no newline.
proof fn lemma_write_lines_no_newline(
    c: Seq<char>,
    section: Seq<char>,
    key: Seq<char>,
    value: Seq<char>,
)
    requires
        no_newline(section),
        plain_key(key),
        plain_value(value),
    ensures
        ({
            let w = write_lines(lines_seq(c), header_of(section), key, entry_line(key, value));
            forall|i: int| 0 <= i < w.len() ==> no_newline(#[trigger] w[i])
        }),
{
    let h = header_of(section);
    let nl = entry_line(key, value);
    lemma_written_parts_no_newline(section, key, value);
    let ls = lines_seq(c);
    lemma_lines_no_newline(c);
    let w = write_lines(ls, h, key, nl);
    lemma_write_rec_no_newline(ls, h, key, nl, false);
    let r = write_rec(ls, h, key, nl, false);
    assert forall|i: int| 0 <= i < w.len() implies no_newline(#[trigger] w[i]) by {
        if i >= r.0.len() {
            assert(i < r.0.len() + 3);
            assert(no_newline(Seq::<char>::empty()));
        }
    }
}

/// Setting `key` in `section` and reading it back gives the value that was set, whether or not
/// the configuration text existed, held the section, or held the key before.
pub proof fn law_read_after_write(
    content: Option<Seq<char>>,
    section: Seq<char>,
    key: Seq<char>,
    value: Seq<char>,
)
    requires
        no_newline(section),
        plain_key(key),
        plain_value(value),
    ensures
        read_value_spec(write_value_spec(content, section, key, value), section, key) == Some(
            value,
        ),
{
    let h = header_of(section);
    let nl = entry_line(key, value);
    lemma_entry_line(key, value);
    lemma_header_line(section);
    lemma_written_parts_no_newline(section, key, value);
    match content {
        None => {
            let w = seq![h, nl];
            assert(join_nl(w) == join_nl(seq![h]) + seq!['\n'] + nl) by {
                assert(w.drop_last() =~= seq![h]);
            }
            assert(nl.len() > 0 && nl.last() != '\n') by {
                assert(nl[key.len() as int + 1] == '=');
            }
            let j = join_nl(w);
            assert(j.last() == nl.last());
            assert(with_final_nl(j) =~= h + seq!['\n'] + nl + seq!['\n']);
            assert(write_value_spec(content, section, key, value) == with_final_nl(j));
            lemma_read_written_lines(w, h, key);
            assert(read_lines(w, h, key, false) == Some(value)) by {
                assert(w[0] == h);
                assert(w.drop_first() =~= seq![nl]);
                assert(seq![nl][0] == nl);
                assert(seq![nl].drop_first() =~= Seq::<Seq<char>>::empty());
                assert(sets_key(trim_seq(nl), key));
                assert(read_lines(seq![nl], h, key, true) == Some(value));
                assert(trim_seq(w[0]) == h);
                assert(read_lines(w.drop_first(), h, key, true) == Some(value));
            }
        },
        Some(c) => {
            let ls = lines_seq(c);
            let w = write_lines(ls, h, key, nl);
            lemma_write_lines_no_newline(c, section, key, value);
            lemma_read_written_lines(w, h, key);
            lemma_write_lines_read(ls, section, key, value);
        },
    }
}

// ---------------------------------------------------------------------------------------------
// What a write leaves alone
// ---------------------------------------------------------------------------------------------

/// Two readers that never stand inside both sections at once still do not at the end.
proof fn lemma_end_in_sec_apart(ls: Seq<Seq<char>>, h: Seq<char>, h2: Seq<char>, a: bool, b: bool)
    requires
        h != h2,
        !(a && b),
    ensures
        !(end_in_sec(ls, h, a) && end_in_sec(ls, h2, b)),
    decreases ls.len(),
{
    if ls.len() > 0 {
        let t = trim_seq(ls[0]);
        if is_header(t) {
            lemma_end_in_sec_apart(ls.drop_first(), h, h2, t == h, t == h2);
        } else {
            lemma_end_in_sec_apart(ls.drop_first(), h, h2, a, b);
        }
    }
}

/// Rewriting the lines for one entry leaves the reads of every other entry as they were, for a
/// written line that is no header and sets no other key of the same section.
proof fn lemma_write_rec_frame(
    ls: Seq<Seq<char>>,
    h: Seq<char>,
    key: Seq<char>,
    nl: Seq<char>,
    in_w: bool,
    h2: Seq<char>,
    key2: Seq<char>,
    in_r: bool,
)
    requires
        !is_header(trim_seq(nl)),
        h == h2 ==> key != key2 && !sets_key(trim_seq(nl), key2),
        in_w && in_r ==> h == h2,
        h == h2 ==> in_w == in_r,
    ensures
        read_lines(write_rec(ls, h, key, nl, in_w).0, h2, key2, in_r) == read_lines(
            ls,
            h2,
            key2,
            in_r,
        ),
    decreases ls.len(),
{
    if ls.len() > 0 {
        let t = trim_seq(ls[0]);
        let rest = ls.drop_first();
        let out = write_rec(ls, h, key, nl, in_w).0;
        if is_header(t) && in_w {
            assert(out == seq![nl] + ls);
            assert(out[0] == nl);
            assert(out.drop_first() =~= ls);
        } else if is_header(t) {
            lemma_write_rec_frame(rest, h, key, nl, t == h, h2, key2, t == h2);
            let sub = write_rec(rest, h, key, nl, t == h);
            assert(out == seq![ls[0]] + sub.0);
            assert(out[0] == ls[0]);
            assert(out.drop_first() =~= sub.0);
        } else if in_w && sets_key(t, key) {
            assert(out == seq![nl] + rest);
            assert(out[0] == nl);
            assert(out.drop_first() =~= rest);
            assert(in_r ==> !sets_key(t, key2));
        } else {
            lemma_write_rec_frame(rest, h, key, nl, in_w, h2, key2, in_r);
            let sub = write_rec(rest, h, key, nl, in_w);
            assert(out == seq![ls[0]] + sub.0);
            assert(out[0] == ls[0]);
            assert(out.drop_first() =~= sub.0);
        }
    }
}

/// Different sections have different header lines.
proof fn lemma_header_of_injective(section: Seq<char>, section2: Seq<char>)
    ensures
        header_of(section) == header_of(section2) ==> section == section2,
{
    let h = header_of(section);
    let h2 = header_of(section2);
    assert(h.subrange(1, h.len() - 1) =~= section);
    assert(h2.subrange(1, h2.len() - 1) =~= section2);
}

/// A single line that is no header and is not read as `key` gives no value of `key`.
proof fn lemma_read_single_unset(l: Seq<char>, h: Seq<char>, key: Seq<char>, in_sec: bool)
    requires
        !is_header(trim_seq(l)),
        !(in_sec && sets_key(trim_seq(l), key)),
    ensures
        read_lines(seq![l], h, key, in_sec) is None,
{
    let ls = seq![l];
    assert(ls[0] == l);
    assert(ls.drop_first() =~= Seq::<Seq<char>>::empty());
    assert(read_lines(ls.drop_first(), h, key, in_sec) is None);
}

/// Setting one entry leaves the lines' reads of every other entry as they were.
proof fn lemma_write_lines_frame(
    ls: Seq<Seq<char>>,
    section: Seq<char>,
    key: Seq<char>,
    value: Seq<char>,
    section2: Seq<char>,
    key2: Seq<char>,
)
    requires
        plain_key(key),
        plain_value(value),
        section != section2 || key != key2,
    ensures
        read_lines(
            write_lines(ls, header_of(section), key, entry_line(key, value)),
            header_of(section2),
            key2,
            false,
        ) == read_lines(ls, header_of(section2), key2, false),
{
    let h = header_of(section);
    let h2 = header_of(section2);
    let nl = entry_line(key, value);
    lemma_entry_line(key, value);
    lemma_header_line(section);
    lemma_header_of_injective(section, section2);
    assert(sets_key(trim_seq(nl), key2) == (key == key2));
    lemma_write_rec_frame(ls, h, key, nl, false, h2, key2, false);
    lemma_write_rec(ls, h, key, value, false);
    let r = write_rec(ls, h, key, nl, false);
    let end_r = end_in_sec(ls, h2, false);
    if h != h2 {
        lemma_end_in_sec_apart(ls, h, h2, false, false);
    }
    if r.1 {
    } else if r.2 {
        lemma_read_single_unset(nl, h2, key2, end_r);
        assert(write_lines(ls, h, key, nl) =~= ls + seq![nl]);
        lemma_read_lines_append(ls, seq![nl], h2, key2, false);
    } else {
        let e = Seq::<char>::empty();
        let tail = seq![e, h, nl];
        assert(write_lines(ls, h, key, nl) =~= ls + tail);
        lemma_read_lines_append(ls, tail, h2, key2, false);
        lemma_read_single_unset(nl, h2, key2, h == h2);
        assert(read_lines(seq![h, nl], h2, key2, end_r) is None) by {
            assert(seq![h, nl][0] == h);
            assert(seq![h, nl].drop_first() =~= seq![nl]);
        }
        assert(read_lines(tail, h2, key2, end_r) is None) by {
            assert(tail[0] == e);
            assert(trim_start_seq(e) =~= e);
            assert(trim_seq(e) =~= e);
            assert(kv_of(trim_seq(e)) is None);
            assert(tail.drop_first() =~= seq![h, nl]);
        }
    }
}

/// Setting `key` in `section` leaves every other entry as it was: the same key in another
/// section and another key in the same section read as before the write.
pub proof fn law_write_keeps_other_entries(
    content: Seq<char>,
    section: Seq<char>,
    key: Seq<char>,
    value: Seq<char>,
    section2: Seq<char>,
    key2: Seq<char>,
)
    requires
        no_newline(section),
        plain_key(key),
        plain_value(value),
        section != section2 || key != key2,
    ensures
        read_value_spec(write_value_spec(Some(content), section, key, value), section2, key2)
            == read_value_spec(content, section2, key2),
{
    let ls = lines_seq(content);
    let w = write_lines(ls, header_of(section), key, entry_line(key, value));
    lemma_write_lines_no_newline(content, section, key, value);
    lemma_read_written_lines(w, header_of(section2), key2);
    lemma_write_lines_frame(ls, section, key, value, section2, key2);
}

proof fn lemma_remove_rec(ls: Seq<Seq<char>>, h: Seq<char>, key: Seq<char>, in_sec: bool)
    requires
        forall|i: int| 0 <= i < ls.len() ==> no_newline(#[trigger] ls[i]),
    ensures
        read_lines(remove_rec(ls, h, key, in_sec), h, key, in_sec) is None,
        forall|i: int|
            0 <= i < remove_rec(ls, h, key, in_sec).len() ==> no_newline(
                #[trigger] remove_rec(ls, h, key, in_sec)[i],
            ),
    decreases ls.len(),
{
    if ls.len() > 0 {
        let rest = ls.drop_first();
        assert forall|i: int| 0 <= i < rest.len() implies no_newline(#[trigger] rest[i]) by {
            assert(rest[i] == ls[i + 1]);
        }
        lemma_remove_rec(rest, h, key, true);
        lemma_remove_rec(rest, h, key, false);
        let t = trim_seq(ls[0]);
        let r = remove_rec(ls, h, key, in_sec);
        if is_header(t) || !(in_sec && sets_key(t, key)) {
            let sub = remove_rec(rest, h, key, if is_header(t) { t == h } else { in_sec });
            assert(r == seq![ls[0]] + sub);
            assert(r[0] == ls[0]);
            assert(r.drop_first() =~= sub);
            assert forall|i: int| 0 <= i < r.len() implies no_newline(#[trigger] r[i]) by {
                if i > 0 {
                    assert(r[i] == sub[i - 1]);
                }
            }
        }
    }
}

/// After `key` is removed from `section`, a read of it finds nothing.
pub proof fn law_read_after_remove(content: Seq<char>, section: Seq<char>, key: Seq<char>)
    ensures
        read_value_spec(remove_value_spec(content, section, key), section, key) is None,
{
    let h = header_of(section);
    let ls = lines_seq(content);
    lemma_lines_no_newline(content);
    lemma_remove_rec(ls, h, key, false);
    lemma_read_written_lines(remove_rec(ls, h, key, false), h, key);
}

/// Removing one entry leaves the lines' reads of every other entry as they were.
proof fn lemma_remove_rec_frame(
    ls: Seq<Seq<char>>,
    h: Seq<char>,
    key: Seq<char>,
    in_w: bool,
    h2: Seq<char>,
    key2: Seq<char>,
    in_r: bool,
)
    requires
        h == h2 ==> key != key2,
        in_w && in_r ==> h == h2,
        h == h2 ==> in_w == in_r,
    ensures
        read_lines(remove_rec(ls, h, key, in_w), h2, key2, in_r) == read_lines(ls, h2, key2, in_r),
    decreases ls.len(),
{
    if ls.len() > 0 {
        let t = trim_seq(ls[0]);
        let rest = ls.drop_first();
        let out = remove_rec(ls, h, key, in_w);
        if is_header(t) {
            lemma_remove_rec_frame(rest, h, key, t == h, h2, key2, t == h2);
            assert(out[0] == ls[0]);
            assert(out.drop_first() =~= remove_rec(rest, h, key, t == h));
        } else if in_w && sets_key(t, key) {
            lemma_remove_rec_frame(rest, h, key, in_w, h2, key2, in_r);
            assert(in_r ==> !sets_key(t, key2));
        } else {
            lemma_remove_rec_frame(rest, h, key, in_w, h2, key2, in_r);
            assert(out[0] == ls[0]);
            assert(out.drop_first() =~= remove_rec(rest, h, key, in_w));
        }
    }
}

/// Removing `key` from `section` leaves every other entry as it was: the same key in another
/// section and another key in the same section read as before the removal.
pub proof fn law_remove_keeps_other_entries(
    content: Seq<char>,
    section: Seq<char>,
    key: Seq<char>,
    section2: Seq<char>,
    key2: Seq<char>,
)
    requires
        section != section2 || key != key2,
    ensures
        read_value_spec(remove_value_spec(content, section, key), section2, key2)
            == read_value_spec(content, section2, key2),
{
    let h = header_of(section);
    let h2 = header_of(section2);
    let ls = lines_seq(content);
    lemma_header_of_injective(section, section2);
    lemma_lines_no_newline(content);
    lemma_remove_rec(ls, h, key, false);
    lemma_read_written_lines(remove_rec(ls, h, key, false), h2, key2);
    lemma_remove_rec_frame(ls, h, key, false, h2, key2, false);
}

} // verus!

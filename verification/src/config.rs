//! The project configuration: an INI-style text of `[section]` headers and `key = value` lines.
//!
//! The functions here work on the text of the configuration file; reading and writing the
//! file itself is left to the caller.
use vstd::prelude::*;
use crate::project::{join_path, path_join};
use crate::text::{
    chars_of, str_eq, concat, concat3, lemma_views_push, opt_view, push_char, string_of,
    string_of_range, trim, trim_seq, views, first_index_of, lemma_first_index_of,
};

verus! {

/// The path of the configuration file: `.codix/config` under the project root.
pub fn config_path(root: &str) -> (r: String)
    ensures
        r@ == path_join(root@, ".codix/config"@),
{
    join_path(root, ".codix/config")
}

// ---------------------------------------------------------------------------------------------
// Lines, as `str::lines` splits them
// ---------------------------------------------------------------------------------------------

/// The pieces of `s` between newline characters (always at least one piece).
pub open spec fn split_nl(s: Seq<char>) -> Seq<Seq<char>>
    decreases s.len(),
{
    if s.len() == 0 {
        seq![Seq::<char>::empty()]
    } else {
        let pre = split_nl(s.drop_last());
        if s.last() == '\n' {
            pre.push(Seq::<char>::empty())
        } else {
            pre.update(pre.len() - 1, pre.last().push(s.last()))
        }
    }
}

/// A line that was ended by a newline loses one carriage return before it.
pub open spec fn strip_cr(l: Seq<char>) -> Seq<char> {
    if l.len() > 0 && l.last() == '\r' {
        l.drop_last()
    } else {
        l
    }
}

/// The lines of `s`, as `str::lines` yields them: the pieces between newlines, a `\r` before
/// a newline removed, and no final empty piece.
pub open spec fn lines_seq(s: Seq<char>) -> Seq<Seq<char>> {
    let p = split_nl(s);
    let ended = p.drop_last().map_values(|l: Seq<char>| strip_cr(l));
    if p.last().len() == 0 {
        ended
    } else {
        ended.push(p.last())
    }
}

proof fn lemma_split_nl_nonempty(s: Seq<char>)
    ensures
        split_nl(s).len() >= 1,
    decreases s.len(),
{
    if s.len() > 0 {
        lemma_split_nl_nonempty(s.drop_last());
    }
}

/// The lines of `content`, as `str::lines` gives them.
pub fn lines_of(content: &str) -> (ls: Vec<String>)
    ensures
        views(ls@) == lines_seq(content@),
{
    let v = chars_of(content);
    let mut done: Vec<String> = Vec::new();
    let mut cur: Vec<char> = Vec::new();
    let mut i: usize = 0;
    proof {
        assert(content@.take(0) =~= Seq::<char>::empty());
    }
    while i < v.len()
        invariant
            v@ == content@,
            i <= v.len(),
            views(done@) == split_nl(content@.take(i as int)).drop_last(),
            cur@ == split_nl(content@.take(i as int)).last(),
        decreases v.len() - i,
    {
        let c = v[i];
        proof {
            lemma_split_nl_nonempty(content@.take(i as int));
            assert(content@.take(i + 1).drop_last() =~= content@.take(i as int));
            assert(content@.take(i + 1).last() == c);
        }
        if c == '\n' {
            let line = string_of(&cur);
            proof {
                lemma_views_push(done@, line);
            }
            done.push(line);
            cur = Vec::new();
            proof {
                let p = split_nl(content@.take(i as int));
                assert(split_nl(content@.take(i + 1)) == p.push(Seq::<char>::empty()));
                assert(views(done@) =~= p);
            }
        } else {
            cur.push(c);
            proof {
                let p = split_nl(content@.take(i as int));
                assert(split_nl(content@.take(i + 1)) == p.update(p.len() - 1, p.last().push(c)));
                assert(views(done@) =~= p.update(p.len() - 1, p.last().push(c)).drop_last());
            }
        }
        i = i + 1;
    }
    proof {
        assert(content@.take(v.len() as int) =~= content@);
    }
    let mut out: Vec<String> = Vec::new();
    let ghost p = split_nl(content@);
    let mut j: usize = 0;
    while j < done.len()
        invariant
            views(done@) == p.drop_last(),
            j <= done.len(),
            views(out@) == p.drop_last().take(j as int).map_values(|l: Seq<char>| strip_cr(l)),
        decreases done.len() - j,
    {
        let l = strip_cr_exec(&done[j]);
        proof {
            lemma_views_push(out@, l);
            assert(views(done@)[j as int] == done@[j as int]@);
        }
        out.push(l);
        proof {
            assert(p.drop_last().take(j + 1) =~= p.drop_last().take(j as int).push(
                p.drop_last()[j as int],
            ));
        }
        j = j + 1;
    }
    proof {
        assert(p.drop_last().take(done.len() as int) =~= p.drop_last());
    }
    proof {
        assert(views(out@) =~= p.drop_last().map_values(|l: Seq<char>| strip_cr(l)));
    }
    if cur.len() > 0 {
        let last = string_of(&cur);
        proof {
            lemma_views_push(out@, last);
        }
        out.push(last);
    }
    out
}

fn strip_cr_exec(l: &String) -> (r: String)
    ensures
        r@ == strip_cr(l@),
{
    let v = chars_of(l.as_str());
    if v.len() > 0 && v[v.len() - 1] == '\r' {
        string_of_range(&v, 0, v.len() - 1)
    } else {
        proof {
            assert(v@.subrange(0, v@.len() as int) == v@);
        }
        string_of_range(&v, 0, v.len())
    }
}


// ---------------------------------------------------------------------------------------------
// Key/value lines, headers, and the four operations on a configuration text
// ---------------------------------------------------------------------------------------------

/// The index of the first occurrence of `c` in `s`.
pub open spec fn first_index(s: Seq<char>, c: char) -> Option<int>
    decreases s.len(),
{
    if s.len() == 0 {
        None
    } else if s[0] == c {
        Some(0)
    } else {
        match first_index(s.drop_first(), c) {
            Some(i) => Some(i + 1),
            None => None,
        }
    }
}

proof fn lemma_first_index(s: Seq<char>, c: char, i: int)
    requires
        0 <= i <= s.len(),
        forall|j: int| 0 <= j < i ==> s[j] != c,
    ensures
        i < s.len() && s[i] == c ==> first_index(s, c) == Some(i),
        i == s.len() ==> first_index(s, c) is None,
    decreases i,
{
    if i > 0 {
        lemma_first_index(s.drop_first(), c, i - 1);
    }
}

/// A trimmed line read as `key = value`: not empty, not a `#` comment, and holding a `=`;
/// the key and the value are the trimmed text before and after the first `=`.
pub open spec fn kv_of(t: Seq<char>) -> Option<(Seq<char>, Seq<char>)> {
    if t.len() == 0 || t[0] == '#' {
        None
    } else {
        match first_index(t, '=') {
            Some(i) => Some((trim_seq(t.take(i)), trim_seq(t.skip(i + 1)))),
            None => None,
        }
    }
}

/// Whether a trimmed line is a section header, that is starts with `[`.
pub open spec fn is_header(t: Seq<char>) -> bool {
    t.len() > 0 && t[0] == '['
}

/// The header line of a section.
pub open spec fn header_of(section: Seq<char>) -> Seq<char> {
    seq!['['] + section + seq![']']
}

/// The line that `write_value` writes for a key.
pub open spec fn entry_line(key: Seq<char>, value: Seq<char>) -> Seq<char> {
    key + seq![' ', '=', ' '] + value
}

/// Whether a line sets `key` (inside a section).
pub open spec fn sets_key(t: Seq<char>, key: Seq<char>) -> bool {
    match kv_of(t) {
        Some(kv) => kv.0 == key,
        None => false,
    }
}

/// The value of `key` found in the lines `ls` given whether they start inside the section
/// with header `h`: the value of the first line that sets `key` inside that section.
pub open spec fn read_lines(ls: Seq<Seq<char>>, h: Seq<char>, key: Seq<char>, in_sec: bool) -> Option<
    Seq<char>,
>
    decreases ls.len(),
{
    if ls.len() == 0 {
        None
    } else {
        let t = trim_seq(ls[0]);
        if is_header(t) {
            read_lines(ls.drop_first(), h, key, t == h)
        } else if in_sec && sets_key(t, key) {
            Some(kv_of(t).unwrap().1)
        } else {
            read_lines(ls.drop_first(), h, key, in_sec)
        }
    }
}

/// Whether the lines `ls` end inside the section with header `h`.
pub open spec fn end_in_sec(ls: Seq<Seq<char>>, h: Seq<char>, in_sec: bool) -> bool
    decreases ls.len(),
{
    if ls.len() == 0 {
        in_sec
    } else {
        let t = trim_seq(ls[0]);
        end_in_sec(ls.drop_first(), h, if is_header(t) { t == h } else { in_sec })
    }
}

/// The value of `key` in `section` of the configuration text `content`.
pub open spec fn read_value_spec(content: Seq<char>, section: Seq<char>, key: Seq<char>) -> Option<
    Seq<char>,
> {
    read_lines(lines_seq(content), header_of(section), key, false)
}

/// Rewriting the lines `ls` to set `key`: the first line that sets it inside the section is
/// replaced by `nl`; if the section (first seen) ends before such a line, `nl` goes in before
/// the next header. The flags say whether a line was written, and whether `ls` ends inside the
/// section.
pub open spec fn write_rec(
    ls: Seq<Seq<char>>,
    h: Seq<char>,
    key: Seq<char>,
    nl: Seq<char>,
    in_sec: bool,
) -> (Seq<Seq<char>>, bool, bool)
    decreases ls.len(),
{
    if ls.len() == 0 {
        (Seq::empty(), false, in_sec)
    } else {
        let t = trim_seq(ls[0]);
        if is_header(t) && in_sec {
            (seq![nl] + ls, true, true)
        } else if is_header(t) {
            let r = write_rec(ls.drop_first(), h, key, nl, t == h);
            (seq![ls[0]] + r.0, r.1, r.2)
        } else if in_sec && sets_key(t, key) {
            (seq![nl] + ls.drop_first(), true, true)
        } else {
            let r = write_rec(ls.drop_first(), h, key, nl, in_sec);
            (seq![ls[0]] + r.0, r.1, r.2)
        }
    }
}

/// The lines after setting `key`: as `write_rec` gives them, with the line added at the end of
/// the file when no line was written, after a new header when the section is not the last one
/// open.
pub open spec fn write_lines(ls: Seq<Seq<char>>, h: Seq<char>, key: Seq<char>, nl: Seq<char>) -> Seq<
    Seq<char>,
> {
    let r = write_rec(ls, h, key, nl, false);
    if r.1 {
        r.0
    } else if r.2 {
        r.0.push(nl)
    } else {
        r.0.push(Seq::empty()).push(h).push(nl)
    }
}

/// The lines joined by newlines.
pub open spec fn join_nl(ls: Seq<Seq<char>>) -> Seq<char>
    decreases ls.len(),
{
    if ls.len() == 0 {
        Seq::empty()
    } else if ls.len() == 1 {
        ls[0]
    } else {
        join_nl(ls.drop_last()) + seq!['\n'] + ls.last()
    }
}

/// The text with a final newline added if it lacks one.
pub open spec fn with_final_nl(s: Seq<char>) -> Seq<char> {
    if s.len() > 0 && s.last() == '\n' {
        s
    } else {
        s.push('\n')
    }
}

/// The configuration text after setting `key` to `value` in `section`; `content` is the text
/// before, or `None` where there is no configuration file yet.
pub open spec fn write_value_spec(
    content: Option<Seq<char>>,
    section: Seq<char>,
    key: Seq<char>,
    value: Seq<char>,
) -> Seq<char> {
    let h = header_of(section);
    let nl = entry_line(key, value);
    match content {
        None => h + seq!['\n'] + nl + seq!['\n'],
        Some(c) => with_final_nl(join_nl(write_lines(lines_seq(c), h, key, nl))),
    }
}

/// The lines without those that set `key` inside the section with header `h`.
pub open spec fn remove_rec(ls: Seq<Seq<char>>, h: Seq<char>, key: Seq<char>, in_sec: bool) -> Seq<
    Seq<char>,
>
    decreases ls.len(),
{
    if ls.len() == 0 {
        Seq::empty()
    } else {
        let t = trim_seq(ls[0]);
        if is_header(t) {
            seq![ls[0]] + remove_rec(ls.drop_first(), h, key, t == h)
        } else if in_sec && sets_key(t, key) {
            remove_rec(ls.drop_first(), h, key, in_sec)
        } else {
            seq![ls[0]] + remove_rec(ls.drop_first(), h, key, in_sec)
        }
    }
}

/// The configuration text after removing `key` from `section`.
pub open spec fn remove_value_spec(content: Seq<char>, section: Seq<char>, key: Seq<char>) -> Seq<
    char,
> {
    with_final_nl(join_nl(remove_rec(lines_seq(content), header_of(section), key, false)))
}

/// All `section.key` / value pairs of the lines, in order; `cur` is the current section.
pub open spec fn read_all_rec(ls: Seq<Seq<char>>, cur: Seq<char>) -> Seq<(Seq<char>, Seq<char>)>
    decreases ls.len(),
{
    if ls.len() == 0 {
        Seq::empty()
    } else {
        let t = trim_seq(ls[0]);
        if t.len() >= 2 && t[0] == '[' && t.last() == ']' {
            read_all_rec(ls.drop_first(), t.subrange(1, t.len() - 1))
        } else {
            match kv_of(t) {
                Some(kv) => seq![(cur + "."@ + kv.0, kv.1)] + read_all_rec(ls.drop_first(), cur),
                None => read_all_rec(ls.drop_first(), cur),
            }
        }
    }
}

// ---------------------------------------------------------------------------------------------
// Executable operations
// ---------------------------------------------------------------------------------------------

/// Reads a (trimmed) line as `key = value`.
pub fn parse_kv(line: &str) -> (r: Option<(String, String)>)
    ensures
        r.deep_view() == kv_of(line@),
{
    let v = chars_of(line);
    if v.len() == 0 || v[0] == '#' {
        return None;
    }
    let mut i: usize = 0;
    while i < v.len() && v[i] != '='
        invariant
            v@ == line@,
            i <= v.len(),
            forall|j: int| 0 <= j < i ==> v@[j] != '=',
        decreases v.len() - i,
    {
        i = i + 1;
    }
    proof {
        lemma_first_index(line@, '=', i as int);
    }
    if i == v.len() {
        return None;
    }
    let k = string_of_range(&v, 0, i);
    let rest = string_of_range(&v, i + 1, v.len());
    let kt = trim(k.as_str());
    let vt = trim(rest.as_str());
    proof {
        assert(line@.take(i as int) == v@.subrange(0, i as int));
        assert(line@.skip(i + 1) == v@.subrange(i + 1, v@.len() as int));
    }
    Some((kt, vt))
}

fn is_header_exec(t: &str) -> (r: bool)
    ensures
        r == is_header(t@),
{
    let v = chars_of(t);
    v.len() > 0 && v[0] == '['
}

fn header_exec(section: &str) -> (h: String)
    ensures
        h@ == header_of(section@),
{
    proof {
        reveal_strlit("[");
        reveal_strlit("]");
    }
    concat3("[", section, "]")
}

/// The value of `key` in `section` of the configuration text `content`.
pub fn read_value(content: &str, section: &str, key: &str) -> (r: Option<String>)
    ensures
        opt_view(r) == read_value_spec(content@, section@, key@),
{
    let ls = lines_of(content);
    let h = header_exec(section);
    let mut in_section = false;
    let mut i: usize = 0;
    proof {
        assert(views(ls@).skip(0) == views(ls@));
    }
    while i < ls.len()
        invariant
            views(ls@) == lines_seq(content@),
            h@ == header_of(section@),
            i <= ls.len(),
            read_value_spec(content@, section@, key@) == read_lines(
                views(ls@).skip(i as int),
                h@,
                key@,
                in_section,
            ),
        decreases ls.len() - i,
    {
        let t = trim(ls[i].as_str());
        proof {
            let rest = views(ls@).skip(i as int);
            assert(rest[0] == ls@[i as int]@);
            assert(rest.drop_first() == views(ls@).skip(i + 1));
        }
        if is_header_exec(t.as_str()) {
            in_section = t == h;
        } else if in_section {
            match parse_kv(t.as_str()) {
                Some((k, v)) => {
                    if str_eq(k.as_str(), key) {
                        return Some(v);
                    }
                },
                None => {},
            }
        }
        i = i + 1;
    }
    None
}


/// The lines joined by newlines, with a final newline added if it lacks one.
fn join_lines(ls: &Vec<String>) -> (r: String)
    ensures
        r@ == with_final_nl(join_nl(views(ls@))),
{
    let mut s = String::new();
    let mut i: usize = 0;
    while i < ls.len()
        invariant
            i <= ls.len(),
            s@ == join_nl(views(ls@).take(i as int)),
        decreases ls.len() - i,
    {
        proof {
            let t = views(ls@).take(i + 1);
            assert(t.drop_last() == views(ls@).take(i as int));
            assert(t.last() == ls@[i as int]@);
        }
        if i > 0 {
            s.append("\n");
            proof {
                reveal_strlit("\n");
            }
        }
        s.append(ls[i].as_str());
        i = i + 1;
    }
    proof {
        assert(views(ls@).take(ls.len() as int) == views(ls@));
    }
    let v = chars_of(s.as_str());
    if v.len() > 0 && v[v.len() - 1] == '\n' {
        s
    } else {
        push_char(&mut s, '\n');
        s
    }
}

/// The configuration text after setting `key` to `value` in `section`; `content` is the text
/// before, or `None` where there is no configuration file yet.
pub fn write_value(content: Option<&str>, section: &str, key: &str, value: &str) -> (r: String)
    ensures
        r@ == write_value_spec(
            match content {
                Some(c) => Some(c@),
                None => None,
            },
            section@,
            key@,
            value@,
        ),
{
    let h = header_exec(section);
    let nl = concat3(key, " = ", value);
    proof {
        reveal_strlit(" = ");
        reveal_strlit("\n");
        assert(nl@ == entry_line(key@, value@));
    }
    let c = match content {
        None => {
            let mut out = concat(h.as_str(), "\n");
            out.append(nl.as_str());
            out.append("\n");
            return out;
        },
        Some(c) => c,
    };
    let ls = lines_of(c);
    let mut out: Vec<String> = Vec::new();
    let mut in_section = false;
    let mut replaced = false;
    let mut i: usize = 0;
    let ghost full = write_rec(views(ls@), h@, key@, nl@, false);
    proof {
        assert(views(ls@).skip(0) == views(ls@));
        assert(views(out@) + write_rec(views(ls@), h@, key@, nl@, false).0 == write_rec(
            views(ls@),
            h@,
            key@,
            nl@,
            false,
        ).0);
    }
    while i < ls.len() && !replaced
        invariant
            views(ls@) == lines_seq(c@),
            h@ == header_of(section@),
            nl@ == entry_line(key@, value@),
            i <= ls.len(),
            !replaced ==> ({
                let r = write_rec(views(ls@).skip(i as int), h@, key@, nl@, in_section);
                full == (views(out@) + r.0, r.1, r.2)
            }),
            replaced ==> full.1 && full.0 == views(out@) + views(ls@).skip(i as int),
        decreases (ls.len() - i) * 2 + if replaced {
            0int
        } else {
            1int
        },
    {
        let t = trim(ls[i].as_str());
        let ghost rest = views(ls@).skip(i as int);
        proof {
            assert(rest[0] == ls@[i as int]@);
            assert(rest.drop_first() == views(ls@).skip(i + 1));
        }
        if is_header_exec(t.as_str()) {
            if in_section {
                proof {
                    lemma_views_push(out@, nl);
                    assert(views(out@.push(nl)) + rest =~= views(out@) + (seq![nl@] + rest));
                }
                out.push(nl.clone());
                replaced = true;
            } else {
                in_section = t == h;
                let line = ls[i].clone();
                proof {
                    lemma_views_push(out@, line);
                    let r = write_rec(rest.drop_first(), h@, key@, nl@, in_section);
                    assert(views(out@.push(line)) + r.0 =~= views(out@) + (seq![rest[0]] + r.0));
                }
                out.push(line);
                i = i + 1;
            }
        } else {
            let mut matched = false;
            if in_section {
                match parse_kv(t.as_str()) {
                    Some((k, _v)) => {
                        matched = str_eq(k.as_str(), key);
                    },
                    None => {},
                }
            }
            if matched {
                proof {
                    lemma_views_push(out@, nl);
                    assert(views(out@.push(nl)) + rest.drop_first() =~= views(out@) + (seq![nl@]
                        + rest.drop_first()));
                }
                out.push(nl.clone());
                replaced = true;
                i = i + 1;
            } else {
                let line = ls[i].clone();
                proof {
                    lemma_views_push(out@, line);
                    let r = write_rec(rest.drop_first(), h@, key@, nl@, in_section);
                    assert(views(out@.push(line)) + r.0 =~= views(out@) + (seq![rest[0]] + r.0));
                }
                out.push(line);
                i = i + 1;
            }
        }
    }
    if replaced {
        while i < ls.len()
            invariant
                i <= ls.len(),
                full.1,
                full.0 == views(out@) + views(ls@).skip(i as int),
            decreases ls.len() - i,
        {
            let line = ls[i].clone();
            proof {
                lemma_views_push(out@, line);
                assert(views(ls@).skip(i as int) == seq![line@] + views(ls@).skip(i + 1));
                assert(views(out@.push(line)) + views(ls@).skip(i + 1) =~= views(out@)
                    + views(ls@).skip(i as int));
            }
            out.push(line);
            i = i + 1;
        }
        proof {
            assert(views(out@) == full.0);
        }
    } else {
        proof {
            assert(views(ls@).skip(i as int) == Seq::<Seq<char>>::empty());
            assert(views(out@) =~= full.0);
        }
        if in_section {
            proof {
                lemma_views_push(out@, nl);
            }
            out.push(nl);
        } else {
            let e = String::new();
            proof {
                lemma_views_push(out@, e);
            }
            out.push(e);
            proof {
                lemma_views_push(out@, h);
            }
            out.push(h);
            proof {
                lemma_views_push(out@, nl);
            }
            out.push(nl);
        }
    }
    join_lines(&out)
}

/// The configuration text after removing `key` from `section`.
pub fn remove_value(content: &str, section: &str, key: &str) -> (r: String)
    ensures
        r@ == remove_value_spec(content@, section@, key@),
{
    let ls = lines_of(content);
    let h = header_exec(section);
    let mut out: Vec<String> = Vec::new();
    let mut in_section = false;
    let mut i: usize = 0;
    let ghost full = remove_rec(views(ls@), h@, key@, false);
    proof {
        assert(views(ls@).skip(0) == views(ls@));
        assert(views(out@) + full =~= full);
    }
    while i < ls.len()
        invariant
            views(ls@) == lines_seq(content@),
            h@ == header_of(section@),
            i <= ls.len(),
            full == views(out@) + remove_rec(views(ls@).skip(i as int), h@, key@, in_section),
        decreases ls.len() - i,
    {
        let t = trim(ls[i].as_str());
        let ghost rest = views(ls@).skip(i as int);
        proof {
            assert(rest[0] == ls@[i as int]@);
            assert(rest.drop_first() == views(ls@).skip(i + 1));
        }
        let mut keep = true;
        if is_header_exec(t.as_str()) {
            in_section = t == h;
        } else if in_section {
            match parse_kv(t.as_str()) {
                Some((k, _v)) => {
                    keep = !str_eq(k.as_str(), key);
                },
                None => {},
            }
        }
        if keep {
            let line = ls[i].clone();
            proof {
                lemma_views_push(out@, line);
                let r = remove_rec(rest.drop_first(), h@, key@, in_section);
                assert(views(out@.push(line)) + r =~= views(out@) + (seq![rest[0]] + r));
            }
            out.push(line);
        }
        i = i + 1;
    }
    proof {
        assert(views(ls@).skip(i as int) == Seq::<Seq<char>>::empty());
        assert(views(out@) =~= full);
    }
    join_lines(&out)
}

/// The character sequences of a sequence of string pairs.
pub open spec fn pair_views(v: Seq<(String, String)>) -> Seq<(Seq<char>, Seq<char>)> {
    v.map_values(|p: (String, String)| (p.0@, p.1@))
}

/// All `section.key` / value pairs of the configuration text, in order.
pub fn read_all(content: &str) -> (r: Vec<(String, String)>)
    ensures
        pair_views(r@) == read_all_rec(lines_seq(content@), Seq::empty()),
{
    let ls = lines_of(content);
    let mut out: Vec<(String, String)> = Vec::new();
    let mut cur = String::new();
    let mut i: usize = 0;
    let ghost full = read_all_rec(views(ls@), Seq::empty());
    proof {
        assert(views(ls@).skip(0) == views(ls@));
        assert(pair_views(out@) + full =~= full);
    }
    while i < ls.len()
        invariant
            views(ls@) == lines_seq(content@),
            i <= ls.len(),
            full == pair_views(out@) + read_all_rec(views(ls@).skip(i as int), cur@),
        decreases ls.len() - i,
    {
        let t = trim(ls[i].as_str());
        let ghost rest = views(ls@).skip(i as int);
        proof {
            assert(rest[0] == ls@[i as int]@);
            assert(rest.drop_first() == views(ls@).skip(i + 1));
        }
        let tv = chars_of(t.as_str());
        if tv.len() >= 2 && tv[0] == '[' && tv[tv.len() - 1] == ']' {
            cur = string_of_range(&tv, 1, tv.len() - 1);
        } else {
            match parse_kv(t.as_str()) {
                Some((k, v)) => {
                    let full_key = concat3(cur.as_str(), ".", k.as_str());
                    let pair = (full_key, v);
                    proof {
                        let r = read_all_rec(rest.drop_first(), cur@);
                        assert(pair_views(out@.push(pair)) =~= pair_views(out@).push(
                            (pair.0@, pair.1@),
                        ));
                        assert(pair_views(out@.push(pair)) + r =~= pair_views(out@) + (seq![
                            (pair.0@, pair.1@),
                        ] + r));
                    }
                    out.push(pair);
                },
                None => {},
            }
        }
        i = i + 1;
    }
    proof {
        assert(views(ls@).skip(i as int) == Seq::<Seq<char>>::empty());
        assert(pair_views(out@) =~= full);
    }
    out
}

/// The pieces of `s` between commas.
pub open spec fn split_comma(s: Seq<char>) -> Seq<Seq<char>>
    decreases s.len(),
{
    if s.len() == 0 {
        seq![Seq::<char>::empty()]
    } else {
        let pre = split_comma(s.drop_last());
        if s.last() == ',' {
            pre.push(Seq::<char>::empty())
        } else {
            pre.update(pre.len() - 1, pre.last().push(s.last()))
        }
    }
}

/// The languages listed in a comma-separated value: each piece trimmed, empty pieces left
/// out.
pub open spec fn language_list(v: Seq<char>) -> Seq<Seq<char>> {
    split_comma(v).map_values(|p: Seq<char>| trim_seq(p)).filter(|p: Seq<char>| p.len() > 0)
}

proof fn lemma_split_comma_nonempty(s: Seq<char>)
    ensures
        split_comma(s).len() >= 1,
    decreases s.len(),
{
    if s.len() > 0 {
        lemma_split_comma_nonempty(s.drop_last());
    }
}

/// The languages that the configuration text selects for indexing (`index.languages`):
/// `None` when the key is missing or lists no language.
pub fn configured_languages(content: Option<&str>) -> (r: Option<Vec<String>>)
    ensures
        ({
            let value = match content {
                Some(c) => read_value_spec(c@, "index"@, "languages"@),
                None => None,
            };
            match value {
                None => r is None,
                Some(v) => if language_list(v).len() == 0 {
                    r is None
                } else {
                    r matches Some(ls) && views(ls@) == language_list(v)
                },
            }
        }),
{
    let c = match content {
        Some(c) => c,
        None => return None,
    };
    let val = match read_value(c, "index", "languages") {
        Some(v) => v,
        None => return None,
    };
    let v = chars_of(val.as_str());
    // Split into pieces by commas.
    let mut pieces: Vec<String> = Vec::new();
    let mut cur: Vec<char> = Vec::new();
    let mut i: usize = 0;
    proof {
        assert(val@.take(0) =~= Seq::<char>::empty());
    }
    while i < v.len()
        invariant
            v@ == val@,
            i <= v.len(),
            views(pieces@) == split_comma(val@.take(i as int)).drop_last(),
            cur@ == split_comma(val@.take(i as int)).last(),
        decreases v.len() - i,
    {
        let ch = v[i];
        proof {
            lemma_split_comma_nonempty(val@.take(i as int));
            assert(val@.take(i + 1).drop_last() =~= val@.take(i as int));
            assert(val@.take(i + 1).last() == ch);
        }
        if ch == ',' {
            let piece = string_of(&cur);
            proof {
                lemma_views_push(pieces@, piece);
            }
            pieces.push(piece);
            cur = Vec::new();
            proof {
                let p = split_comma(val@.take(i as int));
                assert(views(pieces@) =~= p);
            }
        } else {
            cur.push(ch);
            proof {
                let p = split_comma(val@.take(i as int));
                assert(views(pieces@) =~= p.update(p.len() - 1, p.last().push(ch)).drop_last());
            }
        }
        i = i + 1;
    }
    let last = string_of(&cur);
    proof {
        assert(val@.take(v.len() as int) =~= val@);
        lemma_split_comma_nonempty(val@);
        lemma_views_push(pieces@, last);
        assert(views(pieces@.push(last)) =~= split_comma(val@));
    }
    pieces.push(last);
    // Trim each piece and keep the non-empty ones.
    let ghost trimmed = split_comma(val@).map_values(|p: Seq<char>| trim_seq(p));
    let mut langs: Vec<String> = Vec::new();
    let mut j: usize = 0;
    while j < pieces.len()
        invariant
            views(pieces@) == split_comma(val@),
            trimmed == split_comma(val@).map_values(|p: Seq<char>| trim_seq(p)),
            j <= pieces.len(),
            views(langs@) == trimmed.take(j as int).filter(|p: Seq<char>| p.len() > 0),
        decreases pieces.len() - j,
    {
        let t = trim(pieces[j].as_str());
        let tv = chars_of(t.as_str());
        proof {
            assert(trimmed.take(j + 1).drop_last() =~= trimmed.take(j as int));
            assert(trimmed.take(j + 1).last() == t@);
            reveal_with_fuel(Seq::filter, 1);
        }
        if tv.len() > 0 {
            proof {
                lemma_views_push(langs@, t);
            }
            langs.push(t);
        }
        j = j + 1;
    }
    proof {
        assert(trimmed.take(pieces.len() as int) =~= trimmed);
    }
    if langs.len() == 0 {
        None
    } else {
        Some(langs)
    }
}

/// A configuration key written `section.key`: the section before the first `.`, the key after
/// it; `None` without a `.`.
pub fn split_config_key(name: &str) -> (r: Option<(String, String)>)
    ensures
        match first_index_of(name@, '.') {
            Some(i) => r matches Some(p) && p.0@ == name@.take(i) && p.1@ == name@.skip(i + 1),
            None => r is None,
        },
{
    let v = chars_of(name);
    let mut i: usize = 0;
    while i < v.len() && v[i] != '.'
        invariant
            v@ == name@,
            i <= v.len(),
            forall|j: int| 0 <= j < i ==> v@[j] != '.',
        decreases v.len() - i,
    {
        i = i + 1;
    }
    proof {
        lemma_first_index_of(name@, '.', i as int);
    }
    if i == v.len() {
        None
    } else {
        Some((string_of_range(&v, 0, i), string_of_range(&v, i + 1, v.len())))
    }
}

} // verus!

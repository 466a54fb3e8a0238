//! The command line: the commands, their options, and what the command-line tool prints.
use vstd::prelude::*;
use crate::model::{known_kind, ExtractionResult, Symbol, SymbolKind};
use crate::plugin::result_wf;
use crate::text::{
    concat, decimal, i64_to_decimal, lemma_replace_char_first, replace_all_char, replace_char, str_eq,
    trim_end_seq,
};

verus! {

/// The parsed command line.
pub struct Cli {
    /// Show diagnostic info (files reindexed, timing).
    pub verbose: bool,
    pub command: Commands,
}

/// How results are printed.
#[derive(Clone, Copy, PartialEq, Eq, Debug, Structural)]
pub enum Format {
    Text,
    Json,
}

/// The commands of the tool.
pub enum Commands {
    /// Initialize a codix project and index all source files.
    Init,
    /// Full reindex: drop all data and rebuild from scratch.
    Index,
    /// Find symbol definitions matching a pattern.
    Find { pattern: String, format: Format, case_insensitive: bool, kind: Option<String> },
    /// Find symbols that reference a given symbol.
    Refs { pattern: String, format: Format, case_insensitive: bool, kind: Option<String> },
    /// Find implementations of an interface or subclasses of a class.
    Impls { pattern: String, format: Format, case_insensitive: bool, kind: Option<String> },
    /// Find supertypes of a class or interface.
    Supers { pattern: String, format: Format, case_insensitive: bool, kind: Option<String> },
    /// Find methods that call a given method.
    Callers { pattern: String, format: Format, case_insensitive: bool, kind: Option<String> },
    /// Find methods called by a given method.
    Callees { pattern: String, format: Format, case_insensitive: bool, kind: Option<String> },
    /// List symbols defined in a file.
    Symbols { file: String, format: Format, kind: Option<String> },
    /// Show index statistics.
    Status,
    /// List symbols in a package.
    Package { pattern: String, format: Format, case_insensitive: bool, kind: Option<String> },
    /// Get, set or remove configuration values (`section.key`), or list them all.
    Config { key: Option<String>, value: Option<String>, unset: bool },
    /// Rename a symbol across the code base: a dry run unless `apply` is set.
    Rename {
        pattern: String,
        new_name: String,
        apply: bool,
        format: Format,
        case_insensitive: bool,
        kind: Option<String>,
    },
}

/// The relational queries, each answered about one symbol.
#[derive(Clone, Copy, PartialEq, Eq, Debug, Structural)]
pub enum Relation {
    Refs,
    Impls,
    Supers,
    Callers,
    Callees,
}

/// The command name of a relational query.
pub open spec fn relation_name(r: Relation) -> Seq<char> {
    match r {
        Relation::Refs => "refs"@,
        Relation::Impls => "impls"@,
        Relation::Supers => "supers"@,
        Relation::Callers => "callers"@,
        Relation::Callees => "callees"@,
    }
}

impl Relation {
    /// The command name of the query.
    pub fn name(&self) -> (r: &'static str)
        ensures
            r@ == relation_name(*self),
    {
        match self {
            Relation::Refs => "refs",
            Relation::Impls => "impls",
            Relation::Supers => "supers",
            Relation::Callers => "callers",
            Relation::Callees => "callees",
        }
    }
}

/// The message for an unknown kind. It names the kinds of the Java plugin; the kinds of the
/// other plugins are accepted as well.
pub open spec fn unknown_kind_message(k: Seq<char>) -> Seq<char> {
    "Unknown symbol kind: '"@ + k + "'. Valid kinds: class, interface, enum, record, annotation, method, field, constructor"@
}

/// The kind a `--kind` option names: none without the option, an error for an unknown kind.
pub fn parse_kind(kind: Option<String>) -> (r: Result<Option<SymbolKind>, String>)
    ensures
        match kind {
            None => r matches Ok(None),
            Some(k) => if known_kind(k@) {
                r matches Ok(Some(sk)) && sk.0@ == k@
            } else {
                r matches Err(msg) && msg@ == unknown_kind_message(k@)
            },
        },
{
    match kind {
        None => Ok(None),
        Some(k) => {
            let s = k.as_str();
            if str_eq(s, "class") || str_eq(s, "interface") || str_eq(s, "enum") || str_eq(s, "record")
                || str_eq(s, "annotation") || str_eq(s, "method") || str_eq(s, "field") || str_eq(
                s,
                "constructor",
            ) || str_eq(s, "function") || str_eq(s, "struct") || str_eq(s, "trait") || str_eq(
                s,
                "variant",
            ) || str_eq(s, "type-alias") {
                Ok(Some(SymbolKind::new(s)))
            } else {
                let head = concat("Unknown symbol kind: '", s);
                Err(
                    concat(
                        head.as_str(),
                        "'. Valid kinds: class, interface, enum, record, annotation, method, field, constructor",
                    ),
                )
            }
        },
    }
}

/// Every symbol that a plugin extracts is of a kind that the `--kind` option accepts, so a
/// search can always be narrowed to it.
pub proof fn law_extracted_kinds_are_accepted(r: ExtractionResult, k: int)
    requires
        result_wf(r),
        0 <= k < r.symbols@.len(),
    ensures
        known_kind(r.symbols@[k].kind.0@),
{
    assert(r.symbols@[k].local_id == k);
}

/// What a symbol is listed as: its signature, or its name without one.
pub open spec fn label_of(s: Symbol) -> Seq<char> {
    match s.signature {
        Some(sig) => sig@,
        None => s.name@,
    }
}

/// The line that lists a symbol: `path:line  visibility kind label`.
pub open spec fn symbol_line_text(path: Seq<char>, s: Symbol) -> Seq<char> {
    path + ":"@ + decimal(s.line as int) + "  "@ + s.visibility.0@ + " "@ + s.kind.0@ + " "@
        + label_of(s)
}

fn label(s: &Symbol) -> (r: String)
    ensures
        r@ == label_of(*s),
{
    match &s.signature {
        Some(sig) => sig.clone(),
        None => s.name.clone(),
    }
}

/// The line that lists a symbol, with its path as displayed.
pub fn symbol_line(display_path: &str, s: &Symbol) -> (r: String)
    ensures
        r@ == symbol_line_text(display_path@, *s),
{
    let mut r = concat(display_path, ":");
    let line = i64_to_decimal(s.line);
    r.append(line.as_str());
    r.append("  ");
    r.append(s.visibility.as_str());
    r.append(" ");
    r.append(s.kind.as_str());
    r.append(" ");
    let l = label(s);
    r.append(l.as_str());
    r
}

/// A text quoted for a POSIX shell inside single quotes: each `'` becomes `'\''`.
pub open spec fn shell_escaped(s: Seq<char>) -> Seq<char> {
    replace_char(s, '\'', "'\\''"@)
}

/// Escapes a text for use inside single quotes in a shell command.
pub fn shell_escape(s: &str) -> (r: String)
    ensures
        r@ == shell_escaped(s@),
{
    replace_all_char(s, '\'', "'\\''")
}

/// `c` put before the text, where there is one.
pub open spec fn prepend_char(c: char, o: Option<Seq<char>>) -> Option<Seq<char>> {
    match o {
        Some(t) => Some(seq![c] + t),
        None => None,
    }
}

/// The text that a POSIX shell reads from a word of single-quoted parts and backslash escapes,
/// read from `w` (inside single quotes when `quoted`): `None` where a quote is left open or a
/// backslash ends the word. Other characters outside quotes stand for themselves.
pub open spec fn shell_unquote(w: Seq<char>, quoted: bool) -> Option<Seq<char>>
    decreases w.len(),
{
    if w.len() == 0 {
        if quoted {
            None
        } else {
            Some(Seq::empty())
        }
    } else if quoted {
        if w[0] == '\'' {
            shell_unquote(w.drop_first(), false)
        } else {
            prepend_char(w[0], shell_unquote(w.drop_first(), true))
        }
    } else if w[0] == '\'' {
        shell_unquote(w.drop_first(), true)
    } else if w[0] == '\\' {
        if w.len() < 2 {
            None
        } else {
            prepend_char(w[1], shell_unquote(w.skip(2), false))
        }
    } else {
        prepend_char(w[0], shell_unquote(w.drop_first(), false))
    }
}

proof fn lemma_shell_unquote_escaped(s: Seq<char>, t: Seq<char>)
    ensures
        shell_unquote(shell_escaped(s) + t, true) == match shell_unquote(t, true) {
            Some(u) => Some(s + u),
            None => None,
        },
    decreases s.len(),
{
    reveal_strlit("'\\''");
    if s.len() == 0 {
        assert(shell_escaped(s) =~= Seq::<char>::empty());
        assert(shell_escaped(s) + t =~= t);
        match shell_unquote(t, true) {
            Some(u) => assert(s + u =~= u),
            None => {},
        }
    } else {
        lemma_replace_char_first(s, '\'', "'\\''"@);
        let rest = s.drop_first();
        lemma_shell_unquote_escaped(rest, t);
        let w = shell_escaped(s) + t;
        let inner = shell_escaped(rest) + t;
        if s[0] == '\'' {
            assert(w =~= "'\\''"@ + inner);
            assert(w.drop_first() =~= seq!['\\', '\'', '\''] + inner);
            assert(w.drop_first().skip(2) =~= seq!['\''] + inner);
            assert((seq!['\''] + inner).drop_first() =~= inner);
            assert(shell_unquote(w, true) == shell_unquote(w.drop_first(), false));
            assert(shell_unquote(w.drop_first(), false) == prepend_char(
                '\'',
                shell_unquote(w.drop_first().skip(2), false),
            ));
            assert(shell_unquote(seq!['\''] + inner, false) == shell_unquote(inner, true));
        } else {
            assert(w =~= seq![s[0]] + inner);
            assert(w.drop_first() =~= inner);
            assert(shell_unquote(w, true) == prepend_char(s[0], shell_unquote(inner, true)));
        }
        match shell_unquote(t, true) {
            Some(u) => assert(seq![s[0]] + (rest + u) =~= s + u),
            None => {},
        }
    }
}

/// A text quoted by `shell_escape` between single quotes reads back, in a POSIX shell, as
/// the text itself: the commands that the tool suggests can be pasted as they are.
pub proof fn law_shell_escape_round_trip(s: Seq<char>)
    ensures
        shell_unquote("'"@ + shell_escaped(s) + "'"@, false) == Some(s),
{
    reveal_strlit("'");
    let w = "'"@ + shell_escaped(s) + "'"@;
    assert(w.drop_first() =~= shell_escaped(s) + "'"@);
    lemma_shell_unquote_escaped(s, "'"@);
    assert(shell_unquote(w, false) == shell_unquote(w.drop_first(), true));
    assert("'"@.drop_first() =~= Seq::<char>::empty());
    assert(shell_unquote("'"@, true) == shell_unquote(Seq::<char>::empty(), false));
    assert(s + Seq::<char>::empty() =~= s);
}

/// The options that narrow a query as written on a command line: ` -i`, ` -k 'kind'` and
/// ` -f json` where they were given.
pub open spec fn query_flags(case_insensitive: bool, kind: Option<Seq<char>>, format: Format) -> Seq<char> {
    (if case_insensitive { " -i"@ } else { Seq::empty() }) + (match kind {
        Some(k) => " -k '"@ + shell_escaped(k) + "'"@,
        None => Seq::empty(),
    }) + (match format {
        Format::Json => " -f json"@,
        Format::Text => Seq::empty(),
    })
}

/// The options of a query, as written on a command line.
pub fn flags_text(case_insensitive: bool, kind: &Option<String>, format: Format) -> (r: String)
    ensures
        r@ == query_flags(case_insensitive, match kind {
            Some(k) => Some(k@),
            None => None,
        }, format),
{
    let mut flags = String::new();
    if case_insensitive {
        flags.append(" -i");
    }
    let ghost a = flags@;
    match kind {
        Some(k) => {
            let e = shell_escape(k.as_str());
            flags.append(" -k '");
            flags.append(e.as_str());
            flags.append("'");
        },
        None => {},
    }
    match format {
        Format::Json => flags.append(" -f json"),
        Format::Text => {},
    }
    proof {
        let ks = match kind {
            Some(k) => " -k '"@ + shell_escaped(k@) + "'"@,
            None => Seq::<char>::empty(),
        };
        let fs = match format {
            Format::Json => " -f json"@,
            Format::Text => Seq::<char>::empty(),
        };
        assert(flags@ =~= a + ks + fs);
    }
    flags
}

/// One entry of the message for an ambiguous pattern: the symbol's line, then the command
/// that would select it by its qualified name.
pub open spec fn ambiguity_entry_text(path: Seq<char>, s: Symbol, command: Seq<char>, flags: Seq<char>) -> Seq<char> {
    "  "@ + symbol_line_text(path, s) + "\n  → codix "@ + command + " '"@ + shell_escaped(s.qualified_name@)
        + "'"@ + flags + "\n"@
}

/// One entry of the message for an ambiguous pattern.
pub fn ambiguity_entry(display_path: &str, s: &Symbol, command: &str, flags: &str) -> (r: String)
    ensures
        r@ == ambiguity_entry_text(display_path@, *s, command@, flags@),
{
    let line = symbol_line(display_path, s);
    let q = shell_escape(s.qualified_name.as_str());
    let mut r = concat("  ", line.as_str());
    r.append("\n  → codix ");
    r.append(command);
    r.append(" '");
    r.append(q.as_str());
    r.append("'");
    r.append(flags);
    r.append("\n");
    r
}

/// The message for a pattern that several symbols match: a head line, then the entries,
/// without trailing white space.
pub open spec fn ambiguity_message_text(pattern: Seq<char>, entries: Seq<Seq<char>>) -> Seq<char> {
    trim_end_seq("Multiple symbols match '"@ + pattern + "'. Be more specific:\n"@ + concat_all(entries))
}

/// The texts one after another.
pub open spec fn concat_all(parts: Seq<Seq<char>>) -> Seq<char>
    decreases parts.len(),
{
    if parts.len() == 0 {
        Seq::empty()
    } else {
        concat_all(parts.drop_last()) + parts.last()
    }
}

/// The message for a pattern that several symbols match.
pub fn ambiguity_message(pattern: &str, entries: &Vec<String>) -> (r: String)
    ensures
        r@ == ambiguity_message_text(pattern@, crate::text::views(entries@)),
{
    let mut msg = concat("Multiple symbols match '", pattern);
    msg.append("'. Be more specific:\n");
    let ghost head = msg@;
    let mut i: usize = 0;
    while i < entries.len()
        invariant
            i <= entries.len(),
            msg@ == head + concat_all(crate::text::views(entries@).take(i as int)),
        decreases entries.len() - i,
    {
        proof {
            let t = crate::text::views(entries@).take(i + 1);
            assert(t.drop_last() =~= crate::text::views(entries@).take(i as int));
            assert(t.last() == entries@[i as int]@);
        }
        msg.append(entries[i].as_str());
        i = i + 1;
    }
    proof {
        assert(crate::text::views(entries@).take(entries.len() as int) =~= crate::text::views(entries@));
    }
    crate::text::trim_end(msg.as_str())
}

/// The message for a pattern that no symbol matches.
pub fn no_match_message(pattern: &str) -> (r: String)
    ensures
        r@ == "No symbol found matching '"@ + pattern@ + "'"@,
{
    let head = concat("No symbol found matching '", pattern);
    concat(head.as_str(), "'")
}

/// The choice among the `count` symbols that a pattern matched: the only one, or the message
/// that refuses none or several, listing the matches by `entries`.
pub fn select_match(count: usize, pattern: &str, entries: &Vec<String>) -> (r: Result<(), String>)
    ensures
        count == 0 ==> (r matches Err(m) && m@ == "No symbol found matching '"@ + pattern@ + "'"@),
        count > 1 ==> (r matches Err(m) && m@ == ambiguity_message_text(pattern@, crate::text::views(entries@))),
        count == 1 ==> r is Ok,
{
    if count == 0 {
        Err(no_match_message(pattern))
    } else if count > 1 {
        Err(ambiguity_message(pattern, entries))
    } else {
        Ok(())
    }
}

} // verus!

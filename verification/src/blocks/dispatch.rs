//! Reaction statements: `dispatch`, `set`, value specs, `for_each:` sweeps,
//! and the process-manager block that holds them.

use vstd::prelude::*;
use crate::text::{Stop, append, chars_of, contains_seq, contains_str, eq_str, find_char, find_char_exec, find_char_from, find_char_from_exec, find_seq, find_str, indent_exec, indent_of, lines_of, opt_string, rfind_char, rfind_char_exec, slice, split_char, split_char_exec, split_seq, split_seq_exec, starts_with, starts_with_str, string_of, strip_both, strip_both_exec, strip_lead, strip_lead_exec, strip_tail, strip_tail_exec, strs_view, tail, take_until, take_until_exec, trim, trim_exec, trim_start, trim_start_exec, views};
use crate::ir::{DispatchSpec, DispatchSpecModel, ForEachSpec, ForEachSpecModel, ProcessManager, ProcessManagerHandler, ProcessManagerHandlerModel, ProcessManagerModel, ValueSpec, ValueSpecModel, group_views, opt_view, seq_view};
use crate::helpers::{ends_with_do_block_chars, extract_string_chars, extract_symbol_chars, opens_do_block, or_default, string_literal, symbol_of};
use crate::blocks::attribute::{top_level_commas, split_top_level_commas_chars};

verus! {

broadcast use crate::ir::group_views;

proof fn lemma_keyword_lens()
    ensures
        "for_each:"@.len() == 9,
        "from:"@.len() == 5,
        "where:"@.len() == 6,
        "with:"@.len() == 5,
        "transition:"@.len() == 11,
        "default:"@.len() == 8,
        "from_event"@.len() == 10,
        "from_pm"@.len() == 7,
        "from_iter"@.len() == 9,
        "::"@.len() == 2,
        "=>"@.len() == 2,
        "set "@.len() == 4,
        "set\t"@.len() == 4,
        "set "@[0] == 's' && "set "@[1] == 'e' && "set "@[2] == 't',
        "set\t"@[0] == 's' && "set\t"@[1] == 'e' && "set\t"@[2] == 't',
{
    reveal_strlit("for_each:");
    reveal_strlit("from:");
    reveal_strlit("where:");
    reveal_strlit("with:");
    reveal_strlit("transition:");
    reveal_strlit("default:");
    reveal_strlit("from_event");
    reveal_strlit("from_pm");
    reveal_strlit("from_iter");
    reveal_strlit("::");
    reveal_strlit("=>");
    reveal_strlit("set ");
    reveal_strlit("set\t");
}

// ---------------------------------------------------------------------
// Statement starts and bracket counting
// ---------------------------------------------------------------------

/// Whether a trimmed line opens a `dispatch` statement.
pub open spec fn dispatch_start(t: Seq<char>) -> bool {
    starts_with(t, "dispatch "@) || starts_with(t, "dispatch\t"@) || starts_with(t, "dispatch\""@)
}

/// Whether a trimmed line opens a `set :attr, value` statement (and not an
/// identifier that merely begins with `set`).
pub open spec fn set_start(t: Seq<char>) -> bool {
    starts_with(t, "set "@) || starts_with(t, "set\t"@)
}

pub fn is_dispatch_start_chars(t: &Vec<char>) -> (r: bool)
    ensures
        r == dispatch_start(t@),
{
    starts_with_str(t, "dispatch ") || starts_with_str(t, "dispatch\t") || starts_with_str(t, "dispatch\"")
}

pub fn is_set_start_chars(t: &Vec<char>) -> (r: bool)
    ensures
        r == set_start(t@),
{
    starts_with_str(t, "set ") || starts_with_str(t, "set\t")
}

/// True when `trimmed` starts a `dispatch` statement.
pub fn is_dispatch_start(trimmed: &str) -> (r: bool)
    ensures
        r == dispatch_start(trimmed@),
{
    let t = chars_of(trimmed);
    is_dispatch_start_chars(&t)
}

/// True when `trimmed` starts a `set` statement: `set` followed by a space
/// or a tab, so `set_inventory` and `settings` are not statements.
pub fn is_set_start(trimmed: &str) -> (r: bool)
    ensures
        r == set_start(trimmed@),
{
    let t = chars_of(trimmed);
    is_set_start_chars(&t)
}

/// Opening minus closing occurrences of a bracket pair in `s`.
pub open spec fn net_count(s: Seq<char>, open: char, close: char) -> int
    decreases s.len(),
{
    if s.len() == 0 {
        0
    } else {
        net_count(s.drop_last(), open, close) + if s.last() == open {
            1int
        } else if s.last() == close {
            -1int
        } else {
            0int
        }
    }
}

/// Every `(`/`)` and `{`/`}` pair in `s` is matched in number (quotes are
/// not respected).
pub open spec fn balanced(s: Seq<char>) -> bool {
    net_count(s, '(', ')') == 0 && net_count(s, '{', '}') == 0
}

pub fn is_balanced_chars(s: &Vec<char>) -> (r: bool)
    ensures
        r == balanced(s@),
{
    let mut paren: i128 = 0;
    let mut brace: i128 = 0;
    let mut i: usize = 0;
    while i < s.len()
        invariant
            i <= s.len(),
            paren == net_count(s@.take(i as int), '(', ')'),
            brace == net_count(s@.take(i as int), '{', '}'),
            -(i as int) <= paren <= i as int,
            -(i as int) <= brace <= i as int,
        decreases s.len() - i,
    {
        let c = s[i];
        assert(s@.take(i + 1).drop_last() =~= s@.take(i as int));
        if c == '(' {
            paren = paren + 1;
        } else if c == ')' {
            paren = paren - 1;
        } else if c == '{' {
            brace = brace + 1;
        } else if c == '}' {
            brace = brace - 1;
        }
        i = i + 1;
    }
    assert(s@.take(s.len() as int) =~= s@);
    paren == 0 && brace == 0
}

/// The index of the `}` that closes the `{` depth reached before `i`.
pub open spec fn close_brace_from(s: Seq<char>, i: int, depth: int) -> Option<int>
    decreases s.len() - i,
{
    if i < 0 || i >= s.len() {
        None
    } else if s[i] == '{' {
        close_brace_from(s, i + 1, depth + 1)
    } else if s[i] == '}' {
        if depth - 1 == 0 {
            Some(i)
        } else {
            close_brace_from(s, i + 1, depth - 1)
        }
    } else {
        close_brace_from(s, i + 1, depth)
    }
}

/// For `s` starting at `{`: the index of its matching `}` (quotes are not
/// respected).
pub open spec fn close_brace(s: Seq<char>) -> Option<int> {
    close_brace_from(s, 0, 0)
}

pub proof fn lemma_close_brace_from(s: Seq<char>, i: int, depth: int)
    requires
        0 <= i,
    ensures
        close_brace_from(s, i, depth) matches Some(k) ==> i <= k < s.len() && s[k] == '}',
    decreases s.len() - i,
{
    if i < s.len() {
        if s[i] == '{' {
            lemma_close_brace_from(s, i + 1, depth + 1);
        } else if s[i] == '}' {
            if depth - 1 != 0 {
                lemma_close_brace_from(s, i + 1, depth - 1);
            }
        } else {
            lemma_close_brace_from(s, i + 1, depth);
        }
    }
}

pub fn match_close_brace_chars(s: &Vec<char>) -> (r: Option<usize>)
    ensures
        r matches Some(k) ==> k < s.len() && s@[k as int] == '}',
        opt_int(r) == close_brace(s@),
{
    proof { lemma_close_brace_from(s@, 0, 0); }
    let mut depth: i128 = 0;
    let mut i: usize = 0;
    while i < s.len()
        invariant
            i <= s.len(),
            -(i as int) <= depth <= i as int,
            close_brace_from(s@, i as int, depth as int) == close_brace(s@),
        decreases s.len() - i,
    {
        let c = s[i];
        if c == '{' {
            depth = depth + 1;
        } else if c == '}' {
            depth = depth - 1;
            if depth == 0 {
                return Some(i);
            }
        }
        i = i + 1;
    }
    None
}

/// An optional index as an integer.
pub open spec fn opt_int(r: Option<usize>) -> Option<int> {
    match r {
        Some(k) => Some(k as int),
        None => None,
    }
}

/// The trimmed text between the first `{` of `after` and its matching `}`.
pub open spec fn braced(after: Seq<char>) -> Option<Seq<char>> {
    match find_char(after, '{') {
        None => None,
        Some(o) => match close_brace(after.subrange(o, after.len() as int)) {
            None => None,
            Some(k) => Some(trim(after.subrange(o + 1, o + k))),
        },
    }
}

fn braced_exec(after: &Vec<char>) -> (r: Option<Vec<char>>)
    ensures
        opt_view(r) == braced(after@),
{
    match find_char_exec(after, '{') {
        None => None,
        Some(o) => {
            let rest = tail(after, o);
            proof { lemma_close_brace_from(rest@, 1, 1); }
            match match_close_brace_chars(&rest) {
                None => None,
                Some(k) => {
                    assert(close_brace(rest@) == close_brace_from(rest@, 1, 1));
                    let body = slice(after, o + 1, o + k);
                    Some(trim_exec(&body))
                },
            }
        },
    }
}


// ---------------------------------------------------------------------
// Value specs
// ---------------------------------------------------------------------

/// Folds the `default: ...` parts of a sentinel's argument list; the last
/// one read wins.
pub open spec fn sentinel_default(parts: Seq<Seq<char>>, i: int, acc: Option<Seq<char>>) -> Option<Seq<char>>
    decreases parts.len() - i,
{
    if i < 0 || i >= parts.len() {
        acc
    } else {
        let r = trim(parts[i]);
        let next = if starts_with(r, "default:"@) {
            let v = trim(r.subrange(8, r.len() as int));
            if v.len() > 0 && (v[0] == '"' || v[0] == '\'') {
                string_literal(v)
            } else if v.len() > 0 {
                Some(trim(strip_tail(v, Stop::Other(','))))
            } else {
                acc
            }
        } else {
            acc
        };
        sentinel_default(parts, i + 1, next)
    }
}

/// The `(name, default)` of a sentinel call `fname(:name, default: "x")`
/// whose name takes the first `flen` characters of `s`.
pub open spec fn sentinel_args(s: Seq<char>, flen: int) -> Option<(Seq<char>, Option<Seq<char>>)> {
    let after = s.subrange(flen, s.len() as int);
    match find_char(after, '(') {
        None => None,
        Some(open) => match rfind_char(after.subrange(open, after.len() as int), ')') {
            None => None,
            Some(rc) => {
                let inner = trim(after.subrange(open + 1, open + rc));
                let parts = top_level_commas(inner);
                if inner.len() == 0 || parts.len() == 0 {
                    None
                } else {
                    let name = strip_both(strip_lead(trim(parts[0]), Stop::Other(':')), Stop::NonQuote);
                    if name.len() == 0 {
                        None
                    } else {
                        Some((name, sentinel_default(parts, 1, None)))
                    }
                }
            },
        },
    }
}

fn parse_sentinel_args(s: &Vec<char>, flen: usize) -> (r: Option<(Vec<char>, Option<Vec<char>>)>)
    requires
        flen <= s.len(),
    ensures
        match r {
            Some((n, d)) => sentinel_args(s@, flen as int) == Some((n@, opt_view(d))),
            None => sentinel_args(s@, flen as int) is None,
        },
{
    proof { lemma_keyword_lens(); }
    let after = tail(s, flen);
    let open = match find_char_exec(&after, '(') {
        None => return None,
        Some(o) => o,
    };
    let rest = tail(&after, open);
    let rc = match rfind_char_exec(&rest, ')') {
        None => return None,
        Some(k) => k,
    };
    assert(rest@[0] == '(');
    assert(rc >= 1);
    let inner0 = slice(&after, open + 1, open + rc);
    let inner = trim_exec(&inner0);
    let parts = split_top_level_commas_chars(&inner);
    if inner.len() == 0 || parts.len() == 0 {
        return None;
    }
    let p0 = trim_exec(&parts[0]);
    let p1 = strip_lead_exec(&p0, &Stop::Other(':'));
    let name = strip_both_exec(&p1, &Stop::NonQuote);
    if name.len() == 0 {
        return None;
    }
    let mut default: Option<Vec<char>> = None;
    let mut i: usize = 1;
    while i < parts.len()
        invariant
            1 <= i <= parts.len(),
            "default:"@.len() == 8,
            sentinel_default(views(parts@), i as int, opt_view(default))
                == sentinel_default(views(parts@), 1, None),
        decreases parts.len() - i,
    {
        let r = trim_exec(&parts[i]);
        if starts_with_str(&r, "default:") {
            let v0 = tail(&r, 8);
            let v = trim_exec(&v0);
            if v.len() > 0 && (v[0] == '"' || v[0] == '\'') {
                default = extract_string_chars(&v);
            } else if v.len() > 0 {
                let t = strip_tail_exec(&v, &Stop::Other(','));
                default = Some(trim_exec(&t));
            }
        }
        i = i + 1;
    }
    Some((name, default))
}

/// A `with:` / `set` value: a literal, or a `from_event` / `from_pm` /
/// `from_iter` sentinel.
pub open spec fn value_spec(raw: Seq<char>) -> Option<ValueSpecModel> {
    let s = trim(raw);
    if starts_with(s, "from_event"@) {
        match sentinel_args(s, 10) {
            Some((name, default)) => Some(ValueSpecModel::FromEvent { name, default }),
            None => None,
        }
    } else if starts_with(s, "from_pm"@) {
        match sentinel_args(s, 7) {
            Some((name, default)) => Some(ValueSpecModel::FromPm { name, default }),
            None => None,
        }
    } else if starts_with(s, "from_iter"@) {
        match sentinel_args(s, 9) {
            Some((name, _)) => Some(ValueSpecModel::FromIter { field: name }),
            None => None,
        }
    } else if s.len() > 0 && (s[0] == '"' || s[0] == '\'') {
        Some(ValueSpecModel::Literal { value: or_default(string_literal(s), Seq::empty()) })
    } else {
        let token = trim(strip_tail(s, Stop::Other(',')));
        if token.len() == 0 {
            None
        } else {
            Some(ValueSpecModel::Literal { value: token })
        }
    }
}

pub fn parse_value_spec_chars(raw: &Vec<char>) -> (r: Option<ValueSpec>)
    ensures
        opt_view(r) == value_spec(raw@),
{
    proof { lemma_keyword_lens(); }
    let s = trim_exec(raw);
    if starts_with_str(&s, "from_event") {
        match parse_sentinel_args(&s, 10) {
            Some((name, default)) => Some(ValueSpec::FromEvent { name: string_of(&name), default: opt_string(&default) }),
            None => None,
        }
    } else if starts_with_str(&s, "from_pm") {
        match parse_sentinel_args(&s, 7) {
            Some((name, default)) => Some(ValueSpec::FromPm { name: string_of(&name), default: opt_string(&default) }),
            None => None,
        }
    } else if starts_with_str(&s, "from_iter") {
        match parse_sentinel_args(&s, 9) {
            Some((name, _)) => Some(ValueSpec::FromIter { field: string_of(&name) }),
            None => None,
        }
    } else if s.len() > 0 && (s[0] == '"' || s[0] == '\'') {
        let v = match extract_string_chars(&s) {
            Some(v) => v,
            None => Vec::new(),
        };
        Some(ValueSpec::Literal { value: string_of(&v) })
    } else {
        let t = strip_tail_exec(&s, &Stop::Other(','));
        let token = trim_exec(&t);
        if token.len() == 0 {
            None
        } else {
            Some(ValueSpec::Literal { value: string_of(&token) })
        }
    }
}

/// Parse one value: `"literal"`, a bare token, `from_event(:name)`,
/// `from_event(:name, default: "x")`, `from_pm(...)` or `from_iter(:field)`.
pub fn parse_value_spec(raw: &str) -> (r: Option<ValueSpec>)
    ensures
        opt_view(r) == value_spec(raw@),
{
    let v = chars_of(raw);
    parse_value_spec_chars(&v)
}

/// One `key: value` entry of a `with:` hash.
pub open spec fn with_entry(raw: Seq<char>) -> Option<(Seq<char>, ValueSpecModel)> {
    let entry = trim(strip_tail(trim(raw), Stop::Other(',')));
    if entry.len() == 0 {
        None
    } else {
        match find_char(entry, ':') {
            None => None,
            Some(c) => {
                let key = strip_both(trim(entry.subrange(0, c)), Stop::NonQuoteOrColon);
                if key.len() == 0 {
                    None
                } else {
                    match value_spec(trim(entry.subrange(c + 1, entry.len() as int))) {
                        Some(v) => Some((key, v)),
                        None => None,
                    }
                }
            },
        }
    }
}

/// The entries that parse, in declaration order.
pub open spec fn with_entries(parts: Seq<Seq<char>>) -> Seq<(Seq<char>, ValueSpecModel)>
    decreases parts.len(),
{
    if parts.len() == 0 {
        Seq::empty()
    } else {
        with_entries(parts.drop_last()) + match with_entry(parts.last()) {
            Some(e) => seq![e],
            None => Seq::empty(),
        }
    }
}

/// The inside of a `with: { ... }` hash, split at top-level commas.
pub open spec fn with_hash(body: Seq<char>) -> Seq<(Seq<char>, ValueSpecModel)> {
    with_entries(top_level_commas(body))
}

fn with_entry_exec(raw: &Vec<char>) -> (r: Option<(String, ValueSpec)>)
    ensures
        opt_view(r) == with_entry(raw@),
{
    let t0 = trim_exec(raw);
    let t1 = strip_tail_exec(&t0, &Stop::Other(','));
    let entry = trim_exec(&t1);
    if entry.len() == 0 {
        return None;
    }
    match find_char_exec(&entry, ':') {
        None => None,
        Some(c) => {
            let k0 = slice(&entry, 0, c);
            let k1 = trim_exec(&k0);
            let key = strip_both_exec(&k1, &Stop::NonQuoteOrColon);
            if key.len() == 0 {
                return None;
            }
            let v0 = tail(&entry, c + 1);
            let v = trim_exec(&v0);
            match parse_value_spec_chars(&v) {
                Some(spec) => Some((string_of(&key), spec)),
                None => None,
            }
        },
    }
}

pub fn parse_with_hash_chars(body: &Vec<char>) -> (r: Vec<(String, ValueSpec)>)
    ensures
        seq_view(r@) == with_hash(body@),
{
    let parts = split_top_level_commas_chars(body);
    let ghost ps = views(parts@);
    let mut out: Vec<(String, ValueSpec)> = Vec::new();
    let mut i: usize = 0;
    assert(ps.take(0) =~= Seq::<Seq<char>>::empty());
    while i < parts.len()
        invariant
            i <= parts.len(),
            ps == views(parts@),
            seq_view(out@) == with_entries(ps.take(i as int)),
        decreases parts.len() - i,
    {
        assert(ps.take(i + 1).drop_last() =~= ps.take(i as int));
        assert(ps.take(i + 1).last() == parts@[i as int]@);
        match with_entry_exec(&parts[i]) {
            Some(e) => {
                let ghost before = seq_view(out@);
                out.push(e);
                assert(seq_view(out@) =~= before + seq![e@]);
            },
            None => {
                assert(seq_view(out@) =~= seq_view(out@) + Seq::<(Seq<char>, ValueSpecModel)>::empty());
            },
        }
        i = i + 1;
    }
    assert(ps.take(parts.len() as int) =~= ps);
    out
}


// ---------------------------------------------------------------------
// `set`, `for_each:` and `dispatch`
// ---------------------------------------------------------------------

/// `set :attr, value_spec` as an `(attr, spec)` pair.
pub open spec fn set_statement(line: Seq<char>) -> Option<(Seq<char>, ValueSpecModel)> {
    let t = trim(line);
    if !set_start(t) {
        None
    } else {
        let rest = trim_start(t.subrange(3, t.len() as int));
        match find_char(rest, ',') {
            None => None,
            Some(c) => {
                let attr = strip_both(trim(rest.subrange(0, c)), Stop::NonQuoteOrColon);
                if attr.len() == 0 {
                    None
                } else {
                    match value_spec(trim(rest.subrange(c + 1, rest.len() as int))) {
                        Some(v) => Some((attr, v)),
                        None => None,
                    }
                }
            },
        }
    }
}

pub fn parse_set_statement_chars(line: &Vec<char>) -> (r: Option<(String, ValueSpec)>)
    ensures
        opt_view(r) == set_statement(line@),
{
    proof { lemma_keyword_lens(); }
    let t = trim_exec(line);
    if !is_set_start_chars(&t) {
        return None;
    }
    let r0 = tail(&t, 3);
    let rest = trim_start_exec(&r0);
    match find_char_exec(&rest, ',') {
        None => None,
        Some(c) => {
            let a0 = slice(&rest, 0, c);
            let a1 = trim_exec(&a0);
            let attr = strip_both_exec(&a1, &Stop::NonQuoteOrColon);
            if attr.len() == 0 {
                return None;
            }
            let v0 = tail(&rest, c + 1);
            let v = trim_exec(&v0);
            match parse_value_spec_chars(&v) {
                Some(spec) => Some((string_of(&attr), spec)),
                None => None,
            }
        },
    }
}

/// Parse one (possibly glued) `set :attr, value_spec` line into
/// `(attr, spec)`; `None` when it is not a `set` statement, has no comma,
/// names no attribute or carries no value.
pub fn parse_set_statement(line: &str) -> (r: Option<(String, ValueSpec)>)
    ensures
        opt_view(r) == set_statement(line@),
{
    let v = chars_of(line);
    parse_set_statement_chars(&v)
}

/// The query inputs of a sweep: the `where: { ... }` sub-hash, empty when
/// absent; `None` when its brace is left open.
pub open spec fn where_inputs(body: Seq<char>) -> Option<Seq<(Seq<char>, ValueSpecModel)>> {
    match find_seq(body, "where:"@) {
        None => Some(Seq::empty()),
        Some(wp) => {
            let aw = body.subrange(wp + 6, body.len() as int);
            if find_char(aw, '{') is None {
                Some(Seq::empty())
            } else {
                match braced(aw) {
                    Some(b) => Some(with_hash(b)),
                    None => None,
                }
            }
        },
    }
}

/// The sweep source once the `from:` literal is split at dots; a
/// `[Realm::]Context::Aggregate` aggregate slot keeps its last two `::`
/// segments as context and aggregate.
pub open spec fn sweep_of(
    body: Seq<char>,
    context: Option<Seq<char>>,
    aggregate: Seq<char>,
    query: Seq<char>,
) -> Option<ForEachSpecModel> {
    let segs = split_seq(aggregate, "::"@);
    let (ctx, agg) = if contains_seq(aggregate, "::"@) && segs.len() >= 2 {
        (Some(segs[segs.len() - 2]), segs[segs.len() - 1])
    } else {
        (context, aggregate)
    };
    match where_inputs(body) {
        None => None,
        Some(qi) => Some(
            ForEachSpecModel { source_context: ctx, source_aggregate: agg, query_name: query, query_inputs: qi },
        ),
    }
}

/// The `for_each: { from: "[Context.]Aggregate.query" ... }` clause of a
/// statement's tail; `None` when absent or malformed.
pub open spec fn for_each_clause(tl: Seq<char>) -> Option<ForEachSpecModel> {
    match find_seq(tl, "for_each:"@) {
        None => None,
        Some(pos) => match braced(tl.subrange(pos + 9, tl.len() as int)) {
            None => None,
            Some(body) => match find_seq(body, "from:"@) {
                None => None,
                Some(fp) => match string_literal(trim(body.subrange(fp + 5, body.len() as int))) {
                    None => None,
                    Some(lit) => {
                        let parts = split_char(lit, '.');
                        if parts.len() == 2 && parts[0].len() > 0 && parts[1].len() > 0 {
                            sweep_of(body, None, parts[0], parts[1])
                        } else if parts.len() == 3 && parts[0].len() > 0 && parts[1].len() > 0
                            && parts[2].len() > 0 {
                            sweep_of(body, Some(parts[0]), parts[1], parts[2])
                        } else {
                            None
                        }
                    },
                },
            },
        },
    }
}

fn where_inputs_exec(body: &Vec<char>) -> (r: Option<Vec<(String, ValueSpec)>>)
    ensures
        match r {
            Some(v) => where_inputs(body@) == Some(seq_view(v@)),
            None => where_inputs(body@) is None,
        },
{
    proof { lemma_keyword_lens(); }
    match find_str(body, "where:") {
        None => Some(Vec::new()),
        Some(wp) => {
            let aw = tail(body, wp + 6);
            if find_char_exec(&aw, '{').is_none() {
                return Some(Vec::new());
            }
            match braced_exec(&aw) {
                Some(b) => Some(parse_with_hash_chars(&b)),
                None => None,
            }
        },
    }
}

fn sweep_exec(body: &Vec<char>, context: Option<Vec<char>>, aggregate: Vec<char>, query: Vec<char>) -> (r: Option<ForEachSpec>)
    ensures
        opt_view(r) == sweep_of(body@, opt_view(context), aggregate@, query@),
{
    proof { lemma_keyword_lens(); }
    let sep = chars_of("::");
    let segs = split_seq_exec(&aggregate, &sep);
    let ghost ss = views(segs@);
    let (ctx, agg) = if contains_str(&aggregate, "::") && segs.len() >= 2 {
        let n = segs.len();
        (Some(string_of(&segs[n - 2])), string_of(&segs[n - 1]))
    } else {
        (opt_string(&context), string_of(&aggregate))
    };
    match where_inputs_exec(body) {
        None => None,
        Some(qi) => Some(ForEachSpec { source_context: ctx, source_aggregate: agg, query_name: string_of(&query), query_inputs: qi }),
    }
}

pub fn parse_for_each_clause_chars(tl: &Vec<char>) -> (r: Option<ForEachSpec>)
    ensures
        opt_view(r) == for_each_clause(tl@),
{
    proof { lemma_keyword_lens(); }
    let pos = match find_str(tl, "for_each:") {
        None => return None,
        Some(p) => p,
    };
    let after = tail(tl, pos + 9);
    let body = match braced_exec(&after) {
        None => return None,
        Some(b) => b,
    };
    let fp = match find_str(&body, "from:") {
        None => return None,
        Some(f) => f,
    };
    let v0 = tail(&body, fp + 5);
    let v = trim_exec(&v0);
    let lit = match extract_string_chars(&v) {
        None => return None,
        Some(l) => l,
    };
    let parts = split_char_exec(&lit, '.');
    if parts.len() == 2 && parts[0].len() > 0 && parts[1].len() > 0 {
        sweep_exec(&body, None, parts[0].clone(), parts[1].clone())
    } else if parts.len() == 3 && parts[0].len() > 0 && parts[1].len() > 0 && parts[2].len() > 0 {
        sweep_exec(&body, Some(parts[0].clone()), parts[1].clone(), parts[2].clone())
    } else {
        None
    }
}

/// Lift the `for_each: { from: "Aggregate.query" }` clause of a statement's
/// tail to a sweep; `None` when absent, when the literal has neither two
/// nor three non-empty dotted parts, or when a brace is left open.
pub fn parse_for_each_clause(tail: &str) -> (r: Option<ForEachSpec>)
    ensures
        opt_view(r) == for_each_clause(tail@),
{
    let v = chars_of(tail);
    parse_for_each_clause_chars(&v)
}

/// Index just past the command name's closing quote (the second `"`), or
/// the end of the line.
pub open spec fn command_end(t: Seq<char>) -> int {
    match find_char(t, '"') {
        Some(q1) => match find_char_from(t, '"', q1 + 1) {
            Some(q2) => q2 + 1,
            None => t.len() as int,
        },
        None => t.len() as int,
    }
}

/// A `dispatch "Cmd"[, with: {..}][, for_each: {..}]` statement.
pub open spec fn dispatch_statement(line: Seq<char>) -> Option<DispatchSpecModel> {
    let t = trim(line);
    if !dispatch_start(t) {
        None
    } else {
        match string_literal(t) {
            None => None,
            Some(cmd) => {
                let tl = t.subrange(command_end(t), t.len() as int);
                let with = match find_seq(tl, "with:"@) {
                    None => Some(Seq::empty()),
                    Some(pos) => match braced(tl.subrange(pos + 5, tl.len() as int)) {
                        Some(b) => Some(with_hash(b)),
                        None => None,
                    },
                };
                match with {
                    None => None,
                    Some(w) => Some(
                        DispatchSpecModel { command_name: cmd, with_spec: w, for_each: for_each_clause(tl) },
                    ),
                }
            },
        }
    }
}

pub fn parse_dispatch_statement_chars(line: &Vec<char>) -> (r: Option<DispatchSpec>)
    ensures
        opt_view(r) == dispatch_statement(line@),
{
    proof { lemma_keyword_lens(); }
    let t = trim_exec(line);
    if !is_dispatch_start_chars(&t) {
        return None;
    }
    let cmd = match extract_string_chars(&t) {
        None => return None,
        Some(c) => c,
    };
    let cmd_end = match find_char_exec(&t, '"') {
        Some(q1) => match find_char_from_exec(&t, '"', q1 + 1) {
            Some(q2) => q2 + 1,
            None => t.len(),
        },
        None => t.len(),
    };
    let tl = tail(&t, cmd_end);
    let with_spec = match find_str(&tl, "with:") {
        None => Vec::new(),
        Some(pos) => {
            let after = tail(&tl, pos + 5);
            match braced_exec(&after) {
                Some(b) => parse_with_hash_chars(&b),
                None => return None,
            }
        },
    };
    let for_each = parse_for_each_clause_chars(&tl);
    Some(DispatchSpec { command_name: string_of(&cmd), with_spec, for_each })
}

/// Parse one (possibly glued) `dispatch "Cmd"` statement, with its optional
/// `with: { key: value, ... }` payload (in declaration order) and
/// `for_each:` sweep; `None` when it is not a dispatch statement, names no
/// command, or leaves its `with:` brace open.
pub fn parse_dispatch_statement(line: &str) -> (r: Option<DispatchSpec>)
    ensures
        opt_view(r) == dispatch_statement(line@),
{
    let v = chars_of(line);
    parse_dispatch_statement_chars(&v)
}


// ---------------------------------------------------------------------
// Process managers
// ---------------------------------------------------------------------

/// The `(from, to)` states of a transition hash body: `from: :to` or
/// `:from => :to`.
pub open spec fn transition_pair(body: Seq<char>) -> Option<(Seq<char>, Seq<char>)> {
    match find_seq(body, "=>"@) {
        Some(a) => Some(
            (
                trim(strip_tail(strip_lead(trim(body.subrange(0, a)), Stop::Other(':')), Stop::Other(','))),
                trim(strip_lead(trim(body.subrange(a + 2, body.len() as int)), Stop::Other(':'))),
            ),
        ),
        None => match find_char(body, ':') {
            None => None,
            Some(c) => Some(
                (
                    trim(body.subrange(0, c)),
                    take_until(
                        trim(strip_lead(trim(body.subrange(c + 1, body.len() as int)), Stop::Other(':'))),
                        Stop::CommaOrWhite,
                    ),
                ),
            ),
        },
    }
}

/// An `on "Event", transition: { from: :to } do |event, pm|` line.
pub open spec fn pm_handler(line: Seq<char>) -> Option<ProcessManagerHandlerModel> {
    match string_literal(line) {
        None => None,
        Some(event) => match find_seq(line, "transition:"@) {
            None => None,
            Some(tp) => {
                let after = line.subrange(tp + 11, line.len() as int);
                match find_char(after, '{') {
                    None => None,
                    Some(open) => match find_char(after.subrange(open, after.len() as int), '}') {
                        None => None,
                        Some(rc) => match transition_pair(trim(after.subrange(open + 1, open + rc))) {
                            None => None,
                            Some((from, to)) => if from.len() == 0 || to.len() == 0 {
                                None
                            } else {
                                Some(
                                    ProcessManagerHandlerModel {
                                        event_type: event,
                                        from_state: from,
                                        to_state: to,
                                        dispatches: Seq::empty(),
                                        set_specs: Seq::empty(),
                                    },
                                )
                            },
                        },
                    },
                }
            },
        },
    }
}

fn transition_pair_exec(body: &Vec<char>) -> (r: Option<(Vec<char>, Vec<char>)>)
    ensures
        match r {
            Some((f, t)) => transition_pair(body@) == Some((f@, t@)),
            None => transition_pair(body@) is None,
        },
{
    proof { lemma_keyword_lens(); }
    match find_str(body, "=>") {
        Some(a) => {
            let l0 = slice(body, 0, a);
            let l1 = trim_exec(&l0);
            let l2 = strip_lead_exec(&l1, &Stop::Other(':'));
            let l3 = strip_tail_exec(&l2, &Stop::Other(','));
            let from = trim_exec(&l3);
            let r0 = tail(body, a + 2);
            let r1 = trim_exec(&r0);
            let r2 = strip_lead_exec(&r1, &Stop::Other(':'));
            let to = trim_exec(&r2);
            Some((from, to))
        },
        None => match find_char_exec(body, ':') {
            None => None,
            Some(c) => {
                let f0 = slice(body, 0, c);
                let from = trim_exec(&f0);
                let r0 = tail(body, c + 1);
                let r1 = trim_exec(&r0);
                let r2 = strip_lead_exec(&r1, &Stop::Other(':'));
                let r3 = trim_exec(&r2);
                let to = take_until_exec(&r3, &Stop::CommaOrWhite);
                Some((from, to))
            },
        },
    }
}

fn parse_pm_handler(line: &Vec<char>) -> (r: Option<ProcessManagerHandler>)
    ensures
        opt_view(r) == pm_handler(line@),
{
    proof { lemma_keyword_lens(); }
    let event = match extract_string_chars(line) {
        None => return None,
        Some(e) => e,
    };
    let tp = match find_str(line, "transition:") {
        None => return None,
        Some(t) => t,
    };
    let after = tail(line, tp + 11);
    let open = match find_char_exec(&after, '{') {
        None => return None,
        Some(o) => o,
    };
    let rest = tail(&after, open);
    let rc = match find_char_exec(&rest, '}') {
        None => return None,
        Some(k) => k,
    };
    let b0 = slice(&after, open + 1, open + rc);
    let body = trim_exec(&b0);
    match transition_pair_exec(&body) {
        None => None,
        Some((from, to)) => if from.len() == 0 || to.len() == 0 {
            None
        } else {
            Some(
                ProcessManagerHandler {
                    event_type: string_of(&event),
                    from_state: string_of(&from),
                    to_state: string_of(&to),
                    dispatches: Vec::new(),
                    set_specs: Vec::new(),
                },
            )
        },
    }
}

/// A handler after one body statement: `dispatch` and `set` statements
/// that parse are appended in order.
pub open spec fn absorb(h: Option<ProcessManagerHandlerModel>, joined: Seq<char>) -> Option<ProcessManagerHandlerModel> {
    match h {
        None => None,
        Some(hm) => if dispatch_start(joined) {
            match dispatch_statement(joined) {
                Some(d) => Some(ProcessManagerHandlerModel { dispatches: hm.dispatches.push(d), ..hm }),
                None => h,
            }
        } else if set_start(joined) {
            match set_statement(joined) {
                Some(p) => Some(ProcessManagerHandlerModel { set_specs: hm.set_specs.push(p), ..hm }),
                None => h,
            }
        } else {
            h
        },
    }
}

/// A statement glued with its continuation lines (each trimmed, joined by a
/// space) until its braces and parens balance; with the index of the last
/// line taken.
pub open spec fn glue(ls: Seq<Seq<char>>, at: int, i: int, joined: Seq<char>) -> (Seq<char>, int)
    decreases ls.len() - (at + i),
{
    if !balanced(joined) && 0 <= at && 0 <= i && at + i + 1 < ls.len() {
        glue(ls, at, i + 1, joined + seq![' '] + trim(ls[at + i + 1]))
    } else {
        (joined, i)
    }
}

pub proof fn lemma_glue(ls: Seq<Seq<char>>, at: int, i: int, joined: Seq<char>)
    ensures
        glue(ls, at, i, joined).1 >= i,
        0 <= at && 0 <= i && at + i < ls.len() ==> at + glue(ls, at, i, joined).1 < ls.len(),
    decreases ls.len() - (at + i),
{
    if !balanced(joined) && 0 <= at && 0 <= i && at + i + 1 < ls.len() {
        lemma_glue(ls, at, i + 1, joined + seq![' '] + trim(ls[at + i + 1]));
    }
}

/// The body of an `on ... do` handler, from the line after `at + i` to the
/// `end` at the handler's own indent: the handler with its statements, and
/// the index of that `end` (or of the last line).
pub open spec fn on_walk(
    ls: Seq<Seq<char>>,
    at: int,
    i: int,
    ind: int,
    h: Option<ProcessManagerHandlerModel>,
) -> (Option<ProcessManagerHandlerModel>, int)
    decreases ls.len() - (at + i),
{
    if at < 0 || i < 0 || at + i + 1 >= ls.len() {
        (h, i)
    } else {
        let raw = ls[at + i + 1];
        let t = trim(raw);
        if t == "end"@ && indent_of(raw) == ind {
            (h, i + 1)
        } else if !dispatch_start(t) && !set_start(t) {
            on_walk(ls, at, i + 1, ind, h)
        } else {
            let (joined, k) = glue(ls, at, i + 1, t);
            proof { lemma_glue(ls, at, i + 1, t); }
            on_walk(ls, at, k, ind, absorb(h, joined))
        }
    }
}

pub proof fn lemma_on_walk(ls: Seq<Seq<char>>, at: int, i: int, ind: int, h: Option<ProcessManagerHandlerModel>)
    requires
        0 <= at,
        0 <= i,
        at + i < ls.len(),
    ensures
        i <= on_walk(ls, at, i, ind, h).1,
        at + on_walk(ls, at, i, ind, h).1 < ls.len(),
    decreases ls.len() - (at + i),
{
    if at + i + 1 < ls.len() {
        let raw = ls[at + i + 1];
        let t = trim(raw);
        if t == "end"@ && indent_of(raw) == ind {
        } else if !dispatch_start(t) && !set_start(t) {
            lemma_on_walk(ls, at, i + 1, ind, h);
        } else {
            let (joined, k) = glue(ls, at, i + 1, t);
            lemma_glue(ls, at, i + 1, t);
            lemma_on_walk(ls, at, k, ind, absorb(h, joined));
        }
    }
}

fn absorb_exec(h: Option<ProcessManagerHandler>, joined: &Vec<char>) -> (r: Option<ProcessManagerHandler>)
    ensures
        opt_view(r) == absorb(opt_view(h), joined@),
{
    match h {
        None => None,
        Some(mut hm) => {
            if is_dispatch_start_chars(joined) {
                match parse_dispatch_statement_chars(joined) {
                    Some(d) => {
                        hm.dispatches.push(d);
                    },
                    None => {},
                }
            } else if is_set_start_chars(joined) {
                match parse_set_statement_chars(joined) {
                    Some(p) => {
                        hm.set_specs.push(p);
                    },
                    None => {},
                }
            }
            Some(hm)
        },
    }
}

fn glue_exec(lines: &Vec<Vec<char>>, at: usize, i: usize, first: Vec<char>) -> (r: (Vec<char>, usize))
    requires
        at + i < lines.len(),
    ensures
        (r.0@, r.1 as int) == glue(views(lines@), at as int, i as int, first@),
        i <= r.1,
        at + r.1 < lines.len(),
{
    let ghost ls = views(lines@);
    let mut joined = first;
    let mut k = i;
    while !is_balanced_chars(&joined) && k + 1 < lines.len() - at
        invariant
            at + k < lines.len(),
            i <= k,
            ls == views(lines@),
            glue(ls, at as int, k as int, joined@) == glue(ls, at as int, i as int, first@),
        decreases lines.len() - at - k,
    {
        let ghost prev = joined@;
        k = k + 1;
        assert(ls[at + k] == lines@[at + k]@);
        let t = trim_exec(&lines[at + k]);
        joined.push(' ');
        append(&mut joined, &t);
        assert(joined@ =~= prev + seq![' '] + t@);
    }
    (joined, k)
}


fn on_body_exec(lines: &Vec<Vec<char>>, at: usize, i: usize, ind: u128, h0: Option<ProcessManagerHandler>) -> (r: (
    Option<ProcessManagerHandler>,
    usize,
))
    requires
        at + i < lines.len(),
    ensures
        (opt_view(r.0), r.1 as int) == on_walk(views(lines@), at as int, i as int, ind as int, opt_view(h0)),
        i <= r.1,
        at + r.1 < lines.len(),
{
    let ghost ls = views(lines@);
    let mut h = h0;
    let mut k = i;
    while k + 1 < lines.len() - at
        invariant
            at + k < lines.len(),
            i <= k,
            ls == views(lines@),
            on_walk(ls, at as int, k as int, ind as int, opt_view(h))
                == on_walk(ls, at as int, i as int, ind as int, opt_view(h0)),
        decreases lines.len() - at - k,
    {
        assert(ls[at + k + 1] == lines@[at + k + 1]@);
        let t = trim_exec(&lines[at + k + 1]);
        if eq_str(&t, "end") && indent_exec(&lines[at + k + 1]) == ind {
            return (h, k + 1);
        }
        if !is_dispatch_start_chars(&t) && !is_set_start_chars(&t) {
            k = k + 1;
        } else {
            let (joined, k2) = glue_exec(lines, at, k + 1, t);
            h = absorb_exec(h, &joined);
            k = k2;
        }
    }
    (h, k)
}

/// Walks a process manager's body from line `at + i` at block depth
/// `depth`; the model gathered so far is `pm`. Returns the model and the
/// number of lines consumed.
pub open spec fn pm_walk(ls: Seq<Seq<char>>, at: int, i: int, depth: int, pm: ProcessManagerModel) -> (ProcessManagerModel, int)
    decreases ls.len() - (at + i),
{
    if at < 0 || i < 0 || at + i >= ls.len() || depth <= 0 {
        (pm, i + 1)
    } else {
        let line = trim(ls[at + i]);
        if line == "end"@ {
            if depth - 1 == 0 {
                (pm, i + 1)
            } else {
                pm_walk(ls, at, i + 1, depth - 1, pm)
            }
        } else if depth == 1 && starts_with(line, "correlates_by"@) {
            let next = match symbol_of(line) {
                Some(v) => ProcessManagerModel { correlates_by: v, ..pm },
                None => pm,
            };
            pm_walk(ls, at, i + 1, depth, next)
        } else if depth == 1 && starts_with(line, "starts_on"@) {
            let next = match string_literal(line) {
                Some(v) => ProcessManagerModel { starts_on: v, ..pm },
                None => pm,
            };
            pm_walk(ls, at, i + 1, depth, next)
        } else if depth == 1 && starts_with(line, "ends_on"@) {
            let next = match string_literal(line) {
                Some(v) => ProcessManagerModel { ends_on: Some(v), ..pm },
                None => pm,
            };
            pm_walk(ls, at, i + 1, depth, next)
        } else if depth == 1 && (starts_with(line, "state "@) || starts_with(line, "state\t"@)) {
            let next = match string_literal(line) {
                Some(v) => ProcessManagerModel { states: pm.states.push(v), ..pm },
                None => pm,
            };
            pm_walk(ls, at, i + 1, depth, next)
        } else if depth == 1 && (starts_with(line, "on "@) || starts_with(line, "on\t"@)) {
            let h = pm_handler(line);
            let (h2, j) = if opens_do_block(line) {
                on_walk(ls, at, i, indent_of(ls[at + i]), h)
            } else {
                (h, i)
            };
            proof { lemma_on_walk(ls, at, i, indent_of(ls[at + i]), h); }
            let next = match h2 {
                Some(x) => ProcessManagerModel { handlers: pm.handlers.push(x), ..pm },
                None => pm,
            };
            pm_walk(ls, at, j + 1, depth, next)
        } else if opens_do_block(line) {
            pm_walk(ls, at, i + 1, depth + 1, pm)
        } else {
            pm_walk(ls, at, i + 1, depth, pm)
        }
    }
}

/// `parse_process_manager`'s result for the block opening at `ls[at]`.
pub open spec fn process_manager(ls: Seq<Seq<char>>, at: int) -> (ProcessManagerModel, int) {
    let first = trim(ls[at]);
    pm_walk(
        ls,
        at,
        1,
        1,
        ProcessManagerModel {
            name: or_default(string_literal(first), Seq::empty()),
            correlates_by: Seq::empty(),
            starts_on: Seq::empty(),
            ends_on: None,
            states: Seq::empty(),
            handlers: Seq::empty(),
        },
    )
}

pub fn parse_process_manager_chars(lines: &Vec<Vec<char>>, at: usize) -> (r: (ProcessManager, usize))
    requires
        at < lines.len() < usize::MAX,
    ensures
        (r.0@, r.1 as int) == process_manager(views(lines@), at as int),
        2 <= r.1 <= lines.len() + 1 - at,
{
    let ghost ls = views(lines@);
    let first = trim_exec(&lines[at]);
    assert(ls[at as int] == lines@[at as int]@);
    let name = match extract_string_chars(&first) {
        Some(n) => n,
        None => Vec::new(),
    };
    let mut pm = ProcessManager {
        name: string_of(&name),
        correlates_by: String::new(),
        starts_on: String::new(),
        ends_on: None,
        states: Vec::new(),
        handlers: Vec::new(),
    };
    assert(pm@.states =~= Seq::<Seq<char>>::empty());
    assert(pm@.handlers =~= Seq::<ProcessManagerHandlerModel>::empty());
    let mut i: usize = 1;
    let mut depth: usize = 1;
    while i < lines.len() - at && depth > 0
        invariant
            at < lines.len() < usize::MAX,
            ls == views(lines@),
            1 <= i <= lines.len() - at,
            depth <= i,
            pm_walk(ls, at as int, i as int, depth as int, pm@) == process_manager(ls, at as int),
        decreases lines.len() - at - i,
    {
        assert(ls[at + i] == lines@[at + i]@);
        let line = trim_exec(&lines[at + i]);
        if eq_str(&line, "end") {
            depth = depth - 1;
            if depth == 0 {
                return (pm, i + 1);
            }
            i = i + 1;
        } else if depth == 1 && starts_with_str(&line, "correlates_by") {
            match extract_symbol_chars(&line) {
                Some(v) => {
                    pm.correlates_by = string_of(&v);
                },
                None => {},
            }
            i = i + 1;
        } else if depth == 1 && starts_with_str(&line, "starts_on") {
            match extract_string_chars(&line) {
                Some(v) => {
                    pm.starts_on = string_of(&v);
                },
                None => {},
            }
            i = i + 1;
        } else if depth == 1 && starts_with_str(&line, "ends_on") {
            match extract_string_chars(&line) {
                Some(v) => {
                    pm.ends_on = Some(string_of(&v));
                },
                None => {},
            }
            i = i + 1;
        } else if depth == 1 && (starts_with_str(&line, "state ") || starts_with_str(&line, "state\t")) {
            match extract_string_chars(&line) {
                Some(v) => {
                    pm.states.push(string_of(&v));
                },
                None => {},
            }
            i = i + 1;
        } else if depth == 1 && (starts_with_str(&line, "on ") || starts_with_str(&line, "on\t")) {
            let h = parse_pm_handler(&line);
            let (h2, j) = if ends_with_do_block_chars(&line) {
                let ind = indent_exec(&lines[at + i]);
                on_body_exec(lines, at, i, ind, h)
            } else {
                (h, i)
            };
            match h2 {
                Some(x) => {
                    pm.handlers.push(x);
                },
                None => {},
            }
            i = j + 1;
        } else if ends_with_do_block_chars(&line) {
            depth = depth + 1;
            i = i + 1;
        } else {
            i = i + 1;
        }
    }
    (pm, i + 1)
}

/// Parse a `process_manager "Name" do ... end` block: its correlation key,
/// start and end events, states, and `on` handlers with their `dispatch`
/// and `set` statements. Returns the model and the lines consumed.
pub fn parse_process_manager(lines: &[&str]) -> (r: (ProcessManager, usize))
    requires
        0 < lines.len() < usize::MAX,
    ensures
        (r.0@, r.1 as int) == process_manager(strs_view(lines@), 0),
{
    let ls = lines_of(lines);
    parse_process_manager_chars(&ls, 0)
}


pub proof fn lemma_pm_walk(ls: Seq<Seq<char>>, at: int, i: int, depth: int, pm: ProcessManagerModel)
    requires
        0 <= at,
        0 <= i,
    ensures
        pm_walk(ls, at, i, depth, pm).1 >= i + 1,
    decreases ls.len() - (at + i),
{
    if at + i < ls.len() && depth > 0 {
        let line = trim(ls[at + i]);
        if line == "end"@ {
            if depth - 1 != 0 {
                lemma_pm_walk(ls, at, i + 1, depth - 1, pm);
            }
        } else if depth == 1 && starts_with(line, "correlates_by"@) {
            let next = match symbol_of(line) {
                Some(v) => ProcessManagerModel { correlates_by: v, ..pm },
                None => pm,
            };
            lemma_pm_walk(ls, at, i + 1, depth, next);
        } else if depth == 1 && starts_with(line, "starts_on"@) {
            let next = match string_literal(line) {
                Some(v) => ProcessManagerModel { starts_on: v, ..pm },
                None => pm,
            };
            lemma_pm_walk(ls, at, i + 1, depth, next);
        } else if depth == 1 && starts_with(line, "ends_on"@) {
            let next = match string_literal(line) {
                Some(v) => ProcessManagerModel { ends_on: Some(v), ..pm },
                None => pm,
            };
            lemma_pm_walk(ls, at, i + 1, depth, next);
        } else if depth == 1 && (starts_with(line, "state "@) || starts_with(line, "state\t"@)) {
            let next = match string_literal(line) {
                Some(v) => ProcessManagerModel { states: pm.states.push(v), ..pm },
                None => pm,
            };
            lemma_pm_walk(ls, at, i + 1, depth, next);
        } else if depth == 1 && (starts_with(line, "on "@) || starts_with(line, "on\t"@)) {
            let h = pm_handler(line);
            let (h2, j) = if opens_do_block(line) {
                on_walk(ls, at, i, indent_of(ls[at + i]), h)
            } else {
                (h, i)
            };
            lemma_on_walk(ls, at, i, indent_of(ls[at + i]), h);
            let next = match h2 {
                Some(x) => ProcessManagerModel { handlers: pm.handlers.push(x), ..pm },
                None => pm,
            };
            lemma_pm_walk(ls, at, j + 1, depth, next);
        } else if opens_do_block(line) {
            lemma_pm_walk(ls, at, i + 1, depth + 1, pm);
        } else {
            lemma_pm_walk(ls, at, i + 1, depth, pm);
        }
    }
}

/// A process-manager block takes at least two lines' worth.
pub proof fn lemma_process_manager(ls: Seq<Seq<char>>, at: int)
    requires
        0 <= at < ls.len(),
    ensures
        process_manager(ls, at).1 >= 2,
{
    let first = trim(ls[at]);
    lemma_pm_walk(
        ls,
        at,
        1,
        1,
        ProcessManagerModel {
            name: or_default(string_literal(first), Seq::empty()),
            correlates_by: Seq::empty(),
            starts_on: Seq::empty(),
            ends_on: None,
            states: Seq::empty(),
            handlers: Seq::empty(),
        },
    );
}

} // verus!

//! Capability sections (`section "Title" do row "label", :field end`) and
//! cadences (`cadence "Name" do every "1s"; dispatch "A.B", k: v end`).

use vstd::prelude::*;
use crate::text::{Stop, chars_of, eq_str, find_char, find_char_exec, find_char_from, find_char_from_exec, lines_of, slice, starts_with, starts_with_str, string_of, strip_both, strip_both_exec, strip_lead, strip_lead_exec, strs_view, tail, take_until, take_until_exec, trim, trim_exec, views};
use crate::ir::{Aggregate, Cadence, CadenceDispatch, CadenceDispatchModel, CadenceModel, Command, Section, SectionModel, SectionRow, SectionRowModel, group_views, opt_view, seq_view};
use crate::helpers::{ends_with_do_block_chars, extract_string_chars, extract_symbol_chars, nonempty, nonempty_exec, opens_do_block, or_default, string_literal, symbol_of};

verus! {

broadcast use crate::ir::group_views;

// ---------------------------------------------------------------------
// Sections
// ---------------------------------------------------------------------

/// A `row "label", :field` line (the field may also be quoted or bare).
pub open spec fn section_row(line: Seq<char>) -> Option<SectionRowModel> {
    match string_literal(line) {
        None => None,
        Some(label) => match find_char(line, '"') {
            None => None,
            Some(q1) => match find_char_from(line, '"', q1 + 1) {
                None => None,
                Some(q2) => {
                    let tl = trim(strip_lead(line.subrange(q2 + 1, line.len() as int), Stop::Other(',')));
                    let field = if tl.len() > 0 && tl[0] == '"' {
                        string_literal(tl)
                    } else if tl.len() > 0 && tl[0] == ':' {
                        symbol_of(tl)
                    } else {
                        nonempty(trim(take_until(tl, Stop::NonIdent)))
                    };
                    match field {
                        Some(f) => Some(SectionRowModel { label, field: f }),
                        None => None,
                    }
                },
            },
        },
    }
}

pub fn parse_section_row_chars(line: &Vec<char>) -> (r: Option<SectionRow>)
    ensures
        opt_view(r) == section_row(line@),
{
    let label = match extract_string_chars(line) {
        None => return None,
        Some(l) => l,
    };
    let q1 = match find_char_exec(line, '"') {
        None => return None,
        Some(q) => q,
    };
    let q2 = match find_char_from_exec(line, '"', q1 + 1) {
        None => return None,
        Some(q) => q,
    };
    let t0 = tail(line, q2 + 1);
    let t1 = strip_lead_exec(&t0, &Stop::Other(','));
    let tl = trim_exec(&t1);
    let field = if tl.len() > 0 && tl[0] == '"' {
        extract_string_chars(&tl)
    } else if tl.len() > 0 && tl[0] == ':' {
        extract_symbol_chars(&tl)
    } else {
        let w = take_until_exec(&tl, &Stop::NonIdent);
        nonempty_exec(trim_exec(&w))
    };
    match field {
        Some(f) => Some(SectionRow { label: string_of(&label), field: string_of(&f) }),
        None => None,
    }
}

/// Parse one `row "label", :field` line; the field may be a `:symbol`, a
/// quoted string or a bare identifier. `None` when the line has no label
/// or no field.
pub fn parse_section_row(line: &str) -> (r: Option<SectionRow>)
    ensures
        opt_view(r) == section_row(line@),
{
    let v = chars_of(line);
    parse_section_row_chars(&v)
}

/// Walks a section's body from line `at + i` at depth `depth`.
pub open spec fn section_walk(ls: Seq<Seq<char>>, at: int, i: int, depth: int, rows: Seq<SectionRowModel>) -> (Seq<SectionRowModel>, int)
    decreases ls.len() - (at + i),
{
    if at < 0 || i < 0 || at + i >= ls.len() || depth <= 0 {
        (rows, i + 1)
    } else {
        let line = trim(ls[at + i]);
        if line == "end"@ {
            if depth - 1 == 0 {
                (rows, i + 1)
            } else {
                section_walk(ls, at, i + 1, depth - 1, rows)
            }
        } else if depth == 1 && (starts_with(line, "row "@) || starts_with(line, "row\t"@)) {
            section_walk(
                ls,
                at,
                i + 1,
                depth,
                match section_row(line) {
                    Some(r) => rows.push(r),
                    None => rows,
                },
            )
        } else if opens_do_block(line) {
            section_walk(ls, at, i + 1, depth + 1, rows)
        } else {
            section_walk(ls, at, i + 1, depth, rows)
        }
    }
}

/// `parse_section`'s result for the block opening at `ls[at]`.
pub open spec fn section_block(ls: Seq<Seq<char>>, at: int) -> (SectionModel, int) {
    let (rows, n) = section_walk(ls, at, 1, 1, Seq::empty());
    (SectionModel { title: or_default(string_literal(trim(ls[at])), Seq::empty()), rows }, n)
}

pub fn parse_section_chars(lines: &Vec<Vec<char>>, at: usize) -> (r: (Section, usize))
    requires
        at < lines.len() < usize::MAX,
    ensures
        (r.0@, r.1 as int) == section_block(views(lines@), at as int),
        2 <= r.1 <= lines.len() + 1 - at,
{
    let ghost ls = views(lines@);
    let first = trim_exec(&lines[at]);
    assert(ls[at as int] == lines@[at as int]@);
    let title = match extract_string_chars(&first) {
        Some(t) => t,
        None => Vec::new(),
    };
    let mut rows: Vec<SectionRow> = Vec::new();
    assert(seq_view(rows@) =~= Seq::<SectionRowModel>::empty());
    let mut i: usize = 1;
    let mut depth: usize = 1;
    while i < lines.len() - at && depth > 0
        invariant
            at < lines.len() < usize::MAX,
            ls == views(lines@),
            1 <= i <= lines.len() - at,
            depth <= i,
            title@ == or_default(string_literal(trim(ls[at as int])), Seq::empty()),
            section_walk(ls, at as int, i as int, depth as int, seq_view(rows@))
                == section_walk(ls, at as int, 1, 1, Seq::empty()),
        decreases lines.len() - at - i,
    {
        assert(ls[at + i] == lines@[at + i]@);
        let line = trim_exec(&lines[at + i]);
        if eq_str(&line, "end") {
            depth = depth - 1;
            if depth == 0 {
                return (Section { title: string_of(&title), rows }, i + 1);
            }
        } else if depth == 1 && (starts_with_str(&line, "row ") || starts_with_str(&line, "row\t")) {
            match parse_section_row_chars(&line) {
                Some(r) => {
                    rows.push(r);
                },
                None => {},
            }
        } else if ends_with_do_block_chars(&line) {
            depth = depth + 1;
        }
        i = i + 1;
    }
    (Section { title: string_of(&title), rows }, i + 1)
}

/// Parse a `section "Title" do ... end` block of `row` lines; other lines
/// are skipped. Returns the section and the lines consumed.
pub fn parse_section(lines: &[&str]) -> (r: (Section, usize))
    requires
        0 < lines.len() < usize::MAX,
    ensures
        (r.0@, r.1 as int) == section_block(strs_view(lines@), 0),
{
    let ls = lines_of(lines);
    parse_section_chars(&ls, 0)
}

// ---------------------------------------------------------------------
// Cadences
// ---------------------------------------------------------------------

/// Split a kwarg list at commas outside brackets and `"..."` (a `"` after a
/// backslash does not toggle); pieces trimmed, a trailing empty piece
/// dropped.
pub open spec fn cadence_split(s: Seq<char>, i: int, depth: int, in_str: bool, start: int) -> Seq<Seq<char>>
    decreases s.len() - i,
{
    if i < 0 || i >= s.len() || start < 0 || start > i {
        let last = trim(s.subrange(start, s.len() as int));
        if 0 <= start <= s.len() && last.len() > 0 {
            seq![last]
        } else {
            Seq::empty()
        }
    } else {
        let c = s[i];
        let escaped = i > 0 && s[i - 1] == '\\';
        if c == '"' && !escaped {
            cadence_split(s, i + 1, depth, !in_str, start)
        } else if (c == '[' || c == '{' || c == '(') && !in_str {
            cadence_split(s, i + 1, depth + 1, in_str, start)
        } else if (c == ']' || c == '}' || c == ')') && !in_str {
            cadence_split(s, i + 1, depth - 1, in_str, start)
        } else if c == ',' && !in_str && depth == 0 {
            seq![trim(s.subrange(start, i))] + cadence_split(s, i + 1, depth, in_str, i + 1)
        } else {
            cadence_split(s, i + 1, depth, in_str, start)
        }
    }
}

fn split_top_level_cadence(s: &Vec<char>) -> (r: Vec<Vec<char>>)
    ensures
        views(r@) == cadence_split(s@, 0, 0, false, 0),
{
    let mut out: Vec<Vec<char>> = Vec::new();
    let mut depth: i128 = 0;
    let mut in_str = false;
    let mut start: usize = 0;
    let mut i: usize = 0;
    assert(views(out@) + cadence_split(s@, 0, 0, false, 0) =~= cadence_split(s@, 0, 0, false, 0));
    while i < s.len()
        invariant
            start <= i <= s.len(),
            -(i as int) <= depth <= i as int,
            views(out@) + cadence_split(s@, i as int, depth as int, in_str, start as int)
                == cadence_split(s@, 0, 0, false, 0),
        decreases s.len() - i,
    {
        let c = s[i];
        let escaped = i > 0 && s[i - 1] == '\\';
        if c == '"' && !escaped {
            in_str = !in_str;
        } else if (c == '[' || c == '{' || c == '(') && !in_str {
            depth = depth + 1;
        } else if (c == ']' || c == '}' || c == ')') && !in_str {
            depth = depth - 1;
        } else if c == ',' && !in_str && depth == 0 {
            let p0 = slice(s, start, i);
            let piece = trim_exec(&p0);
            let ghost before = views(out@);
            let ghost rest = cadence_split(s@, i + 1, depth as int, in_str, i + 1);
            out.push(piece);
            assert(views(out@) =~= before.push(piece@));
            assert(before + (seq![piece@] + rest) =~= before.push(piece@) + rest);
            start = i + 1;
        }
        i = i + 1;
    }
    let p0 = tail(s, start);
    let last = trim_exec(&p0);
    if last.len() > 0 {
        let ghost before = views(out@);
        out.push(last);
        assert(views(out@) =~= before.push(last@));
        assert(before + seq![last@] =~= before.push(last@));
    } else {
        assert(views(out@) + Seq::<Seq<char>>::empty() =~= views(out@));
    }
    out
}

/// One `key: value` kwarg of a cadence dispatch; value kept as source text.
pub open spec fn cadence_kwarg(pair: Seq<char>) -> Option<(Seq<char>, Seq<char>)> {
    let p = trim(pair);
    match find_char(p, ':') {
        None => None,
        Some(c) => {
            let key = strip_both(trim(p.subrange(0, c)), Stop::Other(':'));
            let value = trim(p.subrange(c + 1, p.len() as int));
            if key.len() == 0 || value.len() == 0 {
                None
            } else {
                Some((key, value))
            }
        },
    }
}

/// The kwargs that parse, in order.
pub open spec fn cadence_kwargs(pairs: Seq<Seq<char>>) -> Seq<(Seq<char>, Seq<char>)>
    decreases pairs.len(),
{
    if pairs.len() == 0 {
        Seq::empty()
    } else {
        cadence_kwargs(pairs.drop_last()) + match cadence_kwarg(pairs.last()) {
            Some(kv) => seq![kv],
            None => Seq::empty(),
        }
    }
}

/// A `dispatch "Aggregate.Command", k1: v1, k2: v2` cadence line.
pub open spec fn cadence_dispatch(line: Seq<char>) -> Option<CadenceDispatchModel> {
    let t = trim(line);
    match string_literal(t) {
        None => None,
        Some(cmd) => match find_char(t, '"') {
            None => None,
            Some(q1) => match find_char_from(t, '"', q1 + 1) {
                None => None,
                Some(q2) => {
                    let after = trim(t.subrange(q2 + 1, t.len() as int));
                    let attrs = if after.len() > 0 && after[0] == ',' {
                        cadence_kwargs(cadence_split(trim(after.subrange(1, after.len() as int)), 0, 0, false, 0))
                    } else {
                        Seq::empty()
                    };
                    Some(CadenceDispatchModel { command_name: cmd, attrs })
                },
            },
        },
    }
}

pub fn parse_cadence_dispatch_line_chars(line: &Vec<char>) -> (r: Option<CadenceDispatch>)
    ensures
        opt_view(r) == cadence_dispatch(line@),
{
    let t = trim_exec(line);
    let cmd = match extract_string_chars(&t) {
        None => return None,
        Some(c) => c,
    };
    let q1 = match find_char_exec(&t, '"') {
        None => return None,
        Some(q) => q,
    };
    let q2 = match find_char_from_exec(&t, '"', q1 + 1) {
        None => return None,
        Some(q) => q,
    };
    let a0 = tail(&t, q2 + 1);
    let after = trim_exec(&a0);
    let mut attrs: Vec<(String, String)> = Vec::new();
    if after.len() > 0 && after[0] == ',' {
        let k0 = tail(&after, 1);
        let kwargs = trim_exec(&k0);
        let pairs = split_top_level_cadence(&kwargs);
        let ghost ps = views(pairs@);
        let mut i: usize = 0;
        assert(ps.take(0) =~= Seq::<Seq<char>>::empty());
        assert(seq_view(attrs@) =~= Seq::<(Seq<char>, Seq<char>)>::empty());
        while i < pairs.len()
            invariant
                i <= pairs.len(),
                ps == views(pairs@),
                seq_view(attrs@) == cadence_kwargs(ps.take(i as int)),
            decreases pairs.len() - i,
        {
            assert(ps.take(i + 1).drop_last() =~= ps.take(i as int));
            assert(ps.take(i + 1).last() == pairs@[i as int]@);
            let p = trim_exec(&pairs[i]);
            match find_char_exec(&p, ':') {
                None => {},
                Some(c) => {
                    let k0 = slice(&p, 0, c);
                    let k1 = trim_exec(&k0);
                    let key = strip_both_exec(&k1, &Stop::Other(':'));
                    let v0 = tail(&p, c + 1);
                    let value = trim_exec(&v0);
                    if key.len() > 0 && value.len() > 0 {
                        attrs.push((string_of(&key), string_of(&value)));
                    }
                },
            }
            assert(seq_view(attrs@) =~= cadence_kwargs(ps.take(i + 1)));
            i = i + 1;
        }
        assert(ps.take(pairs.len() as int) =~= ps);
    } else {
        assert(seq_view(attrs@) =~= Seq::<(Seq<char>, Seq<char>)>::empty());
    }
    Some(CadenceDispatch { command_name: string_of(&cmd), attrs })
}

/// Parse one `dispatch "Aggregate.Command", k1: v1, k2: v2` line into the
/// command name and its kwargs in order, values as source text.
pub fn parse_cadence_dispatch_line(line: &str) -> (r: Option<CadenceDispatch>)
    ensures
        opt_view(r) == cadence_dispatch(line@),
{
    let v = chars_of(line);
    parse_cadence_dispatch_line_chars(&v)
}

/// Walks a cadence's body from line `at + i` at depth `depth`.
pub open spec fn cadence_walk(ls: Seq<Seq<char>>, at: int, i: int, depth: int, cad: CadenceModel) -> (CadenceModel, int)
    decreases ls.len() - (at + i),
{
    if at < 0 || i < 0 || at + i >= ls.len() || depth <= 0 {
        (cad, i + 1)
    } else {
        let line = trim(ls[at + i]);
        if line == "end"@ {
            if depth - 1 == 0 {
                (cad, i + 1)
            } else {
                cadence_walk(ls, at, i + 1, depth - 1, cad)
            }
        } else if depth == 1 && starts_with(line, "every"@) {
            cadence_walk(
                ls,
                at,
                i + 1,
                depth,
                match string_literal(line) {
                    Some(v) => CadenceModel { interval: v, ..cad },
                    None => cad,
                },
            )
        } else if depth == 1 && (starts_with(line, "dispatch "@) || starts_with(line, "dispatch\t"@)
            || starts_with(line, "dispatch\""@)) {
            cadence_walk(
                ls,
                at,
                i + 1,
                depth,
                match cadence_dispatch(line) {
                    Some(d) => CadenceModel { dispatches: cad.dispatches.push(d), ..cad },
                    None => cad,
                },
            )
        } else if opens_do_block(line) {
            cadence_walk(ls, at, i + 1, depth + 1, cad)
        } else {
            cadence_walk(ls, at, i + 1, depth, cad)
        }
    }
}

/// `parse_cadence`'s result for the block opening at `ls[at]`.
pub open spec fn cadence_block(ls: Seq<Seq<char>>, at: int) -> (CadenceModel, int) {
    cadence_walk(
        ls,
        at,
        1,
        1,
        CadenceModel {
            name: or_default(string_literal(trim(ls[at])), Seq::empty()),
            interval: Seq::empty(),
            dispatches: Seq::empty(),
        },
    )
}

pub fn parse_cadence_chars(lines: &Vec<Vec<char>>, at: usize) -> (r: (Cadence, usize))
    requires
        at < lines.len() < usize::MAX,
    ensures
        (r.0@, r.1 as int) == cadence_block(views(lines@), at as int),
        2 <= r.1 <= lines.len() + 1 - at,
{
    let ghost ls = views(lines@);
    let first = trim_exec(&lines[at]);
    assert(ls[at as int] == lines@[at as int]@);
    let name = match extract_string_chars(&first) {
        Some(n) => n,
        None => Vec::new(),
    };
    let mut cad = Cadence { name: string_of(&name), interval: String::new(), dispatches: Vec::new() };
    assert(seq_view(cad.dispatches@) =~= Seq::<CadenceDispatchModel>::empty());
    let mut i: usize = 1;
    let mut depth: usize = 1;
    while i < lines.len() - at && depth > 0
        invariant
            at < lines.len() < usize::MAX,
            ls == views(lines@),
            1 <= i <= lines.len() - at,
            depth <= i,
            cadence_walk(ls, at as int, i as int, depth as int, cad@) == cadence_block(ls, at as int),
        decreases lines.len() - at - i,
    {
        assert(ls[at + i] == lines@[at + i]@);
        let line = trim_exec(&lines[at + i]);
        if eq_str(&line, "end") {
            depth = depth - 1;
            if depth == 0 {
                return (cad, i + 1);
            }
        } else if depth == 1 && starts_with_str(&line, "every") {
            match extract_string_chars(&line) {
                Some(v) => {
                    cad.interval = string_of(&v);
                },
                None => {},
            }
        } else if depth == 1 && (starts_with_str(&line, "dispatch ") || starts_with_str(&line, "dispatch\t")
            || starts_with_str(&line, "dispatch\"")) {
            match parse_cadence_dispatch_line_chars(&line) {
                Some(d) => {
                    cad.dispatches.push(d);
                },
                None => {},
            }
        } else if ends_with_do_block_chars(&line) {
            depth = depth + 1;
        }
        i = i + 1;
    }
    (cad, i + 1)
}

/// Parse a `cadence "Name" do every "1s"; dispatch ... end` block of
/// scheduled dispatches. Returns the cadence and the lines consumed.
pub fn parse_cadence(lines: &[&str]) -> (r: (Cadence, usize))
    requires
        0 < lines.len() < usize::MAX,
    ensures
        (r.0@, r.1 as int) == cadence_block(strs_view(lines@), 0),
{
    let ls = lines_of(lines);
    parse_cadence_chars(&ls, 0)
}


pub proof fn lemma_section_walk(ls: Seq<Seq<char>>, at: int, i: int, depth: int, rows: Seq<SectionRowModel>)
    requires
        0 <= at,
        0 <= i,
    ensures
        section_walk(ls, at, i, depth, rows).1 >= i + 1,
    decreases ls.len() - (at + i),
{
    if at + i < ls.len() && depth > 0 {
        let line = trim(ls[at + i]);
        if line == "end"@ {
            if depth - 1 != 0 {
                lemma_section_walk(ls, at, i + 1, depth - 1, rows);
            }
        } else if depth == 1 && (starts_with(line, "row "@) || starts_with(line, "row\t"@)) {
            lemma_section_walk(
                ls,
                at,
                i + 1,
                depth,
                match section_row(line) {
                    Some(r) => rows.push(r),
                    None => rows,
                },
            );
        } else if opens_do_block(line) {
            lemma_section_walk(ls, at, i + 1, depth + 1, rows);
        } else {
            lemma_section_walk(ls, at, i + 1, depth, rows);
        }
    }
}

pub proof fn lemma_cadence_walk(ls: Seq<Seq<char>>, at: int, i: int, depth: int, cad: CadenceModel)
    requires
        0 <= at,
        0 <= i,
    ensures
        cadence_walk(ls, at, i, depth, cad).1 >= i + 1,
    decreases ls.len() - (at + i),
{
    if at + i < ls.len() && depth > 0 {
        let line = trim(ls[at + i]);
        if line == "end"@ {
            if depth - 1 != 0 {
                lemma_cadence_walk(ls, at, i + 1, depth - 1, cad);
            }
        } else if depth == 1 && starts_with(line, "every"@) {
            lemma_cadence_walk(
                ls,
                at,
                i + 1,
                depth,
                match string_literal(line) {
                    Some(v) => CadenceModel { interval: v, ..cad },
                    None => cad,
                },
            );
        } else if depth == 1 && (starts_with(line, "dispatch "@) || starts_with(line, "dispatch\t"@)
            || starts_with(line, "dispatch\""@)) {
            lemma_cadence_walk(
                ls,
                at,
                i + 1,
                depth,
                match cadence_dispatch(line) {
                    Some(d) => CadenceModel { dispatches: cad.dispatches.push(d), ..cad },
                    None => cad,
                },
            );
        } else if opens_do_block(line) {
            lemma_cadence_walk(ls, at, i + 1, depth + 1, cad);
        } else {
            lemma_cadence_walk(ls, at, i + 1, depth, cad);
        }
    }
}

/// Section and cadence blocks take at least two lines' worth.
pub proof fn lemma_section_cadence_blocks(ls: Seq<Seq<char>>, at: int)
    requires
        0 <= at < ls.len(),
    ensures
        section_block(ls, at).1 >= 2,
        cadence_block(ls, at).1 >= 2,
{
    lemma_section_walk(ls, at, 1, 1, Seq::empty());
    lemma_cadence_walk(
        ls,
        at,
        1,
        1,
        CadenceModel {
            name: or_default(string_literal(trim(ls[at])), Seq::empty()),
            interval: Seq::empty(),
            dispatches: Seq::empty(),
        },
    );
}

} // verus!

//! Policy blocks: the reaction that fires a command when an event lands.

use vstd::prelude::*;
use crate::text::{Stop, append, eq_str, find_char, find_char_exec, lines_of, opt_string, slice, starts_with, starts_with_str, string_of, strings_view, strip_both, strip_both_exec, strs_view, tail, trim, trim_exec, views};
use crate::ir::{DispatchSpecModel, Policy, PolicyModel, ValueSpec, ValueSpecModel, WhereClauseModel, group_views, opt_view, seq_view};
use crate::helpers::{extract_second_string_chars, extract_string_chars, or_default, second_literal, string_literal};
use crate::blocks::attribute::{member_pairs, split_member_pairs};
use crate::blocks::query::{where_line, parse_where_line_chars};
use crate::blocks::dispatch::{dispatch_start, dispatch_statement, for_each_clause, is_dispatch_start_chars, parse_dispatch_statement_chars, parse_for_each_clause_chars};

verus! {

broadcast use crate::ir::group_views;

proof fn lemma_map_len()
    ensures
        "map "@.len() == 4,
{
    reveal_strlit("map ");
}

/// One `key: value` pair of a `map` line: a `:symbol` renames an event
/// field, anything else is a literal.
pub open spec fn map_entry(pair: Seq<char>) -> Option<(Seq<char>, ValueSpecModel)> {
    match find_char(pair, ':') {
        None => None,
        Some(c) => {
            let key = trim(pair.subrange(0, c));
            let raw = trim(pair.subrange(c + 1, pair.len() as int));
            if key.len() == 0 || raw.len() == 0 {
                None
            } else if raw[0] == ':' {
                Some((key, ValueSpecModel::FromEvent { name: trim(raw.subrange(1, raw.len() as int)), default: None }))
            } else if raw[0] == '"' || raw[0] == '\'' {
                Some((key, ValueSpecModel::Literal { value: or_default(string_literal(raw), Seq::empty()) }))
            } else {
                Some((key, ValueSpecModel::Literal { value: trim(strip_both(raw, Stop::Other(','))) }))
            }
        },
    }
}

/// The entries of the pairs that parse, in order.
pub open spec fn map_entries(pairs: Seq<Seq<char>>) -> Seq<(Seq<char>, ValueSpecModel)>
    decreases pairs.len(),
{
    if pairs.len() == 0 {
        Seq::empty()
    } else {
        map_entries(pairs.drop_last()) + match map_entry(pairs.last()) {
            Some(e) => seq![e],
            None => Seq::empty(),
        }
    }
}

/// The policy after one body line; each directive the line starts with
/// applies in turn.
pub open spec fn policy_line(line: Seq<char>, p: PolicyModel) -> PolicyModel {
    let p1 = if starts_with(line, "on"@) {
        PolicyModel { on_event: or_default(string_literal(line), Seq::empty()), ..p }
    } else {
        p
    };
    let p2 = if starts_with(line, "trigger"@) {
        PolicyModel { trigger_command: or_default(string_literal(line), Seq::empty()), ..p1 }
    } else {
        p1
    };
    let p3 = if starts_with(line, "across"@) {
        PolicyModel { target_domain: string_literal(line), ..p2 }
    } else {
        p2
    };
    let p4 = if starts_with(line, "with"@) && string_literal(line) is Some && second_literal(line) is Some {
        PolicyModel {
            with: p3.with.push(
                (string_literal(line)->0, ValueSpecModel::Literal { value: second_literal(line)->0 }),
            ),
            ..p3
        }
    } else {
        p3
    };
    let p5 = if starts_with(line, "map "@) {
        PolicyModel { with: p4.with + map_entries(member_pairs(trim(line.subrange(3, line.len() as int)))), ..p4 }
    } else {
        p4
    };
    let p6 = if starts_with(line, "where"@) {
        PolicyModel { wheres: p5.wheres + where_line(line, Seq::empty()), ..p5 }
    } else {
        p5
    };
    let p7 = if starts_with(line, "for_each"@) && for_each_clause(line) is Some {
        PolicyModel { for_each: for_each_clause(line), ..p6 }
    } else {
        p6
    };
    if dispatch_start(line) && dispatch_statement(line) is Some {
        PolicyModel { extra_dispatches: p7.extra_dispatches.push(dispatch_statement(line)->0), ..p7 }
    } else {
        p7
    }
}

/// Walks a policy body from line `at + i` to its `end`.
pub open spec fn policy_walk(ls: Seq<Seq<char>>, at: int, i: int, p: PolicyModel) -> (PolicyModel, int)
    decreases ls.len() - (at + i),
{
    if at < 0 || i < 0 || at + i >= ls.len() {
        (p, i + 1)
    } else {
        let line = trim(ls[at + i]);
        if line == "end"@ {
            (p, i + 1)
        } else {
            policy_walk(ls, at, i + 1, policy_line(line, p))
        }
    }
}

/// `parse_policy`'s result for the block opening at `ls[at]`.
pub open spec fn policy_block(ls: Seq<Seq<char>>, at: int) -> (PolicyModel, int) {
    let first = trim(ls[at]);
    policy_walk(
        ls,
        at,
        1,
        PolicyModel {
            name: or_default(string_literal(first), Seq::empty()),
            on_event: Seq::empty(),
            trigger_command: Seq::empty(),
            target_domain: None,
            with: Seq::empty(),
            wheres: Seq::empty(),
            for_each: None,
            extra_dispatches: Seq::empty(),
        },
    )
}

fn map_entry_exec(pair: &Vec<char>) -> (r: Option<(String, ValueSpec)>)
    ensures
        opt_view(r) == map_entry(pair@),
{
    let c = match find_char_exec(pair, ':') {
        None => return None,
        Some(c) => c,
    };
    let k0 = slice(pair, 0, c);
    let key = trim_exec(&k0);
    let r0 = tail(pair, c + 1);
    let raw = trim_exec(&r0);
    if key.len() == 0 || raw.len() == 0 {
        return None;
    }
    let spec = if raw[0] == ':' {
        let n0 = tail(&raw, 1);
        ValueSpec::FromEvent { name: string_of(&trim_exec(&n0)), default: None }
    } else if raw[0] == '"' || raw[0] == '\'' {
        let v = match extract_string_chars(&raw) {
            Some(v) => v,
            None => Vec::new(),
        };
        ValueSpec::Literal { value: string_of(&v) }
    } else {
        let v0 = strip_both_exec(&raw, &Stop::Other(','));
        ValueSpec::Literal { value: string_of(&trim_exec(&v0)) }
    };
    Some((string_of(&key), spec))
}

fn push_map_entries(line: &Vec<char>, with: &mut Vec<(String, ValueSpec)>)
    requires
        line@.len() >= 3,
    ensures
        seq_view(final(with)@) == seq_view(old(with)@) + map_entries(
            member_pairs(trim(line@.subrange(3, line@.len() as int))),
        ),
{
    let b0 = tail(line, 3);
    let body = trim_exec(&b0);
    let pairs = split_member_pairs(&body);
    let ghost ps = views(pairs@);
    let ghost start = seq_view(with@);
    let mut i: usize = 0;
    assert(ps.take(0) =~= Seq::<Seq<char>>::empty());
    assert(seq_view(with@) =~= start + map_entries(ps.take(0)));
    while i < pairs.len()
        invariant
            i <= pairs.len(),
            ps == views(pairs@),
            seq_view(with@) == start + map_entries(ps.take(i as int)),
        decreases pairs.len() - i,
    {
        assert(ps.take(i + 1).drop_last() =~= ps.take(i as int));
        assert(ps.take(i + 1).last() == pairs@[i as int]@);
        match map_entry_exec(&pairs[i]) {
            Some(e) => {
                let ghost before = seq_view(with@);
                with.push(e);
                assert(seq_view(with@) =~= start + map_entries(ps.take(i + 1)));
            },
            None => {
                assert(seq_view(with@) =~= start + map_entries(ps.take(i + 1)));
            },
        }
        i = i + 1;
    }
    assert(ps.take(pairs.len() as int) =~= ps);
}

fn policy_line_exec(line: &Vec<char>, p: &mut Policy)
    ensures
        final(p)@ == policy_line(line@, old(p)@),
{
    proof { lemma_map_len(); }
    if starts_with_str(line, "on") {
        let v = match extract_string_chars(line) {
            Some(v) => v,
            None => Vec::new(),
        };
        p.on_event = string_of(&v);
    }
    if starts_with_str(line, "trigger") {
        let v = match extract_string_chars(line) {
            Some(v) => v,
            None => Vec::new(),
        };
        p.trigger_command = string_of(&v);
    }
    if starts_with_str(line, "across") {
        p.target_domain = opt_string(&extract_string_chars(line));
    }
    if starts_with_str(line, "with") {
        match (extract_string_chars(line), extract_second_string_chars(line)) {
            (Some(key), Some(value)) => {
                p.with.push((string_of(&key), ValueSpec::Literal { value: string_of(&value) }));
            },
            _ => {},
        }
    }
    if starts_with_str(line, "map ") {
        push_map_entries(line, &mut p.with);
    }
    if starts_with_str(line, "where") {
        let empty: Vec<String> = Vec::new();
        assert(strings_view(empty@) =~= Seq::<Seq<char>>::empty());
        let mut ws = parse_where_line_chars(line, empty.as_slice());
        let ghost before = seq_view(p.wheres@);
        let ghost added = seq_view(ws@);
        p.wheres.append(&mut ws);
        assert(seq_view(p.wheres@) =~= before + added);
    }
    if starts_with_str(line, "for_each") {
        match parse_for_each_clause_chars(line) {
            Some(fe) => {
                p.for_each = Some(fe);
            },
            None => {},
        }
    }
    if is_dispatch_start_chars(line) {
        match parse_dispatch_statement_chars(line) {
            Some(ds) => {
                p.extra_dispatches.push(ds);
            },
            None => {},
        }
    }
}

pub fn parse_policy_chars(lines: &Vec<Vec<char>>, at: usize) -> (r: (Policy, usize))
    requires
        at < lines.len() < usize::MAX,
    ensures
        (r.0@, r.1 as int) == policy_block(views(lines@), at as int),
        2 <= r.1 <= lines.len() + 1 - at,
{
    let ghost ls = views(lines@);
    let first = trim_exec(&lines[at]);
    assert(ls[at as int] == lines@[at as int]@);
    let name = match extract_string_chars(&first) {
        Some(n) => n,
        None => Vec::new(),
    };
    let mut p = Policy {
        name: string_of(&name),
        on_event: String::new(),
        trigger_command: String::new(),
        target_domain: None,
        with: Vec::new(),
        wheres: Vec::new(),
        for_each: None,
        extra_dispatches: Vec::new(),
    };
    assert(seq_view(p.with@) =~= Seq::<(Seq<char>, ValueSpecModel)>::empty());
    assert(seq_view(p.wheres@) =~= Seq::<WhereClauseModel>::empty());
    assert(seq_view(p.extra_dispatches@) =~= Seq::<DispatchSpecModel>::empty());
    let mut i: usize = 1;
    while i < lines.len() - at
        invariant
            at < lines.len() < usize::MAX,
            ls == views(lines@),
            1 <= i <= lines.len() - at,
            policy_walk(ls, at as int, i as int, p@) == policy_block(ls, at as int),
        decreases lines.len() - at - i,
    {
        assert(ls[at + i] == lines@[at + i]@);
        let line = trim_exec(&lines[at + i]);
        if eq_str(&line, "end") {
            return (p, i + 1);
        }
        policy_line_exec(&line, &mut p);
        i = i + 1;
    }
    (p, i + 1)
}

/// Parse a `policy "Name" do ... end` block: the event it listens on, the
/// command it triggers (and where), literal `with` arguments, `map`
/// renames of event fields, `where` guards, a `for_each:` sweep and extra
/// `dispatch` reactions. Returns the policy and the lines consumed.
pub fn parse_policy(lines: &[&str]) -> (r: (Policy, usize))
    requires
        0 < lines.len() < usize::MAX,
    ensures
        (r.0@, r.1 as int) == policy_block(strs_view(lines@), 0),
{
    let ls = lines_of(lines);
    parse_policy_chars(&ls, 0)
}


pub proof fn lemma_policy_walk(ls: Seq<Seq<char>>, at: int, i: int, p: PolicyModel)
    requires
        0 <= at,
        0 <= i,
    ensures
        policy_walk(ls, at, i, p).1 >= i + 1,
    decreases ls.len() - (at + i),
{
    if at + i < ls.len() {
        let line = trim(ls[at + i]);
        if line != "end"@ {
            lemma_policy_walk(ls, at, i + 1, policy_line(line, p));
        }
    }
}

/// A policy block takes at least two lines' worth.
pub proof fn lemma_policy_block(ls: Seq<Seq<char>>, at: int)
    requires
        0 <= at < ls.len(),
    ensures
        policy_block(ls, at).1 >= 2,
{
    let first = trim(ls[at]);
    lemma_policy_walk(
        ls,
        at,
        1,
        PolicyModel {
            name: or_default(string_literal(first), Seq::empty()),
            on_event: Seq::empty(),
            trigger_command: Seq::empty(),
            target_domain: None,
            with: Seq::empty(),
            wheres: Seq::empty(),
            for_each: None,
            extra_dispatches: Seq::empty(),
        },
    );
}

} // verus!

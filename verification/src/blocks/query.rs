//! Query blocks: `where` clauses, ordering, limits and reductions.

use vstd::prelude::*;
use crate::text::{Stop, append, chars_of, eq, eq_str, find_char, find_char_exec, lines_of, opt_string, rfind_char, rfind_char_exec, slice, split_char, split_char_exec, starts_with, starts_with_str, string_of, strings_view, strip_both, strip_both_exec, strip_lead, strip_lead_exec, strip_prefix_rep, strip_prefix_rep_exec, strip_tail, strip_tail_exec, strs_view, tail, take_until, take_until_exec, trim, trim_exec, trim_start, trim_start_exec, views, words, words_exec};
use crate::ir::{Attribute, AttributeModel, Direction, LimitSpec, OrderBy, OrderByModel, Query, QueryModel, Reduction, ReductionModel, WhereClause, WhereClauseModel, WhereOp, group_views, opt_view, seq_view};
use crate::helpers::{ends_with_do_block_chars, extract_string_chars, extract_symbol_chars, opens_do_block, or_default, string_literal, symbol_of};
use crate::blocks::attribute::{attribute_of, parse_attribute_chars, top_level_commas, split_top_level_commas_chars};

verus! {

broadcast use crate::ir::group_views;

proof fn lemma_keyword_lens()
    ensures
        "where"@.len() == 5,
        "lt"@.len() == 2,
{
    reveal_strlit("where");
    reveal_strlit("lt");
}

// ---------------------------------------------------------------------
// Where clauses
// ---------------------------------------------------------------------

/// One item of an `in:` list literal, quotes and whitespace stripped.
pub open spec fn list_item(it: Seq<char>) -> Seq<char> {
    trim(strip_both(strip_both(trim(it), Stop::Other('"')), Stop::Other('\'')))
}

/// The non-empty items of a list literal, joined by commas.
pub open spec fn list_csv(parts: Seq<Seq<char>>) -> Seq<char>
    decreases parts.len(),
{
    if parts.len() == 0 {
        Seq::empty()
    } else {
        let prev = list_csv(parts.drop_last());
        let it = list_item(parts.last());
        if it.len() == 0 {
            prev
        } else if prev.len() == 0 {
            it
        } else {
            prev + seq![','] + it
        }
    }
}

/// The canonical value of a where-clause right-hand side: string literals
/// unquoted, list literals as a clean CSV, `:symbols` kept with their
/// colon, and a bare word that names a query parameter given a colon.
pub open spec fn where_value(raw: Seq<char>, params: Seq<Seq<char>>) -> Seq<char> {
    let r = trim(raw);
    if r.len() > 0 && r[0] == '"' {
        or_default(string_literal(r), Seq::empty())
    } else if r.len() > 0 && r[0] == '\'' {
        let inner = strip_lead(r, Stop::Other('\''));
        match rfind_char(inner, '\'') {
            Some(c) => inner.subrange(0, c),
            None => inner,
        }
    } else if r.len() > 0 && r[0] == '[' {
        let inner = strip_lead(r, Stop::Other('['));
        let close = match rfind_char(inner, ']') {
            Some(c) => c,
            None => inner.len() as int,
        };
        list_csv(top_level_commas(inner.subrange(0, close)))
    } else if r.len() > 0 && r[0] == ':' {
        take_until(r, Stop::CommaOrWhite)
    } else {
        let token = take_until(r, Stop::CommaOrWhite);
        if params.contains(token) {
            seq![':'] + token
        } else {
            token
        }
    }
}

fn list_csv_exec(parts: &Vec<Vec<char>>) -> (r: Vec<char>)
    ensures
        r@ == list_csv(views(parts@)),
{
    let ghost ps = views(parts@);
    let mut out: Vec<char> = Vec::new();
    let mut i: usize = 0;
    assert(ps.take(0) =~= Seq::<Seq<char>>::empty());
    while i < parts.len()
        invariant
            i <= parts.len(),
            ps == views(parts@),
            out@ == list_csv(ps.take(i as int)),
        decreases parts.len() - i,
    {
        assert(ps.take(i + 1).drop_last() =~= ps.take(i as int));
        assert(ps.take(i + 1).last() == parts@[i as int]@);
        let t0 = trim_exec(&parts[i]);
        let t1 = strip_both_exec(&t0, &Stop::Other('"'));
        let t2 = strip_both_exec(&t1, &Stop::Other('\''));
        let it = trim_exec(&t2);
        if it.len() > 0 {
            if out.len() == 0 {
                out = it;
            } else {
                let ghost prev = out@;
                out.push(',');
                append(&mut out, &it);
                assert(out@ =~= prev + seq![','] + it@);
            }
        }
        i = i + 1;
    }
    assert(ps.take(parts.len() as int) =~= ps);
    out
}

fn names_contain(params: &[String], token: &Vec<char>) -> (r: bool)
    ensures
        r == strings_view(params@).contains(token@),
{
    let mut j: usize = 0;
    while j < params.len()
        invariant
            j <= params.len(),
            forall|k: int| 0 <= k < j ==> params@[k]@ != token@,
        decreases params.len() - j,
    {
        let pc = chars_of(params[j].as_str());
        if eq(&pc, token) {
            assert(strings_view(params@)[j as int] == token@);
            return true;
        }
        j = j + 1;
    }
    proof {
        if strings_view(params@).contains(token@) {
            let k = choose|k: int| 0 <= k < strings_view(params@).len() && strings_view(params@)[k] == token@;
            assert(params@[k]@ == token@);
        }
    }
    false
}

fn extract_where_value(raw: &Vec<char>, params: &[String]) -> (r: Vec<char>)
    ensures
        r@ == where_value(raw@, strings_view(params@)),
{
    let r = trim_exec(raw);
    if r.len() > 0 && r[0] == '"' {
        match extract_string_chars(&r) {
            Some(v) => v,
            None => Vec::new(),
        }
    } else if r.len() > 0 && r[0] == '\'' {
        let inner = strip_lead_exec(&r, &Stop::Other('\''));
        match rfind_char_exec(&inner, '\'') {
            Some(c) => slice(&inner, 0, c),
            None => inner,
        }
    } else if r.len() > 0 && r[0] == '[' {
        let inner = strip_lead_exec(&r, &Stop::Other('['));
        let close = match rfind_char_exec(&inner, ']') {
            Some(c) => c,
            None => inner.len(),
        };
        let body = slice(&inner, 0, close);
        let parts = split_top_level_commas_chars(&body);
        list_csv_exec(&parts)
    } else if r.len() > 0 && r[0] == ':' {
        take_until_exec(&r, &Stop::CommaOrWhite)
    } else {
        let token = take_until_exec(&r, &Stop::CommaOrWhite);
        if names_contain(params, &token) {
            let mut out: Vec<char> = Vec::new();
            out.push(':');
            append(&mut out, &token);
            assert(out@ =~= seq![':'] + token@);
            out
        } else {
            token
        }
    }
}

/// The comparison a comparator-hash key names.
pub open spec fn where_op_of(key: Seq<char>) -> Option<WhereOp> {
    if key == "lt"@ {
        Some(WhereOp::Lt)
    } else if key == "lte"@ {
        Some(WhereOp::Lte)
    } else if key == "gt"@ {
        Some(WhereOp::Gt)
    } else if key == "gte"@ {
        Some(WhereOp::Gte)
    } else if key == "ne"@ {
        Some(WhereOp::Ne)
    } else if key == "eq"@ {
        Some(WhereOp::Eq)
    } else if key == "in"@ {
        Some(WhereOp::In)
    } else if key == "none_in_state"@ {
        Some(WhereOp::NoneInState)
    } else if key == "contains"@ {
        Some(WhereOp::Contains)
    } else {
        None
    }
}

fn where_op_exec(key: &Vec<char>) -> (r: Option<WhereOp>)
    ensures
        r == where_op_of(key@),
{
    if eq_str(key, "lt") {
        Some(WhereOp::Lt)
    } else if eq_str(key, "lte") {
        Some(WhereOp::Lte)
    } else if eq_str(key, "gt") {
        Some(WhereOp::Gt)
    } else if eq_str(key, "gte") {
        Some(WhereOp::Gte)
    } else if eq_str(key, "ne") {
        Some(WhereOp::Ne)
    } else if eq_str(key, "eq") {
        Some(WhereOp::Eq)
    } else if eq_str(key, "in") {
        Some(WhereOp::In)
    } else if eq_str(key, "none_in_state") {
        Some(WhereOp::NoneInState)
    } else if eq_str(key, "contains") {
        Some(WhereOp::Contains)
    } else {
        None
    }
}

/// A comparator hash `{ op: value }` as its comparison and value text.
pub open spec fn comparator_hash(raw: Seq<char>) -> Option<(WhereOp, Seq<char>)> {
    let r = strip_lead(raw, Stop::Other('{'));
    match rfind_char(r, '}') {
        None => None,
        Some(close) => {
            let inner = trim(r.subrange(0, close));
            match find_char(inner, ':') {
                None => None,
                Some(c) => match where_op_of(strip_lead(trim(inner.subrange(0, c)), Stop::Other(':'))) {
                    Some(op) => Some((op, trim(inner.subrange(c + 1, inner.len() as int)))),
                    None => None,
                },
            }
        },
    }
}

fn parse_comparator_hash(raw: &Vec<char>) -> (r: Option<(WhereOp, Vec<char>)>)
    ensures
        match r {
            Some((op, v)) => comparator_hash(raw@) == Some((op, v@)),
            None => comparator_hash(raw@) is None,
        },
{
    let r = strip_lead_exec(raw, &Stop::Other('{'));
    let close = match rfind_char_exec(&r, '}') {
        None => return None,
        Some(c) => c,
    };
    let i0 = slice(&r, 0, close);
    let inner = trim_exec(&i0);
    let c = match find_char_exec(&inner, ':') {
        None => return None,
        Some(c) => c,
    };
    let k0 = slice(&inner, 0, c);
    let k1 = trim_exec(&k0);
    let key = strip_lead_exec(&k1, &Stop::Other(':'));
    match where_op_exec(&key) {
        Some(op) => {
            let v0 = tail(&inner, c + 1);
            Some((op, trim_exec(&v0)))
        },
        None => None,
    }
}

/// One `field: value` (or `field: { op: value }`) part of a where line.
pub open spec fn where_entry(p: Seq<char>, params: Seq<Seq<char>>) -> Option<WhereClauseModel> {
    let part = trim(p);
    if part.len() == 0 {
        None
    } else {
        match find_char(part, ':') {
            None => None,
            Some(c) => {
                let field = trim(part.subrange(0, c));
                let raw = trim(part.subrange(c + 1, part.len() as int));
                if field.len() == 0 {
                    None
                } else if raw.len() > 0 && raw[0] == '{' && comparator_hash(raw) is Some {
                    let (op, inner) = comparator_hash(raw)->0;
                    Some(WhereClauseModel { field, op, value: where_value(inner, params) })
                } else {
                    Some(WhereClauseModel { field, op: WhereOp::Eq, value: where_value(raw, params) })
                }
            },
        }
    }
}

/// The clauses of the parts that parse, in order.
pub open spec fn where_entries(parts: Seq<Seq<char>>, params: Seq<Seq<char>>) -> Seq<WhereClauseModel>
    decreases parts.len(),
{
    if parts.len() == 0 {
        Seq::empty()
    } else {
        where_entries(parts.drop_last(), params) + match where_entry(parts.last(), params) {
            Some(w) => seq![w],
            None => Seq::empty(),
        }
    }
}

/// The clauses of a `where ...` or `where(...)` line.
pub open spec fn where_line(line: Seq<char>, params: Seq<Seq<char>>) -> Seq<WhereClauseModel> {
    let b0 = trim_start(strip_prefix_rep(line, "where"@));
    let body = if b0.len() > 0 && b0[0] == '(' {
        let b1 = strip_lead(b0, Stop::Other('('));
        match rfind_char(b1, ')') {
            Some(c) => b1.subrange(0, c),
            None => b1,
        }
    } else {
        b0
    };
    where_entries(top_level_commas(body), params)
}

fn where_entry_exec(p: &Vec<char>, params: &[String]) -> (r: Option<WhereClause>)
    ensures
        opt_view(r) == where_entry(p@, strings_view(params@)),
{
    let part = trim_exec(p);
    if part.len() == 0 {
        return None;
    }
    let c = match find_char_exec(&part, ':') {
        None => return None,
        Some(c) => c,
    };
    let f0 = slice(&part, 0, c);
    let field = trim_exec(&f0);
    let r0 = tail(&part, c + 1);
    let raw = trim_exec(&r0);
    if field.len() == 0 {
        return None;
    }
    if raw.len() > 0 && raw[0] == '{' {
        match parse_comparator_hash(&raw) {
            Some((op, inner)) => {
                let value = extract_where_value(&inner, params);
                return Some(WhereClause { field: string_of(&field), op, value: string_of(&value) });
            },
            None => {},
        }
    }
    let value = extract_where_value(&raw, params);
    Some(WhereClause { field: string_of(&field), op: WhereOp::Eq, value: string_of(&value) })
}

pub fn parse_where_line_chars(line: &Vec<char>, params: &[String]) -> (r: Vec<WhereClause>)
    ensures
        seq_view(r@) == where_line(line@, strings_view(params@)),
{
    let s0 = strip_prefix_rep_exec(line, "where");
    let b0 = trim_start_exec(&s0);
    let body = if b0.len() > 0 && b0[0] == '(' {
        let b1 = strip_lead_exec(&b0, &Stop::Other('('));
        match rfind_char_exec(&b1, ')') {
            Some(c) => slice(&b1, 0, c),
            None => b1,
        }
    } else {
        b0
    };
    let parts = split_top_level_commas_chars(&body);
    let ghost ps = views(parts@);
    let ghost pn = strings_view(params@);
    let mut out: Vec<WhereClause> = Vec::new();
    let mut i: usize = 0;
    assert(ps.take(0) =~= Seq::<Seq<char>>::empty());
    while i < parts.len()
        invariant
            i <= parts.len(),
            ps == views(parts@),
            pn == strings_view(params@),
            seq_view(out@) == where_entries(ps.take(i as int), pn),
        decreases parts.len() - i,
    {
        assert(ps.take(i + 1).drop_last() =~= ps.take(i as int));
        assert(ps.take(i + 1).last() == parts@[i as int]@);
        match where_entry_exec(&parts[i], params) {
            Some(w) => {
                let ghost before = seq_view(out@);
                out.push(w);
                assert(seq_view(out@) =~= before + seq![w@]);
            },
            None => {
                assert(seq_view(out@) =~= seq_view(out@) + Seq::<WhereClauseModel>::empty());
            },
        }
        i = i + 1;
    }
    assert(ps.take(parts.len() as int) =~= ps);
    out
}

/// Parse a `where field: value, ...` line (or `where(...)`, or the
/// comparator form `where(field: { lt: value })`) into its clauses, in
/// order. A bare word that names one of `param_names` becomes a
/// `:param` reference.
pub fn parse_where_line(line: &str, param_names: &[String]) -> (r: Vec<WhereClause>)
    ensures
        seq_view(r@) == where_line(line@, strings_view(param_names@)),
{
    let v = chars_of(line);
    parse_where_line_chars(&v, param_names)
}


// ---------------------------------------------------------------------
// Ordering and limits
// ---------------------------------------------------------------------

/// `order_by :field[, :desc]`.
pub open spec fn order_by_of(line: Seq<char>) -> Option<OrderByModel> {
    let b0 = trim(strip_prefix_rep(line, "order_by"@));
    let body = strip_tail(strip_lead(b0, Stop::Other('(')), Stop::Other(')'));
    let parts = split_char(body, ',');
    if parts.len() == 0 {
        None
    } else {
        let field = strip_lead(trim(parts[0]), Stop::Other(':'));
        if field.len() == 0 {
            None
        } else {
            let dir = if parts.len() > 1 {
                let d = strip_lead(trim(parts[1]), Stop::Other(':'));
                if d == "desc"@ || d == "Desc"@ || d == "DESC"@ {
                    Direction::Desc
                } else {
                    Direction::Asc
                }
            } else {
                Direction::Asc
            };
            Some(OrderByModel { field, direction: dir })
        }
    }
}

pub fn parse_order_by_line_chars(line: &Vec<char>) -> (r: Option<OrderBy>)
    ensures
        opt_view(r) == order_by_of(line@),
{
    let s0 = strip_prefix_rep_exec(line, "order_by");
    let b0 = trim_exec(&s0);
    let b1 = strip_lead_exec(&b0, &Stop::Other('('));
    let body = strip_tail_exec(&b1, &Stop::Other(')'));
    let parts = split_char_exec(&body, ',');
    if parts.len() == 0 {
        return None;
    }
    let f0 = trim_exec(&parts[0]);
    let field = strip_lead_exec(&f0, &Stop::Other(':'));
    if field.len() == 0 {
        return None;
    }
    let direction = if parts.len() > 1 {
        let d0 = trim_exec(&parts[1]);
        let d = strip_lead_exec(&d0, &Stop::Other(':'));
        if eq_str(&d, "desc") || eq_str(&d, "Desc") || eq_str(&d, "DESC") {
            Direction::Desc
        } else {
            Direction::Asc
        }
    } else {
        Direction::Asc
    };
    Some(OrderBy { field: string_of(&field), direction })
}

/// Parse `order_by :field` or `order_by :field, :desc`; the direction is
/// descending only for `desc`, `Desc` or `DESC`.
pub fn parse_order_by_line(line: &str) -> (r: Option<OrderBy>)
    ensures
        opt_view(r) == order_by_of(line@),
{
    let v = chars_of(line);
    parse_order_by_line_chars(&v)
}

/// `limit 10` or `limit :max_results`: the first token.
pub open spec fn limit_of(line: Seq<char>) -> Option<Seq<char>> {
    let b0 = trim(strip_prefix_rep(line, "limit"@));
    let body = strip_tail(strip_lead(b0, Stop::Other('(')), Stop::Other(')'));
    let token = trim(take_until(body, Stop::CommaOrWhite));
    if token.len() == 0 {
        None
    } else {
        Some(token)
    }
}

pub fn parse_limit_line_chars(line: &Vec<char>) -> (r: Option<LimitSpec>)
    ensures
        opt_view(r) == limit_of(line@),
{
    let s0 = strip_prefix_rep_exec(line, "limit");
    let b0 = trim_exec(&s0);
    let b1 = strip_lead_exec(&b0, &Stop::Other('('));
    let body = strip_tail_exec(&b1, &Stop::Other(')'));
    let t0 = take_until_exec(&body, &Stop::CommaOrWhite);
    let token = trim_exec(&t0);
    if token.len() == 0 {
        None
    } else {
        Some(LimitSpec { value: string_of(&token) })
    }
}

/// Parse `limit 10` or `limit :max_results` into its token.
pub fn parse_limit_line(line: &str) -> (r: Option<LimitSpec>)
    ensures
        opt_view(r) == limit_of(line@),
{
    let v = chars_of(line);
    parse_limit_line_chars(&v)
}

// ---------------------------------------------------------------------
// Query blocks
// ---------------------------------------------------------------------

/// The names of block parameters `|a, :b|` that are not empty.
pub open spec fn param_names(parts: Seq<Seq<char>>) -> Seq<Seq<char>>
    decreases parts.len(),
{
    if parts.len() == 0 {
        Seq::empty()
    } else {
        let nm = strip_lead(trim(parts.last()), Stop::Other(':'));
        param_names(parts.drop_last()) + if nm.len() == 0 {
            Seq::empty()
        } else {
            seq![nm]
        }
    }
}

/// The parameters between the last two `|` of a block opener.
pub open spec fn block_params(first: Seq<char>) -> Seq<Seq<char>> {
    match rfind_char(first, '|') {
        None => Seq::empty(),
        Some(open) => match rfind_char(first.subrange(0, open), '|') {
            None => Seq::empty(),
            Some(prev) => param_names(split_char(first.subrange(prev + 1, open), ',')),
        },
    }
}

/// An implicit `String` attribute for a block parameter.
pub open spec fn param_attribute(name: Seq<char>) -> AttributeModel {
    AttributeModel {
        name,
        attr_type: "String"@,
        default: None,
        list: false,
        required: false,
        enum_values: Seq::empty(),
        pattern: None,
        hint: None,
        logged: true,
    }
}

/// The names of the attributes declared so far.
pub open spec fn attribute_names(attrs: Seq<AttributeModel>) -> Seq<Seq<char>> {
    attrs.map_values(|a: AttributeModel| a.name)
}

/// The query after one of its own directive lines; `None` when the line
/// is not one.
pub open spec fn query_line(line: Seq<char>, q: QueryModel) -> Option<QueryModel> {
    if starts_with(line, "description"@) {
        Some(QueryModel { description: string_literal(line), ..q })
    } else if starts_with(line, "attribute"@) {
        Some(
            match attribute_of(line) {
                Some(a) => QueryModel { attributes: q.attributes.push(a), ..q },
                None => q,
            },
        )
    } else if starts_with(line, "where"@) {
        Some(QueryModel { wheres: q.wheres + where_line(line, attribute_names(q.attributes)), ..q })
    } else if starts_with(line, "order_by"@) {
        Some(
            match order_by_of(line) {
                Some(o) => QueryModel { order_by: Some(o), ..q },
                None => q,
            },
        )
    } else if starts_with(line, "limit"@) {
        Some(
            match limit_of(line) {
                Some(l) => QueryModel { limit: Some(l), ..q },
                None => q,
            },
        )
    } else if line == "count"@ || starts_with(line, "count "@) || starts_with(line, "count\t"@) {
        Some(QueryModel { reduction: Some(ReductionModel::Count), ..q })
    } else if starts_with(line, "sum"@) {
        Some(reduce_with(q, symbol_of(line), |f: Seq<char>| ReductionModel::Sum(f)))
    } else if starts_with(line, "median"@) {
        Some(reduce_with(q, symbol_of(line), |f: Seq<char>| ReductionModel::Median(f)))
    } else if starts_with(line, "max"@) {
        Some(reduce_with(q, symbol_of(line), |f: Seq<char>| ReductionModel::Max(f)))
    } else if starts_with(line, "min"@) {
        Some(reduce_with(q, symbol_of(line), |f: Seq<char>| ReductionModel::Min(f)))
    } else if starts_with(line, "group_by"@) {
        Some(
            match symbol_of(line) {
                Some(f) => QueryModel { group_by: Some(f), ..q },
                None => q,
            },
        )
    } else if starts_with(line, "scope_to"@) {
        Some(
            match symbol_of(line) {
                Some(f) => QueryModel { scope_to: Some(f), ..q },
                None => q,
            },
        )
    } else {
        None
    }
}

/// The query with its reduction over the named field, when one is named.
pub open spec fn reduce_with(q: QueryModel, field: Option<Seq<char>>, mk: spec_fn(Seq<char>) -> ReductionModel) -> QueryModel {
    match field {
        Some(f) => QueryModel { reduction: Some(mk(f)), ..q },
        None => q,
    }
}

/// Walks a query body from line `at + i` at block depth `depth`.
pub open spec fn query_walk(ls: Seq<Seq<char>>, at: int, i: int, depth: int, q: QueryModel) -> (QueryModel, int)
    decreases ls.len() - (at + i),
{
    if at < 0 || i < 0 || at + i >= ls.len() || depth <= 0 {
        (q, i + 1)
    } else {
        let line = trim(ls[at + i]);
        if line == "end"@ {
            if depth - 1 == 0 {
                (q, i + 1)
            } else {
                query_walk(ls, at, i + 1, depth - 1, q)
            }
        } else if depth == 1 && query_line(line, q) is Some {
            query_walk(ls, at, i + 1, depth, query_line(line, q)->0)
        } else if opens_do_block(line) {
            query_walk(ls, at, i + 1, depth + 1, q)
        } else {
            query_walk(ls, at, i + 1, depth, q)
        }
    }
}

/// The query's name: the quoted name, or else the second word unquoted.
pub open spec fn query_name(first: Seq<char>) -> Seq<char> {
    match string_literal(first) {
        Some(n) => n,
        None => {
            let w = words(first);
            if w.len() > 1 {
                strip_both(w[1], Stop::Other('"'))
            } else {
                Seq::empty()
            }
        },
    }
}

/// `parse_query`'s result for the block opening at `ls[at]`.
pub open spec fn query_block(ls: Seq<Seq<char>>, at: int) -> (QueryModel, int) {
    let first = trim(ls[at]);
    query_walk(
        ls,
        at,
        1,
        1,
        QueryModel {
            name: query_name(first),
            description: None,
            attributes: block_params(first).map_values(|n: Seq<char>| param_attribute(n)),
            wheres: Seq::empty(),
            order_by: None,
            limit: None,
            reduction: None,
            group_by: None,
            scope_to: None,
        },
    )
}


fn query_line_exec(line: &Vec<char>, q: &mut Query) -> (r: bool)
    ensures
        r == query_line(line@, old(q)@) is Some,
        r ==> final(q)@ == query_line(line@, old(q)@)->0,
        !r ==> final(q)@ == old(q)@,
{
    if starts_with_str(line, "description") {
        q.description = opt_string(&extract_string_chars(line));
    } else if starts_with_str(line, "attribute") {
        match parse_attribute_chars(line) {
            Some(a) => {
                q.attributes.push(a);
            },
            None => {},
        }
    } else if starts_with_str(line, "where") {
        let mut names: Vec<String> = Vec::new();
        let mut j: usize = 0;
        let ghost all = attribute_names(seq_view(q.attributes@));
        while j < q.attributes.len()
            invariant
                j <= q.attributes.len(),
                all == attribute_names(seq_view(q.attributes@)),
                names@.len() == j,
                strings_view(names@) == all.take(j as int),
            decreases q.attributes.len() - j,
        {
            let nm = q.attributes[j].name.clone();
            assert(seq_view(q.attributes@)[j as int] == q.attributes@[j as int]@);
            assert(all[j as int] == nm@);
            let ghost before = names@;
            names.push(nm);
            assert(names@ == before.push(nm));
            assert forall|k: int| 0 <= k < j + 1 implies strings_view(names@)[k] == all.take(j + 1)[k] by {
                if k < j {
                    assert(strings_view(before)[k] == all.take(j as int)[k]);
                    assert(names@[k] == before[k]);
                } else {
                    assert(names@[k] == nm);
                }
            }
            assert(strings_view(names@) =~= all.take(j + 1));
            j = j + 1;
        }
        assert(all.take(q.attributes.len() as int) =~= all);
        let mut ws = parse_where_line_chars(line, names.as_slice());
        let ghost before = seq_view(q.wheres@);
        let ghost added = seq_view(ws@);
        q.wheres.append(&mut ws);
        assert(seq_view(q.wheres@) =~= before + added);
    } else if starts_with_str(line, "order_by") {
        match parse_order_by_line_chars(line) {
            Some(o) => {
                q.order_by = Some(o);
            },
            None => {},
        }
    } else if starts_with_str(line, "limit") {
        match parse_limit_line_chars(line) {
            Some(l) => {
                q.limit = Some(l);
            },
            None => {},
        }
    } else if eq_str(line, "count") || starts_with_str(line, "count ") || starts_with_str(line, "count\t") {
        q.reduction = Some(Reduction::Count);
    } else if starts_with_str(line, "sum") {
        match extract_symbol_chars(line) {
            Some(f) => {
                q.reduction = Some(Reduction::Sum(string_of(&f)));
            },
            None => {},
        }
    } else if starts_with_str(line, "median") {
        match extract_symbol_chars(line) {
            Some(f) => {
                q.reduction = Some(Reduction::Median(string_of(&f)));
            },
            None => {},
        }
    } else if starts_with_str(line, "max") {
        match extract_symbol_chars(line) {
            Some(f) => {
                q.reduction = Some(Reduction::Max(string_of(&f)));
            },
            None => {},
        }
    } else if starts_with_str(line, "min") {
        match extract_symbol_chars(line) {
            Some(f) => {
                q.reduction = Some(Reduction::Min(string_of(&f)));
            },
            None => {},
        }
    } else if starts_with_str(line, "group_by") {
        match extract_symbol_chars(line) {
            Some(f) => {
                q.group_by = Some(string_of(&f));
            },
            None => {},
        }
    } else if starts_with_str(line, "scope_to") {
        match extract_symbol_chars(line) {
            Some(f) => {
                q.scope_to = Some(string_of(&f));
            },
            None => {},
        }
    } else {
        return false;
    }
    true
}

fn block_param_attributes(first: &Vec<char>) -> (r: Vec<Attribute>)
    ensures
        seq_view(r@) == block_params(first@).map_values(|n: Seq<char>| param_attribute(n)),
{
    let mut out: Vec<Attribute> = Vec::new();
    let open = match rfind_char_exec(first, '|') {
        None => {
            assert(seq_view(out@) =~= block_params(first@).map_values(|n: Seq<char>| param_attribute(n)));
            return out;
        },
        Some(o) => o,
    };
    let head = slice(first, 0, open);
    let prev = match rfind_char_exec(&head, '|') {
        None => {
            assert(seq_view(out@) =~= block_params(first@).map_values(|n: Seq<char>| param_attribute(n)));
            return out;
        },
        Some(p) => p,
    };
    let inside = slice(first, prev + 1, open);
    let parts = split_char_exec(&inside, ',');
    let ghost ps = views(parts@);
    let mut i: usize = 0;
    assert(ps.take(0) =~= Seq::<Seq<char>>::empty());
    assert(seq_view(out@) =~= param_names(ps.take(0)).map_values(|n: Seq<char>| param_attribute(n)));
    while i < parts.len()
        invariant
            i <= parts.len(),
            ps == views(parts@),
            seq_view(out@) == param_names(ps.take(i as int)).map_values(|n: Seq<char>| param_attribute(n)),
        decreases parts.len() - i,
    {
        assert(ps.take(i + 1).drop_last() =~= ps.take(i as int));
        assert(ps.take(i + 1).last() == parts@[i as int]@);
        let t = trim_exec(&parts[i]);
        let nm = strip_lead_exec(&t, &Stop::Other(':'));
        let ghost before = param_names(ps.take(i as int));
        if nm.len() > 0 {
            out.push(
                Attribute {
                    name: string_of(&nm),
                    attr_type: String::from_str("String"),
                    default: None,
                    list: false,
                    required: false,
                    enum_values: Vec::new(),
                    pattern: None,
                    hint: None,
                    logged: true,
                },
            );
            assert(param_names(ps.take(i + 1)) =~= before.push(nm@));
            assert(seq_view(out@) =~= before.push(nm@).map_values(|n: Seq<char>| param_attribute(n)));
        } else {
            assert(param_names(ps.take(i + 1)) =~= before);
        }
        i = i + 1;
    }
    assert(ps.take(parts.len() as int) =~= ps);
    out
}

fn query_name_exec(first: &Vec<char>) -> (r: Vec<char>)
    ensures
        r@ == query_name(first@),
{
    match extract_string_chars(first) {
        Some(n) => n,
        None => {
            let w = words_exec(first);
            if w.len() > 1 {
                strip_both_exec(&w[1], &Stop::Other('"'))
            } else {
                Vec::new()
            }
        },
    }
}

pub fn parse_query_chars(lines: &Vec<Vec<char>>, at: usize) -> (r: (Query, usize))
    requires
        at < lines.len() < usize::MAX,
    ensures
        (r.0@, r.1 as int) == query_block(views(lines@), at as int),
        2 <= r.1 <= lines.len() + 1 - at,
{
    let ghost ls = views(lines@);
    let first = trim_exec(&lines[at]);
    assert(ls[at as int] == lines@[at as int]@);
    let name = query_name_exec(&first);
    let attributes = block_param_attributes(&first);
    let mut q = Query {
        name: string_of(&name),
        description: None,
        attributes,
        wheres: Vec::new(),
        order_by: None,
        limit: None,
        reduction: None,
        group_by: None,
        scope_to: None,
    };
    assert(seq_view(q.wheres@) =~= Seq::<WhereClauseModel>::empty());
    let mut i: usize = 1;
    let mut depth: usize = 1;
    while i < lines.len() - at && depth > 0
        invariant
            at < lines.len() < usize::MAX,
            ls == views(lines@),
            1 <= i <= lines.len() - at,
            depth <= i,
            query_walk(ls, at as int, i as int, depth as int, q@) == query_block(ls, at as int),
        decreases lines.len() - at - i,
    {
        assert(ls[at + i] == lines@[at + i]@);
        let line = trim_exec(&lines[at + i]);
        if eq_str(&line, "end") {
            depth = depth - 1;
            if depth == 0 {
                return (q, i + 1);
            }
        } else if depth == 1 && query_line_exec(&line, &mut q) {
        } else if ends_with_do_block_chars(&line) {
            depth = depth + 1;
        }
        i = i + 1;
    }
    (q, i + 1)
}

/// Parse a `query "Name" do |params| ... end` block: description,
/// attributes (block parameters become `String` attributes), where
/// clauses, ordering, limit, reduction, grouping and row scope. Returns
/// the query and the lines consumed.
pub fn parse_query(lines: &[&str]) -> (r: (Query, usize))
    requires
        0 < lines.len() < usize::MAX,
    ensures
        (r.0@, r.1 as int) == query_block(strs_view(lines@), 0),
{
    let ls = lines_of(lines);
    parse_query_chars(&ls, 0)
}


pub proof fn lemma_query_walk(ls: Seq<Seq<char>>, at: int, i: int, depth: int, q: QueryModel)
    requires
        0 <= at,
        1 <= i,
        at + i <= ls.len(),
    ensures
        i + 1 <= query_walk(ls, at, i, depth, q).1 <= ls.len() + 1 - at,
    decreases ls.len() - (at + i),
{
    if at + i < ls.len() && depth > 0 {
        let line = trim(ls[at + i]);
        if line == "end"@ {
            if depth - 1 != 0 {
                lemma_query_walk(ls, at, i + 1, depth - 1, q);
            }
        } else if depth == 1 && query_line(line, q) is Some {
            lemma_query_walk(ls, at, i + 1, depth, query_line(line, q)->0);
        } else if opens_do_block(line) {
            lemma_query_walk(ls, at, i + 1, depth + 1, q);
        } else {
            lemma_query_walk(ls, at, i + 1, depth, q);
        }
    }
}

/// A query block takes at least two lines' worth and at most what follows
/// its opener plus one.
pub proof fn lemma_query_block(ls: Seq<Seq<char>>, at: int)
    requires
        0 <= at < ls.len(),
    ensures
        2 <= query_block(ls, at).1 <= ls.len() + 1 - at,
{
    let first = trim(ls[at]);
    lemma_query_walk(
        ls,
        at,
        1,
        1,
        QueryModel {
            name: query_name(first),
            description: None,
            attributes: block_params(first).map_values(|n: Seq<char>| param_attribute(n)),
            wheres: Seq::empty(),
            order_by: None,
            limit: None,
            reduction: None,
            group_by: None,
            scope_to: None,
        },
    );
}

} // verus!
